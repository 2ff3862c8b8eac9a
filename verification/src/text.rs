//! Character sequences: splitting on a delimiter, trimming white space,
//! dropping a character, and moving between `str`, `String` and `Vec<char>`.

use vstd::prelude::*;
use vstd::std_specs::iter::IteratorSpec;

verus! {

/// The pieces of `s` between occurrences of `delim`, read left to right: a
/// delimiter closes the current piece and opens a new, empty one. There is
/// always at least one piece, and no piece holds `delim`.
pub open spec fn split_on(s: Seq<char>, delim: char) -> Seq<Seq<char>>
    decreases s.len(),
{
    if s.len() == 0 {
        seq![Seq::<char>::empty()]
    } else {
        let before = split_on(s.drop_last(), delim);
        if s.last() == delim {
            before.push(Seq::<char>::empty())
        } else {
            before.drop_last().push(before.last().push(s.last()))
        }
    }
}

/// Unicode white space, the characters that trimming removes.
pub open spec fn is_space(c: char) -> bool {
    let u = c as u32;
    ||| 0x09 <= u <= 0x0D
    ||| u == 0x20
    ||| u == 0x85
    ||| u == 0xA0
    ||| u == 0x1680
    ||| 0x2000 <= u <= 0x200A
    ||| u == 0x2028
    ||| u == 0x2029
    ||| u == 0x202F
    ||| u == 0x205F
    ||| u == 0x3000
}

/// `s` without its leading white space.
pub open spec fn trim_start_of(s: Seq<char>) -> Seq<char>
    decreases s.len(),
{
    if s.len() > 0 && is_space(s.first()) {
        trim_start_of(s.drop_first())
    } else {
        s
    }
}

/// `s` without its trailing white space.
pub open spec fn trim_end_of(s: Seq<char>) -> Seq<char>
    decreases s.len(),
{
    if s.len() > 0 && is_space(s.last()) {
        trim_end_of(s.drop_last())
    } else {
        s
    }
}

/// `s` without leading and trailing white space.
pub open spec fn trimmed(s: Seq<char>) -> Seq<char> {
    trim_end_of(trim_start_of(s))
}

/// `s` with every occurrence of `c` taken out.
pub open spec fn without(s: Seq<char>, c: char) -> Seq<char>
    decreases s.len(),
{
    if s.len() == 0 {
        s
    } else if s.last() == c {
        without(s.drop_last(), c)
    } else {
        without(s.drop_last(), c).push(s.last())
    }
}

/// The pieces as sequences of characters.
pub open spec fn pieces_view(pieces: Seq<Vec<char>>) -> Seq<Seq<char>> {
    Seq::new(pieces.len(), |i: int| pieces[i]@)
}

/// Whether `c` is Unicode white space.
pub fn is_space_char(c: char) -> (r: bool)
    ensures
        r == is_space(c),
{
    let u: u32 = c as u32;
    (0x09 <= u && u <= 0x0D) || u == 0x20 || u == 0x85 || u == 0xA0 || u == 0x1680 || (0x2000 <= u
        && u <= 0x200A) || u == 0x2028 || u == 0x2029 || u == 0x202F || u == 0x205F || u == 0x3000
}

/// The characters of `s`.
pub fn to_chars(s: &str) -> (r: Vec<char>)
    ensures
        r@ == s@,
{
    let mut out: Vec<char> = Vec::new();
    for c in it: s.chars()
        invariant
            out@ == it.seq().take(it.index() as int),
            it.seq() == s@,
    {
        out.push(c);
    }
    out
}

/// Appends one character to a string, as `String::push` does.
#[verifier::external_body]
fn push_char(s: &mut String, c: char)
    ensures
        final(s)@ == old(s)@.push(c),
{
    s.push(c)
}

/// The string made of `chars`.
pub fn from_chars(chars: &Vec<char>) -> (r: String)
    ensures
        r@ == chars@,
{
    let mut out = String::new();
    let mut i: usize = 0;
    while i < chars.len()
        invariant
            i <= chars.len(),
            out@ == chars@.take(i as int),
        decreases chars.len() - i,
    {
        push_char(&mut out, chars[i]);
        assert(chars@.take(i + 1) == chars@.take(i as int).push(chars@[i as int]));
        i += 1;
    }
    out
}

/// The characters of `s` from `lo` up to `hi`.
pub fn copy_range(s: &Vec<char>, lo: usize, hi: usize) -> (r: Vec<char>)
    requires
        lo <= hi <= s.len(),
    ensures
        r@ == s@.subrange(lo as int, hi as int),
{
    let mut out: Vec<char> = Vec::new();
    let mut i: usize = lo;
    while i < hi
        invariant
            lo <= i <= hi <= s.len(),
            out@ == s@.subrange(lo as int, i as int),
        decreases hi - i,
    {
        out.push(s[i]);
        assert(s@.subrange(lo as int, i + 1) == s@.subrange(lo as int, i as int).push(s@[i as int]));
        i += 1;
    }
    out
}

/// Splits `s` at every `delim`. There is at least one piece, and no piece
/// holds `delim`.
pub fn split(s: &Vec<char>, delim: char) -> (r: Vec<Vec<char>>)
    ensures
        pieces_view(r@) == split_on(s@, delim),
        r.len() >= 1,
        forall|k: int| 0 <= k < r.len() ==> !(#[trigger] r@[k])@.contains(delim),
{
    let mut done: Vec<Vec<char>> = Vec::new();
    let mut current: Vec<char> = Vec::new();
    let mut i: usize = 0;
    while i < s.len()
        invariant
            i <= s.len(),
            pieces_view(done@).push(current@) == split_on(s@.take(i as int), delim),
        decreases s.len() - i,
    {
        let c = s[i];
        proof {
            let upto = s@.take(i + 1);
            assert(upto.drop_last() == s@.take(i as int));
            assert(upto.last() == c);
            let before = split_on(s@.take(i as int), delim);
            assert(before.last() == current@);
            assert(before.drop_last() == pieces_view(done@));
        }
        if c == delim {
            let ghost done_before = done@;
            done.push(current);
            current = Vec::new();
            assert(pieces_view(done@) == pieces_view(done_before).push(done@.last()@));
        } else {
            current.push(c);
        }
        i += 1;
    }
    assert(s@.take(s.len() as int) == s@);
    let ghost done_before = done@;
    done.push(current);
    assert(pieces_view(done@) == pieces_view(done_before).push(done@.last()@));
    proof {
        lemma_split_pieces_clean(s@, delim);
        assert forall|k: int| 0 <= k < done.len() implies !(#[trigger] done@[k])@.contains(delim) by {
            assert(done@[k]@ == pieces_view(done@)[k]);
        }
    }
    done
}

/// Removes leading and trailing white space.
pub fn trim(s: &Vec<char>) -> (r: Vec<char>)
    ensures
        r@ == trimmed(s@),
{
    let mut lo: usize = 0;
    assert(s@.skip(0) == s@);
    while lo < s.len() && is_space_char(s[lo])
        invariant
            lo <= s.len(),
            trim_start_of(s@) == trim_start_of(s@.skip(lo as int)),
        decreases s.len() - lo,
    {
        assert(s@.skip(lo as int).drop_first() == s@.skip(lo + 1));
        lo += 1;
    }
    assert(trim_start_of(s@) == s@.skip(lo as int));
    let mut hi: usize = s.len();
    while hi > lo && is_space_char(s[hi - 1])
        invariant
            lo <= hi <= s.len(),
            trimmed(s@) == trim_end_of(s@.subrange(lo as int, hi as int)),
        decreases hi,
    {
        assert(s@.subrange(lo as int, hi as int).drop_last() == s@.subrange(lo as int, hi - 1));
        hi -= 1;
    }
    copy_range(s, lo, hi)
}

/// Removes every occurrence of `c`.
pub fn strip_char(s: &Vec<char>, c: char) -> (r: Vec<char>)
    ensures
        r@ == without(s@, c),
{
    let mut out: Vec<char> = Vec::new();
    let mut i: usize = 0;
    while i < s.len()
        invariant
            i <= s.len(),
            out@ == without(s@.take(i as int), c),
        decreases s.len() - i,
    {
        assert(s@.take(i + 1).drop_last() == s@.take(i as int));
        if s[i] != c {
            out.push(s[i]);
        }
        i += 1;
    }
    assert(s@.take(s.len() as int) == s@);
    out
}

/// Splitting always yields at least one piece.
pub proof fn lemma_split_nonempty(s: Seq<char>, delim: char)
    ensures
        split_on(s, delim).len() >= 1,
    decreases s.len(),
{
    if s.len() > 0 {
        lemma_split_nonempty(s.drop_last(), delim);
    }
}

/// No piece of a split holds the delimiter.
pub proof fn lemma_split_pieces_clean(s: Seq<char>, delim: char)
    ensures
        forall|k: int| 0 <= k < split_on(s, delim).len() ==> !(#[trigger] split_on(s, delim)[k]).contains(delim),
    decreases s.len(),
{
    if s.len() > 0 {
        lemma_split_pieces_clean(s.drop_last(), delim);
        lemma_split_nonempty(s.drop_last(), delim);
        let before = split_on(s.drop_last(), delim);
        if s.last() != delim {
            let grown = before.last().push(s.last());
            assert forall|j: int| 0 <= j < grown.len() implies grown[j] != delim by {
                if j < before.last().len() {
                    assert(before.last().contains(grown[j]));
                }
            }
        }
    }
}

/// A text without the delimiter is a single piece.
pub proof fn lemma_split_single(s: Seq<char>, delim: char)
    requires
        !s.contains(delim),
    ensures
        split_on(s, delim) == seq![s],
    decreases s.len(),
{
    if s.len() == 0 {
        assert(s == Seq::<char>::empty());
    } else {
        let front = s.drop_last();
        assert forall|j: int| 0 <= j < front.len() implies front[j] != delim by {
            assert(s.contains(s[j]));
        }
        lemma_split_single(front, delim);
        assert(s.contains(s.last()));
        assert(front.push(s.last()) == s);
        assert(seq![front].drop_last().push(front.push(s.last())) == seq![s]);
    }
}

/// A first piece without the delimiter, the delimiter, and then any text:
/// the split is that first piece followed by the split of the rest.
pub proof fn lemma_split_prepend(first: Seq<char>, rest: Seq<char>, delim: char)
    requires
        !first.contains(delim),
    ensures
        split_on(first + seq![delim] + rest, delim) == seq![first] + split_on(rest, delim),
    decreases rest.len(),
{
    let s = first + seq![delim] + rest;
    if rest.len() == 0 {
        assert(s.drop_last() == first);
        lemma_split_single(first, delim);
        assert(seq![first].push(Seq::<char>::empty()) == seq![first] + seq![Seq::<char>::empty()]);
    } else {
        assert(s.drop_last() == first + seq![delim] + rest.drop_last());
        lemma_split_prepend(first, rest.drop_last(), delim);
        lemma_split_nonempty(rest.drop_last(), delim);
        let tail = split_on(rest.drop_last(), delim);
        let before = seq![first] + tail;
        assert(s.last() == rest.last());
        if rest.last() == delim {
            assert(before.push(Seq::<char>::empty()) == seq![first] + tail.push(Seq::<char>::empty()));
        } else {
            assert(before.last() == tail.last());
            assert(before.drop_last() == seq![first] + tail.drop_last());
            assert(before.drop_last().push(before.last().push(s.last())) == seq![first]
                + tail.drop_last().push(tail.last().push(rest.last())));
        }
    }
}

/// Taking out a character that does not occur changes nothing.
pub proof fn lemma_without_absent(s: Seq<char>, c: char)
    requires
        !s.contains(c),
    ensures
        without(s, c) == s,
    decreases s.len(),
{
    if s.len() > 0 {
        let front = s.drop_last();
        assert forall|j: int| 0 <= j < front.len() implies front[j] != c by {
            assert(s.contains(s[j]));
        }
        lemma_without_absent(front, c);
        assert(s.contains(s.last()));
        assert(front.push(s.last()) == s);
    }
}

/// Taking a character out of a concatenation takes it out of both halves.
pub proof fn lemma_without_concat(a: Seq<char>, b: Seq<char>, c: char)
    ensures
        without(a + b, c) == without(a, c) + without(b, c),
    decreases b.len(),
{
    if b.len() == 0 {
        assert(a + b == a);
    } else {
        assert((a + b).drop_last() == a + b.drop_last());
        lemma_without_concat(a, b.drop_last(), c);
    }
}

/// Any text, the delimiter, and then a last piece without the delimiter: the
/// split is the split of the text followed by that last piece.
pub proof fn lemma_split_append(front: Seq<char>, last: Seq<char>, delim: char)
    requires
        !last.contains(delim),
    ensures
        split_on(front + seq![delim] + last, delim) == split_on(front, delim).push(last),
    decreases last.len(),
{
    let s = front + seq![delim] + last;
    if last.len() == 0 {
        assert(s.drop_last() == front);
        assert(last == Seq::<char>::empty());
    } else {
        let shorter = last.drop_last();
        assert forall|j: int| 0 <= j < shorter.len() implies shorter[j] != delim by {
            assert(last.contains(last[j]));
        }
        assert(last.contains(last.last()));
        assert(s.drop_last() == front + seq![delim] + shorter);
        lemma_split_append(front, shorter, delim);
        let before = split_on(front, delim).push(shorter);
        assert(before.drop_last() == split_on(front, delim));
        assert(shorter.push(last.last()) == last);
    }
}

/// A character that occurs in neither part does not occur in the whole.
pub proof fn lemma_concat_excludes(a: Seq<char>, b: Seq<char>, c: char)
    requires
        !a.contains(c),
        !b.contains(c),
    ensures
        !(a + b).contains(c),
{
    assert forall|j: int| 0 <= j < (a + b).len() implies (a + b)[j] != c by {
        if j < a.len() {
            assert(a.contains(a[j]));
        } else {
            assert(b.contains(b[j - a.len()]));
        }
    }
}

} // verus!
