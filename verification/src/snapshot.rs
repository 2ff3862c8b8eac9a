//! The two text formats that carry coordinates.
//!
//! A client reports its own position as `<x>,<y>`, each coordinate a number
//! in decimal notation with whatever fraction the client has. The server
//! answers a pull with a snapshot: one record `<id>:(<x>, <y>)` per player,
//! coordinates in whole units, records joined by `|`. The two formats differ
//! in precision on purpose: a report is exact, a snapshot is rounded.

use vstd::prelude::*;
use crate::decimal::{
    Coordinate,
    decimal_text,
    format_whole,
    is_number,
    lemma_whole_in_range,
    whole_of,
    lemma_decimal_text_chars,
    lemma_decimal_text_excludes,
    lemma_decimal_text_reads_back,
    parse_rounded,
    rounded_value,
};
use crate::frame::{ProtocolError, ProtocolErrorView};
use crate::store::{SnapshotRecord, SnapshotRecordView, snapshot_view};
use crate::text::{
    from_chars,
    is_space,
    lemma_concat_excludes,
    lemma_split_append,
    lemma_split_prepend,
    lemma_split_single,
    lemma_without_absent,
    lemma_without_concat,
    pieces_view,
    split,
    split_on,
    strip_char,
    to_chars,
    trim,
    trim_start_of,
    trimmed,
    without,
};

verus! {

/// One record of a snapshot as text: `<id>:(<x>, <y>)`.
pub open spec fn record_text(r: SnapshotRecordView) -> Seq<char> {
    r.player_id + seq![':', '('] + decimal_text(r.x) + seq![',', ' '] + decimal_text(r.y) + seq![')']
}

/// A snapshot as text: its records joined by `|`; the empty snapshot is the
/// empty text.
pub open spec fn snapshot_text(records: Seq<SnapshotRecordView>) -> Seq<char>
    decreases records.len(),
{
    if records.len() == 0 {
        Seq::empty()
    } else if records.len() == 1 {
        record_text(records[0])
    } else {
        snapshot_text(records.drop_last()) + seq!['|'] + record_text(records.last())
    }
}

/// The player that a record names: the text before its first colon.
pub open spec fn record_id(record: Seq<char>) -> Seq<char> {
    split_on(record, ':')[0]
}

/// A coordinate as it stands in a record, made ready for reading: white
/// space around it is trimmed and every bracket in it, opening or closing, is
/// taken out.
pub open spec fn cleaned(coordinate: Seq<char>) -> Seq<char> {
    without(without(trimmed(coordinate), '('), ')')
}

/// What one record of a snapshot reads as. The record must be an id, a colon
/// and a pair of coordinates separated by a comma; each coordinate is cleaned
/// of white space around it and of brackets, so that the brackets around the
/// pair, and stray ones, do no harm. Nothing if the record has another shape
/// or a coordinate is not a number.
pub open spec fn record_of(record: Seq<char>) -> Option<SnapshotRecordView> {
    let parts = split_on(record, ':');
    if parts.len() != 2 {
        None
    } else {
        let coords = split_on(parts[1], ',');
        if coords.len() != 2 {
            None
        } else {
            match (
                rounded_value(cleaned(coords[0])),
                rounded_value(cleaned(coords[1])),
            ) {
                (Some(x), Some(y)) => Some(SnapshotRecordView { player_id: parts[0], x: x, y: y }),
                _ => None,
            }
        }
    }
}

/// What a run of records reads as: all of them in order, or the first one
/// that cannot be read.
pub open spec fn records_of(pieces: Seq<Seq<char>>) -> Result<Seq<SnapshotRecordView>, ProtocolErrorView>
    decreases pieces.len(),
{
    if pieces.len() == 0 {
        Ok(Seq::empty())
    } else {
        match records_of(pieces.drop_last()) {
            Err(e) => Err(e),
            Ok(front) => match record_of(pieces.last()) {
                Some(r) => Ok(front.push(r)),
                None => Err(ProtocolErrorView::BadRecord(record_id(pieces.last()))),
            },
        }
    }
}

/// What a snapshot payload reads as. The empty payload is the empty
/// snapshot. Any other payload is split at every `|`, and one record that
/// cannot be read spoils the whole payload.
pub open spec fn parsed_snapshot(payload: Seq<char>) -> Result<Seq<SnapshotRecordView>, ProtocolErrorView> {
    if payload.len() == 0 {
        Ok(Seq::empty())
    } else {
        records_of(split_on(payload, '|'))
    }
}

/// A parse result as a ghost value.
pub open spec fn snapshot_result_view(r: Result<Vec<SnapshotRecord>, ProtocolError>) -> Result<
    Seq<SnapshotRecordView>,
    ProtocolErrorView,
> {
    match r {
        Ok(records) => Ok(snapshot_view(records@)),
        Err(e) => Err(e@),
    }
}

/// A position report as text: the two coordinate texts with a comma between.
pub open spec fn push_text(x_text: Seq<char>, y_text: Seq<char>) -> Seq<char> {
    x_text + seq![','] + y_text
}

/// Why a position report was refused.
#[derive(Clone, Copy, PartialEq, Eq, Structural, Debug)]
pub enum PushError {
    /// The report is not two texts separated by one comma.
    IncorrectFormat,
    /// One of the two texts is not a number.
    InvalidCoordinates,
}

/// What a position report reads as: the two coordinates as they were
/// written, nothing rounded, or why not.
pub open spec fn push_value_of(text: Seq<char>) -> Result<(Seq<char>, Seq<char>), PushError> {
    let coords = split_on(text, ',');
    if coords.len() != 2 {
        Err(PushError::IncorrectFormat)
    } else if is_number(coords[0]) && is_number(coords[1]) {
        Ok((coords[0], coords[1]))
    } else {
        Err(PushError::InvalidCoordinates)
    }
}

/// A report result as a ghost value.
pub open spec fn push_result_view(r: Result<(Coordinate, Coordinate), PushError>) -> Result<
    (Seq<char>, Seq<char>),
    PushError,
> {
    match r {
        Ok((x, y)) => Ok((x@, y@)),
        Err(e) => Err(e),
    }
}

/// The record that is written for player `id` at the reported position
/// `(x, y)`: the coordinates are rounded to whole units as they are written.
pub open spec fn written_record(id: Seq<char>, x: Seq<char>, y: Seq<char>) -> Seq<char> {
    record_text(SnapshotRecordView { player_id: id, x: whole_of(x), y: whole_of(y) })
}

/// Appends `more` to `out`.
fn extend_chars(out: &mut Vec<char>, more: &Vec<char>)
    ensures
        final(out)@ == old(out)@ + more@,
{
    let mut i: usize = 0;
    while i < more.len()
        invariant
            i <= more.len(),
            out@ == old(out)@ + more@.take(i as int),
        decreases more.len() - i,
    {
        out.push(more[i]);
        assert(more@.take(i + 1) == more@.take(i as int).push(more@[i as int]));
        i += 1;
    }
    assert(more@.take(more.len() as int) == more@);
}

/// Appends one record, `<id>:(<x>, <y>)`, to `out`.
fn push_record(out: &mut Vec<char>, record: &SnapshotRecord)
    ensures
        final(out)@ == old(out)@ + record_text(record@),
{
    let id = to_chars(record.player_id.as_str());
    extend_chars(out, &id);
    out.push(':');
    out.push('(');
    let x = format_whole(record.x);
    extend_chars(out, &x);
    out.push(',');
    out.push(' ');
    let y = format_whole(record.y);
    extend_chars(out, &y);
    out.push(')');
    assert(out@ =~= old(out)@ + record_text(record@));
}

/// Writes one record of a snapshot, `<id>:(<x>, <y>)`, from a position as
/// it was reported: each coordinate is rounded to the nearest whole number
/// here, as it is written.
pub fn format_snapshot_record(id: &str, x: &Coordinate, y: &Coordinate) -> (r: String)
    ensures
        r@ == written_record(id@, x@, y@),
{
    let record = SnapshotRecord { player_id: id.to_owned(), x: x.rounded(), y: y.rounded() };
    let mut out: Vec<char> = Vec::new();
    push_record(&mut out, &record);
    from_chars(&out)
}

/// Writes a snapshot: its records joined by `|`.
pub fn format_snapshot(records: &Vec<SnapshotRecord>) -> (r: String)
    ensures
        r@ == snapshot_text(snapshot_view(records@)),
{
    let mut out: Vec<char> = Vec::new();
    let mut i: usize = 0;
    let ghost all = snapshot_view(records@);
    assert(all.take(0) == Seq::<SnapshotRecordView>::empty());
    while i < records.len()
        invariant
            i <= records.len(),
            all == snapshot_view(records@),
            out@ == snapshot_text(all.take(i as int)),
        decreases records.len() - i,
    {
        if i > 0 {
            out.push('|');
        }
        push_record(&mut out, &records[i]);
        proof {
            let upto = all.take(i + 1);
            assert(upto.drop_last() == all.take(i as int));
            assert(upto.last() == records@[i as int]@);
            if i == 0 {
                assert(upto[0] == records@[0]@);
                assert(out@ =~= record_text(upto[0]));
            }
        }
        i += 1;
    }
    assert(all.take(records.len() as int) == all);
    from_chars(&out)
}

/// Trims a coordinate and takes every bracket out of it.
fn clean(coordinate: &Vec<char>) -> (r: Vec<char>)
    ensures
        r@ == cleaned(coordinate@),
{
    strip_char(&strip_char(&trim(coordinate), '('), ')')
}

/// Reads one record of a snapshot.
fn parse_record(record: &Vec<char>) -> (r: Result<SnapshotRecord, ProtocolError>)
    ensures
        match r {
            Ok(rec) => record_of(record@) == Some(rec@),
            Err(e) => record_of(record@) is None && e@ == ProtocolErrorView::BadRecord(record_id(record@)),
        },
{
    let parts = split(record, ':');
    assert(pieces_view(parts@).len() == parts@.len());
    assert(pieces_view(parts@)[0] == parts@[0]@);
    let id = from_chars(&parts[0]);
    if parts.len() != 2 {
        return Err(ProtocolError::BadRecord(id));
    }
    assert(pieces_view(parts@)[1] == parts@[1]@);
    let coords = split(&parts[1], ',');
    assert(pieces_view(coords@).len() == coords@.len());
    if coords.len() != 2 {
        return Err(ProtocolError::BadRecord(id));
    }
    assert(pieces_view(coords@)[0] == coords@[0]@);
    assert(pieces_view(coords@)[1] == coords@[1]@);
    let x_text = clean(&coords[0]);
    let y_text = clean(&coords[1]);
    match (parse_rounded(&x_text), parse_rounded(&y_text)) {
        (Some(x), Some(y)) => Ok(SnapshotRecord { player_id: id, x: x, y: y }),
        _ => Err(ProtocolError::BadRecord(id)),
    }
}

/// Reads a snapshot payload. The empty payload is the empty snapshot; any
/// other payload is split at every `|` and each piece must be a record. The
/// first record that cannot be read fails the whole payload, with the player
/// that it names.
pub fn parse_snapshot(payload: &str) -> (r: Result<Vec<SnapshotRecord>, ProtocolError>)
    ensures
        snapshot_result_view(r) == parsed_snapshot(payload@),
{
    let chars = to_chars(payload);
    let mut out: Vec<SnapshotRecord> = Vec::new();
    if chars.len() == 0 {
        assert(snapshot_view(out@) =~= Seq::<SnapshotRecordView>::empty());
        return Ok(out);
    }
    let pieces = split(&chars, '|');
    let ghost all = pieces_view(pieces@);
    assert(all.take(0) == Seq::<Seq<char>>::empty());
    assert(snapshot_view(out@) =~= Seq::<SnapshotRecordView>::empty());
    let mut i: usize = 0;
    while i < pieces.len()
        invariant
            i <= pieces.len(),
            all == pieces_view(pieces@),
            all == split_on(payload@, '|'),
            payload@.len() > 0,
            records_of(all.take(i as int)) == Ok::<Seq<SnapshotRecordView>, ProtocolErrorView>(
                snapshot_view(out@),
            ),
        decreases pieces.len() - i,
    {
        proof {
            let upto = all.take(i + 1);
            assert(upto.drop_last() == all.take(i as int));
            assert(upto.last() == pieces@[i as int]@);
            lemma_records_of_prefix_error(all, i + 1);
        }
        match parse_record(&pieces[i]) {
            Ok(record) => {
                let ghost before = snapshot_view(out@);
                out.push(record);
                assert(snapshot_view(out@) =~= before.push(record@));
            },
            Err(e) => {
                return Err(e);
            },
        }
        i += 1;
    }
    assert(all.take(pieces.len() as int) == all);
    Ok(out)
}

/// Once a prefix of the records fails, the whole run fails the same way.
proof fn lemma_records_of_prefix_error(pieces: Seq<Seq<char>>, n: int)
    requires
        0 <= n <= pieces.len(),
    ensures
        records_of(pieces.take(n)) is Err ==> records_of(pieces) == records_of(pieces.take(n)),
    decreases pieces.len() - n,
{
    if n < pieces.len() {
        lemma_records_of_prefix_error(pieces, n + 1);
        assert(pieces.take(n + 1).drop_last() == pieces.take(n));
    } else {
        assert(pieces.take(n) == pieces);
    }
}

/// Writes a position report from the two coordinate texts: `<x>,<y>`.
pub fn format_push_value(x_text: &str, y_text: &str) -> (r: String)
    ensures
        r@ == push_text(x_text@, y_text@),
{
    let mut out = to_chars(x_text);
    out.push(',');
    let y = to_chars(y_text);
    extend_chars(&mut out, &y);
    from_chars(&out)
}

/// Reads a position report: two numbers separated by one comma, each kept
/// as it was written.
pub fn parse_push_value(text: &str) -> (r: Result<(Coordinate, Coordinate), PushError>)
    ensures
        push_result_view(r) == push_value_of(text@),
{
    let chars = to_chars(text);
    let coords = split(&chars, ',');
    assert(pieces_view(coords@).len() == coords@.len());
    if coords.len() != 2 {
        return Err(PushError::IncorrectFormat);
    }
    assert(pieces_view(coords@)[0] == coords@[0]@);
    assert(pieces_view(coords@)[1] == coords@[1]@);
    match (Coordinate::from_chars(&coords[0]), Coordinate::from_chars(&coords[1])) {
        (Some(x), Some(y)) => Ok((x, y)),
        _ => Err(PushError::InvalidCoordinates),
    }
}

/// Whether a player id can stand in a snapshot: it holds neither the sign
/// that separates records nor the one that ends the id.
pub open spec fn is_plain_id(id: Seq<char>) -> bool {
    !id.contains('|') && !id.contains(':')
}

/// Whether a record can be written and read back: a plain id and
/// coordinates inside the `i32` range.
pub open spec fn is_plain_record(r: SnapshotRecordView) -> bool {
    &&& is_plain_id(r.player_id)
    &&& i32::MIN <= r.x <= i32::MAX
    &&& i32::MIN <= r.y <= i32::MAX
}

/// A written record reads back as the record it was written from, and holds
/// no `|`.
pub proof fn lemma_record_reads_back(r: SnapshotRecordView)
    requires
        is_plain_record(r),
    ensures
        record_of(record_text(r)) == Some(r),
        !record_text(r).contains('|'),
        record_text(r).len() > 0,
{
    let dx = decimal_text(r.x);
    let dy = decimal_text(r.y);
    let first = seq!['('] + dx;
    let second = seq![' '] + dy + seq![')'];
    let pair = first + seq![','] + second;
    let text = record_text(r);
    assert(text =~= r.player_id + seq![':'] + pair);
    lemma_decimal_text_chars(r.x);
    lemma_decimal_text_chars(r.y);
    lemma_decimal_text_reads_back(r.x);
    lemma_decimal_text_reads_back(r.y);

    // the id, then the pair
    assert(!pair.contains(':')) by {
        lemma_decimal_text_excludes(r.x, ':');
        lemma_decimal_text_excludes(r.y, ':');
        assert forall|j: int| 0 <= j < pair.len() implies pair[j] != ':' by {
            if 1 <= j < 1 + dx.len() {
                assert(dx.contains(dx[j - 1]));
            } else if 3 + dx.len() <= j < 3 + dx.len() + dy.len() {
                assert(dy.contains(dy[j - 3 - dx.len()]));
            }
        }
    }
    lemma_split_single(pair, ':');
    lemma_split_prepend(r.player_id, pair, ':');
    assert(split_on(text, ':') =~= seq![r.player_id, pair]);

    // the two coordinates
    assert(!first.contains(',')) by {
        lemma_decimal_text_excludes(r.x, ',');
        assert forall|j: int| 0 <= j < first.len() implies first[j] != ',' by {
            if j >= 1 {
                assert(dx.contains(dx[j - 1]));
            }
        }
    }
    assert(!second.contains(',')) by {
        lemma_decimal_text_excludes(r.y, ',');
        assert forall|j: int| 0 <= j < second.len() implies second[j] != ',' by {
            if 1 <= j < 1 + dy.len() {
                assert(dy.contains(dy[j - 1]));
            }
        }
    }
    lemma_split_single(second, ',');
    lemma_split_prepend(first, second, ',');
    assert(split_on(pair, ',') =~= seq![first, second]);

    // the first coordinate: nothing to trim, one bracket to drop
    assert(trimmed(first) == first);
    assert(without(dx, ')') == dx) by {
        lemma_decimal_text_excludes(r.x, ')');
        lemma_without_absent(dx, ')');
    }
    assert(without(first, '(') == dx) by {
        lemma_without_concat(seq!['('], dx, '(');
        lemma_decimal_text_excludes(r.x, '(');
        lemma_without_absent(dx, '(');
        reveal_with_fuel(without, 2);
        assert(without(seq!['('], '(') =~= Seq::<char>::empty());
        assert(Seq::<char>::empty() + dx =~= dx);
    }

    // the second coordinate: one blank to trim, one bracket to drop
    let inner = dy + seq![')'];
    assert(trimmed(second) == inner) by {
        reveal_with_fuel(trim_start_of, 2);
        assert(is_space(second.first()));
        assert(second.drop_first() =~= inner);
        assert(!is_space(inner.first()));
        assert(trim_start_of(second) == inner);
    }
    assert(without(inner, '(') == inner) by {
        lemma_decimal_text_excludes(r.y, '(');
        lemma_concat_excludes(dy, seq![')'], '(');
        lemma_without_absent(inner, '(');
    }
    assert(without(inner, ')') == dy) by {
        lemma_without_concat(dy, seq![')'], ')');
        lemma_decimal_text_excludes(r.y, ')');
        lemma_without_absent(dy, ')');
        reveal_with_fuel(without, 2);
        assert(without(seq![')'], ')') =~= Seq::<char>::empty());
        assert(dy + Seq::<char>::empty() =~= dy);
    }

    // no record separator anywhere
    assert(!text.contains('|')) by {
        lemma_decimal_text_excludes(r.x, '|');
        lemma_decimal_text_excludes(r.y, '|');
        assert forall|j: int| 0 <= j < pair.len() implies pair[j] != '|' by {
            if 1 <= j < 1 + dx.len() {
                assert(dx.contains(dx[j - 1]));
            } else if 3 + dx.len() <= j < 3 + dx.len() + dy.len() {
                assert(dy.contains(dy[j - 3 - dx.len()]));
            }
        }
        lemma_concat_excludes(r.player_id, seq![':'], '|');
        lemma_concat_excludes(r.player_id + seq![':'], pair, '|');
    }
}

/// Round trip of one record: written from a plain id and a reported
/// position and then read as a snapshot, the record comes back alone, with
/// the id as it was and each coordinate rounded to the nearest whole number.
pub proof fn lemma_record_round_trip(id: Seq<char>, x: Seq<char>, y: Seq<char>)
    requires
        is_plain_id(id),
        is_number(x),
        is_number(y),
    ensures
        parsed_snapshot(written_record(id, x, y)) == Ok::<Seq<SnapshotRecordView>, ProtocolErrorView>(
            seq![SnapshotRecordView { player_id: id, x: rounded_value(x)->0, y: rounded_value(y)->0 }],
        ),
{
    let r = SnapshotRecordView { player_id: id, x: whole_of(x), y: whole_of(y) };
    lemma_whole_in_range(x);
    lemma_whole_in_range(y);
    lemma_record_reads_back(r);
    let text = record_text(r);
    lemma_split_single(text, '|');
    let pieces = seq![text];
    reveal_with_fuel(records_of, 2);
    assert(pieces.drop_last() =~= Seq::<Seq<char>>::empty());
    assert(pieces.last() == text);
    assert(Seq::<SnapshotRecordView>::empty().push(r) =~= seq![r]);
}

/// Round trip of a snapshot: written and then read, a snapshot of records
/// with plain ids comes back unchanged, the empty one included.
pub proof fn lemma_snapshot_round_trip(records: Seq<SnapshotRecordView>)
    requires
        forall|i: int| 0 <= i < records.len() ==> is_plain_record(#[trigger] records[i]),
    ensures
        parsed_snapshot(snapshot_text(records)) == Ok::<Seq<SnapshotRecordView>, ProtocolErrorView>(records),
        records.len() > 0 ==> snapshot_text(records).len() > 0,
    decreases records.len(),
{
    if records.len() == 0 {
        assert(records =~= Seq::<SnapshotRecordView>::empty());
    } else if records.len() == 1 {
        let r = records[0];
        lemma_record_reads_back(r);
        let text = record_text(r);
        lemma_split_single(text, '|');
        let pieces = seq![text];
        reveal_with_fuel(records_of, 2);
        assert(pieces.drop_last() =~= Seq::<Seq<char>>::empty());
        assert(pieces.last() == text);
        assert(Seq::<SnapshotRecordView>::empty().push(r) =~= records);
    } else {
        let front = records.drop_last();
        let last = records.last();
        lemma_snapshot_round_trip(front);
        lemma_record_reads_back(last);
        let front_text = snapshot_text(front);
        lemma_split_append(front_text, record_text(last), '|');
        let pieces = split_on(front_text, '|').push(record_text(last));
        assert(pieces.drop_last() == split_on(front_text, '|'));
        assert(front.push(last) =~= records);
    }
}

/// Round trip of a report: written from two coordinate texts without a
/// comma, it reads back as those two texts, unchanged, and fails only if one
/// of them is not a number.
pub proof fn lemma_push_round_trip(x_text: Seq<char>, y_text: Seq<char>)
    requires
        !x_text.contains(','),
        !y_text.contains(','),
    ensures
        push_value_of(push_text(x_text, y_text)) == if is_number(x_text) && is_number(y_text) {
            Ok::<(Seq<char>, Seq<char>), PushError>((x_text, y_text))
        } else {
            Err::<(Seq<char>, Seq<char>), PushError>(PushError::InvalidCoordinates)
        },
{
    lemma_split_single(y_text, ',');
    lemma_split_prepend(x_text, y_text, ',');
    assert(split_on(push_text(x_text, y_text), ',') =~= seq![x_text, y_text]);
}

} // verus!
