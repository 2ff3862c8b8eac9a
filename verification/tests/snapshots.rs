use position_sync::decimal::Coordinate;
use position_sync::frame::ProtocolError;
use position_sync::snapshot::{
    format_push_value, format_snapshot, format_snapshot_record, parse_push_value, parse_snapshot,
    PushError,
};
use position_sync::store::SnapshotRecord;

fn at(text: &str) -> Coordinate {
    Coordinate::parse(text).unwrap()
}

fn written(id: &str, x: &str, y: &str) -> String {
    format_snapshot_record(id, &at(x), &at(y))
}

fn report(text: &str) -> Result<(String, String), PushError> {
    parse_push_value(text).map(|(x, y)| (x.as_str().to_string(), y.as_str().to_string()))
}

fn texts(x: &str, y: &str) -> Result<(String, String), PushError> {
    Ok((x.to_string(), y.to_string()))
}

fn triples(records: &Vec<SnapshotRecord>) -> Vec<(String, i32, i32)> {
    records.iter().map(|r| (r.player_id.clone(), r.x, r.y)).collect()
}

fn read(payload: &str) -> Vec<(String, i32, i32)> {
    match parse_snapshot(payload) {
        Ok(records) => triples(&records),
        Err(_) => panic!("the payload was refused"),
    }
}

fn bad_record(payload: &str) -> String {
    match parse_snapshot(payload) {
        Err(ProtocolError::BadRecord(id)) => id,
        Err(ProtocolError::Malformed) => panic!("malformed"),
        Ok(_) => panic!("the payload was accepted"),
    }
}

fn record(id: &str, x: i32, y: i32) -> SnapshotRecord {
    SnapshotRecord { player_id: id.to_string(), x, y }
}

#[test]
fn a_record_is_written_with_brackets_and_a_blank() {
    assert_eq!(written("p1", "10", "0"), "p1:(10, 0)");
    assert_eq!(written("p2", "-3", "7"), "p2:(-3, 7)");
    assert_eq!(written("", "0", "0"), ":(0, 0)");
    assert_eq!(written("p1", "10.0", "0.0"), "p1:(10, 0)");
    assert_eq!(written("p1", "3.2", "4.9"), "p1:(3, 5)");
    assert_eq!(written("p1", "-0.5", "0.5"), "p1:(-1, 1)");
    assert_eq!(written("p1", "2.5e1", "NaN"), "p1:(25, 0)");
    assert_eq!(
        format_snapshot_record("p1", &Coordinate::from_whole(-12), &Coordinate::from_whole(34)),
        "p1:(-12, 34)"
    );
    assert_eq!(
        written("936da01f-9abd-4d9d-80c7-02af85c822a8", "-2147483648", "inf"),
        "936da01f-9abd-4d9d-80c7-02af85c822a8:(-2147483648, 2147483647)"
    );
}

#[test]
fn a_snapshot_is_its_records_joined_by_bars() {
    assert_eq!(format_snapshot(&vec![]), "");
    assert_eq!(format_snapshot(&vec![record("p1", 1, 2)]), "p1:(1, 2)");
    assert_eq!(
        format_snapshot(&vec![record("p1", 1, 2), record("p2", -3, 4), record("p3", 0, 0)]),
        "p1:(1, 2)|p2:(-3, 4)|p3:(0, 0)"
    );
}

#[test]
fn a_written_record_reads_back() {
    let cases = [
        ("p1", "3.2", "4.9", 3, 5),
        ("", "0", "0", 0, 0),
        ("a,b", "-0.5", "0.5", -1, 1),
        ("x y", "-1e10", "1e10", i32::MIN, i32::MAX),
        ("é(", "7.49", "-7.5", 7, -8),
        ("p2", "10.0", "0.0", 10, 0),
    ];
    for (id, x, y, whole_x, whole_y) in cases {
        let text = written(id, x, y);
        assert_eq!(read(&text), vec![(id.to_string(), whole_x, whole_y)]);
    }
    for (x, y) in [(3.2f32, 4.9f32), (-17.5, 0.25), (499.5, -0.49)] {
        let text = written("p", &format!("{}", x), &format!("{}", y));
        assert_eq!(read(&text), vec![("p".to_string(), x.round() as i32, y.round() as i32)]);
    }
}

#[test]
fn a_written_snapshot_reads_back() {
    let records = vec![record("p1", 1, 2), record("p2", -30, 40), record("p3", 0, -1)];
    assert_eq!(read(&format_snapshot(&records)), triples(&records));
    assert_eq!(read(&format_snapshot(&vec![])), vec![]);
}

#[test]
fn an_id_with_a_colon_does_not_read_back() {
    let text = written("a:b", "1", "2");
    assert_eq!(text, "a:b:(1, 2)");
    assert_eq!(bad_record(&text), "a");
}

#[test]
fn the_empty_payload_is_the_empty_snapshot() {
    assert_eq!(read(""), vec![]);
}

#[test]
fn fractions_in_a_snapshot_are_rounded() {
    assert_eq!(read("p1:(3.2, 4.9)"), vec![("p1".to_string(), 3, 5)]);
    assert_eq!(read("p1:(-0.5, 0.5)"), vec![("p1".to_string(), -1, 1)]);
    assert_eq!(read("p1:(1.5e2, NaN)"), vec![("p1".to_string(), 150, 0)]);
    assert_eq!(read("p1:(inf, -inf)"), vec![("p1".to_string(), i32::MAX, i32::MIN)]);
}

#[test]
fn brackets_and_blanks_around_coordinates_are_tolerated() {
    assert_eq!(read("p1:1,2"), vec![("p1".to_string(), 1, 2)]);
    assert_eq!(read("p1:  (1  ,  2)  "), vec![("p1".to_string(), 1, 2)]);
    assert_eq!(read("p1:((1,2))"), vec![("p1".to_string(), 1, 2)]);
    assert_eq!(read("p1:(1(,)2)"), vec![("p1".to_string(), 1, 2)]);
}

#[test]
fn stray_brackets_on_either_side_are_stripped() {
    assert_eq!(read("p1:(1), (2)"), vec![("p1".to_string(), 1, 2)]);
    assert_eq!(read("p1:1),2"), vec![("p1".to_string(), 1, 2)]);
    assert_eq!(read("p1:1,(2"), vec![("p1".to_string(), 1, 2)]);
    assert_eq!(read("p1:)1(,(2)"), vec![("p1".to_string(), 1, 2)]);
    assert_eq!(read("p1:()-3.5)(, )(4.5()"), vec![("p1".to_string(), -4, 5)]);
    assert_eq!(read("a:(1), (2)|b:3),(4"), vec![("a".to_string(), 1, 2), ("b".to_string(), 3, 4)]);
}

#[test]
fn brackets_alone_or_blanks_inside_them_are_no_number() {
    assert_eq!(bad_record("p1:(),()"), "p1");
    assert_eq!(bad_record("p1:(,)"), "p1");
    assert_eq!(bad_record("p1:( 1,2)"), "p1");
    assert_eq!(bad_record("p1:(1,2 )"), "p1");
    assert_eq!(bad_record("p1:[1,2]"), "p1");
}

#[test]
fn one_bad_record_fails_the_whole_payload() {
    assert_eq!(bad_record("p1:(1, 2)|p2:(bad)"), "p2");
    assert_eq!(bad_record("p1:(1, 2)|p2:(bad, 3)"), "p2");
    assert_eq!(bad_record("p1:(1, 2)|p2:(3, bad)|p3:(4, 5)"), "p2");
    assert_eq!(bad_record("p0:(x, 2)|p2:(3, bad)"), "p0");
}

#[test]
fn a_record_needs_one_colon_and_one_comma() {
    assert_eq!(bad_record("p1"), "p1");
    assert_eq!(bad_record("p1:(1, 2):x"), "p1");
    assert_eq!(bad_record("p1:(1 2)"), "p1");
    assert_eq!(bad_record("p1:(1, 2, 3)"), "p1");
    assert_eq!(bad_record("p1:"), "p1");
    assert_eq!(bad_record(":"), "");
    assert_eq!(bad_record("|"), "");
    assert_eq!(bad_record("p1:(1, 2)|"), "");
    assert_eq!(bad_record("|p1:(1, 2)"), "");
}

#[test]
fn records_come_back_in_payload_order_with_repeats() {
    assert_eq!(
        read("b:(1, 1)|a:(2, 2)|b:(3, 3)"),
        vec![("b".to_string(), 1, 1), ("a".to_string(), 2, 2), ("b".to_string(), 3, 3)]
    );
}

#[test]
fn a_report_is_the_two_texts_around_a_comma() {
    assert_eq!(format_push_value("3.2", "4.9"), "3.2,4.9");
    assert_eq!(format_push_value("0", "-17.25"), "0,-17.25");
    assert_eq!(format_push_value(&format!("{}", 10.0f32), &format!("{}", 0.0f32)), "10,0");
    assert_eq!(format_push_value(&format!("{}", 3.2f32), &format!("{}", -4.9f32)), "3.2,-4.9");
}

#[test]
fn a_report_reads_as_its_two_coordinates_unrounded() {
    assert_eq!(report("3.2,4.9"), texts("3.2", "4.9"));
    assert_eq!(report("10.0,0.0"), texts("10.0", "0.0"));
    assert_eq!(report("-1.5,2.5"), texts("-1.5", "2.5"));
    assert_eq!(report("7,8"), texts("7", "8"));
    assert_eq!(report("1e2,25E-1"), texts("1e2", "25E-1"));
    assert_eq!(report("NaN,inf"), texts("NaN", "inf"));
    let (x, y) = parse_push_value("3.2,4.9").ok().unwrap();
    assert_eq!((x.rounded(), y.rounded()), (3, 5));
    let (x, y) = parse_push_value("-1.5,25e-1").ok().unwrap();
    assert_eq!((x.rounded(), y.rounded()), (-2, 3));
}

#[test]
fn a_written_report_reads_back_as_written() {
    for (x, y) in [(3.2f32, 4.9f32), (10.0, 0.0), (-0.25, 0.75), (123.456, -654.321), (499.5, -499.5)] {
        let text = format_push_value(&format!("{}", x), &format!("{}", y));
        assert_eq!(report(&text), texts(&format!("{}", x), &format!("{}", y)));
        let (read_x, read_y) = parse_push_value(&text).ok().unwrap();
        assert_eq!((read_x.rounded(), read_y.rounded()), (x.round() as i32, y.round() as i32));
    }
}

#[test]
fn a_report_of_another_shape_is_an_incorrect_format() {
    assert_eq!(report(""), Err(PushError::IncorrectFormat));
    assert_eq!(report("12"), Err(PushError::IncorrectFormat));
    assert_eq!(report("1,2,3"), Err(PushError::IncorrectFormat));
    assert_eq!(report("abc"), Err(PushError::IncorrectFormat));
}

#[test]
fn a_report_with_a_text_that_is_no_number_has_invalid_coordinates() {
    assert_eq!(report("abc,4"), Err(PushError::InvalidCoordinates));
    assert_eq!(report("4,abc"), Err(PushError::InvalidCoordinates));
    assert_eq!(report(","), Err(PushError::InvalidCoordinates));
    assert_eq!(report("1, 2"), Err(PushError::InvalidCoordinates));
    assert_eq!(report("(1,2)"), Err(PushError::InvalidCoordinates));
}
