use openfocus::codec::parse;
use openfocus::content::Content;
use openfocus::encode::encode_archive;
use openfocus::task::{Task, SubtaskOrder};
use openfocus::time::{Timestamp, format_timestamp, parse_timestamp};

fn ts(year: u32, month: u32, day: u32, hour: u32, minute: u32, second: u32, millis: u32) -> Timestamp {
    Timestamp { year, month, day, hour, minute, second, millis }
}

fn full_task() -> Task {
    let mut t = Task::default();
    t.id = "ABCDEFGHIJK".into();
    t.parent = Some("PARENT00001".into());
    t.rank = Some(-42);
    t.inbox = true;
    t.added = ts(2019, 3, 21, 12, 34, 56, 789);
    t.modified = Some(ts(2020, 2, 29, 23, 59, 59, 999));
    t.title = "Buy milk".into();
    t.note = None;
    t.context = Some("CONTEXT0001".into());
    t.flagged = true;
    t.due = Some(ts(2021, 12, 31, 0, 0, 0, 0));
    t.start = Some(ts(2021, 1, 1, 6, 30, 0, 1));
    t.completed = None;
    t.estimated_duration = Some(90);
    t.complete_by_children = true;
    t.order = Some(SubtaskOrder::Parallel);
    t
}

fn bare_task() -> Task {
    let mut t = Task::default();
    t.id = "BARE0000001".into();
    t.added = ts(2018, 1, 2, 3, 4, 5, 6);
    t.title = String::new();
    t.modified = None;
    t.order = None;
    t
}

/// Encoding a delta and decoding the resulting archive yields the same
/// tasks, field for field, with optional fields present.
#[test]
fn test_round_trip_full() {
    let delta = Content { tasks: vec![full_task()] };
    let bytes = encode_archive(&delta).unwrap();
    let decoded = parse(&bytes).unwrap();
    assert_eq!(decoded.tasks, delta.tasks);
}

/// The same round trip with every optional field absent.
#[test]
fn test_round_trip_bare() {
    let delta = Content { tasks: vec![bare_task(), full_task()] };
    let bytes = encode_archive(&delta).unwrap();
    let decoded = parse(&bytes).unwrap();
    assert_eq!(decoded.tasks, delta.tasks);
}

/// A present note comes back as the empty placeholder.
#[test]
fn test_round_trip_note_placeholder() {
    let mut t = bare_task();
    t.note = Some(String::new());
    let delta = Content { tasks: vec![t.clone()] };
    let bytes = encode_archive(&delta).unwrap();
    let decoded = parse(&bytes).unwrap();
    assert_eq!(decoded.tasks[0].note, Some(String::new()));
    assert_eq!(decoded.tasks, delta.tasks);
}

fn zip_xml(xml: &str) -> Vec<u8> {
    let mut zw = zip::ZipWriter::new(std::io::Cursor::new(Vec::new()));
    zw.start_file("contents.xml", zip::write::SimpleFileOptions::default()).unwrap();
    std::io::Write::write_all(&mut zw, xml.as_bytes()).unwrap();
    zw.finish().unwrap().into_inner()
}

const DOC_HEAD: &str = "<?xml version=\"1.0\" encoding=\"UTF-8\"?>\n<omnifocus xmlns=\"http://www.omnigroup.com/namespace/OmniFocus/v2\">";

/// A `due` element that is present but self-closing decodes to an absent
/// due date, exactly as an omitted element does; only a present element
/// with text decodes to a value.
#[test]
fn test_empty_due_is_absent() {
    let with_empty = format!(
        "{}<task id=\"T1\"><added>2019-03-21T12:34:56.789Z</added><name>x</name><due/></task></omnifocus>",
        DOC_HEAD,
    );
    let decoded = parse(&zip_xml(&with_empty)).unwrap();
    assert_eq!(decoded.tasks[0].due, None);

    let with_omitted = format!(
        "{}<task id=\"T1\"><added>2019-03-21T12:34:56.789Z</added><name>x</name></task></omnifocus>",
        DOC_HEAD,
    );
    let decoded = parse(&zip_xml(&with_omitted)).unwrap();
    assert_eq!(decoded.tasks[0].due, None);

    let with_text = format!(
        "{}<task id=\"T1\"><added>2019-03-21T12:34:56.789Z</added><name>x</name><due>2021-12-31T00:00:00.000Z</due></task></omnifocus>",
        DOC_HEAD,
    );
    let decoded = parse(&zip_xml(&with_text)).unwrap();
    assert_eq!(decoded.tasks[0].due, Some(ts(2021, 12, 31, 0, 0, 0, 0)));
}

/// A task without an id attribute is a fatal decode error; unknown record
/// kinds and unknown nested tags are skipped.
#[test]
fn test_decode_errors_and_skips() {
    let no_id = format!("{}<task><added>2019-03-21T12:34:56.789Z</added><name>x</name></task></omnifocus>", DOC_HEAD);
    let err = parse(&zip_xml(&no_id)).unwrap_err();
    assert_eq!(err.kind, openfocus::error::OpenFocusErrorType::Parse);

    let unknown = format!(
        "{}<widget><inner>stuff</inner></widget><task id=\"T1\"><added>2019-03-21T12:34:56.789Z</added><name>x</name><gadget><sub/></gadget></task></omnifocus>",
        DOC_HEAD,
    );
    let decoded = parse(&zip_xml(&unknown)).unwrap();
    assert_eq!(decoded.tasks.len(), 1);
    assert_eq!(decoded.tasks[0].title, "x");

    let not_zip = b"this is not a zip container".to_vec();
    let err = parse(&not_zip).unwrap_err();
    assert_eq!(err.kind, openfocus::error::OpenFocusErrorType::Parse);
}

/// A self-closing `<inbox/>` leaves the flag at its default rather than
/// failing the decode; the older `completed-by-children` spelling is
/// still recognized.
#[test]
fn test_empty_inbox_and_old_spelling() {
    let doc = format!(
        "{}<task id=\"T1\"><inbox/><added>2019-03-21T12:34:56.789Z</added><name>x</name><completed-by-children>true</completed-by-children></task></omnifocus>",
        DOC_HEAD,
    );
    let decoded = parse(&zip_xml(&doc)).unwrap();
    assert!(!decoded.tasks[0].inbox);
    assert!(decoded.tasks[0].complete_by_children);
}

#[test]
fn test_timestamp_text() {
    let t = ts(2019, 3, 21, 12, 34, 56, 789);
    let s = format_timestamp(&t);
    assert_eq!(s, "2019-03-21T12:34:56.789Z");
    assert_eq!(parse_timestamp(&s), Some(t));

    assert_eq!(parse_timestamp("2019-02-29T00:00:00.000Z"), None);
    assert_eq!(
        parse_timestamp("2020-02-29T00:00:00.000Z"),
        Some(ts(2020, 2, 29, 0, 0, 0, 0)),
    );
    assert_eq!(parse_timestamp("2019-03-21 12:34:56.789Z"), None);
    assert_eq!(parse_timestamp("2019-03-21T12:34:56Z"), None);
    assert_eq!(parse_timestamp("not a date"), None);
}

#[test]
fn test_decimal_text() {
    assert_eq!(openfocus::digits::format_u64(0), "0");
    assert_eq!(openfocus::digits::format_u64(90), "90");
    assert_eq!(openfocus::digits::format_i64(-42), "-42");
    assert_eq!(openfocus::digits::parse_u64("18446744073709551615"), Some(u64::MAX));
    assert_eq!(openfocus::digits::parse_u64("18446744073709551616"), None);
    assert_eq!(openfocus::digits::parse_i64("-9223372036854775808"), Some(i64::MIN));
    assert_eq!(openfocus::digits::parse_u64(""), None);
    assert_eq!(openfocus::digits::parse_u64("12a"), None);
}

#[test]
fn test_order_and_bool_text() {
    assert_eq!(openfocus::task::parse_order("parallel"), Some(SubtaskOrder::Parallel));
    assert_eq!(openfocus::task::parse_order("sequential"), Some(SubtaskOrder::Sequential));
    assert_eq!(openfocus::task::parse_order("diagonal"), None);
    assert_eq!(openfocus::task::parse_bool("true"), Some(true));
    assert_eq!(openfocus::task::parse_bool("false"), Some(false));
    assert_eq!(openfocus::task::parse_bool("yes"), None);
}
