use openfocus::events::Event;
use openfocus::plist::parse_plist;
use openfocus::perspective::parse_perspective;
use openfocus::update::do_update;
use openfocus::task::Task;
use openfocus::time::Timestamp;
use openfocus::error::{OpenFocusError, OpenFocusErrorType};

fn start(name: &str) -> Event {
    Event::Start { name: name.into(), attrs: vec![] }
}

fn end(name: &str) -> Event {
    Event::End { name: name.into() }
}

fn text(s: &str) -> Event {
    Event::Text(s.into())
}

#[test]
fn test_plist_string() {
    let events = vec![start("string"), text("hello"), end("string")];
    let (item, next) = parse_plist(&events, 0).unwrap();
    assert_eq!(item.unwrap_string().as_str(), "hello");
    // the leaf's end tag is left for the caller, as the stream reader has it
    assert_eq!(next, 2);
}

#[test]
fn test_plist_dict() {
    let events = vec![
        start("dict"),
        start("key"),
        text("name"),
        end("key"),
        start("string"),
        text("alpha"),
        end("string"),
        start("key"),
        text("name"),
        end("key"),
        start("string"),
        text("beta"),
        end("string"),
        start("key"),
        text("other"),
        end("key"),
        start("string"),
        text("gamma"),
        end("string"),
        end("dict"),
    ];
    let (item, next) = parse_plist(&events, 0).unwrap();
    assert_eq!(next, events.len());
    let entries = item.unwrap_dict();
    // a repeated key replaces its entry in place; order of first insertion kept
    assert_eq!(entries.len(), 2);
    assert_eq!(entries[0].key, "name");
    assert_eq!(entries[0].value.unwrap_string().as_str(), "beta");
    assert_eq!(entries[1].key, "other");
    assert_eq!(entries[1].value.unwrap_string().as_str(), "gamma");
}

#[test]
fn test_plist_errors() {
    let events = vec![start("array"), end("array")];
    assert!(parse_plist(&events, 0).is_err());

    let events = vec![start("dict"), text("loose"), end("dict")];
    assert!(parse_plist(&events, 0).is_err());
}

#[test]
fn test_parse_perspective() {
    let events = vec![
        start("added"),
        text("2019-03-21T12:34:56.789Z"),
        end("added"),
        start("plist"),
        start("string"),
        text("ignored"),
        end("string"),
        end("plist"),
        end("perspective"),
    ];
    let (p, next) = parse_perspective(&events, 0).unwrap();
    assert_eq!(p.added.year, 2019);
    assert_eq!(p.added.millis, 789);
    assert_eq!(next, events.len());

    // the added date is mandatory
    let events = vec![end("perspective")];
    assert!(parse_perspective(&events, 0).is_err());
}

fn now() -> Timestamp {
    Timestamp { year: 2024, month: 6, day: 1, hour: 12, minute: 0, second: 0, millis: 0 }
}

#[test]
fn test_do_update() {
    let mut t = Task::default();
    let title = String::from("new title");
    do_update(&mut t, "t", Some(&title), now()).unwrap();
    assert_eq!(t.title, "new title");

    do_update(&mut t, "flag", None, now()).unwrap();
    assert!(t.flagged);

    do_update(&mut t, "c", None, now()).unwrap();
    assert_eq!(t.completed, Some(now()));

    do_update(&mut t, "ic", None, now()).unwrap();
    assert_eq!(t.completed, None);

    let due = String::from("2024-07-01T00:00:00.000Z");
    do_update(&mut t, "due", Some(&due), now()).unwrap();
    assert_eq!(t.due.unwrap().month, 7);

    let minutes = String::from("45");
    do_update(&mut t, "estimate", Some(&minutes), now()).unwrap();
    assert_eq!(t.estimated_duration, Some(45));

    // a flag that needs a value but got none is caller misuse
    let err = do_update(&mut t, "title", None, now()).unwrap_err();
    assert_eq!(err.kind, OpenFocusErrorType::InvalidArgument);

    // an unparsable value is a parse error, and the task is untouched
    let bad = String::from("tomorrow");
    let before = t.clone();
    let err = do_update(&mut t, "due", Some(&bad), now()).unwrap_err();
    assert_eq!(err.kind, OpenFocusErrorType::Parse);
    assert!(t == before);

    let err = do_update(&mut t, "frobnicate", None, now()).unwrap_err();
    assert_eq!(err.kind, OpenFocusErrorType::InvalidArgument);
}

#[test]
fn test_error_messages() {
    assert_eq!(OpenFocusError::new(OpenFocusErrorType::Parse).message(), "Parse Error");
    assert_eq!(OpenFocusError::new(OpenFocusErrorType::NotFound).message(), "Item Not Found Error");
    assert_eq!(
        OpenFocusError::new(OpenFocusErrorType::InvalidChain).message(),
        "Invalid Archive Chain",
    );
}
