use openfocus::content::Content;
use openfocus::db::{ArchiveFile, Database};
use openfocus::encode::encode_archive;
use openfocus::error::OpenFocusErrorType;
use openfocus::task::Task;
use openfocus::time::Timestamp;

fn ts(year: u32, month: u32, day: u32) -> Timestamp {
    Timestamp { year, month, day, hour: 0, minute: 0, second: 0, millis: 0 }
}

fn task(id: &str, title: &str) -> Task {
    let mut t = Task::default();
    t.id = id.into();
    t.title = title.into();
    t.modified = None;
    t.order = None;
    t.added = ts(2019, 3, 21);
    t
}

fn archive(name: &str, tasks: Vec<Task>) -> ArchiveFile {
    let data = encode_archive(&Content { tasks }).unwrap();
    ArchiveFile { name: name.into(), data }
}

const ROOT: &str = "00000000000000=00000000000+AAAAAAAAAAA.zip";

/// Opening a directory with no root archive fails with the not-found error.
#[test]
fn test_no_root() {
    let files = vec![archive("20190321000000=AAAAAAAAAAA+BBBBBBBBBBB.zip", vec![])];
    let err = Database::new(files).unwrap_err();
    assert_eq!(err.kind, OpenFocusErrorType::NotFound);
}

/// Two archives extending the same parent are a fork: the open fails with
/// the invalid-chain error, never picking one silently.
#[test]
fn test_fork_detection() {
    let files = vec![
        archive(ROOT, vec![task("T1", "x")]),
        archive("20190321000001=AAAAAAAAAAA+BBBBBBBBBBB.zip", vec![]),
        archive("20190321000002=AAAAAAAAAAA+CCCCCCCCCCC.zip", vec![]),
    ];
    let err = Database::new(files).unwrap_err();
    assert_eq!(err.kind, OpenFocusErrorType::InvalidChain);
}

/// An archive whose parent never appears is a dangling reference: the
/// chain does not reach it, and the open fails rather than truncating.
#[test]
fn test_dangling_archive() {
    let files = vec![
        archive(ROOT, vec![]),
        archive("20190321000002=ZZZZZZZZZZZ+CCCCCCCCCCC.zip", vec![]),
    ];
    let err = Database::new(files).unwrap_err();
    assert_eq!(err.kind, OpenFocusErrorType::InvalidChain);
}

/// A file ending in `.zip` whose name fails the grammar is a parse error
/// naming the file; other entries are ignored.
#[test]
fn test_bad_name() {
    let files = vec![archive(ROOT, vec![]), archive("notes.zip", vec![])];
    let err = Database::new(files).unwrap_err();
    assert_eq!(err.kind, OpenFocusErrorType::Parse);
    assert_eq!(err.detail.as_deref(), Some("notes.zip"));

    let files = vec![archive(ROOT, vec![]), ArchiveFile { name: "readme.txt".into(), data: vec![] }];
    let db = Database::new(files).unwrap();
    assert_eq!(db.content().tasks.len(), 0);
}

/// Last write wins along the chain: a later archive's record replaces an
/// earlier one with the same id, whatever the listing order of the files.
#[test]
fn test_chain_fold_order() {
    let root = archive(ROOT, vec![task("T1", "x")]);
    let later = archive("20190321000001=AAAAAAAAAAA+BBBBBBBBBBB.zip", vec![task("T1", "y")]);

    let db = Database::new(vec![root, later]).unwrap();
    assert_eq!(db.content().tasks.len(), 1);
    assert_eq!(db.content().tasks[0].title, "y");

    // the same directory, enumerated in the other order
    let root = archive(ROOT, vec![task("T1", "x")]);
    let later = archive("20190321000001=AAAAAAAAAAA+BBBBBBBBBBB.zip", vec![task("T1", "y")]);
    let db = Database::new(vec![later, root]).unwrap();
    assert_eq!(db.content().tasks.len(), 1);
    assert_eq!(db.content().tasks[0].title, "y");
}

/// Opening a one-archive document, writing a delta, and reopening folds to
/// the updated snapshot; the new archive's name extends the old head.
#[test]
fn test_end_to_end() {
    let mut first = task("T1", "Buy milk");
    first.inbox = true;
    let root = archive(ROOT, vec![first]);
    let root_copy = archive(ROOT, vec![{
        let mut t = task("T1", "Buy milk");
        t.inbox = true;
        t
    }]);

    let mut db = Database::new(vec![root]).unwrap();
    let snapshot = db.content();
    assert_eq!(snapshot.tasks.len(), 1);
    let got = &snapshot.tasks[0];
    assert_eq!(got.id, "T1");
    assert_eq!(got.title, "Buy milk");
    assert!(got.inbox);
    assert_eq!(got.parent, None);
    assert_eq!(got.rank, None);
    assert_eq!(got.modified, None);
    assert_eq!(got.note, None);
    assert_eq!(got.context, None);
    assert_eq!(got.due, None);
    assert_eq!(got.start, None);
    assert_eq!(got.completed, None);
    assert_eq!(got.estimated_duration, None);
    assert_eq!(got.order, None);
    assert!(!got.flagged);
    assert!(!got.complete_by_children);

    // rename the task through a delta
    let mut updated = db.content().tasks[0].clone();
    updated.title = "Buy oat milk".into();
    let delta = Content { tasks: vec![updated] };
    let new_archive = db.write(&delta).unwrap();

    // the new file is named <timestamp>=<old head>+<new id>.zip
    assert_eq!(new_archive.name.len(), 42);
    assert_eq!(new_archive.parent_id, "AAAAAAAAAAA");
    assert_eq!(new_archive.id.len(), 11);
    assert_eq!(
        new_archive.name,
        format!("{}={}+{}.zip", new_archive.date, new_archive.parent_id, new_archive.id),
    );
    assert!(new_archive.date.chars().all(|c| c.is_ascii_digit()));
    assert_ne!(new_archive.date, "00000000000000");

    let second = ArchiveFile { name: new_archive.name.clone(), data: new_archive.data.clone() };
    db.commit(new_archive);

    // a fresh open of the directory folds to the renamed task
    let db2 = Database::new(vec![root_copy, second]).unwrap();
    assert_eq!(db2.content().tasks.len(), 1);
    assert_eq!(db2.content().tasks[0].title, "Buy oat milk");
    assert!(db2.content().tasks[0].inbox);
}

/// Folding deltas over disjoint id sets gives the same snapshot under
/// either order, id for id; insertion order of new ids may differ.
#[test]
fn test_disjoint_deltas_commute() {
    let base = || Content { tasks: vec![task("A", "one")] };
    let d1 = || Content { tasks: vec![task("B", "two"), task("A", "one late")] };
    let d2 = || Content { tasks: vec![task("C", "three")] };

    let mut left = base();
    left.update(d1());
    left.update(d2());
    let mut right = base();
    right.update(d2());
    right.update(d1());

    assert_eq!(left.tasks.len(), 3);
    assert_eq!(right.tasks.len(), 3);
    for id in ["A", "B", "C"] {
        let l = left.tasks.iter().find(|t| t.id == id).unwrap();
        let r = right.tasks.iter().find(|t| t.id == id).unwrap();
        assert!(l == r);
    }
}

/// The snapshot merge folds whole records by id, keeping first-seen order.
#[test]
fn test_content_update() {
    let mut snap = Content { tasks: vec![task("A", "one"), task("B", "two")] };
    snap.update(Content { tasks: vec![task("B", "two again"), task("C", "three")] });
    assert_eq!(snap.tasks.len(), 3);
    assert_eq!(snap.tasks[0].title, "one");
    assert_eq!(snap.tasks[1].title, "two again");
    assert_eq!(snap.tasks[2].title, "three");
}
