use openfocus::filter::Filter;
use openfocus::task::Task;

#[test]
fn test_filter_inbox() {
    let mut tasks = vec![Task::default(), Task::default(), Task::default()];

    tasks[0].id = "foo".into();
    tasks[1].id = "bar".into();
    tasks[2].id = "baz".into();

    tasks[1].inbox = true;
    tasks[2].inbox = true;

    let filtered: Vec<Task> = Filter::new_inbox().apply(tasks.clone());

    assert!(filtered[0] == tasks[1]);
    assert!(filtered[1] == tasks[2]);
    assert!(filtered.len() == 2);
}

#[test]
fn test_filter_projects() {
    let mut tasks = vec![Task::default(), Task::default(), Task::default()];

    tasks[0].id = "foo".into();
    tasks[1].id = "bar".into();
    tasks[2].id = "baz".into();

    tasks[0].parent = Some("someproj".into());
    tasks[2].parent = Some("someproj".into());

    let filtered: Vec<Task> = Filter::new_projects().apply(tasks.clone());

    assert!(filtered[0] == tasks[0]);
    assert!(filtered[1] == tasks[2]);
    assert!(filtered.len() == 2);
}

#[test]
fn test_filter_complete_and_flagged() {
    let mut tasks = vec![Task::default(), Task::default()];
    tasks[0].completed = Some(openfocus::time::now_timestamp());
    tasks[1].flagged = true;

    let complete = Filter::new_complete().apply(tasks.clone());
    assert_eq!(complete.len(), 1);
    assert!(complete[0] == tasks[0]);

    let flagged = Filter::new_flagged().apply(tasks.clone());
    assert_eq!(flagged.len(), 1);
    assert!(flagged[0] == tasks[1]);

    let all = Filter::new_empty().apply(tasks.clone());
    assert_eq!(all.len(), 2);

    let incomplete = Filter::new_incomplete().apply(tasks.clone());
    assert_eq!(incomplete.len(), 1);
    assert!(incomplete[0] == tasks[1]);
}

#[test]
fn test_perspective_names() {
    let mut tasks = vec![Task::default(), Task::default()];
    tasks[0].due = Some(openfocus::time::now_timestamp());
    tasks[1].completed = Some(openfocus::time::now_timestamp());

    let forecast = openfocus::filter::perspective_name_to_filter("forecast").apply(tasks.clone());
    assert_eq!(forecast.len(), 1);
    assert!(forecast[0] == tasks[0]);

    let completed = openfocus::filter::perspective_name_to_filter("completed").apply(tasks.clone());
    assert_eq!(completed.len(), 1);
    assert!(completed[0] == tasks[1]);
}
