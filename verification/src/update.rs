//! Field updates driven by the command line: one argument name selects a
//! task field, an optional argument value supplies its new contents.

use vstd::prelude::*;
use crate::error::{OpenFocusError, OpenFocusErrorType};
use crate::events::str_eq;
use crate::task::{Task, TaskV};
use crate::time::{Timestamp, parse_ts_spec};

verus! {

/// Applies one command-line update to a task.  `value` is the argument
/// that followed the flag, if any; `now` stamps completions.
pub fn do_update(task: &mut Task, arg: &str, value: Option<&String>, now: Timestamp) -> (r: Result<
    (),
    OpenFocusError,
>)
    ensures
        (arg@ == "title"@ || arg@ == "t"@) ==> (value matches Some(v) ==> r is Ok && final(task)@
            == (TaskV { title: v@, ..old(task)@ })),
        (arg@ == "project"@ || arg@ == "p"@) ==> (value matches Some(v) ==> r is Ok
            && final(task)@ == (TaskV { parent: Some(v@), ..old(task)@ })),
        (arg@ == "note"@ || arg@ == "n"@) ==> (value matches Some(v) ==> r is Ok && final(task)@
            == (TaskV { note: Some(v@), ..old(task)@ })),
        arg@ == "complete"@ || arg@ == "c"@ ==> r is Ok && final(task)@ == (TaskV {
            completed: Some(now),
            ..old(task)@
        }),
        arg@ == "incomplete"@ || arg@ == "ic"@ ==> r is Ok && final(task)@ == (TaskV {
            completed: None,
            ..old(task)@
        }),
        arg@ == "flag"@ || arg@ == "f"@ ==> r is Ok && final(task)@ == (TaskV {
            flagged: !old(task).flagged,
            ..old(task)@
        }),
        (arg@ == "due"@ || arg@ == "d"@ || arg@ == "defer"@) ==> (value matches Some(v)
            ==> match parse_ts_spec(v@) {
            Some(t) => r is Ok && final(task)@ == (TaskV { due: Some(t), ..old(task)@ }),
            None => r matches Err(e) && e.kind == OpenFocusErrorType::Parse,
        }),
        (arg@ == "duration"@ || arg@ == "estimate"@ || arg@ == "e"@) ==> (value matches Some(v)
            ==> match crate::digits::parse_u64_spec(v@) {
            Some(m) => r is Ok && final(task)@ == (TaskV {
                estimated_duration: Some(m),
                ..old(task)@
            }),
            None => r matches Err(e) && e.kind == OpenFocusErrorType::Parse,
        }),
        (arg@ == "title"@ || arg@ == "t"@ || arg@ == "project"@ || arg@ == "p"@ || arg@ == "note"@
            || arg@ == "n"@ || arg@ == "due"@ || arg@ == "d"@ || arg@ == "defer"@ || arg@
            == "duration"@ || arg@ == "estimate"@ || arg@ == "e"@) && value is None ==> (r matches
            Err(e) && e.kind == OpenFocusErrorType::InvalidArgument),
        !(arg@ == "title"@ || arg@ == "t"@ || arg@ == "project"@ || arg@ == "p"@ || arg@ == "note"@
            || arg@ == "n"@ || arg@ == "complete"@ || arg@ == "c"@ || arg@ == "incomplete"@
            || arg@ == "ic"@ || arg@ == "flag"@ || arg@ == "f"@ || arg@ == "due"@ || arg@ == "d"@
            || arg@ == "defer"@ || arg@ == "duration"@ || arg@ == "estimate"@ || arg@ == "e"@)
            ==> (r matches Err(e) && e.kind == OpenFocusErrorType::InvalidArgument),
        (r matches Err(e) && e.kind == OpenFocusErrorType::Parse) ==> value is Some,
        r is Err ==> *final(task) == *old(task),
        r matches Err(e) ==> e.kind == OpenFocusErrorType::InvalidArgument || e.kind
            == OpenFocusErrorType::Parse,
{
    proof {
        reveal_strlit("title");
        reveal_strlit("t");
        reveal_strlit("project");
        reveal_strlit("p");
        reveal_strlit("note");
        reveal_strlit("n");
        reveal_strlit("complete");
        reveal_strlit("c");
        reveal_strlit("incomplete");
        reveal_strlit("ic");
        reveal_strlit("flag");
        reveal_strlit("f");
        reveal_strlit("due");
        reveal_strlit("d");
        reveal_strlit("defer");
        reveal_strlit("duration");
        reveal_strlit("estimate");
        reveal_strlit("e");
        assert("title"@.len() == 5);
        assert("t"@.len() == 1);
        assert("project"@.len() == 7);
        assert("p"@.len() == 1);
        assert("note"@.len() == 4);
        assert("n"@.len() == 1);
        assert("complete"@.len() == 8);
        assert("c"@.len() == 1);
        assert("incomplete"@.len() == 10);
        assert("ic"@.len() == 2);
        assert("flag"@.len() == 4);
        assert("f"@.len() == 1);
        assert("due"@.len() == 3);
        assert("d"@.len() == 1);
        assert("defer"@.len() == 5);
        assert("duration"@.len() == 8);
        assert("estimate"@.len() == 8);
        assert("e"@.len() == 1);
        assert("title"@[0] == 't');
        assert("defer"@[0] == 'd');
        assert("t"@[0] == 't');
        assert("p"@[0] == 'p');
        assert("n"@[0] == 'n');
        assert("c"@[0] == 'c');
        assert("f"@[0] == 'f');
        assert("d"@[0] == 'd');
        assert("e"@[0] == 'e');
        assert("note"@[0] == 'n');
        assert("flag"@[0] == 'f');
        assert("complete"@[0] == 'c');
        assert("duration"@[0] == 'd');
        assert("estimate"@[0] == 'e');
    }
    if str_eq(arg, "title") || str_eq(arg, "t") {
        match value {
            Some(v) => {
                task.title = crate::events::clone_string(v);
                Ok(())
            },
            None => Err(OpenFocusError::new(OpenFocusErrorType::InvalidArgument)),
        }
    } else if str_eq(arg, "project") || str_eq(arg, "p") {
        match value {
            Some(v) => {
                task.parent = Some(crate::events::clone_string(v));
                Ok(())
            },
            None => Err(OpenFocusError::new(OpenFocusErrorType::InvalidArgument)),
        }
    } else if str_eq(arg, "note") || str_eq(arg, "n") {
        match value {
            Some(v) => {
                task.note = Some(crate::events::clone_string(v));
                Ok(())
            },
            None => Err(OpenFocusError::new(OpenFocusErrorType::InvalidArgument)),
        }
    } else if str_eq(arg, "complete") || str_eq(arg, "c") {
        task.completed = Some(now);
        Ok(())
    } else if str_eq(arg, "incomplete") || str_eq(arg, "ic") {
        task.completed = None;
        Ok(())
    } else if str_eq(arg, "flag") || str_eq(arg, "f") {
        task.flagged = !task.flagged;
        Ok(())
    } else if str_eq(arg, "due") || str_eq(arg, "d") || str_eq(arg, "defer") {
        match value {
            Some(v) => match crate::time::parse_timestamp(v.as_str()) {
                Some(t) => {
                    task.due = Some(t);
                    Ok(())
                },
                None => Err(OpenFocusError::new(OpenFocusErrorType::Parse)),
            },
            None => Err(OpenFocusError::new(OpenFocusErrorType::InvalidArgument)),
        }
    } else if str_eq(arg, "duration") || str_eq(arg, "estimate") || str_eq(arg, "e") {
        match value {
            Some(v) => match crate::digits::parse_u64(v.as_str()) {
                Some(m) => {
                    task.estimated_duration = Some(m);
                    Ok(())
                },
                None => Err(OpenFocusError::new(OpenFocusErrorType::Parse)),
            },
            None => Err(OpenFocusError::new(OpenFocusErrorType::InvalidArgument)),
        }
    } else {
        Err(OpenFocusError::new(OpenFocusErrorType::InvalidArgument))
    }
}

} // verus!
