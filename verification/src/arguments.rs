//! What one run does, chosen from the command-line flags. The flag
//! recognition itself is ordinary option parsing and lives with the
//! surrounding program; the decision over the recognized flags is here.

use vstd::prelude::*;

verus! {

/// What one run of the program does.
#[derive(Clone, Copy, Debug, PartialEq, Eq, Structural)]
pub enum Action {
    Help,
    Morning,
    Message(i64),
    Past(i64),
    Command,
    Reminder,
}

/// How many of the mutually exclusive option flags are present.
pub open spec fn spec_option_count(next: bool, past: bool, reminder: bool, command: bool) -> int {
    (if next {
        1int
    } else {
        0int
    }) + (if past {
        1int
    } else {
        0int
    }) + (if reminder {
        1int
    } else {
        0int
    }) + (if command {
        1int
    } else {
        0int
    })
}

/// A day count, with 1 for a flag given without one.
pub open spec fn spec_days_or_one(days: Option<i64>) -> i64 {
    match days {
        Some(n) => n,
        None => 1,
    }
}

/// The action the flags call for: help when asked for, when the
/// exclusive flags clash, or when stray arguments remain; the plain
/// morning run when no flag is given; otherwise the one flagged action.
pub open spec fn spec_select_action(
    help: bool,
    next: bool,
    next_days: Option<i64>,
    past: bool,
    past_days: Option<i64>,
    reminder: bool,
    command: bool,
    extra_args: bool,
) -> Action {
    if help {
        Action::Help
    } else if spec_option_count(next, past, reminder, command) > 1 {
        Action::Help
    } else if extra_args {
        Action::Help
    } else if next {
        Action::Message(spec_days_or_one(next_days))
    } else if past {
        Action::Past(spec_days_or_one(past_days))
    } else if reminder {
        Action::Reminder
    } else if command {
        Action::Command
    } else {
        Action::Morning
    }
}

/// The action for one set of recognized flags; `next_days` and
/// `past_days` carry the already-read day counts of `-n` and `-p`.
pub fn select_action(
    help: bool,
    next: bool,
    next_days: Option<i64>,
    past: bool,
    past_days: Option<i64>,
    reminder: bool,
    command: bool,
    extra_args: bool,
) -> (r: Action)
    ensures
        r == spec_select_action(
            help,
            next,
            next_days,
            past,
            past_days,
            reminder,
            command,
            extra_args,
        ),
{
    if help {
        return Action::Help;
    }
    let mut count: u8 = 0;
    if next {
        count = count + 1;
    }
    if past {
        count = count + 1;
    }
    if reminder {
        count = count + 1;
    }
    if command {
        count = count + 1;
    }
    if count > 1 {
        return Action::Help;
    }
    if extra_args {
        return Action::Help;
    }
    if next {
        return Action::Message(
            match next_days {
                Some(n) => n,
                None => 1,
            },
        );
    }
    if past {
        return Action::Past(
            match past_days {
                Some(n) => n,
                None => 1,
            },
        );
    }
    if reminder {
        return Action::Reminder;
    }
    if command {
        return Action::Command;
    }
    Action::Morning
}

} // verus!
