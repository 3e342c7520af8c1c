//! Task statuses and the state machine that governs changes between them.
use vstd::prelude::*;

verus! {

/// The six workflow states of a task.
#[derive(Clone, Copy, Debug, PartialEq, Eq, Structural)]
pub enum Status {
    Backlog,
    Todo,
    Doing,
    Blocked,
    Done,
    Rejected,
}

/// The status that a newly created task receives.
pub const DEFAULT_STATUS: Status = Status::Backlog;

/// `Done` and `Rejected` are terminal: no transition leaves them.
pub open spec fn terminal(s: Status) -> bool {
    s == Status::Done || s == Status::Rejected
}

/// The transition table: any non-terminal status may move to any status.
pub open spec fn allowed(from: Status, to: Status) -> bool {
    !terminal(from)
}

/// The name under which a status is written, capitalised.
pub open spec fn status_name(s: Status) -> Seq<char> {
    match s {
        Status::Backlog => seq!['B', 'a', 'c', 'k', 'l', 'o', 'g'],
        Status::Todo => seq!['T', 'o', 'd', 'o'],
        Status::Doing => seq!['D', 'o', 'i', 'n', 'g'],
        Status::Blocked => seq!['B', 'l', 'o', 'c', 'k', 'e', 'd'],
        Status::Done => seq!['D', 'o', 'n', 'e'],
        Status::Rejected => seq!['R', 'e', 'j', 'e', 'c', 't', 'e', 'd'],
    }
}

/// The same name in lower case.
pub open spec fn status_name_lower(s: Status) -> Seq<char> {
    match s {
        Status::Backlog => seq!['b', 'a', 'c', 'k', 'l', 'o', 'g'],
        Status::Todo => seq!['t', 'o', 'd', 'o'],
        Status::Doing => seq!['d', 'o', 'i', 'n', 'g'],
        Status::Blocked => seq!['b', 'l', 'o', 'c', 'k', 'e', 'd'],
        Status::Done => seq!['d', 'o', 'n', 'e'],
        Status::Rejected => seq!['r', 'e', 'j', 'e', 'c', 't', 'e', 'd'],
    }
}

/// The status that a text names, in capitalised or lower-case form.
pub open spec fn status_named(t: Seq<char>) -> Option<Status> {
    if t == status_name(Status::Backlog) || t == status_name_lower(Status::Backlog) {
        Some(Status::Backlog)
    } else if t == status_name(Status::Todo) || t == status_name_lower(Status::Todo) {
        Some(Status::Todo)
    } else if t == status_name(Status::Doing) || t == status_name_lower(Status::Doing) {
        Some(Status::Doing)
    } else if t == status_name(Status::Blocked) || t == status_name_lower(Status::Blocked) {
        Some(Status::Blocked)
    } else if t == status_name(Status::Done) || t == status_name_lower(Status::Done) {
        Some(Status::Done)
    } else if t == status_name(Status::Rejected) || t == status_name_lower(Status::Rejected) {
        Some(Status::Rejected)
    } else {
        None
    }
}

/// The one-byte code of a status in the store format.
pub open spec fn status_code(s: Status) -> u8 {
    match s {
        Status::Backlog => 0,
        Status::Todo => 1,
        Status::Doing => 2,
        Status::Blocked => 3,
        Status::Done => 4,
        Status::Rejected => 5,
    }
}

/// The status that a byte code stands for, if any.
pub open spec fn status_of_code(b: u8) -> Option<Status> {
    if b == 0 {
        Some(Status::Backlog)
    } else if b == 1 {
        Some(Status::Todo)
    } else if b == 2 {
        Some(Status::Doing)
    } else if b == 3 {
        Some(Status::Blocked)
    } else if b == 4 {
        Some(Status::Done)
    } else if b == 5 {
        Some(Status::Rejected)
    } else {
        None
    }
}

impl Status {
    /// Whether no transition may leave this status.
    pub fn is_terminal(&self) -> (r: bool)
        ensures
            r == terminal(*self),
    {
        match self {
            Status::Done | Status::Rejected => true,
            _ => false,
        }
    }

    /// Whether the transition table admits a move from `self` to `to`.
    pub fn can_move_to(&self, to: Status) -> (r: bool)
        ensures
            r == allowed(*self, to),
    {
        !self.is_terminal()
    }

    /// The capitalised name of the status.
    pub fn name(&self) -> (r: &'static str)
        ensures
            r@ == status_name(*self),
    {
        match self {
            Status::Backlog => {
                proof { reveal_strlit("Backlog"); }
                "Backlog"
            },
            Status::Todo => {
                proof { reveal_strlit("Todo"); }
                "Todo"
            },
            Status::Doing => {
                proof { reveal_strlit("Doing"); }
                "Doing"
            },
            Status::Blocked => {
                proof { reveal_strlit("Blocked"); }
                "Blocked"
            },
            Status::Done => {
                proof { reveal_strlit("Done"); }
                "Done"
            },
            Status::Rejected => {
                proof { reveal_strlit("Rejected"); }
                "Rejected"
            },
        }
    }

    /// The lower-case name of the status.
    pub fn lower_name(&self) -> (r: &'static str)
        ensures
            r@ == status_name_lower(*self),
    {
        match self {
            Status::Backlog => {
                proof { reveal_strlit("backlog"); }
                "backlog"
            },
            Status::Todo => {
                proof { reveal_strlit("todo"); }
                "todo"
            },
            Status::Doing => {
                proof { reveal_strlit("doing"); }
                "doing"
            },
            Status::Blocked => {
                proof { reveal_strlit("blocked"); }
                "blocked"
            },
            Status::Done => {
                proof { reveal_strlit("done"); }
                "done"
            },
            Status::Rejected => {
                proof { reveal_strlit("rejected"); }
                "rejected"
            },
        }
    }

    /// The byte code of the status in the store format.
    pub fn code(&self) -> (r: u8)
        ensures
            r == status_code(*self),
    {
        match self {
            Status::Backlog => 0,
            Status::Todo => 1,
            Status::Doing => 2,
            Status::Blocked => 3,
            Status::Done => 4,
            Status::Rejected => 5,
        }
    }

    /// The status for a byte code, `None` for a code that names none.
    pub fn from_code(b: u8) -> (r: Option<Status>)
        ensures
            r == status_of_code(b),
    {
        if b == 0 {
            Some(Status::Backlog)
        } else if b == 1 {
            Some(Status::Todo)
        } else if b == 2 {
            Some(Status::Doing)
        } else if b == 3 {
            Some(Status::Blocked)
        } else if b == 4 {
            Some(Status::Done)
        } else if b == 5 {
            Some(Status::Rejected)
        } else {
            None
        }
    }
}

/// Whether `text` spells `name`.
fn spells(text: &String, name: &str) -> (r: bool)
    ensures
        r == (text@ == name@),
{
    let owned = name.to_owned();
    *text == owned
}

/// The status that `text` names, capitalised or in lower case; `None` for any
/// other text.
pub fn parse_status(text: &str) -> (r: Option<Status>)
    ensures
        r == status_named(text@),
{
    let t = text.to_owned();
    let all = [
        Status::Backlog,
        Status::Todo,
        Status::Doing,
        Status::Blocked,
        Status::Done,
        Status::Rejected,
    ];
    let mut i: usize = 0;
    while i < 6
        invariant
            0 <= i <= 6,
            t@ == text@,
            all@ == seq![
                Status::Backlog,
                Status::Todo,
                Status::Doing,
                Status::Blocked,
                Status::Done,
                Status::Rejected,
            ],
            forall|j: int|
                0 <= j < i ==> t@ != status_name(#[trigger] all@[j]) && t@ != status_name_lower(
                    all@[j],
                ),
        decreases 6 - i,
    {
        let s = all[i];
        if spells(&t, s.name()) || spells(&t, s.lower_name()) {
            return Some(s);
        }
        i = i + 1;
    }
    assert(t@ != status_name(all@[0]) && t@ != status_name_lower(all@[0]));
    assert(t@ != status_name(all@[1]) && t@ != status_name_lower(all@[1]));
    assert(t@ != status_name(all@[2]) && t@ != status_name_lower(all@[2]));
    assert(t@ != status_name(all@[3]) && t@ != status_name_lower(all@[3]));
    assert(t@ != status_name(all@[4]) && t@ != status_name_lower(all@[4]));
    assert(t@ != status_name(all@[5]) && t@ != status_name_lower(all@[5]));
    None
}

} // verus!
