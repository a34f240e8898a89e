use vstd::prelude::*;

use crate::config::Keyword;
use crate::mail::Type;

verus! {

/// Why a message is discarded instead of filed.
#[derive(Debug, Clone, Copy, PartialEq, Eq, Structural)]
pub enum DropReason {
    DuplicateQuirk,
    VerbatimCopy,
    Ignored,
}

/// The outcome for one message: discarded, or filed into the folder with the
/// given index (a smaller index is a more preferred folder).
#[derive(Debug, Clone, Copy, PartialEq, Eq, Structural)]
pub enum Dest {
    Drop(DropReason),
    Folder(usize),
}

/// The merge of two destinations: the more preferred folder, and nothing when
/// either side is a drop.
pub open spec fn spec_max_prio(a: Dest, b: Dest) -> Option<Dest> {
    match (a, b) {
        (Dest::Folder(x), Dest::Folder(y)) => Some(Dest::Folder(if x <= y { x } else { y })),
        _ => None,
    }
}

impl Dest {
    pub fn max_prio(a: Self, b: Self) -> (r: Option<Self>)
        ensures
            r == spec_max_prio(a, b),
    {
        match (a, b) {
            (Dest::Folder(x), Dest::Folder(y)) => Some(Dest::Folder(if x <= y { x } else { y })),
            _ => None,
        }
    }

    /// The folder type that a filed destination corresponds to.
    pub fn as_type(self) -> (r: Option<Type>)
        ensures
            r == (match self {
                Dest::Folder(i) => Some(Type::Folder(i)),
                Dest::Drop(_) => None,
            }),
    {
        match self {
            Dest::Folder(i) => Some(Type::Folder(i)),
            Dest::Drop(_) => None,
        }
    }

    /// The destination of an already filed message; a new message has none.
    pub fn try_from_type(t: Type) -> (r: Result<Dest, DestConvertError>)
        ensures
            r == (match t {
                Type::New => Err(DestConvertError),
                Type::Folder(i) => Ok(Dest::Folder(i)),
            }),
    {
        match t {
            Type::New => Err(DestConvertError),
            Type::Folder(i) => Ok(Dest::Folder(i)),
        }
    }
}

/// A new message has no folder to turn into a destination.
#[derive(Debug, Clone, Copy, PartialEq, Eq, Structural)]
pub struct DestConvertError;

impl DestConvertError {
    pub fn message(&self) -> (r: &'static str) {
        "cannot convert `Type::New` into `Dest`"
    }
}

/// A destination together with the two presentation marks.
///
/// The mutators keep `mark_read` and `mark_flagged` exclusive: setting one
/// clears the other.
#[derive(Debug, Clone, Copy, PartialEq, Eq, Structural)]
pub struct Action {
    pub mark_read: bool,
    pub mark_flagged: bool,
    pub dest: Dest,
}

/// The maildir flag suffix for a pair of marks: `F` for flagged, then `S`
/// for seen.
pub open spec fn spec_flags(read: bool, flagged: bool) -> Seq<char> {
    if flagged && read {
        seq!['F', 'S']
    } else if read {
        seq!['S']
    } else if flagged {
        seq!['F']
    } else {
        Seq::empty()
    }
}

impl Action {
    /// The two marks are never both set.
    pub open spec fn wf(&self) -> bool {
        !(self.mark_read && self.mark_flagged)
    }

    pub open spec fn spec_read(self) -> Action {
        Action { mark_read: true, mark_flagged: false, ..self }
    }

    pub open spec fn spec_flag(self) -> Action {
        Action { mark_read: false, mark_flagged: true, ..self }
    }

    pub open spec fn spec_cleared(self) -> Action {
        Action { mark_read: false, mark_flagged: false, ..self }
    }

    pub open spec fn spec_folder_idx(self) -> Option<usize> {
        match self.dest {
            Dest::Drop(_) => None,
            Dest::Folder(i) => Some(i),
        }
    }

    pub fn delete(reason: DropReason) -> (r: Self)
        ensures
            r == (Action { dest: Dest::Drop(reason), mark_read: false, mark_flagged: false }),
    {
        Action { dest: Dest::Drop(reason), mark_read: false, mark_flagged: false }
    }

    pub fn folder(id: usize) -> (r: Self)
        ensures
            r == (Action { dest: Dest::Folder(id), mark_read: false, mark_flagged: false }),
    {
        Action { dest: Dest::Folder(id), mark_read: false, mark_flagged: false }
    }

    pub fn with_cleared_flags(&self) -> (r: Self)
        ensures
            r == self.spec_cleared(),
    {
        Action { dest: self.dest, mark_read: false, mark_flagged: false }
    }

    pub fn flags(&self) -> (r: &'static str)
        ensures
            r@ == spec_flags(self.mark_read, self.mark_flagged),
    {
        proof {
            reveal_strlit("FS");
            reveal_strlit("S");
            reveal_strlit("F");
            reveal_strlit("");
        }
        if self.mark_read && self.mark_flagged {
            "FS"
        } else if self.mark_read {
            "S"
        } else if self.mark_flagged {
            "F"
        } else {
            ""
        }
    }

    pub fn folder_idx(&self) -> (r: Option<usize>)
        ensures
            r == self.spec_folder_idx(),
    {
        match self.dest {
            Dest::Drop(_) => None,
            Dest::Folder(i) => Some(i),
        }
    }

    pub fn flag(&mut self)
        ensures
            *final(self) == old(self).spec_flag(),
    {
        self.mark_flagged = true;
        self.mark_read = false;
    }

    pub fn read(&mut self)
        ensures
            *final(self) == old(self).spec_read(),
    {
        self.mark_flagged = false;
        self.mark_read = true;
    }

    pub fn is_flagged(&self) -> (r: bool)
        ensures
            r == self.mark_flagged,
    {
        self.mark_flagged
    }

    pub fn is_read(&self) -> (r: bool)
        ensures
            r == self.mark_read,
    {
        self.mark_read
    }

    pub fn dest(&self) -> (r: Dest)
        ensures
            r == self.dest,
    {
        self.dest
    }

    pub fn set_dest(&mut self, dest: Dest)
        ensures
            *final(self) == (Action { dest, ..*old(self) }),
    {
        self.dest = dest;
    }
}

/// Marks are exclusive after either mutator, whatever they were before.
pub proof fn lemma_marks_exclusive(a: Action)
    ensures
        a.spec_read().wf(),
        a.spec_flag().wf(),
        a.spec_cleared().wf(),
        spec_flags(a.spec_read().mark_read, a.spec_read().mark_flagged) == seq!['S'],
        spec_flags(a.spec_flag().mark_read, a.spec_flag().mark_flagged) == seq!['F'],
{
}

} // verus!

verus! {

/// A destination folder, in the order of preference once sorted.
pub struct Folder {
    pub priority: usize,
    /// Body keywords that route a message here.
    pub keywords: Vec<Keyword>,
    /// Keywords that flag a message filed here, in place of the global ones.
    pub flagging_keywords: Option<Vec<Keyword>>,
    pub name: String,
    /// Every message filed here is marked read.
    pub mark_read: bool,
}

/// The name of the catch-all folder, the root of the maildir.
pub const ROOT_NAME: &'static str = "INBOX";

impl Folder {
    pub fn new(f: crate::config::Folder) -> (r: Self)
        ensures
            r.priority == f.priority,
            r.keywords@ == f.keywords@,
            r.flagging_keywords == f.flagging_keywords,
            r.name@ == f.name@,
            r.mark_read == f.mark_read,
    {
        Folder {
            priority: f.priority,
            keywords: f.keywords,
            flagging_keywords: f.flagging_keywords,
            name: f.name,
            mark_read: f.mark_read,
        }
    }

    /// The catch-all folder used when none is configured: least preferred,
    /// no keywords.
    pub fn rest() -> (r: Self)
        ensures
            r.priority == usize::MAX,
            r.keywords@.len() == 0,
            r.flagging_keywords is None,
            r.name@ == ROOT_NAME@,
            !r.mark_read,
    {
        Folder {
            priority: usize::MAX,
            keywords: Vec::new(),
            flagging_keywords: None,
            name: String::from_str(ROOT_NAME),
            mark_read: false,
        }
    }
}

/// The name under which a message with maildir name `id` is filed:
/// `{id}{sep}2,{flags}`.
pub fn file_name(id: &str, sep: &str, action: &Action) -> (r: String)
    ensures
        r@ == id@ + sep@ + "2,"@ + spec_flags(action.mark_read, action.mark_flagged),
{
    let mut name = String::from_str(id);
    name.append(sep);
    name.append("2,");
    name.append(action.flags());
    name
}

} // verus!
