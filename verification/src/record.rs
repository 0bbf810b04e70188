//! The persisted entity: a named command record, and small helpers on the
//! character vectors that carry all text in this crate.

use vstd::prelude::*;

verus! {

/// One stored command: the multiplexer session to open it in, the window
/// name (the primary key of the list), the shell command line, and whether
/// the record takes part in the bulk `startup` subcommand.
#[derive(Debug, Clone, PartialEq, Eq)]
pub struct Command {
    pub session: Vec<char>,
    pub name: Vec<char>,
    pub command: Vec<char>,
    pub startup: bool,
}

/// Mathematical model of a [`Command`]: each text field as a sequence of
/// characters.
#[verifier::ext_equal]
pub struct RecordV {
    pub session: Seq<char>,
    pub name: Seq<char>,
    pub command: Seq<char>,
    pub startup: bool,
}

impl View for Command {
    type V = RecordV;

    open spec fn view(&self) -> RecordV {
        RecordV {
            session: self.session@,
            name: self.name@,
            command: self.command@,
            startup: self.startup,
        }
    }
}

impl DeepView for Command {
    type V = RecordV;

    open spec fn deep_view(&self) -> RecordV {
        self.view()
    }
}

/// Character-for-character equality of two texts.
pub fn text_eq(a: &Vec<char>, b: &Vec<char>) -> (r: bool)
    ensures
        r == (a@ == b@),
{
    if a.len() != b.len() {
        return false;
    }
    let mut i: usize = 0;
    while i < a.len()
        invariant
            i <= a.len(),
            a.len() == b.len(),
            forall|j: int| 0 <= j < i ==> a@[j] == b@[j],
        decreases a.len() - i,
    {
        if a[i] != b[i] {
            return false;
        }
        i = i + 1;
    }
    proof {
        assert(a@ =~= b@);
    }
    true
}

/// A fresh copy of a text.
pub fn copy_text(a: &Vec<char>) -> (r: Vec<char>)
    ensures
        r@ == a@,
{
    let mut out: Vec<char> = Vec::new();
    let mut i: usize = 0;
    while i < a.len()
        invariant
            i <= a.len(),
            out@ == a@.take(i as int),
        decreases a.len() - i,
    {
        out.push(a[i]);
        proof {
            assert(out@ =~= a@.take(i + 1 as int));
        }
        i = i + 1;
    }
    proof {
        assert(a@.take(a.len() as int) =~= a@);
    }
    out
}

/// A fresh copy of a record, field for field.
pub fn copy_record(r: &Command) -> (out: Command)
    ensures
        out@ == r@,
{
    let out = Command {
        session: copy_text(&r.session),
        name: copy_text(&r.name),
        command: copy_text(&r.command),
        startup: r.startup,
    };
    proof {
        assert(out@ =~= r@);
    }
    out
}

} // verus!
