use vstd::prelude::*;
use vstd::string::StringExecFns;

use crate::task::Importance;
use crate::task::Task;
use crate::task::label_of;

verus! {

// ---------------------------------------------------------------------------
// The dispatcher's decisions: which subcommand a word names, and the exact
// lines the subcommands print.  Printing them is the caller's business.
// ---------------------------------------------------------------------------

/// The three subcommands.
#[derive(Clone, Copy, Debug, PartialEq, Eq, Structural)]
pub enum Cmd {
    Add,
    Complete,
    Read,
}

/// The subcommand a word names, if any.
pub open spec fn cmd_of(s: Seq<char>) -> Option<Cmd> {
    if s == "add"@ {
        Some(Cmd::Add)
    } else if s == "complete"@ {
        Some(Cmd::Complete)
    } else if s == "read"@ {
        Some(Cmd::Read)
    } else {
        None
    }
}

/// Which subcommand a word names.
pub fn parse_cmd(s: &str) -> (r: Option<Cmd>)
    ensures
        r == cmd_of(s@),
{
    if s.to_owned() == "add".to_owned() {
        Some(Cmd::Add)
    } else if s.to_owned() == "complete".to_owned() {
        Some(Cmd::Complete)
    } else if s.to_owned() == "read".to_owned() {
        Some(Cmd::Read)
    } else {
        None
    }
}

/// The confirmation `add` prints: the task's description and importance.
pub open spec fn confirmation_of(t: crate::task::TaskView) -> Seq<char> {
    "Adding task with description: '"@ + t.description + "' and importance "@ + label_of(
        t.importance,
    )
}

/// The confirmation line for an added task.
pub fn confirmation_message(t: &Task) -> (r: String)
    ensures
        r@ == confirmation_of(t@),
{
    let mut m = "Adding task with description: '".to_owned();
    m.append(t.description.as_str());
    m.append("' and importance ");
    m.append(t.importance.label());
    m
}

/// What `read` prints for a database text: a friendly line when the text
/// is empty, the text itself otherwise.
pub open spec fn read_reply_of(text: Seq<char>) -> Seq<char> {
    if text.len() == 0 {
        "Your todo list is empty. Great job partner."@
    } else {
        text
    }
}

/// The output of the `read` subcommand for a database text.
pub fn read_reply(text: &str) -> (r: String)
    ensures
        r@ == read_reply_of(text@),
{
    if text.is_empty() {
        "Your todo list is empty. Great job partner.".to_owned()
    } else {
        text.to_owned()
    }
}

/// The line `complete` prints; it changes nothing else.
pub fn complete_reply() -> (r: String)
    ensures
        r@ == "Task complete"@,
{
    "Task complete".to_owned()
}

} // verus!
