use vstd::prelude::*;

use crate::codec::ParseError;
use crate::codec::json_of;
use crate::codec::parse_doc;
use crate::codec::parse_tasks;
use crate::codec::serialize_tasks;
use crate::task::Task;
use crate::task::TaskView;
use crate::task::views_of;

verus! {

// ---------------------------------------------------------------------------
// The store's value-level half.  The caller owns the file: it reads the
// text and hands it in, and writes the text handed back.  What the text
// means, and what text a list becomes, is decided and proved here.
// ---------------------------------------------------------------------------

/// The task list a database text holds: a zero-length text holds the empty
/// list, any other text holds what it parses to, or nothing when it does
/// not parse.
pub open spec fn loaded_of(text: Seq<char>) -> Option<Seq<TaskView>> {
    if text.len() == 0 {
        Some(Seq::empty())
    } else {
        parse_doc(text)
    }
}

/// Load the task list from the database text.  A zero-length text is the
/// empty list; anything else must parse.
pub fn load_from_text(text: &str) -> (r: Result<Vec<Task>, ParseError>)
    ensures
        (match r {
            Ok(v) => loaded_of(text@) == Some(views_of(v@)),
            Err(_) => loaded_of(text@) is None,
        }),
{
    if text.is_empty() {
        let v: Vec<Task> = Vec::new();
        proof {
            assert(views_of(v@) =~= Seq::<TaskView>::empty());
        }
        Ok(v)
    } else {
        parse_tasks(text)
    }
}

/// The text to write back for a task list.
pub fn save_to_text(tasks: &Vec<Task>) -> (r: String)
    ensures
        r@ == json_of(views_of(tasks@)),
{
    serialize_tasks(tasks)
}

/// Append one task at the tail; nothing else moves.
pub fn add_task(tasks: &mut Vec<Task>, t: Task)
    ensures
        final(tasks)@ == old(tasks)@.push(t),
{
    tasks.push(t);
}

} // verus!
