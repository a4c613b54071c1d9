use vstd::prelude::*;
use vstd::string::StringExecFns;

use crate::codec::importance_of_label;
use crate::codec::imp_of_label;
use crate::task::Importance;
use crate::task::Task;
use crate::task::label_of;
use crate::text::to_upper;
use crate::text::trim;
use crate::text::trim_of;
use crate::text::upper_of;

verus! {

// ---------------------------------------------------------------------------
// The prompter's decisions: what a typed line means, and what to reply when
// it means nothing.  Reading the lines themselves is the caller's business.
// ---------------------------------------------------------------------------

/// The importance a typed line denotes: the line is trimmed, upper-cased,
/// and matched against the three labels; anything else denotes none.
pub open spec fn token_importance(s: Seq<char>) -> Option<Importance> {
    importance_of_label(upper_of(trim_of(s)))
}

/// Read an importance level off a typed line.
pub fn importance_of_token(s: &str) -> (r: Option<Importance>)
    ensures
        r == token_importance(s@),
{
    let t = trim(s);
    let u = to_upper(t.as_str());
    imp_of_label(&u)
}

/// The reply to a line that denotes no importance level: the trimmed line,
/// followed by the choices that would have been accepted.
pub open spec fn reject_reply_of(s: Seq<char>) -> Seq<char> {
    trim_of(s) + " was not an option. Choose from HIGH, MID, or LOW"@
}

/// What the prompter does with one typed importance line.
pub enum PromptStep {
    Accept(Importance),
    Reject(String),
}

/// Decide one round of the importance prompt: accept the level the line
/// denotes, or reject it with the reply to print before asking again.
pub fn prompt_step(line: &str) -> (r: PromptStep)
    ensures
        (match r {
            PromptStep::Accept(imp) => token_importance(line@) == Some(imp),
            PromptStep::Reject(m) => token_importance(line@) is None && m@ == reject_reply_of(
                line@,
            ),
        }),
{
    match importance_of_token(line) {
        Some(imp) => PromptStep::Accept(imp),
        None => {
            let mut m = trim(line);
            m.append(" was not an option. Choose from HIGH, MID, or LOW");
            PromptStep::Reject(m)
        },
    }
}

/// The task a finished prompt yields: the trimmed description, the chosen
/// importance, and not yet completed.
pub fn task_from_input(description_line: &str, imp: Importance) -> (r: Task)
    ensures
        r@.description == trim_of(description_line@),
        r@.completed == false,
        r@.importance == imp,
{
    Task::new(trim(description_line), imp)
}

/// Importance normalization: a typed line denotes a level exactly when its
/// trimmed, upper-cased form is that level's label, and lines that denote
/// none are the rest.
pub proof fn law_importance_normalization(s: Seq<char>)
    ensures
        forall|imp: Importance| token_importance(s) == Some(imp) <==> upper_of(trim_of(s))
            == label_of(imp),
        token_importance(s) is None <==> (forall|imp: Importance| upper_of(trim_of(s))
            != label_of(imp)),
{
    let w = upper_of(trim_of(s));
    assert(label_of(Importance::High).len() == 4);
    assert(label_of(Importance::Mid).len() == 3);
    assert(label_of(Importance::Low).len() == 3);
    assert(label_of(Importance::Mid)[0] == 'M');
    assert(label_of(Importance::Low)[0] == 'L');
    assert forall|imp: Importance| token_importance(s) == Some(imp) <==> w == label_of(imp) by {
        match imp {
            Importance::High => {},
            Importance::Mid => {},
            Importance::Low => {},
        }
    }
}

} // verus!
