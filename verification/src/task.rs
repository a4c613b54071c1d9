use vstd::prelude::*;

verus! {

/// The three-level importance of a task: a closed set of labels.
#[derive(Clone, Copy, Debug, PartialEq, Eq, Structural)]
pub enum Importance {
    High,
    Mid,
    Low,
}

/// The label of an importance level, as it stands on disk and on screen.
pub open spec fn label_of(imp: Importance) -> Seq<char> {
    match imp {
        Importance::High => seq!['H', 'I', 'G', 'H'],
        Importance::Mid => seq!['M', 'I', 'D'],
        Importance::Low => seq!['L', 'O', 'W'],
    }
}

impl Importance {
    /// The label as text: `HIGH`, `MID` or `LOW`.
    pub fn label(&self) -> (r: &'static str)
        ensures
            r@ == label_of(*self),
    {
        proof {
            reveal_strlit("HIGH");
            reveal_strlit("MID");
            reveal_strlit("LOW");
        }
        match self {
            Importance::High => "HIGH",
            Importance::Mid => "MID",
            Importance::Low => "LOW",
        }
    }
}

/// A single todo item.
#[derive(Clone, Debug)]
pub struct Task {
    pub description: String,
    pub completed: bool,
    pub importance: Importance,
}

/// The mathematical value of a task: its description as a sequence of
/// characters, its completion flag, and its importance.
pub struct TaskView {
    pub description: Seq<char>,
    pub completed: bool,
    pub importance: Importance,
}

impl View for Task {
    type V = TaskView;

    open spec fn view(&self) -> TaskView {
        TaskView {
            description: self.description@,
            completed: self.completed,
            importance: self.importance,
        }
    }
}

/// The values of a sequence of tasks.
pub open spec fn views_of(ts: Seq<Task>) -> Seq<TaskView> {
    Seq::new(ts.len(), |i: int| ts[i]@)
}

impl Task {
    /// A fresh task: the given description and importance, not yet completed.
    pub fn new(description: String, importance: Importance) -> (r: Task)
        ensures
            r@.description == description@,
            r@.completed == false,
            r@.importance == importance,
    {
        Task { description, completed: false, importance }
    }
}

} // verus!
