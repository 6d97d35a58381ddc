use vstd::prelude::*;

verus! {

/// One node of the task tree.
#[derive(Debug)]
pub struct Task {
    pub name: String,
    pub subtasks: Vec<Task>,
    pub expanded: bool,
}

/// The mathematical value of a [`Task`]: its name as a sequence of
/// characters, the values of its children in order, and its flag.
pub struct TaskView {
    pub name: Seq<char>,
    pub subtasks: Seq<TaskView>,
    pub expanded: bool,
}

/// The value of `task`.
pub open spec fn task_view(task: Task) -> TaskView
    decreases task,
{
    TaskView {
        name: task.name@,
        subtasks: Seq::new(
            task.subtasks@.len(),
            |i: int|
                if 0 <= i < task.subtasks@.len() {
                    task_view(task.subtasks@[i])
                } else {
                    arbitrary()
                },
        ),
        expanded: task.expanded,
    }
}

impl View for Task {
    type V = TaskView;

    open spec fn view(&self) -> TaskView {
        task_view(*self)
    }
}

/// The values of a sequence of tasks, in order.
pub open spec fn forest(tasks: Seq<Task>) -> Seq<TaskView> {
    Seq::new(tasks.len(), |i: int| tasks[i]@)
}

/// What the value of a task is made of: its own fields and the values of
/// its children.
pub proof fn lemma_task_view(task: Task)
    ensures
        task@.name == task.name@,
        task@.expanded == task.expanded,
        task@.subtasks == forest(task.subtasks@),
{
    assert(task@.subtasks =~= forest(task.subtasks@));
}

impl Clone for Task {
    /// A second task of the same value: the same name and flag, and children
    /// of the same values.
    fn clone(&self) -> (twin: Task)
        ensures
            twin@ == self@,
        decreases self,
    {
        let mut subtasks: Vec<Task> = Vec::new();
        let mut i: usize = 0;
        while i < self.subtasks.len()
            invariant
                i <= self.subtasks.len(),
                subtasks@.len() == i,
                forall|j: int| 0 <= j < i ==> subtasks@[j]@ == self.subtasks@[j]@,
            decreases self.subtasks.len() - i,
        {
            let child = self.subtasks[i].clone();
            subtasks.push(child);
            i += 1;
        }
        let twin = Task { name: self.name.clone(), subtasks, expanded: self.expanded };
        assert(twin@.subtasks =~= self@.subtasks);
        twin
    }
}

impl Task {
    /// A collapsed task without children.
    pub fn new(name: String) -> (task: Task)
        ensures
            task@ == (TaskView { name: name@, subtasks: Seq::empty(), expanded: false }),
    {
        let task = Task { name, subtasks: Vec::new(), expanded: false };
        assert(task@.subtasks =~= Seq::empty());
        task
    }
}

} // verus!
