use vstd::prelude::*;
use crate::app::task::{Task, TaskView, forest, lemma_task_view};

verus! {

/// The node that `path` names in `tasks`: `path[0]` indexes `tasks`, each
/// further element indexes the children of the node reached so far. `None`
/// for the empty path and wherever an index is out of range.
pub open spec fn resolve(tasks: Seq<TaskView>, path: Seq<usize>) -> Option<TaskView>
    decreases path.len(),
{
    if path.len() == 0 || path[0] >= tasks.len() {
        None
    } else if path.len() == 1 {
        Some(tasks[path[0] as int])
    } else {
        resolve(tasks[path[0] as int].subtasks, path.skip(1))
    }
}

/// `tasks` with the node that `path` names replaced by `node`; `tasks` itself
/// where `path` names no node.
pub open spec fn replace_at(tasks: Seq<TaskView>, path: Seq<usize>, node: TaskView) -> Seq<TaskView>
    decreases path.len(),
{
    if path.len() == 0 || path[0] >= tasks.len() {
        tasks
    } else if path.len() == 1 {
        tasks.update(path[0] as int, node)
    } else {
        let head = tasks[path[0] as int];
        tasks.update(
            path[0] as int,
            TaskView { subtasks: replace_at(head.subtasks, path.skip(1), node), ..head },
        )
    }
}

/// `tasks` without the node that `path` names, and so without everything
/// under it; `tasks` itself where `path` names no node.
pub open spec fn remove_at(tasks: Seq<TaskView>, path: Seq<usize>) -> Seq<TaskView> {
    if resolve(tasks, path) is None {
        tasks
    } else if path.len() == 1 {
        tasks.remove(path[0] as int)
    } else {
        let parent = resolve(tasks, path.drop_last()).unwrap();
        replace_at(
            tasks,
            path.drop_last(),
            TaskView { subtasks: parent.subtasks.remove(path.last() as int), ..parent },
        )
    }
}

/// Read access to the node that `path` names.
pub fn get_task<'a>(tasks: &'a [Task], path: &[usize]) -> (found: Option<&'a Task>)
    ensures
        found is Some <==> resolve(forest(tasks@), path@) is Some,
        found is Some ==> found.unwrap()@ == resolve(forest(tasks@), path@).unwrap(),
{
    if path.len() == 0 {
        return None;
    }
    let first: usize = path[0];
    if first >= tasks.len() {
        return None;
    }
    let mut current = &tasks[first];
    let mut i: usize = 1;
    while i < path.len()
        invariant
            1 <= i <= path.len(),
            resolve(forest(tasks@), path@) == (if i == path.len() {
                Some(current@)
            } else {
                resolve(current@.subtasks, path@.skip(i as int))
            }),
        decreases path.len() - i,
    {
        let index: usize = path[i];
        proof {
            let rest = path@.skip(i as int);
            assert(rest.len() > 0 && rest[0] == index);
            assert(rest.skip(1) =~= path@.skip(i as int + 1));
            assert(current@.subtasks.len() == current.subtasks.len());
        }
        if index >= current.subtasks.len() {
            return None;
        }
        assert(current@.subtasks[index as int] == current.subtasks[index as int]@);
        current = &current.subtasks[index];
        i += 1;
    }
    Some(current)
}

/// `node` with its child at `index` replaced by `child`.
pub open spec fn with_child(node: TaskView, index: int, child: TaskView) -> TaskView {
    TaskView { subtasks: node.subtasks.update(index, child), ..node }
}

/// Replacing a node by itself changes nothing.
pub proof fn lemma_replace_same(tasks: Seq<TaskView>, path: Seq<usize>)
    requires
        resolve(tasks, path) is Some,
    ensures
        replace_at(tasks, path, resolve(tasks, path).unwrap()) == tasks,
    decreases path.len(),
{
    let head = tasks[path[0] as int];
    if path.len() == 1 {
        assert(tasks.update(path[0] as int, head) =~= tasks);
    } else {
        lemma_replace_same(head.subtasks, path.skip(1));
        assert(tasks.update(path[0] as int, head) =~= tasks);
    }
}

/// Replacing a node keeps the number of trees.
pub proof fn lemma_replace_len(tasks: Seq<TaskView>, path: Seq<usize>, node: TaskView)
    ensures
        replace_at(tasks, path, node).len() == tasks.len(),
{
}

/// After a node is replaced, its path names what replaced it.
pub proof fn lemma_resolve_replaced(tasks: Seq<TaskView>, path: Seq<usize>, node: TaskView)
    requires
        resolve(tasks, path) is Some,
    ensures
        resolve(replace_at(tasks, path, node), path) == Some(node),
    decreases path.len(),
{
    if path.len() > 1 {
        lemma_resolve_replaced(tasks[path[0] as int].subtasks, path.skip(1), node);
    }
}

/// Of two replacements at one path only the second shows.
pub proof fn lemma_replace_twice(
    tasks: Seq<TaskView>,
    path: Seq<usize>,
    first: TaskView,
    second: TaskView,
)
    requires
        resolve(tasks, path) is Some,
    ensures
        replace_at(replace_at(tasks, path, first), path, second) == replace_at(tasks, path, second),
    decreases path.len(),
{
    let index = path[0] as int;
    if path.len() == 1 {
        assert(tasks.update(index, first).update(index, second) =~= tasks.update(index, second));
    } else {
        let head = tasks[index];
        lemma_replace_twice(head.subtasks, path.skip(1), first, second);
        let once = TaskView { subtasks: replace_at(head.subtasks, path.skip(1), first), ..head };
        let twice = TaskView { subtasks: replace_at(once.subtasks, path.skip(1), second), ..once };
        let direct = TaskView { subtasks: replace_at(head.subtasks, path.skip(1), second), ..head };
        assert(twice == direct);
        assert(tasks.update(index, once).update(index, twice) =~= tasks.update(index, direct));
    }
}

/// One step further down: the child `index` of the node that `path` names
/// is the node that `path.push(index)` names, and replacing that child is
/// replacing the node by itself with the child changed.
pub proof fn lemma_resolve_push(tasks: Seq<TaskView>, path: Seq<usize>, index: usize, child: TaskView)
    requires
        resolve(tasks, path) is Some,
    ensures
        index < resolve(tasks, path).unwrap().subtasks.len() ==> resolve(tasks, path.push(index))
            == Some(resolve(tasks, path).unwrap().subtasks[index as int]),
        index >= resolve(tasks, path).unwrap().subtasks.len() ==> resolve(tasks, path.push(index))
            is None,
        index < resolve(tasks, path).unwrap().subtasks.len() ==> replace_at(
            tasks,
            path.push(index),
            child,
        ) == replace_at(
            tasks,
            path,
            with_child(resolve(tasks, path).unwrap(), index as int, child),
        ),
    decreases path.len(),
{
    let longer = path.push(index);
    let head = tasks[path[0] as int];
    assert(longer[0] == path[0]);
    if path.len() == 1 {
        let rest = longer.skip(1);
        assert(rest =~= seq![index]);
        assert(rest.len() == 1 && rest[0] == index);
        assert(resolve(tasks, longer) == resolve(head.subtasks, rest));
        if index < head.subtasks.len() {
            assert(replace_at(head.subtasks, rest, child) == head.subtasks.update(
                index as int,
                child,
            ));
        }
    } else {
        assert(longer.skip(1) =~= path.skip(1).push(index));
        lemma_resolve_push(head.subtasks, path.skip(1), index, child);
    }
}

/// A path names no node where one of its prefixes names none.
pub proof fn lemma_resolve_none_extends(tasks: Seq<TaskView>, path: Seq<usize>, len: int)
    requires
        1 <= len <= path.len(),
        resolve(tasks, path.take(len)) is None,
    ensures
        resolve(tasks, path) is None,
    decreases path.len(),
{
    let prefix = path.take(len);
    assert(prefix[0] == path[0]);
    if path[0] < tasks.len() && path.len() > 1 {
        if len == 1 {
            assert(prefix.len() == 1);
        } else {
            assert(prefix.skip(1) =~= path.skip(1).take(len - 1));
            lemma_resolve_none_extends(tasks[path[0] as int].subtasks, path.skip(1), len - 1);
        }
    }
}

/// The node above a node: where `path` names a node below the roots, the
/// path without its last index names the parent, and the node is the
/// parent's child at that index.
pub proof fn lemma_resolve_parent(tasks: Seq<TaskView>, path: Seq<usize>)
    requires
        path.len() > 1,
        resolve(tasks, path) is Some,
    ensures
        resolve(tasks, path.drop_last()) is Some,
        path.last() < resolve(tasks, path.drop_last()).unwrap().subtasks.len(),
        resolve(tasks, path) == Some(
            resolve(tasks, path.drop_last()).unwrap().subtasks[path.last() as int],
        ),
{
    let parent = path.drop_last();
    assert(parent =~= path.take(path.len() - 1));
    assert(parent.push(path.last()) =~= path);
    if resolve(tasks, parent) is None {
        lemma_resolve_none_extends(tasks, path, path.len() - 1);
    }
    lemma_resolve_push(tasks, parent, path.last(), resolve(tasks, path).unwrap());
}

/// The values of a sequence of tasks after one more is appended.
pub proof fn lemma_forest_push(tasks: Seq<Task>, task: Task)
    ensures
        forest(tasks.push(task)) == forest(tasks).push(task@),
{
    assert(forest(tasks.push(task)) =~= forest(tasks).push(task@));
}

/// The values of a sequence of tasks after one of them is removed.
pub proof fn lemma_forest_remove(tasks: Seq<Task>, index: int)
    requires
        0 <= index < tasks.len(),
    ensures
        forest(tasks.remove(index)) == forest(tasks).remove(index),
{
    assert(forest(tasks.remove(index)) =~= forest(tasks).remove(index));
}

/// The values of a sequence of tasks after one of them is replaced.
pub proof fn lemma_forest_update(tasks: Seq<Task>, index: int, task: Task)
    requires
        0 <= index < tasks.len(),
    ensures
        forest(tasks.update(index, task)) == forest(tasks).update(index, task@),
{
    assert(forest(tasks.update(index, task)) =~= forest(tasks).update(index, task@));
}

/// Write access to the node that `path` names. What the caller leaves in
/// the node is what the tree then holds at that place, and nothing else in
/// the tree changes.
#[verifier::loop_isolation(false)]
pub fn get_task_mut<'a>(tasks: &'a mut [Task], path: &[usize]) -> (found: Option<&'a mut Task>)
    ensures
        found is Some <==> resolve(forest(old(tasks)@), path@) is Some,
        found is Some ==> found.unwrap()@ == resolve(forest(old(tasks)@), path@).unwrap(),
        found is Some ==> forest(final(tasks)@) == replace_at(
            forest(old(tasks)@),
            path@,
            final(found.unwrap())@,
        ),
        found is None ==> forest(final(tasks)@) == forest(old(tasks)@),
{
    if path.len() == 0 {
        return None;
    }
    let first: usize = path[0];
    if first >= tasks.len() {
        return None;
    }
    let ghost before = forest(old(tasks)@);
    let ghost after = forest(final(tasks)@);
    let mut current = &mut tasks[first];
    proof {
        assert(path@.take(1) =~= seq![first]);
        lemma_forest_update(old(tasks)@, first as int, *final(current));
    }
    let mut i: usize = 1;
    while i < path.len()
        invariant
            1 <= i <= path.len(),
            before == forest(old(tasks)@),
            resolve(before, path@.take(i as int)) == Some(current@),
            after == replace_at(before, path@.take(i as int), final(current)@),
        decreases path.len() - i,
    {
        let index: usize = path[i];
        let ghost parent = *current;
        let ghost parent_final = *final(current);
        proof {
            lemma_task_view(parent);
            assert(path@.take(i as int).push(index) =~= path@.take(i as int + 1));
        }
        if index >= current.subtasks.len() {
            proof {
                lemma_resolve_push(before, path@.take(i as int), index, parent@);
                lemma_resolve_none_extends(before, path@, i as int + 1);
                lemma_replace_same(before, path@.take(i as int));
            }
            return None;
        }
        current = &mut current.subtasks[index];
        proof {
            lemma_task_view(parent_final);
            lemma_forest_update(parent.subtasks@, index as int, *final(current));
            assert(parent_final@ == with_child(parent@, index as int, final(current)@));
            lemma_resolve_push(before, path@.take(i as int), index, final(current)@);
        }
        i += 1;
    }
    proof {
        assert(path@.take(i as int) =~= path@);
    }
    Some(current)
}

} // verus!
