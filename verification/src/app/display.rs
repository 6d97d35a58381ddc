use crate::app::task::{forest, lemma_task_view, Task, TaskView};
use crate::app::task_utils::{lemma_replace_len, replace_at, resolve};
use vstd::prelude::*;

verus! {

/// The indent in front of a label at `depth`: two spaces for each level.
pub open spec fn indent(depth: nat) -> Seq<char> {
    Seq::new(2 * depth, |i: int| ' ')
}

/// The label of a row: the name of its task behind the indent of its depth.
pub open spec fn label(name: Seq<char>, depth: nat) -> Seq<char> {
    indent(depth) + name
}

/// The rows of one task that stands at `path` and `depth`: its own row, then,
/// if it is expanded, the rows of its children in order.
pub open spec fn task_rows(task: TaskView, path: Seq<usize>, depth: nat) -> Seq<
    (Seq<char>, Seq<usize>),
>
    decreases task, 0nat,
{
    seq![(label(task.name, depth), path)] + (if task.expanded {
        forest_rows(task.subtasks, path, depth + 1, task.subtasks.len())
    } else {
        Seq::empty()
    })
}

/// The rows of the first `count` tasks of `tasks`, which are the children of
/// the node at `parent` (the roots, where `parent` is empty) and stand at
/// `depth`.
pub open spec fn forest_rows(tasks: Seq<TaskView>, parent: Seq<usize>, depth: nat, count: nat) -> Seq<
    (Seq<char>, Seq<usize>),
>
    decreases tasks, count,
{
    if count == 0 || count > tasks.len() {
        Seq::empty()
    } else {
        forest_rows(tasks, parent, depth, (count - 1) as nat) + task_rows(
            tasks[count - 1],
            parent.push((count - 1) as usize),
            depth,
        )
    }
}

/// The projection of a tree: the rows of its visible nodes in depth-first
/// pre-order, where a node is entered only if it is expanded.
pub open spec fn project(tasks: Seq<TaskView>) -> Seq<(Seq<char>, Seq<usize>)> {
    forest_rows(tasks, Seq::empty(), 0, tasks.len())
}

/// The value of a list of rows: each label as characters, each path as a
/// sequence of indices.
pub open spec fn rows_view(rows: Seq<(String, Vec<usize>)>) -> Seq<(Seq<char>, Seq<usize>)> {
    Seq::new(rows.len(), |i: int| (rows[i].0@, rows[i].1@))
}

/// Whether every list of children in `tasks`, at every depth, is short
/// enough for its indices to be `usize`. It holds of the value of every
/// tree in memory.
pub open spec fn fits(tasks: Seq<TaskView>) -> bool
    decreases tasks,
{
    tasks.len() <= usize::MAX && forall|i: int|
        0 <= i < tasks.len() ==> fits(#[trigger] tasks[i].subtasks)
}

/// The value of a tree in memory fits.
pub proof fn lemma_forest_fits(tasks: Seq<Task>)
    requires
        tasks.len() <= usize::MAX,
    ensures
        fits(forest(tasks)),
    decreases tasks,
{
    assert forall|i: int| 0 <= i < tasks.len() implies fits(#[trigger] forest(tasks)[i].subtasks) by {
        lemma_task_view(tasks[i]);
        assert(tasks[i].subtasks@.len() == tasks[i].subtasks.len());
        lemma_forest_fits(tasks[i].subtasks@);
    }
}

/// The value of a tree held in a vector fits.
pub proof fn lemma_tree_fits(tasks: Vec<Task>)
    ensures
        fits(forest(tasks@)),
{
    assert(tasks@.len() == tasks.len());
    lemma_forest_fits(tasks@);
}

/// Whether `path` names a node of `tasks` that the projection shows: the
/// node exists and every node above it is expanded.
pub open spec fn visible(tasks: Seq<TaskView>, path: Seq<usize>) -> bool
    decreases path.len(),
{
    if path.len() == 0 || path[0] >= tasks.len() {
        false
    } else if path.len() == 1 {
        true
    } else {
        tasks[path[0] as int].expanded && visible(tasks[path[0] as int].subtasks, path.skip(1))
    }
}

/// The number of nodes of `tasks` that the projection shows, counted over
/// the first `count` trees: each of them, and under each expanded one the
/// shown nodes among its children.
pub open spec fn visible_count(tasks: Seq<TaskView>, count: nat) -> nat
    decreases tasks, count,
{
    if count == 0 || count > tasks.len() {
        0
    } else {
        let task = tasks[count - 1];
        visible_count(tasks, (count - 1) as nat) + 1 + (if task.expanded {
            visible_count(task.subtasks, task.subtasks.len())
        } else {
            0
        })
    }
}

/// The number of rows that one task takes: its own, and those of the shown
/// nodes under it if it is expanded.
pub open spec fn weight(task: TaskView) -> nat {
    1 + (if task.expanded {
        visible_count(task.subtasks, task.subtasks.len())
    } else {
        0
    })
}

/// The shown nodes among the first `count` trees depend on those trees
/// alone.
pub proof fn lemma_count_frame(a: Seq<TaskView>, b: Seq<TaskView>, count: nat)
    requires
        count <= a.len(),
        count <= b.len(),
        forall|j: int| 0 <= j < count ==> a[j] == b[j],
    ensures
        visible_count(a, count) == visible_count(b, count),
    decreases count,
{
    if count > 0 {
        lemma_count_frame(a, b, (count - 1) as nat);
    }
}

/// Replacing one tree changes the number of shown nodes by the difference
/// of the two trees' rows.
pub proof fn lemma_count_update(tasks: Seq<TaskView>, index: int, task: TaskView, count: nat)
    requires
        0 <= index < count <= tasks.len(),
    ensures
        visible_count(tasks.update(index, task), count) == visible_count(tasks, count) - weight(
            tasks[index],
        ) + weight(task),
    decreases count,
{
    if index == count - 1 {
        lemma_count_frame(tasks, tasks.update(index, task), (count - 1) as nat);
    } else {
        lemma_count_update(tasks, index, task, (count - 1) as nat);
    }
}

/// Removing one tree takes its rows away.
pub proof fn lemma_count_remove(tasks: Seq<TaskView>, index: int, count: nat)
    requires
        0 <= index < count <= tasks.len(),
    ensures
        visible_count(tasks.remove(index), (count - 1) as nat) == visible_count(tasks, count)
            - weight(tasks[index]),
    decreases count,
{
    if index == count - 1 {
        lemma_count_frame(tasks, tasks.remove(index), (count - 1) as nat);
    } else {
        lemma_count_remove(tasks, index, (count - 1) as nat);
        assert(tasks.remove(index)[count - 2] == tasks[count - 1]);
    }
}

/// Replacing a shown node changes the number of shown nodes by the
/// difference of the two nodes' rows.
pub proof fn lemma_count_replace_visible(tasks: Seq<TaskView>, path: Seq<usize>, node: TaskView)
    requires
        visible(tasks, path),
    ensures
        resolve(tasks, path) is Some,
        visible_count(replace_at(tasks, path, node), tasks.len()) == visible_count(
            tasks,
            tasks.len(),
        ) - weight(resolve(tasks, path).unwrap()) + weight(node),
    decreases path.len(),
{
    let index = path[0] as int;
    let head = tasks[index];
    if path.len() == 1 {
        lemma_count_update(tasks, index, node, tasks.len());
    } else {
        lemma_count_replace_visible(head.subtasks, path.skip(1), node);
        lemma_replace_len(head.subtasks, path.skip(1), node);
        let changed = TaskView { subtasks: replace_at(head.subtasks, path.skip(1), node), ..head };
        lemma_count_update(tasks, index, changed, tasks.len());
    }
}

/// Replacing any node by one that takes as many rows keeps the number of
/// shown nodes.
pub proof fn lemma_count_replace_same_weight(
    tasks: Seq<TaskView>,
    path: Seq<usize>,
    node: TaskView,
)
    requires
        resolve(tasks, path) is Some,
        weight(node) == weight(resolve(tasks, path).unwrap()),
    ensures
        visible_count(replace_at(tasks, path, node), tasks.len()) == visible_count(
            tasks,
            tasks.len(),
        ),
    decreases path.len(),
{
    let index = path[0] as int;
    let head = tasks[index];
    if path.len() == 1 {
        lemma_count_update(tasks, index, node, tasks.len());
    } else {
        lemma_count_replace_same_weight(head.subtasks, path.skip(1), node);
        lemma_replace_len(head.subtasks, path.skip(1), node);
        let changed = TaskView { subtasks: replace_at(head.subtasks, path.skip(1), node), ..head };
        lemma_count_update(tasks, index, changed, tasks.len());
    }
}

/// Whether `row` stands for a node of `tasks` below the node at `parent`,
/// one of its first `count` children or a node under one of them: its path
/// goes on from `parent` to a shown node, and its label is that node's name
/// behind the indent of the node's depth, where the children stand at
/// `depth`.
pub open spec fn row_shows(
    tasks: Seq<TaskView>,
    parent: Seq<usize>,
    depth: nat,
    count: nat,
    row: (Seq<char>, Seq<usize>),
) -> bool {
    let rest = row.1.skip(parent.len() as int);
    &&& row.1.len() > parent.len()
    &&& row.1.take(parent.len() as int) == parent
    &&& rest[0] < count
    &&& visible(tasks, rest)
    &&& resolve(tasks, rest) is Some
    &&& row.0 == label(resolve(tasks, rest).unwrap().name, (depth + rest.len() - 1) as nat)
}

/// There are as many rows as shown nodes, whatever stands above them.
pub proof fn lemma_rows_len(tasks: Seq<TaskView>, parent: Seq<usize>, depth: nat, count: nat)
    ensures
        forest_rows(tasks, parent, depth, count).len() == visible_count(tasks, count),
    decreases tasks, count,
{
    if count == 0 || count > tasks.len() {
    } else {
        let task = tasks[count - 1];
        let path = parent.push(#[verifier::truncate] ((count - 1) as usize));
        lemma_rows_len(tasks, parent, depth, (count - 1) as nat);
        if task.expanded {
            lemma_rows_len(task.subtasks, path, depth + 1, task.subtasks.len());
        }
        assert(task_rows(task, path, depth).len() == weight(task));
    }
}

/// Every row of one task stands for the task itself or for a shown node
/// under it.
pub proof fn lemma_task_rows(task: TaskView, path: Seq<usize>, depth: nat)
    requires
        fits(task.subtasks),
    ensures
        task_rows(task, path, depth).len() == 1 + (if task.expanded {
            visible_count(task.subtasks, task.subtasks.len())
        } else {
            0
        }),
        task_rows(task, path, depth)[0] == (label(task.name, depth), path),
        forall|k: int|
            1 <= k < task_rows(task, path, depth).len() ==> task.expanded && row_shows(
                task.subtasks,
                path,
                depth + 1,
                task.subtasks.len(),
                #[trigger] task_rows(task, path, depth)[k],
            ),
    decreases task, 0nat,
{
    if task.expanded {
        lemma_forest_rows(task.subtasks, path, depth + 1, task.subtasks.len());
    }
}

/// Every row of a forest stands for a shown node of it, and there are as
/// many rows as shown nodes.
pub proof fn lemma_forest_rows(tasks: Seq<TaskView>, parent: Seq<usize>, depth: nat, count: nat)
    requires
        fits(tasks),
    ensures
        forest_rows(tasks, parent, depth, count).len() == visible_count(tasks, count),
        forall|k: int|
            0 <= k < forest_rows(tasks, parent, depth, count).len() ==> row_shows(
                tasks,
                parent,
                depth,
                count,
                #[trigger] forest_rows(tasks, parent, depth, count)[k],
            ),
    decreases tasks, count,
{
    if count == 0 || count > tasks.len() {
    } else {
        let before = forest_rows(tasks, parent, depth, (count - 1) as nat);
        let index = (count - 1) as usize;
        let task = tasks[count - 1];
        let path = parent.push(index);
        let own = task_rows(task, path, depth);
        lemma_forest_rows(tasks, parent, depth, (count - 1) as nat);
        lemma_task_rows(task, path, depth);
        assert forall|k: int| 0 <= k < (before + own).len() implies row_shows(
            tasks,
            parent,
            depth,
            count,
            #[trigger] (before + own)[k],
        ) by {
            if k < before.len() {
                assert((before + own)[k] == before[k]);
            } else {
                let row = own[k - before.len()];
                assert((before + own)[k] == row);
                if k == before.len() {
                    assert(row.1 == path);
                    assert(path.take(parent.len() as int) =~= parent);
                    assert(path.skip(parent.len() as int) =~= seq![index]);
                } else {
                    assert(row_shows(task.subtasks, path, depth + 1, task.subtasks.len(), row));
                    let below = row.1.skip(path.len() as int);
                    let rest = row.1.skip(parent.len() as int);
                    assert(row.1.take(path.len() as int) == path);
                    assert(row.1.take(parent.len() as int) =~= path.take(parent.len() as int));
                    assert(path.take(parent.len() as int) =~= parent);
                    assert(rest[0] == row.1.take(path.len() as int)[parent.len() as int]);
                    assert(rest.skip(1) =~= below);
                }
            }
        }
    }
}

/// The rows of the first `count` trees depend on those trees alone.
pub proof fn lemma_forest_rows_frame(
    a: Seq<TaskView>,
    b: Seq<TaskView>,
    parent: Seq<usize>,
    depth: nat,
    count: nat,
)
    requires
        count <= a.len(),
        count <= b.len(),
        forall|j: int| 0 <= j < count ==> a[j] == b[j],
    ensures
        forest_rows(a, parent, depth, count) == forest_rows(b, parent, depth, count),
    decreases count,
{
    if count > 0 {
        lemma_forest_rows_frame(a, b, parent, depth, (count - 1) as nat);
    }
}

/// The part of `path` below `parent`.
pub open spec fn below(path: Seq<usize>, parent: Seq<usize>) -> Seq<usize> {
    path.skip(parent.len() as int)
}

/// Replacing the node of row `k` by a node of the same name leaves the rows
/// up to and including row `k` as they are.
pub proof fn lemma_rows_prefix_stable(
    tasks: Seq<TaskView>,
    parent: Seq<usize>,
    depth: nat,
    count: nat,
    k: int,
    node: TaskView,
)
    requires
        fits(tasks),
        0 <= k < forest_rows(tasks, parent, depth, count).len(),
        resolve(tasks, below(forest_rows(tasks, parent, depth, count)[k].1, parent)) is Some,
        node.name == resolve(
            tasks,
            below(forest_rows(tasks, parent, depth, count)[k].1, parent),
        ).unwrap().name,
    ensures
        forest_rows(
            replace_at(tasks, below(forest_rows(tasks, parent, depth, count)[k].1, parent), node),
            parent,
            depth,
            count,
        ).len() > k,
        forest_rows(
            replace_at(tasks, below(forest_rows(tasks, parent, depth, count)[k].1, parent), node),
            parent,
            depth,
            count,
        ).take(k + 1) == forest_rows(tasks, parent, depth, count).take(k + 1),
    decreases tasks, count,
{
    let rows = forest_rows(tasks, parent, depth, count);
    let q = below(rows[k].1, parent);
    let tasks2 = replace_at(tasks, q, node);
    let rows2 = forest_rows(tasks2, parent, depth, count);
    let before = forest_rows(tasks, parent, depth, (count - 1) as nat);
    let index = (count - 1) as usize;
    let task = tasks[count - 1];
    let path = parent.push(index);
    let own = task_rows(task, path, depth);
    let before2 = forest_rows(tasks2, parent, depth, (count - 1) as nat);
    let own2 = task_rows(tasks2[count - 1], path, depth);
    assert(rows == before + own);
    assert(q.len() > 0 && q[0] < tasks.len());
    lemma_replace_len(tasks, q, node);
    assert(rows2 == before2 + own2);
    lemma_forest_rows(tasks, parent, depth, (count - 1) as nat);
    lemma_task_rows(task, path, depth);
    if k < before.len() {
        assert(rows[k] == before[k]);
        assert(row_shows(tasks, parent, depth, (count - 1) as nat, before[k]));
        lemma_rows_prefix_stable(tasks, parent, depth, (count - 1) as nat, k, node);
        assert(rows2.take(k + 1) =~= before2.take(k + 1));
        assert(rows.take(k + 1) =~= before.take(k + 1));
    } else {
        let j = k - before.len();
        let row = own[j];
        assert(rows[k] == row);
        assert(path.take(parent.len() as int) =~= parent);
        if j == 0 {
            assert(row.1 == path);
            assert(q =~= seq![index]);
        } else {
            assert(row_shows(task.subtasks, path, depth + 1, task.subtasks.len(), row));
            assert(row.1.take(path.len() as int) == path);
            assert(q[0] == row.1.take(path.len() as int)[parent.len() as int]);
        }
        assert(q[0] == index);
        assert forall|i: int| 0 <= i < count - 1 implies tasks[i] == tasks2[i] by {}
        lemma_forest_rows_frame(tasks, tasks2, parent, depth, (count - 1) as nat);
        assert(before2 == before);
        if j == 0 {
            assert(tasks2[count - 1] == node);
            assert(own2[0] == own[0]);
            assert(rows2.take(k + 1) =~= rows.take(k + 1));
        } else {
            let inner = below(row.1, path);
            assert(q.skip(1) =~= inner);
            let subs = task.subtasks;
            let subs2 = replace_at(subs, inner, node);
            assert(tasks2[count - 1] == (TaskView { subtasks: subs2, ..task }));
            let sub_rows = forest_rows(subs, path, depth + 1, subs.len());
            assert(own == seq![own[0]] + sub_rows);
            assert(row == sub_rows[j - 1]);
            lemma_replace_len(subs, inner, node);
            lemma_rows_prefix_stable(subs, path, depth + 1, subs.len(), j - 1, node);
            let sub_rows2 = forest_rows(subs2, path, depth + 1, subs.len());
            assert(own2 == seq![own[0]] + sub_rows2);
            assert forall|i: int| 0 <= i <= k implies rows2[i] == rows[i] by {
                if i > before.len() {
                    let m = i - before.len() - 1;
                    assert(sub_rows2[m] == sub_rows2.take(j)[m]);
                    assert(sub_rows[m] == sub_rows.take(j)[m]);
                }
            }
            assert(rows2.take(k + 1) =~= rows.take(k + 1));
        }
    }
}

/// Whether no two rows have the same path.
pub open spec fn paths_distinct(rows: Seq<(Seq<char>, Seq<usize>)>) -> bool {
    forall|i: int, j: int| 0 <= i < j < rows.len() ==> rows[i].1 != rows[j].1
}

/// No two rows of a forest have the same path.
pub proof fn lemma_forest_rows_distinct(
    tasks: Seq<TaskView>,
    parent: Seq<usize>,
    depth: nat,
    count: nat,
)
    requires
        fits(tasks),
    ensures
        paths_distinct(forest_rows(tasks, parent, depth, count)),
    decreases tasks, count,
{
    if count == 0 || count > tasks.len() {
    } else {
        let rows = forest_rows(tasks, parent, depth, count);
        let before = forest_rows(tasks, parent, depth, (count - 1) as nat);
        let index = (count - 1) as usize;
        let task = tasks[count - 1];
        let path = parent.push(index);
        let own = task_rows(task, path, depth);
        let sub_rows = forest_rows(task.subtasks, path, depth + 1, task.subtasks.len());
        lemma_forest_rows_distinct(tasks, parent, depth, (count - 1) as nat);
        lemma_forest_rows(tasks, parent, depth, (count - 1) as nat);
        lemma_task_rows(task, path, depth);
        if task.expanded {
            lemma_forest_rows_distinct(task.subtasks, path, depth + 1, task.subtasks.len());
        }
        assert forall|i: int, j: int| 0 <= i < j < rows.len() implies rows[i].1 != rows[j].1 by {
            if j < before.len() {
                assert(rows[i] == before[i] && rows[j] == before[j]);
            } else {
                let b = j - before.len();
                assert(rows[j] == own[b]);
                assert(own[b].1.len() > parent.len() && own[b].1[parent.len() as int] == index) by {
                    if b > 0 {
                        assert(row_shows(
                            task.subtasks,
                            path,
                            depth + 1,
                            task.subtasks.len(),
                            own[b],
                        ));
                        assert(own[b].1[parent.len() as int] == own[b].1.take(
                            path.len() as int,
                        )[parent.len() as int]);
                    }
                }
                if i < before.len() {
                    assert(rows[i] == before[i]);
                    assert(row_shows(tasks, parent, depth, (count - 1) as nat, before[i]));
                    assert(before[i].1[parent.len() as int] == below(before[i].1, parent)[0]);
                } else {
                    let a = i - before.len();
                    assert(rows[i] == own[a]);
                    if a == 0 {
                        assert(row_shows(
                            task.subtasks,
                            path,
                            depth + 1,
                            task.subtasks.len(),
                            own[b],
                        ));
                    } else {
                        assert(own[a] == sub_rows[a - 1]);
                        assert(own[b] == sub_rows[b - 1]);
                    }
                }
            }
        }
    }
}

/// Whether the node at `a` comes before the node at `b` in depth-first
/// pre-order: `a` is `b` cut short, or where the two first differ `a` has the
/// smaller index.
pub open spec fn comes_before(a: Seq<usize>, b: Seq<usize>) -> bool
    decreases a.len(),
{
    if a.len() == 0 {
        b.len() > 0
    } else if b.len() == 0 {
        false
    } else if a[0] != b[0] {
        a[0] < b[0]
    } else {
        comes_before(a.skip(1), b.skip(1))
    }
}

/// The rows of a forest stand in depth-first pre-order.
pub proof fn lemma_forest_rows_ordered(
    tasks: Seq<TaskView>,
    parent: Seq<usize>,
    depth: nat,
    count: nat,
)
    requires
        fits(tasks),
    ensures
        forall|i: int, j: int|
            0 <= i < j < forest_rows(tasks, parent, depth, count).len() ==> comes_before(
                below(forest_rows(tasks, parent, depth, count)[i].1, parent),
                below(forest_rows(tasks, parent, depth, count)[j].1, parent),
            ),
    decreases tasks, count,
{
    if count == 0 || count > tasks.len() {
    } else {
        let rows = forest_rows(tasks, parent, depth, count);
        let before = forest_rows(tasks, parent, depth, (count - 1) as nat);
        let index = (count - 1) as usize;
        let task = tasks[count - 1];
        let path = parent.push(index);
        let own = task_rows(task, path, depth);
        let sub_rows = forest_rows(task.subtasks, path, depth + 1, task.subtasks.len());
        lemma_forest_rows_ordered(tasks, parent, depth, (count - 1) as nat);
        lemma_forest_rows(tasks, parent, depth, (count - 1) as nat);
        lemma_task_rows(task, path, depth);
        if task.expanded {
            lemma_forest_rows_ordered(task.subtasks, path, depth + 1, task.subtasks.len());
        }
        assert(path.take(parent.len() as int) =~= parent);
        assert forall|i: int, j: int| 0 <= i < j < rows.len() implies comes_before(
            below(rows[i].1, parent),
            below(rows[j].1, parent),
        ) by {
            if j < before.len() {
                assert(rows[i] == before[i] && rows[j] == before[j]);
            } else {
                let b = j - before.len();
                let second = below(own[b].1, parent);
                assert(rows[j] == own[b]);
                if b > 0 {
                    assert(row_shows(task.subtasks, path, depth + 1, task.subtasks.len(), own[b]));
                    assert(second[0] == own[b].1.take(path.len() as int)[parent.len() as int]);
                    assert(second.skip(1) =~= below(own[b].1, path));
                } else {
                    assert(second =~= seq![index]);
                }
                assert(second.len() > 0 && second[0] == index);
                if i < before.len() {
                    assert(rows[i] == before[i]);
                    assert(row_shows(tasks, parent, depth, (count - 1) as nat, before[i]));
                } else {
                    let a = i - before.len();
                    let first = below(own[a].1, parent);
                    assert(rows[i] == own[a]);
                    if a == 0 {
                        assert(first =~= seq![index]);
                        assert(first.skip(1).len() == 0);
                        assert(second.skip(1).len() > 0);
                    } else {
                        assert(row_shows(
                            task.subtasks,
                            path,
                            depth + 1,
                            task.subtasks.len(),
                            own[a],
                        ));
                        assert(first[0] == own[a].1.take(path.len() as int)[parent.len() as int]);
                        assert(first.skip(1) =~= below(own[a].1, path));
                        assert(own[a] == sub_rows[a - 1]);
                        assert(own[b] == sub_rows[b - 1]);
                    }
                    assert(comes_before(first.skip(1), second.skip(1)));
                    assert(first.len() > 0 && first[0] == second[0]);
                }
            }
        }
    }
}

/// Every shown node of a forest has its row: the result is the index of the
/// row whose path goes on from `parent` with `path`.
pub proof fn lemma_forest_rows_complete(
    tasks: Seq<TaskView>,
    parent: Seq<usize>,
    depth: nat,
    count: nat,
    path: Seq<usize>,
) -> (k: int)
    requires
        fits(tasks),
        visible(tasks, path),
        path[0] < count <= tasks.len(),
    ensures
        0 <= k < forest_rows(tasks, parent, depth, count).len(),
        forest_rows(tasks, parent, depth, count)[k].1 == parent + path,
    decreases tasks, count,
{
    let before = forest_rows(tasks, parent, depth, (count - 1) as nat);
    let index = (count - 1) as usize;
    let task = tasks[count - 1];
    let here = parent.push(index);
    let own = task_rows(task, here, depth);
    if path[0] < index {
        lemma_forest_rows_complete(tasks, parent, depth, (count - 1) as nat, path)
    } else if path.len() == 1 {
        assert(parent + path =~= here);
        before.len() as int
    } else {
        let rest = path.skip(1);
        assert(visible(task.subtasks, rest));
        assert(rest.len() > 0 && rest[0] < task.subtasks.len());
        let inner = lemma_forest_rows_complete(
            task.subtasks,
            here,
            depth + 1,
            task.subtasks.len(),
            rest,
        );
        assert(here + rest =~= parent + path);
        before.len() + 1 + inner
    }
}

/// The rows of the projection stand for the shown nodes of the tree, in
/// depth-first pre-order, each for another one, and every shown node has its
/// row.
pub proof fn lemma_rows_are_shown_nodes(tasks: Seq<TaskView>)
    requires
        fits(tasks),
    ensures
        paths_distinct(project(tasks)),
        forall|i: int, j: int|
            0 <= i < j < project(tasks).len() ==> comes_before(
                project(tasks)[i].1,
                project(tasks)[j].1,
            ),
        forall|k: int|
            0 <= k < project(tasks).len() ==> visible(tasks, (#[trigger] project(tasks)[k]).1),
        forall|path: Seq<usize>|
            visible(tasks, path) ==> exists|k: int|
                0 <= k < project(tasks).len() && (#[trigger] project(tasks)[k]).1 == path,
{
    lemma_forest_rows_distinct(tasks, Seq::empty(), 0, tasks.len());
    lemma_forest_rows_ordered(tasks, Seq::empty(), 0, tasks.len());
    assert forall|i: int, j: int| 0 <= i < j < project(tasks).len() implies comes_before(
        project(tasks)[i].1,
        project(tasks)[j].1,
    ) by {
        assert(below(project(tasks)[i].1, Seq::empty()) =~= project(tasks)[i].1);
        assert(below(project(tasks)[j].1, Seq::empty()) =~= project(tasks)[j].1);
    }
    assert forall|k: int| 0 <= k < project(tasks).len() implies visible(
        tasks,
        (#[trigger] project(tasks)[k]).1,
    ) by {
        lemma_row_resolves(tasks, k);
    }
    assert forall|path: Seq<usize>| visible(tasks, path) implies exists|k: int|
        0 <= k < project(tasks).len() && (#[trigger] project(tasks)[k]).1 == path by {
        let k = lemma_forest_rows_complete(tasks, Seq::empty(), 0, tasks.len(), path);
        assert(Seq::<usize>::empty() + path =~= path);
        assert(project(tasks)[k].1 == path);
    }
}

/// A shown node is a node.
pub proof fn lemma_visible_resolves(tasks: Seq<TaskView>, path: Seq<usize>)
    requires
        visible(tasks, path),
    ensures
        resolve(tasks, path) is Some,
    decreases path.len(),
{
    if path.len() > 1 {
        lemma_visible_resolves(tasks[path[0] as int].subtasks, path.skip(1));
    }
}

/// The node above a shown node is shown, and expanded.
pub proof fn lemma_visible_parent(tasks: Seq<TaskView>, path: Seq<usize>)
    requires
        path.len() > 1,
        visible(tasks, path),
    ensures
        visible(tasks, path.drop_last()),
        resolve(tasks, path.drop_last()) is Some,
        resolve(tasks, path.drop_last()).unwrap().expanded,
    decreases path.len(),
{
    let above = path.drop_last();
    assert(above[0] == path[0]);
    if path.len() > 2 {
        assert(above.skip(1) =~= path.skip(1).drop_last());
        lemma_visible_parent(tasks[path[0] as int].subtasks, path.skip(1));
    }
}

/// Under a shown node that is replaced by an expanded one, every child is
/// shown.
pub proof fn lemma_child_is_shown(
    tasks: Seq<TaskView>,
    path: Seq<usize>,
    node: TaskView,
    index: usize,
)
    requires
        visible(tasks, path),
        node.expanded,
        index < node.subtasks.len(),
    ensures
        visible(replace_at(tasks, path, node), path.push(index)),
        resolve(replace_at(tasks, path, node), path.push(index)) == Some(
            node.subtasks[index as int],
        ),
    decreases path.len(),
{
    let longer = path.push(index);
    let after = replace_at(tasks, path, node);
    assert(longer[0] == path[0]);
    if path.len() == 1 {
        let rest = longer.skip(1);
        assert(rest =~= seq![index]);
        assert(rest.len() == 1 && rest[0] == index);
        assert(visible(node.subtasks, rest));
        assert(resolve(node.subtasks, rest) == Some(node.subtasks[index as int]));
    } else {
        assert(longer.skip(1) =~= path.skip(1).push(index));
        lemma_child_is_shown(tasks[path[0] as int].subtasks, path.skip(1), node, index);
    }
}

/// The children of every node of a tree that fits are few enough for their
/// indices.
pub proof fn lemma_node_fits(tasks: Seq<TaskView>, path: Seq<usize>)
    requires
        fits(tasks),
        resolve(tasks, path) is Some,
    ensures
        fits(resolve(tasks, path).unwrap().subtasks),
    decreases path.len(),
{
    if path.len() > 1 {
        lemma_node_fits(tasks[path[0] as int].subtasks, path.skip(1));
    }
}

/// The paths of the nodes of `tasks` that the projection shows.
pub open spec fn visible_paths(tasks: Seq<TaskView>) -> Set<Seq<usize>> {
    Set::new(|path: Seq<usize>| visible(tasks, path))
}

/// The paths of a list of rows, in order.
pub open spec fn row_paths(rows: Seq<(Seq<char>, Seq<usize>)>) -> Seq<Seq<usize>> {
    rows.map_values(|row: (Seq<char>, Seq<usize>)| row.1)
}

/// The projection has as many rows as the tree has nodes with no collapsed
/// node above them, and its paths are the paths of those nodes.
pub proof fn lemma_row_count_is_shown_nodes(tasks: Seq<TaskView>)
    requires
        fits(tasks),
    ensures
        row_paths(project(tasks)).to_set() == visible_paths(tasks),
        visible_paths(tasks).finite(),
        project(tasks).len() == visible_paths(tasks).len(),
{
    let rows = project(tasks);
    let paths = row_paths(rows);
    lemma_rows_are_shown_nodes(tasks);
    assert forall|path: Seq<usize>| paths.to_set().contains(path) <==> visible_paths(
        tasks,
    ).contains(path) by {
        if paths.contains(path) {
            let k = choose|k: int| 0 <= k < paths.len() && paths[k] == path;
            assert(rows[k].1 == path);
        }
        if visible(tasks, path) {
            let k = choose|k: int| 0 <= k < rows.len() && (#[trigger] rows[k]).1 == path;
            assert(paths[k] == path);
        }
    }
    assert(paths.to_set() =~= visible_paths(tasks));
    assert(paths.no_duplicates()) by {
        assert forall|i: int, j: int|
            0 <= i < paths.len() && 0 <= j < paths.len() && i != j implies paths[i]
            != paths[j] by {
            if i < j {
                assert(rows[i].1 != rows[j].1);
            } else {
                assert(rows[j].1 != rows[i].1);
            }
        }
    }
    paths.unique_seq_to_set();
    vstd::seq_lib::seq_to_set_is_finite(paths);
}

/// Every row of the projection names a shown node of the tree, and its label
/// is that node's name behind two spaces for each level below the roots.
pub proof fn lemma_row_resolves(tasks: Seq<TaskView>, k: int)
    requires
        fits(tasks),
        0 <= k < project(tasks).len(),
    ensures
        visible(tasks, project(tasks)[k].1),
        resolve(tasks, project(tasks)[k].1) is Some,
        project(tasks)[k].0 == label(
            resolve(tasks, project(tasks)[k].1).unwrap().name,
            (project(tasks)[k].1.len() - 1) as nat,
        ),
{
    lemma_forest_rows(tasks, Seq::empty(), 0, tasks.len());
    let row = project(tasks)[k];
    assert(row_shows(tasks, Seq::empty(), 0, tasks.len(), row));
    assert(row.1.skip(0) =~= row.1);
}

/// The projection has one row for each shown node.
pub proof fn lemma_row_count(tasks: Seq<TaskView>)
    ensures
        project(tasks).len() == visible_count(tasks, tasks.len()),
{
    lemma_rows_len(tasks, Seq::empty(), 0, tasks.len());
}

} // verus!
