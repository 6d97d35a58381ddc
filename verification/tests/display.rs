use task_tree::app::task::Task;
use task_tree::app::task_utils::get_task;
use task_tree::app::App;
use task_tree::config::Config;

fn named(name: &str) -> Task {
    Task::new(String::from(name))
}

fn app_with(tasks: Vec<Task>) -> App {
    let mut app = App::new(Config::default());
    app.tasks = tasks;
    app
}

fn sample() -> Vec<Task> {
    // a -> [b -> [d], c], e
    let mut a = named("a");
    let mut b = named("b");
    b.subtasks.push(named("d"));
    a.subtasks.push(b);
    a.subtasks.push(named("c"));
    vec![a, named("e")]
}

fn row(label: &str, path: &[usize]) -> (String, Vec<usize>) {
    (String::from(label), path.to_vec())
}

#[test]
fn empty_tree_has_no_rows() {
    let app = app_with(Vec::new());
    assert!(app.get_tasks_to_display().is_empty());
}

#[test]
fn collapsed_roots_show_only_themselves() {
    let app = app_with(sample());
    assert_eq!(app.get_tasks_to_display(), vec![row("a", &[0]), row("e", &[1])]);
}

#[test]
fn expanded_node_shows_children_indented_by_two_spaces() {
    let mut tasks = sample();
    tasks[0].expanded = true;
    let app = app_with(tasks);
    assert_eq!(
        app.get_tasks_to_display(),
        vec![row("a", &[0]), row("  b", &[0, 0]), row("  c", &[0, 1]), row("e", &[1])]
    );
}

#[test]
fn rows_are_in_depth_first_pre_order() {
    let mut tasks = sample();
    tasks[0].expanded = true;
    tasks[0].subtasks[0].expanded = true;
    let app = app_with(tasks);
    assert_eq!(
        app.get_tasks_to_display(),
        vec![
            row("a", &[0]),
            row("  b", &[0, 0]),
            row("    d", &[0, 0, 0]),
            row("  c", &[0, 1]),
            row("e", &[1]),
        ]
    );
}

#[test]
fn expanded_node_under_collapsed_parent_is_hidden() {
    let mut tasks = sample();
    tasks[0].subtasks[0].expanded = true;
    let app = app_with(tasks);
    assert_eq!(app.get_tasks_to_display(), vec![row("a", &[0]), row("e", &[1])]);
}

#[test]
fn expanded_leaf_adds_no_rows() {
    let mut tasks = sample();
    tasks[1].expanded = true;
    let app = app_with(tasks);
    assert_eq!(app.get_tasks_to_display().len(), 2);
}

#[test]
fn projection_is_recomputed_from_the_tree() {
    let mut app = app_with(sample());
    assert_eq!(app.get_tasks_to_display().len(), 2);
    app.tasks[0].expanded = true;
    assert_eq!(app.get_tasks_to_display().len(), 4);
    app.tasks[0].expanded = false;
    assert_eq!(app.get_tasks_to_display().len(), 2);
}

fn count_visible(tasks: &[Task]) -> usize {
    let mut count = 0;
    for task in tasks {
        count += 1;
        if task.expanded {
            count += count_visible(&task.subtasks);
        }
    }
    count
}

fn pattern_tree(depth: usize, breadth: usize, seed: usize) -> Vec<Task> {
    let mut tasks = Vec::new();
    if depth == 0 {
        return tasks;
    }
    for i in 0..breadth {
        let mut task = Task::new(format!("t{}-{}", depth, i));
        task.subtasks = pattern_tree(depth - 1, breadth, seed / 2 + i);
        task.expanded = (seed + i) % 3 != 0;
        tasks.push(task);
    }
    tasks
}

#[test]
fn row_count_equals_number_of_visible_nodes() {
    for depth in 0..5 {
        for breadth in 0..4 {
            for seed in 0..6 {
                let tasks = pattern_tree(depth, breadth, seed);
                let expected = count_visible(&tasks);
                let app = app_with(tasks);
                assert_eq!(app.get_tasks_to_display().len(), expected);
            }
        }
    }
}

#[test]
fn every_row_path_resolves_to_the_node_of_its_label() {
    for seed in 0..6 {
        let app = app_with(pattern_tree(4, 3, seed));
        let rows = app.get_tasks_to_display();
        assert!(!rows.is_empty());
        for (label, path) in &rows {
            let node = get_task(&app.tasks, path).unwrap();
            let indent = " ".repeat(2 * (path.len() - 1));
            assert_eq!(*label, format!("{}{}", indent, node.name));
        }
    }
}

#[test]
fn row_paths_are_distinct() {
    let app = app_with(pattern_tree(4, 3, 1));
    let rows = app.get_tasks_to_display();
    for i in 0..rows.len() {
        for j in 0..i {
            assert_ne!(rows[i].1, rows[j].1);
        }
    }
}

#[test]
fn rows_stand_in_pre_order_of_their_paths() {
    let app = app_with(pattern_tree(4, 3, 2));
    let rows = app.get_tasks_to_display();
    for pair in rows.windows(2) {
        let (a, b) = (&pair[0].1, &pair[1].1);
        assert!(a < b);
    }
}
