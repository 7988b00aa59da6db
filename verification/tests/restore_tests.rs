use rustmux::layout::{content_rect_for, window_winsize_for, PaneNode, SplitAxis};
use rustmux::spawn::{add_window, plan_window, SessionWindows};
use rustmux::restore::{restore_plan, FloatingStart};
use rustmux::session::{SessionSnapshot, SnapshotFloating, SnapshotPane, SnapshotTab};

fn tab(id: usize, root: PaneNode, panes: &[usize]) -> SnapshotTab {
    SnapshotTab {
        id,
        name: format!("tab{id}"),
        root,
        panes: panes.iter().map(|&id| SnapshotPane { id, cwd: None, command: None }).collect(),
    }
}

fn split(first: usize, second: usize) -> PaneNode {
    PaneNode::Split {
        axis: SplitAxis::Vertical,
        ratio: 500,
        first: Box::new(PaneNode::Leaf(first)),
        second: Box::new(PaneNode::Leaf(second)),
    }
}

#[test]
fn restored_panes_take_consecutive_ids_tab_by_tab() {
    let snapshot = SessionSnapshot::new(
        vec![tab(1, split(10, 11), &[10, 11]), tab(2, PaneNode::Leaf(20), &[20])],
        None,
        20,
    );
    let plan = restore_plan(&snapshot, 100).unwrap();
    assert_eq!(plan.tabs.len(), 2);
    assert_eq!(plan.tabs[0].tab_id, 100);
    assert_eq!(plan.tabs[0].root, split(100, 101));
    assert_eq!(plan.tabs[1].tab_id, 102);
    assert_eq!(plan.tabs[1].root, PaneNode::Leaf(102));
    assert_eq!(plan.active, 2);
    assert_eq!(plan.floating, None);
    assert_eq!(plan.next_id, 103);
}

#[test]
fn the_floating_pane_joins_the_tab_of_the_pane_it_returns_to() {
    let floating = SnapshotFloating { cwd: None, visible: false, return_to: Some(11) };
    let snapshot = SessionSnapshot::new(
        vec![tab(1, split(10, 11), &[10, 11]), tab(2, PaneNode::Leaf(20), &[20])],
        Some(floating),
        20,
    );
    let plan = restore_plan(&snapshot, 1).unwrap();
    assert_eq!(plan.floating, Some(FloatingStart { id: 4, tab_id: 1, return_to: 2 }));
    assert_eq!(plan.active, 2);
    assert_eq!(plan.next_id, 5);

    let shown = SnapshotFloating { cwd: None, visible: true, return_to: Some(99) };
    let snapshot = SessionSnapshot::new(
        vec![tab(1, split(10, 11), &[10, 11]), tab(2, PaneNode::Leaf(20), &[20])],
        Some(shown),
        20,
    );
    let plan = restore_plan(&snapshot, 1).unwrap();
    assert_eq!(plan.floating, Some(FloatingStart { id: 4, tab_id: 3, return_to: 3 }));
    assert_eq!(plan.active, 3);
}

#[test]
fn layouts_naming_unstarted_panes_and_missing_active_panes_are_refused() {
    let later = SessionSnapshot::new(
        vec![tab(1, split(10, 20), &[10]), tab(2, PaneNode::Leaf(20), &[20])],
        None,
        10,
    );
    assert_eq!(
        restore_plan(&later, 1).err(),
        Some("saved pane layout references a missing pane".to_owned())
    );
    let no_active = SessionSnapshot::new(vec![tab(1, PaneNode::Leaf(10), &[10])], None, 11);
    assert_eq!(
        restore_plan(&no_active, 1).err(),
        Some("saved active pane could not be restored".to_owned())
    );
}

#[test]
fn a_new_window_takes_the_next_id_and_the_focus() {
    let mut session = SessionWindows { count: 2, active: 1, next_id: 7 };
    let plan = plan_window(session, (80, 24), (800, 480), false, false);
    assert_eq!(plan.id, 7);
    assert_eq!(plan.unfocus, Some(1));
    assert_eq!(plan.pane_rect, content_rect_for((80, 24), false));
    assert_eq!(plan.winsize, window_winsize_for((80, 24), (800, 480), false, false));
    let floating = plan_window(session, (80, 24), (800, 480), true, false);
    assert_eq!(floating.winsize, window_winsize_for((80, 24), (800, 480), true, false));
    add_window(&mut session, &plan);
    assert_eq!(session, SessionWindows { count: 3, active: 2, next_id: 8 });
    let first = plan_window(SessionWindows { count: 0, active: 0, next_id: 1 }, (80, 24), (0, 0), false, true);
    assert_eq!(first.unfocus, None);
}
