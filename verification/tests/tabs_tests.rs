use rustmux::tabs::PaneLookupError;
use rustmux::layout::{PaneNode, PaneRect, SplitAxis};
use rustmux::tabs::{PaneEntry, RelocateError, Tab, Workspace};

fn leaf(id: usize) -> PaneNode {
    PaneNode::Leaf(id)
}

fn split(axis: SplitAxis, first: PaneNode, second: PaneNode) -> PaneNode {
    PaneNode::Split { axis, ratio: 500, first: Box::new(first), second: Box::new(second) }
}

fn pane(id: usize, tab_id: usize, name: &str, width: u16, height: u16) -> PaneEntry {
    PaneEntry {
        id,
        tab_id,
        floating: false,
        temporary: false,
        rect: PaneRect { column: 0, row: 0, width, height },
        name: name.to_owned(),
        zoomed: false,
        return_to_window: None,
    }
}

fn workspace() -> Workspace {
    Workspace {
        tabs: vec![
            Tab { id: 10, root: split(SplitAxis::Vertical, leaf(1), leaf(2)) },
            Tab { id: 20, root: leaf(3) },
        ],
        panes: vec![pane(1, 10, "editor", 40, 20), pane(2, 10, "shell", 40, 20), pane(3, 20, "logs", 80, 20)],
        next_id: 30,
    }
}

#[test]
fn a_pane_joins_another_window_beside_its_destination() {
    let mut w = workspace();
    w.panes[0].zoomed = true;
    w.relocate_pane(1, Some(2), false, None).unwrap();
    assert_eq!(w.tabs.len(), 2);
    assert_eq!(w.tabs[0].root, leaf(1));
    assert_eq!(w.tabs[1].root, split(SplitAxis::Vertical, leaf(3), leaf(2)));
    assert_eq!(w.panes[1].tab_id, 20);
    assert_eq!(w.panes[1].name, "logs");
    assert!(!w.panes[0].zoomed);
    assert_eq!(w.next_id, 30);
}

#[test]
fn a_pane_breaks_out_into_a_new_window() {
    let mut w = workspace();
    w.panes.push(PaneEntry { floating: true, return_to_window: Some(2), ..pane(4, 10, "float", 10, 5) });
    w.relocate_pane(1, None, false, Some("broken".to_owned())).unwrap();
    assert_eq!(w.tabs.len(), 3);
    assert_eq!(w.tabs[2].id, 30);
    assert_eq!(w.tabs[2].root, leaf(2));
    assert_eq!(w.next_id, 31);
    assert_eq!(w.panes[1].tab_id, 30);
    assert_eq!(w.panes[1].name, "broken");
    assert_eq!(w.panes[3].tab_id, 30);
}

#[test]
fn the_last_pane_of_a_window_takes_the_window_with_it() {
    let mut w = workspace();
    w.relocate_pane(2, Some(0), true, None).unwrap();
    assert_eq!(w.tabs.len(), 1);
    assert_eq!(w.tabs[0].root, split(SplitAxis::Vertical, split(SplitAxis::Horizontal, leaf(1), leaf(3)), leaf(2)));
    assert_eq!(w.panes[2].tab_id, 10);
    assert_eq!(w.panes[2].name, "editor");
}

#[test]
fn refused_moves_change_nothing() {
    let mut w = workspace();
    w.panes[1].floating = true;
    assert_eq!(w.relocate_pane(1, Some(2), false, None), Err(RelocateError::NotTiled));
    let mut w = workspace();
    assert_eq!(w.relocate_pane(1, Some(1), false, None), Err(RelocateError::NotDifferentTiled));
    w.panes[2].rect.width = 11;
    assert_eq!(w.relocate_pane(1, Some(2), false, None), Err(RelocateError::NoSpace));
    w.panes[2].rect.height = 5;
    assert_eq!(w.relocate_pane(1, Some(2), true, None), Err(RelocateError::NoSpace));
    let mut alone = Workspace { tabs: vec![Tab { id: 1, root: leaf(7) }], panes: vec![pane(7, 1, "a", 80, 24), pane(8, 1, "b", 80, 24)], next_id: 2 };
    assert_eq!(alone.relocate_pane(0, Some(1), false, None), Err(RelocateError::NoRemaining));
    let mut missing = workspace();
    missing.panes[2].tab_id = 99;
    assert_eq!(missing.relocate_pane(1, Some(2), false, None), Err(RelocateError::DestinationMissing));
    let mut lost = workspace();
    lost.tabs[1].root = leaf(5);
    assert_eq!(lost.relocate_pane(1, Some(2), false, None), Err(RelocateError::NotInLayout));
    assert_eq!(lost.tabs[1].root, leaf(5));
    assert_eq!(RelocateError::NoSpace.message(), "not enough space in the destination pane");
}

#[test]
fn control_requests_find_panes_by_id_or_the_active_one() {
    let w = workspace();
    assert_eq!(w.pane_index(1, Some(3)), Ok(2));
    assert_eq!(w.pane_index(1, None), Ok(1));
    assert_eq!(w.pane_index(1, Some(9)), Err(PaneLookupError::Missing(9)));
    let empty = Workspace { tabs: Vec::new(), panes: Vec::new(), next_id: 0 };
    assert_eq!(empty.pane_index(0, None), Err(PaneLookupError::NoPanes));
}
