use rustmux::control::{ControlCommand, PaneTarget, Target};
use rustmux::dispatch::{control_step, pane_index, pane_listing_text, ControlPlan, PaneListing, PaneSummary};

fn pane(id: usize, floating: bool, width: u16, height: u16) -> PaneSummary {
    PaneSummary { id, tab_id: 1, floating, width, height }
}

fn target(pane: Option<usize>) -> PaneTarget {
    PaneTarget { target: Target { session: "main".to_owned() }, pane }
}

#[test]
fn requests_target_the_named_pane_or_the_active_one() {
    let panes = [pane(4, false, 80, 24), pane(7, false, 80, 24), pane(4, false, 10, 3)];
    assert_eq!(pane_index(&panes, 1, Some(4)), Ok(0));
    assert_eq!(pane_index(&panes, 1, Some(7)), Ok(1));
    assert_eq!(pane_index(&panes, 2, None), Ok(2));
    assert_eq!(pane_index(&panes, 0, Some(12)), Err("pane 12 does not exist".to_owned()));
    assert_eq!(pane_index(&[], 0, None), Err("session has no panes".to_owned()));
}

#[test]
fn splits_are_refused_for_floating_or_cramped_panes() {
    let panes = [pane(1, false, 12, 6), pane(2, true, 80, 24), pane(3, false, 11, 5)];
    let split = |id, down| control_step(&panes, 0, &ControlCommand::SplitPane { target: target(Some(id)), down });
    assert!(matches!(split(1, false), Ok(ControlPlan::Split { index: 0, down: false })));
    assert!(matches!(split(1, true), Ok(ControlPlan::Split { index: 0, down: true })));
    assert_eq!(split(2, true).err(), Some("cannot split a floating pane".to_owned()));
    assert_eq!(split(3, false).err(), Some("not enough space to split this pane".to_owned()));
    assert_eq!(split(3, true).err(), Some("not enough space to split this pane".to_owned()));
    assert_eq!(split(9, true).err(), Some("pane 9 does not exist".to_owned()));
}

#[test]
fn send_keys_plans_the_bytes_and_notes_a_submitted_command() {
    let panes = [pane(1, false, 80, 24), pane(5, false, 80, 24)];
    let send = ControlCommand::SendKeys {
        target: target(Some(5)),
        literal: true,
        enter: true,
        keys: vec!["echo".to_owned(), "hi".to_owned()],
    };
    match control_step(&panes, 0, &send) {
        Ok(ControlPlan::SendKeys { index, bytes, submitted }) => {
            assert_eq!(index, 1);
            assert_eq!(bytes, b"echo hi\r");
            assert!(submitted);
        }
        _ => panic!("send-keys was not planned"),
    }
    let typed = ControlCommand::SendKeys { target: target(None), literal: true, enter: false, keys: vec!["ls".to_owned()] };
    assert!(matches!(control_step(&panes, 0, &typed), Ok(ControlPlan::SendKeys { index: 0, submitted: false, .. })));
    let long = ControlCommand::SendKeys { target: target(None), literal: true, enter: false, keys: vec!["x".repeat(5000)] };
    assert_eq!(control_step(&panes, 0, &long).err(), Some("send-keys input exceeds 4096 bytes".to_owned()));
    let join = ControlCommand::JoinPane { target: target(None), to_pane: 5, down: true };
    assert!(matches!(control_step(&panes, 0, &join), Ok(ControlPlan::Join { index: 0, destination: 1, down: true })));
    let missing = ControlCommand::JoinPane { target: target(None), to_pane: 8, down: true };
    assert_eq!(control_step(&panes, 0, &missing).err(), Some("pane 8 does not exist".to_owned()));
    let save = ControlCommand::SaveSession { target: Target { session: "main".to_owned() } };
    assert!(matches!(control_step(&[], 0, &save), Ok(ControlPlan::Save)));
}

#[test]
fn pane_listings_keep_one_line_of_four_columns_per_pane() {
    let panes = [
        PaneListing { id: 3, window: 1, title: "vim\tmain.rs".to_owned(), cwd: "/home/me".to_owned() },
        PaneListing { id: 12, window: 0, title: "a\nb\rc".to_owned(), cwd: String::new() },
    ];
    assert_eq!(pane_listing_text(&panes), "3\t1\tvim main.rs\t/home/me\n12\t0\ta b c\t\n");
    assert_eq!(pane_listing_text(&[]), "");
}
