use rustmux::layout::{
    Direction, FloatingLayout, PaneNode, PaneRect, SplitAxis, content_size_for, content_winsize_for,
    floating_layout_for, move_item, pane_ids, pane_rects, pane_resize_handle, rect_in_direction,
    remove_pane, resize_pane, resize_pane_to, split_pane, swap_panes, validate_terminal_size,
    window_winsize_for, SizeError, tiled_content_rect_for, pane_pty_size, directional_distance,
    session_manager_rect,
};

#[test]
fn pane_layout_splits_the_active_leaf_and_collapses_after_removal() {
    let mut root = PaneNode::Leaf(1);
    assert!(split_pane(&mut root, 1, 2, SplitAxis::Vertical));
    assert!(split_pane(&mut root, 2, 3, SplitAxis::Horizontal));
    let rects = pane_rects(
        &root,
        PaneRect {
            column: 0,
            row: 0,
            width: 80,
            height: 20,
        },
    );

    assert_eq!(
        rects,
        vec![
            (
                1,
                PaneRect {
                    column: 0,
                    row: 0,
                    width: 40,
                    height: 20
                }
            ),
            (
                2,
                PaneRect {
                    column: 40,
                    row: 0,
                    width: 40,
                    height: 10
                }
            ),
            (
                3,
                PaneRect {
                    column: 40,
                    row: 10,
                    width: 40,
                    height: 10
                }
            ),
        ]
    );
    let root = remove_pane(root, 2).unwrap();
    assert_eq!(pane_ids(&root), vec![1, 3]);
}

#[test]
fn directional_focus_only_selects_panes_on_the_requested_axis() {
    let left = PaneRect {
        column: 0,
        row: 0,
        width: 40,
        height: 20,
    };
    let upper_right = PaneRect {
        column: 40,
        row: 0,
        width: 40,
        height: 10,
    };
    let lower_right = PaneRect {
        column: 40,
        row: 10,
        width: 40,
        height: 10,
    };

    assert!(rect_in_direction(left, upper_right, Direction::Right));
    assert!(!rect_in_direction(left, lower_right, Direction::Down));
    assert!(!rect_in_direction(left, upper_right, Direction::Up));
    assert!(rect_in_direction(upper_right, lower_right, Direction::Down));
    assert!(rect_in_direction(lower_right, left, Direction::Left));
}

#[test]
fn pane_layout_swaps_contents_without_changing_the_split_tree() {
    let mut root = PaneNode::Split {
        axis: SplitAxis::Vertical,
        ratio: 420,
        first: Box::new(PaneNode::Leaf(1)),
        second: Box::new(PaneNode::Split {
            axis: SplitAxis::Horizontal,
            ratio: 630,
            first: Box::new(PaneNode::Leaf(2)),
            second: Box::new(PaneNode::Leaf(3)),
        }),
    };

    assert!(swap_panes(&mut root, 1, 3));
    assert_eq!(pane_ids(&root), vec![3, 2, 1]);
    assert_eq!(
        root,
        PaneNode::Split {
            axis: SplitAxis::Vertical,
            ratio: 420,
            first: Box::new(PaneNode::Leaf(3)),
            second: Box::new(PaneNode::Split {
                axis: SplitAxis::Horizontal,
                ratio: 630,
                first: Box::new(PaneNode::Leaf(2)),
                second: Box::new(PaneNode::Leaf(1)),
            }),
        }
    );
    assert!(!swap_panes(&mut root, 1, 99));
    assert!(!swap_panes(&mut root, 1, 1));
}

#[test]
fn move_item_swaps_with_an_adjacent_item_without_wrapping() {
    let mut items = vec!["one", "two", "three"];

    assert!(move_item(&mut items, 1, -1));
    assert_eq!(items, vec!["two", "one", "three"]);
    assert!(!move_item(&mut items, 0, -1));
    assert!(!move_item(&mut items, 2, 1));
}

#[test]
fn pane_layout_resizes_the_nearest_boundary() {
    let mut root = PaneNode::Leaf(1);
    assert!(split_pane(&mut root, 1, 2, SplitAxis::Vertical));
    assert!(split_pane(&mut root, 2, 3, SplitAxis::Horizontal));
    assert!(resize_pane(&mut root, 2, Direction::Down));
    assert!(resize_pane(&mut root, 2, Direction::Left));
    let rects = pane_rects(
        &root,
        PaneRect {
            column: 0,
            row: 0,
            width: 100,
            height: 20,
        },
    );
    assert_eq!(rects[0].1.width, 45);
    assert_eq!(
        rects[1].1,
        PaneRect {
            column: 45,
            row: 0,
            width: 55,
            height: 11
        }
    );
    assert_eq!(
        rects[2].1,
        PaneRect {
            column: 45,
            row: 11,
            width: 55,
            height: 9
        }
    );
}

#[test]
fn pane_border_drag_resizes_from_either_shared_border_cell() {
    let rect = PaneRect {
        column: 0,
        row: 0,
        width: 80,
        height: 20,
    };
    for grabbed_column in [39, 40] {
        let mut root = PaneNode::Split {
            axis: SplitAxis::Vertical,
            ratio: 500,
            first: Box::new(PaneNode::Leaf(1)),
            second: Box::new(PaneNode::Leaf(2)),
        };
        let handle = pane_resize_handle(&root, rect, (grabbed_column, 10))
            .expect("both copies of a shared border should be draggable");
        assert!(resize_pane_to(
            &mut root,
            &handle,
            (grabbed_column + 10, 10)
        ));

        let panes = pane_rects(&root, rect);
        assert_eq!(panes[0].1.width, 50);
        assert_eq!(panes[1].1.column, 50);
        assert_eq!(panes[1].1.width, 30);
    }
    let root = PaneNode::Split {
        axis: SplitAxis::Vertical,
        ratio: 500,
        first: Box::new(PaneNode::Leaf(1)),
        second: Box::new(PaneNode::Leaf(2)),
    };
    assert_eq!(pane_resize_handle(&root, rect, (20, 10)), None);

    let mut horizontal = PaneNode::Split {
        axis: SplitAxis::Horizontal,
        ratio: 500,
        first: Box::new(PaneNode::Leaf(1)),
        second: Box::new(PaneNode::Leaf(2)),
    };
    let handle = pane_resize_handle(&horizontal, rect, (20, 10))
        .expect("a horizontal shared border should be draggable");
    assert!(resize_pane_to(&mut horizontal, &handle, (20, 14)));
    let panes = pane_rects(&horizontal, rect);
    assert_eq!(panes[0].1.height, 14);
    assert_eq!(panes[1].1.row, 14);
}

#[test]
fn terminal_size_validation_bounds_frame_allocations() {
    assert!(validate_terminal_size((1, 1)).is_ok());
    assert!(validate_terminal_size((1_000, 1_000)).is_ok());
    assert!(validate_terminal_size((0, 24)).is_err());
    assert!(validate_terminal_size((80, 0)).is_err());
    assert!(validate_terminal_size((1_001, 1_000)).is_err());
    assert!(validate_terminal_size((u16::MAX, u16::MAX)).is_err());
}

#[test]
fn content_winsize_excludes_border_cells_and_preserves_cell_pixels() {
    let value = content_winsize_for((218, 62), (3706, 2046), false);
    assert_eq!(value.ws_col, 216);
    assert_eq!(value.ws_row, 58);
    assert_eq!(value.ws_xpixel, 3672);
    assert_eq!(value.ws_ypixel, 1914);
}

#[test]
fn floating_layout_is_centered_and_has_a_smaller_pty() {
    let layout = floating_layout_for((80, 24), false);
    let winsize = window_winsize_for((80, 24), (800, 480), true, false);

    assert_eq!(
        layout,
        FloatingLayout {
            column: 12,
            row: 6,
            width: 58,
            height: 14,
        }
    );
    assert_eq!((winsize.ws_col, winsize.ws_row), layout.content_size());
    assert_eq!((winsize.ws_xpixel, winsize.ws_ypixel), (560, 240));
}

#[test]
fn oversized_and_empty_terminals_report_the_reason() {
    assert_eq!(validate_terminal_size((0, 24)), Err(SizeError::Empty));
    assert_eq!(validate_terminal_size((1_001, 1_000)), Err(SizeError::TooLarge));
    assert_eq!(validate_terminal_size((1_000, 1_000)), Ok(()));
}

#[test]
fn content_and_tiled_areas_reserve_the_chrome() {
    assert_eq!(content_size_for((80, 24), false), (78, 20));
    assert_eq!(content_size_for((80, 24), true), (78, 22));
    assert_eq!(content_size_for((1, 1), false), (1, 1));
    assert_eq!(
        tiled_content_rect_for((80, 24), false),
        PaneRect { column: 0, row: 0, width: 80, height: 22 }
    );
    assert_eq!(pane_pty_size(PaneRect { column: 3, row: 4, width: 10, height: 6 }, true), (8, 4));
    assert_eq!(pane_pty_size(PaneRect { column: 3, row: 4, width: 0, height: 6 }, false), (1, 6));
}

#[test]
fn removing_the_last_pane_leaves_no_tree() {
    assert_eq!(remove_pane(PaneNode::Leaf(4), 4), None);
    assert_eq!(remove_pane(PaneNode::Leaf(4), 5), Some(PaneNode::Leaf(4)));
}

#[test]
fn splitting_a_missing_pane_changes_nothing() {
    let mut root = PaneNode::Leaf(1);
    assert!(!split_pane(&mut root, 7, 8, SplitAxis::Vertical));
    assert_eq!(root, PaneNode::Leaf(1));
    assert!(split_pane(&mut root, 1, 8, SplitAxis::Horizontal));
    assert_eq!(pane_ids(&root), vec![1, 8]);
}

#[test]
fn narrow_splits_keep_three_cells_on_each_side() {
    let root = PaneNode::Split {
        axis: SplitAxis::Vertical,
        ratio: 100,
        first: Box::new(PaneNode::Leaf(1)),
        second: Box::new(PaneNode::Leaf(2)),
    };
    let rects = pane_rects(&root, PaneRect { column: 0, row: 0, width: 10, height: 4 });
    assert_eq!(rects[0].1.width, 3);
    assert_eq!(rects[1].1, PaneRect { column: 3, row: 0, width: 7, height: 4 });
}

#[test]
fn resizing_stops_at_the_ratio_limits() {
    let mut root = PaneNode::Split {
        axis: SplitAxis::Vertical,
        ratio: 880,
        first: Box::new(PaneNode::Leaf(1)),
        second: Box::new(PaneNode::Leaf(2)),
    };
    assert!(resize_pane(&mut root, 1, Direction::Right));
    assert!(!resize_pane(&mut root, 1, Direction::Right));
    assert!(!resize_pane(&mut root, 1, Direction::Up));
    assert!(!resize_pane(&mut root, 9, Direction::Left));
    let PaneNode::Split { ratio, .. } = root else {
        panic!("split expected");
    };
    assert_eq!(ratio, 900);
}

#[test]
fn directional_distance_measures_along_then_across_the_axis() {
    let left = PaneRect { column: 0, row: 0, width: 40, height: 20 };
    let lower_right = PaneRect { column: 40, row: 10, width: 40, height: 10 };
    assert_eq!(directional_distance(left, lower_right, Direction::Right), (80, 10));
    assert_eq!(directional_distance(left, lower_right, Direction::Down), (10, 80));
}

#[test]
fn floating_layout_is_bounded_by_small_terminals() {
    assert_eq!(
        floating_layout_for((10, 6), false),
        FloatingLayout { column: 2, row: 3, width: 8, height: 2 }
    );
}

#[test]
fn session_manager_is_centered_at_half_the_content_size() {
    assert_eq!(session_manager_rect((100, 40)), (25, 10, 50, 20));
    assert_eq!(session_manager_rect((60, 20)), (10, 5, 40, 10));
    assert_eq!(session_manager_rect((30, 6)), (0, 0, 30, 6));
}

#[test]
fn session_manager_keeps_its_minimum_and_centres_odd_remainders() {
    assert_eq!(session_manager_rect((81, 21)), (20, 5, 40, 10));
    assert_eq!(session_manager_rect((0, 0)), (0, 0, 0, 0));
    assert_eq!(session_manager_rect((200, 60)), (50, 15, 100, 30));
}
