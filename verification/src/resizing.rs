//! Which way a resize step moves a border. A split's ratio is the share of its
//! first part (left, or top); a border moving up or left lowers it, one moving
//! down or right raises it.

use vstd::prelude::*;

use crate::layout::{resize_spec, Direction, PaneNode, SplitAxis};

verus! {

/// Every split ratio lies in [100, 900], as splits, drags and resizes keep them.
pub open spec fn ratios_in_range(n: PaneNode) -> bool
    decreases n,
{
    match n {
        PaneNode::Leaf(_) => true,
        PaneNode::Split { ratio, first, second, .. } => 100 <= ratio <= 900 && ratios_in_range(*first)
            && ratios_in_range(*second),
    }
}

/// The same tree of splits and panes, each ratio of `a` at most that of `b`.
pub open spec fn ratios_at_most(a: PaneNode, b: PaneNode) -> bool
    decreases a,
{
    match a {
        PaneNode::Leaf(x) => b == PaneNode::Leaf(x),
        PaneNode::Split { axis, ratio, first, second } => match b {
            PaneNode::Split { axis: axis2, ratio: ratio2, first: first2, second: second2 } => axis == axis2 && ratio
                <= ratio2 && ratios_at_most(*first, *first2) && ratios_at_most(*second, *second2),
            PaneNode::Leaf(_) => false,
        },
    }
}

proof fn lemma_at_most_refl(n: PaneNode)
    ensures
        ratios_at_most(n, n),
    decreases n,
{
    match n {
        PaneNode::Leaf(_) => {},
        PaneNode::Split { first, second, .. } => {
            lemma_at_most_refl(*first);
            lemma_at_most_refl(*second);
        },
    }
}

proof fn lemma_resize_direction(n: PaneNode, target: usize)
    requires
        ratios_in_range(n),
    ensures
        ratios_at_most(resize_spec(n, target, Direction::Up).0, n),
        ratios_at_most(resize_spec(n, target, Direction::Left).0, n),
        ratios_at_most(n, resize_spec(n, target, Direction::Down).0),
        ratios_at_most(n, resize_spec(n, target, Direction::Right).0),
    decreases n,
{
    lemma_at_most_refl(n);
    match n {
        PaneNode::Leaf(_) => {},
        PaneNode::Split { first, second, .. } => {
            lemma_at_most_refl(*first);
            lemma_at_most_refl(*second);
            lemma_resize_direction(*first, target);
            lemma_resize_direction(*second, target);
        },
    }
}

/// A resize step never moves any border the wrong way: resizing up or left
/// never raises a ratio, resizing down or right never lowers one, and the tree
/// keeps its shape. So up and down (and left and right) move a border in
/// opposite directions.
pub proof fn resizing_moves_borders_the_named_way(n: PaneNode, target: usize)
    requires
        ratios_in_range(n),
    ensures
        ratios_at_most(resize_spec(n, target, Direction::Up).0, n),
        ratios_at_most(resize_spec(n, target, Direction::Left).0, n),
        ratios_at_most(n, resize_spec(n, target, Direction::Down).0),
        ratios_at_most(n, resize_spec(n, target, Direction::Right).0),
{
    lemma_resize_direction(n, target);
}

/// Two panes split by one border: resizing the lower (right) pane up (left)
/// moves the border 50 thousandths up (left), resizing the upper (left) pane
/// down (right) moves it down (right), each within [100, 900]; resizing the
/// upper (left) pane up (left) or the lower (right) pane down (right) moves nothing.
pub proof fn resizing_two_panes_moves_their_border(axis: SplitAxis, ratio: u16, a: usize, b: usize)
    requires
        a != b,
        100 <= ratio <= 900,
    ensures
        ({
            let n = PaneNode::Split { axis, ratio, first: Box::new(PaneNode::Leaf(a)), second: Box::new(PaneNode::Leaf(b)) };
            let (toward_first, toward_second) = if axis == SplitAxis::Horizontal {
                (Direction::Up, Direction::Down)
            } else {
                (Direction::Left, Direction::Right)
            };
            let lower = if ratio < 150 { 100 } else { ratio - 50 };
            let higher = if ratio > 850 { 900 } else { ratio + 50 };
            &&& resize_spec(n, b, toward_first) == (
                PaneNode::Split { axis, ratio: lower as u16, first: Box::new(PaneNode::Leaf(a)), second: Box::new(PaneNode::Leaf(b)) },
                lower != ratio,
            )
            &&& resize_spec(n, a, toward_second) == (
                PaneNode::Split { axis, ratio: higher as u16, first: Box::new(PaneNode::Leaf(a)), second: Box::new(PaneNode::Leaf(b)) },
                higher != ratio,
            )
            &&& resize_spec(n, a, toward_first) == (n, false)
            &&& resize_spec(n, b, toward_second) == (n, false)
        }),
{
    assert(crate::layout::ids(PaneNode::Leaf(a)) == seq![a]);
    assert(crate::layout::ids(PaneNode::Leaf(b)) == seq![b]);
    assert(seq![a][0] == a);
    assert(seq![a].contains(a));
    assert(seq![b][0] == b);
    assert(seq![b].contains(b));
    assert(!seq![a].contains(b)) by {
        if seq![a].contains(b) {
            let k = choose|k: int| 0 <= k < 1 && seq![a][k] == b;
        }
    }
    assert(!seq![b].contains(a)) by {
        if seq![b].contains(a) {
            let k = choose|k: int| 0 <= k < 1 && seq![b][k] == a;
        }
    }
    reveal_with_fuel(resize_spec, 2);
}

} // verus!
