//! Restoring a saved session: which IDs the restarted panes get, how the saved
//! layouts are rewritten to them, where the floating pane goes and which pane
//! has the focus at the end. Panes are started tab by tab, each tab's panes in
//! their saved order, and take consecutive IDs; a tab takes the ID of its
//! first pane. Starting the processes and reading the saved file happen outside
//! the library.

use vstd::prelude::*;

use crate::layout::PaneNode;
use crate::session::{ids_before, listed_ids, SessionSnapshot, SnapshotTab};

verus! {

/// The new ID of a saved pane ID among the panes started so far (`order`,
/// their saved IDs, counted from `base`): that of its last occurrence.
pub open spec fn lookup(order: Seq<usize>, base: usize, saved: usize) -> Option<usize>
    decreases order.len(),
{
    if order.len() == 0 {
        None
    } else if order.last() == saved {
        Some((base + order.len() - 1) as usize)
    } else {
        lookup(order.drop_last(), base, saved)
    }
}

/// A layout with every pane ID replaced by its new ID; `None` when one is unknown.
pub open spec fn remap_spec(n: PaneNode, order: Seq<usize>, base: usize) -> Option<PaneNode>
    decreases n,
{
    match n {
        PaneNode::Leaf(id) => match lookup(order, base, id) {
            Some(new) => Some(PaneNode::Leaf(new)),
            None => None,
        },
        PaneNode::Split { axis, ratio, first, second } => match remap_spec(*first, order, base) {
            None => None,
            Some(a) => match remap_spec(*second, order, base) {
                None => None,
                Some(b) => Some(PaneNode::Split { axis, ratio, first: Box::new(a), second: Box::new(b) }),
            },
        },
    }
}

/// The ID of the first pane of tab `k`, which is also the tab's ID.
pub open spec fn first_id(tabs: Seq<SnapshotTab>, base: usize, k: int) -> int {
    base + ids_before(tabs, k).len()
}

/// The tab, among the first `k`, that a started pane ID belongs to.
pub open spec fn tab_of(tabs: Seq<SnapshotTab>, base: usize, id: usize, k: int) -> Option<usize>
    decreases k,
{
    if k <= 0 {
        None
    } else if first_id(tabs, base, k - 1) <= id < first_id(tabs, base, k) {
        Some(first_id(tabs, base, k - 1) as usize)
    } else {
        tab_of(tabs, base, id, k - 1)
    }
}

/// A restored tab: its ID (that of its first pane) and its layout under the new IDs.
pub struct TabStart {
    pub tab_id: usize,
    pub root: PaneNode,
}

/// The floating pane to start after the tabs.
#[derive(Clone, Copy, Debug, PartialEq, Eq, Structural)]
pub struct FloatingStart {
    pub id: usize,
    pub tab_id: usize,
    /// The pane it returns to when it closes.
    pub return_to: usize,
}

/// The whole restoration.
pub struct RestorePlan {
    /// Tab by tab, in saved order.
    pub tabs: Vec<TabStart>,
    pub floating: Option<FloatingStart>,
    /// The index, in start order, of the pane focused at the end.
    pub active: usize,
    /// The next unused ID afterwards.
    pub next_id: usize,
}

pub open spec fn tab_starts(plan: RestorePlan) -> Seq<(usize, PaneNode)> {
    plan.tabs@.map_values(|t: TabStart| (t.tab_id, t.root))
}

pub open spec fn remapped_tabs(tabs: Seq<SnapshotTab>, base: usize) -> Seq<Option<(usize, PaneNode)>> {
    Seq::new(
        tabs.len(),
        |k: int| match remap_spec(tabs[k].root, ids_before(tabs, k + 1), base) {
            Some(root) => Some((first_id(tabs, base, k) as usize, root)),
            None => None,
        },
    )
}

/// The result of a restoration, or the first reason it fails: a layout that
/// names a pane its tab did not start, or an active pane that was not started.
/// The floating pane returns to its saved pane if that was started, else to the
/// active pane, and joins that pane's tab; it keeps the focus only if it was visible.
pub open spec fn restore_spec(s: SessionSnapshot, base: usize) -> Result<(Seq<(usize, PaneNode)>, Option<FloatingStart>, usize, usize), Seq<char>> {
    let order = ids_before(s.tabs@, s.tabs@.len() as int);
    let total = order.len();
    let tabs = remapped_tabs(s.tabs@, base);
    if exists|k: int| 0 <= k < tabs.len() && tabs[k] is None {
        Err("saved pane layout references a missing pane"@)
    } else {
        let roots = tabs.map_values(|t: Option<(usize, PaneNode)>| t.unwrap());
        match lookup(order, base, s.active_pane) {
            None => Err("saved active pane could not be restored"@),
            Some(active_id) => {
                let active = (active_id - base) as usize;
                match s.floating {
                    None => Ok((roots, None, active, (base + total) as usize)),
                    Some(f) => {
                        let return_to = match f.return_to {
                            Some(r) => match lookup(order, base, r) {
                                Some(n) => n,
                                None => active_id,
                            },
                            None => active_id,
                        };
                        let tab_id = match tab_of(s.tabs@, base, return_to, s.tabs@.len() as int) {
                            Some(t) => t,
                            None => base,
                        };
                        Ok((
                            roots,
                            Some(FloatingStart { id: (base + total) as usize, tab_id, return_to }),
                            if f.visible {
                                total as usize
                            } else {
                                active
                            },
                            (base + total + 1) as usize,
                        ))
                    },
                }
            },
        }
    }
}

proof fn lemma_lookup_bounds(order: Seq<usize>, base: usize, saved: usize)
    requires
        base + order.len() <= usize::MAX,
    ensures
        match lookup(order, base, saved) {
            Some(n) => base <= n < base + order.len(),
            None => true,
        },
    decreases order.len(),
{
    if order.len() > 0 && order.last() != saved {
        lemma_lookup_bounds(order.drop_last(), base, saved);
    }
}

fn lookup_exec(order: &Vec<usize>, base: usize, saved: usize) -> (r: Option<usize>)
    requires
        base + order@.len() <= usize::MAX,
    ensures
        r == lookup(order@, base, saved),
{
    let mut i: usize = order.len();
    assert(order@.take(i as int) =~= order@);
    while i > 0
        invariant
            i <= order@.len(),
            base + order@.len() <= usize::MAX,
            lookup(order@, base, saved) == lookup(order@.take(i as int), base, saved),
        decreases i,
    {
        assert(order@.take(i as int).drop_last() =~= order@.take(i - 1));
        if order[i - 1] == saved {
            return Some(base + i - 1);
        }
        i -= 1;
    }
    None
}

fn remap(node: &PaneNode, order: &Vec<usize>, base: usize) -> (r: Option<PaneNode>)
    requires
        base + order@.len() <= usize::MAX,
    ensures
        r == remap_spec(*node, order@, base),
    decreases node,
{
    match node {
        PaneNode::Leaf(id) => match lookup_exec(order, base, *id) {
            Some(new) => Some(PaneNode::Leaf(new)),
            None => None,
        },
        PaneNode::Split { axis, ratio, first, second } => {
            let a = match remap(first, order, base) {
                None => {
                    return None;
                },
                Some(a) => a,
            };
            let b = match remap(second, order, base) {
                None => {
                    return None;
                },
                Some(b) => b,
            };
            Some(PaneNode::Split { axis: *axis, ratio: *ratio, first: Box::new(a), second: Box::new(b) })
        },
    }
}

pub open spec fn plan_view(p: RestorePlan) -> (Seq<(usize, PaneNode)>, Option<FloatingStart>, usize, usize) {
    (tab_starts(p), p.floating, p.active, p.next_id)
}

proof fn lemma_ids_before_step(tabs: Seq<SnapshotTab>, k: int)
    requires
        0 <= k < tabs.len(),
    ensures
        ids_before(tabs, k + 1) == ids_before(tabs, k) + listed_ids(tabs[k].panes@),
{
}

proof fn lemma_ids_before_grows(tabs: Seq<SnapshotTab>, j: int, k: int)
    requires
        0 <= j <= k <= tabs.len(),
    ensures
        ids_before(tabs, j).len() <= ids_before(tabs, k).len(),
    decreases k - j,
{
    if j < k {
        lemma_ids_before_grows(tabs, j, k - 1);
    }
}

/// Plans the restoration of a saved session into a server whose next unused
/// ID is `base`; the IDs given out must fit.
pub fn restore_plan(saved: &SessionSnapshot, base: usize) -> (r: Result<RestorePlan, String>)
    requires
        base + ids_before(saved.tabs@, saved.tabs@.len() as int).len() + 1 <= usize::MAX,
    ensures
        match r {
            Ok(p) => restore_spec(*saved, base) == Ok::<(Seq<(usize, PaneNode)>, Option<FloatingStart>, usize, usize), Seq<char>>(plan_view(p)),
            Err(e) => restore_spec(*saved, base) == Err::<(Seq<(usize, PaneNode)>, Option<FloatingStart>, usize, usize), Seq<char>>(e@),
        },
{
    let ghost tabs_s = saved.tabs@;
    let ghost all = ids_before(tabs_s, tabs_s.len() as int);
    let ghost remapped = remapped_tabs(tabs_s, base);
    let mut order: Vec<usize> = Vec::new();
    let mut tabs: Vec<TabStart> = Vec::new();
    let mut k: usize = 0;
    while k < saved.tabs.len()
        invariant
            k <= tabs_s.len(),
            tabs_s == saved.tabs@,
            all == ids_before(tabs_s, tabs_s.len() as int),
            remapped == remapped_tabs(tabs_s, base),
            base + all.len() + 1 <= usize::MAX,
            order@ == ids_before(tabs_s, k as int),
            tabs@.len() == k,
            forall|j: int| 0 <= j < k ==> remapped[j] == Some((#[trigger] tabs@[j].tab_id, tabs@[j].root)),
        decreases tabs_s.len() - k,
    {
        proof {
            lemma_ids_before_grows(tabs_s, k + 1, tabs_s.len() as int);
            lemma_ids_before_grows(tabs_s, k as int, tabs_s.len() as int);
        }
        let tab_id = base + order.len();
        let tab = &saved.tabs[k];
        let mut p: usize = 0;
        let ghost start = order@;
        while p < tab.panes.len()
            invariant
                p <= tab.panes@.len(),
                order@ == start + listed_ids(tab.panes@.take(p as int)),
                start.len() + tab.panes@.len() <= all.len(),
            decreases tab.panes@.len() - p,
        {
            order.push(tab.panes[p].id);
            assert(listed_ids(tab.panes@.take(p + 1)) =~= listed_ids(tab.panes@.take(p as int)).push(tab.panes@[p as int].id));
            p += 1;
        }
        proof {
            assert(tab.panes@.take(tab.panes@.len() as int) =~= tab.panes@);
            lemma_ids_before_step(tabs_s, k as int);
        }
        let root = match remap(&tab.root, &order, base) {
            None => {
                proof {
                    assert(remapped[k as int] is None);
                }
                return Err("saved pane layout references a missing pane".to_owned());
            },
            Some(root) => root,
        };
        tabs.push(TabStart { tab_id, root });
        k += 1;
    }
    assert(order@ == all);
    assert forall|j: int| 0 <= j < remapped.len() implies !(#[trigger] remapped[j] is None) by {
        assert(remapped[j] == Some((tabs@[j].tab_id, tabs@[j].root)));
    }
    let ghost roots = remapped.map_values(|t: Option<(usize, PaneNode)>| t.unwrap());
    assert forall|j: int| 0 <= j < roots.len() implies #[trigger] roots[j] == (tabs@[j].tab_id, tabs@[j].root) by {
        assert(remapped[j] == Some((tabs@[j].tab_id, tabs@[j].root)));
    }
    assert(tab_starts(RestorePlan { tabs, floating: None, active: 0, next_id: 0 }) =~= roots);
    let total = order.len();
    proof {
        lemma_lookup_bounds(all, base, saved.active_pane);
    }
    let active_id = match lookup_exec(&order, base, saved.active_pane) {
        None => {
            return Err("saved active pane could not be restored".to_owned());
        },
        Some(a) => a,
    };
    let active = active_id - base;
    match &saved.floating {
        None => Ok(RestorePlan { tabs, floating: None, active, next_id: base + total }),
        Some(f) => {
            let return_to = match f.return_to {
                Some(r) => {
                    proof {
                        lemma_lookup_bounds(all, base, r);
                    }
                    match lookup_exec(&order, base, r) {
                        Some(n) => n,
                        None => active_id,
                    }
                },
                None => active_id,
            };
            let tab_id = tab_containing(saved, base, return_to);
            let floating = FloatingStart { id: base + total, tab_id, return_to };
            Ok(RestorePlan {
                tabs,
                floating: Some(floating),
                active: if f.visible {
                    total
                } else {
                    active
                },
                next_id: base + total + 1,
            })
        },
    }
}

/// The ID of the tab a started pane belongs to (`base` if none).
fn tab_containing(saved: &SessionSnapshot, base: usize, id: usize) -> (r: usize)
    requires
        base + ids_before(saved.tabs@, saved.tabs@.len() as int).len() + 1 <= usize::MAX,
    ensures
        r == match tab_of(saved.tabs@, base, id, saved.tabs@.len() as int) {
            Some(t) => t,
            None => base,
        },
{
    let ghost tabs_s = saved.tabs@;
    // The first ID of each tab, and one past the last.
    let mut firsts: Vec<usize> = Vec::new();
    let mut count: usize = 0;
    let mut k: usize = 0;
    while k < saved.tabs.len()
        invariant
            k <= tabs_s.len(),
            tabs_s == saved.tabs@,
            base + ids_before(tabs_s, tabs_s.len() as int).len() + 1 <= usize::MAX,
            count == ids_before(tabs_s, k as int).len(),
            firsts@.len() == k,
            forall|j: int| 0 <= j < k ==> #[trigger] firsts@[j] == first_id(tabs_s, base, j),
        decreases tabs_s.len() - k,
    {
        proof {
            lemma_ids_before_grows(tabs_s, k + 1, tabs_s.len() as int);
            lemma_ids_before_step(tabs_s, k as int);
        }
        firsts.push(base + count);
        count = count + saved.tabs[k].panes.len();
        k += 1;
    }
    let mut i: usize = saved.tabs.len();
    let mut end: usize = base + count;
    while i > 0
        invariant
            i <= tabs_s.len(),
            tabs_s == saved.tabs@,
            firsts@.len() == tabs_s.len(),
            forall|j: int| 0 <= j < tabs_s.len() ==> #[trigger] firsts@[j] == first_id(tabs_s, base, j),
            end == first_id(tabs_s, base, i as int),
            tab_of(tabs_s, base, id, tabs_s.len() as int) == tab_of(tabs_s, base, id, i as int),
        decreases i,
    {
        let first = firsts[i - 1];
        if first <= id && id < end {
            return first;
        }
        end = first;
        i -= 1;
    }
    base
}

} // verus!
