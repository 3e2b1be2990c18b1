//! Rebuilding a spawned widget tree in place: which spawned child keeps its
//! entity, which is replaced, which is spawned anew and which goes away.
//! Entities are their 64-bit identifiers; the caller spawns, updates and
//! despawns as the plan says and descends into the children it keeps.
use vstd::prelude::*;
use crate::attrs::HtmlID;
use crate::html::HtmlStates;
use crate::style::UIWidgetState;
use crate::keyed;
use crate::keyed::KeyedMap;
use crate::text;
use crate::tree;
use crate::tree::{
    HtmlNodeKind, HtmlWidgetNode, NodeWidget, get_node_id, get_node_kind, is_relocated_widget_node,
    kind_of,
};

verus! {

/// A child entity the parent has now: its entity, the node identifier it
/// was spawned for (if any) and the kind recorded on it (if any).
#[derive(Debug, Clone, Copy, PartialEq, Eq, Structural)]
pub struct ExistingChild {
    pub entity: u64,
    pub html_id: Option<usize>,
    pub kind: Option<HtmlNodeKind>,
}

/// What happens for one node of the new children, in order.
#[derive(Debug, Clone, Copy, PartialEq, Eq, Structural)]
pub enum ChildStep {
    /// The child spawned for the node stays; it is updated in place and,
    /// for a container, its children are reconciled in turn.
    Update(u64),
    /// The child spawned for the node is of another kind: it is despawned
    /// and a new one spawned in its place.
    Replace(u64),
    /// A new child is spawned for the node.
    Spawn,
    /// The node is spawned elsewhere (`is_relocated_widget_node`) and its
    /// entity there is updated in place; it is no child of this parent.
    UpdateRelocated(u64),
}

/// How to rebuild a parent's children: one step per new node; the children
/// spawned for nodes that are gone, to despawn, as (node identifier,
/// entity); and the children without a node identifier, which stay after
/// the others.
pub struct ReconcilePlan {
    pub steps: Vec<ChildStep>,
    pub stale: Vec<(usize, u64)>,
    pub kept: Vec<u64>,
}

/// Entities and kinds of the existing children by node identifier; a later
/// child with the same identifier replaces an earlier one.
pub open spec fn by_id(ex: Seq<ExistingChild>) -> Map<usize, (u64, Option<HtmlNodeKind>)>
    decreases ex.len(),
{
    if ex.len() == 0 {
        Map::empty()
    } else {
        let m = by_id(ex.drop_last());
        match ex.last().html_id {
            Some(id) => m.insert(id, (ex.last().entity, ex.last().kind)),
            None => m,
        }
    }
}

/// The existing children without a node identifier, in order.
pub open spec fn without_id(ex: Seq<ExistingChild>) -> Seq<u64>
    decreases ex.len(),
{
    if ex.len() == 0 {
        seq![]
    } else {
        let s = without_id(ex.drop_last());
        if ex.last().html_id is None {
            s.push(ex.last().entity)
        } else {
            s
        }
    }
}

/// The entity of every spawned node by identifier (the last entry with
/// `id`), with the kind recorded on it.
pub open spec fn index_entry(ix: Seq<(usize, u64, Option<HtmlNodeKind>)>, id: usize) -> Option<
    (u64, Option<HtmlNodeKind>),
>
    decreases ix.len(),
{
    if ix.len() == 0 {
        None
    } else if ix.last().0 == id {
        Some((ix.last().1, ix.last().2))
    } else {
        index_entry(ix.drop_last(), id)
    }
}

/// Whether an entity with recorded kind `k` still fits node `n`.
pub open spec fn kind_fits(k: Option<HtmlNodeKind>, n: HtmlWidgetNode) -> bool {
    k matches Some(x) && x.discriminant == kind_of(n.widget)
}

/// Whether node `n` is spawned away from its parent (a bound date picker).
pub open spec fn relocated(n: HtmlWidgetNode) -> bool {
    n.widget matches NodeWidget::DatePicker(d) && d.for_id is Some
}

/// The steps for `nodes`, starting from the unclaimed children `m`, and the
/// children still unclaimed after them: a node whose identifier an
/// unclaimed child carries claims it, and keeps it when its kind fits or
/// replaces it otherwise; a relocated node updates the entity spawned for
/// it elsewhere when there is one of a fitting kind, and is spawned anew
/// otherwise; any other node is spawned.
pub open spec fn plan_steps(
    m: Map<usize, (u64, Option<HtmlNodeKind>)>,
    nodes: Seq<HtmlWidgetNode>,
    ix: Seq<(usize, u64, Option<HtmlNodeKind>)>,
) -> (Seq<ChildStep>, Map<usize, (u64, Option<HtmlNodeKind>)>)
    decreases nodes.len(),
{
    if nodes.len() == 0 {
        (seq![], m)
    } else {
        let prev = plan_steps(m, nodes.drop_last(), ix);
        let s = prev.0;
        let m1 = prev.1;
        let n = nodes.last();
        let id = n.id.0;
        if m1.dom().contains(id) {
            let e = m1[id].0;
            let step = if kind_fits(m1[id].1, n) {
                ChildStep::Update(e)
            } else {
                ChildStep::Replace(e)
            };
            (s.push(step), m1.remove(id))
        } else if relocated(n) {
            match index_entry(ix, id) {
                Some(entry) => (s.push(
                    if kind_fits(entry.1, n) {
                        ChildStep::UpdateRelocated(entry.0)
                    } else {
                        ChildStep::Spawn
                    },
                ), m1),
                None => (s.push(ChildStep::Spawn), m1),
            }
        } else {
            (s.push(ChildStep::Spawn), m1)
        }
    }
}

/// The unclaimed children as a vector of (identifier, entity, kind): each
/// identifier once, and exactly the identifiers of `m`, each with its entry.
pub open spec fn lists_map(
    live: Seq<(usize, u64, Option<HtmlNodeKind>)>,
    m: Map<usize, (u64, Option<HtmlNodeKind>)>,
) -> bool {
    &&& forall|i: int, j: int| #![trigger live[i], live[j]] 0 <= i < j < live.len() ==> live[i].0 != live[j].0
    &&& forall|i: int|
        0 <= i < live.len() ==> #[trigger] m.dom().contains(live[i].0) && m[live[i].0] == (
            live[i].1,
            live[i].2,
        )
    &&& forall|id: usize| #[trigger]
        m.dom().contains(id) ==> exists|i: int| 0 <= i < live.len() && live[i].0 == id
}

/// `stale` lists the children of `m`, each identifier once, as
/// (identifier, entity).
pub open spec fn lists_stale(stale: Seq<(usize, u64)>, m: Map<usize, (u64, Option<HtmlNodeKind>)>) -> bool {
    &&& forall|i: int, j: int| 0 <= i < j < stale.len() ==> #[trigger] stale[i].0 != #[trigger] stale[j].0
    &&& forall|i: int|
        0 <= i < stale.len() ==> #[trigger] m.dom().contains(stale[i].0) && m[stale[i].0].0 == stale[i].1
    &&& forall|id: usize| #[trigger]
        m.dom().contains(id) ==> exists|i: int| 0 <= i < stale.len() && stale[i].0 == id
}

proof fn lemma_set_keeps(
    live: Seq<(usize, u64, Option<HtmlNodeKind>)>,
    m: Map<usize, (u64, Option<HtmlNodeKind>)>,
    j: int,
    id: usize,
    e: u64,
    k: Option<HtmlNodeKind>,
)
    requires
        lists_map(live, m),
        0 <= j < live.len(),
        live[j].0 == id,
    ensures
        lists_map(live.update(j, (id, e, k)), m.insert(id, (e, k))),
{
    let l2 = live.update(j, (id, e, k));
    let m2 = m.insert(id, (e, k));
    assert forall|a: int, b: int| #![trigger l2[a], l2[b]] 0 <= a < b < l2.len() implies l2[a].0 != l2[b].0 by {
        assert(live[a].0 != live[b].0);
    }
    assert forall|q: int| 0 <= q < l2.len() implies #[trigger] m2.dom().contains(l2[q].0) && m2[l2[q].0] == (
        l2[q].1,
        l2[q].2,
    ) by {
        if q != j {
            if q < j {
                assert(live[q].0 != live[j].0);
            } else {
                assert(live[j].0 != live[q].0);
            }
            assert(m.dom().contains(live[q].0));
        }
    }
    assert forall|id2: usize| #[trigger] m2.dom().contains(id2) implies exists|q: int|
        0 <= q < l2.len() && l2[q].0 == id2 by {
        if id2 != id {
            let q = choose|q: int| 0 <= q < live.len() && live[q].0 == id2;
            assert(l2[q].0 == id2);
        } else {
            assert(l2[j].0 == id2);
        }
    }
}

proof fn lemma_push_keeps(
    live: Seq<(usize, u64, Option<HtmlNodeKind>)>,
    m: Map<usize, (u64, Option<HtmlNodeKind>)>,
    id: usize,
    e: u64,
    k: Option<HtmlNodeKind>,
)
    requires
        lists_map(live, m),
        forall|i: int| 0 <= i < live.len() ==> live[i].0 != id,
    ensures
        lists_map(live.push((id, e, k)), m.insert(id, (e, k))),
{
    let l2 = live.push((id, e, k));
    let m2 = m.insert(id, (e, k));
    assert forall|a: int, b: int| #![trigger l2[a], l2[b]] 0 <= a < b < l2.len() implies l2[a].0 != l2[b].0 by {
        if b < live.len() {
            assert(live[a].0 != live[b].0);
        } else {
            assert(l2[a] == live[a]);
        }
    }
    assert forall|q: int| 0 <= q < l2.len() implies #[trigger] m2.dom().contains(l2[q].0) && m2[l2[q].0] == (
        l2[q].1,
        l2[q].2,
    ) by {
        if q < live.len() {
            assert(l2[q] == live[q]);
            assert(m.dom().contains(live[q].0));
        }
    }
    assert forall|id2: usize| #[trigger] m2.dom().contains(id2) implies exists|q: int|
        0 <= q < l2.len() && l2[q].0 == id2 by {
        if id2 != id {
            let q = choose|q: int| 0 <= q < live.len() && live[q].0 == id2;
            assert(l2[q].0 == id2);
        } else {
            assert(l2[live.len() as int].0 == id2);
        }
    }
}

proof fn lemma_remove_keeps(
    live: Seq<(usize, u64, Option<HtmlNodeKind>)>,
    m: Map<usize, (u64, Option<HtmlNodeKind>)>,
    j: int,
)
    requires
        lists_map(live, m),
        0 <= j < live.len(),
    ensures
        lists_map(live.remove(j), m.remove(live[j].0)),
{
    let l2 = live.remove(j);
    let id = live[j].0;
    let m2 = m.remove(id);
    assert forall|a: int, b: int| #![trigger l2[a], l2[b]] 0 <= a < b < l2.len() implies l2[a].0 != l2[b].0 by {
        let a0 = if a < j { a } else { a + 1 };
        let b0 = if b < j { b } else { b + 1 };
        assert(l2[a] == live[a0]);
        assert(l2[b] == live[b0]);
        assert(live[a0].0 != live[b0].0);
    }
    assert forall|q: int| 0 <= q < l2.len() implies #[trigger] m2.dom().contains(l2[q].0) && m2[l2[q].0] == (
        l2[q].1,
        l2[q].2,
    ) by {
        let q0 = if q < j { q } else { q + 1 };
        assert(l2[q] == live[q0]);
        if q0 < j {
            assert(live[q0].0 != live[j].0);
        } else {
            assert(live[j].0 != live[q0].0);
        }
        assert(m.dom().contains(live[q0].0));
    }
    assert forall|id2: usize| #[trigger] m2.dom().contains(id2) implies exists|q: int|
        0 <= q < l2.len() && l2[q].0 == id2 by {
        let q0 = choose|q0: int| 0 <= q0 < live.len() && live[q0].0 == id2;
        assert(q0 != j);
        let q = if q0 < j { q0 } else { q0 - 1 };
        assert(l2[q] == live[q0]);
    }
}

proof fn lemma_stale_covers(
    live: Seq<(usize, u64, Option<HtmlNodeKind>)>,
    stale: Seq<(usize, u64)>,
    m: Map<usize, (u64, Option<HtmlNodeKind>)>,
)
    requires
        lists_map(live, m),
        stale.len() == live.len(),
        forall|q: int| 0 <= q < stale.len() ==> #[trigger] stale[q] == (live[q].0, live[q].1),
    ensures
        lists_stale(stale, m),
{
    assert forall|i: int, j: int| 0 <= i < j < stale.len() implies #[trigger] stale[i].0
        != #[trigger] stale[j].0 by {
        assert(stale[i] == (live[i].0, live[i].1));
        assert(stale[j] == (live[j].0, live[j].1));
        assert(live[i].0 != live[j].0);
    }
    assert forall|i: int| 0 <= i < stale.len() implies #[trigger] m.dom().contains(stale[i].0)
        && m[stale[i].0].0 == stale[i].1 by {
        assert(stale[i] == (live[i].0, live[i].1));
        assert(m.dom().contains(live[i].0));
    }
    assert forall|id: usize| #[trigger] m.dom().contains(id) implies exists|i: int|
        0 <= i < stale.len() && stale[i].0 == id by {
        let q = choose|q: int| 0 <= q < live.len() && live[q].0 == id;
        assert(stale[q] == (live[q].0, live[q].1));
    }
}

fn position_of(live: &Vec<(usize, u64, Option<HtmlNodeKind>)>, id: usize) -> (r: Option<usize>)
    ensures
        match r {
            Some(j) => j < live@.len() && live@[j as int].0 == id,
            None => forall|i: int| 0 <= i < live@.len() ==> live@[i].0 != id,
        },
{
    let mut i: usize = 0;
    while i < live.len()
        invariant
            i <= live@.len(),
            forall|k: int| 0 <= k < i ==> live@[k].0 != id,
        decreases live.len() - i,
    {
        if live[i].0 == id {
            return Some(i);
        }
        i = i + 1;
    }
    None
}

fn lookup_index(ix: &Vec<(usize, u64, Option<HtmlNodeKind>)>, id: usize) -> (r: Option<
    (u64, Option<HtmlNodeKind>),
>)
    ensures
        r == index_entry(ix@, id),
{
    let mut i: usize = ix.len();
    assert(ix@.take(ix@.len() as int) =~= ix@);
    while i > 0
        invariant
            i <= ix@.len(),
            index_entry(ix@, id) == index_entry(ix@.take(i as int), id),
        decreases i,
    {
        assert(ix@.take(i as int).drop_last() =~= ix@.take(i - 1));
        assert(ix@.take(i as int).last() == ix@[i - 1]);
        if ix[i - 1].0 == id {
            return Some((ix[i - 1].1, ix[i - 1].2));
        }
        i = i - 1;
    }
    None
}

fn kind_fits_exec(k: Option<HtmlNodeKind>, n: &HtmlWidgetNode) -> (r: bool)
    ensures
        r == kind_fits(k, *n),
{
    match k {
        Some(x) => x == get_node_kind(n),
        None => false,
    }
}

/// Plans how to rebuild a parent's children `existing` for the new child
/// nodes `new_nodes`, given the entity spawned for each node identifier
/// elsewhere (`index`): the steps of `plan_steps` starting from `by_id` of
/// the existing children; the children left unclaimed, to despawn; and the
/// children without identifier, in order.
pub fn reconcile_node_children(
    existing: &Vec<ExistingChild>,
    new_nodes: &Vec<HtmlWidgetNode>,
    index: &Vec<(usize, u64, Option<HtmlNodeKind>)>,
) -> (r: ReconcilePlan)
    ensures
        r.steps@ == plan_steps(by_id(existing@), new_nodes@, index@).0,
        lists_stale(r.stale@, plan_steps(by_id(existing@), new_nodes@, index@).1),
        r.kept@ == without_id(existing@),
{
    let mut live: Vec<(usize, u64, Option<HtmlNodeKind>)> = Vec::new();
    let mut kept: Vec<u64> = Vec::new();
    let mut i: usize = 0;
    while i < existing.len()
        invariant
            i <= existing@.len(),
            lists_map(live@, by_id(existing@.take(i as int))),
            kept@ == without_id(existing@.take(i as int)),
        decreases existing.len() - i,
    {
        let c = existing[i];
        let ghost before = existing@.take(i as int);
        let ghost m0 = by_id(before);
        assert(existing@.take(i + 1).drop_last() =~= before);
        assert(existing@.take(i + 1).last() == c);
        match c.html_id {
            Some(id) => {
                let ghost m1 = m0.insert(id, (c.entity, c.kind));
                match position_of(&live, id) {
                    Some(j) => {
                        let ghost old_live = live@;
                        live.set(j, (id, c.entity, c.kind));
                        proof {
                            lemma_set_keeps(old_live, m0, j as int, id, c.entity, c.kind);
                        }
                    },
                    None => {
                        let ghost old_live = live@;
                        live.push((id, c.entity, c.kind));
                        proof {
                            lemma_push_keeps(old_live, m0, id, c.entity, c.kind);
                        }
                    },
                }
            },
            None => {
                kept.push(c.entity);
            },
        }
        i = i + 1;
    }
    assert(existing@.take(existing@.len() as int) =~= existing@);
    let ghost m_start = by_id(existing@);
    let mut steps: Vec<ChildStep> = Vec::new();
    let mut k: usize = 0;
    while k < new_nodes.len()
        invariant
            k <= new_nodes@.len(),
            m_start == by_id(existing@),
            steps@ == plan_steps(m_start, new_nodes@.take(k as int), index@).0,
            lists_map(live@, plan_steps(m_start, new_nodes@.take(k as int), index@).1),
        decreases new_nodes.len() - k,
    {
        let n = &new_nodes[k];
        let ghost prev = plan_steps(m_start, new_nodes@.take(k as int), index@);
        assert(new_nodes@.take(k + 1).drop_last() =~= new_nodes@.take(k as int));
        assert(new_nodes@.take(k + 1).last() == *n);
        let id = get_node_id(n).0;
        match position_of(&live, id) {
            Some(j) => {
                let (_, e, kd) = live[j];
                let ghost m2 = prev.1.remove(id);
                let ghost old_live = live@;
                if kind_fits_exec(kd, n) {
                    steps.push(ChildStep::Update(e));
                } else {
                    steps.push(ChildStep::Replace(e));
                }
                live.remove(j);
                proof {
                    lemma_remove_keeps(old_live, prev.1, j as int);
                }
            },
            None => {
                assert(!prev.1.dom().contains(id));
                if is_relocated_widget_node(n) {
                    match lookup_index(index, id) {
                        Some((e, kd)) => {
                            if kind_fits_exec(kd, n) {
                                steps.push(ChildStep::UpdateRelocated(e));
                            } else {
                                steps.push(ChildStep::Spawn);
                            }
                        },
                        None => {
                            steps.push(ChildStep::Spawn);
                        },
                    }
                } else {
                    steps.push(ChildStep::Spawn);
                }
            },
        }
        k = k + 1;
    }
    assert(new_nodes@.take(new_nodes@.len() as int) =~= new_nodes@);
    let mut stale: Vec<(usize, u64)> = Vec::new();
    let mut s: usize = 0;
    while s < live.len()
        invariant
            s <= live@.len(),
            stale@.len() == s,
            forall|q: int| 0 <= q < s ==> #[trigger] stale@[q] == (live@[q].0, live@[q].1),
            lists_map(live@, plan_steps(by_id(existing@), new_nodes@, index@).1),
        decreases live.len() - s,
    {
        stale.push((live[s].0, live[s].1));
        s = s + 1;
    }
    proof {
        lemma_stale_covers(live@, stale@, plan_steps(by_id(existing@), new_nodes@, index@).1);
    }
    ReconcilePlan { steps, stale, kept }
}

/// The children spawned for `nodes`, one by one: each carries its node's
/// identifier and kind.
pub open spec fn spawned_for(ex: Seq<ExistingChild>, nodes: Seq<HtmlWidgetNode>) -> bool {
    &&& ex.len() == nodes.len()
    &&& forall|i: int|
        #![trigger ex[i]]
        0 <= i < ex.len() ==> ex[i].html_id == Some(nodes[i].id.0) && ex[i].kind == Some(
            HtmlNodeKind { discriminant: kind_of(nodes[i].widget) },
        )
    &&& forall|i: int, j: int| #![trigger nodes[i], nodes[j]] 0 <= i < j < nodes.len() ==> nodes[i].id.0 != nodes[j].id.0
}

proof fn lemma_by_id_spawned(ex: Seq<ExistingChild>, nodes: Seq<HtmlWidgetNode>, n: int)
    requires
        spawned_for(ex, nodes),
        0 <= n <= ex.len(),
    ensures
        forall|id: usize|
            by_id(ex.take(n)).dom().contains(id) <==> exists|i: int| 0 <= i < n && #[trigger] nodes[i].id.0 == id,
        forall|i: int|
            0 <= i < n ==> #[trigger] by_id(ex.take(n))[nodes[i].id.0] == (ex[i].entity, ex[i].kind),
    decreases n,
{
    if n > 0 {
        lemma_by_id_spawned(ex, nodes, n - 1);
        assert(ex.take(n).drop_last() =~= ex.take(n - 1));
        assert(ex.take(n).last() == ex[n - 1]);
        assert(ex[n - 1].html_id == Some(nodes[n - 1].id.0));
        let m = by_id(ex.take(n));
        let m0 = by_id(ex.take(n - 1));
        assert(m == m0.insert(nodes[n - 1].id.0, (ex[n - 1].entity, ex[n - 1].kind)));
        assert forall|id: usize| m.dom().contains(id) <==> exists|i: int|
            0 <= i < n && #[trigger] nodes[i].id.0 == id by {
            if id == nodes[n - 1].id.0 {
                assert(nodes[n - 1].id.0 == id);
            } else if exists|i: int| 0 <= i < n && #[trigger] nodes[i].id.0 == id {
                let i = choose|i: int| 0 <= i < n && #[trigger] nodes[i].id.0 == id;
                assert(i < n - 1);
            }
        }
        assert forall|i: int| 0 <= i < n implies #[trigger] m[nodes[i].id.0] == (
            ex[i].entity,
            ex[i].kind,
        ) by {
            if i < n - 1 {
                assert(nodes[i].id.0 != nodes[n - 1].id.0);
            }
        }
    }
}

proof fn lemma_plan_spawned(
    ex: Seq<ExistingChild>,
    nodes: Seq<HtmlWidgetNode>,
    ix: Seq<(usize, u64, Option<HtmlNodeKind>)>,
    n: int,
)
    requires
        spawned_for(ex, nodes),
        0 <= n <= nodes.len(),
    ensures
        plan_steps(by_id(ex), nodes.take(n), ix).0 == Seq::new(
            n as nat,
            |i: int| ChildStep::Update(ex[i].entity),
        ),
        forall|id: usize|
            plan_steps(by_id(ex), nodes.take(n), ix).1.dom().contains(id) <==> exists|i: int|
                n <= i < nodes.len() && #[trigger] nodes[i].id.0 == id,
        forall|i: int|
            n <= i < nodes.len() ==> #[trigger] plan_steps(by_id(ex), nodes.take(n), ix).1[nodes[i].id.0]
                == (ex[i].entity, ex[i].kind),
    decreases n,
{
    lemma_by_id_spawned(ex, nodes, ex.len() as int);
    assert(ex.take(ex.len() as int) =~= ex);
    if n == 0 {
        assert(nodes.take(0).len() == 0);
        assert(Seq::new(0, |i: int| ChildStep::Update(ex[i].entity)) =~= Seq::<ChildStep>::empty());
    } else {
        lemma_plan_spawned(ex, nodes, ix, n - 1);
        let prev = plan_steps(by_id(ex), nodes.take(n - 1), ix);
        assert(nodes.take(n).drop_last() =~= nodes.take(n - 1));
        assert(nodes.take(n).last() == nodes[n - 1]);
        let node = nodes[n - 1];
        let id = node.id.0;
        assert(prev.1.dom().contains(id));
        assert(prev.1[id] == (ex[n - 1].entity, ex[n - 1].kind));
        assert(ex[n - 1].kind == Some(HtmlNodeKind { discriminant: kind_of(node.widget) }));
        let cur = plan_steps(by_id(ex), nodes.take(n), ix);
        assert(cur.0 =~= Seq::new(n as nat, |i: int| ChildStep::Update(ex[i].entity)));
        assert forall|id2: usize| cur.1.dom().contains(id2) <==> exists|i: int|
            n <= i < nodes.len() && #[trigger] nodes[i].id.0 == id2 by {
            if exists|i: int| n - 1 <= i < nodes.len() && #[trigger] nodes[i].id.0 == id2 {
                let i = choose|i: int| n - 1 <= i < nodes.len() && #[trigger] nodes[i].id.0 == id2;
                if i == n - 1 {
                    if exists|k: int| n <= k < nodes.len() && #[trigger] nodes[k].id.0 == id2 {
                        let k = choose|k: int| n <= k < nodes.len() && #[trigger] nodes[k].id.0 == id2;
                        assert(nodes[n - 1].id.0 != nodes[k].id.0);
                    }
                }
            }
            if exists|i: int| n <= i < nodes.len() && #[trigger] nodes[i].id.0 == id2 {
                let i = choose|i: int| n <= i < nodes.len() && #[trigger] nodes[i].id.0 == id2;
                assert(nodes[n - 1].id.0 != nodes[i].id.0);
            }
        }
        assert forall|i: int| n <= i < nodes.len() implies #[trigger] cur.1[nodes[i].id.0] == (
            ex[i].entity,
            ex[i].kind,
        ) by {
            assert(nodes[n - 1].id.0 != nodes[i].id.0);
        }
    }
}

/// Rebuilding a parent whose children were spawned for the very nodes it
/// gets again keeps every child: each node updates the child spawned for
/// it, in order, and no child is left to despawn.
pub proof fn law_same_nodes_keep_their_children(
    existing: Seq<ExistingChild>,
    nodes: Seq<HtmlWidgetNode>,
    index: Seq<(usize, u64, Option<HtmlNodeKind>)>,
)
    requires
        spawned_for(existing, nodes),
    ensures
        plan_steps(by_id(existing), nodes, index).0 == Seq::new(
            nodes.len(),
            |i: int| ChildStep::Update(existing[i].entity),
        ),
        plan_steps(by_id(existing), nodes, index).1.dom() == Set::<usize>::empty(),
{
    lemma_plan_spawned(existing, nodes, index, nodes.len() as int);
    assert(nodes.take(nodes.len() as int) =~= nodes);
    assert(plan_steps(by_id(existing), nodes, index).1.dom() =~= Set::<usize>::empty());
}

// ---------------------------------------------------------------------------
// The parsed trees and revealing them
// ---------------------------------------------------------------------------

/// The parsed widget trees by source name, and the names shown now.
pub struct HtmlStructureMap {
    pub html_map: KeyedMap<Vec<HtmlWidgetNode>>,
    pub active: Option<Vec<String>>,
}

impl HtmlStructureMap {
    /// No trees, nothing shown.
    pub fn new() -> (r: Self)
        ensures
            r.html_map.entries_spec() == Seq::<(Seq<char>, Seq<HtmlWidgetNode>)>::empty(),
            r.active is None,
    {
        HtmlStructureMap { html_map: KeyedMap::new(), active: None }
    }
}

impl Default for HtmlStructureMap {
    fn default() -> (r: Self)
        ensures
            r.html_map.entries_spec() == Seq::<(Seq<char>, Seq<HtmlWidgetNode>)>::empty(),
            r.active is None,
    {
        Self::new()
    }
}

/// The identifiers of the trees of the `active` names, in order, each tree
/// node before its children (`tree_ids`); a name without a tree adds none.
pub open spec fn active_ids(
    trees: Seq<(Seq<char>, Seq<HtmlWidgetNode>)>,
    active: Seq<Seq<char>>,
) -> Seq<HtmlID>
    decreases active.len(),
{
    if active.len() == 0 {
        seq![]
    } else {
        active_ids(trees, active.drop_last()) + match keyed::key_value(trees, active.last()) {
            Some(nodes) => tree::tree_ids(nodes),
            None => seq![],
        }
    }
}

/// The identifiers of every node shown now (`active_ids`); none when
/// nothing is shown.
pub fn active_html_ids(map: &HtmlStructureMap) -> (r: Vec<HtmlID>)
    ensures
        r@ == match map.active {
            Some(a) => active_ids(map.html_map.entries_spec(), a@.map_values(|s: String| s@)),
            None => seq![],
        },
{
    let mut ids: Vec<HtmlID> = Vec::new();
    match &map.active {
        None => ids,
        Some(active) => {
            let ghost av = active@.map_values(|s: String| s@);
            let mut i: usize = 0;
            while i < active.len()
                invariant
                    i <= active@.len(),
                    av == active@.map_values(|s: String| s@),
                    ids@ == active_ids(map.html_map.entries_spec(), av.take(i as int)),
                decreases active.len() - i,
            {
                assert(av.take(i + 1).drop_last() =~= av.take(i as int));
                assert(av.take(i + 1).last() == active@[i as int]@);
                let key = text::str_to_chars(active[i].as_str());
                match map.html_map.get(&key) {
                    Some(nodes) => tree::collect_html_ids(nodes, &mut ids),
                    None => {
                        assert(ids@ =~= ids@ + Seq::<HtmlID>::empty());
                    },
                }
                i = i + 1;
            }
            assert(av.take(active@.len() as int) =~= av);
            ids
        },
    }
}

/// The body children of the tree of source `active`: the children of its
/// first node when that is a body; `None` without a tree or body.
pub fn body_children_for_active<'a>(map: &'a HtmlStructureMap, active: &str) -> (r: Option<
    &'a Vec<HtmlWidgetNode>,
>)
    ensures
        match keyed::key_value(map.html_map.entries_spec(), active@) {
            Some(nodes) => if nodes.len() > 0 && nodes[0].widget is Body {
                r is Some && *r->0 == nodes[0].children
            } else {
                r is None
            },
            None => r is None,
        },
{
    let key = text::str_to_chars(active);
    match map.html_map.get(&key) {
        Some(nodes) => {
            if nodes.len() > 0 {
                match &nodes[0].widget {
                    NodeWidget::Body(_) => Some(&nodes[0].children),
                    _ => None,
                }
            } else {
                None
            }
        },
        None => None,
    }
}

/// What the reveal check reads of a spawned widget: the node identifier it
/// was spawned for, whether all its style sheets are loaded (true when it
/// has none), and whether a style has been resolved for it.
#[derive(Debug, Clone, Copy, PartialEq, Eq, Structural)]
pub struct WidgetRevealState {
    pub html_id: usize,
    pub css_loaded: bool,
    pub has_active_style: bool,
}

/// Whether `id` is among `ids`.
pub open spec fn id_listed(ids: Seq<HtmlID>, id: usize) -> bool {
    exists|i: int| 0 <= i < ids.len() && #[trigger] ids[i].0 == id
}

/// The shown widgets can be revealed: at least one widget belongs to the
/// shown trees, and each that does has its style sheets loaded and a
/// resolved style.
pub open spec fn ready_for_reveal(ids: Seq<HtmlID>, ws: Seq<WidgetRevealState>) -> bool {
    &&& exists|i: int| 0 <= i < ws.len() && id_listed(ids, #[trigger] ws[i].html_id)
    &&& forall|i: int|
        0 <= i < ws.len() && id_listed(ids, #[trigger] ws[i].html_id) ==> ws[i].css_loaded
            && ws[i].has_active_style
}

fn id_listed_exec(ids: &Vec<HtmlID>, id: usize) -> (r: bool)
    ensures
        r == id_listed(ids@, id),
{
    let mut i: usize = 0;
    while i < ids.len()
        invariant
            i <= ids@.len(),
            forall|k: int| 0 <= k < i ==> ids@[k].0 != id,
        decreases ids.len() - i,
    {
        if ids[i].0 == id {
            assert(ids@[i as int].0 == id);
            return true;
        }
        i = i + 1;
    }
    false
}

/// Whether the widgets of the shown trees (`valid_ids`) can be revealed
/// (`ready_for_reveal`).
pub fn widgets_ready_for_reveal(valid_ids: &Vec<HtmlID>, widgets: &Vec<WidgetRevealState>) -> (r:
    bool)
    ensures
        r == ready_for_reveal(valid_ids@, widgets@),
{
    let mut checked_any = false;
    let mut i: usize = 0;
    while i < widgets.len()
        invariant
            i <= widgets@.len(),
            checked_any <==> exists|k: int| 0 <= k < i && id_listed(valid_ids@, #[trigger] widgets@[k].html_id),
            forall|k: int|
                0 <= k < i && id_listed(valid_ids@, #[trigger] widgets@[k].html_id) ==> widgets@[k].css_loaded
                    && widgets@[k].has_active_style,
        decreases widgets.len() - i,
    {
        let w = widgets[i];
        if id_listed_exec(valid_ids, w.html_id) {
            checked_any = true;
            if !w.css_loaded || !w.has_active_style {
                return false;
            }
        }
        i = i + 1;
    }
    checked_any
}

/// Carries a node's `readonly` and `disabled` states over to its widget's
/// state; the other flags stay as they are.
pub fn update_widget_state_from_html(state: &mut UIWidgetState, states: &HtmlStates)
    ensures
        final(state).readonly == states.readonly,
        final(state).disabled == states.disabled,
        final(state).focused == old(state).focused,
        final(state).hovered == old(state).hovered,
        final(state).checked == old(state).checked,
        final(state).open == old(state).open,
        final(state).invalid == old(state).invalid,
{
    if state.readonly != states.readonly {
        state.readonly = states.readonly;
    }
    if state.disabled != states.disabled {
        state.disabled = states.disabled;
    }
}

} // verus!
