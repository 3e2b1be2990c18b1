//! Reusable widget identifiers and the registry of named HTML sources with
//! the list of sources currently in use.
use vstd::prelude::*;
use std::collections::VecDeque;
use crate::text;
use crate::keyed;
use crate::keyed::KeyedMap;

verus! {

// ---------------------------------------------------------------------------
// Identifier pools
// ---------------------------------------------------------------------------

/// Hands out integer identifiers, reusing released ones first, oldest
/// release first.
pub struct IdPool {
    counter: usize,
    free_list: VecDeque<usize>,
}

/// State of an [`IdPool`]: the next fresh identifier and the released
/// identifiers waiting for reuse, oldest first.
pub struct PoolV {
    pub next: nat,
    pub free: Seq<usize>,
}

/// The pool after `acquire`, and the identifier handed out: the oldest
/// released one if there is one, else the next fresh one.
pub open spec fn acquire_spec(p: PoolV) -> (PoolV, nat) {
    if p.free.len() > 0 {
        (PoolV { next: p.next, free: p.free.drop_first() }, p.free[0] as nat)
    } else {
        (PoolV { next: p.next + 1, free: p.free }, p.next)
    }
}

/// Whether the pool can hand out an identifier: one was released, or a
/// fresh one fits in `usize`.
pub open spec fn can_acquire(p: PoolV) -> bool {
    p.free.len() > 0 || p.next < usize::MAX
}

/// The pool after `release(id)`: `id` queued for reuse.
pub open spec fn release_spec(p: PoolV, id: usize) -> PoolV {
    PoolV { next: p.next, free: p.free.push(id) }
}

impl IdPool {
    /// The state of the pool.
    pub closed spec fn view_pool(&self) -> PoolV {
        PoolV { next: self.counter as nat, free: self.free_list@ }
    }

    /// An empty pool: nothing released, `0` next.
    pub fn new() -> (r: Self)
        ensures
            r.view_pool() == (PoolV { next: 0, free: Seq::empty() }),
    {
        IdPool { counter: 0, free_list: VecDeque::new() }
    }

    /// Whether `acquire` can hand out an identifier now (`can_acquire`).
    pub fn has_room(&self) -> (r: bool)
        ensures
            r == can_acquire(self.view_pool()),
    {
        self.free_list.len() > 0 || self.counter < usize::MAX
    }

    /// Hands out an identifier (`acquire_spec`). A fresh identifier must fit
    /// in `usize`.
    pub fn acquire(&mut self) -> (id: usize)
        requires
            can_acquire(old(self).view_pool()),
        ensures
            (final(self).view_pool(), id as nat) == acquire_spec(old(self).view_pool()),
    {
        match self.free_list.pop_front() {
            Some(id) => {
                assert(self.free_list@ =~= old(self).free_list@.drop_first());
                id
            },
            None => {
                let id = self.counter;
                self.counter = self.counter + 1;
                id
            },
        }
    }

    /// The next fresh identifier.
    pub fn next_fresh(&self) -> (r: usize)
        ensures
            r == self.view_pool().next,
    {
        self.counter
    }

    /// Queues `id` for reuse (`release_spec`).
    pub fn release(&mut self, id: usize)
        ensures
            final(self).view_pool() == release_spec(old(self).view_pool(), id),
    {
        self.free_list.push_back(id);
    }
}

/// Released identifiers come back in the order they were released: after
/// releasing `a` and then `b` into a pool with nothing queued, the next two
/// acquisitions return `a`, then `b`.
pub proof fn law_release_order(p: PoolV, a: usize, b: usize)
    requires
        p.free.len() == 0,
    ensures
        ({
            let q = release_spec(release_spec(p, a), b);
            let (q1, x) = acquire_spec(q);
            let (q2, y) = acquire_spec(q1);
            x == a && y == b && q2.free.len() == 0 && q2.next == p.next
        }),
{
    let q = release_spec(release_spec(p, a), b);
    assert(q.free =~= seq![a, b]);
    assert(q.free.drop_first() =~= seq![b]);
    assert(q.free.drop_first().drop_first() =~= Seq::<usize>::empty());
}

/// Without releases, identifiers are never handed out twice: acquiring
/// from a pool with nothing queued gives its next identifier and moves past
/// it, so two acquisitions give different identifiers.
pub proof fn law_fresh_distinct(p: PoolV)
    requires
        p.free.len() == 0,
    ensures
        ({
            let (q1, x) = acquire_spec(p);
            let (q2, y) = acquire_spec(q1);
            x == p.next && y == p.next + 1 && x != y && q2.next == p.next + 2
        }),
{
}

/// A released identifier is handed out again before any fresh one: after
/// `release(id)` on a pool with nothing queued, `acquire` returns `id` and
/// leaves the next fresh identifier unchanged.
pub proof fn law_release_then_acquire(p: PoolV, id: usize)
    requires
        p.free.len() == 0,
    ensures
        acquire_spec(release_spec(p, id)).1 == id,
        acquire_spec(release_spec(p, id)).0 == p,
{
    assert(release_spec(p, id).free =~= seq![id]);
    assert(release_spec(p, id).free.drop_first() =~= p.free);
}

// ---------------------------------------------------------------------------
// HTML sources
// ---------------------------------------------------------------------------

/// An HTML source: the asset path of its file (when it has one), the name it
/// is registered under, and the controller bound to it.
pub struct HtmlSource {
    pub asset_path: Option<String>,
    pub source_id: String,
    pub controller: Option<String>,
}

/// Mathematical view of an [`HtmlSource`].
pub struct SourceV {
    pub asset_path: Option<Seq<char>>,
    pub source_id: Seq<char>,
    pub controller: Option<Seq<char>>,
}

impl View for HtmlSource {
    type V = SourceV;

    open spec fn view(&self) -> SourceV {
        SourceV {
            asset_path: match &self.asset_path {
                Some(p) => Some(p@),
                None => None,
            },
            source_id: self.source_id@,
            controller: match &self.controller {
                Some(c) => Some(c@),
                None => None,
            },
        }
    }
}

/// `s` with every backslash turned into a slash.
pub open spec fn forward_slashes(s: Seq<char>) -> Seq<char> {
    s.map_values(
        |c: char|
            if c == '\\' {
                '/'
            } else {
                c
            },
    )
}

/// `s` with every backslash turned into a slash (`forward_slashes`).
pub fn forward_slashes_exec(s: &Vec<char>) -> (r: Vec<char>)
    ensures
        r@ == forward_slashes(s@),
{
    let mut out: Vec<char> = Vec::new();
    let mut i: usize = 0;
    while i < s.len()
        invariant
            i <= s.len(),
            out@ == forward_slashes(s@).take(i as int),
        decreases s.len() - i,
    {
        let c = s[i];
        out.push(
            if c == '\\' {
                '/'
            } else {
                c
            },
        );
        assert(out@ =~= forward_slashes(s@).take(i + 1));
        i = i + 1;
    }
    assert(out@ =~= forward_slashes(s@));
    out
}

impl HtmlSource {
    /// A source for the asset at `asset_path` (the path of the asset handle,
    /// if it has one), not yet registered under a name.
    pub fn from_handle(asset_path: Option<String>) -> (r: Self)
        ensures
            r@.asset_path == (match asset_path {
                Some(p) => Some(p@),
                None => None::<Seq<char>>,
            }),
            r@.source_id == Seq::<char>::empty(),
            r@.controller is None,
    {
        let id = String::new();
        assert(id@ =~= Seq::<char>::empty());
        HtmlSource { asset_path, source_id: id, controller: None }
    }

    /// The asset path with forward slashes; empty without a path.
    pub fn get_source_path(&self) -> (r: String)
        ensures
            r@ == (match self@.asset_path {
                Some(p) => forward_slashes(p),
                None => Seq::<char>::empty(),
            }),
    {
        match &self.asset_path {
            Some(p) => {
                let c = text::str_to_chars(p.as_str());
                let f = forward_slashes_exec(&c);
                text::chars_to_string(&f)
            },
            None => {
                let e = String::new();
                assert(e@ =~= Seq::<char>::empty());
                e
            },
        }
    }

    /// A copy of the source registered under `name`.
    pub fn renamed(&self, name: &str) -> (r: Self)
        ensures
            r@ == (SourceV { source_id: name@, ..self@ }),
    {
        let asset_path = match &self.asset_path {
            Some(p) => Some(String::from_str(p.as_str())),
            None => None,
        };
        let controller = match &self.controller {
            Some(c) => Some(String::from_str(c.as_str())),
            None => None,
        };
        HtmlSource { asset_path, source_id: String::from_str(name), controller }
    }
}

// ---------------------------------------------------------------------------
// The registry
// ---------------------------------------------------------------------------

/// Named HTML sources, the names of those in use, and whether the UI has to
/// be rebuilt.
pub struct UiRegistry {
    pub collection: KeyedMap<HtmlSource>,
    pub current: Option<Vec<String>>,
    pub ui_update: bool,
}

/// View of the names in use.
pub open spec fn current_view(c: Option<Vec<String>>) -> Option<Seq<Seq<char>>> {
    match c {
        Some(v) => Some(Seq::new(v@.len(), |i: int| v@[i]@)),
        None => None,
    }
}

/// The names among `names` that are registered, in order.
pub open spec fn registered_names(
    coll: Seq<(Seq<char>, SourceV)>,
    names: Seq<Seq<char>>,
) -> Seq<Seq<char>>
    decreases names.len(),
{
    if names.len() == 0 {
        seq![]
    } else {
        let rest = registered_names(coll, names.drop_last());
        if keyed::key_index(coll, names.last()) is Some {
            rest.push(names.last())
        } else {
            rest
        }
    }
}

/// `list` without the entries equal to `name`, in order.
pub open spec fn drop_name(list: Seq<Seq<char>>, name: Seq<char>) -> Seq<Seq<char>>
    decreases list.len(),
{
    if list.len() == 0 {
        seq![]
    } else {
        let rest = drop_name(list.drop_last(), name);
        if list.last() == name {
            rest
        } else {
            rest.push(list.last())
        }
    }
}

/// The names in use after `name` is removed: the others, in order; `None`
/// when none is left.
pub open spec fn current_without(cur: Option<Seq<Seq<char>>>, name: Seq<char>) -> Option<
    Seq<Seq<char>>,
> {
    match cur {
        Some(list) => {
            let kept = drop_name(list, name);
            if kept.len() == 0 {
                None
            } else {
                Some(kept)
            }
        },
        None => None,
    }
}

/// Each `(name, source)` registered in turn, its `source_id` set to its
/// name.
pub open spec fn add_all(
    coll: Seq<(Seq<char>, SourceV)>,
    entries: Seq<(Seq<char>, SourceV)>,
) -> Seq<(Seq<char>, SourceV)>
    decreases entries.len(),
{
    if entries.len() == 0 {
        coll
    } else {
        let c = add_all(coll, entries.drop_last());
        let (name, src) = entries.last();
        keyed::sorted_insert(c, name, SourceV { source_id: name, ..src })
    }
}

impl UiRegistry {
    /// An empty registry.
    pub fn new() -> (r: Self)
        ensures
            r.collection.entries_spec() == Seq::<(Seq<char>, SourceV)>::empty(),
            r.current is None,
            !r.ui_update,
    {
        UiRegistry { collection: KeyedMap::new(), current: None, ui_update: false }
    }

    /// Registers `source` under `name` (its `source_id` becomes `name`),
    /// replacing a source of that name.
    pub fn add(&mut self, name: String, source: HtmlSource)
        ensures
            final(self).collection.entries_spec() == keyed::sorted_insert(
                old(self).collection.entries_spec(),
                name@,
                SourceV { source_id: name@, ..source@ },
            ),
            final(self).current == old(self).current,
            final(self).ui_update == old(self).ui_update,
    {
        let src = HtmlSource {
            asset_path: source.asset_path,
            source_id: String::from_str(name.as_str()),
            controller: source.controller,
        };
        self.collection.insert(name.as_str(), src);
    }

    /// The source registered under `name`.
    pub fn get(&self, name: &str) -> (r: Option<&HtmlSource>)
        ensures
            match keyed::key_value(self.collection.entries_spec(), name@) {
                Some(v) => r is Some && r->0@ == v,
                None => r is None,
            },
    {
        let key = text::str_to_chars(name);
        self.collection.get(&key)
    }

    /// Uses the source `name` alone if it is registered (and asks for a
    /// rebuild); otherwise nothing is in use.
    pub fn use_ui(&mut self, name: &str)
        ensures
            keyed::key_index(old(self).collection.entries_spec(), name@) is Some ==> current_view(
                final(self).current,
            ) == Some(seq![name@]) && final(self).ui_update,
            keyed::key_index(old(self).collection.entries_spec(), name@) is None ==> final(self).current is None && final(self).ui_update == old(self).ui_update,
            final(self).collection.entries_spec() == old(self).collection.entries_spec(),
    {
        let key = text::str_to_chars(name);
        proof {
            keyed::lemma_key_index_from(self.collection.entries_spec(), key@, 0);
        }
        if self.collection.find(&key).is_some() {
            let mut v: Vec<String> = Vec::new();
            v.push(String::from_str(name));
            assert(Seq::new(v@.len(), |i: int| v@[i]@) =~= seq![name@]);
            self.current = Some(v);
            self.ui_update = true;
        } else {
            self.current = None;
        }
    }

    /// Uses the registered names among `names`, in order (nothing when none
    /// is registered), and asks for a rebuild.
    pub fn use_uis(&mut self, names: Vec<String>)
        ensures
            current_view(final(self).current) == (if registered_names(
                old(self).collection.entries_spec(),
                Seq::new(names@.len(), |i: int| names@[i]@),
            ).len() == 0 {
                None
            } else {
                Some(
                    registered_names(
                        old(self).collection.entries_spec(),
                        Seq::new(names@.len(), |i: int| names@[i]@),
                    ),
                )
            }),
            final(self).ui_update,
            final(self).collection.entries_spec() == old(self).collection.entries_spec(),
    {
        let ghost nv = Seq::new(names@.len(), |i: int| names@[i]@);
        let ghost coll = self.collection.entries_spec();
        let mut valid: Vec<String> = Vec::new();
        let mut i: usize = 0;
        while i < names.len()
            invariant
                i <= names.len(),
                nv == Seq::new(names@.len(), |i: int| names@[i]@),
                coll == self.collection.entries_spec(),
                Seq::new(valid@.len(), |k: int| valid@[k]@) == registered_names(
                    coll,
                    nv.take(i as int),
                ),
            decreases names.len() - i,
        {
            assert(nv.take(i + 1).drop_last() =~= nv.take(i as int));
            assert(nv.take(i + 1).last() == names@[i as int]@);
            let key = text::str_to_chars(names[i].as_str());
            if self.collection.find(&key).is_some() {
                let ghost prev = Seq::new(valid@.len(), |k: int| valid@[k]@);
                valid.push(String::from_str(names[i].as_str()));
                assert(Seq::new(valid@.len(), |k: int| valid@[k]@) =~= prev.push(key@));
            }
            i = i + 1;
        }
        assert(nv.take(names.len() as int) =~= nv);
        if valid.len() == 0 {
            self.current = None;
        } else {
            self.current = Some(valid);
        }
        self.ui_update = true;
    }

    /// Registers `source` under `name` and uses it alone.
    pub fn add_and_use(&mut self, name: String, source: HtmlSource)
        ensures
            final(self).collection.entries_spec() == keyed::sorted_insert(
                old(self).collection.entries_spec(),
                name@,
                SourceV { source_id: name@, ..source@ },
            ),
            current_view(final(self).current) == Some(seq![name@]),
            final(self).ui_update,
    {
        let n2 = String::from_str(name.as_str());
        // establishes that the registered names are sorted
        let _count = self.collection.len();
        self.add(name, source);
        proof {
            keyed::lemma_insert_then_get(
                old(self).collection.entries_spec(),
                n2@,
                SourceV { source_id: n2@, ..source@ },
            );
            keyed::lemma_key_index_from(self.collection.entries_spec(), n2@, 0);
        }
        self.use_ui(n2.as_str());
    }

    /// Registers each `(name, source)` in turn, then uses the registered
    /// names among them (`use_uis`).
    pub fn add_and_use_multiple(&mut self, entries: Vec<(String, HtmlSource)>)
        ensures
            final(self).collection.entries_spec() == add_all(
                old(self).collection.entries_spec(),
                Seq::new(entries@.len(), |i: int| (entries@[i].0@, entries@[i].1@)),
            ),
            current_view(final(self).current) == (if registered_names(
                final(self).collection.entries_spec(),
                Seq::new(entries@.len(), |i: int| entries@[i].0@),
            ).len() == 0 {
                None
            } else {
                Some(
                    registered_names(
                        final(self).collection.entries_spec(),
                        Seq::new(entries@.len(), |i: int| entries@[i].0@),
                    ),
                )
            }),
            final(self).ui_update,
    {
        let ghost ev = Seq::new(entries@.len(), |i: int| (entries@[i].0@, entries@[i].1@));
        let ghost nv = Seq::new(entries@.len(), |i: int| entries@[i].0@);
        let ghost c0 = self.collection.entries_spec();
        let mut names: Vec<String> = Vec::new();
        let mut i: usize = 0;
        while i < entries.len()
            invariant
                i <= entries.len(),
                ev == Seq::new(entries@.len(), |i: int| (entries@[i].0@, entries@[i].1@)),
                nv == Seq::new(entries@.len(), |i: int| entries@[i].0@),
                self.collection.entries_spec() == add_all(c0, ev.take(i as int)),
                Seq::new(names@.len(), |k: int| names@[k]@) == nv.take(i as int),
            decreases entries.len() - i,
        {
            assert(ev.take(i + 1).drop_last() =~= ev.take(i as int));
            assert(ev.take(i + 1).last() == (entries@[i as int].0@, entries@[i as int].1@));
            let name = String::from_str(entries[i].0.as_str());
            let src = entries[i].1.renamed(entries[i].0.as_str());
            self.collection.insert(name.as_str(), src);
            let ghost prev = Seq::new(names@.len(), |k: int| names@[k]@);
            assert(name@ == nv[i as int]);
            names.push(name);
            assert(Seq::new(names@.len(), |k: int| names@[k]@) =~= prev.push(nv[i as int]));
            assert(nv.take(i + 1) =~= nv.take(i as int).push(nv[i as int]));
            i = i + 1;
        }
        assert(ev.take(entries.len() as int) =~= ev);
        assert(nv.take(entries.len() as int) =~= nv);
        self.use_uis(names);
    }

    /// Removes the source `name` and takes it out of the names in use.
    pub fn remove(&mut self, name: &str)
        ensures
            final(self).collection.entries_spec() == keyed::remove_key(
                old(self).collection.entries_spec(),
                name@,
            ),
            current_view(final(self).current) == current_without(
                current_view(old(self).current),
                name@,
            ),
            final(self).ui_update == old(self).ui_update,
    {
        match &self.current {
            Some(list) => {
                let ghost lv = Seq::new(list@.len(), |i: int| list@[i]@);
                let mut kept: Vec<String> = Vec::new();
                let mut i: usize = 0;
                while i < list.len()
                    invariant
                        i <= list.len(),
                        lv == Seq::new(list@.len(), |i: int| list@[i]@),
                        Seq::new(kept@.len(), |k: int| kept@[k]@) == drop_name(
                            lv.take(i as int),
                            name@,
                        ),
                    decreases list.len() - i,
                {
                    assert(lv.take(i + 1).drop_last() =~= lv.take(i as int));
                    assert(lv.take(i + 1).last() == list@[i as int]@);
                    let item = text::str_to_chars(list[i].as_str());
                    let same = text::chars_eq_str(&item, name);
                    if !same {
                        let ghost prev = Seq::new(kept@.len(), |k: int| kept@[k]@);
                        kept.push(String::from_str(list[i].as_str()));
                        assert(Seq::new(kept@.len(), |k: int| kept@[k]@) =~= prev.push(lv[i as int]));
                    }
                    i = i + 1;
                }
                assert(lv.take(list.len() as int) =~= lv);
                if kept.len() == 0 {
                    self.current = None;
                } else {
                    self.current = Some(kept);
                }
            },
            None => {},
        }
        let key = text::str_to_chars(name);
        self.collection.remove(&key);
    }

    /// Removes the source `name`, then uses `to_switch` alone (`use_ui`).
    pub fn remove_and_use(&mut self, name: &str, to_switch: &str)
        ensures
            final(self).collection.entries_spec() == keyed::remove_key(
                old(self).collection.entries_spec(),
                name@,
            ),
            keyed::key_index(final(self).collection.entries_spec(), to_switch@) is Some
                ==> current_view(final(self).current) == Some(seq![to_switch@])
                && final(self).ui_update,
            keyed::key_index(final(self).collection.entries_spec(), to_switch@) is None
                ==> final(self).current is None && final(self).ui_update == old(self).ui_update,
    {
        self.remove(name);
        self.use_ui(to_switch);
    }

    /// Removes every source; nothing is in use.
    pub fn remove_all(&mut self)
        ensures
            final(self).collection.entries_spec() == Seq::<(Seq<char>, SourceV)>::empty(),
            final(self).current is None,
            final(self).ui_update == old(self).ui_update,
    {
        self.collection.clear();
        self.current = None;
    }
}


/// A source registered under a name is what a lookup of that name gives
/// back (with its `source_id` set to the name); other names look up as
/// before.
pub proof fn law_add_then_get(coll: Seq<(Seq<char>, SourceV)>, name: Seq<char>, src: SourceV)
    requires
        keyed::keys_sorted(coll),
    ensures
        keyed::key_value(
            keyed::sorted_insert(coll, name, SourceV { source_id: name, ..src }),
            name,
        ) == Some(SourceV { source_id: name, ..src }),
        forall|other: Seq<char>|
            other != name ==> keyed::key_value(
                keyed::sorted_insert(coll, name, SourceV { source_id: name, ..src }),
                other,
            ) == keyed::key_value(coll, other),
{
    keyed::lemma_insert_then_get(coll, name, SourceV { source_id: name, ..src });
}

/// A removed name is neither registered nor in use any more; other names
/// look up as before.
pub proof fn law_remove(
    coll: Seq<(Seq<char>, SourceV)>,
    cur: Option<Seq<Seq<char>>>,
    name: Seq<char>,
)
    requires
        keyed::keys_sorted(coll),
    ensures
        keyed::key_value(keyed::remove_key(coll, name), name) is None,
        forall|other: Seq<char>|
            other != name ==> keyed::key_value(keyed::remove_key(coll, name), other)
                == keyed::key_value(coll, other),
        match current_without(cur, name) {
            Some(list) => !list.contains(name) && list.len() > 0,
            None => true,
        },
{
    keyed::lemma_remove_then_get(coll, name);
    match cur {
        Some(list) => lemma_drop_name(list, name),
        None => {},
    }
}

proof fn lemma_drop_name(list: Seq<Seq<char>>, name: Seq<char>)
    ensures
        !drop_name(list, name).contains(name),
    decreases list.len(),
{
    if list.len() > 0 {
        lemma_drop_name(list.drop_last(), name);
        let rest = drop_name(list.drop_last(), name);
        if list.last() != name {
            assert forall|i: int| 0 <= i < rest.push(list.last()).len() implies #[trigger] rest.push(
                list.last(),
            )[i] != name by {
                if i < rest.len() {
                    assert(rest.push(list.last())[i] == rest[i]);
                }
            }
        }
    }
}

// ---------------------------------------------------------------------------
// Bringing the sources in use on screen
// ---------------------------------------------------------------------------

/// What the UI queue does with what is on screen: which source entities to
/// despawn, which bodies to despawn or hide (by position), and which
/// sources to spawn, by name in order.
pub struct QueuePlan {
    pub despawn_sources: Vec<bool>,
    pub despawn_bodies: Vec<bool>,
    pub hide_bodies: Vec<bool>,
    pub spawn: Vec<String>,
}

/// View of a list of names.
pub open spec fn names_view(v: Seq<String>) -> Seq<Seq<char>> {
    Seq::new(v.len(), |i: int| v[i]@)
}

/// View of a list of optional names.
pub open spec fn opt_names_view(v: Seq<Option<String>>) -> Seq<Option<Seq<char>>> {
    Seq::new(
        v.len(),
        |i: int|
            match v[i] {
                Some(s) => Some(s@),
                None => None,
            },
    )
}

/// Whether a source on screen is dropped: nothing is in use, or it is not.
pub open spec fn source_dropped(active: Option<Seq<Seq<char>>>, src: Seq<char>) -> bool {
    match active {
        None => true,
        Some(a) => !a.contains(src),
    }
}

/// Whether a source on screen is despawned: it is dropped, or it is in use
/// and a rebuild was asked for.
pub open spec fn source_despawned(active: Option<Seq<Seq<char>>>, update: bool, src: Seq<char>) -> bool {
    source_dropped(active, src) || (update && active is Some)
}

/// Whether a body is despawned: a rebuild was asked for and the source it
/// is bound to is in use.
pub open spec fn body_despawned(active: Option<Seq<Seq<char>>>, update: bool, key: Option<Seq<char>>) -> bool {
    match (active, key) {
        (Some(a), Some(k)) => update && a.contains(k),
        _ => false,
    }
}

/// Whether a body is hidden: it is bound to a dropped source on screen.
pub open spec fn body_hidden(
    active: Option<Seq<Seq<char>>>,
    sources: Seq<Seq<char>>,
    key: Option<Seq<char>>,
) -> bool {
    exists|i: int|
        0 <= i < sources.len() && source_dropped(active, #[trigger] sources[i]) && key == Some(
            sources[i],
        )
}

/// The sources to spawn: each name in use, in order, that is registered
/// and not already on screen (everything counts as not on screen when a
/// rebuild was asked for).
pub open spec fn names_to_spawn(
    coll: Seq<(Seq<char>, SourceV)>,
    active: Seq<Seq<char>>,
    sources: Seq<Seq<char>>,
    update: bool,
) -> Seq<Seq<char>>
    decreases active.len(),
{
    if active.len() == 0 {
        seq![]
    } else {
        let rest = names_to_spawn(coll, active.drop_last(), sources, update);
        let n = active.last();
        if (update || !sources.contains(n)) && keyed::key_index(coll, n) is Some {
            rest.push(n)
        } else {
            rest
        }
    }
}

/// Whether `name` is among `names`.
fn contains_name(names: &Vec<String>, name: &str) -> (r: bool)
    ensures
        r == names_view(names@).contains(name@),
{
    let target = text::str_to_chars(name);
    let mut i: usize = 0;
    while i < names.len()
        invariant
            i <= names@.len(),
            target@ == name@,
            forall|k: int| 0 <= k < i ==> names@[k]@ != name@,
        decreases names.len() - i,
    {
        let c = text::str_to_chars(names[i].as_str());
        if text::chars_eq(&c, &target) {
            assert(names_view(names@)[i as int] == name@);
            return true;
        }
        i = i + 1;
    }
    assert forall|k: int| 0 <= k < names_view(names@).len() implies names_view(names@)[k] != name@ by {
        assert(names@[k]@ != name@);
    }
    false
}

impl UiRegistry {
    /// Plans bringing the sources in use on screen, given the source ids of
    /// the source entities on screen and the keys of the bodies on screen,
    /// and clears the rebuild request. Nothing in use: every source entity
    /// goes, with its bodies hidden. Otherwise, on a rebuild, bodies and
    /// source entities of the sources in use go; each name in use that is
    /// registered and not on screen is spawned; source entities of sources
    /// no longer in use go, with their bodies hidden.
    pub fn update_que(&mut self, sources: &Vec<String>, bodies: &Vec<Option<String>>) -> (r:
        QueuePlan)
        ensures
            ({
                let active = current_view(old(self).current);
                let update = old(self).ui_update;
                let srcs = names_view(sources@);
                let keys = opt_names_view(bodies@);
                &&& r.despawn_sources@.len() == srcs.len()
                &&& forall|i: int|
                    0 <= i < srcs.len() ==> r.despawn_sources@[i] == source_despawned(
                        active,
                        update,
                        #[trigger] srcs[i],
                    )
                &&& r.despawn_bodies@.len() == keys.len()
                &&& r.hide_bodies@.len() == keys.len()
                &&& forall|j: int|
                    0 <= j < keys.len() ==> r.despawn_bodies@[j] == body_despawned(
                        active,
                        update,
                        #[trigger] keys[j],
                    ) && r.hide_bodies@[j] == body_hidden(active, srcs, keys[j])
                &&& names_view(r.spawn@) == match active {
                    Some(a) => names_to_spawn(old(self).collection.entries_spec(), a, srcs, update),
                    None => Seq::<Seq<char>>::empty(),
                }
            }),
            final(self).collection.entries_spec() == old(self).collection.entries_spec(),
            final(self).current == old(self).current,
            !final(self).ui_update,
    {
        let ghost active = current_view(self.current);
        let ghost srcs = names_view(sources@);
        let ghost keys = opt_names_view(bodies@);
        let update = self.ui_update;
        let mut despawn_sources: Vec<bool> = Vec::new();
        let mut dropped: Vec<bool> = Vec::new();
        let mut i: usize = 0;
        while i < sources.len()
            invariant
                i <= sources@.len(),
                active == current_view(self.current),
                srcs == names_view(sources@),
                update == self.ui_update,
                despawn_sources@.len() == i,
                dropped@.len() == i,
                forall|k: int|
                    0 <= k < i ==> despawn_sources@[k] == source_despawned(
                        active,
                        update,
                        #[trigger] srcs[k],
                    ) && dropped@[k] == source_dropped(active, srcs[k]),
            decreases sources.len() - i,
        {
            let d = match &self.current {
                None => true,
                Some(a) => !contains_name(a, sources[i].as_str()),
            };
            proof {
                if self.current is Some {
                    assert(names_view(self.current->0@) == active->0);
                }
            }
            dropped.push(d);
            despawn_sources.push(d || (update && self.current.is_some()));
            i = i + 1;
        }
        let mut despawn_bodies: Vec<bool> = Vec::new();
        let mut hide_bodies: Vec<bool> = Vec::new();
        let mut j: usize = 0;
        while j < bodies.len()
            invariant
                j <= bodies@.len(),
                active == current_view(self.current),
                srcs == names_view(sources@),
                keys == opt_names_view(bodies@),
                update == self.ui_update,
                dropped@.len() == srcs.len(),
                forall|k: int| 0 <= k < srcs.len() ==> dropped@[k] == source_dropped(active, #[trigger] srcs[k]),
                despawn_bodies@.len() == j,
                hide_bodies@.len() == j,
                forall|k: int|
                    0 <= k < j ==> despawn_bodies@[k] == body_despawned(
                        active,
                        update,
                        #[trigger] keys[k],
                    ) && hide_bodies@[k] == body_hidden(active, srcs, keys[k]),
            decreases bodies.len() - j,
        {
            let (despawn, hidden) = match &bodies[j] {
                Some(key) => {
                    let despawn = match &self.current {
                        Some(a) => update && contains_name(a, key.as_str()),
                        None => false,
                    };
                    proof {
                        if self.current is Some {
                            assert(names_view(self.current->0@) == active->0);
                        }
                    }
                    let kc = text::str_to_chars(key.as_str());
                    let mut hidden = false;
                    let mut m: usize = 0;
                    while m < sources.len()
                        invariant
                            m <= sources@.len(),
                            srcs == names_view(sources@),
                            kc@ == key@,
                            dropped@.len() == srcs.len(),
                            forall|k: int|
                                0 <= k < srcs.len() ==> dropped@[k] == source_dropped(
                                    active,
                                    #[trigger] srcs[k],
                                ),
                            hidden == exists|k: int|
                                0 <= k < m && source_dropped(active, #[trigger] srcs[k]) && Some(
                                    key@,
                                ) == Some(srcs[k]),
                        decreases sources.len() - m,
                    {
                        let sc = text::str_to_chars(sources[m].as_str());
                        if dropped[m] && text::chars_eq(&sc, &kc) {
                            hidden = true;
                        }
                        proof {
                            if hidden && !(exists|k: int|
                                0 <= k < m && source_dropped(active, #[trigger] srcs[k]) && Some(
                                    key@,
                                ) == Some(srcs[k])) {
                                assert(source_dropped(active, srcs[m as int]) && Some(key@) == Some(
                                    srcs[m as int],
                                ));
                            }
                        }
                        m = m + 1;
                    }
                    (despawn, hidden)
                },
                None => (false, false),
            };
            despawn_bodies.push(despawn);
            hide_bodies.push(hidden);
            j = j + 1;
        }
        let mut spawn: Vec<String> = Vec::new();
        match &self.current {
            Some(a) => {
                let ghost av = names_view(a@);
                let mut k: usize = 0;
                while k < a.len()
                    invariant
                        k <= a@.len(),
                        av == names_view(a@),
                        srcs == names_view(sources@),
                        names_view(spawn@) == names_to_spawn(
                            self.collection.entries_spec(),
                            av.take(k as int),
                            srcs,
                            update,
                        ),
                    decreases a.len() - k,
                {
                    assert(av.take(k + 1).drop_last() =~= av.take(k as int));
                    let name = a[k].as_str();
                    let fresh = update || !contains_name(sources, name);
                    let known = self.get(name).is_some();
                    if fresh && known {
                        let ghost before = names_view(spawn@);
                        spawn.push(String::from_str(name));
                        assert(names_view(spawn@) =~= before.push(name@));
                    }
                    k = k + 1;
                }
                assert(av.take(a@.len() as int) =~= av);
            },
            None => {
                assert(names_view(spawn@) =~= Seq::<Seq<char>>::empty());
            },
        }
        self.ui_update = false;
        QueuePlan { despawn_sources, despawn_bodies, hide_bodies, spawn }
    }
}

} // verus!
