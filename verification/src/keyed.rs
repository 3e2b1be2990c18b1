//! Maps keyed by strings whose entries are kept in increasing key order
//! (the order `str::cmp` gives: code point by code point).
use vstd::prelude::*;
use crate::text;

verus! {

/// `a` sorts strictly before `b` (lexicographic by code point).
pub open spec fn seq_lt(a: Seq<char>, b: Seq<char>) -> bool
    decreases a.len(),
{
    if a.len() == 0 {
        b.len() > 0
    } else if b.len() == 0 {
        false
    } else if a[0] != b[0] {
        (a[0] as int) < (b[0] as int)
    } else {
        seq_lt(a.drop_first(), b.drop_first())
    }
}

/// No key sorts before itself.
pub proof fn lemma_lt_irreflexive(a: Seq<char>)
    ensures
        !seq_lt(a, a),
    decreases a.len(),
{
    if a.len() > 0 {
        lemma_lt_irreflexive(a.drop_first());
    }
}

/// Key order is transitive.
pub proof fn lemma_lt_transitive(a: Seq<char>, b: Seq<char>, c: Seq<char>)
    requires
        seq_lt(a, b),
        seq_lt(b, c),
    ensures
        seq_lt(a, c),
    decreases a.len(),
{
    if a.len() > 0 && b.len() > 0 && c.len() > 0 {
        if a[0] == b[0] && b[0] == c[0] {
            lemma_lt_transitive(a.drop_first(), b.drop_first(), c.drop_first());
        }
    }
}

/// Of two different keys, one sorts before the other.
pub proof fn lemma_lt_total(a: Seq<char>, b: Seq<char>)
    requires
        a != b,
    ensures
        seq_lt(a, b) || seq_lt(b, a),
    decreases a.len(),
{
    if a.len() == 0 {
        assert(b.len() > 0) by {
            if b.len() == 0 {
                assert(a =~= b);
            }
        }
    } else if b.len() > 0 && a[0] == b[0] {
        if a.drop_first() == b.drop_first() {
            assert(a =~= seq![a[0]] + a.drop_first());
            assert(b =~= seq![b[0]] + b.drop_first());
        }
        lemma_lt_total(a.drop_first(), b.drop_first());
    } else if b.len() > 0 {
        assert((a[0] as int) != (b[0] as int));
    }
}

/// Whether `a` sorts strictly before `b` (`seq_lt`).
pub fn chars_lt(a: &Vec<char>, b: &Vec<char>) -> (r: bool)
    ensures
        r == seq_lt(a@, b@),
{
    let mut i: usize = 0;
    assert(a@.skip(0) =~= a@ && b@.skip(0) =~= b@);
    while i < a.len() && i < b.len() && a[i] == b[i]
        invariant
            i <= a.len(),
            i <= b.len(),
            seq_lt(a@, b@) == seq_lt(a@.skip(i as int), b@.skip(i as int)),
        decreases a.len() - i,
    {
        assert(a@.skip(i as int).drop_first() =~= a@.skip(i + 1));
        assert(b@.skip(i as int).drop_first() =~= b@.skip(i + 1));
        i = i + 1;
    }
    if i == a.len() {
        i < b.len()
    } else if i == b.len() {
        false
    } else {
        a[i] < b[i]
    }
}

/// Keys strictly increasing.
pub open spec fn keys_sorted<V>(s: Seq<(Seq<char>, V)>) -> bool {
    forall|i: int, j: int| 0 <= i < j < s.len() ==> seq_lt(#[trigger] s[i].0, #[trigger] s[j].0)
}

/// Index of the first entry at or after `i` whose key is `key`.
pub open spec fn key_index_from<V>(s: Seq<(Seq<char>, V)>, key: Seq<char>, i: int) -> Option<int>
    decreases s.len() - i,
{
    if i < 0 || i >= s.len() {
        None
    } else if s[i].0 == key {
        Some(i)
    } else {
        key_index_from(s, key, i + 1)
    }
}

/// Index of the entry whose key is `key` (the first one, should there be
/// several).
pub open spec fn key_index<V>(s: Seq<(Seq<char>, V)>, key: Seq<char>) -> Option<int> {
    key_index_from(s, key, 0)
}

/// An index found by `key_index_from` holds `key`, at or after `i`.
pub proof fn lemma_key_index_from<V>(s: Seq<(Seq<char>, V)>, key: Seq<char>, i: int)
    requires
        0 <= i,
    ensures
        match key_index_from(s, key, i) {
            Some(j) => i <= j < s.len() && 0 <= j && s[j].0 == key && forall|k: int|
                i <= k < j ==> #[trigger] s[k].0 != key,
            None => forall|k: int| i <= k < s.len() && 0 <= k ==> #[trigger] s[k].0 != key,
        },
    decreases s.len() - i,
{
    if i < s.len() && s[i].0 != key {
        lemma_key_index_from(s, key, i + 1);
    }
}

/// The value bound to `key`.
pub open spec fn key_value<V>(s: Seq<(Seq<char>, V)>, key: Seq<char>) -> Option<V> {
    match key_index(s, key) {
        Some(i) => Some(s[i].1),
        None => None,
    }
}

/// `s` without the entry whose key is `key` (the first, should there be
/// several).
pub open spec fn remove_key<V>(s: Seq<(Seq<char>, V)>, key: Seq<char>) -> Seq<(Seq<char>, V)> {
    match key_index(s, key) {
        Some(i) => s.remove(i),
        None => s,
    }
}

/// Index where `key` belongs: the first entry whose key is not below it.
pub open spec fn insert_pos<V>(s: Seq<(Seq<char>, V)>, key: Seq<char>) -> int
    decreases s.len(),
{
    if s.len() == 0 {
        0
    } else if seq_lt(s.last().0, key) {
        s.len() as int
    } else {
        insert_pos(s.drop_last(), key)
    }
}

/// `s` with `key` bound to `v`: an entry with that key has its value
/// replaced, otherwise the entry is inserted in key order.
pub open spec fn sorted_insert<V>(s: Seq<(Seq<char>, V)>, key: Seq<char>, v: V) -> Seq<
    (Seq<char>, V),
> {
    let p = insert_pos(s, key);
    if p < s.len() && s[p].0 == key {
        s.update(p, (key, v))
    } else {
        s.take(p) + seq![(key, v)] + s.skip(p)
    }
}

/// A map from strings to values whose entries are kept in increasing key
/// order.
pub struct KeyedMap<V: View> {
    entries: Vec<(String, V)>,
}

impl<V: View> KeyedMap<V> {
    /// The entries as `(key, value view)` pairs, in key order.
    pub closed spec fn entries_spec(&self) -> Seq<(Seq<char>, V::V)> {
        Self::view_of(self.entries@)
    }

    /// Views of stored entries.
    pub closed spec fn view_of(e: Seq<(String, V)>) -> Seq<(Seq<char>, V::V)> {
        Seq::new(e.len(), |i: int| (e[i].0@, e[i].1@))
    }

    /// Keys are strictly increasing, so no key occurs twice.
    #[verifier::type_invariant]
    spec fn sorted_keys(&self) -> bool {
        keys_sorted(self.entries_spec())
    }

    /// An empty map.
    pub fn new() -> (m: Self)
        ensures
            m.entries_spec() == Seq::<(Seq<char>, V::V)>::empty(),
    {
        let m = KeyedMap { entries: Vec::new() };
        assert(m.entries_spec() =~= Seq::<(Seq<char>, V::V)>::empty());
        m
    }

    /// Number of entries.
    pub fn len(&self) -> (n: usize)
        ensures
            n == self.entries_spec().len(),
            keys_sorted(self.entries_spec()),
    {
        proof {
            use_type_invariant(self);
        }
        self.entries.len()
    }

    /// Key of entry `i`.
    pub fn key_at(&self, i: usize) -> (k: &String)
        requires
            i < self.entries_spec().len(),
        ensures
            k@ == self.entries_spec()[i as int].0,
    {
        &self.entries[i].0
    }

    /// Value of entry `i`.
    pub fn value_at(&self, i: usize) -> (v: &V)
        requires
            i < self.entries_spec().len(),
        ensures
            v@ == self.entries_spec()[i as int].1,
    {
        &self.entries[i].1
    }

    /// Index of the entry with key `key`.
    pub fn find(&self, key: &Vec<char>) -> (r: Option<usize>)
        ensures
            r is Some <==> key_index(self.entries_spec(), key@) is Some,
            r is Some ==> key_index(self.entries_spec(), key@) == Some(r->0 as int) && r->0
                < self.entries_spec().len(),
            keys_sorted(self.entries_spec()),
    {
        proof {
            use_type_invariant(self);
        }
        let ghost es = self.entries_spec();
        let mut i: usize = 0;
        while i < self.entries.len()
            invariant
                i <= self.entries.len(),
                es == self.entries_spec(),
                es.len() == self.entries.len(),
                key_index_from(es, key@, 0) == key_index_from(es, key@, i as int),
                keys_sorted(es),
            decreases self.entries.len() - i,
        {
            let kc = text::str_to_chars(self.entries[i].0.as_str());
            if text::chars_eq(&kc, key) {
                return Some(i);
            }
            i = i + 1;
        }
        None
    }

    /// The value bound to `key` (`HashMap::get`).
    pub fn get(&self, key: &Vec<char>) -> (r: Option<&V>)
        ensures
            match key_value(self.entries_spec(), key@) {
                Some(v) => r is Some && r->0@ == v,
                None => r is None,
            },
    {
        match self.find(key) {
            Some(i) => {
                assert(self.entries_spec()[i as int].1 == self.entries@[i as int].1@);
                Some(&self.entries[i].1)
            },
            None => None,
        }
    }

    /// Binds `key` to `v` (`HashMap::insert`), keeping key order.
    pub fn insert(&mut self, key: &str, v: V)
        ensures
            final(self).entries_spec() == sorted_insert(old(self).entries_spec(), key@, v@),
            keys_sorted(final(self).entries_spec()),
    {
        proof {
            use_type_invariant(&*self);
        }
        let mut entries: Vec<(String, V)> = Vec::new();
        std::mem::swap(&mut entries, &mut self.entries);
        self.entries = Self::inserted(entries, key, v);
    }

    /// Removes the entry with key `key`, if any (`HashMap::remove`).
    pub fn remove(&mut self, key: &Vec<char>)
        ensures
            final(self).entries_spec() == remove_key(old(self).entries_spec(), key@),
            keys_sorted(final(self).entries_spec()),
    {
        proof {
            use_type_invariant(&*self);
        }
        let ghost s = self.entries_spec();
        match self.find(key) {
            None => {},
            Some(i) => {
                let mut entries: Vec<(String, V)> = Vec::new();
                std::mem::swap(&mut entries, &mut self.entries);
                assert(Self::view_of(entries@) == s);
                let _ = entries.remove(i);
                assert(Self::view_of(entries@) =~= s.remove(i as int));
                proof {
                    let t = s.remove(i as int);
                    assert forall|a: int, b: int| 0 <= a < b < t.len() implies seq_lt(
                        #[trigger] t[a].0,
                        #[trigger] t[b].0,
                    ) by {
                        let a0 = if a < i { a } else { a + 1 };
                        let b0 = if b < i { b } else { b + 1 };
                        assert(t[a] == s[a0] && t[b] == s[b0]);
                    }
                }
                self.entries = entries;
            },
        }
    }

    /// Removes every entry.
    pub fn clear(&mut self)
        ensures
            final(self).entries_spec() == Seq::<(Seq<char>, V::V)>::empty(),
    {
        self.entries = Vec::new();
        assert(self.entries_spec() =~= Seq::<(Seq<char>, V::V)>::empty());
    }

    fn inserted(entries: Vec<(String, V)>, key: &str, v: V) -> (r: Vec<(String, V)>)
        requires
            keys_sorted(Self::view_of(entries@)),
        ensures
            Self::view_of(r@) == sorted_insert(Self::view_of(entries@), key@, v@),
            keys_sorted(Self::view_of(r@)),
    {
        let mut entries = entries;
        let kc = text::str_to_chars(key);
        let ghost s = Self::view_of(entries@);
        let ghost vv = v@;
        let mut p: usize = entries.len();
        let mut i: usize = 0;
        while i < entries.len()
            invariant
                i <= entries.len(),
                s == Self::view_of(entries@),
                s.len() == entries.len(),
                keys_sorted(s),
                forall|k: int| 0 <= k < i ==> seq_lt(#[trigger] s[k].0, kc@),
            ensures
                i <= s.len(),
                s == Self::view_of(entries@),
                forall|k: int| 0 <= k < i ==> seq_lt(#[trigger] s[k].0, kc@),
                i == s.len() || !seq_lt(s[i as int].0, kc@),
            decreases entries.len() - i,
        {
            let ek = text::str_to_chars(entries[i].0.as_str());
            if !chars_lt(&ek, &kc) {
                break;
            }
            i = i + 1;
        }
        p = i;
        proof {
            lemma_insert_pos(s, kc@, p as int);
        }
        let ek_eq = if p < entries.len() {
            let ek = text::str_to_chars(entries[p].0.as_str());
            text::chars_eq(&ek, &kc)
        } else {
            false
        };
        if ek_eq {
            let name = entries[p].0.clone();
            entries.set(p, (name, v));
            assert(Self::view_of(entries@) =~= s.update(p as int, (kc@, vv)));
        } else {
            let name = String::from_str(key);
            entries.insert(p, (name, v));
            assert(Self::view_of(entries@) =~= s.take(p as int) + seq![(kc@, vv)] + s.skip(p as int));
            proof {
                if p < s.len() {
                    lemma_lt_total(s[p as int].0, kc@);
                }
                let t = Self::view_of(entries@);
                assert forall|a: int, b: int| 0 <= a < b < t.len() implies seq_lt(
                    #[trigger] t[a].0,
                    #[trigger] t[b].0,
                ) by {
                    if b == p {
                        assert(t[a].0 == s[a].0);
                    } else if a == p {
                        assert(t[b].0 == s[b - 1].0);
                        if b - 1 > p {
                            lemma_lt_transitive(kc@, s[p as int].0, s[b - 1].0);
                        }
                    } else if a < p && b < p {
                        assert(t[a].0 == s[a].0 && t[b].0 == s[b].0);
                    } else if a < p {
                        assert(t[a].0 == s[a].0 && t[b].0 == s[b - 1].0);
                    } else {
                        assert(t[a].0 == s[a - 1].0 && t[b].0 == s[b - 1].0);
                    }
                }
            }
        }
        entries
    }
}


/// With sorted keys, the entry holding a key is the one `key_value` finds.
pub proof fn lemma_key_value_sorted<V>(s: Seq<(Seq<char>, V)>, key: Seq<char>)
    requires
        keys_sorted(s),
    ensures
        forall|i: int| 0 <= i < s.len() && #[trigger] s[i].0 == key ==> key_value(s, key) == Some(
            s[i].1,
        ),
        (forall|i: int| 0 <= i < s.len() ==> #[trigger] s[i].0 != key) ==> key_value(s, key)
            is None,
{
    lemma_key_index_from(s, key, 0);
    assert forall|i: int| 0 <= i < s.len() && #[trigger] s[i].0 == key implies key_value(
        s,
        key,
    ) == Some(s[i].1) by {
        let j = key_index(s, key)->0;
        if j != i {
            if j < i {
                assert(seq_lt(s[j].0, s[i].0));
            }
            lemma_lt_irreflexive(key);
        }
    }
}

/// `insert_pos` is where the keys stop being below `key`.
pub proof fn lemma_insert_pos_props<V>(s: Seq<(Seq<char>, V)>, key: Seq<char>)
    requires
        keys_sorted(s),
    ensures
        0 <= insert_pos(s, key) <= s.len(),
        forall|k: int| 0 <= k < insert_pos(s, key) ==> seq_lt(#[trigger] s[k].0, key),
        insert_pos(s, key) == s.len() || !seq_lt(s[insert_pos(s, key)].0, key),
    decreases s.len(),
{
    if s.len() > 0 {
        if seq_lt(s.last().0, key) {
            assert forall|k: int| 0 <= k < s.len() implies seq_lt(#[trigger] s[k].0, key) by {
                if k < s.len() - 1 {
                    lemma_lt_transitive(s[k].0, s.last().0, key);
                }
            }
        } else {
            let t = s.drop_last();
            assert forall|a: int, b: int| 0 <= a < b < t.len() implies seq_lt(
                #[trigger] t[a].0,
                #[trigger] t[b].0,
            ) by {
                assert(t[a] == s[a] && t[b] == s[b]);
            }
            lemma_insert_pos_props(t, key);
            let p = insert_pos(t, key);
            assert forall|k: int| 0 <= k < p implies seq_lt(#[trigger] s[k].0, key) by {
                assert(t[k] == s[k]);
            }
            if p < t.len() {
                assert(t[p] == s[p]);
            }
        }
    }
}

/// Inserting keeps the keys sorted.
pub proof fn lemma_sorted_insert_sorted<V>(s: Seq<(Seq<char>, V)>, key: Seq<char>, v: V)
    requires
        keys_sorted(s),
    ensures
        keys_sorted(sorted_insert(s, key, v)),
{
    lemma_insert_pos_props(s, key);
    let p = insert_pos(s, key);
    let t = sorted_insert(s, key, v);
    if p < s.len() && s[p].0 == key {
        assert forall|a: int, b: int| 0 <= a < b < t.len() implies seq_lt(
            #[trigger] t[a].0,
            #[trigger] t[b].0,
        ) by {
            assert(t[a].0 == s[a].0 && t[b].0 == s[b].0);
        }
    } else {
        if p < s.len() {
            lemma_lt_total(s[p].0, key);
        }
        assert forall|a: int, b: int| 0 <= a < b < t.len() implies seq_lt(
            #[trigger] t[a].0,
            #[trigger] t[b].0,
        ) by {
            if b == p {
                assert(t[a].0 == s[a].0);
            } else if a == p {
                assert(t[b].0 == s[b - 1].0);
                if b - 1 > p {
                    lemma_lt_transitive(key, s[p].0, s[b - 1].0);
                }
            } else if a < p && b < p {
                assert(t[a].0 == s[a].0 && t[b].0 == s[b].0);
            } else if a < p {
                assert(t[a].0 == s[a].0 && t[b].0 == s[b - 1].0);
            } else {
                assert(t[a].0 == s[a - 1].0 && t[b].0 == s[b - 1].0);
            }
        }
    }
}

/// What a lookup gives back after an insertion: the inserted value for the
/// inserted key, and what it gave before for every other key.
pub proof fn lemma_insert_then_get<V>(s: Seq<(Seq<char>, V)>, key: Seq<char>, v: V)
    requires
        keys_sorted(s),
    ensures
        key_value(sorted_insert(s, key, v), key) == Some(v),
        forall|k: Seq<char>| k != key ==> key_value(sorted_insert(s, key, v), k) == key_value(s, k),
{
    lemma_insert_pos_props(s, key);
    lemma_sorted_insert_sorted(s, key, v);
    let p = insert_pos(s, key);
    let t = sorted_insert(s, key, v);
    let replaced = p < s.len() && s[p].0 == key;
    let q = p;
    assert(t[q] == (key, v));
    assert(0 <= q < t.len());
    lemma_key_value_sorted(t, key);
    assert(t[q].0 == key);
    assert(key_value(t, key) == Some(t[q].1));
    assert forall|k: Seq<char>| k != key implies key_value(t, k) == key_value(s, k) by {
        lemma_key_value_sorted(t, k);
        lemma_key_value_sorted(s, k);
        if exists|i: int| 0 <= i < s.len() && #[trigger] s[i].0 == k {
            let i = choose|i: int| 0 <= i < s.len() && #[trigger] s[i].0 == k;
            if replaced {
                assert(t[i] == s[i]);
            } else if i < p {
                assert(t[i] == s[i]);
            } else {
                assert(t[i + 1] == s[i]);
            }
        } else {
            assert forall|j: int| 0 <= j < t.len() implies #[trigger] t[j].0 != k by {
                if replaced {
                    if j != p {
                        assert(t[j] == s[j]);
                    }
                } else if j < p {
                    assert(t[j] == s[j]);
                } else if j > p {
                    assert(t[j] == s[j - 1]);
                }
            }
        }
    }
}

/// What a lookup gives back after a removal: nothing for the removed key,
/// and what it gave before for every other key.
pub proof fn lemma_remove_then_get<V>(s: Seq<(Seq<char>, V)>, key: Seq<char>)
    requires
        keys_sorted(s),
    ensures
        key_value(remove_key(s, key), key) is None,
        forall|k: Seq<char>| k != key ==> key_value(remove_key(s, key), k) == key_value(s, k),
{
    lemma_key_index_from(s, key, 0);
    lemma_key_value_sorted(s, key);
    let t = remove_key(s, key);
    match key_index(s, key) {
        None => {},
        Some(i) => {
            assert(keys_sorted(t)) by {
                assert forall|a: int, b: int| 0 <= a < b < t.len() implies seq_lt(
                    #[trigger] t[a].0,
                    #[trigger] t[b].0,
                ) by {
                    let a0 = if a < i { a } else { a + 1 };
                    let b0 = if b < i { b } else { b + 1 };
                    assert(t[a] == s[a0] && t[b] == s[b0]);
                }
            }
            lemma_key_value_sorted(t, key);
            assert forall|j: int| 0 <= j < t.len() implies #[trigger] t[j].0 != key by {
                let j0 = if j < i { j } else { j + 1 };
                assert(t[j] == s[j0]);
                if j0 != i {
                    lemma_key_value_sorted(s, key);
                    if j0 < i {
                        assert(seq_lt(s[j0].0, s[i].0));
                    } else {
                        assert(seq_lt(s[i].0, s[j0].0));
                    }
                    lemma_lt_irreflexive(key);
                }
            }
            assert forall|k: Seq<char>| k != key implies key_value(t, k) == key_value(s, k) by {
                lemma_key_value_sorted(t, k);
                lemma_key_value_sorted(s, k);
                if exists|m: int| 0 <= m < s.len() && #[trigger] s[m].0 == k {
                    let m = choose|m: int| 0 <= m < s.len() && #[trigger] s[m].0 == k;
                    if m < i {
                        assert(t[m] == s[m]);
                    } else {
                        assert(t[m - 1] == s[m]);
                    }
                } else {
                    assert forall|j: int| 0 <= j < t.len() implies #[trigger] t[j].0 != k by {
                        let j0 = if j < i { j } else { j + 1 };
                        assert(t[j] == s[j0]);
                    }
                }
            }
        },
    }
}

proof fn lemma_insert_pos<V>(s: Seq<(Seq<char>, V)>, key: Seq<char>, p: int)
    requires
        0 <= p <= s.len(),
        keys_sorted(s),
        forall|k: int| 0 <= k < p ==> seq_lt(#[trigger] s[k].0, key),
        p == s.len() || !seq_lt(s[p].0, key),
    ensures
        insert_pos(s, key) == p,
    decreases s.len(),
{
    if s.len() > 0 {
        if p == s.len() {
        } else {
            assert(!seq_lt(s.last().0, key)) by {
                if p < s.len() - 1 && seq_lt(s.last().0, key) {
                    assert(seq_lt(s[p].0, s.last().0));
                    lemma_lt_transitive(s[p].0, s.last().0, key);
                }
            }
            let t = s.drop_last();
            assert forall|a: int, b: int| 0 <= a < b < t.len() implies seq_lt(
                #[trigger] t[a].0,
                #[trigger] t[b].0,
            ) by {
                assert(t[a] == s[a] && t[b] == s[b]);
            }
            assert forall|k: int| 0 <= k < p implies seq_lt(#[trigger] t[k].0, key) by {
                assert(t[k] == s[k]);
            }
            lemma_insert_pos(t, key, p);
        }
    }
}

} // verus!
