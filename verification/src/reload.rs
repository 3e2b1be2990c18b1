//! Which registered HTML sources the loader parses again in a frame.
use vstd::prelude::*;

verus! {

/// One registered source as the loader sees it in a frame: the number of
/// its entity, the number of the asset it reads, and whether a change of
/// bound values makes it parse again (`source_requires_value_reparse`).
#[derive(Clone, Copy, Debug, PartialEq, Eq, Structural)]
pub struct SourceEntry {
    pub entity: u64,
    pub asset: u64,
    pub value_reparse: bool,
}

/// Each number is smaller than the next: sorted, nothing twice.
pub open spec fn strictly_increasing(s: Seq<u64>) -> bool {
    forall|i: int, j: int| 0 <= i < j < s.len() ==> s[i] < s[j]
}

/// Whether a registered source is parsed again: an asset event names the
/// asset it reads, the locale changed, or bound values changed and its
/// profile needs a new parse.
pub open spec fn source_wanted(
    s: SourceEntry,
    asset_events: Seq<u64>,
    locale_dirty: bool,
    value_dirty: bool,
) -> bool {
    asset_events.contains(s.asset) || locale_dirty || (value_dirty && s.value_reparse)
}

/// Whether entity `e` is parsed again this frame: its source was just
/// added, its parse is pending, or one of the registered sources it owns
/// is wanted (`source_wanted`).
pub open spec fn reload_wanted(
    e: u64,
    added: Seq<u64>,
    pending: Seq<u64>,
    asset_events: Seq<u64>,
    sources: Seq<SourceEntry>,
    locale_dirty: bool,
    value_dirty: bool,
) -> bool {
    ||| added.contains(e)
    ||| pending.contains(e)
    ||| exists|i: int|
        0 <= i < sources.len() && (#[trigger] sources[i]).entity == e && source_wanted(
            sources[i],
            asset_events,
            locale_dirty,
            value_dirty,
        )
}

/// Adds `x` to the sorted numbers `v` unless it is there.
pub fn insert_sorted(v: &mut Vec<u64>, x: u64)
    requires
        strictly_increasing(old(v)@),
    ensures
        strictly_increasing(final(v)@),
        forall|e: u64| final(v)@.contains(e) <==> (old(v)@.contains(e) || e == x),
{
    let ghost s = v@;
    let mut i: usize = 0;
    while i < v.len() && v[i] < x
        invariant
            i <= v@.len(),
            v@ == s,
            strictly_increasing(s),
            forall|j: int| 0 <= j < i ==> s[j] < x,
        decreases v.len() - i,
    {
        i = i + 1;
    }
    if i < v.len() && v[i] == x {
        assert(s.contains(x));
        return;
    }
    v.insert(i, x);
    proof {
        let t = v@;
        s.insert_ensures(i as int, x);
        assert forall|a: int, b: int| 0 <= a < b < t.len() implies t[a] < t[b] by {
            if b < i {
            } else if b == i {
            } else if a < i {
                assert(t[b] == s[b - 1]);
                assert(s[a] < x);
                assert(x < s[i as int]);
            } else if a == i {
                assert(t[b] == s[b - 1]);
                assert(x < s[i as int]);
                assert(s[i as int] <= s[b - 1]);
            } else {
                assert(t[a] == s[a - 1]);
                assert(t[b] == s[b - 1]);
            }
        }
        assert forall|e: u64| t.contains(e) <==> (s.contains(e) || e == x) by {
            if t.contains(e) {
                let k = choose|k: int| 0 <= k < t.len() && t[k] == e;
                if k < i {
                    assert(s[k] == e);
                } else if k > i {
                    assert(s[k - 1] == e);
                }
            }
            if s.contains(e) {
                let k = choose|k: int| 0 <= k < s.len() && s[k] == e;
                if k < i {
                    assert(t[k] == e);
                } else {
                    assert(t[k + 1] == e);
                }
            }
            if e == x {
                assert(t[i as int] == e);
            }
        }
    }
}

/// Whether `x` occurs in `v`.
pub fn contains_u64(v: &Vec<u64>, x: u64) -> (r: bool)
    ensures
        r == v@.contains(x),
{
    let mut i: usize = 0;
    while i < v.len()
        invariant
            i <= v@.len(),
            forall|j: int| 0 <= j < i ==> v@[j] != x,
        decreases v.len() - i,
    {
        if v[i] == x {
            return true;
        }
        i = i + 1;
    }
    false
}

/// The entities whose sources the loader parses again this frame, sorted,
/// each once (`reload_wanted`): those just added, those pending, those
/// reading an asset named by an event, every registered one when the
/// locale changed, and those whose profile needs it when bound values
/// changed.
pub fn sources_to_reload(
    added: &Vec<u64>,
    pending: &Vec<u64>,
    asset_events: &Vec<u64>,
    sources: &Vec<SourceEntry>,
    locale_dirty: bool,
    value_dirty: bool,
) -> (r: Vec<u64>)
    ensures
        strictly_increasing(r@),
        forall|e: u64|
            r@.contains(e) <==> reload_wanted(
                e,
                added@,
                pending@,
                asset_events@,
                sources@,
                locale_dirty,
                value_dirty,
            ),
{
    let mut out: Vec<u64> = Vec::new();
    let mut i: usize = 0;
    while i < added.len()
        invariant
            i <= added@.len(),
            strictly_increasing(out@),
            forall|e: u64| out@.contains(e) <==> added@.take(i as int).contains(e),
        decreases added.len() - i,
    {
        insert_sorted(&mut out, added[i]);
        proof {
            let t = added@.take(i + 1);
            assert forall|e: u64| t.contains(e) <==> (added@.take(i as int).contains(e) || e
                == added@[i as int]) by {
                if t.contains(e) {
                    let k = choose|k: int| 0 <= k < t.len() && t[k] == e;
                    if k < i {
                        assert(added@.take(i as int)[k] == e);
                    }
                }
                if added@.take(i as int).contains(e) {
                    let k = choose|k: int| 0 <= k < i && added@.take(i as int)[k] == e;
                    assert(t[k] == e);
                }
                if e == added@[i as int] {
                    assert(t[i as int] == e);
                }
            }
        }
        i = i + 1;
    }
    assert(added@.take(added@.len() as int) =~= added@);
    let mut i: usize = 0;
    while i < pending.len()
        invariant
            i <= pending@.len(),
            strictly_increasing(out@),
            forall|e: u64|
                out@.contains(e) <==> (added@.contains(e) || pending@.take(i as int).contains(e)),
        decreases pending.len() - i,
    {
        insert_sorted(&mut out, pending[i]);
        proof {
            let t = pending@.take(i + 1);
            assert forall|e: u64| t.contains(e) <==> (pending@.take(i as int).contains(e) || e
                == pending@[i as int]) by {
                if t.contains(e) {
                    let k = choose|k: int| 0 <= k < t.len() && t[k] == e;
                    if k < i {
                        assert(pending@.take(i as int)[k] == e);
                    }
                }
                if pending@.take(i as int).contains(e) {
                    let k = choose|k: int| 0 <= k < i && pending@.take(i as int)[k] == e;
                    assert(t[k] == e);
                }
                if e == pending@[i as int] {
                    assert(t[i as int] == e);
                }
            }
        }
        i = i + 1;
    }
    assert(pending@.take(pending@.len() as int) =~= pending@);
    let mut i: usize = 0;
    while i < sources.len()
        invariant
            i <= sources@.len(),
            strictly_increasing(out@),
            forall|e: u64|
                out@.contains(e) <==> (added@.contains(e) || pending@.contains(e) || exists|
                    j: int,
                |
                    0 <= j < i && (#[trigger] sources@[j]).entity == e && source_wanted(
                        sources@[j],
                        asset_events@,
                        locale_dirty,
                        value_dirty,
                    )),
        decreases sources.len() - i,
    {
        let s = sources[i];
        let wanted = contains_u64(asset_events, s.asset) || locale_dirty || (value_dirty
            && s.value_reparse);
        if wanted {
            insert_sorted(&mut out, s.entity);
        }
        proof {
            assert forall|e: u64|
                out@.contains(e) <==> (added@.contains(e) || pending@.contains(e) || exists|
                    j: int,
                |
                    0 <= j < i + 1 && (#[trigger] sources@[j]).entity == e && source_wanted(
                        sources@[j],
                        asset_events@,
                        locale_dirty,
                        value_dirty,
                    )) by {
                if exists|j: int|
                    0 <= j < i + 1 && (#[trigger] sources@[j]).entity == e && source_wanted(
                        sources@[j],
                        asset_events@,
                        locale_dirty,
                        value_dirty,
                    ) {
                    let j = choose|j: int|
                        0 <= j < i + 1 && (#[trigger] sources@[j]).entity == e && source_wanted(
                            sources@[j],
                            asset_events@,
                            locale_dirty,
                            value_dirty,
                        );
                    if j == i {
                        assert(out@.contains(e));
                    }
                }
                if wanted && e == s.entity {
                    assert(sources@[i as int].entity == e);
                }
            }
        }
        i = i + 1;
    }
    out
}

} // verus!
