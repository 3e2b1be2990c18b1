//! Style rules that depend only on text: selector specificity and pseudo
//! classes and how they match a widget's state, font file names by weight,
//! and text transforms.
use vstd::prelude::*;
use crate::text;
use crate::uses;
use crate::widgets;
use crate::keyed;
use crate::keyed::KeyedMap;

verus! {

// ---------------------------------------------------------------------------
// Widget state
// ---------------------------------------------------------------------------

/// Interaction state of a widget.
#[derive(Debug, Clone, Copy, PartialEq, Eq, Structural)]
pub struct UIWidgetState {
    pub focused: bool,
    pub hovered: bool,
    pub disabled: bool,
    pub readonly: bool,
    pub checked: bool,
    pub open: bool,
    pub invalid: bool,
}

impl Default for UIWidgetState {
    fn default() -> (r: Self)
        ensures
            !r.focused && !r.hovered && !r.disabled && !r.readonly && !r.checked && !r.open
                && !r.invalid,
    {
        UIWidgetState {
            focused: false,
            hovered: false,
            disabled: false,
            readonly: false,
            checked: false,
            open: false,
            invalid: false,
        }
    }
}

// ---------------------------------------------------------------------------
// Selectors
// ---------------------------------------------------------------------------

/// `:read-only`.
pub const SELECTOR_READ_ONLY: u8 = 1;

/// `:disabled`.
pub const SELECTOR_DISABLED: u8 = 2;

/// `:checked`.
pub const SELECTOR_CHECKED: u8 = 4;

/// `:focus`.
pub const SELECTOR_FOCUS: u8 = 8;

/// `:hover`.
pub const SELECTOR_HOVER: u8 = 16;

/// `:invalid`.
pub const SELECTOR_INVALID: u8 = 32;

/// What a selector contributes to styling: its specificity, the pseudo
/// classes it requires (one bit each), whether it has any pseudo class, and
/// whether it is skipped (pseudo elements).
#[derive(Debug, Clone, Copy, PartialEq, Eq, Structural)]
pub struct SelectorMetadata {
    pub specificity: u32,
    pub pseudo_flags: u8,
    pub has_pseudo: bool,
    pub skip: bool,
}

/// Whitespace or `>` between compound selectors.
pub open spec fn selector_sep(c: char) -> bool {
    text::is_ws(c) || c == '>'
}

/// Index of the first separator at or after `i`.
pub open spec fn selector_sep_from(s: Seq<char>, i: int) -> Option<int>
    decreases s.len() - i,
{
    if i < 0 || i >= s.len() {
        None
    } else if selector_sep(s[i]) {
        Some(i)
    } else {
        selector_sep_from(s, i + 1)
    }
}

/// The pieces of `s` between separators (empty ones included).
pub open spec fn selector_pieces(s: Seq<char>) -> Seq<Seq<char>>
    decreases s.len(),
{
    match selector_sep_from(s, 0) {
        Some(i) => if 0 <= i < s.len() {
            seq![s.take(i)] + selector_pieces(s.skip(i + 1))
        } else {
            seq![s]
        },
        None => seq![s],
    }
}

/// The specificity of a compound selector's type part: an id scores 100, a
/// class 10, `*` or nothing 0, a tag 1.
pub open spec fn base_score(base: Seq<char>) -> nat {
    if base.len() > 0 && base[0] == '#' {
        100
    } else if base.len() > 0 && base[0] == '.' {
        10
    } else if base == seq!['*'] || base.len() == 0 {
        0
    } else {
        1
    }
}

/// The flag a pseudo class name sets (0 for names not tracked).
pub open spec fn pseudo_flag(name: Seq<char>) -> u8 {
    if name == "read-only"@ {
        SELECTOR_READ_ONLY
    } else if name == "disabled"@ {
        SELECTOR_DISABLED
    } else if name == "checked"@ {
        SELECTOR_CHECKED
    } else if name == "focus"@ {
        SELECTOR_FOCUS
    } else if name == "hover"@ {
        SELECTOR_HOVER
    } else if name == "invalid"@ {
        SELECTOR_INVALID
    } else {
        0
    }
}

/// The flags of the pseudo class names among the first `n` segments after
/// the type part (`segs[1..=n]`), or-ed onto `flags`.
pub open spec fn pseudo_flags_of(segs: Seq<Seq<char>>, n: int, flags: u8) -> u8
    decreases n,
{
    if n <= 0 || n >= segs.len() {
        flags
    } else {
        pseudo_flags_of(segs, n - 1, flags) | pseudo_flag(segs[n])
    }
}

/// Metadata of the first `n` pieces of a selector, as (specificity, flags,
/// has pseudo class); empty pieces count for nothing.
pub open spec fn pieces_metadata(pieces: Seq<Seq<char>>, n: int) -> (int, u8, bool)
    decreases n,
{
    if n <= 0 || n > pieces.len() {
        (0, 0, false)
    } else {
        let (sp, fl, hp) = pieces_metadata(pieces, n - 1);
        let part = pieces[n - 1];
        if part.len() == 0 {
            (sp, fl, hp)
        } else {
            let segs = uses::split_on(part, ':');
            let extra = segs.len() - 1;
            (
                sp + base_score(segs[0]) + if segs.len() > 1 {
                    extra
                } else {
                    0
                },
                pseudo_flags_of(segs, segs.len() - 1, fl),
                hp || segs.len() > 1,
            )
        }
    }
}

/// The metadata of a selector: skipped when it holds `::`; otherwise each
/// compound selector (split at whitespace and `>`) adds its type score and
/// one per pseudo class, and sets the flags of the pseudo classes it names.
pub open spec fn selector_meta(selector: Seq<char>) -> (int, u8, bool, bool) {
    if uses::last_sep(selector) is Some {
        (0, 0, false, true)
    } else {
        let p = selector_pieces(selector);
        let m = pieces_metadata(p, p.len() as int);
        (m.0, m.1, m.2, false)
    }
}

proof fn lemma_pieces_metadata_nonneg(pieces: Seq<Seq<char>>, n: int)
    ensures
        0 <= pieces_metadata(pieces, n).0,
    decreases n,
{
    if n > 0 {
        lemma_pieces_metadata_nonneg(pieces, n - 1);
    }
}

proof fn lemma_pieces_metadata_mono(pieces: Seq<Seq<char>>, i: int, j: int)
    requires
        0 <= i <= j <= pieces.len(),
    ensures
        0 <= pieces_metadata(pieces, i).0 <= pieces_metadata(pieces, j).0,
    decreases j - i,
{
    lemma_pieces_metadata_nonneg(pieces, i);
    if i < j {
        lemma_pieces_metadata_mono(pieces, i, j - 1);
    }
}

fn selector_pieces_exec(s: &Vec<char>) -> (r: Vec<Vec<char>>)
    ensures
        uses::vecs_view(r@) == selector_pieces(s@),
    decreases s.len(),
{
    let mut i: usize = 0;
    while i < s.len() && !(text::is_ws_char(s[i]) || s[i] == '>')
        invariant
            i <= s.len(),
            selector_sep_from(s@, 0) == selector_sep_from(s@, i as int),
        decreases s.len() - i,
    {
        i = i + 1;
    }
    if i < s.len() {
        let head = text::slice_chars(s, 0, i);
        let tail = text::slice_chars(s, i + 1, s.len());
        assert(tail@ == s@.skip(i + 1));
        let rest = selector_pieces_exec(&tail);
        let mut out: Vec<Vec<char>> = Vec::new();
        out.push(head);
        let mut k: usize = 0;
        while k < rest.len()
            invariant
                k <= rest.len(),
                uses::vecs_view(out@) == seq![s@.take(i as int)] + uses::vecs_view(rest@).take(
                    k as int,
                ),
            decreases rest.len() - k,
        {
            let e = rest[k].clone();
            assert(e@ =~= rest@[k as int]@);
            let ghost prev = uses::vecs_view(out@);
            out.push(e);
            assert(uses::vecs_view(out@) =~= prev.push(rest@[k as int]@));
            assert(uses::vecs_view(rest@).take(k + 1) =~= uses::vecs_view(rest@).take(
                k as int,
            ).push(rest@[k as int]@));
            k = k + 1;
        }
        assert(uses::vecs_view(rest@).take(rest.len() as int) =~= uses::vecs_view(rest@));
        out
    } else {
        let mut out: Vec<Vec<char>> = Vec::new();
        out.push(s.clone());
        assert(uses::vecs_view(out@) =~= seq![s@]);
        out
    }
}

fn pseudo_flag_exec(name: &Vec<char>) -> (r: u8)
    ensures
        r == pseudo_flag(name@),
{
    if text::chars_eq_str(name, "read-only") {
        SELECTOR_READ_ONLY
    } else if text::chars_eq_str(name, "disabled") {
        SELECTOR_DISABLED
    } else if text::chars_eq_str(name, "checked") {
        SELECTOR_CHECKED
    } else if text::chars_eq_str(name, "focus") {
        SELECTOR_FOCUS
    } else if text::chars_eq_str(name, "hover") {
        SELECTOR_HOVER
    } else if text::chars_eq_str(name, "invalid") {
        SELECTOR_INVALID
    } else {
        0
    }
}

/// The metadata of a selector (`selector_meta`); the specificity must fit
/// in a `u32`.
pub fn compute_selector_metadata(selector: &str) -> (r: SelectorMetadata)
    requires
        selector_meta(selector@).0 <= u32::MAX,
    ensures
        (r.specificity as int, r.pseudo_flags, r.has_pseudo, r.skip) == selector_meta(selector@),
{
    let s = text::str_to_chars(selector);
    if uses::last_sep_exec(&s).is_some() {
        return SelectorMetadata { specificity: 0, pseudo_flags: 0, has_pseudo: false, skip: true };
    }
    let pieces = selector_pieces_exec(&s);
    let ghost pv = uses::vecs_view(pieces@);
    let mut specificity: u32 = 0;
    let mut pseudo_flags: u8 = 0;
    let mut has_pseudo = false;
    let mut i: usize = 0;
    while i < pieces.len()
        invariant
            i <= pieces.len(),
            pv == uses::vecs_view(pieces@),
            pv == selector_pieces(s@),
            pieces_metadata(pv, pv.len() as int).0 <= u32::MAX,
            (specificity as int, pseudo_flags, has_pseudo) == pieces_metadata(pv, i as int),
        decreases pieces.len() - i,
    {
        proof {
            lemma_pieces_metadata_mono(pv, i + 1, pv.len() as int);
        }
        let part = &pieces[i];
        assert(part@ == pv[i as int]);
        if part.len() != 0 {
            let segs = uses::split_on_exec(part, ':');
            let ghost sv = uses::vecs_view(segs@);
            proof {
                assert(sv.len() >= 1) by {
                    reveal_with_fuel(uses::split_on, 2);
                }
            }
            let base = &segs[0];
            assert(base@ == sv[0]);
            let score: u32 = if base.len() > 0 && base[0] == '#' {
                100
            } else if base.len() > 0 && base[0] == '.' {
                10
            } else if (base.len() == 1 && base[0] == '*') || base.len() == 0 {
                0
            } else {
                1
            };
            proof {
                if base.len() == 1 && base[0] == '*' {
                    assert(base@ =~= seq!['*']);
                }
                if base@ == seq!['*'] {
                    assert(base@.len() == 1);
                }
            }
            specificity = specificity + score;
            if segs.len() > 1 {
                has_pseudo = true;
                specificity = specificity + (segs.len() - 1) as u32;
            }
            let mut k: usize = 1;
            while k < segs.len()
                invariant
                    1 <= k <= segs.len(),
                    sv == uses::vecs_view(segs@),
                    pseudo_flags == pseudo_flags_of(sv, k - 1, pieces_metadata(pv, i as int).1),
                decreases segs.len() - k,
            {
                assert(segs@[k as int]@ == sv[k as int]);
                let f = pseudo_flag_exec(&segs[k]);
                pseudo_flags = pseudo_flags | f;
                k = k + 1;
            }
        }
        i = i + 1;
    }
    SelectorMetadata { specificity, pseudo_flags, has_pseudo, skip: false }
}

/// A selector applies in a state: every pseudo class it requires holds
/// (`:checked`, `:focus` and `:hover` also need the widget enabled).
pub open spec fn matches_state(flags: u8, st: UIWidgetState) -> bool {
    &&& (flags & SELECTOR_READ_ONLY != 0 ==> st.readonly)
    &&& (flags & SELECTOR_DISABLED != 0 ==> st.disabled)
    &&& (flags & SELECTOR_CHECKED != 0 ==> !st.disabled && st.checked)
    &&& (flags & SELECTOR_FOCUS != 0 ==> !st.disabled && st.focused)
    &&& (flags & SELECTOR_HOVER != 0 ==> !st.disabled && st.hovered)
    &&& (flags & SELECTOR_INVALID != 0 ==> st.invalid)
}

/// Whether a selector applies to a widget in state `state` (`matches_state`).
pub fn selector_matches_state(metadata: SelectorMetadata, state: &UIWidgetState) -> (r: bool)
    ensures
        r == matches_state(metadata.pseudo_flags, *state),
{
    if metadata.pseudo_flags & SELECTOR_READ_ONLY != 0 && !state.readonly {
        return false;
    }
    if metadata.pseudo_flags & SELECTOR_DISABLED != 0 && !state.disabled {
        return false;
    }
    if metadata.pseudo_flags & SELECTOR_CHECKED != 0 && (state.disabled || !state.checked) {
        return false;
    }
    if metadata.pseudo_flags & SELECTOR_FOCUS != 0 && (state.disabled || !state.focused) {
        return false;
    }
    if metadata.pseudo_flags & SELECTOR_HOVER != 0 && (state.disabled || !state.hovered) {
        return false;
    }
    if metadata.pseudo_flags & SELECTOR_INVALID != 0 && !state.invalid {
        return false;
    }
    true
}

/// A selector without pseudo classes applies in every state.
pub proof fn law_plain_selector_always_matches(st: UIWidgetState)
    ensures
        matches_state(0, st),
{
    assert(0u8 & SELECTOR_READ_ONLY == 0) by (bit_vector);
    assert(0u8 & SELECTOR_DISABLED == 0) by (bit_vector);
    assert(0u8 & SELECTOR_CHECKED == 0) by (bit_vector);
    assert(0u8 & SELECTOR_FOCUS == 0) by (bit_vector);
    assert(0u8 & SELECTOR_HOVER == 0) by (bit_vector);
    assert(0u8 & SELECTOR_INVALID == 0) by (bit_vector);
}

// ---------------------------------------------------------------------------
// The cascade
// ---------------------------------------------------------------------------

/// A style rule of a widget: its selector (the rule's key when empty) and
/// the position of the stylesheet it came from.
pub struct StyleRule {
    pub selector: String,
    pub origin: usize,
}

/// View of a [`StyleRule`].
pub struct RuleV {
    pub selector: Seq<char>,
    pub origin: usize,
}

impl View for StyleRule {
    type V = RuleV;

    open spec fn view(&self) -> RuleV {
        RuleV { selector: self.selector@, origin: self.origin }
    }
}

/// The selector a rule is matched by: its own, else its key.
pub open spec fn rule_selector(key: Seq<char>, rule: RuleV) -> Seq<char> {
    if rule.selector.len() == 0 {
        key
    } else {
        rule.selector
    }
}

/// A rule as a cascade candidate: its key, its selector's specificity and
/// its origin.
pub open spec fn style_candidate(key: Seq<char>, rule: RuleV) -> (Seq<char>, int, int) {
    (key, selector_meta(rule_selector(key, rule)).0, rule.origin as int)
}

/// Whether a rule takes part in styling a widget in state `st`, among the
/// rules with pseudo classes (`pseudo`) or those without: its selector is
/// not skipped and applies in the state.
pub open spec fn candidate_applies(key: Seq<char>, rule: RuleV, st: UIWidgetState, pseudo: bool) -> bool {
    let m = selector_meta(rule_selector(key, rule));
    !m.3 && matches_state(m.1, st) && m.2 == pseudo
}

/// Cascade order: by origin, then specificity, then key; later candidates
/// override earlier ones.
pub open spec fn cascade_before(a: (Seq<char>, int, int), b: (Seq<char>, int, int)) -> bool {
    a.2 < b.2 || (a.2 == b.2 && (a.1 < b.1 || (a.1 == b.1 && keyed::seq_lt(a.0, b.0))))
}

/// View of candidates (key, specificity, origin).
pub open spec fn cands_view(v: Seq<(String, u32, usize)>) -> Seq<(Seq<char>, int, int)> {
    Seq::new(v.len(), |i: int| (v[i].0@, v[i].1 as int, v[i].2 as int))
}

/// Candidates in strict cascade order.
pub open spec fn cascade_sorted(s: Seq<(Seq<char>, int, int)>) -> bool {
    forall|i: int, j: int| 0 <= i < j < s.len() ==> cascade_before(#[trigger] s[i], #[trigger] s[j])
}

/// Every rule's selector has a specificity that fits in a `u32`.
pub open spec fn selectors_fit(rules: Seq<(Seq<char>, RuleV)>) -> bool {
    forall|i: int|
        0 <= i < rules.len() ==> selector_meta(rule_selector(#[trigger] rules[i].0, rules[i].1)).0
            <= u32::MAX
}

/// Cascade order is transitive.
proof fn lemma_cascade_transitive(
    a: (Seq<char>, int, int),
    b: (Seq<char>, int, int),
    c: (Seq<char>, int, int),
)
    requires
        cascade_before(a, b),
        cascade_before(b, c),
    ensures
        cascade_before(a, c),
{
    if a.2 == b.2 && b.2 == c.2 && a.1 == b.1 && b.1 == c.1 {
        keyed::lemma_lt_transitive(a.0, b.0, c.0);
    }
}

/// Candidates with different keys are ordered one way or the other.
proof fn lemma_cascade_total(a: (Seq<char>, int, int), b: (Seq<char>, int, int))
    requires
        a.0 != b.0,
    ensures
        cascade_before(a, b) || cascade_before(b, a),
{
    keyed::lemma_lt_total(a.0, b.0);
}

/// Whether candidate `a` goes before `b` (`cascade_before`).
fn goes_before(a: &(String, u32, usize), b: &(String, u32, usize)) -> (r: bool)
    ensures
        r == cascade_before((a.0@, a.1 as int, a.2 as int), (b.0@, b.1 as int, b.2 as int)),
{
    if a.2 != b.2 {
        a.2 < b.2
    } else if a.1 != b.1 {
        a.1 < b.1
    } else {
        let ka = text::str_to_chars(a.0.as_str());
        let kb = text::str_to_chars(b.0.as_str());
        keyed::chars_lt(&ka, &kb)
    }
}

/// Inserts `c` into candidates in cascade order, where no candidate has
/// its key.
fn insert_candidate(v: &mut Vec<(String, u32, usize)>, c: (String, u32, usize))
    requires
        cascade_sorted(cands_view(old(v)@)),
        forall|k: int| 0 <= k < old(v)@.len() ==> (#[trigger] old(v)@[k]).0@ != c.0@,
    ensures
        cascade_sorted(cands_view(final(v)@)),
        forall|x: (Seq<char>, int, int)|
            cands_view(final(v)@).contains(x) <==> (cands_view(old(v)@).contains(x) || x == (
                c.0@,
                c.1 as int,
                c.2 as int,
            )),
{
    let ghost s = cands_view(v@);
    let ghost x = (c.0@, c.1 as int, c.2 as int);
    let mut p: usize = 0;
    while p < v.len() && !goes_before(&c, &v[p])
        invariant
            p <= v@.len(),
            s == cands_view(v@),
            x == (c.0@, c.1 as int, c.2 as int),
            forall|k: int| 0 <= k < p ==> cascade_before(#[trigger] s[k], x),
            forall|k: int| 0 <= k < v@.len() ==> (#[trigger] v@[k]).0@ != c.0@,
        decreases v.len() - p,
    {
        proof {
            assert(s[p as int].0 != x.0);
            lemma_cascade_total(s[p as int], x);
        }
        p = p + 1;
    }
    v.insert(p, c);
    let ghost t = cands_view(v@);
    proof {
        assert(t =~= s.insert(p as int, x));
        assert forall|i: int, j: int| 0 <= i < j < t.len() implies cascade_before(
            #[trigger] t[i],
            #[trigger] t[j],
        ) by {
            if j < p {
            } else if j == p {
            } else if i < p {
                assert(t[j] == s[j - 1]);
                if p < s.len() {
                    assert(cascade_before(x, s[p as int]));
                    if j - 1 > p {
                        assert(cascade_before(s[p as int], s[j - 1]));
                        lemma_cascade_transitive(x, s[p as int], s[j - 1]);
                    }
                    lemma_cascade_transitive(s[i], x, s[j - 1]);
                }
            } else if i == p {
                assert(t[j] == s[j - 1]);
                assert(cascade_before(x, s[p as int]));
                if j - 1 > p {
                    assert(cascade_before(s[p as int], s[j - 1]));
                    lemma_cascade_transitive(x, s[p as int], s[j - 1]);
                }
            } else {
                assert(t[i] == s[i - 1]);
                assert(t[j] == s[j - 1]);
            }
        }
        assert forall|y: (Seq<char>, int, int)| t.contains(y) <==> (s.contains(y) || y == x) by {
            if t.contains(y) {
                let k = choose|k: int| 0 <= k < t.len() && t[k] == y;
                if k < p {
                    assert(s[k] == y);
                } else if k > p {
                    assert(s[k - 1] == y);
                }
            }
            if s.contains(y) {
                let k = choose|k: int| 0 <= k < s.len() && s[k] == y;
                if k < p {
                    assert(t[k] == y);
                } else {
                    assert(t[k + 1] == y);
                }
            }
            if y == x {
                assert(t[p as int] == y);
            }
        }
    }
}

/// The candidates among `rules` (by key) that take part in styling a
/// widget in `state` (`candidate_applies`), with or without pseudo classes
/// as `pseudo` says, in cascade order.
pub fn style_candidates(rules: &KeyedMap<StyleRule>, state: &UIWidgetState, pseudo: bool) -> (r: Vec<
    (String, u32, usize),
>)
    requires
        selectors_fit(rules.entries_spec()),
    ensures
        cascade_sorted(cands_view(r@)),
        forall|c: (Seq<char>, int, int)|
            cands_view(r@).contains(c) <==> exists|i: int|
                0 <= i < rules.entries_spec().len() && candidate_applies(
                    #[trigger] rules.entries_spec()[i].0,
                    rules.entries_spec()[i].1,
                    *state,
                    pseudo,
                ) && style_candidate(rules.entries_spec()[i].0, rules.entries_spec()[i].1) == c,
{
    let n = rules.len();
    let ghost es = rules.entries_spec();
    let mut out: Vec<(String, u32, usize)> = Vec::new();
    let mut i: usize = 0;
    while i < n
        invariant
            i <= n,
            n == es.len(),
            es == rules.entries_spec(),
            keyed::keys_sorted(es),
            selectors_fit(es),
            cascade_sorted(cands_view(out@)),
            forall|k: int|
                0 <= k < out@.len() ==> exists|j: int|
                    0 <= j < i && (#[trigger] out@[k]).0@ == es[j].0,
            forall|c: (Seq<char>, int, int)|
                cands_view(out@).contains(c) <==> exists|j: int|
                    0 <= j < i && candidate_applies(#[trigger] es[j].0, es[j].1, *state, pseudo)
                        && style_candidate(es[j].0, es[j].1) == c,
        decreases n - i,
    {
        let key = rules.key_at(i);
        let rule = rules.value_at(i);
        let selector = if rule.selector.as_str().unicode_len() == 0 {
            key.as_str()
        } else {
            rule.selector.as_str()
        };
        proof {
            assert(selector_meta(rule_selector(es[i as int].0, es[i as int].1)).0 <= u32::MAX);
        }
        let meta = compute_selector_metadata(selector);
        let applies = !meta.skip && selector_matches_state(meta, state) && meta.has_pseudo == pseudo;
        let ghost before = cands_view(out@);
        if applies {
            proof {
                assert forall|k: int| 0 <= k < out@.len() implies (#[trigger] out@[k]).0@ != key@ by {
                    let j = choose|j: int| 0 <= j < i && out@[k].0@ == es[j].0;
                    keyed::lemma_lt_irreflexive(es[j].0);
                }
            }
            let ghost old_out = out@;
            insert_candidate(&mut out, (String::from_str(key.as_str()), meta.specificity, rule.origin));
            proof {
                assert forall|k: int| 0 <= k < out@.len() implies exists|j: int|
                    0 <= j < i + 1 && (#[trigger] out@[k]).0@ == es[j].0 by {
                    let y = cands_view(out@)[k];
                    assert(cands_view(out@).contains(y));
                    if cands_view(old_out).contains(y) {
                        let m = choose|m: int| 0 <= m < old_out.len() && cands_view(old_out)[m] == y;
                        assert(old_out[m].0@ == y.0);
                    }
                }
            }
        }
        proof {
            assert forall|c: (Seq<char>, int, int)| cands_view(out@).contains(c) <==> exists|j: int|
                0 <= j < i + 1 && candidate_applies(#[trigger] es[j].0, es[j].1, *state, pseudo)
                    && style_candidate(es[j].0, es[j].1) == c by {
                if exists|j: int|
                    0 <= j < i + 1 && candidate_applies(#[trigger] es[j].0, es[j].1, *state, pseudo)
                        && style_candidate(es[j].0, es[j].1) == c {
                    let j = choose|j: int|
                        0 <= j < i + 1 && candidate_applies(
                            #[trigger] es[j].0,
                            es[j].1,
                            *state,
                            pseudo,
                        ) && style_candidate(es[j].0, es[j].1) == c;
                    if j < i {
                        assert(before.contains(c));
                    }
                }
            }
        }
        i = i + 1;
    }
    out
}

/// In cascade order a rule from a later stylesheet comes after (and so
/// overrides) one from an earlier stylesheet, and among rules of one
/// stylesheet a more specific selector comes after a less specific one.
pub proof fn law_later_and_more_specific_override(s: Seq<(Seq<char>, int, int)>)
    requires
        cascade_sorted(s),
    ensures
        forall|i: int, j: int|
            0 <= i < s.len() && 0 <= j < s.len() && (#[trigger] s[i]).2 < (#[trigger] s[j]).2
                ==> i < j,
        forall|i: int, j: int|
            0 <= i < s.len() && 0 <= j < s.len() && (#[trigger] s[i]).2 == (#[trigger] s[j]).2
                && s[i].1 < s[j].1 ==> i < j,
{
    assert forall|i: int, j: int|
        0 <= i < s.len() && 0 <= j < s.len() && (#[trigger] s[i]).2 < (#[trigger] s[j]).2 implies i
        < j by {
        if j < i {
            assert(cascade_before(s[j], s[i]));
        }
    }
    assert forall|i: int, j: int|
        0 <= i < s.len() && 0 <= j < s.len() && (#[trigger] s[i]).2 == (#[trigger] s[j]).2 && s[i].1
            < s[j].1 implies i < j by {
        if j < i {
            assert(cascade_before(s[j], s[i]));
        }
    }
}

/// Whether any of `rules` has a selector with pseudo classes that is not
/// skipped, so that a change of state can change the style.
pub fn ui_style_has_stateful_selectors(rules: &KeyedMap<StyleRule>) -> (r: bool)
    requires
        selectors_fit(rules.entries_spec()),
    ensures
        r == exists|i: int|
            0 <= i < rules.entries_spec().len() && {
                let m = selector_meta(
                    rule_selector(#[trigger] rules.entries_spec()[i].0, rules.entries_spec()[i].1),
                );
                !m.3 && m.2
            },
{
    let n = rules.len();
    let ghost es = rules.entries_spec();
    let mut i: usize = 0;
    while i < n
        invariant
            i <= n,
            n == es.len(),
            es == rules.entries_spec(),
            selectors_fit(es),
            forall|j: int|
                0 <= j < i ==> {
                    let m = selector_meta(rule_selector(#[trigger] es[j].0, es[j].1));
                    !(!m.3 && m.2)
                },
        decreases n - i,
    {
        let key = rules.key_at(i);
        let rule = rules.value_at(i);
        let selector = if rule.selector.as_str().unicode_len() == 0 {
            key.as_str()
        } else {
            rule.selector.as_str()
        };
        proof {
            assert(selector_meta(rule_selector(es[i as int].0, es[i as int].1)).0 <= u32::MAX);
        }
        let meta = compute_selector_metadata(selector);
        if !meta.skip && meta.has_pseudo {
            return true;
        }
        i = i + 1;
    }
    false
}

// ---------------------------------------------------------------------------
// Fonts
// ---------------------------------------------------------------------------

/// Font weight.
#[derive(Debug, Clone, Copy, PartialEq, Eq, Structural)]
pub enum FontWeight {
    Thin,
    ExtraLight,
    Light,
    Normal,
    Medium,
    SemiBold,
    Bold,
    ExtraBold,
    Black,
}

/// The token a weight has in font file names.
pub open spec fn weight_token(w: FontWeight) -> Seq<char> {
    match w {
        FontWeight::Thin => "Thin"@,
        FontWeight::ExtraLight => "ExtraLight"@,
        FontWeight::Light => "Light"@,
        FontWeight::Normal => "Regular"@,
        FontWeight::Medium => "Medium"@,
        FontWeight::SemiBold => "SemiBold"@,
        FontWeight::Bold => "Bold"@,
        FontWeight::ExtraBold => "ExtraBold"@,
        FontWeight::Black => "Black"@,
    }
}

/// The token a weight has in font file names (`weight_token`).
pub fn weight_token_exact(weight: FontWeight) -> (r: &'static str)
    ensures
        r@ == weight_token(weight),
{
    match weight {
        FontWeight::Thin => "Thin",
        FontWeight::ExtraLight => "ExtraLight",
        FontWeight::Light => "Light",
        FontWeight::Normal => "Regular",
        FontWeight::Medium => "Medium",
        FontWeight::SemiBold => "SemiBold",
        FontWeight::Bold => "Bold",
        FontWeight::ExtraBold => "ExtraBold",
        FontWeight::Black => "Black",
    }
}

/// The last `/` segment of a folder path, trailing slashes ignored.
pub open spec fn folder_base(folder: Seq<char>) -> Seq<char> {
    let t = widgets::trim_char_end(folder, '/');
    match uses::last_index(t, '/') {
        Some(i) => t.skip(i + 1),
        None => t,
    }
}

/// The last segment of a folder path (`folder_base`).
pub fn folder_basename(folder: &str) -> (r: String)
    ensures
        r@ == folder_base(folder@),
{
    let f = text::str_to_chars(folder);
    let mut hi: usize = f.len();
    assert(f@.take(f.len() as int) =~= f@);
    while hi > 0 && f[hi - 1] == '/'
        invariant
            hi <= f.len(),
            widgets::trim_char_end(f@, '/') == widgets::trim_char_end(f@.take(hi as int), '/'),
        decreases hi,
    {
        assert(f@.take(hi as int).drop_last() =~= f@.take(hi - 1));
        hi = hi - 1;
    }
    let t = text::slice_chars(&f, 0, hi);
    assert(t@ =~= f@.take(hi as int));
    assert(t@.take(t.len() as int) =~= t@);
    match uses::last_index_below(&t, t.len(), '/') {
        Some(i) => {
            let rest = text::slice_chars(&t, i + 1, t.len());
            text::chars_to_string(&rest)
        },
        None => text::chars_to_string(&t),
    }
}

/// A font folder as written in a style: trimmed, quotes stripped (`"` then
/// `'`), trailing slashes removed.
pub open spec fn font_folder(folder: Seq<char>) -> Seq<char> {
    widgets::trim_char_end(
        widgets::trim_matches(widgets::trim_matches(text::trim(folder), '"'), '\''),
        '/',
    )
}

/// The font file for a folder and weight: `folder/family-Token.ttf` with
/// the folder's last segment as family and `Regular` without a weight;
/// `None` for an empty folder.
pub open spec fn weighted_font(folder: Seq<char>, weight: Option<FontWeight>) -> Option<Seq<char>> {
    let f = font_folder(folder);
    if f.len() == 0 {
        None
    } else {
        let w = match weight {
            Some(w) => w,
            None => FontWeight::Normal,
        };
        Some(f + seq!['/'] + folder_base(f) + seq!['-'] + weight_token(w) + ".ttf"@)
    }
}

/// The font file a style's font folder and weight name (`weighted_font`);
/// loading it is left to the asset server.
pub fn weighted_font_path(folder: &str, weight: Option<FontWeight>) -> (r: Option<String>)
    ensures
        match weighted_font(folder@, weight) {
            Some(p) => r is Some && r->0@ == p,
            None => r is None,
        },
{
    let raw = text::str_to_chars(folder);
    let a = text::trim_chars(&raw);
    let b = widgets::trim_matches_exec(&a, '"');
    let c = widgets::trim_matches_exec(&b, '\'');
    let mut hi: usize = c.len();
    assert(c@.take(c.len() as int) =~= c@);
    while hi > 0 && c[hi - 1] == '/'
        invariant
            hi <= c.len(),
            widgets::trim_char_end(c@, '/') == widgets::trim_char_end(c@.take(hi as int), '/'),
        decreases hi,
    {
        assert(c@.take(hi as int).drop_last() =~= c@.take(hi - 1));
        hi = hi - 1;
    }
    let f = text::slice_chars(&c, 0, hi);
    assert(f@ =~= c@.take(hi as int));
    if f.len() == 0 {
        return None;
    }
    let fs = text::chars_to_string(&f);
    let family = folder_basename(fs.as_str());
    let w = match weight {
        Some(w) => w,
        None => FontWeight::Normal,
    };
    let token = weight_token_exact(w);
    let mut out = f.clone();
    assert(out@ =~= f@);
    out.push('/');
    text::append_str(&mut out, family.as_str());
    out.push('-');
    text::append_str(&mut out, token);
    text::append_str(&mut out, ".ttf");
    assert(out@ =~= f@ + seq!['/'] + folder_base(f@) + seq!['-'] + weight_token(w) + ".ttf"@);
    Some(text::chars_to_string(&out))
}

// ---------------------------------------------------------------------------
// Text transforms
// ---------------------------------------------------------------------------

/// `char::is_alphabetic`: the Unicode `Alphabetic` property.
pub uninterp spec fn char_alphabetic(c: char) -> bool;

/// `char::to_uppercase`: the characters of the Unicode uppercase mapping.
pub uninterp spec fn char_uppercase(c: char) -> Seq<char>;

/// `str::to_uppercase`: the Unicode uppercase mapping of a whole string.
pub uninterp spec fn str_uppercase(s: Seq<char>) -> Seq<char>;

/// Calls `char::is_alphabetic`; the Unicode property is named, not spelt
/// out.
#[verifier::external_body]
fn is_alphabetic_char(c: char) -> (r: bool)
    ensures
        r == char_alphabetic(c),
{
    c.is_alphabetic()
}

/// Calls `char::to_uppercase` and collects what it yields; the mapping is
/// named, not spelt out.
#[verifier::external_body]
fn uppercase_of(c: char) -> (r: Vec<char>)
    ensures
        r@ == char_uppercase(c),
{
    c.to_uppercase().collect()
}

/// Calls `str::to_uppercase`; the mapping is named, not spelt out.
#[verifier::external_body]
fn uppercase_string(s: &str) -> (r: String)
    ensures
        r@ == str_uppercase(s@),
{
    s.to_uppercase()
}

/// `Capitalize`: the first letter of each word uppercased, the other
/// letters lowercased; a word starts after any character that is neither a
/// letter nor alphanumeric. Returns the text and whether the next letter
/// starts a word.
pub open spec fn capitalized(s: Seq<char>) -> (Seq<char>, bool)
    decreases s.len(),
{
    if s.len() == 0 {
        (seq![], true)
    } else {
        let (prev, start) = capitalized(s.drop_last());
        let c = s.last();
        if char_alphabetic(c) {
            if start {
                (prev + char_uppercase(c), false)
            } else {
                (prev + uses::char_lowercase(c), false)
            }
        } else {
            (prev.push(c), !crate::render::char_alphanumeric(c))
        }
    }
}

/// Capitalizes each word (`capitalized`).
pub fn capitalize_words(input: &str) -> (r: String)
    ensures
        r@ == capitalized(input@).0,
{
    let s = text::str_to_chars(input);
    let mut out: Vec<char> = Vec::new();
    let mut start_word = true;
    let mut i: usize = 0;
    while i < s.len()
        invariant
            i <= s.len(),
            (out@, start_word) == capitalized(s@.take(i as int)),
        decreases s.len() - i,
    {
        assert(s@.take(i + 1).drop_last() =~= s@.take(i as int));
        let ch = s[i];
        if is_alphabetic_char(ch) {
            if start_word {
                let up = uppercase_of(ch);
                text::append_chars(&mut out, &up);
                start_word = false;
            } else {
                let low = uses::lowercase_of(ch);
                text::append_chars(&mut out, &low);
            }
        } else {
            out.push(ch);
            start_word = !crate::render::is_alphanumeric_char(ch);
        }
        i = i + 1;
    }
    assert(s@.take(s.len() as int) =~= s@);
    text::chars_to_string(&out)
}

/// How text is transformed before display.
#[derive(Debug, Clone, Copy, PartialEq, Eq, Structural)]
pub enum TextTransform {
    Unchanged,
    Uppercase,
    Lowercase,
    Capitalize,
}

/// `input` under a transform.
pub open spec fn transformed(t: TextTransform, input: Seq<char>) -> Seq<char> {
    match t {
        TextTransform::Unchanged => input,
        TextTransform::Uppercase => str_uppercase(input),
        TextTransform::Lowercase => widgets::str_lowercase(input),
        TextTransform::Capitalize => capitalized(input).0,
    }
}

/// Applies a text transform (`transformed`).
pub fn apply_text_transform(transform: TextTransform, input: &str) -> (r: String)
    ensures
        r@ == transformed(transform, input@),
{
    match transform {
        TextTransform::Unchanged => String::from_str(input),
        TextTransform::Uppercase => uppercase_string(input),
        TextTransform::Lowercase => widgets::lowercase_string(input),
        TextTransform::Capitalize => capitalize_words(input),
    }
}

/// Each pseudo class a selector requires must hold of the widget for the
/// selector to apply: `:read-only`, `:disabled`, `:checked`, `:focus`,
/// `:hover` and `:invalid` each fail on a widget lacking that state, and
/// `:checked`, `:focus` and `:hover` fail on a disabled widget.
pub proof fn law_required_pseudo_classes_must_hold(flags: u8, st: UIWidgetState)
    ensures
        flags & SELECTOR_READ_ONLY != 0 && !st.readonly ==> !matches_state(flags, st),
        flags & SELECTOR_DISABLED != 0 && !st.disabled ==> !matches_state(flags, st),
        flags & SELECTOR_CHECKED != 0 && !st.checked ==> !matches_state(flags, st),
        flags & SELECTOR_FOCUS != 0 && !st.focused ==> !matches_state(flags, st),
        flags & SELECTOR_HOVER != 0 && !st.hovered ==> !matches_state(flags, st),
        flags & SELECTOR_INVALID != 0 && !st.invalid ==> !matches_state(flags, st),
        (flags & SELECTOR_CHECKED != 0 || flags & SELECTOR_FOCUS != 0 || flags & SELECTOR_HOVER
            != 0) && st.disabled ==> !matches_state(flags, st),
{
}

/// A selector with a single pseudo class applies exactly in the states
/// that have it: `:focus` to a focused enabled widget, `:hover` to a hovered
/// enabled one, `:checked` to a checked enabled one, `:disabled`,
/// `:read-only` and `:invalid` to widgets in those states.
pub proof fn law_single_pseudo_class_applies_in_its_state(st: UIWidgetState)
    ensures
        matches_state(SELECTOR_FOCUS, st) <==> st.focused && !st.disabled,
        matches_state(SELECTOR_HOVER, st) <==> st.hovered && !st.disabled,
        matches_state(SELECTOR_CHECKED, st) <==> st.checked && !st.disabled,
        matches_state(SELECTOR_DISABLED, st) <==> st.disabled,
        matches_state(SELECTOR_READ_ONLY, st) <==> st.readonly,
        matches_state(SELECTOR_INVALID, st) <==> st.invalid,
{
    assert(1u8 & 1u8 != 0 && 1u8 & 2u8 == 0 && 1u8 & 4u8 == 0 && 1u8 & 8u8 == 0 && 1u8 & 16u8 == 0 && 1u8 & 32u8 == 0) by (bit_vector);
    assert(2u8 & 1u8 == 0 && 2u8 & 2u8 != 0 && 2u8 & 4u8 == 0 && 2u8 & 8u8 == 0 && 2u8 & 16u8 == 0 && 2u8 & 32u8 == 0) by (bit_vector);
    assert(4u8 & 1u8 == 0 && 4u8 & 2u8 == 0 && 4u8 & 4u8 != 0 && 4u8 & 8u8 == 0 && 4u8 & 16u8 == 0 && 4u8 & 32u8 == 0) by (bit_vector);
    assert(8u8 & 1u8 == 0 && 8u8 & 2u8 == 0 && 8u8 & 4u8 == 0 && 8u8 & 8u8 != 0 && 8u8 & 16u8 == 0 && 8u8 & 32u8 == 0) by (bit_vector);
    assert(16u8 & 1u8 == 0 && 16u8 & 2u8 == 0 && 16u8 & 4u8 == 0 && 16u8 & 8u8 == 0 && 16u8 & 16u8 != 0 && 16u8 & 32u8 == 0) by (bit_vector);
    assert(32u8 & 1u8 == 0 && 32u8 & 2u8 == 0 && 32u8 & 4u8 == 0 && 32u8 & 8u8 == 0 && 32u8 & 16u8 == 0 && 32u8 & 32u8 != 0) by (bit_vector);
}

} // verus!
