//! How the HTML converter reads the attributes and text of particular
//! elements into widget settings: names and labels, class lists, input
//! length caps, radio selection in field sets, the selected option of a
//! select, badge counts, slider and scroll settings, switch states, heading
//! levels and collapsed texts. An attribute is given by its value, `None`
//! when the element does not carry it.
use vstd::prelude::*;
use crate::text;
use crate::widgets;
use crate::widgets::{InputCap, HeadlineType, DividerAlignment};
use crate::components;
use crate::components::IconPlace;
use crate::keyed;
use crate::keyed::{KeyedMap, sorted_insert};

verus! {

/// The view of an optional string.
pub open spec fn opt_str(o: Option<&str>) -> Option<Seq<char>> {
    match o {
        Some(s) => Some(s@),
        None => None,
    }
}

// ---------------------------------------------------------------------------
// Names, labels and classes
// ---------------------------------------------------------------------------

/// The `name` of a form element: its `name` attribute, else its `id`, else
/// empty.
pub open spec fn element_name(name: Option<Seq<char>>, id: Option<Seq<char>>) -> Seq<char> {
    match name {
        Some(n) => n,
        None => match id {
            Some(i) => i,
            None => seq![],
        },
    }
}

/// The `name` of a form element (`element_name`).
pub fn element_name_exec(name: Option<&str>, id: Option<&str>) -> (r: String)
    ensures
        r@ == element_name(opt_str(name), opt_str(id)),
{
    match name {
        Some(n) => String::from_str(n),
        None => match id {
            Some(i) => String::from_str(i),
            None => {
                let e = String::new();
                assert(e@ =~= Seq::<char>::empty());
                e
            },
        },
    }
}

/// A trimmed attribute value, `None` when absent or blank.
pub open spec fn trimmed_nonempty(v: Option<Seq<char>>) -> Option<Seq<char>> {
    match v {
        Some(s) => if text::trim(s).len() == 0 {
            None
        } else {
            Some(text::trim(s))
        },
        None => None,
    }
}

/// A trimmed attribute value, `None` when absent or blank
/// (`trimmed_nonempty`).
pub fn trimmed_nonempty_exec(v: Option<&str>) -> (r: Option<String>)
    ensures
        match trimmed_nonempty(opt_str(v)) {
            Some(s) => r is Some && r->0@ == s,
            None => r is None,
        },
{
    match v {
        None => None,
        Some(s) => {
            let c = text::str_to_chars(s);
            let t = text::trim_chars(&c);
            if t.len() == 0 {
                None
            } else {
                Some(text::chars_to_string(&t))
            }
        },
    }
}

/// An attribute value kept when not empty (no trimming).
pub fn nonempty_exec(v: Option<&str>) -> (r: Option<String>)
    ensures
        match opt_str(v) {
            Some(s) => if s.len() == 0 {
                r is None
            } else {
                r is Some && r->0@ == s
            },
            None => r is None,
        },
{
    match v {
        None => None,
        Some(s) => if s.unicode_len() == 0 {
            None
        } else {
            Some(String::from_str(s))
        },
    }
}

/// The label of a date picker: its `label` attribute, else the text of the
/// `<label for>` naming its id, else `Date`.
pub open spec fn date_picker_label(label: Option<Seq<char>>, for_label: Option<Seq<char>>) -> Seq<
    char,
> {
    match label {
        Some(l) => l,
        None => match for_label {
            Some(l) => l,
            None => "Date"@,
        },
    }
}

/// The label of a date picker (`date_picker_label`); `for_label` is the
/// text of the label element whose `for` names the picker's id.
pub fn date_picker_label_exec(label: Option<&str>, for_label: Option<&str>) -> (r: String)
    ensures
        r@ == date_picker_label(opt_str(label), opt_str(for_label)),
{
    match label {
        Some(l) => String::from_str(l),
        None => match for_label {
            Some(l) => String::from_str(l),
            None => String::from_str("Date"),
        },
    }
}

/// Index of the first whitespace character at or after `i`.
pub open spec fn ws_from(s: Seq<char>, i: int) -> Option<int>
    decreases s.len() - i,
{
    if i < 0 || i >= s.len() {
        None
    } else if text::is_ws(s[i]) {
        Some(i)
    } else {
        ws_from(s, i + 1)
    }
}

/// The pieces of `s` between whitespace characters (empty ones included).
pub open spec fn ws_pieces(s: Seq<char>) -> Seq<Seq<char>>
    decreases s.len(),
{
    match ws_from(s, 0) {
        Some(i) => if 0 <= i < s.len() {
            seq![s.take(i)] + ws_pieces(s.skip(i + 1))
        } else {
            seq![s]
        },
        None => seq![s],
    }
}

/// The non-empty pieces, in order (`str::split_whitespace`).
pub open spec fn words(pieces: Seq<Seq<char>>) -> Seq<Seq<char>>
    decreases pieces.len(),
{
    if pieces.len() == 0 {
        seq![]
    } else if pieces.last().len() == 0 {
        words(pieces.drop_last())
    } else {
        words(pieces.drop_last()).push(pieces.last())
    }
}

fn ws_pieces_exec(s: &Vec<char>) -> (r: Vec<Vec<char>>)
    ensures
        crate::uses::vecs_view(r@) == ws_pieces(s@),
    decreases s.len(),
{
    let mut i: usize = 0;
    while i < s.len() && !text::is_ws_char(s[i])
        invariant
            i <= s.len(),
            ws_from(s@, 0) == ws_from(s@, i as int),
        decreases s.len() - i,
    {
        i = i + 1;
    }
    if i < s.len() {
        let head = text::slice_chars(s, 0, i);
        let tail = text::slice_chars(s, i + 1, s.len());
        assert(tail@ == s@.skip(i + 1));
        let rest = ws_pieces_exec(&tail);
        let mut out: Vec<Vec<char>> = Vec::new();
        out.push(head);
        let mut k: usize = 0;
        while k < rest.len()
            invariant
                k <= rest.len(),
                crate::uses::vecs_view(out@) == seq![s@.take(i as int)] + crate::uses::vecs_view(
                    rest@,
                ).take(k as int),
            decreases rest.len() - k,
        {
            let e = rest[k].clone();
            assert(e@ =~= rest@[k as int]@);
            let ghost prev = crate::uses::vecs_view(out@);
            out.push(e);
            assert(crate::uses::vecs_view(out@) =~= prev.push(rest@[k as int]@));
            assert(crate::uses::vecs_view(rest@).take(k + 1) =~= crate::uses::vecs_view(
                rest@,
            ).take(k as int).push(rest@[k as int]@));
            k = k + 1;
        }
        assert(crate::uses::vecs_view(rest@).take(rest.len() as int) =~= crate::uses::vecs_view(
            rest@,
        ));
        out
    } else {
        let mut out: Vec<Vec<char>> = Vec::new();
        out.push(s.clone());
        assert(crate::uses::vecs_view(out@) =~= seq![s@]);
        out
    }
}

/// The words of a text (`words` of `ws_pieces`: `str::split_whitespace`).
pub fn split_whitespace_exec(s: &str) -> (r: Vec<String>)
    ensures
        Seq::new(r@.len(), |i: int| r@[i]@) == words(ws_pieces(s@)),
{
    let c = text::str_to_chars(s);
    let pieces = ws_pieces_exec(&c);
    let ghost pv = crate::uses::vecs_view(pieces@);
    let mut out: Vec<String> = Vec::new();
    let mut i: usize = 0;
    assert(Seq::new(out@.len(), |k: int| out@[k]@) =~= words(pv.take(0)));
    while i < pieces.len()
        invariant
            i <= pieces.len(),
            pv == crate::uses::vecs_view(pieces@),
            Seq::new(out@.len(), |k: int| out@[k]@) == words(pv.take(i as int)),
        decreases pieces.len() - i,
    {
        assert(pv.take(i + 1).drop_last() =~= pv.take(i as int));
        assert(pv.take(i + 1).last() == pieces@[i as int]@);
        if pieces[i].len() != 0 {
            let ghost prev = Seq::new(out@.len(), |k: int| out@[k]@);
            out.push(text::chars_to_string(&pieces[i]));
            assert(Seq::new(out@.len(), |k: int| out@[k]@) =~= prev.push(pieces@[i as int]@));
        }
        i = i + 1;
    }
    assert(pv.take(pieces.len() as int) =~= pv);
    out
}

/// The words joined by single spaces.
pub open spec fn join_words(w: Seq<Seq<char>>) -> Seq<char>
    decreases w.len(),
{
    if w.len() == 0 {
        seq![]
    } else if w.len() == 1 {
        w[0]
    } else {
        join_words(w.drop_last()) + seq![' '] + w.last()
    }
}

/// A text with its runs of whitespace collapsed to single spaces and no
/// whitespace at either end (`join_words` of the words).
pub fn collapse_whitespace(s: &str) -> (r: String)
    ensures
        r@ == join_words(words(ws_pieces(s@))),
{
    let w = split_whitespace_exec(s);
    let ghost wv = Seq::new(w@.len(), |k: int| w@[k]@);
    let mut out: Vec<char> = Vec::new();
    let mut i: usize = 0;
    assert(out@ =~= join_words(wv.take(0)));
    while i < w.len()
        invariant
            i <= w.len(),
            wv == Seq::new(w@.len(), |k: int| w@[k]@),
            out@ == join_words(wv.take(i as int)),
        decreases w.len() - i,
    {
        assert(wv.take(i + 1).drop_last() =~= wv.take(i as int));
        assert(wv.take(i + 1).last() == w@[i as int]@);
        if i > 0 {
            out.push(' ');
        }
        let ghost before = out@;
        text::append_str(&mut out, w[i].as_str());
        proof {
            if i == 0 {
                assert(wv.take(1) =~= seq![w@[0]@]);
                assert(out@ =~= w@[0]@);
            }
        }
        i = i + 1;
    }
    assert(wv.take(w.len() as int) =~= wv);
    text::chars_to_string(&out)
}

// ---------------------------------------------------------------------------
// Inputs
// ---------------------------------------------------------------------------

/// The length cap a `maxlength` attribute sets: `auto` (trimmed, ASCII case
/// ignored) caps at the node size, blank or absent means no cap, anything
/// else is a `usize` (zero when it does not parse).
pub open spec fn input_cap(maxlength: Option<Seq<char>>) -> InputCap {
    match maxlength {
        None => InputCap::NoCap,
        Some(v) => if widgets::norm(v) == "auto"@ {
            InputCap::CapAtNodeSize
        } else if text::trim(v).len() == 0 {
            InputCap::NoCap
        } else {
            match widgets::parse_length(text::trim(v)) {
                Some(n) => InputCap::CapAt(n),
                None => InputCap::CapAt(0),
            }
        },
    }
}

/// The length cap of an input (`input_cap`).
pub fn input_cap_exec(maxlength: Option<&str>) -> (r: InputCap)
    ensures
        r == input_cap(opt_str(maxlength)),
{
    match maxlength {
        None => InputCap::NoCap,
        Some(v) => {
            let n = widgets::norm_exec(v);
            if text::chars_eq_str(&n, "auto") {
                return InputCap::CapAtNodeSize;
            }
            let c = text::str_to_chars(v);
            let t = text::trim_chars(&c);
            if t.len() == 0 {
                return InputCap::NoCap;
            }
            match text::parse_unsigned_chars(&t, usize::MAX as u64) {
                Some(n) => InputCap::CapAt(n as usize),
                None => InputCap::CapAt(0),
            }
        },
    }
}

// ---------------------------------------------------------------------------
// Choices
// ---------------------------------------------------------------------------

/// Which radios of a field set start selected, given which carry a
/// `selected` attribute: when any does, only the first of those; otherwise
/// the first radio, unless the set allows no selection.
pub open spec fn radio_selection(marked: Seq<bool>, allow_none: bool) -> Seq<bool> {
    let any = exists|i: int| 0 <= i < marked.len() && marked[i];
    Seq::new(
        marked.len(),
        |i: int|
            if any {
                marked[i] && forall|j: int| 0 <= j < i ==> !marked[j]
            } else {
                i == 0 && !allow_none
            },
    )
}

/// Which radios start selected (`radio_selection`).
pub fn fieldset_radio_selection(marked: &Vec<bool>, allow_none: bool) -> (r: Vec<bool>)
    ensures
        r@ == radio_selection(marked@, allow_none),
{
    let mut any = false;
    let mut k: usize = 0;
    while k < marked.len()
        invariant
            k <= marked.len(),
            any == exists|j: int| 0 <= j < k && marked@[j],
        decreases marked.len() - k,
    {
        if marked[k] {
            any = true;
        }
        k = k + 1;
    }
    let mut out: Vec<bool> = Vec::new();
    let mut selected_used = false;
    let mut first_radio_seen = false;
    let mut i: usize = 0;
    while i < marked.len()
        invariant
            i <= marked.len(),
            any == exists|j: int| 0 <= j < marked.len() && marked@[j],
            out@ == radio_selection(marked@, allow_none).take(i as int),
            first_radio_seen == (i > 0),
            any ==> selected_used == exists|j: int| 0 <= j < i && marked@[j],
            !any ==> selected_used == (i > 0 && !allow_none),
        decreases marked.len() - i,
    {
        let selected = if any {
            if marked[i] && !selected_used {
                selected_used = true;
                true
            } else {
                false
            }
        } else if !selected_used && !allow_none && !first_radio_seen {
            selected_used = true;
            true
        } else {
            false
        };
        first_radio_seen = true;
        out.push(selected);
        assert(out@ =~= radio_selection(marked@, allow_none).take(i + 1));
        i = i + 1;
    }
    assert(radio_selection(marked@, allow_none).take(marked.len() as int) =~= radio_selection(
        marked@,
        allow_none,
    ));
    out
}

/// A field set starts with at most one radio selected.
pub proof fn law_at_most_one_radio(marked: Seq<bool>, allow_none: bool)
    ensures
        forall|i: int, j: int|
            0 <= i < j < marked.len() ==> !(radio_selection(marked, allow_none)[i]
                && radio_selection(marked, allow_none)[j]),
{
}

/// A field set that needs a selection and holds radios starts with one of
/// them selected: the first carrying `selected`, else the first radio.
pub proof fn law_one_radio_when_required(marked: Seq<bool>)
    requires
        marked.len() > 0,
    ensures
        exists|i: int|
            0 <= i < marked.len() && #[trigger] radio_selection(marked, false)[i] && (marked[i]
                || forall|j: int| 0 <= j < marked.len() ==> !marked[j]),
{
    if exists|i: int| 0 <= i < marked.len() && marked[i] {
        let k = choose|i: int| 0 <= i < marked.len() && marked[i];
        let f = first_marked(marked, k);
        assert(radio_selection(marked, false)[f]);
    } else {
        assert(radio_selection(marked, false)[0]);
    }
}

/// The first marked position at or before `k`, where `k` is marked.
proof fn first_marked(marked: Seq<bool>, k: int) -> (f: int)
    requires
        0 <= k < marked.len(),
        marked[k],
    ensures
        0 <= f <= k,
        marked[f],
        forall|j: int| 0 <= j < f ==> !marked[j],
    decreases k,
{
    if exists|j: int| 0 <= j < k && marked[j] {
        let j = choose|j: int| 0 <= j < k && marked[j];
        first_marked(marked, j)
    } else {
        k
    }
}

/// The option a select starts with: the last option carrying `selected`,
/// else the first option; `None` without options.
pub fn selected_option_index(marked: &Vec<bool>) -> (r: Option<usize>)
    ensures
        match r {
            Some(i) => i < marked.len() && ((exists|k: int| 0 <= k < marked.len() && marked@[k])
                ==> (marked@[i as int] && forall|j: int| i < j < marked.len() ==> !marked@[j])) && (
            !(exists|k: int| 0 <= k < marked.len() && marked@[k]) ==> i == 0),
            None => marked.len() == 0,
        },
{
    let mut last: Option<usize> = None;
    let mut i: usize = 0;
    while i < marked.len()
        invariant
            i <= marked.len(),
            match last {
                Some(l) => l < i && marked@[l as int] && forall|j: int| l < j < i ==> !marked@[j],
                None => forall|j: int| 0 <= j < i ==> !marked@[j],
            },
        decreases marked.len() - i,
    {
        if marked[i] {
            last = Some(i);
        }
        i = i + 1;
    }
    match last {
        Some(l) => Some(l),
        None => if marked.len() > 0 {
            Some(0)
        } else {
            None
        },
    }
}

// ---------------------------------------------------------------------------
// Badges, sliders, scrolls, switches, headings, dividers
// ---------------------------------------------------------------------------

/// A `u32` from trimmed text.
pub open spec fn parse_u32(s: Seq<char>) -> Option<u32> {
    match text::parse_unsigned(text::trim(s), u32::MAX as nat) {
        Some(v) => Some(v as u32),
        None => None,
    }
}

fn parse_u32_exec(s: &str) -> (r: Option<u32>)
    ensures
        r == parse_u32(s@),
{
    let c = text::str_to_chars(s);
    let t = text::trim_chars(&c);
    match text::parse_unsigned_chars(&t, u32::MAX as u64) {
        Some(v) => Some(v as u32),
        None => None,
    }
}

/// The number a badge shows: its `value` attribute, else `count`, read as a
/// `u32`; else its text read as a `u32`; else zero.
pub open spec fn badge_value(value: Option<Seq<char>>, count: Option<Seq<char>>, txt: Seq<char>) -> u32 {
    let attr = match value {
        Some(v) => Some(v),
        None => count,
    };
    let from_attr = match attr {
        Some(a) => parse_u32(a),
        None => None,
    };
    match from_attr {
        Some(n) => n,
        None => match parse_u32(txt) {
            Some(n) => n,
            None => 0,
        },
    }
}

/// The number a badge shows (`badge_value`).
pub fn badge_value_exec(value: Option<&str>, count: Option<&str>, txt: &str) -> (r: u32)
    ensures
        r == badge_value(opt_str(value), opt_str(count), txt@),
{
    let attr = match value {
        Some(v) => Some(v),
        None => count,
    };
    let from_attr = match attr {
        Some(a) => parse_u32_exec(a),
        None => None,
    };
    match from_attr {
        Some(n) => n,
        None => match parse_u32_exec(txt) {
            Some(n) => n,
            None => 0,
        },
    }
}

/// The largest number a badge shows before it saturates: its `max`
/// attribute as a `u32`, else 99.
pub fn badge_max(max: Option<&str>) -> (r: u32)
    ensures
        r == (match opt_str(max) {
            Some(m) => match parse_u32(m) {
                Some(n) => n,
                None => 99,
            },
            None => 99,
        }),
{
    match max {
        Some(m) => match parse_u32_exec(m) {
            Some(n) => n,
            None => 99,
        },
        None => 99,
    }
}

/// An `i32` as `str::parse` reads it: an optional sign, then decimal
/// digits, within range.
pub open spec fn parse_i32(s: Seq<char>) -> Option<int> {
    if s.len() > 0 && s[0] == '-' {
        let body = s.drop_first();
        if body.len() > 0 && text::all_digits(body) && text::digits_val(body) <= 0x8000_0000 {
            Some(-(text::digits_val(body) as int))
        } else {
            None
        }
    } else {
        match text::parse_unsigned(s, 0x7fff_ffff) {
            Some(v) => Some(v as int),
            None => None,
        }
    }
}

/// The number of slider dots a `dots` attribute asks for: a trimmed `i32`,
/// at least one; `None` when absent or not a number.
pub open spec fn slider_dots(dots: Option<Seq<char>>) -> Option<u32> {
    match dots {
        None => None,
        Some(d) => match parse_i32(text::trim(d)) {
            None => None,
            Some(v) => Some(
                if v <= 1 {
                    1u32
                } else {
                    v as u32
                },
            ),
        },
    }
}

/// The number of slider dots (`slider_dots`).
pub fn slider_dots_exec(dots: Option<&str>) -> (r: Option<u32>)
    ensures
        r == slider_dots(opt_str(dots)),
{
    let d = match dots {
        None => return None,
        Some(d) => d,
    };
    let c = text::str_to_chars(d);
    let t = text::trim_chars(&c);
    if t.len() > 0 && t[0] == '-' {
        let body = text::slice_chars(&t, 1, t.len());
        assert(body@ == t@.drop_first());
        match text::parse_unsigned_chars(&body, 0x8000_0000) {
            Some(_v) => {
                if body.len() > 0 && body[0] == '+' {
                    None
                } else {
                    Some(1)
                }
            },
            None => None,
        }
    } else {
        match text::parse_unsigned_chars(&t, 0x7fff_ffff) {
            Some(v) => Some(
                if v <= 1 {
                    1
                } else {
                    v as u32
                },
            ),
            None => None,
        }
    }
}

/// Whether a slider shows its value tip: yes without a `tip` attribute;
/// otherwise when it is blank or `true` (trimmed, ASCII case ignored).
pub fn slider_show_tip(tip: Option<&str>) -> (r: bool)
    ensures
        r == (match opt_str(tip) {
            None => true,
            Some(t) => widgets::norm(t).len() == 0 || widgets::norm(t) == "true"@,
        }),
{
    match tip {
        None => true,
        Some(t) => {
            let n = widgets::norm_exec(t);
            n.len() == 0 || text::chars_eq_str(&n, "true")
        },
    }
}

/// Whether a scroll bar is vertical: unless its `alignment` is `horizontal`
/// (ASCII case ignored, not trimmed).
pub fn scroll_vertical(alignment: Option<&str>) -> (r: bool)
    ensures
        r == !(match opt_str(alignment) {
            Some(a) => text::ascii_lower(a) == "horizontal"@,
            None => false,
        }),
{
    match alignment {
        None => true,
        Some(a) => {
            let c = text::str_to_chars(a);
            let l = text::lower_chars(&c);
            !text::chars_eq_str(&l, "horizontal")
        },
    }
}

/// Whether a switch starts on: its `value` attribute when present, else its
/// `checked` attribute, read as boolean attributes.
pub fn switch_selected(value: Option<&str>, checked: Option<&str>) -> (r: bool)
    ensures
        r == (match opt_str(value) {
            Some(v) => crate::attrs::bool_attribute(Some(v)),
            None => crate::attrs::bool_attribute(opt_str(checked)),
        }),
{
    match value {
        Some(_) => crate::attrs::parse_bool_attribute(value),
        None => crate::attrs::parse_bool_attribute(checked),
    }
}

/// The level a heading tag names: `h1`..`h6`, else `h3`.
pub open spec fn headline_level(tag: Seq<char>) -> HeadlineType {
    if tag == "h1"@ {
        HeadlineType::H1
    } else if tag == "h2"@ {
        HeadlineType::H2
    } else if tag == "h3"@ {
        HeadlineType::H3
    } else if tag == "h4"@ {
        HeadlineType::H4
    } else if tag == "h5"@ {
        HeadlineType::H5
    } else if tag == "h6"@ {
        HeadlineType::H6
    } else {
        HeadlineType::H3
    }
}

/// The heading level of a tag `h1` to `h6` (`H3` for any other tag).
pub fn headline_type_for_tag(tag: &str) -> (r: HeadlineType)
    ensures
        r == headline_level(tag@),
{
    let t = text::str_to_chars(tag);
    if text::chars_eq_str(&t, "h1") {
        HeadlineType::H1
    } else if text::chars_eq_str(&t, "h2") {
        HeadlineType::H2
    } else if text::chars_eq_str(&t, "h3") {
        HeadlineType::H3
    } else if text::chars_eq_str(&t, "h4") {
        HeadlineType::H4
    } else if text::chars_eq_str(&t, "h5") {
        HeadlineType::H5
    } else if text::chars_eq_str(&t, "h6") {
        HeadlineType::H6
    } else {
        HeadlineType::H3
    }
}

/// The orientation of a divider: its `alignment` attribute (horizontal when
/// absent) parsed, vertical when it does not parse.
pub fn divider_alignment_attribute(alignment: Option<&str>) -> (r: DividerAlignment)
    ensures
        r == (match widgets::divider_alignment(
            match opt_str(alignment) {
                Some(a) => a,
                None => "horizontal"@,
            },
        ) {
            Some(d) => d,
            None => DividerAlignment::Vertical,
        }),
{
    let a = match alignment {
        Some(a) => a,
        None => "horizontal",
    };
    match DividerAlignment::from_str(a) {
        Some(d) => d,
        None => DividerAlignment::Vertical,
    }
}

// ---------------------------------------------------------------------------
// Icons, labels and the body
// ---------------------------------------------------------------------------

/// A node of an HTML document.
pub enum ChildNode {
    /// An element: its local name, its attributes by lowercase name, the
    /// text of all its descendants, the HTML of its child nodes as the
    /// parser writes it out, and its child nodes.
    Element {
        name: String,
        attrs: KeyedMap<String>,
        text: String,
        html: String,
        children: Vec<ChildNode>,
    },
    /// A text node.
    Text(String),
    /// Anything else (comments and the like).
    Other,
}

/// The icon found among `children` so far, where it sits, and whether
/// non-blank text came before: each `<icon src=..>` child sets the icon,
/// and puts it on the right when non-blank text was seen before it.
pub open spec fn icon_scan(children: Seq<ChildNode>) -> (Option<Seq<char>>, IconPlace, bool)
    decreases children.len(),
{
    if children.len() == 0 {
        (None, IconPlace::Left, false)
    } else {
        let (icon, place, found) = icon_scan(children.drop_last());
        match children.last() {
            ChildNode::Element { name, attrs, text, .. } => if name@ == "icon"@ && keyed::key_value(
                attrs.entries_spec(),
                "src"@,
            ) is Some {
                (
                    Some(keyed::key_value(attrs.entries_spec(), "src"@)->0),
                    if found {
                        IconPlace::Right
                    } else {
                        place
                    },
                    found,
                )
            } else {
                (icon, place, found)
            },
            ChildNode::Text(t) => if text::trim(t@).len() > 0 {
                (icon, place, true)
            } else {
                (icon, place, found)
            },
            ChildNode::Other => (icon, place, found),
        }
    }
}

/// The icon of a button-like element and its side of the text
/// (`icon_scan`).
pub fn parse_icon_and_text(children: &Vec<ChildNode>) -> (r: (Option<String>, IconPlace))
    ensures
        components::opt_str(r.0) == icon_scan(children@).0,
        r.1 == icon_scan(children@).1,
{
    let mut icon: Option<String> = None;
    let mut place = IconPlace::Left;
    let mut found = false;
    let mut i: usize = 0;
    while i < children.len()
        invariant
            i <= children@.len(),
            (components::opt_str(icon), place, found) == icon_scan(children@.take(i as int)),
        decreases children.len() - i,
    {
        assert(children@.take(i + 1).drop_last() =~= children@.take(i as int));
        match &children[i] {
            ChildNode::Element { name, attrs, .. } => {
                let n = text::str_to_chars(name.as_str());
                if text::chars_eq_str(&n, "icon") {
                    let src_key = text::str_to_chars("src");
                    match attrs.get(&src_key) {
                        Some(s) => {
                            icon = Some(String::from_str(s.as_str()));
                            if found {
                                place = IconPlace::Right;
                            }
                        },
                        None => {},
                    }
                }
            },
            ChildNode::Text(t) => {
                let c = text::str_to_chars(t.as_str());
                let tr = text::trim_chars(&c);
                if tr.len() > 0 {
                    found = true;
                }
            },
            ChildNode::Other => {},
        }
        i = i + 1;
    }
    assert(children@.take(children@.len() as int) =~= children@);
    (icon, place)
}

/// Label texts by the id their `for` names: each label with a `for`
/// binds that id to its text trimmed, a later label replacing an earlier.
pub open spec fn labels_for(labels: Seq<(Option<Seq<char>>, Seq<char>)>) -> Seq<
    (Seq<char>, Seq<char>),
>
    decreases labels.len(),
{
    if labels.len() == 0 {
        seq![]
    } else {
        let m = labels_for(labels.drop_last());
        match labels.last().0 {
            Some(k) => sorted_insert(m, k, text::trim(labels.last().1)),
            None => m,
        }
    }
}

/// View of labels given by their `for` attribute and text.
pub open spec fn labels_view(labels: Seq<(Option<String>, String)>) -> Seq<
    (Option<Seq<char>>, Seq<char>),
> {
    Seq::new(labels.len(), |i: int| (components::opt_str(labels[i].0), labels[i].1@))
}

/// Label texts by the id their `for` attribute names (`labels_for`), from
/// the labels of a document in document order.
pub fn collect_labels_by_for(labels: &Vec<(Option<String>, String)>) -> (r: KeyedMap<String>)
    ensures
        r.entries_spec() == labels_for(labels_view(labels@)),
{
    let ghost v = labels_view(labels@);
    let mut out: KeyedMap<String> = KeyedMap::new();
    let mut i: usize = 0;
    while i < labels.len()
        invariant
            i <= labels@.len(),
            v == labels_view(labels@),
            out.entries_spec() == labels_for(v.take(i as int)),
        decreases labels.len() - i,
    {
        assert(v.take(i + 1).drop_last() =~= v.take(i as int));
        let (f, t) = &labels[i];
        match f {
            Some(k) => {
                let c = text::str_to_chars(t.as_str());
                let tr = text::trim_chars(&c);
                out.insert(k.as_str(), text::chars_to_string(&tr));
            },
            None => {},
        }
        i = i + 1;
    }
    assert(v.take(labels@.len() as int) =~= v);
    out
}

/// Which of several `<body>` elements to build from, given how many nodes
/// each holds: the last of those holding the most; `None` without one.
pub fn select_primary_body_node(sizes: &Vec<usize>) -> (r: Option<usize>)
    ensures
        r is None <==> sizes@.len() == 0,
        r is Some ==> r->0 < sizes@.len() && (forall|j: int|
            0 <= j < sizes@.len() ==> #[trigger] sizes@[j] <= sizes@[r->0 as int]) && (forall|
            j: int,
        |
            r->0 < j < sizes@.len() ==> #[trigger] sizes@[j] < sizes@[r->0 as int]),
{
    let mut best: Option<usize> = None;
    let mut best_size: usize = 0;
    let mut i: usize = 0;
    while i < sizes.len()
        invariant
            i <= sizes@.len(),
            best is None <==> i == 0,
            best is None ==> best_size == 0,
            best is Some ==> best->0 < i && best_size == sizes@[best->0 as int],
            forall|j: int| 0 <= j < i ==> #[trigger] sizes@[j] <= best_size,
            best is Some ==> forall|j: int| best->0 < j < i ==> #[trigger] sizes@[j] < best_size,
        decreases sizes.len() - i,
    {
        if sizes[i] >= best_size {
            best_size = sizes[i];
            best = Some(i);
        }
        i = i + 1;
    }
    best
}

/// When radios of a field set carry `selected`, the first of them starts
/// selected and no other radio does, whether or not the set allows no
/// selection: `allow-none` then changes nothing.
pub proof fn law_first_marked_radio_starts_selected(marked: Seq<bool>, allow_none: bool, i: int)
    requires
        0 <= i < marked.len(),
        marked[i],
        forall|j: int| 0 <= j < i ==> !marked[j],
    ensures
        radio_selection(marked, allow_none).len() == marked.len(),
        radio_selection(marked, allow_none)[i],
        forall|k: int| 0 <= k < marked.len() && k != i ==> !radio_selection(marked, allow_none)[k],
        radio_selection(marked, true) == radio_selection(marked, false),
{
    assert(radio_selection(marked, true) =~= radio_selection(marked, false));
}

/// Without any `selected` radio, a field set that allows no selection
/// starts with none selected, and one that needs a selection starts with
/// its first radio.
pub proof fn law_unmarked_radios_follow_allow_none(marked: Seq<bool>)
    requires
        forall|j: int| 0 <= j < marked.len() ==> !marked[j],
    ensures
        forall|k: int| 0 <= k < marked.len() ==> !radio_selection(marked, true)[k],
        marked.len() > 0 ==> radio_selection(marked, false)[0],
        forall|k: int| 0 < k < marked.len() ==> !radio_selection(marked, false)[k],
{
}

} // verus!
