//! Element attributes as the HTML converter reads them: boolean flags, file
//! extension lists, `for` targets, validation rules, tooltip triggers,
//! relative asset paths, stable element identifiers and template binding
//! roots. An attribute is given by its value, `None` when the element does
//! not carry it.
use vstd::prelude::*;
use crate::text;
use crate::widgets;
use crate::widgets::{ValidationRules, ToolTipTrigger};
use crate::registry;

verus! {

// ---------------------------------------------------------------------------
// Flags and lists
// ---------------------------------------------------------------------------

/// A boolean attribute: absent is false; present with a blank value (a bare
/// attribute such as `checked`) is true; otherwise, trimmed and ASCII
/// lowercased, `true`/`1`/`yes`/`on`/`checked`/`selected` are true and
/// everything else is false.
pub open spec fn bool_attribute(value: Option<Seq<char>>) -> bool {
    match value {
        None => false,
        Some(v) => {
            let n = widgets::norm(v);
            n.len() == 0 || n == "true"@ || n == "1"@ || n == "yes"@ || n == "on"@ || n
                == "checked"@ || n == "selected"@
        },
    }
}

/// Reads a boolean attribute (`bool_attribute`).
pub fn parse_bool_attribute(value: Option<&str>) -> (r: bool)
    ensures
        r == bool_attribute(
            match value {
                Some(v) => Some(v@),
                None => None,
            },
        ),
{
    let v = match value {
        None => return false,
        Some(v) => v,
    };
    let n = widgets::norm_exec(v);
    if n.len() == 0 {
        return true;
    }
    text::chars_eq_str(&n, "true") || text::chars_eq_str(&n, "1") || text::chars_eq_str(&n, "yes")
        || text::chars_eq_str(&n, "on") || text::chars_eq_str(&n, "checked")
        || text::chars_eq_str(&n, "selected")
}

/// An extension token: trimmed, quotes stripped (`"` then `'`), leading
/// dots stripped.
pub open spec fn extension_token(t: Seq<char>) -> Seq<char> {
    widgets::trim_char_start(
        widgets::trim_matches(widgets::trim_matches(text::trim(t), '"'), '\''),
        '.',
    )
}

/// The non-empty extension tokens of `items`, ASCII lowercased, in order.
pub open spec fn extension_list(items: Seq<Seq<char>>) -> Seq<Seq<char>>
    decreases items.len(),
{
    if items.len() == 0 {
        seq![]
    } else {
        let rest = extension_list(items.drop_last());
        let t = extension_token(items.last());
        if t.len() == 0 {
            rest
        } else {
            rest.push(text::ascii_lower(t))
        }
    }
}

/// The file extensions an `extensions` attribute lists, as `png` or
/// `[".png", "jpg"]`: comma-separated, brackets optional, empty entries
/// dropped.
pub open spec fn extensions_attribute(raw: Option<Seq<char>>) -> Seq<Seq<char>> {
    match raw {
        None => seq![],
        Some(v) => {
            let t = text::trim(v);
            if t.len() == 0 {
                seq![]
            } else {
                let inner = if t.len() >= 2 && t[0] == '[' && t.last() == ']' {
                    t.subrange(1, t.len() - 1)
                } else {
                    t
                };
                extension_list(crate::uses::split_on(inner, ','))
            }
        },
    }
}

/// `str::trim_start_matches` with a character (`trim_char_start`).
pub(crate) fn trim_start_char(s: &Vec<char>, c: char) -> (r: Vec<char>)
    ensures
        r@ == widgets::trim_char_start(s@, c),
{
    let mut lo: usize = 0;
    assert(s@.skip(0) =~= s@);
    while lo < s.len() && s[lo] == c
        invariant
            lo <= s.len(),
            widgets::trim_char_start(s@, c) == widgets::trim_char_start(s@.skip(lo as int), c),
        decreases s.len() - lo,
    {
        assert(s@.skip(lo as int).drop_first() =~= s@.skip(lo + 1));
        lo = lo + 1;
    }
    let r = text::slice_chars(s, lo, s.len());
    assert(r@ =~= s@.skip(lo as int));
    r
}

/// Reads an `extensions` attribute (`extensions_attribute`).
pub fn parse_extensions_attribute(raw: Option<&str>) -> (r: Vec<String>)
    ensures
        Seq::new(r@.len(), |i: int| r@[i]@) == extensions_attribute(
            match raw {
                Some(v) => Some(v@),
                None => None,
            },
        ),
{
    let mut out: Vec<String> = Vec::new();
    let v = match raw {
        None => {
            assert(Seq::new(out@.len(), |i: int| out@[i]@) =~= Seq::<Seq<char>>::empty());
            return out;
        },
        Some(v) => v,
    };
    let vc = text::str_to_chars(v);
    let t = text::trim_chars(&vc);
    if t.len() == 0 {
        assert(Seq::new(out@.len(), |i: int| out@[i]@) =~= Seq::<Seq<char>>::empty());
        return out;
    }
    let inner = if t.len() >= 2 && t[0] == '[' && t[t.len() - 1] == ']' {
        text::slice_chars(&t, 1, t.len() - 1)
    } else {
        t
    };
    let items = crate::uses::split_on_exec(&inner, ',');
    let ghost iv = crate::uses::vecs_view(items@);
    let mut i: usize = 0;
    while i < items.len()
        invariant
            i <= items.len(),
            iv == crate::uses::vecs_view(items@),
            Seq::new(out@.len(), |k: int| out@[k]@) == extension_list(iv.take(i as int)),
        decreases items.len() - i,
    {
        assert(iv.take(i + 1).drop_last() =~= iv.take(i as int));
        assert(iv.take(i + 1).last() == items@[i as int]@);
        let a = text::trim_chars(&items[i]);
        let b = widgets::trim_matches_exec(&a, '"');
        let c = widgets::trim_matches_exec(&b, '\'');
        let d = trim_start_char(&c, '.');
        if d.len() != 0 {
            let low = text::lower_chars(&d);
            let ghost prev = Seq::new(out@.len(), |k: int| out@[k]@);
            out.push(text::chars_to_string(&low));
            assert(Seq::new(out@.len(), |k: int| out@[k]@) =~= prev.push(low@));
        }
        i = i + 1;
    }
    assert(iv.take(items.len() as int) =~= iv);
    out
}

/// A `for` attribute as an element id: trimmed, leading `#`s stripped;
/// `None` when absent or empty.
pub open spec fn for_attribute_id(value: Option<Seq<char>>) -> Option<Seq<char>> {
    match value {
        None => None,
        Some(v) => {
            let id = widgets::trim_char_start(text::trim(v), '#');
            if id.len() == 0 {
                None
            } else {
                Some(id)
            }
        },
    }
}

/// Reads a `for` attribute (`for_attribute_id`).
pub fn parse_for_attribute_id(value: Option<&str>) -> (r: Option<String>)
    ensures
        match for_attribute_id(
            match value {
                Some(v) => Some(v@),
                None => None,
            },
        ) {
            Some(id) => r is Some && r->0@ == id,
            None => r is None,
        },
{
    match value {
        None => None,
        Some(v) => {
            let vc = text::str_to_chars(v);
            let t = text::trim_chars(&vc);
            let id = trim_start_char(&t, '#');
            if id.len() == 0 {
                None
            } else {
                Some(text::chars_to_string(&id))
            }
        },
    }
}

/// The rules of a `validation` attribute, with `required` set when the
/// element carries a `required` attribute.
pub open spec fn validation_attributes(validation: Option<Seq<char>>, required: bool) -> Option<
    widgets::RulesV,
> {
    let rules = match validation {
        Some(v) => widgets::validation_rules(v),
        None => None,
    };
    if required {
        match rules {
            Some(r) => Some(widgets::RulesV { required: true, ..r }),
            None => Some(widgets::RulesV { required: true, ..widgets::no_rules() }),
        }
    } else {
        rules
    }
}

/// Reads the validation attributes of an element
/// (`validation_attributes`): the value of `validation`, and whether
/// `required` is present.
pub fn parse_validation_attributes(validation: Option<&str>, required: bool) -> (r: Option<
    ValidationRules,
>)
    ensures
        match validation_attributes(
            match validation {
                Some(v) => Some(v@),
                None => None,
            },
            required,
        ) {
            Some(v) => r is Some && r->0@ == v,
            None => r is None,
        },
{
    let rules = match validation {
        Some(v) => ValidationRules::from_attribute(v),
        None => None,
    };
    if required {
        let mut merged = match rules {
            Some(r) => r,
            None => ValidationRules::new(),
        };
        merged.required = true;
        Some(merged)
    } else {
        rules
    }
}

// ---------------------------------------------------------------------------
// Tooltip triggers
// ---------------------------------------------------------------------------

/// A character that separates trigger words.
pub open spec fn trigger_sep(c: char) -> bool {
    c == '|' || c == ',' || c == ' '
}

/// Index of the first trigger separator at or after `i`.
pub open spec fn trigger_sep_from(s: Seq<char>, i: int) -> Option<int>
    decreases s.len() - i,
{
    if i < 0 || i >= s.len() {
        None
    } else if trigger_sep(s[i]) {
        Some(i)
    } else {
        trigger_sep_from(s, i + 1)
    }
}

/// The words of `s` between trigger separators (empty ones included).
pub open spec fn trigger_words(s: Seq<char>) -> Seq<Seq<char>>
    decreases s.len(),
{
    match trigger_sep_from(s, 0) {
        Some(i) => if 0 <= i < s.len() {
            seq![s.take(i)] + trigger_words(s.skip(i + 1))
        } else {
            seq![s]
        },
        None => seq![s],
    }
}

/// The distinct triggers the words name, in first-mention order.
pub open spec fn trigger_list(words: Seq<Seq<char>>) -> Seq<ToolTipTrigger>
    decreases words.len(),
{
    if words.len() == 0 {
        seq![]
    } else {
        let rest = trigger_list(words.drop_last());
        let t = text::trim(words.last());
        if t.len() == 0 {
            rest
        } else {
            match widgets::tooltip_trigger(t) {
                Some(k) => if rest.contains(k) {
                    rest
                } else {
                    rest.push(k)
                },
                None => rest,
            }
        }
    }
}

/// The triggers of a tooltip `trigger` attribute such as `hover | click`:
/// each named trigger once; hover when none is named.
pub open spec fn tooltip_triggers(value: Seq<char>) -> Seq<ToolTipTrigger> {
    let l = trigger_list(trigger_words(value));
    if l.len() == 0 {
        seq![ToolTipTrigger::Hover]
    } else {
        l
    }
}

fn trigger_words_exec(s: &Vec<char>) -> (r: Vec<Vec<char>>)
    ensures
        crate::uses::vecs_view(r@) == trigger_words(s@),
    decreases s.len(),
{
    let mut i: usize = 0;
    while i < s.len() && !(s[i] == '|' || s[i] == ',' || s[i] == ' ')
        invariant
            i <= s.len(),
            trigger_sep_from(s@, 0) == trigger_sep_from(s@, i as int),
        decreases s.len() - i,
    {
        i = i + 1;
    }
    if i < s.len() {
        let head = text::slice_chars(s, 0, i);
        let tail = text::slice_chars(s, i + 1, s.len());
        assert(tail@ == s@.skip(i + 1));
        let rest = trigger_words_exec(&tail);
        let mut out: Vec<Vec<char>> = Vec::new();
        out.push(head);
        let mut k: usize = 0;
        while k < rest.len()
            invariant
                k <= rest.len(),
                crate::uses::vecs_view(out@) == seq![s@.take(i as int)] + crate::uses::vecs_view(
                    rest@,
                ).take(k as int),
            decreases rest.len() - k,
        {
            let e = rest[k].clone();
            assert(e@ =~= rest@[k as int]@);
            let ghost prev = crate::uses::vecs_view(out@);
            out.push(e);
            assert(crate::uses::vecs_view(out@) =~= prev.push(rest@[k as int]@));
            assert(crate::uses::vecs_view(rest@).take(k + 1) =~= crate::uses::vecs_view(
                rest@,
            ).take(k as int).push(rest@[k as int]@));
            k = k + 1;
        }
        assert(crate::uses::vecs_view(rest@).take(rest.len() as int) =~= crate::uses::vecs_view(
            rest@,
        ));
        out
    } else {
        let mut out: Vec<Vec<char>> = Vec::new();
        out.push(s.clone());
        assert(crate::uses::vecs_view(out@) =~= seq![s@]);
        out
    }
}

/// Whether `v` holds `t`.
fn contains_trigger(v: &Vec<ToolTipTrigger>, t: ToolTipTrigger) -> (r: bool)
    ensures
        r == v@.contains(t),
{
    let mut i: usize = 0;
    while i < v.len()
        invariant
            i <= v.len(),
            forall|k: int| 0 <= k < i ==> v@[k] != t,
        decreases v.len() - i,
    {
        if v[i] == t {
            return true;
        }
        i = i + 1;
    }
    false
}

/// Reads a tooltip `trigger` attribute (`tooltip_triggers`).
pub fn parse_tooltip_triggers(value: &str) -> (r: Vec<ToolTipTrigger>)
    ensures
        r@ == tooltip_triggers(value@),
{
    let vc = text::str_to_chars(value);
    let words = trigger_words_exec(&vc);
    let ghost wv = crate::uses::vecs_view(words@);
    let mut out: Vec<ToolTipTrigger> = Vec::new();
    let mut i: usize = 0;
    while i < words.len()
        invariant
            i <= words.len(),
            wv == crate::uses::vecs_view(words@),
            out@ == trigger_list(wv.take(i as int)),
        decreases words.len() - i,
    {
        assert(wv.take(i + 1).drop_last() =~= wv.take(i as int));
        assert(wv.take(i + 1).last() == words@[i as int]@);
        let t = text::trim_chars(&words[i]);
        if t.len() != 0 {
            let ts = text::chars_to_string(&t);
            match ToolTipTrigger::from_str(ts.as_str()) {
                Some(k) => {
                    if !contains_trigger(&out, k) {
                        out.push(k);
                    }
                },
                None => {},
            }
        }
        i = i + 1;
    }
    assert(wv.take(words.len() as int) =~= wv);
    if out.len() == 0 {
        out.push(ToolTipTrigger::Hover);
        assert(out@ =~= seq![ToolTipTrigger::Hover]);
    }
    out
}

// ---------------------------------------------------------------------------
// Tags
// ---------------------------------------------------------------------------

/// Elements that never have content.
pub open spec fn void_tag(tag: Seq<char>) -> bool {
    tag == "area"@ || tag == "base"@ || tag == "br"@ || tag == "col"@ || tag == "embed"@ || tag
        == "hr"@ || tag == "img"@ || tag == "input"@ || tag == "link"@ || tag == "meta"@ || tag
        == "param"@ || tag == "source"@ || tag == "track"@ || tag == "wbr"@
}

/// Whether `tag` is a void element (`void_tag`).
pub fn is_void_html_tag(tag: &str) -> (r: bool)
    ensures
        r == void_tag(tag@),
{
    let t = text::str_to_chars(tag);
    text::chars_eq_str(&t, "area") || text::chars_eq_str(&t, "base") || text::chars_eq_str(
        &t,
        "br",
    ) || text::chars_eq_str(&t, "col") || text::chars_eq_str(&t, "embed") || text::chars_eq_str(
        &t,
        "hr",
    ) || text::chars_eq_str(&t, "img") || text::chars_eq_str(&t, "input") || text::chars_eq_str(
        &t,
        "link",
    ) || text::chars_eq_str(&t, "meta") || text::chars_eq_str(&t, "param")
        || text::chars_eq_str(&t, "source") || text::chars_eq_str(&t, "track")
        || text::chars_eq_str(&t, "wbr")
}

/// Elements whose text can be updated in place when a bound value changes.
pub open spec fn patchable_text_tag(tag: Seq<char>) -> bool {
    tag == "p"@ || tag == "button"@ || tag == "h1"@ || tag == "h2"@ || tag == "h3"@ || tag
        == "h4"@ || tag == "h5"@ || tag == "h6"@
}

/// Whether `tag`'s text can be patched in place (`patchable_text_tag`).
pub fn is_patchable_text_tag(tag: &str) -> (r: bool)
    ensures
        r == patchable_text_tag(tag@),
{
    let t = text::str_to_chars(tag);
    text::chars_eq_str(&t, "p") || text::chars_eq_str(&t, "button") || text::chars_eq_str(
        &t,
        "h1",
    ) || text::chars_eq_str(&t, "h2") || text::chars_eq_str(&t, "h3") || text::chars_eq_str(
        &t,
        "h4",
    ) || text::chars_eq_str(&t, "h5") || text::chars_eq_str(&t, "h6")
}


// ---------------------------------------------------------------------------
// Paths and identifiers
// ---------------------------------------------------------------------------

/// `path` without leading and trailing `/`, then without leading and
/// trailing `\`.
pub open spec fn trimmed_path(path: Seq<char>) -> Seq<char> {
    widgets::trim_matches(widgets::trim_matches(path, '/'), '\\')
}

/// `path` without surrounding separators (`trimmed_path`).
pub fn trim_path_separators(path: &str) -> (r: String)
    ensures
        r@ == trimmed_path(path@),
{
    let p = text::str_to_chars(path);
    let a = widgets::trim_matches_exec(&p, '/');
    let b = widgets::trim_matches_exec(&a, '\\');
    text::chars_to_string(&b)
}

/// `assets/`.
pub open spec fn assets_prefix() -> Seq<char> {
    "assets/"@
}

/// A stylesheet reference with forward slashes and without a leading
/// `assets/`.
pub open spec fn normalized_href(href: Seq<char>) -> Seq<char> {
    let h = registry::forward_slashes(href);
    if assets_prefix().is_prefix_of(h) {
        h.skip(assets_prefix().len() as int)
    } else {
        h
    }
}

/// A stylesheet reference with forward slashes and without a leading
/// `assets/` (`normalized_href`): the path whose existence decides whether an
/// absolute reference is kept as it is.
pub fn normalize_asset_href(href: &str) -> (r: String)
    ensures
        r@ == normalized_href(href@),
{
    let c = text::str_to_chars(href);
    let h = registry::forward_slashes_exec(&c);
    let prefix = text::str_to_chars("assets/");
    match crate::uses::strip_prefix_exec(&h, &prefix) {
        Some(rest) => text::chars_to_string(&rest),
        None => text::chars_to_string(&h),
    }
}

/// A relative path whose components `Path` splits at `/` alone on every
/// platform: not empty, no `\\` or `:`, no leading or trailing `/`, no
/// empty component and no `.` component.
pub open spec fn plain_path(p: Seq<char>) -> bool {
    &&& p.len() > 0
    &&& !p.contains('\\') && !p.contains(':')
    &&& p[0] != '/' && p.last() != '/'
    &&& forall|i: int| 0 <= i < p.len() - 1 ==> !(p[i] == '/' && #[trigger] p[i + 1] == '/')
    &&& forall|i: int|
        0 <= i < p.len() && #[trigger] p[i] == '.' && (i == 0 || p[i - 1] == '/') ==> i + 1 < p.len()
            && p[i + 1] != '/'
}

/// `p` without its final component: everything before its last `/`, empty
/// when it has none.
pub open spec fn parent_dir(p: Seq<char>) -> Seq<char>
    decreases p.len(),
{
    if p.len() == 0 {
        seq![]
    } else if p.last() == '/' {
        p.drop_last()
    } else {
        parent_dir(p.drop_last())
    }
}

/// Calls `Path::parent` and renders the parent as text. Its documentation:
/// the path without its final component, `None` when the path ends in a
/// root or prefix or is empty. Stated for the paths `plain_path` admits,
/// where the final component is what follows the last `/`; other paths
/// depend on the platform's separators and are left unsaid.
#[verifier::external_body]
fn path_parent(path: &str) -> (r: Option<String>)
    ensures
        plain_path(path@) ==> r is Some && r->0@ == parent_dir(path@),
{
    std::path::Path::new(path).parent().map(|p| p.to_string_lossy().into_owned())
}

/// `s` without its leading `./` segments.
pub open spec fn strip_dot_slashes(s: Seq<char>) -> Seq<char>
    decreases s.len(),
{
    if s.len() >= 2 && s[0] == '.' && s[1] == '/' {
        strip_dot_slashes(s.skip(2))
    } else {
        s
    }
}

/// A component path as it is compared: forward slashes, without leading
/// `./` segments, then without a leading `assets/`, then without
/// surrounding `/`.
pub open spec fn component_scope_path(path: Seq<char>) -> Seq<char> {
    let a = strip_dot_slashes(registry::forward_slashes(path));
    let b = if assets_prefix().is_prefix_of(a) {
        a.skip(assets_prefix().len() as int)
    } else {
        a
    };
    widgets::trim_matches(b, '/')
}

/// A component path as it is compared (`component_scope_path`).
pub fn normalize_component_scope_path(path: &str) -> (r: String)
    ensures
        r@ == component_scope_path(path@),
{
    let c = text::str_to_chars(path);
    let mut a = registry::forward_slashes_exec(&c);
    while a.len() >= 2 && a[0] == '.' && a[1] == '/'
        invariant
            strip_dot_slashes(a@) == strip_dot_slashes(registry::forward_slashes(path@)),
        decreases a.len(),
    {
        a = text::slice_chars(&a, 2, a.len());
    }
    let prefix = text::str_to_chars("assets/");
    let b = match crate::uses::strip_prefix_exec(&a, &prefix) {
        Some(rest) => rest,
        None => a,
    };
    let t = widgets::trim_matches_exec(&b, '/');
    text::chars_to_string(&t)
}

/// Whether `p` occurs in `s` at `i`.
pub open spec fn occurs_at(s: Seq<char>, p: Seq<char>, i: int) -> bool {
    0 <= i && i + p.len() <= s.len() && s.subrange(i, i + p.len()) == p
}

/// The first position at or after `i` where `p` occurs in `s`.
pub open spec fn first_occurrence_from(s: Seq<char>, p: Seq<char>, i: int) -> Option<int>
    decreases s.len() - i,
{
    if i < 0 || i + p.len() > s.len() {
        None
    } else if occurs_at(s, p, i) {
        Some(i)
    } else if i >= s.len() {
        None
    } else {
        first_occurrence_from(s, p, i + 1)
    }
}

/// A position found by `first_occurrence_from` is one where `p` occurs, at
/// or after `i`.
pub proof fn lemma_first_occurrence(s: Seq<char>, p: Seq<char>, i: int)
    ensures
        match first_occurrence_from(s, p, i) {
            Some(j) => i <= j && occurs_at(s, p, j),
            None => true,
        },
    decreases s.len() - i,
{
    if i < 0 || i + p.len() > s.len() {
    } else if occurs_at(s, p, i) {
    } else if i >= s.len() {
    } else {
        lemma_first_occurrence(s, p, i + 1);
    }
}

/// The first position where `p` occurs in `s` (`first_occurrence_from`).
pub fn find_exec(s: &Vec<char>, p: &Vec<char>) -> (r: Option<usize>)
    ensures
        match first_occurrence_from(s@, p@, 0) {
            Some(j) => r == Some(j as usize),
            None => r is None,
        },
        r is Some ==> r->0 + p@.len() <= s@.len() && first_occurrence_from(s@, p@, 0) == Some(
            r->0 as int,
        ),
{
    proof {
        lemma_first_occurrence(s@, p@, 0);
    }
    let mut i: usize = 0;
    while i <= s.len() && p.len() <= s.len() - i
        invariant
            i <= s.len(),
            first_occurrence_from(s@, p@, 0) == first_occurrence_from(s@, p@, i as int),
        decreases s.len() - i,
    {
        assert(p@.len() == 0 ==> s@.subrange(i as int, i as int) =~= p@);
        if text::has_at(s, i, p) {
            return Some(i);
        }
        i = i + 1;
    }
    None
}

/// The template path relative to the component root `root`: what follows
/// `root/` at the start of `source`, else what follows the first `/root/`
/// in it.
pub open spec fn relative_template(source: Seq<char>, root: Seq<char>) -> Option<Seq<char>> {
    match crate::uses::strip_prefix(source, root.push('/')) {
        Some(r) => Some(r),
        None => match first_occurrence_from(source, seq!['/'] + root.push('/'), 0) {
            Some(j) => Some(source.skip(j + root.len() + 2)),
            None => None,
        },
    }
}

/// The Rust file of a component template, relative to the Rust component
/// root: the template path relative to the assets component root with
/// `.component.html` replaced by `.component.rs`; `None` when the root is
/// empty, the template lies outside it, or is no component template.
pub open spec fn component_rust_relative(source_path: Seq<char>, assets_root: Seq<char>) -> Option<
    Seq<char>,
> {
    let source = component_scope_path(source_path);
    let root = component_scope_path(assets_root);
    if root.len() == 0 {
        None
    } else {
        match relative_template(source, root) {
            Some(rel) => match crate::uses::strip_suffix(rel, ".component.html"@) {
                Some(base) => Some(base + ".component.rs"@),
                None => None,
            },
            None => None,
        }
    }
}

/// Whether joining `rel` to `base` adjoins it after one separator on every
/// platform: `base` is not empty and does not end in `/`, `rel` is not empty
/// and does not start with `/`, and neither holds `\` or `:`.
pub open spec fn plain_join(base: Seq<char>, rel: Seq<char>) -> bool {
    &&& base.len() > 0
    &&& base.last() != '/'
    &&& rel.len() > 0
    &&& rel[0] != '/'
    &&& !base.contains('\\') && !base.contains(':')
    &&& !rel.contains('\\') && !rel.contains(':')
}

/// Calls `Path::join` on `base` and `rel` and renders the result as text.
/// The documentation of `PathBuf::push` shows a relative path adjoined after
/// a separator; the separator is the platform's, `/` or `\`, so that is all
/// that is stated, and only for the paths `plain_join` admits. What happens
/// to absolute paths and prefixes is left unsaid.
#[verifier::external_body]
fn path_join(base: &str, rel: &str) -> (r: String)
    ensures
        plain_join(base@, rel@) ==> (r@ == base@.push('/') + rel@ || r@ == base@.push('\\')
            + rel@),
{
    std::path::Path::new(base).join(rel).to_string_lossy().into_owned()
}

/// The Rust source file of the component template at `source_path`: the
/// template's path relative to `assets_component_root`, with
/// `.component.html` replaced by `.component.rs` (`component_rust_relative`),
/// joined to `rust_component_root`.
pub fn component_rust_path_for_template(
    source_path: &str,
    assets_component_root: &str,
    rust_component_root: &str,
) -> (r: Option<String>)
    ensures
        r is Some <==> component_rust_relative(source_path@, assets_component_root@) is Some,
        r is Some && plain_join(
            rust_component_root@,
            component_rust_relative(source_path@, assets_component_root@)->0,
        ) ==> (r->0@ == rust_component_root@.push('/') + component_rust_relative(
            source_path@,
            assets_component_root@,
        )->0 || r->0@ == rust_component_root@.push('\\') + component_rust_relative(
            source_path@,
            assets_component_root@,
        )->0),
{
    let source_s = normalize_component_scope_path(source_path);
    let root_s = normalize_component_scope_path(assets_component_root);
    let source = text::str_to_chars(source_s.as_str());
    let root = text::str_to_chars(root_s.as_str());
    if root.len() == 0 {
        return None;
    }
    let mut root_slash = root.clone();
    root_slash.push('/');
    let mut nested: Vec<char> = Vec::new();
    nested.push('/');
    text::append_chars(&mut nested, &root_slash);
    assert(root_slash@ =~= root@.push('/'));
    assert(nested@ =~= seq!['/'] + root@.push('/'));
    let rel = match crate::uses::strip_prefix_exec(&source, &root_slash) {
        Some(r) => {
            assert(relative_template(source@, root@) == Some(r@));
            r
        },
        None => match find_exec(&source, &nested) {
            Some(j) => {
                let r = text::slice_chars(&source, j + nested.len(), source.len());
                assert(r@ =~= source@.skip(j + root@.len() + 2));
                assert(relative_template(source@, root@) == Some(r@));
                r
            },
            None => {
                return None;
            },
        },
    };
    assert(relative_template(source@, root@) == Some(rel@));
    let suffix = text::str_to_chars(".component.html");
    match crate::uses::strip_suffix_exec(&rel, &suffix) {
        Some(base) => {
            let mut out = base;
            text::append_str(&mut out, ".component.rs");
            let rel_s = text::chars_to_string(&out);
            assert(component_rust_relative(source_path@, assets_component_root@) == Some(rel_s@));
            Some(path_join(rust_component_root, rel_s.as_str()))
        },
        None => {
            assert(component_rust_relative(source_path@, assets_component_root@) is None);
            None
        },
    }
}

/// What is known of the asset path a stylesheet or image reference `href`
/// resolves to: with `absolute_existing` the normalized reference itself;
/// else without its leading `/` when it has one; else itself when it starts
/// with `./` or `../`; in every case without backslashes.
pub open spec fn asset_path_resolution(href: Seq<char>, absolute_existing: bool, r: Seq<char>) -> bool {
    &&& absolute_existing ==> r == normalized_href(href)
    &&& !absolute_existing && seq!['/'].is_prefix_of(normalized_href(href)) ==> r
        == normalized_href(href).skip(1)
    &&& !absolute_existing && !seq!['/'].is_prefix_of(normalized_href(href)) && (seq![
        '.',
        '/',
    ].is_prefix_of(normalized_href(href)) || seq!['.', '.', '/'].is_prefix_of(
        normalized_href(href),
    )) ==> r == normalized_href(href)
    &&& !r.contains('\\')
}

/// The join case of an asset reference: a reference that is not kept as it
/// is (not an existing absolute path, no leading `/`, `./` or `../`) is
/// joined to the directory of the HTML file; for a plain page path with a
/// directory and a plain reference, that is the directory, `/` and the
/// normalized reference.
pub open spec fn asset_path_join(
    html_path: Seq<char>,
    href: Seq<char>,
    absolute_existing: bool,
    r: Seq<char>,
) -> bool {
    let h = normalized_href(href);
    !absolute_existing && !seq!['/'].is_prefix_of(h) && !seq!['.', '/'].is_prefix_of(h)
        && !seq!['.', '.', '/'].is_prefix_of(h) && plain_path(html_path) && plain_join(
        parent_dir(html_path),
        h,
    ) ==> r == parent_dir(html_path) + seq!['/'] + h
}

/// Resolves a stylesheet reference found in the HTML file at `html_path` to
/// an asset path. `absolute_existing` tells whether the normalized reference
/// (`normalize_asset_href`) is an absolute path that exists, or whose parent
/// directory exists; such a reference is kept. Otherwise a leading `/` is
/// dropped, `./` and `../` references are kept, and anything else is joined
/// to the directory of the HTML file, with forward slashes.
pub fn resolve_relative_asset_path(html_path: &str, href: &str, absolute_existing: bool) -> (r:
    String)
    ensures
        asset_path_resolution(href@, absolute_existing, r@),
        asset_path_join(html_path@, href@, absolute_existing, r@),
{
    let h = normalize_asset_href(href);
    let hc = text::str_to_chars(h.as_str());
    proof {
        let f = registry::forward_slashes(href@);
        assert forall|i: int| 0 <= i < hc@.len() implies hc@[i] != '\\' by {
            if assets_prefix().is_prefix_of(f) {
                assert(hc@[i] == f[i + assets_prefix().len()]);
            } else {
                assert(hc@[i] == f[i]);
            }
        }
        if hc@.len() > 0 && hc@[0] == '/' {
            assert(hc@.subrange(0, 1) =~= seq!['/']);
        }
        if seq!['/'].is_prefix_of(hc@) {
            assert(hc@[0] == hc@.subrange(0, 1)[0]);
        }
    }
    if absolute_existing {
        return h;
    }
    if hc.len() > 0 && hc[0] == '/' {
        let rest = text::slice_chars(&hc, 1, hc.len());
        return text::chars_to_string(&rest);
    }
    let mut dot: Vec<char> = Vec::new();
    dot.push('.');
    dot.push('/');
    let mut dotdot: Vec<char> = Vec::new();
    dotdot.push('.');
    dotdot.push('.');
    dotdot.push('/');
    assert(dot@ =~= seq!['.', '/']);
    assert(dotdot@ =~= seq!['.', '.', '/']);
    if text::starts_with(&hc, &dot) || text::starts_with(&hc, &dotdot) {
        return h;
    }
    let base = match path_parent(html_path) {
        Some(b) => b,
        None => String::new(),
    };
    let joined = path_join(base.as_str(), h.as_str());
    let jc = text::str_to_chars(joined.as_str());
    let f = registry::forward_slashes_exec(&jc);
    proof {
        if plain_path(html_path@) && plain_join(base@, hc@) {
            let target = base@ + seq!['/'] + hc@;
            assert(registry::forward_slashes(jc@) =~= target);
        }
    }
    text::chars_to_string(&f)
}

/// An element identifier.
#[derive(Debug, Clone, Copy, PartialEq, Eq, Structural)]
pub struct HtmlID(pub usize);

/// Where counted identifiers come from: it hands out the number it holds
/// and moves on to the next, back to zero after the largest.
pub struct HtmlIdCounter {
    pub next: usize,
}

impl HtmlIdCounter {
    /// A counter whose first identifier is `1`.
    pub fn new() -> (r: Self)
        ensures
            r.next == 1,
    {
        HtmlIdCounter { next: 1 }
    }

    /// A fresh identifier: the number held, which then moves on by one.
    pub fn next_id(&mut self) -> (r: HtmlID)
        ensures
            r.0 == old(self).next,
            final(self).next == if old(self).next == usize::MAX {
                0
            } else {
                old(self).next + 1
            },
    {
        let id = HtmlID(self.next);
        self.next = if self.next == usize::MAX {
            0
        } else {
            self.next + 1
        };
        id
    }
}

/// The 64-bit FNV-1a offset basis.
pub open spec fn fnv_offset() -> u64 {
    0xcbf29ce484222325
}

/// The 64-bit FNV prime.
pub open spec fn fnv_prime() -> u64 {
    0x100000001b3
}

/// 64-bit FNV-1a of `bytes`.
pub open spec fn fnv1a(bytes: Seq<u8>) -> u64
    decreases bytes.len(),
{
    if bytes.len() == 0 {
        fnv_offset()
    } else {
        vstd::wrapping::u64_specs::wrapping_mul(
            fnv1a(bytes.drop_last()) ^ (bytes.last() as u64),
            fnv_prime(),
        )
    }
}

/// The identifier of an element at a logical position: FNV-1a of the
/// UTF-8 bytes of `key`, `path` and `tag` one after another, truncated to
/// `usize`.
pub open spec fn stable_id(key: Seq<char>, path: Seq<char>, tag: Seq<char>) -> usize {
    fnv1a(
        vstd::utf8::encode_utf8(key) + vstd::utf8::encode_utf8(path) + vstd::utf8::encode_utf8(tag),
    ) as usize
}

fn fnv_feed(h: u64, prefix: Ghost<Seq<u8>>, bytes: &[u8]) -> (r: u64)
    requires
        h == fnv1a(prefix@),
    ensures
        r == fnv1a(prefix@ + bytes@),
{
    let mut hash = h;
    let mut i: usize = 0;
    while i < bytes.len()
        invariant
            i <= bytes.len(),
            hash == fnv1a(prefix@ + bytes@.take(i as int)),
        decreases bytes.len() - i,
    {
        let b = bytes[i];
        assert((prefix@ + bytes@.take(i + 1)).drop_last() =~= prefix@ + bytes@.take(i as int));
        assert((prefix@ + bytes@.take(i + 1)).last() == b);
        hash = (hash ^ (b as u64)).wrapping_mul(0x100000001b3);
        i = i + 1;
    }
    assert(bytes@.take(bytes.len() as int) =~= bytes@);
    hash
}

/// The identifier of an element at a logical position (`stable_id`).
pub fn stable_html_id(key: &str, path: &str, tag: &str) -> (r: HtmlID)
    ensures
        r.0 == stable_id(key@, path@, tag@),
{
    let kb = key.as_bytes();
    let pb = path.as_bytes();
    let tb = tag.as_bytes();
    assert(Seq::<u8>::empty() + kb@ =~= kb@);
    let h0 = fnv_feed(0xcbf29ce484222325, Ghost(Seq::empty()), kb);
    let h1 = fnv_feed(h0, Ghost(kb@), pb);
    let h2 = fnv_feed(h1, Ghost(kb@ + pb@), tb);
    HtmlID(h2 as usize)
}

// ---------------------------------------------------------------------------
// Template bindings
// ---------------------------------------------------------------------------

/// `s` without every leading `{{`.
pub open spec fn strip_open_braces(s: Seq<char>) -> Seq<char>
    decreases s.len(),
{
    if s.len() >= 2 && s[0] == '{' && s[1] == '{' {
        strip_open_braces(s.skip(2))
    } else {
        s
    }
}

/// `s` without every trailing `}}`.
pub open spec fn strip_close_braces(s: Seq<char>) -> Seq<char>
    decreases s.len(),
{
    if s.len() >= 2 && s[s.len() - 2] == '}' && s.last() == '}' {
        strip_close_braces(s.take(s.len() - 2))
    } else {
        s
    }
}

/// The root name of a binding such as `{{ user.name }}`: braces and
/// whitespace stripped, then the leading run of ASCII letters, digits and
/// `_`.
pub open spec fn binding_root_of(binding: Seq<char>) -> Seq<char> {
    let t = text::trim(strip_close_braces(strip_open_braces(text::trim(binding))));
    t.take(crate::expr::run_end(t, 0, crate::render::ident_fn()))
}

/// The root name of a binding (`binding_root_of`).
pub fn binding_root(binding: &str) -> (r: String)
    ensures
        r@ == binding_root_of(binding@),
{
    let b = text::str_to_chars(binding);
    let t0 = text::trim_chars(&b);
    let mut lo: usize = 0;
    assert(t0@.skip(0) =~= t0@);
    while t0.len() - lo >= 2 && t0[lo] == '{' && t0[lo + 1] == '{'
        invariant
            lo <= t0.len(),
            strip_open_braces(t0@) == strip_open_braces(t0@.skip(lo as int)),
        decreases t0.len() - lo,
    {
        assert(t0@.skip(lo as int).skip(2) =~= t0@.skip(lo + 2));
        lo = lo + 2;
    }
    let t1 = text::slice_chars(&t0, lo, t0.len());
    assert(t1@ =~= t0@.skip(lo as int));
    let mut hi: usize = t1.len();
    assert(t1@.take(t1.len() as int) =~= t1@);
    while hi >= 2 && t1[hi - 2] == '}' && t1[hi - 1] == '}'
        invariant
            hi <= t1.len(),
            strip_close_braces(t1@) == strip_close_braces(t1@.take(hi as int)),
        decreases hi,
    {
        assert(t1@.take(hi as int).take(hi - 2) =~= t1@.take(hi - 2));
        hi = hi - 2;
    }
    let t2 = text::slice_chars(&t1, 0, hi);
    assert(t2@ =~= t1@.take(hi as int));
    let t = text::trim_chars(&t2);
    let e = crate::render::ident_run_end(&t, 0);
    let root = text::slice_chars(&t, 0, e);
    text::chars_to_string(&root)
}

} // verus!
