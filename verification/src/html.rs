//! Parsed element content, element states, table sections, and which
//! templates have to be parsed again when bound values change.
use vstd::prelude::*;
use crate::text;
use crate::json;
use crate::render;
use crate::attrs;
use crate::keyed;
use crate::keyed::KeyedMap;
use crate::json::{JsonValue, JsonV};

verus! {

// ---------------------------------------------------------------------------
// Element content
// ---------------------------------------------------------------------------

/// The text, inner HTML and `{{ .. }}` bindings of an element.
pub struct HtmlInnerContent {
    inner_text: String,
    inner_html: String,
    inner_bindings: Vec<String>,
}

impl HtmlInnerContent {
    /// The text.
    pub closed spec fn text_spec(&self) -> Seq<char> {
        self.inner_text@
    }

    /// The inner HTML.
    pub closed spec fn html_spec(&self) -> Seq<char> {
        self.inner_html@
    }

    /// The bindings.
    pub closed spec fn bindings_spec(&self) -> Seq<Seq<char>> {
        Seq::new(self.inner_bindings@.len(), |i: int| self.inner_bindings@[i]@)
    }

    /// Content with the given text, HTML and bindings.
    pub fn new(inner_text: String, inner_html: String, inner_bindings: Vec<String>) -> (r: Self)
        ensures
            r.text_spec() == inner_text@,
            r.html_spec() == inner_html@,
            r.bindings_spec() == Seq::new(inner_bindings@.len(), |i: int| inner_bindings@[i]@),
    {
        HtmlInnerContent { inner_text, inner_html, inner_bindings }
    }

    /// The text.
    pub fn inner_text(&self) -> (r: &str)
        ensures
            r@ == self.text_spec(),
    {
        self.inner_text.as_str()
    }

    /// The inner HTML.
    pub fn inner_html(&self) -> (r: &str)
        ensures
            r@ == self.html_spec(),
    {
        self.inner_html.as_str()
    }

    /// The bindings.
    pub fn inner_bindings(&self) -> (r: &[String])
        ensures
            Seq::new(r@.len(), |i: int| r@[i]@) == self.bindings_spec(),
    {
        self.inner_bindings.as_slice()
    }

    /// Replaces the text.
    pub fn set_inner_text(&mut self, value: String)
        ensures
            final(self).text_spec() == value@,
            final(self).html_spec() == old(self).html_spec(),
            final(self).bindings_spec() == old(self).bindings_spec(),
    {
        self.inner_text = value;
    }

    /// Replaces the inner HTML.
    pub fn set_inner_html(&mut self, value: String)
        ensures
            final(self).html_spec() == value@,
            final(self).text_spec() == old(self).text_spec(),
            final(self).bindings_spec() == old(self).bindings_spec(),
    {
        self.inner_html = value;
    }

    /// Replaces the bindings.
    pub fn set_inner_bindings(&mut self, value: Vec<String>)
        ensures
            final(self).bindings_spec() == Seq::new(value@.len(), |i: int| value@[i]@),
            final(self).text_spec() == old(self).text_spec(),
            final(self).html_spec() == old(self).html_spec(),
    {
        self.inner_bindings = value;
    }
}

/// The `hidden`, `disabled` and `readonly` flags of an element.
#[derive(Debug, Clone, Copy, PartialEq, Eq, Structural)]
pub struct HtmlStates {
    pub hidden: bool,
    pub disabled: bool,
    pub readonly: bool,
}

impl Default for HtmlStates {
    fn default() -> (r: Self)
        ensures
            !r.hidden && !r.disabled && !r.readonly,
    {
        HtmlStates { hidden: false, disabled: false, readonly: false }
    }
}

/// What a change event of a widget reports as changed.
#[derive(Debug, Clone, Copy, PartialEq, Eq, Structural)]
pub enum HtmlChangeAction {
    State,
    Style,
    Unknown,
}

/// Whether a focus event reports focus gained or lost.
#[derive(Debug, Clone, Copy, PartialEq, Eq, Structural)]
pub enum HtmlFocusState {
    Gained,
    Lost,
}

// ---------------------------------------------------------------------------
// Tables
// ---------------------------------------------------------------------------

/// The part of a table a cell belongs to.
#[derive(Debug, Clone, Copy, PartialEq, Eq, Structural)]
pub enum TableSection {
    Head,
    /// The default.
    Body,
    Foot,
}

impl Default for TableSection {
    fn default() -> (r: Self)
        ensures
            r == TableSection::Body,
    {
        TableSection::Body
    }
}

impl TableSection {
    /// The class a section's cells carry.
    pub fn css_class(self) -> (r: &'static str)
        ensures
            r@ == (match self {
                TableSection::Head => "thead"@,
                TableSection::Body => "tbody"@,
                TableSection::Foot => "tfoot"@,
            }),
    {
        match self {
            TableSection::Head => "thead",
            TableSection::Body => "tbody",
            TableSection::Foot => "tfoot",
        }
    }
}

/// The number of grid tracks of a table: its columns, at least one, as a
/// `u16` (truncated).
pub fn grid_column_tracks(columns: usize) -> (r: u16)
    ensures
        r == (if columns == 0 {
            1
        } else {
            columns
        }) as u16,
{
    let n = if columns == 0 {
        1
    } else {
        columns
    };
    n as u16
}

/// The grid line a zero-based row or column starts at (lines count from
/// one), as an `i16` (truncated).
pub fn grid_start_line(index: usize) -> (r: i16)
    requires
        index < usize::MAX,
    ensures
        r == (index + 1) as i16,
{
    (index + 1) as i16
}

// ---------------------------------------------------------------------------
// Binding profiles
// ---------------------------------------------------------------------------

/// Which roots a template's bindings have, and whether a change of bound
/// values can be patched into the element texts or needs the template parsed
/// again.
pub struct HtmlTemplateBindingProfile {
    pub text_roots: Vec<String>,
    pub unpatchable_roots: Vec<String>,
    pub force_reparse_on_value_change: bool,
}

/// The strings of a vector, as a set.
pub open spec fn str_set(v: Seq<String>) -> Set<Seq<char>> {
    Set::new(|s: Seq<char>| exists|i: int| 0 <= i < v.len() && #[trigger] v[i]@ == s)
}

/// A change of `changed` roots needs the template parsed again: it has
/// directives, or one of its unpatchable roots changed.
pub open spec fn needs_reparse(force: bool, unpatchable: Set<Seq<char>>, changed: Set<Seq<char>>) -> bool {
    force || exists|r: Seq<char>| unpatchable.contains(r) && changed.contains(r)
}

fn contains_string(v: &Vec<String>, s: &Vec<char>) -> (r: bool)
    ensures
        r == str_set(v@).contains(s@),
{
    let mut i: usize = 0;
    while i < v.len()
        invariant
            i <= v.len(),
            forall|k: int| 0 <= k < i ==> v@[k]@ != s@,
        decreases v.len() - i,
    {
        let c = text::str_to_chars(v[i].as_str());
        if text::chars_eq(&c, s) {
            return true;
        }
        i = i + 1;
    }
    false
}

fn insert_string(v: &mut Vec<String>, s: &Vec<char>)
    ensures
        str_set(final(v)@) == str_set(old(v)@).insert(s@),
{
    if !contains_string(v, s) {
        v.push(text::chars_to_string(s));
        proof {
            let a = str_set(old(v)@).insert(s@);
            let b = str_set(v@);
            assert forall|x: Seq<char>| b.contains(x) <==> a.contains(x) by {
                if b.contains(x) {
                    let i = choose|i: int| 0 <= i < v@.len() && #[trigger] v@[i]@ == x;
                    if i < old(v)@.len() {
                        assert(old(v)@[i] == v@[i]);
                    }
                }
                if a.contains(x) && x != s@ {
                    let i = choose|i: int| 0 <= i < old(v)@.len() && #[trigger] old(v)@[i]@ == x;
                    assert(v@[i] == old(v)@[i]);
                }
                if x == s@ {
                    assert(v@[v@.len() - 1]@ == s@);
                }
            }
            assert(a =~= b);
        }
    } else {
        assert(str_set(v@).insert(s@) =~= str_set(v@));
    }
}

impl HtmlTemplateBindingProfile {
    /// Whether a change of the `changed_roots` needs the template parsed
    /// again (`needs_reparse`).
    pub fn requires_reparse(&self, changed_roots: &Vec<String>) -> (r: bool)
        ensures
            r == needs_reparse(
                self.force_reparse_on_value_change,
                str_set(self.unpatchable_roots@),
                str_set(changed_roots@),
            ),
    {
        if self.force_reparse_on_value_change {
            return true;
        }
        let mut i: usize = 0;
        while i < self.unpatchable_roots.len()
            invariant
                i <= self.unpatchable_roots.len(),
                forall|k: int|
                    0 <= k < i ==> !str_set(changed_roots@).contains(
                        #[trigger] self.unpatchable_roots@[k]@,
                    ),
            decreases self.unpatchable_roots.len() - i,
        {
            let c = text::str_to_chars(self.unpatchable_roots[i].as_str());
            if contains_string(changed_roots, &c) {
                assert(str_set(self.unpatchable_roots@).contains(c@));
                return true;
            }
            i = i + 1;
        }
        proof {
            assert forall|r: Seq<char>|
                str_set(self.unpatchable_roots@).contains(r) implies !str_set(
                changed_roots@,
            ).contains(r) by {
                let k = choose|k: int|
                    0 <= k < self.unpatchable_roots@.len() && #[trigger] self.unpatchable_roots@[k]@
                        == r;
            }
        }
        false
    }
}

/// The roots of the bindings of one list, as a set.
pub open spec fn list_roots(l: Seq<Seq<char>>) -> Set<Seq<char>>
    decreases l.len(),
{
    if l.len() == 0 {
        Set::empty()
    } else {
        list_roots(l.drop_last()).insert(attrs::binding_root_of(l.last()))
    }
}

/// The roots of the bindings of all lists.
pub open spec fn all_roots(lists: Seq<Seq<Seq<char>>>) -> Set<Seq<char>>
    decreases lists.len(),
{
    if lists.len() == 0 {
        Set::empty()
    } else {
        all_roots(lists.drop_last()).union(list_roots(lists.last()))
    }
}

/// The bindings of one list, as a set.
pub open spec fn list_set(l: Seq<Seq<char>>) -> Set<Seq<char>>
    decreases l.len(),
{
    if l.len() == 0 {
        Set::empty()
    } else {
        list_set(l.drop_last()).insert(l.last())
    }
}

/// The bindings of all lists.
pub open spec fn all_bindings(lists: Seq<Seq<Seq<char>>>) -> Set<Seq<char>>
    decreases lists.len(),
{
    if lists.len() == 0 {
        Set::empty()
    } else {
        all_bindings(lists.drop_last()).union(list_set(lists.last()))
    }
}

/// The roots of those of `bs` that are not in `patchable`.
pub open spec fn unpatchable(bs: Seq<Seq<char>>, patchable: Set<Seq<char>>) -> Set<Seq<char>>
    decreases bs.len(),
{
    if bs.len() == 0 {
        Set::empty()
    } else {
        let r = unpatchable(bs.drop_last(), patchable);
        if patchable.contains(bs.last()) {
            r
        } else {
            r.insert(attrs::binding_root_of(bs.last()))
        }
    }
}

/// Views of binding lists.
pub open spec fn lists_view(v: Seq<Vec<String>>) -> Seq<Seq<Seq<char>>> {
    Seq::new(v.len(), |i: int| Seq::new(v[i]@.len(), |j: int| v[i]@[j]@))
}

/// The binding profile of a localized template whose patchable element
/// texts hold the binding lists `text_bindings`: the roots of those
/// bindings; the roots of the template's bindings (`extract_inner_bindings`)
/// that none of the lists holds; and whether the template has `@if` or
/// `@for` directives.
pub fn build_template_binding_profile(
    localized_template: &str,
    text_bindings: &Vec<Vec<String>>,
) -> (r: HtmlTemplateBindingProfile)
    ensures
        str_set(r.text_roots@) == all_roots(lists_view(text_bindings@)),
        str_set(r.unpatchable_roots@) == unpatchable(
            render::unique_in_order(render::bindings_from(localized_template@, 0)),
            all_bindings(lists_view(text_bindings@)),
        ),
        r.force_reparse_on_value_change == (json::has_substring(localized_template@, "@if"@)
            || json::has_substring(localized_template@, "@for"@)),
{
    let ghost lv = lists_view(text_bindings@);
    let mut text_roots: Vec<String> = Vec::new();
    let mut patchable: Vec<String> = Vec::new();
    assert(str_set(text_roots@) =~= Set::<Seq<char>>::empty());
    assert(str_set(patchable@) =~= Set::<Seq<char>>::empty());
    let mut i: usize = 0;
    while i < text_bindings.len()
        invariant
            i <= text_bindings.len(),
            lv == lists_view(text_bindings@),
            str_set(text_roots@) == all_roots(lv.take(i as int)),
            str_set(patchable@) == all_bindings(lv.take(i as int)),
        decreases text_bindings.len() - i,
    {
        assert(lv.take(i + 1).drop_last() =~= lv.take(i as int));
        let list = &text_bindings[i];
        let ghost l = lv[i as int];
        assert(lv.take(i + 1).last() == l);
        let ghost roots0 = str_set(text_roots@);
        let ghost pat0 = str_set(patchable@);
        let mut j: usize = 0;
        assert(roots0.union(list_roots(l.take(0))) =~= roots0);
        assert(pat0.union(list_set(l.take(0))) =~= pat0);
        while j < list.len()
            invariant
                j <= list.len(),
                l == Seq::new(list@.len(), |k: int| list@[k]@),
                str_set(text_roots@) == roots0.union(list_roots(l.take(j as int))),
                str_set(patchable@) == pat0.union(list_set(l.take(j as int))),
            decreases list.len() - j,
        {
            assert(l.take(j + 1).drop_last() =~= l.take(j as int));
            assert(l.take(j + 1).last() == list@[j as int]@);
            let b = text::str_to_chars(list[j].as_str());
            let root = attrs::binding_root(list[j].as_str());
            let rc = text::str_to_chars(root.as_str());
            insert_string(&mut patchable, &b);
            insert_string(&mut text_roots, &rc);
            assert(roots0.union(list_roots(l.take(j as int))).insert(rc@) =~= roots0.union(
                list_roots(l.take(j + 1)),
            ));
            assert(pat0.union(list_set(l.take(j as int))).insert(b@) =~= pat0.union(
                list_set(l.take(j + 1)),
            ));
            j = j + 1;
        }
        assert(l.take(list.len() as int) =~= l);
        i = i + 1;
    }
    assert(lv.take(text_bindings.len() as int) =~= lv);
    let ghost pset = str_set(patchable@);
    let found = render::extract_inner_bindings(localized_template);
    let ghost fv = found@.map_values(|v: String| v@);
    let mut unpatchable_roots: Vec<String> = Vec::new();
    assert(str_set(unpatchable_roots@) =~= Set::<Seq<char>>::empty());
    let mut k: usize = 0;
    while k < found.len()
        invariant
            k <= found.len(),
            fv == found@.map_values(|v: String| v@),
            pset == str_set(patchable@),
            str_set(unpatchable_roots@) == unpatchable(fv.take(k as int), pset),
        decreases found.len() - k,
    {
        assert(fv.take(k + 1).drop_last() =~= fv.take(k as int));
        assert(fv.take(k + 1).last() == found@[k as int]@);
        let b = text::str_to_chars(found[k].as_str());
        if !contains_string(&patchable, &b) {
            let root = attrs::binding_root(found[k].as_str());
            let rc = text::str_to_chars(root.as_str());
            insert_string(&mut unpatchable_roots, &rc);
        }
        k = k + 1;
    }
    assert(fv.take(found.len() as int) =~= fv);
    let tc = text::str_to_chars(localized_template);
    let if_kw = text::str_to_chars("@if");
    let for_kw = text::str_to_chars("@for");
    let force = json::contains_chars(&tc, &if_kw) || json::contains_chars(&tc, &for_kw);
    HtmlTemplateBindingProfile {
        text_roots,
        unpatchable_roots,
        force_reparse_on_value_change: force,
    }
}


// ---------------------------------------------------------------------------
// Reading element content from the DOM
// ---------------------------------------------------------------------------

/// A node of a parsed HTML document.
#[verifier::external_type_specification]
#[verifier::external_body]
pub struct ExNodeRef(kuchiki::NodeRef);

/// Calls `kuchiki::NodeRef::text_contents`: the concatenated text of the
/// node's subtree. The tree can change between calls, so nothing is stated
/// of the result.
#[verifier::external_body]
fn node_text(node: &kuchiki::NodeRef) -> String {
    node.text_contents()
}

/// Serializes each child of the node (`kuchiki::NodeRef::to_string`) and
/// concatenates the results. The tree can change between calls, so nothing
/// is stated of the result.
#[verifier::external_body]
fn node_children_html(node: &kuchiki::NodeRef) -> String {
    node.children().map(|child| child.to_string()).collect::<String>()
}

/// The content of an element: its text, the HTML of its children, and the
/// distinct `{{ .. }}` placeholders of that HTML in order of first
/// appearance.
pub fn parse_inner_content(node: &kuchiki::NodeRef) -> (r: HtmlInnerContent)
    ensures
        r.bindings_spec() == render::unique_in_order(render::bindings_from(r.html_spec(), 0)),
{
    let inner_text = node_text(node);
    let inner_html = node_children_html(node);
    let inner_bindings = render::extract_inner_bindings(inner_html.as_str());
    assert(Seq::new(inner_bindings@.len(), |i: int| inner_bindings@[i]@) =~= inner_bindings@.map_values(
        |v: String| v@,
    ));
    HtmlInnerContent::new(inner_text, inner_html, inner_bindings)
}

// ---------------------------------------------------------------------------
// Tracking changes of bound values
// ---------------------------------------------------------------------------

/// Names in `cur` whose value differs from (or is missing in) `prev`.
pub open spec fn var_changes(prev: Seq<(Seq<char>, Seq<char>)>, cur: Seq<(Seq<char>, Seq<char>)>) -> Set<
    Seq<char>,
>
    decreases cur.len(),
{
    if cur.len() == 0 {
        Set::empty()
    } else {
        let s = var_changes(prev, cur.drop_last());
        if keyed::key_value(prev, cur.last().0) == Some(cur.last().1) {
            s
        } else {
            s.insert(cur.last().0)
        }
    }
}

/// Names in `prev` that `cur` no longer has.
pub open spec fn var_removals(prev: Seq<(Seq<char>, Seq<char>)>, cur: Seq<(Seq<char>, Seq<char>)>) -> Set<
    Seq<char>,
>
    decreases prev.len(),
{
    if prev.len() == 0 {
        Set::empty()
    } else {
        let s = var_removals(prev.drop_last(), cur);
        if keyed::key_index(cur, prev.last().0) is None {
            s.insert(prev.last().0)
        } else {
            s
        }
    }
}

/// Roots of the shared paths in `cur` whose value differs from (or is
/// missing in) `prev`.
pub open spec fn shared_changes(prev: Seq<(Seq<char>, JsonV)>, cur: Seq<(Seq<char>, JsonV)>) -> Set<
    Seq<char>,
>
    decreases cur.len(),
{
    if cur.len() == 0 {
        Set::empty()
    } else {
        let s = shared_changes(prev, cur.drop_last());
        if keyed::key_value(prev, cur.last().0) == Some(cur.last().1) {
            s
        } else {
            s.insert(attrs::binding_root_of(cur.last().0))
        }
    }
}

/// Roots of the shared paths in `prev` that `cur` no longer has.
pub open spec fn shared_removals(prev: Seq<(Seq<char>, JsonV)>, cur: Seq<(Seq<char>, JsonV)>) -> Set<
    Seq<char>,
>
    decreases prev.len(),
{
    if prev.len() == 0 {
        Set::empty()
    } else {
        let s = shared_removals(prev.drop_last(), cur);
        if keyed::key_index(cur, prev.last().0) is None {
            s.insert(attrs::binding_root_of(prev.last().0))
        } else {
            s
        }
    }
}

/// The roots whose values changed between two snapshots.
pub open spec fn changed_roots_of(
    prev_vars: Seq<(Seq<char>, Seq<char>)>,
    vars: Seq<(Seq<char>, Seq<char>)>,
    prev_shared: Seq<(Seq<char>, JsonV)>,
    shared: Seq<(Seq<char>, JsonV)>,
) -> Set<Seq<char>> {
    var_changes(prev_vars, vars).union(var_removals(prev_vars, vars)).union(
        shared_changes(prev_shared, shared),
    ).union(shared_removals(prev_shared, shared))
}

/// The texts of the language variables, by name.
pub open spec fn raw_texts(vars: Seq<(Seq<char>, (Seq<char>, Option<JsonV>))>) -> Seq<
    (Seq<char>, Seq<char>),
> {
    Seq::new(vars.len(), |i: int| (vars[i].0, vars[i].1.0))
}

/// Views of stored name/text pairs.
pub open spec fn pairs_view(v: Seq<(String, String)>) -> Seq<(Seq<char>, Seq<char>)> {
    Seq::new(v.len(), |i: int| (v[i].0@, v[i].1@))
}

fn pair_index(v: &Vec<(String, String)>, key: &Vec<char>) -> (r: Option<usize>)
    ensures
        r is Some <==> keyed::key_index(pairs_view(v@), key@) is Some,
        r is Some ==> keyed::key_index(pairs_view(v@), key@) == Some(r->0 as int) && r->0 < v.len(),
{
    let ghost es = pairs_view(v@);
    let mut i: usize = 0;
    while i < v.len()
        invariant
            i <= v.len(),
            es == pairs_view(v@),
            keyed::key_index_from(es, key@, 0) == keyed::key_index_from(es, key@, i as int),
        decreases v.len() - i,
    {
        let k = text::str_to_chars(v[i].0.as_str());
        if text::chars_eq(&k, key) {
            return Some(i);
        }
        i = i + 1;
    }
    None
}

fn value_index(v: &Vec<(String, JsonValue)>, key: &Vec<char>) -> (r: Option<usize>)
    ensures
        r is Some <==> keyed::key_index(json::entries_view(v@), key@) is Some,
        r is Some ==> keyed::key_index(json::entries_view(v@), key@) == Some(r->0 as int) && r->0
            < v.len(),
{
    let ghost es = json::entries_view(v@);
    let mut i: usize = 0;
    while i < v.len()
        invariant
            i <= v.len(),
            es == json::entries_view(v@),
            keyed::key_index_from(es, key@, 0) == keyed::key_index_from(es, key@, i as int),
        decreases v.len() - i,
    {
        let k = text::str_to_chars(v[i].0.as_str());
        if text::chars_eq(&k, key) {
            return Some(i);
        }
        i = i + 1;
    }
    None
}

/// The values seen last (name/text pairs of the language variables and the
/// shared values, in key order), and the roots that changed before that.
pub struct HtmlBindingValueTracker {
    pub vars: Vec<(String, String)>,
    pub shared_values: Vec<(String, JsonValue)>,
    pub changed_roots: Vec<String>,
    pub values_changed: bool,
}

impl HtmlBindingValueTracker {
    /// A tracker that has seen nothing.
    pub fn new() -> (r: Self)
        ensures
            r.vars@ == Seq::<(String, String)>::empty(),
            r.shared_values@ == Seq::<(String, JsonValue)>::empty(),
            r.changed_roots@ == Seq::<String>::empty(),
            !r.values_changed,
    {
        HtmlBindingValueTracker {
            vars: Vec::new(),
            shared_values: Vec::new(),
            changed_roots: Vec::new(),
            values_changed: false,
        }
    }

    /// Compares the current variables and shared values with the last
    /// snapshot, records the changed roots (`changed_roots_of`) and takes a
    /// new snapshot.
    pub fn track(
        &mut self,
        vars: &crate::context::UiLangVariables,
        shared: &crate::context::UiSharedValues,
    )
        ensures
            str_set(final(self).changed_roots@) == changed_roots_of(
                pairs_view(old(self).vars@),
                raw_texts(vars.vars.entries_spec()),
                json::entries_view(old(self).shared_values@),
                shared.values.entries_spec(),
            ),
            final(self).values_changed == (final(self).changed_roots@.len() > 0),
            pairs_view(final(self).vars@) == raw_texts(vars.vars.entries_spec()),
            json::entries_view(final(self).shared_values@) == shared.values.entries_spec(),
    {
        let ghost pv = pairs_view(self.vars@);
        let ghost ps = json::entries_view(self.shared_values@);
        let ghost cv = raw_texts(vars.vars.entries_spec());
        let ghost cs = shared.values.entries_spec();
        let mut changed: Vec<String> = Vec::new();
        assert(str_set(changed@) =~= Set::<Seq<char>>::empty());
        let mut snap_vars: Vec<(String, String)> = Vec::new();
        // variables set now whose text changed
        let n = vars.vars.len();
        let mut i: usize = 0;
        while i < n
            invariant
                i <= n,
                n == cv.len(),
                cv == raw_texts(vars.vars.entries_spec()),
                pv == pairs_view(self.vars@),
                str_set(changed@) == var_changes(pv, cv.take(i as int)),
                pairs_view(snap_vars@) == cv.take(i as int),
            decreases n - i,
        {
            assert(cv.take(i + 1).drop_last() =~= cv.take(i as int));
            let key = text::str_to_chars(vars.vars.key_at(i).as_str());
            let raw = vars.vars.value_at(i).raw.as_str();
            assert(cv[i as int] == (key@, raw@));
            proof {
                keyed::lemma_key_index_from(pv, key@, 0);
            }
            let same = match pair_index(&self.vars, &key) {
                Some(k) => {
                    assert(pv[k as int] == (self.vars@[k as int].0@, self.vars@[k as int].1@));
                    text::chars_eq_str(&text::str_to_chars(self.vars[k].1.as_str()), raw)
                },
                None => false,
            };
            if !same {
                insert_string(&mut changed, &key);
            }
            let ghost prev_snap = pairs_view(snap_vars@);
            snap_vars.push((text::chars_to_string(&key), String::from_str(raw)));
            assert(pairs_view(snap_vars@) =~= prev_snap.push((key@, raw@)));
            assert(cv.take(i + 1) =~= cv.take(i as int).push(cv[i as int]));
            i = i + 1;
        }
        assert(cv.take(n as int) =~= cv);
        let ghost after_vars = str_set(changed@);
        // variables that were set before and are gone
        let m = self.vars.len();
        let mut j: usize = 0;
        assert(after_vars.union(var_removals(pv.take(0), cv)) =~= after_vars);
        while j < m
            invariant
                j <= m,
                m == pv.len(),
                pv == pairs_view(self.vars@),
                cv == raw_texts(vars.vars.entries_spec()),
                pairs_view(snap_vars@) == cv,
                str_set(changed@) == after_vars.union(var_removals(pv.take(j as int), cv)),
            decreases m - j,
        {
            assert(pv.take(j + 1).drop_last() =~= pv.take(j as int));
            let key = text::str_to_chars(self.vars[j].0.as_str());
            assert(pv[j as int].0 == key@);
            if pair_index(&snap_vars, &key).is_none() {
                insert_string(&mut changed, &key);
                assert(after_vars.union(var_removals(pv.take(j as int), cv)).insert(key@)
                    =~= after_vars.union(var_removals(pv.take(j + 1), cv)));
            } else {
                assert(after_vars.union(var_removals(pv.take(j as int), cv)) =~= after_vars.union(
                    var_removals(pv.take(j + 1), cv),
                ));
            }
            j = j + 1;
        }
        assert(pv.take(m as int) =~= pv);
        let ghost after_removed = str_set(changed@);
        // shared values set now whose value changed
        let mut snap_shared: Vec<(String, JsonValue)> = Vec::new();
        let ns = shared.values.len();
        let mut i: usize = 0;
        assert(after_removed.union(shared_changes(ps, cs.take(0))) =~= after_removed);
        while i < ns
            invariant
                i <= ns,
                ns == cs.len(),
                cs == shared.values.entries_spec(),
                ps == json::entries_view(self.shared_values@),
                str_set(changed@) == after_removed.union(shared_changes(ps, cs.take(i as int))),
                json::entries_view(snap_shared@) == cs.take(i as int),
            decreases ns - i,
        {
            assert(cs.take(i + 1).drop_last() =~= cs.take(i as int));
            let key = text::str_to_chars(shared.values.key_at(i).as_str());
            let value = shared.values.value_at(i);
            assert(cs[i as int] == (key@, value@));
            proof {
                keyed::lemma_key_index_from(ps, key@, 0);
            }
            let same = match value_index(&self.shared_values, &key) {
                Some(k) => {
                    assert(ps[k as int] == (self.shared_values@[k as int].0@, self.shared_values@[k as int].1@));
                    json::json_struct_eq(&self.shared_values[k].1, value)
                },
                None => false,
            };
            if !same {
                let root = attrs::binding_root(shared.values.key_at(i).as_str());
                let rc = text::str_to_chars(root.as_str());
                insert_string(&mut changed, &rc);
                assert(after_removed.union(shared_changes(ps, cs.take(i as int))).insert(rc@)
                    =~= after_removed.union(shared_changes(ps, cs.take(i + 1))));
            } else {
                assert(after_removed.union(shared_changes(ps, cs.take(i as int))) =~= after_removed.union(
                    shared_changes(ps, cs.take(i + 1)),
                ));
            }
            let ghost prev_snap = json::entries_view(snap_shared@);
            snap_shared.push((text::chars_to_string(&key), json::json_clone(value)));
            assert(json::entries_view(snap_shared@) =~= prev_snap.push((key@, value@)));
            assert(cs.take(i + 1) =~= cs.take(i as int).push(cs[i as int]));
            i = i + 1;
        }
        assert(cs.take(ns as int) =~= cs);
        let ghost after_shared = str_set(changed@);
        // shared values that were set before and are gone
        let ms = self.shared_values.len();
        let mut j: usize = 0;
        assert(after_shared.union(shared_removals(ps.take(0), cs)) =~= after_shared);
        while j < ms
            invariant
                j <= ms,
                ms == ps.len(),
                ps == json::entries_view(self.shared_values@),
                cs == shared.values.entries_spec(),
                json::entries_view(snap_shared@) == cs,
                str_set(changed@) == after_shared.union(shared_removals(ps.take(j as int), cs)),
            decreases ms - j,
        {
            assert(ps.take(j + 1).drop_last() =~= ps.take(j as int));
            let key = text::str_to_chars(self.shared_values[j].0.as_str());
            assert(ps[j as int].0 == key@);
            if value_index(&snap_shared, &key).is_none() {
                let root = attrs::binding_root(self.shared_values[j].0.as_str());
                let rc = text::str_to_chars(root.as_str());
                insert_string(&mut changed, &rc);
                assert(after_shared.union(shared_removals(ps.take(j as int), cs)).insert(rc@)
                    =~= after_shared.union(shared_removals(ps.take(j + 1), cs)));
            } else {
                assert(after_shared.union(shared_removals(ps.take(j as int), cs)) =~= after_shared.union(
                    shared_removals(ps.take(j + 1), cs),
                ));
            }
            j = j + 1;
        }
        assert(ps.take(ms as int) =~= ps);
        self.vars = snap_vars;
        self.shared_values = snap_shared;
        self.values_changed = changed.len() > 0;
        self.changed_roots = changed;
    }
}

proof fn lemma_var_changes_none(s: Seq<(Seq<char>, Seq<char>)>, n: int)
    requires
        keyed::keys_sorted(s),
        0 <= n <= s.len(),
    ensures
        var_changes(s, s.take(n)) == Set::<Seq<char>>::empty(),
    decreases n,
{
    if n > 0 {
        lemma_var_changes_none(s, n - 1);
        assert(s.take(n).drop_last() =~= s.take(n - 1));
        assert(s.take(n).last() == s[n - 1]);
        keyed::lemma_key_value_sorted(s, s[n - 1].0);
    }
}

proof fn lemma_var_removals_none(s: Seq<(Seq<char>, Seq<char>)>, n: int)
    requires
        keyed::keys_sorted(s),
        0 <= n <= s.len(),
    ensures
        var_removals(s.take(n), s) == Set::<Seq<char>>::empty(),
    decreases n,
{
    if n > 0 {
        lemma_var_removals_none(s, n - 1);
        assert(s.take(n).drop_last() =~= s.take(n - 1));
        assert(s.take(n).last() == s[n - 1]);
        keyed::lemma_key_value_sorted(s, s[n - 1].0);
    }
}

proof fn lemma_shared_changes_none(s: Seq<(Seq<char>, JsonV)>, n: int)
    requires
        keyed::keys_sorted(s),
        0 <= n <= s.len(),
    ensures
        shared_changes(s, s.take(n)) == Set::<Seq<char>>::empty(),
    decreases n,
{
    if n > 0 {
        lemma_shared_changes_none(s, n - 1);
        assert(s.take(n).drop_last() =~= s.take(n - 1));
        assert(s.take(n).last() == s[n - 1]);
        keyed::lemma_key_value_sorted(s, s[n - 1].0);
    }
}

proof fn lemma_shared_removals_none(s: Seq<(Seq<char>, JsonV)>, n: int)
    requires
        keyed::keys_sorted(s),
        0 <= n <= s.len(),
    ensures
        shared_removals(s.take(n), s) == Set::<Seq<char>>::empty(),
    decreases n,
{
    if n > 0 {
        lemma_shared_removals_none(s, n - 1);
        assert(s.take(n).drop_last() =~= s.take(n - 1));
        assert(s.take(n).last() == s[n - 1]);
        keyed::lemma_key_value_sorted(s, s[n - 1].0);
    }
}

/// Values that did not change since the last snapshot report no changed
/// root: tracking twice in a row, with nothing set in between, leaves the
/// second round with nothing to patch.
pub proof fn law_unchanged_values_report_no_roots(
    vars: Seq<(Seq<char>, Seq<char>)>,
    shared: Seq<(Seq<char>, JsonV)>,
)
    requires
        keyed::keys_sorted(vars),
        keyed::keys_sorted(shared),
    ensures
        changed_roots_of(vars, vars, shared, shared) == Set::<Seq<char>>::empty(),
{
    lemma_var_changes_none(vars, vars.len() as int);
    lemma_var_removals_none(vars, vars.len() as int);
    lemma_shared_changes_none(shared, shared.len() as int);
    lemma_shared_removals_none(shared, shared.len() as int);
    assert(vars.take(vars.len() as int) =~= vars);
    assert(shared.take(shared.len() as int) =~= shared);
    assert(changed_roots_of(vars, vars, shared, shared) =~= Set::<Seq<char>>::empty());
}

/// An element text bound to `bindings` has to be patched when the root of
/// one of them changed.
pub open spec fn binding_needs_patch(bindings: Seq<Seq<char>>, changed: Set<Seq<char>>) -> bool {
    exists|i: int| 0 <= i < bindings.len() && changed.contains(attrs::binding_root_of(#[trigger] bindings[i]))
}

/// Whether a text bound to `bindings` has to be patched after the roots
/// `changed_roots` changed (`binding_needs_patch`).
pub fn text_binding_needs_patch(bindings: &Vec<String>, changed_roots: &Vec<String>) -> (r: bool)
    ensures
        r == binding_needs_patch(Seq::new(bindings@.len(), |i: int| bindings@[i]@), str_set(changed_roots@)),
{
    let ghost bv = Seq::new(bindings@.len(), |i: int| bindings@[i]@);
    let mut i: usize = 0;
    while i < bindings.len()
        invariant
            i <= bindings.len(),
            bv == Seq::new(bindings@.len(), |i: int| bindings@[i]@),
            forall|k: int| 0 <= k < i ==> !str_set(changed_roots@).contains(attrs::binding_root_of(#[trigger] bv[k])),
        decreases bindings.len() - i,
    {
        let root = attrs::binding_root(bindings[i].as_str());
        let rc = text::str_to_chars(root.as_str());
        assert(bv[i as int] == bindings@[i as int]@);
        if contains_string(changed_roots, &rc) {
            return true;
        }
        i = i + 1;
    }
    false
}


/// View of a binding profile.
pub struct ProfileV {
    pub text_roots: Set<Seq<char>>,
    pub unpatchable_roots: Set<Seq<char>>,
    pub force_reparse: bool,
}

impl View for HtmlTemplateBindingProfile {
    type V = ProfileV;

    open spec fn view(&self) -> ProfileV {
        ProfileV {
            text_roots: str_set(self.text_roots@),
            unpatchable_roots: str_set(self.unpatchable_roots@),
            force_reparse: self.force_reparse_on_value_change,
        }
    }
}

/// Whether a source has to be parsed again after the roots `changed`
/// changed: not when nothing changed; always for a source without a name;
/// otherwise when no profile is known for its name or its profile needs it.
pub open spec fn source_needs_reparse(
    source_id: Seq<char>,
    profiles: Seq<(Seq<char>, ProfileV)>,
    changed: Set<Seq<char>>,
    changed_empty: bool,
) -> bool {
    if changed_empty {
        false
    } else if source_id.len() == 0 {
        true
    } else {
        match keyed::key_value(profiles, source_id) {
            None => true,
            Some(p) => needs_reparse(p.force_reparse, p.unpatchable_roots, changed),
        }
    }
}

/// Whether the source has to be parsed again (`source_needs_reparse`).
pub fn source_requires_value_reparse(
    source: &crate::registry::HtmlSource,
    profiles: &KeyedMap<HtmlTemplateBindingProfile>,
    changed_roots: &Vec<String>,
) -> (r: bool)
    ensures
        r == source_needs_reparse(
            source.source_id@,
            profiles.entries_spec(),
            str_set(changed_roots@),
            changed_roots@.len() == 0,
        ),
{
    if changed_roots.len() == 0 {
        return false;
    }
    if source.source_id.unicode_len() == 0 {
        return true;
    }
    let id = text::str_to_chars(source.source_id.as_str());
    match profiles.get(&id) {
        None => true,
        Some(profile) => profile.requires_reparse(changed_roots),
    }
}

/// Whether the UI has to be rebuilt, and which sources (all active ones
/// when the set is empty).
pub struct HtmlDirty {
    pub dirty: bool,
    pub keys: Vec<String>,
}

/// The active names to rebuild: none unless dirty; otherwise all active
/// names when no particular name is marked, else the active names that are
/// marked, in active order.
pub open spec fn rebuild_keys(
    dirty: bool,
    marked: Set<Seq<char>>,
    marked_empty: bool,
    active: Option<Seq<Seq<char>>>,
) -> Seq<Seq<char>> {
    if !dirty {
        seq![]
    } else {
        match active {
            None => seq![],
            Some(list) => if marked_empty {
                list
            } else {
                marked_in(list, marked)
            },
        }
    }
}

/// The names of `list` that `marked` holds, in order.
pub open spec fn marked_in(list: Seq<Seq<char>>, marked: Set<Seq<char>>) -> Seq<Seq<char>>
    decreases list.len(),
{
    if list.len() == 0 {
        seq![]
    } else {
        let r = marked_in(list.drop_last(), marked);
        if marked.contains(list.last()) {
            r.push(list.last())
        } else {
            r
        }
    }
}

/// Takes the names to rebuild out of the dirty state (`rebuild_keys`):
/// afterwards the state is clean, and the marks of the names taken (all
/// marks, when nothing is active) are gone.
pub fn take_rebuild_keys(dirty: &mut HtmlDirty, active: &Option<Vec<String>>) -> (r: Vec<String>)
    ensures
        Seq::new(r@.len(), |i: int| r@[i]@) == rebuild_keys(
            old(dirty).dirty,
            str_set(old(dirty).keys@),
            old(dirty).keys@.len() == 0,
            match active {
                Some(v) => Some(Seq::new(v@.len(), |i: int| v@[i]@)),
                None => None,
            },
        ),
        !old(dirty).dirty ==> final(dirty).dirty == old(dirty).dirty && final(dirty).keys@ == old(
            dirty,
        ).keys@,
        old(dirty).dirty ==> !final(dirty).dirty,
        old(dirty).dirty && active is None ==> final(dirty).keys@.len() == 0,
        old(dirty).dirty && active is Some ==> str_set(final(dirty).keys@) == str_set(
            old(dirty).keys@,
        ).difference(str_set(r@)),
{
    let mut out: Vec<String> = Vec::new();
    if !dirty.dirty {
        assert(Seq::new(out@.len(), |i: int| out@[i]@) =~= Seq::<Seq<char>>::empty());
        return out;
    }
    let list = match active {
        None => {
            dirty.dirty = false;
            dirty.keys = Vec::new();
            assert(Seq::new(out@.len(), |i: int| out@[i]@) =~= Seq::<Seq<char>>::empty());
            return out;
        },
        Some(list) => list,
    };
    let ghost lv = Seq::new(list@.len(), |i: int| list@[i]@);
    let ghost marked = str_set(dirty.keys@);
    let marked_empty = dirty.keys.len() == 0;
    let mut i: usize = 0;
    assert(Seq::new(out@.len(), |i: int| out@[i]@) =~= Seq::<Seq<char>>::empty());
    while i < list.len()
        invariant
            i <= list.len(),
            lv == Seq::new(list@.len(), |i: int| list@[i]@),
            marked == str_set(dirty.keys@),
            marked_empty == (dirty.keys@.len() == 0),
            Seq::new(out@.len(), |k: int| out@[k]@) == (if marked_empty {
                lv.take(i as int)
            } else {
                marked_in(lv.take(i as int), marked)
            }),
        decreases list.len() - i,
    {
        assert(lv.take(i + 1).drop_last() =~= lv.take(i as int));
        assert(lv.take(i + 1) =~= lv.take(i as int).push(lv[i as int]));
        let name = text::str_to_chars(list[i].as_str());
        assert(lv[i as int] == name@);
        if marked_empty || contains_string(&dirty.keys, &name) {
            let ghost prev = Seq::new(out@.len(), |k: int| out@[k]@);
            out.push(String::from_str(list[i].as_str()));
            assert(Seq::new(out@.len(), |k: int| out@[k]@) =~= prev.push(name@));
        }
        i = i + 1;
    }
    assert(lv.take(list.len() as int) =~= lv);
    let ghost taken = str_set(out@);
    let mut kept: Vec<String> = Vec::new();
    let mut k: usize = 0;
    while k < dirty.keys.len()
        invariant
            k <= dirty.keys.len(),
            taken == str_set(out@),
            forall|x: Seq<char>| #[trigger] str_set(kept@).contains(x) <==> (exists|j: int|
                0 <= j < k && dirty.keys@[j]@ == x) && !taken.contains(x),
        decreases dirty.keys.len() - k,
    {
        let name = text::str_to_chars(dirty.keys[k].as_str());
        if !contains_string(&out, &name) {
            insert_string(&mut kept, &name);
        }
        proof {
            assert forall|x: Seq<char>| #[trigger] str_set(kept@).contains(x) <==> (exists|j: int|
                0 <= j < k + 1 && dirty.keys@[j]@ == x) && !taken.contains(x) by {
                if x == name@ {
                    assert(dirty.keys@[k as int]@ == x);
                }
                if exists|j: int| 0 <= j < k + 1 && dirty.keys@[j]@ == x {
                    let j = choose|j: int| 0 <= j < k + 1 && dirty.keys@[j]@ == x;
                    if j < k {
                        assert(exists|j2: int| 0 <= j2 < k && dirty.keys@[j2]@ == x);
                    }
                }
            }
        }
        k = k + 1;
    }
    proof {
        assert(str_set(kept@) =~= str_set(dirty.keys@).difference(taken));
    }
    dirty.dirty = false;
    dirty.keys = kept;
    out
}

} // verus!
