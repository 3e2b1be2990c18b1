//! The widget tree an HTML document describes: each supported element
//! becomes a widget node carrying its identifier, classes, states and the
//! nodes of its children; tables lay their cells out on a grid.
use vstd::prelude::*;
use crate::text;
use crate::attrs;
use crate::attrs::HtmlID;
use crate::elements;
use crate::elements::ChildNode;
use crate::keyed::KeyedMap;
use crate::components;
use crate::components::{
    WidgetIdPools, WidgetKind, WIDGET_KIND_COUNT, kind_index, pools_after_acquire, Body, Button,
    CheckBox, Div, Form, Divider, FieldSet, Headline, HyperLink, Img, InputField, DatePicker,
    Paragraph, ToolTip, Badge, RadioButton, ChoiceBox, SwitchButton, ToggleButton, ListBox,
    TableCell, Table,
};
use crate::convert;
use crate::convert::{attr, attr_v, has_attr, pools_after_acquires, with_class, classes_view};
use crate::html::{HtmlStates, TableSection};
use crate::registry::PoolV;
use crate::widgets::ValidationRules;
use crate::keyed;
use crate::render;
use crate::json;
use crate::html;
use kuchiki::traits::TendrilSink;

verus! {

// ---------------------------------------------------------------------------
// How many elements a document holds
// ---------------------------------------------------------------------------

/// The number of elements among `nodes` and all their descendants.
pub open spec fn forest_size(nodes: Seq<ChildNode>) -> nat
    decreases nodes,
{
    if nodes.len() == 0 {
        0
    } else {
        forest_size(nodes.drop_last()) + match nodes.last() {
            ChildNode::Element { children, .. } => 1 + forest_size(children@),
            _ => 0,
        }
    }
}

/// The number of elements in `node` and its descendants.
pub open spec fn node_size(node: ChildNode) -> nat {
    forest_size(seq![node])
}

/// The size of a node: one for an element and the sizes of its children.
pub proof fn lemma_node_size(node: ChildNode)
    ensures
        node_size(node) == match node {
            ChildNode::Element { children, .. } => 1 + forest_size(children@),
            _ => 0,
        },
{
    let s = seq![node];
    assert(s.drop_last() =~= Seq::<ChildNode>::empty());
    assert(forest_size(s.drop_last()) == 0);
    assert(s.last() == node);
}

/// The size of the first `i + 1` nodes is that of the first `i` and the
/// size of node `i`.
pub proof fn lemma_forest_prefix(nodes: Seq<ChildNode>, i: int)
    requires
        0 <= i < nodes.len(),
    ensures
        forest_size(nodes.take(i + 1)) == forest_size(nodes.take(i)) + node_size(nodes[i]),
{
    assert(nodes.take(i + 1).drop_last() =~= nodes.take(i));
    lemma_node_size(nodes[i]);
}

/// Prefixes are no larger than the whole.
pub proof fn lemma_forest_prefix_le(nodes: Seq<ChildNode>, i: int)
    requires
        0 <= i <= nodes.len(),
    ensures
        forest_size(nodes.take(i)) <= forest_size(nodes),
    decreases nodes.len() - i,
{
    if i < nodes.len() {
        lemma_forest_prefix(nodes, i);
        lemma_forest_prefix_le(nodes, i + 1);
    } else {
        assert(nodes.take(i) =~= nodes);
    }
}

// ---------------------------------------------------------------------------
// Room in the identifier pools
// ---------------------------------------------------------------------------

/// Every kind's pool can hand out `n` more fresh identifiers.
pub open spec fn pools_have_room(p: Seq<PoolV>, n: nat) -> bool {
    &&& p.len() == WIDGET_KIND_COUNT
    &&& forall|i: int| 0 <= i < WIDGET_KIND_COUNT ==> #[trigger] p[i].next + n <= usize::MAX
}

/// No kind's next fresh identifier moved past `n` beyond where it was.
pub open spec fn pools_grown_by(before: Seq<PoolV>, after: Seq<PoolV>, n: nat) -> bool {
    &&& after.len() == WIDGET_KIND_COUNT
    &&& forall|i: int|
        0 <= i < WIDGET_KIND_COUNT ==> #[trigger] after[i].next <= before[i].next + n
}

/// Handing out one identifier moves one kind's next fresh identifier on by
/// at most one.
pub proof fn lemma_acquire_room(p: Seq<PoolV>, k: WidgetKind, n: nat)
    requires
        pools_have_room(p, n + 1),
    ensures
        components::kind_can_acquire(p, k),
        pools_grown_by(p, pools_after_acquire(p, k), 1),
        pools_have_room(pools_after_acquire(p, k), n),
{
    let q = pools_after_acquire(p, k);
    assert forall|i: int| 0 <= i < WIDGET_KIND_COUNT implies #[trigger] q[i].next <= p[i].next
        + 1 by {
        if i != kind_index(k) {
            assert(q[i] == p[i]);
        }
    }
}

/// Handing out `j` identifiers of one kind moves its next fresh identifier
/// on by at most `j`, and no other.
pub proof fn lemma_acquires_room(p: Seq<PoolV>, k: WidgetKind, j: nat, n: nat)
    requires
        pools_have_room(p, j + n),
    ensures
        pools_grown_by(p, pools_after_acquires(p, k, j), j),
        pools_have_room(pools_after_acquires(p, k, j), n),
    decreases j,
{
    if j > 0 {
        let j1 = (j - 1) as nat;
        lemma_acquires_room(p, k, j1, n + 1);
        let q = pools_after_acquires(p, k, j1);
        lemma_acquire_room(q, k, n);
    }
}

/// Growth adds up.
pub proof fn lemma_grown_trans(a: Seq<PoolV>, b: Seq<PoolV>, c: Seq<PoolV>, m: nat, n: nat)
    requires
        a.len() == WIDGET_KIND_COUNT,
        pools_grown_by(a, b, m),
        pools_grown_by(b, c, n),
    ensures
        pools_grown_by(a, c, m + n),
{
    assert forall|i: int| 0 <= i < WIDGET_KIND_COUNT implies #[trigger] c[i].next <= a[i].next + m
        + n by {
        assert(c[i].next <= b[i].next + n);
        assert(b[i].next <= a[i].next + m);
    }
}

/// Room left after growth.
pub proof fn lemma_room_after(a: Seq<PoolV>, b: Seq<PoolV>, m: nat, n: nat)
    requires
        pools_have_room(a, m + n),
        pools_grown_by(a, b, m),
    ensures
        pools_have_room(b, n),
{
    assert forall|i: int| 0 <= i < WIDGET_KIND_COUNT implies #[trigger] b[i].next + n
        <= usize::MAX by {
        assert(b[i].next <= a[i].next + m);
        assert(a[i].next + m + n <= usize::MAX);
    }
}

// ---------------------------------------------------------------------------
// Widget nodes
// ---------------------------------------------------------------------------

/// The widget a node shows.
pub enum NodeWidget {
    Body(Body),
    Div(Div),
    Form(Form),
    Button(Button),
    CheckBox(CheckBox),
    Divider(Divider),
    FieldSet(FieldSet),
    Headline(Headline),
    HyperLink(HyperLink),
    Img(Img),
    Input(InputField),
    DatePicker(DatePicker),
    Paragraph(Paragraph),
    ToolTip(ToolTip),
    Badge(Badge),
    RadioButton(RadioButton),
    ChoiceBox(ChoiceBox),
    SwitchButton(SwitchButton),
    ToggleButton(ToggleButton),
    ListBox(ListBox),
    TableCell(TableCell),
    Table(Table),
    /// A color picker, progress bar, scroll bar or slider, whose settings
    /// are floating point and read by the application from the element:
    /// the tag, and the element's attributes as (name, value) pairs in name
    /// order.
    Numeric(String, Vec<(String, String)>),
}

/// A node of the widget tree: its widget, its stable identifier, the
/// element's `id`, classes and validation rules, the text of the element,
/// the HTML of its children and the placeholders in it, the text binding
/// the document records at its path, its states, the handlers its event
/// attributes bind, and the nodes of its children.
pub struct HtmlWidgetNode {
    pub widget: NodeWidget,
    pub id: HtmlID,
    pub html_id: Option<String>,
    pub classes: Option<Vec<String>>,
    pub validation: Option<ValidationRules>,
    pub inner_text: String,
    pub inner_html: String,
    pub inner_bindings: Vec<String>,
    pub text_binding: Option<HtmlTextBinding>,
    pub states: HtmlStates,
    pub functions: convert::HtmlEventBindings,
    pub children: Vec<HtmlWidgetNode>,
}

/// Tags whose widgets hold floating-point settings.
pub open spec fn numeric_tag(t: Seq<char>) -> bool {
    t == "colorpicker"@ || t == "progressbar"@ || t == "scroll"@ || t == "slider"@
}

/// Heading tags.
pub open spec fn heading_tag(t: Seq<char>) -> bool {
    t == "h1"@ || t == "h2"@ || t == "h3"@ || t == "h4"@ || t == "h5"@ || t == "h6"@
}

/// Whether `w` is the kind of widget an element with tag `t` becomes; no
/// widget fits a tag that becomes none.
pub open spec fn widget_for_tag(w: NodeWidget, t: Seq<char>) -> bool {
    match w {
        NodeWidget::Body(_) => t == "body"@,
        NodeWidget::Div(_) => t == "div"@,
        NodeWidget::Form(_) => t == "form"@,
        NodeWidget::Button(_) => t == "button"@,
        NodeWidget::CheckBox(_) => t == "checkbox"@,
        NodeWidget::Divider(_) => t == "divider"@,
        NodeWidget::FieldSet(_) => t == "fieldset"@,
        NodeWidget::Headline(_) => heading_tag(t),
        NodeWidget::HyperLink(_) => t == "a"@,
        NodeWidget::Img(_) => t == "img"@,
        NodeWidget::Input(_) => t == "input"@,
        NodeWidget::DatePicker(_) => t == "date-picker"@,
        NodeWidget::Paragraph(_) => t == "p"@,
        NodeWidget::ToolTip(_) => t == "tool-tip"@,
        NodeWidget::Badge(_) => t == "badge"@,
        NodeWidget::RadioButton(_) => t == "radio"@,
        NodeWidget::ChoiceBox(_) => t == "select"@,
        NodeWidget::SwitchButton(_) => t == "switch"@,
        NodeWidget::ToggleButton(_) => t == "toggle"@,
        NodeWidget::ListBox(_) => t == "listbox"@,
        NodeWidget::TableCell(c) => (t == "td"@ || t == "th"@) && c.header == (t == "th"@),
        NodeWidget::Table(_) => t == "table"@,
        NodeWidget::Numeric(n, _) => numeric_tag(t) && n@ == t,
    }
}

/// Tags that become a widget.
pub open spec fn supported_tag(t: Seq<char>) -> bool {
    t == "body"@ || t == "div"@ || t == "form"@ || t == "button"@ || t == "checkbox"@ || t
        == "divider"@ || t == "fieldset"@ || heading_tag(t) || t == "a"@ || t == "img"@ || t
        == "input"@ || t == "date-picker"@ || t == "p"@ || t == "tool-tip"@ || t == "badge"@ || t
        == "radio"@ || t == "select"@ || t == "switch"@ || t == "toggle"@ || t == "listbox"@ || t
        == "td"@ || t == "th"@ || t == "table"@ || numeric_tag(t)
}

/// The classes of an element: its `class` attribute split at whitespace.
pub open spec fn class_list(a: Seq<(Seq<char>, Seq<char>)>) -> Option<Seq<Seq<char>>> {
    match attr_v(a, "class"@) {
        Some(c) => Some(elements::words(elements::ws_pieces(c))),
        None => None,
    }
}

/// View of optional validation rules.
pub open spec fn rules_view(v: Option<ValidationRules>) -> Option<crate::widgets::RulesV> {
    match v {
        Some(r) => Some(r@),
        None => None,
    }
}

/// What every node takes from its element: identifier, `id`, validation
/// rules, text, states and event handlers.
pub open spec fn node_base(
    n: HtmlWidgetNode,
    a: Seq<(Seq<char>, Seq<char>)>,
    text: Seq<char>,
    key: Seq<char>,
    path: Seq<char>,
    tag: Seq<char>,
) -> bool {
    &&& n.id.0 == attrs::stable_id(key, path, tag)
    &&& components::opt_str(n.html_id) == attr_v(a, "id"@)
    &&& rules_view(n.validation) == attrs::validation_attributes(
        attr_v(a, "validation"@),
        attr_v(a, "required"@) is Some,
    )
    &&& n.inner_text@ == text
    &&& n.states.hidden == attr_v(a, "hidden"@) is Some
    &&& n.states.disabled == attr_v(a, "disabled"@) is Some
    &&& n.states.readonly == attr_v(a, "readonly"@) is Some
    &&& convert::bindings_of(n.functions, a)
}

// ---------------------------------------------------------------------------
// Table layout
// ---------------------------------------------------------------------------

/// The section a `thead`, `tbody` or `tfoot` wrapper stands for.
pub open spec fn section_of(name: Seq<char>) -> Option<TableSection> {
    if name == "thead"@ {
        Some(TableSection::Head)
    } else if name == "tbody"@ {
        Some(TableSection::Body)
    } else if name == "tfoot"@ {
        Some(TableSection::Foot)
    } else {
        None
    }
}

/// The `<tr>` elements among `nodes`, each with section `sec` and its
/// child nodes.
pub open spec fn tr_rows(nodes: Seq<ChildNode>, sec: TableSection) -> Seq<
    (TableSection, Seq<ChildNode>),
>
    decreases nodes.len(),
{
    if nodes.len() == 0 {
        seq![]
    } else {
        tr_rows(nodes.drop_last(), sec) + match nodes.last() {
            ChildNode::Element { name, children, .. } => if name@ == "tr"@ {
                seq![(sec, children@)]
            } else {
                seq![]
            },
            _ => seq![],
        }
    }
}

/// The rows one child of a table holds: those of a section wrapper, with
/// its section; a bare `<tr>` in the body section; nothing else.
pub open spec fn rows_of_child(c: ChildNode) -> Seq<(TableSection, Seq<ChildNode>)> {
    match c {
        ChildNode::Element { name, children, .. } => match section_of(name@) {
            Some(sec) => tr_rows(children@, sec),
            None => if name@ == "tr"@ {
                seq![(TableSection::Body, children@)]
            } else {
                seq![]
            },
        },
        _ => seq![],
    }
}

/// The rows of a table with children `nodes`, in order.
pub open spec fn table_rows(nodes: Seq<ChildNode>) -> Seq<(TableSection, Seq<ChildNode>)>
    decreases nodes.len(),
{
    if nodes.len() == 0 {
        seq![]
    } else {
        table_rows(nodes.drop_last()) + rows_of_child(nodes.last())
    }
}

/// Whether a node is a table cell.
pub open spec fn is_cell(c: ChildNode) -> bool {
    c matches ChildNode::Element { name, .. } && (name@ == "td"@ || name@ == "th"@)
}

/// The cells among a row's child nodes, in order.
pub open spec fn row_cells(nodes: Seq<ChildNode>) -> Seq<ChildNode>
    decreases nodes.len(),
{
    if nodes.len() == 0 {
        seq![]
    } else if is_cell(nodes.last()) {
        row_cells(nodes.drop_last()).push(nodes.last())
    } else {
        row_cells(nodes.drop_last())
    }
}

/// Where each cell of a table goes: its row among the rows, its column
/// among the cells of its row, its section; rows in order, cells in order.
pub open spec fn table_grid(rows: Seq<(TableSection, Seq<ChildNode>)>) -> Seq<
    (nat, nat, TableSection),
>
    decreases rows.len(),
{
    if rows.len() == 0 {
        seq![]
    } else {
        let r = (rows.len() - 1) as nat;
        let n = row_cells(rows.last().1).len();
        table_grid(rows.drop_last()) + Seq::new(n, |c: int| (r, c as nat, rows.last().0))
    }
}

/// The cell nodes of a table, in grid order.
pub open spec fn table_cell_nodes(rows: Seq<(TableSection, Seq<ChildNode>)>) -> Seq<ChildNode>
    decreases rows.len(),
{
    if rows.len() == 0 {
        seq![]
    } else {
        table_cell_nodes(rows.drop_last()) + row_cells(rows.last().1)
    }
}

/// The indices, among a row's child nodes, of its cells, in order.
pub open spec fn row_cell_indices(nodes: Seq<ChildNode>) -> Seq<int>
    decreases nodes.len(),
{
    if nodes.len() == 0 {
        seq![]
    } else if is_cell(nodes.last()) {
        row_cell_indices(nodes.drop_last()).push(nodes.len() - 1)
    } else {
        row_cell_indices(nodes.drop_last())
    }
}

/// The path of each cell of a table at `path`, in grid order: the table's
/// path, the cell's row among the rows, and the cell's index among its
/// row's child nodes (`path.row.index`).
pub open spec fn table_cell_paths(rows: Seq<(TableSection, Seq<ChildNode>)>, path: Seq<char>) -> Seq<
    Seq<char>,
>
    decreases rows.len(),
{
    if rows.len() == 0 {
        seq![]
    } else {
        let r = rows.len() - 1;
        table_cell_paths(rows.drop_last(), path) + Seq::new(
            row_cells(rows.last().1).len(),
            |c: int| child_path_of(child_path_of(path, r), row_cell_indices(rows.last().1)[c]),
        )
    }
}

/// The number of columns of a table: the most cells in a row.
pub open spec fn table_columns(rows: Seq<(TableSection, Seq<ChildNode>)>) -> nat
    decreases rows.len(),
{
    if rows.len() == 0 {
        0
    } else {
        let rest = table_columns(rows.drop_last());
        let n = row_cells(rows.last().1).len();
        if n > rest {
            n
        } else {
            rest
        }
    }
}

/// The class a cell of section `s` gets.
pub open spec fn section_class(s: TableSection) -> Seq<char> {
    match s {
        TableSection::Head => "thead"@,
        TableSection::Body => "tbody"@,
        TableSection::Foot => "tfoot"@,
    }
}

// ---------------------------------------------------------------------------
// Sizes of the parts of a table
// ---------------------------------------------------------------------------

/// The number of elements in the child nodes of every row of `rows`.
pub open spec fn rows_size(rows: Seq<(TableSection, Seq<ChildNode>)>) -> nat
    decreases rows.len(),
{
    if rows.len() == 0 {
        0
    } else {
        rows_size(rows.drop_last()) + forest_size(rows.last().1)
    }
}

/// Sizes add up over concatenation.
pub proof fn lemma_forest_concat(a: Seq<ChildNode>, b: Seq<ChildNode>)
    ensures
        forest_size(a + b) == forest_size(a) + forest_size(b),
    decreases b.len(),
{
    if b.len() == 0 {
        assert(a + b =~= a);
    } else {
        lemma_forest_concat(a, b.drop_last());
        assert((a + b).drop_last() =~= a + b.drop_last());
        assert((a + b).last() == b.last());
    }
}

/// No node is larger than a forest that holds it.
pub proof fn lemma_forest_elem(s: Seq<ChildNode>)
    ensures
        forall|i: int| 0 <= i < s.len() ==> node_size(#[trigger] s[i]) <= forest_size(s),
    decreases s.len(),
{
    if s.len() > 0 {
        lemma_forest_elem(s.drop_last());
        lemma_node_size(s.last());
        assert forall|i: int| 0 <= i < s.len() implies node_size(#[trigger] s[i]) <= forest_size(
            s,
        ) by {
            if i < s.len() - 1 {
                assert(s[i] == s.drop_last()[i]);
            }
        }
    }
}

/// Row sizes add up over concatenation.
proof fn lemma_rows_concat(
    a: Seq<(TableSection, Seq<ChildNode>)>,
    b: Seq<(TableSection, Seq<ChildNode>)>,
)
    ensures
        rows_size(a + b) == rows_size(a) + rows_size(b),
    decreases b.len(),
{
    if b.len() == 0 {
        assert(a + b =~= a);
    } else {
        lemma_rows_concat(a, b.drop_last());
        assert((a + b).drop_last() =~= a + b.drop_last());
        assert((a + b).last() == b.last());
    }
}

/// The size of a single row.
proof fn lemma_rows_one(x: (TableSection, Seq<ChildNode>))
    ensures
        rows_size(seq![x]) == forest_size(x.1),
{
    let s = seq![x];
    assert(s.drop_last() =~= Seq::<(TableSection, Seq<ChildNode>)>::empty());
    assert(rows_size(s.drop_last()) == 0);
    assert(s.last() == x);
}

/// The cells of a row are no larger than the row.
proof fn lemma_row_cells_size(s: Seq<ChildNode>)
    ensures
        forest_size(row_cells(s)) <= forest_size(s),
    decreases s.len(),
{
    if s.len() > 0 {
        lemma_row_cells_size(s.drop_last());
        if is_cell(s.last()) {
            let rc = row_cells(s.drop_last()).push(s.last());
            assert(rc.drop_last() =~= row_cells(s.drop_last()));
            assert(rc.last() == s.last());
        }
    }
}

/// The cells of a table are no larger than its rows.
proof fn lemma_cells_size(rows: Seq<(TableSection, Seq<ChildNode>)>)
    ensures
        forest_size(table_cell_nodes(rows)) <= rows_size(rows),
    decreases rows.len(),
{
    if rows.len() > 0 {
        lemma_cells_size(rows.drop_last());
        lemma_forest_concat(table_cell_nodes(rows.drop_last()), row_cells(rows.last().1));
        lemma_row_cells_size(rows.last().1);
    }
}

/// The `<tr>` rows among `nodes` are no larger than `nodes`.
proof fn lemma_tr_rows_size(nodes: Seq<ChildNode>, sec: TableSection)
    ensures
        rows_size(tr_rows(nodes, sec)) <= forest_size(nodes),
    decreases nodes.len(),
{
    if nodes.len() > 0 {
        lemma_tr_rows_size(nodes.drop_last(), sec);
        let tail = match nodes.last() {
            ChildNode::Element { name, children, .. } => if name@ == "tr"@ {
                seq![(sec, children@)]
            } else {
                seq![]
            },
            _ => seq![],
        };
        lemma_rows_concat(tr_rows(nodes.drop_last(), sec), tail);
        match nodes.last() {
            ChildNode::Element { name, children, .. } => if name@ == "tr"@ {
                lemma_rows_one((sec, children@));
            },
            _ => {},
        }
    }
}

/// The rows of a table are no larger than its child nodes.
proof fn lemma_table_rows_size(nodes: Seq<ChildNode>)
    ensures
        rows_size(table_rows(nodes)) <= forest_size(nodes),
    decreases nodes.len(),
{
    if nodes.len() > 0 {
        lemma_table_rows_size(nodes.drop_last());
        lemma_rows_concat(table_rows(nodes.drop_last()), rows_of_child(nodes.last()));
        match nodes.last() {
            ChildNode::Element { name, children, .. } => match section_of(name@) {
                Some(sec) => lemma_tr_rows_size(children@, sec),
                None => if name@ == "tr"@ {
                    lemma_rows_one((TableSection::Body, children@));
                },
            },
            _ => {},
        }
    }
}

/// An element is larger than its child nodes and than the cells of the
/// table they would make.
pub proof fn lemma_element_measures(c: ChildNode)
    ensures
        c matches ChildNode::Element { children, .. } ==> forest_size(children@) < node_size(c)
            && forest_size(table_cell_nodes(table_rows(children@))) < node_size(c),
{
    lemma_node_size(c);
    if let ChildNode::Element { children, .. } = c {
        lemma_table_rows_size(children@);
        lemma_cells_size(table_rows(children@));
    }
}

// ---------------------------------------------------------------------------
// Building the tree
// ---------------------------------------------------------------------------

/// Where a document comes from: the key it is registered under, the path
/// of its file, the label texts by the id their `for` names, and the text
/// bindings of its template by node path.
pub struct SourceContext {
    pub key: String,
    pub html_path: String,
    pub labels: KeyedMap<String>,
    pub text_bindings: KeyedMap<HtmlTextBinding>,
}

/// The view of an optional text binding.
pub open spec fn binding_view(b: Option<HtmlTextBinding>) -> Option<(Seq<char>, Seq<Seq<char>>)> {
    match b {
        Some(x) => Some(x@),
        None => None,
    }
}

/// What a node holds of its element's content: the HTML of the element's
/// children, the distinct `{{ .. }}` placeholders of that HTML in order of
/// first appearance, and the text binding `binding`.
pub open spec fn node_content(
    n: HtmlWidgetNode,
    html: Seq<char>,
    binding: Option<(Seq<char>, Seq<Seq<char>>)>,
) -> bool {
    &&& n.inner_html@ == html
    &&& n.inner_bindings@.map_values(|b: String| b@) == render::unique_in_order(
        render::bindings_from(html, 0),
    )
    &&& binding_view(n.text_binding) == binding
}

/// A copy of a text binding.
fn copy_binding(b: &HtmlTextBinding) -> (r: HtmlTextBinding)
    ensures
        r@ == b@,
{
    let bindings = copy_strings(&b.bindings);
    assert(bindings@.map_values(|v: String| v@) =~= Seq::new(bindings@.len(), |j: int| bindings@[j]@));
    HtmlTextBinding { template: String::from_str(b.template.as_str()), bindings }
}

/// The text binding recorded at `path`, copied.
fn binding_at(bindings: &KeyedMap<HtmlTextBinding>, path: &str) -> (r: Option<HtmlTextBinding>)
    ensures
        binding_view(r) == keyed::key_value(bindings.entries_spec(), path@),
{
    let p = text::str_to_chars(path);
    match bindings.get(&p) {
        Some(b) => Some(copy_binding(b)),
        None => None,
    }
}

/// Growth is bounded by any larger bound.
pub proof fn lemma_grown_mono(a: Seq<PoolV>, b: Seq<PoolV>, m: nat, n: nat)
    requires
        pools_grown_by(a, b, m),
        m <= n,
    ensures
        pools_grown_by(a, b, n),
{
}

/// Pools that did not change have grown by nothing.
pub proof fn lemma_grown_refl(a: Seq<PoolV>)
    requires
        a.len() == WIDGET_KIND_COUNT,
    ensures
        pools_grown_by(a, a, 0),
{
}

/// Views of (name, value) string pairs.
pub open spec fn pairs_view(p: Seq<(String, String)>) -> Seq<(Seq<char>, Seq<char>)> {
    Seq::new(p.len(), |i: int| (p[i].0@, p[i].1@))
}

/// The attributes of an element as (name, value) pairs, in name order.
fn attribute_pairs(attrs: &KeyedMap<String>) -> (r: Vec<(String, String)>)
    ensures
        pairs_view(r@) == attrs.entries_spec(),
{
    let ghost e = attrs.entries_spec();
    let mut out: Vec<(String, String)> = Vec::new();
    let mut i: usize = 0;
    while i < attrs.len()
        invariant
            e == attrs.entries_spec(),
            i <= e.len(),
            out@.len() == i,
            forall|j: int| 0 <= j < i ==> (#[trigger] out@[j]).0@ == e[j].0 && out@[j].1@ == e[j].1,
        decreases e.len() - i,
    {
        let k = String::from_str(attrs.key_at(i).as_str());
        let v = String::from_str(attrs.value_at(i).as_str());
        out.push((k, v));
        i = i + 1;
    }
    assert(pairs_view(out@) =~= e);
    out
}

/// The path of child `index` under `path`: `path.index`.
pub fn child_path(path: &str, index: usize) -> (r: String)
    ensures
        r@ == path@ + seq!['.'] + text::nat_to_decimal(index as nat),
{
    let mut c = text::str_to_chars(path);
    c.push('.');
    let d = text::u128_to_chars(index as u128);
    text::append_chars(&mut c, &d);
    text::chars_to_string(&c)
}

/// The classes of an element (`class_list`).
fn element_classes(attrs: &KeyedMap<String>) -> (r: Option<Vec<String>>)
    ensures
        classes_view(r) == class_list(attrs.entries_spec()),
{
    match attr(attrs, "class") {
        Some(c) => Some(elements::split_whitespace_exec(c)),
        None => None,
    }
}

/// A node for the element with attributes `attrs` and text `text` at
/// `path` showing `widget` over `children`.
fn element_node(
    widget: NodeWidget,
    attrs: &KeyedMap<String>,
    text: &str,
    html: &str,
    binding: Option<HtmlTextBinding>,
    key: &str,
    path: &str,
    tag: &str,
    children: Vec<HtmlWidgetNode>,
) -> (r: HtmlWidgetNode)
    ensures
        node_base(r, attrs.entries_spec(), text@, key@, path@, tag@),
        classes_view(r.classes) == class_list(attrs.entries_spec()),
        r.widget == widget,
        r.children == children,
        node_content(r, html@, binding_view(binding)),
{
    let inner_bindings = render::extract_inner_bindings(html);
    HtmlWidgetNode {
        widget,
        id: attrs::stable_html_id(key, path, tag),
        html_id: match attr(attrs, "id") {
            Some(v) => Some(String::from_str(v)),
            None => None,
        },
        classes: element_classes(attrs),
        validation: attrs::parse_validation_attributes(
            attr(attrs, "validation"),
            has_attr(attrs, "required"),
        ),
        inner_text: String::from_str(text),
        inner_html: String::from_str(html),
        inner_bindings,
        text_binding: binding,
        states: HtmlStates {
            hidden: has_attr(attrs, "hidden"),
            disabled: has_attr(attrs, "disabled"),
            readonly: has_attr(attrs, "readonly"),
        },
        functions: convert::bind_html_func(attrs),
        children,
    }
}

/// What a node built for an element states: its widget fits the tag and
/// has the fields the element sets (`widget_fields`), it takes identifier,
/// `id`, rules, text and states from the element, and its classes are the
/// element's (a date picker bound to an input adds
/// `date-picker-bound`). A table's nodes are its cells on the grid of
/// `table_grid`, each carrying its section's class, and its columns those
/// of `table_columns`.
pub open spec fn built_node(
    n: HtmlWidgetNode,
    tag: Seq<char>,
    a: Seq<(Seq<char>, Seq<char>)>,
    children: Seq<ChildNode>,
    text: Seq<char>,
    key: Seq<char>,
    labels: Seq<(Seq<char>, Seq<char>)>,
    page: Seq<char>,
    sizes: spec_fn(Seq<char>, Option<u64>) -> bool,
    path: Seq<char>,
) -> bool {
    &&& widget_for_tag(n.widget, tag)
    &&& node_base(n, a, text, key, path, tag)
    &&& classes_view(n.classes) == if n.widget is DatePicker && attrs::for_attribute_id(
        attr_v(a, "for"@),
    ) is Some {
        Some(with_class(class_list(a), "date-picker-bound"@))
    } else {
        class_list(a)
    }
    &&& n.widget is Table ==> table_node(n, table_rows(children))
    &&& widget_fields(n.widget, tag, a, children, text, key, labels, page, sizes)
}

/// The fields of a node's widget as the element sets them (see the
/// builders in `convert`): a body keeps the source key; an image's path is
/// resolved for whichever answer the file system gave; an input's byte
/// limit is what `max-size` read as. Tables and widgets with
/// floating-point settings are described elsewhere.
pub open spec fn widget_fields(
    w: NodeWidget,
    tag: Seq<char>,
    a: Seq<(Seq<char>, Seq<char>)>,
    children: Seq<ChildNode>,
    text: Seq<char>,
    key: Seq<char>,
    labels: Seq<(Seq<char>, Seq<char>)>,
    page: Seq<char>,
    sizes: spec_fn(Seq<char>, Option<u64>) -> bool,
) -> bool {
    match w {
        NodeWidget::Body(b) => components::opt_str(b.html_key) == Some(key),
        NodeWidget::Div(_) => true,
        NodeWidget::Form(f) => convert::form_fields(f, a),
        NodeWidget::Button(b) => convert::button_fields(b, a, text, children),
        NodeWidget::CheckBox(c) => convert::checkbox_fields(c, a, text),
        NodeWidget::Divider(d) => convert::divider_fields(d, a),
        NodeWidget::FieldSet(f) => convert::fieldset_fields(f, a),
        NodeWidget::Headline(h) => convert::headline_fields(h, tag, text),
        NodeWidget::HyperLink(h) => convert::hyperlink_fields(h, a, text),
        NodeWidget::Img(i) => convert::img_fields(i, a, page, true) || convert::img_fields(
            i,
            a,
            page,
            false,
        ),
        NodeWidget::Input(f) => convert::input_fields(f, a, labels, f.max_size_bytes) && match attr_v(
            a,
            "max-size"@,
        ) {
            Some(v) => sizes(v, f.max_size_bytes),
            None => f.max_size_bytes is None,
        },
        NodeWidget::DatePicker(d) => convert::date_picker_fields(d, a, labels),
        NodeWidget::Paragraph(p) => convert::paragraph_fields(p, text),
        NodeWidget::ToolTip(t) => convert::tooltip_fields(t, a, text),
        NodeWidget::Badge(b) => convert::badge_fields(b, a, text),
        NodeWidget::RadioButton(r) => convert::radio_fields(r, a, text),
        NodeWidget::ChoiceBox(c) => convert::choice_box_fields(c, children),
        NodeWidget::SwitchButton(sw) => convert::switch_fields(sw, a, text),
        NodeWidget::ToggleButton(t) => convert::toggle_fields(t, a, text, children),
        NodeWidget::ListBox(l) => convert::list_box_fields(l, a, children),
        NodeWidget::TableCell(c) => convert::table_cell_fields(c, tag),
        NodeWidget::Table(_) => true,
        NodeWidget::Numeric(_, p) => pairs_view(p@) == a,
    }
}

/// A table node over `rows`: its cells on the grid, with the classes of
/// their sections, and its number of columns.
pub open spec fn table_node(n: HtmlWidgetNode, rows: Seq<(TableSection, Seq<ChildNode>)>) -> bool {
    &&& n.widget matches NodeWidget::Table(t) && t.columns == table_columns(rows)
    &&& n.children@.len() == table_grid(rows).len()
    &&& forall|k: int|
        0 <= k < table_grid(rows).len() ==> #[trigger] grid_cell(
            n.children@[k],
            table_grid(rows)[k],
            table_cell_nodes(rows)[k],
        )
}

/// A cell node at `pos` (row, column, section) built for the cell element
/// `cell`.
pub open spec fn grid_cell(n: HtmlWidgetNode, pos: (nat, nat, TableSection), cell: ChildNode) -> bool {
    &&& n.widget matches NodeWidget::TableCell(c) && c.row == pos.0 && c.col == pos.1 && c.section
        == pos.2
    &&& cell matches ChildNode::Element { name, attrs, .. } && (n.widget matches NodeWidget::TableCell(
        c,
    ) && c.header == (name@ == "th"@)) && classes_view(n.classes) == Some(
        with_class(class_list(attrs.entries_spec()), section_class(pos.2)),
    )
}

/// What a cell node holds of its `<td>` or `<th>` element at `path`: the
/// identifier, `id`, rules, text, states and handlers every node takes
/// from its element, its content (`node_content`), and the nodes of the
/// element's children, as a div's.
pub open spec fn cell_content(
    n: HtmlWidgetNode,
    cell: ChildNode,
    key: Seq<char>,
    labels: Seq<(Seq<char>, Seq<char>)>,
    page: Seq<char>,
    bindings: Seq<(Seq<char>, (Seq<char>, Seq<Seq<char>>))>,
    sizes: spec_fn(Seq<char>, Option<u64>) -> bool,
    path: Seq<char>,
) -> bool
    decreases node_size(cell), 2nat,
{
    proof {
        lemma_element_measures(cell);
    }
    cell matches ChildNode::Element { name, attrs, text, html, children } && node_base(
        n,
        attrs.entries_spec(),
        text@,
        key,
        path,
        name@,
    ) && node_content(n, html@, keyed::key_value(bindings, path)) && children_nodes(n.children@, children@, None, key, labels, page, bindings, sizes, path)
}

/// The content of every cell node of a table at `path` with rows `rows`
/// (`cell_content` at `table_cell_paths`).
pub open spec fn cells_content(
    out: Seq<HtmlWidgetNode>,
    rows: Seq<(TableSection, Seq<ChildNode>)>,
    key: Seq<char>,
    labels: Seq<(Seq<char>, Seq<char>)>,
    page: Seq<char>,
    bindings: Seq<(Seq<char>, (Seq<char>, Seq<Seq<char>>))>,
    sizes: spec_fn(Seq<char>, Option<u64>) -> bool,
    path: Seq<char>,
) -> bool
    decreases forest_size(table_cell_nodes(rows)), 3nat,
{
    proof {
        lemma_forest_elem(table_cell_nodes(rows));
    }
    forall|k: int|
        #![trigger table_cell_nodes(rows)[k]]
        0 <= k < out.len() && k < table_cell_nodes(rows).len() ==> cell_content(
            out[k],
            table_cell_nodes(rows)[k],
            key,
            labels,
            page,
            bindings,
            sizes,
            table_cell_paths(rows, path)[k],
        )
}

/// The path of child `i` under `path`: `path.i`.
pub open spec fn child_path_of(path: Seq<char>, i: int) -> Seq<char> {
    path + seq!['.'] + text::nat_to_decimal(i as nat)
}

/// The positions of the children that become widgets: elements of a
/// supported tag, other than those named `except`.
pub open spec fn widget_children(children: Seq<ChildNode>, except: Option<Seq<char>>) -> Seq<int>
    decreases children.len(),
{
    if children.len() == 0 {
        seq![]
    } else {
        let rest = widget_children(children.drop_last(), except);
        match children.last() {
            ChildNode::Element { name, .. } => if supported_tag(name@) && Some(name@) != except {
                rest.push(children.len() - 1)
            } else {
                rest
            },
            _ => rest,
        }
    }
}

/// Whether `n` is the tree `parse_html_node` builds for the element `c` at
/// `path`, at every depth: the node itself (`built_node`); its content
/// (`node_content`, with the text binding `bindings` records at `path`);
/// the trees of its children as a body, div, form, table cell or field set
/// holds them,
/// or, for a table, the content of its cells; no children for any other
/// tag.
pub open spec fn parsed_node(
    n: HtmlWidgetNode,
    c: ChildNode,
    key: Seq<char>,
    labels: Seq<(Seq<char>, Seq<char>)>,
    page: Seq<char>,
    bindings: Seq<(Seq<char>, (Seq<char>, Seq<Seq<char>>))>,
    sizes: spec_fn(Seq<char>, Option<u64>) -> bool,
    path: Seq<char>,
) -> bool
    decreases node_size(c), 0nat,
{
    proof {
        lemma_element_measures(c);
    }
    c matches ChildNode::Element { name, attrs, text, html, children } && {
        &&& built_node(
            n,
            name@,
            attrs.entries_spec(),
            children@,
            text@,
            key,
            labels,
            page,
            sizes,
            path,
        )
        &&& node_content(n, html@, keyed::key_value(bindings, path))
        &&& (name@ == "td"@ || name@ == "th"@) ==> n.widget is TableCell
        &&& name@ == "table"@ ==> n.widget is Table
        &&& name@ == "fieldset"@ ==> fieldset_nodes(
            n.children@,
            children@,
            attr_v(attrs.entries_spec(), "allow-none"@) == Some("true"@),
            key,
            labels,
            page,
            bindings,
            sizes,
            path,
        )
        &&& (name@ == "body"@ || name@ == "div"@ || name@ == "form"@ || name@ == "td"@ || name@
            == "th"@) ==> children_nodes(n.children@, children@, None, key, labels, page, bindings, sizes, path)
        &&& name@ == "table"@ ==> cells_content(
            n.children@,
            table_rows(children@),
            key,
            labels,
            page,
            bindings,
            sizes,
            path,
        )
        &&& !holds_children(name@) ==> n.children@.len() == 0
    }
}

/// The tags whose nodes hold the nodes of their children.
pub open spec fn holds_children(t: Seq<char>) -> bool {
    t == "body"@ || t == "div"@ || t == "form"@ || t == "td"@ || t == "th"@ || t == "fieldset"@
        || t == "table"@
}

/// The nodes of `children` at `path` (`parse_children`): one per child in
/// `widget_children`, in order, each the tree built for that child at its
/// path.
pub open spec fn children_nodes(
    r: Seq<HtmlWidgetNode>,
    children: Seq<ChildNode>,
    except: Option<Seq<char>>,
    key: Seq<char>,
    labels: Seq<(Seq<char>, Seq<char>)>,
    page: Seq<char>,
    bindings: Seq<(Seq<char>, (Seq<char>, Seq<Seq<char>>))>,
    sizes: spec_fn(Seq<char>, Option<u64>) -> bool,
    path: Seq<char>,
) -> bool
    decreases forest_size(children), 1nat,
{
    proof {
        lemma_forest_elem(children);
    }
    &&& r.len() == widget_children(children, except).len()
    &&& forall|k: int|
        0 <= k < r.len() ==> {
            let i = #[trigger] widget_children(children, except)[k];
            &&& 0 <= i < children.len()
            &&& parsed_node(r[k], children[i], key, labels, page, bindings, sizes, child_path_of(path, i))
        }
}

/// What the byte-limit callback `max_size` may answer for a `max-size`
/// text: `o` is a result it can return for that text.
pub open spec fn size_answers<M: Fn(&str) -> Option<u64>>(max_size: M) -> spec_fn(
    Seq<char>,
    Option<u64>,
) -> bool {
    |v: Seq<char>, o: Option<u64>| exists|t: &str| t@ == v && #[trigger] call_ensures(max_size, (t,), o)
}

/// The callbacks a parse may make, defined on every argument.
pub open spec fn callbacks_total<E: Fn(&str) -> bool, M: Fn(&str) -> Option<u64>>(
    absolute_existing: &E,
    max_size: &M,
) -> bool {
    &&& forall|s: &str| #[trigger] call_requires(*absolute_existing, (s,))
    &&& forall|s: &str| #[trigger] call_requires(*max_size, (s,))
}

/// The nodes for `children`, in order, each at `path.index` for its index
/// among them; those that become no widget are left out.
pub fn parse_children<E: Fn(&str) -> bool, M: Fn(&str) -> Option<u64>>(
    children: &Vec<ChildNode>,
    ctx: &SourceContext,
    path: &str,
    pools: &mut WidgetIdPools,
    absolute_existing: &E,
    max_size: &M,
) -> (r: Vec<HtmlWidgetNode>)
    requires
        pools_have_room(old(pools).view_pools(), forest_size(children@)),
        callbacks_total(absolute_existing, max_size),
    ensures
        pools_grown_by(old(pools).view_pools(), final(pools).view_pools(), forest_size(children@)),
        children_nodes(r@, children@, None, ctx.key@, ctx.labels.entries_spec(), ctx.html_path@, ctx.text_bindings.entries_spec(), size_answers(*max_size), path@),
    decreases children,
{
    let ghost p0 = pools.view_pools();
    proof {
        lemma_grown_refl(p0);
    }
    let mut out: Vec<HtmlWidgetNode> = Vec::new();
    let mut i: usize = 0;
    while i < children.len()
        invariant
            i <= children@.len(),
            pools_have_room(p0, forest_size(children@)),
            pools_grown_by(p0, pools.view_pools(), forest_size(children@.take(i as int))),
            callbacks_total(absolute_existing, max_size),
            children_nodes(
                out@,
                children@.take(i as int),
                None,
                ctx.key@,
                ctx.labels.entries_spec(),
                ctx.html_path@,
                ctx.text_bindings.entries_spec(),
                size_answers(*max_size),
                path@,
            ),
        decreases children.len() - i,
    {
        proof {
            lemma_forest_prefix(children@, i as int);
            lemma_forest_prefix_le(children@, i + 1);
            lemma_room_after(
                p0,
                pools.view_pools(),
                forest_size(children@.take(i as int)),
                node_size(children@[i as int]),
            );
            assert(decreases_to!(children => children@[i as int]));
        }
        let ghost before = pools.view_pools();
        let p = child_path(path, i);
        let parsed = parse_html_node(
            &children[i],
            ctx,
            p.as_str(),
            pools,
            absolute_existing,
            max_size,
        );
        proof {
            lemma_grown_trans(
                p0,
                before,
                pools.view_pools(),
                forest_size(children@.take(i as int)),
                node_size(children@[i as int]),
            );
        }
        let ghost old_out = out@;
        proof {
            let t = children@.take(i + 1);
            assert(t.drop_last() =~= children@.take(i as int));
            assert(t.last() == children@[i as int]);
            assert forall|k: int| 0 <= k < old_out.len() implies {
                let j = #[trigger] widget_children(children@.take(i as int), None)[k];
                &&& 0 <= j < t.len()
                &&& parsed_node(
                    old_out[k],
                    t[j],
                    ctx.key@,
                    ctx.labels.entries_spec(),
                    ctx.html_path@,
                    ctx.text_bindings.entries_spec(),
                    size_answers(*max_size),
                    child_path_of(path@, j),
                )
            } by {
                let j = widget_children(children@.take(i as int), None)[k];
                assert(t[j] == children@.take(i as int)[j]);
            }
        }
        match parsed {
            Some(n) => {
                out.push(n);
                proof {
                    assert(p@ == child_path_of(path@, i as int));
                    let t = children@.take(i + 1);
                    assert(widget_children(t, None) == widget_children(
                        children@.take(i as int),
                        None,
                    ).push(i as int));
                    assert forall|k: int| 0 <= k < out@.len() implies {
                        let j = #[trigger] widget_children(t, None)[k];
                        &&& 0 <= j < t.len()
                        &&& parsed_node(
                            out@[k],
                            t[j],
                            ctx.key@,
                            ctx.labels.entries_spec(),
                            ctx.html_path@,
                            ctx.text_bindings.entries_spec(),
                            size_answers(*max_size),
                            child_path_of(path@, j),
                        )
                    } by {
                        if k < old_out.len() {
                            assert(out@[k] == old_out[k]);
                        }
                    }
                }
            },
            None => {
                proof {
                    let t = children@.take(i + 1);
                    assert(widget_children(t, None) == widget_children(
                        children@.take(i as int),
                        None,
                    ));
                }
            },
        }
        i = i + 1;
    }
    assert(children@.take(children@.len() as int) =~= children@);
    out
}

/// Handing out one identifier for a leaf element keeps within its size.
proof fn lemma_leaf(p0: Seq<PoolV>, k: WidgetKind, size: nat)
    requires
        pools_have_room(p0, size),
        size >= 1,
    ensures
        components::kind_can_acquire(p0, k),
        pools_grown_by(p0, pools_after_acquire(p0, k), size),
{
    lemma_acquire_room(p0, k, (size - 1) as nat);
}

/// Rebuilds a cell node with its grid position and section class.
fn stamp_cell(n: HtmlWidgetNode, row: usize, col: usize, sec: TableSection) -> (r: HtmlWidgetNode)
    requires
        n.widget is TableCell,
    ensures
        r.widget matches NodeWidget::TableCell(c) && c.row == row && c.col == col && c.section
            == sec && (n.widget matches NodeWidget::TableCell(c0) && c.header == c0.header),
        classes_view(r.classes) == Some(with_class(classes_view(n.classes), section_class(sec))),
        r.id == n.id,
        r.html_id == n.html_id,
        r.inner_text == n.inner_text,
        r.inner_html == n.inner_html,
        r.inner_bindings == n.inner_bindings,
        r.text_binding == n.text_binding,
        r.validation == n.validation,
        r.states == n.states,
        r.functions == n.functions,
        r.children == n.children,
{
    let HtmlWidgetNode {
        widget,
        id,
        html_id,
        classes,
        validation,
        inner_text,
        inner_html,
        inner_bindings,
        text_binding,
        states,
        functions,
        children,
    } = n;
    let widget = match widget {
        NodeWidget::TableCell(c) => NodeWidget::TableCell(
            TableCell { row, col, section: sec, ..c },
        ),
        other => other,
    };
    let mut classes = classes;
    convert::ensure_meta_class(&mut classes, sec.css_class());
    HtmlWidgetNode {
        widget,
        id,
        html_id,
        classes,
        validation,
        inner_text,
        inner_html,
        inner_bindings,
        text_binding,
        states,
        functions,
        children,
    }
}

/// The cell nodes of one table row with child nodes `cells`, at row `row`
/// of section `sec`: one per `<td>` or `<th>`, at `path.row.index` for its
/// index among the row's children, in column order.
pub fn parse_table_row<E: Fn(&str) -> bool, M: Fn(&str) -> Option<u64>>(
    cells: &Vec<ChildNode>,
    sec: TableSection,
    row: usize,
    ctx: &SourceContext,
    path: &str,
    pools: &mut WidgetIdPools,
    absolute_existing: &E,
    max_size: &M,
) -> (r: Vec<HtmlWidgetNode>)
    requires
        pools_have_room(old(pools).view_pools(), forest_size(cells@)),
        callbacks_total(absolute_existing, max_size),
    ensures
        pools_grown_by(old(pools).view_pools(), final(pools).view_pools(), forest_size(cells@)),
        r@.len() == row_cells(cells@).len(),
        r@.len() == row_cell_indices(cells@).len(),
        forall|c: int|
            0 <= c < r@.len() ==> #[trigger] grid_cell(
                r@[c],
                (row as nat, c as nat, sec),
                row_cells(cells@)[c],
            ),
        forall|c: int|
            0 <= c < r@.len() ==> #[trigger] cell_content(
                r@[c],
                row_cells(cells@)[c],
                ctx.key@,
                ctx.labels.entries_spec(),
                ctx.html_path@,
                ctx.text_bindings.entries_spec(),
                size_answers(*max_size),
                child_path_of(child_path_of(path@, row as int), row_cell_indices(cells@)[c]),
            ),
    decreases cells,
{
    let ghost p0 = pools.view_pools();
    proof {
        lemma_grown_refl(p0);
    }
    let row_path = child_path(path, row);
    let mut out: Vec<HtmlWidgetNode> = Vec::new();
    let mut i: usize = 0;
    while i < cells.len()
        invariant
            i <= cells@.len(),
            pools_have_room(p0, forest_size(cells@)),
            pools_grown_by(p0, pools.view_pools(), forest_size(cells@.take(i as int))),
            callbacks_total(absolute_existing, max_size),
            out@.len() == row_cells(cells@.take(i as int)).len(),
            out@.len() == row_cell_indices(cells@.take(i as int)).len(),
            row_path@ == child_path_of(path@, row as int),
            forall|c: int|
                0 <= c < out@.len() ==> #[trigger] grid_cell(
                    out@[c],
                    (row as nat, c as nat, sec),
                    row_cells(cells@.take(i as int))[c],
                ),
            forall|c: int|
                0 <= c < out@.len() ==> #[trigger] cell_content(
                    out@[c],
                    row_cells(cells@.take(i as int))[c],
                    ctx.key@,
                    ctx.labels.entries_spec(),
                    ctx.html_path@,
                    ctx.text_bindings.entries_spec(),
                    size_answers(*max_size),
                    child_path_of(row_path@, row_cell_indices(cells@.take(i as int))[c]),
                ),
        decreases cells.len() - i,
    {
        proof {
            lemma_forest_prefix(cells@, i as int);
            lemma_forest_prefix_le(cells@, i + 1);
            lemma_room_after(
                p0,
                pools.view_pools(),
                forest_size(cells@.take(i as int)),
                node_size(cells@[i as int]),
            );
            assert(cells@.take(i + 1).drop_last() =~= cells@.take(i as int));
            assert(cells@.take(i + 1).last() == cells@[i as int]);
        }
        let ghost before = pools.view_pools();
        let ghost prev = row_cells(cells@.take(i as int));
        let ghost prev_idx = row_cell_indices(cells@.take(i as int));
        let is_cell_here = match &cells[i] {
            ChildNode::Element { name, .. } => {
                let n = text::str_to_chars(name.as_str());
                text::chars_eq_str(&n, "td") || text::chars_eq_str(&n, "th")
            },
            _ => false,
        };
        if is_cell_here {
            proof {
                assert(decreases_to!(cells => cells@[i as int]));
            }
            let p = child_path(row_path.as_str(), i);
            let parsed = parse_html_node(
                &cells[i],
                ctx,
                p.as_str(),
                pools,
                absolute_existing,
                max_size,
            );
            proof {
                lemma_grown_trans(
                    p0,
                    before,
                    pools.view_pools(),
                    forest_size(cells@.take(i as int)),
                    node_size(cells@[i as int]),
                );
            }
            match parsed {
                Some(n) => {
                    let col = out.len();
                    let stamped = stamp_cell(n, row, col, sec);
                    let ghost old_out = out@;
                    out.push(stamped);
                    proof {
                        assert(row_cells(cells@.take(i + 1)) == prev.push(cells@[i as int]));
                        assert(row_cell_indices(cells@.take(i + 1)) == prev_idx.push(i as int));
                        assert(p@ == child_path_of(row_path@, i as int));
                        assert forall|c: int| 0 <= c < out@.len() implies #[trigger] cell_content(
                            out@[c],
                            row_cells(cells@.take(i + 1))[c],
                            ctx.key@,
                            ctx.labels.entries_spec(),
                            ctx.html_path@,
                            ctx.text_bindings.entries_spec(),
                            size_answers(*max_size),
                            child_path_of(row_path@, row_cell_indices(cells@.take(i + 1))[c]),
                        ) by {
                            if c < col {
                                assert(out@[c] == old_out[c]);
                                assert(cell_content(
                                    old_out[c],
                                    prev[c],
                                    ctx.key@,
                                    ctx.labels.entries_spec(),
                                    ctx.html_path@,
                                    ctx.text_bindings.entries_spec(),
                                    size_answers(*max_size),
                                    child_path_of(row_path@, prev_idx[c]),
                                ));
                            } else {
                                assert(out@[c] == stamped);
                            }
                        }
                        assert forall|c: int| 0 <= c < out@.len() implies #[trigger] grid_cell(
                            out@[c],
                            (row as nat, c as nat, sec),
                            row_cells(cells@.take(i + 1))[c],
                        ) by {
                            if c < col {
                                assert(out@[c] == old_out[c]);
                                assert(grid_cell(
                                    old_out[c],
                                    (row as nat, c as nat, sec),
                                    prev[c],
                                ));
                            }
                        }
                    }
                },
                None => {
                    assert(false);
                },
            }
        } else {
            proof {
                lemma_grown_mono(
                    p0,
                    pools.view_pools(),
                    forest_size(cells@.take(i as int)),
                    forest_size(cells@.take(i + 1)),
                );
                assert(row_cells(cells@.take(i + 1)) == prev);
                assert(row_cell_indices(cells@.take(i + 1)) == prev_idx);
            }
        }
        i = i + 1;
    }
    assert(cells@.take(cells@.len() as int) =~= cells@);
    out
}

/// The grid of a table after adding one row.
proof fn lemma_grid_push(
    done: Seq<(TableSection, Seq<ChildNode>)>,
    row: (TableSection, Seq<ChildNode>),
    path: Seq<char>,
)
    ensures
        table_cell_paths(done.push(row), path) == table_cell_paths(done, path) + Seq::new(
            row_cells(row.1).len(),
            |c: int| child_path_of(child_path_of(path, done.len() as int), row_cell_indices(row.1)[c]),
        ),
        table_grid(done.push(row)) == table_grid(done) + Seq::new(
            row_cells(row.1).len(),
            |c: int| (done.len() as nat, c as nat, row.0),
        ),
        table_cell_nodes(done.push(row)) == table_cell_nodes(done) + row_cells(row.1),
        table_columns(done.push(row)) == if row_cells(row.1).len() > table_columns(done) {
            row_cells(row.1).len()
        } else {
            table_columns(done)
        },
{
    assert(done.push(row).drop_last() =~= done);
}

/// A table has as many cell nodes as grid places.
proof fn lemma_grid_len(rows: Seq<(TableSection, Seq<ChildNode>)>)
    ensures
        table_cell_nodes(rows).len() == table_grid(rows).len(),
    decreases rows.len(),
{
    if rows.len() > 0 {
        lemma_grid_len(rows.drop_last());
    }
}

proof fn lemma_paths_len(rows: Seq<(TableSection, Seq<ChildNode>)>, path: Seq<char>)
    ensures
        table_cell_paths(rows, path).len() == table_grid(rows).len(),
    decreases rows.len(),
{
    if rows.len() > 0 {
        lemma_paths_len(rows.drop_last(), path);
    }
}

/// The content of the cells of a table after adding a row whose cell
/// nodes `new_cells` hold their elements' content at `path.row.index`.
proof fn lemma_cells_content_push(
    old_out: Seq<HtmlWidgetNode>,
    new_cells: Seq<HtmlWidgetNode>,
    done: Seq<(TableSection, Seq<ChildNode>)>,
    row: (TableSection, Seq<ChildNode>),
    key: Seq<char>,
    labels: Seq<(Seq<char>, Seq<char>)>,
    page: Seq<char>,
    bindings: Seq<(Seq<char>, (Seq<char>, Seq<Seq<char>>))>,
    sizes: spec_fn(Seq<char>, Option<u64>) -> bool,
    path: Seq<char>,
)
    requires
        old_out.len() == table_grid(done).len(),
        cells_content(old_out, done, key, labels, page, bindings, sizes, path),
        new_cells.len() == row_cells(row.1).len(),
        forall|c: int|
            0 <= c < new_cells.len() ==> #[trigger] cell_content(
                new_cells[c],
                row_cells(row.1)[c],
                key,
                labels,
                page,
                bindings,
                sizes,
                child_path_of(child_path_of(path, done.len() as int), row_cell_indices(row.1)[c]),
            ),
    ensures
        cells_content(old_out + new_cells, done.push(row), key, labels, page, bindings, sizes, path),
{
    lemma_grid_push(done, row, path);
    lemma_grid_len(done);
    lemma_paths_len(done, path);
    let out = old_out + new_cells;
    let nd = done.push(row);
    assert(table_cell_paths(done, path).len() == table_grid(done).len());
    assert forall|k: int|
        #![trigger table_cell_nodes(nd)[k]]
        0 <= k < out.len() && k < table_cell_nodes(nd).len() implies cell_content(
        out[k],
        table_cell_nodes(nd)[k],
        key,
        labels,
        page,
        bindings,
        sizes,
        table_cell_paths(nd, path)[k],
    ) by {
        if k < old_out.len() {
            assert(out[k] == old_out[k]);
            assert(k < table_cell_nodes(done).len());
            assert(cell_content(
                old_out[k],
                table_cell_nodes(done)[k],
                key,
                labels,
                page,
                bindings,
                sizes,
                table_cell_paths(done, path)[k],
            ));
        } else {
            let c = k - old_out.len();
            assert(out[k] == new_cells[c]);
            assert(cell_content(
                new_cells[c],
                row_cells(row.1)[c],
                key,
                labels,
                page,
                bindings,
                sizes,
                child_path_of(child_path_of(path, done.len() as int), row_cell_indices(row.1)[c]),
            ));
        }
    }
}

/// Every cell of a table lies inside its grid: its row among the rows and
/// its column below the table's number of columns, the widest row's.
pub proof fn law_cells_inside_grid(rows: Seq<(TableSection, Seq<ChildNode>)>)
    ensures
        forall|k: int|
            0 <= k < table_grid(rows).len() ==> (#[trigger] table_grid(rows)[k]).0 < rows.len()
                && table_grid(rows)[k].1 < table_columns(rows),
        forall|r: int|
            0 <= r < rows.len() ==> row_cells(#[trigger] rows[r].1).len() <= table_columns(rows),
    decreases rows.len(),
{
    if rows.len() > 0 {
        let d = rows.drop_last();
        law_cells_inside_grid(d);
        assert forall|r: int| 0 <= r < rows.len() implies row_cells(#[trigger] rows[r].1).len()
            <= table_columns(rows) by {
            if r < d.len() {
                assert(rows[r] == d[r]);
            }
        }
        let n = row_cells(rows.last().1).len();
        let g = table_grid(rows);
        assert(g == table_grid(d) + Seq::new(n, |c: int| ((rows.len() - 1) as nat, c as nat, rows.last().0)));
        assert forall|k: int| 0 <= k < g.len() implies (#[trigger] g[k]).0 < rows.len() && g[k].1
            < table_columns(rows) by {
            if k < table_grid(d).len() {
                assert(g[k] == table_grid(d)[k]);
            } else {
                assert(g[k].1 == k - table_grid(d).len());
            }
        }
    }
}

/// Whether `out`, `columns` and `row` hold the cells, columns and row count
/// of the rows `done`.
pub open spec fn table_so_far(
    out: Seq<HtmlWidgetNode>,
    columns: usize,
    row: usize,
    done: Seq<(TableSection, Seq<ChildNode>)>,
) -> bool {
    &&& out.len() == table_grid(done).len()
    &&& forall|k: int|
        0 <= k < out.len() ==> #[trigger] grid_cell(
            out[k],
            table_grid(done)[k],
            table_cell_nodes(done)[k],
        )
    &&& columns == table_columns(done)
    &&& row == done.len()
}

/// Adds the cells of a row to a table's cells.
fn add_row(out: &mut Vec<HtmlWidgetNode>, columns: &mut usize, cells: Vec<HtmlWidgetNode>)
    ensures
        final(out)@ == old(out)@ + cells@,
        *final(columns) == if cells.len() > *old(columns) {
            cells.len()
        } else {
            *old(columns)
        },
{
    let n = cells.len();
    if n > *columns {
        *columns = n;
    }
    let mut cells = cells;
    out.append(&mut cells);
}

/// The cells of a table with child nodes `children` on their grid
/// (`table_grid` of `table_rows`), and its number of columns. Rows are the
/// `<tr>` children, bare or inside `thead`, `tbody` and `tfoot`.
pub fn parse_table<E: Fn(&str) -> bool, M: Fn(&str) -> Option<u64>>(
    children: &Vec<ChildNode>,
    ctx: &SourceContext,
    path: &str,
    pools: &mut WidgetIdPools,
    absolute_existing: &E,
    max_size: &M,
) -> (r: (Vec<HtmlWidgetNode>, usize))
    requires
        pools_have_room(old(pools).view_pools(), forest_size(children@)),
        callbacks_total(absolute_existing, max_size),
    ensures
        pools_grown_by(old(pools).view_pools(), final(pools).view_pools(), forest_size(children@)),
        table_so_far(r.0@, r.1, table_rows(children@).len() as usize, table_rows(children@)),
        cells_content(
            r.0@,
            table_rows(children@),
            ctx.key@,
            ctx.labels.entries_spec(),
            ctx.html_path@,
            ctx.text_bindings.entries_spec(),
            size_answers(*max_size),
            path@,
        ),
    decreases children,
{
    let ghost p0 = pools.view_pools();
    proof {
        lemma_grown_refl(p0);
        assert(p0[0].next + forest_size(children@) <= usize::MAX);
    }
    let mut out: Vec<HtmlWidgetNode> = Vec::new();
    let mut columns: usize = 0;
    let mut row: usize = 0;
    let ghost mut done: Seq<(TableSection, Seq<ChildNode>)> = seq![];
    let mut i: usize = 0;
    while i < children.len()
        invariant
            i <= children@.len(),
            pools_have_room(p0, forest_size(children@)),
            forest_size(children@) <= usize::MAX,
            pools_grown_by(p0, pools.view_pools(), forest_size(children@.take(i as int))),
            callbacks_total(absolute_existing, max_size),
            done == table_rows(children@.take(i as int)),
            table_so_far(out@, columns, row, done),
            cells_content(
                out@,
                done,
                ctx.key@,
                ctx.labels.entries_spec(),
                ctx.html_path@,
                ctx.text_bindings.entries_spec(),
                size_answers(*max_size),
                path@,
            ),
            row <= forest_size(children@.take(i as int)),
        decreases children.len() - i,
    {
        proof {
            lemma_forest_prefix(children@, i as int);
            lemma_forest_prefix_le(children@, i + 1);
            lemma_node_size(children@[i as int]);
            assert(children@.take(i + 1).drop_last() =~= children@.take(i as int));
            assert(children@.take(i + 1).last() == children@[i as int]);
        }
        let ghost base = forest_size(children@.take(i as int));
        match &children[i] {
            ChildNode::Element { name, children: kids, .. } => {
                let n = text::str_to_chars(name.as_str());
                let sec = if text::chars_eq_str(&n, "thead") {
                    Some(TableSection::Head)
                } else if text::chars_eq_str(&n, "tbody") {
                    Some(TableSection::Body)
                } else if text::chars_eq_str(&n, "tfoot") {
                    Some(TableSection::Foot)
                } else {
                    None
                };
                proof {
                    assert(sec == section_of(name@));
                    assert(decreases_to!(children => kids));
                }
                match sec {
                    Some(sec) => {
                        let ghost start = done;
                        let mut j: usize = 0;
                        while j < kids.len()
                            invariant
                                j <= kids@.len(),
                                i < children@.len(),
                                children@[i as int] matches ChildNode::Element { children: k, .. }
                                    && k@ == kids@,
                                base == forest_size(children@.take(i as int)),
                                base + node_size(children@[i as int]) <= forest_size(children@),
                                node_size(children@[i as int]) == 1 + forest_size(kids@),
                                pools_have_room(p0, forest_size(children@)),
                                forest_size(children@) <= usize::MAX,
                                pools_grown_by(
                                    p0,
                                    pools.view_pools(),
                                    base + forest_size(kids@.take(j as int)),
                                ),
                                callbacks_total(absolute_existing, max_size),
                                start == table_rows(children@.take(i as int)),
                                done == start + tr_rows(kids@.take(j as int), sec),
                                table_so_far(out@, columns, row, done),
                                cells_content(
                                    out@,
                                    done,
                                    ctx.key@,
                                    ctx.labels.entries_spec(),
                                    ctx.html_path@,
                                    ctx.text_bindings.entries_spec(),
                                    size_answers(*max_size),
                                    path@,
                                ),
            cells_content(
                out@,
                done,
                ctx.key@,
                ctx.labels.entries_spec(),
                ctx.html_path@,
                ctx.text_bindings.entries_spec(),
                size_answers(*max_size),
                path@,
            ),
                                row <= base + forest_size(kids@.take(j as int)),
                            decreases kids.len() - j,
                        {
                            proof {
                                lemma_forest_prefix(kids@, j as int);
                                lemma_forest_prefix_le(kids@, j + 1);
                                lemma_node_size(kids@[j as int]);
                                assert(kids@.take(j + 1).drop_last() =~= kids@.take(j as int));
                                assert(kids@.take(j + 1).last() == kids@[j as int]);
                            }
                            match &kids[j] {
                                ChildNode::Element { name: tn, children: trk, .. } => {
                                    let tc = text::str_to_chars(tn.as_str());
                                    if text::chars_eq_str(&tc, "tr") {
                                        proof {
                                            assert(decreases_to!(children => trk));
                                            lemma_room_after(
                                                p0,
                                                pools.view_pools(),
                                                base + forest_size(kids@.take(j as int)),
                                                forest_size(trk@),
                                            );
                                        }
                                        let ghost before = pools.view_pools();
                                        let ghost old_out = out@;
                                        let cells = parse_table_row(
                                            trk,
                                            sec,
                                            row,
                                            ctx,
                                            path,
                                            pools,
                                            absolute_existing,
                                            max_size,
                                        );
                                        proof {
                                            lemma_grown_trans(
                                                p0,
                                                before,
                                                pools.view_pools(),
                                                base + forest_size(kids@.take(j as int)),
                                                forest_size(trk@),
                                            );
                                            lemma_grown_mono(
                                                p0,
                                                pools.view_pools(),
                                                base + forest_size(kids@.take(j as int))
                                                    + forest_size(trk@),
                                                base + forest_size(kids@.take(j + 1)),
                                            );
                                        }
                                        let ghost new_cells = cells@;
                                        add_row(&mut out, &mut columns, cells);
                                        proof {
                                            let item = (sec, trk@);
                                            lemma_grid_push(done, item, path@);
                                lemma_grid_len(done);
                                            lemma_grid_len(done);
                                            assert(tr_rows(kids@.take(j + 1), sec) == tr_rows(
                                                kids@.take(j as int),
                                                sec,
                                            ) + seq![item]);
                                            assert(done.push(item) =~= start + tr_rows(
                                                kids@.take(j + 1),
                                                sec,
                                            ));
                                            let nd = done.push(item);
                                            assert forall|k: int| 0 <= k < out@.len() implies #[trigger] grid_cell(
                                                out@[k],
                                                table_grid(nd)[k],
                                                table_cell_nodes(nd)[k],
                                            ) by {
                                                if k < old_out.len() {
                                                    assert(out@[k] == old_out[k]);
                                                    assert(grid_cell(
                                                        old_out[k],
                                                        table_grid(done)[k],
                                                        table_cell_nodes(done)[k],
                                                    ));
                                                } else {
                                                    let c = k - old_out.len();
                                                    assert(out@[k] == new_cells[c]);
                                                    assert(grid_cell(
                                                        new_cells[c],
                                                        (row as nat, c as nat, sec),
                                                        row_cells(trk@)[c],
                                                    ));
                                                }
                                            }
                                            lemma_cells_content_push(
                                                old_out,
                                                new_cells,
                                                done,
                                                item,
                                                ctx.key@,
                                                ctx.labels.entries_spec(),
                                                ctx.html_path@,
                                                ctx.text_bindings.entries_spec(),
                                                size_answers(*max_size),
                                                path@,
                                            );
                                            done = nd;
                                        }
                                        row = row + 1;
                                    } else {
                                        proof {
                                            lemma_grown_mono(
                                                p0,
                                                pools.view_pools(),
                                                base + forest_size(kids@.take(j as int)),
                                                base + forest_size(kids@.take(j + 1)),
                                            );
                                            assert(tr_rows(kids@.take(j + 1), sec) =~= tr_rows(
                                                kids@.take(j as int),
                                                sec,
                                            ));
                                        }
                                    }
                                },
                                _ => {
                                    proof {
                                        assert(tr_rows(kids@.take(j + 1), sec) =~= tr_rows(
                                            kids@.take(j as int),
                                            sec,
                                        ));
                                    }
                                },
                            }
                            j = j + 1;
                        }
                        proof {
                            assert(kids@.take(kids@.len() as int) =~= kids@);
                            lemma_grown_mono(
                                p0,
                                pools.view_pools(),
                                base + forest_size(kids@),
                                forest_size(children@.take(i + 1)),
                            );
                        }
                    },
                    None => {
                        if text::chars_eq_str(&n, "tr") {
                            proof {
                                lemma_room_after(p0, pools.view_pools(), base, forest_size(kids@));
                            }
                            let ghost before = pools.view_pools();
                            let ghost old_out = out@;
                            let cells = parse_table_row(
                                kids,
                                TableSection::Body,
                                row,
                                ctx,
                                path,
                                pools,
                                absolute_existing,
                                max_size,
                            );
                            proof {
                                lemma_grown_trans(
                                    p0,
                                    before,
                                    pools.view_pools(),
                                    base,
                                    forest_size(kids@),
                                );
                                lemma_grown_mono(
                                    p0,
                                    pools.view_pools(),
                                    base + forest_size(kids@),
                                    forest_size(children@.take(i + 1)),
                                );
                            }
                            let ghost new_cells = cells@;
                            add_row(&mut out, &mut columns, cells);
                            proof {
                                let item = (TableSection::Body, kids@);
                                lemma_grid_push(done, item, path@);
                                lemma_grid_len(done);
                                let nd = done.push(item);
                                assert(nd =~= table_rows(children@.take(i + 1)));
                                assert forall|k: int| 0 <= k < out@.len() implies #[trigger] grid_cell(
                                    out@[k],
                                    table_grid(nd)[k],
                                    table_cell_nodes(nd)[k],
                                ) by {
                                    if k < old_out.len() {
                                        assert(out@[k] == old_out[k]);
                                        assert(grid_cell(
                                            old_out[k],
                                            table_grid(done)[k],
                                            table_cell_nodes(done)[k],
                                        ));
                                    } else {
                                        let c = k - old_out.len();
                                        assert(out@[k] == new_cells[c]);
                                        assert(grid_cell(
                                            new_cells[c],
                                            (row as nat, c as nat, TableSection::Body),
                                            row_cells(kids@)[c],
                                        ));
                                    }
                                }
                                lemma_cells_content_push(
                                    old_out,
                                    new_cells,
                                    done,
                                    item,
                                    ctx.key@,
                                    ctx.labels.entries_spec(),
                                    ctx.html_path@,
                                    ctx.text_bindings.entries_spec(),
                                    size_answers(*max_size),
                                    path@,
                                );
                                done = nd;
                            }
                            row = row + 1;
                        } else {
                            proof {
                                lemma_grown_mono(
                                    p0,
                                    pools.view_pools(),
                                    base,
                                    forest_size(children@.take(i + 1)),
                                );
                                assert(done =~= table_rows(children@.take(i + 1)));
                            }
                        }
                    },
                }
            },
            _ => {
                proof {
                    lemma_grown_mono(
                        p0,
                        pools.view_pools(),
                        base,
                        forest_size(children@.take(i + 1)),
                    );
                    assert(done =~= table_rows(children@.take(i + 1)));
                }
            },
        }
        i = i + 1;
    }
    assert(children@.take(children@.len() as int) =~= children@);
    (out, columns)
}

/// The node an HTML node becomes, at `path` among the nodes of the
/// document (`built_node`); `None` for text, other nodes and elements of
/// other tags. Containers (`body`, `div`, `form`, `fieldset`, cells) hold
/// the nodes of their children; a field set's radios come after its other
/// children; a table holds its cells. `absolute_existing` tells whether a
/// normalized image path is an absolute path that exists; `max_size` reads
/// an input's `max-size` as a byte count.
#[verifier::rlimit(60)]
pub fn parse_html_node<E: Fn(&str) -> bool, M: Fn(&str) -> Option<u64>>(
    node: &ChildNode,
    ctx: &SourceContext,
    path: &str,
    pools: &mut WidgetIdPools,
    absolute_existing: &E,
    max_size: &M,
) -> (r: Option<HtmlWidgetNode>)
    requires
        pools_have_room(old(pools).view_pools(), node_size(*node)),
        callbacks_total(absolute_existing, max_size),
    ensures
        pools_grown_by(old(pools).view_pools(), final(pools).view_pools(), node_size(*node)),
        match *node {
            ChildNode::Element { name, attrs, text, children, .. } => {
                &&& (r is Some <==> supported_tag(name@))
                &&& r is Some && (name@ == "td"@ || name@ == "th"@) ==> r->0.widget is TableCell
                &&& r is Some && name@ == "table"@ ==> cells_content(
                    r->0.children@,
                    table_rows(children@),
                    ctx.key@,
                    ctx.labels.entries_spec(),
                    ctx.html_path@,
                    ctx.text_bindings.entries_spec(),
                    size_answers(*max_size),
                    path@,
                )
                &&& r is Some && name@ == "fieldset"@ ==> fieldset_nodes(
                    r->0.children@,
                    children@,
                    attr_v(attrs.entries_spec(), "allow-none"@) == Some("true"@),
                    ctx.key@,
                    ctx.labels.entries_spec(),
                    ctx.html_path@,
                    ctx.text_bindings.entries_spec(),
                    size_answers(*max_size),
                    path@,
                )
                &&& r is Some && (name@ == "body"@ || name@ == "div"@ || name@ == "form"@ || name@
                    == "td"@ || name@ == "th"@) ==> children_nodes(
                    r->0.children@,
                    children@,
                    None,
                    ctx.key@,
                    ctx.labels.entries_spec(),
                    ctx.html_path@,
                    ctx.text_bindings.entries_spec(),
                    size_answers(*max_size),
                    path@,
                )
                &&& r is Some ==> built_node(
                    r->0,
                    name@,
                    attrs.entries_spec(),
                    children@,
                    text@,
                    ctx.key@,
                    ctx.labels.entries_spec(),
                    ctx.html_path@,
                    size_answers(*max_size),
                    path@,
                )
            },
            _ => r is None,
        },
        r is Some ==> parsed_node(
            r->0,
            *node,
            ctx.key@,
            ctx.labels.entries_spec(),
            ctx.html_path@,
            ctx.text_bindings.entries_spec(),
            size_answers(*max_size),
            path@,
        ),
    decreases node,
{
    let ghost p0 = pools.view_pools();
    proof {
        lemma_node_size(*node);
        lemma_grown_refl(p0);
        reveal_strlit("fieldset");
        reveal_strlit("body");
        reveal_strlit("div");
        reveal_strlit("form");
        reveal_strlit("td");
        reveal_strlit("th");
        reveal_strlit("table");
    }
    match node {
        ChildNode::Element { name, attrs, text, html, children } => {
            let ghost size = node_size(*node);
            let t = text::str_to_chars(name.as_str());
            let key = ctx.key.as_str();
            let tx = text.as_str();
            let hx = html.as_str();
            let binding = binding_at(&ctx.text_bindings, path);
            let tag = name.as_str();
            proof {
                assert(decreases_to!(node => children));
            }
            if text::chars_eq_str(&t, "body") || text::chars_eq_str(&t, "div") || text::chars_eq_str(
                &t,
                "form",
            ) || text::chars_eq_str(&t, "td") || text::chars_eq_str(&t, "th") {
                let kids = parse_children(children, ctx, path, pools, absolute_existing, max_size);
                proof {
                    lemma_room_after(p0, pools.view_pools(), forest_size(children@), 1);
                }
                let ghost mid = pools.view_pools();
                let widget = if text::chars_eq_str(&t, "td") || text::chars_eq_str(&t, "th") {
                    proof {
                        lemma_acquire_room(mid, WidgetKind::TableCell, 0);
                    }
                    NodeWidget::TableCell(convert::table_cell_from_element(pools, tag))
                } else if text::chars_eq_str(&t, "body") {
                    proof {
                        lemma_acquire_room(mid, WidgetKind::Body, 0);
                    }
                    let mut b = Body::new(pools);
                    b.html_key = Some(String::from_str(key));
                    NodeWidget::Body(b)
                } else if text::chars_eq_str(&t, "div") {
                    proof {
                        lemma_acquire_room(mid, WidgetKind::Div, 0);
                    }
                    NodeWidget::Div(Div::new(pools))
                } else {
                    proof {
                        lemma_acquire_room(mid, WidgetKind::Form, 0);
                    }
                    NodeWidget::Form(convert::form_from_element(pools, attrs))
                };
                proof {
                    lemma_grown_trans(p0, mid, pools.view_pools(), forest_size(children@), 1);
                }
                Some(element_node(widget, attrs, tx, hx, binding, key, path, tag, kids))
            } else if text::chars_eq_str(&t, "table") {
                let (cells, columns) = parse_table(
                    children,
                    ctx,
                    path,
                    pools,
                    absolute_existing,
                    max_size,
                );
                proof {
                    lemma_room_after(p0, pools.view_pools(), forest_size(children@), 1);
                }
                let ghost mid = pools.view_pools();
                proof {
                    lemma_acquire_room(mid, WidgetKind::Table, 0);
                }
                let mut table = Table::new(pools);
                table.columns = columns;
                proof {
                    lemma_grown_trans(p0, mid, pools.view_pools(), forest_size(children@), 1);
                }
                Some(element_node(NodeWidget::Table(table), attrs, tx, hx, binding, key, path, tag, cells))
            } else if text::chars_eq_str(&t, "fieldset") {
                let kids = parse_fieldset_children(
                    children,
                    attrs,
                    ctx,
                    path,
                    pools,
                    absolute_existing,
                    max_size,
                );
                proof {
                    lemma_room_after(p0, pools.view_pools(), forest_size(children@), 1);
                }
                let ghost mid = pools.view_pools();
                proof {
                    lemma_acquire_room(mid, WidgetKind::FieldSet, 0);
                }
                let f = convert::fieldset_from_element(pools, attrs);
                proof {
                    lemma_grown_trans(p0, mid, pools.view_pools(), forest_size(children@), 1);
                }
                Some(element_node(NodeWidget::FieldSet(f), attrs, tx, hx, binding, key, path, tag, kids))
            } else if text::chars_eq_str(&t, "h1") || text::chars_eq_str(&t, "h2")
                || text::chars_eq_str(&t, "h3") || text::chars_eq_str(&t, "h4")
                || text::chars_eq_str(&t, "h5") || text::chars_eq_str(&t, "h6") {
                proof {
                    lemma_leaf(p0, WidgetKind::Headline, size);
                }
                let w = convert::headline_from_element(pools, tag, tx);
                Some(element_node(NodeWidget::Headline(w), attrs, tx, hx, binding, key, path, tag, Vec::new()))
            } else if text::chars_eq_str(&t, "img") {
                proof {
                    lemma_leaf(p0, WidgetKind::Img, size);
                }
                let src = match attr(attrs, "src") {
                    Some(v) => v,
                    None => "",
                };
                let normalized = attrs::normalize_asset_href(src);
                let existing = absolute_existing(normalized.as_str());
                let w = convert::img_from_element(pools, attrs, ctx.html_path.as_str(), existing);
                Some(element_node(NodeWidget::Img(w), attrs, tx, hx, binding, key, path, tag, Vec::new()))
            } else if text::chars_eq_str(&t, "input") {
                proof {
                    lemma_leaf(p0, WidgetKind::InputField, size);
                }
                let max_bytes = match attr(attrs, "max-size") {
                    Some(v) => {
                        let o = max_size(v);
                        proof {
                            assert(call_ensures(*max_size, (v,), o));
                            assert((size_answers(*max_size))(v@, o));
                        }
                        o
                    },
                    None => None,
                };
                let w = convert::input_from_element(pools, attrs, &ctx.labels, max_bytes);
                Some(element_node(NodeWidget::Input(w), attrs, tx, hx, binding, key, path, tag, Vec::new()))
            } else if text::chars_eq_str(&t, "date-picker") {
                proof {
                    lemma_leaf(p0, WidgetKind::DatePicker, size);
                }
                let w = convert::date_picker_from_element(pools, attrs, &ctx.labels);
                let bound = w.for_id.is_some();
                let mut n = element_node(
                    NodeWidget::DatePicker(w),
                    attrs,
                    tx,
                    hx,
                    binding,
                    key,
                    path,
                    tag,
                    Vec::new(),
                );
                if bound {
                    convert::ensure_meta_class(&mut n.classes, "date-picker-bound");
                }
                Some(n)
            } else if text::chars_eq_str(&t, "colorpicker") || text::chars_eq_str(&t, "progressbar")
                || text::chars_eq_str(&t, "scroll") || text::chars_eq_str(&t, "slider") {
                proof {
                    lemma_grown_mono(p0, pools.view_pools(), 0, size);
                }
                Some(
                    element_node(
                        NodeWidget::Numeric(String::from_str(tag), attribute_pairs(attrs)),
                        attrs,
                        tx,
                        hx,
                        binding,
                        key,
                        path,
                        tag,
                        Vec::new(),
                    ),
                )
            } else if text::chars_eq_str(&t, "button") {
                proof {
                    lemma_leaf(p0, WidgetKind::Button, size);
                }
                let w = convert::button_from_element(pools, attrs, tx, children);
                Some(element_node(NodeWidget::Button(w), attrs, tx, hx, binding, key, path, tag, Vec::new()))
            } else if text::chars_eq_str(&t, "checkbox") {
                proof {
                    lemma_leaf(p0, WidgetKind::CheckBox, size);
                }
                let w = convert::checkbox_from_element(pools, attrs, tx);
                Some(element_node(NodeWidget::CheckBox(w), attrs, tx, hx, binding, key, path, tag, Vec::new()))
            } else if text::chars_eq_str(&t, "divider") {
                proof {
                    lemma_leaf(p0, WidgetKind::Divider, size);
                }
                let w = convert::divider_from_element(pools, attrs);
                Some(element_node(NodeWidget::Divider(w), attrs, tx, hx, binding, key, path, tag, Vec::new()))
            } else if text::chars_eq_str(&t, "a") {
                proof {
                    lemma_leaf(p0, WidgetKind::HyperLink, size);
                }
                let w = convert::hyperlink_from_element(pools, attrs, tx);
                Some(element_node(NodeWidget::HyperLink(w), attrs, tx, hx, binding, key, path, tag, Vec::new()))
            } else if text::chars_eq_str(&t, "p") {
                proof {
                    lemma_leaf(p0, WidgetKind::Paragraph, size);
                }
                let w = convert::paragraph_from_element(pools, tx);
                Some(element_node(NodeWidget::Paragraph(w), attrs, tx, hx, binding, key, path, tag, Vec::new()))
            } else if text::chars_eq_str(&t, "tool-tip") {
                proof {
                    lemma_leaf(p0, WidgetKind::ToolTip, size);
                }
                let w = convert::tooltip_from_element(pools, attrs, tx);
                Some(element_node(NodeWidget::ToolTip(w), attrs, tx, hx, binding, key, path, tag, Vec::new()))
            } else if text::chars_eq_str(&t, "badge") {
                proof {
                    lemma_leaf(p0, WidgetKind::Badge, size);
                }
                let w = convert::badge_from_element(pools, attrs, tx);
                Some(element_node(NodeWidget::Badge(w), attrs, tx, hx, binding, key, path, tag, Vec::new()))
            } else if text::chars_eq_str(&t, "radio") {
                proof {
                    lemma_leaf(p0, WidgetKind::RadioButton, size);
                }
                let w = convert::radio_from_element(pools, attrs, tx);
                Some(element_node(
                    NodeWidget::RadioButton(w),
                    attrs,
                    tx,
                    hx,
                    binding,
                    key,
                    path,
                    tag,
                    Vec::new()),
                )
            } else if text::chars_eq_str(&t, "select") {
                proof {
                    lemma_leaf(p0, WidgetKind::ChoiceBox, size);
                }
                let w = convert::choice_box_from_element(pools, children);
                Some(element_node(NodeWidget::ChoiceBox(w), attrs, tx, hx, binding, key, path, tag, Vec::new()))
            } else if text::chars_eq_str(&t, "switch") {
                proof {
                    lemma_leaf(p0, WidgetKind::SwitchButton, size);
                }
                let w = convert::switch_from_element(pools, attrs, tx);
                Some(element_node(
                    NodeWidget::SwitchButton(w),
                    attrs,
                    tx,
                    hx,
                    binding,
                    key,
                    path,
                    tag,
                    Vec::new()),
                )
            } else if text::chars_eq_str(&t, "toggle") {
                proof {
                    lemma_leaf(p0, WidgetKind::ToggleButton, size);
                }
                let w = convert::toggle_from_element(pools, attrs, tx, children);
                Some(element_node(
                    NodeWidget::ToggleButton(w),
                    attrs,
                    tx,
                    hx,
                    binding,
                    key,
                    path,
                    tag,
                    Vec::new()),
                )
            } else if text::chars_eq_str(&t, "listbox") {
                proof {
                    lemma_leaf(p0, WidgetKind::ListBox, size);
                }
                let w = convert::list_box_from_element(pools, attrs, children);
                Some(element_node(NodeWidget::ListBox(w), attrs, tx, hx, binding, key, path, tag, Vec::new()))
            } else {
                proof {
                    lemma_grown_mono(p0, pools.view_pools(), 0, size);
                }
                None
            }
        },
        _ => None,
    }
}

/// The positions of the children that are elements named `name`.
pub open spec fn positions_named(children: Seq<ChildNode>, name: Seq<char>) -> Seq<int>
    decreases children.len(),
{
    if children.len() == 0 {
        seq![]
    } else {
        let rest = positions_named(children.drop_last(), name);
        match children.last() {
            ChildNode::Element { name: n, .. } => if n@ == name {
                rest.push(children.len() - 1)
            } else {
                rest
            },
            _ => rest,
        }
    }
}

/// The elements named `name` are found at their positions.
proof fn lemma_positions_named(children: Seq<ChildNode>, name: Seq<char>)
    ensures
        positions_named(children, name).len() == convert::elements_named(children, name).len(),
        forall|m: int|
            0 <= m < positions_named(children, name).len() ==> {
                let i = #[trigger] positions_named(children, name)[m];
                &&& 0 <= i < children.len()
                &&& children[i] matches ChildNode::Element { name: n, attrs, text, .. } && n@
                    == name && (attrs.entries_spec(), text@) == convert::elements_named(
                    children,
                    name,
                )[m]
            },
    decreases children.len(),
{
    if children.len() > 0 {
        let d = children.drop_last();
        lemma_positions_named(d, name);
        assert forall|m: int| 0 <= m < positions_named(d, name).len() implies children[
            #[trigger] positions_named(d, name)[m]] == d[positions_named(d, name)[m]] by {}
    }
}

/// The nodes of a field set's children (`parse_fieldset_children`): those
/// built for its non-radio children that become widgets, in order, then
/// one radio node per `<radio>` child: its button as
/// `fieldset_radio_buttons` makes it for the field set's `allow-none`, and
/// its identifier, `id`, rules, text, states, handlers and inner HTML from
/// the radio element at its path, with no text binding and no children.
pub open spec fn fieldset_nodes(
    r: Seq<HtmlWidgetNode>,
    children: Seq<ChildNode>,
    allow_none: bool,
    key: Seq<char>,
    labels: Seq<(Seq<char>, Seq<char>)>,
    page: Seq<char>,
    bindings: Seq<(Seq<char>, (Seq<char>, Seq<Seq<char>>))>,
    sizes: spec_fn(Seq<char>, Option<u64>) -> bool,
    path: Seq<char>,
) -> bool
    decreases forest_size(children), 1nat,
{
    proof {
        lemma_forest_elem(children);
    }
    let w = widget_children(children, Some("radio"@));
    let rp = positions_named(children, "radio"@);
    let radios = convert::elements_named(children, "radio"@);
    &&& r.len() == w.len() + rp.len()
    &&& forall|k: int|
        0 <= k < w.len() ==> {
            let i = #[trigger] w[k];
            &&& 0 <= i < children.len()
            &&& parsed_node(r[k], children[i], key, labels, page, bindings, sizes, child_path_of(path, i))
        }
    &&& forall|m: int|
        0 <= m < rp.len() ==> {
            let n = #[trigger] r[w.len() + m];
            &&& n.widget matches NodeWidget::RadioButton(b) && b.label@ == text::trim(radios[m].1)
                && components::opt_str(b.value) == convert::text_value(radios[m].0) && b.selected
                == elements::radio_selection(convert::radio_marks(radios), allow_none)[m]
            &&& node_base(n, radios[m].0, radios[m].1, key, child_path_of(path, rp[m]), "radio"@)
            &&& n.children@.len() == 0
            &&& children[rp[m]] matches ChildNode::Element { html, .. } && node_content(
                n,
                html@,
                None,
            )
        }
}

/// The nodes of a field set's children (`fieldset_nodes`): its non-radio
/// children at `path.index`, then its radios, selected as
/// `fieldset_radio_buttons` says for the field set's `allow-none`.
pub fn parse_fieldset_children<E: Fn(&str) -> bool, M: Fn(&str) -> Option<u64>>(
    children: &Vec<ChildNode>,
    attrs: &KeyedMap<String>,
    ctx: &SourceContext,
    path: &str,
    pools: &mut WidgetIdPools,
    absolute_existing: &E,
    max_size: &M,
) -> (r: Vec<HtmlWidgetNode>)
    requires
        pools_have_room(old(pools).view_pools(), forest_size(children@)),
        callbacks_total(absolute_existing, max_size),
    ensures
        pools_grown_by(old(pools).view_pools(), final(pools).view_pools(), forest_size(children@)),
        fieldset_nodes(
            r@,
            children@,
            attr_v(attrs.entries_spec(), "allow-none"@) == Some("true"@),
            ctx.key@,
            ctx.labels.entries_spec(),
            ctx.html_path@,
            ctx.text_bindings.entries_spec(),
            size_answers(*max_size),
            path@,
        ),
    decreases children,
{
    let ghost p0 = pools.view_pools();
    proof {
        lemma_grown_refl(p0);
    }
    let mut out: Vec<HtmlWidgetNode> = Vec::new();
    let mut radio_index: Vec<usize> = Vec::new();
    let ghost mut used: nat = 0;
    let mut i: usize = 0;
    while i < children.len()
        invariant
            i <= children@.len(),
            pools_have_room(p0, forest_size(children@)),
            pools_grown_by(p0, pools.view_pools(), used),
            used + convert::elements_named(children@.take(i as int), "radio"@).len() <= forest_size(
                children@.take(i as int),
            ),
            radio_index@.len() == positions_named(children@.take(i as int), "radio"@).len(),
            forall|m: int|
                0 <= m < radio_index@.len() ==> #[trigger] radio_index@[m] as int == positions_named(
                    children@.take(i as int),
                    "radio"@,
                )[m],
            children_nodes(
                out@,
                children@.take(i as int),
                Some("radio"@),
                ctx.key@,
                ctx.labels.entries_spec(),
                ctx.html_path@,
                ctx.text_bindings.entries_spec(),
                size_answers(*max_size),
                path@,
            ),
            callbacks_total(absolute_existing, max_size),
        decreases children.len() - i,
    {
        let ghost t = children@.take(i + 1);
        let ghost old_out = out@;
        proof {
            lemma_forest_prefix(children@, i as int);
            lemma_forest_prefix_le(children@, i + 1);
            lemma_node_size(children@[i as int]);
            lemma_positions_named(children@.take(i as int), "radio"@);
            assert(t.drop_last() =~= children@.take(i as int));
            assert(t.last() == children@[i as int]);
            assert forall|k: int| 0 <= k < old_out.len() implies {
                let j = #[trigger] widget_children(children@.take(i as int), Some("radio"@))[k];
                &&& 0 <= j < t.len()
                &&& parsed_node(
                    old_out[k],
                    t[j],
                    ctx.key@,
                    ctx.labels.entries_spec(),
                    ctx.html_path@,
                    ctx.text_bindings.entries_spec(),
                    size_answers(*max_size),
                    child_path_of(path@, j),
                )
            } by {
                let j = widget_children(children@.take(i as int), Some("radio"@))[k];
                assert(t[j] == children@.take(i as int)[j]);
            }
        }
        let is_radio = match &children[i] {
            ChildNode::Element { name, .. } => {
                let n = text::str_to_chars(name.as_str());
                text::chars_eq_str(&n, "radio")
            },
            _ => false,
        };
        if is_radio {
            radio_index.push(i);
            proof {
                assert(widget_children(t, Some("radio"@)) == widget_children(
                    children@.take(i as int),
                    Some("radio"@),
                ));
            }
        } else {
            proof {
                lemma_room_after(p0, pools.view_pools(), used, node_size(children@[i as int]));
                assert(decreases_to!(children => children@[i as int]));
            }
            let ghost before = pools.view_pools();
            let p = child_path(path, i);
            let parsed = parse_html_node(
                &children[i],
                ctx,
                p.as_str(),
                pools,
                absolute_existing,
                max_size,
            );
            proof {
                lemma_grown_trans(
                    p0,
                    before,
                    pools.view_pools(),
                    used,
                    node_size(children@[i as int]),
                );
                used = used + node_size(children@[i as int]);
            }
            match parsed {
                Some(n) => {
                    out.push(n);
                    proof {
                        assert(p@ == child_path_of(path@, i as int));
                        assert(widget_children(t, Some("radio"@)) == widget_children(
                            children@.take(i as int),
                            Some("radio"@),
                        ).push(i as int));
                        assert forall|k: int| 0 <= k < out@.len() implies {
                            let j = #[trigger] widget_children(t, Some("radio"@))[k];
                            &&& 0 <= j < t.len()
                            &&& parsed_node(
                                out@[k],
                                t[j],
                                ctx.key@,
                                ctx.labels.entries_spec(),
                                ctx.html_path@,
                                ctx.text_bindings.entries_spec(),
                                size_answers(*max_size),
                                child_path_of(path@, j),
                            )
                        } by {
                            if k < old_out.len() {
                                assert(out@[k] == old_out[k]);
                            }
                        }
                    }
                },
                None => {
                    proof {
                        assert(widget_children(t, Some("radio"@)) == widget_children(
                            children@.take(i as int),
                            Some("radio"@),
                        ));
                    }
                },
            }
        }
        i = i + 1;
    }
    assert(children@.take(children@.len() as int) =~= children@);
    let ghost radios_n = convert::elements_named(children@, "radio"@).len();
    let ghost all = convert::elements_named(children@, "radio"@);
    let ghost rp = positions_named(children@, "radio"@);
    let ghost w = widget_children(children@, Some("radio"@));
    let ghost mid = pools.view_pools();
    proof {
        lemma_positions_named(children@, "radio"@);
        lemma_room_after(p0, mid, used, radios_n);
        assert forall|j: nat| j < radios_n implies #[trigger] components::kind_can_acquire(
            pools_after_acquires(mid, WidgetKind::RadioButton, j),
            WidgetKind::RadioButton,
        ) by {
            lemma_acquires_room(mid, WidgetKind::RadioButton, j, (radios_n - j) as nat);
            lemma_acquire_room(
                pools_after_acquires(mid, WidgetKind::RadioButton, j),
                WidgetKind::RadioButton,
                (radios_n - j - 1) as nat,
            );
        }
    }
    let allow_none = match attr(attrs, "allow-none") {
        Some(v) => {
            let c = text::str_to_chars(v);
            text::chars_eq_str(&c, "true")
        },
        None => false,
    };
    let radios = convert::fieldset_radio_buttons(pools, children, allow_none);
    proof {
        lemma_acquires_room(mid, WidgetKind::RadioButton, radios_n, 0);
        lemma_grown_trans(p0, mid, pools.view_pools(), used, radios_n);
        lemma_grown_mono(p0, pools.view_pools(), used + radios_n, forest_size(children@));
    }
    let ghost made = radios@;
    let key = ctx.key.as_str();
    let mut k: usize = 0;
    let mut radios = radios;
    while k < radio_index.len()
        invariant
            k <= radio_index@.len(),
            radio_index@.len() == rp.len(),
            rp == positions_named(children@, "radio"@),
            all == convert::elements_named(children@, "radio"@),
            w == widget_children(children@, Some("radio"@)),
            forall|m: int| 0 <= m < radio_index@.len() ==> #[trigger] radio_index@[m] as int == rp[m],
            forall|m: int|
                0 <= m < rp.len() ==> {
                    let i = #[trigger] rp[m];
                    &&& 0 <= i < children@.len()
                    &&& children@[i] matches ChildNode::Element { name: n, attrs, text, .. } && n@
                        == "radio"@ && (attrs.entries_spec(), text@) == all[m]
                },
            made.len() == all.len(),
            rp.len() == all.len(),
            radios@ == made.skip(k as int),
            allow_none == (attr_v(attrs.entries_spec(), "allow-none"@) == Some("true"@)),
            forall|m: int|
                0 <= m < all.len() ==> {
                    &&& (#[trigger] made[m]).label@ == text::trim(all[m].1)
                    &&& components::opt_str(made[m].value) == convert::text_value(all[m].0)
                    &&& made[m].selected == elements::radio_selection(
                        convert::radio_marks(all),
                        allow_none,
                    )[m]
                },
            out@.len() == w.len() + k,
            forall|kk: int|
                0 <= kk < w.len() ==> {
                    let i = #[trigger] w[kk];
                    &&& 0 <= i < children@.len()
                    &&& parsed_node(
                        out@[kk],
                        children@[i],
                        ctx.key@,
                        ctx.labels.entries_spec(),
                        ctx.html_path@,
                        ctx.text_bindings.entries_spec(),
                        size_answers(*max_size),
                        child_path_of(path@, i),
                    )
                },
            forall|m: int|
                0 <= m < k ==> {
                    let n = #[trigger] out@[w.len() + m];
                    &&& n.widget matches NodeWidget::RadioButton(b) && b.label@ == text::trim(
                        all[m].1,
                    ) && components::opt_str(b.value) == convert::text_value(all[m].0)
                        && b.selected == elements::radio_selection(
                        convert::radio_marks(all),
                        allow_none,
                    )[m]
                    &&& node_base(
                        n,
                        all[m].0,
                        all[m].1,
                        ctx.key@,
                        child_path_of(path@, rp[m]),
                        "radio"@,
                    )
                    &&& n.children@.len() == 0
                    &&& children@[rp[m]] matches ChildNode::Element { html, .. } && node_content(
                        n,
                        html@,
                        None,
                    )
                },
            key@ == ctx.key@,
        decreases radio_index.len() - k,
    {
        let idx = radio_index[k];
        proof {
            assert(radios@[0] == made[k as int]);
        }
        let rb = radios.remove(0);
        proof {
            assert(radios@ =~= made.skip(k + 1));
            assert(idx as int == rp[k as int]);
        }
        let ghost old_out = out@;
        match &children[idx] {
            ChildNode::Element { name, attrs: ra, text: rt, html: rh, .. } => {
                let p = child_path(path, idx);
                out.push(
                    element_node(
                        NodeWidget::RadioButton(rb),
                        ra,
                        rt.as_str(),
                        rh.as_str(),
                        None,
                        key,
                        p.as_str(),
                        name.as_str(),
                        Vec::new(),
                    ),
                );
                proof {
                    assert forall|kk: int| 0 <= kk < w.len() implies {
                        let i = #[trigger] w[kk];
                        &&& 0 <= i < children@.len()
                        &&& parsed_node(
                            out@[kk],
                            children@[i],
                            ctx.key@,
                            ctx.labels.entries_spec(),
                            ctx.html_path@,
                            ctx.text_bindings.entries_spec(),
                            size_answers(*max_size),
                            child_path_of(path@, i),
                        )
                    } by {
                        assert(out@[kk] == old_out[kk]);
                    }
                    assert forall|m: int| 0 <= m < k + 1 implies {
                        let n = #[trigger] out@[w.len() + m];
                        &&& n.widget matches NodeWidget::RadioButton(b) && b.label@ == text::trim(
                            all[m].1,
                        ) && components::opt_str(b.value) == convert::text_value(all[m].0)
                            && b.selected == elements::radio_selection(
                            convert::radio_marks(all),
                            allow_none,
                        )[m]
                        &&& node_base(
                            n,
                            all[m].0,
                            all[m].1,
                            ctx.key@,
                            child_path_of(path@, rp[m]),
                            "radio"@,
                        )
                        &&& n.children@.len() == 0
                        &&& children@[rp[m]] matches ChildNode::Element { html, .. } && node_content(
                            n,
                            html@,
                            None,
                        )
                    } by {
                        if m < k {
                            assert(out@[w.len() + m] == old_out[w.len() + m]);
                        } else {
                            assert(made[m] == rb);
                        }
                    }
                }
            },
            _ => {
                proof {
                    assert(false);
                }
            },
        }
        k = k + 1;
    }
    out
}

// ---------------------------------------------------------------------------
// Reading a document
// ---------------------------------------------------------------------------

/// A node of a document as read from the parser: an element with its local
/// name, its attributes as (namespace, local name, value), its text and
/// children; a text node; anything else.
pub enum RawNode {
    Element {
        name: String,
        attrs: Vec<(String, String, String)>,
        text: String,
        html: String,
        children: Vec<RawNode>,
    },
    Text(String),
    Other,
}

/// The elements matching `selector` in the document the HTML parser builds
/// for `html` (with `<html>`, `<head>` and `<body>` added where missing), in
/// document order, each read as a `RawNode` with the number of its
/// descendants (itself not counted). Parsing and selecting depend on the
/// text and the selector alone.
pub uninterp spec fn parsed_selection(html: Seq<char>, selector: Seq<char>) -> Seq<(RawNode, usize)>;

/// Calls `kuchiki::parse_html().one(html)`, then `NodeRef::select` with
/// `selector` (no element for a selector that does not parse), and reads
/// each element found (`read_node`) with the count of
/// `NodeRef::descendants`. The contract names the result
/// (`parsed_selection`); what the parser makes of the text is not spelt
/// out.
#[verifier::external_body]
pub(crate) fn read_selection(html: &str, selector: &str) -> (r: Vec<(RawNode, usize)>)
    ensures
        r@ == parsed_selection(html@, selector@),
{
    let document = kuchiki::parse_html().one(html);
    let mut out = Vec::new();
    if let Ok(found) = document.select(selector) {
        for element in found {
            let node = element.as_node();
            out.push((read_node(node), node.descendants().count()));
        }
    }
    out
}

/// Reads a node and its subtree from the parser's tree: an element's local
/// name (`ElementData::name`), attributes (`Attributes::map`), text
/// (`NodeRef::text_contents`), the HTML of its children (each child's
/// `NodeRef::to_string`, concatenated) and children (`NodeRef::children`); a text
/// node's text; anything else as `Other`. What the tree holds is not
/// stated.
#[verifier::external_body]
fn read_node(node: &kuchiki::NodeRef) -> RawNode {
    match (node.as_element(), node.as_text()) {
        (Some(element), _) => RawNode::Element {
            name: element.name.local.to_string(),
            attrs: element.attributes.borrow().map.iter().map(
                |(name, value)| (name.ns.to_string(), name.local.to_string(), value.value.clone()),
            ).collect(),
            text: node.text_contents(),
            html: node.children().map(|child| child.to_string()).collect(),
            children: node.children().map(|child| read_node(&child)).collect(),
        },
        (None, Some(text)) => RawNode::Text(text.borrow().clone()),
        (None, None) => RawNode::Other,
    }
}

/// The attribute map of an element: each attribute without namespace bound
/// to its value, in order.
pub open spec fn raw_attr_map(attrs: Seq<(String, String, String)>) -> Seq<(Seq<char>, Seq<char>)>
    decreases attrs.len(),
{
    if attrs.len() == 0 {
        seq![]
    } else {
        let m = raw_attr_map(attrs.drop_last());
        let a = attrs.last();
        if a.0@.len() == 0 {
            keyed::sorted_insert(m, a.1@, a.2@)
        } else {
            m
        }
    }
}

/// An element's attributes without namespace, by name (`raw_attr_map`).
pub(crate) fn attr_map(attrs: &Vec<(String, String, String)>) -> (r: KeyedMap<String>)
    ensures
        r.entries_spec() == raw_attr_map(attrs@),
{
    let mut m: KeyedMap<String> = KeyedMap::new();
    let mut i: usize = 0;
    while i < attrs.len()
        invariant
            i <= attrs@.len(),
            m.entries_spec() == raw_attr_map(attrs@.take(i as int)),
        decreases attrs.len() - i,
    {
        assert(attrs@.take(i + 1).drop_last() =~= attrs@.take(i as int));
        let (ns, name, value) = &attrs[i];
        let nsc = text::str_to_chars(ns.as_str());
        if nsc.len() == 0 {
            m.insert(name.as_str(), String::from_str(value.as_str()));
        }
        i = i + 1;
    }
    assert(attrs@.take(attrs@.len() as int) =~= attrs@);
    m
}

/// Whether `node` is the document node `raw` stands for: an element of the
/// same name, text and children (each child read the same way,
/// `reads_as_all`), with the attributes of `raw_attr_map`; text stays text,
/// anything else stays other.
pub open spec fn read_as(raw: RawNode, node: ChildNode) -> bool
    decreases raw,
{
    match raw {
        RawNode::Element { name, attrs, text, html, children } => match node {
            ChildNode::Element { name: n, attrs: a, text: t, html: h, children: c } => {
                &&& n@ == name@
                &&& a.entries_spec() == raw_attr_map(attrs@)
                &&& t@ == text@
                &&& h@ == html@
                &&& reads_as_all(children@, c@)
            },
            _ => false,
        },
        RawNode::Text(t) => node matches ChildNode::Text(u) && u@ == t@,
        RawNode::Other => node is Other,
    }
}

/// Whether `nodes` are the document nodes `raws` stand for, one by one.
pub open spec fn reads_as_all(raws: Seq<RawNode>, nodes: Seq<ChildNode>) -> bool
    decreases raws,
{
    if raws.len() == 0 {
        nodes.len() == 0
    } else {
        &&& nodes.len() == raws.len()
        &&& read_as(raws[raws.len() - 1], nodes[nodes.len() - 1])
        &&& reads_as_all(
            raws.subrange(0, raws.len() - 1),
            nodes.subrange(0, nodes.len() - 1),
        )
    }
}

/// The document node a read node stands for (`read_as`).
#[verifier::loop_isolation(false)]
pub fn dom_from_raw(raw: &RawNode) -> (r: ChildNode)
    ensures
        read_as(*raw, r),
    decreases raw,
{
    match raw {
        RawNode::Element { name, attrs, text, html, children } => {
            let mut kids: Vec<ChildNode> = Vec::new();
            let mut i: usize = 0;
            assert(reads_as_all(children@.subrange(0, 0), kids@));
            while i < children.len()
                invariant
                    i <= children@.len(),
                    reads_as_all(children@.subrange(0, i as int), kids@),
                decreases children.len() - i,
            {
                proof {
                    assert(decreases_to!(raw => children@[i as int]));
                }
                let kid = dom_from_raw(&children[i]);
                let ghost before = kids@;
                kids.push(kid);
                proof {
                    let c = children@.subrange(0, i + 1);
                    assert(c.subrange(0, i as int) =~= children@.subrange(0, i as int));
                    assert(kids@.subrange(0, i as int) =~= before);
                    assert(c[i as int] == children@[i as int]);
                }
                i = i + 1;
            }
            assert(children@.subrange(0, children@.len() as int) =~= children@);
            ChildNode::Element {
                name: String::from_str(name.as_str()),
                attrs: attr_map(attrs),
                text: String::from_str(text.as_str()),
                html: String::from_str(html.as_str()),
                children: kids,
            }
        },
        RawNode::Text(t) => ChildNode::Text(String::from_str(t.as_str())),
        RawNode::Other => ChildNode::Other,
    }
}

/// The number of elements among `nodes` and their descendants
/// (`forest_size`), or `None` when it does not fit in `usize`.
pub fn forest_size_exec(nodes: &Vec<ChildNode>) -> (r: Option<usize>)
    ensures
        match r {
            Some(n) => n == forest_size(nodes@),
            None => forest_size(nodes@) > usize::MAX,
        },
    decreases nodes,
{
    let mut total: usize = 0;
    let mut i: usize = 0;
    while i < nodes.len()
        invariant
            i <= nodes@.len(),
            total == forest_size(nodes@.take(i as int)),
        decreases nodes.len() - i,
    {
        proof {
            lemma_forest_prefix(nodes@, i as int);
            lemma_node_size(nodes@[i as int]);
        }
        match &nodes[i] {
            ChildNode::Element { children, .. } => {
                proof {
                    assert(decreases_to!(nodes => children));
                }
                match forest_size_exec(children) {
                    Some(n) => {
                        if n >= usize::MAX - total {
                            proof {
                                lemma_forest_prefix_le(nodes@, i + 1);
                            }
                            return None;
                        }
                        total = total + n + 1;
                    },
                    None => {
                        proof {
                            lemma_forest_prefix_le(nodes@, i + 1);
                        }
                        return None;
                    },
                }
            },
            _ => {},
        }
        i = i + 1;
    }
    assert(nodes@.take(nodes@.len() as int) =~= nodes@);
    Some(total)
}

/// The node counts of read elements.
pub open spec fn sizes_of(bs: Seq<(RawNode, usize)>) -> Seq<usize> {
    Seq::new(bs.len(), |i: int| bs[i].1)
}

/// Element `k` of several is the primary one: the last of those holding the
/// most nodes.
pub open spec fn is_primary(sizes: Seq<usize>, k: int) -> bool {
    &&& 0 <= k < sizes.len()
    &&& forall|j: int| 0 <= j < sizes.len() ==> #[trigger] sizes[j] <= sizes[k]
    &&& forall|j: int| k < j < sizes.len() ==> #[trigger] sizes[j] < sizes[k]
}

/// The `<body>` elements of the document the parser builds for `html`.
pub open spec fn parsed_bodies(html: Seq<char>) -> Seq<(RawNode, usize)> {
    parsed_selection(html, "body"@)
}

/// The document node of the primary `<body>` of the document the parser
/// builds for `html` (`is_primary` by node count); `None` without a body.
pub(crate) fn primary_body(html: &str) -> (r: Option<ChildNode>)
    ensures
        r is None <==> parsed_bodies(html@).len() == 0,
        forall|k: int|
            is_primary(sizes_of(parsed_bodies(html@)), k) ==> (r matches Some(b) && read_as(
                #[trigger] parsed_bodies(html@)[k].0,
                b,
            )),
{
    let bodies = read_selection(html, "body");
    let ghost bs = parsed_bodies(html@);
    assert(bodies@ == bs);
    let mut sizes: Vec<usize> = Vec::new();
    let mut i: usize = 0;
    while i < bodies.len()
        invariant
            i <= bodies@.len(),
            sizes@ == sizes_of(bodies@).take(i as int),
        decreases bodies.len() - i,
    {
        sizes.push(bodies[i].1);
        assert(sizes@ =~= sizes_of(bodies@).take(i + 1));
        i = i + 1;
    }
    assert(sizes@ =~= sizes_of(bodies@));
    match elements::select_primary_body_node(&sizes) {
        Some(k) => {
            let b = dom_from_raw(&bodies[k].0);
            proof {
                assert forall|k2: int| is_primary(sizes_of(bs), k2) implies (Some(b) matches Some(
                    b2,
                ) && read_as(#[trigger] bs[k2].0, b2)) by {
                    if k2 < k {
                        assert(sizes@[k2] <= sizes@[k as int]);
                        assert(sizes@[k as int] < sizes@[k2]);
                    } else if k2 > k {
                        assert(sizes@[k2] < sizes@[k as int]);
                        assert(sizes@[k as int] <= sizes@[k2]);
                    }
                }
            }
            Some(b)
        },
        None => None,
    }
}

/// The path of a fragment's top-level child `i`: its index.
pub open spec fn fragment_path(i: int) -> Seq<char> {
    text::nat_to_decimal(i as nat)
}

/// The nodes of a fragment's top-level children: one per child in
/// `widget_children`, in order, each what `parse_html_node` builds for that
/// child at the path of its index (`parsed_node`).
pub open spec fn fragment_nodes(
    r: Seq<HtmlWidgetNode>,
    children: Seq<ChildNode>,
    key: Seq<char>,
    labels: Seq<(Seq<char>, Seq<char>)>,
    page: Seq<char>,
    bindings: Seq<(Seq<char>, (Seq<char>, Seq<Seq<char>>))>,
    sizes: spec_fn(Seq<char>, Option<u64>) -> bool,
) -> bool {
    &&& r.len() == widget_children(children, None).len()
    &&& forall|k: int|
        0 <= k < r.len() ==> {
            let i = #[trigger] widget_children(children, None)[k];
            &&& 0 <= i < children.len()
            &&& parsed_node(r[k], children[i], key, labels, page, bindings, sizes, fragment_path(i))
        }
}

/// The children of a document node: an element's, none otherwise.
pub open spec fn node_children(node: ChildNode) -> Seq<ChildNode> {
    match node {
        ChildNode::Element { children, .. } => children@,
        _ => seq![],
    }
}

/// The nodes an HTML fragment whose body is `body` becomes: those of the
/// body's children (`fragment_nodes`), for source key `fragment` without a
/// file or labels.
pub fn parse_html_fragment_of<E: Fn(&str) -> bool, M: Fn(&str) -> Option<u64>>(
    body: &ChildNode,
    pools: &mut WidgetIdPools,
    absolute_existing: &E,
    max_size: &M,
) -> (r: Vec<HtmlWidgetNode>)
    requires
        pools_have_room(old(pools).view_pools(), forest_size(node_children(*body))),
        callbacks_total(absolute_existing, max_size),
    ensures
        pools_grown_by(
            old(pools).view_pools(),
            final(pools).view_pools(),
            forest_size(node_children(*body)),
        ),
        fragment_nodes(r@, node_children(*body), "fragment"@, seq![], Seq::<char>::empty(), seq![], size_answers(*max_size)),
{
    let ghost p0 = pools.view_pools();
    proof {
        lemma_grown_refl(p0);
    }
    let mut out: Vec<HtmlWidgetNode> = Vec::new();
    let children = match body {
        ChildNode::Element { children, .. } => children,
        _ => {
            assert(widget_children(seq![], None) =~= Seq::<int>::empty());
            return out;
        },
    };
    let ctx = SourceContext {
        key: String::from_str("fragment"),
        html_path: String::new(),
        labels: KeyedMap::new(),
        text_bindings: KeyedMap::new(),
    };
    assert(ctx.html_path@ =~= Seq::<char>::empty());
    proof {
        reveal_strlit("fragment");
    }
    let mut j: usize = 0;
    while j < children.len()
        invariant
            j <= children@.len(),
            children@ == node_children(*body),
            ctx.key@ == "fragment"@,
            ctx.labels.entries_spec() == Seq::<(Seq<char>, Seq<char>)>::empty(),
            ctx.html_path@ == Seq::<char>::empty(),
            ctx.text_bindings.entries_spec() == Seq::<(Seq<char>, (Seq<char>, Seq<Seq<char>>))>::empty(),
            pools_have_room(p0, forest_size(children@)),
            pools_grown_by(p0, pools.view_pools(), forest_size(children@.take(j as int))),
            callbacks_total(absolute_existing, max_size),
            fragment_nodes(out@, children@.take(j as int), "fragment"@, seq![], Seq::<char>::empty(), seq![], size_answers(*max_size)),
        decreases children.len() - j,
    {
        proof {
            lemma_forest_prefix(children@, j as int);
            lemma_forest_prefix_le(children@, j + 1);
            lemma_room_after(
                p0,
                pools.view_pools(),
                forest_size(children@.take(j as int)),
                node_size(children@[j as int]),
            );
        }
        let ghost before = pools.view_pools();
        let digits = text::u128_to_chars(j as u128);
        let path = text::chars_to_string(&digits);
        let parsed = parse_html_node(
            &children[j],
            &ctx,
            path.as_str(),
            pools,
            absolute_existing,
            max_size,
        );
        proof {
            lemma_grown_trans(
                p0,
                before,
                pools.view_pools(),
                forest_size(children@.take(j as int)),
                node_size(children@[j as int]),
            );
        }
        let ghost old_out = out@;
        proof {
            let t = children@.take(j + 1);
            assert(t.drop_last() =~= children@.take(j as int));
            assert(t.last() == children@[j as int]);
            assert forall|k: int| 0 <= k < old_out.len() implies {
                let i = #[trigger] widget_children(children@.take(j as int), None)[k];
                &&& 0 <= i < t.len()
                &&& parsed_node(old_out[k], t[i], "fragment"@, seq![], Seq::<char>::empty(), seq![], size_answers(*max_size), fragment_path(i))
            } by {
                let i = widget_children(children@.take(j as int), None)[k];
                assert(t[i] == children@.take(j as int)[i]);
            }
        }
        match parsed {
            Some(n) => {
                out.push(n);
                proof {
                    assert(path@ == fragment_path(j as int));
                    let t = children@.take(j + 1);
                    assert(widget_children(t, None) == widget_children(
                        children@.take(j as int),
                        None,
                    ).push(j as int));
                    assert forall|k: int| 0 <= k < out@.len() implies {
                        let i = #[trigger] widget_children(t, None)[k];
                        &&& 0 <= i < t.len()
                        &&& parsed_node(out@[k], t[i], "fragment"@, seq![], Seq::<char>::empty(), seq![], size_answers(*max_size), fragment_path(i))
                    } by {
                        if k < old_out.len() {
                            assert(out@[k] == old_out[k]);
                        }
                    }
                }
            },
            None => {
                proof {
                    let t = children@.take(j + 1);
                    assert(widget_children(t, None) == widget_children(
                        children@.take(j as int),
                        None,
                    ));
                }
            },
        }
        j = j + 1;
    }
    assert(children@.take(children@.len() as int) =~= children@);
    out
}

/// What building a fragment whose body is `body` gives, with the pools
/// `before` and `after` the build: `None`, with the pools untouched, when
/// the body holds more elements than every pool has fresh identifiers left;
/// otherwise the nodes of its children (`fragment_nodes`).
pub open spec fn fragment_outcome(
    r: Option<Vec<HtmlWidgetNode>>,
    body: ChildNode,
    before: Seq<PoolV>,
    after: Seq<PoolV>,
    sizes: spec_fn(Seq<char>, Option<u64>) -> bool,
) -> bool {
    &&& (r is None <==> !pools_have_room(before, forest_size(node_children(body))))
    &&& r is None ==> after == before
    &&& r is Some ==> fragment_nodes(r->0@, node_children(body), "fragment"@, seq![], Seq::<char>::empty(), seq![], sizes)
        && pools_grown_by(before, after, forest_size(node_children(body)))
}

/// `fragment_outcome` for the document node of the primary one of the
/// bodies `bs`.
pub open spec fn primary_fragment_outcome(
    bs: Seq<(RawNode, usize)>,
    r: Option<Vec<HtmlWidgetNode>>,
    before: Seq<PoolV>,
    after: Seq<PoolV>,
    sizes: spec_fn(Seq<char>, Option<u64>) -> bool,
) -> bool {
    forall|k: int|
        is_primary(sizes_of(bs), k) ==> exists|b: ChildNode|
            read_as(#[trigger] bs[k].0, b) && fragment_outcome(r, b, before, after, sizes)
}

/// The top-level nodes of an HTML fragment: no nodes without a body;
/// otherwise `fragment_outcome` for the primary body (`primary_body`) of
/// the document the parser builds for it.
pub fn parse_html_fragment<E: Fn(&str) -> bool, M: Fn(&str) -> Option<u64>>(
    html: &str,
    pools: &mut WidgetIdPools,
    absolute_existing: &E,
    max_size: &M,
) -> (r: Option<Vec<HtmlWidgetNode>>)
    requires
        old(pools).view_pools().len() == WIDGET_KIND_COUNT,
        callbacks_total(absolute_existing, max_size),
    ensures
        final(pools).view_pools().len() == WIDGET_KIND_COUNT,
        parsed_bodies(html@).len() == 0 ==> (r matches Some(v) && v@.len() == 0
            && final(pools).view_pools() == old(pools).view_pools()),
        primary_fragment_outcome(
            parsed_bodies(html@),
            r,
            old(pools).view_pools(),
            final(pools).view_pools(),
            size_answers(*max_size),
        ),
{
    let ghost bs = parsed_bodies(html@);
    let ghost p0 = pools.view_pools();
    let body = match primary_body(html) {
        Some(b) => b,
        None => {
            let v: Vec<HtmlWidgetNode> = Vec::new();
            proof {
                assert(sizes_of(bs).len() == 0);
                assert(primary_fragment_outcome(bs, Some(v), p0, pools.view_pools(), size_answers(*max_size)));
            }
            return Some(v);
        },
    };
    let room = pools.room();
    let fits = match &body {
        ChildNode::Element { children, .. } => {
            assert(node_children(body) == children@);
            match forest_size_exec(children) {
                Some(n) => {
                    if n > room {
                        proof {
                            let i = choose|i: int|
                                0 <= i < WIDGET_KIND_COUNT && #[trigger] p0[i].next + room
                                    == usize::MAX;
                            assert(p0[i].next + forest_size(node_children(body)) > usize::MAX);
                        }
                        false
                    } else {
                        true
                    }
                },
                None => {
                    proof {
                        assert(p0[0].next + forest_size(node_children(body)) > usize::MAX);
                    }
                    false
                },
            }
        },
        _ => {
            assert(node_children(body) =~= Seq::<ChildNode>::empty());
            assert(forest_size(Seq::<ChildNode>::empty()) == 0);
            true
        },
    };
    assert(fits <==> pools_have_room(p0, forest_size(node_children(body))));
    let r = if fits {
        Some(parse_html_fragment_of(&body, pools, absolute_existing, max_size))
    } else {
        None
    };
    proof {
        assert(fragment_outcome(r, body, p0, pools.view_pools(), size_answers(*max_size)));
        assert forall|k: int| is_primary(sizes_of(bs), k) implies exists|b: ChildNode|
            read_as(#[trigger] bs[k].0, b) && fragment_outcome(r, b, p0, pools.view_pools(), size_answers(*max_size)) by {
            assert(read_as(bs[k].0, body));
        }
        assert(primary_fragment_outcome(bs, r, p0, pools.view_pools(), size_answers(*max_size)));
    }
    r
}

// ---------------------------------------------------------------------------
// Walking the tree
// ---------------------------------------------------------------------------

/// The identifiers of `nodes` and their descendants, each node before its
/// children, in order.
pub open spec fn tree_ids(nodes: Seq<HtmlWidgetNode>) -> Seq<HtmlID>
    decreases nodes,
{
    if nodes.len() == 0 {
        seq![]
    } else {
        tree_ids(nodes.drop_last()) + seq![nodes.last().id] + tree_ids(nodes.last().children@)
    }
}

/// Appends the identifiers of `nodes` and their descendants to `ids`
/// (`tree_ids`).
#[verifier::loop_isolation(false)]
pub fn collect_html_ids(nodes: &Vec<HtmlWidgetNode>, ids: &mut Vec<HtmlID>)
    ensures
        final(ids)@ == old(ids)@ + tree_ids(nodes@),
    decreases nodes,
{
    let ghost start = ids@;
    let mut i: usize = 0;
    while i < nodes.len()
        invariant
            i <= nodes@.len(),
            ids@ == start + tree_ids(nodes@.take(i as int)),
        decreases nodes.len() - i,
    {
        assert(nodes@.take(i + 1).drop_last() =~= nodes@.take(i as int));
        assert(nodes@.take(i + 1).last() == nodes@[i as int]);
        ids.push(nodes[i].id);
        proof {
            assert(decreases_to!(nodes => nodes@[i as int].children));
        }
        collect_html_ids(&nodes[i].children, ids);
        assert(ids@ =~= start + tree_ids(nodes@.take(i + 1)));
        i = i + 1;
    }
    assert(nodes@.take(nodes@.len() as int) =~= nodes@);
}

/// Identifiers of two forests agree when their nodes agree one by one, each
/// with its own identifier and those of its descendants.
proof fn lemma_tree_ids_pointwise(r1: Seq<HtmlWidgetNode>, r2: Seq<HtmlWidgetNode>)
    requires
        r1.len() == r2.len(),
        forall|k: int|
            0 <= k < r1.len() ==> #[trigger] r1[k].id == r2[k].id && tree_ids(r1[k].children@)
                == tree_ids(r2[k].children@),
    ensures
        tree_ids(r1) == tree_ids(r2),
    decreases r1.len(),
{
    if r1.len() > 0 {
        let d1 = r1.drop_last();
        let d2 = r2.drop_last();
        assert forall|k: int| 0 <= k < d1.len() implies #[trigger] d1[k].id == d2[k].id && tree_ids(
            d1[k].children@,
        ) == tree_ids(d2[k].children@) by {
            assert(d1[k] == r1[k]);
            assert(d2[k] == r2[k]);
        }
        lemma_tree_ids_pointwise(d1, d2);
        assert(r1.last() == r1[r1.len() - 1]);
        assert(r2.last() == r2[r2.len() - 1]);
    }
}

/// The identifiers of the trees built for `children` under the same key at
/// the same path agree.
proof fn lemma_children_ids(
    r1: Seq<HtmlWidgetNode>,
    r2: Seq<HtmlWidgetNode>,
    children: Seq<ChildNode>,
    except: Option<Seq<char>>,
    key: Seq<char>,
    labels1: Seq<(Seq<char>, Seq<char>)>,
    page1: Seq<char>,
    bindings1: Seq<(Seq<char>, (Seq<char>, Seq<Seq<char>>))>,
    sizes1: spec_fn(Seq<char>, Option<u64>) -> bool,
    labels2: Seq<(Seq<char>, Seq<char>)>,
    page2: Seq<char>,
    bindings2: Seq<(Seq<char>, (Seq<char>, Seq<Seq<char>>))>,
    sizes2: spec_fn(Seq<char>, Option<u64>) -> bool,
    path: Seq<char>,
)
    requires
        children_nodes(r1, children, except, key, labels1, page1, bindings1, sizes1, path),
        children_nodes(r2, children, except, key, labels2, page2, bindings2, sizes2, path),
    ensures
        tree_ids(r1) == tree_ids(r2),
    decreases forest_size(children), 1nat,
{
    lemma_forest_elem(children);
    assert forall|k: int| 0 <= k < r1.len() implies #[trigger] r1[k].id == r2[k].id && tree_ids(
        r1[k].children@,
    ) == tree_ids(r2[k].children@) by {
        let i = widget_children(children, except)[k];
        law_tree_ids_follow_element_key_and_path(
            r1[k],
            r2[k],
            children[i],
            key,
            labels1,
            page1,
            bindings1,
            sizes1,
            labels2,
            page2,
            bindings2,
            sizes2,
            child_path_of(path, i),
        );
    }
    lemma_tree_ids_pointwise(r1, r2);
}

/// The identifiers of the trees built for a field set's `children` under
/// the same key at the same path agree.
proof fn lemma_fieldset_ids(
    r1: Seq<HtmlWidgetNode>,
    r2: Seq<HtmlWidgetNode>,
    children: Seq<ChildNode>,
    allow_none1: bool,
    allow_none2: bool,
    key: Seq<char>,
    labels1: Seq<(Seq<char>, Seq<char>)>,
    page1: Seq<char>,
    bindings1: Seq<(Seq<char>, (Seq<char>, Seq<Seq<char>>))>,
    sizes1: spec_fn(Seq<char>, Option<u64>) -> bool,
    labels2: Seq<(Seq<char>, Seq<char>)>,
    page2: Seq<char>,
    bindings2: Seq<(Seq<char>, (Seq<char>, Seq<Seq<char>>))>,
    sizes2: spec_fn(Seq<char>, Option<u64>) -> bool,
    path: Seq<char>,
)
    requires
        fieldset_nodes(r1, children, allow_none1, key, labels1, page1, bindings1, sizes1, path),
        fieldset_nodes(r2, children, allow_none2, key, labels2, page2, bindings2, sizes2, path),
    ensures
        tree_ids(r1) == tree_ids(r2),
    decreases forest_size(children), 1nat,
{
    lemma_forest_elem(children);
    let w = widget_children(children, Some("radio"@));
    let rp = positions_named(children, "radio"@);
    assert forall|k: int| 0 <= k < r1.len() implies #[trigger] r1[k].id == r2[k].id && tree_ids(
        r1[k].children@,
    ) == tree_ids(r2[k].children@) by {
        if k < w.len() {
            let i = w[k];
            law_tree_ids_follow_element_key_and_path(
                r1[k],
                r2[k],
                children[i],
                key,
                labels1,
                page1,
                bindings1,
                sizes1,
                labels2,
                page2,
                bindings2,
                sizes2,
                child_path_of(path, i),
            );
        } else {
            let m = k - w.len();
            assert(r1[w.len() + m] == r1[k]);
            assert(r2[w.len() + m] == r2[k]);
            assert(r1[k].children@ =~= Seq::<HtmlWidgetNode>::empty());
            assert(r2[k].children@ =~= Seq::<HtmlWidgetNode>::empty());
        }
    }
    lemma_tree_ids_pointwise(r1, r2);
}

/// The identifiers of two cell trees built for the same cell element under
/// the same key at the same path agree.
proof fn lemma_cell_ids(
    n1: HtmlWidgetNode,
    n2: HtmlWidgetNode,
    cell: ChildNode,
    key: Seq<char>,
    labels1: Seq<(Seq<char>, Seq<char>)>,
    page1: Seq<char>,
    bindings1: Seq<(Seq<char>, (Seq<char>, Seq<Seq<char>>))>,
    sizes1: spec_fn(Seq<char>, Option<u64>) -> bool,
    labels2: Seq<(Seq<char>, Seq<char>)>,
    page2: Seq<char>,
    bindings2: Seq<(Seq<char>, (Seq<char>, Seq<Seq<char>>))>,
    sizes2: spec_fn(Seq<char>, Option<u64>) -> bool,
    path: Seq<char>,
)
    requires
        cell_content(n1, cell, key, labels1, page1, bindings1, sizes1, path),
        cell_content(n2, cell, key, labels2, page2, bindings2, sizes2, path),
    ensures
        n1.id == n2.id,
        tree_ids(n1.children@) == tree_ids(n2.children@),
    decreases node_size(cell), 2nat,
{
    lemma_element_measures(cell);
    if let ChildNode::Element { children, .. } = cell {
        lemma_children_ids(
            n1.children@,
            n2.children@,
            children@,
            None,
            key,
            labels1,
            page1,
            bindings1,
            sizes1,
            labels2,
            page2,
            bindings2,
            sizes2,
            path,
        );
    }
}

/// The identifiers of the cell trees of a table agree.
proof fn lemma_cells_ids(
    r1: Seq<HtmlWidgetNode>,
    r2: Seq<HtmlWidgetNode>,
    rows: Seq<(TableSection, Seq<ChildNode>)>,
    key: Seq<char>,
    labels1: Seq<(Seq<char>, Seq<char>)>,
    page1: Seq<char>,
    bindings1: Seq<(Seq<char>, (Seq<char>, Seq<Seq<char>>))>,
    sizes1: spec_fn(Seq<char>, Option<u64>) -> bool,
    labels2: Seq<(Seq<char>, Seq<char>)>,
    page2: Seq<char>,
    bindings2: Seq<(Seq<char>, (Seq<char>, Seq<Seq<char>>))>,
    sizes2: spec_fn(Seq<char>, Option<u64>) -> bool,
    path: Seq<char>,
)
    requires
        r1.len() == table_cell_nodes(rows).len(),
        r2.len() == table_cell_nodes(rows).len(),
        cells_content(r1, rows, key, labels1, page1, bindings1, sizes1, path),
        cells_content(r2, rows, key, labels2, page2, bindings2, sizes2, path),
    ensures
        tree_ids(r1) == tree_ids(r2),
    decreases forest_size(table_cell_nodes(rows)), 3nat,
{
    lemma_forest_elem(table_cell_nodes(rows));
    assert forall|k: int| 0 <= k < r1.len() implies #[trigger] r1[k].id == r2[k].id && tree_ids(
        r1[k].children@,
    ) == tree_ids(r2[k].children@) by {
        assert(table_cell_nodes(rows)[k] == table_cell_nodes(rows)[k]);
        lemma_cell_ids(
            r1[k],
            r2[k],
            table_cell_nodes(rows)[k],
            key,
            labels1,
            page1,
            bindings1,
            sizes1,
            labels2,
            page2,
            bindings2,
            sizes2,
            table_cell_paths(rows, path)[k],
        );
    }
    lemma_tree_ids_pointwise(r1, r2);
}

/// Identifiers are stable at every depth: the trees built for one element
/// at one path under one source key carry the same identifiers at every
/// position, node before children, whatever labels and byte limits each
/// build saw. None of them comes from a counter.
pub proof fn law_tree_ids_follow_element_key_and_path(
    n1: HtmlWidgetNode,
    n2: HtmlWidgetNode,
    c: ChildNode,
    key: Seq<char>,
    labels1: Seq<(Seq<char>, Seq<char>)>,
    page1: Seq<char>,
    bindings1: Seq<(Seq<char>, (Seq<char>, Seq<Seq<char>>))>,
    sizes1: spec_fn(Seq<char>, Option<u64>) -> bool,
    labels2: Seq<(Seq<char>, Seq<char>)>,
    page2: Seq<char>,
    bindings2: Seq<(Seq<char>, (Seq<char>, Seq<Seq<char>>))>,
    sizes2: spec_fn(Seq<char>, Option<u64>) -> bool,
    path: Seq<char>,
)
    requires
        parsed_node(n1, c, key, labels1, page1, bindings1, sizes1, path),
        parsed_node(n2, c, key, labels2, page2, bindings2, sizes2, path),
    ensures
        n1.id == n2.id,
        tree_ids(n1.children@) == tree_ids(n2.children@),
        tree_ids(seq![n1]) == tree_ids(seq![n2]),
    decreases node_size(c), 0nat,
{
    lemma_element_measures(c);
    reveal_strlit("body");
    reveal_strlit("div");
    reveal_strlit("form");
    reveal_strlit("td");
    reveal_strlit("th");
    reveal_strlit("fieldset");
    reveal_strlit("table");
    if let ChildNode::Element { name, attrs, children, .. } = c {
        let t = name@;
        if t == "fieldset"@ {
            lemma_fieldset_ids(
                n1.children@,
                n2.children@,
                children@,
                attr_v(attrs.entries_spec(), "allow-none"@) == Some("true"@),
                attr_v(attrs.entries_spec(), "allow-none"@) == Some("true"@),
                key,
                labels1,
                page1,
                bindings1,
                sizes1,
                labels2,
                page2,
                bindings2,
                sizes2,
                path,
            );
        } else if t == "table"@ {
            lemma_grid_len(table_rows(children@));
            lemma_cells_ids(
                n1.children@,
                n2.children@,
                table_rows(children@),
                key,
                labels1,
                page1,
                bindings1,
                sizes1,
                labels2,
                page2,
                bindings2,
                sizes2,
                path,
            );
        } else if t == "body"@ || t == "div"@ || t == "form"@ || t == "td"@ || t == "th"@ {
            lemma_children_ids(
                n1.children@,
                n2.children@,
                children@,
                None,
                key,
                labels1,
                page1,
                bindings1,
                sizes1,
                labels2,
                page2,
                bindings2,
                sizes2,
                path,
            );
        } else {
            assert(n1.children@ =~= Seq::<HtmlWidgetNode>::empty());
            assert(n2.children@ =~= Seq::<HtmlWidgetNode>::empty());
        }
        let s1 = seq![n1];
        let s2 = seq![n2];
        assert(s1.drop_last() =~= Seq::<HtmlWidgetNode>::empty());
        assert(s2.drop_last() =~= Seq::<HtmlWidgetNode>::empty());
        assert(s1.last() == n1);
        assert(s2.last() == n2);
    }
}

// ---------------------------------------------------------------------------
// Reading a widget node
// ---------------------------------------------------------------------------

/// The kinds of widget the builder spawns for a node.
#[derive(Clone, Copy, Debug, PartialEq, Eq, Structural)]
pub enum HtmlNodeKindDiscriminant {
    Body,
    Div,
    Form,
    Table,
    TableCell,
    Divider,
    Button,
    CheckBox,
    ColorPicker,
    ChoiceBox,
    DatePicker,
    FieldSet,
    Headline,
    HyperLink,
    Img,
    Input,
    Paragraph,
    ToolTip,
    Badge,
    ProgressBar,
    RadioButton,
    Scrollbar,
    Slider,
    SwitchButton,
    ToggleButton,
    ListBox,
}

/// The kind of a node, kept beside a spawned widget so that a rebuilt tree
/// can tell whether the widget still fits its node.
#[derive(Clone, Copy, Debug, PartialEq, Eq, Structural)]
pub struct HtmlNodeKind {
    pub discriminant: HtmlNodeKindDiscriminant,
}

/// The kind of widget `w` is; a numeric widget's kind comes from its tag.
pub open spec fn kind_of(w: NodeWidget) -> HtmlNodeKindDiscriminant {
    match w {
        NodeWidget::Body(_) => HtmlNodeKindDiscriminant::Body,
        NodeWidget::Div(_) => HtmlNodeKindDiscriminant::Div,
        NodeWidget::Form(_) => HtmlNodeKindDiscriminant::Form,
        NodeWidget::Table(_) => HtmlNodeKindDiscriminant::Table,
        NodeWidget::TableCell(_) => HtmlNodeKindDiscriminant::TableCell,
        NodeWidget::Divider(_) => HtmlNodeKindDiscriminant::Divider,
        NodeWidget::Button(_) => HtmlNodeKindDiscriminant::Button,
        NodeWidget::CheckBox(_) => HtmlNodeKindDiscriminant::CheckBox,
        NodeWidget::ChoiceBox(_) => HtmlNodeKindDiscriminant::ChoiceBox,
        NodeWidget::DatePicker(_) => HtmlNodeKindDiscriminant::DatePicker,
        NodeWidget::FieldSet(_) => HtmlNodeKindDiscriminant::FieldSet,
        NodeWidget::Headline(_) => HtmlNodeKindDiscriminant::Headline,
        NodeWidget::HyperLink(_) => HtmlNodeKindDiscriminant::HyperLink,
        NodeWidget::Img(_) => HtmlNodeKindDiscriminant::Img,
        NodeWidget::Input(_) => HtmlNodeKindDiscriminant::Input,
        NodeWidget::Paragraph(_) => HtmlNodeKindDiscriminant::Paragraph,
        NodeWidget::ToolTip(_) => HtmlNodeKindDiscriminant::ToolTip,
        NodeWidget::Badge(_) => HtmlNodeKindDiscriminant::Badge,
        NodeWidget::RadioButton(_) => HtmlNodeKindDiscriminant::RadioButton,
        NodeWidget::SwitchButton(_) => HtmlNodeKindDiscriminant::SwitchButton,
        NodeWidget::ToggleButton(_) => HtmlNodeKindDiscriminant::ToggleButton,
        NodeWidget::ListBox(_) => HtmlNodeKindDiscriminant::ListBox,
        NodeWidget::Numeric(t, _) => if t@ == "colorpicker"@ {
            HtmlNodeKindDiscriminant::ColorPicker
        } else if t@ == "progressbar"@ {
            HtmlNodeKindDiscriminant::ProgressBar
        } else if t@ == "scroll"@ {
            HtmlNodeKindDiscriminant::Scrollbar
        } else {
            HtmlNodeKindDiscriminant::Slider
        },
    }
}

/// Widgets that hold the nodes of their children: body, div, form, field
/// set, table and table cell.
pub open spec fn container_widget(w: NodeWidget) -> bool {
    w is Body || w is Div || w is Form || w is FieldSet || w is Table || w is TableCell
}

/// The children of a container node; `None` for any other widget.
pub fn get_node_children(node: &HtmlWidgetNode) -> (r: Option<&Vec<HtmlWidgetNode>>)
    ensures
        r is Some <==> container_widget(node.widget),
        r is Some ==> *r->0 == node.children,
{
    match &node.widget {
        NodeWidget::Body(_) | NodeWidget::Div(_) | NodeWidget::Form(_) | NodeWidget::FieldSet(_)
        | NodeWidget::Table(_) | NodeWidget::TableCell(_) => Some(&node.children),
        _ => None,
    }
}

/// The stable identifier of a node.
pub fn get_node_id(node: &HtmlWidgetNode) -> (r: &HtmlID)
    ensures
        *r == node.id,
{
    &node.id
}

/// The kind of a node (`kind_of` its widget).
pub fn get_node_kind(node: &HtmlWidgetNode) -> (r: HtmlNodeKind)
    ensures
        r.discriminant == kind_of(node.widget),
{
    let discriminant = match &node.widget {
        NodeWidget::Body(_) => HtmlNodeKindDiscriminant::Body,
        NodeWidget::Div(_) => HtmlNodeKindDiscriminant::Div,
        NodeWidget::Form(_) => HtmlNodeKindDiscriminant::Form,
        NodeWidget::Table(_) => HtmlNodeKindDiscriminant::Table,
        NodeWidget::TableCell(_) => HtmlNodeKindDiscriminant::TableCell,
        NodeWidget::Divider(_) => HtmlNodeKindDiscriminant::Divider,
        NodeWidget::Button(_) => HtmlNodeKindDiscriminant::Button,
        NodeWidget::CheckBox(_) => HtmlNodeKindDiscriminant::CheckBox,
        NodeWidget::ChoiceBox(_) => HtmlNodeKindDiscriminant::ChoiceBox,
        NodeWidget::DatePicker(_) => HtmlNodeKindDiscriminant::DatePicker,
        NodeWidget::FieldSet(_) => HtmlNodeKindDiscriminant::FieldSet,
        NodeWidget::Headline(_) => HtmlNodeKindDiscriminant::Headline,
        NodeWidget::HyperLink(_) => HtmlNodeKindDiscriminant::HyperLink,
        NodeWidget::Img(_) => HtmlNodeKindDiscriminant::Img,
        NodeWidget::Input(_) => HtmlNodeKindDiscriminant::Input,
        NodeWidget::Paragraph(_) => HtmlNodeKindDiscriminant::Paragraph,
        NodeWidget::ToolTip(_) => HtmlNodeKindDiscriminant::ToolTip,
        NodeWidget::Badge(_) => HtmlNodeKindDiscriminant::Badge,
        NodeWidget::RadioButton(_) => HtmlNodeKindDiscriminant::RadioButton,
        NodeWidget::SwitchButton(_) => HtmlNodeKindDiscriminant::SwitchButton,
        NodeWidget::ToggleButton(_) => HtmlNodeKindDiscriminant::ToggleButton,
        NodeWidget::ListBox(_) => HtmlNodeKindDiscriminant::ListBox,
        NodeWidget::Numeric(t, _) => {
            let tv = text::str_to_chars(t.as_str());
            if text::chars_eq_str(&tv, "colorpicker") {
                HtmlNodeKindDiscriminant::ColorPicker
            } else if text::chars_eq_str(&tv, "progressbar") {
                HtmlNodeKindDiscriminant::ProgressBar
            } else if text::chars_eq_str(&tv, "scroll") {
                HtmlNodeKindDiscriminant::Scrollbar
            } else {
                HtmlNodeKindDiscriminant::Slider
            }
        },
    };
    HtmlNodeKind { discriminant }
}

/// Whether a spawned widget of kind `existing` still fits `node`.
pub fn existing_node_kind_matches(node: &HtmlWidgetNode, existing: HtmlNodeKind) -> (r: bool)
    ensures
        r <==> existing.discriminant == kind_of(node.widget),
{
    existing == get_node_kind(node)
}

/// Whether `node` is a date picker bound to an input (`for`), which the
/// builder moves next to that input.
pub fn is_bound_date_picker_node(node: &HtmlWidgetNode) -> (r: bool)
    ensures
        r <==> (node.widget matches NodeWidget::DatePicker(d) && d.for_id is Some),
{
    match &node.widget {
        NodeWidget::DatePicker(d) => d.for_id.is_some(),
        _ => false,
    }
}

/// Whether the builder spawns `node` somewhere other than under its parent:
/// bound date pickers are.
pub fn is_relocated_widget_node(node: &HtmlWidgetNode) -> (r: bool)
    ensures
        r <==> (node.widget matches NodeWidget::DatePicker(d) && d.for_id is Some),
{
    is_bound_date_picker_node(node)
}

// ---------------------------------------------------------------------------
// Text bindings that can be patched in place
// ---------------------------------------------------------------------------

/// The text of an element that holds `{{...}}` placeholders, and those
/// placeholders, so that a change of bound values can be patched into the
/// text without parsing the template again.
pub struct HtmlTextBinding {
    pub template: String,
    pub bindings: Vec<String>,
}

impl View for HtmlTextBinding {
    type V = (Seq<char>, Seq<Seq<char>>);

    open spec fn view(&self) -> (Seq<char>, Seq<Seq<char>>) {
        (self.template@, self.bindings@.map_values(|b: String| b@))
    }
}

/// Tags whose text can be patched in place: paragraphs, buttons, headings.
pub open spec fn patchable_text_tag(t: Seq<char>) -> bool {
    t == "p"@ || t == "button"@ || heading_tag(t)
}

/// The placeholders of a text, each once, in order (`extract_inner_bindings`).
pub open spec fn text_placeholders(t: Seq<char>) -> Seq<Seq<char>> {
    render::unique_in_order(render::bindings_from(t, 0))
}

/// The text bindings of `node`, at `path`, and of its descendants, each
/// element before its children: (path, (text, placeholders)) for each
/// patchable element whose text holds a placeholder; a child's path is its
/// parent's, a dot and its index among all child nodes.
pub open spec fn text_bindings_of(node: ChildNode, path: Seq<char>) -> Seq<
    (Seq<char>, (Seq<char>, Seq<Seq<char>>)),
>
    decreases node, 0nat,
{
    match node {
        ChildNode::Element { name, attrs, text, children, .. } => {
            let here = if patchable_text_tag(name@) && text_placeholders(text@).len() > 0 {
                seq![(path, (text@, text_placeholders(text@)))]
            } else {
                seq![]
            };
            here + children_text_bindings(children@, path, children@.len())
        },
        _ => seq![],
    }
}

/// The text bindings of the first `n` of `children` of the node at `path`.
pub open spec fn children_text_bindings(children: Seq<ChildNode>, path: Seq<char>, n: nat) -> Seq<
    (Seq<char>, (Seq<char>, Seq<Seq<char>>)),
>
    decreases children, n,
{
    if n == 0 || n > children.len() {
        seq![]
    } else {
        children_text_bindings(children, path, (n - 1) as nat) + text_bindings_of(
            children[n - 1],
            child_path_of(path, n - 1),
        )
    }
}

/// `m` with `items` inserted one after another.
pub open spec fn insert_all<V>(m: Seq<(Seq<char>, V)>, items: Seq<(Seq<char>, V)>) -> Seq<
    (Seq<char>, V),
>
    decreases items.len(),
{
    if items.len() == 0 {
        m
    } else {
        keyed::sorted_insert(insert_all(m, items.drop_last()), items.last().0, items.last().1)
    }
}

proof fn lemma_insert_all_append<V>(
    m: Seq<(Seq<char>, V)>,
    a: Seq<(Seq<char>, V)>,
    b: Seq<(Seq<char>, V)>,
)
    ensures
        insert_all(m, a + b) == insert_all(insert_all(m, a), b),
    decreases b.len(),
{
    if b.len() == 0 {
        assert(a + b =~= a);
    } else {
        lemma_insert_all_append(m, a, b.drop_last());
        assert((a + b).drop_last() =~= a + b.drop_last());
        assert((a + b).last() == b.last());
    }
}

/// Adds the text bindings of `node` (at `path`) and its descendants to
/// `out`, each by its path (`text_bindings_of`).
#[verifier::loop_isolation(false)]
pub fn collect_text_bindings_by_path_inner(
    node: &ChildNode,
    path: &str,
    out: &mut KeyedMap<HtmlTextBinding>,
)
    ensures
        final(out).entries_spec() == insert_all(old(out).entries_spec(), text_bindings_of(*node, path@)),
    decreases node,
{
    match node {
        ChildNode::Element { name, attrs, text, children, .. } => {
            let ghost here: Seq<(Seq<char>, (Seq<char>, Seq<Seq<char>>))> =
                if patchable_text_tag(name@) && text_placeholders(text@).len() > 0 {
                seq![(path@, (text@, text_placeholders(text@)))]
            } else {
                seq![]
            };
            let ghost start = out.entries_spec();
            let tag = text::str_to_chars(name.as_str());
            let patchable = text::chars_eq_str(&tag, "p") || text::chars_eq_str(&tag, "button")
                || text::chars_eq_str(&tag, "h1") || text::chars_eq_str(&tag, "h2")
                || text::chars_eq_str(&tag, "h3") || text::chars_eq_str(&tag, "h4")
                || text::chars_eq_str(&tag, "h5") || text::chars_eq_str(&tag, "h6");
            if patchable {
                let bindings = render::extract_inner_bindings(text.as_str());
                if bindings.len() > 0 {
                    let b = HtmlTextBinding { template: String::from_str(text.as_str()), bindings };
                    out.insert(path, b);
                    proof {
                        assert(insert_all(start, here) == keyed::sorted_insert(
                            insert_all(start, here.drop_last()),
                            here.last().0,
                            here.last().1,
                        ));
                        assert(here.drop_last() =~= Seq::<(Seq<char>, (Seq<char>, Seq<Seq<char>>))>::empty());
                    }
                }
            }
            assert(out.entries_spec() == insert_all(start, here));
            let mut i: usize = 0;
            while i < children.len()
                invariant
                    i <= children@.len(),
                    out.entries_spec() == insert_all(
                        start,
                        here + children_text_bindings(children@, path@, i as nat),
                    ),
                decreases children.len() - i,
            {
                proof {
                    assert(decreases_to!(node => children@[i as int]));
                }
                let cp = child_path(path, i);
                collect_text_bindings_by_path_inner(&children[i], cp.as_str(), out);
                proof {
                    let prev = here + children_text_bindings(children@, path@, i as nat);
                    let item = text_bindings_of(children@[i as int], child_path_of(path@, i as int));
                    lemma_insert_all_append(start, prev, item);
                    assert(children_text_bindings(children@, path@, (i + 1) as nat)
                        == children_text_bindings(children@, path@, i as nat) + item);
                    assert(prev + item =~= here + children_text_bindings(
                        children@,
                        path@,
                        (i + 1) as nat,
                    ));
                }
                i = i + 1;
            }
        },
        _ => {
            assert(insert_all(out.entries_spec(), text_bindings_of(*node, path@)) == out.entries_spec());
        },
    }
}

/// The text bindings of a document's body, by path, the body at path `0`.
pub fn collect_text_bindings_by_path(body_node: &ChildNode) -> (r: KeyedMap<HtmlTextBinding>)
    ensures
        r.entries_spec() == insert_all(seq![], text_bindings_of(*body_node, "0"@)),
{
    let mut out: KeyedMap<HtmlTextBinding> = KeyedMap::new();
    collect_text_bindings_by_path_inner(body_node, "0", &mut out);
    out
}

/// The placeholder lists of text binding entries, in entry order.
pub open spec fn binding_lists(e: Seq<(Seq<char>, (Seq<char>, Seq<Seq<char>>))>) -> Seq<
    Seq<Seq<char>>,
> {
    Seq::new(e.len(), |i: int| e[i].1.1)
}

/// A template's text bindings by path and its binding profile.
pub struct HtmlTemplateBindingAnalysis {
    pub text_bindings: KeyedMap<HtmlTextBinding>,
    pub profile: html::HtmlTemplateBindingProfile,
}

fn copy_strings(v: &Vec<String>) -> (r: Vec<String>)
    ensures
        Seq::new(r@.len(), |j: int| r@[j]@) == v@.map_values(|b: String| b@),
{
    let mut r: Vec<String> = Vec::new();
    let mut i: usize = 0;
    while i < v.len()
        invariant
            i <= v.len(),
            r@.len() == i,
            forall|j: int| 0 <= j < i ==> #[trigger] r@[j]@ == v@[j]@,
        decreases v.len() - i,
    {
        r.push(String::from_str(v[i].as_str()));
        i = i + 1;
    }
    assert(Seq::new(r@.len(), |j: int| r@[j]@) =~= v@.map_values(|b: String| b@));
    r
}

/// The analysis of a localized template whose document body, if it has
/// one, is `body`: the body's text bindings (`text_bindings_of` at path
/// `0`, none without a body) and the profile those bindings and the
/// template give (`build_template_binding_profile`).
pub fn analyze_template_bindings_of(template: &str, body: Option<&ChildNode>) -> (r:
    HtmlTemplateBindingAnalysis)
    ensures
        r.text_bindings.entries_spec() == match body {
            Some(b) => insert_all(seq![], text_bindings_of(*b, "0"@)),
            None => seq![],
        },
        html::str_set(r.profile.text_roots@) == html::all_roots(
            binding_lists(r.text_bindings.entries_spec()),
        ),
        html::str_set(r.profile.unpatchable_roots@) == html::unpatchable(
            text_placeholders(template@),
            html::all_bindings(binding_lists(r.text_bindings.entries_spec())),
        ),
        r.profile.force_reparse_on_value_change == (json::has_substring(template@, "@if"@)
            || json::has_substring(template@, "@for"@)),
{
    let text_bindings = match body {
        Some(b) => collect_text_bindings_by_path(b),
        None => KeyedMap::new(),
    };
    let ghost es = text_bindings.entries_spec();
    let mut lists: Vec<Vec<String>> = Vec::new();
    let n = text_bindings.len();
    let mut i: usize = 0;
    while i < n
        invariant
            i <= n,
            n == es.len(),
            es == text_bindings.entries_spec(),
            lists@.len() == i,
            forall|k: int| 0 <= k < i ==> #[trigger] html::lists_view(lists@)[k] == es[k].1.1,
        decreases n - i,
    {
        let v = text_bindings.value_at(i);
        let copy = copy_strings(&v.bindings);
        let ghost before = lists@;
        lists.push(copy);
        proof {
            assert forall|k: int| 0 <= k < i + 1 implies #[trigger] html::lists_view(
                lists@,
            )[k] == es[k].1.1 by {
                if k < i {
                    assert(html::lists_view(lists@)[k] == html::lists_view(
                        before,
                    )[k]);
                }
            }
        }
        i = i + 1;
    }
    assert(html::lists_view(lists@) =~= binding_lists(es));
    let profile = html::build_template_binding_profile(template, &lists);
    HtmlTemplateBindingAnalysis { text_bindings, profile }
}

/// The text bindings found in the primary one of the bodies `bs`
/// (`text_bindings_of` at path `0`); none without a body.
pub open spec fn primary_text_bindings(
    bs: Seq<(RawNode, usize)>,
    e: Seq<(Seq<char>, (Seq<char>, Seq<Seq<char>>))>,
) -> bool {
    &&& bs.len() == 0 ==> e == Seq::<(Seq<char>, (Seq<char>, Seq<Seq<char>>))>::empty()
    &&& forall|k: int|
        is_primary(sizes_of(bs), k) ==> exists|b: ChildNode|
            read_as(#[trigger] bs[k].0, b) && e == body_text_bindings(b)
}

proof fn lemma_primary_text_bindings(
    bs: Seq<(RawNode, usize)>,
    b: ChildNode,
    e: Seq<(Seq<char>, (Seq<char>, Seq<Seq<char>>))>,
)
    requires
        bs.len() != 0,
        forall|k: int| is_primary(sizes_of(bs), k) ==> read_as(#[trigger] bs[k].0, b),
        e == body_text_bindings(b),
    ensures
        primary_text_bindings(bs, e),
{
    assert forall|k: int| is_primary(sizes_of(bs), k) implies exists|b2: ChildNode|
        read_as(#[trigger] bs[k].0, b2) && e == body_text_bindings(b2) by {
        assert(read_as(bs[k].0, b));
    }
}

/// The text bindings of a document body, by path, the body at path `0`.
pub open spec fn body_text_bindings(b: ChildNode) -> Seq<(Seq<char>, (Seq<char>, Seq<Seq<char>>))> {
    insert_all(seq![], text_bindings_of(b, "0"@))
}

/// The analysis of a localized template (`analyze_template_bindings_of`
/// with the primary body of the document the parser builds for it, none
/// without a body): the text bindings of that body and the profile they and
/// the template give.
pub fn analyze_template_bindings(template: &str) -> (r: HtmlTemplateBindingAnalysis)
    ensures
        primary_text_bindings(parsed_bodies(template@), r.text_bindings.entries_spec()),
        html::str_set(r.profile.text_roots@) == html::all_roots(
            binding_lists(r.text_bindings.entries_spec()),
        ),
        html::str_set(r.profile.unpatchable_roots@) == html::unpatchable(
            text_placeholders(template@),
            html::all_bindings(binding_lists(r.text_bindings.entries_spec())),
        ),
        r.profile.force_reparse_on_value_change == (json::has_substring(template@, "@if"@)
            || json::has_substring(template@, "@for"@)),
{
    let ghost bs = parsed_bodies(template@);
    let body = primary_body(template);
    match &body {
        Some(b) => {
            let r = analyze_template_bindings_of(template, Some(b));
            proof {
                assert(forall|k: int| is_primary(sizes_of(bs), k) ==> read_as(#[trigger] bs[k].0, *b));
                lemma_primary_text_bindings(bs, *b, r.text_bindings.entries_spec());
            }
            r
        },
        None => {
            let r = analyze_template_bindings_of(template, None);
            proof {
                assert(sizes_of(bs).len() == 0);
                assert(primary_text_bindings(bs, r.text_bindings.entries_spec()));
            }
            r
        },
    }
}

} // verus!
