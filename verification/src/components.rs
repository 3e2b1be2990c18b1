//! Widget data: the kinds of widget, one identifier pool per kind, and the
//! fields every widget starts with.
use vstd::prelude::*;
use crate::registry;
use crate::registry::{IdPool, PoolV, acquire_spec, release_spec};
use crate::text;
use crate::widgets::{
    BadgeAnchor, ButtonType, DateFormat, DividerAlignment, FieldMode, FormValidationMode,
    HeadlineType, HyperLinkBrowsers, InputCap, InputType, ToolTipAlignment, ToolTipPriority,
    ToolTipTrigger, ToolTipVariant,
};
use crate::html::TableSection;

verus! {

// ---------------------------------------------------------------------------
// Widget kinds and identifiers
// ---------------------------------------------------------------------------

/// The kinds of widget, each with identifiers of its own.
#[derive(Debug, Clone, Copy, PartialEq, Eq, Structural)]
pub enum WidgetKind {
    Body,
    Button,
    ColorPicker,
    CheckBox,
    ChoiceBox,
    DatePicker,
    Div,
    Divider,
    Form,
    Table,
    TableCell,
    FieldSet,
    Headline,
    HyperLink,
    Img,
    InputField,
    Paragraph,
    ToolTip,
    Badge,
    ProgressBar,
    RadioButton,
    Scrollbar,
    Slider,
    SwitchButton,
    ToggleButton,
    ListBox,
}

/// How many kinds of widget there are.
pub const WIDGET_KIND_COUNT: usize = 26;

/// The position of a kind's pool among the pools.
pub open spec fn kind_index(k: WidgetKind) -> int {
    match k {
        WidgetKind::Body => 0,
        WidgetKind::Button => 1,
        WidgetKind::ColorPicker => 2,
        WidgetKind::CheckBox => 3,
        WidgetKind::ChoiceBox => 4,
        WidgetKind::DatePicker => 5,
        WidgetKind::Div => 6,
        WidgetKind::Divider => 7,
        WidgetKind::Form => 8,
        WidgetKind::Table => 9,
        WidgetKind::TableCell => 10,
        WidgetKind::FieldSet => 11,
        WidgetKind::Headline => 12,
        WidgetKind::HyperLink => 13,
        WidgetKind::Img => 14,
        WidgetKind::InputField => 15,
        WidgetKind::Paragraph => 16,
        WidgetKind::ToolTip => 17,
        WidgetKind::Badge => 18,
        WidgetKind::ProgressBar => 19,
        WidgetKind::RadioButton => 20,
        WidgetKind::Scrollbar => 21,
        WidgetKind::Slider => 22,
        WidgetKind::SwitchButton => 23,
        WidgetKind::ToggleButton => 24,
        WidgetKind::ListBox => 25,
    }
}

impl WidgetKind {
    /// The position of this kind's pool (`kind_index`).
    pub fn pool_index(&self) -> (r: usize)
        ensures
            r == kind_index(*self),
            r < WIDGET_KIND_COUNT,
    {
        match self {
            WidgetKind::Body => 0,
            WidgetKind::Button => 1,
            WidgetKind::ColorPicker => 2,
            WidgetKind::CheckBox => 3,
            WidgetKind::ChoiceBox => 4,
            WidgetKind::DatePicker => 5,
            WidgetKind::Div => 6,
            WidgetKind::Divider => 7,
            WidgetKind::Form => 8,
            WidgetKind::Table => 9,
            WidgetKind::TableCell => 10,
            WidgetKind::FieldSet => 11,
            WidgetKind::Headline => 12,
            WidgetKind::HyperLink => 13,
            WidgetKind::Img => 14,
            WidgetKind::InputField => 15,
            WidgetKind::Paragraph => 16,
            WidgetKind::ToolTip => 17,
            WidgetKind::Badge => 18,
            WidgetKind::ProgressBar => 19,
            WidgetKind::RadioButton => 20,
            WidgetKind::Scrollbar => 21,
            WidgetKind::Slider => 22,
            WidgetKind::SwitchButton => 23,
            WidgetKind::ToggleButton => 24,
            WidgetKind::ListBox => 25,
        }
    }
}

/// A widget's identifier within its kind.
#[derive(Debug, Clone, Copy, PartialEq, Eq, Structural)]
pub struct WidgetId {
    pub id: usize,
    pub kind: WidgetKind,
}

/// Identifier of a UI node, unique among the nodes alive.
#[derive(Debug, Clone, Copy, PartialEq, Eq, Structural)]
pub struct UIGenID(usize);

impl UIGenID {
    /// A node identifier taken from `pool`.
    pub fn new(pool: &mut IdPool) -> (r: Self)
        requires
            registry::can_acquire(old(pool).view_pool()),
        ensures
            (final(pool).view_pool(), r.get() as nat) == acquire_spec(old(pool).view_pool()),
    {
        UIGenID(pool.acquire())
    }

    /// The identifier (as a specification).
    pub closed spec fn spec_get(&self) -> usize {
        self.0
    }

    /// The identifier.
    #[verifier::when_used_as_spec(spec_get)]
    pub fn get(&self) -> (r: usize)
        ensures
            r == self.spec_get(),
    {
        self.0
    }
}

/// Binds a UI node to the widget with this identifier.
#[derive(Debug, Clone, Copy, PartialEq, Eq, Structural)]
pub struct BindToID(pub usize);

impl BindToID {
    /// The identifier of the widget bound to.
    pub fn get(&self) -> (r: usize)
        ensures
            r == self.0,
    {
        self.0
    }
}

// ---------------------------------------------------------------------------
// One identifier pool per widget kind
// ---------------------------------------------------------------------------

/// An identifier pool for each widget kind.
pub struct WidgetIdPools {
    pools: Vec<IdPool>,
}

/// The pools after an identifier of kind `k` was acquired: that kind's pool
/// moved on as `acquire_spec` says, the others unchanged.
pub open spec fn pools_after_acquire(p: Seq<PoolV>, k: WidgetKind) -> Seq<PoolV> {
    p.update(kind_index(k), acquire_spec(p[kind_index(k)]).0)
}

/// The identifier acquired for kind `k`.
pub open spec fn acquired_id(p: Seq<PoolV>, k: WidgetKind) -> usize {
    acquire_spec(p[kind_index(k)]).1 as usize
}

/// Whether kind `k` can hand out an identifier: one was released, or a
/// fresh one fits in `usize`.
pub open spec fn kind_can_acquire(p: Seq<PoolV>, k: WidgetKind) -> bool {
    registry::can_acquire(p[kind_index(k)])
}

impl WidgetIdPools {
    /// The state of each kind's pool, by `kind_index`.
    pub closed spec fn view_pools(&self) -> Seq<PoolV> {
        Seq::new(self.pools@.len(), |i: int| self.pools@[i].view_pool())
    }

    /// Every kind's pool empty.
    pub fn new() -> (r: Self)
        ensures
            r.view_pools().len() == WIDGET_KIND_COUNT,
            forall|i: int|
                0 <= i < WIDGET_KIND_COUNT ==> #[trigger] r.view_pools()[i] == (PoolV {
                    next: 0,
                    free: Seq::empty(),
                }),
    {
        let mut pools: Vec<IdPool> = Vec::new();
        let mut i: usize = 0;
        while i < WIDGET_KIND_COUNT
            invariant
                i <= WIDGET_KIND_COUNT,
                pools@.len() == i,
                forall|j: int|
                    0 <= j < i ==> #[trigger] pools@[j].view_pool() == (PoolV {
                        next: 0,
                        free: Seq::empty(),
                    }),
            decreases WIDGET_KIND_COUNT - i,
        {
            pools.push(IdPool::new());
            i = i + 1;
        }
        WidgetIdPools { pools }
    }

    /// Hands out an identifier for a widget of kind `kind`.
    pub fn acquire(&mut self, kind: WidgetKind) -> (id: usize)
        requires
            old(self).view_pools().len() == WIDGET_KIND_COUNT,
            kind_can_acquire(old(self).view_pools(), kind),
        ensures
            final(self).view_pools() == pools_after_acquire(old(self).view_pools(), kind),
            id == acquired_id(old(self).view_pools(), kind),
    {
        let i = kind.pool_index();
        let ghost before = self.view_pools();
        let id = self.pools[i].acquire();
        assert(self.view_pools() =~= pools_after_acquire(before, kind));
        id
    }

    /// The fewest fresh identifiers any kind's pool has left.
    pub fn room(&self) -> (r: usize)
        requires
            self.view_pools().len() == WIDGET_KIND_COUNT,
        ensures
            forall|i: int|
                0 <= i < WIDGET_KIND_COUNT ==> #[trigger] self.view_pools()[i].next + r <= usize::MAX,
            exists|i: int|
                0 <= i < WIDGET_KIND_COUNT && #[trigger] self.view_pools()[i].next + r == usize::MAX,
    {
        let mut least: usize = usize::MAX;
        let mut i: usize = 0;
        while i < self.pools.len()
            invariant
                i <= self.pools@.len(),
                self.pools@.len() == WIDGET_KIND_COUNT,
                forall|j: int|
                    0 <= j < i ==> #[trigger] self.view_pools()[j].next + least <= usize::MAX,
                i == 0 ==> least == usize::MAX,
                i > 0 ==> exists|j: int|
                    0 <= j < i && #[trigger] self.view_pools()[j].next + least == usize::MAX,
            decreases self.pools.len() - i,
        {
            let next = self.pools[i].next_fresh();
            let left = usize::MAX - next;
            if left < least {
                least = left;
                assert(self.view_pools()[i as int].next + least == usize::MAX);
            } else if i == 0 {
                assert(self.view_pools()[0].next + least == usize::MAX);
            }
            i = i + 1;
        }
        least
    }

    /// Returns a widget's identifier to its kind's pool.
    pub fn release(&mut self, widget: WidgetId)
        requires
            old(self).view_pools().len() == WIDGET_KIND_COUNT,
        ensures
            final(self).view_pools() == old(self).view_pools().update(
                kind_index(widget.kind),
                release_spec(old(self).view_pools()[kind_index(widget.kind)], widget.id),
            ),
    {
        let i = widget.kind.pool_index();
        let ghost before = self.view_pools();
        self.pools[i].release(widget.id);
        assert(self.view_pools() =~= before.update(
            kind_index(widget.kind),
            release_spec(before[kind_index(widget.kind)], widget.id),
        ));
    }
}


/// The pools after returning each of `ws` to its kind's pool, in order.
pub open spec fn pools_after_releases(p: Seq<PoolV>, ws: Seq<WidgetId>) -> Seq<PoolV>
    decreases ws.len(),
{
    if ws.len() == 0 {
        p
    } else {
        let q = pools_after_releases(p, ws.drop_last());
        let w = ws.last();
        q.update(kind_index(w.kind), release_spec(q[kind_index(w.kind)], w.id))
    }
}

/// A pool after each of `ids` was released, in order.
pub open spec fn pool_after_releases(p: PoolV, ids: Seq<usize>) -> PoolV
    decreases ids.len(),
{
    if ids.len() == 0 {
        p
    } else {
        release_spec(pool_after_releases(p, ids.drop_last()), ids.last())
    }
}

/// Returns the identifiers of despawned widgets: each node identifier in
/// `gen_ids` to `ui_pool`, then each widget identifier in `widgets` to its
/// kind's pool, in order.
pub fn despawn_widget_ids(
    ui_pool: &mut IdPool,
    pools: &mut WidgetIdPools,
    gen_ids: &Vec<UIGenID>,
    widgets: &Vec<WidgetId>,
)
    requires
        old(pools).view_pools().len() == WIDGET_KIND_COUNT,
    ensures
        final(ui_pool).view_pool() == pool_after_releases(
            old(ui_pool).view_pool(),
            gen_ids@.map_values(|g: UIGenID| g.spec_get()),
        ),
        final(pools).view_pools() == pools_after_releases(old(pools).view_pools(), widgets@),
{
    let ghost ids = gen_ids@.map_values(|g: UIGenID| g.spec_get());
    let mut i: usize = 0;
    while i < gen_ids.len()
        invariant
            i <= gen_ids@.len(),
            ids == gen_ids@.map_values(|g: UIGenID| g.spec_get()),
            ui_pool.view_pool() == pool_after_releases(
                old(ui_pool).view_pool(),
                ids.take(i as int),
            ),
        decreases gen_ids.len() - i,
    {
        ui_pool.release(gen_ids[i].get());
        assert(ids.take(i + 1).drop_last() =~= ids.take(i as int));
        i = i + 1;
    }
    assert(ids.take(gen_ids@.len() as int) =~= ids);
    let mut j: usize = 0;
    while j < widgets.len()
        invariant
            j <= widgets@.len(),
            pools.view_pools() == pools_after_releases(
                old(pools).view_pools(),
                widgets@.take(j as int),
            ),
            pools.view_pools().len() == WIDGET_KIND_COUNT,
        decreases widgets.len() - j,
    {
        pools.release(widgets[j]);
        assert(widgets@.take(j + 1).drop_last() =~= widgets@.take(j as int));
        j = j + 1;
    }
    assert(widgets@.take(widgets@.len() as int) =~= widgets@);
}

/// Kinds keep separate identifiers: handing out an identifier of one kind
/// leaves every other kind's pool as it was.
pub proof fn law_kinds_independent(p: Seq<PoolV>, a: WidgetKind, b: WidgetKind)
    requires
        p.len() == WIDGET_KIND_COUNT,
        a != b,
    ensures
        pools_after_acquire(p, a)[kind_index(b)] == p[kind_index(b)],
        pools_after_acquire(p, a).len() == p.len(),
{
}

/// A despawned widget's identifier is reused: after returning it to a
/// kind's pool with nothing queued, the next widget of that kind gets it.
pub proof fn law_despawned_id_reused(p: Seq<PoolV>, w: WidgetId)
    requires
        p.len() == WIDGET_KIND_COUNT,
        p[kind_index(w.kind)].free.len() == 0,
    ensures
        acquired_id(pools_after_releases(p, seq![w]), w.kind) == w.id,
{
    let q = pools_after_releases(p, seq![w]);
    assert(seq![w].drop_last() =~= Seq::<WidgetId>::empty());
    assert(pools_after_releases(p, seq![w].drop_last()) == p);
    assert(q[kind_index(w.kind)].free =~= seq![w.id]);
}

// ---------------------------------------------------------------------------
// Widget data
// ---------------------------------------------------------------------------

/// View of an optional string.
pub open spec fn opt_str(o: Option<String>) -> Option<Seq<char>> {
    match o {
        Some(s) => Some(s@),
        None => None,
    }
}

/// Which side of its text a widget's icon sits on.
#[derive(Debug, Clone, Copy, PartialEq, Eq, Structural)]
pub enum IconPlace {
    /// Before the text (the default).
    Left,
    /// After the text.
    Right,
}

impl Default for IconPlace {
    fn default() -> (r: Self)
        ensures
            r == IconPlace::Left,
    {
        IconPlace::Left
    }
}

/// Marks a UI node as a widget, with the key of the HTML source it came
/// from, if any.
pub struct Widget(pub Option<String>);

/// The text value a date picker or input field holds.
pub struct InputValue(pub String);

/// The `<body>` root widget.
pub struct Body {
    pub entry: usize,
    pub html_key: Option<String>,
}

impl Body {
    /// A body with a fresh identifier of its kind and no source key.
    pub fn new(pools: &mut WidgetIdPools) -> (r: Self)
        requires
            old(pools).view_pools().len() == WIDGET_KIND_COUNT,
            kind_can_acquire(old(pools).view_pools(), WidgetKind::Body),
        ensures
            final(pools).view_pools() == pools_after_acquire(
                old(pools).view_pools(),
                WidgetKind::Body,
            ),
            r.entry == acquired_id(old(pools).view_pools(), WidgetKind::Body),
            r.html_key is None,
    {
        let entry = pools.acquire(WidgetKind::Body);
        Body { entry, html_key: None }
    }
}

/// A `<div>` container; the field is its identifier.
pub struct Div(pub usize);

impl Div {
    /// A container with a fresh identifier of its kind.
    pub fn new(pools: &mut WidgetIdPools) -> (r: Self)
        requires
            old(pools).view_pools().len() == WIDGET_KIND_COUNT,
            kind_can_acquire(old(pools).view_pools(), WidgetKind::Div),
        ensures
            final(pools).view_pools() == pools_after_acquire(
                old(pools).view_pools(),
                WidgetKind::Div,
            ),
            r.0 == acquired_id(old(pools).view_pools(), WidgetKind::Div),
    {
        Div(pools.acquire(WidgetKind::Div))
    }
}

/// A form: the handler its submit calls and when it validates.
pub struct Form {
    pub entry: usize,
    pub action: Option<String>,
    pub validate_mode: FormValidationMode,
}

impl Form {
    /// A form without handler that validates on submit.
    pub fn new(pools: &mut WidgetIdPools) -> (r: Self)
        requires
            old(pools).view_pools().len() == WIDGET_KIND_COUNT,
            kind_can_acquire(old(pools).view_pools(), WidgetKind::Form),
        ensures
            final(pools).view_pools() == pools_after_acquire(
                old(pools).view_pools(),
                WidgetKind::Form,
            ),
            r.entry == acquired_id(old(pools).view_pools(), WidgetKind::Form),
            r.action is None,
            r.validate_mode == FormValidationMode::Send,
    {
        let entry = pools.acquire(WidgetKind::Form);
        Form { entry, action: None, validate_mode: FormValidationMode::default() }
    }
}

/// A button with an optional icon.
pub struct Button {
    pub entry: usize,
    pub text: String,
    pub icon_place: IconPlace,
    pub icon_path: Option<String>,
    pub button_type: ButtonType,
}

impl Button {
    /// A button reading `Button`, without icon or type.
    pub fn new(pools: &mut WidgetIdPools) -> (r: Self)
        requires
            old(pools).view_pools().len() == WIDGET_KIND_COUNT,
            kind_can_acquire(old(pools).view_pools(), WidgetKind::Button),
        ensures
            final(pools).view_pools() == pools_after_acquire(
                old(pools).view_pools(),
                WidgetKind::Button,
            ),
            r.entry == acquired_id(old(pools).view_pools(), WidgetKind::Button),
            r.text@ == "Button"@,
            r.icon_place == IconPlace::Left,
            r.icon_path is None,
            r.button_type == ButtonType::Auto,
    {
        let entry = pools.acquire(WidgetKind::Button);
        Button {
            entry,
            text: String::from_str("Button"),
            icon_place: IconPlace::default(),
            icon_path: None,
            button_type: ButtonType::default(),
        }
    }
}

/// A checkbox with its label and state.
pub struct CheckBox {
    pub entry: usize,
    pub label: String,
    pub icon_path: Option<String>,
    pub checked: bool,
}

impl CheckBox {
    /// An unchecked box labelled `label` with the check-mark icon.
    pub fn new(pools: &mut WidgetIdPools) -> (r: Self)
        requires
            old(pools).view_pools().len() == WIDGET_KIND_COUNT,
            kind_can_acquire(old(pools).view_pools(), WidgetKind::CheckBox),
        ensures
            final(pools).view_pools() == pools_after_acquire(
                old(pools).view_pools(),
                WidgetKind::CheckBox,
            ),
            r.entry == acquired_id(old(pools).view_pools(), WidgetKind::CheckBox),
            r.label@ == "label"@,
            opt_str(r.icon_path) == Some("extended_ui/icons/check-mark.png"@),
            !r.checked,
    {
        let entry = pools.acquire(WidgetKind::CheckBox);
        CheckBox {
            entry,
            label: String::from_str("label"),
            icon_path: Some(String::from_str("extended_ui/icons/check-mark.png")),
            checked: false,
        }
    }
}

/// One option of a choice box or list box: its text, its value and an
/// optional icon.
pub struct ChoiceOption {
    pub text: String,
    pub value: Option<String>,
    pub icon_path: Option<String>,
}

/// View of a [`ChoiceOption`].
pub struct ChoiceV {
    pub text: Seq<char>,
    pub value: Option<Seq<char>>,
    pub icon_path: Option<Seq<char>>,
}

impl View for ChoiceOption {
    type V = ChoiceV;

    open spec fn view(&self) -> ChoiceV {
        ChoiceV { text: self.text@, value: opt_str(self.value), icon_path: opt_str(self.icon_path) }
    }
}

/// The option `ChoiceOption::new(t)` builds: text `t`, value `t` trimmed,
/// no icon.
pub open spec fn option_for(t: Seq<char>) -> ChoiceV {
    ChoiceV { text: t, value: Some(text::trim(t)), icon_path: None }
}

/// The placeholder option: `Please Select` with value `default`.
pub open spec fn placeholder_option() -> ChoiceV {
    ChoiceV { text: "Please Select"@, value: Some("default"@), icon_path: None }
}

impl ChoiceOption {
    /// The placeholder option (`placeholder_option`).
    pub fn placeholder() -> (r: Self)
        ensures
            r@ == placeholder_option(),
    {
        ChoiceOption {
            text: String::from_str("Please Select"),
            value: Some(String::from_str("default")),
            icon_path: None,
        }
    }

    /// An option showing `text` whose value is `text` trimmed.
    pub fn new(text: &str) -> (r: Self)
        ensures
            r@ == option_for(text@),
    {
        let chars = text::str_to_chars(text);
        let trimmed = text::trim_chars(&chars);
        ChoiceOption {
            text: String::from_str(text),
            value: Some(text::chars_to_string(&trimmed)),
            icon_path: None,
        }
    }

    /// The option with its value replaced by `value`.
    pub fn with_value(self, value: String) -> (r: Self)
        ensures
            r@ == (ChoiceV { value: Some(value@), ..self@ }),
    {
        ChoiceOption { value: Some(value), ..self }
    }

    /// The value, if the option has one.
    pub fn value_as_str(&self) -> (r: Option<&str>)
        ensures
            r.is_some() == self.value.is_some(),
            r.is_some() ==> r.unwrap()@ == self.value.unwrap()@,
    {
        match &self.value {
            Some(v) => Some(v.as_str()),
            None => None,
        }
    }
}

/// A drop-down choice box.
pub struct ChoiceBox {
    pub entry: usize,
    pub label: String,
    pub value: ChoiceOption,
    pub options: Vec<ChoiceOption>,
    pub icon_path: Option<String>,
}

impl ChoiceBox {
    /// A box labelled `select` offering and showing the placeholder option,
    /// with the drop-arrow icon.
    pub fn new(pools: &mut WidgetIdPools) -> (r: Self)
        requires
            old(pools).view_pools().len() == WIDGET_KIND_COUNT,
            kind_can_acquire(old(pools).view_pools(), WidgetKind::ChoiceBox),
        ensures
            final(pools).view_pools() == pools_after_acquire(
                old(pools).view_pools(),
                WidgetKind::ChoiceBox,
            ),
            r.entry == acquired_id(old(pools).view_pools(), WidgetKind::ChoiceBox),
            r.label@ == "select"@,
            r.value@ == placeholder_option(),
            r.options@.len() == 1,
            r.options@[0]@ == placeholder_option(),
            opt_str(r.icon_path) == Some("extended_ui/icons/drop-arrow.png"@),
    {
        let entry = pools.acquire(WidgetKind::ChoiceBox);
        let mut options: Vec<ChoiceOption> = Vec::new();
        options.push(ChoiceOption::placeholder());
        ChoiceBox {
            entry,
            label: String::from_str("select"),
            value: ChoiceOption::placeholder(),
            options,
            icon_path: Some(String::from_str("extended_ui/icons/drop-arrow.png")),
        }
    }
}

/// A list box showing all its options; `values` are the selected ones.
pub struct ListBox {
    pub entry: usize,
    pub options: Vec<ChoiceOption>,
    pub values: Vec<ChoiceOption>,
    pub multiselect: bool,
}

impl ListBox {
    /// A single-select list of `Option A`, `Option B` and `Option C`, none
    /// selected.
    pub fn new(pools: &mut WidgetIdPools) -> (r: Self)
        requires
            old(pools).view_pools().len() == WIDGET_KIND_COUNT,
            kind_can_acquire(old(pools).view_pools(), WidgetKind::ListBox),
        ensures
            final(pools).view_pools() == pools_after_acquire(
                old(pools).view_pools(),
                WidgetKind::ListBox,
            ),
            r.entry == acquired_id(old(pools).view_pools(), WidgetKind::ListBox),
            r.options@.len() == 3,
            r.options@[0]@ == option_for("Option A"@),
            r.options@[1]@ == option_for("Option B"@),
            r.options@[2]@ == option_for("Option C"@),
            r.values@.len() == 0,
            !r.multiselect,
    {
        let entry = pools.acquire(WidgetKind::ListBox);
        let mut options: Vec<ChoiceOption> = Vec::new();
        options.push(ChoiceOption::new("Option A"));
        options.push(ChoiceOption::new("Option B"));
        options.push(ChoiceOption::new("Option C"));
        ListBox { entry, options, values: Vec::new(), multiselect: false }
    }
}

/// A divider line.
pub struct Divider {
    pub entry: usize,
    pub alignment: DividerAlignment,
}

impl Divider {
    /// A vertical divider.
    pub fn new(pools: &mut WidgetIdPools) -> (r: Self)
        requires
            old(pools).view_pools().len() == WIDGET_KIND_COUNT,
            kind_can_acquire(old(pools).view_pools(), WidgetKind::Divider),
        ensures
            final(pools).view_pools() == pools_after_acquire(
                old(pools).view_pools(),
                WidgetKind::Divider,
            ),
            r.entry == acquired_id(old(pools).view_pools(), WidgetKind::Divider),
            r.alignment == DividerAlignment::Vertical,
    {
        let entry = pools.acquire(WidgetKind::Divider);
        Divider { entry, alignment: DividerAlignment::default() }
    }
}

/// What a field set groups.
#[derive(Debug, Clone, Copy, PartialEq, Eq, Structural)]
pub enum FieldKind {
    Radio,
    Toggle,
}

/// A field set grouping selectable children.
pub struct FieldSet {
    pub entry: usize,
    pub kind: Option<FieldKind>,
    pub field_mode: FieldMode,
    pub allow_none: bool,
}

impl FieldSet {
    /// A single-selection field set of no kind yet that needs a selection.
    pub fn new(pools: &mut WidgetIdPools) -> (r: Self)
        requires
            old(pools).view_pools().len() == WIDGET_KIND_COUNT,
            kind_can_acquire(old(pools).view_pools(), WidgetKind::FieldSet),
        ensures
            final(pools).view_pools() == pools_after_acquire(
                old(pools).view_pools(),
                WidgetKind::FieldSet,
            ),
            r.entry == acquired_id(old(pools).view_pools(), WidgetKind::FieldSet),
            r.kind is None,
            r.field_mode == FieldMode::Single,
            !r.allow_none,
    {
        let entry = pools.acquire(WidgetKind::FieldSet);
        FieldSet { entry, kind: None, field_mode: FieldMode::Single, allow_none: false }
    }
}

/// A headline of some level.
pub struct Headline {
    pub entry: usize,
    pub text: String,
    pub h_type: HeadlineType,
}

impl Headline {
    /// An `h3` headline reading `Headline`.
    pub fn new(pools: &mut WidgetIdPools) -> (r: Self)
        requires
            old(pools).view_pools().len() == WIDGET_KIND_COUNT,
            kind_can_acquire(old(pools).view_pools(), WidgetKind::Headline),
        ensures
            final(pools).view_pools() == pools_after_acquire(
                old(pools).view_pools(),
                WidgetKind::Headline,
            ),
            r.entry == acquired_id(old(pools).view_pools(), WidgetKind::Headline),
            r.text@ == "Headline"@,
            r.h_type == HeadlineType::H3,
    {
        let entry = pools.acquire(WidgetKind::Headline);
        Headline { entry, text: String::from_str("Headline"), h_type: HeadlineType::H3 }
    }
}

/// An image with its source, alternative text and the input it previews.
pub struct Img {
    pub entry: usize,
    pub src: Option<String>,
    pub alt: String,
    pub preview: Option<String>,
}

impl Img {
    /// An image without source, alternative text or preview.
    pub fn new(pools: &mut WidgetIdPools) -> (r: Self)
        requires
            old(pools).view_pools().len() == WIDGET_KIND_COUNT,
            kind_can_acquire(old(pools).view_pools(), WidgetKind::Img),
        ensures
            final(pools).view_pools() == pools_after_acquire(
                old(pools).view_pools(),
                WidgetKind::Img,
            ),
            r.entry == acquired_id(old(pools).view_pools(), WidgetKind::Img),
            r.src is None,
            r.alt@ == Seq::<char>::empty(),
            r.preview is None,
    {
        let entry = pools.acquire(WidgetKind::Img);
        Img { entry, src: None, alt: String::new(), preview: None }
    }
}

/// A date picker bound to an input, with its range and display format.
pub struct DatePicker {
    pub entry: usize,
    pub for_id: Option<String>,
    pub name: String,
    pub label: String,
    pub placeholder: String,
    pub value: String,
    pub min: Option<String>,
    pub max: Option<String>,
    pub format_pattern: Option<String>,
    pub format: DateFormat,
}

impl DatePicker {
    /// An unbound, empty picker labelled `Date`, month-day-year, no range.
    pub fn new(pools: &mut WidgetIdPools) -> (r: Self)
        requires
            old(pools).view_pools().len() == WIDGET_KIND_COUNT,
            kind_can_acquire(old(pools).view_pools(), WidgetKind::DatePicker),
        ensures
            final(pools).view_pools() == pools_after_acquire(
                old(pools).view_pools(),
                WidgetKind::DatePicker,
            ),
            r.entry == acquired_id(old(pools).view_pools(), WidgetKind::DatePicker),
            r.for_id is None,
            r.name@ == Seq::<char>::empty(),
            r.label@ == "Date"@,
            r.placeholder@ == Seq::<char>::empty(),
            r.value@ == Seq::<char>::empty(),
            r.min is None,
            r.max is None,
            r.format_pattern is None,
            r.format == DateFormat::MonthDayYear,
    {
        let entry = pools.acquire(WidgetKind::DatePicker);
        DatePicker {
            entry,
            for_id: None,
            name: String::new(),
            label: String::from_str("Date"),
            placeholder: String::new(),
            value: String::new(),
            min: None,
            max: None,
            format_pattern: None,
            format: DateFormat::default(),
        }
    }
}

/// A text input with its settings; the file settings apply to file inputs.
pub struct InputField {
    pub entry: usize,
    pub name: String,
    pub text: String,
    pub label: String,
    pub placeholder: String,
    pub cursor_position: usize,
    pub clear_after_focus_lost: bool,
    pub icon_path: Option<String>,
    pub input_type: InputType,
    pub date_format: Option<String>,
    pub folder: bool,
    pub extensions: Vec<String>,
    pub show_size: bool,
    pub max_size_bytes: Option<u64>,
    pub cap_text_at: InputCap,
}

impl InputField {
    /// An empty text input labelled `Label`, cursor at the start, no cap.
    pub fn new(pools: &mut WidgetIdPools) -> (r: Self)
        requires
            old(pools).view_pools().len() == WIDGET_KIND_COUNT,
            kind_can_acquire(old(pools).view_pools(), WidgetKind::InputField),
        ensures
            final(pools).view_pools() == pools_after_acquire(
                old(pools).view_pools(),
                WidgetKind::InputField,
            ),
            r.entry == acquired_id(old(pools).view_pools(), WidgetKind::InputField),
            r.name@ == Seq::<char>::empty(),
            r.text@ == Seq::<char>::empty(),
            r.label@ == "Label"@,
            r.placeholder@ == Seq::<char>::empty(),
            r.cursor_position == 0,
            !r.clear_after_focus_lost,
            r.icon_path is None,
            r.input_type == InputType::Text,
            r.date_format is None,
            !r.folder,
            r.extensions@.len() == 0,
            !r.show_size,
            r.max_size_bytes is None,
            r.cap_text_at == InputCap::NoCap,
    {
        let entry = pools.acquire(WidgetKind::InputField);
        InputField {
            entry,
            name: String::new(),
            text: String::new(),
            label: String::from_str("Label"),
            placeholder: String::new(),
            cursor_position: 0,
            clear_after_focus_lost: false,
            icon_path: None,
            input_type: InputType::default(),
            date_format: None,
            folder: false,
            extensions: Vec::new(),
            show_size: false,
            max_size_bytes: None,
            cap_text_at: InputCap::default(),
        }
    }
}

/// A hyperlink: its text, target and the browsers it opens in.
pub struct HyperLink {
    pub entry: usize,
    pub text: String,
    pub href: String,
    pub browsers: HyperLinkBrowsers,
    pub open_modal: bool,
}

impl HyperLink {
    /// An empty link opening in the system browser, without a modal.
    pub fn new(pools: &mut WidgetIdPools) -> (r: Self)
        requires
            old(pools).view_pools().len() == WIDGET_KIND_COUNT,
            kind_can_acquire(old(pools).view_pools(), WidgetKind::HyperLink),
        ensures
            final(pools).view_pools() == pools_after_acquire(
                old(pools).view_pools(),
                WidgetKind::HyperLink,
            ),
            r.entry == acquired_id(old(pools).view_pools(), WidgetKind::HyperLink),
            r.text@ == Seq::<char>::empty(),
            r.href@ == Seq::<char>::empty(),
            r.browsers is System,
            !r.open_modal,
    {
        let entry = pools.acquire(WidgetKind::HyperLink);
        HyperLink {
            entry,
            text: String::new(),
            href: String::new(),
            browsers: HyperLinkBrowsers::System,
            open_modal: false,
        }
    }
}

/// A paragraph of text.
pub struct Paragraph {
    pub entry: usize,
    pub text: String,
}

impl Paragraph {
    /// An empty paragraph.
    pub fn new(pools: &mut WidgetIdPools) -> (r: Self)
        requires
            old(pools).view_pools().len() == WIDGET_KIND_COUNT,
            kind_can_acquire(old(pools).view_pools(), WidgetKind::Paragraph),
        ensures
            final(pools).view_pools() == pools_after_acquire(
                old(pools).view_pools(),
                WidgetKind::Paragraph,
            ),
            r.entry == acquired_id(old(pools).view_pools(), WidgetKind::Paragraph),
            r.text@ == Seq::<char>::empty(),
    {
        let entry = pools.acquire(WidgetKind::Paragraph);
        Paragraph { entry, text: String::new() }
    }
}

/// A notification badge: its count, the largest count shown, its target
/// and corner.
pub struct Badge {
    pub entry: usize,
    pub value: u32,
    pub max: u32,
    pub for_id: Option<String>,
    pub anchor: BadgeAnchor,
}

impl Badge {
    /// A badge counting `0`, showing up to `99`, top right of its parent.
    pub fn new(pools: &mut WidgetIdPools) -> (r: Self)
        requires
            old(pools).view_pools().len() == WIDGET_KIND_COUNT,
            kind_can_acquire(old(pools).view_pools(), WidgetKind::Badge),
        ensures
            final(pools).view_pools() == pools_after_acquire(
                old(pools).view_pools(),
                WidgetKind::Badge,
            ),
            r.entry == acquired_id(old(pools).view_pools(), WidgetKind::Badge),
            r.value == 0,
            r.max == 99,
            r.for_id is None,
            r.anchor == BadgeAnchor::TopRight,
    {
        let entry = pools.acquire(WidgetKind::Badge);
        Badge { entry, value: 0, max: 99, for_id: None, anchor: BadgeAnchor::default() }
    }
}

/// A tooltip: its text, target, placement and what shows it.
pub struct ToolTip {
    pub entry: usize,
    pub text: String,
    pub for_id: Option<String>,
    pub variant: ToolTipVariant,
    pub prio: ToolTipPriority,
    pub alignment: ToolTipAlignment,
    pub trigger: Vec<ToolTipTrigger>,
}

impl ToolTip {
    /// An empty tooltip on its parent that follows the pointer, placed
    /// right and horizontally, shown on hover.
    pub fn new(pools: &mut WidgetIdPools) -> (r: Self)
        requires
            old(pools).view_pools().len() == WIDGET_KIND_COUNT,
            kind_can_acquire(old(pools).view_pools(), WidgetKind::ToolTip),
        ensures
            final(pools).view_pools() == pools_after_acquire(
                old(pools).view_pools(),
                WidgetKind::ToolTip,
            ),
            r.entry == acquired_id(old(pools).view_pools(), WidgetKind::ToolTip),
            r.text@ == Seq::<char>::empty(),
            r.for_id is None,
            r.variant == ToolTipVariant::Follow,
            r.prio == ToolTipPriority::Right,
            r.alignment == ToolTipAlignment::Horizontal,
            r.trigger@ == seq![ToolTipTrigger::Hover],
    {
        let entry = pools.acquire(WidgetKind::ToolTip);
        let mut trigger: Vec<ToolTipTrigger> = Vec::new();
        trigger.push(ToolTipTrigger::Hover);
        ToolTip {
            entry,
            text: String::new(),
            for_id: None,
            variant: ToolTipVariant::default(),
            prio: ToolTipPriority::default(),
            alignment: ToolTipAlignment::default(),
            trigger,
        }
    }
}

/// A radio button with its label, value and state.
pub struct RadioButton {
    pub entry: usize,
    pub label: String,
    pub value: Option<String>,
    pub selected: bool,
}

impl RadioButton {
    /// An unselected button labelled `label` with an empty value.
    pub fn new(pools: &mut WidgetIdPools) -> (r: Self)
        requires
            old(pools).view_pools().len() == WIDGET_KIND_COUNT,
            kind_can_acquire(old(pools).view_pools(), WidgetKind::RadioButton),
        ensures
            final(pools).view_pools() == pools_after_acquire(
                old(pools).view_pools(),
                WidgetKind::RadioButton,
            ),
            r.entry == acquired_id(old(pools).view_pools(), WidgetKind::RadioButton),
            r.label@ == "label"@,
            opt_str(r.value) == Some(Seq::<char>::empty()),
            !r.selected,
    {
        let entry = pools.acquire(WidgetKind::RadioButton);
        RadioButton { entry, label: String::from_str("label"), value: Some(String::new()), selected: false }
    }

    /// The button with its value replaced by `value`.
    pub fn with_value(self, value: String) -> (r: Self)
        ensures
            r.entry == self.entry,
            r.label@ == self.label@,
            opt_str(r.value) == Some(value@),
            r.selected == self.selected,
    {
        RadioButton { value: Some(value), ..self }
    }

    /// The value, if the button has one.
    pub fn value_as_str(&self) -> (r: Option<&str>)
        ensures
            r.is_some() == self.value.is_some(),
            r.is_some() ==> r.unwrap()@ == self.value.unwrap()@,
    {
        match &self.value {
            Some(v) => Some(v.as_str()),
            None => None,
        }
    }
}

/// A switch with a label and optional icon.
pub struct SwitchButton {
    pub entry: usize,
    pub label: String,
    pub icon: Option<String>,
    pub selected: bool,
}

impl SwitchButton {
    /// An unlabelled switch without icon, off.
    pub fn new(pools: &mut WidgetIdPools) -> (r: Self)
        requires
            old(pools).view_pools().len() == WIDGET_KIND_COUNT,
            kind_can_acquire(old(pools).view_pools(), WidgetKind::SwitchButton),
        ensures
            final(pools).view_pools() == pools_after_acquire(
                old(pools).view_pools(),
                WidgetKind::SwitchButton,
            ),
            r.entry == acquired_id(old(pools).view_pools(), WidgetKind::SwitchButton),
            r.label@ == Seq::<char>::empty(),
            r.icon is None,
            !r.selected,
    {
        let entry = pools.acquire(WidgetKind::SwitchButton);
        SwitchButton { entry, label: String::new(), icon: None, selected: false }
    }
}

/// A toggle button with label, value, icon and state.
pub struct ToggleButton {
    pub entry: usize,
    pub label: String,
    pub value: Option<String>,
    pub icon_place: IconPlace,
    pub icon_path: Option<String>,
    pub selected: bool,
}

impl ToggleButton {
    /// An unselected button labelled `label` with an empty value and no icon.
    pub fn new(pools: &mut WidgetIdPools) -> (r: Self)
        requires
            old(pools).view_pools().len() == WIDGET_KIND_COUNT,
            kind_can_acquire(old(pools).view_pools(), WidgetKind::ToggleButton),
        ensures
            final(pools).view_pools() == pools_after_acquire(
                old(pools).view_pools(),
                WidgetKind::ToggleButton,
            ),
            r.entry == acquired_id(old(pools).view_pools(), WidgetKind::ToggleButton),
            r.label@ == "label"@,
            opt_str(r.value) == Some(Seq::<char>::empty()),
            r.icon_place == IconPlace::Left,
            r.icon_path is None,
            !r.selected,
    {
        let entry = pools.acquire(WidgetKind::ToggleButton);
        ToggleButton {
            entry,
            label: String::from_str("label"),
            value: Some(String::new()),
            icon_place: IconPlace::default(),
            icon_path: None,
            selected: false,
        }
    }
}

/// A table and its number of columns.
pub struct Table {
    pub entry: usize,
    pub columns: usize,
}

impl Table {
    /// A table of no columns yet.
    pub fn new(pools: &mut WidgetIdPools) -> (r: Self)
        requires
            old(pools).view_pools().len() == WIDGET_KIND_COUNT,
            kind_can_acquire(old(pools).view_pools(), WidgetKind::Table),
        ensures
            final(pools).view_pools() == pools_after_acquire(
                old(pools).view_pools(),
                WidgetKind::Table,
            ),
            r.entry == acquired_id(old(pools).view_pools(), WidgetKind::Table),
            r.columns == 0,
    {
        let entry = pools.acquire(WidgetKind::Table);
        Table { entry, columns: 0 }
    }
}

/// A table cell: header or data, its section, row and column.
pub struct TableCell {
    pub entry: usize,
    pub header: bool,
    pub section: TableSection,
    pub row: usize,
    pub col: usize,
}

impl TableCell {
    /// A data cell of the body at row `0`, column `0`.
    pub fn new(pools: &mut WidgetIdPools) -> (r: Self)
        requires
            old(pools).view_pools().len() == WIDGET_KIND_COUNT,
            kind_can_acquire(old(pools).view_pools(), WidgetKind::TableCell),
        ensures
            final(pools).view_pools() == pools_after_acquire(
                old(pools).view_pools(),
                WidgetKind::TableCell,
            ),
            r.entry == acquired_id(old(pools).view_pools(), WidgetKind::TableCell),
            !r.header,
            r.section == TableSection::Body,
            r.row == 0,
            r.col == 0,
    {
        let entry = pools.acquire(WidgetKind::TableCell);
        TableCell { entry, header: false, section: TableSection::default(), row: 0, col: 0 }
    }
}

} // verus!
