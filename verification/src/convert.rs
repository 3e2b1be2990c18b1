//! The widget each HTML element describes: which of its attributes, text
//! and children set which fields. An element's attributes are given as a
//! map from lowercase name to value, its text as the text of all its
//! descendants.
use vstd::prelude::*;
use crate::text;
use crate::widgets;
use crate::widgets::{
    BadgeAnchor, ButtonType, DateFormat, FieldMode, FormValidationMode, HyperLinkBrowsers,
    InputType, ToolTipAlignment, ToolTipPriority, ToolTipTrigger, ToolTipVariant,
};
use crate::attrs;
use crate::elements;
use crate::elements::{ChildNode, icon_scan};
use crate::keyed;
use crate::keyed::KeyedMap;
use crate::components;
use crate::components::{
    WidgetIdPools, WidgetKind, WIDGET_KIND_COUNT, kind_can_acquire, pools_after_acquire,
    acquired_id, opt_str, Button, CheckBox, Form, Divider, FieldSet, Headline, Paragraph,
    HyperLink, Img, InputField, DatePicker, ToolTip, Badge, RadioButton, SwitchButton,
    ToggleButton, ChoiceOption, ChoiceV, ChoiceBox, ListBox, TableCell,
};
use crate::registry::PoolV;

verus! {

// ---------------------------------------------------------------------------
// Reading attributes
// ---------------------------------------------------------------------------

/// The value of attribute `name` among `a`.
pub open spec fn attr_v(a: Seq<(Seq<char>, Seq<char>)>, name: Seq<char>) -> Option<Seq<char>> {
    keyed::key_value(a, name)
}

/// The value of attribute `name`, or the empty text without it.
pub open spec fn attr_or_empty(a: Seq<(Seq<char>, Seq<char>)>, name: Seq<char>) -> Seq<char> {
    match attr_v(a, name) {
        Some(v) => v,
        None => seq![],
    }
}

/// The value of attribute `name` (`attr_v`).
pub fn attr<'a>(attrs: &'a KeyedMap<String>, name: &str) -> (r: Option<&'a str>)
    ensures
        elements::opt_str(r) == attr_v(attrs.entries_spec(), name@),
{
    let k = text::str_to_chars(name);
    match attrs.get(&k) {
        Some(v) => Some(v.as_str()),
        None => None,
    }
}

/// Whether the element carries attribute `name`.
pub fn has_attr(attrs: &KeyedMap<String>, name: &str) -> (r: bool)
    ensures
        r == attr_v(attrs.entries_spec(), name@) is Some,
{
    let k = text::str_to_chars(name);
    attrs.get(&k).is_some()
}

/// The value of attribute `name`, or the empty text (`attr_or_empty`).
fn attr_string(attrs: &KeyedMap<String>, name: &str) -> (r: String)
    ensures
        r@ == attr_or_empty(attrs.entries_spec(), name@),
{
    match attr(attrs, name) {
        Some(v) => String::from_str(v),
        None => {
            let e = String::new();
            assert(e@ =~= Seq::<char>::empty());
            e
        },
    }
}

/// `s` trimmed.
fn trimmed(s: &str) -> (r: String)
    ensures
        r@ == text::trim(s@),
{
    let c = text::str_to_chars(s);
    let t = text::trim_chars(&c);
    text::chars_to_string(&t)
}

/// The value of attribute `name`, kept when it is not empty.
pub open spec fn nonempty_attr(a: Seq<(Seq<char>, Seq<char>)>, name: Seq<char>) -> Option<
    Seq<char>,
> {
    match attr_v(a, name) {
        Some(v) => if v.len() == 0 {
            None
        } else {
            Some(v)
        },
        None => None,
    }
}

// ---------------------------------------------------------------------------
// Buttons, boxes and containers
// ---------------------------------------------------------------------------

/// The type a `type` attribute gives a button: what it names, else none.
pub open spec fn button_type_of(a: Seq<(Seq<char>, Seq<char>)>) -> ButtonType {
    match attr_v(a, "type"@) {
        Some(t) => match widgets::button_type(t) {
            Some(b) => b,
            None => ButtonType::Auto,
        },
        None => ButtonType::Auto,
    }
}

/// The fields `button_from_element` sets (all but the identifier).
pub open spec fn button_fields(
    r: Button,
    a: Seq<(Seq<char>, Seq<char>)>,
    text: Seq<char>,
    children: Seq<ChildNode>,
) -> bool {
    &&& r.text@ == text::trim(text)
    &&& opt_str(r.icon_path) == icon_scan(children).0
    &&& r.icon_place == icon_scan(children).1
    &&& r.button_type == button_type_of(a)
}

/// The button a `<button>` element describes: its text trimmed, the icon
/// among its children and on which side of the text it sits, and its type.
pub fn button_from_element(
    pools: &mut WidgetIdPools,
    attrs: &KeyedMap<String>,
    text: &str,
    children: &Vec<ChildNode>,
) -> (r: Button)
    requires
        old(pools).view_pools().len() == WIDGET_KIND_COUNT,
        kind_can_acquire(old(pools).view_pools(), WidgetKind::Button),
    ensures
        final(pools).view_pools() == pools_after_acquire(
            old(pools).view_pools(),
            WidgetKind::Button,
        ),
        r.entry == acquired_id(old(pools).view_pools(), WidgetKind::Button),
        button_fields(r, attrs.entries_spec(), text@, children@),
{
    let mut b = Button::new(pools);
    let (icon_path, icon_place) = elements::parse_icon_and_text(children);
    b.text = trimmed(text);
    b.icon_path = icon_path;
    b.icon_place = icon_place;
    b.button_type = match attr(attrs, "type") {
        Some(t) => match ButtonType::from_str(t) {
            Some(bt) => bt,
            None => ButtonType::default(),
        },
        None => ButtonType::default(),
    };
    b
}

/// The fields `checkbox_from_element` sets (all but the identifier).
pub open spec fn checkbox_fields(
    r: CheckBox,
    a: Seq<(Seq<char>, Seq<char>)>,
    text: Seq<char>,
) -> bool {
    &&& r.label@ == text::trim(text)
    &&& opt_str(r.icon_path) == attr_v(a, "icon"@)
    &&& !r.checked
}

/// The checkbox a `<checkbox>` element describes: its text trimmed as label
/// and its `icon` attribute as icon.
pub fn checkbox_from_element(pools: &mut WidgetIdPools, attrs: &KeyedMap<String>, text: &str) -> (r:
    CheckBox)
    requires
        old(pools).view_pools().len() == WIDGET_KIND_COUNT,
        kind_can_acquire(old(pools).view_pools(), WidgetKind::CheckBox),
    ensures
        final(pools).view_pools() == pools_after_acquire(
            old(pools).view_pools(),
            WidgetKind::CheckBox,
        ),
        r.entry == acquired_id(old(pools).view_pools(), WidgetKind::CheckBox),
        checkbox_fields(r, attrs.entries_spec(), text@),
{
    let mut c = CheckBox::new(pools);
    c.label = trimmed(text);
    c.icon_path = match attr(attrs, "icon") {
        Some(i) => Some(String::from_str(i)),
        None => None,
    };
    c
}

/// The handler a form submits to: its `action` attribute, else its
/// `onsubmit`, trimmed; none when blank.
pub open spec fn form_action(a: Seq<(Seq<char>, Seq<char>)>) -> Option<Seq<char>> {
    elements::trimmed_nonempty(
        match attr_v(a, "action"@) {
            Some(v) => Some(v),
            None => attr_v(a, "onsubmit"@),
        },
    )
}

/// When a form validates: what its `validate` attribute names, else on
/// submit.
pub open spec fn form_validate_mode(a: Seq<(Seq<char>, Seq<char>)>) -> FormValidationMode {
    match attr_v(a, "validate"@) {
        Some(v) => match widgets::form_validation_mode(v) {
            Some(m) => m,
            None => FormValidationMode::Send,
        },
        None => FormValidationMode::Send,
    }
}

/// The fields `form_from_element` sets (all but the identifier).
pub open spec fn form_fields(r: Form, a: Seq<(Seq<char>, Seq<char>)>) -> bool {
    &&& opt_str(r.action) == form_action(a)
    &&& r.validate_mode == form_validate_mode(a)
}

/// The form a `<form>` element describes (`form_action`,
/// `form_validate_mode`).
pub fn form_from_element(pools: &mut WidgetIdPools, attrs: &KeyedMap<String>) -> (r: Form)
    requires
        old(pools).view_pools().len() == WIDGET_KIND_COUNT,
        kind_can_acquire(old(pools).view_pools(), WidgetKind::Form),
    ensures
        final(pools).view_pools() == pools_after_acquire(old(pools).view_pools(), WidgetKind::Form),
        r.entry == acquired_id(old(pools).view_pools(), WidgetKind::Form),
        form_fields(r, attrs.entries_spec()),
{
    let mut f = Form::new(pools);
    let source = match attr(attrs, "action") {
        Some(v) => Some(v),
        None => attr(attrs, "onsubmit"),
    };
    f.action = elements::trimmed_nonempty_exec(source);
    f.validate_mode = match attr(attrs, "validate") {
        Some(v) => match FormValidationMode::from_str(v) {
            Some(m) => m,
            None => FormValidationMode::default(),
        },
        None => FormValidationMode::default(),
    };
    f
}

/// The fields `divider_from_element` sets (all but the identifier).
pub open spec fn divider_fields(r: Divider, a: Seq<(Seq<char>, Seq<char>)>) -> bool {
    &&& r.alignment == (match widgets::divider_alignment(
        match attr_v(a, "alignment"@) {
            Some(a) => a,
            None => "horizontal"@,
        },
    ) {
        Some(d) => d,
        None => widgets::DividerAlignment::Vertical,
    })
}

/// The divider a `<divider>` element describes: its `alignment` parsed
/// (horizontal without one), vertical when it does not parse.
pub fn divider_from_element(pools: &mut WidgetIdPools, attrs: &KeyedMap<String>) -> (r: Divider)
    requires
        old(pools).view_pools().len() == WIDGET_KIND_COUNT,
        kind_can_acquire(old(pools).view_pools(), WidgetKind::Divider),
    ensures
        final(pools).view_pools() == pools_after_acquire(
            old(pools).view_pools(),
            WidgetKind::Divider,
        ),
        r.entry == acquired_id(old(pools).view_pools(), WidgetKind::Divider),
        divider_fields(r, attrs.entries_spec()),
{
    let mut d = Divider::new(pools);
    d.alignment = elements::divider_alignment_attribute(attr(attrs, "alignment"));
    d
}

/// The selection mode a `mode` attribute names (single without one or when
/// it does not parse).
pub open spec fn fieldset_mode(a: Seq<(Seq<char>, Seq<char>)>) -> FieldMode {
    match widgets::field_mode(
        match attr_v(a, "mode"@) {
            Some(m) => m,
            None => "single"@,
        },
    ) {
        Some(m) => m,
        None => FieldMode::Single,
    }
}

/// The fields `fieldset_from_element` sets (all but the identifier).
pub open spec fn fieldset_fields(r: FieldSet, a: Seq<(Seq<char>, Seq<char>)>) -> bool {
    &&& r.allow_none == (attr_v(a, "allow-none"@) == Some("true"@))
    &&& r.field_mode == fieldset_mode(a)
    &&& r.kind is None
}

/// The field set a `<fieldset>` element describes: it allows no selection
/// when its `allow-none` attribute is exactly `true`, and takes the
/// selection mode of `fieldset_mode`.
pub fn fieldset_from_element(pools: &mut WidgetIdPools, attrs: &KeyedMap<String>) -> (r: FieldSet)
    requires
        old(pools).view_pools().len() == WIDGET_KIND_COUNT,
        kind_can_acquire(old(pools).view_pools(), WidgetKind::FieldSet),
    ensures
        final(pools).view_pools() == pools_after_acquire(
            old(pools).view_pools(),
            WidgetKind::FieldSet,
        ),
        r.entry == acquired_id(old(pools).view_pools(), WidgetKind::FieldSet),
        fieldset_fields(r, attrs.entries_spec()),
{
    let mut f = FieldSet::new(pools);
    f.allow_none = match attr(attrs, "allow-none") {
        Some(v) => {
            let c = text::str_to_chars(v);
            text::chars_eq_str(&c, "true")
        },
        None => false,
    };
    let mode = match attr(attrs, "mode") {
        Some(m) => m,
        None => "single",
    };
    f.field_mode = match FieldMode::from_str(mode) {
        Some(m) => m,
        None => FieldMode::Single,
    };
    f
}

/// The fields `headline_from_element` sets (all but the identifier).
pub open spec fn headline_fields(r: Headline, tag: Seq<char>, text: Seq<char>) -> bool {
    &&& r.text@ == text::trim(text)
    &&& r.h_type == elements::headline_level(tag)
}

/// The headline an `<h1>`..`<h6>` element describes: its level from the
/// tag and its text trimmed.
pub fn headline_from_element(pools: &mut WidgetIdPools, tag: &str, text: &str) -> (r: Headline)
    requires
        old(pools).view_pools().len() == WIDGET_KIND_COUNT,
        kind_can_acquire(old(pools).view_pools(), WidgetKind::Headline),
    ensures
        final(pools).view_pools() == pools_after_acquire(
            old(pools).view_pools(),
            WidgetKind::Headline,
        ),
        r.entry == acquired_id(old(pools).view_pools(), WidgetKind::Headline),
        headline_fields(r, tag@, text@),
{
    let mut h = Headline::new(pools);
    h.text = trimmed(text);
    h.h_type = elements::headline_type_for_tag(tag);
    h
}

/// The fields `paragraph_from_element` sets (all but the identifier).
pub open spec fn paragraph_fields(r: Paragraph, text: Seq<char>) -> bool {
    &&& r.text@ == text::trim(text)
}

/// The paragraph a `<p>` element describes: its text trimmed.
pub fn paragraph_from_element(pools: &mut WidgetIdPools, text: &str) -> (r: Paragraph)
    requires
        old(pools).view_pools().len() == WIDGET_KIND_COUNT,
        kind_can_acquire(old(pools).view_pools(), WidgetKind::Paragraph),
    ensures
        final(pools).view_pools() == pools_after_acquire(
            old(pools).view_pools(),
            WidgetKind::Paragraph,
        ),
        r.entry == acquired_id(old(pools).view_pools(), WidgetKind::Paragraph),
        paragraph_fields(r, text@),
{
    let mut p = Paragraph::new(pools);
    p.text = trimmed(text);
    p
}

// ---------------------------------------------------------------------------
// Links, images and inputs
// ---------------------------------------------------------------------------

/// The browsers a link's `browsers` attribute names; the system browser
/// without one.
pub open spec fn link_browsers(a: Seq<(Seq<char>, Seq<char>)>) -> Option<Seq<Seq<char>>> {
    match attr_v(a, "browsers"@) {
        Some(v) => widgets::hyperlink_browsers(v),
        None => None,
    }
}

/// The fields `hyperlink_from_element` sets (all but the identifier).
pub open spec fn hyperlink_fields(
    r: HyperLink,
    a: Seq<(Seq<char>, Seq<char>)>,
    text: Seq<char>,
) -> bool {
    &&& r.text@ == text::trim(text)
    &&& r.href@ == text::trim(attr_or_empty(a, "href"@))
    &&& r.open_modal == attrs::bool_attribute(attr_v(a, "open-modal"@))
    &&& widgets::browsers_view(r.browsers) == link_browsers(a)
}

/// The link an `<a>` element describes: its text trimmed, its `href`
/// trimmed, whether `open-modal` is set, and its browsers.
pub fn hyperlink_from_element(pools: &mut WidgetIdPools, attrs: &KeyedMap<String>, text: &str) -> (r:
    HyperLink)
    requires
        old(pools).view_pools().len() == WIDGET_KIND_COUNT,
        kind_can_acquire(old(pools).view_pools(), WidgetKind::HyperLink),
    ensures
        final(pools).view_pools() == pools_after_acquire(
            old(pools).view_pools(),
            WidgetKind::HyperLink,
        ),
        r.entry == acquired_id(old(pools).view_pools(), WidgetKind::HyperLink),
        hyperlink_fields(r, attrs.entries_spec(), text@),
{
    let mut h = HyperLink::new(pools);
    h.text = trimmed(text);
    let href = attr_string(attrs, "href");
    h.href = trimmed(href.as_str());
    h.open_modal = attrs::parse_bool_attribute(attr(attrs, "open-modal"));
    h.browsers = match attr(attrs, "browsers") {
        Some(raw) => match HyperLinkBrowsers::from_str(raw) {
            Some(b) => b,
            None => HyperLinkBrowsers::System,
        },
        None => HyperLinkBrowsers::System,
    };
    h
}

/// The fields `img_from_element` sets (all but the identifier).
pub open spec fn img_fields(
    r: Img,
    a: Seq<(Seq<char>, Seq<char>)>,
    html_path: Seq<char>,
    absolute_existing: bool,
) -> bool {
    &&& r.src is Some <==> text::trim(attr_or_empty(a, "src"@)).len() > 0
    &&& r.src is Some ==> attrs::asset_path_resolution(
        attr_or_empty(a, "src"@),
        absolute_existing,
        r.src->0@,
    )
    &&& r.src is Some ==> attrs::asset_path_join(
        html_path,
        attr_or_empty(a, "src"@),
        absolute_existing,
        r.src->0@,
    )
    &&& r.alt@ == attr_or_empty(a, "alt"@)
    &&& opt_str(r.preview) == attrs::for_attribute_id(attr_v(a, "preview"@))
}

/// The image an `<img>` element describes in the HTML file whose source
/// path is `html_path`: its `src` resolved as an asset path in that page
/// (`asset_path_resolution`, `asset_path_join`; none when blank), its `alt`,
/// and the input its `preview` names. `absolute_existing` tells whether the
/// normalized `src` is an absolute path that exists.
pub fn img_from_element(
    pools: &mut WidgetIdPools,
    attrs: &KeyedMap<String>,
    html_path: &str,
    absolute_existing: bool,
) -> (r: Img)
    requires
        old(pools).view_pools().len() == WIDGET_KIND_COUNT,
        kind_can_acquire(old(pools).view_pools(), WidgetKind::Img),
    ensures
        final(pools).view_pools() == pools_after_acquire(old(pools).view_pools(), WidgetKind::Img),
        r.entry == acquired_id(old(pools).view_pools(), WidgetKind::Img),
        img_fields(r, attrs.entries_spec(), html_path@, absolute_existing),
{
    let mut img = Img::new(pools);
    let src_raw = attr_string(attrs, "src");
    let src_trimmed = trimmed(src_raw.as_str());
    let src_chars = text::str_to_chars(src_trimmed.as_str());
    img.src = if src_chars.len() == 0 {
        None
    } else {
        Some(attrs::resolve_relative_asset_path(html_path, src_raw.as_str(), absolute_existing))
    };
    img.alt = attr_string(attrs, "alt");
    img.preview = attrs::parse_for_attribute_id(attr(attrs, "preview"));
    img
}

/// The text of the label whose `for` names the element's `id`; empty
/// without either.
pub open spec fn label_for_id(
    a: Seq<(Seq<char>, Seq<char>)>,
    labels: Seq<(Seq<char>, Seq<char>)>,
) -> Option<Seq<char>> {
    match attr_v(a, "id"@) {
        Some(id) => keyed::key_value(labels, id),
        None => None,
    }
}

/// The label found for the element's `id` (`label_for_id`).
fn label_of<'a>(attrs: &KeyedMap<String>, labels: &'a KeyedMap<String>) -> (r: Option<&'a str>)
    ensures
        elements::opt_str(r) == label_for_id(attrs.entries_spec(), labels.entries_spec()),
{
    match attr(attrs, "id") {
        Some(id) => {
            let k = text::str_to_chars(id);
            match labels.get(&k) {
                Some(l) => Some(l.as_str()),
                None => None,
            }
        },
        None => None,
    }
}

/// The input type a `type` attribute names (text without one or when it
/// does not parse).
pub open spec fn input_type_of(a: Seq<(Seq<char>, Seq<char>)>) -> InputType {
    match widgets::input_type(
        match attr_v(a, "type"@) {
            Some(t) => t,
            None => "text"@,
        },
    ) {
        Some(t) => t,
        None => InputType::Text,
    }
}

/// The fields `input_from_element` sets (all but the identifier).
pub open spec fn input_fields(
    r: InputField,
    a: Seq<(Seq<char>, Seq<char>)>,
    labels: Seq<(Seq<char>, Seq<char>)>,
    max_size_bytes: Option<u64>,
) -> bool {
    &&& r.name@ == elements::element_name(
        attr_v(a, "name"@),
        attr_v(a, "id"@),
    )
    &&& r.label@ == (match label_for_id(a, labels) {
        Some(l) => l,
        None => Seq::<char>::empty(),
    })
    &&& r.text@ == attr_or_empty(a, "value"@)
    &&& r.placeholder@ == attr_or_empty(a, "placeholder"@)
    &&& r.input_type == input_type_of(a)
    &&& opt_str(r.date_format) == elements::trimmed_nonempty(attr_v(a, "format"@))
    &&& r.folder == attrs::bool_attribute(attr_v(a, "folder"@))
    &&& Seq::new(r.extensions@.len(), |i: int| r.extensions@[i]@) == attrs::extensions_attribute(
        attr_v(a, "extensions"@),
    )
    &&& r.show_size == attrs::bool_attribute(attr_v(a, "show-size"@))
    &&& r.max_size_bytes == max_size_bytes
    &&& opt_str(r.icon_path) == nonempty_attr(a, "icon"@)
    &&& r.cap_text_at == elements::input_cap(attr_v(a, "maxlength"@))
    &&& r.cursor_position == 0
    &&& !r.clear_after_focus_lost
}

/// The input an `<input>` element describes. `labels` maps ids to the
/// text of the labels for them; `max_size_bytes` is the element's
/// `max-size` read as a byte count.
pub fn input_from_element(
    pools: &mut WidgetIdPools,
    attrs: &KeyedMap<String>,
    labels: &KeyedMap<String>,
    max_size_bytes: Option<u64>,
) -> (r: InputField)
    requires
        old(pools).view_pools().len() == WIDGET_KIND_COUNT,
        kind_can_acquire(old(pools).view_pools(), WidgetKind::InputField),
    ensures
        final(pools).view_pools() == pools_after_acquire(
            old(pools).view_pools(),
            WidgetKind::InputField,
        ),
        r.entry == acquired_id(old(pools).view_pools(), WidgetKind::InputField),
        input_fields(r, attrs.entries_spec(), labels.entries_spec(), max_size_bytes),
{
    let mut f = InputField::new(pools);
    f.name = elements::element_name_exec(attr(attrs, "name"), attr(attrs, "id"));
    f.label = match label_of(attrs, labels) {
        Some(l) => String::from_str(l),
        None => {
            let e = String::new();
            assert(e@ =~= Seq::<char>::empty());
            e
        },
    };
    f.text = attr_string(attrs, "value");
    f.placeholder = attr_string(attrs, "placeholder");
    let ty = match attr(attrs, "type") {
        Some(t) => t,
        None => "text",
    };
    f.input_type = match InputType::from_str(ty) {
        Some(t) => t,
        None => InputType::default(),
    };
    f.date_format = elements::trimmed_nonempty_exec(attr(attrs, "format"));
    f.folder = attrs::parse_bool_attribute(attr(attrs, "folder"));
    f.extensions = attrs::parse_extensions_attribute(attr(attrs, "extensions"));
    f.show_size = attrs::parse_bool_attribute(attr(attrs, "show-size"));
    f.max_size_bytes = max_size_bytes;
    f.icon_path = elements::nonempty_exec(attr(attrs, "icon"));
    f.cap_text_at = elements::input_cap_exec(attr(attrs, "maxlength"));
    f
}

/// The date format a picker shows: what its explicit pattern names, else
/// month-day-year.
pub open spec fn picker_format(pattern: Option<Seq<char>>) -> DateFormat {
    match pattern {
        Some(p) => match widgets::date_format(p) {
            Some(f) => f,
            None => DateFormat::MonthDayYear,
        },
        None => DateFormat::MonthDayYear,
    }
}

/// The fields `date_picker_from_element` sets (all but the identifier).
pub open spec fn date_picker_fields(
    r: DatePicker,
    a: Seq<(Seq<char>, Seq<char>)>,
    labels: Seq<(Seq<char>, Seq<char>)>,
) -> bool {
    &&& opt_str(r.for_id) == attrs::for_attribute_id(attr_v(a, "for"@))
    &&& r.name@ == elements::element_name(
        attr_v(a, "name"@),
        attr_v(a, "id"@),
    )
    &&& r.label@ == elements::date_picker_label(
        attr_v(a, "label"@),
        label_for_id(a, labels),
    )
    &&& r.placeholder@ == attr_or_empty(a, "placeholder"@)
    &&& r.value@ == attr_or_empty(a, "value"@)
    &&& opt_str(r.min) == attr_v(a, "min"@)
    &&& opt_str(r.max) == attr_v(a, "max"@)
    &&& opt_str(r.format_pattern) == elements::trimmed_nonempty(
        attr_v(a, "format"@),
    )
    &&& r.format == picker_format(opt_str(r.format_pattern))
}

/// The date picker a `<date-picker>` element describes. `labels` maps ids
/// to the text of the labels for them.
pub fn date_picker_from_element(
    pools: &mut WidgetIdPools,
    attrs: &KeyedMap<String>,
    labels: &KeyedMap<String>,
) -> (r: DatePicker)
    requires
        old(pools).view_pools().len() == WIDGET_KIND_COUNT,
        kind_can_acquire(old(pools).view_pools(), WidgetKind::DatePicker),
    ensures
        final(pools).view_pools() == pools_after_acquire(
            old(pools).view_pools(),
            WidgetKind::DatePicker,
        ),
        r.entry == acquired_id(old(pools).view_pools(), WidgetKind::DatePicker),
        date_picker_fields(r, attrs.entries_spec(), labels.entries_spec()),
{
    let mut d = DatePicker::new(pools);
    d.for_id = attrs::parse_for_attribute_id(attr(attrs, "for"));
    d.name = elements::element_name_exec(attr(attrs, "name"), attr(attrs, "id"));
    d.label = elements::date_picker_label_exec(attr(attrs, "label"), label_of(attrs, labels));
    d.placeholder = attr_string(attrs, "placeholder");
    d.value = attr_string(attrs, "value");
    d.min = match attr(attrs, "min") {
        Some(v) => Some(String::from_str(v)),
        None => None,
    };
    d.max = match attr(attrs, "max") {
        Some(v) => Some(String::from_str(v)),
        None => None,
    };
    let pattern = elements::trimmed_nonempty_exec(attr(attrs, "format"));
    d.format = match &pattern {
        Some(p) => match DateFormat::from_str(p.as_str()) {
            Some(f) => f,
            None => DateFormat::default(),
        },
        None => DateFormat::default(),
    };
    d.format_pattern = pattern;
    d
}

/// The class list of an element after making sure it holds `class`: the
/// classes it had (none without a list) with `class` added at the end when
/// it was missing.
pub open spec fn with_class(classes: Option<Seq<Seq<char>>>, class: Seq<char>) -> Seq<Seq<char>> {
    let c = match classes {
        Some(c) => c,
        None => seq![],
    };
    if c.contains(class) {
        c
    } else {
        c.push(class)
    }
}

/// View of an optional class list.
pub open spec fn classes_view(classes: Option<Vec<String>>) -> Option<Seq<Seq<char>>> {
    match classes {
        Some(v) => Some(Seq::new(v@.len(), |i: int| v@[i]@)),
        None => None,
    }
}

/// Makes sure an element's class list exists and holds `class`
/// (`with_class`); a bound date picker gets `date-picker-bound` this way.
pub fn ensure_meta_class(classes: &mut Option<Vec<String>>, class: &str)
    ensures
        classes_view(*final(classes)) == Some(with_class(classes_view(*old(classes)), class@)),
{
    let mut list: Vec<String> = match classes.take() {
        Some(v) => v,
        None => Vec::new(),
    };
    let ghost before = Seq::new(list@.len(), |i: int| list@[i]@);
    assert(before == (match classes_view(*old(classes)) {
        Some(c) => c,
        None => Seq::<Seq<char>>::empty(),
    }));
    let want = text::str_to_chars(class);
    let mut found = false;
    let mut i: usize = 0;
    while i < list.len()
        invariant
            i <= list@.len(),
            before == Seq::new(list@.len(), |k: int| list@[k]@),
            want@ == class@,
            found == exists|k: int| 0 <= k < i && before[k] == class@,
        decreases list.len() - i,
    {
        let c = text::str_to_chars(list[i].as_str());
        assert(before[i as int] == c@);
        if text::chars_eq(&c, &want) {
            found = true;
        }
        assert(found == exists|k: int| 0 <= k < i + 1 && before[k] == class@) by {
            if found && !(exists|k: int| 0 <= k < i && before[k] == class@) {
                assert(before[i as int] == class@);
            }
        }
        i = i + 1;
    }
    if found {
        assert(before.contains(class@));
    } else {
        assert(!before.contains(class@));
        list.push(String::from_str(class));
        assert(Seq::new(list@.len(), |k: int| list@[k]@) =~= before.push(class@));
    }
    *classes = Some(list);
}

// ---------------------------------------------------------------------------
// Tooltips and badges
// ---------------------------------------------------------------------------

/// The triggers a `trigger` attribute names; hover without one.
pub open spec fn tooltip_trigger_list(a: Seq<(Seq<char>, Seq<char>)>) -> Seq<ToolTipTrigger> {
    match attr_v(a, "trigger"@) {
        Some(t) => attrs::tooltip_triggers(t),
        None => seq![ToolTipTrigger::Hover],
    }
}

/// The fields `tooltip_from_element` sets (all but the identifier).
pub open spec fn tooltip_fields(
    r: ToolTip,
    a: Seq<(Seq<char>, Seq<char>)>,
    text: Seq<char>,
) -> bool {
    &&& r.text@ == elements::join_words(elements::words(elements::ws_pieces(text)))
    &&& opt_str(r.for_id) == attrs::for_attribute_id(attr_v(a, "for"@))
    &&& r.variant == (match attr_v(a, "variant"@) {
        Some(v) => match widgets::tooltip_variant(v) {
            Some(x) => x,
            None => ToolTipVariant::Follow,
        },
        None => ToolTipVariant::Follow,
    })
    &&& r.prio == (match attr_v(a, "prio"@) {
        Some(v) => match widgets::tooltip_priority(v) {
            Some(x) => x,
            None => ToolTipPriority::Right,
        },
        None => ToolTipPriority::Right,
    })
    &&& r.alignment == (match attr_v(a, "alignment"@) {
        Some(v) => match widgets::tooltip_alignment(v) {
            Some(x) => x,
            None => ToolTipAlignment::Horizontal,
        },
        None => ToolTipAlignment::Horizontal,
    })
    &&& r.trigger@ == tooltip_trigger_list(a)
}

/// The tooltip a `<tool-tip>` element describes: its text with whitespace
/// runs collapsed, its target, placement and triggers.
pub fn tooltip_from_element(pools: &mut WidgetIdPools, attrs: &KeyedMap<String>, text: &str) -> (r:
    ToolTip)
    requires
        old(pools).view_pools().len() == WIDGET_KIND_COUNT,
        kind_can_acquire(old(pools).view_pools(), WidgetKind::ToolTip),
    ensures
        final(pools).view_pools() == pools_after_acquire(
            old(pools).view_pools(),
            WidgetKind::ToolTip,
        ),
        r.entry == acquired_id(old(pools).view_pools(), WidgetKind::ToolTip),
        tooltip_fields(r, attrs.entries_spec(), text@),
{
    let mut t = ToolTip::new(pools);
    t.text = elements::collapse_whitespace(text);
    t.for_id = attrs::parse_for_attribute_id(attr(attrs, "for"));
    t.variant = match attr(attrs, "variant") {
        Some(v) => match ToolTipVariant::from_str(v) {
            Some(x) => x,
            None => ToolTipVariant::default(),
        },
        None => ToolTipVariant::default(),
    };
    t.prio = match attr(attrs, "prio") {
        Some(v) => match ToolTipPriority::from_str(v) {
            Some(x) => x,
            None => ToolTipPriority::default(),
        },
        None => ToolTipPriority::default(),
    };
    t.alignment = match attr(attrs, "alignment") {
        Some(v) => match ToolTipAlignment::from_str(v) {
            Some(x) => x,
            None => ToolTipAlignment::default(),
        },
        None => ToolTipAlignment::default(),
    };
    match attr(attrs, "trigger") {
        Some(v) => {
            t.trigger = attrs::parse_tooltip_triggers(v);
        },
        None => {},
    }
    t
}

/// The fields `badge_from_element` sets (all but the identifier).
pub open spec fn badge_fields(r: Badge, a: Seq<(Seq<char>, Seq<char>)>, text: Seq<char>) -> bool {
    &&& r.value == elements::badge_value(
        attr_v(a, "value"@),
        attr_v(a, "count"@),
        text,
    )
    &&& r.max == (match attr_v(a, "max"@) {
        Some(m) => match elements::parse_u32(m) {
            Some(n) => n,
            None => 99,
        },
        None => 99,
    })
    &&& opt_str(r.for_id) == attrs::for_attribute_id(attr_v(a, "for"@))
    &&& r.anchor == (match attr_v(a, "anchor"@) {
        Some(v) => match widgets::badge_anchor(v) {
            Some(x) => x,
            None => BadgeAnchor::TopRight,
        },
        None => BadgeAnchor::TopRight,
    })
}

/// The badge a `<badge>` element describes: its count from `value`, else
/// `count`, else its text; the largest count shown; target and corner.
pub fn badge_from_element(pools: &mut WidgetIdPools, attrs: &KeyedMap<String>, text: &str) -> (r:
    Badge)
    requires
        old(pools).view_pools().len() == WIDGET_KIND_COUNT,
        kind_can_acquire(old(pools).view_pools(), WidgetKind::Badge),
    ensures
        final(pools).view_pools() == pools_after_acquire(
            old(pools).view_pools(),
            WidgetKind::Badge,
        ),
        r.entry == acquired_id(old(pools).view_pools(), WidgetKind::Badge),
        badge_fields(r, attrs.entries_spec(), text@),
{
    let mut b = Badge::new(pools);
    b.value = elements::badge_value_exec(attr(attrs, "value"), attr(attrs, "count"), text);
    b.max = elements::badge_max(attr(attrs, "max"));
    b.for_id = attrs::parse_for_attribute_id(attr(attrs, "for"));
    b.anchor = match attr(attrs, "anchor") {
        Some(v) => match BadgeAnchor::from_str(v) {
            Some(x) => x,
            None => BadgeAnchor::default(),
        },
        None => BadgeAnchor::default(),
    };
    b
}

// ---------------------------------------------------------------------------
// Radios, switches and toggles
// ---------------------------------------------------------------------------

/// The value of an option or radio held as text: its `value` when the
/// `internal-value-type` hint (trimmed, ASCII lowercased) is empty,
/// `string` or `str`; none for an empty value or another hint.
pub open spec fn text_value(a: Seq<(Seq<char>, Seq<char>)>) -> Option<Seq<char>> {
    let value = attr_or_empty(a, "value"@);
    let hint = text::ascii_lower(text::trim(attr_or_empty(a, "internal-value-type"@)));
    if value.len() == 0 {
        None
    } else if hint == ""@ || hint == "string"@ || hint == "str"@ {
        Some(value)
    } else {
        None
    }
}

/// The value held as text (`text_value`).
fn text_value_exec(attrs: &KeyedMap<String>) -> (r: Option<String>)
    ensures
        opt_str(r) == text_value(attrs.entries_spec()),
{
    let value = attr_string(attrs, "value");
    let hint_raw = attr_string(attrs, "internal-value-type");
    let hc = text::str_to_chars(hint_raw.as_str());
    let ht = text::trim_chars(&hc);
    let hint = text::lower_chars(&ht);
    let vc = text::str_to_chars(value.as_str());
    proof {
        reveal_strlit("");
        if hint@.len() == 0 {
            assert(hint@ =~= ""@);
        }
    }
    if vc.len() == 0 {
        None
    } else if hint.len() == 0 || text::chars_eq_str(&hint, "string") || text::chars_eq_str(
        &hint,
        "str",
    ) {
        Some(value)
    } else {
        None
    }
}

/// The fields `radio_from_element` sets (all but the identifier).
pub open spec fn radio_fields(
    r: RadioButton,
    a: Seq<(Seq<char>, Seq<char>)>,
    text: Seq<char>,
) -> bool {
    &&& r.label@ == text::trim(text)
    &&& opt_str(r.value) == text_value(a)
    &&& r.selected == attr_v(a, "selected"@) is Some
}

/// The radio a `<radio>` element describes: its text trimmed as label, its
/// value held as text, selected when it carries `selected`.
pub fn radio_from_element(pools: &mut WidgetIdPools, attrs: &KeyedMap<String>, text: &str) -> (r:
    RadioButton)
    requires
        old(pools).view_pools().len() == WIDGET_KIND_COUNT,
        kind_can_acquire(old(pools).view_pools(), WidgetKind::RadioButton),
    ensures
        final(pools).view_pools() == pools_after_acquire(
            old(pools).view_pools(),
            WidgetKind::RadioButton,
        ),
        r.entry == acquired_id(old(pools).view_pools(), WidgetKind::RadioButton),
        radio_fields(r, attrs.entries_spec(), text@),
{
    let mut b = RadioButton::new(pools);
    b.label = trimmed(text);
    b.value = text_value_exec(attrs);
    b.selected = has_attr(attrs, "selected");
    b
}

/// The attributes and text of the child elements of `children` named
/// `name`, in order.
pub open spec fn elements_named(children: Seq<ChildNode>, name: Seq<char>) -> Seq<
    (Seq<(Seq<char>, Seq<char>)>, Seq<char>),
>
    decreases children.len(),
{
    if children.len() == 0 {
        seq![]
    } else {
        let rest = elements_named(children.drop_last(), name);
        match children.last() {
            ChildNode::Element { name: n, attrs, text, .. } => if n@ == name {
                rest.push((attrs.entries_spec(), text@))
            } else {
                rest
            },
            _ => rest,
        }
    }
}

/// The pools after `n` identifiers of kind `k` were handed out.
pub open spec fn pools_after_acquires(p: Seq<PoolV>, k: WidgetKind, n: nat) -> Seq<PoolV>
    decreases n,
{
    if n == 0 {
        p
    } else {
        pools_after_acquire(pools_after_acquires(p, k, (n - 1) as nat), k)
    }
}

/// Which of the radios of a field set carry `selected`.
pub open spec fn radio_marks(radios: Seq<(Seq<(Seq<char>, Seq<char>)>, Seq<char>)>) -> Seq<bool> {
    Seq::new(radios.len(), |i: int| attr_v(radios[i].0, "selected"@) is Some)
}

/// The radios a field set holds: one per `<radio>` child, in order, each
/// with its text trimmed as label and its value held as text; which start
/// selected is `radio_selection` of which carry `selected`. Each takes the
/// next radio identifier.
pub fn fieldset_radio_buttons(
    pools: &mut WidgetIdPools,
    children: &Vec<ChildNode>,
    allow_none: bool,
) -> (r: Vec<RadioButton>)
    requires
        old(pools).view_pools().len() == WIDGET_KIND_COUNT,
        forall|j: nat|
            j < elements_named(children@, "radio"@).len() ==> #[trigger] kind_can_acquire(
                pools_after_acquires(old(pools).view_pools(), WidgetKind::RadioButton, j),
                WidgetKind::RadioButton,
            ),
    ensures
        ({
            let radios = elements_named(children@, "radio"@);
            &&& r@.len() == radios.len()
            &&& final(pools).view_pools() == pools_after_acquires(
                old(pools).view_pools(),
                WidgetKind::RadioButton,
                radios.len(),
            )
            &&& forall|k: int|
                0 <= k < radios.len() ==> {
                    &&& (#[trigger] r@[k]).entry == acquired_id(
                        pools_after_acquires(
                            old(pools).view_pools(),
                            WidgetKind::RadioButton,
                            k as nat,
                        ),
                        WidgetKind::RadioButton,
                    )
                    &&& r@[k].label@ == text::trim(radios[k].1)
                    &&& opt_str(r@[k].value) == text_value(radios[k].0)
                    &&& r@[k].selected == elements::radio_selection(radio_marks(radios), allow_none)[k]
                }
        }),
{
    let ghost p0 = pools.view_pools();
    let ghost all = elements_named(children@, "radio"@);
    let mut radio_attrs: Vec<&KeyedMap<String>> = Vec::new();
    let mut radio_texts: Vec<&String> = Vec::new();
    let mut marks: Vec<bool> = Vec::new();
    let mut i: usize = 0;
    while i < children.len()
        invariant
            i <= children@.len(),
            radio_attrs@.len() == radio_texts@.len(),
            radio_attrs@.len() == marks@.len(),
            elements_named(children@.take(i as int), "radio"@).len() == radio_attrs@.len(),
            forall|k: int|
                0 <= k < radio_attrs@.len() ==> {
                    &&& (#[trigger] radio_attrs@[k]).entries_spec() == elements_named(
                        children@.take(i as int),
                        "radio"@,
                    )[k].0
                    &&& radio_texts@[k]@ == elements_named(children@.take(i as int), "radio"@)[k].1
                    &&& marks@[k] == (attr_v(radio_attrs@[k].entries_spec(), "selected"@) is Some)
                },
        decreases children.len() - i,
    {
        assert(children@.take(i + 1).drop_last() =~= children@.take(i as int));
        match &children[i] {
            ChildNode::Element { name, attrs, text, .. } => {
                let n = text::str_to_chars(name.as_str());
                if text::chars_eq_str(&n, "radio") {
                    radio_attrs.push(attrs);
                    radio_texts.push(text);
                    marks.push(has_attr(attrs, "selected"));
                }
            },
            _ => {},
        }
        i = i + 1;
    }
    assert(children@.take(children@.len() as int) =~= children@);
    assert(elements_named(children@.take(children@.len() as int), "radio"@) == all);
    assert forall|j: int| 0 <= j < radio_attrs@.len() implies (#[trigger] radio_attrs@[j]).entries_spec()
        == all[j].0 && radio_texts@[j]@ == all[j].1 && marks@[j] == radio_marks(all)[j] by {
        let _ = radio_attrs@[j];
    }
    assert forall|j: int| 0 <= j < marks@.len() implies #[trigger] marks@[j] == radio_marks(all)[j] by {
        let _ = radio_attrs@[j];
    }
    assert(marks@ =~= radio_marks(all));
    let selected = elements::fieldset_radio_selection(&marks, allow_none);
    let mut out: Vec<RadioButton> = Vec::new();
    let mut k: usize = 0;
    while k < radio_attrs.len()
        invariant
            k <= radio_attrs@.len(),
            radio_attrs@.len() == all.len(),
            radio_texts@.len() == all.len(),
            selected@ == elements::radio_selection(radio_marks(all), allow_none),
            forall|j: int|
                0 <= j < radio_attrs@.len() ==> {
                    &&& (#[trigger] radio_attrs@[j]).entries_spec() == all[j].0
                    &&& radio_texts@[j]@ == all[j].1
                },
            out@.len() == k,
            pools.view_pools() == pools_after_acquires(p0, WidgetKind::RadioButton, k as nat),
            pools.view_pools().len() == WIDGET_KIND_COUNT,
            forall|j: nat|
                j < all.len() ==> #[trigger] kind_can_acquire(
                    pools_after_acquires(p0, WidgetKind::RadioButton, j),
                    WidgetKind::RadioButton,
                ),
            forall|j: int|
                0 <= j < k ==> {
                    &&& (#[trigger] out@[j]).entry == acquired_id(
                        pools_after_acquires(p0, WidgetKind::RadioButton, j as nat),
                        WidgetKind::RadioButton,
                    )
                    &&& out@[j].label@ == text::trim(all[j].1)
                    &&& opt_str(out@[j].value) == text_value(all[j].0)
                    &&& out@[j].selected == elements::radio_selection(
                        radio_marks(all),
                        allow_none,
                    )[j]
                },
        decreases radio_attrs.len() - k,
    {
        assert(kind_can_acquire(
            pools_after_acquires(p0, WidgetKind::RadioButton, k as nat),
            WidgetKind::RadioButton,
        ));
        let mut b = radio_from_element(pools, radio_attrs[k], radio_texts[k].as_str());
        b.selected = selected[k];
        out.push(b);
        k = k + 1;
    }
    out
}

/// The fields `switch_from_element` sets (all but the identifier).
pub open spec fn switch_fields(
    r: SwitchButton,
    a: Seq<(Seq<char>, Seq<char>)>,
    text: Seq<char>,
) -> bool {
    &&& r.label@ == text::trim(text)
    &&& opt_str(r.icon) == nonempty_attr(a, "icon"@)
    &&& r.selected == (match attr_v(a, "value"@) {
        Some(v) => attrs::bool_attribute(Some(v)),
        None => attrs::bool_attribute(attr_v(a, "checked"@)),
    })
}

/// The switch a `<switch>` element describes: its text trimmed as label,
/// its `icon` when not empty, on as `switch_selected` reads `value` and
/// `checked`.
pub fn switch_from_element(pools: &mut WidgetIdPools, attrs: &KeyedMap<String>, text: &str) -> (r:
    SwitchButton)
    requires
        old(pools).view_pools().len() == WIDGET_KIND_COUNT,
        kind_can_acquire(old(pools).view_pools(), WidgetKind::SwitchButton),
    ensures
        final(pools).view_pools() == pools_after_acquire(
            old(pools).view_pools(),
            WidgetKind::SwitchButton,
        ),
        r.entry == acquired_id(old(pools).view_pools(), WidgetKind::SwitchButton),
        switch_fields(r, attrs.entries_spec(), text@),
{
    let mut w = SwitchButton::new(pools);
    w.label = trimmed(text);
    w.icon = elements::nonempty_exec(attr(attrs, "icon"));
    w.selected = elements::switch_selected(attr(attrs, "value"), attr(attrs, "checked"));
    w
}

/// The fields `toggle_from_element` sets (all but the identifier).
pub open spec fn toggle_fields(
    r: ToggleButton,
    a: Seq<(Seq<char>, Seq<char>)>,
    text: Seq<char>,
    children: Seq<ChildNode>,
) -> bool {
    &&& opt_str(r.value) == Some(attr_or_empty(a, "value"@))
    &&& opt_str(r.icon_path) == icon_scan(children).0
    &&& r.icon_place == icon_scan(children).1
    &&& r.label@ == text::trim(text)
    &&& r.selected == attr_v(a, "selected"@) is Some
}

/// The toggle a `<toggle>` element describes: its `value` (empty without
/// one), the icon among its children and its side, its text trimmed as
/// label, selected when it carries `selected`.
pub fn toggle_from_element(
    pools: &mut WidgetIdPools,
    attrs: &KeyedMap<String>,
    text: &str,
    children: &Vec<ChildNode>,
) -> (r: ToggleButton)
    requires
        old(pools).view_pools().len() == WIDGET_KIND_COUNT,
        kind_can_acquire(old(pools).view_pools(), WidgetKind::ToggleButton),
    ensures
        final(pools).view_pools() == pools_after_acquire(
            old(pools).view_pools(),
            WidgetKind::ToggleButton,
        ),
        r.entry == acquired_id(old(pools).view_pools(), WidgetKind::ToggleButton),
        toggle_fields(r, attrs.entries_spec(), text@, children@),
{
    let mut t = ToggleButton::new(pools);
    t.value = Some(attr_string(attrs, "value"));
    let (icon_path, icon_place) = elements::parse_icon_and_text(children);
    t.icon_path = icon_path;
    t.icon_place = icon_place;
    t.label = trimmed(text);
    t.selected = has_attr(attrs, "selected");
    t
}

// ---------------------------------------------------------------------------
// Selects and list boxes
// ---------------------------------------------------------------------------

/// The option an `<option>` element describes: its text trimmed, its value
/// held as text, and its `icon` unless blank.
pub open spec fn option_of(o: (Seq<(Seq<char>, Seq<char>)>, Seq<char>)) -> ChoiceV {
    let icon = attr_or_empty(o.0, "icon"@);
    ChoiceV {
        text: text::trim(o.1),
        value: text_value(o.0),
        icon_path: if text::trim(icon).len() == 0 {
            None
        } else {
            Some(icon)
        },
    }
}

/// The option an `<option>` element describes (`option_of`).
pub fn option_from_element(attrs: &KeyedMap<String>, text: &str) -> (r: ChoiceOption)
    ensures
        r@ == option_of((attrs.entries_spec(), text@)),
{
    let icon = attr_string(attrs, "icon");
    let icon_t = trimmed(icon.as_str());
    let it = text::str_to_chars(icon_t.as_str());
    ChoiceOption {
        text: trimmed(text),
        value: text_value_exec(attrs),
        icon_path: if it.len() == 0 {
            None
        } else {
            Some(icon)
        },
    }
}

/// The options among `children`, with which carry `selected`.
fn collect_options(children: &Vec<ChildNode>) -> (r: (Vec<ChoiceOption>, Vec<bool>))
    ensures
        r.0@.len() == elements_named(children@, "option"@).len(),
        r.1@.len() == r.0@.len(),
        forall|k: int|
            0 <= k < r.0@.len() ==> (#[trigger] r.0@[k])@ == option_of(
                elements_named(children@, "option"@)[k],
            ) && r.1@[k] == (attr_v(elements_named(children@, "option"@)[k].0, "selected"@) is Some),
{
    let mut opts: Vec<ChoiceOption> = Vec::new();
    let mut marks: Vec<bool> = Vec::new();
    let mut i: usize = 0;
    while i < children.len()
        invariant
            i <= children@.len(),
            opts@.len() == marks@.len(),
            elements_named(children@.take(i as int), "option"@).len() == opts@.len(),
            forall|k: int|
                0 <= k < opts@.len() ==> (#[trigger] opts@[k])@ == option_of(
                    elements_named(children@.take(i as int), "option"@)[k],
                ) && marks@[k] == (attr_v(
                    elements_named(children@.take(i as int), "option"@)[k].0,
                    "selected"@,
                ) is Some),
        decreases children.len() - i,
    {
        assert(children@.take(i + 1).drop_last() =~= children@.take(i as int));
        match &children[i] {
            ChildNode::Element { name, attrs, text, .. } => {
                let n = text::str_to_chars(name.as_str());
                if text::chars_eq_str(&n, "option") {
                    opts.push(option_from_element(attrs, text.as_str()));
                    marks.push(has_attr(attrs, "selected"));
                }
            },
            _ => {},
        }
        i = i + 1;
    }
    assert(children@.take(children@.len() as int) =~= children@);
    (opts, marks)
}

/// Copies an option.
fn copy_option(o: &ChoiceOption) -> (r: ChoiceOption)
    ensures
        r@ == o@,
{
    ChoiceOption {
        text: String::from_str(o.text.as_str()),
        value: match &o.value {
            Some(v) => Some(String::from_str(v.as_str())),
            None => None,
        },
        icon_path: match &o.icon_path {
            Some(v) => Some(String::from_str(v.as_str())),
            None => None,
        },
    }
}

/// Whether an option carries `selected`.
pub open spec fn is_selected(o: (Seq<(Seq<char>, Seq<char>)>, Seq<char>)) -> bool {
    attr_v(o.0, "selected"@) is Some
}

/// The position of the last of `options` carrying `selected`.
pub open spec fn last_selected(options: Seq<(Seq<(Seq<char>, Seq<char>)>, Seq<char>)>) -> Option<
    int,
>
    decreases options.len(),
{
    if options.len() == 0 {
        None
    } else if is_selected(options.last()) {
        Some(options.len() - 1)
    } else {
        last_selected(options.drop_last())
    }
}

/// The last option carrying `selected` is the one after which none does.
proof fn lemma_last_selected(options: Seq<(Seq<(Seq<char>, Seq<char>)>, Seq<char>)>, i: int)
    requires
        0 <= i < options.len(),
        is_selected(options[i]),
        forall|j: int| i < j < options.len() ==> !is_selected(#[trigger] options[j]),
    ensures
        last_selected(options) == Some(i),
    decreases options.len(),
{
    if i < options.len() - 1 {
        assert(!is_selected(options[options.len() - 1]));
        let d = options.drop_last();
        assert forall|j: int| i < j < d.len() implies !is_selected(#[trigger] d[j]) by {
            assert(d[j] == options[j]);
        }
        lemma_last_selected(d, i);
    }
}

/// Without an option carrying `selected`, there is no last one.
proof fn lemma_none_selected(options: Seq<(Seq<(Seq<char>, Seq<char>)>, Seq<char>)>)
    requires
        forall|j: int| 0 <= j < options.len() ==> !is_selected(#[trigger] options[j]),
    ensures
        last_selected(options) is None,
    decreases options.len(),
{
    if options.len() > 0 {
        let d = options.drop_last();
        assert(!is_selected(options[options.len() - 1]));
        assert forall|j: int| 0 <= j < d.len() implies !is_selected(#[trigger] d[j]) by {
            assert(d[j] == options[j]);
        }
        lemma_none_selected(d);
    }
}

/// The option a select starts with: the last of its options carrying
/// `selected`, else its first option, else the placeholder.
pub open spec fn select_value(options: Seq<(Seq<(Seq<char>, Seq<char>)>, Seq<char>)>) -> ChoiceV {
    match last_selected(options) {
        Some(k) => option_of(options[k]),
        None => if options.len() > 0 {
            option_of(options[0])
        } else {
            components::placeholder_option()
        },
    }
}

/// The fields `choice_box_from_element` sets (all but the identifier).
pub open spec fn choice_box_fields(r: ChoiceBox, children: Seq<ChildNode>) -> bool {
    &&& r.options@.len() == elements_named(children, "option"@).len()
    &&& forall|k: int|
        0 <= k < r.options@.len() ==> (#[trigger] r.options@[k])@ == option_of(
            elements_named(children, "option"@)[k],
        )
    &&& r.value@ == select_value(elements_named(children, "option"@))
    &&& r.label@ == "select"@
    &&& opt_str(r.icon_path) == Some("extended_ui/icons/drop-arrow.png"@)
}

/// The choice box a `<select>` element describes: one option per
/// `<option>` child, in order, showing `select_value`.
pub fn choice_box_from_element(pools: &mut WidgetIdPools, children: &Vec<ChildNode>) -> (r:
    ChoiceBox)
    requires
        old(pools).view_pools().len() == WIDGET_KIND_COUNT,
        kind_can_acquire(old(pools).view_pools(), WidgetKind::ChoiceBox),
    ensures
        final(pools).view_pools() == pools_after_acquire(
            old(pools).view_pools(),
            WidgetKind::ChoiceBox,
        ),
        r.entry == acquired_id(old(pools).view_pools(), WidgetKind::ChoiceBox),
        choice_box_fields(r, children@),
{
    let ghost opts = elements_named(children@, "option"@);
    let mut c = ChoiceBox::new(pools);
    let (options, marks) = collect_options(children);
    assert forall|k: int| 0 <= k < marks@.len() implies marks@[k] == is_selected(
        #[trigger] opts[k],
    ) by {
        assert(options@[k]@ == option_of(opts[k]));
    }
    match elements::selected_option_index(&marks) {
        Some(i) => {
            c.value = copy_option(&options[i]);
            proof {
                assert(options@[i as int]@ == option_of(opts[i as int]));
                if exists|k: int| 0 <= k < marks@.len() && marks@[k] {
                    assert forall|j: int| i < j < opts.len() implies !is_selected(
                        #[trigger] opts[j],
                    ) by {
                        assert(!marks@[j]);
                    }
                    lemma_last_selected(opts, i as int);
                } else {
                    assert forall|j: int| 0 <= j < opts.len() implies !is_selected(
                        #[trigger] opts[j],
                    ) by {
                        assert(!marks@[j]);
                    }
                    lemma_none_selected(opts);
                }
            }
        },
        None => {
            proof {
                lemma_none_selected(opts);
            }
        },
    }
    c.options = options;
    c
}

/// The options among `options` that carry `selected`, in order.
pub open spec fn selected_options(options: Seq<(Seq<(Seq<char>, Seq<char>)>, Seq<char>)>) -> Seq<
    ChoiceV,
>
    decreases options.len(),
{
    if options.len() == 0 {
        seq![]
    } else {
        let rest = selected_options(options.drop_last());
        if attr_v(options.last().0, "selected"@) is Some {
            rest.push(option_of(options.last()))
        } else {
            rest
        }
    }
}

/// The fields `list_box_from_element` sets (all but the identifier).
pub open spec fn list_box_fields(
    r: ListBox,
    a: Seq<(Seq<char>, Seq<char>)>,
    children: Seq<ChildNode>,
) -> bool {
    &&& r.options@.len() == elements_named(children, "option"@).len()
    &&& forall|k: int|
        0 <= k < r.options@.len() ==> (#[trigger] r.options@[k])@ == option_of(
            elements_named(children, "option"@)[k],
        )
    &&& Seq::new(r.values@.len(), |k: int| r.values@[k]@) == selected_options(
        elements_named(children, "option"@),
    )
    &&& r.multiselect == attr_v(a, "multiselect"@) is Some
}

/// The list box a `<listbox>` element describes: one option per
/// `<option>` child, in order; those carrying `selected` start selected;
/// several may be selected when it carries `multiselect`.
pub fn list_box_from_element(
    pools: &mut WidgetIdPools,
    attrs: &KeyedMap<String>,
    children: &Vec<ChildNode>,
) -> (r: ListBox)
    requires
        old(pools).view_pools().len() == WIDGET_KIND_COUNT,
        kind_can_acquire(old(pools).view_pools(), WidgetKind::ListBox),
    ensures
        final(pools).view_pools() == pools_after_acquire(
            old(pools).view_pools(),
            WidgetKind::ListBox,
        ),
        r.entry == acquired_id(old(pools).view_pools(), WidgetKind::ListBox),
        list_box_fields(r, attrs.entries_spec(), children@),
{
    let ghost opts = elements_named(children@, "option"@);
    let mut l = ListBox::new(pools);
    let (options, marks) = collect_options(children);
    let mut values: Vec<ChoiceOption> = Vec::new();
    let mut i: usize = 0;
    while i < options.len()
        invariant
            i <= options@.len(),
            options@.len() == opts.len(),
            marks@.len() == opts.len(),
            forall|k: int|
                0 <= k < options@.len() ==> (#[trigger] options@[k])@ == option_of(opts[k])
                    && marks@[k] == (attr_v(opts[k].0, "selected"@) is Some),
            Seq::new(values@.len(), |k: int| values@[k]@) == selected_options(opts.take(i as int)),
        decreases options.len() - i,
    {
        assert(opts.take(i + 1).drop_last() =~= opts.take(i as int));
        if marks[i] {
            let ghost before = Seq::new(values@.len(), |k: int| values@[k]@);
            values.push(copy_option(&options[i]));
            assert(Seq::new(values@.len(), |k: int| values@[k]@) =~= before.push(
                option_of(opts[i as int]),
            ));
        }
        i = i + 1;
    }
    assert(opts.take(opts.len() as int) =~= opts);
    l.options = options;
    l.values = values;
    l.multiselect = has_attr(attrs, "multiselect");
    l
}

/// The fields `table_cell_from_element` sets (all but the identifier).
pub open spec fn table_cell_fields(r: TableCell, tag: Seq<char>) -> bool {
    &&& r.header == (tag == "th"@)
    &&& r.section == crate::html::TableSection::Body
    &&& r.row == 0
    &&& r.col == 0
}

/// The cell a `<td>` or `<th>` element describes: a header cell for `th`.
pub fn table_cell_from_element(pools: &mut WidgetIdPools, tag: &str) -> (r: TableCell)
    requires
        old(pools).view_pools().len() == WIDGET_KIND_COUNT,
        kind_can_acquire(old(pools).view_pools(), WidgetKind::TableCell),
    ensures
        final(pools).view_pools() == pools_after_acquire(
            old(pools).view_pools(),
            WidgetKind::TableCell,
        ),
        r.entry == acquired_id(old(pools).view_pools(), WidgetKind::TableCell),
        table_cell_fields(r, tag@),
{
    let mut c = TableCell::new(pools);
    let t = text::str_to_chars(tag);
    c.header = text::chars_eq_str(&t, "th");
    c
}

// ---------------------------------------------------------------------------
// Event handlers
// ---------------------------------------------------------------------------

/// The names of the functions an element's event attributes bind.
pub struct HtmlEventBindings {
    pub onclick: Option<String>,
    pub onmousedown: Option<String>,
    pub onmouseup: Option<String>,
    pub onmouseover: Option<String>,
    pub onmouseout: Option<String>,
    pub onchange: Option<String>,
    pub oninit: Option<String>,
    pub onfoucs: Option<String>,
    pub onscroll: Option<String>,
    pub onwheel: Option<String>,
    pub onkeydown: Option<String>,
    pub onkeyup: Option<String>,
    pub ondragstart: Option<String>,
    pub ondrag: Option<String>,
    pub ondragstop: Option<String>,
    pub ontouchstart: Option<String>,
    pub ontouchmove: Option<String>,
    pub ontouchend: Option<String>,
}

/// The handler an event attribute `name` names, else the one its
/// alternative spelling `alt` names.
pub open spec fn handler_attr(
    a: Seq<(Seq<char>, Seq<char>)>,
    name: Seq<char>,
    alt: Option<Seq<char>>,
) -> Option<Seq<char>> {
    match attr_v(a, name) {
        Some(v) => Some(v),
        None => match alt {
            Some(n) => attr_v(a, n),
            None => None,
        },
    }
}

/// The handler an event attribute names (`handler_attr`).
fn handler(attrs: &KeyedMap<String>, name: &str, alt: Option<&str>) -> (r: Option<String>)
    ensures
        opt_str(r) == handler_attr(attrs.entries_spec(), name@, elements::opt_str(alt)),
{
    match attr(attrs, name) {
        Some(v) => Some(String::from_str(v)),
        None => match alt {
            Some(n) => match attr(attrs, n) {
                Some(v) => Some(String::from_str(v)),
                None => None,
            },
            None => None,
        },
    }
}

/// Whether `b` holds the handlers the attributes `a` bind (those
/// `bind_html_func` reads).
pub open spec fn bindings_of(b: HtmlEventBindings, a: Seq<(Seq<char>, Seq<char>)>) -> bool {
    &&& opt_str(b.onclick) == handler_attr(a, "onclick"@, None)
    &&& opt_str(b.onmousedown) == handler_attr(a, "onmousedown"@, None)
    &&& opt_str(b.onmouseup) == handler_attr(a, "onmouseup"@, None)
    &&& opt_str(b.onmouseover) == handler_attr(a, "onmouseover"@, Some("onmouseenter"@))
    &&& opt_str(b.onmouseout) == handler_attr(a, "onmouseout"@, Some("onmouseleave"@))
    &&& opt_str(b.onchange) == handler_attr(a, "onchange"@, None)
    &&& opt_str(b.oninit) == handler_attr(a, "oninit"@, None)
    &&& opt_str(b.onfoucs) == handler_attr(a, "onfoucs"@, Some("onfocus"@))
    &&& opt_str(b.onscroll) == handler_attr(a, "onscroll"@, None)
    &&& opt_str(b.onwheel) == handler_attr(a, "onwheel"@, Some("onmousewheel"@))
    &&& opt_str(b.onkeydown) == handler_attr(a, "onkeydown"@, None)
    &&& opt_str(b.onkeyup) == handler_attr(a, "onkeyup"@, None)
    &&& opt_str(b.ondragstart) == handler_attr(a, "ondragstart"@, None)
    &&& opt_str(b.ondrag) == handler_attr(a, "ondrag"@, None)
    &&& opt_str(b.ondragstop) == handler_attr(a, "ondragstop"@, Some("ondragend"@))
    &&& opt_str(b.ontouchstart) == handler_attr(a, "ontouchstart"@, None)
    &&& opt_str(b.ontouchmove) == handler_attr(a, "ontouchmove"@, None)
    &&& opt_str(b.ontouchend) == handler_attr(a, "ontouchend"@, None)
}

/// The handlers an element's event attributes bind: each `on..` attribute
/// by name; `onmouseenter`, `onmouseleave`, `onfocus`, `onmousewheel` and
/// `ondragend` stand in for `onmouseover`, `onmouseout`, `onfoucs`,
/// `onwheel` and `ondragstop` when those are absent.
pub fn bind_html_func(attrs: &KeyedMap<String>) -> (r: HtmlEventBindings)
    ensures
        bindings_of(r, attrs.entries_spec()),
{
    HtmlEventBindings {
        onclick: handler(attrs, "onclick", None),
        onmousedown: handler(attrs, "onmousedown", None),
        onmouseup: handler(attrs, "onmouseup", None),
        onmouseover: handler(attrs, "onmouseover", Some("onmouseenter")),
        onmouseout: handler(attrs, "onmouseout", Some("onmouseleave")),
        onchange: handler(attrs, "onchange", None),
        oninit: handler(attrs, "oninit", None),
        onfoucs: handler(attrs, "onfoucs", Some("onfocus")),
        onscroll: handler(attrs, "onscroll", None),
        onwheel: handler(attrs, "onwheel", Some("onmousewheel")),
        onkeydown: handler(attrs, "onkeydown", None),
        onkeyup: handler(attrs, "onkeyup", None),
        ondragstart: handler(attrs, "ondragstart", None),
        ondrag: handler(attrs, "ondrag", None),
        ondragstop: handler(attrs, "ondragstop", Some("ondragend")),
        ontouchstart: handler(attrs, "ontouchstart", None),
        ontouchmove: handler(attrs, "ontouchmove", None),
        ontouchend: handler(attrs, "ontouchend", None),
    }
}

} // verus!
