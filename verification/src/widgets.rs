//! Widget attribute values: the keyword parsers of the widget enums, the
//! validation rule syntax, browser lists, badge anchors, input character
//! classes and colour strings.
use vstd::prelude::*;
use crate::text;

verus! {

/// `value.trim().to_ascii_lowercase()`.
pub open spec fn norm(s: Seq<char>) -> Seq<char> {
    text::ascii_lower(text::trim(s))
}

/// `norm` of a string.
pub fn norm_exec(s: &str) -> (r: Vec<char>)
    ensures
        r@ == norm(s@),
{
    let c = text::str_to_chars(s);
    let t = text::trim_chars(&c);
    text::lower_chars(&t)
}

// ---------------------------------------------------------------------------
// Forms and buttons
// ---------------------------------------------------------------------------

/// When a form validates its fields.
#[derive(Debug, Clone, Copy, PartialEq, Eq, Structural)]
pub enum FormValidationMode {
    /// On every interaction.
    Always,
    /// On submit only (the default).
    Send,
    /// On direct input.
    Interact,
}

impl Default for FormValidationMode {
    fn default() -> (r: Self)
        ensures
            r == FormValidationMode::Send,
    {
        FormValidationMode::Send
    }
}

/// The mode a `validate` attribute names; the spelling `Allways` is taken
/// for `Always`.
pub open spec fn form_validation_mode(s: Seq<char>) -> Option<FormValidationMode> {
    let n = norm(s);
    if n == "always"@ || n == "allways"@ || n == "all"@ {
        Some(FormValidationMode::Always)
    } else if n == "send"@ {
        Some(FormValidationMode::Send)
    } else if n == "interact"@ {
        Some(FormValidationMode::Interact)
    } else {
        None
    }
}

impl FormValidationMode {
    /// Parses a form `validate` attribute (`form_validation_mode`).
    pub fn from_str(value: &str) -> (r: Option<FormValidationMode>)
        ensures
            r == form_validation_mode(value@),
    {
        let n = norm_exec(value);
        if text::chars_eq_str(&n, "always") || text::chars_eq_str(&n, "allways")
            || text::chars_eq_str(&n, "all") {
            Some(FormValidationMode::Always)
        } else if text::chars_eq_str(&n, "send") {
            Some(FormValidationMode::Send)
        } else if text::chars_eq_str(&n, "interact") {
            Some(FormValidationMode::Interact)
        } else {
            None
        }
    }
}

/// What a button does.
#[derive(Debug, Clone, Copy, PartialEq, Eq, Structural)]
pub enum ButtonType {
    /// No type given (the default).
    Auto,
    /// A plain button.
    Button,
    /// Submits its form.
    Submit,
    /// Resets its form.
    Reset,
}

impl Default for ButtonType {
    fn default() -> (r: Self)
        ensures
            r == ButtonType::Auto,
    {
        ButtonType::Auto
    }
}

/// The button type a `type` attribute names (ASCII case ignored, no
/// trimming).
pub open spec fn button_type(s: Seq<char>) -> Option<ButtonType> {
    let n = text::ascii_lower(s);
    if n == "button"@ {
        Some(ButtonType::Button)
    } else if n == "submit"@ {
        Some(ButtonType::Submit)
    } else if n == "reset"@ {
        Some(ButtonType::Reset)
    } else {
        None
    }
}

impl ButtonType {
    /// Parses a button `type` attribute (`button_type`).
    pub fn from_str(value: &str) -> (r: Option<ButtonType>)
        ensures
            r == button_type(value@),
    {
        let c = text::str_to_chars(value);
        let n = text::lower_chars(&c);
        if text::chars_eq_str(&n, "button") {
            Some(ButtonType::Button)
        } else if text::chars_eq_str(&n, "submit") {
            Some(ButtonType::Submit)
        } else if text::chars_eq_str(&n, "reset") {
            Some(ButtonType::Reset)
        } else {
            None
        }
    }
}

// ---------------------------------------------------------------------------
// Dividers, field sets, headlines, dates
// ---------------------------------------------------------------------------

/// Orientation of a divider.
#[derive(Debug, Clone, Copy, PartialEq, Eq, Structural)]
pub enum DividerAlignment {
    /// The default.
    Vertical,
    Horizontal,
}

impl Default for DividerAlignment {
    fn default() -> (r: Self)
        ensures
            r == DividerAlignment::Vertical,
    {
        DividerAlignment::Vertical
    }
}

/// The orientation a divider attribute names.
pub open spec fn divider_alignment(s: Seq<char>) -> Option<DividerAlignment> {
    let n = norm(s);
    if n == "vertical"@ || n == "vert"@ || n == "v"@ {
        Some(DividerAlignment::Vertical)
    } else if n == "horizontal"@ || n == "horiz"@ || n == "h"@ {
        Some(DividerAlignment::Horizontal)
    } else {
        None
    }
}

impl DividerAlignment {
    /// Parses a divider orientation (`divider_alignment`).
    pub fn from_str(s: &str) -> (r: Option<Self>)
        ensures
            r == divider_alignment(s@),
    {
        let n = norm_exec(s);
        if text::chars_eq_str(&n, "vertical") || text::chars_eq_str(&n, "vert")
            || text::chars_eq_str(&n, "v") {
            Some(DividerAlignment::Vertical)
        } else if text::chars_eq_str(&n, "horizontal") || text::chars_eq_str(&n, "horiz")
            || text::chars_eq_str(&n, "h") {
            Some(DividerAlignment::Horizontal)
        } else {
            None
        }
    }

    /// The lowercase name of the orientation.
    pub fn as_str(&self) -> (r: &'static str)
        ensures
            r@ == (match self {
                DividerAlignment::Horizontal => "horizontal"@,
                DividerAlignment::Vertical => "vertical"@,
            }),
    {
        match self {
            DividerAlignment::Horizontal => "horizontal",
            DividerAlignment::Vertical => "vertical",
        }
    }
}

/// How many members of a field set can be selected.
#[derive(Debug, Clone, Copy, PartialEq, Eq, Structural)]
pub enum FieldMode {
    Multi,
    Single,
    /// At most this many.
    Count(u8),
}

/// `count(`.
pub open spec fn count_open() -> Seq<char> {
    "count("@
}

/// The mode a field set attribute names: `single`/`solo`/`one`,
/// `multi`/`more`, `count` (zero), or `count(n)` with `n` a `u8` (blank
/// means zero; anything else that is not a `u8` gives `None`).
pub open spec fn field_mode(s: Seq<char>) -> Option<FieldMode> {
    let n = norm(s);
    if count_open().is_prefix_of(n) && n.len() > count_open().len() && n.last() == ')' {
        let inner = text::trim(n.subrange(count_open().len() as int, n.len() - 1));
        if inner.len() == 0 {
            Some(FieldMode::Count(0))
        } else {
            match text::parse_unsigned(inner, 255) {
                Some(v) => Some(FieldMode::Count(v as u8)),
                None => None,
            }
        }
    } else if n == "single"@ || n == "solo"@ || n == "one"@ {
        Some(FieldMode::Single)
    } else if n == "multi"@ || n == "more"@ {
        Some(FieldMode::Multi)
    } else if n == "count"@ {
        Some(FieldMode::Count(0))
    } else {
        None
    }
}

impl FieldMode {
    /// Parses a field set mode (`field_mode`).
    pub fn from_str(s: &str) -> (r: Option<Self>)
        ensures
            r == field_mode(s@),
    {
        let n = norm_exec(s);
        let open = text::str_to_chars("count(");
        if text::starts_with(&n, &open) && n.len() > open.len() && n[n.len() - 1] == ')' {
            let raw = text::slice_chars(&n, open.len(), n.len() - 1);
            let inner = text::trim_chars(&raw);
            if inner.len() == 0 {
                return Some(FieldMode::Count(0));
            }
            return match text::parse_unsigned_chars(&inner, 255) {
                Some(v) => Some(FieldMode::Count(v as u8)),
                None => None,
            };
        }
        if text::chars_eq_str(&n, "single") || text::chars_eq_str(&n, "solo")
            || text::chars_eq_str(&n, "one") {
            Some(FieldMode::Single)
        } else if text::chars_eq_str(&n, "multi") || text::chars_eq_str(&n, "more") {
            Some(FieldMode::Multi)
        } else if text::chars_eq_str(&n, "count") {
            Some(FieldMode::Count(0))
        } else {
            None
        }
    }
}

/// Heading level.
#[derive(Debug, Clone, Copy, PartialEq, Eq, Structural)]
pub enum HeadlineType {
    /// The default.
    H1,
    H2,
    H3,
    H4,
    H5,
    H6,
}

impl Default for HeadlineType {
    fn default() -> (r: Self)
        ensures
            r == HeadlineType::H1,
    {
        HeadlineType::H1
    }
}

impl HeadlineType {
    /// The tag name of the level.
    pub fn as_str(&self) -> (r: &'static str)
        ensures
            r@ == (match self {
                HeadlineType::H1 => "h1"@,
                HeadlineType::H2 => "h2"@,
                HeadlineType::H3 => "h3"@,
                HeadlineType::H4 => "h4"@,
                HeadlineType::H5 => "h5"@,
                HeadlineType::H6 => "h6"@,
            }),
    {
        match self {
            HeadlineType::H1 => "h1",
            HeadlineType::H2 => "h2",
            HeadlineType::H3 => "h3",
            HeadlineType::H4 => "h4",
            HeadlineType::H5 => "h5",
            HeadlineType::H6 => "h6",
        }
    }
}

/// Order of day, month and year in a displayed date.
#[derive(Debug, Clone, Copy, PartialEq, Eq, Structural)]
pub enum DateFormat {
    /// The default.
    MonthDayYear,
    DayMonthYear,
    YearMonthDay,
}

impl Default for DateFormat {
    fn default() -> (r: Self)
        ensures
            r == DateFormat::MonthDayYear,
    {
        DateFormat::MonthDayYear
    }
}

/// The date order a format attribute names.
pub open spec fn date_format(s: Seq<char>) -> Option<DateFormat> {
    let n = norm(s);
    if n == "mdy"@ || n == "mm/dd/yyyy"@ || n == "mm-dd-yyyy"@ || n == "mm.dd.yyyy"@ || n
        == "month-day-year"@ {
        Some(DateFormat::MonthDayYear)
    } else if n == "dmy"@ || n == "dd/mm/yyyy"@ || n == "dd-mm-yyyy"@ || n == "dd.mm.yyyy"@ || n
        == "day-month-year"@ {
        Some(DateFormat::DayMonthYear)
    } else if n == "ymd"@ || n == "yyyy-mm-dd"@ || n == "yyyy/mm/dd"@ || n == "yyyy.mm.dd"@ || n
        == "year-month-day"@ || n == "iso"@ {
        Some(DateFormat::YearMonthDay)
    } else {
        None
    }
}

impl DateFormat {
    /// Parses a date format attribute (`date_format`).
    pub fn from_str(value: &str) -> (r: Option<DateFormat>)
        ensures
            r == date_format(value@),
    {
        let n = norm_exec(value);
        if text::chars_eq_str(&n, "mdy") || text::chars_eq_str(&n, "mm/dd/yyyy")
            || text::chars_eq_str(&n, "mm-dd-yyyy") || text::chars_eq_str(&n, "mm.dd.yyyy")
            || text::chars_eq_str(&n, "month-day-year") {
            Some(DateFormat::MonthDayYear)
        } else if text::chars_eq_str(&n, "dmy") || text::chars_eq_str(&n, "dd/mm/yyyy")
            || text::chars_eq_str(&n, "dd-mm-yyyy") || text::chars_eq_str(&n, "dd.mm.yyyy")
            || text::chars_eq_str(&n, "day-month-year") {
            Some(DateFormat::DayMonthYear)
        } else if text::chars_eq_str(&n, "ymd") || text::chars_eq_str(&n, "yyyy-mm-dd")
            || text::chars_eq_str(&n, "yyyy/mm/dd") || text::chars_eq_str(&n, "yyyy.mm.dd")
            || text::chars_eq_str(&n, "year-month-day") || text::chars_eq_str(&n, "iso") {
            Some(DateFormat::YearMonthDay)
        } else {
            None
        }
    }
}


// ---------------------------------------------------------------------------
// Input fields
// ---------------------------------------------------------------------------

/// `str::to_lowercase`: the Unicode lowercase mapping of a whole string.
pub uninterp spec fn str_lowercase(s: Seq<char>) -> Seq<char>;

/// Calls `str::to_lowercase`; the Unicode mapping is named, not spelt out.
#[verifier::external_body]
pub(crate) fn lowercase_string(s: &str) -> (r: String)
    ensures
        r@ == str_lowercase(s@),
{
    s.to_lowercase()
}

/// Kind of an input field.
#[derive(Debug, Clone, Copy, PartialEq, Eq, Structural)]
pub enum InputType {
    /// The default.
    Text,
    Email,
    Date,
    Range,
    Password,
    Number,
    File,
}

impl Default for InputType {
    fn default() -> (r: Self)
        ensures
            r == InputType::Text,
    {
        InputType::Text
    }
}

/// The characters `+-*/()., ` a number field accepts besides digits.
pub open spec fn number_symbol(c: char) -> bool {
    c == '+' || c == '-' || c == '*' || c == '/' || c == '(' || c == ')' || c == '.' || c == ','
        || c == ' '
}

/// Whether an input field of kind `t` accepts the character `c`.
pub open spec fn valid_char(t: InputType, c: char) -> bool {
    match t {
        InputType::Text | InputType::Password => true,
        InputType::Number => text::is_ascii_digit(c) || number_symbol(c),
        InputType::Email => text::is_ascii_alnum(c) || c == '@' || c == '.' || c == '-',
        InputType::Date => text::is_ascii_digit(c) || c == '/' || c == '-' || c == '.',
        InputType::Range => text::is_ascii_digit(c) || c == '/' || c == '-' || c == '.' || c
            == ' ',
        InputType::File => false,
    }
}

/// The input kind a `type` attribute names, compared after Unicode
/// lowercasing.
pub open spec fn input_type(s: Seq<char>) -> Option<InputType> {
    let n = str_lowercase(s);
    if n == "text"@ {
        Some(InputType::Text)
    } else if n == "password"@ {
        Some(InputType::Password)
    } else if n == "number"@ {
        Some(InputType::Number)
    } else if n == "email"@ {
        Some(InputType::Email)
    } else if n == "date"@ {
        Some(InputType::Date)
    } else if n == "range"@ {
        Some(InputType::Range)
    } else if n == "file"@ {
        Some(InputType::File)
    } else {
        None
    }
}

impl InputType {
    /// Whether the field accepts `c` (`valid_char`).
    pub fn is_valid_char(&self, c: char) -> (r: bool)
        ensures
            r == valid_char(*self, c),
    {
        let digit = '0' <= c && c <= '9';
        match self {
            InputType::Text | InputType::Password => true,
            InputType::Number => digit || c == '+' || c == '-' || c == '*' || c == '/' || c
                == '(' || c == ')' || c == '.' || c == ',' || c == ' ',
            InputType::Email => digit || ('a' <= c && c <= 'z') || ('A' <= c && c <= 'Z') || c
                == '@' || c == '.' || c == '-',
            InputType::Date => digit || c == '/' || c == '-' || c == '.',
            InputType::Range => digit || c == '/' || c == '-' || c == '.' || c == ' ',
            InputType::File => false,
        }
    }

    /// Parses an input `type` attribute (`input_type`).
    pub fn from_str(value: &str) -> (r: Option<InputType>)
        ensures
            r == input_type(value@),
    {
        let lower = lowercase_string(value);
        let n = text::str_to_chars(lower.as_str());
        if text::chars_eq_str(&n, "text") {
            Some(InputType::Text)
        } else if text::chars_eq_str(&n, "password") {
            Some(InputType::Password)
        } else if text::chars_eq_str(&n, "number") {
            Some(InputType::Number)
        } else if text::chars_eq_str(&n, "email") {
            Some(InputType::Email)
        } else if text::chars_eq_str(&n, "date") {
            Some(InputType::Date)
        } else if text::chars_eq_str(&n, "range") {
            Some(InputType::Range)
        } else if text::chars_eq_str(&n, "file") {
            Some(InputType::File)
        } else {
            None
        }
    }
}

/// How long the text of an input field may get.
#[derive(Debug, Clone, Copy, PartialEq, Eq, Structural)]
pub enum InputCap {
    /// No limit (the default).
    NoCap,
    /// Limited by the size of the node.
    CapAtNodeSize,
    /// At most this many characters; zero means no limit.
    CapAt(usize),
}

impl Default for InputCap {
    fn default() -> (r: Self)
        ensures
            r == InputCap::NoCap,
    {
        InputCap::NoCap
    }
}

impl InputCap {
    /// The fixed limit, zero when there is none.
    pub fn get_value(&self) -> (r: usize)
        ensures
            r == (match self {
                InputCap::CapAt(v) => *v,
                _ => 0,
            }),
    {
        match self {
            InputCap::CapAt(value) => *value,
            InputCap::NoCap => 0,
            InputCap::CapAtNodeSize => 0,
        }
    }
}

// ---------------------------------------------------------------------------
// Tooltips and sliders
// ---------------------------------------------------------------------------

/// How a tooltip is placed.
#[derive(Debug, Clone, Copy, PartialEq, Eq, Structural)]
pub enum ToolTipVariant {
    /// Follows the cursor (the default).
    Follow,
    /// Anchored to its target.
    Point,
}

impl Default for ToolTipVariant {
    fn default() -> (r: Self)
        ensures
            r == ToolTipVariant::Follow,
    {
        ToolTipVariant::Follow
    }
}

/// The placement a `variant` attribute names.
pub open spec fn tooltip_variant(s: Seq<char>) -> Option<ToolTipVariant> {
    if norm(s) == "follow"@ {
        Some(ToolTipVariant::Follow)
    } else if norm(s) == "point"@ {
        Some(ToolTipVariant::Point)
    } else {
        None
    }
}

impl ToolTipVariant {
    /// Parses `follow` / `point`, trimmed, ASCII case ignored.
    pub fn from_str(value: &str) -> (r: Option<Self>)
        ensures
            r == tooltip_variant(value@),
    {
        let n = norm_exec(value);
        if text::chars_eq_str(&n, "follow") {
            Some(ToolTipVariant::Follow)
        } else if text::chars_eq_str(&n, "point") {
            Some(ToolTipVariant::Point)
        } else {
            None
        }
    }
}

/// Preferred side of a tooltip.
#[derive(Debug, Clone, Copy, PartialEq, Eq, Structural)]
pub enum ToolTipPriority {
    Top,
    Bottom,
    Left,
    /// The default.
    Right,
}

impl Default for ToolTipPriority {
    fn default() -> (r: Self)
        ensures
            r == ToolTipPriority::Right,
    {
        ToolTipPriority::Right
    }
}

/// The side a `prio` attribute names.
pub open spec fn tooltip_priority(s: Seq<char>) -> Option<ToolTipPriority> {
    if norm(s) == "top"@ {
        Some(ToolTipPriority::Top)
    } else if norm(s) == "bottom"@ {
        Some(ToolTipPriority::Bottom)
    } else if norm(s) == "left"@ {
        Some(ToolTipPriority::Left)
    } else if norm(s) == "right"@ {
        Some(ToolTipPriority::Right)
    } else {
        None
    }
}

impl ToolTipPriority {
    /// Parses `top` / `bottom` / `left` / `right`, trimmed, ASCII case
    /// ignored.
    pub fn from_str(value: &str) -> (r: Option<Self>)
        ensures
            r == tooltip_priority(value@),
    {
        let n = norm_exec(value);
        if text::chars_eq_str(&n, "top") {
            Some(ToolTipPriority::Top)
        } else if text::chars_eq_str(&n, "bottom") {
            Some(ToolTipPriority::Bottom)
        } else if text::chars_eq_str(&n, "left") {
            Some(ToolTipPriority::Left)
        } else if text::chars_eq_str(&n, "right") {
            Some(ToolTipPriority::Right)
        } else {
            None
        }
    }
}

/// Axis along which a tooltip's side is chosen.
#[derive(Debug, Clone, Copy, PartialEq, Eq, Structural)]
pub enum ToolTipAlignment {
    Vertical,
    /// The default.
    Horizontal,
}

impl Default for ToolTipAlignment {
    fn default() -> (r: Self)
        ensures
            r == ToolTipAlignment::Horizontal,
    {
        ToolTipAlignment::Horizontal
    }
}

/// The axis an `alignment` attribute names.
pub open spec fn tooltip_alignment(s: Seq<char>) -> Option<ToolTipAlignment> {
    if norm(s) == "vertical"@ {
        Some(ToolTipAlignment::Vertical)
    } else if norm(s) == "horizontal"@ {
        Some(ToolTipAlignment::Horizontal)
    } else {
        None
    }
}

impl ToolTipAlignment {
    /// Parses `vertical` / `horizontal`, trimmed, ASCII case ignored.
    pub fn from_str(value: &str) -> (r: Option<Self>)
        ensures
            r == tooltip_alignment(value@),
    {
        let n = norm_exec(value);
        if text::chars_eq_str(&n, "vertical") {
            Some(ToolTipAlignment::Vertical)
        } else if text::chars_eq_str(&n, "horizontal") {
            Some(ToolTipAlignment::Horizontal)
        } else {
            None
        }
    }
}

/// What shows a tooltip.
#[derive(Debug, Clone, Copy, PartialEq, Eq, Structural)]
pub enum ToolTipTrigger {
    Hover,
    Click,
    Drag,
}

/// The trigger a token names.
pub open spec fn tooltip_trigger(s: Seq<char>) -> Option<ToolTipTrigger> {
    if norm(s) == "hover"@ {
        Some(ToolTipTrigger::Hover)
    } else if norm(s) == "click"@ {
        Some(ToolTipTrigger::Click)
    } else if norm(s) == "drag"@ {
        Some(ToolTipTrigger::Drag)
    } else {
        None
    }
}

impl ToolTipTrigger {
    /// Parses one trigger token (`tooltip_trigger`).
    pub fn from_str(value: &str) -> (r: Option<Self>)
        ensures
            r == tooltip_trigger(value@),
    {
        let n = norm_exec(value);
        if text::chars_eq_str(&n, "hover") {
            Some(ToolTipTrigger::Hover)
        } else if text::chars_eq_str(&n, "click") {
            Some(ToolTipTrigger::Click)
        } else if text::chars_eq_str(&n, "drag") {
            Some(ToolTipTrigger::Drag)
        } else {
            None
        }
    }
}

/// Slider mode.
#[derive(Debug, Clone, Copy, PartialEq, Eq, Structural)]
pub enum SliderType {
    /// One value (the default).
    Default,
    /// A range of two values.
    Range,
}

impl Default for SliderType {
    fn default() -> (r: Self)
        ensures
            r == SliderType::Default,
    {
        SliderType::Default
    }
}

impl SliderType {
    /// Parses `default` / `range`, trimmed, ASCII case ignored.
    pub fn from_str(value: &str) -> (r: Option<Self>)
        ensures
            r == (if norm(value@) == "default"@ {
                Some(SliderType::Default)
            } else if norm(value@) == "range"@ {
                Some(SliderType::Range)
            } else {
                None
            }),
    {
        let n = norm_exec(value);
        if text::chars_eq_str(&n, "default") {
            Some(SliderType::Default)
        } else if text::chars_eq_str(&n, "range") {
            Some(SliderType::Range)
        } else {
            None
        }
    }
}

/// Where slider dot labels sit.
#[derive(Debug, Clone, Copy, PartialEq, Eq, Structural)]
pub enum SliderDotAnchor {
    /// The default.
    Top,
    Bottom,
}

impl Default for SliderDotAnchor {
    fn default() -> (r: Self)
        ensures
            r == SliderDotAnchor::Top,
    {
        SliderDotAnchor::Top
    }
}

impl SliderDotAnchor {
    /// Parses `top` / `bottom`, trimmed, ASCII case ignored.
    pub fn from_str(value: &str) -> (r: Option<Self>)
        ensures
            r == (if norm(value@) == "top"@ {
                Some(SliderDotAnchor::Top)
            } else if norm(value@) == "bottom"@ {
                Some(SliderDotAnchor::Bottom)
            } else {
                None
            }),
    {
        let n = norm_exec(value);
        if text::chars_eq_str(&n, "top") {
            Some(SliderDotAnchor::Top)
        } else if text::chars_eq_str(&n, "bottom") {
            Some(SliderDotAnchor::Bottom)
        } else {
            None
        }
    }
}


// ---------------------------------------------------------------------------
// Hyperlink browsers
// ---------------------------------------------------------------------------

/// `s` without leading `c`s.
pub open spec fn trim_char_start(s: Seq<char>, c: char) -> Seq<char>
    decreases s.len(),
{
    if s.len() > 0 && s[0] == c {
        trim_char_start(s.drop_first(), c)
    } else {
        s
    }
}

/// `s` without trailing `c`s.
pub open spec fn trim_char_end(s: Seq<char>, c: char) -> Seq<char>
    decreases s.len(),
{
    if s.len() > 0 && s.last() == c {
        trim_char_end(s.drop_last(), c)
    } else {
        s
    }
}

/// `str::trim_matches` with a character.
pub open spec fn trim_matches(s: Seq<char>, c: char) -> Seq<char> {
    trim_char_end(trim_char_start(s, c), c)
}

/// A browser name: trimmed, quotes (`"` then `'`) stripped from both ends,
/// trimmed again, ASCII lowercased.
pub open spec fn browser_name(v: Seq<char>) -> Seq<char> {
    text::ascii_lower(text::trim(trim_matches(trim_matches(text::trim(v), '"'), '\'')))
}

/// The non-empty browser names of a list's items, in order.
pub open spec fn browser_list(items: Seq<Seq<char>>) -> Seq<Seq<char>>
    decreases items.len(),
{
    if items.len() == 0 {
        seq![]
    } else {
        let rest = browser_list(items.drop_last());
        let n = browser_name(items.last());
        if n.len() == 0 {
            rest
        } else {
            rest.push(n)
        }
    }
}

/// Which browsers a link opens in.
#[derive(Debug, Clone, PartialEq, Eq)]
pub enum HyperLinkBrowsers {
    /// The system's default browser (the default).
    System,
    /// The first of these that is available.
    Custom(Vec<String>),
}

/// View of [`HyperLinkBrowsers`]: `None` for the system browser.
pub open spec fn browsers_view(b: HyperLinkBrowsers) -> Option<Seq<Seq<char>>> {
    match b {
        HyperLinkBrowsers::System => None,
        HyperLinkBrowsers::Custom(v) => Some(Seq::new(v@.len(), |i: int| v@[i]@)),
    }
}

/// The browsers a `browsers` attribute names (`None`: the system browser):
/// blank or `system` (ASCII case ignored) is the system browser; `[a, b]`
/// lists names; anything else is one name, where `system` again means the
/// system browser; a list without names is the system browser too.
pub open spec fn hyperlink_browsers(v: Seq<char>) -> Option<Seq<Seq<char>>> {
    let t = text::trim(v);
    if t.len() == 0 || text::ascii_lower(t) == "system"@ {
        None
    } else if t.len() >= 2 && t[0] == '[' && t.last() == ']' {
        let list = browser_list(crate::uses::split_on(t.subrange(1, t.len() - 1), ','));
        if list.len() == 0 {
            None
        } else {
            Some(list)
        }
    } else {
        let single = browser_name(t);
        if single.len() == 0 || text::ascii_lower(single) == "system"@ {
            None
        } else {
            Some(seq![single])
        }
    }
}

/// `trim_matches` (`str::trim_matches` with a character).
pub fn trim_matches_exec(s: &Vec<char>, c: char) -> (r: Vec<char>)
    ensures
        r@ == trim_matches(s@, c),
{
    let mut lo: usize = 0;
    assert(s@.skip(0) =~= s@);
    while lo < s.len() && s[lo] == c
        invariant
            lo <= s.len(),
            trim_char_start(s@, c) == trim_char_start(s@.skip(lo as int), c),
        decreases s.len() - lo,
    {
        assert(s@.skip(lo as int).drop_first() =~= s@.skip(lo + 1));
        lo = lo + 1;
    }
    let t = text::slice_chars(s, lo, s.len());
    assert(t@ =~= s@.skip(lo as int));
    assert(trim_char_start(t@, c) == t@);
    let mut hi: usize = t.len();
    assert(t@.take(t.len() as int) =~= t@);
    while hi > 0 && t[hi - 1] == c
        invariant
            hi <= t.len(),
            trim_char_end(t@, c) == trim_char_end(t@.take(hi as int), c),
        decreases hi,
    {
        assert(t@.take(hi as int).drop_last() =~= t@.take(hi - 1));
        hi = hi - 1;
    }
    let r = text::slice_chars(&t, 0, hi);
    assert(r@ =~= t@.take(hi as int));
    assert(t@.take(t.len() as int) =~= t@);
    r
}

/// A browser name (`browser_name`).
fn normalize_browser_name(v: &Vec<char>) -> (r: Vec<char>)
    ensures
        r@ == browser_name(v@),
{
    let a = text::trim_chars(v);
    let b = trim_matches_exec(&a, '"');
    let c = trim_matches_exec(&b, '\'');
    let d = text::trim_chars(&c);
    text::lower_chars(&d)
}

impl HyperLinkBrowsers {
    /// Parses a link's `browsers` attribute (`hyperlink_browsers`); always
    /// `Some`.
    pub fn from_str(value: &str) -> (r: Option<Self>)
        ensures
            r is Some,
            browsers_view(r->0) == hyperlink_browsers(value@),
    {
        let v = text::str_to_chars(value);
        let t = text::trim_chars(&v);
        let tl = text::lower_chars(&t);
        if t.len() == 0 || text::chars_eq_str(&tl, "system") {
            return Some(HyperLinkBrowsers::System);
        }
        let mut names: Vec<String> = Vec::new();
        if t.len() >= 2 && t[0] == '[' && t[t.len() - 1] == ']' {
            let inner = text::slice_chars(&t, 1, t.len() - 1);
            let items = crate::uses::split_on_exec(&inner, ',');
            let ghost iv = crate::uses::vecs_view(items@);
            let mut i: usize = 0;
            while i < items.len()
                invariant
                    i <= items.len(),
                    iv == crate::uses::vecs_view(items@),
                    Seq::new(names@.len(), |k: int| names@[k]@) == browser_list(iv.take(i as int)),
                decreases items.len() - i,
            {
                assert(iv.take(i + 1).drop_last() =~= iv.take(i as int));
                assert(iv.take(i + 1).last() == items@[i as int]@);
                let n = normalize_browser_name(&items[i]);
                if n.len() != 0 {
                    let ghost prev = Seq::new(names@.len(), |k: int| names@[k]@);
                    names.push(text::chars_to_string(&n));
                    assert(Seq::new(names@.len(), |k: int| names@[k]@) =~= prev.push(n@));
                }
                i = i + 1;
            }
            assert(iv.take(items.len() as int) =~= iv);
        } else {
            let single = normalize_browser_name(&t);
            let sl = text::lower_chars(&single);
            if single.len() == 0 || text::chars_eq_str(&sl, "system") {
                return Some(HyperLinkBrowsers::System);
            }
            names.push(text::chars_to_string(&single));
            assert(Seq::new(names@.len(), |k: int| names@[k]@) =~= seq![single@]);
        }
        if names.len() == 0 {
            Some(HyperLinkBrowsers::System)
        } else {
            Some(HyperLinkBrowsers::Custom(names))
        }
    }
}

// ---------------------------------------------------------------------------
// Badge anchors
// ---------------------------------------------------------------------------

/// Corner of its target a badge sits at.
#[derive(Debug, Clone, Copy, PartialEq, Eq, Structural)]
pub enum BadgeAnchor {
    TopLeft,
    /// The default.
    TopRight,
    BottomLeft,
    BottomRight,
}

impl Default for BadgeAnchor {
    fn default() -> (r: Self)
        ensures
            r == BadgeAnchor::TopRight,
    {
        BadgeAnchor::TopRight
    }
}

/// A character that separates anchor words.
pub open spec fn anchor_sep(c: char) -> bool {
    c == ' ' || c == ',' || c == '|' || c == '/'
}

/// ASCII lowercase with `-` and `_` read as spaces.
pub open spec fn anchor_text(s: Seq<char>) -> Seq<char> {
    text::ascii_lower(s).map_values(
        |c: char|
            if c == '-' || c == '_' {
                ' '
            } else {
                c
            },
    )
}

/// Index of the first separator at or after `i`.
pub open spec fn anchor_sep_from(s: Seq<char>, i: int) -> Option<int>
    decreases s.len() - i,
{
    if i < 0 || i >= s.len() {
        None
    } else if anchor_sep(s[i]) {
        Some(i)
    } else {
        anchor_sep_from(s, i + 1)
    }
}

/// The words of `s` between separators (empty ones included).
pub open spec fn anchor_words(s: Seq<char>) -> Seq<Seq<char>>
    decreases s.len(),
{
    match anchor_sep_from(s, 0) {
        Some(i) => if 0 <= i < s.len() {
            seq![s.take(i)] + anchor_words(s.skip(i + 1))
        } else {
            seq![s]
        },
        None => seq![s],
    }
}

/// The last vertical (`Some(true)` for top) and horizontal (`Some(true)`
/// for left) word among `words`, each trimmed.
pub open spec fn anchor_sides(words: Seq<Seq<char>>) -> (Option<bool>, Option<bool>)
    decreases words.len(),
{
    if words.len() == 0 {
        (None, None)
    } else {
        let (v, h) = anchor_sides(words.drop_last());
        let w = text::trim(words.last());
        if w == "top"@ {
            (Some(true), h)
        } else if w == "bottom"@ {
            (Some(false), h)
        } else if w == "left"@ {
            (v, Some(true))
        } else if w == "right"@ {
            (v, Some(false))
        } else {
            (v, h)
        }
    }
}

/// The anchor a badge attribute names: the last of `top`/`bottom` and the
/// last of `left`/`right`; a missing side defaults to top or right; no side
/// at all gives `None`.
pub open spec fn badge_anchor(s: Seq<char>) -> Option<BadgeAnchor> {
    let (v, h) = anchor_sides(anchor_words(anchor_text(s)));
    if v is None && h is None {
        None
    } else {
        let top = match v {
            Some(t) => t,
            None => true,
        };
        let left = match h {
            Some(l) => l,
            None => false,
        };
        Some(
            if top && left {
                BadgeAnchor::TopLeft
            } else if top {
                BadgeAnchor::TopRight
            } else if left {
                BadgeAnchor::BottomLeft
            } else {
                BadgeAnchor::BottomRight
            },
        )
    }
}

fn anchor_words_exec(s: &Vec<char>) -> (r: Vec<Vec<char>>)
    ensures
        crate::uses::vecs_view(r@) == anchor_words(s@),
    decreases s.len(),
{
    let mut i: usize = 0;
    while i < s.len() && !(s[i] == ' ' || s[i] == ',' || s[i] == '|' || s[i] == '/')
        invariant
            i <= s.len(),
            anchor_sep_from(s@, 0) == anchor_sep_from(s@, i as int),
        decreases s.len() - i,
    {
        i = i + 1;
    }
    if i < s.len() {
        let head = text::slice_chars(s, 0, i);
        let tail = text::slice_chars(s, i + 1, s.len());
        assert(tail@ == s@.skip(i + 1));
        let rest = anchor_words_exec(&tail);
        let mut out: Vec<Vec<char>> = Vec::new();
        out.push(head);
        let mut k: usize = 0;
        while k < rest.len()
            invariant
                k <= rest.len(),
                crate::uses::vecs_view(out@) == seq![s@.take(i as int)] + crate::uses::vecs_view(
                    rest@,
                ).take(k as int),
            decreases rest.len() - k,
        {
            let e = rest[k].clone();
            assert(e@ =~= rest@[k as int]@);
            let ghost prev = crate::uses::vecs_view(out@);
            out.push(e);
            assert(crate::uses::vecs_view(out@) =~= prev.push(rest@[k as int]@));
            assert(crate::uses::vecs_view(rest@).take(k + 1) =~= crate::uses::vecs_view(
                rest@,
            ).take(k as int).push(rest@[k as int]@));
            k = k + 1;
        }
        assert(crate::uses::vecs_view(rest@).take(rest.len() as int) =~= crate::uses::vecs_view(
            rest@,
        ));
        out
    } else {
        let mut out: Vec<Vec<char>> = Vec::new();
        out.push(s.clone());
        assert(crate::uses::vecs_view(out@) =~= seq![s@]);
        out
    }
}

impl BadgeAnchor {
    /// Parses a badge anchor such as `top right` or `bottom-left`
    /// (`badge_anchor`).
    pub fn from_str(value: &str) -> (r: Option<Self>)
        ensures
            r == badge_anchor(value@),
    {
        let v = text::str_to_chars(value);
        let lower = text::lower_chars(&v);
        let mut norm: Vec<char> = Vec::new();
        let mut i: usize = 0;
        while i < lower.len()
            invariant
                i <= lower.len(),
                norm@ == anchor_text(v@).take(i as int),
                lower@ == text::ascii_lower(v@),
            decreases lower.len() - i,
        {
            let c = lower[i];
            norm.push(
                if c == '-' || c == '_' {
                    ' '
                } else {
                    c
                },
            );
            assert(norm@ =~= anchor_text(v@).take(i + 1));
            i = i + 1;
        }
        assert(norm@ =~= anchor_text(v@));
        let words = anchor_words_exec(&norm);
        let ghost wv = crate::uses::vecs_view(words@);
        let mut vert: Option<bool> = None;
        let mut horiz: Option<bool> = None;
        let mut k: usize = 0;
        while k < words.len()
            invariant
                k <= words.len(),
                wv == crate::uses::vecs_view(words@),
                (vert, horiz) == anchor_sides(wv.take(k as int)),
            decreases words.len() - k,
        {
            assert(wv.take(k + 1).drop_last() =~= wv.take(k as int));
            assert(wv.take(k + 1).last() == words@[k as int]@);
            let w = text::trim_chars(&words[k]);
            if text::chars_eq_str(&w, "top") {
                vert = Some(true);
            } else if text::chars_eq_str(&w, "bottom") {
                vert = Some(false);
            } else if text::chars_eq_str(&w, "left") {
                horiz = Some(true);
            } else if text::chars_eq_str(&w, "right") {
                horiz = Some(false);
            }
            k = k + 1;
        }
        assert(wv.take(words.len() as int) =~= wv);
        if vert.is_none() && horiz.is_none() {
            return None;
        }
        let top = match vert {
            Some(t) => t,
            None => true,
        };
        let left = match horiz {
            Some(l) => l,
            None => false,
        };
        Some(
            if top && left {
                BadgeAnchor::TopLeft
            } else if top {
                BadgeAnchor::TopRight
            } else if left {
                BadgeAnchor::BottomLeft
            } else {
                BadgeAnchor::BottomRight
            },
        )
    }
}


// ---------------------------------------------------------------------------
// Validation rules
// ---------------------------------------------------------------------------

/// Validation rules of a form field.
#[derive(Debug, Clone, PartialEq, Eq)]
pub struct ValidationRules {
    pub required: bool,
    pub min_length: Option<usize>,
    pub max_length: Option<usize>,
    pub pattern: Option<String>,
}

/// Mathematical view of [`ValidationRules`].
pub struct RulesV {
    pub required: bool,
    pub min_length: Option<usize>,
    pub max_length: Option<usize>,
    pub pattern: Option<Seq<char>>,
}

impl View for ValidationRules {
    type V = RulesV;

    open spec fn view(&self) -> RulesV {
        RulesV {
            required: self.required,
            min_length: self.min_length,
            max_length: self.max_length,
            pattern: match &self.pattern {
                Some(p) => Some(p@),
                None => None,
            },
        }
    }
}

/// No rule at all.
pub open spec fn no_rules() -> RulesV {
    RulesV { required: false, min_length: None, max_length: None, pattern: None }
}

/// A length given as `usize` text.
pub open spec fn parse_length(s: Seq<char>) -> Option<usize> {
    match text::parse_unsigned(s, usize::MAX as nat) {
        Some(v) => Some(v as usize),
        None => None,
    }
}

/// `length(n)` sets both bounds to `n`; `length(min, max, ...)` sets each
/// bound that parses; arguments that do not parse leave a bound as it was.
pub open spec fn length_rules(args: Seq<char>, r: RulesV) -> RulesV {
    let parts = crate::uses::split_on(args, ',');
    if parts.len() == 1 {
        match parse_length(text::trim(parts[0])) {
            Some(v) => RulesV { min_length: Some(v), max_length: Some(v), ..r },
            None => r,
        }
    } else if parts.len() >= 2 {
        let r1 = match parse_length(text::trim(parts[0])) {
            Some(v) => RulesV { min_length: Some(v), ..r },
            None => r,
        };
        match parse_length(text::trim(parts[1])) {
            Some(v) => RulesV { max_length: Some(v), ..r1 },
            None => r1,
        }
    } else {
        r
    }
}

/// `pattern(p)`: the trimmed argument without one pair of surrounding
/// double or single quotes; an empty pattern leaves the rules as they were.
pub open spec fn pattern_rule(args: Seq<char>, r: RulesV) -> RulesV {
    let t = text::trim(args);
    let stripped = if t.len() >= 2 && t[0] == '"' && t.last() == '"' {
        t.subrange(1, t.len() - 1)
    } else if t.len() >= 2 && t[0] == '\'' && t.last() == '\'' {
        t.subrange(1, t.len() - 1)
    } else {
        t
    };
    if stripped.len() == 0 {
        r
    } else {
        RulesV { pattern: Some(stripped), ..r }
    }
}

/// One `&`-separated part of a `validation` attribute: `required` (ASCII
/// case ignored), or `name(args)` with `name` `length` or `pattern` (the
/// arguments run to the end, trailing `)` removed); anything else is
/// ignored.
pub open spec fn rule_part(part: Seq<char>, r: RulesV) -> RulesV {
    let t = text::trim(part);
    if t.len() == 0 {
        r
    } else if text::ascii_lower(t) == "required"@ {
        RulesV { required: true, ..r }
    } else {
        match crate::uses::index_from(t, '(', 0) {
            None => r,
            Some(i) => {
                let name = text::ascii_lower(text::trim(t.take(i)));
                let args = text::trim(trim_char_end(t.skip(i + 1), ')'));
                if name == "length"@ {
                    length_rules(args, r)
                } else if name == "pattern"@ {
                    pattern_rule(args, r)
                } else {
                    r
                }
            },
        }
    }
}

/// The rules of the parts, applied in order.
pub open spec fn rules_of(parts: Seq<Seq<char>>) -> RulesV
    decreases parts.len(),
{
    if parts.len() == 0 {
        no_rules()
    } else {
        rule_part(parts.last(), rules_of(parts.drop_last()))
    }
}

/// The rules of a `validation` attribute such as `required & length(3, 20)`;
/// `None` when it sets none.
pub open spec fn validation_rules(value: Seq<char>) -> Option<RulesV> {
    let r = rules_of(crate::uses::split_on(value, '&'));
    if !r.required && r.min_length is None && r.max_length is None && r.pattern is None {
        None
    } else {
        Some(r)
    }
}

fn parse_length_exec(s: &Vec<char>) -> (r: Option<usize>)
    ensures
        r == parse_length(s@),
{
    match text::parse_unsigned_chars(s, usize::MAX as u64) {
        Some(v) => Some(v as usize),
        None => None,
    }
}

fn apply_length_rules(args: &Vec<char>, rules: &mut ValidationRules)
    ensures
        final(rules)@ == length_rules(args@, old(rules)@),
{
    let parts = crate::uses::split_on_exec(args, ',');
    let ghost pv = crate::uses::vecs_view(parts@);
    if parts.len() == 1 {
        assert(pv[0] == parts@[0]@);
        let p0 = text::trim_chars(&parts[0]);
        match parse_length_exec(&p0) {
            Some(v) => {
                rules.min_length = Some(v);
                rules.max_length = Some(v);
            },
            None => {},
        }
    } else if parts.len() >= 2 {
        assert(pv[0] == parts@[0]@);
        assert(pv[1] == parts@[1]@);
        let p0 = text::trim_chars(&parts[0]);
        match parse_length_exec(&p0) {
            Some(v) => {
                rules.min_length = Some(v);
            },
            None => {},
        }
        let p1 = text::trim_chars(&parts[1]);
        match parse_length_exec(&p1) {
            Some(v) => {
                rules.max_length = Some(v);
            },
            None => {},
        }
    }
}

fn apply_pattern_rule(args: &Vec<char>, rules: &mut ValidationRules)
    ensures
        final(rules)@ == pattern_rule(args@, old(rules)@),
{
    let t = text::trim_chars(args);
    let n = t.len();
    let stripped = if n >= 2 && t[0] == '"' && t[n - 1] == '"' {
        text::slice_chars(&t, 1, n - 1)
    } else if n >= 2 && t[0] == '\'' && t[n - 1] == '\'' {
        text::slice_chars(&t, 1, n - 1)
    } else {
        t
    };
    if stripped.len() == 0 {
        return ;
    }
    rules.pattern = Some(text::chars_to_string(&stripped));
}

impl ValidationRules {
    /// No rules.
    pub fn new() -> (r: Self)
        ensures
            r@ == no_rules(),
    {
        ValidationRules { required: false, min_length: None, max_length: None, pattern: None }
    }

    /// Parses a `validation` attribute (`validation_rules`).
    pub fn from_attribute(value: &str) -> (r: Option<Self>)
        ensures
            match validation_rules(value@) {
                Some(v) => r is Some && r->0@ == v,
                None => r is None,
            },
    {
        let vc = text::str_to_chars(value);
        let parts = crate::uses::split_on_exec(&vc, '&');
        let ghost pv = crate::uses::vecs_view(parts@);
        let mut rules = ValidationRules::new();
        let mut i: usize = 0;
        while i < parts.len()
            invariant
                i <= parts.len(),
                pv == crate::uses::vecs_view(parts@),
                rules@ == rules_of(pv.take(i as int)),
            decreases parts.len() - i,
        {
            assert(pv.take(i + 1).drop_last() =~= pv.take(i as int));
            assert(pv.take(i + 1).last() == parts@[i as int]@);
            let t = text::trim_chars(&parts[i]);
            if t.len() != 0 {
                let lower = text::lower_chars(&t);
                if text::chars_eq_str(&lower, "required") {
                    rules.required = true;
                } else {
                    match crate::uses::index_from_exec(&t, '(', 0) {
                        None => {},
                        Some(k) => {
                            let head = text::slice_chars(&t, 0, k);
                            let head_t = text::trim_chars(&head);
                            let name = text::lower_chars(&head_t);
                            let tail = text::slice_chars(&t, k + 1, t.len());
                            let tail_c = trim_matches_end(&tail, ')');
                            let args = text::trim_chars(&tail_c);
                            if text::chars_eq_str(&name, "length") {
                                apply_length_rules(&args, &mut rules);
                            } else if text::chars_eq_str(&name, "pattern") {
                                apply_pattern_rule(&args, &mut rules);
                            }
                        },
                    }
                }
            }
            i = i + 1;
        }
        assert(pv.take(parts.len() as int) =~= pv);
        if !rules.required && rules.min_length.is_none() && rules.max_length.is_none()
            && rules.pattern.is_none() {
            None
        } else {
            Some(rules)
        }
    }
}

/// `str::trim_end_matches` with a character (`trim_char_end`).
fn trim_matches_end(t: &Vec<char>, c: char) -> (r: Vec<char>)
    ensures
        r@ == trim_char_end(t@, c),
{
    let mut hi: usize = t.len();
    assert(t@.take(t.len() as int) =~= t@);
    while hi > 0 && t[hi - 1] == c
        invariant
            hi <= t.len(),
            trim_char_end(t@, c) == trim_char_end(t@.take(hi as int), c),
        decreases hi,
    {
        assert(t@.take(hi as int).drop_last() =~= t@.take(hi - 1));
        hi = hi - 1;
    }
    let r = text::slice_chars(t, 0, hi);
    assert(r@ =~= t@.take(hi as int));
    r
}

// ---------------------------------------------------------------------------
// Colour strings
// ---------------------------------------------------------------------------

/// Upper-case hexadecimal digit of `d < 16`.
pub open spec fn hex_digit(d: nat) -> char {
    if d < 10 {
        (('0' as u32) + d) as char
    } else {
        (('A' as u32) + (d - 10)) as char
    }
}

/// Two upper-case hexadecimal digits of a byte.
pub open spec fn hex2(b: u8) -> Seq<char> {
    seq![hex_digit((b / 16) as nat), hex_digit((b % 16) as nat)]
}

/// `#RRGGBB`.
pub open spec fn hex_color(r: u8, g: u8, b: u8) -> Seq<char> {
    seq!['#'] + hex2(r) + hex2(g) + hex2(b)
}

/// `rgb(r, g, b)` in decimal.
pub open spec fn rgb_text(r: u8, g: u8, b: u8) -> Seq<char> {
    "rgb("@ + text::nat_to_decimal(r as nat) + ", "@ + text::nat_to_decimal(g as nat) + ", "@
        + text::nat_to_decimal(b as nat) + ")"@
}

/// `rgba(r, g, b, a)` in decimal, alpha as a byte.
pub open spec fn rgba_text(r: u8, g: u8, b: u8, a: u8) -> Seq<char> {
    "rgba("@ + text::nat_to_decimal(r as nat) + ", "@ + text::nat_to_decimal(g as nat) + ", "@
        + text::nat_to_decimal(b as nat) + ", "@ + text::nat_to_decimal(a as nat) + ")"@
}

fn hex_digit_exec(d: u8) -> (c: char)
    requires
        d < 16,
    ensures
        c == hex_digit(d as nat),
{
    if d < 10 {
        (('0' as u8) + d) as char
    } else {
        (('A' as u8) + (d - 10)) as char
    }
}

fn push_hex2(out: &mut Vec<char>, b: u8)
    ensures
        final(out)@ == old(out)@ + hex2(b),
{
    let hi = hex_digit_exec(b / 16);
    let lo = hex_digit_exec(b % 16);
    out.push(hi);
    out.push(lo);
    assert(out@ =~= old(out)@ + hex2(b));
}

/// The colour as `#RRGGBB` with upper-case digits (`hex_color`).
pub fn color_hex(red: u8, green: u8, blue: u8) -> (r: String)
    ensures
        r@ == hex_color(red, green, blue),
{
    let mut out: Vec<char> = Vec::new();
    out.push('#');
    push_hex2(&mut out, red);
    push_hex2(&mut out, green);
    push_hex2(&mut out, blue);
    assert(out@ =~= hex_color(red, green, blue));
    text::chars_to_string(&out)
}

/// The colour as `rgb(r, g, b)` (`rgb_text`).
pub fn color_rgb_string(red: u8, green: u8, blue: u8) -> (r: String)
    ensures
        r@ == rgb_text(red, green, blue),
{
    let mut out: Vec<char> = Vec::new();
    text::append_str(&mut out, "rgb(");
    text::append_chars(&mut out, &text::u128_to_chars(red as u128));
    text::append_str(&mut out, ", ");
    text::append_chars(&mut out, &text::u128_to_chars(green as u128));
    text::append_str(&mut out, ", ");
    text::append_chars(&mut out, &text::u128_to_chars(blue as u128));
    text::append_str(&mut out, ")");
    text::chars_to_string(&out)
}

/// The colour as `rgba(r, g, b, a)` (`rgba_text`).
pub fn color_rgba_string(red: u8, green: u8, blue: u8, alpha: u8) -> (r: String)
    ensures
        r@ == rgba_text(red, green, blue, alpha),
{
    let mut out: Vec<char> = Vec::new();
    text::append_str(&mut out, "rgba(");
    text::append_chars(&mut out, &text::u128_to_chars(red as u128));
    text::append_str(&mut out, ", ");
    text::append_chars(&mut out, &text::u128_to_chars(green as u128));
    text::append_str(&mut out, ", ");
    text::append_chars(&mut out, &text::u128_to_chars(blue as u128));
    text::append_str(&mut out, ", ");
    text::append_chars(&mut out, &text::u128_to_chars(alpha as u128));
    text::append_str(&mut out, ")");
    text::chars_to_string(&out)
}

/// What each kind of input field lets a user type: a text or password
/// field takes any character; an email field takes every ASCII letter and
/// digit and `@`, `.`, `-`, but no space; number, date and range fields
/// take every ASCII digit but no letter; a file field takes nothing.
pub proof fn law_typed_characters_by_field_kind(c: char)
    ensures
        valid_char(InputType::Text, c) && valid_char(InputType::Password, c),
        ('0' <= c <= '9' || 'a' <= c <= 'z' || 'A' <= c <= 'Z') ==> valid_char(InputType::Email, c),
        valid_char(InputType::Email, '@') && valid_char(InputType::Email, '.') && valid_char(
            InputType::Email,
            '-',
        ),
        !valid_char(InputType::Email, ' '),
        '0' <= c <= '9' ==> valid_char(InputType::Number, c) && valid_char(InputType::Date, c)
            && valid_char(InputType::Range, c),
        ('a' <= c <= 'z' || 'A' <= c <= 'Z') ==> !valid_char(InputType::Number, c)
            && !valid_char(InputType::Date, c) && !valid_char(InputType::Range, c),
        !valid_char(InputType::File, c),
{
}

} // verus!
