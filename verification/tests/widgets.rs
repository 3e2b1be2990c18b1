use extended_ui::widgets::{
    color_hex, color_rgb_string, color_rgba_string, BadgeAnchor, ButtonType, DateFormat,
    DividerAlignment, FieldMode, FormValidationMode, HeadlineType, HyperLinkBrowsers, InputCap,
    InputType, SliderDotAnchor, SliderType, ToolTipAlignment, ToolTipPriority, ToolTipTrigger,
    ToolTipVariant, ValidationRules,
};

#[test]
fn form_validation_mode_keywords() {
    assert_eq!(FormValidationMode::from_str(" ALL "), Some(FormValidationMode::Always));
    assert_eq!(FormValidationMode::from_str("always"), Some(FormValidationMode::Always));
    assert_eq!(FormValidationMode::from_str("Allways"), Some(FormValidationMode::Always));
    assert_eq!(FormValidationMode::from_str("Send"), Some(FormValidationMode::Send));
    assert_eq!(FormValidationMode::from_str("interact"), Some(FormValidationMode::Interact));
    assert_eq!(FormValidationMode::from_str("never"), None);
    assert_eq!(FormValidationMode::default(), FormValidationMode::Send);
}

#[test]
fn button_type_is_not_trimmed() {
    assert_eq!(ButtonType::from_str("SUBMIT"), Some(ButtonType::Submit));
    assert_eq!(ButtonType::from_str("reset"), Some(ButtonType::Reset));
    assert_eq!(ButtonType::from_str(" button"), None);
    assert_eq!(ButtonType::default(), ButtonType::Auto);
}

#[test]
fn divider_alignment_keywords_and_names() {
    assert_eq!(DividerAlignment::from_str(" V "), Some(DividerAlignment::Vertical));
    assert_eq!(DividerAlignment::from_str("horiz"), Some(DividerAlignment::Horizontal));
    assert_eq!(DividerAlignment::from_str("diagonal"), None);
    assert_eq!(DividerAlignment::Horizontal.as_str(), "horizontal");
    assert_eq!(DividerAlignment::Vertical.as_str(), "vertical");
}

#[test]
fn field_mode_keywords_and_counts() {
    assert_eq!(FieldMode::from_str("single"), Some(FieldMode::Single));
    assert_eq!(FieldMode::from_str("MORE"), Some(FieldMode::Multi));
    assert_eq!(FieldMode::from_str("count"), Some(FieldMode::Count(0)));
    assert_eq!(FieldMode::from_str("count( 3 )"), Some(FieldMode::Count(3)));
    assert_eq!(FieldMode::from_str("count()"), Some(FieldMode::Count(0)));
    assert_eq!(FieldMode::from_str("count(255)"), Some(FieldMode::Count(255)));
    assert_eq!(FieldMode::from_str("count(256)"), None);
    assert_eq!(FieldMode::from_str("count(x)"), None);
    assert_eq!(FieldMode::from_str("several"), None);
}

#[test]
fn headline_names() {
    assert_eq!(HeadlineType::H1.as_str(), "h1");
    assert_eq!(HeadlineType::H6.as_str(), "h6");
    assert_eq!(HeadlineType::default(), HeadlineType::H1);
}

#[test]
fn date_format_keywords() {
    assert_eq!(DateFormat::from_str("dd.mm.yyyy"), Some(DateFormat::DayMonthYear));
    assert_eq!(DateFormat::from_str(" ISO "), Some(DateFormat::YearMonthDay));
    assert_eq!(DateFormat::from_str("mdy"), Some(DateFormat::MonthDayYear));
    assert_eq!(DateFormat::from_str("yyyy"), None);
}

#[test]
fn input_type_keywords_and_characters() {
    assert_eq!(InputType::from_str("PassWord"), Some(InputType::Password));
    assert_eq!(InputType::from_str("file"), Some(InputType::File));
    assert_eq!(InputType::from_str(" text"), None);
    assert!(InputType::Number.is_valid_char('7'));
    assert!(InputType::Number.is_valid_char('('));
    assert!(!InputType::Number.is_valid_char('a'));
    assert!(InputType::Email.is_valid_char('@'));
    assert!(!InputType::Email.is_valid_char(' '));
    assert!(InputType::Range.is_valid_char(' '));
    assert!(!InputType::Date.is_valid_char(' '));
    assert!(InputType::Text.is_valid_char('ß'));
    assert!(!InputType::File.is_valid_char('a'));
}

#[test]
fn input_cap_values() {
    assert_eq!(InputCap::CapAt(12).get_value(), 12);
    assert_eq!(InputCap::NoCap.get_value(), 0);
    assert_eq!(InputCap::CapAtNodeSize.get_value(), 0);
}

#[test]
fn hyperlink_browsers_forms() {
    assert_eq!(HyperLinkBrowsers::from_str(""), Some(HyperLinkBrowsers::System));
    assert_eq!(HyperLinkBrowsers::from_str("SYSTEM"), Some(HyperLinkBrowsers::System));
    assert_eq!(
        HyperLinkBrowsers::from_str(" Firefox "),
        Some(HyperLinkBrowsers::Custom(vec!["firefox".to_string()]))
    );
    assert_eq!(
        HyperLinkBrowsers::from_str("[firefox, \"Brave\", 'chrome', ]"),
        Some(HyperLinkBrowsers::Custom(vec![
            "firefox".to_string(),
            "brave".to_string(),
            "chrome".to_string()
        ]))
    );
    assert_eq!(HyperLinkBrowsers::from_str("[ , ]"), Some(HyperLinkBrowsers::System));
    assert_eq!(HyperLinkBrowsers::from_str("\"system\""), Some(HyperLinkBrowsers::System));
}

#[test]
fn badge_anchor_words() {
    assert_eq!(BadgeAnchor::from_str("top right"), Some(BadgeAnchor::TopRight));
    assert_eq!(BadgeAnchor::from_str("bottom-left"), Some(BadgeAnchor::BottomLeft));
    assert_eq!(BadgeAnchor::from_str("BOTTOM_RIGHT"), Some(BadgeAnchor::BottomRight));
    assert_eq!(BadgeAnchor::from_str("left"), Some(BadgeAnchor::TopLeft));
    assert_eq!(BadgeAnchor::from_str("bottom"), Some(BadgeAnchor::BottomRight));
    assert_eq!(BadgeAnchor::from_str("top|left,bottom"), Some(BadgeAnchor::BottomLeft));
    assert_eq!(BadgeAnchor::from_str("center"), None);
    assert_eq!(BadgeAnchor::default(), BadgeAnchor::TopRight);
}

#[test]
fn tooltip_and_slider_keywords() {
    assert_eq!(ToolTipVariant::from_str("Point"), Some(ToolTipVariant::Point));
    assert_eq!(ToolTipPriority::from_str(" left"), Some(ToolTipPriority::Left));
    assert_eq!(ToolTipPriority::default(), ToolTipPriority::Right);
    assert_eq!(ToolTipAlignment::from_str("vertical"), Some(ToolTipAlignment::Vertical));
    assert_eq!(ToolTipTrigger::from_str("DRAG"), Some(ToolTipTrigger::Drag));
    assert_eq!(ToolTipTrigger::from_str("press"), None);
    assert_eq!(SliderType::from_str("range"), Some(SliderType::Range));
    assert_eq!(SliderDotAnchor::from_str("bottom"), Some(SliderDotAnchor::Bottom));
    assert_eq!(SliderDotAnchor::from_str("middle"), None);
}

#[test]
fn validation_rules_parse() {
    let rules = ValidationRules::from_attribute("required & length(3, 20) & pattern(\"^[a-z]+$\")")
        .unwrap();
    assert!(rules.required);
    assert_eq!(rules.min_length, Some(3));
    assert_eq!(rules.max_length, Some(20));
    assert_eq!(rules.pattern.as_deref(), Some("^[a-z]+$"));

    let single = ValidationRules::from_attribute("LENGTH(5)").unwrap();
    assert_eq!(single.min_length, Some(5));
    assert_eq!(single.max_length, Some(5));
    assert!(!single.required);

    let partial = ValidationRules::from_attribute("length(x, 9)").unwrap();
    assert_eq!(partial.min_length, None);
    assert_eq!(partial.max_length, Some(9));

    let quoted = ValidationRules::from_attribute("pattern('a+')").unwrap();
    assert_eq!(quoted.pattern.as_deref(), Some("a+"));

    assert_eq!(ValidationRules::from_attribute(""), None);
    assert_eq!(ValidationRules::from_attribute("pattern(\"\")"), None);
    assert_eq!(ValidationRules::from_attribute("unknown(1)"), None);
}

#[test]
fn colour_strings() {
    assert_eq!(color_hex(0x42, 0x85, 0xF4), "#4285F4");
    assert_eq!(color_hex(0, 10, 255), "#000AFF");
    assert_eq!(color_rgb_string(66, 133, 244), "rgb(66, 133, 244)");
    assert_eq!(color_rgba_string(1, 2, 3, 255), "rgba(1, 2, 3, 255)");
}
