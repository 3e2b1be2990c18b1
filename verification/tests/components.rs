use extended_ui::components::{
    despawn_widget_ids, Badge, Body, Button, CheckBox, ChoiceBox, ChoiceOption, DatePicker, Div,
    Divider, FieldSet, Form, Headline, HyperLink, IconPlace, Img, InputField, ListBox, Paragraph,
    RadioButton, SwitchButton, Table, TableCell, ToggleButton, ToolTip, UIGenID, WidgetId,
    WidgetIdPools, WidgetKind,
};
use extended_ui::html::TableSection;
use extended_ui::registry::IdPool;
use extended_ui::widgets::{
    BadgeAnchor, ButtonType, DateFormat, DividerAlignment, FieldMode, FormValidationMode,
    HeadlineType, HyperLinkBrowsers, InputCap, InputType, ToolTipTrigger,
};

#[test]
fn each_widget_kind_counts_its_own_identifiers() {
    let mut pools = WidgetIdPools::new();
    assert_eq!(Button::new(&mut pools).entry, 0);
    assert_eq!(Button::new(&mut pools).entry, 1);
    assert_eq!(CheckBox::new(&mut pools).entry, 0);
    assert_eq!(Div::new(&mut pools).0, 0);
    assert_eq!(Button::new(&mut pools).entry, 2);
    assert_eq!(pools.acquire(WidgetKind::Div), 1);
}

#[test]
fn despawned_widget_ids_are_handed_out_again() {
    let mut ui_pool = IdPool::new();
    let mut pools = WidgetIdPools::new();
    let g0 = UIGenID::new(&mut ui_pool);
    let g1 = UIGenID::new(&mut ui_pool);
    assert_eq!((g0.get(), g1.get()), (0, 1));
    let a = Headline::new(&mut pools);
    let b = Headline::new(&mut pools);
    let p = Paragraph::new(&mut pools);
    assert_eq!((a.entry, b.entry, p.entry), (0, 1, 0));

    let widgets = vec![
        WidgetId { id: b.entry, kind: WidgetKind::Headline },
        WidgetId { id: p.entry, kind: WidgetKind::Paragraph },
    ];
    despawn_widget_ids(&mut ui_pool, &mut pools, &vec![g1], &widgets);

    assert_eq!(UIGenID::new(&mut ui_pool).get(), 1);
    assert_eq!(UIGenID::new(&mut ui_pool).get(), 2);
    assert_eq!(Headline::new(&mut pools).entry, 1);
    assert_eq!(Headline::new(&mut pools).entry, 2);
    assert_eq!(Paragraph::new(&mut pools).entry, 0);
    assert_eq!(Body::new(&mut pools).entry, 0);
}

#[test]
fn widgets_start_with_their_documented_fields() {
    let mut pools = WidgetIdPools::new();

    let button = Button::new(&mut pools);
    assert_eq!(button.text, "Button");
    assert_eq!(button.icon_place, IconPlace::Left);
    assert_eq!(button.icon_path, None);
    assert_eq!(button.button_type, ButtonType::Auto);

    let check = CheckBox::new(&mut pools);
    assert_eq!(check.label, "label");
    assert_eq!(check.icon_path.as_deref(), Some("extended_ui/icons/check-mark.png"));
    assert!(!check.checked);

    let form = Form::new(&mut pools);
    assert_eq!(form.action, None);
    assert_eq!(form.validate_mode, FormValidationMode::Send);

    assert_eq!(Divider::new(&mut pools).alignment, DividerAlignment::Vertical);

    let field_set = FieldSet::new(&mut pools);
    assert_eq!(field_set.kind, None);
    assert_eq!(field_set.field_mode, FieldMode::Single);
    assert!(!field_set.allow_none);

    let headline = Headline::new(&mut pools);
    assert_eq!(headline.text, "Headline");
    assert_eq!(headline.h_type, HeadlineType::H3);

    let img = Img::new(&mut pools);
    assert_eq!((img.src, img.alt.as_str(), img.preview), (None, "", None));

    let picker = DatePicker::new(&mut pools);
    assert_eq!(picker.label, "Date");
    assert_eq!(picker.format, DateFormat::MonthDayYear);
    assert_eq!(picker.value, "");

    let input = InputField::new(&mut pools);
    assert_eq!(input.label, "Label");
    assert_eq!(input.input_type, InputType::Text);
    assert_eq!(input.cap_text_at, InputCap::NoCap);
    assert_eq!(input.cursor_position, 0);
    assert!(input.extensions.is_empty());
    assert_eq!(input.max_size_bytes, None);

    let link = HyperLink::new(&mut pools);
    assert_eq!(link.browsers, HyperLinkBrowsers::System);
    assert!(!link.open_modal);

    let badge = Badge::new(&mut pools);
    assert_eq!((badge.value, badge.max), (0, 99));
    assert_eq!(badge.anchor, BadgeAnchor::TopRight);

    let tip = ToolTip::new(&mut pools);
    assert_eq!(tip.trigger, vec![ToolTipTrigger::Hover]);
    assert_eq!(tip.text, "");

    let switch = SwitchButton::new(&mut pools);
    assert_eq!((switch.label.as_str(), switch.icon, switch.selected), ("", None, false));

    let toggle = ToggleButton::new(&mut pools);
    assert_eq!(toggle.label, "label");
    assert_eq!(toggle.value.as_deref(), Some(""));

    let table = Table::new(&mut pools);
    assert_eq!(table.columns, 0);
    let cell = TableCell::new(&mut pools);
    assert!(!cell.header);
    assert_eq!(cell.section, TableSection::Body);
    assert_eq!((cell.row, cell.col), (0, 0));
}

#[test]
fn choice_options_take_their_trimmed_text_as_value() {
    let option = ChoiceOption::new("  Red  ");
    assert_eq!(option.text, "  Red  ");
    assert_eq!(option.value_as_str(), Some("Red"));
    let option = option.with_value("crimson".to_string());
    assert_eq!(option.value_as_str(), Some("crimson"));
    assert_eq!(option.text, "  Red  ");

    let placeholder = ChoiceOption::placeholder();
    assert_eq!(placeholder.text, "Please Select");
    assert_eq!(placeholder.value_as_str(), Some("default"));
}

#[test]
fn choice_and_list_boxes_start_with_their_options() {
    let mut pools = WidgetIdPools::new();
    let choice = ChoiceBox::new(&mut pools);
    assert_eq!(choice.label, "select");
    assert_eq!(choice.options.len(), 1);
    assert_eq!(choice.options[0].text, "Please Select");
    assert_eq!(choice.value.value_as_str(), Some("default"));
    assert_eq!(choice.icon_path.as_deref(), Some("extended_ui/icons/drop-arrow.png"));

    let list = ListBox::new(&mut pools);
    let texts: Vec<&str> = list.options.iter().map(|o| o.text.as_str()).collect();
    assert_eq!(texts, vec!["Option A", "Option B", "Option C"]);
    assert_eq!(list.options[1].value_as_str(), Some("Option B"));
    assert!(list.values.is_empty());
    assert!(!list.multiselect);
}

#[test]
fn radio_buttons_hold_a_string_value() {
    let mut pools = WidgetIdPools::new();
    let radio = RadioButton::new(&mut pools);
    assert_eq!(radio.label, "label");
    assert_eq!(radio.value_as_str(), Some(""));
    assert!(!radio.selected);
    let radio = radio.with_value("b".to_string());
    assert_eq!(radio.value_as_str(), Some("b"));
    assert_eq!(radio.entry, 0);
}
