use extended_ui::elements::{
    badge_max, badge_value_exec, collapse_whitespace, date_picker_label_exec,
    divider_alignment_attribute, element_name_exec, fieldset_radio_selection,
    headline_type_for_tag, input_cap_exec, nonempty_exec, scroll_vertical,
    selected_option_index, slider_dots_exec, slider_show_tip, split_whitespace_exec,
    switch_selected, trimmed_nonempty_exec, parse_icon_and_text, collect_labels_by_for,
    select_primary_body_node, ChildNode,
};
use extended_ui::components::IconPlace;
use extended_ui::keyed::KeyedMap;
use extended_ui::widgets::{DividerAlignment, HeadlineType, InputCap};

#[test]
fn names_labels_and_words() {
    assert_eq!(element_name_exec(Some("user"), Some("id1")), "user");
    assert_eq!(element_name_exec(None, Some("id1")), "id1");
    assert_eq!(element_name_exec(None, None), "");
    assert_eq!(date_picker_label_exec(None, Some("Birthday")), "Birthday");
    assert_eq!(date_picker_label_exec(None, None), "Date");
    assert_eq!(trimmed_nonempty_exec(Some("  dd.MM.yyyy ")), Some("dd.MM.yyyy".to_string()));
    assert_eq!(trimmed_nonempty_exec(Some("   ")), None);
    assert_eq!(nonempty_exec(Some("")), None);
    assert_eq!(nonempty_exec(Some(" x")), Some(" x".to_string()));
    assert_eq!(
        split_whitespace_exec("  a  b\tc\n"),
        vec!["a".to_string(), "b".to_string(), "c".to_string()]
    );
    assert_eq!(collapse_whitespace("  Hello \n   tooltip  world "), "Hello tooltip world");
    assert_eq!(collapse_whitespace("   "), "");
}

#[test]
fn input_caps() {
    assert_eq!(input_cap_exec(None), InputCap::NoCap);
    assert_eq!(input_cap_exec(Some(" AUTO ")), InputCap::CapAtNodeSize);
    assert_eq!(input_cap_exec(Some("  ")), InputCap::NoCap);
    assert_eq!(input_cap_exec(Some(" 12 ")), InputCap::CapAt(12));
    assert_eq!(input_cap_exec(Some("many")), InputCap::CapAt(0));
}

#[test]
fn radio_and_option_selection() {
    assert_eq!(fieldset_radio_selection(&vec![false, false], false), vec![true, false]);
    assert_eq!(fieldset_radio_selection(&vec![false, false], true), vec![false, false]);
    assert_eq!(
        fieldset_radio_selection(&vec![false, true, true], false),
        vec![false, true, false]
    );
    assert_eq!(selected_option_index(&vec![false, true, true, false]), Some(2));
    assert_eq!(selected_option_index(&vec![false, false]), Some(0));
    assert_eq!(selected_option_index(&vec![]), None);
}

#[test]
fn badges_sliders_scrolls_switches() {
    assert_eq!(badge_value_exec(Some(" 7 "), Some("3"), "9"), 7);
    assert_eq!(badge_value_exec(None, Some("3"), "9"), 3);
    assert_eq!(badge_value_exec(Some("x"), None, " 9 "), 9);
    assert_eq!(badge_value_exec(None, None, "none"), 0);
    assert_eq!(badge_max(Some("50")), 50);
    assert_eq!(badge_max(None), 99);
    assert_eq!(slider_dots_exec(Some(" 5 ")), Some(5));
    assert_eq!(slider_dots_exec(Some("-3")), Some(1));
    assert_eq!(slider_dots_exec(Some("0")), Some(1));
    assert_eq!(slider_dots_exec(Some("-+3")), None);
    assert_eq!(slider_dots_exec(Some("many")), None);
    assert_eq!(slider_dots_exec(None), None);
    assert!(slider_show_tip(None));
    assert!(slider_show_tip(Some(" ")));
    assert!(slider_show_tip(Some("TRUE")));
    assert!(!slider_show_tip(Some("no")));
    assert!(scroll_vertical(None));
    assert!(!scroll_vertical(Some("Horizontal")));
    assert!(scroll_vertical(Some(" horizontal")));
    assert!(switch_selected(Some("on"), Some("false")));
    assert!(!switch_selected(Some("off"), Some("true")));
    assert!(switch_selected(None, Some("")));
    assert!(!switch_selected(None, None));
}

#[test]
fn headings_and_dividers() {
    assert_eq!(headline_type_for_tag("h5"), HeadlineType::H5);
    assert_eq!(headline_type_for_tag("p"), HeadlineType::H3);
    assert_eq!(divider_alignment_attribute(None), DividerAlignment::Horizontal);
    assert_eq!(divider_alignment_attribute(Some("v")), DividerAlignment::Vertical);
    assert_eq!(divider_alignment_attribute(Some("zigzag")), DividerAlignment::Vertical);
}

#[test]
fn icon_goes_right_only_after_text() {
    let element = |name: &str, src: Option<&str>| {
        let mut attrs = KeyedMap::new();
        if let Some(src) = src {
            attrs.insert("src", src.to_string());
        }
        ChildNode::Element { name: name.to_string(), attrs, text: String::new(), html: String::new(), children: vec![] }
    };
    let icon = |src: &str| element("icon", Some(src));
    let text = |t: &str| ChildNode::Text(t.to_string());

    let (path, place) = parse_icon_and_text(&vec![icon("a.png"), text("Save")]);
    assert_eq!(path.as_deref(), Some("a.png"));
    assert_eq!(place, IconPlace::Left);

    let (path, place) = parse_icon_and_text(&vec![text("  "), text("Save"), icon("b.png")]);
    assert_eq!(path.as_deref(), Some("b.png"));
    assert_eq!(place, IconPlace::Right);

    let (path, place) = parse_icon_and_text(&vec![text("   "), icon("c.png"), ChildNode::Other]);
    assert_eq!(path.as_deref(), Some("c.png"));
    assert_eq!(place, IconPlace::Left);

    let no_src = element("icon", None);
    let other = element("span", Some("x"));
    assert_eq!(parse_icon_and_text(&vec![text("x"), no_src, other]), (None, IconPlace::Left));
}

#[test]
fn labels_map_their_for_ids_to_trimmed_text() {
    let labels = vec![
        (Some("name".to_string()), "  Your name ".to_string()),
        (None, "ignored".to_string()),
        (Some("mail".to_string()), "Mail".to_string()),
        (Some("name".to_string()), "Full name".to_string()),
    ];
    let map = collect_labels_by_for(&labels);
    assert_eq!(map.len(), 2);
    let key = |s: &str| s.chars().collect::<Vec<char>>();
    assert_eq!(map.get(&key("name")).map(|s| s.as_str()), Some("Full name"));
    assert_eq!(map.get(&key("mail")).map(|s| s.as_str()), Some("Mail"));
    assert_eq!(map.get(&key("ignored")), None);
}

#[test]
fn primary_body_is_the_last_largest() {
    assert_eq!(select_primary_body_node(&vec![]), None);
    assert_eq!(select_primary_body_node(&vec![0]), Some(0));
    assert_eq!(select_primary_body_node(&vec![3, 7, 2]), Some(1));
    assert_eq!(select_primary_body_node(&vec![5, 2, 5]), Some(2));
}
