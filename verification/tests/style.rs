use extended_ui::style::{
    apply_text_transform, capitalize_words, compute_selector_metadata, folder_basename,
    selector_matches_state, weight_token_exact, weighted_font_path, FontWeight, TextTransform,
    UIWidgetState, SELECTOR_DISABLED, SELECTOR_HOVER, style_candidates,
    ui_style_has_stateful_selectors, StyleRule,
};
use extended_ui::keyed::KeyedMap;

#[test]
fn selector_specificity_and_flags() {
    let m = compute_selector_metadata("#main > .card:hover button");
    assert_eq!(m.specificity, 100 + 10 + 1 + 1);
    assert_eq!(m.pseudo_flags, SELECTOR_HOVER);
    assert!(m.has_pseudo);
    assert!(!m.skip);

    let p = compute_selector_metadata("input::placeholder");
    assert!(p.skip);
    assert_eq!(p.specificity, 0);

    let plain = compute_selector_metadata("*  div");
    assert_eq!(plain.specificity, 1);
    assert!(!plain.has_pseudo);

    let d = compute_selector_metadata("button:disabled:focus-visible");
    assert_eq!(d.specificity, 3);
    assert_eq!(d.pseudo_flags, SELECTOR_DISABLED);
}

#[test]
fn selector_state_matching() {
    let hover = compute_selector_metadata("button:hover");
    let mut state = UIWidgetState::default();
    assert!(!selector_matches_state(hover, &state));
    state.hovered = true;
    assert!(selector_matches_state(hover, &state));
    state.disabled = true;
    assert!(!selector_matches_state(hover, &state));
    let plain = compute_selector_metadata("button");
    assert!(selector_matches_state(plain, &state));
}

#[test]
fn font_paths() {
    assert_eq!(weight_token_exact(FontWeight::Normal), "Regular");
    assert_eq!(weight_token_exact(FontWeight::SemiBold), "SemiBold");
    assert_eq!(folder_basename("fonts/Roboto//"), "Roboto");
    assert_eq!(folder_basename("Roboto"), "Roboto");
    assert_eq!(
        weighted_font_path(" \"fonts/Roboto/\" ", Some(FontWeight::Bold)),
        Some("fonts/Roboto/Roboto-Bold.ttf".to_string())
    );
    assert_eq!(
        weighted_font_path("fonts/Inter", None),
        Some("fonts/Inter/Inter-Regular.ttf".to_string())
    );
    assert_eq!(weighted_font_path("  ", None), None);
}

#[test]
fn text_transforms() {
    assert_eq!(capitalize_words("hello wORLD-wide 3d"), "Hello World-Wide 3d");
    assert_eq!(apply_text_transform(TextTransform::Uppercase, "abc"), "ABC");
    assert_eq!(apply_text_transform(TextTransform::Lowercase, "ÄBC"), "äbc");
    assert_eq!(apply_text_transform(TextTransform::Unchanged, "aBc"), "aBc");
    assert_eq!(apply_text_transform(TextTransform::Capitalize, "ab cd"), "Ab Cd");
}

fn rules(entries: &[(&str, &str, usize)]) -> KeyedMap<StyleRule> {
    let mut map = KeyedMap::new();
    for (key, selector, origin) in entries {
        map.insert(key, StyleRule { selector: selector.to_string(), origin: *origin });
    }
    map
}

#[test]
fn cascade_orders_by_origin_then_specificity() {
    let map = rules(&[
        ("#main", "", 0),
        (".card", "", 1),
        ("button", "", 1),
        ("b", ".x:hover", 0),
        ("after", "p::after", 2),
    ]);
    let state = UIWidgetState::default();
    let base = style_candidates(&map, &state, false);
    let keys: Vec<&str> = base.iter().map(|c| c.0.as_str()).collect();
    assert_eq!(keys, vec!["#main", "button", ".card"]);
    assert!(base[1].1 < base[2].1, "class beats element within one origin");
    assert!(style_candidates(&map, &state, true).is_empty(), "hover needs the hover state");

    let mut hovered = UIWidgetState::default();
    hovered.hovered = true;
    let pseudo = style_candidates(&map, &hovered, true);
    assert_eq!(pseudo.len(), 1);
    assert_eq!(pseudo[0].0, "b");
    assert!(ui_style_has_stateful_selectors(&map));
    assert!(!ui_style_has_stateful_selectors(&rules(&[("a", "", 0), ("x", "p::before", 0)])));
}
