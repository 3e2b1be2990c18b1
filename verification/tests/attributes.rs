use kuchiki::traits::TendrilSink;
use extended_ui::attrs::{
    binding_root, is_patchable_text_tag, is_void_html_tag, normalize_asset_href,
    parse_bool_attribute, parse_extensions_attribute, parse_for_attribute_id,
    parse_tooltip_triggers, parse_validation_attributes, resolve_relative_asset_path,
    stable_html_id, trim_path_separators, normalize_component_scope_path,
    component_rust_path_for_template,
};
use extended_ui::html::{build_template_binding_profile, grid_column_tracks, grid_start_line, HtmlInnerContent, TableSection};
use extended_ui::widgets::ToolTipTrigger;

#[test]
fn resolve_relative_asset_path_normalizes_paths() {
    assert_eq!(
        resolve_relative_asset_path("examples/test.html", "assets/ui/main.css", false),
        "examples/ui/main.css"
    );
    assert_eq!(
        resolve_relative_asset_path("examples/test.html", "/ui/global.css", false),
        "ui/global.css"
    );
    assert_eq!(
        resolve_relative_asset_path("examples\\nested\\test.html", "..\\styles\\a.css", false),
        "../styles/a.css"
    );
    let absolute_path = "/tmp/bevy_extended_ui_absolute_preview.png";
    assert_eq!(
        resolve_relative_asset_path("examples/test.html", absolute_path, true),
        absolute_path
    );
}

#[test]
fn asset_href_normalization() {
    assert_eq!(normalize_asset_href("assets\\ui\\a.css"), "ui/a.css");
    assert_eq!(normalize_asset_href("ui/a.css"), "ui/a.css");
    assert_eq!(
        resolve_relative_asset_path("a/b/page.html", "./x.css", false),
        "./x.css"
    );
    assert_eq!(resolve_relative_asset_path("page.html", "x.css", false), "x.css");
}

#[test]
fn bool_attribute_values() {
    assert!(!parse_bool_attribute(None));
    assert!(parse_bool_attribute(Some("")));
    assert!(parse_bool_attribute(Some("  ")));
    assert!(parse_bool_attribute(Some(" TRUE ")));
    assert!(parse_bool_attribute(Some("checked")));
    assert!(!parse_bool_attribute(Some("off")));
    assert!(!parse_bool_attribute(Some("maybe")));
}

#[test]
fn extension_lists() {
    assert_eq!(parse_extensions_attribute(None), Vec::<String>::new());
    assert_eq!(parse_extensions_attribute(Some("  ")), Vec::<String>::new());
    assert_eq!(parse_extensions_attribute(Some("json")), vec!["json".to_string()]);
    assert_eq!(
        parse_extensions_attribute(Some("[json, \".CSS\", 'yaml', , ..png]")),
        vec![
            "json".to_string(),
            "css".to_string(),
            "yaml".to_string(),
            "png".to_string()
        ]
    );
}

#[test]
fn for_attribute_ids() {
    assert_eq!(parse_for_attribute_id(None), None);
    assert_eq!(parse_for_attribute_id(Some(" #name ")), Some("name".to_string()));
    assert_eq!(parse_for_attribute_id(Some("##")), None);
}

#[test]
fn validation_attributes_merge_required() {
    let merged = parse_validation_attributes(Some("length(2)"), true).unwrap();
    assert!(merged.required);
    assert_eq!(merged.min_length, Some(2));
    let only_required = parse_validation_attributes(None, true).unwrap();
    assert!(only_required.required);
    assert_eq!(only_required.pattern, None);
    assert_eq!(parse_validation_attributes(None, false), None);
}

#[test]
fn tooltip_trigger_lists() {
    assert_eq!(
        parse_tooltip_triggers("hover | click"),
        vec![ToolTipTrigger::Hover, ToolTipTrigger::Click]
    );
    assert_eq!(
        parse_tooltip_triggers("click,click drag"),
        vec![ToolTipTrigger::Click, ToolTipTrigger::Drag]
    );
    assert_eq!(parse_tooltip_triggers("nothing"), vec![ToolTipTrigger::Hover]);
}

#[test]
fn tags() {
    assert!(is_void_html_tag("br"));
    assert!(is_void_html_tag("img"));
    assert!(!is_void_html_tag("div"));
    assert!(is_patchable_text_tag("h3"));
    assert!(!is_patchable_text_tag("span"));
}

#[test]
fn path_separators_and_roots() {
    assert_eq!(trim_path_separators("/a/b/"), "a/b");
    assert_eq!(trim_path_separators("\\\\a\\"), "a");
    assert_eq!(binding_root("{{ user.name }}"), "user");
    assert_eq!(binding_root("  {{{{data_pack.version}}}} "), "data_pack");
    assert_eq!(binding_root("{{ !x }}"), "");
}

#[test]
fn stable_ids_are_fnv1a() {
    // FNV-1a of no bytes is the offset basis.
    assert_eq!(stable_html_id("", "", "").0 as u64, 0xcbf29ce484222325u64 as usize as u64);
    // FNV-1a("a") = 0xaf63dc4c8601ec8c
    assert_eq!(stable_html_id("a", "", "").0 as u64, 0xaf63dc4c8601ec8cu64 as usize as u64);
    assert_eq!(stable_html_id("ab", "c", "d"), stable_html_id("a", "bc", "d"));
    assert_ne!(stable_html_id("k", "0/1", "p"), stable_html_id("k", "0/2", "p"));
}

#[test]
fn html_inner_content_getters_and_setters_work() {
    let mut content = HtmlInnerContent::new(
        "Text".to_string(),
        "<b>Text</b>".to_string(),
        vec!["{{ user.name }}".into()],
    );

    assert_eq!(content.inner_text(), "Text");
    assert_eq!(content.inner_html(), "<b>Text</b>");
    assert_eq!(content.inner_bindings(), &["{{ user.name }}".to_string()]);

    content.set_inner_text("A".to_string());
    content.set_inner_html("<i>B</i>".to_string());
    content.set_inner_bindings(vec!["{{ user.id }}".into(), "{{ user.role }}".into()]);

    assert_eq!(content.inner_text(), "A");
    assert_eq!(content.inner_html(), "<i>B</i>");
    assert_eq!(
        content.inner_bindings(),
        &["{{ user.id }}".to_string(), "{{ user.role }}".to_string()]
    );
}

#[test]
fn table_sections_and_grid() {
    assert_eq!(TableSection::Head.css_class(), "thead");
    assert_eq!(TableSection::default().css_class(), "tbody");
    assert_eq!(TableSection::Foot.css_class(), "tfoot");
    assert_eq!(grid_column_tracks(0), 1);
    assert_eq!(grid_column_tracks(3), 3);
    assert_eq!(grid_start_line(0), 1);
    assert_eq!(grid_start_line(4), 5);
}

#[test]
fn binding_profiles() {
    let text_bindings = vec![vec!["{{ user.name }}".to_string()]];
    let profile = build_template_binding_profile(
        "<p>{{ user.name }}</p><i>{{ stats.count }}</i>",
        &text_bindings,
    );
    assert_eq!(profile.text_roots, vec!["user".to_string()]);
    assert_eq!(profile.unpatchable_roots, vec!["stats".to_string()]);
    assert!(!profile.force_reparse_on_value_change);
    assert!(profile.requires_reparse(&vec!["stats".to_string()]));
    assert!(!profile.requires_reparse(&vec!["user".to_string()]));

    let with_if = build_template_binding_profile("@if(a) { x }", &Vec::new());
    assert!(with_if.force_reparse_on_value_change);
    assert!(with_if.requires_reparse(&vec!["anything".to_string()]));
}

#[test]
fn parse_inner_content_collects_text_html_and_bindings() {
    let doc = kuchiki::parse_html().one("<p>Hello <b>{{ user.name }}</b>!</p>");
    let node = doc.select_first("p").unwrap();
    let content = extended_ui::html::parse_inner_content(node.as_node());

    assert!(content.inner_text().contains("Hello"));
    assert!(content.inner_html().contains("<b>{{ user.name }}</b>"));
    assert_eq!(content.inner_bindings(), &["{{ user.name }}".to_string()]);
}

#[test]
fn component_scope_paths_are_normalized() {
    assert_eq!(normalize_component_scope_path("./././assets/components/ui/"), "components/ui");
    assert_eq!(normalize_component_scope_path("assets\\components\\a.html"), "components/a.html");
    assert_eq!(normalize_component_scope_path("/x/y/"), "x/y");
    assert_eq!(normalize_component_scope_path(""), "");
}

#[test]
fn component_templates_map_to_their_rust_files() {
    assert_eq!(
        component_rust_path_for_template(
            "assets/components/ui/button.component.html",
            "assets/components",
            "src/components",
        )
        .as_deref(),
        Some("src/components/ui/button.component.rs"),
    );
    assert_eq!(
        component_rust_path_for_template(
            "game/assets/components/card.component.html",
            "./components/",
            "src/ui",
        )
        .as_deref(),
        Some("src/ui/card.component.rs"),
    );
    assert_eq!(
        component_rust_path_for_template("assets/components/page.html", "components", "src"),
        None,
    );
    assert_eq!(
        component_rust_path_for_template("assets/other/a.component.html", "components", "src"),
        None,
    );
    assert_eq!(component_rust_path_for_template("a.component.html", "assets/", "src"), None);
}
