use extended_ui::context::{
    preprocess_template_directives, preprocess_template_directives_with_shared,
    preprocess_template_directives_with_shared_and_local_types, UiLangVariables, UiSharedValues,
};
use extended_ui::json::{JsonNumber, JsonValue};
use extended_ui::render::extract_inner_bindings;

/// A JSON number as the template library holds it.
fn number(n: &serde_json::Number) -> JsonValue {
    if let Some(i) = n.as_i64() {
        return JsonValue::Number(JsonNumber::Int(i as i128));
    }
    if let Some(u) = n.as_u64() {
        return JsonValue::Number(JsonNumber::Int(u as i128));
    }
    let text = n.to_string();
    let (mantissa_text, exponent) = match text.find(|c| c == 'e' || c == 'E') {
        Some(i) => (&text[..i], text[i + 1..].parse::<i32>().unwrap()),
        None => (text.as_str(), 0),
    };
    let negative = mantissa_text.starts_with('-');
    let digits_text = mantissa_text.trim_start_matches('-');
    let (int_part, frac_part) = match digits_text.find('.') {
        Some(i) => (&digits_text[..i], &digits_text[i + 1..]),
        None => (digits_text, ""),
    };
    let mut digits = format!("{int_part}{frac_part}");
    let mut exp = exponent - frac_part.len() as i32;
    while digits.len() > 1 && digits.ends_with('0') {
        digits.pop();
        exp += 1;
    }
    let mut m: i64 = digits.parse().unwrap();
    if m == 0 {
        exp = 0;
    }
    if negative {
        m = -m;
    }
    JsonValue::Number(JsonNumber::Float(m, exp))
}

/// A `serde_json` value as the template library holds it.
fn to_lib(v: &serde_json::Value) -> JsonValue {
    match v {
        serde_json::Value::Null => JsonValue::Null,
        serde_json::Value::Bool(b) => JsonValue::Bool(*b),
        serde_json::Value::Number(n) => number(n),
        serde_json::Value::String(s) => JsonValue::String(s.clone()),
        serde_json::Value::Array(items) => JsonValue::Array(items.iter().map(to_lib).collect()),
        serde_json::Value::Object(map) => JsonValue::Object(
            map.iter()
                .map(|(k, v)| (k.clone(), to_lib(v)))
                .collect(),
        ),
    }
}

fn json(text: &str) -> JsonValue {
    to_lib(&serde_json::from_str::<serde_json::Value>(text).unwrap())
}

fn set_var(vars: &mut UiLangVariables, key: &str, raw: &str) {
    let parsed = serde_json::from_str::<serde_json::Value>(raw.trim())
        .ok()
        .map(|v| to_lib(&v));
    vars.set(key, raw, parsed);
}

#[test]
fn preprocess_template_directives_handles_if_logic_and_methods() {
    let mut vars = UiLangVariables::default();
    set_var(&mut vars, "data", r#"{"username":"NetRunner","state":true}"#);
    set_var(&mut vars, "client", r#"{"id":42}"#);
    set_var(&mut vars, "state", "true");
    set_var(&mut vars, "file", r#""avatar.png""#);

    let template = r#"
            @if(data.username.startsWidth("Net") && client.id == 42) {
              <div><p>Hello World</p></div>
            }
            @if(file != "") {
              <img src="{{ file }}">
            } @else {
              <p>No File</p>
            }
            @if(!state) {
              <p>Should Not Exist</p>
            }
        "#;

    let rendered = preprocess_template_directives(template, &vars);

    assert!(rendered.contains("<div><p>Hello World</p></div>"));
    assert!(rendered.contains(r#"<img src="avatar.png">"#));
    assert!(!rendered.contains("No File"));
    assert!(!rendered.contains("Should Not Exist"));
}

#[test]
fn preprocess_template_directives_handles_for_loops_and_placeholder_expansion() {
    let mut vars = UiLangVariables::default();
    set_var(
        &mut vars,
        "data",
        r#"{"users":[{"name":"Alice"},{"name":"Bob"}],"show":true}"#,
    );

    let template = r#"
            @for(user, idx in data.users) {
              @if(data.show && user.name.contains("o") || idx == 0) {
                <p>{{ idx }}:{{ user.name }}</p>
              }
            }
        "#;

    let rendered = preprocess_template_directives(template, &vars);

    assert!(rendered.contains("<p>0:Alice</p>"));
    assert!(rendered.contains("<p>1:Bob</p>"));
}

#[test]
fn preprocess_template_directives_resolves_use_alias_and_wildcard() {
    let vars = UiLangVariables::default();
    let mut shared = UiSharedValues::default();
    shared
        .values
        .insert("Player", json(r#"{"state":true,"name":"NetRunner"}"#));

    let template = r#"
            @use "Player" as player;
            @if(player.state && player.name.startsWidth("Net")) {
              <p>Alias Works</p>
            }
            @use "Player" as *;
            @if(state && name.endsWidth("Runner")) {
              <p>Wildcard Works</p>
            }
        "#;

    let rendered = preprocess_template_directives_with_shared(template, &vars, &shared);

    assert!(rendered.contains("<p>Alias Works</p>"));
    assert!(rendered.contains("<p>Wildcard Works</p>"));
    assert!(!rendered.contains("@use"));
}

#[test]
fn preprocess_template_directives_resolves_use_with_default_alias() {
    let vars = UiLangVariables::default();
    let mut shared = UiSharedValues::default();
    shared
        .values
        .insert("DataPack", json(r#"{"version":"1.0.0","used":false}"#));

    let template = r#"
            @use "DataPack";
            <p>Version: {{ data_pack.version }}</p>
            @if(!data_pack.used) {
              <p>Unused</p>
            }
        "#;

    let rendered = preprocess_template_directives_with_shared(template, &vars, &shared);

    assert!(rendered.contains("<p>Version: 1.0.0</p>"));
    assert!(rendered.contains("<p>Unused</p>"));
    assert!(!rendered.contains("@use"));
}

#[test]
fn preprocess_template_directives_compares_shared_enum_variant_literals() {
    let vars = UiLangVariables::default();
    let mut shared = UiSharedValues::default();
    shared
        .values
        .insert("DataState", JsonValue::String("Inactive".to_string()));

    let template = r#"
            @use "DataState";
            @if(data_state == DataState::Inactive) {
              <p>Inactive</p>
            } @else {
              <p>Active</p>
            }
        "#;

    let rendered = preprocess_template_directives_with_shared(template, &vars, &shared);

    assert!(rendered.contains("<p>Inactive</p>"));
    assert!(!rendered.contains("<p>Active</p>"));
}

#[test]
fn preprocess_template_directives_resolves_use_path_with_default_alias() {
    let vars = UiLangVariables::default();
    let mut shared = UiSharedValues::default();
    shared.values.insert(
        "bevy_extended_ui_tests::data_structs::DataPack",
        json(r#"{"version":"1.0.0","data":[0,2,1]}"#),
    );
    shared
        .known_types
        .push("bevy_extended_ui_tests::data_structs::DataPack".to_string());

    let template = r#"
            @use "crate::data_structs::DataPack";
            <p>Version: {{ data_pack.version }}</p>
            @for (entry in data_pack.get_data()) {
              <span>{{ entry }}</span>
            }
        "#;

    let rendered = preprocess_template_directives_with_shared(template, &vars, &shared);

    assert!(rendered.contains("<p>Version: 1.0.0</p>"));
    assert!(rendered.contains("<span>0</span>"));
    assert!(rendered.contains("<span>2</span>"));
    assert!(rendered.contains("<span>1</span>"));
    assert!(!rendered.contains("@use"));
}

#[test]
fn preprocess_template_directives_resolves_grouped_use_paths() {
    let vars = UiLangVariables::default();
    let mut shared = UiSharedValues::default();
    shared.values.insert(
        "bevy_extended_ui_tests::data_structs::DataPack",
        json(r#"{"version":"1.0.0","used":false}"#),
    );
    shared.values.insert(
        "bevy_extended_ui_tests::data_structs::DataState",
        JsonValue::String("Inactive".to_string()),
    );
    shared
        .known_types
        .push("bevy_extended_ui_tests::data_structs::DataPack".to_string());
    shared
        .known_types
        .push("bevy_extended_ui_tests::data_structs::DataState".to_string());

    let template = r#"
            @use "crate::data_structs::{DataState as hey, DataPack}";
            <p>Version: {{ data_pack.version }}</p>
            @if(!data_pack.used && hey == DataState::Inactive) {
              <p>Grouped Use Works</p>
            }
        "#;

    let rendered = preprocess_template_directives_with_shared(template, &vars, &shared);

    assert!(rendered.contains("<p>Version: 1.0.0</p>"));
    assert!(rendered.contains("<p>Grouped Use Works</p>"));
    assert!(!rendered.contains("@use"));
}

#[test]
fn preprocess_template_directives_resolves_path_wildcard_use() {
    let vars = UiLangVariables::default();
    let mut shared = UiSharedValues::default();
    shared.values.insert(
        "bevy_extended_ui_tests::data_structs::DataPack",
        json(r#"{"version":"1.0.0","used":false}"#),
    );
    shared.values.insert(
        "bevy_extended_ui_tests::data_structs::DataState",
        JsonValue::String("Inactive".to_string()),
    );

    let template = r#"
            @use "crate::data_structs::*";
            <p>Version: {{ data_pack.version }}</p>
            @if(!data_pack.used && data_state == DataState::Inactive) {
              <p>Wildcard Use Works</p>
            }
        "#;

    let rendered = preprocess_template_directives_with_shared(template, &vars, &shared);

    assert!(rendered.contains("<p>Version: 1.0.0</p>"));
    assert!(rendered.contains("<p>Wildcard Use Works</p>"));
    assert!(!rendered.contains("@use"));
}

#[test]
fn preprocess_template_directives_interpolates_moustache_from_shared_alias() {
    let vars = UiLangVariables::default();
    let mut shared = UiSharedValues::default();
    shared.values.insert("Player", json(r#"{"name":"NetRunner"}"#));

    let template = r#"
            @use "Player" as player;
            <p>Player Name: {{ player.name }}</p>
        "#;

    let rendered = preprocess_template_directives_with_shared(template, &vars, &shared);
    assert!(rendered.contains("<p>Player Name: NetRunner</p>"));
}

#[test]
fn preprocess_template_directives_auto_aliases_local_component_types() {
    let vars = UiLangVariables::default();
    let mut shared = UiSharedValues::default();
    shared
        .values
        .insert("Player", json(r#"{"name":"NetRunner","state":true}"#));
    shared.values.insert("Info", json(r#"{"display":"Ready"}"#));

    let template = r#"
            <p>{{ player.name }}</p>
            <span>{{ info.display }}</span>
            @if(player.state) { <b>Active</b> }
        "#;

    let rendered = preprocess_template_directives_with_shared_and_local_types(
        template,
        &vars,
        &shared,
        &vec!["Player".to_string(), "Info".to_string()],
    );

    assert!(rendered.contains("<p>NetRunner</p>"));
    assert!(rendered.contains("<span>Ready</span>"));
    assert!(rendered.contains("<b>Active</b>"));
}

#[test]
fn preprocess_template_directives_interpolates_moustache_from_html_use_fields() {
    let vars = UiLangVariables::default();
    let mut shared = UiSharedValues::default();
    shared
        .values
        .insert("Player", json(r#"{"name":"NetRunner","state":true}"#));
    shared
        .auto_use_aliases
        .insert("player", "Player".to_string());

    let template = r#"
            <p>Player Name: {{ name }}</p>
            @if(state) { <p>Enabled</p> }
        "#;

    let rendered = preprocess_template_directives_with_shared(template, &vars, &shared);
    assert!(rendered.contains("<p>Player Name: NetRunner</p>"));
    assert!(rendered.contains("<p>Enabled</p>"));
}

#[test]
fn extract_inner_bindings_returns_unique_placeholders() {
    let src = "<p>{{user.name}} {{ user.name }} {{ user.name }} {{user.id}}</p>";
    let bindings = extract_inner_bindings(src);

    assert_eq!(
        bindings,
        vec![
            "{{user.name}}".to_string(),
            "{{ user.name }}".to_string(),
            "{{user.id}}".to_string()
        ]
    );
}

#[test]
fn plain_html_passes_through_unchanged() {
    let vars = UiLangVariables::default();
    let template = "<div class=\"x\"><p>Hello, world!</p></div>\n";
    assert_eq!(preprocess_template_directives(template, &vars), template);
}

#[test]
fn use_lines_are_removed_and_keep_their_line_breaks() {
    let vars = UiLangVariables::default();
    let mut shared = UiSharedValues::default();
    shared.values.insert("Player", json(r#"{"name":"Neo"}"#));
    let template = "@use \"Player\";\r\n<p>{{ player.name }}</p>\n  @use \"Player\" as p ;\n<i>{{ p.name }}</i>";
    let rendered = preprocess_template_directives_with_shared(template, &vars, &shared);
    assert_eq!(rendered, "\n<p>Neo</p>\n\n<i>Neo</i>");
}

#[test]
fn use_line_not_at_line_start_is_kept() {
    let vars = UiLangVariables::default();
    let shared = UiSharedValues::default();
    let template = "x @use \"Player\";";
    let rendered = preprocess_template_directives_with_shared(template, &vars, &shared);
    assert_eq!(rendered, template);
}

#[test]
fn blank_variable_is_an_empty_string_and_invalid_json_is_text() {
    let mut vars = UiLangVariables::default();
    set_var(&mut vars, "blank", "   ");
    set_var(&mut vars, "word", "hello world");
    let rendered = preprocess_template_directives("[{{ blank }}|{{ word }}]", &vars);
    assert_eq!(rendered, "[|hello world]");
}

#[test]
fn explicit_use_alias_replaces_an_existing_variable() {
    let mut vars = UiLangVariables::default();
    set_var(&mut vars, "player", r#""from vars""#);
    let mut shared = UiSharedValues::default();
    shared.values.insert("Player", JsonValue::String("shared".to_string()));
    let rendered = preprocess_template_directives_with_shared(
        "@use \"Player\";\n{{ player }}",
        &vars,
        &shared,
    );
    assert_eq!(rendered, "\nshared");
}

#[test]
fn auto_alias_does_not_replace_an_existing_variable() {
    let mut vars = UiLangVariables::default();
    set_var(&mut vars, "player", r#""from vars""#);
    let mut shared = UiSharedValues::default();
    shared.values.insert("Player", JsonValue::String("shared".to_string()));
    shared.auto_use_aliases.insert("player", "Player".to_string());
    let rendered = preprocess_template_directives_with_shared("{{ player }}", &vars, &shared);
    assert_eq!(rendered, "from vars");
}

#[test]
fn template_without_placeholders_or_directives_is_unchanged() {
    let mut vars = UiLangVariables::new();
    set_var(&mut vars, "x", "1");
    let text = "<p>style { color: red } mail@home.org @ifx</p>";
    assert_eq!(preprocess_template_directives(text, &vars), text);
}
