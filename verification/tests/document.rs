use extended_ui::components::{IconPlace, WidgetIdPools};
use extended_ui::widgets::{
    BadgeAnchor, ButtonType, DateFormat, FieldMode, FormValidationMode, HyperLinkBrowsers,
    InputCap, InputType, ToolTipAlignment, ToolTipPriority, ToolTipTrigger, ToolTipVariant,
};
use extended_ui::context::{UiLangVariables, UiSharedValues};
use extended_ui::document::{parse_html_document, parse_html_document_of, ParsedHtmlDocument};
use extended_ui::elements::ChildNode;
use extended_ui::tree::{analyze_template_bindings, RawNode};
use extended_ui::json::{JsonNumber, JsonValue};
use extended_ui::registry::HtmlSource;
use extended_ui::tree::{HtmlWidgetNode, NodeWidget};

/// A JSON number as the template library holds it.
fn number(n: &serde_json::Number) -> JsonValue {
    if let Some(i) = n.as_i64() {
        return JsonValue::Number(JsonNumber::Int(i as i128));
    }
    if let Some(u) = n.as_u64() {
        return JsonValue::Number(JsonNumber::Int(u as i128));
    }
    let text = n.to_string();
    let (mantissa_text, exponent) = match text.find(|c| c == 'e' || c == 'E') {
        Some(i) => (&text[..i], text[i + 1..].parse::<i32>().unwrap()),
        None => (text.as_str(), 0),
    };
    let negative = mantissa_text.starts_with('-');
    let digits_text = mantissa_text.trim_start_matches('-');
    let (int_part, frac_part) = match digits_text.find('.') {
        Some(i) => (&digits_text[..i], &digits_text[i + 1..]),
        None => (digits_text, ""),
    };
    let mut digits = format!("{int_part}{frac_part}");
    let mut exp = exponent - frac_part.len() as i32;
    while digits.len() > 1 && digits.ends_with('0') {
        digits.pop();
        exp += 1;
    }
    let mut m: i64 = digits.parse().unwrap();
    if m == 0 {
        exp = 0;
    }
    if negative {
        m = -m;
    }
    JsonValue::Number(JsonNumber::Float(m, exp))
}

/// A `serde_json` value as the template library holds it.
fn to_lib(v: &serde_json::Value) -> JsonValue {
    match v {
        serde_json::Value::Null => JsonValue::Null,
        serde_json::Value::Bool(b) => JsonValue::Bool(*b),
        serde_json::Value::Number(n) => number(n),
        serde_json::Value::String(s) => JsonValue::String(s.clone()),
        serde_json::Value::Array(items) => JsonValue::Array(items.iter().map(to_lib).collect()),
        serde_json::Value::Object(map) => JsonValue::Object(
            map.iter()
                .map(|(k, v)| (k.clone(), to_lib(v)))
                .collect(),
        ),
    }
}

fn set_var(vars: &mut UiLangVariables, key: &str, raw: &str) {
    let parsed = serde_json::from_str::<serde_json::Value>(raw.trim())
        .ok()
        .map(|v| to_lib(&v));
    vars.set(key, raw, parsed);
}


fn source(path: &str, key: &str, controller: Option<&str>) -> HtmlSource {
    HtmlSource {
        asset_path: Some(path.to_string()),
        source_id: key.to_string(),
        controller: controller.map(|c| c.to_string()),
    }
}

fn load(html: &str, vars: &UiLangVariables, src: &HtmlSource) -> Option<ParsedHtmlDocument> {
    let mut pools = WidgetIdPools::new();
    parse_html_document(
        html,
        vars,
        &UiSharedValues::new(),
        &vec![],
        src,
        &mut pools,
        &|_: &str| false,
        &|_: &str| None,
    )
}

fn collect_nodes<'a>(nodes: &'a [HtmlWidgetNode], out: &mut Vec<&'a HtmlWidgetNode>) {
    for node in nodes {
        out.push(node);
        collect_nodes(&node.children, out);
    }
}

#[test]
fn converter_parses_switch_checked_boolean_attribute_values() {
    let mut vars = UiLangVariables::new();
    set_var(&mut vars, "enabled", "true");
    let html = r#"
        <html>
          <head>
            <meta name="switch-checked-key" />
          </head>
          <body>
            <switch id="switch-false" checked="false">False</switch>
            <switch id="switch-standalone" checked>Standalone</switch>
            <switch id="switch-empty" checked="">Empty</switch>
            <switch id="switch-value-false" value="false">Value False</switch>
            <switch id="switch-value-true" value="true">Value True</switch>
            <switch id="switch-value-overrides-checked" checked value="false">Value Wins</switch>
            <switch id="switch-value-template" value="{{ enabled }}">Value Template</switch>
          </body>
        </html>
        "#;
    let doc = load(html, &vars, &source("examples/switch_checked_fixture.html", "switch-checked-key", None))
        .expect("expected parsed html structure for switch-checked-key");
    let mut all = Vec::new();
    collect_nodes(std::slice::from_ref(&doc.body), &mut all);
    let mut by_id = std::collections::HashMap::new();
    for node in all {
        if let NodeWidget::SwitchButton(switch_button) = &node.widget {
            if let Some(id) = node.html_id.clone() {
                by_id.insert(id, switch_button.selected);
            }
        }
    }
    assert_eq!(by_id.get("switch-false"), Some(&false));
    assert_eq!(by_id.get("switch-standalone"), Some(&true));
    assert_eq!(by_id.get("switch-empty"), Some(&true));
    assert_eq!(by_id.get("switch-value-false"), Some(&false));
    assert_eq!(by_id.get("switch-value-true"), Some(&true));
    assert_eq!(by_id.get("switch-value-overrides-checked"), Some(&false));
    assert_eq!(by_id.get("switch-value-template"), Some(&true));
}

#[test]
fn converter_expands_if_and_for_directives_before_widget_parsing() {
    let mut vars = UiLangVariables::new();
    set_var(&mut vars, "data", r#"{"username":"NetUser","users":[{"name":"Ada"},{"name":"Bob"}]}"#);
    set_var(&mut vars, "enabled", "true");
    let html = r#"
        <html>
          <head>
            <meta name="directive-key" />
          </head>
          <body>
            @if(data.username.startsWidth("Net") && enabled) {
              <p>Visible</p>
            }
            @for(user, idx in data.users) {
              <p>{{ idx }}-{{ user.name }}</p>
            }
          </body>
        </html>
        "#;
    let doc = load(html, &vars, &source("examples/directive_test.html", "directive-key", None))
        .expect("expected parsed html structure for directive test");
    let mut all = Vec::new();
    collect_nodes(std::slice::from_ref(&doc.body), &mut all);
    let paragraphs: Vec<String> = all
        .iter()
        .filter_map(|node| match &node.widget {
            NodeWidget::Paragraph(p) => Some(p.text.clone()),
            _ => None,
        })
        .collect();
    assert!(paragraphs.iter().any(|text| text == "Visible"));
    assert!(paragraphs.iter().any(|text| text == "0-Ada"));
    assert!(paragraphs.iter().any(|text| text == "1-Bob"));
}

#[test]
fn document_key_controller_and_stylesheets_come_from_the_head() {
    let html = r#"
        <html>
          <head>
            <meta name="main-ui" controller="ctrl::Main" />
            <link rel="stylesheet" href="styles/app.css" />
            <link rel="icon" href="favicon.png" />
            <link rel="stylesheet" href="assets/ui/theme.css" />
          </head>
          <body><p>Hi</p></body>
        </html>
        "#;
    let vars = UiLangVariables::new();
    let doc = load(html, &vars, &source("examples/test.html", "", None)).expect("document");
    assert_eq!(doc.key, "main-ui");
    assert_eq!(doc.controller.as_deref(), Some("ctrl::Main"));
    assert_eq!(doc.stylesheets, vec!["examples/styles/app.css".to_string(), "examples/ui/theme.css".to_string()]);
    match &doc.body.widget {
        NodeWidget::Body(b) => assert_eq!(b.html_key.as_deref(), Some("main-ui")),
        _ => panic!("expected a body node"),
    }
    assert_eq!(doc.body.children.len(), 1);

    let registered = load(html, &vars, &source("examples/test.html", "registry-key", Some("own::Ctrl"))).expect("document");
    assert_eq!(registered.key, "registry-key");
    assert_eq!(registered.controller.as_deref(), Some("own::Ctrl"));
    match &registered.body.widget {
        NodeWidget::Body(b) => assert_eq!(b.html_key.as_deref(), Some("registry-key")),
        _ => panic!("expected a body node"),
    }
}

#[test]
fn document_without_meta_name_is_not_loaded() {
    let vars = UiLangVariables::new();
    let html = "<html><head><meta controller=\"x\"></head><body><p>x</p></body></html>";
    assert!(load(html, &vars, &source("a.html", "", None)).is_none());
}

#[test]
fn document_labels_reach_inputs_and_template_is_expanded() {
    let mut vars = UiLangVariables::new();
    set_var(&mut vars, "title", "Hello");
    let html = r#"<html><head><meta name="k"></head><body>
        <label for="user">User name</label>
        <p>{{ title }}</p>
        </body></html>"#;
    let doc = load(html, &vars, &source("a.html", "", None)).expect("document");
    assert!(doc.template.contains("<p>Hello</p>"));
    let paragraphs: Vec<String> = doc
        .body
        .children
        .iter()
        .filter_map(|n| match &n.widget {
            NodeWidget::Paragraph(p) => Some(p.text.clone()),
            _ => None,
        })
        .collect();
    assert_eq!(paragraphs, vec!["Hello".to_string()]);
    assert_eq!(doc.analysis.text_bindings.len(), 1);
}

use extended_ui::builder::{reconcile_node_children, ChildStep, ExistingChild, HtmlStructureMap};
use extended_ui::html::{
    source_requires_value_reparse, take_rebuild_keys, text_binding_needs_patch,
    HtmlBindingValueTracker, HtmlDirty, HtmlTemplateBindingProfile,
};
use extended_ui::context::preprocess_template_directives_with_shared;
use extended_ui::keyed::KeyedMap;
use extended_ui::tree::get_node_kind;

fn key_chars(s: &str) -> Vec<char> {
    s.chars().collect()
}

fn dirty(flag: bool, keys: &[&str]) -> HtmlDirty {
    HtmlDirty { dirty: flag, keys: keys.iter().map(|k| k.to_string()).collect() }
}

#[test]
fn rebuild_reconciles_table_when_a_row_is_added() {
    let vars = UiLangVariables::new();
    let two_row = r##"
        <html><head><meta name="rk" /></head>
          <body><table>
            <tr><td>a</td><td>b</td></tr>
            <tr><td>c</td><td>d</td></tr>
          </table></body>
        </html>"##;
    let three_row = r##"
        <html><head><meta name="rk" /></head>
          <body><table>
            <tr><td>a</td><td>b</td></tr>
            <tr><td>c</td><td>d</td></tr>
            <tr><td>e</td><td>f</td></tr>
          </table></body>
        </html>"##;
    let src = source("examples/recon.html", "rk", None);
    let first = load(two_row, &vars, &src).expect("two-row document");
    let second = load(three_row, &vars, &src).expect("three-row document");
    let old_table = &first.body.children[0];
    let new_table = &second.body.children[0];
    assert_eq!(old_table.children.len(), 4, "2x2 table → 4 cells");
    let body_plan = reconcile_node_children(
        &vec![ExistingChild { entity: 1, html_id: Some(old_table.id.0), kind: Some(get_node_kind(old_table)) }],
        &second.body.children,
        &vec![],
    );
    assert_eq!(body_plan.steps, vec![ChildStep::Update(1)], "still exactly one table");
    let existing: Vec<ExistingChild> = old_table
        .children
        .iter()
        .enumerate()
        .map(|(i, c)| ExistingChild { entity: 10 + i as u64, html_id: Some(c.id.0), kind: Some(get_node_kind(c)) })
        .collect();
    let plan = reconcile_node_children(&existing, &new_table.children, &vec![]);
    let kept = plan.steps.iter().filter(|s| matches!(s, ChildStep::Update(_))).count();
    let spawned = plan.steps.iter().filter(|s| matches!(s, ChildStep::Spawn)).count();
    assert_eq!(kept + spawned, 6, "after reconcile the added row's 2 cells exist (6 total)");
    assert_eq!(spawned, 2);
    assert!(plan.stale.is_empty(), "none stale");
}

#[test]
fn builder_rebuilds_only_dirty_active_keys() {
    let mut d = dirty(true, &["build-key-a"]);
    let active = Some(vec!["build-key-a".to_string(), "build-key-b".to_string()]);
    let keys = take_rebuild_keys(&mut d, &active);
    assert_eq!(keys, vec!["build-key-a".to_string()], "only the dirty active body is replaced");
    assert!(!d.dirty);
}

#[test]
fn builder_skips_when_dirty_keys_do_not_match_active() {
    let mut d = dirty(true, &["another-key"]);
    let active = Some(vec!["build-key-only".to_string()]);
    let keys = take_rebuild_keys(&mut d, &active);
    assert!(keys.is_empty(), "no body is rebuilt");
}

#[test]
fn builder_handles_active_key_without_structure() {
    let mut map = HtmlStructureMap::new();
    map.active = Some(vec!["missing-structure".to_string()]);
    let mut d = dirty(true, &["missing-structure"]);
    let keys = take_rebuild_keys(&mut d, &map.active);
    assert!(!d.dirty);
    assert!(d.keys.is_empty());
    let bodies = keys.iter().filter(|k| map.html_map.get(&key_chars(k)).is_some()).count();
    assert_eq!(bodies, 0);
}

#[test]
fn builder_noops_when_not_dirty_and_clears_dirty_without_active() {
    let mut d = dirty(false, &[]);
    assert!(take_rebuild_keys(&mut d, &None).is_empty());
    let mut d = dirty(true, &[]);
    assert!(take_rebuild_keys(&mut d, &None).is_empty());
    assert!(!d.dirty);
}

#[test]
fn simple_paragraph_binding_updates_without_rebuild() {
    let mut vars = UiLangVariables::new();
    set_var(&mut vars, "data", r#"{"text":"First"}"#);
    let shared = UiSharedValues::new();
    let html = r#"
            <html>
              <head><meta name="build-paragraph-fast-binding-key" /></head>
              <body><p>{{ data.text }}</p></body>
            </html>
            "#;
    let src = source("examples/build_paragraph_fast_binding_fixture.html", "build-paragraph-fast-binding-key", None);
    let doc = load(html, &vars, &src).expect("document");
    let paragraph = &doc.body.children[0];
    match &paragraph.widget {
        NodeWidget::Paragraph(p) => assert_eq!(p.text, "First"),
        _ => panic!("expected paragraph"),
    }
    let mut tracker = HtmlBindingValueTracker::new();
    tracker.track(&vars, &shared);
    set_var(&mut vars, "data", r#"{"text":"Second"}"#);
    tracker.track(&vars, &shared);
    assert!(tracker.values_changed);
    let binding = doc.analysis.text_bindings.get(&key_chars("0.0")).expect("paragraph binding");
    assert!(text_binding_needs_patch(&binding.bindings, &tracker.changed_roots));
    let patched = preprocess_template_directives_with_shared(&binding.template, &vars, &shared);
    assert_eq!(patched, "Second");
    let mut profiles: KeyedMap<HtmlTemplateBindingProfile> = KeyedMap::new();
    let ParsedHtmlDocument { analysis, .. } = doc;
    profiles.insert("build-paragraph-fast-binding-key", analysis.profile);
    assert!(
        !source_requires_value_reparse(&src, &profiles, &tracker.changed_roots),
        "simple paragraph binding should not mark the HTML tree dirty"
    );
}

fn raw_element(name: &str, attrs: &[(&str, &str)]) -> RawNode {
    RawNode::Element {
        name: name.to_string(),
        attrs: attrs
            .iter()
            .map(|(k, v)| (String::new(), k.to_string(), v.to_string()))
            .collect(),
        text: String::new(),
        html: String::new(),
        children: vec![],
    }
}

#[test]
fn document_of_selected_head_elements_builds_key_controller_and_sheets() {
    let metas = vec![(raw_element("meta", &[("name", "from-meta")]), 0usize)];
    let ctrl = vec![(raw_element("meta", &[("controller", "")]), 0usize)];
    let links = vec![
        (raw_element("link", &[("rel", "stylesheet"), ("href", "css/a.css")]), 0usize),
        (raw_element("link", &[("rel", "preload"), ("href", "css/b.css")]), 0usize),
    ];
    let body = ChildNode::Element {
        name: "body".to_string(),
        attrs: KeyedMap::new(),
        text: String::new(),
        html: String::new(),
        children: vec![],
    };
    let mut pools = WidgetIdPools::new();
    let doc = parse_html_document_of(
        "T".to_string(),
        analyze_template_bindings(""),
        &metas,
        &ctrl,
        &links,
        body,
        &source("pages/home.html", "", None),
        &mut pools,
        &|_: &str| false,
        &|_: &str| None,
    )
    .expect("document");
    assert_eq!(doc.key, "from-meta");
    assert_eq!(doc.controller, None);
    assert_eq!(doc.template, "T");
    assert_eq!(doc.stylesheets, vec!["pages/css/a.css".to_string()]);
    match &doc.body.widget {
        NodeWidget::Body(b) => assert_eq!(b.html_key.as_deref(), Some("from-meta")),
        _ => panic!("expected a body node"),
    }

    let empty = ChildNode::Other;
    let none = parse_html_document_of(
        "T".to_string(),
        analyze_template_bindings(""),
        &vec![],
        &ctrl,
        &links,
        empty,
        &source("pages/home.html", "", None),
        &mut pools,
        &|_: &str| false,
        &|_: &str| None,
    );
    assert!(none.is_none());
}

fn complex_fixture() -> &'static str {
    r##"
        <html lang="de-DE">
          <head>
            <meta name="meta-key" controller="meta::controller" />
            <link rel="stylesheet" href="assets/examples/base.css" />
            <link rel="stylesheet" href="/examples/overlay.css" />
            <link rel="preload" href="ignored.css" />
          </head>
          <body id="root" class="app main" style="width: 320px; height 180px" onclick="root_click" hidden>
            <h1 id="title">Headline</h1>
            <div id="container" class="box" readonly>
              <label for="email">E-Mail</label>
              <input id="email" name="email_name" type="email" value="a@b.c" placeholder="mail" maxlength="12" required validation="length(2, 64)&pattern('^.+@.+$')" />
              <input id="auto-cap" type="text" maxlength="auto" />
              <input id="empty-cap" type="text" maxlength="" />
              <input id="json-file" type="file" extensions="[json, css, yaml, png]" show-size="true" max-size="1MB" />
              <input id="folder-input" type="file" folder="true" extensions="js" />
              <date-picker id="birthday" for="#email" placeholder="Datum" value="2026-02-20" min="2025-01-01" max="2027-01-01" format="yyyy-mm-dd"></date-picker>
              <tool-tip for="#email" variant="point" prio="top" alignment="vertical" trigger="hover | click, drag">  Tip text  </tool-tip>
              <badge for="#email" value="143" max="99" anchor="top right"></badge>
              <a href="https://example.com" browsers="[firefox, brave, chrome]" open-modal="true">Docs</a>
              <p>{{ user.name }}</p>
              <img src="./images/avatar.png" alt="avatar" preview="#json-file" />
              <divider alignment="horizontal"></divider>
              <checkbox icon="check.png">Ich stimme zu</checkbox>
              <colorpicker value="#112233" alpha="0.5"></colorpicker>
              <progressbar min="10" max="20" value="15"></progressbar>
              <scroll alignment="horizontal"></scroll>
              <slider min="1" max="9" value="4" step="0.5"></slider>
              <switch icon="switch.png">Enable</switch>
              <button type="submit" onmouseenter="over_fn" onmouseleave="out_fn">Senden <icon src="send.png"/></button>
              <button type="button"><icon src="before.png"/> Vorne</button>
              <toggle value="t1" selected>Text zuerst <icon src="after.png"/></toggle>
              <toggle value="t2"><icon src="before.png"/> Text danach</toggle>
              <select>
                <option value="one">One</option>
                <option value="two" icon="two.png" selected>Two</option>
              </select>
              <form action="submit_fn" validate="always" onsubmit="ignored_submit_alias">
                <radio value="x" selected>Radio X</radio>
                <radio value="y">Radio Y</radio>
              </form>
              <fieldset allow-none="false" mode="single">
                <radio value="a">A</radio>
                <radio value="b">B</radio>
              </fieldset>
              <fieldset allow-none="true" mode="count(2)">
                <toggle value="m1" selected>M1</toggle>
                <toggle value="m2" selected>M2</toggle>
                <toggle value="m3">M3</toggle>
              </fieldset>
              <unknown-tag>ignored</unknown-tag>
            </div>
          </body>
        </html>
        "##
}

/// Byte counts for `max-size` texts with a whole number of KB, MB or GB.
fn byte_limit(raw: &str) -> Option<u64> {
    let compact: String = raw.chars().filter(|c| !c.is_whitespace()).collect();
    let upper = compact.to_ascii_uppercase();
    let (number, unit) = if let Some(n) = upper.strip_suffix("KB") {
        (n, 1024u64)
    } else if let Some(n) = upper.strip_suffix("MB") {
        (n, 1024 * 1024)
    } else if let Some(n) = upper.strip_suffix("GB") {
        (n, 1024 * 1024 * 1024)
    } else {
        return None;
    };
    number.parse::<u64>().ok().map(|n| n * unit)
}

#[test]
fn converter_parses_complex_html_fixture() {
    let vars = UiLangVariables::new();
    let mut pools = WidgetIdPools::new();
    let doc = parse_html_document(
        complex_fixture(),
        &vars,
        &UiSharedValues::new(),
        &vec![],
        &source("examples/complex_fixture.html", "forced-key", Some("test::controller")),
        &mut pools,
        &|_: &str| false,
        &byte_limit,
    )
    .expect("expected parsed html structure for forced-key");

    let body = &doc.body;
    match &body.widget {
        NodeWidget::Body(b) => assert_eq!(b.html_key.as_deref(), Some("forced-key")),
        _ => panic!("expected body as root node"),
    }
    assert_eq!(doc.key, "forced-key");
    assert_eq!(doc.controller.as_deref(), Some("test::controller"));
    assert_eq!(body.html_id.as_deref(), Some("root"));
    assert_eq!(body.classes.as_deref(), Some(&["app".to_string(), "main".to_string()][..]));
    assert!(body.states.hidden);
    assert_eq!(body.functions.onclick.as_deref(), Some("root_click"));
    assert_eq!(
        doc.stylesheets,
        vec!["examples/examples/base.css".to_string(), "examples/overlay.css".to_string()]
    );

    let mut all = Vec::new();
    collect_nodes(std::slice::from_ref(body), &mut all);

    assert!(all.iter().any(|node| match (&node.widget, &node.validation) {
        (NodeWidget::Input(f), Some(v)) => {
            f.label == "E-Mail"
                && f.name == "email_name"
                && f.input_type == InputType::Email
                && f.cap_text_at == InputCap::CapAt(12)
                && v.required
                && v.min_length == Some(2)
                && v.max_length == Some(64)
                && v.pattern.as_deref() == Some("^.+@.+$")
        },
        _ => false,
    }));
    assert!(all.iter().any(|node| match &node.widget {
        NodeWidget::Input(f) => {
            f.input_type == InputType::File
                && f.show_size
                && !f.folder
                && f.max_size_bytes == Some(1024 * 1024)
                && f.extensions
                    == vec!["json".to_string(), "css".to_string(), "yaml".to_string(), "png".to_string()]
        },
        _ => false,
    }));
    assert!(all.iter().any(|node| match &node.widget {
        NodeWidget::Input(f) => {
            f.input_type == InputType::File
                && f.folder
                && !f.show_size
                && f.max_size_bytes.is_none()
                && f.extensions == vec!["js".to_string()]
        },
        _ => false,
    }));
    assert!(all.iter().any(|node| matches!(&node.widget, NodeWidget::Input(f) if f.cap_text_at == InputCap::CapAtNodeSize)));
    assert!(all.iter().any(|node| matches!(&node.widget, NodeWidget::Input(f) if f.cap_text_at == InputCap::NoCap)));

    assert!(all.iter().any(|node| match &node.widget {
        NodeWidget::DatePicker(d) => {
            d.for_id.as_deref() == Some("email")
                && d.format == DateFormat::YearMonthDay
                && node
                    .classes
                    .as_ref()
                    .is_some_and(|c| c.iter().any(|c| c == "date-picker-bound"))
        },
        _ => false,
    }));
    assert!(all.iter().any(|node| match &node.widget {
        NodeWidget::ToolTip(t) => {
            t.for_id.as_deref() == Some("email")
                && t.text == "Tip text"
                && t.variant == ToolTipVariant::Point
                && t.prio == ToolTipPriority::Top
                && t.alignment == ToolTipAlignment::Vertical
                && t.trigger == vec![ToolTipTrigger::Hover, ToolTipTrigger::Click, ToolTipTrigger::Drag]
        },
        _ => false,
    }));
    assert!(all.iter().any(|node| match &node.widget {
        NodeWidget::Badge(b) => {
            b.for_id.as_deref() == Some("email")
                && b.value == 143
                && b.max == 99
                && b.anchor == BadgeAnchor::TopRight
        },
        _ => false,
    }));
    assert!(all.iter().any(|node| match &node.widget {
        NodeWidget::HyperLink(l) => {
            l.text == "Docs"
                && l.href == "https://example.com"
                && l.open_modal
                && l.browsers
                    == HyperLinkBrowsers::Custom(vec![
                        "firefox".to_string(),
                        "brave".to_string(),
                        "chrome".to_string(),
                    ])
        },
        _ => false,
    }));
    assert!(all.iter().any(|node| match &node.widget {
        NodeWidget::Paragraph(p) => {
            p.text.contains("{{ user.name }}")
                && node.inner_bindings.iter().any(|b| b == "{{ user.name }}")
        },
        _ => false,
    }));
    assert!(all.iter().any(|node| match &node.widget {
        NodeWidget::Img(i) => {
            i.src.as_deref().is_some_and(|src| src.ends_with("images/avatar.png"))
                && i.alt == "avatar"
                && i.preview.as_deref() == Some("json-file")
        },
        _ => false,
    }));
    assert!(all.iter().any(|node| matches!(&node.widget, NodeWidget::Numeric(t, _) if t == "scroll")));
    assert!(all.iter().any(|node| matches!(&node.widget, NodeWidget::Numeric(t, _) if t == "slider")));
    assert!(all.iter().any(|node| matches!(&node.widget, NodeWidget::Button(b)
        if b.button_type == ButtonType::Submit && b.icon_place == IconPlace::Right)));
    assert!(all.iter().any(|node| matches!(&node.widget, NodeWidget::Button(b)
        if b.button_type == ButtonType::Button && b.icon_place == IconPlace::Left)));
    assert!(all.iter().any(|node| matches!(&node.widget, NodeWidget::ToggleButton(t)
        if t.value.as_deref() == Some("t1") && t.icon_place == IconPlace::Right && t.selected)));
    assert!(all.iter().any(|node| matches!(&node.widget, NodeWidget::ToggleButton(t)
        if t.value.as_deref() == Some("t2") && t.icon_place == IconPlace::Left && !t.selected)));
    assert!(all.iter().any(|node| match &node.widget {
        NodeWidget::Form(f) => {
            f.action.as_deref() == Some("submit_fn")
                && f.validate_mode == FormValidationMode::Always
                && node.children.iter().filter(|n| matches!(n.widget, NodeWidget::RadioButton(_))).count() == 2
        },
        _ => false,
    }));
    assert!(all.iter().any(|node| match &node.widget {
        NodeWidget::FieldSet(f) => {
            f.allow_none
                && f.field_mode == FieldMode::Count(2)
                && node.children.iter().filter(|n| matches!(n.widget, NodeWidget::ToggleButton(_))).count() == 3
        },
        _ => false,
    }));
    let first_single_fieldset_selected = all.iter().find_map(|node| match &node.widget {
        NodeWidget::FieldSet(f) if !f.allow_none => Some(
            node.children
                .iter()
                .filter_map(|n| match &n.widget {
                    NodeWidget::RadioButton(r) => Some(r.selected),
                    _ => None,
                })
                .collect::<Vec<bool>>(),
        ),
        _ => None,
    });
    assert_eq!(first_single_fieldset_selected, Some(vec![true, false]));
}

#[test]
fn image_source_is_resolved_in_the_page_directory() {
    let vars = UiLangVariables::new();
    let html = r#"<html><head><meta name="img-key" /></head><body><img src="images/logo.png" alt="logo" /><img src="/pics/a.png" /></body></html>"#;
    let doc = load(html, &vars, &source("examples/pages/test.html", "", None)).expect("document");
    let sources: Vec<Option<String>> = doc
        .body
        .children
        .iter()
        .filter_map(|n| match &n.widget {
            NodeWidget::Img(i) => Some(i.src.clone()),
            _ => None,
        })
        .collect();
    assert_eq!(
        sources,
        vec![Some("examples/pages/images/logo.png".to_string()), Some("pics/a.png".to_string())]
    );
}

#[test]
fn nodes_carry_inner_html_placeholders_and_text_binding() {
    let vars = UiLangVariables::new();
    let html = r#"<html><head><meta name="bind-key" /></head><body><p>Hi {{ user.name }} and {{ user.name }}</p><div><b>x</b></div></body></html>"#;
    let doc = load(html, &vars, &source("a.html", "", None)).expect("document");
    let p = &doc.body.children[0];
    assert!(matches!(p.widget, NodeWidget::Paragraph(..)));
    assert_eq!(p.inner_html, "Hi {{ user.name }} and {{ user.name }}");
    assert_eq!(p.inner_bindings, vec!["{{ user.name }}".to_string()]);
    let binding = p.text_binding.as_ref().expect("paragraph text binding");
    assert_eq!(binding.template, "Hi {{ user.name }} and {{ user.name }}");
    let div = &doc.body.children[1];
    assert_eq!(div.inner_html, "<b>x</b>");
    assert!(div.inner_bindings.is_empty());
    assert!(div.text_binding.is_none());
}
