use extended_ui::components::WidgetIdPools;
use extended_ui::elements::ChildNode;
use extended_ui::keyed::KeyedMap;
use extended_ui::tree::{
    analyze_template_bindings, analyze_template_bindings_of, collect_text_bindings_by_path,
    existing_node_kind_matches, get_node_children, get_node_id, get_node_kind,
    is_bound_date_picker_node, is_relocated_widget_node, parse_html_fragment, HtmlNodeKind,
    HtmlNodeKindDiscriminant, HtmlWidgetNode,
};

fn fragment(html: &str) -> Vec<HtmlWidgetNode> {
    let mut pools = WidgetIdPools::new();
    parse_html_fragment(html, &mut pools, &|_: &str| false, &|_: &str| None)
        .expect("fragment has a body")
}

fn key(s: &str) -> Vec<char> {
    s.chars().collect()
}

fn element(name: &str, text: &str, children: Vec<ChildNode>) -> ChildNode {
    ChildNode::Element {
        name: name.to_string(),
        attrs: KeyedMap::new(),
        text: text.to_string(),
        html: String::new(),
        children,
    }
}

fn sorted(mut v: Vec<String>) -> Vec<String> {
    v.sort();
    v
}

#[test]
fn only_containers_expose_children() {
    let nodes = fragment("<div><p>a</p><p>b</p></div><p>x</p><form><button>go</button></form>");
    assert_eq!(nodes.len(), 3);
    assert_eq!(get_node_children(&nodes[0]).map(|c| c.len()), Some(2));
    assert!(get_node_children(&nodes[1]).is_none());
    assert_eq!(get_node_children(&nodes[2]).map(|c| c.len()), Some(1));
    assert_eq!(*get_node_id(&nodes[1]), nodes[1].id);
}

#[test]
fn node_kinds_follow_widgets_and_numeric_tags() {
    let nodes = fragment(
        "<div></div><p>t</p><slider></slider><colorpicker></colorpicker><progressbar></progressbar><scroll></scroll><table></table>",
    );
    let kinds: Vec<HtmlNodeKindDiscriminant> =
        nodes.iter().map(|n| get_node_kind(n).discriminant).collect();
    assert_eq!(
        kinds,
        vec![
            HtmlNodeKindDiscriminant::Div,
            HtmlNodeKindDiscriminant::Paragraph,
            HtmlNodeKindDiscriminant::Slider,
            HtmlNodeKindDiscriminant::ColorPicker,
            HtmlNodeKindDiscriminant::ProgressBar,
            HtmlNodeKindDiscriminant::Scrollbar,
            HtmlNodeKindDiscriminant::Table,
        ]
    );
    let div = HtmlNodeKind { discriminant: HtmlNodeKindDiscriminant::Div };
    assert!(existing_node_kind_matches(&nodes[0], div));
    assert!(!existing_node_kind_matches(&nodes[1], div));
}

#[test]
fn bound_date_pickers_are_relocated() {
    let nodes = fragment("<date-picker for=\"birthday\"></date-picker><date-picker></date-picker><p>x</p>");
    assert!(is_bound_date_picker_node(&nodes[0]));
    assert!(is_relocated_widget_node(&nodes[0]));
    assert!(!is_bound_date_picker_node(&nodes[1]));
    assert!(!is_relocated_widget_node(&nodes[2]));
}

#[test]
fn text_bindings_are_keyed_by_child_path() {
    let body = element(
        "body",
        "",
        vec![
            element("p", "Hi {{user.name}}", vec![ChildNode::Text("Hi {{user.name}}".to_string())]),
            ChildNode::Text("  ".to_string()),
            element(
                "div",
                "{{title}} {{ count }}",
                vec![
                    element("h1", "{{title}} {{ count }} {{title}}", vec![]),
                    element("span", "{{other}}", vec![]),
                ],
            ),
            element("button", "plain", vec![]),
        ],
    );
    let bindings = collect_text_bindings_by_path(&body);
    assert_eq!(bindings.len(), 2);
    let p = bindings.get(&key("0.0")).expect("paragraph binding");
    assert_eq!(p.template, "Hi {{user.name}}");
    assert_eq!(p.bindings, vec!["{{user.name}}".to_string()]);
    let h1 = bindings.get(&key("0.2.0")).expect("heading binding");
    assert_eq!(h1.bindings, vec!["{{title}}".to_string(), "{{ count }}".to_string()]);
    assert!(bindings.get(&key("0.2.1")).is_none());

    let analysis = analyze_template_bindings_of("{{user.name}} {{other}} @for x in xs", Some(&body));
    assert_eq!(sorted(analysis.profile.text_roots.clone()), vec!["count", "title", "user"]);
    assert_eq!(analysis.profile.unpatchable_roots, vec!["other".to_string()]);
    assert!(analysis.profile.force_reparse_on_value_change);

    let none = analyze_template_bindings_of("{{a}}", None);
    assert_eq!(none.text_bindings.len(), 0);
    assert_eq!(none.profile.unpatchable_roots, vec!["a".to_string()]);
    assert!(!none.profile.force_reparse_on_value_change);
}

#[test]
fn template_analysis_reads_the_parsed_body() {
    let template = "<html><body><p>Hello {{user.name}}</p><div><h2>{{count}}</h2><span>{{extra}}</span></div></body></html>";
    let analysis = analyze_template_bindings(template);
    assert_eq!(analysis.text_bindings.len(), 2);
    assert!(analysis.text_bindings.get(&key("0.0")).is_some());
    assert!(analysis.text_bindings.get(&key("0.1.0")).is_some());
    assert_eq!(sorted(analysis.profile.text_roots.clone()), vec!["count", "user"]);
    assert_eq!(analysis.profile.unpatchable_roots, vec!["extra".to_string()]);
    assert!(!analysis.profile.force_reparse_on_value_change);
}

use extended_ui::builder::{reconcile_node_children, ChildStep, ExistingChild};

fn kind_of_node(n: &HtmlWidgetNode) -> Option<HtmlNodeKind> {
    Some(get_node_kind(n))
}

#[test]
fn reconcile_reuses_replaces_relocates_and_spawns() {
    let nodes = fragment("<div></div><p>x</p><date-picker for=\"x\"></date-picker><button>b</button>");
    assert_eq!(nodes.len(), 4);
    let existing = vec![
        ExistingChild { entity: 10, html_id: Some(nodes[0].id.0), kind: kind_of_node(&nodes[0]) },
        ExistingChild { entity: 11, html_id: Some(nodes[1].id.0), kind: kind_of_node(&nodes[0]) },
        ExistingChild { entity: 12, html_id: None, kind: None },
        ExistingChild { entity: 13, html_id: Some(9999), kind: None },
    ];
    let index = vec![(nodes[2].id.0, 20, kind_of_node(&nodes[2]))];
    let plan = reconcile_node_children(&existing, &nodes, &index);
    assert_eq!(
        plan.steps,
        vec![ChildStep::Update(10), ChildStep::Replace(11), ChildStep::UpdateRelocated(20), ChildStep::Spawn]
    );
    assert_eq!(plan.stale, vec![(9999, 13)]);
    assert_eq!(plan.kept, vec![12]);
}

#[test]
fn reconcile_same_nodes_keeps_every_child() {
    let nodes = fragment("<div><p>a</p></div><p>x</p><button>b</button>");
    let existing: Vec<ExistingChild> = nodes
        .iter()
        .enumerate()
        .map(|(i, n)| ExistingChild { entity: 100 + i as u64, html_id: Some(n.id.0), kind: kind_of_node(n) })
        .collect();
    let plan = reconcile_node_children(&existing, &nodes, &vec![]);
    assert_eq!(plan.steps, vec![ChildStep::Update(100), ChildStep::Update(101), ChildStep::Update(102)]);
    assert!(plan.stale.is_empty());
    assert!(plan.kept.is_empty());
}

#[test]
fn reconcile_later_duplicate_identifier_wins_and_unmatched_relocated_spawns() {
    let nodes = fragment("<p>x</p><date-picker for=\"y\"></date-picker>");
    let existing = vec![
        ExistingChild { entity: 1, html_id: Some(nodes[0].id.0), kind: None },
        ExistingChild { entity: 2, html_id: Some(nodes[0].id.0), kind: kind_of_node(&nodes[0]) },
    ];
    let index = vec![(nodes[1].id.0, 30, kind_of_node(&nodes[0]))];
    let plan = reconcile_node_children(&existing, &nodes, &index);
    assert_eq!(plan.steps, vec![ChildStep::Update(2), ChildStep::Spawn]);
    assert!(plan.stale.is_empty());
}

use extended_ui::attrs::HtmlID;
use extended_ui::builder::{
    active_html_ids, body_children_for_active, widgets_ready_for_reveal, HtmlStructureMap,
    WidgetRevealState,
};
use extended_ui::tree::{parse_html_node, SourceContext};

fn body_tree(pools: &mut WidgetIdPools) -> HtmlWidgetNode {
    let body = element(
        "body",
        "x",
        vec![element("p", "x", vec![]), element("div", "", vec![element("button", "b", vec![])])],
    );
    let ctx = SourceContext {
        key: "main".to_string(),
        html_path: String::new(),
        labels: KeyedMap::new(),
        text_bindings: KeyedMap::new(),
    };
    parse_html_node(&body, &ctx, "0", pools, &|_: &str| false, &|_: &str| None).expect("body node")
}

#[test]
fn structure_map_lists_ids_of_shown_trees_and_body_children() {
    let mut pools = WidgetIdPools::new();
    let body = body_tree(&mut pools);
    let body_id = body.id;
    let child_ids: Vec<HtmlID> = vec![body.children[0].id, body.children[1].id, body.children[1].children[0].id];
    let mut map = HtmlStructureMap::new();
    assert!(active_html_ids(&map).is_empty());
    map.html_map.insert("main", vec![body]);
    map.html_map.insert("other", fragment("<p>y</p>"));
    map.active = Some(vec!["missing".to_string(), "main".to_string()]);
    let ids = active_html_ids(&map);
    let mut expected = vec![body_id];
    expected.extend(child_ids);
    assert_eq!(ids, expected);
    assert_eq!(body_children_for_active(&map, "main").map(|c| c.len()), Some(2));
    assert!(body_children_for_active(&map, "other").is_none());
    assert!(body_children_for_active(&map, "missing").is_none());
}

#[test]
fn reveal_waits_for_styles_of_shown_widgets() {
    let ids = vec![HtmlID(1), HtmlID(2)];
    let ready = WidgetRevealState { html_id: 1, css_loaded: true, has_active_style: true };
    let unrelated = WidgetRevealState { html_id: 7, css_loaded: false, has_active_style: false };
    assert!(widgets_ready_for_reveal(&ids, &vec![ready, unrelated]));
    let loading = WidgetRevealState { html_id: 2, css_loaded: false, has_active_style: true };
    assert!(!widgets_ready_for_reveal(&ids, &vec![ready, loading]));
    let unstyled = WidgetRevealState { html_id: 2, css_loaded: true, has_active_style: false };
    assert!(!widgets_ready_for_reveal(&ids, &vec![unstyled, ready]));
    assert!(!widgets_ready_for_reveal(&ids, &vec![unrelated]));
}

use extended_ui::builder::update_widget_state_from_html;
use extended_ui::html::HtmlStates;
use extended_ui::style::UIWidgetState;

#[test]
fn widget_state_takes_readonly_and_disabled_from_the_node() {
    let mut state = UIWidgetState::default();
    state.hovered = true;
    state.disabled = true;
    update_widget_state_from_html(&mut state, &HtmlStates { hidden: true, disabled: false, readonly: true });
    assert!(state.readonly);
    assert!(!state.disabled);
    assert!(state.hovered);
    assert!(!state.focused);
}

use extended_ui::attrs::stable_html_id;
use extended_ui::tree::parse_html_fragment_of;

#[test]
fn fragment_nodes_sit_at_the_index_of_their_child() {
    let body = element(
        "body",
        "",
        vec![
            ChildNode::Text("lead".to_string()),
            element("p", "x", vec![]),
            element("span", "s", vec![]),
            element("button", "b", vec![]),
        ],
    );
    let mut pools = WidgetIdPools::new();
    let nodes = parse_html_fragment_of(&body, &mut pools, &|_: &str| false, &|_: &str| None);
    assert_eq!(nodes.len(), 2);
    assert_eq!(nodes[0].id, stable_html_id("fragment", "1", "p"));
    assert_eq!(nodes[1].id, stable_html_id("fragment", "3", "button"));
    let none = parse_html_fragment_of(&ChildNode::Text("t".to_string()), &mut pools, &|_: &str| false, &|_: &str| None);
    assert!(none.is_empty());
}
