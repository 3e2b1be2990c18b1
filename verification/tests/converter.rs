use extended_ui::components::WidgetIdPools;
use extended_ui::html::TableSection;
use extended_ui::tree::{collect_html_ids, parse_html_fragment, NodeWidget, HtmlWidgetNode};

fn fragment(html: &str) -> Vec<HtmlWidgetNode> {
    let mut pools = WidgetIdPools::new();
    parse_html_fragment(html, &mut pools, &|_: &str| false, &|_: &str| None)
        .expect("fragment has a body")
}

/// Returns the cells of the single table in `html`: its columns and, per cell,
/// (header, row, col, trimmed text).
fn table_cells(html: &str) -> (usize, Vec<(bool, usize, usize, String)>) {
    let nodes = fragment(html);
    let tables: Vec<&HtmlWidgetNode> =
        nodes.iter().filter(|n| matches!(n.widget, NodeWidget::Table(..))).collect();
    assert_eq!(tables.len(), 1, "expected exactly one Table node");
    let NodeWidget::Table(table) = &tables[0].widget else { unreachable!() };
    let parsed = tables[0]
        .children
        .iter()
        .map(|cell| {
            let NodeWidget::TableCell(c) = &cell.widget else {
                panic!("table child was not a TableCell");
            };
            (c.header, c.row, c.col, cell.inner_text.trim().to_string())
        })
        .collect();
    (table.columns, parsed)
}

/// Returns the cell nodes of the single table in `html`.
fn first_table_cells(html: &str) -> Vec<HtmlWidgetNode> {
    let nodes = fragment(html);
    let table = nodes
        .into_iter()
        .find(|n| matches!(n.widget, NodeWidget::Table(..)))
        .expect("expected a Table node");
    table.children
}

fn cell_section_and_classes(cell: &HtmlWidgetNode) -> (TableSection, Vec<String>) {
    let NodeWidget::TableCell(c) = &cell.widget else {
        panic!("expected TableCell");
    };
    (c.section, cell.classes.clone().unwrap_or_default())
}

#[test]
fn parse_cell_marks_header_flag() {
    let cells = first_table_cells("<table><tr><td>Hi</td><th>Yo</th></tr></table>");
    assert_eq!(cells.len(), 2);
    match (&cells[0].widget, &cells[1].widget) {
        (NodeWidget::TableCell(data), NodeWidget::TableCell(header)) => {
            assert!(!data.header);
            assert_eq!((data.row, data.col), (0, 0));
            assert!(header.header);
            assert_eq!((header.row, header.col), (0, 1));
        }
        _ => panic!("expected two TableCells"),
    }
}

#[test]
fn parse_cell_with_nested_button_keeps_child_node() {
    let cells =
        first_table_cells(r#"<table><tr><td><button onclick="go">X</button></td></tr></table>"#);
    assert!(matches!(cells[0].widget, NodeWidget::TableCell(..)));
    assert_eq!(cells[0].children.len(), 1);
    assert!(matches!(cells[0].children[0].widget, NodeWidget::Button(..)));
}

#[test]
fn parse_table_2x3_yields_six_cells_and_three_columns() {
    let html = r#"
        <table>
            <tr><th>A</th><th>B</th><th>C</th></tr>
            <tr><td>1</td><td>2</td><td>3</td></tr>
        </table>
    "#;
    let (columns, cells) = table_cells(html);
    assert_eq!(columns, 3, "column count is the widest row");
    assert_eq!(cells.len(), 6);
    assert_eq!(
        cells,
        vec![
            (true, 0, 0, "A".to_string()),
            (true, 0, 1, "B".to_string()),
            (true, 0, 2, "C".to_string()),
            (false, 1, 0, "1".to_string()),
            (false, 1, 1, "2".to_string()),
            (false, 1, 2, "3".to_string()),
        ]
    );
}

#[test]
fn parse_table_text_only_cell_exposes_inner_content() {
    let (_, cells) = table_cells("<table><tr><td>Hello</td></tr></table>");
    assert_eq!(cells.len(), 1);
    assert_eq!(cells[0].3, "Hello");
}

#[test]
fn parse_table_skips_whitespace_between_rows_and_cells() {
    let html = "<table>\n  <tr>\n    <td>1</td>\n    <td>2</td>\n  </tr>\n</table>";
    let (columns, cells) = table_cells(html);
    assert_eq!(columns, 2);
    assert_eq!(cells.len(), 2, "whitespace must not become cells");
}

#[test]
fn parse_table_ignores_stray_non_structural_tags() {
    let html = r#"
        <table>
            <div>ignored</div>
            <tr><td>1</td><span>nope</span><td>2</td></tr>
        </table>
    "#;
    let (columns, cells) = table_cells(html);
    assert_eq!(columns, 2, "stray tags do not count as cells");
    assert_eq!(cells.len(), 2);
    assert_eq!(cells[0].3, "1");
    assert_eq!(cells[1].3, "2");
    assert_eq!(cells[1].2, 1, "second cell keeps col index 1");
}

#[test]
fn parse_table_ragged_rows_keep_max_columns_and_own_indices() {
    let html = r#"
        <table>
            <tr><td>a</td><td>b</td><td>c</td></tr>
            <tr><td>d</td><td>e</td></tr>
        </table>
    "#;
    let (columns, cells) = table_cells(html);
    assert_eq!(columns, 3, "widest row sets the column count");
    assert_eq!(cells.len(), 5);
    assert_eq!(cells[3], (false, 1, 0, "d".to_string()));
    assert_eq!(cells[4], (false, 1, 1, "e".to_string()));
}

#[test]
fn parse_table_stamps_section_and_class_from_wrappers() {
    let html = r#"
        <table>
            <thead><tr><th>H</th></tr></thead>
            <tbody><tr><td>B</td></tr></tbody>
            <tfoot><tr><td>F</td></tr></tfoot>
        </table>
    "#;
    let cells = first_table_cells(html);
    assert_eq!(cells.len(), 3);
    let section_and_class: Vec<(TableSection, Vec<String>)> =
        cells.iter().map(cell_section_and_classes).collect();
    assert_eq!(section_and_class[0].0, TableSection::Head);
    assert!(section_and_class[0].1.contains(&"thead".to_string()));
    assert_eq!(section_and_class[1].0, TableSection::Body);
    assert!(section_and_class[1].1.contains(&"tbody".to_string()));
    assert_eq!(section_and_class[2].0, TableSection::Foot);
    assert!(section_and_class[2].1.contains(&"tfoot".to_string()));
}

#[test]
fn parse_table_bare_rows_default_to_body_section() {
    let cells = first_table_cells("<table><tr><td>x</td></tr></table>");
    let (section, classes) = cell_section_and_classes(&cells[0]);
    assert_eq!(section, TableSection::Body);
    assert!(classes.contains(&"tbody".to_string()));
}

#[test]
fn parse_table_section_class_preserves_author_classes() {
    let cells =
        first_table_cells(r#"<table><thead><tr><th class="hd">H</th></tr></thead></table>"#);
    let (section, classes) = cell_section_and_classes(&cells[0]);
    assert_eq!(section, TableSection::Head);
    assert!(classes.contains(&"hd".to_string()), "author class kept");
    assert!(classes.contains(&"thead".to_string()), "section class added");
}

#[test]
fn fragment_nodes_carry_ids_states_and_widgets() {
    let nodes = fragment(
        r#"<div id="box" class="a  b" hidden><p>Hi</p><span>x</span></div><h2>T</h2><slider min="0"></slider>"#,
    );
    assert_eq!(nodes.len(), 3);
    assert!(matches!(nodes[0].widget, NodeWidget::Div(..)));
    assert_eq!(nodes[0].html_id.as_deref(), Some("box"));
    assert_eq!(nodes[0].classes, Some(vec!["a".to_string(), "b".to_string()]));
    assert!(nodes[0].states.hidden && !nodes[0].states.disabled);
    assert_eq!(nodes[0].children.len(), 1, "span becomes no widget");
    assert!(matches!(nodes[0].children[0].widget, NodeWidget::Paragraph(..)));
    match &nodes[1].widget {
        NodeWidget::Headline(h) => assert_eq!(h.text, "T"),
        _ => panic!("expected headline"),
    }
    match &nodes[2].widget {
        NodeWidget::Numeric(tag, _) => assert_eq!(tag, "slider"),
        _ => panic!("expected numeric widget"),
    }
    assert_ne!(nodes[0].id, nodes[1].id);
}

#[test]
fn fieldset_radios_follow_other_children_with_one_selected() {
    let nodes = fragment(
        r#"<fieldset><radio value="a">A</radio><p>note</p><radio value="b" selected>B</radio></fieldset>"#,
    );
    assert_eq!(nodes.len(), 1);
    let kids = &nodes[0].children;
    assert_eq!(kids.len(), 3);
    assert!(matches!(kids[0].widget, NodeWidget::Paragraph(..)));
    match (&kids[1].widget, &kids[2].widget) {
        (NodeWidget::RadioButton(a), NodeWidget::RadioButton(b)) => {
            assert_eq!((a.label.as_str(), a.selected), ("A", false));
            assert_eq!((b.label.as_str(), b.selected), ("B", true));
            assert_eq!(b.value_as_str(), Some("b"));
        }
        _ => panic!("expected radios after the paragraph"),
    }
}

#[test]
fn event_attributes_bind_handlers_with_alternative_spellings() {
    let nodes = fragment(
        r#"<button onclick="go" onmouseenter="hover" onfocus="f" onfoucs="g">X</button>"#,
    );
    let f = &nodes[0].functions;
    assert_eq!(f.onclick.as_deref(), Some("go"));
    assert_eq!(f.onmouseover.as_deref(), Some("hover"));
    assert_eq!(f.onfoucs.as_deref(), Some("g"), "the primary spelling wins");
    assert_eq!(f.onchange, None);
    match &nodes[0].widget {
        NodeWidget::Button(b) => assert_eq!(b.text, "X"),
        _ => panic!("expected button"),
    }
}

#[test]
fn collected_html_ids_list_each_node_before_its_children() {
    let nodes = fragment("<div><p>a</p><div><p>b</p></div></div><p>c</p>");
    let mut ids = Vec::new();
    collect_html_ids(&nodes, &mut ids);
    assert_eq!(ids.len(), 5);
    assert_eq!(ids[0], nodes[0].id);
    assert_eq!(ids[1], nodes[0].children[0].id);
    assert_eq!(ids[2], nodes[0].children[1].id);
    assert_eq!(ids[3], nodes[0].children[1].children[0].id);
    assert_eq!(ids[4], nodes[1].id);
}

#[test]
fn file_input_byte_limit_is_what_the_callback_reads() {
    let mut pools = WidgetIdPools::new();
    let html = r#"<input id="json-file" type="file" max-size="1MB" /><input id="plain" />"#;
    let nodes = parse_html_fragment(html, &mut pools, &|_: &str| false, &|raw: &str| {
        if raw.trim() == "1MB" { Some(1_048_576) } else { None }
    })
    .expect("fragment");
    let limits: Vec<Option<u64>> = nodes
        .iter()
        .filter_map(|n| match &n.widget {
            NodeWidget::Input(f) => Some(f.max_size_bytes),
            _ => None,
        })
        .collect();
    assert_eq!(limits, vec![Some(1_048_576), None]);
}

#[test]
fn table_cells_keep_their_text_children_and_paths() {
    let nodes = fragment("<table><tr><th>A</th><td><button onclick=\"go\">X</button></td></tr></table>");
    let table = nodes.iter().find(|n| matches!(n.widget, NodeWidget::Table(..))).expect("table");
    assert_eq!(table.children[0].inner_text.trim(), "A");
    assert_eq!(table.children[1].children.len(), 1);
    assert!(matches!(table.children[1].children[0].widget, NodeWidget::Button(..)));
    assert_eq!(
        table.children[1].id,
        extended_ui::attrs::stable_html_id("fragment", &format!("{}.0.1", 0), "td")
    );
}

#[test]
fn nested_trees_keep_their_identifiers_at_every_depth() {
    let html = r#"<div id="outer"><div><p>deep</p></div><table><tr><td><div><button>b</button></div></td></tr></table><fieldset><radio value="r">R</radio></fieldset></div>"#;
    let first = fragment(html);

    let mut pools = WidgetIdPools::new();
    parse_html_fragment("<p>a</p><div><p>b</p></div>", &mut pools, &|_: &str| false, &|_: &str| None)
        .expect("fragment has a body");
    let second = parse_html_fragment(html, &mut pools, &|_: &str| false, &|_: &str| None)
        .expect("fragment has a body");

    let outer = &first[0];
    assert!(matches!(outer.widget, NodeWidget::Div(..)));
    let inner = &outer.children[0];
    assert!(matches!(inner.children[0].widget, NodeWidget::Paragraph(..)));
    let cell = &outer.children[1].children[0];
    assert!(matches!(cell.widget, NodeWidget::TableCell(..)));
    assert!(matches!(cell.children[0].children[0].widget, NodeWidget::Button(..)));

    let mut ids_first = Vec::new();
    collect_html_ids(&first, &mut ids_first);
    let mut ids_second = Vec::new();
    collect_html_ids(&second, &mut ids_second);
    assert_eq!(ids_first.len(), 9);
    assert_eq!(ids_first, ids_second);
    let mut distinct = ids_first.clone();
    distinct.sort_by_key(|id| id.0);
    distinct.dedup();
    assert_eq!(distinct.len(), ids_first.len());
}
