//! Loading a whole HTML document: the key it is registered under, its
//! controller, its style sheets, the binding analysis of its template and
//! the widget tree of its body.
use vstd::prelude::*;
use crate::attrs;
use crate::components::{WidgetIdPools, WIDGET_KIND_COUNT};
use crate::context;
use crate::convert;
use crate::context::{UiLangVariables, UiSharedValues};
use crate::elements;
use crate::elements::ChildNode;
use crate::html;
use crate::json;
use crate::keyed;
use crate::keyed::KeyedMap;
use crate::registry::{HtmlSource, PoolV};
use crate::text;
use crate::tree;
use crate::tree::{
    HtmlTemplateBindingAnalysis, HtmlWidgetNode, RawNode, SourceContext, callbacks_total,
    is_primary, node_size, parsed_node, parsed_selection, pools_grown_by, pools_have_room,
    read_as, sizes_of, size_answers, supported_tag,
};

verus! {

// ---------------------------------------------------------------------------
// Labels
// ---------------------------------------------------------------------------

/// The `<label>` elements of `node` and its descendants, in document
/// order: each with its `for` attribute and its text.
pub open spec fn labels_in(node: ChildNode) -> Seq<(Option<Seq<char>>, Seq<char>)>
    decreases node, 0nat,
{
    match node {
        ChildNode::Element { name, attrs, text, children, .. } => {
            let here = if name@ == "label"@ {
                seq![(convert::attr_v(attrs.entries_spec(), "for"@), text@)]
            } else {
                seq![]
            };
            here + labels_in_all(children@, children@.len())
        },
        _ => seq![],
    }
}

/// The labels of the first `n` of `children`, in order.
pub open spec fn labels_in_all(children: Seq<ChildNode>, n: nat) -> Seq<
    (Option<Seq<char>>, Seq<char>),
>
    decreases children, n,
{
    if n == 0 || n > children.len() {
        seq![]
    } else {
        labels_in_all(children, (n - 1) as nat) + labels_in(children[n - 1])
    }
}

/// Appends the labels of `node` and its descendants (`labels_in`).
#[verifier::loop_isolation(false)]
pub fn collect_labels(node: &ChildNode, out: &mut Vec<(Option<String>, String)>)
    ensures
        elements::labels_view(final(out)@) == elements::labels_view(old(out)@) + labels_in(*node),
    decreases node,
{
    match node {
        ChildNode::Element { name, attrs, text, children, .. } => {
            let ghost start = elements::labels_view(out@);
            let n = text::str_to_chars(name.as_str());
            if text::chars_eq_str(&n, "label") {
                let for_id = match convert::attr(attrs, "for") {
                    Some(v) => Some(String::from_str(v)),
                    None => None,
                };
                out.push((for_id, String::from_str(text.as_str())));
                proof {
                    reveal_strlit("label");
                    assert(elements::labels_view(out@) =~= start + seq![
                        (convert::attr_v(attrs.entries_spec(), "for"@), text@),
                    ]);
                }
            } else {
                proof {
                    reveal_strlit("label");
                }
                assert(elements::labels_view(out@) =~= start + Seq::<
                    (Option<Seq<char>>, Seq<char>),
                >::empty());
            }
            let ghost here = elements::labels_view(out@).subrange(
                start.len() as int,
                elements::labels_view(out@).len() as int,
            );
            assert(elements::labels_view(out@) =~= start + here);
            let mut i: usize = 0;
            while i < children.len()
                invariant
                    i <= children@.len(),
                    elements::labels_view(out@) == start + here + labels_in_all(
                        children@,
                        i as nat,
                    ),
                decreases children.len() - i,
            {
                proof {
                    assert(decreases_to!(node => children@[i as int]));
                }
                let ghost before = elements::labels_view(out@);
                collect_labels(&children[i], out);
                proof {
                    assert(labels_in_all(children@, (i + 1) as nat) == labels_in_all(
                        children@,
                        i as nat,
                    ) + labels_in(children@[i as int]));
                    assert(elements::labels_view(out@) =~= start + here + labels_in_all(
                        children@,
                        (i + 1) as nat,
                    ));
                }
                i = i + 1;
            }
            assert(labels_in(*node) == here + labels_in_all(children@, children@.len()));
            assert(elements::labels_view(out@) =~= start + labels_in(*node));
        },
        _ => {
            assert(elements::labels_view(out@) =~= elements::labels_view(out@) + labels_in(*node));
        },
    }
}

// ---------------------------------------------------------------------------
// The head: key, controller, style sheets
// ---------------------------------------------------------------------------

/// The value of attribute `name` (without namespace) of the first of the
/// elements `sel`; `None` without one, or when it lacks the attribute.
pub open spec fn first_attr(sel: Seq<(RawNode, usize)>, name: Seq<char>) -> Option<Seq<char>> {
    if sel.len() == 0 {
        None
    } else {
        match sel[0].0 {
            RawNode::Element { attrs, .. } => keyed::key_value(tree::raw_attr_map(attrs@), name),
            _ => None,
        }
    }
}

fn first_attr_exec(sel: &Vec<(RawNode, usize)>, name: &str) -> (r: Option<String>)
    ensures
        components_opt(r) == first_attr(sel@, name@),
{
    if sel.len() == 0 {
        return None;
    }
    match &sel[0].0 {
        RawNode::Element { attrs, .. } => {
            let m = tree::attr_map(attrs);
            let k = text::str_to_chars(name);
            match m.get(&k) {
                Some(v) => Some(String::from_str(v.as_str())),
                None => None,
            }
        },
        _ => None,
    }
}

/// View of an optional string.
pub open spec fn components_opt(o: Option<String>) -> Option<Seq<char>> {
    crate::components::opt_str(o)
}

/// The `href` of each `<link>` among `links` whose `rel` is `stylesheet`,
/// in order.
pub open spec fn stylesheet_hrefs(links: Seq<(RawNode, usize)>) -> Seq<Seq<char>>
    decreases links.len(),
{
    if links.len() == 0 {
        seq![]
    } else {
        let rest = stylesheet_hrefs(links.drop_last());
        match links.last().0 {
            RawNode::Element { attrs, .. } => {
                let m = tree::raw_attr_map(attrs@);
                if keyed::key_value(m, "rel"@) == Some("stylesheet"@) && keyed::key_value(
                    m,
                    "href"@,
                ) is Some {
                    rest.push(keyed::key_value(m, "href"@)->0)
                } else {
                    rest
                }
            },
            _ => rest,
        }
    }
}

fn stylesheet_hrefs_exec(links: &Vec<(RawNode, usize)>) -> (r: Vec<String>)
    ensures
        r@.map_values(|s: String| s@) == stylesheet_hrefs(links@),
{
    let mut out: Vec<String> = Vec::new();
    let mut i: usize = 0;
    let rel = text::str_to_chars("rel");
    let href = text::str_to_chars("href");
    let sheet = text::str_to_chars("stylesheet");
    proof {
        reveal_strlit("rel");
        reveal_strlit("href");
        reveal_strlit("stylesheet");
    }
    assert(out@.map_values(|s: String| s@) =~= stylesheet_hrefs(links@.take(0)));
    while i < links.len()
        invariant
            i <= links@.len(),
            rel@ == "rel"@,
            href@ == "href"@,
            sheet@ == "stylesheet"@,
            out@.map_values(|s: String| s@) == stylesheet_hrefs(links@.take(i as int)),
        decreases links.len() - i,
    {
        assert(links@.take(i + 1).drop_last() =~= links@.take(i as int));
        assert(links@.take(i + 1).last() == links@[i as int]);
        let ghost before = out@;
        match &links[i].0 {
            RawNode::Element { attrs, .. } => {
                let m = tree::attr_map(attrs);
                let is_sheet = match m.get(&rel) {
                    Some(v) => {
                        let vc = text::str_to_chars(v.as_str());
                        text::chars_eq(&vc, &sheet)
                    },
                    None => false,
                };
                if is_sheet {
                    match m.get(&href) {
                        Some(h) => {
                            out.push(String::from_str(h.as_str()));
                            assert(out@.map_values(|s: String| s@) =~= before.map_values(
                                |s: String| s@,
                            ).push(h@));
                        },
                        None => {},
                    }
                }
            },
            _ => {},
        }
        i = i + 1;
    }
    assert(links@.take(links@.len() as int) =~= links@);
    out
}

/// What the file-system callback `e` may answer for a normalized path.
pub open spec fn exists_answers<E: Fn(&str) -> bool>(e: E) -> spec_fn(Seq<char>, bool) -> bool {
    |v: Seq<char>, b: bool| exists|t: &str| t@ == v && #[trigger] call_ensures(e, (t,), b)
}

/// `out` is `href` resolved in the page at `page` (`asset_path_resolution`
/// and `asset_path_join`) for an answer `b` the file-system callback gave
/// for the normalized reference.
pub open spec fn resolved_with(
    page: Seq<char>,
    href: Seq<char>,
    out: Seq<char>,
    answers: spec_fn(Seq<char>, bool) -> bool,
    b: bool,
) -> bool {
    &&& answers(attrs::normalized_href(href), b)
    &&& attrs::asset_path_resolution(href, b, out)
    &&& attrs::asset_path_join(page, href, b, out)
}

/// The style sheets `out` are the references `hrefs` resolved in the page
/// at `page`, one by one.
pub open spec fn resolved_stylesheets(
    page: Seq<char>,
    hrefs: Seq<Seq<char>>,
    out: Seq<Seq<char>>,
    answers: spec_fn(Seq<char>, bool) -> bool,
) -> bool {
    &&& out.len() == hrefs.len()
    &&& forall|i: int|
        0 <= i < out.len() ==> resolved_with(page, hrefs[i], #[trigger] out[i], answers, true)
            || resolved_with(page, hrefs[i], out[i], answers, false)
}

/// The `<meta name>` of a document's head: the `name` of the first such
/// element.
pub open spec fn meta_name(t: Seq<char>) -> Option<Seq<char>> {
    first_attr(parsed_selection(t, "head meta[name]"@), "name"@)
}

/// The `<meta controller>` of a document's head.
pub open spec fn meta_controller(t: Seq<char>) -> Option<Seq<char>> {
    first_attr(parsed_selection(t, "head meta[controller]"@), "controller"@)
}

/// The style sheet references of a document's head.
pub open spec fn head_stylesheets(t: Seq<char>) -> Seq<Seq<char>> {
    stylesheet_hrefs(parsed_selection(t, "head link[href]"@))
}

/// The key a document is registered under: the registry's key, else the
/// `<meta name>` of the document.
pub open spec fn ui_key_of(meta: Seq<char>, source_id: Seq<char>) -> Seq<char> {
    if source_id.len() == 0 {
        meta
    } else {
        source_id
    }
}

/// The controller of a document: the source's own, else a non-empty
/// `<meta controller>`.
pub open spec fn effective_controller(own: Option<Seq<char>>, meta: Option<Seq<char>>) -> Option<
    Seq<char>,
> {
    match own {
        Some(c) => Some(c),
        None => match meta {
            Some(m) => if m.len() > 0 {
                Some(m)
            } else {
                None
            },
            None => None,
        },
    }
}

/// The path of a source's file with forward slashes, empty without one.
pub open spec fn page_path(source: HtmlSource) -> Seq<char> {
    match source@.asset_path {
        Some(p) => crate::registry::forward_slashes(p),
        None => Seq::<char>::empty(),
    }
}

// ---------------------------------------------------------------------------
// The document
// ---------------------------------------------------------------------------

/// A loaded document: its key, controller and style sheets, its template
/// after directives were expanded, the binding analysis of the template,
/// and the widget tree of its body.
pub struct ParsedHtmlDocument {
    pub key: String,
    pub controller: Option<String>,
    pub stylesheets: Vec<String>,
    pub template: String,
    pub analysis: HtmlTemplateBindingAnalysis,
    pub body: HtmlWidgetNode,
}

/// The template of a document after its directives were expanded.
pub open spec fn resolved_template(
    content: Seq<char>,
    vars: UiLangVariables,
    shared: UiSharedValues,
    names: Seq<String>,
) -> Seq<char> {
    context::preprocess(
        content,
        vars.vars.entries_spec(),
        shared.values.entries_spec(),
        shared.auto_use_aliases.entries_spec(),
        Seq::new(names.len(), |i: int| names[i]@),
    )
}

/// The binding analysis of a localized template, as
/// `analyze_template_bindings` states it.
pub open spec fn document_analysis(content: Seq<char>, a: HtmlTemplateBindingAnalysis) -> bool {
    &&& tree::primary_text_bindings(tree::parsed_bodies(content), a.text_bindings.entries_spec())
    &&& html::str_set(a.profile.text_roots@) == html::all_roots(
        tree::binding_lists(a.text_bindings.entries_spec()),
    )
    &&& html::str_set(a.profile.unpatchable_roots@) == html::unpatchable(
        tree::text_placeholders(content),
        html::all_bindings(tree::binding_lists(a.text_bindings.entries_spec())),
    )
    &&& a.profile.force_reparse_on_value_change == (json::has_substring(content, "@if"@)
        || json::has_substring(content, "@for"@))
}

/// What building a document whose body is `b` gives, with the pools
/// `before` and `after`: nothing, the pools untouched, when the body holds
/// more elements than every pool has fresh identifiers left; otherwise a
/// document exactly when the body becomes a widget, whose body node is what
/// `parse_html_node` builds for it at path `0` under `key`, with the labels
/// of the body (`labels_in`).
pub open spec fn body_outcome(
    r: Option<ParsedHtmlDocument>,
    b: ChildNode,
    key: Seq<char>,
    page: Seq<char>,
    before: Seq<PoolV>,
    after: Seq<PoolV>,
    sizes: spec_fn(Seq<char>, Option<u64>) -> bool,
) -> bool {
    &&& !pools_have_room(before, node_size(b)) ==> r is None && after == before
    &&& pools_have_room(before, node_size(b)) ==> pools_grown_by(before, after, node_size(b)) && (r
        is Some <==> (b matches ChildNode::Element { name, .. } && supported_tag(name@)))
    &&& r is Some ==> parsed_node(
        r->0.body,
        b,
        key,
        elements::labels_for(labels_in(b)),
        page,
        r->0.analysis.text_bindings.entries_spec(),
        sizes,
        "0"@,
    )
}

/// `body_outcome` for the element that the primary one of the bodies `bs`
/// reads as.
pub open spec fn primary_body_outcome(
    bs: Seq<(RawNode, usize)>,
    r: Option<ParsedHtmlDocument>,
    key: Seq<char>,
    page: Seq<char>,
    before: Seq<PoolV>,
    after: Seq<PoolV>,
    sizes: spec_fn(Seq<char>, Option<u64>) -> bool,
) -> bool {
    exists|b: ChildNode|
        #![trigger body_outcome(r, b, key, page, before, after, sizes)]
        (forall|k: int| is_primary(sizes_of(bs), k) ==> read_as(#[trigger] bs[k].0, b)) && body_outcome(
            r,
            b,
            key,
            page,
            before,
            after,
            sizes,
        )
}

proof fn lemma_primary_body_outcome(
    bs: Seq<(RawNode, usize)>,
    b: ChildNode,
    r: Option<ParsedHtmlDocument>,
    key: Seq<char>,
    page: Seq<char>,
    before: Seq<PoolV>,
    after: Seq<PoolV>,
    sizes: spec_fn(Seq<char>, Option<u64>) -> bool,
)
    requires
        forall|k: int| is_primary(sizes_of(bs), k) ==> read_as(#[trigger] bs[k].0, b),
        body_outcome(r, b, key, page, before, after, sizes),
    ensures
        primary_body_outcome(bs, r, key, page, before, after, sizes),
{
}

/// Builds a document from its expanded `template` and binding `analysis`,
/// from what the parser selected in it: `metas` for `head meta[name]`,
/// `ctrl_metas` for `head meta[controller]`, `links` for `head link[href]`,
/// and the document node of its primary `body`. Without a `name` on the
/// first meta, nothing is loaded and the pools are untouched. Otherwise the
/// key is the source's registry key, else that name; the controller the
/// source's, else a non-empty `controller` of the first controller meta;
/// the style sheets the `href` of each `rel="stylesheet"` link, resolved in
/// the page (`resolved_stylesheets`); and the body is built under the key
/// (`body_outcome`).
pub fn parse_html_document_of<E: Fn(&str) -> bool, M: Fn(&str) -> Option<u64>>(
    template: String,
    analysis: HtmlTemplateBindingAnalysis,
    metas: &Vec<(RawNode, usize)>,
    ctrl_metas: &Vec<(RawNode, usize)>,
    links: &Vec<(RawNode, usize)>,
    body: ChildNode,
    source: &HtmlSource,
    pools: &mut WidgetIdPools,
    absolute_existing: &E,
    max_size: &M,
) -> (r: Option<ParsedHtmlDocument>)
    requires
        old(pools).view_pools().len() == WIDGET_KIND_COUNT,
        callbacks_total(absolute_existing, max_size),
    ensures
        final(pools).view_pools().len() == WIDGET_KIND_COUNT,
        first_attr(metas@, "name"@) is None ==> r is None && final(pools).view_pools() == old(
            pools,
        ).view_pools(),
        r is Some ==> r->0.template@ == template@ && r->0.analysis == analysis,
        r is Some ==> first_attr(metas@, "name"@) is Some && r->0.key@ == ui_key_of(
            first_attr(metas@, "name"@)->0,
            source.source_id@,
        ),
        r is Some ==> components_opt(r->0.controller) == effective_controller(
            source@.controller,
            first_attr(ctrl_metas@, "controller"@),
        ),
        r is Some ==> resolved_stylesheets(
            page_path(*source),
            stylesheet_hrefs(links@),
            r->0.stylesheets@.map_values(|s: String| s@),
            exists_answers(*absolute_existing),
        ),
        first_attr(metas@, "name"@) is Some ==> body_outcome(
            r,
            body,
            ui_key_of(first_attr(metas@, "name"@)->0, source.source_id@),
            page_path(*source),
            old(pools).view_pools(),
            final(pools).view_pools(),
            size_answers(*max_size),
        ),
{
    let ghost p0 = pools.view_pools();
    let meta = match first_attr_exec(metas, "name") {
        Some(m) => m,
        None => {
            return None;
        },
    };
    let key = if source.source_id.unicode_len() == 0 {
        String::from_str(meta.as_str())
    } else {
        String::from_str(source.source_id.as_str())
    };
    let meta_ctrl = first_attr_exec(ctrl_metas, "controller");
    let controller = match &source.controller {
        Some(c) => Some(String::from_str(c.as_str())),
        None => match meta_ctrl {
            Some(m) => if m.unicode_len() > 0 {
                Some(m)
            } else {
                None
            },
            None => None,
        },
    };
    let hrefs = stylesheet_hrefs_exec(links);
    let page = source.get_source_path();
    let ghost answers = exists_answers(*absolute_existing);
    let mut stylesheets: Vec<String> = Vec::new();
    let mut i: usize = 0;
    while i < hrefs.len()
        invariant
            i <= hrefs@.len(),
            stylesheets@.len() == i,
            callbacks_total(absolute_existing, max_size),
            answers == exists_answers(*absolute_existing),
            forall|j: int|
                0 <= j < i ==> resolved_with(page@, hrefs@[j]@, #[trigger] stylesheets@[j]@, answers, true)
                    || resolved_with(page@, hrefs@[j]@, stylesheets@[j]@, answers, false),
        decreases hrefs.len() - i,
    {
        let normalized = attrs::normalize_asset_href(hrefs[i].as_str());
        let existing = absolute_existing(normalized.as_str());
        proof {
            assert(answers(attrs::normalized_href(hrefs@[i as int]@), existing));
        }
        let resolved = attrs::resolve_relative_asset_path(page.as_str(), hrefs[i].as_str(), existing);
        stylesheets.push(resolved);
        proof {
            assert(stylesheets@[i as int]@ == resolved@);
        }
        i = i + 1;
    }
    let mut label_list: Vec<(Option<String>, String)> = Vec::new();
    collect_labels(&body, &mut label_list);
    assert(elements::labels_view(label_list@) =~= labels_in(body));
    let labels = elements::collect_labels_by_for(&label_list);
    let HtmlTemplateBindingAnalysis { text_bindings, profile } = analysis;
    let ctx = SourceContext {
        key: String::from_str(key.as_str()),
        html_path: String::from_str(page.as_str()),
        labels,
        text_bindings,
    };
    let room = pools.room();
    let holder: Vec<ChildNode> = vec![body];
    assert(holder@ =~= seq![body]);
    let fits = match tree::forest_size_exec(&holder) {
        Some(n) => {
            if n > room {
                proof {
                    let w = choose|w: int|
                        0 <= w < WIDGET_KIND_COUNT && #[trigger] p0[w].next + room == usize::MAX;
                    assert(p0[w].next + node_size(body) > usize::MAX);
                }
                false
            } else {
                true
            }
        },
        None => {
            proof {
                assert(p0[0].next + node_size(body) > usize::MAX);
            }
            false
        },
    };
    assert(fits <==> pools_have_room(p0, node_size(body)));
    let built = if fits {
        tree::parse_html_node(&holder[0], &ctx, "0", pools, absolute_existing, max_size)
    } else {
        None
    };
    let SourceContext { text_bindings, .. } = ctx;
    let analysis = HtmlTemplateBindingAnalysis { text_bindings, profile };
    let r = match built {
        Some(node) => Some(
            ParsedHtmlDocument {
                key,
                controller,
                stylesheets,
                template,
                analysis,
                body: node,
            },
        ),
        None => None,
    };
    proof {
        reveal_strlit("0");
    }
    r
}

/// Loads an HTML document from its localized text `content`, registered
/// from `source`. Its template is `content` with directives expanded
/// (`resolved_template`); the binding analysis is that of `content`
/// (`analyze_template_bindings`). In the document the parser builds for
/// the template: without a `<meta name>` in the head, or without a body,
/// nothing is loaded. The key is the source's registry key, else the meta
/// name; the controller the source's, else a non-empty `<meta controller>`;
/// the style sheets the `<link rel="stylesheet" href>` of the head, each
/// resolved in the page (`resolved_stylesheets`); the body is built under
/// the key (`primary_body_outcome`). The rest is `parse_html_document_of`.
pub fn parse_html_document<E: Fn(&str) -> bool, M: Fn(&str) -> Option<u64>>(
    content: &str,
    vars: &UiLangVariables,
    shared: &UiSharedValues,
    local_type_names: &Vec<String>,
    source: &HtmlSource,
    pools: &mut WidgetIdPools,
    absolute_existing: &E,
    max_size: &M,
) -> (r: Option<ParsedHtmlDocument>)
    requires
        old(pools).view_pools().len() == WIDGET_KIND_COUNT,
        callbacks_total(absolute_existing, max_size),
    ensures
        final(pools).view_pools().len() == WIDGET_KIND_COUNT,
        (meta_name(resolved_template(content@, *vars, *shared, local_type_names@)) is None || tree::parsed_bodies(resolved_template(content@, *vars, *shared, local_type_names@)).len() == 0) ==> r is None
            && final(pools).view_pools() == old(pools).view_pools(),
        r is Some ==> r->0.template@ == resolved_template(content@, *vars, *shared, local_type_names@),
        r is Some ==> document_analysis(content@, r->0.analysis),
        r is Some ==> meta_name(resolved_template(content@, *vars, *shared, local_type_names@)) is Some && r->0.key@ == ui_key_of(
            meta_name(resolved_template(content@, *vars, *shared, local_type_names@))->0,
            source.source_id@,
        ),
        r is Some ==> components_opt(r->0.controller) == effective_controller(
            source@.controller,
            meta_controller(resolved_template(content@, *vars, *shared, local_type_names@)),
        ),
        r is Some ==> resolved_stylesheets(
            page_path(*source),
            head_stylesheets(resolved_template(content@, *vars, *shared, local_type_names@)),
            r->0.stylesheets@.map_values(|s: String| s@),
            exists_answers(*absolute_existing),
        ),
        meta_name(resolved_template(content@, *vars, *shared, local_type_names@)) is Some && tree::parsed_bodies(resolved_template(content@, *vars, *shared, local_type_names@)).len() > 0 ==> primary_body_outcome(
            tree::parsed_bodies(resolved_template(content@, *vars, *shared, local_type_names@)),
            r,
            ui_key_of(meta_name(resolved_template(content@, *vars, *shared, local_type_names@))->0, source.source_id@),
            page_path(*source),
            old(pools).view_pools(),
            final(pools).view_pools(),
            size_answers(*max_size),
        ),
{
    let ghost p0 = pools.view_pools();
    let analysis = tree::analyze_template_bindings(content);
    let template = context::preprocess_template_directives_with_shared_and_local_types(
        content,
        vars,
        shared,
        local_type_names,
    );
    let ghost t = template@;
    let metas = tree::read_selection(template.as_str(), "head meta[name]");
    let ctrl_metas = tree::read_selection(template.as_str(), "head meta[controller]");
    let links = tree::read_selection(template.as_str(), "head link[href]");
    let body = match tree::primary_body(template.as_str()) {
        Some(b) => b,
        None => {
            return None;
        },
    };
    let r = parse_html_document_of(
        template,
        analysis,
        &metas,
        &ctrl_metas,
        &links,
        body,
        source,
        pools,
        absolute_existing,
        max_size,
    );
    proof {
        if meta_name(t) is Some {
            let bs = tree::parsed_bodies(t);
            lemma_primary_body_outcome(
                bs,
                body,
                r,
                ui_key_of(meta_name(t)->0, source.source_id@),
                page_path(*source),
                p0,
                pools.view_pools(),
                size_answers(*max_size),
            );
        }
    }
    r
}

} // verus!
