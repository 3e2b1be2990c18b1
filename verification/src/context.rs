//! The values a template sees: language variables, shared values published
//! by the application, their automatic aliases, aliases for the types of a
//! component, and what the template's own `@use` lines import; and the
//! entry points that expand a template with them.
use vstd::prelude::*;
use crate::text;
use crate::json;
use crate::json::{JsonValue, JsonV};
use crate::expr::Ctx;
use crate::render;
use crate::keyed;
use crate::keyed::KeyedMap;
use crate::uses;
use crate::uses::{UseDir, TemplateUseDirective};

verus! {

// ---------------------------------------------------------------------------
// Sources of values
// ---------------------------------------------------------------------------

/// A language variable: its raw text and what JSON parsing made of the
/// trimmed text (`None` when it is not JSON).
pub struct LangValue {
    pub raw: String,
    pub parsed: Option<JsonValue>,
}

impl View for LangValue {
    type V = (Seq<char>, Option<JsonV>);

    open spec fn view(&self) -> (Seq<char>, Option<JsonV>) {
        (
            self.raw@,
            match &self.parsed {
                Some(v) => Some(v@),
                None => None,
            },
        )
    }
}

/// The value a template sees for a language variable: an empty string for
/// blank text, the parsed JSON value when the trimmed text is JSON, the raw
/// text as a string otherwise.
pub open spec fn context_value(raw: Seq<char>, parsed: Option<JsonV>) -> JsonV {
    if text::trim(raw).len() == 0 {
        JsonV::Str(seq![])
    } else {
        match parsed {
            Some(v) => v,
            None => JsonV::Str(raw),
        }
    }
}

/// The template value of a language variable (`context_value`); `parsed` is
/// the JSON reading of `raw.trim()`, `None` when that text is not JSON.
pub fn parse_template_context_value(raw: &str, parsed: Option<JsonValue>) -> (r: JsonValue)
    ensures
        r@ == context_value(
            raw@,
            match parsed {
                Some(v) => Some(v@),
                None => None,
            },
        ),
{
    let rc = text::str_to_chars(raw);
    let t = text::trim_chars(&rc);
    if t.len() == 0 {
        let e = String::new();
        assert(e@ =~= Seq::<char>::empty());
        return JsonValue::String(e);
    }
    match parsed {
        Some(v) => v,
        None => JsonValue::String(text::chars_to_string(&rc)),
    }
}

/// Language variables by name.
pub struct UiLangVariables {
    pub vars: KeyedMap<LangValue>,
}

impl UiLangVariables {
    /// No variables.
    pub fn new() -> (r: Self)
        ensures
            r.vars.entries_spec() == Seq::<(Seq<char>, (Seq<char>, Option<JsonV>))>::empty(),
    {
        UiLangVariables { vars: KeyedMap::new() }
    }

    /// Sets variable `key` to the text `raw`; `parsed` is the JSON reading
    /// of `raw.trim()` (`None` when it is not JSON).
    pub fn set(&mut self, key: &str, raw: &str, parsed: Option<JsonValue>)
        ensures
            final(self).vars.entries_spec() == keyed::sorted_insert(
                old(self).vars.entries_spec(),
                key@,
                (
                    raw@,
                    match parsed {
                        Some(v) => Some(v@),
                        None => None,
                    },
                ),
            ),
    {
        let value = LangValue { raw: String::from_str(raw), parsed };
        self.vars.insert(key, value);
    }
}

impl Default for UiLangVariables {
    fn default() -> (r: Self)
        ensures
            r.vars.entries_spec() == Seq::<(Seq<char>, (Seq<char>, Option<JsonV>))>::empty(),
    {
        Self::new()
    }
}

/// Values the application shares with templates, by registered type path;
/// aliases under which some of them are imported automatically; and the
/// type paths the application knows of.
pub struct UiSharedValues {
    pub values: KeyedMap<JsonValue>,
    pub auto_use_aliases: KeyedMap<String>,
    pub known_types: Vec<String>,
}

impl UiSharedValues {
    /// Nothing shared.
    pub fn new() -> (r: Self)
        ensures
            r.values.entries_spec() == Seq::<(Seq<char>, JsonV)>::empty(),
            r.auto_use_aliases.entries_spec() == Seq::<(Seq<char>, Seq<char>)>::empty(),
            r.known_types@ == Seq::<String>::empty(),
    {
        UiSharedValues {
            values: KeyedMap::new(),
            auto_use_aliases: KeyedMap::new(),
            known_types: Vec::new(),
        }
    }
}

impl Default for UiSharedValues {
    fn default() -> (r: Self)
        ensures
            r.values.entries_spec() == Seq::<(Seq<char>, JsonV)>::empty(),
            r.auto_use_aliases.entries_spec() == Seq::<(Seq<char>, Seq<char>)>::empty(),
            r.known_types@ == Seq::<String>::empty(),
    {
        Self::new()
    }
}

// ---------------------------------------------------------------------------
// Specifications
// ---------------------------------------------------------------------------

/// Index of the first registered path at or after `i` matching `target`
/// (`uses::shared_paths_match`).
pub open spec fn first_path_match(vals: Seq<(Seq<char>, JsonV)>, target: Seq<char>, i: int) -> Option<
    int,
>
    decreases vals.len() - i,
{
    if i < 0 || i >= vals.len() {
        None
    } else if uses::shared_paths_match(vals[i].0, target) {
        Some(i)
    } else {
        first_path_match(vals, target, i + 1)
    }
}

/// The shared value a target names, with the path it is registered under:
/// the exact path; else, for a target holding `::`, the first matching path
/// in key order; else the value registered under the target's simple type
/// name.
pub open spec fn resolve_target(vals: Seq<(Seq<char>, JsonV)>, target: Seq<char>) -> Option<
    (Seq<char>, JsonV),
> {
    match keyed::key_index(vals, target) {
        Some(i) => Some((target, vals[i].1)),
        None => if uses::last_sep(target) is Some && first_path_match(vals, target, 0) is Some {
            let i = first_path_match(vals, target, 0)->0;
            Some((vals[i].0, vals[i].1))
        } else {
            let simple = uses::simple_type_name(target);
            match keyed::key_index(vals, simple) {
                Some(i) => Some((simple, vals[i].1)),
                None => None,
            }
        },
    }
}

/// `k` is bound in `ctx`.
pub open spec fn bound(ctx: Ctx, k: Seq<char>) -> bool {
    json::find_key(ctx, k) is Some
}

/// `ctx` with `k` bound to `v` unless `k` is bound already.
pub open spec fn insert_absent(ctx: Ctx, k: Seq<char>, v: JsonV) -> Ctx {
    if bound(ctx, k) {
        ctx
    } else {
        render::ctx_insert(ctx, k, v)
    }
}

/// Every entry of `e` bound, in order, where not bound already.
pub open spec fn insert_absent_all(ctx: Ctx, e: Seq<(Seq<char>, JsonV)>) -> Ctx
    decreases e.len(),
{
    if e.len() == 0 {
        ctx
    } else {
        insert_absent(insert_absent_all(ctx, e.drop_last()), e.last().0, e.last().1)
    }
}

/// The context of the language variables, bound in key order.
pub open spec fn vars_ctx(vars: Seq<(Seq<char>, (Seq<char>, Option<JsonV>))>) -> Ctx
    decreases vars.len(),
{
    if vars.len() == 0 {
        seq![]
    } else {
        render::ctx_insert(
            vars_ctx(vars.drop_last()),
            vars.last().0,
            context_value(vars.last().1.0, vars.last().1.1),
        )
    }
}

/// One automatic alias: the value registered under `target` is bound to
/// `alias` unless that name is taken, and the members of an object value
/// are bound by their own names where those are free.
pub open spec fn auto_step(
    ctx: Ctx,
    vals: Seq<(Seq<char>, JsonV)>,
    alias: Seq<char>,
    target: Seq<char>,
) -> Ctx {
    match keyed::key_value(vals, target) {
        Some(v) => {
            let c = insert_absent(ctx, alias, v);
            match v {
                JsonV::Obj(fields) => insert_absent_all(c, fields),
                _ => c,
            }
        },
        None => ctx,
    }
}

/// The automatic aliases, applied in alias order.
pub open spec fn auto_ctx(
    ctx: Ctx,
    vals: Seq<(Seq<char>, JsonV)>,
    auto: Seq<(Seq<char>, Seq<char>)>,
) -> Ctx
    decreases auto.len(),
{
    if auto.len() == 0 {
        ctx
    } else {
        auto_step(auto_ctx(ctx, vals, auto.drop_last()), vals, auto.last().0, auto.last().1)
    }
}

/// The component's type aliases, applied in alias order: each binds the
/// value its type resolves to, unless the alias is taken.
pub open spec fn local_ctx(
    ctx: Ctx,
    vals: Seq<(Seq<char>, JsonV)>,
    local: Seq<(Seq<char>, Seq<char>)>,
) -> Ctx
    decreases local.len(),
{
    if local.len() == 0 {
        ctx
    } else {
        let c = local_ctx(ctx, vals, local.drop_last());
        match resolve_target(vals, local.last().1) {
            Some(r) => insert_absent(c, local.last().0, r.1),
            None => c,
        }
    }
}

/// The aliases a component's types get: for each type name (its simple
/// name, trimmed) that resolves to a shared value, its default alias, the
/// first type to claim an alias keeping it; kept in alias order.
pub open spec fn local_aliases(vals: Seq<(Seq<char>, JsonV)>, names: Seq<Seq<char>>) -> Seq<
    (Seq<char>, Seq<char>),
>
    decreases names.len(),
{
    if names.len() == 0 {
        seq![]
    } else {
        let acc = local_aliases(vals, names.drop_last());
        let t = text::trim(uses::simple_type_name(names.last()));
        if t.len() == 0 || resolve_target(vals, t) is None {
            acc
        } else if keyed::key_index(acc, uses::default_use_alias(t)) is Some {
            acc
        } else {
            keyed::sorted_insert(acc, uses::default_use_alias(t), t)
        }
    }
}

/// A path wildcard `module::*`: every value registered in that module, in
/// key order, bound to its default alias where that name is free.
pub open spec fn wildcard_ctx(ctx: Ctx, vals: Seq<(Seq<char>, JsonV)>, target: Seq<char>) -> Ctx {
    match uses::wildcard_use_prefix(target) {
        None => ctx,
        Some(prefix) => wildcard_from(ctx, vals, prefix, vals.len() as int),
    }
}

/// `wildcard_ctx` over the first `n` registered values.
pub open spec fn wildcard_from(
    ctx: Ctx,
    vals: Seq<(Seq<char>, JsonV)>,
    prefix: Seq<char>,
    n: int,
) -> Ctx
    decreases n,
{
    if n <= 0 || n > vals.len() {
        ctx
    } else {
        let c = wildcard_from(ctx, vals, prefix, n - 1);
        if uses::shared_path_prefix_matches(vals[n - 1].0, prefix) {
            insert_absent(c, uses::default_use_alias(vals[n - 1].0), vals[n - 1].1)
        } else {
            c
        }
    }
}

/// The alias is already bound to the same target by `aliases`.
pub open spec fn redundant(
    aliases: Seq<(Seq<char>, Seq<char>)>,
    alias: Seq<char>,
    resolved: Seq<char>,
) -> bool {
    match keyed::key_value(aliases, alias) {
        Some(t) => uses::shared_targets_match(t, resolved),
        None => false,
    }
}

/// One `@use` directive: a path wildcard imports its module; an unresolved
/// target does nothing; `as *` binds the members of an object value where
/// their names are free; otherwise the value is bound to the alias
/// (replacing what was there), unless an automatic or component alias of
/// that name already names the same target.
pub open spec fn directive_step(
    ctx: Ctx,
    vals: Seq<(Seq<char>, JsonV)>,
    auto: Seq<(Seq<char>, Seq<char>)>,
    local: Seq<(Seq<char>, Seq<char>)>,
    d: UseDir,
) -> Ctx {
    if d.path_wildcard {
        wildcard_ctx(ctx, vals, d.target)
    } else {
        match resolve_target(vals, d.target) {
            None => ctx,
            Some(r) => if d.wildcard {
                match r.1 {
                    JsonV::Obj(fields) => insert_absent_all(ctx, fields),
                    _ => ctx,
                }
            } else if redundant(auto, d.alias, r.0) || redundant(local, d.alias, r.0) {
                ctx
            } else {
                render::ctx_insert(ctx, d.alias, r.1)
            },
        }
    }
}

/// The directives, applied in order.
pub open spec fn directives_ctx(
    ctx: Ctx,
    vals: Seq<(Seq<char>, JsonV)>,
    auto: Seq<(Seq<char>, Seq<char>)>,
    local: Seq<(Seq<char>, Seq<char>)>,
    dirs: Seq<UseDir>,
) -> Ctx
    decreases dirs.len(),
{
    if dirs.len() == 0 {
        ctx
    } else {
        directive_step(
            directives_ctx(ctx, vals, auto, local, dirs.drop_last()),
            vals,
            auto,
            local,
            dirs.last(),
        )
    }
}

/// The template context: language variables, then automatic aliases, then
/// component aliases, then the template's `@use` directives.
pub open spec fn context_of(
    vars: Seq<(Seq<char>, (Seq<char>, Option<JsonV>))>,
    vals: Seq<(Seq<char>, JsonV)>,
    auto: Seq<(Seq<char>, Seq<char>)>,
    dirs: Seq<UseDir>,
    local: Seq<(Seq<char>, Seq<char>)>,
) -> Ctx {
    directives_ctx(
        local_ctx(auto_ctx(vars_ctx(vars), vals, auto), vals, local),
        vals,
        auto,
        local,
        dirs,
    )
}

/// A template expanded with language variables, shared values and the
/// types of its component: `@use` lines are taken out, the context is built
/// from them, and the rest is rendered.
pub open spec fn preprocess(
    template: Seq<char>,
    vars: Seq<(Seq<char>, (Seq<char>, Option<JsonV>))>,
    vals: Seq<(Seq<char>, JsonV)>,
    auto: Seq<(Seq<char>, Seq<char>)>,
    local_names: Seq<Seq<char>>,
) -> Seq<char> {
    let (dirs, cleaned) = uses::extract_uses(template);
    render::render(
        cleaned,
        context_of(vars, vals, auto, dirs, local_aliases(vals, local_names)),
        0,
    )
}


// ---------------------------------------------------------------------------
// Implementations
// ---------------------------------------------------------------------------

/// The characters of a registered key.
fn key_chars<V: View>(m: &KeyedMap<V>, i: usize) -> (r: Vec<char>)
    requires
        i < m.entries_spec().len(),
    ensures
        r@ == m.entries_spec()[i as int].0,
{
    text::str_to_chars(m.key_at(i).as_str())
}

/// Index of the first registered path at or after `i` matching `target`
/// (`first_path_match`).
fn first_path_match_exec(vals: &KeyedMap<JsonValue>, target: &Vec<char>) -> (r: Option<usize>)
    ensures
        r is Some <==> first_path_match(vals.entries_spec(), target@, 0) is Some,
        r is Some ==> first_path_match(vals.entries_spec(), target@, 0) == Some(r->0 as int)
            && r->0 < vals.entries_spec().len(),
{
    let ghost es = vals.entries_spec();
    let mut i: usize = 0;
    let n = vals.len();
    while i < n
        invariant
            i <= n,
            n == es.len(),
            es == vals.entries_spec(),
            first_path_match(es, target@, 0) == first_path_match(es, target@, i as int),
        decreases n - i,
    {
        let k = key_chars(vals, i);
        if uses::shared_paths_match_exec(&k, target) {
            return Some(i);
        }
        i = i + 1;
    }
    None
}

/// The shared value a target names and its registered path
/// (`resolve_target`).
pub fn resolve_shared_use_target(shared: &UiSharedValues, target: &Vec<char>) -> (r: Option<
    (Vec<char>, JsonValue),
>)
    ensures
        r is Some <==> resolve_target(shared.values.entries_spec(), target@) is Some,
        r is Some ==> resolve_target(shared.values.entries_spec(), target@) == Some(
            (r.unwrap().0@, r.unwrap().1@),
        ),
{
    let vals = &shared.values;
    let ghost es = vals.entries_spec();
    proof {
        keyed::lemma_key_index_from(es, target@, 0);
    }
    match vals.find(target) {
        Some(i) => {
            let v = json::json_clone(vals.value_at(i));
            return Some((target.clone(), v));
        },
        None => {},
    }
    if uses::last_sep_exec(target).is_some() {
        match first_path_match_exec(vals, target) {
            Some(i) => {
                let k = key_chars(vals, i);
                let v = json::json_clone(vals.value_at(i));
                return Some((k, v));
            },
            None => {},
        }
    }
    let simple = uses::simple_type_name_exec(target);
    proof {
        keyed::lemma_key_index_from(es, simple@, 0);
    }
    match vals.find(&simple) {
        Some(i) => {
            let v = json::json_clone(vals.value_at(i));
            Some((simple, v))
        },
        None => None,
    }
}

/// The aliases a component's types get (`local_aliases`).
pub fn build_local_use_aliases(shared: &UiSharedValues, local_type_names: &Vec<String>) -> (r:
    KeyedMap<String>)
    ensures
        r.entries_spec() == local_aliases(
            shared.values.entries_spec(),
            Seq::new(local_type_names@.len(), |i: int| local_type_names@[i]@),
        ),
{
    let ghost names = Seq::new(local_type_names@.len(), |i: int| local_type_names@[i]@);
    let ghost vals = shared.values.entries_spec();
    let mut aliases: KeyedMap<String> = KeyedMap::new();
    let mut i: usize = 0;
    while i < local_type_names.len()
        invariant
            i <= local_type_names.len(),
            names == Seq::new(local_type_names@.len(), |i: int| local_type_names@[i]@),
            vals == shared.values.entries_spec(),
            aliases.entries_spec() == local_aliases(vals, names.take(i as int)),
        decreases local_type_names.len() - i,
    {
        assert(names.take(i + 1).drop_last() =~= names.take(i as int));
        assert(names.take(i + 1).last() == local_type_names@[i as int]@);
        let raw = text::str_to_chars(local_type_names[i].as_str());
        let simple = uses::simple_type_name_exec(&raw);
        let t = text::trim_chars(&simple);
        if t.len() != 0 && resolve_shared_use_target(shared, &t).is_some() {
            let alias = uses::default_use_alias_exec(&t);
            proof {
                keyed::lemma_key_index_from(aliases.entries_spec(), alias@, 0);
            }
            if aliases.find(&alias).is_none() {
                let alias_s = text::chars_to_string(&alias);
                aliases.insert(alias_s.as_str(), text::chars_to_string(&t));
            }
        }
        i = i + 1;
    }
    assert(names.take(local_type_names.len() as int) =~= names);
    aliases
}

/// Whether `k` is bound in `ctx` (`bound`).
fn bound_exec(ctx: &Vec<(String, JsonValue)>, k: &Vec<char>) -> (r: bool)
    ensures
        r == bound(json::entries_view(ctx@), k@),
{
    json::find_key_exec(ctx, k).is_some()
}

/// Binds `k` to `v` unless `k` is bound (`insert_absent`).
fn insert_absent_exec(ctx: &mut Vec<(String, JsonValue)>, k: &Vec<char>, v: JsonValue)
    ensures
        json::entries_view(final(ctx)@) == insert_absent(json::entries_view(old(ctx)@), k@, v@),
{
    if !bound_exec(ctx, k) {
        render::ctx_insert_exec(ctx, k, v);
    }
}

/// Binds the entries of `e` where free (`insert_absent_all`).
fn insert_absent_all_exec(ctx: &mut Vec<(String, JsonValue)>, e: &Vec<(String, JsonValue)>)
    ensures
        json::entries_view(final(ctx)@) == insert_absent_all(
            json::entries_view(old(ctx)@),
            json::entries_view(e@),
        ),
{
    let ghost c0 = json::entries_view(ctx@);
    let ghost ev = json::entries_view(e@);
    let mut i: usize = 0;
    while i < e.len()
        invariant
            i <= e.len(),
            ev == json::entries_view(e@),
            json::entries_view(ctx@) == insert_absent_all(c0, ev.take(i as int)),
        decreases e.len() - i,
    {
        assert(ev.take(i + 1).drop_last() =~= ev.take(i as int));
        assert(ev.take(i + 1).last() == (e@[i as int].0@, e@[i as int].1@));
        let k = text::str_to_chars(e[i].0.as_str());
        let v = json::json_clone(&e[i].1);
        insert_absent_exec(ctx, &k, v);
        i = i + 1;
    }
    assert(ev.take(e.len() as int) =~= ev);
}

/// The members of an object, if `v` is one.
fn object_fields(v: &JsonValue) -> (r: Option<&Vec<(String, JsonValue)>>)
    ensures
        match v@ {
            JsonV::Obj(f) => r is Some && json::entries_view(r->0@) == f,
            _ => r is None,
        },
{
    match v {
        JsonValue::Object(f) => {
            assert(json::entries_view(f@) =~= match v@ {
                JsonV::Obj(g) => g,
                _ => Seq::empty(),
            });
            Some(f)
        },
        _ => None,
    }
}

/// Whether `aliases` already binds `alias` to the same target
/// (`redundant`).
fn redundant_exec(aliases: &KeyedMap<String>, alias: &Vec<char>, resolved: &Vec<char>) -> (r: bool)
    ensures
        r == redundant(aliases.entries_spec(), alias@, resolved@),
{
    match aliases.get(alias) {
        Some(t) => {
            let tc = text::str_to_chars(t.as_str());
            uses::shared_targets_match_exec(&tc, resolved)
        },
        None => false,
    }
}

/// Imports a path wildcard (`wildcard_ctx`).
fn import_shared_path_wildcard(
    ctx: &mut Vec<(String, JsonValue)>,
    shared: &UiSharedValues,
    target: &Vec<char>,
)
    ensures
        json::entries_view(final(ctx)@) == wildcard_ctx(
            json::entries_view(old(ctx)@),
            shared.values.entries_spec(),
            target@,
        ),
{
    let prefix = match uses::wildcard_use_prefix_exec(target) {
        None => return ,
        Some(p) => p,
    };
    let vals = &shared.values;
    let ghost es = vals.entries_spec();
    let ghost c0 = json::entries_view(ctx@);
    let n = vals.len();
    let mut i: usize = 0;
    while i < n
        invariant
            i <= n,
            n == es.len(),
            es == vals.entries_spec(),
            json::entries_view(ctx@) == wildcard_from(c0, es, prefix@, i as int),
        decreases n - i,
    {
        let k = key_chars(vals, i);
        if uses::shared_path_prefix_matches_exec(&k, &prefix) {
            let alias = uses::default_use_alias_exec(&k);
            let v = json::json_clone(vals.value_at(i));
            insert_absent_exec(ctx, &alias, v);
        }
        i = i + 1;
    }
}

/// The values a template is rendered with, by name: a name bound twice
/// keeps its latest value.
pub struct TemplateValueContext {
    pub values: Vec<(String, JsonValue)>,
}

impl TemplateValueContext {
    /// The context of language variables, shared values, `@use` directives
    /// and component aliases (`context_of`).
    pub fn from_sources(
        vars: &UiLangVariables,
        shared: &UiSharedValues,
        use_directives: &Vec<TemplateUseDirective>,
        local_use_aliases: &KeyedMap<String>,
    ) -> (r: Self)
        ensures
            json::entries_view(r.values@) == context_of(
                vars.vars.entries_spec(),
                shared.values.entries_spec(),
                shared.auto_use_aliases.entries_spec(),
                uses::dirs_view(use_directives@),
                local_use_aliases.entries_spec(),
            ),
    {
        let ghost vv = vars.vars.entries_spec();
        let ghost vals = shared.values.entries_spec();
        let ghost auto = shared.auto_use_aliases.entries_spec();
        let ghost local = local_use_aliases.entries_spec();
        let ghost dirs = uses::dirs_view(use_directives@);
        let mut values: Vec<(String, JsonValue)> = Vec::new();
        // language variables
        let nv = vars.vars.len();
        let mut i: usize = 0;
        assert(json::entries_view(values@) =~= vars_ctx(vv.take(0)));
        while i < nv
            invariant
                i <= nv,
                nv == vv.len(),
                vv == vars.vars.entries_spec(),
                json::entries_view(values@) == vars_ctx(vv.take(i as int)),
            decreases nv - i,
        {
            assert(vv.take(i + 1).drop_last() =~= vv.take(i as int));
            let k = key_chars(&vars.vars, i);
            let lv = vars.vars.value_at(i);
            let parsed = match &lv.parsed {
                Some(p) => Some(json::json_clone(p)),
                None => None,
            };
            let v = parse_template_context_value(lv.raw.as_str(), parsed);
            render::ctx_insert_exec(&mut values, &k, v);
            i = i + 1;
        }
        assert(vv.take(nv as int) =~= vv);
        // automatic aliases
        let ghost c1 = json::entries_view(values@);
        let na = shared.auto_use_aliases.len();
        let mut i: usize = 0;
        while i < na
            invariant
                i <= na,
                na == auto.len(),
                auto == shared.auto_use_aliases.entries_spec(),
                vals == shared.values.entries_spec(),
                json::entries_view(values@) == auto_ctx(c1, vals, auto.take(i as int)),
            decreases na - i,
        {
            assert(auto.take(i + 1).drop_last() =~= auto.take(i as int));
            let alias = key_chars(&shared.auto_use_aliases, i);
            let target = text::str_to_chars(shared.auto_use_aliases.value_at(i).as_str());
            match shared.values.get(&target) {
                Some(v) => {
                    let vc = json::json_clone(v);
                    insert_absent_exec(&mut values, &alias, vc);
                    match object_fields(v) {
                        Some(fields) => insert_absent_all_exec(&mut values, fields),
                        None => {},
                    }
                },
                None => {},
            }
            i = i + 1;
        }
        assert(auto.take(na as int) =~= auto);
        // component aliases
        let ghost c2 = json::entries_view(values@);
        let nl = local_use_aliases.len();
        let mut i: usize = 0;
        while i < nl
            invariant
                i <= nl,
                nl == local.len(),
                local == local_use_aliases.entries_spec(),
                vals == shared.values.entries_spec(),
                json::entries_view(values@) == local_ctx(c2, vals, local.take(i as int)),
            decreases nl - i,
        {
            assert(local.take(i + 1).drop_last() =~= local.take(i as int));
            let alias = key_chars(local_use_aliases, i);
            let target = text::str_to_chars(local_use_aliases.value_at(i).as_str());
            match resolve_shared_use_target(shared, &target) {
                Some((_resolved, v)) => insert_absent_exec(&mut values, &alias, v),
                None => {},
            }
            i = i + 1;
        }
        assert(local.take(nl as int) =~= local);
        // `@use` directives
        let ghost c3 = json::entries_view(values@);
        let mut i: usize = 0;
        while i < use_directives.len()
            invariant
                i <= use_directives.len(),
                dirs == uses::dirs_view(use_directives@),
                auto == shared.auto_use_aliases.entries_spec(),
                local == local_use_aliases.entries_spec(),
                vals == shared.values.entries_spec(),
                json::entries_view(values@) == directives_ctx(
                    c3,
                    vals,
                    auto,
                    local,
                    dirs.take(i as int),
                ),
            decreases use_directives.len() - i,
        {
            assert(dirs.take(i + 1).drop_last() =~= dirs.take(i as int));
            assert(dirs.take(i + 1).last() == use_directives@[i as int]@);
            let d = &use_directives[i];
            let target = text::str_to_chars(d.target.as_str());
            if d.path_wildcard {
                import_shared_path_wildcard(&mut values, shared, &target);
            } else {
                match resolve_shared_use_target(shared, &target) {
                    None => {},
                    Some((resolved, v)) => {
                        if d.wildcard {
                            match object_fields(&v) {
                                Some(fields) => insert_absent_all_exec(&mut values, fields),
                                None => {},
                            }
                        } else {
                            let alias = text::str_to_chars(d.alias.as_str());
                            if !(redundant_exec(&shared.auto_use_aliases, &alias, &resolved)
                                || redundant_exec(local_use_aliases, &alias, &resolved)) {
                                render::ctx_insert_exec(&mut values, &alias, v);
                            }
                        }
                    },
                }
            }
            i = i + 1;
        }
        assert(dirs.take(use_directives.len() as int) =~= dirs);
        TemplateValueContext { values }
    }
}

/// Expands a template with language variables, shared values and the type
/// names of its component (`preprocess`).
pub fn preprocess_template_directives_with_shared_and_local_types(
    template: &str,
    vars: &UiLangVariables,
    shared: &UiSharedValues,
    local_type_names: &Vec<String>,
) -> (r: String)
    ensures
        r@ == preprocess(
            template@,
            vars.vars.entries_spec(),
            shared.values.entries_spec(),
            shared.auto_use_aliases.entries_spec(),
            Seq::new(local_type_names@.len(), |i: int| local_type_names@[i]@),
        ),
{
    let tc = text::str_to_chars(template);
    let (use_directives, cleaned) = uses::extract_template_use_directives(&tc);
    let local_use_aliases = build_local_use_aliases(shared, local_type_names);
    let context = TemplateValueContext::from_sources(
        vars,
        shared,
        &use_directives,
        &local_use_aliases,
    );
    let out = render::render_template_with_context(&cleaned, &context.values, 0);
    text::chars_to_string(&out)
}

/// Expands a template with language variables and shared values
/// (`preprocess` with no component types).
pub fn preprocess_template_directives_with_shared(
    template: &str,
    vars: &UiLangVariables,
    shared: &UiSharedValues,
) -> (r: String)
    ensures
        r@ == preprocess(
            template@,
            vars.vars.entries_spec(),
            shared.values.entries_spec(),
            shared.auto_use_aliases.entries_spec(),
            seq![],
        ),
{
    let names: Vec<String> = Vec::new();
    assert(Seq::new(names@.len(), |i: int| names@[i]@) =~= Seq::<Seq<char>>::empty());
    preprocess_template_directives_with_shared_and_local_types(template, vars, shared, &names)
}

/// Expands a template with language variables only (`preprocess` with
/// nothing shared).
pub fn preprocess_template_directives(template: &str, vars: &UiLangVariables) -> (r: String)
    ensures
        r@ == preprocess(template@, vars.vars.entries_spec(), seq![], seq![], seq![]),
{
    let shared = UiSharedValues::default();
    preprocess_template_directives_with_shared(template, vars, &shared)
}


// ---------------------------------------------------------------------------
// Laws
// ---------------------------------------------------------------------------

/// No `{{`, `@if`, `@for` or `@use` anywhere in `s`.
pub open spec fn plain_template(s: Seq<char>) -> bool {
    &&& render::directive_free(s)
    &&& forall|i: int| 0 <= i < s.len() ==> !#[trigger] render::has_at(s, i, uses::use_word())
}

proof fn lemma_plain_scan(s: Seq<char>, p: int)
    requires
        plain_template(s),
        0 <= p <= s.len(),
    ensures
        uses::scan_uses(s, p) == (Seq::<(Seq<char>, Option<Seq<char>>)>::empty(), s.skip(p)),
    decreases s.len() - p,
{
    if p < s.len() {
        let a = uses::sp_end(s, p);
        crate::expr::lemma_run_end_bounds(s, p, uses::sp_fn());
        assert(!render::has_at(s, a, uses::use_word())) by {
            if 0 <= a < s.len() {
                assert(!render::has_at(s, a, uses::use_word()));
            }
        }
        assert(uses::use_match_at(s, p) is None);
        lemma_plain_scan(s, p + 1);
        assert(seq![s[p]] + s.skip(p + 1) =~= s.skip(p));
    } else {
        assert(s.skip(p) =~= Seq::<char>::empty());
    }
}

/// A template without `{{`, `@if`, `@for` and `@use` (no placeholders,
/// directives or `@use` lines) is expanded to itself, whatever the
/// variables and shared values.
pub proof fn law_plain_template_unchanged(
    template: Seq<char>,
    vars: Seq<(Seq<char>, (Seq<char>, Option<JsonV>))>,
    vals: Seq<(Seq<char>, JsonV)>,
    auto: Seq<(Seq<char>, Seq<char>)>,
    local_names: Seq<Seq<char>>,
)
    requires
        plain_template(template),
    ensures
        preprocess(template, vars, vals, auto, local_names) == template,
{
    lemma_plain_scan(template, 0);
    assert(template.skip(0) =~= template);
    let ctx = context_of(
        vars,
        vals,
        auto,
        uses::extract_uses(template).0,
        local_aliases(vals, local_names),
    );
    render::law_plain_text_renders_unchanged(template, ctx);
}

} // verus!
