//! Template rendering: `{{ expr }}` placeholders, `@if (..) { .. } @else { .. }`
//! and `@for (item, index in list) { .. }` directives, expanded before the
//! HTML is parsed.
use vstd::prelude::*;
use crate::text;
use crate::json;
use crate::expr;
use crate::json::{JsonNumber, JsonValue, JsonV, NumV};
use crate::expr::Ctx;

verus! {

/// Directives nest at most this deep; deeper blocks are left as written.
pub const TEMPLATE_MAX_RECURSION: usize = 64;

/// Unicode alphanumeric property of a character (`char::is_alphanumeric`).
pub uninterp spec fn char_alphanumeric(c: char) -> bool;

/// `char::is_alphanumeric`: whether `c` has the Unicode `Alphabetic` or
/// `Numeric` property. The contract names the result; it states nothing more.
#[verifier::external_body]
pub(crate) fn is_alphanumeric_char(c: char) -> (r: bool)
    ensures
        r == char_alphanumeric(c),
{
    c.is_alphanumeric()
}

// ---------------------------------------------------------------------------
// Context updates
// ---------------------------------------------------------------------------

/// `ctx` with `name` bound to `v` (replacing an earlier binding).
pub open spec fn ctx_insert(ctx: Ctx, name: Seq<char>, v: JsonV) -> Ctx {
    match json::find_key(ctx, name) {
        Some(i) => ctx.update(i, (name, v)),
        None => ctx.push((name, v)),
    }
}

/// Binds `name` to `v` in an executable context (`HashMap::insert`).
pub fn ctx_insert_exec(ctx: &mut Vec<(String, JsonValue)>, name: &Vec<char>, v: JsonValue)
    ensures
        json::entries_view(final(ctx)@) == ctx_insert(json::entries_view(old(ctx)@), name@, v@),
{
    let ghost old_view = json::entries_view(ctx@);
    let ghost vv = v@;
    let key = text::chars_to_string(name);
    match json::find_key_exec(ctx, name) {
        Some(i) => {
            ctx.set(i, (key, v));
            assert(json::entries_view(ctx@) =~= old_view.update(i as int, (name@, vv)));
        },
        None => {
            ctx.push((key, v));
            assert(json::entries_view(ctx@) =~= old_view.push((name@, vv)));
        },
    }
}

/// The context of one loop iteration: the item bound to `item_name` and, when
/// named, the index bound to `index_name`.
pub open spec fn with_iteration(
    ctx: Ctx,
    item_name: Seq<char>,
    item: JsonV,
    index_name: Option<Seq<char>>,
    index: int,
) -> Ctx {
    let c = ctx_insert(ctx, item_name, item);
    match index_name {
        Some(n) => ctx_insert(c, n, JsonV::Num(NumV::Int(index))),
        None => c,
    }
}

/// The items a `@for` loop walks: array elements, or object member values in
/// entry order; nothing for other values.
pub open spec fn iterable_items(v: JsonV) -> Seq<JsonV> {
    match v {
        JsonV::Arr(items) => items,
        JsonV::Obj(entries) => Seq::new(entries.len(), |i: int| entries[i].1),
        _ => Seq::empty(),
    }
}

// ---------------------------------------------------------------------------
// Scanning specifications
// ---------------------------------------------------------------------------

/// `text::is_ws` as a function value.
pub open spec fn is_ws_fn() -> spec_fn(char) -> bool {
    |c: char| text::is_ws(c)
}

/// Index after the whitespace starting at `p`.
pub open spec fn skip_ws(s: Seq<char>, p: int) -> int {
    expr::run_end(s, p, is_ws_fn())
}

/// `s[p..]` starts with `w`.
pub open spec fn has_at(s: Seq<char>, p: int, w: Seq<char>) -> bool {
    0 <= p && p + w.len() <= s.len() && s.subrange(p, p + w.len()) == w
}

/// A directive keyword at `p`: the keyword, not followed by an alphanumeric
/// character or `_`.
pub open spec fn is_directive(s: Seq<char>, p: int, kw: Seq<char>) -> bool {
    has_at(s, p, kw) && !(p + kw.len() < s.len() && (char_alphanumeric(s[p + kw.len()]) || s[p
        + kw.len()] == '_'))
}

/// Index of the delimiter closing a group whose body is scanned from `j`,
/// with `depth` groups open; quoted strings (with backslash escapes) are
/// skipped.
pub open spec fn group_end(
    s: Seq<char>,
    j: int,
    open: char,
    close: char,
    depth: nat,
    quote: Option<char>,
    escaped: bool,
) -> Option<int>
    decreases s.len() - j,
{
    if j < 0 || j >= s.len() {
        None
    } else {
        let ch = s[j];
        match quote {
            Some(q) => if escaped {
                group_end(s, j + 1, open, close, depth, quote, false)
            } else if ch == '\\' {
                group_end(s, j + 1, open, close, depth, quote, true)
            } else if ch == q {
                group_end(s, j + 1, open, close, depth, None, false)
            } else {
                group_end(s, j + 1, open, close, depth, quote, false)
            },
            None => if ch == '"' || ch == '\'' {
                group_end(s, j + 1, open, close, depth, Some(ch), false)
            } else if ch == open {
                group_end(s, j + 1, open, close, depth + 1, None, false)
            } else if ch == close {
                if depth <= 1 {
                    Some(j)
                } else {
                    group_end(s, j + 1, open, close, (depth - 1) as nat, None, false)
                }
            } else {
                group_end(s, j + 1, open, close, depth, None, false)
            },
        }
    }
}

/// The body of the group opened by `open` at `p` and the index after its
/// closing delimiter.
pub open spec fn group(s: Seq<char>, p: int, open: char, close: char) -> Option<(Seq<char>, int)> {
    if 0 <= p < s.len() && s[p] == open {
        match group_end(s, p + 1, open, close, 1, None, false) {
            Some(e) => Some((s.subrange(p + 1, e), e + 1)),
            None => None,
        }
    } else {
        None
    }
}

/// Index of the first `}}` at or after `j`, or `s.len()`.
pub open spec fn find_close(s: Seq<char>, j: int) -> int
    decreases s.len() - j,
{
    if j < 0 || j >= s.len() {
        s.len() as int
    } else if has_at(s, j, seq!['}', '}']) {
        j
    } else {
        find_close(s, j + 1)
    }
}

/// Text of an evaluated expression, or `raw` when it does not evaluate to a
/// scalar.
pub open spec fn eval_text(e: Seq<char>, ctx: Ctx, raw: Seq<char>) -> Seq<char> {
    match expr::evaluate(e, ctx) {
        Some(v) => match json::scalar_text(v) {
            Some(t) => t,
            None => raw,
        },
        None => raw,
    }
}

/// The rendering of the `{{ .. }}` placeholder at `p` and the index after it.
pub open spec fn moustache(s: Seq<char>, p: int, ctx: Ctx) -> (Seq<char>, int) {
    let q = find_close(s, p + 2);
    if q >= s.len() {
        (s.subrange(p, s.len() as int), s.len() as int)
    } else {
        let raw = s.subrange(p, q + 2);
        let e = text::trim(s.subrange(p + 2, q));
        (if e.len() == 0 {
            raw
        } else {
            eval_text(e, ctx, raw)
        }, q + 2)
    }
}

// ---------------------------------------------------------------------------
// Inline `{{ .. }}` bindings
// ---------------------------------------------------------------------------

/// Neither `{` nor `}`.
pub open spec fn not_brace(c: char) -> bool {
    c != '{' && c != '}'
}

/// A binding `{{ x }}` starting at `p` (brace-free, non-empty body): the
/// index of its closing `}}`.
pub open spec fn binding_at(s: Seq<char>, p: int) -> Option<int> {
    if has_at(s, p, seq!['{', '{']) {
        let e = expr::run_end(s, p + 2, |c: char| not_brace(c));
        if e > p + 2 && has_at(s, e, seq!['}', '}']) {
            Some(e)
        } else {
            None
        }
    } else {
        None
    }
}

/// The leftmost binding at or after `p`: its start and the index of its `}}`.
pub open spec fn find_binding(s: Seq<char>, p: int) -> Option<(int, int)>
    decreases s.len() - p,
{
    if p < 0 || p + 1 >= s.len() {
        None
    } else {
        match binding_at(s, p) {
            Some(e) => Some((p, e)),
            None => find_binding(s, p + 1),
        }
    }
}

/// `s[p..]` with every binding replaced by the text of its expression (kept
/// as written when it does not evaluate to a scalar).
pub open spec fn interpolate_from(s: Seq<char>, p: int, ctx: Ctx) -> Seq<char>
    decreases s.len() - p,
{
    if p < 0 || p > s.len() {
        Seq::empty()
    } else {
        match find_binding(s, p) {
            None => s.subrange(p, s.len() as int),
            Some((b, e)) => if p <= b && b + 2 < e && e + 2 <= s.len() {
                s.subrange(p, b) + eval_text(text::trim(s.subrange(b + 2, e)), ctx, s.subrange(b, e + 2))
                    + interpolate_from(s, e + 2, ctx)
            } else {
                Seq::empty()
            },
        }
    }
}

/// Every binding of `s` from `p`, as written, in order.
pub open spec fn bindings_from(s: Seq<char>, p: int) -> Seq<Seq<char>>
    decreases s.len() - p,
{
    if p < 0 || p > s.len() {
        Seq::empty()
    } else {
        match find_binding(s, p) {
            None => Seq::empty(),
            Some((b, e)) => if p <= b && b + 2 < e && e + 2 <= s.len() {
                seq![s.subrange(b, e + 2)] + bindings_from(s, e + 2)
            } else {
                Seq::empty()
            },
        }
    }
}

/// `s` without repeated elements, each kept at its first occurrence.
pub open spec fn unique_in_order(s: Seq<Seq<char>>) -> Seq<Seq<char>>
    decreases s.len(),
{
    if s.len() == 0 {
        Seq::empty()
    } else {
        let r = unique_in_order(s.drop_last());
        if r.contains(s.last()) {
            r
        } else {
            r.push(s.last())
        }
    }
}

// ---------------------------------------------------------------------------
// `@for` headers
// ---------------------------------------------------------------------------

/// A character that can start an identifier: an ASCII letter or `_`.
pub open spec fn ident_start(c: char) -> bool {
    text::is_ascii_alpha(c) || c == '_'
}

/// `expr::is_ident_char` as a function value.
pub open spec fn ident_fn() -> spec_fn(char) -> bool {
    |c: char| expr::is_ident_char(c)
}

/// `item in list` / `item, index in list` after the loop variables end at
/// `p`: the iterable expression, which must follow whitespace, `in` and
/// whitespace, be non-empty and hold no line break.
pub open spec fn for_in_tail(h: Seq<char>, p: int) -> Option<Seq<char>> {
    let a = skip_ws(h, p);
    let b = skip_ws(h, a + 2);
    if a > p && has_at(h, a, seq!['i', 'n']) && b > a + 2 && b < h.len() && !h.subrange(
        b,
        h.len() as int,
    ).contains('\n') {
        Some(text::trim(h.subrange(b, h.len() as int)))
    } else {
        None
    }
}

/// The loop variable, optional index variable and iterable expression of a
/// `@for` header (`item in list` or `item, index in list`).
pub open spec fn for_header(header: Seq<char>) -> Option<(Seq<char>, Option<Seq<char>>, Seq<char>)> {
    let h = text::trim(header);
    let s0 = skip_ws(h, 0);
    if s0 < h.len() && ident_start(h[s0]) {
        let e1 = expr::run_end(h, s0 + 1, ident_fn());
        let item = h.subrange(s0, e1);
        let c = skip_ws(h, e1);
        if c < h.len() && h[c] == ',' {
            let s2 = skip_ws(h, c + 1);
            if s2 < h.len() && ident_start(h[s2]) {
                let e2 = expr::run_end(h, s2 + 1, ident_fn());
                match for_in_tail(h, e2) {
                    Some(x) => Some((item, Some(h.subrange(s2, e2)), x)),
                    None => None,
                }
            } else {
                None
            }
        } else {
            match for_in_tail(h, e1) {
                Some(x) => Some((item, None, x)),
                None => None,
            }
        }
    } else {
        None
    }
}

// ---------------------------------------------------------------------------
// Rendering specification
// ---------------------------------------------------------------------------

/// `tpl` rendered in `ctx` at nesting depth `depth`.
pub open spec fn render(tpl: Seq<char>, ctx: Ctx, depth: int) -> Seq<char>
    decreases 65 - depth, tpl.len() + 2, 0int,
{
    if depth > 64 || depth < 0 {
        tpl
    } else {
        segment(tpl, 0, ctx, depth)
    }
}

/// Rendering of `tpl[pos..]`.
pub open spec fn segment(tpl: Seq<char>, pos: int, ctx: Ctx, depth: int) -> Seq<char>
    decreases 65 - depth, tpl.len() - pos + 1, 1int,
{
    if depth > 64 || depth < 0 || pos < 0 || pos >= tpl.len() {
        Seq::empty()
    } else if has_at(tpl, pos, seq!['{', '{']) {
        let m = moustache(tpl, pos, ctx);
        if pos < m.1 {
            m.0 + segment(tpl, m.1, ctx, depth)
        } else {
            Seq::empty()
        }
    } else if is_directive(tpl, pos, "@if"@) && if_directive(tpl, pos, ctx, depth + 1) is Some {
        let r = if_directive(tpl, pos, ctx, depth + 1)->0;
        if pos < r.1 <= tpl.len() {
            r.0 + segment(tpl, r.1, ctx, depth)
        } else {
            Seq::empty()
        }
    } else if is_directive(tpl, pos, "@for"@) && for_directive(tpl, pos, ctx, depth + 1) is Some {
        let r = for_directive(tpl, pos, ctx, depth + 1)->0;
        if pos < r.1 <= tpl.len() {
            r.0 + segment(tpl, r.1, ctx, depth)
        } else {
            Seq::empty()
        }
    } else {
        seq![tpl[pos]] + segment(tpl, pos + 1, ctx, depth)
    }
}

/// Truthiness of a condition; `false` when it does not evaluate.
pub open spec fn condition(e: Seq<char>, ctx: Ctx) -> bool {
    match expr::evaluate(e, ctx) {
        Some(v) => json::truthy(v),
        None => false,
    }
}

/// `@if (cond) { then } [@else { else }]` at `pos`: its rendering and the
/// index after it (whitespace after the `then` block is consumed).
pub open spec fn if_directive(tpl: Seq<char>, pos: int, ctx: Ctx, depth: int) -> Option<
    (Seq<char>, int),
>
    decreases 66 - depth, 1int, 0int,
{
    if depth > 65 || depth < 1 || pos < 0 || pos + 3 > tpl.len() {
        None
    } else {
        match group(tpl, skip_ws(tpl, pos + 3), '(', ')') {
            None => None,
            Some((cond, p2)) => match group(tpl, skip_ws(tpl, p2), '{', '}') {
                None => None,
                Some((then_src, p4)) => {
                    let p5 = skip_ws(tpl, p4);
                    if is_directive(tpl, p5, "@else"@) {
                        match group(tpl, skip_ws(tpl, p5 + 5), '{', '}') {
                            None => None,
                            Some((else_src, p8)) => Some(
                                (
                                    render(
                                        if condition(cond, ctx) {
                                            then_src
                                        } else {
                                            else_src
                                        },
                                        ctx,
                                        depth,
                                    ),
                                    p8,
                                ),
                            ),
                        }
                    } else {
                        Some(
                            (
                                render(
                                    if condition(cond, ctx) {
                                        then_src
                                    } else {
                                        Seq::empty()
                                    },
                                    ctx,
                                    depth,
                                ),
                                p5,
                            ),
                        )
                    }
                },
            },
        }
    }
}

/// `@for (header) { block }` at `pos`: its rendering and the index after it.
pub open spec fn for_directive(tpl: Seq<char>, pos: int, ctx: Ctx, depth: int) -> Option<
    (Seq<char>, int),
>
    decreases 66 - depth, 1int, 0int,
{
    if depth > 65 || depth < 1 || pos < 0 || pos + 4 > tpl.len() {
        None
    } else {
        match group(tpl, skip_ws(tpl, pos + 4), '(', ')') {
            None => None,
            Some((header, p2)) => match group(tpl, skip_ws(tpl, p2), '{', '}') {
                None => None,
                Some((block, p4)) => match for_header(header) {
                    None => None,
                    Some((item, index_name, iter)) => match expr::evaluate(iter, ctx) {
                        None => Some((Seq::empty(), p4)),
                        Some(v) => Some(
                            (
                                for_items(
                                    iterable_items(v),
                                    0,
                                    block,
                                    ctx,
                                    item,
                                    index_name,
                                    depth,
                                ),
                                p4,
                            ),
                        ),
                    },
                },
            },
        }
    }
}

/// Renderings of `block` for `items[k..]`, each followed by interpolation of
/// its remaining bindings.
pub open spec fn for_items(
    items: Seq<JsonV>,
    k: int,
    block: Seq<char>,
    ctx: Ctx,
    item: Seq<char>,
    index_name: Option<Seq<char>>,
    depth: int,
) -> Seq<char>
    decreases 66 - depth, 0int, items.len() - k,
{
    if depth > 65 || depth < 1 || k < 0 || k >= items.len() {
        Seq::empty()
    } else {
        let c = with_iteration(ctx, item, items[k], index_name, k);
        interpolate_from(render(block, c, depth), 0, c) + for_items(
            items,
            k + 1,
            block,
            ctx,
            item,
            index_name,
            depth,
        )
    }
}


// ---------------------------------------------------------------------------
// Scanning implementation
// ---------------------------------------------------------------------------

/// Index after the whitespace at `p` (`skip_ws`).
pub fn skip_ws_exec(s: &Vec<char>, p: usize) -> (r: usize)
    requires
        p <= s.len(),
    ensures
        r as int == skip_ws(s@, p as int),
        p <= r <= s.len(),
{
    let mut e = p;
    while e < s.len() && text::is_ws_char(s[e])
        invariant
            p <= e <= s.len(),
            forall|k: int| p <= k < e ==> text::is_ws(#[trigger] s@[k]),
        decreases s.len() - e,
    {
        e = e + 1;
    }
    proof {
        expr::lemma_run_end(s@, p as int, e as int, is_ws_fn());
    }
    e
}

/// Whether `s[p..]` starts with `w` (`has_at`).
pub fn has_at_str(s: &Vec<char>, p: usize, w: &str) -> (r: bool)
    requires
        p <= s.len(),
    ensures
        r == has_at(s@, p as int, w@),
{
    let wc = text::str_to_chars(w);
    text::has_at(s, p, &wc)
}

/// Whether the keyword `kw` starts a directive at `p` (`is_directive`).
pub fn is_template_directive(s: &Vec<char>, p: usize, kw: &str) -> (r: bool)
    requires
        p <= s.len(),
    ensures
        r == is_directive(s@, p as int, kw@),
{
    if !has_at_str(s, p, kw) {
        return false;
    }
    let n = kw.unicode_len();
    if p + n < s.len() {
        let c = s[p + n];
        !(is_alphanumeric_char(c) || c == '_')
    } else {
        true
    }
}

/// The group opened at `p` (`group`).
pub fn extract_group_content(s: &Vec<char>, p: usize, open: char, close: char) -> (r: Option<(Vec<char>, usize)>)
    requires
        p <= s.len(),
    ensures
        match group(s@, p as int, open, close) {
            Some((b, e)) => r is Some && r.unwrap().0@ == b && r.unwrap().1 as int == e,
            None => r is None,
        },
        r is Some ==> p < r.unwrap().1 <= s.len(),
{
    if p >= s.len() || s[p] != open {
        return None;
    }
    let mut j = p + 1;
    let mut depth: usize = 1;
    let mut quote: Option<char> = None;
    let mut escaped = false;
    while j < s.len()
        invariant
            p < j <= s.len(),
            s@[p as int] == open,
            1 <= depth <= j - p,
            quote is None ==> !escaped,
            group_end(s@, p + 1, open, close, 1, None, false) == group_end(
                s@,
                j as int,
                open,
                close,
                depth as nat,
                quote,
                escaped,
            ),
        decreases s.len() - j,
    {
        let ch = s[j];
        match quote {
            Some(q) => {
                if escaped {
                    escaped = false;
                } else if ch == '\\' {
                    escaped = true;
                } else if ch == q {
                    quote = None;
                }
            },
            None => {
                if ch == '"' || ch == '\'' {
                    quote = Some(ch);
                } else if ch == open {
                    depth = depth + 1;
                } else if ch == close {
                    if depth <= 1 {
                        let body = text::slice_chars(s, p + 1, j);
                        return Some((body, j + 1));
                    }
                    depth = depth - 1;
                }
            },
        }
        j = j + 1;
    }
    None
}

/// Index of the first `}}` at or after `j` (`find_close`).
fn find_close_exec(s: &Vec<char>, j: usize) -> (r: usize)
    requires
        j <= s.len(),
    ensures
        r as int == find_close(s@, j as int),
        j <= r <= s.len(),
{
    let mut q = j;
    while q < s.len()
        invariant
            j <= q <= s.len(),
            find_close(s@, j as int) == find_close(s@, q as int),
        decreases s.len() - q,
    {
        if has_at_str(s, q, "}}") {
            proof {
                reveal_strlit("}}");
                assert("}}"@ =~= seq!['}', '}']);
            }
            return q;
        }
        proof {
            reveal_strlit("}}");
            assert("}}"@ =~= seq!['}', '}']);
        }
        q = q + 1;
    }
    q
}

/// Text of an evaluated expression, or `raw` (`eval_text`).
fn eval_text_exec(e: &Vec<char>, ctx: &Vec<(String, JsonValue)>, raw: Vec<char>) -> (r: Vec<char>)
    ensures
        r@ == eval_text(e@, json::entries_view(ctx@), raw@),
{
    match expr::evaluate_expression(e, ctx) {
        Some(v) => match json::value_to_inline_string(&v) {
            Some(t) => t,
            None => raw,
        },
        None => raw,
    }
}

/// The placeholder at `p` (`moustache`).
fn render_moustache(s: &Vec<char>, p: usize, ctx: &Vec<(String, JsonValue)>) -> (r: (Vec<char>, usize))
    requires
        p + 2 <= s.len(),
    ensures
        r.0@ == moustache(s@, p as int, json::entries_view(ctx@)).0,
        r.1 as int == moustache(s@, p as int, json::entries_view(ctx@)).1,
        p < r.1 <= s.len(),
{
    let q = find_close_exec(s, p + 2);
    if q >= s.len() {
        (text::slice_chars(s, p, s.len()), s.len())
    } else {
        proof {
            lemma_find_close_at(s@, p + 2);
        }
        assert(q + 2 <= s.len()) by {
            assert(has_at(s@, q as int, seq!['}', '}']));
        }
        let raw = text::slice_chars(s, p, q + 2);
        let inner = text::slice_chars(s, p + 2, q);
        let e = text::trim_chars(&inner);
        if e.len() == 0 {
            (raw, q + 2)
        } else {
            (eval_text_exec(&e, ctx, raw), q + 2)
        }
    }
}

proof fn lemma_find_close_at(s: Seq<char>, j: int)
    requires
        0 <= j <= s.len(),
    ensures
        j <= find_close(s, j) <= s.len(),
        find_close(s, j) < s.len() ==> has_at(s, find_close(s, j), seq!['}', '}']),
    decreases s.len() - j,
{
    if j < s.len() && !has_at(s, j, seq!['}', '}']) {
        lemma_find_close_at(s, j + 1);
    }
}

// ---------------------------------------------------------------------------
// Bindings implementation
// ---------------------------------------------------------------------------

fn binding_at_exec(s: &Vec<char>, p: usize) -> (r: Option<usize>)
    requires
        p <= s.len(),
    ensures
        match binding_at(s@, p as int) {
            Some(e) => r is Some && r.unwrap() as int == e,
            None => r is None,
        },
        r is Some ==> p + 2 < r.unwrap() && r.unwrap() + 2 <= s.len(),
{
    if !has_at_str(s, p, "{{") {
        proof {
            reveal_strlit("{{");
            assert("{{"@ =~= seq!['{', '{']);
        }
        return None;
    }
    proof {
        reveal_strlit("{{");
        assert("{{"@ =~= seq!['{', '{']);
    }
    let mut e = p + 2;
    while e < s.len() && s[e] != '{' && s[e] != '}'
        invariant
            p + 2 <= e <= s.len(),
            forall|k: int| p + 2 <= k < e ==> not_brace(#[trigger] s@[k]),
        decreases s.len() - e,
    {
        e = e + 1;
    }
    proof {
        expr::lemma_run_end(s@, p + 2, e as int, |c: char| not_brace(c));
    }
    let closes = has_at_str(s, e, "}}");
    proof {
        reveal_strlit("}}");
        assert("}}"@ =~= seq!['}', '}']);
    }
    if e > p + 2 && closes {
        Some(e)
    } else {
        None
    }
}

fn find_binding_exec(s: &Vec<char>, p: usize) -> (r: Option<(usize, usize)>)
    requires
        p <= s.len(),
    ensures
        match find_binding(s@, p as int) {
            Some((b, e)) => r is Some && r.unwrap().0 as int == b && r.unwrap().1 as int == e,
            None => r is None,
        },
        r is Some ==> p <= r.unwrap().0 && r.unwrap().0 + 2 < r.unwrap().1 && r.unwrap().1 + 2
            <= s.len(),
{
    if s.len() == 0 {
        return None;
    }
    let mut q = p;
    while q < s.len() - 1
        invariant
            s.len() > 0,
            p <= q <= s.len(),
            find_binding(s@, p as int) == find_binding(s@, q as int),
        decreases s.len() - q,
    {
        match binding_at_exec(s, q) {
            Some(e) => {
                return Some((q, e));
            },
            None => {},
        }
        q = q + 1;
    }
    None
}

/// `s` with every binding replaced by the text of its expression
/// (`interpolate_from`).
pub fn interpolate_inline_placeholders(s: &Vec<char>, ctx: &Vec<(String, JsonValue)>) -> (r: Vec<char>)
    ensures
        r@ == interpolate_from(s@, 0, json::entries_view(ctx@)),
{
    let ghost cv = json::entries_view(ctx@);
    let mut out: Vec<char> = Vec::new();
    let mut p: usize = 0;
    loop
        invariant
            p <= s.len(),
            cv == json::entries_view(ctx@),
            interpolate_from(s@, 0, cv) == out@ + interpolate_from(s@, p as int, cv),
        decreases s.len() - p,
    {
        match find_binding_exec(s, p) {
            None => {
                let rest = text::slice_chars(s, p, s.len());
                text::append_chars(&mut out, &rest);
                return out;
            },
            Some((b, e)) => {
                let before = text::slice_chars(s, p, b);
                let raw = text::slice_chars(s, b, e + 2);
                let inner = text::slice_chars(s, b + 2, e);
                let ex = text::trim_chars(&inner);
                let rep = eval_text_exec(&ex, ctx, raw);
                let ghost o0 = out@;
                text::append_chars(&mut out, &before);
                text::append_chars(&mut out, &rep);
                assert(o0 + (before@ + rep@ + interpolate_from(s@, e + 2, cv)) =~= out@
                    + interpolate_from(s@, e + 2, cv));
                p = e + 2;
            },
        }
    }
}

/// Every binding of `s`, as written, in order (`bindings_from`).
fn bindings_exec(s: &Vec<char>) -> (r: Vec<Vec<char>>)
    ensures
        r@.map_values(|v: Vec<char>| v@) == bindings_from(s@, 0),
{
    let mut out: Vec<Vec<char>> = Vec::new();
    let mut p: usize = 0;
    loop
        invariant
            p <= s.len(),
            bindings_from(s@, 0) == out@.map_values(|v: Vec<char>| v@) + bindings_from(
                s@,
                p as int,
            ),
        decreases s.len() - p,
    {
        match find_binding_exec(s, p) {
            None => {
                assert(out@.map_values(|v: Vec<char>| v@) + Seq::<Seq<char>>::empty()
                    =~= out@.map_values(|v: Vec<char>| v@));
                return out;
            },
            Some((b, e)) => {
                let m = text::slice_chars(s, b, e + 2);
                let ghost o0 = out@.map_values(|v: Vec<char>| v@);
                let ghost mv = m@;
                out.push(m);
                assert(out@.map_values(|v: Vec<char>| v@) =~= o0.push(mv));
                assert(o0 + (seq![mv] + bindings_from(s@, e + 2)) =~= o0.push(mv)
                    + bindings_from(s@, e + 2));
                p = e + 2;
            },
        }
    }
}

/// Extracts the distinct `{{ .. }}` placeholders of `content`, each as written
/// and in order of first appearance.
pub fn extract_inner_bindings(content: &str) -> (r: Vec<String>)
    ensures
        r@.map_values(|v: String| v@) == unique_in_order(bindings_from(content@, 0)),
{
    let s = text::str_to_chars(content);
    let all = bindings_exec(&s);
    let ghost allv = all@.map_values(|v: Vec<char>| v@);
    let mut out: Vec<String> = Vec::new();
    let mut seen: Vec<Vec<char>> = Vec::new();
    let mut i: usize = 0;
    while i < all.len()
        invariant
            i <= all.len(),
            allv == all@.map_values(|v: Vec<char>| v@),
            seen@.map_values(|v: Vec<char>| v@) == unique_in_order(allv.take(i as int)),
            out@.map_values(|v: String| v@) == unique_in_order(allv.take(i as int)),
        decreases all.len() - i,
    {
        let cand = &all[i];
        let ghost u = unique_in_order(allv.take(i as int));
        assert(allv.take(i + 1).drop_last() =~= allv.take(i as int));
        assert(allv.take(i + 1).last() == cand@);
        let mut found = false;
        let mut k: usize = 0;
        while k < seen.len()
            invariant
                k <= seen.len(),
                seen@.map_values(|v: Vec<char>| v@) == u,
                found == (exists|x: int| 0 <= x < k && u[x] == cand@),
            decreases seen.len() - k,
        {
            assert(u[k as int] == seen@[k as int]@);
            if text::chars_eq(&seen[k], cand) {
                found = true;
            }
            k = k + 1;
        }
        if !found {
            let ghost sv = seen@.map_values(|v: Vec<char>| v@);
            let ghost ov = out@.map_values(|v: String| v@);
            seen.push(cand.clone());
            out.push(text::chars_to_string(cand));
            assert(!u.contains(cand@));
            assert(seen@.map_values(|v: Vec<char>| v@) =~= sv.push(cand@));
            assert(out@.map_values(|v: String| v@) =~= ov.push(cand@));
        } else {
            assert(u.contains(cand@));
        }
        i = i + 1;
    }
    assert(allv.take(all.len() as int) =~= allv);
    out
}


// ---------------------------------------------------------------------------
// `@for` header implementation
// ---------------------------------------------------------------------------

pub(crate) fn ident_run_end(s: &Vec<char>, start: usize) -> (e: usize)
    requires
        start <= s.len(),
    ensures
        e as int == expr::run_end(s@, start as int, ident_fn()),
        start <= e <= s.len(),
{
    let mut e = start;
    while e < s.len() && (('a' <= s[e] && s[e] <= 'z') || ('A' <= s[e] && s[e] <= 'Z') || ('0'
        <= s[e] && s[e] <= '9') || s[e] == '_')
        invariant
            start <= e <= s.len(),
            forall|k: int| start <= k < e ==> expr::is_ident_char(#[trigger] s@[k]),
        decreases s.len() - e,
    {
        e = e + 1;
    }
    proof {
        expr::lemma_run_end(s@, start as int, e as int, ident_fn());
    }
    e
}

fn for_in_tail_exec(h: &Vec<char>, p: usize) -> (r: Option<Vec<char>>)
    requires
        p <= h.len(),
    ensures
        match for_in_tail(h@, p as int) {
            Some(x) => r is Some && r.unwrap()@ == x,
            None => r is None,
        },
{
    let a = skip_ws_exec(h, p);
    let has_in = has_at_str(h, a, "in");
    proof {
        reveal_strlit("in");
        assert("in"@ =~= seq!['i', 'n']);
    }
    if !(a > p && has_in) {
        return None;
    }
    let b = skip_ws_exec(h, a + 2);
    if !(b > a + 2 && b < h.len()) {
        return None;
    }
    let rest = text::slice_chars(h, b, h.len());
    let mut k: usize = 0;
    while k < rest.len()
        invariant
            k <= rest.len(),
            rest@ == h@.subrange(b as int, h.len() as int),
            a > p && has_at(h@, a as int, seq!['i', 'n']),
            b > a + 2 && b < h.len(),
            a as int == skip_ws(h@, p as int),
            b as int == skip_ws(h@, a + 2),
            forall|x: int| 0 <= x < k ==> rest@[x] != '\n',
        decreases rest.len() - k,
    {
        if rest[k] == '\n' {
            assert(rest@.contains('\n'));
            return None;
        }
        k = k + 1;
    }
    assert(!rest@.contains('\n'));
    Some(text::trim_chars(&rest))
}

/// Loop variables and iterable of a `@for` header (`for_header`).
pub fn parse_for_header(header: &Vec<char>) -> (r: Option<(Vec<char>, Option<Vec<char>>, Vec<char>)>)
    ensures
        match for_header(header@) {
            Some((a, b, c)) => r is Some && r.unwrap().0@ == a && r.unwrap().2@ == c && match b {
                Some(x) => r.unwrap().1 is Some && r.unwrap().1.unwrap()@ == x,
                None => r.unwrap().1 is None,
            },
            None => r is None,
        },
{
    let h = text::trim_chars(header);
    let s0 = skip_ws_exec(&h, 0);
    if !(s0 < h.len() && (('a' <= h[s0] && h[s0] <= 'z') || ('A' <= h[s0] && h[s0] <= 'Z')
        || h[s0] == '_')) {
        return None;
    }
    let e1 = ident_run_end(&h, s0 + 1);
    let item = text::slice_chars(&h, s0, e1);
    let c = skip_ws_exec(&h, e1);
    if c < h.len() && h[c] == ',' {
        let s2 = skip_ws_exec(&h, c + 1);
        if s2 < h.len() && (('a' <= h[s2] && h[s2] <= 'z') || ('A' <= h[s2] && h[s2] <= 'Z')
            || h[s2] == '_') {
            let e2 = ident_run_end(&h, s2 + 1);
            match for_in_tail_exec(&h, e2) {
                Some(x) => Some((item, Some(text::slice_chars(&h, s2, e2)), x)),
                None => None,
            }
        } else {
            None
        }
    } else {
        match for_in_tail_exec(&h, e1) {
            Some(x) => Some((item, None, x)),
            None => None,
        }
    }
}

// ---------------------------------------------------------------------------
// Context implementation
// ---------------------------------------------------------------------------

/// A copy of a context with the same view.
pub fn ctx_clone(ctx: &Vec<(String, JsonValue)>) -> (r: Vec<(String, JsonValue)>)
    ensures
        json::entries_view(r@) == json::entries_view(ctx@),
{
    let mut out: Vec<(String, JsonValue)> = Vec::new();
    let mut i: usize = 0;
    while i < ctx.len()
        invariant
            i <= ctx.len(),
            out.len() == i,
            forall|k: int| 0 <= k < i ==> out@[k].0@ == ctx@[k].0@ && out@[k].1@ == ctx@[k].1@,
        decreases ctx.len() - i,
    {
        out.push((ctx[i].0.clone(), json::json_clone(&ctx[i].1)));
        i = i + 1;
    }
    assert(json::entries_view(out@) =~= json::entries_view(ctx@));
    out
}

/// The context of one loop iteration (`with_iteration`).
pub fn with_iteration_exec(
    ctx: &Vec<(String, JsonValue)>,
    item_name: &Vec<char>,
    item: JsonValue,
    index_name: &Option<Vec<char>>,
    index: usize,
) -> (r: Vec<(String, JsonValue)>)
    ensures
        json::entries_view(r@) == with_iteration(
            json::entries_view(ctx@),
            item_name@,
            item@,
            match index_name {
                Some(n) => Some(n@),
                None => None,
            },
            index as int,
        ),
{
    let mut c = ctx_clone(ctx);
    ctx_insert_exec(&mut c, item_name, item);
    match index_name {
        Some(n) => {
            ctx_insert_exec(&mut c, n, JsonValue::Number(JsonNumber::Int(index as i128)));
        },
        None => {},
    }
    c
}

/// The values a `@for` loop walks (`iterable_items`).
pub fn iterable_items_exec(v: JsonValue) -> (r: Vec<JsonValue>)
    ensures
        json::values_view(r@) == iterable_items(v@),
{
    let ghost vv = v@;
    match v {
        JsonValue::Array(items) => {
            assert(json::values_view(items@) =~= vv->Arr_0);
            items
        },
        JsonValue::Object(entries) => {
            let mut out: Vec<JsonValue> = Vec::new();
            let mut i: usize = 0;
            while i < entries.len()
                invariant
                    i <= entries.len(),
                    out.len() == i,
                    forall|k: int| 0 <= k < i ==> out@[k]@ == entries@[k].1@,
                decreases entries.len() - i,
            {
                out.push(json::json_clone(&entries[i].1));
                i = i + 1;
            }
            assert(json::values_view(out@) =~= iterable_items(vv));
            out
        },
        _ => {
            let out: Vec<JsonValue> = Vec::new();
            assert(json::values_view(out@) =~= Seq::<JsonV>::empty());
            out
        },
    }
}

// ---------------------------------------------------------------------------
// Rendering implementation
// ---------------------------------------------------------------------------

/// `tpl` rendered in `ctx` at nesting depth `depth` (`render`).
pub fn render_template_with_context(tpl: &Vec<char>, ctx: &Vec<(String, JsonValue)>, depth: usize) -> (r: Vec<char>)
    ensures
        r@ == render(tpl@, json::entries_view(ctx@), depth as int),
    decreases 65 - depth, tpl.len() + 2, 0int,
{
    if depth > TEMPLATE_MAX_RECURSION {
        return tpl.clone();
    }
    render_template_segment(tpl, ctx, depth)
}

#[verifier::loop_isolation(false)]
fn render_template_segment(tpl: &Vec<char>, ctx: &Vec<(String, JsonValue)>, depth: usize) -> (r: Vec<char>)
    requires
        depth <= 64,
    ensures
        r@ == segment(tpl@, 0, json::entries_view(ctx@), depth as int),
    decreases 65 - depth, tpl.len() + 1, 1int,
{
    let ghost cv = json::entries_view(ctx@);
    let mut out: Vec<char> = Vec::new();
    let mut pos: usize = 0;
    proof {
        reveal_strlit("{{");
        reveal_strlit("@if");
        reveal_strlit("@for");
        assert("{{"@ =~= seq!['{', '{']);
    }
    while pos < tpl.len()
        invariant
            pos <= tpl.len(),
            segment(tpl@, 0, cv, depth as int) == out@ + segment(tpl@, pos as int, cv, depth as int),
        decreases tpl.len() - pos,
    {
        let ghost o0 = out@;
        if has_at_str(tpl, pos, "{{") {
            let (m, np) = render_moustache(tpl, pos, ctx);
            text::append_chars(&mut out, &m);
            assert(o0 + (m@ + segment(tpl@, np as int, cv, depth as int)) =~= out@ + segment(
                tpl@,
                np as int,
                cv,
                depth as int,
            ));
            pos = np;
        } else {
            let mut done = false;
            if is_template_directive(tpl, pos, "@if") {
                match parse_if_directive(tpl, pos, ctx, depth + 1) {
                    Some((o, np)) => {
                        text::append_chars(&mut out, &o);
                        assert(o0 + (o@ + segment(tpl@, np as int, cv, depth as int)) =~= out@
                            + segment(tpl@, np as int, cv, depth as int));
                        pos = np;
                        done = true;
                    },
                    None => {},
                }
            }
            if !done && is_template_directive(tpl, pos, "@for") {
                match parse_for_directive(tpl, pos, ctx, depth + 1) {
                    Some((o, np)) => {
                        text::append_chars(&mut out, &o);
                        assert(o0 + (o@ + segment(tpl@, np as int, cv, depth as int)) =~= out@
                            + segment(tpl@, np as int, cv, depth as int));
                        pos = np;
                        done = true;
                    },
                    None => {},
                }
            }
            if !done {
                let ghost c = tpl@[pos as int];
                out.push(tpl[pos]);
                assert(o0 + (seq![c] + segment(tpl@, pos + 1, cv, depth as int)) =~= out@
                    + segment(tpl@, pos + 1, cv, depth as int));
                pos = pos + 1;
            }
        }
    }
    assert(out@ + Seq::<char>::empty() =~= out@);
    out
}

fn condition_exec(e: &Vec<char>, ctx: &Vec<(String, JsonValue)>) -> (r: bool)
    ensures
        r == condition(e@, json::entries_view(ctx@)),
{
    match expr::evaluate_expression(e, ctx) {
        Some(v) => json::value_truthy(&v),
        None => false,
    }
}

/// The `@if` directive at `pos` (`if_directive`).
fn parse_if_directive(tpl: &Vec<char>, pos: usize, ctx: &Vec<(String, JsonValue)>, depth: usize) -> (r: Option<
    (Vec<char>, usize),
>)
    requires
        pos + 3 <= tpl.len(),
        1 <= depth <= 65,
    ensures
        match if_directive(tpl@, pos as int, json::entries_view(ctx@), depth as int) {
            Some((o, e)) => r is Some && r.unwrap().0@ == o && r.unwrap().1 as int == e,
            None => r is None,
        },
        r is Some ==> pos < r.unwrap().1 <= tpl.len(),
    decreases 66 - depth, 1int, 0int,
{
    let p1 = skip_ws_exec(tpl, pos + 3);
    let (cond, p2) = match extract_group_content(tpl, p1, '(', ')') {
        None => return None,
        Some(x) => x,
    };
    let p3 = skip_ws_exec(tpl, p2);
    let (then_src, p4) = match extract_group_content(tpl, p3, '{', '}') {
        None => return None,
        Some(x) => x,
    };
    let p5 = skip_ws_exec(tpl, p4);
    let c = condition_exec(&cond, ctx);
    if is_template_directive(tpl, p5, "@else") {
        proof {
            reveal_strlit("@else");
        }
        let p6 = skip_ws_exec(tpl, p5 + 5);
        let (else_src, p8) = match extract_group_content(tpl, p6, '{', '}') {
            None => return None,
            Some(x) => x,
        };
        let selected = if c {
            then_src
        } else {
            else_src
        };
        Some((render_template_with_context(&selected, ctx, depth), p8))
    } else {
        let selected = if c {
            then_src
        } else {
            Vec::new()
        };
        assert(!c ==> selected@ =~= Seq::<char>::empty());
        Some((render_template_with_context(&selected, ctx, depth), p5))
    }
}

/// The `@for` directive at `pos` (`for_directive`).
fn parse_for_directive(tpl: &Vec<char>, pos: usize, ctx: &Vec<(String, JsonValue)>, depth: usize) -> (r: Option<
    (Vec<char>, usize),
>)
    requires
        pos + 4 <= tpl.len(),
        1 <= depth <= 65,
    ensures
        match for_directive(tpl@, pos as int, json::entries_view(ctx@), depth as int) {
            Some((o, e)) => r is Some && r.unwrap().0@ == o && r.unwrap().1 as int == e,
            None => r is None,
        },
        r is Some ==> pos < r.unwrap().1 <= tpl.len(),
    decreases 66 - depth, 1int, 0int,
{
    let ghost cv = json::entries_view(ctx@);
    let p1 = skip_ws_exec(tpl, pos + 4);
    let (header, p2) = match extract_group_content(tpl, p1, '(', ')') {
        None => return None,
        Some(x) => x,
    };
    let p3 = skip_ws_exec(tpl, p2);
    let (block, p4) = match extract_group_content(tpl, p3, '{', '}') {
        None => return None,
        Some(x) => x,
    };
    let (item, index_name, iter) = match parse_for_header(&header) {
        None => return None,
        Some(x) => x,
    };
    let ghost iname = match &index_name {
        Some(n) => Some(n@),
        None => None::<Seq<char>>,
    };
    let v = match expr::evaluate_expression(&iter, ctx) {
        None => {
            let e: Vec<char> = Vec::new();
            assert(e@ =~= Seq::<char>::empty());
            return Some((e, p4));
        },
        Some(v) => v,
    };
    let items = iterable_items_exec(v);
    let ghost iv = json::values_view(items@);
    let mut out: Vec<char> = Vec::new();
    let mut k: usize = 0;
    while k < items.len()
        invariant
            k <= items.len(),
            1 <= depth <= 65,
            iv == json::values_view(items@),
            cv == json::entries_view(ctx@),
            for_items(iv, 0, block@, cv, item@, iname, depth as int) == out@ + for_items(
                iv,
                k as int,
                block@,
                cv,
                item@,
                iname,
                depth as int,
            ),
            iname == match &index_name {
                Some(n) => Some(n@),
                None => None::<Seq<char>>,
            },
        decreases items.len() - k,
    {
        let c = with_iteration_exec(ctx, &item, json::json_clone(&items[k]), &index_name, k);
        assert(iv[k as int] == items@[k as int]@);
        let nested = render_template_with_context(&block, &c, depth);
        let piece = interpolate_inline_placeholders(&nested, &c);
        let ghost o0 = out@;
        text::append_chars(&mut out, &piece);
        assert(o0 + (piece@ + for_items(iv, k + 1, block@, cv, item@, iname, depth as int)) =~= out@
            + for_items(iv, k + 1, block@, cv, item@, iname, depth as int));
        k = k + 1;
    }
    assert(out@ + Seq::<char>::empty() =~= out@);
    Some((out, p4))
}


// ---------------------------------------------------------------------------
// Laws
// ---------------------------------------------------------------------------

/// No `{{`, `@if` or `@for` starts at `i` in `s`.
pub open spec fn free_at(s: Seq<char>, i: int) -> bool {
    !has_at(s, i, seq!['{', '{']) && !has_at(s, i, "@if"@) && !has_at(s, i, "@for"@)
}

/// No `{{`, `@if` or `@for` anywhere in `s`.
pub open spec fn directive_free(s: Seq<char>) -> bool {
    forall|i: int| 0 <= i < s.len() ==> #[trigger] free_at(s, i)
}

proof fn lemma_plain_segment(tpl: Seq<char>, pos: int, ctx: Ctx, depth: int)
    requires
        directive_free(tpl),
        0 <= pos <= tpl.len(),
        0 <= depth <= 64,
    ensures
        segment(tpl, pos, ctx, depth) == tpl.skip(pos),
    decreases tpl.len() - pos,
{
    if pos < tpl.len() {
        assert(free_at(tpl, pos));
        assert(!has_at(tpl, pos, seq!['{', '{']));
        assert(!is_directive(tpl, pos, "@if"@));
        assert(!is_directive(tpl, pos, "@for"@));
        lemma_plain_segment(tpl, pos + 1, ctx, depth);
        assert(seq![tpl[pos]] + tpl.skip(pos + 1) =~= tpl.skip(pos));
    } else {
        assert(tpl.skip(pos) =~= Seq::<char>::empty());
    }
}

/// Text without `{{`, `@if` and `@for` renders as itself, whatever the
/// context.
pub proof fn law_plain_text_renders_unchanged(tpl: Seq<char>, ctx: Ctx)
    requires
        directive_free(tpl),
    ensures
        render(tpl, ctx, 0) == tpl,
{
    lemma_plain_segment(tpl, 0, ctx, 0);
    assert(tpl.skip(0) =~= tpl);
}

/// The placeholders `extract_inner_bindings` reports are distinct, and they
/// are exactly the placeholders of the content.
pub proof fn law_bindings_unique(s: Seq<Seq<char>>)
    ensures
        unique_in_order(s).no_duplicates(),
        forall|x: Seq<char>| s.contains(x) <==> unique_in_order(s).contains(x),
    decreases s.len(),
{
    if s.len() > 0 {
        let d = s.drop_last();
        law_bindings_unique(d);
        let r = unique_in_order(d);
        let last = s.last();
        let u = unique_in_order(s);
        assert forall|x: Seq<char>| s.contains(x) implies u.contains(x) by {
            let i = choose|i: int| 0 <= i < s.len() && s[i] == x;
            if i < s.len() - 1 {
                assert(d[i] == x);
                assert(d.contains(x));
                assert(r.contains(x));
                if !r.contains(last) {
                    let k = choose|k: int| 0 <= k < r.len() && r[k] == x;
                    assert(u[k] == x);
                }
            } else if !r.contains(last) {
                assert(u[r.len() as int] == x);
            }
        }
        assert forall|x: Seq<char>| u.contains(x) implies s.contains(x) by {
            let k = choose|k: int| 0 <= k < u.len() && u[k] == x;
            if k < r.len() {
                assert(r[k] == x);
                assert(r.contains(x));
                assert(d.contains(x));
                let j = choose|j: int| 0 <= j < d.len() && d[j] == x;
                assert(s[j] == x);
            } else {
                assert(x == last);
                assert(s[s.len() - 1] == x);
            }
        }
        if !r.contains(last) {
            assert forall|i: int, j: int| 0 <= i < u.len() && 0 <= j < u.len() && i != j implies u[i]
                != u[j] by {
                if i < r.len() && j < r.len() {
                } else if i < r.len() {
                    assert(u[i] == r[i]);
                } else {
                    assert(u[j] == r[j]);
                }
            }
        }
    }
}

/// A `@for` loop walks every element of an array and every member value of
/// an object, in order, once each: as many items as elements or members.
/// Any other value gives no items.
pub proof fn law_for_walks_every_element_and_member(
    items: Seq<JsonV>,
    entries: Seq<(Seq<char>, JsonV)>,
    other: JsonV,
)
    requires
        !(other is Arr) && !(other is Obj),
    ensures
        iterable_items(JsonV::Arr(items)).len() == items.len(),
        forall|i: int| 0 <= i < items.len() ==> iterable_items(JsonV::Arr(items))[i] == items[i],
        iterable_items(JsonV::Obj(entries)).len() == entries.len(),
        forall|i: int|
            0 <= i < entries.len() ==> iterable_items(JsonV::Obj(entries))[i] == entries[i].1,
        iterable_items(other).len() == 0,
{
}

} // verus!
