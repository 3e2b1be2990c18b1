//! Import targets of the template language: how a `@use` target names a
//! registered shared value (`crate::` paths, simple type names, path
//! wildcards) and the alias a value gets in the template context.
use vstd::prelude::*;
use crate::text;

verus! {

// ---------------------------------------------------------------------------
// Names of outside character properties
// ---------------------------------------------------------------------------

/// `char::is_uppercase`: the Unicode `Uppercase` property.
pub uninterp spec fn char_is_uppercase(c: char) -> bool;

/// `char::to_lowercase`: the characters of the Unicode lowercase mapping.
pub uninterp spec fn char_lowercase(c: char) -> Seq<char>;

/// Calls `char::is_uppercase`; the result is the Unicode `Uppercase`
/// property of `c`, which is named here and not spelt out.
#[verifier::external_body]
fn is_uppercase_char(c: char) -> (r: bool)
    ensures
        r == char_is_uppercase(c),
{
    c.is_uppercase()
}

/// Calls `char::to_lowercase` and collects the characters it yields; the
/// Unicode mapping itself is named here and not spelt out.
#[verifier::external_body]
pub(crate) fn lowercase_of(c: char) -> (r: Vec<char>)
    ensures
        r@ == char_lowercase(c),
{
    c.to_lowercase().collect()
}

// ---------------------------------------------------------------------------
// Specifications
// ---------------------------------------------------------------------------

/// The path separator `::`.
pub open spec fn sep() -> Seq<char> {
    seq![':', ':']
}

/// The `crate::` path prefix.
pub open spec fn crate_prefix() -> Seq<char> {
    seq!['c', 'r', 'a', 't', 'e', ':', ':']
}

/// `s` without the prefix `p` (`str::strip_prefix`).
pub open spec fn strip_prefix(s: Seq<char>, p: Seq<char>) -> Option<Seq<char>> {
    if p.is_prefix_of(s) {
        Some(s.skip(p.len() as int))
    } else {
        None
    }
}

/// `s` without the suffix `p` (`str::strip_suffix`).
pub open spec fn strip_suffix(s: Seq<char>, p: Seq<char>) -> Option<Seq<char>> {
    if p.is_suffix_of(s) {
        Some(s.take(s.len() - p.len()))
    } else {
        None
    }
}

/// Start of the last `::` in `s` beginning at or before `i`.
pub open spec fn last_sep_from(s: Seq<char>, i: int) -> Option<int>
    decreases i + 1,
{
    if i < 0 {
        None
    } else if i + 1 < s.len() && s[i] == ':' && s[i + 1] == ':' {
        Some(i)
    } else {
        last_sep_from(s, i - 1)
    }
}

/// Start of the last `::` in `s`.
pub open spec fn last_sep(s: Seq<char>) -> Option<int> {
    last_sep_from(s, s.len() - 2)
}

/// The last `::` segment of a trimmed path, trimmed: `a::b::Player` gives
/// `Player`, a name without `::` is itself.
pub open spec fn simple_type_name(target: Seq<char>) -> Seq<char> {
    let t = text::trim(target);
    match last_sep(t) {
        Some(i) => text::trim(t.subrange(i + 2, t.len() as int)),
        None => text::trim(t),
    }
}

/// `PascalCase` to `snake_case`: every uppercase character is lowercased,
/// with `_` in front of it unless it is the first character.
pub open spec fn template_alias(s: Seq<char>) -> Seq<char>
    decreases s.len(),
{
    if s.len() == 0 {
        seq![]
    } else {
        let prev = template_alias(s.drop_last());
        let c = s.last();
        if char_is_uppercase(c) {
            (if s.len() > 1 {
                prev.push('_')
            } else {
                prev
            }) + char_lowercase(c)
        } else {
            prev.push(c)
        }
    }
}

/// The alias a target gets when none is written: its simple type name in
/// `snake_case`.
pub open spec fn default_use_alias(target: Seq<char>) -> Seq<char> {
    template_alias(simple_type_name(target))
}

/// A registered path matches a requested one: they are equal, or the
/// request is `crate::rest` and the registered path is `rest` or ends in
/// `::rest`.
pub open spec fn shared_paths_match(registered: Seq<char>, requested: Seq<char>) -> bool {
    registered == requested || match strip_prefix(text::trim(requested), crate_prefix()) {
        Some(rest) => registered == rest || (sep() + rest).is_suffix_of(text::trim(registered)),
        None => false,
    }
}

/// Two targets name the same value: equal, matching paths, or the same
/// simple type name.
pub open spec fn shared_targets_match(left: Seq<char>, right: Seq<char>) -> bool {
    left == right || shared_paths_match(left, right) || simple_type_name(left)
        == simple_type_name(right)
}

/// The module part of a registered path (before its last `::`) is the
/// requested prefix, or the request is `crate::rest` and the module part is
/// `rest` or ends in `::rest`.
pub open spec fn shared_path_prefix_matches(registered: Seq<char>, prefix: Seq<char>) -> bool {
    let r = text::trim(registered);
    match last_sep(r) {
        None => false,
        Some(i) => {
            let module = r.take(i);
            module == prefix || match strip_prefix(text::trim(prefix), crate_prefix()) {
                Some(rest) => module == rest || (sep() + rest).is_suffix_of(text::trim(module)),
                None => false,
            }
        },
    }
}

/// `::*`.
pub open spec fn wildcard_suffix() -> Seq<char> {
    seq![':', ':', '*']
}

/// The module path of a path wildcard `a::b::*`; `None` for other targets
/// and for an empty module path.
pub open spec fn wildcard_use_prefix(target: Seq<char>) -> Option<Seq<char>> {
    match strip_suffix(text::trim(target), wildcard_suffix()) {
        Some(p) => if text::trim(p).len() == 0 {
            None
        } else {
            Some(text::trim(p))
        },
        None => None,
    }
}


/// Index of the last `c` in `s` at or before `i`.
pub open spec fn last_index_from(s: Seq<char>, c: char, i: int) -> Option<int>
    decreases i + 1,
{
    if i < 0 {
        None
    } else if i < s.len() && s[i] == c {
        Some(i)
    } else {
        last_index_from(s, c, i - 1)
    }
}

/// Index of the last `c` in `s` (`str::rfind`).
pub open spec fn last_index(s: Seq<char>, c: char) -> Option<int> {
    last_index_from(s, c, s.len() - 1)
}

/// Index of the first `c` in `s` at or after `i` (`str::find`).
pub open spec fn index_from(s: Seq<char>, c: char, i: int) -> Option<int>
    decreases s.len() - i,
{
    if i < 0 || i >= s.len() {
        None
    } else if s[i] == c {
        Some(i)
    } else {
        index_from(s, c, i + 1)
    }
}

/// The parts of `s` between occurrences of `c` (`str::split` on a
/// character): one part more than there are separators.
pub open spec fn split_on(s: Seq<char>, c: char) -> Seq<Seq<char>>
    decreases s.len(),
{
    match index_from(s, c, 0) {
        Some(i) => if 0 <= i < s.len() {
            seq![s.take(i)] + split_on(s.skip(i + 1), c)
        } else {
            seq![s]
        },
        None => seq![s],
    }
}

/// A grouped target `prefix::{a, b as c}`: its trimmed prefix (without the
/// trailing `::`) and the text between the braces. The group must close the
/// target, and the prefix must not be empty.
pub open spec fn split_grouped_use_target(target: Seq<char>) -> Option<(Seq<char>, Seq<char>)> {
    let t = text::trim(target);
    match last_index(t, '}') {
        None => None,
        Some(ge) => if text::trim(t.subrange(ge + 1, t.len() as int)).len() != 0 {
            None
        } else {
            match last_index(t.take(ge), '{') {
                None => None,
                Some(gs) => match strip_suffix(text::trim(t.take(gs)), sep()) {
                    None => None,
                    Some(p0) => if text::trim(p0).len() == 0 {
                        None
                    } else {
                        Some((text::trim(p0), t.subrange(gs + 1, ge)))
                    },
                },
            }
        },
    }
}

/// An identifier: a letter or `_`, then letters, digits or `_`.
pub open spec fn alias_ident(s: Seq<char>) -> bool {
    s.len() > 0 && (text::is_ascii_alpha(s[0]) || s[0] == '_') && forall|k: int|
        1 <= k < s.len() ==> (text::is_ascii_alnum(#[trigger] s[k]) || s[k] == '_')
}

/// The word `as`.
pub open spec fn as_word() -> Seq<char> {
    seq!['a', 's']
}

/// `s[p..]` is whitespace, `as`, whitespace and an identifier or `*`, then
/// only whitespace: the identifier or `*`.
pub open spec fn alias_tail(s: Seq<char>, p: int) -> Option<Seq<char>> {
    if 0 <= p < s.len() && text::is_ws(s[p]) {
        let q = crate::render::skip_ws(s, p);
        let r = crate::render::skip_ws(s, q + 2);
        let tail = text::trim_end(s.subrange(r, s.len() as int));
        if crate::render::has_at(s, q, as_word()) && r > q + 2 && (alias_ident(tail) || tail
            == seq!['*']) {
            Some(tail)
        } else {
            None
        }
    } else {
        None
    }
}

/// First `p >= i` at which an alias tail starts.
pub open spec fn first_alias_split(s: Seq<char>, i: int) -> Option<int>
    decreases s.len() - i,
{
    if i < 0 || i >= s.len() {
        None
    } else if alias_tail(s, i) is Some {
        Some(i)
    } else {
        first_alias_split(s, i + 1)
    }
}

/// `item as alias`: the item and its alias (an identifier or `*`), as the
/// pattern `^\s*(.*?)\s+as\s+(ident|\*)\s*$` splits it; the shortest item
/// wins. Without such an alias the item is returned whole.
pub open spec fn split_use_item_alias(s: Seq<char>) -> (Seq<char>, Option<Seq<char>>) {
    let a = crate::render::skip_ws(s, 0);
    match first_alias_split(s, a) {
        Some(p) => (s.subrange(a, p), alias_tail(s, p)),
        None => if a > 0 && alias_tail(s, a - 1) is Some {
            (seq![], alias_tail(s, a - 1))
        } else {
            (s, None)
        },
    }
}

/// `self`.
pub open spec fn self_word() -> Seq<char> {
    seq!['s', 'e', 'l', 'f']
}

/// One item of a group: `self` names the prefix itself, any other item
/// `prefix::item`; empty items give nothing.
pub open spec fn parse_grouped_use_item(prefix: Seq<char>, item: Seq<char>) -> Option<
    (Seq<char>, Option<Seq<char>>),
> {
    let it = text::trim(item);
    if it.len() == 0 {
        None
    } else {
        let t = text::trim(split_use_item_alias(it).0);
        if t.len() == 0 {
            None
        } else {
            Some(
                (
                    if t == self_word() {
                        prefix
                    } else {
                        prefix + sep() + t
                    },
                    split_use_item_alias(it).1,
                ),
            )
        }
    }
}

/// The targets the items of a group name, in order.
pub open spec fn grouped_items(prefix: Seq<char>, items: Seq<Seq<char>>) -> Seq<
    (Seq<char>, Option<Seq<char>>),
>
    decreases items.len(),
{
    if items.len() == 0 {
        seq![]
    } else {
        let rest = grouped_items(prefix, items.drop_last());
        match parse_grouped_use_item(prefix, items.last()) {
            Some(x) => rest.push(x),
            None => rest,
        }
    }
}

/// The targets one `@use` target names, each with the alias its group item
/// gives: a grouped target is expanded item by item (when no item is left,
/// the target stands for itself), any other target stands for itself.
pub open spec fn expand_use_targets(target: Seq<char>) -> Seq<(Seq<char>, Option<Seq<char>>)> {
    let t = text::trim(target);
    match split_grouped_use_target(t) {
        None => seq![(t, None)],
        Some((prefix, group)) => {
            let ex = grouped_items(prefix, split_on(group, ','));
            if ex.len() == 0 {
                seq![(t, None)]
            } else {
                ex
            }
        },
    }
}


// ---------------------------------------------------------------------------
// `@use` lines
// ---------------------------------------------------------------------------

/// A space or a tab.
pub open spec fn is_sp(c: char) -> bool {
    c == ' ' || c == '\t'
}

/// `is_sp` as a predicate value.
pub open spec fn sp_fn() -> spec_fn(char) -> bool {
    |c: char| is_sp(c)
}

/// Index after the spaces and tabs starting at `j`.
pub open spec fn sp_end(s: Seq<char>, j: int) -> int {
    crate::expr::run_end(s, j, sp_fn())
}

/// `@use`.
pub open spec fn use_word() -> Seq<char> {
    seq!['@', 'u', 's', 'e']
}

/// ` as alias` after the closing quote at `j`: spaces or tabs, `as`, spaces
/// or tabs, then an identifier or `*`. The end of the alias and the alias.
pub open spec fn alias_group(s: Seq<char>, j: int) -> Option<(int, Seq<char>)> {
    let x = sp_end(s, j);
    let y = sp_end(s, x + 2);
    if x > j && crate::render::has_at(s, x, as_word()) && y > x + 2 && y < s.len() {
        if s[y] == '*' {
            Some((y + 1, seq!['*']))
        } else if crate::render::ident_start(s[y]) {
            let z = crate::expr::run_end(s, y + 1, crate::render::ident_fn());
            Some((z, s.subrange(y, z)))
        } else {
            None
        }
    } else {
        None
    }
}

/// A `@use` line starting at `p`: spaces or tabs, `@use`, spaces or tabs, a
/// non-empty target in double quotes, optionally `as alias`, then `;` with
/// spaces or tabs around it and an optional carriage return before the end
/// of the line. The end of the match (before the line break), the target
/// and the alias.
pub open spec fn use_match_at(s: Seq<char>, p: int) -> Option<(int, Seq<char>, Option<Seq<char>>)> {
    let a = sp_end(s, p);
    let b = sp_end(s, a + 4);
    if crate::render::has_at(s, a, use_word()) && b > a + 4 && b < s.len() && s[b] == '"' {
        match index_from(s, '"', b + 1) {
            None => None,
            Some(q) => if q == b + 1 {
                None
            } else {
                let c = match alias_group(s, q + 1) {
                    Some(g) => g.0,
                    None => q + 1,
                };
                let alias = match alias_group(s, q + 1) {
                    Some(g) => Some(g.1),
                    None => None,
                };
                let d = sp_end(s, c);
                let e = sp_end(s, d + 1);
                let e2 = if e < s.len() && s[e] == '\r' {
                    e + 1
                } else {
                    e
                };
                if d < s.len() && s[d] == ';' && (e2 == s.len() || s[e2] == '\n') {
                    Some((e2, s.subrange(b + 1, q), alias))
                } else {
                    None
                }
            },
        }
    } else {
        None
    }
}

/// `p` starts a line.
pub open spec fn line_start(s: Seq<char>, p: int) -> bool {
    p == 0 || (0 < p <= s.len() && s[p - 1] == '\n')
}

/// The `@use` lines of `s` from `p` on, found left to right as the
/// line-anchored pattern finds them, with the raw target and alias of each,
/// and the text of `s` from `p` on with those lines taken out (their line
/// breaks stay).
pub open spec fn scan_uses(s: Seq<char>, p: int) -> (Seq<(Seq<char>, Option<Seq<char>>)>, Seq<char>)
    decreases s.len() - p,
{
    if p < 0 || p >= s.len() {
        (seq![], seq![])
    } else {
        match (if line_start(s, p) {
            use_match_at(s, p)
        } else {
            None
        }) {
            Some(m) => if p < m.0 <= s.len() {
                let r = scan_uses(s, m.0);
                (seq![(m.1, m.2)] + r.0, r.1)
            } else {
                (seq![], seq![])
            },
            None => {
                let r = scan_uses(s, p + 1);
                (r.0, seq![s[p]] + r.1)
            },
        }
    }
}

/// What a `@use` directive asks for: a target, the alias its value is bound
/// to (`*` spreads an object's fields), and whether the target is a path
/// wildcard `module::*` (which imports every value registered in that
/// module under its default alias).
pub struct UseDir {
    pub target: Seq<char>,
    pub alias: Seq<char>,
    pub wildcard: bool,
    pub path_wildcard: bool,
}

/// The directive for one expanded target of a line: a path wildcard has no
/// alias; otherwise the item's own alias, else the line's alias unless the
/// target was a group, else the default alias.
pub open spec fn use_directive(
    et: (Seq<char>, Option<Seq<char>>),
    line_alias: Option<Seq<char>>,
    grouped: bool,
) -> UseDir {
    let pw = wildcard_use_prefix(et.0) is Some;
    let alias = if pw {
        seq![]
    } else {
        match et.1 {
            Some(a) => a,
            None => match line_alias {
                Some(l) => if !grouped {
                    l
                } else {
                    default_use_alias(et.0)
                },
                None => default_use_alias(et.0),
            },
        }
    };
    UseDir { target: et.0, alias, wildcard: alias == seq!['*'] && !pw, path_wildcard: pw }
}

/// The directives of one `@use` line (raw target and alias, both trimmed
/// first).
pub open spec fn line_directives(target_raw: Seq<char>, alias_raw: Option<Seq<char>>) -> Seq<
    UseDir,
> {
    let target = text::trim(target_raw);
    let line_alias = match alias_raw {
        Some(a) => Some(text::trim(a)),
        None => None,
    };
    let grouped = split_grouped_use_target(target) is Some;
    let ets = expand_use_targets(target);
    Seq::new(ets.len(), |i: int| use_directive(ets[i], line_alias, grouped))
}

/// The directives of a sequence of `@use` lines, in order.
pub open spec fn all_directives(lines: Seq<(Seq<char>, Option<Seq<char>>)>) -> Seq<UseDir>
    decreases lines.len(),
{
    if lines.len() == 0 {
        seq![]
    } else {
        all_directives(lines.drop_last()) + line_directives(lines.last().0, lines.last().1)
    }
}

/// The `@use` directives of a template, and the template without its `@use`
/// lines.
pub open spec fn extract_uses(template: Seq<char>) -> (Seq<UseDir>, Seq<char>) {
    let r = scan_uses(template, 0);
    (all_directives(r.0), r.1)
}

// ---------------------------------------------------------------------------
// Implementations
// ---------------------------------------------------------------------------

/// `str::strip_prefix` (`strip_prefix`).
pub fn strip_prefix_exec(s: &Vec<char>, p: &Vec<char>) -> (r: Option<Vec<char>>)
    ensures
        r is Some <==> strip_prefix(s@, p@) is Some,
        r is Some ==> strip_prefix(s@, p@) == Some(r->0@),
{
    if text::starts_with(s, p) {
        Some(text::slice_chars(s, p.len(), s.len()))
    } else {
        None
    }
}

/// `str::strip_suffix` (`strip_suffix`).
pub fn strip_suffix_exec(s: &Vec<char>, p: &Vec<char>) -> (r: Option<Vec<char>>)
    ensures
        r is Some <==> strip_suffix(s@, p@) is Some,
        r is Some ==> strip_suffix(s@, p@) == Some(r->0@),
{
    if text::ends_with(s, p) {
        Some(text::slice_chars(s, 0, s.len() - p.len()))
    } else {
        None
    }
}

/// Start of the last `::` in `s` (`last_sep`).
pub fn last_sep_exec(s: &Vec<char>) -> (r: Option<usize>)
    ensures
        r is Some <==> last_sep(s@) is Some,
        r is Some ==> last_sep(s@) == Some(r->0 as int) && r->0 + 1 < s.len(),
{
    let mut i: usize = s.len();
    // the next start to try is `i - 2`
    while i >= 2
        invariant
            i <= s.len(),
            last_sep(s@) == last_sep_from(s@, i - 2),
        decreases i,
    {
        if s[i - 2] == ':' && s[i - 1] == ':' {
            return Some(i - 2);
        }
        i = i - 1;
    }
    None
}

/// Whether `b` ends with `a` (`Seq::is_suffix_of` on trimmed text).
fn ends_with_sep_and(t: &Vec<char>, rest: &Vec<char>) -> (r: bool)
    ensures
        r == (sep() + rest@).is_suffix_of(text::trim(t@)),
{
    let tt = text::trim_chars(t);
    let mut needle: Vec<char> = Vec::new();
    needle.push(':');
    needle.push(':');
    text::append_chars(&mut needle, rest);
    assert(needle@ == sep() + rest@);
    text::ends_with(&tt, &needle)
}

fn crate_prefix_chars() -> (r: Vec<char>)
    ensures
        r@ == crate_prefix(),
{
    let r = text::str_to_chars("crate::");
    proof {
        reveal_strlit("crate::");
    }
    r
}

/// The last segment of a path (`simple_type_name`).
pub fn simple_type_name_exec(target: &Vec<char>) -> (r: Vec<char>)
    ensures
        r@ == simple_type_name(target@),
{
    let t = text::trim_chars(target);
    match last_sep_exec(&t) {
        Some(i) => {
            let tail = text::slice_chars(&t, i + 2, t.len());
            text::trim_chars(&tail)
        },
        None => text::trim_chars(&t),
    }
}

/// `PascalCase` to `snake_case` (`template_alias`).
pub fn to_template_alias(name: &Vec<char>) -> (r: Vec<char>)
    ensures
        r@ == template_alias(name@),
{
    let mut out: Vec<char> = Vec::new();
    let mut i: usize = 0;
    while i < name.len()
        invariant
            i <= name.len(),
            out@ == template_alias(name@.take(i as int)),
        decreases name.len() - i,
    {
        let ch = name[i];
        let ghost pre = name@.take(i as int);
        let ghost next = name@.take(i + 1);
        assert(next.drop_last() =~= pre);
        assert(next.last() == ch);
        if is_uppercase_char(ch) {
            if i != 0 {
                out.push('_');
            }
            let low = lowercase_of(ch);
            text::append_chars(&mut out, &low);
        } else {
            out.push(ch);
        }
        i = i + 1;
    }
    assert(name@.take(name.len() as int) =~= name@);
    out
}

/// The default alias of a target (`default_use_alias`).
pub fn default_use_alias_exec(target: &Vec<char>) -> (r: Vec<char>)
    ensures
        r@ == default_use_alias(target@),
{
    let name = simple_type_name_exec(target);
    to_template_alias(&name)
}

/// Whether a registered path matches a requested one (`shared_paths_match`).
pub fn shared_paths_match_exec(registered: &Vec<char>, requested: &Vec<char>) -> (r: bool)
    ensures
        r == shared_paths_match(registered@, requested@),
{
    if text::chars_eq(registered, requested) {
        return true;
    }
    let req = text::trim_chars(requested);
    let cp = crate_prefix_chars();
    match strip_prefix_exec(&req, &cp) {
        Some(rest) => text::chars_eq(registered, &rest) || ends_with_sep_and(registered, &rest),
        None => false,
    }
}

/// Whether two targets name the same value (`shared_targets_match`).
pub fn shared_targets_match_exec(left: &Vec<char>, right: &Vec<char>) -> (r: bool)
    ensures
        r == shared_targets_match(left@, right@),
{
    if text::chars_eq(left, right) || shared_paths_match_exec(left, right) {
        return true;
    }
    let a = simple_type_name_exec(left);
    let b = simple_type_name_exec(right);
    text::chars_eq(&a, &b)
}

/// Whether a registered path lies in the requested module
/// (`shared_path_prefix_matches`).
pub fn shared_path_prefix_matches_exec(registered: &Vec<char>, prefix: &Vec<char>) -> (r: bool)
    ensures
        r == shared_path_prefix_matches(registered@, prefix@),
{
    let r = text::trim_chars(registered);
    match last_sep_exec(&r) {
        None => false,
        Some(i) => {
            let module = text::slice_chars(&r, 0, i);
            assert(module@ == r@.take(i as int));
            if text::chars_eq(&module, prefix) {
                return true;
            }
            let p = text::trim_chars(prefix);
            let cp = crate_prefix_chars();
            match strip_prefix_exec(&p, &cp) {
                Some(rest) => text::chars_eq(&module, &rest) || ends_with_sep_and(&module, &rest),
                None => false,
            }
        },
    }
}

/// The module path of a path wildcard (`wildcard_use_prefix`).
pub fn wildcard_use_prefix_exec(target: &Vec<char>) -> (r: Option<Vec<char>>)
    ensures
        r is Some <==> wildcard_use_prefix(target@) is Some,
        r is Some ==> wildcard_use_prefix(target@) == Some(r->0@),
{
    let t = text::trim_chars(target);
    let suffix = text::str_to_chars("::*");
    proof {
        reveal_strlit("::*");
        assert(suffix@ == wildcard_suffix());
    }
    match strip_suffix_exec(&t, &suffix) {
        Some(p) => {
            let q = text::trim_chars(&p);
            if q.len() == 0 {
                None
            } else {
                Some(q)
            }
        },
        None => None,
    }
}


/// Index of the last `c` among the first `hi` characters of `s`
/// (`last_index` of `s[..hi]`).
pub fn last_index_below(s: &Vec<char>, hi: usize, c: char) -> (r: Option<usize>)
    requires
        hi <= s.len(),
    ensures
        r is Some <==> last_index(s@.take(hi as int), c) is Some,
        r is Some ==> last_index(s@.take(hi as int), c) == Some(r->0 as int) && r->0 < hi,
{
    let ghost t = s@.take(hi as int);
    let mut i: usize = hi;
    // the next index to try is `i - 1`
    while i > 0
        invariant
            i <= hi <= s.len(),
            t == s@.take(hi as int),
            last_index(t, c) == last_index_from(t, c, i - 1),
        decreases i,
    {
        if s[i - 1] == c {
            return Some(i - 1);
        }
        i = i - 1;
    }
    None
}

/// Index of the first `c` in `s` at or after `i` (`index_from`).
pub fn index_from_exec(s: &Vec<char>, c: char, i: usize) -> (r: Option<usize>)
    ensures
        r is Some <==> index_from(s@, c, i as int) is Some,
        r is Some ==> index_from(s@, c, i as int) == Some(r->0 as int) && i <= r->0 < s.len(),
{
    let mut j: usize = i;
    while j < s.len()
        invariant
            i <= j,
            index_from(s@, c, i as int) == index_from(s@, c, j as int),
        decreases s.len() - j,
    {
        if s[j] == c {
            return Some(j);
        }
        j = j + 1;
    }
    None
}

/// Views of a vector of character vectors.
pub open spec fn vecs_view(v: Seq<Vec<char>>) -> Seq<Seq<char>> {
    Seq::new(v.len(), |i: int| v[i]@)
}

/// The parts of `s` between occurrences of `c` (`split_on`).
pub fn split_on_exec(s: &Vec<char>, c: char) -> (r: Vec<Vec<char>>)
    ensures
        vecs_view(r@) == split_on(s@, c),
    decreases s.len(),
{
    match index_from_exec(s, c, 0) {
        Some(i) => {
            let head = text::slice_chars(s, 0, i);
            let tail = text::slice_chars(s, i + 1, s.len());
            assert(tail@ == s@.skip(i + 1));
            let rest = split_on_exec(&tail, c);
            let mut out: Vec<Vec<char>> = Vec::new();
            out.push(head);
            let mut k: usize = 0;
            while k < rest.len()
                invariant
                    k <= rest.len(),
                    vecs_view(out@) == seq![s@.take(i as int)] + vecs_view(rest@).take(k as int),
                decreases rest.len() - k,
            {
                let e = rest[k].clone();
                assert(e@ =~= rest@[k as int]@);
                let ghost prev = vecs_view(out@);
                out.push(e);
                assert(vecs_view(out@) =~= prev.push(rest@[k as int]@));
                assert(vecs_view(rest@).take(k + 1) =~= vecs_view(rest@).take(k as int).push(
                    rest@[k as int]@,
                ));
                assert(vecs_view(out@) =~= seq![s@.take(i as int)] + vecs_view(rest@).take(
                    k + 1,
                ));
                k = k + 1;
            }
            assert(vecs_view(rest@).take(rest.len() as int) =~= vecs_view(rest@));
            out
        },
        None => {
            let mut out: Vec<Vec<char>> = Vec::new();
            out.push(s.clone());
            assert(vecs_view(out@) =~= seq![s@]);
            out
        },
    }
}

/// The prefix and group text of a grouped target (`split_grouped_use_target`).
pub fn split_grouped_use_target_exec(target: &Vec<char>) -> (r: Option<(Vec<char>, Vec<char>)>)
    ensures
        r is Some <==> split_grouped_use_target(target@) is Some,
        r is Some ==> split_grouped_use_target(target@) == Some((r.unwrap().0@, r.unwrap().1@)),
{
    let t = text::trim_chars(target);
    assert(t@.take(t.len() as int) =~= t@);
    let ge = match last_index_below(&t, t.len(), '}') {
        None => return None,
        Some(ge) => ge,
    };
    let after = text::slice_chars(&t, ge + 1, t.len());
    let after_t = text::trim_chars(&after);
    if after_t.len() != 0 {
        return None;
    }
    let gs = match last_index_below(&t, ge, '{') {
        None => return None,
        Some(gs) => gs,
    };
    assert(t@.take(ge as int).take(gs as int) =~= t@.take(gs as int));
    let before = text::slice_chars(&t, 0, gs);
    assert(before@ == t@.take(gs as int));
    let before_t = text::trim_chars(&before);
    let mut sepv: Vec<char> = Vec::new();
    sepv.push(':');
    sepv.push(':');
    assert(sepv@ == sep());
    match strip_suffix_exec(&before_t, &sepv) {
        None => None,
        Some(p0) => {
            let prefix = text::trim_chars(&p0);
            if prefix.len() == 0 {
                None
            } else {
                let group = text::slice_chars(&t, gs + 1, ge);
                Some((prefix, group))
            }
        },
    }
}

/// Whether `s` is an identifier (`alias_ident`).
fn alias_ident_exec(s: &Vec<char>) -> (r: bool)
    ensures
        r == alias_ident(s@),
{
    if s.len() == 0 {
        return false;
    }
    let c0 = s[0];
    if !(('A' <= c0 && c0 <= 'Z') || ('a' <= c0 && c0 <= 'z') || c0 == '_') {
        return false;
    }
    let mut k: usize = 1;
    while k < s.len()
        invariant
            1 <= k <= s.len(),
            forall|j: int| 1 <= j < k ==> (text::is_ascii_alnum(#[trigger] s@[j]) || s@[j] == '_'),
        decreases s.len() - k,
    {
        let c = s[k];
        if !(('A' <= c && c <= 'Z') || ('a' <= c && c <= 'z') || ('0' <= c && c <= '9') || c
            == '_') {
            return false;
        }
        k = k + 1;
    }
    true
}

/// The alias tail starting at `p` (`alias_tail`).
fn alias_tail_exec(s: &Vec<char>, p: usize) -> (r: Option<Vec<char>>)
    requires
        p <= s.len(),
    ensures
        r is Some <==> alias_tail(s@, p as int) is Some,
        r is Some ==> alias_tail(s@, p as int) == Some(r->0@),
{
    if !(p < s.len() && text::is_ws_char(s[p])) {
        return None;
    }
    let q = crate::render::skip_ws_exec(s, p);
    let has_as = crate::render::has_at_str(s, q, "as");
    proof {
        reveal_strlit("as");
        assert("as"@ == as_word());
    }
    if !has_as {
        return None;
    }
    let r = crate::render::skip_ws_exec(s, q + 2);
    if !(r > q + 2) {
        return None;
    }
    let rest = text::slice_chars(s, r, s.len());
    let tail = text::trim_end_chars(&rest);
    let star = tail.len() == 1 && tail[0] == '*';
    proof {
        if tail.len() == 1 && tail[0] == '*' {
            assert(tail@ =~= seq!['*']);
        }
    }
    if alias_ident_exec(&tail) || star {
        Some(tail)
    } else {
        None
    }
}

/// Splits `item as alias` (`split_use_item_alias`).
pub fn split_use_item_alias_exec(s: &Vec<char>) -> (r: (Vec<char>, Option<Vec<char>>))
    ensures
        r.0@ == split_use_item_alias(s@).0,
        r.1 is Some <==> split_use_item_alias(s@).1 is Some,
        r.1 is Some ==> split_use_item_alias(s@).1 == Some(r.1->0@),
{
    let a = crate::render::skip_ws_exec(s, 0);
    let mut p: usize = a;
    while p < s.len()
        invariant
            a <= p <= s.len(),
            a as int == crate::render::skip_ws(s@, 0),
            first_alias_split(s@, a as int) == first_alias_split(s@, p as int),
        decreases s.len() - p,
    {
        match alias_tail_exec(s, p) {
            Some(al) => {
                let item = text::slice_chars(s, a, p);
                return (item, Some(al));
            },
            None => {},
        }
        p = p + 1;
    }
    if a > 0 {
        match alias_tail_exec(s, a - 1) {
            Some(al) => {
                let empty: Vec<char> = Vec::new();
                assert(empty@ =~= Seq::<char>::empty());
                return (empty, Some(al));
            },
            None => {},
        }
    }
    (s.clone(), None)
}

/// One group item (`parse_grouped_use_item`).
pub fn parse_grouped_use_item_exec(prefix: &Vec<char>, item: &Vec<char>) -> (r: Option<
    (Vec<char>, Option<Vec<char>>),
>)
    ensures
        r is Some <==> parse_grouped_use_item(prefix@, item@) is Some,
        r is Some ==> parse_grouped_use_item(prefix@, item@) == Some(
            (r.unwrap().0@, opt_view(r.unwrap().1)),
        ),
{
    let it = text::trim_chars(item);
    if it.len() == 0 {
        return None;
    }
    let (t0, alias) = split_use_item_alias_exec(&it);
    let t = text::trim_chars(&t0);
    if t.len() == 0 {
        return None;
    }
    let is_self = text::chars_eq_str(&t, "self");
    proof {
        reveal_strlit("self");
        assert("self"@ == self_word());
    }
    let target = if is_self {
        prefix.clone()
    } else {
        let mut x = prefix.clone();
        x.push(':');
        x.push(':');
        text::append_chars(&mut x, &t);
        assert(x@ == prefix@ + sep() + t@);
        x
    };
    Some((target, alias))
}

/// The view of an optional character vector.
pub open spec fn opt_view(o: Option<Vec<char>>) -> Option<Seq<char>> {
    match o {
        Some(v) => Some(v@),
        None => None,
    }
}

/// Views of expanded targets.
pub open spec fn targets_view(v: Seq<(Vec<char>, Option<Vec<char>>)>) -> Seq<
    (Seq<char>, Option<Seq<char>>),
> {
    Seq::new(v.len(), |i: int| (v[i].0@, opt_view(v[i].1)))
}

/// The targets one `@use` target names (`expand_use_targets`).
pub fn expand_use_targets_exec(target: &Vec<char>) -> (r: Vec<(Vec<char>, Option<Vec<char>>)>)
    ensures
        targets_view(r@) == expand_use_targets(target@),
{
    let t = text::trim_chars(target);
    let mut out: Vec<(Vec<char>, Option<Vec<char>>)> = Vec::new();
    match split_grouped_use_target_exec(&t) {
        None => {},
        Some((prefix, group)) => {
            let items = split_on_exec(&group, ',');
            let ghost iv = vecs_view(items@);
            let mut i: usize = 0;
            while i < items.len()
                invariant
                    i <= items.len(),
                    iv == vecs_view(items@),
                    targets_view(out@) == grouped_items(prefix@, iv.take(i as int)),
                decreases items.len() - i,
            {
                assert(iv.take(i + 1).drop_last() =~= iv.take(i as int));
                assert(iv.take(i + 1).last() == items@[i as int]@);
                match parse_grouped_use_item_exec(&prefix, &items[i]) {
                    Some(x) => {
                        out.push(x);
                        assert(targets_view(out@) =~= grouped_items(prefix@, iv.take(i as int)).push(
                            (out@.last().0@, opt_view(out@.last().1)),
                        ));
                    },
                    None => {},
                }
                i = i + 1;
            }
            assert(iv.take(items.len() as int) =~= iv);
        },
    }
    if out.len() == 0 {
        out.push((t, None));
        assert(targets_view(out@) =~= seq![(t@, None::<Seq<char>>)]);
    }
    out
}


/// Index after the spaces and tabs starting at `j` (`sp_end`).
fn sp_end_exec(s: &Vec<char>, j: usize) -> (r: usize)
    requires
        j <= s.len(),
    ensures
        r as int == sp_end(s@, j as int),
        j <= r <= s.len(),
{
    let mut e = j;
    while e < s.len() && (s[e] == ' ' || s[e] == '\t')
        invariant
            j <= e <= s.len(),
            forall|k: int| j <= k < e ==> is_sp(#[trigger] s@[k]),
        decreases s.len() - e,
    {
        e = e + 1;
    }
    proof {
        crate::expr::lemma_run_end(s@, j as int, e as int, sp_fn());
    }
    e
}

/// The alias group after a closing quote (`alias_group`).
fn alias_group_exec(s: &Vec<char>, j: usize) -> (r: Option<(usize, Vec<char>)>)
    requires
        j <= s.len(),
    ensures
        r is Some <==> alias_group(s@, j as int) is Some,
        r is Some ==> alias_group(s@, j as int) == Some((r.unwrap().0 as int, r.unwrap().1@))
            && j < r.unwrap().0 <= s.len(),
{
    let x = sp_end_exec(s, j);
    if x == j {
        return None;
    }
    let has_as = crate::render::has_at_str(s, x, "as");
    proof {
        reveal_strlit("as");
        assert("as"@ == as_word());
    }
    if !has_as {
        return None;
    }
    let y = sp_end_exec(s, x + 2);
    if !(y > x + 2 && y < s.len()) {
        return None;
    }
    let c = s[y];
    if c == '*' {
        let mut star: Vec<char> = Vec::new();
        star.push('*');
        assert(star@ =~= seq!['*']);
        Some((y + 1, star))
    } else if ('A' <= c && c <= 'Z') || ('a' <= c && c <= 'z') || c == '_' {
        let z = crate::render::ident_run_end(s, y + 1);
        Some((z, text::slice_chars(s, y, z)))
    } else {
        None
    }
}

/// A `@use` line at `p` (`use_match_at`).
fn use_match_at_exec(s: &Vec<char>, p: usize) -> (r: Option<(usize, Vec<char>, Option<Vec<char>>)>)
    requires
        p <= s.len(),
    ensures
        r is Some <==> use_match_at(s@, p as int) is Some,
        r is Some ==> use_match_at(s@, p as int) == Some(
            (r.unwrap().0 as int, r.unwrap().1@, opt_view(r.unwrap().2)),
        ),
        r is Some ==> p < r.unwrap().0 <= s.len(),
{
    let a = sp_end_exec(s, p);
    let has_use = crate::render::has_at_str(s, a, "@use");
    proof {
        reveal_strlit("@use");
        assert("@use"@ == use_word());
    }
    if !has_use {
        return None;
    }
    let b = sp_end_exec(s, a + 4);
    if !(b > a + 4 && b < s.len() && s[b] == '"') {
        return None;
    }
    let q = match index_from_exec(s, '"', b + 1) {
        None => return None,
        Some(q) => q,
    };
    if q == b + 1 {
        return None;
    }
    let (c, alias) = match alias_group_exec(s, q + 1) {
        Some((c, al)) => (c, Some(al)),
        None => (q + 1, None),
    };
    let d = sp_end_exec(s, c);
    if !(d < s.len() && s[d] == ';') {
        return None;
    }
    let e = sp_end_exec(s, d + 1);
    let e2 = if e < s.len() && s[e] == '\r' {
        e + 1
    } else {
        e
    };
    if e2 == s.len() || s[e2] == '\n' {
        Some((e2, text::slice_chars(s, b + 1, q), alias))
    } else {
        None
    }
}

/// Views of scanned `@use` lines.
pub open spec fn lines_view(v: Seq<(Vec<char>, Option<Vec<char>>)>) -> Seq<
    (Seq<char>, Option<Seq<char>>),
> {
    targets_view(v)
}

/// The `@use` lines of `s` and `s` without them (`scan_uses`).
pub fn scan_uses_exec(s: &Vec<char>) -> (r: (Vec<(Vec<char>, Option<Vec<char>>)>, Vec<char>))
    ensures
        lines_view(r.0@) == scan_uses(s@, 0).0,
        r.1@ == scan_uses(s@, 0).1,
{
    let mut lines: Vec<(Vec<char>, Option<Vec<char>>)> = Vec::new();
    let mut clean: Vec<char> = Vec::new();
    let mut p: usize = 0;
    while p < s.len()
        invariant
            p <= s.len(),
            lines_view(lines@) + scan_uses(s@, p as int).0 == scan_uses(s@, 0).0,
            clean@ + scan_uses(s@, p as int).1 == scan_uses(s@, 0).1,
        decreases s.len() - p,
    {
        let ls = p == 0 || s[p - 1] == '\n';
        let m = if ls {
            use_match_at_exec(s, p)
        } else {
            None
        };
        match m {
            Some((e, t, al)) => {
                let ghost prev = lines_view(lines@);
                let ghost tv = t@;
                let ghost av = opt_view(al);
                lines.push((t, al));
                assert(lines_view(lines@) =~= prev.push((tv, av)));
                assert(scan_uses(s@, p as int).0 =~= seq![(tv, av)] + scan_uses(s@, e as int).0);
                assert(prev.push((tv, av)) + scan_uses(s@, e as int).0 =~= prev + (seq![(tv, av)]
                    + scan_uses(s@, e as int).0));
                p = e;
            },
            None => {
                let ghost prev = clean@;
                clean.push(s[p]);
                assert(scan_uses(s@, p as int).1 =~= seq![s@[p as int]] + scan_uses(
                    s@,
                    p + 1,
                ).1);
                assert(clean@ + scan_uses(s@, p + 1).1 =~= prev + (seq![s@[p as int]]
                    + scan_uses(s@, p + 1).1));
                p = p + 1;
            },
        }
    }
    assert(lines_view(lines@) + seq![] =~= lines_view(lines@));
    assert(clean@ + seq![] =~= clean@);
    (lines, clean)
}

/// A `@use` directive of a template.
pub struct TemplateUseDirective {
    pub target: String,
    pub alias: String,
    pub wildcard: bool,
    pub path_wildcard: bool,
}

impl View for TemplateUseDirective {
    type V = UseDir;

    open spec fn view(&self) -> UseDir {
        UseDir {
            target: self.target@,
            alias: self.alias@,
            wildcard: self.wildcard,
            path_wildcard: self.path_wildcard,
        }
    }
}

/// Views of directives.
pub open spec fn dirs_view(v: Seq<TemplateUseDirective>) -> Seq<UseDir> {
    Seq::new(v.len(), |i: int| v[i]@)
}

/// The directives of one `@use` line (`line_directives`), appended to `out`.
fn push_line_directives(
    out: &mut Vec<TemplateUseDirective>,
    target_raw: &Vec<char>,
    alias_raw: &Option<Vec<char>>,
)
    ensures
        dirs_view(final(out)@) == dirs_view(old(out)@) + line_directives(
            target_raw@,
            opt_view(*alias_raw),
        ),
{
    let target = text::trim_chars(target_raw);
    let line_alias: Option<Vec<char>> = match alias_raw {
        Some(a) => Some(text::trim_chars(a)),
        None => None,
    };
    let grouped = split_grouped_use_target_exec(&target).is_some();
    let ets = expand_use_targets_exec(&target);
    let ghost ev = targets_view(ets@);
    let ghost start = dirs_view(out@);
    let ghost la = opt_view(line_alias);
    assert(la == match opt_view(*alias_raw) {
        Some(a) => Some(text::trim(a)),
        None => None::<Seq<char>>,
    });
    let ghost want = line_directives(target_raw@, opt_view(*alias_raw));
    assert(want =~= Seq::new(ev.len(), |i: int| use_directive(ev[i], la, grouped)));
    let mut i: usize = 0;
    while i < ets.len()
        invariant
            i <= ets.len(),
            ev == targets_view(ets@),
            la == opt_view(line_alias),
            want.len() == ev.len(),
            forall|k: int| 0 <= k < ev.len() ==> #[trigger] want[k] == use_directive(ev[k], la, grouped),
            dirs_view(out@) == start + want.take(i as int),
        decreases ets.len() - i,
    {
        let et_target = &ets[i].0;
        assert(ev[i as int] == (ets@[i as int].0@, opt_view(ets@[i as int].1)));
        let ghost want_alias = match ev[i as int].1 {
            Some(a) => a,
            None => match la {
                Some(l) => if !grouped {
                    l
                } else {
                    default_use_alias(ev[i as int].0)
                },
                None => default_use_alias(ev[i as int].0),
            },
        };
        let pw = wildcard_use_prefix_exec(et_target).is_some();
        let alias: Vec<char> = if pw {
            Vec::new()
        } else {
            match &ets[i].1 {
                Some(a) => {
                    let c = a.clone();
                    assert(c@ =~= a@);
                    assert(c@ == want_alias);
                    c
                },
                None => match &line_alias {
                    Some(l) => if !grouped {
                        let c = l.clone();
                        assert(c@ =~= l@);
                        assert(c@ == want_alias);
                        c
                    } else {
                        default_use_alias_exec(et_target)
                    },
                    None => default_use_alias_exec(et_target),
                },
            }
        };
        let star = alias.len() == 1 && alias[0] == '*';
        proof {
            if alias.len() == 1 && alias[0] == '*' {
                assert(alias@ =~= seq!['*']);
            }
        }
        let d = TemplateUseDirective {
            target: text::chars_to_string(et_target),
            alias: text::chars_to_string(&alias),
            wildcard: star && !pw,
            path_wildcard: pw,
        };
        proof {
            if !pw {
                assert(alias@ == want_alias);
            } else {
                assert(alias@ =~= Seq::<char>::empty());
            }
            assert(d@ == use_directive(ev[i as int], la, grouped));
        }
        let ghost prev = dirs_view(out@);
        out.push(d);
        assert(dirs_view(out@) =~= prev.push(want[i as int]));
        assert(want.take(i + 1) =~= want.take(i as int).push(want[i as int]));
        i = i + 1;
    }
    assert(want.take(ets.len() as int) =~= want);
}

/// The `@use` directives of a template and the template without its `@use`
/// lines (`extract_uses`).
pub fn extract_template_use_directives(template: &Vec<char>) -> (r: (
    Vec<TemplateUseDirective>,
    Vec<char>,
))
    ensures
        dirs_view(r.0@) == extract_uses(template@).0,
        r.1@ == extract_uses(template@).1,
{
    let (lines, clean) = scan_uses_exec(template);
    let ghost lv = lines_view(lines@);
    let mut out: Vec<TemplateUseDirective> = Vec::new();
    let mut i: usize = 0;
    assert(dirs_view(out@) =~= all_directives(lv.take(0)));
    while i < lines.len()
        invariant
            i <= lines.len(),
            lv == lines_view(lines@),
            dirs_view(out@) == all_directives(lv.take(i as int)),
        decreases lines.len() - i,
    {
        assert(lv.take(i + 1).drop_last() =~= lv.take(i as int));
        assert(lv.take(i + 1).last() == (lines@[i as int].0@, opt_view(lines@[i as int].1)));
        push_line_directives(&mut out, &lines[i].0, &lines[i].1);
        i = i + 1;
    }
    assert(lv.take(lines.len() as int) =~= lv);
    (out, clean)
}

} // verus!
