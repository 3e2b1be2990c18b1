//! Provider elements (wrappers such as a theme provider around the page):
//! the attributes of their opening tag, the tags of their direct children,
//! and the placement rules a provider imposes.
use vstd::prelude::*;
use crate::text;
use crate::expr;
use crate::render;
use crate::uses;
use crate::attrs;
use crate::keyed;
use crate::keyed::KeyedMap;

verus! {

// ---------------------------------------------------------------------------
// Attributes of an opening tag
// ---------------------------------------------------------------------------

/// A character that can start an attribute name.
pub open spec fn attr_name_start(c: char) -> bool {
    text::is_ascii_alpha(c) || c == '_' || c == ':'
}

/// A character that can continue an attribute name.
pub open spec fn attr_name_char(c: char) -> bool {
    text::is_ascii_alnum(c) || c == '_' || c == ':' || c == '-' || c == '.'
}

/// A character of an unquoted attribute value.
pub open spec fn unquoted_char(c: char) -> bool {
    !text::is_ws(c) && c != '"' && c != '\'' && c != '=' && c != '<' && c != '>' && c != '`'
}

/// An assignment `name = value` starting at `i`, the value double quoted,
/// single quoted or unquoted: its end, name and value.
pub open spec fn attr_match_at(s: Seq<char>, i: int) -> Option<(int, Seq<char>, Seq<char>)> {
    if 0 <= i < s.len() && attr_name_start(s[i]) {
        let e = expr::run_end(s, i + 1, |c: char| attr_name_char(c));
        let a = render::skip_ws(s, e);
        let b = render::skip_ws(s, a + 1);
        if a < s.len() && s[a] == '=' && b < s.len() {
            if s[b] == '"' {
                match uses::index_from(s, '"', b + 1) {
                    Some(q) => Some((q + 1, s.subrange(i, e), s.subrange(b + 1, q))),
                    None => None,
                }
            } else if s[b] == '\'' {
                match uses::index_from(s, '\'', b + 1) {
                    Some(q) => Some((q + 1, s.subrange(i, e), s.subrange(b + 1, q))),
                    None => None,
                }
            } else if unquoted_char(s[b]) {
                let u = expr::run_end(s, b, |c: char| unquoted_char(c));
                Some((u, s.subrange(i, e), s.subrange(b, u)))
            } else {
                None
            }
        } else {
            None
        }
    } else {
        None
    }
}

/// The assignments found left to right from `p`, each as (name, value).
pub open spec fn scan_attrs(s: Seq<char>, p: int) -> Seq<(Seq<char>, Seq<char>)>
    decreases s.len() - p,
{
    if p < 0 || p >= s.len() {
        seq![]
    } else {
        match attr_match_at(s, p) {
            Some(m) => if p < m.0 <= s.len() {
                seq![(m.1, m.2)] + scan_attrs(s, m.0)
            } else {
                seq![]
            },
            None => scan_attrs(s, p + 1),
        }
    }
}

/// The attributes of a provider's opening tag: each assignment, its name
/// ASCII lowercased, a later assignment of a name replacing an earlier one.
pub open spec fn provider_attributes(
    found: Seq<(Seq<char>, Seq<char>)>,
) -> Seq<(Seq<char>, Seq<char>)>
    decreases found.len(),
{
    if found.len() == 0 {
        seq![]
    } else {
        keyed::sorted_insert(
            provider_attributes(found.drop_last()),
            text::ascii_lower(found.last().0),
            found.last().1,
        )
    }
}

fn run_end_attr_name(s: &Vec<char>, start: usize) -> (e: usize)
    requires
        start <= s.len(),
    ensures
        e as int == expr::run_end(s@, start as int, |c: char| attr_name_char(c)),
        start <= e <= s.len(),
{
    let mut e = start;
    while e < s.len() && (('a' <= s[e] && s[e] <= 'z') || ('A' <= s[e] && s[e] <= 'Z') || ('0'
        <= s[e] && s[e] <= '9') || s[e] == '_' || s[e] == ':' || s[e] == '-' || s[e] == '.')
        invariant
            start <= e <= s.len(),
            forall|k: int| start <= k < e ==> attr_name_char(#[trigger] s@[k]),
        decreases s.len() - e,
    {
        e = e + 1;
    }
    proof {
        expr::lemma_run_end(s@, start as int, e as int, |c: char| attr_name_char(c));
    }
    e
}

fn is_unquoted_char(c: char) -> (r: bool)
    ensures
        r == unquoted_char(c),
{
    !text::is_ws_char(c) && c != '"' && c != '\'' && c != '=' && c != '<' && c != '>' && c != '`'
}

fn run_end_unquoted(s: &Vec<char>, start: usize) -> (e: usize)
    requires
        start <= s.len(),
    ensures
        e as int == expr::run_end(s@, start as int, |c: char| unquoted_char(c)),
        start <= e <= s.len(),
{
    let mut e = start;
    while e < s.len() && is_unquoted_char(s[e])
        invariant
            start <= e <= s.len(),
            forall|k: int| start <= k < e ==> unquoted_char(#[trigger] s@[k]),
        decreases s.len() - e,
    {
        e = e + 1;
    }
    proof {
        expr::lemma_run_end(s@, start as int, e as int, |c: char| unquoted_char(c));
    }
    e
}

fn attr_match_at_exec(s: &Vec<char>, i: usize) -> (r: Option<(usize, Vec<char>, Vec<char>)>)
    requires
        i <= s.len(),
    ensures
        r is Some <==> attr_match_at(s@, i as int) is Some,
        r is Some ==> attr_match_at(s@, i as int) == Some(
            (r.unwrap().0 as int, r.unwrap().1@, r.unwrap().2@),
        ) && i < r.unwrap().0 <= s.len(),
{
    if !(i < s.len()) {
        return None;
    }
    let c = s[i];
    if !(('a' <= c && c <= 'z') || ('A' <= c && c <= 'Z') || c == '_' || c == ':') {
        return None;
    }
    let e = run_end_attr_name(s, i + 1);
    let a = render::skip_ws_exec(s, e);
    if !(a < s.len() && s[a] == '=') {
        return None;
    }
    let b = render::skip_ws_exec(s, a + 1);
    if !(b < s.len()) {
        return None;
    }
    if s[b] == '"' {
        match uses::index_from_exec(s, '"', b + 1) {
            Some(q) => Some((q + 1, text::slice_chars(s, i, e), text::slice_chars(s, b + 1, q))),
            None => None,
        }
    } else if s[b] == '\'' {
        match uses::index_from_exec(s, '\'', b + 1) {
            Some(q) => Some((q + 1, text::slice_chars(s, i, e), text::slice_chars(s, b + 1, q))),
            None => None,
        }
    } else if is_unquoted_char(s[b]) {
        let u = run_end_unquoted(s, b);
        Some((u, text::slice_chars(s, i, e), text::slice_chars(s, b, u)))
    } else {
        None
    }
}

/// The attributes of a provider's opening tag text (`provider_attributes`
/// of `scan_attrs`).
pub fn parse_provider_attributes(raw_attrs: &str) -> (r: KeyedMap<String>)
    ensures
        r.entries_spec() == provider_attributes(scan_attrs(raw_attrs@, 0)),
{
    let s = text::str_to_chars(raw_attrs);
    let ghost all = scan_attrs(s@, 0);
    let mut out: KeyedMap<String> = KeyedMap::new();
    let ghost done: Seq<(Seq<char>, Seq<char>)> = seq![];
    let mut p: usize = 0;
    while p < s.len()
        invariant
            p <= s.len(),
            all == scan_attrs(s@, 0),
            all == done + scan_attrs(s@, p as int),
            out.entries_spec() == provider_attributes(done),
        decreases s.len() - p,
    {
        match attr_match_at_exec(&s, p) {
            Some((e, name, value)) => {
                let lower = text::lower_chars(&name);
                let key = text::chars_to_string(&lower);
                let ghost item = (name@, value@);
                out.insert(key.as_str(), text::chars_to_string(&value));
                proof {
                    assert(scan_attrs(s@, p as int) =~= seq![item] + scan_attrs(s@, e as int));
                    assert(done.push(item).drop_last() =~= done);
                    assert(done + scan_attrs(s@, p as int) =~= done.push(item) + scan_attrs(
                        s@,
                        e as int,
                    ));
                    done = done.push(item);
                }
                p = e;
            },
            None => {
                p = p + 1;
            },
        }
    }
    assert(done + seq![] =~= done);
    out
}

// ---------------------------------------------------------------------------
// Direct child tags
// ---------------------------------------------------------------------------

/// A letter of a tag name: an ASCII letter, or one of the two characters
/// that case-insensitive matching folds onto one (KELVIN SIGN onto `k`,
/// LATIN SMALL LETTER LONG S onto `s`).
pub open spec fn tag_letter(c: char) -> bool {
    text::is_ascii_alpha(c) || c == '\u{212A}' || c == '\u{17F}'
}

/// A character of a tag name after its first letter.
pub open spec fn tag_name_char(c: char) -> bool {
    tag_letter(c) || text::is_ascii_digit(c) || c == ':' || c == '-'
}

fn tag_letter_exec(c: char) -> (r: bool)
    ensures
        r == tag_letter(c),
{
    ('a' <= c && c <= 'z') || ('A' <= c && c <= 'Z') || c == '\u{212A}' || c == '\u{17F}'
}

/// A tag starting at `i`: `<`, whitespace, an optional `/`, whitespace, a
/// name (a letter, then letters, digits, `:` or `-`), anything up to the
/// next `>`. Its end, whether it closes, its name, and whether it ends in
/// `/>`.
pub open spec fn tag_match_at(s: Seq<char>, i: int) -> Option<(int, bool, Seq<char>, bool)> {
    if 0 <= i < s.len() && s[i] == '<' {
        let a = render::skip_ws(s, i + 1);
        let closing = a < s.len() && s[a] == '/';
        let b = if closing {
            render::skip_ws(s, a + 1)
        } else {
            a
        };
        if b < s.len() && tag_letter(s[b]) {
            let e = expr::run_end(s, b + 1, |c: char| tag_name_char(c));
            match uses::index_from(s, '>', e) {
                Some(g) => Some((g + 1, closing, s.subrange(b, e), g >= 1 && s[g - 1] == '/')),
                None => None,
            }
        } else {
            None
        }
    } else {
        None
    }
}

/// The tags found left to right from `p`: (closing, name, self-closing).
pub open spec fn scan_tags(s: Seq<char>, p: int) -> Seq<(bool, Seq<char>, bool)>
    decreases s.len() - p,
{
    if p < 0 || p >= s.len() {
        seq![]
    } else {
        match tag_match_at(s, p) {
            Some(m) => if p < m.0 <= s.len() {
                seq![(m.1, m.2, m.3)] + scan_tags(s, m.0)
            } else {
                seq![]
            },
            None => scan_tags(s, p + 1),
        }
    }
}

/// Nesting depth and the direct children seen after the tags `tags`:
/// closing tags leave a level (never below zero); an opening tag at depth
/// zero is a direct child (its name ASCII lowercased) and, unless it is
/// self-closing or void, enters a level.
pub open spec fn child_tags(tags: Seq<(bool, Seq<char>, bool)>) -> (nat, Seq<Seq<char>>)
    decreases tags.len(),
{
    if tags.len() == 0 {
        (0, seq![])
    } else {
        let (depth, children) = child_tags(tags.drop_last());
        let (closing, name, self_closing) = tags.last();
        let lower = text::ascii_lower(name);
        if closing {
            (if depth > 0 {
                (depth - 1) as nat
            } else {
                0
            }, children)
        } else {
            let children2 = if depth == 0 {
                children.push(lower)
            } else {
                children
            };
            (if !self_closing && !attrs::void_tag(lower) {
                depth + 1
            } else {
                depth
            }, children2)
        }
    }
}

fn run_end_tag_name(s: &Vec<char>, start: usize) -> (e: usize)
    requires
        start <= s.len(),
    ensures
        e as int == expr::run_end(s@, start as int, |c: char| tag_name_char(c)),
        start <= e <= s.len(),
{
    let mut e = start;
    while e < s.len() && (tag_letter_exec(s[e]) || ('0' <= s[e] && s[e] <= '9') || s[e] == ':'
        || s[e] == '-')
        invariant
            start <= e <= s.len(),
            forall|k: int| start <= k < e ==> tag_name_char(#[trigger] s@[k]),
        decreases s.len() - e,
    {
        e = e + 1;
    }
    proof {
        expr::lemma_run_end(s@, start as int, e as int, |c: char| tag_name_char(c));
    }
    e
}

fn tag_match_at_exec(s: &Vec<char>, i: usize) -> (r: Option<(usize, bool, Vec<char>, bool)>)
    requires
        i <= s.len(),
    ensures
        r is Some <==> tag_match_at(s@, i as int) is Some,
        r is Some ==> tag_match_at(s@, i as int) == Some(
            (r.unwrap().0 as int, r.unwrap().1, r.unwrap().2@, r.unwrap().3),
        ) && i < r.unwrap().0 <= s.len(),
{
    if !(i < s.len() && s[i] == '<') {
        return None;
    }
    let a = render::skip_ws_exec(s, i + 1);
    let closing = a < s.len() && s[a] == '/';
    let b = if closing {
        render::skip_ws_exec(s, a + 1)
    } else {
        a
    };
    if !(b < s.len() && tag_letter_exec(s[b])) {
        return None;
    }
    let e = run_end_tag_name(s, b + 1);
    match uses::index_from_exec(s, '>', e) {
        Some(g) => {
            let self_closing = g >= 1 && s[g - 1] == '/';
            Some((g + 1, closing, text::slice_chars(s, b, e), self_closing))
        },
        None => None,
    }
}

/// The ASCII-lowercased names of the direct child elements in a provider's
/// inner HTML (`child_tags` of `scan_tags`).
pub fn extract_direct_child_tags(inner_html: &str) -> (r: Vec<String>)
    ensures
        Seq::new(r@.len(), |i: int| r@[i]@) == child_tags(scan_tags(inner_html@, 0)).1,
{
    let s = text::str_to_chars(inner_html);
    let ghost all = scan_tags(s@, 0);
    let ghost done: Seq<(bool, Seq<char>, bool)> = seq![];
    let mut depth: usize = 0;
    let mut children: Vec<String> = Vec::new();
    let mut p: usize = 0;
    while p < s.len()
        invariant
            p <= s.len(),
            all == scan_tags(s@, 0),
            all == done + scan_tags(s@, p as int),
            depth <= p,
            depth as nat == child_tags(done).0,
            Seq::new(children@.len(), |i: int| children@[i]@) == child_tags(done).1,
        decreases s.len() - p,
    {
        match tag_match_at_exec(&s, p) {
            Some((e, closing, name, self_closing)) => {
                let ghost item = (closing, name@, self_closing);
                let lower = text::lower_chars(&name);
                if closing {
                    if depth > 0 {
                        depth = depth - 1;
                    }
                } else {
                    if depth == 0 {
                        let ghost prev = Seq::new(children@.len(), |i: int| children@[i]@);
                        children.push(text::chars_to_string(&lower));
                        assert(Seq::new(children@.len(), |i: int| children@[i]@) =~= prev.push(
                            lower@,
                        ));
                    }
                    let ls = text::chars_to_string(&lower);
                    if !self_closing && !attrs::is_void_html_tag(ls.as_str()) {
                        depth = depth + 1;
                    }
                }
                proof {
                    assert(scan_tags(s@, p as int) =~= seq![item] + scan_tags(s@, e as int));
                    assert(done.push(item).drop_last() =~= done);
                    assert(done + scan_tags(s@, p as int) =~= done.push(item) + scan_tags(
                        s@,
                        e as int,
                    ));
                    done = done.push(item);
                }
                p = e;
            },
            None => {
                p = p + 1;
            },
        }
    }
    children
}

// ---------------------------------------------------------------------------
// Placement rules
// ---------------------------------------------------------------------------

/// Which children a provider accepts.
pub enum ProviderChildPolicy {
    /// Any child.
    Any,
    /// Only children with these tags (ASCII case ignored).
    Only(Vec<String>),
}

/// The placement rules of a provider.
pub struct ProviderRules {
    pub allow_in_head: bool,
    pub requires_body_child: bool,
    pub child_policy: ProviderChildPolicy,
}

/// `a` and `b` are equal ignoring ASCII case.
pub open spec fn eq_ignore_case(a: Seq<char>, b: Seq<char>) -> bool {
    text::ascii_lower(a) == text::ascii_lower(b)
}

/// The first child whose tag the allowed list does not hold, if any.
pub open spec fn first_disallowed(children: Seq<Seq<char>>, allowed: Seq<Seq<char>>) -> Option<
    Seq<char>,
>
    decreases children.len(),
{
    if children.len() == 0 {
        None
    } else if !(exists|k: int|
        0 <= k < allowed.len() && eq_ignore_case(#[trigger] allowed[k], children[0])) {
        Some(children[0])
    } else {
        first_disallowed(children.drop_first(), allowed)
    }
}

/// Why a provider cannot stand where it does: in the head when that is not
/// allowed; without a direct `body` child when one is required; with a
/// child its policy does not allow (the first one). `None` when it can.
pub open spec fn provider_rule_error(
    allow_in_head: bool,
    requires_body_child: bool,
    only: Option<Seq<Seq<char>>>,
    children: Seq<Seq<char>>,
    in_head: bool,
) -> Option<Seq<char>> {
    if in_head && !allow_in_head {
        Some("<head> placement is not allowed"@)
    } else if requires_body_child && !(exists|k: int|
        0 <= k < children.len() && eq_ignore_case(#[trigger] children[k], "body"@)) {
        Some("expected a direct <body> child"@)
    } else {
        match only {
            None => None,
            Some(allowed) => match first_disallowed(children, allowed) {
                Some(c) => Some("child <"@ + c + "> is not allowed"@),
                None => None,
            },
        }
    }
}

fn eq_ignore_case_exec(a: &Vec<char>, b: &Vec<char>) -> (r: bool)
    ensures
        r == eq_ignore_case(a@, b@),
{
    let la = text::lower_chars(a);
    let lb = text::lower_chars(b);
    text::chars_eq(&la, &lb)
}

fn contains_ignore_case(list: &Vec<String>, x: &Vec<char>) -> (r: bool)
    ensures
        r == exists|k: int| 0 <= k < list@.len() && eq_ignore_case(#[trigger] list@[k]@, x@),
{
    let mut k: usize = 0;
    while k < list.len()
        invariant
            k <= list.len(),
            forall|j: int| 0 <= j < k ==> !eq_ignore_case(#[trigger] list@[j]@, x@),
        decreases list.len() - k,
    {
        let c = text::str_to_chars(list[k].as_str());
        if eq_ignore_case_exec(&c, x) {
            return true;
        }
        k = k + 1;
    }
    false
}

/// Checks a provider's placement (`provider_rule_error`): `Err` with the
/// reason when it is misplaced.
#[verifier::loop_isolation(false)]
pub fn validate_provider_rules(rules: &ProviderRules, child_tags: &Vec<String>, in_head: bool) -> (r:
    Result<(), String>)
    ensures
        match provider_rule_error(
            rules.allow_in_head,
            rules.requires_body_child,
            match &rules.child_policy {
                ProviderChildPolicy::Any => None,
                ProviderChildPolicy::Only(v) => Some(Seq::new(v@.len(), |i: int| v@[i]@)),
            },
            Seq::new(child_tags@.len(), |i: int| child_tags@[i]@),
            in_head,
        ) {
            Some(msg) => r is Err && r->Err_0@ == msg,
            None => r is Ok,
        },
{
    let ghost cv = Seq::new(child_tags@.len(), |i: int| child_tags@[i]@);
    if in_head && !rules.allow_in_head {
        return Err(String::from_str("<head> placement is not allowed"));
    }
    if rules.requires_body_child {
        let mut found = false;
        let mut k: usize = 0;
        let body = text::str_to_chars("body");
        while k < child_tags.len()
            invariant
                k <= child_tags.len(),
                cv == Seq::new(child_tags@.len(), |i: int| child_tags@[i]@),
                found == exists|j: int| 0 <= j < k && eq_ignore_case(#[trigger] cv[j], body@),
            decreases child_tags.len() - k,
        {
            let c = text::str_to_chars(child_tags[k].as_str());
            if eq_ignore_case_exec(&c, &body) {
                found = true;
            }
            assert(cv[k as int] == c@);
            k = k + 1;
        }
        if !found {
            return Err(String::from_str("expected a direct <body> child"));
        }
    }
    match &rules.child_policy {
        ProviderChildPolicy::Any => Ok(()),
        ProviderChildPolicy::Only(allowed) => {
            let ghost av = Seq::new(allowed@.len(), |i: int| allowed@[i]@);
            let mut k: usize = 0;
            assert(cv.skip(0) =~= cv);
            while k < child_tags.len()
                invariant
                    k <= child_tags.len(),
                    cv == Seq::new(child_tags@.len(), |i: int| child_tags@[i]@),
                    av == Seq::new(allowed@.len(), |i: int| allowed@[i]@),
                    first_disallowed(cv, av) == first_disallowed(cv.skip(k as int), av),
                decreases child_tags.len() - k,
            {
                let c = text::str_to_chars(child_tags[k].as_str());
                assert(cv.skip(k as int)[0] == c@);
                assert(cv.skip(k as int).drop_first() =~= cv.skip(k + 1));
                if !contains_ignore_case(allowed, &c) {
                    assert(!(exists|j: int| 0 <= j < av.len() && eq_ignore_case(#[trigger] av[j], c@))) by {
                        assert forall|j: int| 0 <= j < av.len() implies !eq_ignore_case(#[trigger] av[j], c@) by {
                            assert(av[j] == allowed@[j]@);
                        }
                    }
                    let mut msg: Vec<char> = Vec::new();
                    text::append_str(&mut msg, "child <");
                    text::append_chars(&mut msg, &c);
                    text::append_str(&mut msg, "> is not allowed");
                    assert(msg@ =~= "child <"@ + c@ + "> is not allowed"@);
                    assert(first_disallowed(cv.skip(k as int), av) == Some(c@));
                    return Err(text::chars_to_string(&msg));
                }
                proof {
                    let j = choose|j: int| 0 <= j < allowed@.len() && eq_ignore_case(#[trigger] allowed@[j]@, c@);
                    assert(av[j] == allowed@[j]@);
                }
                k = k + 1;
            }
            Ok(())
        },
    }
}

} // verus!
