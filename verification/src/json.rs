//! JSON values as the template language sees them, with the operations the
//! expression evaluator applies to them: truthiness, equality, rendering,
//! property and index lookup.
use vstd::prelude::*;
use crate::text;

verus! {

/// A JSON number. Integers keep the integer form that JSON text gave them;
/// every other number is kept as `mantissa * 10^exponent` in canonical form
/// (the mantissa has no trailing zero digit, and zero is `Float(0, 0)`).
#[derive(Debug, Clone, Copy, PartialEq, Eq)]
pub enum JsonNumber {
    Int(i128),
    Float(i64, i32),
}

/// Mathematical view of a [`JsonNumber`].
pub enum NumV {
    Int(int),
    Float(int, int),
}

impl View for JsonNumber {
    type V = NumV;

    open spec fn view(&self) -> NumV {
        match *self {
            JsonNumber::Int(n) => NumV::Int(n as int),
            JsonNumber::Float(m, e) => NumV::Float(m as int, e as int),
        }
    }
}

/// A JSON value. Object entries keep the order in which they were given.
#[derive(Debug)]
pub enum JsonValue {
    Null,
    Bool(bool),
    Number(JsonNumber),
    String(String),
    Array(Vec<JsonValue>),
    Object(Vec<(String, JsonValue)>),
}

/// Views of a sequence of object entries.
pub open spec fn entries_view(e: Seq<(String, JsonValue)>) -> Seq<(Seq<char>, JsonV)> {
    Seq::new(e.len(), |i: int| (e[i].0@, e[i].1@))
}

/// Views of a sequence of values.
pub open spec fn values_view(s: Seq<JsonValue>) -> Seq<JsonV> {
    Seq::new(s.len(), |i: int| s[i]@)
}

/// Mathematical view of a [`JsonValue`].
pub enum JsonV {
    Null,
    Bool(bool),
    Num(NumV),
    Str(Seq<char>),
    Arr(Seq<JsonV>),
    Obj(Seq<(Seq<char>, JsonV)>),
}

impl JsonValue {
    /// The mathematical value of a JSON value.
    pub open spec fn view_of(self) -> JsonV
        decreases self,
    {
        match self {
            JsonValue::Null => JsonV::Null,
            JsonValue::Bool(b) => JsonV::Bool(b),
            JsonValue::Number(n) => JsonV::Num(n@),
            JsonValue::String(s) => JsonV::Str(s@),
            JsonValue::Array(v) => JsonV::Arr(
                Seq::new(
                    v@.len(),
                    |i: int|
                        if 0 <= i < v@.len() {
                            v@[i].view_of()
                        } else {
                            JsonV::Null
                        },
                ),
            ),
            JsonValue::Object(v) => JsonV::Obj(
                Seq::new(
                    v@.len(),
                    |i: int|
                        if 0 <= i < v@.len() {
                            (v@[i].0@, v@[i].1.view_of())
                        } else {
                            (Seq::empty(), JsonV::Null)
                        },
                ),
            ),
        }
    }
}

impl View for JsonValue {
    type V = JsonV;

    open spec fn view(&self) -> JsonV {
        self.view_of()
    }
}

/// Ten to the power `n`.
pub open spec fn pow10(n: nat) -> int
    decreases n,
{
    if n == 0 {
        1
    } else {
        10 * pow10((n - 1) as nat)
    }
}

/// Numeric equality of two numbers (floats are canonical, so two floats are
/// equal exactly when their mantissas and exponents are).
pub open spec fn num_eq(a: NumV, b: NumV) -> bool {
    match (a, b) {
        (NumV::Int(x), NumV::Int(y)) => x == y,
        (NumV::Float(m1, e1), NumV::Float(m2, e2)) => m1 == m2 && e1 == e2,
        (NumV::Int(x), NumV::Float(m, e)) => e >= 0 && x == m * pow10(e as nat),
        (NumV::Float(m, e), NumV::Int(x)) => e >= 0 && x == m * pow10(e as nat),
    }
}

/// A number equal to zero.
pub open spec fn num_is_zero(n: NumV) -> bool {
    match n {
        NumV::Int(x) => x == 0,
        NumV::Float(m, _) => m == 0,
    }
}

/// Decimal rendering of an integer.
pub open spec fn int_to_decimal(x: int) -> Seq<char> {
    if x < 0 {
        seq!['-'] + text::nat_to_decimal((-x) as nat)
    } else {
        text::nat_to_decimal(x as nat)
    }
}

/// `n` zero digits (none when `n` is not positive).
pub open spec fn zeros(n: int) -> Seq<char> {
    Seq::new(if n < 0 {
        0
    } else {
        n as nat
    }, |i: int| '0')
}

/// Shortest-form rendering of a float given its digits `d` (no trailing zero)
/// and the exponent `k` of its last digit; the layout of serde_json's float
/// output.
pub open spec fn float_layout(d: Seq<char>, k: int) -> Seq<char> {
    let len = d.len() as int;
    let kk = len + k;
    if 0 <= k && kk <= 16 {
        d + zeros(k) + seq!['.', '0']
    } else if 0 < kk && kk <= 16 {
        d.take(kk) + seq!['.'] + d.skip(kk)
    } else if -5 < kk && kk <= 0 {
        seq!['0', '.'] + zeros(-kk) + d
    } else if len == 1 {
        d + seq!['e'] + int_to_decimal(kk - 1)
    } else {
        d.take(1) + seq!['.'] + d.skip(1) + seq!['e'] + int_to_decimal(kk - 1)
    }
}

/// How a number is written out (`Display`).
pub open spec fn number_text(n: NumV) -> Seq<char> {
    match n {
        NumV::Int(x) => int_to_decimal(x),
        NumV::Float(m, e) => if m == 0 {
            seq!['0', '.', '0']
        } else if m < 0 {
            seq!['-'] + float_layout(text::nat_to_decimal((-m) as nat), e)
        } else {
            float_layout(text::nat_to_decimal(m as nat), e)
        },
    }
}

/// Truthiness of a value in `@if` conditions and logical operators.
pub open spec fn truthy(v: JsonV) -> bool {
    match v {
        JsonV::Bool(b) => b,
        JsonV::Null => false,
        JsonV::Num(n) => !num_is_zero(n),
        JsonV::Str(s) => {
            let t = text::ascii_lower(text::trim(s));
            if t == "true"@ {
                true
            } else if t == "false"@ || t.len() == 0 {
                false
            } else {
                true
            }
        },
        JsonV::Arr(items) => items.len() > 0,
        JsonV::Obj(entries) => entries.len() > 0,
    }
}

/// Equality used by `==` and `!=`: numbers compare by value at the top level,
/// every other pair structurally.
pub open spec fn json_eq(a: JsonV, b: JsonV) -> bool {
    match (a, b) {
        (JsonV::Num(x), JsonV::Num(y)) => num_eq(x, y),
        _ => a == b,
    }
}

/// Text of a scalar value (strings as they are, numbers and booleans as
/// written out); `None` for null, arrays and objects.
pub open spec fn scalar_text(v: JsonV) -> Option<Seq<char>> {
    match v {
        JsonV::Bool(b) => Some(
            if b {
                "true"@
            } else {
                "false"@
            },
        ),
        JsonV::Num(n) => Some(number_text(n)),
        JsonV::Str(s) => Some(s),
        _ => None,
    }
}

/// Index of the first entry with key `key`.
pub open spec fn find_key(entries: Seq<(Seq<char>, JsonV)>, key: Seq<char>) -> Option<int> {
    find_key_from(entries, key, 0)
}

/// Index of the first entry at or after `i` with key `key`.
pub open spec fn find_key_from(entries: Seq<(Seq<char>, JsonV)>, key: Seq<char>, i: int) -> Option<
    int,
>
    decreases entries.len() - i,
{
    if i < 0 || i >= entries.len() {
        None
    } else if entries[i].0 == key {
        Some(i)
    } else {
        find_key_from(entries, key, i + 1)
    }
}

/// `value.key`: the member of an object, `null` otherwise.
pub open spec fn property(v: JsonV, key: Seq<char>) -> JsonV {
    match v {
        JsonV::Obj(entries) => match find_key(entries, key) {
            Some(i) => entries[i].1,
            None => JsonV::Null,
        },
        _ => JsonV::Null,
    }
}

/// `value[index]`: array element by non-negative integer, object member by
/// string, `null` otherwise.
pub open spec fn index_value(v: JsonV, index: JsonV) -> JsonV {
    match (v, index) {
        (JsonV::Arr(items), JsonV::Num(NumV::Int(n))) => if 0 <= n < items.len() {
            items[n]
        } else {
            JsonV::Null
        },
        (JsonV::Obj(_), JsonV::Str(k)) => property(v, k),
        _ => JsonV::Null,
    }
}

/// `needle` occurs in `text`.
pub open spec fn has_substring(text: Seq<char>, needle: Seq<char>) -> bool {
    exists|i: int|
        0 <= i <= text.len() - needle.len() && #[trigger] text.subrange(i, i + needle.len())
            == needle
}

/// The value of `target.method(args)` in a template expression.
pub open spec fn method_value(target: JsonV, method: Seq<char>, args: Seq<JsonV>) -> JsonV {
    let m = text::ascii_lower(method);
    if m == "startswidth"@ || m == "startswith"@ {
        if args.len() > 0 && scalar_text(args[0]) is Some && scalar_text(target) is Some {
            JsonV::Bool(scalar_text(args[0])->0.is_prefix_of(scalar_text(target)->0))
        } else {
            JsonV::Bool(false)
        }
    } else if m == "endswidth"@ || m == "endswith"@ {
        if args.len() > 0 && scalar_text(args[0]) is Some && scalar_text(target) is Some {
            JsonV::Bool(scalar_text(args[0])->0.is_suffix_of(scalar_text(target)->0))
        } else {
            JsonV::Bool(false)
        }
    } else if m == "contains"@ {
        if args.len() == 0 {
            JsonV::Bool(false)
        } else {
            match target {
                JsonV::Str(text) => match scalar_text(args[0]) {
                    Some(needle) => JsonV::Bool(has_substring(text, needle)),
                    None => JsonV::Bool(false),
                },
                JsonV::Arr(items) => JsonV::Bool(
                    exists|i: int| 0 <= i < items.len() && json_eq(#[trigger] items[i], args[0]),
                ),
                JsonV::Obj(entries) => match scalar_text(args[0]) {
                    Some(k) => JsonV::Bool(find_key(entries, k) is Some),
                    None => JsonV::Bool(false),
                },
                _ => JsonV::Bool(false),
            }
        }
    } else if args.len() == 0 {
        if "get_"@.is_prefix_of(m) {
            property(target, m.skip(4))
        } else {
            JsonV::Null
        }
    } else {
        JsonV::Null
    }
}

// ---------------------------------------------------------------------------
// Executable operations
// ---------------------------------------------------------------------------

/// A copy of `x` with the same view.
#[verifier::loop_isolation(false)]
pub fn json_clone(x: &JsonValue) -> (r: JsonValue)
    ensures
        r@ == x@,
    decreases x,
{
    match x {
        JsonValue::Null => JsonValue::Null,
        JsonValue::Bool(b) => JsonValue::Bool(*b),
        JsonValue::Number(n) => JsonValue::Number(*n),
        JsonValue::String(s) => JsonValue::String(s.clone()),
        JsonValue::Array(v) => {
            let mut out: Vec<JsonValue> = Vec::new();
            let mut i: usize = 0;
            while i < v.len()
                invariant
                    i <= v.len(),
                    out.len() == i,
                    forall|k: int| 0 <= k < i ==> out@[k]@ == v@[k]@,
                decreases v.len() - i,
            {
                proof {
                    assert(decreases_to!(*x => *v));
                    assert(decreases_to!(*v => v@));
                    assert(decreases_to!(v@ => v@[i as int]));
                }
                let c = json_clone(&v[i]);
                out.push(c);
                i += 1;
            }
            let r = JsonValue::Array(out);
            assert(r@->Arr_0 =~= x@->Arr_0);
            r
        },
        JsonValue::Object(v) => {
            let mut out: Vec<(String, JsonValue)> = Vec::new();
            let mut i: usize = 0;
            while i < v.len()
                invariant
                    i <= v.len(),
                    out.len() == i,
                    forall|k: int| 0 <= k < i ==> out@[k].0@ == v@[k].0@ && out@[k].1@ == v@[k].1@,
                decreases v.len() - i,
            {
                proof {
                    assert(decreases_to!(*x => *v));
                    assert(decreases_to!(*v => v@));
                    assert(decreases_to!(v@ => v@[i as int]));
                    assert(decreases_to!(v@[i as int] => v@[i as int].1));
                }
                let c = json_clone(&v[i].1);
                out.push((v[i].0.clone(), c));
                i += 1;
            }
            let r = JsonValue::Object(out);
            assert(r@->Obj_0 =~= x@->Obj_0);
            r
        },
    }
}

/// Structural equality of two values (`a@ == b@`).
#[verifier::loop_isolation(false)]
pub fn json_struct_eq(a: &JsonValue, b: &JsonValue) -> (r: bool)
    ensures
        r == (a@ == b@),
    decreases a,
{
    match (a, b) {
        (JsonValue::Null, JsonValue::Null) => true,
        (JsonValue::Bool(x), JsonValue::Bool(y)) => *x == *y,
        (JsonValue::Number(x), JsonValue::Number(y)) => {
            match (x, y) {
                (JsonNumber::Int(p), JsonNumber::Int(q)) => *p == *q,
                (JsonNumber::Float(m1, e1), JsonNumber::Float(m2, e2)) => *m1 == *m2 && *e1
                    == *e2,
                _ => false,
            }
        },
        (JsonValue::String(x), JsonValue::String(y)) => *x == *y,
        (JsonValue::Array(v), JsonValue::Array(w)) => {
            if v.len() != w.len() {
                assert(a@->Arr_0.len() != b@->Arr_0.len());
                return false;
            }
            let mut i: usize = 0;
            while i < v.len()
                invariant
                    i <= v.len(),
                    v.len() == w.len(),
                    forall|k: int| 0 <= k < i ==> v@[k]@ == w@[k]@,
                decreases v.len() - i,
            {
                proof {
                    assert(decreases_to!(*a => *v));
                    assert(decreases_to!(*v => v@));
                    assert(decreases_to!(v@ => v@[i as int]));
                }
                if !json_struct_eq(&v[i], &w[i]) {
                    assert(a@->Arr_0[i as int] != b@->Arr_0[i as int]);
                    return false;
                }
                i += 1;
            }
            assert(a@->Arr_0 =~= b@->Arr_0);
            true
        },
        (JsonValue::Object(v), JsonValue::Object(w)) => {
            if v.len() != w.len() {
                assert(a@->Obj_0.len() != b@->Obj_0.len());
                return false;
            }
            let mut i: usize = 0;
            while i < v.len()
                invariant
                    i <= v.len(),
                    v.len() == w.len(),
                    forall|k: int| 0 <= k < i ==> v@[k].0@ == w@[k].0@ && v@[k].1@ == w@[k].1@,
                decreases v.len() - i,
            {
                proof {
                    assert(decreases_to!(*a => *v));
                    assert(decreases_to!(*v => v@));
                    assert(decreases_to!(v@ => v@[i as int]));
                    assert(decreases_to!(v@[i as int] => v@[i as int].1));
                }
                if v[i].0 != w[i].0 {
                    assert(a@->Obj_0[i as int].0 != b@->Obj_0[i as int].0);
                    return false;
                }
                if !json_struct_eq(&v[i].1, &w[i].1) {
                    assert(a@->Obj_0[i as int].1 != b@->Obj_0[i as int].1);
                    return false;
                }
                i += 1;
            }
            assert(a@->Obj_0 =~= b@->Obj_0);
            true
        },
        _ => false,
    }
}


fn push_zeros(v: &mut Vec<char>, n: usize)
    ensures
        final(v)@ == old(v)@ + zeros(n as int),
{
    let ghost v0 = v@;
    let mut i: usize = 0;
    while i < n
        invariant
            i <= n,
            v@ == v0 + zeros(i as int),
        decreases n - i,
    {
        v.push('0');
        assert(v0 + zeros(i as int).push('0') =~= v0 + zeros(i + 1));
        i = i + 1;
    }
}

/// Magnitude of an `i128` as a `u128`.
fn i128_magnitude(x: i128) -> (r: u128)
    ensures
        r as int == (if x < 0 {
            -x
        } else {
            x as int
        }),
{
    if x < 0 {
        ((-(x + 1)) as u128) + 1
    } else {
        x as u128
    }
}

fn int_text(x: i128) -> (r: Vec<char>)
    ensures
        r@ == int_to_decimal(x as int),
{
    let mag = i128_magnitude(x);
    let digits = text::u128_to_chars(mag);
    if x < 0 {
        let mut r = Vec::new();
        r.push('-');
        text::append_chars(&mut r, &digits);
        r
    } else {
        digits
    }
}

fn float_layout_exec(d: &Vec<char>, k: i32) -> (r: Vec<char>)
    requires
        1 <= d.len() <= 40,
    ensures
        r@ == float_layout(d@, k as int),
{
    let len = d.len() as i64;
    let kk: i64 = len + k as i64;
    let mut r: Vec<char> = Vec::new();
    if 0 <= k && kk <= 16 {
        text::append_chars(&mut r, d);
        push_zeros(&mut r, k as usize);
        r.push('.');
        r.push('0');
        assert(r@ =~= d@ + zeros(k as int) + seq!['.', '0']);
    } else if 0 < kk && kk <= 16 {
        let a = text::slice_chars(d, 0, kk as usize);
        let b = text::slice_chars(d, kk as usize, d.len());
        text::append_chars(&mut r, &a);
        r.push('.');
        text::append_chars(&mut r, &b);
        assert(r@ =~= d@.take(kk as int) + seq!['.'] + d@.skip(kk as int));
    } else if -5 < kk && kk <= 0 {
        r.push('0');
        r.push('.');
        push_zeros(&mut r, (-kk) as usize);
        text::append_chars(&mut r, d);
        assert(r@ =~= seq!['0', '.'] + zeros(-kk) + d@);
    } else {
        let ex = int_text((kk - 1) as i128);
        if len == 1 {
            text::append_chars(&mut r, d);
            r.push('e');
            text::append_chars(&mut r, &ex);
            assert(r@ =~= d@ + seq!['e'] + int_to_decimal(kk - 1));
        } else {
            let a = text::slice_chars(d, 0, 1);
            let b = text::slice_chars(d, 1, d.len());
            text::append_chars(&mut r, &a);
            r.push('.');
            text::append_chars(&mut r, &b);
            r.push('e');
            text::append_chars(&mut r, &ex);
            assert(r@ =~= d@.take(1) + seq!['.'] + d@.skip(1) + seq!['e'] + int_to_decimal(
                kk - 1,
            ));
        }
    }
    r
}

proof fn lemma_decimal_len(n: nat)
    ensures
        1 <= text::nat_to_decimal(n).len(),
        n < pow10(20) ==> text::nat_to_decimal(n).len() <= 20,
    decreases n,
{
    if n >= 10 {
        lemma_decimal_len(n / 10);
        assert(pow10(20) == 10 * pow10(19)) by {
            reveal_with_fuel(pow10, 2);
        }
        if n < pow10(20) {
            lemma_decimal_len_bound(n / 10, 19);
        }
    }
}

proof fn lemma_decimal_len_bound(n: nat, k: nat)
    requires
        n < pow10(k),
    ensures
        text::nat_to_decimal(n).len() <= if k == 0 {
            1
        } else {
            k
        },
    decreases n,
{
    if n >= 10 {
        assert(k >= 2) by {
            if k < 2 {
                reveal_with_fuel(pow10, 3);
            }
        }
        assert(pow10(k) == 10 * pow10((k - 1) as nat));
        assert(n / 10 < pow10((k - 1) as nat)) by (nonlinear_arith)
            requires
                n < 10 * pow10((k - 1) as nat),
        ;
        lemma_decimal_len_bound(n / 10, (k - 1) as nat);
    }
}

proof fn lemma_pow10_19()
    ensures
        pow10(19) == 10000000000000000000,
        pow10(20) == 100000000000000000000,
{
    reveal_with_fuel(pow10, 21);
}

/// How a number is written out (`Display`).
pub fn number_text_exec(n: &JsonNumber) -> (r: Vec<char>)
    ensures
        r@ == number_text(n@),
{
    match *n {
        JsonNumber::Int(x) => int_text(x),
        JsonNumber::Float(m, e) => {
            if m == 0 {
                let mut r = Vec::new();
                r.push('0');
                r.push('.');
                r.push('0');
                assert(r@ =~= seq!['0', '.', '0']);
                return r;
            }
            let mag = i128_magnitude(m as i128);
            let d = text::u128_to_chars(mag);
            proof {
                lemma_pow10_19();
                lemma_decimal_len(mag as nat);
            }
            let body = float_layout_exec(&d, e);
            if m < 0 {
                let mut r = Vec::new();
                r.push('-');
                text::append_chars(&mut r, &body);
                r
            } else {
                body
            }
        },
    }
}

/// Whether a number is non-zero.
pub fn number_nonzero(n: &JsonNumber) -> (r: bool)
    ensures
        r == !num_is_zero(n@),
{
    match *n {
        JsonNumber::Int(x) => x != 0,
        JsonNumber::Float(m, _) => m != 0,
    }
}

proof fn lemma_pow10_step(b: int, k: nat)
    ensures
        b * pow10(k + 1) == 10 * (b * pow10(k)),
{
    assert(pow10(k + 1) == 10 * pow10(k));
    assert(b * (10 * pow10(k)) == 10 * (b * pow10(k))) by (nonlinear_arith);
}

proof fn lemma_pow10_pos(k: nat)
    ensures
        pow10(k) >= 1,
        k >= 1 ==> pow10(k) >= 10,
    decreases k,
{
    if k > 0 {
        lemma_pow10_pos((k - 1) as nat);
    }
}

/// Whether the integer `x` equals `m * 10^e` with `e >= 0`.
fn int_matches_float(x: i128, m: i64, e: i32) -> (r: bool)
    ensures
        r == (e >= 0 && x as int == m as int * pow10(e as nat)),
{
    if e < 0 {
        return false;
    }
    if m == 0 {
        assert(0 * pow10(e as nat) == 0);
        return x == 0;
    }
    if (x < 0) != (m < 0) {
        proof {
            lemma_pow10_pos(e as nat);
            if m < 0 {
                assert(m as int * pow10(e as nat) < 0) by (nonlinear_arith)
                    requires
                        m < 0,
                        pow10(e as nat) >= 1,
                ;
            } else {
                assert(m as int * pow10(e as nat) > 0) by (nonlinear_arith)
                    requires
                        m > 0,
                        pow10(e as nat) >= 1,
                ;
            }
        }
        return false;
    }
    let xm = i128_magnitude(x);
    let mm = i128_magnitude(m as i128);
    let ghost neg = m < 0;
    assert((x as int == m as int * pow10(e as nat)) == (xm as int == mm as int * pow10(
        e as nat,
    ))) by (nonlinear_arith)
        requires
            xm as int == (if x < 0 {
                -x
            } else {
                x as int
            }),
            mm as int == (if m < 0 {
                -m
            } else {
                m as int
            }),
            (x < 0) == (m < 0),
    ;
    let mut q: u128 = xm;
    let mut j: i32 = 0;
    while j < e
        invariant
            0 <= j <= e,
            mm > 0,
            (x as int == m as int * pow10(e as nat)) == (xm as int == mm as int * pow10(
                e as nat,
            )),
            (xm as int == mm as int * pow10(e as nat)) == (q as int == mm as int * pow10(
                (e - j) as nat,
            )),
        decreases e - j,
    {
        proof {
            lemma_pow10_step(mm as int, (e - j - 1) as nat);
        }
        assert(((e - j - 1) as nat) + 1 == (e - j) as nat);
        if q % 10 != 0 {
            assert(q as int != 10 * (mm as int * pow10((e - j - 1) as nat))) by (nonlinear_arith)
                requires
                    q % 10 != 0,
            ;
            return false;
        }
        assert((q as int == 10 * (mm as int * pow10((e - j - 1) as nat))) == (q / 10 == mm as int
            * pow10((e - j - 1) as nat))) by (nonlinear_arith)
            requires
                q % 10 == 0,
        ;
        q = q / 10;
        j = j + 1;
    }
    assert(pow10(0) == 1);
    q == mm
}

/// Numeric equality (`num_eq`).
pub fn number_eq(a: &JsonNumber, b: &JsonNumber) -> (r: bool)
    ensures
        r == num_eq(a@, b@),
{
    match (*a, *b) {
        (JsonNumber::Int(x), JsonNumber::Int(y)) => x == y,
        (JsonNumber::Float(m1, e1), JsonNumber::Float(m2, e2)) => m1 == m2 && e1 == e2,
        (JsonNumber::Int(x), JsonNumber::Float(m, e)) => int_matches_float(x, m, e),
        (JsonNumber::Float(m, e), JsonNumber::Int(x)) => int_matches_float(x, m, e),
    }
}

/// Truthiness (`truthy`).
pub fn value_truthy(v: &JsonValue) -> (r: bool)
    ensures
        r == truthy(v@),
{
    match v {
        JsonValue::Bool(b) => *b,
        JsonValue::Null => false,
        JsonValue::Number(n) => number_nonzero(n),
        JsonValue::String(s) => {
            let cs = text::str_to_chars(s.as_str());
            let t = text::lower_chars(&text::trim_chars(&cs));
            if text::chars_eq_str(&t, "true") {
                true
            } else if text::chars_eq_str(&t, "false") || t.len() == 0 {
                false
            } else {
                true
            }
        },
        JsonValue::Array(items) => items.len() > 0,
        JsonValue::Object(entries) => entries.len() > 0,
    }
}

/// Equality of `==` and `!=` (`json_eq`).
pub fn json_values_equal(a: &JsonValue, b: &JsonValue) -> (r: bool)
    ensures
        r == json_eq(a@, b@),
{
    match (a, b) {
        (JsonValue::Number(x), JsonValue::Number(y)) => number_eq(x, y),
        _ => json_struct_eq(a, b),
    }
}

/// Text of a scalar value (`scalar_text`).
pub fn value_to_inline_string(v: &JsonValue) -> (r: Option<Vec<char>>)
    ensures
        match scalar_text(v@) {
            Some(t) => r is Some && r->0@ == t,
            None => r is None,
        },
{
    match v {
        JsonValue::Bool(b) => {
            if *b {
                Some(text::str_to_chars("true"))
            } else {
                Some(text::str_to_chars("false"))
            }
        },
        JsonValue::Number(n) => Some(number_text_exec(n)),
        JsonValue::String(s) => Some(text::str_to_chars(s.as_str())),
        _ => None,
    }
}

/// First entry index with the given key (`find_key`).
pub fn find_key_exec(entries: &Vec<(String, JsonValue)>, key: &Vec<char>) -> (r: Option<usize>)
    ensures
        match find_key(entries_view(entries@), key@) {
            Some(i) => r is Some && r->0 as int == i,
            None => r is None,
        },
        r is Some ==> r->0 < entries.len(),
{
    let ghost es = entries_view(entries@);
    let mut i: usize = 0;
    while i < entries.len()
        invariant
            i <= entries.len(),
            es == entries_view(entries@),
            find_key_from(es, key@, 0) == find_key_from(es, key@, i as int),
        decreases entries.len() - i,
    {
        let kc = text::str_to_chars(entries[i].0.as_str());
        if text::chars_eq(&kc, key) {
            assert(es[i as int].0 == key@);
            return Some(i);
        }
        assert(es[i as int].0 != key@);
        i = i + 1;
    }
    None
}

/// `value.key` (`property`).
pub fn resolve_json_property(v: &JsonValue, key: &Vec<char>) -> (r: JsonValue)
    ensures
        r@ == property(v@, key@),
{
    match v {
        JsonValue::Object(entries) => {
            assert(entries_view(entries@) =~= v@->Obj_0);
            assert(v@ == JsonV::Obj(v@->Obj_0));
            assert(find_key(v@->Obj_0, key@) == find_key(entries_view(entries@), key@));
            match find_key_exec(entries, key) {
                Some(i) => {
                    assert(entries_view(entries@)[i as int].1 == entries@[i as int].1@);
                    assert(v@->Obj_0[i as int].1 == entries@[i as int].1@);
                    assert(find_key(v@->Obj_0, key@) == Some(i as int));
                    assert(property(v@, key@) == v@->Obj_0[i as int].1);
                    json_clone(&entries[i].1)
                },
                None => {
                    assert(property(v@, key@) == JsonV::Null);
                    JsonValue::Null
                },
            }
        },
        _ => JsonValue::Null,
    }
}

/// `value[index]` (`index_value`).
pub fn resolve_json_index(v: &JsonValue, index: &JsonValue) -> (r: JsonValue)
    ensures
        r@ == index_value(v@, index@),
{
    match (v, index) {
        (JsonValue::Array(items), JsonValue::Number(JsonNumber::Int(n))) => {
            if 0 <= *n && *n < items.len() as i128 {
                json_clone(&items[*n as usize])
            } else {
                JsonValue::Null
            }
        },
        (JsonValue::Object(_), JsonValue::String(k)) => {
            let kc = text::str_to_chars(k.as_str());
            resolve_json_property(v, &kc)
        },
        _ => JsonValue::Null,
    }
}

/// Whether `needle` occurs in `text` (`has_substring`).
pub fn contains_chars(text: &Vec<char>, needle: &Vec<char>) -> (r: bool)
    ensures
        r == has_substring(text@, needle@),
{
    if needle.len() > text.len() {
        return false;
    }
    let last = text.len() - needle.len();
    let mut i: usize = 0;
    loop
        invariant
            needle.len() <= text.len(),
            last == text.len() - needle.len(),
            i <= last,
            forall|k: int|
                0 <= k < i ==> #[trigger] text@.subrange(k, k + needle.len()) != needle@,
        decreases last - i,
    {
        if text::has_at(text, i, needle) {
            return true;
        }
        if i == last {
            return false;
        }
        i = i + 1;
    }
}

/// The value of `target.method(args)` (`method_value`).
#[verifier::loop_isolation(false)]
pub fn evaluate_value_method(target: &JsonValue, method: &Vec<char>, args: &Vec<JsonValue>) -> (r: JsonValue)
    ensures
        r@ == method_value(target@, method@, values_view(args@)),
{
    let ghost av = values_view(args@);
    let m = text::lower_chars(method);
    if text::chars_eq_str(&m, "startswidth") || text::chars_eq_str(&m, "startswith") {
        if args.len() > 0 {
            let p = value_to_inline_string(&args[0]);
            let t = value_to_inline_string(target);
            if let (Some(p), Some(t)) = (p, t) {
                return JsonValue::Bool(text::starts_with(&t, &p));
            }
        }
        JsonValue::Bool(false)
    } else if text::chars_eq_str(&m, "endswidth") || text::chars_eq_str(&m, "endswith") {
        if args.len() > 0 {
            let p = value_to_inline_string(&args[0]);
            let t = value_to_inline_string(target);
            if let (Some(p), Some(t)) = (p, t) {
                return JsonValue::Bool(text::ends_with(&t, &p));
            }
        }
        JsonValue::Bool(false)
    } else if text::chars_eq_str(&m, "contains") {
        if args.len() == 0 {
            return JsonValue::Bool(false);
        }
        match target {
            JsonValue::String(s) => match value_to_inline_string(&args[0]) {
                Some(needle) => {
                    let t = text::str_to_chars(s.as_str());
                    JsonValue::Bool(contains_chars(&t, &needle))
                },
                None => JsonValue::Bool(false),
            },
            JsonValue::Array(items) => {
                let ghost iv = target@->Arr_0;
                let mut i: usize = 0;
                while i < items.len()
                    invariant
                        i <= items.len(),
                        iv.len() == items.len(),
                        forall|k: int| 0 <= k < iv.len() ==> iv[k] == items@[k]@,
                        forall|k: int| 0 <= k < i ==> !json_eq(#[trigger] iv[k], av[0]),
                        av.len() == args.len(),
                        args.len() > 0,
                        av[0] == args@[0]@,
                        av == values_view(args@),
                        iv == target@->Arr_0,
                    decreases items.len() - i,
                {
                    if json_values_equal(&items[i], &args[0]) {
                        assert(json_eq(iv[i as int], av[0]));
                        assert(av == values_view(args@));
                        assert(iv == target@->Arr_0);
                        return JsonValue::Bool(true);
                    }
                    i = i + 1;
                }
                JsonValue::Bool(false)
            },
            JsonValue::Object(entries) => match value_to_inline_string(&args[0]) {
                Some(k) => {
                    assert(entries_view(entries@) =~= target@->Obj_0);
                    JsonValue::Bool(find_key_exec(entries, &k).is_some())
                },
                None => JsonValue::Bool(false),
            },
            _ => JsonValue::Bool(false),
        }
    } else if args.len() == 0 {
        let g = text::str_to_chars("get_");
        proof {
            reveal_strlit("get_");
        }
        if text::starts_with(&m, &g) {
            let rest = text::slice_chars(&m, 4, m.len());
            assert(rest@ =~= m@.skip(4));
            resolve_json_property(target, &rest)
        } else {
            JsonValue::Null
        }
    } else {
        JsonValue::Null
    }
}

/// In `@if` conditions and logical operators a JSON array is true exactly
/// when it holds an element, and an object exactly when it holds a member:
/// an empty array or object is false.
pub proof fn law_collections_true_when_nonempty(items: Seq<JsonV>, entries: Seq<(Seq<char>, JsonV)>)
    ensures
        truthy(JsonV::Arr(items)) <==> items.len() > 0,
        truthy(JsonV::Obj(entries)) <==> entries.len() > 0,
        !truthy(JsonV::Arr(Seq::empty())),
        !truthy(JsonV::Obj(Seq::empty())),
        !truthy(JsonV::Null),
        truthy(JsonV::Bool(true)) && !truthy(JsonV::Bool(false)),
{
}

} // verus!
