//! Coercion of raw strings (environment values, command-line tokens) into
//! typed structured values.

use vstd::prelude::*;

use crate::value::{ConfigValue, ValueModel};

verus! {

/// The IEEE-754 double bit pattern that a string denotes as a decimal number
/// literal, when it does denote one; the result depends on the characters
/// alone.
pub uninterp spec fn float_bits_of(s: Seq<char>) -> Option<u64>;

/// A 64-bit IEEE-754 pattern denotes a finite number exactly when its
/// exponent bits are not all ones.
pub open spec fn finite_bits(b: u64) -> bool {
    (b >> 52) & 0x7ff != 0x7ff
}

pub open spec fn is_digit(c: char) -> bool {
    '0' <= c && c <= '9'
}

pub open spec fn digit_val(c: char) -> int {
    c as int - 48
}

/// The number denoted by a string of decimal digits, most significant first.
pub open spec fn digits_val(s: Seq<char>) -> int
    decreases s.len(),
{
    if s.len() == 0 {
        0
    } else {
        digits_val(s.drop_last()) * 10 + digit_val(s.last())
    }
}

pub open spec fn all_digits(s: Seq<char>) -> bool {
    forall|i: int| 0 <= i < s.len() ==> is_digit(#[trigger] s[i])
}

/// The signed 64-bit integer a string denotes: an optional sign, then one or
/// more decimal digits, nothing else, and a value within the type's range.
pub open spec fn parse_i64_model(s: Seq<char>) -> Option<i64> {
    let negative = s.len() > 0 && s[0] == '-';
    let digits = if s.len() > 0 && (s[0] == '-' || s[0] == '+') {
        s.drop_first()
    } else {
        s
    };
    if digits.len() == 0 || !all_digits(digits) {
        None
    } else {
        let v = if negative {
            -digits_val(digits)
        } else {
            digits_val(digits)
        };
        if i64::MIN <= v && v <= i64::MAX {
            Some(v as i64)
        } else {
            None
        }
    }
}

proof fn lemma_digits_val_nonneg(s: Seq<char>)
    requires
        all_digits(s),
    ensures
        0 <= digits_val(s),
    decreases s.len(),
{
    if s.len() > 0 {
        assert(forall|j: int| 0 <= j < s.len() - 1 ==> s.drop_last()[j] == s[j]);
        lemma_digits_val_nonneg(s.drop_last());
        assert(is_digit(s.last()));
    }
}

/// Reading one more digit multiplies the prefix value by ten and adds it.
proof fn lemma_digits_val_step(s: Seq<char>, i: int)
    requires
        0 <= i < s.len(),
    ensures
        digits_val(s.take(i + 1)) == digits_val(s.take(i)) * 10 + digit_val(s[i]),
{
    assert(s.take(i + 1).drop_last() =~= s.take(i));
    assert(s.take(i + 1).last() == s[i]);
}

/// A prefix of a digit string never denotes more than the whole string.
proof fn lemma_digits_val_monotonic(s: Seq<char>, i: int)
    requires
        all_digits(s),
        0 <= i <= s.len(),
    ensures
        digits_val(s.take(i)) <= digits_val(s),
    decreases s.len() - i,
{
    if i == s.len() {
        assert(s.take(i) =~= s);
    } else {
        lemma_digits_val_step(s, i);
        assert(forall|j: int| 0 <= j < i ==> s.take(i)[j] == s[j]);
        assert(all_digits(s.take(i)));
        lemma_digits_val_nonneg(s.take(i));
        assert(is_digit(s[i]));
        lemma_digits_val_monotonic(s, i + 1);
    }
}

/// Parse a signed 64-bit integer literal, exactly as `parse_i64_model`
/// denotes it: optional sign, one or more decimal digits, nothing else, value
/// in range.
#[verifier::loop_isolation(false)]
pub fn parse_i64(s: &str) -> (r: Option<i64>)
    ensures
        r == parse_i64_model(s@),
{
    let n = s.unicode_len();
    if n == 0 {
        return None;
    }
    let first = s.get_char(0);
    let negative = first == '-';
    let signed = negative || first == '+';
    let start: usize = if signed {
        1
    } else {
        0
    };
    if n == start {
        return None;
    }
    let ghost digits = if signed {
        s@.drop_first()
    } else {
        s@
    };
    proof {
        assert(forall|j: int| 0 <= j < digits.len() ==> digits[j] == s@[j + start]);
    }
    let bound: u64 = 0x8000000000000000;
    let mut mag: u64 = 0;
    let mut i: usize = start;
    while i < n
        invariant
            start <= i <= n,
            all_digits(digits.take(i - start)),
            mag == digits_val(digits.take(i - start)),
            mag <= bound,
        decreases n - i,
    {
        let c = s.get_char(i);
        if c < '0' || c > '9' {
            proof {
                assert(digits[i - start] == s@[i as int]);
                assert(!is_digit(digits[i - start]));
            }
            return None;
        }
        let d: u64 = (c as u64) - 48;
        proof {
            lemma_digits_val_step(digits, i - start);
            assert(digits.take(i - start + 1).last() == digits[i - start]);
        }
        if mag > (bound - d) / 10 {
            proof {
                vstd::arithmetic::div_mod::lemma_fundamental_div_mod((bound - d) as int, 10);
                assert(mag * 10 + d > bound);
                if all_digits(digits) {
                    lemma_digits_val_monotonic(digits, i - start + 1);
                    assert(digits_val(digits) > bound);
                }
            }
            return None;
        }
        proof {
            vstd::arithmetic::div_mod::lemma_fundamental_div_mod((bound - d) as int, 10);
            assert(mag * 10 + d <= bound);
        }
        mag = mag * 10 + d;
        i = i + 1;
    }
    proof {
        assert(digits.take(n - start) =~= digits);
        lemma_digits_val_nonneg(digits);
    }
    if negative {
        if mag == bound {
            Some(i64::MIN)
        } else {
            Some(-(mag as i64))
        }
    } else {
        if mag == bound {
            None
        } else {
            Some(mag as i64)
        }
    }
}

/// Relies on serde_json::Number: its parser turns a decimal literal into a
/// number whose double value (`Number::as_f64`) is a function of the input
/// string alone; a string that is no such literal is rejected. The coercion
/// below only hands it literals normalized by `normalize_float`.
#[verifier::external_body]
fn parse_float_bits(s: &str) -> (r: Option<u64>)
    ensures
        r == float_bits_of(s@),
{
    match serde_json::from_str::<serde_json::Number>(s) {
        Ok(n) => n.as_f64().map(|x| x.to_bits()),
        Err(_) => None,
    }
}

/// Position of the first exponent marker (`e` or `E`), or -1.
pub open spec fn exp_pos(s: Seq<char>) -> int {
    let a = crate::strings::first_pos(s, 'e');
    let b = crate::strings::first_pos(s, 'E');
    if a == -1 {
        b
    } else if b == -1 {
        a
    } else if a < b {
        a
    } else {
        b
    }
}

/// A string of digits with its leading zeros removed.
pub open spec fn strip_leading_zeros(s: Seq<char>) -> Seq<char>
    decreases s.len(),
{
    if s.len() > 0 && s[0] == '0' {
        strip_leading_zeros(s.skip(1))
    } else {
        s
    }
}

/// An exponent part: an optional sign, then one or more digits.
pub open spec fn valid_exponent(e: Seq<char>) -> bool {
    let body = if e.len() > 0 && (e[0] == '+' || e[0] == '-') {
        e.skip(1)
    } else {
        e
    };
    body.len() >= 1 && all_digits(body)
}

/// The decimal-literal grammar of coercion, in named parts: an optional
/// sign, a mantissa of digits holding at most one dot and at least one
/// digit, and an optional exponent.
pub open spec fn lit_negative(s: Seq<char>) -> bool {
    s.len() > 0 && s[0] == '-'
}

/// The literal without its sign.
pub open spec fn lit_body(s: Seq<char>) -> Seq<char> {
    if s.len() > 0 && (s[0] == '-' || s[0] == '+') {
        s.skip(1)
    } else {
        s
    }
}

/// The mantissa: the unsigned literal up to the exponent marker.
pub open spec fn lit_mant(s: Seq<char>) -> Seq<char> {
    let body = lit_body(s);
    if exp_pos(body) == -1 {
        body
    } else {
        body.take(exp_pos(body))
    }
}

/// The exponent part after the marker, where there is one.
pub open spec fn lit_exp(s: Seq<char>) -> Option<Seq<char>> {
    let body = lit_body(s);
    if exp_pos(body) == -1 {
        None
    } else {
        Some(body.skip(exp_pos(body) + 1))
    }
}

/// The integer part of the mantissa, before the dot.
pub open spec fn lit_int(s: Seq<char>) -> Seq<char> {
    let m = lit_mant(s);
    if crate::strings::first_pos(m, '.') == -1 {
        m
    } else {
        m.take(crate::strings::first_pos(m, '.'))
    }
}

/// The fraction part of the mantissa, after the dot; empty without a dot.
pub open spec fn lit_frac(s: Seq<char>) -> Seq<char> {
    let m = lit_mant(s);
    if crate::strings::first_pos(m, '.') == -1 {
        Seq::<char>::empty()
    } else {
        m.skip(crate::strings::first_pos(m, '.') + 1)
    }
}

/// Is the string a decimal literal? Integer and fraction parts are digits,
/// at least one digit stands in the mantissa, and an exponent, where marked,
/// is an optional sign with one or more digits. Surrounding whitespace or any
/// other character breaks it.
pub open spec fn is_float_literal(s: Seq<char>) -> bool {
    &&& all_digits(lit_int(s))
    &&& all_digits(lit_frac(s))
    &&& lit_int(s).len() >= 1 || lit_frac(s).len() >= 1
    &&& (lit_exp(s) matches Some(e) ==> valid_exponent(e))
}

/// The literal's normal form: the plus sign and leading integer-part zeros
/// dropped, an empty integer part written `0`, a bare trailing dot dropped,
/// the exponent marker lowercased — the same number as a plain JSON number,
/// as the trusted parser expects it.
pub open spec fn float_normal_form(s: Seq<char>) -> Seq<char> {
    let ip0 = strip_leading_zeros(lit_int(s));
    let ip1 = if ip0.len() == 0 {
        seq!['0']
    } else {
        ip0
    };
    let fr1 = if lit_frac(s).len() > 0 {
        seq!['.'] + lit_frac(s)
    } else {
        Seq::<char>::empty()
    };
    let ex1 = match lit_exp(s) {
        Some(e) => seq!['e'] + e,
        None => Seq::<char>::empty(),
    };
    let sg = if lit_negative(s) {
        seq!['-']
    } else {
        Seq::<char>::empty()
    };
    sg + ip1 + fr1 + ex1
}

/// A decimal literal rewritten in normal form; anything else rejected.
pub open spec fn normalize_float_model(s: Seq<char>) -> Option<Seq<char>> {
    if is_float_literal(s) {
        Some(float_normal_form(s))
    } else {
        None
    }
}

/// Every character is a decimal digit.
fn str_all_digits(s: &str) -> (r: bool)
    ensures
        r == all_digits(s@),
{
    let n = s.unicode_len();
    let mut i: usize = 0;
    while i < n
        invariant
            i <= n,
            n == s@.len(),
            forall|j: int| 0 <= j < i ==> is_digit(#[trigger] s@[j]),
        decreases n - i,
    {
        let c = s.get_char(i);
        if c < '0' || c > '9' {
            proof {
                assert(!is_digit(s@[i as int]));
            }
            return false;
        }
        i = i + 1;
    }
    true
}

/// Strip leading zeros, as `strip_leading_zeros` denotes.
#[verifier::loop_isolation(false)]
fn str_strip_leading_zeros<'a>(s: &'a str) -> (r: &'a str)
    ensures
        r@ == strip_leading_zeros(s@),
{
    let n = s.unicode_len();
    proof {
        assert(s@.skip(0) =~= s@);
    }
    let mut z: usize = 0;
    while z < n && s.get_char(z) == '0'
        invariant
            z <= n,
            strip_leading_zeros(s@) == strip_leading_zeros(s@.skip(z as int)),
        decreases n - z,
    {
        proof {
            assert(s@.skip(z as int)[0] == s@[z as int]);
            assert(s@.skip(z as int).skip(1) =~= s@.skip(z as int + 1));
        }
        z = z + 1;
    }
    proof {
        if z < n {
            assert(s@.skip(z as int)[0] == s@[z as int]);
        }
        assert(strip_leading_zeros(s@.skip(z as int)) == s@.skip(z as int));
    }
    crate::strings::str_skip(s, z)
}

/// Split a string into the parts of a decimal literal — sign, integer part,
/// fraction part, exponent — or refuse it.
#[verifier::loop_isolation(false)]
#[verifier::rlimit(40)]
fn split_float_literal<'a>(s: &'a str) -> (r: Option<(bool, &'a str, &'a str, Option<&'a str>)>)
    ensures
        match r {
            Some((neg, ip, frac, ex)) => {
                &&& is_float_literal(s@)
                &&& neg == lit_negative(s@)
                &&& ip@ == lit_int(s@)
                &&& frac@ == lit_frac(s@)
                &&& (match ex {
                    Some(e) => lit_exp(s@) == Some(e@),
                    None => lit_exp(s@) is None,
                })
            },
            None => !is_float_literal(s@),
        },
{
    let n = s.unicode_len();
    let mut negative = false;
    let mut signed = false;
    if n > 0 {
        let c0 = s.get_char(0);
        negative = c0 == '-';
        signed = negative || c0 == '+';
    }
    let body: &str = if signed {
        crate::strings::str_skip(s, 1)
    } else {
        s
    };
    proof {
        assert(negative == lit_negative(s@));
        assert(body@ == lit_body(s@));
    }
    let bn = body.unicode_len();
    let pe = crate::strings::str_find_first(body, 'e');
    let pe2 = crate::strings::str_find_first(body, 'E');
    let ep: Option<usize> = match (pe, pe2) {
        (Some(a), Some(b)) => if a < b {
            Some(a)
        } else {
            Some(b)
        },
        (Some(a), None) => Some(a),
        (None, Some(b)) => Some(b),
        (None, None) => None,
    };
    proof {
        match ep {
            Some(p) => {
                assert(exp_pos(body@) == p as int);
            },
            None => {
                assert(exp_pos(body@) == -1);
            },
        }
    }
    let mant: &str = match ep {
        Some(p) => body.substring_char(0, p),
        None => body,
    };
    proof {
        match ep {
            Some(p) => {
                assert(body@.subrange(0, p as int) =~= body@.take(p as int));
            },
            None => {},
        }
        assert(mant@ == lit_mant(s@));
    }
    let exp_txt: Option<&str> = match ep {
        Some(p) => Some(body.substring_char(p + 1, bn)),
        None => None,
    };
    proof {
        match ep {
            Some(p) => {
                assert(body@.subrange(p as int + 1, bn as int) =~= body@.skip(p as int + 1));
            },
            None => {},
        }
        match exp_txt {
            Some(e) => {
                assert(lit_exp(s@) == Some(e@));
            },
            None => {
                assert(lit_exp(s@) is None);
            },
        }
    }
    let mn = mant.unicode_len();
    let dp = crate::strings::str_find_first(mant, '.');
    let ip: &str = match dp {
        Some(p) => mant.substring_char(0, p),
        None => mant,
    };
    let frac: &str = match dp {
        Some(p) => mant.substring_char(p + 1, mn),
        None => "",
    };
    proof {
        reveal_strlit("");
        match dp {
            Some(p) => {
                assert(mant@.subrange(0, p as int) =~= mant@.take(p as int));
                assert(mant@.subrange(p as int + 1, mn as int) =~= mant@.skip(p as int + 1));
            },
            None => {
                assert(""@ =~= Seq::<char>::empty());
            },
        }
        assert(ip@ == lit_int(s@));
        assert(frac@ == lit_frac(s@));
    }
    if !str_all_digits(ip) || !str_all_digits(frac) {
        return None;
    }
    if ip.unicode_len() == 0 && frac.unicode_len() == 0 {
        return None;
    }
    match exp_txt {
        Some(e) => {
            let en = e.unicode_len();
            let mut esigned = false;
            if en > 0 {
                let e0 = e.get_char(0);
                esigned = e0 == '+' || e0 == '-';
            }
            let ebody: &str = if esigned {
                crate::strings::str_skip(e, 1)
            } else {
                e
            };
            if ebody.unicode_len() == 0 || !str_all_digits(ebody) {
                proof {
                    assert(!valid_exponent(e@));
                }
                return None;
            }
            proof {
                assert(valid_exponent(e@));
            }
        },
        None => {},
    }
    Some((negative, ip, frac, exp_txt))
}

/// Recognise a decimal literal and write it in normal form, as
/// `normalize_float_model` denotes.
fn normalize_float(s: &str) -> (r: Option<String>)
    ensures
        match r {
            Some(t) => normalize_float_model(s@) == Some(t@),
            None => normalize_float_model(s@) is None,
        },
{
    let parts = match split_float_literal(s) {
        Some(parts) => parts,
        None => {
            return None;
        },
    };
    let (negative, ip, frac, exp_txt) = parts;
    let stripped = str_strip_leading_zeros(ip);
    let mut out: String = if negative {
        "-".to_owned()
    } else {
        String::new()
    };
    proof {
        reveal_strlit("-");
        assert("-"@ =~= seq!['-']);
    }
    if stripped.unicode_len() == 0 {
        out.append("0");
        proof {
            reveal_strlit("0");
            assert("0"@ =~= seq!['0']);
        }
    } else {
        out.append(stripped);
    }
    if frac.unicode_len() > 0 {
        out.append(".");
        out.append(frac);
        proof {
            reveal_strlit(".");
            assert("."@ =~= seq!['.']);
        }
    }
    match exp_txt {
        Some(e) => {
            out.append("e");
            out.append(e);
            proof {
                reveal_strlit("e");
                assert("e"@ =~= seq!['e']);
            }
        },
        None => {},
    }
    proof {
        assert(out@ =~= float_normal_form(s@));
    }
    Some(out)
}

/// The finite double a raw string coerces to, where it is a decimal literal:
/// the literal's normal form handed to the trusted number parse, the bits
/// kept only when finite.
pub open spec fn coerce_float_model(s: Seq<char>) -> Option<u64> {
    match normalize_float_model(s) {
        Some(t) => match float_bits_of(t) {
            Some(b) => if finite_bits(b) {
                Some(b)
            } else {
                None::<u64>
            },
            None => None,
        },
        None => None,
    }
}

/// The structured value that a string denotes as a JSON document, when it is
/// one, with numbers read as an integer where the value is one and as a
/// double's bits otherwise; a function of the characters alone.
pub uninterp spec fn json_value_of(s: Seq<char>) -> Option<ValueModel>;

pub open spec fn option_model(r: Option<ConfigValue>) -> Option<ValueModel> {
    match r {
        Some(v) => Some(v@),
        None => None,
    }
}

/// Relies on serde_json::from_str::<serde_json::Value>: whether a string is a
/// well-formed JSON document, and which value it denotes, is a function of
/// the characters alone.
#[verifier::external_body]
pub fn parse_json_str(s: &str) -> (r: Option<ConfigValue>)
    ensures
        option_model(r) == json_value_of(s@),
{
    match serde_json::from_str::<serde_json::Value>(s) {
        Ok(v) => Some(value_from_json(&v)),
        Err(_) => None,
    }
}

/// Declares serde_json's value type so that the conversion below can take a
/// reference to one; the type stays opaque to the verifier.
#[verifier::external_type_specification]
#[verifier::external_body]
pub struct ExJsonValue(serde_json::Value);

/// Relies on serde_json::Value: carries a parsed document across, one arm
/// per variant; a number becomes an integer where `Number::as_i64` yields
/// one, else the bits of its `Number::as_f64` double.
#[verifier::external_body]
pub(crate) fn value_from_json(v: &serde_json::Value) -> ConfigValue {
    match v {
        serde_json::Value::Null => ConfigValue::Null,
        serde_json::Value::Bool(b) => ConfigValue::Bool(*b),
        serde_json::Value::Number(n) => match n.as_i64() {
            Some(i) => ConfigValue::Int(i),
            None => ConfigValue::Float(n.as_f64().map(|x| x.to_bits()).unwrap_or(0)),
        },
        serde_json::Value::String(t) => ConfigValue::Text(t.clone()),
        serde_json::Value::Array(a) => ConfigValue::Array(a.iter().map(value_from_json).collect()),
        serde_json::Value::Object(o) => ConfigValue::Object(
            o.iter().map(|p| (p.0.clone(), value_from_json(p.1))).collect(),
        ),
    }
}

/// An exact boolean literal: `true` or `false`, nothing else.
pub open spec fn parse_bool_model(s: Seq<char>) -> Option<bool> {
    if s == "true"@ {
        Some(true)
    } else if s == "false"@ {
        Some(false)
    } else {
        None
    }
}

/// First and last character of a non-empty string.
pub open spec fn bracketed(s: Seq<char>, open_c: char, close_c: char) -> bool {
    s.len() >= 1 && s[0] == open_c && s[s.len() - 1] == close_c
}

/// What a raw string is coerced to, trying in order: boolean literal, signed
/// 64-bit integer literal, finite double literal, bracketed or braced JSON
/// document, and otherwise the string itself.
pub open spec fn coerce_model(s: Seq<char>) -> ValueModel {
    if parse_bool_model(s) is Some {
        ValueModel::Bool(parse_bool_model(s)->Some_0)
    } else if parse_i64_model(s) is Some {
        ValueModel::Int(parse_i64_model(s)->Some_0)
    } else if coerce_float_model(s) is Some {
        ValueModel::Float(coerce_float_model(s)->Some_0)
    } else if (bracketed(s, '[', ']') || bracketed(s, '{', '}')) && json_value_of(s) is Some {
        json_value_of(s)->Some_0
    } else {
        ValueModel::Text(s)
    }
}

/// Coerce a raw string to a typed structured value, as `coerce_model`
/// denotes: boolean and number literals become scalars (a non-finite double
/// is refused), a bracketed or braced JSON document becomes its value, and
/// everything else stays the literal string.
pub fn coerce(s: &str) -> (r: ConfigValue)
    ensures
        r@ == coerce_model(s@),
{
    if crate::strings::str_eq(s, "true") {
        return ConfigValue::Bool(true);
    }
    if crate::strings::str_eq(s, "false") {
        return ConfigValue::Bool(false);
    }
    match parse_i64(s) {
        Some(n) => {
            return ConfigValue::Int(n);
        },
        None => {},
    }
    match normalize_float(s) {
        Some(t) => {
            match parse_float_bits(t.as_str()) {
                Some(b) => {
                    if (b >> 52) & 0x7ff != 0x7ff {
                        return ConfigValue::Float(b);
                    }
                },
                None => {},
            }
        },
        None => {},
    }
    let n = s.unicode_len();
    if n >= 1 {
        let first = s.get_char(0);
        let last = s.get_char(n - 1);
        if (first == '[' && last == ']') || (first == '{' && last == '}') {
            match parse_json_str(s) {
                Some(v) => {
                    return v;
                },
                None => {},
            }
        }
    }
    ConfigValue::Text(s.to_owned())
}

} // verus!
