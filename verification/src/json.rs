//! JSON documents as mathematical values, a specification-level parser for
//! them, and a verified executable parser proved to return exactly what the
//! specification says.
//!
//! Numbers are modelled only as the 64-bit integer they denote: a number
//! token with a fraction or exponent, or one outside the signed 64-bit
//! range, carries no integer. That is all the event payloads read from a
//! number.
use crate::text::{is_digit_char, is_ws_char, digit_char, ws_char};
use vstd::prelude::*;

verus! {

broadcast use vstd::seq::group_seq_axioms;

/// A JSON value as mathematical data: strings are character sequences,
/// objects are member lists in document order (duplicates kept).
pub enum JsonValue {
    Null,
    Bool(bool),
    Num(Option<int>),
    Str(Seq<char>),
    Arr(Seq<JsonValue>),
    Obj(Seq<(Seq<char>, JsonValue)>),
}

/// Executable JSON tree; `modelv` gives the value it stands for.
pub enum JsonNode {
    Null,
    Bool(bool),
    Num(Option<i64>),
    Str(Vec<char>),
    Arr(Vec<JsonNode>),
    Obj(Vec<(Vec<char>, JsonNode)>),
}

pub open spec fn modelv(n: JsonNode) -> JsonValue
    decreases n,
{
    match n {
        JsonNode::Null => JsonValue::Null,
        JsonNode::Bool(b) => JsonValue::Bool(b),
        JsonNode::Num(v) => JsonValue::Num(
            match v {
                Some(x) => Some(x as int),
                None => None,
            },
        ),
        JsonNode::Str(s) => JsonValue::Str(s@),
        JsonNode::Arr(items) => JsonValue::Arr(model_arr(items@)),
        JsonNode::Obj(ms) => JsonValue::Obj(model_obj(ms@)),
    }
}

pub open spec fn model_arr(s: Seq<JsonNode>) -> Seq<JsonValue>
    decreases s,
{
    if s.len() == 0 {
        Seq::empty()
    } else {
        seq![modelv(s[0])] + model_arr(s.drop_first())
    }
}

pub open spec fn model_obj(s: Seq<(Vec<char>, JsonNode)>) -> Seq<(Seq<char>, JsonValue)>
    decreases s,
{
    if s.len() == 0 {
        Seq::empty()
    } else {
        seq![(s[0].0@, modelv(s[0].1))] + model_obj(s.drop_first())
    }
}

pub proof fn lemma_model_arr_index(s: Seq<JsonNode>, i: int)
    requires
        0 <= i < s.len(),
    ensures
        model_arr(s).len() == s.len(),
        model_arr(s)[i] == modelv(s[i]),
    decreases s.len(),
{
    lemma_model_arr_len(s);
    if i > 0 {
        lemma_model_arr_index(s.drop_first(), i - 1);
    }
}

pub proof fn lemma_model_arr_len(s: Seq<JsonNode>)
    ensures
        model_arr(s).len() == s.len(),
    decreases s.len(),
{
    if s.len() > 0 {
        lemma_model_arr_len(s.drop_first());
    }
}

/// Position of the first non-whitespace character at or after `i`.
pub open spec fn spec_skip_ws(s: Seq<char>, i: int) -> int
    decreases s.len() - i,
{
    if 0 <= i < s.len() && is_ws_char(s[i]) {
        spec_skip_ws(s, i + 1)
    } else {
        i
    }
}

/// Value of one hexadecimal digit.
pub open spec fn spec_hex_val(c: char) -> Option<u32> {
    if '0' <= c && c <= '9' {
        Some((c as u32 - '0' as u32) as u32)
    } else if 'a' <= c && c <= 'f' {
        Some((c as u32 - 'a' as u32 + 10) as u32)
    } else if 'A' <= c && c <= 'F' {
        Some((c as u32 - 'A' as u32 + 10) as u32)
    } else {
        None
    }
}

/// Value of four hexadecimal digits starting at `i`.
pub open spec fn spec_hex4(s: Seq<char>, i: int) -> Option<u32> {
    if 0 <= i && i + 4 <= s.len() {
        match (spec_hex_val(s[i]), spec_hex_val(s[i + 1]), spec_hex_val(s[i + 2]), spec_hex_val(
            s[i + 3],
        )) {
            (Some(a), Some(b), Some(c), Some(d)) => Some(
                (a * 0x1000 + b * 0x100 + c * 0x10 + d) as u32,
            ),
            _ => None,
        }
    } else {
        None
    }
}

/// The character named by a single-letter escape.
pub open spec fn spec_escape_char(e: char) -> Option<char> {
    if e == '"' {
        Some('"')
    } else if e == '\\' {
        Some('\\')
    } else if e == '/' {
        Some('/')
    } else if e == 'b' {
        Some('\u{8}')
    } else if e == 'f' {
        Some('\u{c}')
    } else if e == 'n' {
        Some('\n')
    } else if e == 'r' {
        Some('\r')
    } else if e == 't' {
        Some('\t')
    } else {
        None
    }
}

pub open spec fn is_high_surrogate(u: u32) -> bool {
    0xD800 <= u < 0xDC00
}

pub open spec fn is_low_surrogate(u: u32) -> bool {
    0xDC00 <= u < 0xE000
}

/// Decodes a string body beginning at `i` (just past the opening quote):
/// the characters it denotes, and the position just past the closing quote.
/// Unescaped control characters, bad escapes and lone surrogates are
/// rejected, as the payload grammar demands.
pub open spec fn spec_lex_string(s: Seq<char>, i: int) -> Option<(Seq<char>, int)>
    decreases s.len() - i,
{
    if i < 0 || i >= s.len() {
        None
    } else if s[i] == '"' {
        Some((Seq::empty(), i + 1))
    } else if s[i] == '\\' {
        if i + 2 > s.len() {
            None
        } else if s[i + 1] == 'u' {
            match spec_hex4(s, i + 2) {
                Some(h) => if is_high_surrogate(h) {
                    if i + 12 <= s.len() && s[i + 6] == '\\' && s[i + 7] == 'u' {
                        match spec_hex4(s, i + 8) {
                            Some(l) => if is_low_surrogate(l) {
                                match spec_lex_string(s, i + 12) {
                                    Some((rest, j)) => Some(
                                        (
                                            seq![
                                                ((0x10000 + (h - 0xD800) * 0x400 + (l
                                                    - 0xDC00)) as u32) as char
                                            ] + rest,
                                            j,
                                        ),
                                    ),
                                    None => None,
                                }
                            } else {
                                None
                            },
                            None => None,
                        }
                    } else {
                        None
                    }
                } else if is_low_surrogate(h) {
                    None
                } else {
                    match spec_lex_string(s, i + 6) {
                        Some((rest, j)) => Some((seq![h as char] + rest, j)),
                        None => None,
                    }
                },
                None => None,
            }
        } else {
            match spec_escape_char(s[i + 1]) {
                Some(c) => match spec_lex_string(s, i + 2) {
                    Some((rest, j)) => Some((seq![c] + rest, j)),
                    None => None,
                },
                None => None,
            }
        }
    } else if (s[i] as u32) < 0x20 {
        None
    } else {
        match spec_lex_string(s, i + 1) {
            Some((rest, j)) => Some((seq![s[i]] + rest, j)),
            None => None,
        }
    }
}

/// Position of the first non-digit character at or after `i`.
pub open spec fn spec_digits_end(s: Seq<char>, i: int) -> int
    decreases s.len() - i,
{
    if 0 <= i < s.len() && is_digit_char(s[i]) {
        spec_digits_end(s, i + 1)
    } else {
        i
    }
}

pub proof fn lemma_digits_end_bounds(s: Seq<char>, i: int)
    requires
        0 <= i <= s.len(),
    ensures
        i <= spec_digits_end(s, i) <= s.len(),
    decreases s.len() - i,
{
    if i < s.len() && is_digit_char(s[i]) {
        lemma_digits_end_bounds(s, i + 1);
    }
}

/// Decimal value of the digit run `s[i..j]`.
pub open spec fn spec_digits_val(s: Seq<char>, i: int, j: int) -> nat
    decreases j - i,
{
    if i < j {
        spec_digits_val(s, i, j - 1) * 10 + (s[j - 1] as u32 - '0' as u32) as nat
    } else {
        0
    }
}

/// The signed 64-bit integer a number token denotes, if it denotes one:
/// the token must have no fraction and no exponent and its value must fit.
pub open spec fn spec_int_of(neg: bool, mag: nat, plain: bool) -> Option<int> {
    if plain {
        let v: int = if neg {
            -(mag as int)
        } else {
            mag as int
        };
        if i64::MIN <= v <= i64::MAX {
            Some(v)
        } else {
            None
        }
    } else {
        None
    }
}

/// Lexes a number token at `i` (which holds `-` or a digit): the integer it
/// denotes, if any, and the position after the token.
pub open spec fn spec_lex_number(s: Seq<char>, i: int) -> Option<(Option<int>, int)> {
    let p = if 0 <= i < s.len() && s[i] == '-' {
        i + 1
    } else {
        i
    };
    if !(0 <= p < s.len() && is_digit_char(s[p])) {
        None
    } else {
        let ip_end = if s[p] == '0' {
            p + 1
        } else {
            spec_digits_end(s, p)
        };
        let frac_end = if ip_end < s.len() && s[ip_end] == '.' {
            if ip_end + 1 < s.len() && is_digit_char(s[ip_end + 1]) {
                spec_digits_end(s, ip_end + 1)
            } else {
                -1
            }
        } else {
            ip_end
        };
        if frac_end < 0 {
            None
        } else {
            let exp_end = if frac_end < s.len() && (s[frac_end] == 'e' || s[frac_end] == 'E') {
                let q = if frac_end + 1 < s.len() && (s[frac_end + 1] == '+' || s[frac_end + 1]
                    == '-') {
                    frac_end + 2
                } else {
                    frac_end + 1
                };
                if q < s.len() && is_digit_char(s[q]) {
                    spec_digits_end(s, q)
                } else {
                    -1
                }
            } else {
                frac_end
            };
            if exp_end < 0 {
                None
            } else {
                let plain = exp_end == ip_end;
                Some(
                    (
                        spec_int_of(
                            0 <= i < s.len() && s[i] == '-',
                            spec_digits_val(s, p, ip_end),
                            plain,
                        ),
                        exp_end,
                    ),
                )
            }
        }
    }
}

/// Parses one JSON value at `i` (no leading whitespace): the value and the
/// position after it. `f` bounds the recursion; parsing a document of
/// length n never needs more than n + 1, since every nesting level consumes
/// at least one character.
pub open spec fn spec_parse_value(s: Seq<char>, i: int, f: nat) -> Option<(JsonValue, int)>
    decreases f, 1int,
{
    if i < 0 || i >= s.len() {
        None
    } else if s[i] == 'n' {
        if i + 4 <= s.len() && s[i + 1] == 'u' && s[i + 2] == 'l' && s[i + 3] == 'l' {
            Some((JsonValue::Null, i + 4))
        } else {
            None
        }
    } else if s[i] == 't' {
        if i + 4 <= s.len() && s[i + 1] == 'r' && s[i + 2] == 'u' && s[i + 3] == 'e' {
            Some((JsonValue::Bool(true), i + 4))
        } else {
            None
        }
    } else if s[i] == 'f' {
        if i + 5 <= s.len() && s[i + 1] == 'a' && s[i + 2] == 'l' && s[i + 3] == 's' && s[i + 4]
            == 'e' {
            Some((JsonValue::Bool(false), i + 5))
        } else {
            None
        }
    } else if s[i] == '"' {
        match spec_lex_string(s, i + 1) {
            Some((cs, j)) => Some((JsonValue::Str(cs), j)),
            None => None,
        }
    } else if s[i] == '-' || is_digit_char(s[i]) {
        match spec_lex_number(s, i) {
            Some((iv, j)) => Some((JsonValue::Num(iv), j)),
            None => None,
        }
    } else if s[i] == '[' {
        let j = spec_skip_ws(s, i + 1);
        if j < s.len() && s[j] == ']' {
            Some((JsonValue::Arr(Seq::empty()), j + 1))
        } else {
            match spec_parse_elements(s, j, f) {
                Some((es, k)) => Some((JsonValue::Arr(es), k)),
                None => None,
            }
        }
    } else if s[i] == '{' {
        let j = spec_skip_ws(s, i + 1);
        if j < s.len() && s[j] == '}' {
            Some((JsonValue::Obj(Seq::empty()), j + 1))
        } else {
            match spec_parse_members(s, j, f) {
                Some((ms, k)) => Some((JsonValue::Obj(ms), k)),
                None => None,
            }
        }
    } else {
        None
    }
}

/// Parses the elements of a non-empty array, `i` at the first element.
pub open spec fn spec_parse_elements(s: Seq<char>, i: int, f: nat) -> Option<
    (Seq<JsonValue>, int),
>
    decreases f, 0int,
{
    if f == 0 {
        None
    } else {
        match spec_parse_value(s, i, (f - 1) as nat) {
            Some((v, j)) => {
                let k = spec_skip_ws(s, j);
                if k < s.len() && s[k] == ',' {
                    match spec_parse_elements(s, spec_skip_ws(s, k + 1), (f - 1) as nat) {
                        Some((rest, m)) => Some((seq![v] + rest, m)),
                        None => None,
                    }
                } else if k < s.len() && s[k] == ']' {
                    Some((seq![v], k + 1))
                } else {
                    None
                }
            },
            None => None,
        }
    }
}

/// Parses the members of a non-empty object, `i` at the first key.
pub open spec fn spec_parse_members(s: Seq<char>, i: int, f: nat) -> Option<
    (Seq<(Seq<char>, JsonValue)>, int),
>
    decreases f, 0int,
{
    if f == 0 {
        None
    } else if !(0 <= i < s.len() && s[i] == '"') {
        None
    } else {
        match spec_lex_string(s, i + 1) {
            Some((key, j)) => {
                let k = spec_skip_ws(s, j);
                if k < s.len() && s[k] == ':' {
                    match spec_parse_value(s, spec_skip_ws(s, k + 1), (f - 1) as nat) {
                        Some((v, j2)) => {
                            let k2 = spec_skip_ws(s, j2);
                            if k2 < s.len() && s[k2] == ',' {
                                match spec_parse_members(
                                    s,
                                    spec_skip_ws(s, k2 + 1),
                                    (f - 1) as nat,
                                ) {
                                    Some((rest, m)) => Some((seq![(key, v)] + rest, m)),
                                    None => None,
                                }
                            } else if k2 < s.len() && s[k2] == '}' {
                                Some((seq![(key, v)], k2 + 1))
                            } else {
                                None
                            }
                        },
                        None => None,
                    }
                } else {
                    None
                }
            },
            None => None,
        }
    }
}

/// Parses a whole document: one value, with whitespace allowed around it
/// and nothing else.
pub open spec fn spec_parse_document(s: Seq<char>) -> Option<JsonValue> {
    match spec_parse_value(s, spec_skip_ws(s, 0), (s.len() + 1) as nat) {
        Some((v, j)) => if spec_skip_ws(s, j) == s.len() {
            Some(v)
        } else {
            None
        },
        None => None,
    }
}

fn skip_ws(s: &[char], i: usize) -> (r: usize)
    requires
        i <= s@.len(),
    ensures
        r as int == spec_skip_ws(s@, i as int),
        i <= r <= s@.len(),
{
    let mut k = i;
    while k < s.len() && ws_char(s[k])
        invariant
            i <= k <= s@.len(),
            spec_skip_ws(s@, i as int) == spec_skip_ws(s@, k as int),
        decreases s@.len() - k,
    {
        k = k + 1;
    }
    k
}

fn hex_val(c: char) -> (r: Option<u32>)
    ensures
        r == spec_hex_val(c),
{
    if '0' <= c && c <= '9' {
        Some(c as u32 - '0' as u32)
    } else if 'a' <= c && c <= 'f' {
        Some(c as u32 - 'a' as u32 + 10)
    } else if 'A' <= c && c <= 'F' {
        Some(c as u32 - 'A' as u32 + 10)
    } else {
        None
    }
}

fn hex4(s: &[char], i: usize) -> (r: Option<u32>)
    requires
        i <= s@.len(),
    ensures
        r == spec_hex4(s@, i as int),
        r matches Some(h) ==> h <= 0xFFFF,
{
    if s.len() - i < 4 {
        return None;
    }
    match (hex_val(s[i]), hex_val(s[i + 1]), hex_val(s[i + 2]), hex_val(s[i + 3])) {
        (Some(a), Some(b), Some(c), Some(d)) => Some(a * 0x1000 + b * 0x100 + c * 0x10 + d),
        _ => None,
    }
}

fn escape_char(e: char) -> (r: Option<char>)
    ensures
        r == spec_escape_char(e),
{
    if e == '"' {
        Some('"')
    } else if e == '\\' {
        Some('\\')
    } else if e == '/' {
        Some('/')
    } else if e == 'b' {
        Some('\u{8}')
    } else if e == 'f' {
        Some('\u{c}')
    } else if e == 'n' {
        Some('\n')
    } else if e == 'r' {
        Some('\r')
    } else if e == 't' {
        Some('\t')
    } else {
        None
    }
}

fn lex_string(s: &[char], i: usize) -> (r: Option<(Vec<char>, usize)>)
    requires
        i <= s@.len(),
    ensures
        ({
            let sp = spec_lex_string(s@, i as int);
            match r {
                None => sp is None,
                Some((cs, j)) => sp == Some((cs@, j as int)) && i < j <= s@.len(),
            }
        }),
    decreases s@.len() - i,
{
    if i >= s.len() {
        return None;
    }
    let c = s[i];
    if c == '"' {
        Some((Vec::new(), i + 1))
    } else if c == '\\' {
        if s.len() - i < 2 {
            return None;
        }
        let e = s[i + 1];
        if e == 'u' {
            match hex4(s, i + 2) {
                Some(h) => {
                    if 0xD800 <= h && h < 0xDC00 {
                        if s.len() - i >= 12 && s[i + 6] == '\\' && s[i + 7] == 'u' {
                            match hex4(s, i + 8) {
                                Some(l) => {
                                    if 0xDC00 <= l && l < 0xE000 {
                                        let cp: u32 = 0x10000 + (h - 0xD800) * 0x400 + (l
                                            - 0xDC00);
                                        let ch = char::from_u32(cp).unwrap();
                                        match lex_string(s, i + 12) {
                                            Some((mut rest, j)) => {
                                                rest.insert(0, ch);
                                                proof {
                                                    assert(rest@ =~= seq![ch]
                                                        + rest@.subrange(1, rest@.len() as int));
                                                }
                                                Some((rest, j))
                                            },
                                            None => None,
                                        }
                                    } else {
                                        None
                                    }
                                },
                                None => None,
                            }
                        } else {
                            None
                        }
                    } else if 0xDC00 <= h && h < 0xE000 {
                        None
                    } else {
                        let ch = char::from_u32(h).unwrap();
                        match lex_string(s, i + 6) {
                            Some((mut rest, j)) => {
                                rest.insert(0, ch);
                                proof {
                                    assert(rest@ =~= seq![ch] + rest@.subrange(
                                        1,
                                        rest@.len() as int,
                                    ));
                                }
                                Some((rest, j))
                            },
                            None => None,
                        }
                    }
                },
                None => None,
            }
        } else {
            match escape_char(e) {
                Some(c2) => match lex_string(s, i + 2) {
                    Some((mut rest, j)) => {
                        rest.insert(0, c2);
                        proof {
                            assert(rest@ =~= seq![c2] + rest@.subrange(1, rest@.len() as int));
                        }
                        Some((rest, j))
                    },
                    None => None,
                },
                None => None,
            }
        }
    } else if (c as u32) < 0x20 {
        None
    } else {
        match lex_string(s, i + 1) {
            Some((mut rest, j)) => {
                rest.insert(0, c);
                proof {
                    assert(rest@ =~= seq![c] + rest@.subrange(1, rest@.len() as int));
                }
                Some((rest, j))
            },
            None => None,
        }
    }
}

fn digits_end(s: &[char], i: usize) -> (r: usize)
    requires
        i <= s@.len(),
    ensures
        r as int == spec_digits_end(s@, i as int),
        i <= r <= s@.len(),
        i < s@.len() && is_digit_char(s@[i as int]) ==> r > i,
        forall|k: int| i <= k < r ==> is_digit_char(s@[k]),
{
    proof {
        if i < s@.len() && is_digit_char(s@[i as int]) {
            lemma_digits_end_bounds(s@, i as int + 1);
            assert(spec_digits_end(s@, i as int) == spec_digits_end(s@, i as int + 1));
        }
    }
    let mut k = i;
    while k < s.len() && digit_char(s[k])
        invariant
            i <= k <= s@.len(),
            spec_digits_end(s@, i as int) == spec_digits_end(s@, k as int),
            forall|m: int| i <= m < k ==> is_digit_char(s@[m]),
        decreases s@.len() - k,
    {
        k = k + 1;
    }
    proof {
        lemma_digits_end_bounds(s@, k as int);
    }
    k
}

proof fn lemma_digits_val_mono(s: Seq<char>, i: int, k: int, j: int)
    requires
        i <= k <= j,
    ensures
        spec_digits_val(s, i, j) >= spec_digits_val(s, i, k),
    decreases j - k,
{
    if k < j {
        lemma_digits_val_mono(s, i, k, j - 1);
    }
}

/// Magnitude of the digit run `s[i..j]`, unless it exceeds 2^63.
fn digits_mag(s: &[char], i: usize, j: usize) -> (r: Option<u64>)
    requires
        i <= j <= s@.len(),
        forall|k: int| i <= k < j ==> is_digit_char(s@[k]),
    ensures
        ({
            let v = spec_digits_val(s@, i as int, j as int);
            match r {
                Some(m) => m as nat == v && m <= 0x8000_0000_0000_0000u64,
                None => v > 0x8000_0000_0000_0000u64,
            }
        }),
{
    let mut acc: u128 = 0;
    let mut k = i;
    while k < j
        invariant
            i <= k <= j <= s@.len(),
            forall|m: int| i <= m < j ==> is_digit_char(s@[m]),
            acc as nat == spec_digits_val(s@, i as int, k as int),
            acc <= 0x8000_0000_0000_0000u128,
        decreases j - k,
    {
        assert(is_digit_char(s@[k as int]));
        let d: u128 = (s[k] as u32 - '0' as u32) as u128;
        proof {
            assert(acc * 10 + d <= 0x8000_0000_0000_0000u128 * 10 + d) by (nonlinear_arith)
                requires
                    acc <= 0x8000_0000_0000_0000u128,
                    d >= 0,
            ;
        }
        acc = acc * 10 + d;
        k = k + 1;
        if acc > 0x8000_0000_0000_0000u128 {
            proof {
                lemma_digits_val_mono(s@, i as int, k as int, j as int);
            }
            return None;
        }
    }
    Some(acc as u64)
}

pub open spec fn opt_int(v: Option<i64>) -> Option<int> {
    match v {
        Some(x) => Some(x as int),
        None => None,
    }
}

fn lex_number(s: &[char], i: usize) -> (r: Option<(Option<i64>, usize)>)
    requires
        i <= s@.len(),
    ensures
        ({
            let sp = spec_lex_number(s@, i as int);
            match r {
                None => sp is None,
                Some((iv, j)) => sp == Some((opt_int(iv), j as int)) && i < j <= s@.len(),
            }
        }),
{
    if i >= s.len() {
        return None;
    }
    let neg = s[i] == '-';
    let p = if neg {
        i + 1
    } else {
        i
    };
    if p >= s.len() || !digit_char(s[p]) {
        return None;
    }
    let ip_end = if s[p] == '0' {
        p + 1
    } else {
        digits_end(s, p)
    };
    let frac_end: usize;
    if ip_end < s.len() && s[ip_end] == '.' {
        if ip_end + 1 < s.len() && digit_char(s[ip_end + 1]) {
            frac_end = digits_end(s, ip_end + 1);
        } else {
            return None;
        }
    } else {
        frac_end = ip_end;
    }
    let exp_end: usize;
    if frac_end < s.len() && (s[frac_end] == 'e' || s[frac_end] == 'E') {
        let q = if frac_end + 1 < s.len() && (s[frac_end + 1] == '+' || s[frac_end + 1] == '-') {
            frac_end + 2
        } else {
            frac_end + 1
        };
        if q < s.len() && digit_char(s[q]) {
            exp_end = digits_end(s, q);
        } else {
            return None;
        }
    } else {
        exp_end = frac_end;
    }
    let iv: Option<i64> = if exp_end == ip_end {
        match digits_mag(s, p, ip_end) {
            Some(m) => {
                if neg {
                    if m == 0x8000_0000_0000_0000u64 {
                        Some(i64::MIN)
                    } else {
                        Some(-(m as i64))
                    }
                } else {
                    if m == 0x8000_0000_0000_0000u64 {
                        None
                    } else {
                        Some(m as i64)
                    }
                }
            },
            None => None,
        }
    } else {
        None
    };
    Some((iv, exp_end))
}

/// Parses one JSON value at `i` (no leading whitespace). `f` is the ghost
/// recursion budget matching the specification parser's; one more than the
/// remaining length always suffices.
fn parse_value(s: &[char], i: usize, Ghost(f): Ghost<nat>) -> (r: Option<(JsonNode, usize)>)
    requires
        i <= s@.len(),
        f >= s@.len() - i + 1,
    ensures
        ({
            let sp = spec_parse_value(s@, i as int, f);
            match r {
                None => sp is None,
                Some((n, j)) => sp == Some((modelv(n), j as int)) && i < j <= s@.len(),
            }
        }),
    decreases f, 1int,
{
    if i >= s.len() {
        return None;
    }
    let c = s[i];
    if c == 'n' {
        if s.len() - i >= 4 && s[i + 1] == 'u' && s[i + 2] == 'l' && s[i + 3] == 'l' {
            Some((JsonNode::Null, i + 4))
        } else {
            None
        }
    } else if c == 't' {
        if s.len() - i >= 4 && s[i + 1] == 'r' && s[i + 2] == 'u' && s[i + 3] == 'e' {
            Some((JsonNode::Bool(true), i + 4))
        } else {
            None
        }
    } else if c == 'f' {
        if s.len() - i >= 5 && s[i + 1] == 'a' && s[i + 2] == 'l' && s[i + 3] == 's' && s[i + 4]
            == 'e' {
            Some((JsonNode::Bool(false), i + 5))
        } else {
            None
        }
    } else if c == '"' {
        match lex_string(s, i + 1) {
            Some((cs, j)) => Some((JsonNode::Str(cs), j)),
            None => None,
        }
    } else if c == '-' || digit_char(c) {
        match lex_number(s, i) {
            Some((iv, j)) => Some((JsonNode::Num(iv), j)),
            None => None,
        }
    } else if c == '[' {
        let j = skip_ws(s, i + 1);
        if j < s.len() && s[j] == ']' {
            let v: Vec<JsonNode> = Vec::new();
            proof {
                assert(model_arr(v@) =~= Seq::<JsonValue>::empty());
            }
            Some((JsonNode::Arr(v), j + 1))
        } else {
            match parse_elements(s, j, Ghost(f)) {
                Some((es, k)) => Some((JsonNode::Arr(es), k)),
                None => None,
            }
        }
    } else if c == '{' {
        let j = skip_ws(s, i + 1);
        if j < s.len() && s[j] == '}' {
            let v: Vec<(Vec<char>, JsonNode)> = Vec::new();
            proof {
                assert(model_obj(v@) =~= Seq::<(Seq<char>, JsonValue)>::empty());
            }
            Some((JsonNode::Obj(v), j + 1))
        } else {
            match parse_members(s, j, Ghost(f)) {
                Some((ms, k)) => Some((JsonNode::Obj(ms), k)),
                None => None,
            }
        }
    } else {
        None
    }
}

fn parse_elements(s: &[char], i: usize, Ghost(f): Ghost<nat>) -> (r: Option<
    (Vec<JsonNode>, usize),
>)
    requires
        i <= s@.len(),
        f >= s@.len() - i + 2,
    ensures
        ({
            let sp = spec_parse_elements(s@, i as int, f);
            match r {
                None => sp is None,
                Some((ns, j)) => sp == Some((model_arr(ns@), j as int)) && i < j <= s@.len(),
            }
        }),
    decreases f, 0int,
{
    match parse_value(s, i, Ghost((f - 1) as nat)) {
        Some((n, j)) => {
            let k = skip_ws(s, j);
            if k < s.len() && s[k] == ',' {
                let k2 = skip_ws(s, k + 1);
                match parse_elements(s, k2, Ghost((f - 1) as nat)) {
                    Some((mut rest, m)) => {
                        let ghost old_rest = rest@;
                        rest.insert(0, n);
                        proof {
                            assert(rest@ =~= seq![n] + old_rest);
                            assert(rest@.drop_first() =~= old_rest);
                            assert(model_arr(rest@) =~= seq![modelv(n)] + model_arr(old_rest));
                        }
                        Some((rest, m))
                    },
                    None => None,
                }
            } else if k < s.len() && s[k] == ']' {
                let mut v: Vec<JsonNode> = Vec::new();
                v.push(n);
                proof {
                    assert(v@.drop_first() =~= Seq::<JsonNode>::empty());
                    assert(model_arr(v@.drop_first()) =~= Seq::<JsonValue>::empty());
                    assert(model_arr(v@) =~= seq![modelv(n)]);
                }
                Some((v, k + 1))
            } else {
                None
            }
        },
        None => None,
    }
}

fn parse_members(s: &[char], i: usize, Ghost(f): Ghost<nat>) -> (r: Option<
    (Vec<(Vec<char>, JsonNode)>, usize),
>)
    requires
        i <= s@.len(),
        f >= s@.len() - i + 2,
    ensures
        ({
            let sp = spec_parse_members(s@, i as int, f);
            match r {
                None => sp is None,
                Some((ns, j)) => sp == Some((model_obj(ns@), j as int)) && i < j <= s@.len(),
            }
        }),
    decreases f, 0int,
{
    if i >= s.len() || s[i] != '"' {
        return None;
    }
    match lex_string(s, i + 1) {
        Some((key, j)) => {
            let k = skip_ws(s, j);
            if k < s.len() && s[k] == ':' {
                match parse_value(s, skip_ws(s, k + 1), Ghost((f - 1) as nat)) {
                    Some((v, j2)) => {
                        let k2 = skip_ws(s, j2);
                        if k2 < s.len() && s[k2] == ',' {
                            match parse_members(s, skip_ws(s, k2 + 1), Ghost((f - 1) as nat)) {
                                Some((mut rest, m)) => {
                                    let ghost old_rest = rest@;
                                    rest.insert(0, (key, v));
                                    proof {
                                        assert(rest@ =~= seq![(key, v)] + old_rest);
                                        assert(rest@.drop_first() =~= old_rest);
                                        assert(model_obj(rest@) =~= seq![(key@, modelv(v))]
                                            + model_obj(old_rest));
                                    }
                                    Some((rest, m))
                                },
                                None => None,
                            }
                        } else if k2 < s.len() && s[k2] == '}' {
                            let mut ms: Vec<(Vec<char>, JsonNode)> = Vec::new();
                            ms.push((key, v));
                            proof {
                                assert(ms@.drop_first() =~= Seq::<(Vec<char>, JsonNode)>::empty());
                                assert(model_obj(ms@.drop_first()) =~= Seq::<
                                    (Seq<char>, JsonValue),
                                >::empty());
                                assert(model_obj(ms@) =~= seq![(key@, modelv(v))]);
                            }
                            Some((ms, k2 + 1))
                        } else {
                            None
                        }
                    },
                    None => None,
                }
            } else {
                None
            }
        },
        None => None,
    }
}

/// Parses a whole document, returning exactly what `spec_parse_document`
/// describes.
pub fn parse_document(s: &[char]) -> (r: Option<JsonNode>)
    ensures
        ({
            let sp = spec_parse_document(s@);
            match r {
                None => sp is None,
                Some(n) => sp == Some(modelv(n)),
            }
        }),
{
    let i = skip_ws(s, 0);
    match parse_value(s, i, Ghost((s@.len() + 1) as nat)) {
        Some((n, j)) => {
            let k = skip_ws(s, j);
            if k == s.len() {
                Some(n)
            } else {
                None
            }
        },
        None => None,
    }
}

} // verus!
