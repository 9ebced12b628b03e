//! Structural JSON value tree, with a tolerant parser and a serializer.
//!
//! The parser accepts one JSON document per text; a trailing comma before a
//! closing `]` or `}` is tolerated if and only if the caller asks for it.
//! Non-integer numbers (and integers outside the `i64` range) are kept as
//! their original lexeme, so no precision is ever lost to a float type.

use vstd::prelude::*;

verus! {

/// A structural JSON value, fully materialized.
#[derive(Debug, PartialEq)]
pub enum JsonValue {
    Null,
    Bool(bool),
    /// A number written without fraction or exponent, in `i64` range.
    Int(i64),
    /// Any other number, kept as its original lexeme.
    Num(String),
    Str(String),
    Arr(Vec<JsonValue>),
    Obj(Vec<(String, JsonValue)>),
}

/// Mathematical model of a JSON document tree.
pub enum JsonV {
    Null,
    Bool(bool),
    Int(int),
    Num(Seq<char>),
    Str(Seq<char>),
    Arr(Seq<JsonV>),
    Obj(Seq<(Seq<char>, JsonV)>),
}

impl JsonValue {
    /// The mathematical tree that this value represents.
    pub open spec fn deep(self) -> JsonV
        decreases self,
    {
        match self {
            JsonValue::Null => JsonV::Null,
            JsonValue::Bool(b) => JsonV::Bool(b),
            JsonValue::Int(n) => JsonV::Int(n as int),
            JsonValue::Num(s) => JsonV::Num(s@),
            JsonValue::Str(s) => JsonV::Str(s@),
            JsonValue::Arr(elems) => JsonV::Arr(deep_elems(elems@)),
            JsonValue::Obj(fields) => JsonV::Obj(deep_fields(fields@)),
        }
    }
}

/// Model of a sequence of values, element by element.
pub open spec fn deep_elems(elems: Seq<JsonValue>) -> Seq<JsonV>
    decreases elems,
{
    if elems.len() == 0 {
        Seq::empty()
    } else {
        deep_elems(elems.drop_last()).push(elems.last().deep())
    }
}

/// Model of an object's field list, key by key.
pub open spec fn deep_fields(fields: Seq<(String, JsonValue)>) -> Seq<(Seq<char>, JsonV)>
    decreases fields,
{
    if fields.len() == 0 {
        Seq::empty()
    } else {
        deep_fields(fields.drop_last()).push((fields.last().0@, fields.last().1.deep()))
    }
}

pub proof fn lemma_deep_elems(elems: Seq<JsonValue>)
    ensures
        deep_elems(elems).len() == elems.len(),
        forall|i: int| 0 <= i < elems.len() ==> deep_elems(elems)[i] == elems[i].deep(),
    decreases elems.len(),
{
    if elems.len() > 0 {
        lemma_deep_elems(elems.drop_last());
    }
}

pub proof fn lemma_deep_fields(fields: Seq<(String, JsonValue)>)
    ensures
        deep_fields(fields).len() == fields.len(),
        forall|i: int|
            0 <= i < fields.len() ==> deep_fields(fields)[i] == (
                fields[i].0@,
                fields[i].1.deep(),
            ),
    decreases fields.len(),
{
    if fields.len() > 0 {
        lemma_deep_fields(fields.drop_last());
    }
}

/// JSON whitespace.
pub open spec fn is_ws(c: char) -> bool {
    c == ' ' || c == '\n' || c == '\r' || c == '\t'
}

/// A decimal digit.
pub open spec fn is_digit(c: char) -> bool {
    48 <= c as u32 <= 57
}

/// The value of a decimal digit.
pub open spec fn digit_val(c: char) -> int {
    c as u32 - 48
}

/// The value of a hexadecimal digit, or `None`.
pub open spec fn hex_val(c: char) -> Option<int> {
    if 48 <= c as u32 <= 57 {
        Some(c as u32 - 48)
    } else if 97 <= c as u32 <= 102 {
        Some(c as u32 - 87)
    } else if 65 <= c as u32 <= 70 {
        Some(c as u32 - 55)
    } else {
        None
    }
}

/// The first position at or after `i` that does not hold JSON whitespace.
pub open spec fn skip_ws(s: Seq<char>, i: int) -> int
    decreases s.len() - i,
{
    if 0 <= i < s.len() && is_ws(s[i]) {
        skip_ws(s, i + 1)
    } else {
        i
    }
}

pub proof fn lemma_skip_ws(s: Seq<char>, i: int)
    requires
        0 <= i <= s.len(),
    ensures
        i <= skip_ws(s, i) <= s.len(),
    decreases s.len() - i,
{
    if i < s.len() && is_ws(s[i]) {
        lemma_skip_ws(s, i + 1);
    }
}

/// The first position at or after `i` that does not hold a decimal digit.
pub open spec fn digits_end(s: Seq<char>, i: int) -> int
    decreases s.len() - i,
{
    if 0 <= i < s.len() && is_digit(s[i]) {
        digits_end(s, i + 1)
    } else {
        i
    }
}

pub proof fn lemma_digits_end(s: Seq<char>, i: int)
    requires
        0 <= i <= s.len(),
    ensures
        i <= digits_end(s, i) <= s.len(),
    decreases s.len() - i,
{
    if i < s.len() && is_digit(s[i]) {
        lemma_digits_end(s, i + 1);
    }
}

/// The value of the decimal digit run `s[i..j]`.
pub open spec fn digits_val(s: Seq<char>, i: int, j: int) -> int
    decreases j - i,
{
    if i < j {
        digits_val(s, i, j - 1) * 10 + digit_val(s[j - 1])
    } else {
        0
    }
}

/// The value of the four hexadecimal digits `s[i..i+4]`, or `None`.
pub open spec fn hex4(s: Seq<char>, i: int) -> Option<int> {
    if 0 <= i && i + 4 <= s.len() {
        match (hex_val(s[i]), hex_val(s[i + 1]), hex_val(s[i + 2]), hex_val(s[i + 3])) {
            (Some(a), Some(b), Some(c), Some(d)) => Some(a * 0x1000 + b * 0x100 + c * 0x10 + d),
            _ => None,
        }
    } else {
        None
    }
}

/// String-body parsing: at `i`, inside the quotes, with `acc` read so far.
/// Yields the string's characters and the position after the closing quote.
pub open spec fn parse_string_rest(s: Seq<char>, i: int, acc: Seq<char>) -> Option<
    (Seq<char>, int),
>
    decreases s.len() - i,
{
    if !(0 <= i < s.len()) {
        None
    } else {
        let c = s[i];
        if c == '"' {
            Some((acc, i + 1))
        } else if c == '\\' {
            if i + 2 > s.len() {
                None
            } else {
                let e = s[i + 1];
                if e == '"' || e == '\\' || e == '/' {
                    parse_string_rest(s, i + 2, acc.push(e))
                } else if e == 'b' {
                    parse_string_rest(s, i + 2, acc.push('\u{8}'))
                } else if e == 'f' {
                    parse_string_rest(s, i + 2, acc.push('\u{c}'))
                } else if e == 'n' {
                    parse_string_rest(s, i + 2, acc.push('\n'))
                } else if e == 'r' {
                    parse_string_rest(s, i + 2, acc.push('\r'))
                } else if e == 't' {
                    parse_string_rest(s, i + 2, acc.push('\t'))
                } else if e == 'u' {
                    match hex4(s, i + 2) {
                        None => None,
                        Some(h) => {
                            if 0xD800 <= h < 0xDC00 {
                                // A high surrogate must pair with a following low one.
                                if i + 12 <= s.len() && s[i + 6] == '\\' && s[i + 7] == 'u' {
                                    match hex4(s, i + 8) {
                                        None => None,
                                        Some(l) => {
                                            if 0xDC00 <= l < 0xE000 {
                                                let code = 0x10000 + (h - 0xD800) * 0x400 + (l
                                                    - 0xDC00);
                                                parse_string_rest(
                                                    s,
                                                    i + 12,
                                                    acc.push((code as u32) as char),
                                                )
                                            } else {
                                                None
                                            }
                                        },
                                    }
                                } else {
                                    None
                                }
                            } else if 0xDC00 <= h < 0xE000 {
                                None
                            } else {
                                parse_string_rest(s, i + 6, acc.push((h as u32) as char))
                            }
                        },
                    }
                } else {
                    None
                }
            }
        } else if (c as u32) < 0x20 {
            None
        } else {
            parse_string_rest(s, i + 1, acc.push(c))
        }
    }
}

pub proof fn lemma_parse_string_rest(s: Seq<char>, i: int, acc: Seq<char>)
    ensures
        parse_string_rest(s, i, acc) matches Some((t, j)) ==> i < j <= s.len(),
    decreases s.len() - i,
{
    if 0 <= i < s.len() {
        let c = s[i];
        if c == '\\' && i + 2 <= s.len() {
            let e = s[i + 1];
            if e == 'u' {
                if let Some(h) = hex4(s, i + 2) {
                    if 0xD800 <= h < 0xDC00 {
                        if i + 12 <= s.len() && s[i + 6] == '\\' && s[i + 7] == 'u' {
                            if let Some(l) = hex4(s, i + 8) {
                                if 0xDC00 <= l < 0xE000 {
                                    let code = 0x10000 + (h - 0xD800) * 0x400 + (l - 0xDC00);
                                    lemma_parse_string_rest(s, i + 12, acc.push((code as u32) as char));
                                }
                            }
                        }
                    } else if !(0xDC00 <= h < 0xE000) {
                        lemma_parse_string_rest(s, i + 6, acc.push((h as u32) as char));
                    }
                }
            } else {
                lemma_parse_string_rest(s, i + 2, acc.push(s[i + 1]));
                lemma_parse_string_rest(s, i + 2, acc.push('\u{8}'));
                lemma_parse_string_rest(s, i + 2, acc.push('\u{c}'));
                lemma_parse_string_rest(s, i + 2, acc.push('\n'));
                lemma_parse_string_rest(s, i + 2, acc.push('\r'));
                lemma_parse_string_rest(s, i + 2, acc.push('\t'));
            }
        } else if c != '"' && c != '\\' && (c as u32) >= 0x20 {
            lemma_parse_string_rest(s, i + 1, acc.push(c));
        }
    }
}

/// End of an optional fraction part starting at `j`; `None` on a bare dot.
pub open spec fn frac_end(s: Seq<char>, j: int) -> Option<int> {
    if 0 <= j < s.len() && s[j] == '.' {
        let fe = digits_end(s, j + 1);
        if fe > j + 1 {
            Some(fe)
        } else {
            None
        }
    } else {
        Some(j)
    }
}

/// End of an optional exponent part starting at `j`; `None` on a bare `e`.
pub open spec fn exp_end(s: Seq<char>, j: int) -> Option<int> {
    if 0 <= j < s.len() && (s[j] == 'e' || s[j] == 'E') {
        let k = if j + 1 < s.len() && (s[j + 1] == '+' || s[j + 1] == '-') {
            j + 2
        } else {
            j + 1
        };
        let ee = digits_end(s, k);
        if ee > k {
            Some(ee)
        } else {
            None
        }
    } else {
        Some(j)
    }
}

/// Parse a number at `i` (where `s[i]` is `-` or a digit). A number written
/// without fraction or exponent, in `i64` range, becomes `Int`; any other
/// number keeps its lexeme.
pub open spec fn parse_number(s: Seq<char>, i: int) -> Option<(JsonV, int)> {
    if !(0 <= i < s.len()) {
        None
    } else {
        let neg = s[i] == '-';
        let i1 = if neg {
            i + 1
        } else {
            i
        };
        if !(i1 < s.len() && is_digit(s[i1])) {
            None
        } else {
            let int_end = if s[i1] == '0' {
                i1 + 1
            } else {
                digits_end(s, i1)
            };
            match frac_end(s, int_end) {
                None => None,
                Some(fe) => match exp_end(s, fe) {
                    None => None,
                    Some(end) => {
                        if end == int_end {
                            let v = if neg {
                                -digits_val(s, i1, int_end)
                            } else {
                                digits_val(s, i1, int_end)
                            };
                            if -0x8000_0000_0000_0000 <= v <= 0x7fff_ffff_ffff_ffff {
                                Some((JsonV::Int(v), int_end))
                            } else {
                                Some((JsonV::Num(s.subrange(i, int_end)), int_end))
                            }
                        } else {
                            Some((JsonV::Num(s.subrange(i, end)), end))
                        }
                    },
                },
            }
        }
    }
}

pub proof fn lemma_parse_number(s: Seq<char>, i: int)
    ensures
        parse_number(s, i) matches Some((v, j)) ==> i < j <= s.len(),
{
    if 0 <= i < s.len() {
        let neg = s[i] == '-';
        let i1: int = if neg {
            i + 1
        } else {
            i
        };
        if i1 < s.len() && is_digit(s[i1]) {
            lemma_digits_end(s, i1);
            lemma_digits_end(s, i1 + 1);
            let int_end = if s[i1] == '0' {
                i1 + 1
            } else {
                digits_end(s, i1)
            };
            if 0 <= int_end < s.len() && s[int_end] == '.' {
                lemma_digits_end(s, int_end + 1);
            }
            if let Some(fe) = frac_end(s, int_end) {
                if 0 <= fe < s.len() && (s[fe] == 'e' || s[fe] == 'E') {
                    let k: int = if fe + 1 < s.len() && (s[fe + 1] == '+' || s[fe + 1] == '-') {
                        fe + 2
                    } else {
                        fe + 1
                    };
                    lemma_digits_end(s, k);
                }
            }
        }
    }
}

/// Whether the word `w` stands at `i` in `s`.
pub open spec fn lit_at(s: Seq<char>, i: int, w: Seq<char>) -> bool {
    0 <= i && i + w.len() <= s.len() && s.subrange(i, i + w.len() as int) == w
}

/// Parse one JSON value whose first character stands at `i`.
pub open spec fn parse_value(s: Seq<char>, i: int, allow: bool) -> Option<(JsonV, int)>
    decreases s.len() - i, 0int,
{
    if !(0 <= i < s.len()) {
        None
    } else {
        let c = s[i];
        if c == 'n' {
            if lit_at(s, i, seq!['n', 'u', 'l', 'l']) {
                Some((JsonV::Null, i + 4))
            } else {
                None
            }
        } else if c == 't' {
            if lit_at(s, i, seq!['t', 'r', 'u', 'e']) {
                Some((JsonV::Bool(true), i + 4))
            } else {
                None
            }
        } else if c == 'f' {
            if lit_at(s, i, seq!['f', 'a', 'l', 's', 'e']) {
                Some((JsonV::Bool(false), i + 5))
            } else {
                None
            }
        } else if c == '"' {
            match parse_string_rest(s, i + 1, Seq::empty()) {
                None => None,
                Some((t, j)) => Some((JsonV::Str(t), j)),
            }
        } else if c == '-' || is_digit(c) {
            parse_number(s, i)
        } else if c == '[' {
            let j = skip_ws(s, i + 1);
            if !(i < j <= s.len()) {
                None
            } else {
                match parse_elems(s, j, allow) {
                    None => None,
                    Some((vs, end)) => Some((JsonV::Arr(vs), end)),
                }
            }
        } else if c == '{' {
            let j = skip_ws(s, i + 1);
            if !(i < j <= s.len()) {
                None
            } else {
                match parse_members(s, j, allow) {
                    None => None,
                    Some((fs, end)) => Some((JsonV::Obj(fs), end)),
                }
            }
        } else {
            None
        }
    }
}

/// Parse the elements of an array, standing at the first element or at `]`.
pub open spec fn parse_elems(s: Seq<char>, i: int, allow: bool) -> Option<(Seq<JsonV>, int)>
    decreases s.len() - i, 1int,
{
    if !(0 <= i < s.len()) {
        None
    } else if s[i] == ']' {
        Some((Seq::empty(), i + 1))
    } else {
        match parse_value(s, i, allow) {
            None => None,
            Some((v, j)) => {
                if j <= i {
                    None
                } else {
                    let k = skip_ws(s, j);
                    if 0 <= k < s.len() && s[k] == ']' {
                        Some((seq![v], k + 1))
                    } else if 0 <= k < s.len() && s[k] == ',' {
                        let m = skip_ws(s, k + 1);
                        if 0 <= m < s.len() && s[m] == ']' {
                            if allow {
                                Some((seq![v], m + 1))
                            } else {
                                None
                            }
                        } else if !(i < m <= s.len()) {
                            None
                        } else {
                            match parse_elems(s, m, allow) {
                                None => None,
                                Some((rest, end)) => Some((seq![v] + rest, end)),
                            }
                        }
                    } else {
                        None
                    }
                }
            },
        }
    }
}

/// Parse the members of an object, standing at the first key or at `}`.
pub open spec fn parse_members(s: Seq<char>, i: int, allow: bool) -> Option<
    (Seq<(Seq<char>, JsonV)>, int),
>
    decreases s.len() - i, 1int,
{
    if !(0 <= i < s.len()) {
        None
    } else if s[i] == '}' {
        Some((Seq::empty(), i + 1))
    } else if s[i] != '"' {
        None
    } else {
        match parse_string_rest(s, i + 1, Seq::empty()) {
            None => None,
            Some((key, j)) => {
                let k = skip_ws(s, j);
                if !(0 <= k < s.len() && s[k] == ':') {
                    None
                } else {
                    let m = skip_ws(s, k + 1);
                    if !(i < m <= s.len()) {
                        None
                    } else {
                        match parse_value(s, m, allow) {
                            None => None,
                            Some((v, j2)) => {
                                let k2 = skip_ws(s, j2);
                                if 0 <= k2 < s.len() && s[k2] == '}' {
                                    Some((seq![(key, v)], k2 + 1))
                                } else if 0 <= k2 < s.len() && s[k2] == ',' {
                                    let m2 = skip_ws(s, k2 + 1);
                                    if 0 <= m2 < s.len() && s[m2] == '}' {
                                        if allow {
                                            Some((seq![(key, v)], m2 + 1))
                                        } else {
                                            None
                                        }
                                    } else if !(i < m2 <= s.len()) {
                                        None
                                    } else {
                                        match parse_members(s, m2, allow) {
                                            None => None,
                                            Some((rest, end)) => Some(
                                                (seq![(key, v)] + rest, end),
                                            ),
                                        }
                                    }
                                } else {
                                    None
                                }
                            },
                        }
                    }
                }
            },
        }
    }
}

pub proof fn lemma_parse_value(s: Seq<char>, i: int, allow: bool)
    ensures
        parse_value(s, i, allow) matches Some((v, j)) ==> i < j <= s.len(),
    decreases s.len() - i, 0int,
{
    if 0 <= i < s.len() {
        let c = s[i];
        if c == '"' {
            lemma_parse_string_rest(s, i + 1, Seq::empty());
        } else if c == '-' || is_digit(c) {
            lemma_parse_number(s, i);
        } else if c == '[' {
            let j = skip_ws(s, i + 1);
            if i < j <= s.len() {
                lemma_parse_elems(s, j, allow);
            }
        } else if c == '{' {
            let j = skip_ws(s, i + 1);
            if i < j <= s.len() {
                lemma_parse_members(s, j, allow);
            }
        }
    }
}

pub proof fn lemma_parse_elems(s: Seq<char>, i: int, allow: bool)
    ensures
        parse_elems(s, i, allow) matches Some((vs, j)) ==> i < j <= s.len(),
    decreases s.len() - i, 1int,
{
    if 0 <= i < s.len() && s[i] != ']' {
        lemma_parse_value(s, i, allow);
        if let Some((v, j)) = parse_value(s, i, allow) {
            if i < j {
                lemma_skip_ws(s, j);
                let k = skip_ws(s, j);
                if 0 <= k < s.len() && s[k] != ']' && s[k] == ',' {
                    lemma_skip_ws(s, k + 1);
                    let m = skip_ws(s, k + 1);
                    if !(0 <= m < s.len() && s[m] == ']') && i < m <= s.len() {
                        lemma_parse_elems(s, m, allow);
                    }
                }
            }
        }
    }
}

pub proof fn lemma_parse_members(s: Seq<char>, i: int, allow: bool)
    ensures
        parse_members(s, i, allow) matches Some((fs, j)) ==> i < j <= s.len(),
    decreases s.len() - i, 1int,
{
    if 0 <= i < s.len() && s[i] == '"' {
        lemma_parse_string_rest(s, i + 1, Seq::empty());
        if let Some((key, j)) = parse_string_rest(s, i + 1, Seq::empty()) {
            lemma_skip_ws(s, j);
            let k = skip_ws(s, j);
            if 0 <= k < s.len() && s[k] == ':' {
                lemma_skip_ws(s, k + 1);
                let m = skip_ws(s, k + 1);
                if i < m <= s.len() {
                    lemma_parse_value(s, m, allow);
                    if let Some((v, j2)) = parse_value(s, m, allow) {
                        lemma_skip_ws(s, j2);
                        let k2 = skip_ws(s, j2);
                        if 0 <= k2 < s.len() && s[k2] != '}' && s[k2] == ',' {
                            lemma_skip_ws(s, k2 + 1);
                            let m2 = skip_ws(s, k2 + 1);
                            if !(0 <= m2 < s.len() && s[m2] == '}') && i < m2 <= s.len() {
                                lemma_parse_members(s, m2, allow);
                            }
                        }
                    }
                }
            }
        }
    }
}

/// How parsing a whole text ends: a value, a syntax error, or trailing data
/// after the first value.
pub enum DocParse {
    Val(JsonV),
    SyntaxErr,
    TrailingErr,
}

/// Parse one JSON document from a whole text.
pub open spec fn parse_text(s: Seq<char>, allow: bool) -> DocParse {
    let i = skip_ws(s, 0);
    match parse_value(s, i, allow) {
        None => DocParse::SyntaxErr,
        Some((v, j)) => {
            if skip_ws(s, j) == s.len() {
                DocParse::Val(v)
            } else {
                DocParse::TrailingErr
            }
        },
    }
}

/// Relies on `String::push`: appends one character at the end.
#[verifier::external_body]
pub(crate) fn push_char(s: &mut String, c: char)
    ensures
        final (s)@ == old(s)@.push(c),
{
    s.push(c);
}

/// Relies on `char::from_u32`: `Some` exactly outside the surrogate range
/// and up to the largest scalar value, holding that very code point.
#[verifier::external_body]
fn char_from_u32(v: u32) -> (r: Option<char>)
    ensures
        r is Some <==> (v < 0xD800 || (0xE000 <= v && v <= 0x10FFFF)),
        r matches Some(c) ==> c as u32 == v,
{
    char::from_u32(v)
}

fn skip_ws_x(s: &[char], i: usize) -> (r: usize)
    requires
        i <= s@.len(),
    ensures
        r as int == skip_ws(s@, i as int),
        i <= r <= s@.len(),
    decreases s@.len() - i,
{
    if i < s.len() && (s[i] == ' ' || s[i] == '\n' || s[i] == '\r' || s[i] == '\t') {
        skip_ws_x(s, i + 1)
    } else {
        i
    }
}

fn digits_end_x(s: &[char], i: usize) -> (r: usize)
    requires
        i <= s@.len(),
    ensures
        r as int == digits_end(s@, i as int),
        i <= r <= s@.len(),
    decreases s@.len() - i,
{
    if i < s.len() && 48 <= (s[i] as u32) && (s[i] as u32) <= 57 {
        digits_end_x(s, i + 1)
    } else {
        i
    }
}

proof fn lemma_digits_end_all(s: Seq<char>, i: int)
    requires
        0 <= i <= s.len(),
    ensures
        forall|k: int| i <= k < digits_end(s, i) ==> is_digit(s[k]),
    decreases s.len() - i,
{
    if i < s.len() && is_digit(s[i]) {
        lemma_digits_end_all(s, i + 1);
        lemma_digits_end(s, i + 1);
    }
}

pub proof fn lemma_digits_val_nonneg(s: Seq<char>, i: int, j: int)
    requires
        forall|k: int| i <= k < j ==> is_digit(s[k]),
    ensures
        digits_val(s, i, j) >= 0,
    decreases j - i,
{
    if i < j {
        lemma_digits_val_nonneg(s, i, j - 1);
    }
}

/// Digit-run ends translate under copying out a tail of the text.
pub proof fn lemma_digits_end_shift(s: Seq<char>, i: int, j: int)
    requires
        0 <= i <= j <= s.len(),
    ensures
        digits_end(s.subrange(i, s.len() as int), j - i) + i == digits_end(s, j),
    decreases s.len() - j,
{
    let d = s.subrange(i, s.len() as int);
    if j < s.len() && is_digit(s[j]) {
        assert(d[j - i] == s[j]);
        lemma_digits_end_shift(s, i, j + 1);
    } else if j < s.len() {
        assert(d[j - i] == s[j]);
    }
}

/// Digit-run values translate under copying out a tail of the text.
pub proof fn lemma_digits_val_shift(s: Seq<char>, i: int, a: int, b: int)
    requires
        0 <= i <= a <= b <= s.len(),
    ensures
        digits_val(s.subrange(i, s.len() as int), a - i, b - i) == digits_val(s, a, b),
    decreases b - a,
{
    let d = s.subrange(i, s.len() as int);
    if a < b {
        lemma_digits_val_shift(s, i, a, b - 1);
        assert(d[b - 1 - i] == s[b - 1]);
    }
}

/// Every position before the end of a digit run holds a digit.
pub proof fn lemma_digits_end_digit_at(s: Seq<char>, i: int, k: int)
    requires
        0 <= i <= k,
        k < digits_end(s, i),
        k < s.len(),
    ensures
        is_digit(s[k]),
    decreases k - i,
{
    if i < k {
        lemma_digits_end_digit_at(s, i + 1, k);
    }
}

/// Copy `s[i..j]` into a fresh string.
fn chars_to_string(s: &[char], i: usize, j: usize) -> (r: String)
    requires
        i <= j <= s@.len(),
    ensures
        r@ == s@.subrange(i as int, j as int),
{
    let mut out = String::new();
    let mut k: usize = i;
    while k < j
        invariant
            i <= k <= j <= s@.len(),
            out@ == s@.subrange(i as int, k as int),
        decreases j - k,
    {
        push_char(&mut out, s[k]);
        proof {
            assert(s@.subrange(i as int, k as int).push(s@[k as int]) =~= s@.subrange(
                i as int,
                k as int + 1,
            ));
        }
        k = k + 1;
    }
    out
}

fn hex_val_x(c: char) -> (r: Option<u32>)
    ensures
        match hex_val(c) {
            Some(h) => r matches Some(rh) && rh as int == h && rh < 16,
            None => r is None,
        },
{
    let u = c as u32;
    if 48 <= u && u <= 57 {
        Some(u - 48)
    } else if 97 <= u && u <= 102 {
        Some(u - 87)
    } else if 65 <= u && u <= 70 {
        Some(u - 55)
    } else {
        None
    }
}

fn hex4_x(s: &[char], i: usize) -> (r: Option<u32>)
    requires
        i <= s@.len(),
    ensures
        match hex4(s@, i as int) {
            Some(h) => r matches Some(rh) && rh as int == h && rh < 0x10000,
            None => r is None,
        },
{
    if s.len() - i < 4 {
        return None;
    }
    let a = hex_val_x(s[i]);
    let b = hex_val_x(s[i + 1]);
    let c = hex_val_x(s[i + 2]);
    let d = hex_val_x(s[i + 3]);
    match (a, b, c, d) {
        (Some(a), Some(b), Some(c), Some(d)) => Some(a * 0x1000 + b * 0x100 + c * 0x10 + d),
        _ => None,
    }
}

fn parse_str_rest_x(s: &[char], i: usize, acc: String) -> (r: Option<(String, usize)>)
    requires
        i <= s@.len(),
    ensures
        match parse_string_rest(s@, i as int, acc@) {
            Some((t, j)) => r matches Some((rt, rj)) && rt@ == t && rj as int == j,
            None => r is None,
        },
    decreases s@.len() - i,
{
    if i >= s.len() {
        return None;
    }
    let c = s[i];
    if c == '"' {
        Some((acc, i + 1))
    } else if c == '\\' {
        if s.len() - i < 2 {
            return None;
        }
        let e = s[i + 1];
        if e == '"' || e == '\\' || e == '/' {
            let mut a = acc;
            push_char(&mut a, e);
            parse_str_rest_x(s, i + 2, a)
        } else if e == 'b' {
            let mut a = acc;
            push_char(&mut a, '\u{8}');
            parse_str_rest_x(s, i + 2, a)
        } else if e == 'f' {
            let mut a = acc;
            push_char(&mut a, '\u{c}');
            parse_str_rest_x(s, i + 2, a)
        } else if e == 'n' {
            let mut a = acc;
            push_char(&mut a, '\n');
            parse_str_rest_x(s, i + 2, a)
        } else if e == 'r' {
            let mut a = acc;
            push_char(&mut a, '\r');
            parse_str_rest_x(s, i + 2, a)
        } else if e == 't' {
            let mut a = acc;
            push_char(&mut a, '\t');
            parse_str_rest_x(s, i + 2, a)
        } else if e == 'u' {
            match hex4_x(s, i + 2) {
                None => None,
                Some(h) => {
                    if 0xD800 <= h && h < 0xDC00 {
                        if s.len() - i >= 12 && s[i + 6] == '\\' && s[i + 7] == 'u' {
                            match hex4_x(s, i + 8) {
                                None => None,
                                Some(l) => {
                                    if 0xDC00 <= l && l < 0xE000 {
                                        let code: u32 = 0x10000 + (h - 0xD800) * 0x400 + (l
                                            - 0xDC00);
                                        match char_from_u32(code) {
                                            Some(ch) => {
                                                proof {
                                                    vstd::utf8::char_u32_cast(ch, code);
                                                }
                                                let mut a = acc;
                                                push_char(&mut a, ch);
                                                parse_str_rest_x(s, i + 12, a)
                                            },
                                            None => {
                                                proof {
                                                    assert(false);
                                                }
                                                None
                                            },
                                        }
                                    } else {
                                        None
                                    }
                                },
                            }
                        } else {
                            None
                        }
                    } else if 0xDC00 <= h && h < 0xE000 {
                        None
                    } else {
                        match char_from_u32(h) {
                            Some(ch) => {
                                proof {
                                    vstd::utf8::char_u32_cast(ch, h);
                                }
                                let mut a = acc;
                                push_char(&mut a, ch);
                                parse_str_rest_x(s, i + 6, a)
                            },
                            None => {
                                proof {
                                    assert(false);
                                }
                                None
                            },
                        }
                    }
                },
            }
        } else {
            None
        }
    } else if (c as u32) < 0x20 {
        None
    } else {
        let mut a = acc;
        push_char(&mut a, c);
        parse_str_rest_x(s, i + 1, a)
    }
}

fn digits_value_x(s: &[char], i: usize, j: usize) -> (r: u128)
    requires
        i <= j <= s@.len(),
        forall|k: int| i <= k < j ==> is_digit(s@[k]),
    ensures
        digits_val(s@, i as int, j as int) <= u64::MAX ==> r as int == digits_val(
            s@,
            i as int,
            j as int,
        ),
        digits_val(s@, i as int, j as int) > u64::MAX ==> r == 0x1_0000_0000_0000_0000u128,
{
    let mut acc: u128 = 0;
    let mut k: usize = i;
    while k < j
        invariant
            i <= k <= j <= s@.len(),
            forall|t: int| i <= t < j ==> is_digit(s@[t]),
            digits_val(s@, i as int, k as int) <= u64::MAX ==> acc as int == digits_val(
                s@,
                i as int,
                k as int,
            ),
            digits_val(s@, i as int, k as int) > u64::MAX ==> acc
                == 0x1_0000_0000_0000_0000u128,
            acc <= 0x1_0000_0000_0000_0000u128,
        decreases j - k,
    {
        proof {
            lemma_digits_val_nonneg(s@, i as int, k as int);
        }
        let d: u32 = (s[k] as u32) - 48;
        let t = acc * 10 + (d as u128);
        acc = if t > 0xFFFF_FFFF_FFFF_FFFFu128 {
            0x1_0000_0000_0000_0000u128
        } else {
            t
        };
        k = k + 1;
    }
    acc
}

fn frac_end_x(s: &[char], j: usize) -> (r: Option<usize>)
    requires
        j <= s@.len(),
    ensures
        match frac_end(s@, j as int) {
            Some(fe) => r matches Some(rf) && rf as int == fe && j <= rf <= s@.len(),
            None => r is None,
        },
{
    if j < s.len() && s[j] == '.' {
        let fe = digits_end_x(s, j + 1);
        if fe > j + 1 {
            Some(fe)
        } else {
            None
        }
    } else {
        Some(j)
    }
}

fn exp_end_x(s: &[char], j: usize) -> (r: Option<usize>)
    requires
        j <= s@.len(),
    ensures
        match exp_end(s@, j as int) {
            Some(ee) => r matches Some(re) && re as int == ee && j <= re <= s@.len(),
            None => r is None,
        },
{
    if j < s.len() && (s[j] == 'e' || s[j] == 'E') {
        let k = if j + 1 < s.len() && (s[j + 1] == '+' || s[j + 1] == '-') {
            j + 2
        } else {
            j + 1
        };
        let ee = digits_end_x(s, k);
        if ee > k {
            Some(ee)
        } else {
            None
        }
    } else {
        Some(j)
    }
}

fn parse_number_x(s: &[char], i: usize) -> (r: Option<(JsonValue, usize)>)
    requires
        i <= s@.len(),
    ensures
        match parse_number(s@, i as int) {
            Some((v, j)) => r matches Some((rv, rj)) && rv.deep() == v && rj as int == j,
            None => r is None,
        },
{
    if i >= s.len() {
        return None;
    }
    let neg = s[i] == '-';
    let i1 = if neg {
        i + 1
    } else {
        i
    };
    if !(i1 < s.len() && 48 <= (s[i1] as u32) && (s[i1] as u32) <= 57) {
        return None;
    }
    let int_end = if s[i1] == '0' {
        i1 + 1
    } else {
        digits_end_x(s, i1)
    };
    proof {
        lemma_digits_end(s@, i1 as int);
        lemma_digits_end_all(s@, i1 as int);
    }
    let fe = match frac_end_x(s, int_end) {
        None => {
            return None;
        },
        Some(fe) => fe,
    };
    let end = match exp_end_x(s, fe) {
        None => {
            return None;
        },
        Some(ee) => ee,
    };
    if end == int_end {
        let m = digits_value_x(s, i1, int_end);
        proof {
            lemma_digits_val_nonneg(s@, i1 as int, int_end as int);
        }
        if neg {
            if m <= 0x8000_0000_0000_0000u128 {
                let v: i64 = if m == 0x8000_0000_0000_0000u128 {
                    i64::MIN
                } else {
                    -(m as i64)
                };
                Some((JsonValue::Int(v), int_end))
            } else {
                Some((JsonValue::Num(chars_to_string(s, i, int_end)), int_end))
            }
        } else {
            if m <= 0x7fff_ffff_ffff_ffffu128 {
                Some((JsonValue::Int(m as i64), int_end))
            } else {
                Some((JsonValue::Num(chars_to_string(s, i, int_end)), int_end))
            }
        }
    } else {
        Some((JsonValue::Num(chars_to_string(s, i, end)), end))
    }
}

fn match4(s: &[char], i: usize, w0: char, w1: char, w2: char, w3: char) -> (r: bool)
    requires
        i < s@.len(),
    ensures
        r == lit_at(s@, i as int, seq![w0, w1, w2, w3]),
{
    if s.len() - i >= 4 && s[i] == w0 && s[i + 1] == w1 && s[i + 2] == w2 && s[i + 3] == w3 {
        proof {
            assert(s@.subrange(i as int, i as int + 4) =~= seq![w0, w1, w2, w3]);
        }
        true
    } else {
        proof {
            if lit_at(s@, i as int, seq![w0, w1, w2, w3]) {
                let w = seq![w0, w1, w2, w3];
                assert(s@.subrange(i as int, i as int + 4)[0] == s@[i as int]);
                assert(s@.subrange(i as int, i as int + 4)[1] == s@[i as int + 1]);
                assert(s@.subrange(i as int, i as int + 4)[2] == s@[i as int + 2]);
                assert(s@.subrange(i as int, i as int + 4)[3] == s@[i as int + 3]);
            }
        }
        false
    }
}

fn match5(s: &[char], i: usize, w0: char, w1: char, w2: char, w3: char, w4: char) -> (r: bool)
    requires
        i < s@.len(),
    ensures
        r == lit_at(s@, i as int, seq![w0, w1, w2, w3, w4]),
{
    if s.len() - i >= 5 && s[i] == w0 && s[i + 1] == w1 && s[i + 2] == w2 && s[i + 3] == w3 && s[i
        + 4] == w4 {
        proof {
            assert(s@.subrange(i as int, i as int + 5) =~= seq![w0, w1, w2, w3, w4]);
        }
        true
    } else {
        proof {
            if lit_at(s@, i as int, seq![w0, w1, w2, w3, w4]) {
                assert(s@.subrange(i as int, i as int + 5)[0] == s@[i as int]);
                assert(s@.subrange(i as int, i as int + 5)[1] == s@[i as int + 1]);
                assert(s@.subrange(i as int, i as int + 5)[2] == s@[i as int + 2]);
                assert(s@.subrange(i as int, i as int + 5)[3] == s@[i as int + 3]);
                assert(s@.subrange(i as int, i as int + 5)[4] == s@[i as int + 4]);
            }
        }
        false
    }
}

fn parse_value_x(s: &[char], i: usize, allow: bool) -> (r: Option<(JsonValue, usize)>)
    requires
        i <= s@.len(),
    ensures
        match parse_value(s@, i as int, allow) {
            Some((v, j)) => r matches Some((rv, rj)) && rv.deep() == v && rj as int == j,
            None => r is None,
        },
    decreases s@.len() - i, 0int,
{
    if i >= s.len() {
        return None;
    }
    let c = s[i];
    if c == 'n' {
        if match4(s, i, 'n', 'u', 'l', 'l') {
            Some((JsonValue::Null, i + 4))
        } else {
            None
        }
    } else if c == 't' {
        if match4(s, i, 't', 'r', 'u', 'e') {
            Some((JsonValue::Bool(true), i + 4))
        } else {
            None
        }
    } else if c == 'f' {
        if match5(s, i, 'f', 'a', 'l', 's', 'e') {
            Some((JsonValue::Bool(false), i + 5))
        } else {
            None
        }
    } else if c == '"' {
        match parse_str_rest_x(s, i + 1, String::new()) {
            None => None,
            Some((t, j)) => Some((JsonValue::Str(t), j)),
        }
    } else if c == '-' || (48 <= (c as u32) && (c as u32) <= 57) {
        parse_number_x(s, i)
    } else if c == '[' {
        let j = skip_ws_x(s, i + 1);
        match parse_elems_x(s, j, allow) {
            None => None,
            Some((vs, end)) => Some((JsonValue::Arr(vs), end)),
        }
    } else if c == '{' {
        let j = skip_ws_x(s, i + 1);
        match parse_members_x(s, j, allow) {
            None => None,
            Some((fs, end)) => Some((JsonValue::Obj(fs), end)),
        }
    } else {
        None
    }
}

fn parse_elems_x(s: &[char], i: usize, allow: bool) -> (r: Option<(Vec<JsonValue>, usize)>)
    requires
        i <= s@.len(),
    ensures
        match parse_elems(s@, i as int, allow) {
            Some((vs, j)) => r matches Some((rv, rj)) && deep_elems(rv@) == vs && rj as int == j,
            None => r is None,
        },
    decreases s@.len() - i, 1int,
{
    if i >= s.len() {
        return None;
    }
    if s[i] == ']' {
        let out: Vec<JsonValue> = Vec::new();
        proof {
            lemma_deep_elems(out@);
            assert(deep_elems(out@) =~= Seq::<JsonV>::empty());
        }
        return Some((out, i + 1));
    }
    match parse_value_x(s, i, allow) {
        None => None,
        Some((v, j)) => {
            proof {
                lemma_parse_value(s@, i as int, allow);
            }
            let k = skip_ws_x(s, j);
            if k < s.len() && s[k] == ']' {
                let mut out: Vec<JsonValue> = Vec::new();
                out.push(v);
                proof {
                    lemma_deep_elems(out@);
                    assert(deep_elems(out@) =~= seq![out@[0].deep()]);
                }
                Some((out, k + 1))
            } else if k < s.len() && s[k] == ',' {
                let m = skip_ws_x(s, k + 1);
                if m < s.len() && s[m] == ']' {
                    if allow {
                        let mut out: Vec<JsonValue> = Vec::new();
                        out.push(v);
                        proof {
                            lemma_deep_elems(out@);
                            assert(deep_elems(out@) =~= seq![out@[0].deep()]);
                        }
                        Some((out, m + 1))
                    } else {
                        None
                    }
                } else {
                    match parse_elems_x(s, m, allow) {
                        None => None,
                        Some((rest, end)) => {
                            let ghost rest_view = rest@;
                            let mut out = rest;
                            out.insert(0, v);
                            proof {
                                lemma_deep_elems(out@);
                                lemma_deep_elems(rest_view);
                                assert(deep_elems(out@) =~= seq![v.deep()] + deep_elems(
                                    rest_view,
                                ));
                            }
                            Some((out, end))
                        },
                    }
                }
            } else {
                None
            }
        },
    }
}

fn parse_members_x(s: &[char], i: usize, allow: bool) -> (r: Option<
    (Vec<(String, JsonValue)>, usize),
>)
    requires
        i <= s@.len(),
    ensures
        match parse_members(s@, i as int, allow) {
            Some((fs, j)) => r matches Some((rf, rj)) && deep_fields(rf@) == fs && rj as int
                == j,
            None => r is None,
        },
    decreases s@.len() - i, 1int,
{
    if i >= s.len() {
        return None;
    }
    if s[i] == '}' {
        let out: Vec<(String, JsonValue)> = Vec::new();
        proof {
            lemma_deep_fields(out@);
            assert(deep_fields(out@) =~= Seq::<(Seq<char>, JsonV)>::empty());
        }
        return Some((out, i + 1));
    }
    if s[i] != '"' {
        return None;
    }
    match parse_str_rest_x(s, i + 1, String::new()) {
        None => None,
        Some((key, j)) => {
            proof {
                lemma_parse_string_rest(s@, i as int + 1, Seq::empty());
            }
            let k = skip_ws_x(s, j);
            if !(k < s.len() && s[k] == ':') {
                return None;
            }
            let m = skip_ws_x(s, k + 1);
            match parse_value_x(s, m, allow) {
                None => None,
                Some((v, j2)) => {
                    proof {
                        lemma_parse_value(s@, m as int, allow);
                    }
                    let k2 = skip_ws_x(s, j2);
                    if k2 < s.len() && s[k2] == '}' {
                        let mut out: Vec<(String, JsonValue)> = Vec::new();
                        out.push((key, v));
                        proof {
                            lemma_deep_fields(out@);
                            assert(deep_fields(out@) =~= seq![
                                (out@[0].0@, out@[0].1.deep()),
                            ]);
                        }
                        Some((out, k2 + 1))
                    } else if k2 < s.len() && s[k2] == ',' {
                        let m2 = skip_ws_x(s, k2 + 1);
                        if m2 < s.len() && s[m2] == '}' {
                            if allow {
                                let mut out: Vec<(String, JsonValue)> = Vec::new();
                                out.push((key, v));
                                proof {
                                    lemma_deep_fields(out@);
                                    assert(deep_fields(out@) =~= seq![
                                        (out@[0].0@, out@[0].1.deep()),
                                    ]);
                                }
                                Some((out, m2 + 1))
                            } else {
                                None
                            }
                        } else {
                            match parse_members_x(s, m2, allow) {
                                None => None,
                                Some((rest, end)) => {
                                    let ghost rest_view = rest@;
                                    let ghost key_view = key@;
                                    let ghost v_deep = v.deep();
                                    let mut out = rest;
                                    out.insert(0, (key, v));
                                    proof {
                                        lemma_deep_fields(out@);
                                        lemma_deep_fields(rest_view);
                                        assert(deep_fields(out@) =~= seq![(key_view, v_deep)]
                                            + deep_fields(rest_view));
                                    }
                                    Some((out, end))
                                },
                            }
                        }
                    } else {
                        None
                    }
                },
            }
        },
    }
}

/// The lower-case hexadecimal digit of value `d`.
pub open spec fn hex_char(d: int) -> char {
    if d < 10 {
        ((48 + d) as u32) as char
    } else {
        ((87 + d) as u32) as char
    }
}

/// How one character is written inside a serialized string.
pub open spec fn esc_char(c: char) -> Seq<char> {
    if c == '"' {
        seq!['\\', '"']
    } else if c == '\\' {
        seq!['\\', '\\']
    } else if c == '\n' {
        seq!['\\', 'n']
    } else if c == '\r' {
        seq!['\\', 'r']
    } else if c == '\t' {
        seq!['\\', 't']
    } else if c == '\u{8}' {
        seq!['\\', 'b']
    } else if c == '\u{c}' {
        seq!['\\', 'f']
    } else if (c as u32) < 0x20 {
        seq!['\\', 'u', '0', '0', hex_char((c as u32) as int / 16), hex_char((c as u32) as int % 16)]
    } else {
        seq![c]
    }
}

/// The serialized body of a string (without the quotes).
pub open spec fn ser_str_body(t: Seq<char>) -> Seq<char>
    decreases t.len(),
{
    if t.len() == 0 {
        Seq::empty()
    } else {
        esc_char(t[0]) + ser_str_body(t.drop_first())
    }
}

/// The decimal digits of `n`, most significant first (empty for `n <= 0`).
pub open spec fn dec_digits(n: int) -> Seq<char>
    decreases n,
{
    if n <= 0 {
        Seq::empty()
    } else {
        dec_digits(n / 10).push(hex_char(n % 10))
    }
}

/// The decimal form of an integer.
pub open spec fn ser_int(n: int) -> Seq<char> {
    if n == 0 {
        seq!['0']
    } else if n > 0 {
        dec_digits(n)
    } else {
        seq!['-'] + dec_digits(-n)
    }
}

/// Serialized form of a value: canonical, with no added whitespace, strings
/// minimally escaped, and number lexemes written back as they were read.
pub open spec fn ser(v: JsonV) -> Seq<char>
    decreases v,
{
    match v {
        JsonV::Null => seq!['n', 'u', 'l', 'l'],
        JsonV::Bool(b) => if b {
            seq!['t', 'r', 'u', 'e']
        } else {
            seq!['f', 'a', 'l', 's', 'e']
        },
        JsonV::Int(n) => ser_int(n),
        JsonV::Num(t) => t,
        JsonV::Str(t) => seq!['"'] + ser_str_body(t) + seq!['"'],
        JsonV::Arr(vs) => seq!['['] + ser_elems(vs) + seq![']'],
        JsonV::Obj(fs) => seq!['{'] + ser_fields(fs) + seq!['}'],
    }
}

/// Serialized elements of an array, comma-separated.
pub open spec fn ser_elems(vs: Seq<JsonV>) -> Seq<char>
    decreases vs,
{
    if vs.len() == 0 {
        Seq::empty()
    } else {
        ser(vs[0]) + ser_elems_rest(vs.drop_first())
    }
}

/// Serialized elements after the first, each preceded by a comma.
pub open spec fn ser_elems_rest(vs: Seq<JsonV>) -> Seq<char>
    decreases vs,
{
    if vs.len() == 0 {
        Seq::empty()
    } else {
        seq![','] + ser(vs[0]) + ser_elems_rest(vs.drop_first())
    }
}

/// One serialized object member.
pub open spec fn ser_field(f: (Seq<char>, JsonV)) -> Seq<char>
    decreases f,
{
    seq!['"'] + ser_str_body(f.0) + seq!['"', ':'] + ser(f.1)
}

/// Serialized members of an object, comma-separated.
pub open spec fn ser_fields(fs: Seq<(Seq<char>, JsonV)>) -> Seq<char>
    decreases fs,
{
    if fs.len() == 0 {
        Seq::empty()
    } else {
        ser_field(fs[0]) + ser_fields_rest(fs.drop_first())
    }
}

/// Serialized members after the first, each preceded by a comma.
pub open spec fn ser_fields_rest(fs: Seq<(Seq<char>, JsonV)>) -> Seq<char>
    decreases fs,
{
    if fs.len() == 0 {
        Seq::empty()
    } else {
        seq![','] + ser_field(fs[0]) + ser_fields_rest(fs.drop_first())
    }
}

proof fn lemma_ser_str_body_push(t: Seq<char>, c: char)
    ensures
        ser_str_body(t.push(c)) == ser_str_body(t) + esc_char(c),
    decreases t.len(),
{
    if t.len() == 0 {
        let l = t.push(c);
        assert(l[0] == c);
        assert(l.drop_first() =~= Seq::<char>::empty());
        assert(ser_str_body(Seq::<char>::empty()) == Seq::<char>::empty());
        assert(ser_str_body(l) == esc_char(c) + ser_str_body(l.drop_first()));
        assert(ser_str_body(l) =~= ser_str_body(t) + esc_char(c));
    } else {
        let l = t.push(c);
        assert(l[0] == t[0]);
        assert(l.drop_first() =~= t.drop_first().push(c));
        lemma_ser_str_body_push(t.drop_first(), c);
        assert(ser_str_body(l) == esc_char(t[0]) + ser_str_body(t.drop_first().push(c)));
        assert(ser_str_body(t) == esc_char(t[0]) + ser_str_body(t.drop_first()));
        assert(ser_str_body(l) =~= ser_str_body(t) + esc_char(c));
    }
}

proof fn lemma_ser_elems_rest_push(vs: Seq<JsonV>, v: JsonV)
    ensures
        ser_elems_rest(vs.push(v)) == ser_elems_rest(vs) + seq![','] + ser(v),
    decreases vs.len(),
{
    if vs.len() == 0 {
        let l = vs.push(v);
        assert(l[0] == v);
        assert(l.drop_first() =~= Seq::<JsonV>::empty());
        assert(ser_elems_rest(Seq::<JsonV>::empty()) == Seq::<char>::empty());
        assert(ser_elems_rest(l) == seq![','] + ser(v) + ser_elems_rest(l.drop_first()));
        assert(ser_elems_rest(l) =~= ser_elems_rest(vs) + seq![','] + ser(v));
    } else {
        let l = vs.push(v);
        assert(l[0] == vs[0]);
        assert(l.drop_first() =~= vs.drop_first().push(v));
        lemma_ser_elems_rest_push(vs.drop_first(), v);
        assert(ser_elems_rest(l) == seq![','] + ser(vs[0]) + ser_elems_rest(
            vs.drop_first().push(v),
        ));
        assert(ser_elems_rest(vs) == seq![','] + ser(vs[0]) + ser_elems_rest(vs.drop_first()));
        assert(ser_elems_rest(l) =~= ser_elems_rest(vs) + seq![','] + ser(v));
    }
}

proof fn lemma_ser_fields_rest_push(fs: Seq<(Seq<char>, JsonV)>, f: (Seq<char>, JsonV))
    ensures
        ser_fields_rest(fs.push(f)) == ser_fields_rest(fs) + seq![','] + ser_field(f),
    decreases fs.len(),
{
    if fs.len() == 0 {
        let l = fs.push(f);
        assert(l[0] == f);
        assert(l.drop_first() =~= Seq::<(Seq<char>, JsonV)>::empty());
        assert(ser_fields_rest(Seq::<(Seq<char>, JsonV)>::empty()) == Seq::<char>::empty());
        assert(ser_fields_rest(l) == seq![','] + ser_field(f) + ser_fields_rest(l.drop_first()));
        assert(ser_fields_rest(l) =~= ser_fields_rest(fs) + seq![','] + ser_field(f));
    } else {
        let l = fs.push(f);
        assert(l[0] == fs[0]);
        assert(l.drop_first() =~= fs.drop_first().push(f));
        lemma_ser_fields_rest_push(fs.drop_first(), f);
        assert(ser_fields_rest(l) == seq![','] + ser_field(fs[0]) + ser_fields_rest(
            fs.drop_first().push(f),
        ));
        assert(ser_fields_rest(fs) == seq![','] + ser_field(fs[0]) + ser_fields_rest(
            fs.drop_first(),
        ));
        assert(ser_fields_rest(l) =~= ser_fields_rest(fs) + seq![','] + ser_field(f));
    }
}

fn hex_char_x(d: u32) -> (r: char)
    requires
        d < 16,
    ensures
        r == hex_char(d as int),
{
    if d < 10 {
        ((48 + d) as u8) as char
    } else {
        ((87 + d) as u8) as char
    }
}

fn push_esc(out: &mut String, c: char)
    ensures
        final (out)@ == old(out)@ + esc_char(c),
{
    if c == '"' {
        push_char(out, '\\');
        push_char(out, '"');
    } else if c == '\\' {
        push_char(out, '\\');
        push_char(out, '\\');
    } else if c == '\n' {
        push_char(out, '\\');
        push_char(out, 'n');
    } else if c == '\r' {
        push_char(out, '\\');
        push_char(out, 'r');
    } else if c == '\t' {
        push_char(out, '\\');
        push_char(out, 't');
    } else if c == '\u{8}' {
        push_char(out, '\\');
        push_char(out, 'b');
    } else if c == '\u{c}' {
        push_char(out, '\\');
        push_char(out, 'f');
    } else if (c as u32) < 0x20 {
        push_char(out, '\\');
        push_char(out, 'u');
        push_char(out, '0');
        push_char(out, '0');
        push_char(out, hex_char_x((c as u32) / 16));
        push_char(out, hex_char_x((c as u32) % 16));
        proof {
            assert(final (out)@ =~= old(out)@ + esc_char(c));
        }
    } else {
        push_char(out, c);
    }
    proof {
        assert(final (out)@ =~= old(out)@ + esc_char(c));
    }
}

fn write_string(out: &mut String, t: &String)
    ensures
        final (out)@ == old(out)@ + seq!['"'] + ser_str_body(t@) + seq!['"'],
{
    push_char(out, '"');
    let ghost base = out@;
    let len = t.as_str().unicode_len();
    let mut k: usize = 0;
    while k < len
        invariant
            len == t@.len(),
            k <= len,
            out@ == base + ser_str_body(t@.take(k as int)),
        decreases len - k,
    {
        let c = t.as_str().get_char(k);
        push_esc(out, c);
        proof {
            lemma_ser_str_body_push(t@.take(k as int), c);
            assert(t@.take(k as int).push(t@[k as int]) =~= t@.take(k as int + 1));
        }
        k = k + 1;
    }
    proof {
        assert(t@.take(len as int) =~= t@);
    }
    push_char(out, '"');
    proof {
        assert(final (out)@ =~= old(out)@ + seq!['"'] + ser_str_body(t@) + seq!['"']);
    }
}

fn write_digits(out: &mut String, m: u64)
    ensures
        final (out)@ == old(out)@ + dec_digits(m as int),
    decreases m,
{
    if m == 0 {
        proof {
            assert(final (out)@ =~= old(out)@ + dec_digits(0));
        }
    } else {
        write_digits(out, m / 10);
        push_char(out, hex_char_x((m % 10) as u32));
        proof {
            assert(final (out)@ =~= old(out)@ + dec_digits(m as int));
        }
    }
}

fn write_int(out: &mut String, n: i64)
    ensures
        final (out)@ == old(out)@ + ser_int(n as int),
{
    if n == 0 {
        push_char(out, '0');
        proof {
            assert(final (out)@ =~= old(out)@ + ser_int(0));
        }
    } else if n > 0 {
        write_digits(out, n as u64);
    } else {
        push_char(out, '-');
        let m: u64 = if n == i64::MIN {
            0x8000_0000_0000_0000u64
        } else {
            (-n) as u64
        };
        write_digits(out, m);
        proof {
            assert(final (out)@ =~= old(out)@ + ser_int(n as int));
        }
    }
}

#[verifier::loop_isolation(false)]
#[verifier::rlimit(60)]
fn write_value(out: &mut String, v: &JsonValue)
    ensures
        final (out)@ == old(out)@ + ser(v.deep()),
    decreases v,
{
    match v {
        JsonValue::Null => {
            push_char(out, 'n');
            push_char(out, 'u');
            push_char(out, 'l');
            push_char(out, 'l');
            proof {
                assert(final (out)@ =~= old(out)@ + ser(v.deep()));
            }
        },
        JsonValue::Bool(b) => {
            if *b {
                push_char(out, 't');
                push_char(out, 'r');
                push_char(out, 'u');
                push_char(out, 'e');
            } else {
                push_char(out, 'f');
                push_char(out, 'a');
                push_char(out, 'l');
                push_char(out, 's');
                push_char(out, 'e');
            }
            proof {
                assert(final (out)@ =~= old(out)@ + ser(v.deep()));
            }
        },
        JsonValue::Int(n) => {
            write_int(out, *n);
        },
        JsonValue::Num(t) => {
            out.append(t.as_str());
        },
        JsonValue::Str(t) => {
            write_string(out, t);
            proof {
                assert(old(out)@ + seq!['"'] + ser_str_body(t@) + seq!['"'] =~= old(out)@ + ser(
                    v.deep(),
                ));
            }
        },
        JsonValue::Arr(elems) => {
            push_char(out, '[');
            let ghost base = out@;
            let ghost dvs = deep_elems(elems@);
            proof {
                lemma_deep_elems(elems@);
            }
            let n = elems.len();
            let mut k: usize = 0;
            while k < n
                invariant
                    n == elems@.len(),
                    k <= n,
                    dvs == deep_elems(elems@),
                    dvs.len() == n,
                    forall|t: int| 0 <= t < n ==> dvs[t] == elems@[t].deep(),
                    k == 0 ==> out@ == base,
                    k > 0 ==> out@ == base + ser(dvs[0]) + ser_elems_rest(
                        dvs.subrange(1, k as int),
                    ),
                decreases n - k,
            {
                proof {
                    assert(decreases_to!(*v => v->Arr_0));
                    assert(decreases_to!(*elems => elems@[k as int]));
                    assert(decreases_to!(*v => elems@[k as int]));
                }
                if k == 0 {
                    write_value(out, &elems[k]);
                    proof {
                        assert(dvs.subrange(1, 1) =~= Seq::<JsonV>::empty());
                        assert(out@ =~= base + ser(dvs[0]) + ser_elems_rest(dvs.subrange(1, 1)));
                    }
                } else {
                    push_char(out, ',');
                    write_value(out, &elems[k]);
                    proof {
                        lemma_ser_elems_rest_push(dvs.subrange(1, k as int), dvs[k as int]);
                        assert(dvs.subrange(1, k as int).push(dvs[k as int]) =~= dvs.subrange(
                            1,
                            k as int + 1,
                        ));
                        assert(out@ =~= base + ser(dvs[0]) + ser_elems_rest(
                            dvs.subrange(1, k as int + 1),
                        ));
                    }
                }
                k = k + 1;
            }
            push_char(out, ']');
            proof {
                if n == 0 {
                    assert(final (out)@ =~= old(out)@ + ser(v.deep()));
                } else {
                    assert(dvs.subrange(1, n as int) =~= dvs.drop_first());
                    assert(final (out)@ =~= old(out)@ + ser(v.deep()));
                }
            }
        },
        JsonValue::Obj(fields) => {
            push_char(out, '{');
            let ghost base = out@;
            let ghost dfs = deep_fields(fields@);
            proof {
                lemma_deep_fields(fields@);
            }
            let n = fields.len();
            let mut k: usize = 0;
            while k < n
                invariant
                    n == fields@.len(),
                    k <= n,
                    dfs == deep_fields(fields@),
                    dfs.len() == n,
                    forall|t: int|
                        0 <= t < n ==> dfs[t] == (fields@[t].0@, fields@[t].1.deep()),
                    k == 0 ==> out@ == base,
                    k > 0 ==> out@ == base + ser_field(dfs[0]) + ser_fields_rest(
                        dfs.subrange(1, k as int),
                    ),
                decreases n - k,
            {
                if k > 0 {
                    push_char(out, ',');
                }
                let ghost mid = out@;
                proof {
                    assert(decreases_to!(*v => v->Obj_0));
                    assert(decreases_to!(*fields => fields@[k as int]));
                    assert(decreases_to!(fields@[k as int] => fields@[k as int].1));
                    assert(decreases_to!(*v => fields@[k as int].1));
                }
                write_string(out, &fields[k].0);
                push_char(out, ':');
                write_value(out, &fields[k].1);
                proof {
                    assert(out@ =~= mid + ser_field(dfs[k as int]));
                    if k == 0 {
                        assert(dfs.subrange(1, 1) =~= Seq::<(Seq<char>, JsonV)>::empty());
                        assert(out@ =~= base + ser_field(dfs[0]) + ser_fields_rest(
                            dfs.subrange(1, 1),
                        ));
                    } else {
                        lemma_ser_fields_rest_push(dfs.subrange(1, k as int), dfs[k as int]);
                        assert(dfs.subrange(1, k as int).push(dfs[k as int]) =~= dfs.subrange(
                            1,
                            k as int + 1,
                        ));
                        assert(out@ =~= base + ser_field(dfs[0]) + ser_fields_rest(
                            dfs.subrange(1, k as int + 1),
                        ));
                    }
                }
                k = k + 1;
            }
            push_char(out, '}');
            proof {
                if n == 0 {
                    assert(final (out)@ =~= old(out)@ + ser(v.deep()));
                } else {
                    assert(dfs.subrange(1, n as int) =~= dfs.drop_first());
                    assert(final (out)@ =~= old(out)@ + ser(v.deep()));
                }
            }
        },
    }
}

/// The decimal spelling of a number (empty for zero, which `ser_int`
/// alone writes as a bare digit).
pub fn decimal_digits_string(m: u64) -> (r: String)
    ensures
        r@ == dec_digits(m as int),
{
    let mut out = String::new();
    write_digits(&mut out, m);
    out
}

impl JsonValue {
    /// Serialize this value back to text: canonical, no added whitespace,
    /// the author's number lexemes and value shapes kept as they were.
    pub fn to_text(&self) -> (r: String)
        ensures
            r@ == ser(self.deep()),
    {
        let mut out = String::new();
        write_value(&mut out, self);
        out
    }

    /// A value representing the same tree.
    #[verifier::loop_isolation(false)]
    pub fn duplicate(&self) -> (r: JsonValue)
        ensures
            r.deep() == self.deep(),
        decreases self,
    {
        match self {
            JsonValue::Null => JsonValue::Null,
            JsonValue::Bool(b) => JsonValue::Bool(*b),
            JsonValue::Int(n) => JsonValue::Int(*n),
            JsonValue::Num(s) => JsonValue::Num(s.clone()),
            JsonValue::Str(s) => JsonValue::Str(s.clone()),
            JsonValue::Arr(elems) => {
                let mut out: Vec<JsonValue> = Vec::new();
                let n = elems.len();
                let mut k: usize = 0;
                while k < n
                    invariant
                        k <= n,
                        out@.len() == k,
                        forall|i: int|
                            0 <= i < k ==> (#[trigger] out@[i]).deep() == elems@[i].deep(),
                    decreases n - k,
                {
                    proof {
                        assert(decreases_to!(*self => self->Arr_0));
                        assert(decreases_to!(*elems => elems@[k as int]));
                        assert(decreases_to!(*self => elems@[k as int]));
                    }
                    out.push(elems[k].duplicate());
                    k = k + 1;
                }
                let r = JsonValue::Arr(out);
                proof {
                    lemma_deep_elems(out@);
                    lemma_deep_elems(elems@);
                    assert(deep_elems(out@) =~= deep_elems(elems@));
                }
                r
            },
            JsonValue::Obj(fields) => {
                let mut out: Vec<(String, JsonValue)> = Vec::new();
                let n = fields.len();
                let mut k: usize = 0;
                while k < n
                    invariant
                        k <= n,
                        out@.len() == k,
                        forall|i: int|
                            0 <= i < k ==> (#[trigger] out@[i]).0@ == fields@[i].0@
                                && out@[i].1.deep() == fields@[i].1.deep(),
                    decreases n - k,
                {
                    proof {
                        assert(decreases_to!(*self => self->Obj_0));
                        assert(decreases_to!(*fields => fields@[k as int]));
                        assert(decreases_to!(fields@[k as int] => fields@[k as int].1));
                        assert(decreases_to!(*self => fields@[k as int].1));
                    }
                    let entry = &fields[k];
                    out.push((entry.0.clone(), entry.1.duplicate()));
                    k = k + 1;
                }
                let r = JsonValue::Obj(out);
                proof {
                    lemma_deep_fields(out@);
                    lemma_deep_fields(fields@);
                    assert(deep_fields(out@) =~= deep_fields(fields@));
                }
                r
            },
        }
    }
}

/// Why a document failed to parse.
#[derive(Debug, PartialEq, Eq, Structural, Clone, Copy)]
pub enum ParseError {
    /// The text is not one well-formed JSON value.
    Syntax,
    /// A well-formed value is followed by more non-whitespace text.
    TrailingData,
}

/// Parse one JSON document from `s`, tolerating a trailing comma before a
/// closing delimiter if and only if `allow_trailing_comma` holds. The
/// document must hold exactly one value: trailing non-whitespace text is
/// reported as `TrailingData`.
pub fn parse_json(s: &[char], allow_trailing_comma: bool) -> (r: Result<JsonValue, ParseError>)
    ensures
        match parse_text(s@, allow_trailing_comma) {
            DocParse::Val(v) => r matches Ok(rv) && rv.deep() == v,
            DocParse::SyntaxErr => r == Err::<JsonValue, ParseError>(ParseError::Syntax),
            DocParse::TrailingErr => r == Err::<JsonValue, ParseError>(ParseError::TrailingData),
        },
{
    let i = skip_ws_x(s, 0);
    match parse_value_x(s, i, allow_trailing_comma) {
        None => Err(ParseError::Syntax),
        Some((v, j)) => {
            proof {
                lemma_parse_value(s@, i as int, allow_trailing_comma);
            }
            let k = skip_ws_x(s, j);
            if k == s.len() {
                Ok(v)
            } else {
                Err(ParseError::TrailingData)
            }
        },
    }
}

} // verus!
