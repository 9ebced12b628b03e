//! Coercion primitives: each accepts two or more physical JSON shapes for
//! one logical value and normalizes them, keeping the author's shape where
//! the caller needs to know it (as a tagged union).

use vstd::prelude::*;
use crate::json::{JsonV, JsonValue};

verus! {

/// Why one value could not be coerced.
#[derive(Debug, PartialEq, Eq, Structural, Clone, Copy)]
pub enum CoerceError {
    /// The physical shape is not one this coercion accepts.
    WrongShape,
    /// A number does not fit the target width.
    OutOfRange,
    /// A string does not parse as the target.
    Unparsable,
}

/// The serde-style default for fields that are true unless written.
pub fn bool_true() -> (r: bool)
    ensures
        r,
{
    true
}

/// The serde-style default for chance fields, in percent.
pub fn u32_100() -> (r: u32)
    ensures
        r == 100,
{
    100
}

/// A boolean, a string spelling of one, or an absent value read as `false`.
pub open spec fn spec_parse_bool(v: JsonV) -> Result<bool, CoerceError> {
    match v {
        JsonV::Bool(b) => Ok(b),
        JsonV::Str(t) => if t == seq!['t', 'r', 'u', 'e'] {
            Ok(true)
        } else if t == seq!['f', 'a', 'l', 's', 'e'] {
            Ok(false)
        } else {
            Err(CoerceError::Unparsable)
        },
        JsonV::Null => Ok(false),
        _ => Err(CoerceError::WrongShape),
    }
}

/// Accept a native boolean, a string parseable as one, or null (read as
/// `false`); anything else is refused.
pub fn parse_bool(v: &JsonValue) -> (r: Result<bool, CoerceError>)
    ensures
        r == spec_parse_bool(v.deep()),
{
    match v {
        JsonValue::Bool(b) => Ok(*b),
        JsonValue::Str(t) => {
            let tr = String::from_str("true");
            let fa = String::from_str("false");
            proof {
                reveal_strlit("true");
                reveal_strlit("false");
                assert("true"@ =~= seq!['t', 'r', 'u', 'e']);
                assert("false"@ =~= seq!['f', 'a', 'l', 's', 'e']);
            }
            if *t == tr {
                Ok(true)
            } else if *t == fa {
                Ok(false)
            } else {
                Err(CoerceError::Unparsable)
            }
        },
        JsonValue::Null => Ok(false),
        _ => Err(CoerceError::WrongShape),
    }
}

/// A signed integer, or a boolean as a 0/1 shorthand.
pub open spec fn spec_int_or_bool_i32(v: JsonV) -> Result<i32, CoerceError> {
    match v {
        JsonV::Int(n) => if -0x8000_0000 <= n <= 0x7fff_ffff {
            Ok(n as i32)
        } else {
            Err(CoerceError::OutOfRange)
        },
        JsonV::Bool(b) => Ok(
            if b {
                1
            } else {
                0
            },
        ),
        _ => Err(CoerceError::WrongShape),
    }
}

/// Accept a signed integer that fits `i32`, or a boolean coerced to 0/1.
pub fn int_or_bool_i32(v: &JsonValue) -> (r: Result<i32, CoerceError>)
    ensures
        r == spec_int_or_bool_i32(v.deep()),
{
    match v {
        JsonValue::Int(n) => {
            let n = *n;
            if -0x8000_0000i64 <= n && n <= 0x7fff_ffffi64 {
                Ok(n as i32)
            } else {
                Err(CoerceError::OutOfRange)
            }
        },
        JsonValue::Bool(b) => Ok(
            if *b {
                1
            } else {
                0
            },
        ),
        _ => Err(CoerceError::WrongShape),
    }
}

/// The value of a decimal spelling, with an optional leading `+`;
/// `None` when the text is not a non-empty run of decimal digits.
pub open spec fn spec_dec_u32(t: Seq<char>) -> Option<int> {
    let d = if t.len() > 0 && t[0] == '+' {
        t.drop_first()
    } else {
        t
    };
    if d.len() > 0 && crate::json::digits_end(d, 0) == d.len() {
        Some(crate::json::digits_val(d, 0, d.len() as int))
    } else {
        None
    }
}

/// A number of `u32` width, or a string that parses as one.
pub open spec fn spec_parse_u32(v: JsonV) -> Result<u32, CoerceError> {
    match v {
        JsonV::Int(n) => if 0 <= n <= 0xffff_ffff {
            Ok(n as u32)
        } else if n > 0xffff_ffff {
            Err(CoerceError::OutOfRange)
        } else {
            Err(CoerceError::WrongShape)
        },
        JsonV::Str(t) => match spec_dec_u32(t) {
            Some(n) => if n <= 0xffff_ffff {
                Ok(n as u32)
            } else {
                Err(CoerceError::Unparsable)
            },
            None => Err(CoerceError::Unparsable),
        },
        _ => Err(CoerceError::WrongShape),
    }
}

/// Accept a non-negative integer that fits `u32`, or a string that parses
/// as one. A negative integer is a shape error (it is not of `u32` shape);
/// an unsigned integer beyond `u32` is out of range; a string that does not
/// parse, or parses beyond `u32`, is unparsable.
pub fn parse_u32(v: &JsonValue) -> (r: Result<u32, CoerceError>)
    ensures
        r == spec_parse_u32(v.deep()),
{
    match v {
        JsonValue::Int(n) => {
            let n = *n;
            if 0i64 <= n && n <= 0xffff_ffffi64 {
                Ok(n as u32)
            } else if n > 0xffff_ffffi64 {
                Err(CoerceError::OutOfRange)
            } else {
                Err(CoerceError::WrongShape)
            }
        },
        JsonValue::Str(t) => parse_u32_str(t),
        _ => Err(CoerceError::WrongShape),
    }
}

fn digits_end_str(t: &String, i: usize) -> (r: usize)
    requires
        i <= t@.len(),
    ensures
        r as int == crate::json::digits_end(t@, i as int),
        i <= r <= t@.len(),
    decreases t@.len() - i,
{
    if i < t.as_str().unicode_len() {
        let u = t.as_str().get_char(i) as u32;
        if 48 <= u && u <= 57 {
            return digits_end_str(t, i + 1);
        }
    }
    i
}

fn parse_u32_str(t: &String) -> (r: Result<u32, CoerceError>)
    ensures
        r == (match spec_dec_u32(t@) {
            Some(n) => if n <= 0xffff_ffff {
                Ok(n as u32)
            } else {
                Err::<u32, CoerceError>(CoerceError::Unparsable)
            },
            None => Err::<u32, CoerceError>(CoerceError::Unparsable),
        }),
{
    let len = t.as_str().unicode_len();
    let start: usize = if len > 0 && t.as_str().get_char(0) == '+' {
        1
    } else {
        0
    };
    let ghost d = if t@.len() > 0 && t@[0] == '+' {
        t@.drop_first()
    } else {
        t@
    };
    proof {
        assert(d =~= t@.subrange(start as int, len as int));
    }
    if len == start {
        return Err(CoerceError::Unparsable);
    }
    let e = digits_end_str(t, start);
    proof {
        crate::json::lemma_digits_end_shift(t@, start as int, start as int);
    }
    if e != len {
        return Err(CoerceError::Unparsable);
    }
    let mut acc: u64 = 0;
    let mut k: usize = start;
    while k < len
        invariant
            start <= k <= len,
            len == t@.len(),
            crate::json::digits_end(t@, start as int) == len,
            crate::json::digits_val(t@, start as int, k as int) <= u32::MAX ==> acc as int
                == crate::json::digits_val(t@, start as int, k as int),
            crate::json::digits_val(t@, start as int, k as int) > u32::MAX ==> acc
                == 0x1_0000_0000u64,
            acc <= 0x1_0000_0000u64,
        decreases len - k,
    {
        proof {
            crate::json::lemma_digits_end_digit_at(t@, start as int, k as int);
            assert forall|j: int| start <= j < k implies crate::json::is_digit(t@[j]) by {
                crate::json::lemma_digits_end_digit_at(t@, start as int, j);
            }
            crate::json::lemma_digits_val_nonneg(t@, start as int, k as int);
        }
        let c = t.as_str().get_char(k);
        let u = c as u32;
        let step = acc * 10 + ((u - 48) as u64);
        acc = if step > 0xffff_ffffu64 {
            0x1_0000_0000u64
        } else {
            step
        };
        k = k + 1;
    }
    proof {
        crate::json::lemma_digits_val_shift(t@, start as int, start as int, len as int);
    }
    if acc > 0xffff_ffffu64 {
        Err(CoerceError::Unparsable)
    } else {
        Ok(acc as u32)
    }
}

/// An optional `u32`: null stands for nothing, any other value must coerce
/// as a `u32` does.
pub open spec fn spec_parse_opt_u32(v: JsonV) -> Result<Option<u32>, CoerceError> {
    match v {
        JsonV::Null => Ok(None),
        _ => match spec_parse_u32(v) {
            Ok(n) => Ok(Some(n)),
            Err(e) => Err(e),
        },
    }
}

/// Accept null as absent, and otherwise whatever `parse_u32` accepts.
pub fn parse_opt_u32(v: &JsonValue) -> (r: Result<Option<u32>, CoerceError>)
    ensures
        r == spec_parse_opt_u32(v.deep()),
{
    match v {
        JsonValue::Null => Ok(None),
        _ => match parse_u32(v) {
            Ok(n) => Ok(Some(n)),
            Err(e) => Err(e),
        },
    }
}

/// A string or a signed integer, remembered as whichever was given:
/// downstream a symbolic token and a numeric magnitude mean different things.
#[derive(Debug, PartialEq)]
pub enum StringOrI32 {
    Str(String),
    I32(i32),
}

/// Model of a `StringOrI32`.
pub enum StringOrI32V {
    Str(Seq<char>),
    I32(int),
}

impl View for StringOrI32 {
    type V = StringOrI32V;

    open spec fn view(&self) -> StringOrI32V {
        match self {
            StringOrI32::Str(t) => StringOrI32V::Str(t@),
            StringOrI32::I32(n) => StringOrI32V::I32(*n as int),
        }
    }
}

/// Which `StringOrI32` a value decodes to, if any.
pub open spec fn spec_string_or_i32(v: JsonV) -> Result<StringOrI32V, CoerceError> {
    match v {
        JsonV::Str(t) => Ok(StringOrI32V::Str(t)),
        JsonV::Int(n) => if -0x8000_0000 <= n <= 0x7fff_ffff {
            Ok(StringOrI32V::I32(n))
        } else {
            Err(CoerceError::OutOfRange)
        },
        _ => Err(CoerceError::WrongShape),
    }
}

/// The value a `StringOrI32` writes back: the very shape it was given in.
pub open spec fn spec_string_or_i32_json(w: StringOrI32V) -> JsonV {
    match w {
        StringOrI32V::Str(t) => JsonV::Str(t),
        StringOrI32V::I32(n) => JsonV::Int(n),
    }
}

impl StringOrI32 {
    /// Accept a string, or a signed integer that fits `i32`.
    pub fn decode(v: &JsonValue) -> (r: Result<StringOrI32, CoerceError>)
        ensures
            match spec_string_or_i32(v.deep()) {
                Ok(w) => r matches Ok(x) && x@ == w,
                Err(e) => r == Err::<StringOrI32, CoerceError>(e),
            },
    {
        match v {
            JsonValue::Str(t) => Ok(StringOrI32::Str(t.clone())),
            JsonValue::Int(n) => {
                let n = *n;
                if -0x8000_0000i64 <= n && n <= 0x7fff_ffffi64 {
                    Ok(StringOrI32::I32(n as i32))
                } else {
                    Err(CoerceError::OutOfRange)
                }
            },
            _ => Err(CoerceError::WrongShape),
        }
    }

    /// Write the value back in the shape it was given in.
    pub fn to_json(&self) -> (r: JsonValue)
        ensures
            r.deep() == spec_string_or_i32_json(self@),
    {
        match self {
            StringOrI32::Str(t) => JsonValue::Str(t.clone()),
            StringOrI32::I32(n) => JsonValue::Int(*n as i64),
        }
    }
}

/// A bare string, or an array of strings, remembered as whichever was given.
#[derive(Debug, PartialEq)]
pub enum StringOrStringArray {
    Str(String),
    Arr(Vec<String>),
}

/// Model of a `StringOrStringArray`.
pub enum StringOrStringArrayV {
    Str(Seq<char>),
    Arr(Seq<Seq<char>>),
}

impl View for StringOrStringArray {
    type V = StringOrStringArrayV;

    open spec fn view(&self) -> StringOrStringArrayV {
        match self {
            StringOrStringArray::Str(t) => StringOrStringArrayV::Str(t@),
            StringOrStringArray::Arr(vs) => StringOrStringArrayV::Arr(
                Seq::new(vs@.len(), |i: int| vs@[i]@),
            ),
        }
    }
}

/// The texts of a sequence of string values; `None` on any other element.
pub open spec fn spec_str_elems(vs: Seq<JsonV>) -> Option<Seq<Seq<char>>>
    decreases vs.len(),
{
    if vs.len() == 0 {
        Some(Seq::empty())
    } else {
        match (spec_str_elems(vs.drop_last()), vs.last()) {
            (Some(rest), JsonV::Str(t)) => Some(rest.push(t)),
            _ => None,
        }
    }
}

proof fn lemma_str_elems_take(vs: Seq<JsonV>, m: int)
    requires
        0 <= m <= vs.len(),
        spec_str_elems(vs) is Some,
    ensures
        spec_str_elems(vs.take(m)) is Some,
    decreases vs.len() - m,
{
    if m < vs.len() {
        lemma_str_elems_take(vs, m + 1);
        assert(vs.take(m + 1).drop_last() =~= vs.take(m));
        assert(spec_str_elems(vs.take(m + 1)) is Some);
    } else {
        assert(vs.take(m) =~= vs);
    }
}

/// Which `StringOrStringArray` a value decodes to, if any.
pub open spec fn spec_string_or_string_array(v: JsonV) -> Result<
    StringOrStringArrayV,
    CoerceError,
> {
    match v {
        JsonV::Str(t) => Ok(StringOrStringArrayV::Str(t)),
        JsonV::Arr(vs) => match spec_str_elems(vs) {
            Some(ts) => Ok(StringOrStringArrayV::Arr(ts)),
            None => Err(CoerceError::WrongShape),
        },
        _ => Err(CoerceError::WrongShape),
    }
}

/// The value a `StringOrStringArray` writes back: the shape it was given in.
pub open spec fn spec_string_or_string_array_json(w: StringOrStringArrayV) -> JsonV {
    match w {
        StringOrStringArrayV::Str(t) => JsonV::Str(t),
        StringOrStringArrayV::Arr(ts) => JsonV::Arr(ts.map_values(|t: Seq<char>| JsonV::Str(t))),
    }
}

impl StringOrStringArray {
    /// Accept a bare string, or an array whose elements are all strings.
    #[verifier::loop_isolation(false)]
    pub fn decode(v: &JsonValue) -> (r: Result<StringOrStringArray, CoerceError>)
        ensures
            match spec_string_or_string_array(v.deep()) {
                Ok(w) => r matches Ok(x) && x@ == w,
                Err(e) => r == Err::<StringOrStringArray, CoerceError>(e),
            },
    {
        match v {
            JsonValue::Str(t) => Ok(StringOrStringArray::Str(t.clone())),
            JsonValue::Arr(elems) => {
                let ghost dvs = crate::json::deep_elems(elems@);
                proof {
                    crate::json::lemma_deep_elems(elems@);
                }
                let mut out: Vec<String> = Vec::new();
                let n = elems.len();
                let mut k: usize = 0;
                proof {
                    assert(dvs.take(0) =~= Seq::<JsonV>::empty());
                    assert(Seq::new(out@.len(), |i: int| out@[i]@) =~= Seq::<Seq<char>>::empty());
                }
                while k < n
                    invariant
                        n == elems@.len(),
                        k <= n,
                        dvs == crate::json::deep_elems(elems@),
                        dvs.len() == n,
                        forall|t: int| 0 <= t < n ==> dvs[t] == elems@[t].deep(),
                        out@.len() == k,
                        spec_str_elems(dvs.take(k as int)) == Some(
                            Seq::new(out@.len(), |i: int| out@[i]@),
                        ),
                    decreases n - k,
                {
                    match &elems[k] {
                        JsonValue::Str(t) => {
                            let ghost prev = out@;
                            out.push(t.clone());
                            proof {
                                assert(dvs.take(k as int + 1).drop_last() =~= dvs.take(k as int));
                                assert(dvs.take(k as int + 1).last() == dvs[k as int]);
                                assert(Seq::new(out@.len(), |i: int| out@[i]@) =~= Seq::new(
                                    prev.len(),
                                    |i: int| prev[i]@,
                                ).push(t@));
                            }
                        },
                        _ => {
                            proof {
                                assert(!(elems@[k as int] is Str));
                                assert(!(elems@[k as int].deep() is Str));
                                assert(dvs.take(k as int + 1).drop_last() =~= dvs.take(k as int));
                                assert(dvs.take(k as int + 1).last() == dvs[k as int]);
                                assert(spec_str_elems(dvs.take(k as int + 1)) is None);
                                if spec_str_elems(dvs) is Some {
                                    lemma_str_elems_take(dvs, k as int + 1);
                                }
                                assert(spec_str_elems(dvs) is None);
                                assert(v.deep() == JsonV::Arr(dvs));
                            }
                            return Err(CoerceError::WrongShape);
                        },
                    }
                    k = k + 1;
                }
                proof {
                    assert(dvs.take(n as int) =~= dvs);
                }
                Ok(StringOrStringArray::Arr(out))
            },
            _ => Err(CoerceError::WrongShape),
        }
    }

    /// Write the value back in the shape it was given in.
    pub fn to_json(&self) -> (r: JsonValue)
        ensures
            r.deep() == spec_string_or_string_array_json(self@),
    {
        match self {
            StringOrStringArray::Str(t) => JsonValue::Str(t.clone()),
            StringOrStringArray::Arr(vs) => {
                let mut out: Vec<JsonValue> = Vec::new();
                let n = vs.len();
                let mut k: usize = 0;
                while k < n
                    invariant
                        n == vs@.len(),
                        k <= n,
                        out@.len() == k,
                        forall|t: int|
                            0 <= t < k ==> out@[t] == JsonValue::Str(vs@[t]),
                    decreases n - k,
                {
                    out.push(JsonValue::Str(vs[k].clone()));
                    k = k + 1;
                }
                let r = JsonValue::Arr(out);
                proof {
                    crate::json::lemma_deep_elems(out@);
                    assert(crate::json::deep_elems(out@) =~= Seq::new(
                        vs@.len(),
                        |i: int| vs@[i]@,
                    ).map_values(|t: Seq<char>| JsonV::Str(t)));
                }
                r
            },
        }
    }
}

/// A bare string, a single object, or an array: one shorthand value or an
/// explicit list, remembered as whichever was given.
#[derive(Debug, PartialEq)]
pub enum StringMapOrArray<T> {
    Str(String),
    One(T),
    Arr(Vec<T>),
}

/// A bare string (a shorthand reference) or a full record.
#[derive(Debug, PartialEq)]
pub enum StringOrStruct<T> {
    Str(String),
    Struct(T),
}

/// An aspects table read key by key: the later of two equal keys wins, as a
/// tree-map insert would have it.
pub open spec fn spec_aspects(fs: Seq<(Seq<char>, JsonV)>) -> Result<
    Map<Seq<char>, int>,
    CoerceError,
>
    decreases fs.len(),
{
    if fs.len() == 0 {
        Ok(Map::empty())
    } else {
        match spec_aspects(fs.drop_last()) {
            Err(e) => Err(e),
            Ok(m) => match spec_int_or_bool_i32(fs.last().1) {
                Ok(n) => Ok(m.insert(fs.last().0, n as int)),
                Err(e) => Err(e),
            },
        }
    }
}

proof fn lemma_aspects_extend_err(fs: Seq<(Seq<char>, JsonV)>, m: int)
    requires
        0 <= m <= fs.len(),
        spec_aspects(fs.take(m)) is Err,
    ensures
        spec_aspects(fs) == spec_aspects(fs.take(m)),
    decreases fs.len() - m,
{
    if m < fs.len() {
        assert(fs.take(m + 1).drop_last() =~= fs.take(m));
        lemma_aspects_extend_err(fs, m + 1);
    } else {
        assert(fs.take(m) =~= fs);
    }
}

/// The map meaning of an association list: later entries override earlier.
pub open spec fn assoc_map(s: Seq<(String, i32)>) -> Map<Seq<char>, int>
    decreases s.len(),
{
    if s.len() == 0 {
        Map::empty()
    } else {
        assoc_map(s.drop_last()).insert(s.last().0@, s.last().1 as int)
    }
}

/// A map or null: null stands for no table at all; inside a table each value
/// may be an integer or a boolean used as a 0/1 shorthand.
pub open spec fn spec_recipes_aspects(v: JsonV) -> Result<
    Option<Map<Seq<char>, int>>,
    CoerceError,
> {
    match v {
        JsonV::Null => Ok(None),
        JsonV::Obj(fs) => match spec_aspects(fs) {
            Ok(m) => Ok(Some(m)),
            Err(e) => Err(e),
        },
        _ => Err(CoerceError::WrongShape),
    }
}

/// Accept a map whose values are integers or 0/1 booleans, or null for no
/// table. The entries come back as pairs whose map meaning (later entries
/// overriding earlier ones) is the table read.
#[verifier::loop_isolation(false)]
pub fn recipes_aspects(v: &JsonValue) -> (r: Result<Option<Vec<(String, i32)>>, CoerceError>)
    ensures
        match spec_recipes_aspects(v.deep()) {
            Ok(w) => r matches Ok(o) && (match w {
                None => o is None,
                Some(m) => o matches Some(out) && assoc_map(out@) == m,
            }),
            Err(e) => r == Err::<Option<Vec<(String, i32)>>, CoerceError>(e),
        },
{
    match v {
        JsonValue::Null => Ok(None),
        JsonValue::Obj(fields) => {
            let ghost dfs = crate::json::deep_fields(fields@);
            proof {
                crate::json::lemma_deep_fields(fields@);
            }
            let mut out: Vec<(String, i32)> = Vec::new();
            let n = fields.len();
            let mut k: usize = 0;
            proof {
                assert(dfs.take(0) =~= Seq::<(Seq<char>, JsonV)>::empty());
            }
            while k < n
                invariant
                    n == fields@.len(),
                    k <= n,
                    dfs == crate::json::deep_fields(fields@),
                    dfs.len() == n,
                    forall|t: int|
                        0 <= t < n ==> dfs[t] == (fields@[t].0@, fields@[t].1.deep()),
                    spec_aspects(dfs.take(k as int)) == Ok::<Map<Seq<char>, int>, CoerceError>(
                        assoc_map(out@),
                    ),
                decreases n - k,
            {
                let entry = &fields[k];
                match int_or_bool_i32(&entry.1) {
                    Ok(val) => {
                        let ghost prev = out@;
                        out.push((entry.0.clone(), val));
                        proof {
                            assert(dfs.take(k as int + 1).drop_last() =~= dfs.take(k as int));
                            assert(dfs.take(k as int + 1).last() == dfs[k as int]);
                            assert(out@.drop_last() =~= prev);
                        }
                    },
                    Err(e) => {
                        proof {
                            assert(dfs[k as int].1 == fields@[k as int].1.deep());
                            assert(spec_int_or_bool_i32(dfs[k as int].1) == Err::<i32,
                                CoerceError,
                            >(e));
                            assert(dfs.take(k as int + 1).drop_last() =~= dfs.take(k as int));
                            assert(dfs.take(k as int + 1).last() == dfs[k as int]);
                            assert(spec_aspects(dfs.take(k as int + 1)) == Err::<
                                Map<Seq<char>, int>,
                                CoerceError,
                            >(e));
                            lemma_aspects_extend_err(dfs, k as int + 1);
                            assert(spec_aspects(dfs) == Err::<Map<Seq<char>, int>, CoerceError>(e));
                            assert(v.deep() == JsonV::Obj(dfs));
                        }
                        return Err(e);
                    },
                }
                k = k + 1;
            }
            proof {
                assert(dfs.take(n as int) =~= dfs);
            }
            Ok(Some(out))
        },
        _ => Err(CoerceError::WrongShape),
    }
}

} // verus!
