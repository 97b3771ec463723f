use vstd::prelude::*;

use crate::kinds::text_eq;
use crate::types::float_bits_zero;

verus! {

/// A runtime value, as far as this library reads it: what `option(...)` is handed and
/// returns, and the entries of the dict that lazy setters fill. A float is held by its
/// IEEE-754 bits; schema and function values are `Other`.
#[derive(Debug, PartialEq)]
pub enum OptionValue {
    Undefined,
    NoneValue,
    Bool(bool),
    Int(i64),
    Float(u64),
    Str(String),
    List(Vec<OptionValue>),
    Dict(Vec<(String, OptionValue)>),
    Other,
}

/// A float conversion that an option value needs and that is left to the caller, which
/// owns floating-point arithmetic: the float `as i64`, the float's text, the integer
/// `as f64`, or the text parsed as a float (0.0 when it is none).
#[derive(Debug, PartialEq)]
pub enum FloatCast {
    FloatToInt(u64),
    FloatToStr(u64),
    IntToFloat(i64),
    StrToFloat(String),
}

/// The value of an option after conversion to its declared type, or the float
/// conversion still owed for it.
#[derive(Debug, PartialEq)]
pub enum Converted {
    Value(OptionValue),
    Float(FloatCast),
}

/// Why `option(...)` fails: a value that cannot be used as the declared type, a type
/// name that is not known, or a required option that was not given. A KCL run stops on
/// each of these, with the messages "cannot use '{value}' as type '{typ}'", "unknown type
/// '{typ}'" and "option('{name}') must be initialized, try '-D {name}=?' argument"; here
/// the error is returned to the caller, which stops the run with that message.
#[derive(Debug, PartialEq)]
pub enum OptionError {
    CannotUse { value: OptionValue, typ: String },
    UnknownType { typ: String },
    Required { name: String },
}

/// The mathematical value of an option value.
pub enum OptionView {
    Undefined,
    NoneValue,
    Bool(bool),
    Int(int),
    Float(u64),
    Str(Seq<char>),
    List(Seq<OptionView>),
    Dict(Seq<(Seq<char>, OptionView)>),
    Other,
}

pub enum FloatCastView {
    FloatToInt(u64),
    FloatToStr(u64),
    IntToFloat(int),
    StrToFloat(Seq<char>),
}

pub enum ConvertedView {
    Value(OptionView),
    Float(FloatCastView),
}

pub enum OptionErrorView {
    CannotUse { value: OptionView, typ: Seq<char> },
    UnknownType { typ: Seq<char> },
    Required { name: Seq<char> },
}

pub open spec fn view_option(v: OptionValue) -> OptionView
    decreases v,
{
    match v {
        OptionValue::Undefined => OptionView::Undefined,
        OptionValue::NoneValue => OptionView::NoneValue,
        OptionValue::Bool(b) => OptionView::Bool(b),
        OptionValue::Int(i) => OptionView::Int(i as int),
        OptionValue::Float(bits) => OptionView::Float(bits),
        OptionValue::Str(s) => OptionView::Str(s@),
        OptionValue::List(items) => OptionView::List(view_options(items@)),
        OptionValue::Dict(entries) => OptionView::Dict(view_entries(entries@)),
        OptionValue::Other => OptionView::Other,
    }
}

pub open spec fn view_options(s: Seq<OptionValue>) -> Seq<OptionView>
    decreases s,
{
    if s.len() == 0 {
        Seq::empty()
    } else {
        view_options(s.subrange(0, s.len() - 1)).push(view_option(s[s.len() - 1]))
    }
}

pub open spec fn view_entries(s: Seq<(String, OptionValue)>) -> Seq<(Seq<char>, OptionView)>
    decreases s,
{
    if s.len() == 0 {
        Seq::empty()
    } else {
        view_entries(s.subrange(0, s.len() - 1)).push(
            (s[s.len() - 1].0@, view_option(s[s.len() - 1].1)),
        )
    }
}

/// The view of a dict's entries has one entry per entry, in order.
pub proof fn lemma_view_entries_len(s: Seq<(String, OptionValue)>)
    ensures
        view_entries(s).len() == s.len(),
    decreases s.len(),
{
    if s.len() > 0 {
        lemma_view_entries_len(s.subrange(0, s.len() - 1));
    }
}

/// Each entry of the view of a dict's entries is the view of that entry.
pub proof fn lemma_view_entries_index(s: Seq<(String, OptionValue)>, i: int)
    requires
        0 <= i < s.len(),
    ensures
        view_entries(s)[i] == (s[i].0@, view_option(s[i].1)),
    decreases s.len(),
{
    lemma_view_entries_len(s.subrange(0, s.len() - 1));
    if i < s.len() - 1 {
        lemma_view_entries_index(s.subrange(0, s.len() - 1), i);
    }
}

/// Adding an entry adds its view.
pub proof fn lemma_view_entries_push(s: Seq<(String, OptionValue)>, e: (String, OptionValue))
    ensures
        view_entries(s.push(e)) == view_entries(s).push((e.0@, view_option(e.1))),
{
    assert(s.push(e).subrange(0, s.len() as int) =~= s);
}

impl View for OptionValue {
    type V = OptionView;

    open spec fn view(&self) -> OptionView {
        view_option(*self)
    }
}

pub open spec fn view_cast(c: FloatCast) -> FloatCastView {
    match c {
        FloatCast::FloatToInt(bits) => FloatCastView::FloatToInt(bits),
        FloatCast::FloatToStr(bits) => FloatCastView::FloatToStr(bits),
        FloatCast::IntToFloat(i) => FloatCastView::IntToFloat(i as int),
        FloatCast::StrToFloat(s) => FloatCastView::StrToFloat(s@),
    }
}

pub open spec fn view_converted(c: Converted) -> ConvertedView {
    match c {
        Converted::Value(v) => ConvertedView::Value(v@),
        Converted::Float(f) => ConvertedView::Float(view_cast(f)),
    }
}

pub open spec fn view_error(e: OptionError) -> OptionErrorView {
    match e {
        OptionError::CannotUse { value, typ } => OptionErrorView::CannotUse { value: value@, typ: typ@ },
        OptionError::UnknownType { typ } => OptionErrorView::UnknownType { typ: typ@ },
        OptionError::Required { name } => OptionErrorView::Required { name: name@ },
    }
}

pub open spec fn view_result(r: Result<Converted, OptionError>) -> Result<ConvertedView, OptionErrorView> {
    match r {
        Ok(c) => Ok(view_converted(c)),
        Err(e) => Err(view_error(e)),
    }
}

// ------------------------------------------------------------------
// Decimal text of integers.
// ------------------------------------------------------------------

pub open spec fn is_digit(c: char) -> bool {
    '0' <= c <= '9'
}

/// The number that a sequence of decimal digits writes.
pub open spec fn digits_value(s: Seq<char>) -> int
    decreases s.len(),
{
    if s.len() == 0 {
        0
    } else {
        digits_value(s.drop_last()) * 10 + (s.last() as int - '0' as int)
    }
}

/// The integer that a text writes in decimal: an optional `+` or `-`, then one or more
/// digits and nothing else; none when the text is not so written or the number does
/// not fit in an `i64`.
pub open spec fn parse_i64_spec(s: Seq<char>) -> Option<i64> {
    let body = unsigned_part(s);
    let n = if s.len() > 0 && s[0] == '-' {
        -digits_value(body)
    } else {
        digits_value(body)
    };
    if all_digits(body) && i64::MIN <= n <= i64::MAX {
        Some(n as i64)
    } else {
        None
    }
}

/// A text without its leading `+` or `-`, if it has one.
pub open spec fn unsigned_part(s: Seq<char>) -> Seq<char> {
    if s.len() > 0 && (s[0] == '-' || s[0] == '+') {
        s.drop_first()
    } else {
        s
    }
}

/// One or more decimal digits and nothing else.
pub open spec fn all_digits(s: Seq<char>) -> bool {
    s.len() > 0 && forall|i: int| 0 <= i < s.len() ==> is_digit(#[trigger] s[i])
}

/// The digits of a natural number in decimal, with no leading zero.
pub open spec fn nat_text(n: nat) -> Seq<char>
    decreases n,
{
    if n < 10 {
        seq![(('0' as int) + n) as char]
    } else {
        nat_text(n / 10).push((('0' as int) + n % 10) as char)
    }
}

/// An integer in decimal, with `-` before a negative one.
pub open spec fn decimal_text(n: int) -> Seq<char> {
    if n < 0 {
        seq!['-'] + nat_text((-n) as nat)
    } else {
        nat_text(n as nat)
    }
}

/// The digits of a number are never negative.
proof fn lemma_digits_value_nonneg(s: Seq<char>)
    requires
        forall|i: int| 0 <= i < s.len() ==> is_digit(#[trigger] s[i]),
    ensures
        digits_value(s) >= 0,
    decreases s.len(),
{
    if s.len() > 0 {
        lemma_digits_value_nonneg(s.drop_last());
    }
}

/// The digits of a number write a number no smaller than any prefix of them does.
proof fn lemma_digits_prefix_le(s: Seq<char>, k: int)
    requires
        0 <= k <= s.len(),
        forall|i: int| 0 <= i < s.len() ==> is_digit(#[trigger] s[i]),
    ensures
        digits_value(s.take(k)) <= digits_value(s),
    decreases s.len() - k,
{
    if k < s.len() {
        lemma_digits_prefix_le(s, k + 1);
        let t = s.take(k + 1);
        assert(t.drop_last() =~= s.take(k));
        lemma_digits_value_nonneg(s.take(k));
    } else {
        assert(s.take(k) =~= s);
    }
}

/// The integer that a text writes in decimal, an optional sign then digits only, if it
/// fits in an `i64`.
fn parse_int(s: &str) -> (r: Option<i64>)
    ensures
        r == parse_i64_spec(s@),
{
    let chars = crate::kinds::chars_of(s);
    let len = chars.len();
    if len == 0 {
        return None;
    }
    let negative = chars[0] == '-';
    let start: usize = if chars[0] == '-' || chars[0] == '+' {
        1
    } else {
        0
    };
    let ghost body = unsigned_part(s@);
    assert(body =~= s@.subrange(start as int, len as int));
    if start == len {
        return None;
    }
    let limit: i128 = 0x8000_0000_0000_0000i128;
    let mut acc: i128 = 0;
    let mut i: usize = start;
    while i < len
        invariant
            chars@ == s@,
            len == chars.len(),
            start <= i <= len,
            body == s@.subrange(start as int, len as int),
            body == unsigned_part(s@),
            forall|j: int| 0 <= j < i - start ==> is_digit(#[trigger] body[j]),
            acc == digits_value(body.take(i - start)),
            limit == 0x8000_0000_0000_0000i128,
            0 <= acc <= limit,
        decreases len - i,
    {
        let c = chars[i];
        assert(body[i - start] == c);
        if !('0' <= c && c <= '9') {
            assert(!is_digit(body[i - start]));
            assert(!all_digits(body));
            return None;
        }
        let d: i128 = (c as u32 - '0' as u32) as i128;
        assert(body.take(i - start + 1).drop_last() =~= body.take(i - start));
        acc = acc * 10 + d;
        if acc > limit {
            proof {
                assert forall|j: int| 0 <= j < i + 1 - start implies is_digit(
                    #[trigger] body.take(i - start + 1)[j],
                ) by {
                    assert(body.take(i - start + 1)[j] == body[j]);
                }
                if all_digits(body) {
                    lemma_digits_prefix_le(body, i - start + 1);
                }
            }
            return None;
        }
        i += 1;
    }
    assert(body.take(len - start) =~= body);
    if negative {
        assert(s@[0] == '-');
        Some((0 - acc) as i64)
    } else if acc < limit {
        Some(acc as i64)
    } else {
        None
    }
}

/// The decimal digit `d` as a one-character text.
fn digit_text(d: u64) -> (r: &'static str)
    requires
        d < 10,
    ensures
        r@ == seq![(('0' as int) + d) as char],
{
    proof {
        reveal_strlit("0");
        reveal_strlit("1");
        reveal_strlit("2");
        reveal_strlit("3");
        reveal_strlit("4");
        reveal_strlit("5");
        reveal_strlit("6");
        reveal_strlit("7");
        reveal_strlit("8");
        reveal_strlit("9");
    }
    if d == 0 {
        "0"
    } else if d == 1 {
        "1"
    } else if d == 2 {
        "2"
    } else if d == 3 {
        "3"
    } else if d == 4 {
        "4"
    } else if d == 5 {
        "5"
    } else if d == 6 {
        "6"
    } else if d == 7 {
        "7"
    } else if d == 8 {
        "8"
    } else {
        "9"
    }
}

/// The digits of a natural number in decimal.
fn nat_text_of(n: u64) -> (r: String)
    ensures
        r@ == nat_text(n as nat),
    decreases n,
{
    if n < 10 {
        String::from_str(digit_text(n))
    } else {
        let mut r = nat_text_of(n / 10);
        r.append(digit_text(n % 10));
        r
    }
}

/// The integer's decimal text, with `-` before a negative one.
fn int_text(n: i64) -> (r: String)
    ensures
        r@ == decimal_text(n as int),
{
    if n < 0 {
        let magnitude: u64 = ((0 - (n + 1)) as u64) + 1;
        proof {
            reveal_strlit("-");
        }
        String::from_str("-").concat(nat_text_of(magnitude).as_str())
    } else {
        nat_text_of(n as u64)
    }
}

// ------------------------------------------------------------------
// Conversion to a declared type.
// ------------------------------------------------------------------

/// The bits of the float `1.0`.
pub const FLOAT_ONE_BITS: u64 = 0x3ff0_0000_0000_0000u64;

/// What converting `v` to the type named `typ` gives. An empty name keeps the value.
/// `bool` reads numbers as nonzero and texts as `True` or `true`, anything else as
/// undefined; `int`, `float` and `str` convert scalars; `list` and `dict` accept only
/// themselves. A value that a type refuses, or an unknown type name, gives `None` in
/// list-option mode and an error otherwise; a text that is no integer is refused as
/// `int` in either mode.
pub open spec fn convert_spec(v: OptionView, typ: Seq<char>, list_mode: bool) -> Result<
    ConvertedView,
    OptionErrorView,
> {
    let refused = if list_mode {
        Ok(ConvertedView::Value(OptionView::NoneValue))
    } else {
        Err(OptionErrorView::CannotUse { value: v, typ })
    };
    if typ.len() == 0 {
        Ok(ConvertedView::Value(v))
    } else if typ == "bool"@ {
        Ok(
            ConvertedView::Value(
                match v {
                    OptionView::Bool(b) => OptionView::Bool(b),
                    OptionView::Int(i) => OptionView::Bool(i != 0),
                    OptionView::Float(bits) => OptionView::Bool(!float_bits_zero(bits)),
                    OptionView::Str(s) => OptionView::Bool(s == "True"@ || s == "true"@),
                    _ => OptionView::Undefined,
                },
            ),
        )
    } else if typ == "int"@ {
        match v {
            OptionView::Bool(b) => Ok(ConvertedView::Value(OptionView::Int(if b { 1 } else { 0 }))),
            OptionView::Int(i) => Ok(ConvertedView::Value(OptionView::Int(i))),
            OptionView::Float(bits) => Ok(ConvertedView::Float(FloatCastView::FloatToInt(bits))),
            OptionView::Str(s) => match parse_i64_spec(s) {
                Some(n) => Ok(ConvertedView::Value(OptionView::Int(n as int))),
                None => Err(OptionErrorView::CannotUse { value: v, typ }),
            },
            _ => refused,
        }
    } else if typ == "float"@ {
        match v {
            OptionView::Bool(b) => Ok(
                ConvertedView::Value(
                    OptionView::Float(
                        if b {
                            FLOAT_ONE_BITS
                        } else {
                            0
                        },
                    ),
                ),
            ),
            OptionView::Int(i) => Ok(ConvertedView::Float(FloatCastView::IntToFloat(i))),
            OptionView::Float(bits) => Ok(ConvertedView::Value(OptionView::Float(bits))),
            OptionView::Str(s) => Ok(ConvertedView::Float(FloatCastView::StrToFloat(s))),
            _ => refused,
        }
    } else if typ == "str"@ {
        match v {
            OptionView::Bool(b) => Ok(
                ConvertedView::Value(
                    OptionView::Str(
                        if b {
                            "true"@
                        } else {
                            "false"@
                        },
                    ),
                ),
            ),
            OptionView::Int(i) => Ok(ConvertedView::Value(OptionView::Str(decimal_text(i)))),
            OptionView::Float(bits) => Ok(ConvertedView::Float(FloatCastView::FloatToStr(bits))),
            OptionView::Str(s) => Ok(ConvertedView::Value(OptionView::Str(s))),
            _ => refused,
        }
    } else if typ == "list"@ {
        match v {
            OptionView::List(_) => Ok(ConvertedView::Value(v)),
            _ => refused,
        }
    } else if typ == "dict"@ {
        match v {
            OptionView::Dict(_) => Ok(ConvertedView::Value(v)),
            _ => refused,
        }
    } else if list_mode {
        Ok(ConvertedView::Value(OptionView::NoneValue))
    } else {
        Err(OptionErrorView::UnknownType { typ })
    }
}

/// The refusal of `v` as type `typ`.
fn refuse(v: OptionValue, typ: &str, list_mode: bool) -> (r: Result<Converted, OptionError>)
    ensures
        view_result(r) == (if list_mode {
            Ok(ConvertedView::Value(OptionView::NoneValue))
        } else {
            Err(OptionErrorView::CannotUse { value: v@, typ: typ@ })
        }),
{
    if list_mode {
        Ok(Converted::Value(OptionValue::NoneValue))
    } else {
        Err(OptionError::CannotUse { value: v, typ: String::from_str(typ) })
    }
}

/// Converts an option value to the type named `typ`. Where the run stops on the value
/// (a text that is no integer declared `int`, a value that the declared type refuses
/// outside list-option mode, an unknown type name outside list-option mode), the
/// `OptionError` for it is returned instead, and exactly then.
pub fn convert_option(v: OptionValue, typ: &str, list_mode: bool) -> (r: Result<Converted, OptionError>)
    ensures
        view_result(r) == convert_spec(v@, typ@, list_mode),
{
    let ghost vv = v@;
    if typ.unicode_len() == 0 {
        return Ok(Converted::Value(v));
    }
    if text_eq(typ, "bool") {
        let b = match &v {
            OptionValue::Bool(b) => OptionValue::Bool(*b),
            OptionValue::Int(i) => OptionValue::Bool(*i != 0),
            OptionValue::Float(bits) => OptionValue::Bool(*bits & 0x7fff_ffff_ffff_ffffu64 != 0),
            OptionValue::Str(s) => OptionValue::Bool(text_eq(s.as_str(), "True") || text_eq(s.as_str(), "true")),
            _ => OptionValue::Undefined,
        };
        return Ok(Converted::Value(b));
    }
    if text_eq(typ, "int") {
        return match v {
            OptionValue::Bool(b) => Ok(Converted::Value(OptionValue::Int(if b { 1 } else { 0 }))),
            OptionValue::Int(i) => Ok(Converted::Value(OptionValue::Int(i))),
            OptionValue::Float(bits) => Ok(Converted::Float(FloatCast::FloatToInt(bits))),
            OptionValue::Str(s) => match parse_int(s.as_str()) {
                Some(n) => Ok(Converted::Value(OptionValue::Int(n))),
                None => Err(
                    OptionError::CannotUse { value: OptionValue::Str(s), typ: String::from_str(typ) },
                ),
            },
            other => refuse(other, typ, list_mode),
        };
    }
    if text_eq(typ, "float") {
        return match v {
            OptionValue::Bool(b) => Ok(
                Converted::Value(
                    OptionValue::Float(
                        if b {
                            FLOAT_ONE_BITS
                        } else {
                            0
                        },
                    ),
                ),
            ),
            OptionValue::Int(i) => Ok(Converted::Float(FloatCast::IntToFloat(i))),
            OptionValue::Float(bits) => Ok(Converted::Value(OptionValue::Float(bits))),
            OptionValue::Str(s) => Ok(Converted::Float(FloatCast::StrToFloat(s))),
            other => refuse(other, typ, list_mode),
        };
    }
    if text_eq(typ, "str") {
        return match v {
            OptionValue::Bool(b) => {
                let t = if b {
                    String::from_str("true")
                } else {
                    String::from_str("false")
                };
                Ok(Converted::Value(OptionValue::Str(t)))
            },
            OptionValue::Int(i) => Ok(Converted::Value(OptionValue::Str(int_text(i)))),
            OptionValue::Float(bits) => Ok(Converted::Float(FloatCast::FloatToStr(bits))),
            OptionValue::Str(s) => Ok(Converted::Value(OptionValue::Str(s))),
            other => refuse(other, typ, list_mode),
        };
    }
    if text_eq(typ, "list") {
        return match v {
            OptionValue::List(items) => Ok(Converted::Value(OptionValue::List(items))),
            other => refuse(other, typ, list_mode),
        };
    }
    if text_eq(typ, "dict") {
        return match v {
            OptionValue::Dict(entries) => Ok(Converted::Value(OptionValue::Dict(entries))),
            other => refuse(other, typ, list_mode),
        };
    }
    if list_mode {
        Ok(Converted::Value(OptionValue::NoneValue))
    } else {
        Err(OptionError::UnknownType { typ: String::from_str(typ) })
    }
}

// ------------------------------------------------------------------
// `option(name, type=.., required=.., default=..)`.
// ------------------------------------------------------------------

/// A value as given, or converted when a type is declared.
pub open spec fn typed_spec(v: OptionView, typ: Option<Seq<char>>, list_mode: bool) -> Result<
    ConvertedView,
    OptionErrorView,
> {
    match typ {
        Some(t) => convert_spec(v, t, list_mode),
        None => Ok(ConvertedView::Value(v)),
    }
}

/// What `option(...)` gives. With a name: a value given for it on the command line
/// (`Some(Some(v))`), or undefined when it was given with no value (`Some(None)`);
/// else the default, if any, each converted to the declared type when there is one.
/// Otherwise `None` in list-option mode, the `Required` error for a required option
/// (named `?` when the call gave no name), and `None` for any other.
pub open spec fn option_spec(
    name: Option<Seq<char>>,
    given: Option<Option<OptionView>>,
    default: Option<OptionView>,
    typ: Option<Seq<char>>,
    required: bool,
    list_mode: bool,
) -> Result<ConvertedView, OptionErrorView> {
    let rest = if list_mode {
        Ok(ConvertedView::Value(OptionView::NoneValue))
    } else if required {
        Err(
            OptionErrorView::Required {
                name: match name {
                    Some(n) => n,
                    None => "?"@,
                },
            },
        )
    } else {
        Ok(ConvertedView::Value(OptionView::NoneValue))
    };
    if name is None {
        rest
    } else {
        match given {
            Some(Some(v)) => typed_spec(v, typ, list_mode),
            Some(None) => Ok(ConvertedView::Value(OptionView::Undefined)),
            None => match default {
                Some(d) => typed_spec(d, typ, list_mode),
                None => rest,
            },
        }
    }
}

/// Converts `v` when a type is declared.
fn typed(v: OptionValue, typ: Option<&str>, list_mode: bool) -> (r: Result<Converted, OptionError>)
    ensures
        view_result(r) == typed_spec(
            v@,
            match typ {
                Some(t) => Some(t@),
                None => None,
            },
            list_mode,
        ),
{
    match typ {
        Some(t) => convert_option(v, t, list_mode),
        None => Ok(Converted::Value(v)),
    }
}

/// The value of `option(name, type=typ, required=required, default=default)`. Where the
/// run stops (a required option that was not given, or a conversion that stops it), the
/// `OptionError` for it is returned instead, and exactly then.
/// `given` is what the command line set for the name: nothing, a name with no value
/// (`Some(None)`), or a value; `list_mode` is the list-option mode of the run.
pub fn option_value(
    name: Option<&str>,
    given: Option<Option<OptionValue>>,
    default: Option<OptionValue>,
    typ: Option<&str>,
    required: bool,
    list_mode: bool,
) -> (r: Result<Converted, OptionError>)
    ensures
        view_result(r) == option_spec(
            match name {
                Some(n) => Some(n@),
                None => None,
            },
            match given {
                Some(Some(v)) => Some(Some(v@)),
                Some(None) => Some(None),
                None => None,
            },
            match default {
                Some(d) => Some(d@),
                None => None,
            },
            match typ {
                Some(t) => Some(t@),
                None => None,
            },
            required,
            list_mode,
        ),
{
    if let Some(_) = name {
        match given {
            Some(None) => {
                return Ok(Converted::Value(OptionValue::Undefined));
            },
            Some(Some(v)) => {
                return typed(v, typ, list_mode);
            },
            None => {
                if let Some(d) = default {
                    return typed(d, typ, list_mode);
                }
            },
        }
    }
    if list_mode {
        Ok(Converted::Value(OptionValue::NoneValue))
    } else if required {
        let shown = match name {
            Some(n) => String::from_str(n),
            None => String::from_str("?"),
        };
        Err(OptionError::Required { name: shown })
    } else {
        Ok(Converted::Value(OptionValue::NoneValue))
    }
}

} // verus!
