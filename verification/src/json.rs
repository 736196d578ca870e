//! JSON literals among an expression's parameters.
use vstd::prelude::*;
use rustc_serialize::json::Json;
use crate::data::{DataView, HBData};
use crate::text::{char_at, chars_of, is_char_at, run_end, scan_run, CharClass};

verus! {

/// What reading a text as JSON gave.
#[derive(Debug)]
pub enum Reading {
    /// Null, a boolean, a number or a string.
    Scalar(HBData),
    /// An array, whatever it holds.
    Array,
    /// An object, whatever it holds.
    Object,
    /// The text is no JSON document.
    Refused,
}

/// The view of a reading.
pub ghost enum ReadingView {
    Scalar(DataView),
    Array,
    Object,
    Refused,
}

impl View for Reading {
    type V = ReadingView;

    open spec fn view(&self) -> ReadingView {
        match *self {
            Reading::Scalar(d) => ReadingView::Scalar(d@),
            Reading::Array => ReadingView::Array,
            Reading::Object => ReadingView::Object,
            Reading::Refused => ReadingView::Refused,
        }
    }
}

/// What reading `text` as JSON gives.
pub uninterp spec fn json_reading_of(text: Seq<char>) -> ReadingView;

/// The view of a value that may be absent.
pub open spec fn scalar_view(r: Option<HBData>) -> Option<DataView> {
    match r {
        Some(d) => Some(d@),
        None => None,
    }
}

/// Whether `text` starts, behind whitespace, with the bracket or brace that
/// opens an array or an object.
pub open spec fn opens_composite(text: Seq<char>) -> bool {
    let i = run_end(text, 0, CharClass::Space);
    char_at(text, i, '[') || char_at(text, i, '{')
}

/// Whether `text` starts, behind whitespace, as a number does: with a minus sign
/// or a digit.
pub open spec fn opens_number(text: Seq<char>) -> bool {
    let i = run_end(text, 0, CharClass::Space);
    char_at(text, i, '-') || (0 <= i < text.len() && CharClass::Digit.holds(text[i]))
}

/// Whether the letter that marks an exponent stands in `text` at `i` or behind
/// it.
pub open spec fn holds_exponent_mark(text: Seq<char>, i: int) -> bool
    decreases text.len() - i,
{
    if i < 0 || i >= text.len() {
        false
    } else if text[i] == 'e' || text[i] == 'E' {
        true
    } else {
        holds_exponent_mark(text, i + 1)
    }
}

/// Whether `text` may be handed to the JSON reader: it opens no array or object,
/// and is no number with an exponent.
pub open spec fn readable(text: Seq<char>) -> bool {
    !opens_composite(text) && !(opens_number(text) && holds_exponent_mark(text, 0))
}

/// The value of `text` as a literal: the scalar that it is when read as JSON.
/// Text that opens an array or an object is no literal, nor is a number with an
/// exponent; neither is read.
pub open spec fn literal_value(text: Seq<char>) -> Option<DataView> {
    if readable(text) {
        match json_reading_of(text) {
            ReadingView::Scalar(d) => Some(d),
            _ => None,
        }
    } else {
        None
    }
}

/// Reads `text` with `rustc_serialize::json::Json::from_str` and tells the
/// outcomes apart. A fractional number comes as the bits of its
/// double-precision form and the text that its `Display` gives. The contract
/// only names the outcome; nothing is claimed about which texts the JSON
/// reader accepts. Two kinds of text are kept from the reader. Text that opens
/// an array or an object, because the reader descends into such documents by
/// recursion. And a number with an exponent, because the reader raises ten to
/// the exponent with a function whose precision is not fixed, so that what it
/// gives is no function of the text.
#[verifier::external_body]
fn json_reading(text: &str) -> (r: Reading)
    requires
        readable(text@),
    ensures
        r@ == json_reading_of(text@),
{
    match Json::from_str(text) {
        Ok(Json::Null) => Reading::Scalar(HBData::Null),
        Ok(Json::Boolean(b)) => Reading::Scalar(HBData::Boolean(b)),
        Ok(Json::I64(n)) => Reading::Scalar(HBData::I64(n)),
        Ok(Json::U64(n)) => Reading::Scalar(HBData::U64(n)),
        Ok(Json::F64(x)) => Reading::Scalar(HBData::F64(x.to_bits(), format!("{}", x))),
        Ok(Json::String(s)) => Reading::Scalar(HBData::String(s)),
        Ok(Json::Array(_)) => Reading::Array,
        Ok(Json::Object(_)) => Reading::Object,
        Err(_) => Reading::Refused,
    }
}

/// Whether the letter that marks an exponent stands in the text.
fn finds_exponent_mark(chars: &Vec<char>) -> (r: bool)
    ensures
        r == holds_exponent_mark(chars@, 0),
{
    let mut p: usize = 0;
    while p < chars.len()
        invariant
            p <= chars.len(),
            holds_exponent_mark(chars@, 0) == holds_exponent_mark(chars@, p as int),
        decreases chars.len() - p,
    {
        if chars[p] == 'e' || chars[p] == 'E' {
            return true;
        }
        p += 1;
    }
    false
}

/// The value of `text` as a literal, if it is one.
pub fn read_literal(text: &str) -> (r: Option<HBData>)
    ensures
        scalar_view(r) == literal_value(text@),
{
    let chars = chars_of(text);
    let i = scan_run(&chars, 0, CharClass::Space);
    if is_char_at(&chars, i, 0, '[') || is_char_at(&chars, i, 0, '{') {
        return None;
    }
    let number = is_char_at(&chars, i, 0, '-') || (i < chars.len() && CharClass::Digit.has(
        chars[i],
    ));
    if number && finds_exponent_mark(&chars) {
        return None;
    }
    match json_reading(text) {
        Reading::Scalar(d) => Some(d),
        _ => None,
    }
}

} // verus!
