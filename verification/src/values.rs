//! Typed values: what a property of a resource can hold.

use vstd::prelude::*;

use crate::decimal::{
    i64_to_string, int_text, is_digit, lemma_int_round_trip, parse_i64, parse_int,
};
use crate::errors::{AtomicError, ErrorView};
use crate::json_array::{
    all_plain, array_items, array_text, array_to_string, is_plain, lemma_array_round_trip,
    parse_json_array,
};
use crate::text::{clone_strings, str_eq, to_chars, views};
use crate::urls;

verus! {

/// The datatypes that a property can declare.
#[derive(Debug, Clone, Copy, PartialEq, Eq, Structural)]
pub enum DataType {
    AtomicUrl,
    Boolean,
    Date,
    Float,
    Integer,
    Markdown,
    ResourceArray,
    Slug,
    String,
    Timestamp,
}

/// A typed value. A float is held as its literal.
#[derive(Debug)]
pub enum Value {
    AtomicUrl(String),
    Boolean(bool),
    Date(String),
    Float(String),
    Integer(i64),
    Markdown(String),
    ResourceArray(Vec<String>),
    Slug(String),
    String(String),
    Timestamp(i64),
}

/// A value, with texts as sequences of characters.
pub enum ValueView {
    AtomicUrl(Seq<char>),
    Boolean(bool),
    Date(Seq<char>),
    Float(Seq<char>),
    Integer(i64),
    Markdown(Seq<char>),
    ResourceArray(Seq<Seq<char>>),
    Slug(Seq<char>),
    String(Seq<char>),
    Timestamp(i64),
}

impl View for Value {
    type V = ValueView;

    open spec fn view(&self) -> ValueView {
        match self {
            Value::AtomicUrl(s) => ValueView::AtomicUrl(s@),
            Value::Boolean(b) => ValueView::Boolean(*b),
            Value::Date(s) => ValueView::Date(s@),
            Value::Float(s) => ValueView::Float(s@),
            Value::Integer(i) => ValueView::Integer(*i),
            Value::Markdown(s) => ValueView::Markdown(s@),
            Value::ResourceArray(v) => ValueView::ResourceArray(views(v@)),
            Value::Slug(s) => ValueView::Slug(s@),
            Value::String(s) => ValueView::String(s@),
            Value::Timestamp(i) => ValueView::Timestamp(*i),
        }
    }
}

/// The text `true`.
pub open spec fn true_text() -> Seq<char> {
    seq!['t', 'r', 'u', 'e']
}

/// The text `false`.
pub open spec fn false_text() -> Seq<char> {
    seq!['f', 'a', 'l', 's', 'e']
}

/// Whether `c` may stand in a slug: a small letter, a digit or a hyphen.
pub open spec fn is_slug_char(c: char) -> bool {
    ('a' <= c <= 'z') || is_digit(c) || c == '-'
}

/// Whether `s` is a slug: groups of small letters and digits, joined by
/// single hyphens.
pub open spec fn is_slug(s: Seq<char>) -> bool {
    &&& s.len() > 0
    &&& forall|i: int| 0 <= i < s.len() ==> is_slug_char(#[trigger] s[i])
    &&& s[0] != '-'
    &&& s.last() != '-'
    &&& forall|i: int| 0 <= i < s.len() - 1 ==> !(#[trigger] s[i] == '-' && s[i + 1] == '-')
}

/// Whether `s` is a date, `YYYY-MM-DD`, with a month from 01 to 12 and a
/// day from 01 to 31.
pub open spec fn is_date(s: Seq<char>) -> bool {
    &&& s.len() == 10
    &&& is_digit(s[0]) && is_digit(s[1]) && is_digit(s[2]) && is_digit(s[3])
    &&& s[4] == '-'
    &&& s[7] == '-'
    &&& (s[5] == '0' && '1' <= s[6] <= '9') || (s[5] == '1' && '0' <= s[6] <= '2')
    &&& (s[8] == '0' && '1' <= s[9] <= '9') || (('1' <= s[8] <= '2') && is_digit(s[9])) || (s[8]
        == '3' && '0' <= s[9] <= '1')
}

/// The first position at or after `pos` that holds no digit.
pub open spec fn digits_end(s: Seq<char>, pos: int) -> int
    decreases s.len() - pos,
{
    if 0 <= pos < s.len() && is_digit(s[pos]) {
        digits_end(s, pos + 1)
    } else {
        pos
    }
}

/// Whether a sign stands at `pos`.
pub open spec fn sign_at(s: Seq<char>, pos: int) -> bool {
    0 <= pos < s.len() && (s[pos] == '-' || s[pos] == '+')
}

/// Whether an exponent starts at `pos` and runs to the end of `s`: the
/// letter e, an optional sign, digits.
pub open spec fn is_exponent(s: Seq<char>, pos: int) -> bool {
    &&& 0 <= pos < s.len()
    &&& (s[pos] == 'e' || s[pos] == 'E')
    &&& {
        let f = if sign_at(s, pos + 1) {
            pos + 2
        } else {
            pos + 1
        };
        digits_end(s, f) > f && digits_end(s, f) == s.len()
    }
}

/// Whether `s` is the literal of a float: an optional sign, digits, an
/// optional fraction of a point and digits, an optional exponent.
pub open spec fn is_float(s: Seq<char>) -> bool {
    let a: int = if sign_at(s, 0) {
        1
    } else {
        0
    };
    let b = digits_end(s, a);
    &&& b > a
    &&& if b < s.len() && s[b] == '.' {
        let d = digits_end(s, b + 1);
        d > b + 1 && (d == s.len() || is_exponent(s, d))
    } else {
        b == s.len() || is_exponent(s, b)
    }
}

/// The datatype of a value.
pub open spec fn datatype_of(v: ValueView) -> DataType {
    match v {
        ValueView::AtomicUrl(_) => DataType::AtomicUrl,
        ValueView::Boolean(_) => DataType::Boolean,
        ValueView::Date(_) => DataType::Date,
        ValueView::Float(_) => DataType::Float,
        ValueView::Integer(_) => DataType::Integer,
        ValueView::Markdown(_) => DataType::Markdown,
        ValueView::ResourceArray(_) => DataType::ResourceArray,
        ValueView::Slug(_) => DataType::Slug,
        ValueView::String(_) => DataType::String,
        ValueView::Timestamp(_) => DataType::Timestamp,
    }
}

/// Whether a value holds what its datatype admits.
pub open spec fn valid_value(v: ValueView) -> bool {
    match v {
        ValueView::Date(s) => is_date(s),
        ValueView::Float(s) => is_float(s),
        ValueView::ResourceArray(items) => all_plain(items),
        ValueView::Slug(s) => is_slug(s),
        _ => true,
    }
}

/// The text of a value: how it is written down and compared.
pub open spec fn value_text(v: ValueView) -> Seq<char> {
    match v {
        ValueView::AtomicUrl(s) => s,
        ValueView::Boolean(b) => if b {
            true_text()
        } else {
            false_text()
        },
        ValueView::Date(s) => s,
        ValueView::Float(s) => s,
        ValueView::Integer(i) => int_text(i as int),
        ValueView::Markdown(s) => s,
        ValueView::ResourceArray(items) => array_text(items),
        ValueView::Slug(s) => s,
        ValueView::String(s) => s,
        ValueView::Timestamp(i) => int_text(i as int),
    }
}

/// The value that `text` denotes under `datatype`, where it denotes one.
pub open spec fn text_value(text: Seq<char>, datatype: DataType) -> Option<ValueView> {
    match datatype {
        DataType::AtomicUrl => Some(ValueView::AtomicUrl(text)),
        DataType::Boolean => if text == true_text() {
            Some(ValueView::Boolean(true))
        } else if text == false_text() {
            Some(ValueView::Boolean(false))
        } else {
            None
        },
        DataType::Date => if is_date(text) {
            Some(ValueView::Date(text))
        } else {
            None
        },
        DataType::Float => if is_float(text) {
            Some(ValueView::Float(text))
        } else {
            None
        },
        DataType::Integer => match parse_int(text) {
            Some(i) => Some(ValueView::Integer(i as i64)),
            None => None,
        },
        DataType::Markdown => Some(ValueView::Markdown(text)),
        DataType::ResourceArray => match array_items(text) {
            Some(items) => Some(ValueView::ResourceArray(items)),
            None => None,
        },
        DataType::Slug => if is_slug(text) {
            Some(ValueView::Slug(text))
        } else {
            None
        },
        DataType::String => Some(ValueView::String(text)),
        DataType::Timestamp => match parse_int(text) {
            Some(i) => Some(ValueView::Timestamp(i as i64)),
            None => None,
        },
    }
}

/// Reading the text of a value under the value's datatype gives the value
/// back, for every value that holds what its datatype admits.
pub proof fn lemma_value_round_trip(v: ValueView)
    requires
        valid_value(v),
    ensures
        text_value(value_text(v), datatype_of(v)) == Some(v),
{
    match v {
        ValueView::Boolean(b) => {
            assert(true_text().len() != false_text().len());
        },
        ValueView::Integer(i) => {
            lemma_int_round_trip(i as int);
        },
        ValueView::Timestamp(i) => {
            lemma_int_round_trip(i as int);
        },
        ValueView::ResourceArray(items) => {
            lemma_array_round_trip(items);
        },
        _ => {},
    }
}

/// The datatype that a URL names, where it names one.
pub open spec fn datatype_of_url(url: Seq<char>) -> Option<DataType> {
    if url == urls::ATOMIC_URL@ {
        Some(DataType::AtomicUrl)
    } else if url == urls::BOOLEAN@ {
        Some(DataType::Boolean)
    } else if url == urls::DATE@ {
        Some(DataType::Date)
    } else if url == urls::FLOAT@ {
        Some(DataType::Float)
    } else if url == urls::INTEGER@ {
        Some(DataType::Integer)
    } else if url == urls::MARKDOWN@ {
        Some(DataType::Markdown)
    } else if url == urls::RESOURCE_ARRAY@ {
        Some(DataType::ResourceArray)
    } else if url == urls::SLUG@ {
        Some(DataType::Slug)
    } else if url == urls::STRING@ {
        Some(DataType::String)
    } else if url == urls::TIMESTAMP@ {
        Some(DataType::Timestamp)
    } else {
        None
    }
}

/// The URL that names a datatype.
pub open spec fn datatype_url(datatype: DataType) -> Seq<char> {
    match datatype {
        DataType::AtomicUrl => urls::ATOMIC_URL@,
        DataType::Boolean => urls::BOOLEAN@,
        DataType::Date => urls::DATE@,
        DataType::Float => urls::FLOAT@,
        DataType::Integer => urls::INTEGER@,
        DataType::Markdown => urls::MARKDOWN@,
        DataType::ResourceArray => urls::RESOURCE_ARRAY@,
        DataType::Slug => urls::SLUG@,
        DataType::String => urls::STRING@,
        DataType::Timestamp => urls::TIMESTAMP@,
    }
}

impl DataType {
    /// The URL that names this datatype.
    pub fn to_url(&self) -> (r: &'static str)
        ensures
            r@ == datatype_url(*self),
    {
        match self {
            DataType::AtomicUrl => urls::ATOMIC_URL,
            DataType::Boolean => urls::BOOLEAN,
            DataType::Date => urls::DATE,
            DataType::Float => urls::FLOAT,
            DataType::Integer => urls::INTEGER,
            DataType::Markdown => urls::MARKDOWN,
            DataType::ResourceArray => urls::RESOURCE_ARRAY,
            DataType::Slug => urls::SLUG,
            DataType::String => urls::STRING,
            DataType::Timestamp => urls::TIMESTAMP,
        }
    }
}

/// Whether a text can stand between double quotes as it is.
pub fn check_plain(text: &str) -> (r: bool)
    ensures
        r == is_plain(text@),
{
    let chars = to_chars(text);
    let mut i: usize = 0;
    while i < chars.len()
        invariant
            i <= chars@.len(),
            chars@ == text@,
            forall|j: int| 0 <= j < i ==> #[trigger] chars@[j] != '"' && chars@[j] != '\\',
        decreases chars@.len() - i,
    {
        if chars[i] == '"' || chars[i] == '\\' {
            return false;
        }
        i = i + 1;
    }
    true
}

/// Whether every text of `items` can stand between double quotes as it is.
pub fn check_all_plain(items: &Vec<String>) -> (r: bool)
    ensures
        r == all_plain(views(items@)),
{
    let mut i: usize = 0;
    while i < items.len()
        invariant
            i <= items@.len(),
            forall|j: int| 0 <= j < i ==> is_plain(#[trigger] views(items@)[j]),
        decreases items@.len() - i,
    {
        assert(views(items@)[i as int] == items@[i as int]@);
        if !check_plain(items[i].as_str()) {
            return false;
        }
        i = i + 1;
    }
    true
}

/// The datatype that a URL names.
pub fn match_datatype(url: &str) -> (r: Option<DataType>)
    ensures
        r == datatype_of_url(url@),
{
    if str_eq(url, urls::ATOMIC_URL) {
        Some(DataType::AtomicUrl)
    } else if str_eq(url, urls::BOOLEAN) {
        Some(DataType::Boolean)
    } else if str_eq(url, urls::DATE) {
        Some(DataType::Date)
    } else if str_eq(url, urls::FLOAT) {
        Some(DataType::Float)
    } else if str_eq(url, urls::INTEGER) {
        Some(DataType::Integer)
    } else if str_eq(url, urls::MARKDOWN) {
        Some(DataType::Markdown)
    } else if str_eq(url, urls::RESOURCE_ARRAY) {
        Some(DataType::ResourceArray)
    } else if str_eq(url, urls::SLUG) {
        Some(DataType::Slug)
    } else if str_eq(url, urls::STRING) {
        Some(DataType::String)
    } else if str_eq(url, urls::TIMESTAMP) {
        Some(DataType::Timestamp)
    } else {
        None
    }
}

fn digits_end_in(chars: &Vec<char>, pos: usize) -> (r: usize)
    requires
        pos <= chars@.len(),
    ensures
        r == digits_end(chars@, pos as int),
        pos <= r <= chars@.len(),
{
    let mut i: usize = pos;
    while i < chars.len() && '0' <= chars[i] && chars[i] <= '9'
        invariant
            pos <= i <= chars@.len(),
            digits_end(chars@, i as int) == digits_end(chars@, pos as int),
        decreases chars@.len() - i,
    {
        i = i + 1;
    }
    i
}

fn sign_at_in(chars: &Vec<char>, pos: usize) -> (r: bool)
    ensures
        r == sign_at(chars@, pos as int),
{
    pos < chars.len() && (chars[pos] == '-' || chars[pos] == '+')
}

fn is_exponent_in(chars: &Vec<char>, pos: usize) -> (r: bool)
    requires
        pos <= chars@.len(),
    ensures
        r == is_exponent(chars@, pos as int),
{
    if pos < chars.len() && (chars[pos] == 'e' || chars[pos] == 'E') {
        let f: usize = if sign_at_in(chars, pos + 1) {
            pos + 2
        } else {
            pos + 1
        };
        let g = digits_end_in(chars, f);
        g > f && g == chars.len()
    } else {
        false
    }
}

/// Whether `text` is the literal of a float.
pub fn check_float(text: &str) -> (r: bool)
    ensures
        r == is_float(text@),
{
    let chars = to_chars(text);
    let a: usize = if sign_at_in(&chars, 0) {
        1
    } else {
        0
    };
    let b = digits_end_in(&chars, a);
    if b <= a {
        return false;
    }
    if b < chars.len() && chars[b] == '.' {
        let d = digits_end_in(&chars, b + 1);
        d > b + 1 && (d == chars.len() || is_exponent_in(&chars, d))
    } else {
        b == chars.len() || is_exponent_in(&chars, b)
    }
}

/// Whether `text` is a slug.
pub fn check_slug(text: &str) -> (r: bool)
    ensures
        r == is_slug(text@),
{
    let chars = to_chars(text);
    let n = chars.len();
    if n == 0 || chars[0] == '-' || chars[n - 1] == '-' {
        return false;
    }
    let mut i: usize = 0;
    while i < n
        invariant
            i <= n,
            n == chars@.len(),
            chars@ == text@,
            forall|j: int| 0 <= j < i ==> is_slug_char(#[trigger] chars@[j]),
            forall|j: int| 0 <= j < i - 1 ==> !(#[trigger] chars@[j] == '-' && chars@[j + 1] == '-'),
        decreases n - i,
    {
        let c = chars[i];
        if !(('a' <= c && c <= 'z') || ('0' <= c && c <= '9') || c == '-') {
            return false;
        }
        if i > 0 && c == '-' && chars[i - 1] == '-' {
            assert(chars@[i - 1] == '-' && chars@[i - 1 + 1] == '-');
            return false;
        }
        i = i + 1;
    }
    true
}

fn digit_at(chars: &Vec<char>, i: usize) -> (r: bool)
    requires
        i < chars@.len(),
    ensures
        r == is_digit(chars@[i as int]),
{
    '0' <= chars[i] && chars[i] <= '9'
}

/// Whether `text` is a date.
pub fn check_date(text: &str) -> (r: bool)
    ensures
        r == is_date(text@),
{
    let c = to_chars(text);
    if c.len() != 10 {
        return false;
    }
    let year = digit_at(&c, 0) && digit_at(&c, 1) && digit_at(&c, 2) && digit_at(&c, 3);
    let month = (c[5] == '0' && '1' <= c[6] && c[6] <= '9') || (c[5] == '1' && '0' <= c[6]
        && c[6] <= '2');
    let day = (c[8] == '0' && '1' <= c[9] && c[9] <= '9') || ('1' <= c[8] && c[8] <= '2'
        && digit_at(&c, 9)) || (c[8] == '3' && '0' <= c[9] && c[9] <= '1');
    year && c[4] == '-' && c[7] == '-' && month && day
}

impl Value {
    /// The datatype of this value.
    pub fn datatype(&self) -> (r: DataType)
        ensures
            r == datatype_of(self@),
    {
        match self {
            Value::AtomicUrl(_) => DataType::AtomicUrl,
            Value::Boolean(_) => DataType::Boolean,
            Value::Date(_) => DataType::Date,
            Value::Float(_) => DataType::Float,
            Value::Integer(_) => DataType::Integer,
            Value::Markdown(_) => DataType::Markdown,
            Value::ResourceArray(_) => DataType::ResourceArray,
            Value::Slug(_) => DataType::Slug,
            Value::String(_) => DataType::String,
            Value::Timestamp(_) => DataType::Timestamp,
        }
    }

    /// Reads `value` as a value of `datatype`. A text that the datatype does
    /// not admit is a validation error that holds the text.
    pub fn new(value: &str, datatype: DataType) -> (r: Result<Value, AtomicError>)
        ensures
            match text_value(value@, datatype) {
                Some(v) => r matches Ok(x) && x@ == v,
                None => r matches Err(e) && e@ == ErrorView::Validation(value@),
            },
    {
        match datatype {
            DataType::AtomicUrl => Ok(Value::AtomicUrl(value.to_owned())),
            DataType::Boolean => {
                proof {
                    reveal_strlit("true");
                    reveal_strlit("false");
                    assert("true"@ =~= true_text());
                    assert("false"@ =~= false_text());
                }
                if str_eq(value, "true") {
                    Ok(Value::Boolean(true))
                } else if str_eq(value, "false") {
                    Ok(Value::Boolean(false))
                } else {
                    Err(AtomicError::Validation(value.to_owned()))
                }
            },
            DataType::Date => if check_date(value) {
                Ok(Value::Date(value.to_owned()))
            } else {
                Err(AtomicError::Validation(value.to_owned()))
            },
            DataType::Float => if check_float(value) {
                Ok(Value::Float(value.to_owned()))
            } else {
                Err(AtomicError::Validation(value.to_owned()))
            },
            DataType::Integer => match parse_i64(value) {
                Some(i) => Ok(Value::Integer(i)),
                None => Err(AtomicError::Validation(value.to_owned())),
            },
            DataType::Markdown => Ok(Value::Markdown(value.to_owned())),
            DataType::ResourceArray => match parse_json_array(value) {
                Some(items) => Ok(Value::ResourceArray(items)),
                None => Err(AtomicError::Validation(value.to_owned())),
            },
            DataType::Slug => if check_slug(value) {
                Ok(Value::Slug(value.to_owned()))
            } else {
                Err(AtomicError::Validation(value.to_owned()))
            },
            DataType::String => Ok(Value::String(value.to_owned())),
            DataType::Timestamp => match parse_i64(value) {
                Some(i) => Ok(Value::Timestamp(i)),
                None => Err(AtomicError::Validation(value.to_owned())),
            },
        }
    }

    /// Whether this value holds what its datatype admits.
    pub fn is_valid(&self) -> (r: bool)
        ensures
            r == valid_value(self@),
    {
        match self {
            Value::Date(s) => check_date(s.as_str()),
            Value::Float(s) => check_float(s.as_str()),
            Value::ResourceArray(items) => check_all_plain(items),
            Value::Slug(s) => check_slug(s.as_str()),
            _ => true,
        }
    }

    /// The text of this value.
    pub fn to_string(&self) -> (r: String)
        ensures
            r@ == value_text(self@),
    {
        match self {
            Value::AtomicUrl(s) => s.clone(),
            Value::Boolean(b) => {
                proof {
                    reveal_strlit("true");
                    reveal_strlit("false");
                    assert("true"@ =~= true_text());
                    assert("false"@ =~= false_text());
                }
                if *b {
                    "true".to_owned()
                } else {
                    "false".to_owned()
                }
            },
            Value::Date(s) => s.clone(),
            Value::Float(s) => s.clone(),
            Value::Integer(i) => i64_to_string(*i),
            Value::Markdown(s) => s.clone(),
            Value::ResourceArray(items) => array_to_string(items),
            Value::Slug(s) => s.clone(),
            Value::String(s) => s.clone(),
            Value::Timestamp(i) => i64_to_string(*i),
        }
    }
}

impl Clone for Value {
    fn clone(&self) -> (r: Self)
        ensures
            r@ == self@,
    {
        match self {
            Value::AtomicUrl(s) => Value::AtomicUrl(s.clone()),
            Value::Boolean(b) => Value::Boolean(*b),
            Value::Date(s) => Value::Date(s.clone()),
            Value::Float(s) => Value::Float(s.clone()),
            Value::Integer(i) => Value::Integer(*i),
            Value::Markdown(s) => Value::Markdown(s.clone()),
            Value::ResourceArray(items) => Value::ResourceArray(clone_strings(items)),
            Value::Slug(s) => Value::Slug(s.clone()),
            Value::String(s) => Value::String(s.clone()),
            Value::Timestamp(i) => Value::Timestamp(*i),
        }
    }
}

} // verus!
