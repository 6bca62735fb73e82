//! Reading a document from JSON text.

use vstd::prelude::*;
use vstd::slice::*;
use vstd::string::*;
use json::JsonValue;
use crate::decimal::{reading, Decimal};
use crate::value::{fields_view, items_view, Tree, Value};

verus! {

/// `json::JsonValue`, the parser's own tree. Nothing is known of what is
/// inside one.
#[verifier::external_type_specification]
#[verifier::external_body]
pub struct ExJsonValue(JsonValue);

/// `json::Error`, the parser's reason for turning a text down. Nothing is
/// known of what is inside one.
#[verifier::external_type_specification]
#[verifier::external_body]
pub struct ExJsonError(json::Error);

/// A number of a document may not have this many digits behind its point.
pub const MAX_DIGITS: usize = 32768;

/// Why a text is not a document.
#[derive(Clone, Copy, Debug, PartialEq, Eq, Hash, Structural)]
pub enum DocumentError {
    /// A number of the text has `MAX_DIGITS` or more digits behind its
    /// point.
    NumberTooLong,
    /// The text is not JSON.
    Malformed,
    /// The document is not an object of map names.
    NotAMapping,
}

/// What `message` says of a failure.
pub open spec fn document_message(e: DocumentError) -> Seq<char> {
    match e {
        DocumentError::NumberTooLong => "A number of the text has too many digits behind its point"@,
        DocumentError::Malformed => "The text is not JSON"@,
        DocumentError::NotAMapping => "The document is not an object of map names"@,
    }
}

impl DocumentError {
    /// The failure in words.
    pub fn message(&self) -> (r: String)
        ensures
            r@ == document_message(*self),
    {
        match self {
            DocumentError::NumberTooLong => String::from_str(
                "A number of the text has too many digits behind its point",
            ),
            DocumentError::Malformed => String::from_str("The text is not JSON"),
            DocumentError::NotAMapping => String::from_str(
                "The document is not an object of map names",
            ),
        }
    }
}

/// A document as its text writes it: every number with its sign, its
/// mantissa and its decimal exponent.
#[derive(Debug, PartialEq)]
pub enum Raw {
    Null,
    Text(String),
    Number(bool, u64, i16),
    Flag(bool),
    List(Vec<Raw>),
    Object(Vec<(String, Raw)>),
}

/// The mathematical content of a `Raw`.
pub enum RawTree {
    Null,
    Text(Seq<char>),
    Number(bool, nat, int),
    Flag(bool),
    List(Seq<RawTree>),
    Object(Seq<(Seq<char>, RawTree)>),
}

impl Raw {
    /// The content of the document.
    pub open spec fn tree(self) -> RawTree
        decreases self,
    {
        match self {
            Raw::Null => RawTree::Null,
            Raw::Text(s) => RawTree::Text(s@),
            Raw::Number(positive, mantissa, exponent) => RawTree::Number(
                positive,
                mantissa as nat,
                exponent as int,
            ),
            Raw::Flag(b) => RawTree::Flag(b),
            Raw::List(items) => RawTree::List(
                Seq::new(
                    items.len() as nat,
                    |i: int|
                        if 0 <= i < items.len() {
                            items[i].tree()
                        } else {
                            RawTree::Null
                        },
                ),
            ),
            Raw::Object(fields) => RawTree::Object(
                Seq::new(
                    fields.len() as nat,
                    |i: int|
                        if 0 <= i < fields.len() {
                            (fields[i].0@, fields[i].1.tree())
                        } else {
                            (Seq::<char>::empty(), RawTree::Null)
                        },
                ),
            ),
        }
    }
}

impl View for Raw {
    type V = RawTree;

    open spec fn view(&self) -> RawTree {
        self.tree()
    }
}

/// The document with every number read: a number of sign, mantissa and
/// exponent becomes the count of units that `reading` gives; everything
/// else stays as it is.
pub open spec fn numbers_read(t: RawTree) -> Tree
    decreases t,
{
    match t {
        RawTree::Null => Tree::Null,
        RawTree::Text(s) => Tree::Text(s),
        RawTree::Number(positive, mantissa, exponent) => Tree::Number(
            reading(positive, mantissa, exponent),
        ),
        RawTree::Flag(b) => Tree::Flag(b),
        RawTree::List(items) => Tree::List(
            Seq::new(
                items.len(),
                |i: int|
                    if 0 <= i < items.len() {
                        numbers_read(items[i])
                    } else {
                        Tree::Null
                    },
            ),
        ),
        RawTree::Object(fields) => Tree::Object(
            Seq::new(
                fields.len(),
                |i: int|
                    if 0 <= i < fields.len() {
                        (fields[i].0, numbers_read(fields[i].1))
                    } else {
                        (Seq::<char>::empty(), Tree::Null)
                    },
            ),
        ),
    }
}

/// Reads the numbers of a document, as `numbers_read` defines it.
pub fn read_numbers(raw: &Raw) -> (r: Value)
    ensures
        r@ == numbers_read(raw@),
    decreases raw,
{
    match raw {
        Raw::Null => Value::Null,
        Raw::Text(s) => Value::Text(s.clone()),
        Raw::Number(positive, mantissa, exponent) => Value::Number(
            Decimal::from_parts(*positive, *mantissa, *exponent),
        ),
        Raw::Flag(b) => Value::Flag(*b),
        Raw::List(items) => {
            let ghost all = raw@->List_0;
            let mut read: Vec<Value> = Vec::new();
            let mut i: usize = 0;
            while i < items.len()
                invariant
                    i <= items.len(),
                    read.len() == i,
                    *raw == Raw::List(*items),
                    all == raw@->List_0,
                    all.len() == items.len(),
                    forall|k: int| 0 <= k < i ==> (#[trigger] read[k])@ == numbers_read(all[k]),
                decreases items.len() - i,
            {
                proof {
                    vstd::std_specs::vec::axiom_vec_index_decreases(*items, i as int);
                    assert(all[i as int] == items[i as int]@);
                }
                read.push(read_numbers(&items[i]));
                i = i + 1;
            }
            proof {
                assert(items_view(read@) =~= numbers_read(raw@)->List_0);
            }
            Value::list(read)
        },
        Raw::Object(fields) => {
            let ghost all = raw@->Object_0;
            let mut read: Vec<(String, Value)> = Vec::new();
            let mut i: usize = 0;
            while i < fields.len()
                invariant
                    i <= fields.len(),
                    read.len() == i,
                    *raw == Raw::Object(*fields),
                    all == raw@->Object_0,
                    all.len() == fields.len(),
                    forall|k: int|
                        0 <= k < i ==> (#[trigger] read[k]).0@ == all[k].0 && read[k].1@
                            == numbers_read(all[k].1),
                decreases fields.len() - i,
            {
                proof {
                    vstd::std_specs::vec::axiom_vec_index_decreases(*fields, i as int);
                    assert(all[i as int] == (fields[i as int].0@, fields[i as int].1@));
                }
                read.push((fields[i].0.clone(), read_numbers(&fields[i].1)));
                i = i + 1;
            }
            proof {
                assert(fields_view(read@) =~= numbers_read(raw@)->Object_0);
            }
            Value::object(read)
        },
    }
}

/// Whether the byte is an ASCII digit.
pub open spec fn is_digit(b: u8) -> bool {
    48 <= b <= 57
}

/// Where a position of a text stands: inside a string, behind a backslash
/// inside a string, behind a point and so many digits outside a string,
/// or elsewhere outside a string.
pub enum Place {
    Plain,
    Fraction(nat),
    Text,
    Escape,
}

/// Where the position behind the byte `b` stands, for a byte that comes
/// at a position that stands at `before`. A quotation mark opens and
/// closes a string, a backslash inside a string takes the next byte with
/// it, and a point outside a string begins a fraction, which lasts as
/// long as digits follow.
pub open spec fn step(before: Place, b: u8) -> Place {
    match before {
        Place::Text => if b == 92 {
            Place::Escape
        } else if b == 34 {
            Place::Plain
        } else {
            Place::Text
        },
        Place::Escape => Place::Text,
        Place::Plain => if b == 34 {
            Place::Text
        } else if b == 46 {
            Place::Fraction(0)
        } else {
            Place::Plain
        },
        Place::Fraction(n) => if is_digit(b) {
            Place::Fraction(n + 1)
        } else if b == 34 {
            Place::Text
        } else if b == 46 {
            Place::Fraction(0)
        } else {
            Place::Plain
        },
    }
}

/// Where the position `end` of a text stands.
pub open spec fn place(bytes: Seq<u8>, end: int) -> Place
    decreases end,
{
    if end <= 0 || end > bytes.len() {
        Place::Plain
    } else {
        step(place(bytes, end - 1), bytes[end - 1])
    }
}

/// Whether no fraction outside the strings of the text has `MAX_DIGITS`
/// digits.
pub open spec fn readable(bytes: Seq<u8>) -> bool {
    forall|end: int|
        0 <= end <= bytes.len() ==> (#[trigger] place(bytes, end) matches Place::Fraction(n)
            ==> n < MAX_DIGITS)
}

/// What `json::parse` finds in a text, variant by variant; none where the
/// parser turns the text down.
pub uninterp spec fn parsed_document(text: Seq<char>) -> Option<RawTree>;

/// Whether the text is `readable`.
pub fn is_readable(text: &str) -> (r: bool)
    ensures
        r == readable(text.spec_bytes()),
{
    let bytes = text.as_bytes();
    let mut in_text = false;
    let mut escaped = false;
    let mut in_fraction = false;
    let mut digits: usize = 0;
    let mut i: usize = 0;
    while i < bytes.len()
        invariant
            i <= bytes.len(),
            bytes@ == text.spec_bytes(),
            digits < MAX_DIGITS,
            place(bytes@, i as int) == (if escaped {
                Place::Escape
            } else if in_text {
                Place::Text
            } else if in_fraction {
                Place::Fraction(digits as nat)
            } else {
                Place::Plain
            }),
            forall|end: int|
                0 <= end <= i ==> (#[trigger] place(bytes@, end) matches Place::Fraction(n) ==> n
                    < MAX_DIGITS),
        decreases bytes.len() - i,
    {
        let b = bytes[i];
        if escaped {
            escaped = false;
            in_text = true;
        } else if in_text {
            if b == 92 {
                escaped = true;
            } else if b == 34 {
                in_text = false;
                in_fraction = false;
                digits = 0;
            }
        } else if b == 34 {
            in_text = true;
        } else if b == 46 {
            in_fraction = true;
            digits = 0;
        } else if in_fraction && b >= 48 && b <= 57 {
            digits = digits + 1;
            if digits >= MAX_DIGITS {
                assert(place(bytes@, i + 1) == Place::Fraction(digits as nat));
                return false;
            }
        } else {
            in_fraction = false;
            digits = 0;
        }
        i = i + 1;
    }
    true
}

/// Carries a parsed `json::JsonValue` over into a `Raw`, variant by
/// variant: a short string and a long one both become `Text`, an array a
/// `List` of its members in order, an object an `Object` of its entries
/// in order, and a number the sign, the mantissa and the decimal exponent
/// that `json::number::Number::as_parts` gives.
#[verifier::external_body]
fn lift(v: &JsonValue) -> Raw {
    match v {
        JsonValue::Null => Raw::Null,
        JsonValue::Short(s) => Raw::Text(s.as_str().to_owned()),
        JsonValue::String(s) => Raw::Text(s.clone()),
        JsonValue::Number(n) => {
            let (positive, mantissa, exponent) = n.as_parts();
            Raw::Number(positive, mantissa, exponent)
        },
        JsonValue::Boolean(b) => Raw::Flag(*b),
        JsonValue::Array(a) => Raw::List(a.iter().map(lift).collect()),
        JsonValue::Object(o) => Raw::Object(o.iter().map(|(k, x)| (k.to_owned(), lift(x))).collect()),
    }
}

/// `json::parse`, with its result carried over by `lift`. The parser is a
/// function of the text alone: `parsed_document` names what it finds. It
/// counts the digits of a number's fraction in sixteen bits, so the text
/// has to be `readable`: up to the place where the parser stops, it takes
/// for a string what `place` takes for one.
#[verifier::external_body]
fn parse_text(text: &str) -> (r: Result<Raw, json::Error>)
    requires
        readable(text.spec_bytes()),
    ensures
        match r {
            Ok(v) => parsed_document(text@) == Some(v@),
            Err(_) => parsed_document(text@) is None,
        },
{
    json::parse(text).map(|v| lift(&v))
}

/// What `parse_raw` makes of a text.
pub open spec fn raw_document_of(text: &str) -> Result<RawTree, DocumentError> {
    if !readable(text.spec_bytes()) {
        Err(DocumentError::NumberTooLong)
    } else {
        match parsed_document(text@) {
            Some(t) => Ok(t),
            None => Err(DocumentError::Malformed),
        }
    }
}

/// What `parse_document` makes of a text.
pub open spec fn document_of(text: &str) -> Result<Tree, DocumentError> {
    match raw_document_of(text) {
        Ok(t) => Ok(numbers_read(t)),
        Err(e) => Err(e),
    }
}

/// Reads a JSON text into a document as the text writes it.
pub fn parse_raw(text: &str) -> (r: Result<Raw, DocumentError>)
    ensures
        match r {
            Ok(v) => raw_document_of(text) == Ok::<RawTree, DocumentError>(v@),
            Err(e) => raw_document_of(text) == Err::<RawTree, DocumentError>(e),
        },
{
    if !is_readable(text) {
        return Err(DocumentError::NumberTooLong);
    }
    match parse_text(text) {
        Ok(v) => Ok(v),
        Err(_) => Err(DocumentError::Malformed),
    }
}

/// Reads a JSON text into a document, its numbers read.
pub fn parse_document(text: &str) -> (r: Result<Value, DocumentError>)
    ensures
        match r {
            Ok(v) => document_of(text) == Ok::<Tree, DocumentError>(v@),
            Err(e) => document_of(text) == Err::<Tree, DocumentError>(e),
        },
{
    match parse_raw(text) {
        Ok(raw) => Ok(read_numbers(&raw)),
        Err(e) => Err(e),
    }
}

} // verus!
