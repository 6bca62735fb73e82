//! Structured documents: the tree of values that a lineup entry is read
//! from and that a converted lineup is written as.

use vstd::prelude::*;
use vstd::string::*;
use crate::decimal::{clamped, Decimal, SCALE};

verus! {

/// A structured value. An `Object` keeps its fields in document order.
#[derive(Debug, PartialEq)]
pub enum Value {
    Null,
    Text(String),
    Number(Decimal),
    Flag(bool),
    List(Vec<Value>),
    Object(Vec<(String, Value)>),
}

/// The mathematical content of a `Value`: strings as sequences of
/// characters, numbers as counts of units.
pub enum Tree {
    Null,
    Text(Seq<char>),
    Number(int),
    Flag(bool),
    List(Seq<Tree>),
    Object(Seq<(Seq<char>, Tree)>),
}

/// The value of the first field at or after `from` that is named `key`;
/// `Null` where there is none.
pub open spec fn lookup(fields: Seq<(Seq<char>, Tree)>, key: Seq<char>, from: int) -> Tree
    decreases fields.len() - from,
{
    if from < 0 || from >= fields.len() {
        Tree::Null
    } else if fields[from].0 == key {
        fields[from].1
    } else {
        lookup(fields, key, from + 1)
    }
}

impl Tree {
    /// The field named `key` of an object; `Null` for a missing field and
    /// for anything that is not an object.
    pub open spec fn field(self, key: Seq<char>) -> Tree {
        match self {
            Tree::Object(fields) => lookup(fields, key, 0),
            _ => Tree::Null,
        }
    }

    /// The element at `index` of a list; `Null` past its end and for
    /// anything that is not a list.
    pub open spec fn item(self, index: int) -> Tree {
        match self {
            Tree::List(items) => if 0 <= index < items.len() {
                items[index]
            } else {
                Tree::Null
            },
            _ => Tree::Null,
        }
    }

    /// The characters of a text value.
    pub open spec fn text(self) -> Option<Seq<char>> {
        match self {
            Tree::Text(s) => Some(s),
            _ => None,
        }
    }

    /// The units of a number value.
    pub open spec fn number(self) -> Option<int> {
        match self {
            Tree::Number(u) => Some(u),
            _ => None,
        }
    }

    /// The truth value of a flag.
    pub open spec fn flag(self) -> Option<bool> {
        match self {
            Tree::Flag(b) => Some(b),
            _ => None,
        }
    }
}

/// The content of a sequence of values.
pub open spec fn items_view(items: Seq<Value>) -> Seq<Tree> {
    Seq::new(items.len(), |i: int| items[i]@)
}

/// The content of a sequence of named values.
pub open spec fn fields_view(fields: Seq<(String, Value)>) -> Seq<(Seq<char>, Tree)> {
    Seq::new(fields.len(), |i: int| (fields[i].0@, fields[i].1@))
}

impl Value {
    /// The content of the value.
    pub open spec fn tree(self) -> Tree
        decreases self,
    {
        match self {
            Value::Null => Tree::Null,
            Value::Text(s) => Tree::Text(s@),
            Value::Number(d) => Tree::Number(d@),
            Value::Flag(b) => Tree::Flag(b),
            Value::List(items) => Tree::List(
                Seq::new(
                    items.len() as nat,
                    |i: int|
                        if 0 <= i < items.len() {
                            items[i].tree()
                        } else {
                            Tree::Null
                        },
                ),
            ),
            Value::Object(fields) => Tree::Object(
                Seq::new(
                    fields.len() as nat,
                    |i: int|
                        if 0 <= i < fields.len() {
                            (fields[i].0@, fields[i].1.tree())
                        } else {
                            (Seq::<char>::empty(), Tree::Null)
                        },
                ),
            ),
        }
    }
}

impl View for Value {
    type V = Tree;

    open spec fn view(&self) -> Tree {
        self.tree()
    }
}

/// The content of a list is the content of its items.
pub proof fn lemma_list_view(items: Vec<Value>)
    ensures
        Value::List(items)@ == Tree::List(items_view(items@)),
{
    assert(Value::List(items)@->List_0 =~= items_view(items@));
}

/// The content of an object is the content of its fields.
pub proof fn lemma_object_view(fields: Vec<(String, Value)>)
    ensures
        Value::Object(fields)@ == Tree::Object(fields_view(fields@)),
{
    assert(Value::Object(fields)@->Object_0 =~= fields_view(fields@));
}

impl Value {
    /// The field named `key`, as `Tree::field` defines it.
    pub fn field(&self, key: &str) -> (r: &Value)
        ensures
            r@ == self@.field(key@),
    {
        match self {
            Value::Object(fields) => {
                proof {
                    lemma_object_view(*fields);
                }
                let name = String::from_str(key);
                let mut i: usize = 0;
                while i < fields.len()
                    invariant
                        i <= fields.len(),
                        name@ == key@,
                        self@.field(key@) == lookup(fields_view(fields@), key@, 0),
                        lookup(fields_view(fields@), key@, 0) == lookup(
                            fields_view(fields@),
                            key@,
                            i as int,
                        ),
                    decreases fields.len() - i,
                {
                    assert(fields_view(fields@)[i as int] == (fields[i as int].0@, fields[i as int].1@));
                    if fields[i].0 == name {
                        return &fields[i].1;
                    }
                    i = i + 1;
                }
                &Value::Null
            },
            _ => &Value::Null,
        }
    }

    /// The element at `index`, as `Tree::item` defines it.
    pub fn item(&self, index: usize) -> (r: &Value)
        ensures
            r@ == self@.item(index as int),
    {
        match self {
            Value::List(items) => {
                if index < items.len() {
                    &items[index]
                } else {
                    &Value::Null
                }
            },
            _ => &Value::Null,
        }
    }

    /// The string of a text value.
    pub fn as_text(&self) -> (r: Option<&String>)
        ensures
            match r {
                Some(s) => self@.text() == Some(s@),
                None => self@.text() is None,
            },
    {
        match self {
            Value::Text(s) => Some(s),
            _ => None,
        }
    }

    /// The number of a number value.
    pub fn as_number(&self) -> (r: Option<Decimal>)
        ensures
            match r {
                Some(d) => self@.number() == Some(d@),
                None => self@.number() is None,
            },
    {
        match self {
            Value::Number(d) => Some(*d),
            _ => None,
        }
    }

    /// The truth value of a flag.
    pub fn as_flag(&self) -> (r: Option<bool>)
        ensures
            r == self@.flag(),
    {
        match self {
            Value::Flag(b) => Some(*b),
            _ => None,
        }
    }

    /// The whole number `n` as a number value.
    pub fn integer(n: i128) -> (r: Value)
        ensures
            r@ == Tree::Number(clamped(n * SCALE)),
            -SCALE <= n <= SCALE ==> r@ == Tree::Number(n * SCALE),
    {
        Value::Number(Decimal::from_integer(n))
    }

    /// A list of the given items.
    pub fn list(items: Vec<Value>) -> (r: Value)
        ensures
            r@ == Tree::List(items_view(items@)),
    {
        proof {
            lemma_list_view(items);
        }
        Value::List(items)
    }

    /// An object of the given fields.
    pub fn object(fields: Vec<(String, Value)>) -> (r: Value)
        ensures
            r@ == Tree::Object(fields_view(fields@)),
    {
        proof {
            lemma_object_view(fields);
        }
        Value::Object(fields)
    }
}

/// Appends the field `key: value` to the fields of an object under
/// construction.
pub fn put(fields: &mut Vec<(String, Value)>, key: &str, value: Value)
    ensures
        fields_view(final(fields)@) == fields_view(old(fields)@).push((key@, value@)),
{
    fields.push((String::from_str(key), value));
    assert(fields_view(fields@) =~= fields_view(old(fields)@).push((key@, value@)));
}

} // verus!
