//! The JSON values that passthrough rules are written in.

use crate::text::{opt, opt_ref, same, views};
use vstd::prelude::*;

verus! {

/// A JSON value.
///
/// Of a number only its value as a `u64` matters to the rules, so a negative,
/// fractional or larger number is `Number(None)`.
#[derive(Debug)]
pub enum Value {
    Null,
    Bool(bool),
    Number(Option<u64>),
    Text(String),
    Array(Vec<Value>),
    Object(Vec<(String, Value)>),
}

/// The value of the first member with the given name.
pub open spec fn member(members: Seq<(String, Value)>, name: Seq<char>) -> Option<Value>
    decreases members.len(),
{
    if members.len() == 0 {
        None
    } else if members[0].0@ == name {
        Some(members[0].1)
    } else {
        member(members.skip(1), name)
    }
}

impl Value {
    /// The member of an object; a value that is no object has none.
    pub open spec fn at(self, name: Seq<char>) -> Option<Value> {
        match self {
            Value::Object(members) => member(members@, name),
            _ => None,
        }
    }

    pub open spec fn flag(self) -> Option<bool> {
        match self {
            Value::Bool(b) => Some(b),
            _ => None,
        }
    }

    pub open spec fn number(self) -> Option<u64> {
        match self {
            Value::Number(n) => n,
            _ => None,
        }
    }

    pub open spec fn chars(self) -> Option<Seq<char>> {
        match self {
            Value::Text(s) => Some(s@),
            _ => None,
        }
    }

    pub open spec fn items(self) -> Option<Seq<Value>> {
        match self {
            Value::Array(items) => Some(items@),
            _ => None,
        }
    }

    pub open spec fn flag_at(self, name: Seq<char>) -> Option<bool> {
        match self.at(name) {
            Some(v) => v.flag(),
            None => None,
        }
    }

    pub open spec fn number_at(self, name: Seq<char>) -> Option<u64> {
        match self.at(name) {
            Some(v) => v.number(),
            None => None,
        }
    }

    pub open spec fn text_at(self, name: Seq<char>) -> Option<Seq<char>> {
        match self.at(name) {
            Some(v) => v.chars(),
            None => None,
        }
    }

    /// The items of an array member; a member that is no array has none.
    pub open spec fn items_at(self, name: Seq<char>) -> Seq<Value> {
        match self.at(name) {
            Some(v) => match v.items() {
                Some(items) => items,
                None => Seq::empty(),
            },
            None => Seq::empty(),
        }
    }

    pub open spec fn is_object(self) -> bool {
        self is Object
    }

    /// The member of an object.
    pub fn get(&self, name: &str) -> (value: Option<&Value>)
        ensures
            match value {
                Some(v) => self.at(name@) == Some(*v),
                None => self.at(name@) is None,
            },
    {
        match self {
            Value::Object(members) => {
                let mut i: usize = 0;
                assert(members@.skip(0) =~= members@);
                while i < members.len()
                    invariant
                        i <= members.len(),
                        self.at(name@) == member(members@.skip(i as int), name@),
                    decreases members.len() - i,
                {
                    let ghost rest = members@.skip(i as int);
                    assert(rest[0] == members@[i as int]);
                    assert(rest.skip(1) =~= members@.skip(i + 1));
                    if same(members[i].0.as_str(), name) {
                        return Some(&members[i].1);
                    }
                    i += 1;
                }
                None
            },
            _ => None,
        }
    }

    pub fn as_bool(&self) -> (b: Option<bool>)
        ensures
            b == self.flag(),
    {
        match self {
            Value::Bool(b) => Some(*b),
            _ => None,
        }
    }

    pub fn as_u64(&self) -> (n: Option<u64>)
        ensures
            n == self.number(),
    {
        match self {
            Value::Number(n) => *n,
            _ => None,
        }
    }

    pub fn as_str(&self) -> (s: Option<&str>)
        ensures
            opt_ref(s) == self.chars(),
    {
        match self {
            Value::Text(s) => Some(s.as_str()),
            _ => None,
        }
    }

    pub fn as_array(&self) -> (items: Option<&Vec<Value>>)
        ensures
            match items {
                Some(items) => self.items() == Some(items@),
                None => self.items() is None,
            },
    {
        match self {
            Value::Array(items) => Some(items),
            _ => None,
        }
    }

    /// The boolean member with the given name.
    pub fn get_bool(&self, name: &str) -> (b: Option<bool>)
        ensures
            b == self.flag_at(name@),
    {
        match self.get(name) {
            Some(v) => v.as_bool(),
            None => None,
        }
    }

    /// The numeric member with the given name.
    pub fn get_u64(&self, name: &str) -> (n: Option<u64>)
        ensures
            n == self.number_at(name@),
    {
        match self.get(name) {
            Some(v) => v.as_u64(),
            None => None,
        }
    }

    /// The text member with the given name.
    pub fn get_str(&self, name: &str) -> (s: Option<&str>)
        ensures
            opt_ref(s) == self.text_at(name@),
    {
        match self.get(name) {
            Some(v) => v.as_str(),
            None => None,
        }
    }

    /// The array member with the given name.
    pub fn get_array(&self, name: &str) -> (items: Option<&Vec<Value>>)
        ensures
            match items {
                Some(items) => self.items_at(name@) == items@,
                None => self.items_at(name@).len() == 0,
            },
    {
        match self.get(name) {
            Some(v) => v.as_array(),
            None => None,
        }
    }
}

/// A copy of the text member with the given name.
pub fn string(value: &Value, key: &str) -> (out: Option<String>)
    ensures
        opt(out) == value.text_at(key@),
{
    match value.get_str(key) {
        Some(s) => Some(s.to_owned()),
        None => None,
    }
}

/// The texts among `items`, in order.
pub open spec fn texts(items: Seq<Value>) -> Seq<Seq<char>>
    decreases items.len(),
{
    if items.len() == 0 {
        Seq::empty()
    } else {
        match items.last().chars() {
            Some(s) => texts(items.drop_last()).push(s),
            None => texts(items.drop_last()),
        }
    }
}

/// Copies of the texts in the array member with the given name.
pub fn string_list(value: &Value, key: &str) -> (out: Vec<String>)
    ensures
        views(out@) == texts(value.items_at(key@)),
{
    let mut out: Vec<String> = Vec::new();
    assert(views(out@) =~= Seq::<Seq<char>>::empty());
    match value.get_array(key) {
        Some(items) => {
            let mut i: usize = 0;
            assert(items@.take(0) =~= Seq::<Value>::empty());
            while i < items.len()
                invariant
                    i <= items.len(),
                    views(out@) == texts(items@.take(i as int)),
                decreases items.len() - i,
            {
                let ghost done = out@;
                assert(items@.take(i + 1).drop_last() =~= items@.take(i as int));
                assert(items@.take(i + 1).last() == items@[i as int]);
                match items[i].as_str() {
                    Some(s) => {
                        let copy: String = s.to_owned();
                        out.push(copy);
                        assert(views(out@) =~= views(done).push(copy@));
                    },
                    None => {},
                }
                i += 1;
            }
            assert(items@.take(items.len() as int) =~= items@);
        },
        None => {},
    }
    out
}

/// Whether the member with the given name is present and true.
pub fn bool_value(value: &Value, key: &str) -> (b: bool)
    ensures
        b == (value.flag_at(key@) == Some(true)),
{
    match value.get_bool(key) {
        Some(b) => b,
        None => false,
    }
}

/// A member is found under its name: the first that has it. Where none has
/// it, none is found.
pub proof fn law_first_member_counts(members: Vec<(String, Value)>, name: Seq<char>, at: int)
    requires
        0 <= at <= members@.len(),
        forall|k: int| 0 <= k < at ==> (#[trigger] members@[k]).0@ != name,
        at < members@.len() ==> members@[at].0@ == name,
    ensures
        Value::Object(members).at(name) == if at < members@.len() {
            Some(members@[at].1)
        } else {
            None
        },
{
    lemma_member(members@, name, at);
}

proof fn lemma_member(members: Seq<(String, Value)>, name: Seq<char>, at: int)
    requires
        0 <= at <= members.len(),
        forall|k: int| 0 <= k < at ==> (#[trigger] members[k]).0@ != name,
        at < members.len() ==> members[at].0@ == name,
    ensures
        member(members, name) == if at < members.len() {
            Some(members[at].1)
        } else {
            None
        },
    decreases members.len(),
{
    if at > 0 {
        let rest = members.skip(1);
        assert(members[0].0@ != name);
        assert forall|k: int| 0 <= k < at - 1 implies (#[trigger] rest[k]).0@ != name by {
            assert(rest[k] == members[k + 1]);
        }
        lemma_member(rest, name, at - 1);
    }
}

/// The texts of a list are exactly the items that are texts.
pub proof fn law_texts_are_all(items: Seq<Value>)
    ensures
        forall|text: Seq<char>| #[trigger]
            texts(items).contains(text) <==> exists|i: int|
                #![trigger items[i]]
                0 <= i < items.len() && items[i].chars() == Some(text),
        (forall|i: int| 0 <= i < items.len() ==> (#[trigger] items[i]) is Text) ==> texts(
            items,
        ).len() == items.len() && forall|i: int|
            0 <= i < items.len() ==> Some(#[trigger] texts(items)[i]) == items[i].chars(),
    decreases items.len(),
{
    if items.len() > 0 {
        let short = items.drop_last();
        let last = items.last();
        law_texts_are_all(short);
        assert forall|text: Seq<char>| #[trigger]
            texts(items).contains(text) <==> exists|i: int|
                #![trigger items[i]]
                0 <= i < items.len() && items[i].chars() == Some(text) by {
            if texts(items).contains(text) {
                let k = choose|k: int| 0 <= k < texts(items).len() && texts(items)[k] == text;
                if k < texts(short).len() {
                    assert(texts(short)[k] == text);
                    assert(texts(short).contains(text));
                    let i = choose|i: int|
                        #![trigger short[i]]
                        0 <= i < short.len() && short[i].chars() == Some(text);
                    assert(items[i].chars() == Some(text));
                } else {
                    assert(items[items.len() - 1].chars() == Some(text));
                }
            }
            if exists|i: int|
                #![trigger items[i]]
                0 <= i < items.len() && items[i].chars() == Some(text) {
                let i = choose|i: int|
                    #![trigger items[i]]
                    0 <= i < items.len() && items[i].chars() == Some(text);
                if i < short.len() {
                    assert(short[i] == items[i]);
                    assert(texts(short).contains(text));
                    let k = choose|k: int| 0 <= k < texts(short).len() && texts(short)[k] == text;
                    assert(texts(items)[k] == text);
                } else {
                    assert(texts(items)[texts(short).len() as int] == text);
                }
            }
        }
        if forall|i: int| 0 <= i < items.len() ==> (#[trigger] items[i]) is Text {
            assert forall|i: int| 0 <= i < short.len() implies (#[trigger] short[i]) is Text by {
                assert(items[i] is Text);
            }
            assert(items[items.len() - 1] is Text);
            assert forall|i: int| 0 <= i < items.len() implies Some(#[trigger] texts(items)[i])
                == items[i].chars() by {
                if i < short.len() {
                    assert(Some(texts(short)[i]) == short[i].chars());
                    assert(short[i] == items[i]);
                }
            }
        }
    } else {
        assert(texts(items).len() == 0);
    }
}

} // verus!
