//! JSON documents.
use crate::float::{held, hold, lemma_held_within};
use crate::text::same;
use vstd::prelude::*;
use vstd::string::*;

verus! {

/// A JSON value.
#[derive(Debug)]
pub enum Json {
    Null,
    Bool(bool),
    /// A number, as the integers it can be read as: exactly, exactly as a
    /// natural number, and without its fraction.
    Number { exact: Option<i64>, natural: Option<u64>, whole: i64 },
    /// A number that is only written: how much of the second the first is, as a
    /// floating point number, and no more than one.
    Share(i64, i64),
    Text(String),
    List(Vec<Json>),
    /// Members, of which no two have the same name.
    Object(Vec<(String, Json)>),
}

/// What a JSON value is.
pub enum Tree {
    Null,
    Bool(bool),
    Number { exact: Option<i64>, natural: Option<u64>, whole: i64 },
    Share(i64, i64),
    Text(Seq<char>),
    List(Seq<Tree>),
    Object(Seq<(Seq<char>, Tree)>),
}

/// The tree of a JSON value.
pub open spec fn tree_of(json: Json) -> Tree
    decreases json,
{
    match json {
        Json::Null => Tree::Null,
        Json::Bool(b) => Tree::Bool(b),
        Json::Number { exact, natural, whole } => Tree::Number { exact, natural, whole },
        Json::Share(part, of) => Tree::Share(part, of),
        Json::Text(s) => Tree::Text(s@),
        Json::List(items) => Tree::List(
            Seq::new(
                items@.len(),
                |i: int|
                    if 0 <= i < items@.len() {
                        tree_of(items@[i])
                    } else {
                        Tree::Null
                    },
            ),
        ),
        Json::Object(members) => Tree::Object(
            Seq::new(
                members@.len(),
                |i: int|
                    if 0 <= i < members@.len() {
                        (members@[i].0@, tree_of(members@[i].1))
                    } else {
                        (Seq::empty(), Tree::Null)
                    },
            ),
        ),
    }
}

impl View for Json {
    type V = Tree;

    open spec fn view(&self) -> Tree {
        tree_of(*self)
    }
}

/// An outside JSON value.
#[verifier::external_type_specification]
#[verifier::external_body]
pub struct ExValue(serde_json::Value);

/// The document that bytes hold, where they hold one.
pub uninterp spec fn document(bytes: Seq<u8>) -> Option<Tree>;

/// Each variant of `serde_json::Value` becomes the variant of the same
/// content; the items of a list and the members of an object keep their order.
#[verifier::external_body]
fn convert(value: serde_json::Value) -> Json {
    match value {
        serde_json::Value::Null => Json::Null,
        serde_json::Value::Bool(b) => Json::Bool(b),
        serde_json::Value::Number(n) => Json::Number {
            exact: n.as_i64(),
            natural: n.as_u64(),
            whole: n.as_f64().unwrap_or_default() as i64,
        },
        serde_json::Value::String(s) => Json::Text(s),
        serde_json::Value::Array(a) => Json::List(a.into_iter().map(convert).collect()),
        serde_json::Value::Object(o) => Json::Object(
            o.into_iter().map(|(name, value)| (name, convert(value))).collect(),
        ),
    }
}

/// `serde_json::from_slice`: which bytes hold a document, and which document,
/// is a function of the bytes alone.
#[verifier::external_body]
pub(crate) fn parse(bytes: &[u8]) -> (r: Option<Json>)
    ensures
        match r {
            Some(json) => document(bytes@) == Some(json@),
            None => document(bytes@) is None,
        },
{
    serde_json::from_slice(bytes).ok().map(convert)
}

/// The member of that name, where `tree` is an object that has one.
pub open spec fn member(tree: Tree, name: Seq<char>) -> Option<Tree> {
    match tree {
        Tree::Object(members) => member_in(members, name),
        _ => None,
    }
}

pub open spec fn member_in(members: Seq<(Seq<char>, Tree)>, name: Seq<char>) -> Option<Tree>
    decreases members.len(),
{
    if members.len() == 0 {
        None
    } else if members[0].0 == name {
        Some(members[0].1)
    } else {
        member_in(members.skip(1), name)
    }
}

/// The member of that name, `Null` where there is none.
pub open spec fn at(tree: Tree, name: Seq<char>) -> Tree {
    match member(tree, name) {
        Some(value) => value,
        None => Tree::Null,
    }
}

impl Json {
    pub fn get(&self, name: &str) -> (r: Option<&Json>)
        ensures
            match r {
                Some(value) => member(self@, name@) == Some(value@),
                None => member(self@, name@) is None,
            },
    {
        match self {
            Json::Object(members) => {
                let ghost all = self@->Object_0;
                assert(all.skip(0) =~= all);
                let mut i: usize = 0;
                while i < members.len()
                    invariant
                        i <= members@.len(),
                        *self matches Json::Object(m) && m == *members,
                        self@ == Tree::Object(all),
                        all.len() == members@.len(),
                        member_in(all.skip(i as int), name@) == member_in(all, name@),
                    decreases members@.len() - i,
                {
                    proof {
                        assert(all[i as int] == (members@[i as int].0@, members@[i as int].1@));
                        assert(all.skip(i as int).skip(1) =~= all.skip(i + 1));
                    }
                    if same(members[i].0.as_str(), name) {
                        return Some(&members[i].1);
                    }
                    i += 1;
                }
                None
            },
            _ => None,
        }
    }

    pub fn is_null(&self) -> (r: bool)
        ensures
            r == (self@ == Tree::Null),
    {
        match self {
            Json::Null => true,
            _ => false,
        }
    }

    pub fn as_text(&self) -> (r: Option<&str>)
        ensures
            match r {
                Some(s) => text_of(self@) == Some(s@),
                None => text_of(self@) is None,
            },
    {
        match self {
            Json::Text(s) => Some(s.as_str()),
            _ => None,
        }
    }

    pub fn as_bool(&self) -> (r: Option<bool>)
        ensures
            r == bool_of(self@),
    {
        match self {
            Json::Bool(b) => Some(*b),
            _ => None,
        }
    }

    pub fn as_i64(&self) -> (r: Option<i64>)
        ensures
            r == exact_of(self@),
    {
        match self {
            Json::Number { exact, .. } => *exact,
            _ => None,
        }
    }

    pub fn as_u64(&self) -> (r: Option<u64>)
        ensures
            r == natural_of(self@),
    {
        match self {
            Json::Number { natural, .. } => *natural,
            _ => None,
        }
    }

    pub fn as_millis(&self) -> (r: Option<i64>)
        ensures
            r == millis_of(self@),
    {
        match self {
            Json::Number { exact: Some(n), .. } => Some(*n),
            Json::Number { exact: None, whole, .. } => Some(*whole),
            _ => None,
        }
    }
}

pub open spec fn text_of(tree: Tree) -> Option<Seq<char>> {
    match tree {
        Tree::Text(s) => Some(s),
        _ => None,
    }
}

pub open spec fn bool_of(tree: Tree) -> Option<bool> {
    match tree {
        Tree::Bool(b) => Some(b),
        _ => None,
    }
}

pub open spec fn exact_of(tree: Tree) -> Option<i64> {
    match tree {
        Tree::Number { exact, .. } => exact,
        _ => None,
    }
}

pub open spec fn natural_of(tree: Tree) -> Option<u64> {
    match tree {
        Tree::Number { natural, .. } => natural,
        _ => None,
    }
}

/// Milliseconds are sent as integers, but JSON allows them as fractions.
pub open spec fn millis_of(tree: Tree) -> Option<i64> {
    match tree {
        Tree::Number { exact, whole, .. } => Some(
            match exact {
                Some(n) => n,
                None => whole,
            },
        ),
        _ => None,
    }
}

/// What is left of an integer that is read as a floating point number and cut
/// off to an integer again.
pub open spec fn whole_of(n: i64) -> i64 {
    if n < 0 {
        -(held((-n) as nat) as int) as i64
    } else if held(n as nat) > i64::MAX {
        i64::MAX
    } else {
        held(n as nat) as i64
    }
}

/// An integer as a JSON number.
pub open spec fn integer_tree(n: i64) -> Tree {
    Tree::Number {
        exact: Some(n),
        natural: if n < 0 {
            None
        } else {
            Some(n as u64)
        },
        whole: whole_of(n),
    }
}

pub fn integer(n: i64) -> (r: Json)
    ensures
        r@ == integer_tree(n),
{
    let size: u128 = if n < 0 {
        (-(n as i128)) as u128
    } else {
        n as u128
    };
    let kept: u128 = hold(size);
    proof {
        lemma_held_within(size as nat);
    }
    let whole: i64 = if n < 0 {
        (-(kept as i128)) as i64
    } else if kept > i64::MAX as u128 {
        i64::MAX
    } else {
        kept as i64
    };
    let natural: Option<u64> = if n < 0 {
        None
    } else {
        Some(n as u64)
    };
    Json::Number { exact: Some(n), natural, whole }
}

pub fn text(s: &str) -> (r: Json)
    ensures
        r@ == Tree::Text(s@),
{
    Json::Text(s.to_owned())
}

pub open spec fn items_of(items: Seq<Json>) -> Seq<Tree> {
    items.map_values(|item: Json| item@)
}

pub fn list(items: Vec<Json>) -> (r: Json)
    ensures
        r@ == Tree::List(items_of(items@)),
{
    let json = Json::List(items);
    assert(json@->List_0 =~= items_of(items@));
    json
}

/// The members of an object.
pub open spec fn members_of(members: Seq<(String, Json)>) -> Seq<(Seq<char>, Tree)> {
    members.map_values(|member: (String, Json)| (member.0@, member.1@))
}

pub fn object(members: Vec<(String, Json)>) -> (r: Json)
    ensures
        r@ == Tree::Object(members_of(members@)),
{
    let json = Json::Object(members);
    assert(json@->Object_0 =~= members_of(members@));
    json
}

/// Add a member to an object that is put together.
pub fn put(members: &mut Vec<(String, Json)>, name: &str, value: Json)
    ensures
        members_of(final(members)@) == members_of(old(members)@).push((name@, value@)),
{
    members.push((name.to_owned(), value));
    assert(members_of(members@) =~= members_of(old(members)@).push((name@, value@)));
}

} // verus!
