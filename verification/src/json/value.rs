//! JSON values in memory.

use crate::json::outside::{
    bytes_hold, close_value, contents, fills_line, held, insert_member, map_members, new_map,
    open_value, pairs, parse_slice, parse_text, parsed, parsed_bytes, print, print_bytes,
    print_pretty, printed, printed_pretty, reads_back, scalar_text, text_holds, Node,
};
use crate::json::tree::{
    insert_all, lemma_insert_all_keys, lemma_insert_all_last, nested_within, Tree,
};
use crate::text::{integer_text, same, viewed};
use vstd::prelude::*;
use vstd::utf8::encode_utf8;

verus! {

/// A number that is no 64-bit integer, kept as it was read.
#[derive(Debug, PartialEq)]
pub struct Float {
    value: serde_json::Value,
}

impl Float {
    #[verifier::type_invariant]
    spec fn is_float(self) -> bool {
        held(self.value) is Float
    }

    /// What the number is.
    pub closed spec fn tree(self) -> Tree {
        held(self.value)
    }
}

/// A JSON value.
#[derive(Debug, PartialEq)]
pub enum Json {
    Null,
    Bool(bool),
    Unsigned(u64),
    Signed(i64),
    Float(Float),
    String(String),
    Array(Vec<Json>),
    Object(Vec<(String, Json)>),
}

impl Json {
    /// What the value is, apart from how it is written down: the two kinds of
    /// integer differ in their range alone, and of two members with one key the
    /// later one counts.
    pub open spec fn tree(self) -> Tree
        decreases self, 1nat,
    {
        match self {
            Json::Null => Tree::Null,
            Json::Bool(b) => Tree::Bool(b),
            Json::Unsigned(n) => Tree::Integer(n as int),
            Json::Signed(n) => Tree::Integer(n as int),
            Json::Float(x) => x.tree(),
            Json::String(text) => Tree::String(text@),
            Json::Array(items) => Tree::Array(
                Seq::new(
                    items@.len(),
                    |i: int|
                        if 0 <= i < items@.len() {
                            items@[i].tree()
                        } else {
                            Tree::Null
                        },
                ),
            ),
            Json::Object(members) => Tree::Object(insert_all(self.members())),
        }
    }

    /// The members of an object in the order in which they were written down.
    pub open spec fn members(self) -> Seq<(Seq<char>, Tree)>
        decreases self, 0nat,
    {
        match self {
            Json::Object(members) => Seq::new(
                members@.len(),
                |i: int|
                    if 0 <= i < members@.len() {
                        (members@[i].0@, members@[i].1.tree())
                    } else {
                        (Seq::empty(), Tree::Null)
                    },
            ),
            _ => Seq::empty(),
        }
    }
}

impl View for Json {
    type V = Tree;

    open spec fn view(&self) -> Tree {
        self.tree()
    }
}

impl Json {
    /// Take a value over from `serde_json`.
    fn from_value(value: serde_json::Value) -> (json: Json)
        ensures
            json@ == held(value),
        decreases held(value),
    {
        match open_value(value) {
            Node::Null => Json::Null,
            Node::Bool(b) => Json::Bool(b),
            Node::Unsigned(n) => Json::Unsigned(n),
            Node::Signed(n) => Json::Signed(n),
            Node::Float(value) => Json::Float(Float { value }),
            Node::String(text) => Json::String(text),
            Node::Array(items) => {
                let ghost all = items@;
                let ghost trees = Seq::new(all.len(), |i: int| held(all[i]));
                let mut out: Vec<Json> = Vec::new();
                for item in it: items
                    invariant
                        held(value) == Tree::Array(trees),
                        trees == Seq::new(all.len(), |i: int| held(all[i])),
                        it.seq() == all,
                        out@.len() == it.index(),
                        forall|i: int| 0 <= i < out@.len() ==> (#[trigger] out@[i])@ == trees[i],
                {
                    assert(trees[it.index()] == held(item));
                    assert(decreases_to!(held(value) => held(value)->Array_0));
                    assert(decreases_to!(trees => trees[it.index()]));
                    out.push(Json::from_value(item));
                }
                let json = Json::Array(out);
                assert(json@->Array_0 =~= trees);
                json
            },
            Node::Object(map) => {
                let members = map_members(map);
                let ghost all = members@;
                let ghost trees = pairs(all);
                let mut out: Vec<(String, Json)> = Vec::new();
                proof {
                    lemma_insert_all_keys(trees);
                }
                for member in it: members
                    invariant
                        held(value) == Tree::Object(insert_all(trees)),
                        insert_all(trees).dom().finite(),
                        trees == pairs(all),
                        forall|i: int, j: int| 0 <= i < j < all.len() ==> all[i].0@ != all[j].0@,
                        it.seq() == all,
                        out@.len() == it.index(),
                        forall|i: int|
                            0 <= i < out@.len() ==> (#[trigger] out@[i]).0@ == trees[i].0,
                        forall|i: int|
                            0 <= i < out@.len() ==> (#[trigger] out@[i]).1@ == trees[i].1,
                {
                    proof {
                        let i = it.index() as int;
                        lemma_insert_all_last(trees, i);
                        assert(trees[i].1 == held(member.1));
                        assert(decreases_to!(held(value) => held(value)->Object_0));
                        assert(decreases_to!(insert_all(trees) => insert_all(trees)[trees[i].0]));
                    }
                    let (key, inner) = member;
                    out.push((key, Json::from_value(inner)));
                }
                let json = Json::Object(out);
                assert(json.members() =~= trees);
                json
            },
        }
    }

    /// Hand a value over to `serde_json`.
    fn into_value(self) -> (value: serde_json::Value)
        ensures
            held(value) == self@,
        decreases self,
    {
        match self {
            Json::Null => close_value(Node::Null),
            Json::Bool(b) => close_value(Node::Bool(b)),
            Json::Unsigned(n) => close_value(Node::Unsigned(n)),
            Json::Signed(n) => close_value(Node::Signed(n)),
            Json::Float(x) => x.value,
            Json::String(text) => close_value(Node::String(text)),
            Json::Array(items) => {
                let ghost all = items@;
                let mut out: Vec<serde_json::Value> = Vec::new();
                for item in it: items
                    invariant
                        decreases_to!(self => all),
                        it.seq() == all,
                        out@.len() == it.index(),
                        forall|i: int| 0 <= i < out@.len() ==> held(#[trigger] out@[i]) == all[i]@,
                {
                    assert(decreases_to!(self => all[it.index()]));
                    out.push(item.into_value());
                }
                let value = close_value(Node::Array(out));
                assert(held(value)->Array_0 =~= self@->Array_0);
                value
            },
            Json::Object(members) => {
                let ghost all = members@;
                let ghost trees = self.members();
                let mut map = new_map();
                for member in it: members
                    invariant
                        decreases_to!(self => all),
                        it.seq() == all,
                        trees.len() == all.len(),
                        forall|i: int|
                            0 <= i < all.len() ==> #[trigger] trees[i] == (all[i].0@, all[i].1@),
                        contents(map) == insert_all(trees.take(it.index() as int)),
                {
                    assert(decreases_to!(self => all[it.index()].1));
                    let ghost i = it.index() as int;
                    let (key, inner) = member;
                    insert_member(&mut map, key, inner.into_value());
                    assert(trees.take(i + 1).drop_last() =~= trees.take(i));
                    assert(trees.take(i + 1).last() == trees[i]);
                }
                assert(trees.take(all.len() as int) =~= trees);
                close_value(Node::Object(map))
            },
        }
    }

    /// Read JSON text. What is read is not nested deeper than the parser goes.
    pub fn parse(text: &str) -> (r: Result<Json, String>)
        ensures
            viewed(r) == parsed(text@),
            r matches Ok(json) ==> nested_within(json@, 127),
    {
        match parse_text(text) {
            Ok(value) => Ok(Json::from_value(value)),
            Err(message) => Err(message),
        }
    }

    /// Read JSON text in UTF-8. What is read is not nested deeper than the parser goes.
    pub fn parse_bytes(bytes: &[u8]) -> (r: Result<Json, String>)
        ensures
            viewed(r) == parsed_bytes(bytes@),
            r matches Ok(json) ==> nested_within(json@, 127),
    {
        match parse_slice(bytes) {
            Ok(value) => Ok(Json::from_value(value)),
            Err(message) => Err(message),
        }
    }

    /// Write the value down as compact text, which fills one line and is read back
    /// as the value.
    pub fn into_text(self) -> (text: String)
        ensures
            text@ == shown(self@),
            text@ == printed(self@),
            fills_line(text@),
            reads_back(self@) ==> text_holds(text@, self@),
    {
        print(&self.into_value())
    }

    /// Write the value down as indented text, which is read back as the value, also
    /// where a line end follows.
    pub fn into_pretty_text(self) -> (text: String)
        ensures
            text@ == printed_pretty(self@),
            reads_back(self@) ==> text_holds(text@, self@),
            reads_back(self@) ==> text_holds(text@ + "\n"@, self@),
    {
        print_pretty(&self.into_value())
    }

    /// Write the value down as compact text in UTF-8, which is read back as the
    /// value.
    pub fn into_bytes(self) -> (bytes: Vec<u8>)
        ensures
            bytes@ == encode_utf8(printed(self@)),
            reads_back(self@) ==> bytes_hold(bytes@, self@),
    {
        print_bytes(&self.into_value())
    }

    /// The position of the last member with a key.
    fn position(members: &Vec<(String, Json)>, key: &str) -> (r: Option<usize>)
        ensures
            match r {
                Some(i) => {
                    &&& i < members@.len()
                    &&& members@[i as int].0@ == key@
                    &&& forall|j: int| i < j < members@.len() ==> (#[trigger] members@[j]).0@ != key@
                },
                None => forall|j: int|
                    0 <= j < members@.len() ==> (#[trigger] members@[j]).0@ != key@,
            },
    {
        let mut i: usize = members.len();
        while i > 0
            invariant
                i <= members@.len(),
                forall|j: int| i <= j < members@.len() ==> (#[trigger] members@[j]).0@ != key@,
            decreases i,
        {
            i -= 1;
            if same(members[i].0.as_str(), key) {
                return Some(i);
            }
        }
        None
    }

    /// A key that the last of some members has, or that none of them has.
    proof fn lemma_position(self, key: Seq<char>, at: Option<int>)
        requires
            self is Object,
            match at {
                Some(i) => {
                    &&& 0 <= i < self.members().len()
                    &&& self.members()[i].0 == key
                    &&& forall|j: int|
                        i < j < self.members().len() ==> (#[trigger] self.members()[j]).0 != key
                },
                None => forall|j: int|
                    0 <= j < self.members().len() ==> (#[trigger] self.members()[j]).0 != key,
            },
        ensures
            self@.get(key) == match at {
                Some(i) => Some(self.members()[i].1),
                None => None,
            },
    {
        lemma_insert_all_keys(self.members());
        if let Some(i) = at {
            lemma_insert_all_last(self.members(), i);
        }
    }

    /// The member of an object under a key.
    pub fn get(&self, key: &str) -> (r: Option<&Json>)
        ensures
            match r {
                Some(json) => self@.get(key@) == Some(json@),
                None => self@.get(key@) is None,
            },
    {
        match self {
            Json::Object(members) => {
                let at = Json::position(members, key);
                proof {
                    self.lemma_position(
                        key@,
                        match at {
                            Some(i) => Some(i as int),
                            None => None,
                        },
                    );
                }
                match at {
                    Some(i) => Some(&members[i].1),
                    None => None,
                }
            },
            Json::Float(x) => {
                proof {
                    use_type_invariant(x);
                }
                None
            },
            _ => None,
        }
    }

    /// The member of an object under a key, and null where there is none.
    pub fn take(self, key: &str) -> (r: Json)
        ensures
            r@ == self@.at(key@),
    {
        self.pull(key).0
    }

    /// The member of an object under a key, as `take` gives it, and what is left
    /// without it.
    pub fn pull(self, key: &str) -> (r: (Json, Json))
        ensures
            r.0@ == self@.at(key@),
            r.1@ == self@.without(key@),
    {
        match self {
            Json::Object(members) => {
                let ghost all = members@;
                let ghost trees = self.members();
                let mut value = Json::Null;
                let mut rest: Vec<(String, Json)> = Vec::new();
                let ghost mut left = Seq::<(Seq<char>, Tree)>::empty();
                assert(insert_all(left) =~= insert_all(trees.take(0)).remove(key@));
                for member in it: members
                    invariant
                        it.seq() == all,
                        trees.len() == all.len(),
                        forall|i: int|
                            0 <= i < all.len() ==> #[trigger] trees[i] == (all[i].0@, all[i].1@),
                        value@ == Tree::Object(insert_all(trees.take(it.index() as int))).at(key@),
                        left == rest@.map_values(|member: (String, Json)| (member.0@, member.1@)),
                        insert_all(left) == insert_all(trees.take(it.index() as int)).remove(key@),
                {
                    let ghost i = it.index() as int;
                    assert(trees.take(i + 1).drop_last() =~= trees.take(i));
                    assert(trees.take(i + 1).last() == trees[i]);
                    if same(member.0.as_str(), key) {
                        value = member.1;
                    } else {
                        proof {
                            assert(left.push(trees[i]).drop_last() =~= left);
                            left = left.push(trees[i]);
                        }
                        rest.push(member);
                        assert(left =~= rest@.map_values(
                            |member: (String, Json)| (member.0@, member.1@),
                        ));
                    }
                    assert(insert_all(left) =~= insert_all(trees.take(i + 1)).remove(key@));
                }
                assert(trees.take(all.len() as int) =~= trees);
                let rest = Json::Object(rest);
                assert(rest.members() =~= left);
                (value, rest)
            },
            Json::Float(x) => {
                proof {
                    use_type_invariant(&x);
                }
                (Json::Null, Json::Float(x))
            },
            other => (Json::Null, other),
        }
    }

    /// The text of a string.
    pub fn as_str(&self) -> (r: Option<&str>)
        ensures
            match r {
                Some(text) => self@.as_str() == Some(text@),
                None => self@.as_str() is None,
            },
    {
        match self {
            Json::String(text) => Some(text.as_str()),
            Json::Float(x) => {
                proof {
                    use_type_invariant(x);
                }
                None
            },
            _ => None,
        }
    }

    /// The value of an integer that is not negative.
    pub fn as_u64(&self) -> (r: Option<u64>)
        ensures
            r == self@.as_u64(),
    {
        match self {
            Json::Unsigned(n) => Some(*n),
            Json::Signed(n) => if *n >= 0 {
                Some(*n as u64)
            } else {
                None
            },
            Json::Float(x) => {
                proof {
                    use_type_invariant(x);
                }
                None
            },
            _ => None,
        }
    }

    /// The items of an array.
    pub fn into_array(self) -> (r: Option<Vec<Json>>)
        ensures
            match r {
                Some(items) => self@.as_array() == Some(trees(items@)),
                None => self@.as_array() is None,
            },
    {
        match self {
            Json::Array(items) => {
                assert(self@->Array_0 =~= trees(items@));
                Some(items)
            },
            Json::Float(x) => {
                proof {
                    use_type_invariant(&x);
                }
                None
            },
            _ => None,
        }
    }
}

/// What each of some values is.
pub open spec fn trees(items: Seq<Json>) -> Seq<Tree> {
    items.map_values(|json: Json| json@)
}

/// The compact text of a value.
pub open spec fn shown(tree: Tree) -> Seq<char> {
    match scalar_text(tree) {
        Some(text) => text,
        None => printed(tree),
    }
}

/// Each value is what it is, in its place.
pub proof fn law_trees(items: Seq<Json>)
    ensures
        trees(items).len() == items.len(),
        forall|i: int| 0 <= i < items.len() ==> #[trigger] trees(items)[i] == items[i]@,
{
}

/// Words, numbers and the text of other numbers are shown as they are; strings, arrays
/// and objects as they are printed.
pub proof fn law_shown(tree: Tree, n: int, text: Seq<char>)
    ensures
        shown(Tree::Null) == "null"@,
        shown(Tree::Bool(true)) == "true"@,
        shown(Tree::Bool(false)) == "false"@,
        shown(Tree::Integer(n)) == integer_text(n),
        shown(Tree::Float(text)) == text,
        tree is String || tree is Array || tree is Object ==> shown(tree) == printed(tree),
{
}

} // verus!
