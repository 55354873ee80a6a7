//! The calls into `serde_json`.
//!
//! Everything that is believed of that crate stands here: the functions that are not
//! verified do nothing but call into it and convert what goes in and comes out, and
//! their contracts are what the rest of the library knows of it. The crate
//! is used with its default features, so that an object keeps its keys in sorted
//! order, whatever the order in which they were inserted.

use crate::json::tree::{
    float_free, insert_all, lemma_insert_all_values, lemma_nested_deeper, nested_within, Tree,
};
use crate::text::{integer_text, is_white_space};
use vstd::prelude::*;
use vstd::utf8::encode_utf8;

verus! {

/// `serde_json::Value`: any JSON value. What it holds is told by `held`.
#[verifier::external_type_specification]
#[verifier::external_body]
pub struct ExValue(serde_json::Value);

/// `serde_json::Map`: the members of an object. What it holds is told by `contents`.
#[verifier::external_type_specification]
#[verifier::external_body]
#[verifier::reject_recursive_types(K)]
#[verifier::reject_recursive_types(V)]
pub struct ExMap<K, V>(serde_json::Map<K, V>);

/// The members that a `serde_json::Map` holds.
pub uninterp spec fn contents(map: serde_json::Map<String, serde_json::Value>) -> Map<
    Seq<char>,
    Tree,
>;

/// The JSON value that a `serde_json::Value` holds. A number that is no 64-bit
/// integer is told by its compact text.
pub uninterp spec fn held(value: serde_json::Value) -> Tree;

/// What `serde_json::from_str` makes of a text: the value, or the message of the
/// error.
pub uninterp spec fn parsed(text: Seq<char>) -> Result<Tree, Seq<char>>;

/// What `serde_json::from_slice` makes of bytes: the value, or the message of the
/// error.
pub uninterp spec fn parsed_bytes(bytes: Seq<u8>) -> Result<Tree, Seq<char>>;

/// A text is read as a value.
pub open spec fn text_holds(text: Seq<char>, tree: Tree) -> bool {
    parsed(text) == Ok::<Tree, Seq<char>>(tree)
}

/// Bytes are read as a value.
pub open spec fn bytes_hold(bytes: Seq<u8>, tree: Tree) -> bool {
    parsed_bytes(bytes) == Ok::<Tree, Seq<char>>(tree)
}

/// The compact text that `serde_json` writes for a value.
pub uninterp spec fn printed(tree: Tree) -> Seq<char>;

/// The indented text that `serde_json::to_string_pretty` writes for a value.
pub uninterp spec fn printed_pretty(tree: Tree) -> Seq<char>;

/// A number that is no integer may be rounded when its text is read: the value has
/// only such numbers as come out of that unchanged.
pub open spec fn floats_read_back(tree: Tree) -> bool
    decreases tree,
{
    match tree {
        Tree::Float(text) => text_holds(text, tree),
        Tree::Array(items) => forall|i: int|
            0 <= i < items.len() ==> floats_read_back(#[trigger] items[i]),
        Tree::Object(members) => forall|key: Seq<char>|
            members.contains_key(key) ==> floats_read_back(#[trigger] members[key]),
        _ => true,
    }
}

/// A value that `serde_json` reads back from the text that it writes, in at most
/// `levels` levels of arrays and objects.
pub open spec fn reads_back_within(tree: Tree, levels: nat) -> bool {
    nested_within(tree, levels) && floats_read_back(tree)
}

/// A value that `serde_json` reads back from the text that it writes. Its parser
/// does not enter arrays and objects that are nested deeper.
pub open spec fn reads_back(tree: Tree) -> bool {
    reads_back_within(tree, 127)
}

/// An object is one level deeper than its members.
pub proof fn lemma_object_nests(members: Seq<(Seq<char>, Tree)>, levels: nat)
    requires
        forall|i: int| 0 <= i < members.len() ==> nested_within((#[trigger] members[i]).1, levels),
    ensures
        nested_within(Tree::Object(insert_all(members)), levels + 1),
{
    assert forall|key: Seq<char>| insert_all(members).contains_key(key) implies nested_within(
        #[trigger] insert_all(members)[key],
        levels,
    ) by {
        let i = lemma_insert_all_values(members, key);
        assert(nested_within(members[i].1, levels));
    }
}

/// An object of members that read back reads back, one level deeper.
pub proof fn lemma_object_reads_back(members: Seq<(Seq<char>, Tree)>, levels: nat)
    requires
        forall|i: int|
            0 <= i < members.len() ==> reads_back_within((#[trigger] members[i]).1, levels),
    ensures
        reads_back_within(Tree::Object(insert_all(members)), levels + 1),
{
    assert forall|i: int| 0 <= i < members.len() implies nested_within(
        (#[trigger] members[i]).1,
        levels,
    ) by {
        assert(reads_back_within(members[i].1, levels));
    }
    lemma_object_nests(members, levels);
    assert forall|key: Seq<char>| insert_all(members).contains_key(key) implies floats_read_back(
        #[trigger] insert_all(members)[key],
    ) by {
        let i = lemma_insert_all_values(members, key);
        assert(reads_back_within(members[i].1, levels));
    }
}

/// A value without floats is read back, as long as it is not nested deeper than the
/// parser goes.
pub proof fn law_float_free_values_read_back(tree: Tree, levels: nat)
    requires
        float_free(tree),
        nested_within(tree, levels),
        levels <= 127,
    ensures
        reads_back(tree),
{
    lemma_float_free(tree);
    lemma_nested_deeper(tree, levels, 127);
}

proof fn lemma_float_free(tree: Tree)
    requires
        float_free(tree),
    ensures
        floats_read_back(tree),
    decreases tree,
{
    match tree {
        Tree::Array(items) => {
            assert forall|i: int| 0 <= i < items.len() implies floats_read_back(
                #[trigger] items[i],
            ) by {
                lemma_float_free(items[i]);
            }
        },
        Tree::Object(members) => {
            assert forall|key: Seq<char>| members.contains_key(key) implies floats_read_back(
                #[trigger] members[key],
            ) by {
                lemma_float_free(members[key]);
            }
        },
        _ => {},
    }
}

/// The compact text of a value that has no parts and needs no quotes.
pub open spec fn scalar_text(tree: Tree) -> Option<Seq<char>> {
    match tree {
        Tree::Null => Some("null"@),
        Tree::Bool(true) => Some("true"@),
        Tree::Bool(false) => Some("false"@),
        Tree::Integer(n) => Some(integer_text(n)),
        Tree::Float(text) => Some(text),
        _ => None,
    }
}

/// Text that fills one line: it holds no line end, and no white space at its ends.
pub open spec fn fills_line(text: Seq<char>) -> bool {
    &&& text.len() > 0
    &&& !is_white_space(text.first())
    &&& !is_white_space(text.last())
    &&& !text.contains('\n')
}

/// A JSON value of which one level is open: the items and members are still
/// held as `serde_json` holds them.
pub(crate) enum Node {
    Null,
    Bool(bool),
    Unsigned(u64),
    Signed(i64),
    Float(serde_json::Value),
    String(String),
    Array(Vec<serde_json::Value>),
    Object(serde_json::Map<String, serde_json::Value>),
}

impl Node {
    /// The value that the open level and the parts below it make up.
    pub(crate) open spec fn tree(self) -> Tree {
        match self {
            Node::Null => Tree::Null,
            Node::Bool(b) => Tree::Bool(b),
            Node::Unsigned(n) => Tree::Integer(n as int),
            Node::Signed(n) => Tree::Integer(n as int),
            Node::Float(value) => held(value),
            Node::String(text) => Tree::String(text@),
            Node::Array(items) => Tree::Array(Seq::new(items@.len(), |i: int| held(items@[i]))),
            Node::Object(map) => Tree::Object(contents(map)),
        }
    }
}

/// Members of an object, by what they hold.
pub(crate) open spec fn pairs(members: Seq<(String, serde_json::Value)>) -> Seq<
    (Seq<char>, Tree),
> {
    Seq::new(members.len(), |i: int| (members[i].0@, held(members[i].1)))
}

/// Takes a `serde_json::Value` apart: its variant, and an integer by
/// `serde_json::Number::as_u64` and `serde_json::Number::as_i64`.
///
/// Believed: the parts hold together what the value held, and a number is left as it
/// is only where it is no 64-bit integer.
#[verifier::external_body]
pub(crate) fn open_value(value: serde_json::Value) -> (node: Node)
    ensures
        node.tree() == held(value),
        node matches Node::Float(number) ==> held(number) is Float,
{
    match value {
        serde_json::Value::Null => Node::Null,
        serde_json::Value::Bool(b) => Node::Bool(b),
        serde_json::Value::Number(n) => match (n.as_u64(), n.as_i64()) {
            (Some(u), _) => Node::Unsigned(u),
            (None, Some(i)) => Node::Signed(i),
            (None, None) => Node::Float(serde_json::Value::Number(n)),
        },
        serde_json::Value::String(text) => Node::String(text),
        serde_json::Value::Array(items) => Node::Array(items),
        serde_json::Value::Object(map) => Node::Object(map),
    }
}

/// Puts a `serde_json::Value` together: its variant, and an integer by its `From`
/// conversions.
///
/// Believed: the value holds what the parts hold together.
#[verifier::external_body]
pub(crate) fn close_value(node: Node) -> (value: serde_json::Value)
    ensures
        held(value) == node.tree(),
{
    match node {
        Node::Null => serde_json::Value::Null,
        Node::Bool(b) => serde_json::Value::Bool(b),
        Node::Unsigned(n) => serde_json::Value::from(n),
        Node::Signed(n) => serde_json::Value::from(n),
        Node::Float(value) => value,
        Node::String(text) => serde_json::Value::String(text),
        Node::Array(items) => serde_json::Value::Array(items),
        Node::Object(map) => serde_json::Value::Object(map),
    }
}

/// `serde_json::Map::new`.
///
/// Believed: the map has no members.
#[verifier::external_body]
pub(crate) fn new_map() -> (map: serde_json::Map<String, serde_json::Value>)
    ensures
        contents(map) == insert_all(Seq::empty()),
{
    serde_json::Map::new()
}

/// `serde_json::Map::insert`.
///
/// Believed: the map has the member afterwards, in place of one that it had under the
/// key, and all others stay.
#[verifier::external_body]
pub(crate) fn insert_member(
    map: &mut serde_json::Map<String, serde_json::Value>,
    key: String,
    value: serde_json::Value,
)
    ensures
        contents(*final(map)) == contents(*old(map)).insert(key@, held(value)),
{
    map.insert(key, value);
}

/// The owning iterator of `serde_json::Map`, collected.
///
/// Believed: each member of the map comes once, so that no key comes twice, and nothing
/// else comes. The order, which is that of the keys, is left unsaid: nothing depends
/// on it.
#[verifier::external_body]
pub(crate) fn map_members(map: serde_json::Map<String, serde_json::Value>) -> (members: Vec<
    (String, serde_json::Value),
>)
    ensures
        insert_all(pairs(members@)) == contents(map),
        forall|i: int, j: int|
            0 <= i < j < members@.len() ==> members@[i].0@ != members@[j].0@,
{
    map.into_iter().collect()
}

/// `serde_json::from_str`, with the error as its message.
///
/// Believed: whether there is a value, which one, and the message otherwise depend
/// on the text alone; and the parser does not go deeper than a limit, so that a value
/// is not nested deeper.
#[verifier::external_body]
pub(crate) fn parse_text(text: &str) -> (r: Result<serde_json::Value, String>)
    ensures
        match r {
            Ok(value) => text_holds(text@, held(value)) && nested_within(held(value), 127),
            Err(message) => parsed(text@) == Err::<Tree, Seq<char>>(message@),
        },
{
    match serde_json::from_str(text) {
        Ok(value) => Ok(value),
        Err(error) => Err(error.to_string()),
    }
}

/// `serde_json::from_slice`, with the error as its message.
///
/// Believed: whether there is a value, which one, and the message otherwise depend
/// on the bytes alone; and the parser does not go deeper than a limit, so that a value
/// is not nested deeper.
#[verifier::external_body]
pub(crate) fn parse_slice(bytes: &[u8]) -> (r: Result<serde_json::Value, String>)
    ensures
        match r {
            Ok(value) => bytes_hold(bytes@, held(value)) && nested_within(held(value), 127),
            Err(message) => parsed_bytes(bytes@) == Err::<Tree, Seq<char>>(message@),
        },
{
    match serde_json::from_slice(bytes) {
        Ok(value) => Ok(value),
        Err(error) => Err(error.to_string()),
    }
}

/// The `Display` text of a `serde_json::Value`.
///
/// Believed: the text depends on what the value holds alone; null, the booleans and
/// integers are written as JSON has them, and any other number by the text that it
/// is told by; the text fills one line, since control characters in strings are
/// escaped and nothing is indented; and `serde_json::from_str` reads the value back
/// from it, as long as it is not nested too deep and each of its numbers is read
/// back.
#[verifier::external_body]
pub(crate) fn print(value: &serde_json::Value) -> (text: String)
    ensures
        text@ == printed(held(*value)),
        scalar_text(held(*value)) matches Some(scalar) ==> text@ == scalar,
        fills_line(text@),
        reads_back(held(*value)) ==> text_holds(text@, held(*value)),
{
    value.to_string()
}

/// `serde_json::to_string_pretty`, which does not fail on a `serde_json::Value`: its
/// keys are strings, and memory takes every write.
///
/// Believed: the text depends on what the value holds alone, and
/// `serde_json::from_str` reads the value back from it, also where a line end follows,
/// as long as it is not nested too deep and each of its numbers is read back.
#[verifier::external_body]
pub(crate) fn print_pretty(value: &serde_json::Value) -> (text: String)
    ensures
        text@ == printed_pretty(held(*value)),
        reads_back(held(*value)) ==> text_holds(text@, held(*value)),
        reads_back(held(*value)) ==> text_holds(text@ + "\n"@, held(*value)),
{
    serde_json::to_string_pretty(value).unwrap()
}

/// `serde_json::to_vec`, which does not fail on a `serde_json::Value`: its keys are
/// strings, and memory takes every write.
///
/// Believed: the bytes are the UTF-8 encoding of the value's `Display` text, and
/// `serde_json::from_slice` reads the value back from them, as long as it is not
/// nested too deep and each of its numbers is read back.
#[verifier::external_body]
pub(crate) fn print_bytes(value: &serde_json::Value) -> (bytes: Vec<u8>)
    ensures
        bytes@ == encode_utf8(printed(held(*value))),
        reads_back(held(*value)) ==> bytes_hold(bytes@, held(*value)),
{
    serde_json::to_vec(value).unwrap()
}

} // verus!
