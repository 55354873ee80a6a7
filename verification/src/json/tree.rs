//! JSON values as mathematical objects.

use vstd::prelude::*;

verus! {

/// What a JSON value is, apart from how it is held in memory.
///
/// A number is an integer where it is one of the integers that fit in 64 bits,
/// signed or unsigned; any other number is a `Float`, given by its text.
#[verifier::ext_equal]
pub ghost enum Tree {
    Null,
    Bool(bool),
    Integer(int),
    Float(Seq<char>),
    String(Seq<char>),
    Array(Seq<Tree>),
    Object(Map<Seq<char>, Tree>),
}

/// The object that results from inserting `members` from first to last: where a
/// key occurs twice, the later value stays.
pub open spec fn insert_all(members: Seq<(Seq<char>, Tree)>) -> Map<Seq<char>, Tree>
    decreases members.len(),
{
    if members.len() == 0 {
        Map::empty()
    } else {
        insert_all(members.drop_last()).insert(members.last().0, members.last().1)
    }
}

impl Tree {
    /// The member of an object under `key`; nothing else has members.
    pub open spec fn get(self, key: Seq<char>) -> Option<Tree> {
        match self {
            Tree::Object(members) if members.contains_key(key) => Some(members[key]),
            _ => None,
        }
    }

    /// The member under `key`, and null where there is none.
    pub open spec fn at(self, key: Seq<char>) -> Tree {
        match self.get(key) {
            Some(tree) => tree,
            None => Tree::Null,
        }
    }

    /// What is left when an object has no member under `key` any more.
    pub open spec fn without(self, key: Seq<char>) -> Tree {
        match self {
            Tree::Object(members) => Tree::Object(members.remove(key)),
            _ => self,
        }
    }

    /// The characters of a string.
    pub open spec fn as_str(self) -> Option<Seq<char>> {
        match self {
            Tree::String(text) => Some(text),
            _ => None,
        }
    }

    /// The value of an integer that an unsigned 64-bit number can hold.
    pub open spec fn as_u64(self) -> Option<u64> {
        match self {
            Tree::Integer(n) if 0 <= n <= u64::MAX => Some(n as u64),
            _ => None,
        }
    }

    /// The items of an array.
    pub open spec fn as_array(self) -> Option<Seq<Tree>> {
        match self {
            Tree::Array(items) => Some(items),
            _ => None,
        }
    }
}

/// Arrays and objects are nested at most `levels` deep in a value.
pub open spec fn nested_within(tree: Tree, levels: nat) -> bool
    decreases levels,
{
    match tree {
        Tree::Array(items) => {
            &&& levels > 0
            &&& forall|i: int|
                0 <= i < items.len() ==> nested_within(#[trigger] items[i], (levels - 1) as nat)
        },
        Tree::Object(members) => {
            &&& levels > 0
            &&& forall|key: Seq<char>|
                members.contains_key(key) ==> nested_within(
                    #[trigger] members[key],
                    (levels - 1) as nat,
                )
        },
        _ => true,
    }
}

/// What is nested at most some levels deep is nested at most more levels deep.
pub proof fn lemma_nested_deeper(tree: Tree, levels: nat, more: nat)
    requires
        nested_within(tree, levels),
        levels <= more,
    ensures
        nested_within(tree, more),
    decreases levels,
{
    match tree {
        Tree::Array(items) => {
            assert forall|i: int| 0 <= i < items.len() implies nested_within(
                #[trigger] items[i],
                (more - 1) as nat,
            ) by {
                lemma_nested_deeper(items[i], (levels - 1) as nat, (more - 1) as nat);
            }
        },
        Tree::Object(members) => {
            assert forall|key: Seq<char>| members.contains_key(key) implies nested_within(
                #[trigger] members[key],
                (more - 1) as nat,
            ) by {
                lemma_nested_deeper(members[key], (levels - 1) as nat, (more - 1) as nat);
            }
        },
        _ => {},
    }
}

/// No number in a value is a `Float`.
pub open spec fn float_free(tree: Tree) -> bool
    decreases tree,
{
    match tree {
        Tree::Float(_) => false,
        Tree::Array(items) => forall|i: int|
            0 <= i < items.len() ==> float_free(#[trigger] items[i]),
        Tree::Object(members) => forall|key: Seq<char>|
            members.contains_key(key) ==> float_free(#[trigger] members[key]),
        _ => true,
    }
}

/// An object that was built member by member is finite, and has the keys that
/// were inserted.
pub proof fn lemma_insert_all_keys(members: Seq<(Seq<char>, Tree)>)
    ensures
        insert_all(members).dom().finite(),
        forall|key: Seq<char>|
            insert_all(members).contains_key(key) <==> exists|i: int|
                0 <= i < members.len() && (#[trigger] members[i]).0 == key,
    decreases members.len(),
{
    if members.len() > 0 {
        lemma_insert_all_keys(members.drop_last());
        assert forall|key: Seq<char>| insert_all(members).contains_key(key) implies exists|i: int|
            0 <= i < members.len() && (#[trigger] members[i]).0 == key by {
            if key == members.last().0 {
                assert(members[members.len() - 1].0 == key);
            } else {
                let i = choose|i: int|
                    0 <= i < members.drop_last().len() && (#[trigger] members.drop_last()[i]).0
                        == key;
                assert(members[i].0 == key);
            }
        }
        assert forall|key: Seq<char>|
            (exists|i: int| 0 <= i < members.len() && (#[trigger] members[i]).0 == key) implies insert_all(
            members,
        ).contains_key(key) by {
            let i = choose|i: int| 0 <= i < members.len() && (#[trigger] members[i]).0 == key;
            if i < members.len() - 1 {
                assert(members.drop_last()[i].0 == key);
            }
        }
    }
}

/// The value under a key is that of the last member with the key.
pub proof fn lemma_insert_all_last(members: Seq<(Seq<char>, Tree)>, i: int)
    requires
        0 <= i < members.len(),
        forall|j: int| i < j < members.len() ==> (#[trigger] members[j]).0 != members[i].0,
    ensures
        insert_all(members).contains_key(members[i].0),
        insert_all(members)[members[i].0] == members[i].1,
    decreases members.len(),
{
    if i < members.len() - 1 {
        assert forall|j: int| i < j < members.drop_last().len() implies (
        #[trigger] members.drop_last()[j]).0 != members.drop_last()[i].0 by {
            assert(members[j].0 != members[i].0);
        }
        lemma_insert_all_last(members.drop_last(), i);
        assert(members[members.len() - 1].0 != members[i].0);
    }
}

/// Each value in an object is that of a member that was inserted.
pub proof fn lemma_insert_all_values(members: Seq<(Seq<char>, Tree)>, key: Seq<char>) -> (i: int)
    requires
        insert_all(members).contains_key(key),
    ensures
        0 <= i < members.len(),
        members[i] == (key, insert_all(members)[key]),
    decreases members.len(),
{
    if key == members.last().0 {
        members.len() - 1
    } else {
        lemma_insert_all_values(members.drop_last(), key)
    }
}

/// An object gives what it holds under a key, and null where it holds nothing.
pub proof fn law_objects_have_members(members: Map<Seq<char>, Tree>, key: Seq<char>)
    ensures
        members.contains_key(key) ==> Tree::Object(members).get(key) == Some(members[key]),
        members.contains_key(key) ==> Tree::Object(members).at(key) == members[key],
        !members.contains_key(key) ==> Tree::Object(members).get(key) is None,
        !members.contains_key(key) ==> Tree::Object(members).at(key) == Tree::Null,
{
}

/// What is no object has no members: any key gives null.
pub proof fn law_nothing_else_has_members(tree: Tree, key: Seq<char>)
    requires
        !(tree is Object),
    ensures
        tree.get(key) is None,
        tree.at(key) == Tree::Null,
        tree.without(key) == tree,
{
}

/// Only the member under the key is left out.
pub proof fn law_without(members: Map<Seq<char>, Tree>, key: Seq<char>, other: Seq<char>)
    ensures
        Tree::Object(members).without(key) is Object,
        Tree::Object(members).without(key).get(key) is None,
        other != key ==> Tree::Object(members).without(key).get(other) == Tree::Object(
            members,
        ).get(other),
{
}

/// Strings have text, arrays have items, and nothing else has.
pub proof fn law_text_and_items(tree: Tree, text: Seq<char>, items: Seq<Tree>)
    ensures
        tree.as_str() == Some(text) <==> tree == Tree::String(text),
        tree.as_array() == Some(items) <==> tree == Tree::Array(items),
{
}

/// The integers of unsigned 64-bit numbers are such numbers, and nothing else is.
pub proof fn law_unsigned_numbers(tree: Tree, n: u64)
    ensures
        tree.as_u64() == Some(n) <==> tree == Tree::Integer(n as int),
{
}

} // verus!
