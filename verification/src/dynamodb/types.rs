//! The library's own form of the DynamoDB values and table descriptions that
//! its logic reads.  Each holds, as plain values, what the logic looks at of the
//! corresponding `aws_sdk_dynamodb` type; the program around the library
//! converts between the two.
use vstd::prelude::*;

verus! {

/// An attribute value of an item.
///
/// A map value holds its entries in the order in which they are visited; a
/// binary value holds its bytes; a binary set holds its members.
#[derive(Debug)]
pub enum AttributeValue {
    B(Vec<u8>),
    Bool(bool),
    Bs(Vec<Vec<u8>>),
    L(Vec<AttributeValue>),
    M(Vec<(String, AttributeValue)>),
    N(String),
    Ns(Vec<String>),
    Null(bool),
    S(String),
    Ss(Vec<String>),
    /// A kind of value that this version of the service model does not know.
    Unknown,
}

/// The type of a key attribute as the table declares it.
#[derive(Debug, Clone, Copy)]
pub enum ScalarAttributeType {
    B,
    N,
    S,
    /// A type name that this version of the service model does not know.
    Unknown,
}

/// The role of an attribute in the table's primary key.
#[derive(Debug)]
pub enum KeyType {
    /// The partition key.
    Hash,
    /// The sort key.
    Range,
    /// A role that this version of the service model does not know, by its name.
    Unknown(String),
}

impl KeyType {
    /// Two key roles are the same: the same known role, or unknown roles of the same name.
    pub open spec fn same_as(&self, other: &KeyType) -> bool {
        match (self, other) {
            (KeyType::Hash, KeyType::Hash) => true,
            (KeyType::Range, KeyType::Range) => true,
            (KeyType::Unknown(a), KeyType::Unknown(b)) => a@ == b@,
            _ => false,
        }
    }

    /// Whether the two key roles are the same.
    pub fn matches(&self, other: &KeyType) -> (res: bool)
        ensures
            res == self.same_as(other),
    {
        match (self, other) {
            (KeyType::Hash, KeyType::Hash) => true,
            (KeyType::Range, KeyType::Range) => true,
            (KeyType::Unknown(a), KeyType::Unknown(b)) => *a == *b,
            _ => false,
        }
    }
}

/// One element of a table's key schema.
#[derive(Debug)]
pub struct KeySchemaElement {
    pub attribute_name: String,
    pub key_type: KeyType,
}

/// The declared type of one attribute of a table.
#[derive(Debug)]
pub struct AttributeDefinition {
    pub attribute_name: String,
    pub attribute_type: ScalarAttributeType,
}

/// What the logic reads of a table's description.
#[derive(Debug)]
pub struct TableDescription {
    pub key_schema: Option<Vec<KeySchemaElement>>,
    pub attribute_definitions: Option<Vec<AttributeDefinition>>,
}

/// The answer to a request that describes a table.
#[derive(Debug)]
pub struct DescribeTableOutput {
    pub table: Option<TableDescription>,
}

/// An item: its attributes in the order in which they are visited.
pub type Item = Vec<(String, AttributeValue)>;

/// The value of the first attribute of `item` named `name`.
pub open spec fn item_value(item: Seq<(String, AttributeValue)>, name: Seq<char>) -> Option<
    AttributeValue,
>
    decreases item.len(),
{
    if item.len() == 0 {
        None
    } else if item[0].0@ == name {
        Some(item[0].1)
    } else {
        item_value(item.drop_first(), name)
    }
}

/// Whether `item` has an attribute named `name`.
pub open spec fn item_has(item: Seq<(String, AttributeValue)>, name: Seq<char>) -> bool {
    item_value(item, name) is Some
}

/// The value found under a name is that of an attribute whose name is exactly
/// `name`, the first such; no value is found only when no attribute has that
/// name.  An item has a name exactly when one of its attributes is so named.
pub proof fn lemma_item_value_is_exact_match(item: Seq<(String, AttributeValue)>, name: Seq<char>)
    ensures
        match item_value(item, name) {
            Some(v) => exists|j: int|
                0 <= j < item.len() && (#[trigger] item[j]).0@ == name && item[j].1 == v && forall|
                    k: int,
                | 0 <= k < j ==> (#[trigger] item[k]).0@ != name,
            None => forall|j: int| 0 <= j < item.len() ==> (#[trigger] item[j]).0@ != name,
        },
        item_has(item, name) <==> exists|j: int|
            0 <= j < item.len() && (#[trigger] item[j]).0@ == name,
    decreases item.len(),
{
    if item.len() > 0 {
        let rest = item.drop_first();
        lemma_item_value_is_exact_match(rest, name);
        if item[0].0@ == name {
            assert(item[0].0@ == name);
        } else {
            match item_value(rest, name) {
                Some(v) => {
                    let j = choose|j: int|
                        0 <= j < rest.len() && (#[trigger] rest[j]).0@ == name && rest[j].1 == v
                            && forall|k: int| 0 <= k < j ==> (#[trigger] rest[k]).0@ != name;
                    assert(item[j + 1] == rest[j]);
                    assert forall|k: int| 0 <= k < j + 1 implies (#[trigger] item[k]).0@ != name by {
                        if k > 0 {
                            assert(item[k] == rest[k - 1]);
                        }
                    }
                },
                None => {
                    assert forall|j: int| 0 <= j < item.len() implies (#[trigger] item[j]).0@ != name by {
                        if j > 0 {
                            assert(item[j] == rest[j - 1]);
                        }
                    }
                },
            }
            if exists|j: int| 0 <= j < item.len() && (#[trigger] item[j]).0@ == name {
                let j = choose|j: int| 0 <= j < item.len() && (#[trigger] item[j]).0@ == name;
                assert(rest[j - 1] == item[j]);
            }
        }
    }
}

} // verus!
