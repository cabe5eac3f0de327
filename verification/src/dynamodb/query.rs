//! Finding the items with a given partition key (and sort key).
use vstd::prelude::*;

use crate::dynamodb::actions::DynamoDBAction;
use crate::dynamodb::formatter::{converted, to_attribute_value};
use crate::dynamodb::types::{
    AttributeDefinition, AttributeValue, DescribeTableOutput, KeyType, ScalarAttributeType,
};
use crate::dynamodb::utils::{get_key_name, key_name, pair_views};
use crate::error::CustomError;

verus! {

/// What a query was given: the table, the partition key's value and,
/// optionally, the sort key's value.
#[derive(Debug)]
pub struct QueryKeys {
    pub table_name: String,
    pub pk: String,
    pub sk: Option<String>,
}

/// A query request: the table, the key condition, and the names and values
/// that its placeholders stand for, in the order they are set.
#[derive(Debug)]
pub struct QueryRequest {
    pub table_name: String,
    pub key_condition_expression: String,
    pub expression_attribute_names: Vec<(String, String)>,
    pub expression_attribute_values: Vec<(String, AttributeValue)>,
}

impl DynamoDBAction {
    /// What a query was given; a query needs a partition key value, and only
    /// a query action is a query.
    pub fn query_keys(&self) -> (keys: Result<QueryKeys, CustomError>)
        ensures
            match *self {
                DynamoDBAction::Query { table_name, pk, sk } => if pk@.len() == 0 {
                    keys matches Err(CustomError::InvalidInput(msg)) && msg@
                        == "Partition key (pk) must be provided for query."@
                } else {
                    keys matches Ok(k) && k.table_name@ == table_name@ && k.pk@ == pk@
                        && crate::dynamodb::utils::option_view(k.sk)
                        == crate::dynamodb::utils::option_view(sk)
                },
                _ => keys matches Err(CustomError::UnexpectedActionVariant(msg)) && msg@
                    == "Unexpected action for query"@,
            },
    {
        match self {
            DynamoDBAction::Query { table_name, pk, sk } => {
                if pk.as_str().is_empty() {
                    return Err(
                        CustomError::InvalidInput(
                            String::from_str("Partition key (pk) must be provided for query."),
                        ),
                    );
                }
                let sk = match sk {
                    Some(s) => Some(s.clone()),
                    None => None,
                };
                Ok(QueryKeys { table_name: table_name.clone(), pk: pk.clone(), sk })
            },
            _ => Err(
                CustomError::UnexpectedActionVariant(
                    String::from_str("Unexpected action for query"),
                ),
            ),
        }
    }
}

/// The declared type of the first attribute definition named `name`.
pub open spec fn first_attribute_type(definitions: Seq<AttributeDefinition>, name: Seq<char>) -> Option<
    ScalarAttributeType,
>
    decreases definitions.len(),
{
    if definitions.len() == 0 {
        None
    } else if definitions[0].attribute_name@ == name {
        Some(definitions[0].attribute_type)
    } else {
        first_attribute_type(definitions.drop_first(), name)
    }
}

/// The type found for a name is that of a definition whose name is exactly
/// `name`, the first such; none is found only when no definition has that name.
pub proof fn lemma_first_attribute_type_is_exact_match(
    definitions: Seq<AttributeDefinition>,
    name: Seq<char>,
)
    ensures
        match first_attribute_type(definitions, name) {
            Some(t) => exists|j: int|
                0 <= j < definitions.len() && (#[trigger] definitions[j]).attribute_name@ == name
                    && definitions[j].attribute_type == t && forall|k: int|
                    0 <= k < j ==> (#[trigger] definitions[k]).attribute_name@ != name,
            None => forall|j: int|
                0 <= j < definitions.len() ==> (#[trigger] definitions[j]).attribute_name@ != name,
        },
    decreases definitions.len(),
{
    if definitions.len() > 0 && definitions[0].attribute_name@ != name {
        let rest = definitions.drop_first();
        lemma_first_attribute_type_is_exact_match(rest, name);
        match first_attribute_type(rest, name) {
            Some(t) => {
                let j = choose|j: int|
                    0 <= j < rest.len() && (#[trigger] rest[j]).attribute_name@ == name
                        && rest[j].attribute_type == t && forall|k: int|
                        0 <= k < j ==> (#[trigger] rest[k]).attribute_name@ != name;
                assert(definitions[j + 1] == rest[j]);
                assert forall|k: int| 0 <= k < j + 1 implies (
                #[trigger] definitions[k]).attribute_name@ != name by {
                    if k > 0 {
                        assert(definitions[k] == rest[k - 1]);
                    }
                }
            },
            None => {
                assert forall|j: int| 0 <= j < definitions.len() implies (
                #[trigger] definitions[j]).attribute_name@ != name by {
                    if j > 0 {
                        assert(definitions[j] == rest[j - 1]);
                    }
                }
            },
        }
    } else if definitions.len() > 0 {
        assert(definitions[0].attribute_name@ == name);
    }
}

/// The declared type of the table's attribute named `name`, if the
/// description declares one.
pub open spec fn attribute_type(table_desc: DescribeTableOutput, name: Seq<char>) -> Option<
    ScalarAttributeType,
> {
    match table_desc.table {
        Some(table) => match table.attribute_definitions {
            Some(definitions) => first_attribute_type(definitions@, name),
            None => None,
        },
        None => None,
    }
}

/// Looks up the declared type of an attribute.
pub fn get_attribute_type(table_desc: &DescribeTableOutput, attribute_name: &String) -> (found:
    Option<ScalarAttributeType>)
    ensures
        found == attribute_type(*table_desc, attribute_name@),
{
    match &table_desc.table {
        None => None,
        Some(table) => match &table.attribute_definitions {
            None => None,
            Some(definitions) => {
                let mut i: usize = 0;
                assert(definitions@.skip(0) =~= definitions@);
                while i < definitions.len()
                    invariant
                        i <= definitions.len(),
                        table_desc.table == Some(*table),
                        table.attribute_definitions == Some(*definitions),
                        first_attribute_type(definitions@, attribute_name@) == first_attribute_type(
                            definitions@.skip(i as int),
                            attribute_name@,
                        ),
                    decreases definitions.len() - i,
                {
                    assert(definitions@.skip(i as int)[0] == definitions@[i as int]);
                    if definitions[i].attribute_name == *attribute_name {
                        return Some(definitions[i].attribute_type);
                    }
                    assert(definitions@.skip(i as int).drop_first() =~= definitions@.skip(i + 1));
                    i = i + 1;
                }
                None
            },
        },
    }
}

/// The declared type of the key attribute with the given role, if both are known.
pub open spec fn key_attribute_type(table_desc: DescribeTableOutput, key_type: KeyType) -> Option<
    ScalarAttributeType,
> {
    match key_name(table_desc, key_type) {
        Some(name) => attribute_type(table_desc, name),
        None => None,
    }
}

/// A query cannot be built without a sort key value for a table whose sort key
/// is declared: building it fails there.
pub open spec fn query_buildable(keys: QueryKeys, table_desc: DescribeTableOutput) -> bool {
    !(key_attribute_type(table_desc, KeyType::Hash) is Some && key_attribute_type(
        table_desc,
        KeyType::Range,
    ) is Some && keys.sk is None)
}

/// Builds the query for the given keys on the described table.
///
/// It fails, in this order of checks, when the table has no partition key;
/// when a sort key value is given for a table without a sort key; when the
/// partition key has no declared type; and when a sort key value is given but
/// the sort key has no declared type.  Otherwise the key condition matches the
/// partition key, and the sort key when the table declares one, and each
/// placeholder gets its attribute's name and the given value, converted to the
/// attribute's type.
pub fn build_query(keys: &QueryKeys, table_desc: &DescribeTableOutput) -> (request: Result<
    QueryRequest,
    CustomError,
>)
    requires
        query_buildable(*keys, *table_desc),
    ensures
        ({
            let pk_name = key_name(*table_desc, KeyType::Hash);
            let sk_name = key_name(*table_desc, KeyType::Range);
            let pk_type = key_attribute_type(*table_desc, KeyType::Hash);
            let sk_type = key_attribute_type(*table_desc, KeyType::Range);
            if pk_name is None {
                request matches Err(CustomError::InvalidInput(msg)) && msg@
                    == "Partition key name could not be determined from table schema."@
            } else if sk_name is None && keys.sk is Some {
                request matches Err(CustomError::InvalidInput(msg)) && msg@
                    == "Sort key (sk) provided but table does not have a sort key."@
            } else if pk_type is None {
                request matches Err(CustomError::InvalidInput(msg)) && msg@
                    == "Partition key name could not be determined from table schema."@
            } else if sk_type is None && keys.sk is Some {
                request matches Err(CustomError::InvalidInput(msg)) && msg@
                    == "Sort key (sk) provided but table does not have a sort key: "@
                    + keys.sk->0@
            } else {
                request matches Ok(req) && {
                    &&& req.table_name@ == keys.table_name@
                    &&& req.key_condition_expression@ == if sk_type is Some {
                        "#pk = :pk_val AND #sk = :sk_val"@
                    } else {
                        "#pk = :pk_val"@
                    }
                    &&& pair_views(req.expression_attribute_names@) == if sk_type is Some {
                        seq![("#pk"@, pk_name->0), ("#sk"@, sk_name->0)]
                    } else {
                        seq![("#pk"@, pk_name->0)]
                    }
                    &&& req.expression_attribute_values@.len() == if sk_type is Some {
                        2int
                    } else {
                        1int
                    }
                    &&& req.expression_attribute_values@[0].0@ == ":pk_val"@
                    &&& converted(keys.pk@, pk_type->0, req.expression_attribute_values@[0].1)
                    &&& sk_type is Some ==> {
                        &&& req.expression_attribute_values@[1].0@ == ":sk_val"@
                        &&& converted(
                            keys.sk->0@,
                            sk_type->0,
                            req.expression_attribute_values@[1].1,
                        )
                    }
                }
            }
        }),
{
    let pk_name = match get_key_name(table_desc, KeyType::Hash) {
        Some(name) => name,
        None => {
            return Err(
                CustomError::InvalidInput(
                    String::from_str(
                        "Partition key name could not be determined from table schema.",
                    ),
                ),
            );
        },
    };
    let sk_name = get_key_name(table_desc, KeyType::Range);
    if sk_name.is_none() && keys.sk.is_some() {
        return Err(
            CustomError::InvalidInput(
                String::from_str("Sort key (sk) provided but table does not have a sort key."),
            ),
        );
    }
    let pk_type = get_attribute_type(table_desc, &pk_name);
    let sk_type = match &sk_name {
        Some(name) => get_attribute_type(table_desc, name),
        None => None,
    };
    let key_condition = if sk_type.is_some() {
        String::from_str("#pk = :pk_val AND #sk = :sk_val")
    } else {
        String::from_str("#pk = :pk_val")
    };
    let pk_type = match pk_type {
        Some(t) => t,
        None => {
            return Err(
                CustomError::InvalidInput(
                    String::from_str(
                        "Partition key name could not be determined from table schema.",
                    ),
                ),
            );
        },
    };
    let mut names: Vec<(String, String)> = Vec::new();
    let mut values: Vec<(String, AttributeValue)> = Vec::new();
    names.push((String::from_str("#pk"), pk_name));
    values.push((String::from_str(":pk_val"), to_attribute_value(keys.pk.as_str(), &pk_type)));
    match sk_type {
        Some(sk_type) => {
            let sk_value = match &keys.sk {
                Some(v) => v,
                None => {
                    proof {
                        assert(false);
                    }
                    return Err(CustomError::InvalidInput(String::new()));
                },
            };
            let sk_name = match sk_name {
                Some(n) => n,
                None => {
                    proof {
                        assert(false);
                    }
                    return Err(CustomError::InvalidInput(String::new()));
                },
            };
            names.push((String::from_str("#sk"), sk_name));
            values.push((String::from_str(":sk_val"), to_attribute_value(sk_value.as_str(), &sk_type)));
        },
        None => {
            if let Some(sk_value) = &keys.sk {
                let mut msg = String::from_str(
                    "Sort key (sk) provided but table does not have a sort key: ",
                );
                msg.append(sk_value.as_str());
                return Err(CustomError::InvalidInput(msg));
            }
        },
    }
    assert(pair_views(names@) =~= if sk_type is Some {
        seq![("#pk"@, key_name(*table_desc, KeyType::Hash)->0), ("#sk"@, key_name(*table_desc, KeyType::Range)->0)]
    } else {
        seq![("#pk"@, key_name(*table_desc, KeyType::Hash)->0)]
    });
    Ok(
        QueryRequest {
            table_name: keys.table_name.clone(),
            key_condition_expression: key_condition,
            expression_attribute_names: names,
            expression_attribute_values: values,
        },
    )
}

/// Whether a query can be built for the keys on the described table (see `query_buildable`).
pub fn query_buildable_check(keys: &QueryKeys, table_desc: &DescribeTableOutput) -> (ok: bool)
    ensures
        ok == query_buildable(*keys, *table_desc),
{
    let pk_type = match get_key_name(table_desc, KeyType::Hash) {
        Some(name) => get_attribute_type(table_desc, &name),
        None => None,
    };
    let sk_type = match get_key_name(table_desc, KeyType::Range) {
        Some(name) => get_attribute_type(table_desc, &name),
        None => None,
    };
    !(pk_type.is_some() && sk_type.is_some() && keys.sk.is_none())
}

} // verus!
