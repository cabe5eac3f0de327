//! Deleting every item of a table.
use vstd::prelude::*;

use crate::dynamodb::actions::DynamoDBAction;
use crate::dynamodb::types::{item_has, item_value, AttributeValue, Item};
use crate::error::CustomError;

verus! {

/// The key of one item to delete: the partition key's name and the item's value for it.
#[derive(Debug)]
pub struct DeleteKey {
    pub name: String,
    pub value: AttributeValue,
}

impl DynamoDBAction {
    /// The table that an emptying deletes from; only an emptying action has one.
    pub fn empty_table_name(&self) -> (name: Result<String, CustomError>)
        ensures
            match *self {
                DynamoDBAction::EmptyTable { table_name } => name matches Ok(n) && n@
                    == table_name@,
                _ => name matches Err(CustomError::UnexpectedActionVariant(msg)) && msg@
                    == "Unexpected action for empty_table"@,
            },
    {
        match self {
            DynamoDBAction::EmptyTable { table_name } => Ok(table_name.clone()),
            _ => Err(
                CustomError::UnexpectedActionVariant(
                    String::from_str("Unexpected action for empty_table"),
                ),
            ),
        }
    }
}

/// Every item names the partition key: there is one when there are items,
/// and each item has an attribute of that name.
pub open spec fn items_keyed(pk: Option<String>, items: Seq<Item>) -> bool {
    &&& items.len() > 0 ==> pk is Some
    &&& forall|i: int| 0 <= i < items.len() ==> item_has(#[trigger] items[i]@, pk->0@)
}

/// The keys to delete to empty a table whose items are `items`: one per item,
/// in order, each with the partition key's name and the item's value for it.
pub fn delete_keys(pk: &Option<String>, items: Vec<Item>) -> (keys: Vec<DeleteKey>)
    requires
        items_keyed(*pk, items@),
    ensures
        keys@.len() == items@.len(),
        forall|i: int|
            0 <= i < keys@.len() ==> {
                &&& (#[trigger] keys@[i]).name@ == pk->0@
                &&& Some(keys@[i].value) == item_value(items@[i]@, pk->0@)
            },
{
    let mut keys: Vec<DeleteKey> = Vec::new();
    let mut items = items;
    let ghost all = items@;
    assert(all.len() == items.len());
    let mut done: usize = 0;
    while items.len() > 0
        invariant
            items_keyed(*pk, all),
            all.len() <= usize::MAX,
            done + items@.len() == all.len(),
            items@ == all.skip(done as int),
            keys@.len() == done,
            forall|i: int|
                0 <= i < done ==> {
                    &&& (#[trigger] keys@[i]).name@ == pk->0@
                    &&& Some(keys@[i].value) == item_value(all[i]@, pk->0@)
                },
        decreases items.len(),
    {
        let item = items.remove(0);
        assert(items@ =~= all.skip(done + 1));
        assert(item == all[done as int]);
        let name = match pk {
            Some(name) => name,
            None => {
                proof {
                    assert(false);
                }
                return keys;
            },
        };
        let value = take_value(item, name);
        keys.push(DeleteKey { name: name.clone(), value });
        done = done + 1;
    }
    keys
}

/// The value of the item's first attribute named `name`, taken out of the item.
fn take_value(item: Item, name: &String) -> (value: AttributeValue)
    requires
        item_has(item@, name@),
    ensures
        Some(value) == item_value(item@, name@),
{
    let mut remaining = item;
    let ghost all = remaining@;
    assert(all.len() == remaining.len());
    let mut skipped: usize = 0;
    assert(all.skip(0) =~= all);
    while remaining.len() > 0
        invariant
            item_has(all, name@),
            all == item@,
            all.len() <= usize::MAX,
            skipped + remaining@.len() == all.len(),
            remaining@ == all.skip(skipped as int),
            item_value(all, name@) == item_value(remaining@, name@),
        decreases remaining.len(),
    {
        let ghost rest = remaining@;
        let (key, value) = remaining.remove(0);
        assert(rest[0] == (key, value));
        assert(rest.drop_first() =~= remaining@);
        assert(remaining@ =~= all.skip(skipped + 1));
        if key == *name {
            return value;
        }
        skipped = skipped + 1;
    }
    proof {
        assert(false);
    }
    AttributeValue::Unknown
}

/// How many items, from the first, name the partition key: they stop at the
/// first item without it (or at once when there is no partition key).
pub fn keyed_prefix_len(pk: &Option<String>, items: &Vec<Item>) -> (n: usize)
    ensures
        n <= items.len(),
        items_keyed(*pk, items@.take(n as int)),
        n < items.len() ==> !(pk is Some && item_has(items@[n as int]@, pk->0@)),
{
    let name = match pk {
        Some(name) => name,
        None => {
            assert(items@.take(0) =~= Seq::<Item>::empty());
            return 0;
        },
    };
    let mut n: usize = 0;
    while n < items.len()
        invariant
            n <= items.len(),
            *pk == Some(*name),
            forall|i: int| 0 <= i < n ==> item_has(#[trigger] items@[i]@, name@),
        ensures
            n <= items.len(),
            forall|i: int| 0 <= i < n ==> item_has(#[trigger] items@[i]@, name@),
            n < items.len() ==> !item_has(items@[n as int]@, name@),
        decreases items.len() - n,
    {
        if !item_has_name(&items[n], name) {
            break;
        }
        n = n + 1;
    }
    assert forall|i: int| 0 <= i < items@.take(n as int).len() implies item_has(
        #[trigger] items@.take(n as int)[i]@,
        pk->0@,
    ) by {
        assert(items@.take(n as int)[i] == items@[i]);
    }
    n
}

/// Whether the item has an attribute named `name`.
fn item_has_name(item: &Item, name: &String) -> (found: bool)
    ensures
        found == item_has(item@, name@),
{
    let mut i: usize = 0;
    assert(item@.skip(0) =~= item@);
    while i < item.len()
        invariant
            i <= item.len(),
            item_has(item@, name@) == item_has(item@.skip(i as int), name@),
        decreases item.len() - i,
    {
        assert(item@.skip(i as int)[0] == item@[i as int]);
        if item[i].0 == *name {
            return true;
        }
        assert(item@.skip(i as int).drop_first() =~= item@.skip(i + 1));
        i = i + 1;
    }
    false
}

} // verus!
