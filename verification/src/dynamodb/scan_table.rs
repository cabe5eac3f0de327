//! Reading every item of a table, page after page.
use vstd::prelude::*;

use crate::dynamodb::actions::DynamoDBAction;
use crate::dynamodb::types::Item;
use crate::error::CustomError;

verus! {

/// What to do after a page of a scan has come back.
#[derive(Debug)]
pub enum ScanStep {
    /// Ask for the next page, starting after this key.
    Continue(Item),
    /// The last page has come; the scan is complete.
    Finished,
}

impl DynamoDBAction {
    /// The table that a scan reads: that of a scan or of an emptying; other
    /// actions cannot be scanned.
    pub fn scan_table_name(&self) -> (name: Result<String, CustomError>)
        ensures
            match *self {
                DynamoDBAction::ScanTable { table_name } | DynamoDBAction::EmptyTable {
                    table_name,
                } => name matches Ok(n) && n@ == table_name@,
                _ => name matches Err(CustomError::UnexpectedActionVariant(msg)) && msg@
                    == "scan_table called on unsupported variant"@,
            },
    {
        match self {
            DynamoDBAction::ScanTable { table_name } => Ok(table_name.clone()),
            DynamoDBAction::EmptyTable { table_name } => Ok(table_name.clone()),
            _ => Err(
                CustomError::UnexpectedActionVariant(
                    String::from_str("scan_table called on unsupported variant"),
                ),
            ),
        }
    }
}

/// Takes in a page of a scan: its items join those read so far, after them,
/// and the scan goes on from the page's last evaluated key, or ends when the
/// page has none.
pub fn scan_page(all_items: &mut Vec<Item>, page_items: Vec<Item>, last_evaluated_key: Option<Item>) -> (step: ScanStep)
    ensures
        final(all_items)@ == old(all_items)@ + page_items@,
        match last_evaluated_key {
            Some(key) => step == ScanStep::Continue(key),
            None => step is Finished,
        },
{
    let mut page_items = page_items;
    all_items.append(&mut page_items);
    match last_evaluated_key {
        Some(key) => ScanStep::Continue(key),
        None => ScanStep::Finished,
    }
}

} // verus!
