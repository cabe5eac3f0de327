//! How attribute values are shown in a table cell, and how a key given on the
//! command line becomes an attribute value.
use vstd::prelude::*;
use vstd::utf8::{decode_utf8, encode_utf8, encode_utf8_decode_utf8};

use crate::dynamodb::types::{AttributeValue, ScalarAttributeType};
use crate::strings::{decimal, join, join_strings, lemma_views_one_per_string, usize_to_decimal, views};

verus! {

/// The text shown for an attribute value.
///
/// Strings and numbers are shown as they are; a Boolean as `true` or `false`;
/// a null as `NULL`; binary data by its length; string and number sets, and
/// lists, as their members between brackets, separated by `", "`; a map as
/// `key: value` entries between `"{ "` and `" }"`; an unknown kind of value by its name.
pub open spec fn formatted(value: AttributeValue) -> Seq<char>
    decreases value, 0nat,
{
    match value {
        AttributeValue::S(s) => s@,
        AttributeValue::N(n) => n@,
        AttributeValue::Bool(b) => if b {
            "true"@
        } else {
            "false"@
        },
        AttributeValue::Null(_) => "NULL"@,
        AttributeValue::B(bytes) => "<Binary: "@ + decimal(bytes@.len()) + " bytes>"@,
        AttributeValue::Ss(ss) => "["@ + join(views(ss@), ", "@) + "]"@,
        AttributeValue::Ns(ns) => "["@ + join(views(ns@), ", "@) + "]"@,
        AttributeValue::Bs(bs) => "<BinarySet: "@ + decimal(bs@.len()) + " items>"@,
        AttributeValue::L(list) => "["@ + join(formatted_list(list, list@.len()), ", "@) + "]"@,
        AttributeValue::M(entries) => "{ "@ + join(formatted_entries(entries, entries@.len()), ", "@)
            + " }"@,
        AttributeValue::Unknown => "Unknown"@,
    }
}

/// The texts of the first `n` members of a list.
pub open spec fn formatted_list(list: Vec<AttributeValue>, n: nat) -> Seq<Seq<char>>
    decreases list, n,
{
    if n == 0 || n > list@.len() {
        Seq::empty()
    } else {
        formatted_list(list, (n - 1) as nat).push(formatted(list@[n - 1]))
    }
}

/// The `key: value` texts of the first `n` entries of a map.
pub open spec fn formatted_entries(entries: Vec<(String, AttributeValue)>, n: nat) -> Seq<
    Seq<char>,
>
    decreases entries, n,
{
    if n == 0 || n > entries@.len() {
        Seq::empty()
    } else {
        formatted_entries(entries, (n - 1) as nat).push(
            entries@[n - 1].0@ + ": "@ + formatted(entries@[n - 1].1),
        )
    }
}

/// The texts of the first `n` members of a list are those members' texts,
/// one for each, in order.
pub proof fn lemma_formatted_list_has_every_member(list: Vec<AttributeValue>, n: nat)
    requires
        n <= list@.len(),
    ensures
        formatted_list(list, n) == Seq::new(n, |i: int| formatted(list@[i])),
    decreases n,
{
    if n > 0 {
        lemma_formatted_list_has_every_member(list, (n - 1) as nat);
        assert(formatted_list(list, n) =~= Seq::new(n, |i: int| formatted(list@[i])));
    } else {
        assert(formatted_list(list, n) =~= Seq::new(n, |i: int| formatted(list@[i])));
    }
}

/// The `key: value` texts of the first `n` entries of a map are those entries'
/// texts, one for each, in order.
pub proof fn lemma_formatted_entries_has_every_entry(
    entries: Vec<(String, AttributeValue)>,
    n: nat,
)
    requires
        n <= entries@.len(),
    ensures
        formatted_entries(entries, n) == Seq::new(
            n,
            |i: int| entries@[i].0@ + ": "@ + formatted(entries@[i].1),
        ),
    decreases n,
{
    if n > 0 {
        lemma_formatted_entries_has_every_entry(entries, (n - 1) as nat);
    }
    assert(formatted_entries(entries, n) =~= Seq::new(
        n,
        |i: int| entries@[i].0@ + ": "@ + formatted(entries@[i].1),
    ));
}

/// A list is shown as the texts of all its members, in order, separated by
/// `", "`, between brackets; an empty list as `[]`.
pub proof fn lemma_list_shows_every_member(list: Vec<AttributeValue>)
    ensures
        formatted(AttributeValue::L(list)) == "["@ + join(
            Seq::new(list@.len(), |i: int| formatted(list@[i])),
            ", "@,
        ) + "]"@,
        list@.len() == 0 ==> formatted(AttributeValue::L(list)) == "[]"@,
{
    lemma_formatted_list_has_every_member(list, list@.len());
    reveal_strlit("[");
    reveal_strlit("]");
    reveal_strlit("[]");
    if list@.len() == 0 {
        assert(Seq::new(list@.len(), |i: int| formatted(list@[i])).len() == 0);
        assert("["@ + Seq::<char>::empty() + "]"@ =~= "[]"@);
    }
}

/// One more member at the end of a non-empty list puts `", "` and that
/// member's text in front of the closing bracket, and leaves the rest as it was.
pub proof fn lemma_list_push_member(
    list: Vec<AttributeValue>,
    longer: Vec<AttributeValue>,
    v: AttributeValue,
)
    requires
        list@.len() > 0,
        longer@ == list@.push(v),
    ensures
        formatted(AttributeValue::L(longer)) == formatted(AttributeValue::L(list)).drop_last()
            + ", "@ + formatted(v) + "]"@,
{
    lemma_list_shows_every_member(list);
    lemma_list_shows_every_member(longer);
    let short_texts = Seq::new(list@.len(), |i: int| formatted(list@[i]));
    let long_texts = Seq::new(longer@.len(), |i: int| formatted(longer@[i]));
    assert(long_texts.drop_last() =~= short_texts);
    assert(long_texts.last() == formatted(v));
    let j = join(short_texts, ", "@);
    reveal_strlit("]");
    assert(("["@ + j + "]"@).drop_last() =~= "["@ + j);
    assert(formatted(AttributeValue::L(longer)) =~= "["@ + j + ", "@ + formatted(v) + "]"@);
}

/// A string set or a number set is shown as all its members, in order,
/// separated by `", "`, between brackets.
pub proof fn lemma_sets_show_every_member(members: Vec<String>)
    ensures
        formatted(AttributeValue::Ss(members)) == "["@ + join(
            Seq::new(members@.len(), |i: int| members@[i]@),
            ", "@,
        ) + "]"@,
        formatted(AttributeValue::Ns(members)) == formatted(AttributeValue::Ss(members)),
{
    lemma_views_one_per_string(members@);
}

/// A map is shown as the `key: value` texts of all its entries, in order,
/// separated by `", "`, between `"{ "` and `" }"`.
pub proof fn lemma_map_shows_every_entry(entries: Vec<(String, AttributeValue)>)
    ensures
        formatted(AttributeValue::M(entries)) == "{ "@ + join(
            Seq::new(
                entries@.len(),
                |i: int| entries@[i].0@ + ": "@ + formatted(entries@[i].1),
            ),
            ", "@,
        ) + " }"@,
{
    lemma_formatted_entries_has_every_entry(entries, entries@.len());
}

/// Formats an attribute value for display in a table cell.
pub fn format_attribute_value(value: &AttributeValue) -> (text: String)
    ensures
        text@ == formatted(*value),
    decreases value,
{
    match value {
        AttributeValue::S(s) => s.clone(),
        AttributeValue::N(n) => n.clone(),
        AttributeValue::Bool(b) => if *b {
            String::from_str("true")
        } else {
            String::from_str("false")
        },
        AttributeValue::Null(_) => String::from_str("NULL"),
        AttributeValue::B(bytes) => {
            let mut text = String::from_str("<Binary: ");
            text.append(usize_to_decimal(bytes.len()).as_str());
            text.append(" bytes>");
            text
        },
        AttributeValue::Ss(ss) => bracketed(ss),
        AttributeValue::Ns(ns) => bracketed(ns),
        AttributeValue::Bs(bs) => {
            let mut text = String::from_str("<BinarySet: ");
            text.append(usize_to_decimal(bs.len()).as_str());
            text.append(" items>");
            text
        },
        AttributeValue::L(list) => {
            let mut parts: Vec<String> = Vec::new();
            let mut i: usize = 0;
            while i < list.len()
                invariant
                    i <= list.len(),
                    *value == AttributeValue::L(*list),
                    parts@.len() == i,
                    views(parts@) == formatted_list(*list, i as nat),
                decreases list.len() - i,
            {
                proof {
                    assert(decreases_to!(*value => (*value)->L_0));
                    assert(decreases_to!(*list => list@));
                    assert(decreases_to!(list@ => list@[i as int]));
                }
                let part = format_attribute_value(&list[i]);
                let ghost before = parts@;
                parts.push(part);
                assert(views(parts@) =~= views(before).push(part@));
                i = i + 1;
            }
            let mut text = String::from_str("[");
            text.append(join_strings(&parts, ", ").as_str());
            text.append("]");
            text
        },
        AttributeValue::M(entries) => {
            let mut parts: Vec<String> = Vec::new();
            let mut i: usize = 0;
            while i < entries.len()
                invariant
                    i <= entries.len(),
                    *value == AttributeValue::M(*entries),
                    parts@.len() == i,
                    views(parts@) == formatted_entries(*entries, i as nat),
                decreases entries.len() - i,
            {
                proof {
                    assert(decreases_to!(*value => (*value)->M_0));
                    assert(decreases_to!(*entries => entries@));
                    assert(decreases_to!(entries@ => entries@[i as int]));
                    assert(decreases_to!(entries@[i as int] => entries@[i as int].1));
                }
                let mut part = entries[i].0.clone();
                part.append(": ");
                part.append(format_attribute_value(&entries[i].1).as_str());
                let ghost before = parts@;
                parts.push(part);
                assert(views(parts@) =~= views(before).push(part@));
                i = i + 1;
            }
            let mut text = String::from_str("{ ");
            text.append(join_strings(&parts, ", ").as_str());
            text.append(" }");
            text
        },
        AttributeValue::Unknown => String::from_str("Unknown"),
    }
}

fn bracketed(members: &Vec<String>) -> (text: String)
    ensures
        text@ == "["@ + join(views(members@), ", "@) + "]"@,
{
    let mut text = String::from_str("[");
    text.append(join_strings(members, ", ").as_str());
    text.append("]");
    text
}

/// The attribute value that a key given as `raw` becomes for an attribute of
/// type `attribute_type`: a string or a number with that text, or the UTF-8
/// bytes of the text; a string where the type is unknown.
pub open spec fn converted(raw: Seq<char>, attribute_type: ScalarAttributeType, value: AttributeValue) -> bool {
    match attribute_type {
        ScalarAttributeType::N => value matches AttributeValue::N(n) && n@ == raw,
        ScalarAttributeType::B => value matches AttributeValue::B(b) && b@ == encode_utf8(raw),
        _ => value matches AttributeValue::S(s) && s@ == raw,
    }
}

/// Turns a key given as text into an attribute value of the declared type.
pub fn to_attribute_value(raw_value: &str, attribute_type: &ScalarAttributeType) -> (value:
    AttributeValue)
    ensures
        converted(raw_value@, *attribute_type, value),
        *attribute_type is B ==> (value matches AttributeValue::B(b) && decode_utf8(b@)
            == raw_value@),
{
    proof {
        broadcast use encode_utf8_decode_utf8;

    }
    match attribute_type {
        ScalarAttributeType::S => AttributeValue::S(String::from_str(raw_value)),
        ScalarAttributeType::N => AttributeValue::N(String::from_str(raw_value)),
        ScalarAttributeType::B => AttributeValue::B(raw_value.as_bytes_vec()),
        ScalarAttributeType::Unknown => AttributeValue::S(String::from_str(raw_value)),
    }
}

/// A key converted for a binary attribute is held as bytes that decode, as
/// UTF-8, back to exactly the text that was given.
pub proof fn lemma_binary_key_decodes_to_its_text(raw: Seq<char>, value: AttributeValue)
    requires
        converted(raw, ScalarAttributeType::B, value),
    ensures
        value matches AttributeValue::B(b) && decode_utf8(b@) == raw,
{
    broadcast use encode_utf8_decode_utf8;

}

/// A key converted to a string or number value is shown as the text it was
/// given as; one converted to binary is shown by the length of its UTF-8 bytes.
pub proof fn lemma_converted_key_shows_its_text(
    raw: Seq<char>,
    attribute_type: ScalarAttributeType,
    value: AttributeValue,
)
    requires
        converted(raw, attribute_type, value),
    ensures
        !(attribute_type is B) ==> formatted(value) == raw,
        attribute_type is B ==> formatted(value) == "<Binary: "@ + decimal(encode_utf8(raw).len())
            + " bytes>"@,
{
}

} // verus!
