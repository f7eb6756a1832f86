use vstd::prelude::*;
use crate::decimal::{decimal, decimal_string};

verus! {

/// DynamoDB's attribute value, carried unopened when it is not a string.
#[verifier::external_type_specification]
#[verifier::external_body]
pub struct ExAttributeValue(aws_sdk_dynamodb::types::AttributeValue);

/// An attribute value: a string, which the library reads, or any other value, carried as is.
pub enum AttrValue {
    S(String),
    Other(aws_sdk_dynamodb::types::AttributeValue),
}

/// One write of a batch: the item it puts and the key it deletes, each by attribute, as a
/// DynamoDB write request holds them.
pub struct ItemWrite {
    pub put_item: Option<Vec<(String, AttrValue)>>,
    pub delete_key: Option<Vec<(String, AttrValue)>>,
}

/// The name of the attribute holding an item's partition key.
pub open spec fn id_attr() -> Seq<char> {
    "id"@
}

/// The name of the attribute holding an item's sort key.
pub open spec fn sort_attr() -> Seq<char> {
    "sort"@
}

/// Whether `attrs` are exactly the string attribute `name` with value `value`.
pub open spec fn is_string_attr(a: (String, AttrValue), name: Seq<char>, value: Seq<char>) -> bool {
    &&& a.0@ == name
    &&& a.1 matches AttrValue::S(s) && s@ == value
}

/// Whether `w` puts exactly the item `{ "id": S(id), "sort": S(sort) }` and deletes nothing.
pub open spec fn is_put_of(w: ItemWrite, id: Seq<char>, sort: Seq<char>) -> bool {
    &&& w.delete_key is None
    &&& w.put_item matches Some(attrs) && {
        &&& attrs@.len() == 2
        &&& is_string_attr(attrs@[0], id_attr(), id)
        &&& is_string_attr(attrs@[1], sort_attr(), sort)
    }
}

/// The write that puts the item with key (`id`, `sort_value`): the string attributes "id"
/// and "sort".
pub fn create_write_request(id: String, sort_value: String) -> (r: ItemWrite)
    ensures
        is_put_of(r, id@, sort_value@),
{
    proof {
        reveal_strlit("id");
        reveal_strlit("sort");
    }
    let attrs = vec![
        (String::from_str("id"), AttrValue::S(id)),
        (String::from_str("sort"), AttrValue::S(sort_value)),
    ];
    ItemWrite { put_item: Some(attrs), delete_key: None }
}

/// The sort key that every generated item carries.
pub open spec fn sort_key_value() -> Seq<char> {
    "SortKeyValue"@
}

/// The sort key of generated items.
pub fn sort_key() -> (s: String)
    ensures
        s@ == sort_key_value(),
{
    proof {
        reveal_strlit("SortKeyValue");
    }
    String::from_str("SortKeyValue")
}

/// The writes for the items of one chunk, in the chunk's order: the item with id `i` has the
/// decimal text of `i` as its partition key and the common sort key.
pub fn chunk_requests(chunk: &Vec<usize>) -> (r: Vec<ItemWrite>)
    ensures
        r@.len() == chunk@.len(),
        forall|i: int|
            0 <= i < chunk@.len() ==> is_put_of(
                #[trigger] r@[i],
                decimal(chunk@[i] as nat),
                sort_key_value(),
            ),
{
    let mut r: Vec<ItemWrite> = Vec::new();
    let mut k: usize = 0;
    while k < chunk.len()
        invariant
            k <= chunk.len(),
            r@.len() == k,
            forall|i: int|
                0 <= i < k ==> is_put_of(#[trigger] r@[i], decimal(chunk@[i] as nat), sort_key_value()),
        decreases chunk.len() - k,
    {
        let id = chunk[k];
        let request = create_write_request(decimal_string(id as u128), sort_key());
        r.push(request);
        k = k + 1;
    }
    r
}

/// The table every operation works on.
pub fn table_name() -> (s: String)
    ensures
        s@ == "books"@,
{
    String::from_str("books")
}

/// The key of the single item that the series operations put and get: partition key
/// "PrimaryKeyValue", sort key "SortKeyValue".
pub fn series_key() -> (k: (String, String))
    ensures
        k.0@ == "PrimaryKeyValue"@,
        k.1@ == sort_key_value(),
{
    (String::from_str("PrimaryKeyValue"), sort_key())
}

} // verus!
