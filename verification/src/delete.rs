use vstd::prelude::*;
use crate::error::Error;
use crate::request::AttrValue;

verus! {

/// An item returned by a scan: its attributes, by name.
pub struct ScannedItem {
    pub attributes: Vec<(String, AttrValue)>,
}

/// The value of the first attribute named `name`, if there is one.
pub open spec fn lookup(attrs: Seq<(String, AttrValue)>, name: Seq<char>) -> Option<AttrValue>
    decreases attrs.len(),
{
    if attrs.len() == 0 {
        None
    } else if attrs[0].0@ == name {
        Some(attrs[0].1)
    } else {
        lookup(attrs.drop_first(), name)
    }
}

/// The string an attribute named `name` holds; the error message when it is missing or
/// holds something else.
pub open spec fn string_attr(
    attrs: Seq<(String, AttrValue)>,
    name: Seq<char>,
    missing: Seq<char>,
    wrong: Seq<char>,
) -> Result<Seq<char>, Seq<char>> {
    match lookup(attrs, name) {
        None => Err(missing),
        Some(AttrValue::S(s)) => Ok(s@),
        Some(AttrValue::Other(_)) => Err(wrong),
    }
}

/// The key (`id`, `sort`) of a scanned item, or the message of the first problem found.
pub open spec fn item_key_spec(attrs: Seq<(String, AttrValue)>) -> Result<(Seq<char>, Seq<char>), Seq<char>> {
    match string_attr(attrs, "id"@, "item id not found"@, "id attr error"@) {
        Err(m) => Err(m),
        Ok(id) => match string_attr(attrs, "sort"@, "item sort not found"@, "sort attr error"@) {
            Err(m) => Err(m),
            Ok(sort) => Ok((id, sort)),
        },
    }
}

/// The first attribute of `attrs` named `name`.
fn find_attr<'a>(attrs: &'a Vec<(String, AttrValue)>, name: &String) -> (r: Option<&'a AttrValue>)
    ensures
        r matches Some(v) ==> lookup(attrs@, name@) == Some(*v),
        r is None ==> lookup(attrs@, name@) is None,
{
    let mut i: usize = 0;
    assert(attrs@.skip(0) =~= attrs@);
    while i < attrs.len()
        invariant
            i <= attrs.len(),
            lookup(attrs@, name@) == lookup(attrs@.skip(i as int), name@),
        decreases attrs.len() - i,
    {
        let ghost rest = attrs@.skip(i as int);
        assert(rest[0] == attrs@[i as int]);
        assert(rest.drop_first() =~= attrs@.skip(i + 1));
        if attrs[i].0 == *name {
            return Some(&attrs[i].1);
        }
        i = i + 1;
    }
    assert(attrs@.skip(i as int) =~= Seq::<(String, AttrValue)>::empty());
    None
}

/// The string value of the attribute `name`, or an error with `missing` when the item has
/// no such attribute, or with `wrong` when it holds something other than a string.
fn string_attribute(attrs: &Vec<(String, AttrValue)>, name: &str, missing: &str, wrong: &str) -> (r: Result<String, Error>)
    ensures
        match string_attr(attrs@, name@, missing@, wrong@) {
            Ok(s) => r matches Ok(v) && v@ == s,
            Err(m) => r matches Err(Error::Unhandled(v)) && v@ == m,
        },
{
    let key = String::from_str(name);
    match find_attr(attrs, &key) {
        None => Err(Error::unhandled(String::from_str(missing))),
        Some(AttrValue::S(s)) => Ok(s.clone()),
        Some(AttrValue::Other(_)) => Err(Error::unhandled(String::from_str(wrong))),
    }
}

/// The key of a scanned item, which the deletion needs: its `id` and `sort` strings.
/// A missing attribute gives "item id not found" or "item sort not found", one that is not
/// a string gives "id attr error" or "sort attr error"; `id` is looked at first.
pub fn item_key(item: &ScannedItem) -> (r: Result<(String, String), Error>)
    ensures
        match item_key_spec(item.attributes@) {
            Ok((id, sort)) => r matches Ok((a, b)) && a@ == id && b@ == sort,
            Err(m) => r matches Err(Error::Unhandled(v)) && v@ == m,
        },
{
    proof {
        reveal_strlit("id");
        reveal_strlit("sort");
        reveal_strlit("item id not found");
        reveal_strlit("id attr error");
        reveal_strlit("item sort not found");
        reveal_strlit("sort attr error");
    }
    let id = string_attribute(&item.attributes, "id", "item id not found", "id attr error")?;
    let sort = string_attribute(&item.attributes, "sort", "item sort not found", "sort attr error")?;
    Ok((id, sort))
}

/// Whether `key` is the key of `item`.
pub open spec fn key_of(item: ScannedItem, key: (String, String)) -> bool {
    item_key_spec(item.attributes@) matches Ok((id, sort)) && key.0@ == id && key.1@ == sort
}

/// What the deletion does with one page of a scan.
pub struct PageDeletions {
    /// The keys to delete, in order.
    pub keys: Vec<(String, String)>,
    /// The error that ends the deletion, when an item's key cannot be read.
    pub failure: Option<Error>,
    /// Whether to scan the next page afterwards.
    pub scan_next_page: bool,
}

/// The deletions one page of a scan asks for: the keys of its items in order, up to the
/// first item whose key cannot be read, and that item's error, which ends the deletion.
/// Otherwise the deletion goes on to the next page when the scan returned a last key
/// (`more_pages`).
pub fn page_deletions(items: &Vec<ScannedItem>, more_pages: bool) -> (r: PageDeletions)
    ensures
        r.keys@.len() <= items@.len(),
        forall|i: int| 0 <= i < r.keys@.len() ==> key_of(items@[i], #[trigger] r.keys@[i]),
        match r.failure {
            Some(Error::Unhandled(v)) => r.keys@.len() < items@.len() && item_key_spec(
                items@[r.keys@.len() as int].attributes@,
            ) == Err::<(Seq<char>, Seq<char>), Seq<char>>(v@),
            None => r.keys@.len() == items@.len(),
        },
        r.scan_next_page == (r.failure is None && more_pages),
{
    let mut keys: Vec<(String, String)> = Vec::new();
    let mut i: usize = 0;
    while i < items.len()
        invariant
            i <= items.len(),
            keys@.len() == i,
            forall|j: int| 0 <= j < i ==> key_of(items@[j], #[trigger] keys@[j]),
        decreases items.len() - i,
    {
        match item_key(&items[i]) {
            Ok(key) => {
                let ghost prev = keys@;
                keys.push(key);
                assert forall|j: int| 0 <= j < i + 1 implies key_of(items@[j], #[trigger] keys@[j]) by {
                    if j < i {
                        assert(keys@[j] == prev[j]);
                    }
                }
            },
            Err(e) => {
                return PageDeletions { keys, failure: Some(e), scan_next_page: false };
            },
        }
        i = i + 1;
    }
    PageDeletions { keys, failure: None, scan_next_page: more_pages }
}

} // verus!
