//! A JSON document as a tree, and the search for the node that describes a
//! data item.

use crate::frame_fun::FrameFun;
use crate::text::same_text;
use vstd::prelude::*;

verus! {

/// A JSON value. The members of an object keep their order.
pub enum JsonValue {
    Null,
    Bool(bool),
    /// A number as it is written.
    Number(String),
    Text(String),
    Array(Vec<JsonValue>),
    Object(Vec<(String, JsonValue)>),
}

/// The key under which a node names the data item that it describes.
pub open spec fn item_key() -> Seq<char> {
    "数据项"@
}

/// Whether the first member with the item key, among those from `from` on,
/// holds the text `item`.
pub open spec fn names_item(members: Seq<(String, JsonValue)>, item: Seq<char>, from: int) -> bool
    decreases members.len() - from,
{
    if from < 0 || from >= members.len() {
        false
    } else if members[from].0@ == item_key() {
        match members[from].1 {
            JsonValue::Text(t) => t@ == item,
            _ => false,
        }
    } else {
        names_item(members, item, from + 1)
    }
}

/// The first node, in document order, that is an object whose member with
/// the item key holds the text `item`.
pub open spec fn node_of_item(value: JsonValue, item: Seq<char>) -> Option<JsonValue>
    decreases value, 1int, 0int,
{
    match value {
        JsonValue::Object(members) => if names_item(members@, item, 0) {
            Some(value)
        } else {
            node_among_members(members, item, 0)
        },
        JsonValue::Array(items) => node_among_items(items, item, 0),
        _ => None,
    }
}

/// The first such node below the members from `from` on.
pub open spec fn node_among_members(members: Vec<(String, JsonValue)>, item: Seq<char>, from: int) -> Option<
    JsonValue,
>
    decreases members, 0int, members@.len() - from,
{
    if from < 0 || from >= members@.len() {
        None
    } else {
        match node_of_item(members@[from].1, item) {
            Some(found) => Some(found),
            None => node_among_members(members, item, from + 1),
        }
    }
}

/// The first such node below the items from `from` on.
pub open spec fn node_among_items(items: Vec<JsonValue>, item: Seq<char>, from: int) -> Option<
    JsonValue,
>
    decreases items, 0int, items@.len() - from,
{
    if from < 0 || from >= items@.len() {
        None
    } else {
        match node_of_item(items@[from], item) {
            Some(found) => Some(found),
            None => node_among_items(items, item, from + 1),
        }
    }
}

impl FrameFun {
    /// Whether the member with the item key holds the text `data_item`.
    pub fn members_name_item(members: &Vec<(String, JsonValue)>, data_item: &str) -> (r: bool)
        ensures
            r == names_item(members@, data_item@, 0),
    {
        let mut i: usize = 0;
        while i < members.len()
            invariant
                i <= members.len(),
                names_item(members@, data_item@, 0) == names_item(members@, data_item@, i as int),
            decreases members.len() - i,
        {
            if same_text(members[i].0.as_str(), "数据项") {
                return match &members[i].1 {
                    JsonValue::Text(t) => same_text(t.as_str(), data_item),
                    _ => false,
                };
            }
            i += 1;
        }
        false
    }

    /// The first node, in document order, that describes the data item
    /// `data_item`: an object whose member `数据项` holds that text.
    pub fn find_node_by_data_item<'a>(data: &'a JsonValue, data_item: &str) -> (r: Option<
        &'a JsonValue,
    >)
        ensures
            match r {
                Some(found) => node_of_item(*data, data_item@) == Some(*found),
                None => node_of_item(*data, data_item@) is None,
            },
        decreases data,
    {
        match data {
            JsonValue::Object(members) => {
                if Self::members_name_item(members, data_item) {
                    return Some(data);
                }
                let mut i: usize = 0;
                while i < members.len()
                    invariant
                        i <= members.len(),
                        *data == JsonValue::Object(*members),
                        !names_item(members@, data_item@, 0),
                        node_among_members(*members, data_item@, 0) == node_among_members(
                            *members,
                            data_item@,
                            i as int,
                        ),
                    decreases members.len() - i,
                {
                    match Self::find_node_by_data_item(&members[i].1, data_item) {
                        Some(found) => {
                            return Some(found);
                        },
                        None => {},
                    }
                    i += 1;
                }
                None
            },
            JsonValue::Array(items) => {
                let mut i: usize = 0;
                while i < items.len()
                    invariant
                        i <= items.len(),
                        *data == JsonValue::Array(*items),
                        node_among_items(*items, data_item@, 0) == node_among_items(
                            *items,
                            data_item@,
                            i as int,
                        ),
                    decreases items.len() - i,
                {
                    match Self::find_node_by_data_item(&items[i], data_item) {
                        Some(found) => {
                            return Some(found);
                        },
                        None => {},
                    }
                    i += 1;
                }
                None
            },
            _ => None,
        }
    }
}

} // verus!
