//! The map from object attribute descriptors to the items of a meter: for
//! each master descriptor a set of named lists of entries.

use crate::schema::text_model;
use crate::text::{chars_of, same_chars_ignoring_case, same_ignoring_case};
use vstd::prelude::*;

verus! {

/// One entry of a list: a descriptor, the item of the meter that holds its
/// value, and where in the item the value stands.
pub struct ListItem {
    pub v_oad: String,
    pub item_07: String,
    pub start_pos: u32,
    pub len_07: u32,
    pub comment: Option<String>,
}

/// What a [`ListItem`] holds, as mathematical values.
pub struct ListItemModel {
    pub v_oad: Seq<char>,
    pub item_07: Seq<char>,
    pub start_pos: u32,
    pub len_07: u32,
    pub comment: Option<Seq<char>>,
}

impl View for ListItem {
    type V = ListItemModel;

    open spec fn view(&self) -> ListItemModel {
        ListItemModel {
            v_oad: self.v_oad@,
            item_07: self.item_07@,
            start_pos: self.start_pos,
            len_07: self.len_07,
            comment: text_model(self.comment),
        }
    }
}

/// The named lists of one master descriptor, in the order in which they
/// were given.
pub struct SubConfig {
    pub lists: Vec<(String, Vec<ListItem>)>,
}

/// The lists of every master descriptor, in the order in which they were
/// given.
pub struct CompleteConfig {
    pub sub_configs: Vec<(String, SubConfig)>,
}

/// The index of the first master descriptor from `from` on that is `master`
/// but for the case of ASCII letters.
pub open spec fn first_master(configs: Seq<(String, SubConfig)>, master: Seq<char>, from: int) -> Option<
    int,
>
    decreases configs.len() - from,
{
    if from < 0 || from >= configs.len() {
        None
    } else if same_ignoring_case(configs[from].0@, master) {
        Some(from)
    } else {
        first_master(configs, master, from + 1)
    }
}

/// The first entry from `from` on whose descriptor is `v_oad` but for the
/// case of ASCII letters.
pub open spec fn first_entry(items: Seq<ListItem>, v_oad: Seq<char>, from: int) -> Option<
    ListItemModel,
>
    decreases items.len() - from,
{
    if from < 0 || from >= items.len() {
        None
    } else if same_ignoring_case(items[from].v_oad@, v_oad) {
        Some(items[from]@)
    } else {
        first_entry(items, v_oad, from + 1)
    }
}

/// The first such entry in the lists from `from` on.
pub open spec fn first_in_lists(lists: Seq<(String, Vec<ListItem>)>, v_oad: Seq<char>, from: int) -> Option<
    ListItemModel,
>
    decreases lists.len() - from,
{
    if from < 0 || from >= lists.len() {
        None
    } else {
        match first_entry(lists[from].1@, v_oad, 0) {
            Some(found) => Some(found),
            None => first_in_lists(lists, v_oad, from + 1),
        }
    }
}

/// The entry of a descriptor under a master descriptor: the first entry
/// with that descriptor in the lists of the first master descriptor that
/// matches.
pub open spec fn entry_of(config: CompleteConfig, master: Seq<char>, v_oad: Seq<char>) -> Option<
    ListItemModel,
> {
    match first_master(config.sub_configs@, master, 0) {
        Some(i) => first_in_lists(config.sub_configs@[i].1.lists@, v_oad, 0),
        None => None,
    }
}

/// The model of an optional entry.
pub open spec fn entry_model(item: Option<ListItem>) -> Option<ListItemModel> {
    match item {
        Some(i) => Some(i@),
        None => None,
    }
}

impl ListItem {
    /// A copy of the entry.
    pub fn duplicate(&self) -> (copy: ListItem)
        ensures
            copy@ == self@,
    {
        ListItem {
            v_oad: self.v_oad.clone(),
            item_07: self.item_07.clone(),
            start_pos: self.start_pos,
            len_07: self.len_07,
            comment: crate::schema::duplicate_text(&self.comment),
        }
    }
}

impl CompleteConfig {
    /// The lists of the first master descriptor that is `master_oad` but
    /// for the case of ASCII letters.
    pub fn get_config_by_master_oad(&self, master_oad: &str) -> (r: Option<&SubConfig>)
        ensures
            match r {
                Some(c) => first_master(self.sub_configs@, master_oad@, 0) is Some && *c
                    == self.sub_configs@[first_master(self.sub_configs@, master_oad@, 0)->0].1,
                None => first_master(self.sub_configs@, master_oad@, 0) is None,
            },
    {
        let wanted = chars_of(master_oad);
        let mut i: usize = 0;
        while i < self.sub_configs.len()
            invariant
                i <= self.sub_configs.len(),
                wanted@ == master_oad@,
                first_master(self.sub_configs@, master_oad@, 0) == first_master(
                    self.sub_configs@,
                    master_oad@,
                    i as int,
                ),
            decreases self.sub_configs.len() - i,
        {
            let key = chars_of(self.sub_configs[i].0.as_str());
            if same_chars_ignoring_case(&key, &wanted) {
                return Some(&self.sub_configs[i].1);
            }
            i += 1;
        }
        None
    }
}

/// The namespace of the lookup in the map.
pub struct TaskOadConfigManager;

impl TaskOadConfigManager {
    /// The first entry of a list whose descriptor is `v_oad` but for the
    /// case of ASCII letters.
    pub fn entry_in(items: &Vec<ListItem>, v_oad: &str) -> (r: Option<ListItem>)
        ensures
            entry_model(r) == first_entry(items@, v_oad@, 0),
    {
        let wanted = chars_of(v_oad);
        let mut i: usize = 0;
        while i < items.len()
            invariant
                i <= items.len(),
                wanted@ == v_oad@,
                first_entry(items@, v_oad@, 0) == first_entry(items@, v_oad@, i as int),
            decreases items.len() - i,
        {
            let key = chars_of(items[i].v_oad.as_str());
            if same_chars_ignoring_case(&key, &wanted) {
                return Some(items[i].duplicate());
            }
            i += 1;
        }
        None
    }

    /// The entry of the descriptor `v_oad` under the master descriptor
    /// `master_oad`; see [`entry_of`].
    #[verifier::loop_isolation(false)]
    pub fn get_voad(config: &CompleteConfig, master_oad: &str, v_oad: &str) -> (r: Option<
        ListItem,
    >)
        ensures
            entry_model(r) == entry_of(*config, master_oad@, v_oad@),
    {
        let sub = match config.get_config_by_master_oad(master_oad) {
            Some(c) => c,
            None => {
                return None;
            },
        };
        let mut i: usize = 0;
        while i < sub.lists.len()
            invariant
                i <= sub.lists.len(),
                first_in_lists(sub.lists@, v_oad@, 0) == first_in_lists(sub.lists@, v_oad@, i as int),
            decreases sub.lists.len() - i,
        {
            match Self::entry_in(&sub.lists[i].1, v_oad) {
                Some(found) => {
                    return Some(found);
                },
                None => {},
            }
            i += 1;
        }
        None
    }
}

} // verus!
