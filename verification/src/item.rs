//! The items that are voted on.
//!
//! An item stands for election as long as no date is set for its
//! discussion. The item with the latest such date is the decided one, until
//! that date has passed.

use chrono::{Datelike, NaiveDate, Utc};
use vstd::prelude::*;

verus! {

/// A calendar day, counted from January 1 of the year 1, which is day 1.
#[derive(Debug, Clone, Copy, PartialEq, Eq)]
pub struct Date {
    pub days: i32,
}

/// An item as stored.
#[derive(Debug, Clone)]
pub struct Item {
    pub id: i32,
    pub title: String,
    pub html: String,
    pub markdown: String,
    pub discussed_on: Option<Date>,
}

/// What is submitted for a new item.
#[derive(Debug, Clone)]
pub struct NewItemData {
    pub title: String,
    pub html: String,
    pub markdown: String,
}

/// What is submitted to change an item. An empty `discussed_on` takes the
/// item's date away.
#[derive(Debug, Clone)]
pub struct ChangeItemData {
    pub id: i32,
    pub title: String,
    pub html: String,
    pub markdown: String,
    pub discussed_on: String,
}

/// The two forms in which an item's text is kept.
#[derive(Debug, Clone, Copy, PartialEq, Eq)]
pub enum ItemFormat {
    HTML,
    Markdown,
}

/// How chrono writes the day with this number, in its `Debug` form; nothing
/// for a number outside the range of its dates.
pub uninterp spec fn iso_date(days: int) -> Option<Seq<char>>;

/// Reads the clock with chrono's `Utc::now` and counts the days of its date
/// in UTC with `num_days_from_ce`. Nothing is claimed of the day.
#[verifier::external_body]
fn current_date() -> (r: Date) {
    Date { days: Utc::now().date_naive().num_days_from_ce() }
}

/// Makes the date with chrono's `NaiveDate::from_num_days_from_ce_opt` and
/// writes it in its `Debug` form. Claimed of it: the same day gives the same
/// text.
#[verifier::external_body]
pub(crate) fn date_text(date: Date) -> (r: Option<String>)
    ensures
        match r {
            Some(text) => iso_date(date.days as int) == Some(text@),
            None => iso_date(date.days as int) is None,
        },
{
    NaiveDate::from_num_days_from_ce_opt(date.days).map(|d| format!("{:?}", d))
}

/// The first item with the given id, if there is one.
pub open spec fn first_with_id(items: Seq<Item>, id: i32) -> Option<Item>
    decreases items.len(),
{
    if items.len() == 0 {
        None
    } else if items[0].id == id {
        Some(items[0])
    } else {
        first_with_id(items.drop_first(), id)
    }
}

/// Holds of the items that stand for election.
pub open spec fn undecided() -> spec_fn(Item) -> bool {
    |item: Item| item.discussed_on is None
}

/// Holds of the items that a listing asks for: those with one of the ids,
/// or all where no id is given; of these the dated ones where only
/// discussed items are asked for, else the undated ones where only
/// undiscussed items are.
pub open spec fn asked_for(ids: Seq<i32>, discussed_only: bool, undiscussed_only: bool) -> spec_fn(
    Item,
) -> bool {
    |item: Item|
        (ids.len() == 0 || ids.contains(item.id)) && if discussed_only {
            item.discussed_on is Some
        } else if undiscussed_only {
            item.discussed_on is None
        } else {
            true
        }
}

/// The item that is decided on the day `today`: the one with the latest
/// date, if that date has not passed.
pub open spec fn decided_on(latest: Option<Item>, today: Date) -> Option<Item> {
    match latest {
        Some(item) => match item.discussed_on {
            Some(date) => if today.days <= date.days {
                Some(item)
            } else {
                None
            },
            None => None,
        },
        None => None,
    }
}

/// Whether `id` is one of the ids.
fn has_id(ids: &Vec<i32>, id: i32) -> (r: bool)
    ensures
        r == ids@.contains(id),
{
    let mut i: usize = 0;
    while i < ids.len()
        invariant
            i <= ids.len(),
            forall|k: int| 0 <= k < i ==> ids[k] != id,
        decreases ids.len() - i,
    {
        if ids[i] == id {
            return true;
        }
        i += 1;
    }
    false
}

impl Item {
    /// Whether the item stands for election.
    pub fn is_undecided(&self) -> (r: bool)
        ensures
            r == (self.discussed_on is None),
    {
        self.discussed_on.is_none()
    }

    /// A copy of the item.
    pub fn duplicate(&self) -> (r: Item)
        ensures
            r == *self,
    {
        Item {
            id: self.id,
            title: self.title.clone(),
            html: self.html.clone(),
            markdown: self.markdown.clone(),
            discussed_on: self.discussed_on,
        }
    }

    /// The item's text in the given form.
    pub fn format(&self, item_format: ItemFormat) -> (r: String)
        ensures
            r == match item_format {
                ItemFormat::HTML => self.html,
                ItemFormat::Markdown => self.markdown,
            },
    {
        match item_format {
            ItemFormat::HTML => self.html.clone(),
            ItemFormat::Markdown => self.markdown.clone(),
        }
    }

    /// Of the item with the latest date, whether it is still decided on the
    /// day `today`.
    pub fn get_decided_on(latest: Option<Item>, today: Date) -> (r: Option<Item>)
        ensures
            r == decided_on(latest, today),
    {
        match latest {
            Some(item) => match item.discussed_on {
                Some(date) => if today.days <= date.days {
                    Some(item)
                } else {
                    None
                },
                None => None,
            },
            None => None,
        }
    }

    /// Of the item with the latest date, whether it is still decided today.
    /// Which day today is, the clock says; the result is what is decided on
    /// that day, so an item dated on the last day that can be counted is returned.
    pub fn get_decided(latest: Option<Item>) -> (r: Option<Item>)
        ensures
            exists|today: Date| r == decided_on(latest, today),
            r is Some ==> r == latest && latest.unwrap().discussed_on is Some,
            latest matches Some(item) && item.discussed_on == Some(Date { days: i32::MAX })
                ==> r == latest,
    {
        let today = current_date();
        let found = Item::get_decided_on(latest, today);
        assert(found == decided_on(latest, today));
        found
    }

    /// The first of the items with the given id.
    pub fn from_id(items: &Vec<Item>, id: i32) -> (r: Option<&Item>)
        ensures
            match r {
                Some(item) => first_with_id(items@, id) == Some(*item),
                None => first_with_id(items@, id) is None,
            },
    {
        let mut i: usize = 0;
        proof {
            assert(items@.skip(0) =~= items@);
        }
        while i < items.len()
            invariant
                i <= items.len(),
                first_with_id(items@, id) == first_with_id(items@.skip(i as int), id),
            decreases items.len() - i,
        {
            proof {
                assert(items@.skip(i as int)[0] == items[i as int]);
                assert(items@.skip(i as int).drop_first() =~= items@.skip(i + 1));
            }
            if items[i].id == id {
                return Some(&items[i]);
            }
            i += 1;
        }
        None
    }

    /// The items of the pool that a listing asks for, in the pool's order.
    pub fn from_ids(
        pool: &Vec<Item>,
        ids: &Vec<i32>,
        discussed_only: bool,
        undiscussed_only: bool,
    ) -> (r: Vec<Item>)
        ensures
            r@ == pool@.filter(asked_for(ids@, discussed_only, undiscussed_only)),
    {
        let ghost wanted = asked_for(ids@, discussed_only, undiscussed_only);
        let mut found: Vec<Item> = Vec::new();
        let mut i: usize = 0;
        proof {
            assert(pool@.take(0).filter(wanted) =~= found@);
        }
        while i < pool.len()
            invariant
                i <= pool.len(),
                wanted == asked_for(ids@, discussed_only, undiscussed_only),
                found@ == pool@.take(i as int).filter(wanted),
            decreases pool.len() - i,
        {
            let item = &pool[i];
            let named = ids.len() == 0 || has_id(ids, item.id);
            let dated = if discussed_only {
                item.discussed_on.is_some()
            } else if undiscussed_only {
                item.discussed_on.is_none()
            } else {
                true
            };
            proof {
                assert(pool@.take(i + 1) =~= pool@.take(i as int).push(*item));
                pool@.take(i as int).lemma_filter_push(*item, wanted);
                assert((named && dated) == wanted(*item));
            }
            if named && dated {
                found.push(item.duplicate());
            }
            i += 1;
        }
        proof {
            assert(pool@.take(pool.len() as int) =~= pool@);
        }
        found
    }

    /// The ids of the items that stand for election, in the items' order.
    pub fn undecided_ids(items: &Vec<Item>) -> (r: Vec<i32>)
        ensures
            r@ == items@.filter(undecided()).map_values(|item: Item| item.id),
    {
        let mut ids: Vec<i32> = Vec::new();
        let mut i: usize = 0;
        proof {
            assert(items@.take(0).filter(undecided()).map_values(|item: Item| item.id) =~= ids@);
        }
        while i < items.len()
            invariant
                i <= items.len(),
                ids@ == items@.take(i as int).filter(undecided()).map_values(|item: Item| item.id),
            decreases items.len() - i,
        {
            proof {
                let shorter = items@.take(i as int);
                let item = items[i as int];
                assert(items@.take(i + 1) =~= shorter.push(item));
                shorter.lemma_filter_push(item, undecided());
                assert(shorter.filter(undecided()).push(item).map_values(|item: Item| item.id)
                    =~= shorter.filter(undecided()).map_values(|item: Item| item.id).push(
                    item.id,
                ));
            }
            if items[i].is_undecided() {
                ids.push(items[i].id);
            }
            i += 1;
        }
        proof {
            assert(items@.take(items.len() as int) =~= items@);
        }
        ids
    }
}

impl ChangeItemData {
    /// The date text to store: none where the submitted text is empty.
    pub fn discussed(&self) -> (r: Option<&String>)
        ensures
            r == if self.discussed_on@.len() == 0 {
                None
            } else {
                Some(&self.discussed_on)
            },
    {
        if self.discussed_on.as_str().is_empty() {
            None
        } else {
            Some(&self.discussed_on)
        }
    }
}

} // verus!
