//! What the pages show.
//!
//! Each page is rendered from a context: the message to flash, the name of
//! the member who is logged in, and what the page is about. The voting page
//! shows the item that is decided, the winner of the primary election and,
//! to members, the second choice.

use crate::item::{first_with_id, Item};
use crate::tally::{ElectionResult, Outcome};
use crate::user::User;
use crate::vote::{primary_outcome, runoff_outcome, Snapshot, StoreError, Vote};
use crate::MailConfig;
use vstd::prelude::*;

verus! {

/// What every page shows.
#[derive(Debug, Clone)]
pub struct Context {
    pub flash: Option<(String, String)>,
    pub username: Option<String>,
}

/// The voting page.
#[derive(Debug, Clone)]
pub struct VoteContext {
    pub next: Option<Item>,
    pub winner: Option<Item>,
    pub second: Option<Item>,
    pub items: Vec<(Item, Option<i32>)>,
    pub context: Context,
}

/// A page that lists items.
#[derive(Debug, Clone)]
pub struct ItemContext {
    pub items: Vec<Item>,
    pub context: Context,
}

/// The page that lists the items discussed so far.
#[derive(Debug, Clone)]
pub struct HistoryContext {
    pub items: Vec<Item>,
    pub context: Context,
}

/// A page about the member.
#[derive(Debug, Clone)]
pub struct UserContext {
    pub context: Context,
}

/// The page on which an item is edited.
#[derive(Debug, Clone)]
pub struct EditContext {
    pub item: Option<Item>,
    pub context: Context,
}

/// The page from which an item is mailed.
#[derive(Debug, Clone)]
pub struct MailContext {
    pub item: Option<Item>,
    pub config: MailConfig,
    pub context: Context,
}

/// The item that an election puts forward: the first in the pool with the
/// id of the outcome's choice.
pub open spec fn put_forward(outcome: Outcome, pool: Seq<Item>) -> Option<Item> {
    match outcome.choice() {
        Some(id) => first_with_id(pool, id),
        None => None,
    }
}

/// The winner that the voting page shows: none where the store could not
/// be read.
pub open spec fn shown_winner(loaded: Result<Snapshot, StoreError>, pool: Seq<Item>) -> Option<
    Item,
> {
    match loaded {
        Ok(s) => put_forward(primary_outcome(s.votes@, s.undecided@.to_set()), pool),
        Err(_) => None,
    }
}

/// The second choice that the voting page shows: what the second election
/// puts forward when it is run off against the winner shown.
pub open spec fn shown_second(loaded: Result<Snapshot, StoreError>, pool: Seq<Item>) -> Option<
    Item,
> {
    match (loaded, shown_winner(loaded, pool)) {
        (Ok(s), Some(winner)) => put_forward(
            runoff_outcome(s.votes@, s.undecided@.to_set(), Some(winner.id)),
            pool,
        ),
        _ => None,
    }
}

/// The item that a result puts forward, looked up in the pool.
fn resolve(result: &Result<ElectionResult, StoreError>, pool: &Vec<Item>) -> (r: Option<Item>)
    requires
        result matches Ok(e) ==> e.well_formed(),
    ensures
        r == match result {
            Ok(e) => put_forward(e@, pool@),
            Err(_) => None,
        },
{
    match result {
        Ok(e) => match e.choice() {
            Some(id) => match Item::from_id(pool, id) {
                Some(item) => Some(item.duplicate()),
                None => None,
            },
            None => None,
        },
        Err(_) => None,
    }
}

impl Context {
    /// For a visitor who is not logged in.
    pub fn new(flash: Option<(String, String)>) -> (r: Context)
        ensures
            r.flash == flash,
            r.username is None,
    {
        Context { flash, username: None }
    }

    /// For a member.
    pub fn for_user(user: &User, flash: Option<(String, String)>) -> (r: Context)
        ensures
            r.flash == flash,
            r.username == Some(user.username),
    {
        Context { flash, username: Some(user.username.clone()) }
    }
}

impl VoteContext {
    /// The voting page for a visitor: the decided item and the winner, of
    /// the items in the pool.
    pub fn new(
        next: Option<Item>,
        loaded: &Result<Snapshot, StoreError>,
        pool: &Vec<Item>,
        flash: Option<(String, String)>,
    ) -> (r: VoteContext)
        ensures
            r.next == next,
            r.winner == shown_winner(*loaded, pool@),
            r.second is None,
            r.items@ == Seq::<(Item, Option<i32>)>::empty(),
            r.context.flash == flash,
            r.context.username is None,
    {
        let primary = Vote::run_election(loaded);
        VoteContext {
            next,
            winner: resolve(&primary, pool),
            second: None,
            items: Vec::new(),
            context: Context::new(flash),
        }
    }

    /// The voting page for a member: the decided item, the winner, the
    /// second choice, and the items with the ranks that the member gave.
    pub fn for_user(
        user: &User,
        next: Option<Item>,
        loaded: &Result<Snapshot, StoreError>,
        pool: &Vec<Item>,
        items: Vec<(Item, Option<i32>)>,
        flash: Option<(String, String)>,
    ) -> (r: VoteContext)
        ensures
            r.next == next,
            r.winner == shown_winner(*loaded, pool@),
            r.second == shown_second(*loaded, pool@),
            r.items == items,
            r.context.flash == flash,
            r.context.username == Some(user.username),
    {
        let primary = Vote::run_election(loaded);
        let winner = resolve(&primary, pool);
        let excluded = match &winner {
            Some(item) => Some(item.id),
            None => None,
        };
        let runoff = Vote::run_second_election(loaded, excluded);
        let second = match excluded {
            Some(_) => resolve(&runoff, pool),
            None => None,
        };
        VoteContext { next, winner, second, items, context: Context::for_user(user, flash) }
    }
}

impl UserContext {
    /// For a visitor who is not logged in.
    pub fn new(flash: Option<(String, String)>) -> (r: UserContext)
        ensures
            r.context.flash == flash,
            r.context.username is None,
    {
        UserContext { context: Context::new(flash) }
    }

    /// For a member.
    pub fn for_user(user: &User, flash: Option<(String, String)>) -> (r: UserContext)
        ensures
            r.context.flash == flash,
            r.context.username == Some(user.username),
    {
        UserContext { context: Context::for_user(user, flash) }
    }
}

impl ItemContext {
    /// The items discussed so far, for a member.
    pub fn for_user_history(user: &User, history: Vec<Item>, flash: Option<(String, String)>) -> (r:
        ItemContext)
        ensures
            r.items == history,
            r.context.flash == flash,
            r.context.username == Some(user.username),
    {
        ItemContext { items: history, context: Context::for_user(user, flash) }
    }

    /// All items, for a member.
    pub fn for_user_full(user: &User, all: Vec<Item>, flash: Option<(String, String)>) -> (r:
        ItemContext)
        ensures
            r.items == all,
            r.context.flash == flash,
            r.context.username == Some(user.username),
    {
        ItemContext { items: all, context: Context::for_user(user, flash) }
    }
}

impl HistoryContext {
    /// The items discussed so far, for a member.
    pub fn for_user(user: &User, history: Vec<Item>, flash: Option<(String, String)>) -> (r:
        HistoryContext)
        ensures
            r.items == history,
            r.context.flash == flash,
            r.context.username == Some(user.username),
    {
        HistoryContext { items: history, context: Context::for_user(user, flash) }
    }
}

impl EditContext {
    /// The page on which a member edits the item with the given id, of the
    /// items in the pool.
    pub fn for_user(id: i32, user: &User, pool: &Vec<Item>, flash: Option<(String, String)>) -> (r:
        EditContext)
        ensures
            r.item == first_with_id(pool@, id),
            r.context.flash == flash,
            r.context.username == Some(user.username),
    {
        let item = match Item::from_id(pool, id) {
            Some(item) => Some(item.duplicate()),
            None => None,
        };
        EditContext { item, context: Context::for_user(user, flash) }
    }
}

impl MailContext {
    /// The page from which a member mails the item with the given id, of
    /// the items in the pool.
    pub fn new(
        id: i32,
        user: &User,
        config: &MailConfig,
        pool: &Vec<Item>,
        flash: Option<(String, String)>,
    ) -> (r: MailContext)
        ensures
            r.item == first_with_id(pool@, id),
            r.config == *config,
            r.context.flash == flash,
            r.context.username == Some(user.username),
    {
        let item = match Item::from_id(pool, id) {
            Some(item) => Some(item.duplicate()),
            None => None,
        };
        MailContext { item, config: config.duplicate(), context: Context::for_user(user, flash) }
    }
}

} // verus!
