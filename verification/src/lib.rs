//! Ranked-choice voting over a pool of undecided items.
//!
//! Members rank the items they would like to discuss next. The library
//! resolves a winner by instant-runoff tallying, a second choice by tallying
//! again with the winner taken out of every ballot, and it turns a submitted
//! ballot into the rows that replace a voter's earlier ones.

pub mod context;
pub mod item;
pub mod mail;
pub mod markdown;
pub mod submission;
pub mod tally;
pub mod user;
pub mod vote;

use vstd::prelude::*;

verus! {

/// Where announcements are mailed from and to.
#[derive(Debug, Clone)]
pub struct MailConfig {
    pub email_from: String,
    pub email_to: String,
    pub email_comment: Option<String>,
    pub email_username: String,
    pub email_server: String,
}

impl MailConfig {
    /// A copy of the configuration.
    pub fn duplicate(&self) -> (r: MailConfig)
        ensures
            r == *self,
    {
        MailConfig {
            email_from: self.email_from.clone(),
            email_to: self.email_to.clone(),
            email_comment: match &self.email_comment {
                Some(c) => Some(c.clone()),
                None => None,
            },
            email_username: self.email_username.clone(),
            email_server: self.email_server.clone(),
        }
    }
}

} // verus!
