//! The text of the mail that announces an item.
//!
//! The mail has a subject and two bodies, one in markdown and one in HTML.
//! Each body is the item's text in that form, followed by the comment, if
//! one was given. Sending the mail is left to the caller.

use crate::item::{date_text, iso_date, Date, Item, ItemFormat};
use vstd::prelude::*;
use vstd::string::StringExecFns;

verus! {

/// The text with every occurrence of `from` replaced by `to`, looking for
/// occurrences from the left and past each one that was replaced.
pub open spec fn replaced_all(text: Seq<char>, from: Seq<char>, to: Seq<char>) -> Seq<char>
    recommends
        from.len() > 0,
    decreases text.len(),
{
    if from.len() == 0 || text.len() < from.len() {
        text
    } else if text.subrange(0, from.len() as int) == from {
        to + replaced_all(text.skip(from.len() as int), from, to)
    } else {
        seq![text[0]] + replaced_all(text.skip(1), from, to)
    }
}

/// Calls `str::replace`. Claimed of it: every match of the pattern is
/// replaced, where matches are looked for from the left and do not overlap.
#[verifier::external_body]
fn replace_all(text: &str, from: &str, to: &str) -> (r: String)
    requires
        from@.len() > 0,
    ensures
        r@ == replaced_all(text@, from@, to@),
{
    text.replace(from, to)
}

/// The comment as it is appended to a body: nothing without a comment, else
/// the comment, with each backslash followed by `n` turned into a line
/// break, after a rule in the body's form.
pub open spec fn comment_text(comment: Option<String>, item_format: ItemFormat) -> Seq<char> {
    match comment {
        None => Seq::empty(),
        Some(c) => {
            let shown = replaced_all(c@, "\\n"@, "\n"@);
            match item_format {
                ItemFormat::HTML => "\n<hr><p>"@ + shown + "</p>"@,
                ItemFormat::Markdown => "\n\n-------\n"@ + shown,
            }
        },
    }
}

/// The subject of the mail: the item's title, after the day of its
/// discussion where that day is set and can be written.
pub open spec fn subject_text(title: Seq<char>, discussed_on: Option<Date>) -> Seq<char> {
    match discussed_on {
        Some(date) => match iso_date(date.days as int) {
            Some(day) => "Next Paper for "@ + day + ": "@ + title,
            None => "Next Paper: "@ + title,
        },
        None => "Next Paper: "@ + title,
    }
}

/// A mail's subject and its two bodies.
#[derive(Debug, Clone)]
pub struct MailText {
    pub subject: String,
    pub markdown: String,
    pub html: String,
}

/// The comment as it is appended to a body.
pub fn format_comment(comment: &Option<String>, item_format: ItemFormat) -> (r: String)
    ensures
        r@ == comment_text(*comment, item_format),
{
    match comment {
        Some(c) => {
            proof {
                reveal_strlit("\\n");
            }
            let shown = replace_all(c.as_str(), "\\n", "\n");
            match item_format {
                ItemFormat::HTML => {
                    let mut text = String::from_str("\n<hr><p>");
                    text.append(shown.as_str());
                    text.append("</p>");
                    text
                },
                ItemFormat::Markdown => {
                    let mut text = String::from_str("\n\n-------\n");
                    text.append(shown.as_str());
                    text
                },
            }
        },
        None => String::new(),
    }
}

/// The subject of the mail that announces the item.
pub fn subject(item: &Item) -> (r: String)
    ensures
        r@ == subject_text(item.title@, item.discussed_on),
{
    let day = match item.discussed_on {
        Some(date) => date_text(date),
        None => None,
    };
    match day {
        Some(day) => {
            let mut text = String::from_str("Next Paper for ");
            text.append(day.as_str());
            text.append(": ");
            text.append(item.title.as_str());
            text
        },
        None => {
            let mut text = String::from_str("Next Paper: ");
            text.append(item.title.as_str());
            text
        },
    }
}

/// The mail that announces the item: under the given subject, or under
/// the item's own where none is given, and with the comment appended to
/// both bodies.
pub fn compose(item: &Item, given_subject: Option<String>, comment: &Option<String>) -> (r:
    MailText)
    ensures
        r.subject@ == match given_subject {
            Some(s) => s@,
            None => subject_text(item.title@, item.discussed_on),
        },
        r.markdown@ == item.markdown@ + comment_text(*comment, ItemFormat::Markdown),
        r.html@ == item.html@ + comment_text(*comment, ItemFormat::HTML),
{
    let subject = match given_subject {
        Some(s) => s,
        None => subject(item),
    };
    let mut markdown = item.format(ItemFormat::Markdown);
    markdown.append(format_comment(comment, ItemFormat::Markdown).as_str());
    let mut html = item.format(ItemFormat::HTML);
    html.append(format_comment(comment, ItemFormat::HTML).as_str());
    MailText { subject, markdown, html }
}

} // verus!
