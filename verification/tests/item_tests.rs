use chrono::{Datelike, NaiveDate};
use prank::context::{
    Context, EditContext, HistoryContext, ItemContext, MailContext, UserContext, VoteContext,
};
use prank::item::{ChangeItemData, Date, Item, ItemFormat, NewItemData};
use prank::mail::{compose, format_comment, subject};
use prank::user::User;
use prank::vote::{Snapshot, StoreError, Vote};
use prank::MailConfig;

fn day(year: i32, month: u32, day: u32) -> Date {
    Date { days: NaiveDate::from_ymd_opt(year, month, day).unwrap().num_days_from_ce() }
}

fn item(id: i32, discussed_on: Option<Date>) -> Item {
    Item {
        id,
        title: format!("Paper {}", id),
        html: format!("<p>text {}</p>", id),
        markdown: format!("text {}", id),
        discussed_on,
    }
}

fn member() -> User {
    User { id: 8, username: "ada".to_string(), is_admin: false, is_approved: true }
}

fn flash() -> Option<(String, String)> {
    Some(("success".to_string(), "Saved".to_string()))
}

fn rows(ballots: &[(i32, &[i32])]) -> Vec<Vote> {
    let mut out = Vec::new();
    for (uid, items) in ballots {
        for (rank, id) in items.iter().enumerate() {
            out.push(Vote { user_id: *uid, item_id: *id, ordinal: rank as i32 });
        }
    }
    out
}

#[test]
fn item_without_a_date_is_undecided() {
    assert!(item(1, None).is_undecided());
    assert!(!item(1, Some(day(2021, 10, 5))).is_undecided());
}

#[test]
fn item_is_decided_until_its_date_has_passed() {
    let latest = item(1, Some(day(2021, 10, 5)));
    assert_eq!(Item::get_decided_on(Some(latest.clone()), day(2021, 10, 4)).map(|i| i.id), Some(1));
    assert_eq!(Item::get_decided_on(Some(latest.clone()), day(2021, 10, 5)).map(|i| i.id), Some(1));
    assert!(Item::get_decided_on(Some(latest), day(2021, 10, 6)).is_none());
}

#[test]
fn nothing_is_decided_without_a_dated_item() {
    assert!(Item::get_decided_on(None, day(2021, 10, 5)).is_none());
    assert!(Item::get_decided_on(Some(item(1, None)), day(2021, 10, 5)).is_none());
}

#[test]
fn item_of_the_past_is_not_decided_today() {
    assert!(Item::get_decided(Some(item(1, Some(day(2001, 1, 1))))).is_none());
    assert!(Item::get_decided(Some(item(1, None))).is_none());
    assert!(Item::get_decided(None).is_none());
}

#[test]
fn item_of_the_far_future_is_decided_today() {
    let found = Item::get_decided(Some(item(4, Some(day(9000, 1, 1)))));
    assert_eq!(found.map(|i| i.id), Some(4));
}

#[test]
fn item_is_found_by_its_id() {
    let pool = vec![item(1, None), item(2, None), item(3, None)];
    assert_eq!(Item::from_id(&pool, 2).map(|i| i.title.clone()), Some("Paper 2".to_string()));
    assert!(Item::from_id(&pool, 4).is_none());
    assert!(Item::from_id(&Vec::new(), 1).is_none());
}

#[test]
fn first_item_with_the_id_is_found() {
    let mut second = item(2, None);
    second.title = "Other".to_string();
    let pool = vec![item(1, None), item(2, None), second];
    assert_eq!(Item::from_id(&pool, 2).map(|i| i.title.clone()), Some("Paper 2".to_string()));
}

#[test]
fn undecided_ids_leave_out_dated_items() {
    let pool = vec![item(3, None), item(1, Some(day(2021, 10, 5))), item(2, None)];
    assert_eq!(Item::undecided_ids(&pool), vec![3, 2]);
    assert_eq!(Item::undecided_ids(&Vec::new()), Vec::<i32>::new());
}

#[test]
fn copy_of_an_item_has_its_fields() {
    let original = item(5, Some(day(2021, 10, 5)));
    let copy = original.duplicate();
    assert_eq!(copy.id, 5);
    assert_eq!(copy.title, original.title);
    assert_eq!(copy.html, original.html);
    assert_eq!(copy.markdown, original.markdown);
    assert_eq!(copy.discussed_on, original.discussed_on);
}

#[test]
fn item_is_formatted_in_either_form() {
    assert_eq!(item(5, None).format(ItemFormat::HTML), "<p>text 5</p>");
    assert_eq!(item(5, None).format(ItemFormat::Markdown), "text 5");
}

#[test]
fn empty_date_text_takes_the_date_away() {
    let mut change = ChangeItemData {
        id: 1,
        title: "t".to_string(),
        html: "h".to_string(),
        markdown: "m".to_string(),
        discussed_on: String::new(),
    };
    assert_eq!(change.discussed(), None);
    change.discussed_on = "2021-10-05".to_string();
    assert_eq!(change.discussed(), Some(&"2021-10-05".to_string()));
}

#[test]
fn new_item_data_holds_what_was_submitted() {
    let data =
        NewItemData { title: "t".to_string(), html: "h".to_string(), markdown: "m".to_string() };
    assert_eq!(data.clone().title, "t");
    assert_eq!(data.html, "h");
    assert_eq!(data.markdown, "m");
}

#[test]
fn comment_is_appended_after_a_rule() {
    let comment = Some("Bring coffee".to_string());
    assert_eq!(format_comment(&comment, ItemFormat::HTML), "\n<hr><p>Bring coffee</p>");
    assert_eq!(format_comment(&comment, ItemFormat::Markdown), "\n\n-------\nBring coffee");
}

#[test]
fn no_comment_appends_nothing() {
    assert_eq!(format_comment(&None, ItemFormat::HTML), "");
    assert_eq!(format_comment(&None, ItemFormat::Markdown), "");
}

#[test]
fn written_line_breaks_in_a_comment_become_line_breaks() {
    let comment = Some("one\\ntwo\\n\\nthree".to_string());
    assert_eq!(format_comment(&comment, ItemFormat::Markdown), "\n\n-------\none\ntwo\n\nthree");
    let kept = Some("a\\b n\\".to_string());
    assert_eq!(format_comment(&kept, ItemFormat::HTML), "\n<hr><p>a\\b n\\</p>");
}

#[test]
fn subject_names_the_day_of_a_dated_item() {
    assert_eq!(subject(&item(2, Some(day(2021, 10, 5)))), "Next Paper for 2021-10-05: Paper 2");
    assert_eq!(subject(&item(2, None)), "Next Paper: Paper 2");
}

#[test]
fn subject_leaves_out_a_day_that_cannot_be_written() {
    assert_eq!(subject(&item(2, Some(Date { days: i32::MAX }))), "Next Paper: Paper 2");
}

#[test]
fn mail_has_both_bodies_with_the_comment() {
    let mail = compose(&item(2, None), None, &Some("See\\nyou".to_string()));
    assert_eq!(mail.subject, "Next Paper: Paper 2");
    assert_eq!(mail.markdown, "text 2\n\n-------\nSee\nyou");
    assert_eq!(mail.html, "<p>text 2</p>\n<hr><p>See\nyou</p>");
}

#[test]
fn mail_takes_a_given_subject() {
    let mail = compose(&item(2, None), Some("Hello".to_string()), &None);
    assert_eq!(mail.subject, "Hello");
    assert_eq!(mail.markdown, "text 2");
    assert_eq!(mail.html, "<p>text 2</p>");
}

#[test]
fn context_of_a_visitor_has_no_name() {
    let context = Context::new(flash());
    assert_eq!(context.flash, flash());
    assert_eq!(context.username, None);
    assert_eq!(UserContext::new(None).context.username, None);
}

#[test]
fn context_of_a_member_has_the_name() {
    let context = Context::for_user(&member(), None);
    assert_eq!(context.flash, None);
    assert_eq!(context.username, Some("ada".to_string()));
    let page = UserContext::for_user(&member(), flash());
    assert_eq!(page.context.username, Some("ada".to_string()));
    assert_eq!(page.context.flash, flash());
}

#[test]
fn voting_page_of_a_visitor_shows_the_winner_alone() {
    let pool = vec![item(1, None), item(2, None), item(3, None)];
    let loaded = Ok(Snapshot {
        votes: rows(&[(1, &[1, 2, 3]), (2, &[1, 2, 3]), (3, &[2, 1, 3])]),
        undecided: Item::undecided_ids(&pool),
    });
    let page = VoteContext::new(None, &loaded, &pool, flash());
    assert_eq!(page.winner.map(|i| i.id), Some(1));
    assert!(page.second.is_none());
    assert!(page.next.is_none());
    assert!(page.items.is_empty());
    assert_eq!(page.context.username, None);
}

#[test]
fn voting_page_of_a_member_shows_winner_and_second() {
    let pool = vec![item(1, None), item(2, None), item(3, None)];
    let loaded = Ok(Snapshot {
        votes: rows(&[(1, &[1, 2, 3]), (2, &[1, 2, 3]), (3, &[2, 1, 3])]),
        undecided: Item::undecided_ids(&pool),
    });
    let ranked = vec![(item(1, None), Some(0)), (item(2, None), None)];
    let page = VoteContext::for_user(
        &member(),
        Some(item(9, Some(day(2021, 10, 5)))),
        &loaded,
        &pool,
        ranked,
        None,
    );
    assert_eq!(page.winner.map(|i| i.id), Some(1));
    assert_eq!(page.second.map(|i| i.id), Some(2));
    assert_eq!(page.next.map(|i| i.id), Some(9));
    assert_eq!(page.items.len(), 2);
    assert_eq!(page.items[0].1, Some(0));
    assert_eq!(page.context.username, Some("ada".to_string()));
}

#[test]
fn voting_page_shows_the_lowest_id_of_a_tie() {
    let pool = vec![item(1, None), item(2, None), item(3, None)];
    let loaded = Ok(Snapshot {
        votes: rows(&[(1, &[3, 2]), (2, &[2, 3])]),
        undecided: Item::undecided_ids(&pool),
    });
    let page = VoteContext::for_user(&member(), None, &loaded, &pool, Vec::new(), None);
    assert_eq!(page.winner.map(|i| i.id), Some(2));
    assert_eq!(page.second.map(|i| i.id), Some(3));
}

#[test]
fn voting_page_shows_nothing_when_the_store_is_unread() {
    let pool = vec![item(1, None)];
    let loaded: Result<Snapshot, StoreError> = Err(StoreError::Unavailable);
    let page = VoteContext::for_user(&member(), None, &loaded, &pool, Vec::new(), None);
    assert!(page.winner.is_none());
    assert!(page.second.is_none());
}

#[test]
fn voting_page_shows_no_second_without_a_winner() {
    let pool = vec![item(1, None)];
    let loaded = Ok(Snapshot { votes: Vec::new(), undecided: vec![1] });
    let page = VoteContext::for_user(&member(), None, &loaded, &pool, Vec::new(), None);
    assert!(page.winner.is_none());
    assert!(page.second.is_none());
}

#[test]
fn item_pages_list_the_items_given() {
    let history = vec![item(1, Some(day(2021, 10, 5)))];
    let page = ItemContext::for_user_history(&member(), history.clone(), None);
    assert_eq!(page.items.len(), 1);
    assert_eq!(page.context.username, Some("ada".to_string()));
    let page = ItemContext::for_user_full(&member(), vec![item(1, None), item(2, None)], flash());
    assert_eq!(page.items.len(), 2);
    assert_eq!(page.context.flash, flash());
    let page = HistoryContext::for_user(&member(), history, None);
    assert_eq!(page.items[0].id, 1);
}

#[test]
fn edit_page_shows_the_item_with_the_id() {
    let pool = vec![item(1, None), item(2, None)];
    assert_eq!(EditContext::for_user(2, &member(), &pool, None).item.map(|i| i.id), Some(2));
    assert!(EditContext::for_user(5, &member(), &pool, None).item.is_none());
}

#[test]
fn mail_page_shows_item_and_configuration() {
    let config = MailConfig {
        email_from: "from@example.org".to_string(),
        email_to: "to@example.org".to_string(),
        email_comment: Some("hi".to_string()),
        email_username: "mailer".to_string(),
        email_server: "smtp.example.org".to_string(),
    };
    let pool = vec![item(1, None), item(2, None)];
    let page = MailContext::new(1, &member(), &config, &pool, None);
    assert_eq!(page.item.map(|i| i.id), Some(1));
    assert_eq!(page.config.email_from, "from@example.org");
    assert_eq!(page.config.email_to, "to@example.org");
    assert_eq!(page.config.email_comment, Some("hi".to_string()));
    assert_eq!(page.config.email_username, "mailer");
    assert_eq!(page.config.email_server, "smtp.example.org");
    assert_eq!(config.duplicate().email_server, "smtp.example.org");
}

#[test]
fn listing_without_ids_asks_for_all_items() {
    let pool = vec![item(3, None), item(1, Some(day(2021, 10, 5))), item(2, None)];
    let ids = |found: Vec<Item>| found.iter().map(|i| i.id).collect::<Vec<i32>>();
    assert_eq!(ids(Item::from_ids(&pool, &Vec::new(), false, false)), vec![3, 1, 2]);
    assert_eq!(ids(Item::from_ids(&pool, &Vec::new(), true, false)), vec![1]);
    assert_eq!(ids(Item::from_ids(&pool, &Vec::new(), false, true)), vec![3, 2]);
}

#[test]
fn listing_with_ids_asks_for_those_items() {
    let pool = vec![item(3, None), item(1, Some(day(2021, 10, 5))), item(2, None)];
    let ids = |found: Vec<Item>| found.iter().map(|i| i.id).collect::<Vec<i32>>();
    assert_eq!(ids(Item::from_ids(&pool, &vec![2, 1, 9], false, false)), vec![1, 2]);
    assert_eq!(ids(Item::from_ids(&pool, &vec![2, 1], true, false)), vec![1]);
    assert_eq!(ids(Item::from_ids(&pool, &vec![2, 1], false, true)), vec![2]);
    assert_eq!(ids(Item::from_ids(&pool, &vec![9], false, false)), Vec::<i32>::new());
}

#[test]
fn listing_of_discussed_items_comes_before_undiscussed() {
    // asked for both, only the discussed ones are listed
    let pool = vec![item(3, None), item(1, Some(day(2021, 10, 5)))];
    let found = Item::from_ids(&pool, &Vec::new(), true, true);
    assert_eq!(found.iter().map(|i| i.id).collect::<Vec<i32>>(), vec![1]);
}

#[test]
fn item_dated_on_the_last_day_is_decided_whatever_the_clock_says() {
    let found = Item::get_decided(Some(item(6, Some(Date { days: i32::MAX }))));
    assert_eq!(found.map(|i| i.id), Some(6));
}
