use quotefault::model::{NewQuote, NewQuoteShard, User};
use quotefault::response::Rejection;
use quotefault::store::Store;
use quotefault::submission::{
    check_members, check_shard_count, create_quote, delete_quote, members_to_confirm,
    speaker_pings,
};

fn user(name: &str) -> User {
    User { preferred_username: name.to_string(), admin: false }
}

fn names(list: &[&str]) -> Vec<String> {
    list.iter().map(|s| s.to_string()).collect()
}

fn quote(parts: &[(&str, &str)]) -> NewQuote {
    NewQuote {
        shards: parts
            .iter()
            .map(|(speaker, body)| NewQuoteShard {
                body: body.to_string(),
                speaker: speaker.to_string(),
            })
            .collect(),
    }
}

#[test]
fn submission_without_shards_is_rejected() {
    let mut store = Store::new();
    let outcome = create_quote(&mut store, &quote(&[]), &user("alice"), &names(&["bob"]), true, 1);
    assert_eq!(outcome, Err(Rejection::NoShards));
    assert!(store.quotes.is_empty());
    assert_eq!(store.next_quote_id, 1);
}

#[test]
fn submission_with_seven_shards_is_rejected() {
    let body = quote(&[("bob", "1"), ("bob", "2"), ("bob", "3"), ("bob", "4"), ("bob", "5"), ("bob", "6"), ("bob", "7")]);
    assert_eq!(check_shard_count(&body), Err(Rejection::TooManyShards));
    let mut store = Store::new();
    let outcome = create_quote(&mut store, &body, &user("alice"), &names(&["bob"]), true, 1);
    assert_eq!(outcome, Err(Rejection::TooManyShards));
    assert!(store.quotes.is_empty());
}

#[test]
fn submission_with_six_shards_is_accepted() {
    let body = quote(&[("bob", "1"), ("bob", "2"), ("bob", "3"), ("bob", "4"), ("bob", "5"), ("bob", "6")]);
    assert_eq!(check_shard_count(&body), Ok(()));
    let mut store = Store::new();
    let outcome = create_quote(&mut store, &body, &user("alice"), &names(&["bob"]), true, 1);
    assert_eq!(outcome, Ok(1));
    assert_eq!(store.quotes[0].shards.len(), 6);
    assert_eq!(store.quotes[0].shards[5].body, "6");
}

#[test]
fn unquotable_speaker_is_rejected() {
    let body = quote(&[("bob", "hi"), ("zed", "yo")]);
    assert_eq!(
        check_members(&body, &user("alice"), &names(&["bob", "carol"])),
        Err(Rejection::UnquotableSpeaker)
    );
}

#[test]
fn malformed_speaker_is_rejected() {
    let body = quote(&[("Bob Smith", "hi")]);
    assert_eq!(
        check_members(&body, &user("alice"), &names(&["Bob Smith"])),
        Err(Rejection::InvalidSpeaker)
    );
}

#[test]
fn self_quote_is_rejected() {
    let body = quote(&[("bob", "hi"), ("alice", "me too")]);
    let quotable = names(&["alice", "bob"]);
    assert_eq!(check_members(&body, &user("alice"), &quotable), Err(Rejection::SelfQuote));
    let mut store = Store::new();
    assert_eq!(
        create_quote(&mut store, &body, &user("alice"), &quotable, true, 1),
        Err(Rejection::SelfQuote)
    );
    assert!(store.quotes.is_empty());
}

#[test]
fn malformed_submitter_is_rejected() {
    let body = quote(&[("bob", "hi")]);
    assert_eq!(
        check_members(&body, &user("Alice!"), &names(&["bob"])),
        Err(Rejection::InvalidSubmitter)
    );
}

#[test]
fn first_fault_in_shard_order_is_reported() {
    let quotable = names(&["alice", "bob"]);
    let body = quote(&[("alice", "me"), ("zed", "yo")]);
    assert_eq!(check_members(&body, &user("alice"), &quotable), Err(Rejection::SelfQuote));
    let body = quote(&[("zed", "yo"), ("alice", "me")]);
    assert_eq!(check_members(&body, &user("alice"), &quotable), Err(Rejection::UnquotableSpeaker));
}

#[test]
fn unknown_users_are_rejected() {
    let mut store = Store::new();
    let body = quote(&[("bob", "hi")]);
    assert_eq!(
        create_quote(&mut store, &body, &user("alice"), &names(&["bob"]), false, 1),
        Err(Rejection::UnknownUsers)
    );
    assert!(store.quotes.is_empty());
}

#[test]
fn ids_grow_with_each_submission() {
    let mut store = Store::new();
    let body = quote(&[("bob", "hi")]);
    let quotable = names(&["bob"]);
    assert_eq!(create_quote(&mut store, &body, &user("alice"), &quotable, true, 1), Ok(1));
    assert_eq!(create_quote(&mut store, &body, &user("carol"), &quotable, true, 2), Ok(2));
    assert_eq!(delete_quote(&mut store, 2, &user("carol")), Ok(()));
    assert_eq!(create_quote(&mut store, &body, &user("carol"), &quotable, true, 3), Ok(3));
    assert_eq!(store.quotes.len(), 2);
    assert_eq!(store.quotes[1].id, 3);
}

#[test]
fn store_without_free_ids_rejects_submissions() {
    let mut store = Store::new();
    store.next_quote_id = i32::MAX;
    let body = quote(&[("bob", "hi")]);
    assert_eq!(
        create_quote(&mut store, &body, &user("alice"), &names(&["bob"]), true, 1),
        Err(Rejection::StoreExhausted)
    );
    assert!(store.quotes.is_empty());
}

#[test]
fn members_to_confirm_are_speakers_then_submitter() {
    let body = quote(&[("bob", "hi"), ("carol", "bye"), ("bob", "again")]);
    assert_eq!(
        members_to_confirm(&body, &user("alice")),
        names(&["bob", "carol", "bob", "alice"])
    );
}

#[test]
fn each_speaker_is_pinged_with_the_submitter_named() {
    let body = quote(&[("bob", "hi"), ("carol", "bye")]);
    let pings = speaker_pings(&body, &user("alice"));
    assert_eq!(pings.len(), 2);
    assert_eq!(pings[0].recipient, "bob");
    assert_eq!(pings[0].message, "You were quoted by alice. Check it out at Quotefault!");
    assert_eq!(pings[1].recipient, "carol");
    assert_eq!(pings[1].message, "You were quoted by alice. Check it out at Quotefault!");
}

#[test]
fn only_the_submitter_can_delete() {
    let mut store = Store::new();
    let body = quote(&[("bob", "hi")]);
    create_quote(&mut store, &body, &user("alice"), &names(&["bob"]), true, 1).unwrap();
    assert_eq!(delete_quote(&mut store, 1, &user("bob")), Err(Rejection::NotYourQuote));
    assert_eq!(delete_quote(&mut store, 2, &user("alice")), Err(Rejection::NotYourQuote));
    assert_eq!(store.quotes.len(), 1);
    assert_eq!(delete_quote(&mut store, 1, &user("alice")), Ok(()));
    assert!(store.quotes.is_empty());
    assert_eq!(delete_quote(&mut store, 1, &user("alice")), Err(Rejection::NotYourQuote));
}
