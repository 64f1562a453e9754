use quotefault::listing::{get_quote, get_quotes};
use quotefault::model::{FetchParams, NewQuote, NewQuoteShard, User, UserResponse, Vote};
use quotefault::moderation::{hide_quote, report_quote, resolve_report};
use quotefault::open_reports::get_reports;
use quotefault::response::Rejection;
use quotefault::store::Store;
use quotefault::submission::create_quote;
use quotefault::voting::vote_quote;

fn member(name: &str) -> User {
    User { preferred_username: name.to_string(), admin: false }
}

fn admin(name: &str) -> User {
    User { preferred_username: name.to_string(), admin: true }
}

fn directory() -> Vec<UserResponse> {
    ["alice", "bob", "carol", "dave", "erin", "mod"]
        .iter()
        .map(|uid| UserResponse { uid: uid.to_string(), cn: format!("{} (cn)", uid) })
        .collect()
}

fn quotable() -> Vec<String> {
    directory().into_iter().map(|u| u.uid).collect()
}

fn shard(speaker: &str, body: &str) -> NewQuoteShard {
    NewQuoteShard { body: body.to_string(), speaker: speaker.to_string() }
}

fn no_filter() -> FetchParams {
    FetchParams {
        q: None,
        lt: None,
        limit: None,
        submitter: None,
        speaker: None,
        involved: None,
        hidden: None,
        favorited: None,
    }
}

fn store_with_quotes(count: i32) -> Store {
    let mut store = Store::new();
    for n in 0..count {
        let body = NewQuote { shards: vec![shard("bob", "filler")] };
        let id = create_quote(&mut store, &body, &member("alice"), &quotable(), true, 1000 + n as i64);
        assert_eq!(id, Ok(n + 1));
    }
    store
}

#[test]
fn created_quote_is_stored_and_rebuilt_in_order() {
    let mut store = Store::new();
    let body = NewQuote { shards: vec![shard("bob", "hi"), shard("carol", "bye")] };
    let id = create_quote(&mut store, &body, &member("alice"), &quotable(), true, 42).unwrap();
    assert_eq!(id, 1);
    assert_eq!(store.quotes.len(), 1);
    assert_eq!(store.quotes[0].shards[0].speaker, "bob");
    assert_eq!(store.quotes[0].shards[1].speaker, "carol");

    let rows = quotefault::listing::fetch_quote_rows(&store, id, &member("alice"), true);
    assert_eq!(rows.len(), 2);
    assert_eq!(rows[0].index, 1);
    assert_eq!(rows[0].speaker, "bob");
    assert_eq!(rows[0].body, "hi");
    assert_eq!(rows[1].index, 2);
    assert_eq!(rows[1].speaker, "carol");
    assert_eq!(rows[1].body, "bye");

    let quote = get_quote(&store, id, &member("alice"), true, &directory()).unwrap();
    assert_eq!(quote.id, 1);
    assert_eq!(quote.timestamp, 42);
    assert_eq!(quote.shards.len(), 2);
    assert_eq!(quote.shards[0].body, "hi");
    assert_eq!(quote.shards[0].speaker.uid, "bob");
    assert_eq!(quote.shards[0].speaker.cn, "bob (cn)");
    assert_eq!(quote.shards[1].body, "bye");
    assert_eq!(quote.shards[1].speaker.uid, "carol");
    assert_eq!(quote.submitter.uid, "alice");
    assert_eq!(quote.score, 0);
    assert_eq!(quote.vote, None);
    assert!(!quote.favorited);
    assert_eq!(quote.hidden, None);
}

#[test]
fn revote_replaces_the_earlier_vote() {
    let mut store = store_with_quotes(5);
    let dave = member("dave");
    assert_eq!(vote_quote(&mut store, 5, Vote::Upvote, &dave, true), Ok(()));
    assert_eq!(vote_quote(&mut store, 5, Vote::Downvote, &dave, true), Ok(()));
    let quote = &store.quotes[4];
    assert_eq!(quote.id, 5);
    assert_eq!(quote.votes.len(), 1);
    assert_eq!(quote.votes[0].voter, "dave");
    assert_eq!(quote.votes[0].vote, Vote::Downvote);
    let seen = get_quote(&store, 5, &dave, true, &directory()).unwrap();
    assert_eq!(seen.score, -1);
    assert_eq!(seen.vote, Some(Vote::Downvote));
    let by_other = get_quote(&store, 5, &member("erin"), true, &directory()).unwrap();
    assert_eq!(by_other.score, -1);
    assert_eq!(by_other.vote, None);
}

#[test]
fn hidden_quote_is_shown_to_its_submitter_only() {
    let mut store = store_with_quotes(7);
    let outcome = hide_quote(
        &mut store,
        7,
        &admin("mod"),
        true,
        "Inappropriate content".to_string(),
        5000,
    );
    assert_eq!(outcome, Ok(()));

    let for_submitter = get_quotes(&store, &no_filter(), &member("alice"), true, &directory()).unwrap();
    assert_eq!(for_submitter.len(), 7);
    assert_eq!(for_submitter[0].id, 7);
    let hidden = for_submitter[0].hidden.as_ref().unwrap();
    assert_eq!(hidden.reason, "Inappropriate content");
    assert_eq!(hidden.actor.uid, "mod");

    let for_stranger = get_quotes(&store, &no_filter(), &member("erin"), true, &directory()).unwrap();
    assert_eq!(for_stranger.len(), 6);
    assert!(for_stranger.iter().all(|q| q.id != 7));
    assert_eq!(
        get_quote(&store, 7, &member("erin"), true, &directory()),
        Err(Rejection::QuoteNotFound)
    );
}

#[test]
fn second_report_conflicts_and_resolving_with_hide_hides_once() {
    let mut store = store_with_quotes(9);
    let erin = member("erin");
    assert_eq!(report_quote(&mut store, 9, "this is not funny".to_string(), &erin, 6000), Ok(()));
    assert_eq!(
        report_quote(&mut store, 9, "still not funny".to_string(), &erin, 6001),
        Err(Rejection::AlreadyReported)
    );
    assert_eq!(store.quotes[8].reports.len(), 1);
    assert_eq!(get_reports(&store).len(), 1);

    assert_eq!(resolve_report(&mut store, 9, &admin("mod"), true, true, 7000), Ok(()));
    let quote = &store.quotes[8];
    assert_eq!(quote.reports.len(), 1);
    assert_eq!(quote.reports[0].resolver, Some("mod".to_string()));
    let hidden = quote.hidden.as_ref().unwrap();
    assert_eq!(hidden.reason, "this is not funny");
    assert_eq!(hidden.actor, "mod");
    assert_eq!(hidden.timestamp, 7000);
    assert!(get_reports(&store).is_empty());
    assert_eq!(
        resolve_report(&mut store, 9, &admin("mod"), true, true, 7001),
        Err(Rejection::NoOpenReport)
    );
}
