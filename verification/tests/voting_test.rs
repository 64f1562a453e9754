use quotefault::listing::get_quote;
use quotefault::model::{NewQuote, NewQuoteShard, User, UserResponse, Vote};
use quotefault::moderation::hide_quote;
use quotefault::response::Rejection;
use quotefault::store::Store;
use quotefault::submission::{create_quote, delete_quote};
use quotefault::voting::{favorite_quote, unfavorite_quote, unvote_quote, vote_quote};

fn user(name: &str) -> User {
    User { preferred_username: name.to_string(), admin: false }
}

fn people() -> Vec<UserResponse> {
    ["alice", "bob", "carol", "dave", "erin"]
        .iter()
        .map(|uid| UserResponse { uid: uid.to_string(), cn: uid.to_uppercase() })
        .collect()
}

fn one_quote() -> Store {
    let mut store = Store::new();
    let body = NewQuote {
        shards: vec![NewQuoteShard { body: "hi".to_string(), speaker: "bob".to_string() }],
    };
    let quotable: Vec<String> = vec!["bob".to_string()];
    create_quote(&mut store, &body, &user("alice"), &quotable, true, 10).unwrap();
    store
}

fn score_of(store: &Store, id: i32) -> i64 {
    let admin = User { preferred_username: "root".to_string(), admin: true };
    get_quote(store, id, &admin, true, &people()).unwrap().score
}

#[test]
fn unvoted_quote_scores_zero() {
    let store = one_quote();
    assert_eq!(score_of(&store, 1), 0);
    assert_eq!(store.quotes[0].tally(), 0);
}

#[test]
fn score_is_upvotes_less_downvotes() {
    let mut store = one_quote();
    vote_quote(&mut store, 1, Vote::Upvote, &user("carol"), true).unwrap();
    vote_quote(&mut store, 1, Vote::Upvote, &user("dave"), true).unwrap();
    vote_quote(&mut store, 1, Vote::Downvote, &user("erin"), true).unwrap();
    vote_quote(&mut store, 1, Vote::Upvote, &user("bob"), true).unwrap();
    assert_eq!(score_of(&store, 1), 2);
    assert_eq!(store.quotes[0].votes.len(), 4);
}

#[test]
fn same_vote_twice_changes_nothing() {
    let mut store = one_quote();
    vote_quote(&mut store, 1, Vote::Upvote, &user("carol"), true).unwrap();
    vote_quote(&mut store, 1, Vote::Upvote, &user("carol"), true).unwrap();
    assert_eq!(store.quotes[0].votes.len(), 1);
    assert_eq!(store.quotes[0].votes[0].vote, Vote::Upvote);
    assert_eq!(score_of(&store, 1), 1);
}

#[test]
fn vote_keeps_its_place_when_replaced() {
    let mut store = one_quote();
    vote_quote(&mut store, 1, Vote::Upvote, &user("carol"), true).unwrap();
    vote_quote(&mut store, 1, Vote::Upvote, &user("dave"), true).unwrap();
    vote_quote(&mut store, 1, Vote::Downvote, &user("carol"), true).unwrap();
    assert_eq!(store.quotes[0].votes.len(), 2);
    assert_eq!(store.quotes[0].votes[0].voter, "carol");
    assert_eq!(store.quotes[0].votes[0].vote, Vote::Downvote);
    assert_eq!(store.quotes[0].votes[1].voter, "dave");
    assert_eq!(store.quotes[0].vote_by(&"carol".to_string()), Some(Vote::Downvote));
    assert_eq!(store.quotes[0].vote_by(&"erin".to_string()), None);
    assert_eq!(score_of(&store, 1), 0);
}

#[test]
fn unvote_removes_the_contribution() {
    let mut store = one_quote();
    vote_quote(&mut store, 1, Vote::Downvote, &user("carol"), true).unwrap();
    vote_quote(&mut store, 1, Vote::Upvote, &user("dave"), true).unwrap();
    assert_eq!(score_of(&store, 1), 0);
    assert_eq!(unvote_quote(&mut store, 1, &user("carol"), true), Ok(()));
    assert_eq!(score_of(&store, 1), 1);
    assert_eq!(store.quotes[0].votes.len(), 1);
    assert_eq!(unvote_quote(&mut store, 1, &user("carol"), true), Err(Rejection::QuoteDoesNotExist));
}

#[test]
fn vote_on_missing_quote_is_rejected() {
    let mut store = one_quote();
    assert_eq!(
        vote_quote(&mut store, 2, Vote::Upvote, &user("carol"), true),
        Err(Rejection::QuoteDoesNotExist)
    );
    assert_eq!(unvote_quote(&mut store, 2, &user("carol"), true), Err(Rejection::QuoteDoesNotExist));
}

#[test]
fn hidden_quote_takes_votes_from_parties_and_privileged_only() {
    let mut store = one_quote();
    let moderator = User { preferred_username: "mod".to_string(), admin: true };
    hide_quote(&mut store, 1, &moderator, true, "not for everyone".to_string(), 20).unwrap();
    assert_eq!(
        vote_quote(&mut store, 1, Vote::Upvote, &user("carol"), true),
        Err(Rejection::QuoteDoesNotExist)
    );
    assert_eq!(vote_quote(&mut store, 1, Vote::Upvote, &user("alice"), true), Ok(()));
    assert_eq!(vote_quote(&mut store, 1, Vote::Upvote, &user("bob"), true), Ok(()));
    assert_eq!(vote_quote(&mut store, 1, Vote::Downvote, &moderator, true), Ok(()));
    assert_eq!(vote_quote(&mut store, 1, Vote::Upvote, &user("carol"), false), Ok(()));
    assert_eq!(store.quotes[0].votes.len(), 4);
}

#[test]
fn favorite_is_kept_once() {
    let mut store = one_quote();
    assert_eq!(favorite_quote(&mut store, &user("carol"), 1), Ok(()));
    assert_eq!(favorite_quote(&mut store, &user("carol"), 1), Err(Rejection::AlreadyFavorited));
    assert_eq!(favorite_quote(&mut store, &user("dave"), 1), Ok(()));
    assert_eq!(store.quotes[0].favorites, vec!["carol".to_string(), "dave".to_string()]);
    let seen = get_quote(&store, 1, &user("carol"), true, &people()).unwrap();
    assert!(seen.favorited);
    let other = get_quote(&store, 1, &user("erin"), true, &people()).unwrap();
    assert!(!other.favorited);
}

#[test]
fn favorite_of_missing_quote_is_rejected() {
    let mut store = one_quote();
    assert_eq!(favorite_quote(&mut store, &user("carol"), 5), Err(Rejection::AlreadyFavorited));
    assert_eq!(unfavorite_quote(&mut store, &user("carol"), 5), Err(Rejection::NotFavorited));
}

#[test]
fn favorite_does_not_ask_for_visibility() {
    let mut store = one_quote();
    let moderator = User { preferred_username: "mod".to_string(), admin: true };
    hide_quote(&mut store, 1, &moderator, true, "not for everyone".to_string(), 20).unwrap();
    assert_eq!(favorite_quote(&mut store, &user("erin"), 1), Ok(()));
}

#[test]
fn unfavorite_removes_only_the_callers_favorite() {
    let mut store = one_quote();
    favorite_quote(&mut store, &user("carol"), 1).unwrap();
    favorite_quote(&mut store, &user("dave"), 1).unwrap();
    assert_eq!(unfavorite_quote(&mut store, &user("erin"), 1), Err(Rejection::NotFavorited));
    assert_eq!(unfavorite_quote(&mut store, &user("carol"), 1), Ok(()));
    assert_eq!(store.quotes[0].favorites, vec!["dave".to_string()]);
    assert_eq!(unfavorite_quote(&mut store, &user("carol"), 1), Err(Rejection::NotFavorited));
}

#[test]
fn deleting_a_quote_takes_its_votes_and_favorites_along() {
    let mut store = one_quote();
    vote_quote(&mut store, 1, Vote::Upvote, &user("carol"), true).unwrap();
    favorite_quote(&mut store, &user("carol"), 1).unwrap();
    delete_quote(&mut store, 1, &user("alice")).unwrap();
    assert!(store.quotes.is_empty());
    assert_eq!(unvote_quote(&mut store, 1, &user("carol"), true), Err(Rejection::QuoteDoesNotExist));
    assert_eq!(unfavorite_quote(&mut store, &user("carol"), 1), Err(Rejection::NotFavorited));
}
