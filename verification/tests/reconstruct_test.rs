use quotefault::directory::{find_user, index_names, index_texts, lookup_name, referenced_uids};
use quotefault::listing::single_from_rows;
use quotefault::model::{QuoteShard, UserResponse, Vote};
use quotefault::reconstruct::shards_to_quotes;
use quotefault::response::Rejection;

fn row(id: i32, index: i16, submitter: &str, speaker: &str, body: &str) -> QuoteShard {
    QuoteShard {
        id,
        index,
        body: body.to_string(),
        submitter: submitter.to_string(),
        speaker: speaker.to_string(),
        timestamp: 1000 + id as i64,
        vote: None,
        score: 0,
        hidden_reason: None,
        hidden_actor: None,
        favorited: false,
    }
}

fn people(list: &[&str]) -> Vec<UserResponse> {
    list.iter()
        .map(|uid| UserResponse { uid: uid.to_string(), cn: uid.to_uppercase() })
        .collect()
}

#[test]
fn rows_are_grouped_into_quotes() {
    let rows = vec![
        row(3, 1, "alice", "bob", "a"),
        row(3, 2, "alice", "carol", "b"),
        row(3, 3, "alice", "bob", "c"),
        row(2, 1, "bob", "carol", "d"),
    ];
    let quotes = shards_to_quotes(&rows, &people(&["alice", "bob", "carol"]));
    assert_eq!(quotes.len(), 2);
    assert_eq!(quotes[0].id, 3);
    assert_eq!(quotes[0].timestamp, 1003);
    assert_eq!(quotes[0].submitter.cn, "ALICE");
    let bodies: Vec<&str> = quotes[0].shards.iter().map(|s| s.body.as_str()).collect();
    assert_eq!(bodies, vec!["a", "b", "c"]);
    assert_eq!(quotes[0].shards[1].speaker.cn, "CAROL");
    assert_eq!(quotes[1].id, 2);
    assert_eq!(quotes[1].shards.len(), 1);
}

#[test]
fn no_rows_give_no_quotes() {
    assert!(shards_to_quotes(&Vec::new(), &people(&["alice"])).is_empty());
    assert_eq!(single_from_rows(&Vec::new(), &people(&["alice"])), Err(Rejection::QuoteNotFound));
}

#[test]
fn quote_level_fields_come_from_the_opening_row() {
    let mut first = row(5, 1, "alice", "bob", "a");
    first.score = -3;
    first.vote = Some(Vote::Downvote);
    first.favorited = true;
    first.hidden_reason = Some("not for everyone".to_string());
    first.hidden_actor = Some("mod".to_string());
    let second = row(5, 2, "alice", "carol", "b");
    let quotes = shards_to_quotes(&vec![first, second], &people(&["alice", "bob", "carol", "mod"]));
    assert_eq!(quotes.len(), 1);
    assert_eq!(quotes[0].score, -3);
    assert_eq!(quotes[0].vote, Some(Vote::Downvote));
    assert!(quotes[0].favorited);
    let hidden = quotes[0].hidden.as_ref().unwrap();
    assert_eq!(hidden.reason, "not for everyone");
    assert_eq!(hidden.actor.uid, "mod");
    assert_eq!(hidden.actor.cn, "MOD");
}

#[test]
fn hidden_marker_needs_a_known_actor_and_a_reason() {
    let mut unknown_actor = row(5, 1, "alice", "bob", "a");
    unknown_actor.hidden_reason = Some("not for everyone".to_string());
    unknown_actor.hidden_actor = Some("gone".to_string());
    let mut no_reason = row(4, 1, "alice", "bob", "a");
    no_reason.hidden_actor = Some("alice".to_string());
    let quotes = shards_to_quotes(&vec![unknown_actor, no_reason], &people(&["alice", "bob"]));
    assert_eq!(quotes.len(), 2);
    assert_eq!(quotes[0].hidden, None);
    assert_eq!(quotes[1].hidden, None);
}

#[test]
fn unknown_later_speaker_drops_the_shard_only() {
    let rows = vec![
        row(3, 1, "alice", "bob", "a"),
        row(3, 2, "alice", "gone", "b"),
        row(3, 3, "alice", "carol", "c"),
    ];
    let quotes = shards_to_quotes(&rows, &people(&["alice", "bob", "carol"]));
    assert_eq!(quotes.len(), 1);
    let bodies: Vec<&str> = quotes[0].shards.iter().map(|s| s.body.as_str()).collect();
    assert_eq!(bodies, vec!["a", "c"]);
}

#[test]
fn unknown_opening_speaker_drops_the_quote() {
    let rows = vec![
        row(3, 1, "alice", "bob", "a"),
        row(2, 1, "alice", "gone", "b"),
        row(2, 2, "alice", "carol", "c"),
        row(1, 1, "bob", "carol", "d"),
    ];
    let quotes = shards_to_quotes(&rows, &people(&["alice", "bob", "carol"]));
    let shape: Vec<(i32, usize)> = quotes.iter().map(|q| (q.id, q.shards.len())).collect();
    assert_eq!(shape, vec![(3, 1), (1, 1)]);
}

#[test]
fn unknown_submitter_drops_the_quote() {
    let rows = vec![row(2, 1, "gone", "bob", "a"), row(2, 2, "gone", "carol", "b")];
    assert!(shards_to_quotes(&rows, &people(&["bob", "carol"])).is_empty());
    assert_eq!(single_from_rows(&rows, &people(&["bob", "carol"])), Err(Rejection::QuoteNotFound));
}

#[test]
fn later_row_without_an_opened_quote_is_dropped() {
    let rows = vec![row(2, 2, "alice", "bob", "a")];
    assert!(shards_to_quotes(&rows, &people(&["alice", "bob"])).is_empty());
}

#[test]
fn single_from_rows_returns_the_first_quote() {
    let rows = vec![row(3, 1, "alice", "bob", "a"), row(3, 2, "alice", "carol", "b")];
    let quote = single_from_rows(&rows, &people(&["alice", "bob", "carol"])).unwrap();
    assert_eq!(quote.id, 3);
    assert_eq!(quote.shards.len(), 2);
}

#[test]
fn last_directory_entry_for_a_uid_wins() {
    let names = vec![
        UserResponse { uid: "bob".to_string(), cn: "Old Bob".to_string() },
        UserResponse { uid: "alice".to_string(), cn: "Alice".to_string() },
        UserResponse { uid: "bob".to_string(), cn: "New Bob".to_string() },
    ];
    assert_eq!(lookup_name(&names, &"bob".to_string()), Some("New Bob".to_string()));
    assert_eq!(lookup_name(&names, &"carol".to_string()), None);
}

#[test]
fn referenced_uids_are_listed_once() {
    let mut hidden = row(3, 1, "alice", "bob", "a");
    hidden.hidden_actor = Some("mod".to_string());
    hidden.hidden_reason = Some("not for everyone".to_string());
    let rows = vec![hidden, row(3, 2, "alice", "carol", "b"), row(2, 1, "bob", "alice", "c")];
    let mut uids = referenced_uids(&rows);
    assert_eq!(uids.len(), 4);
    uids.sort();
    assert_eq!(uids, vec!["alice", "bob", "carol", "mod"]);
}

#[test]
fn indexed_answer_finds_members_by_uid() {
    let names = vec![
        UserResponse { uid: "bob".to_string(), cn: "Old Bob".to_string() },
        UserResponse { uid: "alice".to_string(), cn: "Alice".to_string() },
        UserResponse { uid: "bob".to_string(), cn: "New Bob".to_string() },
    ];
    let index = index_names(&names);
    assert_eq!(index.len(), 2);
    assert_eq!(
        find_user(&index, &"bob".to_string()),
        Some(UserResponse { uid: "bob".to_string(), cn: "New Bob".to_string() })
    );
    assert_eq!(
        find_user(&index, &"alice".to_string()),
        Some(UserResponse { uid: "alice".to_string(), cn: "Alice".to_string() })
    );
    assert_eq!(find_user(&index, &"carol".to_string()), None);
    assert_eq!(find_user(&index_names(&Vec::new()), &"bob".to_string()), None);
}

#[test]
fn indexed_identifiers_are_found() {
    let set = index_texts(&vec!["bob".to_string(), "carol".to_string(), "bob".to_string()]);
    assert_eq!(set.len(), 2);
    assert!(set.contains("bob"));
    assert!(set.contains("carol"));
    assert!(!set.contains("alice"));
    assert!(!set.contains("bo"));
}
