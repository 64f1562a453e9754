use quotefault::listing::{effective_limit, fetch_listing_rows, get_quote, get_quotes};
use quotefault::model::{FetchParams, NewQuote, NewQuoteShard, User, UserResponse};
use quotefault::moderation::hide_quote;
use quotefault::response::Rejection;
use quotefault::store::Store;
use quotefault::submission::create_quote;
use quotefault::voting::favorite_quote;

fn user(name: &str) -> User {
    User { preferred_username: name.to_string(), admin: false }
}

fn moderator() -> User {
    User { preferred_username: "mod".to_string(), admin: true }
}

fn people() -> Vec<UserResponse> {
    ["alice", "bob", "carol", "dave", "erin", "mod"]
        .iter()
        .map(|uid| UserResponse { uid: uid.to_string(), cn: uid.to_uppercase() })
        .collect()
}

fn params() -> FetchParams {
    FetchParams {
        q: None,
        lt: None,
        limit: None,
        submitter: None,
        speaker: None,
        involved: None,
        hidden: None,
        favorited: None,
    }
}

fn add(store: &mut Store, submitter: &str, parts: &[(&str, &str)]) -> i32 {
    let quotable: Vec<String> = people().into_iter().map(|u| u.uid).collect();
    let body = NewQuote {
        shards: parts
            .iter()
            .map(|(speaker, body)| NewQuoteShard {
                body: body.to_string(),
                speaker: speaker.to_string(),
            })
            .collect(),
    };
    let now = 100 + store.quotes.len() as i64;
    create_quote(store, &body, &user(submitter), &quotable, true, now).unwrap()
}

fn sample() -> Store {
    let mut store = Store::new();
    add(&mut store, "alice", &[("bob", "The Quick brown fox"), ("carol", "jumps over")]);
    add(&mut store, "bob", &[("carol", "lazy dog")]);
    add(&mut store, "carol", &[("dave", "quick thinking")]);
    add(&mut store, "dave", &[("alice", "nothing to see")]);
    store
}

fn ids(store: &Store, params: &FetchParams, who: &User) -> Vec<i32> {
    get_quotes(store, params, who, true, &people())
        .unwrap()
        .iter()
        .map(|q| q.id)
        .collect()
}

#[test]
fn listing_is_newest_first() {
    let store = sample();
    assert_eq!(ids(&store, &params(), &user("erin")), vec![4, 3, 2, 1]);
}

#[test]
fn default_limit_is_ten() {
    let mut store = Store::new();
    for _ in 0..12 {
        add(&mut store, "alice", &[("bob", "again")]);
    }
    assert_eq!(effective_limit(None), Ok(10));
    assert_eq!(ids(&store, &params(), &user("erin")), vec![12, 11, 10, 9, 8, 7, 6, 5, 4, 3]);
}

#[test]
fn limit_minus_one_lifts_the_limit() {
    let mut store = Store::new();
    for _ in 0..12 {
        add(&mut store, "alice", &[("bob", "again")]);
    }
    let all = FetchParams { limit: Some(-1), ..params() };
    assert_eq!(effective_limit(Some(-1)), Ok(i64::MAX));
    assert_eq!(ids(&store, &all, &user("erin")).len(), 12);
}

#[test]
fn limit_cuts_the_listing() {
    let store = sample();
    assert_eq!(ids(&store, &FetchParams { limit: Some(2), ..params() }, &user("erin")), vec![4, 3]);
    assert_eq!(ids(&store, &FetchParams { limit: Some(0), ..params() }, &user("erin")), Vec::<i32>::new());
}

#[test]
fn limit_below_minus_one_is_rejected() {
    let store = sample();
    let bad = FetchParams { limit: Some(-2), ..params() };
    assert_eq!(effective_limit(Some(-2)), Err(Rejection::InvalidLimit));
    assert_eq!(
        get_quotes(&store, &bad, &user("erin"), true, &people()),
        Err(Rejection::InvalidLimit)
    );
    assert_eq!(fetch_listing_rows(&store, &bad, &user("erin"), true), Err(Rejection::InvalidLimit));
}

#[test]
fn cursor_is_exclusive() {
    let store = sample();
    assert_eq!(ids(&store, &FetchParams { lt: Some(3), ..params() }, &user("erin")), vec![2, 1]);
    assert_eq!(ids(&store, &FetchParams { lt: Some(1), ..params() }, &user("erin")), Vec::<i32>::new());
    assert_eq!(ids(&store, &FetchParams { lt: Some(5), ..params() }, &user("erin")), vec![4, 3, 2, 1]);
    assert_eq!(ids(&store, &FetchParams { lt: Some(4), ..params() }, &user("erin")), vec![3, 2, 1]);
    assert_eq!(ids(&store, &FetchParams { lt: Some(0), ..params() }, &user("erin")), Vec::<i32>::new());
    assert_eq!(ids(&store, &FetchParams { lt: Some(-7), ..params() }, &user("erin")), Vec::<i32>::new());
    assert_eq!(ids(&store, &FetchParams { lt: None, ..params() }, &user("erin")), vec![4, 3, 2, 1]);
}

#[test]
fn text_filter_ignores_case() {
    let store = sample();
    let q = FetchParams { q: Some("QUICK".to_string()), ..params() };
    assert_eq!(ids(&store, &q, &user("erin")), vec![3, 1]);
    let q = FetchParams { q: Some("over".to_string()), ..params() };
    assert_eq!(ids(&store, &q, &user("erin")), vec![1]);
    let q = FetchParams { q: Some("%".to_string()), ..params() };
    assert_eq!(ids(&store, &q, &user("erin")), Vec::<i32>::new());
    let q = FetchParams { q: Some("".to_string()), ..params() };
    assert_eq!(ids(&store, &q, &user("erin")), vec![4, 3, 2, 1]);
}

#[test]
fn text_filter_ignores_case_of_any_script() {
    let mut store = Store::new();
    add(&mut store, "alice", &[("bob", "Un caf\u{e9}, s'il vous pla\u{ee}t")]);
    add(&mut store, "alice", &[("bob", "\u{c9}T\u{c9} comme hiver")]);
    add(&mut store, "alice", &[("bob", "plain ascii")]);
    let q = FetchParams { q: Some("\u{c9}".to_string()), ..params() };
    assert_eq!(ids(&store, &q, &user("erin")), vec![2, 1]);
    let q = FetchParams { q: Some("\u{e9}t\u{e9}".to_string()), ..params() };
    assert_eq!(ids(&store, &q, &user("erin")), vec![2]);
}

#[test]
fn speaker_and_text_must_meet_in_one_shard() {
    let store = sample();
    let both = FetchParams {
        q: Some("fox".to_string()),
        speaker: Some("carol".to_string()),
        ..params()
    };
    assert_eq!(ids(&store, &both, &user("erin")), Vec::<i32>::new());
    let both = FetchParams {
        q: Some("jumps".to_string()),
        speaker: Some("carol".to_string()),
        ..params()
    };
    assert_eq!(ids(&store, &both, &user("erin")), vec![1]);
}

#[test]
fn speaker_submitter_and_involved_filters_are_exact() {
    let store = sample();
    let by_speaker = FetchParams { speaker: Some("carol".to_string()), ..params() };
    assert_eq!(ids(&store, &by_speaker, &user("erin")), vec![2, 1]);
    let by_submitter = FetchParams { submitter: Some("carol".to_string()), ..params() };
    assert_eq!(ids(&store, &by_submitter, &user("erin")), vec![3]);
    let involved = FetchParams { involved: Some("carol".to_string()), ..params() };
    assert_eq!(ids(&store, &involved, &user("erin")), vec![3, 2, 1]);
    let partial = FetchParams { speaker: Some("car".to_string()), ..params() };
    assert_eq!(ids(&store, &partial, &user("erin")), Vec::<i32>::new());
}

#[test]
fn favorited_filter_is_the_viewers_own() {
    let mut store = sample();
    favorite_quote(&mut store, &user("erin"), 2).unwrap();
    favorite_quote(&mut store, &user("dave"), 3).unwrap();
    let mine = FetchParams { favorited: Some(true), ..params() };
    assert_eq!(ids(&store, &mine, &user("erin")), vec![2]);
    assert_eq!(ids(&store, &mine, &user("dave")), vec![3]);
    let off = FetchParams { favorited: Some(false), ..params() };
    assert_eq!(ids(&store, &off, &user("erin")), vec![4, 3, 2, 1]);
}

#[test]
fn hidden_quotes_are_shown_to_parties_and_privileged() {
    let mut store = sample();
    hide_quote(&mut store, 1, &moderator(), true, "not for everyone".to_string(), 500).unwrap();
    assert_eq!(ids(&store, &params(), &user("erin")), vec![4, 3, 2]);
    assert_eq!(ids(&store, &params(), &user("alice")), vec![4, 3, 2, 1]);
    assert_eq!(ids(&store, &params(), &user("bob")), vec![4, 3, 2, 1]);
    assert_eq!(ids(&store, &params(), &user("carol")), vec![4, 3, 2, 1]);
    assert_eq!(ids(&store, &params(), &moderator()), vec![4, 3, 2, 1]);
    let open = get_quotes(&store, &params(), &user("erin"), false, &people()).unwrap();
    assert_eq!(open.len(), 4);
}

#[test]
fn hidden_filter_shows_one_side_only() {
    let mut store = sample();
    hide_quote(&mut store, 1, &moderator(), true, "not for everyone".to_string(), 500).unwrap();
    hide_quote(&mut store, 4, &moderator(), true, "not for everyone".to_string(), 501).unwrap();
    let hidden = FetchParams { hidden: Some(true), ..params() };
    let shown = FetchParams { hidden: Some(false), ..params() };
    assert_eq!(ids(&store, &hidden, &moderator()), vec![4, 1]);
    assert_eq!(ids(&store, &hidden, &user("bob")), vec![1]);
    assert_eq!(ids(&store, &hidden, &user("alice")), vec![4, 1]);
    assert_eq!(ids(&store, &hidden, &user("erin")), Vec::<i32>::new());
    assert_eq!(ids(&store, &shown, &moderator()), vec![3, 2]);
    assert_eq!(ids(&store, &shown, &user("erin")), vec![3, 2]);
}

#[test]
fn single_get_follows_visibility() {
    let mut store = sample();
    hide_quote(&mut store, 1, &moderator(), true, "not for everyone".to_string(), 500).unwrap();
    assert_eq!(get_quote(&store, 1, &user("erin"), true, &people()), Err(Rejection::QuoteNotFound));
    assert_eq!(get_quote(&store, 9, &user("erin"), true, &people()), Err(Rejection::QuoteNotFound));
    assert_eq!(get_quote(&store, 1, &user("carol"), true, &people()).unwrap().id, 1);
    assert_eq!(get_quote(&store, 1, &user("erin"), false, &people()).unwrap().id, 1);
    let seen = get_quote(&store, 1, &moderator(), true, &people()).unwrap();
    assert_eq!(seen.hidden.unwrap().actor.cn, "MOD");
}

#[test]
fn rows_come_quote_by_quote_in_shard_order() {
    let store = sample();
    let rows = fetch_listing_rows(&store, &FetchParams { lt: Some(3), ..params() }, &user("erin"), true).unwrap();
    let keys: Vec<(i32, i16)> = rows.iter().map(|r| (r.id, r.index)).collect();
    assert_eq!(keys, vec![(2, 1), (1, 1), (1, 2)]);
    assert_eq!(rows[1].timestamp, 100);
    assert_eq!(rows[1].submitter, "alice");
}

#[test]
fn quote_whose_speaker_left_is_left_out() {
    let store = sample();
    let remaining: Vec<UserResponse> = people().into_iter().filter(|u| u.uid != "carol").collect();
    let listed = get_quotes(&store, &params(), &user("erin"), true, &remaining).unwrap();
    let shape: Vec<(i32, usize)> = listed.iter().map(|q| (q.id, q.shards.len())).collect();
    assert_eq!(shape, vec![(4, 1), (1, 1)]);
    assert_eq!(
        get_quote(&store, 2, &user("erin"), true, &remaining),
        Err(Rejection::QuoteNotFound)
    );
}
