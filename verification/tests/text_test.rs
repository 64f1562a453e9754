use quotefault::digest::{reporter_hash, same_bytes};
use quotefault::model::{User, Vote};
use quotefault::response::{rows_outcome, Rejection, SqlxErrorOrResponse, Status};
use quotefault::text::{char_count, contains_ignore_case, find_run, folded, is_valid_username};

#[test]
fn letters_fold_to_their_lowercase() {
    assert_eq!(folded("Hi!"), vec!['h', 'i', '!']);
    assert_eq!(folded("AZ az @["), vec!['a', 'z', ' ', 'a', 'z', ' ', '@', '[']);
    assert_eq!(folded("\u{c9}t\u{c9}"), vec!['\u{e9}', 't', '\u{e9}']);
    assert_eq!(folded("\u{3a9}"), vec!['\u{3c9}']);
    assert_eq!(folded("\u{130}"), vec!['i', '\u{307}']);
    assert_eq!(folded(""), Vec::<char>::new());
}

#[test]
fn search_ignores_case_beyond_ascii() {
    assert!(contains_ignore_case("Caf\u{e9} au lait", "CAF\u{c9}"));
    assert!(contains_ignore_case("CAF\u{c9}", "\u{e9}"));
    assert!(contains_ignore_case("\u{e9}", "\u{c9}"));
    assert!(!contains_ignore_case("cafe", "\u{c9}"));
    assert!(contains_ignore_case("\u{39a}\u{391}\u{39b}\u{397}", "\u{3b1}\u{3bb}"));
}

#[test]
fn runs_are_found_as_they_are() {
    let hay: Vec<char> = "hello world".chars().collect();
    let run = |s: &str| -> Vec<char> { s.chars().collect() };
    assert!(find_run(&hay, &run("lo w")));
    assert!(find_run(&hay, &run("hello world")));
    assert!(find_run(&hay, &run("d")));
    assert!(find_run(&hay, &run("")));
    assert!(!find_run(&hay, &run("World")));
    assert!(!find_run(&hay, &run("hello world!")));
    assert!(!find_run(&run(""), &run("a")));
    assert!(find_run(&run(""), &run("")));
}

#[test]
fn search_ignores_case_of_ascii_letters() {
    assert!(contains_ignore_case("Hello World", "WORLD"));
    assert!(contains_ignore_case("Hello World", "hello"));
    assert!(contains_ignore_case("Hello World", "o W"));
    assert!(contains_ignore_case("Hello World", ""));
    assert!(contains_ignore_case("", ""));
    assert!(!contains_ignore_case("Hello World", "worlds"));
    assert!(!contains_ignore_case("", "a"));
    assert!(!contains_ignore_case("ab", "abc"));
    assert!(contains_ignore_case("aab", "ab"));
}

#[test]
fn characters_are_counted_not_bytes() {
    assert_eq!(char_count(""), 0);
    assert_eq!(char_count("abc"), 3);
    assert_eq!(char_count("héllo"), 5);
}

#[test]
fn username_form_is_checked() {
    assert!(is_valid_username("alice"));
    assert!(is_valid_username("a"));
    assert!(is_valid_username("bob-2_x"));
    assert!(is_valid_username("0123456789abcdef0123456789abcdef"));
    assert!(!is_valid_username("0123456789abcdef0123456789abcdefg"));
    assert!(!is_valid_username(""));
    assert!(!is_valid_username("Alice"));
    assert!(!is_valid_username("al ice"));
    assert!(!is_valid_username("al.ice"));
    assert!(!is_valid_username("élise"));
}

#[test]
fn reporter_hash_is_the_salted_digest() {
    let expected: Vec<u8> = vec![
        35, 110, 103, 214, 145, 144, 253, 34, 7, 76, 111, 11, 203, 93, 23, 41, 214, 160, 153, 6,
        198, 18, 156, 204, 22, 187, 195, 125, 201, 84, 254, 27,
    ];
    assert_eq!(reporter_hash("alice"), expected);
    assert_eq!(reporter_hash("alice"), reporter_hash("alice"));
    assert_ne!(reporter_hash("alice"), reporter_hash("bob"));
    assert_eq!(reporter_hash("bob").len(), 32);
    assert_eq!(reporter_hash("bob")[0], 0x12);
    assert_eq!(reporter_hash("")[0], 0x6f);
}

#[test]
fn bytes_are_compared_whole() {
    assert!(same_bytes(&vec![1, 2, 3], &vec![1, 2, 3]));
    assert!(same_bytes(&vec![], &vec![]));
    assert!(!same_bytes(&vec![1, 2, 3], &vec![1, 2]));
    assert!(!same_bytes(&vec![1, 2, 3], &vec![1, 2, 4]));
}

#[test]
fn privilege_follows_role_and_enforcement() {
    let member = User { preferred_username: "alice".to_string(), admin: false };
    let admin = User { preferred_username: "root".to_string(), admin: true };
    assert!(!member.is_privileged(true));
    assert!(member.is_privileged(false));
    assert!(admin.is_privileged(true));
    assert!(admin.is_privileged(false));
}

#[test]
fn vote_weights() {
    assert_eq!(Vote::Upvote.score_delta(), 1);
    assert_eq!(Vote::Downvote.score_delta(), -1);
}

#[test]
fn statuses_have_numbers_and_labels() {
    assert_eq!(Status::BadRequest.code(), 400);
    assert_eq!(Status::NotFound.code(), 404);
    assert_eq!(Status::InternalServerError.code(), 500);
    assert_eq!(Status::BadRequest.label(), "400 Bad Request");
    assert_eq!(Status::NotFound.label(), "404 Not Found");
    assert_eq!(Status::InternalServerError.label(), "500 Internal Server Error");
}

#[test]
fn rejections_have_status_and_sentence() {
    assert_eq!(Rejection::NoShards.status(), Status::BadRequest);
    assert_eq!(Rejection::NoShards.message(), "No quote shards specified");
    assert_eq!(Rejection::TooManyShards.message(), "Maximum of 6 shards exceeded.");
    assert_eq!(Rejection::UnquotableSpeaker.message(), "One or more speakers is unquotable");
    assert_eq!(Rejection::InvalidSpeaker.message(), "Invalid speaker username format specified.");
    assert_eq!(Rejection::SelfQuote.message(), "Erm... maybe don't quote yourself?");
    assert_eq!(
        Rejection::InvalidSubmitter.message(),
        "Invalid submitter username specified. SHOULD NEVER HAPPEN!"
    );
    assert_eq!(Rejection::UnknownUsers.message(), "Some users submitted do not exist.");
    assert_eq!(Rejection::QuotableMembersUnavailable.status(), Status::InternalServerError);
    assert_eq!(Rejection::QuotableMembersUnavailable.message(), "Failed to fetch quotable members");
    assert_eq!(
        Rejection::NotYourQuote.message(),
        "Either this is not your quote or this quote does not exist."
    );
    assert_eq!(Rejection::ReasonTooShort.message(), "Reason must be at least 10 characters");
    assert_eq!(
        Rejection::NotQuoted.message(),
        "Either you are not quoted in this quote or this quote does not exist."
    );
    assert_eq!(
        Rejection::AlreadyReported.message(),
        "You have already reported this quote or quote does not exist"
    );
    assert_eq!(
        Rejection::NoOpenReport.message(),
        "Report is either already resolved or doesn't exist."
    );
    assert_eq!(Rejection::QuoteDoesNotExist.message(), "Quote does not exist");
    assert_eq!(Rejection::QuoteNotFound.status(), Status::NotFound);
    assert_eq!(Rejection::QuoteNotFound.message(), "Quote could not be found");
    assert_eq!(
        Rejection::AlreadyFavorited.message(),
        "Quote is either already favorited or doesn't exist."
    );
    assert_eq!(Rejection::NotFavorited.message(), "Quote is not favorited.");
    assert_eq!(Rejection::InvalidLimit.status(), Status::InternalServerError);
    assert_eq!(Rejection::StoreExhausted.status(), Status::InternalServerError);
}

#[test]
fn rejection_becomes_a_response() {
    let response = Rejection::ReasonTooShort.into_response();
    assert_eq!(response.status_code(), Status::BadRequest);
    assert_eq!(response.error_response(), "Reason must be at least 10 characters");
    assert_eq!(response.to_text(), "400 Bad Request: Reason must be at least 10 characters");
}

#[test]
fn store_failure_is_an_internal_error() {
    let failure = SqlxErrorOrResponse::from("pool timed out".to_string());
    assert_eq!(failure.status_code(), Status::InternalServerError);
    assert_eq!(failure.error_response(), "SQLX Error: pool timed out");
    assert_eq!(failure.to_text(), "pool timed out");
}

#[test]
fn owned_response_keeps_status_and_body() {
    let response = SqlxErrorOrResponse::ResponseOwned(Status::NotFound, "nothing here".to_string());
    assert_eq!(response.status_code(), Status::NotFound);
    assert_eq!(response.error_response(), "nothing here");
    assert_eq!(response.to_text(), "404 Not Found: nothing here");
}

#[test]
fn write_that_changed_nothing_is_turned_down() {
    assert_eq!(rows_outcome(0, Rejection::NotFavorited), Err(Rejection::NotFavorited));
    assert_eq!(rows_outcome(1, Rejection::NotFavorited), Ok(()));
    assert_eq!(rows_outcome(3, Rejection::QuoteDoesNotExist), Ok(()));
}
