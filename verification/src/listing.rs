//! Reading quotes: the rows that a viewer's query yields, and the quotes
//! built from them.
//!
//! A query first picks the quotes: for a listing the newest first, those
//! that pass the filters and that the viewer may see, up to the limit; for a
//! single quote the one asked for, if the viewer may see it. Each quote
//! picked then yields one row per shard, in shard order.

use vstd::prelude::*;
use crate::model::{
    quotes_view, rows_view, users_view, FetchParams, FilterView, QuoteResponse, QuoteShard,
    QuoteView, RowView, Text, User, UserResponse, UserView,
};
use crate::reconstruct::{assemble, shards_to_quotes};
use crate::response::Rejection;
use crate::state::{
    has_quote, limit_valid, listed, page_size, quote_by_id, quote_row, quote_rows, quote_wf,
    rows_of_quotes, select, shard_matches, some_shard_matches, visible, QuoteState, StoreState,
    DEFAULT_LIMIT, NO_LIMIT,
};
use crate::store::{QuoteRecord, Store};
use crate::text::contains_ignore_case;

verus! {

/// Appends the rows of one quote, annotated for `viewer`.
fn push_quote_rows(rows: &mut Vec<QuoteShard>, record: &QuoteRecord, viewer: &String)
    requires
        quote_wf(record@),
    ensures
        rows_view(final(rows)@) == rows_view(old(rows)@) + quote_rows(record@, viewer@),
{
    let ghost before = rows_view(rows@);
    let ghost quote = record@;
    let total = record.tally();
    let vote = record.vote_by(viewer);
    let favorited = record.favorite_of(viewer).is_some();
    let mut k: usize = 0;
    proof {
        assert(rows_view(rows@) =~= before + quote_rows(quote, viewer@).take(0));
    }
    while k < record.shards.len()
        invariant
            k <= record.shards.len(),
            quote == record@,
            quote_wf(quote),
            total == crate::state::score(quote.votes),
            vote == crate::state::vote_of(quote.votes, viewer@),
            favorited == quote.favorites.contains(viewer@),
            rows_view(rows@) == before + quote_rows(quote, viewer@).take(k as int),
        decreases record.shards.len() - k,
    {
        let ghost so_far = rows_view(rows@);
        let shard = &record.shards[k];
        let row = QuoteShard {
            id: record.id,
            index: (k + 1) as i16,
            body: shard.body.clone(),
            submitter: record.submitter.clone(),
            speaker: shard.speaker.clone(),
            timestamp: record.timestamp,
            vote,
            score: total,
            hidden_reason: match &record.hidden {
                Some(h) => Some(h.reason.clone()),
                None => None,
            },
            hidden_actor: match &record.hidden {
                Some(h) => Some(h.actor.clone()),
                None => None,
            },
            favorited,
        };
        proof {
            assert(quote.shards[k as int] == shard@);
            assert(row@ == quote_row(quote, viewer@, k as int));
        }
        rows.push(row);
        proof {
            assert(rows_view(rows@) =~= so_far.push(row@));
            assert(quote_rows(quote, viewer@).take(k + 1) =~= quote_rows(quote, viewer@).take(
                k as int,
            ).push(row@));
            assert(rows_view(rows@) =~= before + quote_rows(quote, viewer@).take(k + 1));
        }
        k += 1;
    }
    proof {
        assert(quote_rows(quote, viewer@).take(k as int) =~= quote_rows(quote, viewer@));
    }
}

/// The rows that a query for the quote `id`, made for `viewer`, yields: the
/// quote's rows if it is there for the viewer to see, else none.
pub open spec fn single_rows(
    state: StoreState,
    id: i32,
    viewer: Text,
    privileged: bool,
) -> Seq<RowView> {
    if has_quote(state.quotes, id) && visible(
        quote_by_id(state.quotes, id),
        viewer,
        privileged,
    ) {
        quote_rows(quote_by_id(state.quotes, id), viewer)
    } else {
        Seq::empty()
    }
}

/// Queries the rows of the quote `id` for `user`.
pub fn fetch_quote_rows(
    store: &Store,
    id: i32,
    user: &User,
    security_enabled: bool,
) -> (rows: Vec<QuoteShard>)
    requires
        store.wf(),
    ensures
        rows_view(rows@) == single_rows(
            store@,
            id,
            user.preferred_username@,
            user.privileged(security_enabled),
        ),
{
    let mut rows: Vec<QuoteShard> = Vec::new();
    proof {
        assert(rows_view(rows@) =~= Seq::<RowView>::empty());
    }
    match store.find(id) {
        None => {},
        Some(i) => {
            assert(store@.quotes[i as int] == store.quotes@[i as int]@);
            if store.quotes[i].visible_to(
                &user.preferred_username,
                user.is_privileged(security_enabled),
            ) {
                push_quote_rows(&mut rows, &store.quotes[i], &user.preferred_username);
                proof {
                    assert(rows_view(rows@) =~= quote_rows(
                        store@.quotes[i as int],
                        user.preferred_username@,
                    ));
                }
            }
        },
    }
    rows
}

/// The first quote that the rows stand for, if they stand for any.
pub open spec fn first_assembled(rows: Seq<RowView>, names: Seq<UserView>) -> Option<QuoteView> {
    let quotes = assemble(rows, names);
    if quotes.len() > 0 {
        Some(quotes[0])
    } else {
        None
    }
}

/// The quote that `viewer` gets when they ask for the quote `id`.
pub open spec fn single_quote(
    state: StoreState,
    id: i32,
    viewer: Text,
    privileged: bool,
    names: Seq<UserView>,
) -> Option<QuoteView> {
    first_assembled(single_rows(state, id, viewer, privileged), names)
}

/// Builds the one quote that the rows of a single-quote query stand for.
/// No rows, or rows that stand for no quote, mean that the quote is not
/// found.
pub fn single_from_rows(
    rows: &Vec<QuoteShard>,
    names: &Vec<UserResponse>,
) -> (outcome: Result<QuoteResponse, Rejection>)
    ensures
        match first_assembled(rows_view(rows@), users_view(names@)) {
            Some(quote) => outcome matches Ok(found) && found@ == quote,
            None => outcome == Err::<QuoteResponse, Rejection>(Rejection::QuoteNotFound),
        },
{
    let mut quotes = shards_to_quotes(rows, names);
    if quotes.len() == 0 {
        return Err(Rejection::QuoteNotFound);
    }
    let ghost first = quotes@[0];
    assert(quotes_view(quotes@)[0] == first@);
    let found = quotes.swap_remove(0);
    Ok(found)
}

/// Fetches one quote for `user`, with every member named by the directory
/// answer `names`. A quote that is not there, that the caller may not see,
/// or whose opening shard cannot be named, is reported as not found.
pub fn get_quote(
    store: &Store,
    id: i32,
    user: &User,
    security_enabled: bool,
    names: &Vec<UserResponse>,
) -> (outcome: Result<QuoteResponse, Rejection>)
    requires
        store.wf(),
    ensures
        match single_quote(
            store@,
            id,
            user.preferred_username@,
            user.privileged(security_enabled),
            users_view(names@),
        ) {
            Some(quote) => outcome matches Ok(found) && found@ == quote,
            None => outcome == Err::<QuoteResponse, Rejection>(Rejection::QuoteNotFound),
        },
{
    let rows = fetch_quote_rows(store, id, user, security_enabled);
    single_from_rows(&rows, names)
}

/// Whether one of the record's shards meets the text and speaker filters.
fn any_shard_matches(record: &QuoteRecord, params: &FetchParams) -> (found: bool)
    ensures
        found == some_shard_matches(record@, params@),
{
    let mut k: usize = 0;
    while k < record.shards.len()
        invariant
            k <= record.shards.len(),
            forall|j: int| 0 <= j < k ==> !shard_matches(#[trigger] record@.shards[j], params@),
        decreases record.shards.len() - k,
    {
        let shard = &record.shards[k];
        assert(record@.shards[k as int] == shard@);
        let text_ok = match &params.q {
            Some(q) => contains_ignore_case(shard.body.as_str(), q.as_str()),
            None => true,
        };
        let speaker_ok = match &params.speaker {
            Some(speaker) => shard.speaker == *speaker,
            None => true,
        };
        if text_ok && speaker_ok {
            return true;
        }
        k += 1;
    }
    false
}

/// Whether a listing made for `viewer` with these parameters holds the quote.
fn is_listed(
    record: &QuoteRecord,
    params: &FetchParams,
    viewer: &String,
    privileged: bool,
) -> (held: bool)
    ensures
        held == listed(record@, params@, viewer@, privileged),
{
    if !record.visible_to(viewer, privileged) {
        return false;
    }
    match params.hidden {
        Some(hidden) => {
            if record.hidden.is_some() != hidden {
                return false;
            }
        },
        None => {},
    }
    match params.lt {
        Some(lt) => {
            if record.id >= lt {
                return false;
            }
        },
        None => {},
    }
    match &params.submitter {
        Some(submitter) => {
            if record.submitter != *submitter {
                return false;
            }
        },
        None => {},
    }
    match &params.involved {
        Some(who) => {
            if !record.involves(who) {
                return false;
            }
        },
        None => {},
    }
    if !any_shard_matches(record, params) {
        return false;
    }
    match params.favorited {
        Some(true) => record.favorite_of(viewer).is_some(),
        _ => true,
    }
}

/// The most quotes that a listing with this limit returns. No limit means
/// ten; the limit -1 lifts the limit.
pub fn effective_limit(limit: Option<i64>) -> (most: Result<i64, Rejection>)
    ensures
        if limit_valid(limit) {
            most matches Ok(n) && n == page_size(limit)
        } else {
            most == Err::<i64, Rejection>(Rejection::InvalidLimit)
        },
{
    match limit {
        None => Ok(DEFAULT_LIMIT),
        Some(n) => {
            if n == NO_LIMIT {
                Ok(i64::MAX)
            } else if n >= 0 {
                Ok(n)
            } else {
                Err(Rejection::InvalidLimit)
            }
        },
    }
}

/// The rows that a listing made for `viewer` yields.
pub open spec fn listing_rows(
    state: StoreState,
    filter: FilterView,
    viewer: Text,
    privileged: bool,
) -> Seq<RowView> {
    rows_of_quotes(
        select(state.quotes, filter, viewer, privileged, page_size(filter.limit)),
        viewer,
    )
}

/// Queries the rows of a listing for `user`: the quotes picked newest first,
/// each with its rows in shard order.
pub fn fetch_listing_rows(
    store: &Store,
    params: &FetchParams,
    user: &User,
    security_enabled: bool,
) -> (outcome: Result<Vec<QuoteShard>, Rejection>)
    requires
        store.wf(),
    ensures
        if limit_valid(params@.limit) {
            outcome matches Ok(rows) && rows_view(rows@) == listing_rows(
                store@,
                params@,
                user.preferred_username@,
                user.privileged(security_enabled),
            )
        } else {
            outcome == Err::<Vec<QuoteShard>, Rejection>(Rejection::InvalidLimit)
        },
{
    let mut remaining: i64 = match effective_limit(params.limit) {
        Ok(n) => n,
        Err(fault) => {
            return Err(fault);
        },
    };
    let privileged = user.is_privileged(security_enabled);
    let ghost all = store@.quotes;
    let ghost filter = params@;
    let ghost viewer = user.preferred_username@;
    let ghost wanted = select(all, filter, viewer, privileged, page_size(filter.limit));
    let ghost mut picked: Seq<QuoteState> = Seq::empty();
    let mut rows: Vec<QuoteShard> = Vec::new();
    let mut i: usize = store.quotes.len();
    proof {
        assert(all.take(i as int) =~= all);
        assert(rows_view(rows@) =~= Seq::<RowView>::empty());
    }
    while i > 0 && remaining > 0
        invariant
            store.wf(),
            all == store@.quotes,
            filter == params@,
            viewer == user.preferred_username@,
            i <= store.quotes.len(),
            remaining >= 0,
            wanted == picked + select(
                all.take(i as int),
                filter,
                viewer,
                privileged,
                remaining as nat,
            ),
            rows_view(rows@) == rows_of_quotes(picked, viewer),
        decreases i,
    {
        let record = &store.quotes[i - 1];
        proof {
            assert(all.take(i as int).last() == record@);
            assert(all.take(i as int).drop_last() =~= all.take(i - 1));
            assert(quote_wf(all[i - 1]));
        }
        if is_listed(record, params, &user.preferred_username, privileged) {
            push_quote_rows(&mut rows, record, &user.preferred_username);
            proof {
                let fewer = (remaining - 1) as nat;
                let rest = select(all.take(i - 1), filter, viewer, privileged, fewer);
                assert(picked + (seq![record@] + rest) =~= picked.push(record@) + rest);
                assert(picked.push(record@).drop_last() =~= picked);
                picked = picked.push(record@);
            }
            remaining -= 1;
        }
        i -= 1;
    }
    proof {
        assert(picked + Seq::<QuoteState>::empty() =~= picked);
    }
    Ok(rows)
}

/// Lists quotes for `user`, newest first, with every member named by the
/// directory answer `names`.
pub fn get_quotes(
    store: &Store,
    params: &FetchParams,
    user: &User,
    security_enabled: bool,
    names: &Vec<UserResponse>,
) -> (outcome: Result<Vec<QuoteResponse>, Rejection>)
    requires
        store.wf(),
    ensures
        if limit_valid(params@.limit) {
            outcome matches Ok(quotes) && quotes_view(quotes@) == assemble(
                listing_rows(
                    store@,
                    params@,
                    user.preferred_username@,
                    user.privileged(security_enabled),
                ),
                users_view(names@),
            )
        } else {
            outcome == Err::<Vec<QuoteResponse>, Rejection>(Rejection::InvalidLimit)
        },
{
    match fetch_listing_rows(store, params, user, security_enabled) {
        Ok(rows) => Ok(shards_to_quotes(&rows, names)),
        Err(fault) => Err(fault),
    }
}

} // verus!
