//! What holds of the rules whatever the store holds: stated once and proved.

use vstd::prelude::*;
use crate::model::{FilterView, NewShardView, QuoteView, RowView, Text, UserView, Vote};
use crate::moderation::{
    hidden_by, hideable, open_reason, reportable, reported, resolvable, resolved,
};
use crate::state::{
    count_votes, distinct_voters, has_open_report, has_quote, has_reported, has_voted, involved,
    is_speaker, listed, position, quote_by_id, quote_rows, quote_wf, rows_of_quotes, score, select,
    upsert_vote, visible, vote_of, vote_position, without_vote, HiddenState, QuoteState,
    ReportState, StoreState, VoteState,
};
use crate::store::{lemma_position, lemma_vote_position};
use crate::submission::{
    count_fault, created, first_speaker_fault, lemma_no_speaker_fault, speaker_fault,
    submission_fault,
};
use crate::voting::{lemma_votes_stay_distinct, voted};

verus! {

// Votes and scores

/// After a member has voted, their vote is the value they voted, they have
/// exactly one vote, and every other member's vote is what it was.
pub proof fn law_vote_is_recorded(votes: Seq<VoteState>, voter: Text, vote: Vote, other: Text)
    requires
        distinct_voters(votes),
        other != voter,
    ensures
        distinct_voters(upsert_vote(votes, voter, vote)),
        vote_of(upsert_vote(votes, voter, vote), voter) == Some(vote),
        vote_of(upsert_vote(votes, voter, vote), other) == vote_of(votes, other),
        upsert_vote(votes, voter, vote).len() == if has_voted(votes, voter) {
            votes.len()
        } else {
            votes.len() + 1
        },
{
    let after = upsert_vote(votes, voter, vote);
    lemma_votes_stay_distinct(votes, voter, vote);
    let at = if has_voted(votes, voter) {
        vote_position(votes, voter)
    } else {
        votes.len() as int
    };
    assert(after[at] == VoteState { voter, vote });
    lemma_vote_position(after, at);
    if has_voted(votes, other) {
        let p = vote_position(votes, other);
        assert(after[p] == votes[p]);
        lemma_vote_position(after, p);
    } else {
        if has_voted(after, other) {
            let p = vote_position(after, other);
            if p < votes.len() {
                assert(votes[p].voter == other);
            }
        }
    }
}

/// Voting the same value again changes nothing, and voting another value
/// leaves what a single vote of that value would have left.
pub proof fn law_revote(votes: Seq<VoteState>, voter: Text, first: Vote, second: Vote)
    requires
        distinct_voters(votes),
    ensures
        upsert_vote(upsert_vote(votes, voter, first), voter, first) == upsert_vote(
            votes,
            voter,
            first,
        ),
        upsert_vote(upsert_vote(votes, voter, first), voter, second) == upsert_vote(
            votes,
            voter,
            second,
        ),
{
    let once = upsert_vote(votes, voter, first);
    lemma_votes_stay_distinct(votes, voter, first);
    let at = if has_voted(votes, voter) {
        vote_position(votes, voter)
    } else {
        votes.len() as int
    };
    assert(once[at] == VoteState { voter, vote: first });
    lemma_vote_position(once, at);
    assert(upsert_vote(once, voter, first) =~= once);
    assert(upsert_vote(once, voter, second) =~= upsert_vote(votes, voter, second));
}

/// The score is the number of upvotes less the number of downvotes, and the
/// score of a quote without votes is 0.
pub proof fn law_score_counts_votes(votes: Seq<VoteState>)
    ensures
        score(votes) == count_votes(votes, Vote::Upvote) - count_votes(votes, Vote::Downvote),
        votes.len() == 0 ==> score(votes) == 0,
    decreases votes.len(),
{
    if votes.len() > 0 {
        law_score_counts_votes(votes.drop_last());
    }
}

/// Taking the vote at position `at` away takes its weight off the score.
pub proof fn lemma_score_without(votes: Seq<VoteState>, at: int)
    requires
        0 <= at < votes.len(),
    ensures
        score(votes.remove(at)) == score(votes) - votes[at].vote.weight(),
    decreases votes.len(),
{
    if at == votes.len() - 1 {
        assert(votes.remove(at) =~= votes.drop_last());
    } else {
        lemma_score_without(votes.drop_last(), at);
        assert(votes.remove(at).drop_last() =~= votes.drop_last().remove(at));
        assert(votes.remove(at).last() == votes.last());
    }
}

/// Putting another vote at position `at` changes the score by the
/// difference of the weights.
pub proof fn lemma_score_update(votes: Seq<VoteState>, at: int, vote: VoteState)
    requires
        0 <= at < votes.len(),
    ensures
        score(votes.update(at, vote)) == score(votes) - votes[at].vote.weight()
            + vote.vote.weight(),
    decreases votes.len(),
{
    if at == votes.len() - 1 {
        assert(votes.update(at, vote).drop_last() =~= votes.drop_last());
    } else {
        lemma_score_update(votes.drop_last(), at, vote);
        assert(votes.update(at, vote).drop_last() =~= votes.drop_last().update(at, vote));
    }
}

/// Taking a vote back removes what it added to the score.
pub proof fn law_unvote_removes_contribution(votes: Seq<VoteState>, voter: Text)
    requires
        distinct_voters(votes),
        has_voted(votes, voter),
    ensures
        score(without_vote(votes, voter)) == score(votes) - vote_of(votes, voter).unwrap().weight(),
        vote_of(without_vote(votes, voter), voter) is None,
{
    let at = vote_position(votes, voter);
    lemma_score_without(votes, at);
    let fewer = without_vote(votes, voter);
    if has_voted(fewer, voter) {
        let p = vote_position(fewer, voter);
        let shifted = if p < at {
            p
        } else {
            p + 1
        };
        assert(votes[shifted].voter == voter);
        assert(votes[shifted].voter != votes[at].voter);
    }
}

/// A vote changes the score by its own weight, less the weight of the vote
/// it replaces.
pub proof fn law_vote_changes_score(votes: Seq<VoteState>, voter: Text, vote: Vote)
    requires
        distinct_voters(votes),
    ensures
        score(upsert_vote(votes, voter, vote)) == score(votes) + vote.weight() - match vote_of(
            votes,
            voter,
        ) {
            Some(earlier) => earlier.weight(),
            None => 0,
        },
{
    if has_voted(votes, voter) {
        lemma_score_update(votes, vote_position(votes, voter), VoteState { voter, vote });
    } else {
        assert(votes.push(VoteState { voter, vote }).drop_last() =~= votes);
    }
}

// Submissions

/// The rows of a stored quote number its shards 1, 2, 3 and so on without a
/// gap, and carry the shards in the order in which they are stored.
pub proof fn law_shards_are_numbered(quote: QuoteState, viewer: Text)
    requires
        quote_wf(quote),
    ensures
        quote_rows(quote, viewer).len() == quote.shards.len(),
        forall|k: int|
            0 <= k < quote.shards.len() ==> {
                &&& (#[trigger] quote_rows(quote, viewer)[k]).index == k + 1
                &&& quote_rows(quote, viewer)[k].id == quote.id
                &&& quote_rows(quote, viewer)[k].body == quote.shards[k].body
                &&& quote_rows(quote, viewer)[k].speaker == quote.shards[k].speaker
            },
{
}

/// An accepted submission is stored with its shards in the order in which
/// they were submitted, under an id that no stored quote has, and comes
/// without votes, favorites, reports or a hidden record.
pub proof fn law_created_in_submission_order(
    state: StoreState,
    submitter: Text,
    shards: Seq<NewShardView>,
    now: i64,
)
    requires
        state.wf(),
    ensures
        created(state, submitter, shards, now).quotes.len() == state.quotes.len() + 1,
        !has_quote(state.quotes, state.next_quote_id),
        ({
            let quote = created(state, submitter, shards, now).quotes.last();
            &&& quote.id == state.next_quote_id
            &&& quote.submitter == submitter
            &&& quote.shards.len() == shards.len()
            &&& forall|k: int|
                0 <= k < shards.len() ==> (#[trigger] quote.shards[k]).body == shards[k].body
                    && quote.shards[k].speaker == shards[k].speaker
            &&& score(quote.votes) == 0
            &&& quote.hidden is None
            &&& quote.reports.len() == 0
            &&& quote.favorites.len() == 0
        }),
{
    if has_quote(state.quotes, state.next_quote_id) {
        let p = position(state.quotes, state.next_quote_id);
        assert(state.quotes[p].id < state.next_quote_id);
    }
}

/// No stored quote has a shard whose speaker is the quote's submitter.
pub proof fn law_no_stored_self_quote(state: StoreState, i: int, k: int)
    requires
        state.wf(),
        0 <= i < state.quotes.len(),
        0 <= k < state.quotes[i].shards.len(),
    ensures
        state.quotes[i].shards[k].speaker != state.quotes[i].submitter,
{
    assert(quote_wf(state.quotes[i]));
    if state.quotes[i].shards[k].speaker == state.quotes[i].submitter {
        assert(is_speaker(state.quotes[i], state.quotes[i].submitter));
    }
}

/// A submission in which the submitter is a speaker is turned down, whatever
/// the directory says.
pub proof fn law_self_quote_rejected(
    shards: Seq<NewShardView>,
    submitter: Text,
    quotable: Seq<Text>,
    all_exist: bool,
    k: int,
)
    requires
        0 <= k < shards.len(),
        shards[k].speaker == submitter,
    ensures
        submission_fault(shards, submitter, quotable, all_exist) is Some,
{
    if count_fault(shards) is None && first_speaker_fault(shards, submitter, quotable) is None {
        lemma_no_speaker_fault(shards, submitter, quotable);
        assert(speaker_fault(shards[k], submitter, quotable) is None);
    }
}

// Moderation

/// A hidden quote cannot be hidden again, by anyone: a quote has at most one
/// hidden record.
pub proof fn law_hidden_once(
    state: StoreState,
    id: i32,
    who: Text,
    reason: Text,
    now: i64,
    again: Text,
    privileged: bool,
)
    requires
        state.wf(),
        has_quote(state.quotes, id),
    ensures
        hidden_by(state, id, who, reason, now).wf(),
        !hideable(hidden_by(state, id, who, reason, now), id, again, privileged),
{
    let at = position(state.quotes, id);
    let quote = QuoteState {
        hidden: Some(HiddenState { reason, actor: who, timestamp: now }),
        ..state.quotes[at]
    };
    assert(quote_wf(state.quotes[at]));
    assert(is_speaker(quote, quote.submitter) == is_speaker(state.quotes[at], quote.submitter));
    assert forall|k: int| 0 <= k < quote.reports.len() implies 1 <= (
    #[trigger] quote.reports[k]).id < state.next_report_id by {
        assert(1 <= state.quotes[at].reports[k].id);
    }
    crate::store::lemma_replaced(state, at, quote);
}

/// An identity that has reported a quote cannot report it again, and its
/// report does not keep another identity from reporting the same quote.
pub proof fn law_one_report_per_identity(
    state: StoreState,
    id: i32,
    reporter: Seq<u8>,
    reason: Text,
    now: i64,
    other: Seq<u8>,
)
    requires
        state.wf(),
        reportable(state, id, reporter),
    ensures
        !reportable(reported(state, id, reporter, reason, now), id, reporter),
        other != reporter && reportable(state, id, other) ==> reportable(
            reported(state, id, reporter, reason, now),
            id,
            other,
        ),
{
    let at = position(state.quotes, id);
    let after = reported(state, id, reporter, reason, now);
    crate::store::lemma_same_ids(state, after.quotes, id);
    let before_reports = state.quotes[at].reports;
    let reports = after.quotes[at].reports;
    assert(reports[before_reports.len() as int].reporter == reporter);
    if other != reporter && reportable(state, id, other) {
        if has_reported(reports, other) {
            let k = choose|k: int|
                0 <= k < reports.len() && (#[trigger] reports[k]).reporter == other;
            assert(before_reports[k].reporter == other);
        }
    }
}

/// Once the open reports of a quote are resolved, there is nothing left to
/// resolve, and a quote that is not there has nothing to resolve either.
pub proof fn law_resolved_once(state: StoreState, id: i32, who: Text)
    requires
        state.wf(),
    ensures
        !has_quote(state.quotes, id) ==> !resolvable(state, id),
        resolvable(state, id) ==> !resolvable(resolved(state, id, who), id),
{
    if resolvable(state, id) {
        let at = position(state.quotes, id);
        let after = resolved(state, id, who);
        crate::store::lemma_same_ids(state, after.quotes, id);
        assert(quote_wf(state.quotes[at]));
        crate::moderation::lemma_resolve_all_keeps_order(state.quotes[at].reports, who);
    }
}

/// The reason of the first open report is the reason of an open report.
pub proof fn lemma_first_open_reason(reports: Seq<ReportState>)
    requires
        has_open_report(reports),
    ensures
        crate::state::first_open_reason(reports) is Some,
        exists|k: int|
            0 <= k < reports.len() && (#[trigger] reports[k]).resolver is None && Some(
                reports[k].reason,
            ) == crate::state::first_open_reason(reports),
    decreases reports.len(),
{
    let w = choose|k: int| 0 <= k < reports.len() && (#[trigger] reports[k]).resolver is None;
    if reports.first().resolver is None {
        assert(reports[0].resolver is None);
    } else {
        let rest = reports.drop_first();
        assert(rest[w - 1].resolver is None);
        lemma_first_open_reason(rest);
        let k = choose|k: int|
            0 <= k < rest.len() && (#[trigger] rest[k]).resolver is None && Some(rest[k].reason)
                == crate::state::first_open_reason(rest);
        assert(reports[k + 1].resolver is None && Some(reports[k + 1].reason)
            == crate::state::first_open_reason(reports));
    }
}

/// Resolving with hiding leaves the quote with one hidden record, made by
/// the resolver for the reason that one of its open reports gave, leaves
/// none of its reports open, and leaves every other quote as it was.
pub proof fn law_resolve_and_hide(state: StoreState, id: i32, who: Text, now: i64)
    requires
        state.wf(),
        resolvable(state, id),
        quote_by_id(state.quotes, id).hidden is None,
    ensures
        ({
            let at = position(state.quotes, id);
            let after = hidden_by(
                resolved(state, id, who),
                id,
                who,
                open_reason(state, id),
                now,
            );
            &&& after.quotes.len() == state.quotes.len()
            &&& after.quotes[at].hidden == Some(
                HiddenState { reason: open_reason(state, id), actor: who, timestamp: now },
            )
            &&& exists|k: int|
                0 <= k < state.quotes[at].reports.len() && (
                #[trigger] state.quotes[at].reports[k]).resolver is None
                    && state.quotes[at].reports[k].reason == open_reason(state, id)
            &&& !has_open_report(after.quotes[at].reports)
            &&& forall|j: int|
                0 <= j < state.quotes.len() && j != at ==> #[trigger] after.quotes[j]
                    == state.quotes[j]
        }),
{
    let at = position(state.quotes, id);
    let mid = resolved(state, id, who);
    crate::store::lemma_same_ids(state, mid.quotes, id);
    assert(quote_wf(state.quotes[at]));
    crate::moderation::lemma_resolve_all_keeps_order(state.quotes[at].reports, who);
    lemma_first_open_reason(state.quotes[at].reports);
}

/// A vote touches one quote and, in it, one row: a member's first vote adds
/// exactly the row of that member, a later vote changes the value of their
/// row and nothing else, and afterwards no member has two rows.
pub proof fn law_vote_touches_one_row(state: StoreState, id: i32, voter: Text, vote: Vote)
    requires
        state.wf(),
        has_quote(state.quotes, id),
    ensures
        ({
            let at = position(state.quotes, id);
            let before = state.quotes[at].votes;
            let after = voted(state, id, voter, vote);
            &&& after.quotes.len() == state.quotes.len()
            &&& forall|j: int|
                0 <= j < state.quotes.len() && j != at ==> #[trigger] after.quotes[j]
                    == state.quotes[j]
            &&& after.quotes[at] == QuoteState { votes: after.quotes[at].votes, ..state.quotes[at] }
            &&& distinct_voters(after.quotes[at].votes)
            &&& !has_voted(before, voter) ==> after.quotes[at].votes == before.push(
                VoteState { voter, vote },
            )
            &&& has_voted(before, voter) ==> after.quotes[at].votes == before.update(
                vote_position(before, voter),
                VoteState { voter, vote },
            ) && before[vote_position(before, voter)].voter == voter
        }),
{
    let at = position(state.quotes, id);
    assert(quote_wf(state.quotes[at]));
    lemma_votes_stay_distinct(state.quotes[at].votes, voter, vote);
}

/// A report touches one quote and adds one row to it: the new report
/// stands last, is open, and carries the identity, the reason and the time
/// it was filed with; every earlier report is as it was.
pub proof fn law_report_adds_one_row(
    state: StoreState,
    id: i32,
    reporter: Seq<u8>,
    reason: Text,
    now: i64,
)
    requires
        state.wf(),
        has_quote(state.quotes, id),
    ensures
        ({
            let at = position(state.quotes, id);
            let after = reported(state, id, reporter, reason, now);
            &&& after.quotes.len() == state.quotes.len()
            &&& forall|j: int|
                0 <= j < state.quotes.len() && j != at ==> #[trigger] after.quotes[j]
                    == state.quotes[j]
            &&& after.quotes[at] == QuoteState {
                reports: after.quotes[at].reports,
                ..state.quotes[at]
            }
            &&& after.quotes[at].reports == state.quotes[at].reports.push(
                ReportState {
                    id: state.next_report_id,
                    reason,
                    reporter,
                    timestamp: now,
                    resolver: None,
                },
            )
        }),
{
}

/// Resolving leaves a report that was resolved before as it was, resolver
/// included, and changes nothing of an open report but its resolver.
pub proof fn law_resolve_keeps_resolved(reports: Seq<ReportState>, who: Text, k: int)
    requires
        0 <= k < reports.len(),
    ensures
        crate::state::resolve_all(reports, who).len() == reports.len(),
        reports[k].resolver is Some ==> crate::state::resolve_all(reports, who)[k] == reports[k],
        reports[k].resolver is None ==> crate::state::resolve_all(reports, who)[k] == (ReportState {
            resolver: Some(who),
            ..reports[k]
        }),
{
}

// Visibility

/// A listing holds no more quotes than its limit, only quotes of the store,
/// and only quotes that pass the filters and that the viewer may see.
pub proof fn law_selected_are_listed(
    quotes: Seq<QuoteState>,
    filter: FilterView,
    viewer: Text,
    privileged: bool,
    limit: nat,
)
    ensures
        select(quotes, filter, viewer, privileged, limit).len() <= limit,
        forall|k: int|
            0 <= k < select(quotes, filter, viewer, privileged, limit).len() ==> {
                &&& listed(
                    #[trigger] select(quotes, filter, viewer, privileged, limit)[k],
                    filter,
                    viewer,
                    privileged,
                )
                &&& quotes.contains(select(quotes, filter, viewer, privileged, limit)[k])
            },
    decreases quotes.len(),
{
    if quotes.len() == 0 || limit == 0 {
    } else {
        let picked = select(quotes, filter, viewer, privileged, limit);
        let held = listed(quotes.last(), filter, viewer, privileged);
        let rest_limit = if held {
            (limit - 1) as nat
        } else {
            limit
        };
        let rest = select(quotes.drop_last(), filter, viewer, privileged, rest_limit);
        law_selected_are_listed(quotes.drop_last(), filter, viewer, privileged, rest_limit);
        assert forall|k: int| 0 <= k < picked.len() implies {
            &&& listed(#[trigger] picked[k], filter, viewer, privileged)
            &&& quotes.contains(picked[k])
        } by {
            if held && k == 0 {
                assert(quotes[quotes.len() - 1] == picked[0]);
            } else {
                let j = if held {
                    k - 1
                } else {
                    k
                };
                assert(picked[k] == rest[j]);
                assert(quotes.drop_last().contains(rest[j]));
                let i = choose|i: int|
                    0 <= i < quotes.drop_last().len() && quotes.drop_last()[i] == rest[j];
                assert(quotes[i] == picked[k]);
            }
        }
    }
}

/// A listing gives the quotes newest first: their ids fall.
pub proof fn law_listing_newest_first(
    state: StoreState,
    filter: FilterView,
    viewer: Text,
    privileged: bool,
    limit: nat,
)
    requires
        state.wf(),
    ensures
        forall|a: int, b: int|
            0 <= a < b < select(state.quotes, filter, viewer, privileged, limit).len() ==> (
            #[trigger] select(state.quotes, filter, viewer, privileged, limit)[a]).id > (
            #[trigger] select(state.quotes, filter, viewer, privileged, limit)[b]).id,
    decreases state.quotes.len(),
{
    let quotes = state.quotes;
    if quotes.len() == 0 || limit == 0 {
    } else {
        let picked = select(quotes, filter, viewer, privileged, limit);
        let held = listed(quotes.last(), filter, viewer, privileged);
        let rest_limit = if held {
            (limit - 1) as nat
        } else {
            limit
        };
        let earlier = StoreState { quotes: quotes.drop_last(), ..state };
        assert(earlier.wf()) by {
            assert forall|i: int| 0 <= i < earlier.quotes.len() implies {
                &&& quote_wf(#[trigger] earlier.quotes[i])
                &&& 1 <= earlier.quotes[i].id < earlier.next_quote_id
                &&& forall|k: int|
                    0 <= k < earlier.quotes[i].reports.len() ==> 1 <= (
                    #[trigger] earlier.quotes[i].reports[k]).id < earlier.next_report_id
            } by {
                assert(quote_wf(quotes[i]));
            }
            assert forall|i: int, j: int| 0 <= i < j < earlier.quotes.len() implies (
            #[trigger] earlier.quotes[i]).id < (#[trigger] earlier.quotes[j]).id by {
                assert(quotes[i].id < quotes[j].id);
            }
        }
        let rest = select(earlier.quotes, filter, viewer, privileged, rest_limit);
        law_listing_newest_first(earlier, filter, viewer, privileged, rest_limit);
        law_selected_are_listed(earlier.quotes, filter, viewer, privileged, rest_limit);
        assert forall|a: int, b: int| 0 <= a < b < picked.len() implies (#[trigger] picked[a]).id
            > (#[trigger] picked[b]).id by {
            if held {
                if a == 0 {
                    assert(picked[b] == rest[b - 1]);
                    assert(earlier.quotes.contains(rest[b - 1]));
                    let i = choose|i: int|
                        0 <= i < earlier.quotes.len() && earlier.quotes[i] == rest[b - 1];
                    assert(quotes[i].id < quotes[quotes.len() - 1].id);
                } else {
                    assert(picked[a] == rest[a - 1] && picked[b] == rest[b - 1]);
                }
            } else {
                assert(picked[a] == rest[a] && picked[b] == rest[b]);
            }
        }
    }
}

/// Every row of a run of quotes carries the id of one of them.
pub proof fn lemma_rows_belong(quotes: Seq<QuoteState>, viewer: Text, r: int)
    requires
        0 <= r < rows_of_quotes(quotes, viewer).len(),
    ensures
        exists|k: int|
            0 <= k < quotes.len() && (#[trigger] quotes[k]).id == rows_of_quotes(
                quotes,
                viewer,
            )[r].id,
    decreases quotes.len(),
{
    if quotes.len() > 0 {
        let head = rows_of_quotes(quotes.drop_last(), viewer);
        if r < head.len() {
            lemma_rows_belong(quotes.drop_last(), viewer, r);
            let k = choose|k: int|
                0 <= k < quotes.drop_last().len() && (#[trigger] quotes.drop_last()[k]).id
                    == head[r].id;
            assert(quotes[k].id == rows_of_quotes(quotes, viewer)[r].id);
        } else {
            assert(quotes[quotes.len() - 1].id == rows_of_quotes(quotes, viewer)[r].id);
        }
    }
}

/// Every quote built from rows carries the id of one of the rows.
pub proof fn lemma_assembled_from_rows(rows: Seq<RowView>, names: Seq<UserView>, k: int)
    requires
        0 <= k < crate::reconstruct::assemble(rows, names).len(),
    ensures
        exists|r: int|
            0 <= r < rows.len() && (#[trigger] rows[r]).id == crate::reconstruct::assemble(
                rows,
                names,
            )[k].id,
    decreases rows.len(),
{
    if rows.len() > 0 {
        let built = crate::reconstruct::assemble(rows.drop_last(), names);
        let out = crate::reconstruct::assemble(rows, names);
        if k < built.len() {
            assert(out[k].id == built[k].id);
            lemma_assembled_from_rows(rows.drop_last(), names, k);
            let r = choose|r: int|
                0 <= r < rows.drop_last().len() && (#[trigger] rows.drop_last()[r]).id
                    == built[k].id;
            assert(rows[r].id == out[k].id);
        } else {
            assert(rows[rows.len() - 1].id == out[k].id);
        }
    }
}

/// Whatever a listing returns is a quote of the store that passes the
/// filters and that the viewer may see. So a viewer who is not privileged
/// gets a hidden quote only if they are its submitter or one of its
/// speakers, and a listing with a cursor holds only quotes with ids below
/// it, whatever the cursor is.
pub proof fn law_listing_shows_only_visible(
    state: StoreState,
    filter: FilterView,
    viewer: Text,
    privileged: bool,
    names: Seq<UserView>,
    k: int,
)
    requires
        state.wf(),
        0 <= k < crate::reconstruct::assemble(
            crate::listing::listing_rows(state, filter, viewer, privileged),
            names,
        ).len(),
    ensures
        ({
            let shown = crate::reconstruct::assemble(
                crate::listing::listing_rows(state, filter, viewer, privileged),
                names,
            )[k];
            let quote = state.quotes[position(state.quotes, shown.id)];
            &&& has_quote(state.quotes, shown.id)
            &&& listed(quote, filter, viewer, privileged)
            &&& visible(quote, viewer, privileged)
            &&& !privileged && quote.hidden is Some ==> involved(quote, viewer)
            &&& filter.lt matches Some(cursor) ==> shown.id < cursor
        }),
{
    let limit = crate::state::page_size(filter.limit);
    let picked = select(state.quotes, filter, viewer, privileged, limit);
    let rows = rows_of_quotes(picked, viewer);
    lemma_assembled_from_rows(rows, names, k);
    let shown = crate::reconstruct::assemble(rows, names)[k];
    let r = choose|r: int| 0 <= r < rows.len() && (#[trigger] rows[r]).id == shown.id;
    lemma_rows_belong(picked, viewer, r);
    let j = choose|j: int| 0 <= j < picked.len() && (#[trigger] picked[j]).id == rows[r].id;
    law_selected_are_listed(state.quotes, filter, viewer, privileged, limit);
    assert(listed(picked[j], filter, viewer, privileged));
    assert(state.quotes.contains(picked[j]));
    let i = choose|i: int| 0 <= i < state.quotes.len() && state.quotes[i] == picked[j];
    lemma_position(state, i);
}

/// Asking for one quote returns that quote, and only if the viewer may see
/// it.
pub proof fn law_single_quote_is_visible(
    state: StoreState,
    id: i32,
    viewer: Text,
    privileged: bool,
    names: Seq<UserView>,
)
    requires
        state.wf(),
        crate::listing::single_quote(state, id, viewer, privileged, names) is Some,
    ensures
        has_quote(state.quotes, id),
        crate::listing::single_quote(state, id, viewer, privileged, names).unwrap().id == id,
        visible(quote_by_id(state.quotes, id), viewer, privileged),
        !privileged && quote_by_id(state.quotes, id).hidden is Some ==> involved(
            quote_by_id(state.quotes, id),
            viewer,
        ),
{
    let rows = crate::listing::single_rows(state, id, viewer, privileged);
    lemma_assembled_from_rows(rows, names, 0);
}

/// A privileged viewer may see every quote, hidden or not. With no filter
/// set and a limit that does not cut the listing short, their listing holds
/// every quote of the store.
pub proof fn law_privileged_sees_all(
    quotes: Seq<QuoteState>,
    filter: FilterView,
    viewer: Text,
    limit: nat,
)
    requires
        forall|i: int| 0 <= i < quotes.len() ==> quote_wf(#[trigger] quotes[i]),
        filter.q is None,
        filter.speaker is None,
        filter.submitter is None,
        filter.involved is None,
        filter.hidden is None,
        filter.lt is None,
        filter.favorited != Some(true),
        limit >= quotes.len(),
    ensures
        forall|i: int| 0 <= i < quotes.len() ==> visible(#[trigger] quotes[i], viewer, true),
        select(quotes, filter, viewer, true, limit) == quotes.reverse(),
    decreases quotes.len(),
{
    if quotes.len() == 0 {
        assert(select(quotes, filter, viewer, true, limit) =~= quotes.reverse());
    } else {
        let last = quotes.last();
        assert(quote_wf(last));
        assert(crate::state::shard_matches(last.shards[0], filter));
        assert(listed(last, filter, viewer, true));
        assert forall|i: int| 0 <= i < quotes.drop_last().len() implies quote_wf(
            #[trigger] quotes.drop_last()[i],
        ) by {
            assert(quote_wf(quotes[i]));
        }
        law_privileged_sees_all(quotes.drop_last(), filter, viewer, (limit - 1) as nat);
        assert(select(quotes, filter, viewer, true, limit) =~= quotes.reverse());
    }
}

// Reconstruction

/// Whether the directory answer names the submitter and every speaker of
/// the quote.
pub open spec fn all_named(quote: QuoteState, names: Seq<UserView>) -> bool {
    &&& crate::directory::display_name(names, quote.submitter) is Some
    &&& forall|k: int|
        0 <= k < quote.shards.len() ==> crate::directory::display_name(
            names,
            (#[trigger] quote.shards[k]).speaker,
        ) is Some
}

/// A member named by the directory answer.
pub open spec fn named(names: Seq<UserView>, uid: Text) -> UserView {
    UserView { uid, cn: crate::directory::display_name(names, uid).unwrap() }
}

/// A stored quote as `viewer` receives it when the directory names all its
/// members: the shards in stored order, the score of its votes, the viewer's
/// own vote and favorite, and the hidden record if the directory names who
/// made it.
pub open spec fn shown(quote: QuoteState, viewer: Text, names: Seq<UserView>) -> QuoteView {
    QuoteView {
        id: quote.id,
        shards: quote.shards.map_values(
            |s: crate::state::ShardState|
                crate::model::ShardView { body: s.body, speaker: named(names, s.speaker) },
        ),
        timestamp: quote.timestamp,
        score: score(quote.votes) as i64,
        vote: vote_of(quote.votes, viewer),
        submitter: named(names, quote.submitter),
        hidden: match quote.hidden {
            Some(h) => match crate::directory::display_name(names, h.actor) {
                Some(cn) => Some(
                    crate::model::HiddenView {
                        reason: h.reason,
                        actor: UserView { uid: h.actor, cn },
                    },
                ),
                None => None,
            },
            None => None,
        },
        favorited: quote.favorites.contains(viewer),
    }
}

/// The first `n` rows of a quote, read after any rows before them, add one
/// quote that holds the first `n` shards.
pub proof fn lemma_assemble_quote(
    prior: Seq<RowView>,
    quote: QuoteState,
    viewer: Text,
    names: Seq<UserView>,
    n: int,
)
    requires
        quote_wf(quote),
        all_named(quote, names),
        1 <= n <= quote.shards.len(),
    ensures
        crate::reconstruct::assemble(prior + quote_rows(quote, viewer).take(n), names)
            == crate::reconstruct::assemble(prior, names).push(
            QuoteView {
                shards: shown(quote, viewer, names).shards.take(n),
                ..shown(quote, viewer, names)
            },
        ),
    decreases n,
{
    let rows = quote_rows(quote, viewer);
    let whole = shown(quote, viewer, names);
    let read = prior + rows.take(n);
    let row = rows[n - 1];
    assert(read.last() == row);
    assert(read.drop_last() =~= prior + rows.take(n - 1));
    assert(crate::directory::display_name(names, quote.shards[n - 1].speaker) is Some);
    let shard = crate::model::ShardView {
        body: row.body,
        speaker: named(names, row.speaker),
    };
    assert(whole.shards[n - 1] == shard);
    if n == 1 {
        assert(prior + rows.take(0) =~= prior);
        assert(whole.shards.take(1) =~= seq![shard]);
    } else {
        lemma_assemble_quote(prior, quote, viewer, names, n - 1);
        let built = crate::reconstruct::assemble(prior, names).push(
            QuoteView { shards: whole.shards.take(n - 1), ..whole },
        );
        assert(built.last().id == row.id);
        assert(whole.shards.take(n - 1).push(shard) =~= whole.shards.take(n));
        assert(crate::reconstruct::absorb_row(built, row, names) =~= crate::reconstruct::assemble(
            prior,
            names,
        ).push(QuoteView { shards: whole.shards.take(n), ..whole }));
    }
}

/// The rows of a stored quote stand for that quote and nothing else, when
/// the directory names all its members.
pub proof fn law_rows_rebuild_quote(quote: QuoteState, viewer: Text, names: Seq<UserView>)
    requires
        quote_wf(quote),
        all_named(quote, names),
    ensures
        crate::reconstruct::assemble(quote_rows(quote, viewer), names) == seq![
            shown(quote, viewer, names),
        ],
{
    let rows = quote_rows(quote, viewer);
    let whole = shown(quote, viewer, names);
    let n = quote.shards.len() as int;
    lemma_assemble_quote(Seq::empty(), quote, viewer, names, n);
    assert(Seq::<RowView>::empty() + rows.take(n) =~= rows);
    assert(whole.shards.take(n) =~= whole.shards);
    let none = crate::reconstruct::assemble(Seq::<RowView>::empty(), names);
    assert(none.push(whole) =~= seq![whole]);
}

/// The rows of a run of stored quotes stand for those quotes, one for one
/// and in the same order, when the directory names all their members.
pub proof fn law_rows_rebuild_quotes(quotes: Seq<QuoteState>, viewer: Text, names: Seq<UserView>)
    requires
        forall|i: int|
            0 <= i < quotes.len() ==> quote_wf(#[trigger] quotes[i]) && all_named(quotes[i], names),
    ensures
        crate::reconstruct::assemble(rows_of_quotes(quotes, viewer), names) == quotes.map_values(
            |q: QuoteState| shown(q, viewer, names),
        ),
    decreases quotes.len(),
{
    let out = crate::reconstruct::assemble(rows_of_quotes(quotes, viewer), names);
    let want = quotes.map_values(|q: QuoteState| shown(q, viewer, names));
    if quotes.len() == 0 {
        assert(out =~= want);
    } else {
        let last = quotes.last();
        let earlier = quotes.drop_last();
        assert(quote_wf(last) && all_named(last, names));
        assert forall|i: int| 0 <= i < earlier.len() implies quote_wf(#[trigger] earlier[i])
            && all_named(earlier[i], names) by {
            assert(quote_wf(quotes[i]) && all_named(quotes[i], names));
        }
        law_rows_rebuild_quotes(earlier, viewer, names);
        let prior = rows_of_quotes(earlier, viewer);
        let rows = quote_rows(last, viewer);
        let whole = shown(last, viewer, names);
        let n = last.shards.len() as int;
        lemma_assemble_quote(prior, last, viewer, names, n);
        assert(rows.take(n) =~= rows);
        assert(whole.shards.take(n) =~= whole.shards);
        assert(out =~= want);
    }
}

/// Rows in the order in which a query gives them: a row with an index
/// above 1 follows a row of the same quote.
pub open spec fn rows_in_order(rows: Seq<RowView>) -> bool {
    forall|j: int|
        0 <= j < rows.len() && (#[trigger] rows[j]).index != 1 ==> j > 0 && rows[j - 1].id
            == rows[j].id
}

/// Whether the directory answer names the speaker and the submitter of
/// every row.
pub open spec fn rows_named(rows: Seq<RowView>, names: Seq<UserView>) -> bool {
    forall|j: int|
        0 <= j < rows.len() ==> crate::directory::display_name(
            names,
            (#[trigger] rows[j]).speaker,
        ) is Some && crate::directory::display_name(names, rows[j].submitter) is Some
}

/// How many shards the quotes hold together.
pub open spec fn shard_total(quotes: Seq<QuoteView>) -> nat
    decreases quotes.len(),
{
    if quotes.len() == 0 {
        0
    } else {
        shard_total(quotes.drop_last()) + quotes.last().shards.len()
    }
}

/// How many of the rows open a quote.
pub open spec fn opening_rows(rows: Seq<RowView>) -> nat
    decreases rows.len(),
{
    if rows.len() == 0 {
        0
    } else {
        opening_rows(rows.drop_last()) + if rows.last().index == 1 {
            1nat
        } else {
            0nat
        }
    }
}

/// A prefix of rows in order, all named, is in order and all named.
proof fn lemma_prefix_in_order(rows: Seq<RowView>, names: Seq<UserView>, n: int)
    requires
        rows_in_order(rows),
        rows_named(rows, names),
        0 <= n <= rows.len(),
    ensures
        rows_in_order(rows.take(n)),
        rows_named(rows.take(n), names),
{
    let head = rows.take(n);
    assert forall|j: int| 0 <= j < head.len() && (#[trigger] head[j]).index != 1 implies j > 0
        && head[j - 1].id == head[j].id by {
        assert(rows[j].index != 1);
    }
    assert forall|j: int| 0 <= j < head.len() implies crate::directory::display_name(
        names,
        (#[trigger] head[j]).speaker,
    ) is Some && crate::directory::display_name(names, head[j].submitter) is Some by {
        assert(rows[j].speaker == head[j].speaker);
    }
}

/// For any rows in order whose members the directory names, every row ends
/// up in the output: a row with index 1 opens a new quote that carries the
/// row's quote-level fields, and every other row is added as the last shard
/// of the quote opened last, which is its own quote.
pub proof fn law_rows_in_order_join_their_quote(rows: Seq<RowView>, names: Seq<UserView>, j: int)
    requires
        rows_in_order(rows),
        rows_named(rows, names),
        0 <= j < rows.len(),
    ensures
        ({
            let before = crate::reconstruct::assemble(rows.take(j), names);
            let after = crate::reconstruct::assemble(rows.take(j + 1), names);
            let shard = crate::model::ShardView {
                body: rows[j].body,
                speaker: named(names, rows[j].speaker),
            };
            &&& after.len() > 0
            &&& after.last().id == rows[j].id
            &&& after.last().shards.last() == shard
            &&& rows[j].index == 1 ==> after == before.push(
                crate::reconstruct::opened_quote(
                    rows[j],
                    named(names, rows[j].speaker),
                    named(names, rows[j].submitter),
                    names,
                ),
            )
            &&& rows[j].index != 1 ==> before.len() > 0 && before.last().id == rows[j].id && after
                == before.update(
                before.len() - 1,
                crate::reconstruct::with_shard(before.last(), shard),
            )
        }),
    decreases j,
{
    let read = rows.take(j + 1);
    assert(read.last() == rows[j]);
    assert(read.drop_last() =~= rows.take(j));
    assert(crate::directory::display_name(names, rows[j].speaker) is Some);
    assert(crate::directory::display_name(names, rows[j].submitter) is Some);
    if rows[j].index != 1 {
        assert(j > 0 && rows[j - 1].id == rows[j].id);
        law_rows_in_order_join_their_quote(rows, names, j - 1);
        assert(rows.take(j - 1 + 1) =~= rows.take(j));
    }
}

/// For any rows in order whose members the directory names, the output
/// holds as many quotes as rows have index 1 and as many shards as there are
/// rows: none is lost and none is counted twice.
pub proof fn law_rows_in_order_are_all_kept(rows: Seq<RowView>, names: Seq<UserView>)
    requires
        rows_in_order(rows),
        rows_named(rows, names),
    ensures
        crate::reconstruct::assemble(rows, names).len() == opening_rows(rows),
        shard_total(crate::reconstruct::assemble(rows, names)) == rows.len(),
    decreases rows.len(),
{
    if rows.len() > 0 {
        let j = rows.len() - 1;
        let earlier = rows.drop_last();
        assert(earlier =~= rows.take(j));
        assert(rows.take(j + 1) =~= rows);
        lemma_prefix_in_order(rows, names, j);
        law_rows_in_order_are_all_kept(earlier, names);
        law_rows_in_order_join_their_quote(rows, names, j);
        let before = crate::reconstruct::assemble(earlier, names);
        let after = crate::reconstruct::assemble(rows, names);
        if rows[j].index == 1 {
            assert(after.drop_last() =~= before);
        } else {
            assert(after.drop_last() =~= before.drop_last());
        }
    }
}

} // verus!
