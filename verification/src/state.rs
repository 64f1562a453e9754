//! The state of the store as contracts see it, and the rules that are read
//! off it: who may see a quote, what a quote scores, what a vote changes.

use vstd::prelude::*;
use crate::model::{FilterView, RowView, Text, Vote};
use crate::text::contains_ignoring_case;

verus! {

/// The most shards a quote may have.
pub const MAX_SHARDS: usize = 6;

/// The fewest characters a reason for hiding may have.
pub const MIN_REASON_CHARS: usize = 10;

/// How many quotes a listing returns when it names no limit.
pub const DEFAULT_LIMIT: i64 = 10;

/// The limit that asks for every quote.
pub const NO_LIMIT: i64 = -1;

pub struct ShardState {
    pub body: Text,
    pub speaker: Text,
}

pub struct VoteState {
    pub voter: Text,
    pub vote: Vote,
}

pub struct ReportState {
    pub id: i32,
    pub reason: Text,
    pub reporter: Seq<u8>,
    pub timestamp: i64,
    pub resolver: Option<Text>,
}

pub struct HiddenState {
    pub reason: Text,
    pub actor: Text,
    pub timestamp: i64,
}

/// A quote and all that depends on it.
pub struct QuoteState {
    pub id: i32,
    pub submitter: Text,
    pub timestamp: i64,
    pub shards: Seq<ShardState>,
    pub votes: Seq<VoteState>,
    pub favorites: Seq<Text>,
    pub reports: Seq<ReportState>,
    pub hidden: Option<HiddenState>,
}

/// The whole store: the quotes in the order of their creation, and the ids
/// that the next quote and the next report will get.
pub struct StoreState {
    pub quotes: Seq<QuoteState>,
    pub next_quote_id: i32,
    pub next_report_id: i32,
}

// Votes

/// No member has two votes among `votes`.
pub open spec fn distinct_voters(votes: Seq<VoteState>) -> bool {
    forall|i: int, j: int|
        0 <= i < j < votes.len() ==> (#[trigger] votes[i]).voter != (#[trigger] votes[j]).voter
}

/// Whether `voter` has a vote among `votes`.
pub open spec fn has_voted(votes: Seq<VoteState>, voter: Text) -> bool {
    exists|i: int| 0 <= i < votes.len() && (#[trigger] votes[i]).voter == voter
}

/// Where the vote of `voter` stands among `votes`.
pub open spec fn vote_position(votes: Seq<VoteState>, voter: Text) -> int {
    choose|i: int| 0 <= i < votes.len() && (#[trigger] votes[i]).voter == voter
}

/// The vote that `voter` has among `votes`, if any.
pub open spec fn vote_of(votes: Seq<VoteState>, voter: Text) -> Option<Vote> {
    if has_voted(votes, voter) {
        Some(votes[vote_position(votes, voter)].vote)
    } else {
        None
    }
}

/// The votes after `voter` has voted `vote`: an earlier vote of theirs is
/// overwritten in place, otherwise the new vote is added.
pub open spec fn upsert_vote(votes: Seq<VoteState>, voter: Text, vote: Vote) -> Seq<VoteState> {
    if has_voted(votes, voter) {
        votes.update(vote_position(votes, voter), VoteState { voter, vote })
    } else {
        votes.push(VoteState { voter, vote })
    }
}

/// The votes after the vote of `voter` has been taken back.
pub open spec fn without_vote(votes: Seq<VoteState>, voter: Text) -> Seq<VoteState> {
    if has_voted(votes, voter) {
        votes.remove(vote_position(votes, voter))
    } else {
        votes
    }
}

/// The score of a quote: one up for each upvote, one down for each downvote.
pub open spec fn score(votes: Seq<VoteState>) -> int
    decreases votes.len(),
{
    if votes.len() == 0 {
        0
    } else {
        score(votes.drop_last()) + votes.last().vote.weight()
    }
}

/// How many of the votes have the value `vote`.
pub open spec fn count_votes(votes: Seq<VoteState>, vote: Vote) -> nat
    decreases votes.len(),
{
    if votes.len() == 0 {
        0
    } else {
        count_votes(votes.drop_last(), vote) + if votes.last().vote == vote {
            1nat
        } else {
            0nat
        }
    }
}

// Reports

/// No identity has two reports among `reports`.
pub open spec fn distinct_reporters(reports: Seq<ReportState>) -> bool {
    forall|i: int, j: int|
        0 <= i < j < reports.len() ==> (#[trigger] reports[i]).reporter
            != (#[trigger] reports[j]).reporter
}

/// The reports stand in the order of their ids.
pub open spec fn ascending_reports(reports: Seq<ReportState>) -> bool {
    forall|i: int, j: int|
        0 <= i < j < reports.len() ==> (#[trigger] reports[i]).id < (#[trigger] reports[j]).id
}

/// Whether the identity `reporter` has a report among `reports`.
pub open spec fn has_reported(reports: Seq<ReportState>, reporter: Seq<u8>) -> bool {
    exists|i: int| 0 <= i < reports.len() && (#[trigger] reports[i]).reporter == reporter
}

/// Whether one of the reports is open.
pub open spec fn has_open_report(reports: Seq<ReportState>) -> bool {
    exists|i: int| 0 <= i < reports.len() && (#[trigger] reports[i]).resolver is None
}

/// The reason of the first open report, if one is open.
pub open spec fn first_open_reason(reports: Seq<ReportState>) -> Option<Text>
    decreases reports.len(),
{
    if reports.len() == 0 {
        None
    } else if reports.first().resolver is None {
        Some(reports.first().reason)
    } else {
        first_open_reason(reports.drop_first())
    }
}

/// A report once `resolver` has resolved it; a resolved report stays as it is.
pub open spec fn resolve_one(report: ReportState, resolver: Text) -> ReportState {
    if report.resolver is None {
        ReportState { resolver: Some(resolver), ..report }
    } else {
        report
    }
}

/// The reports once `resolver` has resolved every open one.
pub open spec fn resolve_all(reports: Seq<ReportState>, resolver: Text) -> Seq<ReportState> {
    reports.map_values(|r: ReportState| resolve_one(r, resolver))
}

// Quotes

/// Whether `who` is the speaker of one of the quote's shards.
pub open spec fn is_speaker(quote: QuoteState, who: Text) -> bool {
    exists|k: int| 0 <= k < quote.shards.len() && (#[trigger] quote.shards[k]).speaker == who
}

/// Whether `who` is party to the quote: its submitter or one of its speakers.
pub open spec fn involved(quote: QuoteState, who: Text) -> bool {
    quote.submitter == who || is_speaker(quote, who)
}

/// Whether `viewer` may see the quote. A privileged viewer sees every quote.
/// Anyone else sees a hidden quote only when they are party to it, and sees
/// every quote that is not hidden.
pub open spec fn visible(quote: QuoteState, viewer: Text, privileged: bool) -> bool {
    if privileged {
        true
    } else if quote.hidden is Some && involved(quote, viewer) {
        true
    } else {
        quote.hidden is None
    }
}

/// What every stored quote satisfies.
pub open spec fn quote_wf(quote: QuoteState) -> bool {
    &&& 1 <= quote.shards.len() <= MAX_SHARDS
    &&& !is_speaker(quote, quote.submitter)
    &&& distinct_voters(quote.votes)
    &&& quote.votes.len() <= i64::MAX
    &&& quote.favorites.no_duplicates()
    &&& distinct_reporters(quote.reports)
    &&& ascending_reports(quote.reports)
}

/// Whether the store holds a quote with this id.
pub open spec fn has_quote(quotes: Seq<QuoteState>, id: i32) -> bool {
    exists|i: int| 0 <= i < quotes.len() && (#[trigger] quotes[i]).id == id
}

/// Where the quote with this id stands.
pub open spec fn position(quotes: Seq<QuoteState>, id: i32) -> int {
    choose|i: int| 0 <= i < quotes.len() && (#[trigger] quotes[i]).id == id
}

/// The quote with this id.
pub open spec fn quote_by_id(quotes: Seq<QuoteState>, id: i32) -> QuoteState {
    quotes[position(quotes, id)]
}

impl StoreState {
    /// What every state of the store satisfies: ids grow with the order of
    /// creation and stay below the next id to be given, and every quote is
    /// well formed.
    pub open spec fn wf(self) -> bool {
        &&& 1 <= self.next_quote_id
        &&& 1 <= self.next_report_id
        &&& forall|i: int, j: int|
            0 <= i < j < self.quotes.len() ==> (#[trigger] self.quotes[i]).id
                < (#[trigger] self.quotes[j]).id
        &&& forall|i: int|
            0 <= i < self.quotes.len() ==> {
                &&& quote_wf(#[trigger] self.quotes[i])
                &&& 1 <= self.quotes[i].id < self.next_quote_id
                &&& forall|k: int|
                    0 <= k < self.quotes[i].reports.len() ==> 1 <= (
                    #[trigger] self.quotes[i].reports[k]).id < self.next_report_id
            }
    }

    /// The store with the quote at position `i` replaced.
    pub open spec fn with_quote(self, i: int, quote: QuoteState) -> StoreState {
        StoreState { quotes: self.quotes.update(i, quote), ..self }
    }
}

/// The store before anything was created.
pub open spec fn empty_store() -> StoreState {
    StoreState { quotes: Seq::empty(), next_quote_id: 1, next_report_id: 1 }
}

// Rows

/// The row that stands for shard `k` of a quote, annotated for `viewer`.
/// Shards are numbered from 1 in the order in which they were submitted.
pub open spec fn quote_row(quote: QuoteState, viewer: Text, k: int) -> RowView {
    RowView {
        id: quote.id,
        index: (k + 1) as i16,
        body: quote.shards[k].body,
        submitter: quote.submitter,
        speaker: quote.shards[k].speaker,
        timestamp: quote.timestamp,
        vote: vote_of(quote.votes, viewer),
        score: score(quote.votes) as i64,
        hidden_reason: match quote.hidden {
            Some(h) => Some(h.reason),
            None => None,
        },
        hidden_actor: match quote.hidden {
            Some(h) => Some(h.actor),
            None => None,
        },
        favorited: quote.favorites.contains(viewer),
    }
}

/// The rows that stand for a quote: one for each shard, in shard order.
pub open spec fn quote_rows(quote: QuoteState, viewer: Text) -> Seq<RowView> {
    Seq::new(quote.shards.len(), |k: int| quote_row(quote, viewer, k))
}

/// The rows that stand for a sequence of quotes, quote after quote.
pub open spec fn rows_of_quotes(quotes: Seq<QuoteState>, viewer: Text) -> Seq<RowView>
    decreases quotes.len(),
{
    if quotes.len() == 0 {
        Seq::empty()
    } else {
        rows_of_quotes(quotes.drop_last(), viewer) + quote_rows(quotes.last(), viewer)
    }
}

// Listing

/// Whether a shard meets the text filter and the speaker filter together.
pub open spec fn shard_matches(shard: ShardState, filter: FilterView) -> bool {
    &&& filter.q matches Some(q) ==> contains_ignoring_case(shard.body, q)
    &&& filter.speaker matches Some(speaker) ==> shard.speaker == speaker
}

/// Whether one of the quote's shards meets the text and speaker filters.
pub open spec fn some_shard_matches(quote: QuoteState, filter: FilterView) -> bool {
    exists|k: int| 0 <= k < quote.shards.len() && shard_matches(#[trigger] quote.shards[k], filter)
}

/// Whether a listing made for `viewer` with this filter holds the quote:
/// the viewer may see it, it passes every filter that is set, and its id is
/// strictly below the cursor if there is one.
pub open spec fn listed(
    quote: QuoteState,
    filter: FilterView,
    viewer: Text,
    privileged: bool,
) -> bool {
    &&& visible(quote, viewer, privileged)
    &&& filter.hidden matches Some(hidden) ==> (quote.hidden is Some) == hidden
    &&& filter.lt matches Some(lt) ==> quote.id < lt
    &&& filter.submitter matches Some(submitter) ==> quote.submitter == submitter
    &&& filter.involved matches Some(who) ==> involved(quote, who)
    &&& some_shard_matches(quote, filter)
    &&& filter.favorited == Some(true) ==> quote.favorites.contains(viewer)
}

/// Whether the limit of a listing is one that can be served.
pub open spec fn limit_valid(limit: Option<i64>) -> bool {
    limit matches Some(n) ==> n >= NO_LIMIT
}

/// The most quotes that a listing with this limit returns.
pub open spec fn page_size(limit: Option<i64>) -> nat {
    match limit {
        None => DEFAULT_LIMIT as nat,
        Some(n) => if n == NO_LIMIT {
            i64::MAX as nat
        } else if n >= 0 {
            n as nat
        } else {
            0
        },
    }
}

/// The quotes of a listing: the newest first, only those that the listing
/// holds, and no more than `limit` of them.
pub open spec fn select(
    quotes: Seq<QuoteState>,
    filter: FilterView,
    viewer: Text,
    privileged: bool,
    limit: nat,
) -> Seq<QuoteState>
    decreases quotes.len(),
{
    if quotes.len() == 0 || limit == 0 {
        Seq::empty()
    } else if listed(quotes.last(), filter, viewer, privileged) {
        seq![quotes.last()] + select(
            quotes.drop_last(),
            filter,
            viewer,
            privileged,
            (limit - 1) as nat,
        )
    } else {
        select(quotes.drop_last(), filter, viewer, privileged, limit)
    }
}

} // verus!
