//! The store: quotes in the order of their creation, each with its shards,
//! votes, favorites, reports and hidden record.

use vstd::prelude::*;
use crate::model::{opt_text, Text, Vote};
use crate::state::{
    has_quote, has_voted, involved, is_speaker, position, score, visible, vote_of, vote_position,
    HiddenState, QuoteState, ReportState, ShardState, StoreState, VoteState,
};

verus! {

/// One fragment of a stored quote. Its index is its place among the
/// quote's shards, counted from 1.
#[derive(Debug)]
pub struct ShardRecord {
    pub body: String,
    pub speaker: String,
}

impl View for ShardRecord {
    type V = ShardState;

    open spec fn view(&self) -> ShardState {
        ShardState { body: self.body@, speaker: self.speaker@ }
    }
}

/// The vote of one member on one quote.
#[derive(Debug)]
pub struct VoteRecord {
    pub voter: String,
    pub vote: Vote,
}

impl View for VoteRecord {
    type V = VoteState;

    open spec fn view(&self) -> VoteState {
        VoteState { voter: self.voter@, vote: self.vote }
    }
}

/// A report of one quote. `submitter_hash` is the reporter's anonymous
/// identity; `resolver` is empty while the report is open.
#[derive(Debug)]
pub struct ReportRecord {
    pub id: i32,
    pub reason: String,
    pub submitter_hash: Vec<u8>,
    pub timestamp: i64,
    pub resolver: Option<String>,
}

impl View for ReportRecord {
    type V = ReportState;

    open spec fn view(&self) -> ReportState {
        ReportState {
            id: self.id,
            reason: self.reason@,
            reporter: self.submitter_hash@,
            timestamp: self.timestamp,
            resolver: opt_text(self.resolver),
        }
    }
}

/// The record that hides a quote.
#[derive(Debug)]
pub struct HiddenRecord {
    pub reason: String,
    pub actor: String,
    pub timestamp: i64,
}

impl View for HiddenRecord {
    type V = HiddenState;

    open spec fn view(&self) -> HiddenState {
        HiddenState { reason: self.reason@, actor: self.actor@, timestamp: self.timestamp }
    }
}

/// The view of an optional hidden record.
pub open spec fn opt_hidden_state(o: Option<HiddenRecord>) -> Option<HiddenState> {
    match o {
        Some(h) => Some(h@),
        None => None,
    }
}

pub open spec fn shards_state(shards: Seq<ShardRecord>) -> Seq<ShardState> {
    shards.map_values(|s: ShardRecord| s@)
}

pub open spec fn votes_state(votes: Seq<VoteRecord>) -> Seq<VoteState> {
    votes.map_values(|v: VoteRecord| v@)
}

pub open spec fn favorites_state(favorites: Seq<String>) -> Seq<Text> {
    favorites.map_values(|f: String| f@)
}

pub open spec fn reports_state(reports: Seq<ReportRecord>) -> Seq<ReportState> {
    reports.map_values(|r: ReportRecord| r@)
}

/// A stored quote and all that depends on it.
#[derive(Debug)]
pub struct QuoteRecord {
    pub id: i32,
    pub submitter: String,
    pub timestamp: i64,
    pub shards: Vec<ShardRecord>,
    pub votes: Vec<VoteRecord>,
    pub favorites: Vec<String>,
    pub reports: Vec<ReportRecord>,
    pub hidden: Option<HiddenRecord>,
}

impl View for QuoteRecord {
    type V = QuoteState;

    open spec fn view(&self) -> QuoteState {
        QuoteState {
            id: self.id,
            submitter: self.submitter@,
            timestamp: self.timestamp,
            shards: shards_state(self.shards@),
            votes: votes_state(self.votes@),
            favorites: favorites_state(self.favorites@),
            reports: reports_state(self.reports@),
            hidden: opt_hidden_state(self.hidden),
        }
    }
}

pub open spec fn quotes_state(quotes: Seq<QuoteRecord>) -> Seq<QuoteState> {
    quotes.map_values(|q: QuoteRecord| q@)
}

/// The store.
#[derive(Debug)]
pub struct Store {
    pub quotes: Vec<QuoteRecord>,
    pub next_quote_id: i32,
    pub next_report_id: i32,
}

impl View for Store {
    type V = StoreState;

    open spec fn view(&self) -> StoreState {
        StoreState {
            quotes: quotes_state(self.quotes@),
            next_quote_id: self.next_quote_id,
            next_report_id: self.next_report_id,
        }
    }
}

/// In a well-formed store a quote is found at one position only.
pub proof fn lemma_position(state: StoreState, i: int)
    requires
        state.wf(),
        0 <= i < state.quotes.len(),
    ensures
        has_quote(state.quotes, state.quotes[i].id),
        position(state.quotes, state.quotes[i].id) == i,
{
    let id = state.quotes[i].id;
    let p = position(state.quotes, id);
    assert(0 <= p < state.quotes.len() && state.quotes[p].id == id);
    if p < i {
        assert(state.quotes[p].id < state.quotes[i].id);
    }
    if i < p {
        assert(state.quotes[i].id < state.quotes[p].id);
    }
}

/// Replacing quotes by quotes of the same ids moves none of them.
pub proof fn lemma_same_ids(state: StoreState, quotes: Seq<QuoteState>, id: i32)
    requires
        state.wf(),
        quotes.len() == state.quotes.len(),
        forall|i: int| 0 <= i < quotes.len() ==> (#[trigger] quotes[i]).id == state.quotes[i].id,
    ensures
        has_quote(quotes, id) == has_quote(state.quotes, id),
        has_quote(quotes, id) ==> position(quotes, id) == position(state.quotes, id),
{
    if has_quote(quotes, id) {
        let p = position(quotes, id);
        assert(state.quotes[p].id == id);
        lemma_position(state, p);
    }
    if has_quote(state.quotes, id) {
        let p = position(state.quotes, id);
        assert(quotes[p].id == id);
    }
}

/// A well-formed store stays well formed when one quote is replaced by a
/// well-formed quote of the same id whose reports have ids already given.
pub proof fn lemma_replaced(state: StoreState, at: int, quote: QuoteState)
    requires
        state.wf(),
        0 <= at < state.quotes.len(),
        quote.id == state.quotes[at].id,
        crate::state::quote_wf(quote),
        forall|k: int|
            0 <= k < quote.reports.len() ==> 1 <= (#[trigger] quote.reports[k]).id
                < state.next_report_id,
    ensures
        state.with_quote(at, quote).wf(),
        has_quote(state.with_quote(at, quote).quotes, quote.id),
        position(state.with_quote(at, quote).quotes, quote.id) == at,
{
    let after = state.with_quote(at, quote);
    assert forall|i: int, j: int| 0 <= i < j < after.quotes.len() implies (
    #[trigger] after.quotes[i]).id < (#[trigger] after.quotes[j]).id by {
        assert(state.quotes[i].id < state.quotes[j].id);
    }
    assert forall|q: int| 0 <= q < after.quotes.len() implies {
        &&& crate::state::quote_wf(#[trigger] after.quotes[q])
        &&& 1 <= after.quotes[q].id < after.next_quote_id
        &&& forall|k: int|
            0 <= k < after.quotes[q].reports.len() ==> 1 <= (
            #[trigger] after.quotes[q].reports[k]).id < after.next_report_id
    } by {
        assert(crate::state::quote_wf(state.quotes[q]));
        if q != at {
            assert forall|k: int| 0 <= k < after.quotes[q].reports.len() implies 1 <= (
            #[trigger] after.quotes[q].reports[k]).id < after.next_report_id by {
                assert(1 <= state.quotes[q].reports[k].id < state.next_report_id);
            }
        }
    }
    lemma_position(after, at);
}

/// Among votes of distinct members a member's vote is found at one
/// position only.
pub proof fn lemma_vote_position(votes: Seq<VoteState>, j: int)
    requires
        crate::state::distinct_voters(votes),
        0 <= j < votes.len(),
    ensures
        has_voted(votes, votes[j].voter),
        vote_position(votes, votes[j].voter) == j,
        vote_of(votes, votes[j].voter) == Some(votes[j].vote),
{
    let voter = votes[j].voter;
    let p = vote_position(votes, voter);
    assert(0 <= p < votes.len() && votes[p].voter == voter);
    if p < j {
        assert(votes[p].voter != votes[j].voter);
    }
    if j < p {
        assert(votes[j].voter != votes[p].voter);
    }
}

impl Store {
    /// Whether the store satisfies what every state of it satisfies.
    pub open spec fn wf(&self) -> bool {
        self@.wf()
    }

    /// A store that holds nothing. The first quote and the first report get
    /// the id 1.
    pub fn new() -> (store: Store)
        ensures
            store.wf(),
            store@ == crate::state::empty_store(),
    {
        let store = Store { quotes: Vec::new(), next_quote_id: 1, next_report_id: 1 };
        proof {
            assert(store@.quotes =~= Seq::<QuoteState>::empty());
        }
        store
    }

    /// Where the quote with this id stands, if the store holds it.
    pub fn find(&self, id: i32) -> (found: Option<usize>)
        requires
            self.wf(),
        ensures
            found is Some == has_quote(self@.quotes, id),
            found matches Some(i) ==> i < self.quotes.len() && i == position(self@.quotes, id)
                && self.quotes@[i as int].id == id,
    {
        let mut i: usize = 0;
        while i < self.quotes.len()
            invariant
                self.wf(),
                i <= self.quotes.len(),
                forall|k: int| 0 <= k < i ==> (#[trigger] self@.quotes[k]).id != id,
            decreases self.quotes.len() - i,
        {
            if self.quotes[i].id == id {
                proof {
                    assert(self@.quotes[i as int].id == id);
                    lemma_position(self@, i as int);
                }
                return Some(i);
            }
            i += 1;
        }
        None
    }
}

impl QuoteRecord {
    /// Whether `who` is the speaker of one of this quote's shards.
    pub fn has_speaker(&self, who: &String) -> (found: bool)
        ensures
            found == is_speaker(self@, who@),
    {
        let mut k: usize = 0;
        while k < self.shards.len()
            invariant
                k <= self.shards.len(),
                forall|j: int| 0 <= j < k ==> (#[trigger] self@.shards[j]).speaker != who@,
            decreases self.shards.len() - k,
        {
            if self.shards[k].speaker == *who {
                assert(self@.shards[k as int].speaker == who@);
                return true;
            }
            k += 1;
        }
        false
    }

    /// Whether `who` is party to this quote.
    pub fn involves(&self, who: &String) -> (found: bool)
        ensures
            found == involved(self@, who@),
    {
        self.submitter == *who || self.has_speaker(who)
    }

    /// Whether `viewer` may see this quote.
    pub fn visible_to(&self, viewer: &String, privileged: bool) -> (seen: bool)
        ensures
            seen == visible(self@, viewer@, privileged),
    {
        if privileged {
            true
        } else if self.hidden.is_some() && self.involves(viewer) {
            true
        } else {
            self.hidden.is_none()
        }
    }

    /// Where the vote of `voter` stands among this quote's votes.
    pub fn find_vote(&self, voter: &String) -> (found: Option<usize>)
        requires
            crate::state::distinct_voters(self@.votes),
        ensures
            found is Some == has_voted(self@.votes, voter@),
            found matches Some(j) ==> j < self.votes.len() && j == vote_position(
                self@.votes,
                voter@,
            ) && self.votes@[j as int].voter@ == voter@,
    {
        let mut j: usize = 0;
        while j < self.votes.len()
            invariant
                crate::state::distinct_voters(self@.votes),
                j <= self.votes.len(),
                forall|k: int| 0 <= k < j ==> (#[trigger] self@.votes[k]).voter != voter@,
            decreases self.votes.len() - j,
        {
            if self.votes[j].voter == *voter {
                proof {
                    assert(self@.votes[j as int].voter == voter@);
                    lemma_vote_position(self@.votes, j as int);
                }
                return Some(j);
            }
            j += 1;
        }
        None
    }

    /// The vote that `voter` has on this quote, if any.
    pub fn vote_by(&self, voter: &String) -> (vote: Option<Vote>)
        requires
            crate::state::distinct_voters(self@.votes),
        ensures
            vote == vote_of(self@.votes, voter@),
    {
        match self.find_vote(voter) {
            Some(j) => {
                assert(self@.votes[j as int] == self.votes@[j as int]@);
                Some(self.votes[j].vote)
            },
            None => None,
        }
    }

    /// The score of this quote.
    pub fn tally(&self) -> (total: i64)
        requires
            self@.votes.len() <= i64::MAX,
        ensures
            total == score(self@.votes),
    {
        let mut total: i64 = 0;
        let mut j: usize = 0;
        while j < self.votes.len()
            invariant
                j <= self.votes.len(),
                self@.votes.len() <= i64::MAX,
                total == score(self@.votes.take(j as int)),
                -j <= total <= j,
            decreases self.votes.len() - j,
        {
            proof {
                assert(self@.votes.take(j + 1).drop_last() =~= self@.votes.take(j as int));
                assert(self@.votes.take(j + 1).last() == self.votes@[j as int]@);
            }
            total = total + self.votes[j].vote.score_delta();
            j += 1;
        }
        proof {
            assert(self@.votes.take(j as int) =~= self@.votes);
        }
        total
    }

    /// Whether `username` has this quote among their favorites.
    pub fn favorite_of(&self, username: &String) -> (found: Option<usize>)
        ensures
            found is Some == self@.favorites.contains(username@),
            found matches Some(j) ==> j < self.favorites.len() && self@.favorites[j as int]
                == username@,
    {
        let mut j: usize = 0;
        while j < self.favorites.len()
            invariant
                j <= self.favorites.len(),
                forall|k: int| 0 <= k < j ==> self@.favorites[k] != username@,
            decreases self.favorites.len() - j,
        {
            if self.favorites[j] == *username {
                assert(self@.favorites[j as int] == username@);
                return Some(j);
            }
            j += 1;
        }
        None
    }
}

} // verus!
