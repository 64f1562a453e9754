//! Submitting a quote and taking it back.
//!
//! A submission is checked before anything is written. The checks run in a
//! fixed order and the first one that fails names the rejection: the number
//! of shards; then, shard by shard, whether the speaker is quotable, whether
//! their identifier is well formed and whether they are the submitter; then
//! the submitter's own identifier; last, whether the directory knows everyone
//! named.

use vstd::prelude::*;
use vstd::string::*;
use crate::directory::{holds_texts, index_texts, texts_view};
use crate::model::{NewQuote, NewShardView, Text, User};
use crate::response::Rejection;
use crate::state::{
    has_quote, position, quote_by_id, QuoteState, ShardState, StoreState, MAX_SHARDS,
};
use crate::store::{QuoteRecord, ShardRecord, Store};
use crate::text::{is_valid_username, valid_username};

verus! {

/// What is wrong with the number of shards, if anything.
pub open spec fn count_fault(shards: Seq<NewShardView>) -> Option<Rejection> {
    if shards.len() == 0 {
        Some(Rejection::NoShards)
    } else if shards.len() > MAX_SHARDS {
        Some(Rejection::TooManyShards)
    } else {
        None
    }
}

/// What is wrong with the speaker of one shard, if anything.
pub open spec fn speaker_fault(
    shard: NewShardView,
    submitter: Text,
    quotable: Seq<Text>,
) -> Option<Rejection> {
    if !quotable.contains(shard.speaker) {
        Some(Rejection::UnquotableSpeaker)
    } else if !valid_username(shard.speaker) {
        Some(Rejection::InvalidSpeaker)
    } else if shard.speaker == submitter {
        Some(Rejection::SelfQuote)
    } else {
        None
    }
}

/// What is wrong with the first shard that has something wrong with it.
pub open spec fn first_speaker_fault(
    shards: Seq<NewShardView>,
    submitter: Text,
    quotable: Seq<Text>,
) -> Option<Rejection>
    decreases shards.len(),
{
    if shards.len() == 0 {
        None
    } else {
        match speaker_fault(shards.first(), submitter, quotable) {
            Some(fault) => Some(fault),
            None => first_speaker_fault(shards.drop_first(), submitter, quotable),
        }
    }
}

/// What is wrong with the members that a submission names, if anything: the
/// first fault among the speakers, else a malformed submitter.
pub open spec fn member_fault(
    shards: Seq<NewShardView>,
    submitter: Text,
    quotable: Seq<Text>,
) -> Option<Rejection> {
    match first_speaker_fault(shards, submitter, quotable) {
        Some(fault) => Some(fault),
        None => if valid_username(submitter) {
            None
        } else {
            Some(Rejection::InvalidSubmitter)
        },
    }
}

/// Why a submission is turned down, if it is. `quotable` is the directory's
/// list of quotable members; `all_exist` is its answer to whether it knows
/// every speaker and the submitter.
pub open spec fn submission_fault(
    shards: Seq<NewShardView>,
    submitter: Text,
    quotable: Seq<Text>,
    all_exist: bool,
) -> Option<Rejection> {
    match count_fault(shards) {
        Some(fault) => Some(fault),
        None => match member_fault(shards, submitter, quotable) {
            Some(fault) => Some(fault),
            None => if all_exist {
                None
            } else {
                Some(Rejection::UnknownUsers)
            },
        },
    }
}

/// Where no shard has a fault, no speaker is the submitter, and every
/// speaker is quotable and well formed.
pub proof fn lemma_no_speaker_fault(shards: Seq<NewShardView>, submitter: Text, quotable: Seq<Text>)
    requires
        first_speaker_fault(shards, submitter, quotable) is None,
    ensures
        forall|k: int|
            0 <= k < shards.len() ==> speaker_fault(#[trigger] shards[k], submitter, quotable)
                is None,
    decreases shards.len(),
{
    if shards.len() > 0 {
        lemma_no_speaker_fault(shards.drop_first(), submitter, quotable);
        assert forall|k: int| 0 <= k < shards.len() implies speaker_fault(
            #[trigger] shards[k],
            submitter,
            quotable,
        ) is None by {
            if k > 0 {
                assert(shards[k] == shards.drop_first()[k - 1]);
            }
        }
    }
}

/// Checks the number of shards of a submission.
pub fn check_shard_count(body: &NewQuote) -> (verdict: Result<(), Rejection>)
    ensures
        match count_fault(body@) {
            Some(fault) => verdict == Err::<(), Rejection>(fault),
            None => verdict is Ok,
        },
{
    if body.shards.len() == 0 {
        Err(Rejection::NoShards)
    } else if body.shards.len() > MAX_SHARDS {
        Err(Rejection::TooManyShards)
    } else {
        Ok(())
    }
}

/// Checks the members that a submission names against the list of quotable
/// members: the speakers shard by shard, then the submitter.
pub fn check_members(
    body: &NewQuote,
    user: &User,
    quotable: &Vec<String>,
) -> (verdict: Result<(), Rejection>)
    ensures
        match member_fault(body@, user.preferred_username@, texts_view(quotable@)) {
            Some(fault) => verdict == Err::<(), Rejection>(fault),
            None => verdict is Ok,
        },
{
    let ghost shards = body@;
    let ghost submitter = user.preferred_username@;
    let ghost known = texts_view(quotable@);
    let members = index_texts(quotable);
    let mut i: usize = 0;
    proof {
        assert(shards.skip(0) =~= shards);
    }
    while i < body.shards.len()
        invariant
            i <= body.shards.len(),
            shards == body@,
            submitter == user.preferred_username@,
            known == texts_view(quotable@),
            holds_texts(members@, known),
            first_speaker_fault(shards, submitter, known) == first_speaker_fault(
                shards.skip(i as int),
                submitter,
                known,
            ),
        decreases body.shards.len() - i,
    {
        let shard = &body.shards[i];
        proof {
            assert(shards.skip(i as int).first() == shard@);
            assert(shards.skip(i as int).drop_first() =~= shards.skip(i + 1));
        }
        if !members.contains(shard.speaker.as_str()) {
            return Err(Rejection::UnquotableSpeaker);
        }
        if !is_valid_username(shard.speaker.as_str()) {
            return Err(Rejection::InvalidSpeaker);
        }
        if user.preferred_username == shard.speaker {
            return Err(Rejection::SelfQuote);
        }
        i += 1;
    }
    if !is_valid_username(user.preferred_username.as_str()) {
        return Err(Rejection::InvalidSubmitter);
    }
    Ok(())
}

/// The members whose existence the directory is asked to confirm for a
/// submission: the speakers in shard order, then the submitter.
pub fn members_to_confirm(body: &NewQuote, user: &User) -> (members: Vec<String>)
    ensures
        texts_view(members@) == body@.map_values(|s: NewShardView| s.speaker).push(
            user.preferred_username@,
        ),
{
    let mut members: Vec<String> = Vec::new();
    let mut i: usize = 0;
    while i < body.shards.len()
        invariant
            i <= body.shards.len(),
            texts_view(members@) == body@.take(i as int).map_values(|s: NewShardView| s.speaker),
        decreases body.shards.len() - i,
    {
        let ghost before = texts_view(members@);
        members.push(body.shards[i].speaker.clone());
        proof {
            assert(texts_view(members@) =~= before.push(body@[i as int].speaker));
            assert(body@.take(i + 1).map_values(|s: NewShardView| s.speaker) =~= before.push(
                body@[i as int].speaker,
            ));
        }
        i += 1;
    }
    let ghost before = texts_view(members@);
    members.push(user.preferred_username.clone());
    proof {
        assert(body@.take(i as int) =~= body@);
        assert(texts_view(members@) =~= before.push(user.preferred_username@));
    }
    members
}

/// A message for a member.
#[derive(Clone, Debug, PartialEq, Eq)]
pub struct Ping {
    pub recipient: String,
    pub message: String,
}

pub struct PingView {
    pub recipient: Text,
    pub message: Text,
}

impl View for Ping {
    type V = PingView;

    open spec fn view(&self) -> PingView {
        PingView { recipient: self.recipient@, message: self.message@ }
    }
}

/// The sentence that tells a speaker who quoted them.
pub open spec fn quoted_notice(submitter: Text) -> Text {
    "You were quoted by "@ + submitter + ". Check it out at Quotefault!"@
}

/// The message that goes to the speaker of one shard.
pub open spec fn ping_for(shard: NewShardView, submitter: Text) -> PingView {
    PingView { recipient: shard.speaker, message: quoted_notice(submitter) }
}

/// The messages to send once a submission is stored: one to the speaker of
/// each shard, in shard order.
pub fn speaker_pings(body: &NewQuote, user: &User) -> (pings: Vec<Ping>)
    ensures
        pings@.map_values(|p: Ping| p@) == body@.map_values(
            |s: NewShardView| ping_for(s, user.preferred_username@),
        ),
{
    let ghost submitter = user.preferred_username@;
    let mut pings: Vec<Ping> = Vec::new();
    let mut i: usize = 0;
    while i < body.shards.len()
        invariant
            i <= body.shards.len(),
            submitter == user.preferred_username@,
            pings@.map_values(|p: Ping| p@) == body@.take(i as int).map_values(
                |s: NewShardView| ping_for(s, submitter),
            ),
        decreases body.shards.len() - i,
    {
        let ghost before = pings@.map_values(|p: Ping| p@);
        let mut message = "You were quoted by ".to_string();
        message.append(user.preferred_username.as_str());
        message.append(". Check it out at Quotefault!");
        let ping = Ping { recipient: body.shards[i].speaker.clone(), message };
        pings.push(ping);
        proof {
            assert(ping@ == ping_for(body@[i as int], submitter));
            assert(pings@.map_values(|p: Ping| p@) =~= before.push(ping@));
            assert(body@.take(i + 1).map_values(|s: NewShardView| ping_for(s, submitter))
                =~= before.push(ping@));
        }
        i += 1;
    }
    proof {
        assert(body@.take(i as int) =~= body@);
    }
    pings
}

/// The shards of a submission as they are stored: in the order submitted.
pub open spec fn stored_shards(shards: Seq<NewShardView>) -> Seq<ShardState> {
    shards.map_values(|s: NewShardView| ShardState { body: s.body, speaker: s.speaker })
}

/// The quote that a submission becomes: new, unvoted, unreported, not hidden.
pub open spec fn fresh_quote(
    id: i32,
    submitter: Text,
    shards: Seq<NewShardView>,
    now: i64,
) -> QuoteState {
    QuoteState {
        id,
        submitter,
        timestamp: now,
        shards: stored_shards(shards),
        votes: Seq::empty(),
        favorites: Seq::empty(),
        reports: Seq::empty(),
        hidden: None,
    }
}

/// The store after a submission was accepted: the new quote stands last
/// and has taken the next id.
pub open spec fn created(
    state: StoreState,
    submitter: Text,
    shards: Seq<NewShardView>,
    now: i64,
) -> StoreState {
    StoreState {
        quotes: state.quotes.push(fresh_quote(state.next_quote_id, submitter, shards, now)),
        next_quote_id: (state.next_quote_id + 1) as i32,
        ..state
    }
}

/// The indices under which the shards of a submission are stored: 1 for the
/// first, 2 for the second, and so on without a gap.
pub fn shard_indices(body: &NewQuote) -> (indices: Vec<i16>)
    requires
        body@.len() <= MAX_SHARDS,
    ensures
        indices@.len() == body@.len(),
        forall|k: int| 0 <= k < indices@.len() ==> indices@[k] == k + 1,
{
    let mut indices: Vec<i16> = Vec::new();
    let mut next: i16 = 1;
    while indices.len() < body.shards.len()
        invariant
            body@.len() <= MAX_SHARDS,
            indices@.len() <= body@.len(),
            next == indices@.len() + 1,
            forall|k: int| 0 <= k < indices@.len() ==> indices@[k] == k + 1,
        decreases body.shards.len() - indices.len(),
    {
        indices.push(next);
        next += 1;
    }
    indices
}

/// Copies the shards of a submission into records.
fn shard_records(body: &NewQuote) -> (records: Vec<ShardRecord>)
    ensures
        crate::store::shards_state(records@) == stored_shards(body@),
{
    let mut records: Vec<ShardRecord> = Vec::new();
    let mut i: usize = 0;
    while i < body.shards.len()
        invariant
            i <= body.shards.len(),
            crate::store::shards_state(records@) == stored_shards(body@.take(i as int)),
        decreases body.shards.len() - i,
    {
        let ghost before = crate::store::shards_state(records@);
        let record = ShardRecord {
            body: body.shards[i].body.clone(),
            speaker: body.shards[i].speaker.clone(),
        };
        records.push(record);
        proof {
            assert(crate::store::shards_state(records@) =~= before.push(record@));
            assert(stored_shards(body@.take(i + 1)) =~= before.push(record@));
        }
        i += 1;
    }
    proof {
        assert(body@.take(i as int) =~= body@);
    }
    records
}

/// Stores a submission. `quotable` is the directory's list of quotable
/// members, `all_exist` its answer to whether it knows everyone named, `now`
/// the time of the submission. On success the new quote's id comes back; a
/// submission that is turned down leaves the store as it was.
pub fn create_quote(
    store: &mut Store,
    body: &NewQuote,
    user: &User,
    quotable: &Vec<String>,
    all_exist: bool,
    now: i64,
) -> (outcome: Result<i32, Rejection>)
    requires
        old(store).wf(),
    ensures
        final(store).wf(),
        match submission_fault(
            body@,
            user.preferred_username@,
            texts_view(quotable@),
            all_exist,
        ) {
            Some(fault) => outcome == Err::<i32, Rejection>(fault) && final(store)@ == old(
                store,
            )@,
            None => if old(store)@.next_quote_id == i32::MAX {
                outcome == Err::<i32, Rejection>(Rejection::StoreExhausted) && final(store)@
                    == old(store)@
            } else {
                outcome == Ok::<i32, Rejection>(old(store)@.next_quote_id) && final(store)@
                    == created(old(store)@, user.preferred_username@, body@, now)
            },
        },
{
    match check_shard_count(body) {
        Err(fault) => {
            return Err(fault);
        },
        Ok(_) => {},
    }
    match check_members(body, user, quotable) {
        Err(fault) => {
            return Err(fault);
        },
        Ok(_) => {},
    }
    if !all_exist {
        return Err(Rejection::UnknownUsers);
    }
    if store.next_quote_id == i32::MAX {
        return Err(Rejection::StoreExhausted);
    }
    let id = store.next_quote_id;
    let record = QuoteRecord {
        id,
        submitter: user.preferred_username.clone(),
        timestamp: now,
        shards: shard_records(body),
        votes: Vec::new(),
        favorites: Vec::new(),
        reports: Vec::new(),
        hidden: None,
    };
    let ghost before = store@;
    let ghost quote = fresh_quote(id, user.preferred_username@, body@, now);
    proof {
        assert(record@.votes =~= quote.votes);
        assert(record@.favorites =~= quote.favorites);
        assert(record@.reports =~= quote.reports);
        assert(record@ == quote);
    }
    store.quotes.push(record);
    store.next_quote_id = id + 1;
    proof {
        assert(store@.quotes =~= before.quotes.push(quote));
        lemma_no_speaker_fault(body@, user.preferred_username@, texts_view(quotable@));
        assert(!crate::state::is_speaker(quote, quote.submitter)) by {
            if crate::state::is_speaker(quote, quote.submitter) {
                let k = choose|k: int|
                    0 <= k < quote.shards.len() && (#[trigger] quote.shards[k]).speaker
                        == quote.submitter;
                assert(speaker_fault(body@[k], user.preferred_username@, texts_view(quotable@))
                    is None);
            }
        }
        assert(crate::state::quote_wf(quote));
        assert(store@.wf());
    }
    Ok(id)
}

/// Whether `who` may take the quote back: it is theirs.
pub open spec fn deletable(state: StoreState, id: i32, who: Text) -> bool {
    has_quote(state.quotes, id) && quote_by_id(state.quotes, id).submitter == who
}

/// The store without the quote `id` and all that depended on it.
pub open spec fn deleted(state: StoreState, id: i32) -> StoreState {
    StoreState { quotes: state.quotes.remove(position(state.quotes, id)), ..state }
}

/// Takes a quote back, with its shards, votes, favorites, reports and hidden
/// record. Only the member who submitted a quote can take it back.
pub fn delete_quote(store: &mut Store, id: i32, user: &User) -> (outcome: Result<(), Rejection>)
    requires
        old(store).wf(),
    ensures
        final(store).wf(),
        if deletable(old(store)@, id, user.preferred_username@) {
            outcome is Ok && final(store)@ == deleted(old(store)@, id)
        } else {
            outcome == Err::<(), Rejection>(Rejection::NotYourQuote) && final(store)@ == old(
                store,
            )@
        },
{
    match store.find(id) {
        None => Err(Rejection::NotYourQuote),
        Some(i) => {
            assert(store@.quotes[i as int] == store.quotes@[i as int]@);
            if store.quotes[i].submitter == user.preferred_username {
                let ghost before = store@;
                store.quotes.remove(i);
                proof {
                    assert(store@.quotes =~= before.quotes.remove(i as int));
                }
                Ok(())
            } else {
                Err(Rejection::NotYourQuote)
            }
        },
    }
}

} // verus!
