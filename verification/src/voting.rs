//! Votes and favorites: what one member thinks of one quote.
//!
//! A member has at most one vote on a quote; voting again overwrites it.
//! A favorite is there or not. Voting needs the quote to be visible to the
//! voter; marking a favorite only needs the quote to be there.

use vstd::prelude::*;
use crate::model::{Text, User, Vote};
use crate::response::Rejection;
use crate::state::{
    distinct_voters, has_quote, has_voted, position, quote_by_id, upsert_vote, visible,
    vote_position, without_vote, QuoteState, StoreState, VoteState,
};
use crate::store::{lemma_replaced, Store, VoteRecord};

verus! {

/// Whether `voter` can vote on the quote: it is there and they may see it.
pub open spec fn votable(state: StoreState, id: i32, voter: Text, privileged: bool) -> bool {
    has_quote(state.quotes, id) && visible(
        quote_by_id(state.quotes, id),
        voter,
        privileged,
    )
}

/// The store after `voter` has voted `vote` on the quote.
pub open spec fn voted(state: StoreState, id: i32, voter: Text, vote: Vote) -> StoreState {
    let at = position(state.quotes, id);
    state.with_quote(
        at,
        QuoteState { votes: upsert_vote(state.quotes[at].votes, voter, vote), ..state.quotes[at] },
    )
}

/// The store after `voter` has taken their vote on the quote back.
pub open spec fn unvoted(state: StoreState, id: i32, voter: Text) -> StoreState {
    let at = position(state.quotes, id);
    state.with_quote(
        at,
        QuoteState { votes: without_vote(state.quotes[at].votes, voter), ..state.quotes[at] },
    )
}

/// Whether the quote can take no further voter.
pub open spec fn votes_full(state: StoreState, id: i32, voter: Text) -> bool {
    let votes = quote_by_id(state.quotes, id).votes;
    !has_voted(votes, voter) && votes.len() == i64::MAX
}

/// Votes of distinct members stay votes of distinct members when one of them
/// votes again, when a new member votes, and when a vote is taken back.
pub proof fn lemma_votes_stay_distinct(votes: Seq<VoteState>, voter: Text, vote: Vote)
    requires
        distinct_voters(votes),
    ensures
        distinct_voters(upsert_vote(votes, voter, vote)),
        distinct_voters(without_vote(votes, voter)),
{
    let after = upsert_vote(votes, voter, vote);
    assert forall|a: int, b: int| 0 <= a < b < after.len() implies (#[trigger] after[a]).voter != (
    #[trigger] after[b]).voter by {
        if has_voted(votes, voter) {
            let p = vote_position(votes, voter);
            assert(votes[a].voter != votes[b].voter);
        } else {
            if b == votes.len() {
                assert(votes[a].voter != voter);
            } else {
                assert(votes[a].voter != votes[b].voter);
            }
        }
    }
    let fewer = without_vote(votes, voter);
    assert forall|a: int, b: int| 0 <= a < b < fewer.len() implies (#[trigger] fewer[a]).voter != (
    #[trigger] fewer[b]).voter by {
        if has_voted(votes, voter) {
            let p = vote_position(votes, voter);
            let a0 = if a < p {
                a
            } else {
                a + 1
            };
            let b0 = if b < p {
                b
            } else {
                b + 1
            };
            assert(votes[a0].voter != votes[b0].voter);
        }
    }
}

/// Records the vote of `user` on a quote: a first vote is added, a later one
/// replaces the earlier. A quote that is not there, or that the caller may
/// not see, cannot be voted on. A quote whose votes are as many as a score
/// can count takes no further voter.
pub fn vote_quote(
    store: &mut Store,
    id: i32,
    vote: Vote,
    user: &User,
    security_enabled: bool,
) -> (outcome: Result<(), Rejection>)
    requires
        old(store).wf(),
    ensures
        final(store).wf(),
        if !votable(old(store)@, id, user.preferred_username@, user.privileged(security_enabled)) {
            outcome == Err::<(), Rejection>(Rejection::QuoteDoesNotExist) && final(store)@
                == old(store)@
        } else if votes_full(old(store)@, id, user.preferred_username@) {
            outcome == Err::<(), Rejection>(Rejection::StoreExhausted) && final(store)@ == old(
                store,
            )@
        } else {
            outcome is Ok && final(store)@ == voted(
                old(store)@,
                id,
                user.preferred_username@,
                vote,
            )
        },
{
    let i = match store.find(id) {
        None => {
            return Err(Rejection::QuoteDoesNotExist);
        },
        Some(i) => i,
    };
    assert(store@.quotes[i as int] == store.quotes@[i as int]@);
    if !store.quotes[i].visible_to(&user.preferred_username, user.is_privileged(security_enabled)) {
        return Err(Rejection::QuoteDoesNotExist);
    }
    let ghost before = store@;
    let ghost who = user.preferred_username@;
    let ghost old_votes = before.quotes[i as int].votes;
    proof {
        lemma_votes_stay_distinct(old_votes, who, vote);
    }
    match store.quotes[i].find_vote(&user.preferred_username) {
        Some(j) => {
            store.quotes[i].votes[j].vote = vote;
            proof {
                assert(store.quotes@[i as int].votes@[j as int]@ == VoteState { voter: who, vote });
                assert(store@.quotes[i as int].votes =~= old_votes.update(
                    j as int,
                    VoteState { voter: who, vote },
                ));
                assert(store@.quotes =~= voted(before, id, who, vote).quotes);
            }
        },
        None => {
            if store.quotes[i].votes.len() as u64 >= 0x7fff_ffff_ffff_ffffu64 {
                return Err(Rejection::StoreExhausted);
            }
            let record = VoteRecord { voter: user.preferred_username.clone(), vote };
            store.quotes[i].votes.push(record);
            proof {
                assert(store@.quotes[i as int].votes =~= old_votes.push(record@));
                assert(store@.quotes =~= voted(before, id, who, vote).quotes);
            }
        },
    }
    proof {
        let after = voted(before, id, who, vote);
        assert(store@ == after);
        lemma_replaced(before, i as int, after.quotes[i as int]);
    }
    Ok(())
}

/// Whether `voter` can take their vote on the quote back: the quote is
/// there, they may see it, and they have a vote on it.
pub open spec fn unvotable(state: StoreState, id: i32, voter: Text, privileged: bool) -> bool {
    votable(state, id, voter, privileged) && has_voted(
        quote_by_id(state.quotes, id).votes,
        voter,
    )
}

/// Takes the vote of `user` on a quote back.
pub fn unvote_quote(
    store: &mut Store,
    id: i32,
    user: &User,
    security_enabled: bool,
) -> (outcome: Result<(), Rejection>)
    requires
        old(store).wf(),
    ensures
        final(store).wf(),
        if unvotable(old(store)@, id, user.preferred_username@, user.privileged(security_enabled)) {
            outcome is Ok && final(store)@ == unvoted(old(store)@, id, user.preferred_username@)
        } else {
            outcome == Err::<(), Rejection>(Rejection::QuoteDoesNotExist) && final(store)@
                == old(store)@
        },
{
    let i = match store.find(id) {
        None => {
            return Err(Rejection::QuoteDoesNotExist);
        },
        Some(i) => i,
    };
    assert(store@.quotes[i as int] == store.quotes@[i as int]@);
    if !store.quotes[i].visible_to(&user.preferred_username, user.is_privileged(security_enabled)) {
        return Err(Rejection::QuoteDoesNotExist);
    }
    let ghost before = store@;
    let ghost who = user.preferred_username@;
    let ghost old_votes = before.quotes[i as int].votes;
    match store.quotes[i].find_vote(&user.preferred_username) {
        None => Err(Rejection::QuoteDoesNotExist),
        Some(j) => {
            store.quotes[i].votes.remove(j);
            proof {
                lemma_votes_stay_distinct(old_votes, who, Vote::Upvote);
                assert(store@.quotes[i as int].votes =~= old_votes.remove(j as int));
                let after = unvoted(before, id, who);
                assert(store@.quotes =~= after.quotes);
                lemma_replaced(before, i as int, after.quotes[i as int]);
            }
            Ok(())
        },
    }
}

// Favorites

/// Whether `who` can mark the quote as a favorite: it is there and is not
/// one of their favorites yet.
pub open spec fn can_favorite(state: StoreState, id: i32, who: Text) -> bool {
    has_quote(state.quotes, id) && !quote_by_id(state.quotes, id).favorites.contains(who)
}

/// Whether the quote is there and is one of the favorites of `who`.
pub open spec fn is_favorite(state: StoreState, id: i32, who: Text) -> bool {
    has_quote(state.quotes, id) && quote_by_id(state.quotes, id).favorites.contains(who)
}

/// The store after `who` has marked the quote as a favorite.
pub open spec fn favorited(state: StoreState, id: i32, who: Text) -> StoreState {
    let at = position(state.quotes, id);
    state.with_quote(
        at,
        QuoteState { favorites: state.quotes[at].favorites.push(who), ..state.quotes[at] },
    )
}

/// The store after `who` has dropped the quote from their favorites.
pub open spec fn unfavorited(state: StoreState, id: i32, who: Text) -> StoreState {
    let at = position(state.quotes, id);
    let favorites = state.quotes[at].favorites;
    state.with_quote(
        at,
        QuoteState { favorites: favorites.remove(favorites.index_of(who)), ..state.quotes[at] },
    )
}

/// Marks a quote as a favorite of `user`. Whether the caller may see the
/// quote plays no part.
pub fn favorite_quote(store: &mut Store, user: &User, id: i32) -> (outcome: Result<(), Rejection>)
    requires
        old(store).wf(),
    ensures
        final(store).wf(),
        if can_favorite(old(store)@, id, user.preferred_username@) {
            outcome is Ok && final(store)@ == favorited(old(store)@, id, user.preferred_username@)
        } else {
            outcome == Err::<(), Rejection>(Rejection::AlreadyFavorited) && final(store)@ == old(
                store,
            )@
        },
{
    let i = match store.find(id) {
        None => {
            return Err(Rejection::AlreadyFavorited);
        },
        Some(i) => i,
    };
    assert(store@.quotes[i as int] == store.quotes@[i as int]@);
    if store.quotes[i].favorite_of(&user.preferred_username).is_some() {
        return Err(Rejection::AlreadyFavorited);
    }
    let ghost before = store@;
    let ghost who = user.preferred_username@;
    let ghost old_favorites = before.quotes[i as int].favorites;
    store.quotes[i].favorites.push(user.preferred_username.clone());
    proof {
        let after = favorited(before, id, who);
        assert(store@.quotes[i as int].favorites =~= old_favorites.push(who));
        assert(store@.quotes =~= after.quotes);
        assert(old_favorites.push(who).no_duplicates()) by {
            assert forall|a: int, b: int|
                0 <= a < old_favorites.len() + 1 && 0 <= b < old_favorites.len() + 1 && a
                    != b implies old_favorites.push(who)[a] != old_favorites.push(who)[b] by {
                if a < old_favorites.len() && b < old_favorites.len() {
                    assert(old_favorites[a] != old_favorites[b]);
                } else if a < old_favorites.len() {
                    assert(old_favorites[a] != who);
                } else {
                    assert(old_favorites[b] != who);
                }
            }
        }
        lemma_replaced(before, i as int, after.quotes[i as int]);
    }
    Ok(())
}

/// Drops a quote from the favorites of `user`.
pub fn unfavorite_quote(store: &mut Store, user: &User, id: i32) -> (outcome: Result<(), Rejection>)
    requires
        old(store).wf(),
    ensures
        final(store).wf(),
        if is_favorite(old(store)@, id, user.preferred_username@) {
            outcome is Ok && final(store)@ == unfavorited(
                old(store)@,
                id,
                user.preferred_username@,
            )
        } else {
            outcome == Err::<(), Rejection>(Rejection::NotFavorited) && final(store)@ == old(
                store,
            )@
        },
{
    let i = match store.find(id) {
        None => {
            return Err(Rejection::NotFavorited);
        },
        Some(i) => i,
    };
    assert(store@.quotes[i as int] == store.quotes@[i as int]@);
    let ghost before = store@;
    let ghost who = user.preferred_username@;
    let ghost old_favorites = before.quotes[i as int].favorites;
    match store.quotes[i].favorite_of(&user.preferred_username) {
        None => Err(Rejection::NotFavorited),
        Some(j) => {
            store.quotes[i].favorites.remove(j);
            proof {
                let p = old_favorites.index_of(who);
                assert(0 <= p < old_favorites.len() && old_favorites[p] == who);
                assert(p == j) by {
                    if p != j {
                        assert(old_favorites[p] != old_favorites[j as int]);
                    }
                }
                let after = unfavorited(before, id, who);
                assert(store@.quotes[i as int].favorites =~= old_favorites.remove(j as int));
                assert(store@.quotes =~= after.quotes);
                let fewer = old_favorites.remove(j as int);
                assert(fewer.no_duplicates()) by {
                    assert forall|a: int, b: int|
                        0 <= a < fewer.len() && 0 <= b < fewer.len() && a != b implies fewer[a]
                        != fewer[b] by {
                        let a0 = if a < j {
                            a
                        } else {
                            a + 1
                        };
                        let b0 = if b < j {
                            b
                        } else {
                            b + 1
                        };
                        assert(old_favorites[a0] != old_favorites[b0]);
                    }
                }
                lemma_replaced(before, i as int, after.quotes[i as int]);
            }
            Ok(())
        },
    }
}

} // verus!
