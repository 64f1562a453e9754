//! Rebuilding quotes from the flat rows of a quote query.
//!
//! A query hands back one row per shard. Rows of one quote stand together,
//! the shard with index 1 first. One pass over the rows groups them: a row
//! with index 1 opens a quote, a later row joins the quote opened last if it
//! carries that quote's id. A row whose speaker the directory no longer knows
//! is left out; so is a whole quote whose opening row cannot be named.

use vstd::prelude::*;
use vstd::hash_map::StringHashMap;
use crate::directory::{
    find_user, holds_answer, index_names, lemma_indexed_user, resolved_user,
};
use crate::model::{
    quotes_view, rows_view, users_view, Hidden, HiddenView, QuoteResponse, QuoteShard,
    QuoteShardResponse, QuoteView, RowView, ShardView, UserResponse, UserView,
};

verus! {

/// The hidden marker that a row carries, as far as it can be shown: the
/// hiding member must be known to the directory and a reason must be there.
pub open spec fn row_hidden(row: RowView, names: Seq<UserView>) -> Option<HiddenView> {
    match (row.hidden_actor, row.hidden_reason) {
        (Some(actor), Some(reason)) => match resolved_user(names, actor) {
            Some(user) => Some(HiddenView { reason, actor: user }),
            None => None,
        },
        _ => None,
    }
}

/// The quote that an opening row starts, holding that row's shard alone.
pub open spec fn opened_quote(
    row: RowView,
    speaker: UserView,
    submitter: UserView,
    names: Seq<UserView>,
) -> QuoteView {
    QuoteView {
        id: row.id,
        shards: seq![ShardView { body: row.body, speaker }],
        timestamp: row.timestamp,
        score: row.score,
        vote: row.vote,
        submitter,
        hidden: row_hidden(row, names),
        favorited: row.favorited,
    }
}

/// A quote with one more shard at its end.
pub open spec fn with_shard(quote: QuoteView, shard: ShardView) -> QuoteView {
    QuoteView { shards: quote.shards.push(shard), ..quote }
}

/// What one row does to the quotes built so far.
pub open spec fn absorb_row(
    built: Seq<QuoteView>,
    row: RowView,
    names: Seq<UserView>,
) -> Seq<QuoteView> {
    match resolved_user(names, row.speaker) {
        None => built,
        Some(speaker) => {
            if row.index == 1 {
                match resolved_user(names, row.submitter) {
                    None => built,
                    Some(submitter) => built.push(opened_quote(row, speaker, submitter, names)),
                }
            } else if built.len() > 0 && built.last().id == row.id {
                built.update(
                    built.len() - 1,
                    with_shard(built.last(), ShardView { body: row.body, speaker }),
                )
            } else {
                built
            }
        },
    }
}

/// The quotes that a sequence of rows stands for, given a directory answer.
pub open spec fn assemble(rows: Seq<RowView>, names: Seq<UserView>) -> Seq<QuoteView>
    decreases rows.len(),
{
    if rows.len() == 0 {
        Seq::empty()
    } else {
        absorb_row(assemble(rows.drop_last(), names), rows.last(), names)
    }
}

/// Builds the hidden marker of a row.
fn hidden_of_row(
    shard: &QuoteShard,
    index: &StringHashMap<String>,
    Ghost(names): Ghost<Seq<UserView>>,
) -> (hidden: Option<Hidden>)
    requires
        holds_answer(index@, names),
    ensures
        crate::model::opt_hidden(hidden) == row_hidden(shard@, names),
{
    match (&shard.hidden_actor, &shard.hidden_reason) {
        (Some(actor), Some(reason)) => {
            proof {
                lemma_indexed_user(index@, names, actor@);
            }
            match find_user(index, actor) {
                Some(user) => Some(Hidden { reason: reason.clone(), actor: user }),
                None => None,
            }
        },
        _ => None,
    }
}

/// Turns the rows of a quote query into quotes, naming every member by the
/// directory answer `names`. The rows are read once, in order.
pub fn shards_to_quotes(
    shards: &Vec<QuoteShard>,
    names: &Vec<UserResponse>,
) -> (quotes: Vec<QuoteResponse>)
    ensures
        quotes_view(quotes@) == assemble(rows_view(shards@), users_view(names@)),
{
    let ghost rows = rows_view(shards@);
    let ghost known = users_view(names@);
    let index = index_names(names);
    let mut quotes: Vec<QuoteResponse> = Vec::new();
    let mut i: usize = 0;
    proof {
        assert(quotes_view(quotes@) =~= Seq::<QuoteView>::empty());
    }
    while i < shards.len()
        invariant
            i <= shards.len(),
            rows == rows_view(shards@),
            known == users_view(names@),
            holds_answer(index@, known),
            quotes_view(quotes@) == assemble(rows.take(i as int), known),
        decreases shards.len() - i,
    {
        let shard = &shards[i];
        let ghost built = quotes_view(quotes@);
        proof {
            assert(rows.take(i + 1).last() == shard@);
            assert(rows.take(i + 1).drop_last() =~= rows.take(i as int));
        }
        proof {
            lemma_indexed_user(index@, known, shard.speaker@);
            lemma_indexed_user(index@, known, shard.submitter@);
        }
        match find_user(&index, &shard.speaker) {
            None => {},
            Some(speaker) => {
                if shard.index == 1 {
                    match find_user(&index, &shard.submitter) {
                        None => {},
                        Some(submitter) => {
                            let mut parts: Vec<QuoteShardResponse> = Vec::new();
                            parts.push(QuoteShardResponse { body: shard.body.clone(), speaker });
                            let quote = QuoteResponse {
                                id: shard.id,
                                shards: parts,
                                timestamp: shard.timestamp,
                                score: shard.score,
                                vote: shard.vote,
                                submitter,
                                hidden: hidden_of_row(shard, &index, Ghost(known)),
                                favorited: shard.favorited,
                            };
                            proof {
                                assert(quote@.shards =~= seq![
                                    ShardView { body: shard@.body, speaker: speaker@ },
                                ]);
                            }
                            quotes.push(quote);
                            proof {
                                assert(quotes_view(quotes@) =~= built.push(quote@));
                            }
                        },
                    }
                } else {
                    let n = quotes.len();
                    if n > 0 && quotes[n - 1].id == shard.id {
                        let ghost last = quotes@[n - 1];
                        let part = QuoteShardResponse { body: shard.body.clone(), speaker };
                        quotes[n - 1].shards.push(part);
                        proof {
                            assert(quotes@[n - 1]@.shards =~= last@.shards.push(part@));
                            assert(quotes_view(quotes@) =~= built.update(
                                n - 1,
                                with_shard(built.last(), part@),
                            ));
                        }
                    }
                }
            },
        }
        i += 1;
    }
    proof {
        assert(rows.take(i as int) =~= rows);
    }
    quotes
}

} // verus!
