//! What the member directory tells the library: which display name belongs
//! to an identifier, and which identifiers a set of rows refers to.

use vstd::hash_map::StringHashMap;
use vstd::hash_set::StringHashSet;
use vstd::prelude::*;
use crate::model::{
    opt_text, rows_view, users_view, QuoteShard, RowView, Text, UserResponse, UserView,
};

verus! {

/// The display name that a directory answer gives for `uid`: that of the
/// last entry with this identifier, or nothing when no entry has it.
pub open spec fn display_name(names: Seq<UserView>, uid: Text) -> Option<Text>
    decreases names.len(),
{
    if names.len() == 0 {
        None
    } else if names.last().uid == uid {
        Some(names.last().cn)
    } else {
        display_name(names.drop_last(), uid)
    }
}

/// The member that a directory answer names for `uid`, if it names one.
pub open spec fn resolved_user(names: Seq<UserView>, uid: Text) -> Option<UserView> {
    match display_name(names, uid) {
        Some(cn) => Some(UserView { uid, cn }),
        None => None,
    }
}

/// Whether `index` holds a directory answer: for every identifier the
/// display name that the answer gives it, and no other identifier.
pub open spec fn holds_answer(index: Map<Text, String>, names: Seq<UserView>) -> bool {
    forall|uid: Text| #[trigger]
        display_name(names, uid) == if index.contains_key(uid) {
            Some(index[uid]@)
        } else {
            None::<Text>
        }
}

/// Puts a directory answer into a hash map from identifier to display name.
/// Where the answer names an identifier twice, the later entry stays.
pub fn index_names(names: &Vec<UserResponse>) -> (index: StringHashMap<String>)
    ensures
        holds_answer(index@, users_view(names@)),
{
    let ghost all = users_view(names@);
    let mut index: StringHashMap<String> = StringHashMap::new();
    let mut i: usize = 0;
    while i < names.len()
        invariant
            i <= names.len(),
            all == users_view(names@),
            holds_answer(index@, all.take(i as int)),
        decreases names.len() - i,
    {
        let ghost before = index@;
        index.insert(names[i].uid.clone(), names[i].cn.clone());
        proof {
            assert(all.take(i + 1).last() == names@[i as int]@);
            assert(all.take(i + 1).drop_last() =~= all.take(i as int));
            assert forall|uid: Text| #[trigger]
                display_name(all.take(i + 1), uid) == if index@.contains_key(uid) {
                    Some(index@[uid]@)
                } else {
                    None::<Text>
                } by {
                assert(display_name(all.take(i as int), uid) == if before.contains_key(uid) {
                    Some(before[uid]@)
                } else {
                    None::<Text>
                });
            }
        }
        i += 1;
    }
    proof {
        assert(all.take(i as int) =~= all);
    }
    index
}

/// The member that an indexed directory answer names for `uid`, if it
/// names one.
pub open spec fn indexed_user(index: Map<Text, String>, uid: Text) -> Option<UserView> {
    if index.contains_key(uid) {
        Some(UserView { uid, cn: index[uid]@ })
    } else {
        None
    }
}

/// An index that holds a directory answer names the members that the
/// answer names.
pub proof fn lemma_indexed_user(index: Map<Text, String>, names: Seq<UserView>, uid: Text)
    requires
        holds_answer(index, names),
    ensures
        indexed_user(index, uid) == resolved_user(names, uid),
{
    assert(display_name(names, uid) == if index.contains_key(uid) {
        Some(index[uid]@)
    } else {
        None::<Text>
    });
}

/// Looks `uid` up in an indexed directory answer and pairs it with its
/// display name.
pub fn find_user(index: &StringHashMap<String>, uid: &String) -> (found: Option<UserResponse>)
    ensures
        match found {
            Some(user) => indexed_user(index@, uid@) == Some(user@),
            None => indexed_user(index@, uid@) is None,
        },
{
    match index.get(uid.as_str()) {
        Some(cn) => Some(UserResponse { uid: uid.clone(), cn: cn.clone() }),
        None => None,
    }
}

/// Looks `uid` up in a directory answer.
pub fn lookup_name(names: &Vec<UserResponse>, uid: &String) -> (found: Option<String>)
    ensures
        opt_text(found) == display_name(users_view(names@), uid@),
{
    let index = index_names(names);
    proof {
        lemma_indexed_user(index@, users_view(names@), uid@);
    }
    match find_user(&index, uid) {
        Some(user) => Some(user.cn),
        None => None,
    }
}

/// Whether a row refers to `uid`: as its submitter, as its speaker, or as the
/// member who hid its quote.
pub open spec fn row_mentions(row: RowView, uid: Text) -> bool {
    row.submitter == uid || row.speaker == uid || row.hidden_actor == Some(uid)
}

/// Whether any of the rows refers to `uid`.
pub open spec fn rows_mention(rows: Seq<RowView>, uid: Text) -> bool {
    exists|i: int| 0 <= i < rows.len() && #[trigger] row_mentions(rows[i], uid)
}

/// The views of a list of identifiers.
pub open spec fn texts_view(ids: Seq<String>) -> Seq<Text> {
    ids.map_values(|s: String| s@)
}

/// Whether the set holds exactly the identifiers listed.
pub open spec fn holds_texts(set: Set<Text>, ids: Seq<Text>) -> bool {
    forall|t: Text| set.contains(t) <==> #[trigger] ids.contains(t)
}

/// Puts a list of identifiers into a hash set.
pub fn index_texts(ids: &Vec<String>) -> (set: StringHashSet)
    ensures
        holds_texts(set@, texts_view(ids@)),
{
    let ghost all = texts_view(ids@);
    let mut set = StringHashSet::new();
    let mut i: usize = 0;
    proof {
        assert forall|t: Text| set@.contains(t) <==> #[trigger] all.take(0).contains(t) by {
            if all.take(0).contains(t) {
                let k = choose|k: int| 0 <= k < all.take(0).len() && all.take(0)[k] == t;
            }
        }
    }
    while i < ids.len()
        invariant
            i <= ids.len(),
            all == texts_view(ids@),
            holds_texts(set@, all.take(i as int)),
        decreases ids.len() - i,
    {
        let ghost before = set@;
        set.insert(ids[i].clone());
        proof {
            let now = all.take(i + 1);
            let then = all.take(i as int);
            assert forall|t: Text| set@.contains(t) <==> #[trigger] now.contains(t) by {
                assert(before.contains(t) <==> then.contains(t));
                if then.contains(t) {
                    let k = choose|k: int| 0 <= k < then.len() && then[k] == t;
                    assert(now[k] == t);
                }
                if t == all[i as int] {
                    assert(now[i as int] == t);
                }
                if now.contains(t) {
                    let k = choose|k: int| 0 <= k < now.len() && now[k] == t;
                    if k < i {
                        assert(then[k] == t);
                    }
                }
            }
        }
        i += 1;
    }
    proof {
        assert(all.take(i as int) =~= all);
    }
    set
}

/// Adds `uid` to `ids` unless `seen` holds it already.
fn note_uid(ids: &mut Vec<String>, seen: &mut StringHashSet, uid: &String)
    requires
        texts_view(old(ids)@).no_duplicates(),
        holds_texts(old(seen)@, texts_view(old(ids)@)),
    ensures
        texts_view(final(ids)@).no_duplicates(),
        holds_texts(final(seen)@, texts_view(final(ids)@)),
        forall|t: Text| #[trigger]
            texts_view(final(ids)@).contains(t) <==> (texts_view(old(ids)@).contains(t) || t
                == uid@),
{
    let ghost before = texts_view(ids@);
    let ghost known = seen@;
    if seen.insert(uid.clone()) {
        ids.push(uid.clone());
        proof {
            assert(!before.contains(uid@));
            assert(texts_view(ids@) =~= before.push(uid@));
            assert forall|t: Text| #[trigger]
                texts_view(ids@).contains(t) <==> (before.contains(t) || t == uid@) by {
                if before.contains(t) {
                    let k = choose|k: int| 0 <= k < before.len() && before[k] == t;
                    assert(before.push(uid@)[k] == t);
                }
                if t == uid@ {
                    assert(before.push(uid@)[before.len() as int] == t);
                }
            }
            assert forall|t: Text| seen@.contains(t) <==> #[trigger] texts_view(ids@).contains(
                t,
            ) by {
                assert(known.contains(t) <==> before.contains(t));
            }
        }
    } else {
        proof {
            assert(seen@ =~= known);
            assert(before.contains(uid@));
        }
    }
}

/// The identifiers that the directory has to resolve before the rows can be
/// turned into quotes: every submitter, speaker and hiding member that the
/// rows refer to, each once.
pub fn referenced_uids(shards: &Vec<QuoteShard>) -> (ids: Vec<String>)
    ensures
        texts_view(ids@).no_duplicates(),
        forall|t: Text| #[trigger]
            texts_view(ids@).contains(t) <==> rows_mention(rows_view(shards@), t),
{
    let mut ids: Vec<String> = Vec::new();
    let mut seen = StringHashSet::new();
    let mut i: usize = 0;
    proof {
        assert forall|t: Text| seen@.contains(t) <==> #[trigger] texts_view(ids@).contains(t) by {
            if texts_view(ids@).contains(t) {
                let k = choose|k: int| 0 <= k < texts_view(ids@).len() && texts_view(ids@)[k] == t;
            }
        }
    }
    while i < shards.len()
        invariant
            i <= shards.len(),
            texts_view(ids@).no_duplicates(),
            holds_texts(seen@, texts_view(ids@)),
            forall|t: Text| #[trigger]
                texts_view(ids@).contains(t) <==> rows_mention(
                    rows_view(shards@).take(i as int),
                    t,
                ),
        decreases shards.len() - i,
    {
        let ghost before = texts_view(ids@);
        let ghost rows = rows_view(shards@);
        note_uid(&mut ids, &mut seen, &shards[i].submitter);
        note_uid(&mut ids, &mut seen, &shards[i].speaker);
        match &shards[i].hidden_actor {
            Some(actor) => {
                note_uid(&mut ids, &mut seen, actor);
            },
            None => {},
        }
        proof {
            let row = rows[i as int];
            assert(row == shards@[i as int]@);
            assert forall|t: Text| #[trigger]
                texts_view(ids@).contains(t) <==> rows_mention(rows.take(i + 1), t) by {
                assert(texts_view(ids@).contains(t) <==> (before.contains(t) || row_mentions(
                    row,
                    t,
                )));
                if rows_mention(rows.take(i + 1), t) {
                    let k = choose|k: int|
                        0 <= k < rows.take(i + 1).len() && #[trigger] row_mentions(
                            rows.take(i + 1)[k],
                            t,
                        );
                    if k < i {
                        assert(row_mentions(rows.take(i as int)[k], t));
                    }
                }
                if before.contains(t) {
                    let k = choose|k: int|
                        0 <= k < rows.take(i as int).len() && #[trigger] row_mentions(
                            rows.take(i as int)[k],
                            t,
                        );
                    assert(row_mentions(rows.take(i + 1)[k], t));
                }
                if row_mentions(row, t) {
                    assert(row_mentions(rows.take(i + 1)[i as int], t));
                }
            }
        }
        i += 1;
    }
    proof {
        assert(rows_view(shards@).take(i as int) =~= rows_view(shards@));
    }
    ids
}

} // verus!
