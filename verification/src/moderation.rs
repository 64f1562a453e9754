//! Moderation: hiding a quote, reporting it, and resolving its reports.
//!
//! A quote is hidden once and stays hidden. A report is filed under the
//! reporter's anonymous identity, one per identity and quote, and is open
//! until a moderator resolves it; resolving can hide the quote in the same
//! step, for the reason that the report gave.

use vstd::prelude::*;
use crate::digest::{reporter_hash, reporter_identity, same_bytes};
use crate::model::{Text, User};
use crate::response::Rejection;
use crate::state::{
    ascending_reports, distinct_reporters, first_open_reason, has_open_report, has_quote,
    has_reported, is_speaker, position, quote_by_id, resolve_all, resolve_one, HiddenState,
    QuoteState, ReportState, StoreState, MIN_REASON_CHARS,
};
use crate::store::{reports_state, HiddenRecord, ReportRecord, Store};
use crate::text::char_count;

verus! {

// Hiding

/// Whether `who` can hide the quote: it is there, it is not hidden yet, and
/// `who` is privileged or one of its speakers.
pub open spec fn hideable(state: StoreState, id: i32, who: Text, privileged: bool) -> bool {
    &&& has_quote(state.quotes, id)
    &&& quote_by_id(state.quotes, id).hidden is None
    &&& privileged || is_speaker(quote_by_id(state.quotes, id), who)
}

/// The store after `who` has hidden the quote.
pub open spec fn hidden_by(
    state: StoreState,
    id: i32,
    who: Text,
    reason: Text,
    now: i64,
) -> StoreState {
    let at = position(state.quotes, id);
    state.with_quote(
        at,
        QuoteState {
            hidden: Some(HiddenState { reason, actor: who, timestamp: now }),
            ..state.quotes[at]
        },
    )
}

/// Hides a quote, whatever the length of the reason. A quote that is not
/// there, that is hidden already, or that the caller is neither privileged
/// for nor quoted in, is left as it is.
pub fn hide_quote_by_id(
    store: &mut Store,
    id: i32,
    user: &User,
    security_enabled: bool,
    reason: String,
    now: i64,
) -> (outcome: Result<(), Rejection>)
    requires
        old(store).wf(),
    ensures
        final(store).wf(),
        if hideable(
            old(store)@,
            id,
            user.preferred_username@,
            user.privileged(security_enabled),
        ) {
            outcome is Ok && final(store)@ == hidden_by(
                old(store)@,
                id,
                user.preferred_username@,
                reason@,
                now,
            )
        } else {
            outcome == Err::<(), Rejection>(Rejection::NotQuoted) && final(store)@ == old(
                store,
            )@
        },
{
    match store.find(id) {
        None => Err(Rejection::NotQuoted),
        Some(i) => {
            assert(store@.quotes[i as int] == store.quotes@[i as int]@);
            if store.quotes[i].hidden.is_some() {
                return Err(Rejection::NotQuoted);
            }
            if !user.is_privileged(security_enabled) && !store.quotes[i].has_speaker(
                &user.preferred_username,
            ) {
                return Err(Rejection::NotQuoted);
            }
            let ghost before = store@;
            let record = HiddenRecord {
                reason,
                actor: user.preferred_username.clone(),
                timestamp: now,
            };
            store.quotes[i].hidden = Some(record);
            proof {
                assert(store@.quotes =~= hidden_by(
                    before,
                    id,
                    user.preferred_username@,
                    reason@,
                    now,
                ).quotes);
            }
            Ok(())
        },
    }
}

/// Checks the reason given for hiding a quote: it must have at least ten
/// characters.
pub fn check_hide_reason(reason: &str) -> (verdict: Result<(), Rejection>)
    ensures
        if reason@.len() < MIN_REASON_CHARS {
            verdict == Err::<(), Rejection>(Rejection::ReasonTooShort)
        } else {
            verdict is Ok
        },
{
    if char_count(reason) < MIN_REASON_CHARS {
        Err(Rejection::ReasonTooShort)
    } else {
        Ok(())
    }
}

/// Hides a quote for a reason of at least ten characters. A shorter reason
/// is turned down before the store is looked at.
pub fn hide_quote(
    store: &mut Store,
    id: i32,
    user: &User,
    security_enabled: bool,
    reason: String,
    now: i64,
) -> (outcome: Result<(), Rejection>)
    requires
        old(store).wf(),
    ensures
        final(store).wf(),
        if reason@.len() < MIN_REASON_CHARS {
            outcome == Err::<(), Rejection>(Rejection::ReasonTooShort) && final(store)@ == old(
                store,
            )@
        } else if hideable(
            old(store)@,
            id,
            user.preferred_username@,
            user.privileged(security_enabled),
        ) {
            outcome is Ok && final(store)@ == hidden_by(
                old(store)@,
                id,
                user.preferred_username@,
                reason@,
                now,
            )
        } else {
            outcome == Err::<(), Rejection>(Rejection::NotQuoted) && final(store)@ == old(
                store,
            )@
        },
{
    match check_hide_reason(reason.as_str()) {
        Err(fault) => Err(fault),
        Ok(_) => hide_quote_by_id(store, id, user, security_enabled, reason, now),
    }
}

// Reporting

/// Whether the identity `reporter` can report the quote: it is there, it is
/// not hidden, and this identity has not reported it before.
pub open spec fn reportable(state: StoreState, id: i32, reporter: Seq<u8>) -> bool {
    &&& has_quote(state.quotes, id)
    &&& quote_by_id(state.quotes, id).hidden is None
    &&& !has_reported(quote_by_id(state.quotes, id).reports, reporter)
}

/// The store after the identity `reporter` has reported the quote: the new
/// report is open, stands last among the quote's reports and has taken the
/// next report id.
pub open spec fn reported(
    state: StoreState,
    id: i32,
    reporter: Seq<u8>,
    reason: Text,
    now: i64,
) -> StoreState {
    let at = position(state.quotes, id);
    let report = ReportState {
        id: state.next_report_id,
        reason,
        reporter,
        timestamp: now,
        resolver: None,
    };
    StoreState {
        quotes: state.quotes.update(
            at,
            QuoteState { reports: state.quotes[at].reports.push(report), ..state.quotes[at] },
        ),
        next_report_id: (state.next_report_id + 1) as i32,
        ..state
    }
}

/// A well-formed store stays well formed when a report is filed.
pub proof fn lemma_reported_wf(
    state: StoreState,
    id: i32,
    reporter: Seq<u8>,
    reason: Text,
    now: i64,
)
    requires
        state.wf(),
        reportable(state, id, reporter),
        state.next_report_id < i32::MAX,
    ensures
        reported(state, id, reporter, reason, now).wf(),
{
    let at = position(state.quotes, id);
    let after = reported(state, id, reporter, reason, now);
    let old_reports = state.quotes[at].reports;
    let reports = after.quotes[at].reports;
    assert(crate::state::quote_wf(state.quotes[at]));
    assert forall|a: int, b: int| 0 <= a < b < reports.len() implies (#[trigger] reports[a]).reporter
        != (#[trigger] reports[b]).reporter && reports[a].id < reports[b].id by {
        if b == old_reports.len() {
            assert(old_reports[a].reporter != reporter);
            assert(old_reports[a].id < state.next_report_id);
        } else {
            assert(old_reports[a].reporter != old_reports[b].reporter);
            assert(old_reports[a].id < old_reports[b].id);
        }
    }
    assert(is_speaker(after.quotes[at], after.quotes[at].submitter) == is_speaker(
        state.quotes[at],
        state.quotes[at].submitter,
    ));
    assert(crate::state::quote_wf(after.quotes[at]));
    assert forall|i: int, j: int| 0 <= i < j < after.quotes.len() implies (
    #[trigger] after.quotes[i]).id < (#[trigger] after.quotes[j]).id by {
        assert(state.quotes[i].id < state.quotes[j].id);
    }
    assert forall|q: int| 0 <= q < after.quotes.len() implies {
        &&& crate::state::quote_wf(#[trigger] after.quotes[q])
        &&& 1 <= after.quotes[q].id < after.next_quote_id
        &&& forall|k: int|
            0 <= k < after.quotes[q].reports.len() ==> 1 <= (
            #[trigger] after.quotes[q].reports[k]).id < after.next_report_id
    } by {
        assert(crate::state::quote_wf(state.quotes[q]));
        assert forall|k: int| 0 <= k < after.quotes[q].reports.len() implies 1 <= (
        #[trigger] after.quotes[q].reports[k]).id < after.next_report_id by {
            if q == at && k == old_reports.len() {
            } else {
                assert(1 <= state.quotes[q].reports[k].id < state.next_report_id);
            }
        }
    }
}

/// Whether the identity has a report among the records.
fn reported_before(reports: &Vec<ReportRecord>, reporter: &Vec<u8>) -> (found: bool)
    ensures
        found == has_reported(reports_state(reports@), reporter@),
{
    let mut k: usize = 0;
    while k < reports.len()
        invariant
            k <= reports.len(),
            forall|j: int|
                0 <= j < k ==> (#[trigger] reports_state(reports@)[j]).reporter != reporter@,
        decreases reports.len() - k,
    {
        if same_bytes(&reports[k].submitter_hash, reporter) {
            assert(reports_state(reports@)[k as int].reporter == reporter@);
            return true;
        }
        k += 1;
    }
    false
}

/// Files a report under the identity `reporter`. The reason may be of any
/// length. A quote that is not there or is hidden, and a second report under
/// one identity, are turned down.
pub fn file_report(
    store: &mut Store,
    id: i32,
    reason: String,
    reporter: Vec<u8>,
    now: i64,
) -> (outcome: Result<(), Rejection>)
    requires
        old(store).wf(),
    ensures
        final(store).wf(),
        if !reportable(old(store)@, id, reporter@) {
            outcome == Err::<(), Rejection>(Rejection::AlreadyReported) && final(store)@ == old(
                store,
            )@
        } else if old(store)@.next_report_id == i32::MAX {
            outcome == Err::<(), Rejection>(Rejection::StoreExhausted) && final(store)@ == old(
                store,
            )@
        } else {
            outcome is Ok && final(store)@ == reported(old(store)@, id, reporter@, reason@, now)
        },
{
    match store.find(id) {
        None => Err(Rejection::AlreadyReported),
        Some(i) => {
            assert(store@.quotes[i as int] == store.quotes@[i as int]@);
            if store.quotes[i].hidden.is_some() {
                return Err(Rejection::AlreadyReported);
            }
            if reported_before(&store.quotes[i].reports, &reporter) {
                return Err(Rejection::AlreadyReported);
            }
            if store.next_report_id == i32::MAX {
                return Err(Rejection::StoreExhausted);
            }
            let ghost before = store@;
            let ghost old_reports = before.quotes[i as int].reports;
            let report_id = store.next_report_id;
            let record = ReportRecord {
                id: report_id,
                reason,
                submitter_hash: reporter,
                timestamp: now,
                resolver: None,
            };
            store.quotes[i].reports.push(record);
            store.next_report_id = report_id + 1;
            proof {
                let after = reported(before, id, reporter@, reason@, now);
                assert(store@.quotes[i as int].reports =~= old_reports.push(record@));
                assert(store@.quotes =~= after.quotes);
                lemma_reported_wf(before, id, reporter@, reason@, now);
            }
            Ok(())
        },
    }
}

/// Reports a quote on behalf of `user`, under the anonymous identity that
/// their identifier hashes to.
pub fn report_quote(
    store: &mut Store,
    id: i32,
    reason: String,
    user: &User,
    now: i64,
) -> (outcome: Result<(), Rejection>)
    requires
        old(store).wf(),
    ensures
        final(store).wf(),
        if !reportable(old(store)@, id, reporter_identity(user.preferred_username@)) {
            outcome == Err::<(), Rejection>(Rejection::AlreadyReported) && final(store)@ == old(
                store,
            )@
        } else if old(store)@.next_report_id == i32::MAX {
            outcome == Err::<(), Rejection>(Rejection::StoreExhausted) && final(store)@ == old(
                store,
            )@
        } else {
            outcome is Ok && final(store)@ == reported(
                old(store)@,
                id,
                reporter_identity(user.preferred_username@),
                reason@,
                now,
            )
        },
{
    let reporter = reporter_hash(user.preferred_username.as_str());
    file_report(store, id, reason, reporter, now)
}

// Resolving

/// Whether the quote is there and has an open report.
pub open spec fn resolvable(state: StoreState, id: i32) -> bool {
    has_quote(state.quotes, id) && has_open_report(quote_by_id(state.quotes, id).reports)
}

/// The store after `resolver` has resolved every open report of the quote.
pub open spec fn resolved(state: StoreState, id: i32, resolver: Text) -> StoreState {
    let at = position(state.quotes, id);
    state.with_quote(
        at,
        QuoteState {
            reports: resolve_all(state.quotes[at].reports, resolver),
            ..state.quotes[at]
        },
    )
}

/// The reason that the first open report of the quote gave.
pub open spec fn open_reason(state: StoreState, id: i32) -> Text {
    first_open_reason(quote_by_id(state.quotes, id).reports).unwrap()
}

/// The reason of the first open report among the records.
fn find_open_reason(reports: &Vec<ReportRecord>) -> (reason: Option<String>)
    ensures
        crate::model::opt_text(reason) == first_open_reason(reports_state(reports@)),
        reason is Some == has_open_report(reports_state(reports@)),
{
    let ghost all = reports_state(reports@);
    let mut k: usize = 0;
    proof {
        assert(all.skip(0) =~= all);
    }
    while k < reports.len()
        invariant
            k <= reports.len(),
            all == reports_state(reports@),
            first_open_reason(all) == first_open_reason(all.skip(k as int)),
            forall|j: int| 0 <= j < k ==> (#[trigger] all[j]).resolver is Some,
        decreases reports.len() - k,
    {
        proof {
            assert(all.skip(k as int).first() == reports@[k as int]@);
            assert(all.skip(k as int).drop_first() =~= all.skip(k + 1));
        }
        if reports[k].resolver.is_none() {
            assert(all[k as int].resolver is None);
            return Some(reports[k].reason.clone());
        }
        k += 1;
    }
    None
}

/// Marks every open report among the records as resolved by `resolver`.
fn resolve_records(reports: &mut Vec<ReportRecord>, resolver: &String)
    ensures
        reports_state(final(reports)@) == resolve_all(reports_state(old(reports)@), resolver@),
{
    let ghost before = reports_state(reports@);
    let mut k: usize = 0;
    while k < reports.len()
        invariant
            k <= reports.len(),
            reports.len() == before.len(),
            forall|j: int|
                0 <= j < k ==> #[trigger] reports_state(reports@)[j] == resolve_one(
                    before[j],
                    resolver@,
                ),
            forall|j: int|
                k <= j < reports.len() ==> #[trigger] reports_state(reports@)[j] == before[j],
        decreases reports.len() - k,
    {
        let ghost earlier = reports@;
        assert(reports_state(earlier)[k as int] == before[k as int]);
        if reports[k].resolver.is_none() {
            reports[k].resolver = Some(resolver.clone());
        }
        proof {
            assert(reports@[k as int]@ == resolve_one(before[k as int], resolver@));
            assert forall|j: int| 0 <= j < reports.len() && j != k implies #[trigger] reports_state(
                reports@,
            )[j] == reports_state(earlier)[j] by {
                assert(reports@[j] == earlier[j]);
            }
        }
        k += 1;
    }
    proof {
        assert(reports_state(reports@) =~= resolve_all(before, resolver@));
    }
}

/// Resolving keeps the reports' ids and identities, so what held of them
/// before holds after.
pub proof fn lemma_resolve_all_keeps_order(reports: Seq<ReportState>, resolver: Text)
    requires
        distinct_reporters(reports),
        ascending_reports(reports),
    ensures
        distinct_reporters(resolve_all(reports, resolver)),
        ascending_reports(resolve_all(reports, resolver)),
        resolve_all(reports, resolver).len() == reports.len(),
        forall|k: int|
            0 <= k < reports.len() ==> (#[trigger] resolve_all(reports, resolver)[k]).id
                == reports[k].id,
        !has_open_report(resolve_all(reports, resolver)),
{
    let after = resolve_all(reports, resolver);
    assert forall|a: int, b: int| 0 <= a < b < after.len() implies (#[trigger] after[a]).reporter
        != (#[trigger] after[b]).reporter && after[a].id < after[b].id by {
        assert(reports[a].reporter != reports[b].reporter);
        assert(reports[a].id < reports[b].id);
    }
}

/// Resolves the open reports of a quote in the name of `user`, who must be
/// privileged. With `hide` set the quote is hidden in the same step, by
/// `user` and for the reason that the first open report gave; if the quote
/// is hidden already, nothing is resolved either.
pub fn resolve_report(
    store: &mut Store,
    id: i32,
    user: &User,
    security_enabled: bool,
    hide: bool,
    now: i64,
) -> (outcome: Result<(), Rejection>)
    requires
        old(store).wf(),
        user.privileged(security_enabled),
    ensures
        final(store).wf(),
        if !resolvable(old(store)@, id) {
            outcome == Err::<(), Rejection>(Rejection::NoOpenReport) && final(store)@ == old(
                store,
            )@
        } else if !hide {
            outcome is Ok && final(store)@ == resolved(old(store)@, id, user.preferred_username@)
        } else if hideable(old(store)@, id, user.preferred_username@, true) {
            outcome is Ok && final(store)@ == hidden_by(
                resolved(old(store)@, id, user.preferred_username@),
                id,
                user.preferred_username@,
                open_reason(old(store)@, id),
                now,
            )
        } else {
            outcome == Err::<(), Rejection>(Rejection::NotQuoted) && final(store)@ == old(
                store,
            )@
        },
{
    let i = match store.find(id) {
        None => {
            return Err(Rejection::NoOpenReport);
        },
        Some(i) => i,
    };
    assert(store@.quotes[i as int] == store.quotes@[i as int]@);
    let reason = match find_open_reason(&store.quotes[i].reports) {
        None => {
            return Err(Rejection::NoOpenReport);
        },
        Some(reason) => reason,
    };
    if hide && store.quotes[i].hidden.is_some() {
        return Err(Rejection::NotQuoted);
    }
    let ghost before = store@;
    let ghost who = user.preferred_username@;
    resolve_records(&mut store.quotes[i].reports, &user.preferred_username);
    proof {
        lemma_resolve_all_keeps_order(before.quotes[i as int].reports, who);
        assert(store@.quotes =~= resolved(before, id, who).quotes);
        let mid = resolved(before, id, who);
        assert(crate::state::quote_wf(before.quotes[i as int]));
        assert(is_speaker(mid.quotes[i as int], mid.quotes[i as int].submitter) == is_speaker(
            before.quotes[i as int],
            before.quotes[i as int].submitter,
        ));
        assert forall|k: int| 0 <= k < mid.quotes[i as int].reports.len() implies 1 <= (
        #[trigger] mid.quotes[i as int].reports[k]).id < before.next_report_id by {
            assert(1 <= before.quotes[i as int].reports[k].id < before.next_report_id);
        }
        crate::store::lemma_replaced(before, i as int, mid.quotes[i as int]);
    }
    if hide {
        hide_quote_by_id(store, id, user, security_enabled, reason, now)
    } else {
        Ok(())
    }
}

} // verus!
