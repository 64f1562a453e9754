//! Grouping the rows of the open-reports query by the quote they are about.

use std::collections::HashMap;
use vstd::prelude::*;
use crate::model::{
    report_rows_view, reported_view, ReportedQuoteResponse, ReportedQuoteShard, ReportedQuoteView,
    ReportResponse, ReportRowView, ReportView,
};

verus! {

broadcast use vstd::std_specs::hash::group_hash_axioms;

/// The report that a row carries.
pub open spec fn report_of(row: ReportRowView) -> ReportView {
    ReportView { reason: row.report_reason, timestamp: row.report_timestamp, id: row.report_id }
}

/// The reports among the rows that are about quote `quote_id`, in row order.
pub open spec fn reports_for(rows: Seq<ReportRowView>, quote_id: i32) -> Seq<ReportView>
    decreases rows.len(),
{
    if rows.len() == 0 {
        Seq::empty()
    } else {
        let earlier = reports_for(rows.drop_last(), quote_id);
        if rows.last().quote_id == quote_id {
            earlier.push(report_of(rows.last()))
        } else {
            earlier
        }
    }
}

/// The ids of the quotes that the rows are about, each once, in the order in
/// which the rows first mention them.
pub open spec fn reported_ids(rows: Seq<ReportRowView>) -> Seq<i32>
    decreases rows.len(),
{
    if rows.len() == 0 {
        Seq::empty()
    } else {
        let earlier = reported_ids(rows.drop_last());
        if earlier.contains(rows.last().quote_id) {
            earlier
        } else {
            earlier.push(rows.last().quote_id)
        }
    }
}

/// The rows grouped by quote: one entry for each quote that the rows mention,
/// holding every report about it.
pub open spec fn group_reports(rows: Seq<ReportRowView>) -> Seq<ReportedQuoteView> {
    reported_ids(rows).map_values(
        |id: i32| ReportedQuoteView { quote_id: id, reports: reports_for(rows, id) },
    )
}

/// No quote is listed twice among the reported ids.
pub proof fn lemma_reported_ids_distinct(rows: Seq<ReportRowView>)
    ensures
        reported_ids(rows).no_duplicates(),
    decreases rows.len(),
{
    if rows.len() > 0 {
        lemma_reported_ids_distinct(rows.drop_last());
    }
}

/// A quote is listed among the reported ids exactly when a row is about it,
/// and a quote that is not listed has no reports.
pub proof fn lemma_reported_ids_complete(rows: Seq<ReportRowView>, quote_id: i32)
    ensures
        reported_ids(rows).contains(quote_id) <==> exists|i: int|
            0 <= i < rows.len() && (#[trigger] rows[i]).quote_id == quote_id,
        !reported_ids(rows).contains(quote_id) ==> reports_for(rows, quote_id).len() == 0,
    decreases rows.len(),
{
    if rows.len() > 0 {
        let earlier = rows.drop_last();
        lemma_reported_ids_complete(earlier, quote_id);
        let ids = reported_ids(earlier);
        let last = rows.last().quote_id;
        if reported_ids(rows).contains(quote_id) {
            if ids.contains(quote_id) {
                let i = choose|i: int|
                    0 <= i < earlier.len() && (#[trigger] earlier[i]).quote_id == quote_id;
                assert(rows[i].quote_id == quote_id);
            } else {
                assert(!ids.contains(last));
                let k = choose|k: int|
                    0 <= k < ids.push(last).len() && ids.push(last)[k] == quote_id;
                if k < ids.len() {
                    assert(ids[k] == quote_id);
                }
                assert(rows[rows.len() - 1].quote_id == quote_id);
            }
        }
        if exists|i: int| 0 <= i < rows.len() && (#[trigger] rows[i]).quote_id == quote_id {
            let i = choose|i: int| 0 <= i < rows.len() && (#[trigger] rows[i]).quote_id == quote_id;
            if i < earlier.len() {
                assert(earlier[i].quote_id == quote_id);
                assert(ids.contains(quote_id));
                if !ids.contains(last) {
                    let k = choose|k: int| 0 <= k < ids.len() && ids[k] == quote_id;
                    assert(ids.push(last)[k] == quote_id);
                }
            } else {
                if !ids.contains(last) {
                    assert(ids.push(last)[ids.len() as int] == quote_id);
                }
            }
        }
    }
}

/// What the map of places holds while rows are grouped: for every quote
/// that has a group, where the group stands, and nothing else.
pub open spec fn places_of(places: Map<i32, usize>, groups: Seq<ReportedQuoteResponse>) -> bool {
    &&& forall|id: i32| #[trigger]
        places.contains_key(id) ==> places[id] < groups.len() && groups[places[id] as int].quote_id
            == id
    &&& forall|k: int|
        0 <= k < groups.len() ==> places.contains_key((#[trigger] groups[k]).quote_id)
}

/// Where the group of quote `quote_id` stands in `groups`, if it has one.
fn find_group(
    places: &HashMap<i32, usize>,
    groups: &Vec<ReportedQuoteResponse>,
    quote_id: i32,
) -> (at: Option<usize>)
    requires
        places_of(places@, groups@),
    ensures
        match at {
            Some(k) => k < groups.len() && groups@[k as int].quote_id == quote_id,
            None => forall|k: int| 0 <= k < groups.len() ==> groups@[k].quote_id != quote_id,
        },
{
    match places.get(&quote_id) {
        Some(k) => Some(*k),
        None => {
            assert forall|k: int| 0 <= k < groups.len() implies groups@[k].quote_id
                != quote_id by {
                assert(places@.contains_key(groups@[k].quote_id));
            }
            None
        },
    }
}

/// Groups the rows of the open-reports query by quote. Each quote that the
/// rows mention gets one entry, in the order of first mention, and each
/// entry holds the quote's reports in row order.
pub fn format_reports(quotes: &Vec<ReportedQuoteShard>) -> (grouped: Vec<ReportedQuoteResponse>)
    ensures
        reported_view(grouped@) == group_reports(report_rows_view(quotes@)),
{
    let ghost rows = report_rows_view(quotes@);
    let mut grouped: Vec<ReportedQuoteResponse> = Vec::new();
    let mut places: HashMap<i32, usize> = HashMap::new();
    let mut i: usize = 0;
    proof {
        assert(reported_view(grouped@) =~= group_reports(rows.take(0)));
    }
    while i < quotes.len()
        invariant
            i <= quotes.len(),
            rows == report_rows_view(quotes@),
            reported_view(grouped@) == group_reports(rows.take(i as int)),
            places_of(places@, grouped@),
        decreases quotes.len() - i,
    {
        let quote = &quotes[i];
        let ghost before = reported_view(grouped@);
        let ghost seen = rows.take(i as int);
        let ghost next = rows.take(i + 1);
        let ghost ids = reported_ids(seen);
        proof {
            assert(next.last() == quote@);
            assert(next.drop_last() =~= seen);
            lemma_reported_ids_distinct(seen);
            lemma_reported_ids_complete(seen, quote.quote_id);
            assert(before.len() == ids.len());
            assert forall|j: int| 0 <= j < ids.len() implies before[j].quote_id == ids[j]
                && #[trigger] grouped@[j].quote_id == ids[j] by {
                assert(before[j] == grouped@[j]@);
            }
        }
        let report = ReportResponse {
            reason: quote.report_reason.clone(),
            timestamp: quote.report_timestamp,
            id: quote.report_id,
        };
        match find_group(&places, &grouped, quote.quote_id) {
            Some(k) => {
                let ghost group = grouped@[k as int];
                let ghost earlier = grouped@;
                grouped[k].reports.push(report);
                proof {
                    assert forall|j: int| 0 <= j < grouped.len() implies (
                    #[trigger] grouped@[j]).quote_id == earlier[j].quote_id by {}

                    assert(ids[k as int] == quote.quote_id);
                    assert(ids.contains(quote.quote_id));
                    assert(reported_ids(next) == ids);
                    assert(grouped@[k as int]@.reports =~= group@.reports.push(report@));
                    assert(reported_view(grouped@) =~= group_reports(next)) by {
                        assert forall|j: int| 0 <= j < ids.len() implies reported_view(
                            grouped@,
                        )[j] == group_reports(next)[j] by {
                            if j != k {
                                assert(ids[j] != ids[k as int]);
                                assert(reported_view(grouped@)[j] == before[j]);
                            }
                        }
                    }
                }
            },
            None => {
                let mut reports: Vec<ReportResponse> = Vec::new();
                reports.push(report);
                let group = ReportedQuoteResponse { quote_id: quote.quote_id, reports };
                places.insert(quote.quote_id, grouped.len());
                grouped.push(group);
                proof {
                    assert(!ids.contains(quote.quote_id)) by {
                        if ids.contains(quote.quote_id) {
                            let j = choose|j: int| 0 <= j < ids.len() && ids[j] == quote.quote_id;
                            assert(grouped@[j].quote_id == ids[j]);
                        }
                    }
                    assert(reported_ids(next) == ids.push(quote.quote_id));
                    assert(group@.reports =~= seq![report@]);
                    assert(reports_for(next, quote.quote_id) =~= seq![report@]);
                    assert(reported_view(grouped@) =~= group_reports(next)) by {
                        assert forall|j: int| 0 <= j < ids.len() implies reported_view(
                            grouped@,
                        )[j] == group_reports(next)[j] by {
                            assert(ids[j] != quote.quote_id);
                            assert(reported_view(grouped@)[j] == before[j]);
                        }
                    }
                }
            },
        }
        i += 1;
    }
    proof {
        assert(rows.take(i as int) =~= rows);
    }
    grouped
}

} // verus!
