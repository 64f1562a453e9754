//! The open reports as a moderator receives them: quote by quote in the
//! order of the quotes' ids, each quote with its open reports in the order
//! of theirs.

use vstd::prelude::*;
use crate::model::{
    report_rows_view, reported_view, ReportRowView, ReportView, ReportedQuoteResponse,
    ReportedQuoteShard, ReportedQuoteView,
};
use crate::reports::{
    format_reports, group_reports, lemma_reported_ids_complete, report_of, reported_ids,
    reports_for,
};
use crate::state::{has_open_report, QuoteState, ReportState};
use crate::store::{QuoteRecord, Store};

verus! {

/// The row that stands for one report of a quote.
pub open spec fn report_row(quote: QuoteState, report: ReportState) -> ReportRowView {
    ReportRowView {
        quote_id: quote.id,
        quote_submitter: quote.submitter,
        quote_timestamp: quote.timestamp,
        quote_hidden: quote.hidden is Some,
        report_timestamp: report.timestamp,
        report_id: report.id,
        report_reason: report.reason,
        report_resolver: report.resolver,
    }
}

/// The rows that stand for the open ones among `reports`, in their order.
pub open spec fn open_rows(quote: QuoteState, reports: Seq<ReportState>) -> Seq<ReportRowView>
    decreases reports.len(),
{
    if reports.len() == 0 {
        Seq::empty()
    } else {
        let earlier = open_rows(quote, reports.drop_last());
        if reports.last().resolver is None {
            earlier.push(report_row(quote, reports.last()))
        } else {
            earlier
        }
    }
}

/// The rows that stand for every open report in the store: quote after
/// quote in the order of their ids, each quote's reports in the order of
/// theirs.
pub open spec fn all_open_rows(quotes: Seq<QuoteState>) -> Seq<ReportRowView>
    decreases quotes.len(),
{
    if quotes.len() == 0 {
        Seq::empty()
    } else {
        all_open_rows(quotes.drop_last()) + open_rows(quotes.last(), quotes.last().reports)
    }
}

/// Appends the rows of the open reports of one quote.
fn push_open_rows(rows: &mut Vec<ReportedQuoteShard>, record: &QuoteRecord)
    ensures
        report_rows_view(final(rows)@) == report_rows_view(old(rows)@) + open_rows(
            record@,
            record@.reports,
        ),
{
    let ghost before = report_rows_view(rows@);
    let ghost quote = record@;
    let mut k: usize = 0;
    proof {
        assert(report_rows_view(rows@) =~= before + open_rows(quote, quote.reports.take(0)));
    }
    while k < record.reports.len()
        invariant
            k <= record.reports.len(),
            quote == record@,
            report_rows_view(rows@) == before + open_rows(quote, quote.reports.take(k as int)),
        decreases record.reports.len() - k,
    {
        let report = &record.reports[k];
        let ghost so_far = report_rows_view(rows@);
        proof {
            assert(quote.reports.take(k + 1).last() == report@);
            assert(quote.reports.take(k + 1).drop_last() =~= quote.reports.take(k as int));
        }
        if report.resolver.is_none() {
            let row = ReportedQuoteShard {
                quote_id: record.id,
                quote_submitter: record.submitter.clone(),
                quote_timestamp: record.timestamp,
                quote_hidden: record.hidden.is_some(),
                report_timestamp: report.timestamp,
                report_id: report.id,
                report_reason: report.reason.clone(),
                report_resolver: None,
            };
            rows.push(row);
            proof {
                assert(row@ == report_row(quote, report@));
                assert(report_rows_view(rows@) =~= so_far.push(row@));
                assert(report_rows_view(rows@) =~= before + open_rows(
                    quote,
                    quote.reports.take(k + 1),
                ));
            }
        }
        k += 1;
    }
    proof {
        assert(quote.reports.take(k as int) =~= quote.reports);
    }
}

/// Queries the rows of every open report.
pub fn fetch_report_rows(store: &Store) -> (rows: Vec<ReportedQuoteShard>)
    ensures
        report_rows_view(rows@) == all_open_rows(store@.quotes),
{
    let ghost all = store@.quotes;
    let mut rows: Vec<ReportedQuoteShard> = Vec::new();
    let mut i: usize = 0;
    proof {
        assert(report_rows_view(rows@) =~= all_open_rows(all.take(0)));
    }
    while i < store.quotes.len()
        invariant
            i <= store.quotes.len(),
            all == store@.quotes,
            report_rows_view(rows@) == all_open_rows(all.take(i as int)),
        decreases store.quotes.len() - i,
    {
        proof {
            assert(all.take(i + 1).last() == store.quotes@[i as int]@);
            assert(all.take(i + 1).drop_last() =~= all.take(i as int));
        }
        push_open_rows(&mut rows, &store.quotes[i]);
        i += 1;
    }
    proof {
        assert(all.take(i as int) =~= all);
    }
    rows
}

/// The open reports of a quote.
pub open spec fn open_reports(quote: QuoteState) -> Seq<ReportView> {
    open_rows(quote, quote.reports).map_values(|r: ReportRowView| report_of(r))
}

/// The quotes that have an open report, in the order of their ids, each
/// with its open reports.
pub open spec fn open_groups(quotes: Seq<QuoteState>) -> Seq<ReportedQuoteView>
    decreases quotes.len(),
{
    if quotes.len() == 0 {
        Seq::empty()
    } else {
        let earlier = open_groups(quotes.drop_last());
        if has_open_report(quotes.last().reports) {
            earlier.push(
                ReportedQuoteView {
                    quote_id: quotes.last().id,
                    reports: open_reports(quotes.last()),
                },
            )
        } else {
            earlier
        }
    }
}

/// Whether every row is about the quote `quote_id`.
pub open spec fn all_about(rows: Seq<ReportRowView>, quote_id: i32) -> bool {
    forall|k: int| 0 <= k < rows.len() ==> (#[trigger] rows[k]).quote_id == quote_id
}

/// The reports about a quote in two runs of rows are those in the first
/// followed by those in the second.
pub proof fn lemma_reports_for_concat(x: Seq<ReportRowView>, y: Seq<ReportRowView>, id: i32)
    ensures
        reports_for(x + y, id) == reports_for(x, id) + reports_for(y, id),
    decreases y.len(),
{
    if y.len() == 0 {
        assert(x + y =~= x);
        assert(reports_for(x, id) + reports_for(y, id) =~= reports_for(x, id));
    } else {
        assert((x + y).drop_last() =~= x + y.drop_last());
        assert((x + y).last() == y.last());
        lemma_reports_for_concat(x, y.drop_last(), id);
        assert(reports_for(x + y, id) =~= reports_for(x, id) + reports_for(y, id));
    }
}

/// Rows that are all about one quote hold reports about that quote only.
pub proof fn lemma_reports_for_one_quote(y: Seq<ReportRowView>, quote_id: i32, id: i32)
    requires
        all_about(y, quote_id),
    ensures
        reports_for(y, id) == if id == quote_id {
            y.map_values(|r: ReportRowView| report_of(r))
        } else {
            Seq::empty()
        },
    decreases y.len(),
{
    let want = if id == quote_id {
        y.map_values(|r: ReportRowView| report_of(r))
    } else {
        Seq::empty()
    };
    if y.len() > 0 {
        assert(all_about(y.drop_last(), quote_id)) by {
            assert forall|k: int| 0 <= k < y.drop_last().len() implies (
            #[trigger] y.drop_last()[k]).quote_id == quote_id by {
                assert(y[k].quote_id == quote_id);
            }
        }
        assert(y.last() == y[y.len() - 1]);
        lemma_reports_for_one_quote(y.drop_last(), quote_id, id);
    }
    assert(reports_for(y, id) =~= want);
}

/// Rows about a quote that no earlier row mentions add that quote to the
/// reported ids, once.
pub proof fn lemma_reported_ids_concat(x: Seq<ReportRowView>, y: Seq<ReportRowView>, quote_id: i32)
    requires
        all_about(y, quote_id),
        !reported_ids(x).contains(quote_id),
    ensures
        reported_ids(x + y) == if y.len() > 0 {
            reported_ids(x).push(quote_id)
        } else {
            reported_ids(x)
        },
    decreases y.len(),
{
    if y.len() == 0 {
        assert(x + y =~= x);
    } else {
        let shorter = y.drop_last();
        assert((x + y).drop_last() =~= x + shorter);
        assert((x + y).last() == y[y.len() - 1]);
        assert(all_about(shorter, quote_id)) by {
            assert forall|k: int| 0 <= k < shorter.len() implies (#[trigger] shorter[k]).quote_id
                == quote_id by {
                assert(y[k].quote_id == quote_id);
            }
        }
        lemma_reported_ids_concat(x, shorter, quote_id);
        if shorter.len() > 0 {
            assert(reported_ids(x).push(quote_id)[reported_ids(x).len() as int] == quote_id);
        }
    }
}

/// The rows of a quote's open reports are all about that quote, and there
/// are some exactly when the quote has an open report.
pub proof fn lemma_open_rows(quote: QuoteState, reports: Seq<ReportState>)
    ensures
        all_about(open_rows(quote, reports), quote.id),
        open_rows(quote, reports).len() > 0 <==> has_open_report(reports),
    decreases reports.len(),
{
    if reports.len() > 0 {
        let shorter = reports.drop_last();
        lemma_open_rows(quote, shorter);
        if has_open_report(reports) {
            let k = choose|k: int| 0 <= k < reports.len() && (#[trigger] reports[k]).resolver is None;
            if k < shorter.len() {
                assert(shorter[k].resolver is None);
            }
        }
        if has_open_report(shorter) {
            let k = choose|k: int| 0 <= k < shorter.len() && (#[trigger] shorter[k]).resolver is None;
            assert(reports[k].resolver is None);
        }
        if reports.last().resolver is None {
            assert(reports[reports.len() - 1].resolver is None);
        }
    }
}

/// Every group of open reports belongs to one of the quotes.
pub proof fn lemma_open_groups_ids(quotes: Seq<QuoteState>, k: int)
    requires
        0 <= k < open_groups(quotes).len(),
    ensures
        exists|i: int|
            0 <= i < quotes.len() && (#[trigger] quotes[i]).id == open_groups(quotes)[k].quote_id,
    decreases quotes.len(),
{
    if quotes.len() > 0 {
        let earlier = open_groups(quotes.drop_last());
        if k < earlier.len() {
            lemma_open_groups_ids(quotes.drop_last(), k);
            let i = choose|i: int|
                0 <= i < quotes.drop_last().len() && (#[trigger] quotes.drop_last()[i]).id
                    == earlier[k].quote_id;
            assert(quotes[i].id == open_groups(quotes)[k].quote_id);
        } else {
            assert(quotes[quotes.len() - 1].id == open_groups(quotes)[k].quote_id);
        }
    }
}

/// Grouping the rows of every open report gives one entry for each quote
/// that has an open report, in the order of the quotes' ids, and each entry
/// holds its quote's open reports.
pub proof fn law_open_reports_grouped(quotes: Seq<QuoteState>)
    requires
        forall|i: int, j: int|
            0 <= i < j < quotes.len() ==> (#[trigger] quotes[i]).id < (#[trigger] quotes[j]).id,
    ensures
        group_reports(all_open_rows(quotes)) == open_groups(quotes),
    decreases quotes.len(),
{
    if quotes.len() == 0 {
        assert(group_reports(all_open_rows(quotes)) =~= open_groups(quotes));
    } else {
        let earlier = quotes.drop_last();
        let last = quotes.last();
        assert forall|i: int, j: int| 0 <= i < j < earlier.len() implies (#[trigger] earlier[i]).id
            < (#[trigger] earlier[j]).id by {
            assert(quotes[i].id < quotes[j].id);
        }
        law_open_reports_grouped(earlier);
        let x = all_open_rows(earlier);
        let y = open_rows(last, last.reports);
        let ids = reported_ids(x);
        lemma_open_rows(last, last.reports);
        assert(group_reports(x).len() == ids.len());
        assert(!ids.contains(last.id)) by {
            if ids.contains(last.id) {
                let k = choose|k: int| 0 <= k < ids.len() && ids[k] == last.id;
                assert(group_reports(x)[k].quote_id == last.id);
                lemma_open_groups_ids(earlier, k);
                let i = choose|i: int|
                    0 <= i < earlier.len() && (#[trigger] earlier[i]).id == open_groups(
                        earlier,
                    )[k].quote_id;
                assert(quotes[i].id < quotes[quotes.len() - 1].id);
            }
        }
        lemma_reported_ids_concat(x, y, last.id);
        lemma_reported_ids_complete(x, last.id);
        let got = group_reports(x + y);
        let want = open_groups(quotes);
        assert(got.len() == want.len());
        assert forall|k: int| 0 <= k < got.len() implies got[k] == want[k] by {
            let id = reported_ids(x + y)[k];
            lemma_reports_for_concat(x, y, id);
            lemma_reports_for_one_quote(y, last.id, id);
            if k < ids.len() {
                assert(ids[k] == id);
                assert(ids.contains(id));
                assert(reports_for(x, id) + Seq::<ReportView>::empty() =~= reports_for(x, id));
                assert(group_reports(x)[k] == want[k]);
            } else {
                assert(reports_for(x, id) =~= Seq::<ReportView>::empty());
                assert(Seq::<ReportView>::empty() + open_reports(last) =~= open_reports(last));
            }
        }
        assert(got =~= want);
    }
}

/// Lists the open reports, grouped by the quote they are about.
pub fn get_reports(store: &Store) -> (grouped: Vec<ReportedQuoteResponse>)
    requires
        store.wf(),
    ensures
        reported_view(grouped@) == open_groups(store@.quotes),
{
    let rows = fetch_report_rows(store);
    proof {
        law_open_reports_grouped(store@.quotes);
    }
    format_reports(&rows)
}

} // verus!
