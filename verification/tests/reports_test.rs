use quotefault::model::ReportedQuoteShard;
use quotefault::reports::format_reports;

fn row(quote_id: i32, report_id: i32, reason: &str) -> ReportedQuoteShard {
    ReportedQuoteShard {
        quote_id,
        quote_submitter: "alice".to_string(),
        quote_timestamp: 100,
        quote_hidden: false,
        report_timestamp: 200 + report_id as i64,
        report_id,
        report_reason: reason.to_string(),
        report_resolver: None,
    }
}

#[test]
fn format_reports_groups_rows_by_quote() {
    let rows = vec![row(3, 1, "spam"), row(3, 2, "rude"), row(5, 3, "wrong")];
    let grouped = format_reports(&rows);
    assert_eq!(grouped.len(), 2);
    assert_eq!(grouped[0].quote_id, 3);
    assert_eq!(grouped[0].reports.len(), 2);
    assert_eq!(grouped[0].reports[0].id, 1);
    assert_eq!(grouped[0].reports[0].reason, "spam");
    assert_eq!(grouped[0].reports[1].id, 2);
    assert_eq!(grouped[1].quote_id, 5);
    assert_eq!(grouped[1].reports.len(), 1);
    assert_eq!(grouped[1].reports[0].timestamp, 203);
}
