use garmata::http::HttpResult;
use garmata::summary::{add_total, csv_heading, csv_row, place, summarize, FlowTotals};

fn result(group: &str, flow: &str, total: u128) -> HttpResult {
    HttpResult {
        group: group.to_string(),
        flow: flow.to_string(),
        start_timestamp: "2026-01-02T03:04:05.678Z".to_string(),
        dns_duration: 0,
        connect_duration: 0,
        tls_duration: 0,
        redirect_duration: 0,
        sending_duration: 0,
        waiting_duration: 0,
        download_duration: total,
        total_duration: total,
        response_status: "200".to_string(),
    }
}

#[test]
fn the_heading_names_the_twelve_columns() {
    assert_eq!(
        csv_heading(),
        "start timestamp,response status,group,flow,total in μs,DNS lookup in μs,Connection in μs,TLS handshake in μs,redirecting in μs,sending in μs,waiting in μs,downloading in μs"
    );
    assert_eq!(csv_heading().split(',').count(), 12);
}

#[test]
fn a_row_holds_the_durations_in_microseconds() {
    let r = HttpResult {
        group: "g".to_string(),
        flow: "f".to_string(),
        start_timestamp: "2026-01-02T03:04:05.678Z".to_string(),
        dns_duration: 1_000,
        connect_duration: 2_999,
        tls_duration: 0,
        redirect_duration: 999,
        sending_duration: 4_000_000,
        waiting_duration: 5_000_000_000,
        download_duration: 6_001,
        total_duration: 5_004_010_999,
        response_status: "302".to_string(),
    };
    assert_eq!(csv_row(&r), "2026-01-02T03:04:05.678Z,302,g,f,5004010,1,2,0,0,4000,5000000,6");
}

#[test]
fn a_row_of_a_result_without_names() {
    let r = result("", "", 0);
    assert_eq!(csv_row(&r), "2026-01-02T03:04:05.678Z,200,,,0,0,0,0,0,0,0,0");
}

#[test]
fn a_total_goes_before_the_first_that_is_not_below_it() {
    let mut totals = vec![];
    place(&mut totals, 5);
    assert_eq!(totals, vec![5]);
    place(&mut totals, 3);
    place(&mut totals, 9);
    place(&mut totals, 5);
    place(&mut totals, 4);
    assert_eq!(totals, vec![3, 4, 5, 5, 9]);
    place(&mut totals, 0);
    place(&mut totals, u128::MAX);
    assert_eq!(totals, vec![0, 3, 4, 5, 5, 9, u128::MAX]);
}

#[test]
fn totals_are_kept_by_flow() {
    let mut flows: Vec<FlowTotals> = vec![];
    add_total(&mut flows, &"b".to_string(), 2);
    add_total(&mut flows, &"a".to_string(), 7);
    add_total(&mut flows, &"b".to_string(), 1);
    assert_eq!(flows.len(), 2);
    assert_eq!(flows[0].flow, "b");
    assert_eq!(flows[0].totals, vec![1, 2]);
    assert_eq!(flows[1].flow, "a");
    assert_eq!(flows[1].totals, vec![7]);
}

#[test]
fn results_are_summed_up_by_group_and_flow() {
    let results = vec![
        result("g1", "f1", 30),
        result("g2", "f1", 5),
        result("g1", "f2", 7),
        result("g1", "f1", 10),
        result("g1", "f1", 20),
        result("g2", "f1", 1),
    ];
    let summary = summarize(&results);
    assert_eq!(summary.len(), 2);
    assert_eq!(summary[0].group, "g1");
    assert_eq!(summary[0].count(), Some(4));
    assert_eq!(summary[0].flows.len(), 2);
    assert_eq!(summary[0].flows[0].flow, "f1");
    assert_eq!(summary[0].flows[0].totals, vec![10, 20, 30]);
    assert_eq!(summary[0].flows[1].flow, "f2");
    assert_eq!(summary[0].flows[1].totals, vec![7]);
    assert_eq!(summary[1].group, "g2");
    assert_eq!(summary[1].count(), Some(2));
    assert_eq!(summary[1].flows[0].totals, vec![1, 5]);
}

#[test]
fn no_results_no_summary() {
    assert!(summarize(&vec![]).is_empty());
}

#[test]
fn the_figures_of_a_flow() {
    let results: Vec<HttpResult> =
        [40u128, 10, 30, 20].iter().map(|t| result("g", "f", *t)).collect();
    let summary = summarize(&results);
    let flow = &summary[0].flows[0];
    assert_eq!(flow.count(), 4);
    assert_eq!(flow.minimum(), Some(10));
    assert_eq!(flow.median(), Some(30));
    assert_eq!(flow.maximum(), Some(40));
    let empty = FlowTotals { flow: String::new(), totals: vec![] };
    assert_eq!(empty.count(), 0);
    assert_eq!(empty.minimum(), None);
    assert_eq!(empty.median(), None);
    assert_eq!(empty.maximum(), None);
    let one = FlowTotals { flow: String::new(), totals: vec![8] };
    assert_eq!(one.minimum(), Some(8));
    assert_eq!(one.median(), Some(8));
    assert_eq!(one.maximum(), Some(8));
}
