use data_acquisition::fetch::{
    fetch_outcome, next_step, target_path, write_outcome, FetchResult, FetchStep, HttpReply,
};
use data_acquisition::report::{gather, RunReport};

#[test]
fn http_500_is_an_http_error_and_writes_nothing() {
    let reply = HttpReply::Response { status: 500, body: Vec::new() };
    assert_eq!(next_step(&reply), FetchStep::Done(FetchResult::HttpError(500)));
    assert_eq!(fetch_outcome(&reply, false), FetchResult::HttpError(500));
    assert_eq!(fetch_outcome(&reply, true), FetchResult::HttpError(500));
    let reply = HttpReply::Response { status: 500, body: vec![1, 2, 3] };
    assert_eq!(next_step(&reply), FetchStep::Done(FetchResult::HttpError(500)));
}

#[test]
fn http_200_with_empty_body_is_empty_body() {
    let reply = HttpReply::Response { status: 200, body: Vec::new() };
    assert_eq!(next_step(&reply), FetchStep::Done(FetchResult::EmptyBody));
    assert_eq!(fetch_outcome(&reply, true), FetchResult::EmptyBody);
    assert_eq!(fetch_outcome(&reply, false), FetchResult::EmptyBody);
}

#[test]
fn http_200_with_body_is_written() {
    let reply = HttpReply::Response { status: 200, body: vec![0x47, 0x49, 0x46] };
    assert_eq!(next_step(&reply), FetchStep::Write);
    assert_eq!(fetch_outcome(&reply, true), FetchResult::Saved);
    assert_eq!(fetch_outcome(&reply, false), FetchResult::WriteError);
}

#[test]
fn transport_failure_is_a_transport_error() {
    assert_eq!(
        next_step(&HttpReply::TransportFailure),
        FetchStep::Done(FetchResult::TransportError)
    );
    assert_eq!(fetch_outcome(&HttpReply::TransportFailure, true), FetchResult::TransportError);
}

#[test]
fn error_status_starts_at_400() {
    let ok = HttpReply::Response { status: 399, body: vec![1] };
    assert_eq!(next_step(&ok), FetchStep::Write);
    let bad = HttpReply::Response { status: 400, body: vec![1] };
    assert_eq!(next_step(&bad), FetchStep::Done(FetchResult::HttpError(400)));
    let missing = HttpReply::Response { status: 404, body: vec![1] };
    assert_eq!(fetch_outcome(&missing, true), FetchResult::HttpError(404));
}

#[test]
fn write_outcome_tells_saved_from_write_error() {
    assert_eq!(write_outcome(true), FetchResult::Saved);
    assert_eq!(write_outcome(false), FetchResult::WriteError);
}

#[test]
fn is_saved_only_for_saved() {
    assert!(FetchResult::Saved.is_saved());
    assert!(!FetchResult::EmptyBody.is_saved());
    assert!(!FetchResult::HttpError(500).is_saved());
    assert!(!FetchResult::TransportError.is_saved());
    assert!(!FetchResult::WriteError.is_saved());
}

#[test]
fn target_path_joins_with_a_slash() {
    assert_eq!(
        target_path("images", "SITE_TYPE_2021-01-01T05-00.gif"),
        "images/SITE_TYPE_2021-01-01T05-00.gif"
    );
    assert_eq!(target_path("", "x"), "/x");
}

#[test]
fn one_failing_item_leaves_the_others_alone() {
    let replies = vec![
        HttpReply::Response { status: 200, body: vec![1] },
        HttpReply::Response { status: 500, body: Vec::new() },
        HttpReply::Response { status: 200, body: vec![2] },
    ];
    let results: Vec<FetchResult> = replies.iter().map(|r| fetch_outcome(r, true)).collect();
    assert_eq!(
        results,
        vec![FetchResult::Saved, FetchResult::HttpError(500), FetchResult::Saved]
    );
}

#[test]
fn report_counts_one_outcome_and_one_step_per_item() {
    let mut report = RunReport::start(3);
    assert_eq!(report.total(), 3);
    assert_eq!(report.position(), 0);
    assert!(!report.is_complete());
    assert!(report.record(FetchResult::Saved));
    assert_eq!(report.position(), 1);
    assert!(report.record(FetchResult::HttpError(500)));
    assert_eq!(report.position(), 2);
    assert!(report.record(FetchResult::EmptyBody));
    assert_eq!(report.position(), 3);
    assert!(report.is_complete());
    assert_eq!(
        *report.results(),
        vec![FetchResult::Saved, FetchResult::HttpError(500), FetchResult::EmptyBody]
    );
    assert_eq!(report.saved_count(), 1);
    assert!(!report.all_saved());
}

#[test]
fn complete_report_takes_no_more() {
    let mut report = RunReport::start(1);
    assert!(report.record(FetchResult::TransportError));
    assert!(!report.record(FetchResult::Saved));
    assert_eq!(report.position(), 1);
    assert_eq!(*report.results(), vec![FetchResult::TransportError]);
}

#[test]
fn gather_holds_every_outcome() {
    let results = vec![FetchResult::Saved, FetchResult::WriteError, FetchResult::Saved];
    let report = gather(&results);
    assert_eq!(report.total(), 3);
    assert_eq!(report.position(), 3);
    assert!(report.is_complete());
    assert_eq!(*report.results(), results);
    assert_eq!(report.saved_count(), 2);
    assert!(!report.all_saved());
}

#[test]
fn all_saved_needs_a_complete_run() {
    let mut report = RunReport::start(2);
    assert!(report.record(FetchResult::Saved));
    assert!(!report.all_saved());
    assert!(report.record(FetchResult::Saved));
    assert!(report.all_saved());
    assert!(gather(&Vec::new()).all_saved());
}
