use osci_cli::BuildDetail;
use osci_cli::BuildResult;
use osci_cli::BuildSummary;
use osci_cli::JobListing;
use osci_cli::Outcome;
use osci_cli::Selection;
use osci_cli::classify_detail;
use osci_cli::display_name_to_build_number;
use osci_cli::filter_builds;
use osci_cli::result_glyph;
use osci_cli::select_build;

fn summary(display_name: Option<&str>, timestamp: u64, url: &str) -> BuildSummary {
    BuildSummary {
        build_number: 1,
        display_name: display_name.map(String::from),
        timestamp,
        url: String::from(url),
    }
}

fn listing(name: &str, builds: Vec<BuildSummary>) -> JobListing {
    JobListing { display_name: String::from(name), builds }
}

#[test]
fn display_name_yields_change_id() {
    assert_eq!(display_name_to_build_number("#42 myrepo main 1007 3 alice"), Some(1007));
    assert_eq!(display_name_to_build_number("not a descriptor"), None);
}

#[test]
fn filter_picks_first_matching_build() {
    let job = listing(
        "func_smoke",
        vec![
            summary(Some("#1 r b 999 1 a"), 50, "u0"),
            summary(Some("#2 r b 1007 1 a"), 40, "u1"),
            summary(Some("#3 r b 1007 2 a"), 30, "u2"),
        ],
    );
    assert_eq!(filter_builds(&job, 1007), Some(1));
}

#[test]
fn filter_skips_absent_and_unparsable_names() {
    let mut b0 = summary(None, 90, "u0");
    b0.build_number = 1007;
    let mut b1 = summary(Some("no marker 1007"), 80, "u1");
    b1.build_number = 1007;
    let job = listing("func_smoke", vec![b0, b1]);
    assert_eq!(filter_builds(&job, 1007), None);
}

#[test]
fn single_matching_build_is_selected() {
    let jobs = vec![
        Some(listing("func_smoke", vec![summary(Some("#42 myrepo main 1007 3 alice"), 100, "u")])),
    ];
    assert_eq!(select_build(&jobs, 1007), Selection::Candidate { job: 0, build: 0 });
}

#[test]
fn finished_success_outcome() {
    let jobs = vec![
        Some(listing("func_smoke", vec![summary(Some("#42 myrepo main 1007 3 alice"), 100, "u")])),
    ];
    assert_eq!(select_build(&jobs, 1007), Selection::Candidate { job: 0, build: 0 });
    let detail = BuildDetail {
        building: false,
        url: String::from("u"),
        result: Some(BuildResult::Success),
    };
    let outcome = classify_detail(&detail);
    assert!(matches!(outcome, Outcome::Finished { result: Some(BuildResult::Success) }));
}

#[test]
fn running_build_reports_url_regardless_of_result() {
    let detail = BuildDetail {
        building: true,
        url: String::from("http://ci/job/7/"),
        result: Some(BuildResult::Failure),
    };
    match classify_detail(&detail) {
        Outcome::Running { url } => assert_eq!(url, "http://ci/job/7/"),
        _ => panic!("a building build must classify as Running"),
    }
}

#[test]
fn finished_without_result() {
    let detail = BuildDetail { building: false, url: String::from("u"), result: None };
    assert!(matches!(classify_detail(&detail), Outcome::Finished { result: None }));
}

#[test]
fn later_timestamp_wins_across_jobs() {
    let jobs = vec![
        Some(listing("job_a", vec![summary(Some("#1 r b 1007 1 a"), 100, "ua")])),
        Some(listing("job_b", vec![summary(Some("#2 r b 1007 1 a"), 200, "ub")])),
    ];
    assert_eq!(select_build(&jobs, 1007), Selection::Candidate { job: 1, build: 0 });
    let detail = BuildDetail {
        building: false,
        url: String::from("ub"),
        result: Some(BuildResult::Success),
    };
    assert!(matches!(
        classify_detail(&detail),
        Outcome::Finished { result: Some(BuildResult::Success) }
    ));
}

#[test]
fn strictly_greater_timestamp_wins() {
    let jobs = vec![
        Some(listing("job_a", vec![summary(Some("#1 r b 1007 1 a"), 300, "ua")])),
        Some(listing("job_b", vec![summary(Some("#2 r b 1007 1 a"), 200, "ub")])),
    ];
    assert_eq!(select_build(&jobs, 1007), Selection::Candidate { job: 0, build: 0 });
}

#[test]
fn equal_timestamps_second_listing_wins() {
    let jobs = vec![
        Some(listing("job_a", vec![summary(Some("#1 r b 1007 1 a"), 200, "ua")])),
        Some(listing("job_b", vec![summary(Some("#2 r b 1007 1 a"), 200, "ub")])),
    ];
    assert_eq!(select_build(&jobs, 1007), Selection::Candidate { job: 1, build: 0 });
}

#[test]
fn no_matching_build_is_no_match() {
    let jobs = vec![
        Some(listing("job_a", vec![summary(Some("#1 r b 999 1 a"), 100, "ua")])),
        Some(listing("job_b", vec![summary(None, 200, "ub")])),
    ];
    assert_eq!(select_build(&jobs, 1007), Selection::NoMatch);
}

#[test]
fn all_listing_failures_mean_backend_unavailable() {
    let jobs: Vec<Option<JobListing>> = vec![None, None];
    assert_eq!(select_build(&jobs, 1007), Selection::BackendUnavailable);
}

#[test]
fn one_failed_listing_does_not_abort_the_check() {
    let jobs = vec![
        None,
        Some(listing("job_b", vec![summary(Some("#2 r b 1007 1 a"), 10, "ub")])),
    ];
    assert_eq!(select_build(&jobs, 1007), Selection::Candidate { job: 1, build: 0 });
}

#[test]
fn one_failed_listing_with_no_match_is_no_match() {
    let jobs = vec![None, Some(listing("job_b", vec![summary(Some("#2 r b 999 1 a"), 10, "ub")]))];
    assert_eq!(select_build(&jobs, 1007), Selection::NoMatch);
}

#[test]
fn glyphs_for_results() {
    assert_eq!(result_glyph(&BuildResult::Success), "\u{2713}");
    assert_eq!(result_glyph(&BuildResult::Failure), "\u{2717}");
    assert_eq!(result_glyph(&BuildResult::Other), "");
}
