//! Selection of the most relevant CI build for a review.
//!
//! Given the listings of one or more CI jobs, the selector finds, per job,
//! the first build whose display name carries a descriptor with the target
//! change ID, resolves ties across jobs by most-recent timestamp (a later
//! listing wins an exact tie), and classifies the fetched detail of the
//! winner into a reporting outcome.

use vstd::prelude::*;

use crate::descriptor::spec_parse;
use crate::descriptor::parse_descriptor;

verus! {

/// A lightweight reference to one build inside a job's listing.
#[derive(Debug, Clone)]
pub struct BuildSummary {
    pub build_number: usize,
    pub display_name: Option<String>,
    pub timestamp: u64,
    pub url: String,
}

/// One queried job: its name and its builds, ordered as the backend returned
/// them (conventionally newest first).
#[derive(Debug, Clone)]
pub struct JobListing {
    pub display_name: String,
    pub builds: Vec<BuildSummary>,
}

/// The backend-reported status of a finished build. Anything not recognized
/// as a named success or failure maps to `Other`.
#[derive(Debug, Clone, Copy, PartialEq, Eq, Structural)]
pub enum BuildResult {
    Success,
    Failure,
    Other,
}

/// The full detail of one build, fetched only for the selected winner.
#[derive(Debug, Clone)]
pub struct BuildDetail {
    pub building: bool,
    pub url: String,
    pub result: Option<BuildResult>,
}

/// The sole externally observable result of one review-status check.
#[derive(Debug, Clone)]
pub enum Outcome {
    Running { url: String },
    Finished { result: Option<BuildResult> },
    NoMatch,
    BackendUnavailable,
}

/// What the selector decided before any detail fetch: every listing request
/// failed, no build matched, or one candidate build to fetch.
#[derive(Debug, Clone, Copy, PartialEq, Eq, Structural)]
pub enum Selection {
    BackendUnavailable,
    NoMatch,
    Candidate { job: usize, build: usize },
}

/// The build's display name carries a descriptor whose change ID is the
/// target review ID. A missing or unparsable display name never matches.
pub open spec fn build_matches(b: BuildSummary, review_id: int) -> bool {
    match b.display_name {
        Some(name) => match spec_parse(name@) {
            Some(v) => v.change_id == review_id,
            None => false,
        },
        None => false,
    }
}

/// The index of the first matching build at or after `from`.
pub open spec fn first_match_from(builds: Seq<BuildSummary>, review_id: int, from: int) -> Option<
    int,
>
    decreases builds.len() - from,
{
    if from < 0 || from >= builds.len() {
        None
    } else if build_matches(builds[from], review_id) {
        Some(from)
    } else {
        first_match_from(builds, review_id, from + 1)
    }
}

/// The index of the first build of the listing that matches the review ID.
pub open spec fn first_match(builds: Seq<BuildSummary>, review_id: int) -> Option<int> {
    first_match_from(builds, review_id, 0)
}

/// The change ID carried by a display name, when the name parses.
pub fn display_name_to_build_number(job_name: &str) -> (r: Option<usize>)
    ensures
        match r {
            Some(n) => spec_parse(job_name@) matches Some(v) && v.change_id == n as int,
            None => spec_parse(job_name@) is None,
        },
{
    match parse_descriptor(job_name) {
        Ok(d) => Some(d.change_id),
        Err(_) => None,
    }
}

/// Finds, within one job's listing, the first build whose display name
/// parses to a descriptor with the target change ID; builds with missing or
/// unparsable display names are skipped.
pub fn filter_builds(job: &JobListing, review_id: usize) -> (r: Option<usize>)
    ensures
        match r {
            Some(i) => first_match(job.builds@, review_id as int) == Some(i as int),
            None => first_match(job.builds@, review_id as int) is None,
        },
{
    let n = job.builds.len();
    let mut i: usize = 0;
    while i < n
        invariant
            0 <= i <= n,
            n == job.builds@.len(),
            first_match(job.builds@, review_id as int) == first_match_from(
                job.builds@,
                review_id as int,
                i as int,
            ),
        decreases n - i,
    {
        let matched = match &job.builds[i].display_name {
            Some(name) => match display_name_to_build_number(name.as_str()) {
                Some(build_number) => build_number == review_id,
                None => false,
            },
            None => false,
        };
        if matched {
            return Some(i);
        }
        i = i + 1;
    }
    None
}

/// The candidate a job listing contributes: the first matching build, or
/// none when the listing request failed or nothing matched.
pub open spec fn job_candidate(listing: Option<JobListing>, review_id: int) -> Option<int> {
    match listing {
        Some(job) => first_match(job.builds@, review_id),
        None => None,
    }
}

/// The timestamp of build `b` of listing `j`.
pub open spec fn timestamp_of(results: Seq<Option<JobListing>>, j: int, b: int) -> int {
    results[j]->Some_0.builds@[b].timestamp as int
}

/// The winning candidate over a sequence of per-job listing results, as a
/// pair of listing index and build index: jobs are taken in order, each
/// contributes its first matching build, and a later candidate replaces the
/// current winner unless the current winner's timestamp is strictly greater
/// — so on an exact tie the later listing wins.
pub open spec fn spec_winner(results: Seq<Option<JobListing>>, review_id: int) -> Option<
    (int, int),
>
    decreases results.len(),
{
    if results.len() == 0 {
        None
    } else {
        let prev = spec_winner(results.drop_last(), review_id);
        let last: int = results.len() - 1;
        match job_candidate(results.last(), review_id) {
            None => prev,
            Some(b) => match prev {
                None => Some((last, b)),
                Some(p) => if timestamp_of(results, p.0, p.1) > timestamp_of(results, last, b) {
                    Some(p)
                } else {
                    Some((last, b))
                },
            },
        }
    }
}

/// Every listing request failed, so no job could contribute a candidate.
pub open spec fn all_unavailable(results: Seq<Option<JobListing>>) -> bool {
    forall|j: int| 0 <= j < results.len() ==> results[j] is None
}

/// A winner always points at an in-range, matching build of an available
/// listing: a build whose display name is missing or does not parse to the
/// target change ID is never selected.
pub proof fn lemma_winner_is_match(results: Seq<Option<JobListing>>, review_id: int)
    ensures
        spec_winner(results, review_id) matches Some(p) ==> {
            &&& 0 <= p.0 < results.len()
            &&& results[p.0] is Some
            &&& first_match(results[p.0]->Some_0.builds@, review_id) == Some(p.1)
            &&& 0 <= p.1 < results[p.0]->Some_0.builds@.len()
            &&& build_matches(results[p.0]->Some_0.builds@[p.1], review_id)
        },
    decreases results.len(),
{
    if results.len() > 0 {
        lemma_winner_is_match(results.drop_last(), review_id);
        if job_candidate(results.last(), review_id) is Some {
            lemma_first_match_is_match(results.last()->Some_0.builds@, review_id, 0);
        }
    }
}

/// `first_match_from` only returns the index of a matching build.
proof fn lemma_first_match_is_match(builds: Seq<BuildSummary>, review_id: int, from: int)
    ensures
        first_match_from(builds, review_id, from) matches Some(i) ==> {
            &&& from <= i < builds.len()
            &&& build_matches(builds[i], review_id)
        },
    decreases builds.len() - from,
{
    if 0 <= from < builds.len() && !build_matches(builds[from], review_id) {
        lemma_first_match_is_match(builds, review_id, from + 1);
    }
}

/// A winner exists exactly when some listing contributes a candidate; in
/// particular, when no build of any available listing matches the target,
/// there is no winner and the check ends in `NoMatch` with no detail fetch.
pub proof fn lemma_winner_none_iff_no_candidate(results: Seq<Option<JobListing>>, review_id: int)
    ensures
        spec_winner(results, review_id) is None <==> forall|j: int|
            0 <= j < results.len() ==> job_candidate(#[trigger] results[j], review_id) is None,
    decreases results.len(),
{
    if results.len() > 0 {
        lemma_winner_none_iff_no_candidate(results.drop_last(), review_id);
        assert(forall|j: int|
            0 <= j < results.len() - 1 ==> results.drop_last()[j] == #[trigger] results[j]);
        assert(results.last() == results[results.len() - 1]);
    }
}

/// The selection determinism law for the two-job case: when each of two
/// jobs contributes exactly one candidate, the one with the strictly greater
/// timestamp wins, and on an exact tie the second listing wins.
pub proof fn lemma_selection_determinism(
    results: Seq<Option<JobListing>>,
    review_id: int,
    b0: int,
    b1: int,
)
    requires
        results.len() == 2,
        job_candidate(results[0], review_id) == Some(b0),
        job_candidate(results[1], review_id) == Some(b1),
    ensures
        spec_winner(results, review_id) == if timestamp_of(results, 0, b0) > timestamp_of(
            results,
            1,
            b1,
        ) {
            Some((0int, b0))
        } else {
            Some((1int, b1))
        },
{
    let first = results.drop_last();
    assert(first.drop_last() =~= Seq::<Option<JobListing>>::empty());
    assert(spec_winner(Seq::<Option<JobListing>>::empty(), review_id) is None);
    assert(first.last() == results[0]);
    assert(first[0] == results[0]);
    assert(results.last() == results[1]);
    assert(spec_winner(first, review_id) == Some((0int, b0)));
}

/// Chooses, over the per-job listing results of one check, what to do next:
/// report the backend unavailable when every listing request failed, report
/// no match when no available listing holds a matching build, and otherwise
/// name the single candidate build whose detail is worth fetching.
pub fn select_build(results: &Vec<Option<JobListing>>, review_id: usize) -> (r: Selection)
    requires
        results@.len() > 0,
    ensures
        all_unavailable(results@) ==> r == Selection::BackendUnavailable,
        !all_unavailable(results@) ==> match spec_winner(results@, review_id as int) {
            Some(p) => r == (Selection::Candidate { job: p.0 as usize, build: p.1 as usize }),
            None => r == Selection::NoMatch,
        },
{
    let n = results.len();
    let mut any_available = false;
    let mut best: Option<(usize, usize)> = None;
    let mut best_timestamp: u64 = 0;
    let mut j: usize = 0;
    while j < n
        invariant
            0 <= j <= n,
            n == results@.len(),
            any_available == !all_unavailable(results@.subrange(0, j as int)),
            match best {
                Some(p) => {
                    &&& spec_winner(results@.subrange(0, j as int), review_id as int) == Some(
                        (p.0 as int, p.1 as int),
                    )
                    &&& p.0 < j
                    &&& results@[p.0 as int] is Some
                    &&& p.1 < results@[p.0 as int]->Some_0.builds@.len()
                    &&& best_timestamp == timestamp_of(results@, p.0 as int, p.1 as int)
                },
                None => spec_winner(results@.subrange(0, j as int), review_id as int) is None,
            },
        decreases n - j,
    {
        let ghost prefix = results@.subrange(0, j as int);
        let ghost extended = results@.subrange(0, j as int + 1);
        proof {
            assert(extended.drop_last() =~= prefix);
            assert(extended.last() == results@[j as int]);
            assert(forall|k: int|
                0 <= k < extended.len() ==> extended[k] == #[trigger] results@[k]);
        }
        match &results[j] {
            Some(listing) => {
                any_available = true;
                match filter_builds(listing, review_id) {
                    Some(b) => {
                        proof {
                            lemma_first_match_is_match(listing.builds@, review_id as int, 0);
                        }
                        let candidate_timestamp = listing.builds[b].timestamp;
                        match best {
                            Some(p) => {
                                if best_timestamp > candidate_timestamp {
                                } else {
                                    best = Some((j, b));
                                    best_timestamp = candidate_timestamp;
                                }
                            },
                            None => {
                                best = Some((j, b));
                                best_timestamp = candidate_timestamp;
                            },
                        }
                    },
                    None => {},
                }
            },
            None => {},
        }
        j = j + 1;
    }
    proof {
        assert(results@.subrange(0, n as int) =~= results@);
    }
    if !any_available {
        return Selection::BackendUnavailable;
    }
    match best {
        Some(p) => Selection::Candidate { job: p.0, build: p.1 },
        None => Selection::NoMatch,
    }
}

/// Classifies the fetched detail of the selected build: still building means
/// `Running` with the build's URL, regardless of any result field; otherwise
/// `Finished` with the backend-reported result, if any.
pub fn classify_detail(detail: &BuildDetail) -> (r: Outcome)
    ensures
        detail.building ==> (r matches Outcome::Running { url } && url@ == detail.url@),
        !detail.building ==> r == (Outcome::Finished { result: detail.result }),
{
    if detail.building {
        Outcome::Running { url: detail.url.clone() }
    } else {
        Outcome::Finished { result: detail.result }
    }
}

/// The one-character marker shown for a finished build's result: a check
/// mark for success, a cross for failure, and nothing otherwise.
pub fn result_glyph(result: &BuildResult) -> (s: &'static str)
    ensures
        *result == BuildResult::Success ==> s@ == "\u{2713}"@,
        *result == BuildResult::Failure ==> s@ == "\u{2717}"@,
        *result == BuildResult::Other ==> s@ == ""@,
{
    match result {
        BuildResult::Success => "\u{2713}",
        BuildResult::Failure => "\u{2717}",
        BuildResult::Other => "",
    }
}

} // verus!
