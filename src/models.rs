use vstd::prelude::*;

use crate::embedding::or_default;
use crate::scheduler::PipelineSchedulerState;
use crate::status::Status;
use crate::text::same_text;

verus! {

/// A knowledge item as shown to the user.
#[derive(Debug)]
pub struct Mash {
    pub id: String,
    pub mash_type: String,
    pub status: Status,
    pub summary: String,
    pub context: String,
    pub memo: String,
    pub created_at: i64,
    pub updated_at: i64,
}

/// A settled item drawn in the graph.
#[derive(Debug)]
pub struct GraphNode {
    pub id: String,
    pub node_type: String,
    pub summary: String,
    pub context: String,
    pub memo: String,
    pub created_at: i64,
    pub updated_at: i64,
}

/// Allow-lists that narrow the graph; an absent or empty list allows all.
#[derive(Debug)]
pub struct GraphFilters {
    pub mash_types: Option<Vec<String>>,
    pub relation_types: Option<Vec<String>>,
    pub sources: Option<Vec<String>>,
}

/// A remembered search as listed to the user.
#[derive(Debug)]
pub struct RecentSearch {
    pub id: i64,
    pub query: String,
    pub result_count: usize,
    pub created_at: i64,
}

/// What the pipeline reports about itself.
#[derive(Debug)]
pub struct PipelineStatus {
    pub last_run: Option<i64>,
    pub next_run: Option<i64>,
    pub interval_min: u64,
    pub distilled_count: u32,
    pub jarred_count: u32,
    pub on_still_count: u32,
    pub running: bool,
}

/// Whether a password is set, and whether this session may proceed.
#[derive(Clone, Copy, Debug, PartialEq, Eq, Structural)]
pub struct AuthStatus {
    pub password_set: bool,
    pub authenticated: bool,
}

/// The classifier's reading of a captured text.
#[derive(Debug)]
pub struct ClassifyResponse {
    pub mash_type: String,
    pub summary: String,
    pub context: Option<String>,
    pub memo: Option<String>,
}

/// The four kinds of knowledge: decision, problem, insight, question.
pub open spec fn is_category(t: Seq<char>) -> bool {
    t == "결정"@ || t == "문제"@ || t == "인사이트"@ || t == "질문"@
}

pub fn is_valid_category(t: &str) -> (r: bool)
    ensures
        r == is_category(t@),
{
    same_text(t, "결정") || same_text(t, "문제") || same_text(t, "인사이트") || same_text(t, "질문")
}

/// Accepts a classification only with one of the four categories; the
/// error names the category that came back.
pub fn validate_classification(r: ClassifyResponse) -> (out: Result<ClassifyResponse, String>)
    ensures
        out is Ok <==> is_category(r.mash_type@),
        out matches Ok(v) ==> v == r,
        out matches Err(e) ==> e@ == "Invalid mash type from AI: '"@ + r.mash_type@
            + "'. Expected one of: 결정, 문제, 인사이트, 질문"@,
{
    if is_valid_category(r.mash_type.as_str()) {
        Ok(r)
    } else {
        let e = String::from_str("Invalid mash type from AI: '").concat(r.mash_type.as_str()).concat(
            "'. Expected one of: 결정, 문제, 인사이트, 질문",
        );
        Err(e)
    }
}

/// Whether an allow-list admits `value`.
pub open spec fn admits(filter: Option<Vec<String>>, value: Seq<char>) -> bool {
    match filter {
        None => true,
        Some(list) => list.len() == 0 || exists|k: int|
            0 <= k < list.len() && (#[trigger] list@[k])@ == value,
    }
}

/// Checks a value against one of the graph's allow-lists.
pub fn filter_admits(filter: &Option<Vec<String>>, value: &String) -> (r: bool)
    ensures
        r == admits(*filter, value@),
{
    match filter {
        None => true,
        Some(list) => {
            if list.len() == 0 {
                return true;
            }
            let mut i: usize = 0;
            while i < list.len()
                invariant
                    i <= list.len(),
                    *filter == Some(*list),
                    forall|k: int| 0 <= k < i ==> (#[trigger] list@[k])@ != value@,
                decreases list.len() - i,
            {
                if list[i] == *value {
                    assert(list@[i as int]@ == value@);
                    return true;
                }
                i = i + 1;
            }
            false
        },
    }
}

/// Access: granted where no password is set, or the session has logged in.
pub fn auth_status(password_set: bool, logged_in: bool) -> (r: AuthStatus)
    ensures
        r.password_set == password_set,
        r.authenticated == (!password_set || logged_in),
{
    AuthStatus { password_set, authenticated: !password_set || logged_in }
}

/// Whether a request to switch to `requested` changes the stored provider
/// (`openai` where none is stored), so that all vectors must be rebuilt.
pub fn provider_switch_needed(current: &Option<String>, requested: &str) -> (r: bool)
    ensures
        r == (or_default(
            match current {
                Some(c) => Some(c@),
                None => None,
            },
            "openai"@,
        ) != requested@),
{
    match current {
        Some(c) => !same_text(c.as_str(), requested),
        None => !same_text("openai", requested),
    }
}

/// Number of entries equal to `s`.
pub open spec fn count_of(statuses: Seq<Status>, s: Status) -> nat
    decreases statuses.len(),
{
    if statuses.len() == 0 {
        0
    } else {
        count_of(statuses.drop_last(), s) + if statuses.last() == s {
            1nat
        } else {
            0nat
        }
    }
}

fn count_status(statuses: &Vec<Status>, s: Status) -> (r: u32)
    requires
        statuses.len() <= u32::MAX,
    ensures
        r == count_of(statuses@, s),
{
    let mut n: u32 = 0;
    let mut i: usize = 0;
    while i < statuses.len()
        invariant
            i <= statuses.len() <= u32::MAX,
            n == count_of(statuses@.take(i as int), s),
            n <= i,
        decreases statuses.len() - i,
    {
        proof {
            assert(statuses@.take(i as int + 1).drop_last() =~= statuses@.take(i as int));
        }
        if statuses[i] == s {
            n = n + 1;
        }
        i = i + 1;
    }
    assert(statuses@.take(statuses.len() as int) =~= statuses@);
    n
}

/// The pipeline's report: the scheduler's state, the last run's time, and
/// how many items wait in each stage, counted over `statuses`.
pub fn pipeline_status(
    scheduler: &PipelineSchedulerState,
    last_run: Option<i64>,
    statuses: &Vec<Status>,
) -> (r: PipelineStatus)
    requires
        scheduler.wf(),
        statuses.len() <= u32::MAX,
    ensures
        r.last_run == last_run,
        r.next_run is None <==> scheduler@.next_run_ms == 0,
        r.next_run matches Some(t) ==> t == scheduler@.next_run_ms,
        r.interval_min == scheduler@.interval_min,
        r.running == scheduler@.running,
        r.on_still_count == count_of(statuses@, Status::Queued),
        r.distilled_count == count_of(statuses@, Status::EmbeddedPendingLink),
        r.jarred_count == count_of(statuses@, Status::Settled),
{
    let next_run = match scheduler.next_run() {
        Some(t) => Some(t as i64),
        None => None,
    };
    PipelineStatus {
        last_run,
        next_run,
        interval_min: scheduler.interval_min(),
        distilled_count: count_status(statuses, Status::EmbeddedPendingLink),
        jarred_count: count_status(statuses, Status::Settled),
        on_still_count: count_status(statuses, Status::Queued),
        running: scheduler.is_running(),
    }
}

/// How far a long extraction has got, for a caller to display.
#[derive(Debug)]
pub struct PipelineProgress {
    pub phase: String,
    pub step: String,
    pub current: u32,
    pub total: u32,
}

/// Records the current phase, step and count.
pub fn update_progress(
    progress: &mut Option<PipelineProgress>,
    phase: &str,
    step: &str,
    current: u32,
    total: u32,
)
    ensures
        *final(progress) matches Some(p) && p.phase@ == phase@ && p.step@ == step@ && p.current
            == current && p.total == total,
{
    *progress = Some(
        PipelineProgress {
            phase: phase.to_owned(),
            step: step.to_owned(),
            current,
            total,
        },
    );
}

} // verus!
