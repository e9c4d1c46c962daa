//! Periodic triggers: inputs that a cron schedule sends to a task.
use vstd::prelude::*;
use std::str::FromStr;
use chrono::TimeZone;
use crate::error::Error;
use crate::json::{JsonValue, JsonView, json_equal};
use crate::text::str_eq;
use crate::time::{Timestamp, time_pair};

verus! {

/// When a periodic trigger fires.
pub enum PeriodicSchedule {
    /// A cron string of the format
    /// second   minute   hour   day-of-month   month   day-of-week   year
    Cron(String),
}

/// A periodic trigger of a task.
pub struct PeriodicTaskTrigger {
    pub periodic_trigger_id: String,
    pub name: Option<String>,
    pub schedule: PeriodicSchedule,
    pub payload: JsonValue,
    pub enabled: bool,
}

/// A periodic trigger as a task's definition gives it.
pub struct PeriodicTaskTriggerInput {
    pub name: Option<String>,
    pub schedule: PeriodicSchedule,
    pub payload: JsonValue,
    pub enabled: bool,
}

/// What `cron::Schedule::from_str` makes of a text: nothing when it reads it, else its error
/// message.
pub uninterp spec fn cron_error(text: Seq<char>) -> Option<Seq<char>>;

/// Reads a cron schedule (`cron::Schedule::from_str`) and gives its error message, if any.
/// Whether it reads, and the message when it does not, are named by `cron_error`, not
/// described.
#[verifier::external_body]
fn cron_parse_error(text: &str) -> (r: Option<String>)
    ensures
        match r {
            None => cron_error(text@) is None,
            Some(e) => cron_error(text@) == Some(e@),
        },
{
    match cron::Schedule::from_str(text) {
        Ok(_) => None,
        Err(e) => Some(e.to_string()),
    }
}

/// What `cron::Schedule::after` in UTC yields first for the schedule read from `text`,
/// searching from the time `after` (seconds and nanoseconds since the Unix epoch): the next
/// firing time it finds, or none when it finds none or `after` is no time that `chrono` can
/// hold.
pub uninterp spec fn cron_next_after(text: Seq<char>, after: (i64, u32)) -> Option<(i64, u32)>;

/// The next firing time of a schedule after a given time (`cron::Schedule::from_str`, then
/// `Schedule::after` on the time from `chrono::Utc::timestamp_opt`). The result is named by
/// `cron_next_after`, not described; it depends on the text and the time alone.
#[verifier::external_body]
fn next_after(text: &str, after: Timestamp) -> (r: Option<Timestamp>)
    requires
        cron_error(text@) is None,
    ensures
        opt_time(r) == cron_next_after(text@, time_pair(after)),
{
    let schedule = match cron::Schedule::from_str(text) {
        Ok(s) => s,
        Err(_) => return None,
    };
    match chrono::Utc.timestamp_opt(after.secs, after.nanos).single() {
        Some(t) => schedule.after(&t).next().map(|n| Timestamp { secs: n.timestamp(), nanos: n.timestamp_subsec_nanos() }),
        None => None,
    }
}

/// An optional time as an optional pair of seconds and nanoseconds.
pub open spec fn opt_time(t: Option<Timestamp>) -> Option<(i64, u32)> {
    match t {
        Some(x) => Some(time_pair(x)),
        None => None,
    }
}

impl PeriodicSchedule {
    /// The next time this schedule fires after `after`, as the cron library finds it (see
    /// `cron_next_after`; none when it finds none); a schedule that does not read is an error.
    pub fn next_run_after(&self, after: Timestamp) -> (r: Result<Option<Timestamp>, Error>)
        ensures
            match self {
                PeriodicSchedule::Cron(c) => match cron_error(c@) {
                    Some(m) => r is Err && (r->Err_0 matches Error::CronParseError(x) && x@ == m),
                    None => r is Ok && opt_time(r->Ok_0) == cron_next_after(c@, time_pair(after)),
                },
            },
    {
        match self {
            PeriodicSchedule::Cron(c) => match cron_parse_error(c.as_str()) {
                None => Ok(next_after(c.as_str(), after)),
                Some(e) => Err(Error::CronParseError(e)),
            },
        }
    }

    /// The next time this schedule fires after now (see `next_run_after`, at the time read from
    /// the clock).
    pub fn next_run(&self) -> (r: Result<Option<Timestamp>, Error>)
        ensures
            match self {
                PeriodicSchedule::Cron(c) => match cron_error(c@) {
                    Some(m) => r is Err && (r->Err_0 matches Error::CronParseError(x) && x@ == m),
                    None => r is Ok && exists|now: Timestamp| opt_time(r->Ok_0) == cron_next_after(c@, time_pair(now)),
                },
            },
    {
        let now = crate::time::now();
        self.next_run_after(now)
    }
}

impl PeriodicSchedule {
    /// The next time this schedule fires when its trigger is enabled; none when it is not. The
    /// schedule is read either way, so one that does not read is an error either way.
    pub fn next_enabled_run(&self, enabled: bool) -> (r: Result<Option<Timestamp>, Error>)
        ensures
            match self {
                PeriodicSchedule::Cron(c) => match cron_error(c@) {
                    Some(m) => r is Err && (r->Err_0 matches Error::CronParseError(x) && x@ == m),
                    None => if enabled {
                        r is Ok && exists|now: Timestamp| opt_time(r->Ok_0) == cron_next_after(c@, time_pair(now))
                    } else {
                        r == Ok::<Option<Timestamp>, Error>(None)
                    },
                },
            },
    {
        match self.next_run() {
            Ok(t) => if enabled {
                Ok(t)
            } else {
                Ok(None)
            },
            Err(e) => Err(e),
        }
    }
}

/// A periodic trigger as it is stored, with the queued run it has pending, if any.
pub struct ExistingPeriodicTrigger {
    pub periodic_trigger_id: String,
    pub schedule: PeriodicSchedule,
    pub payload: JsonValue,
    pub enabled: bool,
    pub queue_job_id: Option<String>,
}

/// One step of bringing a trigger's stored periodic triggers in line with its definition.
pub enum PeriodicUpdate {
    /// Store new trigger `new_value`'s name, payload and enablement on stored trigger
    /// `existing`.
    Update { existing: usize, new_value: usize },
    /// Take a pending run out of the queue.
    RemoveJob { job_id: String },
    /// Give a pending run the payload of new trigger `new_value`.
    UpdateJob { job_id: String, new_value: usize },
    /// Store new trigger `new_value` under a fresh id.
    Insert { new_value: usize },
    /// Delete stored trigger `existing`.
    Delete { existing: usize },
}

/// Which trigger a run is queued for: a stored one, or the one stored for a new value.
pub enum RunSource {
    Existing(usize),
    Inserted(usize),
}

/// The steps, in order, and the runs to queue afterwards: for each, its trigger and the new
/// value whose schedule and payload it runs with.
pub struct PeriodicPlan {
    pub steps: Vec<PeriodicUpdate>,
    pub runs: Vec<(RunSource, usize)>,
}

/// The mathematical form of a step.
pub enum StepView {
    Update(nat, nat),
    RemoveJob(Seq<char>),
    UpdateJob(Seq<char>, nat),
    Insert(nat),
    Delete(nat),
}

impl View for PeriodicUpdate {
    type V = StepView;

    open spec fn view(&self) -> StepView {
        match self {
            PeriodicUpdate::Update { existing, new_value } => StepView::Update(*existing as nat, *new_value as nat),
            PeriodicUpdate::RemoveJob { job_id } => StepView::RemoveJob(job_id@),
            PeriodicUpdate::UpdateJob { job_id, new_value } => StepView::UpdateJob(job_id@, *new_value as nat),
            PeriodicUpdate::Insert { new_value } => StepView::Insert(*new_value as nat),
            PeriodicUpdate::Delete { existing } => StepView::Delete(*existing as nat),
        }
    }
}

/// The mathematical form of a run to queue.
pub open spec fn run_view(r: (RunSource, usize)) -> (bool, nat, nat) {
    match r.0 {
        RunSource::Existing(i) => (true, i as nat, r.1 as nat),
        RunSource::Inserted(k) => (false, k as nat, r.1 as nat),
    }
}

/// The text of a schedule.
pub open spec fn schedule_text(s: PeriodicSchedule) -> Seq<char> {
    match s {
        PeriodicSchedule::Cron(c) => c@,
    }
}

/// The first stored trigger with the given schedule, if any.
pub open spec fn first_existing(ex: Seq<ExistingPeriodicTrigger>, sched: Seq<char>) -> Option<int> {
    if exists|i: int| 0 <= i < ex.len() && schedule_text(ex[i].schedule) == sched {
        Some(choose|i: int| 0 <= i < ex.len() && schedule_text(ex[i].schedule) == sched
            && forall|j: int| 0 <= j < i ==> schedule_text(ex[j].schedule) != sched)
    } else {
        None
    }
}

/// The steps for new trigger `k`, the run it queues (if any), and the stored trigger it
/// matched (if any). A new trigger matches the first stored one with its schedule and
/// updates it; it runs when the task and the trigger are enabled, the stored one was not, and
/// otherwise a pending run is taken out when it should not run, or given the new payload when
/// that changed. A new trigger that matches none is inserted, and runs when the task and it
/// are enabled.
pub open spec fn new_value_plan(ex: Seq<ExistingPeriodicTrigger>, nv: PeriodicTaskTriggerInput, k: nat, task_enabled: bool) -> (Seq<StepView>, Seq<(bool, nat, nat)>, Option<int>) {
    let should = task_enabled && nv.enabled;
    match first_existing(ex, schedule_text(nv.schedule)) {
        Some(i) => {
            let e = ex[i];
            let more = if should && !e.enabled {
                Seq::empty()
            } else {
                match e.queue_job_id {
                    Some(j) => if !should {
                        seq![StepView::RemoveJob(j@)]
                    } else if e.payload@ != nv.payload@ {
                        seq![StepView::UpdateJob(j@, k)]
                    } else {
                        Seq::empty()
                    },
                    None => Seq::empty(),
                }
            };
            (seq![StepView::Update(i as nat, k)] + more, if should && !e.enabled {
                seq![(true, i as nat, k)]
            } else {
                Seq::empty()
            }, Some(i))
        },
        None => (seq![StepView::Insert(k)], if should {
            seq![(false, k, k)]
        } else {
            Seq::empty()
        }, None),
    }
}

/// The steps, runs and matched ids of the first `n` new triggers, in order.
pub open spec fn new_values_plan(ex: Seq<ExistingPeriodicTrigger>, nvs: Seq<PeriodicTaskTriggerInput>, n: nat, task_enabled: bool) -> (Seq<StepView>, Seq<(bool, nat, nat)>, Seq<Seq<char>>)
    decreases n,
{
    if n == 0 {
        (Seq::empty(), Seq::empty(), Seq::empty())
    } else {
        let prev = new_values_plan(ex, nvs, (n - 1) as nat, task_enabled);
        let one = new_value_plan(ex, nvs[n - 1], (n - 1) as nat, task_enabled);
        (prev.0 + one.0, prev.1 + one.1, match one.2 {
            Some(i) => prev.2.push(ex[i].periodic_trigger_id@),
            None => prev.2,
        })
    }
}

/// The deletions of the first `n` stored triggers whose ids no new trigger matched: each
/// takes its pending run out of the queue, if any, and is deleted.
pub open spec fn deletions(ex: Seq<ExistingPeriodicTrigger>, matched: Seq<Seq<char>>, n: nat) -> Seq<StepView>
    decreases n,
{
    if n == 0 {
        Seq::empty()
    } else {
        let e = ex[n - 1];
        deletions(ex, matched, (n - 1) as nat) + if matched.contains(e.periodic_trigger_id@) {
            Seq::empty()
        } else {
            match e.queue_job_id {
                Some(j) => seq![StepView::RemoveJob(j@), StepView::Delete((n - 1) as nat)],
                None => seq![StepView::Delete((n - 1) as nat)],
            }
        }
    }
}

/// The plan that brings the stored periodic triggers of a task trigger in line with the
/// new ones: the steps for each new trigger in order, then the deletions, and the runs to
/// queue.
pub open spec fn periodic_plan(ex: Seq<ExistingPeriodicTrigger>, nvs: Seq<PeriodicTaskTriggerInput>, task_enabled: bool) -> (Seq<StepView>, Seq<(bool, nat, nat)>) {
    let p = new_values_plan(ex, nvs, nvs.len(), task_enabled);
    (p.0 + deletions(ex, p.2, ex.len()), p.1)
}

/// The position of the first stored trigger with a schedule (see `first_existing`).
fn find_existing(ex: &Vec<ExistingPeriodicTrigger>, sched: &PeriodicSchedule) -> (r: Option<usize>)
    ensures
        match r {
            Some(i) => i < ex.len() && first_existing(ex@, schedule_text(*sched)) == Some(i as int),
            None => first_existing(ex@, schedule_text(*sched)) is None,
        },
{
    let PeriodicSchedule::Cron(text) = sched;
    let mut i: usize = 0;
    while i < ex.len()
        invariant
            i <= ex.len(),
            schedule_text(*sched) == text@,
            forall|j: int| 0 <= j < i ==> schedule_text(ex@[j].schedule) != text@,
        decreases ex.len() - i,
    {
        let PeriodicSchedule::Cron(c) = &ex[i].schedule;
        if str_eq(c.as_str(), text.as_str()) {
            proof {
                let k = choose|k: int| 0 <= k < ex@.len() && schedule_text(ex@[k].schedule) == text@
                    && forall|j: int| 0 <= j < k ==> schedule_text(ex@[j].schedule) != text@;
                if k < i {
                    assert(schedule_text(ex@[k].schedule) != text@);
                } else if k > i {
                    assert(schedule_text(ex@[i as int].schedule) != text@);
                }
            }
            return Some(i);
        }
        i = i + 1;
    }
    None
}

/// Whether a list of texts holds a text.
fn holds_text(list: &Vec<String>, t: &str) -> (r: bool)
    ensures
        r == crate::template::texts(list@).contains(t@),
{
    let mut i: usize = 0;
    while i < list.len()
        invariant
            i <= list.len(),
            forall|j: int| 0 <= j < i ==> list@[j]@ != t@,
        decreases list.len() - i,
    {
        if str_eq(list[i].as_str(), t) {
            assert(crate::template::texts(list@)[i as int] == t@);
            return true;
        }
        i = i + 1;
    }
    proof {
        if crate::template::texts(list@).contains(t@) {
            let k = choose|k: int| 0 <= k < list@.len() && #[trigger] crate::template::texts(list@)[k] == t@;
            assert(list@[k]@ == t@);
        }
    }
    false
}

/// The views of a list of steps.
pub open spec fn step_views(v: Seq<PeriodicUpdate>) -> Seq<StepView> {
    v.map_values(|s: PeriodicUpdate| s@)
}

/// The views of a list of runs.
pub open spec fn run_views(v: Seq<(RunSource, usize)>) -> Seq<(bool, nat, nat)> {
    v.map_values(|r: (RunSource, usize)| run_view(r))
}

/// Works out how to bring the stored periodic triggers of a task trigger in line with its new
/// periodic triggers (see `periodic_plan`).
pub fn plan_periodic_updates(existing: &Vec<ExistingPeriodicTrigger>, periodic: &Vec<PeriodicTaskTriggerInput>, task_enabled: bool) -> (r: PeriodicPlan)
    ensures
        step_views(r.steps@) == periodic_plan(existing@, periodic@, task_enabled).0,
        run_views(r.runs@) == periodic_plan(existing@, periodic@, task_enabled).1,
        forall|j: int| 0 <= j < r.runs@.len() ==> task_enabled && (#[trigger] r.runs@[j]).1 < periodic@.len()
            && periodic@[r.runs@[j].1 as int].enabled,
{
    proof {
        law_runs_only_when_enabled(existing@, periodic@, task_enabled);
    }
    let mut steps: Vec<PeriodicUpdate> = Vec::new();
    let mut runs: Vec<(RunSource, usize)> = Vec::new();
    let mut matched: Vec<String> = Vec::new();
    let mut k: usize = 0;
    assert(step_views(steps@) =~= Seq::empty());
    assert(run_views(runs@) =~= Seq::empty());
    assert(crate::template::texts(matched@) =~= Seq::empty());
    while k < periodic.len()
        invariant
            k <= periodic.len(),
            step_views(steps@) == new_values_plan(existing@, periodic@, k as nat, task_enabled).0,
            run_views(runs@) == new_values_plan(existing@, periodic@, k as nat, task_enabled).1,
            crate::template::texts(matched@) == new_values_plan(existing@, periodic@, k as nat, task_enabled).2,
        decreases periodic.len() - k,
    {
        let nv = &periodic[k];
        let should = task_enabled && nv.enabled;
        let ghost s0 = step_views(steps@);
        let ghost r0 = run_views(runs@);
        let ghost one = new_value_plan(existing@, periodic@[k as int], k as nat, task_enabled);
        match find_existing(existing, &nv.schedule) {
            Some(i) => {
                let ex = &existing[i];
                steps.push(PeriodicUpdate::Update { existing: i, new_value: k });
                if should && !ex.enabled {
                    runs.push((RunSource::Existing(i), k));
                } else {
                    match &ex.queue_job_id {
                        Some(j) => {
                            if !should {
                                steps.push(PeriodicUpdate::RemoveJob { job_id: j.clone() });
                            } else if !json_equal(&ex.payload, &nv.payload) {
                                steps.push(PeriodicUpdate::UpdateJob { job_id: j.clone(), new_value: k });
                            }
                        },
                        None => {},
                    }
                }
                matched.push(ex.periodic_trigger_id.clone());
            },
            None => {
                steps.push(PeriodicUpdate::Insert { new_value: k });
                if should {
                    runs.push((RunSource::Inserted(k), k));
                }
            },
        }
        proof {
            assert(step_views(steps@) =~= s0 + one.0);
            assert(run_views(runs@) =~= r0 + one.1);
        }
        k = k + 1;
    }
    let ghost mid = step_views(steps@);
    let ghost nvp = new_values_plan(existing@, periodic@, periodic@.len(), task_enabled);
    let mut i: usize = 0;
    assert(mid + deletions(existing@, nvp.2, 0) =~= mid);
    while i < existing.len()
        invariant
            i <= existing.len(),
            crate::template::texts(matched@) == nvp.2,
            step_views(steps@) == mid + deletions(existing@, nvp.2, i as nat),
        decreases existing.len() - i,
    {
        let ghost before = step_views(steps@);
        let ex = &existing[i];
        if !holds_text(&matched, ex.periodic_trigger_id.as_str()) {
            match &ex.queue_job_id {
                Some(j) => {
                    steps.push(PeriodicUpdate::RemoveJob { job_id: j.clone() });
                },
                None => {},
            }
            steps.push(PeriodicUpdate::Delete { existing: i });
        }
        proof {
            let e = existing@[i as int];
            let tail = if nvp.2.contains(e.periodic_trigger_id@) {
                Seq::empty()
            } else {
                match e.queue_job_id {
                    Some(j) => seq![StepView::RemoveJob(j@), StepView::Delete(i as nat)],
                    None => seq![StepView::Delete(i as nat)],
                }
            };
            assert(step_views(steps@) =~= before + tail);
            assert(deletions(existing@, nvp.2, (i + 1) as nat) == deletions(existing@, nvp.2, i as nat) + tail);
            assert(step_views(steps@) =~= mid + deletions(existing@, nvp.2, (i + 1) as nat));
        }
        i = i + 1;
    }
    proof {
        assert forall|j: int| 0 <= j < runs@.len() implies task_enabled && (#[trigger] runs@[j]).1 < periodic@.len()
            && periodic@[runs@[j].1 as int].enabled by {
            assert(run_views(runs@)[j] == run_view(runs@[j]));
            assert(periodic_plan(existing@, periodic@, task_enabled).1[j] == run_view(runs@[j]));
        }
    }
    PeriodicPlan { steps, runs }
}

/// Each of the first `n` new triggers is either stored over a stored trigger or inserted.
proof fn lemma_new_values_covered(ex: Seq<ExistingPeriodicTrigger>, nvs: Seq<PeriodicTaskTriggerInput>, n: nat, task_enabled: bool, k: nat)
    requires
        k < n <= nvs.len(),
    ensures
        new_values_plan(ex, nvs, n, task_enabled).0.contains(StepView::Insert(k))
            || exists|i: nat| #[trigger] new_values_plan(ex, nvs, n, task_enabled).0.contains(StepView::Update(i, k)),
    decreases n,
{
    let prev = new_values_plan(ex, nvs, (n - 1) as nat, task_enabled);
    let one = new_value_plan(ex, nvs[n - 1], (n - 1) as nat, task_enabled);
    let all = prev.0 + one.0;
    assert(all == new_values_plan(ex, nvs, n, task_enabled).0);
    if k < n - 1 {
        lemma_new_values_covered(ex, nvs, (n - 1) as nat, task_enabled, k);
        if prev.0.contains(StepView::Insert(k)) {
            let j = choose|j: int| 0 <= j < prev.0.len() && prev.0[j] == StepView::Insert(k);
            assert(all[j] == StepView::Insert(k));
            assert(all.contains(StepView::Insert(k)));
        } else {
            let i = choose|i: nat| #[trigger] prev.0.contains(StepView::Update(i, k));
            let j = choose|j: int| 0 <= j < prev.0.len() && prev.0[j] == StepView::Update(i, k);
            assert(all[j] == StepView::Update(i, k));
            assert(all.contains(StepView::Update(i, k)));
        }
    } else {
        match first_existing(ex, schedule_text(nvs[n - 1].schedule)) {
            Some(i) => {
                assert(one.0[0] == StepView::Update(i as nat, k));
                assert(all[prev.0.len() as int] == StepView::Update(i as nat, k));
                assert(all.contains(StepView::Update(i as nat, k)));
            },
            None => {
                assert(one.0[0] == StepView::Insert(k));
                assert(all[prev.0.len() as int] == StepView::Insert(k));
                assert(all.contains(StepView::Insert(k)));
            },
        }
    }
}

/// Each of the first `n` stored triggers whose id no new trigger matched is deleted.
proof fn lemma_unmatched_deleted(ex: Seq<ExistingPeriodicTrigger>, matched: Seq<Seq<char>>, n: nat, i: nat)
    requires
        i < n <= ex.len(),
        !matched.contains(ex[i as int].periodic_trigger_id@),
    ensures
        deletions(ex, matched, n).contains(StepView::Delete(i)),
    decreases n,
{
    let prev = deletions(ex, matched, (n - 1) as nat);
    let all = deletions(ex, matched, n);
    if i < n - 1 {
        lemma_unmatched_deleted(ex, matched, (n - 1) as nat, i);
        let j = choose|j: int| 0 <= j < prev.len() && prev[j] == StepView::Delete(i);
        assert(all[j] == StepView::Delete(i));
    } else {
        let e = ex[n - 1];
        match e.queue_job_id {
            Some(jid) => assert(all[prev.len() + 1int] == StepView::Delete(i)),
            None => assert(all[prev.len() as int] == StepView::Delete(i)),
        }
    }
}

/// A run queued for the first `n` new triggers belongs to one of them that is enabled, on an
/// enabled task; a run of a stored trigger is for one with that schedule that was disabled;
/// an inserted one is for a schedule no stored trigger has.
pub open spec fn run_allowed(ex: Seq<ExistingPeriodicTrigger>, nvs: Seq<PeriodicTaskTriggerInput>, task_enabled: bool, r: (bool, nat, nat)) -> bool {
    &&& r.2 < nvs.len()
    &&& task_enabled
    &&& nvs[r.2 as int].enabled
    &&& r.0 ==> r.1 < ex.len() && !ex[r.1 as int].enabled
        && schedule_text(ex[r.1 as int].schedule) == schedule_text(nvs[r.2 as int].schedule)
    &&& !r.0 ==> r.1 == r.2 && forall|i: int| 0 <= i < ex.len() ==> schedule_text(#[trigger] ex[i].schedule) != schedule_text(nvs[r.2 as int].schedule)
}

/// Among stored triggers with a schedule, one comes first.
proof fn lemma_first_match_exists(ex: Seq<ExistingPeriodicTrigger>, sched: Seq<char>, w: int)
    requires
        0 <= w < ex.len(),
        schedule_text(ex[w].schedule) == sched,
    ensures
        exists|i: int| 0 <= i < ex.len() && schedule_text(ex[i].schedule) == sched
            && forall|j: int| 0 <= j < i ==> schedule_text(ex[j].schedule) != sched,
    decreases w,
{
    if exists|j: int| 0 <= j < w && schedule_text(ex[j].schedule) == sched {
        let j = choose|j: int| 0 <= j < w && schedule_text(ex[j].schedule) == sched;
        lemma_first_match_exists(ex, sched, j);
    } else {
        assert(forall|j: int| 0 <= j < w ==> schedule_text(ex[j].schedule) != sched);
    }
}

/// What `first_existing` gives: the position of a stored trigger with the schedule, or none
/// when no stored trigger has it.
proof fn lemma_first_existing(ex: Seq<ExistingPeriodicTrigger>, sched: Seq<char>)
    ensures
        match first_existing(ex, sched) {
            Some(i) => 0 <= i < ex.len() && schedule_text(ex[i].schedule) == sched,
            None => forall|i: int| 0 <= i < ex.len() ==> schedule_text(#[trigger] ex[i].schedule) != sched,
        },
{
    if exists|i: int| 0 <= i < ex.len() && schedule_text(ex[i].schedule) == sched {
        let w = choose|i: int| 0 <= i < ex.len() && schedule_text(ex[i].schedule) == sched;
        lemma_first_match_exists(ex, sched, w);
    }
}

proof fn lemma_runs_allowed(ex: Seq<ExistingPeriodicTrigger>, nvs: Seq<PeriodicTaskTriggerInput>, n: nat, task_enabled: bool)
    requires
        n <= nvs.len(),
    ensures
        forall|j: int| 0 <= j < new_values_plan(ex, nvs, n, task_enabled).1.len()
            ==> run_allowed(ex, nvs, task_enabled, #[trigger] new_values_plan(ex, nvs, n, task_enabled).1[j]),
    decreases n,
{
    if n > 0 {
        lemma_runs_allowed(ex, nvs, (n - 1) as nat, task_enabled);
        let prev = new_values_plan(ex, nvs, (n - 1) as nat, task_enabled).1;
        let k = (n - 1) as nat;
        let one = new_value_plan(ex, nvs[k as int], k, task_enabled);
        let all = prev + one.1;
        assert(all == new_values_plan(ex, nvs, n, task_enabled).1);
        assert forall|j: int| 0 <= j < all.len() implies run_allowed(ex, nvs, task_enabled, #[trigger] all[j]) by {
            if j < prev.len() {
                assert(all[j] == prev[j]);
            } else {
                assert(all[j] == one.1[j - prev.len()]);
                lemma_first_existing(ex, schedule_text(nvs[k as int].schedule));
            }
        }
    }
}

/// Runs are queued only for enabled triggers of an enabled task: every run is for a new
/// trigger that is enabled, of a task that is enabled. A stored trigger gets a run only when it
/// was disabled and has that trigger's schedule; a new trigger stored afresh gets a run only
/// when no stored trigger has its schedule.
pub proof fn law_runs_only_when_enabled(ex: Seq<ExistingPeriodicTrigger>, nvs: Seq<PeriodicTaskTriggerInput>, task_enabled: bool)
    ensures
        forall|j: int| 0 <= j < periodic_plan(ex, nvs, task_enabled).1.len() ==> {
            let r = #[trigger] periodic_plan(ex, nvs, task_enabled).1[j];
            &&& task_enabled
            &&& r.2 < nvs.len()
            &&& nvs[r.2 as int].enabled
            &&& r.0 ==> r.1 < ex.len() && !ex[r.1 as int].enabled
                && schedule_text(ex[r.1 as int].schedule) == schedule_text(nvs[r.2 as int].schedule)
            &&& !r.0 ==> r.1 == r.2 && forall|i: int| 0 <= i < ex.len() ==> schedule_text(#[trigger] ex[i].schedule) != schedule_text(nvs[r.2 as int].schedule)
        },
{
    lemma_runs_allowed(ex, nvs, nvs.len(), task_enabled);
    assert forall|j: int| 0 <= j < periodic_plan(ex, nvs, task_enabled).1.len() implies run_allowed(ex, nvs, task_enabled, #[trigger] periodic_plan(ex, nvs, task_enabled).1[j]) by {
        assert(periodic_plan(ex, nvs, task_enabled).1[j] == new_values_plan(ex, nvs, nvs.len(), task_enabled).1[j]);
    }
}

/// Updating a trigger's periodic triggers leaves none behind: every new trigger is stored,
/// over the first stored trigger with its schedule or as a new one, and every stored trigger
/// that no new trigger matched is deleted.
pub proof fn law_periodic_plan_complete(ex: Seq<ExistingPeriodicTrigger>, nvs: Seq<PeriodicTaskTriggerInput>, task_enabled: bool)
    ensures
        forall|k: nat| k < nvs.len() ==> (#[trigger] periodic_plan(ex, nvs, task_enabled).0.contains(StepView::Insert(k))
            || exists|i: nat| #[trigger] periodic_plan(ex, nvs, task_enabled).0.contains(StepView::Update(i, k))),
        forall|i: nat| i < ex.len() ==> (new_values_plan(ex, nvs, nvs.len(), task_enabled).2.contains(ex[i as int].periodic_trigger_id@)
            || #[trigger] periodic_plan(ex, nvs, task_enabled).0.contains(StepView::Delete(i))),
{
    let p = new_values_plan(ex, nvs, nvs.len(), task_enabled);
    let d = deletions(ex, p.2, ex.len());
    let all = p.0 + d;
    assert forall|k: nat| k < nvs.len() implies (#[trigger] periodic_plan(ex, nvs, task_enabled).0.contains(StepView::Insert(k))
        || exists|i: nat| #[trigger] periodic_plan(ex, nvs, task_enabled).0.contains(StepView::Update(i, k))) by {
        lemma_new_values_covered(ex, nvs, nvs.len(), task_enabled, k);
        if p.0.contains(StepView::Insert(k)) {
            let j = choose|j: int| 0 <= j < p.0.len() && p.0[j] == StepView::Insert(k);
            assert(all[j] == StepView::Insert(k));
        } else {
            let i = choose|i: nat| #[trigger] p.0.contains(StepView::Update(i, k));
            let j = choose|j: int| 0 <= j < p.0.len() && p.0[j] == StepView::Update(i, k);
            assert(all[j] == StepView::Update(i, k));
            assert(periodic_plan(ex, nvs, task_enabled).0.contains(StepView::Update(i, k)));
        }
    }
    assert forall|i: nat| i < ex.len() implies (p.2.contains(ex[i as int].periodic_trigger_id@)
        || #[trigger] periodic_plan(ex, nvs, task_enabled).0.contains(StepView::Delete(i))) by {
        if !p.2.contains(ex[i as int].periodic_trigger_id@) {
            lemma_unmatched_deleted(ex, p.2, ex.len(), i);
            let j = choose|j: int| 0 <= j < d.len() && d[j] == StepView::Delete(i);
            assert(all[p.0.len() + j] == StepView::Delete(i));
        }
    }
}

} // verus!
