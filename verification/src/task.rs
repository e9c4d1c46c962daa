//! Tasks: what kind of logic a task runs, its state, and the decisions made when an input
//! reaches it.
use vstd::prelude::*;
use crate::actions::ActionInvocation;
use crate::dataflow::DataFlowState;
use crate::dataflow::node::TaskActionInvocation;
use crate::dataflow::dag::DataFlowConfig;
use crate::error::{Error, TaskErrorView, TaskValidateError, TaskValidateErrors, task_error_views};
use crate::json::{JsonMap, JsonValue, JsonView};
use crate::scripting::{TaskJsConfig, TaskJsState};
use crate::state_machine::{MachineErrorView, StateMachine, StateMachineData, StateMachineError, ScriptOutcomes,
    machine_outcome, machine_problems, invocations_match, opt_view, handle_trigger};
use crate::error::{opt_name, ActionValidateError, ActionValidateErrors};
use crate::execute::{ExecuteError, ExecuteErrorSource, Preparation, PrepareInvocationAction, prepare_outcome, validate_and_prepare_at};
use crate::executors::{executor_registry_get, executor_names, executor_name};
use crate::actions::{registered_fields, lemma_registered_fields};
use crate::inputs::InputStatus;
use crate::template::{TemplateField, field_failures};
use crate::template::texts;
use crate::text::string_of;
use crate::time::Timestamp;

verus! {

/// The logic a task runs.
pub enum TaskConfig {
    StateMachine(Vec<StateMachine>),
    Js(TaskJsConfig),
    DataFlow(DataFlowConfig),
}

/// The state of a task, of the same kind as its logic.
pub enum TaskState {
    StateMachine(Vec<StateMachineData>),
    Js(TaskJsState),
    DataFlow(DataFlowState),
}

/// The problems of a list of machines, machine after machine.
pub open spec fn machines_problems(ms: Seq<StateMachine>, triggers: Seq<Seq<char>>) -> Seq<TaskErrorView>
    decreases ms.len(),
{
    if ms.len() == 0 {
        Seq::empty()
    } else {
        machines_problems(ms.drop_last(), triggers) + machine_problems(ms.last(), triggers)
    }
}

/// The problems of a task's logic: those of its state machines; other kinds of logic are not
/// checked.
pub open spec fn config_problems(c: TaskConfig, triggers: Seq<Seq<char>>) -> Seq<TaskErrorView> {
    match c {
        TaskConfig::StateMachine(ms) => machines_problems(ms@, triggers),
        _ => Seq::empty(),
    }
}

/// The name of a kind of task logic, as errors report it.
pub open spec fn config_kind(c: TaskConfig) -> Seq<char> {
    match c {
        TaskConfig::StateMachine(_) => "StateMachine"@,
        TaskConfig::Js(_) => "Js"@,
        TaskConfig::DataFlow(_) => "DataFlow"@,
    }
}

/// Whether a state is of the kind a task's logic keeps.
pub open spec fn state_fits(c: TaskConfig, s: TaskState) -> bool {
    match c {
        TaskConfig::StateMachine(_) => s is StateMachine,
        TaskConfig::Js(_) => s is Js,
        TaskConfig::DataFlow(_) => s is DataFlow,
    }
}

impl TaskConfig {
    /// Checks the task's logic against the ids of its triggers: `Ok` exactly when there is no
    /// problem (see `config_problems`).
    pub fn validate(&self, task_triggers: &Vec<String>) -> (r: Result<(), TaskValidateErrors>)
        ensures
            config_problems(*self, texts(task_triggers@)).len() == 0 ==> r is Ok,
            config_problems(*self, texts(task_triggers@)).len() > 0 ==> r is Err
                && task_error_views(r->Err_0.0@) == config_problems(*self, texts(task_triggers@)),
    {
        let mut errors: Vec<TaskValidateError> = Vec::new();
        match self {
            TaskConfig::StateMachine(machines) => {
                let mut i: usize = 0;
                while i < machines.len()
                    invariant
                        i <= machines.len(),
                        task_error_views(errors@) == machines_problems(machines@.subrange(0, i as int), texts(task_triggers@)),
                    decreases machines.len() - i,
                {
                    let mut more = machines[i].validate(task_triggers);
                    let ghost before = errors@;
                    let ghost extra = more@;
                    errors.append(&mut more);
                    proof {
                        assert(errors@ == before + extra);
                        assert(task_error_views(errors@) =~= task_error_views(before) + task_error_views(extra));
                        let t = machines@.subrange(0, i + 1);
                        assert(t.drop_last() =~= machines@.subrange(0, i as int));
                    }
                    i = i + 1;
                }
                assert(machines@.subrange(0, machines.len() as int) =~= machines@);
            },
            _ => {
                assert(task_error_views(errors@) =~= Seq::empty());
            },
        }
        if errors.len() == 0 {
            Ok(())
        } else {
            Err(TaskValidateErrors(errors))
        }
    }

    /// The state a task starts in: each machine's default state, or the default state of the
    /// script or dataflow logic.
    pub fn default_state(&self) -> (r: TaskState)
        ensures
            state_fits(*self, r),
            match (*self, r) {
                (TaskConfig::StateMachine(ms), TaskState::StateMachine(ds)) => ds@.len() == ms@.len()
                    && forall|i: int| 0 <= i < ds@.len() ==> (#[trigger] ds@[i]).state@ == ms@[i].initial@
                        && ds@[i].context@ == JsonView::Object(Seq::empty()),
                (TaskConfig::Js(_), TaskState::Js(s)) => s.context@ == "null"@,
                (TaskConfig::DataFlow(_), TaskState::DataFlow(s)) => s.nodes@.len() == 0,
                _ => false,
            },
    {
        match self {
            TaskConfig::StateMachine(machines) => {
                let mut out: Vec<StateMachineData> = Vec::new();
                let mut i: usize = 0;
                while i < machines.len()
                    invariant
                        i <= machines.len(),
                        out@.len() == i,
                        forall|j: int| 0 <= j < i ==> (#[trigger] out@[j]).state@ == machines@[j].initial@
                            && out@[j].context@ == JsonView::Object(Seq::empty()),
                    decreases machines.len() - i,
                {
                    out.push(machines[i].default_state());
                    i = i + 1;
                }
                TaskState::StateMachine(out)
            },
            TaskConfig::Js(c) => TaskState::Js(c.default_state()),
            TaskConfig::DataFlow(c) => TaskState::DataFlow(c.default_state()),
        }
    }

    /// Checks that a task's state is of the kind its logic keeps; otherwise the error names the
    /// logic's kind.
    pub fn check_state(&self, state: &TaskState) -> (r: Result<(), Error>)
        ensures
            state_fits(*self, *state) ==> r is Ok,
            !state_fits(*self, *state) ==> r is Err && (r->Err_0 matches Error::ConfigStateMismatch(k) && k@ == config_kind(*self)),
    {
        match (self, state) {
            (TaskConfig::StateMachine(_), TaskState::StateMachine(_)) => Ok(()),
            (TaskConfig::StateMachine(_), _) => Err(Error::ConfigStateMismatch(string_of("StateMachine"))),
            (TaskConfig::Js(_), TaskState::Js(_)) => Ok(()),
            (TaskConfig::Js(_), _) => Err(Error::ConfigStateMismatch(string_of("Js"))),
            (TaskConfig::DataFlow(_), TaskState::DataFlow(_)) => Ok(()),
            (TaskConfig::DataFlow(_), _) => Err(Error::ConfigStateMismatch(string_of("DataFlow"))),
        }
    }
}

/// The target outcomes for machine `i`; none past the end.
pub open spec fn outcome_targets(os: Seq<ScriptOutcomes>, i: int) -> Seq<(String, Result<Option<String>, String>)> {
    if 0 <= i < os.len() {
        os[i].targets@
    } else {
        Seq::empty()
    }
}

/// The value outcomes for machine `i`; none past the end.
pub open spec fn outcome_values(os: Seq<ScriptOutcomes>, i: int) -> Seq<(String, Result<JsonValue, String>)> {
    if 0 <= i < os.len() {
        os[i].values@
    } else {
        Seq::empty()
    }
}

/// What handling a trigger does to the first `k` machines, in order (see `machine_outcome`):
/// their states afterwards, all their actions in machine order, and whether any moved. The
/// first failure wins.
#[verifier::opaque]
pub open spec fn machines_outcome(ms: Seq<StateMachine>, ds: Seq<StateMachineData>, k: nat, trigger: Seq<char>, payload: Option<JsonView>, os: Seq<ScriptOutcomes>) -> Result<(Seq<Seq<char>>, Seq<(Seq<char>, JsonView)>, bool), MachineErrorView>
    decreases k,
{
    if k == 0 {
        Ok((Seq::empty(), Seq::empty(), false))
    } else {
        match machines_outcome(ms, ds, (k - 1) as nat, trigger, payload, os) {
            Err(e) => Err(e),
            Ok((states, acts, changed)) => match machine_outcome(ms[k - 1], ds[k - 1], (k - 1) as nat, trigger, payload, outcome_targets(os, k - 1), outcome_values(os, k - 1)) {
                Err(e) => Err(e),
                Ok((st, a, moved)) => Ok((states.push(st), acts + a, changed || moved)),
            },
        }
    }
}

/// The smaller of two lengths.
pub open spec fn min_len(a: nat, b: nat) -> nat {
    if a < b { a } else { b }
}

/// One more machine extends the outcome of the machines before it.
proof fn lemma_machines_step(ms: Seq<StateMachine>, ds: Seq<StateMachineData>, k: nat, trigger: Seq<char>, payload: Option<JsonView>, os: Seq<ScriptOutcomes>)
    ensures
        machines_outcome(ms, ds, k + 1, trigger, payload, os) == match machines_outcome(ms, ds, k, trigger, payload, os) {
            Err(e) => Err(e),
            Ok((states, acts, changed)) => match machine_outcome(ms[k as int], ds[k as int], k, trigger, payload, outcome_targets(os, k as int), outcome_values(os, k as int)) {
                Err(e) => Err(e),
                Ok((st, a, moved)) => Ok((states.push(st), acts + a, changed || moved)),
            },
        },
        machines_outcome(ms, ds, 0, trigger, payload, os) == Ok::<(Seq<Seq<char>>, Seq<(Seq<char>, JsonView)>, bool), MachineErrorView>((Seq::empty(), Seq::empty(), false)),
{
    reveal(machines_outcome);
}

proof fn lemma_machines_err(ms: Seq<StateMachine>, ds: Seq<StateMachineData>, k: nat, n: nat, trigger: Seq<char>, payload: Option<JsonView>, os: Seq<ScriptOutcomes>)
    requires
        k <= n,
        machines_outcome(ms, ds, k, trigger, payload, os) is Err,
    ensures
        machines_outcome(ms, ds, n, trigger, payload, os) == machines_outcome(ms, ds, k, trigger, payload, os),
    decreases n - k,
{
    if k < n {
        lemma_machines_err(ms, ds, k, (n - 1) as nat, trigger, payload, os);
        lemma_machines_step(ms, ds, (n - 1) as nat, trigger, payload, os);
    }
}

/// Hands a trigger to each state machine of a task with its state, pairing machines and
/// states in order as far as both go (see `machines_outcome`). Machine `i` gets the script
/// outcomes at position `i`, none past the end. The contexts stay as they were.
pub fn apply_state_machines(machines: &Vec<StateMachine>, states: &Vec<StateMachineData>, task_id: &str, trigger_id: &str, user_id: &str, input_arrival_id: &Option<String>, payload: Option<&JsonValue>, outcomes: &Vec<ScriptOutcomes>) -> (r: Result<(Vec<StateMachineData>, Vec<ActionInvocation>, bool), StateMachineError>)
    ensures
        match machines_outcome(machines@, states@, min_len(machines@.len(), states@.len()), trigger_id@, opt_view(payload), outcomes@) {
            Err(e) => r is Err && r->Err_0@ == e,
            Ok((sts, acts, changed)) => {
                &&& r is Ok
                &&& r->Ok_0.0@.len() == sts.len()
                &&& forall|i: int| 0 <= i < sts.len() ==> (#[trigger] r->Ok_0.0@[i]).state@ == sts[i] && r->Ok_0.0@[i].context@ == states@[i].context@
                &&& invocations_match(r->Ok_0.1@, acts, task_id@, user_id@, opt_name(*input_arrival_id))
                &&& r->Ok_0.2 == changed
            },
        },
{
    let n = if machines.len() < states.len() { machines.len() } else { states.len() };
    let empty_targets: Vec<(String, Result<Option<String>, String>)> = Vec::new();
    let empty_values: Vec<(String, Result<JsonValue, String>)> = Vec::new();
    let mut new_data: Vec<StateMachineData> = Vec::new();
    let mut actions: Vec<ActionInvocation> = Vec::new();
    let mut changed = false;
    let mut idx: usize = 0;
    proof {
        lemma_machines_step(machines@, states@, 0, trigger_id@, opt_view(payload), outcomes@);
    }
    while idx < n
        invariant
            n == min_len(machines@.len(), states@.len()),
            idx <= n,
            new_data@.len() == idx,
            empty_targets@.len() == 0,
            empty_values@.len() == 0,
            machines_outcome(machines@, states@, idx as nat, trigger_id@, opt_view(payload), outcomes@) is Ok,
            ({
                let (sts, acts, ch) = machines_outcome(machines@, states@, idx as nat, trigger_id@, opt_view(payload), outcomes@)->Ok_0;
                &&& new_data@.len() == sts.len()
                &&& forall|i: int| 0 <= i < sts.len() ==> (#[trigger] new_data@[i]).state@ == sts[i] && new_data@[i].context@ == states@[i].context@
                &&& invocations_match(actions@, acts, task_id@, user_id@, opt_name(*input_arrival_id))
                &&& changed == ch
            }),
        decreases n - idx,
    {
        let (targets, values) = if idx < outcomes.len() {
            (&outcomes[idx].targets, &outcomes[idx].values)
        } else {
            (&empty_targets, &empty_values)
        };
        assert(targets@ == outcome_targets(outcomes@, idx as int));
        assert(values@ == outcome_values(outcomes@, idx as int));
        let ghost prev = machines_outcome(machines@, states@, idx as nat, trigger_id@, opt_view(payload), outcomes@)->Ok_0;
        match handle_trigger(&machines[idx], &states[idx], idx, task_id, trigger_id, user_id, input_arrival_id, payload, targets, values) {
            Ok((next, mut these)) => {
                let ghost one = machine_outcome(machines@[idx as int], states@[idx as int], idx as nat, trigger_id@, opt_view(payload), targets@, values@)->Ok_0;
                let moved = next.is_some();
                let st = match next {
                    Some(s) => s,
                    None => states[idx].state.clone(),
                };
                assert(st@ == one.0);
                let ghost before_data = new_data@;
                let ctx = states[idx].context.clone_value();
                new_data.push(StateMachineData { state: st, context: ctx });
                assert(new_data@[before_data.len() as int].state@ == one.0);
                let ghost before_actions = actions@;
                let ghost these_v = these@;
                actions.append(&mut these);
                changed = changed || moved;
                proof {
                    lemma_machines_step(machines@, states@, idx as nat, trigger_id@, opt_view(payload), outcomes@);
                    let cur = machines_outcome(machines@, states@, (idx + 1) as nat, trigger_id@, opt_view(payload), outcomes@);
                    assert(cur == Ok::<(Seq<Seq<char>>, Seq<(Seq<char>, JsonView)>, bool), MachineErrorView>((prev.0.push(one.0), prev.1 + one.1, prev.2 || one.2)));
                    assert forall|i: int| 0 <= i < new_data@.len() implies (#[trigger] new_data@[i]).state@ == prev.0.push(one.0)[i] && new_data@[i].context@ == states@[i].context@ by {
                        if i < before_data.len() {
                            assert(new_data@[i] == before_data[i]);
                        }
                    }
                    assert(actions@ == before_actions + these_v);
                    let all = prev.1 + one.1;
                    assert forall|i: int| 0 <= i < actions@.len() implies {
                        &&& (#[trigger] actions@[i]).task_action_local_id@ == all[i].0
                        &&& actions@[i].payload@ == all[i].1
                        &&& actions@[i].task_id@ == task_id@
                        &&& actions@[i].user_id@ == user_id@
                        &&& opt_name(actions@[i].input_arrival_id) == opt_name(*input_arrival_id)
                    } by {
                        if i < before_actions.len() {
                            assert(actions@[i] == before_actions[i]);
                        } else {
                            assert(actions@[i] == these_v[i - before_actions.len()]);
                        }
                    }
                }
            },
            Err(e) => {
                proof {
                    lemma_machines_step(machines@, states@, idx as nat, trigger_id@, opt_view(payload), outcomes@);
                    lemma_machines_err(machines@, states@, (idx + 1) as nat, n as nat, trigger_id@, opt_view(payload), outcomes@);
                }
                return Err(e);
            },
        }
        idx = idx + 1;
    }
    Ok((new_data, actions, changed))
}

/// A task action as the handling of an input sees it: its id, its name, and what preparing
/// it for its executor needs.
pub struct TaskActionData {
    pub task_action_local_id: String,
    pub task_action_name: String,
    pub prepare: PrepareInvocationAction,
}

/// The first task action with a given id, if any.
pub open spec fn first_task_action(tas: Seq<TaskActionData>, id: Seq<char>) -> Option<TaskActionData> {
    if exists|i: int| 0 <= i < tas.len() && tas[i].task_action_local_id@ == id {
        let i = choose|i: int| 0 <= i < tas.len() && tas[i].task_action_local_id@ == id
            && forall|j: int| 0 <= j < i ==> tas[j].task_action_local_id@ != id;
        Some(tas[i])
    } else {
        None
    }
}

/// The position of the first task action with a given id (see `first_task_action`).
fn find_task_action(tas: &Vec<TaskActionData>, id: &str) -> (r: Option<usize>)
    ensures
        match r {
            Some(i) => i < tas.len() && first_task_action(tas@, id@) == Some(tas@[i as int]),
            None => first_task_action(tas@, id@) is None,
        },
{
    let mut i: usize = 0;
    while i < tas.len()
        invariant
            i <= tas.len(),
            forall|j: int| 0 <= j < i ==> tas@[j].task_action_local_id@ != id@,
        decreases tas.len() - i,
    {
        if crate::text::str_eq(tas[i].task_action_local_id.as_str(), id) {
            proof {
                let k = choose|k: int| 0 <= k < tas@.len() && tas@[k].task_action_local_id@ == id@
                    && forall|j: int| 0 <= j < k ==> tas@[j].task_action_local_id@ != id@;
                if k < i {
                    assert(tas@[k].task_action_local_id@ != id@);
                } else if k > i {
                    assert(tas@[i as int].task_action_local_id@ != id@);
                }
            }
            return Some(i);
        }
        i = i + 1;
    }
    None
}

/// What preparing gave, seen without the task action it is about.
pub open spec fn inner_result(r: Result<Preparation, Error>) -> Result<Preparation, ExecuteErrorSource> {
    match r {
        Ok(p) => Ok(p),
        Err(Error::ExecuteError(x)) => Err(x.error),
        Err(_) => Err(ExecuteErrorSource::AccountRequired),
    }
}

/// Preparing an action depends on an executor's fields only through the failures they give.
proof fn lemma_prepare_same_fields(r: Result<Preparation, ExecuteErrorSource>, f: Seq<TemplateField>, g: Seq<TemplateField>, payload: JsonView, action: PrepareInvocationAction, now: Timestamp)
    requires
        forall|values: Map<Seq<char>, JsonView>| #[trigger] field_failures(f, values) == field_failures(g, values),
    ensures
        prepare_outcome(r, f, payload, action, now) == prepare_outcome(r, g, payload, action, now),
{
}

/// Checks a queued action before it is logged: its task action must exist and name a
/// registered executor, and it must prepare at time `now` (see `prepare_outcome`); a failure to
/// prepare is reported with the task, the task action's id and its name.
pub fn prepare_queued_action(task_id: &str, action: &ActionInvocation, task_actions: &Vec<TaskActionData>, now: Timestamp) -> (r: Result<Preparation, Error>)
    ensures
        match first_task_action(task_actions@, action.task_action_local_id@) {
            None => r is Err && (r->Err_0 matches Error::TaskActionNotFound(n) && n@ == action.task_action_local_id@),
            Some(ta) => if !executor_names().contains(ta.prepare.executor_id@) {
                r is Err && (r->Err_0 matches Error::ActionValidateError(v) && v.0@.len() == 1
                    && (v.0@[0] matches ActionValidateError::UnknownExecutor(id) && id@ == ta.prepare.executor_id@))
            } else {
                &&& prepare_outcome(inner_result(r), registered_fields(ta.prepare.executor_id@), action.payload@, ta.prepare, now)
                &&& r is Err ==> (r->Err_0 matches Error::ExecuteError(x) && x.task_id@ == task_id@
                    && x.task_action_local_id@ == action.task_action_local_id@ && x.task_action_name@ == ta.task_action_name@)
            },
        },
{
    let i = match find_task_action(task_actions, action.task_action_local_id.as_str()) {
        Some(i) => i,
        None => {
            return Err(Error::TaskActionNotFound(action.task_action_local_id.clone()));
        },
    };
    let ta = &task_actions[i];
    let executor = match executor_registry_get(ta.prepare.executor_id.as_str()) {
        Some(e) => e,
        None => {
            return Err(Error::ActionValidateError(ActionValidateErrors::from(ActionValidateError::UnknownExecutor(ta.prepare.executor_id.clone()))));
        },
    };
    let fields = executor.template_fields();
    let result = validate_and_prepare_at(fields, &action.payload, &ta.prepare, now);
    proof {
        lemma_registered_fields(executor, fields.0@);
        lemma_prepare_same_fields(result, fields.0@, registered_fields(ta.prepare.executor_id@), action.payload@, ta.prepare, now);
    }
    match result {
        Ok(p) => Ok(p),
        Err(e) => Err(Error::ExecuteError(ExecuteError {
            task_id: string_of(task_id),
            task_action_local_id: action.task_action_local_id.clone(),
            task_action_name: ta.task_action_name.clone(),
            error: e,
        })),
    }
}

/// Handling an input meant for a periodic trigger goes on only while that trigger is still
/// there and enabled (`found`); otherwise the input is for a deleted periodic task.
pub fn check_periodic_trigger(requested: &Option<String>, found: &Option<String>) -> (r: Result<(), Error>)
    ensures
        (requested is Some && found is None) ==> r == Err::<(), Error>(Error::PeriodicTaskDeleted),
        !(requested is Some && found is None) ==> r is Ok,
{
    match (requested, found) {
        (Some(_), None) => Err(Error::PeriodicTaskDeleted),
        _ => Ok(()),
    }
}

/// The names and payloads of the actions a script or dataflow asked for, in order.
pub open spec fn requested_actions(v: Seq<TaskActionInvocation>) -> Seq<(Seq<char>, JsonView)> {
    Seq::new(v.len(), |i: int| (v[i].name@, v[i].payload@))
}

/// The actions a script or dataflow task asked for, as queued runs of the task's actions: each
/// keeps its name and payload, and carries the task, the user and the input's arrival. Each gets
/// a fresh log id.
pub fn queue_requested_actions(task_id: &str, user_id: &str, input_arrival_id: &String, requested: Vec<TaskActionInvocation>) -> (r: Vec<ActionInvocation>)
    ensures
        invocations_match(r@, requested_actions(requested@), task_id@, user_id@, Some(input_arrival_id@)),
{
    let mut out: Vec<ActionInvocation> = Vec::new();
    let mut i: usize = 0;
    while i < requested.len()
        invariant
            i <= requested.len(),
            out@.len() == i,
            forall|j: int| 0 <= j < i ==> {
                &&& (#[trigger] out@[j]).task_action_local_id@ == requested@[j].name@
                &&& out@[j].payload@ == requested@[j].payload@
                &&& out@[j].task_id@ == task_id@
                &&& out@[j].user_id@ == user_id@
                &&& opt_name(out@[j].input_arrival_id) == Some(input_arrival_id@)
            },
        decreases requested.len() - i,
    {
        let inv = ActionInvocation {
            task_id: string_of(task_id),
            task_action_local_id: requested[i].name.clone(),
            actions_log_id: crate::actions::new_uuid(),
            input_arrival_id: Some(input_arrival_id.clone()),
            user_id: string_of(user_id),
            payload: requested[i].payload.clone_value(),
        };
        out.push(inv);
        i = i + 1;
    }
    out
}

/// What checking one queued action may give (see `prepare_queued_action`).
pub open spec fn queued_prepared(task_id: Seq<char>, action: ActionInvocation, task_actions: Seq<TaskActionData>, now: Timestamp, r: Result<Preparation, Error>) -> bool {
    match first_task_action(task_actions, action.task_action_local_id@) {
        None => r is Err && (r->Err_0 matches Error::TaskActionNotFound(n) && n@ == action.task_action_local_id@),
        Some(ta) => if !executor_names().contains(ta.prepare.executor_id@) {
            r is Err && (r->Err_0 matches Error::ActionValidateError(v) && v.0@.len() == 1
                && (v.0@[0] matches ActionValidateError::UnknownExecutor(id) && id@ == ta.prepare.executor_id@))
        } else {
            &&& prepare_outcome(inner_result(r), registered_fields(ta.prepare.executor_id@), action.payload@, ta.prepare, now)
            &&& r is Err ==> (r->Err_0 matches Error::ExecuteError(x) && x.task_id@ == task_id
                && x.task_action_local_id@ == action.task_action_local_id@ && x.task_action_name@ == ta.task_action_name@)
        },
    }
}

/// A queued action prepares: checking it gives some preparation.
pub open spec fn prepares(task_id: Seq<char>, action: ActionInvocation, task_actions: Seq<TaskActionData>, now: Timestamp) -> bool {
    exists|p: Preparation| queued_prepared(task_id, action, task_actions, now, Ok(p))
}

/// Checks every queued action in order before any is logged (see `prepare_queued_action`):
/// all their preparations, or the failure of the first action that does not prepare.
pub fn prepare_queued_actions(task_id: &str, actions: &Vec<ActionInvocation>, task_actions: &Vec<TaskActionData>, now: Timestamp) -> (r: Result<Vec<Preparation>, Error>)
    ensures
        r is Ok ==> r->Ok_0@.len() == actions@.len() && forall|i: int| 0 <= i < actions@.len()
            ==> #[trigger] queued_prepared(task_id@, actions@[i], task_actions@, now, Ok(r->Ok_0@[i])),
        r is Err ==> exists|k: int| 0 <= k < actions@.len()
            && queued_prepared(task_id@, #[trigger] actions@[k], task_actions@, now, Err(r->Err_0))
            && forall|i: int| 0 <= i < k ==> #[trigger] prepares(task_id@, actions@[i], task_actions@, now),
{
    let mut out: Vec<Preparation> = Vec::new();
    let mut i: usize = 0;
    while i < actions.len()
        invariant
            i <= actions.len(),
            out@.len() == i,
            forall|j: int| 0 <= j < i ==> #[trigger] queued_prepared(task_id@, actions@[j], task_actions@, now, Ok(out@[j])),
        decreases actions.len() - i,
    {
        let r = prepare_queued_action(task_id, &actions[i], task_actions, now);
        match r {
            Ok(p) => {
                let ghost before = out@;
                out.push(p);
                proof {
                    assert forall|j: int| 0 <= j < i + 1 implies #[trigger] queued_prepared(task_id@, actions@[j], task_actions@, now, Ok(out@[j])) by {
                        if j < i {
                            assert(out@[j] == before[j]);
                        }
                    }
                }
            },
            Err(e) => {
                proof {
                    assert(queued_prepared(task_id@, actions@[i as int], task_actions@, now, Err(e)));
                    assert forall|j: int| 0 <= j < i implies #[trigger] prepares(task_id@, actions@[j], task_actions@, now) by {
                        assert(queued_prepared(task_id@, actions@[j], task_actions@, now, Ok(out@[j])));
                    }
                }
                return Err(e);
            },
        }
        i = i + 1;
    }
    Ok(out)
}

/// What handling an input asks for once the task's logic was looked at.
pub enum InputWork {
    /// The state machines handled the trigger: their new states, the actions to queue, and
    /// whether any machine moved (the state is written only then).
    Machines { states: Vec<StateMachineData>, actions: Vec<ActionInvocation>, changed: bool },
    /// The task's script is to run with the payload; the actions it asks for go to
    /// `queue_requested_actions`.
    RunScript,
    /// The dataflow is to run the trigger (see `DataFlowRun`); the actions it asks for go to
    /// `queue_requested_actions`.
    RunDataFlow,
}

/// The decisions of handling an input at a task, up to the script runtimes: an input for a
/// periodic trigger that is gone fails as `PeriodicTaskDeleted`; a state of another kind than
/// the logic fails as `ConfigStateMismatch`; state machines handle the trigger with the
/// payload (see `apply_state_machines`, the failure of a machine being a `StateMachineError`);
/// script and dataflow logic ask for their runtime.
pub fn apply_input_step(config: &TaskConfig, state: &TaskState, requested_periodic: &Option<String>, found_periodic: &Option<String>, task_id: &str, trigger_local_id: &str, user_id: &str, input_arrival_id: &String, payload: &JsonValue, outcomes: &Vec<ScriptOutcomes>) -> (r: Result<InputWork, Error>)
    ensures
        (requested_periodic is Some && found_periodic is None) ==> r == Err::<InputWork, Error>(Error::PeriodicTaskDeleted),
        !(requested_periodic is Some && found_periodic is None) && !state_fits(*config, *state) ==> r is Err
            && (r->Err_0 matches Error::ConfigStateMismatch(k) && k@ == config_kind(*config)),
        !(requested_periodic is Some && found_periodic is None) && state_fits(*config, *state) ==> match (*config, *state) {
            (TaskConfig::StateMachine(ms), TaskState::StateMachine(ds)) => match machines_outcome(ms@, ds@, min_len(ms@.len(), ds@.len()), trigger_local_id@, Some(payload@), outcomes@) {
                Err(e) => r is Err && (r->Err_0 matches Error::StateMachineError(x) && x@ == e),
                Ok((sts, acts, ch)) => r is Ok && (r->Ok_0 matches InputWork::Machines { states, actions, changed } && {
                    &&& states@.len() == sts.len()
                    &&& forall|i: int| 0 <= i < sts.len() ==> (#[trigger] states@[i]).state@ == sts[i] && states@[i].context@ == ds@[i].context@
                    &&& invocations_match(actions@, acts, task_id@, user_id@, Some(input_arrival_id@))
                    &&& changed == ch
                }),
            },
            (TaskConfig::Js(_), _) => r is Ok && r->Ok_0 is RunScript,
            (TaskConfig::DataFlow(_), _) => r is Ok && r->Ok_0 is RunDataFlow,
            _ => false,
        },
{
    match check_periodic_trigger(requested_periodic, found_periodic) {
        Ok(()) => {},
        Err(e) => {
            return Err(e);
        },
    }
    match config.check_state(state) {
        Ok(()) => {},
        Err(e) => {
            return Err(e);
        },
    }
    match (config, state) {
        (TaskConfig::StateMachine(ms), TaskState::StateMachine(ds)) => {
            let arrival = Some(input_arrival_id.clone());
            match apply_state_machines(ms, ds, task_id, trigger_local_id, user_id, &arrival, Some(payload), outcomes) {
                Ok((states, actions, changed)) => Ok(InputWork::Machines { states, actions, changed }),
                Err(e) => Err(Error::StateMachineError(e)),
            }
        },
        (TaskConfig::Js(_), _) => Ok(InputWork::RunScript),
        (TaskConfig::DataFlow(_), _) => Ok(InputWork::RunDataFlow),
        _ => Err(Error::TaskIsEmpty),
    }
}

/// What becomes of an input once it was handled.
pub enum InputOutcome {
    /// The input was for a periodic trigger that no longer exists: its log entry goes away, and
    /// the input counts as handled.
    Deleted,
    /// The input's log entry gets this status and information; `result` is what handling it
    /// returns, and `reschedule` whether its periodic trigger (if any) is to be queued again.
    Logged { status: InputStatus, info: JsonValue, result: Result<(), Error>, reschedule: bool },
}

/// What becomes of an input given what handling it gave: success logs the handler's
/// information; a failure logs `{"msg": message, "info": details}` and is returned; a deleted
/// periodic trigger is no failure. A periodic trigger is queued again after success, or after a
/// failure when `reschedule_on_error` says so.
pub fn input_outcome(result: Result<JsonValue, Error>, details: String, reschedule_on_error: bool) -> (r: InputOutcome)
    ensures
        match result {
            Ok(info) => r matches InputOutcome::Logged { status, info: i, result: res, reschedule }
                && status == InputStatus::Success && i@ == info@ && res is Ok && reschedule,
            Err(Error::PeriodicTaskDeleted) => r is Deleted,
            Err(e) => r matches InputOutcome::Logged { status, info: i, result: res, reschedule }
                && status == InputStatus::Error
                && i@ == JsonView::Object(seq![("msg"@, JsonView::Str(crate::error::error_text(e))), ("info"@, JsonView::Str(details@))])
                && res == Err::<(), Error>(e) && reschedule == reschedule_on_error,
        },
{
    match result {
        Ok(info) => InputOutcome::Logged { status: InputStatus::Success, info, result: Ok(()), reschedule: true },
        Err(Error::PeriodicTaskDeleted) => InputOutcome::Deleted,
        Err(e) => {
            let msg = e.to_string();
            let ghost mv = msg@;
            let mut m = JsonMap::new();
            m.insert(string_of("msg"), JsonValue::String(msg));
            proof {
                reveal_strlit("msg");
                reveal_strlit("info");
                assert("msg"@.len() != "info"@.len());
                assert(m.entries_view() =~= seq![("msg"@, JsonView::Str(mv))]);
            }
            m.insert(string_of("info"), JsonValue::String(details));
            assert(m.entries_view() =~= seq![("msg"@, JsonView::Str(mv)), ("info"@, JsonView::Str(details@))]);
            InputOutcome::Logged { status: InputStatus::Error, info: JsonValue::Object(m), result: Err(e), reschedule: reschedule_on_error }
        },
    }
}

} // verus!
