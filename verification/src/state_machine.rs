//! State machine tasks: each machine is in one of its states, and a trigger runs the handler
//! that the current state (or, failing that, the machine as a whole) has for it. A handler may
//! move the machine to another state and queue actions.
use vstd::prelude::*;
use crate::actions::{ActionInvocation, new_uuid};
use crate::error::{TaskErrorView, TaskValidateError, task_error_views, opt_name};
use crate::json::{JsonMap, JsonValue, JsonView, insert_entries, entries_map, lemma_insert_entries, lemma_entries_map_dom, lemma_last_entry_value};
use crate::pointer::{json_pointer, pointer};
use crate::text::{push_decimal, push_str, str_eq, string_of, decimal};
use crate::template::texts;

verus! {

/// Where a machine is, and what it remembers.
pub struct StateMachineData {
    pub state: String,
    pub context: JsonValue,
}

/// A state machine. The states are named; no name occurs twice (see `wf`).
pub struct StateMachine {
    pub name: String,
    pub description: Option<String>,
    pub initial: String,
    pub on: Vec<EventHandler>,
    pub states: Vec<(String, StateDefinition)>,
}

/// A state: the handlers it has for triggers.
pub struct StateDefinition {
    pub description: Option<String>,
    pub on: Vec<EventHandler>,
}

/// What to do when a trigger fires: where to go, and which actions to queue.
pub struct EventHandler {
    pub trigger_id: String,
    pub target: Option<TransitionTarget>,
    pub actions: Option<Vec<ActionInvokeDef>>,
}

/// The state a handler moves to: a fixed one, or the one a script names.
pub enum TransitionTarget {
    One(String),
    Script(String),
}

/// A conditional transition.
pub struct TransitionCondition {
    pub target: String,
    pub cond: String,
}

/// An action to queue, and how its payload is built.
pub struct ActionInvokeDef {
    pub task_action_local_id: String,
    pub data: ActionPayloadBuilder,
}

/// How an action's payload is built: member by member (no member name occurs twice), or by
/// a script.
pub enum ActionPayloadBuilder {
    FieldMap(Vec<(String, ActionInvokeDefDataField)>),
    Script(String),
}

/// Where a payload member comes from.
pub enum ActionInvokeDefDataField {
    /// A path from the input that triggered the action, and whether or not it's required.
    Input(String, bool),
    /// A path from the state machine's context, and whether or not it's required.
    Context(String, bool),
    /// A constant value
    Constant(JsonValue),
    /// A script that calculates a value
    Script(String),
}

/// Why a machine could not handle a trigger.
pub enum StateMachineError {
    UnknownState { idx: usize, state: String },
    ContextMissingField(String),
    InputPayloadMissingField(String),
    /// A script failed with this message.
    ScriptError(String),
}

/// The mathematical form of a machine's failure.
pub enum MachineErrorView {
    UnknownState { idx: nat, state: Seq<char> },
    ContextMissingField(Seq<char>),
    InputPayloadMissingField(Seq<char>),
    ScriptError(Seq<char>),
}

impl View for StateMachineError {
    type V = MachineErrorView;

    open spec fn view(&self) -> MachineErrorView {
        match self {
            StateMachineError::UnknownState { idx, state } => MachineErrorView::UnknownState { idx: *idx as nat, state: state@ },
            StateMachineError::ContextMissingField(p) => MachineErrorView::ContextMissingField(p@),
            StateMachineError::InputPayloadMissingField(p) => MachineErrorView::InputPayloadMissingField(p@),
            StateMachineError::ScriptError(m) => MachineErrorView::ScriptError(m@),
        }
    }
}

/// How a machine's failure is reported to people.
pub open spec fn machine_error_text(e: MachineErrorView) -> Seq<char> {
    match e {
        MachineErrorView::UnknownState { idx, state } => "Machine "@ + decimal(idx) + " unknown state "@ + state,
        MachineErrorView::ContextMissingField(p) => "Context is missing required field "@ + p,
        MachineErrorView::InputPayloadMissingField(p) => "Payload is missing required field "@ + p,
        MachineErrorView::ScriptError(m) => m,
    }
}

impl StateMachineError {
    /// How this failure is reported to people (see `machine_error_text`).
    pub fn to_string(&self) -> (r: String)
        ensures
            r@ == machine_error_text(self@),
    {
        let mut out = String::new();
        match self {
            StateMachineError::UnknownState { idx, state } => {
                push_str(&mut out, "Machine ");
                push_decimal(&mut out, *idx as u64);
                push_str(&mut out, " unknown state ");
                push_str(&mut out, state.as_str());
            },
            StateMachineError::ContextMissingField(p) => {
                push_str(&mut out, "Context is missing required field ");
                push_str(&mut out, p.as_str());
            },
            StateMachineError::InputPayloadMissingField(p) => {
                push_str(&mut out, "Payload is missing required field ");
                push_str(&mut out, p.as_str());
            },
            StateMachineError::ScriptError(m) => {
                push_str(&mut out, m.as_str());
            },
        }
        assert(out@ =~= machine_error_text(self@));
        out
    }
}

/// The names of a machine's states.
pub open spec fn state_names(states: Seq<(String, StateDefinition)>) -> Seq<Seq<char>> {
    states.map_values(|s: (String, StateDefinition)| s.0@)
}

impl StateMachine {
    /// No state name occurs twice.
    pub open spec fn wf(&self) -> bool {
        forall|i: int, j: int| 0 <= i < j < self.states.len() ==> self.states@[i].0@ != self.states@[j].0@
    }
}

/// Whether a machine has a state of the given name.
fn has_state(states: &Vec<(String, StateDefinition)>, name: &str) -> (r: Option<usize>)
    ensures
        match r {
            Some(i) => i < states.len() && states@[i as int].0@ == name@
                && forall|j: int| 0 <= j < i ==> states@[j].0@ != name@,
            None => !state_names(states@).contains(name@),
        },
{
    let mut i: usize = 0;
    while i < states.len()
        invariant
            i <= states.len(),
            forall|j: int| 0 <= j < i ==> states@[j].0@ != name@,
        decreases states.len() - i,
    {
        if str_eq(states[i].0.as_str(), name) {
            return Some(i);
        }
        i = i + 1;
    }
    proof {
        if state_names(states@).contains(name@) {
            let k = choose|k: int| 0 <= k < states@.len() && #[trigger] state_names(states@)[k] == name@;
            assert(states@[k].0@ == name@);
        }
    }
    None
}

/// Whether a list of texts holds a given text.
fn contains_text(list: &Vec<String>, s: &str) -> (r: bool)
    ensures
        r == texts(list@).contains(s@),
{
    let mut i: usize = 0;
    while i < list.len()
        invariant
            i <= list.len(),
            forall|j: int| 0 <= j < i ==> list@[j]@ != s@,
        decreases list.len() - i,
    {
        if str_eq(list[i].as_str(), s) {
            assert(texts(list@)[i as int] == s@);
            return true;
        }
        i = i + 1;
    }
    proof {
        if texts(list@).contains(s@) {
            let k = choose|k: int| 0 <= k < list@.len() && #[trigger] texts(list@)[k] == s@;
            assert(list@[k]@ == s@);
        }
    }
    false
}

/// The problems of one handler at a position among the handlers of a state (or of the
/// machine as a whole): an unknown trigger, then a fixed target that is no state.
pub open spec fn handler_problems(h: EventHandler, index: nat, state: Option<Seq<char>>, triggers: Seq<Seq<char>>, states: Seq<Seq<char>>) -> Seq<TaskErrorView> {
    let a = if triggers.contains(h.trigger_id@) {
        Seq::empty()
    } else {
        seq![TaskErrorView::InvalidTriggerId { trigger_id: h.trigger_id@, index, state }]
    };
    let b = match h.target {
        Some(TransitionTarget::One(s)) => if states.contains(s@) {
            Seq::empty()
        } else {
            seq![TaskErrorView::InvalidTarget { state, index, target: s@ }]
        },
        _ => Seq::empty(),
    };
    a + b
}

/// The problems of a list of handlers, in order.
pub open spec fn handlers_problems(hs: Seq<EventHandler>, state: Option<Seq<char>>, triggers: Seq<Seq<char>>, states: Seq<Seq<char>>) -> Seq<TaskErrorView>
    decreases hs.len(),
{
    if hs.len() == 0 {
        Seq::empty()
    } else {
        handlers_problems(hs.drop_last(), state, triggers, states) + handler_problems(hs.last(), (hs.len() - 1) as nat, state, triggers, states)
    }
}

/// The problems of the handlers of each state, in state order.
pub open spec fn states_problems(sts: Seq<(String, StateDefinition)>, triggers: Seq<Seq<char>>, states: Seq<Seq<char>>) -> Seq<TaskErrorView>
    decreases sts.len(),
{
    if sts.len() == 0 {
        Seq::empty()
    } else {
        states_problems(sts.drop_last(), triggers, states) + handlers_problems(sts.last().1.on@, Some(sts.last().0@), triggers, states)
    }
}

/// The problems of a machine: an initial state that is not one of its states, then the
/// problems of the machine's own handlers, then those of each state's handlers.
pub open spec fn machine_problems(m: StateMachine, triggers: Seq<Seq<char>>) -> Seq<TaskErrorView> {
    let names = state_names(m.states@);
    (if names.contains(m.initial@) {
        Seq::empty()
    } else {
        seq![TaskErrorView::InvalidInitialState(m.initial@)]
    }) + handlers_problems(m.on@, None, triggers, names) + states_problems(m.states@, triggers, names)
}

/// A handler moves to a fixed state that is not among `states`.
pub open spec fn bad_target(h: EventHandler, states: Seq<Seq<char>>) -> bool {
    h.target matches Some(TransitionTarget::One(t)) && !states.contains(t@)
}

/// The fixed target of a handler.
pub open spec fn target_name(h: EventHandler) -> Seq<char> {
    match h.target {
        Some(TransitionTarget::One(t)) => t@,
        _ => Seq::empty(),
    }
}

/// Every handler of a list with a fixed target outside `states`, and every handler whose
/// trigger is not among `triggers`, is reported with the list's state and its position.
proof fn lemma_handlers_report(hs: Seq<EventHandler>, state: Option<Seq<char>>, triggers: Seq<Seq<char>>, states: Seq<Seq<char>>)
    ensures
        forall|i: int| 0 <= i < hs.len() && bad_target(#[trigger] hs[i], states) ==> handlers_problems(hs, state, triggers, states).contains(
            TaskErrorView::InvalidTarget { state, index: i as nat, target: target_name(hs[i]) }),
        forall|i: int| 0 <= i < hs.len() && !triggers.contains((#[trigger] hs[i]).trigger_id@) ==> handlers_problems(hs, state, triggers, states).contains(
            TaskErrorView::InvalidTriggerId { trigger_id: hs[i].trigger_id@, index: i as nat, state }),
    decreases hs.len(),
{
    if hs.len() > 0 {
        let p = hs.drop_last();
        lemma_handlers_report(p, state, triggers, states);
        let prev = handlers_problems(p, state, triggers, states);
        let n = hs.len() - 1;
        let last = handler_problems(hs.last(), n as nat, state, triggers, states);
        let all = prev + last;
        assert(all == handlers_problems(hs, state, triggers, states));
        assert forall|i: int| 0 <= i < hs.len() && bad_target(#[trigger] hs[i], states) implies all.contains(
            TaskErrorView::InvalidTarget { state, index: i as nat, target: target_name(hs[i]) }) by {
            let e = TaskErrorView::InvalidTarget { state, index: i as nat, target: target_name(hs[i]) };
            if i < n {
                assert(hs[i] == p[i]);
                let k = choose|k: int| 0 <= k < prev.len() && prev[k] == e;
                assert(all[k] == e);
            } else {
                assert(hs[i] == hs.last());
                assert(last[last.len() - 1] == e);
                assert(all[all.len() - 1] == e);
            }
        }
        assert forall|i: int| 0 <= i < hs.len() && !triggers.contains((#[trigger] hs[i]).trigger_id@) implies all.contains(
            TaskErrorView::InvalidTriggerId { trigger_id: hs[i].trigger_id@, index: i as nat, state }) by {
            let e = TaskErrorView::InvalidTriggerId { trigger_id: hs[i].trigger_id@, index: i as nat, state };
            if i < n {
                assert(hs[i] == p[i]);
                let k = choose|k: int| 0 <= k < prev.len() && prev[k] == e;
                assert(all[k] == e);
            } else {
                assert(hs[i] == hs.last());
                assert(last[0] == e);
                assert(all[prev.len() as int] == e);
            }
        }
    }
}

/// Every handler of every state with a fixed target outside `states` is reported with its
/// state's name and its position.
proof fn lemma_states_report(sts: Seq<(String, StateDefinition)>, triggers: Seq<Seq<char>>, states: Seq<Seq<char>>)
    ensures
        forall|j: int, i: int| 0 <= j < sts.len() && 0 <= i < sts[j].1.on@.len() && bad_target(#[trigger] sts[j].1.on@[i], states)
            ==> states_problems(sts, triggers, states).contains(
                TaskErrorView::InvalidTarget { state: Some(sts[j].0@), index: i as nat, target: target_name(sts[j].1.on@[i]) }),
    decreases sts.len(),
{
    if sts.len() > 0 {
        let p = sts.drop_last();
        lemma_states_report(p, triggers, states);
        let n = sts.len() - 1;
        let prev = states_problems(p, triggers, states);
        let last = handlers_problems(sts.last().1.on@, Some(sts.last().0@), triggers, states);
        let all = prev + last;
        assert(all == states_problems(sts, triggers, states));
        lemma_handlers_report(sts.last().1.on@, Some(sts.last().0@), triggers, states);
        assert forall|j: int, i: int| 0 <= j < sts.len() && 0 <= i < sts[j].1.on@.len() && bad_target(#[trigger] sts[j].1.on@[i], states)
            implies all.contains(TaskErrorView::InvalidTarget { state: Some(sts[j].0@), index: i as nat, target: target_name(sts[j].1.on@[i]) }) by {
            let e = TaskErrorView::InvalidTarget { state: Some(sts[j].0@), index: i as nat, target: target_name(sts[j].1.on@[i]) };
            if j < n {
                assert(sts[j] == p[j]);
                assert(bad_target(p[j].1.on@[i], states));
                let k = choose|k: int| 0 <= k < prev.len() && prev[k] == e;
                assert(all[k] == e);
            } else {
                assert(sts[j] == sts.last());
                assert(bad_target(sts.last().1.on@[i], states));
                let k = choose|k: int| 0 <= k < last.len() && last[k] == e;
                assert(all[prev.len() + k] == e);
            }
        }
    }
}

/// Validating a machine reports every handler that moves to a state the machine does not
/// have: one of the machine's own handlers with no state, one of a state's handlers with that
/// state's name, each with its position and the missing target.
pub proof fn law_invalid_targets_reported(m: StateMachine, triggers: Seq<Seq<char>>)
    ensures
        forall|i: int| 0 <= i < m.on@.len() && bad_target(#[trigger] m.on@[i], state_names(m.states@))
            ==> machine_problems(m, triggers).contains(
                TaskErrorView::InvalidTarget { state: None, index: i as nat, target: target_name(m.on@[i]) }),
        forall|j: int, i: int| 0 <= j < m.states@.len() && 0 <= i < m.states@[j].1.on@.len()
            && bad_target(#[trigger] m.states@[j].1.on@[i], state_names(m.states@))
            ==> machine_problems(m, triggers).contains(
                TaskErrorView::InvalidTarget { state: Some(m.states@[j].0@), index: i as nat, target: target_name(m.states@[j].1.on@[i]) }),
        forall|i: int| 0 <= i < m.on@.len() && !triggers.contains((#[trigger] m.on@[i]).trigger_id@)
            ==> machine_problems(m, triggers).contains(
                TaskErrorView::InvalidTriggerId { trigger_id: m.on@[i].trigger_id@, index: i as nat, state: None }),
{
    let names = state_names(m.states@);
    let head: Seq<TaskErrorView> = if names.contains(m.initial@) { Seq::empty() } else { seq![TaskErrorView::InvalidInitialState(m.initial@)] };
    let g = handlers_problems(m.on@, None, triggers, names);
    let st = states_problems(m.states@, triggers, names);
    let all = head + g + st;
    assert(all == machine_problems(m, triggers));
    lemma_handlers_report(m.on@, None, triggers, names);
    lemma_states_report(m.states@, triggers, names);
    assert forall|i: int| 0 <= i < m.on@.len() && bad_target(#[trigger] m.on@[i], names)
        implies all.contains(TaskErrorView::InvalidTarget { state: None, index: i as nat, target: target_name(m.on@[i]) }) by {
        let e = TaskErrorView::InvalidTarget { state: None, index: i as nat, target: target_name(m.on@[i]) };
        let k = choose|k: int| 0 <= k < g.len() && g[k] == e;
        assert(all[head.len() + k] == e);
    }
    assert forall|j: int, i: int| 0 <= j < m.states@.len() && 0 <= i < m.states@[j].1.on@.len()
        && bad_target(#[trigger] m.states@[j].1.on@[i], names)
        implies all.contains(TaskErrorView::InvalidTarget { state: Some(m.states@[j].0@), index: i as nat, target: target_name(m.states@[j].1.on@[i]) }) by {
        let e = TaskErrorView::InvalidTarget { state: Some(m.states@[j].0@), index: i as nat, target: target_name(m.states@[j].1.on@[i]) };
        let k = choose|k: int| 0 <= k < st.len() && st[k] == e;
        assert(all[head.len() + g.len() + k] == e);
    }
    assert forall|i: int| 0 <= i < m.on@.len() && !triggers.contains((#[trigger] m.on@[i]).trigger_id@)
        implies all.contains(TaskErrorView::InvalidTriggerId { trigger_id: m.on@[i].trigger_id@, index: i as nat, state: None }) by {
        let e = TaskErrorView::InvalidTriggerId { trigger_id: m.on@[i].trigger_id@, index: i as nat, state: None };
        let k = choose|k: int| 0 <= k < g.len() && g[k] == e;
        assert(all[head.len() + k] == e);
    }
}

impl StateMachine {
    /// The problems of this machine (see `machine_problems`), given the ids of the task's
    /// triggers.
    pub fn validate(&self, task_triggers: &Vec<String>) -> (r: Vec<TaskValidateError>)
        ensures
            task_error_views(r@) == machine_problems(*self, texts(task_triggers@)),
            forall|i: int| 0 <= i < self.on@.len() && bad_target(#[trigger] self.on@[i], state_names(self.states@))
                ==> task_error_views(r@).contains(
                    TaskErrorView::InvalidTarget { state: None, index: i as nat, target: target_name(self.on@[i]) }),
            forall|j: int, i: int| 0 <= j < self.states@.len() && 0 <= i < self.states@[j].1.on@.len()
                && bad_target(#[trigger] self.states@[j].1.on@[i], state_names(self.states@))
                ==> task_error_views(r@).contains(
                    TaskErrorView::InvalidTarget { state: Some(self.states@[j].0@), index: i as nat, target: target_name(self.states@[j].1.on@[i]) }),
    {
        proof {
            law_invalid_targets_reported(*self, texts(task_triggers@));
        }
        let ghost triggers = texts(task_triggers@);
        let ghost names = state_names(self.states@);
        let mut errors: Vec<TaskValidateError> = Vec::new();
        if has_state(&self.states, self.initial.as_str()).is_none() {
            errors.push(TaskValidateError::InvalidInitialState(self.initial.clone()));
        } else {
            proof {
                let i = choose|i: int| 0 <= i < self.states.len() && self.states@[i].0@ == self.initial@;
                assert(names[i] == self.initial@);
            }
        }
        let ghost head = task_error_views(errors@);
        assert(head =~= (if names.contains(self.initial@) {
            Seq::empty()
        } else {
            seq![TaskErrorView::InvalidInitialState(self.initial@)]
        }));
        self.validate_handlers(task_triggers, &mut errors, None, &self.on);
        let mut i: usize = 0;
        while i < self.states.len()
            invariant
                i <= self.states.len(),
                triggers == texts(task_triggers@),
                names == state_names(self.states@),
                task_error_views(errors@) == head + handlers_problems(self.on@, None, triggers, names)
                    + states_problems(self.states@.subrange(0, i as int), triggers, names),
            decreases self.states.len() - i,
        {
            let ghost before = task_error_views(errors@);
            self.validate_handlers(task_triggers, &mut errors, Some(&self.states[i].0), &self.states[i].1.on);
            proof {
                let t = self.states@.subrange(0, i + 1);
                assert(t.drop_last() =~= self.states@.subrange(0, i as int));
            }
            i = i + 1;
        }
        assert(self.states@.subrange(0, self.states.len() as int) =~= self.states@);
        errors
    }

    /// Appends the problems of a list of handlers (see `handlers_problems`).
    fn validate_handlers(&self, task_triggers: &Vec<String>, errors: &mut Vec<TaskValidateError>, state: Option<&String>, handlers: &Vec<EventHandler>)
        ensures
            task_error_views(final(errors)@) == task_error_views(old(errors)@) + handlers_problems(handlers@, match state {
                Some(s) => Some(s@),
                None => None,
            }, texts(task_triggers@), state_names(self.states@)),
    {
        let ghost triggers = texts(task_triggers@);
        let ghost names = state_names(self.states@);
        let ghost sv = match state {
            Some(s) => Some(s@),
            None => None::<Seq<char>>,
        };
        let ghost start = task_error_views(errors@);
        let mut index: usize = 0;
        while index < handlers.len()
            invariant
                index <= handlers.len(),
                triggers == texts(task_triggers@),
                names == state_names(self.states@),
                sv == (match state {
                    Some(s) => Some(s@),
                    None => None::<Seq<char>>,
                }),
                task_error_views(errors@) == start + handlers_problems(handlers@.subrange(0, index as int), sv, triggers, names),
            decreases handlers.len() - index,
        {
            let handler = &handlers[index];
            let ghost before = errors@;
            if !contains_text(task_triggers, handler.trigger_id.as_str()) {
                let st = match state {
                    Some(s) => Some(s.clone()),
                    None => None,
                };
                errors.push(TaskValidateError::InvalidTriggerId { trigger_id: handler.trigger_id.clone(), state: st, index });
            }
            let ghost mid = errors@;
            match &handler.target {
                Some(TransitionTarget::One(s)) => {
                    if has_state(&self.states, s.as_str()).is_none() {
                        let st = match state {
                            Some(x) => Some(x.clone()),
                            None => None,
                        };
                        errors.push(TaskValidateError::InvalidTarget { state: st, index, target: s.clone() });
                    } else {
                        proof {
                            let i = choose|i: int| 0 <= i < self.states.len() && self.states@[i].0@ == s@;
                            assert(names[i] == s@);
                        }
                    }
                },
                _ => {},
            }
            proof {
                let hp = handler_problems(*handler, index as nat, sv, triggers, names);
                assert(task_error_views(errors@) =~= task_error_views(before) + hp);
                let t = handlers@.subrange(0, index + 1);
                assert(t.drop_last() =~= handlers@.subrange(0, index as int));
                assert(t.last() == *handler);
            }
            index = index + 1;
        }
        assert(handlers@.subrange(0, handlers.len() as int) =~= handlers@);
    }

    /// The state a machine starts in: its initial state, with an empty object as context.
    pub fn default_state(&self) -> (r: StateMachineData)
        ensures
            r.state@ == self.initial@,
            r.context@ == JsonView::Object(Seq::empty()),
    {
        let m = JsonMap::new();
        assert(m.entries_view() =~= Seq::empty());
        StateMachineData { state: self.initial.clone(), context: JsonValue::Object(m) }
    }
}

/// The value under the first key equal to `s`, if any key is.
pub open spec fn first_match<T>(list: Seq<(String, T)>, s: Seq<char>) -> Option<T> {
    if exists|i: int| 0 <= i < list.len() && list[i].0@ == s {
        let i = choose|i: int| 0 <= i < list.len() && list[i].0@ == s && forall|j: int| 0 <= j < i ==> list[j].0@ != s;
        Some(list[i].1)
    } else {
        None
    }
}

/// The position of the first key equal to `s` (see `first_match`).
fn find_key<T>(list: &Vec<(String, T)>, s: &str) -> (r: Option<usize>)
    ensures
        match r {
            Some(i) => i < list.len() && first_match(list@, s@) == Some(list@[i as int].1),
            None => first_match(list@, s@) is None,
        },
{
    let mut i: usize = 0;
    while i < list.len()
        invariant
            i <= list.len(),
            forall|j: int| 0 <= j < i ==> list@[j].0@ != s@,
        decreases list.len() - i,
    {
        if str_eq(list[i].0.as_str(), s) {
            proof {
                let k = choose|k: int| 0 <= k < list@.len() && list@[k].0@ == s@ && forall|j: int| 0 <= j < k ==> list@[j].0@ != s@;
                if k < i {
                    assert(list@[k].0@ != s@);
                } else if k > i {
                    assert(list@[i as int].0@ != s@);
                }
            }
            return Some(i);
        }
        i = i + 1;
    }
    None
}

/// The first handler for a trigger, if any.
pub open spec fn first_handler(hs: Seq<EventHandler>, trigger: Seq<char>) -> Option<EventHandler> {
    if exists|i: int| 0 <= i < hs.len() && hs[i].trigger_id@ == trigger {
        let i = choose|i: int| 0 <= i < hs.len() && hs[i].trigger_id@ == trigger && forall|j: int| 0 <= j < i ==> hs[j].trigger_id@ != trigger;
        Some(hs[i])
    } else {
        None
    }
}

/// The position of the first handler for a trigger (see `first_handler`).
fn find_handler(hs: &Vec<EventHandler>, trigger: &str) -> (r: Option<usize>)
    ensures
        match r {
            Some(i) => i < hs.len() && first_handler(hs@, trigger@) == Some(hs@[i as int]),
            None => first_handler(hs@, trigger@) is None,
        },
{
    let mut i: usize = 0;
    while i < hs.len()
        invariant
            i <= hs.len(),
            forall|j: int| 0 <= j < i ==> hs@[j].trigger_id@ != trigger@,
        decreases hs.len() - i,
    {
        if str_eq(hs[i].trigger_id.as_str(), trigger) {
            proof {
                let k = choose|k: int| 0 <= k < hs@.len() && hs@[k].trigger_id@ == trigger@ && forall|j: int| 0 <= j < k ==> hs@[j].trigger_id@ != trigger@;
                if k < i {
                    assert(hs@[k].trigger_id@ != trigger@);
                } else if k > i {
                    assert(hs@[i as int].trigger_id@ != trigger@);
                }
            }
            return Some(i);
        }
        i = i + 1;
    }
    None
}

/// The handler a machine in a state runs for a trigger: the state's first handler for it,
/// else the machine's own first handler for it. Nothing (the outer `None`) when the machine
/// has no state of that name.
pub open spec fn handler_for(m: StateMachine, state: Seq<char>, trigger: Seq<char>) -> Option<Option<EventHandler>> {
    match first_match(m.states@, state) {
        None => None,
        Some(d) => Some(match first_handler(d.on@, trigger) {
            Some(h) => Some(h),
            None => first_handler(m.on@, trigger),
        }),
    }
}

/// What the scripts of a machine gave, each under its text: for target scripts the state
/// they name (or none), for the others their value. A failed script gives its error message.
pub struct ScriptOutcomes {
    pub targets: Vec<(String, Result<Option<String>, String>)>,
    pub values: Vec<(String, Result<JsonValue, String>)>,
}

/// The value a script gave; a script with no outcome counts as failed without a message.
pub open spec fn script_value(values: Seq<(String, Result<JsonValue, String>)>, s: Seq<char>) -> Result<JsonView, MachineErrorView> {
    match first_match(values, s) {
        Some(Ok(v)) => Ok(v@),
        Some(Err(m)) => Err(MachineErrorView::ScriptError(m@)),
        None => Err(MachineErrorView::ScriptError(Seq::empty())),
    }
}

/// The state a handler moves to, if any.
pub open spec fn next_state_of(h: EventHandler, targets: Seq<(String, Result<Option<String>, String>)>) -> Result<Option<Seq<char>>, MachineErrorView> {
    match h.target {
        None => Ok(None),
        Some(TransitionTarget::One(s)) => Ok(Some(s@)),
        Some(TransitionTarget::Script(s)) => match first_match(targets, s@) {
            Some(Ok(o)) => Ok(opt_name(o)),
            Some(Err(m)) => Err(MachineErrorView::ScriptError(m@)),
            None => Err(MachineErrorView::ScriptError(Seq::empty())),
        },
    }
}

/// The value of one payload member: a constant; the value a pointer selects in the input's
/// payload or in the context (`null` when there is none and the member is optional); or a
/// script's value.
pub open spec fn field_value(f: ActionInvokeDefDataField, context: JsonView, payload: Option<JsonView>, values: Seq<(String, Result<JsonValue, String>)>) -> Result<JsonView, MachineErrorView> {
    match f {
        ActionInvokeDefDataField::Constant(v) => Ok(v@),
        ActionInvokeDefDataField::Input(path, required) => match (match payload {
            Some(p) => json_pointer(p, path@),
            None => None,
        }) {
            Some(v) => Ok(v),
            None => if required {
                Err(MachineErrorView::InputPayloadMissingField(path@))
            } else {
                Ok(JsonView::Null)
            },
        },
        ActionInvokeDefDataField::Context(path, required) => match json_pointer(context, path@) {
            Some(v) => Ok(v),
            None => if required {
                Err(MachineErrorView::ContextMissingField(path@))
            } else {
                Ok(JsonView::Null)
            },
        },
        ActionInvokeDefDataField::Script(s) => script_value(values, s@),
    }
}

/// The members of a payload, in order; the first failure wins.
pub open spec fn build_fields(fs: Seq<(String, ActionInvokeDefDataField)>, context: JsonView, payload: Option<JsonView>, values: Seq<(String, Result<JsonValue, String>)>) -> Result<Seq<(Seq<char>, JsonView)>, MachineErrorView>
    decreases fs.len(),
{
    if fs.len() == 0 {
        Ok(Seq::empty())
    } else {
        match build_fields(fs.drop_last(), context, payload, values) {
            Err(e) => Err(e),
            Ok(prev) => match field_value(fs.last().1, context, payload, values) {
                Ok(v) => Ok(prev.push((fs.last().0@, v))),
                Err(e) => Err(e),
            },
        }
    }
}

/// The members a field map builds: one per field, in order, with the field's name and value.
proof fn lemma_build_fields_shape(fs: Seq<(String, ActionInvokeDefDataField)>, context: JsonView, payload: Option<JsonView>, values: Seq<(String, Result<JsonValue, String>)>)
    requires
        build_fields(fs, context, payload, values) is Ok,
    ensures
        build_fields(fs, context, payload, values)->Ok_0.len() == fs.len(),
        forall|i: int| 0 <= i < fs.len() ==> {
            &&& (#[trigger] build_fields(fs, context, payload, values)->Ok_0[i]).0 == fs[i].0@
            &&& field_value(fs[i].1, context, payload, values) is Ok
            &&& build_fields(fs, context, payload, values)->Ok_0[i].1 == field_value(fs[i].1, context, payload, values)->Ok_0
        },
    decreases fs.len(),
{
    if fs.len() > 0 {
        lemma_build_fields_shape(fs.drop_last(), context, payload, values);
        let m = build_fields(fs, context, payload, values)->Ok_0;
        let prev = build_fields(fs.drop_last(), context, payload, values)->Ok_0;
        assert forall|i: int| 0 <= i < fs.len() - 1 implies #[trigger] m[i] == prev[i] && fs[i] == fs.drop_last()[i] by {}
    }
}

/// A field map builds a member for each of its fields' names and no other.
pub proof fn law_field_map_names(fs: Seq<(String, ActionInvokeDefDataField)>, context: JsonView, payload: Option<JsonView>, values: Seq<(String, Result<JsonValue, String>)>, k: Seq<char>)
    requires
        build_fields(fs, context, payload, values) is Ok,
    ensures
        entries_map(build_fields(fs, context, payload, values)->Ok_0).contains_key(k)
            <==> exists|i: int| 0 <= i < fs.len() && fs[i].0@ == k,
{
    let m = build_fields(fs, context, payload, values)->Ok_0;
    lemma_build_fields_shape(fs, context, payload, values);
    lemma_entries_map_dom(m, k);
    if exists|i: int| 0 <= i < fs.len() && fs[i].0@ == k {
        let i = choose|i: int| 0 <= i < fs.len() && fs[i].0@ == k;
        assert(m[i].0 == k);
    }
    if exists|i: int| 0 <= i < m.len() && m[i].0 == k {
        let i = choose|i: int| 0 <= i < m.len() && m[i].0 == k;
        assert(fs[i].0@ == m[i].0);
    }
}

/// In a field map, the last field of a name decides that member: it is the field's value
/// (a constant, a pointer into the payload or the context, or a script's value).
pub proof fn law_field_map_last_wins(fs: Seq<(String, ActionInvokeDefDataField)>, context: JsonView, payload: Option<JsonView>, values: Seq<(String, Result<JsonValue, String>)>, i: int)
    requires
        build_fields(fs, context, payload, values) is Ok,
        0 <= i < fs.len(),
        forall|j: int| i < j < fs.len() ==> fs[j].0@ != fs[i].0@,
    ensures
        field_value(fs[i].1, context, payload, values) is Ok,
        entries_map(build_fields(fs, context, payload, values)->Ok_0)[fs[i].0@] == field_value(fs[i].1, context, payload, values)->Ok_0,
{
    let m = build_fields(fs, context, payload, values)->Ok_0;
    lemma_build_fields_shape(fs, context, payload, values);
    assert(m[i].0 == fs[i].0@);
    assert forall|j: int| i < j < m.len() implies m[j].0 != m[i].0 by {
        assert(m[j].0 == fs[j].0@);
    }
    lemma_last_entry_value(m, i);
}

/// A field map's payload is the object of its built members, set in order: as a map, exactly
/// the members that `build_fields` gives.
pub proof fn law_field_map_payload(fs: Seq<(String, ActionInvokeDefDataField)>, context: JsonView, payload: Option<JsonView>, values: Seq<(String, Result<JsonValue, String>)>)
    requires
        build_fields(fs, context, payload, values) is Ok,
    ensures
        entries_map(insert_entries(Seq::empty(), build_fields(fs, context, payload, values)->Ok_0))
            == entries_map(build_fields(fs, context, payload, values)->Ok_0),
{
    let m = build_fields(fs, context, payload, values)->Ok_0;
    lemma_insert_entries(Seq::empty(), m);
    assert(entries_map(Seq::<(Seq<char>, JsonView)>::empty()) =~= Map::empty());
    assert(Map::<Seq<char>, JsonView>::empty().union_prefer_right(entries_map(m)) =~= entries_map(m));
}

/// The payload an action is queued with.
pub open spec fn payload_of(b: ActionPayloadBuilder, context: JsonView, payload: Option<JsonView>, values: Seq<(String, Result<JsonValue, String>)>) -> Result<JsonView, MachineErrorView> {
    match b {
        ActionPayloadBuilder::FieldMap(fs) => match build_fields(fs@, context, payload, values) {
            Ok(members) => Ok(JsonView::Object(insert_entries(Seq::empty(), members))),
            Err(e) => Err(e),
        },
        ActionPayloadBuilder::Script(s) => script_value(values, s@),
    }
}

/// The payload a field map builds, key by key: when it builds, it is an object whose members
/// are exactly the fields' names, each with the value of the last field of that name.
pub proof fn law_field_map_builds(fs: Vec<(String, ActionInvokeDefDataField)>, context: JsonView, payload: Option<JsonView>, values: Seq<(String, Result<JsonValue, String>)>, k: Seq<char>, i: int)
    requires
        payload_of(ActionPayloadBuilder::FieldMap(fs), context, payload, values) is Ok,
    ensures
        payload_of(ActionPayloadBuilder::FieldMap(fs), context, payload, values)->Ok_0 is Object,
        ({
            let o = entries_map(payload_of(ActionPayloadBuilder::FieldMap(fs), context, payload, values)->Ok_0->Object_0);
            &&& o.contains_key(k) <==> exists|j: int| 0 <= j < fs@.len() && fs@[j].0@ == k
            &&& (0 <= i < fs@.len() && forall|j: int| i < j < fs@.len() ==> fs@[j].0@ != fs@[i].0@) ==> {
                &&& field_value(fs@[i].1, context, payload, values) is Ok
                &&& o[fs@[i].0@] == field_value(fs@[i].1, context, payload, values)->Ok_0
            }
        }),
{
    law_field_map_payload(fs@, context, payload, values);
    law_field_map_names(fs@, context, payload, values, k);
    if 0 <= i < fs@.len() && forall|j: int| i < j < fs@.len() ==> fs@[j].0@ != fs@[i].0@ {
        law_field_map_last_wins(fs@, context, payload, values, i);
    }
}

/// A field map that does not build fails with the error of its first field that fails: a
/// required input or context path that is missing, or a failed script.
#[verifier::rlimit(60)]
pub proof fn law_field_map_first_failure(fs: Seq<(String, ActionInvokeDefDataField)>, context: JsonView, payload: Option<JsonView>, values: Seq<(String, Result<JsonValue, String>)>)
    requires
        build_fields(fs, context, payload, values) is Err,
    ensures
        exists|i: int| 0 <= i < fs.len()
            && field_value(fs[i].1, context, payload, values) == Err::<JsonView, MachineErrorView>(build_fields(fs, context, payload, values)->Err_0)
            && forall|j: int| 0 <= j < i ==> (#[trigger] field_value(fs[j].1, context, payload, values)) is Ok,
    decreases fs.len(),
{
    let prev = fs.drop_last();
    if build_fields(prev, context, payload, values) is Err {
        law_field_map_first_failure(prev, context, payload, values);
        let i = choose|i: int| 0 <= i < prev.len()
            && field_value(prev[i].1, context, payload, values) == Err::<JsonView, MachineErrorView>(build_fields(prev, context, payload, values)->Err_0)
            && forall|j: int| 0 <= j < i ==> (#[trigger] field_value(prev[j].1, context, payload, values)) is Ok;
        assert(fs[i] == prev[i]);
        assert forall|j: int| 0 <= j < i implies (#[trigger] field_value(fs[j].1, context, payload, values)) is Ok by {
            assert(fs[j] == prev[j]);
            assert(field_value(prev[j].1, context, payload, values) is Ok);
        }
    } else {
        lemma_build_fields_shape(prev, context, payload, values);
        let i = fs.len() - 1;
        assert forall|j: int| 0 <= j < i implies (#[trigger] field_value(fs[j].1, context, payload, values)) is Ok by {
            assert(fs[j] == prev[j]);
            assert(build_fields(prev, context, payload, values)->Ok_0[j].0 == prev[j].0@);
        }
    }
}

/// The actions a handler queues, as task action ids and payloads, in order; the first
/// failure wins.
pub open spec fn actions_of(defs: Seq<ActionInvokeDef>, context: JsonView, payload: Option<JsonView>, values: Seq<(String, Result<JsonValue, String>)>) -> Result<Seq<(Seq<char>, JsonView)>, MachineErrorView>
    decreases defs.len(),
{
    if defs.len() == 0 {
        Ok(Seq::empty())
    } else {
        match actions_of(defs.drop_last(), context, payload, values) {
            Err(e) => Err(e),
            Ok(prev) => match payload_of(defs.last().data, context, payload, values) {
                Ok(p) => Ok(prev.push((defs.last().task_action_local_id@, p))),
                Err(e) => Err(e),
            },
        }
    }
}

/// The actions of a handler that has none are none.
pub open spec fn handler_actions(h: EventHandler) -> Seq<ActionInvokeDef> {
    match h.actions {
        Some(v) => v@,
        None => Seq::empty(),
    }
}

proof fn lemma_build_fields_err(fs: Seq<(String, ActionInvokeDefDataField)>, context: JsonView, payload: Option<JsonView>, values: Seq<(String, Result<JsonValue, String>)>, k: int)
    requires
        0 < k <= fs.len(),
        build_fields(fs.subrange(0, k), context, payload, values) is Err,
    ensures
        build_fields(fs, context, payload, values) == build_fields(fs.subrange(0, k), context, payload, values),
    decreases fs.len() - k,
{
    if k < fs.len() {
        assert(fs.subrange(0, k + 1).drop_last() =~= fs.subrange(0, k));
        lemma_build_fields_err(fs, context, payload, values, k + 1);
    } else {
        assert(fs.subrange(0, k) =~= fs);
    }
}

proof fn lemma_actions_err(defs: Seq<ActionInvokeDef>, context: JsonView, payload: Option<JsonView>, values: Seq<(String, Result<JsonValue, String>)>, k: int)
    requires
        0 < k <= defs.len(),
        actions_of(defs.subrange(0, k), context, payload, values) is Err,
    ensures
        actions_of(defs, context, payload, values) == actions_of(defs.subrange(0, k), context, payload, values),
    decreases defs.len() - k,
{
    if k < defs.len() {
        assert(defs.subrange(0, k + 1).drop_last() =~= defs.subrange(0, k));
        lemma_actions_err(defs, context, payload, values, k + 1);
    } else {
        assert(defs.subrange(0, k) =~= defs);
    }
}

/// The optional view of an optional value.
pub open spec fn opt_view(p: Option<&JsonValue>) -> Option<JsonView> {
    match p {
        Some(v) => Some(v@),
        None => None,
    }
}

/// A script's value (see `script_value`).
fn run_value(values: &Vec<(String, Result<JsonValue, String>)>, s: &str) -> (r: Result<JsonValue, StateMachineError>)
    ensures
        match script_value(values@, s@) {
            Ok(v) => r is Ok && r->Ok_0@ == v,
            Err(e) => r is Err && r->Err_0@ == e,
        },
{
    match find_key(values, s) {
        Some(i) => match &values[i].1 {
            Ok(v) => Ok(v.clone_value()),
            Err(m) => Err(StateMachineError::ScriptError(m.clone())),
        },
        None => Err(StateMachineError::ScriptError(String::new())),
    }
}

/// The value of one payload member (see `field_value`).
fn member_value(f: &ActionInvokeDefDataField, context: &JsonValue, payload: Option<&JsonValue>, values: &Vec<(String, Result<JsonValue, String>)>) -> (r: Result<JsonValue, StateMachineError>)
    ensures
        match field_value(*f, context@, opt_view(payload), values@) {
            Ok(v) => r is Ok && r->Ok_0@ == v,
            Err(e) => r is Err && r->Err_0@ == e,
        },
{
    match f {
        ActionInvokeDefDataField::Constant(v) => Ok(v.clone_value()),
        ActionInvokeDefDataField::Input(path, required) => {
            let found = match payload {
                Some(p) => pointer(p, path.as_str()),
                None => None,
            };
            match found {
                Some(v) => Ok(v),
                None => if *required {
                    Err(StateMachineError::InputPayloadMissingField(path.clone()))
                } else {
                    Ok(JsonValue::Null)
                },
            }
        },
        ActionInvokeDefDataField::Context(path, required) => match pointer(context, path.as_str()) {
            Some(v) => Ok(v),
            None => if *required {
                Err(StateMachineError::ContextMissingField(path.clone()))
            } else {
                Ok(JsonValue::Null)
            },
        },
        ActionInvokeDefDataField::Script(s) => run_value(values, s.as_str()),
    }
}

/// The members of a payload (see `build_fields`).
fn build_members(fs: &Vec<(String, ActionInvokeDefDataField)>, context: &JsonValue, payload: Option<&JsonValue>, values: &Vec<(String, Result<JsonValue, String>)>) -> (r: Result<JsonMap, StateMachineError>)
    ensures
        match build_fields(fs@, context@, opt_view(payload), values@) {
            Ok(members) => r is Ok && r->Ok_0.entries_view() == insert_entries(Seq::empty(), members),
            Err(e) => r is Err && r->Err_0@ == e,
        },
{
    let mut out = JsonMap::new();
    assert(out.entries_view() =~= insert_entries(Seq::empty(), Seq::empty()));
    let mut i: usize = 0;
    while i < fs.len()
        invariant
            i <= fs.len(),
            out.wf(),
            build_fields(fs@.subrange(0, i as int), context@, opt_view(payload), values@) is Ok,
            out.entries_view() == insert_entries(Seq::empty(), build_fields(fs@.subrange(0, i as int), context@, opt_view(payload), values@)->Ok_0),
        decreases fs.len() - i,
    {
        let ghost prev = build_fields(fs@.subrange(0, i as int), context@, opt_view(payload), values@)->Ok_0;
        proof {
            let t = fs@.subrange(0, i + 1);
            assert(t.drop_last() =~= fs@.subrange(0, i as int));
            assert(t.last() == fs@[i as int]);
        }
        match member_value(&fs[i].1, context, payload, values) {
            Ok(v) => {
                let ghost vv = v@;
                out.insert(fs[i].0.clone(), v);
                proof {
                    let members = prev.push((fs@[i as int].0@, vv));
                    assert(members.drop_last() =~= prev);
                }
            },
            Err(e) => {
                proof {
                    lemma_build_fields_err(fs@, context@, opt_view(payload), values@, i + 1);
                }
                return Err(e);
            },
        }
        i = i + 1;
    }
    assert(fs@.subrange(0, fs.len() as int) =~= fs@);
    Ok(out)
}

impl ActionPayloadBuilder {
    /// The payload this builder makes (see `payload_of`); scripts give what `values` holds for
    /// them.
    pub fn build(&self, context: &JsonValue, payload: Option<&JsonValue>, values: &Vec<(String, Result<JsonValue, String>)>) -> (r: Result<JsonValue, StateMachineError>)
        ensures
            match payload_of(*self, context@, opt_view(payload), values@) {
                Ok(v) => r is Ok && r->Ok_0@ == v,
                Err(e) => r is Err && r->Err_0@ == e,
            },
    {
        match self {
            ActionPayloadBuilder::FieldMap(fs) => match build_members(fs, context, payload, values) {
                Ok(out) => Ok(JsonValue::Object(out)),
                Err(e) => Err(e),
            },
            ActionPayloadBuilder::Script(s) => run_value(values, s.as_str()),
        }
    }
}

/// Queued actions carry the task, the user, the input arrival, and each action's id and
/// payload, in order.
pub open spec fn invocations_match(v: Seq<ActionInvocation>, acts: Seq<(Seq<char>, JsonView)>, task_id: Seq<char>, user_id: Seq<char>, input_arrival_id: Option<Seq<char>>) -> bool {
    &&& v.len() == acts.len()
    &&& forall|i: int| 0 <= i < v.len() ==> {
        &&& (#[trigger] v[i]).task_action_local_id@ == acts[i].0
        &&& v[i].payload@ == acts[i].1
        &&& v[i].task_id@ == task_id
        &&& v[i].user_id@ == user_id
        &&& opt_name(v[i].input_arrival_id) == input_arrival_id
    }
}

impl EventHandler {
    /// The actions this handler queues (see `actions_of`); each gets a fresh log id.
    #[verifier::spinoff_prover]
    #[verifier::rlimit(30)]
    pub fn resolve_actions(&self, task_id: &str, user_id: &str, input_arrival_id: &Option<String>, context: &JsonValue, payload: Option<&JsonValue>, values: &Vec<(String, Result<JsonValue, String>)>) -> (r: Result<Vec<ActionInvocation>, StateMachineError>)
        ensures
            match actions_of(handler_actions(*self), context@, opt_view(payload), values@) {
                Ok(acts) => r is Ok && invocations_match(r->Ok_0@, acts, task_id@, user_id@, opt_name(*input_arrival_id)),
                Err(e) => r is Err && r->Err_0@ == e,
            },
    {
        let mut output: Vec<ActionInvocation> = Vec::new();
        match &self.actions {
            None => {
                return Ok(output);
            },
            Some(defs) => {
                let mut i: usize = 0;
                while i < defs.len()
                    invariant
                        i <= defs.len(),
                        handler_actions(*self) == defs@,
                        actions_of(defs@.subrange(0, i as int), context@, opt_view(payload), values@) is Ok,
                        invocations_match(output@, actions_of(defs@.subrange(0, i as int), context@, opt_view(payload), values@)->Ok_0,
                            task_id@, user_id@, opt_name(*input_arrival_id)),
                    decreases defs.len() - i,
                {
                    let ghost prev = actions_of(defs@.subrange(0, i as int), context@, opt_view(payload), values@)->Ok_0;
                    proof {
                        let t = defs@.subrange(0, i + 1);
                        assert(t.drop_last() =~= defs@.subrange(0, i as int));
                        assert(t.last() == defs@[i as int]);
                    }
                    match defs[i].data.build(context, payload, values) {
                        Ok(p) => {
                            let ia = match input_arrival_id {
                                Some(x) => Some(x.clone()),
                                None => None,
                            };
                            let inv = ActionInvocation {
                                task_id: string_of(task_id),
                                task_action_local_id: defs[i].task_action_local_id.clone(),
                                actions_log_id: new_uuid(),
                                input_arrival_id: ia,
                                user_id: string_of(user_id),
                                payload: p,
                            };
                            let ghost before = output@;
                            output.push(inv);
                            proof {
                                let acts = prev.push((defs@[i as int].task_action_local_id@, inv.payload@));
                                assert forall|j: int| 0 <= j < output@.len() implies {
                                    &&& (#[trigger] output@[j]).task_action_local_id@ == acts[j].0
                                    &&& output@[j].payload@ == acts[j].1
                                    &&& output@[j].task_id@ == task_id@
                                    &&& output@[j].user_id@ == user_id@
                                    &&& opt_name(output@[j].input_arrival_id) == opt_name(*input_arrival_id)
                                } by {
                                    if j < before.len() {
                                        assert(output@[j] == before[j]);
                                    }
                                }
                            }
                        },
                        Err(e) => {
                            proof {
                                lemma_actions_err(defs@, context@, opt_view(payload), values@, i + 1);
                            }
                            return Err(e);
                        },
                    }
                    i = i + 1;
                }
                assert(defs@.subrange(0, defs.len() as int) =~= defs@);
                Ok(output)
            },
        }
    }

    /// The state this handler moves to, if any (see `next_state_of`); a script target gives
    /// what `targets` holds for it.
    pub fn next_state(&self, targets: &Vec<(String, Result<Option<String>, String>)>) -> (r: Result<Option<String>, StateMachineError>)
        ensures
            match next_state_of(*self, targets@) {
                Ok(o) => r is Ok && opt_name(r->Ok_0) == o,
                Err(e) => r is Err && r->Err_0@ == e,
            },
    {
        match &self.target {
            None => Ok(None),
            Some(TransitionTarget::One(s)) => Ok(Some(s.clone())),
            Some(TransitionTarget::Script(s)) => match find_key(targets, s.as_str()) {
                Some(i) => match &targets[i].1 {
                    Ok(Some(t)) => Ok(Some(t.clone())),
                    Ok(None) => Ok(None),
                    Err(m) => Err(StateMachineError::ScriptError(m.clone())),
                },
                None => Err(StateMachineError::ScriptError(String::new())),
            },
        }
    }
}

/// A machine of a task, with its data, while it handles a trigger.
pub struct StateMachineWithData {
    task_id: String,
    idx: usize,
    machine: StateMachine,
    data: StateMachineData,
    changed: bool,
}

impl StateMachineWithData {
    pub closed spec fn task_id(&self) -> Seq<char> {
        self.task_id@
    }

    pub closed spec fn idx(&self) -> usize {
        self.idx
    }

    pub closed spec fn machine(&self) -> StateMachine {
        self.machine
    }

    pub closed spec fn data(&self) -> StateMachineData {
        self.data
    }

    pub closed spec fn changed(&self) -> bool {
        self.changed
    }

    /// The machine at position `idx` of a task, with its data, not yet changed.
    pub fn new(task_id: String, idx: usize, machine: StateMachine, data: StateMachineData) -> (r: StateMachineWithData)
        ensures
            r.task_id() == task_id@,
            r.idx() == idx,
            r.machine() == machine,
            r.data() == data,
            !r.changed(),
    {
        StateMachineWithData { task_id, idx, machine, data, changed: false }
    }

    /// The data, and whether the state changed.
    pub fn take(self) -> (r: (StateMachineData, bool))
        ensures
            r.0 == self.data(),
            r.1 == self.changed(),
    {
        (self.data, self.changed)
    }

    /// Handles a trigger (see `machine_outcome`): the machine moves only when the handler's
    /// target and actions both work out, and only a move to another state counts as a change.
    /// Scripts give what `outcomes` holds for them.
    pub fn apply_trigger(&mut self, trigger_id: &str, user_id: &str, input_arrival_id: &Option<String>, payload: Option<&JsonValue>, outcomes: &ScriptOutcomes) -> (r: Result<Vec<ActionInvocation>, StateMachineError>)
        ensures
            final(self).task_id() == old(self).task_id(),
            final(self).idx() == old(self).idx(),
            final(self).machine() == old(self).machine(),
            final(self).data().context == old(self).data().context,
            match machine_outcome(old(self).machine(), old(self).data(), old(self).idx() as nat, trigger_id@, opt_view(payload), outcomes.targets@, outcomes.values@) {
                Err(e) => r is Err && r->Err_0@ == e && *final(self) == *old(self),
                Ok((state, acts, moved)) => {
                    &&& r is Ok
                    &&& invocations_match(r->Ok_0@, acts, old(self).task_id(), user_id@, opt_name(*input_arrival_id))
                    &&& if moved {
                        final(self).data().state@ == state && final(self).changed()
                    } else {
                        final(self).data() == old(self).data() && final(self).changed() == old(self).changed()
                    }
                },
            },
    {
        match handle_trigger(&self.machine, &self.data, self.idx, self.task_id.as_str(), trigger_id, user_id, input_arrival_id, payload, &outcomes.targets, &outcomes.values) {
            Ok((Some(s), actions)) => {
                self.changed = true;
                self.data.state = s;
                Ok(actions)
            },
            Ok((None, actions)) => Ok(actions),
            Err(e) => Err(e),
        }
    }
}

/// What handling a trigger does to a machine with the given data at position `idx`: the
/// state it is in afterwards, the actions it queues, and whether it moved. No state of the
/// data's name is an error; no handler for the trigger does nothing; otherwise the handler's
/// target and then its actions are worked out, the first failure winning, and the machine
/// moves when the target is another state.
#[verifier::opaque]
pub open spec fn machine_outcome(m: StateMachine, d: StateMachineData, idx: nat, trigger: Seq<char>, payload: Option<JsonView>, targets: Seq<(String, Result<Option<String>, String>)>, values: Seq<(String, Result<JsonValue, String>)>) -> Result<(Seq<char>, Seq<(Seq<char>, JsonView)>, bool), MachineErrorView> {
    match handler_for(m, d.state@, trigger) {
        None => Err(MachineErrorView::UnknownState { idx, state: d.state@ }),
        Some(None) => Ok((d.state@, Seq::empty(), false)),
        Some(Some(h)) => match next_state_of(h, targets) {
            Err(e) => Err(e),
            Ok(ns) => match actions_of(handler_actions(h), d.context@, payload, values) {
                Err(e) => Err(e),
                Ok(acts) => if ns is Some && ns->0 != d.state@ {
                    Ok((ns->0, acts, true))
                } else {
                    Ok((d.state@, acts, false))
                },
            },
        },
    }
}

/// Handles a trigger for a machine with its data (see `machine_outcome`): the state to move
/// to when the machine moves, and the queued actions.
pub(crate) fn handle_trigger(machine: &StateMachine, data: &StateMachineData, idx: usize, task_id: &str, trigger_id: &str, user_id: &str, input_arrival_id: &Option<String>, payload: Option<&JsonValue>, targets: &Vec<(String, Result<Option<String>, String>)>, values: &Vec<(String, Result<JsonValue, String>)>) -> (r: Result<(Option<String>, Vec<ActionInvocation>), StateMachineError>)
    ensures
        match machine_outcome(*machine, *data, idx as nat, trigger_id@, opt_view(payload), targets@, values@) {
            Err(e) => r is Err && r->Err_0@ == e,
            Ok((state, acts, moved)) => {
                &&& r is Ok
                &&& invocations_match(r->Ok_0.1@, acts, task_id@, user_id@, opt_name(*input_arrival_id))
                &&& if moved {
                    r->Ok_0.0 is Some && (r->Ok_0.0)->0@ == state
                } else {
                    r->Ok_0.0 is None && state == data.state@
                }
            },
        },
{
    proof {
        reveal(machine_outcome);
    }
    let si = match find_key(&machine.states, data.state.as_str()) {
        Some(i) => i,
        None => {
            return Err(StateMachineError::UnknownState { idx, state: data.state.clone() });
        },
    };
    let handler: &EventHandler = match find_handler(&machine.states[si].1.on, trigger_id) {
        Some(j) => &machine.states[si].1.on[j],
        None => match find_handler(&machine.on, trigger_id) {
            Some(j) => &machine.on[j],
            None => {
                return Ok((None, Vec::new()));
            },
        },
    };
    let next_state = match handler.next_state(targets) {
        Ok(n) => n,
        Err(e) => {
            return Err(e);
        },
    };
    let actions = match handler.resolve_actions(task_id, user_id, input_arrival_id, &data.context, payload, values) {
        Ok(a) => a,
        Err(e) => {
            return Err(e);
        },
    };
    match next_state {
        Some(s) => {
            if !str_eq(data.state.as_str(), s.as_str()) {
                Ok((Some(s), actions))
            } else {
                Ok((None, actions))
            }
        },
        None => Ok((None, actions)),
    }
}

/// The scripts among the members of a payload, in order.
pub open spec fn field_scripts(fs: Seq<(String, ActionInvokeDefDataField)>) -> Seq<Seq<char>>
    decreases fs.len(),
{
    if fs.len() == 0 {
        Seq::empty()
    } else {
        field_scripts(fs.drop_last()) + match fs.last().1 {
            ActionInvokeDefDataField::Script(s) => seq![s@],
            _ => Seq::empty(),
        }
    }
}

/// The scripts that build a payload.
pub open spec fn builder_scripts(b: ActionPayloadBuilder) -> Seq<Seq<char>> {
    match b {
        ActionPayloadBuilder::FieldMap(fs) => field_scripts(fs@),
        ActionPayloadBuilder::Script(s) => seq![s@],
    }
}

/// The scripts that build the payloads of a list of actions, in order.
pub open spec fn actions_scripts(defs: Seq<ActionInvokeDef>) -> Seq<Seq<char>>
    decreases defs.len(),
{
    if defs.len() == 0 {
        Seq::empty()
    } else {
        actions_scripts(defs.drop_last()) + builder_scripts(defs.last().data)
    }
}

/// The script that names a handler's target, if it has one.
pub open spec fn target_scripts(h: EventHandler) -> Seq<Seq<char>> {
    match h.target {
        Some(TransitionTarget::Script(s)) => seq![s@],
        _ => Seq::empty(),
    }
}

/// Appends the scripts of a payload builder.
fn push_builder_scripts(b: &ActionPayloadBuilder, out: &mut Vec<String>)
    ensures
        texts(final(out)@) == texts(old(out)@) + builder_scripts(*b),
{
    match b {
        ActionPayloadBuilder::Script(s) => {
            out.push(s.clone());
            assert(texts(out@) =~= texts(old(out)@) + builder_scripts(*b));
        },
        ActionPayloadBuilder::FieldMap(fs) => {
            let ghost start = texts(out@);
            let mut i: usize = 0;
            assert(field_scripts(fs@.subrange(0, 0)) =~= Seq::<Seq<char>>::empty());
            assert(start + Seq::<Seq<char>>::empty() =~= start);
            while i < fs.len()
                invariant
                    i <= fs.len(),
                    texts(out@) == start + field_scripts(fs@.subrange(0, i as int)),
                decreases fs.len() - i,
            {
                let ghost before = texts(out@);
                match &fs[i].1 {
                    ActionInvokeDefDataField::Script(s) => {
                        out.push(s.clone());
                    },
                    _ => {},
                }
                proof {
                    let t = fs@.subrange(0, i + 1);
                    assert(t.drop_last() =~= fs@.subrange(0, i as int));
                    assert(t.last() == fs@[i as int]);
                    assert(texts(out@) =~= before + match fs@[i as int].1 {
                        ActionInvokeDefDataField::Script(s) => seq![s@],
                        _ => Seq::empty(),
                    });
                }
                i = i + 1;
            }
            assert(fs@.subrange(0, fs.len() as int) =~= fs@);
        },
    }
}

impl StateMachineWithData {
    /// The scripts that handling a trigger may run: the handler's target script, and the
    /// scripts that build its actions' payloads, in order (see `apply_trigger`).
    pub fn scripts_for(&self, trigger_id: &str) -> (r: Result<(Vec<String>, Vec<String>), StateMachineError>)
        ensures
            match handler_for(self.machine(), self.data().state@, trigger_id@) {
                None => r is Err && r->Err_0@ == (MachineErrorView::UnknownState { idx: self.idx() as nat, state: self.data().state@ }),
                Some(None) => r is Ok && r->Ok_0.0@.len() == 0 && r->Ok_0.1@.len() == 0,
                Some(Some(h)) => r is Ok && texts(r->Ok_0.0@) == target_scripts(h) && texts(r->Ok_0.1@) == actions_scripts(handler_actions(h)),
            },
    {
        let si = match find_key(&self.machine.states, self.data.state.as_str()) {
            Some(i) => i,
            None => {
                return Err(StateMachineError::UnknownState { idx: self.idx, state: self.data.state.clone() });
            },
        };
        let handler: &EventHandler = match find_handler(&self.machine.states[si].1.on, trigger_id) {
            Some(j) => &self.machine.states[si].1.on[j],
            None => match find_handler(&self.machine.on, trigger_id) {
                Some(j) => &self.machine.on[j],
                None => {
                    return Ok((Vec::new(), Vec::new()));
                },
            },
        };
        let mut targets: Vec<String> = Vec::new();
        match &handler.target {
            Some(TransitionTarget::Script(s)) => targets.push(s.clone()),
            _ => {},
        }
        assert(texts(targets@) =~= target_scripts(*handler));
        let mut values: Vec<String> = Vec::new();
        assert(texts(values@) =~= Seq::<Seq<char>>::empty());
        match &handler.actions {
            Some(defs) => {
                let mut i: usize = 0;
                while i < defs.len()
                    invariant
                        i <= defs.len(),
                        texts(values@) == actions_scripts(defs@.subrange(0, i as int)),
                    decreases defs.len() - i,
                {
                    push_builder_scripts(&defs[i].data, &mut values);
                    proof {
                        let t = defs@.subrange(0, i + 1);
                        assert(t.drop_last() =~= defs@.subrange(0, i as int));
                        assert(t.last() == defs@[i as int]);
                    }
                    i = i + 1;
                }
                assert(defs@.subrange(0, defs.len() as int) =~= defs@);
            },
            None => {},
        }
        Ok((targets, values))
    }
}

/// A trigger that the current state has a handler for is handled by that state's first such
/// handler, whatever handlers the machine as a whole has.
pub proof fn law_state_handler_first(m: StateMachine, state: Seq<char>, trigger: Seq<char>)
    requires
        first_match(m.states@, state) is Some,
        first_handler(first_match(m.states@, state)->0.on@, trigger) is Some,
    ensures
        handler_for(m, state, trigger) == Some(Some(first_handler(first_match(m.states@, state)->0.on@, trigger)->0)),
{
}

/// A trigger that the current state has no handler for is handled by the machine's first
/// handler for it, if any.
pub proof fn law_global_handler_fallback(m: StateMachine, state: Seq<char>, trigger: Seq<char>)
    requires
        first_match(m.states@, state) is Some,
        first_handler(first_match(m.states@, state)->0.on@, trigger) is None,
    ensures
        handler_for(m, state, trigger) == Some(first_handler(m.on@, trigger)),
{
}

/// A machine whose state has no handler for a trigger, and that has none itself, stays as it
/// is and queues nothing.
pub proof fn law_unhandled_trigger(m: StateMachine, d: StateMachineData, idx: nat, trigger: Seq<char>, payload: Option<JsonView>, targets: Seq<(String, Result<Option<String>, String>)>, values: Seq<(String, Result<JsonValue, String>)>)
    requires
        handler_for(m, d.state@, trigger) == Some(None::<EventHandler>),
    ensures
        machine_outcome(m, d, idx, trigger, payload, targets, values) == Ok::<(Seq<char>, Seq<(Seq<char>, JsonView)>, bool), MachineErrorView>((d.state@, Seq::empty(), false)),
{
    reveal(machine_outcome);
}

/// A machine counts as moved exactly when it ends in another state than it was in, and it
/// ends in the state its handler names (or stays).
pub proof fn law_moves_only_to_other_states(m: StateMachine, d: StateMachineData, idx: nat, trigger: Seq<char>, payload: Option<JsonView>, targets: Seq<(String, Result<Option<String>, String>)>, values: Seq<(String, Result<JsonValue, String>)>)
    requires
        machine_outcome(m, d, idx, trigger, payload, targets, values) is Ok,
    ensures
        ({
            let (state, _, moved) = machine_outcome(m, d, idx, trigger, payload, targets, values)->Ok_0;
            &&& moved <==> state != d.state@
            &&& moved ==> (handler_for(m, d.state@, trigger) matches Some(Some(h))
                && next_state_of(h, targets) == Ok::<Option<Seq<char>>, MachineErrorView>(Some(state)))
        }),
{
    reveal(machine_outcome);
}

/// A machine in a state it does not have fails, naming its position and that state.
pub proof fn law_unknown_state(m: StateMachine, d: StateMachineData, idx: nat, trigger: Seq<char>, payload: Option<JsonView>, targets: Seq<(String, Result<Option<String>, String>)>, values: Seq<(String, Result<JsonValue, String>)>)
    requires
        !state_names(m.states@).contains(d.state@),
    ensures
        machine_outcome(m, d, idx, trigger, payload, targets, values) == Err::<(Seq<char>, Seq<(Seq<char>, JsonView)>, bool), MachineErrorView>(MachineErrorView::UnknownState { idx, state: d.state@ }),
{
    lemma_no_state_no_match(m.states@, d.state@);
    reveal(machine_outcome);
}

/// A name that is no state's name matches no state.
proof fn lemma_no_state_no_match(states: Seq<(String, StateDefinition)>, name: Seq<char>)
    requires
        !state_names(states).contains(name),
    ensures
        first_match(states, name) is None,
{
    if exists|i: int| 0 <= i < states.len() && states[i].0@ == name {
        let i = choose|i: int| 0 <= i < states.len() && states[i].0@ == name;
        assert(state_names(states)[i] == name);
    }
}

} // verus!
