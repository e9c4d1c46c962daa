//! Errors of the task engine and of task and action validation, with the paths that point
//! at the part of a configuration a validation error is about.
use vstd::prelude::*;
use crate::template::{TemplateError, template_error_text, texts};
use crate::state_machine::{StateMachineError, machine_error_text};
use crate::execute::{ExecuteError, source_text};
use crate::dataflow::node::ConsoleMessage;
use crate::text::{decimal, push_decimal, push_str, string_of};

verus! {

/// An error of the task engine. Errors of outside services are kept as their messages.
pub enum Error {
    QueueError(String),
    SerdeJsonError(String),
    SqlError(String),
    /// A payload does not match its schema; one message per violation.
    JsonSchemaValidationError(Vec<String>),
    DatabaseError(String),
    StateMachineError(StateMachineError),
    NotificationError(String),
    ExecuteError(ExecuteError),
    NotFound,
    TaskValidateError(TaskValidateErrors),
    ActionValidateError(ActionValidateErrors),
    TaskActionNotFound(String),
    TaskTriggerNotFound(String),
    ConfigStateMismatch(String),
    TaskScriptSetup(String),
    TaskScript { error: String, console: Vec<ConsoleMessage> },
    DataflowInitScriptError { error: String },
    DataflowScript { node: String, error: String, console: Vec<ConsoleMessage> },
    DataflowGetStateError { node: String, error: String },
    DataflowSetStateError { node: String, error: String },
    /// A cron schedule could not be read; the parser's message.
    CronParseError(String),
    TaskIsEmpty,
    MissingDataFlowNode(u32),
    MissingDataFlowNodeName(String),
    BadEdgeIndex(u32, u32),
    DataflowCycle(u32),
    PeriodicTaskDeleted,
}

/// The debug text of a list of texts (`format!("{:?}", ..)` on a `Vec<String>`).
pub uninterp spec fn debug_texts(v: Seq<Seq<char>>) -> Seq<char>;

/// Formats a list of texts as Rust's `Debug` does. The text is named by `debug_texts`, not
/// described.
#[verifier::external_body]
fn debug_list(v: &Vec<String>) -> (r: String)
    ensures
        r@ == debug_texts(texts(v@)),
{
    format!("{:?}", v)
}

/// How an error of the task engine is reported to people.
pub open spec fn error_text(e: Error) -> Seq<char> {
    match e {
        Error::QueueError(m) => "Queue Error "@ + m@,
        Error::SerdeJsonError(m) => m@,
        Error::SqlError(m) => "SQL Error: "@ + m@,
        Error::JsonSchemaValidationError(v) => debug_texts(texts(v@)),
        Error::DatabaseError(m) => m@,
        Error::StateMachineError(x) => "State Machine Error: "@ + machine_error_text(x@),
        Error::NotificationError(m) => m@,
        Error::ExecuteError(x) => "Action "@ + x.task_action_name@ + " ("@ + x.task_id@ + ":"@ + x.task_action_local_id@
            + "): "@ + source_text(x.error),
        Error::NotFound => "Not found"@,
        Error::TaskValidateError(x) => "Task validation errors: "@ + lines_text(x.0@.map_values(|e: TaskValidateError| task_error_text(e))),
        Error::ActionValidateError(x) => "Action validation errors: "@ + lines_text(x.0@.map_values(|e: ActionValidateError| action_error_text(e))),
        Error::TaskActionNotFound(n) => "No task action found with name "@ + n@,
        Error::TaskTriggerNotFound(n) => "No task trigger found with name "@ + n@,
        Error::ConfigStateMismatch(k) => "Config is for task type "@ + k@ + " and state is of a different type"@,
        Error::TaskScriptSetup(m) => "Setting up task script: "@ + m@,
        Error::TaskScript { error, .. } => "Task script error: "@ + error@,
        Error::DataflowInitScriptError { error } => "Failed to initialize dataflow environment: "@ + error@,
        Error::DataflowScript { node, error, .. } => "Dataflow node "@ + node@ + " script error: "@ + error@,
        Error::DataflowGetStateError { node, error } => "Failed to read result from node "@ + node@ + ": "@ + error@,
        Error::DataflowSetStateError { node, error } => "Failed to write state for node "@ + node@ + ": "@ + error@,
        Error::CronParseError(m) => "Parsing cron schedule: "@ + m@,
        Error::TaskIsEmpty => "Tried to run empty task"@,
        Error::MissingDataFlowNode(n) => "Node "@ + decimal(n as nat) + " does not exist"@,
        Error::MissingDataFlowNodeName(n) => "Node "@ + n@ + " does not exist"@,
        Error::BadEdgeIndex(a, b) => "Node "@ + decimal(a as nat) + " depends on "@ + decimal(b as nat) + ", which does not exist"@,
        Error::DataflowCycle(n) => "Node "@ + decimal(n as nat) + " has a cyclic dependency"@,
        Error::PeriodicTaskDeleted => "Periodic task was deleted"@,
    }
}

impl Error {
    /// How this error is reported to people (see `error_text`).
    pub fn to_string(&self) -> (r: String)
        ensures
            r@ == error_text(*self),
    {
        let mut out = String::new();
        match self {
            Error::QueueError(m) => {
                push_str(&mut out, "Queue Error ");
                push_str(&mut out, m.as_str());
            },
            Error::SerdeJsonError(m) => push_str(&mut out, m.as_str()),
            Error::SqlError(m) => {
                push_str(&mut out, "SQL Error: ");
                push_str(&mut out, m.as_str());
            },
            Error::JsonSchemaValidationError(v) => {
                return debug_list(v);
            },
            Error::DatabaseError(m) => push_str(&mut out, m.as_str()),
            Error::StateMachineError(x) => {
                push_str(&mut out, "State Machine Error: ");
                let t = x.to_string();
                push_str(&mut out, t.as_str());
            },
            Error::NotificationError(m) => push_str(&mut out, m.as_str()),
            Error::ExecuteError(x) => {
                return x.to_string();
            },
            Error::NotFound => push_str(&mut out, "Not found"),
            Error::TaskValidateError(x) => {
                push_str(&mut out, "Task validation errors: ");
                let t = x.to_string();
                push_str(&mut out, t.as_str());
            },
            Error::ActionValidateError(x) => {
                push_str(&mut out, "Action validation errors: ");
                let t = x.to_string();
                push_str(&mut out, t.as_str());
            },
            Error::TaskActionNotFound(n) => {
                push_str(&mut out, "No task action found with name ");
                push_str(&mut out, n.as_str());
            },
            Error::TaskTriggerNotFound(n) => {
                push_str(&mut out, "No task trigger found with name ");
                push_str(&mut out, n.as_str());
            },
            Error::ConfigStateMismatch(k) => {
                push_str(&mut out, "Config is for task type ");
                push_str(&mut out, k.as_str());
                push_str(&mut out, " and state is of a different type");
            },
            Error::TaskScriptSetup(m) => {
                push_str(&mut out, "Setting up task script: ");
                push_str(&mut out, m.as_str());
            },
            Error::TaskScript { error, .. } => {
                push_str(&mut out, "Task script error: ");
                push_str(&mut out, error.as_str());
            },
            Error::DataflowInitScriptError { error } => {
                push_str(&mut out, "Failed to initialize dataflow environment: ");
                push_str(&mut out, error.as_str());
            },
            Error::DataflowScript { node, error, .. } => {
                push_str(&mut out, "Dataflow node ");
                push_str(&mut out, node.as_str());
                push_str(&mut out, " script error: ");
                push_str(&mut out, error.as_str());
            },
            Error::DataflowGetStateError { node, error } => {
                push_str(&mut out, "Failed to read result from node ");
                push_str(&mut out, node.as_str());
                push_str(&mut out, ": ");
                push_str(&mut out, error.as_str());
            },
            Error::DataflowSetStateError { node, error } => {
                push_str(&mut out, "Failed to write state for node ");
                push_str(&mut out, node.as_str());
                push_str(&mut out, ": ");
                push_str(&mut out, error.as_str());
            },
            Error::CronParseError(m) => {
                push_str(&mut out, "Parsing cron schedule: ");
                push_str(&mut out, m.as_str());
            },
            Error::TaskIsEmpty => push_str(&mut out, "Tried to run empty task"),
            Error::MissingDataFlowNode(n) => {
                push_str(&mut out, "Node ");
                push_decimal(&mut out, *n as u64);
                push_str(&mut out, " does not exist");
            },
            Error::MissingDataFlowNodeName(n) => {
                push_str(&mut out, "Node ");
                push_str(&mut out, n.as_str());
                push_str(&mut out, " does not exist");
            },
            Error::BadEdgeIndex(a, b) => {
                push_str(&mut out, "Node ");
                push_decimal(&mut out, *a as u64);
                push_str(&mut out, " depends on ");
                push_decimal(&mut out, *b as u64);
                push_str(&mut out, ", which does not exist");
            },
            Error::DataflowCycle(n) => {
                push_str(&mut out, "Node ");
                push_decimal(&mut out, *n as u64);
                push_str(&mut out, " has a cyclic dependency");
            },
            Error::PeriodicTaskDeleted => push_str(&mut out, "Periodic task was deleted"),
        }
        assert(out@ =~= error_text(*self));
        out
    }
}

/// One step of a path into a configuration: a named member or a position in a list.
pub enum ValidatePathSegment {
    String(String),
    Index(usize),
}

/// The mathematical form of a path step.
pub enum SegmentView {
    Name(Seq<char>),
    Index(nat),
}

impl View for ValidatePathSegment {
    type V = SegmentView;

    open spec fn view(&self) -> SegmentView {
        match self {
            ValidatePathSegment::String(s) => SegmentView::Name(s@),
            ValidatePathSegment::Index(i) => SegmentView::Index(*i as nat),
        }
    }
}

impl ValidatePathSegment {
    /// A named member.
    pub fn from_string(s: String) -> (r: ValidatePathSegment)
        ensures
            r@ == SegmentView::Name(s@),
    {
        ValidatePathSegment::String(s)
    }

    /// A position in a list.
    pub fn from_index(i: usize) -> (r: ValidatePathSegment)
        ensures
            r@ == SegmentView::Index(i as nat),
    {
        ValidatePathSegment::Index(i)
    }
}

/// The views of a list of path steps.
pub open spec fn segment_views(s: Seq<ValidatePathSegment>) -> Seq<SegmentView> {
    s.map_values(|p: ValidatePathSegment| p@)
}

/// A path into a configuration.
pub struct ValidatePath(pub Vec<ValidatePathSegment>);

/// How a path is written: names joined by dots, positions as `[i]` right after what they
/// index.
pub open spec fn path_text(segs: Seq<SegmentView>) -> Seq<char>
    decreases segs.len(),
{
    if segs.len() == 0 {
        Seq::empty()
    } else {
        let prev = path_text(segs.drop_last());
        match segs.last() {
            SegmentView::Name(s) => if segs.len() > 1 {
                prev + "."@ + s
            } else {
                s
            },
            SegmentView::Index(i) => prev + "["@ + decimal(i) + "]"@,
        }
    }
}

impl ValidatePath {
    /// The steps of this path.
    pub fn as_inner(&self) -> (r: &Vec<ValidatePathSegment>)
        ensures
            r == &self.0,
    {
        &self.0
    }

    /// How this path is written (see `path_text`).
    pub fn to_string(&self) -> (r: String)
        ensures
            r@ == path_text(segment_views(self.0@)),
    {
        let mut out = String::new();
        let mut i: usize = 0;
        while i < self.0.len()
            invariant
                i <= self.0.len(),
                out@ == path_text(segment_views(self.0@.subrange(0, i as int))),
            decreases self.0.len() - i,
        {
            match &self.0[i] {
                ValidatePathSegment::String(s) => {
                    if i > 0 {
                        push_str(&mut out, ".");
                    }
                    push_str(&mut out, s.as_str());
                },
                ValidatePathSegment::Index(n) => {
                    push_str(&mut out, "[");
                    push_decimal(&mut out, *n as u64);
                    push_str(&mut out, "]");
                },
            }
            proof {
                let t = segment_views(self.0@.subrange(0, i + 1));
                assert(t.drop_last() =~= segment_views(self.0@.subrange(0, i as int)));
                assert(t.last() == self.0@[i as int]@);
            }
            i = i + 1;
            assert(out@ =~= path_text(segment_views(self.0@.subrange(0, i as int))));
        }
        assert(self.0@.subrange(0, self.0.len() as int) =~= self.0@);
        out
    }
}

/// A problem found in a task's configuration.
pub enum TaskValidateError {
    InvalidInitialState(String),
    InvalidTriggerId { trigger_id: String, index: usize, state: Option<String> },
    InvalidTarget { state: Option<String>, index: usize, target: String },
}

/// The mathematical form of a problem found in a task's configuration.
pub enum TaskErrorView {
    InvalidInitialState(Seq<char>),
    InvalidTriggerId { trigger_id: Seq<char>, index: nat, state: Option<Seq<char>> },
    InvalidTarget { state: Option<Seq<char>>, index: nat, target: Seq<char> },
}

/// The text of an optional name.
pub open spec fn opt_name(o: Option<String>) -> Option<Seq<char>> {
    match o {
        Some(s) => Some(s@),
        None => None,
    }
}

impl View for TaskValidateError {
    type V = TaskErrorView;

    open spec fn view(&self) -> TaskErrorView {
        match self {
            TaskValidateError::InvalidInitialState(s) => TaskErrorView::InvalidInitialState(s@),
            TaskValidateError::InvalidTriggerId { trigger_id, index, state } => TaskErrorView::InvalidTriggerId {
                trigger_id: trigger_id@,
                index: *index as nat,
                state: opt_name(*state),
            },
            TaskValidateError::InvalidTarget { state, index, target } => TaskErrorView::InvalidTarget {
                state: opt_name(*state),
                index: *index as nat,
                target: target@,
            },
        }
    }
}

/// The views of a list of problems.
pub open spec fn task_error_views(v: Seq<TaskValidateError>) -> Seq<TaskErrorView> {
    v.map_values(|e: TaskValidateError| e@)
}

/// The path to the handlers of a state, or to the root handlers when there is none.
pub open spec fn state_prefix(state: Option<String>) -> Seq<SegmentView> {
    match state {
        Some(s) => seq![SegmentView::Name("states"@), SegmentView::Name(s@)],
        None => Seq::empty(),
    }
}

/// The start of the path to the handlers of a state (see `state_prefix`).
fn path_segment_for_state(state: &Option<String>) -> (r: Vec<ValidatePathSegment>)
    ensures
        segment_views(r@) == state_prefix(*state),
{
    match state {
        Some(name) => {
            let v = vec![ValidatePathSegment::String(string_of("states")), ValidatePathSegment::String(name.clone())];
            assert(segment_views(v@) =~= state_prefix(*state));
            v
        },
        None => {
            let v: Vec<ValidatePathSegment> = Vec::new();
            assert(segment_views(v@) =~= state_prefix(*state));
            v
        },
    }
}

/// The path of the part of a configuration that a problem is about.
pub open spec fn task_error_path(e: TaskValidateError) -> Seq<SegmentView> {
    match e {
        TaskValidateError::InvalidInitialState(_) => seq![SegmentView::Name("initial"@)],
        TaskValidateError::InvalidTriggerId { index, state, .. } => state_prefix(state) + seq![
            SegmentView::Name("on"@),
            SegmentView::Index(index as nat),
            SegmentView::Name("trigger_id"@),
        ],
        TaskValidateError::InvalidTarget { state, index, .. } => state_prefix(state) + seq![
            SegmentView::Name("on"@),
            SegmentView::Index(index as nat),
            SegmentView::Name("target"@),
        ],
    }
}

/// How a problem is reported to people; handlers of no state are those of `<root>`.
pub open spec fn task_error_text(e: TaskValidateError) -> Seq<char> {
    match e {
        TaskValidateError::InvalidInitialState(s) => "Invalid initial state: "@ + s@,
        TaskValidateError::InvalidTriggerId { trigger_id, index, state } => "Event handler "@ + (match state {
            Some(s) => s@,
            None => "<root>"@,
        }) + ".on["@ + decimal(index as nat) + "] has unknown trigger id "@ + trigger_id@,
        TaskValidateError::InvalidTarget { state, index, target } => "Event handler "@ + (match state {
            Some(s) => s@,
            None => "<root>"@,
        }) + ".on["@ + decimal(index as nat) + "] has invalid target "@ + target@,
    }
}

impl TaskValidateError {
    /// The path of the part of the configuration this problem is about (see
    /// `task_error_path`).
    pub fn path(&self) -> (r: Option<ValidatePath>)
        ensures
            r is Some && segment_views((r->0).0@) == task_error_path(*self),
    {
        match self {
            TaskValidateError::InvalidInitialState(_) => {
                let v = vec![ValidatePathSegment::String(string_of("initial"))];
                assert(segment_views(v@) =~= task_error_path(*self));
                Some(ValidatePath(v))
            },
            TaskValidateError::InvalidTriggerId { index, state, .. } => {
                let mut path = path_segment_for_state(state);
                let ghost p0 = path@;
                path.push(ValidatePathSegment::String(string_of("on")));
                path.push(ValidatePathSegment::Index(*index));
                path.push(ValidatePathSegment::String(string_of("trigger_id")));
                assert(segment_views(path@) =~= segment_views(p0) + seq![
                    SegmentView::Name("on"@),
                    SegmentView::Index(*index as nat),
                    SegmentView::Name("trigger_id"@),
                ]);
                Some(ValidatePath(path))
            },
            TaskValidateError::InvalidTarget { state, index, .. } => {
                let mut path = path_segment_for_state(state);
                let ghost p0 = path@;
                path.push(ValidatePathSegment::String(string_of("on")));
                path.push(ValidatePathSegment::Index(*index));
                path.push(ValidatePathSegment::String(string_of("target")));
                assert(segment_views(path@) =~= segment_views(p0) + seq![
                    SegmentView::Name("on"@),
                    SegmentView::Index(*index as nat),
                    SegmentView::Name("target"@),
                ]);
                Some(ValidatePath(path))
            },
        }
    }

    /// What the configuration should have held instead.
    pub fn expected(&self) -> (r: Option<String>)
        ensures
            r is Some && r->0@ == match self {
                TaskValidateError::InvalidInitialState(_) => "a state in the `states` object"@,
                TaskValidateError::InvalidTriggerId { .. } => "valid trigger id for this"@ + " task"@,
                TaskValidateError::InvalidTarget { .. } => "a state in the `states` object"@,
            },
    {
        match self {
            TaskValidateError::InvalidInitialState(_) => Some(string_of("a state in the `states` object")),
            TaskValidateError::InvalidTriggerId { .. } => {
                let mut t = string_of("valid trigger id for this");
                push_str(&mut t, " task");
                Some(t)
            },
            TaskValidateError::InvalidTarget { .. } => Some(string_of("a state in the `states` object")),
        }
    }

    /// How this problem is reported to people (see `task_error_text`).
    pub fn to_string(&self) -> (r: String)
        ensures
            r@ == task_error_text(*self),
    {
        let mut out = String::new();
        match self {
            TaskValidateError::InvalidInitialState(s) => {
                push_str(&mut out, "Invalid initial state: ");
                push_str(&mut out, s.as_str());
            },
            TaskValidateError::InvalidTriggerId { trigger_id, index, state } => {
                push_str(&mut out, "Event handler ");
                match state {
                    Some(s) => push_str(&mut out, s.as_str()),
                    None => push_str(&mut out, "<root>"),
                }
                push_str(&mut out, ".on[");
                push_decimal(&mut out, *index as u64);
                push_str(&mut out, "] has unknown trigger id ");
                push_str(&mut out, trigger_id.as_str());
            },
            TaskValidateError::InvalidTarget { state, index, target } => {
                push_str(&mut out, "Event handler ");
                match state {
                    Some(s) => push_str(&mut out, s.as_str()),
                    None => push_str(&mut out, "<root>"),
                }
                push_str(&mut out, ".on[");
                push_decimal(&mut out, *index as u64);
                push_str(&mut out, "] has invalid target ");
                push_str(&mut out, target.as_str());
            },
        }
        assert(out@ =~= task_error_text(*self));
        out
    }
}

/// Each text followed by a line break, in order.
pub open spec fn lines_text(lines: Seq<Seq<char>>) -> Seq<char>
    decreases lines.len(),
{
    if lines.len() == 0 {
        Seq::empty()
    } else {
        lines_text(lines.drop_last()) + lines.last() + "\n"@
    }
}

/// The problems found in a task's configuration.
pub struct TaskValidateErrors(pub Vec<TaskValidateError>);

impl TaskValidateErrors {
    /// One line per problem.
    pub fn to_string(&self) -> (r: String)
        ensures
            r@ == lines_text(self.0@.map_values(|e: TaskValidateError| task_error_text(e))),
    {
        let mut out = String::new();
        let mut i: usize = 0;
        while i < self.0.len()
            invariant
                i <= self.0.len(),
                out@ == lines_text(self.0@.subrange(0, i as int).map_values(|e: TaskValidateError| task_error_text(e))),
            decreases self.0.len() - i,
        {
            let line = self.0[i].to_string();
            push_str(&mut out, line.as_str());
            push_str(&mut out, "\n");
            proof {
                let t = self.0@.subrange(0, i + 1).map_values(|e: TaskValidateError| task_error_text(e));
                assert(t.drop_last() =~= self.0@.subrange(0, i as int).map_values(|e: TaskValidateError| task_error_text(e)));
            }
            i = i + 1;
        }
        assert(self.0@.subrange(0, self.0.len() as int) =~= self.0@);
        out
    }
}

/// A problem found in an action's definition.
pub enum ActionValidateError {
    UnknownExecutor(String),
    /// The executor template's script failed with this message.
    ScriptError(String),
    TemplateError(TemplateError),
}

/// The path of the part of an action's definition that a problem is about, if known.
pub open spec fn action_error_path(e: ActionValidateError) -> Option<Seq<SegmentView>> {
    match e {
        ActionValidateError::UnknownExecutor(_) => Some(seq![SegmentView::Name("executor_id"@)]),
        ActionValidateError::ScriptError(_) => Some(seq![SegmentView::Name("executor_template"@), SegmentView::Name("c"@)]),
        ActionValidateError::TemplateError(TemplateError::Validation(_)) => Some(seq![
            SegmentView::Name("executor_template"@),
            SegmentView::Name("c"@),
        ]),
        ActionValidateError::TemplateError(_) => None,
    }
}

/// How a problem of an action is reported to people.
pub open spec fn action_error_text(e: ActionValidateError) -> Seq<char> {
    match e {
        ActionValidateError::UnknownExecutor(id) => "Unknown executor "@ + id@,
        ActionValidateError::ScriptError(m) => "Script error: "@ + m@,
        ActionValidateError::TemplateError(t) => "Template error: "@ + template_error_text(t),
    }
}

impl ActionValidateError {
    /// The path of the part of the definition this problem is about (see
    /// `action_error_path`).
    pub fn path(&self) -> (r: Option<ValidatePath>)
        ensures
            match action_error_path(*self) {
                Some(p) => r is Some && segment_views((r->0).0@) == p,
                None => r is None,
            },
    {
        match self {
            ActionValidateError::UnknownExecutor(_) => {
                let v = vec![ValidatePathSegment::String(string_of("executor_id"))];
                assert(segment_views(v@) =~= seq![SegmentView::Name("executor_id"@)]);
                Some(ValidatePath(v))
            },
            ActionValidateError::ScriptError(_) | ActionValidateError::TemplateError(TemplateError::Validation(_)) => {
                let v = vec![ValidatePathSegment::String(string_of("executor_template")), ValidatePathSegment::String(string_of("c"))];
                assert(segment_views(v@) =~= seq![SegmentView::Name("executor_template"@), SegmentView::Name("c"@)]);
                Some(ValidatePath(v))
            },
            ActionValidateError::TemplateError(_) => None,
        }
    }

    /// What the definition should have held instead: not known for any action problem.
    pub fn expected(&self) -> (r: Option<String>)
        ensures
            r is None,
    {
        None
    }

    /// How this problem is reported to people (see `action_error_text`).
    pub fn to_string(&self) -> (r: String)
        ensures
            r@ == action_error_text(*self),
    {
        let mut out = String::new();
        match self {
            ActionValidateError::UnknownExecutor(id) => {
                push_str(&mut out, "Unknown executor ");
                push_str(&mut out, id.as_str());
            },
            ActionValidateError::ScriptError(m) => {
                push_str(&mut out, "Script error: ");
                push_str(&mut out, m.as_str());
            },
            ActionValidateError::TemplateError(t) => {
                push_str(&mut out, "Template error: ");
                let inner = t.to_string();
                push_str(&mut out, inner.as_str());
            },
        }
        assert(out@ =~= action_error_text(*self));
        out
    }
}

/// The problems found in an action's definition.
pub struct ActionValidateErrors(pub Vec<ActionValidateError>);

impl ActionValidateErrors {
    /// The problems of a definition that has just one.
    pub fn from(err: ActionValidateError) -> (r: ActionValidateErrors)
        ensures
            r.0@ == seq![err],
    {
        let v = vec![err];
        ActionValidateErrors(v)
    }

    /// One line per problem.
    pub fn to_string(&self) -> (r: String)
        ensures
            r@ == lines_text(self.0@.map_values(|e: ActionValidateError| action_error_text(e))),
    {
        let mut out = String::new();
        let mut i: usize = 0;
        while i < self.0.len()
            invariant
                i <= self.0.len(),
                out@ == lines_text(self.0@.subrange(0, i as int).map_values(|e: ActionValidateError| action_error_text(e))),
            decreases self.0.len() - i,
        {
            let line = self.0[i].to_string();
            push_str(&mut out, line.as_str());
            push_str(&mut out, "\n");
            proof {
                let t = self.0@.subrange(0, i + 1).map_values(|e: ActionValidateError| action_error_text(e));
                assert(t.drop_last() =~= self.0@.subrange(0, i as int).map_values(|e: ActionValidateError| action_error_text(e)));
            }
            i = i + 1;
        }
        assert(self.0@.subrange(0, self.0.len() as int) =~= self.0@);
        out
    }
}

} // verus!
