//! The kinds of node a dataflow task is made of.
use vstd::prelude::*;
use crate::json::{JsonValue, JsonView};

verus! {

/// One node of a dataflow task.
pub struct DataFlowNode {
    pub name: String,
    /// If true, run the node even if some of its inputs are null.
    /// If false, do not run the node if any of its inputs are null.
    pub allow_null_inputs: bool,
    pub func: DataFlowNodeFunction,
}

/// What a node does.
pub enum DataFlowNodeFunction {
    /// This node functions to take a task trigger and pass its data to other nodes.
    Trigger(DataFlowTrigger),
    /// This node can trigger an action, controlled by the accompanying JavaScript code.
    Action(DataFlowAction),
    /// Plain Text
    Text(DataFlowText),
    /// A JavaScript expression or function body
    Js(DataFlowJs),
    Table,
    Graph,
}

pub struct DataFlowText {
    pub body: String,
    pub render_as: TextRenderAs,
}

#[derive(Clone, Copy, Debug, PartialEq, Eq, Structural)]
pub enum TextRenderAs {
    PlainText,
    Markdown,
    Html,
}

pub struct DataFlowTrigger {
    /// The `task_trigger_local_id` of the trigger that this node should listen for.
    pub local_id: String,
}

/// JavaScript code that a node can use.
pub enum DataFlowJsLibrary {
    Inline { body: String },
    Npm { package: String, resolved: String, code: String },
}

impl DataFlowJsLibrary {
    /// The code of the library.
    pub fn code(&self) -> (r: &str)
        ensures
            r@ == match self {
                DataFlowJsLibrary::Inline { body } => body@,
                DataFlowJsLibrary::Npm { code, .. } => code@,
            },
    {
        match self {
            DataFlowJsLibrary::Inline { body } => body.as_str(),
            DataFlowJsLibrary::Npm { code, .. } => code.as_str(),
        }
    }
}

#[derive(Clone, Copy, Debug, PartialEq, Eq, Structural)]
pub enum JsCodeFormat {
    Expression,
    Function,
    AsyncFunction,
}

pub struct DataFlowJs {
    /// The name of the function in the compiled code that stores this node.
    pub func: String,
}

pub struct DataFlowAction {
    pub action_id: String,
    pub payload_code: DataFlowJs,
}

/// An action that a task asks to run, by the task's local name for it.
pub struct TaskActionInvocation {
    pub name: String,
    pub payload: JsonValue,
}

/// One line a script wrote to its console.
pub struct ConsoleMessage {
    pub level: String,
    pub message: String,
}

/// What running one node produced.
pub struct NodeResult {
    pub state: String,
    pub action: Option<TaskActionInvocation>,
    pub console: Vec<ConsoleMessage>,
}

impl NodeResult {
    /// A result with no state, no action and no console output.
    pub fn empty() -> (r: NodeResult)
        ensures
            r.state@.len() == 0,
            r.action is None,
            r.console@.len() == 0,
    {
        NodeResult { state: String::new(), action: None, console: Vec::new() }
    }

    /// A result made of a state and console output, with no action.
    pub fn from_state(state: String, console: Vec<ConsoleMessage>) -> (r: NodeResult)
        ensures
            r.state == state,
            r.action is None,
            r.console == console,
    {
        NodeResult { state, action: None, console }
    }
}

/// The work a node asks of the script runtime.
pub enum NodeWork {
    /// Store this value as the node's state and report the stored form.
    SetState(JsonValue),
    /// Run the named function of the compiled code.
    RunJs(String),
    /// Run the named function, then read the node's state as an action payload.
    RunAction { func: String, action_id: String },
    /// Nothing to run; the node produces no result.
    Nothing,
}

impl DataFlowNodeFunction {
    /// Whether the node's output is written to the stored state.
    pub fn persist_output(&self) -> (r: bool)
        ensures
            r == !(self is Text),
    {
        match self {
            DataFlowNodeFunction::Js(_)
            | DataFlowNodeFunction::Action(_)
            | DataFlowNodeFunction::Trigger(_)
            | DataFlowNodeFunction::Table
            | DataFlowNodeFunction::Graph => true,
            DataFlowNodeFunction::Text(_) => false,
        }
    }

    /// What running this node takes. A trigger node stores its input (`null` when there is none);
    /// a text node stores its body as a string.
    pub fn work(&self, input: Option<JsonValue>) -> (r: NodeWork)
        ensures
            match self {
                DataFlowNodeFunction::Js(js) => r == NodeWork::RunJs(js.func),
                DataFlowNodeFunction::Action(a) => r == (NodeWork::RunAction {
                    func: a.payload_code.func,
                    action_id: a.action_id,
                }),
                DataFlowNodeFunction::Trigger(_) => r is SetState && (match input {
                    Some(v) => r->SetState_0@ == v@,
                    None => r->SetState_0@ == JsonView::Null,
                }),
                DataFlowNodeFunction::Text(t) => r is SetState && r->SetState_0@ == JsonView::Str(
                    t.body@,
                ),
                DataFlowNodeFunction::Table | DataFlowNodeFunction::Graph => r is Nothing,
            },
    {
        match self {
            DataFlowNodeFunction::Js(js) => NodeWork::RunJs(js.func.clone()),
            DataFlowNodeFunction::Action(a) => NodeWork::RunAction {
                func: a.payload_code.func.clone(),
                action_id: a.action_id.clone(),
            },
            DataFlowNodeFunction::Trigger(_) => match input {
                Some(v) => NodeWork::SetState(v),
                None => NodeWork::SetState(JsonValue::Null),
            },
            DataFlowNodeFunction::Text(t) => NodeWork::SetState(JsonValue::String(t.body.clone())),
            DataFlowNodeFunction::Table | DataFlowNodeFunction::Graph => NodeWork::Nothing,
        }
    }
}

/// The result of a script node: an empty script result means the node produced nothing.
pub fn js_node_result(result: String, console: Vec<ConsoleMessage>) -> (r: Option<NodeResult>)
    ensures
        result@.len() == 0 ==> r is None,
        result@.len() != 0 ==> r is Some && r->0.state == result && r->0.action is None
            && r->0.console == console,
{
    if result.as_str().unicode_len() == 0 {
        None
    } else {
        Some(NodeResult::from_state(result, console))
    }
}

/// The action that an action node asks for, given the payload its script left in its state:
/// an object becomes an invocation of the node's action, anything else asks for none.
pub fn action_from_payload(action_id: &String, payload: JsonValue) -> (r: Option<
    TaskActionInvocation,
>)
    ensures
        (payload@ is Object) ==> r is Some && r->0.name@ == action_id@ && r->0.payload@
            == payload@,
        !(payload@ is Object) ==> r is None,
{
    match payload {
        JsonValue::Object(_) => Some(TaskActionInvocation { name: action_id.clone(), payload }),
        _ => None,
    }
}

/// The result of an action node: nothing when its script produced nothing, else the stored
/// state together with the action its payload asks for.
pub fn action_node_result(
    action_id: &String,
    result: String,
    console: Vec<ConsoleMessage>,
    payload: JsonValue,
) -> (r: Option<NodeResult>)
    ensures
        result@.len() == 0 ==> r is None,
        result@.len() != 0 ==> r is Some && r->0.state == result && r->0.console == console && (
        match r->0.action {
            Some(a) => (payload@ is Object) && a.name@ == action_id@ && a.payload@ == payload@,
            None => !(payload@ is Object),
        }),
{
    if result.as_str().unicode_len() == 0 {
        None
    } else {
        let action = action_from_payload(action_id, payload);
        Some(NodeResult { state: result, action, console })
    }
}

} // verus!
