use ergo_tasks::time::Timestamp;
use ergo_tasks::dataflow::dag::DataFlowConfig;
use ergo_tasks::dataflow::node::{
    ConsoleMessage, DataFlowAction, DataFlowJs, DataFlowNode, DataFlowNodeFunction, DataFlowText, DataFlowTrigger,
    NodeResult, TextRenderAs, action_node_result,
};
use ergo_tasks::dataflow::run::DataFlowRun;
use ergo_tasks::dataflow::{DataFlowEdge, DataFlowState};
use ergo_tasks::error::{Error, ValidatePath, ValidatePathSegment};
use ergo_tasks::json::{json_equal, to_json_text, JsonMap, JsonNumber, JsonValue};
use ergo_tasks::pointer::pointer;
use ergo_tasks::scripting::{script_with_args, script_with_context_and_payload, wrap_in_function, wrap_in_function_with_args, TaskJsConfig};
use ergo_tasks::task::{apply_input_step, check_periodic_trigger, input_outcome, prepare_queued_actions, queue_requested_actions, InputOutcome, InputWork, TaskConfig, TaskState};
use ergo_tasks::scripting::TaskJsState;
use ergo_tasks::actions::ActionInvocation;
use ergo_tasks::dataflow::node::TaskActionInvocation;
use ergo_tasks::inputs::InputStatus;

fn s(t: &str) -> JsonValue {
    JsonValue::String(t.to_string())
}

fn obj(entries: Vec<(&str, JsonValue)>) -> JsonValue {
    JsonValue::Object(JsonMap { entries: entries.into_iter().map(|(k, v)| (k.to_string(), v)).collect() })
}

fn n(i: u64) -> JsonValue {
    JsonValue::Number(JsonNumber::PosInt(i))
}

#[test]
fn pointers_select_members_and_elements() {
    let doc = obj(vec![("a/b", n(1)), ("m~n", n(2)), ("list", JsonValue::Array(vec![n(10), n(20)])), ("", n(3))]);
    assert!(json_equal(&pointer(&doc, "").expect("whole"), &doc));
    assert!(pointer(&doc, "a").is_none());
    assert!(json_equal(&pointer(&doc, "/a~1b").expect("escaped slash"), &n(1)));
    assert!(json_equal(&pointer(&doc, "/m~0n").expect("escaped tilde"), &n(2)));
    assert!(json_equal(&pointer(&doc, "/list/1").expect("element"), &n(20)));
    assert!(pointer(&doc, "/list/2").is_none());
    assert!(pointer(&doc, "/list/01").is_none());
    assert!(pointer(&doc, "/list/+1").is_none());
    assert!(json_equal(&pointer(&doc, "/").expect("empty member name"), &n(3)));
    assert!(pointer(&doc, "/missing/deeper").is_none());
}

#[test]
fn map_reads_after_writes() {
    let mut m = JsonMap::new();
    m.insert("a".to_string(), n(1));
    m.insert("b".to_string(), n(2));
    m.insert("a".to_string(), n(3));
    assert!(json_equal(m.get("a").expect("a"), &n(3)));
    assert!(json_equal(m.get("b").expect("b"), &n(2)));
    assert!(m.get("c").is_none());
    assert_eq!(m.len(), 2);
    assert_eq!(to_json_text(&JsonValue::Object(m)), r#"{"a":3,"b":2}"#);
}

#[test]
fn json_text_escapes() {
    let v = obj(vec![("q", s("a\"b\\c\n\u{1}")), ("neg", JsonValue::Number(JsonNumber::NegInt(-7))), ("f", JsonValue::Number(JsonNumber::Float("5.5".to_string())))]);
    assert_eq!(to_json_text(&v), r#"{"q":"a\"b\\c\n\u0001","neg":-7,"f":5.5}"#);
    assert!(!json_equal(&n(1), &s("1")));
}

#[test]
fn script_wrapping() {
    assert_eq!(wrap_in_function("return 1;"), "(function() {\n        return 1;\n    })()");
    assert_eq!(
        wrap_in_function_with_args("return x.a;", "x", &obj(vec![("a", n(1))])),
        "(function(x) {\n        return x.a;\n    })({\"a\":1})"
    );
    let args = vec![("a".to_string(), n(1)), ("b".to_string(), s("t"))];
    assert_eq!(script_with_args("return a;", &args), "(function(a,b) {\n            return a;\n        })(1, \"t\")");
    assert_eq!(
        script_with_context_and_payload("return payload.value", None, Some(&obj(vec![("value", n(5))]))),
        "(function(context,payload) {\n            return payload.value\n        })(null, {\"value\":5})"
    );
    let config = TaskJsConfig { timeout: None, script: String::new(), map: String::new() };
    assert_eq!(config.default_state().context, "null");
}

#[test]
fn error_messages() {
    assert_eq!(Error::NotFound.to_string(), "Not found");
    assert_eq!(Error::BadEdgeIndex(1, 3).to_string(), "Node 1 depends on 3, which does not exist");
    assert_eq!(Error::DataflowCycle(3).to_string(), "Node 3 has a cyclic dependency");
    assert_eq!(Error::MissingDataFlowNode(7).to_string(), "Node 7 does not exist");
    assert_eq!(Error::TaskTriggerNotFound("t".to_string()).to_string(), "No task trigger found with name t");
    assert_eq!(Error::PeriodicTaskDeleted.to_string(), "Periodic task was deleted");
    assert_eq!(Error::JsonSchemaValidationError(vec!["a".to_string()]).to_string(), "[\"a\"]");
    let path = ValidatePath(vec![
        ValidatePathSegment::from_string("states".to_string()),
        ValidatePathSegment::from_string("a".to_string()),
        ValidatePathSegment::from_index(12),
        ValidatePathSegment::from_string("target".to_string()),
    ]);
    assert_eq!(path.to_string(), "states.a[12].target");
    assert_eq!(ValidatePath(vec![ValidatePathSegment::from_index(0)]).to_string(), "[0]");
}

#[test]
fn input_outcomes() {
    match input_outcome(Ok(JsonValue::Null), String::new(), false) {
        InputOutcome::Logged { status, result, reschedule, .. } => {
            assert_eq!(status, InputStatus::Success);
            assert!(result.is_ok());
            assert!(reschedule);
        },
        InputOutcome::Deleted => panic!("not deleted"),
    }
    assert!(matches!(input_outcome(Err(Error::PeriodicTaskDeleted), String::new(), true), InputOutcome::Deleted));
    match input_outcome(Err(Error::NotFound), "details".to_string(), false) {
        InputOutcome::Logged { status, info, result, reschedule } => {
            assert_eq!(status, InputStatus::Error);
            assert_eq!(to_json_text(&info), r#"{"msg":"Not found","info":"details"}"#);
            assert!(matches!(result, Err(Error::NotFound)));
            assert!(!reschedule);
        },
        InputOutcome::Deleted => panic!("not deleted"),
    }
}

fn node(name: &str, func: DataFlowNodeFunction) -> DataFlowNode {
    DataFlowNode { name: name.to_string(), allow_null_inputs: true, func }
}

#[test]
fn dataflow_run_follows_edges() {
    let nodes = vec![
        node("trigger", DataFlowNodeFunction::Trigger(DataFlowTrigger { local_id: "trig".to_string() })),
        node("text", DataFlowNodeFunction::Text(DataFlowText { body: "hi".to_string(), render_as: TextRenderAs::PlainText })),
        node("act", DataFlowNodeFunction::Action(DataFlowAction { action_id: "send".to_string(), payload_code: DataFlowJs { func: "f".to_string() } })),
        node("alone", DataFlowNodeFunction::Js(DataFlowJs { func: "g".to_string() })),
    ];
    let edges = vec![DataFlowEdge { from: 0, to: 1 }, DataFlowEdge { from: 1, to: 2 }];
    let config = match DataFlowConfig::new(nodes, edges, String::new(), None) {
        Ok(c) => c,
        Err(e) => panic!("{}", e.to_string()),
    };
    assert!(matches!(DataFlowRun::begin(&config, DataFlowState { nodes: vec![] }, "other"), Err(Error::TaskTriggerNotFound(_))));
    let mut run = match DataFlowRun::begin(&config, DataFlowState { nodes: vec![] }, "trig") {
        Ok(r) => r,
        Err(e) => panic!("{}", e.to_string()),
    };
    let mut order = Vec::new();
    assert_eq!(run.pending_step(), Some((0, true)));
    order.push(0);
    run.record(Some(NodeResult::from_state("{\"value\":1}".to_string(), vec![])));
    while let Some(step) = run.next_step() {
        order.push(step.node_idx);
        assert!(!step.is_trigger);
        let result = match step.node_idx {
            0 => Some(NodeResult::from_state("{\"value\":1}".to_string(), vec![])),
            1 => Some(NodeResult::from_state("\"hi\"".to_string(), vec![])),
            _ => action_node_result(
                &"send".to_string(),
                "{\"x\":1}".to_string(),
                vec![ConsoleMessage { level: "info".to_string(), message: "sent".to_string() }],
                obj(vec![("x", n(1))]),
            ),
        };
        run.record(result);
    }
    assert_eq!(order, vec![0, 1, 2]);
    let (state, log, actions) = run.finish();
    assert_eq!(state.nodes, vec!["{\"value\":1}".to_string(), String::new(), "{\"x\":1}".to_string(), String::new()]);
    assert!(log.is_some());
    assert_eq!(actions.len(), 1);
    assert_eq!(actions[0].name, "send");
}

#[test]
fn periodic_trigger_must_still_exist() {
    let some = Some("pt1".to_string());
    assert!(matches!(check_periodic_trigger(&some, &None), Err(Error::PeriodicTaskDeleted)));
    assert!(check_periodic_trigger(&some, &some).is_ok());
    assert!(check_periodic_trigger(&None, &None).is_ok());
    assert!(check_periodic_trigger(&None, &some).is_ok());
}

#[test]
fn requested_actions_become_queued_runs() {
    let requested = vec![
        TaskActionInvocation { name: "email".to_string(), payload: obj(vec![("to", s("a@b"))]) },
        TaskActionInvocation { name: "log".to_string(), payload: JsonValue::Null },
    ];
    let runs = queue_requested_actions("task1", "user1", &"arrival1".to_string(), requested);
    assert_eq!(runs.len(), 2);
    assert_eq!(runs[0].task_action_local_id, "email");
    assert_eq!(runs[1].task_action_local_id, "log");
    assert!(json_equal(&runs[0].payload, &obj(vec![("to", s("a@b"))])));
    assert!(json_equal(&runs[1].payload, &JsonValue::Null));
    for r in &runs {
        assert_eq!(r.task_id, "task1");
        assert_eq!(r.user_id, "user1");
        assert_eq!(r.input_arrival_id.as_deref(), Some("arrival1"));
    }
    assert_ne!(runs[0].actions_log_id, runs[1].actions_log_id);
}

#[test]
fn apply_input_decisions() {
    let js = TaskConfig::Js(TaskJsConfig { timeout: None, script: String::new(), map: String::new() });
    let js_state = TaskState::Js(TaskJsState { context: "null".to_string() });
    let df_state = TaskState::DataFlow(DataFlowState { nodes: vec![] });
    let arrival = "arrival".to_string();
    let outcomes = vec![];
    let step = |config: &TaskConfig, state: &TaskState, requested: Option<String>, found: Option<String>| {
        apply_input_step(config, state, &requested, &found, "task", "trig", "user", &arrival, &JsonValue::Null, &outcomes)
    };
    assert!(matches!(step(&js, &js_state, None, None), Ok(InputWork::RunScript)));
    assert!(matches!(step(&js, &js_state, Some("p".to_string()), None), Err(Error::PeriodicTaskDeleted)));
    assert!(matches!(step(&js, &js_state, Some("p".to_string()), Some("p".to_string())), Ok(InputWork::RunScript)));
    match step(&js, &df_state, None, None) {
        Err(Error::ConfigStateMismatch(k)) => assert_eq!(k, "Js"),
        _ => panic!("state of another kind"),
    }
    let machines = TaskConfig::StateMachine(vec![]);
    match step(&machines, &TaskState::StateMachine(vec![]), None, None) {
        Ok(InputWork::Machines { states, actions, changed }) => {
            assert!(states.is_empty());
            assert!(actions.is_empty());
            assert!(!changed);
        },
        _ => panic!("no machines, nothing to do"),
    }
}

#[test]
fn queued_actions_fail_at_the_first_unknown() {
    let actions = vec![ActionInvocation {
        task_id: "task".to_string(),
        task_action_local_id: "missing".to_string(),
        actions_log_id: "log".to_string(),
        input_arrival_id: None,
        user_id: "user".to_string(),
        payload: JsonValue::Null,
    }];
    match prepare_queued_actions("task", &actions, &vec![], Timestamp { secs: 0, nanos: 0 }) {
        Err(Error::TaskActionNotFound(n)) => assert_eq!(n, "missing"),
        _ => panic!("unknown task action"),
    }
    assert!(matches!(prepare_queued_actions("task", &vec![], &vec![], Timestamp { secs: 0, nanos: 0 }), Ok(v) if v.is_empty()));
}

#[test]
fn dataflow_actions_take_the_action_node_name() {
    let nodes = vec![
        node("trigger", DataFlowNodeFunction::Trigger(DataFlowTrigger { local_id: "trig".to_string() })),
        node("js", DataFlowNodeFunction::Js(DataFlowJs { func: "g".to_string() })),
        node("act", DataFlowNodeFunction::Action(DataFlowAction { action_id: "send".to_string(), payload_code: DataFlowJs { func: "f".to_string() } })),
    ];
    let edges = vec![DataFlowEdge { from: 0, to: 1 }, DataFlowEdge { from: 0, to: 2 }];
    let config = match DataFlowConfig::new(nodes, edges, String::new(), None) {
        Ok(c) => c,
        Err(e) => panic!("{}", e.to_string()),
    };
    let mut run = match DataFlowRun::begin(&config, DataFlowState { nodes: vec![] }, "trig") {
        Ok(r) => r,
        Err(e) => panic!("{}", e.to_string()),
    };
    run.record(Some(NodeResult::from_state("1".to_string(), vec![])));
    while let Some(step) = run.next_step() {
        let asked = TaskActionInvocation { name: "other".to_string(), payload: obj(vec![("x", n(1))]) };
        let console = vec![ConsoleMessage { level: "info".to_string(), message: format!("node {}", step.node_idx) }];
        run.record(Some(NodeResult { state: "2".to_string(), action: Some(asked), console }));
    }
    let (_, log, actions) = run.finish();
    assert_eq!(actions.len(), 1);
    assert_eq!(actions[0].name, "send");
    let log = match log {
        Some(l) => l,
        None => panic!("two nodes wrote to the console"),
    };
    let mut names: Vec<String> = log.run.iter().map(|l| l.node.clone()).collect();
    names.sort();
    assert_eq!(names, vec!["act".to_string(), "js".to_string()]);
}

#[test]
fn dataflow_run_keeps_text_and_unreached_nodes() {
    let nodes = vec![
        node("trigger", DataFlowNodeFunction::Trigger(DataFlowTrigger { local_id: "trig".to_string() })),
        node("text", DataFlowNodeFunction::Text(DataFlowText { body: "hi".to_string(), render_as: TextRenderAs::PlainText })),
        node("alone", DataFlowNodeFunction::Js(DataFlowJs { func: "g".to_string() })),
    ];
    let edges = vec![DataFlowEdge { from: 0, to: 1 }];
    let config = match DataFlowConfig::new(nodes, edges, String::new(), None) {
        Ok(c) => c,
        Err(e) => panic!("{}", e.to_string()),
    };
    let start = DataFlowState { nodes: vec!["old0".to_string(), "old1".to_string(), "old2".to_string()] };
    let mut run = match DataFlowRun::begin(&config, start, "trig") {
        Ok(r) => r,
        Err(e) => panic!("{}", e.to_string()),
    };
    run.record(Some(NodeResult::from_state("new0".to_string(), vec![])));
    while let Some(_step) = run.next_step() {
        run.record(Some(NodeResult::from_state("new".to_string(), vec![])));
    }
    let (state, log, actions) = run.finish();
    assert_eq!(state.nodes, vec!["new0".to_string(), "old1".to_string(), "old2".to_string()]);
    assert!(log.is_none());
    assert!(actions.is_empty());
}

#[test]
fn trimming_white_space() {
    use_trim();
}

fn use_trim() {
    assert_eq!(ergo_tasks::text::trim_str("\u{3000} a b \t\n"), "a b");
    assert_eq!(ergo_tasks::text::trim_str("   "), "");
    assert_eq!(ergo_tasks::text::trim_str(""), "");
    assert_eq!(ergo_tasks::text::trim_str("x"), "x");
    let sample = " \u{85}mixed\u{a0} ";
    assert_eq!(ergo_tasks::text::trim_str(sample), sample.trim());
}
