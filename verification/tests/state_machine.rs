use ergo_tasks::json::{JsonMap, JsonNumber, JsonValue};
use ergo_tasks::state_machine::{
    ActionInvokeDef, ActionInvokeDefDataField, ActionPayloadBuilder, EventHandler, ScriptOutcomes, StateDefinition,
    StateMachine, StateMachineData, StateMachineError, StateMachineWithData, TransitionTarget,
};
use ergo_tasks::task::{apply_state_machines, TaskConfig, TaskState};
use ergo_tasks::error::TaskValidateError;

fn handler(trigger: &str, target: Option<TransitionTarget>, actions: Option<Vec<ActionInvokeDef>>) -> EventHandler {
    EventHandler { trigger_id: trigger.to_string(), target, actions }
}

fn state(name: &str, on: Vec<EventHandler>) -> (String, StateDefinition) {
    (name.to_string(), StateDefinition { description: None, on })
}

fn machine(on: Vec<EventHandler>, states: Vec<(String, StateDefinition)>) -> StateMachine {
    StateMachine { name: "m".to_string(), description: None, initial: "a".to_string(), on, states }
}

fn data(state: &str) -> StateMachineData {
    StateMachineData {
        state: state.to_string(),
        context: JsonValue::Object(JsonMap { entries: vec![("count".to_string(), JsonValue::Number(JsonNumber::PosInt(3)))] }),
    }
}

fn no_outcomes() -> ScriptOutcomes {
    ScriptOutcomes { targets: Vec::new(), values: Vec::new() }
}

fn one(t: &str) -> Option<TransitionTarget> {
    Some(TransitionTarget::One(t.to_string()))
}

#[test]
fn trigger_changes_state() {
    let m = machine(vec![], vec![state("a", vec![handler("go", one("b"), None)]), state("b", vec![])]);
    let mut w = StateMachineWithData::new("task".to_string(), 0, m, data("a"));
    let actions = w.apply_trigger("go", "user", &None, None, &no_outcomes());
    assert!(matches!(actions, Ok(ref a) if a.is_empty()));
    let (d, changed) = w.take();
    assert_eq!(d.state, "b");
    assert!(changed);
}

#[test]
fn trigger_without_handler() {
    let m = machine(vec![], vec![state("a", vec![handler("go", one("b"), None)]), state("b", vec![])]);
    let mut w = StateMachineWithData::new("task".to_string(), 0, m, data("a"));
    let actions = w.apply_trigger("other", "user", &None, None, &no_outcomes());
    assert!(matches!(actions, Ok(ref a) if a.is_empty()));
    let (d, changed) = w.take();
    assert_eq!(d.state, "a");
    assert!(!changed);
}

#[test]
fn global_trigger_handler() {
    let m = machine(
        vec![handler("go", one("c"), None), handler("stay", one("b"), None)],
        vec![state("a", vec![handler("stay", one("a"), None)]), state("b", vec![]), state("c", vec![])],
    );
    let mut w = StateMachineWithData::new("task".to_string(), 0, m, data("a"));
    assert!(w.apply_trigger("go", "user", &None, None, &no_outcomes()).is_ok());
    let (d, changed) = w.take();
    assert_eq!(d.state, "c");
    assert!(changed);

    // The state's own handler wins over the machine's.
    let m = machine(
        vec![handler("stay", one("b"), None)],
        vec![state("a", vec![handler("stay", one("a"), None)]), state("b", vec![])],
    );
    let mut w = StateMachineWithData::new("task".to_string(), 0, m, data("a"));
    assert!(w.apply_trigger("stay", "user", &None, None, &no_outcomes()).is_ok());
    let (d, changed) = w.take();
    assert_eq!(d.state, "a");
    assert!(!changed);
}

fn script_machine() -> StateMachine {
    machine(
        vec![],
        vec![state("a", vec![handler("go", Some(TransitionTarget::Script("pick()".to_string())), None)]), state("b", vec![])],
    )
}

#[test]
fn next_state_script() {
    let outcomes = ScriptOutcomes { targets: vec![("pick()".to_string(), Ok(Some("b".to_string())))], values: Vec::new() };
    let mut w = StateMachineWithData::new("task".to_string(), 0, script_machine(), data("a"));
    assert!(w.apply_trigger("go", "user", &None, None, &outcomes).is_ok());
    let (d, changed) = w.take();
    assert_eq!(d.state, "b");
    assert!(changed);
}

#[test]
fn next_state_script_returns_null() {
    let outcomes = ScriptOutcomes { targets: vec![("pick()".to_string(), Ok(None))], values: Vec::new() };
    let mut w = StateMachineWithData::new("task".to_string(), 0, script_machine(), data("a"));
    assert!(w.apply_trigger("go", "user", &None, None, &outcomes).is_ok());
    let (d, changed) = w.take();
    assert_eq!(d.state, "a");
    assert!(!changed);
}

#[test]
fn next_state_script_returns_same_state() {
    let outcomes = ScriptOutcomes { targets: vec![("pick()".to_string(), Ok(Some("a".to_string())))], values: Vec::new() };
    let mut w = StateMachineWithData::new("task".to_string(), 0, script_machine(), data("a"));
    assert!(w.apply_trigger("go", "user", &None, None, &outcomes).is_ok());
    let (d, changed) = w.take();
    assert_eq!(d.state, "a");
    assert!(!changed);
}

#[test]
fn failing_target_script_keeps_state() {
    let outcomes = ScriptOutcomes { targets: vec![("pick()".to_string(), Err("boom".to_string()))], values: Vec::new() };
    let mut w = StateMachineWithData::new("task".to_string(), 0, script_machine(), data("a"));
    let r = w.apply_trigger("go", "user", &None, None, &outcomes);
    assert!(matches!(r, Err(StateMachineError::ScriptError(ref m)) if m == "boom"));
    let (d, changed) = w.take();
    assert_eq!(d.state, "a");
    assert!(!changed);
}

#[test]
fn unknown_state_is_an_error() {
    let m = machine(vec![], vec![state("a", vec![])]);
    let mut w = StateMachineWithData::new("task".to_string(), 4, m, data("zzz"));
    let r = w.apply_trigger("go", "user", &None, None, &no_outcomes());
    match r {
        Err(e) => assert_eq!(e.to_string(), "Machine 4 unknown state zzz"),
        Ok(_) => panic!("expected an error"),
    }
}

fn payload_machine() -> StateMachine {
    let fields = vec![
        ("from_input".to_string(), ActionInvokeDefDataField::Input("/value/inner".to_string(), true)),
        ("from_context".to_string(), ActionInvokeDefDataField::Context("/count".to_string(), true)),
        ("optional".to_string(), ActionInvokeDefDataField::Input("/missing".to_string(), false)),
        ("constant".to_string(), ActionInvokeDefDataField::Constant(JsonValue::Bool(true))),
        ("computed".to_string(), ActionInvokeDefDataField::Script("compute()".to_string())),
    ];
    let defs = vec![ActionInvokeDef { task_action_local_id: "send".to_string(), data: ActionPayloadBuilder::FieldMap(fields) }];
    machine(vec![], vec![state("a", vec![handler("go", None, Some(defs))])])
}

fn input_payload() -> JsonValue {
    let inner = JsonValue::Object(JsonMap { entries: vec![("inner".to_string(), JsonValue::String("x".to_string()))] });
    JsonValue::Object(JsonMap { entries: vec![("value".to_string(), inner)] })
}

#[test]
fn handler_builds_action_payloads() {
    let outcomes = ScriptOutcomes {
        targets: Vec::new(),
        values: vec![("compute()".to_string(), Ok(JsonValue::Number(JsonNumber::NegInt(-2))))],
    };
    let mut w = StateMachineWithData::new("task".to_string(), 0, payload_machine(), data("a"));
    let p = input_payload();
    let actions = match w.apply_trigger("go", "user", &Some("arrival".to_string()), Some(&p), &outcomes) {
        Ok(a) => a,
        Err(e) => panic!("{}", e.to_string()),
    };
    assert_eq!(actions.len(), 1);
    let a = &actions[0];
    assert_eq!(a.task_action_local_id, "send");
    assert_eq!(a.task_id, "task");
    assert_eq!(a.user_id, "user");
    assert_eq!(a.input_arrival_id, Some("arrival".to_string()));
    assert_eq!(
        ergo_tasks::json::to_json_text(&a.payload),
        r#"{"from_input":"x","from_context":3,"optional":null,"constant":true,"computed":-2}"#
    );
}

#[test]
fn missing_required_input_is_an_error() {
    let mut w = StateMachineWithData::new("task".to_string(), 0, payload_machine(), data("a"));
    let r = w.apply_trigger("go", "user", &None, None, &no_outcomes());
    match r {
        Err(e) => assert_eq!(e.to_string(), "Payload is missing required field /value/inner"),
        Ok(_) => panic!("expected an error"),
    }
}

#[test]
fn validate_reports_bad_targets_and_triggers() {
    let m = StateMachine {
        name: "m".to_string(),
        description: None,
        initial: "nowhere".to_string(),
        on: vec![handler("unknown", None, None)],
        states: vec![state("a", vec![handler("t1", one("missing"), None)])],
    };
    let errors = m.validate(&vec!["t1".to_string()]);
    let texts = errors.iter().map(|e| e.to_string()).collect::<Vec<_>>();
    assert_eq!(
        texts,
        vec![
            "Invalid initial state: nowhere".to_string(),
            "Event handler <root>.on[0] has unknown trigger id unknown".to_string(),
            "Event handler a.on[0] has invalid target missing".to_string(),
        ]
    );
    let paths = errors
        .iter()
        .map(|e| match e.path() {
            Some(p) => p.to_string(),
            None => String::new(),
        })
        .collect::<Vec<_>>();
    assert_eq!(paths, vec!["initial".to_string(), "on[0].trigger_id".to_string(), "states.a.on[0].target".to_string()]);
    assert!(matches!(errors[1], TaskValidateError::InvalidTriggerId { index: 0, .. }));
}

#[test]
fn task_config_validation_and_default_state() {
    let good = machine(vec![], vec![state("a", vec![handler("t", one("a"), None)])]);
    let config = TaskConfig::StateMachine(vec![good]);
    assert!(config.validate(&vec!["t".to_string()]).is_ok());
    assert!(config.validate(&vec![]).is_err());
    match config.default_state() {
        TaskState::StateMachine(states) => {
            assert_eq!(states.len(), 1);
            assert_eq!(states[0].state, "a");
            assert_eq!(ergo_tasks::json::to_json_text(&states[0].context), "{}");
        },
        _ => panic!("wrong kind of state"),
    }
    let mismatch = config.check_state(&TaskState::Js(ergo_tasks::scripting::TaskJsState { context: "null".to_string() }));
    match mismatch {
        Err(e) => assert_eq!(e.to_string(), "Config is for task type StateMachine and state is of a different type"),
        Ok(()) => panic!("expected a mismatch"),
    }
}

#[test]
fn apply_state_machines_pairs_machines_with_states() {
    let m1 = machine(vec![], vec![state("a", vec![handler("go", one("b"), None)]), state("b", vec![])]);
    let m2 = machine(vec![], vec![state("a", vec![])]);
    let result = apply_state_machines(&vec![m1, m2], &vec![data("a"), data("a")], "task", "go", "user", &None, None, &vec![]);
    match result {
        Ok((states, actions, changed)) => {
            assert_eq!(states.len(), 2);
            assert_eq!(states[0].state, "b");
            assert_eq!(states[1].state, "a");
            assert!(actions.is_empty());
            assert!(changed);
        },
        Err(e) => panic!("{}", e.to_string()),
    }
}
