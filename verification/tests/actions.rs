use ergo_tasks::actions::{Action, ActionCheck, ActionStatus};
use ergo_tasks::time::Timestamp;
use ergo_tasks::error::ActionValidateError;
use ergo_tasks::execute::{
    action_log_entry, finish_script_preparation, merge_action_payload, postprocessed_result, validate_and_prepare_at,
    validate_and_prepare_invocation, ExecuteError, ExecuteErrorSource, ExecutorError, PrepareInvocationAction, Preparation,
    ScriptOrTemplate,
};
use ergo_tasks::executors::{executor_registry_get, Executor};
use ergo_tasks::json::{to_json_text, JsonMap, JsonNumber, JsonValue};
use ergo_tasks::template::{TemplateError, TemplateField, TemplateFieldFormat, TemplateFields, TemplateValidationFailure};

fn s(t: &str) -> JsonValue {
    JsonValue::String(t.to_string())
}

fn obj(entries: Vec<(&str, JsonValue)>) -> JsonValue {
    JsonValue::Object(JsonMap { entries: entries.into_iter().map(|(k, v)| (k.to_string(), v)).collect() })
}

fn pairs(entries: Vec<(&str, JsonValue)>) -> Vec<(String, JsonValue)> {
    entries.into_iter().map(|(k, v)| (k.to_string(), v)).collect()
}

fn map_text(m: &JsonMap) -> String {
    to_json_text(&JsonValue::Object(JsonMap { entries: m.entries.iter().map(|(k, v)| (k.clone(), copy(v))).collect() }))
}

fn copy(v: &JsonValue) -> JsonValue {
    v.clone_value()
}

#[test]
fn merge_gives_account_fields_precedence() {
    let template = Some(pairs(vec![("a", s("template")), ("b", s("template")), ("c", s("template"))]));
    let payload = obj(vec![("b", s("payload")), ("c", s("payload"))]);
    let account = Some(pairs(vec![("c", s("account"))]));
    let merged = merge_action_payload(&template, &payload, &account);
    assert_eq!(map_text(&merged), r#"{"a":"template","b":"payload","c":"account"}"#);

    // A payload that is no object adds nothing.
    let merged = merge_action_payload(&None, &s("not an object"), &None);
    assert_eq!(map_text(&merged), "{}");
}

fn command_fields() -> TemplateFields {
    TemplateFields(vec![TemplateField::from_static("cmd", TemplateFieldFormat::String, false, "the command")])
}

fn at(secs: i64, nanos: u32) -> Timestamp {
    Timestamp { secs, nanos }
}

fn prepare_action(template: ScriptOrTemplate, expires: Option<Timestamp>, required: bool, account: Option<&str>) -> PrepareInvocationAction {
    PrepareInvocationAction {
        action_id: "act".to_string(),
        action_template_fields: command_fields(),
        action_executor_template: template,
        task_action_template: None,
        executor_id: "raw_command".to_string(),
        account_required: required,
        account_id: account.map(|a| a.to_string()),
        account_fields: None,
        account_expires: expires,
    }
}

fn raw_command_fields() -> TemplateFields {
    match executor_registry_get("raw_command") {
        Some(Executor::RawCommand(e)) => TemplateFields(e.template_fields().0.iter().map(clone_field).collect()),
        _ => panic!("raw_command is registered"),
    }
}

fn clone_field(f: &TemplateField) -> TemplateField {
    TemplateField { name: f.name.clone(), format: f.format.clone_format(), optional: f.optional, description: f.description.clone() }
}

#[test]
fn prepare_fills_the_executor_template() {
    let template = ScriptOrTemplate::Template(pairs(vec![("command", s("{{cmd}}")), ("args", JsonValue::Array(vec![s("-v")]))]));
    let action = prepare_action(template, None, false, None);
    let payload = obj(vec![("cmd", s("ls"))]);
    match validate_and_prepare_at(&raw_command_fields(), &payload, &action, at(0, 0)) {
        Ok(Preparation::Values(v)) => assert_eq!(map_text(&v), r#"{"command":"ls","args":["-v"]}"#),
        _ => panic!("expected values"),
    }
    // The clock-reading version agrees when no account is involved.
    assert!(matches!(validate_and_prepare_invocation(&raw_command_fields(), &payload, &action), Ok(Preparation::Values(_))));
}

#[test]
fn prepare_refuses_missing_fields_and_accounts() {
    let template = ScriptOrTemplate::Template(pairs(vec![("command", s("{{cmd}}"))]));
    let action = prepare_action(template, None, false, None);
    match validate_and_prepare_at(&raw_command_fields(), &obj(vec![]), &action, at(0, 0)) {
        Err(ExecuteErrorSource::TemplateError(TemplateError::Validation(e))) => {
            assert_eq!(e.object, "action");
            assert_eq!(e.id, "act");
            assert!(matches!(e.fields[0], TemplateValidationFailure::Required(ref n) if n == "cmd"));
        },
        _ => panic!("expected a validation error"),
    }

    let template = ScriptOrTemplate::Template(pairs(vec![("command", s("{{cmd}}"))]));
    let action = prepare_action(template, None, true, None);
    assert!(matches!(validate_and_prepare_at(&raw_command_fields(), &obj(vec![]), &action, at(0, 0)), Err(ExecuteErrorSource::AccountRequired)));

    let template = ScriptOrTemplate::Template(pairs(vec![("command", s("{{cmd}}"))]));
    let action = prepare_action(template, Some(at(100, 0)), false, Some("acct"));
    let r = validate_and_prepare_at(&raw_command_fields(), &obj(vec![("cmd", s("ls"))]), &action, at(200, 0));
    match r {
        Err(e) => assert_eq!(e.to_string(), "Account acct is expired"),
        Ok(_) => panic!("expected an expired account"),
    }
    let template = ScriptOrTemplate::Template(pairs(vec![("command", s("{{cmd}}"))]));
    let action = prepare_action(template, Some(at(300, 0)), false, Some("acct"));
    assert!(validate_and_prepare_at(&raw_command_fields(), &obj(vec![("cmd", s("ls"))]), &action, at(200, 0)).is_ok());
    let template = ScriptOrTemplate::Template(pairs(vec![("command", s("{{cmd}}"))]));
    let action = prepare_action(template, Some(at(200, 500)), false, Some("acct"));
    assert!(validate_and_prepare_at(&raw_command_fields(), &obj(vec![("cmd", s("ls"))]), &action, at(200, 400)).is_ok());
    assert!(validate_and_prepare_at(&raw_command_fields(), &obj(vec![("cmd", s("ls"))]), &action, at(200, 600)).is_err());
}

#[test]
fn prepare_hands_scripts_back() {
    let action = prepare_action(ScriptOrTemplate::Script("return args".to_string()), None, false, None);
    match validate_and_prepare_at(&raw_command_fields(), &obj(vec![("cmd", s("ls"))]), &action, at(0, 0)) {
        Ok(Preparation::Script { script, args }) => {
            assert_eq!(script, "return args");
            assert_eq!(map_text(&args), r#"{"cmd":"ls"}"#);
        },
        _ => panic!("expected a script"),
    }
    let done = finish_script_preparation("raw_command", &raw_command_fields(), Err("bad".to_string()));
    assert!(matches!(done, Err(ExecuteErrorSource::ScriptError(ref m)) if m == "bad"));
    let values = JsonMap { entries: vec![("args".to_string(), s("x"))] };
    match finish_script_preparation("raw_command", &raw_command_fields(), Ok(values)) {
        Err(ExecuteErrorSource::TemplateError(TemplateError::Validation(e))) => {
            assert_eq!(e.object, "executor");
            assert_eq!(e.id, "raw_command");
            assert_eq!(e.fields.len(), 2);
        },
        _ => panic!("expected an executor validation error"),
    }
}

#[test]
fn executor_errors_read_as_the_original_messages() {
    assert_eq!(ExecutorError::MissingFieldError("url".to_string()).to_string(), "Missing field url");
    let e = ExecutorError::FieldFormatError { field: "headers".to_string(), subfield: Some("x".to_string()), expected: "text".to_string() };
    assert_eq!(e.to_string(), "Expected field headers[x] to be a text");
    assert_eq!(
        ExecutorError::MissingDatabase.to_string(),
        "Executor requires database connection but none was provided"
    );
    assert_eq!(ExecutorError::command_error_without_result("boom".to_string()).to_string(), "Error during command execution: boom");
    let failure = TemplateValidationFailure::Invalid { name: "n".to_string(), expected: TemplateFieldFormat::Integer, actual: s("x") };
    assert_eq!(ExecutorError::from(failure).to_string(), "Expected field n to be a integer");
    let e = ExecuteError::from_action_and_error("t1", "local", "Send", ExecuteErrorSource::MissingExecutor("x".to_string()));
    assert_eq!(e.to_string(), "Action Send (t1:local): Unknown executor x");
}

#[test]
fn action_log_and_postprocess() {
    let (status, v) = action_log_entry(Ok(s("done")));
    assert_eq!(status, ActionStatus::Success);
    assert_eq!(to_json_text(&v), r#"{"output":"done"}"#);
    let (status, v) = action_log_entry(Err(("msg".to_string(), "info".to_string())));
    assert_eq!(status, ActionStatus::Error);
    assert_eq!(to_json_text(&v), r#"{"error":"msg","info":"info"}"#);
    assert_eq!(to_json_text(&postprocessed_result(s("raw"), JsonValue::Null)), r#""raw""#);
    assert_eq!(to_json_text(&postprocessed_result(s("raw"), JsonValue::Number(JsonNumber::PosInt(1)))), "1");
}

fn action(executor_id: &str, template: ScriptOrTemplate) -> Action {
    Action {
        action_id: "act".to_string(),
        action_category_id: "cat".to_string(),
        name: "An action".to_string(),
        description: None,
        executor_id: executor_id.to_string(),
        executor_template: template,
        template_fields: TemplateFields(Vec::new()),
        timeout: None,
        postprocess_script: None,
        account_required: false,
        account_types: Vec::new(),
    }
}

#[test]
fn action_validation() {
    let a = action("nope", ScriptOrTemplate::Template(Vec::new()));
    match a.validate() {
        Err(e) => {
            assert!(matches!(e.0[0], ActionValidateError::UnknownExecutor(ref x) if x == "nope"));
            assert_eq!(e.to_string(), "Unknown executor nope\n");
            assert_eq!(e.0[0].path().map(|p| p.to_string()), Some("executor_id".to_string()));
        },
        Ok(_) => panic!("expected an unknown executor"),
    }
    let a = action("raw_command", ScriptOrTemplate::Template(pairs(vec![("command", s("ls"))])));
    assert!(matches!(a.validate(), Ok(ActionCheck::Valid)));
    let a = action("raw_command", ScriptOrTemplate::Template(pairs(vec![("args", s("ls"))])));
    assert!(a.validate().is_err());
    let a = action("js", ScriptOrTemplate::Script("x".to_string()));
    assert!(matches!(a.validate(), Ok(ActionCheck::RunScript(ref t)) if t == "x"));
    let values = JsonMap { entries: vec![("script".to_string(), s("1+1"))] };
    assert!(a.finish_validate(Ok(values)).is_ok());
    match a.finish_validate(Err("syntax".to_string())) {
        Err(e) => assert_eq!(e.to_string(), "Script error: syntax\n"),
        Ok(()) => panic!("expected a script error"),
    }
}
