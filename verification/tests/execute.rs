use ergo_tasks::execute::ExecutorError;
use ergo_tasks::json::{JsonMap, JsonNumber, JsonValue, json_equal, to_json_text};
use ergo_tasks::execute::{after_executor, postprocess_outcome, postprocess_plan, run_as_user, AfterExecutor, ExecuteErrorSource};

fn s(t: &str) -> JsonValue {
    JsonValue::String(t.to_string())
}

fn text(r: Result<String, ExecutorError>) -> String {
    match r {
        Ok(t) => t,
        Err(e) => panic!("unexpected error: {}", e.to_string()),
    }
}

#[test]
fn json_primitive_as_string() {
    assert_eq!(text(ergo_tasks::execute::json_primitive_as_string("a", None, &s("abc"), false)), "abc", "string");
    assert_eq!(text(ergo_tasks::execute::json_primitive_as_string("a", None, &JsonValue::Number(JsonNumber::PosInt(3)), false)), "3", "number");
    assert_eq!(text(ergo_tasks::execute::json_primitive_as_string("a", None, &JsonValue::Bool(true), false)), "true", "boolean");
    assert_eq!(
        text(ergo_tasks::execute::json_primitive_as_string("a", None, &JsonValue::Null, true)),
        "",
        "allow_missing=true: null convers to empty string"
    );

    assert!(ergo_tasks::execute::json_primitive_as_string("a", None, &JsonValue::Null, false).is_err(), "allow_missing=false: null throws error");
    let object = JsonValue::Object(JsonMap { entries: vec![("abc".to_string(), JsonValue::Number(JsonNumber::PosInt(5)))] });
    assert!(ergo_tasks::execute::json_primitive_as_string("a", None, &object, false).is_err(), "object throws error");
    let array = JsonValue::Array(vec![
        JsonValue::Number(JsonNumber::PosInt(1)),
        JsonValue::Number(JsonNumber::PosInt(2)),
        JsonValue::Number(JsonNumber::PosInt(3)),
    ]);
    assert!(ergo_tasks::execute::json_primitive_as_string("a", None, &array, false).is_err(), "array throws error");
}

#[test]
fn get_primitive_payload_value() {
    let values = JsonMap {
        entries: vec![
            ("string_field".to_string(), s("a string")),
            ("number_field".to_string(), JsonValue::Number(JsonNumber::PosInt(3))),
            ("bool_field".to_string(), JsonValue::Bool(true)),
            ("null_field".to_string(), JsonValue::Null),
            (
                "object_field".to_string(),
                JsonValue::Object(JsonMap { entries: vec![("d".to_string(), JsonValue::Number(JsonNumber::PosInt(4)))] }),
            ),
            (
                "array_field".to_string(),
                JsonValue::Array(vec![
                    JsonValue::Number(JsonNumber::PosInt(1)),
                    JsonValue::Number(JsonNumber::PosInt(2)),
                    JsonValue::Number(JsonNumber::PosInt(3)),
                ]),
            ),
        ],
    };

    assert_eq!(text(ergo_tasks::execute::get_primitive_payload_value(&values, "string_field", false)), "a string", "string field");
    assert_eq!(text(ergo_tasks::execute::get_primitive_payload_value(&values, "number_field", false)), "3", "number field");
    assert_eq!(text(ergo_tasks::execute::get_primitive_payload_value(&values, "bool_field", false)), "true", "bool field");

    assert!(ergo_tasks::execute::get_primitive_payload_value(&values, "object_field", false).is_err(), "object field throws error");
    assert!(ergo_tasks::execute::get_primitive_payload_value(&values, "array_field", false).is_err(), "array field throws error");

    assert!(
        ergo_tasks::execute::get_primitive_payload_value(&values, "null_field", false).is_err(),
        "allow_missing=false: null value should return error"
    );
    assert!(
        ergo_tasks::execute::get_primitive_payload_value(&values, "missing", false).is_err(),
        "allow_missing=false: missing field should return error"
    );

    assert_eq!(
        text(ergo_tasks::execute::get_primitive_payload_value(&values, "null_field", true)),
        "",
        "allow_missing=true: null value converts to empty string"
    );
    assert_eq!(
        text(ergo_tasks::execute::get_primitive_payload_value(&values, "missing", true)),
        "",
        "allow_missing=true: null value converts to empty string"
    );
}

#[test]
fn postprocess_hand_off() {
    let result = s("out");
    let payload = JsonValue::Number(JsonNumber::PosInt(3));
    let plan = postprocess_plan(&"return result".to_string(), &result, &payload);
    assert_eq!(plan.script, "return result");
    assert_eq!(to_json_text(&plan.args), "{\"result\":\"out\",\"payload\":3}");
    match after_executor(&None, s("out"), &payload) {
        AfterExecutor::Done(v) => assert!(json_equal(&v, &result)),
        _ => panic!("no script, no run"),
    }
    match after_executor(&Some("x".to_string()), s("out"), &payload) {
        AfterExecutor::RunScript(p) => assert_eq!(p.script, "x"),
        _ => panic!("script runs"),
    }
    assert!(json_equal(&postprocess_outcome(s("out"), Ok(JsonValue::Null)).ok().expect("ok"), &result));
    assert!(json_equal(&postprocess_outcome(s("out"), Ok(s("new"))).ok().expect("ok"), &s("new")));
    match postprocess_outcome(s("out"), Err("boom".to_string())) {
        Err(ExecuteErrorSource::ScriptError(m)) => assert_eq!(m, "boom"),
        _ => panic!("a thrown script fails the action"),
    }
    assert_eq!(run_as_user(&Some("u2".to_string()), &"u1".to_string()), "u2");
    assert_eq!(run_as_user(&None, &"u1".to_string()), "u1");
}
