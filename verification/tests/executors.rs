use ergo_tasks::execute::ExecutorError;
use ergo_tasks::time::Timestamp;
use ergo_tasks::executors::{
    command_outcome, executor_registry_get, exit_status_message, http_output, script_output, Executor, HttpBody,
    HttpExecutor, JsExecutor, RawCommandExecutor, SendInputExecutor,
};
use ergo_tasks::json::{to_json_text, JsonMap, JsonNumber, JsonValue};

fn s(t: &str) -> JsonValue {
    JsonValue::String(t.to_string())
}

fn map(entries: Vec<(&str, JsonValue)>) -> JsonMap {
    JsonMap { entries: entries.into_iter().map(|(k, v)| (k.to_string(), v)).collect() }
}

fn err_text<T>(r: Result<T, ExecutorError>) -> String {
    match r {
        Ok(_) => panic!("expected an error"),
        Err(e) => e.to_string(),
    }
}

#[test]
fn registry_knows_the_four_executors() {
    for name in ["http", "raw_command", "js", "send_input"] {
        match executor_registry_get(name) {
            Some(e) => assert_eq!(e.name(), name),
            None => panic!("missing executor {}", name),
        }
    }
    assert!(executor_registry_get("nope").is_none());
    match executor_registry_get("http") {
        Some(Executor::Http(h)) => {
            let names = h.template_fields().0.iter().map(|f| f.name.clone()).collect::<Vec<_>>();
            assert_eq!(
                names,
                vec!["url", "method", "user_agent", "timeout", "json", "body", "query", "headers", "result_format"]
            );
        },
        _ => panic!("http executor"),
    }
}

#[test]
fn http_request_defaults() {
    let h = HttpExecutor::new();
    let r = match h.request(&map(vec![("url", s("http://localhost/a_url"))])) {
        Ok(r) => r,
        Err(e) => panic!("{}", e.to_string()),
    };
    assert_eq!(r.method, "GET");
    assert_eq!(r.url, "http://localhost/a_url");
    assert_eq!(r.user_agent, "Ergo");
    assert_eq!(r.timeout_secs, 30);
    assert!(r.headers.is_empty());
    assert!(r.query.is_none());
    assert!(matches!(r.body, HttpBody::Empty));
    assert!(matches!(h.result_as_text(&map(vec![])), Ok(false)));
}

#[test]
fn http_request_with_everything() {
    let h = HttpExecutor::new();
    let payload = map(vec![
        ("url", s("http://localhost/a_url")),
        ("method", s("POST")),
        ("user_agent", s("a custom user agent")),
        ("timeout", JsonValue::Number(JsonNumber::PosInt(5))),
        ("headers", JsonValue::Object(map(vec![("a-custom-header", s("abc"))]))),
        ("query", JsonValue::Object(map(vec![("q", s("1"))]))),
        ("body", s("this is a string body")),
        ("result_format", JsonValue::Array(vec![s("string")])),
    ]);
    let r = match h.request(&payload) {
        Ok(r) => r,
        Err(e) => panic!("{}", e.to_string()),
    };
    assert_eq!(r.method, "POST");
    assert_eq!(r.user_agent, "a custom user agent");
    assert_eq!(r.timeout_secs, 5);
    assert_eq!(r.headers, vec![("a-custom-header".to_string(), "abc".to_string())]);
    assert!(r.query.is_some());
    assert!(matches!(r.body, HttpBody::Text(ref t) if t == "this is a string body"));
    assert!(matches!(h.result_as_text(&payload), Ok(true)));

    let with_json = map(vec![("url", s("u")), ("json", JsonValue::Object(map(vec![]))), ("body", s("ignored"))]);
    assert!(matches!(h.request(&with_json), Ok(ref r) if matches!(r.body, HttpBody::Json(_))));
}

#[test]
fn http_request_refusals() {
    let h = HttpExecutor::new();
    assert_eq!(err_text(h.request(&map(vec![]))), "Missing field url");
    assert_eq!(err_text(h.request(&map(vec![("url", s("u")), ("method", s("BAD METHOD"))]))), "Expected field method to be a Valid HTTP method");
    let bad_name = map(vec![("url", s("u")), ("headers", JsonValue::Object(map(vec![("bad header", s("x"))])))]);
    assert_eq!(err_text(h.request(&bad_name)), "Expected field headers[bad header] to be a Valid HTTP header name");
    let bad_value = map(vec![("url", s("u")), ("headers", JsonValue::Object(map(vec![("x-a", s("line\nbreak"))])))]);
    assert_eq!(err_text(h.request(&bad_value)), "Expected field headers[x-a] to be a Valid HTTP header string value");
    let bad_timeout = map(vec![("url", s("u")), ("timeout", s("soon"))]);
    assert_eq!(err_text(h.request(&bad_timeout)), "Expected field timeout to be a integer");
}

#[test]
fn http_output_shape() {
    assert_eq!(to_json_text(&http_output(s("hi"), 200)), r#"{"response":"hi","status":200}"#);
}

#[test]
fn command_plan_and_outcome() {
    let e = RawCommandExecutor::new();
    let payload = map(vec![
        ("command", s("ls")),
        ("args", JsonValue::Array(vec![s("-l"), s("/tmp")])),
        ("env", JsonValue::Object(map(vec![("N", JsonValue::Number(JsonNumber::PosInt(3))), ("B", JsonValue::Bool(false))]))),
    ]);
    let p = match e.plan(&payload) {
        Ok(p) => p,
        Err(e) => panic!("{}", e.to_string()),
    };
    assert_eq!(p.command, "ls");
    assert_eq!(p.args, vec!["-l".to_string(), "/tmp".to_string()]);
    assert_eq!(p.env, vec![("N".to_string(), "3".to_string()), ("B".to_string(), "false".to_string())]);
    assert!(!p.allow_failure);

    let bad_env = map(vec![("command", s("ls")), ("env", JsonValue::Object(map(vec![("X", JsonValue::Array(vec![]))])))]);
    assert_eq!(err_text(e.plan(&bad_env)), "Expected field env[X] to be a primitive value");

    let ok = command_outcome(true, Some(0), None, "out".to_string(), "".to_string(), false);
    assert!(matches!(ok, Ok(ref v) if to_json_text(v) == r#"{"exitcode":0,"stderr":"","stdout":"out"}"#));
    let failed = command_outcome(false, Some(2), None, "".to_string(), "bad".to_string(), false);
    match failed {
        Err(ExecutorError::CommandError { source, result }) => {
            assert_eq!(source, "Exited with code 2");
            assert_eq!(to_json_text(&result), r#"{"exitcode":2,"stderr":"bad","stdout":""}"#);
        },
        _ => panic!("expected a command error"),
    }
    let killed = command_outcome(false, None, Some(9), "".to_string(), "".to_string(), false);
    assert!(matches!(killed, Err(ExecutorError::CommandError { ref source, .. }) if source == "Exited with signal 9"));
    assert!(command_outcome(false, Some(1), None, "".to_string(), "".to_string(), true).is_ok());
    assert_eq!(exit_status_message(None), None);
}

#[test]
fn send_input_request() {
    let e = SendInputExecutor::new();
    let payload = map(vec![
        ("task", s("task-id")),
        ("trigger_name", s("trigger")),
        ("time", s("1970-01-01T00:00:01Z")),
        ("payload", JsonValue::Object(map(vec![]))),
    ]);
    let r = match e.request(&payload) {
        Ok(r) => r,
        Err(e) => panic!("{}", e.to_string()),
    };
    assert_eq!(r.task, "task-id");
    assert_eq!(r.trigger_name, "trigger");
    assert_eq!(r.time, Some(Timestamp { secs: 1, nanos: 0 }));
    assert_eq!(to_json_text(&r.payload), "{}");

    let no_time = map(vec![("task", s("t")), ("trigger_name", s("tr"))]);
    assert!(matches!(e.request(&no_time), Ok(ref r) if r.time.is_none() && matches!(r.payload, JsonValue::Null)));
    let bad_time = map(vec![("task", s("t")), ("trigger_name", s("tr")), ("time", s("tomorrow"))]);
    assert!(err_text(e.request(&bad_time)).starts_with("Expected field time to be a "));
}

#[test]
fn script_plan() {
    let e = JsExecutor::new();
    let p = match e.plan(&map(vec![("script", s("return 1"))])) {
        Ok(p) => p,
        Err(e) => panic!("{}", e.to_string()),
    };
    assert_eq!(p.name_url, "https://ergo/executor/script");
    assert_eq!(p.script, "return 1");
    assert_eq!(to_json_text(&p.args), "{}");
    assert_eq!(err_text(e.plan(&map(vec![]))), "Missing field script");
    assert_eq!(to_json_text(&script_output(s("r"), JsonValue::Array(vec![]))), r#"{"console":[],"result":"r"}"#);
}

#[test]
fn send_input_decision_order() {
    let e = SendInputExecutor::new();
    let good = map(vec![("task", s("task-id")), ("trigger_name", s("trigger"))]);
    match e.decide(&good, None, true) {
        Ok(r) => {
            assert_eq!(r.task, "task-id");
            assert_eq!(r.time, None);
        },
        Err(e) => panic!("{}", e.to_string()),
    }
    assert!(matches!(e.decide(&good, None, false), Err(ExecutorError::MissingDatabase)));
    match e.decide(&good, Some("bad id".to_string()), true) {
        Err(ExecutorError::FieldFormatError { field, expected, .. }) => {
            assert_eq!(field, "task");
            assert_eq!(expected, "bad id");
        },
        _ => panic!("expected a task format error"),
    }
    let bad_time = map(vec![("task", s("task-id")), ("trigger_name", s("trigger")), ("time", s("yesterday"))]);
    match e.decide(&bad_time, None, false) {
        Err(ExecutorError::FieldFormatError { field, .. }) => assert_eq!(field, "time"),
        _ => panic!("expected a time format error before the database check"),
    }
    let no_task = map(vec![("trigger_name", s("trigger"))]);
    match e.decide(&no_task, Some("bad id".to_string()), false) {
        Err(ExecutorError::MissingFieldError(f)) => assert_eq!(f, "task"),
        _ => panic!("a missing task comes first"),
    }
}

#[test]
fn http_method_and_header_name_characters() {
    let h = HttpExecutor::new();
    assert!(h.request(&map(vec![("url", s("u")), ("method", s("M-SEARCH"))])).is_ok());
    assert!(h.request(&map(vec![("url", s("u")), ("method", s("FOO("))])).is_err());
    assert!(h.request(&map(vec![("url", s("u")), ("method", s("GÉT"))])).is_err());
    let ok_name = map(vec![("url", s("u")), ("headers", JsonValue::Object(map(vec![("X-Ok_1!#", s("x"))])))]);
    assert!(h.request(&ok_name).is_ok());
    let braces = map(vec![("url", s("u")), ("headers", JsonValue::Object(map(vec![("x{y}", s("x"))])))]);
    assert!(h.request(&braces).is_err());
}

#[test]
fn send_input_time_keeps_nanoseconds() {
    let e = SendInputExecutor::new();
    let payload = map(vec![("task", s("t")), ("trigger_name", s("x")), ("time", s("1970-01-01T00:00:01.000000250Z"))]);
    match e.request(&payload) {
        Ok(r) => assert_eq!(r.time, Some(Timestamp { secs: 1, nanos: 250 })),
        Err(e) => panic!("{}", e.to_string()),
    }
}
