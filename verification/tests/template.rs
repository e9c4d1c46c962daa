use ergo_tasks::json::{JsonMap, JsonNumber, JsonValue};
use ergo_tasks::template::{apply, TemplateError, TemplateFieldFormat};

fn int5() -> JsonValue {
    JsonValue::Number(JsonNumber::PosInt(5))
}

fn float55() -> JsonValue {
    JsonValue::Number(JsonNumber::Float("5.5".to_string()))
}

fn s(t: &str) -> JsonValue {
    JsonValue::String(t.to_string())
}

fn empty_object() -> JsonValue {
    JsonValue::Object(JsonMap { entries: Vec::new() })
}

fn empty_array() -> JsonValue {
    JsonValue::Array(Vec::new())
}

fn ok(f: &TemplateFieldFormat, name: &str, v: &JsonValue) -> bool {
    f.validate(name, v).is_ok()
}

#[test]
fn template_string() {
    let f = TemplateFieldFormat::String;
    assert!(ok(&f, "string", &s("")));
    assert!(ok(&f, "integer", &int5()));
    assert!(ok(&f, "float", &float55()));
    assert!(ok(&f, "boolean", &JsonValue::Bool(true)));
    assert!(!ok(&f, "object", &empty_object()), "object input");
    assert!(!ok(&f, "array", &empty_array()), "array input");
}

#[test]
fn template_string_array() {
    let f = TemplateFieldFormat::StringArray;
    assert!(!ok(&f, "string", &s("")), "string");
    assert!(!ok(&f, "integer", &int5()), "integer");
    assert!(!ok(&f, "float", &float55()), "float");
    assert!(!ok(&f, "boolean", &JsonValue::Bool(true)), "boolean");
    assert!(!ok(&f, "object", &empty_object()), "object input");
    assert!(ok(&f, "array", &empty_array()));
}

#[test]
fn template_integer() {
    let f = TemplateFieldFormat::Integer;
    assert!(!ok(&f, "string", &s("")), "string");
    assert!(ok(&f, "integer", &int5()));
    assert!(!ok(&f, "float", &float55()), "float");
    assert!(!ok(&f, "boolean", &JsonValue::Bool(true)), "boolean");
    assert!(!ok(&f, "object", &empty_object()), "object input");
    assert!(!ok(&f, "array", &empty_array()), "array input");
}

#[test]
fn template_float() {
    let f = TemplateFieldFormat::Float;
    assert!(!ok(&f, "string", &s("")), "string");
    assert!(ok(&f, "integer", &int5()));
    assert!(ok(&f, "float", &float55()));
    assert!(!ok(&f, "boolean", &JsonValue::Bool(true)), "boolean");
    assert!(!ok(&f, "object", &empty_object()), "object input");
    assert!(!ok(&f, "array", &empty_array()), "array input");
}

#[test]
fn template_boolean() {
    let f = TemplateFieldFormat::Boolean;
    assert!(!ok(&f, "string", &s("")), "non-matching string");
    assert!(ok(&f, "true string", &s("true")));
    assert!(ok(&f, "false string", &s("false")));
    assert!(!ok(&f, "integer", &int5()), "integer");
    assert!(!ok(&f, "float", &float55()), "float");
    assert!(ok(&f, "boolean", &JsonValue::Bool(true)));
    assert!(!ok(&f, "object", &empty_object()), "object input");
    assert!(!ok(&f, "array", &empty_array()), "array input");
}

#[test]
fn template_object() {
    let f = TemplateFieldFormat::Object { nested: true };
    assert!(!ok(&f, "string", &s("")), "string");
    assert!(!ok(&f, "integer", &int5()), "integer");
    assert!(!ok(&f, "float", &float55()), "float");
    assert!(!ok(&f, "boolean", &JsonValue::Bool(true)), "boolean");
    assert!(ok(&f, "object", &empty_object()));
    assert!(!ok(&f, "array", &empty_array()), "array input");
}

fn choice(list: &[&str], min: Option<usize>, max: Option<usize>) -> TemplateFieldFormat {
    TemplateFieldFormat::Choice { choices: list.iter().map(|c| c.to_string()).collect(), min, max }
}

fn make_array(v: Vec<&str>) -> JsonValue {
    JsonValue::Array(v.iter().map(|t| s(t)).collect())
}

#[test]
fn template_choice_failing_formats() {
    let c = choice(&["abc", "def"], None, None);
    assert!(!ok(&c, "integer", &int5()), "integer");
    assert!(!ok(&c, "float", &float55()), "float");
    assert!(!ok(&c, "boolean", &JsonValue::Bool(true)), "boolean");
    assert!(!ok(&c, "object", &empty_object()), "object input");
}

#[test]
fn template_choice_against_string() {
    let c = choice(&["abc", "def"], None, None);
    assert!(ok(&c, "matching string", &s("abc")));
    assert!(!ok(&c, "non-matching string", &s("jklsdf")), "non-matching string");

    let c = choice(&["abc", "def"], Some(1), None);
    assert!(ok(&c, "min=1: matching string", &s("abc")));
    assert!(!ok(&c, "min=1: non-matching string", &s("jklsdf")), "min=1: non-matching string");

    let c = choice(&["abc", "def"], Some(2), None);
    assert!(!ok(&c, "min=2: matching string", &s("abc")), "min=2: matching string");
    assert!(!ok(&c, "min=2: non-matching string", &s("jklsdf")), "min=2: non-matching string");
}

#[test]
fn template_choice_against_array() {
    let c = choice(&["abc", "def", "ghi"], None, None);
    assert!(ok(&c, "empty list", &make_array(vec![])));
    assert!(ok(&c, "matching one-element list", &make_array(vec!["def"])));
    assert!(ok(&c, "matching three-element list", &make_array(vec!["def", "ghi", "abc"])));
    assert!(!ok(&c, "non-matching element", &make_array(vec!["def", "jklsdf"])), "non-matching element");

    let c = choice(&["abc", "def", "ghi"], Some(1), None);
    assert!(!ok(&c, "min=1: empty list", &make_array(vec![])), "min=1: empty list");
    assert!(ok(&c, "min=1: matching one-element list", &make_array(vec!["def"])));
    assert!(ok(&c, "min=1: matching three-element list", &make_array(vec!["def", "ghi", "abc"])));
    assert!(!ok(&c, "min=1: non-matching element", &make_array(vec!["def", "jklsdf"])), "non-matching element");

    let c = choice(&["abc", "def", "ghi"], Some(2), None);
    assert!(!ok(&c, "min=2: empty list", &make_array(vec![])), "min=2: empty list");
    assert!(!ok(&c, "min=2: matching one-element list", &make_array(vec!["def"])), "min=2: matching one-element list");
    assert!(ok(&c, "min=2: matching two-element list", &make_array(vec!["abc", "def"])));
    assert!(ok(&c, "min=2: matching three-element list", &make_array(vec!["def", "ghi", "abc"])));
    assert!(!ok(&c, "min=2: non-matching element", &make_array(vec!["def", "jklsdf", "abc"])), "non-matching element");

    let c = choice(&["abc", "def", "ghi"], Some(1), Some(2));
    assert!(!ok(&c, "min=1, max=2: empty list", &make_array(vec![])), "min=1, max=2: empty list");
    assert!(ok(&c, "min=1, max=2: matching one-element list", &make_array(vec!["def"])));
    assert!(ok(&c, "min=1:, max=2 matching two-element list", &make_array(vec!["abc", "def"])));
    assert!(
        !ok(&c, "min=1:, max=2 matching three-element list", &make_array(vec!["def", "ghi", "abc"])),
        "min=1, max=2: matching three-element list"
    );
    assert!(!ok(&c, "min=1:, max=2 non-matching element", &make_array(vec!["def", "jklsdf"])), "non-matching element");
}

fn map_of(entries: Vec<(&str, JsonValue)>) -> JsonMap {
    JsonMap { entries: entries.into_iter().map(|(k, v)| (k.to_string(), v)).collect() }
}

fn get<'a>(m: &'a JsonMap, k: &str) -> Option<&'a JsonValue> {
    m.entries.iter().find(|(key, _)| key == k).map(|(_, v)| v)
}

fn text_of(v: Option<&JsonValue>) -> Option<String> {
    match v {
        Some(JsonValue::String(s)) => Some(s.clone()),
        _ => None,
    }
}

fn keys_sorted(m: &JsonMap) -> Vec<String> {
    let mut keys = m.entries.iter().map(|(k, _)| k.clone()).collect::<Vec<_>>();
    keys.sort();
    keys
}

fn applied(template: &Vec<(String, JsonValue)>, values: &JsonMap) -> JsonMap {
    match apply(template, values) {
        Ok(m) => m,
        Err(TemplateError::Render(msg)) => panic!("render error: {}", msg),
        Err(_) => panic!("template error"),
    }
}

#[test]
fn simple_template() {
    let template = vec![("command".to_string(), s("{{command}}")), ("output".to_string(), s("{{filename}}.json"))];
    let values = map_of(vec![("command", s("program")), ("filename", s("fgh")), ("extra", s("extra"))]);
    let output = applied(&template, &values);
    assert_eq!(text_of(get(&output, "command")), Some("program".to_string()));
    assert_eq!(text_of(get(&output, "output")), Some("fgh.json".to_string()));
    assert_eq!(keys_sorted(&output), vec!["command".to_string(), "output".to_string()]);
}

#[test]
fn full_object_template() {
    let template = vec![("payload".to_string(), s("{{/json}}"))];
    let json = JsonValue::Object(map_of(vec![("a", int5()), ("b", s("c"))]));
    let values = map_of(vec![("json", json)]);
    let output = applied(&template, &values);
    let expected = JsonValue::Object(map_of(vec![("a", int5()), ("b", s("c"))]));
    let got = get(&output, "payload").expect("payload");
    assert!(ergo_tasks::json::json_equal(got, &expected));
}

#[test]
fn complex_template() {
    let body = JsonValue::Object(map_of(vec![
        ("message", s("{{method}}")),
        ("options", JsonValue::Object(map_of(vec![("a", s("{{a_value}}")), ("b", s("{{b_value}}"))]))),
        ("scopes", JsonValue::Array(vec![s("general"), s("{{scopes/a}}"), s("{{scopes/b}}")])),
    ]));
    let template = vec![
        ("body".to_string(), body),
        ("output".to_string(), JsonValue::Array(vec![s("{{outputs/a}}"), s("{{outputs/b}}")])),
    ];
    let values = map_of(vec![
        ("outputs", JsonValue::Object(map_of(vec![("a", s("output a")), ("b", s("output b"))]))),
        ("scopes", JsonValue::Object(map_of(vec![("a", s("scope a")), ("b", s("another scope"))]))),
        ("method", s("the method")),
        ("a_value", s("option a value")),
        ("b_value", s("option b value")),
    ]);
    let output = applied(&template, &values);
    let expected_body = JsonValue::Object(map_of(vec![
        ("message", s("the method")),
        ("options", JsonValue::Object(map_of(vec![("a", s("option a value")), ("b", s("option b value"))]))),
        ("scopes", JsonValue::Array(vec![s("general"), s("scope a"), s("another scope")])),
    ]));
    assert!(ergo_tasks::json::json_equal(get(&output, "body").expect("body"), &expected_body));
    let expected_output = JsonValue::Array(vec![s("output a"), s("output b")]);
    assert!(ergo_tasks::json::json_equal(get(&output, "output").expect("output"), &expected_output));
    assert_eq!(keys_sorted(&output), vec!["body".to_string(), "output".to_string()]);
}
