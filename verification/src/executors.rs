//! The executors that actions run on, the fields each expects, and the decisions each makes
//! before and after its outside work.
use vstd::prelude::*;
use crate::json::{JsonMap, JsonNumber, JsonValue, JsonView, NumberView, view_entries, lemma_view_entries};
use crate::time::{Timestamp, time_pair};
use crate::template::{FailureView, FormatView, TemplateField, TemplateFieldFormat, TemplateFields, string_list, texts};
use crate::execute::{ExecutorError, ExecutorErrorView, failure_error, primitive_text, text_result, json_primitive_as_string};
use crate::text::{int_text, push_int, push_str, string_of};

verus! {

/// A field as plain values: name, format, whether it may be left out, description.
pub open spec fn field_spec(f: TemplateField) -> (Seq<char>, FormatView, bool, Option<Seq<char>>) {
    (f.name@, f.format@, f.optional, match f.description {
        Some(d) => Some(d@),
        None => None,
    })
}

/// The fields of a list as plain values.
pub open spec fn fields_spec(fs: Seq<TemplateField>) -> Seq<(Seq<char>, FormatView, bool, Option<Seq<char>>)> {
    fs.map_values(|f: TemplateField| field_spec(f))
}

/// The methods an HTTP request may use.
pub open spec fn http_methods() -> Seq<Seq<char>> {
    seq!["GET"@, "POST"@, "PUT"@, "PATCH"@, "DELETE"@, "HEAD"@, "OPTIONS"@]
}

/// The format of the HTTP `method` field: exactly one of the methods.
pub open spec fn method_format() -> FormatView {
    FormatView::Choice { choices: http_methods(), min: Some(1), max: Some(1) }
}

/// The format of the HTTP `result_format` field: exactly one of `json` and `string`.
pub open spec fn result_format_format() -> FormatView {
    FormatView::Choice { choices: seq!["json"@, "string"@], min: Some(1), max: Some(1) }
}

/// The fields of the HTTP executor.
pub open spec fn http_fields() -> Seq<(Seq<char>, FormatView, bool, Option<Seq<char>>)> {
    seq![
        ("url"@, FormatView::String, false, Some("The URL to request"@)),
        ("method"@, method_format(), true, Some("The HTTP method to use. Defaults to GET"@)),
        ("user_agent"@, FormatView::String, true, Some("Use a custom user agent string (default is 'Ergo')"@)),
        ("timeout"@, FormatView::Integer, true, Some("The request timeout, in seconds. Default is 30 seconds"@)),
        ("json"@, FormatView::Object { nested: true }, true, Some("A JSON body to send with the request"@)),
        ("body"@, FormatView::String, true, Some("A raw string body to send with the request"@)),
        ("query"@, FormatView::Object { nested: false }, true, Some("Query string to send"@)),
        ("headers"@, FormatView::Object { nested: false }, true, Some("HTTP header values for the request"@)),
        ("result_format"@, result_format_format(), true, Some("How to process the result. Defaults to JSON"@)),
    ]
}

fn field_url() -> (r: TemplateField)
    ensures field_spec(r) == http_fields()[0],
{
    TemplateField::from_static("url", TemplateFieldFormat::String, false, "The URL to request")
}

fn field_method() -> (r: TemplateField)
    ensures field_spec(r) == http_fields()[1],
{
    let choices = vec!["GET", "POST", "PUT", "PATCH", "DELETE", "HEAD", "OPTIONS"];
    let f = TemplateFieldFormat::from_static_choices(choices.as_slice(), Some(1), Some(1));
    assert(crate::template::str_texts(choices@) =~= http_methods());
    TemplateField::from_static("method", f, true, "The HTTP method to use. Defaults to GET")
}

fn field_user_agent() -> (r: TemplateField)
    ensures field_spec(r) == http_fields()[2],
{
    TemplateField::from_static("user_agent", TemplateFieldFormat::String, true, "Use a custom user agent string (default is 'Ergo')")
}

fn field_timeout() -> (r: TemplateField)
    ensures field_spec(r) == http_fields()[3],
{
    TemplateField::from_static("timeout", TemplateFieldFormat::Integer, true, "The request timeout, in seconds. Default is 30 seconds")
}

fn field_json() -> (r: TemplateField)
    ensures field_spec(r) == http_fields()[4],
{
    TemplateField::from_static("json", TemplateFieldFormat::Object { nested: true }, true, "A JSON body to send with the request")
}

fn field_body() -> (r: TemplateField)
    ensures field_spec(r) == http_fields()[5],
{
    TemplateField::from_static("body", TemplateFieldFormat::String, true, "A raw string body to send with the request")
}

fn field_query() -> (r: TemplateField)
    ensures field_spec(r) == http_fields()[6],
{
    TemplateField::from_static("query", TemplateFieldFormat::Object { nested: false }, true, "Query string to send")
}

fn field_headers() -> (r: TemplateField)
    ensures field_spec(r) == http_fields()[7],
{
    TemplateField::from_static("headers", TemplateFieldFormat::Object { nested: false }, true, "HTTP header values for the request")
}

fn field_result_format() -> (r: TemplateField)
    ensures field_spec(r) == http_fields()[8],
{
    let choices = vec!["json", "string"];
    let f = TemplateFieldFormat::from_static_choices(choices.as_slice(), Some(1), Some(1));
    assert(crate::template::str_texts(choices@) =~= seq!["json"@, "string"@]);
    TemplateField::from_static("result_format", f, true, "How to process the result. Defaults to JSON")
}

/// The fields of the raw command executor.
pub open spec fn raw_command_fields() -> Seq<(Seq<char>, FormatView, bool, Option<Seq<char>>)> {
    seq![
        ("command"@, FormatView::String, false, Some("The executable to run"@)),
        ("args"@, FormatView::StringArray, true, Some("An array of arguments to the executable"@)),
        ("env"@, FormatView::Object { nested: false }, true, Some("Environment variables to set"@)),
        ("allow_failure"@, FormatView::Boolean, true, Some("If true, ignore the process exit code. By default, a nonzero exit code counts as failure"@)),
    ]
}

fn field_command() -> (r: TemplateField)
    ensures field_spec(r) == raw_command_fields()[0],
{
    TemplateField::from_static("command", TemplateFieldFormat::String, false, "The executable to run")
}

fn field_args() -> (r: TemplateField)
    ensures field_spec(r) == raw_command_fields()[1],
{
    TemplateField::from_static("args", TemplateFieldFormat::StringArray, true, "An array of arguments to the executable")
}

fn field_env() -> (r: TemplateField)
    ensures field_spec(r) == raw_command_fields()[2],
{
    TemplateField::from_static("env", TemplateFieldFormat::Object { nested: false }, true, "Environment variables to set")
}

fn field_allow_failure() -> (r: TemplateField)
    ensures field_spec(r) == raw_command_fields()[3],
{
    TemplateField::from_static("allow_failure", TemplateFieldFormat::Boolean, true, "If true, ignore the process exit code. By default, a nonzero exit code counts as failure")
}

/// The fields of the script executor.
pub open spec fn js_fields() -> Seq<(Seq<char>, FormatView, bool, Option<Seq<char>>)> {
    seq![
        ("name"@, FormatView::String, true, Some("The name of the action"@)),
        ("script"@, FormatView::String, false, Some("The script to execute"@)),
        ("args"@, FormatView::Object { nested: true }, true, Some("Arguments to the script. Exposed as 'args' in the script"@)),
    ]
}

fn field_script_name() -> (r: TemplateField)
    ensures field_spec(r) == js_fields()[0],
{
    TemplateField::from_static("name", TemplateFieldFormat::String, true, "The name of the action")
}

fn field_script() -> (r: TemplateField)
    ensures field_spec(r) == js_fields()[1],
{
    TemplateField::from_static("script", TemplateFieldFormat::String, false, "The script to execute")
}

fn field_script_args() -> (r: TemplateField)
    ensures field_spec(r) == js_fields()[2],
{
    TemplateField::from_static("args", TemplateFieldFormat::Object { nested: true }, true, "Arguments to the script. Exposed as 'args' in the script")
}

/// The fields of the executor that sends an input to a task's trigger.
pub open spec fn send_input_fields() -> Seq<(Seq<char>, FormatView, bool, Option<Seq<char>>)> {
    seq![
        ("trigger_name"@, FormatView::String, false, Some("The local ID of the task's trigger"@)),
        ("task"@, FormatView::String, false, Some("The task to send the input to"@)),
        ("time"@, FormatView::String, true, Some("When to send the input"@)),
        ("payload"@, FormatView::Object { nested: true }, true, Some("The payload to send to the trigger"@)),
    ]
}

fn field_trigger() -> (r: TemplateField)
    ensures field_spec(r) == send_input_fields()[0],
{
    TemplateField::from_static("trigger_name", TemplateFieldFormat::String, false, "The local ID of the task's trigger")
}

fn field_task() -> (r: TemplateField)
    ensures field_spec(r) == send_input_fields()[1],
{
    TemplateField::from_static("task", TemplateFieldFormat::String, false, "The task to send the input to")
}

fn field_time() -> (r: TemplateField)
    ensures field_spec(r) == send_input_fields()[2],
{
    TemplateField::from_static("time", TemplateFieldFormat::String, true, "When to send the input")
}

fn field_payload() -> (r: TemplateField)
    ensures field_spec(r) == send_input_fields()[3],
{
    TemplateField::from_static("payload", TemplateFieldFormat::Object { nested: true }, true, "The payload to send to the trigger")
}

/// The executor that makes HTTP requests.
pub struct HttpExecutor {
    template_fields: TemplateFields,
}

impl HttpExecutor {
    #[verifier::type_invariant]
    closed spec fn inv(self) -> bool {
        fields_spec(self.template_fields.0@) == http_fields()
    }

    /// The plain values of the fields this executor holds.
    pub closed spec fn field_list(self) -> Seq<(Seq<char>, FormatView, bool, Option<Seq<char>>)> {
        fields_spec(self.template_fields.0@)
    }

    /// An executor holding its fields (see `http_fields`).
    pub fn new() -> (r: HttpExecutor)
        ensures
            r.field_list() == http_fields(),
    {
        let v = vec![field_url(), field_method(), field_user_agent(), field_timeout(), field_json(),
            field_body(), field_query(), field_headers(), field_result_format()];
        assert(fields_spec(v@) =~= http_fields());
        HttpExecutor { template_fields: TemplateFields(v) }
    }

    pub fn name(&self) -> (r: &'static str)
        ensures
            r@ == "http"@,
    {
        "http"
    }

    /// The fields this executor expects (see `http_fields`).
    pub fn template_fields(&self) -> (r: &TemplateFields)
        ensures
            fields_spec(r.0@) == http_fields(),
            fields_spec(r.0@) == self.field_list(),
    {
        proof {
            use_type_invariant(self);
        }
        &self.template_fields
    }
}

/// The executor that runs a program.
pub struct RawCommandExecutor {
    template_fields: TemplateFields,
}

impl RawCommandExecutor {
    #[verifier::type_invariant]
    closed spec fn inv(self) -> bool {
        fields_spec(self.template_fields.0@) == raw_command_fields()
    }

    /// The plain values of the fields this executor holds.
    pub closed spec fn field_list(self) -> Seq<(Seq<char>, FormatView, bool, Option<Seq<char>>)> {
        fields_spec(self.template_fields.0@)
    }

    /// An executor holding its fields (see `raw_command_fields`).
    pub fn new() -> (r: RawCommandExecutor)
        ensures
            r.field_list() == raw_command_fields(),
    {
        let v = vec![field_command(), field_args(), field_env(), field_allow_failure()];
        assert(fields_spec(v@) =~= raw_command_fields());
        RawCommandExecutor { template_fields: TemplateFields(v) }
    }

    pub fn name(&self) -> (r: &'static str)
        ensures
            r@ == "raw_command"@,
    {
        "raw_command"
    }

    /// The fields this executor expects (see `raw_command_fields`).
    pub fn template_fields(&self) -> (r: &TemplateFields)
        ensures
            fields_spec(r.0@) == raw_command_fields(),
            fields_spec(r.0@) == self.field_list(),
    {
        proof {
            use_type_invariant(self);
        }
        &self.template_fields
    }
}

/// The executor that runs a script.
pub struct JsExecutor {
    template_fields: TemplateFields,
}

impl JsExecutor {
    #[verifier::type_invariant]
    closed spec fn inv(self) -> bool {
        fields_spec(self.template_fields.0@) == js_fields()
    }

    /// The plain values of the fields this executor holds.
    pub closed spec fn field_list(self) -> Seq<(Seq<char>, FormatView, bool, Option<Seq<char>>)> {
        fields_spec(self.template_fields.0@)
    }

    /// An executor holding its fields (see `js_fields`).
    pub fn new() -> (r: JsExecutor)
        ensures
            r.field_list() == js_fields(),
    {
        let v = vec![field_script_name(), field_script(), field_script_args()];
        assert(fields_spec(v@) =~= js_fields());
        JsExecutor { template_fields: TemplateFields(v) }
    }

    pub fn name(&self) -> (r: &'static str)
        ensures
            r@ == "js"@,
    {
        "js"
    }

    /// The fields this executor expects (see `js_fields`).
    pub fn template_fields(&self) -> (r: &TemplateFields)
        ensures
            fields_spec(r.0@) == js_fields(),
            fields_spec(r.0@) == self.field_list(),
    {
        proof {
            use_type_invariant(self);
        }
        &self.template_fields
    }
}

/// The executor that sends an input to a task's trigger.
pub struct SendInputExecutor {
    template_fields: TemplateFields,
}

impl SendInputExecutor {
    #[verifier::type_invariant]
    closed spec fn inv(self) -> bool {
        fields_spec(self.template_fields.0@) == send_input_fields()
    }

    /// The plain values of the fields this executor holds.
    pub closed spec fn field_list(self) -> Seq<(Seq<char>, FormatView, bool, Option<Seq<char>>)> {
        fields_spec(self.template_fields.0@)
    }

    /// An executor holding its fields (see `send_input_fields`).
    pub fn new() -> (r: SendInputExecutor)
        ensures
            r.field_list() == send_input_fields(),
    {
        let v = vec![field_trigger(), field_task(), field_time(), field_payload()];
        assert(fields_spec(v@) =~= send_input_fields());
        SendInputExecutor { template_fields: TemplateFields(v) }
    }

    pub fn name(&self) -> (r: &'static str)
        ensures
            r@ == "send_input"@,
    {
        "send_input"
    }

    /// The fields this executor expects (see `send_input_fields`).
    pub fn template_fields(&self) -> (r: &TemplateFields)
        ensures
            fields_spec(r.0@) == send_input_fields(),
            fields_spec(r.0@) == self.field_list(),
    {
        proof {
            use_type_invariant(self);
        }
        &self.template_fields
    }
}

/// One of the executors.
pub enum Executor {
    Http(HttpExecutor),
    RawCommand(RawCommandExecutor),
    Js(JsExecutor),
    SendInput(SendInputExecutor),
}

/// The name an executor is registered under.
pub open spec fn executor_name(e: Executor) -> Seq<char> {
    match e {
        Executor::Http(_) => "http"@,
        Executor::RawCommand(_) => "raw_command"@,
        Executor::Js(_) => "js"@,
        Executor::SendInput(_) => "send_input"@,
    }
}

/// The fields an executor expects, as plain values.
pub open spec fn executor_fields(e: Executor) -> Seq<(Seq<char>, FormatView, bool, Option<Seq<char>>)> {
    match e {
        Executor::Http(_) => http_fields(),
        Executor::RawCommand(_) => raw_command_fields(),
        Executor::Js(_) => js_fields(),
        Executor::SendInput(_) => send_input_fields(),
    }
}

impl Executor {
    /// The name this executor is registered under.
    pub fn name(&self) -> (r: &'static str)
        ensures
            r@ == executor_name(*self),
    {
        match self {
            Executor::Http(e) => e.name(),
            Executor::RawCommand(e) => e.name(),
            Executor::Js(e) => e.name(),
            Executor::SendInput(e) => e.name(),
        }
    }

    /// The fields this executor expects.
    pub fn template_fields(&self) -> (r: &TemplateFields)
        ensures
            fields_spec(r.0@) == executor_fields(*self),
    {
        match self {
            Executor::Http(e) => e.template_fields(),
            Executor::RawCommand(e) => e.template_fields(),
            Executor::Js(e) => e.template_fields(),
            Executor::SendInput(e) => e.template_fields(),
        }
    }
}

/// The names of the registered executors.
pub open spec fn executor_names() -> Seq<Seq<char>> {
    seq!["http"@, "raw_command"@, "js"@, "send_input"@]
}

/// The registered executor with the given name, if there is one.
pub fn executor_registry_get(id: &str) -> (r: Option<Executor>)
    ensures
        match r {
            Some(e) => executor_name(e) == id@,
            None => !executor_names().contains(id@),
        },
{
    if crate::text::str_eq(id, "http") {
        Some(Executor::Http(HttpExecutor::new()))
    } else if crate::text::str_eq(id, "raw_command") {
        Some(Executor::RawCommand(RawCommandExecutor::new()))
    } else if crate::text::str_eq(id, "js") {
        Some(Executor::Js(JsExecutor::new()))
    } else if crate::text::str_eq(id, "send_input") {
        Some(Executor::SendInput(SendInputExecutor::new()))
    } else {
        proof {
            assert(executor_names()[0] == "http"@);
            assert(executor_names()[1] == "raw_command"@);
            assert(executor_names()[2] == "js"@);
            assert(executor_names()[3] == "send_input"@);
        }
        None
    }
}

/// The characters an HTTP method may hold: letters, digits and `! * + - . ^ _ ` | ~`.
pub open spec fn is_method_char(c: char) -> bool {
    ||| 'a' <= c <= 'z'
    ||| 'A' <= c <= 'Z'
    ||| '0' <= c <= '9'
    ||| c == '!' || c == '*' || c == '+' || c == '-' || c == '.'
    ||| c == '^' || c == '_' || c == '`' || c == '|' || c == '~'
}

/// Whether `reqwest::Method::try_from` accepts a text as an HTTP method: it is not empty and
/// every character is a method character.
pub open spec fn http_method_valid(m: Seq<char>) -> bool {
    m.len() > 0 && forall|i: int| 0 <= i < m.len() ==> is_method_char(#[trigger] m[i])
}

/// Whether a text is an HTTP method (`reqwest::Method::try_from`, that is
/// `http::Method::from_bytes`, which accepts exactly the non-empty texts whose bytes its
/// method table maps to a character: those of `is_method_char`; a character beyond ASCII has
/// bytes of 128 or more, which the table refuses).
#[verifier::external_body]
fn is_http_method(m: &str) -> (r: bool)
    ensures
        r == http_method_valid(m@),
{
    reqwest::Method::try_from(m).is_ok()
}

/// The characters a header name may hold: letters, digits and ``! " # $ % & ' * + - . ^ _ ` | ~``.
pub open spec fn is_header_name_char(c: char) -> bool {
    ||| 'a' <= c <= 'z'
    ||| 'A' <= c <= 'Z'
    ||| '0' <= c <= '9'
    ||| c == '!' || c == '"' || c == '#' || c == '$' || c == '%' || c == '&' || c == '\''
    ||| c == '*' || c == '+' || c == '-' || c == '.'
    ||| c == '^' || c == '_' || c == '`' || c == '|' || c == '~'
}

/// Whether `reqwest::header::HeaderName::try_from` accepts a text as a header name: it holds
/// between 1 and 65535 characters, each a header-name character.
pub open spec fn header_name_valid(k: Seq<char>) -> bool {
    0 < k.len() <= 65535 && forall|i: int| 0 <= i < k.len() ==> is_header_name_char(#[trigger] k[i])
}

/// Whether a text is an HTTP header name (`reqwest::header::HeaderName::try_from`, that is
/// `http::HeaderName::from_bytes`, which accepts exactly the texts of 1 to 65535 bytes whose
/// bytes its header table maps to a character: those of `is_header_name_char`; a character
/// beyond ASCII has bytes of 128 or more, which the table refuses).
#[verifier::external_body]
fn is_header_name(k: &str) -> (r: bool)
    ensures
        r == header_name_valid(k@),
{
    reqwest::header::HeaderName::try_from(k).is_ok()
}

/// Whether a text can be an HTTP header value: no control character but the tab, and no DEL.
pub open spec fn header_value_valid(s: Seq<char>) -> bool {
    forall|i: int| 0 <= i < s.len() ==> ((#[trigger] s[i] as u32) >= 32 && s[i] as u32 != 127) || s[i] == '\t'
}

/// Whether a text can be an HTTP header value (`reqwest::header::HeaderValue::from_str`, which
/// accepts exactly the texts whose bytes are all at least 32 and not 127, or tabs; the bytes of
/// a character beyond ASCII are all at least 128).
#[verifier::external_body]
fn is_header_value(s: &str) -> (r: bool)
    ensures
        r == header_value_valid(s@),
{
    reqwest::header::HeaderValue::from_str(s).is_ok()
}

/// The text of a string field, or `default` when an optional field is missing.
pub open spec fn str_or(p: Map<Seq<char>, JsonView>, name: Seq<char>, optional: bool, default: Seq<char>) -> Result<Seq<char>, ExecutorErrorView> {
    if p.contains_key(name) {
        match p[name] {
            JsonView::Str(s) => Ok(s),
            v => Err(failure_error(FailureView::Invalid { name, expected: FormatView::String, actual: v })),
        }
    } else if optional {
        Ok(default)
    } else {
        Err(ExecutorErrorView::MissingField(name))
    }
}

/// The first text of an optional list field, or `default` when it is missing or empty.
pub open spec fn first_or(p: Map<Seq<char>, JsonView>, name: Seq<char>, format: FormatView, default: Seq<char>) -> Result<Seq<char>, ExecutorErrorView> {
    if p.contains_key(name) {
        match string_list(p[name]) {
            Some(l) => Ok(if l.len() > 0 { l[0] } else { default }),
            None => Err(failure_error(FailureView::Invalid { name, expected: format, actual: p[name] })),
        }
    } else {
        Ok(default)
    }
}

/// The value of an optional non-negative integer field, or `default` when it is missing.
pub open spec fn u64_or(p: Map<Seq<char>, JsonView>, name: Seq<char>, default: u64) -> Result<u64, ExecutorErrorView> {
    if p.contains_key(name) {
        match p[name] {
            JsonView::Number(NumberView::PosInt(u)) => if u <= u64::MAX {
                Ok(u as u64)
            } else {
                Err(failure_error(FailureView::Invalid { name, expected: FormatView::Integer, actual: p[name] }))
            },
            v => Err(failure_error(FailureView::Invalid { name, expected: FormatView::Integer, actual: v })),
        }
    } else {
        Ok(default)
    }
}

/// The value of an optional boolean field, or `default` when it is missing.
pub open spec fn bool_or(p: Map<Seq<char>, JsonView>, name: Seq<char>, default: bool) -> Result<bool, ExecutorErrorView> {
    if p.contains_key(name) {
        match p[name] {
            JsonView::Bool(b) => Ok(b),
            v => Err(failure_error(FailureView::Invalid { name, expected: FormatView::Boolean, actual: v })),
        }
    } else {
        Ok(default)
    }
}

/// The headers of a request, in entry order; the first entry with an invalid name, or with a
/// value that is no valid header text, is refused.
pub open spec fn header_pairs(o: Seq<(Seq<char>, JsonView)>) -> Result<Seq<(Seq<char>, Seq<char>)>, ExecutorErrorView>
    decreases o.len(),
{
    if o.len() == 0 {
        Ok(Seq::empty())
    } else {
        match header_pairs(o.drop_last()) {
            Err(e) => Err(e),
            Ok(h) => {
                let k = o.last().0;
                if !header_name_valid(k) {
                    Err(ExecutorErrorView::FieldFormat { field: "headers"@, subfield: Some(k), expected: "Valid HTTP header name"@ })
                } else if o.last().1 is Str && header_value_valid(o.last().1->Str_0) {
                    Ok(h.push((k, o.last().1->Str_0)))
                } else {
                    Err(ExecutorErrorView::FieldFormat { field: "headers"@, subfield: Some(k), expected: "Valid HTTP header string value"@ })
                }
            },
        }
    }
}

/// An entry of a headers object that makes a header: a valid name and a string value that is
/// valid header text.
pub open spec fn header_entry_ok(e: (Seq<char>, JsonView)) -> bool {
    header_name_valid(e.0) && e.1 is Str && header_value_valid(e.1->Str_0)
}

/// The refusal of a header entry with the name `k`: a bad name, or else a bad value.
pub open spec fn header_error(k: Seq<char>) -> ExecutorErrorView {
    ExecutorErrorView::FieldFormat {
        field: "headers"@,
        subfield: Some(k),
        expected: if header_name_valid(k) { "Valid HTTP header string value"@ } else { "Valid HTTP header name"@ },
    }
}

/// A headers object gives headers exactly when every entry is a valid header, and then it
/// gives every entry, in order, as a header of the entry's name and string value; otherwise
/// the error names the first entry that is not.
pub proof fn law_headers_keep_every_entry(o: Seq<(Seq<char>, JsonView)>)
    ensures
        header_pairs(o) is Ok <==> forall|i: int| 0 <= i < o.len() ==> header_entry_ok(#[trigger] o[i]),
        header_pairs(o) is Ok ==> {
            let h = header_pairs(o)->Ok_0;
            &&& h.len() == o.len()
            &&& forall|i: int| 0 <= i < o.len() ==> (#[trigger] h[i]).0 == o[i].0 && h[i].1 == o[i].1->Str_0
        },
        header_pairs(o) is Err ==> exists|i: int| 0 <= i < o.len() && !header_entry_ok(#[trigger] o[i])
            && (forall|j: int| 0 <= j < i ==> header_entry_ok(#[trigger] o[j]))
            && header_pairs(o)->Err_0 == header_error(o[i].0),
    decreases o.len(),
{
    if o.len() > 0 {
        let p = o.drop_last();
        law_headers_keep_every_entry(p);
        let n = o.len() - 1;
        assert forall|i: int| 0 <= i < n implies #[trigger] o[i] == p[i] by {}
        if header_pairs(p) is Ok {
            if header_entry_ok(o[n]) {
                let h = header_pairs(o)->Ok_0;
                assert forall|i: int| 0 <= i < o.len() implies header_entry_ok(#[trigger] o[i]) by {
                    if i < n {
                        assert(header_entry_ok(p[i]));
                    }
                }
                assert forall|i: int| 0 <= i < o.len() implies (#[trigger] h[i]).0 == o[i].0 && h[i].1 == o[i].1->Str_0 by {
                    if i < n {
                        assert(h[i] == header_pairs(p)->Ok_0[i]);
                    }
                }
            } else {
                assert forall|j: int| 0 <= j < n implies header_entry_ok(#[trigger] o[j]) by {
                    assert(header_entry_ok(p[j]));
                }
            }
        } else {
            let i = choose|i: int| 0 <= i < p.len() && !header_entry_ok(#[trigger] p[i])
                && (forall|j: int| 0 <= j < i ==> header_entry_ok(#[trigger] p[j]))
                && header_pairs(p)->Err_0 == header_error(p[i].0);
            assert(!header_entry_ok(o[i]));
            assert forall|j: int| 0 <= j < i implies header_entry_ok(#[trigger] o[j]) by {
                assert(header_entry_ok(p[j]));
            }
        }
    }
}

/// Once a prefix of the headers fails, every longer prefix fails the same way.
proof fn lemma_header_pairs_err(o: Seq<(Seq<char>, JsonView)>, k: int)
    requires
        0 < k <= o.len(),
        header_pairs(o.subrange(0, k)) is Err,
    ensures
        header_pairs(o) == header_pairs(o.subrange(0, k)),
    decreases o.len() - k,
{
    if k < o.len() {
        assert(o.subrange(0, k + 1).drop_last() =~= o.subrange(0, k));
        lemma_header_pairs_err(o, k + 1);
    } else {
        assert(o.subrange(0, k) =~= o);
    }
}

/// What an HTTP request sends as its body.
pub enum HttpBody {
    Json(JsonValue),
    Text(String),
    Empty,
}

/// An HTTP request that an action makes.
pub struct HttpRequest {
    pub method: String,
    pub url: String,
    pub user_agent: String,
    pub timeout_secs: u64,
    pub headers: Vec<(String, String)>,
    pub query: Option<JsonValue>,
    pub body: HttpBody,
}

/// The mathematical form of a request body.
pub enum BodyView {
    Json(JsonView),
    Text(Seq<char>),
    Empty,
}

/// The mathematical form of a request.
pub struct HttpRequestView {
    pub method: Seq<char>,
    pub url: Seq<char>,
    pub user_agent: Seq<char>,
    pub timeout_secs: u64,
    pub headers: Seq<(Seq<char>, Seq<char>)>,
    pub query: Option<JsonView>,
    pub body: BodyView,
}

/// The texts of a list of text pairs.
pub open spec fn pair_texts(v: Seq<(String, String)>) -> Seq<(Seq<char>, Seq<char>)> {
    v.map_values(|p: (String, String)| (p.0@, p.1@))
}

impl View for HttpRequest {
    type V = HttpRequestView;

    open spec fn view(&self) -> HttpRequestView {
        HttpRequestView {
            method: self.method@,
            url: self.url@,
            user_agent: self.user_agent@,
            timeout_secs: self.timeout_secs,
            headers: pair_texts(self.headers@),
            query: match self.query {
                Some(q) => Some(q@),
                None => None,
            },
            body: match self.body {
                HttpBody::Json(j) => BodyView::Json(j@),
                HttpBody::Text(t) => BodyView::Text(t@),
                HttpBody::Empty => BodyView::Empty,
            },
        }
    }
}

/// The request an HTTP action makes with a payload: the user agent (default `Ergo`), the
/// timeout (default thirty seconds), the method (default `GET`, refused unless valid), the URL,
/// the headers of an object `headers`, the object `query`, and as body the value `json`, else
/// the text `body`, else nothing. The first failure in that order is the error.
pub open spec fn http_request(p: Map<Seq<char>, JsonView>) -> Result<HttpRequestView, ExecutorErrorView> {
    match str_or(p, "user_agent"@, true, "Ergo"@) {
        Err(e) => Err(e),
        Ok(user_agent) => match u64_or(p, "timeout"@, 30) {
            Err(e) => Err(e),
            Ok(timeout_secs) => match first_or(p, "method"@, method_format(), "GET"@) {
                Err(e) => Err(e),
                Ok(method) => if !http_method_valid(method) {
                    Err(ExecutorErrorView::FieldFormat { field: "method"@, subfield: None, expected: "Valid HTTP method"@ })
                } else {
                    match str_or(p, "url"@, false, Seq::empty()) {
                        Err(e) => Err(e),
                        Ok(url) => match (if p.contains_key("headers"@) && p["headers"@] is Object {
                            header_pairs(p["headers"@]->Object_0)
                        } else {
                            Ok(Seq::empty())
                        }) {
                            Err(e) => Err(e),
                            Ok(headers) => Ok(HttpRequestView {
                                method,
                                url,
                                user_agent,
                                timeout_secs,
                                headers,
                                query: if p.contains_key("query"@) && p["query"@] is Object {
                                    Some(p["query"@])
                                } else {
                                    None
                                },
                                body: if p.contains_key("json"@) {
                                    BodyView::Json(p["json"@])
                                } else if p.contains_key("body"@) && p["body"@] is Str {
                                    BodyView::Text(p["body"@]->Str_0)
                                } else {
                                    BodyView::Empty
                                },
                            }),
                        },
                    }
                },
            },
        },
    }
}

/// An HTTP request sends every entry of its payload's `headers` object, in order, as a header
/// of the entry's name and string value, and no header when there is no such object.
pub proof fn law_http_request_headers(p: Map<Seq<char>, JsonView>)
    ensures
        http_request(p) is Ok ==> {
            let h = http_request(p)->Ok_0.headers;
            &&& p.contains_key("headers"@) && p["headers"@] is Object ==> {
                let o = p["headers"@]->Object_0;
                &&& h.len() == o.len()
                &&& forall|i: int| 0 <= i < o.len() ==> (#[trigger] h[i]).0 == o[i].0 && o[i].1 == JsonView::Str(h[i].1)
            }
            &&& !(p.contains_key("headers"@) && p["headers"@] is Object) ==> h.len() == 0
        },
{
    if p.contains_key("headers"@) && p["headers"@] is Object {
        law_headers_keep_every_entry(p["headers"@]->Object_0);
    }
}

/// The headers of an object, in entry order (see `header_pairs`).
fn request_headers(o: &JsonMap) -> (r: Result<Vec<(String, String)>, ExecutorError>)
    ensures
        match header_pairs(o.entries_view()) {
            Ok(h) => r is Ok && pair_texts(r->Ok_0@) == h,
            Err(e) => r is Err && r->Err_0@ == e,
        },
        r is Ok ==> pair_texts(r->Ok_0@).len() == o.entries_view().len() && forall|i: int| 0 <= i < o.entries_view().len()
            ==> (#[trigger] pair_texts(r->Ok_0@)[i]).0 == o.entries_view()[i].0
                && pair_texts(r->Ok_0@)[i].1 == o.entries_view()[i].1->Str_0,
{
    proof {
        law_headers_keep_every_entry(o.entries_view());
    }
    let mut out: Vec<(String, String)> = Vec::new();
    let mut i: usize = 0;
    proof {
        lemma_view_entries(o.entries@);
        assert(pair_texts(out@) =~= Seq::empty());
    }
    while i < o.entries.len()
        invariant
            i <= o.entries.len(),
            view_entries(o.entries@).len() == o.entries@.len(),
            forall|j: int| 0 <= j < o.entries.len() ==> #[trigger] view_entries(o.entries@)[j] == (o.entries@[j].0@, crate::json::json_view(o.entries@[j].1)),
            header_pairs(o.entries_view().subrange(0, i as int)) == Ok::<Seq<(Seq<char>, Seq<char>)>, ExecutorErrorView>(pair_texts(out@)),
        decreases o.entries.len() - i,
    {
        let k = &o.entries[i].0;
        let v = &o.entries[i].1;
        proof {
            let t = o.entries_view().subrange(0, i + 1);
            assert(t.drop_last() =~= o.entries_view().subrange(0, i as int));
            assert(t.last() == (k@, v@));
        }
        if !is_header_name(k.as_str()) {
            proof {
                lemma_header_pairs_err(o.entries_view(), i + 1);
            }
            return Err(ExecutorError::FieldFormatError {
                field: string_of("headers"),
                subfield: Some(k.clone()),
                expected: string_of("Valid HTTP header name"),
            });
        }
        let ok_value = match v.as_str() {
            Some(s) => if is_header_value(s) {
                let ghost before = out@;
                out.push((k.clone(), string_of(s)));
                proof {
                    assert(pair_texts(out@) =~= pair_texts(before).push((k@, s@)));
                }
                true
            } else {
                false
            },
            None => false,
        };
        if !ok_value {
            proof {
                lemma_header_pairs_err(o.entries_view(), i + 1);
            }
            return Err(ExecutorError::FieldFormatError {
                field: string_of("headers"),
                subfield: Some(k.clone()),
                expected: string_of("Valid HTTP header string value"),
            });
        }
        i = i + 1;
    }
    assert(o.entries_view().subrange(0, o.entries.len() as int) =~= o.entries_view());
    Ok(out)
}

impl HttpExecutor {
    /// The request to make for a payload (see `http_request`).
    pub fn request(&self, payload: &JsonMap) -> (r: Result<HttpRequest, ExecutorError>)
        requires
            payload.wf(),
        ensures
            match http_request(payload@) {
                Ok(v) => r is Ok && r->Ok_0@ == v,
                Err(e) => r is Err && r->Err_0@ == e,
            },
            r is Ok && payload@.contains_key("headers"@) && payload@["headers"@] is Object ==>
                r->Ok_0@.headers.len() == payload@["headers"@]->Object_0.len(),
    {
        proof {
            law_http_request_headers(payload@);
        }
        let user_agent = match field_user_agent().extract_str(payload) {
            Ok(Some(s)) => string_of(s),
            Ok(None) => string_of("Ergo"),
            Err(e) => {
                return Err(ExecutorError::from(e));
            },
        };
        let timeout_secs: u64 = match field_timeout().extract(payload) {
            Ok(Some(v)) => match v {
                JsonValue::Number(JsonNumber::PosInt(u)) => u,
                _ => {
                    let failure = crate::template::TemplateValidationFailure::Invalid {
                        name: string_of("timeout"),
                        expected: TemplateFieldFormat::Integer,
                        actual: v,
                    };
                    return Err(ExecutorError::from(failure));
                },
            },
            Ok(None) => 30,
            Err(e) => {
                return Err(ExecutorError::from(e));
            },
        };
        let method = match field_method().extract_string_array(payload) {
            Ok(list) => if list.len() > 0 {
                list[0].clone()
            } else {
                string_of("GET")
            },
            Err(e) => {
                return Err(ExecutorError::from(e));
            },
        };
        if !is_http_method(method.as_str()) {
            return Err(ExecutorError::FieldFormatError {
                field: string_of("method"),
                subfield: None,
                expected: string_of("Valid HTTP method"),
            });
        }
        let url = match field_url().extract_str(payload) {
            Ok(Some(s)) => string_of(s),
            Ok(None) => String::new(),
            Err(e) => {
                return Err(ExecutorError::from(e));
            },
        };
        let headers = match payload.get("headers") {
            Some(JsonValue::Object(o)) => match request_headers(o) {
                Ok(h) => h,
                Err(e) => {
                    return Err(e);
                },
            },
            _ => Vec::new(),
        };
        let query = match payload.get("query") {
            Some(q) => match q {
                JsonValue::Object(_) => Some(q.clone_value()),
                _ => None,
            },
            None => None,
        };
        let body = match payload.get("json") {
            Some(j) => HttpBody::Json(j.clone_value()),
            None => match payload.get("body") {
                Some(JsonValue::String(t)) => HttpBody::Text(t.clone()),
                _ => HttpBody::Empty,
            },
        };
        proof {
            assert(pair_texts(Seq::<(String, String)>::empty()) =~= Seq::empty());
        }
        Ok(HttpRequest { method, url, user_agent, timeout_secs, headers, query, body })
    }

    /// Whether the response is to be kept as text rather than read as JSON: the first choice
    /// of `result_format` is `string` (the default is `json`).
    pub fn result_as_text(&self, payload: &JsonMap) -> (r: Result<bool, ExecutorError>)
        requires
            payload.wf(),
        ensures
            match first_or(payload@, "result_format"@, result_format_format(), "json"@) {
                Ok(f) => r is Ok && r->Ok_0 == (f == "string"@),
                Err(e) => r is Err && r->Err_0@ == e,
            },
    {
        match field_result_format().extract_string_array(payload) {
            Ok(list) => if list.len() > 0 {
                Ok(crate::text::str_eq(list[0].as_str(), "string"))
            } else {
                proof {
                    reveal_strlit("json");
                    reveal_strlit("string");
                    assert("json"@.len() != "string"@.len());
                }
                Ok(false)
            },
            Err(e) => Err(ExecutorError::from(e)),
        }
    }
}

/// What an HTTP action returns: `{"response": response, "status": status}`.
pub fn http_output(response: JsonValue, status: u16) -> (r: JsonValue)
    ensures
        r@ == JsonView::Object(seq![("response"@, response@), ("status"@, JsonView::Number(NumberView::PosInt(status as nat)))]),
{
    let ghost rv = response@;
    let mut m = JsonMap::new();
    m.insert(string_of("response"), response);
    proof {
        reveal_strlit("response");
        reveal_strlit("status");
        assert("response"@.len() != "status"@.len());
        assert(m.entries_view() =~= seq![("response"@, rv)]);
    }
    m.insert(string_of("status"), JsonValue::Number(JsonNumber::PosInt(status as u64)));
    assert(m.entries_view() =~= seq![("response"@, rv), ("status"@, JsonView::Number(NumberView::PosInt(status as nat)))]);
    JsonValue::Object(m)
}

/// The texts of an optional list field; none when it is missing.
pub open spec fn list_or_empty(p: Map<Seq<char>, JsonView>, name: Seq<char>, format: FormatView) -> Result<Seq<Seq<char>>, ExecutorErrorView> {
    if p.contains_key(name) {
        match string_list(p[name]) {
            Some(l) => Ok(l),
            None => Err(failure_error(FailureView::Invalid { name, expected: format, actual: p[name] })),
        }
    } else {
        Ok(Seq::empty())
    }
}

/// The environment of a command, in entry order: each value's primitive text (see
/// `primitive_text`); the first value that has none is refused.
pub open spec fn env_pairs(o: Seq<(Seq<char>, JsonView)>) -> Result<Seq<(Seq<char>, Seq<char>)>, ExecutorErrorView>
    decreases o.len(),
{
    if o.len() == 0 {
        Ok(Seq::empty())
    } else {
        match env_pairs(o.drop_last()) {
            Err(e) => Err(e),
            Ok(h) => match primitive_text("env"@, Some(o.last().0), o.last().1, false) {
                Ok(t) => Ok(h.push((o.last().0, t))),
                Err(e) => Err(e),
            },
        }
    }
}

/// Once a prefix of the environment fails, every longer prefix fails the same way.
proof fn lemma_env_pairs_err(o: Seq<(Seq<char>, JsonView)>, k: int)
    requires
        0 < k <= o.len(),
        env_pairs(o.subrange(0, k)) is Err,
    ensures
        env_pairs(o) == env_pairs(o.subrange(0, k)),
    decreases o.len() - k,
{
    if k < o.len() {
        assert(o.subrange(0, k + 1).drop_last() =~= o.subrange(0, k));
        lemma_env_pairs_err(o, k + 1);
    } else {
        assert(o.subrange(0, k) =~= o);
    }
}

/// A program to run: the executable, its arguments, its whole environment, and whether a
/// failing exit is accepted.
pub struct CommandPlan {
    pub command: String,
    pub args: Vec<String>,
    pub env: Vec<(String, String)>,
    pub allow_failure: bool,
}

/// The mathematical form of a command plan.
pub struct CommandPlanView {
    pub command: Seq<char>,
    pub args: Seq<Seq<char>>,
    pub env: Seq<(Seq<char>, Seq<char>)>,
    pub allow_failure: bool,
}

impl View for CommandPlan {
    type V = CommandPlanView;

    open spec fn view(&self) -> CommandPlanView {
        CommandPlanView {
            command: self.command@,
            args: texts(self.args@),
            env: pair_texts(self.env@),
            allow_failure: self.allow_failure,
        }
    }
}

/// The program a raw command action runs with a payload: the command, the arguments, the
/// environment of an object `env` (nothing else of the caller's environment), and
/// `allow_failure` (default false). The first failure in that order is the error.
pub open spec fn command_plan(p: Map<Seq<char>, JsonView>) -> Result<CommandPlanView, ExecutorErrorView> {
    match str_or(p, "command"@, false, Seq::empty()) {
        Err(e) => Err(e),
        Ok(command) => match list_or_empty(p, "args"@, FormatView::StringArray) {
            Err(e) => Err(e),
            Ok(args) => match (if p.contains_key("env"@) && p["env"@] is Object {
                env_pairs(p["env"@]->Object_0)
            } else {
                Ok(Seq::empty())
            }) {
                Err(e) => Err(e),
                Ok(env) => match bool_or(p, "allow_failure"@, false) {
                    Err(e) => Err(e),
                    Ok(allow_failure) => Ok(CommandPlanView { command, args, env, allow_failure }),
                },
            },
        },
    }
}

/// The environment of an object (see `env_pairs`).
fn command_env(o: &JsonMap) -> (r: Result<Vec<(String, String)>, ExecutorError>)
    ensures
        match env_pairs(o.entries_view()) {
            Ok(h) => r is Ok && pair_texts(r->Ok_0@) == h,
            Err(e) => r is Err && r->Err_0@ == e,
        },
{
    let mut out: Vec<(String, String)> = Vec::new();
    let mut i: usize = 0;
    proof {
        lemma_view_entries(o.entries@);
        assert(pair_texts(out@) =~= Seq::empty());
    }
    while i < o.entries.len()
        invariant
            i <= o.entries.len(),
            view_entries(o.entries@).len() == o.entries@.len(),
            forall|j: int| 0 <= j < o.entries.len() ==> #[trigger] view_entries(o.entries@)[j] == (o.entries@[j].0@, crate::json::json_view(o.entries@[j].1)),
            env_pairs(o.entries_view().subrange(0, i as int)) == Ok::<Seq<(Seq<char>, Seq<char>)>, ExecutorErrorView>(pair_texts(out@)),
        decreases o.entries.len() - i,
    {
        let k = &o.entries[i].0;
        let v = &o.entries[i].1;
        proof {
            let t = o.entries_view().subrange(0, i + 1);
            assert(t.drop_last() =~= o.entries_view().subrange(0, i as int));
            assert(t.last() == (k@, v@));
        }
        match json_primitive_as_string("env", Some(k.as_str()), v, false) {
            Ok(t) => {
                let ghost before = out@;
                let ghost tv = t@;
                out.push((k.clone(), t));
                proof {
                    assert(pair_texts(out@) =~= pair_texts(before).push((k@, tv)));
                }
            },
            Err(e) => {
                proof {
                    lemma_env_pairs_err(o.entries_view(), i + 1);
                }
                return Err(e);
            },
        }
        i = i + 1;
    }
    assert(o.entries_view().subrange(0, o.entries.len() as int) =~= o.entries_view());
    Ok(out)
}

impl RawCommandExecutor {
    /// The program to run for a payload (see `command_plan`).
    pub fn plan(&self, payload: &JsonMap) -> (r: Result<CommandPlan, ExecutorError>)
        requires
            payload.wf(),
        ensures
            match command_plan(payload@) {
                Ok(v) => r is Ok && r->Ok_0@ == v,
                Err(e) => r is Err && r->Err_0@ == e,
            },
            r is Ok ==> payload@.contains_key("command"@) && payload@["command"@] == JsonView::Str(r->Ok_0.command@),
    {
        proof {
            law_command_plan_keeps_payload(payload@);
        }
        let command = match field_command().extract_str(payload) {
            Ok(Some(s)) => string_of(s),
            Ok(None) => String::new(),
            Err(e) => {
                return Err(ExecutorError::from(e));
            },
        };
        let args = match field_args().extract_string_array(payload) {
            Ok(list) => {
                assert(list@.len() == 0 ==> texts(list@) =~= Seq::<Seq<char>>::empty());
                list
            },
            Err(e) => {
                return Err(ExecutorError::from(e));
            },
        };
        let env = match payload.get("env") {
            Some(JsonValue::Object(o)) => match command_env(o) {
                Ok(h) => h,
                Err(e) => {
                    return Err(e);
                },
            },
            _ => Vec::new(),
        };
        let allow_failure = match field_allow_failure().extract(payload) {
            Ok(Some(v)) => match v {
                JsonValue::Bool(b) => b,
                _ => {
                    let failure = crate::template::TemplateValidationFailure::Invalid {
                        name: string_of("allow_failure"),
                        expected: TemplateFieldFormat::Boolean,
                        actual: v,
                    };
                    return Err(ExecutorError::from(failure));
                },
            },
            Ok(None) => false,
            Err(e) => {
                return Err(ExecutorError::from(e));
            },
        };
        proof {
            assert(pair_texts(Seq::<(String, String)>::empty()) =~= Seq::empty());
            assert(texts(Seq::<String>::empty()) =~= Seq::empty());
        }
        Ok(CommandPlan { command, args, env, allow_failure })
    }
}

/// How a signal that ended a program is reported.
pub fn exit_status_message(signal: Option<i32>) -> (r: Option<String>)
    ensures
        match signal {
            Some(s) => r is Some && r->0@ == "Exited with signal "@ + int_text(s as int),
            None => r is None,
        },
{
    match signal {
        Some(s) => {
            let mut m = string_of("Exited with signal ");
            push_int(&mut m, s as i64);
            Some(m)
        },
        None => None,
    }
}

/// The JSON value of an exit code: `null` when there is none.
pub open spec fn exit_code_view(c: Option<i32>) -> JsonView {
    match c {
        Some(c) => if c >= 0 {
            JsonView::Number(NumberView::PosInt(c as nat))
        } else {
            JsonView::Number(NumberView::NegInt(c as int))
        },
        None => JsonView::Null,
    }
}

/// Why a program counts as failed: the signal that ended it, else its exit code.
pub open spec fn failure_message(exitcode: Option<i32>, signal: Option<i32>) -> Seq<char> {
    match signal {
        Some(s) => "Exited with signal "@ + int_text(s as int),
        None => match exitcode {
            Some(c) => "Exited with code "@ + int_text(c as int),
            None => "Exited with unknown error"@,
        },
    }
}

/// What a raw command action returns once its program ended: `{"exitcode", "stderr",
/// "stdout"}`, or, when the program failed and failure is not allowed, a command error that
/// carries that value.
pub fn command_outcome(success: bool, exitcode: Option<i32>, signal: Option<i32>, stdout: String, stderr: String, allow_failure: bool) -> (r: Result<JsonValue, ExecutorError>)
    ensures
        ({
            let out = JsonView::Object(seq![
                ("exitcode"@, exit_code_view(exitcode)),
                ("stderr"@, JsonView::Str(stderr@)),
                ("stdout"@, JsonView::Str(stdout@)),
            ]);
            if !success && !allow_failure {
                r is Err && r->Err_0@ == (ExecutorErrorView::Command { source: failure_message(exitcode, signal), result: out })
            } else {
                r is Ok && r->Ok_0@ == out
            }
        }),
{
    let code = match exitcode {
        Some(c) => if c >= 0 {
            JsonValue::Number(JsonNumber::PosInt(c as u64))
        } else {
            JsonValue::Number(JsonNumber::NegInt(c as i64))
        },
        None => JsonValue::Null,
    };
    let ghost cv = code@;
    let ghost ev = stderr@;
    let ghost ov = stdout@;
    let mut m = JsonMap::new();
    m.insert(string_of("exitcode"), code);
    proof {
        reveal_strlit("exitcode");
        reveal_strlit("stderr");
        reveal_strlit("stdout");
        assert("exitcode"@ != "stderr"@ && "exitcode"@ != "stdout"@) by {
            assert("exitcode"@.len() != "stderr"@.len());
            assert("exitcode"@.len() != "stdout"@.len());
        }
        assert("stderr"@ != "stdout"@) by {
            assert("stderr"@[3] != "stdout"@[3]);
        }
        assert(m.entries_view() =~= seq![("exitcode"@, cv)]);
    }
    m.insert(string_of("stderr"), JsonValue::String(stderr));
    assert(m.entries_view() =~= seq![("exitcode"@, cv), ("stderr"@, JsonView::Str(ev))]);
    m.insert(string_of("stdout"), JsonValue::String(stdout));
    assert(m.entries_view() =~= seq![("exitcode"@, cv), ("stderr"@, JsonView::Str(ev)), ("stdout"@, JsonView::Str(ov))]);
    let out = JsonValue::Object(m);
    if !success && !allow_failure {
        let msg = match exit_status_message(signal) {
            Some(m) => m,
            None => match exitcode {
                Some(c) => {
                    let mut t = string_of("Exited with code ");
                    push_int(&mut t, c as i64);
                    t
                },
                None => string_of("Exited with unknown error"),
            },
        };
        Err(ExecutorError::CommandError { source: msg, result: out })
    } else {
        Ok(out)
    }
}

/// What `chrono::DateTime::parse_from_rfc3339` makes of a text: its instant as whole seconds
/// since the Unix epoch and nanoseconds into that second, or its error message.
pub uninterp spec fn rfc3339_time(s: Seq<char>) -> Result<(i64, u32), Seq<char>>;

/// Reads an RFC 3339 time (`chrono::DateTime::parse_from_rfc3339`, then its `timestamp` and
/// `timestamp_subsec_nanos`). The result is named by `rfc3339_time`, not described.
#[verifier::external_body]
fn parse_rfc3339(s: &str) -> (r: Result<Timestamp, String>)
    ensures
        match r {
            Ok(t) => rfc3339_time(s@) == Ok::<(i64, u32), Seq<char>>(time_pair(t)),
            Err(e) => rfc3339_time(s@) == Err::<(i64, u32), Seq<char>>(e@),
        },
{
    match chrono::DateTime::parse_from_rfc3339(s) {
        Ok(t) => Ok(Timestamp { secs: t.timestamp(), nanos: t.timestamp_subsec_nanos() }),
        Err(e) => Err(e.to_string()),
    }
}

/// An input to send to a task's trigger.
pub struct SendInputRequest {
    /// The text of the task's id.
    pub task: String,
    pub trigger_name: String,
    /// When to send it; now when there is none.
    pub time: Option<Timestamp>,
    pub payload: JsonValue,
}

/// The mathematical form of an input to send.
pub struct SendInputView {
    pub task: Seq<char>,
    pub trigger_name: Seq<char>,
    pub time: Option<(i64, u32)>,
    pub payload: JsonView,
}

impl View for SendInputRequest {
    type V = SendInputView;

    open spec fn view(&self) -> SendInputView {
        SendInputView { task: self.task@, trigger_name: self.trigger_name@, time: match self.time { Some(t) => Some(time_pair(t)), None => None }, payload: self.payload@ }
    }
}

/// The input a send-input action sends with a payload: the task, the trigger, the time of a
/// non-empty `time` text (refused when it is no RFC 3339 time), and the payload (`null` when
/// missing). The first failure in that order is the error.
pub open spec fn send_input_request(p: Map<Seq<char>, JsonView>) -> Result<SendInputView, ExecutorErrorView> {
    match str_or(p, "task"@, false, Seq::empty()) {
        Err(e) => Err(e),
        Ok(task) => match str_or(p, "trigger_name"@, false, Seq::empty()) {
            Err(e) => Err(e),
            Ok(trigger_name) => match str_or(p, "time"@, true, Seq::empty()) {
                Err(e) => Err(e),
                Ok(t) => {
                    let payload = if p.contains_key("payload"@) { p["payload"@] } else { JsonView::Null };
                    if t.len() == 0 {
                        Ok(SendInputView { task, trigger_name, time: None, payload })
                    } else {
                        match rfc3339_time(t) {
                            Ok(at) => Ok(SendInputView { task, trigger_name, time: Some(at), payload }),
                            Err(msg) => Err(ExecutorErrorView::FieldFormat { field: "time"@, subfield: None, expected: msg }),
                        }
                    }
                },
            },
        },
    }
}

impl SendInputExecutor {
    /// The input to send for a payload (see `send_input_request`).
    pub fn request(&self, payload: &JsonMap) -> (r: Result<SendInputRequest, ExecutorError>)
        requires
            payload.wf(),
        ensures
            match send_input_request(payload@) {
                Ok(v) => r is Ok && r->Ok_0@ == v,
                Err(e) => r is Err && r->Err_0@ == e,
            },
    {
        let task = match field_task().extract_str(payload) {
            Ok(Some(s)) => string_of(s),
            Ok(None) => String::new(),
            Err(e) => {
                return Err(ExecutorError::from(e));
            },
        };
        let trigger_name = match field_trigger().extract_str(payload) {
            Ok(Some(s)) => string_of(s),
            Ok(None) => String::new(),
            Err(e) => {
                return Err(ExecutorError::from(e));
            },
        };
        let time_arg = match field_time().extract_str(payload) {
            Ok(Some(s)) => string_of(s),
            Ok(None) => String::new(),
            Err(e) => {
                return Err(ExecutorError::from(e));
            },
        };
        let time = if time_arg.as_str().unicode_len() > 0 {
            match parse_rfc3339(time_arg.as_str()) {
                Ok(ms) => Some(ms),
                Err(msg) => {
                    return Err(ExecutorError::FieldFormatError { field: string_of("time"), subfield: None, expected: msg });
                },
            }
        } else {
            None
        };
        let payload_value = match field_payload().extract_object(payload) {
            Ok(Some(v)) => v.clone_value(),
            _ => JsonValue::Null,
        };
        Ok(SendInputRequest { task, trigger_name, time, payload: payload_value })
    }
}

/// What a send-input action decides before it touches the database. `task_id_error` is what
/// reading the `task` text as a task id gave (its error message, or nothing when it reads):
/// a missing or non-string `task` fails first, then a `task` that is no task id, then the
/// checks of `send_input_request`, and last a missing database.
pub open spec fn send_input_decision(p: Map<Seq<char>, JsonView>, task_id_error: Option<Seq<char>>, has_database: bool) -> Result<SendInputView, ExecutorErrorView> {
    match str_or(p, "task"@, false, Seq::empty()) {
        Err(e) => Err(e),
        Ok(_) => match task_id_error {
            Some(m) => Err(ExecutorErrorView::FieldFormat { field: "task"@, subfield: None, expected: m }),
            None => match send_input_request(p) {
                Err(e) => Err(e),
                Ok(v) => if has_database {
                    Ok(v)
                } else {
                    Err(ExecutorErrorView::MissingDatabase)
                },
            },
        },
    }
}

impl SendInputExecutor {
    /// Decides whether an input can be sent (see `send_input_decision`), given what reading the
    /// `task` text as a task id gave and whether a database is at hand.
    pub fn decide(&self, payload: &JsonMap, task_id_error: Option<String>, has_database: bool) -> (r: Result<SendInputRequest, ExecutorError>)
        requires
            payload.wf(),
        ensures
            match send_input_decision(payload@, match task_id_error { Some(m) => Some(m@), None => None }, has_database) {
                Ok(v) => r is Ok && r->Ok_0@ == v,
                Err(e) => r is Err && r->Err_0@ == e,
            },
    {
        match field_task().extract_str(payload) {
            Ok(_) => {},
            Err(e) => {
                return Err(ExecutorError::from(e));
            },
        }
        match task_id_error {
            Some(m) => {
                return Err(ExecutorError::FieldFormatError { field: string_of("task"), subfield: None, expected: m });
            },
            None => {},
        }
        match self.request(payload) {
            Err(e) => Err(e),
            Ok(req) => if has_database {
                Ok(req)
            } else {
                Err(ExecutorError::MissingDatabase)
            },
        }
    }
}

/// What `url::Url::parse` makes of a text: the serialized URL, or nothing when it is no URL.
pub uninterp spec fn parsed_url(text: Seq<char>) -> Option<Seq<char>>;

/// Parses a URL (`url::Url::parse`) and gives its serialization. The result is named by
/// `parsed_url`, not described.
#[verifier::external_body]
fn parse_url(text: &str) -> (r: Option<String>)
    ensures
        match r {
            Some(u) => parsed_url(text@) == Some(u@),
            None => parsed_url(text@) is None,
        },
{
    match url::Url::parse(text) {
        Ok(u) => Some(u.to_string()),
        Err(_) => None,
    }
}

/// A script to run: the URL it runs under, its text and the arguments it sees as `args`.
pub struct ScriptPlan {
    pub name_url: String,
    pub script: String,
    pub args: JsonValue,
}

/// The mathematical form of a script plan.
pub struct ScriptPlanView {
    pub name_url: Seq<char>,
    pub script: Seq<char>,
    pub args: JsonView,
}

impl View for ScriptPlan {
    type V = ScriptPlanView;

    open spec fn view(&self) -> ScriptPlanView {
        ScriptPlanView { name_url: self.name_url@, script: self.script@, args: self.args@ }
    }
}

/// The script a script action runs with a payload: the name (default `script`), the script,
/// the object `args` (an empty object when missing), and the URL
/// `https://ergo/executor/<name>`, refused when that is no URL.
pub open spec fn script_plan(p: Map<Seq<char>, JsonView>) -> Result<ScriptPlanView, ExecutorErrorView> {
    match str_or(p, "name"@, true, "script"@) {
        Err(e) => Err(e),
        Ok(name) => match str_or(p, "script"@, false, Seq::empty()) {
            Err(e) => Err(e),
            Ok(script) => {
                let args = if p.contains_key("args"@) { p["args"@] } else { JsonView::Object(Seq::empty()) };
                match parsed_url("https://ergo/executor/"@ + name) {
                    Some(u) => Ok(ScriptPlanView { name_url: u, script, args }),
                    None => Err(ExecutorErrorView::FieldFormat { field: "name"@, subfield: None, expected: "A formattable name"@ }),
                }
            },
        },
    }
}

/// A script action runs what its payload gives: the payload's `script` text, and as `args`
/// the payload's `args` value when it has one, else an empty object.
pub proof fn law_script_plan_keeps_payload(p: Map<Seq<char>, JsonView>)
    ensures
        script_plan(p) is Ok ==> {
            let v = script_plan(p)->Ok_0;
            &&& p.contains_key("script"@) && p["script"@] == JsonView::Str(v.script)
            &&& p.contains_key("args"@) ==> v.args == p["args"@]
            &&& !p.contains_key("args"@) ==> v.args == JsonView::Object(Seq::empty())
        },
{
}

/// A command action runs what its payload gives: the payload's `command` text; as arguments
/// the payload's `args` text, or the texts of its `args` array in order, or none when it has
/// no `args`; and fails on error only when its `allow_failure` is not `true`.
pub proof fn law_command_plan_keeps_payload(p: Map<Seq<char>, JsonView>)
    ensures
        command_plan(p) is Ok ==> {
            let v = command_plan(p)->Ok_0;
            &&& p.contains_key("command"@) && p["command"@] == JsonView::Str(v.command)
            &&& !p.contains_key("args"@) ==> v.args.len() == 0
            &&& p.contains_key("args"@) && p["args"@] is Str ==> v.args == seq![p["args"@]->Str_0]
            &&& p.contains_key("args"@) && p["args"@] is Array ==> v.args.len() == p["args"@]->Array_0.len()
                && forall|i: int| 0 <= i < v.args.len() ==> p["args"@]->Array_0[i] == JsonView::Str(#[trigger] v.args[i])
            &&& p.contains_key("allow_failure"@) ==> p["allow_failure"@] == JsonView::Bool(v.allow_failure)
            &&& !p.contains_key("allow_failure"@) ==> !v.allow_failure
        },
{
    if command_plan(p) is Ok && p.contains_key("args"@) && p["args"@] is Array {
        let a = p["args"@]->Array_0;
        let v = command_plan(p)->Ok_0;
        assert(string_list(p["args"@]) == Some(v.args));
        assert forall|i: int| 0 <= i < v.args.len() implies a[i] == JsonView::Str(#[trigger] v.args[i]) by {
            assert(a[i] is Str);
        }
    }
}

impl JsExecutor {
    /// The script to run for a payload (see `script_plan`).
    pub fn plan(&self, payload: &JsonMap) -> (r: Result<ScriptPlan, ExecutorError>)
        requires
            payload.wf(),
        ensures
            match script_plan(payload@) {
                Ok(v) => r is Ok && r->Ok_0@ == v,
                Err(e) => r is Err && r->Err_0@ == e,
            },
            r is Ok && payload@.contains_key("args"@) ==> r->Ok_0.args@ == payload@["args"@],
            r is Ok ==> payload@.contains_key("script"@) && payload@["script"@] == JsonView::Str(r->Ok_0.script@),
    {
        proof {
            law_script_plan_keeps_payload(payload@);
        }
        let name = match field_script_name().extract_str(payload) {
            Ok(Some(s)) => string_of(s),
            Ok(None) => string_of("script"),
            Err(e) => {
                return Err(ExecutorError::from(e));
            },
        };
        let script = match field_script().extract_str(payload) {
            Ok(Some(s)) => string_of(s),
            Ok(None) => String::new(),
            Err(e) => {
                return Err(ExecutorError::from(e));
            },
        };
        let args = match field_script_args().extract_object(payload) {
            Ok(Some(v)) => v.clone_value(),
            _ => {
                let empty = JsonMap::new();
                assert(empty.entries_view() =~= Seq::empty());
                JsonValue::Object(empty)
            },
        };
        let mut text = string_of("https://ergo/executor/");
        push_str(&mut text, name.as_str());
        match parse_url(text.as_str()) {
            Some(u) => Ok(ScriptPlan { name_url: u, script, args }),
            None => Err(ExecutorError::FieldFormatError {
                field: string_of("name"),
                subfield: None,
                expected: string_of("A formattable name"),
            }),
        }
    }
}

/// What a script action returns: `{"console": console, "result": result}`.
pub fn script_output(result: JsonValue, console: JsonValue) -> (r: JsonValue)
    ensures
        r@ == JsonView::Object(seq![("console"@, console@), ("result"@, result@)]),
{
    let ghost rv = result@;
    let ghost cv = console@;
    let mut m = JsonMap::new();
    m.insert(string_of("console"), console);
    proof {
        reveal_strlit("console");
        reveal_strlit("result");
        assert("console"@.len() != "result"@.len());
        assert(m.entries_view() =~= seq![("console"@, cv)]);
    }
    m.insert(string_of("result"), result);
    assert(m.entries_view() =~= seq![("console"@, cv), ("result"@, rv)]);
    JsonValue::Object(m)
}

} // verus!
