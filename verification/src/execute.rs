//! Running an action: reading primitive values out of a payload, the errors of executors,
//! and preparing the values that an executor receives.
use vstd::prelude::*;
use crate::json::{JsonMap, JsonNumber, JsonValue, JsonView, number_text, view_entries, entries_map,
    keys_distinct, insert_entries, lemma_insert_entries, lemma_view_entries, json_text};
use crate::template::{FailureView, TemplateError, TemplateFields, TemplateValidationFailure, ApplyError,
    format_text, field_failures, failure_views, fill_all, validate, validate_and_apply, template_error_text};
use crate::text::{push_decimal, push_int, push_str, string_of};
use crate::actions::ActionStatus;
use crate::time::{Timestamp, before};

verus! {

/// Why an executor could not run.
pub enum ExecutorError {
    MissingFieldError(String),
    FieldFormatError { field: String, subfield: Option<String>, expected: String },
    MissingDatabase,
    /// The command failed; `source` is its error message, `result` what it returned.
    CommandError { source: String, result: JsonValue },
}

/// The mathematical form of an executor error.
pub enum ExecutorErrorView {
    MissingField(Seq<char>),
    FieldFormat { field: Seq<char>, subfield: Option<Seq<char>>, expected: Seq<char> },
    MissingDatabase,
    Command { source: Seq<char>, result: JsonView },
}

/// The text of an optional string.
pub open spec fn opt_text(o: Option<String>) -> Option<Seq<char>> {
    match o {
        Some(s) => Some(s@),
        None => None,
    }
}

impl View for ExecutorError {
    type V = ExecutorErrorView;

    open spec fn view(&self) -> ExecutorErrorView {
        match self {
            ExecutorError::MissingFieldError(f) => ExecutorErrorView::MissingField(f@),
            ExecutorError::FieldFormatError { field, subfield, expected } => ExecutorErrorView::FieldFormat {
                field: field@,
                subfield: opt_text(*subfield),
                expected: expected@,
            },
            ExecutorError::MissingDatabase => ExecutorErrorView::MissingDatabase,
            ExecutorError::CommandError { source, result } => ExecutorErrorView::Command {
                source: source@,
                result: result@,
            },
        }
    }
}

/// A text result seen through the views of its parts.
pub open spec fn text_result(r: Result<String, ExecutorError>) -> Result<Seq<char>, ExecutorErrorView> {
    match r {
        Ok(s) => Ok(s@),
        Err(e) => Err(e@),
    }
}

/// The text that a primitive JSON value stands for in a command or a request: a string is
/// itself, a number or a boolean its JSON text, `null` nothing where missing values are
/// allowed; anything else is refused.
pub open spec fn primitive_text(field: Seq<char>, subfield: Option<Seq<char>>, v: JsonView, allow_missing: bool) -> Result<Seq<char>, ExecutorErrorView> {
    match v {
        JsonView::Str(s) => Ok(s),
        JsonView::Number(n) => Ok(number_text(n)),
        JsonView::Bool(b) => Ok(if b { "true"@ } else { "false"@ }),
        JsonView::Null => if allow_missing {
            Ok(Seq::empty())
        } else {
            Err(ExecutorErrorView::MissingField(field))
        },
        _ => Err(ExecutorErrorView::FieldFormat { field, subfield, expected: "primitive value"@ }),
    }
}

/// The text of a primitive JSON value (see `primitive_text`).
pub fn json_primitive_as_string(field: &str, subfield: Option<&str>, value: &JsonValue, allow_missing: bool) -> (r: Result<String, ExecutorError>)
    ensures
        text_result(r) == primitive_text(field@, match subfield {
            Some(s) => Some(s@),
            None => None,
        }, value@, allow_missing),
{
    match value {
        JsonValue::String(s) => Ok(s.clone()),
        JsonValue::Number(n) => {
            let mut out = String::new();
            match n {
                JsonNumber::PosInt(u) => push_decimal(&mut out, *u),
                JsonNumber::NegInt(i) => push_int(&mut out, *i),
                JsonNumber::Float(t) => push_str(&mut out, t.as_str()),
            }
            assert(out@ =~= number_text(n@));
            Ok(out)
        },
        JsonValue::Bool(b) => {
            let t = if *b { string_of("true") } else { string_of("false") };
            Ok(t)
        },
        JsonValue::Null => if allow_missing {
            Ok(String::new())
        } else {
            Err(ExecutorError::MissingFieldError(string_of(field)))
        },
        _ => {
            let sub = match subfield {
                Some(s) => Some(string_of(s)),
                None => None,
            };
            Err(ExecutorError::FieldFormatError { field: string_of(field), subfield: sub, expected: string_of("primitive value") })
        },
    }
}

/// The text of a named payload value: a missing name behaves as `null`
/// (see `primitive_text`).
pub fn get_primitive_payload_value(values: &JsonMap, name: &str, allow_missing: bool) -> (r: Result<String, ExecutorError>)
    requires
        values.wf(),
    ensures
        text_result(r) == primitive_text(name@, None, if values@.contains_key(name@) {
            values@[name@]
        } else {
            JsonView::Null
        }, allow_missing),
{
    match values.get(name) {
        Some(n) => json_primitive_as_string(name, None, n, allow_missing),
        None => if allow_missing {
            Ok(String::new())
        } else {
            Err(ExecutorError::MissingFieldError(string_of(name)))
        },
    }
}

/// The executor error that a validation failure stands for.
pub open spec fn failure_error(f: FailureView) -> ExecutorErrorView {
    match f {
        FailureView::Required(n) => ExecutorErrorView::MissingField(n),
        FailureView::Invalid { name, expected, .. } => ExecutorErrorView::FieldFormat {
            field: name,
            subfield: None,
            expected: format_text(expected),
        },
    }
}

impl ExecutorError {
    /// A command error that carries no result.
    pub fn command_error_without_result(err: String) -> (r: ExecutorError)
        ensures
            r@ == (ExecutorErrorView::Command { source: err@, result: JsonView::Null }),
    {
        ExecutorError::CommandError { source: err, result: JsonValue::Null }
    }

    /// The executor error for a validation failure: a missing field, or a field of the wrong
    /// format.
    pub fn from(e: TemplateValidationFailure) -> (r: ExecutorError)
        ensures
            r@ == failure_error(e@),
    {
        match e {
            TemplateValidationFailure::Required(s) => ExecutorError::MissingFieldError(s),
            TemplateValidationFailure::Invalid { name, expected, .. } => ExecutorError::FieldFormatError {
                field: name,
                expected: expected.to_string(),
                subfield: None,
            },
        }
    }

    /// How this error is reported to people.
    pub fn to_string(&self) -> (r: String)
        ensures
            r@ == executor_error_text(self@),
    {
        let mut out = String::new();
        match self {
            ExecutorError::MissingFieldError(f) => {
                push_str(&mut out, "Missing field ");
                push_str(&mut out, f.as_str());
            },
            ExecutorError::FieldFormatError { field, subfield, expected } => {
                push_str(&mut out, "Expected field ");
                push_str(&mut out, field.as_str());
                match subfield {
                    Some(s) => {
                        push_str(&mut out, "[");
                        push_str(&mut out, s.as_str());
                        push_str(&mut out, "]");
                    },
                    None => {},
                }
                push_str(&mut out, " to be a ");
                push_str(&mut out, expected.as_str());
            },
            ExecutorError::MissingDatabase => {
                push_str(&mut out, "Executor requires database connection but none was provided");
            },
            ExecutorError::CommandError { source, .. } => {
                push_str(&mut out, "Error during command execution: ");
                push_str(&mut out, source.as_str());
            },
        }
        assert(out@ =~= executor_error_text(self@));
        out
    }
}

/// How an executor error is reported to people.
pub open spec fn executor_error_text(e: ExecutorErrorView) -> Seq<char> {
    match e {
        ExecutorErrorView::MissingField(f) => "Missing field "@ + f,
        ExecutorErrorView::FieldFormat { field, subfield, expected } => "Expected field "@ + field
            + match subfield {
            Some(s) => "["@ + s + "]"@,
            None => Seq::empty(),
        } + " to be a "@ + expected,
        ExecutorErrorView::MissingDatabase => "Executor requires database connection but none was provided"@,
        ExecutorErrorView::Command { source, .. } => "Error during command execution: "@ + source,
    }
}

/// What an executor is handed: a fixed template of values, or a script that computes them.
pub enum ScriptOrTemplate {
    Template(Vec<(String, JsonValue)>),
    Script(String),
}

/// What is known of an action when it is prepared for its executor.
pub struct PrepareInvocationAction {
    pub action_id: String,
    pub action_template_fields: TemplateFields,
    pub action_executor_template: ScriptOrTemplate,
    pub task_action_template: Option<Vec<(String, JsonValue)>>,
    pub executor_id: String,
    pub account_required: bool,
    pub account_id: Option<String>,
    pub account_fields: Option<Vec<(String, JsonValue)>>,
    pub account_expires: Option<Timestamp>,
}

/// Why an action could not run.
pub enum ExecuteErrorSource {
    TemplateError(TemplateError),
    /// A script failed with this message.
    ScriptError(String),
    ExecutorError(ExecutorError),
    MissingExecutor(String),
    AccountRequired,
    AccountExpired(String),
    /// The database failed with this message.
    SqlError(String),
}

/// An action's failure, with the task and the task action it belongs to.
pub struct ExecuteError {
    pub task_id: String,
    pub task_action_local_id: String,
    pub task_action_name: String,
    pub error: ExecuteErrorSource,
}

impl ExecuteError {
    /// The failure of the given task action.
    pub fn from_action_and_error(task_id: &str, task_action_local_id: &str, task_action_name: &str, error: ExecuteErrorSource) -> (r: ExecuteError)
        ensures
            r.task_id@ == task_id@,
            r.task_action_local_id@ == task_action_local_id@,
            r.task_action_name@ == task_action_name@,
            r.error == error,
    {
        ExecuteError {
            task_id: string_of(task_id),
            task_action_local_id: string_of(task_action_local_id),
            task_action_name: string_of(task_action_name),
            error,
        }
    }
}

/// The entries of an optional list, as mathematical values.
pub open spec fn opt_entries(o: Option<Vec<(String, JsonValue)>>) -> Option<Seq<(Seq<char>, JsonView)>> {
    match o {
        Some(v) => Some(view_entries(v@)),
        None => None,
    }
}

/// Why an account keeps an action from running: one is required and none is set, or the set
/// one expired before `now`.
pub enum AccountProblem {
    Required,
    Expired(Seq<char>),
}

/// The account problem of an action at time `now`, if any.
pub open spec fn account_problem(required: bool, account_id: Option<Seq<char>>, expires: Option<Timestamp>, now: Timestamp) -> Option<AccountProblem> {
    if required && account_id is None {
        Some(AccountProblem::Required)
    } else if account_id is Some && expires is Some && before(expires->0, now) {
        Some(AccountProblem::Expired(account_id->0))
    } else {
        None
    }
}

/// The values an action runs with, in entry order: the task action's template, then the
/// invocation payload's entries when it is an object, then the account's fields, each entry
/// set over what came before.
pub open spec fn merged_entries(template: Option<Seq<(Seq<char>, JsonView)>>, payload: JsonView, account: Option<Seq<(Seq<char>, JsonView)>>) -> Seq<(Seq<char>, JsonView)> {
    let base = match template {
        Some(t) => insert_entries(Seq::empty(), t),
        None => Seq::empty(),
    };
    let with_payload = match payload {
        JsonView::Object(o) => insert_entries(base, o),
        _ => base,
    };
    match account {
        Some(a) => insert_entries(with_payload, a),
        None => with_payload,
    }
}

/// The same values as a map: the account's fields win over the payload, which wins over the
/// task action's template.
pub open spec fn merged_payload(template: Option<Seq<(Seq<char>, JsonView)>>, payload: JsonView, account: Option<Seq<(Seq<char>, JsonView)>>) -> Map<Seq<char>, JsonView> {
    let base = match template {
        Some(t) => entries_map(t),
        None => Map::empty(),
    };
    let with_payload = match payload {
        JsonView::Object(o) => base.union_prefer_right(entries_map(o)),
        _ => base,
    };
    match account {
        Some(a) => with_payload.union_prefer_right(entries_map(a)),
        None => with_payload,
    }
}

/// Builds the values an action runs with (see `merged_entries`).
pub fn merge_action_payload(task_action_template: &Option<Vec<(String, JsonValue)>>, invocation_payload: &JsonValue, account_fields: &Option<Vec<(String, JsonValue)>>) -> (r: JsonMap)
    ensures
        r.wf(),
        r.entries_view() == merged_entries(opt_entries(*task_action_template), invocation_payload@, opt_entries(*account_fields)),
        r@ == merged_payload(opt_entries(*task_action_template), invocation_payload@, opt_entries(*account_fields)),
{
    let mut out = JsonMap::new();
    let ghost e0 = out.entries_view();
    assert(e0 =~= Seq::<(Seq<char>, JsonView)>::empty());
    match task_action_template {
        Some(t) => out.extend_from(t),
        None => {},
    }
    let ghost e1 = out.entries_view();
    match invocation_payload {
        JsonValue::Object(o) => out.extend_from(&o.entries),
        _ => {},
    }
    let ghost e2 = out.entries_view();
    match account_fields {
        Some(a) => out.extend_from(a),
        None => {},
    }
    proof {
        let t = opt_entries(*task_action_template);
        let a = opt_entries(*account_fields);
        let p = invocation_payload@;
        lemma_merged_payload(t, p, a);
    }
    out
}

/// The entries of `merged_entries` have distinct keys and denote `merged_payload`.
pub proof fn lemma_merged_payload(template: Option<Seq<(Seq<char>, JsonView)>>, payload: JsonView, account: Option<Seq<(Seq<char>, JsonView)>>)
    ensures
        keys_distinct(merged_entries(template, payload, account)),
        entries_map(merged_entries(template, payload, account)) == merged_payload(template, payload, account),
{
    let empty = Seq::<(Seq<char>, JsonView)>::empty();
    assert(entries_map(empty) =~= Map::<Seq<char>, JsonView>::empty());
    let base = match template {
        Some(t) => insert_entries(empty, t),
        None => empty,
    };
    match template {
        Some(t) => {
            lemma_insert_entries(empty, t);
            assert(Map::<Seq<char>, JsonView>::empty().union_prefer_right(entries_map(t)) =~= entries_map(t));
        },
        None => {},
    }
    let with_payload = match payload {
        JsonView::Object(o) => insert_entries(base, o),
        _ => base,
    };
    match payload {
        JsonView::Object(o) => lemma_insert_entries(base, o),
        _ => {},
    }
    match account {
        Some(a) => lemma_insert_entries(with_payload, a),
        None => {},
    }
}

/// The values an action runs with give each name the account's field when the account has
/// one, else the invocation payload's value when the payload is an object that has one, else
/// the task action template's value.
pub proof fn law_merge_precedence(template: Option<Seq<(Seq<char>, JsonView)>>, payload: JsonView, account: Option<Seq<(Seq<char>, JsonView)>>, k: Seq<char>)
    ensures
        ({
            let m = merged_payload(template, payload, account);
            if account is Some && entries_map(account->0).contains_key(k) {
                m.contains_key(k) && m[k] == entries_map(account->0)[k]
            } else if payload is Object && entries_map(payload->Object_0).contains_key(k) {
                m.contains_key(k) && m[k] == entries_map(payload->Object_0)[k]
            } else if template is Some && entries_map(template->0).contains_key(k) {
                m.contains_key(k) && m[k] == entries_map(template->0)[k]
            } else {
                !m.contains_key(k)
            }
        }),
{
}

/// What preparing an action gives its executor.
pub enum Preparation {
    /// The executor's values, checked against its fields.
    Values(JsonMap),
    /// The action's executor template is a script: it is to run with `args` bound to these
    /// values, and what it returns goes to `finish_script_preparation`.
    Script { script: String, args: JsonMap },
}

/// The error is a validation failure of the given object and id, with these failures.
pub open spec fn is_validation_error(e: ExecuteErrorSource, object: Seq<char>, id: Seq<char>, failures: Seq<FailureView>) -> bool {
    e matches ExecuteErrorSource::TemplateError(TemplateError::Validation(v))
        && v.object@ == object && v.id@ == id && failure_views(v.fields@) == failures
}

/// The outcome of checking values against an executor's fields.
pub open spec fn executor_checked(r: Result<JsonMap, ExecuteErrorSource>, executor_id: Seq<char>, fields: Seq<crate::template::TemplateField>, values: Map<Seq<char>, JsonView>) -> bool {
    let failures = field_failures(fields, values);
    if failures.len() > 0 {
        r is Err && is_validation_error(r->Err_0, "executor"@, executor_id, failures)
    } else {
        r is Ok && r->Ok_0.wf() && r->Ok_0@ == values
    }
}

/// Checks values against the executor's fields.
fn check_executor_values(executor_id: &str, executor_fields: &TemplateFields, values: JsonMap) -> (r: Result<JsonMap, ExecuteErrorSource>)
    requires
        values.wf(),
    ensures
        executor_checked(r, executor_id@, executor_fields.0@, values@),
{
    match validate("executor", Some(executor_id), executor_fields, &values) {
        Ok(()) => Ok(values),
        Err(e) => Err(ExecuteErrorSource::TemplateError(e)),
    }
}

/// What preparing an action at time `now` gives: an account problem; for a template, the
/// action's own field check, the filled template, and the executor's field check; for a
/// script, the script and the merged values it runs with.
pub open spec fn prepare_outcome(r: Result<Preparation, ExecuteErrorSource>, executor_fields: Seq<crate::template::TemplateField>, payload: JsonView, action: PrepareInvocationAction, now: Timestamp) -> bool {
    match account_problem(action.account_required, opt_text(action.account_id), action.account_expires, now) {
        Some(AccountProblem::Required) => r is Err && r->Err_0 is AccountRequired,
        Some(AccountProblem::Expired(id)) => r is Err && (r->Err_0 matches ExecuteErrorSource::AccountExpired(i) && i@ == id),
        None => {
            let m = merged_entries(opt_entries(action.task_action_template), payload, opt_entries(action.account_fields));
            let values = entries_map(m);
            match action.action_executor_template {
                ScriptOrTemplate::Script(s) => r is Ok && (r->Ok_0 matches Preparation::Script { script, args }
                    && script@ == s@ && args.wf() && args.entries_view() == m),
                ScriptOrTemplate::Template(t) => {
                    let failures = field_failures(action.action_template_fields.0@, values);
                    if failures.len() > 0 {
                        r is Err && is_validation_error(r->Err_0, "action"@, action.action_id@, failures)
                    } else {
                        match fill_all(view_entries(t@), values, json_text(JsonView::Object(m))) {
                            Err(ApplyError::Render(msg)) => r is Err && (r->Err_0 matches ExecuteErrorSource::TemplateError(TemplateError::Render(x)) && x@ == msg),
                            Err(ApplyError::MissingValue(n)) => r is Err && (r->Err_0 matches ExecuteErrorSource::TemplateError(TemplateError::MissingValue(x)) && x@ == n),
                            Ok(out) => {
                                let ef = field_failures(executor_fields, out);
                                if ef.len() > 0 {
                                    r is Err && is_validation_error(r->Err_0, "executor"@, action.executor_id@, ef)
                                } else {
                                    r is Ok && (r->Ok_0 matches Preparation::Values(v) && v.wf() && v@ == out)
                                }
                            },
                        }
                    }
                },
            }
        },
    }
}

/// Prepares an action for its executor at time `now` (see `prepare_outcome`).
pub fn validate_and_prepare_at(executor_fields: &TemplateFields, invocation_payload: &JsonValue, action: &PrepareInvocationAction, now: Timestamp) -> (r: Result<Preparation, ExecuteErrorSource>)
    ensures
        prepare_outcome(r, executor_fields.0@, invocation_payload@, *action, now),
{
    if action.account_required && action.account_id.is_none() {
        return Err(ExecuteErrorSource::AccountRequired);
    }
    match (&action.account_id, action.account_expires) {
        (Some(id), Some(expires)) => {
            if expires.is_before(&now) {
                return Err(ExecuteErrorSource::AccountExpired(id.clone()));
            }
        },
        _ => {},
    }
    let merged = merge_action_payload(&action.task_action_template, invocation_payload, &action.account_fields);
    match &action.action_executor_template {
        ScriptOrTemplate::Script(s) => Ok(Preparation::Script { script: s.clone(), args: merged }),
        ScriptOrTemplate::Template(t) => {
            match validate_and_apply("action", action.action_id.as_str(), &action.action_template_fields, t, &merged) {
                Ok(values) => match check_executor_values(action.executor_id.as_str(), executor_fields, values) {
                    Ok(v) => Ok(Preparation::Values(v)),
                    Err(e) => Err(e),
                },
                Err(e) => Err(ExecuteErrorSource::TemplateError(e)),
            }
        },
    }
}

/// Prepares an action for its executor now: the outcome is that of `validate_and_prepare_at`
/// at the time read from the clock.
pub fn validate_and_prepare_invocation(executor_fields: &TemplateFields, invocation_payload: &JsonValue, action: &PrepareInvocationAction) -> (r: Result<Preparation, ExecuteErrorSource>)
    ensures
        exists|now: Timestamp| prepare_outcome(r, executor_fields.0@, invocation_payload@, *action, now),
{
    let now = crate::time::now();
    validate_and_prepare_at(executor_fields, invocation_payload, action, now)
}

/// Completes the preparation of a script action with what the script returned: its values,
/// checked against the executor's fields, or its error message.
pub fn finish_script_preparation(executor_id: &str, executor_fields: &TemplateFields, script_result: Result<JsonMap, String>) -> (r: Result<JsonMap, ExecuteErrorSource>)
    requires
        script_result is Ok ==> script_result->Ok_0.wf(),
    ensures
        match script_result {
            Ok(values) => executor_checked(r, executor_id@, executor_fields.0@, values@),
            Err(msg) => r is Err && (r->Err_0 matches ExecuteErrorSource::ScriptError(m) && m@ == msg@),
        },
{
    match script_result {
        Ok(values) => check_executor_values(executor_id, executor_fields, values),
        Err(msg) => Err(ExecuteErrorSource::ScriptError(msg)),
    }
}

/// What an action returns once its postprocess script ran: the script's value, unless the
/// script returned `null`, in which case the executor's own result.
pub fn postprocessed_result(result: JsonValue, processed: JsonValue) -> (r: JsonValue)
    ensures
        r == (if processed@ is Null { result } else { processed }),
{
    if processed.is_null() {
        result
    } else {
        processed
    }
}

/// A postprocess script to run: its text and the arguments it sees as variables.
pub struct PostprocessPlan {
    pub script: String,
    /// An object whose members become the script's variables.
    pub args: JsonValue,
}

/// What comes after the executor returned a result: the action's result as it is, or a
/// postprocess script to run first.
pub enum AfterExecutor {
    Done(JsonValue),
    /// Run this script; its outcome goes to `postprocess_outcome` with the executor's result.
    RunScript(PostprocessPlan),
}

/// The plan of a postprocess script: it sees the executor's result as `result` and the
/// invocation's payload as `payload`.
pub fn postprocess_plan(script: &String, result: &JsonValue, payload: &JsonValue) -> (r: PostprocessPlan)
    ensures
        r.script@ == script@,
        r.args@ == JsonView::Object(seq![("result"@, result@), ("payload"@, payload@)]),
{
    let mut m = JsonMap::new();
    m.insert(string_of("result"), result.clone_value());
    proof {
        reveal_strlit("result");
        reveal_strlit("payload");
        assert("result"@.len() != "payload"@.len());
        assert(m.entries_view() =~= seq![("result"@, result@)]);
    }
    m.insert(string_of("payload"), payload.clone_value());
    assert(m.entries_view() =~= seq![("result"@, result@), ("payload"@, payload@)]);
    PostprocessPlan { script: script.clone(), args: JsonValue::Object(m) }
}

/// What follows an executor's result: without a postprocess script the result is the
/// action's result; with one, the script runs first (see `postprocess_plan`).
pub fn after_executor(postprocess_script: &Option<String>, result: JsonValue, payload: &JsonValue) -> (r: AfterExecutor)
    ensures
        match postprocess_script {
            None => r == AfterExecutor::Done(result),
            Some(s) => r matches AfterExecutor::RunScript(p) && p.script@ == s@
                && p.args@ == JsonView::Object(seq![("result"@, result@), ("payload"@, payload@)]),
        },
{
    match postprocess_script {
        None => AfterExecutor::Done(result),
        Some(s) => AfterExecutor::RunScript(postprocess_plan(s, &result, payload)),
    }
}

/// The action's result once its postprocess script ran: a script that threw fails the action
/// with a `ScriptError`; otherwise its value replaces the executor's result unless it is
/// `null` (see `postprocessed_result`).
pub fn postprocess_outcome(result: JsonValue, script_result: Result<JsonValue, String>) -> (r: Result<JsonValue, ExecuteErrorSource>)
    ensures
        match script_result {
            Err(m) => r is Err && (r->Err_0 matches ExecuteErrorSource::ScriptError(x) && x@ == m@),
            Ok(v) => r == Ok::<JsonValue, ExecuteErrorSource>(if v@ is Null { result } else { v }),
        },
{
    match script_result {
        Err(m) => Err(ExecuteErrorSource::ScriptError(m)),
        Ok(v) => Ok(postprocessed_result(result, v)),
    }
}

/// The user an action runs as: the action's own `run_as` user when it has one, else the user
/// of the invocation.
pub fn run_as_user(run_as: &Option<String>, invocation_user: &String) -> (r: String)
    ensures
        r@ == (match run_as {
            Some(u) => u@,
            None => invocation_user@,
        }),
{
    match run_as {
        Some(u) => u.clone(),
        None => invocation_user.clone(),
    }
}

/// What the action log records of a finished run: success with `{"output": result}`, or an
/// error with `{"error": message, "info": details}`.
pub fn action_log_entry(result: Result<JsonValue, (String, String)>) -> (r: (ActionStatus, JsonValue))
    ensures
        match result {
            Ok(v) => r.0 == ActionStatus::Success && r.1@ == JsonView::Object(seq![("output"@, v@)]),
            Err((message, info)) => r.0 == ActionStatus::Error && r.1@ == JsonView::Object(seq![
                ("error"@, JsonView::Str(message@)),
                ("info"@, JsonView::Str(info@)),
            ]),
        },
{
    match result {
        Ok(v) => {
            let ghost vv = v@;
            let mut m = JsonMap::new();
            m.insert(string_of("output"), v);
            assert(m.entries_view() =~= seq![("output"@, vv)]);
            (ActionStatus::Success, JsonValue::Object(m))
        },
        Err((message, info)) => {
            let mut m = JsonMap::new();
            m.insert(string_of("error"), JsonValue::String(message));
            proof {
                reveal_strlit("error");
                reveal_strlit("info");
                assert("error"@.len() != "info"@.len());
                assert(m.entries_view() =~= seq![("error"@, JsonView::Str(message@))]);
            }
            m.insert(string_of("info"), JsonValue::String(info));
            assert(m.entries_view() =~= seq![("error"@, JsonView::Str(message@)), ("info"@, JsonView::Str(info@))]);
            (ActionStatus::Error, JsonValue::Object(m))
        },
    }
}

/// How an action failure's cause is reported to people.
pub open spec fn source_text(e: ExecuteErrorSource) -> Seq<char> {
    match e {
        ExecuteErrorSource::TemplateError(t) => template_error_text(t),
        ExecuteErrorSource::ScriptError(m) => "Script error: "@ + m@,
        ExecuteErrorSource::ExecutorError(x) => executor_error_text(x@),
        ExecuteErrorSource::MissingExecutor(id) => "Unknown executor "@ + id@,
        ExecuteErrorSource::AccountRequired => "Action requires an account"@,
        ExecuteErrorSource::AccountExpired(id) => "Account "@ + id@ + " is expired"@,
        ExecuteErrorSource::SqlError(_) => "SQL Error"@,
    }
}

impl ExecuteErrorSource {
    /// How this error is reported to people.
    pub fn to_string(&self) -> (r: String)
        ensures
            r@ == source_text(*self),
    {
        let mut out = String::new();
        match self {
            ExecuteErrorSource::TemplateError(t) => {
                return t.to_string();
            },
            ExecuteErrorSource::ScriptError(m) => {
                push_str(&mut out, "Script error: ");
                push_str(&mut out, m.as_str());
            },
            ExecuteErrorSource::ExecutorError(x) => {
                return x.to_string();
            },
            ExecuteErrorSource::MissingExecutor(id) => {
                push_str(&mut out, "Unknown executor ");
                push_str(&mut out, id.as_str());
            },
            ExecuteErrorSource::AccountRequired => {
                push_str(&mut out, "Action requires an account");
            },
            ExecuteErrorSource::AccountExpired(id) => {
                push_str(&mut out, "Account ");
                push_str(&mut out, id.as_str());
                push_str(&mut out, " is expired");
            },
            ExecuteErrorSource::SqlError(_) => {
                push_str(&mut out, "SQL Error");
            },
        }
        assert(out@ =~= source_text(*self));
        out
    }
}

impl ExecuteError {
    /// How this error is reported to people: the task action's name, the task and the local
    /// id, then the cause.
    pub fn to_string(&self) -> (r: String)
        ensures
            r@ == "Action "@ + self.task_action_name@ + " ("@ + self.task_id@ + ":"@ + self.task_action_local_id@
                + "): "@ + source_text(self.error),
    {
        let mut out = string_of("Action ");
        push_str(&mut out, self.task_action_name.as_str());
        push_str(&mut out, " (");
        push_str(&mut out, self.task_id.as_str());
        push_str(&mut out, ":");
        push_str(&mut out, self.task_action_local_id.as_str());
        push_str(&mut out, "): ");
        let e = self.error.to_string();
        push_str(&mut out, e.as_str());
        out
    }
}

} // verus!
