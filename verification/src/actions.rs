//! Actions: what a task can do, and the state of one run of an action.
use vstd::prelude::*;
use crate::error::{ActionValidateError, ActionValidateErrors};
use crate::execute::ScriptOrTemplate;
use crate::executors::{executor_registry_get, executor_names, executor_name, executor_fields, fields_spec};
use crate::json::{JsonMap, JsonView, entries_map, view_entries};
use crate::template::{TemplateError, TemplateFields, TemplateField, FailureView, field_failures, failure_views, validate};
use crate::text::string_of;

verus! {

/// The state of one run of an action.
#[derive(Clone, Copy, Debug, PartialEq, Eq, Structural)]
pub enum ActionStatus {
    Success,
    Pending,
    Running,
    Error,
}

/// A kind of account that actions can require, and the fields it holds.
pub struct AccountType {
    pub account_type_id: String,
    pub name: String,
    pub description: Option<String>,
    pub fields: Vec<String>,
}

/// An action: an executor and how the action's values become the executor's.
pub struct Action {
    pub action_id: String,
    pub action_category_id: String,
    pub name: String,
    pub description: Option<String>,
    pub executor_id: String,
    pub executor_template: ScriptOrTemplate,
    pub template_fields: TemplateFields,
    pub timeout: Option<i32>,
    /// A script that processes the executor's JSON result.
    /// The result is exposed in the variable `result` and the action's payload
    /// is exposed as `payload`. The value returned will replace the executor's
    /// return value, or an error can be thrown to mark the action as failed.
    pub postprocess_script: Option<String>,
    pub account_required: bool,
    pub account_types: Vec<String>,
}

/// Where checking an action stands.
pub enum ActionCheck {
    /// The action is valid.
    Valid,
    /// The action's executor template is a script: its values, once it ran, go to
    /// `Action::finish_validate`.
    RunScript(String),
}

/// The outcome of checking values against the fields of the executor with the given name.
pub open spec fn values_checked(r: Result<(), ActionValidateErrors>, action_id: Seq<char>, fields: Seq<TemplateField>, values: Map<Seq<char>, JsonView>) -> bool {
    let failures = field_failures(fields, values);
    if failures.len() == 0 {
        r is Ok
    } else {
        r is Err && r->Err_0.0@.len() == 1 && (r->Err_0.0@[0] matches ActionValidateError::TemplateError(TemplateError::Validation(e))
            && e.object@ == "action"@ && e.id@ == action_id && failure_views(e.fields@) == failures)
    }
}

/// A check's outcome without what it goes on with.
pub open spec fn unit_result(r: Result<ActionCheck, ActionValidateErrors>) -> Result<(), ActionValidateErrors> {
    match r {
        Ok(_) => Ok(()),
        Err(e) => Err(e),
    }
}

impl Action {
    /// Checks the action: its executor must be registered, and for a fixed template the values
    /// (a later entry with the same name winning) must fit the executor's fields. For a script
    /// the check goes on in `finish_validate` with what the script returned.
    pub fn validate(&self) -> (r: Result<ActionCheck, ActionValidateErrors>)
        ensures
            !executor_names().contains(self.executor_id@) ==> r is Err && r->Err_0.0@.len() == 1
                && (r->Err_0.0@[0] matches ActionValidateError::UnknownExecutor(id) && id@ == self.executor_id@),
            executor_names().contains(self.executor_id@) ==> match self.executor_template {
                ScriptOrTemplate::Script(s) => r is Ok && (r->Ok_0 matches ActionCheck::RunScript(t) && t@ == s@),
                ScriptOrTemplate::Template(t) => (r is Ok ==> r->Ok_0 is Valid) && values_checked(unit_result(r),
                    self.action_id@, registered_fields(self.executor_id@), entries_map(view_entries(t@))),
            },
    {
        let executor = match executor_registry_get(self.executor_id.as_str()) {
            Some(e) => e,
            None => {
                return Err(ActionValidateErrors::from(ActionValidateError::UnknownExecutor(self.executor_id.clone())));
            },
        };
        match &self.executor_template {
            ScriptOrTemplate::Script(s) => Ok(ActionCheck::RunScript(s.clone())),
            ScriptOrTemplate::Template(t) => {
                let values = JsonMap::from_entries(t);
                match self.check_values(&executor, &values) {
                    Ok(()) => Ok(ActionCheck::Valid),
                    Err(e) => Err(e),
                }
            },
        }
    }

    fn check_values(&self, executor: &crate::executors::Executor, values: &JsonMap) -> (r: Result<(), ActionValidateErrors>)
        requires
            values.wf(),
        ensures
            values_checked(r, self.action_id@, registered_fields(executor_name(*executor)), values@),
    {
        let fields = executor.template_fields();
        proof {
            lemma_registered_fields(*executor, fields.0@);
        }
        match validate("action", Some(self.action_id.as_str()), fields, values) {
            Ok(()) => Ok(()),
            Err(e) => Err(ActionValidateErrors::from(ActionValidateError::TemplateError(e))),
        }
    }

    /// Finishes checking a script action with what its script returned: its values must fit
    /// the executor's fields; a script failure is a `ScriptError`.
    pub fn finish_validate(&self, script_result: Result<JsonMap, String>) -> (r: Result<(), ActionValidateErrors>)
        requires
            script_result is Ok ==> script_result->Ok_0.wf(),
        ensures
            !executor_names().contains(self.executor_id@) ==> r is Err && r->Err_0.0@.len() == 1
                && (r->Err_0.0@[0] matches ActionValidateError::UnknownExecutor(id) && id@ == self.executor_id@),
            executor_names().contains(self.executor_id@) ==> match script_result {
                Err(m) => r is Err && r->Err_0.0@.len() == 1 && (r->Err_0.0@[0] matches ActionValidateError::ScriptError(x) && x@ == m@),
                Ok(values) => values_checked(r, self.action_id@, registered_fields(self.executor_id@), values@),
            },
    {
        let executor = match executor_registry_get(self.executor_id.as_str()) {
            Some(e) => e,
            None => {
                return Err(ActionValidateErrors::from(ActionValidateError::UnknownExecutor(self.executor_id.clone())));
            },
        };
        match script_result {
            Ok(values) => self.check_values(&executor, &values),
            Err(m) => Err(ActionValidateErrors::from(ActionValidateError::ScriptError(m))),
        }
    }
}

/// The fields of the executor registered under a name, as plain values.
pub open spec fn named_fields(id: Seq<char>) -> Seq<(Seq<char>, crate::template::FormatView, bool, Option<Seq<char>>)> {
    if id == "http"@ {
        crate::executors::http_fields()
    } else if id == "raw_command"@ {
        crate::executors::raw_command_fields()
    } else if id == "js"@ {
        crate::executors::js_fields()
    } else {
        crate::executors::send_input_fields()
    }
}

/// Template fields whose plain values are those of the executor registered under a name.
pub open spec fn registered_fields(id: Seq<char>) -> Seq<TemplateField> {
    choose|f: Seq<TemplateField>| fields_spec(f) == named_fields(id)
}

/// An executor's own fields fail exactly as `registered_fields` of its name.
pub proof fn lemma_registered_fields(k: crate::executors::Executor, f: Seq<TemplateField>)
    requires
        fields_spec(f) == executor_fields(k),
    ensures
        forall|values: Map<Seq<char>, JsonView>| #[trigger] field_failures(f, values) == field_failures(registered_fields(executor_name(k)), values),
{
    reveal_strlit("http");
    reveal_strlit("raw_command");
    reveal_strlit("js");
    reveal_strlit("send_input");
    assert("http"@.len() == 4 && "raw_command"@.len() == 11 && "js"@.len() == 2 && "send_input"@.len() == 10);
    assert(named_fields(executor_name(k)) == executor_fields(k));
    let g = registered_fields(executor_name(k));
    assert(fields_spec(g) == executor_fields(k));
    assert forall|values: Map<Seq<char>, JsonView>| #[trigger] field_failures(f, values) == field_failures(g, values) by {
        lemma_same_fields_same_failures(f, g, values);
    }
}

/// Two field lists with the same plain values give the same failures.
pub proof fn lemma_same_fields_same_failures(f: Seq<TemplateField>, g: Seq<TemplateField>, values: Map<Seq<char>, JsonView>)
    requires
        fields_spec(f) == fields_spec(g),
    ensures
        field_failures(f, values) == field_failures(g, values),
    decreases f.len(),
{
    assert(fields_spec(f).len() == f.len());
    assert(fields_spec(g).len() == g.len());
    if f.len() > 0 {
        assert(fields_spec(f.drop_last()) =~= fields_spec(f).drop_last());
        assert(fields_spec(g.drop_last()) =~= fields_spec(g).drop_last());
        lemma_same_fields_same_failures(f.drop_last(), g.drop_last(), values);
        assert(fields_spec(f)[f.len() - 1] == fields_spec(g)[g.len() - 1]);
    }
}

/// One run of a task action, as it is queued.
pub struct ActionInvocation {
    pub task_id: String,
    pub task_action_local_id: String,
    pub actions_log_id: String,
    pub input_arrival_id: Option<String>,
    pub user_id: String,
    pub payload: crate::json::JsonValue,
}

/// A fresh random id in the text form of a UUID (`uuid::Uuid::new_v4`). Nothing is stated of
/// it: it is random.
#[verifier::external_body]
pub(crate) fn new_uuid() -> (r: String) {
    uuid::Uuid::new_v4().to_string()
}

} // verus!
