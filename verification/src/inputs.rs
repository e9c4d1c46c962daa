//! Inputs: what a trigger carries to a task, how its payload is checked, and the queue it
//! waits in.
use vstd::prelude::*;
use crate::error::Error;
use crate::json::{JsonValue, JsonView, json_text, to_json_text};
use crate::template::texts;
use crate::text::{push_str, string_of};

verus! {

/// The state of one arrival of an input.
#[derive(Clone, Copy, Debug, PartialEq, Eq, Structural)]
pub enum InputStatus {
    Pending,
    Success,
    Error,
}

/// A kind of input, and the schema its payloads must meet.
pub struct Input {
    pub input_id: String,
    pub input_category_id: Option<String>,
    pub name: String,
    pub description: Option<String>,
    pub payload_schema: JsonValue,
}

/// One arrival of an input at a task's trigger.
pub struct InputInvocation {
    pub task_id: String,
    pub task_trigger_id: String,
    pub input_id: String,
    pub inputs_log_id: String,
    pub payload: JsonValue,
    pub user_id: String,
}

/// The name of the queue that inputs wait in: `er-input`, after the key prefix and a dash
/// when there is one.
pub open spec fn queue_name_text(prefix: Option<Seq<char>>) -> Seq<char> {
    match prefix {
        Some(p) => p + "-"@ + "er-input"@,
        None => "er-input"@,
    }
}

/// The name of the queue that inputs wait in (see `queue_name_text`).
pub fn input_queue_name(redis_key_prefix: Option<&str>) -> (r: String)
    ensures
        r@ == queue_name_text(match redis_key_prefix {
            Some(p) => Some(p@),
            None => None,
        }),
{
    match redis_key_prefix {
        Some(p) => {
            let mut out = string_of(p);
            push_str(&mut out, "-");
            push_str(&mut out, "er-input");
            out
        },
        None => string_of("er-input"),
    }
}

/// What `jsonschema` makes of a payload against a schema, both given as JSON text: nothing
/// when the payload meets the schema, else the messages of the violations (or the one message
/// of a schema that does not compile).
pub uninterp spec fn schema_check(schema_json: Seq<char>, payload_json: Seq<char>) -> Result<(), Seq<Seq<char>>>;

/// Checks a payload against a JSON schema (`jsonschema::JSONSchema::compile` and `validate`,
/// on values read by `serde_json::from_str`). The outcome is named by `schema_check`, not
/// described.
#[verifier::external_body]
fn check_schema(schema_json: &str, payload_json: &str) -> (r: Result<(), Vec<String>>)
    ensures
        match r {
            Ok(()) => schema_check(schema_json@, payload_json@) == Ok::<(), Seq<Seq<char>>>(()),
            Err(v) => schema_check(schema_json@, payload_json@) == Err::<(), Seq<Seq<char>>>(texts(v@)),
        },
{
    let parsed = (serde_json::from_str::<serde_json::Value>(schema_json), serde_json::from_str::<serde_json::Value>(payload_json));
    let (schema, payload) = match parsed {
        (Ok(s), Ok(p)) => (s, p),
        (Err(e), _) | (_, Err(e)) => return Err(vec![e.to_string()]),
    };
    match jsonschema::JSONSchema::compile(&schema) {
        Err(e) => Err(vec![e.to_string()]),
        Ok(compiled) => match compiled.validate(&payload) {
            Ok(()) => Ok(()),
            Err(errors) => Err(errors.map(|e| e.to_string()).collect()),
        },
    }
}

/// Checks an input's payload against the input's schema; the violations are a
/// `JsonSchemaValidationError`.
pub fn validate_input_payload(input_id: &str, payload_schema: &JsonValue, payload: &JsonValue) -> (r: Result<(), Error>)
    ensures
        match schema_check(json_text(payload_schema@), json_text(payload@)) {
            Ok(()) => r is Ok,
            Err(msgs) => r is Err && (r->Err_0 matches Error::JsonSchemaValidationError(v) && texts(v@) == msgs),
        },
{
    let s = to_json_text(payload_schema);
    let p = to_json_text(payload);
    match check_schema(s.as_str(), p.as_str()) {
        Ok(()) => Ok(()),
        Err(v) => Err(Error::JsonSchemaValidationError(v)),
    }
}

/// What queueing an input needs to know.
pub struct EnqueueInputOptions {
    pub org_id: String,
    pub user_id: String,
    pub task_id: String,
    pub task_name: String,
    pub input_id: String,
    pub task_trigger_id: String,
    pub task_trigger_local_id: String,
    pub task_trigger_name: String,
    pub periodic_trigger_id: Option<String>,
    pub payload_schema: JsonValue,
    pub payload: JsonValue,
    pub redis_key_prefix: Option<String>,
    pub trigger_at: Option<crate::time::Timestamp>,
}

/// An input ready to queue: the arrival to queue, and the queue to put it in.
pub struct PreparedInput {
    pub invocation: InputInvocation,
    pub queue_name: String,
}

/// Prepares an input for its queue: the payload must meet the input's schema (see
/// `validate_input_payload`); the arrival gets a fresh log id and carries the task, the
/// trigger, the input, the payload and the user.
pub fn prepare_input(options: &EnqueueInputOptions) -> (r: Result<PreparedInput, Error>)
    ensures
        match schema_check(json_text(options.payload_schema@), json_text(options.payload@)) {
            Err(msgs) => r is Err && (r->Err_0 matches Error::JsonSchemaValidationError(v) && texts(v@) == msgs),
            Ok(()) => r is Ok && ({
                let p = r->Ok_0;
                &&& p.invocation.task_id@ == options.task_id@
                &&& p.invocation.task_trigger_id@ == options.task_trigger_id@
                &&& p.invocation.input_id@ == options.input_id@
                &&& p.invocation.user_id@ == options.user_id@
                &&& p.invocation.payload@ == options.payload@
                &&& p.queue_name@ == queue_name_text(match options.redis_key_prefix {
                    Some(k) => Some(k@),
                    None => None,
                })
            }),
        },
{
    match validate_input_payload(options.input_id.as_str(), &options.payload_schema, &options.payload) {
        Ok(()) => {},
        Err(e) => {
            return Err(e);
        },
    }
    let inputs_log_id = crate::actions::new_uuid();
    let queue_name = match &options.redis_key_prefix {
        Some(p) => input_queue_name(Some(p.as_str())),
        None => input_queue_name(None),
    };
    let invocation = InputInvocation {
        task_id: options.task_id.clone(),
        task_trigger_id: options.task_trigger_id.clone(),
        input_id: options.input_id.clone(),
        inputs_log_id,
        payload: options.payload.clone_value(),
        user_id: options.user_id.clone(),
    };
    Ok(PreparedInput { invocation, queue_name })
}

} // verus!
