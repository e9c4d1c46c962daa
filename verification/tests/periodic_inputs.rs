use ergo_tasks::error::Error;
use ergo_tasks::time::Timestamp;
use ergo_tasks::inputs::{input_queue_name, prepare_input, validate_input_payload, EnqueueInputOptions};
use ergo_tasks::json::{JsonMap, JsonNumber, JsonValue};
use ergo_tasks::periodic::{
    plan_periodic_updates, ExistingPeriodicTrigger, PeriodicSchedule, PeriodicTaskTriggerInput, PeriodicUpdate, RunSource,
};

fn s(t: &str) -> JsonValue {
    JsonValue::String(t.to_string())
}

fn obj(entries: Vec<(&str, JsonValue)>) -> JsonValue {
    JsonValue::Object(JsonMap { entries: entries.into_iter().map(|(k, v)| (k.to_string(), v)).collect() })
}

#[test]
fn cron_schedules() {
    let every_second = PeriodicSchedule::Cron("* * * * * * *".to_string());
    assert!(matches!(every_second.next_run(), Ok(Some(_))));
    assert!(matches!(every_second.next_enabled_run(false), Ok(None)));
    let bad = PeriodicSchedule::Cron("not a schedule".to_string());
    match bad.next_run() {
        Err(e) => assert!(e.to_string().starts_with("Parsing cron schedule: ")),
        Ok(_) => panic!("expected a parse error"),
    }
    assert!(bad.next_enabled_run(false).is_err());
}

#[test]
fn cron_next_run_after_a_time() {
    let t = |secs: i64, nanos: u32| Timestamp { secs, nanos };
    let every_second = PeriodicSchedule::Cron("* * * * * * *".to_string());
    assert!(matches!(every_second.next_run_after(t(0, 0)), Ok(Some(x)) if x == t(1, 0)));
    assert!(matches!(every_second.next_run_after(t(1, 500_000_000)), Ok(Some(x)) if x == t(2, 0)));
    assert!(matches!(every_second.next_enabled_run(true), Ok(Some(_))));
    let every_minute = PeriodicSchedule::Cron("0 * * * * * *".to_string());
    assert!(matches!(every_minute.next_run_after(t(0, 0)), Ok(Some(x)) if x == t(60, 0)));
    assert!(matches!(every_minute.next_run_after(t(61, 0)), Ok(Some(x)) if x == t(120, 0)));
    let new_year_2000 = PeriodicSchedule::Cron("0 0 0 1 1 * 2000".to_string());
    assert!(matches!(new_year_2000.next_run_after(t(1_000_000_000, 0)), Ok(None)));
    assert!(PeriodicSchedule::Cron("not a schedule".to_string()).next_run_after(t(0, 0)).is_err());
}

fn existing(id: &str, cron: &str, enabled: bool, job: Option<&str>) -> ExistingPeriodicTrigger {
    ExistingPeriodicTrigger {
        periodic_trigger_id: id.to_string(),
        schedule: PeriodicSchedule::Cron(cron.to_string()),
        payload: obj(vec![]),
        enabled,
        queue_job_id: job.map(|j| j.to_string()),
    }
}

fn new_trigger(cron: &str, enabled: bool, payload: JsonValue) -> PeriodicTaskTriggerInput {
    PeriodicTaskTriggerInput { name: None, schedule: PeriodicSchedule::Cron(cron.to_string()), payload, enabled }
}

fn describe(steps: &[PeriodicUpdate]) -> Vec<String> {
    steps
        .iter()
        .map(|s| match s {
            PeriodicUpdate::Update { existing, new_value } => format!("update {} {}", existing, new_value),
            PeriodicUpdate::RemoveJob { job_id } => format!("remove job {}", job_id),
            PeriodicUpdate::UpdateJob { job_id, new_value } => format!("update job {} {}", job_id, new_value),
            PeriodicUpdate::Insert { new_value } => format!("insert {}", new_value),
            PeriodicUpdate::Delete { existing } => format!("delete {}", existing),
        })
        .collect()
}

#[test]
fn periodic_update_plan() {
    let ex = vec![
        existing("p1", "A", true, Some("job1")),
        existing("p2", "B", false, None),
        existing("p3", "C", true, Some("job3")),
    ];
    let new = vec![
        new_trigger("A", true, obj(vec![("x", JsonValue::Number(JsonNumber::PosInt(1)))])),
        new_trigger("B", true, obj(vec![])),
        new_trigger("D", true, obj(vec![])),
    ];
    let plan = plan_periodic_updates(&ex, &new, true);
    assert_eq!(
        describe(&plan.steps),
        vec!["update 0 0", "update job job1 0", "update 1 1", "insert 2", "remove job job3", "delete 2"]
    );
    let runs = plan
        .runs
        .iter()
        .map(|(src, k)| match src {
            RunSource::Existing(i) => format!("existing {} {}", i, k),
            RunSource::Inserted(i) => format!("inserted {} {}", i, k),
        })
        .collect::<Vec<_>>();
    assert_eq!(runs, vec!["existing 1 1", "inserted 2 2"]);

    // A disabled task takes the pending run out and queues nothing.
    let plan = plan_periodic_updates(&ex, &new, false);
    assert_eq!(
        describe(&plan.steps),
        vec!["update 0 0", "remove job job1", "update 1 1", "insert 2", "remove job job3", "delete 2"]
    );
    assert!(plan.runs.is_empty());
}

#[test]
fn input_queue_names() {
    assert_eq!(input_queue_name(None), "er-input");
    assert_eq!(input_queue_name(Some("test")), "test-er-input");
}

fn schema() -> JsonValue {
    obj(vec![
        ("type", s("object")),
        ("properties", obj(vec![("a", obj(vec![("type", s("integer"))]))])),
        ("required", JsonValue::Array(vec![s("a")])),
    ])
}

#[test]
fn input_payload_schema() {
    let good = obj(vec![("a", JsonValue::Number(JsonNumber::PosInt(5)))]);
    assert!(validate_input_payload("input", &schema(), &good).is_ok());
    let bad = obj(vec![("a", s("five"))]);
    match validate_input_payload("input", &schema(), &bad) {
        Err(Error::JsonSchemaValidationError(msgs)) => assert_eq!(msgs.len(), 1),
        _ => panic!("expected a schema violation"),
    }
    match validate_input_payload("input", &schema(), &obj(vec![])) {
        Err(e) => assert!(e.to_string().starts_with("[\"")),
        Ok(()) => panic!("expected a schema violation"),
    }
}

#[test]
fn prepared_inputs() {
    let options = EnqueueInputOptions {
        org_id: "org".to_string(),
        user_id: "user".to_string(),
        task_id: "task".to_string(),
        task_name: "Task".to_string(),
        input_id: "input".to_string(),
        task_trigger_id: "trig".to_string(),
        task_trigger_local_id: "t".to_string(),
        task_trigger_name: "Trigger".to_string(),
        periodic_trigger_id: None,
        payload_schema: schema(),
        payload: obj(vec![("a", JsonValue::Number(JsonNumber::PosInt(1)))]),
        redis_key_prefix: Some("p".to_string()),
        trigger_at: None,
    };
    let p = match prepare_input(&options) {
        Ok(p) => p,
        Err(e) => panic!("{}", e.to_string()),
    };
    assert_eq!(p.queue_name, "p-er-input");
    assert_eq!(p.invocation.task_id, "task");
    assert_eq!(p.invocation.inputs_log_id.len(), 36);
    let again = match prepare_input(&options) {
        Ok(p) => p,
        Err(e) => panic!("{}", e.to_string()),
    };
    assert_ne!(p.invocation.inputs_log_id, again.invocation.inputs_log_id);
}
