# ergo_tasks

The task engine of a workflow service: tasks receive inputs through triggers, decide
what to do with them (state machines, scripts or dataflow graphs), and queue actions
that executors (HTTP requests, commands, scripts, inputs to other tasks) carry out.

`src/` is the library, written in Verus: each public function states in its contract
what it returns, and Verus proves the code against it.

- `json`, `pointer`, `text`, `parse`: JSON values as the library holds them, JSON
  pointers, string building and the small parsers the rest needs.
- `template`: template fields, checking values against them and filling templates.
- `state_machine`, `task`: state machine tasks, how a trigger moves them and which
  actions it queues; what handling an input decides.
- `actions`, `execute`, `executors`: actions, preparing a queued action for its
  executor, and what each executor asks for and makes of its result.
- `inputs`, `periodic`: inputs and their payload schemas; periodic triggers and how
  stored ones are brought in line with a task's definition.
- `dataflow`: dataflow graphs, their node order and a run over them.
- `scripting`, `error`: script wrapping and the error types with their messages.

Where the work needs another crate (graph sorting, bit sets, templates, cron, URLs,
JSON schemas, HTTP header rules), a small trusted function makes the call; its doc
comment says what its contract claims of the crate.

`app/` holds what cannot be verified: running commands and HTTP requests, and the
serde forms of the library's types. `tests/` runs the library on concrete values.
