//! Script tasks, and the script texts that run a task's code with its arguments.
use vstd::prelude::*;
use crate::json::{JsonValue, JsonView, json_text, to_json_text, view_entries, lemma_view_entries};
use crate::text::{push_str, string_of};

verus! {

/// A task whose logic is a script.
pub struct TaskJsConfig {
    pub timeout: Option<usize>,
    pub script: String,
    /// The source map for the compiled script
    pub map: String,
}

/// The state of a script task: its context, as the text the script keeps it in.
pub struct TaskJsState {
    pub context: String,
}

impl TaskJsConfig {
    /// A script task starts with the context `null`.
    pub fn default_state(&self) -> (r: TaskJsState)
        ensures
            r.context@ == "null"@,
    {
        TaskJsState { context: string_of("null") }
    }
}

/// A script as the body of a function that is called at once.
pub open spec fn wrapped_text(script: Seq<char>) -> Seq<char> {
    "(function() {\n        "@ + script + "\n    })()"@
}

/// Wraps a script in a function that is called at once (see `wrapped_text`).
pub fn wrap_in_function(script: &str) -> (r: String)
    ensures
        r@ == wrapped_text(script@),
{
    let mut out = string_of("(function() {\n        ");
    push_str(&mut out, script);
    push_str(&mut out, "\n    })()");
    out
}

/// A script as the body of a function of one argument, called at once with the JSON text of
/// the argument.
pub open spec fn wrapped_with_arg_text(script: Seq<char>, arg_name: Seq<char>, arg: JsonView) -> Seq<char> {
    "(function("@ + arg_name + ") {\n        "@ + script + "\n    })("@ + json_text(arg) + ")"@
}

/// Wraps a script in a function of one argument that is called at once with the argument
/// (see `wrapped_with_arg_text`).
pub fn wrap_in_function_with_args(script: &str, arg_name: &str, arg: &JsonValue) -> (r: String)
    ensures
        r@ == wrapped_with_arg_text(script@, arg_name@, arg@),
{
    let mut out = string_of("(function(");
    push_str(&mut out, arg_name);
    push_str(&mut out, ") {\n        ");
    push_str(&mut out, script);
    push_str(&mut out, "\n    })(");
    let a = to_json_text(arg);
    push_str(&mut out, a.as_str());
    push_str(&mut out, ")");
    out
}

/// The texts of a list joined by a separator.
pub open spec fn joined(parts: Seq<Seq<char>>, sep: Seq<char>) -> Seq<char>
    decreases parts.len(),
{
    if parts.len() == 0 {
        Seq::empty()
    } else if parts.len() == 1 {
        parts[0]
    } else {
        joined(parts.drop_last(), sep) + sep + parts.last()
    }
}

/// The names of a list of arguments.
pub open spec fn arg_names(args: Seq<(Seq<char>, JsonView)>) -> Seq<Seq<char>> {
    args.map_values(|a: (Seq<char>, JsonView)| a.0)
}

/// The JSON texts of a list of arguments.
pub open spec fn arg_values(args: Seq<(Seq<char>, JsonView)>) -> Seq<Seq<char>> {
    args.map_values(|a: (Seq<char>, JsonView)| json_text(a.1))
}

/// A script as the body of a function of the named arguments, called at once with their JSON
/// texts.
pub open spec fn script_with_args_text(script: Seq<char>, args: Seq<(Seq<char>, JsonView)>) -> Seq<char> {
    "(function("@ + joined(arg_names(args), ","@) + ") {\n            "@ + script + "\n        })("@
        + joined(arg_values(args), ", "@) + ")"@
}

/// Appends the parts of a list joined by a separator.
fn push_joined(out: &mut String, args: &Vec<(String, JsonValue)>, names: bool, sep: &str)
    ensures
        final(out)@ == old(out)@ + joined(if names { arg_names(view_entries(args@)) } else { arg_values(view_entries(args@)) }, sep@),
{
    let ghost parts = if names { arg_names(view_entries(args@)) } else { arg_values(view_entries(args@)) };
    proof {
        lemma_view_entries(args@);
    }
    let ghost start = out@;
    let mut i: usize = 0;
    assert(joined(parts.subrange(0, 0), sep@) =~= Seq::<char>::empty());
    assert(start + Seq::<char>::empty() =~= start);
    while i < args.len()
        invariant
            i <= args.len(),
            parts == (if names { arg_names(view_entries(args@)) } else { arg_values(view_entries(args@)) }),
            view_entries(args@).len() == args@.len(),
            forall|j: int| 0 <= j < args.len() ==> #[trigger] view_entries(args@)[j] == (args@[j].0@, crate::json::json_view(args@[j].1)),
            parts.len() == args.len(),
            out@ == start + joined(parts.subrange(0, i as int), sep@),
        decreases args.len() - i,
    {
        if i > 0 {
            push_str(out, sep);
        }
        if names {
            push_str(out, args[i].0.as_str());
        } else {
            let t = to_json_text(&args[i].1);
            push_str(out, t.as_str());
        }
        proof {
            let t = parts.subrange(0, i + 1);
            assert(t.drop_last() =~= parts.subrange(0, i as int));
            if i == 0 {
                assert(joined(t, sep@) == t[0]);
            }
        }
        i = i + 1;
        assert(out@ =~= start + joined(parts.subrange(0, i as int), sep@));
    }
    assert(parts.subrange(0, args.len() as int) =~= parts);
}

/// The script text that runs a script with named arguments (see `script_with_args_text`).
pub fn script_with_args(script: &str, args: &Vec<(String, JsonValue)>) -> (r: String)
    ensures
        r@ == script_with_args_text(script@, view_entries(args@)),
{
    let mut out = string_of("(function(");
    push_joined(&mut out, args, true, ",");
    push_str(&mut out, ") {\n            ");
    push_str(&mut out, script);
    push_str(&mut out, "\n        })(");
    push_joined(&mut out, args, false, ", ");
    push_str(&mut out, ")");
    assert(out@ =~= script_with_args_text(script@, view_entries(args@)));
    out
}

/// The script text that runs a script with the arguments `context` and `payload`, each
/// `null` when missing.
pub fn script_with_context_and_payload(script: &str, context: Option<&JsonValue>, payload: Option<&JsonValue>) -> (r: String)
    ensures
        r@ == script_with_args_text(script@, seq![
            ("context"@, match context { Some(c) => c@, None => JsonView::Null }),
            ("payload"@, match payload { Some(p) => p@, None => JsonView::Null }),
        ]),
{
    let c = match context {
        Some(c) => c.clone_value(),
        None => JsonValue::Null,
    };
    let p = match payload {
        Some(p) => p.clone_value(),
        None => JsonValue::Null,
    };
    let ghost cv = c@;
    let ghost pv = p@;
    let args = vec![(string_of("context"), c), (string_of("payload"), p)];
    proof {
        lemma_view_entries(args@);
        assert(view_entries(args@) =~= seq![("context"@, cv), ("payload"@, pv)]);
        assert(cv == match context { Some(x) => x@, None => JsonView::Null });
        assert(pv == match payload { Some(x) => x@, None => JsonView::Null });
    }
    let r = script_with_args(script, &args);
    proof {
        let want = seq![
            ("context"@, match context { Some(x) => x@, None => JsonView::Null }),
            ("payload"@, match payload { Some(x) => x@, None => JsonView::Null }),
        ];
        assert(view_entries(args@) =~= want);
    }
    r
}

} // verus!
