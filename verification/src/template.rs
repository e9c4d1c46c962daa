//! Template fields: what an action or an executor expects, checking values against it, and
//! filling templates from values.
use vstd::prelude::*;
use crate::json::{JsonMap, JsonNumber, JsonValue, JsonView, NumberView, json_text, view_seq, view_entries,
    lemma_view_seq, lemma_view_entries, lemma_view_seq_push, lemma_view_entries_push, to_json_text,
    entries_map, keys_distinct};
use crate::parse::{parses_as_bool, parses_as_float, parses_as_u64, is_bool_text, is_float_text, is_u64_text};
use crate::text::{decimal, push_decimal, push_str, push_char, string_of, str_eq, trim, trim_str};

verus! {

/// The kind of value a template field takes.
pub enum TemplateFieldFormat {
    String,
    StringArray,
    Integer,
    Float,
    Boolean,
    Object {
        /// If true, the object can have values that are arrays or other objects.
        /// If false, the object's values must all be primitives.
        /// This isn't currently validated but does inform the UI's decisions on
        /// how to proceed.
        nested: bool,
    },
    Choice { choices: Vec<String>, min: Option<usize>, max: Option<usize> },
}

/// The mathematical form of a field format.
pub enum FormatView {
    String,
    StringArray,
    Integer,
    Float,
    Boolean,
    Object { nested: bool },
    Choice { choices: Seq<Seq<char>>, min: Option<usize>, max: Option<usize> },
}

impl View for TemplateFieldFormat {
    type V = FormatView;

    open spec fn view(&self) -> FormatView {
        match self {
            TemplateFieldFormat::String => FormatView::String,
            TemplateFieldFormat::StringArray => FormatView::StringArray,
            TemplateFieldFormat::Integer => FormatView::Integer,
            TemplateFieldFormat::Float => FormatView::Float,
            TemplateFieldFormat::Boolean => FormatView::Boolean,
            TemplateFieldFormat::Object { nested } => FormatView::Object { nested: *nested },
            TemplateFieldFormat::Choice { choices, min, max } => FormatView::Choice {
                choices: texts(choices@),
                min: *min,
                max: *max,
            },
        }
    }
}

/// The texts of a list of strings.
pub open spec fn texts(list: Seq<String>) -> Seq<Seq<char>> {
    list.map_values(|c: String| c@)
}

/// The texts of a list of string slices.
pub open spec fn str_texts(list: Seq<&str>) -> Seq<Seq<char>> {
    list.map_values(|c: &str| c@)
}

/// A string of the form `{{/name}}`: it stands for the whole value of the field `name`.
pub open spec fn is_payload_template_spec(s: Seq<char>) -> bool {
    &&& s.len() >= 3
    &&& s.subrange(0, 3) == seq!['{', '{', '/']
    &&& s.len() >= 2
    &&& s.subrange(s.len() - 2, s.len() as int) == seq!['}', '}']
}

/// Whether a JSON number is an integer that fits in an `i64`.
pub open spec fn is_i64(n: NumberView) -> bool {
    match n {
        NumberView::PosInt(u) => u <= i64::MAX,
        NumberView::NegInt(_) => true,
        NumberView::Float(_) => false,
    }
}

/// Whether a value is acceptable for a field of the given format.
pub open spec fn accepts(f: FormatView, v: JsonView) -> bool {
    match v {
        JsonView::Str(s) => is_payload_template_spec(s) || match f {
            FormatView::String => true,
            FormatView::Integer => parses_as_u64(s),
            FormatView::Float => parses_as_float(s),
            FormatView::Boolean => parses_as_bool(s),
            FormatView::Choice { choices, min, .. } => !(min matches Some(m) && m > 1)
                && choices.contains(s),
            _ => false,
        },
        JsonView::Array(a) => match f {
            FormatView::StringArray => true,
            FormatView::Choice { choices, min, max } => {
                &&& !(min matches Some(m) && m > a.len())
                &&& !(max matches Some(m) && m < a.len())
                &&& forall|i: int|
                    0 <= i < a.len() ==> (#[trigger] a[i] matches JsonView::Str(s) && choices.contains(s))
            },
            _ => false,
        },
        JsonView::Bool(_) => f is String || f is Boolean,
        JsonView::Number(n) => match f {
            FormatView::String | FormatView::Float => true,
            FormatView::Integer => is_i64(n),
            _ => false,
        },
        JsonView::Object(_) => f is Object,
        JsonView::Null => false,
    }
}

/// Why a value does not fit a field.
pub enum TemplateValidationFailure {
    Required(String),
    Invalid { name: String, expected: TemplateFieldFormat, actual: JsonValue },
}

/// The mathematical form of a validation failure.
pub enum FailureView {
    Required(Seq<char>),
    Invalid { name: Seq<char>, expected: FormatView, actual: JsonView },
}

impl View for TemplateValidationFailure {
    type V = FailureView;

    open spec fn view(&self) -> FailureView {
        match self {
            TemplateValidationFailure::Required(n) => FailureView::Required(n@),
            TemplateValidationFailure::Invalid { name, expected, actual } => FailureView::Invalid {
                name: name@,
                expected: expected@,
                actual: actual@,
            },
        }
    }
}

/// The failures of a template's fields, with the object and id they belong to.
pub struct TemplateValidationError {
    pub object: String,
    pub id: String,
    pub fields: Vec<TemplateValidationFailure>,
}

/// An error while checking or filling a template.
pub enum TemplateError {
    Validation(TemplateValidationError),
    /// The template renderer's error message.
    Render(String),
    MissingValue(String),
}

/// Whether a string is a whole-value template `{{/name}}`.
pub fn is_payload_template(template: &str) -> (r: bool)
    ensures
        r == is_payload_template_spec(template@),
{
    let n = template.unicode_len();
    if n < 3 {
        return false;
    }
    let ok = template.get_char(0) == '{' && template.get_char(1) == '{' && template.get_char(2)
        == '/' && template.get_char(n - 2) == '}' && template.get_char(n - 1) == '}';
    proof {
        let s = template@;
        if ok {
            assert(s.subrange(0, 3) =~= seq!['{', '{', '/']);
            assert(s.subrange(s.len() - 2, s.len() as int) =~= seq!['}', '}']);
        } else if is_payload_template_spec(s) {
            assert(s.subrange(0, 3)[0] == s[0]);
            assert(s.subrange(0, 3)[1] == s[1]);
            assert(s.subrange(0, 3)[2] == s[2]);
            assert(s.subrange(s.len() - 2, s.len() as int)[0] == s[s.len() - 2]);
            assert(s.subrange(s.len() - 2, s.len() as int)[1] == s[s.len() - 1]);
        }
    }
    ok
}

/// Whether a list of strings holds a given text.
fn contains_str(list: &Vec<String>, s: &str) -> (r: bool)
    ensures
        r == texts(list@).contains(s@),
{
    let mut i: usize = 0;
    while i < list.len()
        invariant
            i <= list.len(),
            forall|j: int| 0 <= j < i ==> list@[j]@ != s@,
        decreases list.len() - i,
    {
        if str_eq(list[i].as_str(), s) {
            assert(texts(list@)[i as int] == s@);
            return true;
        }
        i = i + 1;
    }
    proof {
        if texts(list@).contains(s@) {
            let k = choose|k: int| 0 <= k < list@.len() && #[trigger] texts(list@)[k] == s@;
            assert(list@[k]@ == s@);
        }
    }
    false
}

impl TemplateFieldFormat {
    /// A choice among fixed texts.
    pub fn from_static_choices(choices: &[&str], min: Option<usize>, max: Option<usize>) -> (r:
        TemplateFieldFormat)
        ensures
            r@ == (FormatView::Choice {
                choices: str_texts(choices@),
                min,
                max,
            }),
    {
        let mut out: Vec<String> = Vec::new();
        let mut i: usize = 0;
        while i < choices.len()
            invariant
                i <= choices@.len(),
                texts(out@) == str_texts(choices@.subrange(0, i as int)),
            decreases choices.len() - i,
        {
            let s = string_of(choices[i]);
            let ghost before = out@;
            out.push(s);
            assert(out@ == before.push(s));
            assert(texts(out@) =~= texts(before).push(s@));
            i = i + 1;
            assert(str_texts(choices@.subrange(0, i as int)) =~= str_texts(choices@.subrange(0, i - 1)).push(choices@[i - 1]@));
        }
        assert(choices@.subrange(0, choices@.len() as int) =~= choices@);
        TemplateFieldFormat::Choice { choices: out, min, max }
    }

    /// A copy of this format.
    pub fn clone_format(&self) -> (r: TemplateFieldFormat)
        ensures
            r@ == self@,
    {
        match self {
            TemplateFieldFormat::String => TemplateFieldFormat::String,
            TemplateFieldFormat::StringArray => TemplateFieldFormat::StringArray,
            TemplateFieldFormat::Integer => TemplateFieldFormat::Integer,
            TemplateFieldFormat::Float => TemplateFieldFormat::Float,
            TemplateFieldFormat::Boolean => TemplateFieldFormat::Boolean,
            TemplateFieldFormat::Object { nested } => TemplateFieldFormat::Object { nested: *nested },
            TemplateFieldFormat::Choice { choices, min, max } => {
                let mut out: Vec<String> = Vec::new();
                let mut i: usize = 0;
                while i < choices.len()
                    invariant
                        i <= choices.len(),
                        texts(out@) == texts(choices@.subrange(0, i as int)),
                    decreases choices.len() - i,
                {
                    let c = choices[i].clone();
                    let ghost before = out@;
                    out.push(c);
                    assert(out@ == before.push(c));
                    assert(texts(out@) =~= texts(before).push(c@));
                    i = i + 1;
                    assert(texts(choices@.subrange(0, i as int)) =~= texts(choices@.subrange(0, i - 1)).push(choices@[i - 1]@));
                }
                assert(choices@.subrange(0, choices@.len() as int) =~= choices@);
                TemplateFieldFormat::Choice { choices: out, min: *min, max: *max }
            },
        }
    }

    /// Whether a string value fits this format (a whole-value template always does).
    fn accepts_string(&self, s: &str) -> (r: bool)
        ensures
            r == accepts(self@, JsonView::Str(s@)),
    {
        if is_payload_template(s) {
            return true;
        }
        match self {
            TemplateFieldFormat::String => true,
            TemplateFieldFormat::Integer => is_u64_text(s),
            TemplateFieldFormat::Float => is_float_text(s),
            TemplateFieldFormat::Boolean => is_bool_text(s),
            TemplateFieldFormat::Choice { choices, min, .. } => {
                let too_many = match min {
                    Some(m) => *m > 1,
                    None => false,
                };
                if too_many {
                    false
                } else {
                    contains_str(choices, s)
                }
            },
            _ => false,
        }
    }

    /// Whether an array value fits this format.
    fn accepts_array(&self, a: &Vec<JsonValue>) -> (r: bool)
        ensures
            r == accepts(self@, JsonView::Array(view_seq(a@))),
    {
        proof {
            lemma_view_seq(a@);
        }
        match self {
            TemplateFieldFormat::StringArray => true,
            TemplateFieldFormat::Choice { choices, min, max } => {
                let len = a.len();
                let below = match min {
                    Some(m) => *m > len,
                    None => false,
                };
                let above = match max {
                    Some(m) => *m < len,
                    None => false,
                };
                if below || above {
                    return false;
                }
                let mut i: usize = 0;
                while i < len
                    invariant
                        self@ == (FormatView::Choice { choices: texts(choices@), min: *min, max: *max }),
                        !(*min matches Some(m) && m > len),
                        !(*max matches Some(m) && m < len),
                        len == a.len(),
                        i <= len,
                        view_seq(a@).len() == a@.len(),
                        forall|j: int| 0 <= j < a.len() ==> #[trigger] view_seq(a@)[j] == crate::json::json_view(a@[j]),
                        forall|j: int| 0 <= j < i ==> (#[trigger] view_seq(a@)[j] matches JsonView::Str(s) && texts(choices@).contains(s)),
                    decreases len - i,
                {
                    let ok = match a[i].as_str() {
                        Some(s) => contains_str(choices, s),
                        None => false,
                    };
                    if !ok {
                        assert(!(view_seq(a@)[i as int] matches JsonView::Str(s) && texts(choices@).contains(s)));
                        assert(!(forall|j: int| 0 <= j < view_seq(a@).len() ==> (#[trigger] view_seq(a@)[j] matches JsonView::Str(s) && texts(choices@).contains(s))));
                        return false;
                    }
                    i = i + 1;
                }
                true
            },
            _ => false,
        }
    }

    /// Checks a value of the field `field_name` against this format.
    pub fn validate(&self, field_name: &str, value: &JsonValue) -> (r: Result<(), TemplateValidationFailure>)
        ensures
            accepts(self@, value@) ==> r is Ok,
            !accepts(self@, value@) ==> r is Err && r->Err_0@ == (FailureView::Invalid {
                name: field_name@,
                expected: self@,
                actual: value@,
            }),
    {
        let ok = match value {
            JsonValue::String(s) => self.accepts_string(s.as_str()),
            JsonValue::Array(a) => self.accepts_array(a),
            JsonValue::Bool(_) => match self {
                TemplateFieldFormat::String | TemplateFieldFormat::Boolean => true,
                _ => false,
            },
            JsonValue::Number(n) => match self {
                TemplateFieldFormat::String | TemplateFieldFormat::Float => true,
                TemplateFieldFormat::Integer => match n {
                    JsonNumber::PosInt(u) => *u <= 9223372036854775807u64,
                    JsonNumber::NegInt(_) => true,
                    JsonNumber::Float(_) => false,
                },
                _ => false,
            },
            JsonValue::Object(_) => match self {
                TemplateFieldFormat::Object { .. } => true,
                _ => false,
            },
            JsonValue::Null => false,
        };
        if ok {
            Ok(())
        } else {
            Err(TemplateValidationFailure::Invalid {
                name: string_of(field_name),
                expected: self.clone_format(),
                actual: value.clone_value(),
            })
        }
    }
}


/// Texts joined with a separator.
pub open spec fn join_texts(s: Seq<Seq<char>>, sep: Seq<char>) -> Seq<char>
    decreases s.len(),
{
    if s.len() == 0 {
        Seq::empty()
    } else if s.len() == 1 {
        s[0]
    } else {
        join_texts(s.drop_last(), sep) + sep + s.last()
    }
}

/// How a format is described to people.
pub open spec fn format_text(f: FormatView) -> Seq<char> {
    match f {
        FormatView::String => "string"@,
        FormatView::StringArray => "array"@,
        FormatView::Integer => "integer"@,
        FormatView::Float => "number"@,
        FormatView::Boolean => "boolean"@,
        FormatView::Object { .. } => "object"@,
        FormatView::Choice { choices, min, max } => {
            let c = join_texts(choices, ", "@);
            match (min, max) {
                (Some(lo), Some(hi)) => if lo == 1 && hi == 1 {
                    "One of "@ + c
                } else {
                    "Between "@ + decimal(lo as nat) + " and "@ + decimal(hi as nat) + " of "@ + c
                },
                (Some(lo), None) => "At least "@ + decimal(lo as nat) + " of "@ + c,
                (None, Some(hi)) => "At most "@ + decimal(hi as nat) + " of "@ + c,
                (None, None) => "Values in "@ + c,
            }
        },
    }
}

/// Texts joined with ", ".
fn join_choices(choices: &Vec<String>) -> (r: String)
    ensures
        r@ == join_texts(texts(choices@), ", "@),
{
    let mut out = String::new();
    let mut i: usize = 0;
    while i < choices.len()
        invariant
            i <= choices.len(),
            out@ == join_texts(texts(choices@.subrange(0, i as int)), ", "@),
        decreases choices.len() - i,
    {
        if i > 0 {
            push_str(&mut out, ", ");
        }
        push_str(&mut out, choices[i].as_str());
        proof {
            let t = texts(choices@.subrange(0, i + 1));
            assert(t.drop_last() =~= texts(choices@.subrange(0, i as int)));
            assert(t.last() == choices@[i as int]@);
            if i == 0 {
                assert(t.len() == 1);
                assert(out@ =~= t[0]);
            }
        }
        i = i + 1;
    }
    assert(choices@.subrange(0, choices.len() as int) =~= choices@);
    out
}

impl TemplateFieldFormat {
    /// How this format is described to people.
    pub fn to_string(&self) -> (r: String)
        ensures
            r@ == format_text(self@),
    {
        match self {
            TemplateFieldFormat::String => string_of("string"),
            TemplateFieldFormat::StringArray => string_of("array"),
            TemplateFieldFormat::Integer => string_of("integer"),
            TemplateFieldFormat::Float => string_of("number"),
            TemplateFieldFormat::Boolean => string_of("boolean"),
            TemplateFieldFormat::Object { .. } => string_of("object"),
            TemplateFieldFormat::Choice { choices, min, max } => {
                let c = join_choices(choices);
                let mut out = String::new();
                match (min, max) {
                    (Some(lo), Some(hi)) => {
                        if *lo == 1 && *hi == 1 {
                            push_str(&mut out, "One of ");
                        } else {
                            push_str(&mut out, "Between ");
                            push_decimal(&mut out, *lo as u64);
                            push_str(&mut out, " and ");
                            push_decimal(&mut out, *hi as u64);
                            push_str(&mut out, " of ");
                        }
                    },
                    (Some(lo), None) => {
                        push_str(&mut out, "At least ");
                        push_decimal(&mut out, *lo as u64);
                        push_str(&mut out, " of ");
                    },
                    (None, Some(hi)) => {
                        push_str(&mut out, "At most ");
                        push_decimal(&mut out, *hi as u64);
                        push_str(&mut out, " of ");
                    },
                    (None, None) => {
                        push_str(&mut out, "Values in ");
                    },
                }
                push_str(&mut out, c.as_str());
                assert(out@ =~= format_text(self@));
                out
            },
        }
    }
}

/// A field of a template: its name, its format, and whether it may be left out.
pub struct TemplateField {
    pub name: String,
    pub format: TemplateFieldFormat,
    pub optional: bool,
    pub description: Option<String>,
}

impl TemplateField {
    /// A field with the given name and description.
    pub fn from_static(name: &str, format: TemplateFieldFormat, optional: bool, description: &str) -> (r:
        TemplateField)
        ensures
            r.name@ == name@,
            r.format == format,
            r.optional == optional,
            r.description is Some && r.description->0@ == description@,
    {
        TemplateField { name: string_of(name), format, optional, description: Some(string_of(description)) }
    }

    /// The value of this field in a payload: `None` when it is left out and the field is
    /// optional, `Required` when it is left out and the field is not.
    pub fn extract(&self, payload: &JsonMap) -> (r: Result<Option<JsonValue>, TemplateValidationFailure>)
        requires
            payload.wf(),
        ensures
            payload@.contains_key(self.name@) ==> r is Ok && r->Ok_0 is Some && r->Ok_0->0@ == payload@[self.name@],
            !payload@.contains_key(self.name@) ==> if self.optional {
                r == Ok::<Option<JsonValue>, TemplateValidationFailure>(None)
            } else {
                r is Err && r->Err_0@ == FailureView::Required(self.name@)
            },
    {
        match payload.get(self.name.as_str()) {
            Some(v) => Ok(Some(v.clone_value())),
            None => if self.optional {
                Ok(None)
            } else {
                Err(TemplateValidationFailure::Required(self.name.clone()))
            },
        }
    }

    /// The text of this field in a payload; a value that is not a string is `Invalid`.
    pub fn extract_str<'a>(&self, payload: &'a JsonMap) -> (r: Result<Option<&'a str>, TemplateValidationFailure>)
        requires
            payload.wf(),
        ensures
            payload@.contains_key(self.name@) ==> match payload@[self.name@] {
                JsonView::Str(s) => r is Ok && r->Ok_0 is Some && r->Ok_0->0@ == s,
                v => r is Err && r->Err_0@ == (FailureView::Invalid {
                    name: self.name@,
                    expected: FormatView::String,
                    actual: v,
                }),
            },
            !payload@.contains_key(self.name@) ==> if self.optional {
                r == Ok::<Option<&'a str>, TemplateValidationFailure>(None)
            } else {
                r is Err && r->Err_0@ == FailureView::Required(self.name@)
            },
    {
        match payload.get(self.name.as_str()) {
            Some(v) => match v.as_str() {
                Some(s) => Ok(Some(s)),
                None => Err(TemplateValidationFailure::Invalid {
                    name: self.name.clone(),
                    actual: v.clone_value(),
                    expected: TemplateFieldFormat::String,
                }),
            },
            None => if self.optional {
                Ok(None)
            } else {
                Err(TemplateValidationFailure::Required(self.name.clone()))
            },
        }
    }

    /// The value of an object field in a payload.
    pub fn extract_object<'a>(&self, payload: &'a JsonMap) -> (r: Result<Option<&'a JsonValue>, TemplateValidationFailure>)
        requires
            payload.wf(),
            self.format is Object,
        ensures
            payload@.contains_key(self.name@) ==> r is Ok && r->Ok_0 is Some && r->Ok_0->0@ == payload@[self.name@],
            !payload@.contains_key(self.name@) ==> if self.optional {
                r == Ok::<Option<&'a JsonValue>, TemplateValidationFailure>(None)
            } else {
                r is Err && r->Err_0@ == FailureView::Required(self.name@)
            },
    {
        match payload.get(self.name.as_str()) {
            Some(v) => Ok(Some(v)),
            None => if self.optional {
                Ok(None)
            } else {
                Err(TemplateValidationFailure::Required(self.name.clone()))
            },
        }
    }
}

/// The texts a value stands for as a list of strings: a string is a list of one, an array of
/// strings is the list of its texts; other values are no such list.
pub open spec fn string_list(v: JsonView) -> Option<Seq<Seq<char>>> {
    match v {
        JsonView::Str(s) => Some(seq![s]),
        JsonView::Array(a) => if forall|i: int| 0 <= i < a.len() ==> #[trigger] a[i] is Str {
            Some(a.map_values(|x: JsonView| x->Str_0))
        } else {
            None
        },
        _ => None,
    }
}

impl TemplateField {
    /// The texts of this field in a payload, as a list (see `string_list`): a missing optional
    /// field gives an empty list, a value that is no list of strings is `Invalid`.
    pub fn extract_string_array(&self, payload: &JsonMap) -> (r: Result<Vec<String>, TemplateValidationFailure>)
        requires
            payload.wf(),
        ensures
            payload@.contains_key(self.name@) ==> match string_list(payload@[self.name@]) {
                Some(l) => r is Ok && texts(r->Ok_0@) == l,
                None => r is Err && r->Err_0@ == (FailureView::Invalid {
                    name: self.name@,
                    expected: self.format@,
                    actual: payload@[self.name@],
                }),
            },
            !payload@.contains_key(self.name@) ==> if self.optional {
                r is Ok && r->Ok_0@.len() == 0
            } else {
                r is Err && r->Err_0@ == FailureView::Required(self.name@)
            },
    {
        match payload.get(self.name.as_str()) {
            Some(v) => match v {
                JsonValue::String(s) => {
                    let mut out: Vec<String> = Vec::new();
                    out.push(s.clone());
                    assert(texts(out@) =~= seq![s@]);
                    Ok(out)
                },
                JsonValue::Array(a) => {
                    let mut out: Vec<String> = Vec::new();
                    let mut i: usize = 0;
                    proof {
                        lemma_view_seq(a@);
                    }
                    while i < a.len()
                        invariant
                            *v == JsonValue::Array(*a),
                            payload@.contains_key(self.name@) && payload@[self.name@] == v@,
                            i <= a.len(),
                            view_seq(a@).len() == a@.len(),
                            forall|j: int| 0 <= j < a.len() ==> #[trigger] view_seq(a@)[j] == crate::json::json_view(a@[j]),
                            forall|j: int| 0 <= j < i ==> #[trigger] view_seq(a@)[j] is Str,
                            texts(out@) == view_seq(a@).subrange(0, i as int).map_values(|x: JsonView| x->Str_0),
                        decreases a.len() - i,
                    {
                        match a[i].as_str() {
                            Some(t) => {
                                let ghost before = out@;
                                let st = string_of(t);
                                out.push(st);
                                proof {
                                    assert(view_seq(a@)[i as int] == a@[i as int]@);
                                    assert(t@ == view_seq(a@)[i as int]->Str_0);
                                    assert(out@ == before.push(st));
                                    assert(texts(out@) =~= texts(before).push(t@));
                                    assert(view_seq(a@).subrange(0, i + 1) =~= view_seq(a@).subrange(0, i as int).push(view_seq(a@)[i as int]));
                                    assert(texts(out@) =~= view_seq(a@).subrange(0, i + 1).map_values(|x: JsonView| x->Str_0));
                                }
                            },
                            None => {
                                assert(!(view_seq(a@)[i as int] is Str));
                                return Err(TemplateValidationFailure::Invalid {
                                    name: self.name.clone(),
                                    expected: self.format.clone_format(),
                                    actual: v.clone_value(),
                                });
                            },
                        }
                        i = i + 1;
                    }
                    assert(view_seq(a@).subrange(0, a.len() as int) =~= view_seq(a@));
                    Ok(out)
                },
                _ => Err(TemplateValidationFailure::Invalid {
                    name: self.name.clone(),
                    expected: self.format.clone_format(),
                    actual: v.clone_value(),
                }),
            },
            None => if self.optional {
                Ok(Vec::new())
            } else {
                Err(TemplateValidationFailure::Required(self.name.clone()))
            },
        }
    }
}

/// The fields of a template.
pub struct TemplateFields(pub Vec<TemplateField>);

impl TemplateFields {
    /// The fields, in order.
    pub fn fields(&self) -> (r: &Vec<TemplateField>)
        ensures
            r == &self.0,
    {
        &self.0
    }

    /// Wraps a list of fields.
    pub fn from_vec(v: Vec<TemplateField>) -> (r: TemplateFields)
        ensures
            r.0 == v,
    {
        TemplateFields(v)
    }

    /// Unwraps the list of fields.
    pub fn into_vec(self) -> (r: Vec<TemplateField>)
        ensures
            r == self.0,
    {
        self.0
    }
}

/// The failures of checking values against fields, in field order: a present value that its
/// field's format does not accept is `Invalid`; a missing value of a required field is
/// `Required`; a missing optional field is fine.
pub open spec fn field_failures(fields: Seq<TemplateField>, values: Map<Seq<char>, JsonView>) -> Seq<FailureView>
    decreases fields.len(),
{
    if fields.len() == 0 {
        Seq::empty()
    } else {
        let rest = field_failures(fields.drop_last(), values);
        let f = fields.last();
        if values.contains_key(f.name@) {
            if accepts(f.format@, values[f.name@]) {
                rest
            } else {
                rest.push(FailureView::Invalid { name: f.name@, expected: f.format@, actual: values[f.name@] })
            }
        } else if f.optional {
            rest
        } else {
            rest.push(FailureView::Required(f.name@))
        }
    }
}

/// The views of a list of failures.
pub open spec fn failure_views(v: Seq<TemplateValidationFailure>) -> Seq<FailureView> {
    v.map_values(|f: TemplateValidationFailure| f@)
}

/// Checks values against fields. All failures are collected; `Ok` exactly when there are none.
/// The error names the object kind and its id (empty when there is none).
pub fn validate(object: &str, id: Option<&str>, fields: &TemplateFields, values: &JsonMap) -> (r: Result<(), TemplateError>)
    requires
        values.wf(),
    ensures
        field_failures(fields.0@, values@).len() == 0 ==> r is Ok,
        field_failures(fields.0@, values@).len() > 0 ==> (r is Err && (r->Err_0 matches TemplateError::Validation(e) && e.object@ == object@ && e.id@ == (match id {
            Some(i) => i@,
            None => Seq::empty(),
        }) && failure_views(e.fields@) == field_failures(fields.0@, values@))),
{
    let list = &fields.0;
    let mut errors: Vec<TemplateValidationFailure> = Vec::new();
    let mut i: usize = 0;
    while i < list.len()
        invariant
            values.wf(),
            i <= list.len(),
            failure_views(errors@) == field_failures(list@.subrange(0, i as int), values@),
        decreases list.len() - i,
    {
        let field = &list[i];
        let ghost before = errors@;
        match values.get(field.name.as_str()) {
            Some(v) => match field.format.validate(field.name.as_str(), v) {
                Ok(()) => {},
                Err(e) => {
                    errors.push(e);
                },
            },
            None => if !field.optional {
                errors.push(TemplateValidationFailure::Required(field.name.clone()));
            },
        }
        proof {
            let t = list@.subrange(0, i + 1);
            assert(t.drop_last() =~= list@.subrange(0, i as int));
            assert(t.last() == list@[i as int]);
            if errors@.len() > before.len() {
                assert(errors@ == before.push(errors@.last()));
                assert(failure_views(errors@) =~= failure_views(before).push(errors@.last()@));
            } else {
                assert(errors@ == before);
            }
        }
        i = i + 1;
    }
    assert(list@.subrange(0, list.len() as int) =~= list@);
    if errors.len() == 0 {
        Ok(())
    } else {
        let id_text = match id {
            Some(i) => string_of(i),
            None => String::new(),
        };
        Err(TemplateError::Validation(TemplateValidationError { object: string_of(object), id: id_text, fields: errors }))
    }
}

/// Why filling a template failed.
pub enum ApplyError {
    /// The renderer failed with this message.
    Render(Seq<char>),
    /// A whole-value template names a value that is missing.
    MissingValue(Seq<char>),
}

/// What the template renderer makes of a template and a JSON context (Handlebars in its default,
/// non-strict mode, without HTML escaping): the rendered text, or the renderer's error message.
pub uninterp spec fn handlebars_render(template: Seq<char>, context_json: Seq<char>) -> Result<Seq<char>, Seq<char>>;

/// Renders a Handlebars template with the values of a JSON text (`Handlebars::render_template`
/// on a renderer in its default, non-strict mode with escaping turned off, the context parsed by
/// `serde_json::from_str`). The result is named, not described: it is whatever the renderer
/// returns for these two texts, its error turned into its message.
#[verifier::external_body]
fn render_template(template: &str, context_json: &str) -> (r: Result<String, String>)
    ensures
        match r {
            Ok(s) => handlebars_render(template@, context_json@) == Ok::<Seq<char>, Seq<char>>(s@),
            Err(e) => handlebars_render(template@, context_json@) == Err::<Seq<char>, Seq<char>>(e@),
        },
{
    let mut renderer = handlebars::Handlebars::new();
    renderer.register_escape_fn(handlebars::no_escape);
    let context: serde_json::Value = serde_json::from_str(context_json).map_err(|e| e.to_string())?;
    renderer.render_template(template, &context).map_err(|e| e.to_string())
}

/// The context that templates are rendered with: the values as one JSON object.
pub open spec fn context_text(values: &JsonMap) -> Seq<char> {
    json_text(JsonView::Object(values.entries_view()))
}

/// Fills one template value: a whole-value template `{{/name}}` becomes the value `name`; any
/// other string is rendered with the values and trimmed; arrays and objects are filled
/// element by element, the first error winning; other values stay as they are.
pub open spec fn fill(t: JsonView, values: Map<Seq<char>, JsonView>, ctx: Seq<char>) -> Result<JsonView, ApplyError>
    decreases t,
{
    match t {
        JsonView::Str(s) => if is_payload_template_spec(s) {
            let name = s.subrange(3, s.len() - 2);
            if values.contains_key(name) {
                Ok(values[name])
            } else {
                Err(ApplyError::MissingValue(name))
            }
        } else {
            match handlebars_render(s, ctx) {
                Ok(out) => Ok(JsonView::Str(trim(out))),
                Err(e) => Err(ApplyError::Render(e)),
            }
        },
        JsonView::Array(a) => match fill_items(a, values, ctx) {
            Ok(items) => Ok(JsonView::Array(items)),
            Err(e) => Err(e),
        },
        JsonView::Object(o) => match fill_members(o, values, ctx) {
            Ok(members) => Ok(JsonView::Object(members)),
            Err(e) => Err(e),
        },
        _ => Ok(t),
    }
}

pub open spec fn fill_items(a: Seq<JsonView>, values: Map<Seq<char>, JsonView>, ctx: Seq<char>) -> Result<Seq<JsonView>, ApplyError>
    decreases a,
{
    if a.len() == 0 {
        Ok(Seq::empty())
    } else {
        match fill_items(a.drop_last(), values, ctx) {
            Err(e) => Err(e),
            Ok(r) => match fill(a.last(), values, ctx) {
                Ok(v) => Ok(r.push(v)),
                Err(e) => Err(e),
            },
        }
    }
}

pub open spec fn fill_members(o: Seq<(Seq<char>, JsonView)>, values: Map<Seq<char>, JsonView>, ctx: Seq<char>) -> Result<Seq<(Seq<char>, JsonView)>, ApplyError>
    decreases o,
{
    if o.len() == 0 {
        Ok(Seq::empty())
    } else {
        match fill_members(o.drop_last(), values, ctx) {
            Err(e) => Err(e),
            Ok(r) => match fill(o.last().1, values, ctx) {
                Ok(v) => Ok(r.push((o.last().0, v))),
                Err(e) => Err(e),
            },
        }
    }
}

/// A template value that is no string, array or object: null, a boolean or a number.
pub open spec fn is_plain(t: JsonView) -> bool {
    !(t is Str) && !(t is Array) && !(t is Object)
}

/// Filling keeps what is not text: a null, boolean or number comes back as it is.
pub proof fn law_fill_keeps_plain_values(t: JsonView, values: Map<Seq<char>, JsonView>, ctx: Seq<char>)
    requires
        is_plain(t),
    ensures
        fill(t, values, ctx) == Ok::<JsonView, ApplyError>(t),
{
}

/// Filling an array fills each element in place: when it works, the result has as many
/// elements, each the filled element at the same position.
pub proof fn law_fill_items_in_place(a: Seq<JsonView>, values: Map<Seq<char>, JsonView>, ctx: Seq<char>)
    requires
        fill_items(a, values, ctx) is Ok,
    ensures
        fill_items(a, values, ctx)->Ok_0.len() == a.len(),
        forall|i: int| #![trigger a[i]] 0 <= i < a.len() ==> fill(a[i], values, ctx) is Ok
            && fill_items(a, values, ctx)->Ok_0[i] == fill(a[i], values, ctx)->Ok_0,
    decreases a.len(),
{
    if a.len() > 0 {
        law_fill_items_in_place(a.drop_last(), values, ctx);
        let r = fill_items(a, values, ctx)->Ok_0;
        let p = fill_items(a.drop_last(), values, ctx)->Ok_0;
        assert forall|i: int| #![trigger a[i]] 0 <= i < a.len() implies fill(a[i], values, ctx) is Ok
            && r[i] == fill(a[i], values, ctx)->Ok_0 by {
            assert(fill_items(a.drop_last(), values, ctx) is Ok);
            assert(r == p.push(fill(a.last(), values, ctx)->Ok_0));
            if i < a.len() - 1 {
                assert(r[i] == p[i]);
                assert(a[i] == a.drop_last()[i]);
            } else {
                assert(a[i] == a.last());
            }
        }
    }
}

/// Filling an object fills each member in place: when it works, the result has the same
/// names in the same order, each with the filled value of that member.
pub proof fn law_fill_members_in_place(o: Seq<(Seq<char>, JsonView)>, values: Map<Seq<char>, JsonView>, ctx: Seq<char>)
    requires
        fill_members(o, values, ctx) is Ok,
    ensures
        fill_members(o, values, ctx)->Ok_0.len() == o.len(),
        forall|i: int| #![trigger o[i]] 0 <= i < o.len() ==> fill(o[i].1, values, ctx) is Ok
            && fill_members(o, values, ctx)->Ok_0[i].0 == o[i].0
            && fill_members(o, values, ctx)->Ok_0[i].1 == fill(o[i].1, values, ctx)->Ok_0,
    decreases o.len(),
{
    if o.len() > 0 {
        law_fill_members_in_place(o.drop_last(), values, ctx);
        let r = fill_members(o, values, ctx)->Ok_0;
        let p = fill_members(o.drop_last(), values, ctx)->Ok_0;
        assert forall|i: int| #![trigger o[i]] 0 <= i < o.len() implies fill(o[i].1, values, ctx) is Ok
            && r[i].0 == o[i].0 && r[i].1 == fill(o[i].1, values, ctx)->Ok_0 by {
            assert(fill_members(o.drop_last(), values, ctx) is Ok);
            assert(r == p.push((o.last().0, fill(o.last().1, values, ctx)->Ok_0)));
            if i < o.len() - 1 {
                assert(r[i] == p[i]);
                assert(o[i] == o.drop_last()[i]);
            } else {
                assert(o[i] == o.last());
            }
        }
    }
}

/// The template error that a fill error is reported as.
pub open spec fn reported(r: Result<JsonValue, TemplateError>, s: Result<JsonView, ApplyError>) -> bool {
    match r {
        Ok(v) => s == Ok::<JsonView, ApplyError>(v@),
        Err(TemplateError::Render(m)) => s == Err::<JsonView, ApplyError>(ApplyError::Render(m@)),
        Err(TemplateError::MissingValue(n)) => s == Err::<JsonView, ApplyError>(ApplyError::MissingValue(n@)),
        Err(TemplateError::Validation(_)) => false,
    }
}

/// The characters of a string from `lo` up to `hi`.
fn substring(s: &str, lo: usize, hi: usize) -> (r: String)
    requires
        lo <= hi <= s@.len(),
    ensures
        r@ == s@.subrange(lo as int, hi as int),
{
    string_of(s.substring_char(lo, hi))
}

fn fill_value(template: &JsonValue, values: &JsonMap, ctx: &str) -> (r: Result<JsonValue, TemplateError>)
    requires
        values.wf(),
    ensures
        reported(r, fill(template@, values@, ctx@)),
        is_plain(template@) ==> r is Ok && r->Ok_0@ == template@,
    decreases template,
{
    proof {
        if is_plain(template@) {
            law_fill_keeps_plain_values(template@, values@, ctx@);
        }
    }
    match template {
        JsonValue::String(t) => {
            if is_payload_template(t.as_str()) {
                let n = t.as_str().unicode_len();
                let name = substring(t.as_str(), 3, n - 2);
                match values.get(name.as_str()) {
                    Some(v) => Ok(v.clone_value()),
                    None => Err(TemplateError::MissingValue(name)),
                }
            } else {
                match render_template(t.as_str(), ctx) {
                    Ok(rendered) => Ok(JsonValue::String(string_of(trim_str(rendered.as_str())))),
                    Err(e) => Err(TemplateError::Render(e)),
                }
            }
        },
        JsonValue::Array(a) => {
            let mut out: Vec<JsonValue> = Vec::new();
            let mut i: usize = 0;
            proof {
                lemma_view_seq(a@);
            }
            while i < a.len()
                invariant
                    *template == JsonValue::Array(*a),
                    values.wf(),
                    i <= a.len(),
                    view_seq(a@).len() == a@.len(),
                    forall|j: int| 0 <= j < a.len() ==> #[trigger] view_seq(a@)[j] == crate::json::json_view(a@[j]),
                    fill_items(view_seq(a@).subrange(0, i as int), values@, ctx@) == Ok::<Seq<JsonView>, ApplyError>(view_seq(out@)),
                decreases a.len() - i,
            {
                proof {
                    broadcast use vstd::std_specs::vec::axiom_vec_index_decreases;
                    assert(decreases_to!(*a => a[i as int]));
                    assert(decreases_to!(*template => template->Array_0));
                }
                let item = fill_value(&a[i], values, ctx);
                proof {
                    let t = view_seq(a@).subrange(0, i + 1);
                    assert(t.drop_last() =~= view_seq(a@).subrange(0, i as int));
                    assert(t.last() == a@[i as int]@);
                }
                match item {
                    Ok(v) => {
                        proof {
                            lemma_view_seq_push(out@, v);
                        }
                        out.push(v);
                    },
                    Err(e) => {
                        proof {
                            lemma_fill_items_err(view_seq(a@), values@, ctx@, (i + 1) as int);
                        }
                        return Err(e);
                    },
                }
                i = i + 1;
            }
            assert(view_seq(a@).subrange(0, a.len() as int) =~= view_seq(a@));
            Ok(JsonValue::Array(out))
        },
        JsonValue::Object(o) => {
            let mut out: Vec<(String, JsonValue)> = Vec::new();
            let mut i: usize = 0;
            proof {
                lemma_view_entries(o.entries@);
            }
            while i < o.entries.len()
                invariant
                    *template == JsonValue::Object(*o),
                    values.wf(),
                    i <= o.entries.len(),
                    view_entries(o.entries@).len() == o.entries@.len(),
                    forall|j: int| 0 <= j < o.entries.len() ==> #[trigger] view_entries(o.entries@)[j] == (o.entries@[j].0@, crate::json::json_view(o.entries@[j].1)),
                    fill_members(view_entries(o.entries@).subrange(0, i as int), values@, ctx@) == Ok::<Seq<(Seq<char>, JsonView)>, ApplyError>(view_entries(out@)),
                decreases o.entries.len() - i,
            {
                proof {
                    broadcast use vstd::std_specs::vec::axiom_vec_index_decreases;
                    assert(decreases_to!(o.entries => o.entries[i as int]));
                    assert(decreases_to!(*template => template->Object_0));
                }
                let item = fill_value(&o.entries[i].1, values, ctx);
                proof {
                    let t = view_entries(o.entries@).subrange(0, i + 1);
                    assert(t.drop_last() =~= view_entries(o.entries@).subrange(0, i as int));
                    assert(t.last() == (o.entries@[i as int].0@, o.entries@[i as int].1@));
                }
                match item {
                    Ok(v) => {
                        let k = o.entries[i].0.clone();
                        proof {
                            lemma_view_entries_push(out@, (k, v));
                        }
                        out.push((k, v));
                    },
                    Err(e) => {
                        proof {
                            lemma_fill_members_err(view_entries(o.entries@), values@, ctx@, (i + 1) as int);
                        }
                        return Err(e);
                    },
                }
                i = i + 1;
            }
            assert(view_entries(o.entries@).subrange(0, o.entries.len() as int) =~= view_entries(o.entries@));
            Ok(JsonValue::Object(JsonMap { entries: out }))
        },
        _ => Ok(template.clone_value()),
    }
}

/// Once a prefix of the items fails, every longer prefix fails the same way.
proof fn lemma_fill_items_err(a: Seq<JsonView>, values: Map<Seq<char>, JsonView>, ctx: Seq<char>, k: int)
    requires
        0 < k <= a.len(),
        fill_items(a.subrange(0, k), values, ctx) is Err,
    ensures
        fill_items(a, values, ctx) == fill_items(a.subrange(0, k), values, ctx),
    decreases a.len() - k,
{
    if k < a.len() {
        assert(a.subrange(0, k + 1).drop_last() =~= a.subrange(0, k));
        lemma_fill_items_err(a, values, ctx, k + 1);
    } else {
        assert(a.subrange(0, k) =~= a);
    }
}

/// Once a prefix of the members fails, every longer prefix fails the same way.
proof fn lemma_fill_members_err(o: Seq<(Seq<char>, JsonView)>, values: Map<Seq<char>, JsonView>, ctx: Seq<char>, k: int)
    requires
        0 < k <= o.len(),
        fill_members(o.subrange(0, k), values, ctx) is Err,
    ensures
        fill_members(o, values, ctx) == fill_members(o.subrange(0, k), values, ctx),
    decreases o.len() - k,
{
    if k < o.len() {
        assert(o.subrange(0, k + 1).drop_last() =~= o.subrange(0, k));
        lemma_fill_members_err(o, values, ctx, k + 1);
    } else {
        assert(o.subrange(0, k) =~= o);
    }
}

/// Fills one template value with the given values (see `fill`).
pub fn apply_field(template: &JsonValue, values: &JsonMap) -> (r: Result<JsonValue, TemplateError>)
    requires
        values.wf(),
    ensures
        reported(r, fill(template@, values@, context_text(values))),
{
    let copy = JsonValue::Object(values.clone_map());
    let ctx = to_json_text(&copy);
    fill_value(template, values, ctx.as_str())
}


/// The errors of `apply`, as `fill` reports them.
pub open spec fn map_reported(r: Result<JsonMap, TemplateError>, s: Result<Map<Seq<char>, JsonView>, ApplyError>) -> bool {
    match r {
        Ok(m) => m.wf() && s == Ok::<Map<Seq<char>, JsonView>, ApplyError>(m@),
        Err(TemplateError::Render(msg)) => s == Err::<Map<Seq<char>, JsonView>, ApplyError>(ApplyError::Render(msg@)),
        Err(TemplateError::MissingValue(n)) => s == Err::<Map<Seq<char>, JsonView>, ApplyError>(ApplyError::MissingValue(n@)),
        Err(TemplateError::Validation(_)) => false,
    }
}

/// Fills every entry of an action template, in order; a later entry with the same name
/// replaces an earlier one; the first error wins.
pub open spec fn fill_all(t: Seq<(Seq<char>, JsonView)>, values: Map<Seq<char>, JsonView>, ctx: Seq<char>) -> Result<Map<Seq<char>, JsonView>, ApplyError>
    decreases t.len(),
{
    if t.len() == 0 {
        Ok(Map::empty())
    } else {
        match fill_all(t.drop_last(), values, ctx) {
            Err(e) => Err(e),
            Ok(m) => match fill(t.last().1, values, ctx) {
                Ok(v) => Ok(m.insert(t.last().0, v)),
                Err(e) => Err(e),
            },
        }
    }
}

/// Once a prefix of the entries fails, every longer prefix fails the same way.
proof fn lemma_fill_all_err(t: Seq<(Seq<char>, JsonView)>, values: Map<Seq<char>, JsonView>, ctx: Seq<char>, k: int)
    requires
        0 < k <= t.len(),
        fill_all(t.subrange(0, k), values, ctx) is Err,
    ensures
        fill_all(t, values, ctx) == fill_all(t.subrange(0, k), values, ctx),
    decreases t.len() - k,
{
    if k < t.len() {
        assert(t.subrange(0, k + 1).drop_last() =~= t.subrange(0, k));
        lemma_fill_all_err(t, values, ctx, k + 1);
    } else {
        assert(t.subrange(0, k) =~= t);
    }
}

/// Fills an action template: each named template value is filled with the values.
pub fn apply(template: &Vec<(String, JsonValue)>, values: &JsonMap) -> (r: Result<JsonMap, TemplateError>)
    requires
        values.wf(),
    ensures
        map_reported(r, fill_all(view_entries(template@), values@, context_text(values))),
{
    let copy = JsonValue::Object(values.clone_map());
    let ctx = to_json_text(&copy);
    let mut out = JsonMap::new();
    let mut i: usize = 0;
    proof {
        lemma_view_entries(template@);
    }
    while i < template.len()
        invariant
            values.wf(),
            out.wf(),
            i <= template.len(),
            ctx@ == context_text(values),
            view_entries(template@).len() == template@.len(),
            forall|j: int| 0 <= j < template.len() ==> #[trigger] view_entries(template@)[j] == (template@[j].0@, crate::json::json_view(template@[j].1)),
            fill_all(view_entries(template@).subrange(0, i as int), values@, ctx@) == Ok::<Map<Seq<char>, JsonView>, ApplyError>(out@),
        decreases template.len() - i,
    {
        let item = fill_value(&template[i].1, values, ctx.as_str());
        proof {
            let t = view_entries(template@).subrange(0, i + 1);
            assert(t.drop_last() =~= view_entries(template@).subrange(0, i as int));
            assert(t.last() == (template@[i as int].0@, template@[i as int].1@));
        }
        match item {
            Ok(v) => {
                out.insert(template[i].0.clone(), v);
            },
            Err(e) => {
                proof {
                    lemma_fill_all_err(view_entries(template@), values@, ctx@, (i + 1) as int);
                }
                return Err(e);
            },
        }
        i = i + 1;
    }
    assert(view_entries(template@).subrange(0, template.len() as int) =~= view_entries(template@));
    Ok(out)
}

/// Checks the values against the fields, then fills the template with them.
pub fn validate_and_apply(object: &str, id: &str, fields: &TemplateFields, template: &Vec<(String, JsonValue)>, values: &JsonMap) -> (r: Result<JsonMap, TemplateError>)
    requires
        values.wf(),
    ensures
        field_failures(fields.0@, values@).len() > 0 ==> (r is Err && (r->Err_0 matches TemplateError::Validation(e) && e.object@ == object@ && e.id@ == id@
            && failure_views(e.fields@) == field_failures(fields.0@, values@))),
        field_failures(fields.0@, values@).len() == 0 ==> map_reported(r, fill_all(view_entries(template@), values@, context_text(values))),
{
    match validate(object, Some(id), fields, values) {
        Ok(()) => {},
        Err(e) => {
            return Err(e);
        },
    }
    apply(template, values)
}

/// How a failure is reported to people.
pub open spec fn failure_text(f: FailureView) -> Seq<char> {
    match f {
        FailureView::Required(n) => "Field "@ + n + " is required"@,
        FailureView::Invalid { name, expected, actual } => "Field "@ + name + " expected type "@
            + format_text(expected) + ", saw "@ + json_text(actual),
    }
}

impl TemplateValidationFailure {
    /// How this failure is reported to people: the field, the format it expects and the JSON
    /// text of the value it got.
    pub fn to_string(&self) -> (r: String)
        ensures
            r@ == failure_text(self@),
    {
        let mut out = String::new();
        match self {
            TemplateValidationFailure::Required(n) => {
                push_str(&mut out, "Field ");
                push_str(&mut out, n.as_str());
                push_str(&mut out, " is required");
            },
            TemplateValidationFailure::Invalid { name, expected, actual } => {
                push_str(&mut out, "Field ");
                push_str(&mut out, name.as_str());
                push_str(&mut out, " expected type ");
                let e = expected.to_string();
                push_str(&mut out, e.as_str());
                push_str(&mut out, ", saw ");
                let a = to_json_text(actual);
                push_str(&mut out, a.as_str());
            },
        }
        assert(out@ =~= failure_text(self@));
        out
    }
}

/// The lines reporting a list of failures, each a tab, the failure and a line break.
pub open spec fn failure_lines(f: Seq<FailureView>) -> Seq<char>
    decreases f.len(),
{
    if f.len() == 0 {
        Seq::empty()
    } else {
        failure_lines(f.drop_last()) + "\t"@ + failure_text(f.last()) + "\n"@
    }
}

impl TemplateValidationError {
    /// The report: a heading naming the object and its id, then one line per failure.
    pub fn to_string(&self) -> (r: String)
        ensures
            r@ == "Template validation failure for "@ + self.object@ + " "@ + self.id@ + "\n"@
                + failure_lines(failure_views(self.fields@)),
    {
        let mut out = String::new();
        push_str(&mut out, "Template validation failure for ");
        push_str(&mut out, self.object.as_str());
        push_str(&mut out, " ");
        push_str(&mut out, self.id.as_str());
        push_str(&mut out, "\n");
        let ghost head = out@;
        let mut i: usize = 0;
        while i < self.fields.len()
            invariant
                i <= self.fields.len(),
                out@ == head + failure_lines(failure_views(self.fields@.subrange(0, i as int))),
            decreases self.fields.len() - i,
        {
            push_str(&mut out, "\t");
            let line = self.fields[i].to_string();
            push_str(&mut out, line.as_str());
            push_str(&mut out, "\n");
            proof {
                let f = failure_views(self.fields@.subrange(0, i + 1));
                assert(f.drop_last() =~= failure_views(self.fields@.subrange(0, i as int)));
                assert(f.last() == self.fields@[i as int]@);
            }
            i = i + 1;
        }
        assert(self.fields@.subrange(0, self.fields.len() as int) =~= self.fields@);
        out
    }
}

/// How a template error is reported to people.
pub open spec fn template_error_text(e: TemplateError) -> Seq<char> {
    match e {
        TemplateError::Validation(e) => "Template validation failure for "@ + e.object@ + " "@ + e.id@ + "\n"@
            + failure_lines(failure_views(e.fields@)),
        TemplateError::Render(m) => m@,
        TemplateError::MissingValue(n) => "Missing value for "@ + n@,
    }
}

impl TemplateError {
    /// How this error is reported to people.
    pub fn to_string(&self) -> (r: String)
        ensures
            r@ == template_error_text(*self),
    {
        match self {
            TemplateError::Validation(e) => e.to_string(),
            TemplateError::Render(m) => m.clone(),
            TemplateError::MissingValue(n) => {
                let mut out = string_of("Missing value for ");
                push_str(&mut out, n.as_str());
                out
            },
        }
    }
}

/// A template entry that is a null, a boolean or a number, and the last of its name, fills
/// the result with that same value.
pub proof fn law_fill_all_keeps_plain(t: Seq<(Seq<char>, JsonView)>, values: Map<Seq<char>, JsonView>, ctx: Seq<char>, i: int)
    requires
        fill_all(t, values, ctx) is Ok,
        0 <= i < t.len(),
        forall|j: int| i < j < t.len() ==> t[j].0 != t[i].0,
        is_plain(t[i].1),
    ensures
        fill_all(t, values, ctx)->Ok_0.contains_key(t[i].0),
        fill_all(t, values, ctx)->Ok_0[t[i].0] == t[i].1,
{
    law_fill_all_last_wins(t, values, ctx, i);
    law_fill_keeps_plain_values(t[i].1, values, ctx);
    law_fill_all_names(t, values, ctx, t[i].0);
}

/// A filled template has exactly the names of the template's entries.
pub proof fn law_fill_all_names(t: Seq<(Seq<char>, JsonView)>, values: Map<Seq<char>, JsonView>, ctx: Seq<char>, k: Seq<char>)
    requires
        fill_all(t, values, ctx) is Ok,
    ensures
        fill_all(t, values, ctx)->Ok_0.contains_key(k) <==> exists|i: int| 0 <= i < t.len() && t[i].0 == k,
    decreases t.len(),
{
    if t.len() > 0 {
        law_fill_all_names(t.drop_last(), values, ctx, k);
        if exists|i: int| 0 <= i < t.len() - 1 && t.drop_last()[i].0 == k {
            let i = choose|i: int| 0 <= i < t.len() - 1 && t.drop_last()[i].0 == k;
            assert(t[i].0 == k);
        }
        if exists|i: int| 0 <= i < t.len() && t[i].0 == k {
            let i = choose|i: int| 0 <= i < t.len() && t[i].0 == k;
            if i < t.len() - 1 {
                assert(t.drop_last()[i].0 == k);
            }
        }
    }
}

/// In a filled template, the last entry of a name decides its value: it is that entry's
/// filled value.
pub proof fn law_fill_all_last_wins(t: Seq<(Seq<char>, JsonView)>, values: Map<Seq<char>, JsonView>, ctx: Seq<char>, i: int)
    requires
        fill_all(t, values, ctx) is Ok,
        0 <= i < t.len(),
        forall|j: int| i < j < t.len() ==> t[j].0 != t[i].0,
    ensures
        fill(t[i].1, values, ctx) is Ok,
        fill_all(t, values, ctx)->Ok_0[t[i].0] == fill(t[i].1, values, ctx)->Ok_0,
    decreases t.len(),
{
    if i < t.len() - 1 {
        law_fill_all_last_wins(t.drop_last(), values, ctx, i);
    }
}

} // verus!
