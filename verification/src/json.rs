//! JSON values as the task engine reads and builds them, with their mathematical view.
use vstd::prelude::*;
use crate::text::{decimal, int_text, push_char, push_decimal, push_int, push_str, str_eq};

verus! {

/// A JSON number, kept in the three shapes that a JSON parser distinguishes.
pub enum JsonNumber {
    /// A non-negative integer.
    PosInt(u64),
    /// A negative integer.
    NegInt(i64),
    /// A number with a fraction or an exponent, kept as its decimal text.
    Float(String),
}

/// A JSON value.
pub enum JsonValue {
    Null,
    Bool(bool),
    Number(JsonNumber),
    String(String),
    Array(Vec<JsonValue>),
    Object(JsonMap),
}

/// A JSON object: a list of entries whose keys are distinct (see `wf`).
pub struct JsonMap {
    pub entries: Vec<(String, JsonValue)>,
}

/// The mathematical form of a JSON number.
pub enum NumberView {
    PosInt(nat),
    NegInt(int),
    Float(Seq<char>),
}

/// The mathematical form of a JSON value. Objects keep their entries in order.
pub enum JsonView {
    Null,
    Bool(bool),
    Number(NumberView),
    Str(Seq<char>),
    Array(Seq<JsonView>),
    Object(Seq<(Seq<char>, JsonView)>),
}

impl JsonNumber {
    pub open spec fn view(&self) -> NumberView {
        match self {
            JsonNumber::PosInt(u) => NumberView::PosInt(*u as nat),
            JsonNumber::NegInt(i) => NumberView::NegInt(*i as int),
            JsonNumber::Float(s) => NumberView::Float(s@),
        }
    }
}

pub open spec fn view_seq(a: Seq<JsonValue>) -> Seq<JsonView>
    decreases a,
{
    if a.len() == 0 {
        Seq::empty()
    } else {
        view_seq(a.drop_last()).push(json_view(a.last()))
    }
}

pub open spec fn view_entries(a: Seq<(String, JsonValue)>) -> Seq<(Seq<char>, JsonView)>
    decreases a,
{
    if a.len() == 0 {
        Seq::empty()
    } else {
        view_entries(a.drop_last()).push((a.last().0@, json_view(a.last().1)))
    }
}

pub open spec fn json_view(v: JsonValue) -> JsonView
    decreases v,
{
    match v {
        JsonValue::Null => JsonView::Null,
        JsonValue::Bool(b) => JsonView::Bool(b),
        JsonValue::Number(n) => JsonView::Number(n.view()),
        JsonValue::String(s) => JsonView::Str(s@),
        JsonValue::Array(a) => JsonView::Array(view_seq(a@)),
        JsonValue::Object(o) => JsonView::Object(view_entries(o.entries@)),
    }
}

impl View for JsonValue {
    type V = JsonView;

    open spec fn view(&self) -> JsonView {
        json_view(*self)
    }
}

/// The map that a list of entries denotes; a later entry wins over an earlier one.
pub open spec fn entries_map(s: Seq<(Seq<char>, JsonView)>) -> Map<Seq<char>, JsonView>
    decreases s.len(),
{
    if s.len() == 0 {
        Map::empty()
    } else {
        entries_map(s.drop_last()).insert(s.last().0, s.last().1)
    }
}

/// The keys of a list of entries are pairwise distinct.
pub open spec fn keys_distinct(s: Seq<(Seq<char>, JsonView)>) -> bool {
    forall|i: int, j: int| 0 <= i < j < s.len() ==> s[i].0 != s[j].0
}

/// The index of the entry with the given key, if one has it.
pub open spec fn key_index(s: Seq<(Seq<char>, JsonView)>, k: Seq<char>) -> int {
    choose|i: int| 0 <= i < s.len() && s[i].0 == k
}

impl JsonMap {
    /// The entries, in order, as mathematical values.
    pub open spec fn entries_view(&self) -> Seq<(Seq<char>, JsonView)> {
        view_entries(self.entries@)
    }

    /// No key occurs twice.
    pub open spec fn wf(&self) -> bool {
        keys_distinct(self.entries_view())
    }
}

impl View for JsonMap {
    type V = Map<Seq<char>, JsonView>;

    open spec fn view(&self) -> Map<Seq<char>, JsonView> {
        entries_map(self.entries_view())
    }
}

/// The view of a sequence of values has the same length and is taken element by element.
pub proof fn lemma_view_seq(a: Seq<JsonValue>)
    ensures
        view_seq(a).len() == a.len(),
        forall|i: int| 0 <= i < a.len() ==> #[trigger] view_seq(a)[i] == json_view(a[i]),
    decreases a.len(),
{
    if a.len() > 0 {
        lemma_view_seq(a.drop_last());
    }
}

/// The view of a list of entries has the same length and is taken entry by entry.
pub proof fn lemma_view_entries(a: Seq<(String, JsonValue)>)
    ensures
        view_entries(a).len() == a.len(),
        forall|i: int|
            0 <= i < a.len() ==> #[trigger] view_entries(a)[i] == (a[i].0@, json_view(a[i].1)),
    decreases a.len(),
{
    if a.len() > 0 {
        lemma_view_entries(a.drop_last());
    }
}

/// Pushing a value extends the view by that value's view.
pub proof fn lemma_view_seq_push(a: Seq<JsonValue>, v: JsonValue)
    ensures
        view_seq(a.push(v)) == view_seq(a).push(json_view(v)),
{
    assert(a.push(v).drop_last() =~= a);
}

/// Pushing an entry extends the view by that entry's view.
pub proof fn lemma_view_entries_push(a: Seq<(String, JsonValue)>, e: (String, JsonValue))
    ensures
        view_entries(a.push(e)) == view_entries(a).push((e.0@, json_view(e.1))),
{
    assert(a.push(e).drop_last() =~= a);
}

/// A key is in the denoted map exactly when some entry has it.
pub proof fn lemma_entries_map_dom(s: Seq<(Seq<char>, JsonView)>, k: Seq<char>)
    ensures
        entries_map(s).contains_key(k) <==> exists|i: int| 0 <= i < s.len() && s[i].0 == k,
    decreases s.len(),
{
    if s.len() > 0 {
        lemma_entries_map_dom(s.drop_last(), k);
        if entries_map(s.drop_last()).contains_key(k) {
            let i = choose|i: int| 0 <= i < s.drop_last().len() && s.drop_last()[i].0 == k;
            assert(s[i].0 == k);
        }
        if exists|i: int| 0 <= i < s.len() && s[i].0 == k {
            let i = choose|i: int| 0 <= i < s.len() && s[i].0 == k;
            if i < s.len() - 1 {
                assert(s.drop_last()[i].0 == k);
            }
        }
    }
}

/// When no later entry has the key of entry `i`, the entries denote that entry's value for it.
pub proof fn lemma_last_entry_value(s: Seq<(Seq<char>, JsonView)>, i: int)
    requires
        0 <= i < s.len(),
        forall|j: int| i < j < s.len() ==> s[j].0 != s[i].0,
    ensures
        entries_map(s).contains_key(s[i].0),
        entries_map(s)[s[i].0] == s[i].1,
    decreases s.len(),
{
    if i < s.len() - 1 {
        lemma_last_entry_value(s.drop_last(), i);
    }
}

/// With distinct keys, the denoted map gives each key the value of its entry.
pub proof fn lemma_entries_map_value(s: Seq<(Seq<char>, JsonView)>, i: int)
    requires
        keys_distinct(s),
        0 <= i < s.len(),
    ensures
        entries_map(s).contains_key(s[i].0),
        entries_map(s)[s[i].0] == s[i].1,
    decreases s.len(),
{
    if i < s.len() - 1 {
        lemma_entries_map_value(s.drop_last(), i);
    }
}

/// Replacing the value of one entry of a list with distinct keys updates the denoted map.
pub proof fn lemma_entries_map_update(s: Seq<(Seq<char>, JsonView)>, i: int, v: JsonView)
    requires
        keys_distinct(s),
        0 <= i < s.len(),
    ensures
        entries_map(s.update(i, (s[i].0, v))) == entries_map(s).insert(s[i].0, v),
        keys_distinct(s.update(i, (s[i].0, v))),
    decreases s.len(),
{
    let t = s.update(i, (s[i].0, v));
    if i == s.len() - 1 {
        assert(t.drop_last() =~= s.drop_last());
        lemma_entries_map_dom(s.drop_last(), s[i].0);
        assert(entries_map(s) == entries_map(s.drop_last()).insert(s[i].0, s[i].1));
        assert(entries_map(t) =~= entries_map(s).insert(s[i].0, v));
    } else {
        lemma_entries_map_update(s.drop_last(), i, v);
        assert(t.drop_last() =~= s.drop_last().update(i, (s[i].0, v)));
        assert(entries_map(t) =~= entries_map(s).insert(s[i].0, v));
    }
}

impl JsonNumber {
    /// A copy of this number.
    pub fn clone_number(&self) -> (r: JsonNumber)
        ensures
            r.view() == self.view(),
    {
        match self {
            JsonNumber::PosInt(u) => JsonNumber::PosInt(*u),
            JsonNumber::NegInt(i) => JsonNumber::NegInt(*i),
            JsonNumber::Float(s) => JsonNumber::Float(s.clone()),
        }
    }
}

impl JsonValue {
    /// A deep copy of this value.
    pub fn clone_value(&self) -> (r: JsonValue)
        ensures
            r@ == self@,
        decreases self,
    {
        match self {
            JsonValue::Null => JsonValue::Null,
            JsonValue::Bool(b) => JsonValue::Bool(*b),
            JsonValue::Number(n) => JsonValue::Number(n.clone_number()),
            JsonValue::String(s) => JsonValue::String(s.clone()),
            JsonValue::Array(a) => {
                let mut out: Vec<JsonValue> = Vec::new();
                let mut i: usize = 0;
                proof {
                    lemma_view_seq(a@);
                }
                while i < a.len()
                    invariant
                        *self == JsonValue::Array(*a),
                        i <= a.len(),
                        view_seq(out@) == view_seq(a@).subrange(0, i as int),
                        view_seq(a@).len() == a@.len(),
                        forall|j: int| 0 <= j < a.len() ==> #[trigger] view_seq(a@)[j] == json_view(a@[j]),
                    decreases a.len() - i,
                {
                    proof {
                        broadcast use vstd::std_specs::vec::axiom_vec_index_decreases;
                        assert(decreases_to!(*a => a[i as int]));
                        assert(decreases_to!(*self => self->Array_0));
                    }
                    let c = a[i].clone_value();
                    proof {
                        lemma_view_seq_push(out@, c);
                    }
                    out.push(c);
                    i = i + 1;
                    assert(view_seq(out@) =~= view_seq(a@).subrange(0, i as int));
                }
                assert(view_seq(out@) =~= view_seq(a@));
                JsonValue::Array(out)
            },
            JsonValue::Object(o) => {
                assert(decreases_to!(self => o));
                JsonValue::Object(o.clone_map())
            },
        }
    }

    /// Whether this is `null`.
    pub fn is_null(&self) -> (r: bool)
        ensures
            r == (self@ is Null),
    {
        match self {
            JsonValue::Null => true,
            _ => false,
        }
    }

    /// The text of this value when it is a string.
    pub fn as_str(&self) -> (r: Option<&str>)
        ensures
            match self@ {
                JsonView::Str(s) => r is Some && r.unwrap()@ == s,
                _ => r is None,
            },
    {
        match self {
            JsonValue::String(s) => Some(s.as_str()),
            _ => None,
        }
    }
}

/// The entries after setting a key: an entry with that key keeps its place and takes the
/// value; otherwise the entry goes last.
pub open spec fn insert_entry(s: Seq<(Seq<char>, JsonView)>, k: Seq<char>, v: JsonView) -> Seq<(Seq<char>, JsonView)> {
    if exists|i: int| 0 <= i < s.len() && s[i].0 == k {
        s.update(key_index(s, k), (k, v))
    } else {
        s.push((k, v))
    }
}

/// The entries after setting each entry of `t` in turn.
pub open spec fn insert_entries(s: Seq<(Seq<char>, JsonView)>, t: Seq<(Seq<char>, JsonView)>) -> Seq<(Seq<char>, JsonView)>
    decreases t.len(),
{
    if t.len() == 0 {
        s
    } else {
        let r = insert_entries(s, t.drop_last());
        insert_entry(r, t.last().0, t.last().1)
    }
}

/// Setting a key keeps keys distinct and sets the key in the denoted map.
pub proof fn lemma_insert_entry(s: Seq<(Seq<char>, JsonView)>, k: Seq<char>, v: JsonView)
    requires
        keys_distinct(s),
    ensures
        keys_distinct(insert_entry(s, k, v)),
        entries_map(insert_entry(s, k, v)) == entries_map(s).insert(k, v),
{
    if exists|i: int| 0 <= i < s.len() && s[i].0 == k {
        let i = key_index(s, k);
        lemma_entries_map_update(s, i, v);
    } else {
        let t = s.push((k, v));
        assert(t.drop_last() =~= s);
        assert forall|i: int, j: int| 0 <= i < j < t.len() implies t[i].0 != t[j].0 by {
            if j == t.len() - 1 {
                assert(s[i].0 != k);
            }
        }
    }
}

/// Setting the entries of `t` in turn keeps keys distinct, and the denoted map is the old one
/// with the entries of `t` taking precedence.
pub proof fn lemma_insert_entries(s: Seq<(Seq<char>, JsonView)>, t: Seq<(Seq<char>, JsonView)>)
    requires
        keys_distinct(s),
    ensures
        keys_distinct(insert_entries(s, t)),
        entries_map(insert_entries(s, t)) == entries_map(s).union_prefer_right(entries_map(t)),
    decreases t.len(),
{
    if t.len() > 0 {
        lemma_insert_entries(s, t.drop_last());
        lemma_insert_entry(insert_entries(s, t.drop_last()), t.last().0, t.last().1);
        assert(entries_map(insert_entries(s, t)) =~= entries_map(s).union_prefer_right(entries_map(t)));
    } else {
        assert(entries_map(s).union_prefer_right(entries_map(t)) =~= entries_map(s));
    }
}

impl JsonMap {
    /// A deep copy of this map.
    pub fn clone_map(&self) -> (r: JsonMap)
        ensures
            r.entries_view() == self.entries_view(),
        decreases self,
    {
        let mut out: Vec<(String, JsonValue)> = Vec::new();
        let mut i: usize = 0;
        proof {
            lemma_view_entries(self.entries@);
        }
        while i < self.entries.len()
            invariant
                i <= self.entries.len(),
                view_entries(out@) == view_entries(self.entries@).subrange(0, i as int),
                view_entries(self.entries@).len() == self.entries@.len(),
                forall|j: int|
                    0 <= j < self.entries.len() ==> #[trigger] view_entries(self.entries@)[j] == (
                    self.entries@[j].0@, json_view(self.entries@[j].1)),
            decreases self.entries.len() - i,
        {
            assert(decreases_to!(self => self.entries@[i as int].1));
            let c = self.entries[i].1.clone_value();
            let k = self.entries[i].0.clone();
            proof {
                lemma_view_entries_push(out@, (k, c));
            }
            out.push((k, c));
            i = i + 1;
            assert(view_entries(out@) =~= view_entries(self.entries@).subrange(0, i as int));
        }
        assert(view_entries(out@) =~= view_entries(self.entries@));
        JsonMap { entries: out }
    }

    /// Sets each entry of a list, in order.
    pub fn extend_from(&mut self, entries: &Vec<(String, JsonValue)>)
        requires
            old(self).wf(),
        ensures
            final(self).wf(),
            final(self).entries_view() == insert_entries(old(self).entries_view(), view_entries(entries@)),
            final(self)@ == old(self)@.union_prefer_right(entries_map(view_entries(entries@))),
    {
        let ghost start = self.entries_view();
        let mut i: usize = 0;
        proof {
            lemma_view_entries(entries@);
            assert(view_entries(entries@).subrange(0, 0) =~= Seq::<(Seq<char>, JsonView)>::empty());
        }
        while i < entries.len()
            invariant
                self.wf(),
                i <= entries.len(),
                view_entries(entries@).len() == entries@.len(),
                forall|j: int| 0 <= j < entries.len() ==> #[trigger] view_entries(entries@)[j] == (entries@[j].0@, json_view(entries@[j].1)),
                self.entries_view() == insert_entries(start, view_entries(entries@).subrange(0, i as int)),
            decreases entries.len() - i,
        {
            let k = entries[i].0.clone();
            let v = entries[i].1.clone_value();
            self.insert(k, v);
            proof {
                let t = view_entries(entries@).subrange(0, i + 1);
                assert(t.drop_last() =~= view_entries(entries@).subrange(0, i as int));
                assert(t.last() == view_entries(entries@)[i as int]);
            }
            i = i + 1;
        }
        assert(view_entries(entries@).subrange(0, entries.len() as int) =~= view_entries(entries@));
        proof {
            lemma_insert_entries(start, view_entries(entries@));
        }
    }

    /// The map of a list of entries, set in order: a later entry with the same key wins.
    pub fn from_entries(entries: &Vec<(String, JsonValue)>) -> (r: JsonMap)
        ensures
            r.wf(),
            r.entries_view() == insert_entries(Seq::empty(), view_entries(entries@)),
            r@ == entries_map(view_entries(entries@)),
    {
        let mut m = JsonMap::new();
        assert(m.entries_view() =~= Seq::<(Seq<char>, JsonView)>::empty());
        m.extend_from(entries);
        proof {
            lemma_insert_entries(Seq::empty(), view_entries(entries@));
            assert(entries_map(Seq::<(Seq<char>, JsonView)>::empty()) =~= Map::empty());
            assert(Map::<Seq<char>, JsonView>::empty().union_prefer_right(entries_map(view_entries(entries@))) =~= entries_map(view_entries(entries@)));
        }
        m
    }

    /// An empty map.
    pub fn new() -> (r: JsonMap)
        ensures
            r.wf(),
            r@ == Map::<Seq<char>, JsonView>::empty(),
            r.entries_view().len() == 0,
    {
        let r = JsonMap { entries: Vec::new() };
        assert(r.entries_view() =~= Seq::empty());
        r
    }

    /// The number of entries.
    pub fn len(&self) -> (r: usize)
        ensures
            r == self.entries_view().len(),
    {
        proof {
            lemma_view_entries(self.entries@);
        }
        self.entries.len()
    }

    /// The position of the entry with the given key.
    pub fn position(&self, key: &str) -> (r: Option<usize>)
        ensures
            match r {
                Some(i) => i < self.entries_view().len() && self.entries_view()[i as int].0 == key@,
                None => forall|i: int|
                    0 <= i < self.entries_view().len() ==> self.entries_view()[i].0 != key@,
            },
    {
        proof {
            lemma_view_entries(self.entries@);
        }
        let mut i: usize = 0;
        while i < self.entries.len()
            invariant
                i <= self.entries.len(),
                view_entries(self.entries@).len() == self.entries@.len(),
                forall|j: int|
                    0 <= j < self.entries.len() ==> #[trigger] view_entries(self.entries@)[j] == (
                    self.entries@[j].0@, json_view(self.entries@[j].1)),
                forall|j: int| 0 <= j < i ==> self.entries_view()[j].0 != key@,
            decreases self.entries.len() - i,
        {
            if str_eq(self.entries[i].0.as_str(), key) {
                return Some(i);
            }
            i = i + 1;
        }
        None
    }

    /// The value under a key.
    pub fn get(&self, key: &str) -> (r: Option<&JsonValue>)
        requires
            self.wf(),
        ensures
            match r {
                Some(v) => self@.contains_key(key@) && self@[key@] == v@,
                None => !self@.contains_key(key@),
            },
    {
        proof {
            lemma_view_entries(self.entries@);
            lemma_entries_map_dom(self.entries_view(), key@);
        }
        match self.position(key) {
            Some(i) => {
                proof {
                    lemma_entries_map_value(self.entries_view(), i as int);
                }
                Some(&self.entries[i].1)
            },
            None => None,
        }
    }

    /// Whether a key is present.
    pub fn contains_key(&self, key: &str) -> (r: bool)
        requires
            self.wf(),
        ensures
            r == self@.contains_key(key@),
    {
        self.get(key).is_some()
    }

    /// Sets the value under a key: an existing entry keeps its place, a new key goes last.
    pub fn insert(&mut self, key: String, value: JsonValue)
        requires
            old(self).wf(),
        ensures
            final(self).wf(),
            final(self)@ == old(self)@.insert(key@, value@),
            final(self).entries_view() == insert_entry(old(self).entries_view(), key@, value@),
    {
        proof {
            lemma_view_entries(self.entries@);
        }
        match self.position(key.as_str()) {
            Some(i) => {
                let ghost before = self.entries@;
                let ghost kv = key@;
                let ghost vv = value@;
                proof {
                    let s = view_entries(before);
                    assert(0 <= i < s.len() && s[i as int].0 == kv);
                    let j = key_index(s, kv);
                    assert(j == i);
                }
                self.entries.set(i, (key, value));
                proof {
                    lemma_view_entries(self.entries@);
                    assert(view_entries(self.entries@) =~= view_entries(before).update(
                        i as int,
                        (view_entries(before)[i as int].0, vv),
                    ));
                    lemma_entries_map_update(view_entries(before), i as int, vv);
                }
            },
            None => {
                let ghost before = self.entries@;
                let ghost e = (key, value);
                self.entries.push((key, value));
                proof {
                    lemma_view_entries_push(before, e);
                    lemma_view_entries(before);
                    lemma_view_entries(self.entries@);
                    assert(self.entries_view().drop_last() =~= view_entries(before));
                }
            },
        }
    }
}


/// Whether two JSON values are the same value: same kind, same scalars, the same items in the
/// same order, the same members in the same order.
pub fn json_equal(a: &JsonValue, b: &JsonValue) -> (r: bool)
    ensures
        r == (a@ == b@),
    decreases a,
{
    match (a, b) {
        (JsonValue::Null, JsonValue::Null) => true,
        (JsonValue::Bool(x), JsonValue::Bool(y)) => *x == *y,
        (JsonValue::Number(x), JsonValue::Number(y)) => match (x, y) {
            (JsonNumber::PosInt(p), JsonNumber::PosInt(q)) => *p == *q,
            (JsonNumber::NegInt(p), JsonNumber::NegInt(q)) => *p == *q,
            (JsonNumber::Float(p), JsonNumber::Float(q)) => str_eq(p.as_str(), q.as_str()),
            _ => false,
        },
        (JsonValue::String(x), JsonValue::String(y)) => str_eq(x.as_str(), y.as_str()),
        (JsonValue::Array(x), JsonValue::Array(y)) => {
            proof {
                lemma_view_seq(x@);
                lemma_view_seq(y@);
            }
            if x.len() != y.len() {
                return false;
            }
            let mut i: usize = 0;
            while i < x.len()
                invariant
                    *a == JsonValue::Array(*x),
                    *b == JsonValue::Array(*y),
                    i <= x.len(),
                    x.len() == y.len(),
                    view_seq(x@).len() == x@.len(),
                    view_seq(y@).len() == y@.len(),
                    forall|j: int| 0 <= j < x.len() ==> #[trigger] view_seq(x@)[j] == json_view(x@[j]),
                    forall|j: int| 0 <= j < y.len() ==> #[trigger] view_seq(y@)[j] == json_view(y@[j]),
                    forall|j: int| 0 <= j < i ==> view_seq(x@)[j] == view_seq(y@)[j],
                decreases x.len() - i,
            {
                proof {
                    broadcast use vstd::std_specs::vec::axiom_vec_index_decreases;
                    assert(decreases_to!(*x => x[i as int]));
                    assert(decreases_to!(*a => a->Array_0));
                }
                if !json_equal(&x[i], &y[i]) {
                    assert(view_seq(x@)[i as int] != view_seq(y@)[i as int]);
                    return false;
                }
                i = i + 1;
            }
            assert(view_seq(x@) =~= view_seq(y@));
            true
        },
        (JsonValue::Object(x), JsonValue::Object(y)) => {
            proof {
                lemma_view_entries(x.entries@);
                lemma_view_entries(y.entries@);
            }
            if x.entries.len() != y.entries.len() {
                return false;
            }
            let mut i: usize = 0;
            while i < x.entries.len()
                invariant
                    *a == JsonValue::Object(*x),
                    *b == JsonValue::Object(*y),
                    i <= x.entries.len(),
                    x.entries.len() == y.entries.len(),
                    view_entries(x.entries@).len() == x.entries@.len(),
                    view_entries(y.entries@).len() == y.entries@.len(),
                    forall|j: int| 0 <= j < x.entries.len() ==> #[trigger] view_entries(x.entries@)[j] == (x.entries@[j].0@, json_view(x.entries@[j].1)),
                    forall|j: int| 0 <= j < y.entries.len() ==> #[trigger] view_entries(y.entries@)[j] == (y.entries@[j].0@, json_view(y.entries@[j].1)),
                    forall|j: int| 0 <= j < i ==> view_entries(x.entries@)[j] == view_entries(y.entries@)[j],
                decreases x.entries.len() - i,
            {
                proof {
                    broadcast use vstd::std_specs::vec::axiom_vec_index_decreases;
                    assert(decreases_to!(x.entries => x.entries[i as int]));
                    assert(decreases_to!(*a => a->Object_0));
                }
                if !str_eq(x.entries[i].0.as_str(), y.entries[i].0.as_str()) || !json_equal(&x.entries[i].1, &y.entries[i].1) {
                    assert(view_entries(x.entries@)[i as int] != view_entries(y.entries@)[i as int]);
                    return false;
                }
                i = i + 1;
            }
            assert(view_entries(x.entries@) =~= view_entries(y.entries@));
            true
        },
        _ => false,
    }
}

/// Reading a map after setting a key gives the value set under that key, and what was there
/// under every other key.
pub proof fn law_insert_then_get(m: Map<Seq<char>, JsonView>, k: Seq<char>, v: JsonView, other: Seq<char>)
    requires
        other != k,
    ensures
        m.insert(k, v).contains_key(k),
        m.insert(k, v)[k] == v,
        m.insert(k, v).contains_key(other) == m.contains_key(other),
        m.contains_key(other) ==> m.insert(k, v)[other] == m[other],
{
}

/// Setting a key that is present keeps the entries' number and order of keys; setting a new
/// key adds it last.
pub proof fn law_insert_entry_shape(s: Seq<(Seq<char>, JsonView)>, k: Seq<char>, v: JsonView)
    requires
        keys_distinct(s),
    ensures
        (exists|i: int| 0 <= i < s.len() && s[i].0 == k) ==> insert_entry(s, k, v).len() == s.len()
            && forall|j: int| 0 <= j < s.len() ==> #[trigger] insert_entry(s, k, v)[j].0 == s[j].0,
        !(exists|i: int| 0 <= i < s.len() && s[i].0 == k) ==> insert_entry(s, k, v) == s.push((k, v)),
{
}

/// The lower-case hexadecimal digit for a value below sixteen.
pub open spec fn hex_digit(d: nat) -> char {
    if d < 10 {
        digit_of(d)
    } else if d == 10 { 'a' }
    else if d == 11 { 'b' }
    else if d == 12 { 'c' }
    else if d == 13 { 'd' }
    else if d == 14 { 'e' }
    else { 'f' }
}

pub open spec fn digit_of(d: nat) -> char {
    crate::text::digit_char(d)
}

/// How one character of a string is written inside a JSON string literal.
pub open spec fn escape_char(c: char) -> Seq<char> {
    if c == '"' {
        seq!['\\', '"']
    } else if c == '\\' {
        seq!['\\', '\\']
    } else if c == '\n' {
        seq!['\\', 'n']
    } else if c == '\r' {
        seq!['\\', 'r']
    } else if c == '\t' {
        seq!['\\', 't']
    } else if c == '\u{8}' {
        seq!['\\', 'b']
    } else if c == '\u{c}' {
        seq!['\\', 'f']
    } else if (c as int) < 32 {
        seq!['\\', 'u', '0', '0', hex_digit((c as nat) / 16), hex_digit((c as nat) % 16)]
    } else {
        seq![c]
    }
}

/// A text with every character escaped for a JSON string literal.
pub open spec fn escape_text(s: Seq<char>) -> Seq<char>
    decreases s.len(),
{
    if s.len() == 0 {
        Seq::empty()
    } else {
        escape_text(s.drop_last()) + escape_char(s.last())
    }
}

/// A JSON string literal.
pub open spec fn string_text(s: Seq<char>) -> Seq<char> {
    seq!['"'] + escape_text(s) + seq!['"']
}

/// The JSON text of a number.
pub open spec fn number_text(n: NumberView) -> Seq<char> {
    match n {
        NumberView::PosInt(u) => decimal(u),
        NumberView::NegInt(i) => int_text(i),
        NumberView::Float(t) => t,
    }
}

/// The compact JSON text of a value: no white space, object entries in order.
pub open spec fn json_text(v: JsonView) -> Seq<char>
    decreases v,
{
    match v {
        JsonView::Null => seq!['n', 'u', 'l', 'l'],
        JsonView::Bool(b) => if b {
            seq!['t', 'r', 'u', 'e']
        } else {
            seq!['f', 'a', 'l', 's', 'e']
        },
        JsonView::Number(n) => number_text(n),
        JsonView::Str(s) => string_text(s),
        JsonView::Array(a) => seq!['['] + items_text(a) + seq![']'],
        JsonView::Object(o) => seq!['{'] + members_text(o) + seq!['}'],
    }
}

/// Array items separated by commas.
pub open spec fn items_text(a: Seq<JsonView>) -> Seq<char>
    decreases a,
{
    if a.len() == 0 {
        Seq::empty()
    } else if a.len() == 1 {
        json_text(a[0])
    } else {
        items_text(a.drop_last()) + seq![','] + json_text(a.last())
    }
}

/// Object members `"key":value` separated by commas.
pub open spec fn members_text(o: Seq<(Seq<char>, JsonView)>) -> Seq<char>
    decreases o,
{
    if o.len() == 0 {
        Seq::empty()
    } else if o.len() == 1 {
        string_text(o[0].0) + seq![':'] + json_text(o[0].1)
    } else {
        members_text(o.drop_last()) + seq![','] + string_text(o.last().0) + seq![':'] + json_text(
            o.last().1,
        )
    }
}

/// Appends the hexadecimal digit of a value below sixteen.
fn push_hex(out: &mut String, d: u32)
    requires
        d < 16,
    ensures
        final(out)@ == old(out)@.push(hex_digit(d as nat)),
{
    let c = if d == 0 { '0' }
        else if d == 1 { '1' }
        else if d == 2 { '2' }
        else if d == 3 { '3' }
        else if d == 4 { '4' }
        else if d == 5 { '5' }
        else if d == 6 { '6' }
        else if d == 7 { '7' }
        else if d == 8 { '8' }
        else if d == 9 { '9' }
        else if d == 10 { 'a' }
        else if d == 11 { 'b' }
        else if d == 12 { 'c' }
        else if d == 13 { 'd' }
        else if d == 14 { 'e' }
        else { 'f' };
    push_char(out, c);
}

/// Appends one character, escaped for a JSON string literal.
fn push_escaped_char(out: &mut String, c: char)
    ensures
        final(out)@ == old(out)@ + escape_char(c),
{
    let ghost start = out@;
    if c == '"' {
        push_char(out, '\\');
        push_char(out, '"');
    } else if c == '\\' {
        push_char(out, '\\');
        push_char(out, '\\');
    } else if c == '\n' {
        push_char(out, '\\');
        push_char(out, 'n');
    } else if c == '\r' {
        push_char(out, '\\');
        push_char(out, 'r');
    } else if c == '\t' {
        push_char(out, '\\');
        push_char(out, 't');
    } else if c == '\u{8}' {
        push_char(out, '\\');
        push_char(out, 'b');
    } else if c == '\u{c}' {
        push_char(out, '\\');
        push_char(out, 'f');
    } else if (c as u32) < 32 {
        push_char(out, '\\');
        push_char(out, 'u');
        push_char(out, '0');
        push_char(out, '0');
        let code = c as u32;
        push_hex(out, code / 16);
        push_hex(out, code % 16);
    } else {
        push_char(out, c);
    }
    assert(out@ =~= start + escape_char(c));
}

/// Appends a JSON string literal.
pub fn push_string_literal(out: &mut String, s: &str)
    ensures
        final(out)@ == old(out)@ + string_text(s@),
{
    let ghost start = out@;
    push_char(out, '"');
    let n = s.unicode_len();
    let mut i: usize = 0;
    while i < n
        invariant
            n == s@.len(),
            i <= n,
            out@ == start.push('"') + escape_text(s@.subrange(0, i as int)),
        decreases n - i,
    {
        let c = s.get_char(i);
        push_escaped_char(out, c);
        proof {
            let t = s@.subrange(0, i + 1);
            assert(t.drop_last() =~= s@.subrange(0, i as int));
            assert(t.last() == c);
        }
        i = i + 1;
    }
    assert(s@.subrange(0, n as int) =~= s@);
    push_char(out, '"');
    assert(out@ =~= start + string_text(s@));
}

/// Appends the JSON text of a number.
fn push_number(out: &mut String, n: &JsonNumber)
    ensures
        final(out)@ == old(out)@ + number_text(n.view()),
{
    match n {
        JsonNumber::PosInt(u) => push_decimal(out, *u),
        JsonNumber::NegInt(i) => push_int(out, *i),
        JsonNumber::Float(t) => push_str(out, t.as_str()),
    }
}

/// Appends the compact JSON text of a value.
pub fn push_json(out: &mut String, v: &JsonValue)
    ensures
        final(out)@ == old(out)@ + json_text(v@),
    decreases v,
{
    let ghost start = out@;
    match v {
        JsonValue::Null => {
            push_str(out, "null");
            proof { reveal_strlit("null"); }
            assert(out@ =~= start + json_text(v@));
        },
        JsonValue::Bool(b) => {
            if *b {
                push_str(out, "true");
                proof { reveal_strlit("true"); }
            } else {
                push_str(out, "false");
                proof { reveal_strlit("false"); }
            }
            assert(out@ =~= start + json_text(v@));
        },
        JsonValue::Number(n) => {
            push_number(out, n);
        },
        JsonValue::String(s) => {
            push_string_literal(out, s.as_str());
        },
        JsonValue::Array(a) => {
            push_char(out, '[');
            proof {
                lemma_view_seq(a@);
            }
            let mut i: usize = 0;
            while i < a.len()
                invariant
                    *v == JsonValue::Array(*a),
                    i <= a.len(),
                    view_seq(a@).len() == a@.len(),
                    forall|j: int| 0 <= j < a.len() ==> #[trigger] view_seq(a@)[j] == json_view(a@[j]),
                    out@ == start.push('[') + items_text(view_seq(a@).subrange(0, i as int)),
                decreases a.len() - i,
            {
                if i > 0 {
                    push_char(out, ',');
                }
                proof {
                    broadcast use vstd::std_specs::vec::axiom_vec_index_decreases;
                    assert(decreases_to!(*a => a[i as int]));
                    assert(decreases_to!(*v => v->Array_0));
                }
                push_json(out, &a[i]);
                proof {
                    let t = view_seq(a@).subrange(0, i + 1);
                    assert(t.drop_last() =~= view_seq(a@).subrange(0, i as int));
                    if i == 0 {
                        assert(t.len() == 1);
                    }
                }
                i = i + 1;
            }
            assert(view_seq(a@).subrange(0, a.len() as int) =~= view_seq(a@));
            push_char(out, ']');
            assert(out@ =~= start + json_text(v@));
        },
        JsonValue::Object(o) => {
            push_char(out, '{');
            proof {
                lemma_view_entries(o.entries@);
            }
            let mut i: usize = 0;
            while i < o.entries.len()
                invariant
                    *v == JsonValue::Object(*o),
                    i <= o.entries.len(),
                    view_entries(o.entries@).len() == o.entries@.len(),
                    forall|j: int|
                        0 <= j < o.entries.len() ==> #[trigger] view_entries(o.entries@)[j] == (
                        o.entries@[j].0@, json_view(o.entries@[j].1)),
                    out@ == start.push('{') + members_text(
                        view_entries(o.entries@).subrange(0, i as int),
                    ),
                decreases o.entries.len() - i,
            {
                if i > 0 {
                    push_char(out, ',');
                }
                push_string_literal(out, o.entries[i].0.as_str());
                push_char(out, ':');
                proof {
                    broadcast use vstd::std_specs::vec::axiom_vec_index_decreases;
                    assert(decreases_to!(o.entries => o.entries[i as int]));
                    assert(decreases_to!(*v => v->Object_0));
                }
                push_json(out, &o.entries[i].1);
                proof {
                    let t = view_entries(o.entries@).subrange(0, i + 1);
                    assert(t.drop_last() =~= view_entries(o.entries@).subrange(0, i as int));
                    if i == 0 {
                        assert(t.len() == 1);
                    }
                }
                i = i + 1;
            }
            assert(view_entries(o.entries@).subrange(0, o.entries.len() as int) =~= view_entries(
                o.entries@,
            ));
            push_char(out, '}');
            assert(out@ =~= start + json_text(v@));
        },
    }
}

/// The compact JSON text of a value.
pub fn to_json_text(v: &JsonValue) -> (r: String)
    ensures
        r@ == json_text(v@),
{
    let mut out = String::new();
    push_json(&mut out, v);
    assert(out@ =~= json_text(v@));
    out
}

} // verus!
