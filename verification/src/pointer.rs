//! JSON pointers (RFC 6901) as `serde_json::Value::pointer` reads them: the text after a
//! leading `/` is split at each `/`, in each token `~1` becomes `/` and then `~0` becomes `~`,
//! and each token selects an object's member or an array's element.
use vstd::prelude::*;
use crate::json::{JsonMap, JsonValue, JsonView, entries_map, lemma_last_entry_value, view_entries, view_seq, lemma_view_entries,
    lemma_view_seq, lemma_entries_map_dom, json_view};
use crate::parse::{all_digits, digits_value, is_digit, lemma_digits_value_prefix};
use crate::text::{push_char, str_eq};

verus! {

/// A text with each occurrence of the two characters `a b`, found left to right without
/// overlap, replaced by `c`.
pub open spec fn replace_pair(s: Seq<char>, a: char, b: char, c: char) -> Seq<char>
    decreases s.len(),
{
    if s.len() < 2 {
        s
    } else if s[0] == a && s[1] == b {
        seq![c] + replace_pair(s.subrange(2, s.len() as int), a, b, c)
    } else {
        seq![s[0]] + replace_pair(s.subrange(1, s.len() as int), a, b, c)
    }
}

/// A pointer token with its escapes undone: `~1` becomes `/`, then `~0` becomes `~`.
pub open spec fn unescape(t: Seq<char>) -> Seq<char> {
    replace_pair(replace_pair(t, '~', '1', '/'), '~', '0', '~')
}

/// The pieces of a text between its `/` characters; there is always at least one.
pub open spec fn split_slash(s: Seq<char>) -> Seq<Seq<char>>
    decreases s.len(),
{
    if s.len() == 0 {
        seq![Seq::empty()]
    } else {
        let prev = split_slash(s.drop_last());
        if s.last() == '/' {
            prev.push(Seq::empty())
        } else {
            prev.update(prev.len() - 1, prev.last().push(s.last()))
        }
    }
}

/// The array position a token names: decimal digits without a sign and without a leading
/// zero (but `0` itself), whose value fits in a `usize`.
pub open spec fn index_of(t: Seq<char>) -> Option<nat> {
    if all_digits(t) && !(t[0] == '0' && t.len() != 1) && digits_value(t) <= usize::MAX {
        Some(digits_value(t))
    } else {
        None
    }
}

/// The value one token selects in a value.
pub open spec fn step(v: JsonView, tok: Seq<char>) -> Option<JsonView> {
    match v {
        JsonView::Object(o) => if entries_map(o).contains_key(tok) {
            Some(entries_map(o)[tok])
        } else {
            None
        },
        JsonView::Array(a) => match index_of(tok) {
            Some(i) => if i < a.len() {
                Some(a[i as int])
            } else {
                None
            },
            None => None,
        },
        _ => None,
    }
}

/// The value the tokens select in turn.
pub open spec fn follow(v: JsonView, toks: Seq<Seq<char>>) -> Option<JsonView>
    decreases toks.len(),
{
    if toks.len() == 0 {
        Some(v)
    } else {
        match follow(v, toks.drop_last()) {
            None => None,
            Some(t) => step(t, toks.last()),
        }
    }
}

/// The tokens of a pointer that starts with `/`.
pub open spec fn pointer_tokens(path: Seq<char>) -> Seq<Seq<char>> {
    split_slash(path.subrange(1, path.len() as int)).map_values(|t: Seq<char>| unescape(t))
}

/// The value a pointer selects: the whole value for the empty pointer, nothing for a pointer
/// that does not start with `/`.
pub open spec fn json_pointer(v: JsonView, path: Seq<char>) -> Option<JsonView> {
    if path.len() == 0 {
        Some(v)
    } else if path[0] != '/' {
        None
    } else {
        follow(v, pointer_tokens(path))
    }
}

/// Replaces each `a b` by `c` (see `replace_pair`).
fn replace_pair_exec(s: &Vec<char>, a: char, b: char, c: char) -> (r: Vec<char>)
    ensures
        r@ == replace_pair(s@, a, b, c),
{
    let mut out: Vec<char> = Vec::new();
    let mut i: usize = 0;
    assert(s@.subrange(0, s@.len() as int) =~= s@);
    assert(out@ + s@ =~= s@);
    while i < s.len()
        invariant
            i <= s.len(),
            out@ + replace_pair(s@.subrange(i as int, s@.len() as int), a, b, c) == replace_pair(s@, a, b, c),
        decreases s.len() - i,
    {
        let ghost rest = s@.subrange(i as int, s@.len() as int);
        if i + 1 < s.len() && s[i] == a && s[i + 1] == b {
            out.push(c);
            proof {
                assert(rest.subrange(2, rest.len() as int) =~= s@.subrange(i + 2, s@.len() as int));
            }
            i = i + 2;
        } else {
            out.push(s[i]);
            proof {
                if rest.len() >= 2 {
                    assert(rest.subrange(1, rest.len() as int) =~= s@.subrange(i + 1, s@.len() as int));
                } else {
                    assert(rest == seq![s@[i as int]]);
                    assert(s@.subrange(i + 1, s@.len() as int) =~= Seq::<char>::empty());
                }
            }
            i = i + 1;
        }
    }
    assert(s@.subrange(s@.len() as int, s@.len() as int) =~= Seq::<char>::empty());
    out
}

/// The array position a token names (see `index_of`).
fn parse_index(t: &Vec<char>) -> (r: Option<usize>)
    ensures
        match index_of(t@) {
            Some(i) => r == Some(i as usize),
            None => r is None,
        },
{
    if t.len() == 0 || (t[0] == '0' && t.len() != 1) {
        return None;
    }
    let mut value: usize = 0;
    let mut i: usize = 0;
    while i < t.len()
        invariant
            t@.len() > 0,
            !(t@[0] == '0' && t@.len() != 1),
            i <= t.len(),
            forall|j: int| 0 <= j < i ==> is_digit(#[trigger] t@[j]),
            value as nat == digits_value(t@.subrange(0, i as int)),
        decreases t.len() - i,
    {
        let ch = t[i];
        if !(ch >= '0' && ch <= '9') {
            assert(!is_digit(t@[i as int]));
            return None;
        }
        let digit = (ch as u32 - '0' as u32) as usize;
        assert(t@.subrange(0, i + 1).drop_last() =~= t@.subrange(0, i as int));
        if value > (usize::MAX - digit) / 10 {
            proof {
                assert(value * 10 + digit > usize::MAX) by (nonlinear_arith)
                    requires
                        value > (usize::MAX - digit) / 10,
                        digit <= 9,
                ;
                if all_digits(t@) {
                    lemma_digits_value_prefix(t@, i + 1);
                }
            }
            return None;
        }
        proof {
            assert(value * 10 + digit <= usize::MAX) by (nonlinear_arith)
                requires
                    value <= (usize::MAX - digit) / 10,
                    digit <= 9,
            ;
        }
        value = value * 10 + digit;
        i = i + 1;
    }
    assert(t@.subrange(0, t.len() as int) =~= t@);
    Some(value)
}

/// The value of the last entry with a key, which is the value the entries denote for it.
fn lookup_last<'a>(o: &'a JsonMap, key: &Vec<char>) -> (r: Option<&'a JsonValue>)
    ensures
        match r {
            Some(v) => entries_map(o.entries_view()).contains_key(key@) && entries_map(o.entries_view())[key@] == v@,
            None => !entries_map(o.entries_view()).contains_key(key@),
        },
{
    proof {
        lemma_view_entries(o.entries@);
    }
    let mut i: usize = o.entries.len();
    while i > 0
        invariant
            i <= o.entries.len(),
            view_entries(o.entries@).len() == o.entries@.len(),
            forall|j: int| 0 <= j < o.entries.len() ==> #[trigger] view_entries(o.entries@)[j] == (o.entries@[j].0@, json_view(o.entries@[j].1)),
            forall|j: int| i <= j < o.entries.len() ==> o.entries_view()[j].0 != key@,
        decreases i,
    {
        i = i - 1;
        if text_eq(&o.entries[i].0, key) {
            proof {
                lemma_last_entry_value(o.entries_view(), i as int);
            }
            return Some(&o.entries[i].1);
        }
    }
    proof {
        lemma_entries_map_dom(o.entries_view(), key@);
    }
    None
}

/// A string and a list of characters hold the same text.
fn text_eq(s: &String, t: &Vec<char>) -> (r: bool)
    ensures
        r == (s@ == t@),
{
    let cs = crate::text::chars_of(s.as_str());
    if cs.len() != t.len() {
        return false;
    }
    let mut i: usize = 0;
    while i < cs.len()
        invariant
            cs@ == s@,
            cs.len() == t.len(),
            i <= cs.len(),
            forall|j: int| 0 <= j < i ==> cs@[j] == t@[j],
        decreases cs.len() - i,
    {
        if cs[i] != t[i] {
            return false;
        }
        i = i + 1;
    }
    assert(cs@ =~= t@);
    true
}

/// The value a pointer selects, copied (see `json_pointer`).
pub fn pointer(v: &JsonValue, path: &str) -> (r: Option<JsonValue>)
    ensures
        match json_pointer(v@, path@) {
            Some(t) => r is Some && r->0@ == t,
            None => r is None,
        },
{
    let cs = crate::text::chars_of(path);
    if cs.len() == 0 {
        return Some(v.clone_value());
    }
    if cs[0] != '/' {
        return None;
    }
    let ghost body = path@.subrange(1, path@.len() as int);
    let mut cur: &JsonValue = v;
    let mut tok: Vec<char> = Vec::new();
    let mut done: usize = 0;
    let mut i: usize = 1;
    // `cur` is what the finished tokens select; `tok` is the unfinished last piece.
    while i <= cs.len()
        invariant
            cs@ == path@,
            cs@.len() > 0,
            cs@[0] == '/',
            body == path@.subrange(1, path@.len() as int),
            1 <= i <= cs.len(),
            done < i,
            split_slash(body.subrange(0, i - 1)).len() == done + 1,
            tok@ == split_slash(body.subrange(0, i - 1))[done as int],
            follow(v@, split_slash(body.subrange(0, i - 1)).subrange(0, done as int).map_values(|t: Seq<char>| unescape(t)))
                == Some(cur@),
        decreases cs.len() + 1 - i,
    {
        if i == cs.len() || cs[i] == '/' {
            let a = replace_pair_exec(&tok, '~', '1', '/');
            let key = replace_pair_exec(&a, '~', '0', '~');
            let next: Option<&JsonValue> = match cur {
                JsonValue::Object(o) => lookup_last(o, &key),
                JsonValue::Array(arr) => match parse_index(&key) {
                    Some(n) => if n < arr.len() {
                        proof {
                            lemma_view_seq(arr@);
                        }
                        Some(&arr[n])
                    } else {
                        proof {
                            lemma_view_seq(arr@);
                        }
                        None
                    },
                    None => None,
                },
                _ => None,
            };
            let ghost pieces = split_slash(body.subrange(0, i - 1));
            proof {
                let toks = pieces.subrange(0, done + 1).map_values(|t: Seq<char>| unescape(t));
                assert(toks.drop_last() =~= pieces.subrange(0, done as int).map_values(|t: Seq<char>| unescape(t)));
                assert(toks.last() == unescape(tok@));
                assert(key@ == unescape(tok@));
            }
            match next {
                Some(n) => {
                    cur = n;
                },
                None => {
                    proof {
                        assert(pieces.subrange(0, done + 1) =~= pieces);
                        lemma_follow_none(v@, pieces, (done + 1) as int, i as int, body);
                    }
                    return None;
                },
            }
            if i == cs.len() {
                proof {
                    assert(body.subrange(0, i - 1) =~= body);
                    assert(pieces.subrange(0, done + 1) =~= pieces);
                }
                return Some(cur.clone_value());
            }
            proof {
                assert(body.subrange(0, i as int).drop_last() =~= body.subrange(0, i - 1));
                assert(body[i - 1] == '/');
                let np = split_slash(body.subrange(0, i as int));
                assert(np == pieces.push(Seq::empty()));
                assert(np.subrange(0, done + 1) =~= pieces.subrange(0, done + 1));
            }
            tok = Vec::new();
            done = done + 1;
        } else {
            let ghost pieces = split_slash(body.subrange(0, i - 1));
            tok.push(cs[i]);
            proof {
                assert(body.subrange(0, i as int).drop_last() =~= body.subrange(0, i - 1));
                assert(body[i - 1] == cs@[i as int]);
                let np = split_slash(body.subrange(0, i as int));
                assert(np == pieces.update(done as int, pieces[done as int].push(cs@[i as int])));
                assert(np.subrange(0, done as int) =~= pieces.subrange(0, done as int));
            }
        }
        i = i + 1;
    }
    None
}

/// Once the first `k` tokens select nothing, all of them select nothing.
proof fn lemma_follow_none(v: JsonView, pieces: Seq<Seq<char>>, k: int, i: int, body: Seq<char>)
    requires
        k == pieces.len(),
        follow(v, pieces.map_values(|t: Seq<char>| unescape(t))) is None,
        pieces == split_slash(body.subrange(0, i - 1)),
        1 <= i <= body.len() + 1,
        i - 1 < body.len() ==> body[i - 1] == '/',
    ensures
        follow(v, split_slash(body).map_values(|t: Seq<char>| unescape(t))) is None,
{
    let all = split_slash(body);
    if i - 1 == body.len() {
        assert(body.subrange(0, i - 1) =~= body);
    } else {
        lemma_split_prefix(body, i - 1, body.len() as int);
        assert(body.subrange(0, body.len() as int) =~= body);
    }
    assert(all.subrange(0, k) == pieces);
    let f = |t: Seq<char>| unescape(t);
    assert(all.map_values(f).subrange(0, k) =~= pieces.map_values(f));
    lemma_follow_prefix_none(v, all.map_values(f), k);
}

/// The pieces before a `/` at position `j` stay the first pieces of any longer prefix.
proof fn lemma_split_prefix(s: Seq<char>, j: int, n: int)
    requires
        0 <= j < n <= s.len(),
        s[j] == '/',
    ensures
        split_slash(s.subrange(0, n)).len() > split_slash(s.subrange(0, j)).len(),
        split_slash(s.subrange(0, n)).subrange(0, split_slash(s.subrange(0, j)).len() as int)
            == split_slash(s.subrange(0, j)),
    decreases n - j,
{
    let p = split_slash(s.subrange(0, j));
    assert(s.subrange(0, n).drop_last() =~= s.subrange(0, n - 1));
    if n == j + 1 {
        assert(s.subrange(0, n).last() == '/');
        assert(split_slash(s.subrange(0, n)).subrange(0, p.len() as int) =~= p);
    } else {
        lemma_split_prefix(s, j, n - 1);
        let prev = split_slash(s.subrange(0, n - 1));
        assert(split_slash(s.subrange(0, n)).subrange(0, p.len() as int) =~= prev.subrange(0, p.len() as int));
    }
}

/// Tokens select nothing when a prefix of them does.
proof fn lemma_follow_prefix_none(v: JsonView, toks: Seq<Seq<char>>, k: int)
    requires
        0 <= k <= toks.len(),
        follow(v, toks.subrange(0, k)) is None,
    ensures
        follow(v, toks) is None,
    decreases toks.len(),
{
    if toks.len() == k {
        assert(toks.subrange(0, k) =~= toks);
    } else {
        assert(toks.drop_last().subrange(0, k) =~= toks.subrange(0, k));
        lemma_follow_prefix_none(v, toks.drop_last(), k);
    }
}

/// The empty pointer selects the whole value.
pub proof fn law_empty_pointer(v: JsonView)
    ensures
        json_pointer(v, Seq::empty()) == Some(v),
{
}

/// A pointer that does not start with `/` selects nothing.
pub proof fn law_relative_pointer(v: JsonView, path: Seq<char>)
    requires
        path.len() > 0,
        path[0] != '/',
    ensures
        json_pointer(v, path) is None,
{
}

/// A text without `~` is its own unescaping.
proof fn lemma_replace_pair_plain(s: Seq<char>, a: char, b: char, c: char)
    requires
        forall|i: int| 0 <= i < s.len() ==> s[i] != a,
    ensures
        replace_pair(s, a, b, c) == s,
    decreases s.len(),
{
    if s.len() >= 2 {
        let rest = s.subrange(1, s.len() as int);
        lemma_replace_pair_plain(rest, a, b, c);
        assert(seq![s[0]] + rest =~= s);
    }
}

/// A text without `/` is one piece.
proof fn lemma_split_plain(s: Seq<char>)
    requires
        forall|i: int| 0 <= i < s.len() ==> s[i] != '/',
    ensures
        split_slash(s) == seq![s],
    decreases s.len(),
{
    if s.len() > 0 {
        lemma_split_plain(s.drop_last());
        assert(s[s.len() - 1] != '/');
        assert(s.drop_last().push(s.last()) =~= s);
        let prev = split_slash(s.drop_last());
        assert(prev.update(prev.len() - 1, prev.last().push(s.last())) =~= seq![s]);
    } else {
        assert(s =~= Seq::<char>::empty());
        assert(split_slash(s) =~= seq![s]);
    }
}

/// The pointer `/name`, for a name without `/` and `~`, selects the member `name` of an
/// object (its last entry of that name), and nothing when there is none.
pub proof fn law_member_pointer(o: Seq<(Seq<char>, JsonView)>, name: Seq<char>)
    requires
        forall|i: int| 0 <= i < name.len() ==> name[i] != '/' && name[i] != '~',
    ensures
        json_pointer(JsonView::Object(o), seq!['/'] + name) == (if entries_map(o).contains_key(name) {
            Some(entries_map(o)[name])
        } else {
            None
        }),
{
    let path = seq!['/'] + name;
    assert(path.subrange(1, path.len() as int) =~= name);
    lemma_split_plain(name);
    lemma_replace_pair_plain(name, '~', '1', '/');
    lemma_replace_pair_plain(name, '~', '0', '~');
    let toks = pointer_tokens(path);
    assert(toks =~= seq![name]);
    assert(toks.drop_last() =~= Seq::<Seq<char>>::empty());
    assert(path[0] == '/');
    assert(follow(JsonView::Object(o), toks.drop_last()) == Some(JsonView::Object(o)));
    assert(follow(JsonView::Object(o), toks) == step(JsonView::Object(o), name));
}

/// The pointer `/i`, for the decimal text of a position without leading zeros, selects that
/// element of an array, and nothing past its end.
pub proof fn law_index_pointer(a: Seq<JsonView>, t: Seq<char>)
    requires
        all_digits(t),
        !(t[0] == '0' && t.len() != 1),
        digits_value(t) <= usize::MAX,
    ensures
        json_pointer(JsonView::Array(a), seq!['/'] + t) == (if digits_value(t) < a.len() {
            Some(a[digits_value(t) as int])
        } else {
            None
        }),
{
    let path = seq!['/'] + t;
    assert(path.subrange(1, path.len() as int) =~= t);
    assert forall|i: int| 0 <= i < t.len() implies t[i] != '/' && t[i] != '~' by {
        assert(is_digit(t[i]));
    }
    lemma_split_plain(t);
    lemma_replace_pair_plain(t, '~', '1', '/');
    lemma_replace_pair_plain(t, '~', '0', '~');
    let toks = pointer_tokens(path);
    assert(toks =~= seq![t]);
    assert(toks.drop_last() =~= Seq::<Seq<char>>::empty());
    assert(path[0] == '/');
    assert(follow(JsonView::Array(a), toks.drop_last()) == Some(JsonView::Array(a)));
    assert(follow(JsonView::Array(a), toks) == step(JsonView::Array(a), t));
    assert(index_of(t) == Some(digits_value(t)));
}

} // verus!
