//! The JSON document model that response bodies are parsed into.
//!
//! A `JsonValue` is kept in canonical form: the entries of every object are
//! strictly sorted by key, so two values denote the same JSON document
//! exactly when `eq_val` holds. Numbers carry a decimal rendering — for a
//! parsed document, the parser's own re-rendering of the number — and are
//! compared on that form.

use vstd::prelude::*;

verus! {

broadcast use vstd::std_specs::vec::axiom_vec_index_decreases;

/// A JSON document in canonical form.
#[derive(Debug)]
pub enum JsonValue {
    Null,
    Bool(bool),
    /// A number, held as a decimal rendering (for parsed documents, the
    /// parser's re-rendering of the parsed number).
    Number(String),
    Text(String),
    Array(Vec<JsonValue>),
    Object(Vec<(String, JsonValue)>),
}

/// Strict lexicographic order, by code point, on the suffixes of two
/// character sequences starting at position `i`.
pub open spec fn lex_lt_from(a: Seq<char>, b: Seq<char>, i: int) -> bool
    decreases a.len() - i,
{
    if i >= b.len() {
        false
    } else if i >= a.len() {
        true
    } else if a[i] != b[i] {
        (a[i] as u32) < (b[i] as u32)
    } else {
        lex_lt_from(a, b, i + 1)
    }
}

/// Strict lexicographic order on character sequences, by code point; this is
/// the order `String`'s `Ord` instance uses, and the order object keys are
/// canonically sorted in.
pub open spec fn lex_lt(a: Seq<char>, b: Seq<char>) -> bool {
    lex_lt_from(a, b, 0)
}

impl JsonValue {
    /// Well-formedness: every object's entries are strictly sorted by key.
    pub open spec fn wf(self) -> bool
        decreases self,
    {
        match self {
            JsonValue::Null => true,
            JsonValue::Bool(_) => true,
            JsonValue::Number(_) => true,
            JsonValue::Text(_) => true,
            JsonValue::Array(items) => forall|i: int|
                0 <= i < items@.len() ==> (#[trigger] items@[i]).wf(),
            JsonValue::Object(entries) => {
                &&& forall|i: int| 0 <= i < entries@.len() ==> (#[trigger] entries@[i]).1.wf()
                &&& forall|i: int, j: int|
                    0 <= i < j < entries@.len() ==> lex_lt(
                        #[trigger] entries@[i].0@,
                        #[trigger] entries@[j].0@,
                    )
            },
        }
    }
}

/// Structural equality of two documents. On well-formed values this is
/// exactly JSON equality: order-insensitive on objects (entries are sorted),
/// order-sensitive on arrays.
pub open spec fn eq_val(a: JsonValue, b: JsonValue) -> bool
    decreases a,
{
    match a {
        JsonValue::Null => b is Null,
        JsonValue::Bool(x) => b matches JsonValue::Bool(y) && x == y,
        JsonValue::Number(x) => b matches JsonValue::Number(y) && x@ == y@,
        JsonValue::Text(x) => b matches JsonValue::Text(y) && x@ == y@,
        JsonValue::Array(x) => match b {
            JsonValue::Array(y) => x@.len() == y@.len() && forall|i: int|
                0 <= i < x@.len() ==> eq_val(#[trigger] x@[i], y@[i]),
            _ => false,
        },
        JsonValue::Object(x) => match b {
            JsonValue::Object(y) => x@.len() == y@.len() && forall|i: int|
                0 <= i < x@.len() ==> ((#[trigger] x@[i]).0@ == y@[i].0@ && eq_val(
                    x@[i].1,
                    y@[i].1,
                )),
            _ => false,
        },
    }
}

/// Decides `eq_val` on two documents.
#[verifier::loop_isolation(false)]
pub fn json_eq(a: &JsonValue, b: &JsonValue) -> (r: bool)
    ensures
        r == eq_val(*a, *b),
    decreases *a,
{
    match a {
        JsonValue::Null => match b {
            JsonValue::Null => true,
            _ => false,
        },
        JsonValue::Bool(x) => match b {
            JsonValue::Bool(y) => *x == *y,
            _ => false,
        },
        JsonValue::Number(x) => match b {
            JsonValue::Number(y) => *x == *y,
            _ => false,
        },
        JsonValue::Text(x) => match b {
            JsonValue::Text(y) => *x == *y,
            _ => false,
        },
        JsonValue::Array(x) => match b {
            JsonValue::Array(y) => {
                if x.len() != y.len() {
                    return false;
                }
                let mut i: usize = 0;
                while i < x.len()
                    invariant
                        0 <= i <= x@.len(),
                        x@.len() == y@.len(),
                        forall|j: int| 0 <= j < i ==> eq_val(#[trigger] x@[j], y@[j]),
                    decreases x@.len() - i,
                {
                    if !json_eq(&x[i], &y[i]) {
                        return false;
                    }
                    i += 1;
                }
                true
            },
            _ => false,
        },
        JsonValue::Object(x) => match b {
            JsonValue::Object(y) => {
                if x.len() != y.len() {
                    return false;
                }
                let mut i: usize = 0;
                while i < x.len()
                    invariant
                        0 <= i <= x@.len(),
                        x@.len() == y@.len(),
                        forall|j: int|
                            0 <= j < i ==> ((#[trigger] x@[j]).0@ == y@[j].0@ && eq_val(
                                x@[j].1,
                                y@[j].1,
                            )),
                    decreases x@.len() - i,
                {
                    let keys_equal: bool = x[i].0 == y[i].0;
                    if !keys_equal {
                        return false;
                    }
                    if !json_eq(&x[i].1, &y[i].1) {
                        return false;
                    }
                    i += 1;
                }
                true
            },
            _ => false,
        },
    }
}

/// The number of elements of the suffix of `s` starting at `i` that are
/// `eq_val`-equal to `v`.
pub open spec fn count_eq_from(s: Seq<JsonValue>, v: JsonValue, i: int) -> nat
    decreases s.len() - i,
{
    if i < 0 || i >= s.len() {
        0
    } else {
        (if eq_val(s[i], v) {
            1nat
        } else {
            0nat
        }) + count_eq_from(s, v, i + 1)
    }
}

/// The number of elements of `s` that are `eq_val`-equal to `v`.
pub open spec fn count_eq(s: Seq<JsonValue>, v: JsonValue) -> nat {
    count_eq_from(s, v, 0)
}

/// Counts the elements of `items` equal to `v`.
#[verifier::loop_isolation(false)]
pub fn count_matches(items: &Vec<JsonValue>, v: &JsonValue) -> (n: usize)
    ensures
        n == count_eq(items@, *v),
{
    let mut n: usize = 0;
    let mut i: usize = 0;
    while i < items.len()
        invariant
            0 <= i <= items@.len(),
            n <= i,
            count_eq(items@, *v) == n + count_eq_from(items@, *v, i as int),
        decreases items@.len() - i,
    {
        if json_eq(&items[i], v) {
            n += 1;
        }
        i += 1;
    }
    n
}

/// Casting to a code point is injective.
proof fn lemma_char_cast_injective(c: char, d: char)
    requires
        c as u32 == d as u32,
    ensures
        c == d,
{
}

/// The lexicographic order is transitive.
pub proof fn lemma_lex_lt_trans(a: Seq<char>, b: Seq<char>, c: Seq<char>)
    requires
        lex_lt(a, b),
        lex_lt(b, c),
    ensures
        lex_lt(a, c),
{
    lemma_lex_lt_from_trans(a, b, c, 0);
}

proof fn lemma_lex_lt_from_trans(a: Seq<char>, b: Seq<char>, c: Seq<char>, i: int)
    requires
        lex_lt_from(a, b, i),
        lex_lt_from(b, c, i),
    ensures
        lex_lt_from(a, c, i),
    decreases a.len() - i,
{
    if i < a.len() && i < b.len() && i < c.len() && a[i] == b[i] && b[i] == c[i] {
        lemma_lex_lt_from_trans(a, b, c, i + 1);
    }
}

/// Any two character sequences are equal or ordered one way.
pub proof fn lemma_lex_lt_connected(a: Seq<char>, b: Seq<char>)
    ensures
        a == b || lex_lt(a, b) || lex_lt(b, a),
{
    lemma_lex_lt_from_connected(a, b, 0);
}

proof fn lemma_lex_lt_from_connected(a: Seq<char>, b: Seq<char>, i: int)
    requires
        0 <= i <= a.len(),
        i <= b.len(),
        forall|j: int| 0 <= j < i ==> a[j] == b[j],
    ensures
        a == b || lex_lt_from(a, b, i) || lex_lt_from(b, a, i),
    decreases a.len() + b.len() - i,
{
    if i >= a.len() && i >= b.len() {
        assert(a =~= b);
    } else if i >= b.len() {
        assert(lex_lt_from(b, a, i));
    } else if i >= a.len() {
        assert(lex_lt_from(a, b, i));
    } else if a[i] != b[i] {
        if (a[i] as u32) < (b[i] as u32) {
            assert(lex_lt_from(a, b, i));
        } else {
            assert((b[i] as u32) != (a[i] as u32)) by {
                if (a[i] as u32) == (b[i] as u32) {
                    lemma_char_cast_injective(a[i], b[i]);
                }
            }
            assert((b[i] as u32) < (a[i] as u32));
            assert(lex_lt_from(b, a, i));
        }
    } else {
        lemma_lex_lt_from_connected(a, b, i + 1);
    }
}

/// Entries strictly sorted by key.
pub open spec fn sorted_entries(e: Seq<(String, JsonValue)>) -> bool {
    forall|i: int, j: int|
        0 <= i < j < e.len() ==> lex_lt((#[trigger] e[i]).0@, (#[trigger] e[j]).0@)
}

/// The entries of an object after setting `key` to `value`: the entry is
/// placed at its sorted position, replacing an existing entry for the same
/// key.
pub open spec fn spec_obj_insert(
    e: Seq<(String, JsonValue)>,
    key: String,
    value: JsonValue,
) -> Seq<(String, JsonValue)>
    decreases e.len(),
{
    if e.len() == 0 {
        seq![(key, value)]
    } else if lex_lt(key@, e[0].0@) {
        seq![(key, value)] + e
    } else if key@ == e[0].0@ {
        seq![(key, value)] + e.drop_first()
    } else {
        seq![e[0]] + spec_obj_insert(e.drop_first(), key, value)
    }
}

/// Insertion keeps entries sorted, and every entry of the result is the
/// new one or one of the old ones.
pub proof fn lemma_obj_insert_sorted(e: Seq<(String, JsonValue)>, key: String, value: JsonValue)
    requires
        sorted_entries(e),
    ensures
        sorted_entries(spec_obj_insert(e, key, value)),
        forall|m: int|
            0 <= m < spec_obj_insert(e, key, value).len() ==> (#[trigger] spec_obj_insert(
                e,
                key,
                value,
            )[m]) == (key, value) || e.contains(spec_obj_insert(e, key, value)[m]),
    decreases e.len(),
{
    let r = spec_obj_insert(e, key, value);
    if e.len() == 0 {
    } else if lex_lt(key@, e[0].0@) {
        assert forall|i: int, j: int| 0 <= i < j < r.len() implies lex_lt(
            (#[trigger] r[i]).0@,
            (#[trigger] r[j]).0@,
        ) by {
            if i == 0 {
                if j > 1 {
                    lemma_lex_lt_trans(key@, e[0].0@, e[j - 1].0@);
                }
            }
        }
        assert forall|m: int| 0 <= m < r.len() implies (#[trigger] r[m]) == (key, value)
            || e.contains(r[m]) by {
            if m > 0 {
                assert(r[m] == e[m - 1]);
            }
        }
    } else if key@ == e[0].0@ {
        assert forall|m: int| 0 <= m < r.len() implies (#[trigger] r[m]) == (key, value)
            || e.contains(r[m]) by {
            if m > 0 {
                assert(r[m] == e[m]);
            }
        }
    } else {
        lemma_lex_lt_connected(key@, e[0].0@);
        assert(lex_lt(e[0].0@, key@));
        assert(sorted_entries(e.drop_first()));
        lemma_obj_insert_sorted(e.drop_first(), key, value);
        let tail = spec_obj_insert(e.drop_first(), key, value);
        assert forall|i: int, j: int| 0 <= i < j < r.len() implies lex_lt(
            (#[trigger] r[i]).0@,
            (#[trigger] r[j]).0@,
        ) by {
            if i == 0 {
                assert(r[j] == tail[j - 1]);
                if tail[j - 1] == (key, value) {
                    assert(lex_lt(e[0].0@, key@));
                } else {
                    assert(e.drop_first().contains(tail[j - 1]));
                    let w = choose|w: int|
                        0 <= w < e.drop_first().len() && e.drop_first()[w] == tail[j - 1];
                    assert(e[w + 1] == tail[j - 1]);
                    assert(lex_lt(e[0].0@, e[w + 1].0@));
                }
            } else {
                assert(r[i] == tail[i - 1] && r[j] == tail[j - 1]);
            }
        }
        assert forall|m: int| 0 <= m < r.len() implies (#[trigger] r[m]) == (key, value)
            || e.contains(r[m]) by {
            if m == 0 {
                assert(e.contains(e[0]));
            } else {
                assert(r[m] == tail[m - 1]);
                if tail[m - 1] == (key, value) {
                } else {
                    assert(e.drop_first().contains(tail[m - 1]));
                    let w = choose|w: int|
                        0 <= w < e.drop_first().len() && e.drop_first()[w] == tail[m - 1];
                    assert(e[w + 1] == tail[m - 1]);
                }
            }
        }
    }
}

impl JsonValue {
    /// An empty object.
    pub fn empty_object() -> (r: JsonValue)
        ensures
            r is Object,
            r->Object_0@ == Seq::<(String, JsonValue)>::empty(),
            r.wf(),
    {
        let entries: Vec<(String, JsonValue)> = Vec::new();
        JsonValue::Object(entries)
    }

    /// Sets `key` to `value` in an object, keeping its entries sorted by
    /// key; an existing entry for the key is replaced. This is the
    /// canonical way to build objects: starting from `empty_object`, the
    /// result is well-formed whatever order keys are given in.
    pub fn insert(self, key: String, value: JsonValue) -> (r: JsonValue)
        requires
            self is Object,
        ensures
            r is Object,
            r->Object_0@ == spec_obj_insert(self->Object_0@, key, value),
            self.wf() && value.wf() ==> r.wf(),
    {
        let ghost e0 = self->Object_0@;
        let ghost kv = (key, value);
        let mut entries = match self {
            JsonValue::Object(entries) => entries,
            _ => Vec::new(),
        };
        let mut out: Vec<(String, JsonValue)> = Vec::new();
        loop
            invariant_except_break
                spec_obj_insert(e0, key, value) == out@ + spec_obj_insert(entries@, key, value),
            ensures
                out@ == spec_obj_insert(e0, key, value),
            decreases entries@.len(),
        {
            if entries.len() == 0 {
                out.push((key, value));
                proof {
                    assert(out@ =~= spec_obj_insert(e0, key, value));
                }
                break ;
            }
            if crate::strutil::str_lt(key.as_str(), entries[0].0.as_str()) {
                out.push((key, value));
                proof {
                    assert(out@ + entries@ =~= spec_obj_insert(e0, key, value));
                }
                while entries.len() > 0
                    invariant
                        out@ + entries@ == spec_obj_insert(e0, key, value),
                    decreases entries@.len(),
                {
                    let head = entries.remove(0);
                    out.push(head);
                    proof {
                        assert(out@ + entries@ =~= spec_obj_insert(e0, key, value));
                    }
                }
                proof {
                    assert(out@ =~= spec_obj_insert(e0, key, value));
                }
                break ;
            }
            if crate::strutil::str_eq(key.as_str(), entries[0].0.as_str()) {
                let _ = entries.remove(0);
                out.push((key, value));
                proof {
                    assert(out@ + entries@ =~= spec_obj_insert(e0, key, value));
                }
                while entries.len() > 0
                    invariant
                        out@ + entries@ == spec_obj_insert(e0, key, value),
                    decreases entries@.len(),
                {
                    let head = entries.remove(0);
                    out.push(head);
                    proof {
                        assert(out@ + entries@ =~= spec_obj_insert(e0, key, value));
                    }
                }
                proof {
                    assert(out@ =~= spec_obj_insert(e0, key, value));
                }
                break ;
            }
            let head = entries.remove(0);
            out.push(head);
            proof {
                assert(out@ + spec_obj_insert(entries@, key, value) =~= spec_obj_insert(
                    e0,
                    key,
                    value,
                ));
            }
        }
        let r = JsonValue::Object(out);
        proof {
            if self.wf() && value.wf() {
                lemma_obj_insert_sorted(e0, key, value);
                assert forall|m: int| 0 <= m < r->Object_0@.len() implies (
                #[trigger] r->Object_0@[m]).1.wf() by {
                    if r->Object_0@[m] == kv {
                    } else {
                        assert(e0.contains(r->Object_0@[m]));
                        let w = choose|w: int| 0 <= w < e0.len() && e0[w] == r->Object_0@[m];
                        assert(e0[w].1.wf());
                    }
                }
            }
        }
        r
    }
}

} // verus!
