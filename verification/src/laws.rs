//! Proved laws of the diff engine: reflexive inputs yield no facts, the
//! status fact appears exactly when the codes differ, array comparison is
//! order-independent, ignored paths suppress exactly their subtrees, and the
//! depth bound stops all deeper descent.

use vstd::prelude::*;

verus! {

broadcast use vstd::std_specs::vec::axiom_vec_index_decreases;

use crate::json::JsonValue;
use crate::json::count_eq;
use crate::json::count_eq_from;
use crate::json::eq_val;
use crate::json::lex_lt;
use crate::json::lex_lt_from;

/// Structural equality is reflexive.
pub proof fn lemma_eq_val_refl(a: JsonValue)
    ensures
        eq_val(a, a),
    decreases a,
{
    match a {
        JsonValue::Array(x) => {
            assert forall|i: int| 0 <= i < x@.len() implies eq_val(#[trigger] x@[i], x@[i]) by {
                lemma_eq_val_refl(x@[i]);
            }
        },
        JsonValue::Object(x) => {
            assert forall|i: int| 0 <= i < x@.len() implies ((#[trigger] x@[i]).0@ == x@[i].0@
                && eq_val(x@[i].1, x@[i].1)) by {
                lemma_eq_val_refl(x@[i].1);
            }
        },
        _ => {},
    }
}

/// Structural equality is symmetric.
pub proof fn lemma_eq_val_sym(a: JsonValue, b: JsonValue)
    ensures
        eq_val(a, b) == eq_val(b, a),
    decreases a,
{
    match a {
        JsonValue::Array(x) => {
            match b {
                JsonValue::Array(y) => {
                    if x@.len() == y@.len() {
                        assert forall|i: int| 0 <= i < x@.len() implies eq_val(
                            #[trigger] x@[i],
                            y@[i],
                        ) == eq_val(y@[i], x@[i]) by {
                            lemma_eq_val_sym(x@[i], y@[i]);
                        }
                    }
                },
                _ => {},
            }
        },
        JsonValue::Object(x) => {
            match b {
                JsonValue::Object(y) => {
                    if x@.len() == y@.len() {
                        assert forall|i: int| 0 <= i < x@.len() implies eq_val(
                            (#[trigger] x@[i]).1,
                            y@[i].1,
                        ) == eq_val(y@[i].1, x@[i].1) by {
                            lemma_eq_val_sym(x@[i].1, y@[i].1);
                        }
                    }
                },
                _ => {},
            }
        },
        _ => {},
    }
}

/// Structural equality is transitive.
pub proof fn lemma_eq_val_trans(a: JsonValue, b: JsonValue, c: JsonValue)
    requires
        eq_val(a, b),
        eq_val(b, c),
    ensures
        eq_val(a, c),
    decreases a,
{
    match a {
        JsonValue::Array(x) => {
            let y = b->Array_0;
            let z = c->Array_0;
            assert forall|i: int| 0 <= i < x@.len() implies eq_val(#[trigger] x@[i], z@[i]) by {
                assert(eq_val(x@[i], y@[i]));
                assert(eq_val(y@[i], z@[i]));
                lemma_eq_val_trans(x@[i], y@[i], z@[i]);
            }
        },
        JsonValue::Object(x) => {
            let y = b->Object_0;
            let z = c->Object_0;
            assert forall|i: int| 0 <= i < x@.len() implies ((#[trigger] x@[i]).0@ == z@[i].0@
                && eq_val(x@[i].1, z@[i].1)) by {
                assert(x@[i].0@ == y@[i].0@ && eq_val(x@[i].1, y@[i].1));
                assert(y@[i].0@ == z@[i].0@ && eq_val(y@[i].1, z@[i].1));
                lemma_eq_val_trans(x@[i].1, y@[i].1, z@[i].1);
            }
        },
        _ => {},
    }
}

/// The lexicographic order is irreflexive.
pub proof fn lemma_lex_lt_irrefl(a: Seq<char>)
    ensures
        !lex_lt(a, a),
{
    lemma_lex_lt_from_irrefl(a, 0);
}

proof fn lemma_lex_lt_from_irrefl(a: Seq<char>, i: int)
    ensures
        !lex_lt_from(a, a, i),
    decreases a.len() - i,
{
    if i < a.len() {
        lemma_lex_lt_from_irrefl(a, i + 1);
    }
}

/// In a well-formed object the keys are pairwise distinct.
pub proof fn lemma_wf_keys_distinct(e: Seq<(String, JsonValue)>)
    requires
        forall|i: int, j: int|
            0 <= i < j < e.len() ==> lex_lt(#[trigger] e[i].0@, #[trigger] e[j].0@),
    ensures
        forall|i: int, j: int|
            0 <= i < j < e.len() ==> (#[trigger] e[i].0@) != (#[trigger] e[j].0@),
{
    assert forall|i: int, j: int| 0 <= i < j < e.len() implies (#[trigger] e[i].0@)
        != (#[trigger] e[j].0@) by {
        if e[i].0@ == e[j].0@ {
            lemma_lex_lt_irrefl(e[i].0@);
        }
    }
}

/// With pairwise-distinct keys, the first entry found for the key of entry
/// `i` is entry `i` itself.
pub proof fn lemma_lookup_first_at(e: Seq<(String, JsonValue)>, i: int)
    requires
        0 <= i < e.len(),
        forall|p: int, q: int|
            0 <= p < q < e.len() ==> (#[trigger] e[p].0@) != (#[trigger] e[q].0@),
    ensures
        crate::diff::lookup_first(e, e[i].0@) == e[i].1,
{
    lemma_lookup_from_at(e, i, 0);
}

proof fn lemma_lookup_from_at(e: Seq<(String, JsonValue)>, i: int, j: int)
    requires
        0 <= j <= i < e.len(),
        forall|p: int, q: int|
            0 <= p < q < e.len() ==> (#[trigger] e[p].0@) != (#[trigger] e[q].0@),
    ensures
        crate::diff::lookup_from(e, e[i].0@, j) == e[i].1,
    decreases i - j,
{
    if j < i {
        assert(e[j].0@ != e[i].0@);
        lemma_lookup_from_at(e, i, j + 1);
    }
}

/// One element's contribution to a count.
pub open spec fn eq_bit(x: JsonValue, v: JsonValue) -> nat {
    if eq_val(x, v) {
        1nat
    } else {
        0nat
    }
}

/// Counting a suffix is counting the skipped sequence.
proof fn lemma_count_from_skip(s: Seq<JsonValue>, v: JsonValue, i: int)
    requires
        0 <= i <= s.len(),
    ensures
        count_eq_from(s, v, i) == count_eq(s.skip(i), v),
    decreases s.len() - i,
{
    if i < s.len() {
        let t = s.skip(i);
        lemma_count_from_skip(s, v, i + 1);
        lemma_count_from_skip(t, v, 1);
        assert(t.skip(1) =~= s.skip(i + 1));
        assert(t[0] == s[i]);
    } else {
        assert(s.skip(i).len() == 0);
    }
}

/// Counts add over concatenation.
proof fn lemma_count_concat(s: Seq<JsonValue>, t: Seq<JsonValue>, v: JsonValue)
    ensures
        count_eq(s + t, v) == count_eq(s, v) + count_eq(t, v),
    decreases s.len(),
{
    if s.len() == 0 {
        assert(s + t =~= t);
    } else {
        assert((s + t)[0] == s[0]);
        lemma_count_from_skip(s + t, v, 1);
        assert((s + t).skip(1) =~= s.skip(1) + t);
        lemma_count_concat(s.skip(1), t, v);
        lemma_count_from_skip(s, v, 1);
    }
}

/// Removing one element removes its contribution from the count.
proof fn lemma_count_remove(s: Seq<JsonValue>, v: JsonValue, j: int)
    requires
        0 <= j < s.len(),
    ensures
        count_eq(s, v) == count_eq(s.remove(j), v) + eq_bit(s[j], v),
{
    let left = s.take(j);
    let mid = seq![s[j]];
    let right = s.skip(j + 1);
    assert(s =~= left + (mid + right));
    lemma_count_concat(left, mid + right, v);
    lemma_count_concat(mid, right, v);
    assert(count_eq_from(mid, v, 1) == 0);
    assert(count_eq(mid, v) == eq_bit(s[j], v));
    assert(s.remove(j) =~= left + right);
    lemma_count_concat(left, right, v);
}

/// Sequences with the same multiset of elements count every value alike.
pub proof fn lemma_count_permutation(s1: Seq<JsonValue>, s2: Seq<JsonValue>, v: JsonValue)
    requires
        s1.to_multiset() == s2.to_multiset(),
    ensures
        count_eq(s1, v) == count_eq(s2, v),
    decreases s1.len(),
{
    broadcast use vstd::seq_lib::group_to_multiset_ensures;

    if s1.len() == 0 {
        assert(s1.to_multiset().len() == 0);
        assert(s2.to_multiset().len() == s2.len());
        assert(s2.len() == 0);
    } else {
        let x = s1[0];
        assert(s1.contains(x));
        assert(s1.to_multiset().count(x) > 0);
        assert(s2.to_multiset().count(x) > 0);
        assert(s2.contains(x));
        let j = choose|j: int| 0 <= j < s2.len() && s2[j] == x;
        assert(s1.remove(0).to_multiset() =~= s1.to_multiset().remove(x));
        assert(s2.remove(j).to_multiset() =~= s2.to_multiset().remove(x));
        lemma_count_permutation(s1.remove(0), s2.remove(j), v);
        lemma_count_remove(s1, v, 0);
        lemma_count_remove(s2, v, j);
    }
}

/// Pointwise-equal sequences count every value alike.
pub proof fn lemma_count_congruent(x: Seq<JsonValue>, y: Seq<JsonValue>, v: JsonValue)
    requires
        x.len() == y.len(),
        forall|i: int| 0 <= i < x.len() ==> eq_val(#[trigger] x[i], y[i]),
    ensures
        count_eq(x, v) == count_eq(y, v),
{
    lemma_count_congruent_from(x, y, v, 0);
}

proof fn lemma_count_congruent_from(x: Seq<JsonValue>, y: Seq<JsonValue>, v: JsonValue, i: int)
    requires
        x.len() == y.len(),
        forall|k: int| 0 <= k < x.len() ==> eq_val(#[trigger] x[k], y[k]),
    ensures
        count_eq_from(x, v, i) == count_eq_from(y, v, i),
    decreases x.len() - i,
{
    if 0 <= i < x.len() {
        lemma_eq_val_sym(x[i], y[i]);
        if eq_val(x[i], v) {
            lemma_eq_val_trans(y[i], x[i], v);
        }
        if eq_val(y[i], v) {
            lemma_eq_val_trans(x[i], y[i], v);
        }
        lemma_count_congruent_from(x, y, v, i + 1);
    }
}

/// No removed-element facts arise when no value of `a` outnumbers its
/// occurrences in `b`.
proof fn lemma_removed_facts_empty(path: Seq<char>, a: Seq<JsonValue>, b: Seq<JsonValue>, i: int)
    requires
        forall|k: int|
            0 <= k < a.len() ==> count_eq(a, #[trigger] a[k]) <= count_eq(b, a[k]),
    ensures
        crate::diff::removed_facts(path, a, b, i) == Seq::<
            crate::diff::DifferenceModel,
        >::empty(),
    decreases a.len() - i,
{
    if 0 <= i < a.len() {
        lemma_removed_facts_empty(path, a, b, i + 1);
    }
}

/// No added-element facts arise when no value of `b` outnumbers its
/// occurrences in `a`.
proof fn lemma_added_facts_empty(path: Seq<char>, a: Seq<JsonValue>, b: Seq<JsonValue>, i: int)
    requires
        forall|k: int|
            0 <= k < b.len() ==> count_eq(b, #[trigger] b[k]) <= count_eq(a, b[k]),
    ensures
        crate::diff::added_facts(path, a, b, i) == Seq::<
            crate::diff::DifferenceModel,
        >::empty(),
    decreases b.len() - i,
{
    if 0 <= i < b.len() {
        lemma_added_facts_empty(path, a, b, i + 1);
    }
}

/// Array order independence: two arrays holding the same multiset of
/// elements, in any orders, yield no facts at all.
pub proof fn lemma_array_order_independence(
    path: Seq<char>,
    a: Seq<JsonValue>,
    b: Seq<JsonValue>,
)
    requires
        a.to_multiset() == b.to_multiset(),
    ensures
        crate::diff::array_facts(path, a, b) == Seq::<crate::diff::DifferenceModel>::empty(),
{
    broadcast use vstd::seq_lib::group_to_multiset_ensures;

    assert(a.to_multiset().len() == a.len());
    assert(b.to_multiset().len() == b.len());
    assert(a.len() == b.len());
    assert forall|k: int| 0 <= k < a.len() implies count_eq(a, #[trigger] a[k]) <= count_eq(
        b,
        a[k],
    ) by {
        lemma_count_permutation(a, b, a[k]);
    }
    assert forall|k: int| 0 <= k < b.len() implies count_eq(b, #[trigger] b[k]) <= count_eq(
        a,
        b[k],
    ) by {
        lemma_count_permutation(a, b, b[k]);
    }
    lemma_removed_facts_empty(path, a, b, 0);
    lemma_added_facts_empty(path, a, b, 0);
    assert(crate::diff::array_facts(path, a, b) =~= Seq::<
        crate::diff::DifferenceModel,
    >::empty());
}

/// Two pointwise-equal arrays yield no facts.
pub proof fn lemma_array_facts_congruent_empty(
    path: Seq<char>,
    a: Seq<JsonValue>,
    b: Seq<JsonValue>,
)
    requires
        a.len() == b.len(),
        forall|i: int| 0 <= i < a.len() ==> eq_val(#[trigger] a[i], b[i]),
    ensures
        crate::diff::array_facts(path, a, b) == Seq::<crate::diff::DifferenceModel>::empty(),
{
    assert forall|k: int| 0 <= k < a.len() implies count_eq(a, #[trigger] a[k]) <= count_eq(
        b,
        a[k],
    ) by {
        lemma_count_congruent(a, b, a[k]);
    }
    assert forall|k: int| 0 <= k < b.len() implies count_eq(b, #[trigger] b[k]) <= count_eq(
        a,
        b[k],
    ) by {
        lemma_count_congruent(a, b, b[k]);
    }
    lemma_removed_facts_empty(path, a, b, 0);
    lemma_added_facts_empty(path, a, b, 0);
    assert(crate::diff::array_facts(path, a, b) =~= Seq::<
        crate::diff::DifferenceModel,
    >::empty());
}

use crate::diff::DifferenceModel;
use crate::diff::child_path;
use crate::diff::find_spec;
use crate::diff::has_key;
use crate::diff::is_ignored;
use crate::diff::object_added;
use crate::diff::object_common;
use crate::diff::object_removed;
use crate::diff::pointer_of;
use crate::response::HttpResponseData;
use crate::response::header_lookup;
use crate::response::header_lookup_from;
use crate::response::has_header;

/// With pairwise-distinct names, the first header found for the name of
/// header `i` is header `i` itself.
proof fn lemma_header_lookup_at(h: Seq<(String, String)>, i: int)
    requires
        0 <= i < h.len(),
        forall|p: int, q: int|
            0 <= p < q < h.len() ==> (#[trigger] h[p].0@) != (#[trigger] h[q].0@),
    ensures
        header_lookup(h, h[i].0@) == h[i].1@,
{
    lemma_header_lookup_from_at(h, i, 0);
}

proof fn lemma_header_lookup_from_at(h: Seq<(String, String)>, i: int, j: int)
    requires
        0 <= j <= i < h.len(),
        forall|p: int, q: int|
            0 <= p < q < h.len() ==> (#[trigger] h[p].0@) != (#[trigger] h[q].0@),
    ensures
        header_lookup_from(h, h[i].0@, j) == h[i].1@,
    decreases i - j,
{
    if j < i {
        assert(h[j].0@ != h[i].0@);
        lemma_header_lookup_from_at(h, i, j + 1);
    }
}

/// No removed-key facts arise when every key of `x` also occurs in `y`.
proof fn lemma_object_removed_empty(
    path: Seq<char>,
    x: Seq<(String, JsonValue)>,
    y: Seq<(String, JsonValue)>,
    ign: Seq<Seq<char>>,
    i: int,
)
    requires
        forall|k: int| 0 <= k < x.len() ==> has_key(y, (#[trigger] x[k]).0@),
    ensures
        object_removed(path, x, y, ign, i) == Seq::<DifferenceModel>::empty(),
    decreases x.len() - i,
{
    if 0 <= i < x.len() {
        lemma_object_removed_empty(path, x, y, ign, i + 1);
    }
}

/// No added-key facts arise when every key of `y` also occurs in `x`.
proof fn lemma_object_added_empty(
    path: Seq<char>,
    x: Seq<(String, JsonValue)>,
    y: Seq<(String, JsonValue)>,
    ign: Seq<Seq<char>>,
    i: int,
)
    requires
        forall|k: int| 0 <= k < y.len() ==> has_key(x, (#[trigger] y[k]).0@),
    ensures
        object_added(path, x, y, ign, i) == Seq::<DifferenceModel>::empty(),
    decreases y.len() - i,
{
    if 0 <= i < y.len() {
        lemma_object_added_empty(path, x, y, ign, i + 1);
    }
}

/// Diffing a document against an equal, well-formed document yields no
/// facts, whatever the path, depth, and ignore set.
pub proof fn lemma_find_eq_empty(
    path: Seq<char>,
    a: JsonValue,
    b: JsonValue,
    maxd: int,
    cur: int,
    ign: Seq<Seq<char>>,
)
    requires
        eq_val(a, b),
        a.wf(),
        b.wf(),
    ensures
        find_spec(path, a, b, maxd, cur, ign) == Seq::<DifferenceModel>::empty(),
    decreases a, 1nat, 0nat,
{
    if cur > maxd {
    } else if is_ignored(pointer_of(path), ign) {
    } else {
        match a {
            JsonValue::Object(x) => {
                let y = b->Object_0;
                assert forall|k: int| 0 <= k < x@.len() implies has_key(
                    y@,
                    (#[trigger] x@[k]).0@,
                ) by {
                    assert(x@[k].0@ == y@[k].0@ && eq_val(x@[k].1, y@[k].1));
                }
                assert forall|k: int| 0 <= k < y@.len() implies has_key(
                    x@,
                    (#[trigger] y@[k]).0@,
                ) by {
                    assert(x@[k].0@ == y@[k].0@ && eq_val(x@[k].1, y@[k].1));
                }
                lemma_object_removed_empty(path, x@, y@, ign, 0);
                lemma_object_added_empty(path, x@, y@, ign, 0);
                lemma_wf_keys_distinct(y@);
                assert forall|k: int| 0 <= k < x@.len() implies (#[trigger] x@[k]).1.wf() by {
                    assert((a->Object_0)@[k].1.wf());
                }
                assert forall|k: int| 0 <= k < y@.len() implies (#[trigger] y@[k]).1.wf() by {
                    assert((b->Object_0)@[k].1.wf());
                }
                lemma_object_common_eq_empty(path, x@, y@, maxd, cur, ign, 0);
                assert(find_spec(path, a, b, maxd, cur, ign) =~= Seq::<
                    DifferenceModel,
                >::empty());
            },
            JsonValue::Array(x) => {
                let y = b->Array_0;
                lemma_array_facts_congruent_empty(path, x@, y@);
            },
            _ => {},
        }
    }
}

/// The recursive comparison of the common keys of two equal, well-formed
/// objects yields no facts.
proof fn lemma_object_common_eq_empty(
    path: Seq<char>,
    x: Seq<(String, JsonValue)>,
    y: Seq<(String, JsonValue)>,
    maxd: int,
    cur: int,
    ign: Seq<Seq<char>>,
    i: int,
)
    requires
        x.len() == y.len(),
        forall|k: int|
            0 <= k < x.len() ==> (#[trigger] x[k]).0@ == y[k].0@ && eq_val(x[k].1, y[k].1),
        forall|k: int| 0 <= k < x.len() ==> (#[trigger] x[k]).1.wf(),
        forall|k: int| 0 <= k < y.len() ==> (#[trigger] y[k]).1.wf(),
        forall|p: int, q: int|
            0 <= p < q < y.len() ==> (#[trigger] y[p].0@) != (#[trigger] y[q].0@),
    ensures
        object_common(path, x, y, maxd, cur, ign, i) == Seq::<DifferenceModel>::empty(),
    decreases x, 0nat, x.len() - i,
{
    if 0 <= i < x.len() {
        if has_key(y, x[i].0@) {
            lemma_lookup_first_at(y, i);
            assert(crate::diff::lookup_first(y, x[i].0@) == y[i].1);
            lemma_find_eq_empty(
                child_path(path, x[i].0@),
                x[i].1,
                y[i].1,
                maxd,
                cur + 1,
                ign,
            );
        }
        lemma_object_common_eq_empty(path, x, y, maxd, cur, ign, i + 1);
        assert(object_common(path, x, y, maxd, cur, ign, i) =~= Seq::<
            DifferenceModel,
        >::empty());
    }
}

/// No header-change or header-removal facts arise when a header list is
/// compared against itself.
proof fn lemma_header_cr_self_empty(h: Seq<(String, String)>, i: int)
    requires
        forall|p: int, q: int|
            0 <= p < q < h.len() ==> (#[trigger] h[p].0@) != (#[trigger] h[q].0@),
    ensures
        crate::diff::header_changed_removed_facts(h, h, i) == Seq::<DifferenceModel>::empty(),
    decreases h.len() - i,
{
    if 0 <= i < h.len() {
        assert(has_header(h, h[i].0@));
        lemma_header_lookup_at(h, i);
        lemma_header_cr_self_empty(h, i + 1);
    }
}

/// No header-addition facts arise when a header list is compared against
/// itself.
proof fn lemma_header_added_self_empty(h: Seq<(String, String)>, i: int)
    ensures
        crate::diff::header_added_facts(h, h, i) == Seq::<DifferenceModel>::empty(),
    decreases h.len() - i,
{
    if 0 <= i < h.len() {
        assert(has_header(h, h[i].0@));
        lemma_header_added_self_empty(h, i + 1);
    }
}

/// Diffing a well-formed snapshot against itself yields no differences at
/// all, for any header handling and any ignore set.
pub proof fn lemma_self_diff_empty(r: HttpResponseData, headers_ignored: bool, ign: Seq<Seq<char>>)
    requires
        r.wf(),
    ensures
        crate::diff::compute_spec(r, r, headers_ignored, ign) == Seq::<DifferenceModel>::empty(),
{
    if !headers_ignored {
        lemma_header_cr_self_empty(r.headers@, 0);
        lemma_header_added_self_empty(r.headers@, 0);
    }
    match r.body.json {
        Some(v) => {
            lemma_eq_val_refl(v);
            lemma_find_eq_empty(Seq::empty(), v, v, 10, 0, ign);
        },
        None => {},
    }
    assert(crate::diff::compute_spec(r, r, headers_ignored, ign) =~= Seq::<
        DifferenceModel,
    >::empty());
}

use crate::diff::added_facts;
use crate::diff::array_facts;
use crate::diff::arr_path;
use crate::diff::compute_spec;
use crate::diff::header_added_facts;
use crate::diff::header_changed_removed_facts;
use crate::diff::removed_facts;

/// What holds of every fact the body comparison emits: it is a body fact,
/// and the node it speaks of — its path, or the array path behind a
/// wildcard suffix — is not ignored.
pub open spec fn body_fact_ok(f: DifferenceModel, ign: Seq<Seq<char>>) -> bool {
    match f {
        DifferenceModel::BodyValueChanged { path, .. } => !is_ignored(pointer_of(path), ign),
        DifferenceModel::BodyValueRemoved { path, .. } => !is_ignored(pointer_of(path), ign),
        DifferenceModel::BodyValueAdded { path, .. } => !is_ignored(pointer_of(path), ign),
        DifferenceModel::ArrayLengthChanged { path, .. } => !is_ignored(pointer_of(path), ign),
        DifferenceModel::ArrayElementRemoved { path, .. } => path.len() >= 3 && !is_ignored(
            pointer_of(path.take(path.len() - 3)),
            ign,
        ),
        DifferenceModel::ArrayElementAdded { path, .. } => path.len() >= 3 && !is_ignored(
            pointer_of(path.take(path.len() - 3)),
            ign,
        ),
        _ => false,
    }
}

/// Every fact of the sequence satisfies `body_fact_ok`.
pub open spec fn all_body_ok(fs: Seq<DifferenceModel>, ign: Seq<Seq<char>>) -> bool {
    forall|k: int| 0 <= k < fs.len() ==> body_fact_ok(#[trigger] fs[k], ign)
}

proof fn lemma_all_body_ok_concat(s: Seq<DifferenceModel>, t: Seq<DifferenceModel>, ign: Seq<Seq<char>>)
    requires
        all_body_ok(s, ign),
        all_body_ok(t, ign),
    ensures
        all_body_ok(s + t, ign),
{
    assert forall|k: int| 0 <= k < (s + t).len() implies body_fact_ok(#[trigger] (s + t)[k], ign) by {
        if k < s.len() {
            assert((s + t)[k] == s[k]);
        } else {
            assert((s + t)[k] == t[k - s.len()]);
        }
    }
}

proof fn lemma_arr_path_strips(path: Seq<char>)
    ensures
        arr_path(path).len() == path.len() + 3,
        arr_path(path).take(arr_path(path).len() - 3) == path,
{
    reveal_strlit("[*]");
    assert(arr_path(path).take(arr_path(path).len() - 3) =~= path);
}

proof fn lemma_removed_facts_ok(
    path: Seq<char>,
    a: Seq<JsonValue>,
    b: Seq<JsonValue>,
    i: int,
    ign: Seq<Seq<char>>,
)
    requires
        !is_ignored(pointer_of(path), ign),
    ensures
        all_body_ok(removed_facts(path, a, b, i), ign),
    decreases a.len() - i,
{
    lemma_arr_path_strips(path);
    if 0 <= i < a.len() {
        lemma_removed_facts_ok(path, a, b, i + 1, ign);
        let hd = if crate::diff::first_occurrence(a, i) && count_eq(a, a[i]) > count_eq(
            b,
            a[i],
        ) {
            crate::diff::fact_copies(
                DifferenceModel::ArrayElementRemoved {
                    path: arr_path(path),
                    value: crate::render::preview(a[i], 50),
                },
                (count_eq(a, a[i]) - count_eq(b, a[i])) as nat,
            )
        } else {
            Seq::<DifferenceModel>::empty()
        };
        assert(all_body_ok(hd, ign));
        lemma_all_body_ok_concat(hd, removed_facts(path, a, b, i + 1), ign);
    } else {
        assert(all_body_ok(removed_facts(path, a, b, i), ign));
    }
}

proof fn lemma_added_facts_ok(
    path: Seq<char>,
    a: Seq<JsonValue>,
    b: Seq<JsonValue>,
    i: int,
    ign: Seq<Seq<char>>,
)
    requires
        !is_ignored(pointer_of(path), ign),
    ensures
        all_body_ok(added_facts(path, a, b, i), ign),
    decreases b.len() - i,
{
    lemma_arr_path_strips(path);
    if 0 <= i < b.len() {
        lemma_added_facts_ok(path, a, b, i + 1, ign);
        let hd = if crate::diff::first_occurrence(b, i) && count_eq(b, b[i]) > count_eq(
            a,
            b[i],
        ) {
            crate::diff::fact_copies(
                DifferenceModel::ArrayElementAdded {
                    path: arr_path(path),
                    value: crate::render::preview(b[i], 50),
                },
                (count_eq(b, b[i]) - count_eq(a, b[i])) as nat,
            )
        } else {
            Seq::<DifferenceModel>::empty()
        };
        assert(all_body_ok(hd, ign));
        lemma_all_body_ok_concat(hd, added_facts(path, a, b, i + 1), ign);
    } else {
        assert(all_body_ok(added_facts(path, a, b, i), ign));
    }
}

proof fn lemma_array_facts_ok(
    path: Seq<char>,
    a: Seq<JsonValue>,
    b: Seq<JsonValue>,
    ign: Seq<Seq<char>>,
)
    requires
        !is_ignored(pointer_of(path), ign),
    ensures
        all_body_ok(array_facts(path, a, b), ign),
{
    lemma_removed_facts_ok(path, a, b, 0, ign);
    lemma_added_facts_ok(path, a, b, 0, ign);
    let lf = if a.len() != b.len() {
        seq![
            DifferenceModel::ArrayLengthChanged {
                path: path,
                old_len: a.len() as int,
                new_len: b.len() as int,
            },
        ]
    } else {
        Seq::<DifferenceModel>::empty()
    };
    assert(all_body_ok(lf, ign));
    lemma_all_body_ok_concat(lf, removed_facts(path, a, b, 0), ign);
    lemma_all_body_ok_concat(lf + removed_facts(path, a, b, 0), added_facts(path, a, b, 0), ign);
}

proof fn lemma_object_removed_ok(
    path: Seq<char>,
    x: Seq<(String, JsonValue)>,
    y: Seq<(String, JsonValue)>,
    ign: Seq<Seq<char>>,
    i: int,
)
    ensures
        all_body_ok(object_removed(path, x, y, ign, i), ign),
    decreases x.len() - i,
{
    if 0 <= i < x.len() {
        lemma_object_removed_ok(path, x, y, ign, i + 1);
        let hd = if !has_key(y, x[i].0@) && !is_ignored(pointer_of(child_path(path, x[i].0@)), ign) {
            seq![
                DifferenceModel::BodyValueRemoved {
                    path: child_path(path, x[i].0@),
                    value: crate::render::preview(x[i].1, 50),
                },
            ]
        } else {
            Seq::<DifferenceModel>::empty()
        };
        assert(all_body_ok(hd, ign));
        lemma_all_body_ok_concat(hd, object_removed(path, x, y, ign, i + 1), ign);
    } else {
        assert(all_body_ok(object_removed(path, x, y, ign, i), ign));
    }
}

proof fn lemma_object_added_ok(
    path: Seq<char>,
    x: Seq<(String, JsonValue)>,
    y: Seq<(String, JsonValue)>,
    ign: Seq<Seq<char>>,
    i: int,
)
    ensures
        all_body_ok(object_added(path, x, y, ign, i), ign),
    decreases y.len() - i,
{
    if 0 <= i < y.len() {
        lemma_object_added_ok(path, x, y, ign, i + 1);
        let hd = if !has_key(x, y[i].0@) && !is_ignored(pointer_of(child_path(path, y[i].0@)), ign) {
            seq![
                DifferenceModel::BodyValueAdded {
                    path: child_path(path, y[i].0@),
                    value: crate::render::preview(y[i].1, 50),
                },
            ]
        } else {
            Seq::<DifferenceModel>::empty()
        };
        assert(all_body_ok(hd, ign));
        lemma_all_body_ok_concat(hd, object_added(path, x, y, ign, i + 1), ign);
    } else {
        assert(all_body_ok(object_added(path, x, y, ign, i), ign));
    }
}

/// Ignore-path suppression: every fact the body comparison emits is a body
/// fact whose node — its path, or for array-element facts the array's path
/// — is not at or below any ignored path.
pub proof fn lemma_ignore_suppression(
    path: Seq<char>,
    a: JsonValue,
    b: JsonValue,
    maxd: int,
    cur: int,
    ign: Seq<Seq<char>>,
)
    ensures
        all_body_ok(find_spec(path, a, b, maxd, cur, ign), ign),
    decreases a, 1nat, 0nat,
{
    if cur > maxd {
        assert(all_body_ok(find_spec(path, a, b, maxd, cur, ign), ign));
    } else if is_ignored(pointer_of(path), ign) {
        assert(all_body_ok(find_spec(path, a, b, maxd, cur, ign), ign));
    } else {
        match a {
            JsonValue::Object(x) => {
                match b {
                    JsonValue::Object(y) => {
                        lemma_object_removed_ok(path, x@, y@, ign, 0);
                        lemma_object_added_ok(path, x@, y@, ign, 0);
                        lemma_object_common_ok(path, x@, y@, maxd, cur, ign, 0);
                        lemma_all_body_ok_concat(
                            object_removed(path, x@, y@, ign, 0),
                            object_added(path, x@, y@, ign, 0),
                            ign,
                        );
                        lemma_all_body_ok_concat(
                            object_removed(path, x@, y@, ign, 0) + object_added(
                                path,
                                x@,
                                y@,
                                ign,
                                0,
                            ),
                            object_common(path, x@, y@, maxd, cur, ign, 0),
                            ign,
                        );
                    },
                    _ => {
                        assert(all_body_ok(crate::diff::changed_facts(path, a, b), ign));
                    },
                }
            },
            JsonValue::Array(x) => {
                match b {
                    JsonValue::Array(y) => {
                        lemma_array_facts_ok(path, x@, y@, ign);
                    },
                    _ => {
                        assert(all_body_ok(crate::diff::changed_facts(path, a, b), ign));
                    },
                }
            },
            _ => {
                assert(all_body_ok(crate::diff::changed_facts(path, a, b), ign));
            },
        }
    }
}

proof fn lemma_object_common_ok(
    path: Seq<char>,
    x: Seq<(String, JsonValue)>,
    y: Seq<(String, JsonValue)>,
    maxd: int,
    cur: int,
    ign: Seq<Seq<char>>,
    i: int,
)
    ensures
        all_body_ok(object_common(path, x, y, maxd, cur, ign, i), ign),
    decreases x, 0nat, x.len() - i,
{
    if 0 <= i < x.len() {
        lemma_object_common_ok(path, x, y, maxd, cur, ign, i + 1);
        let hd = if has_key(y, x[i].0@) {
            find_spec(
                child_path(path, x[i].0@),
                x[i].1,
                crate::diff::lookup_first(y, x[i].0@),
                maxd,
                cur + 1,
                ign,
            )
        } else {
            Seq::<DifferenceModel>::empty()
        };
        if has_key(y, x[i].0@) {
            lemma_ignore_suppression(
                child_path(path, x[i].0@),
                x[i].1,
                crate::diff::lookup_first(y, x[i].0@),
                maxd,
                cur + 1,
                ign,
            );
        }
        assert(all_body_ok(hd, ign));
        lemma_all_body_ok_concat(hd, object_common(path, x, y, maxd, cur, ign, i + 1), ign);
    } else {
        assert(all_body_ok(object_common(path, x, y, maxd, cur, ign, i), ign));
    }
}

/// Whether a fact is one of the header kinds.
pub open spec fn is_header_fact(f: DifferenceModel) -> bool {
    ||| f is HeaderValueChanged
    ||| f is HeaderValueRemoved
    ||| f is HeaderValueAdded
}

/// Every fact of the sequence is a header fact.
pub open spec fn all_header_facts(fs: Seq<DifferenceModel>) -> bool {
    forall|k: int| 0 <= k < fs.len() ==> is_header_fact(#[trigger] fs[k])
}

proof fn lemma_all_header_concat(s: Seq<DifferenceModel>, t: Seq<DifferenceModel>)
    requires
        all_header_facts(s),
        all_header_facts(t),
    ensures
        all_header_facts(s + t),
{
    assert forall|k: int| 0 <= k < (s + t).len() implies is_header_fact(#[trigger] (s + t)[k]) by {
        if k < s.len() {
            assert((s + t)[k] == s[k]);
        } else {
            assert((s + t)[k] == t[k - s.len()]);
        }
    }
}

proof fn lemma_header_cr_kinds(h1: Seq<(String, String)>, h2: Seq<(String, String)>, i: int)
    ensures
        all_header_facts(header_changed_removed_facts(h1, h2, i)),
    decreases h1.len() - i,
{
    if 0 <= i < h1.len() {
        lemma_header_cr_kinds(h1, h2, i + 1);
        let hd = header_changed_removed_facts(h1, h2, i).take(
            header_changed_removed_facts(h1, h2, i).len() - header_changed_removed_facts(
                h1,
                h2,
                i + 1,
            ).len(),
        );
        assert forall|k: int|
            0 <= k < header_changed_removed_facts(h1, h2, i).len() implies is_header_fact(
            #[trigger] header_changed_removed_facts(h1, h2, i)[k],
        ) by {
            let rest = header_changed_removed_facts(h1, h2, i + 1);
            if has_header(h2, h1[i].0@) {
                let v1 = h1[i].1@;
                let v2 = header_lookup(h2, h1[i].0@);
                if v1 != v2 {
                    if k >= 1 {
                        assert(header_changed_removed_facts(h1, h2, i)[k] == rest[k - 1]);
                    }
                } else {
                    assert(header_changed_removed_facts(h1, h2, i)[k] == rest[k]);
                }
            } else {
                if k >= 1 {
                    assert(header_changed_removed_facts(h1, h2, i)[k] == rest[k - 1]);
                }
            }
        }
    } else {
        assert(all_header_facts(header_changed_removed_facts(h1, h2, i)));
    }
}

proof fn lemma_header_added_kinds(h1: Seq<(String, String)>, h2: Seq<(String, String)>, i: int)
    ensures
        all_header_facts(header_added_facts(h1, h2, i)),
    decreases h2.len() - i,
{
    if 0 <= i < h2.len() {
        lemma_header_added_kinds(h1, h2, i + 1);
        let hd = if !has_header(h1, h2[i].0@) {
            seq![DifferenceModel::HeaderValueAdded { header_name: h2[i].0@ }]
        } else {
            Seq::<DifferenceModel>::empty()
        };
        assert(all_header_facts(hd));
        lemma_all_header_concat(hd, header_added_facts(h1, h2, i + 1));
    } else {
        assert(all_header_facts(header_added_facts(h1, h2, i)));
    }
}

/// The non-status part of a whole comparison: header facts, body facts
/// respecting the ignore set, or the whole-string body fact.
pub open spec fn non_status_fact(f: DifferenceModel, ign: Seq<Seq<char>>) -> bool {
    is_header_fact(f) || f is DifferentBodyString || body_fact_ok(f, ign)
}

proof fn lemma_compute_tail_non_status(
    r1: HttpResponseData,
    r2: HttpResponseData,
    headers_ignored: bool,
    ign: Seq<Seq<char>>,
)
    ensures
        forall|k: int|
            0 <= k < compute_spec(r1, r2, headers_ignored, ign).len() ==> (
            #[trigger] compute_spec(r1, r2, headers_ignored, ign)[k]) is StatusCodeChanged
                ==> k == 0 && r1.status_code != r2.status_code,
        r1.status_code != r2.status_code ==> compute_spec(r1, r2, headers_ignored, ign).len() > 0
            && compute_spec(r1, r2, headers_ignored, ign)[0]
            == (DifferenceModel::StatusCodeChanged {
            old_val: r1.status_code,
            new_val: r2.status_code,
        }),
        forall|k: int|
            0 <= k < compute_spec(r1, r2, headers_ignored, ign).len() ==> (
            #[trigger] compute_spec(r1, r2, headers_ignored, ign)[k]) is StatusCodeChanged
                || non_status_fact(compute_spec(r1, r2, headers_ignored, ign)[k], ign),
{
    let sf = if r1.status_code != r2.status_code {
        seq![
            DifferenceModel::StatusCodeChanged {
                old_val: r1.status_code,
                new_val: r2.status_code,
            },
        ]
    } else {
        Seq::<DifferenceModel>::empty()
    };
    let hf = if !headers_ignored {
        header_changed_removed_facts(r1.headers@, r2.headers@, 0) + header_added_facts(
            r1.headers@,
            r2.headers@,
            0,
        )
    } else {
        Seq::<DifferenceModel>::empty()
    };
    let bf = crate::diff::body_facts(r1.body, r2.body, ign);
    assert(compute_spec(r1, r2, headers_ignored, ign) == sf + hf + bf);
    if !headers_ignored {
        lemma_header_cr_kinds(r1.headers@, r2.headers@, 0);
        lemma_header_added_kinds(r1.headers@, r2.headers@, 0);
        lemma_all_header_concat(
            header_changed_removed_facts(r1.headers@, r2.headers@, 0),
            header_added_facts(r1.headers@, r2.headers@, 0),
        );
    }
    match r1.body.json {
        Some(x) => {
            match r2.body.json {
                Some(y) => {
                    lemma_ignore_suppression(Seq::empty(), x, y, 10, 0, ign);
                },
                None => {},
            }
        },
        None => {},
    }
    assert forall|k: int|
        0 <= k < compute_spec(r1, r2, headers_ignored, ign).len() implies ((
    #[trigger] compute_spec(r1, r2, headers_ignored, ign)[k]) is StatusCodeChanged ==> (k == 0
        && r1.status_code != r2.status_code)) && ((compute_spec(
        r1,
        r2,
        headers_ignored,
        ign,
    )[k]) is StatusCodeChanged || non_status_fact(
        compute_spec(r1, r2, headers_ignored, ign)[k],
        ign,
    )) by {
        let f = compute_spec(r1, r2, headers_ignored, ign)[k];
        if k < sf.len() {
            assert(f == sf[k]);
        } else if k < sf.len() + hf.len() {
            assert(f == ((sf + hf) + bf)[k]);
            assert(f == (sf + hf)[k]);
            assert(f == hf[k - sf.len()]);
            assert(is_header_fact(f));
        } else {
            assert(f == bf[k - sf.len() - hf.len()]);
            match r1.body.json {
                Some(x) => {
                    match r2.body.json {
                        Some(y) => {
                            assert(body_fact_ok(f, ign));
                        },
                        None => {
                            assert(f is DifferentBodyString);
                        },
                    }
                },
                None => {
                    assert(f is DifferentBodyString);
                },
            }
        }
    }
}

/// The status fact appears exactly when the status codes differ; it then
/// stands first, carries exactly the two original codes, and is the only
/// fact of its kind.
pub proof fn lemma_status_code_changed_iff(
    r1: HttpResponseData,
    r2: HttpResponseData,
    headers_ignored: bool,
    ign: Seq<Seq<char>>,
)
    ensures
        (r1.status_code != r2.status_code) <==> exists|k: int|
            0 <= k < compute_spec(r1, r2, headers_ignored, ign).len() && (
            #[trigger] compute_spec(r1, r2, headers_ignored, ign)[k]) is StatusCodeChanged,
        r1.status_code != r2.status_code ==> compute_spec(r1, r2, headers_ignored, ign)[0]
            == (DifferenceModel::StatusCodeChanged {
            old_val: r1.status_code,
            new_val: r2.status_code,
        }),
        forall|k: int|
            0 <= k < compute_spec(r1, r2, headers_ignored, ign).len() && (
            #[trigger] compute_spec(r1, r2, headers_ignored, ign)[k]) is StatusCodeChanged
                ==> compute_spec(r1, r2, headers_ignored, ign)[k]
                == (DifferenceModel::StatusCodeChanged {
                old_val: r1.status_code,
                new_val: r2.status_code,
            }) && r1.status_code != r2.status_code,
{
    lemma_compute_tail_non_status(r1, r2, headers_ignored, ign);
    if r1.status_code != r2.status_code {
        assert((compute_spec(r1, r2, headers_ignored, ign)[0]) is StatusCodeChanged);
    }
}

/// The whole comparison respects the ignore set: every fact is the status
/// fact, a header fact, the whole-string body fact, or a body fact whose
/// node is not at or below any ignored path.
pub proof fn lemma_compute_ignore_suppression(
    r1: HttpResponseData,
    r2: HttpResponseData,
    headers_ignored: bool,
    ign: Seq<Seq<char>>,
)
    ensures
        forall|k: int|
            0 <= k < compute_spec(r1, r2, headers_ignored, ign).len() ==> (
            #[trigger] compute_spec(r1, r2, headers_ignored, ign)[k]) is StatusCodeChanged
                || non_status_fact(compute_spec(r1, r2, headers_ignored, ign)[k], ign),
{
    lemma_compute_tail_non_status(r1, r2, headers_ignored, ign);
}

/// Array order independence at a node: two array values holding the same
/// multiset of elements yield no facts wherever they stand in a document.
pub proof fn lemma_find_array_order_independence(
    path: Seq<char>,
    a: JsonValue,
    b: JsonValue,
    maxd: int,
    cur: int,
    ign: Seq<Seq<char>>,
)
    requires
        a is Array,
        b is Array,
        (a->Array_0)@.to_multiset() == (b->Array_0)@.to_multiset(),
    ensures
        find_spec(path, a, b, maxd, cur, ign) == Seq::<DifferenceModel>::empty(),
{
    if cur > maxd {
    } else if is_ignored(pointer_of(path), ign) {
    } else {
        lemma_array_order_independence(path, (a->Array_0)@, (b->Array_0)@);
    }
}

/// Agreement of two documents down to object depth `n`: equal except
/// possibly inside objects nested more than `n` levels deep.
pub open spec fn agree_to(a: JsonValue, b: JsonValue, n: nat) -> bool
    decreases n,
{
    if n == 0 {
        true
    } else {
        match a {
            JsonValue::Object(x) => match b {
                JsonValue::Object(y) => x@.len() == y@.len() && forall|i: int|
                    0 <= i < x@.len() ==> ((#[trigger] x@[i]).0@ == y@[i].0@ && agree_to(
                        x@[i].1,
                        y@[i].1,
                        (n - 1) as nat,
                    )),
                _ => false,
            },
            _ => eq_val(a, b),
        }
    }
}

/// Depth bound: two well-formed documents that agree down past the depth
/// still to be explored yield no facts — a divergence strictly deeper than
/// the bound is never reported.
pub proof fn lemma_depth_bound(
    path: Seq<char>,
    a: JsonValue,
    b: JsonValue,
    maxd: int,
    cur: int,
    ign: Seq<Seq<char>>,
    n: nat,
)
    requires
        agree_to(a, b, n),
        n > maxd - cur,
        a.wf(),
        b.wf(),
    ensures
        find_spec(path, a, b, maxd, cur, ign) == Seq::<DifferenceModel>::empty(),
    decreases a, 1nat, 0nat,
{
    if cur > maxd {
    } else if is_ignored(pointer_of(path), ign) {
    } else {
        assert(n >= 1);
        match a {
            JsonValue::Object(x) => {
                let y = b->Object_0;
                assert forall|k: int| 0 <= k < x@.len() implies has_key(
                    y@,
                    (#[trigger] x@[k]).0@,
                ) by {
                    assert(x@[k].0@ == y@[k].0@);
                }
                assert forall|k: int| 0 <= k < y@.len() implies has_key(
                    x@,
                    (#[trigger] y@[k]).0@,
                ) by {
                    assert(x@[k].0@ == y@[k].0@);
                }
                lemma_object_removed_empty(path, x@, y@, ign, 0);
                lemma_object_added_empty(path, x@, y@, ign, 0);
                lemma_wf_keys_distinct(y@);
                assert forall|k: int| 0 <= k < x@.len() implies (#[trigger] x@[k]).1.wf() by {
                    assert((a->Object_0)@[k].1.wf());
                }
                assert forall|k: int| 0 <= k < y@.len() implies (#[trigger] y@[k]).1.wf() by {
                    assert((b->Object_0)@[k].1.wf());
                }
                lemma_object_common_agree_empty(path, x@, y@, maxd, cur, ign, 0, (n - 1) as nat);
                assert(find_spec(path, a, b, maxd, cur, ign) =~= Seq::<
                    DifferenceModel,
                >::empty());
            },
            JsonValue::Array(x) => {
                let y = b->Array_0;
                lemma_array_facts_congruent_empty(path, x@, y@);
            },
            _ => {},
        }
    }
}

proof fn lemma_object_common_agree_empty(
    path: Seq<char>,
    x: Seq<(String, JsonValue)>,
    y: Seq<(String, JsonValue)>,
    maxd: int,
    cur: int,
    ign: Seq<Seq<char>>,
    i: int,
    n: nat,
)
    requires
        x.len() == y.len(),
        forall|k: int|
            0 <= k < x.len() ==> (#[trigger] x[k]).0@ == y[k].0@ && agree_to(x[k].1, y[k].1, n),
        forall|k: int| 0 <= k < x.len() ==> (#[trigger] x[k]).1.wf(),
        forall|k: int| 0 <= k < y.len() ==> (#[trigger] y[k]).1.wf(),
        forall|p: int, q: int|
            0 <= p < q < y.len() ==> (#[trigger] y[p].0@) != (#[trigger] y[q].0@),
        n > maxd - cur - 1,
    ensures
        object_common(path, x, y, maxd, cur, ign, i) == Seq::<DifferenceModel>::empty(),
    decreases x, 0nat, x.len() - i,
{
    if 0 <= i < x.len() {
        if has_key(y, x[i].0@) {
            lemma_lookup_first_at(y, i);
            lemma_depth_bound(
                child_path(path, x[i].0@),
                x[i].1,
                y[i].1,
                maxd,
                cur + 1,
                ign,
                n,
            );
        }
        lemma_object_common_agree_empty(path, x, y, maxd, cur, ign, i + 1, n);
        assert(object_common(path, x, y, maxd, cur, ign, i) =~= Seq::<
            DifferenceModel,
        >::empty());
    }
}

} // verus!
