//! Structural differences between two HTTP response snapshots.
//!
//! The diff engine compares status codes, headers and bodies, walking JSON
//! bodies recursively: objects by key, arrays as order-independent
//! multisets, with a depth bound and a set of ignored JSON-pointer paths
//! whose subtrees are skipped entirely.

use vstd::prelude::*;
use vstd::string::StringExecFns;

verus! {

use crate::json::JsonValue;
use crate::response::HttpResponseData;
use crate::response::ParsedBody;
use crate::response::find_header;
use crate::response::has_header;
use crate::response::header_lookup;
use crate::json::count_eq;
use crate::json::eq_val;
use crate::render::preview;
use crate::render::format_value;
use crate::strutil::is_prefix;
use crate::strutil::chars_eq;
use crate::strutil::chars_of;
use crate::strutil::push_char;

/// A difference found between two response snapshots.
#[derive(Debug, Clone, PartialEq)]
pub enum Difference {
    StatusCodeChanged { old_val: u16, new_val: u16 },
    HeaderValueChanged { header_name: String, old_val: String, new_val: String },
    HeaderValueRemoved { header_name: String },
    HeaderValueAdded { header_name: String },
    BodyValueChanged { path: String, old_val: String, new_val: String },
    BodyValueRemoved { path: String, value: String },
    BodyValueAdded { path: String, value: String },
    ArrayLengthChanged { path: String, old_len: usize, new_len: usize },
    ArrayElementRemoved { path: String, value: String },
    ArrayElementAdded { path: String, value: String },
    DifferentBodyString { before: String, after: String },
}

/// The mathematical shape of a difference fact: the same variants, over
/// character sequences and unbounded integers.
pub enum DifferenceModel {
    StatusCodeChanged { old_val: u16, new_val: u16 },
    HeaderValueChanged { header_name: Seq<char>, old_val: Seq<char>, new_val: Seq<char> },
    HeaderValueRemoved { header_name: Seq<char> },
    HeaderValueAdded { header_name: Seq<char> },
    BodyValueChanged { path: Seq<char>, old_val: Seq<char>, new_val: Seq<char> },
    BodyValueRemoved { path: Seq<char>, value: Seq<char> },
    BodyValueAdded { path: Seq<char>, value: Seq<char> },
    ArrayLengthChanged { path: Seq<char>, old_len: int, new_len: int },
    ArrayElementRemoved { path: Seq<char>, value: Seq<char> },
    ArrayElementAdded { path: Seq<char>, value: Seq<char> },
    DifferentBodyString { before: Seq<char>, after: Seq<char> },
}

impl View for Difference {
    type V = DifferenceModel;

    open spec fn view(&self) -> DifferenceModel {
        match self {
            Difference::StatusCodeChanged { old_val, new_val } => DifferenceModel::StatusCodeChanged {
                old_val: *old_val,
                new_val: *new_val,
            },
            Difference::HeaderValueChanged { header_name, old_val, new_val } => DifferenceModel::HeaderValueChanged {
                header_name: header_name@,
                old_val: old_val@,
                new_val: new_val@,
            },
            Difference::HeaderValueRemoved { header_name } => DifferenceModel::HeaderValueRemoved {
                header_name: header_name@,
            },
            Difference::HeaderValueAdded { header_name } => DifferenceModel::HeaderValueAdded {
                header_name: header_name@,
            },
            Difference::BodyValueChanged { path, old_val, new_val } => DifferenceModel::BodyValueChanged {
                path: path@,
                old_val: old_val@,
                new_val: new_val@,
            },
            Difference::BodyValueRemoved { path, value } => DifferenceModel::BodyValueRemoved {
                path: path@,
                value: value@,
            },
            Difference::BodyValueAdded { path, value } => DifferenceModel::BodyValueAdded {
                path: path@,
                value: value@,
            },
            Difference::ArrayLengthChanged { path, old_len, new_len } => DifferenceModel::ArrayLengthChanged {
                path: path@,
                old_len: *old_len as int,
                new_len: *new_len as int,
            },
            Difference::ArrayElementRemoved { path, value } => DifferenceModel::ArrayElementRemoved {
                path: path@,
                value: value@,
            },
            Difference::ArrayElementAdded { path, value } => DifferenceModel::ArrayElementAdded {
                path: path@,
                value: value@,
            },
            Difference::DifferentBodyString { before, after } => DifferenceModel::DifferentBodyString {
                before: before@,
                after: after@,
            },
        }
    }
}

/// The models of a sequence of difference facts.
pub open spec fn facts_view(s: Seq<Difference>) -> Seq<DifferenceModel> {
    s.map_values(|d: Difference| d@)
}

/// The views of a sequence of strings.
pub open spec fn str_views(s: Seq<String>) -> Seq<Seq<char>> {
    s.map_values(|x: String| x@)
}

/// The path of a child node: the key itself at the root, otherwise the
/// parent path, a slash, and the key.
pub open spec fn child_path(path: Seq<char>, key: Seq<char>) -> Seq<char> {
    if path.len() == 0 {
        key
    } else {
        path + seq!['/'] + key
    }
}

/// The JSON-pointer form of a node path: a leading slash before the path.
pub open spec fn pointer_of(path: Seq<char>) -> Seq<char> {
    seq!['/'] + path
}

/// `p` with every trailing slash removed.
pub open spec fn strip_trailing_slashes(p: Seq<char>) -> Seq<char>
    decreases p.len(),
{
    if p.len() > 0 && p[p.len() - 1] == '/' {
        strip_trailing_slashes(p.take(p.len() - 1))
    } else {
        p
    }
}

/// An ignore path as it is compared: trailing slashes are dropped, except
/// that a path that is the single character `/` stays as it is.
pub open spec fn normalize_ignore(p: Seq<char>) -> Seq<char> {
    if p.len() > 1 && p[p.len() - 1] == '/' {
        strip_trailing_slashes(p)
    } else {
        p
    }
}

/// Whether the pointer is the normalized ignore path itself or a strict
/// descendant of it (extends it at a segment boundary).
pub open spec fn ignored_matches(pointer: Seq<char>, ip: Seq<char>) -> bool {
    pointer == ip || is_prefix(ip + seq!['/'], pointer)
}

/// Whether the pointer falls under any of the ignore paths.
pub open spec fn is_ignored(pointer: Seq<char>, ignored: Seq<Seq<char>>) -> bool {
    exists|k: int|
        0 <= k < ignored.len() && ignored_matches(pointer, normalize_ignore(#[trigger] ignored[k]))
}

/// The views of an optional ignore set; absence means no path is ignored.
pub open spec fn ign_views(ignored: Option<&Vec<String>>) -> Seq<Seq<char>> {
    match ignored {
        None => Seq::empty(),
        Some(v) => str_views(v@),
    }
}

/// Decides whether one ignore path, once normalized, suppresses the node at
/// the given pointer.
#[verifier::loop_isolation(false)]
fn matches_ignore(pointer: &Vec<char>, ip: &str) -> (r: bool)
    ensures
        r == ignored_matches(pointer@, normalize_ignore(ip@)),
{
    let mut ipv = chars_of(ip);
    if ipv.len() > 1 && ipv[ipv.len() - 1] == '/' {
        let mut end: usize = ipv.len();
        proof {
            assert(ip@.take(ipv@.len() as int) =~= ip@);
        }
        while end > 0 && ipv[end - 1] == '/'
            invariant
                0 <= end <= ipv@.len(),
                strip_trailing_slashes(ip@) == strip_trailing_slashes(ip@.take(end as int)),
            decreases end,
        {
            proof {
                assert(ip@.take(end as int).take(end - 1) =~= ip@.take(end - 1));
            }
            end -= 1;
        }
        proof {
            assert(strip_trailing_slashes(ip@.take(end as int)) == ip@.take(end as int));
            assert(normalize_ignore(ip@) == ip@.take(end as int));
        }
        ipv.truncate(end);
        proof {
            assert(ipv@ =~= ip@.take(end as int));
        }
    } else {
        proof {
            assert(normalize_ignore(ip@) == ip@);
        }
    }
    // `ipv` now holds the normalized ignore path.
    if chars_eq(pointer, &ipv) {
        return true;
    }
    // Strict-descendant test: the pointer continues the ignore path with a
    // slash at the segment boundary.
    if pointer.len() <= ipv.len() {
        proof {
            assert(!is_prefix(ipv@ + seq!['/'], pointer@));
        }
        return false;
    }
    let mut i: usize = 0;
    while i < ipv.len()
        invariant
            0 <= i <= ipv@.len(),
            ipv@.len() < pointer@.len(),
            forall|j: int| 0 <= j < i ==> pointer@[j] == ipv@[j],
        decreases ipv@.len() - i,
    {
        if pointer[i] != ipv[i] {
            proof {
                assert((ipv@ + seq!['/'])[i as int] == ipv@[i as int]);
                assert(!is_prefix(ipv@ + seq!['/'], pointer@));
            }
            return false;
        }
        i += 1;
    }
    if pointer[ipv.len()] != '/' {
        proof {
            assert((ipv@ + seq!['/'])[ipv@.len() as int] == '/');
            assert(!is_prefix(ipv@ + seq!['/'], pointer@));
        }
        return false;
    }
    proof {
        assert((ipv@ + seq!['/']) =~= pointer@.take(ipv@.len() as int + 1));
    }
    true
}

/// Decides whether the node at the given pointer is suppressed by any of
/// the ignore paths.
#[verifier::loop_isolation(false)]
pub fn pointer_is_ignored(pointer: &Vec<char>, ignored: Option<&Vec<String>>) -> (r: bool)
    ensures
        r == is_ignored(pointer@, ign_views(ignored)),
{
    match ignored {
        None => {
            proof {
                assert(ign_views(ignored).len() == 0);
            }
            false
        },
        Some(paths) => {
            let mut k: usize = 0;
            while k < paths.len()
                invariant
                    0 <= k <= paths@.len(),
                    forall|m: int|
                        0 <= m < k ==> !ignored_matches(
                            pointer@,
                            normalize_ignore(str_views(paths@)[m]),
                        ),
                decreases paths@.len() - k,
            {
                if matches_ignore(pointer, paths[k].as_str()) {
                    proof {
                        assert(str_views(paths@)[k as int] == paths@[k as int]@);
                        assert(ignored_matches(
                            pointer@,
                            normalize_ignore(str_views(paths@)[k as int]),
                        ));
                    }
                    return true;
                }
                k += 1;
            }
            false
        },
    }
}

/// Appends one fact.
fn push_fact(differences: &mut Vec<Difference>, d: Difference)
    ensures
        final (differences)@ == old(differences)@.push(d),
        facts_view(final (differences)@) == facts_view(old(differences)@).push(d@),
{
    let ghost dm = d@;
    differences.push(d);
    proof {
        assert(facts_view(differences@) =~= facts_view(differences@.drop_last()).push(dm));
        assert(differences@.drop_last() =~= old(differences)@);
    }
}

/// The path that labels order-independent array-element facts: the array's
/// path with a wildcard suffix.
pub open spec fn arr_path(path: Seq<char>) -> Seq<char> {
    path + "[*]"@
}

/// Whether entry `i` of `s` is the first occurrence of its value.
pub open spec fn first_occurrence(s: Seq<JsonValue>, i: int) -> bool {
    forall|j: int| 0 <= j < i ==> !eq_val(#[trigger] s[j], s[i])
}

/// `n` copies of one fact.
pub open spec fn fact_copies(f: DifferenceModel, n: nat) -> Seq<DifferenceModel> {
    Seq::new(n, |k: int| f)
}

/// The `ArrayElementRemoved` facts for the suffix of `a` from `i` on: at
/// the first occurrence of each value that occurs more often in `a` than
/// in `b`, one fact per excess occurrence, each carrying the preview of
/// that first-occurrence representative. Values are bucketed by value
/// equality; the preview is only the displayed payload.
pub open spec fn removed_facts(
    path: Seq<char>,
    a: Seq<JsonValue>,
    b: Seq<JsonValue>,
    i: int,
) -> Seq<DifferenceModel>
    decreases a.len() - i,
{
    if i < 0 || i >= a.len() {
        Seq::empty()
    } else {
        (if first_occurrence(a, i) && count_eq(a, a[i]) > count_eq(b, a[i]) {
            fact_copies(
                DifferenceModel::ArrayElementRemoved {
                    path: arr_path(path),
                    value: preview(a[i], 50),
                },
                (count_eq(a, a[i]) - count_eq(b, a[i])) as nat,
            )
        } else {
            Seq::empty()
        }) + removed_facts(path, a, b, i + 1)
    }
}

/// The `ArrayElementAdded` facts for the suffix of `b` from `i` on,
/// mirroring `removed_facts`.
pub open spec fn added_facts(
    path: Seq<char>,
    a: Seq<JsonValue>,
    b: Seq<JsonValue>,
    i: int,
) -> Seq<DifferenceModel>
    decreases b.len() - i,
{
    if i < 0 || i >= b.len() {
        Seq::empty()
    } else {
        (if first_occurrence(b, i) && count_eq(b, b[i]) > count_eq(a, b[i]) {
            fact_copies(
                DifferenceModel::ArrayElementAdded {
                    path: arr_path(path),
                    value: preview(b[i], 50),
                },
                (count_eq(b, b[i]) - count_eq(a, b[i])) as nat,
            )
        } else {
            Seq::empty()
        }) + added_facts(path, a, b, i + 1)
    }
}

/// The facts an order-independent array comparison yields: a length fact if
/// the lengths differ, then the removed-element facts, then the
/// added-element facts.
pub open spec fn array_facts(path: Seq<char>, a: Seq<JsonValue>, b: Seq<JsonValue>) -> Seq<
    DifferenceModel,
> {
    (if a.len() != b.len() {
        seq![
            DifferenceModel::ArrayLengthChanged {
                path: path,
                old_len: a.len() as int,
                new_len: b.len() as int,
            },
        ]
    } else {
        Seq::empty()
    }) + removed_facts(path, a, b, 0) + added_facts(path, a, b, 0)
}

/// Decides whether entry `i` of `items` is the first occurrence of its
/// value, in scan order.
#[verifier::loop_isolation(false)]
fn is_first_occurrence(items: &Vec<JsonValue>, i: usize) -> (r: bool)
    requires
        i < items@.len(),
    ensures
        r == first_occurrence(items@, i as int),
{
    let mut j: usize = 0;
    while j < i
        invariant
            0 <= j <= i < items@.len(),
            forall|m: int| 0 <= m < j ==> !eq_val(#[trigger] items@[m], items@[i as int]),
        decreases i - j,
    {
        if crate::json::json_eq(&items[j], &items[i]) {
            return false;
        }
        j += 1;
    }
    true
}

/// Compares two arrays as order-independent multisets of values, appending
/// the resulting facts: a length fact when the lengths differ, then, per
/// value bucketed by value equality, one removed or added fact for each
/// excess occurrence, carrying the preview of the value's first occurrence.
/// Equal counts need no facts.
#[verifier::loop_isolation(false)]
pub fn compare_arrays_order_independent(
    path: &str,
    arr1: &Vec<JsonValue>,
    arr2: &Vec<JsonValue>,
    differences: &mut Vec<Difference>,
)
    ensures
        facts_view(final (differences)@) == facts_view(old(differences)@) + array_facts(
            path@,
            arr1@,
            arr2@,
        ),
{
    let ghost fv0 = facts_view(differences@);
    if arr1.len() != arr2.len() {
        push_fact(
            differences,
            Difference::ArrayLengthChanged {
                path: path.to_owned(),
                old_len: arr1.len(),
                new_len: arr2.len(),
            },
        );
    }
    let ghost fv_len = facts_view(differences@);
    proof {
        assert(fv_len =~= fv0 + (if arr1@.len() != arr2@.len() {
            seq![
                DifferenceModel::ArrayLengthChanged {
                    path: path@,
                    old_len: arr1@.len() as int,
                    new_len: arr2@.len() as int,
                },
            ]
        } else {
            Seq::<DifferenceModel>::empty()
        }));
    }
    let star = {
        let mut s = path.to_owned();
        s.append("[*]");
        s
    };
    let mut i: usize = 0;
    while i < arr1.len()
        invariant
            0 <= i <= arr1@.len(),
            star@ == arr_path(path@),
            facts_view(differences@) + removed_facts(path@, arr1@, arr2@, i as int) == fv_len
                + removed_facts(path@, arr1@, arr2@, 0),
        decreases arr1@.len() - i,
    {
        if is_first_occurrence(arr1, i) {
            let c1: usize = crate::json::count_matches(arr1, &arr1[i]);
            let c2: usize = crate::json::count_matches(arr2, &arr1[i]);
            if c1 > c2 {
                let pv = format_value(&arr1[i], 50);
                let delta: usize = c1 - c2;
                let ghost f = DifferenceModel::ArrayElementRemoved {
                    path: arr_path(path@),
                    value: preview(arr1@[i as int], 50),
                };
                let ghost fv_before = facts_view(differences@);
                let mut k: usize = 0;
                while k < delta
                    invariant
                        0 <= k <= delta,
                        facts_view(differences@) == fv_before + fact_copies(f, k as nat),
                    decreases delta - k,
                {
                    push_fact(
                        differences,
                        Difference::ArrayElementRemoved {
                            path: star.clone(),
                            value: pv.clone(),
                        },
                    );
                    k += 1;
                    proof {
                        assert(facts_view(differences@) =~= fv_before + fact_copies(
                            f,
                            k as nat,
                        ));
                    }
                }
                proof {
                    assert(facts_view(differences@) + removed_facts(
                        path@,
                        arr1@,
                        arr2@,
                        i + 1,
                    ) =~= fv_len + removed_facts(path@, arr1@, arr2@, 0));
                }
            }
        }
        i += 1;
    }
    proof {
        assert(facts_view(differences@) =~= fv_len + removed_facts(path@, arr1@, arr2@, 0));
    }
    let ghost fv_rem = facts_view(differences@);
    let mut j: usize = 0;
    while j < arr2.len()
        invariant
            0 <= j <= arr2@.len(),
            star@ == arr_path(path@),
            facts_view(differences@) + added_facts(path@, arr1@, arr2@, j as int) == fv_rem
                + added_facts(path@, arr1@, arr2@, 0),
        decreases arr2@.len() - j,
    {
        if is_first_occurrence(arr2, j) {
            let c2: usize = crate::json::count_matches(arr2, &arr2[j]);
            let c1: usize = crate::json::count_matches(arr1, &arr2[j]);
            if c2 > c1 {
                let pv = format_value(&arr2[j], 50);
                let delta: usize = c2 - c1;
                let ghost f = DifferenceModel::ArrayElementAdded {
                    path: arr_path(path@),
                    value: preview(arr2@[j as int], 50),
                };
                let ghost fv_before = facts_view(differences@);
                let mut k: usize = 0;
                while k < delta
                    invariant
                        0 <= k <= delta,
                        facts_view(differences@) == fv_before + fact_copies(f, k as nat),
                    decreases delta - k,
                {
                    push_fact(
                        differences,
                        Difference::ArrayElementAdded {
                            path: star.clone(),
                            value: pv.clone(),
                        },
                    );
                    k += 1;
                    proof {
                        assert(facts_view(differences@) =~= fv_before + fact_copies(
                            f,
                            k as nat,
                        ));
                    }
                }
                proof {
                    assert(facts_view(differences@) + added_facts(path@, arr1@, arr2@, j + 1)
                        =~= fv_rem + added_facts(path@, arr1@, arr2@, 0));
                }
            }
        }
        j += 1;
    }
    proof {
        assert(facts_view(differences@) =~= fv0 + array_facts(path@, arr1@, arr2@));
    }
}

/// Whether some entry of `e` has key `k`.
pub open spec fn has_key(e: Seq<(String, JsonValue)>, k: Seq<char>) -> bool {
    exists|j: int| 0 <= j < e.len() && (#[trigger] e[j]).0@ == k
}

/// The value of the first entry of `e` from `j` on whose key is `k`.
pub open spec fn lookup_from(e: Seq<(String, JsonValue)>, k: Seq<char>, j: int) -> JsonValue
    decreases e.len() - j,
{
    if j < 0 || j >= e.len() {
        JsonValue::Null
    } else if e[j].0@ == k {
        e[j].1
    } else {
        lookup_from(e, k, j + 1)
    }
}

/// The value of the first entry of `e` whose key is `k`.
pub open spec fn lookup_first(e: Seq<(String, JsonValue)>, k: Seq<char>) -> JsonValue {
    lookup_from(e, k, 0)
}

/// Finds the first entry with the given key.
#[verifier::loop_isolation(false)]
fn find_entry(entries: &Vec<(String, JsonValue)>, key: &String) -> (r: Option<usize>)
    ensures
        match r {
            Some(j) => 0 <= j < entries@.len() && entries@[j as int].0@ == key@
                && entries@[j as int].1 == lookup_first(entries@, key@)
                && has_key(entries@, key@),
            None => !has_key(entries@, key@),
        },
{
    let mut j: usize = 0;
    while j < entries.len()
        invariant
            0 <= j <= entries@.len(),
            forall|m: int| 0 <= m < j ==> (#[trigger] entries@[m]).0@ != key@,
            lookup_first(entries@, key@) == lookup_from(entries@, key@, j as int),
        decreases entries@.len() - j,
    {
        if entries[j].0 == *key {
            return Some(j);
        }
        j += 1;
    }
    None
}

/// The JSON-pointer characters of a node path.
#[verifier::loop_isolation(false)]
fn pointer_chars(path: &str) -> (v: Vec<char>)
    ensures
        v@ == pointer_of(path@),
{
    let mut v: Vec<char> = Vec::new();
    v.push('/');
    let pc = chars_of(path);
    let mut i: usize = 0;
    while i < pc.len()
        invariant
            0 <= i <= pc@.len(),
            pc@ == path@,
            v@ == seq!['/'] + path@.take(i as int),
        decreases pc@.len() - i,
    {
        v.push(pc[i]);
        i += 1;
        proof {
            assert(v@ =~= seq!['/'] + path@.take(i as int));
        }
    }
    proof {
        assert(v@ =~= pointer_of(path@));
    }
    v
}

/// The path of a child node, as a string.
fn child_path_of(path: &str, key: &str) -> (r: String)
    ensures
        r@ == child_path(path@, key@),
{
    if path.is_empty() {
        key.to_owned()
    } else {
        let mut s = path.to_owned();
        push_char(&mut s, '/');
        s.append(key);
        proof {
            assert(s@ =~= child_path(path@, key@));
        }
        s
    }
}

/// The `BodyValueChanged` fact for a leaf: one fact when the values differ,
/// carrying the previews of both sides, nothing when they are equal.
pub open spec fn changed_facts(path: Seq<char>, a: JsonValue, b: JsonValue) -> Seq<
    DifferenceModel,
> {
    if !eq_val(a, b) {
        seq![
            DifferenceModel::BodyValueChanged {
                path: path,
                old_val: preview(a, 50),
                new_val: preview(b, 50),
            },
        ]
    } else {
        Seq::empty()
    }
}

/// The `BodyValueRemoved` facts for the entries of `e1` from `i` on whose
/// keys are absent from `e2`, skipping ignored child paths.
pub open spec fn object_removed(
    path: Seq<char>,
    e1: Seq<(String, JsonValue)>,
    e2: Seq<(String, JsonValue)>,
    ign: Seq<Seq<char>>,
    i: int,
) -> Seq<DifferenceModel>
    decreases e1, 0nat, e1.len() - i,
{
    if i < 0 || i >= e1.len() {
        Seq::empty()
    } else {
        (if !has_key(e2, e1[i].0@) && !is_ignored(pointer_of(child_path(path, e1[i].0@)), ign) {
            seq![
                DifferenceModel::BodyValueRemoved {
                    path: child_path(path, e1[i].0@),
                    value: preview(e1[i].1, 50),
                },
            ]
        } else {
            Seq::empty()
        }) + object_removed(path, e1, e2, ign, i + 1)
    }
}

/// The `BodyValueAdded` facts for the entries of `e2` from `i` on whose
/// keys are absent from `e1`, skipping ignored child paths.
pub open spec fn object_added(
    path: Seq<char>,
    e1: Seq<(String, JsonValue)>,
    e2: Seq<(String, JsonValue)>,
    ign: Seq<Seq<char>>,
    i: int,
) -> Seq<DifferenceModel>
    decreases e2, 0nat, e2.len() - i,
{
    if i < 0 || i >= e2.len() {
        Seq::empty()
    } else {
        (if !has_key(e1, e2[i].0@) && !is_ignored(pointer_of(child_path(path, e2[i].0@)), ign) {
            seq![
                DifferenceModel::BodyValueAdded {
                    path: child_path(path, e2[i].0@),
                    value: preview(e2[i].1, 50),
                },
            ]
        } else {
            Seq::empty()
        }) + object_added(path, e1, e2, ign, i + 1)
    }
}

/// The facts of the recursive comparisons of the common keys of `e1` and
/// `e2`, from entry `i` of `e1` on, in `e1`'s order.
pub open spec fn object_common(
    path: Seq<char>,
    e1: Seq<(String, JsonValue)>,
    e2: Seq<(String, JsonValue)>,
    maxd: int,
    cur: int,
    ign: Seq<Seq<char>>,
    i: int,
) -> Seq<DifferenceModel>
    decreases e1, 0nat, e1.len() - i,
{
    if i < 0 || i >= e1.len() {
        Seq::empty()
    } else {
        (if has_key(e2, e1[i].0@) {
            find_spec(
                child_path(path, e1[i].0@),
                e1[i].1,
                lookup_first(e2, e1[i].0@),
                maxd,
                cur + 1,
                ign,
            )
        } else {
            Seq::empty()
        }) + object_common(path, e1, e2, maxd, cur, ign, i + 1)
    }
}

/// The facts of the structural comparison of two body values at a node:
/// nothing once the depth bound is passed or the node is ignored; key
/// removals, additions and common-key recursion for two objects;
/// order-independent multiset comparison for two arrays; and a changed
/// fact for any other pair that differs.
pub open spec fn find_spec(
    path: Seq<char>,
    a: JsonValue,
    b: JsonValue,
    maxd: int,
    cur: int,
    ign: Seq<Seq<char>>,
) -> Seq<DifferenceModel>
    decreases a, 1nat, 0nat,
{
    if cur > maxd {
        Seq::empty()
    } else if is_ignored(pointer_of(path), ign) {
        Seq::empty()
    } else {
        match a {
            JsonValue::Object(x) => match b {
                JsonValue::Object(y) => object_removed(path, x@, y@, ign, 0) + object_added(
                    path,
                    x@,
                    y@,
                    ign,
                    0,
                ) + object_common(path, x@, y@, maxd, cur, ign, 0),
                _ => changed_facts(path, a, b),
            },
            JsonValue::Array(x) => match b {
                JsonValue::Array(y) => array_facts(path, x@, y@),
                _ => changed_facts(path, a, b),
            },
            _ => changed_facts(path, a, b),
        }
    }
}

/// Compares two objects entry by entry: keys only in the baseline yield
/// removed facts, keys only in the current side yield added facts, and
/// common keys are compared recursively one level deeper; facts at ignored
/// child paths are suppressed.
#[verifier::loop_isolation(false)]
fn compare_objects(
    path: &str,
    map1: &Vec<(String, JsonValue)>,
    map2: &Vec<(String, JsonValue)>,
    differences: &mut Vec<Difference>,
    max_depth: usize,
    current_depth: usize,
    ignored_paths: Option<&Vec<String>>,
)
    requires
        current_depth <= max_depth < usize::MAX,
    ensures
        facts_view(final (differences)@) == facts_view(old(differences)@) + object_removed(
            path@,
            map1@,
            map2@,
            ign_views(ignored_paths),
            0,
        ) + object_added(path@, map1@, map2@, ign_views(ignored_paths), 0) + object_common(
            path@,
            map1@,
            map2@,
            max_depth as int,
            current_depth as int,
            ign_views(ignored_paths),
            0,
        ),
    decreases *map1, 0nat,
{
    let ghost ign = ign_views(ignored_paths);
    let ghost fv0 = facts_view(differences@);
    let mut i: usize = 0;
    while i < map1.len()
        invariant
            0 <= i <= map1@.len(),
            facts_view(differences@) + object_removed(path@, map1@, map2@, ign, i as int) == fv0
                + object_removed(path@, map1@, map2@, ign, 0),
        decreases map1@.len() - i,
    {
        if find_entry(map2, &map1[i].0).is_none() {
            let child = child_path_of(path, map1[i].0.as_str());
            let pc = pointer_chars(child.as_str());
            if !pointer_is_ignored(&pc, ignored_paths) {
                push_fact(
                    differences,
                    Difference::BodyValueRemoved {
                        path: child,
                        value: format_value(&map1[i].1, 50),
                    },
                );
            }
        }
        i += 1;
    }
    let ghost fv1 = facts_view(differences@);
    let mut j: usize = 0;
    while j < map2.len()
        invariant
            0 <= j <= map2@.len(),
            facts_view(differences@) + object_added(path@, map1@, map2@, ign, j as int) == fv1
                + object_added(path@, map1@, map2@, ign, 0),
        decreases map2@.len() - j,
    {
        if find_entry(map1, &map2[j].0).is_none() {
            let child = child_path_of(path, map2[j].0.as_str());
            let pc = pointer_chars(child.as_str());
            if !pointer_is_ignored(&pc, ignored_paths) {
                push_fact(
                    differences,
                    Difference::BodyValueAdded {
                        path: child,
                        value: format_value(&map2[j].1, 50),
                    },
                );
            }
        }
        j += 1;
    }
    let ghost fv2 = facts_view(differences@);
    let mut k: usize = 0;
    while k < map1.len()
        invariant
            0 <= k <= map1@.len(),
            facts_view(differences@) + object_common(
                path@,
                map1@,
                map2@,
                max_depth as int,
                current_depth as int,
                ign,
                k as int,
            ) == fv2 + object_common(
                path@,
                map1@,
                map2@,
                max_depth as int,
                current_depth as int,
                ign,
                0,
            ),
        decreases map1@.len() - k,
    {
        match find_entry(map2, &map1[k].0) {
            Some(m) => {
                let child = child_path_of(path, map1[k].0.as_str());
                find_json_differences(
                    child.as_str(),
                    &map1[k].1,
                    &map2[m].1,
                    differences,
                    max_depth,
                    current_depth + 1,
                    ignored_paths,
                );
            },
            None => {},
        }
        k += 1;
    }
    proof {
        assert(facts_view(differences@) =~= fv0 + object_removed(path@, map1@, map2@, ign, 0)
            + object_added(path@, map1@, map2@, ign, 0) + object_common(
            path@,
            map1@,
            map2@,
            max_depth as int,
            current_depth as int,
            ign,
            0,
        ));
    }
}

/// Compares two body values at a node, appending the resulting facts:
/// nothing once `current_depth` passes `max_depth` or the node's pointer is
/// ignored; objects and arrays structurally; any other differing pair as
/// one changed fact with previews of both sides.
#[verifier::loop_isolation(false)]
pub fn find_json_differences(
    path: &str,
    val1: &JsonValue,
    val2: &JsonValue,
    differences: &mut Vec<Difference>,
    max_depth: usize,
    current_depth: usize,
    ignored_paths: Option<&Vec<String>>,
)
    requires
        max_depth < usize::MAX,
    ensures
        facts_view(final (differences)@) == facts_view(old(differences)@) + find_spec(
            path@,
            *val1,
            *val2,
            max_depth as int,
            current_depth as int,
            ign_views(ignored_paths),
        ),
    decreases *val1, 1nat,
{
    if current_depth > max_depth {
        return ;
    }
    let pc = pointer_chars(path);
    if pointer_is_ignored(&pc, ignored_paths) {
        return ;
    }
    match val1 {
        JsonValue::Object(x) => match val2 {
            JsonValue::Object(y) => {
                compare_objects(
                    path,
                    x,
                    y,
                    differences,
                    max_depth,
                    current_depth,
                    ignored_paths,
                );
            },
            _ => {
                if !crate::json::json_eq(val1, val2) {
                    push_fact(
                        differences,
                        Difference::BodyValueChanged {
                            path: path.to_owned(),
                            old_val: format_value(val1, 50),
                            new_val: format_value(val2, 50),
                        },
                    );
                }
            },
        },
        JsonValue::Array(x) => match val2 {
            JsonValue::Array(y) => {
                compare_arrays_order_independent(path, x, y, differences);
            },
            _ => {
                if !crate::json::json_eq(val1, val2) {
                    push_fact(
                        differences,
                        Difference::BodyValueChanged {
                            path: path.to_owned(),
                            old_val: format_value(val1, 50),
                            new_val: format_value(val2, 50),
                        },
                    );
                }
            },
        },
        _ => {
            if !crate::json::json_eq(val1, val2) {
                push_fact(
                    differences,
                    Difference::BodyValueChanged {
                        path: path.to_owned(),
                        old_val: format_value(val1, 50),
                        new_val: format_value(val2, 50),
                    },
                );
            }
        },
    }
}

/// The `HeaderValueChanged` and `HeaderValueRemoved` facts for the headers
/// of `h1` from `i` on: a change carries both values, each cut to the
/// length of the shorter one and to at most 300 characters; the equality
/// test itself is on the full values.
pub open spec fn header_changed_removed_facts(
    h1: Seq<(String, String)>,
    h2: Seq<(String, String)>,
    i: int,
) -> Seq<DifferenceModel>
    decreases h1.len() - i,
{
    if i < 0 || i >= h1.len() {
        Seq::empty()
    } else {
        (if has_header(h2, h1[i].0@) {
            let v1 = h1[i].1@;
            let v2 = header_lookup(h2, h1[i].0@);
            if v1 != v2 {
                let m = header_preview_len(v1.len() as int, v2.len() as int);
                seq![
                    DifferenceModel::HeaderValueChanged {
                        header_name: h1[i].0@,
                        old_val: v1.take(m),
                        new_val: v2.take(m),
                    },
                ]
            } else {
                Seq::empty()
            }
        } else {
            seq![DifferenceModel::HeaderValueRemoved { header_name: h1[i].0@ }]
        }) + header_changed_removed_facts(h1, h2, i + 1)
    }
}

/// The length changed-header previews are cut to: the shorter of the two
/// values, and at most 300 characters.
pub open spec fn header_preview_len(l1: int, l2: int) -> int {
    let m = if l1 <= l2 {
        l1
    } else {
        l2
    };
    if m <= 300 {
        m
    } else {
        300
    }
}

/// The `HeaderValueAdded` facts for the headers of `h2` from `i` on whose
/// names are absent from `h1`.
pub open spec fn header_added_facts(
    h1: Seq<(String, String)>,
    h2: Seq<(String, String)>,
    i: int,
) -> Seq<DifferenceModel>
    decreases h2.len() - i,
{
    if i < 0 || i >= h2.len() {
        Seq::empty()
    } else {
        (if !has_header(h1, h2[i].0@) {
            seq![DifferenceModel::HeaderValueAdded { header_name: h2[i].0@ }]
        } else {
            Seq::empty()
        }) + header_added_facts(h1, h2, i + 1)
    }
}

/// The facts for two bodies: a structural comparison rooted at the empty
/// path with the default depth bound when both parsed as JSON, otherwise a
/// whole-string comparison.
pub open spec fn body_facts(b1: ParsedBody, b2: ParsedBody, ign: Seq<Seq<char>>) -> Seq<
    DifferenceModel,
> {
    match b1.json {
        Some(x) => match b2.json {
            Some(y) => find_spec(Seq::empty(), x, y, 10, 0, ign),
            None => string_body_facts(b1, b2),
        },
        None => string_body_facts(b1, b2),
    }
}

/// A short bounded prefix of a raw body, as the whole-string fact carries
/// it.
pub open spec fn raw_preview(s: Seq<char>) -> Seq<char> {
    if s.len() <= 100 {
        s
    } else {
        s.take(100)
    }
}

/// The whole-string body comparison: one fact exactly when the raw bodies
/// differ as strings, carrying a bounded prefix preview of each side.
pub open spec fn string_body_facts(b1: ParsedBody, b2: ParsedBody) -> Seq<DifferenceModel> {
    if b1.raw@ != b2.raw@ {
        seq![
            DifferenceModel::DifferentBodyString {
                before: raw_preview(b1.raw@),
                after: raw_preview(b2.raw@),
            },
        ]
    } else {
        Seq::empty()
    }
}

/// Every difference between two response snapshots: the status fact when
/// the codes differ, then the header facts unless headers are ignored,
/// then the body facts.
pub open spec fn compute_spec(
    r1: HttpResponseData,
    r2: HttpResponseData,
    headers_ignored: bool,
    ign: Seq<Seq<char>>,
) -> Seq<DifferenceModel> {
    (if r1.status_code != r2.status_code {
        seq![
            DifferenceModel::StatusCodeChanged {
                old_val: r1.status_code,
                new_val: r2.status_code,
            },
        ]
    } else {
        Seq::empty()
    }) + (if !headers_ignored {
        header_changed_removed_facts(r1.headers@, r2.headers@, 0) + header_added_facts(
            r1.headers@,
            r2.headers@,
            0,
        )
    } else {
        Seq::empty()
    }) + body_facts(r1.body, r2.body, ign)
}

/// Compares two response snapshots and returns every difference, in order:
/// status code, headers (unless ignored), body.
#[verifier::loop_isolation(false)]
pub fn compute_differences(
    response1: &HttpResponseData,
    response2: &HttpResponseData,
    headers_ignored: bool,
    ignored_paths: Option<&Vec<String>>,
) -> (differences: Vec<Difference>)
    ensures
        facts_view(differences@) == compute_spec(
            *response1,
            *response2,
            headers_ignored,
            ign_views(ignored_paths),
        ),
{
    let ghost ign = ign_views(ignored_paths);
    let mut differences: Vec<Difference> = Vec::new();
    proof {
        assert(facts_view(differences@) =~= Seq::<DifferenceModel>::empty());
    }
    if response1.status_code != response2.status_code {
        push_fact(
            &mut differences,
            Difference::StatusCodeChanged {
                old_val: response1.status_code,
                new_val: response2.status_code,
            },
        );
    }
    let ghost fv_status = facts_view(differences@);
    if !headers_ignored {
        let h1 = &response1.headers;
        let h2 = &response2.headers;
        let mut i: usize = 0;
        while i < h1.len()
            invariant
                0 <= i <= h1@.len(),
                facts_view(differences@) + header_changed_removed_facts(h1@, h2@, i as int)
                    == fv_status + header_changed_removed_facts(h1@, h2@, 0),
            decreases h1@.len() - i,
        {
            match find_header(h2, h1[i].0.as_str()) {
                Some(j) => {
                    if !(h1[i].1 == h2[j].1) {
                        let l1: usize = chars_of(h1[i].1.as_str()).len();
                        let l2: usize = chars_of(h2[j].1.as_str()).len();
                        let m0: usize = if l1 <= l2 {
                            l1
                        } else {
                            l2
                        };
                        let m: usize = if m0 <= 300 {
                            m0
                        } else {
                            300
                        };
                        proof {
                            assert(m == header_preview_len(
                                h1@[i as int].1@.len() as int,
                                h2@[j as int].1@.len() as int,
                            ));
                        }
                        let ov = crate::strutil::take_chars(h1[i].1.as_str(), m);
                        let nv = crate::strutil::take_chars(h2[j].1.as_str(), m);
                        proof {
                            assert(ov@ =~= h1@[i as int].1@.take(m as int));
                            assert(nv@ =~= h2@[j as int].1@.take(m as int));
                        }
                        push_fact(
                            &mut differences,
                            Difference::HeaderValueChanged {
                                header_name: h1[i].0.clone(),
                                old_val: ov,
                                new_val: nv,
                            },
                        );
                    }
                },
                None => {
                    push_fact(
                        &mut differences,
                        Difference::HeaderValueRemoved { header_name: h1[i].0.clone() },
                    );
                },
            }
            i += 1;
        }
        let ghost fv_cr = facts_view(differences@);
        let mut j: usize = 0;
        while j < h2.len()
            invariant
                0 <= j <= h2@.len(),
                facts_view(differences@) + header_added_facts(h1@, h2@, j as int) == fv_cr
                    + header_added_facts(h1@, h2@, 0),
            decreases h2@.len() - j,
        {
            if find_header(h1, h2[j].0.as_str()).is_none() {
                push_fact(
                    &mut differences,
                    Difference::HeaderValueAdded { header_name: h2[j].0.clone() },
                );
            }
            j += 1;
        }
    }
    let ghost fv_headers = facts_view(differences@);
    match &response1.body.json {
        Some(x) => match &response2.body.json {
            Some(y) => {
                proof {
                    reveal_strlit("");
                    assert(""@ =~= Seq::<char>::empty());
                }
                find_json_differences("", x, y, &mut differences, 10, 0, ignored_paths);
            },
            None => {
                if !(response1.body.raw == response2.body.raw) {
                    let bp = crate::strutil::take_chars(response1.body.raw.as_str(), 100);
                    let ap = crate::strutil::take_chars(response2.body.raw.as_str(), 100);
                    proof {
                        assert(bp@ =~= raw_preview(response1.body.raw@));
                        assert(ap@ =~= raw_preview(response2.body.raw@));
                    }
                    push_fact(
                        &mut differences,
                        Difference::DifferentBodyString { before: bp, after: ap },
                    );
                }
            },
        },
        None => {
            if !(response1.body.raw == response2.body.raw) {
                let bp = crate::strutil::take_chars(response1.body.raw.as_str(), 100);
                let ap = crate::strutil::take_chars(response2.body.raw.as_str(), 100);
                proof {
                    assert(bp@ =~= raw_preview(response1.body.raw@));
                    assert(ap@ =~= raw_preview(response2.body.raw@));
                }
                push_fact(
                    &mut differences,
                    Difference::DifferentBodyString { before: bp, after: ap },
                );
            }
        },
    }
    proof {
        assert(facts_view(differences@) =~= compute_spec(
            *response1,
            *response2,
            headers_ignored,
            ign,
        ));
    }
    differences
}

} // verus!
