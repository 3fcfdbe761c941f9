//! Stage 8 — ID resolution and cross-reference validation.
//!
//! Collects the explicit entity IDs (reporting duplicates), generates a
//! unique ID from the name of each entity that has none, and checks that
//! every `*_id` cross-reference names a known ID.
use vstd::prelude::*;
use vstd::set_lib::*;
use vstd::relations::injective_on;
use crate::error::{ValidationError, ValidationStage, Severity, DiagnosticView, diag, diags, lemma_concat_contains};
use crate::json::{Json, JsonV, elems_view, entries_view, json_get, json_str, obj_set, key_position};
use crate::raw::{RawConfig, ComponentConfig, ComponentView, comps_view};
use crate::stages::s2_substitutions::{index_path, key_path};
use crate::text::{
    chars_of, string_of, slice_range, to_lowercase, lowercase_of, is_alphanumeric, alphanumeric,
    trim_char, trim_start_char, trim_end_char, lemma_trim_start_at, lemma_trim_end_at, decimal,
    lemma_decimal_injective, u128_to_decimal, u64_to_decimal, concat2, concat3, concat5, owned,
    str_eq, ends_with, is_suffix, push_str,
};

verus! {

/// A resolved entity ID entry.
#[derive(Debug)]
pub struct IdEntry {
    /// The ID string.
    pub id: String,
    /// Index of the owning component in the config.
    pub component_index: usize,
    /// Type of the owning component.
    pub component_type: String,
}

/// The IDs held by a table.
pub open spec fn table_ids(t: Seq<IdEntry>) -> Seq<Seq<char>> {
    t.map_values(|e: IdEntry| e.id@)
}

/// The text with every character that is not alphanumeric replaced by `_`.
pub open spec fn underscore_non_alnum(s: Seq<char>) -> Seq<char> {
    s.map_values(|c: char| if alphanumeric(c) { c } else { '_' })
}

/// The slug of a name: lowercased, non-alphanumerics turned into `_`,
/// leading and trailing `_` trimmed.
pub open spec fn slug_spec(name: Seq<char>) -> Seq<char> {
    trim_char(underscore_non_alnum(lowercase_of(name)), '_')
}

/// Convert a human-readable name into an identifier slug.
pub fn slugify(name: &str) -> (r: String)
    ensures
        r@ == slug_spec(name@),
{
    let lower = to_lowercase(name);
    let t = chars_of(lower.as_str());
    let mut m: Vec<char> = Vec::new();
    let mut i: usize = 0;
    while i < t.len()
        invariant
            i <= t@.len(),
            t@ == lowercase_of(name@),
            m@ == underscore_non_alnum(t@).subrange(0, i as int),
        decreases t@.len() - i,
    {
        let c = t[i];
        let d = if is_alphanumeric(c) {
            c
        } else {
            '_'
        };
        m.push(d);
        i = i + 1;
        proof {
            assert(m@ =~= underscore_non_alnum(t@).subrange(0, i as int));
        }
    }
    let ghost u = underscore_non_alnum(t@);
    proof {
        assert(m@ =~= u);
    }
    let mut a: usize = 0;
    while a < m.len() && m[a] == '_'
        invariant
            a <= m@.len(),
            forall|j: int| 0 <= j < a ==> m@[j] == '_',
        decreases m@.len() - a,
    {
        a = a + 1;
    }
    proof {
        lemma_trim_start_at(m@, '_', a as int);
    }
    let ghost st = m@.subrange(a as int, m@.len() as int);
    let mut b: usize = m.len();
    while b > a && m[b - 1] == '_'
        invariant
            a <= b <= m@.len(),
            forall|j: int| b <= j < m@.len() ==> m@[j] == '_',
        decreases b,
    {
        b = b - 1;
    }
    proof {
        assert forall|j: int| b - a <= j < st.len() implies st[j] == '_' by {
            assert(st[j] == m@[a + j]);
        }
        if b > a {
            assert(st[b - a - 1] == m@[b - 1]);
        }
        lemma_trim_end_at(st, '_', b - a);
        assert(st.subrange(0, b - a) =~= m@.subrange(a as int, b as int));
    }
    string_of(slice_range(&m, a, b).as_slice())
}

/// `base_n`.
pub open spec fn suffixed(base: Seq<char>, n: nat) -> Seq<char> {
    base + seq!['_'] + decimal(n)
}

/// Distinct suffixes give distinct names.
pub proof fn lemma_suffixed_injective(base: Seq<char>, a: nat, b: nat)
    requires
        suffixed(base, a) == suffixed(base, b),
    ensures
        a == b,
{
    let k = base.len() + 1;
    assert(suffixed(base, a).subrange(k as int, suffixed(base, a).len() as int) =~= decimal(a));
    assert(suffixed(base, b).subrange(k as int, suffixed(base, b).len() as int) =~= decimal(b));
    lemma_decimal_injective(a, b);
}

/// When `base_2 .. base_{n-1}` all occur among `ids`, there are at most as
/// many of them as ids.
pub proof fn lemma_candidates_bounded(base: Seq<char>, ids: Seq<Seq<char>>, n: int)
    requires
        n >= 2,
        forall|m: nat| 2 <= m < n ==> ids.contains(#[trigger] suffixed(base, m)),
    ensures
        n - 2 <= ids.len(),
{
    let f = |m: int| suffixed(base, m as nat);
    let x = set_int_range(2, n);
    lemma_int_range(2, n);
    let y = x.map(f);
    assert(injective_on(f, x)) by {
        assert forall|a: int, b: int| x.contains(a) && x.contains(b) && #[trigger] f(a) == #[trigger] f(b) implies a == b by {
            lemma_suffixed_injective(base, a as nat, b as nat);
        }
    }
    lemma_map_size(x, y, f);
    assert(y.subset_of(ids.to_set())) by {
        assert forall|s: Seq<char>| y.contains(s) implies ids.to_set().contains(s) by {
            let m = choose|m: int| x.contains(m) && f(m) == s;
            assert(ids.contains(suffixed(base, m as nat)));
        }
    }
    ids.lemma_cardinality_of_set();
    lemma_len_subset(y, ids.to_set());
}

fn table_has(table: &Vec<IdEntry>, id: &str) -> (r: bool)
    ensures
        r == table_ids(table@).contains(id@),
{
    let ghost w = table_ids(table@);
    let mut i: usize = 0;
    while i < table.len()
        invariant
            i <= table@.len(),
            w == table_ids(table@),
            forall|j: int| 0 <= j < i ==> w[j] != id@,
        decreases table@.len() - i,
    {
        if str_eq(table[i].id.as_str(), id) {
            proof {
                assert(w[i as int] == id@);
            }
            return true;
        }
        i = i + 1;
    }
    false
}

/// `base` when it is free in `table`, else `base_n` for the least `n >= 2`
/// that is free.
pub fn make_unique(base: &str, table: &Vec<IdEntry>) -> (r: String)
    ensures
        !table_ids(table@).contains(r@),
        !table_ids(table@).contains(base@) ==> r@ == base@,
        table_ids(table@).contains(base@) ==> exists|n: nat|
            n >= 2 && r@ == suffixed(base@, n) && forall|m: nat|
                2 <= m < n ==> table_ids(table@).contains(#[trigger] suffixed(base@, m)),
{
    if !table_has(table, base) {
        return owned(base);
    }
    let ghost ids = table_ids(table@);
    let len = table.len();
    let mut n: u128 = 2;
    loop
        invariant
            2 <= n,
            len == table@.len(),
            ids.len() == len,
            ids == table_ids(table@),
            ids.contains(base@),
            forall|m: nat| 2 <= m < n ==> ids.contains(#[trigger] suffixed(base@, m)),
            n - 2 <= ids.len(),
        decreases ids.len() + 2 - n,
    {
        let mut candidate = concat2(base, "_");
        let digits = u128_to_decimal(n);
        push_str(&mut candidate, digits.as_str());
        proof {
            reveal_strlit("_");
            assert(candidate@ =~= suffixed(base@, n as nat));
        }
        if !table_has(table, candidate.as_str()) {
            return candidate;
        }
        proof {
            lemma_candidates_bounded(base@, ids, n + 1);
        }
        n = n + 1;
    }
}

/// The name `make_unique` picks: `base` when free, else `base_n` for the
/// least free `n >= 2`.
pub open spec fn unique_name(base: Seq<char>, ids: Seq<Seq<char>>) -> Seq<char> {
    if !ids.contains(base) {
        base
    } else {
        suffixed(
            base,
            choose|n: nat|
                n >= 2 && !ids.contains(suffixed(base, n)) && forall|m: nat|
                    2 <= m < n ==> ids.contains(#[trigger] suffixed(base, m)),
        )
    }
}

/// The name `make_unique` returns is `unique_name`, and it is free.
pub proof fn lemma_unique_name(base: Seq<char>, ids: Seq<Seq<char>>, r: Seq<char>)
    requires
        !ids.contains(r),
        !ids.contains(base) ==> r == base,
        ids.contains(base) ==> exists|n: nat|
            n >= 2 && r == suffixed(base, n) && forall|m: nat|
                2 <= m < n ==> ids.contains(#[trigger] suffixed(base, m)),
    ensures
        unique_name(base, ids) == r,
{
    if ids.contains(base) {
        let n = choose|n: nat|
            n >= 2 && r == suffixed(base, n) && forall|m: nat|
                2 <= m < n ==> ids.contains(#[trigger] suffixed(base, m));
        assert(n >= 2 && !ids.contains(suffixed(base, n)) && forall|m: nat|
            2 <= m < n ==> ids.contains(#[trigger] suffixed(base, m)));
        let k = choose|k: nat|
            k >= 2 && !ids.contains(suffixed(base, k)) && forall|m: nat|
                2 <= m < k ==> ids.contains(#[trigger] suffixed(base, m));
        if k < n {
            assert(ids.contains(suffixed(base, k)));
        } else if n < k {
            assert(ids.contains(suffixed(base, n)));
        }
    }
}

/// The error for a `*_id` member naming an unknown ID, if it is one.
pub open spec fn ref_errors(key: Seq<char>, val: JsonV, ids: Seq<Seq<char>>, path: Seq<char>) -> Seq<
    DiagnosticView,
> {
    match val {
        JsonV::Str(r) => if is_suffix("_id"@, key) && key != "id"@ && r.len() > 0 && !ids.contains(
            r,
        ) {
            seq![
                diag(
                    ValidationStage::IdResolution,
                    Severity::Error,
                    path,
                    "cross-reference '"@ + r + "' not found in ID table"@,
                ),
            ]
        } else {
            Seq::empty()
        },
        _ => Seq::empty(),
    }
}

/// The cross-reference errors found walking a value.
pub open spec fn cross_spec(j: JsonV, ids: Seq<Seq<char>>, path: Seq<char>) -> Seq<DiagnosticView>
    decreases j, 0int,
{
    match j {
        JsonV::Object(m) => cross_members(m, ids, path, m.len() as int),
        JsonV::Array(a) => cross_elems(a, ids, path, a.len() as int),
        _ => Seq::empty(),
    }
}

/// `cross_spec` over the first `n` members of an object.
pub open spec fn cross_members(
    m: Seq<(Seq<char>, JsonV)>,
    ids: Seq<Seq<char>>,
    path: Seq<char>,
    n: int,
) -> Seq<DiagnosticView>
    decreases m, n,
{
    if n <= 0 || n > m.len() {
        Seq::empty()
    } else {
        proof {
            assert(decreases_to!(m => m[n - 1]));
            assert(decreases_to!(m[n - 1] => m[n - 1].1));
        }
        let fp = key_path(path, m[n - 1].0);
        cross_members(m, ids, path, n - 1) + ref_errors(m[n - 1].0, m[n - 1].1, ids, fp)
            + cross_spec(m[n - 1].1, ids, fp)
    }
}

/// `cross_spec` over the first `n` elements of an array.
pub open spec fn cross_elems(a: Seq<JsonV>, ids: Seq<Seq<char>>, path: Seq<char>, n: int) -> Seq<
    DiagnosticView,
>
    decreases a, n,
{
    if n <= 0 || n > a.len() {
        Seq::empty()
    } else {
        cross_elems(a, ids, path, n - 1) + cross_spec(a[n - 1], ids, index_path(path, n - 1))
    }
}

/// The error for a `*_id` reference to `r` missing from the ID table, at `path`.
pub open spec fn missing_ref_diag(path: Seq<char>, r: Seq<char>) -> DiagnosticView {
    diag(
        ValidationStage::IdResolution,
        Severity::Error,
        path,
        "cross-reference '"@ + r + "' not found in ID table"@,
    )
}

/// Every error of element `i` (found at `path[i]`) is among those of the
/// first `n` elements, for `n > i`.
proof fn lemma_cross_elems_contains(
    a: Seq<JsonV>,
    ids: Seq<Seq<char>>,
    path: Seq<char>,
    n: int,
    i: int,
    d: DiagnosticView,
)
    requires
        0 <= i < n <= a.len(),
        cross_spec(a[i], ids, index_path(path, i)).contains(d),
    ensures
        cross_elems(a, ids, path, n).contains(d),
    decreases n,
{
    let prev = cross_elems(a, ids, path, n - 1);
    let last = cross_spec(a[n - 1], ids, index_path(path, n - 1));
    if i < n - 1 {
        lemma_cross_elems_contains(a, ids, path, n - 1, i, d);
    }
    lemma_concat_contains(prev, last, d);
}

/// Every error of member `i` (its own reference check and those found in its
/// value, at `path.key`) is among those of the first `n` members, for `n > i`.
proof fn lemma_cross_members_contains(
    m: Seq<(Seq<char>, JsonV)>,
    ids: Seq<Seq<char>>,
    path: Seq<char>,
    n: int,
    i: int,
    d: DiagnosticView,
)
    requires
        0 <= i < n <= m.len(),
        ref_errors(m[i].0, m[i].1, ids, key_path(path, m[i].0)).contains(d) || cross_spec(
            m[i].1,
            ids,
            key_path(path, m[i].0),
        ).contains(d),
    ensures
        cross_members(m, ids, path, n).contains(d),
    decreases n,
{
    let fp = key_path(path, m[n - 1].0);
    let prev = cross_members(m, ids, path, n - 1);
    let own = ref_errors(m[n - 1].0, m[n - 1].1, ids, fp);
    let inner = cross_spec(m[n - 1].1, ids, fp);
    if i < n - 1 {
        lemma_cross_members_contains(m, ids, path, n - 1, i, d);
    }
    lemma_concat_contains(own, inner, d);
    lemma_concat_contains(prev, own + inner, d);
    assert(prev + own + inner =~= prev + (own + inner));
}

/// Cross-references inside arrays are checked: every error found in element
/// `i` of an array, at path `path[i]`, is an error of the array.
pub proof fn lemma_cross_array_elements(a: Seq<JsonV>, ids: Seq<Seq<char>>, path: Seq<char>, i: int, d: DiagnosticView)
    requires
        0 <= i < a.len(),
        cross_spec(a[i], ids, index_path(path, i)).contains(d),
    ensures
        cross_spec(JsonV::Array(a), ids, path).contains(d),
{
    lemma_cross_elems_contains(a, ids, path, a.len() as int, i, d);
}

/// Cross-references inside object members are checked: every error found in
/// the value of member `k`, at path `path.k`, is an error of the object.
pub proof fn lemma_cross_member_value(
    m: Seq<(Seq<char>, JsonV)>,
    ids: Seq<Seq<char>>,
    path: Seq<char>,
    i: int,
    d: DiagnosticView,
)
    requires
        0 <= i < m.len(),
        cross_spec(m[i].1, ids, key_path(path, m[i].0)).contains(d),
    ensures
        cross_spec(JsonV::Object(m), ids, path).contains(d),
{
    lemma_cross_members_contains(m, ids, path, m.len() as int, i, d);
}

/// A member whose key ends in `_id` (and is not `id`) and whose value is a
/// non-empty string missing from the ID table yields the error for that
/// reference at path `path.key`.
pub proof fn lemma_cross_missing_reference(
    m: Seq<(Seq<char>, JsonV)>,
    ids: Seq<Seq<char>>,
    path: Seq<char>,
    i: int,
    r: Seq<char>,
)
    requires
        0 <= i < m.len(),
        is_suffix("_id"@, m[i].0),
        m[i].0 != "id"@,
        m[i].1 == JsonV::Str(r),
        r.len() > 0,
        !ids.contains(r),
    ensures
        cross_spec(JsonV::Object(m), ids, path).contains(missing_ref_diag(key_path(path, m[i].0), r)),
{
    let d = missing_ref_diag(key_path(path, m[i].0), r);
    assert(ref_errors(m[i].0, m[i].1, ids, key_path(path, m[i].0)) == seq![d]);
    assert(seq![d][0] == d);
    lemma_cross_members_contains(m, ids, path, m.len() as int, i, d);
}

/// One more element at the end of an array: its errors, found at its index
/// path, come after those of the elements before it.
pub proof fn lemma_cross_array_push(a: Seq<JsonV>, x: JsonV, ids: Seq<Seq<char>>, path: Seq<char>)
    ensures
        cross_spec(JsonV::Array(a.push(x)), ids, path) == cross_spec(JsonV::Array(a), ids, path) + cross_spec(
            x,
            ids,
            index_path(path, a.len() as int),
        ),
{
    lemma_cross_elems_push_prefix(a, x, ids, path, a.len() as int);
    assert(a.push(x)[a.len() as int] == x);
}

proof fn lemma_cross_elems_push_prefix(a: Seq<JsonV>, x: JsonV, ids: Seq<Seq<char>>, path: Seq<char>, n: int)
    requires
        0 <= n <= a.len(),
    ensures
        cross_elems(a.push(x), ids, path, n) == cross_elems(a, ids, path, n),
    decreases n,
{
    if n > 0 {
        lemma_cross_elems_push_prefix(a, x, ids, path, n - 1);
        assert(a.push(x)[n - 1] == a[n - 1]);
    }
}

/// Walk a JSON value for `*_id` members and check that they name known IDs.
pub fn check_cross_refs(
    value: &Json,
    table: &Vec<IdEntry>,
    path: &str,
    errors: &mut Vec<ValidationError>,
)
    ensures
        diags(final(errors)@) == diags(old(errors)@) + cross_spec(value@, table_ids(table@), path@),
    decreases value,
{
    let ghost ids = table_ids(table@);
    let ghost e0 = diags(errors@);
    match value {
        Json::Object(m) => {
            let ghost a = entries_view(m@);
            let mut i: usize = 0;
            while i < m.len()
                invariant
                    *value == Json::Object(*m),
                    a == entries_view(m@),
                    ids == table_ids(table@),
                    i <= m@.len(),
                    diags(errors@) == e0 + cross_members(a, ids, path@, i as int),
                decreases m@.len() - i,
            {
                proof {
                    broadcast use vstd::std_specs::vec::axiom_vec_index_decreases;
                    assert(decreases_to!(*value => (*value)->Object_0));
                    assert(decreases_to!(*m => m[i as int]));
                    assert(decreases_to!(m[i as int] => m[i as int].1));
                    assert(decreases_to!(*value => m[i as int].1));
                    assert(a[i as int] == (m@[i as int].0@, m@[i as int].1@));
                }
                let key = m[i].0.as_str();
                let fp = concat3(path, ".", key);
                proof {
                    reveal_strlit(".");
                    assert(fp@ =~= key_path(path@, key@));
                }
                let ghost before = diags(errors@);
                let mut pushed = false;
                if ends_with(key, "_id") && !str_eq(key, "id") {
                    if let Some(r) = m[i].1.as_str() {
                        if r.unicode_len() > 0 && !table_has(table, r) {
                            let msg = concat3("cross-reference '", r, "' not found in ID table");
                            let e = ValidationError::error(
                                ValidationStage::IdResolution,
                                fp.as_str(),
                                msg.as_str(),
                            );
                            errors.push(e);
                            pushed = true;
                            proof {
                                assert(diags(errors@) =~= before + ref_errors(
                                    a[i as int].0,
                                    a[i as int].1,
                                    ids,
                                    fp@,
                                ));
                            }
                        }
                    }
                }
                if !pushed {
                    proof {
                        assert(diags(errors@) =~= before + ref_errors(
                            a[i as int].0,
                            a[i as int].1,
                            ids,
                            fp@,
                        ));
                    }
                }
                check_cross_refs(&m[i].1, table, fp.as_str(), errors);
                i = i + 1;
            }
        },
        Json::Array(v) => {
            let ghost a = elems_view(v@);
            let mut i: usize = 0;
            while i < v.len()
                invariant
                    *value == Json::Array(*v),
                    a == elems_view(v@),
                    ids == table_ids(table@),
                    i <= v@.len(),
                    diags(errors@) == e0 + cross_elems(a, ids, path@, i as int),
                decreases v@.len() - i,
            {
                proof {
                    broadcast use vstd::std_specs::vec::axiom_vec_index_decreases;
                    assert(decreases_to!(*value => (*value)->Array_0));
                    assert(decreases_to!(*v => v[i as int]));
                    assert(decreases_to!(*value => v[i as int]));
                    assert(a[i as int] == v@[i as int]@);
                }
                let ip = concat3("[", u64_to_decimal(i as u64).as_str(), "]");
                let p = concat2(path, ip.as_str());
                proof {
                    reveal_strlit("[");
                    reveal_strlit("]");
                    assert(p@ =~= index_path(path@, i as int));
                }
                check_cross_refs(&v[i], table, p.as_str(), errors);
                i = i + 1;
            }
        },
        _ => {
            proof {
                assert(diags(errors@) =~= e0 + Seq::<DiagnosticView>::empty());
            }
        },
    }
}

/// Abstract ID entry.
pub struct IdEntryView {
    pub id: Seq<char>,
    pub component_index: int,
    pub component_type: Seq<char>,
}

impl View for IdEntry {
    type V = IdEntryView;

    open spec fn view(&self) -> IdEntryView {
        IdEntryView {
            id: self.id@,
            component_index: self.component_index as int,
            component_type: self.component_type@,
        }
    }
}

/// The views of a table's entries.
pub open spec fn table_view(t: Seq<IdEntry>) -> Seq<IdEntryView> {
    t.map_values(|e: IdEntry| e@)
}

/// The IDs of abstract entries.
pub open spec fn view_ids(t: Seq<IdEntryView>) -> Seq<Seq<char>> {
    t.map_values(|e: IdEntryView| e.id)
}

/// Index of the first entry with ID `s`, or the length.
pub open spec fn id_index(t: Seq<IdEntryView>, s: Seq<char>) -> int
    decreases t.len(),
{
    if t.len() == 0 {
        0
    } else if t[0].id == s {
        0
    } else {
        1 + id_index(t.drop_first(), s)
    }
}

/// Facts about `id_index`.
pub proof fn lemma_id_index(t: Seq<IdEntryView>, s: Seq<char>)
    ensures
        0 <= id_index(t, s) <= t.len(),
        id_index(t, s) < t.len() ==> t[id_index(t, s)].id == s,
        forall|j: int| 0 <= j < id_index(t, s) ==> t[j].id != s,
        (id_index(t, s) < t.len()) == view_ids(t).contains(s),
    decreases t.len(),
{
    if t.len() > 0 && t[0].id != s {
        lemma_id_index(t.drop_first(), s);
        assert forall|j: int| 0 <= j < id_index(t, s) implies t[j].id != s by {
            if j > 0 {
                assert(t[j] == t.drop_first()[j - 1]);
            }
        }
        if view_ids(t).contains(s) {
            let j = choose|j: int| 0 <= j < view_ids(t).len() && view_ids(t)[j] == s;
            assert(j > 0);
            assert(view_ids(t.drop_first())[j - 1] == s);
        }
        if view_ids(t.drop_first()).contains(s) {
            let j = choose|j: int| 0 <= j < view_ids(t.drop_first()).len() && view_ids(t.drop_first())[j] == s;
            assert(view_ids(t)[j + 1] == s);
        }
    } else if t.len() > 0 {
        assert(view_ids(t)[0] == s);
    }
}

/// The error for an explicit ID that is already taken by `e`.
pub open spec fn duplicate_id_diag(path: Seq<char>, s: Seq<char>, e: IdEntryView) -> DiagnosticView {
    diag(
        ValidationStage::IdResolution,
        Severity::Error,
        path,
        "duplicate ID '"@ + s + "': already used by "@ + e.component_type + " at index "@ + decimal(
            e.component_index as nat,
        ),
    )
}

/// First pass over the first `n` components: the explicit string IDs, and
/// the errors for duplicates and for non-string IDs.
pub open spec fn collect_ids(cs: Seq<ComponentView>, n: int) -> (Seq<IdEntryView>, Seq<DiagnosticView>)
    decreases n,
{
    if n <= 0 || n > cs.len() {
        (Seq::empty(), Seq::empty())
    } else {
        let prev = collect_ids(cs, n - 1);
        let c = cs[n - 1];
        let p = index_path("components"@, n - 1) + ".id"@;
        match json_get(c.config, "id"@) {
            Some(JsonV::Str(s)) => {
                let k = id_index(prev.0, s);
                if k < prev.0.len() {
                    (prev.0, prev.1.push(duplicate_id_diag(p, s, prev.0[k])))
                } else {
                    (
                        prev.0.push(
                            IdEntryView { id: s, component_index: n - 1, component_type: c.component_type },
                        ),
                        prev.1,
                    )
                }
            },
            Some(JsonV::Null) => prev,
            Some(_) => (
                prev.0,
                prev.1.push(
                    diag(
                        ValidationStage::IdResolution,
                        Severity::Error,
                        p,
                        "entity 'id' field must be a string"@,
                    ),
                ),
            ),
            None => prev,
        }
    }
}

/// Second pass over the first `n` components, starting from table `t0`: a
/// component with no `id` and a string `name` gets the unique slug of its
/// name as its `id`, which enters the table.
pub open spec fn generate_ids(cs: Seq<ComponentView>, t0: Seq<IdEntryView>, n: int) -> (
    Seq<ComponentView>,
    Seq<IdEntryView>,
)
    decreases n,
{
    if n <= 0 || n > cs.len() {
        (Seq::empty(), t0)
    } else {
        let prev = generate_ids(cs, t0, n - 1);
        let c = cs[n - 1];
        if json_get(c.config, "id"@) is None && json_str(json_get(c.config, "name"@)) is Some {
            let uid = unique_name(
                slug_spec(json_str(json_get(c.config, "name"@))->Some_0),
                view_ids(prev.1),
            );
            let cfg = match c.config {
                JsonV::Object(m) => JsonV::Object(obj_set(m, "id"@, JsonV::Str(uid))),
                _ => c.config,
            };
            (
                prev.0.push(
                    ComponentView { component_type: c.component_type, platform: c.platform, config: cfg },
                ),
                prev.1.push(IdEntryView { id: uid, component_index: n - 1, component_type: c.component_type }),
            )
        } else {
            (prev.0.push(c), prev.1)
        }
    }
}

/// Third pass: the cross-reference errors of the first `n` components.
pub open spec fn cross_all(cs: Seq<ComponentView>, ids: Seq<Seq<char>>, n: int) -> Seq<DiagnosticView>
    decreases n,
{
    if n <= 0 || n > cs.len() {
        Seq::empty()
    } else {
        cross_all(cs, ids, n - 1) + cross_spec(cs[n - 1].config, ids, index_path("components"@, n - 1))
    }
}

fn table_position(table: &Vec<IdEntry>, id: &str) -> (r: usize)
    ensures
        r == id_index(table_view(table@), id@),
{
    let ghost t = table_view(table@);
    let mut i: usize = 0;
    while i < table.len()
        invariant
            i <= table@.len(),
            t == table_view(table@),
            forall|j: int| 0 <= j < i ==> t[j].id != id@,
        decreases table@.len() - i,
    {
        if str_eq(table[i].id.as_str(), id) {
            proof {
                lemma_id_index(t, id@);
                let k = id_index(t, id@);
                if k < i {
                    assert(t[k].id != id@);
                } else if i < k {
                    assert(t[i as int].id == id@);
                }
            }
            return i;
        }
        i = i + 1;
    }
    proof {
        lemma_id_index(t, id@);
        let k = id_index(t, id@);
        if k < i {
            assert(t[k].id != id@);
        }
    }
    i
}

fn id_path(i: usize) -> (r: String)
    ensures
        r@ == index_path("components"@, i as int) + ".id"@,
{
    let ip = concat3("[", u64_to_decimal(i as u64).as_str(), "]");
    let p = concat3("components", ip.as_str(), ".id");
    proof {
        reveal_strlit("[");
        reveal_strlit("]");
        assert(p@ =~= index_path("components"@, i as int) + ".id"@);
    }
    p
}

/// Stage 8: resolve entity IDs and check cross-references.
///
/// Returns the ID table, whose IDs are all distinct, and the diagnostics:
/// duplicate or non-string explicit IDs, then unknown cross-references.
/// Entities without an `id` but with a `name` get a generated, unique one.
pub fn stage_8_resolve_ids(config: &mut RawConfig) -> (r: (Vec<IdEntry>, Vec<ValidationError>))
    ensures
        ({
            let cs = comps_view(old(config).components@);
            let n = cs.len() as int;
            let p1 = collect_ids(cs, n);
            let p2 = generate_ids(cs, p1.0, n);
            &&& table_view(r.0@) == p2.1
            &&& comps_view(final(config).components@) == p2.0
            &&& diags(r.1@) == p1.1 + cross_all(p2.0, view_ids(p2.1), n)
        }),
        table_ids(r.0@).no_duplicates(),
        final(config).esphome == old(config).esphome,
        final(config).packages == old(config).packages,
        final(config).substitutions == old(config).substitutions,
{
    let mut errors: Vec<ValidationError> = Vec::new();
    let mut table: Vec<IdEntry> = Vec::new();
    let ghost cs = comps_view(config.components@);
    let ghost old_config = *config;
    let n = config.components.len();
    proof {
        assert(table_view(table@) =~= Seq::<IdEntryView>::empty());
        assert(diags(errors@) =~= Seq::<DiagnosticView>::empty());
    }
    let mut i: usize = 0;
    while i < n
        invariant
            i <= n,
            n == config.components@.len(),
            cs == comps_view(config.components@),
            (table_view(table@), diags(errors@)) == collect_ids(cs, i as int),
            table_ids(table@).no_duplicates(),
            table_ids(table@) == view_ids(table_view(table@)),
        decreases n - i,
    {
        let comp = &config.components[i];
        proof {
            assert(cs[i as int] == comp@);
        }
        let ghost tb = table_view(table@);
        let ghost eb = diags(errors@);
        match comp.config.get("id") {
            Some(v) => {
                match v.as_str() {
                    Some(s) => {
                        let k = table_position(&table, s);
                        proof {
                            lemma_id_index(tb, s@);
                        }
                        if k < table.len() {
                            let p = id_path(i);
                            let mut msg = concat3("duplicate ID '", s, "': already used by ");
                            push_str(&mut msg, table[k].component_type.as_str());
                            push_str(&mut msg, " at index ");
                            let d = u64_to_decimal(table[k].component_index as u64);
                            push_str(&mut msg, d.as_str());
                            let e = ValidationError::error(ValidationStage::IdResolution, p.as_str(), msg.as_str());
                            errors.push(e);
                            proof {
                                assert(msg@ =~= "duplicate ID '"@ + s@ + "': already used by "@ + tb[k as int].component_type + " at index "@ + decimal(tb[k as int].component_index as nat));
                                assert(diags(errors@) =~= eb.push(e@));
                            }
                        } else {
                            let ghost ids0 = table_ids(table@);
                            table.push(IdEntry {
                                id: owned(s),
                                component_index: i,
                                component_type: comp.component_type.clone(),
                            });
                            proof {
                                assert(table_view(table@) =~= tb.push(IdEntryView { id: s@, component_index: i as int, component_type: cs[i as int].component_type }));
                                assert(table_ids(table@) =~= ids0.push(s@));
                                assert(table_ids(table@) == view_ids(table_view(table@))) by {
                                    assert(table_ids(table@) =~= view_ids(table_view(table@)));
                                }
                            }
                        }
                    },
                    None => {
                        if !v.is_null() {
                            let p = id_path(i);
                            let e = ValidationError::error(
                                ValidationStage::IdResolution,
                                p.as_str(),
                                "entity 'id' field must be a string",
                            );
                            errors.push(e);
                            proof {
                                assert(diags(errors@) =~= eb.push(e@));
                            }
                        }
                    },
                }
            },
            None => {},
        }
        i = i + 1;
    }
    let ghost p1 = collect_ids(cs, n as int);
    let ghost errs1 = diags(errors@);
    let mut i: usize = 0;
    while i < n
        invariant
            i <= n,
            n == config.components@.len(),
            cs.len() == n,
            errs1 == diags(errors@),
            errs1 == p1.1,
            forall|k: int| i <= k < n ==> (#[trigger] config.components@[k])@ == cs[k],
            forall|k: int| 0 <= k < i ==> (#[trigger] config.components@[k])@ == generate_ids(cs, p1.0, i as int).0[k],
            generate_ids(cs, p1.0, i as int).0.len() == i,
            table_view(table@) == generate_ids(cs, p1.0, i as int).1,
            table_ids(table@).no_duplicates(),
            table_ids(table@) == view_ids(table_view(table@)),
            config.esphome == old_config.esphome,
            config.packages == old_config.packages,
            config.substitutions == old_config.substitutions,
        decreases n - i,
    {
        let ghost c = cs[i as int];
        let ghost tb = table_view(table@);
        let has_id = config.components[i].config.get("id").is_some();
        if !has_id {
            let name = match config.components[i].config.get("name") {
                Some(v) => match v.as_str() {
                    Some(s) => Some(owned(s)),
                    None => None,
                },
                None => None,
            };
            if let Some(name) = name {
                let generated = slugify(name.as_str());
                let uid = make_unique(generated.as_str(), &table);
                proof {
                    lemma_unique_name(generated@, table_ids(table@), uid@);
                }
                let ghost ids0 = table_ids(table@);
                table.push(IdEntry {
                    id: uid.clone(),
                    component_index: i,
                    component_type: config.components[i].component_type.clone(),
                });
                let newcfg = config.components[i].config.with_member("id", Json::Str(uid));
                let newc = ComponentConfig {
                    component_type: config.components[i].component_type.clone(),
                    platform: crate::raw::copy_opt(&config.components[i].platform),
                    config: newcfg,
                };
                config.components.set(i, newc);
                proof {
                    assert(table_ids(table@) =~= ids0.push(uid@));
                    assert(table_view(table@) =~= tb.push(IdEntryView { id: uid@, component_index: i as int, component_type: c.component_type }));
                    assert(table_ids(table@) =~= view_ids(table_view(table@)));
                    assert forall|a: int, b: int| 0 <= a < b < table_ids(table@).len() implies table_ids(table@)[a] != table_ids(table@)[b] by {
                        if b == ids0.len() {
                            assert(ids0[a] == table_ids(table@)[a]);
                        }
                    }
                }
            }
        }
        i = i + 1;
        proof {
            assert forall|k: int| 0 <= k < i implies (#[trigger] config.components@[k])@ == generate_ids(cs, p1.0, i as int).0[k] by {}
        }
    }
    let ghost p2 = generate_ids(cs, p1.0, n as int);
    proof {
        assert(comps_view(config.components@) =~= p2.0);
    }
    let ghost cs2 = comps_view(config.components@);
    let ghost ids = table_ids(table@);
    let mut i: usize = 0;
    while i < n
        invariant
            i <= n,
            n == config.components@.len(),
            cs2 == comps_view(config.components@),
            ids == table_ids(table@),
            diags(errors@) == errs1 + cross_all(cs2, ids, i as int),
        decreases n - i,
    {
        let ghost before = diags(errors@);
        let ip = concat3("[", u64_to_decimal(i as u64).as_str(), "]");
        let p = concat2("components", ip.as_str());
        proof {
            reveal_strlit("[");
            reveal_strlit("]");
            assert(p@ =~= index_path("components"@, i as int));
            assert(cs2[i as int] == config.components@[i as int]@);
        }
        check_cross_refs(&config.components[i].config, &table, p.as_str(), &mut errors);
        i = i + 1;
    }
    (table, errors)
}

} // verus!
