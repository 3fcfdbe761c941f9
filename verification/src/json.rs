//! A JSON document model for component configuration blocks.
//!
//! Objects keep their keys in ascending order (the order in which a
//! `serde_json::Map` iterates), so every walk over an object visits the keys
//! in the same order as the firmware toolchain does.
use vstd::prelude::*;
use crate::text::{owned, chars_of};

verus! {

/// A floating-point JSON number, kept as its integral part and its renderings.
///
/// `floor` is the greatest integer not above the value; `integral` records
/// whether the value equals `floor` (a number such as `4.0`). `text` is the
/// number as JSON renders it (`4.0`), `display` as `f64` displays it (`4`).
#[derive(Debug, PartialEq)]
pub struct FloatNumber {
    pub floor: i64,
    pub integral: bool,
    pub text: String,
    pub display: String,
}

/// A JSON number: a non-negative integer, a negative integer, or a float.
#[derive(Debug, PartialEq)]
pub enum JsonNumber {
    PosInt(u64),
    NegInt(i64),
    Float(FloatNumber),
}

/// A JSON value.
#[derive(Debug, PartialEq)]
pub enum Json {
    Null,
    Bool(bool),
    Number(JsonNumber),
    Str(String),
    Array(Vec<Json>),
    Object(Vec<(String, Json)>),
}

/// Abstract JSON number.
pub enum NumV {
    PosInt(nat),
    NegInt(int),
    Float(int, bool, Seq<char>, Seq<char>),
}

/// Abstract JSON value.
pub enum JsonV {
    Null,
    Bool(bool),
    Number(NumV),
    Str(Seq<char>),
    Array(Seq<JsonV>),
    Object(Seq<(Seq<char>, JsonV)>),
}

impl View for JsonNumber {
    type V = NumV;

    open spec fn view(&self) -> NumV {
        match self {
            JsonNumber::PosInt(n) => NumV::PosInt(*n as nat),
            JsonNumber::NegInt(n) => NumV::NegInt(*n as int),
            JsonNumber::Float(f) => NumV::Float(f.floor as int, f.integral, f.text@, f.display@),
        }
    }
}

impl View for Json {
    type V = JsonV;

    open spec fn view(&self) -> JsonV
        decreases self,
    {
        match self {
            Json::Null => JsonV::Null,
            Json::Bool(b) => JsonV::Bool(*b),
            Json::Number(n) => JsonV::Number(n@),
            Json::Str(s) => JsonV::Str(s@),
            Json::Array(v) => JsonV::Array(elems_view(v@)),
            Json::Object(m) => JsonV::Object(entries_view(m@)),
        }
    }
}

/// The views of a sequence of values.
pub open spec fn elems_view(v: Seq<Json>) -> Seq<JsonV>
    decreases v,
{
    Seq::new(v.len(), |i: int| if 0 <= i < v.len() { v[i].view() } else { JsonV::Null })
}

/// The views of a sequence of object entries.
pub open spec fn entries_view(m: Seq<(String, Json)>) -> Seq<(Seq<char>, JsonV)>
    decreases m,
{
    Seq::new(
        m.len(),
        |i: int|
            if 0 <= i < m.len() {
                (m[i].0@, m[i].1.view())
            } else {
                (Seq::empty(), JsonV::Null)
            },
    )
}

/// Lexicographic "less than" on character sequences (code-point order).
pub open spec fn seq_lt(a: Seq<char>, b: Seq<char>) -> bool
    decreases a.len(),
{
    if b.len() == 0 {
        false
    } else if a.len() == 0 {
        true
    } else if a[0] != b[0] {
        (a[0] as u32) < (b[0] as u32)
    } else {
        seq_lt(a.drop_first(), b.drop_first())
    }
}

/// The keys of an object's entries are in strictly ascending order.
pub open spec fn keys_sorted(m: Seq<(Seq<char>, JsonV)>) -> bool {
    forall|i: int, j: int| 0 <= i < j < m.len() ==> seq_lt(#[trigger] m[i].0, #[trigger] m[j].0)
}

/// The value stored under `k` in an object's entries, if any.
pub open spec fn obj_get(m: Seq<(Seq<char>, JsonV)>, k: Seq<char>) -> Option<JsonV>
    decreases m.len(),
{
    if m.len() == 0 {
        None
    } else if m[0].0 == k {
        Some(m[0].1)
    } else {
        obj_get(m.drop_first(), k)
    }
}

/// The value under `k` when `j` is an object holding that key.
pub open spec fn json_get(j: JsonV, k: Seq<char>) -> Option<JsonV> {
    match j {
        JsonV::Object(m) => obj_get(m, k),
        _ => None,
    }
}

/// The string held by `j`, if it is a string.
pub open spec fn json_str(j: Option<JsonV>) -> Option<Seq<char>> {
    match j {
        Some(JsonV::Str(s)) => Some(s),
        _ => None,
    }
}

/// Every object in the document keeps its keys strictly ascending.
pub open spec fn json_wf(j: JsonV) -> bool
    decreases j,
{
    match j {
        JsonV::Array(a) => forall|i: int| 0 <= i < a.len() ==> json_wf(#[trigger] a[i]),
        JsonV::Object(m) => keys_sorted(m) && forall|i: int|
            0 <= i < m.len() ==> json_wf(#[trigger] m[i].1),
        _ => true,
    }
}

/// Code-point comparison of two characters.
pub fn char_lt(a: char, b: char) -> (r: bool)
    ensures
        r == ((a as u32) < (b as u32)),
{
    (a as u32) < (b as u32)
}

/// Lexicographic comparison of character slices.
pub fn chars_lt(a: &[char], b: &[char]) -> (r: bool)
    ensures
        r == seq_lt(a@, b@),
{
    let mut i: usize = 0;
    proof {
        assert(a@.subrange(0, a@.len() as int) =~= a@);
        assert(b@.subrange(0, b@.len() as int) =~= b@);
    }
    while i < a.len() && i < b.len()
        invariant
            i <= a@.len(),
            i <= b@.len(),
            forall|k: int| 0 <= k < i ==> a@[k] == b@[k],
            seq_lt(a@, b@) == seq_lt(a@.subrange(i as int, a@.len() as int), b@.subrange(i as int, b@.len() as int)),
        decreases a@.len() - i,
    {
        if a[i] != b[i] {
            proof {
                let sa = a@.subrange(i as int, a@.len() as int);
                let sb = b@.subrange(i as int, b@.len() as int);
                assert(sa[0] == a@[i as int]);
                assert(sb[0] == b@[i as int]);
            }
            return char_lt(a[i], b[i]);
        }
        proof {
            let sa = a@.subrange(i as int, a@.len() as int);
            let sb = b@.subrange(i as int, b@.len() as int);
            assert(sa.drop_first() =~= a@.subrange(i + 1, a@.len() as int));
            assert(sb.drop_first() =~= b@.subrange(i + 1, b@.len() as int));
        }
        i = i + 1;
    }
    proof {
        let sa = a@.subrange(i as int, a@.len() as int);
        let sb = b@.subrange(i as int, b@.len() as int);
        if i == b@.len() {
            assert(sb.len() == 0);
        } else {
            assert(sa.len() == 0);
        }
    }
    i == a.len() && i < b.len()
}

/// No sequence orders before itself.
pub proof fn lemma_seq_lt_irreflexive(a: Seq<char>)
    ensures
        !seq_lt(a, a),
    decreases a.len(),
{
    if a.len() > 0 {
        lemma_seq_lt_irreflexive(a.drop_first());
    }
}

/// `seq_lt` is transitive.
pub proof fn lemma_seq_lt_transitive(a: Seq<char>, b: Seq<char>, c: Seq<char>)
    requires
        seq_lt(a, b),
        seq_lt(b, c),
    ensures
        seq_lt(a, c),
    decreases a.len(),
{
    if a.len() > 0 && b.len() > 0 && c.len() > 0 && a[0] == b[0] && b[0] == c[0] {
        lemma_seq_lt_transitive(a.drop_first(), b.drop_first(), c.drop_first());
    }
}

/// Two different sequences are ordered one way or the other.
pub proof fn lemma_seq_lt_total(a: Seq<char>, b: Seq<char>)
    requires
        a != b,
    ensures
        seq_lt(a, b) || seq_lt(b, a),
    decreases a.len(),
{
    if a.len() > 0 && b.len() > 0 && a[0] == b[0] {
        if a.drop_first() == b.drop_first() {
            assert(a =~= seq![a[0]] + a.drop_first());
            assert(b =~= seq![b[0]] + b.drop_first());
            assert(a =~= b);
        } else {
            lemma_seq_lt_total(a.drop_first(), b.drop_first());
        }
    } else if a.len() == 0 && b.len() == 0 {
        assert(a =~= b);
    } else if a.len() > 0 && b.len() > 0 {
        vstd::utf8::char_u32_cast(a[0], a[0] as u32);
        vstd::utf8::char_u32_cast(b[0], b[0] as u32);
    }
}

/// The sequences are in strictly ascending order.
pub open spec fn strictly_sorted(s: Seq<Seq<char>>) -> bool {
    forall|i: int, j: int| 0 <= i < j < s.len() ==> seq_lt(#[trigger] s[i], #[trigger] s[j])
}

/// Two strictly ascending sequences with the same elements are equal.
pub proof fn lemma_sorted_unique(a: Seq<Seq<char>>, b: Seq<Seq<char>>)
    requires
        strictly_sorted(a),
        strictly_sorted(b),
        forall|x: Seq<char>| a.contains(x) <==> b.contains(x),
    ensures
        a == b,
    decreases a.len(),
{
    if a.len() == 0 {
        if b.len() > 0 {
            assert(b.contains(b[0]));
        }
        assert(a =~= b);
    } else {
        assert(a.contains(a[0]));
        assert(b.len() > 0);
        assert(b.contains(b[0]));
        if a[0] != b[0] {
            let j = choose|j: int| 0 <= j < b.len() && b[j] == a[0];
            let i = choose|i: int| 0 <= i < a.len() && a[i] == b[0];
            assert(j > 0);
            assert(i > 0);
            assert(seq_lt(b[0], a[0]));
            assert(seq_lt(a[0], b[0]));
            lemma_seq_lt_transitive(a[0], b[0], a[0]);
            lemma_seq_lt_irreflexive(a[0]);
        }
        let a1 = a.drop_first();
        let b1 = b.drop_first();
        assert forall|x: Seq<char>| a1.contains(x) <==> b1.contains(x) by {
            if a1.contains(x) {
                let i = choose|i: int| 0 <= i < a1.len() && a1[i] == x;
                assert(a[i + 1] == x);
                assert(seq_lt(a[0], x));
                assert(a.contains(x));
                let j = choose|j: int| 0 <= j < b.len() && b[j] == x;
                if j == 0 {
                    lemma_seq_lt_irreflexive(x);
                }
                assert(b1[j - 1] == x);
            }
            if b1.contains(x) {
                let j = choose|j: int| 0 <= j < b1.len() && b1[j] == x;
                assert(b[j + 1] == x);
                assert(seq_lt(b[0], x));
                assert(b.contains(x));
                let i = choose|i: int| 0 <= i < a.len() && a[i] == x;
                if i == 0 {
                    lemma_seq_lt_irreflexive(x);
                }
                assert(a1[i - 1] == x);
            }
        }
        lemma_sorted_unique(a1, b1);
        assert(a =~= seq![a[0]] + a1);
        assert(b =~= seq![b[0]] + b1);
    }
}

/// The strings in strictly ascending order, each once.
pub fn sort_strings(names: Vec<String>) -> (r: Vec<String>)
    ensures
        strictly_sorted(crate::text::strs_view(r@)),
        forall|n: Seq<char>| crate::text::strs_view(names@).contains(n) <==> crate::text::strs_view(r@).contains(n),
{
    let ghost orig = crate::text::strs_view(names@);
    let mut rem = names;
    let mut out: Vec<String> = Vec::new();
    while rem.len() > 0
        invariant
            strictly_sorted(crate::text::strs_view(out@)),
            forall|i: int, k: int|
                0 <= i < out@.len() && 0 <= k < rem@.len() ==> seq_lt(
                    #[trigger] crate::text::strs_view(out@)[i],
                    #[trigger] crate::text::strs_view(rem@)[k],
                ),
            forall|n: Seq<char>|
                orig.contains(n) <==> (crate::text::strs_view(out@).contains(n) || crate::text::strs_view(
                    rem@,
                ).contains(n)),
        decreases rem@.len(),
    {
        let ghost r0 = crate::text::strs_view(rem@);
        let ghost o0 = crate::text::strs_view(out@);
        let mut m: usize = 0;
        let mut k: usize = 1;
        proof {
            lemma_seq_lt_irreflexive(r0[0]);
        }
        while k < rem.len()
            invariant
                r0 == crate::text::strs_view(rem@),
                m < rem@.len(),
                1 <= k <= rem@.len(),
                forall|q: int| 0 <= q < k ==> !seq_lt(#[trigger] r0[q], r0[m as int]),
            decreases rem@.len() - k,
        {
            if str_lt(rem[k].as_str(), rem[m].as_str()) {
                proof {
                    assert forall|q: int| 0 <= q < k + 1 implies !seq_lt(#[trigger] r0[q], r0[k as int]) by {
                        if q < k && seq_lt(r0[q], r0[k as int]) {
                            lemma_seq_lt_transitive(r0[q], r0[k as int], r0[m as int]);
                        }
                        if q == k {
                            lemma_seq_lt_irreflexive(r0[q]);
                        }
                    }
                }
                m = k;
            }
            k = k + 1;
        }
        let x = rem.remove(m);
        let ghost xv = r0[m as int];
        proof {
            assert(x@ == xv);
        }
        // Drop later copies of the minimum so that it is added once.
        let mut j: usize = 0;
        let mut kept: Vec<String> = Vec::new();
        let ghost r1 = crate::text::strs_view(rem@);
        while j < rem.len()
            invariant
                r1 == crate::text::strs_view(rem@),
                j <= rem@.len(),
                kept@.len() <= j,
                x@ == xv,
                forall|q: int| 0 <= q < kept@.len() ==> #[trigger] crate::text::strs_view(kept@)[q] != xv,
                forall|n: Seq<char>|
                    crate::text::strs_view(kept@).contains(n) <==> (r1.subrange(0, j as int).contains(n)
                        && n != xv),
            decreases rem@.len() - j,
        {
            let ghost kv = crate::text::strs_view(kept@);
            if !crate::text::str_eq(rem[j].as_str(), x.as_str()) {
                kept.push(rem[j].clone());
            }
            proof {
                let kv2 = crate::text::strs_view(kept@);
                let s0 = r1.subrange(0, j as int);
                let s1 = r1.subrange(0, j + 1);
                if r1[j as int] != xv {
                    assert(kv2 =~= kv.push(r1[j as int]));
                } else {
                    assert(kv2 =~= kv);
                }
                assert forall|n: Seq<char>| kv2.contains(n) <==> (s1.contains(n) && n != xv) by {
                    if kv2.contains(n) {
                        let q = choose|q: int| 0 <= q < kv2.len() && kv2[q] == n;
                        if q < kv.len() {
                            assert(kv[q] == n);
                            assert(kv.contains(n));
                            assert(s0.contains(n));
                            let p = choose|p: int| 0 <= p < s0.len() && s0[p] == n;
                            assert(s1[p] == n);
                        } else {
                            assert(s1[j as int] == n);
                        }
                    }
                    if s1.contains(n) && n != xv {
                        let p = choose|p: int| 0 <= p < s1.len() && s1[p] == n;
                        if p < j {
                            assert(s0[p] == n);
                            assert(s0.contains(n));
                            assert(kv.contains(n));
                            let q = choose|q: int| 0 <= q < kv.len() && kv[q] == n;
                            assert(kv2[q] == n);
                        } else {
                            assert(kv2[kv2.len() - 1] == n);
                        }
                    }
                }
            }
            j = j + 1;
        }
        proof {
            assert(r1.subrange(0, j as int) =~= r1);
            assert(r1 =~= r0.remove(m as int));
            assert forall|q: int| 0 <= q < r0.len() && r0[q] != xv implies seq_lt(xv, #[trigger] r0[q]) by {
                lemma_seq_lt_total(xv, r0[q]);
            }
        }
        out.push(x);
        rem = kept;
        proof {
            let o1 = crate::text::strs_view(out@);
            let rr = crate::text::strs_view(rem@);
            assert(o1 =~= o0.push(xv));
            assert(orig.contains(xv));
            assert forall|i: int, k2: int|
                0 <= i < o1.len() && 0 <= k2 < rr.len() implies seq_lt(#[trigger] o1[i], #[trigger] rr[k2]) by {
                let n = rr[k2];
                assert(rr.contains(n));
                assert(r1.contains(n) && n != xv);
                let p = choose|p: int| 0 <= p < r1.len() && r1[p] == n;
                let p0 = if p < m { p } else { p + 1 };
                assert(r0[p0] == n);
                if i < o0.len() {
                    assert(o1[i] == o0[i]);
                    assert(seq_lt(o0[i], r0[p0]));
                } else {
                    assert(o1[i] == xv);
                }
            }
            assert forall|i: int, j2: int| 0 <= i < j2 < o1.len() implies seq_lt(#[trigger] o1[i], #[trigger] o1[j2]) by {
                if j2 < o0.len() {
                    assert(o1[i] == o0[i] && o1[j2] == o0[j2]);
                } else {
                    assert(o1[i] == o0[i]);
                    assert(seq_lt(o0[i], r0[m as int]));
                }
            }
            assert forall|n: Seq<char>| orig.contains(n) <==> (o1.contains(n) || rr.contains(n)) by {
                if orig.contains(n) {
                    if o0.contains(n) {
                        let q = choose|q: int| 0 <= q < o0.len() && o0[q] == n;
                        assert(o1[q] == n);
                    } else if n == xv {
                        assert(o1[o0.len() as int] == n);
                    } else {
                        assert(r0.contains(n));
                        let q = choose|q: int| 0 <= q < r0.len() && r0[q] == n;
                        assert(q != m);
                        let q1 = if q < m { q } else { q - 1 };
                        assert(r1[q1] == n);
                        assert(r1.contains(n));
                    }
                }
                if o1.contains(n) {
                    let q = choose|q: int| 0 <= q < o1.len() && o1[q] == n;
                    if q < o0.len() {
                        assert(o0[q] == n);
                        assert(o0.contains(n));
                    }
                }
                if rr.contains(n) {
                    assert(r1.contains(n));
                    let p = choose|p: int| 0 <= p < r1.len() && r1[p] == n;
                    let p0 = if p < m { p } else { p + 1 };
                    assert(r0[p0] == n);
                    assert(r0.contains(n));
                }
            }
        }
    }
    out
}

/// `true` when `a` orders strictly before `b`.
pub fn str_lt(a: &str, b: &str) -> (r: bool)
    ensures
        r == seq_lt(a@, b@),
{
    let av = chars_of(a);
    let bv = chars_of(b);
    chars_lt(&av, &bv)
}

impl JsonNumber {
    /// Deep copy.
    pub fn copy(&self) -> (r: JsonNumber)
        ensures
            r@ == self@,
    {
        match self {
            JsonNumber::PosInt(n) => JsonNumber::PosInt(*n),
            JsonNumber::NegInt(n) => JsonNumber::NegInt(*n),
            JsonNumber::Float(f) => JsonNumber::Float(
                FloatNumber {
                    floor: f.floor,
                    integral: f.integral,
                    text: f.text.clone(),
                    display: f.display.clone(),
                },
            ),
        }
    }
}

impl Json {
    /// Deep copy.
    pub fn copy(&self) -> (r: Json)
        ensures
            r@ == self@,
        decreases self,
    {
        match self {
            Json::Null => Json::Null,
            Json::Bool(b) => Json::Bool(*b),
            Json::Number(n) => Json::Number(n.copy()),
            Json::Str(s) => Json::Str(s.clone()),
            Json::Array(v) => {
                let mut out: Vec<Json> = Vec::new();
                let mut i: usize = 0;
                while i < v.len()
                    invariant
                        *self == Json::Array(*v),
                        i <= v@.len(),
                        out@.len() == i,
                        forall|k: int| 0 <= k < i ==> (#[trigger] out@[k])@ == v@[k]@,
                    decreases v@.len() - i,
                {
                    proof {
                        broadcast use vstd::std_specs::vec::axiom_vec_index_decreases;
                        assert(decreases_to!(*self => (*self)->Array_0));
                        assert(decreases_to!(*v => v[i as int]));
                        assert(decreases_to!(*self => v[i as int]));
                    }
                    let c = v[i].copy();
                    out.push(c);
                    i = i + 1;
                }
                proof {
                    assert(elems_view(out@) =~= elems_view(v@));
                }
                Json::Array(out)
            },
            Json::Object(m) => {
                let mut out: Vec<(String, Json)> = Vec::new();
                let mut i: usize = 0;
                while i < m.len()
                    invariant
                        *self == Json::Object(*m),
                        i <= m@.len(),
                        out@.len() == i,
                        forall|k: int|
                            0 <= k < i ==> (#[trigger] out@[k]).0@ == m@[k].0@ && out@[k].1@
                                == m@[k].1@,
                    decreases m@.len() - i,
                {
                    proof {
                        broadcast use vstd::std_specs::vec::axiom_vec_index_decreases;
                        assert(decreases_to!(*self => (*self)->Object_0));
                        assert(decreases_to!(*m => m[i as int]));
                        assert(decreases_to!(m[i as int] => m[i as int].1));
                        assert(decreases_to!(*self => m[i as int].1));
                    }
                    let c = m[i].1.copy();
                    out.push((m[i].0.clone(), c));
                    i = i + 1;
                }
                proof {
                    assert(entries_view(out@) =~= entries_view(m@));
                }
                Json::Object(out)
            },
        }
    }

    /// An empty object.
    pub fn empty_object() -> (r: Json)
        ensures
            r@ == JsonV::Object(Seq::empty()),
    {
        let v: Vec<(String, Json)> = Vec::new();
        proof {
            assert(entries_view(v@) =~= Seq::<(Seq<char>, JsonV)>::empty());
        }
        Json::Object(v)
    }

    /// A string value.
    pub fn from_str(s: &str) -> (r: Json)
        ensures
            r@ == JsonV::Str(s@),
    {
        Json::Str(owned(s))
    }

    /// Looks up `key` when this is an object.
    pub fn get(&self, key: &str) -> (r: Option<&Json>)
        ensures
            match r {
                Some(v) => json_get(self@, key@) == Some(v@),
                None => json_get(self@, key@).is_none(),
            },
    {
        match self {
            Json::Object(m) => {
                let kv = chars_of(key);
                let mut i: usize = 0;
                proof {
                    assert(entries_view(m@).subrange(0, m@.len() as int) =~= entries_view(m@));
                }
                while i < m.len()
                    invariant
                        i <= m@.len(),
                        kv@ == key@,
                        json_get(self@, key@) == obj_get(
                            entries_view(m@).subrange(i as int, m@.len() as int),
                            key@,
                        ),
                    decreases m@.len() - i,
                {
                    let ghost full = entries_view(m@);
                    let ghost rest = full.subrange(i as int, m@.len() as int);
                    let kc = chars_of(m[i].0.as_str());
                    if crate::text::seq_eq(&kc, &kv) {
                        proof {
                            assert(rest[0] == full[i as int]);
                        }
                        return Some(&m[i].1);
                    }
                    proof {
                        assert(rest[0] == full[i as int]);
                        assert(rest.drop_first() =~= full.subrange(i + 1, m@.len() as int));
                    }
                    i = i + 1;
                }
                None
            },
            _ => None,
        }
    }

    /// The string held by this value, if it is a string.
    pub fn as_str(&self) -> (r: Option<&str>)
        ensures
            match r {
                Some(s) => self@ == JsonV::Str(s@),
                None => !(self@ is Str),
            },
    {
        match self {
            Json::Str(s) => Some(s.as_str()),
            _ => None,
        }
    }

    /// `true` when this is `null`.
    pub fn is_null(&self) -> (r: bool)
        ensures
            r == (self@ is Null),
    {
        match self {
            Json::Null => true,
            _ => false,
        }
    }

    /// `true` when this is an object.
    pub fn is_object(&self) -> (r: bool)
        ensures
            r == (self@ is Object),
    {
        match self {
            Json::Object(_) => true,
            _ => false,
        }
    }
}

/// The position at which key `k` belongs among object entries kept in
/// ascending key order: the first entry whose key is not below `k`.
pub open spec fn key_pos(m: Seq<(Seq<char>, JsonV)>, k: Seq<char>) -> int
    decreases m.len(),
{
    if m.len() == 0 {
        0
    } else if !seq_lt(m[0].0, k) {
        0
    } else {
        1 + key_pos(m.drop_first(), k)
    }
}

/// Facts about `key_pos`.
pub proof fn lemma_key_pos(m: Seq<(Seq<char>, JsonV)>, k: Seq<char>)
    ensures
        0 <= key_pos(m, k) <= m.len(),
        key_pos(m, k) < m.len() ==> !seq_lt(m[key_pos(m, k)].0, k),
        forall|j: int| 0 <= j < key_pos(m, k) ==> seq_lt(m[j].0, k),
    decreases m.len(),
{
    if m.len() > 0 && seq_lt(m[0].0, k) {
        lemma_key_pos(m.drop_first(), k);
        assert forall|j: int| 0 <= j < key_pos(m, k) implies seq_lt(m[j].0, k) by {
            if j > 0 {
                assert(m[j] == m.drop_first()[j - 1]);
            }
        }
    }
}

/// Any first position whose key is not below `k` is `key_pos`.
pub proof fn lemma_key_pos_unique(m: Seq<(Seq<char>, JsonV)>, k: Seq<char>, r: int)
    requires
        0 <= r <= m.len(),
        r < m.len() ==> !seq_lt(m[r].0, k),
        forall|j: int| 0 <= j < r ==> seq_lt(m[j].0, k),
    ensures
        key_pos(m, k) == r,
{
    lemma_key_pos(m, k);
    let p = key_pos(m, k);
    if p < r {
        assert(seq_lt(m[p].0, k));
    } else if r < p {
        assert(!seq_lt(m[r].0, k));
    }
}

/// The value an object entry map holds for `k` at its ordered position,
/// or `null` when that position holds another key.
pub open spec fn obj_slot(m: Seq<(Seq<char>, JsonV)>, k: Seq<char>) -> JsonV {
    let i = key_pos(m, k);
    if i < m.len() && m[i].0 == k {
        m[i].1
    } else {
        JsonV::Null
    }
}

/// The entries with `k` set to `v`: replaced in place when present at its
/// ordered position, else inserted there.
pub open spec fn obj_set(m: Seq<(Seq<char>, JsonV)>, k: Seq<char>, v: JsonV) -> Seq<
    (Seq<char>, JsonV),
> {
    let i = key_pos(m, k);
    if i < m.len() && m[i].0 == k {
        m.update(i, (k, v))
    } else {
        m.insert(i, (k, v))
    }
}

/// The ordered position of `key` among the entries.
pub fn key_position(m: &Vec<(String, Json)>, key: &str) -> (r: usize)
    ensures
        r == key_pos(entries_view(m@), key@),
{
    let ghost e = entries_view(m@);
    let mut i: usize = 0;
    while i < m.len()
        invariant
            i <= m@.len(),
            e == entries_view(m@),
            forall|j: int| 0 <= j < i ==> seq_lt(e[j].0, key@),
        decreases m@.len() - i,
    {
        if !str_lt(m[i].0.as_str(), key) {
            proof {
                lemma_key_pos_unique(e, key@, i as int);
            }
            return i;
        }
        i = i + 1;
    }
    proof {
        lemma_key_pos_unique(e, key@, i as int);
    }
    i
}

impl Json {
    /// This value with member `key` set to `v` when it is an object
    /// (replacing the member or inserting it at its ordered position);
    /// any other value is returned unchanged.
    pub fn with_member(&self, key: &str, v: Json) -> (r: Json)
        ensures
            r@ == match self@ {
                JsonV::Object(m) => JsonV::Object(obj_set(m, key@, v@)),
                _ => self@,
            },
    {
        match self {
            Json::Object(m) => {
                let mut out: Vec<(String, Json)> = Vec::new();
                let mut i: usize = 0;
                while i < m.len()
                    invariant
                        i <= m@.len(),
                        out@.len() == i,
                        forall|k: int|
                            0 <= k < i ==> (#[trigger] out@[k]).0@ == m@[k].0@ && out@[k].1@
                                == m@[k].1@,
                    decreases m@.len() - i,
                {
                    out.push((m[i].0.clone(), m[i].1.copy()));
                    i = i + 1;
                }
                let ghost e = entries_view(m@);
                proof {
                    assert(entries_view(out@) =~= e);
                }
                let p = key_position(&out, key);
                proof {
                    lemma_key_pos(e, key@);
                }
                if p < out.len() && crate::text::str_eq(out[p].0.as_str(), key) {
                    out.set(p, (owned(key), v));
                    proof {
                        assert(entries_view(out@) =~= obj_set(e, key@, v@));
                    }
                } else {
                    out.insert(p, (owned(key), v));
                    proof {
                        assert(entries_view(out@) =~= obj_set(e, key@, v@));
                    }
                }
                Json::Object(out)
            },
            _ => self.copy(),
        }
    }
}

} // verus!
