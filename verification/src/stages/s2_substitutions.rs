//! Stage 2 — substitution resolution.
//!
//! Replaces `${var}` and `${var:=default}` placeholders in every string of
//! every component's config, and in the `platform` field, from the config's
//! substitutions.
use vstd::prelude::*;
use crate::error::{ValidationError, ValidationStage, Severity, DiagnosticView, diag, diags};
use crate::json::{Json, JsonV, elems_view, entries_view};
use crate::raw::{RawConfig, StringMap, ComponentView, comps_view, opt_view, pairs_lookup};
use crate::text::{
    chars_of, string_of, slice_range, find_pat, find_char, pat_index, lemma_pat_index, char_index,
    lemma_char_index, lemma_char_index_unique, extend_range, extend_str, concat2, concat3, decimal, u64_to_decimal,
    occurs_at,
};

verus! {

/// The two characters that open a placeholder.
pub open spec fn open_mark() -> Seq<char> {
    seq!['$', '{']
}

/// The separator between a variable name and its default.
pub open spec fn default_mark() -> Seq<char> {
    seq![':', '=']
}

/// The warning for a placeholder whose variable is undefined and has no default.
pub open spec fn undefined_var_diag(path: Seq<char>, var: Seq<char>) -> DiagnosticView {
    diag(
        ValidationStage::Substitutions,
        Severity::Warning,
        path,
        "substitution variable '${"@ + var + "}' is undefined"@,
    )
}

/// What the placeholder `${expr}` is replaced by, and the diagnostics it yields:
/// the variable's value; else the default after `:=`; else the placeholder
/// itself, with a warning.
pub open spec fn placeholder_spec(
    expr: Seq<char>,
    subs: Seq<(Seq<char>, Seq<char>)>,
    path: Seq<char>,
) -> (Seq<char>, Seq<DiagnosticView>) {
    let sep = pat_index(expr, default_mark());
    let var = if sep < expr.len() {
        expr.subrange(0, sep)
    } else {
        expr
    };
    match pairs_lookup(subs, var) {
        Some(v) => (v, Seq::empty()),
        None => if sep < expr.len() {
            (expr.subrange(sep + 2, expr.len() as int), Seq::empty())
        } else {
            (open_mark() + expr + seq!['}'], seq![undefined_var_diag(path, var)])
        },
    }
}

/// The result of resolving every placeholder of `s`, scanning left to right,
/// and the diagnostics produced on the way. An unclosed `${` is kept as is.
pub open spec fn resolve_spec(
    s: Seq<char>,
    subs: Seq<(Seq<char>, Seq<char>)>,
    path: Seq<char>,
) -> (Seq<char>, Seq<DiagnosticView>)
    decreases s.len(),
{
    let start = pat_index(s, open_mark());
    if start >= s.len() {
        (s, Seq::empty())
    } else {
        proof {
            lemma_pat_index(s, open_mark());
        }
        let rem = s.subrange(start + 2, s.len() as int);
        let end = char_index(rem, '}');
        if end >= rem.len() {
            let r = resolve_spec(rem, subs, path);
            (s.subrange(0, start) + open_mark() + r.0, r.1)
        } else {
            proof {
                lemma_char_index(rem, '}');
            }
            let expr = rem.subrange(0, end);
            let p = placeholder_spec(expr, subs, path);
            let r = resolve_spec(rem.subrange(end + 1, rem.len() as int), subs, path);
            (s.subrange(0, start) + p.0 + r.0, p.1 + r.1)
        }
    }
}

/// The path of the `i`-th element below `path`: `path[i]`.
pub open spec fn index_path(path: Seq<char>, i: int) -> Seq<char> {
    path + seq!['['] + decimal(i as nat) + seq![']']
}

/// The path of the member `k` below `path`: `path.k`.
pub open spec fn key_path(path: Seq<char>, k: Seq<char>) -> Seq<char> {
    path + seq!['.'] + k
}

/// The value after substitution in every string it holds, and the
/// diagnostics in document order (object members in their stored order).
pub open spec fn apply_spec(
    j: JsonV,
    subs: Seq<(Seq<char>, Seq<char>)>,
    path: Seq<char>,
) -> (JsonV, Seq<DiagnosticView>)
    decreases j, 0int,
{
    match j {
        JsonV::Str(s) => {
            let r = resolve_spec(s, subs, path);
            (JsonV::Str(r.0), r.1)
        },
        JsonV::Array(a) => {
            let r = apply_elems(a, subs, path, a.len() as int);
            (JsonV::Array(r.0), r.1)
        },
        JsonV::Object(m) => {
            let r = apply_members(m, subs, path, m.len() as int);
            (JsonV::Object(r.0), r.1)
        },
        _ => (j, Seq::empty()),
    }
}

/// `apply_spec` over the first `n` elements of an array, element `i` at
/// path `path[i]`.
pub open spec fn apply_elems(
    a: Seq<JsonV>,
    subs: Seq<(Seq<char>, Seq<char>)>,
    path: Seq<char>,
    n: int,
) -> (Seq<JsonV>, Seq<DiagnosticView>)
    decreases a, n,
{
    if n <= 0 || n > a.len() {
        (Seq::empty(), Seq::empty())
    } else {
        let prev = apply_elems(a, subs, path, n - 1);
        let x = apply_spec(a[n - 1], subs, index_path(path, n - 1));
        (prev.0.push(x.0), prev.1 + x.1)
    }
}

/// `apply_spec` over the first `n` members of an object, member `k` at
/// path `path.k`; keys are kept.
pub open spec fn apply_members(
    m: Seq<(Seq<char>, JsonV)>,
    subs: Seq<(Seq<char>, Seq<char>)>,
    path: Seq<char>,
    n: int,
) -> (Seq<(Seq<char>, JsonV)>, Seq<DiagnosticView>)
    decreases m, n,
{
    if n <= 0 || n > m.len() {
        (Seq::empty(), Seq::empty())
    } else {
        let prev = apply_members(m, subs, path, n - 1);
        proof {
            assert(decreases_to!(m => m[n - 1]));
            assert(decreases_to!(m[n - 1] => m[n - 1].1));
        }
        let x = apply_spec(m[n - 1].1, subs, key_path(path, m[n - 1].0));
        (prev.0.push((m[n - 1].0, x.0)), prev.1 + x.1)
    }
}

/// The first `n` elements of `a` and of `a.push(x)` are processed alike.
proof fn lemma_apply_elems_push_prefix(
    a: Seq<JsonV>,
    x: JsonV,
    subs: Seq<(Seq<char>, Seq<char>)>,
    path: Seq<char>,
    n: int,
)
    requires
        0 <= n <= a.len(),
    ensures
        apply_elems(a.push(x), subs, path, n) == apply_elems(a, subs, path, n),
    decreases n,
{
    if n > 0 {
        lemma_apply_elems_push_prefix(a, x, subs, path, n - 1);
        assert(a.push(x)[n - 1] == a[n - 1]);
    }
}

/// Shape of `apply_elems`: `n` results, result `i` from element `i` at `path[i]`.
proof fn lemma_apply_elems_shape(a: Seq<JsonV>, subs: Seq<(Seq<char>, Seq<char>)>, path: Seq<char>, n: int)
    requires
        0 <= n <= a.len(),
    ensures
        apply_elems(a, subs, path, n).0.len() == n,
        forall|i: int|
            0 <= i < n ==> apply_elems(a, subs, path, n).0[i] == (#[trigger] apply_spec(a[i], subs, index_path(path, i))).0,
    decreases n,
{
    if n > 0 {
        lemma_apply_elems_shape(a, subs, path, n - 1);
    }
}

/// Substitution in an array works element by element: the result is an
/// array of as many elements, and element `i` of it is element `i`
/// substituted at path `path[i]`.
pub proof fn lemma_apply_array_elementwise(a: Seq<JsonV>, subs: Seq<(Seq<char>, Seq<char>)>, path: Seq<char>)
    ensures
        apply_spec(JsonV::Array(a), subs, path).0 is Array,
        apply_spec(JsonV::Array(a), subs, path).0->Array_0.len() == a.len(),
        forall|i: int|
            0 <= i < a.len() ==> apply_spec(JsonV::Array(a), subs, path).0->Array_0[i] == (#[trigger] apply_spec(
                a[i],
                subs,
                index_path(path, i),
            )).0,
{
    lemma_apply_elems_shape(a, subs, path, a.len() as int);
}

/// One more element at the end of an array: its substituted value comes
/// last in the result, and its diagnostics come after those of the elements
/// before it (so an array's diagnostics are its elements' in order).
pub proof fn lemma_apply_array_push(
    a: Seq<JsonV>,
    x: JsonV,
    subs: Seq<(Seq<char>, Seq<char>)>,
    path: Seq<char>,
)
    ensures
        apply_spec(JsonV::Array(a.push(x)), subs, path).0->Array_0 == apply_spec(JsonV::Array(a), subs, path).0->Array_0.push(
            apply_spec(x, subs, index_path(path, a.len() as int)).0,
        ),
        apply_spec(JsonV::Array(a.push(x)), subs, path).1 == apply_spec(JsonV::Array(a), subs, path).1 + apply_spec(
            x,
            subs,
            index_path(path, a.len() as int),
        ).1,
{
    lemma_apply_elems_push_prefix(a, x, subs, path, a.len() as int);
    assert(a.push(x)[a.len() as int] == x);
}

/// A string that is one placeholder `${v}` naming a defined variable becomes
/// that variable's value, with no diagnostics.
pub proof fn lemma_resolve_defined_placeholder(
    v: Seq<char>,
    x: Seq<char>,
    subs: Seq<(Seq<char>, Seq<char>)>,
    path: Seq<char>,
)
    requires
        pairs_lookup(subs, v) == Some(x),
        !v.contains('}'),
        forall|j: int| !occurs_at(v, default_mark(), j),
    ensures
        resolve_spec(open_mark() + v + seq!['}'], subs, path) == (x, Seq::<DiagnosticView>::empty()),
{
    let s = open_mark() + v + seq!['}'];
    assert(s.subrange(0, 2) =~= open_mark());
    assert(pat_index(s, open_mark()) == 0);
    lemma_pat_index(s, open_mark());
    let rem = s.subrange(2, s.len() as int);
    assert(rem =~= v + seq!['}']);
    assert forall|j: int| 0 <= j < v.len() implies rem[j] != '}' by {
        assert(rem[j] == v[j]);
        if v[j] == '}' {
            assert(v.contains('}'));
        }
    }
    lemma_char_index_unique(rem, '}', v.len() as int);
    assert(rem.subrange(0, v.len() as int) =~= v);
    lemma_pat_index(v, default_mark());
    assert(pat_index(v, default_mark()) == v.len());
    let tail = rem.subrange(v.len() as int + 1, rem.len() as int);
    assert(tail =~= Seq::<char>::empty());
    assert(pat_index(tail, open_mark()) == 0);
    assert(resolve_spec(tail, subs, path) == (tail, Seq::<DiagnosticView>::empty()));
    assert(s.subrange(0, 0) =~= Seq::<char>::empty());
    assert(Seq::<char>::empty() + x + tail =~= x);
    assert(Seq::<DiagnosticView>::empty() + Seq::<DiagnosticView>::empty() =~= Seq::<DiagnosticView>::empty());
}

/// In an array, an element that is one placeholder `${v}` naming a defined
/// variable becomes the variable's value, at whatever index it stands.
pub proof fn lemma_array_placeholder_element(
    a: Seq<JsonV>,
    i: int,
    v: Seq<char>,
    x: Seq<char>,
    subs: Seq<(Seq<char>, Seq<char>)>,
    path: Seq<char>,
)
    requires
        0 <= i < a.len(),
        a[i] == JsonV::Str(open_mark() + v + seq!['}']),
        pairs_lookup(subs, v) == Some(x),
        !v.contains('}'),
        forall|j: int| !occurs_at(v, default_mark(), j),
    ensures
        apply_spec(JsonV::Array(a), subs, path).0->Array_0[i] == JsonV::Str(x),
{
    lemma_apply_array_elementwise(a, subs, path);
    lemma_resolve_defined_placeholder(v, x, subs, index_path(path, i));
    assert(apply_spec(a[i], subs, index_path(path, i)).0 == JsonV::Str(x));
}

/// Resolve all `${…}` placeholders in a single string value.
///
/// `${var}` becomes the variable's value, with a warning left in `errors`
/// (and the placeholder kept) when it is undefined; `${var:=default}` becomes
/// the value, or `default` when the variable is undefined.
pub fn resolve_string(
    s: &str,
    subs: &StringMap,
    errors: &mut Vec<ValidationError>,
    path: &str,
) -> (r: String)
    ensures
        r@ == resolve_spec(s@, subs@, path@).0,
        diags(final(errors)@) == diags(old(errors)@) + resolve_spec(s@, subs@, path@).1,
{
    let t = chars_of(s);
    let open: Vec<char> = vec!['$', '{'];
    let sep_mark: Vec<char> = vec![':', '='];
    let mut out: Vec<char> = Vec::new();
    let mut pos: usize = 0;
    let ghost full = resolve_spec(s@, subs@, path@);
    let ghost e0 = diags(errors@);
    proof {
        assert(open@ =~= open_mark());
        assert(sep_mark@ =~= default_mark());
        assert(t@.subrange(0, t@.len() as int) =~= t@);
    }
    loop
        invariant_except_break
            pos <= t@.len(),
            open@ == open_mark(),
            sep_mark@ == default_mark(),
            full.0 == out@ + resolve_spec(t@.subrange(pos as int, t@.len() as int), subs@, path@).0,
            e0 + full.1 == diags(errors@) + resolve_spec(
                t@.subrange(pos as int, t@.len() as int),
                subs@,
                path@,
            ).1,
        ensures
            full.0 == out@,
            e0 + full.1 == diags(errors@),
        decreases t@.len() - pos,
    {
        let ghost cur = t@.subrange(pos as int, t@.len() as int);
        let start = find_pat(&t, &open, pos);
        proof {
            lemma_pat_index(cur, open_mark());
        }
        if start == t.len() {
            extend_range(&mut out, &t, pos, t.len());
            proof {
                assert(e0 + full.1 =~= diags(errors@));
            }
            break;
        }
        proof {
            assert(occurs_at(cur, open_mark(), start - pos));
            assert(cur.subrange(0, start - pos) =~= t@.subrange(pos as int, start as int));
        }
        let ghost out0 = out@;
        extend_range(&mut out, &t, pos, start);
        let a = start + 2;
        let ghost rem = cur.subrange(start - pos + 2, cur.len() as int);
        proof {
            assert(rem =~= t@.subrange(a as int, t@.len() as int));
        }
        let end = find_char(&t, '}', a);
        if end == t.len() {
            out.push('$');
            out.push('{');
            proof {
                assert(out@ =~= out0 + cur.subrange(0, start - pos) + open_mark());
            }
            pos = a;
        } else {
            let ghost ghost_out = out@;
            proof {
                lemma_char_index(rem, '}');
            }
            let expr = slice_range(&t, a, end);
            proof {
                assert(expr@ =~= rem.subrange(0, end - a));
                lemma_pat_index(expr@, default_mark());
                assert(expr@.subrange(0, expr@.len() as int) =~= expr@);
            }
            let sep = find_pat(&expr, &sep_mark, 0);
            let var_chars = slice_range(&expr, 0, sep);
            let var = string_of(var_chars.as_slice());
            match subs.get(var.as_str()) {
                Some(val) => {
                    extend_str(&mut out, val.as_str());
                },
                None => {
                    if sep < expr.len() {
                        proof {
                            assert(occurs_at(expr@, default_mark(), sep as int));
                        }
                        extend_range(&mut out, &expr, sep + 2, expr.len());
                    } else {
                        let msg = concat3(
                            "substitution variable '${",
                            var.as_str(),
                            "}' is undefined",
                        );
                        let w = ValidationError::warning(
                            ValidationStage::Substitutions,
                            path,
                            msg.as_str(),
                        );
                        let ghost before = errors@;
                        errors.push(w);
                        proof {
                            assert(diags(errors@) =~= diags(before).push(w@));
                            assert(var@ =~= expr@);
                        }
                        out.push('$');
                        out.push('{');
                        extend_range(&mut out, &expr, 0, expr.len());
                        out.push('}');
                        proof {
                            assert(expr@.subrange(0, expr@.len() as int) =~= expr@);
                        }
                    }
                },
            }
            proof {
                let p = placeholder_spec(expr@, subs@, path@);
                assert(out@ =~= ghost_out + p.0);
                assert(rem.subrange(end - a + 1, rem.len() as int) =~= t@.subrange(
                    end + 1,
                    t@.len() as int,
                ));
            }
            pos = end + 1;
        }
    }
    string_of(out.as_slice())
}

/// Apply substitutions to every string of a JSON value, returning the result.
fn apply_to_value(
    value: &Json,
    subs: &StringMap,
    errors: &mut Vec<ValidationError>,
    path: &str,
) -> (r: Json)
    ensures
        r@ == apply_spec(value@, subs@, path@).0,
        diags(final(errors)@) == diags(old(errors)@) + apply_spec(value@, subs@, path@).1,
    decreases value,
{
    match value {
        Json::Str(s) => {
            let r = resolve_string(s.as_str(), subs, errors, path);
            Json::Str(r)
        },
        Json::Array(v) => {
            let ghost e0 = diags(errors@);
            let ghost a = elems_view(v@);
            let mut out: Vec<Json> = Vec::new();
            let mut i: usize = 0;
            while i < v.len()
                invariant
                    *value == Json::Array(*v),
                    a == elems_view(v@),
                    i <= v@.len(),
                    elems_view(out@) == apply_elems(a, subs@, path@, i as int).0,
                    diags(errors@) == e0 + apply_elems(a, subs@, path@, i as int).1,
                decreases v@.len() - i,
            {
                proof {
                    broadcast use vstd::std_specs::vec::axiom_vec_index_decreases;
                    assert(decreases_to!(*value => (*value)->Array_0));
                    assert(decreases_to!(*v => v[i as int]));
                    assert(decreases_to!(*value => v[i as int]));
                }
                let ip = concat3("[", u64_to_decimal(i as u64).as_str(), "]");
                let p = concat2(path, ip.as_str());
                proof {
                    reveal_strlit("[");
                    reveal_strlit("]");
                    assert(p@ =~= index_path(path@, i as int));
                }
                let ghost before = diags(errors@);
                let ghost o = out@;
                let c = apply_to_value(&v[i], subs, errors, p.as_str());
                out.push(c);
                proof {
                    assert(a[i as int] == v@[i as int]@);
                    assert(elems_view(out@) =~= elems_view(o).push(c@));
                }
                i = i + 1;
            }
            Json::Array(out)
        },
        Json::Object(m) => {
            let ghost e0 = diags(errors@);
            let ghost a = entries_view(m@);
            let mut out: Vec<(String, Json)> = Vec::new();
            let mut i: usize = 0;
            while i < m.len()
                invariant
                    *value == Json::Object(*m),
                    a == entries_view(m@),
                    i <= m@.len(),
                    entries_view(out@) == apply_members(a, subs@, path@, i as int).0,
                    diags(errors@) == e0 + apply_members(a, subs@, path@, i as int).1,
                decreases m@.len() - i,
            {
                proof {
                    broadcast use vstd::std_specs::vec::axiom_vec_index_decreases;
                    assert(decreases_to!(*value => (*value)->Object_0));
                    assert(decreases_to!(*m => m[i as int]));
                    assert(decreases_to!(m[i as int] => m[i as int].1));
                    assert(decreases_to!(*value => m[i as int].1));
                }
                let p = concat3(path, ".", m[i].0.as_str());
                proof {
                    reveal_strlit(".");
                    assert(p@ =~= key_path(path@, m@[i as int].0@));
                }
                let ghost o = out@;
                let c = apply_to_value(&m[i].1, subs, errors, p.as_str());
                out.push((m[i].0.clone(), c));
                proof {
                    assert(a[i as int] == (m@[i as int].0@, m@[i as int].1@));
                    assert(entries_view(out@) =~= entries_view(o).push((m@[i as int].0@, c@)));
                }
                i = i + 1;
            }
            Json::Object(out)
        },
        _ => {
            proof {
                assert(diags(errors@) =~= diags(errors@) + Seq::<DiagnosticView>::empty());
            }
            value.copy()
        },
    }
}

/// Component `i` after substitution in its config and its platform, with the
/// diagnostics, all reported at path `components[i]`.
pub open spec fn subst_component(
    c: ComponentView,
    subs: Seq<(Seq<char>, Seq<char>)>,
    i: int,
) -> (ComponentView, Seq<DiagnosticView>) {
    let p = index_path("components"@, i);
    let cfg = apply_spec(c.config, subs, p);
    match c.platform {
        Some(pl) => {
            let r = resolve_spec(pl, subs, p);
            (
                ComponentView { component_type: c.component_type, platform: Some(r.0), config: cfg.0 },
                cfg.1 + r.1,
            )
        },
        None => (
            ComponentView { component_type: c.component_type, platform: None, config: cfg.0 },
            cfg.1,
        ),
    }
}

/// `subst_component` over the first `n` components.
pub open spec fn subst_components(
    cs: Seq<ComponentView>,
    subs: Seq<(Seq<char>, Seq<char>)>,
    n: int,
) -> (Seq<ComponentView>, Seq<DiagnosticView>)
    decreases n,
{
    if n <= 0 || n > cs.len() {
        (Seq::empty(), Seq::empty())
    } else {
        let prev = subst_components(cs, subs, n - 1);
        let x = subst_component(cs[n - 1], subs, n - 1);
        (prev.0.push(x.0), prev.1 + x.1)
    }
}

/// Stage 2: apply the config's substitutions to every component's config
/// and platform.
pub fn stage_2_apply_substitutions(config: &mut RawConfig) -> (errors: Vec<ValidationError>)
    ensures
        comps_view(final(config).components@) == subst_components(
            comps_view(old(config).components@),
            old(config).substitutions@,
            old(config).components@.len() as int,
        ).0,
        diags(errors@) == subst_components(
            comps_view(old(config).components@),
            old(config).substitutions@,
            old(config).components@.len() as int,
        ).1,
        final(config).esphome == old(config).esphome,
        final(config).packages == old(config).packages,
        final(config).substitutions == old(config).substitutions,
{
    let mut errors: Vec<ValidationError> = Vec::new();
    let ghost cs = comps_view(config.components@);
    let ghost old_config = *config;
    let n = config.components.len();
    let mut i: usize = 0;
    while i < n
        invariant
            n == config.components@.len(),
            cs.len() == n,
            i <= n,
            config.esphome == old_config.esphome,
            config.packages == old_config.packages,
            config.substitutions == old_config.substitutions,
            forall|k: int| i <= k < n ==> (#[trigger] config.components@[k])@ == cs[k],
            forall|k: int|
                0 <= k < i ==> (#[trigger] config.components@[k])@ == subst_components(
                    cs,
                    old_config.substitutions@,
                    i as int,
                ).0[k],
            subst_components(cs, old_config.substitutions@, i as int).0.len() == i,
            diags(errors@) == subst_components(cs, old_config.substitutions@, i as int).1,
        decreases n - i,
    {
        let ip = concat3("[", u64_to_decimal(i as u64).as_str(), "]");
        let p = concat2("components", ip.as_str());
        proof {
            reveal_strlit("[");
            reveal_strlit("]");
            assert(p@ =~= index_path("components"@, i as int));
        }
        let ghost before = diags(errors@);
        let cfg = apply_to_value(&config.components[i].config, &config.substitutions, &mut errors, p.as_str());
        let platform = match &config.components[i].platform {
            Some(pl) => Some(resolve_string(pl.as_str(), &config.substitutions, &mut errors, p.as_str())),
            None => None,
        };
        let c = crate::raw::ComponentConfig {
            component_type: config.components[i].component_type.clone(),
            platform,
            config: cfg,
        };
        proof {
            let x = subst_component(cs[i as int], old_config.substitutions@, i as int);
            assert(c@ == x.0);
            assert(diags(errors@) =~= before + x.1);
        }
        config.components.set(i, c);
        i = i + 1;
        proof {
            assert forall|k: int| 0 <= k < i implies (#[trigger] config.components@[k])@ == subst_components(
                cs,
                old_config.substitutions@,
                i as int,
            ).0[k] by {}
        }
    }
    proof {
        assert(comps_view(config.components@) =~= subst_components(cs, old_config.substitutions@, n as int).0);
    }
    errors
}

} // verus!
