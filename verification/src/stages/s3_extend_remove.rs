//! Stage 3 — `!extend` and `!remove` directives.
//!
//! `!extend <type>` deep-merges the directive's config into the first
//! component of that type; `!remove <type>` removes the first component of
//! that type. Every directive entry is consumed: none is left in the
//! component list afterwards.
use vstd::prelude::*;
use crate::error::{ValidationError, ValidationStage, Severity, DiagnosticView, diag, diags};
use crate::json::{
    Json, JsonV, entries_view, key_pos, lemma_key_pos, obj_slot, obj_set, key_position,
};
use crate::raw::{
    RawConfig, ComponentConfig, ComponentView, comps_view, is_extend_spec, is_remove_spec,
    directive_target_spec,
};
use crate::text::{concat2, concat3, str_eq};

verus! {

/// `src` merged into `dst`: when both are objects, each member of `src` (in
/// order) overrides the member of `dst` with its key, except that two objects
/// are merged recursively; otherwise `src` replaces `dst`.
pub open spec fn deep_merge_spec(dst: JsonV, src: JsonV) -> JsonV
    decreases src, 0int,
{
    match (dst, src) {
        (JsonV::Object(d), JsonV::Object(s)) => JsonV::Object(merge_members(d, s, s.len() as int)),
        _ => src,
    }
}

/// The entries `d` after merging in the first `n` members of `s`.
pub open spec fn merge_members(
    d: Seq<(Seq<char>, JsonV)>,
    s: Seq<(Seq<char>, JsonV)>,
    n: int,
) -> Seq<(Seq<char>, JsonV)>
    decreases s, n,
{
    if n <= 0 || n > s.len() {
        d
    } else {
        let prev = merge_members(d, s, n - 1);
        let k = s[n - 1].0;
        let sv = s[n - 1].1;
        let cur = obj_slot(prev, k);
        proof {
            assert(decreases_to!(s => s[n - 1]));
            assert(decreases_to!(s[n - 1] => s[n - 1].1));
        }
        let nv = if cur is Object && sv is Object {
            deep_merge_spec(cur, sv)
        } else {
            sv
        };
        obj_set(prev, k, nv)
    }
}

/// Recursively merge `src` into `dst`, returning the merged value.
pub fn deep_merge(dst: &Json, src: &Json) -> (r: Json)
    ensures
        r@ == deep_merge_spec(dst@, src@),
    decreases src,
{
    match (dst, src) {
        (Json::Object(d), Json::Object(s)) => {
            let mut out: Vec<(String, Json)> = Vec::new();
            let mut i: usize = 0;
            while i < d.len()
                invariant
                    i <= d@.len(),
                    out@.len() == i,
                    forall|k: int|
                        0 <= k < i ==> (#[trigger] out@[k]).0@ == d@[k].0@ && out@[k].1@
                            == d@[k].1@,
                decreases d@.len() - i,
            {
                out.push((d[i].0.clone(), d[i].1.copy()));
                i = i + 1;
            }
            let ghost dv = entries_view(d@);
            let ghost sv = entries_view(s@);
            proof {
                assert(entries_view(out@) =~= dv);
            }
            let mut j: usize = 0;
            while j < s.len()
                invariant
                    *src == Json::Object(*s),
                    dv == entries_view(d@),
                    sv == entries_view(s@),
                    j <= s@.len(),
                    entries_view(out@) == merge_members(dv, sv, j as int),
                decreases s@.len() - j,
            {
                proof {
                    broadcast use vstd::std_specs::vec::axiom_vec_index_decreases;
                    assert(decreases_to!(*src => (*src)->Object_0));
                    assert(decreases_to!(*s => s[j as int]));
                    assert(decreases_to!(s[j as int] => s[j as int].1));
                    assert(decreases_to!(*src => s[j as int].1));
                }
                let ghost prev = entries_view(out@);
                let key = s[j].0.as_str();
                let p = key_position(&out, key);
                proof {
                    lemma_key_pos(prev, key@);
                    assert(sv[j as int] == (s@[j as int].0@, s@[j as int].1@));
                }
                if p < out.len() && str_eq(out[p].0.as_str(), key) {
                    let nv = if out[p].1.is_object() && s[j].1.is_object() {
                        deep_merge(&out[p].1, &s[j].1)
                    } else {
                        s[j].1.copy()
                    };
                    out.set(p, (s[j].0.clone(), nv));
                    proof {
                        assert(entries_view(out@) =~= obj_set(
                            prev,
                            key@,
                            entries_view(out@)[p as int].1,
                        ));
                    }
                } else {
                    let nv = s[j].1.copy();
                    out.insert(p, (s[j].0.clone(), nv));
                    proof {
                        assert(entries_view(out@) =~= prev.insert(p as int, (key@, nv@)));
                    }
                }
                j = j + 1;
            }
            Json::Object(out)
        },
        _ => src.copy(),
    }
}

/// Index of the first component whose type is `t`, or the length.
pub open spec fn type_index(cs: Seq<ComponentView>, t: Seq<char>) -> int
    decreases cs.len(),
{
    if cs.len() == 0 {
        0
    } else if cs[0].component_type == t {
        0
    } else {
        1 + type_index(cs.drop_first(), t)
    }
}

/// Facts about `type_index`.
pub proof fn lemma_type_index(cs: Seq<ComponentView>, t: Seq<char>)
    ensures
        0 <= type_index(cs, t) <= cs.len(),
        type_index(cs, t) < cs.len() ==> cs[type_index(cs, t)].component_type == t,
        forall|j: int| 0 <= j < type_index(cs, t) ==> cs[j].component_type != t,
    decreases cs.len(),
{
    if cs.len() > 0 && cs[0].component_type != t {
        lemma_type_index(cs.drop_first(), t);
        assert forall|j: int| 0 <= j < type_index(cs, t) implies cs[j].component_type != t by {
            if j > 0 {
                assert(cs[j] == cs.drop_first()[j - 1]);
            }
        }
    }
}

/// Any first position of type `t` (or the length when none) is `type_index`.
pub proof fn lemma_type_index_unique(cs: Seq<ComponentView>, t: Seq<char>, r: int)
    requires
        0 <= r <= cs.len(),
        r < cs.len() ==> cs[r].component_type == t,
        forall|j: int| 0 <= j < r ==> cs[j].component_type != t,
    ensures
        type_index(cs, t) == r,
{
    lemma_type_index(cs, t);
    let p = type_index(cs, t);
    if p < r {
        assert(cs[p].component_type != t);
    } else if r < p {
        assert(cs[r].component_type == t);
    }
}

/// The error for an `!extend` with no target.
pub open spec fn extend_no_target_diag() -> DiagnosticView {
    diag(
        ValidationStage::ExtendRemove,
        Severity::Error,
        "components"@,
        "!extend directive is missing a target component type"@,
    )
}

/// The error for an `!extend` whose target is absent.
pub open spec fn extend_not_found_diag(t: Seq<char>) -> DiagnosticView {
    diag(
        ValidationStage::ExtendRemove,
        Severity::Error,
        "!extend "@ + t,
        "!extend target '"@ + t + "' not found in component list"@,
    )
}

/// The error for a `!remove` with no target.
pub open spec fn remove_no_target_diag() -> DiagnosticView {
    diag(
        ValidationStage::ExtendRemove,
        Severity::Error,
        "components"@,
        "!remove directive is missing a target component type"@,
    )
}

/// The warning for a `!remove` whose target is absent.
pub open spec fn remove_not_found_diag(t: Seq<char>) -> DiagnosticView {
    diag(
        ValidationStage::ExtendRemove,
        Severity::Warning,
        "!remove "@ + t,
        "!remove target '"@ + t + "' not found; nothing removed"@,
    )
}

/// A component is a directive.
pub open spec fn is_directive(c: ComponentView) -> bool {
    is_extend_spec(c.component_type) || is_remove_spec(c.component_type)
}

/// Processing the component list from position `i` on, with the diagnostics
/// so far: a directive at `i` is removed and applied, anything else is kept.
pub open spec fn process_directives(
    cs: Seq<ComponentView>,
    i: int,
    errs: Seq<DiagnosticView>,
) -> (Seq<ComponentView>, Seq<DiagnosticView>)
    decreases cs.len() - i,
{
    if i < 0 || i >= cs.len() {
        (cs, errs)
    } else {
        let c = cs[i];
        let rest = cs.remove(i);
        if is_extend_spec(c.component_type) {
            match directive_target_spec(c.component_type) {
                None => process_directives(rest, i, errs.push(extend_no_target_diag())),
                Some(t) => {
                    let j = type_index(rest, t);
                    if j >= rest.len() || j < 0 {
                        process_directives(rest, i, errs.push(extend_not_found_diag(t)))
                    } else {
                        let merged = ComponentView {
                            component_type: rest[j].component_type,
                            platform: rest[j].platform,
                            config: deep_merge_spec(rest[j].config, c.config),
                        };
                        process_directives(rest.update(j, merged), i, errs)
                    }
                },
            }
        } else if is_remove_spec(c.component_type) {
            match directive_target_spec(c.component_type) {
                None => process_directives(rest, i, errs.push(remove_no_target_diag())),
                Some(t) => {
                    let j = type_index(rest, t);
                    if j >= rest.len() || j < 0 {
                        process_directives(rest, i, errs.push(remove_not_found_diag(t)))
                    } else {
                        process_directives(
                            rest.remove(j),
                            if j < i {
                                i - 1
                            } else {
                                i
                            },
                            errs,
                        )
                    }
                },
            }
        } else {
            process_directives(cs, i + 1, errs)
        }
    }
}

/// When the first `i` components are no directives, no directive is left
/// after processing.
pub proof fn lemma_no_directive_left(cs: Seq<ComponentView>, i: int, errs: Seq<DiagnosticView>)
    requires
        0 <= i <= cs.len(),
        forall|k: int| 0 <= k < i ==> !is_directive(#[trigger] cs[k]),
    ensures
        forall|k: int|
            0 <= k < process_directives(cs, i, errs).0.len() ==> !is_directive(
                #[trigger] process_directives(cs, i, errs).0[k],
            ),
    decreases cs.len() - i,
{
    if i < cs.len() {
        let c = cs[i];
        let rest = cs.remove(i);
        assert(forall|k: int| 0 <= k < i ==> rest[k] == cs[k]);
        if is_extend_spec(c.component_type) {
            match directive_target_spec(c.component_type) {
                None => {
                    lemma_no_directive_left(rest, i, errs.push(extend_no_target_diag()));
                    assert(process_directives(cs, i, errs) == process_directives(rest, i, errs.push(extend_no_target_diag())));
                },
                Some(t) => {
                    let j = type_index(rest, t);
                    lemma_type_index(rest, t);
                    if j >= rest.len() {
                        lemma_no_directive_left(rest, i, errs.push(extend_not_found_diag(t)));
                        assert(process_directives(cs, i, errs) == process_directives(rest, i, errs.push(extend_not_found_diag(t))));
                    } else {
                        let merged = ComponentView {
                            component_type: rest[j].component_type,
                            platform: rest[j].platform,
                            config: deep_merge_spec(rest[j].config, c.config),
                        };
                        let u = rest.update(j, merged);
                        assert forall|k: int| 0 <= k < i implies !is_directive(#[trigger] u[k]) by {
                            assert(u[k].component_type == rest[k].component_type);
                        }
                        lemma_no_directive_left(u, i, errs);
                        assert(process_directives(cs, i, errs) == process_directives(u, i, errs));
                    }
                },
            }
        } else if is_remove_spec(c.component_type) {
            match directive_target_spec(c.component_type) {
                None => {
                    lemma_no_directive_left(rest, i, errs.push(remove_no_target_diag()));
                    assert(process_directives(cs, i, errs) == process_directives(rest, i, errs.push(remove_no_target_diag())));
                },
                Some(t) => {
                    let j = type_index(rest, t);
                    lemma_type_index(rest, t);
                    if j >= rest.len() {
                        lemma_no_directive_left(rest, i, errs.push(remove_not_found_diag(t)));
                        assert(process_directives(cs, i, errs) == process_directives(rest, i, errs.push(remove_not_found_diag(t))));
                    } else {
                        let r2 = rest.remove(j);
                        let i2 = if j < i {
                            i - 1
                        } else {
                            i
                        };
                        assert forall|k: int| 0 <= k < i2 implies !is_directive(#[trigger] r2[k]) by {
                            if k < j {
                                assert(r2[k] == rest[k]);
                            } else {
                                assert(r2[k] == rest[k + 1]);
                            }
                        }
                        lemma_no_directive_left(r2, i2, errs);
                        assert(process_directives(cs, i, errs) == process_directives(r2, i2, errs));
                    }
                },
            }
        } else {
            assert(!is_directive(cs[i]));
            lemma_no_directive_left(cs, i + 1, errs);
            assert(process_directives(cs, i, errs) == process_directives(cs, i + 1, errs));
        }
    } else {
        assert(process_directives(cs, i, errs).0 == cs);
    }
}

/// Index of the first component whose type is `t`, or the length.
fn find_type(cs: &Vec<ComponentConfig>, t: &str) -> (r: usize)
    ensures
        r == type_index(comps_view(cs@), t@),
{
    let ghost v = comps_view(cs@);
    let mut i: usize = 0;
    while i < cs.len()
        invariant
            i <= cs@.len(),
            v == comps_view(cs@),
            forall|j: int| 0 <= j < i ==> v[j].component_type != t@,
        decreases cs@.len() - i,
    {
        if str_eq(cs[i].component_type.as_str(), t) {
            proof {
                lemma_type_index_unique(v, t@, i as int);
            }
            return i;
        }
        i = i + 1;
    }
    proof {
        lemma_type_index_unique(v, t@, i as int);
    }
    i
}

/// Stage 3: process the `!extend` and `!remove` directives, in list order.
///
/// Every directive entry is removed from `config.components`; the result
/// holds no directive.
pub fn stage_3_process_extend_remove(config: &mut RawConfig) -> (errors: Vec<ValidationError>)
    ensures
        (comps_view(final(config).components@), diags(errors@)) == process_directives(
            comps_view(old(config).components@),
            0,
            Seq::empty(),
        ),
        forall|k: int|
            0 <= k < final(config).components@.len() ==> !is_directive(
                #[trigger] final(config).components@[k]@,
            ),
        final(config).esphome == old(config).esphome,
        final(config).packages == old(config).packages,
        final(config).substitutions == old(config).substitutions,
{
    let mut errors: Vec<ValidationError> = Vec::new();
    let ghost old_config = *config;
    let ghost goal = process_directives(comps_view(config.components@), 0, Seq::empty());
    proof {
        assert(diags(errors@) =~= Seq::<DiagnosticView>::empty());
        lemma_no_directive_left(comps_view(config.components@), 0, Seq::empty());
    }
    let mut i: usize = 0;
    while i < config.components.len()
        invariant
            i <= config.components@.len(),
            process_directives(comps_view(config.components@), i as int, diags(errors@)) == goal,
            config.esphome == old_config.esphome,
            config.packages == old_config.packages,
            config.substitutions == old_config.substitutions,
        decreases config.components@.len() - i,
    {
        let ghost cs = comps_view(config.components@);
        let ghost es = diags(errors@);
        let ghost rest = cs.remove(i as int);
        if config.components[i].is_extend() {
            let target = config.components[i].directive_target();
            let comp = config.components.remove(i);
            proof {
                assert(comps_view(config.components@) =~= rest);
                assert(comp@ == cs[i as int]);
            }
            match target {
                None => {
                    let e = ValidationError::error(
                        ValidationStage::ExtendRemove,
                        "components",
                        "!extend directive is missing a target component type",
                    );
                    errors.push(e);
                    proof {
                        assert(diags(errors@) =~= es.push(extend_no_target_diag()));
                    }
                },
                Some(t) => {
                    let j = find_type(&config.components, t.as_str());
                    proof {
                        lemma_type_index(rest, t@);
                    }
                    if j == config.components.len() {
                        let path = concat2("!extend ", t.as_str());
                        let msg = concat3("!extend target '", t.as_str(), "' not found in component list");
                        let e = ValidationError::error(
                            ValidationStage::ExtendRemove,
                            path.as_str(),
                            msg.as_str(),
                        );
                        errors.push(e);
                        proof {
                            assert(diags(errors@) =~= es.push(extend_not_found_diag(t@)));
                        }
                    } else {
                        let merged = deep_merge(&config.components[j].config, &comp.config);
                        let newc = ComponentConfig {
                            component_type: config.components[j].component_type.clone(),
                            platform: crate::raw::copy_opt(&config.components[j].platform),
                            config: merged,
                        };
                        config.components.set(j, newc);
                        proof {
                            let m = ComponentView {
                                component_type: rest[j as int].component_type,
                                platform: rest[j as int].platform,
                                config: deep_merge_spec(rest[j as int].config, cs[i as int].config),
                            };
                            assert(newc@ == m);
                            assert(comps_view(config.components@) =~= rest.update(j as int, m));
                        }
                    }
                },
            }
        } else if config.components[i].is_remove() {
            let target = config.components[i].directive_target();
            let comp = config.components.remove(i);
            proof {
                assert(comps_view(config.components@) =~= rest);
            }
            match target {
                None => {
                    let e = ValidationError::error(
                        ValidationStage::ExtendRemove,
                        "components",
                        "!remove directive is missing a target component type",
                    );
                    errors.push(e);
                    proof {
                        assert(diags(errors@) =~= es.push(remove_no_target_diag()));
                    }
                },
                Some(t) => {
                    let j = find_type(&config.components, t.as_str());
                    proof {
                        lemma_type_index(rest, t@);
                    }
                    if j == config.components.len() {
                        let path = concat2("!remove ", t.as_str());
                        let msg = concat3("!remove target '", t.as_str(), "' not found; nothing removed");
                        let e = ValidationError::warning(
                            ValidationStage::ExtendRemove,
                            path.as_str(),
                            msg.as_str(),
                        );
                        errors.push(e);
                        proof {
                            assert(diags(errors@) =~= es.push(remove_not_found_diag(t@)));
                        }
                    } else {
                        config.components.remove(j);
                        proof {
                            assert(comps_view(config.components@) =~= rest.remove(j as int));
                        }
                        if j < i {
                            i = i - 1;
                        }
                    }
                },
            }
        } else {
            i = i + 1;
        }
    }
    proof {
        let fin = comps_view(config.components@);
        assert(goal.0 == fin);
        assert forall|k: int| 0 <= k < config.components@.len() implies !is_directive(
            #[trigger] config.components@[k]@,
        ) by {
            assert(fin[k] == config.components@[k]@);
            assert(!is_directive(goal.0[k]));
        }
    }
    errors
}

} // verus!
