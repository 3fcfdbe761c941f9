//! Stage 3.5 — variant resolution.
//!
//! When the config names a solution whose definition declares variants, the
//! selected `solution_variant` is looked up among them; a valid selection
//! yields the variant's active-flag deltas and applies its component
//! additions and removals to the component list.
use vstd::prelude::*;
use crate::error::{ValidationError, ValidationStage, Severity, DiagnosticView, diag, diag_hint, diags};
use crate::json::{Json, JsonV};
use crate::raw::{RawConfig, ComponentConfig, ComponentView, comps_view, opt_view};
use crate::stages::s3_extend_remove::{type_index, lemma_type_index};
use crate::text::{concat2, concat3, concat5, join_strs, join_spec, strs_view, str_eq, owned};

verus! {

/// A variant of a solution, as the solution registry declares it.
#[derive(Debug)]
pub struct SolutionVariant {
    /// Variant id, e.g. `"dshot"`.
    pub id: String,
    /// Active flags the variant adds.
    pub active_flag_add: Vec<String>,
    /// Active flags the variant removes.
    pub active_flag_remove: Vec<String>,
    /// Component types added when the config does not configure them.
    pub add_components: Vec<String>,
    /// Component types whose first entry is removed.
    pub remove_components: Vec<String>,
}

/// The outcome of variant resolution, propagated through the pipeline.
#[derive(Debug, PartialEq, Eq)]
pub struct VariantResolution {
    /// The config's solution id.
    pub solution_id: Option<String>,
    /// The selected variant, once validated against the solution's variants.
    pub variant_id: Option<String>,
    /// Active-flag additions of the resolved variant.
    pub active_flag_add: Vec<String>,
    /// Active-flag removals of the resolved variant.
    pub active_flag_remove: Vec<String>,
}

impl Default for VariantResolution {
    fn default() -> (r: Self)
        ensures
            r.solution_id.is_none(),
            r.variant_id.is_none(),
            r.active_flag_add@.len() == 0,
            r.active_flag_remove@.len() == 0,
    {
        VariantResolution {
            solution_id: None,
            variant_id: None,
            active_flag_add: Vec::new(),
            active_flag_remove: Vec::new(),
        }
    }
}

/// The ids of the variants.
pub open spec fn variant_ids(vs: Seq<SolutionVariant>) -> Seq<Seq<char>> {
    vs.map_values(|v: SolutionVariant| v.id@)
}

/// Index of the first variant with id `vid`, or the length.
pub open spec fn variant_index(vs: Seq<SolutionVariant>, vid: Seq<char>) -> int
    decreases vs.len(),
{
    if vs.len() == 0 {
        0
    } else if vs[0].id@ == vid {
        0
    } else {
        1 + variant_index(vs.drop_first(), vid)
    }
}

/// Facts about `variant_index`.
pub proof fn lemma_variant_index(vs: Seq<SolutionVariant>, vid: Seq<char>)
    ensures
        0 <= variant_index(vs, vid) <= vs.len(),
        variant_index(vs, vid) < vs.len() ==> vs[variant_index(vs, vid)].id@ == vid,
        forall|j: int| 0 <= j < variant_index(vs, vid) ==> vs[j].id@ != vid,
    decreases vs.len(),
{
    if vs.len() > 0 && vs[0].id@ != vid {
        lemma_variant_index(vs.drop_first(), vid);
        assert forall|j: int| 0 <= j < variant_index(vs, vid) implies vs[j].id@ != vid by {
            if j > 0 {
                assert(vs[j] == vs.drop_first()[j - 1]);
            }
        }
    }
}

/// An empty-config component of type `t`.
pub open spec fn bare_component(t: Seq<char>) -> ComponentView {
    ComponentView { component_type: t, platform: None, config: JsonV::Object(Seq::empty()) }
}

/// The components after adding, for each of the first `n` types, a bare
/// component unless one of that type is present.
pub open spec fn add_overlay(cs: Seq<ComponentView>, adds: Seq<Seq<char>>, n: int) -> Seq<
    ComponentView,
>
    decreases n,
{
    if n <= 0 || n > adds.len() {
        cs
    } else {
        let prev = add_overlay(cs, adds, n - 1);
        if type_index(prev, adds[n - 1]) < prev.len() {
            prev
        } else {
            prev.push(bare_component(adds[n - 1]))
        }
    }
}

/// The components after removing, for each of the first `n` types, the first
/// component of that type.
pub open spec fn remove_overlay(cs: Seq<ComponentView>, rems: Seq<Seq<char>>, n: int) -> Seq<
    ComponentView,
>
    decreases n,
{
    if n <= 0 || n > rems.len() {
        cs
    } else {
        let prev = remove_overlay(cs, rems, n - 1);
        let j = type_index(prev, rems[n - 1]);
        if j < prev.len() {
            prev.remove(j)
        } else {
            prev
        }
    }
}

/// The warning for a variant selected on a solution without variants.
pub open spec fn no_variants_diag(sid: Seq<char>, vid: Seq<char>) -> DiagnosticView {
    diag(
        ValidationStage::VariantResolution,
        Severity::Warning,
        "esphome.solution_variant"@,
        "solution '"@ + sid + "' declares no variants \u{2014} ignoring variant id '"@ + vid + "'"@,
    )
}

/// The error for a solution with variants and no selection.
pub open spec fn missing_variant_diag(sid: Seq<char>, ids: Seq<Seq<char>>) -> DiagnosticView {
    diag_hint(
        ValidationStage::VariantResolution,
        Severity::Error,
        "esphome.solution_variant"@,
        "solution '"@ + sid + "' requires a variant selection but `solution_variant` is not set"@,
        "available variants: "@ + join_spec(ids, ", "@),
    )
}

/// The error for a selection that the solution does not declare.
pub open spec fn unknown_variant_diag(
    sid: Seq<char>,
    vid: Seq<char>,
    ids: Seq<Seq<char>>,
) -> DiagnosticView {
    diag_hint(
        ValidationStage::VariantResolution,
        Severity::Error,
        "esphome.solution_variant"@,
        "solution '"@ + sid + "' does not declare a variant '"@ + vid + "'"@,
        "available variants: "@ + join_spec(ids, ", "@),
    )
}

fn available_hint(vs: &Vec<SolutionVariant>) -> (r: String)
    ensures
        r@ == "available variants: "@ + join_spec(variant_ids(vs@), ", "@),
{
    let mut ids: Vec<String> = Vec::new();
    let mut i: usize = 0;
    while i < vs.len()
        invariant
            i <= vs@.len(),
            strs_view(ids@) == variant_ids(vs@).subrange(0, i as int),
        decreases vs@.len() - i,
    {
        let ghost before = ids@;
        ids.push(vs[i].id.clone());
        proof {
            assert(strs_view(ids@) =~= strs_view(before).push(vs@[i as int].id@));
            assert(variant_ids(vs@).subrange(0, i + 1) =~= variant_ids(vs@).subrange(0, i as int).push(vs@[i as int].id@));
        }
        i = i + 1;
    }
    proof {
        assert(variant_ids(vs@).subrange(0, i as int) =~= variant_ids(vs@));
    }
    let j = join_strs(&ids, ", ");
    concat2("available variants: ", j.as_str())
}

fn copy_strs(v: &Vec<String>) -> (r: Vec<String>)
    ensures
        r@ == v@,
{
    let mut out: Vec<String> = Vec::new();
    let mut i: usize = 0;
    while i < v.len()
        invariant
            i <= v@.len(),
            out@ == v@.subrange(0, i as int),
        decreases v@.len() - i,
    {
        out.push(v[i].clone());
        i = i + 1;
        proof {
            assert(out@ =~= v@.subrange(0, i as int));
        }
    }
    proof {
        assert(v@.subrange(0, i as int) =~= v@);
    }
    out
}

fn has_type(cs: &Vec<ComponentConfig>, t: &str) -> (r: bool)
    ensures
        r == (type_index(comps_view(cs@), t@) < cs@.len()),
{
    let ghost v = comps_view(cs@);
    let mut i: usize = 0;
    while i < cs.len()
        invariant
            i <= cs@.len(),
            v == comps_view(cs@),
            forall|j: int| 0 <= j < i ==> v[j].component_type != t@,
        decreases cs@.len() - i,
    {
        if str_eq(cs[i].component_type.as_str(), t) {
            proof {
                crate::stages::s3_extend_remove::lemma_type_index_unique(v, t@, i as int);
            }
            return true;
        }
        i = i + 1;
    }
    proof {
        crate::stages::s3_extend_remove::lemma_type_index_unique(v, t@, i as int);
    }
    false
}

fn first_of_type(cs: &Vec<ComponentConfig>, t: &str) -> (r: usize)
    ensures
        r == type_index(comps_view(cs@), t@),
{
    let ghost v = comps_view(cs@);
    let mut i: usize = 0;
    while i < cs.len()
        invariant
            i <= cs@.len(),
            v == comps_view(cs@),
            forall|j: int| 0 <= j < i ==> v[j].component_type != t@,
        decreases cs@.len() - i,
    {
        if str_eq(cs[i].component_type.as_str(), t) {
            proof {
                crate::stages::s3_extend_remove::lemma_type_index_unique(v, t@, i as int);
            }
            return i;
        }
        i = i + 1;
    }
    proof {
        crate::stages::s3_extend_remove::lemma_type_index_unique(v, t@, i as int);
    }
    i
}

/// Stage 3.5: resolve the selected variant of the config's solution.
///
/// `variants` is the registry's list of variants for `config.esphome.solution`,
/// or `None` when the registry does not know that solution (reported later,
/// by stage 9, and silent here).
pub fn stage_3_5_resolve_variant(
    config: &mut RawConfig,
    variants: Option<&Vec<SolutionVariant>>,
) -> (r: (VariantResolution, Vec<ValidationError>))
    ensures
        opt_view(r.0.solution_id) == opt_view(old(config).esphome.solution),
        final(config).esphome == old(config).esphome,
        final(config).packages == old(config).packages,
        final(config).substitutions == old(config).substitutions,
        match (old(config).esphome.solution, variants) {
            (Some(sid), Some(vs)) => {
                let declared = old(config).esphome.solution_variant;
                if vs@.len() == 0 {
                    &&& r.0.variant_id.is_none()
                    &&& r.0.active_flag_add@.len() == 0
                    &&& r.0.active_flag_remove@.len() == 0
                    &&& final(config).components == old(config).components
                    &&& diags(r.1@) == match declared {
                        Some(vid) => seq![no_variants_diag(sid@, vid@)],
                        None => Seq::empty(),
                    }
                } else {
                    match declared {
                        None => {
                            &&& r.0.variant_id.is_none()
                            &&& r.0.active_flag_add@.len() == 0
                            &&& r.0.active_flag_remove@.len() == 0
                            &&& final(config).components == old(config).components
                            &&& diags(r.1@) == seq![missing_variant_diag(sid@, variant_ids(vs@))]
                        },
                        Some(vid) => {
                            let k = variant_index(vs@, vid@);
                            if k >= vs@.len() {
                                &&& r.0.variant_id.is_none()
                                &&& r.0.active_flag_add@.len() == 0
                                &&& r.0.active_flag_remove@.len() == 0
                                &&& final(config).components == old(config).components
                                &&& diags(r.1@) == seq![
                                    unknown_variant_diag(sid@, vid@, variant_ids(vs@)),
                                ]
                            } else {
                                let v = vs@[k];
                                &&& opt_view(r.0.variant_id) == Some(vid@)
                                &&& r.0.active_flag_add@ == v.active_flag_add@
                                &&& r.0.active_flag_remove@ == v.active_flag_remove@
                                &&& r.1@.len() == 0
                                &&& comps_view(final(config).components@) == remove_overlay(
                                    add_overlay(
                                        comps_view(old(config).components@),
                                        strs_view(v.add_components@),
                                        v.add_components@.len() as int,
                                    ),
                                    strs_view(v.remove_components@),
                                    v.remove_components@.len() as int,
                                )
                            }
                        },
                    }
                }
            },
            _ => {
                &&& r.0.variant_id.is_none()
                &&& r.0.active_flag_add@.len() == 0
                &&& r.0.active_flag_remove@.len() == 0
                &&& r.1@.len() == 0
                &&& final(config).components == old(config).components
            },
        },
{
    let mut errors: Vec<ValidationError> = Vec::new();
    let mut resolution = VariantResolution::default();
    let sid = match &config.esphome.solution {
        None => return (resolution, errors),
        Some(s) => s.clone(),
    };
    resolution.solution_id = Some(sid.clone());
    let vs = match variants {
        None => return (resolution, errors),
        Some(vs) => vs,
    };
    if vs.len() == 0 {
        if let Some(vid) = &config.esphome.solution_variant {
            let msg = concat5(
                "solution '",
                sid.as_str(),
                "' declares no variants \u{2014} ignoring variant id '",
                vid.as_str(),
                "'",
            );
            let e = ValidationError::warning(
                ValidationStage::VariantResolution,
                "esphome.solution_variant",
                msg.as_str(),
            );
            errors.push(e);
            proof {
                assert(diags(errors@) =~= seq![e@]);
            }
        } else {
            proof {
                assert(diags(errors@) =~= Seq::<DiagnosticView>::empty());
            }
        }
        return (resolution, errors);
    }
    let hint = available_hint(vs);
    let vid = match &config.esphome.solution_variant {
        None => {
            let msg = concat3(
                "solution '",
                sid.as_str(),
                "' requires a variant selection but `solution_variant` is not set",
            );
            let e = ValidationError::error(
                ValidationStage::VariantResolution,
                "esphome.solution_variant",
                msg.as_str(),
            ).with_suggestion(hint.as_str());
            errors.push(e);
            proof {
                assert(diags(errors@) =~= seq![e@]);
            }
            return (resolution, errors);
        },
        Some(v) => v.clone(),
    };
    let mut k: usize = 0;
    while k < vs.len()
        invariant
            k <= vs@.len(),
            forall|j: int| 0 <= j < k ==> vs@[j].id@ != vid@,
        ensures
            k <= vs@.len(),
            forall|j: int| 0 <= j < k ==> vs@[j].id@ != vid@,
            k < vs@.len() ==> vs@[k as int].id@ == vid@,
        decreases vs@.len() - k,
    {
        if str_eq(vs[k].id.as_str(), vid.as_str()) {
            break;
        }
        k = k + 1;
    }
    proof {
        lemma_variant_index(vs@, vid@);
        let p = variant_index(vs@, vid@);
        if p < k {
            assert(vs@[p].id@ != vid@);
        } else if k < p && k < vs@.len() {
            assert(vs@[k as int].id@ == vid@);
        }
    }
    if k == vs.len() {
        let msg = concat5("solution '", sid.as_str(), "' does not declare a variant '", vid.as_str(), "'");
        let e = ValidationError::error(
            ValidationStage::VariantResolution,
            "esphome.solution_variant",
            msg.as_str(),
        ).with_suggestion(hint.as_str());
        errors.push(e);
        proof {
            assert(diags(errors@) =~= seq![e@]);
        }
        return (resolution, errors);
    }
    let v = &vs[k];
    resolution.variant_id = Some(v.id.clone());
    resolution.active_flag_add = copy_strs(&v.active_flag_add);
    resolution.active_flag_remove = copy_strs(&v.active_flag_remove);
    let ghost cs0 = comps_view(config.components@);
    let ghost adds = strs_view(v.add_components@);
    let ghost rems = strs_view(v.remove_components@);
    let ghost old_config = *config;
    let mut i: usize = 0;
    while i < v.add_components.len()
        invariant
            i <= v.add_components@.len(),
            adds == strs_view(v.add_components@),
            comps_view(config.components@) == add_overlay(cs0, adds, i as int),
            config.esphome == old_config.esphome,
            config.packages == old_config.packages,
            config.substitutions == old_config.substitutions,
        decreases v.add_components@.len() - i,
    {
        let t = v.add_components[i].as_str();
        if !has_type(&config.components, t) {
            let c = ComponentConfig {
                component_type: owned(t),
                platform: None,
                config: Json::empty_object(),
            };
            let ghost before = comps_view(config.components@);
            config.components.push(c);
            proof {
                assert(comps_view(config.components@) =~= before.push(bare_component(t@)));
            }
        }
        i = i + 1;
    }
    let ghost mid = comps_view(config.components@);
    let mut i: usize = 0;
    while i < v.remove_components.len()
        invariant
            i <= v.remove_components@.len(),
            rems == strs_view(v.remove_components@),
            comps_view(config.components@) == remove_overlay(mid, rems, i as int),
            config.esphome == old_config.esphome,
            config.packages == old_config.packages,
            config.substitutions == old_config.substitutions,
        decreases v.remove_components@.len() - i,
    {
        let t = v.remove_components[i].as_str();
        let j = first_of_type(&config.components, t);
        if j < config.components.len() {
            let ghost before = comps_view(config.components@);
            config.components.remove(j);
            proof {
                assert(comps_view(config.components@) =~= before.remove(j as int));
            }
        }
        i = i + 1;
    }
    proof {
        assert(diags(errors@) =~= Seq::<DiagnosticView>::empty());
    }
    (resolution, errors)
}

} // verus!
