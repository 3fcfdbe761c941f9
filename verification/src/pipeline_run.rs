//! The full validation run, stage by stage.
//!
//! A run needs the registries between its stages: the variants of the
//! config's solution before the first step, the AUTO_LOAD expansion of the
//! directly referenced components before the second, and the registry and
//! host results of the final step ([`FinalInputs`]). The caller performs
//! those lookups and hands their results in; each step runs its stages in
//! order, appends their diagnostics, and stops the run at the first stage
//! that reports a fatal one.
use vstd::prelude::*;
use crate::catalog::{CatalogEntry, ComponentCatalog, catalog_get};
use crate::error::{DiagnosticView, Severity, ValidationError, diags, has_errors_spec};
use crate::pipeline::{ValidationPipeline, absorb_stage};
use crate::raw::{ComponentView, EsphomeBlock, PackageStore, RawConfig, comps_view};
use crate::stages::s1_package_merge::{stage_1_merge_packages, merge_errors, merged_components, merged_substitutions};
use crate::stages::s2_substitutions::{stage_2_apply_substitutions, subst_components};
use crate::stages::s3_extend_remove::{stage_3_process_extend_remove, process_directives};
use crate::stages::s3_5_variant_resolution::{
    SolutionVariant, VariantResolution, stage_3_5_resolve_variant, variant_index, variant_ids, add_overlay,
    remove_overlay, no_variants_diag, missing_variant_diag, unknown_variant_diag,
};
use crate::stages::s4_external_components::{stage_4_resolve_external_components, framework_url_errors, component_url_errors};
use crate::stages::s5_preload::{PreloadContext, stage_5_preload_esphome_block, preload_errors, chip_of, framework_of, normalized};
use crate::raw::opt_view;
use crate::validated::FrameworkType;
use crate::stages::s6_load_components::{stage_6_load_components, stage_6_check_resolved, load_direct, resolved_errors};
use crate::stages::s7_schema_validation::{stage_7_validate_schemas, schema_errors};
use crate::stages::s8_id_resolution::{stage_8_resolve_ids, collect_ids, generate_ids, cross_all, view_ids};
use crate::text::{strs_view, owned};
use crate::json::strictly_sorted;
use crate::pipeline::{ValidationResult, assemble_active_flags, build_validated_components, flag_candidates, wanted_flag, components_built};
use crate::sigrok::SigrokConfig;
use crate::stages::s9_final_validation::{SolutionBundle, stage_9_final_validation, final_errors};
use crate::stages::s11_exclusive_groups::{stage_11_check_exclusive_groups, group_members, group_errors};
use crate::stages::s12_profile_validation::{ProfileInfo, stage_12_validate_profile, profile_errors};
use crate::stages::s13_secret_fields::{stage_13_check_secret_fields, secrets_errors};
use crate::validated::{
    DependencyGraph, PinAllocation, ValidatedConfig, ValidatedEsphomeBlock, ValidatedProjectConfig, deps_of,
    edges_view, dependency_order,
};

verus! {

// ── Stopping runs ─────────────────────────────────────────────────────────────

/// Some diagnostic is fatal.
pub open spec fn fatal_diags(d: Seq<DiagnosticView>) -> bool {
    exists|i: int| 0 <= i < d.len() && #[trigger] d[i].severity == Severity::Error
}

/// A list of diagnostics holds a fatal one exactly when its views do.
pub proof fn lemma_fatal_diags(v: Seq<ValidationError>)
    ensures
        has_errors_spec(v) == fatal_diags(diags(v)),
{
    let d = diags(v);
    if has_errors_spec(v) {
        let i = choose|i: int| 0 <= i < v.len() && #[trigger] v[i].severity == Severity::Error;
        assert(d[i].severity == Severity::Error);
    }
    if fatal_diags(d) {
        let i = choose|i: int| 0 <= i < d.len() && #[trigger] d[i].severity == Severity::Error;
        assert(v[i].severity == Severity::Error);
    }
}

/// One of the first `n` stages stops the run.
pub open spec fn stops_before(st: Seq<(Seq<DiagnosticView>, bool)>, n: int) -> bool {
    exists|j: int| 0 <= j < n && #[trigger] st[j].1
}

/// The diagnostics a run of the first `n` stages reports: each stage's in
/// order, up to and including the first stage that stops the run.
pub open spec fn run_errors(st: Seq<(Seq<DiagnosticView>, bool)>, n: int) -> Seq<DiagnosticView>
    decreases n,
{
    if n <= 0 || n > st.len() {
        Seq::empty()
    } else if stops_before(st, n - 1) {
        run_errors(st, n - 1)
    } else {
        run_errors(st, n - 1) + st[n - 1].0
    }
}

/// Once a stage has stopped the run, later stages add nothing.
pub proof fn lemma_run_stopped(st: Seq<(Seq<DiagnosticView>, bool)>, m: int, n: int)
    requires
        0 <= m <= n <= st.len(),
        stops_before(st, m),
    ensures
        run_errors(st, n) == run_errors(st, m),
        stops_before(st, n),
    decreases n - m,
{
    if n > m {
        lemma_run_stopped(st, m, n - 1);
        let j = choose|j: int| 0 <= j < m && #[trigger] st[j].1;
        assert(st[j].1);
    }
}

/// Running one more stage of a run that has not stopped.
pub proof fn lemma_run_step(st: Seq<(Seq<DiagnosticView>, bool)>, k: int)
    requires
        0 <= k < st.len(),
        !stops_before(st, k),
    ensures
        run_errors(st, k + 1) == run_errors(st, k) + st[k].0,
        stops_before(st, k + 1) == st[k].1,
{
    if st[k].1 {
        assert(stops_before(st, k + 1));
    }
    if stops_before(st, k + 1) {
        let j = choose|j: int| 0 <= j < k + 1 && #[trigger] st[j].1;
        if j < k {
            assert(stops_before(st, k));
        }
    }
}

// ── Front stages ──────────────────────────────────────────────────────────────

/// The components and diagnostics of variant resolution: the selected
/// variant's overlay when the config selects one of its solution's
/// variants, else the components unchanged with a diagnostic when the
/// selection is missing, unknown or impossible.
pub open spec fn variant_overlay(
    cs: Seq<ComponentView>,
    e: EsphomeBlock,
    variants: Option<Seq<SolutionVariant>>,
) -> (Seq<ComponentView>, Seq<DiagnosticView>) {
    match (e.solution, variants) {
        (Some(sid), Some(vs)) => if vs.len() == 0 {
            (
                cs,
                match e.solution_variant {
                    Some(vid) => seq![no_variants_diag(sid@, vid@)],
                    None => Seq::empty(),
                },
            )
        } else {
            match e.solution_variant {
                None => (cs, seq![missing_variant_diag(sid@, variant_ids(vs))]),
                Some(vid) => {
                    let k = variant_index(vs, vid@);
                    if k >= vs.len() {
                        (cs, seq![unknown_variant_diag(sid@, vid@, variant_ids(vs))])
                    } else {
                        let v = vs[k];
                        (
                            remove_overlay(
                                add_overlay(cs, strs_view(v.add_components@), v.add_components@.len() as int),
                                strs_view(v.remove_components@),
                                v.remove_components@.len() as int,
                            ),
                            Seq::empty(),
                        )
                    }
                },
            }
        },
        _ => (cs, Seq::empty()),
    }
}

/// The variant the config selects, when its solution lists it.
pub open spec fn selected_variant(e: EsphomeBlock, variants: Option<Seq<SolutionVariant>>) -> Option<SolutionVariant> {
    match (e.solution, variants, e.solution_variant) {
        (Some(_), Some(vs), Some(vid)) => {
            let k = variant_index(vs, vid@);
            if vs.len() > 0 && k < vs.len() {
                Some(vs[k])
            } else {
                None
            }
        },
        _ => None,
    }
}

/// The diagnostics of the external-source check.
pub open spec fn external_errors(e: EsphomeBlock, cs: Seq<ComponentView>, prefixes: Seq<Seq<char>>) -> Seq<
    DiagnosticView,
> {
    let fe = match e.framework {
        Some(fw) => framework_url_errors(fw.components@, prefixes, fw.components@.len() as int),
        None => Seq::empty(),
    };
    fe + component_url_errors(cs, prefixes, cs.len() as int)
}

/// The components after the front stages.
pub open spec fn front_components(
    c: RawConfig,
    store: Seq<(String, RawConfig)>,
    variants: Option<Seq<SolutionVariant>>,
) -> Seq<ComponentView> {
    let cs1 = comps_view(c.components@) + merged_components(store, c.packages@);
    let subs1 = merged_substitutions(store, c.packages@, c.substitutions@);
    let s2 = subst_components(cs1, subs1, cs1.len() as int);
    let s3 = process_directives(s2.0, 0, Seq::empty());
    variant_overlay(s3.0, c.esphome, variants).0
}

/// The front stages as run on `c`: package merge, substitutions (which never
/// stop the run), extend/remove, variant resolution, external sources, the
/// esphome block (which stops the run on any diagnostic) and the direct
/// component references; each with its diagnostics and whether it stops.
pub open spec fn front_stages(
    c: RawConfig,
    store: Seq<(String, RawConfig)>,
    variants: Option<Seq<SolutionVariant>>,
    prefixes: Seq<Seq<char>>,
    es: Seq<CatalogEntry>,
) -> Seq<(Seq<DiagnosticView>, bool)> {
    let e1 = merge_errors(store, c.packages@);
    let cs1 = comps_view(c.components@) + merged_components(store, c.packages@);
    let subs1 = merged_substitutions(store, c.packages@, c.substitutions@);
    let s2 = subst_components(cs1, subs1, cs1.len() as int);
    let s3 = process_directives(s2.0, 0, Seq::empty());
    let s35 = variant_overlay(s3.0, c.esphome, variants);
    let e4 = external_errors(c.esphome, s35.0, prefixes);
    let e5 = preload_errors(c.esphome);
    let s6 = load_direct(s35.0, es, s35.0.len() as int);
    seq![
        (e1, fatal_diags(e1)),
        (s2.1, false),
        (s3.1, fatal_diags(s3.1)),
        (s35.1, fatal_diags(s35.1)),
        (e4, fatal_diags(e4)),
        (e5, e5.len() > 0),
        (s6.1, fatal_diags(s6.1)),
    ]
}

/// A run that got past the front stages.
pub struct FrontRun {
    /// The config after variant resolution.
    pub config: RawConfig,
    /// The diagnostics so far.
    pub errors: Vec<ValidationError>,
    /// The variant resolution.
    pub resolution: VariantResolution,
    /// The parsed esphome block.
    pub preload: PreloadContext,
    /// The distinct registered component ids the config references.
    pub direct: Vec<String>,
}

/// Append a stage's diagnostics to the run's; `true` when one is fatal.
fn absorb_diags(all: &mut Vec<ValidationError>, e: Vec<ValidationError>) -> (stop: bool)
    ensures
        diags(final(all)@) == diags(old(all)@) + diags(e@),
        stop == fatal_diags(diags(e@)),
{
    let ghost ev = e@;
    proof {
        lemma_fatal_diags(ev);
    }
    let stop = absorb_stage(all, e);
    proof {
        assert(diags(all@) =~= diags(old(all)@) + diags(ev));
    }
    stop
}


/// The preload context matches the esphome block.
pub open spec fn preload_matches(ctx: PreloadContext, e: EsphomeBlock) -> bool {
    &&& Some(ctx.chip_target) == chip_of(normalized(e.platform@))
    &&& ctx.board@ == e.board@
    &&& ctx.framework_type == match e.framework {
        Some(fw) => framework_of(normalized(fw.framework_type@))->Some_0,
        None => FrameworkType::EspIdf,
    }
    &&& opt_view(ctx.framework_version) == match e.framework {
        Some(fw) => opt_view(fw.version),
        None => None,
    }
}

/// The variant resolution matches the config and its solution's variants.
pub open spec fn resolution_matches(
    r: VariantResolution,
    e: EsphomeBlock,
    variants: Option<Seq<SolutionVariant>>,
) -> bool {
    &&& opt_view(r.solution_id) == opt_view(e.solution)
    &&& match selected_variant(e, variants) {
        Some(v) => {
            &&& opt_view(r.variant_id) == opt_view(e.solution_variant)
            &&& r.active_flag_add@ == v.active_flag_add@
            &&& r.active_flag_remove@ == v.active_flag_remove@
        },
        None => {
            &&& r.variant_id is None
            &&& r.active_flag_add@.len() == 0
            &&& r.active_flag_remove@.len() == 0
        },
    }
}

/// The variants as plain sequences.
pub open spec fn variants_view(variants: Option<&Vec<SolutionVariant>>) -> Option<Seq<SolutionVariant>> {
    match variants {
        Some(v) => Some(v@),
        None => None,
    }
}

impl ValidationPipeline {
    /// The front stages of a run: package merge, substitutions,
    /// extend/remove, variant resolution (`variants` are the solution
    /// registry's variants of the config's solution, `None` when it has
    /// none or the config names no solution), external sources, the esphome
    /// block and the direct component references. `Err` carries the
    /// diagnostics of a run that stopped; `Ok` the run's state.
    #[verifier::rlimit(60)]
    #[verifier::spinoff_prover]
    pub fn validate_front(
        &self,
        config: RawConfig,
        store: &PackageStore,
        variants: Option<&Vec<SolutionVariant>>,
    ) -> (r: Result<FrontRun, Vec<ValidationError>>)
        ensures
            ({
                let vs = variants_view(variants);
                let st = front_stages(
                    config,
                    store.packages@,
                    vs,
                    strs_view(self.allow_list.allowed_prefixes@),
                    self.catalog.entries@,
                );
                match r {
                    Err(all) => stops_before(st, 7) && diags(all@) == run_errors(st, 7),
                    Ok(run) => {
                        let cs = front_components(config, store.packages@, vs);
                        &&& !stops_before(st, 7)
                        &&& diags(run.errors@) == run_errors(st, 7)
                        &&& comps_view(run.config.components@) == cs
                        &&& run.config.esphome == config.esphome
                        &&& run.config.packages == config.packages
                        &&& run.config.substitutions@ == merged_substitutions(
                            store.packages@,
                            config.packages@,
                            config.substitutions@,
                        )
                        &&& strs_view(run.direct@) == load_direct(cs, self.catalog.entries@, cs.len() as int).0
                        &&& preload_matches(run.preload, config.esphome)
                        &&& resolution_matches(run.resolution, config.esphome, vs)
                    },
                }
            }),
    {
        let ghost c0 = config;
        let ghost vs = variants_view(variants);
        let ghost st = front_stages(
            config,
            store.packages@,
            vs,
            strs_view(self.allow_list.allowed_prefixes@),
            self.catalog.entries@,
        );
        let ghost cs1 = comps_view(c0.components@) + merged_components(store.packages@, c0.packages@);
        let ghost subs1 = merged_substitutions(store.packages@, c0.packages@, c0.substitutions@);
        let ghost s2 = subst_components(cs1, subs1, cs1.len() as int);
        let ghost s3 = process_directives(s2.0, 0, Seq::empty());
        let ghost s35 = variant_overlay(s3.0, c0.esphome, vs);
        let mut config = config;
        let mut all: Vec<ValidationError> = Vec::new();
        proof {
            assert(diags(all@) =~= run_errors(st, 0));
        }
        // Stage 1: packages.
        let e = stage_1_merge_packages(&mut config, store);
        let stop = absorb_diags(&mut all, e);
        proof {
            assert(st[0].0 == merge_errors(store.packages@, c0.packages@));
            lemma_run_step(st, 0);
            assert(diags(all@) =~= run_errors(st, 1));
        }
        if stop {
            proof {
                lemma_run_stopped(st, 1, 7);
            }
            return Err(all);
        }
        // Stage 2: substitutions, never stopping.
        proof {
            assert(comps_view(config.components@) == cs1);
            assert(config.substitutions@ == subs1);
        }
        let e = stage_2_apply_substitutions(&mut config);
        let _ = absorb_diags(&mut all, e);
        proof {
            assert(st[1] == (s2.1, false));
            lemma_run_step(st, 1);
            assert(diags(all@) =~= run_errors(st, 2));
            assert(comps_view(config.components@) == s2.0);
        }
        // Stage 3: extend/remove.
        let e = stage_3_process_extend_remove(&mut config);
        let stop = absorb_diags(&mut all, e);
        proof {
            assert(st[2] == (s3.1, fatal_diags(s3.1)));
            lemma_run_step(st, 2);
            assert(diags(all@) =~= run_errors(st, 3));
            assert(comps_view(config.components@) == s3.0);
        }
        if stop {
            proof {
                lemma_run_stopped(st, 3, 7);
            }
            return Err(all);
        }
        // Stage 3.5: variant resolution.
        let (resolution, e) = stage_3_5_resolve_variant(&mut config, variants);
        proof {
            assert(comps_view(config.components@) == s35.0);
            assert(diags(e@) == s35.1);
            assert(resolution_matches(resolution, c0.esphome, vs));
        }
        let stop = absorb_diags(&mut all, e);
        proof {
            assert(st[3] == (s35.1, fatal_diags(s35.1)));
            lemma_run_step(st, 3);
            assert(diags(all@) =~= run_errors(st, 4));
        }
        if stop {
            proof {
                lemma_run_stopped(st, 4, 7);
            }
            return Err(all);
        }
        // Stage 4: external sources.
        let e = stage_4_resolve_external_components(&config, &self.allow_list);
        let stop = absorb_diags(&mut all, e);
        proof {
            assert(st[4].0 == external_errors(c0.esphome, s35.0, strs_view(self.allow_list.allowed_prefixes@)));
            lemma_run_step(st, 4);
            assert(diags(all@) =~= run_errors(st, 5));
        }
        if stop {
            proof {
                lemma_run_stopped(st, 5, 7);
            }
            return Err(all);
        }
        // Stage 5: the esphome block.
        let preload = match stage_5_preload_esphome_block(&config) {
            Ok(ctx) => {
                proof {
                    assert(st[5] == (preload_errors(c0.esphome), preload_errors(c0.esphome).len() > 0));
                    lemma_run_step(st, 5);
                    assert(diags(all@) =~= run_errors(st, 6));
                }
                ctx
            },
            Err(errs) => {
                let _ = absorb_diags(&mut all, errs);
                proof {
                    assert(st[5] == (preload_errors(c0.esphome), preload_errors(c0.esphome).len() > 0));
                    lemma_run_step(st, 5);
                    assert(diags(all@) =~= run_errors(st, 6));
                    lemma_run_stopped(st, 6, 7);
                }
                return Err(all);
            },
        };
        // Stage 6: direct component references.
        let (direct, e) = stage_6_load_components(&config, &self.catalog);
        let stop = absorb_diags(&mut all, e);
        proof {
            assert(st[6].0 == load_direct(s35.0, self.catalog.entries@, s35.0.len() as int).1);
            lemma_run_step(st, 6);
            assert(diags(all@) =~= run_errors(st, 7));
        }
        if stop {
            return Err(all);
        }
        Ok(FrontRun { config, errors: all, resolution, preload, direct })
    }
}


// ── Resolved stages ───────────────────────────────────────────────────────────

/// The components after id resolution: each given its generated id.
pub open spec fn id_components(cs: Seq<ComponentView>) -> Seq<ComponentView> {
    let n = cs.len() as int;
    generate_ids(cs, collect_ids(cs, n).0, n).0
}

/// The stages after AUTO_LOAD expansion, as run on the components `cs` and
/// the expanded ids `resolved`: the dependency and conflict checks of the
/// expanded ids, the component schemas and the id resolution; each with its
/// diagnostics and whether it stops the run.
pub open spec fn resolved_stages(
    cs: Seq<ComponentView>,
    resolved: Seq<Seq<char>>,
    es: Seq<CatalogEntry>,
) -> Seq<(Seq<DiagnosticView>, bool)> {
    let n = resolved.len() as int;
    let e6 = resolved_errors(resolved, es, false, n) + resolved_errors(resolved, es, true, n);
    let e7 = schema_errors(cs, cs.len() as int);
    let m = cs.len() as int;
    let p1 = collect_ids(cs, m);
    let p2 = generate_ids(cs, p1.0, m);
    let e8 = p1.1 + cross_all(p2.0, view_ids(p2.1), m);
    seq![(e6, fatal_diags(e6)), (e7, fatal_diags(e7)), (e8, fatal_diags(e8))]
}

/// A run that got past id resolution.
pub struct CheckedRun {
    /// The config after id resolution.
    pub config: RawConfig,
    /// The diagnostics so far.
    pub errors: Vec<ValidationError>,
    /// The variant resolution.
    pub resolution: VariantResolution,
    /// The parsed esphome block.
    pub preload: PreloadContext,
    /// The AUTO_LOAD expansion of the direct component ids.
    pub resolved: Vec<String>,
}

impl ValidationPipeline {
    /// The stages after AUTO_LOAD expansion: `resolved` is the registry's
    /// expansion of `run.direct`. Checks the expanded ids' dependencies and
    /// conflicts, the component schemas, and resolves ids. `Err` carries
    /// the diagnostics of a run that stopped; `Ok` the run's state.
    #[verifier::rlimit(40)]
    #[verifier::spinoff_prover]
    pub fn validate_resolved(&self, run: FrontRun, resolved: Vec<String>) -> (r: Result<CheckedRun, Vec<ValidationError>>)
        ensures
            ({
                let cs = comps_view(run.config.components@);
                let st = resolved_stages(cs, strs_view(resolved@), self.catalog.entries@);
                let all = diags(run.errors@) + run_errors(st, 3);
                match r {
                    Err(e) => stops_before(st, 3) && diags(e@) == all,
                    Ok(next) => {
                        &&& !stops_before(st, 3)
                        &&& diags(next.errors@) == all
                        &&& comps_view(next.config.components@) == id_components(cs)
                        &&& next.config.esphome == run.config.esphome
                        &&& next.config.packages == run.config.packages
                        &&& next.config.substitutions == run.config.substitutions
                        &&& next.resolution == run.resolution
                        &&& next.preload == run.preload
                        &&& next.resolved == resolved
                    },
                }
            }),
    {
        let FrontRun { config, errors, resolution, preload, direct: _ } = run;
        let ghost prior = diags(errors@);
        let ghost cs = comps_view(config.components@);
        let ghost st = resolved_stages(cs, strs_view(resolved@), self.catalog.entries@);
        let mut config = config;
        let mut all = errors;
        proof {
            assert(diags(all@) =~= prior + run_errors(st, 0));
        }
        let e = stage_6_check_resolved(&resolved, &self.catalog);
        let stop = absorb_diags(&mut all, e);
        proof {
            lemma_run_step(st, 0);
            assert(diags(all@) =~= prior + run_errors(st, 1));
        }
        if stop {
            proof {
                lemma_run_stopped(st, 1, 3);
            }
            return Err(all);
        }
        let e = stage_7_validate_schemas(&config);
        let stop = absorb_diags(&mut all, e);
        proof {
            lemma_run_step(st, 1);
            assert(diags(all@) =~= prior + run_errors(st, 2));
        }
        if stop {
            proof {
                lemma_run_stopped(st, 2, 3);
            }
            return Err(all);
        }
        let (_table, e) = stage_8_resolve_ids(&mut config);
        let stop = absorb_diags(&mut all, e);
        proof {
            lemma_run_step(st, 2);
            assert(diags(all@) =~= prior + run_errors(st, 3));
        }
        if stop {
            return Err(all);
        }
        Ok(CheckedRun { config, errors: all, resolution, preload, resolved })
    }
}


// ── Final stages ──────────────────────────────────────────────────────────────

/// What the catalog records of `id` as graph edges: its dependencies, then
/// its AUTO_LOAD list.
pub open spec fn catalog_edges(es: Seq<CatalogEntry>, id: Seq<char>) -> Seq<Seq<char>> {
    match catalog_get(es, id) {
        Some(d) => strs_view(d.dependencies@) + strs_view(d.auto_load@),
        None => Seq::empty(),
    }
}

/// The dependencies of `k` in the catalog graph of the first `n` ids.
pub open spec fn fallback_deps(ids: Seq<Seq<char>>, es: Seq<CatalogEntry>, k: Seq<char>, n: int) -> Seq<Seq<char>>
    decreases n,
{
    if n <= 0 || n > ids.len() {
        Seq::empty()
    } else {
        fallback_deps(ids, es, k, n - 1) + if ids[n - 1] == k {
            catalog_edges(es, k)
        } else {
            Seq::empty()
        }
    }
}

/// The dependency graph the catalog gives the resolved ids, with its
/// dependency order: each id depends on its dependencies and its AUTO_LOAD
/// components.
pub fn fallback_graph(resolved: &Vec<String>, catalog: &ComponentCatalog) -> (g: DependencyGraph)
    ensures
        forall|k: Seq<char>|
            #[trigger] deps_of(edges_view(g.edges@), k) == fallback_deps(
                strs_view(resolved@),
                catalog.entries@,
                k,
                resolved@.len() as int,
            ),
        dependency_order(edges_view(g.edges@), strs_view(g.order@)),
{
    let ghost ids = strs_view(resolved@);
    let ghost es = catalog.entries@;
    let mut g = DependencyGraph::new();
    proof {
        assert forall|k: Seq<char>| #[trigger] deps_of(edges_view(g.edges@), k) == fallback_deps(ids, es, k, 0) by {
            assert(edges_view(g.edges@).len() == 0);
        }
    }
    let mut i: usize = 0;
    while i < resolved.len()
        invariant
            i <= resolved@.len(),
            ids == strs_view(resolved@),
            es == catalog.entries@,
            forall|k: Seq<char>| #[trigger] deps_of(edges_view(g.edges@), k) == fallback_deps(ids, es, k, i as int),
        decreases resolved@.len() - i,
    {
        let id = resolved[i].as_str();
        let ghost idv = ids[i as int];
        match catalog.get(id) {
            Some(def) => {
                let ghost dv = strs_view(def.dependencies@);
                let ghost av = strs_view(def.auto_load@);
                let mut j: usize = 0;
                while j < def.dependencies.len()
                    invariant
                        j <= def.dependencies@.len(),
                        id@ == idv,
                        dv == strs_view(def.dependencies@),
                        forall|k: Seq<char>|
                            #[trigger] deps_of(edges_view(g.edges@), k) == fallback_deps(ids, es, k, i as int) + if k
                                == idv {
                                dv.subrange(0, j as int)
                            } else {
                                Seq::empty()
                            },
                    decreases def.dependencies@.len() - j,
                {
                    let ghost e0 = edges_view(g.edges@);
                    g.add_dependency(id, def.dependencies[j].as_str());
                    proof {
                        assert forall|k: Seq<char>|
                            #[trigger] deps_of(edges_view(g.edges@), k) == fallback_deps(ids, es, k, i as int) + if k
                                == idv {
                                dv.subrange(0, j + 1)
                            } else {
                                Seq::empty()
                            } by {
                            if k == idv {
                                assert(deps_of(e0, k) == fallback_deps(ids, es, k, i as int) + dv.subrange(0, j as int));
                                assert(dv.subrange(0, j + 1) =~= dv.subrange(0, j as int).push(dv[j as int]));
                                assert(deps_of(edges_view(g.edges@), k) =~= fallback_deps(ids, es, k, i as int)
                                    + dv.subrange(0, j + 1));
                            } else {
                                assert(deps_of(e0, k) == fallback_deps(ids, es, k, i as int) + Seq::<Seq<char>>::empty());
                            }
                        }
                    }
                    j = j + 1;
                }
                let mut j: usize = 0;
                while j < def.auto_load.len()
                    invariant
                        j <= def.auto_load@.len(),
                        id@ == idv,
                        dv == strs_view(def.dependencies@),
                        av == strs_view(def.auto_load@),
                        forall|k: Seq<char>|
                            #[trigger] deps_of(edges_view(g.edges@), k) == fallback_deps(ids, es, k, i as int) + if k
                                == idv {
                                dv + av.subrange(0, j as int)
                            } else {
                                Seq::empty()
                            },
                    decreases def.auto_load@.len() - j,
                {
                    let ghost e0 = edges_view(g.edges@);
                    g.add_dependency(id, def.auto_load[j].as_str());
                    proof {
                        assert forall|k: Seq<char>|
                            #[trigger] deps_of(edges_view(g.edges@), k) == fallback_deps(ids, es, k, i as int) + if k
                                == idv {
                                dv + av.subrange(0, j + 1)
                            } else {
                                Seq::empty()
                            } by {
                            if k == idv {
                                assert(deps_of(e0, k) == fallback_deps(ids, es, k, i as int) + (dv + av.subrange(
                                    0,
                                    j as int,
                                )));
                                assert(dv + av.subrange(0, j + 1) =~= (dv + av.subrange(0, j as int)).push(av[j as int]));
                                assert(deps_of(edges_view(g.edges@), k) =~= fallback_deps(ids, es, k, i as int) + (dv
                                    + av.subrange(0, j + 1)));
                            } else {
                                assert(deps_of(e0, k) == fallback_deps(ids, es, k, i as int) + Seq::<Seq<char>>::empty());
                            }
                        }
                    }
                    j = j + 1;
                }
                proof {
                    assert(catalog_edges(es, idv) == dv + av);
                    assert forall|k: Seq<char>|
                        #[trigger] deps_of(edges_view(g.edges@), k) == fallback_deps(ids, es, k, i + 1) by {
                        if k == idv {
                            assert(av.subrange(0, av.len() as int) =~= av);
                            assert(deps_of(edges_view(g.edges@), k) == fallback_deps(ids, es, k, i as int) + (dv + av));
                        } else {
                            assert(deps_of(edges_view(g.edges@), k) == fallback_deps(ids, es, k, i as int)
                                + Seq::<Seq<char>>::empty());
                            assert(fallback_deps(ids, es, k, i + 1) =~= fallback_deps(ids, es, k, i as int));
                        }
                    }
                }
            },
            None => {
                proof {
                    assert forall|k: Seq<char>|
                        #[trigger] deps_of(edges_view(g.edges@), k) == fallback_deps(ids, es, k, i + 1) by {
                        assert(fallback_deps(ids, es, k, i + 1) =~= fallback_deps(ids, es, k, i as int));
                    }
                }
            },
        }
        i = i + 1;
    }
    g.compute_order();
    g
}

/// What the final stages need from the registries and the host.
pub struct FinalInputs {
    /// The solution registry's bundle for the config's solution, when it knows it.
    pub solution: Option<SolutionBundle>,
    /// The diagnostics of the climate visual checks.
    pub climate_errors: Vec<ValidationError>,
    /// The parse of the first `sigrok` component's config, when there is one.
    pub sigrok: Option<Result<SigrokConfig, String>>,
    /// The diagnostics of the pin-conflict check.
    pub pin_errors: Vec<ValidationError>,
    /// The pins the pin-conflict check allocated.
    pub pin_allocations: Vec<PinAllocation>,
    /// The AUTO_LOAD expansion of the configured components' effective ids.
    pub expanded: Vec<String>,
    /// The profile registry's definition of the config's profile, when it knows it.
    pub profile: Option<ProfileInfo>,
    /// For each resolved id, whether the feature-flag set holds its flag.
    pub id_flag_present: Vec<bool>,
    /// For each entity flag candidate, whether the feature-flag set holds it.
    pub candidate_flag_present: Vec<bool>,
    /// The registry's dependency graph of the resolved ids, `None` when it
    /// could not build one (a cycle).
    pub dag: Option<DependencyGraph>,
}

/// The final stages as run on `c`: cross-component checks, pin conflicts,
/// exclusive groups, the profile and secret fields; each with its
/// diagnostics and whether it stops the run.
pub open spec fn final_stages(c: RawConfig, inputs: FinalInputs, es: Seq<CatalogEntry>) -> Seq<
    (Seq<DiagnosticView>, bool),
> {
    let expanded = strs_view(inputs.expanded@);
    let e9 = final_errors(c, inputs.solution, diags(inputs.climate_errors@), inputs.sigrok);
    let e10 = diags(inputs.pin_errors@);
    let gs = group_members(expanded, es, expanded.len() as int);
    let e11 = group_errors(gs, gs.len() as int);
    let e12 = profile_errors(c.esphome.profile, inputs.profile, expanded);
    let cs = comps_view(c.components@);
    let e13 = secrets_errors(cs, es, cs.len() as int);
    seq![
        (e9, fatal_diags(e9)),
        (e10, fatal_diags(e10)),
        (e11, fatal_diags(e11)),
        (e12, fatal_diags(e12)),
        (e13, fatal_diags(e13)),
    ]
}

/// The validated esphome block of a run.
pub open spec fn esphome_built(b: ValidatedEsphomeBlock, run: CheckedRun) -> bool {
    let e = run.config.esphome;
    &&& b.name@ == e.name@
    &&& b.chip_target == run.preload.chip_target
    &&& b.board@ == run.preload.board@
    &&& opt_view(b.friendly_name) == opt_view(e.friendly_name)
    &&& b.framework_type == run.preload.framework_type
    &&& match e.project {
        Some(p) => b.project is Some && b.project->Some_0.name@ == p.name@ && b.project->Some_0.version@
            == p.version@,
        None => b.project is None,
    }
    &&& opt_view(b.solution_id) == opt_view(e.solution)
    &&& opt_view(b.solution_variant_id) == opt_view(run.resolution.variant_id)
}

fn copy_string_opt(o: &Option<String>) -> (r: Option<String>)
    ensures
        opt_view(r) == opt_view(*o),
{
    match o {
        Some(s) => Some(s.clone()),
        None => None,
    }
}

impl ValidationPipeline {
    /// The final stages and the validated config: cross-component checks,
    /// pin conflicts, exclusive groups, the profile and secret fields, with
    /// the registry and host results in `inputs`. The run is invalid when a
    /// stage stops it or when any diagnostic so far is fatal; otherwise it
    /// carries every diagnostic of the run, and the validated config holds
    /// the esphome block, the component list, the active flags, the allocated pins and the dependency graph (the
    /// registry's, or the catalog's when the registry could not build one).
    #[verifier::rlimit(60)]
    #[verifier::spinoff_prover]
    pub fn validate_final(&self, run: CheckedRun, inputs: FinalInputs) -> (r: ValidationResult)
        requires
            inputs.id_flag_present@.len() == run.resolved@.len(),
            inputs.candidate_flag_present@.len() == flag_candidates().len(),
        ensures
            ({
                let st = final_stages(run.config, inputs, self.catalog.entries@);
                let all = diags(run.errors@) + run_errors(st, 5);
                match r {
                    ValidationResult::Invalid(e) => {
                        &&& diags(e@) == all
                        &&& stops_before(st, 5) || fatal_diags(all)
                    },
                    ValidationResult::Valid(v, d) => {
                        let ids = strs_view(run.resolved@);
                        &&& !stops_before(st, 5)
                        &&& !fatal_diags(all)
                        &&& diags(d@) == all
                        &&& esphome_built(v.esphome, run)
                        &&& components_built(v.components@, comps_view(run.config.components@), ids)
                        &&& strictly_sorted(strs_view(v.active_flags@))
                        &&& forall|f: Seq<char>|
                            strs_view(v.active_flags@).contains(f) <==> wanted_flag(
                                ids,
                                inputs.id_flag_present@,
                                inputs.candidate_flag_present@,
                                strs_view(run.resolution.active_flag_add@),
                                strs_view(run.resolution.active_flag_remove@),
                                f,
                            )
                        &&& v.pin_allocations == inputs.pin_allocations
                        &&& match inputs.dag {
                            Some(g) => v.dependency_graph == g,
                            None => {
                                &&& forall|k: Seq<char>|
                                    #[trigger] deps_of(edges_view(v.dependency_graph.edges@), k) == fallback_deps(
                                        ids,
                                        self.catalog.entries@,
                                        k,
                                        ids.len() as int,
                                    )
                                &&& dependency_order(
                                    edges_view(v.dependency_graph.edges@),
                                    strs_view(v.dependency_graph.order@),
                                )
                            },
                        }
                    },
                }
            }),
    {
        let ghost run0 = run;
        let ghost inputs0 = inputs;
        let ghost st = final_stages(run.config, inputs, self.catalog.entries@);
        let ghost prior = diags(run.errors@);
        let CheckedRun { config, errors, resolution, preload, resolved } = run;
        let FinalInputs {
            solution,
            climate_errors,
            sigrok,
            pin_errors,
            pin_allocations,
            expanded,
            profile,
            id_flag_present,
            candidate_flag_present,
            dag,
        } = inputs;
        let mut all = errors;
        proof {
            assert(diags(all@) =~= prior + run_errors(st, 0));
        }
        let bundle = match &solution {
            Some(b) => Some(b),
            None => None,
        };
        let e = stage_9_final_validation(&config, bundle, climate_errors, sigrok);
        let stop = absorb_diags(&mut all, e);
        proof {
            lemma_run_step(st, 0);
            assert(diags(all@) =~= prior + run_errors(st, 1));
        }
        if stop {
            proof {
                lemma_run_stopped(st, 1, 5);
            }
            return ValidationResult::Invalid(all);
        }
        let stop = absorb_diags(&mut all, pin_errors);
        proof {
            lemma_run_step(st, 1);
            assert(diags(all@) =~= prior + run_errors(st, 2));
        }
        if stop {
            proof {
                lemma_run_stopped(st, 2, 5);
            }
            return ValidationResult::Invalid(all);
        }
        let e = stage_11_check_exclusive_groups(&expanded, &self.catalog);
        let stop = absorb_diags(&mut all, e);
        proof {
            lemma_run_step(st, 2);
            assert(diags(all@) =~= prior + run_errors(st, 3));
        }
        if stop {
            proof {
                lemma_run_stopped(st, 3, 5);
            }
            return ValidationResult::Invalid(all);
        }
        let prof = match &profile {
            Some(p) => Some(p),
            None => None,
        };
        let e = stage_12_validate_profile(&config, prof, &expanded);
        let stop = absorb_diags(&mut all, e);
        proof {
            lemma_run_step(st, 3);
            assert(diags(all@) =~= prior + run_errors(st, 4));
        }
        if stop {
            proof {
                lemma_run_stopped(st, 4, 5);
            }
            return ValidationResult::Invalid(all);
        }
        let e = stage_13_check_secret_fields(&config, &self.catalog);
        let stop = absorb_diags(&mut all, e);
        proof {
            lemma_run_step(st, 4);
            assert(diags(all@) =~= prior + run_errors(st, 5));
        }
        if stop {
            return ValidationResult::Invalid(all);
        }
        let active_flags = assemble_active_flags(
            &resolved,
            &id_flag_present,
            &candidate_flag_present,
            &resolution.active_flag_add,
            &resolution.active_flag_remove,
        );
        let dependency_graph = match dag {
            Some(g) => g,
            None => fallback_graph(&resolved, &self.catalog),
        };
        let components = build_validated_components(&config, &resolved);
        let e = &config.esphome;
        let project = match &e.project {
            Some(p) => Some(ValidatedProjectConfig { name: p.name.clone(), version: p.version.clone() }),
            None => None,
        };
        let esphome = ValidatedEsphomeBlock {
            name: e.name.clone(),
            chip_target: preload.chip_target,
            board: preload.board,
            friendly_name: copy_string_opt(&e.friendly_name),
            framework_type: preload.framework_type,
            project,
            solution_id: copy_string_opt(&e.solution),
            solution_variant_id: copy_string_opt(&resolution.variant_id),
        };
        proof {
            lemma_fatal_diags(all@);
        }
        if crate::error::has_errors(all.as_slice()) {
            return ValidationResult::Invalid(all);
        }
        ValidationResult::Valid(
            Box::new(ValidatedConfig { esphome, components, active_flags, pin_allocations, dependency_graph }),
            all,
        )
    }
}

} // verus!
