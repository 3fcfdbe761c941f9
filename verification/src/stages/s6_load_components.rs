//! Stage 6 — component loading.
//!
//! Every referenced component must be known to the registry; once the
//! AUTO_LOAD expansion is known, every component's dependencies must be
//! present and none of its conflicts.
use vstd::prelude::*;
use crate::catalog::{ComponentCatalog, CatalogEntry, catalog_get, contains_str};
use crate::error::{ValidationError, ValidationStage, Severity, DiagnosticView, diag, diag_hint, diags};
use crate::raw::{RawConfig, ComponentConfig, ComponentView, comps_view};
use crate::stages::s2_substitutions::index_path;
use crate::text::{
    chars_of, concat2, concat3, concat5, owned, byte_len, utf8_len, strs_view, u64_to_decimal,
};

verus! {

/// The id a component is registered under: its non-empty platform, else its type.
pub open spec fn effective_id(c: ComponentView) -> Seq<char> {
    match c.platform {
        Some(p) => if p.len() > 0 {
            p
        } else {
            c.component_type
        },
        None => c.component_type,
    }
}

/// Compute the effective component id of a component: the platform name for
/// platform components (`"dht"` for sensor/dht), else the component type.
pub fn component_effective_id(comp: &ComponentConfig) -> (r: String)
    ensures
        r@ == effective_id(comp@),
{
    if let Some(platform) = &comp.platform {
        if platform.unicode_len() > 0 {
            return platform.clone();
        }
    }
    comp.component_type.clone()
}

/// The smaller of two naturals.
pub open spec fn min_nat(a: nat, b: nat) -> nat {
    if a <= b {
        a
    } else {
        b
    }
}

/// Levenshtein distance of two character sequences, by the recurrence on
/// their last characters.
pub open spec fn lev(a: Seq<char>, b: Seq<char>) -> nat
    decreases a.len() + b.len(),
{
    if a.len() == 0 {
        b.len()
    } else if b.len() == 0 {
        a.len()
    } else if a.last() == b.last() {
        lev(a.drop_last(), b.drop_last())
    } else {
        1 + min_nat(
            min_nat(lev(a.drop_last(), b), lev(a, b.drop_last())),
            lev(a.drop_last(), b.drop_last()),
        )
    }
}

/// The distance is at most the longer length.
pub proof fn lemma_lev_bound(a: Seq<char>, b: Seq<char>)
    ensures
        lev(a, b) <= if a.len() >= b.len() {
            a.len()
        } else {
            b.len()
        },
    decreases a.len() + b.len(),
{
    if a.len() > 0 && b.len() > 0 {
        lemma_lev_bound(a.drop_last(), b.drop_last());
        lemma_lev_bound(a.drop_last(), b);
        lemma_lev_bound(a, b.drop_last());
    }
}

/// Simple character-level edit distance (Levenshtein).
pub fn edit_distance(a: &str, b: &str) -> (r: usize)
    ensures
        r == lev(a@, b@),
{
    let av = chars_of(a);
    let bv = chars_of(b);
    let n = av.len();
    let m = bv.len();
    // prev[k] = lev(a[..i], b[..k]) for the current row i.
    let mut prev: Vec<usize> = Vec::new();
    prev.push(0);
    let mut j: usize = 0;
    while j < m
        invariant
            j <= m,
            m == bv@.len(),
            prev@.len() == j + 1,
            forall|k: int| 0 <= k <= j ==> prev@[k] == lev(Seq::<char>::empty(), #[trigger] bv@.subrange(0, k)),
        decreases m - j,
    {
        j = j + 1;
        prev.push(j);
    }
    let mut i: usize = 0;
    while i < n
        invariant
            i <= n,
            n == av@.len(),
            m == bv@.len(),
            prev@.len() == m + 1,
            forall|k: int|
                0 <= k <= m ==> prev@[k] == lev(
                    av@.subrange(0, i as int),
                    #[trigger] bv@.subrange(0, k),
                ),
        decreases n - i,
    {
        i = i + 1;
        let ghost ai = av@.subrange(0, i as int);
        let ghost ap = av@.subrange(0, i - 1);
        proof {
            assert(ai.drop_last() =~= ap);
        }
        let mut cur: Vec<usize> = Vec::new();
        cur.push(i);
        proof {
            assert(lev(ai, bv@.subrange(0, 0)) == i);
        }
        let mut j: usize = 0;
        while j < m
            invariant
                1 <= i <= n,
                j <= m,
                n == av@.len(),
                m == bv@.len(),
                ai == av@.subrange(0, i as int),
                ap == av@.subrange(0, i - 1),
                ai.drop_last() == ap,
                prev@.len() == m + 1,
                cur@.len() == j + 1,
                forall|k: int|
                    0 <= k <= m ==> prev@[k] == lev(ap, #[trigger] bv@.subrange(0, k)),
                forall|k: int| 0 <= k <= j ==> cur@[k] == lev(ai, #[trigger] bv@.subrange(0, k)),
            decreases m - j,
        {
            j = j + 1;
            let ghost bj = bv@.subrange(0, j as int);
            let ghost bp = bv@.subrange(0, j - 1);
            proof {
                assert(bj.drop_last() =~= bp);
                assert(ai.last() == av@[i - 1]);
                assert(bj.last() == bv@[j - 1]);
                lemma_lev_bound(ap, bj);
                lemma_lev_bound(ai, bp);
                lemma_lev_bound(ap, bp);
            }
            let v = if av[i - 1] == bv[j - 1] {
                prev[j - 1]
            } else {
                let up = prev[j];
                let left = cur[j - 1];
                let diag = prev[j - 1];
                let mut best = if up <= left {
                    up
                } else {
                    left
                };
                if diag < best {
                    best = diag;
                }
                proof {
                    assert(best <= (if n >= m { n } else { m }));
                }
                1 + best
            };
            cur.push(v);
        }
        prev = cur;
    }
    proof {
        assert(av@.subrange(0, n as int) =~= a@);
        assert(bv@.subrange(0, m as int) =~= b@);
    }
    prev[m]
}

/// The index and distance of the first entry whose id is closest to `id`
/// among the first `n` entries within `threshold`, if any.
pub open spec fn closest_among(
    id: Seq<char>,
    es: Seq<CatalogEntry>,
    threshold: nat,
    n: int,
) -> Option<(int, nat)>
    decreases n,
{
    if n <= 0 || n > es.len() {
        None
    } else {
        let prev = closest_among(id, es, threshold, n - 1);
        let d = lev(id, es[n - 1].id@);
        if d <= threshold && (prev is None || d < prev->Some_0.1) {
            Some((n - 1, d))
        } else {
            prev
        }
    }
}

/// The suggestion threshold: a third of the id's byte length, at least 1.
pub open spec fn match_threshold(id: Seq<char>) -> nat {
    if utf8_len(id) / 3 >= 1 {
        utf8_len(id) / 3
    } else {
        1
    }
}

/// The registered id closest to `id` by edit distance, within the threshold;
/// the first of several equally close ones.
pub fn closest_match(id: &str, catalog: &ComponentCatalog) -> (r: Option<String>)
    ensures
        match closest_among(id@, catalog.entries@, match_threshold(id@), catalog.entries@.len() as int) {
            Some((k, _)) => r is Some && r->Some_0@ == catalog.entries@[k].id@,
            None => r is None,
        },
{
    let third = byte_len(id) / 3;
    let threshold = if third >= 1 {
        third
    } else {
        1
    };
    let mut best: Option<(usize, usize)> = None;
    let mut i: usize = 0;
    while i < catalog.entries.len()
        invariant
            i <= catalog.entries@.len(),
            threshold == match_threshold(id@),
            match best {
                Some((k, d)) => closest_among(id@, catalog.entries@, threshold as nat, i as int)
                    == Some((k as int, d as nat)) && k < i,
                None => closest_among(id@, catalog.entries@, threshold as nat, i as int) is None,
            },
        decreases catalog.entries@.len() - i,
    {
        let d = edit_distance(id, catalog.entries[i].id.as_str());
        if d <= threshold {
            match best {
                None => {
                    best = Some((i, d));
                },
                Some((_, bd)) => {
                    if d < bd {
                        best = Some((i, d));
                    }
                },
            }
        }
        i = i + 1;
    }
    match best {
        Some((k, _)) => Some(catalog.entries[k].id.clone()),
        None => None,
    }
}

/// The id closest to `id` among the registry's, if any is close enough.
pub open spec fn closest_id(id: Seq<char>, es: Seq<CatalogEntry>) -> Option<Seq<char>> {
    match closest_among(id, es, match_threshold(id), es.len() as int) {
        Some((k, _)) => Some(es[k].id@),
        None => None,
    }
}

/// The error for component `i` whose id the registry does not know.
pub open spec fn unknown_component_diag(i: int, id: Seq<char>, near: Option<Seq<char>>) -> DiagnosticView {
    DiagnosticView {
        path: index_path("components"@, i),
        message: "unknown component '"@ + id + "'"@,
        severity: Severity::Error,
        suggestion: match near {
            Some(m) => Some("Did you mean '"@ + m + "'?"@),
            None => None,
        },
        stage: ValidationStage::ComponentLoading,
    }
}

/// The error for component `i` whose platform is unknown.
pub open spec fn unknown_platform_diag(i: int, p: Seq<char>, t: Seq<char>) -> DiagnosticView {
    diag(
        ValidationStage::ComponentLoading,
        Severity::Error,
        index_path("components"@, i) + ".platform"@,
        "unknown platform '"@ + p + "' for component '"@ + t + "'"@,
    )
}

/// The distinct registered ids of the first `n` components, in order, and
/// the diagnostics for unknown components and platforms.
pub open spec fn load_direct(cs: Seq<ComponentView>, es: Seq<CatalogEntry>, n: int) -> (
    Seq<Seq<char>>,
    Seq<DiagnosticView>,
)
    decreases n,
{
    if n <= 0 || n > cs.len() {
        (Seq::empty(), Seq::empty())
    } else {
        let prev = load_direct(cs, es, n - 1);
        let c = cs[n - 1];
        let id = effective_id(c);
        match catalog_get(es, id) {
            None => (prev.0, prev.1.push(unknown_component_diag(n - 1, id, closest_id(id, es)))),
            Some(def) => {
                let perr = match c.platform {
                    Some(p) => if !strs_view(def.child_components@).contains(p) && catalog_get(
                        es,
                        p,
                    ) is None {
                        seq![unknown_platform_diag(n - 1, p, c.component_type)]
                    } else {
                        Seq::empty()
                    },
                    None => Seq::empty(),
                };
                (
                    if prev.0.contains(id) {
                        prev.0
                    } else {
                        prev.0.push(id)
                    },
                    prev.1 + perr,
                )
            },
        }
    }
}

fn index_label(base: &str, i: usize) -> (r: String)
    ensures
        r@ == index_path(base@, i as int),
{
    let ip = concat3("[", u64_to_decimal(i as u64).as_str(), "]");
    let p = concat2(base, ip.as_str());
    proof {
        reveal_strlit("[");
        reveal_strlit("]");
        assert(p@ =~= index_path(base@, i as int));
    }
    p
}

/// Stage 6: look every referenced component up in the registry.
///
/// Returns the distinct ids of the known components, in order of first
/// reference, and an error for each unknown component (with the closest
/// registered id as a suggestion) and for each unknown platform. When no
/// error came up, the caller expands the ids' AUTO_LOAD chains and hands
/// the result to [`stage_6_check_resolved`].
pub fn stage_6_load_components(config: &RawConfig, catalog: &ComponentCatalog) -> (r: (
    Vec<String>,
    Vec<ValidationError>,
))
    ensures
        (strs_view(r.0@), diags(r.1@)) == load_direct(
            comps_view(config.components@),
            catalog.entries@,
            config.components@.len() as int,
        ),
{
    let mut errors: Vec<ValidationError> = Vec::new();
    let mut direct: Vec<String> = Vec::new();
    let ghost cs = comps_view(config.components@);
    let ghost es = catalog.entries@;
    let mut i: usize = 0;
    while i < config.components.len()
        invariant
            i <= config.components@.len(),
            cs == comps_view(config.components@),
            es == catalog.entries@,
            (strs_view(direct@), diags(errors@)) == load_direct(cs, es, i as int),
        decreases config.components@.len() - i,
    {
        let comp = &config.components[i];
        proof {
            assert(cs[i as int] == comp@);
        }
        let path = index_label("components", i);
        let id = component_effective_id(comp);
        let ghost before_d = strs_view(direct@);
        let ghost before_e = diags(errors@);
        match catalog.get(id.as_str()) {
            None => {
                let msg = concat3("unknown component '", id.as_str(), "'");
                let mut err = ValidationError::error(
                    ValidationStage::ComponentLoading,
                    path.as_str(),
                    msg.as_str(),
                );
                match closest_match(id.as_str(), catalog) {
                    Some(m) => {
                        let hint = concat3("Did you mean '", m.as_str(), "'?");
                        err = err.with_suggestion(hint.as_str());
                    },
                    None => {},
                }
                errors.push(err);
                proof {
                    assert(diags(errors@) =~= before_e.push(err@));
                }
            },
            Some(def) => {
                if let Some(platform) = &comp.platform {
                    if !contains_str(&def.child_components, platform.as_str()) && catalog.get(
                        platform.as_str(),
                    ).is_none() {
                        let p = concat2(path.as_str(), ".platform");
                        let msg = concat5(
                            "unknown platform '",
                            platform.as_str(),
                            "' for component '",
                            comp.component_type.as_str(),
                            "'",
                        );
                        let e = ValidationError::error(
                            ValidationStage::ComponentLoading,
                            p.as_str(),
                            msg.as_str(),
                        );
                        errors.push(e);
                        proof {
                            assert(diags(errors@) =~= before_e + seq![e@]);
                        }
                    } else {
                        proof {
                            assert(diags(errors@) =~= before_e + Seq::<DiagnosticView>::empty());
                        }
                    }
                } else {
                    proof {
                        assert(diags(errors@) =~= before_e + Seq::<DiagnosticView>::empty());
                    }
                }
                if !contains_str(&direct, id.as_str()) {
                    direct.push(id);
                    proof {
                        assert(strs_view(direct@) =~= before_d.push(effective_id(cs[i as int])));
                    }
                }
            },
        }
        i = i + 1;
    }
    (direct, errors)
}

/// The error for a dependency that is missing.
pub open spec fn missing_dependency_diag(id: Seq<char>, dep: Seq<char>) -> DiagnosticView {
    diag(
        ValidationStage::ComponentLoading,
        Severity::Error,
        id,
        "component '"@ + id + "' requires '"@ + dep + "' which is not in the config"@,
    )
}

/// The error for a conflict that is present.
pub open spec fn conflict_diag(id: Seq<char>, other: Seq<char>) -> DiagnosticView {
    diag(
        ValidationStage::ComponentLoading,
        Severity::Error,
        id,
        "component '"@ + id + "' conflicts with '"@ + other + "'"@,
    )
}

/// For each of the first `k` names: an error built by `mk` when its presence
/// in `resolved` equals `flag_when_present`.
pub open spec fn name_errors(
    id: Seq<char>,
    names: Seq<Seq<char>>,
    resolved: Seq<Seq<char>>,
    flag_when_present: bool,
    k: int,
) -> Seq<DiagnosticView>
    decreases k,
{
    if k <= 0 || k > names.len() {
        Seq::empty()
    } else {
        name_errors(id, names, resolved, flag_when_present, k - 1) + if resolved.contains(names[k - 1])
            == flag_when_present {
            seq![
                if flag_when_present {
                    conflict_diag(id, names[k - 1])
                } else {
                    missing_dependency_diag(id, names[k - 1])
                },
            ]
        } else {
            Seq::empty()
        }
    }
}

/// Over the first `n` resolved ids: the missing dependencies (when
/// `conflicts` is false) or the present conflicts (when true).
pub open spec fn resolved_errors(
    resolved: Seq<Seq<char>>,
    es: Seq<CatalogEntry>,
    conflicts: bool,
    n: int,
) -> Seq<DiagnosticView>
    decreases n,
{
    if n <= 0 || n > resolved.len() {
        Seq::empty()
    } else {
        resolved_errors(resolved, es, conflicts, n - 1) + match catalog_get(es, resolved[n - 1]) {
            Some(def) => {
                let names = if conflicts {
                    strs_view(def.conflicts_with@)
                } else {
                    strs_view(def.dependencies@)
                };
                name_errors(resolved[n - 1], names, resolved, conflicts, names.len() as int)
            },
            None => Seq::empty(),
        }
    }
}

fn check_names(
    id: &str,
    names: &Vec<String>,
    resolved: &Vec<String>,
    conflicts: bool,
    errors: &mut Vec<ValidationError>,
)
    ensures
        diags(final(errors)@) == diags(old(errors)@) + name_errors(
            id@,
            strs_view(names@),
            strs_view(resolved@),
            conflicts,
            names@.len() as int,
        ),
{
    let ghost e0 = diags(errors@);
    let mut k: usize = 0;
    while k < names.len()
        invariant
            k <= names@.len(),
            diags(errors@) == e0 + name_errors(
                id@,
                strs_view(names@),
                strs_view(resolved@),
                conflicts,
                k as int,
            ),
        decreases names@.len() - k,
    {
        let ghost before = diags(errors@);
        let name = names[k].as_str();
        if contains_str(resolved, name) == conflicts {
            let e = if conflicts {
                let msg = concat5("component '", id, "' conflicts with '", name, "'");
                ValidationError::error(ValidationStage::ComponentLoading, id, msg.as_str())
            } else {
                let msg = concat5("component '", id, "' requires '", name, "' which is not in the config");
                ValidationError::error(ValidationStage::ComponentLoading, id, msg.as_str())
            };
            errors.push(e);
            proof {
                assert(diags(errors@) =~= before + seq![e@]);
            }
        } else {
            proof {
                assert(diags(errors@) =~= before + Seq::<DiagnosticView>::empty());
            }
        }
        k = k + 1;
    }
}

fn check_resolved_pass(
    resolved: &Vec<String>,
    catalog: &ComponentCatalog,
    conflicts: bool,
    errors: &mut Vec<ValidationError>,
)
    ensures
        diags(final(errors)@) == diags(old(errors)@) + resolved_errors(
            strs_view(resolved@),
            catalog.entries@,
            conflicts,
            resolved@.len() as int,
        ),
{
    let ghost e0 = diags(errors@);
    let mut i: usize = 0;
    while i < resolved.len()
        invariant
            i <= resolved@.len(),
            diags(errors@) == e0 + resolved_errors(
                strs_view(resolved@),
                catalog.entries@,
                conflicts,
                i as int,
            ),
        decreases resolved@.len() - i,
    {
        let ghost before = diags(errors@);
        let id = resolved[i].as_str();
        match catalog.get(id) {
            Some(def) => {
                if conflicts {
                    check_names(id, &def.conflicts_with, resolved, true, errors);
                } else {
                    check_names(id, &def.dependencies, resolved, false, errors);
                }
            },
            None => {
                proof {
                    assert(diags(errors@) =~= before + Seq::<DiagnosticView>::empty());
                }
            },
        }
        proof {
            assert(diags(errors@) =~= e0 + resolved_errors(
                strs_view(resolved@),
                catalog.entries@,
                conflicts,
                i + 1,
            ));
        }
        i = i + 1;
    }
}

/// Stage 6, second part: over the AUTO_LOAD-expanded ids, an error for each
/// dependency that is not among them, then one for each conflict that is.
pub fn stage_6_check_resolved(resolved: &Vec<String>, catalog: &ComponentCatalog) -> (errors: Vec<
    ValidationError,
>)
    ensures
        diags(errors@) == resolved_errors(
            strs_view(resolved@),
            catalog.entries@,
            false,
            resolved@.len() as int,
        ) + resolved_errors(strs_view(resolved@), catalog.entries@, true, resolved@.len() as int),
{
    let mut errors: Vec<ValidationError> = Vec::new();
    proof {
        assert(diags(errors@) =~= Seq::<DiagnosticView>::empty());
    }
    check_resolved_pass(resolved, catalog, false, &mut errors);
    check_resolved_pass(resolved, catalog, true, &mut errors);
    proof {
        assert(diags(errors@) =~= resolved_errors(
            strs_view(resolved@),
            catalog.entries@,
            false,
            resolved@.len() as int,
        ) + resolved_errors(strs_view(resolved@), catalog.entries@, true, resolved@.len() as int));
    }
    errors
}

} // verus!
