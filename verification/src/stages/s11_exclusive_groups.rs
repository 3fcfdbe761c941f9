//! Stage 11 — exclusive group validation.
//!
//! At most one component of each exclusive group may be selected, counting
//! the components that AUTO_LOAD pulls in.
use vstd::prelude::*;
use crate::catalog::{ComponentCatalog, CatalogEntry, catalog_get, contains_str};
use crate::error::{ValidationError, ValidationStage, Severity, DiagnosticView, diag, diags};
use crate::text::{concat3, concat5, join_strs, join_spec, strs_view, str_eq};

verus! {

/// The groups of the first `n` expanded ids, each with its members in
/// order; groups in order of first appearance.
pub open spec fn group_members(expanded: Seq<Seq<char>>, es: Seq<CatalogEntry>, n: int) -> Seq<
    (Seq<char>, Seq<Seq<char>>),
>
    decreases n,
{
    if n <= 0 || n > expanded.len() {
        Seq::empty()
    } else {
        let prev = group_members(expanded, es, n - 1);
        let id = expanded[n - 1];
        match catalog_get(es, id) {
            Some(def) => match def.exclusive_group {
                Some(g) => {
                    let k = group_index(prev, g@);
                    if k < prev.len() {
                        prev.update(k, (g@, prev[k].1.push(id)))
                    } else {
                        prev.push((g@, seq![id]))
                    }
                },
                None => prev,
            },
            None => prev,
        }
    }
}

/// Index of group `g`, or the length.
pub open spec fn group_index(gs: Seq<(Seq<char>, Seq<Seq<char>>)>, g: Seq<char>) -> int
    decreases gs.len(),
{
    if gs.len() == 0 {
        0
    } else if gs[0].0 == g {
        0
    } else {
        1 + group_index(gs.drop_first(), g)
    }
}

/// Facts about `group_index`.
pub proof fn lemma_group_index(gs: Seq<(Seq<char>, Seq<Seq<char>>)>, g: Seq<char>)
    ensures
        0 <= group_index(gs, g) <= gs.len(),
        group_index(gs, g) < gs.len() ==> gs[group_index(gs, g)].0 == g,
        forall|j: int| 0 <= j < group_index(gs, g) ==> gs[j].0 != g,
    decreases gs.len(),
{
    if gs.len() > 0 && gs[0].0 != g {
        lemma_group_index(gs.drop_first(), g);
        assert forall|j: int| 0 <= j < group_index(gs, g) implies gs[j].0 != g by {
            if j > 0 {
                assert(gs[j] == gs.drop_first()[j - 1]);
            }
        }
    }
}

/// One error per group (of the first `n`) with more than one member.
pub open spec fn group_errors(gs: Seq<(Seq<char>, Seq<Seq<char>>)>, n: int) -> Seq<DiagnosticView>
    decreases n,
{
    if n <= 0 || n > gs.len() {
        Seq::empty()
    } else {
        group_errors(gs, n - 1) + if gs[n - 1].1.len() > 1 {
            seq![
                diag(
                    ValidationStage::ExclusiveGroup,
                    Severity::Error,
                    "components"@,
                    "exclusive group '"@ + gs[n - 1].0 + "' has multiple selections: ["@ + join_spec(
                        gs[n - 1].1,
                        ", "@,
                    ) + "]"@,
                ),
            ]
        } else {
            Seq::empty()
        }
    }
}

/// Stage 11: flag each exclusive group with more than one selected member.
///
/// `expanded` is the AUTO_LOAD expansion of the config's effective component
/// ids. Groups are reported in order of first appearance.
pub fn stage_11_check_exclusive_groups(expanded: &Vec<String>, catalog: &ComponentCatalog) -> (errors: Vec<
    ValidationError,
>)
    ensures
        ({
            let gs = group_members(strs_view(expanded@), catalog.entries@, expanded@.len() as int);
            diags(errors@) == group_errors(gs, gs.len() as int)
        }),
{
    let ghost ex = strs_view(expanded@);
    let mut names: Vec<String> = Vec::new();
    let mut members: Vec<Vec<String>> = Vec::new();
    let mut i: usize = 0;
    while i < expanded.len()
        invariant
            i <= expanded@.len(),
            ex == strs_view(expanded@),
            names@.len() == members@.len(),
            group_members(ex, catalog.entries@, i as int).len() == names@.len(),
            forall|k: int|
                0 <= k < names@.len() ==> group_members(ex, catalog.entries@, i as int)[k] == (
                    #[trigger] names@[k]@,
                    strs_view(members@[k]@),
                ),
        decreases expanded@.len() - i,
    {
        let ghost prev = group_members(ex, catalog.entries@, i as int);
        let id = expanded[i].as_str();
        match catalog.get(id) {
            Some(def) => match &def.exclusive_group {
                Some(g) => {
                    let mut k: usize = 0;
                    while k < names.len()
                        invariant
                            k <= names@.len(),
                            names@.len() == members@.len(),
                            prev.len() == names@.len(),
                            forall|j: int| 0 <= j < names@.len() ==> prev[j] == (#[trigger] names@[j]@, strs_view(members@[j]@)),
                            forall|j: int| 0 <= j < k ==> prev[j].0 != g@,
                        ensures
                            k <= names@.len(),
                            forall|j: int| 0 <= j < k ==> prev[j].0 != g@,
                            k < names@.len() ==> names@[k as int]@ == g@,
                        decreases names@.len() - k,
                    {
                        if str_eq(names[k].as_str(), g.as_str()) {
                            break;
                        }
                        k = k + 1;
                    }
                    proof {
                        lemma_group_index(prev, g@);
                        let p = group_index(prev, g@);
                        if p < k {
                            assert(prev[p].0 != g@);
                        }
                        if k < names@.len() {
                            if k < p {
                                assert(prev[k as int].0 == g@);
                            }
                        }
                    }
                    if k < names.len() {
                        let mut m = members[k].clone();
                        let ghost mv = strs_view(members@[k as int]@);
                        m.push(expanded[i].clone());
                        proof {
                            assert(strs_view(m@) =~= mv.push(ex[i as int]));
                        }
                        members.set(k, m);
                    } else {
                        names.push(g.clone());
                        let mut m: Vec<String> = Vec::new();
                        m.push(expanded[i].clone());
                        proof {
                            assert(strs_view(m@) =~= seq![ex[i as int]]);
                        }
                        members.push(m);
                    }
                },
                None => {},
            },
            None => {},
        }
        i = i + 1;
    }
    let ghost gs = group_members(ex, catalog.entries@, expanded@.len() as int);
    let mut errors: Vec<ValidationError> = Vec::new();
    let mut j: usize = 0;
    proof {
        assert(diags(errors@) =~= Seq::<DiagnosticView>::empty());
    }
    while j < names.len()
        invariant
            j <= names@.len(),
            names@.len() == members@.len(),
            gs.len() == names@.len(),
            forall|k: int| 0 <= k < names@.len() ==> gs[k] == (#[trigger] names@[k]@, strs_view(members@[k]@)),
            diags(errors@) == group_errors(gs, j as int),
        decreases names@.len() - j,
    {
        let ghost before = diags(errors@);
        proof {
            assert(gs[j as int] == (names@[j as int]@, strs_view(members@[j as int]@)));
        }
        if members[j].len() > 1 {
            let list = join_strs(&members[j], ", ");
            let mut msg = concat5("exclusive group '", names[j].as_str(), "' has multiple selections: [", list.as_str(), "]");
            let e = ValidationError::error(ValidationStage::ExclusiveGroup, "components", msg.as_str());
            errors.push(e);
            proof {
                assert(diags(errors@) =~= before + seq![e@]);
            }
        } else {
            proof {
                assert(diags(errors@) =~= before + Seq::<DiagnosticView>::empty());
            }
        }
        j = j + 1;
    }
    errors
}

} // verus!
