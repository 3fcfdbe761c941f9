//! Stage 12 — profile validation.
//!
//! A config naming a profile must select every component the profile
//! requires and the component it expects for each exclusive selection.
use vstd::prelude::*;
use crate::error::{ValidationError, ValidationStage, Severity, DiagnosticView, diag, diags};
use crate::raw::RawConfig;
use crate::catalog::contains_str;
use crate::text::{concat3, concat5, push_str, strs_view};

verus! {

/// What the profile registry declares of a profile.
#[derive(Debug)]
pub struct ProfileInfo {
    /// Components the profile requires.
    pub components: Vec<String>,
    /// `(group, expected component)` selections.
    pub exclusive_selections: Vec<(String, String)>,
}

/// The errors for required components (of the first `n`) not among `expanded`.
pub open spec fn profile_required_errors(p: Seq<char>, req: Seq<Seq<char>>, expanded: Seq<Seq<char>>, n: int) -> Seq<
    DiagnosticView,
>
    decreases n,
{
    if n <= 0 || n > req.len() {
        Seq::empty()
    } else {
        profile_required_errors(p, req, expanded, n - 1) + if !expanded.contains(req[n - 1]) {
            seq![
                diag(
                    ValidationStage::ProfileValidation,
                    Severity::Error,
                    "components"@,
                    "profile '"@ + p + "' requires component '"@ + req[n - 1] + "' which is not selected"@,
                ),
            ]
        } else {
            Seq::empty()
        }
    }
}

/// The errors for exclusive selections (of the first `n`) not among `expanded`.
pub open spec fn profile_selection_errors(
    p: Seq<char>,
    sel: Seq<(String, String)>,
    expanded: Seq<Seq<char>>,
    n: int,
) -> Seq<DiagnosticView>
    decreases n,
{
    if n <= 0 || n > sel.len() {
        Seq::empty()
    } else {
        profile_selection_errors(p, sel, expanded, n - 1) + if !expanded.contains(sel[n - 1].1@) {
            seq![
                diag(
                    ValidationStage::ProfileValidation,
                    Severity::Error,
                    "components"@,
                    "profile '"@ + p + "' selects '"@ + sel[n - 1].1@ + "' for group '"@ + sel[n - 1].0@
                        + "' but it is not in the config"@,
                ),
            ]
        } else {
            Seq::empty()
        }
    }
}

/// The diagnostics of the profile check: none without a profile, an error
/// when the registry does not know it, else the missing required components
/// and exclusive selections.
pub open spec fn profile_errors(
    profile_name: Option<String>,
    profile: Option<ProfileInfo>,
    expanded: Seq<Seq<char>>,
) -> Seq<DiagnosticView> {
    match profile_name {
        None => Seq::empty(),
        Some(name) => match profile {
            None => seq![
                diag(
                    ValidationStage::ProfileValidation,
                    Severity::Error,
                    "esphome.profile"@,
                    "profile '"@ + name@ + "' not found in profile registry"@,
                ),
            ],
            Some(p) => profile_required_errors(
                name@,
                strs_view(p.components@),
                expanded,
                p.components@.len() as int,
            ) + profile_selection_errors(
                name@,
                p.exclusive_selections@,
                expanded,
                p.exclusive_selections@.len() as int,
            ),
        },
    }
}

/// Stage 12: validate the config against its declared profile.
///
/// `profile` is the registry's definition of `config.esphome.profile` (or
/// `None` when the registry does not know it); `expanded` is the AUTO_LOAD
/// expansion of the config's effective component ids.
pub fn stage_12_validate_profile(
    config: &RawConfig,
    profile: Option<&ProfileInfo>,
    expanded: &Vec<String>,
) -> (errors: Vec<ValidationError>)
    ensures
        diags(errors@) == profile_errors(
            config.esphome.profile,
            match profile {
                Some(p) => Some(*p),
                None => None,
            },
            strs_view(expanded@),
        ),
{
    let mut errors: Vec<ValidationError> = Vec::new();
    proof {
        assert(diags(errors@) =~= Seq::<DiagnosticView>::empty());
    }
    let name = match &config.esphome.profile {
        None => return errors,
        Some(n) => n,
    };
    let p = match profile {
        None => {
            let msg = concat3("profile '", name.as_str(), "' not found in profile registry");
            let e = ValidationError::error(ValidationStage::ProfileValidation, "esphome.profile", msg.as_str());
            errors.push(e);
            proof {
                assert(diags(errors@) =~= seq![e@]);
            }
            return errors;
        },
        Some(p) => p,
    };
    let ghost ex = strs_view(expanded@);
    let ghost req = strs_view(p.components@);
    let mut i: usize = 0;
    while i < p.components.len()
        invariant
            i <= p.components@.len(),
            ex == strs_view(expanded@),
            req == strs_view(p.components@),
            diags(errors@) == profile_required_errors(name@, req, ex, i as int),
        decreases p.components@.len() - i,
    {
        let ghost before = diags(errors@);
        let r = p.components[i].as_str();
        if !contains_str(expanded, r) {
            let msg = concat5("profile '", name.as_str(), "' requires component '", r, "' which is not selected");
            let e = ValidationError::error(ValidationStage::ProfileValidation, "components", msg.as_str());
            errors.push(e);
            proof {
                assert(diags(errors@) =~= before + seq![e@]);
            }
        } else {
            proof {
                assert(diags(errors@) =~= before + Seq::<DiagnosticView>::empty());
            }
        }
        i = i + 1;
    }
    let ghost e1 = diags(errors@);
    let mut j: usize = 0;
    while j < p.exclusive_selections.len()
        invariant
            j <= p.exclusive_selections@.len(),
            ex == strs_view(expanded@),
            diags(errors@) == e1 + profile_selection_errors(name@, p.exclusive_selections@, ex, j as int),
        decreases p.exclusive_selections@.len() - j,
    {
        let ghost before = diags(errors@);
        let (g, c) = (&p.exclusive_selections[j].0, &p.exclusive_selections[j].1);
        if !contains_str(expanded, c.as_str()) {
            let mut msg = concat5("profile '", name.as_str(), "' selects '", c.as_str(), "' for group '");
            push_str(&mut msg, g.as_str());
            push_str(&mut msg, "' but it is not in the config");
            let e = ValidationError::error(ValidationStage::ProfileValidation, "components", msg.as_str());
            errors.push(e);
            proof {
                assert(e@.message =~= "profile '"@ + name@ + "' selects '"@ + c@ + "' for group '"@ + g@ + "' but it is not in the config"@);
                assert(diags(errors@) =~= before + seq![e@]);
            }
        } else {
            proof {
                assert(diags(errors@) =~= before + Seq::<DiagnosticView>::empty());
            }
        }
        j = j + 1;
    }
    errors
}

} // verus!
