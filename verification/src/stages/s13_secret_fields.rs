//! Stage 13 — secret field validation.
//!
//! Secret fields (API keys, tokens, …) must not hold plaintext values in the
//! config: they are provisioned via NVS or referenced with `!secret`.
use vstd::prelude::*;
use crate::catalog::{ComponentCatalog, catalog_get};
use crate::error::{ValidationError, ValidationStage, Severity, DiagnosticView, diag, diags, lemma_concat_contains};
use crate::json::{json_get, json_str};
use crate::raw::{RawConfig, ComponentView, comps_view};
use crate::stages::s6_load_components::{effective_id, component_effective_id};
use crate::text::{concat3, concat5, chars_of, starts_with, is_prefix, strs_view};

verus! {

/// The errors for the first `k` secret fields of one component.
pub open spec fn secret_errors(id: Seq<char>, config: crate::json::JsonV, fields: Seq<Seq<char>>, k: int) -> Seq<
    DiagnosticView,
>
    decreases k,
{
    if k <= 0 || k > fields.len() {
        Seq::empty()
    } else {
        let f = fields[k - 1];
        secret_errors(id, config, fields, k - 1) + match json_str(json_get(config, f)) {
            Some(v) => if v.len() > 0 && !is_prefix("!secret "@, v) {
                seq![
                    diag(
                        ValidationStage::SecretFields,
                        Severity::Error,
                        id + "."@ + f,
                        "secret field '"@ + f + "' for component '"@ + id
                            + "' must not contain a plaintext value; provision via NVS"@,
                    ),
                ]
            } else {
                Seq::empty()
            },
            None => Seq::empty(),
        }
    }
}

/// The errors of the first `n` components.
pub open spec fn secrets_errors(cs: Seq<ComponentView>, es: Seq<crate::catalog::CatalogEntry>, n: int) -> Seq<
    DiagnosticView,
>
    decreases n,
{
    if n <= 0 || n > cs.len() {
        Seq::empty()
    } else {
        let id = effective_id(cs[n - 1]);
        secrets_errors(cs, es, n - 1) + match catalog_get(es, id) {
            Some(def) => secret_errors(
                id,
                cs[n - 1].config,
                strs_view(def.secret_fields@),
                def.secret_fields@.len() as int,
            ),
            None => Seq::empty(),
        }
    }
}

/// The error for a plaintext value in secret field `f` of component `id`.
pub open spec fn plaintext_secret_diag(id: Seq<char>, f: Seq<char>) -> DiagnosticView {
    diag(
        ValidationStage::SecretFields,
        Severity::Error,
        id + "."@ + f,
        "secret field '"@ + f + "' for component '"@ + id + "' must not contain a plaintext value; provision via NVS"@,
    )
}

/// Field `f` of `config` holds a plaintext value: a non-empty string that is
/// not a `!secret ` reference.
pub open spec fn holds_plaintext(config: crate::json::JsonV, f: Seq<char>) -> bool {
    json_str(json_get(config, f)) matches Some(v) && v.len() > 0 && !is_prefix("!secret "@, v)
}

/// The error for secret field `j` is among those of the first `k` fields, for `k > j`.
proof fn lemma_secret_errors_contains(
    id: Seq<char>,
    config: crate::json::JsonV,
    fields: Seq<Seq<char>>,
    k: int,
    j: int,
)
    requires
        0 <= j < k <= fields.len(),
        holds_plaintext(config, fields[j]),
    ensures
        secret_errors(id, config, fields, k).contains(plaintext_secret_diag(id, fields[j])),
    decreases k,
{
    let d = plaintext_secret_diag(id, fields[j]);
    let f = fields[k - 1];
    let prev = secret_errors(id, config, fields, k - 1);
    let step = match json_str(json_get(config, f)) {
        Some(v) => if v.len() > 0 && !is_prefix("!secret "@, v) {
            seq![plaintext_secret_diag(id, f)]
        } else {
            Seq::empty()
        },
        None => Seq::empty(),
    };
    assert(secret_errors(id, config, fields, k) == prev + step);
    if j < k - 1 {
        lemma_secret_errors_contains(id, config, fields, k - 1, j);
    } else {
        assert(step[0] == d);
    }
    lemma_concat_contains(prev, step, d);
}

/// The errors of component `i` are among those of the first `n` components, for `n > i`.
proof fn lemma_secrets_errors_contains(
    cs: Seq<ComponentView>,
    es: Seq<crate::catalog::CatalogEntry>,
    n: int,
    i: int,
    d: DiagnosticView,
)
    requires
        0 <= i < n <= cs.len(),
        (match catalog_get(es, effective_id(cs[i])) {
            Some(def) => secret_errors(
                effective_id(cs[i]),
                cs[i].config,
                strs_view(def.secret_fields@),
                def.secret_fields@.len() as int,
            ),
            None => Seq::empty(),
        }).contains(d),
    ensures
        secrets_errors(cs, es, n).contains(d),
    decreases n,
{
    let id = effective_id(cs[n - 1]);
    let prev = secrets_errors(cs, es, n - 1);
    let step = match catalog_get(es, id) {
        Some(def) => secret_errors(id, cs[n - 1].config, strs_view(def.secret_fields@), def.secret_fields@.len() as int),
        None => Seq::empty(),
    };
    if i < n - 1 {
        lemma_secrets_errors_contains(cs, es, n - 1, i, d);
    }
    lemma_concat_contains(prev, step, d);
}

/// Every secret field of a component's registry entry is checked, not only
/// the first: when component `i`'s entry lists field `f` (at any position)
/// and its config holds a plaintext value there, the stage reports the
/// plaintext error for `f` at path `id.f`.
pub proof fn lemma_every_secret_field_checked(
    cs: Seq<ComponentView>,
    es: Seq<crate::catalog::CatalogEntry>,
    i: int,
    def: crate::catalog::CatalogEntry,
    j: int,
)
    requires
        0 <= i < cs.len(),
        catalog_get(es, effective_id(cs[i])) == Some(def),
        0 <= j < def.secret_fields@.len(),
        holds_plaintext(cs[i].config, def.secret_fields@[j]@),
    ensures
        secrets_errors(cs, es, cs.len() as int).contains(
            plaintext_secret_diag(effective_id(cs[i]), def.secret_fields@[j]@),
        ),
{
    let fs = strs_view(def.secret_fields@);
    assert(fs[j] == def.secret_fields@[j]@);
    lemma_secret_errors_contains(effective_id(cs[i]), cs[i].config, fs, def.secret_fields@.len() as int, j);
    lemma_secrets_errors_contains(
        cs,
        es,
        cs.len() as int,
        i,
        plaintext_secret_diag(effective_id(cs[i]), def.secret_fields@[j]@),
    );
}

/// Stage 13: reject plaintext values in the registry's secret fields of each
/// component (empty values and `!secret ` references are accepted).
pub fn stage_13_check_secret_fields(config: &RawConfig, catalog: &ComponentCatalog) -> (errors: Vec<
    ValidationError,
>)
    ensures
        diags(errors@) == secrets_errors(
            comps_view(config.components@),
            catalog.entries@,
            config.components@.len() as int,
        ),
{
    let mut errors: Vec<ValidationError> = Vec::new();
    let ghost cs = comps_view(config.components@);
    let secret_mark = chars_of("!secret ");
    let mut i: usize = 0;
    proof {
        assert(diags(errors@) =~= Seq::<DiagnosticView>::empty());
    }
    while i < config.components.len()
        invariant
            i <= config.components@.len(),
            cs == comps_view(config.components@),
            secret_mark@ == "!secret "@,
            diags(errors@) == secrets_errors(cs, catalog.entries@, i as int),
        decreases config.components@.len() - i,
    {
        let comp = &config.components[i];
        proof {
            assert(cs[i as int] == comp@);
        }
        let id = component_effective_id(comp);
        let ghost before = diags(errors@);
        match catalog.get(id.as_str()) {
            Some(def) => {
                let ghost fs = strs_view(def.secret_fields@);
                let mut k: usize = 0;
                while k < def.secret_fields.len()
                    invariant
                        k <= def.secret_fields@.len(),
                        fs == strs_view(def.secret_fields@),
                        secret_mark@ == "!secret "@,
                        diags(errors@) == before + secret_errors(id@, comp.config@, fs, k as int),
                    decreases def.secret_fields@.len() - k,
                {
                    let ghost b2 = diags(errors@);
                    let f = def.secret_fields[k].as_str();
                    let mut hit = false;
                    match comp.config.get(f) {
                        Some(v) => match v.as_str() {
                            Some(s) => {
                                let sv = chars_of(s);
                                if sv.len() > 0 && !starts_with(&sv, &secret_mark) {
                                    hit = true;
                                    let path = concat3(id.as_str(), ".", f);
                                    let msg = concat5(
                                        "secret field '",
                                        f,
                                        "' for component '",
                                        id.as_str(),
                                        "' must not contain a plaintext value; provision via NVS",
                                    );
                                    let e = ValidationError::error(ValidationStage::SecretFields, path.as_str(), msg.as_str());
                                    errors.push(e);
                                    proof {
                                        assert(diags(errors@) =~= b2 + seq![e@]);
                                    }
                                }
                            },
                            None => {},
                        },
                        None => {},
                    }
                    if !hit {
                        proof {
                            assert(diags(errors@) =~= b2 + Seq::<DiagnosticView>::empty());
                        }
                    }
                    k = k + 1;
                }
            },
            None => {
                proof {
                    assert(diags(errors@) =~= before + Seq::<DiagnosticView>::empty());
                }
            },
        }
        i = i + 1;
    }
    errors
}

} // verus!
