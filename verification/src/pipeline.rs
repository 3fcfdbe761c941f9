//! Pipeline bookkeeping: the result type, the stage-by-stage accumulation of
//! diagnostics, the active-flag list, the validated component list and the
//! partial validation used for live feedback.
use vstd::prelude::*;
use vstd::string::*;
use crate::catalog::{ComponentCatalog, contains_str};
use crate::error::{ValidationError, diags, has_errors, has_errors_spec};
use crate::json::{Json, JsonV, json_get, json_str, seq_lt, strictly_sorted, sort_strings};
use crate::raw::{RawConfig, ComponentConfig, ComponentView, comps_view, opt_view, EsphomeBlock, StringMap};
use crate::stages::s2_substitutions::{stage_2_apply_substitutions, subst_components};
use crate::stages::s4_external_components::AllowList;
use crate::stages::s5_preload::{stage_5_preload_esphome_block, preload_errors};
use crate::stages::s6_load_components::effective_id;
use crate::stages::s7_schema_validation::{stage_7_validate_schemas, schema_errors};
use crate::text::{owned, str_eq, strs_view, uppercase_of, to_uppercase, concat2};
use crate::validated::{ValidatedConfig, ValidatedComponent};

verus! {

/// Output of a full pipeline run.
pub enum ValidationResult {
    /// All stages passed: the validated config and the non-fatal
    /// diagnostics (warnings and infos) collected during the run.
    Valid(Box<ValidatedConfig>, Vec<ValidationError>),
    /// At least one fatal error prevented completion.
    Invalid(Vec<ValidationError>),
}

impl ValidationResult {
    /// Returns `true` if the config is valid.
    pub fn is_valid(&self) -> (r: bool)
        ensures
            r == (self is Valid),
    {
        match self {
            ValidationResult::Valid(..) => true,
            ValidationResult::Invalid(_) => false,
        }
    }

    /// Returns the validated config, or `None` if invalid.
    pub fn ok(self) -> (r: Option<ValidatedConfig>)
        ensures
            match self {
                ValidationResult::Valid(v, _) => r == Some(*v),
                ValidationResult::Invalid(_) => r is None,
            },
    {
        match self {
            ValidationResult::Valid(v, _) => Some(*v),
            ValidationResult::Invalid(_) => None,
        }
    }

    /// Returns the error list, or an empty list if valid.
    pub fn errors(self) -> (r: Vec<ValidationError>)
        ensures
            match self {
                ValidationResult::Valid(..) => r@.len() == 0,
                ValidationResult::Invalid(e) => r == e,
            },
    {
        match self {
            ValidationResult::Valid(..) => Vec::new(),
            ValidationResult::Invalid(e) => e,
        }
    }

    /// All diagnostics of the run (warnings and errors), whatever its outcome.
    pub fn all_errors(&self) -> (r: &[ValidationError])
        ensures
            match self {
                ValidationResult::Valid(_, d) => r@ == d@,
                ValidationResult::Invalid(e) => r@ == e@,
            },
    {
        match self {
            ValidationResult::Valid(_, d) => d.as_slice(),
            ValidationResult::Invalid(e) => e.as_slice(),
        }
    }
}

/// Append one stage's diagnostics to the run's list; returns `true` when one
/// of them is fatal (the run stops there).
pub fn absorb_stage(all: &mut Vec<ValidationError>, stage_errors: Vec<ValidationError>) -> (fatal: bool)
    ensures
        final(all)@ == old(all)@ + stage_errors@,
        fatal == has_errors_spec(stage_errors@),
{
    let fatal = has_errors(stage_errors.as_slice());
    let ghost start = all@;
    let mut i: usize = 0;
    while i < stage_errors.len()
        invariant
            i <= stage_errors@.len(),
            all@ == start + stage_errors@.subrange(0, i as int),
        decreases stage_errors@.len() - i,
    {
        all.push(stage_errors[i].clone());
        i = i + 1;
        proof {
            assert(all@ =~= start + stage_errors@.subrange(0, i as int));
        }
    }
    proof {
        assert(stage_errors@.subrange(0, i as int) =~= stage_errors@);
    }
    fatal
}

// ── Active flags ──────────────────────────────────────────────────────────────

/// The feature flag of a component id: `USE_` and the id in upper case.
pub open spec fn flag_name_spec(id: Seq<char>) -> Seq<char> {
    "USE_"@ + uppercase_of(id)
}

/// The feature flag of a component id (`"dht"` → `"USE_DHT"`).
pub fn flag_name(id: &str) -> (r: String)
    ensures
        r@ == flag_name_spec(id@),
{
    let up = to_uppercase(id);
    concat2("USE_", up.as_str())
}

/// The entity-level and core flags that are added whenever the feature set
/// holds them.
pub open spec fn flag_candidates() -> Seq<Seq<char>> {
    seq![
        "USE_SENSOR"@, "USE_BINARY_SENSOR"@, "USE_SWITCH"@, "USE_LIGHT"@, "USE_CLIMATE"@, "USE_FAN"@,
        "USE_COVER"@, "USE_LOCK"@, "USE_MEDIA_PLAYER"@, "USE_NUMBER"@, "USE_SELECT"@, "USE_TEXT"@,
        "USE_BUTTON"@, "USE_EVENT"@, "USE_TEXT_SENSOR"@, "USE_ALARM_CONTROL_PANEL"@, "USE_WIFI"@,
        "USE_API"@, "USE_MQTT"@, "USE_OTA"@, "USE_LOGGER"@, "USE_I2C"@, "USE_SPI"@, "USE_UART"@,
        "USE_DHT"@,
    ]
}

/// The candidate flags, in the order they are checked.
pub fn entity_flag_candidates() -> (r: Vec<String>)
    ensures
        strs_view(r@) == flag_candidates(),
{
    let names: [&str; 25] = [
        "USE_SENSOR", "USE_BINARY_SENSOR", "USE_SWITCH", "USE_LIGHT", "USE_CLIMATE", "USE_FAN",
        "USE_COVER", "USE_LOCK", "USE_MEDIA_PLAYER", "USE_NUMBER", "USE_SELECT", "USE_TEXT",
        "USE_BUTTON", "USE_EVENT", "USE_TEXT_SENSOR", "USE_ALARM_CONTROL_PANEL", "USE_WIFI",
        "USE_API", "USE_MQTT", "USE_OTA", "USE_LOGGER", "USE_I2C", "USE_SPI", "USE_UART", "USE_DHT",
    ];
    let mut r: Vec<String> = Vec::new();
    let mut i: usize = 0;
    while i < 25
        invariant
            i <= 25,
            names@.len() == 25,
            forall|k: int| 0 <= k < 25 ==> (#[trigger] names@[k])@ == flag_candidates()[k],
            strs_view(r@) == flag_candidates().subrange(0, i as int),
        decreases 25 - i,
    {
        let ghost before = strs_view(r@);
        let x = owned(names[i]);
        proof {
            assert(x@ == flag_candidates()[i as int]);
        }
        r.push(x);
        proof {
            assert(strs_view(r@) =~= before.push(flag_candidates()[i as int]));
        }
        i = i + 1;
        proof {
            assert(strs_view(r@) =~= flag_candidates().subrange(0, i as int));
        }
    }
    proof {
        assert(flag_candidates().subrange(0, 25) =~= flag_candidates());
    }
    r
}

/// `f` belongs in the active-flag list: some present component flag, some
/// present candidate or some variant addition names it, and no variant
/// removal does (removals win).
pub open spec fn wanted_flag(
    ids: Seq<Seq<char>>,
    id_present: Seq<bool>,
    cand_present: Seq<bool>,
    add: Seq<Seq<char>>,
    remove: Seq<Seq<char>>,
    f: Seq<char>,
) -> bool {
    &&& !remove.contains(f)
    &&& {
        ||| exists|i: int| 0 <= i < ids.len() && id_present[i] && f == flag_name_spec(#[trigger] ids[i])
        ||| exists|i: int| 0 <= i < flag_candidates().len() && cand_present[i] && f == #[trigger] flag_candidates()[i]
        ||| add.contains(f)
    }
}

/// The active-flag list: the flags of the resolved components whose flag the
/// feature set holds (`id_present[i]` for `resolved[i]`), the candidate flags
/// it holds (`cand_present[i]` for the `i`-th of `entity_flag_candidates`),
/// and the variant's additions, less the variant's removals; sorted, each once.
pub fn assemble_active_flags(
    resolved: &Vec<String>,
    id_present: &Vec<bool>,
    cand_present: &Vec<bool>,
    add: &Vec<String>,
    remove: &Vec<String>,
) -> (r: Vec<String>)
    requires
        id_present@.len() == resolved@.len(),
        cand_present@.len() == flag_candidates().len(),
    ensures
        strictly_sorted(strs_view(r@)),
        forall|f: Seq<char>|
            strs_view(r@).contains(f) <==> wanted_flag(
                strs_view(resolved@),
                id_present@,
                cand_present@,
                strs_view(add@),
                strs_view(remove@),
                f,
            ),
{
    let ghost ids = strs_view(resolved@);
    let ghost rm = strs_view(remove@);
    let ghost ad = strs_view(add@);
    let mut acc: Vec<String> = Vec::new();
    let mut i: usize = 0;
    while i < resolved.len()
        invariant
            i <= resolved@.len(),
            ids == strs_view(resolved@),
            rm == strs_view(remove@),
            id_present@.len() == resolved@.len(),
            forall|f: Seq<char>|
                #[trigger] strs_view(acc@).contains(f) <==> (!rm.contains(f) && exists|k: int|
                    0 <= k < i && id_present@[k] && f == flag_name_spec(#[trigger] ids[k])),
        decreases resolved@.len() - i,
    {
        let ghost before = strs_view(acc@);
        let ghost fv = flag_name_spec(ids[i as int]);
        let mut pushed = false;
        if id_present[i] {
            let f = flag_name(resolved[i].as_str());
            if !contains_str(remove, f.as_str()) {
                acc.push(f);
                pushed = true;
                proof {
                    assert(strs_view(acc@) =~= before.push(fv));
                    assert(!rm.contains(fv));
                }
            }
        }
        proof {
            let now = strs_view(acc@);
            if !pushed {
                assert(now =~= before);
                assert(!(id_present@[i as int] && !rm.contains(fv)));
            }
            assert forall|f: Seq<char>|
                now.contains(f) <==> (!rm.contains(f) && exists|k: int|
                    0 <= k < i + 1 && id_present@[k] && f == flag_name_spec(#[trigger] ids[k])) by {
                if now.contains(f) {
                    let q = choose|q: int| 0 <= q < now.len() && now[q] == f;
                    if q < before.len() {
                        assert(before[q] == f);
                        assert(before.contains(f));
                        let k = choose|k: int| 0 <= k < i && id_present@[k] && f == flag_name_spec(#[trigger] ids[k]);
                        assert(0 <= k < i + 1 && id_present@[k] && f == flag_name_spec(ids[k]));
                    } else {
                        assert(pushed);
                        assert(f == fv);
                        assert(id_present@[i as int] && f == flag_name_spec(ids[i as int]));
                    }
                }
                if !rm.contains(f) && exists|k: int|
                    0 <= k < i + 1 && id_present@[k] && f == flag_name_spec(#[trigger] ids[k]) {
                    let k = choose|k: int| 0 <= k < i + 1 && id_present@[k] && f == flag_name_spec(#[trigger] ids[k]);
                    if k < i {
                        assert(before.contains(f));
                        let q = choose|q: int| 0 <= q < before.len() && before[q] == f;
                        assert(now[q] == f);
                    } else {
                        assert(pushed);
                        assert(now[now.len() - 1] == f);
                    }
                }
            }
        }
        i = i + 1;
    }
    let ghost part1 = strs_view(acc@);
    let cands = entity_flag_candidates();
    let mut j: usize = 0;
    while j < cands.len()
        invariant
            j <= cands@.len(),
            strs_view(cands@) == flag_candidates(),
            cand_present@.len() == flag_candidates().len(),
            rm == strs_view(remove@),
            forall|f: Seq<char>|
                #[trigger] strs_view(acc@).contains(f) <==> (part1.contains(f) || (!rm.contains(f) && exists|k: int|
                    0 <= k < j && cand_present@[k] && f == #[trigger] flag_candidates()[k])),
        decreases cands@.len() - j,
    {
        let ghost before = strs_view(acc@);
        let ghost fcj = flag_candidates()[j as int];
        proof {
            assert(cands@[j as int]@ == fcj);
        }
        if cand_present[j] && !contains_str(remove, cands[j].as_str()) {
            acc.push(cands[j].clone());
            proof {
                assert(strs_view(acc@) =~= before.push(fcj));
            }
        }
        proof {
            let now = strs_view(acc@);
            let fc = flag_candidates();
            if !(cand_present@[j as int] && !rm.contains(fcj)) {
                assert(now =~= before);
            }
            assert forall|f: Seq<char>|
                now.contains(f) <==> (part1.contains(f) || (!rm.contains(f) && exists|k: int|
                    0 <= k < j + 1 && cand_present@[k] && f == #[trigger] fc[k])) by {
                if now.contains(f) {
                    let q = choose|q: int| 0 <= q < now.len() && now[q] == f;
                    if q < before.len() {
                        assert(before[q] == f);
                        assert(before.contains(f));
                    } else {
                        assert(cand_present@[j as int] && f == fc[j as int]);
                    }
                }
                if part1.contains(f) {
                    assert(before.contains(f));
                    let q = choose|q: int| 0 <= q < before.len() && before[q] == f;
                    assert(now[q] == f);
                }
                if !rm.contains(f) && exists|k: int| 0 <= k < j + 1 && cand_present@[k] && f == #[trigger] fc[k] {
                    let k = choose|k: int| 0 <= k < j + 1 && cand_present@[k] && f == #[trigger] fc[k];
                    if k < j {
                        assert(before.contains(f));
                        let q = choose|q: int| 0 <= q < before.len() && before[q] == f;
                        assert(now[q] == f);
                    } else {
                        assert(now[now.len() - 1] == f);
                    }
                }
            }
        }
        j = j + 1;
    }
    let ghost part2 = strs_view(acc@);
    let mut m: usize = 0;
    while m < add.len()
        invariant
            m <= add@.len(),
            ad == strs_view(add@),
            rm == strs_view(remove@),
            forall|f: Seq<char>|
                #[trigger] strs_view(acc@).contains(f) <==> (part2.contains(f) || (!rm.contains(f)
                    && ad.subrange(0, m as int).contains(f))),
        decreases add@.len() - m,
    {
        let ghost before = strs_view(acc@);
        let ghost am = ad[m as int];
        if !contains_str(remove, add[m].as_str()) {
            acc.push(add[m].clone());
            proof {
                assert(strs_view(acc@) =~= before.push(am));
            }
        }
        proof {
            let now = strs_view(acc@);
            if rm.contains(am) {
                assert(now =~= before);
            }
            let s0 = ad.subrange(0, m as int);
            let s1 = ad.subrange(0, m + 1);
            assert forall|f: Seq<char>| now.contains(f) <==> (part2.contains(f) || (!rm.contains(f) && s1.contains(f))) by {
                if now.contains(f) {
                    let q = choose|q: int| 0 <= q < now.len() && now[q] == f;
                    if q < before.len() {
                        assert(before[q] == f);
                        assert(before.contains(f));
                        if !part2.contains(f) {
                            let p = choose|p: int| 0 <= p < s0.len() && s0[p] == f;
                            assert(s1[p] == f);
                        }
                    } else {
                        assert(s1[m as int] == f);
                    }
                }
                if part2.contains(f) {
                    assert(before.contains(f));
                    let q = choose|q: int| 0 <= q < before.len() && before[q] == f;
                    assert(now[q] == f);
                }
                if !rm.contains(f) && s1.contains(f) {
                    let p = choose|p: int| 0 <= p < s1.len() && s1[p] == f;
                    if p < m {
                        assert(s0[p] == f);
                        assert(before.contains(f));
                        let q = choose|q: int| 0 <= q < before.len() && before[q] == f;
                        assert(now[q] == f);
                    } else {
                        assert(now[now.len() - 1] == f);
                    }
                }
            }
        }
        m = m + 1;
    }
    proof {
        assert(ad.subrange(0, m as int) =~= ad);
    }
    sort_strings(acc)
}

// ── Validated components ──────────────────────────────────────────────────────

/// Number of the first `j` components whose type is `t`.
pub open spec fn count_type(cs: Seq<ComponentView>, t: Seq<char>, j: int) -> nat
    decreases j,
{
    if j <= 0 {
        0
    } else {
        count_type(cs, t, j - 1) + if cs[j - 1].component_type == t {
            1nat
        } else {
            0nat
        }
    }
}

/// Number of components before position `k` with the same type as component `k`.
pub open spec fn same_type_before(cs: Seq<ComponentView>, k: int) -> nat {
    count_type(cs, cs[k].component_type, k)
}

/// Some component of `cs` has `id` as its effective id.
pub open spec fn declared_id(cs: Seq<ComponentView>, id: Seq<char>) -> bool {
    exists|k: int| 0 <= k < cs.len() && effective_id(#[trigger] cs[k]) == id
}

/// The first `n` resolved ids that no component declares, in order.
pub open spec fn auto_ids(cs: Seq<ComponentView>, resolved: Seq<Seq<char>>, n: int) -> Seq<Seq<char>>
    decreases n,
{
    if n <= 0 || n > resolved.len() {
        Seq::empty()
    } else if declared_id(cs, resolved[n - 1]) {
        auto_ids(cs, resolved, n - 1)
    } else {
        auto_ids(cs, resolved, n - 1).push(resolved[n - 1])
    }
}

/// `v` is the validated form of declared component `k` of `cs`.
pub open spec fn declared_entry(v: ValidatedComponent, cs: Seq<ComponentView>, k: int) -> bool {
    let c = cs[k];
    &&& v.component_id@ == effective_id(c)
    &&& opt_view(v.platform_type) == match c.platform {
        Some(_) => Some(c.component_type),
        None => None,
    }
    &&& v.index == same_type_before(cs, k)
    &&& opt_view(v.entity_id) == json_str(json_get(c.config, "id"@))
    &&& v.config@ == c.config
    &&& !v.auto_loaded
}

/// `v` is the validated form of the auto-loaded component `id`.
pub open spec fn auto_entry(v: ValidatedComponent, id: Seq<char>) -> bool {
    &&& v.component_id@ == id
    &&& v.platform_type is None
    &&& v.index == 0
    &&& v.entity_id is None
    &&& v.config@ == JsonV::Object(Seq::empty())
    &&& v.auto_loaded
}

/// `r` is the validated component list of the components `cs` with the
/// resolved ids: every declared component in order, then every resolved id
/// that no component declares, auto-loaded.
pub open spec fn components_built(r: Seq<ValidatedComponent>, cs: Seq<ComponentView>, resolved: Seq<Seq<char>>) -> bool {
    let autos = auto_ids(cs, resolved, resolved.len() as int);
    &&& r.len() == cs.len() + autos.len()
    &&& forall|k: int| 0 <= k < cs.len() ==> declared_entry(#[trigger] r[k], cs, k)
    &&& forall|k: int| 0 <= k < autos.len() ==> auto_entry(#[trigger] r[cs.len() + k], autos[k])
}

fn same_type_count(cs: &Vec<ComponentConfig>, k: usize) -> (r: usize)
    requires
        k < cs@.len(),
    ensures
        r == same_type_before(comps_view(cs@), k as int),
{
    let ghost v = comps_view(cs@);
    let mut n: usize = 0;
    let mut j: usize = 0;
    while j < k
        invariant
            j <= k < cs@.len(),
            v == comps_view(cs@),
            n == count_type(v, v[k as int].component_type, j as int),
            n <= j,
        decreases k - j,
    {
        if str_eq(cs[j].component_type.as_str(), cs[k].component_type.as_str()) {
            n = n + 1;
        }
        j = j + 1;
    }
    n
}

fn effective_id_exec(c: &ComponentConfig) -> (r: String)
    ensures
        r@ == effective_id(c@),
{
    match &c.platform {
        Some(p) => if p.as_str().unicode_len() > 0 {
            p.clone()
        } else {
            c.component_type.clone()
        },
        None => c.component_type.clone(),
    }
}

/// The validated component list: every declared component in order (its
/// effective id, its platform type, its index among components of its type,
/// its `id:` entity id and its config), then every resolved id that no
/// component declares, as an auto-loaded entry with an empty config.
pub fn build_validated_components(config: &RawConfig, resolved: &Vec<String>) -> (r: Vec<ValidatedComponent>)
    ensures
        components_built(r@, comps_view(config.components@), strs_view(resolved@)),
{
    let ghost cs = comps_view(config.components@);
    let mut out: Vec<ValidatedComponent> = Vec::new();
    let mut k: usize = 0;
    while k < config.components.len()
        invariant
            k <= config.components@.len(),
            cs == comps_view(config.components@),
            out@.len() == k,
            forall|q: int| 0 <= q < k ==> declared_entry(#[trigger] out@[q], cs, q),
        decreases config.components@.len() - k,
    {
        let c = &config.components[k];
        let idx = same_type_count(&config.components, k);
        let entity_id = match c.config.get("id") {
            Some(v) => match v.as_str() {
                Some(s) => Some(owned(s)),
                None => None,
            },
            None => None,
        };
        let platform_type = match &c.platform {
            Some(_) => Some(c.component_type.clone()),
            None => None,
        };
        let vc = ValidatedComponent {
            component_id: effective_id_exec(c),
            platform_type,
            index: idx,
            entity_id,
            config: c.config.copy(),
            auto_loaded: false,
        };
        proof {
            assert(c@ == cs[k as int]);
        }
        out.push(vc);
        k = k + 1;
    }
    let n = config.components.len();
    let mut explicit: Vec<String> = Vec::new();
    let mut q: usize = 0;
    while q < n
        invariant
            q <= n == config.components@.len(),
            cs == comps_view(config.components@),
            forall|id: Seq<char>|
                strs_view(explicit@).contains(id) <==> exists|j: int|
                    0 <= j < q && effective_id(#[trigger] cs[j]) == id,
        decreases n - q,
    {
        let ghost before = strs_view(explicit@);
        explicit.push(effective_id_exec(&config.components[q]));
        proof {
            let now = strs_view(explicit@);
            assert(now =~= before.push(effective_id(cs[q as int])));
            assert forall|id: Seq<char>| now.contains(id) <==> exists|j: int| 0 <= j < q + 1 && effective_id(#[trigger] cs[j]) == id by {
                if now.contains(id) {
                    let p = choose|p: int| 0 <= p < now.len() && now[p] == id;
                    if p < before.len() {
                        assert(before[p] == id);
                        assert(before.contains(id));
                    } else {
                        assert(effective_id(cs[q as int]) == id);
                    }
                }
                if exists|j: int| 0 <= j < q + 1 && effective_id(#[trigger] cs[j]) == id {
                    let j = choose|j: int| 0 <= j < q + 1 && effective_id(#[trigger] cs[j]) == id;
                    if j < q {
                        assert(before.contains(id));
                        let p = choose|p: int| 0 <= p < before.len() && before[p] == id;
                        assert(now[p] == id);
                    } else {
                        assert(now[now.len() - 1] == id);
                    }
                }
            }
        }
        q = q + 1;
    }
    let ghost rv = strs_view(resolved@);
    let mut a: usize = 0;
    while a < resolved.len()
        invariant
            a <= resolved@.len(),
            rv == strs_view(resolved@),
            cs == comps_view(config.components@),
            n == cs.len(),
            forall|id: Seq<char>| strs_view(explicit@).contains(id) <==> declared_id(cs, id),
            out@.len() == n + auto_ids(cs, rv, a as int).len(),
            forall|k: int| 0 <= k < n ==> declared_entry(#[trigger] out@[k], cs, k),
            forall|k: int|
                0 <= k < auto_ids(cs, rv, a as int).len() ==> auto_entry(
                    #[trigger] out@[n + k],
                    auto_ids(cs, rv, a as int)[k],
                ),
        decreases resolved@.len() - a,
    {
        let ghost prev = auto_ids(cs, rv, a as int);
        if !contains_str(&explicit, resolved[a].as_str()) {
            out.push(
                ValidatedComponent {
                    component_id: resolved[a].clone(),
                    platform_type: None,
                    index: 0,
                    entity_id: None,
                    config: Json::empty_object(),
                    auto_loaded: true,
                },
            );
            proof {
                assert(auto_ids(cs, rv, a + 1) == prev.push(rv[a as int]));
                assert forall|k: int| 0 <= k < prev.len() + 1 implies auto_entry(
                    #[trigger] out@[n + k],
                    auto_ids(cs, rv, a + 1)[k],
                ) by {
                    if k < prev.len() {
                        assert(auto_ids(cs, rv, a + 1)[k] == prev[k]);
                    }
                }
            }
        } else {
            proof {
                assert(auto_ids(cs, rv, a + 1) == prev);
            }
        }
        a = a + 1;
    }
    out
}

// ── Partial validation ────────────────────────────────────────────────────────

/// A partial config for incremental validation while a config is being edited.
pub struct PartialConfig {
    /// Optional esphome block (for platform validation).
    pub esphome: Option<EsphomeBlock>,
    /// Component instances added so far.
    pub components: Vec<ComponentConfig>,
    /// Substitutions defined so far.
    pub substitutions: StringMap,
}

/// The block that stands in for a missing `esphome:` block in partial validation.
pub open spec fn partial_placeholder(b: EsphomeBlock) -> bool {
    &&& b.name@ == "partial"@
    &&& b.platform@ == "esp32"@
    &&& b.board@ == "esp32dev"@
    &&& b.friendly_name is None
    &&& b.framework is None
    &&& b.includes@.len() == 0
    &&& b.libraries@.len() == 0
    &&& b.project is None
    &&& b.area is None
    &&& b.min_version is None
    &&& b.profile is None
    &&& b.solution is None
    &&& b.solution_variant is None
}

/// The diagnostics of partial validation for a given esphome block: those of
/// substitution (stage 2), of the esphome block (stage 5) and of the schemas
/// of the substituted components (stage 7), in that order.
pub open spec fn partial_diags(
    b: EsphomeBlock,
    cs: Seq<ComponentView>,
    subs: Seq<(Seq<char>, Seq<char>)>,
) -> Seq<crate::error::DiagnosticView> {
    let s2 = subst_components(cs, subs, cs.len() as int);
    s2.1 + preload_errors(b) + schema_errors(s2.0, s2.0.len() as int)
}

/// The validation pipeline's configuration: the component catalog and the
/// allow-list for external sources.
pub struct ValidationPipeline {
    /// Component catalog used for AUTO_LOAD, dependencies and conflicts.
    pub catalog: ComponentCatalog,
    /// External source allow-list for stage 4.
    pub allow_list: AllowList,
}

impl ValidationPipeline {
    /// A pipeline with the given catalog and an empty allow-list.
    pub fn new(catalog: ComponentCatalog) -> (r: Self)
        ensures
            r.catalog == catalog,
            r.allow_list.allowed_prefixes@.len() == 0,
    {
        ValidationPipeline { catalog, allow_list: AllowList::new() }
    }

    /// A pipeline with a custom allow-list for external sources.
    pub fn with_allow_list(catalog: ComponentCatalog, allow_list: AllowList) -> (r: Self)
        ensures
            r.catalog == catalog,
            r.allow_list == allow_list,
    {
        ValidationPipeline { catalog, allow_list }
    }

    /// Validate a partial config: substitutions (stage 2), the esphome block
    /// (stage 5; a placeholder block named `partial` on `esp32`/`esp32dev`
    /// when there is none) and component schemas (stage 7).
    pub fn validate_partial(&self, partial: PartialConfig) -> (r: Vec<ValidationError>)
        ensures
            match partial.esphome {
                Some(b) => diags(r@) == partial_diags(b, comps_view(partial.components@), partial.substitutions@),
                None => exists|b: EsphomeBlock|
                    partial_placeholder(b) && diags(r@) == partial_diags(
                        b,
                        comps_view(partial.components@),
                        partial.substitutions@,
                    ),
            },
    {
        let ghost cs = comps_view(partial.components@);
        let ghost subs = partial.substitutions@;
        let ghost pe = partial.esphome;
        let esphome = match partial.esphome {
            Some(b) => b,
            None => EsphomeBlock {
                name: owned("partial"),
                platform: owned("esp32"),
                board: owned("esp32dev"),
                friendly_name: None,
                framework: None,
                includes: Vec::new(),
                libraries: Vec::new(),
                project: None,
                area: None,
                min_version: None,
                profile: None,
                solution: None,
                solution_variant: None,
            },
        };
        let ghost b = esphome;
        let mut config = RawConfig {
            esphome,
            packages: Vec::new(),
            substitutions: partial.substitutions,
            components: partial.components,
        };
        let mut errors = stage_2_apply_substitutions(&mut config);
        let ghost e2 = errors@;
        match stage_5_preload_esphome_block(&config) {
            Ok(_) => {
                proof {
                    assert(preload_errors(b) =~= Seq::<crate::error::DiagnosticView>::empty());
                    assert(diags(errors@) =~= diags(e2) + preload_errors(b));
                }
            },
            Err(errs) => {
                let _ = absorb_stage(&mut errors, errs);
                proof {
                    assert(diags(errors@) =~= diags(e2) + preload_errors(b));
                }
            },
        }
        let ghost e5 = errors@;
        let s7 = stage_7_validate_schemas(&config);
        let ghost s7v = s7@;
        let _ = absorb_stage(&mut errors, s7);
        proof {
            let s2 = subst_components(cs, subs, cs.len() as int);
            assert(diags(errors@) =~= diags(e5) + diags(s7v));
            assert(diags(errors@) =~= s2.1 + preload_errors(b) + schema_errors(s2.0, s2.0.len() as int));
            if pe is Some {
                assert(pe->0 == b);
            } else {
                assert(partial_placeholder(b));
            }
        }
        errors
    }
}

} // verus!
