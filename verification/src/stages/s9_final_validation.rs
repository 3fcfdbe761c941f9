//! Stage 9 — final cross-component validation.
//!
//! Invariants that span several components: network services need
//! connectivity, risky combinations are flagged, the config fits its
//! solution's component bundle and watchdog budget, and a sigrok logic
//! analyzer is configured within the hardware's limits.
use vstd::prelude::*;
use crate::error::{ValidationError, ValidationStage, Severity, DiagnosticView, diag, diag_hint, diags};
use crate::json::{Json, JsonNumber, JsonV, NumV, json_get};
use crate::raw::{RawConfig, ComponentView, comps_view};
use crate::sigrok::{SigrokConfig, SigrokTransport};
use crate::stages::s2_substitutions::index_path;
use crate::text::{concat2, concat3, concat5, push_str, str_eq, decimal, u64_to_decimal, strs_view};
use crate::catalog::contains_str;

verus! {

/// One step of a solution's fixed orchestration, as far as the budget
/// check reads it.
#[derive(Debug)]
pub struct OrchestrationStep {
    /// Step id.
    pub id: String,
    /// The retry policy's total budget in milliseconds, when the step has one.
    pub total_budget_ms: Option<u32>,
}

/// What the solution registry declares of a solution.
#[derive(Debug)]
pub struct SolutionBundle {
    /// Components the solution requires.
    pub required: Vec<String>,
    /// Components the solution allows.
    pub optional: Vec<String>,
    /// The failsafe watchdog window in milliseconds, if any.
    pub watchdog_ms: Option<u32>,
    /// The fixed orchestration steps.
    pub steps: Vec<OrchestrationStep>,
}

/// Some component has type `t`.
pub open spec fn has_type(cs: Seq<ComponentView>, t: Seq<char>) -> bool {
    exists|i: int| 0 <= i < cs.len() && (#[trigger] cs[i]).component_type == t
}

/// The distinct component types of the first `n` components, in order of
/// first occurrence.
pub open spec fn distinct_types(cs: Seq<ComponentView>, n: int) -> Seq<Seq<char>>
    decreases n,
{
    if n <= 0 || n > cs.len() {
        Seq::empty()
    } else {
        let prev = distinct_types(cs, n - 1);
        if prev.contains(cs[n - 1].component_type) {
            prev
        } else {
            prev.push(cs[n - 1].component_type)
        }
    }
}

/// The logger infos for the first `n` components: one per `logger` whose
/// `baud_rate` is a positive integer.
pub open spec fn logger_infos(cs: Seq<ComponentView>, n: int) -> Seq<DiagnosticView>
    decreases n,
{
    if n <= 0 || n > cs.len() {
        Seq::empty()
    } else {
        logger_infos(cs, n - 1) + if cs[n - 1].component_type == "logger"@ && (match json_get(
            cs[n - 1].config,
            "baud_rate"@,
        ) {
            Some(JsonV::Number(NumV::PosInt(b))) => b > 0,
            _ => false,
        }) {
            seq![
                diag(
                    ValidationStage::FinalValidation,
                    Severity::Info,
                    "logger"@,
                    "logger is active during deep_sleep wakeup; consider setting baud_rate: 0 to disable serial logging"@,
                ),
            ]
        } else {
            Seq::empty()
        }
    }
}

/// The connectivity and combination rules (1 to 5).
pub open spec fn connectivity_errors(cs: Seq<ComponentView>) -> Seq<DiagnosticView> {
    let wifi = has_type(cs, "wifi"@) || has_type(cs, "ethernet"@);
    let api = has_type(cs, "api"@);
    let mqtt = has_type(cs, "mqtt"@);
    let ota = has_type(cs, "ota"@);
    let sleep = has_type(cs, "deep_sleep"@);
    let logger = has_type(cs, "logger"@);
    (if api && !wifi {
        seq![
            diag_hint(
                ValidationStage::FinalValidation,
                Severity::Error,
                "api"@,
                "the 'api:' component requires 'wifi:' or 'ethernet:' to be configured"@,
                "Add a 'wifi:' block with your SSID and password"@,
            ),
        ]
    } else {
        Seq::empty()
    }) + (if mqtt && api {
        seq![
            diag(
                ValidationStage::FinalValidation,
                Severity::Warning,
                "mqtt"@,
                "both 'mqtt:' and 'api:' are configured; Home Assistant native API and MQTT can conflict \u{2014} consider using only one"@,
            ),
        ]
    } else {
        Seq::empty()
    }) + (if ota && !wifi {
        seq![
            diag_hint(
                ValidationStage::FinalValidation,
                Severity::Error,
                "ota"@,
                "the 'ota:' component requires 'wifi:' or 'ethernet:' to be configured"@,
                "OTA updates are delivered over the network"@,
            ),
        ]
    } else {
        Seq::empty()
    }) + (if sleep && api {
        seq![
            diag(
                ValidationStage::FinalValidation,
                Severity::Warning,
                "deep_sleep"@,
                "deep_sleep and api are both configured; the device will disconnect from Home Assistant during sleep cycles"@,
            ),
        ]
    } else {
        Seq::empty()
    }) + (if sleep && logger {
        logger_infos(cs, cs.len() as int)
    } else {
        Seq::empty()
    })
}

/// Rule 8: mqtt requires connectivity.
pub open spec fn mqtt_errors(cs: Seq<ComponentView>) -> Seq<DiagnosticView> {
    if has_type(cs, "mqtt"@) && !(has_type(cs, "wifi"@) || has_type(cs, "ethernet"@)) {
        seq![
            diag_hint(
                ValidationStage::FinalValidation,
                Severity::Error,
                "mqtt"@,
                "the 'mqtt:' component requires 'wifi:' or 'ethernet:' to be configured"@,
                "Add a 'wifi:' block with your SSID and password"@,
            ),
        ]
    } else {
        Seq::empty()
    }
}

fn has_component_type(cs: &Vec<crate::raw::ComponentConfig>, t: &str) -> (r: bool)
    ensures
        r == has_type(comps_view(cs@), t@),
{
    let ghost v = comps_view(cs@);
    let mut i: usize = 0;
    while i < cs.len()
        invariant
            i <= cs@.len(),
            v == comps_view(cs@),
            forall|k: int| 0 <= k < i ==> (#[trigger] v[k]).component_type != t@,
        decreases cs@.len() - i,
    {
        if str_eq(cs[i].component_type.as_str(), t) {
            proof {
                assert(v[i as int].component_type == t@);
            }
            return true;
        }
        i = i + 1;
    }
    false
}

fn logger_info_pass(config: &RawConfig, errors: &mut Vec<ValidationError>)
    ensures
        diags(final(errors)@) == diags(old(errors)@) + logger_infos(
            comps_view(config.components@),
            config.components@.len() as int,
        ),
{
    let ghost cs = comps_view(config.components@);
    let ghost e0 = diags(errors@);
    let mut i: usize = 0;
    while i < config.components.len()
        invariant
            i <= config.components@.len(),
            cs == comps_view(config.components@),
            diags(errors@) == e0 + logger_infos(cs, i as int),
        decreases config.components@.len() - i,
    {
        let comp = &config.components[i];
        proof {
            assert(cs[i as int] == comp@);
        }
        let ghost before = diags(errors@);
        let mut hit = false;
        if str_eq(comp.component_type.as_str(), "logger") {
            match comp.config.get("baud_rate") {
                Some(Json::Number(JsonNumber::PosInt(b))) => {
                    if *b > 0 {
                        hit = true;
                    }
                },
                _ => {},
            }
        }
        if hit {
            let e = ValidationError::info(
                ValidationStage::FinalValidation,
                "logger",
                "logger is active during deep_sleep wakeup; consider setting baud_rate: 0 to disable serial logging",
            );
            errors.push(e);
            proof {
                assert(diags(errors@) =~= before + seq![e@]);
            }
        } else {
            proof {
                assert(diags(errors@) =~= before + Seq::<DiagnosticView>::empty());
            }
        }
        i = i + 1;
    }
}

/// The budget error for step `i`, whose budget exceeds half the watchdog.
pub open spec fn budget_diag(sid: Seq<char>, i: int, step: Seq<char>, total: nat, watchdog: nat) -> DiagnosticView {
    let half = watchdog / 2;
    diag_hint(
        ValidationStage::FinalValidation,
        Severity::Error,
        index_path("esphome.solution.fixed_orchestration"@, i) + ".retry_policy.total_budget_ms"@,
        "OrchestrationBudgetExceeded: solution '"@ + sid + "' step '"@ + step + "' total_budget_ms ("@
            + decimal(total) + ") > watchdog_ms / 2 ("@ + decimal(half)
            + "); the retry budget would consume more than half the watchdog window and could mask a real persistent failure"@,
        "Reduce retry_policy.total_budget_ms to \u{2264} "@ + decimal(half) + " ms (half of watchdog_ms = "@
            + decimal(watchdog) + " ms), or shorten max_attempts / backoff so the schedule fits"@,
    )
}

/// One error per step (of the first `n`) whose total budget exceeds half the
/// watchdog window.
pub open spec fn budget_errors(sid: Seq<char>, watchdog: nat, steps: Seq<OrchestrationStep>, n: int) -> Seq<
    DiagnosticView,
>
    decreases n,
{
    if n <= 0 || n > steps.len() {
        Seq::empty()
    } else {
        budget_errors(sid, watchdog, steps, n - 1) + match steps[n - 1].total_budget_ms {
            Some(t) => if t > watchdog / 2 {
                seq![budget_diag(sid, n - 1, steps[n - 1].id@, t as nat, watchdog)]
            } else {
                Seq::empty()
            },
            None => Seq::empty(),
        }
    }
}

/// Check each orchestration step's retry budget against half the watchdog window.
pub fn check_orchestration_budget(
    solution_id: &str,
    watchdog_ms: u32,
    steps: &Vec<OrchestrationStep>,
    errors: &mut Vec<ValidationError>,
)
    ensures
        diags(final(errors)@) == diags(old(errors)@) + budget_errors(
            solution_id@,
            watchdog_ms as nat,
            steps@,
            steps@.len() as int,
        ),
{
    let ghost e0 = diags(errors@);
    let half = watchdog_ms / 2;
    let mut i: usize = 0;
    while i < steps.len()
        invariant
            i <= steps@.len(),
            half == watchdog_ms / 2,
            diags(errors@) == e0 + budget_errors(solution_id@, watchdog_ms as nat, steps@, i as int),
        decreases steps@.len() - i,
    {
        let ghost before = diags(errors@);
        let step = &steps[i];
        let mut hit = false;
        if let Some(total) = step.total_budget_ms {
            if total > half {
                hit = true;
                let ip = concat3("[", u64_to_decimal(i as u64).as_str(), "]");
                let path = concat3("esphome.solution.fixed_orchestration", ip.as_str(), ".retry_policy.total_budget_ms");
                let hs = u64_to_decimal(half as u64);
                let mut msg = concat5("OrchestrationBudgetExceeded: solution '", solution_id, "' step '", step.id.as_str(), "' total_budget_ms (");
                push_str(&mut msg, u64_to_decimal(total as u64).as_str());
                push_str(&mut msg, ") > watchdog_ms / 2 (");
                push_str(&mut msg, hs.as_str());
                push_str(&mut msg, "); the retry budget would consume more than half the watchdog window and could mask a real persistent failure");
                let mut hint = concat3("Reduce retry_policy.total_budget_ms to \u{2264} ", hs.as_str(), " ms (half of watchdog_ms = ");
                push_str(&mut hint, u64_to_decimal(watchdog_ms as u64).as_str());
                push_str(&mut hint, " ms), or shorten max_attempts / backoff so the schedule fits");
                let e = ValidationError::error(ValidationStage::FinalValidation, path.as_str(), msg.as_str())
                    .with_suggestion(hint.as_str());
                errors.push(e);
                proof {
                    reveal_strlit("[");
                    reveal_strlit("]");
                    assert(e@ == budget_diag(solution_id@, i as int, step.id@, total as nat, watchdog_ms as nat)) by {
                        assert(path@ =~= index_path("esphome.solution.fixed_orchestration"@, i as int) + ".retry_policy.total_budget_ms"@);
                        assert(msg@ =~= "OrchestrationBudgetExceeded: solution '"@ + solution_id@ + "' step '"@ + step.id@ + "' total_budget_ms ("@
                            + decimal(total as nat) + ") > watchdog_ms / 2 ("@ + decimal((watchdog_ms / 2) as nat)
                            + "); the retry budget would consume more than half the watchdog window and could mask a real persistent failure"@);
                        assert(hint@ =~= "Reduce retry_policy.total_budget_ms to \u{2264} "@ + decimal((watchdog_ms / 2) as nat) + " ms (half of watchdog_ms = "@
                            + decimal(watchdog_ms as nat) + " ms), or shorten max_attempts / backoff so the schedule fits"@);
                    }
                    assert(diags(errors@) =~= before + seq![e@]);
                }
            }
        }
        if !hit {
            proof {
                assert(diags(errors@) =~= before + Seq::<DiagnosticView>::empty());
            }
        }
        i = i + 1;
    }
}

/// The errors for required components that are not configured.
pub open spec fn required_errors(sid: Seq<char>, req: Seq<Seq<char>>, cs: Seq<ComponentView>, n: int) -> Seq<
    DiagnosticView,
>
    decreases n,
{
    if n <= 0 || n > req.len() {
        Seq::empty()
    } else {
        required_errors(sid, req, cs, n - 1) + if !has_type(cs, req[n - 1]) {
            seq![
                diag_hint(
                    ValidationStage::FinalValidation,
                    Severity::Error,
                    "esphome.solution"@,
                    "solution '"@ + sid + "' requires component '"@ + req[n - 1] + "' but it is not configured"@,
                    "Add a '"@ + req[n - 1] + ":' block to your configuration"@,
                ),
            ]
        } else {
            Seq::empty()
        }
    }
}

/// The warnings for the first `n` component types that the bundle does not list.
pub open spec fn bundle_warnings(sid: Seq<char>, known: Seq<Seq<char>>, types: Seq<Seq<char>>, n: int) -> Seq<
    DiagnosticView,
>
    decreases n,
{
    if n <= 0 || n > types.len() {
        Seq::empty()
    } else {
        bundle_warnings(sid, known, types, n - 1) + if !known.contains(types[n - 1]) {
            seq![
                diag(
                    ValidationStage::FinalValidation,
                    Severity::Warning,
                    "esphome.solution"@,
                    "component '"@ + types[n - 1] + "' is not part of solution '"@ + sid
                        + "' bundle; it may not be compatible"@,
                ),
            ]
        } else {
            Seq::empty()
        }
    }
}

/// The solution rules: unknown solution, missing required components,
/// components outside the bundle (each type once, in order of first
/// occurrence), and the orchestration budget.
pub open spec fn solution_errors(sid: Seq<char>, bundle: Option<SolutionBundle>, cs: Seq<ComponentView>) -> Seq<
    DiagnosticView,
> {
    match bundle {
        None => seq![
            diag(
                ValidationStage::FinalValidation,
                Severity::Error,
                "esphome.solution"@,
                "unknown solution '"@ + sid + "'; not found in solution registry"@,
            ),
        ],
        Some(b) => {
            let req = strs_view(b.required@);
            let known = req + strs_view(b.optional@);
            let types = distinct_types(cs, cs.len() as int);
            required_errors(sid, req, cs, req.len() as int) + bundle_warnings(
                sid,
                known,
                types,
                types.len() as int,
            ) + match b.watchdog_ms {
                Some(w) => budget_errors(sid, w as nat, b.steps@, b.steps@.len() as int),
                None => Seq::empty(),
            }
        },
    }
}

fn distinct_component_types(cs: &Vec<crate::raw::ComponentConfig>) -> (r: Vec<String>)
    ensures
        strs_view(r@) == distinct_types(comps_view(cs@), cs@.len() as int),
{
    let ghost v = comps_view(cs@);
    let mut out: Vec<String> = Vec::new();
    let mut i: usize = 0;
    while i < cs.len()
        invariant
            i <= cs@.len(),
            v == comps_view(cs@),
            strs_view(out@) == distinct_types(v, i as int),
        decreases cs@.len() - i,
    {
        proof {
            assert(v[i as int] == cs@[i as int]@);
        }
        if !contains_str(&out, cs[i].component_type.as_str()) {
            let ghost before = strs_view(out@);
            out.push(cs[i].component_type.clone());
            proof {
                assert(strs_view(out@) =~= before.push(v[i as int].component_type));
            }
        }
        i = i + 1;
    }
    out
}

/// The orchestration budget rule of a solution: nothing for an unknown
/// solution (reported by the solution rules) or one without a failsafe
/// watchdog; otherwise each step's retry budget must fit in half the
/// watchdog window.
pub fn validate_orchestration_budget(sid: &str, bundle: Option<&SolutionBundle>, errors: &mut Vec<ValidationError>)
    ensures
        diags(final(errors)@) == diags(old(errors)@) + match bundle {
            Some(b) => match b.watchdog_ms {
                Some(w) => budget_errors(sid@, w as nat, b.steps@, b.steps@.len() as int),
                None => Seq::empty(),
            },
            None => Seq::empty(),
        },
{
    let ghost e0 = diags(errors@);
    match bundle {
        Some(b) => match b.watchdog_ms {
            Some(w) => {
                check_orchestration_budget(sid, w, &b.steps, errors);
            },
            None => {
                proof {
                    assert(diags(errors@) =~= e0 + Seq::<DiagnosticView>::empty());
                }
            },
        },
        None => {
            proof {
                assert(diags(errors@) =~= e0 + Seq::<DiagnosticView>::empty());
            }
        },
    }
}

/// The solution rules: an unknown solution is an error; otherwise each
/// required component must be configured, each configured type should be in
/// the bundle, and each retry budget must fit in half the watchdog window.
fn validate_solution(
    sid: &str,
    bundle: Option<&SolutionBundle>,
    config: &RawConfig,
    errors: &mut Vec<ValidationError>,
)
    ensures
        diags(final(errors)@) == diags(old(errors)@) + solution_errors(
            sid@,
            match bundle {
                Some(b) => Some(*b),
                None => None,
            },
            comps_view(config.components@),
        ),
{
    let ghost e0 = diags(errors@);
    let ghost cs = comps_view(config.components@);
    match bundle {
        None => {
            let msg = concat3("unknown solution '", sid, "'; not found in solution registry");
            let e = ValidationError::error(ValidationStage::FinalValidation, "esphome.solution", msg.as_str());
            errors.push(e);
            proof {
                assert(diags(errors@) =~= e0 + seq![e@]);
            }
        },
        Some(b) => {
            let ghost req = strs_view(b.required@);
            let mut i: usize = 0;
            while i < b.required.len()
                invariant
                    i <= b.required@.len(),
                    req == strs_view(b.required@),
                    cs == comps_view(config.components@),
                    diags(errors@) == e0 + required_errors(sid@, req, cs, i as int),
                decreases b.required@.len() - i,
            {
                let ghost before = diags(errors@);
                let r = b.required[i].as_str();
                if !has_component_type(&config.components, r) {
                    let msg = concat5("solution '", sid, "' requires component '", r, "' but it is not configured");
                    let hint = concat3("Add a '", r, ":' block to your configuration");
                    let e = ValidationError::error(ValidationStage::FinalValidation, "esphome.solution", msg.as_str())
                        .with_suggestion(hint.as_str());
                    errors.push(e);
                    proof {
                        assert(diags(errors@) =~= before + seq![e@]);
                    }
                } else {
                    proof {
                        assert(diags(errors@) =~= before + Seq::<DiagnosticView>::empty());
                    }
                }
                i = i + 1;
            }
            let ghost e1 = diags(errors@);
            let ghost known = req + strs_view(b.optional@);
            let types = distinct_component_types(&config.components);
            let ghost tv = strs_view(types@);
            let mut j: usize = 0;
            while j < types.len()
                invariant
                    j <= types@.len(),
                    tv == strs_view(types@),
                    known == strs_view(b.required@) + strs_view(b.optional@),
                    diags(errors@) == e1 + bundle_warnings(sid@, known, tv, j as int),
                decreases types@.len() - j,
            {
                let ghost before = diags(errors@);
                let t = types[j].as_str();
                let listed = contains_str(&b.required, t) || contains_str(&b.optional, t);
                proof {
                    assert(known.contains(t@) == (strs_view(b.required@).contains(t@) || strs_view(b.optional@).contains(t@))) by {
                        if known.contains(t@) {
                            let k = choose|k: int| 0 <= k < known.len() && known[k] == t@;
                            if k >= strs_view(b.required@).len() {
                                assert(strs_view(b.optional@)[k - strs_view(b.required@).len()] == t@);
                            } else {
                                assert(strs_view(b.required@)[k] == t@);
                            }
                        }
                        if strs_view(b.required@).contains(t@) {
                            let k = choose|k: int| 0 <= k < strs_view(b.required@).len() && strs_view(b.required@)[k] == t@;
                            assert(known[k] == t@);
                        }
                        if strs_view(b.optional@).contains(t@) {
                            let k = choose|k: int| 0 <= k < strs_view(b.optional@).len() && strs_view(b.optional@)[k] == t@;
                            assert(known[k + strs_view(b.required@).len()] == t@);
                        }
                    }
                }
                if !listed {
                    let msg = concat5("component '", t, "' is not part of solution '", sid, "' bundle; it may not be compatible");
                    let e = ValidationError::warning(ValidationStage::FinalValidation, "esphome.solution", msg.as_str());
                    errors.push(e);
                    proof {
                        assert(diags(errors@) =~= before + seq![e@]);
                    }
                } else {
                    proof {
                        assert(diags(errors@) =~= before + Seq::<DiagnosticView>::empty());
                    }
                }
                j = j + 1;
            }
            validate_orchestration_budget(sid, Some(b), errors);
            proof {
                assert(diags(errors@) =~= e0 + solution_errors(sid@, Some(*b), cs));
            }
        },
    }
}

/// GPIOs that are strapping pins.
pub open spec fn strapping_pin(p: u8) -> bool {
    p == 0 || p == 3 || p == 45 || p == 46
}

/// GPIOs of the USB Serial/JTAG interface.
pub open spec fn usb_jtag_pin(p: u8) -> bool {
    p == 19 || p == 20
}

/// GPIOs of the SPI flash bus.
pub open spec fn flash_pin(p: u8) -> bool {
    26 <= p <= 32
}

/// The diagnostics for the pins of the first `n` channels: a repeated GPIO.
pub open spec fn duplicate_pin_errors(pins: Seq<u8>, n: int) -> Seq<DiagnosticView>
    decreases n,
{
    if n <= 0 || n > pins.len() {
        Seq::empty()
    } else {
        duplicate_pin_errors(pins, n - 1) + if pins.subrange(0, n - 1).contains(pins[n - 1]) {
            seq![
                diag(
                    ValidationStage::FinalValidation,
                    Severity::Error,
                    "sigrok.channels"@,
                    "duplicate GPIO "@ + decimal(pins[n - 1] as nat) + " in sigrok channels"@,
                ),
            ]
        } else {
            Seq::empty()
        }
    }
}

/// The diagnostics for reserved or risky pins among the first `n` channels.
pub open spec fn reserved_pin_errors(pins: Seq<u8>, n: int) -> Seq<DiagnosticView>
    decreases n,
{
    if n <= 0 || n > pins.len() {
        Seq::empty()
    } else {
        let p = pins[n - 1];
        let d = decimal(p as nat);
        reserved_pin_errors(pins, n - 1) + (if strapping_pin(p) {
            seq![
                diag(
                    ValidationStage::FinalValidation,
                    Severity::Warning,
                    "sigrok.channels"@,
                    "GPIO "@ + d + " is a strapping pin \u{2014} may cause boot issues"@,
                ),
            ]
        } else {
            Seq::empty()
        }) + (if usb_jtag_pin(p) {
            seq![
                diag(
                    ValidationStage::FinalValidation,
                    Severity::Error,
                    "sigrok.channels"@,
                    "GPIO "@ + d + " is used by USB Serial/JTAG (SUMP transport) and cannot be a sigrok channel"@,
                ),
            ]
        } else {
            Seq::empty()
        }) + (if flash_pin(p) {
            seq![
                diag(
                    ValidationStage::FinalValidation,
                    Severity::Error,
                    "sigrok.channels"@,
                    "GPIO "@ + d + " is a SPI flash pin and cannot be used"@,
                ),
            ]
        } else {
            Seq::empty()
        })
    }
}

/// The sigrok rules for a parsed config.
pub open spec fn sigrok_config_errors(c: SigrokConfig) -> Seq<DiagnosticView> {
    let pins = c.channels@;
    (if pins.len() != 8 && pins.len() != 16 {
        seq![
            diag(
                ValidationStage::FinalValidation,
                Severity::Error,
                "sigrok.channels"@,
                "sigrok requires exactly 8 or 16 channels, got "@ + decimal(pins.len()),
            ),
        ]
    } else {
        Seq::empty()
    }) + duplicate_pin_errors(pins, pins.len() as int) + reserved_pin_errors(pins, pins.len() as int) + (
    if c.transport == SigrokTransport::UsbOtgCdc {
        seq![
            diag(
                ValidationStage::FinalValidation,
                Severity::Warning,
                "sigrok.transport"@,
                "USB-OTG mode disables the ESP32-S3's built-in USB Serial/JTAG interface. You will need a USB-UART bridge (e.g., CP2102) on GPIO 43/44 for flashing and serial monitor."@,
            ),
        ]
    } else {
        Seq::empty()
    }) + (if c.sample_rate_hz > 20_000_000 {
        seq![
            diag(
                ValidationStage::FinalValidation,
                Severity::Error,
                "sigrok.sample_rate_hz"@,
                "sample rate "@ + decimal(c.sample_rate_hz as nat) + " Hz exceeds the 20 MHz hardware maximum for ESP32-S3"@,
            ),
        ]
    } else {
        Seq::empty()
    }) + (if c.buffer_depth > 200_000 {
        seq![
            diag(
                ValidationStage::FinalValidation,
                Severity::Error,
                "sigrok.buffer_depth"@,
                "buffer depth "@ + decimal(c.buffer_depth as nat) + " exceeds the 200000 sample SRAM limit"@,
            ),
        ]
    } else {
        Seq::empty()
    })
}

/// The sigrok rules: the platform must be `esp32s3`; then the parse of the
/// component's config must have succeeded; then its settings are checked.
pub open spec fn sigrok_errors(platform: Seq<char>, parsed: Option<Result<SigrokConfig, String>>) -> Seq<
    DiagnosticView,
> {
    if platform != "esp32s3"@ {
        seq![
            diag_hint(
                ValidationStage::FinalValidation,
                Severity::Error,
                "sigrok"@,
                "sigrok component requires ESP32-S3 but target is '"@ + platform + "'"@,
                "Change platform to 'esp32s3' or remove the sigrok component"@,
            ),
        ]
    } else {
        match parsed {
            None => Seq::empty(),
            Some(Err(e)) => seq![
                diag(
                    ValidationStage::FinalValidation,
                    Severity::Error,
                    "sigrok"@,
                    "invalid sigrok config: "@ + e@,
                ),
            ],
            Some(Ok(c)) => sigrok_config_errors(c),
        }
    }
}

fn contains_pin(v: &Vec<u8>, n: usize, p: u8) -> (r: bool)
    requires
        n <= v@.len(),
    ensures
        r == v@.subrange(0, n as int).contains(p),
{
    let mut i: usize = 0;
    while i < n
        invariant
            i <= n <= v@.len(),
            forall|k: int| 0 <= k < i ==> v@[k] != p,
        decreases n - i,
    {
        if v[i] == p {
            proof {
                assert(v@.subrange(0, n as int)[i as int] == p);
            }
            return true;
        }
        i = i + 1;
    }
    proof {
        if v@.subrange(0, n as int).contains(p) {
            let k = choose|k: int| 0 <= k < n && v@.subrange(0, n as int)[k] == p;
            assert(v@[k] == p);
        }
    }
    false
}

fn duplicate_pass(pins: &Vec<u8>, errors: &mut Vec<ValidationError>)
    ensures
        diags(final(errors)@) == diags(old(errors)@) + duplicate_pin_errors(pins@, pins@.len() as int),
{
    let n = pins.len();
    let ghost e1 = diags(errors@);
    let mut i: usize = 0;
    while i < n
        invariant
            i <= n,
            n == pins@.len(),
            diags(errors@) == e1 + duplicate_pin_errors(pins@, i as int),
        decreases n - i,
    {
        let ghost before = diags(errors@);
        if contains_pin(pins, i, pins[i]) {
            let msg = concat3("duplicate GPIO ", u64_to_decimal(pins[i] as u64).as_str(), " in sigrok channels");
            let e = ValidationError::error(ValidationStage::FinalValidation, "sigrok.channels", msg.as_str());
            errors.push(e);
            proof {
                assert(diags(errors@) =~= before + seq![e@]);
            }
        } else {
            proof {
                assert(diags(errors@) =~= before + Seq::<DiagnosticView>::empty());
            }
        }
        i = i + 1;
    }
}

fn reserved_pass(pins: &Vec<u8>, errors: &mut Vec<ValidationError>)
    ensures
        diags(final(errors)@) == diags(old(errors)@) + reserved_pin_errors(pins@, pins@.len() as int),
{
    let n = pins.len();
    let ghost e2 = diags(errors@);
    let mut i: usize = 0;
    while i < n
        invariant
            i <= n,
            n == pins@.len(),
            diags(errors@) == e2 + reserved_pin_errors(pins@, i as int),
        decreases n - i,
    {
        let ghost before = diags(errors@);
        let p = pins[i];
        let d = u64_to_decimal(p as u64);
        let ghost dd = decimal(p as nat);
        if p == 0 || p == 3 || p == 45 || p == 46 {
            let msg = concat3("GPIO ", d.as_str(), " is a strapping pin \u{2014} may cause boot issues");
            let e = ValidationError::warning(ValidationStage::FinalValidation, "sigrok.channels", msg.as_str());
            errors.push(e);
            proof {
                assert(diags(errors@) =~= before + seq![e@]);
            }
        } else {
            proof {
                assert(diags(errors@) =~= before + Seq::<DiagnosticView>::empty());
            }
        }
        let ghost mid1 = diags(errors@);
        if p == 19 || p == 20 {
            let msg = concat3("GPIO ", d.as_str(), " is used by USB Serial/JTAG (SUMP transport) and cannot be a sigrok channel");
            let e = ValidationError::error(ValidationStage::FinalValidation, "sigrok.channels", msg.as_str());
            errors.push(e);
            proof {
                assert(diags(errors@) =~= mid1 + seq![e@]);
            }
        } else {
            proof {
                assert(diags(errors@) =~= mid1 + Seq::<DiagnosticView>::empty());
            }
        }
        let ghost mid2 = diags(errors@);
        if 26 <= p && p <= 32 {
            let msg = concat3("GPIO ", d.as_str(), " is a SPI flash pin and cannot be used");
            let e = ValidationError::error(ValidationStage::FinalValidation, "sigrok.channels", msg.as_str());
            errors.push(e);
            proof {
                assert(diags(errors@) =~= mid2 + seq![e@]);
            }
        } else {
            proof {
                assert(diags(errors@) =~= mid2 + Seq::<DiagnosticView>::empty());
            }
        }
        proof {
            assert(pins@[i as int] == p);
            assert(diags(errors@) =~= e2 + reserved_pin_errors(pins@, i + 1));
        }
        i = i + 1;
    }
}

fn limits_pass(c: &SigrokConfig, errors: &mut Vec<ValidationError>)
    ensures
        diags(final(errors)@) == diags(old(errors)@) + (if c.transport == SigrokTransport::UsbOtgCdc {
            seq![
                diag(
                    ValidationStage::FinalValidation,
                    Severity::Warning,
                    "sigrok.transport"@,
                    "USB-OTG mode disables the ESP32-S3's built-in USB Serial/JTAG interface. You will need a USB-UART bridge (e.g., CP2102) on GPIO 43/44 for flashing and serial monitor."@,
                ),
            ]
        } else {
            Seq::empty()
        }) + (if c.sample_rate_hz > 20_000_000 {
            seq![
                diag(
                    ValidationStage::FinalValidation,
                    Severity::Error,
                    "sigrok.sample_rate_hz"@,
                    "sample rate "@ + decimal(c.sample_rate_hz as nat) + " Hz exceeds the 20 MHz hardware maximum for ESP32-S3"@,
                ),
            ]
        } else {
            Seq::empty()
        }) + (if c.buffer_depth > 200_000 {
            seq![
                diag(
                    ValidationStage::FinalValidation,
                    Severity::Error,
                    "sigrok.buffer_depth"@,
                    "buffer depth "@ + decimal(c.buffer_depth as nat) + " exceeds the 200000 sample SRAM limit"@,
                ),
            ]
        } else {
            Seq::empty()
        }),
{
    let ghost e3 = diags(errors@);
    if c.transport == SigrokTransport::UsbOtgCdc {
        let e = ValidationError::warning(
            ValidationStage::FinalValidation,
            "sigrok.transport",
            "USB-OTG mode disables the ESP32-S3's built-in USB Serial/JTAG interface. You will need a USB-UART bridge (e.g., CP2102) on GPIO 43/44 for flashing and serial monitor.",
        );
        errors.push(e);
        proof {
            assert(diags(errors@) =~= e3 + seq![e@]);
        }
    } else {
        proof {
            assert(diags(errors@) =~= e3 + Seq::<DiagnosticView>::empty());
        }
    }
    let ghost e4 = diags(errors@);
    if c.sample_rate_hz > 20_000_000 {
        let msg = concat3("sample rate ", u64_to_decimal(c.sample_rate_hz as u64).as_str(), " Hz exceeds the 20 MHz hardware maximum for ESP32-S3");
        let e = ValidationError::error(ValidationStage::FinalValidation, "sigrok.sample_rate_hz", msg.as_str());
        errors.push(e);
        proof {
            assert(diags(errors@) =~= e4 + seq![e@]);
        }
    } else {
        proof {
            assert(diags(errors@) =~= e4 + Seq::<DiagnosticView>::empty());
        }
    }
    let ghost e5 = diags(errors@);
    if c.buffer_depth > 200_000 {
        let msg = concat3("buffer depth ", u64_to_decimal(c.buffer_depth as u64).as_str(), " exceeds the 200000 sample SRAM limit");
        let e = ValidationError::error(ValidationStage::FinalValidation, "sigrok.buffer_depth", msg.as_str());
        errors.push(e);
        proof {
            assert(diags(errors@) =~= e5 + seq![e@]);
        }
    } else {
        proof {
            assert(diags(errors@) =~= e5 + Seq::<DiagnosticView>::empty());
        }
    }
    proof {
        assert(diags(errors@) =~= e3 + (diags(errors@).subrange(e3.len() as int, diags(errors@).len() as int)));
    }
}


/// The rules on a parsed sigrok config: channel count, duplicate and
/// reserved pins, sample rate and buffer limits.
#[verifier::rlimit(50)]
#[verifier::spinoff_prover]
fn validate_sigrok(c: &SigrokConfig, errors: &mut Vec<ValidationError>)
    ensures
        diags(final(errors)@) == diags(old(errors)@) + sigrok_config_errors(*c),
{
    let ghost e0 = diags(errors@);
    let pins = &c.channels;
    let n = pins.len();
    if n != 8 && n != 16 {
        let msg = concat2("sigrok requires exactly 8 or 16 channels, got ", u64_to_decimal(n as u64).as_str());
        let e = ValidationError::error(ValidationStage::FinalValidation, "sigrok.channels", msg.as_str());
        errors.push(e);
        proof {
            assert(diags(errors@) =~= e0 + seq![e@]);
        }
    } else {
        proof {
            assert(diags(errors@) =~= e0 + Seq::<DiagnosticView>::empty());
        }
    }
    let ghost e1 = diags(errors@);
    duplicate_pass(pins, errors);
    let ghost e2 = diags(errors@);
    reserved_pass(pins, errors);
    let ghost e3 = diags(errors@);
    limits_pass(c, errors);
    proof {
        assert(diags(errors@) =~= e0 + sigrok_config_errors(*c));
    }
}

/// The diagnostics of stage 9, in rule order: connectivity and combinations,
/// the climate checks (when a `climate` component exists), mqtt
/// connectivity, the solution rules (when a solution is named), and the
/// sigrok rules (when a `sigrok` component exists).
pub open spec fn final_errors(
    config: RawConfig,
    bundle: Option<SolutionBundle>,
    climate: Seq<DiagnosticView>,
    sigrok: Option<Result<SigrokConfig, String>>,
) -> Seq<DiagnosticView> {
    let cs = comps_view(config.components@);
    connectivity_errors(cs) + (if has_type(cs, "climate"@) {
        climate
    } else {
        Seq::empty()
    }) + mqtt_errors(cs) + match config.esphome.solution {
        Some(sid) => solution_errors(sid@, bundle, cs),
        None => Seq::empty(),
    } + if has_type(cs, "sigrok"@) {
        sigrok_errors(config.esphome.platform@, sigrok)
    } else {
        Seq::empty()
    }
}

/// Stage 9: cross-component invariant checks.
///
/// `solution` is the registry's bundle for `config.esphome.solution` (or
/// `None` when the registry does not know it); `climate_errors` are the
/// diagnostics of the climate visual checks; `sigrok` is the parse of the
/// first `sigrok` component's config.
#[verifier::rlimit(50)]
#[verifier::spinoff_prover]
pub fn stage_9_final_validation(
    config: &RawConfig,
    solution: Option<&SolutionBundle>,
    climate_errors: Vec<ValidationError>,
    sigrok: Option<Result<SigrokConfig, String>>,
) -> (errors: Vec<ValidationError>)
    ensures
        diags(errors@) == final_errors(
            *config,
            match solution {
                Some(b) => Some(*b),
                None => None,
            },
            diags(climate_errors@),
            sigrok,
        ),
{
    let mut errors: Vec<ValidationError> = Vec::new();
    let ghost cs = comps_view(config.components@);
    let cv = &config.components;
    let has_wifi = has_component_type(cv, "wifi") || has_component_type(cv, "ethernet");
    let has_api = has_component_type(cv, "api");
    let has_mqtt = has_component_type(cv, "mqtt");
    let has_ota = has_component_type(cv, "ota");
    let has_sleep = has_component_type(cv, "deep_sleep");
    let has_logger = has_component_type(cv, "logger");
    let has_climate = has_component_type(cv, "climate");
    if has_api && !has_wifi {
        errors.push(
            ValidationError::error(
                ValidationStage::FinalValidation,
                "api",
                "the 'api:' component requires 'wifi:' or 'ethernet:' to be configured",
            ).with_suggestion("Add a 'wifi:' block with your SSID and password"),
        );
    }
    if has_mqtt && has_api {
        errors.push(
            ValidationError::warning(
                ValidationStage::FinalValidation,
                "mqtt",
                "both 'mqtt:' and 'api:' are configured; Home Assistant native API and MQTT can conflict \u{2014} consider using only one",
            ),
        );
    }
    if has_ota && !has_wifi {
        errors.push(
            ValidationError::error(
                ValidationStage::FinalValidation,
                "ota",
                "the 'ota:' component requires 'wifi:' or 'ethernet:' to be configured",
            ).with_suggestion("OTA updates are delivered over the network"),
        );
    }
    if has_sleep && has_api {
        errors.push(
            ValidationError::warning(
                ValidationStage::FinalValidation,
                "deep_sleep",
                "deep_sleep and api are both configured; the device will disconnect from Home Assistant during sleep cycles",
            ),
        );
    }
    let ghost e4 = diags(errors@);
    if has_sleep && has_logger {
        logger_info_pass(config, &mut errors);
    }
    proof {
        assert(diags(errors@) =~= connectivity_errors(cs));
    }
    let ghost e5 = diags(errors@);
    let ghost clim = diags(climate_errors@);
    if has_climate {
        let mut k: usize = 0;
        let n = climate_errors.len();
        let mut rest = climate_errors;
        // Move the climate diagnostics over in order.
        let mut tmp: Vec<ValidationError> = Vec::new();
        while k < n
            invariant
                k <= n,
                n == clim.len(),
                rest@.len() == n,
                diags(rest@) == clim,
                diags(errors@) == e5 + clim.subrange(0, k as int),
            decreases n - k,
        {
            let ghost before = diags(errors@);
            let e = rest[k].clone();
            proof {
                assert(clim[k as int] == e@);
            }
            errors.push(e);
            proof {
                assert(diags(errors@) =~= before.push(e@));
                assert(diags(errors@) =~= e5 + clim.subrange(0, k + 1));
            }
            k = k + 1;
        }
        proof {
            assert(clim.subrange(0, n as int) =~= clim);
        }
    }
    let ghost e6 = diags(errors@);
    proof {
        if !has_climate {
            assert(e6 =~= e5 + Seq::<DiagnosticView>::empty());
        }
        assert(e6 == e5 + (if has_type(cs, "climate"@) { clim } else { Seq::empty() }));
    }
    if has_mqtt && !has_wifi {
        errors.push(
            ValidationError::error(
                ValidationStage::FinalValidation,
                "mqtt",
                "the 'mqtt:' component requires 'wifi:' or 'ethernet:' to be configured",
            ).with_suggestion("Add a 'wifi:' block with your SSID and password"),
        );
    }
    let ghost e7 = diags(errors@);
    proof {
        assert(e7 =~= e6 + mqtt_errors(cs));
    }
    if let Some(sid) = &config.esphome.solution {
        validate_solution(sid.as_str(), solution, config, &mut errors);
    } else {
        proof {
            assert(diags(errors@) =~= e7 + Seq::<DiagnosticView>::empty());
        }
    }
    let ghost e8 = diags(errors@);
    if has_component_type(cv, "sigrok") {
        if !str_eq(config.esphome.platform.as_str(), "esp32s3") {
            let msg = concat3("sigrok component requires ESP32-S3 but target is '", config.esphome.platform.as_str(), "'");
            errors.push(
                ValidationError::error(ValidationStage::FinalValidation, "sigrok", msg.as_str())
                    .with_suggestion("Change platform to 'esp32s3' or remove the sigrok component"),
            );
        } else {
            match &sigrok {
                None => {},
                Some(Err(e)) => {
                    let msg = concat2("invalid sigrok config: ", e.as_str());
                    errors.push(ValidationError::error(ValidationStage::FinalValidation, "sigrok", msg.as_str()));
                },
                Some(Ok(c)) => {
                    validate_sigrok(c, &mut errors);
                },
            }
        }
    }
    proof {
        let sg = if has_type(cs, "sigrok"@) {
            sigrok_errors(config.esphome.platform@, sigrok)
        } else {
            Seq::empty()
        };
        assert(diags(errors@) =~= e8 + sg);
        assert(diags(errors@) =~= final_errors(
            *config,
            match solution {
                Some(b) => Some(*b),
                None => None,
            },
            clim,
            sigrok,
        ));
    }
    errors
}

} // verus!
