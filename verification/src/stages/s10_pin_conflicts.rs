//! Stage 10 — pin conflict detection.
//!
//! Extracts the GPIO assignments of every component's config; the pin
//! tracker allocates them, and its conflicts and chip-capability findings
//! are turned into diagnostics here.
use vstd::prelude::*;
use crate::error::{ValidationError, ValidationStage, Severity, DiagnosticView, diag, diags, lemma_concat_contains};
use crate::json::{Json, JsonNumber, JsonV, NumV, obj_get, json_get};
use crate::raw::{RawConfig, ComponentConfig, ComponentView, comps_view};
use crate::stages::s2_substitutions::key_path;
use crate::stages::s7_schema_validation::type_count;
use crate::validated::ChipTarget;
use crate::text::{
    chars_of, concat2, concat3, concat5, push_str, owned, contains_exec, contains_seq, decimal,
    u64_to_decimal,
};

verus! {

/// The mode a GPIO is used in.
#[derive(Debug, Clone, Copy, PartialEq, Eq, Structural)]
pub enum PinMode {
    Input,
    Output,
    InputOutput,
    I2cSda,
    I2cScl,
    SpiMosi,
    SpiMiso,
    SpiClk,
    SpiCs,
    Uart,
}

/// Internal pull resistor selection.
#[derive(Debug, Clone, Copy, PartialEq, Eq, Structural)]
pub enum PullMode {
    Up,
    Down,
}

/// A GPIO usage declaration extracted from a component's config.
#[derive(Debug)]
pub struct PinUsage {
    pub gpio_num: u8,
    pub mode: PinMode,
    pub pull_mode: Option<PullMode>,
    pub inverted: bool,
    pub component_id: String,
    pub path: String,
}

/// Abstract pin usage.
pub struct PinUsageView {
    pub gpio_num: u8,
    pub mode: PinMode,
    pub pull_mode: Option<PullMode>,
    pub inverted: bool,
    pub component_id: Seq<char>,
    pub path: Seq<char>,
}

impl View for PinUsage {
    type V = PinUsageView;

    open spec fn view(&self) -> PinUsageView {
        PinUsageView {
            gpio_num: self.gpio_num,
            mode: self.mode,
            pull_mode: self.pull_mode,
            inverted: self.inverted,
            component_id: self.component_id@,
            path: self.path@,
        }
    }
}

/// The config fields that name GPIOs, with their modes, in scan order.
pub open spec fn pin_fields() -> Seq<(Seq<char>, PinMode)> {
    seq![
        ("pin"@, PinMode::InputOutput),
        ("sda"@, PinMode::I2cSda),
        ("scl"@, PinMode::I2cScl),
        ("mosi"@, PinMode::SpiMosi),
        ("miso"@, PinMode::SpiMiso),
        ("clk"@, PinMode::SpiClk),
        ("cs"@, PinMode::SpiCs),
        ("tx_pin"@, PinMode::Uart),
        ("rx_pin"@, PinMode::Uart),
        ("trigger_pin"@, PinMode::Output),
        ("echo_pin"@, PinMode::Input),
        ("output"@, PinMode::Output),
        ("input"@, PinMode::Input),
        ("input_pin"@, PinMode::Input),
    ]
}

/// A GPIO number: a non-negative integer below 256.
pub open spec fn gpio_of(v: Option<JsonV>) -> Option<u8> {
    match v {
        Some(JsonV::Number(NumV::PosInt(k))) => if k < 256 {
            Some(k as u8)
        } else {
            None
        },
        _ => None,
    }
}

/// The pull mode a `mode` text asks for.
pub open spec fn pull_of(v: Option<JsonV>) -> Option<PullMode> {
    match v {
        Some(JsonV::Str(s)) => if contains_seq(s, "PULLUP"@) || contains_seq(s, "INPUT_PULLUP"@) {
            Some(PullMode::Up)
        } else if contains_seq(s, "PULLDOWN"@) {
            Some(PullMode::Down)
        } else {
            None
        },
        _ => None,
    }
}

/// The usage a field's value declares: a plain GPIO number, or an object
/// with `number`, optional `mode` (pull) and `inverted`.
pub open spec fn usage_of(v: JsonV) -> Option<(u8, Option<PullMode>, bool)> {
    match v {
        JsonV::Number(_) => match gpio_of(Some(v)) {
            Some(g) => Some((g, None, false)),
            None => None,
        },
        JsonV::Object(po) => match gpio_of(obj_get(po, "number"@)) {
            Some(g) => Some((
                g,
                pull_of(obj_get(po, "mode"@)),
                match obj_get(po, "inverted"@) {
                    Some(JsonV::Bool(b)) => b,
                    _ => false,
                },
            )),
            None => None,
        },
        _ => None,
    }
}

/// The usages declared by the first `n` pin fields of a config object.
pub open spec fn pins_spec(m: Seq<(Seq<char>, JsonV)>, id: Seq<char>, base: Seq<char>, n: int) -> Seq<PinUsageView>
    decreases n,
{
    if n <= 0 || n > pin_fields().len() {
        Seq::empty()
    } else {
        let (field, mode) = pin_fields()[n - 1];
        pins_spec(m, id, base, n - 1) + match obj_get(m, field) {
            Some(v) => match usage_of(v) {
                Some((g, pull, inv)) => seq![
                    PinUsageView {
                        gpio_num: g,
                        mode,
                        pull_mode: pull,
                        inverted: inv,
                        component_id: id,
                        path: key_path(base, field),
                    },
                ],
                None => Seq::empty(),
            },
            None => Seq::empty(),
        }
    }
}

/// The pin usages of a config value (none unless it is an object).
pub open spec fn extract_pins_spec(config: JsonV, id: Seq<char>, base: Seq<char>) -> Seq<PinUsageView> {
    match config {
        JsonV::Object(m) => pins_spec(m, id, base, 14),
        _ => Seq::empty(),
    }
}

/// The field names that declare GPIOs.
pub open spec fn documented_pin_field(name: Seq<char>) -> bool {
    ||| name == "pin"@
    ||| name == "sda"@
    ||| name == "scl"@
    ||| name == "mosi"@
    ||| name == "miso"@
    ||| name == "clk"@
    ||| name == "cs"@
    ||| name == "tx_pin"@
    ||| name == "rx_pin"@
    ||| name == "trigger_pin"@
    ||| name == "echo_pin"@
    ||| name == "output"@
    ||| name == "input"@
    ||| name == "input_pin"@
}

/// The usage declared by field `k` of the table is among those of the first
/// `n` fields, for `n > k`.
proof fn lemma_pins_spec_contains(
    m: Seq<(Seq<char>, JsonV)>,
    id: Seq<char>,
    base: Seq<char>,
    n: int,
    k: int,
    u: PinUsageView,
)
    requires
        0 <= k < n <= pin_fields().len(),
        obj_get(m, pin_fields()[k].0) matches Some(v) && usage_of(v) matches Some((g, pull, inv)) && u == (
        PinUsageView {
            gpio_num: g,
            mode: pin_fields()[k].1,
            pull_mode: pull,
            inverted: inv,
            component_id: id,
            path: key_path(base, pin_fields()[k].0),
        }),
    ensures
        pins_spec(m, id, base, n).contains(u),
    decreases n,
{
    let (field, mode) = pin_fields()[n - 1];
    let prev = pins_spec(m, id, base, n - 1);
    let step = match obj_get(m, field) {
        Some(v) => match usage_of(v) {
            Some((g, pull, inv)) => seq![
                PinUsageView {
                    gpio_num: g,
                    mode,
                    pull_mode: pull,
                    inverted: inv,
                    component_id: id,
                    path: key_path(base, field),
                },
            ],
            None => Seq::empty(),
        },
        None => Seq::empty(),
    };
    assert(pins_spec(m, id, base, n) == prev + step);
    if k < n - 1 {
        lemma_pins_spec_contains(m, id, base, n - 1, k, u);
    } else {
        assert(step[0] == u);
    }
    lemma_concat_contains(prev, step, u);
}

/// Every documented pin field holding a GPIO number below 256 yields a usage
/// of that GPIO, owned by the component, at path `base.field`.
pub proof fn lemma_extract_documented_field(
    m: Seq<(Seq<char>, JsonV)>,
    id: Seq<char>,
    base: Seq<char>,
    name: Seq<char>,
    g: nat,
)
    requires
        documented_pin_field(name),
        obj_get(m, name) == Some(JsonV::Number(NumV::PosInt(g))),
        g < 256,
    ensures
        exists|u: PinUsageView|
            #[trigger] extract_pins_spec(JsonV::Object(m), id, base).contains(u) && u.gpio_num == g && u.component_id == id
                && u.path == key_path(base, name),
{
    let fs = pin_fields();
    let k: int = if name == "pin"@ {
        0
    } else if name == "sda"@ {
        1
    } else if name == "scl"@ {
        2
    } else if name == "mosi"@ {
        3
    } else if name == "miso"@ {
        4
    } else if name == "clk"@ {
        5
    } else if name == "cs"@ {
        6
    } else if name == "tx_pin"@ {
        7
    } else if name == "rx_pin"@ {
        8
    } else if name == "trigger_pin"@ {
        9
    } else if name == "echo_pin"@ {
        10
    } else if name == "output"@ {
        11
    } else if name == "input"@ {
        12
    } else {
        13
    };
    assert(fs[k].0 == name);
    let u = PinUsageView {
        gpio_num: g as u8,
        mode: fs[k].1,
        pull_mode: None,
        inverted: false,
        component_id: id,
        path: key_path(base, name),
    };
    lemma_pins_spec_contains(m, id, base, 14, k, u);
    assert(extract_pins_spec(JsonV::Object(m), id, base).contains(u));
}

fn pin_field(i: usize) -> (r: (&'static str, PinMode))
    requires
        i < 14,
    ensures
        (r.0@, r.1) == pin_fields()[i as int],
{
    if i == 0 {
        ("pin", PinMode::InputOutput)
    } else if i == 1 {
        ("sda", PinMode::I2cSda)
    } else if i == 2 {
        ("scl", PinMode::I2cScl)
    } else if i == 3 {
        ("mosi", PinMode::SpiMosi)
    } else if i == 4 {
        ("miso", PinMode::SpiMiso)
    } else if i == 5 {
        ("clk", PinMode::SpiClk)
    } else if i == 6 {
        ("cs", PinMode::SpiCs)
    } else if i == 7 {
        ("tx_pin", PinMode::Uart)
    } else if i == 8 {
        ("rx_pin", PinMode::Uart)
    } else if i == 9 {
        ("trigger_pin", PinMode::Output)
    } else if i == 10 {
        ("echo_pin", PinMode::Input)
    } else if i == 11 {
        ("output", PinMode::Output)
    } else if i == 12 {
        ("input", PinMode::Input)
    } else {
        ("input_pin", PinMode::Input)
    }
}

fn gpio_exec(v: Option<&Json>) -> (r: Option<u8>)
    ensures
        r == gpio_of(
            match v {
                Some(j) => Some(j@),
                None => None,
            },
        ),
{
    match v {
        Some(Json::Number(JsonNumber::PosInt(k))) => if *k < 256 {
            Some(*k as u8)
        } else {
            None
        },
        _ => None,
    }
}

fn usage_exec(v: &Json) -> (r: Option<(u8, Option<PullMode>, bool)>)
    ensures
        r == usage_of(v@),
{
    match v {
        Json::Number(_) => match gpio_exec(Some(v)) {
            Some(g) => Some((g, None, false)),
            None => None,
        },
        Json::Object(_) => match gpio_exec(v.get("number")) {
            Some(g) => {
                let pull = match v.get("mode") {
                    Some(Json::Str(s)) => {
                        let sv = chars_of(s.as_str());
                        if contains_exec(&sv, &chars_of("PULLUP")) || contains_exec(&sv, &chars_of("INPUT_PULLUP")) {
                            Some(PullMode::Up)
                        } else if contains_exec(&sv, &chars_of("PULLDOWN")) {
                            Some(PullMode::Down)
                        } else {
                            None
                        }
                    },
                    _ => None,
                };
                let inv = match v.get("inverted") {
                    Some(Json::Bool(b)) => *b,
                    _ => false,
                };
                Some((g, pull, inv))
            },
            None => None,
        },
        _ => None,
    }
}

/// Extract the GPIO usages of a component's config, in the order of the
/// recognised fields (`pin`, `sda`, `scl`, `mosi`, `miso`, `clk`, `cs`,
/// `tx_pin`, `rx_pin`, `trigger_pin`, `echo_pin`, `output`, `input`, `input_pin`).
pub fn extract_pins(config: &Json, component_id: &str, base_path: &str) -> (r: Vec<PinUsage>)
    ensures
        r@.map_values(|u: PinUsage| u@) == extract_pins_spec(config@, component_id@, base_path@),
{
    let mut pins: Vec<PinUsage> = Vec::new();
    if !config.is_object() {
        proof {
            assert(pins@.map_values(|u: PinUsage| u@) =~= Seq::<PinUsageView>::empty());
        }
        return pins;
    }
    let ghost m = config@->Object_0;
    let mut i: usize = 0;
    proof {
        assert(pins@.map_values(|u: PinUsage| u@) =~= pins_spec(m, component_id@, base_path@, 0));
    }
    while i < 14
        invariant
            i <= 14,
            config@ == JsonV::Object(m),
            pins@.map_values(|u: PinUsage| u@) == pins_spec(m, component_id@, base_path@, i as int),
        decreases 14 - i,
    {
        let (field, mode) = pin_field(i);
        let ghost before = pins@.map_values(|u: PinUsage| u@);
        let mut pushed = false;
        match config.get(field) {
            Some(v) => match usage_exec(v) {
                Some((g, pull, inv)) => {
                    let path = concat3(base_path, ".", field);
                    proof {
                        reveal_strlit(".");
                        assert(path@ =~= key_path(base_path@, field@));
                    }
                    let u = PinUsage {
                        gpio_num: g,
                        mode,
                        pull_mode: pull,
                        inverted: inv,
                        component_id: owned(component_id),
                        path,
                    };
                    let ghost pv = pins@;
                    pins.push(u);
                    pushed = true;
                    proof {
                        assert(pins@.map_values(|u: PinUsage| u@) =~= before + seq![u@]);
                    }
                },
                None => {},
            },
            None => {},
        }
        if !pushed {
            proof {
                assert(before =~= before + Seq::<PinUsageView>::empty());
            }
        }
        i = i + 1;
    }
    pins
}

/// The id a component's pins are allocated to: its platform when it has
/// one (even an empty one), else its type.
pub open spec fn pin_owner(c: ComponentView) -> Seq<char> {
    match c.platform {
        Some(p) => p,
        None => c.component_type,
    }
}

/// The pin usages of the first `n` components, each under the path
/// `type[index]` of its component.
pub open spec fn usages_spec(cs: Seq<ComponentView>, n: int) -> Seq<PinUsageView>
    decreases n,
{
    if n <= 0 || n > cs.len() {
        Seq::empty()
    } else {
        let c = cs[n - 1];
        usages_spec(cs, n - 1) + extract_pins_spec(
            c.config,
            pin_owner(c),
            c.component_type + "["@ + decimal(type_count(cs, c.component_type, n - 1)) + "]"@,
        )
    }
}

fn count_type_before(cs: &Vec<ComponentConfig>, t: &str, n: usize) -> (r: usize)
    requires
        n <= cs@.len(),
    ensures
        r == type_count(comps_view(cs@), t@, n as int),
{
    let ghost v = comps_view(cs@);
    let mut c: usize = 0;
    let mut i: usize = 0;
    while i < n
        invariant
            i <= n <= cs@.len(),
            v == comps_view(cs@),
            c == type_count(v, t@, i as int),
            c <= i,
        decreases n - i,
    {
        if crate::text::str_eq(cs[i].component_type.as_str(), t) {
            c = c + 1;
        }
        i = i + 1;
    }
    c
}

/// All GPIO usages of the config, component by component, in the order the
/// pin tracker allocates them.
pub fn collect_pin_usages(config: &RawConfig) -> (r: Vec<PinUsage>)
    ensures
        r@.map_values(|u: PinUsage| u@) == usages_spec(
            comps_view(config.components@),
            config.components@.len() as int,
        ),
{
    let ghost cs = comps_view(config.components@);
    let mut out: Vec<PinUsage> = Vec::new();
    let mut i: usize = 0;
    proof {
        assert(out@.map_values(|u: PinUsage| u@) =~= Seq::<PinUsageView>::empty());
    }
    while i < config.components.len()
        invariant
            i <= config.components@.len(),
            cs == comps_view(config.components@),
            out@.map_values(|u: PinUsage| u@) == usages_spec(cs, i as int),
        decreases config.components@.len() - i,
    {
        let comp = &config.components[i];
        proof {
            assert(cs[i as int] == comp@);
        }
        let idx = count_type_before(&config.components, comp.component_type.as_str(), i);
        let mut base = concat2(comp.component_type.as_str(), "[");
        push_str(&mut base, u64_to_decimal(idx as u64).as_str());
        push_str(&mut base, "]");
        let owner = match &comp.platform {
            Some(p) => p.clone(),
            None => comp.component_type.clone(),
        };
        let pins = extract_pins(&comp.config, owner.as_str(), base.as_str());
        let ghost before = out@.map_values(|u: PinUsage| u@);
        let ghost added = pins@.map_values(|u: PinUsage| u@);
        let mut k: usize = 0;
        let mut pins = pins;
        let n = pins.len();
        let mut taken: Vec<PinUsage> = Vec::new();
        while k < n
            invariant
                k <= n,
                n == pins@.len(),
                pins@.map_values(|u: PinUsage| u@) == added,
                out@.map_values(|u: PinUsage| u@) == before + added.subrange(0, k as int),
            decreases n - k,
        {
            let p = &pins[k];
            let u = PinUsage {
                gpio_num: p.gpio_num,
                mode: p.mode,
                pull_mode: p.pull_mode,
                inverted: p.inverted,
                component_id: p.component_id.clone(),
                path: p.path.clone(),
            };
            let ghost ov = out@;
            out.push(u);
            proof {
                assert(u@ == pins@[k as int]@);
                assert(added[k as int] == pins@[k as int]@);
                assert(out@.map_values(|u: PinUsage| u@) =~= ov.map_values(|u: PinUsage| u@).push(u@));
                assert(out@.map_values(|u: PinUsage| u@) =~= before + added.subrange(0, k + 1));
            }
            k = k + 1;
        }
        proof {
            assert(added.subrange(0, n as int) =~= added);
            assert(base@ =~= comp.component_type@ + "["@ + decimal(type_count(cs, cs[i as int].component_type, i as int)) + "]"@);
        }
        i = i + 1;
    }
    out
}

/// The `Debug` name of a pin mode.
pub open spec fn mode_label(m: PinMode) -> Seq<char> {
    match m {
        PinMode::Input => "Input"@,
        PinMode::Output => "Output"@,
        PinMode::InputOutput => "InputOutput"@,
        PinMode::I2cSda => "I2cSda"@,
        PinMode::I2cScl => "I2cScl"@,
        PinMode::SpiMosi => "SpiMosi"@,
        PinMode::SpiMiso => "SpiMiso"@,
        PinMode::SpiClk => "SpiClk"@,
        PinMode::SpiCs => "SpiCs"@,
        PinMode::Uart => "Uart"@,
    }
}

fn mode_label_exec(m: PinMode) -> (r: &'static str)
    ensures
        r@ == mode_label(m),
{
    match m {
        PinMode::Input => "Input",
        PinMode::Output => "Output",
        PinMode::InputOutput => "InputOutput",
        PinMode::I2cSda => "I2cSda",
        PinMode::I2cScl => "I2cScl",
        PinMode::SpiMosi => "SpiMosi",
        PinMode::SpiMiso => "SpiMiso",
        PinMode::SpiClk => "SpiClk",
        PinMode::SpiCs => "SpiCs",
        PinMode::Uart => "Uart",
    }
}

/// The `Debug` name of a chip target.
pub open spec fn chip_label(t: ChipTarget) -> Seq<char> {
    match t {
        ChipTarget::Esp32 => "Esp32"@,
        ChipTarget::Esp32S2 => "Esp32S2"@,
        ChipTarget::Esp32S3 => "Esp32S3"@,
        ChipTarget::Esp32C3 => "Esp32C3"@,
        ChipTarget::Esp32C5 => "Esp32C5"@,
        ChipTarget::Esp32C6 => "Esp32C6"@,
        ChipTarget::Esp32H2 => "Esp32H2"@,
        ChipTarget::Esp32P4 => "Esp32P4"@,
    }
}

fn chip_label_exec(t: ChipTarget) -> (r: &'static str)
    ensures
        r@ == chip_label(t),
{
    match t {
        ChipTarget::Esp32 => "Esp32",
        ChipTarget::Esp32S2 => "Esp32S2",
        ChipTarget::Esp32S3 => "Esp32S3",
        ChipTarget::Esp32C3 => "Esp32C3",
        ChipTarget::Esp32C5 => "Esp32C5",
        ChipTarget::Esp32C6 => "Esp32C6",
        ChipTarget::Esp32H2 => "Esp32H2",
        ChipTarget::Esp32P4 => "Esp32P4",
    }
}

/// A GPIO the tracker found already allocated.
#[derive(Debug)]
pub struct PinConflict {
    pub gpio_num: u8,
    pub existing_owner: String,
    pub existing_mode: PinMode,
    pub new_owner: String,
    pub new_mode: PinMode,
}

/// The error for an allocation conflict, reported at the usage's path.
pub fn pin_conflict_error(path: &str, c: &PinConflict) -> (e: ValidationError)
    ensures
        e@ == diag(
            ValidationStage::PinConflicts,
            Severity::Error,
            path@,
            "GPIO "@ + decimal(c.gpio_num as nat) + " already allocated by '"@ + c.existing_owner@
                + "' (mode "@ + mode_label(c.existing_mode) + "); '"@ + c.new_owner@
                + "' requested mode "@ + mode_label(c.new_mode),
        ),
{
    let mut msg = concat3("GPIO ", u64_to_decimal(c.gpio_num as u64).as_str(), " already allocated by '");
    push_str(&mut msg, c.existing_owner.as_str());
    push_str(&mut msg, "' (mode ");
    push_str(&mut msg, mode_label_exec(c.existing_mode));
    push_str(&mut msg, "); '");
    push_str(&mut msg, c.new_owner.as_str());
    push_str(&mut msg, "' requested mode ");
    push_str(&mut msg, mode_label_exec(c.new_mode));
    let e = ValidationError::error(ValidationStage::PinConflicts, path, msg.as_str());
    proof {
        assert(msg@ =~= "GPIO "@ + decimal(c.gpio_num as nat) + " already allocated by '"@ + c.existing_owner@
            + "' (mode "@ + mode_label(c.existing_mode) + "); '"@ + c.new_owner@
            + "' requested mode "@ + mode_label(c.new_mode));
    }
    e
}

/// A chip-capability finding of the pin tracker.
#[derive(Debug)]
pub enum PinError {
    InputOnlyPinUsedAsOutput { gpio_num: u8, component: String },
    GpioOutOfRange { gpio_num: u8, max_gpio: u8 },
    StrappingPinWarning { gpio_num: u8, component: String },
    FlashReservedPin { gpio_num: u8, component: String },
}

/// The diagnostic for a capability finding on `target`: a warning for a
/// strapping pin, an error otherwise, at path `gpio_N`.
pub open spec fn pin_error_diag(e: PinError, target: ChipTarget) -> DiagnosticView {
    let t = chip_label(target);
    match e {
        PinError::InputOnlyPinUsedAsOutput { gpio_num, component } => diag(
            ValidationStage::PinConflicts,
            Severity::Error,
            "gpio_"@ + decimal(gpio_num as nat),
            "GPIO "@ + decimal(gpio_num as nat) + " is input-only on "@ + t + " but '"@ + component@
                + "' requested output mode"@,
        ),
        PinError::GpioOutOfRange { gpio_num, max_gpio } => diag(
            ValidationStage::PinConflicts,
            Severity::Error,
            "gpio_"@ + decimal(gpio_num as nat),
            "GPIO "@ + decimal(gpio_num as nat) + " does not exist on "@ + t + " (max GPIO is "@
                + decimal(max_gpio as nat) + ")"@,
        ),
        PinError::StrappingPinWarning { gpio_num, component } => diag(
            ValidationStage::PinConflicts,
            Severity::Warning,
            "gpio_"@ + decimal(gpio_num as nat),
            "GPIO "@ + decimal(gpio_num as nat) + " is a strapping pin on "@ + t + "; '"@ + component@
                + "' using it may affect boot reliability"@,
        ),
        PinError::FlashReservedPin { gpio_num, component } => diag(
            ValidationStage::PinConflicts,
            Severity::Error,
            "gpio_"@ + decimal(gpio_num as nat),
            "GPIO "@ + decimal(gpio_num as nat) + " is reserved for flash on "@ + t
                + " and cannot be used by '"@ + component@ + "'"@,
        ),
    }
}

/// The diagnostic for a capability finding of the pin tracker.
pub fn pin_error_diagnostic(e: &PinError, target: ChipTarget) -> (r: ValidationError)
    ensures
        r@ == pin_error_diag(*e, target),
{
    let t = chip_label_exec(target);
    match e {
        PinError::InputOnlyPinUsedAsOutput { gpio_num, component } => {
            let d = u64_to_decimal(*gpio_num as u64);
            let path = concat2("gpio_", d.as_str());
            let mut msg = concat5("GPIO ", d.as_str(), " is input-only on ", t, " but '");
            push_str(&mut msg, component.as_str());
            push_str(&mut msg, "' requested output mode");
            proof {
                assert(msg@ =~= "GPIO "@ + d@ + " is input-only on "@ + t@ + " but '"@ + component@ + "' requested output mode"@);
            }
            ValidationError::error(ValidationStage::PinConflicts, path.as_str(), msg.as_str())
        },
        PinError::GpioOutOfRange { gpio_num, max_gpio } => {
            let d = u64_to_decimal(*gpio_num as u64);
            let path = concat2("gpio_", d.as_str());
            let mut msg = concat5("GPIO ", d.as_str(), " does not exist on ", t, " (max GPIO is ");
            push_str(&mut msg, u64_to_decimal(*max_gpio as u64).as_str());
            push_str(&mut msg, ")");
            proof {
                assert(msg@ =~= "GPIO "@ + d@ + " does not exist on "@ + t@ + " (max GPIO is "@ + decimal(*max_gpio as nat) + ")"@);
            }
            ValidationError::error(ValidationStage::PinConflicts, path.as_str(), msg.as_str())
        },
        PinError::StrappingPinWarning { gpio_num, component } => {
            let d = u64_to_decimal(*gpio_num as u64);
            let path = concat2("gpio_", d.as_str());
            let mut msg = concat5("GPIO ", d.as_str(), " is a strapping pin on ", t, "; '");
            push_str(&mut msg, component.as_str());
            push_str(&mut msg, "' using it may affect boot reliability");
            proof {
                assert(msg@ =~= "GPIO "@ + d@ + " is a strapping pin on "@ + t@ + "; '"@ + component@ + "' using it may affect boot reliability"@);
            }
            ValidationError::warning(ValidationStage::PinConflicts, path.as_str(), msg.as_str())
        },
        PinError::FlashReservedPin { gpio_num, component } => {
            let d = u64_to_decimal(*gpio_num as u64);
            let path = concat2("gpio_", d.as_str());
            let mut msg = concat5("GPIO ", d.as_str(), " is reserved for flash on ", t, " and cannot be used by '");
            push_str(&mut msg, component.as_str());
            push_str(&mut msg, "'");
            proof {
                assert(msg@ =~= "GPIO "@ + d@ + " is reserved for flash on "@ + t@ + " and cannot be used by '"@ + component@ + "'"@);
            }
            ValidationError::error(ValidationStage::PinConflicts, path.as_str(), msg.as_str())
        },
    }
}

} // verus!
