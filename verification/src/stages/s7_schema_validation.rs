//! Stage 7 — schema validation (type checking).
//!
//! Validates every component's config values against its field table:
//! required fields must be present and not null, values must have the
//! expected type, enum fields must hold a known variant (ignoring ASCII
//! case), and bounded numbers must lie within their range. Paths look like
//! `sensor[0].pin`: the component type, its index among components of that
//! type, and the field.
use vstd::prelude::*;
use crate::error::{ValidationError, ValidationStage, Severity, DiagnosticView, diag, diag_hint, diags};
use crate::json::{Json, JsonNumber, JsonV, NumV, obj_get, entries_view};
use crate::raw::{RawConfig, ComponentConfig, ComponentView, comps_view};
use crate::stages::s2_substitutions::key_path;
use crate::stages::s6_load_components::{effective_id, component_effective_id};
use crate::text::{
    chars_of, owned, concat2, concat3, push_str, str_eq, decimal, u64_to_decimal, join_strs,
    join_spec, strs_view,
};

verus! {

/// Expected type for a schema field.
#[derive(Debug, Clone, Copy, PartialEq, Eq, Structural)]
pub enum FieldType {
    String,
    Integer,
    Float,
    Boolean,
    Object,
    Array,
    /// Any JSON value is acceptable.
    Any,
}

/// Descriptor for a single schema field; bounds are integers.
#[derive(Debug)]
pub struct FieldDef {
    pub name: String,
    pub field_type: FieldType,
    pub required: bool,
    pub enum_values: Option<Vec<String>>,
    pub min: Option<i64>,
    pub max: Option<i64>,
}

/// Abstract field descriptor.
pub struct FieldV {
    pub name: Seq<char>,
    pub field_type: FieldType,
    pub required: bool,
    pub enum_values: Option<Seq<Seq<char>>>,
    pub min: Option<int>,
    pub max: Option<int>,
}

impl View for FieldDef {
    type V = FieldV;

    open spec fn view(&self) -> FieldV {
        FieldV {
            name: self.name@,
            field_type: self.field_type,
            required: self.required,
            enum_values: match self.enum_values {
                Some(v) => Some(strs_view(v@)),
                None => None,
            },
            min: match self.min {
                Some(m) => Some(m as int),
                None => None,
            },
            max: match self.max {
                Some(m) => Some(m as int),
                None => None,
            },
        }
    }
}

/// The views of a field table.
pub open spec fn fields_view(v: Seq<FieldDef>) -> Seq<FieldV> {
    v.map_values(|f: FieldDef| f@)
}

impl FieldDef {
    /// A required field.
    fn req(name: &str, t: FieldType) -> (r: Self)
        ensures
            r@ == (FieldV { name: name@, field_type: t, required: true, enum_values: None, min: None, max: None }),
    {
        FieldDef { name: owned(name), field_type: t, required: true, enum_values: None, min: None, max: None }
    }

    /// An optional field.
    fn opt(name: &str, t: FieldType) -> (r: Self)
        ensures
            r@ == (FieldV { name: name@, field_type: t, required: false, enum_values: None, min: None, max: None }),
    {
        FieldDef { name: owned(name), field_type: t, required: false, enum_values: None, min: None, max: None }
    }

    /// The field restricted to the given variants.
    fn with_enum(self, variants: Vec<String>) -> (r: Self)
        ensures
            r@ == (FieldV { enum_values: Some(strs_view(variants@)), ..self@ }),
    {
        FieldDef { enum_values: Some(variants), ..self }
    }

    /// The field restricted to `[min, max]`.
    fn with_range(self, min: i64, max: i64) -> (r: Self)
        ensures
            r@ == (FieldV { min: Some(min as int), max: Some(max as int), ..self@ }),
    {
        FieldDef { min: Some(min), max: Some(max), ..self }
    }
}

/// The `entity_common` field table.
pub open spec fn entity_common_fields_spec() -> Seq<FieldV> {
    seq![
        FieldV { name: "name"@, field_type: FieldType::String, required: true, enum_values: None, min: None, max: None },
        FieldV { name: "id"@, field_type: FieldType::String, required: false, enum_values: None, min: None, max: None },
        FieldV { name: "icon"@, field_type: FieldType::String, required: false, enum_values: None, min: None, max: None },
        FieldV { name: "internal"@, field_type: FieldType::Boolean, required: false, enum_values: None, min: None, max: None },
        FieldV { name: "disabled_by_default"@, field_type: FieldType::Boolean, required: false, enum_values: None, min: None, max: None },
        FieldV { name: "entity_category"@, field_type: FieldType::String, required: false, enum_values: Some(seq!["none"@, "config"@, "diagnostic"@]), min: None, max: None }
    ]
}

fn entity_common_fields() -> (v: Vec<FieldDef>)
    ensures
        fields_view(v@) == entity_common_fields_spec(),
{
    let mut v: Vec<FieldDef> = Vec::new();
    v.push(FieldDef::req("name", FieldType::String));
    v.push(FieldDef::opt("id", FieldType::String));
    v.push(FieldDef::opt("icon", FieldType::String));
    v.push(FieldDef::opt("internal", FieldType::Boolean));
    v.push(FieldDef::opt("disabled_by_default", FieldType::Boolean));
    let mut e_entity_category: Vec<String> = Vec::new();
    e_entity_category.push(owned("none"));
    e_entity_category.push(owned("config"));
    e_entity_category.push(owned("diagnostic"));
    proof {
        assert(strs_view(e_entity_category@) =~= seq!["none"@, "config"@, "diagnostic"@]);
    }
    v.push(FieldDef::opt("entity_category", FieldType::String).with_enum(e_entity_category));
    proof {
        assert(fields_view(v@) =~= entity_common_fields_spec());
    }
    v
}

/// The `sensor` field table.
pub open spec fn sensor_fields_spec() -> Seq<FieldV> {
    seq![
        FieldV { name: "device_class"@, field_type: FieldType::String, required: false, enum_values: None, min: None, max: None },
        FieldV { name: "unit_of_measurement"@, field_type: FieldType::String, required: false, enum_values: None, min: None, max: None },
        FieldV { name: "accuracy_decimals"@, field_type: FieldType::Integer, required: false, enum_values: None, min: Some(0int), max: Some(10int) },
        FieldV { name: "state_class"@, field_type: FieldType::String, required: false, enum_values: Some(seq!["measurement"@, "total"@, "total_increasing"@]), min: None, max: None },
        FieldV { name: "filters"@, field_type: FieldType::Array, required: false, enum_values: None, min: None, max: None },
        FieldV { name: "force_update"@, field_type: FieldType::Boolean, required: false, enum_values: None, min: None, max: None },
        FieldV { name: "expire_after"@, field_type: FieldType::Integer, required: false, enum_values: None, min: Some(0int), max: Some(4294967295int) }
    ]
}

fn sensor_fields() -> (v: Vec<FieldDef>)
    ensures
        fields_view(v@) == sensor_fields_spec(),
{
    let mut v: Vec<FieldDef> = Vec::new();
    v.push(FieldDef::opt("device_class", FieldType::String));
    v.push(FieldDef::opt("unit_of_measurement", FieldType::String));
    v.push(FieldDef::opt("accuracy_decimals", FieldType::Integer).with_range(0, 10));
    let mut e_state_class: Vec<String> = Vec::new();
    e_state_class.push(owned("measurement"));
    e_state_class.push(owned("total"));
    e_state_class.push(owned("total_increasing"));
    proof {
        assert(strs_view(e_state_class@) =~= seq!["measurement"@, "total"@, "total_increasing"@]);
    }
    v.push(FieldDef::opt("state_class", FieldType::String).with_enum(e_state_class));
    v.push(FieldDef::opt("filters", FieldType::Array));
    v.push(FieldDef::opt("force_update", FieldType::Boolean));
    v.push(FieldDef::opt("expire_after", FieldType::Integer).with_range(0, 4294967295));
    proof {
        assert(fields_view(v@) =~= sensor_fields_spec());
    }
    v
}

/// The `dht` field table.
pub open spec fn dht_fields_spec() -> Seq<FieldV> {
    seq![
        FieldV { name: "pin"@, field_type: FieldType::Integer, required: true, enum_values: None, min: Some(0int), max: Some(48int) },
        FieldV { name: "model"@, field_type: FieldType::String, required: false, enum_values: Some(seq!["AUTO_DETECT"@, "DHT11"@, "DHT22"@, "AM2302"@, "RHT03"@]), min: None, max: None },
        FieldV { name: "update_interval"@, field_type: FieldType::String, required: false, enum_values: None, min: None, max: None },
        FieldV { name: "temperature"@, field_type: FieldType::Object, required: false, enum_values: None, min: None, max: None },
        FieldV { name: "humidity"@, field_type: FieldType::Object, required: false, enum_values: None, min: None, max: None }
    ]
}

fn dht_fields() -> (v: Vec<FieldDef>)
    ensures
        fields_view(v@) == dht_fields_spec(),
{
    let mut v: Vec<FieldDef> = Vec::new();
    v.push(FieldDef::req("pin", FieldType::Integer).with_range(0, 48));
    let mut e_model: Vec<String> = Vec::new();
    e_model.push(owned("AUTO_DETECT"));
    e_model.push(owned("DHT11"));
    e_model.push(owned("DHT22"));
    e_model.push(owned("AM2302"));
    e_model.push(owned("RHT03"));
    proof {
        assert(strs_view(e_model@) =~= seq!["AUTO_DETECT"@, "DHT11"@, "DHT22"@, "AM2302"@, "RHT03"@]);
    }
    v.push(FieldDef::opt("model", FieldType::String).with_enum(e_model));
    v.push(FieldDef::opt("update_interval", FieldType::String));
    v.push(FieldDef::opt("temperature", FieldType::Object));
    v.push(FieldDef::opt("humidity", FieldType::Object));
    proof {
        assert(fields_view(v@) =~= dht_fields_spec());
    }
    v
}

/// The `wifi` field table.
pub open spec fn wifi_fields_spec() -> Seq<FieldV> {
    seq![
        FieldV { name: "provisioning_mode"@, field_type: FieldType::String, required: false, enum_values: Some(seq!["nvs"@, "build_input"@]), min: None, max: None },
        FieldV { name: "ssid"@, field_type: FieldType::String, required: false, enum_values: None, min: None, max: None },
        FieldV { name: "password"@, field_type: FieldType::String, required: false, enum_values: None, min: None, max: None },
        FieldV { name: "service_name"@, field_type: FieldType::String, required: false, enum_values: None, min: None, max: None },
        FieldV { name: "pop"@, field_type: FieldType::String, required: false, enum_values: None, min: None, max: None },
        FieldV { name: "networks"@, field_type: FieldType::Array, required: false, enum_values: None, min: None, max: None },
        FieldV { name: "ap"@, field_type: FieldType::Object, required: false, enum_values: None, min: None, max: None },
        FieldV { name: "reboot_timeout"@, field_type: FieldType::String, required: false, enum_values: None, min: None, max: None },
        FieldV { name: "power_save_mode"@, field_type: FieldType::String, required: false, enum_values: Some(seq!["none"@, "light"@, "high"@]), min: None, max: None },
        FieldV { name: "fast_connect"@, field_type: FieldType::Boolean, required: false, enum_values: None, min: None, max: None },
        FieldV { name: "domain"@, field_type: FieldType::String, required: false, enum_values: None, min: None, max: None }
    ]
}

fn wifi_fields() -> (v: Vec<FieldDef>)
    ensures
        fields_view(v@) == wifi_fields_spec(),
{
    let mut v: Vec<FieldDef> = Vec::new();
    let mut e_provisioning_mode: Vec<String> = Vec::new();
    e_provisioning_mode.push(owned("nvs"));
    e_provisioning_mode.push(owned("build_input"));
    proof {
        assert(strs_view(e_provisioning_mode@) =~= seq!["nvs"@, "build_input"@]);
    }
    v.push(FieldDef::opt("provisioning_mode", FieldType::String).with_enum(e_provisioning_mode));
    v.push(FieldDef::opt("ssid", FieldType::String));
    v.push(FieldDef::opt("password", FieldType::String));
    v.push(FieldDef::opt("service_name", FieldType::String));
    v.push(FieldDef::opt("pop", FieldType::String));
    v.push(FieldDef::opt("networks", FieldType::Array));
    v.push(FieldDef::opt("ap", FieldType::Object));
    v.push(FieldDef::opt("reboot_timeout", FieldType::String));
    let mut e_power_save_mode: Vec<String> = Vec::new();
    e_power_save_mode.push(owned("none"));
    e_power_save_mode.push(owned("light"));
    e_power_save_mode.push(owned("high"));
    proof {
        assert(strs_view(e_power_save_mode@) =~= seq!["none"@, "light"@, "high"@]);
    }
    v.push(FieldDef::opt("power_save_mode", FieldType::String).with_enum(e_power_save_mode));
    v.push(FieldDef::opt("fast_connect", FieldType::Boolean));
    v.push(FieldDef::opt("domain", FieldType::String));
    proof {
        assert(fields_view(v@) =~= wifi_fields_spec());
    }
    v
}

/// The `logger` field table.
pub open spec fn logger_fields_spec() -> Seq<FieldV> {
    seq![
        FieldV { name: "level"@, field_type: FieldType::String, required: false, enum_values: Some(seq!["NONE"@, "ERROR"@, "WARN"@, "INFO"@, "DEBUG"@, "VERBOSE"@, "VERY_VERBOSE"@]), min: None, max: None },
        FieldV { name: "baud_rate"@, field_type: FieldType::Integer, required: false, enum_values: None, min: Some(0int), max: Some(921600int) },
        FieldV { name: "tx_buffer_size"@, field_type: FieldType::Integer, required: false, enum_values: None, min: Some(0int), max: Some(65536int) },
        FieldV { name: "hardware_uart"@, field_type: FieldType::String, required: false, enum_values: None, min: None, max: None },
        FieldV { name: "logs"@, field_type: FieldType::Object, required: false, enum_values: None, min: None, max: None }
    ]
}

fn logger_fields() -> (v: Vec<FieldDef>)
    ensures
        fields_view(v@) == logger_fields_spec(),
{
    let mut v: Vec<FieldDef> = Vec::new();
    let mut e_level: Vec<String> = Vec::new();
    e_level.push(owned("NONE"));
    e_level.push(owned("ERROR"));
    e_level.push(owned("WARN"));
    e_level.push(owned("INFO"));
    e_level.push(owned("DEBUG"));
    e_level.push(owned("VERBOSE"));
    e_level.push(owned("VERY_VERBOSE"));
    proof {
        assert(strs_view(e_level@) =~= seq!["NONE"@, "ERROR"@, "WARN"@, "INFO"@, "DEBUG"@, "VERBOSE"@, "VERY_VERBOSE"@]);
    }
    v.push(FieldDef::opt("level", FieldType::String).with_enum(e_level));
    v.push(FieldDef::opt("baud_rate", FieldType::Integer).with_range(0, 921600));
    v.push(FieldDef::opt("tx_buffer_size", FieldType::Integer).with_range(0, 65536));
    v.push(FieldDef::opt("hardware_uart", FieldType::String));
    v.push(FieldDef::opt("logs", FieldType::Object));
    proof {
        assert(fields_view(v@) =~= logger_fields_spec());
    }
    v
}

/// The `api` field table.
pub open spec fn api_fields_spec() -> Seq<FieldV> {
    seq![
        FieldV { name: "password"@, field_type: FieldType::String, required: false, enum_values: None, min: None, max: None },
        FieldV { name: "port"@, field_type: FieldType::Integer, required: false, enum_values: None, min: Some(1int), max: Some(65535int) },
        FieldV { name: "reboot_timeout"@, field_type: FieldType::String, required: false, enum_values: None, min: None, max: None },
        FieldV { name: "encryption"@, field_type: FieldType::Object, required: false, enum_values: None, min: None, max: None },
        FieldV { name: "services"@, field_type: FieldType::Array, required: false, enum_values: None, min: None, max: None }
    ]
}

fn api_fields() -> (v: Vec<FieldDef>)
    ensures
        fields_view(v@) == api_fields_spec(),
{
    let mut v: Vec<FieldDef> = Vec::new();
    v.push(FieldDef::opt("password", FieldType::String));
    v.push(FieldDef::opt("port", FieldType::Integer).with_range(1, 65535));
    v.push(FieldDef::opt("reboot_timeout", FieldType::String));
    v.push(FieldDef::opt("encryption", FieldType::Object));
    v.push(FieldDef::opt("services", FieldType::Array));
    proof {
        assert(fields_view(v@) =~= api_fields_spec());
    }
    v
}

/// The `ota` field table.
pub open spec fn ota_fields_spec() -> Seq<FieldV> {
    seq![
        FieldV { name: "password"@, field_type: FieldType::String, required: false, enum_values: None, min: None, max: None },
        FieldV { name: "safe_mode"@, field_type: FieldType::Boolean, required: false, enum_values: None, min: None, max: None },
        FieldV { name: "reboot_timeout"@, field_type: FieldType::Integer, required: false, enum_values: None, min: None, max: None },
        FieldV { name: "num_attempts"@, field_type: FieldType::Integer, required: false, enum_values: None, min: Some(1int), max: Some(100int) },
        FieldV { name: "platform"@, field_type: FieldType::String, required: false, enum_values: None, min: None, max: None }
    ]
}

fn ota_fields() -> (v: Vec<FieldDef>)
    ensures
        fields_view(v@) == ota_fields_spec(),
{
    let mut v: Vec<FieldDef> = Vec::new();
    v.push(FieldDef::opt("password", FieldType::String));
    v.push(FieldDef::opt("safe_mode", FieldType::Boolean));
    v.push(FieldDef::opt("reboot_timeout", FieldType::Integer));
    v.push(FieldDef::opt("num_attempts", FieldType::Integer).with_range(1, 100));
    v.push(FieldDef::opt("platform", FieldType::String));
    proof {
        assert(fields_view(v@) =~= ota_fields_spec());
    }
    v
}

/// The `i2c` field table.
pub open spec fn i2c_fields_spec() -> Seq<FieldV> {
    seq![
        FieldV { name: "sda"@, field_type: FieldType::Integer, required: false, enum_values: None, min: Some(0int), max: Some(48int) },
        FieldV { name: "scl"@, field_type: FieldType::Integer, required: false, enum_values: None, min: Some(0int), max: Some(48int) },
        FieldV { name: "frequency"@, field_type: FieldType::Integer, required: false, enum_values: None, min: None, max: None },
        FieldV { name: "scan"@, field_type: FieldType::Boolean, required: false, enum_values: None, min: None, max: None }
    ]
}

fn i2c_fields() -> (v: Vec<FieldDef>)
    ensures
        fields_view(v@) == i2c_fields_spec(),
{
    let mut v: Vec<FieldDef> = Vec::new();
    v.push(FieldDef::opt("sda", FieldType::Integer).with_range(0, 48));
    v.push(FieldDef::opt("scl", FieldType::Integer).with_range(0, 48));
    v.push(FieldDef::opt("frequency", FieldType::Integer));
    v.push(FieldDef::opt("scan", FieldType::Boolean));
    proof {
        assert(fields_view(v@) =~= i2c_fields_spec());
    }
    v
}

/// The `switch` field table.
pub open spec fn switch_fields_spec() -> Seq<FieldV> {
    seq![
        FieldV { name: "restore_mode"@, field_type: FieldType::String, required: false, enum_values: Some(seq!["RESTORE_DEFAULT_OFF"@, "RESTORE_DEFAULT_ON"@, "ALWAYS_OFF"@, "ALWAYS_ON"@, "RESTORE_INVERTED_DEFAULT_OFF"@, "RESTORE_INVERTED_DEFAULT_ON"@, "DISABLED"@]), min: None, max: None },
        FieldV { name: "inverted"@, field_type: FieldType::Boolean, required: false, enum_values: None, min: None, max: None },
        FieldV { name: "on_turn_on"@, field_type: FieldType::Array, required: false, enum_values: None, min: None, max: None },
        FieldV { name: "on_turn_off"@, field_type: FieldType::Array, required: false, enum_values: None, min: None, max: None }
    ]
}

fn switch_fields() -> (v: Vec<FieldDef>)
    ensures
        fields_view(v@) == switch_fields_spec(),
{
    let mut v: Vec<FieldDef> = Vec::new();
    let mut e_restore_mode: Vec<String> = Vec::new();
    e_restore_mode.push(owned("RESTORE_DEFAULT_OFF"));
    e_restore_mode.push(owned("RESTORE_DEFAULT_ON"));
    e_restore_mode.push(owned("ALWAYS_OFF"));
    e_restore_mode.push(owned("ALWAYS_ON"));
    e_restore_mode.push(owned("RESTORE_INVERTED_DEFAULT_OFF"));
    e_restore_mode.push(owned("RESTORE_INVERTED_DEFAULT_ON"));
    e_restore_mode.push(owned("DISABLED"));
    proof {
        assert(strs_view(e_restore_mode@) =~= seq!["RESTORE_DEFAULT_OFF"@, "RESTORE_DEFAULT_ON"@, "ALWAYS_OFF"@, "ALWAYS_ON"@, "RESTORE_INVERTED_DEFAULT_OFF"@, "RESTORE_INVERTED_DEFAULT_ON"@, "DISABLED"@]);
    }
    v.push(FieldDef::opt("restore_mode", FieldType::String).with_enum(e_restore_mode));
    v.push(FieldDef::opt("inverted", FieldType::Boolean));
    v.push(FieldDef::opt("on_turn_on", FieldType::Array));
    v.push(FieldDef::opt("on_turn_off", FieldType::Array));
    proof {
        assert(fields_view(v@) =~= switch_fields_spec());
    }
    v
}

/// The `gpio_switch` field table.
pub open spec fn gpio_switch_fields_spec() -> Seq<FieldV> {
    seq![
        FieldV { name: "pin"@, field_type: FieldType::Integer, required: true, enum_values: None, min: Some(0int), max: Some(48int) }
    ]
}

fn gpio_switch_fields() -> (v: Vec<FieldDef>)
    ensures
        fields_view(v@) == gpio_switch_fields_spec(),
{
    let mut v: Vec<FieldDef> = Vec::new();
    v.push(FieldDef::req("pin", FieldType::Integer).with_range(0, 48));
    proof {
        assert(fields_view(v@) =~= gpio_switch_fields_spec());
    }
    v
}

/// The `binary_sensor` field table.
pub open spec fn binary_sensor_fields_spec() -> Seq<FieldV> {
    seq![
        FieldV { name: "device_class"@, field_type: FieldType::String, required: false, enum_values: None, min: None, max: None },
        FieldV { name: "filters"@, field_type: FieldType::Array, required: false, enum_values: None, min: None, max: None },
        FieldV { name: "on_press"@, field_type: FieldType::Array, required: false, enum_values: None, min: None, max: None },
        FieldV { name: "on_release"@, field_type: FieldType::Array, required: false, enum_values: None, min: None, max: None }
    ]
}

fn binary_sensor_fields() -> (v: Vec<FieldDef>)
    ensures
        fields_view(v@) == binary_sensor_fields_spec(),
{
    let mut v: Vec<FieldDef> = Vec::new();
    v.push(FieldDef::opt("device_class", FieldType::String));
    v.push(FieldDef::opt("filters", FieldType::Array));
    v.push(FieldDef::opt("on_press", FieldType::Array));
    v.push(FieldDef::opt("on_release", FieldType::Array));
    proof {
        assert(fields_view(v@) =~= binary_sensor_fields_spec());
    }
    v
}

/// The field table of a component id, and whether the common entity fields
/// apply as well.
pub open spec fn fields_for_spec(id: Seq<char>) -> Option<(Seq<FieldV>, bool)> {
    if id == "dht"@ {
        Some((dht_fields_spec(), false))
    } else if id == "wifi"@ {
        Some((wifi_fields_spec(), false))
    } else if id == "logger"@ {
        Some((logger_fields_spec(), false))
    } else if id == "api"@ {
        Some((api_fields_spec(), false))
    } else if id == "ota"@ {
        Some((ota_fields_spec(), false))
    } else if id == "i2c"@ {
        Some((i2c_fields_spec(), false))
    } else if id == "sensor"@ {
        Some((sensor_fields_spec(), true))
    } else if id == "switch"@ {
        Some((switch_fields_spec(), true))
    } else if id == "gpio"@ {
        Some((gpio_switch_fields_spec(), false))
    } else if id == "binary_sensor"@ {
        Some((binary_sensor_fields_spec(), true))
    } else {
        None
    }
}

/// Return the field table for a component id.
pub fn fields_for(id: &str) -> (r: Option<(Vec<FieldDef>, bool)>)
    ensures
        match r {
            Some((v, c)) => fields_for_spec(id@) == Some((fields_view(v@), c)),
            None => fields_for_spec(id@) is None,
        },
{
    if str_eq(id, "dht") {
        Some((dht_fields(), false))
    } else if str_eq(id, "wifi") {
        Some((wifi_fields(), false))
    } else if str_eq(id, "logger") {
        Some((logger_fields(), false))
    } else if str_eq(id, "api") {
        Some((api_fields(), false))
    } else if str_eq(id, "ota") {
        Some((ota_fields(), false))
    } else if str_eq(id, "i2c") {
        Some((i2c_fields(), false))
    } else if str_eq(id, "sensor") {
        Some((sensor_fields(), true))
    } else if str_eq(id, "switch") {
        Some((switch_fields(), true))
    } else if str_eq(id, "gpio") {
        Some((gpio_switch_fields(), false))
    } else if str_eq(id, "binary_sensor") {
        Some((binary_sensor_fields(), true))
    } else {
        None
    }
}

/// `v` has the type the field expects.
pub open spec fn type_ok(v: JsonV, t: FieldType) -> bool {
    match t {
        FieldType::String => v is Str,
        FieldType::Integer => v is Number && (v->Number_0 is PosInt || v->Number_0 is NegInt),
        FieldType::Float => v is Number,
        FieldType::Boolean => v is Bool,
        FieldType::Object => v is Object,
        FieldType::Array => v is Array,
        FieldType::Any => true,
    }
}

/// Check a value against an expected field type.
pub fn check_field_type(value: &Json, expected: FieldType) -> (r: bool)
    ensures
        r == type_ok(value@, expected),
{
    match expected {
        FieldType::String => match value {
            Json::Str(_) => true,
            _ => false,
        },
        FieldType::Integer => match value {
            Json::Number(JsonNumber::PosInt(_)) => true,
            Json::Number(JsonNumber::NegInt(_)) => true,
            _ => false,
        },
        FieldType::Float => match value {
            Json::Number(_) => true,
            _ => false,
        },
        FieldType::Boolean => match value {
            Json::Bool(_) => true,
            _ => false,
        },
        FieldType::Object => match value {
            Json::Object(_) => true,
            _ => false,
        },
        FieldType::Array => match value {
            Json::Array(_) => true,
            _ => false,
        },
        FieldType::Any => true,
    }
}

/// The name of a field type, as `Debug` prints it.
pub open spec fn type_label(t: FieldType) -> Seq<char> {
    match t {
        FieldType::String => "String"@,
        FieldType::Integer => "Integer"@,
        FieldType::Float => "Float"@,
        FieldType::Boolean => "Boolean"@,
        FieldType::Object => "Object"@,
        FieldType::Array => "Array"@,
        FieldType::Any => "Any"@,
    }
}

fn type_label_exec(t: FieldType) -> (r: &'static str)
    ensures
        r@ == type_label(t),
{
    match t {
        FieldType::String => "String",
        FieldType::Integer => "Integer",
        FieldType::Float => "Float",
        FieldType::Boolean => "Boolean",
        FieldType::Object => "Object",
        FieldType::Array => "Array",
        FieldType::Any => "Any",
    }
}

/// The JSON type name of a value.
pub open spec fn json_type_name_spec(v: JsonV) -> Seq<char> {
    match v {
        JsonV::Null => "null"@,
        JsonV::Bool(_) => "boolean"@,
        JsonV::Number(_) => "number"@,
        JsonV::Str(_) => "string"@,
        JsonV::Array(_) => "array"@,
        JsonV::Object(_) => "object"@,
    }
}

/// The JSON type name of a value.
pub fn json_type_name(v: &Json) -> (r: &'static str)
    ensures
        r@ == json_type_name_spec(v@),
{
    match v {
        Json::Null => "null",
        Json::Bool(_) => "boolean",
        Json::Number(_) => "number",
        Json::Str(_) => "string",
        Json::Array(_) => "array",
        Json::Object(_) => "object",
    }
}

/// The code point of a character's ASCII lowercase.
pub open spec fn ascii_lower(c: char) -> u32 {
    if 'A' <= c <= 'Z' {
        ((c as u32) + 32) as u32
    } else {
        c as u32
    }
}

/// Equal up to ASCII case.
pub open spec fn eq_ignore_ascii_case_spec(a: Seq<char>, b: Seq<char>) -> bool {
    a.len() == b.len() && forall|i: int| 0 <= i < a.len() ==> ascii_lower(a[i]) == ascii_lower(b[i])
}

fn ascii_lower_exec(c: char) -> (r: u32)
    ensures
        r == ascii_lower(c),
{
    if 'A' <= c && c <= 'Z' {
        (c as u32) + 32
    } else {
        c as u32
    }
}

/// `str::eq_ignore_ascii_case`: equal up to ASCII case.
pub fn eq_ignore_ascii_case(a: &str, b: &str) -> (r: bool)
    ensures
        r == eq_ignore_ascii_case_spec(a@, b@),
{
    let av = chars_of(a);
    let bv = chars_of(b);
    if av.len() != bv.len() {
        return false;
    }
    let mut i: usize = 0;
    while i < av.len()
        invariant
            av@ == a@,
            bv@ == b@,
            av@.len() == bv@.len(),
            i <= av@.len(),
            forall|k: int| 0 <= k < i ==> ascii_lower(av@[k]) == ascii_lower(bv@[k]),
        decreases av@.len() - i,
    {
        if ascii_lower_exec(av[i]) != ascii_lower_exec(bv[i]) {
            return false;
        }
        i = i + 1;
    }
    true
}

/// An integer's decimal text, with a leading `-` when negative.
pub open spec fn int_text(k: int) -> Seq<char> {
    if k < 0 {
        "-"@ + decimal((-k) as nat)
    } else {
        decimal(k as nat)
    }
}

/// The text of a number as printed in range diagnostics.
pub open spec fn num_text(n: NumV) -> Seq<char> {
    match n {
        NumV::PosInt(k) => decimal(k),
        NumV::NegInt(k) => int_text(k),
        NumV::Float(_, _, _, d) => d,
    }
}

/// Decimal text of a signed integer.
pub fn i64_to_decimal(k: i64) -> (r: String)
    ensures
        r@ == int_text(k as int),
{
    if k < 0 {
        let m: u64 = (-(k as i128)) as u64;
        let d = u64_to_decimal(m);
        concat2("-", d.as_str())
    } else {
        u64_to_decimal(k as u64)
    }
}

fn num_text_exec(n: &JsonNumber) -> (r: String)
    ensures
        r@ == num_text(n@),
{
    match n {
        JsonNumber::PosInt(k) => u64_to_decimal(*k),
        JsonNumber::NegInt(k) => i64_to_decimal(*k),
        JsonNumber::Float(f) => f.display.clone(),
    }
}

/// The number lies below `min`.
pub open spec fn below(n: NumV, min: int) -> bool {
    match n {
        NumV::PosInt(k) => k < min,
        NumV::NegInt(k) => k < min,
        NumV::Float(fl, _, _, _) => fl < min,
    }
}

/// The number lies above `max`.
pub open spec fn above(n: NumV, max: int) -> bool {
    match n {
        NumV::PosInt(k) => k > max,
        NumV::NegInt(k) => k > max,
        NumV::Float(fl, integral, _, _) => fl > max || (fl == max && !integral),
    }
}

fn out_of_range(n: &JsonNumber, min: i64, max: i64) -> (r: bool)
    ensures
        r == (below(n@, min as int) || above(n@, max as int)),
{
    match n {
        JsonNumber::PosInt(k) => (min > 0 && *k < min as u64) || (max < 0 || *k > max as u64),
        JsonNumber::NegInt(k) => *k < min || *k > max,
        JsonNumber::Float(f) => f.floor < min || f.floor > max || (f.floor == max && !f.integral),
    }
}

/// Some variant equals `s` up to ASCII case.
pub open spec fn known_variant(vs: Seq<Seq<char>>, s: Seq<char>) -> bool {
    exists|i: int| 0 <= i < vs.len() && eq_ignore_ascii_case_spec(#[trigger] vs[i], s)
}

/// The diagnostics for one field of an object.
pub open spec fn field_errors(obj: Seq<(Seq<char>, JsonV)>, f: FieldV, path: Seq<char>) -> Seq<
    DiagnosticView,
> {
    let fp = key_path(path, f.name);
    match obj_get(obj, f.name) {
        None => if f.required {
            seq![
                diag(
                    ValidationStage::SchemaValidation,
                    Severity::Error,
                    fp,
                    "required field '"@ + f.name + "' is missing"@,
                ),
            ]
        } else {
            Seq::empty()
        },
        Some(v) => if v is Null && f.required {
            seq![
                diag(
                    ValidationStage::SchemaValidation,
                    Severity::Error,
                    fp,
                    "required field '"@ + f.name + "' must not be null"@,
                ),
            ]
        } else if !type_ok(v, f.field_type) {
            seq![
                diag(
                    ValidationStage::SchemaValidation,
                    Severity::Error,
                    fp,
                    "field '"@ + f.name + "' expected "@ + type_label(f.field_type) + " but got "@
                        + json_type_name_spec(v),
                ),
            ]
        } else {
            let enum_errs = match (f.enum_values, v) {
                (Some(vs), JsonV::Str(s)) => if !known_variant(vs, s) {
                    seq![
                        diag_hint(
                            ValidationStage::SchemaValidation,
                            Severity::Error,
                            fp,
                            "invalid value '"@ + s + "' for '"@ + f.name + "'"@,
                            "valid values: "@ + join_spec(vs, ", "@),
                        ),
                    ]
                } else {
                    Seq::empty()
                },
                _ => Seq::empty(),
            };
            let range_errs = match (f.min, f.max, v) {
                (Some(mn), Some(mx), JsonV::Number(n)) => if below(n, mn) || above(n, mx) {
                    seq![
                        diag(
                            ValidationStage::SchemaValidation,
                            Severity::Error,
                            fp,
                            "value "@ + num_text(n) + " for '"@ + f.name
                                + "' is outside valid range ["@ + int_text(mn) + ", "@ + int_text(
                                mx,
                            ) + "]"@,
                        ),
                    ]
                } else {
                    Seq::empty()
                },
                _ => Seq::empty(),
            };
            enum_errs + range_errs
        },
    }
}

/// The diagnostics for the first `n` fields; none when `config` is not an object.
pub open spec fn fields_errors(config: JsonV, fs: Seq<FieldV>, path: Seq<char>, n: int) -> Seq<
    DiagnosticView,
>
    decreases n,
{
    if n <= 0 || n > fs.len() {
        Seq::empty()
    } else {
        match config {
            JsonV::Object(m) => fields_errors(config, fs, path, n - 1) + field_errors(m, fs[n - 1], path),
            _ => Seq::empty(),
        }
    }
}

fn any_variant(vs: &Vec<String>, s: &str) -> (r: bool)
    ensures
        r == known_variant(strs_view(vs@), s@),
{
    let ghost w = strs_view(vs@);
    let mut i: usize = 0;
    while i < vs.len()
        invariant
            i <= vs@.len(),
            w == strs_view(vs@),
            forall|k: int| 0 <= k < i ==> !eq_ignore_ascii_case_spec(#[trigger] w[k], s@),
        decreases vs@.len() - i,
    {
        if eq_ignore_ascii_case(vs[i].as_str(), s) {
            proof {
                assert(eq_ignore_ascii_case_spec(w[i as int], s@));
            }
            return true;
        }
        i = i + 1;
    }
    false
}

fn validate_field(obj: &Json, f: &FieldDef, path: &str, errors: &mut Vec<ValidationError>)
    requires
        obj@ is Object,
    ensures
        diags(final(errors)@) == diags(old(errors)@) + field_errors(obj@->Object_0, f@, path@),
{
    let ghost e0 = diags(errors@);
    let fp = concat3(path, ".", f.name.as_str());
    proof {
        reveal_strlit(".");
        assert(fp@ =~= key_path(path@, f.name@));
    }
    match obj.get(f.name.as_str()) {
        None => {
            if f.required {
                let msg = concat3("required field '", f.name.as_str(), "' is missing");
                let e = ValidationError::error(ValidationStage::SchemaValidation, fp.as_str(), msg.as_str());
                errors.push(e);
                proof {
                    assert(diags(errors@) =~= e0 + seq![e@]);
                }
            } else {
                proof {
                    assert(diags(errors@) =~= e0 + Seq::<DiagnosticView>::empty());
                }
            }
        },
        Some(val) => {
            if val.is_null() && f.required {
                let msg = concat3("required field '", f.name.as_str(), "' must not be null");
                let e = ValidationError::error(ValidationStage::SchemaValidation, fp.as_str(), msg.as_str());
                errors.push(e);
                proof {
                    assert(diags(errors@) =~= e0 + seq![e@]);
                }
            } else if !check_field_type(val, f.field_type) {
                let mut msg = concat3("field '", f.name.as_str(), "' expected ");
                push_str(&mut msg, type_label_exec(f.field_type));
                push_str(&mut msg, " but got ");
                push_str(&mut msg, json_type_name(val));
                let e = ValidationError::error(ValidationStage::SchemaValidation, fp.as_str(), msg.as_str());
                errors.push(e);
                proof {
                    assert(e@.message =~= "field '"@ + f.name@ + "' expected "@ + type_label(f.field_type) + " but got "@ + json_type_name_spec(val@));
                    assert(diags(errors@) =~= e0 + seq![e@]);
                }
            } else {
                let ghost enum_before = diags(errors@);
                match (&f.enum_values, val) {
                    (Some(vs), Json::Str(s)) => {
                        if !any_variant(vs, s.as_str()) {
                            let msg = concat3("invalid value '", s.as_str(), "' for '");
                            let mut msg = msg;
                            push_str(&mut msg, f.name.as_str());
                            push_str(&mut msg, "'");
                            let hint = concat2("valid values: ", join_strs(vs, ", ").as_str());
                            let e = ValidationError::error(ValidationStage::SchemaValidation, fp.as_str(), msg.as_str())
                                .with_suggestion(hint.as_str());
                            errors.push(e);
                            proof {
                                assert(e@.message =~= "invalid value '"@ + s@ + "' for '"@ + f.name@ + "'"@);
                                assert(diags(errors@) =~= e0 + seq![e@]);
                            }
                        } else {
                            proof {
                                assert(diags(errors@) =~= e0 + Seq::<DiagnosticView>::empty());
                            }
                        }
                    },
                    _ => {
                        proof {
                            assert(diags(errors@) =~= e0 + Seq::<DiagnosticView>::empty());
                        }
                    },
                }
                let ghost mid = diags(errors@);
                match (f.min, f.max, val) {
                    (Some(mn), Some(mx), Json::Number(n)) => {
                        if out_of_range(n, mn, mx) {
                            let mut msg = concat2("value ", num_text_exec(n).as_str());
                            push_str(&mut msg, " for '");
                            push_str(&mut msg, f.name.as_str());
                            push_str(&mut msg, "' is outside valid range [");
                            push_str(&mut msg, i64_to_decimal(mn).as_str());
                            push_str(&mut msg, ", ");
                            push_str(&mut msg, i64_to_decimal(mx).as_str());
                            push_str(&mut msg, "]");
                            let e = ValidationError::error(ValidationStage::SchemaValidation, fp.as_str(), msg.as_str());
                            errors.push(e);
                            proof {
                                assert(e@.message =~= "value "@ + num_text(n@) + " for '"@ + f.name@
                                    + "' is outside valid range ["@ + int_text(mn as int) + ", "@ + int_text(mx as int) + "]"@);
                                assert(diags(errors@) =~= mid + seq![e@]);
                            }
                        } else {
                            proof {
                                assert(diags(errors@) =~= mid + Seq::<DiagnosticView>::empty());
                            }
                        }
                    },
                    _ => {
                        proof {
                            assert(diags(errors@) =~= mid + Seq::<DiagnosticView>::empty());
                        }
                    },
                }
            }
        },
    }
}

/// Validate the fields of a config object; nothing is checked when the
/// config is not an object.
pub fn validate_fields(config: &Json, fields: &Vec<FieldDef>, path: &str, errors: &mut Vec<ValidationError>)
    ensures
        diags(final(errors)@) == diags(old(errors)@) + fields_errors(
            config@,
            fields_view(fields@),
            path@,
            fields@.len() as int,
        ),
{
    let ghost e0 = diags(errors@);
    let ghost fs = fields_view(fields@);
    if !config.is_object() {
        proof {
            if fields@.len() > 0 {
                assert(fields_errors(config@, fs, path@, fields@.len() as int) =~= Seq::<DiagnosticView>::empty());
            } else {
                assert(fields_errors(config@, fs, path@, fields@.len() as int) =~= Seq::<DiagnosticView>::empty());
            }
            assert(diags(errors@) =~= e0 + fields_errors(config@, fs, path@, fields@.len() as int));
        }
        return;
    }
    let mut i: usize = 0;
    proof {
        assert(diags(errors@) =~= e0 + fields_errors(config@, fs, path@, 0));
    }
    while i < fields.len()
        invariant
            i <= fields@.len(),
            config@ is Object,
            fs == fields_view(fields@),
            diags(errors@) == e0 + fields_errors(config@, fs, path@, i as int),
        decreases fields@.len() - i,
    {
        let ghost before = diags(errors@);
        validate_field(config, &fields[i], path, errors);
        proof {
            assert(fs[i as int] == fields@[i as int]@);
            assert(diags(errors@) =~= e0 + fields_errors(config@, fs, path@, i + 1));
        }
        i = i + 1;
    }
}

/// The diagnostics for one component: the common entity fields (when they
/// apply) and then the component's own fields; none without a table.
pub open spec fn component_errors(id: Seq<char>, config: JsonV, path: Seq<char>) -> Seq<DiagnosticView> {
    match fields_for_spec(id) {
        Some((fs, common)) => (if common {
            fields_errors(config, entity_common_fields_spec(), path, entity_common_fields_spec().len() as int)
        } else {
            Seq::empty()
        }) + fields_errors(config, fs, path, fs.len() as int),
        None => Seq::empty(),
    }
}

/// Validate one component against the table of its id.
pub fn validate_component(
    component_id: &str,
    comp: &ComponentConfig,
    path: &str,
    errors: &mut Vec<ValidationError>,
)
    ensures
        diags(final(errors)@) == diags(old(errors)@) + component_errors(
            component_id@,
            comp.config@,
            path@,
        ),
{
    let ghost e0 = diags(errors@);
    match fields_for(component_id) {
        Some((fields, has_common)) => {
            if has_common {
                let common = entity_common_fields();
                validate_fields(&comp.config, &common, path, errors);
            } else {
                proof {
                    assert(diags(errors@) =~= e0 + Seq::<DiagnosticView>::empty());
                }
            }
            let ghost mid = diags(errors@);
            validate_fields(&comp.config, &fields, path, errors);
            proof {
                assert(diags(errors@) =~= e0 + component_errors(component_id@, comp.config@, path@));
            }
        },
        None => {
            proof {
                assert(diags(errors@) =~= e0 + Seq::<DiagnosticView>::empty());
            }
        },
    }
}

/// How many of the first `n` components have type `t`.
pub open spec fn type_count(cs: Seq<ComponentView>, t: Seq<char>, n: int) -> nat
    decreases n,
{
    if n <= 0 || n > cs.len() {
        0
    } else {
        type_count(cs, t, n - 1) + if cs[n - 1].component_type == t {
            1nat
        } else {
            0nat
        }
    }
}

/// The schema path of component `i`: its type and its index among the
/// components of that type, e.g. `sensor[1]`.
pub open spec fn schema_path(cs: Seq<ComponentView>, i: int) -> Seq<char> {
    cs[i].component_type + "["@ + decimal(type_count(cs, cs[i].component_type, i)) + "]"@
}

/// The diagnostics of the first `n` components.
pub open spec fn schema_errors(cs: Seq<ComponentView>, n: int) -> Seq<DiagnosticView>
    decreases n,
{
    if n <= 0 || n > cs.len() {
        Seq::empty()
    } else {
        schema_errors(cs, n - 1) + component_errors(effective_id(cs[n - 1]), cs[n - 1].config, schema_path(cs, n - 1))
    }
}

fn count_type(cs: &Vec<ComponentConfig>, t: &str, n: usize) -> (r: usize)
    requires
        n <= cs@.len(),
    ensures
        r == type_count(comps_view(cs@), t@, n as int),
{
    let ghost v = comps_view(cs@);
    let mut c: usize = 0;
    let mut i: usize = 0;
    while i < n
        invariant
            i <= n <= cs@.len(),
            v == comps_view(cs@),
            c == type_count(v, t@, i as int),
            c <= i,
        decreases n - i,
    {
        if str_eq(cs[i].component_type.as_str(), t) {
            c = c + 1;
        }
        i = i + 1;
    }
    c
}

/// Stage 7: validate every component's config against its field table.
pub fn stage_7_validate_schemas(config: &RawConfig) -> (errors: Vec<ValidationError>)
    ensures
        diags(errors@) == schema_errors(comps_view(config.components@), config.components@.len() as int),
{
    let mut errors: Vec<ValidationError> = Vec::new();
    let ghost cs = comps_view(config.components@);
    let mut i: usize = 0;
    proof {
        assert(diags(errors@) =~= Seq::<DiagnosticView>::empty());
    }
    while i < config.components.len()
        invariant
            i <= config.components@.len(),
            cs == comps_view(config.components@),
            diags(errors@) == schema_errors(cs, i as int),
        decreases config.components@.len() - i,
    {
        let comp = &config.components[i];
        let idx = count_type(&config.components, comp.component_type.as_str(), i);
        let mut path = concat2(comp.component_type.as_str(), "[");
        push_str(&mut path, u64_to_decimal(idx as u64).as_str());
        push_str(&mut path, "]");
        let id = component_effective_id(comp);
        proof {
            assert(cs[i as int] == comp@);
            assert(path@ =~= schema_path(cs, i as int));
        }
        let ghost before = diags(errors@);
        validate_component(id.as_str(), comp, path.as_str(), &mut errors);
        i = i + 1;
    }
    errors
}

} // verus!
