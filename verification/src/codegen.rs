//! Code-generation decisions that depend only on validated data: the
//! motor-control backend, conflicting variant flags, device-type mapping
//! for the board manager, and the entity key hash.
use vstd::prelude::*;
use vstd::string::StringSliceAdditionalSpecFns;
use crate::text::{str_eq, owned, strs_view, push_str, push_char, decimal, u64_to_decimal};
use crate::catalog::contains_str;

verus! {

/// Which motor-control backend a validated configuration requests.
#[derive(Debug, Clone, Copy, PartialEq, Eq, Structural)]
pub enum MotorBackend {
    Pwm,
    Dshot,
    Bdshot,
}

/// The backend the active flags request: BDSHOT wins over DSHOT, which wins
/// over plain PWM.
pub open spec fn backend_spec(flags: Seq<Seq<char>>) -> MotorBackend {
    if flags.contains("USE_BDSHOT"@) {
        MotorBackend::Bdshot
    } else if flags.contains("USE_DSHOT"@) {
        MotorBackend::Dshot
    } else {
        MotorBackend::Pwm
    }
}

/// Returns the requested motor-control backend with deterministic precedence.
pub fn motor_control_backend(active_flags: &Vec<String>) -> (r: MotorBackend)
    ensures
        r == backend_spec(strs_view(active_flags@)),
{
    if contains_str(active_flags, "USE_BDSHOT") {
        MotorBackend::Bdshot
    } else if contains_str(active_flags, "USE_DSHOT") {
        MotorBackend::Dshot
    } else {
        MotorBackend::Pwm
    }
}

/// A set of incompatible active feature flags.
#[derive(Debug, PartialEq, Eq)]
pub struct VariantFlagConflict {
    /// The mutually exclusive group.
    pub group: Vec<String>,
    /// The members of the group that are active, in group order.
    pub present: Vec<String>,
}

/// The groups of mutually exclusive motor-control backend flags.
pub open spec fn exclusive_flag_groups() -> Seq<Seq<Seq<char>>> {
    seq![seq!["USE_DSHOT"@, "USE_BDSHOT"@]]
}

/// Whether a flag is among `flags`.
pub open spec fn active_in(flags: Seq<Seq<char>>) -> spec_fn(Seq<char>) -> bool {
    |g: Seq<char>| flags.contains(g)
}

/// The members of `group` that occur among `flags`, in group order.
pub open spec fn present_flags(group: Seq<Seq<char>>, flags: Seq<Seq<char>>) -> Seq<Seq<char>> {
    group.filter(active_in(flags))
}

/// One conflict per group (of the first `n`) with two or more active members.
pub open spec fn conflicts_spec(groups: Seq<Seq<Seq<char>>>, flags: Seq<Seq<char>>, n: int) -> Seq<
    (Seq<Seq<char>>, Seq<Seq<char>>),
>
    decreases n,
{
    if n <= 0 || n > groups.len() {
        Seq::empty()
    } else {
        let p = present_flags(groups[n - 1], flags);
        conflicts_spec(groups, flags, n - 1) + if p.len() >= 2 {
            seq![(groups[n - 1], p)]
        } else {
            Seq::empty()
        }
    }
}

/// Reports every mutually exclusive feature group with two or more active flags.
pub fn detect_variant_flag_conflicts(active_flags: &Vec<String>) -> (r: Vec<VariantFlagConflict>)
    ensures
        r@.map_values(|c: VariantFlagConflict| (strs_view(c.group@), strs_view(c.present@)))
            == conflicts_spec(exclusive_flag_groups(), strs_view(active_flags@), 1),
{
    let ghost flags = strs_view(active_flags@);
    let mut group: Vec<String> = Vec::new();
    group.push(owned("USE_DSHOT"));
    group.push(owned("USE_BDSHOT"));
    let ghost g = strs_view(group@);
    proof {
        assert(g =~= seq!["USE_DSHOT"@, "USE_BDSHOT"@]);
    }
    let mut present: Vec<String> = Vec::new();
    let mut i: usize = 0;
    while i < group.len()
        invariant
            i <= group@.len(),
            g == strs_view(group@),
            flags == strs_view(active_flags@),
            strs_view(present@) == g.subrange(0, i as int).filter(active_in(flags)),
        decreases group@.len() - i,
    {
        proof {
            reveal_with_fuel(Seq::<Seq<char>>::filter, 1);
            assert(g.subrange(0, i + 1).drop_last() =~= g.subrange(0, i as int));
        }
        if contains_str(active_flags, group[i].as_str()) {
            let ghost before = strs_view(present@);
            present.push(group[i].clone());
            proof {
                assert(strs_view(present@) =~= before.push(g[i as int]));
            }
        }
        i = i + 1;
    }
    proof {
        assert(g.subrange(0, 2) =~= g);
        assert(strs_view(present@) == present_flags(g, flags));
    }
    let mut out: Vec<VariantFlagConflict> = Vec::new();
    if present.len() >= 2 {
        out.push(VariantFlagConflict { group, present });
    }
    proof {
        assert(exclusive_flag_groups()[0] == g);
        let p = present_flags(g, flags);
        assert(conflicts_spec(exclusive_flag_groups(), flags, 0) == Seq::<(Seq<Seq<char>>, Seq<Seq<char>>)>::empty());
        assert(conflicts_spec(exclusive_flag_groups(), flags, 1) == Seq::<(Seq<Seq<char>>, Seq<Seq<char>>)>::empty() + if p.len() >= 2 {
            seq![(g, p)]
        } else {
            Seq::empty()
        });
        assert(out@.map_values(|c: VariantFlagConflict| (strs_view(c.group@), strs_view(c.present@))) =~= conflicts_spec(exclusive_flag_groups(), flags, 1));
    }
    out
}

/// The device types the board manager ships parsers for, plus the legacy
/// types kept for existing assemblies.
pub open spec fn builtin_device_types() -> Seq<Seq<char>> {
    seq![
        "audio_codec"@,
        "button"@,
        "camera"@,
        "custom"@,
        "display_lcd"@,
        "fs_fat"@,
        "fs_spiffs"@,
        "gpio_ctrl"@,
        "gpio_expander"@,
        "lcd_touch_i2c"@,
        "ledc_ctrl"@,
        "power_ctrl"@,
        "i2c_sensor"@,
        "onewire_sensor"@,
        "ds18b20"@,
        "dht"@,
    ]
}

/// The `type:` value emitted for a logical device type: the type itself when
/// it is built in, else `custom`.
pub fn resolve_device_type_yaml(device_type: &str) -> (r: &str)
    ensures
        r@ == if builtin_device_types().contains(device_type@) {
            device_type@
        } else {
            "custom"@
        },
{
    let mut v: Vec<&str> = Vec::new();
    v.push("audio_codec");
    v.push("button");
    v.push("camera");
    v.push("custom");
    v.push("display_lcd");
    v.push("fs_fat");
    v.push("fs_spiffs");
    v.push("gpio_ctrl");
    v.push("gpio_expander");
    v.push("lcd_touch_i2c");
    v.push("ledc_ctrl");
    v.push("power_ctrl");
    v.push("i2c_sensor");
    v.push("onewire_sensor");
    v.push("ds18b20");
    v.push("dht");
    let ghost b = builtin_device_types();
    proof {
        assert(v@.map_values(|s: &str| s@) =~= b);
    }
    let mut i: usize = 0;
    while i < v.len()
        invariant
            i <= v@.len(),
            v@.map_values(|s: &str| s@) == b,
            b == builtin_device_types(),
            forall|k: int| 0 <= k < i ==> b[k] != device_type@,
        decreases v@.len() - i,
    {
        if str_eq(v[i], device_type) {
            proof {
                assert(b[i as int] == device_type@);
                assert(b.contains(device_type@));
                assert(builtin_device_types().contains(device_type@));
            }
            return device_type;
        }
        i = i + 1;
    }
    proof {
        assert(!b.contains(device_type@)) by {
            if b.contains(device_type@) {
                let k = choose|k: int| 0 <= k < b.len() && b[k] == device_type@;
                assert(b[k] != device_type@);
            }
        }
    }
    "custom"
}

/// FNV-1a (32-bit) over the first `n` bytes.
pub open spec fn fnv1a_spec(bytes: Seq<u8>, n: int) -> u32
    decreases n,
{
    if n <= 0 || n > bytes.len() {
        0x811c_9dc5u32
    } else {
        (fnv1a_spec(bytes, n - 1) ^ (bytes[n - 1] as u32)).wrapping_mul(0x0100_0193u32)
    }
}

/// The 32-bit FNV-1a hash of the text's UTF-8 bytes.
pub fn fnv1a_32(value: &str) -> (r: u32)
    ensures
        r == fnv1a_spec(value.spec_bytes(), value.spec_bytes().len() as int),
{
    let bytes = value.as_bytes();
    let mut hash: u32 = 0x811c_9dc5;
    let mut i: usize = 0;
    while i < bytes.len()
        invariant
            i <= bytes@.len(),
            bytes@ == value.spec_bytes(),
            hash == fnv1a_spec(bytes@, i as int),
        decreases bytes@.len() - i,
    {
        hash = (hash ^ (bytes[i] as u32)).wrapping_mul(0x0100_0193);
        i = i + 1;
    }
    hash
}

/// The kind of a Home Assistant entity exported by a solution.
#[derive(Debug, Clone, Copy, PartialEq, Eq, Structural)]
pub enum HaEntityKind {
    BinarySensor,
    Sensor,
    Switch,
    Light,
    Climate,
    Button,
    TextSensor,
    Number,
    Select,
    /// Any other kind the schema defines.
    Other,
}

/// An entity exported to Home Assistant.
#[derive(Debug)]
pub struct HaEntityExportDefinition {
    /// The entity's kind.
    pub kind: HaEntityKind,
    /// The entity's object id (hashed into its key).
    pub object_id: String,
}

/// The domain name of an entity kind.
pub open spec fn kind_name_spec(kind: HaEntityKind) -> Seq<char> {
    match kind {
        HaEntityKind::BinarySensor => "binary_sensor"@,
        HaEntityKind::Sensor => "sensor"@,
        HaEntityKind::Switch => "switch"@,
        HaEntityKind::Light => "light"@,
        HaEntityKind::Climate => "climate"@,
        HaEntityKind::Button => "button"@,
        HaEntityKind::TextSensor => "text_sensor"@,
        HaEntityKind::Number => "number"@,
        HaEntityKind::Select => "select"@,
        HaEntityKind::Other => "unknown"@,
    }
}

/// The domain name of an entity kind.
pub fn entity_kind_name(kind: HaEntityKind) -> (r: &'static str)
    ensures
        r@ == kind_name_spec(kind),
{
    match kind {
        HaEntityKind::BinarySensor => "binary_sensor",
        HaEntityKind::Sensor => "sensor",
        HaEntityKind::Switch => "switch",
        HaEntityKind::Light => "light",
        HaEntityKind::Climate => "climate",
        HaEntityKind::Button => "button",
        HaEntityKind::TextSensor => "text_sensor",
        HaEntityKind::Number => "number",
        HaEntityKind::Select => "select",
        HaEntityKind::Other => "unknown",
    }
}

/// An upper-case hexadecimal digit.
pub open spec fn hex_digit(d: nat) -> char {
    if d < 10 {
        ((d + 48) as u8) as char
    } else {
        ((d + 55) as u8) as char
    }
}

/// The last `k` hexadecimal digits of `n`, upper case, zero-padded.
pub open spec fn hex_fixed(n: nat, k: nat) -> Seq<char>
    decreases k,
{
    if k == 0 {
        Seq::empty()
    } else {
        hex_fixed(n / 16, (k - 1) as nat).push(hex_digit(n % 16))
    }
}

/// `n` as eight upper-case hexadecimal digits (`{:08X}`).
pub fn hex8(n: u32) -> (r: String)
    ensures
        r@ == hex_fixed(n as nat, 8),
{
    let mut out: Vec<char> = Vec::new();
    let mut m: u32 = n;
    let mut i: u32 = 0;
    while i < 8
        invariant
            i <= 8,
            hex_fixed(n as nat, 8) == hex_fixed(m as nat, (8 - i) as nat) + out@,
        decreases 8 - i,
    {
        let d = m % 16;
        let c: char = if d < 10 {
            ((d + 48) as u8) as char
        } else {
            ((d + 55) as u8) as char
        };
        proof {
            assert(c == hex_digit(m as nat % 16));
            assert(hex_fixed(m as nat, (8 - i) as nat) == hex_fixed((m / 16) as nat, (8 - i - 1) as nat).push(c));
            assert(hex_fixed((m / 16) as nat, (8 - i - 1) as nat).push(c) + out@ =~= hex_fixed((m / 16) as nat, (8 - i - 1) as nat) + (seq![c] + out@));
        }
        let ghost before = out@;
        out.insert(0, c);
        proof {
            assert(out@ =~= seq![c] + before);
        }
        m = m / 16;
        i = i + 1;
    }
    crate::text::string_of(&out)
}

/// The entity key of an object id: FNV-1a of its UTF-8 bytes.
pub open spec fn entity_key(id: Seq<char>) -> u32 {
    fnv1a_spec(vstd::utf8::encode_utf8(id), vstd::utf8::encode_utf8(id).len() as int)
}

/// The comment line that registers one entity in the adapter source.
pub open spec fn entity_line(e: HaEntityExportDefinition) -> Seq<char> {
    "    /* "@ + kind_name_spec(e.kind) + ":"@ + e.object_id@ + " key=0x"@ + hex_fixed(
        entity_key(e.object_id@) as nat,
        8,
    ) + " */\n"@
}

/// The registration lines of the first `n` entities.
pub open spec fn entity_lines(es: Seq<HaEntityExportDefinition>, n: int) -> Seq<char>
    decreases n,
{
    if n <= 0 || n > es.len() {
        Seq::empty()
    } else {
        entity_lines(es, n - 1) + entity_line(es[n - 1])
    }
}

/// The C source of the Home Assistant export adapter: the two includes, an
/// init function that logs how many entities it registers for the device,
/// and one comment line per entity with its kind, object id and key.
pub open spec fn ha_adapter_source_spec(es: Seq<HaEntityExportDefinition>, device_name: Seq<char>) -> Seq<char> {
    "#include \"ha_export_adapter.h\"\n#include \"esp_log.h\"\n\n"@ + "void ha_export_adapter_init(void) {\n"@
        + "    ESP_LOGI(\"ha_export\", \"Registering "@ + decimal(es.len()) + " entities for "@ + device_name
        + "\");\n"@ + entity_lines(es, es.len() as int) + "}\n"@
}

/// Generate the C source of the Home Assistant export adapter.
pub fn generate_ha_adapter_source(entities: &Vec<HaEntityExportDefinition>, device_name: &str) -> (r: String)
    ensures
        r@ == ha_adapter_source_spec(entities@, device_name@),
{
    let mut source = owned("#include \"ha_export_adapter.h\"\n#include \"esp_log.h\"\n\n");
    push_str(&mut source, "void ha_export_adapter_init(void) {\n");
    push_str(&mut source, "    ESP_LOGI(\"ha_export\", \"Registering ");
    let count = u64_to_decimal(entities.len() as u64);
    push_str(&mut source, count.as_str());
    push_str(&mut source, " entities for ");
    push_str(&mut source, device_name);
    push_str(&mut source, "\");\n");
    let ghost head = source@;
    let mut i: usize = 0;
    while i < entities.len()
        invariant
            i <= entities@.len(),
            source@ == head + entity_lines(entities@, i as int),
        decreases entities@.len() - i,
    {
        let e = &entities[i];
        push_str(&mut source, "    /* ");
        push_str(&mut source, entity_kind_name(e.kind));
        push_str(&mut source, ":");
        push_str(&mut source, e.object_id.as_str());
        push_str(&mut source, " key=0x");
        let key = fnv1a_32(e.object_id.as_str());
        let hex = hex8(key);
        push_str(&mut source, hex.as_str());
        push_str(&mut source, " */\n");
        proof {
            assert(source@ =~= head + entity_lines(entities@, i as int) + entity_line(entities@[i as int]));
        }
        i = i + 1;
    }
    push_str(&mut source, "}\n");
    proof {
        assert(source@ =~= ha_adapter_source_spec(entities@, device_name@));
    }
    source
}

} // verus!
