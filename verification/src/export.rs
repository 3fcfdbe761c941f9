//! Config export formats and a line-oriented ESPHome YAML import.
//!
//! The import reads the common ESPHome patterns (the `esphome:` block, the
//! chip block, substitutions, simple sections and platform-entry sections)
//! with a small state machine that runs over the lines of the input; the
//! state machine is stated as `import_step` and the parser is proved to
//! follow it line by line.
use vstd::prelude::*;
use vstd::string::*;
use crate::text::{
    owned, str_eq, string_of, chars_of, slice_range, find_char, trim_start_ws, trim_ws,
    trim_matches, ws_trim_start, ws_trim, trim_char, whitespace, is_whitespace, char_index,
    lemma_char_index, concat2,
};
use crate::json::{Json, JsonV, JsonNumber, NumV, obj_set, elems_view, entries_view, strictly_sorted, sort_strings};
use crate::stages::s7_schema_validation::{int_text, i64_to_decimal};
use crate::validated::{ValidatedConfig, ValidatedComponent, FrameworkType, ChipTarget};
use crate::raw::{FrameworkConfig, ProjectConfig, pairs_lookup};
use crate::text::{push_str, push_char, decimal, u64_to_decimal, has_char, strs_view};
use crate::raw::{
    StringMap, pairs_insert, ComponentConfig, ComponentView, comps_view, opt_view, copy_opt,
    RawConfig, EsphomeBlock,
};

verus! {

/// Target serialization format for config export.
#[derive(Debug, Clone, Copy, PartialEq, Eq, Structural)]
pub enum ExportFormat {
    /// Canonical machine-readable format (deterministic key ordering).
    Json,
    /// Human-friendly TOML format.
    Toml,
    /// ESPHome-compatible YAML (for migration / import into ESPHome).
    Yaml,
}

/// Errors that can occur when importing ESPHome YAML.
#[derive(Debug, Clone)]
pub enum ImportError {
    /// The text could not be read as YAML.
    YamlParse(String),
    /// A required field is absent.
    MissingField(String),
    /// The text uses a construct the importer does not handle.
    Unsupported(String),
}

impl ImportError {
    /// The human-readable message of the error.
    pub fn message(&self) -> (r: String)
        ensures
            r@ == match self {
                ImportError::YamlParse(s) => "YAML parse error: "@ + s@,
                ImportError::MissingField(s) => "missing required field: "@ + s@,
                ImportError::Unsupported(s) => "unsupported construct: "@ + s@,
            },
    {
        match self {
            ImportError::YamlParse(s) => concat2("YAML parse error: ", s.as_str()),
            ImportError::MissingField(s) => concat2("missing required field: ", s.as_str()),
            ImportError::Unsupported(s) => concat2("unsupported construct: ", s.as_str()),
        }
    }
}

// ── Lines ─────────────────────────────────────────────────────────────────────

/// A line without one trailing carriage return.
pub open spec fn strip_cr(l: Seq<char>) -> Seq<char> {
    if l.len() > 0 && l.last() == '\r' {
        l.drop_last()
    } else {
        l
    }
}

/// The lines of a text as `str::lines` yields them: split at `\n`, a `\r`
/// right before the `\n` dropped, and no empty line after a final `\n`.
pub open spec fn text_lines(s: Seq<char>) -> Seq<Seq<char>>
    decreases s.len(),
{
    if s.len() == 0 {
        Seq::empty()
    } else {
        let i = char_index(s, '\n');
        proof {
            lemma_char_index(s, '\n');
        }
        if i < s.len() {
            seq![strip_cr(s.subrange(0, i))] + text_lines(s.subrange(i + 1, s.len() as int))
        } else {
            seq![s]
        }
    }
}

/// The views of a list of character vectors.
pub open spec fn lines_view(v: Seq<Vec<char>>) -> Seq<Seq<char>> {
    v.map_values(|l: Vec<char>| l@)
}

/// The lines of `s` (see `text_lines`).
fn split_lines(s: &[char]) -> (r: Vec<Vec<char>>)
    ensures
        lines_view(r@) == text_lines(s@),
{
    let mut out: Vec<Vec<char>> = Vec::new();
    let mut start: usize = 0;
    proof {
        assert(s@.subrange(0, s@.len() as int) =~= s@);
        assert(lines_view(out@) + text_lines(s@) =~= text_lines(s@));
    }
    while start < s.len()
        invariant
            start <= s@.len(),
            lines_view(out@) + text_lines(s@.subrange(start as int, s@.len() as int)) == text_lines(s@),
        decreases s@.len() - start,
    {
        let ghost sub = s@.subrange(start as int, s@.len() as int);
        let ghost before = lines_view(out@);
        let i = find_char(s, '\n', start);
        proof {
            lemma_char_index(sub, '\n');
        }
        if i < s.len() {
            let mut l = slice_range(s, start, i);
            if l.len() > 0 && l[l.len() - 1] == '\r' {
                l.pop();
            }
            proof {
                assert(sub.subrange(0, i - start) =~= s@.subrange(start as int, i as int));
                assert(l@ == strip_cr(sub.subrange(0, i - start)));
                assert(sub.subrange(i - start + 1, sub.len() as int) =~= s@.subrange(i + 1, s@.len() as int));
            }
            let ghost lv = l@;
            out.push(l);
            start = i + 1;
            proof {
                assert(lines_view(out@) =~= before.push(lv));
                assert(lines_view(out@) + text_lines(s@.subrange(start as int, s@.len() as int)) =~= before
                    + text_lines(sub));
            }
        } else {
            let l = slice_range(s, start, s.len());
            out.push(l);
            start = s.len();
            proof {
                assert(lines_view(out@) =~= before.push(sub));
                assert(s@.subrange(start as int, s@.len() as int) =~= Seq::<char>::empty());
                assert(lines_view(out@) + text_lines(s@.subrange(start as int, s@.len() as int)) =~= before
                    + text_lines(sub));
            }
        }
    }
    proof {
        assert(s@.subrange(start as int, s@.len() as int) =~= Seq::<char>::empty());
        assert(lines_view(out@) + Seq::<Seq<char>>::empty() =~= lines_view(out@));
    }
    out
}

// ── Import state machine ──────────────────────────────────────────────────────

/// The importer's state between two lines.
pub struct ImportSt {
    /// `esphome.name` so far.
    pub name: Seq<char>,
    /// Chip platform so far.
    pub platform: Seq<char>,
    /// Board so far.
    pub board: Seq<char>,
    /// `esphome.friendly_name` so far.
    pub friendly_name: Option<Seq<char>>,
    /// Components completed so far.
    pub components: Seq<ComponentView>,
    /// Substitutions so far.
    pub substitutions: Seq<(Seq<char>, Seq<char>)>,
    /// Current top-level section (empty before the first one).
    pub section: Seq<char>,
    /// Platform of the entry being read, if any.
    pub cur_platform: Option<Seq<char>>,
    /// Keys of the entry being read.
    pub cur_config: Seq<(Seq<char>, JsonV)>,
}

/// The state before the first line.
pub open spec fn import_init() -> ImportSt {
    ImportSt {
        name: Seq::empty(),
        platform: "esp32"@,
        board: "esp32dev"@,
        friendly_name: None,
        components: Seq::empty(),
        substitutions: Seq::empty(),
        section: Seq::empty(),
        cur_platform: None,
        cur_config: Seq::empty(),
    }
}

/// The chip sections that set the platform.
pub open spec fn is_chip_section(s: Seq<char>) -> bool {
    s == "esp32"@ || s == "esp32s3"@ || s == "esp32c6"@
}

/// Sections whose keys form one component entry.
pub open spec fn is_simple_section(s: Seq<char>) -> bool {
    s == "wifi"@ || s == "logger"@ || s == "api"@ || s == "ota"@ || s == "mqtt"@ || s == "i2c"@
        || s == "spi"@ || s == "uart"@ || s == "time"@ || s == "deep_sleep"@
}

/// Simple sections that become a component at the end even without a platform.
pub open spec fn is_lone_section(s: Seq<char>) -> bool {
    is_simple_section(s) && s != "time"@
}

/// Sections made of `platform:` entries.
pub open spec fn is_entity_section(s: Seq<char>) -> bool {
    s == "sensor"@ || s == "binary_sensor"@ || s == "switch"@ || s == "light"@ || s == "climate"@
        || s == "text_sensor"@ || s == "fan"@ || s == "cover"@ || s == "number"@ || s == "select"@
}

/// The pending entry appended as a component of type `sec`.
pub open spec fn flush_spec(st: ImportSt, sec: Seq<char>) -> ImportSt {
    ImportSt {
        components: st.components.push(
            ComponentView {
                component_type: sec,
                platform: st.cur_platform,
                config: JsonV::Object(st.cur_config),
            },
        ),
        ..st
    }
}

/// The pending platform entry (if any) completed and the entry reset.
pub open spec fn close_block(st: ImportSt) -> ImportSt {
    if st.section.len() > 0 && st.cur_platform is Some {
        ImportSt { cur_platform: None, cur_config: Seq::empty(), ..flush_spec(st, st.section) }
    } else {
        st
    }
}

/// The key of a list item line (`- key: value`) starts with `-`.
pub open spec fn is_list_item(key: Seq<char>) -> bool {
    key.len() > 0 && key[0] == '-'
}

/// The key of a list item after its dash.
pub open spec fn item_key(key: Seq<char>) -> Seq<char> {
    ws_trim(key.drop_first())
}

/// A new list item begins: the pending platform entry (if any) of the
/// current section is completed and the entry reset.
pub open spec fn close_entry(st: ImportSt) -> ImportSt {
    if st.cur_platform is Some {
        ImportSt { cur_platform: None, cur_config: Seq::empty(), ..flush_spec(st, st.section) }
    } else {
        st
    }
}

/// A section ends: a platform-less entry of a lone section that has keys
/// is completed as a component.
pub open spec fn end_section(st: ImportSt) -> ImportSt {
    if st.section.len() > 0 && st.cur_platform is None && st.cur_config.len() > 0 && is_lone_section(st.section) {
        flush_spec(st, st.section)
    } else {
        st
    }
}

/// The effect of a nested `key: value` line: `- platform: x` list items
/// start a new entry with platform `x`.
pub open spec fn nested_step(st: ImportSt, key: Seq<char>, value: Seq<char>) -> ImportSt {
    let v = trim_char(value, '"');
    let sec = st.section;
    if sec == "esphome"@ {
        if key == "name"@ {
            ImportSt { name: v, ..st }
        } else if key == "friendly_name"@ {
            ImportSt { friendly_name: Some(v), ..st }
        } else {
            st
        }
    } else if sec == "substitutions"@ {
        ImportSt { substitutions: pairs_insert(st.substitutions, key, v), ..st }
    } else if is_chip_section(sec) {
        if key == "board"@ {
            ImportSt { platform: sec, board: v, ..st }
        } else {
            ImportSt { platform: sec, ..st }
        }
    } else if is_simple_section(sec) {
        if key == "platform"@ {
            ImportSt { cur_platform: Some(v), ..st }
        } else if is_list_item(key) {
            let st1 = close_entry(st);
            if item_key(key) == "platform"@ {
                ImportSt { cur_platform: Some(v), ..st1 }
            } else {
                st1
            }
        } else {
            ImportSt { cur_config: obj_set(st.cur_config, key, JsonV::Str(v)), ..st }
        }
    } else if is_entity_section(sec) {
        if key == "platform"@ || (is_list_item(key) && item_key(key) == "platform"@) {
            let st1 = if st.cur_platform is Some {
                ImportSt { cur_config: Seq::empty(), ..flush_spec(st, sec) }
            } else {
                st
            };
            ImportSt { cur_platform: Some(v), ..st1 }
        } else if is_list_item(key) {
            let st1 = close_entry(st);
            if value.len() > 0 {
                ImportSt { cur_config: obj_set(st1.cur_config, item_key(key), JsonV::Str(v)), ..st1 }
            } else {
                st1
            }
        } else if value.len() > 0 {
            ImportSt { cur_config: obj_set(st.cur_config, key, JsonV::Str(v)), ..st }
        } else {
            st
        }
    } else {
        st
    }
}

/// The effect of one line: blank and comment lines close a pending entry; an
/// unindented `name:` line ends the current section (keeping what it read)
/// and opens a new one; an indented line with a `:` is a
/// `key: value` pair of the current section; anything else changes nothing.
pub open spec fn import_step(st: ImportSt, line: Seq<char>) -> ImportSt {
    let stripped = ws_trim_start(line);
    if stripped.len() == 0 || stripped[0] == '#' {
        close_block(st)
    } else if !whitespace(line[0]) {
        let st1 = close_block(st);
        if stripped.last() == ':' {
            let st2 = end_section(st1);
            ImportSt { section: ws_trim(stripped.drop_last()), cur_platform: None, cur_config: Seq::empty(), ..st2 }
        } else {
            st1
        }
    } else {
        let pos = char_index(stripped, ':');
        if pos < stripped.len() {
            nested_step(
                st,
                ws_trim(stripped.subrange(0, pos)),
                ws_trim(stripped.subrange(pos + 1, stripped.len() as int)),
            )
        } else {
            st
        }
    }
}

/// The state after the given lines.
pub open spec fn import_fold(lines: Seq<Seq<char>>) -> ImportSt
    decreases lines.len(),
{
    if lines.len() == 0 {
        import_init()
    } else {
        import_step(import_fold(lines.drop_last()), lines.last())
    }
}

/// The state after the end of the text: a pending entry is completed; so is
/// a platform-less entry of a lone section that has keys.
pub open spec fn import_finish(st: ImportSt) -> ImportSt {
    if st.section.len() > 0 && (st.cur_platform is Some || (st.cur_config.len() > 0 && is_lone_section(
        st.section,
    ))) {
        flush_spec(st, st.section)
    } else {
        st
    }
}

/// The final state for a text.
pub open spec fn import_result(yaml: Seq<char>) -> ImportSt {
    import_finish(import_fold(text_lines(yaml)))
}

/// `c` is the config the importer builds from the final state `f`.
pub open spec fn imported_as(c: RawConfig, f: ImportSt) -> bool {
    &&& c.esphome.name@ == f.name
    &&& c.esphome.platform@ == f.platform
    &&& c.esphome.board@ == f.board
    &&& opt_view(c.esphome.friendly_name) == f.friendly_name
    &&& c.esphome.framework is None
    &&& c.esphome.includes@.len() == 0
    &&& c.esphome.libraries@.len() == 0
    &&& c.esphome.project is None
    &&& c.esphome.area is None
    &&& c.esphome.min_version is None
    &&& c.esphome.profile is None
    &&& c.esphome.solution is None
    &&& c.esphome.solution_variant is None
    &&& c.packages@.len() == 0
    &&& c.substitutions@ == f.substitutions
    &&& comps_view(c.components@) == f.components
}

/// The importer's working state.
struct ImportState {
    name: String,
    platform: String,
    board: String,
    friendly_name: Option<String>,
    components: Vec<ComponentConfig>,
    substitutions: StringMap,
    section: String,
    cur_platform: Option<String>,
    cur_config: Json,
}

impl ImportState {
    spec fn wf(&self) -> bool {
        self.cur_config@ is Object
    }

    spec fn st(&self) -> ImportSt {
        ImportSt {
            name: self.name@,
            platform: self.platform@,
            board: self.board@,
            friendly_name: opt_view(self.friendly_name),
            components: comps_view(self.components@),
            substitutions: self.substitutions@,
            section: self.section@,
            cur_platform: opt_view(self.cur_platform),
            cur_config: self.cur_config@->Object_0,
        }
    }
}

/// Push a completed component entry into the components list.
fn flush_component(section: &str, platform: &Option<String>, config: &Json, components: &mut Vec<ComponentConfig>)
    ensures
        comps_view(final(components)@) == comps_view(old(components)@).push(
            ComponentView { component_type: section@, platform: opt_view(*platform), config: config@ },
        ),
{
    let c = ComponentConfig { component_type: owned(section), platform: copy_opt(platform), config: config.copy() };
    let ghost before = comps_view(components@);
    components.push(c);
    proof {
        assert(comps_view(components@) =~= before.push(c@));
    }
}

/// Complete the pending platform entry, if there is one.
fn close_block_exec(st: &mut ImportState)
    requires
        old(st).wf(),
    ensures
        final(st).wf(),
        final(st).st() == close_block(old(st).st()),
{
    if st.section.as_str().unicode_len() > 0 && st.cur_platform.is_some() {
        flush_component(st.section.as_str(), &st.cur_platform, &st.cur_config, &mut st.components);
        st.cur_platform = None;
        st.cur_config = Json::empty_object();
    }
}

fn is_chip_section_exec(s: &str) -> (r: bool)
    ensures
        r == is_chip_section(s@),
{
    str_eq(s, "esp32") || str_eq(s, "esp32s3") || str_eq(s, "esp32c6")
}

fn is_simple_section_exec(s: &str) -> (r: bool)
    ensures
        r == is_simple_section(s@),
{
    str_eq(s, "wifi") || str_eq(s, "logger") || str_eq(s, "api") || str_eq(s, "ota") || str_eq(s, "mqtt")
        || str_eq(s, "i2c") || str_eq(s, "spi") || str_eq(s, "uart") || str_eq(s, "time") || str_eq(
        s,
        "deep_sleep",
    )
}

fn is_entity_section_exec(s: &str) -> (r: bool)
    ensures
        r == is_entity_section(s@),
{
    str_eq(s, "sensor") || str_eq(s, "binary_sensor") || str_eq(s, "switch") || str_eq(s, "light")
        || str_eq(s, "climate") || str_eq(s, "text_sensor") || str_eq(s, "fan") || str_eq(s, "cover")
        || str_eq(s, "number") || str_eq(s, "select")
}

/// Apply a nested `key: value` line.
fn nested_step_exec(st: &mut ImportState, key: &[char], value: &[char])
    requires
        old(st).wf(),
    ensures
        final(st).wf(),
        final(st).st() == nested_step(old(st).st(), key@, value@),
{
    let v = string_of(&trim_matches(value, '"'));
    let k = string_of(key);
    let sec = st.section.clone();
    if str_eq(sec.as_str(), "esphome") {
        if str_eq(k.as_str(), "name") {
            st.name = v;
        } else if str_eq(k.as_str(), "friendly_name") {
            st.friendly_name = Some(v);
        }
    } else if str_eq(sec.as_str(), "substitutions") {
        st.substitutions.insert(k.as_str(), v.as_str());
    } else if is_chip_section_exec(sec.as_str()) {
        st.platform = sec;
        if str_eq(k.as_str(), "board") {
            st.board = v;
        }
    } else if is_simple_section_exec(sec.as_str()) {
        if str_eq(k.as_str(), "platform") {
            st.cur_platform = Some(v);
        } else if key.len() > 0 && key[0] == '-' {
            let ik = item_key_exec(key);
            close_entry_exec(st);
            if str_eq(ik.as_str(), "platform") {
                st.cur_platform = Some(v);
            }
        } else {
            st.cur_config = st.cur_config.with_member(k.as_str(), Json::Str(v));
        }
    } else if is_entity_section_exec(sec.as_str()) {
        let item = key.len() > 0 && key[0] == '-';
        let ik = if item {
            item_key_exec(key)
        } else {
            String::new()
        };
        if str_eq(k.as_str(), "platform") || (item && str_eq(ik.as_str(), "platform")) {
            if st.cur_platform.is_some() {
                flush_component(sec.as_str(), &st.cur_platform, &st.cur_config, &mut st.components);
                st.cur_config = Json::empty_object();
            }
            st.cur_platform = Some(v);
        } else if item {
            close_entry_exec(st);
            if value.len() > 0 {
                st.cur_config = st.cur_config.with_member(ik.as_str(), Json::Str(v));
            }
        } else if value.len() > 0 {
            st.cur_config = st.cur_config.with_member(k.as_str(), Json::Str(v));
        }
    }
}

fn item_key_exec(key: &[char]) -> (r: String)
    requires
        key@.len() > 0,
    ensures
        r@ == item_key(key@),
{
    let rest = slice_range(key, 1, key.len());
    proof {
        assert(rest@ =~= key@.drop_first());
    }
    string_of(&trim_ws(&rest))
}

/// Complete the pending platform entry of the current section, if any.
fn close_entry_exec(st: &mut ImportState)
    requires
        old(st).wf(),
    ensures
        final(st).wf(),
        final(st).st() == close_entry(old(st).st()),
{
    if st.cur_platform.is_some() {
        flush_component(st.section.as_str(), &st.cur_platform, &st.cur_config, &mut st.components);
        st.cur_platform = None;
        st.cur_config = Json::empty_object();
    }
}

/// Complete a platform-less entry of a lone section that has keys.
fn end_section_exec(st: &mut ImportState)
    requires
        old(st).wf(),
    ensures
        final(st).wf(),
        final(st).st() == end_section(old(st).st()),
{
    if st.section.as_str().unicode_len() > 0 && st.cur_platform.is_none() && json_has_members(&st.cur_config)
        && is_simple_section_exec(st.section.as_str()) && !str_eq(st.section.as_str(), "time") {
        flush_component(st.section.as_str(), &st.cur_platform, &st.cur_config, &mut st.components);
    }
}

/// Apply one line.
fn import_step_exec(st: &mut ImportState, line: &[char])
    requires
        old(st).wf(),
    ensures
        final(st).wf(),
        final(st).st() == import_step(old(st).st(), line@),
{
    let stripped = trim_start_ws(line);
    if stripped.len() == 0 || stripped[0] == '#' {
        close_block_exec(st);
    } else if !is_whitespace(line[0]) {
        close_block_exec(st);
        if stripped[stripped.len() - 1] == ':' {
            end_section_exec(st);
            let head = slice_range(&stripped, 0, stripped.len() - 1);
            proof {
                assert(head@ =~= stripped@.drop_last());
            }
            st.section = string_of(&trim_ws(&head));
            st.cur_platform = None;
            st.cur_config = Json::empty_object();
        }
    } else {
        let pos = find_char(&stripped, ':', 0);
        proof {
            assert(stripped@.subrange(0, stripped@.len() as int) =~= stripped@);
        }
        if pos < stripped.len() {
            let key = trim_ws(&slice_range(&stripped, 0, pos));
            let value = trim_ws(&slice_range(&stripped, pos + 1, stripped.len()));
            nested_step_exec(st, &key, &value);
        }
    }
}

fn json_has_members(j: &Json) -> (r: bool)
    requires
        j@ is Object,
    ensures
        r == (j@->Object_0.len() > 0),
{
    match j {
        Json::Object(m) => {
            proof {
                assert(j@ == JsonV::Object(crate::json::entries_view(m@)));
                assert(crate::json::entries_view(m@).len() == m@.len());
            }
            m.len() > 0
        },
        _ => false,
    }
}

/// Simple line-based ESPHome YAML parser for common patterns.
fn parse_esphome_yaml_lines(yaml: &str) -> (r: Result<RawConfig, ImportError>)
    ensures
        r.is_err() <==> import_result(yaml@).name.len() == 0,
        match r {
            Ok(c) => imported_as(c, import_result(yaml@)),
            Err(e) => e matches ImportError::MissingField(f) && f@ == "esphome.name"@,
        },
{
    let lines = split_lines(&chars_of(yaml));
    let ghost ls = text_lines(yaml@);
    let mut st = ImportState {
        name: String::new(),
        platform: owned("esp32"),
        board: owned("esp32dev"),
        friendly_name: None,
        components: Vec::new(),
        substitutions: StringMap::new(),
        section: String::new(),
        cur_platform: None,
        cur_config: Json::empty_object(),
    };
    proof {
        assert(comps_view(st.components@) =~= Seq::<ComponentView>::empty());
        assert(st.st() == import_init());
        assert(ls.subrange(0, 0) =~= Seq::<Seq<char>>::empty());
    }
    let mut i: usize = 0;
    while i < lines.len()
        invariant
            i <= lines@.len(),
            lines_view(lines@) == ls,
            st.wf(),
            st.st() == import_fold(ls.subrange(0, i as int)),
        decreases lines@.len() - i,
    {
        import_step_exec(&mut st, &lines[i]);
        proof {
            assert(ls.subrange(0, i + 1).drop_last() =~= ls.subrange(0, i as int));
            assert(ls.subrange(0, i + 1).last() == lines@[i as int]@);
        }
        i = i + 1;
    }
    proof {
        assert(ls.subrange(0, i as int) =~= ls);
    }
    if st.section.as_str().unicode_len() > 0 {
        if st.cur_platform.is_some() {
            flush_component(st.section.as_str(), &st.cur_platform, &st.cur_config, &mut st.components);
        } else if json_has_members(&st.cur_config) && is_simple_section_exec(st.section.as_str())
            && !str_eq(st.section.as_str(), "time") {
            flush_component(st.section.as_str(), &st.cur_platform, &st.cur_config, &mut st.components);
        }
    }
    if st.name.as_str().unicode_len() == 0 {
        return Err(ImportError::MissingField(owned("esphome.name")));
    }
    Ok(
        RawConfig {
            esphome: EsphomeBlock {
                name: st.name,
                platform: st.platform,
                board: st.board,
                friendly_name: st.friendly_name,
                framework: None,
                includes: Vec::new(),
                libraries: Vec::new(),
                project: None,
                area: None,
                min_version: None,
                profile: None,
                solution: None,
                solution_variant: None,
            },
            packages: Vec::new(),
            substitutions: st.substitutions,
            components: st.components,
        },
    )
}

/// Import a subset of ESPHome YAML and convert it to a `RawConfig`.
///
/// Reads the `esphome:` block (name, friendly_name), the chip block
/// (`esp32:` / `esp32s3:` / `esp32c6:`, board), `substitutions:`, the
/// simple sections (`wifi`, `logger`, `api`, `ota`, `mqtt`, `i2c`, `spi`,
/// `uart`, `time`, `deep_sleep`) and the platform-entry sections (`sensor`,
/// `binary_sensor`, `switch`, `light`, `climate`, `text_sensor`, `fan`,
/// `cover`, `number`, `select`). Fails with `MissingField("esphome.name")`
/// when no device name was found.
pub fn import_esphome_yaml(yaml: &str) -> (r: Result<RawConfig, ImportError>)
    ensures
        r.is_err() <==> import_result(yaml@).name.len() == 0,
        match r {
            Ok(c) => imported_as(c, import_result(yaml@)),
            Err(e) => e matches ImportError::MissingField(f) && f@ == "esphome.name"@,
        },
{
    parse_esphome_yaml_lines(yaml)
}

// ── Export ────────────────────────────────────────────────────────────────────

/// The text of a JSON number as JSON writes it.
pub open spec fn number_json_text(n: NumV) -> Seq<char> {
    match n {
        NumV::PosInt(k) => decimal(k),
        NumV::NegInt(k) => int_text(k),
        NumV::Float(_, _, t, _) => t,
    }
}

pub fn number_json_text_exec(n: &JsonNumber) -> (r: String)
    ensures
        r@ == number_json_text(n@),
{
    match n {
        JsonNumber::PosInt(k) => u64_to_decimal(*k),
        JsonNumber::NegInt(k) => i64_to_decimal(*k),
        JsonNumber::Float(f) => f.text.clone(),
    }
}

/// A value as a single-line YAML scalar: strings quoted when they hold `:`
/// or `#` or are empty, numbers as JSON writes them, `~` for null, arrays
/// in flow style, and `{...}` for objects.
pub open spec fn yaml_scalar_spec(v: JsonV) -> Seq<char>
    decreases v, 0int,
{
    match v {
        JsonV::Str(s) => if s.contains(':') || s.contains('#') || s.len() == 0 {
            "\""@ + s + "\""@
        } else {
            s
        },
        JsonV::Number(n) => number_json_text(n),
        JsonV::Bool(b) => if b {
            "true"@
        } else {
            "false"@
        },
        JsonV::Null => "~"@,
        JsonV::Array(items) => "["@ + scalars_joined(items, items.len() as int) + "]"@,
        JsonV::Object(_) => "{...}"@,
    }
}

/// A string scalar that YAML would misread plainly (it holds `:` or the
/// comment mark `#`, or is empty) is written wrapped in double quotes; any
/// other string is written as it is.
pub proof fn lemma_yaml_scalar_quoting(s: Seq<char>)
    ensures
        (s.contains(':') || s.contains('#') || s.len() == 0) ==> yaml_scalar_spec(JsonV::Str(s)) == "\""@ + s + "\""@,
        !(s.contains(':') || s.contains('#') || s.len() == 0) ==> yaml_scalar_spec(JsonV::Str(s)) == s,
{
}

/// A written string scalar never shows a `#` outside quotes: when the text
/// holds `#`, it is the string wrapped in double quotes.
pub proof fn lemma_yaml_scalar_comment_safe(s: Seq<char>)
    ensures
        yaml_scalar_spec(JsonV::Str(s)).contains('#') ==> yaml_scalar_spec(JsonV::Str(s)) == "\""@ + s + "\""@,
{
}

/// The scalars of the first `n` items, separated by `, `.
pub open spec fn scalars_joined(items: Seq<JsonV>, n: int) -> Seq<char>
    decreases items, n,
{
    if n <= 0 || n > items.len() {
        Seq::empty()
    } else if n == 1 {
        yaml_scalar_spec(items[0])
    } else {
        scalars_joined(items, n - 1) + ", "@ + yaml_scalar_spec(items[n - 1])
    }
}

/// Convert a JSON value to a YAML scalar string (single-line only).
pub fn yaml_scalar(v: &Json) -> (r: String)
    ensures
        r@ == yaml_scalar_spec(v@),
    decreases v,
{
    match v {
        Json::Str(s) => {
            let cs = chars_of(s.as_str());
            if has_char(&cs, ':') || has_char(&cs, '#') || cs.len() == 0 {
                let mut out = owned("\"");
                push_str(&mut out, s.as_str());
                push_str(&mut out, "\"");
                out
            } else {
                s.clone()
            }
        },
        Json::Number(n) => number_json_text_exec(n),
        Json::Bool(b) => if *b {
            owned("true")
        } else {
            owned("false")
        },
        Json::Null => owned("~"),
        Json::Array(items) => {
            let ghost iv = elems_view(items@);
            let mut out = owned("[");
            let mut i: usize = 0;
            while i < items.len()
                invariant
                    *v == Json::Array(*items),
                    iv == elems_view(items@),
                    i <= items@.len(),
                    out@ == "["@ + scalars_joined(iv, i as int),
                decreases items@.len() - i,
            {
                proof {
                    broadcast use vstd::std_specs::vec::axiom_vec_index_decreases;
                    assert(decreases_to!(*v => (*v)->Array_0));
                    assert(decreases_to!(*items => items[i as int]));
                    assert(decreases_to!(*v => items[i as int]));
                }
                if i > 0 {
                    push_str(&mut out, ", ");
                }
                let t = yaml_scalar(&items[i]);
                push_str(&mut out, t.as_str());
                proof {
                    assert(iv[i as int] == items@[i as int]@);
                    if i == 0 {
                        assert(scalars_joined(iv, 0) =~= Seq::<char>::empty());
                        assert(out@ =~= "["@ + scalars_joined(iv, 1));
                    } else {
                        assert(out@ =~= "["@ + scalars_joined(iv, i + 1));
                    }
                }
                i = i + 1;
            }
            push_str(&mut out, "]");
            proof {
                assert(iv.len() == items@.len());
                assert(v@ == JsonV::Array(iv));
            }
            out
        },
        Json::Object(_) => owned("{...}"),
    }
}

/// The chip target as the lower-case platform name.
pub open spec fn chip_platform_name(t: ChipTarget) -> Seq<char> {
    match t {
        ChipTarget::Esp32 => "esp32"@,
        ChipTarget::Esp32S2 => "esp32s2"@,
        ChipTarget::Esp32S3 => "esp32s3"@,
        ChipTarget::Esp32C3 => "esp32c3"@,
        ChipTarget::Esp32C5 => "esp32c5"@,
        ChipTarget::Esp32C6 => "esp32c6"@,
        ChipTarget::Esp32H2 => "esp32h2"@,
        ChipTarget::Esp32P4 => "esp32p4"@,
    }
}

fn chip_platform_name_exec(t: ChipTarget) -> (r: &'static str)
    ensures
        r@ == chip_platform_name(t),
{
    match t {
        ChipTarget::Esp32 => "esp32",
        ChipTarget::Esp32S2 => "esp32s2",
        ChipTarget::Esp32S3 => "esp32s3",
        ChipTarget::Esp32C3 => "esp32c3",
        ChipTarget::Esp32C5 => "esp32c5",
        ChipTarget::Esp32C6 => "esp32c6",
        ChipTarget::Esp32H2 => "esp32h2",
        ChipTarget::Esp32P4 => "esp32p4",
    }
}

/// The declared (not auto-loaded) components among the first `n`, as
/// component entries: the component id as type, the platform type as
/// platform, and the config.
pub open spec fn declared_components(cs: Seq<ValidatedComponent>, n: int) -> Seq<ComponentView>
    decreases n,
{
    if n <= 0 || n > cs.len() {
        Seq::empty()
    } else if cs[n - 1].auto_loaded {
        declared_components(cs, n - 1)
    } else {
        declared_components(cs, n - 1).push(
            ComponentView {
                component_type: cs[n - 1].component_id@,
                platform: opt_view(cs[n - 1].platform_type),
                config: cs[n - 1].config@,
            },
        )
    }
}

/// Convert a validated config back into a canonical raw config for export:
/// name, board, friendly name and project carried over, the chip as the
/// platform, the framework as `esp-idf` or `arduino` with nothing else set,
/// and only the user-declared (not auto-loaded) components.
pub fn validated_to_raw(config: &ValidatedConfig) -> (r: RawConfig)
    ensures
        r.esphome.name@ == config.esphome.name@,
        r.esphome.platform@ == chip_platform_name(config.esphome.chip_target),
        r.esphome.board@ == config.esphome.board@,
        opt_view(r.esphome.friendly_name) == opt_view(config.esphome.friendly_name),
        r.esphome.framework is Some,
        r.esphome.framework->Some_0.framework_type@ == match config.esphome.framework_type {
            FrameworkType::EspIdf => "esp-idf"@,
            FrameworkType::Arduino => "arduino"@,
        },
        r.esphome.framework->Some_0.version is None,
        r.esphome.framework->Some_0.components@.len() == 0,
        r.esphome.framework->Some_0.sdkconfig_options@.len() == 0,
        r.esphome.includes@.len() == 0,
        r.esphome.libraries@.len() == 0,
        match config.esphome.project {
            Some(p) => r.esphome.project is Some && r.esphome.project->Some_0.name@ == p.name@
                && r.esphome.project->Some_0.version@ == p.version@,
            None => r.esphome.project is None,
        },
        r.esphome.area is None,
        r.esphome.min_version is None,
        r.esphome.profile is None,
        r.esphome.solution is None,
        r.esphome.solution_variant is None,
        r.packages@.len() == 0,
        r.substitutions@.len() == 0,
        comps_view(r.components@) == declared_components(config.components@, config.components@.len() as int),
{
    let mut components: Vec<ComponentConfig> = Vec::new();
    let mut i: usize = 0;
    while i < config.components.len()
        invariant
            i <= config.components@.len(),
            comps_view(components@) == declared_components(config.components@, i as int),
        decreases config.components@.len() - i,
    {
        let c = &config.components[i];
        if !c.auto_loaded {
            let ghost before = comps_view(components@);
            let cc = ComponentConfig {
                component_type: c.component_id.clone(),
                platform: copy_opt(&c.platform_type),
                config: c.config.copy(),
            };
            components.push(cc);
            proof {
                assert(comps_view(components@) =~= before.push(cc@));
            }
        }
        i = i + 1;
    }
    let framework_type = match config.esphome.framework_type {
        FrameworkType::EspIdf => owned("esp-idf"),
        FrameworkType::Arduino => owned("arduino"),
    };
    let project = match &config.esphome.project {
        Some(p) => Some(ProjectConfig { name: p.name.clone(), version: p.version.clone() }),
        None => None,
    };
    RawConfig {
        esphome: EsphomeBlock {
            name: config.esphome.name.clone(),
            platform: owned(chip_platform_name_exec(config.esphome.chip_target)),
            board: config.esphome.board.clone(),
            friendly_name: copy_opt(&config.esphome.friendly_name),
            framework: Some(
                FrameworkConfig {
                    framework_type,
                    version: None,
                    components: Vec::new(),
                    sdkconfig_options: StringMap::new(),
                },
            ),
            includes: Vec::new(),
            libraries: Vec::new(),
            project,
            area: None,
            min_version: None,
            profile: None,
            solution: None,
            solution_variant: None,
        },
        packages: Vec::new(),
        substitutions: StringMap::new(),
        components,
    }
}

/// The `esphome:` block and the chip block of the YAML export.
pub open spec fn yaml_head(c: RawConfig) -> Seq<char> {
    let e = c.esphome;
    "esphome:\n"@ + "  name: "@ + e.name@ + "\n"@ + match e.friendly_name {
        Some(f) => "  friendly_name: "@ + f@ + "\n"@,
        None => Seq::empty(),
    } + "\n"@ + e.platform@ + ":\n"@ + "  board: "@ + e.board@ + "\n"@ + match e.framework {
        Some(fw) => "  framework:\n"@ + "    type: "@ + fw.framework_type@ + "\n"@ + match fw.version {
            Some(v) => "    version: "@ + v@ + "\n"@,
            None => Seq::empty(),
        },
        None => Seq::empty(),
    } + "\n"@
}

/// `ks` lists the keys of `subs`, each once, in ascending order.
pub open spec fn sorted_keys_of(ks: Seq<Seq<char>>, subs: Seq<(Seq<char>, Seq<char>)>) -> bool {
    &&& strictly_sorted(ks)
    &&& forall|k: Seq<char>| ks.contains(k) <==> exists|i: int| 0 <= i < subs.len() && #[trigger] subs[i].0 == k
}

/// The substitution lines for the first `n` keys.
pub open spec fn subs_lines(ks: Seq<Seq<char>>, subs: Seq<(Seq<char>, Seq<char>)>, n: int) -> Seq<char>
    decreases n,
{
    if n <= 0 || n > ks.len() {
        Seq::empty()
    } else {
        subs_lines(ks, subs, n - 1) + "  "@ + ks[n - 1] + ": "@ + pairs_lookup(subs, ks[n - 1])->Some_0 + "\n"@
    }
}

/// The `substitutions:` block (nothing when there are none).
pub open spec fn subs_block(ks: Seq<Seq<char>>, subs: Seq<(Seq<char>, Seq<char>)>) -> Seq<char> {
    if subs.len() == 0 {
        Seq::empty()
    } else {
        "substitutions:\n"@ + subs_lines(ks, subs, ks.len() as int) + "\n"@
    }
}

/// The config lines of the first `n` entries of an object.
pub open spec fn config_lines(m: Seq<(Seq<char>, JsonV)>, n: int) -> Seq<char>
    decreases n,
{
    if n <= 0 || n > m.len() {
        Seq::empty()
    } else {
        config_lines(m, n - 1) + "    "@ + m[n - 1].0 + ": "@ + yaml_scalar_spec(m[n - 1].1) + "\n"@
    }
}

/// One component instance: its platform line, then its config lines.
pub open spec fn instance_text(c: ComponentView) -> Seq<char> {
    let platform_line = match c.platform {
        Some(p) => "  - platform: "@ + p + "\n"@,
        None => Seq::empty(),
    };
    let lines = match c.config {
        JsonV::Object(m) => config_lines(m, m.len() as int),
        _ => Seq::empty(),
    };
    platform_line + lines
}

/// The instances among the first `n` components whose type is `t`, in order.
pub open spec fn group_body(cs: Seq<ComponentView>, t: Seq<char>, n: int) -> Seq<char>
    decreases n,
{
    if n <= 0 || n > cs.len() {
        Seq::empty()
    } else if cs[n - 1].component_type == t {
        group_body(cs, t, n - 1) + instance_text(cs[n - 1])
    } else {
        group_body(cs, t, n - 1)
    }
}

/// `ts` lists the component types, each once, in ascending order.
pub open spec fn sorted_types_of(ts: Seq<Seq<char>>, cs: Seq<ComponentView>) -> bool {
    &&& strictly_sorted(ts)
    &&& forall|t: Seq<char>| ts.contains(t) <==> exists|i: int| 0 <= i < cs.len() && #[trigger] cs[i].component_type == t
}

/// The blocks of the first `n` types: the type's header, its instances and a blank line.
pub open spec fn groups_text(ts: Seq<Seq<char>>, cs: Seq<ComponentView>, n: int) -> Seq<char>
    decreases n,
{
    if n <= 0 || n > ts.len() {
        Seq::empty()
    } else {
        groups_text(ts, cs, n - 1) + ts[n - 1] + ":\n"@ + group_body(cs, ts[n - 1], cs.len() as int) + "\n"@
    }
}

/// The YAML export of a config for given key and type orders.
pub open spec fn yaml_export_spec(c: RawConfig, ks: Seq<Seq<char>>, ts: Seq<Seq<char>>) -> Seq<char> {
    let cs = comps_view(c.components@);
    yaml_head(c) + subs_block(ks, c.substitutions@) + groups_text(ts, cs, ts.len() as int)
}

fn config_lines_exec(out: &mut String, j: &Json)
    ensures
        final(out)@ == old(out)@ + match j@ {
            JsonV::Object(m) => config_lines(m, m.len() as int),
            _ => Seq::empty(),
        },
{
    match j {
        Json::Object(m) => {
            let ghost mv = entries_view(m@);
            let ghost start = out@;
            let mut i: usize = 0;
            while i < m.len()
                invariant
                    i <= m@.len(),
                    mv == entries_view(m@),
                    out@ == start + config_lines(mv, i as int),
                decreases m@.len() - i,
            {
                push_str(out, "    ");
                push_str(out, m[i].0.as_str());
                push_str(out, ": ");
                let t = yaml_scalar(&m[i].1);
                push_str(out, t.as_str());
                push_str(out, "\n");
                proof {
                    assert(mv[i as int] == (m@[i as int].0@, m@[i as int].1@));
                    assert(out@ =~= start + config_lines(mv, i + 1));
                }
                i = i + 1;
            }
            proof {
                assert(j@ == JsonV::Object(mv));
            }
        },
        _ => {
            proof {
                assert(out@ =~= old(out)@ + Seq::<char>::empty());
            }
        },
    }
}

fn substitution_keys(subs: &StringMap) -> (r: Vec<String>)
    ensures
        sorted_keys_of(strs_view(r@), subs@),
{
    let mut keys: Vec<String> = Vec::new();
    let mut i: usize = 0;
    while i < subs.entries.len()
        invariant
            i <= subs.entries@.len(),
            keys@.len() == i,
            forall|j: int| 0 <= j < i ==> #[trigger] strs_view(keys@)[j] == subs@[j].0,
        decreases subs.entries@.len() - i,
    {
        let ghost before = strs_view(keys@);
        keys.push(subs.entries[i].0.clone());
        proof {
            assert(strs_view(keys@) =~= before.push(subs@[i as int].0));
        }
        i = i + 1;
    }
    let ghost kv = strs_view(keys@);
    proof {
        assert forall|k: Seq<char>| kv.contains(k) <==> exists|j: int| 0 <= j < subs@.len() && #[trigger] subs@[j].0 == k by {
            if kv.contains(k) {
                let j = choose|j: int| 0 <= j < kv.len() && kv[j] == k;
                assert(subs@[j].0 == k);
            }
            if exists|j: int| 0 <= j < subs@.len() && #[trigger] subs@[j].0 == k {
                let j = choose|j: int| 0 <= j < subs@.len() && #[trigger] subs@[j].0 == k;
                assert(kv[j] == k);
            }
        }
    }
    sort_strings(keys)
}

fn component_types(cs: &Vec<ComponentConfig>) -> (r: Vec<String>)
    ensures
        sorted_types_of(strs_view(r@), comps_view(cs@)),
{
    let ghost cv = comps_view(cs@);
    let mut ts: Vec<String> = Vec::new();
    let mut i: usize = 0;
    while i < cs.len()
        invariant
            i <= cs@.len(),
            cv == comps_view(cs@),
            ts@.len() == i,
            forall|j: int| 0 <= j < i ==> #[trigger] strs_view(ts@)[j] == cv[j].component_type,
        decreases cs@.len() - i,
    {
        let ghost before = strs_view(ts@);
        ts.push(cs[i].component_type.clone());
        proof {
            assert(strs_view(ts@) =~= before.push(cv[i as int].component_type));
        }
        i = i + 1;
    }
    let ghost tv = strs_view(ts@);
    proof {
        assert forall|t: Seq<char>| tv.contains(t) <==> exists|j: int| 0 <= j < cv.len() && #[trigger] cv[j].component_type == t by {
            if tv.contains(t) {
                let j = choose|j: int| 0 <= j < tv.len() && tv[j] == t;
                assert(cv[j].component_type == t);
            }
            if exists|j: int| 0 <= j < cv.len() && #[trigger] cv[j].component_type == t {
                let j = choose|j: int| 0 <= j < cv.len() && #[trigger] cv[j].component_type == t;
                assert(tv[j] == t);
            }
        }
    }
    sort_strings(ts)
}

/// The `esphome:` block and the chip block, each followed by a blank line.
fn export_head(config: &RawConfig) -> (out: String)
    ensures
        out@ == yaml_head(*config),
{
    let e = &config.esphome;
    let mut out = owned("esphome:\n");
    push_str(&mut out, "  name: ");
    push_str(&mut out, e.name.as_str());
    push_str(&mut out, "\n");
    match &e.friendly_name {
        Some(f) => {
            push_str(&mut out, "  friendly_name: ");
            push_str(&mut out, f.as_str());
            push_str(&mut out, "\n");
        },
        None => {},
    }
    push_str(&mut out, "\n");
    push_str(&mut out, e.platform.as_str());
    push_str(&mut out, ":\n");
    push_str(&mut out, "  board: ");
    push_str(&mut out, e.board.as_str());
    push_str(&mut out, "\n");
    match &e.framework {
        Some(fw) => {
            push_str(&mut out, "  framework:\n");
            push_str(&mut out, "    type: ");
            push_str(&mut out, fw.framework_type.as_str());
            push_str(&mut out, "\n");
            match &fw.version {
                Some(v) => {
                    push_str(&mut out, "    version: ");
                    push_str(&mut out, v.as_str());
                    push_str(&mut out, "\n");
                },
                None => {},
            }
        },
        None => {},
    }
    push_str(&mut out, "\n");
    proof {
        assert(out@ =~= yaml_head(*config));
    }
    out
}

/// Serialize to YAML with a small emitter: the `esphome:` block, the chip
/// block, the substitutions in key order, then the components grouped by
/// type in type order, each group in config order.
pub fn export_yaml(config: &RawConfig) -> (r: String)
    ensures
        exists|ks: Seq<Seq<char>>, ts: Seq<Seq<char>>|
            sorted_keys_of(ks, config.substitutions@) && sorted_types_of(ts, comps_view(config.components@))
                && r@ == yaml_export_spec(*config, ks, ts),
{
    let mut out = export_head(config);
    let ghost head = out@;
    let keys = substitution_keys(&config.substitutions);
    let ghost kv = strs_view(keys@);
    let ghost subs = config.substitutions@;
    if config.substitutions.len() > 0 {
        push_str(&mut out, "substitutions:\n");
        let ghost start = out@;
        let mut i: usize = 0;
        while i < keys.len()
            invariant
                i <= keys@.len(),
                kv == strs_view(keys@),
                subs == config.substitutions@,
                sorted_keys_of(kv, subs),
                out@ == start + subs_lines(kv, subs, i as int),
            decreases keys@.len() - i,
        {
            let k = keys[i].as_str();
            proof {
                assert(kv.contains(kv[i as int]));
                let j = choose|j: int| 0 <= j < subs.len() && #[trigger] subs[j].0 == kv[i as int];
                crate::raw::lemma_pairs_index(subs, kv[i as int]);
                if crate::raw::pairs_index(subs, kv[i as int]) == subs.len() {
                    assert(subs[j].0 != kv[i as int]);
                }
            }
            match config.substitutions.get(k) {
                Some(v) => {
                    push_str(&mut out, "  ");
                    push_str(&mut out, k);
                    push_str(&mut out, ": ");
                    push_str(&mut out, v.as_str());
                    push_str(&mut out, "\n");
                },
                None => {},
            }
            proof {
                assert(out@ =~= start + subs_lines(kv, subs, i + 1));
            }
            i = i + 1;
        }
        push_str(&mut out, "\n");
        proof {
            assert(out@ =~= head + subs_block(kv, subs));
        }
    } else {
        proof {
            assert(out@ =~= head + subs_block(kv, subs));
        }
    }
    let ghost mid = out@;
    let types = component_types(&config.components);
    let ghost tv = strs_view(types@);
    let ghost cs = comps_view(config.components@);
    let mut g: usize = 0;
    while g < types.len()
        invariant
            g <= types@.len(),
            tv == strs_view(types@),
            cs == comps_view(config.components@),
            out@ == mid + groups_text(tv, cs, g as int),
        decreases types@.len() - g,
    {
        let t = types[g].as_str();
        push_str(&mut out, t);
        push_str(&mut out, ":\n");
        let ghost gstart = out@;
        let mut j: usize = 0;
        while j < config.components.len()
            invariant
                j <= config.components@.len(),
                cs == comps_view(config.components@),
                out@ == gstart + group_body(cs, t@, j as int),
            decreases config.components@.len() - j,
        {
            let c = &config.components[j];
            if str_eq(c.component_type.as_str(), t) {
                let ghost before = out@;
                match &c.platform {
                    Some(p) => {
                        push_str(&mut out, "  - platform: ");
                        push_str(&mut out, p.as_str());
                        push_str(&mut out, "\n");
                    },
                    None => {},
                }
                config_lines_exec(&mut out, &c.config);
                proof {
                    assert(c@ == cs[j as int]);
                    assert(out@ =~= before + instance_text(cs[j as int]));
                }
            }
            j = j + 1;
        }
        push_str(&mut out, "\n");
        proof {
            assert(out@ =~= mid + groups_text(tv, cs, g + 1));
        }
        g = g + 1;
    }
    proof {
        assert(out@ =~= yaml_export_spec(*config, kv, tv));
    }
    out
}

/// Exporting is deterministic: the key and type orders the export uses are
/// determined by the config, so the same config always exports to the same
/// text.
pub proof fn lemma_export_yaml_deterministic(
    c: RawConfig,
    ks1: Seq<Seq<char>>,
    ts1: Seq<Seq<char>>,
    ks2: Seq<Seq<char>>,
    ts2: Seq<Seq<char>>,
)
    requires
        sorted_keys_of(ks1, c.substitutions@),
        sorted_keys_of(ks2, c.substitutions@),
        sorted_types_of(ts1, comps_view(c.components@)),
        sorted_types_of(ts2, comps_view(c.components@)),
    ensures
        yaml_export_spec(c, ks1, ts1) == yaml_export_spec(c, ks2, ts2),
{
    crate::json::lemma_sorted_unique(ks1, ks2);
    crate::json::lemma_sorted_unique(ts1, ts2);
}

} // verus!
