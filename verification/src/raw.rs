//! Raw (unvalidated) config representation — the input of the pipeline.
use vstd::prelude::*;
use crate::json::{Json, JsonV};
use crate::text::{
    chars_of, seq_eq, owned, starts_with, is_prefix, char_index, lemma_char_index, find_char,
    string_of, slice_range,
};

verus! {

/// A string-keyed table of strings in which the first entry for a key is the
/// one that counts; `insert` replaces that entry or appends a new one.
#[derive(Debug)]
pub struct StringMap {
    pub entries: Vec<(String, String)>,
}

/// The abstract entries of a string table.
pub open spec fn pairs_view(s: Seq<(String, String)>) -> Seq<(Seq<char>, Seq<char>)> {
    s.map_values(|p: (String, String)| (p.0@, p.1@))
}

/// The value of the first entry whose key is `k`.
pub open spec fn pairs_lookup(s: Seq<(Seq<char>, Seq<char>)>, k: Seq<char>) -> Option<Seq<char>>
    decreases s.len(),
{
    if s.len() == 0 {
        None
    } else if s[0].0 == k {
        Some(s[0].1)
    } else {
        pairs_lookup(s.drop_first(), k)
    }
}

/// The index of the first entry whose key is `k`, or `s.len()`.
pub open spec fn pairs_index(s: Seq<(Seq<char>, Seq<char>)>, k: Seq<char>) -> int
    decreases s.len(),
{
    if s.len() == 0 {
        0
    } else if s[0].0 == k {
        0
    } else {
        1 + pairs_index(s.drop_first(), k)
    }
}

/// The entries after `insert(k, v)`: the first entry for `k` gets the value
/// `v`, or a new entry is appended when `k` is absent.
pub open spec fn pairs_insert(s: Seq<(Seq<char>, Seq<char>)>, k: Seq<char>, v: Seq<char>) -> Seq<
    (Seq<char>, Seq<char>),
> {
    let i = pairs_index(s, k);
    if i < s.len() {
        s.update(i, (k, v))
    } else {
        s.push((k, v))
    }
}

/// Facts about `pairs_index`.
pub proof fn lemma_pairs_index(s: Seq<(Seq<char>, Seq<char>)>, k: Seq<char>)
    ensures
        0 <= pairs_index(s, k) <= s.len(),
        pairs_index(s, k) < s.len() ==> s[pairs_index(s, k)].0 == k && pairs_lookup(s, k) == Some(
            s[pairs_index(s, k)].1,
        ),
        pairs_index(s, k) == s.len() ==> pairs_lookup(s, k).is_none(),
        forall|j: int| 0 <= j < pairs_index(s, k) ==> s[j].0 != k,
    decreases s.len(),
{
    if s.len() > 0 && s[0].0 != k {
        lemma_pairs_index(s.drop_first(), k);
        assert forall|j: int| 0 <= j < pairs_index(s, k) implies s[j].0 != k by {
            if j > 0 {
                assert(s[j] == s.drop_first()[j - 1]);
            }
        }
    }
}

/// Looking up a key after an insert.
pub proof fn lemma_pairs_insert_lookup(
    s: Seq<(Seq<char>, Seq<char>)>,
    k: Seq<char>,
    v: Seq<char>,
    q: Seq<char>,
)
    ensures
        pairs_lookup(pairs_insert(s, k, v), q) == if q == k {
            Some(v)
        } else {
            pairs_lookup(s, q)
        },
    decreases s.len(),
{
    lemma_pairs_index(s, k);
    let t = pairs_insert(s, k, v);
    if s.len() == 0 {
        assert(t.len() == 1 && t[0] == (k, v));
        assert(t.drop_first() =~= Seq::<(Seq<char>, Seq<char>)>::empty());
        assert(pairs_lookup(t, q) == if t[0].0 == q { Some(t[0].1) } else { pairs_lookup(t.drop_first(), q) });
    } else if s[0].0 == k {
        assert(pairs_index(s, k) == 0);
        assert(t[0] == (k, v));
        assert(t.drop_first() =~= s.drop_first());
    } else {
        lemma_pairs_insert_lookup(s.drop_first(), k, v, q);
        lemma_pairs_index(s.drop_first(), k);
        assert(pairs_index(s, k) == 1 + pairs_index(s.drop_first(), k));
        assert(t[0] == s[0]);
        assert(t.drop_first() =~= pairs_insert(s.drop_first(), k, v));
    }
}

impl View for StringMap {
    type V = Seq<(Seq<char>, Seq<char>)>;

    open spec fn view(&self) -> Seq<(Seq<char>, Seq<char>)> {
        pairs_view(self.entries@)
    }
}

impl StringMap {
    /// An empty table.
    pub fn new() -> (r: StringMap)
        ensures
            r@ == Seq::<(Seq<char>, Seq<char>)>::empty(),
    {
        let r = StringMap { entries: Vec::new() };
        proof {
            assert(r@ =~= Seq::<(Seq<char>, Seq<char>)>::empty());
        }
        r
    }

    /// The position of the first entry whose key is `key`, or the length.
    fn position(&self, key: &str) -> (r: usize)
        ensures
            r == pairs_index(self@, key@),
    {
        let kv = chars_of(key);
        let mut i: usize = 0;
        while i < self.entries.len()
            invariant
                i <= self.entries@.len(),
                kv@ == key@,
                forall|j: int| 0 <= j < i ==> self@[j].0 != key@,
            decreases self.entries@.len() - i,
        {
            let kc = chars_of(self.entries[i].0.as_str());
            if seq_eq(&kc, &kv) {
                proof {
                    lemma_pairs_index_first(self@, key@, i as int);
                }
                return i;
            }
            i = i + 1;
        }
        proof {
            lemma_pairs_index_first(self@, key@, self@.len() as int);
        }
        i
    }

    /// The value stored for `key`.
    pub fn get(&self, key: &str) -> (r: Option<&String>)
        ensures
            match r {
                Some(v) => pairs_lookup(self@, key@) == Some(v@),
                None => pairs_lookup(self@, key@).is_none(),
            },
    {
        let i = self.position(key);
        proof {
            lemma_pairs_index(self@, key@);
        }
        if i < self.entries.len() {
            Some(&self.entries[i].1)
        } else {
            None
        }
    }

    /// `true` when some entry has key `key`.
    pub fn contains_key(&self, key: &str) -> (r: bool)
        ensures
            r == pairs_lookup(self@, key@).is_some(),
    {
        let i = self.position(key);
        proof {
            lemma_pairs_index(self@, key@);
        }
        i < self.entries.len()
    }

    /// Stores `value` under `key`, replacing an earlier value.
    pub fn insert(&mut self, key: &str, value: &str)
        ensures
            final(self)@ == pairs_insert(old(self)@, key@, value@),
    {
        let i = self.position(key);
        proof {
            lemma_pairs_index(self@, key@);
        }
        if i < self.entries.len() {
            self.entries.set(i, (owned(key), owned(value)));
        } else {
            self.entries.push((owned(key), owned(value)));
        }
        proof {
            assert(self@ =~= pairs_insert(old(self)@, key@, value@));
        }
    }

    /// Number of entries.
    pub fn len(&self) -> (r: usize)
        ensures
            r == self@.len(),
    {
        self.entries.len()
    }

    /// Deep copy.
    pub fn copy(&self) -> (r: StringMap)
        ensures
            r@ == self@,
    {
        let mut out: Vec<(String, String)> = Vec::new();
        let mut i: usize = 0;
        while i < self.entries.len()
            invariant
                i <= self.entries@.len(),
                out@ == self.entries@.subrange(0, i as int),
            decreases self.entries@.len() - i,
        {
            out.push((self.entries[i].0.clone(), self.entries[i].1.clone()));
            i = i + 1;
            proof {
                assert(out@ =~= self.entries@.subrange(0, i as int));
            }
        }
        proof {
            assert(out@ =~= self.entries@);
        }
        StringMap { entries: out }
    }
}

/// `pairs_index` is the first matching position.
pub proof fn lemma_pairs_index_first(s: Seq<(Seq<char>, Seq<char>)>, k: Seq<char>, i: int)
    requires
        0 <= i <= s.len(),
        forall|j: int| 0 <= j < i ==> s[j].0 != k,
        i < s.len() ==> s[i].0 == k,
    ensures
        pairs_index(s, k) == i,
    decreases s.len(),
{
    if s.len() > 0 && i > 0 {
        assert forall|j: int| 0 <= j < i - 1 implies s.drop_first()[j].0 != k by {
            assert(s.drop_first()[j] == s[j + 1]);
        }
        lemma_pairs_index_first(s.drop_first(), k, i - 1);
    }
}

/// Device identity and target platform (`esphome:` block).
#[derive(Debug)]
pub struct EsphomeBlock {
    /// Device name shown in Home Assistant.
    pub name: String,
    /// Target chip: `"esp32"`, `"esp32s3"`, `"esp32c6"`.
    pub platform: String,
    /// Board identifier.
    pub board: String,
    /// Optional friendly name.
    pub friendly_name: Option<String>,
    /// Framework selection and version pinning.
    pub framework: Option<FrameworkConfig>,
    /// Extra C/C++ include files.
    pub includes: Vec<String>,
    /// Additional libraries.
    pub libraries: Vec<String>,
    /// OTA project identity metadata.
    pub project: Option<ProjectConfig>,
    /// Physical area shown in HA.
    pub area: Option<String>,
    /// Minimum rshome version required by this config.
    pub min_version: Option<String>,
    /// Optional public profile name.
    pub profile: Option<String>,
    /// Optional solution ID for solution-aware validation.
    pub solution: Option<String>,
    /// Optional variant id within `solution`'s variants.
    pub solution_variant: Option<String>,
}

/// Framework configuration (ESP-IDF or Arduino).
#[derive(Debug)]
pub struct FrameworkConfig {
    /// `"esp-idf"` or `"arduino"`.
    pub framework_type: String,
    /// Framework version pin.
    pub version: Option<String>,
    /// IDF component manager dependencies.
    pub components: Vec<IdfComponentRef>,
    /// `sdkconfig` key-value overrides.
    pub sdkconfig_options: StringMap,
}

/// An IDF component manager dependency.
#[derive(Debug)]
pub struct IdfComponentRef {
    /// Component name, e.g. `"espressif/led_strip"`.
    pub name: String,
    /// Version constraint.
    pub version: Option<String>,
    /// Git URL override.
    pub git: Option<String>,
    /// Local path.
    pub path: Option<String>,
}

/// OTA / device project identity metadata.
#[derive(Debug)]
pub struct ProjectConfig {
    pub name: String,
    pub version: String,
}

/// A reference to an external config package to be merged in.
#[derive(Debug)]
pub struct PackageRef {
    /// Local alias for this package.
    pub name: String,
    /// Remote git repository URL.
    pub url: Option<String>,
    /// Local file path.
    pub file: Option<String>,
    /// Git ref.
    pub git_ref: Option<String>,
    /// Path within the repository to the config file.
    pub config_path: Option<String>,
}

/// A single component instance entry in the config.
#[derive(Debug)]
pub struct ComponentConfig {
    /// Component type key; `"!extend x"` / `"!remove x"` for directives.
    pub component_type: String,
    /// Platform name for platform components.
    pub platform: Option<String>,
    /// Raw config values.
    pub config: Json,
}

/// Abstract component entry.
pub struct ComponentView {
    pub component_type: Seq<char>,
    pub platform: Option<Seq<char>>,
    pub config: JsonV,
}

/// The abstract view of an optional string.
pub open spec fn opt_view(o: Option<String>) -> Option<Seq<char>> {
    match o {
        Some(s) => Some(s@),
        None => None,
    }
}

impl View for ComponentConfig {
    type V = ComponentView;

    open spec fn view(&self) -> ComponentView {
        ComponentView {
            component_type: self.component_type@,
            platform: opt_view(self.platform),
            config: self.config@,
        }
    }
}

/// The views of a list of components.
pub open spec fn comps_view(s: Seq<ComponentConfig>) -> Seq<ComponentView> {
    s.map_values(|c: ComponentConfig| c@)
}

/// Copies an optional string.
pub fn copy_opt(o: &Option<String>) -> (r: Option<String>)
    ensures
        opt_view(r) == opt_view(*o),
        r.is_some() == o.is_some(),
{
    match o {
        Some(s) => Some(s.clone()),
        None => None,
    }
}

/// `"!extend"` is a prefix of the type.
pub open spec fn is_extend_spec(t: Seq<char>) -> bool {
    is_prefix("!extend"@, t)
}

/// `"!remove"` is a prefix of the type.
pub open spec fn is_remove_spec(t: Seq<char>) -> bool {
    is_prefix("!remove"@, t)
}

/// The second space-separated field of `t`: the text between the first
/// space and the next space (or the end); `None` when `t` has no space.
pub open spec fn second_word(t: Seq<char>) -> Option<Seq<char>> {
    let i = char_index(t, ' ');
    if i == t.len() {
        None
    } else {
        let rest = t.subrange(i + 1, t.len() as int);
        Some(rest.subrange(0, char_index(rest, ' ')))
    }
}

/// The directive target of a component type: `Some(second_word(t))` for
/// `!extend` / `!remove` directives, `None` otherwise.
pub open spec fn directive_target_spec(t: Seq<char>) -> Option<Seq<char>> {
    if is_extend_spec(t) || is_remove_spec(t) {
        second_word(t)
    } else {
        None
    }
}

impl ComponentConfig {
    /// Returns `true` if this is an `!extend` directive.
    pub fn is_extend(&self) -> (r: bool)
        ensures
            r == is_extend_spec(self.component_type@),
    {
        let t = chars_of(self.component_type.as_str());
        let p = chars_of("!extend");
        starts_with(&t, &p)
    }

    /// Returns `true` if this is a `!remove` directive.
    pub fn is_remove(&self) -> (r: bool)
        ensures
            r == is_remove_spec(self.component_type@),
    {
        let t = chars_of(self.component_type.as_str());
        let p = chars_of("!remove");
        starts_with(&t, &p)
    }

    /// Returns the target component type for extend/remove directives:
    /// `"!extend wifi"` → `Some("wifi")`.
    pub fn directive_target(&self) -> (r: Option<String>)
        ensures
            opt_view(r) == directive_target_spec(self.component_type@),
    {
        if self.is_extend() || self.is_remove() {
            let t = chars_of(self.component_type.as_str());
            let i = find_char(&t, ' ', 0);
            proof {
                assert(t@.subrange(0, t@.len() as int) =~= t@);
            }
            if i == t.len() {
                return None;
            }
            let k = find_char(&t, ' ', i + 1);
            proof {
                let rest = t@.subrange(i + 1, t@.len() as int);
                lemma_char_index(rest, ' ');
                assert(rest.subrange(0, char_index(rest, ' ')) =~= t@.subrange(i + 1, k as int));
            }
            let word = string_of(slice_range(&t, i + 1, k).as_slice());
            Some(word)
        } else {
            None
        }
    }

    /// Deep copy.
    pub fn copy(&self) -> (r: ComponentConfig)
        ensures
            r@ == self@,
    {
        ComponentConfig {
            component_type: self.component_type.clone(),
            platform: copy_opt(&self.platform),
            config: self.config.copy(),
        }
    }
}

/// Raw config as supplied by the user.
#[derive(Debug)]
pub struct RawConfig {
    /// Device identity and target platform.
    pub esphome: EsphomeBlock,
    /// External config packages to merge in (Stage 1).
    pub packages: Vec<PackageRef>,
    /// Key-value substitutions applied across the config (Stage 2).
    pub substitutions: StringMap,
    /// All component instances.
    pub components: Vec<ComponentConfig>,
}

/// A pre-populated store of external package configs, looked up by name.
#[derive(Debug)]
pub struct PackageStore {
    pub packages: Vec<(String, RawConfig)>,
}

/// The index of the first package named `k`, or the length.
pub open spec fn store_index(s: Seq<(String, RawConfig)>, k: Seq<char>) -> int
    decreases s.len(),
{
    if s.len() == 0 {
        0
    } else if s[0].0@ == k {
        0
    } else {
        1 + store_index(s.drop_first(), k)
    }
}

/// Facts about `store_index`.
pub proof fn lemma_store_index(s: Seq<(String, RawConfig)>, k: Seq<char>)
    ensures
        0 <= store_index(s, k) <= s.len(),
        store_index(s, k) < s.len() ==> s[store_index(s, k)].0@ == k,
        forall|j: int| 0 <= j < store_index(s, k) ==> s[j].0@ != k,
    decreases s.len(),
{
    if s.len() > 0 && s[0].0@ != k {
        lemma_store_index(s.drop_first(), k);
        assert forall|j: int| 0 <= j < store_index(s, k) implies s[j].0@ != k by {
            if j > 0 {
                assert(s[j] == s.drop_first()[j - 1]);
            }
        }
    }
}

/// `store_index` is the first matching position.
pub proof fn lemma_store_index_first(s: Seq<(String, RawConfig)>, k: Seq<char>, i: int)
    requires
        0 <= i <= s.len(),
        forall|j: int| 0 <= j < i ==> s[j].0@ != k,
        i < s.len() ==> s[i].0@ == k,
    ensures
        store_index(s, k) == i,
    decreases s.len(),
{
    if s.len() > 0 && i > 0 {
        assert forall|j: int| 0 <= j < i - 1 implies s.drop_first()[j].0@ != k by {
            assert(s.drop_first()[j] == s[j + 1]);
        }
        lemma_store_index_first(s.drop_first(), k, i - 1);
    }
}

/// The package registered under `k`, if any.
pub open spec fn store_get(s: Seq<(String, RawConfig)>, k: Seq<char>) -> Option<RawConfig> {
    let i = store_index(s, k);
    if i < s.len() {
        Some(s[i].1)
    } else {
        None
    }
}

impl PackageStore {
    /// Create an empty package store.
    pub fn new() -> (r: PackageStore)
        ensures
            r.packages@.len() == 0,
    {
        PackageStore { packages: Vec::new() }
    }

    fn position(&self, name: &str) -> (r: usize)
        ensures
            r == store_index(self.packages@, name@),
    {
        let kv = chars_of(name);
        let mut i: usize = 0;
        while i < self.packages.len()
            invariant
                i <= self.packages@.len(),
                kv@ == name@,
                forall|j: int| 0 <= j < i ==> self.packages@[j].0@ != name@,
            decreases self.packages@.len() - i,
        {
            let kc = chars_of(self.packages[i].0.as_str());
            if seq_eq(&kc, &kv) {
                proof {
                    lemma_store_index_first(self.packages@, name@, i as int);
                }
                return i;
            }
            i = i + 1;
        }
        proof {
            lemma_store_index_first(self.packages@, name@, i as int);
        }
        i
    }

    /// Register a package under `name`, replacing an earlier one of that name.
    pub fn insert(&mut self, name: &str, config: RawConfig)
        ensures
            store_get(final(self).packages@, name@) == Some(config),
            forall|k: Seq<char>|
                k != name@ ==> store_get(final(self).packages@, k) == store_get(
                    old(self).packages@,
                    k,
                ),
    {
        let i = self.position(name);
        let ghost old_p = self.packages@;
        proof {
            lemma_store_index(old_p, name@);
        }
        if i < self.packages.len() {
            self.packages.set(i, (owned(name), config));
        } else {
            self.packages.push((owned(name), config));
        }
        proof {
            let new_p = self.packages@;
            lemma_store_index_first(new_p, name@, i as int);
            assert forall|k: Seq<char>| k != name@ implies store_get(new_p, k) == store_get(
                old_p,
                k,
            ) by {
                lemma_store_index(old_p, k);
                let j = store_index(old_p, k);
                if j < old_p.len() {
                    assert(j != i);
                    if j > i {
                        assert(old_p[i as int].0@ == name@);
                    }
                    lemma_store_index_first(new_p, k, j);
                } else {
                    lemma_store_index_first(new_p, k, new_p.len() as int);
                }
            }
        }
    }

    /// Look up a package by name.
    pub fn get(&self, name: &str) -> (r: Option<&RawConfig>)
        ensures
            match r {
                Some(c) => store_get(self.packages@, name@) == Some(*c),
                None => store_get(self.packages@, name@).is_none(),
            },
    {
        let i = self.position(name);
        if i < self.packages.len() {
            Some(&self.packages[i].1)
        } else {
            None
        }
    }

    /// Returns `true` if a package with this name is registered.
    pub fn contains(&self, name: &str) -> (r: bool)
        ensures
            r == store_get(self.packages@, name@).is_some(),
    {
        self.position(name) < self.packages.len()
    }

    /// Number of registered entries.
    pub fn len(&self) -> (r: usize)
        ensures
            r == self.packages@.len(),
    {
        self.packages.len()
    }

    /// Returns `true` if the store is empty.
    pub fn is_empty(&self) -> (r: bool)
        ensures
            r == (self.packages@.len() == 0),
    {
        self.packages.len() == 0
    }
}

} // verus!
