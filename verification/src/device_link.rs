//! Device-link identity, security and status types: how discovered devices
//! are named, how their Noise keys are decoded, and how their sessions are
//! reported.
use vstd::prelude::*;
use base64::Engine;
use crate::stages::s7_schema_validation::ascii_lower;
use crate::text::{
    chars_of, string_of, concat2, to_lowercase, lowercase_of, is_alphanumeric, alphanumeric,
    trim_end_char, lemma_trim_end_at, is_suffix, ends_with, u64_to_decimal, str_eq, char_index, decimal, owned,
    concat3,
};
use crate::stages::s8_id_resolution::underscore_non_alnum;

verus! {

/// A device's canonical identifier (`esphome:<mac>` or `esphome-host:<host>`).
#[derive(Debug, PartialEq, Eq)]
pub struct DeviceId(pub String);

/// The text of a device name with runs of `_` collapsed to one and leading
/// and trailing `_` dropped (the non-empty `_`-separated pieces joined by
/// `_`), scanning the first `n` characters: the text so far and whether a
/// separator is pending.
pub open spec fn collapse_underscores(s: Seq<char>, n: int) -> (Seq<char>, bool)
    decreases n,
{
    if n <= 0 || n > s.len() {
        (Seq::empty(), false)
    } else {
        let prev = collapse_underscores(s, n - 1);
        let c = s[n - 1];
        if c == '_' {
            (prev.0, prev.0.len() > 0)
        } else if prev.1 {
            (prev.0.push('_').push(c), false)
        } else {
            (prev.0.push(c), false)
        }
    }
}

/// The slug of a device name: lowercased, non-alphanumerics turned into
/// `_`, runs of `_` collapsed and the ends trimmed.
pub open spec fn device_slug_spec(name: Seq<char>) -> Seq<char> {
    let m = underscore_non_alnum(lowercase_of(name));
    collapse_underscores(m, m.len() as int).0
}

/// A URL-safe slug derived from a device name, used when building entity
/// IDs: `"My ESP32 Device-01"` → `"my_esp32_device_01"`.
pub fn device_slug(name: &str) -> (r: String)
    ensures
        r@ == device_slug_spec(name@),
{
    let lower = to_lowercase(name);
    let t = chars_of(lower.as_str());
    let ghost m = underscore_non_alnum(t@);
    let mut out: Vec<char> = Vec::new();
    let mut pending = false;
    let mut i: usize = 0;
    while i < t.len()
        invariant
            i <= t@.len(),
            t@ == lowercase_of(name@),
            m == underscore_non_alnum(t@),
            (out@, pending) == collapse_underscores(m, i as int),
        decreases t@.len() - i,
    {
        let c = if is_alphanumeric(t[i]) {
            t[i]
        } else {
            '_'
        };
        proof {
            assert(m[i as int] == c);
        }
        if c == '_' {
            pending = out.len() > 0;
        } else {
            if pending {
                out.push('_');
            }
            out.push(c);
            pending = false;
        }
        i = i + 1;
    }
    string_of(out.as_slice())
}

/// The character is an ASCII hexadecimal digit.
pub open spec fn is_hex_digit(c: char) -> bool {
    ('0' <= c <= '9') || ('a' <= c <= 'f') || ('A' <= c <= 'F')
}

/// The hex digits of the first `n` characters of a MAC text, lowercased.
pub open spec fn mac_digits(s: Seq<char>, n: int) -> Seq<char>
    decreases n,
{
    if n <= 0 || n > s.len() {
        Seq::empty()
    } else {
        mac_digits(s, n - 1) + if is_hex_digit(s[n - 1]) {
            seq![if 'A' <= s[n - 1] <= 'F' { ((s[n - 1] as u32) + 32) as char } else { s[n - 1] }]
        } else {
            Seq::empty()
        }
    }
}

fn lower_hex(c: char) -> (r: char)
    requires
        is_hex_digit(c),
    ensures
        r == (if 'A' <= c <= 'F' { ((c as u32) + 32) as char } else { c }),
{
    if c == 'A' {
        'a'
    } else if c == 'B' {
        'b'
    } else if c == 'C' {
        'c'
    } else if c == 'D' {
        'd'
    } else if c == 'E' {
        'e'
    } else if c == 'F' {
        'f'
    } else {
        c
    }
}

/// Derive a device id from a MAC address: its hex digits, lowercased, after
/// `esphome:` (`"AA:BB:CC:DD:EE:FF"` → `esphome:aabbccddeeff`).
pub fn device_id_from_mac(mac: &str) -> (r: DeviceId)
    ensures
        r.0@ == "esphome:"@ + mac_digits(mac@, mac@.len() as int),
{
    let t = chars_of(mac);
    let mut out: Vec<char> = Vec::new();
    let mut i: usize = 0;
    while i < t.len()
        invariant
            i <= t@.len(),
            t@ == mac@,
            out@ == mac_digits(mac@, i as int),
        decreases t@.len() - i,
    {
        let c = t[i];
        if ('0' <= c && c <= '9') || ('a' <= c && c <= 'f') || ('A' <= c && c <= 'F') {
            let ghost before = out@;
            out.push(lower_hex(c));
            proof {
                assert(out@ =~= before + seq![if 'A' <= c <= 'F' { ((c as u32) + 32) as char } else { c }]);
            }
        } else {
            proof {
                assert(out@ =~= out@ + Seq::<char>::empty());
            }
        }
        i = i + 1;
    }
    let digits = string_of(out.as_slice());
    DeviceId(concat2("esphome:", digits.as_str()))
}

/// `s` with every trailing copy of the non-empty suffix `p` removed.
pub open spec fn trim_end_seq(s: Seq<char>, p: Seq<char>) -> Seq<char>
    decreases s.len(),
{
    if p.len() > 0 && is_suffix(p, s) {
        trim_end_seq(s.subrange(0, s.len() - p.len()), p)
    } else {
        s
    }
}

/// A hostname without its trailing dots and then without its `.local`
/// suffixes.
pub open spec fn clean_hostname(h: Seq<char>) -> Seq<char> {
    trim_end_seq(trim_end_char(h, '.'), ".local"@)
}

/// Drop trailing dots and then any `.local` suffixes from a hostname
/// (`"my-device.local."` → `my-device`).
pub fn trim_hostname(hostname: &str) -> (r: String)
    ensures
        r@ == clean_hostname(hostname@),
{
    let t = chars_of(hostname);
    let mut b: usize = t.len();
    while b > 0 && t[b - 1] == '.'
        invariant
            b <= t@.len(),
            t@ == hostname@,
            forall|j: int| b <= j < t@.len() ==> t@[j] == '.',
        decreases b,
    {
        b = b - 1;
    }
    proof {
        lemma_trim_end_at(t@, '.', b as int);
    }
    let suffix = chars_of(".local");
    let mut e: usize = b;
    proof {
        assert(t@.subrange(0, b as int).len() == b);
    }
    while e >= suffix.len() && crate::text::occurs_at_exec(&t, &suffix, e - suffix.len())
        invariant
            e <= b <= t@.len(),
            suffix@ == ".local"@,
            trim_end_seq(t@.subrange(0, e as int), ".local"@) == trim_end_seq(t@.subrange(0, b as int), ".local"@),
        decreases e,
    {
        proof {
            reveal_strlit(".local");
            let s = t@.subrange(0, e as int);
            assert(s.subrange(s.len() - 6, s.len() as int) =~= t@.subrange(e - 6, e as int));
            assert(is_suffix(".local"@, s));
            assert(s.subrange(0, s.len() - 6) =~= t@.subrange(0, e - 6));
        }
        e = e - suffix.len();
    }
    proof {
        reveal_strlit(".local");
        let s = t@.subrange(0, e as int);
        if e >= 6 {
            assert(s.subrange(s.len() - 6, s.len() as int) =~= t@.subrange(e - 6, e as int));
        }
        assert(!is_suffix(".local"@, s));
    }
    string_of(crate::text::slice_range(&t, 0, e).as_slice())
}

/// Derive a device id from a hostname, dropping trailing dots and then any
/// `.local` suffixes (`"my-device.local."` → `esphome-host:my-device`).
pub fn device_id_from_hostname(hostname: &str) -> (r: DeviceId)
    ensures
        r.0@ == "esphome-host:"@ + clean_hostname(hostname@),
{
    let clean = trim_hostname(hostname);
    DeviceId(concat2("esphome-host:", clean.as_str()))
}

/// The first `.`-separated label of a name (the whole name when it has no dot).
pub open spec fn first_label(s: Seq<char>) -> Seq<char> {
    s.subrange(0, char_index(s, '.'))
}

/// The first label of a name.
pub fn first_label_of(s: &str) -> (r: String)
    ensures
        r@ == first_label(s@),
{
    let t = chars_of(s);
    let k = crate::text::find_char(&t, '.', 0);
    proof {
        assert(t@.subrange(0, t@.len() as int) =~= t@);
    }
    string_of(crate::text::slice_range(&t, 0, k).as_slice())
}

/// The device id of a removed mDNS service: the id of its instance name,
/// the first label of the full service name.
pub fn fullname_to_device_id(fullname: &str) -> (r: DeviceId)
    ensures
        r.0@ == "esphome-host:"@ + clean_hostname(first_label(fullname@)),
{
    let host = first_label_of(fullname);
    device_id_from_hostname(host.as_str())
}

/// Whether an imported entity supports outbound Native API commands.
#[derive(Debug, Clone, Copy, PartialEq, Eq, Structural)]
pub enum ImportedCommandCapabilities {
    /// Accepts state-change commands.
    Controllable,
    /// Read-only (sensors).
    ReadOnly,
}

/// Map an entity domain to its command capabilities: sensors are read-only.
pub fn command_capabilities_for_domain(domain: &str) -> (r: ImportedCommandCapabilities)
    ensures
        r == if domain@ == "sensor"@ || domain@ == "binary_sensor"@ || domain@ == "text_sensor"@ {
            ImportedCommandCapabilities::ReadOnly
        } else {
            ImportedCommandCapabilities::Controllable
        },
{
    if str_eq(domain, "sensor") || str_eq(domain, "binary_sensor") || str_eq(domain, "text_sensor") {
        ImportedCommandCapabilities::ReadOnly
    } else {
        ImportedCommandCapabilities::Controllable
    }
}

/// Reconnect delay in seconds for an attempt: 1, 2, 4, 8, 16, then 30.
pub open spec fn backoff_spec(attempt: u32) -> u64 {
    if attempt == 0 {
        1
    } else if attempt == 1 {
        2
    } else if attempt == 2 {
        4
    } else if attempt == 3 {
        8
    } else if attempt == 4 {
        16
    } else {
        30
    }
}

/// Reconnect delay in seconds for an attempt: 1, 2, 4, 8, 16, then 30.
pub fn backoff_delay_secs(attempt: u32) -> (r: u64)
    ensures
        r == backoff_spec(attempt),
{
    if attempt == 0 {
        1
    } else if attempt == 1 {
        2
    } else if attempt == 2 {
        4
    } else if attempt == 3 {
        8
    } else if attempt == 4 {
        16
    } else {
        30
    }
}

/// `None` for an empty text, else the text.
pub fn opt_str(s: String) -> (r: Option<String>)
    ensures
        match r {
            Some(t) => s@.len() > 0 && t@ == s@,
            None => s@.len() == 0,
        },
{
    if s.unicode_len() == 0 {
        None
    } else {
        Some(s)
    }
}

/// What `base64::engine::general_purpose::STANDARD.decode` returns for a
/// text: the decoded bytes, or the decode error's message.
pub uninterp spec fn base64_standard_decode(s: Seq<char>) -> Result<Seq<u8>, Seq<char>>;

/// `STANDARD.decode` of the `base64` crate; the contract names the result
/// (decoded bytes, or the error's `Display` text) and states nothing more of
/// the alphabet or padding rules.
#[verifier::external_body]
fn decode_base64(s: &str) -> (r: Result<Vec<u8>, String>)
    ensures
        match r {
            Ok(b) => base64_standard_decode(s@) == Ok::<Seq<u8>, Seq<char>>(b@),
            Err(m) => base64_standard_decode(s@) == Err::<Seq<u8>, Seq<char>>(m@),
        },
{
    match base64::engine::general_purpose::STANDARD.decode(s) {
        Ok(b) => Ok(b),
        Err(e) => Err(e.to_string()),
    }
}

/// Errors that can occur when decoding a Noise PSK.
#[derive(Debug, PartialEq, Eq)]
pub enum PskError {
    /// The text is not valid base64; the decoder's message.
    Base64(String),
    /// The decoded key is not 32 bytes long; its length.
    WrongLength(usize),
}

impl PskError {
    /// The error's message.
    pub fn message(&self) -> (r: String)
        ensures
            r@ == match self {
                PskError::Base64(m) => "base64 decode failed: "@ + m@,
                PskError::WrongLength(n) => "PSK must be exactly 32 bytes; got "@ + crate::text::decimal(*n as nat),
            },
    {
        match self {
            PskError::Base64(m) => concat2("base64 decode failed: ", m.as_str()),
            PskError::WrongLength(n) => concat2("PSK must be exactly 32 bytes; got ", u64_to_decimal(*n as u64).as_str()),
        }
    }
}

/// Per-device security configuration for the Native API connection.
#[derive(Debug)]
pub struct DeviceSecurityConfig {
    /// Optional base64-encoded 32-byte Noise PSK; `None` means cleartext.
    pub noise_psk: Option<String>,
}

impl Default for DeviceSecurityConfig {
    fn default() -> (r: Self)
        ensures
            r.noise_psk is None,
    {
        DeviceSecurityConfig { noise_psk: None }
    }
}

impl DeviceSecurityConfig {
    /// A copy of the configuration.
    pub fn copy(&self) -> (r: Self)
        ensures
            r == *self,
    {
        DeviceSecurityConfig {
            noise_psk: match &self.noise_psk {
                Some(k) => Some(k.clone()),
                None => None,
            },
        }
    }

    /// Returns `true` if this device should use Noise encryption.
    pub fn uses_noise(&self) -> (r: bool)
        ensures
            r == self.noise_psk is Some,
    {
        self.noise_psk.is_some()
    }

    /// Decode the Noise PSK: `None` without one; otherwise the 32 decoded
    /// bytes, or why they could not be had.
    pub fn decode_psk(&self) -> (r: Option<Result<[u8; 32], PskError>>)
        ensures
            match self.noise_psk {
                None => r is None,
                Some(k) => match base64_standard_decode(k@) {
                    Err(m) => r is Some && r->Some_0 is Err && r->Some_0->Err_0 is Base64
                        && r->Some_0->Err_0->Base64_0@ == m,
                    Ok(b) => if b.len() == 32 {
                        r is Some && r->Some_0 is Ok && r->Some_0->Ok_0@ == b
                    } else {
                        r == Some(Err::<[u8; 32], PskError>(PskError::WrongLength(b.len() as usize)))
                    },
                },
            },
    {
        let b64 = match &self.noise_psk {
            None => return None,
            Some(k) => k,
        };
        let bytes = match decode_base64(b64.as_str()) {
            Ok(b) => b,
            Err(e) => return Some(Err(PskError::Base64(e))),
        };
        if bytes.len() != 32 {
            return Some(Err(PskError::WrongLength(bytes.len())));
        }
        let mut arr = [0u8; 32];
        let mut i: usize = 0;
        while i < 32
            invariant
                i <= 32,
                bytes@.len() == 32,
                forall|k: int| 0 <= k < i ==> arr@[k] == bytes@[k],
            decreases 32 - i,
        {
            arr[i] = bytes[i];
            i = i + 1;
        }
        proof {
            assert(arr@ =~= bytes@);
        }
        Some(Ok(arr))
    }
}

/// The climate mode name of a Native API climate mode number.
pub open spec fn climate_mode_spec(mode: i32) -> Seq<char> {
    if mode == 1 {
        "heat_cool"@
    } else if mode == 2 {
        "cool"@
    } else if mode == 3 {
        "heat"@
    } else if mode == 4 {
        "fan_only"@
    } else if mode == 5 {
        "dry"@
    } else if mode == 6 {
        "auto"@
    } else {
        "off"@
    }
}

/// The climate mode name of a Native API climate mode number (`off` for
/// any number it does not know).
pub fn climate_int_to_mode(mode: i32) -> (r: &'static str)
    ensures
        r@ == climate_mode_spec(mode),
{
    match mode {
        1 => "heat_cool",
        2 => "cool",
        3 => "heat",
        4 => "fan_only",
        5 => "dry",
        6 => "auto",
        _ => "off",
    }
}

/// Session-level errors of connection security and hardening.
#[derive(Debug, Clone, Copy, PartialEq, Eq, Structural)]
pub enum SessionError {
    /// The device requires Noise encryption but no PSK is configured.
    NoisePskRequired,
    /// A PSK is configured but the device speaks cleartext.
    UnexpectedCleartext,
    /// The Noise handshake failed (wrong PSK or protocol mismatch).
    NoiseHandshakeFailed,
    /// A frame payload exceeded the allowed size, in bytes.
    FrameTooLarge(u64),
}

/// The message of a session error.
pub open spec fn session_error_message(e: SessionError) -> Seq<char> {
    match e {
        SessionError::NoisePskRequired => "server requires Noise encryption but no PSK is configured"@,
        SessionError::UnexpectedCleartext => "Noise PSK is configured but server uses cleartext"@,
        SessionError::NoiseHandshakeFailed => "Noise handshake failed (incorrect PSK or protocol mismatch)"@,
        SessionError::FrameTooLarge(n) => "frame payload too large: "@ + decimal(n as nat) + " bytes"@,
    }
}

impl SessionError {
    /// The error's message.
    pub fn message(&self) -> (r: String)
        ensures
            r@ == session_error_message(*self),
    {
        match self {
            SessionError::NoisePskRequired => owned("server requires Noise encryption but no PSK is configured"),
            SessionError::UnexpectedCleartext => owned("Noise PSK is configured but server uses cleartext"),
            SessionError::NoiseHandshakeFailed => owned("Noise handshake failed (incorrect PSK or protocol mismatch)"),
            SessionError::FrameTooLarge(n) => concat3("frame payload too large: ", u64_to_decimal(*n).as_str(), " bytes"),
        }
    }
}

/// Whether a discovery record is fresh or stale.
#[derive(Debug, Clone, Copy, PartialEq, Eq, Structural)]
pub enum DiscoveryRecordState {
    /// Announced within the last 90 seconds.
    Fresh,
    /// Not re-announced for at least 90 seconds.
    Stale,
}

} // verus!
