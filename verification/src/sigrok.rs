//! Typed sigrok logic-analyzer component configuration.
//!
//! [`SigrokConfig`] is the component's config block as written (parsed by the
//! caller), [`ValidatedSigrokConfig`] the normalized form handed to codegen.
use vstd::prelude::*;

verus! {

/// Sigrok component configuration as written by the user.
#[derive(Debug)]
pub struct SigrokConfig {
    /// GPIO pin numbers for each channel (8 or 16 entries).
    pub channels: Vec<u8>,
    /// Target sample rate in Hz.
    pub sample_rate_hz: u32,
    /// Maximum achievable sample rate (hardware ceiling).
    pub max_sample_rate: u32,
    /// Capture buffer depth in samples.
    pub buffer_depth: u32,
    /// Trigger mode.
    pub trigger_mode: SigrokTriggerMode,
    /// USB transport backend.
    pub transport: SigrokTransport,
}

/// Trigger mode selection.
#[derive(Debug, Clone, Copy, PartialEq, Eq, Structural)]
pub enum SigrokTriggerMode {
    /// No trigger — capture starts immediately on arm.
    Immediate,
    /// Trigger on a rising or falling edge on one channel.
    Edge { channel: u8, rising: bool },
    /// Trigger when `(sample & mask) == value`.
    Pattern { mask: u32, value: u32 },
}

impl Default for SigrokTriggerMode {
    fn default() -> (r: Self)
        ensures
            r == SigrokTriggerMode::Immediate,
    {
        SigrokTriggerMode::Immediate
    }
}

/// USB transport backend.
#[derive(Debug, Clone, Copy, PartialEq, Eq, Structural)]
pub enum SigrokTransport {
    /// ESP32-S3 built-in USB Serial/JTAG (the default).
    UsbSerialJtag,
    /// USB-OTG via TinyUSB CDC.
    UsbOtgCdc,
}

impl Default for SigrokTransport {
    fn default() -> (r: Self)
        ensures
            r == SigrokTransport::UsbSerialJtag,
    {
        SigrokTransport::UsbSerialJtag
    }
}

/// Validated sigrok config — all fields checked and normalized.
#[derive(Debug)]
pub struct ValidatedSigrokConfig {
    pub channels: Vec<u8>,
    pub channel_count: u8,
    pub sample_rate_hz: u32,
    pub max_sample_rate: u32,
    pub buffer_depth: u32,
    pub trigger_mode: SigrokTriggerMode,
    pub transport: SigrokTransport,
}

/// The default channel GPIOs.
pub open spec fn default_channels_spec() -> Seq<u8> {
    seq![4u8, 5u8, 6u8, 7u8, 15u8, 16u8, 17u8, 18u8]
}

/// Default channel GPIOs: 4, 5, 6, 7, 15, 16, 17, 18.
pub fn default_channels() -> (r: Vec<u8>)
    ensures
        r@ == default_channels_spec(),
{
    let mut v: Vec<u8> = Vec::new();
    v.push(4);
    v.push(5);
    v.push(6);
    v.push(7);
    v.push(15);
    v.push(16);
    v.push(17);
    v.push(18);
    proof {
        assert(v@ =~= default_channels_spec());
    }
    v
}

/// Default sample rate: 1 MHz.
pub fn default_sample_rate() -> (r: u32)
    ensures
        r == 1_000_000,
{
    1_000_000
}

/// Default hardware ceiling: 10 MHz.
pub fn default_max_sample_rate() -> (r: u32)
    ensures
        r == 10_000_000,
{
    10_000_000
}

/// Default buffer depth: 32768 samples.
pub fn default_buffer_depth() -> (r: u32)
    ensures
        r == 32_768,
{
    32_768
}

impl SigrokConfig {
    /// Produce the validated form: the same settings, with the channel count
    /// (the number of channels, kept to its low 8 bits as a `u8`).
    pub fn into_validated(self) -> (r: ValidatedSigrokConfig)
        ensures
            r.channels@ == self.channels@,
            r.channel_count as int == self.channels@.len() % 256,
            r.sample_rate_hz == self.sample_rate_hz,
            r.max_sample_rate == self.max_sample_rate,
            r.buffer_depth == self.buffer_depth,
            r.trigger_mode == self.trigger_mode,
            r.transport == self.transport,
    {
        let n = self.channels.len();
        let channel_count = (n % 256) as u8;
        ValidatedSigrokConfig {
            channels: self.channels,
            channel_count,
            sample_rate_hz: self.sample_rate_hz,
            max_sample_rate: self.max_sample_rate,
            buffer_depth: self.buffer_depth,
            trigger_mode: self.trigger_mode,
            transport: self.transport,
        }
    }
}

} // verus!
