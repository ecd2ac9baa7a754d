//! The "no resampling" gate: a capture or playout device whose format is not
//! 48 kHz / 2 channels / f32 stops the link from starting, instead of being
//! converted silently. The refusal names the side, the device and the first
//! mismatching property, so the user knows which setting to change.
use vstd::prelude::*;
use vstd::string::*;

use crate::adaptive::{decimal, push_decimal};

verus! {

/// The only sample rate the link runs at (Hz).
pub const UNIFIED_SAMPLE_RATE_HZ: u32 = 48_000;

/// The only channel count the link runs with.
pub const UNIFIED_CHANNELS: u16 = 2;

/// Sample format of a device.
#[derive(Debug, Clone, Copy, PartialEq, Eq, Structural)]
pub enum SampleFormat {
    F32,
    I16,
    I24,
    I32,
}

/// Format a device runs with.
#[derive(Debug, Clone, Copy, PartialEq, Eq, Structural)]
pub struct DeviceFormat {
    pub sample_rate: u32,
    pub channels: u16,
    pub sample_format: SampleFormat,
}

impl DeviceFormat {
    pub fn new(sample_rate: u32, channels: u16, sample_format: SampleFormat) -> (r: Self)
        ensures
            r == (DeviceFormat { sample_rate, channels, sample_format }),
    {
        DeviceFormat { sample_rate, channels, sample_format }
    }
}

/// Which property of which device breaks the unified format; `role` is `"capture"` or
/// `"playout"`, `backend` the device implementation.
#[derive(Debug)]
pub enum FormatMismatch {
    /// The device runs at another sample rate (the one setting a user can fix).
    SampleRate { role: &'static str, backend: String, actual_hz: u32 },
    /// The device exposes another channel count.
    Channels { role: &'static str, backend: String, actual: u16 },
    /// The device delivers another sample format.
    SampleFormat { role: &'static str, backend: String, actual: SampleFormat },
}

/// What is checked, in order: sample rate, then channels, then sample format.
pub enum MismatchKind {
    SampleRate(u32),
    Channels(u16),
    SampleFormat(SampleFormat),
}

/// The first property of `format` that breaks the unified format, if any.
pub open spec fn first_mismatch(format: DeviceFormat) -> Option<MismatchKind> {
    if format.sample_rate != UNIFIED_SAMPLE_RATE_HZ {
        Some(MismatchKind::SampleRate(format.sample_rate))
    } else if format.channels != UNIFIED_CHANNELS {
        Some(MismatchKind::Channels(format.channels))
    } else if !(format.sample_format is F32) {
        Some(MismatchKind::SampleFormat(format.sample_format))
    } else {
        None
    }
}

/// Whether a refusal is the one for `role`, `backend` and the mismatch `kind`.
pub open spec fn describes(e: FormatMismatch, role: &'static str, backend: Seq<char>, kind: MismatchKind) -> bool {
    match (e, kind) {
        (FormatMismatch::SampleRate { role: r, backend: b, actual_hz }, MismatchKind::SampleRate(hz)) => r == role
            && b@ == backend && actual_hz == hz,
        (FormatMismatch::Channels { role: r, backend: b, actual }, MismatchKind::Channels(c)) => r == role && b@
            == backend && actual == c,
        (FormatMismatch::SampleFormat { role: r, backend: b, actual }, MismatchKind::SampleFormat(f)) => r == role
            && b@ == backend && actual == f,
        _ => false,
    }
}

/// Name of a sample format as the refusal text prints it.
pub open spec fn sample_format_name(f: SampleFormat) -> Seq<char> {
    match f {
        SampleFormat::F32 => "F32"@,
        SampleFormat::I16 => "I16"@,
        SampleFormat::I24 => "I24"@,
        SampleFormat::I32 => "I32"@,
    }
}

/// The text of a refusal: which side and device, what it runs, what is required, and
/// for the sample rate how to fix it and that nothing is resampled.
pub open spec fn mismatch_text(e: FormatMismatch) -> Seq<char> {
    match e {
        FormatMismatch::SampleRate { role, backend, actual_hz } => role@ + " device '"@ + backend@
            + "' runs at "@ + decimal(actual_hz as nat) + " Hz but AudioLink requires "@ + decimal(
            UNIFIED_SAMPLE_RATE_HZ as nat,
        )
            + " Hz; change the device's sample rate in the OS sound settings (AudioLink never resamples silently)"@,
        FormatMismatch::Channels { role, backend, actual } => role@ + " device '"@ + backend@ + "' exposes "@
            + decimal(actual as nat) + " channel(s) but AudioLink requires "@ + decimal(UNIFIED_CHANNELS as nat),
        FormatMismatch::SampleFormat { role, backend, actual } => role@ + " device '"@ + backend@
            + "' delivers "@ + sample_format_name(actual) + " samples but AudioLink requires f32"@,
    }
}

impl FormatMismatch {
    /// The refusal as the user reads it, see [`mismatch_text`].
    pub fn message(&self) -> (r: String)
        ensures
            r@ == mismatch_text(*self),
    {
        match self {
            FormatMismatch::SampleRate { role, backend, actual_hz } => {
                let mut s = String::from_str(role);
                s.append(" device '");
                s.append(backend.as_str());
                s.append("' runs at ");
                push_decimal(&mut s, *actual_hz);
                s.append(" Hz but AudioLink requires ");
                push_decimal(&mut s, UNIFIED_SAMPLE_RATE_HZ);
                s.append(
                    " Hz; change the device's sample rate in the OS sound settings (AudioLink never resamples silently)",
                );
                assert(s@ =~= mismatch_text(*self));
                s
            },
            FormatMismatch::Channels { role, backend, actual } => {
                let mut s = String::from_str(role);
                s.append(" device '");
                s.append(backend.as_str());
                s.append("' exposes ");
                push_decimal(&mut s, *actual as u32);
                s.append(" channel(s) but AudioLink requires ");
                push_decimal(&mut s, UNIFIED_CHANNELS as u32);
                assert(s@ =~= mismatch_text(*self));
                s
            },
            FormatMismatch::SampleFormat { role, backend, actual } => {
                let mut s = String::from_str(role);
                s.append(" device '");
                s.append(backend.as_str());
                s.append("' delivers ");
                match actual {
                    SampleFormat::F32 => s.append("F32"),
                    SampleFormat::I16 => s.append("I16"),
                    SampleFormat::I24 => s.append("I24"),
                    SampleFormat::I32 => s.append("I32"),
                }
                s.append(" samples but AudioLink requires f32");
                assert(s@ =~= mismatch_text(*self));
                s
            },
        }
    }
}

/// Check that a device runs the unified format; the first mismatch is refused, nothing is
/// converted.
pub fn require_unified_format(role: &'static str, backend: &str, format: DeviceFormat) -> (r: Result<
    (),
    FormatMismatch,
>)
    ensures
        match first_mismatch(format) {
            None => r is Ok,
            Some(kind) => r matches Err(e) && describes(e, role, backend@, kind),
        },
{
    if format.sample_rate != UNIFIED_SAMPLE_RATE_HZ {
        return Err(
            FormatMismatch::SampleRate {
                role,
                backend: String::from_str(backend),
                actual_hz: format.sample_rate,
            },
        );
    }
    if format.channels != UNIFIED_CHANNELS {
        return Err(
            FormatMismatch::Channels { role, backend: String::from_str(backend), actual: format.channels },
        );
    }
    match format.sample_format {
        SampleFormat::F32 => Ok(()),
        other => Err(FormatMismatch::SampleFormat { role, backend: String::from_str(backend), actual: other }),
    }
}

/// Check both ends of a link (either may be absent): capture first, then playout.
pub fn require_unified_link(
    capture: Option<(&'static str, DeviceFormat)>,
    playout: Option<(&'static str, DeviceFormat)>,
) -> (r: Result<(), FormatMismatch>)
    ensures
        match (capture, playout) {
            (Some((backend, format)), _) if first_mismatch(format) is Some => r matches Err(e) && describes(
                e,
                "capture",
                backend@,
                first_mismatch(format)->0,
            ),
            (_, Some((backend, format))) if first_mismatch(format) is Some => r matches Err(e) && describes(
                e,
                "playout",
                backend@,
                first_mismatch(format)->0,
            ),
            _ => r is Ok,
        },
{
    if let Some((backend, format)) = capture {
        match require_unified_format("capture", backend, format) {
            Ok(()) => {},
            Err(e) => {
                return Err(e);
            },
        }
    }
    if let Some((backend, format)) = playout {
        match require_unified_format("playout", backend, format) {
            Ok(()) => {},
            Err(e) => {
                return Err(e);
            },
        }
    }
    Ok(())
}

} // verus!
