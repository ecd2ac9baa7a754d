//! 1 Hz telemetry counters of one stream: per-window counts (expected, lost,
//! bytes) settled into a loss rate and a bitrate once per second, cumulative
//! counts that never reset on a roll, and values set from outside.
//!
//! The latency and jitter sample windows and their percentiles are kept by the
//! caller, which hands the percentiles to `snapshot`.
use vstd::prelude::*;

use crate::clock::{clamp_i64, clamp_i64_spec};

verus! {

/// Capacity of the end-to-end latency sample window (24 s of 20 ms frames).
pub const DEFAULT_E2E_WINDOW: usize = 1_200;

/// Capacity of the jitter sample window.
pub const DEFAULT_JITTER_WINDOW: usize = 1_200;

/// Codec parameters reported with the stream.
#[derive(Debug, Clone, Copy, PartialEq, Eq, Structural)]
pub struct CodecStats {
    pub frame_ms: u32,
    pub channels: u8,
    pub complexity: u8,
}

/// The 1 Hz stream statistics.
#[derive(Debug, Clone, Copy, PartialEq, Eq, Structural)]
pub struct StreamStats {
    pub stream_id: u32,
    pub rtt_us: u32,
    pub jitter_us: u32,
    pub jitter_p95_us: u32,
    pub loss_pct_x100: u16,
    pub bitrate_bps: u32,
    pub codec: CodecStats,
    pub clock_offset_us: i32,
    pub drift_ppm: i32,
    pub buffer_level_us: u32,
    pub underruns: u32,
    pub plc_count: u32,
    pub nack_count: u32,
    pub e2e_latency_us: u32,
    pub late_drops: u32,
}

/// Counters of one stream.
#[derive(Debug, Clone, Copy, PartialEq, Eq, Structural)]
pub struct TelemetryAggregator {
    stream_id: u32,
    codec: CodecStats,
    window_expected: u32,
    window_lost: u32,
    window_bytes: u64,
    packets_received: u64,
    underruns: u32,
    late_drops: u32,
    plc_count: u32,
    nack_count: u32,
    rtt_us: u32,
    clock_offset_us: i32,
    drift_ppm: i32,
    buffer_level_us: u32,
    loss_pct_x100: u16,
    bitrate_bps: u32,
}

/// Abstract counters.
pub struct TelemetryModel {
    pub stream_id: u32,
    pub codec: CodecStats,
    /// Packets that should have arrived in this window (received or lost).
    pub window_expected: u32,
    pub window_lost: u32,
    pub window_bytes: u64,
    pub packets_received: u64,
    pub underruns: u32,
    pub late_drops: u32,
    pub plc_count: u32,
    pub nack_count: u32,
    pub rtt_us: u32,
    pub clock_offset_us: i32,
    pub drift_ppm: i32,
    pub buffer_level_us: u32,
    /// Loss rate settled by the last roll (percent × 100).
    pub loss_pct_x100: u16,
    /// Bitrate settled by the last roll (bps).
    pub bitrate_bps: u32,
}

impl View for TelemetryAggregator {
    type V = TelemetryModel;

    closed spec fn view(&self) -> TelemetryModel {
        TelemetryModel {
            stream_id: self.stream_id,
            codec: self.codec,
            window_expected: self.window_expected,
            window_lost: self.window_lost,
            window_bytes: self.window_bytes,
            packets_received: self.packets_received,
            underruns: self.underruns,
            late_drops: self.late_drops,
            plc_count: self.plc_count,
            nack_count: self.nack_count,
            rtt_us: self.rtt_us,
            clock_offset_us: self.clock_offset_us,
            drift_ppm: self.drift_ppm,
            buffer_level_us: self.buffer_level_us,
            loss_pct_x100: self.loss_pct_x100,
            bitrate_bps: self.bitrate_bps,
        }
    }
}

/// Saturating `u32` addition.
pub open spec fn add32(a: u32, b: u32) -> u32 {
    if a + b > u32::MAX { u32::MAX } else { (a + b) as u32 }
}

/// Saturating `u64` addition.
pub open spec fn add64(a: u64, b: int) -> u64 {
    if a + b > u64::MAX { u64::MAX } else { (a + b) as u64 }
}

/// Loss rate of a window (percent × 100): lost over expected, at most 100 %, 0 for an
/// empty window. The denominator is what should have arrived, so losses cannot shrink it.
pub open spec fn loss_rate(expected: u32, lost: u32) -> u16 {
    if expected == 0 {
        0
    } else {
        let scaled = (lost as int) * 10_000 / (expected as int);
        if scaled > 10_000 { 10_000 } else { scaled as u16 }
    }
}

/// Bitrate of a one-second window of `bytes` (bps), saturating.
pub open spec fn window_bitrate(bytes: u64) -> u32 {
    if bytes as int * 8 > u32::MAX { u32::MAX } else { (bytes * 8) as u32 }
}

/// Counters right after `new` or `reset`, with the given identity, codec and set values.
pub open spec fn cleared(m: TelemetryModel) -> TelemetryModel {
    TelemetryModel {
        window_expected: 0,
        window_lost: 0,
        window_bytes: 0,
        packets_received: 0,
        underruns: 0,
        late_drops: 0,
        plc_count: 0,
        nack_count: 0,
        loss_pct_x100: 0,
        bitrate_bps: 0,
        ..m
    }
}

/// The snapshot of the counters with the percentiles of the sample windows.
pub open spec fn snapshot_of(m: TelemetryModel, e2e_p50_us: u32, jitter_p50_us: u32, jitter_p95_us: u32) -> StreamStats {
    StreamStats {
        stream_id: m.stream_id,
        rtt_us: m.rtt_us,
        jitter_us: jitter_p50_us,
        jitter_p95_us,
        loss_pct_x100: m.loss_pct_x100,
        bitrate_bps: m.bitrate_bps,
        codec: m.codec,
        clock_offset_us: m.clock_offset_us,
        drift_ppm: m.drift_ppm,
        buffer_level_us: m.buffer_level_us,
        underruns: m.underruns,
        plc_count: m.plc_count,
        nack_count: m.nack_count,
        e2e_latency_us: e2e_p50_us,
        late_drops: m.late_drops,
    }
}

impl TelemetryAggregator {
    /// Zeroed counters for `stream_id`.
    pub fn new(stream_id: u32, codec: CodecStats) -> (r: Self)
        ensures
            r@ == cleared(r@),
            r@.stream_id == stream_id,
            r@.codec == codec,
            r@.rtt_us == 0 && r@.clock_offset_us == 0 && r@.drift_ppm == 0 && r@.buffer_level_us == 0,
    {
        TelemetryAggregator {
            stream_id,
            codec,
            window_expected: 0,
            window_lost: 0,
            window_bytes: 0,
            packets_received: 0,
            underruns: 0,
            late_drops: 0,
            plc_count: 0,
            nack_count: 0,
            rtt_us: 0,
            clock_offset_us: 0,
            drift_ppm: 0,
            buffer_level_us: 0,
            loss_pct_x100: 0,
            bitrate_bps: 0,
        }
    }

    pub fn stream_id(&self) -> (r: u32)
        ensures
            r == self@.stream_id,
    {
        self.stream_id
    }

    /// One packet should have arrived in this window (received or lost).
    pub fn record_expected(&mut self)
        ensures
            final(self)@ == (TelemetryModel {
                window_expected: add32(old(self)@.window_expected, 1),
                ..old(self)@
            }),
    {
        self.window_expected = self.window_expected.saturating_add(1);
    }

    /// A datagram with a payload of `payload_len` bytes arrived.
    pub fn record_received(&mut self, payload_len: usize)
        ensures
            final(self)@ == (TelemetryModel {
                packets_received: add64(old(self)@.packets_received, 1),
                window_bytes: add64(old(self)@.window_bytes, payload_len as int),
                ..old(self)@
            }),
    {
        self.packets_received = self.packets_received.saturating_add(1);
        self.window_bytes = self.window_bytes.saturating_add(payload_len as u64);
    }

    /// `count` datagrams are known lost.
    pub fn record_lost(&mut self, count: u32)
        ensures
            final(self)@ == (TelemetryModel { window_lost: add32(old(self)@.window_lost, count), ..old(self)@ }),
    {
        self.window_lost = self.window_lost.saturating_add(count);
    }

    /// One playout underrun.
    pub fn record_underrun(&mut self)
        ensures
            final(self)@ == (TelemetryModel { underruns: add32(old(self)@.underruns, 1), ..old(self)@ }),
    {
        self.record_underruns(1);
    }

    /// `count` missed playout ticks at once.
    pub fn record_underruns(&mut self, count: u32)
        ensures
            final(self)@ == (TelemetryModel { underruns: add32(old(self)@.underruns, count), ..old(self)@ }),
    {
        self.underruns = self.underruns.saturating_add(count);
    }

    /// One frame dropped as late.
    pub fn record_late_drop(&mut self)
        ensures
            final(self)@ == (TelemetryModel { late_drops: add32(old(self)@.late_drops, 1), ..old(self)@ }),
    {
        self.record_late_drops(1);
    }

    /// `count` frames dropped as late.
    pub fn record_late_drops(&mut self, count: u32)
        ensures
            final(self)@ == (TelemetryModel { late_drops: add32(old(self)@.late_drops, count), ..old(self)@ }),
    {
        self.late_drops = self.late_drops.saturating_add(count);
    }

    /// One packet loss concealment.
    pub fn record_plc(&mut self)
        ensures
            final(self)@ == (TelemetryModel { plc_count: add32(old(self)@.plc_count, 1), ..old(self)@ }),
    {
        self.plc_count = self.plc_count.saturating_add(1);
    }

    /// One retransmission request.
    pub fn record_nack(&mut self)
        ensures
            final(self)@ == (TelemetryModel { nack_count: add32(old(self)@.nack_count, 1), ..old(self)@ }),
    {
        self.nack_count = self.nack_count.saturating_add(1);
    }

    pub fn set_rtt_us(&mut self, rtt_us: u32)
        ensures
            final(self)@ == (TelemetryModel { rtt_us, ..old(self)@ }),
    {
        self.rtt_us = rtt_us;
    }

    pub fn set_clock(&mut self, offset_us: i32, drift_ppm: i32)
        ensures
            final(self)@ == (TelemetryModel { clock_offset_us: offset_us, drift_ppm, ..old(self)@ }),
    {
        self.clock_offset_us = offset_us;
        self.drift_ppm = drift_ppm;
    }

    pub fn set_buffer_level_us(&mut self, level_us: u32)
        ensures
            final(self)@ == (TelemetryModel { buffer_level_us: level_us, ..old(self)@ }),
    {
        self.buffer_level_us = level_us;
    }

    pub fn set_codec(&mut self, codec: CodecStats)
        ensures
            final(self)@ == (TelemetryModel { codec, ..old(self)@ }),
    {
        self.codec = codec;
    }

    /// Settle the one-second window: loss rate and bitrate of the window, window counts
    /// cleared, cumulative counts kept. Returns `(loss_pct_x100, bitrate_bps)`.
    pub fn roll(&mut self) -> (r: (u16, u32))
        ensures
            r == (loss_rate(old(self)@.window_expected, old(self)@.window_lost), window_bitrate(
                old(self)@.window_bytes,
            )),
            final(self)@ == (TelemetryModel {
                loss_pct_x100: r.0,
                bitrate_bps: r.1,
                window_expected: 0,
                window_lost: 0,
                window_bytes: 0,
                ..old(self)@
            }),
    {
        self.loss_pct_x100 = if self.window_expected == 0 {
            0
        } else {
            let scaled = (self.window_lost as u64) * 10_000 / (self.window_expected as u64);
            if scaled > 10_000 { 10_000 } else { scaled as u16 }
        };
        self.bitrate_bps = match self.window_bytes.checked_mul(8) {
            Some(bits) => if bits > u32::MAX as u64 { u32::MAX } else { bits as u32 },
            None => u32::MAX,
        };
        self.window_expected = 0;
        self.window_lost = 0;
        self.window_bytes = 0;
        (self.loss_pct_x100, self.bitrate_bps)
    }

    /// The statistics of this second; the latency and jitter percentiles come from the
    /// sample windows (0 when a window is empty).
    pub fn snapshot(&self, e2e_p50_us: u32, jitter_p50_us: u32, jitter_p95_us: u32) -> (r: StreamStats)
        ensures
            r == snapshot_of(self@, e2e_p50_us, jitter_p50_us, jitter_p95_us),
    {
        StreamStats {
            stream_id: self.stream_id,
            rtt_us: self.rtt_us,
            jitter_us: jitter_p50_us,
            jitter_p95_us,
            loss_pct_x100: self.loss_pct_x100,
            bitrate_bps: self.bitrate_bps,
            codec: self.codec,
            clock_offset_us: self.clock_offset_us,
            drift_ppm: self.drift_ppm,
            buffer_level_us: self.buffer_level_us,
            underruns: self.underruns,
            plc_count: self.plc_count,
            nack_count: self.nack_count,
            e2e_latency_us: e2e_p50_us,
            late_drops: self.late_drops,
        }
    }

    /// Packets received in total.
    pub fn packets_received(&self) -> (r: u64)
        ensures
            r == self@.packets_received,
    {
        self.packets_received
    }

    /// Clear every count (session rebuild); identity, codec and set values stay.
    pub fn reset(&mut self)
        ensures
            final(self)@ == cleared(old(self)@),
    {
        self.window_expected = 0;
        self.window_lost = 0;
        self.window_bytes = 0;
        self.packets_received = 0;
        self.underruns = 0;
        self.late_drops = 0;
        self.plc_count = 0;
        self.nack_count = 0;
        self.loss_pct_x100 = 0;
        self.bitrate_bps = 0;
    }
}

/// The loss rate is a share of what should have arrived: never above 100 %, exactly
/// `lost / expected` while at most every expected packet is lost, and 0 for an empty
/// window (no division by zero).
pub proof fn law_loss_rate_is_a_share_of_expected(expected: u32, lost: u32)
    ensures
        loss_rate(expected, lost) <= 10_000,
        expected == 0 ==> loss_rate(expected, lost) == 0,
        (expected > 0 && lost <= expected) ==> loss_rate(expected, lost) == (lost as int) * 10_000
            / (expected as int),
{
    if expected > 0 && lost <= expected {
        assert((lost as int) * 10_000 / (expected as int) <= 10_000) by (nonlinear_arith)
            requires
                0 <= lost <= expected,
                expected > 0,
        ;
    }
}

/// The part of a clock estimate that telemetry carries.
#[derive(Debug, Clone, Copy, PartialEq, Eq)]
pub struct ClockReading {
    /// Offset "peer minus local" (µs).
    pub offset_us: i64,
    /// Drift (ppm).
    pub drift_ppm: i32,
}

/// Publish the current clock estimate into telemetry: the offset clamped to `i32`.
/// Without an estimate (fewer than eight samples) the fields keep their value, so a
/// panel never shows a made-up zero as a converged estimate.
pub fn publish_clock(telemetry: &mut TelemetryAggregator, estimate: Option<ClockReading>)
    ensures
        match estimate {
            None => final(telemetry)@ == old(telemetry)@,
            Some(e) => final(telemetry)@ == (TelemetryModel {
                clock_offset_us: clamp_i64_spec(e.offset_us),
                drift_ppm: e.drift_ppm,
                ..old(telemetry)@
            }),
        },
{
    if let Some(e) = estimate {
        telemetry.set_clock(clamp_i64(e.offset_us), e.drift_ppm);
    }
}

} // verus!
