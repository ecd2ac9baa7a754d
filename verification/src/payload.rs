//! Control frame payloads (field order is the wire order) and the codec choice.
use vstd::prelude::*;

verus! {

/// Capture source kind; unknown values are kept, never rejected.
#[derive(Debug, Clone, Copy, PartialEq, Eq)]
pub enum SourceKind {
    /// System loopback.
    SystemLoopback,
    /// Microphone.
    Microphone,
    /// Android playback capture.
    PlaybackCapture,
    /// A source introduced by a later version (raw value kept).
    Other(u8),
}

/// Wire value of a source kind.
pub open spec fn source_kind_value(s: SourceKind) -> u8 {
    match s {
        SourceKind::SystemLoopback => 0,
        SourceKind::Microphone => 1,
        SourceKind::PlaybackCapture => 2,
        SourceKind::Other(raw) => raw,
    }
}

impl SourceKind {
    /// Wire value.
    pub fn as_u8(self) -> (r: u8)
        ensures
            r == source_kind_value(self),
    {
        match self {
            SourceKind::SystemLoopback => 0,
            SourceKind::Microphone => 1,
            SourceKind::PlaybackCapture => 2,
            SourceKind::Other(raw) => raw,
        }
    }
}

/// Codec preference / negotiated codec.
#[derive(Debug, Clone, Copy, PartialEq, Eq)]
pub enum CodecPref {
    /// Opus.
    Opus {
        /// Frame length (ms): 10 / 20 / 40 / 60.
        frame_ms: u8,
        /// Target bitrate (kbps).
        bitrate_kbps: u16,
        /// In-band FEC.
        fec: bool,
        /// Variable bitrate.
        vbr: bool,
    },
    /// Lossless PCM16.
    Pcm16,
}

/// Frame lengths Opus streams may use (ms).
pub open spec fn valid_frame_ms(frame_ms: u8) -> bool {
    frame_ms == 10 || frame_ms == 20 || frame_ms == 40 || frame_ms == 60
}

/// Index of the first Opus entry at or after `from`, or `prefs.len()`.
pub open spec fn first_opus_from(prefs: Seq<CodecPref>, from: int) -> int
    decreases prefs.len() - from,
{
    if from >= prefs.len() {
        prefs.len() as int
    } else if prefs[from] is Opus {
        from
    } else {
        first_opus_from(prefs, from + 1)
    }
}

/// Negotiated frame length: the first Opus preference decides when its frame length is
/// valid; otherwise (no Opus entry, or an invalid first one) the local frame length.
pub open spec fn negotiated(prefs: Seq<CodecPref>, local_frame_ms: u32) -> u32 {
    let i = first_opus_from(prefs, 0);
    if i < prefs.len() && valid_frame_ms(prefs[i]->frame_ms) {
        prefs[i]->frame_ms as u32
    } else {
        local_frame_ms
    }
}

/// Frame length agreed from the sender's preference list (in priority order).
pub fn negotiated_frame_ms(prefs: &[CodecPref], local_frame_ms: u32) -> (r: u32)
    ensures
        r == negotiated(prefs@, local_frame_ms),
{
    let mut i: usize = 0;
    while i < prefs.len()
        invariant
            0 <= i <= prefs@.len(),
            first_opus_from(prefs@, 0) == first_opus_from(prefs@, i as int),
        decreases prefs@.len() - i,
    {
        match prefs[i] {
            CodecPref::Opus { frame_ms, .. } => {
                if frame_ms == 10 || frame_ms == 20 || frame_ms == 40 || frame_ms == 60 {
                    return frame_ms as u32;
                }
                return local_frame_ms;
            },
            CodecPref::Pcm16 => {},
        }
        i = i + 1;
    }
    local_frame_ms
}

/// `stream_id` wildcard of SET_GAIN / SET_MUTE.
pub const STREAM_ID_ALL: u32 = 0xFFFF_FFFF;

/// AUTH_CHALLENGE: a 32-byte nonce.
#[derive(Debug, Clone, PartialEq, Eq)]
pub struct AuthChallengePayload {
    pub nonce: Vec<u8>,
}

/// AUTH_RESPONSE: a DER ECDSA-P256 signature.
#[derive(Debug, Clone, PartialEq, Eq)]
pub struct AuthResponsePayload {
    pub signature: Vec<u8>,
}

/// PAIR_REQUIRED.
#[derive(Debug, Clone, Copy, PartialEq, Eq)]
pub struct PairRequiredPayload {
    pub pin_display: bool,
}

/// PAIR_SUBMIT: the 6 digit PIN.
#[derive(Debug, Clone, PartialEq, Eq)]
pub struct PairSubmitPayload {
    pub pin: String,
}

/// PAIR_RESULT.
#[derive(Debug, Clone, PartialEq, Eq)]
pub struct PairResultPayload {
    pub ok: bool,
    pub reason: String,
    pub persist: bool,
}

/// OPEN_STREAM.
#[derive(Debug, Clone, PartialEq, Eq)]
pub struct OpenStreamPayload {
    pub session_id: u32,
    pub source: SourceKind,
    /// Codec preferences in decreasing priority.
    pub codec_prefs: Vec<CodecPref>,
    pub target_rate_kbps: u32,
    pub channels: u8,
    pub group: Option<u32>,
}

/// OPEN_STREAM_ACK.
#[derive(Debug, Clone, PartialEq, Eq)]
pub struct OpenStreamAckPayload {
    pub session_id: u32,
    pub stream_id: u32,
    pub codec_chosen: CodecPref,
    pub epoch_id: u64,
    pub epoch_local_us: u64,
}

/// CLOSE_STREAM.
#[derive(Debug, Clone, PartialEq, Eq)]
pub struct CloseStreamPayload {
    pub stream_id: u32,
    pub reason: String,
}

/// GROUP_EPOCH: common time base of a sync group and the scheduling lead.
#[derive(Debug, Clone, Copy, PartialEq, Eq)]
pub struct GroupEpochPayload {
    pub epoch_id: u64,
    pub epoch_local_us: u64,
    pub lead_ms: u32,
}

/// SET_MUTE.
#[derive(Debug, Clone, Copy, PartialEq, Eq)]
pub struct SetMutePayload {
    pub stream_id: u32,
    pub mute: bool,
}

/// PING / PONG.
#[derive(Debug, Clone, Copy, PartialEq, Eq)]
pub struct PingPayload {
    pub t1: u64,
    pub t2: u64,
}

/// ERROR.
#[derive(Debug, Clone, PartialEq, Eq)]
pub struct ErrorPayload {
    pub code: u16,
    pub message: String,
    pub context: Option<String>,
}

/// BYE.
#[derive(Debug, Clone, PartialEq, Eq)]
pub struct ByePayload {
    pub reason: String,
}

} // verus!
