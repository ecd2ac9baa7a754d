//! The HELLO / HELLO_ACK handshake as a pure state machine: it takes one
//! decoded control request and answers with the frames to send and what to
//! tell the session. No I/O happens here.
//!
//! Three rules hold throughout:
//! 1. the peer's identity is the certificate fingerprint handed to `new`, never
//!    the id the peer reports about itself;
//! 2. a frame that does not belong to the current phase is ignored and counted,
//!    never fatal;
//! 3. a request carries a non-zero `request_id` (zero marks a one-way notice).
//!
//! Capability bitmaps combine bitwise: the agreed set is the intersection of
//! both sides, and the set missing from it is the required bits outside it.
use vstd::prelude::*;
use vstd::string::*;

verus! {

/// Longest peer name kept (characters); longer self-reported names are cut.
pub const MAX_PEER_NAME_CHARS: usize = 64;

/// Handshake role.
#[derive(Debug, Clone, Copy, PartialEq, Eq, Structural)]
pub enum Role {
    /// The side that connects (sends HELLO).
    Initiator,
    /// The side that accepts (answers HELLO).
    Responder,
}

/// Handshake phase.
#[derive(Debug, Clone, Copy, PartialEq, Eq, Structural)]
pub enum HandshakePhase {
    /// Not started.
    Idle,
    /// HELLO sent, waiting for HELLO_ACK.
    AwaitHelloAck,
    /// Kept for the frozen phase set; no transition enters it.
    AwaitPeer,
    /// Handshake complete.
    Established,
    /// Handshake failed (terminal).
    Failed,
}

/// Snapshot names of the phases.
pub open spec fn phase_name(p: HandshakePhase) -> Seq<char> {
    match p {
        HandshakePhase::Idle => "idle"@,
        HandshakePhase::AwaitHelloAck => "await-hello-ack"@,
        HandshakePhase::AwaitPeer => "await-peer"@,
        HandshakePhase::Established => "established"@,
        HandshakePhase::Failed => "failed"@,
    }
}

impl HandshakePhase {
    /// Snapshot name (logs, assertions).
    pub fn name(self) -> (r: &'static str)
        ensures
            r@ == phase_name(self),
    {
        match self {
            HandshakePhase::Idle => "idle",
            HandshakePhase::AwaitHelloAck => "await-hello-ack",
            HandshakePhase::AwaitPeer => "await-peer",
            HandshakePhase::Established => "established",
            HandshakePhase::Failed => "failed",
        }
    }
}

/// Protocol constants of this build: the protocol version, the capability bitmap declared
/// by default, the capabilities both sides must share, and the capability bits this build
/// knows.
#[derive(Debug, Clone, Copy, PartialEq, Eq, Structural)]
pub struct ProtocolProfile {
    pub proto_version: u16,
    pub current_caps: u32,
    pub required_caps: u32,
    pub known_caps: u32,
}

/// Node description exchanged in HELLO / HELLO_ACK.
#[derive(Debug)]
pub struct PeerInfo {
    /// Identity (certificate fingerprint).
    pub id: [u8; 32],
    /// Display name.
    pub name: String,
    /// Platform code.
    pub platform: u8,
    /// Node capability bits.
    pub caps: u32,
    /// Protocol version the node reports.
    pub proto_version: u16,
}

/// Abstract node description.
pub struct PeerModel {
    pub id: [u8; 32],
    pub name: Seq<char>,
    pub platform: u8,
    pub caps: u32,
    pub proto_version: u16,
}

impl View for PeerInfo {
    type V = PeerModel;

    open spec fn view(&self) -> PeerModel {
        PeerModel {
            id: self.id,
            name: self.name@,
            platform: self.platform,
            caps: self.caps,
            proto_version: self.proto_version,
        }
    }
}

/// What is kept of a self-reported node description: the identity is replaced by the
/// certificate fingerprint, unknown capability bits are cleared, and the name is cut to
/// `MAX_PEER_NAME_CHARS` characters.
pub open spec fn certified(reported: PeerModel, peer_id: [u8; 32], known_caps: u32) -> PeerModel {
    PeerModel {
        id: peer_id,
        name: if reported.name.len() > MAX_PEER_NAME_CHARS {
            reported.name.take(MAX_PEER_NAME_CHARS as int)
        } else {
            reported.name
        },
        platform: reported.platform,
        caps: reported.caps & known_caps,
        proto_version: reported.proto_version,
    }
}

/// Why a handshake was refused.
#[derive(Debug)]
pub enum RejectReason {
    /// HELLO received while our own HELLO is outstanding: both sides connected at once.
    Busy,
    /// The peer's HELLO carries another protocol version (answered with a refusing ACK).
    VersionRefused { peer_version: u16, local_version: u16 },
    /// The capabilities both sides share lack required bits (answered with a refusing ACK).
    CapabilitiesRefused { missing: u32, local_caps: u32, peer_caps: u32 },
    /// The peer's HELLO_ACK refused the connection.
    PeerRejected { reason: String },
    /// The peer's HELLO_ACK carries another protocol version.
    AckVersionMismatch { peer_version: u16, local_version: u16 },
    /// The agreed capabilities computed here differ from those the peer reported.
    AckCapabilityMismatch { local_agreed: u32, peer_agreed: u32 },
    /// The agreed capabilities lack required bits.
    AckCapabilitiesMissing { missing: u32 },
    /// The peer sent an error frame.
    PeerError { code: u16, message: String },
    /// The peer said bye.
    PeerBye { reason: String },
}

/// Abstract refusal reason.
pub enum RejectModel {
    Busy,
    VersionRefused { peer_version: u16, local_version: u16 },
    CapabilitiesRefused { missing: u32, local_caps: u32, peer_caps: u32 },
    PeerRejected { reason: Seq<char> },
    AckVersionMismatch { peer_version: u16, local_version: u16 },
    AckCapabilityMismatch { local_agreed: u32, peer_agreed: u32 },
    AckCapabilitiesMissing { missing: u32 },
    PeerError { code: u16, message: Seq<char> },
    PeerBye { reason: Seq<char> },
}

impl View for RejectReason {
    type V = RejectModel;

    open spec fn view(&self) -> RejectModel {
        match self {
            RejectReason::Busy => RejectModel::Busy,
            RejectReason::VersionRefused { peer_version, local_version } => RejectModel::VersionRefused {
                peer_version: *peer_version,
                local_version: *local_version,
            },
            RejectReason::CapabilitiesRefused { missing, local_caps, peer_caps } => RejectModel::CapabilitiesRefused {
                missing: *missing,
                local_caps: *local_caps,
                peer_caps: *peer_caps,
            },
            RejectReason::PeerRejected { reason } => RejectModel::PeerRejected { reason: reason@ },
            RejectReason::AckVersionMismatch { peer_version, local_version } => RejectModel::AckVersionMismatch {
                peer_version: *peer_version,
                local_version: *local_version,
            },
            RejectReason::AckCapabilityMismatch { local_agreed, peer_agreed } => RejectModel::AckCapabilityMismatch {
                local_agreed: *local_agreed,
                peer_agreed: *peer_agreed,
            },
            RejectReason::AckCapabilitiesMissing { missing } => RejectModel::AckCapabilitiesMissing { missing: *missing },
            RejectReason::PeerError { code, message } => RejectModel::PeerError { code: *code, message: message@ },
            RejectReason::PeerBye { reason } => RejectModel::PeerBye { reason: reason@ },
        }
    }
}

/// A handshake frame to send.
#[derive(Debug)]
pub enum HandshakeFrame {
    /// HELLO: protocol version, local node, connection nonce, local capabilities.
    Hello { proto_version: u16, node: PeerInfo, nonce: [u8; 32], caps: u32 },
    /// HELLO_ACK: protocol version, local node, verdict (with its reason when refused),
    /// local capabilities and the agreed set (0 when refused).
    HelloAck {
        proto_version: u16,
        node: PeerInfo,
        accepted: bool,
        rejection: Option<RejectReason>,
        caps: u32,
        agreed_caps: u32,
    },
}

/// Abstract frame.
pub enum FrameModel {
    Hello { proto_version: u16, node: PeerModel, nonce: [u8; 32], caps: u32 },
    HelloAck {
        proto_version: u16,
        node: PeerModel,
        accepted: bool,
        rejection: Option<RejectModel>,
        caps: u32,
        agreed_caps: u32,
    },
}

impl View for HandshakeFrame {
    type V = FrameModel;

    open spec fn view(&self) -> FrameModel {
        match self {
            HandshakeFrame::Hello { proto_version, node, nonce, caps } => FrameModel::Hello {
                proto_version: *proto_version,
                node: node@,
                nonce: *nonce,
                caps: *caps,
            },
            HandshakeFrame::HelloAck { proto_version, node, accepted, rejection, caps, agreed_caps } => FrameModel::HelloAck {
                proto_version: *proto_version,
                node: node@,
                accepted: *accepted,
                rejection: match rejection {
                    Some(r) => Some(r@),
                    None => None,
                },
                caps: *caps,
                agreed_caps: *agreed_caps,
            },
        }
    }
}

/// A frame with its `request_id`: non-zero for a request, 0 for a one-way notice.
#[derive(Debug)]
pub struct Outgoing {
    pub frame: HandshakeFrame,
    pub request_id: u32,
}

/// Abstract outgoing frame.
pub struct OutgoingModel {
    pub frame: FrameModel,
    pub request_id: u32,
}

impl View for Outgoing {
    type V = OutgoingModel;

    open spec fn view(&self) -> OutgoingModel {
        OutgoingModel { frame: self.frame@, request_id: self.request_id }
    }
}

impl Outgoing {
    /// A one-way notice (`request_id` 0).
    pub fn notice(frame: HandshakeFrame) -> (r: Self)
        ensures
            r.frame == frame,
            r.request_id == 0,
    {
        Outgoing { frame, request_id: 0 }
    }

    /// A request with the given `request_id`.
    pub fn request(frame: HandshakeFrame, request_id: u32) -> (r: Self)
        ensures
            r.frame == frame,
            r.request_id == request_id,
    {
        Outgoing { frame, request_id }
    }
}

/// What the session is told besides the frames to send.
#[derive(Debug)]
pub enum HandshakeEvent {
    /// Nothing to report (frames were queued, or nothing happened).
    Nothing,
    /// Handshake complete.
    Established { peer: PeerInfo, local_caps: u32, peer_caps: u32, agreed_caps: u32 },
    /// Handshake failed (terminal).
    Rejected { reason: RejectReason },
    /// A frame unrelated to this phase was ignored and counted; the connection goes on.
    Ignored,
}

/// Abstract event.
pub enum EventModel {
    Nothing,
    Established { peer: PeerModel, local_caps: u32, peer_caps: u32, agreed_caps: u32 },
    Rejected { reason: RejectModel },
    Ignored,
}

impl View for HandshakeEvent {
    type V = EventModel;

    open spec fn view(&self) -> EventModel {
        match self {
            HandshakeEvent::Nothing => EventModel::Nothing,
            HandshakeEvent::Established { peer, local_caps, peer_caps, agreed_caps } => EventModel::Established {
                peer: peer@,
                local_caps: *local_caps,
                peer_caps: *peer_caps,
                agreed_caps: *agreed_caps,
            },
            HandshakeEvent::Rejected { reason } => EventModel::Rejected { reason: reason@ },
            HandshakeEvent::Ignored => EventModel::Ignored,
        }
    }
}

/// The complete product of one step: frames to send, in order, and the event.
#[derive(Debug)]
pub struct HandshakeStep {
    pub send: Vec<Outgoing>,
    pub event: HandshakeEvent,
}

/// Abstract step.
pub struct StepModel {
    pub send: Seq<OutgoingModel>,
    pub event: EventModel,
}

impl View for HandshakeStep {
    type V = StepModel;

    open spec fn view(&self) -> StepModel {
        StepModel { send: self.send@.map_values(|o: Outgoing| o@), event: self.event@ }
    }
}

impl HandshakeStep {
    /// Nothing to send, nothing to report.
    pub fn nothing() -> (r: Self)
        ensures
            r@ == (StepModel { send: Seq::empty(), event: EventModel::Nothing }),
    {
        let r = HandshakeStep { send: Vec::new(), event: HandshakeEvent::Nothing };
        proof {
            assert(r@.send =~= Seq::<OutgoingModel>::empty());
        }
        r
    }

    /// Only frames to send.
    pub fn sending(send: Vec<Outgoing>) -> (r: Self)
        ensures
            r.send == send,
            r.event is Nothing,
    {
        HandshakeStep { send, event: HandshakeEvent::Nothing }
    }

    /// An ignored frame: nothing sent.
    pub fn ignored() -> (r: Self)
        ensures
            r@ == (StepModel { send: Seq::empty(), event: EventModel::Ignored }),
    {
        let r = HandshakeStep { send: Vec::new(), event: HandshakeEvent::Ignored };
        proof {
            assert(r@.send =~= Seq::<OutgoingModel>::empty());
        }
        r
    }

    /// The same frames with `event` attached.
    pub fn with_event(self, event: HandshakeEvent) -> (r: Self)
        ensures
            r.send == self.send,
            r.event == event,
    {
        HandshakeStep { send: self.send, event }
    }
}

/// A decoded control request received during the handshake.
#[derive(Debug)]
pub enum HandshakeInput {
    /// HELLO: protocol version, reported node, capabilities.
    Hello { proto_version: u16, node: PeerInfo, caps: u32 },
    /// HELLO_ACK.
    HelloAck {
        proto_version: u16,
        node: PeerInfo,
        accepted: bool,
        reason: String,
        caps: u32,
        agreed_caps: u32,
    },
    /// An error frame.
    Error { code: u16, message: String },
    /// BYE.
    Bye { reason: String },
    /// Any other control request (PING, telemetry, commands of later milestones...).
    Other,
}

/// Abstract input.
pub enum InputModel {
    Hello { proto_version: u16, node: PeerModel, caps: u32 },
    HelloAck {
        proto_version: u16,
        node: PeerModel,
        accepted: bool,
        reason: Seq<char>,
        caps: u32,
        agreed_caps: u32,
    },
    Error { code: u16, message: Seq<char> },
    Bye { reason: Seq<char> },
    Other,
}

impl View for HandshakeInput {
    type V = InputModel;

    open spec fn view(&self) -> InputModel {
        match self {
            HandshakeInput::Hello { proto_version, node, caps } => InputModel::Hello {
                proto_version: *proto_version,
                node: node@,
                caps: *caps,
            },
            HandshakeInput::HelloAck { proto_version, node, accepted, reason, caps, agreed_caps } => InputModel::HelloAck {
                proto_version: *proto_version,
                node: node@,
                accepted: *accepted,
                reason: reason@,
                caps: *caps,
                agreed_caps: *agreed_caps,
            },
            HandshakeInput::Error { code, message } => InputModel::Error { code: *code, message: message@ },
            HandshakeInput::Bye { reason } => InputModel::Bye { reason: reason@ },
            HandshakeInput::Other => InputModel::Other,
        }
    }
}

/// The handshake state machine.
#[derive(Debug)]
pub struct Handshake {
    role: Role,
    phase: HandshakePhase,
    profile: ProtocolProfile,
    local: PeerInfo,
    peer_id: [u8; 32],
    peer: Option<PeerInfo>,
    local_nonce: [u8; 32],
    next_request_id: u32,
    pending_request_id: u32,
    ignored_frames: u64,
    local_caps: u32,
    agreed_caps: u32,
    peer_caps: u32,
}

/// Abstract handshake state.
pub struct HandshakeModel {
    pub role: Role,
    pub phase: HandshakePhase,
    pub profile: ProtocolProfile,
    pub local: PeerModel,
    /// Certificate fingerprint of the peer.
    pub peer_id: [u8; 32],
    /// Certified description of the peer, once one arrived.
    pub peer: Option<PeerModel>,
    pub local_nonce: [u8; 32],
    /// Last `request_id` handed out (0 = none yet).
    pub next_request_id: u32,
    /// `request_id` awaiting an answer (0 = none).
    pub pending_request_id: u32,
    pub ignored_frames: u64,
    pub local_caps: u32,
    /// Agreed capabilities; 0 until HELLO / HELLO_ACK succeeded.
    pub agreed_caps: u32,
    pub peer_caps: u32,
}

impl View for Handshake {
    type V = HandshakeModel;

    closed spec fn view(&self) -> HandshakeModel {
        HandshakeModel {
            role: self.role,
            phase: self.phase,
            profile: self.profile,
            local: self.local@,
            peer_id: self.peer_id,
            peer: match self.peer {
                Some(p) => Some(p@),
                None => None,
            },
            local_nonce: self.local_nonce,
            next_request_id: self.next_request_id,
            pending_request_id: self.pending_request_id,
            ignored_frames: self.ignored_frames,
            local_caps: self.local_caps,
            agreed_caps: self.agreed_caps,
            peer_caps: self.peer_caps,
        }
    }
}

/// The next `request_id`: counts up from 1 and skips 0 when it wraps.
pub open spec fn next_request_id(last: u32) -> u32 {
    if last == u32::MAX { 1 } else { (last + 1) as u32 }
}

/// Saturating `u64` increment.
pub open spec fn inc_frames(x: u64) -> u64 {
    if x == u64::MAX { u64::MAX } else { (x + 1) as u64 }
}

/// The model after ignoring a frame, with the ignored step.
pub open spec fn ignore_step(m: HandshakeModel) -> (HandshakeModel, StepModel) {
    (
        HandshakeModel { ignored_frames: inc_frames(m.ignored_frames), ..m },
        StepModel { send: Seq::empty(), event: EventModel::Ignored },
    )
}

/// The model after a failure, with the rejecting step.
pub open spec fn fail_step(m: HandshakeModel, reason: RejectModel) -> (HandshakeModel, StepModel) {
    (
        HandshakeModel { phase: HandshakePhase::Failed, ..m },
        StepModel { send: Seq::empty(), event: EventModel::Rejected { reason } },
    )
}

/// A HELLO_ACK notice sent by the responder.
pub open spec fn ack_notice(
    m: HandshakeModel,
    accepted: bool,
    rejection: Option<RejectModel>,
    caps: u32,
    agreed_caps: u32,
) -> OutgoingModel {
    OutgoingModel {
        frame: FrameModel::HelloAck {
            proto_version: m.profile.proto_version,
            node: m.local,
            accepted,
            rejection,
            caps,
            agreed_caps,
        },
        request_id: 0,
    }
}

/// Step of `start`: the initiator sends HELLO as a request; anything else does nothing.
pub open spec fn start_step(m: HandshakeModel) -> (HandshakeModel, StepModel) {
    if !(m.role is Initiator) || !(m.phase is Idle) {
        (m, StepModel { send: Seq::empty(), event: EventModel::Nothing })
    } else {
        let id = next_request_id(m.next_request_id);
        (
            HandshakeModel {
                phase: HandshakePhase::AwaitHelloAck,
                next_request_id: id,
                pending_request_id: 0,
                ..m
            },
            StepModel {
                send: seq![
                    OutgoingModel {
                        frame: FrameModel::Hello {
                            proto_version: m.profile.proto_version,
                            node: m.local,
                            nonce: m.local_nonce,
                            caps: m.local_caps,
                        },
                        request_id: id,
                    },
                ],
                event: EventModel::Nothing,
            },
        )
    }
}

/// Step for a HELLO.
pub open spec fn hello_step(m: HandshakeModel, proto_version: u16, node: PeerModel, caps: u32) -> (
    HandshakeModel,
    StepModel,
) {
    if !(m.role is Responder) || !(m.phase is Idle) {
        if m.role is Initiator && m.phase is AwaitHelloAck {
            fail_step(m, RejectModel::Busy)
        } else {
            ignore_step(m)
        }
    } else {
        let peer = certified(node, m.peer_id, m.profile.known_caps);
        let m1 = HandshakeModel { peer: Some(peer), ..m };
        let agreed = m.local_caps & caps;
        let missing = m.profile.required_caps & !agreed;
        if proto_version != m.profile.proto_version {
            let reason = RejectModel::VersionRefused { peer_version: proto_version, local_version: m.profile.proto_version };
            (
                HandshakeModel { phase: HandshakePhase::Failed, ..m1 },
                StepModel {
                    send: seq![ack_notice(m, false, Some(reason), m.profile.current_caps, 0)],
                    event: EventModel::Rejected { reason },
                },
            )
        } else if missing != 0 {
            let reason = RejectModel::CapabilitiesRefused { missing, local_caps: m.local_caps, peer_caps: caps };
            (
                HandshakeModel { phase: HandshakePhase::Failed, ..m1 },
                StepModel {
                    send: seq![ack_notice(m, false, Some(reason), m.local_caps, 0)],
                    event: EventModel::Rejected { reason },
                },
            )
        } else {
            (
                HandshakeModel {
                    phase: HandshakePhase::Established,
                    agreed_caps: agreed,
                    peer_caps: caps,
                    ..m1
                },
                StepModel {
                    send: seq![ack_notice(m, true, None, m.local_caps, agreed)],
                    event: EventModel::Established {
                        peer,
                        local_caps: m.local_caps,
                        peer_caps: caps,
                        agreed_caps: agreed,
                    },
                },
            )
        }
    }
}

/// Step for a HELLO_ACK.
pub open spec fn hello_ack_step(
    m: HandshakeModel,
    proto_version: u16,
    node: PeerModel,
    accepted: bool,
    reason: Seq<char>,
    caps: u32,
    agreed_caps: u32,
) -> (HandshakeModel, StepModel) {
    if !(m.role is Initiator) || !(m.phase is AwaitHelloAck) {
        ignore_step(m)
    } else {
        let peer = certified(node, m.peer_id, m.profile.known_caps);
        let m1 = HandshakeModel { peer: Some(peer), ..m };
        let agreed = m.local_caps & caps;
        if !accepted {
            fail_step(m1, RejectModel::PeerRejected { reason })
        } else if proto_version != m.profile.proto_version {
            fail_step(m1, RejectModel::AckVersionMismatch { peer_version: proto_version, local_version: m.profile.proto_version })
        } else if agreed != agreed_caps {
            fail_step(m1, RejectModel::AckCapabilityMismatch { local_agreed: agreed, peer_agreed: agreed_caps })
        } else if m.profile.required_caps & !agreed != 0 {
            fail_step(m1, RejectModel::AckCapabilitiesMissing { missing: m.profile.required_caps & !agreed })
        } else {
            (
                HandshakeModel {
                    phase: HandshakePhase::Established,
                    agreed_caps: agreed,
                    peer_caps: caps,
                    ..m1
                },
                StepModel {
                    send: Seq::empty(),
                    event: EventModel::Established {
                        peer,
                        local_caps: m.local_caps,
                        peer_caps: caps,
                        agreed_caps: agreed,
                    },
                },
            )
        }
    }
}

/// Step for any received control request.
pub open spec fn control_step(m: HandshakeModel, input: InputModel) -> (HandshakeModel, StepModel) {
    match input {
        InputModel::Hello { proto_version, node, caps } => hello_step(m, proto_version, node, caps),
        InputModel::HelloAck { proto_version, node, accepted, reason, caps, agreed_caps } => hello_ack_step(
            m,
            proto_version,
            node,
            accepted,
            reason,
            caps,
            agreed_caps,
        ),
        InputModel::Error { code, message } => fail_step(m, RejectModel::PeerError { code, message }),
        InputModel::Bye { reason } => fail_step(m, RejectModel::PeerBye { reason }),
        InputModel::Other => ignore_step(m),
    }
}

/// `rand::Rng::fill` on `rand::rng()` (the thread-local generator, seeded by the OS):
/// 32 random bytes. Nothing is stated about their value; the generator panics only when the
/// operating system cannot provide entropy to seed it.
#[verifier::external_body]
fn random_nonce() -> (r: [u8; 32]) {
    let mut nonce = [0u8; 32];
    rand::Rng::fill(&mut rand::rng(), &mut nonce);
    nonce
}

/// A copy of a node description.
fn copy_info(info: &PeerInfo) -> (r: PeerInfo)
    ensures
        r@ == info@,
{
    PeerInfo {
        id: info.id,
        name: String::from_str(info.name.as_str()),
        platform: info.platform,
        caps: info.caps,
        proto_version: info.proto_version,
    }
}

impl Handshake {
    /// A handshake in `Idle` with a fresh random nonce. `peer_id` must be the fingerprint of
    /// the peer's certificate, never the id the peer reports.
    pub fn new(role: Role, local: PeerInfo, peer_id: [u8; 32], profile: ProtocolProfile) -> (r: Self)
        ensures
            r@.role == role,
            r@.phase is Idle,
            r@.profile == profile,
            r@.local == local@,
            r@.peer_id == peer_id,
            r@.peer is None,
            r@.next_request_id == 0,
            r@.pending_request_id == 0,
            r@.ignored_frames == 0,
            r@.local_caps == profile.current_caps,
            r@.agreed_caps == 0,
            r@.peer_caps == 0,
    {
        Handshake {
            role,
            phase: HandshakePhase::Idle,
            profile,
            local,
            peer_id,
            peer: None,
            local_nonce: random_nonce(),
            next_request_id: 0,
            pending_request_id: 0,
            ignored_frames: 0,
            local_caps: profile.current_caps,
            agreed_caps: 0,
            peer_caps: 0,
        }
    }

    /// Declare another local capability bitmap.
    pub fn with_capabilities(self, caps: u32) -> (r: Self)
        ensures
            r@ == (HandshakeModel { local_caps: caps, ..self@ }),
    {
        let mut s = self;
        s.local_caps = caps;
        s
    }

    /// Agreed capabilities (0 before a successful HELLO exchange).
    pub fn agreed_caps(&self) -> (r: u32)
        ensures
            r == self@.agreed_caps,
    {
        self.agreed_caps
    }

    pub fn phase(&self) -> (r: HandshakePhase)
        ensures
            r == self@.phase,
    {
        self.phase
    }

    pub fn role(&self) -> (r: Role)
        ensures
            r == self@.role,
    {
        self.role
    }

    /// Certified description of the peer (after HELLO / HELLO_ACK arrived).
    pub fn peer(&self) -> (r: Option<&PeerInfo>)
        ensures
            match r {
                Some(p) => self@.peer == Some(p@),
                None => self@.peer is None,
            },
    {
        match &self.peer {
            Some(p) => Some(p),
            None => None,
        }
    }

    /// Certificate fingerprint of the peer.
    pub fn peer_id(&self) -> (r: [u8; 32])
        ensures
            r == self@.peer_id,
    {
        self.peer_id
    }

    pub fn is_established(&self) -> (r: bool)
        ensures
            r == (self@.phase is Established),
    {
        match self.phase {
            HandshakePhase::Established => true,
            _ => false,
        }
    }

    /// Frames ignored so far.
    pub fn ignored_frames(&self) -> (r: u64)
        ensures
            r == self@.ignored_frames,
    {
        self.ignored_frames
    }

    /// First move: the initiator sends HELLO; the responder waits for the peer.
    pub fn start(&mut self) -> (r: HandshakeStep)
        ensures
            (final(self)@, r@) == start_step(old(self)@),
    {
        let is_initiator = match self.role {
            Role::Initiator => true,
            Role::Responder => false,
        };
        let is_idle = match self.phase {
            HandshakePhase::Idle => true,
            _ => false,
        };
        if !is_initiator || !is_idle {
            return HandshakeStep::nothing();
        }
        let frame = HandshakeFrame::Hello {
            proto_version: self.profile.proto_version,
            node: copy_info(&self.local),
            nonce: self.local_nonce,
            caps: self.local_caps,
        };
        self.phase = HandshakePhase::AwaitHelloAck;
        let request_id = self.issue_request_id();
        self.pending_request_id = 0;
        let mut send: Vec<Outgoing> = Vec::new();
        send.push(Outgoing::request(frame, request_id));
        let r = HandshakeStep::sending(send);
        proof {
            assert(r@.send =~= start_step(old(self)@).1.send);
        }
        r
    }

    /// Handle one received control request.
    pub fn on_control(&mut self, request: HandshakeInput) -> (r: HandshakeStep)
        ensures
            (final(self)@, r@) == control_step(old(self)@, request@),
    {
        match request {
            HandshakeInput::Hello { proto_version, node, caps } => self.on_hello(proto_version, node, caps),
            HandshakeInput::HelloAck { proto_version, node, accepted, reason, caps, agreed_caps } => self.on_hello_ack(
                proto_version,
                node,
                accepted,
                reason,
                caps,
                agreed_caps,
            ),
            HandshakeInput::Error { code, message } => self.fail(RejectReason::PeerError { code, message }),
            HandshakeInput::Bye { reason } => self.fail(RejectReason::PeerBye { reason }),
            HandshakeInput::Other => self.ignore(),
        }
    }

    fn on_hello(&mut self, proto_version: u16, node: PeerInfo, caps: u32) -> (r: HandshakeStep)
        ensures
            (final(self)@, r@) == hello_step(old(self)@, proto_version, node@, caps),
    {
        let responder_idle = match (self.role, self.phase) {
            (Role::Responder, HandshakePhase::Idle) => true,
            _ => false,
        };
        if !responder_idle {
            let crossed = match (self.role, self.phase) {
                (Role::Initiator, HandshakePhase::AwaitHelloAck) => true,
                _ => false,
            };
            if crossed {
                return self.fail(RejectReason::Busy);
            }
            return self.ignore();
        }
        let certified_peer = self.certified_peer_info(&node);
        let event_peer = copy_info(&certified_peer);
        self.peer = Some(certified_peer);
        let local_version = self.profile.proto_version;
        if proto_version != local_version {
            let frame = HandshakeFrame::HelloAck {
                proto_version: local_version,
                node: copy_info(&self.local),
                accepted: false,
                rejection: Some(RejectReason::VersionRefused { peer_version: proto_version, local_version }),
                caps: self.profile.current_caps,
                agreed_caps: 0,
            };
            self.phase = HandshakePhase::Failed;
            let mut send: Vec<Outgoing> = Vec::new();
            send.push(Outgoing::notice(frame));
            let r = HandshakeStep::sending(send).with_event(
                HandshakeEvent::Rejected {
                    reason: RejectReason::VersionRefused { peer_version: proto_version, local_version },
                },
            );
            proof {
                assert(r@.send =~= hello_step(old(self)@, proto_version, node@, caps).1.send);
            }
            return r;
        }
        let agreed = self.local_caps & caps;
        let missing = self.profile.required_caps & !agreed;
        if missing != 0 {
            let local_caps = self.local_caps;
            let frame = HandshakeFrame::HelloAck {
                proto_version: local_version,
                node: copy_info(&self.local),
                accepted: false,
                rejection: Some(RejectReason::CapabilitiesRefused { missing, local_caps, peer_caps: caps }),
                caps: local_caps,
                agreed_caps: 0,
            };
            self.phase = HandshakePhase::Failed;
            let mut send: Vec<Outgoing> = Vec::new();
            send.push(Outgoing::notice(frame));
            let r = HandshakeStep::sending(send).with_event(
                HandshakeEvent::Rejected {
                    reason: RejectReason::CapabilitiesRefused { missing, local_caps, peer_caps: caps },
                },
            );
            proof {
                assert(r@.send =~= hello_step(old(self)@, proto_version, node@, caps).1.send);
            }
            return r;
        }
        self.agreed_caps = agreed;
        self.peer_caps = caps;
        let frame = HandshakeFrame::HelloAck {
            proto_version: local_version,
            node: copy_info(&self.local),
            accepted: true,
            rejection: None,
            caps: self.local_caps,
            agreed_caps: agreed,
        };
        self.phase = HandshakePhase::Established;
        let mut send: Vec<Outgoing> = Vec::new();
        send.push(Outgoing::notice(frame));
        let r = HandshakeStep::sending(send).with_event(
            HandshakeEvent::Established {
                peer: event_peer,
                local_caps: self.local_caps,
                peer_caps: self.peer_caps,
                agreed_caps: self.agreed_caps,
            },
        );
        proof {
            assert(r@.send =~= hello_step(old(self)@, proto_version, node@, caps).1.send);
        }
        r
    }

    fn on_hello_ack(
        &mut self,
        proto_version: u16,
        node: PeerInfo,
        accepted: bool,
        reason: String,
        caps: u32,
        agreed_caps: u32,
    ) -> (r: HandshakeStep)
        ensures
            (final(self)@, r@) == hello_ack_step(
                old(self)@,
                proto_version,
                node@,
                accepted,
                reason@,
                caps,
                agreed_caps,
            ),
    {
        let initiator_waiting = match (self.role, self.phase) {
            (Role::Initiator, HandshakePhase::AwaitHelloAck) => true,
            _ => false,
        };
        if !initiator_waiting {
            return self.ignore();
        }
        let certified_peer = self.certified_peer_info(&node);
        let event_peer = copy_info(&certified_peer);
        self.peer = Some(certified_peer);
        if !accepted {
            return self.fail(RejectReason::PeerRejected { reason });
        }
        let local_version = self.profile.proto_version;
        if proto_version != local_version {
            return self.fail(RejectReason::AckVersionMismatch { peer_version: proto_version, local_version });
        }
        let agreed = self.local_caps & caps;
        if agreed != agreed_caps {
            return self.fail(RejectReason::AckCapabilityMismatch { local_agreed: agreed, peer_agreed: agreed_caps });
        }
        let missing = self.profile.required_caps & !agreed;
        if missing != 0 {
            return self.fail(RejectReason::AckCapabilitiesMissing { missing });
        }
        self.agreed_caps = agreed;
        self.peer_caps = caps;
        self.phase = HandshakePhase::Established;
        HandshakeStep::nothing().with_event(
            HandshakeEvent::Established {
                peer: event_peer,
                local_caps: self.local_caps,
                peer_caps: self.peer_caps,
                agreed_caps: self.agreed_caps,
            },
        )
    }

    fn ignore(&mut self) -> (r: HandshakeStep)
        ensures
            (final(self)@, r@) == ignore_step(old(self)@),
    {
        self.ignored_frames = self.ignored_frames.saturating_add(1);
        HandshakeStep::ignored()
    }

    fn fail(&mut self, reason: RejectReason) -> (r: HandshakeStep)
        ensures
            (final(self)@, r@) == fail_step(old(self)@, reason@),
    {
        self.phase = HandshakePhase::Failed;
        HandshakeStep::nothing().with_event(HandshakeEvent::Rejected { reason })
    }

    fn issue_request_id(&mut self) -> (r: u32)
        ensures
            r == next_request_id(old(self)@.next_request_id),
            final(self)@ == (HandshakeModel { next_request_id: r, ..old(self)@ }),
    {
        let next = self.next_request_id.wrapping_add(1);
        self.next_request_id = if next < 1 { 1 } else { next };
        self.next_request_id
    }

    /// The reported node description with the certificate fingerprint as its identity.
    fn certified_peer_info(&self, reported: &PeerInfo) -> (r: PeerInfo)
        ensures
            r@ == certified(reported@, self@.peer_id, self@.profile.known_caps),
    {
        let name_str = reported.name.as_str();
        let count = name_str.unicode_len();
        let name = if count > MAX_PEER_NAME_CHARS {
            String::from_str(name_str.substring_char(0, MAX_PEER_NAME_CHARS))
        } else {
            String::from_str(name_str)
        };
        proof {
            if count > MAX_PEER_NAME_CHARS {
                assert(name@ =~= reported.name@.take(MAX_PEER_NAME_CHARS as int));
            }
        }
        PeerInfo {
            id: self.peer_id,
            name,
            platform: reported.platform,
            caps: reported.caps & self.profile.known_caps,
            proto_version: reported.proto_version,
        }
    }
}

/// The peer's identity is the certificate fingerprint: a completed handshake reports a peer
/// whose id is `peer_id` whatever id the peer reported, and the recorded peer keeps it.
pub proof fn law_peer_identity_is_the_certificate(m: HandshakeModel, input: InputModel)
    requires
        m.peer matches Some(p) ==> p.id == m.peer_id,
    ensures
        ({
            let (n, step) = control_step(m, input);
            &&& n.peer_id == m.peer_id
            &&& (n.peer matches Some(p) ==> p.id == m.peer_id)
            &&& (step.event matches EventModel::Established { peer, .. } ==> peer.id == m.peer_id)
        }),
{
}

/// Frames that do not belong to the current phase are ignored and counted, never fatal:
/// nothing is sent, the phase stays, and only the ignore counter moves.
pub proof fn law_out_of_phase_frames_are_ignored(m: HandshakeModel, input: InputModel)
    ensures
        input is Other ==> control_step(m, input) == ignore_step(m),
        (input is HelloAck && !(m.role is Initiator && m.phase is AwaitHelloAck)) ==> control_step(
            m,
            input,
        ) == ignore_step(m),
        (input is Hello && m.role is Responder && !(m.phase is Idle)) ==> control_step(m, input)
            == ignore_step(m),
        ignore_step(m).0.phase == m.phase,
        ignore_step(m).1.send.len() == 0,
{
}

/// Every step ends in a consistent phase: a refusal always lands in `Failed` (the session
/// never waits for an answer that will not come), a completion in `Established`, and an
/// ignored frame leaves the phase as it was.
pub proof fn law_outcome_matches_phase(m: HandshakeModel, input: InputModel)
    ensures
        ({
            let (n, step) = control_step(m, input);
            &&& (step.event is Rejected ==> n.phase is Failed)
            &&& (step.event is Established ==> n.phase is Established)
            &&& (step.event is Ignored ==> n.phase == m.phase && step.send.len() == 0)
        }),
{
}

/// A responder that refuses a HELLO answers with exactly one refusing HELLO_ACK (a notice,
/// agreed set 0) before it fails, so the peer learns why.
pub proof fn law_refusal_is_answered(m: HandshakeModel, proto_version: u16, node: PeerModel, caps: u32)
    requires
        m.role is Responder,
        m.phase is Idle,
    ensures
        ({
            let (n, step) = hello_step(m, proto_version, node, caps);
            step.event is Rejected ==> {
                &&& step.send.len() == 1
                &&& step.send[0].request_id == 0
                &&& step.send[0].frame matches FrameModel::HelloAck { accepted, agreed_caps, rejection, .. }
                    && !accepted && agreed_caps == 0 && rejection is Some
            }
        }),
{
}

/// Capabilities are agreed as the intersection of both sides and a completed handshake
/// always holds every required capability.
pub proof fn law_established_agrees_on_capabilities(m: HandshakeModel, input: InputModel)
    ensures
        ({
            let (n, step) = control_step(m, input);
            step.event matches EventModel::Established { local_caps, peer_caps, agreed_caps, .. } ==> {
                &&& agreed_caps == local_caps & peer_caps
                &&& m.profile.required_caps & !agreed_caps == 0
                &&& n.agreed_caps == agreed_caps
                &&& n.peer_caps == peer_caps
                &&& local_caps == m.local_caps
            }
        }),
{
}

/// Request ids are never 0 (0 marks a one-way notice): the HELLO of `start` carries a
/// non-zero id, and ids keep counting past the wrap without hitting 0.
pub proof fn law_request_ids_are_never_zero(m: HandshakeModel, last: u32)
    ensures
        next_request_id(last) != 0,
        start_step(m).1.send.len() == 1 ==> start_step(m).1.send[0].request_id != 0,
{
}

/// The responder never starts on its own: `start` sends nothing and changes nothing.
pub proof fn law_responder_never_starts(m: HandshakeModel)
    requires
        m.role is Responder,
    ensures
        start_step(m).0 == m,
        start_step(m).1.send.len() == 0,
        start_step(m).1.event is Nothing,
{
}

} // verus!
