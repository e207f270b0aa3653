//! The OPEN message codec, stream framing over a connection buffer, and
//! the per-peer session state machine.

use vstd::prelude::*;

use crate::capability::{
    caps_valid, lemma_parse_caps_of_enc, spec_caps_bytes, spec_caps_tlv, spec_parse_caps, CapView,
    Capabilities, Capability, Error, Family, AFI_IP, SAFI_MPLS_VPN,
};
use crate::message::{
    decode_header, encode_header, spec_header_bytes, TYPE_KEEPALIVE,
    TYPE_NOTIFICATION, TYPE_OPEN, TYPE_UPDATE,
};
use crate::netbuf::{buf_extend, buf_len, buf_slice, buf_split_to, bytes_view};
use crate::wire::{be16, byte_at, read_u16_at, u16_hi, u16_lo};

verus! {

/// A placeholder for the process-wide connection bookkeeping that the
/// event loop owns.
pub struct Client {}

/// Why an OPEN body failed to decode.
#[derive(Debug, PartialEq, Eq, Structural, Clone, Copy)]
pub enum OpenError {
    /// A declared length runs past the bytes actually available, or the
    /// fixed fields are incomplete.
    Truncated,
    /// The single optional parameter is not a capabilities TLV.
    BadOptType,
    /// A capability record inside the TLV is malformed.
    Capability(Error),
}

/// Why a frame failed to decode.
#[derive(Debug, PartialEq, Eq, Structural, Clone, Copy)]
pub enum DecodeError {
    /// The buffer is too short to be a valid partial frame, or the
    /// declared length is inconsistent with any frame.
    Framing,
    /// The frame carried an OPEN body that failed to decode.
    Open(OpenError),
}

/// A four-octet router identifier.
#[derive(Debug, PartialEq, Eq, Structural, Clone, Copy)]
pub struct RouterId(pub u8, pub u8, pub u8, pub u8);

/// A decoded OPEN message.
#[derive(Debug, PartialEq, Eq, Clone)]
pub struct MessageOpen {
    pub version: u8,
    pub asn: u16,
    pub hold_time: u16,
    pub router_id: RouterId,
    pub caps: Capabilities,
}

/// The mathematical model of an OPEN message.
pub struct OpenView {
    pub version: u8,
    pub asn: u16,
    pub hold_time: u16,
    pub router_id: RouterId,
    pub caps: Seq<CapView>,
}

impl View for MessageOpen {
    type V = OpenView;

    open spec fn view(&self) -> OpenView {
        OpenView {
            version: self.version,
            asn: self.asn,
            hold_time: self.hold_time,
            router_id: self.router_id,
            caps: self.caps@,
        }
    }
}

/// An OPEN message whose canonical encoding exists: every capability is
/// valid and the capability block fits the one-byte TLV length.
pub open spec fn open_valid(o: OpenView) -> bool {
    &&& caps_valid(o.caps)
    &&& spec_caps_bytes(o.caps).len() <= 253
}

/// The canonical wire bytes of an OPEN body: version, ASN, hold time,
/// router id, the optional-parameter length, then the capability TLV.
pub open spec fn spec_open_bytes(o: OpenView) -> Seq<u8> {
    let tlv = spec_caps_tlv(o.caps);
    seq![
        o.version,
        u16_hi(o.asn),
        u16_lo(o.asn),
        u16_hi(o.hold_time),
        u16_lo(o.hold_time),
        o.router_id.0,
        o.router_id.1,
        o.router_id.2,
        o.router_id.3,
        tlv.len() as u8,
    ] + tlv
}

/// What decoding an OPEN body yields. The fixed ten bytes must be
/// present; a declared optional-parameter length is validated against
/// the bytes available; the single optional parameter must be a
/// capabilities TLV whose own length must fit inside it; the capability
/// block is then decoded record by record.
pub open spec fn spec_parse_open(b: Seq<u8>) -> Result<OpenView, OpenError> {
    if b.len() < 10 {
        Err(OpenError::Truncated)
    } else {
        let opt_len = b[9] as int;
        if opt_len > b.len() - 10 {
            Err(OpenError::Truncated)
        } else {
            let caps = if opt_len == 0 {
                Ok(Seq::<CapView>::empty())
            } else if opt_len < 2 {
                Err(OpenError::Truncated)
            } else if b[10] != 2 {
                Err(OpenError::BadOptType)
            } else {
                let tl = b[11] as int;
                if tl > opt_len - 2 {
                    Err(OpenError::Truncated)
                } else {
                    match spec_parse_caps(b.subrange(12, 12 + tl)) {
                        Ok(cs) => Ok(cs),
                        Err(e) => Err(OpenError::Capability(e)),
                    }
                }
            };
            match caps {
                Ok(cs) => Ok(
                    OpenView {
                        version: b[0],
                        asn: be16(b[1], b[2]),
                        hold_time: be16(b[3], b[4]),
                        router_id: RouterId(b[5], b[6], b[7], b[8]),
                        caps: cs,
                    },
                ),
                Err(e) => Err(e),
            }
        }
    }
}

/// How the executable OPEN decoder's result must mirror the
/// specification parser.
pub open spec fn open_result_matches(
    r: Result<MessageOpen, OpenError>,
    s: Result<OpenView, OpenError>,
) -> bool {
    match s {
        Ok(v) => r matches Ok(m) && m@ == v,
        Err(e) => r matches Err(e2) && e2 == e,
    }
}

impl MessageOpen {
    /// The OPEN message a speaker with the built-in local configuration
    /// advertises: version 4, AS 1, a 90 second hold time, router id
    /// 10.0.0.1, and one IPv4 MPLS-VPN multiprotocol capability.
    pub fn new() -> (r: Self)
        ensures
            r@.version == 4,
            r@.asn == 1,
            r@.hold_time == 90,
            r@.router_id == RouterId(10, 0, 0, 1),
            r@.caps == seq![CapView::MultiProtocol(Family { afi: AFI_IP, safi: SAFI_MPLS_VPN })],
            open_valid(r@),
    {
        let mut caps = Capabilities::new();
        let cap_afi = Capability::MultiProtocol(Family { afi: AFI_IP, safi: SAFI_MPLS_VPN });
        caps.push(cap_afi);
        proof {
            assert(caps@ =~= seq![
                CapView::MultiProtocol(Family { afi: AFI_IP, safi: SAFI_MPLS_VPN }),
            ]);
            let cs = caps@;
            assert forall|i: int| 0 <= i < cs.len() implies crate::capability::cap_valid(
                #[trigger] cs[i],
            ) by {
                assert(cs[i] == CapView::MultiProtocol(Family { afi: AFI_IP, safi: SAFI_MPLS_VPN }));
            }
            assert(cs.skip(1) =~= Seq::<CapView>::empty());
            assert(spec_caps_bytes(cs) == crate::capability::spec_cap_bytes(cs[0])
                + spec_caps_bytes(cs.skip(1)));
            assert(spec_caps_bytes(cs.skip(1)) =~= Seq::<u8>::empty());
            assert(spec_caps_bytes(cs).len() == 6);
        }
        MessageOpen { version: 4, asn: 1, hold_time: 90, router_id: RouterId(10, 0, 0, 1), caps }
    }

    /// Decode an OPEN body.
    pub fn from_bytes(buf: &[u8]) -> (r: Result<MessageOpen, OpenError>)
        ensures
            open_result_matches(r, spec_parse_open(buf@)),
    {
        let n: usize = buf.len();
        if n < 10 {
            return Err(OpenError::Truncated);
        }
        let version: u8 = byte_at(buf, 0);
        let asn: u16 = read_u16_at(buf, 1);
        let hold_time: u16 = read_u16_at(buf, 3);
        let router_id: RouterId = RouterId(
            byte_at(buf, 5),
            byte_at(buf, 6),
            byte_at(buf, 7),
            byte_at(buf, 8),
        );
        let opt_len: usize = byte_at(buf, 9) as usize;
        if n - 10 < opt_len {
            return Err(OpenError::Truncated);
        }
        let caps: Capabilities;
        if opt_len == 0 {
            caps = Capabilities::new();
        } else {
            if opt_len < 2 {
                return Err(OpenError::Truncated);
            }
            let t: u8 = byte_at(buf, 10);
            if t != 2 {
                return Err(OpenError::BadOptType);
            }
            let tl: usize = byte_at(buf, 11) as usize;
            if opt_len - 2 < tl {
                return Err(OpenError::Truncated);
            }
            match Capabilities::from_block(buf, 12, 12 + tl) {
                Ok(c) => {
                    caps = c;
                },
                Err(e) => {
                    return Err(OpenError::Capability(e));
                },
            }
        }
        Ok(MessageOpen { version, asn, hold_time, router_id, caps })
    }

    /// Encode this message's OPEN body canonically.
    pub fn to_bytes(&self) -> (out: Vec<u8>)
        requires
            open_valid(self@),
        ensures
            out@ == spec_open_bytes(self@),
    {
        let mut out: Vec<u8> = Vec::new();
        out.push(self.version);
        out.push((self.asn / 0x100) as u8);
        out.push((self.asn % 0x100) as u8);
        out.push((self.hold_time / 0x100) as u8);
        out.push((self.hold_time % 0x100) as u8);
        out.push(self.router_id.0);
        out.push(self.router_id.1);
        out.push(self.router_id.2);
        out.push(self.router_id.3);
        let mut tlv: Vec<u8> = self.caps.to_bytes();
        out.push(tlv.len() as u8);
        out.append(&mut tlv);
        proof {
            assert(out@ =~= spec_open_bytes(self@));
        }
        out
    }
}

/// Round trip for an OPEN body: decoding the canonical encoding of a
/// valid OPEN message yields the message back, field for field and
/// capability for capability, in order.
pub proof fn lemma_parse_open_of_enc(o: OpenView)
    requires
        open_valid(o),
    ensures
        spec_parse_open(spec_open_bytes(o)) == Ok::<OpenView, OpenError>(o),
{
    let tlv = spec_caps_tlv(o.caps);
    let b = spec_open_bytes(o);
    crate::wire::lemma_be16_split(o.asn);
    crate::wire::lemma_be16_split(o.hold_time);
    assert(b.len() == 10 + tlv.len());
    if o.caps.len() == 0 {
        assert(tlv.len() == 0);
        assert(b[9] as int == 0);
        assert(o.caps =~= Seq::<CapView>::empty());
    } else {
        let cb = spec_caps_bytes(o.caps);
        assert(tlv == seq![2u8, cb.len() as u8] + cb);
        assert(tlv.len() == 2 + cb.len());
        assert(b[9] as int == tlv.len());
        assert(b[10] == tlv[0]);
        assert(b[11] == tlv[1]);
        assert(b[10] == 2u8);
        assert(b[11] as int == cb.len());
        assert(b.subrange(12, 12 + cb.len() as int) =~= cb);
        lemma_parse_caps_of_enc(o.caps);
    }
}

/// One BGP message, or the sentinel that no complete message is
/// available yet.
#[derive(Debug, PartialEq, Eq, Clone)]
pub enum Message {
    Open(MessageOpen),
    KeepAlive,
    /// Placeholder: the UPDATE body is not decoded.
    Update,
    /// Placeholder: the NOTIFICATION body is not decoded.
    Notification,
    /// Not a protocol value: the framing layer has no complete message.
    Pending,
}

/// The mathematical model of a message.
pub enum MsgView {
    Open(OpenView),
    KeepAlive,
    Update,
    Notification,
    Pending,
}

impl View for Message {
    type V = MsgView;

    open spec fn view(&self) -> MsgView {
        match self {
            Message::Open(m) => MsgView::Open(m@),
            Message::KeepAlive => MsgView::KeepAlive,
            Message::Update => MsgView::Update,
            Message::Notification => MsgView::Notification,
            Message::Pending => MsgView::Pending,
        }
    }
}

/// A message the encoder can turn into a frame: an OPEN must be valid;
/// every other message encodes unconditionally.
pub open spec fn msg_encodable(m: MsgView) -> bool {
    m matches MsgView::Open(o) ==> open_valid(o)
}

/// The complete frame a message encodes to: a header whose length field
/// is the true encoded size, then the body. An OPEN carries its body;
/// a KEEPALIVE is a bare header; every other message falls back to a
/// bare OPEN-typed header.
pub open spec fn spec_msg_bytes(m: MsgView) -> Seq<u8> {
    match m {
        MsgView::Open(o) => {
            let body = spec_open_bytes(o);
            spec_header_bytes(TYPE_OPEN, (19 + body.len()) as u16) + body
        },
        MsgView::KeepAlive => spec_header_bytes(TYPE_KEEPALIVE, 19u16),
        _ => spec_header_bytes(TYPE_OPEN, 19u16),
    }
}

/// A valid OPEN body is at most 265 bytes: ten fixed bytes and a TLV of
/// at most 255.
pub proof fn lemma_open_bytes_len(o: OpenView)
    requires
        open_valid(o),
    ensures
        10 <= spec_open_bytes(o).len() <= 265,
{
}

impl Message {
    /// Whether this message can be framed: an OPEN needs a valid,
    /// TLV-sized capability set.
    pub fn encodable(&self) -> (b: bool)
        ensures
            b == msg_encodable(self@),
    {
        match self {
            Message::Open(m) => m.caps.encodable(),
            _ => true,
        }
    }

    /// Encode this message as one complete frame.
    pub fn to_bytes(self) -> (out: Vec<u8>)
        requires
            msg_encodable(self@),
        ensures
            out@ == spec_msg_bytes(self@),
    {
        let ghost v = self@;
        match self {
            Message::Open(m) => {
                proof {
                    lemma_open_bytes_len(m@);
                }
                let mut body: Vec<u8> = m.to_bytes();
                let total: usize = 19 + body.len();
                let mut out: Vec<u8> = Vec::new();
                encode_header(TYPE_OPEN, total as u16, &mut out);
                out.append(&mut body);
                proof {
                    assert(out@ =~= spec_msg_bytes(v));
                }
                out
            },
            Message::KeepAlive => {
                let mut out: Vec<u8> = Vec::new();
                encode_header(TYPE_KEEPALIVE, 19u16, &mut out);
                proof {
                    assert(out@ =~= spec_msg_bytes(v));
                }
                out
            },
            _ => {
                let mut out: Vec<u8> = Vec::new();
                encode_header(TYPE_OPEN, 19u16, &mut out);
                proof {
                    assert(out@ =~= spec_msg_bytes(v));
                }
                out
            },
        }
    }
}

/// What the framing layer does with an accumulated receive buffer: the
/// decoded message and the count of bytes the frame occupied, or a
/// failure.  An empty buffer and a buffer shorter than its declared
/// frame both yield the pending sentinel and consume nothing; a buffer
/// of one to eighteen bytes, or a declared length that no frame can
/// have, is a framing failure; otherwise the declared length bounds the
/// body handed to the body decoder.
pub open spec fn spec_try_decode(b: Seq<u8>) -> Result<(MsgView, int), DecodeError> {
    if b.len() == 0 {
        Ok((MsgView::Pending, 0))
    } else if b.len() < 19 {
        Err(DecodeError::Framing)
    } else {
        let l = be16(b[16], b[17]) as int;
        let t = b[18];
        if l < 19 || l > 4096 {
            Err(DecodeError::Framing)
        } else if l > b.len() {
            Ok((MsgView::Pending, 0))
        } else if t == TYPE_OPEN {
            match spec_parse_open(b.subrange(19, l)) {
                Ok(o) => Ok((MsgView::Open(o), l)),
                Err(e) => Err(DecodeError::Open(e)),
            }
        } else if t == TYPE_KEEPALIVE {
            Ok((MsgView::KeepAlive, l))
        } else if t == TYPE_UPDATE {
            Ok((MsgView::Update, l))
        } else if t == TYPE_NOTIFICATION {
            Ok((MsgView::Notification, l))
        } else {
            Ok((MsgView::KeepAlive, l))
        }
    }
}

/// How the executable framing decoder's result must mirror the
/// specification decoder.
pub open spec fn decode_result_matches(
    r: Result<Message, DecodeError>,
    s: Result<(MsgView, int), DecodeError>,
) -> bool {
    match s {
        Ok(p) => r matches Ok(m) && m@ == p.0,
        Err(e) => r matches Err(e2) && e2 == e,
    }
}

/// Decode at most one frame from the front of the connection buffer.
/// On success exactly the frame's declared length leaves the buffer, so
/// any following message stays aligned; on failure, and when more data
/// is needed, the buffer is left untouched.
pub fn from_bytes(buf: &mut bytes::BytesMut) -> (r: Result<Message, DecodeError>)
    ensures
        decode_result_matches(r, spec_try_decode(bytes_view(*old(buf)))),
        (match spec_try_decode(bytes_view(*old(buf))) {
            Ok(p) => bytes_view(*final(buf)) == bytes_view(*old(buf)).skip(p.1),
            Err(_) => bytes_view(*final(buf)) == bytes_view(*old(buf)),
        }),
{
    let ghost pre = bytes_view(*buf);
    let n: usize = buf_len(buf);
    if n == 0 {
        proof {
            assert(pre.skip(0) =~= pre);
        }
        return Ok(Message::Pending);
    }
    if n < 19 {
        return Err(DecodeError::Framing);
    }
    let s: &[u8] = buf_slice(buf);
    let dlen16: u16;
    let typ: u8;
    match decode_header(s) {
        Ok(p) => {
            typ = p.0;
            dlen16 = p.1;
        },
        Err(_) => {
            return Err(DecodeError::Framing);
        },
    }
    let dlen: usize = dlen16 as usize;
    if dlen < 19 || dlen > 4096 {
        return Err(DecodeError::Framing);
    }
    if dlen > n {
        proof {
            assert(pre.skip(0) =~= pre);
        }
        return Ok(Message::Pending);
    }
    let msg: Message;
    if typ == TYPE_OPEN {
        let body: &[u8] = vstd::slice::slice_subrange(s, 19, dlen);
        match MessageOpen::from_bytes(body) {
            Ok(m) => {
                msg = Message::Open(m);
            },
            Err(e) => {
                return Err(DecodeError::Open(e));
            },
        }
    } else if typ == TYPE_KEEPALIVE {
        msg = Message::KeepAlive;
    } else if typ == TYPE_UPDATE {
        msg = Message::Update;
    } else if typ == TYPE_NOTIFICATION {
        msg = Message::Notification;
    } else {
        msg = Message::KeepAlive;
    }
    let _front = buf_split_to(buf, dlen);
    Ok(msg)
}

/// A buffer of one to eighteen bytes can never be a frame: decoding it
/// is a framing failure, whatever the bytes hold.
pub proof fn lemma_short_buffer_is_framing_error(b: Seq<u8>)
    requires
        1 <= b.len() < 19,
    ensures
        spec_try_decode(b) == Err::<(MsgView, int), DecodeError>(DecodeError::Framing),
{
}

/// Round trip through the framing layer: a valid OPEN or KEEPALIVE
/// frame placed at the front of a buffer decodes back to the message
/// it encodes, consuming exactly the frame and leaving whatever
/// follows.
pub proof fn lemma_try_decode_of_enc(m: MsgView, extra: Seq<u8>)
    requires
        msg_encodable(m),
        m is Open || m is KeepAlive,
    ensures
        spec_try_decode(spec_msg_bytes(m) + extra) == Ok::<(MsgView, int), DecodeError>(
            (m, spec_msg_bytes(m).len() as int),
        ),
{
    let e = spec_msg_bytes(m);
    let b = e + extra;
    match m {
        MsgView::Open(o) => {
            lemma_open_bytes_len(o);
            let body = spec_open_bytes(o);
            let l = (19 + body.len()) as u16;
            assert(e == spec_header_bytes(TYPE_OPEN, l) + body);
            assert(b[16] == u16_hi(l));
            assert(b[17] == u16_lo(l));
            assert(b[18] == TYPE_OPEN);
            crate::wire::lemma_be16_split(l);
            assert(be16(b[16], b[17]) == l);
            assert(b.subrange(19, l as int) =~= body);
            lemma_parse_open_of_enc(o);
        },
        MsgView::KeepAlive => {
            assert(b[16] == u16_hi(19u16));
            assert(b[17] == u16_lo(19u16));
            assert(b[18] == TYPE_KEEPALIVE);
            crate::wire::lemma_be16_split(19u16);
        },
        _ => {},
    }
}

/// The session states of the BGP finite state machine.
#[derive(Debug, PartialEq, Eq, Structural, Clone, Copy)]
pub enum State {
    Idle,
    Connect,
    Active,
    OpenSent,
    OpenConfirm,
    Established,
}

/// One event a peer session reacts to, reduced to the values the state
/// machine decides on.
#[derive(Debug, PartialEq, Eq, Clone)]
pub enum Event {
    /// An outbound connection attempt is requested.
    Connect,
    /// An inbound connection is pending acceptance.
    Accept,
    /// The outbound TCP connect completed.
    Connected,
    /// The outbound TCP connect failed.
    ConnectFailed,
    /// One decoded frame arrived.
    Packet(Message),
    /// A frame failed to decode: the stream is corrupt.
    DecodeFailed,
    /// The socket closed.
    Closed,
    /// The reconnect timer fired.
    TimerExpired,
    /// The hold timer expired: the peer has been silent too long.
    HoldTimerExpired,
    /// The handshake deadline of a non-established state passed.
    DeadlineExpired,
}

/// What the session loop must do after a transition.
#[derive(Debug, PartialEq, Eq, Structural, Clone, Copy)]
pub enum Action {
    /// Nothing to do; keep waiting for events.
    Wait,
    /// Begin an outbound TCP connect.
    StartConnect,
    /// Send the local OPEN message.
    SendOpen,
    /// Send a KEEPALIVE message.
    SendKeepAlive,
    /// Send a NOTIFICATION and drop the connection.
    SendNotification,
    /// Re-arm the retry timer with a backoff delay.
    ScheduleRetry,
}

/// The transition function of the session state machine.
///
/// A connect request or retry-timer expiry moves an idle session into
/// the connect attempt; a completed connect, or an accepted inbound
/// connection, sends the local OPEN; the peer's OPEN is answered with a
/// KEEPALIVE; the peer's KEEPALIVE completes the handshake. A
/// NOTIFICATION, a decode failure, a closed socket or a missed
/// handshake deadline resets any non-idle state to idle with a retry;
/// hold-timer expiry tears down an established session and notifies
/// the peer. Established sessions echo a KEEPALIVE for the peer's OPEN
/// and KEEPALIVE.
pub open spec fn spec_step(s: State, e: Event) -> (State, Action) {
    match e {
        Event::Connect => if s is Idle {
            (State::Connect, Action::StartConnect)
        } else {
            (s, Action::Wait)
        },
        Event::TimerExpired => if s is Idle {
            (State::Connect, Action::StartConnect)
        } else {
            (s, Action::Wait)
        },
        Event::Accept => match s {
            State::Idle => (State::OpenSent, Action::SendOpen),
            State::Connect => (State::Active, Action::SendOpen),
            _ => (s, Action::Wait),
        },
        Event::Connected => if s is Connect {
            (State::OpenSent, Action::SendOpen)
        } else {
            (s, Action::Wait)
        },
        Event::ConnectFailed => if s is Connect {
            (State::Idle, Action::ScheduleRetry)
        } else {
            (s, Action::Wait)
        },
        Event::DecodeFailed => if s is Idle {
            (State::Idle, Action::Wait)
        } else {
            (State::Idle, Action::ScheduleRetry)
        },
        Event::Closed => if s is Idle {
            (State::Idle, Action::Wait)
        } else {
            (State::Idle, Action::ScheduleRetry)
        },
        Event::HoldTimerExpired => if s is Established {
            (State::Idle, Action::SendNotification)
        } else {
            (s, Action::Wait)
        },
        Event::DeadlineExpired => match s {
            State::Idle => (State::Idle, Action::Wait),
            State::Established => (State::Established, Action::Wait),
            _ => (State::Idle, Action::ScheduleRetry),
        },
        Event::Packet(m) => match m {
            Message::Pending => (s, Action::Wait),
            Message::Notification => if s is Idle {
                (State::Idle, Action::Wait)
            } else {
                (State::Idle, Action::ScheduleRetry)
            },
            Message::Open(_) => match s {
                State::OpenSent => (State::OpenConfirm, Action::SendKeepAlive),
                State::Active => (State::OpenConfirm, Action::SendKeepAlive),
                State::Established => (State::Established, Action::SendKeepAlive),
                State::Idle => (State::Idle, Action::Wait),
                _ => (State::Idle, Action::ScheduleRetry),
            },
            Message::KeepAlive => match s {
                State::OpenConfirm => (State::Established, Action::Wait),
                State::Established => (State::Established, Action::SendKeepAlive),
                State::Idle => (State::Idle, Action::Wait),
                _ => (State::Idle, Action::ScheduleRetry),
            },
            Message::Update => match s {
                State::Established => (State::Established, Action::Wait),
                State::Idle => (State::Idle, Action::Wait),
                _ => (State::Idle, Action::ScheduleRetry),
            },
        },
    }
}

/// The state change the stream decoder applies by itself: receiving the
/// peer's OPEN while the local OPEN is outstanding confirms the
/// session.
pub open spec fn spec_decode_state(s: State, m: MsgView) -> State {
    if m is Open && s is OpenSent {
        State::OpenConfirm
    } else {
        s
    }
}

/// One peer session: its current state.
pub struct Peer {
    pub state: State,
}

impl Peer {
    /// Feed one event through the state machine; the new state replaces
    /// the old and the caller performs the returned action.
    pub fn step(&mut self, e: Event) -> (a: Action)
        ensures
            (final(self).state, a) == spec_step(old(self).state, e),
    {
        let (next, action) = Self::transition(self.state, e);
        self.state = next;
        action
    }

    /// The transition function itself, one event at a time.
    pub fn transition(s: State, e: Event) -> (r: (State, Action))
        ensures
            r == spec_step(s, e),
    {
        match e {
            Event::Connect => if s == State::Idle {
                (State::Connect, Action::StartConnect)
            } else {
                (s, Action::Wait)
            },
            Event::TimerExpired => if s == State::Idle {
                (State::Connect, Action::StartConnect)
            } else {
                (s, Action::Wait)
            },
            Event::Accept => match s {
                State::Idle => (State::OpenSent, Action::SendOpen),
                State::Connect => (State::Active, Action::SendOpen),
                _ => (s, Action::Wait),
            },
            Event::Connected => if s == State::Connect {
                (State::OpenSent, Action::SendOpen)
            } else {
                (s, Action::Wait)
            },
            Event::ConnectFailed => if s == State::Connect {
                (State::Idle, Action::ScheduleRetry)
            } else {
                (s, Action::Wait)
            },
            Event::DecodeFailed => if s == State::Idle {
                (State::Idle, Action::Wait)
            } else {
                (State::Idle, Action::ScheduleRetry)
            },
            Event::Closed => if s == State::Idle {
                (State::Idle, Action::Wait)
            } else {
                (State::Idle, Action::ScheduleRetry)
            },
            Event::HoldTimerExpired => if s == State::Established {
                (State::Idle, Action::SendNotification)
            } else {
                (s, Action::Wait)
            },
            Event::DeadlineExpired => match s {
                State::Idle => (State::Idle, Action::Wait),
                State::Established => (State::Established, Action::Wait),
                _ => (State::Idle, Action::ScheduleRetry),
            },
            Event::Packet(m) => match m {
                Message::Pending => (s, Action::Wait),
                Message::Notification => if s == State::Idle {
                    (State::Idle, Action::Wait)
                } else {
                    (State::Idle, Action::ScheduleRetry)
                },
                Message::Open(_) => match s {
                    State::OpenSent => (State::OpenConfirm, Action::SendKeepAlive),
                    State::Active => (State::OpenConfirm, Action::SendKeepAlive),
                    State::Established => (State::Established, Action::SendKeepAlive),
                    State::Idle => (State::Idle, Action::Wait),
                    _ => (State::Idle, Action::ScheduleRetry),
                },
                Message::KeepAlive => match s {
                    State::OpenConfirm => (State::Established, Action::Wait),
                    State::Established => (State::Established, Action::SendKeepAlive),
                    State::Idle => (State::Idle, Action::Wait),
                    _ => (State::Idle, Action::ScheduleRetry),
                },
                Message::Update => match s {
                    State::Established => (State::Established, Action::Wait),
                    State::Idle => (State::Idle, Action::Wait),
                    _ => (State::Idle, Action::ScheduleRetry),
                },
            },
        }
    }

    /// Frame one message into the transmit buffer.
    pub fn encode(&self, msg: Message, dst: &mut bytes::BytesMut)
        requires
            msg_encodable(msg@),
        ensures
            bytes_view(*final(dst)) == bytes_view(*old(dst)) + spec_msg_bytes(msg@),
    {
        let b: Vec<u8> = msg.to_bytes();
        buf_extend(dst, b.as_slice());
    }

    /// Decode at most one frame from the receive buffer, applying the
    /// decoder's own state change: the peer's OPEN received while the
    /// local OPEN is outstanding confirms the session.  The pending
    /// sentinel becomes the decoder's need-more-data result.
    pub fn decode(&mut self, src: &mut bytes::BytesMut) -> (r: Result<
        Option<Message>,
        DecodeError,
    >)
        ensures
            (match spec_try_decode(bytes_view(*old(src))) {
                Ok(p) => {
                    &&& bytes_view(*final(src)) == bytes_view(*old(src)).skip(p.1)
                    &&& (if p.0 is Pending {
                        &&& r matches Ok(o) && o is None
                        &&& final(self).state == old(self).state
                    } else {
                        &&& r matches Ok(o) && o matches Some(m) && m@ == p.0
                        &&& final(self).state == spec_decode_state(old(self).state, p.0)
                    })
                },
                Err(e) => {
                    &&& r matches Err(e2) && e2 == e
                    &&& bytes_view(*final(src)) == bytes_view(*old(src))
                    &&& final(self).state == old(self).state
                },
            }),
    {
        match from_bytes(src) {
            Ok(Message::Pending) => Ok(None),
            Ok(Message::Open(m)) => {
                match self.state {
                    State::OpenSent => {
                        self.state = State::OpenConfirm;
                    },
                    _ => {},
                }
                Ok(Some(Message::Open(m)))
            },
            Ok(m) => Ok(Some(m)),
            Err(e) => Err(e),
        }
    }
}

/// A session not yet in the confirmed state reaches it only by a
/// decoded peer OPEN arriving after the local OPEN went out.
pub proof fn lemma_openconfirm_needs_open(s: State, e: Event)
    requires
        spec_step(s, e).0 is OpenConfirm,
        !(s is OpenConfirm),
    ensures
        s is OpenSent || s is Active,
        e matches Event::Packet(m) && m is Open,
{
}

/// The states that have sent the local OPEN are entered only by a
/// completed outbound connect or an accepted inbound connection.
pub proof fn lemma_opensent_needs_connection(s: State, e: Event)
    requires
        spec_step(s, e).0 is OpenSent || spec_step(s, e).0 is Active,
        !(s is OpenSent),
        !(s is Active),
    ensures
        e is Connected || e is Accept,
{
}

/// From idle, two steps reach the confirmed state only by an accepted
/// inbound connection followed by a decoded peer OPEN.
pub proof fn lemma_idle_two_steps_to_openconfirm(e1: Event, e2: Event)
    requires
        spec_step(spec_step(State::Idle, e1).0, e2).0 is OpenConfirm,
    ensures
        e1 is Accept,
        e2 matches Event::Packet(m) && m is Open,
{
}

/// A NOTIFICATION or a decode failure resets every non-idle state to
/// idle.
pub proof fn lemma_reset_to_idle(s: State, e: Event)
    requires
        !(s is Idle),
        e is DecodeFailed || (e matches Event::Packet(m) && m is Notification),
    ensures
        spec_step(s, e).0 is Idle,
{
}

/// Hold-timer expiry tears down an established session and notifies
/// the peer.
pub proof fn lemma_hold_timer_teardown()
    ensures
        spec_step(State::Established, Event::HoldTimerExpired) == (
            State::Idle,
            Action::SendNotification,
        ),
{
}

} // verus!
