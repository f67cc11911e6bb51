//! The per-connection protocol engine: the state machine, the replies the
//! engine gives by itself to Handshake, Status and Login packets, and what
//! the reader and the writer do with each frame and each packet. The tasks
//! that move bytes run these decisions; they hold no rules of their own.
use vstd::prelude::*;
use vstd::string::StringExecFns;
use crate::bstring::BoundedString;
use crate::chat::Chat;
use crate::frame::{
    CompressionSettings,
    frame_contents,
    frame_of,
    frame_packet,
    open_frame,
    within_limit,
};
use crate::packets::{
    Direction,
    Disconnect,
    Initialize,
    LoginSuccess,
    PacketState,
    PacketView,
    Packets,
    Pong,
    Response,
    SetCompression,
    decode_packet,
    decode_table,
    id_of,
    known_id,
};
use crate::serial::EncodeError;
use crate::varint::v32;

verus! {

/// The protocol version this server speaks.
pub const PROTOCOL_VERSION: u32 = 754;

/// The phase of a connection.
#[derive(Debug, Clone, Copy, PartialEq, Eq, Structural)]
pub enum ConnectionState {
    Handshake,
    Status,
    Login,
    Play,
}

/// The position of a state in the order `Handshake, Status, Login, Play`.
pub open spec fn state_rank(s: ConnectionState) -> nat {
    match s {
        ConnectionState::Handshake => 0,
        ConnectionState::Status => 1,
        ConnectionState::Login => 2,
        ConnectionState::Play => 3,
    }
}

/// The table that serverbound packets are decoded with in `s`.
pub open spec fn table_state(s: ConnectionState) -> PacketState {
    match s {
        ConnectionState::Handshake => PacketState::Handshaking,
        ConnectionState::Status => PacketState::Status,
        ConnectionState::Login => PacketState::Login,
        ConnectionState::Play => PacketState::Play,
    }
}

fn packet_state_of(s: ConnectionState) -> (r: PacketState)
    ensures
        r == table_state(s),
{
    match s {
        ConnectionState::Handshake => PacketState::Handshaking,
        ConnectionState::Status => PacketState::Status,
        ConnectionState::Login => PacketState::Login,
        ConnectionState::Play => PacketState::Play,
    }
}

// ---------------------------------------------------------------------------
// The status reply.
// ---------------------------------------------------------------------------

/// The JSON string literal that serde_json renders for `s`.
pub uninterp spec fn json_string_literal(s: Seq<char>) -> Seq<char>;

/// Relies on `serde_json::to_string` on a `str`: it renders the JSON string
/// literal of the text, which depends on its characters alone: two quotes
/// around the characters, each written as itself or as an escape of at
/// most six characters (`\uXXXX`). Rendering a `str` returns no error.
#[verifier::external_body]
fn json_quote(s: &str) -> (r: String)
    ensures
        r@ == json_string_literal(s@),
        r@.len() <= 6 * s@.len() + 2,
{
    serde_json::to_string(s).unwrap_or_default()
}

/// The decimal digit `d`.
pub open spec fn digit_char(d: nat) -> char {
    if d == 0 {
        '0'
    } else if d == 1 {
        '1'
    } else if d == 2 {
        '2'
    } else if d == 3 {
        '3'
    } else if d == 4 {
        '4'
    } else if d == 5 {
        '5'
    } else if d == 6 {
        '6'
    } else if d == 7 {
        '7'
    } else if d == 8 {
        '8'
    } else {
        '9'
    }
}

/// The decimal rendering of `n`, without leading zeros.
pub open spec fn decimal(n: nat) -> Seq<char>
    decreases n,
{
    if n < 10 {
        seq![digit_char(n)]
    } else {
        decimal(n / 10) + seq![digit_char(n % 10)]
    }
}

fn digit_str(d: usize) -> (r: &'static str)
    requires
        d < 10,
    ensures
        r@ == seq![digit_char(d as nat)],
{
    proof {
        reveal_strlit("0");
        reveal_strlit("1");
        reveal_strlit("2");
        reveal_strlit("3");
        reveal_strlit("4");
        reveal_strlit("5");
        reveal_strlit("6");
        reveal_strlit("7");
        reveal_strlit("8");
        reveal_strlit("9");
    }
    if d == 0 {
        "0"
    } else if d == 1 {
        "1"
    } else if d == 2 {
        "2"
    } else if d == 3 {
        "3"
    } else if d == 4 {
        "4"
    } else if d == 5 {
        "5"
    } else if d == 6 {
        "6"
    } else if d == 7 {
        "7"
    } else if d == 8 {
        "8"
    } else {
        "9"
    }
}

/// `10` to the power `k`.
pub open spec fn pow10(k: nat) -> nat
    decreases k,
{
    if k == 0 {
        1
    } else {
        10 * pow10((k - 1) as nat)
    }
}

/// A number below `10^k` has at most `k` digits.
pub proof fn lemma_decimal_len(n: nat, k: nat)
    requires
        1 <= k,
        n < pow10(k),
    ensures
        decimal(n).len() <= k,
    decreases k,
{
    if n >= 10 {
        let p = pow10((k - 1) as nat);
        assert(k >= 2) by {
            if k == 1 {
                reveal_with_fuel(pow10, 2);
            }
        }
        assert(n / 10 < p) by (nonlinear_arith)
            requires
                n < 10 * p,
        ;
        lemma_decimal_len(n / 10, (k - 1) as nat);
    }
}

/// A `usize` has at most twenty digits.
pub proof fn lemma_usize_decimal_len(n: usize)
    ensures
        decimal(n as nat).len() <= 20,
{
    reveal_with_fuel(pow10, 21);
    assert(pow10(20) == 100000000000000000000nat);
    lemma_decimal_len(n as nat, 20);
}

/// `n` written in decimal.
pub fn decimal_string(n: usize) -> (r: String)
    ensures
        r@ == decimal(n as nat),
    decreases n,
{
    if n < 10 {
        String::from_str(digit_str(n))
    } else {
        decimal_string(n / 10).concat(digit_str(n % 10))
    }
}

/// The status object of the server list, with `quoted_motd` already a JSON
/// string literal.
pub open spec fn status_text(max: nat, online: nat, quoted_motd: Seq<char>) -> Seq<char> {
    "{\"version\":{\"name\":\"1.16.5\",\"protocol\":754},\"players\":{\"max\":"@ + decimal(max)
        + ",\"online\":"@ + decimal(online) + ",\"sample\":[]},\"description\":{\"text\":"@
        + quoted_motd + "}}"@
}

/// The status object for `max` and `online` players, with `quoted_motd`
/// as the description's text.
pub fn status_json_from(max: usize, online: usize, quoted_motd: &str) -> (r: String)
    ensures
        r@ == status_text(max as nat, online as nat, quoted_motd@),
        r@.len() <= quoted_motd@.len() + 160,
{
    proof {
        lemma_usize_decimal_len(max);
        lemma_usize_decimal_len(online);
        reveal_strlit("{\"version\":{\"name\":\"1.16.5\",\"protocol\":754},\"players\":{\"max\":");
        reveal_strlit(",\"online\":");
        reveal_strlit(",\"sample\":[]},\"description\":{\"text\":");
        reveal_strlit("}}");
    }
    String::from_str("{\"version\":{\"name\":\"1.16.5\",\"protocol\":754},\"players\":{\"max\":").concat(
        decimal_string(max).as_str(),
    ).concat(",\"online\":").concat(decimal_string(online).as_str()).concat(
        ",\"sample\":[]},\"description\":{\"text\":",
    ).concat(quoted_motd).concat("}}")
}

/// The status object for `max` and `online` players and message `motd`.
pub fn status_json(max: usize, online: usize, motd: &str) -> (r: String)
    ensures
        r@ == status_text(max as nat, online as nat, json_string_literal(motd@)),
        r@.len() <= 6 * motd@.len() + 162,
{
    let quoted = json_quote(motd);
    status_json_from(max, online, quoted.as_str())
}

// ---------------------------------------------------------------------------
// What the engine does with a packet.
// ---------------------------------------------------------------------------

/// What the reader needs to know of the server.
#[derive(Debug, Clone, PartialEq, Eq)]
pub struct ServerInfo {
    /// Advertised as the player limit.
    pub max_players: usize,
    /// The message of the day.
    pub motd: String,
    /// Sent to a client that logs in; payloads above it are compressed.
    pub compression_threshold: u32,
}

/// The text of the placeholder uuid handed out on login.
pub open spec fn zero_uuid() -> Seq<char> {
    "00000000-0000-0000-0000-000000000000"@
}

/// The outcome of one inbound packet.
pub struct Reaction {
    /// The connection's state afterwards.
    pub state: ConnectionState,
    /// Packets to send to the peer, in order.
    pub replies: Vec<Packets>,
    /// A packet to hand to the game layer.
    pub forward: Option<Packets>,
    /// Where set, the connection is to be shut down with this reason.
    pub shutdown: Option<String>,
}

/// A reaction, as views.
pub struct ReactionView {
    pub state: ConnectionState,
    pub replies: Seq<PacketView>,
    pub forward: Option<PacketView>,
    pub shutdown: Option<Seq<char>>,
}

impl View for Reaction {
    type V = ReactionView;

    open spec fn view(&self) -> ReactionView {
        ReactionView {
            state: self.state,
            replies: self.replies@.map_values(|p: Packets| p@),
            forward: match self.forward {
                Some(p) => Some(p@),
                None => None,
            },
            shutdown: match self.shutdown {
                Some(s) => Some(s@),
                None => None,
            },
        }
    }
}

/// Nothing happens; the state stays.
pub open spec fn idle(state: ConnectionState) -> ReactionView {
    ReactionView { state, replies: Seq::empty(), forward: None, shutdown: None }
}

/// `replies` are sent; the state stays.
pub open spec fn replying(state: ConnectionState, replies: Seq<PacketView>) -> ReactionView {
    ReactionView { state, replies, forward: None, shutdown: None }
}

/// The connection ends with `reason`; the state stays.
pub open spec fn closing(state: ConnectionState, reason: Seq<char>) -> ReactionView {
    ReactionView { state, replies: Seq::empty(), forward: None, shutdown: Some(reason) }
}

/// What the engine does with packet `p` received in `state`, with `online`
/// players connected.
pub open spec fn react(
    p: PacketView,
    state: ConnectionState,
    online: nat,
    max: nat,
    motd: Seq<char>,
    threshold: u32,
) -> ReactionView {
    match p {
        PacketView::ServerboundHandshakingHandshake((version, _, _, next)) => if state
            != ConnectionState::Handshake {
            ReactionView {
                state,
                replies: Seq::empty(),
                forward: None,
                shutdown: if version > PROTOCOL_VERSION && next != 1 {
                    Some(Seq::empty())
                } else {
                    None
                },
            }
        } else {
            let refused = (version > PROTOCOL_VERSION && next != 1) || (next != 1 && next != 2);
            let new_state = if next == 1 {
                ConnectionState::Status
            } else if next == 2 {
                ConnectionState::Login
            } else {
                state
            };
            ReactionView {
                state: new_state,
                replies: Seq::empty(),
                forward: None,
                shutdown: if refused {
                    Some(Seq::empty())
                } else {
                    None
                },
            }
        },
        PacketView::ServerboundStatusRequest => {
            let json = status_text(max, online, json_string_literal(motd));
            if json.len() <= 32767 {
                ReactionView {
                    state,
                    replies: seq![PacketView::ClientboundStatusResponse(json)],
                    forward: None,
                    shutdown: None,
                }
            } else {
                closing(state, Seq::empty())
            }
        },
        PacketView::ServerboundStatusPing(payload) => ReactionView {
            state,
            replies: seq![PacketView::ClientboundStatusPong(payload)],
            forward: None,
            shutdown: None,
        },
        PacketView::ServerboundLoginLoginStart(name) => ReactionView {
            state: if state == ConnectionState::Login {
                ConnectionState::Play
            } else {
                state
            },
            replies: seq![
                PacketView::ClientboundLoginSetCompression(threshold),
                PacketView::ClientboundLoginLoginSuccess((zero_uuid(), name)),
            ],
            forward: Some(PacketView::InternalServerInitialize((zero_uuid(), name))),
            shutdown: None,
        },
        _ => ReactionView { state, replies: Seq::empty(), forward: Some(p), shutdown: None },
    }
}

fn no_reply() -> (r: Vec<Packets>)
    ensures
        r@ == Seq::<Packets>::empty(),
{
    Vec::new()
}

/// Handles a packet received in `state`: the built-in replies to
/// Handshake, Status and Login packets, and every other packet handed on.
pub fn process_packet(packet: Packets, state: ConnectionState, online: usize, info: &ServerInfo) -> (r: Reaction)
    ensures
        r@ == react(packet@, state, online as nat, info.max_players as nat, info.motd@, info.compression_threshold),
        (packet is ServerboundStatusRequest && info.motd@.len() <= 5000) ==> r@ == replying(
            state,
            seq![PacketView::ClientboundStatusResponse(status_text(info.max_players as nat, online as nat, json_string_literal(info.motd@)))],
        ),
{
    let ghost pv = packet@;
    match packet {
        Packets::ServerboundHandshakingHandshake(h) => {
            if state != ConnectionState::Handshake {
                let too_new = h.protocol_version.value() > PROTOCOL_VERSION && h.next_state != 1;
                let r = Reaction {
                    state,
                    replies: no_reply(),
                    forward: None,
                    shutdown: if too_new {
                        Some(String::new())
                    } else {
                        None
                    },
                };
                assert(r@.replies == Seq::<PacketView>::empty());
                return r;
            }
            let version = h.protocol_version.value();
            let next = h.next_state;
            let refused = (version > PROTOCOL_VERSION && next != 1) || (next != 1 && next != 2);
            let new_state = if next == 1 {
                ConnectionState::Status
            } else if next == 2 {
                ConnectionState::Login
            } else {
                state
            };
            let r = Reaction {
                state: new_state,
                replies: no_reply(),
                forward: None,
                shutdown: if refused {
                    Some(String::new())
                } else {
                    None
                },
            };
            assert(r@.replies == Seq::<PacketView>::empty());
            r
        },
        Packets::ServerboundStatusRequest(_) => {
            let json = status_json(info.max_players, online, info.motd.as_str());
            match BoundedString::<32767>::new(json) {
                Some(json_response) => {
                    let mut replies = no_reply();
                    replies.push(Packets::ClientboundStatusResponse(Box::new(Response { json_response })));
                    let r = Reaction { state, replies, forward: None, shutdown: None };
                    assert(r@.replies == react(pv, state, online as nat, info.max_players as nat, info.motd@, info.compression_threshold).replies);
                    r
                },
                None => {
                    let r = Reaction { state, replies: no_reply(), forward: None, shutdown: Some(String::new()) };
                    assert(r@.replies == Seq::<PacketView>::empty());
                    r
                },
            }
        },
        Packets::ServerboundStatusPing(p) => {
            let mut replies = no_reply();
            replies.push(Packets::ClientboundStatusPong(Box::new(Pong { payload: p.payload })));
            let r = Reaction { state, replies, forward: None, shutdown: None };
            assert(r@.replies == react(pv, state, online as nat, info.max_players as nat, info.motd@, info.compression_threshold).replies);
            r
        },
        Packets::ServerboundLoginLoginStart(p) => {
            let username: String = p.name.as_str().to_owned();
            proof {
                reveal_strlit("00000000-0000-0000-0000-000000000000");
            }
            let uuid_text = String::from_str("00000000-0000-0000-0000-000000000000");
            let uuid_copy = uuid_text.clone();
            let mut replies = no_reply();
            replies.push(Packets::ClientboundLoginSetCompression(Box::new(SetCompression {
                threshold: v32::new(info.compression_threshold),
            })));
            replies.push(Packets::ClientboundLoginLoginSuccess(Box::new(LoginSuccess {
                uuid: BoundedString::<36>::from_within_bound(uuid_text),
                username: p.name,
            })));
            let forward = Packets::InternalServerInitialize(Box::new(Initialize { uuid: uuid_copy, username }));
            let new_state = if state == ConnectionState::Login {
                ConnectionState::Play
            } else {
                state
            };
            let r = Reaction { state: new_state, replies, forward: Some(forward), shutdown: None };
            assert(r@.replies == react(pv, state, online as nat, info.max_players as nat, info.motd@, info.compression_threshold).replies);
            r
        },
        other => {
            let r = Reaction { state, replies: no_reply(), forward: Some(other), shutdown: None };
            assert(r@.replies == Seq::<PacketView>::empty());
            r
        },
    }
}

/// No packet moves a connection back in the order
/// `Handshake, Status, Login, Play`.
pub proof fn lemma_state_monotonic(
    p: PacketView,
    state: ConnectionState,
    online: nat,
    max: nat,
    motd: Seq<char>,
    threshold: u32,
)
    ensures
        state_rank(react(p, state, online, max, motd, threshold).state) >= state_rank(state),
{
}

/// A handshake from a client newer than this server that asks for the
/// login phase ends the connection, in whatever state it arrives; one that
/// asks for the status phase is never refused, whatever its version, and
/// in the Handshake state leads to Status.
pub proof fn lemma_version_gate(
    version: u32,
    address: Seq<char>,
    port: u16,
    state: ConnectionState,
    online: nat,
    max: nat,
    motd: Seq<char>,
    threshold: u32,
)
    ensures
        version > PROTOCOL_VERSION ==> react(
            PacketView::ServerboundHandshakingHandshake((version, address, port, 2)),
            state,
            online,
            max,
            motd,
            threshold,
        ).shutdown == Some(Seq::<char>::empty()),
        react(
            PacketView::ServerboundHandshakingHandshake((version, address, port, 1)),
            state,
            online,
            max,
            motd,
            threshold,
        ).shutdown is None,
        react(
            PacketView::ServerboundHandshakingHandshake((version, address, port, 1)),
            ConnectionState::Handshake,
            online,
            max,
            motd,
            threshold,
        ) == idle(ConnectionState::Status),
{
}

// ---------------------------------------------------------------------------
// The reader: one frame at a time.
// ---------------------------------------------------------------------------

/// What the reader does with a frame body received in `state`: a frame
/// that does not open, or a known packet whose body does not decode, ends
/// the connection; an unknown id is dropped; a packet is handled as `react`
/// says.
pub open spec fn receive_spec(
    frame: Seq<u8>,
    compressed: bool,
    state: ConnectionState,
    online: nat,
    max: nat,
    motd: Seq<char>,
    threshold: u32,
) -> ReactionView {
    match frame_contents(frame, compressed) {
        Err(_) => closing(state, Seq::empty()),
        Ok((id, data)) => match decode_table(Direction::Serverbound, table_state(state), id, data) {
            Some(p) => react(p, state, online, max, motd, threshold),
            None => if known_id(Direction::Serverbound, table_state(state), id) {
                closing(state, Seq::empty())
            } else {
                idle(state)
            },
        },
    }
}

fn is_known_serverbound(state: PacketState, id: u8) -> (r: bool)
    ensures
        r == known_id(Direction::Serverbound, state, id),
{
    match state {
        PacketState::Handshaking => id == 0x00,
        PacketState::Status => id <= 0x01,
        PacketState::Login => id <= 0x01,
        _ => false,
    }
}

/// Handles one frame body received in `state`, where `compressed` says
/// whether the compression envelope is on.
pub fn receive_frame(frame: &[u8], compressed: bool, state: ConnectionState, online: usize, info: &ServerInfo) -> (r: Reaction)
    ensures
        r@ == receive_spec(frame@, compressed, state, online as nat, info.max_players as nat, info.motd@, info.compression_threshold),
{
    let raw = match open_frame(frame, compressed) {
        Ok(raw) => raw,
        Err(_) => {
            let r = Reaction { state, replies: no_reply(), forward: None, shutdown: Some(String::new()) };
            assert(r@.replies == Seq::<PacketView>::empty());
            return r;
        },
    };
    let table = packet_state_of(state);
    match decode_packet(Direction::Serverbound, table, raw.id, raw.data.as_slice()) {
        Some(packet) => process_packet(packet, state, online, info),
        None => {
            let known = is_known_serverbound(table, raw.id);
            let r = Reaction {
                state,
                replies: no_reply(),
                forward: None,
                shutdown: if known {
                    Some(String::new())
                } else {
                    None
                },
            };
            assert(r@.replies == Seq::<PacketView>::empty());
            r
        },
    }
}

// ---------------------------------------------------------------------------
// The writer: one packet at a time.
// ---------------------------------------------------------------------------

/// The reason broadcast when a frame over the limit was refused.
pub open spec fn oversize_reason() -> Seq<char> {
    "Server tried sending a packet over the frame size limit"@
}

/// The writer's side of a connection: whether compression is on, and how
/// to compress once it is.
pub struct Writer {
    compressed: bool,
    settings: CompressionSettings,
}

/// What the writer does with one packet.
pub struct Outbound {
    /// The frame to put on the wire, if any.
    pub bytes: Option<Vec<u8>>,
    /// Where set, the connection is to be shut down with this reason.
    pub shutdown: Option<String>,
}

impl Writer {
    /// Whether frames are sent in the compression envelope.
    pub closed spec fn compression_on(&self) -> bool {
        self.compressed
    }

    /// The settings compression uses once on.
    pub closed spec fn compression(&self) -> CompressionSettings {
        self.settings
    }

    /// The compression a frame is sent with now.
    pub open spec fn current(&self) -> Option<CompressionSettings> {
        if self.compression_on() {
            Some(self.compression())
        } else {
            None
        }
    }

    /// A writer with compression off, to compress with `settings` once on.
    pub fn new(settings: CompressionSettings) -> (r: Writer)
        requires
            settings.level <= 9,
        ensures
            !r.compression_on(),
            r.compression() == settings,
    {
        Writer { compressed: false, settings }
    }

    /// Whether frames are sent in the compression envelope.
    pub fn is_compressed(&self) -> (r: bool)
        ensures
            r == self.compression_on(),
    {
        self.compressed
    }

    /// Handles one outbound packet. A disconnect request puts nothing on the
    /// wire and shuts down; the in-process handover packet is not sent; a
    /// login disconnect is sent and then shuts down; a frame over the limit
    /// is not sent and shuts down; a sent `SetCompression` turns compression
    /// on for the frames after it.
    pub fn send(&mut self, packet: &Packets) -> (r: Outbound)
        requires
            old(self).compression().level <= 9,
        ensures
            final(self).compression() == old(self).compression(),
            match packet {
                Packets::InternalNetworkDisconnect(p) => r.bytes is None && (r.shutdown matches Some(s)
                    && s@ == p.reason@) && final(self).compression_on() == old(self).compression_on(),
                Packets::InternalServerInitialize(_) => r.bytes is None && r.shutdown is None
                    && final(self).compression_on() == old(self).compression_on(),
                _ => match within_limit(frame_of(id_of(packet@), packet.body(), old(self).current())) {
                    Ok(b) => (r.bytes matches Some(v) && v@ == b) && (if packet is ClientboundLoginDisconnect {
                        r.shutdown matches Some(s) && s@ == Seq::<char>::empty()
                    } else {
                        r.shutdown is None
                    }) && final(self).compression_on() == (old(self).compression_on()
                        || packet is ClientboundLoginSetCompression),
                    Err(_) => r.bytes is None && (r.shutdown matches Some(s) && s@ == oversize_reason())
                        && final(self).compression_on() == old(self).compression_on(),
                },
            },
    {
        match packet {
            Packets::InternalNetworkDisconnect(p) => {
                return Outbound { bytes: None, shutdown: Some(p.reason.as_str().to_owned()) };
            },
            Packets::InternalServerInitialize(_) => {
                return Outbound { bytes: None, shutdown: None };
            },
            _ => {},
        }
        let compression = if self.compressed {
            Some(self.settings)
        } else {
            None
        };
        let id = packet.get_id();
        let data = packet.get_data();
        match frame_packet(id, data.as_slice(), compression) {
            Ok(bytes) => {
                let is_set_compression = match packet {
                    Packets::ClientboundLoginSetCompression(_) => true,
                    _ => false,
                };
                if is_set_compression {
                    self.compressed = true;
                }
                let shutdown = match packet {
                    Packets::ClientboundLoginDisconnect(_) => Some(String::new()),
                    _ => None,
                };
                Outbound { bytes: Some(bytes), shutdown }
            },
            Err(EncodeError::FrameTooLarge) => Outbound {
                bytes: None,
                shutdown: Some(String::from_str("Server tried sending a packet over the frame size limit")),
            },
        }
    }
}

/// Once compression is on, it stays on: every later frame uses the
/// compression envelope.
pub proof fn lemma_compression_stays_on(before: Writer, after: Writer, packet: Packets, out: Outbound)
    requires
        before.compression_on(),
        after.compression() == before.compression(),
        match packet {
            Packets::InternalNetworkDisconnect(_) | Packets::InternalServerInitialize(_) =>
                after.compression_on() == before.compression_on(),
            _ => match within_limit(frame_of(id_of(packet@), packet.body(), before.current())) {
                Ok(_) => after.compression_on() == (before.compression_on()
                    || packet is ClientboundLoginSetCompression),
                Err(_) => after.compression_on() == before.compression_on(),
            },
        },
    ensures
        after.compression_on(),
        after.current() == Some(before.compression()),
{
}

/// The packet the writer sends when the connection shuts down in `state`:
/// a Play-state disconnect with the reason, only in Play.
pub fn farewell(state: ConnectionState, reason: String) -> (r: Option<Packets>)
    ensures
        r matches Some(p) ==> state == ConnectionState::Play && p@ == PacketView::ClientboundPlayDisconnect(reason@),
        r is None ==> state != ConnectionState::Play || reason@.len() > 262144,
{
    if state != ConnectionState::Play {
        return None;
    }
    match Chat::new(reason) {
        Some(reason) => Some(Packets::ClientboundPlayDisconnect(Box::new(Disconnect { reason }))),
        None => None,
    }
}

} // verus!
