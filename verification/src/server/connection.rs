//! What a connection decides: the handshake, which streams are opened, and what becomes of the
//! packets that it gets.

use bytes::BytesMut;
use vstd::prelude::*;

use crate::buffers;
use crate::buffers::{bytes_mut_advance, bytes_mut_as_slice};
use crate::net::{IpAddr, SocketAddr};
use crate::protocol::frame;
use crate::protocol::frame::{
    build_close_frame, build_initial_continue_frame, build_server_info_frame,
    parse_connect_payload,
};
use crate::protocol::types::{
    CloseReason, ConnectPayload, ConnectView, ExtensionEntry, ExtensionView, StreamType,
    PACKET_CLOSE, PACKET_CONNECT, PACKET_DATA, PACKET_INFO, STREAM_ID_CONTROL, WISP_HEADER_SIZE,
    WISP_VERSION_MAJOR,
};
use crate::server::auth;
use crate::server::auth::{shows_credentials, verify_client_info};
use crate::server::config::{ConfigView, ServerConfig};
use crate::server::dispatch::{DataStep, Dispatcher, DispatcherView};
use crate::server::security;
use crate::server::security::{is_ip_blocked, is_name_refused, is_raw_ip};
use crate::wire::read_u32_le;
use crate::ws::codec;
use crate::ws::codec::{OpCode, WebSocketError};
use crate::ws::upgrade::WsUpgradeError;

verus! {

/// Why a connection ended before its time.
#[derive(Debug)]
pub enum ConnectionError {
    Upgrade(WsUpgradeError),
    WebSocket(WebSocketError),
    Io(String),
    ClientClosed,
    Protocol(String),
    WriterClosed,
}

impl ConnectionError {
    /// The error in words.
    pub open spec fn text(self) -> Seq<char> {
        match self {
            ConnectionError::Upgrade(e) => "WebSocket upgrade failed: "@ + e.text(),
            ConnectionError::WebSocket(e) => "WebSocket error: "@ + codec::error_text(e),
            ConnectionError::Io(what) => "IO error: "@ + what@,
            ConnectionError::ClientClosed => "Connection closed by client"@,
            ConnectionError::Protocol(what) => "Protocol error: "@ + what@,
            ConnectionError::WriterClosed => "Writer closed"@,
        }
    }

    /// The error in words.
    pub fn message(&self) -> (r: String)
        ensures
            r@ == self.text(),
    {
        match self {
            ConnectionError::Upgrade(e) => "WebSocket upgrade failed: ".to_owned().concat(
                e.message().as_str(),
            ),
            ConnectionError::WebSocket(e) => "WebSocket error: ".to_owned().concat(e.message()),
            ConnectionError::Io(what) => "IO error: ".to_owned().concat(what.as_str()),
            ConnectionError::ClientClosed => "Connection closed by client".to_owned(),
            ConnectionError::Protocol(what) => "Protocol error: ".to_owned().concat(
                what.as_str(),
            ),
            ConnectionError::WriterClosed => "Writer closed".to_owned(),
        }
    }
}

// ---------------------------------------------------------------------------------------
// The handshake
// ---------------------------------------------------------------------------------------

/// Why a client is turned away, and the close reason that it is told.
#[derive(Debug, Clone, Copy, PartialEq, Eq, Structural)]
pub enum Refusal {
    /// It must say who it is, and its version of the protocol cannot.
    NeedsV2,
    /// It must say who it is, and it has not.
    NeedsAuth,
    /// What it says of itself is wrong.
    WrongAuth,
    /// It speaks another version.
    WrongVersion,
}

/// The close reason of a refusal.
pub open spec fn refusal_reason(refusal: Refusal) -> CloseReason {
    match refusal {
        Refusal::NeedsV2 => CloseReason::AuthRequired,
        Refusal::NeedsAuth => CloseReason::AuthRequired,
        Refusal::WrongAuth => CloseReason::AuthInvalidCredentials,
        Refusal::WrongVersion => CloseReason::IncompatibleExtensions,
    }
}

impl Refusal {
    /// The packet that tells the client.
    pub fn close_frame(self) -> (r: [u8; 6])
        ensures
            r@ == frame::close_bytes(STREAM_ID_CONTROL, refusal_reason(self)),
    {
        let reason = match self {
            Refusal::NeedsV2 => CloseReason::AuthRequired,
            Refusal::NeedsAuth => CloseReason::AuthRequired,
            Refusal::WrongAuth => CloseReason::AuthInvalidCredentials,
            Refusal::WrongVersion => CloseReason::IncompatibleExtensions,
        };
        build_close_frame(STREAM_ID_CONTROL, reason)
    }

    /// The error that the connection ends with.
    pub fn error(self) -> (r: ConnectionError)
        ensures
            r matches ConnectionError::Protocol(what) && what@ == match self {
                Refusal::NeedsV2 => "Auth required, v2 protocol mandatory"@,
                Refusal::NeedsAuth => "Auth required"@,
                Refusal::WrongAuth => "Auth failed"@,
                Refusal::WrongVersion => "Incompatible Wisp version"@,
            },
    {
        let what = match self {
            Refusal::NeedsV2 => "Auth required, v2 protocol mandatory",
            Refusal::NeedsAuth => "Auth required",
            Refusal::WrongAuth => "Auth failed",
            Refusal::WrongVersion => "Incompatible Wisp version",
        };
        ConnectionError::Protocol(what.to_owned())
    }
}

/// What the server does first.
#[derive(Debug)]
pub enum HandshakeStart {
    /// Send this packet, and judge the client's first one.
    SendInfo(BytesMut),
    /// Send this packet; the handshake is done.
    SendContinue([u8; 9]),
    /// Turn the client away.
    Refuse(Refusal),
}

/// What the server does about the client's first packet.
#[derive(Debug)]
pub enum HandshakeVerdict {
    /// Send this packet; the handshake is done.
    Accept([u8; 9]),
    /// Send this packet; the client's packet is the first of the connection.
    AcceptAndDeliver([u8; 9]),
    /// Turn the client away.
    Refuse(Refusal),
}

/// Whether a packet is the INFO packet of a client.
pub open spec fn is_client_info(packet: Seq<u8>) -> bool {
    &&& packet.len() >= WISP_HEADER_SIZE + 2
    &&& packet[0] == PACKET_INFO
    &&& frame::id_of(packet) == STREAM_ID_CONTROL
}

/// Why a client that sent this packet first is turned away, given whether its credentials let
/// it in.
pub open spec fn refusal_of(packet: Seq<u8>, config: ConfigView, lets_in: bool) -> Option<
    Refusal,
> {
    if is_client_info(packet) {
        if packet[WISP_HEADER_SIZE as int] != WISP_VERSION_MAJOR {
            Some(Refusal::WrongVersion)
        } else if config.auth_is_required() && auth::credentials_in(
            auth::client_extensions(packet),
        ) is None {
            Some(Refusal::NeedsAuth)
        } else if config.auth_is_required() && !lets_in {
            Some(Refusal::WrongAuth)
        } else {
            None
        }
    } else if config.auth_is_required() {
        Some(Refusal::NeedsAuth)
    } else {
        None
    }
}

/// Whether the verdict on a packet is what it must be.
pub open spec fn verdict_fits(
    packet: Seq<u8>,
    config: ConfigView,
    lets_in: bool,
    verdict: HandshakeVerdict,
) -> bool {
    match refusal_of(packet, config, lets_in) {
        Some(refusal) => verdict == HandshakeVerdict::Refuse(refusal),
        None => {
            let greeting = frame::continue_bytes(STREAM_ID_CONTROL, config.buffer_size);
            if is_client_info(packet) {
                verdict matches HandshakeVerdict::Accept(sent) && sent@ == greeting
            } else {
                verdict matches HandshakeVerdict::AcceptAndDeliver(sent) && sent@ == greeting
            }
        },
    }
}

/// Begins the handshake. A client of version 2 gets the server's INFO packet, without
/// extensions; any other gets its credit at once, unless it would have to say who it is.
pub fn begin_handshake(is_v2: bool, config: &ServerConfig) -> (r: HandshakeStart)
    ensures
        if is_v2 {
            r matches HandshakeStart::SendInfo(info) && buffers::contents_mut(info)
                == frame::server_info_bytes(seq![])
        } else if config@.auth_is_required() {
            r == HandshakeStart::Refuse(Refusal::NeedsV2)
        } else {
            r matches HandshakeStart::SendContinue(sent) && sent@ == frame::continue_bytes(
                STREAM_ID_CONTROL,
                config.buffer_size,
            )
        },
{
    if is_v2 {
        let none: [ExtensionEntry; 0] = [];
        proof {
            assert(crate::protocol::types::extension_views(none@) == Seq::<
                ExtensionView,
            >::empty());
        }
        HandshakeStart::SendInfo(build_server_info_frame(&none))
    } else if config.is_auth_required() {
        HandshakeStart::Refuse(Refusal::NeedsV2)
    } else {
        HandshakeStart::SendContinue(build_initial_continue_frame(config.buffer_size))
    }
}

/// Judges the client's first packet, given whether its credentials let it in.
pub fn judge_first_packet(packet: &[u8], config: &ServerConfig, lets_in: bool) -> (r:
    HandshakeVerdict)
    ensures
        verdict_fits(packet@, config@, lets_in, r),
{
    let is_info = packet.len() >= WISP_HEADER_SIZE + 2 && packet[0] == PACKET_INFO && read_u32_le(
        packet,
        1,
    ) == STREAM_ID_CONTROL;
    if is_info {
        if packet[WISP_HEADER_SIZE] != WISP_VERSION_MAJOR {
            return HandshakeVerdict::Refuse(Refusal::WrongVersion);
        }
        if config.is_auth_required() && !shows_credentials(packet) {
            return HandshakeVerdict::Refuse(Refusal::NeedsAuth);
        }
        if config.is_auth_required() && !lets_in {
            return HandshakeVerdict::Refuse(Refusal::WrongAuth);
        }
        HandshakeVerdict::Accept(build_initial_continue_frame(config.buffer_size))
    } else {
        if config.is_auth_required() {
            return HandshakeVerdict::Refuse(Refusal::NeedsAuth);
        }
        HandshakeVerdict::AcceptAndDeliver(build_initial_continue_frame(config.buffer_size))
    }
}

/// Judges the client's first packet.
pub fn judge_client_info(packet: &[u8], config: &ServerConfig) -> (r: HandshakeVerdict)
    ensures
        verdict_fits(packet@, config@, auth::info_lets_in(packet@, config@), r),
{
    let asked = config.is_auth_required() && packet.len() >= WISP_HEADER_SIZE + 2 && packet[0]
        == PACKET_INFO && read_u32_le(packet, 1) == STREAM_ID_CONTROL && packet[WISP_HEADER_SIZE]
        == WISP_VERSION_MAJOR;
    let lets_in = asked && verify_client_info(packet, config);
    judge_first_packet(packet, config, lets_in)
}

/// What is to be done about a frame during the handshake.
#[derive(Debug, Clone, Copy, PartialEq, Eq, Structural)]
pub enum HandshakeStep {
    /// It is the client's first packet.
    FirstPacket,
    /// The client closes the connection.
    ClientClosed,
    /// Answer with a pong.
    Pong,
    /// Nothing.
    Skip,
}

/// Tells what is to be done about a frame during the handshake.
pub fn handshake_step(opcode: OpCode) -> (r: HandshakeStep)
    ensures
        r == match opcode {
            OpCode::Binary => HandshakeStep::FirstPacket,
            OpCode::Close => HandshakeStep::ClientClosed,
            OpCode::Ping => HandshakeStep::Pong,
            _ => HandshakeStep::Skip,
        },
{
    match opcode {
        OpCode::Binary => HandshakeStep::FirstPacket,
        OpCode::Close => HandshakeStep::ClientClosed,
        OpCode::Ping => HandshakeStep::Pong,
        _ => HandshakeStep::Skip,
    }
}

// ---------------------------------------------------------------------------------------
// Opening streams
// ---------------------------------------------------------------------------------------

/// Why a CONNECT packet is refused before its name is resolved, given whether its stream id is
/// taken and whether its hostname is an address.
pub open spec fn connect_refusal(
    stream_id: u32,
    taken: bool,
    connect: ConnectView,
    is_raw: bool,
    config: ConfigView,
) -> Option<CloseReason> {
    if stream_id == STREAM_ID_CONTROL || taken || connect.port == 0 {
        Some(CloseReason::InvalidInfo)
    } else if config.hostname_blocked(connect.hostname) || config.port_blocked(connect.port)
        || security::name_refused(connect.hostname, is_raw, config) {
        Some(CloseReason::Blocked)
    } else {
        None
    }
}

/// Why a stream is refused for what its name resolves to, given whether its hostname is an
/// address. Only a TCP stream is asked that again.
pub open spec fn address_refusal(
    ip: IpAddr,
    stream_type: StreamType,
    is_raw: bool,
    config: ConfigView,
) -> Option<CloseReason> {
    if security::ip_blocked(ip, config) || (stream_type == StreamType::Tcp
        && !config.allow_direct_ip && is_raw) {
        Some(CloseReason::Blocked)
    } else {
        None
    }
}

/// Judges a CONNECT packet before its name is resolved, given whether its stream id is taken
/// and whether its hostname is an address.
pub fn judge_connect(
    stream_id: u32,
    taken: bool,
    connect: &ConnectPayload,
    is_raw: bool,
    config: &ServerConfig,
) -> (r: Option<CloseReason>)
    ensures
        r == connect_refusal(stream_id, taken, connect@, is_raw, config@),
{
    if stream_id == STREAM_ID_CONTROL || taken {
        return Some(CloseReason::InvalidInfo);
    }
    if connect.port == 0 {
        return Some(CloseReason::InvalidInfo);
    }
    if config.is_hostname_blocked(connect.hostname.as_str()) {
        return Some(CloseReason::Blocked);
    }
    if config.is_port_blocked(connect.port) {
        return Some(CloseReason::Blocked);
    }
    if is_name_refused(connect.hostname.as_str(), is_raw, config) {
        return Some(CloseReason::Blocked);
    }
    None
}

/// Judges a CONNECT packet before its name is resolved.
pub fn handle_connect<W, U>(
    dispatcher: &Dispatcher<W, U>,
    config: &ServerConfig,
    stream_id: u32,
    connect: &ConnectPayload,
) -> (r: Option<CloseReason>)
    requires
        dispatcher.inv(),
    ensures
        r == connect_refusal(
            stream_id,
            dispatcher@.streams.contains_key(stream_id),
            connect@,
            security::raw_ip(connect@.hostname),
            config@,
        ),
{
    judge_connect(
        stream_id,
        dispatcher.contains(stream_id),
        connect,
        is_raw_ip(connect.hostname.as_str()),
        config,
    )
}

/// Judges the address that a stream's name resolves to, given whether its hostname is an
/// address.
pub fn judge_address(
    ip: &IpAddr,
    stream_type: StreamType,
    is_raw: bool,
    config: &ServerConfig,
) -> (r: Option<CloseReason>)
    ensures
        r == address_refusal(*ip, stream_type, is_raw, config@),
{
    if is_ip_blocked(ip, config) {
        return Some(CloseReason::Blocked);
    }
    match stream_type {
        StreamType::Tcp => if !config.allow_direct_ip && is_raw {
            Some(CloseReason::Blocked)
        } else {
            None
        },
        StreamType::Udp => None,
    }
}

/// Judges the address that a stream's name resolves to.
pub fn handle_resolved(
    ip: &IpAddr,
    connect: &ConnectPayload,
    config: &ServerConfig,
) -> (r: Option<CloseReason>)
    ensures
        r == address_refusal(
            *ip,
            connect.stream_type,
            security::raw_ip(connect@.hostname),
            config@,
        ),
{
    judge_address(ip, connect.stream_type, is_raw_ip(connect.hostname.as_str()), config)
}

/// Where a stream leads, given what its name resolves to and whether its hostname is an address;
/// or why it leads nowhere.
pub open spec fn resolution(
    address: Option<IpAddr>,
    connect: ConnectView,
    is_raw: bool,
    config: ConfigView,
) -> Result<SocketAddr, CloseReason> {
    match address {
        Some(ip) => match address_refusal(ip, connect.stream_type, is_raw, config) {
            Some(reason) => Err(reason),
            None => Ok(SocketAddr { ip, port: connect.port }),
        },
        None => Err(CloseReason::Unreachable),
    }
}

/// Tells where a stream leads, given what its name resolves to; or why it leads nowhere.
pub fn judge_resolution(
    address: Option<IpAddr>,
    connect: &ConnectPayload,
    config: &ServerConfig,
) -> (r: Result<SocketAddr, CloseReason>)
    ensures
        r == resolution(address, connect@, security::raw_ip(connect@.hostname), config@),
{
    match address {
        Some(ip) => match handle_resolved(&ip, connect, config) {
            Some(reason) => Err(reason),
            None => Ok(SocketAddr { ip, port: connect.port }),
        },
        None => Err(connect_failure_reason(ConnectFailure::Unresolved)),
    }
}

/// Why a backend could not be connected.
#[derive(Debug, Clone, Copy, PartialEq, Eq, Structural)]
pub enum ConnectFailure {
    /// Its name has no address.
    Unresolved,
    /// It refused the connection.
    Refused,
    /// It did not answer in time.
    TimedOut,
    /// No socket could be had.
    NoSocket,
    /// Anything else.
    Other,
}

/// What the client is told about a backend that could not be connected.
pub fn connect_failure_reason(failure: ConnectFailure) -> (r: CloseReason)
    ensures
        r == match failure {
            ConnectFailure::Unresolved => CloseReason::Unreachable,
            ConnectFailure::Refused => CloseReason::Refused,
            ConnectFailure::TimedOut => CloseReason::TimedOut,
            ConnectFailure::NoSocket => CloseReason::NetworkError,
            ConnectFailure::Other => CloseReason::Unreachable,
        },
{
    match failure {
        ConnectFailure::Unresolved => CloseReason::Unreachable,
        ConnectFailure::Refused => CloseReason::Refused,
        ConnectFailure::TimedOut => CloseReason::TimedOut,
        ConnectFailure::NoSocket => CloseReason::NetworkError,
        ConnectFailure::Other => CloseReason::Unreachable,
    }
}

// ---------------------------------------------------------------------------------------
// Packets from the client
// ---------------------------------------------------------------------------------------

/// What is to be done about a packet from the client.
#[derive(Debug)]
pub enum Inbound {
    /// Nothing.
    Nothing,
    /// Go on with the data of a stream.
    Data { stream_id: u32, step: DataStep },
    /// Open a stream.
    Connect { stream_id: u32, connect: ConnectPayload },
    /// Tell the client that this cannot be a stream.
    Malformed { stream_id: u32 },
    /// Close the connection.
    CloseConnection,
}

/// Whether a packet was taken as it must be: `before` and `after` are the states of the
/// streams.
pub open spec fn packet_taken<W, U>(
    before: DispatcherView<W, U>,
    packet_type: u8,
    stream_id: u32,
    payload: Seq<u8>,
    after: DispatcherView<W, U>,
    r: Inbound,
) -> bool {
    if packet_type == PACKET_DATA {
        &&& r == Inbound::Data { stream_id, step: before.first_step(stream_id) }
        &&& after == before.looked_at(stream_id, payload)
    } else if packet_type == PACKET_CONNECT {
        &&& after == before
        &&& match frame::connect_of(payload) {
            Some(connect) => {
                &&& r matches Inbound::Connect { stream_id: id, connect: got }
                &&& id == stream_id
                &&& got@ == connect
            },
            None => r == Inbound::Malformed { stream_id },
        }
    } else if packet_type == PACKET_CLOSE {
        if stream_id == STREAM_ID_CONTROL {
            r is CloseConnection && after == before
        } else {
            r is Nothing && before.without(stream_id, after)
        }
    } else {
        r is Nothing && after == before
    }
}

/// Takes a packet from the client whose header was taken off. Where the data of a stream is to
/// be written, it is still in `payload`.
pub fn handle_inbound<W, U>(
    dispatcher: &mut Dispatcher<W, U>,
    packet_type: u8,
    stream_id: u32,
    payload: &mut BytesMut,
) -> (r: Inbound)
    requires
        old(dispatcher).inv(),
    ensures
        final(dispatcher).inv(),
        packet_taken(
            old(dispatcher)@,
            packet_type,
            stream_id,
            buffers::contents_mut(*old(payload)),
            final(dispatcher)@,
            r,
        ),
        if packet_type == PACKET_DATA && final(dispatcher)@ != old(dispatcher)@ {
            buffers::contents_mut(*final(payload)) == Seq::<u8>::empty()
        } else {
            *final(payload) == *old(payload)
        },
{
    if packet_type == PACKET_DATA {
        let step = dispatcher.handle_data_zerocopy(stream_id, payload);
        Inbound::Data { stream_id, step }
    } else if packet_type == PACKET_CONNECT {
        match parse_connect_payload(bytes_mut_as_slice(payload)) {
            Some(connect) => Inbound::Connect { stream_id, connect },
            None => Inbound::Malformed { stream_id },
        }
    } else if packet_type == PACKET_CLOSE {
        if stream_id == STREAM_ID_CONTROL {
            Inbound::CloseConnection
        } else {
            dispatcher.close_stream(stream_id);
            Inbound::Nothing
        }
    } else {
        Inbound::Nothing
    }
}

/// Takes a whole packet from the client, such as one that came in place of an INFO packet. It
/// is dropped if it is larger than is accepted or too short for a header.
pub fn process_inbound_frame<W, U>(
    dispatcher: &mut Dispatcher<W, U>,
    max_frame_size: usize,
    packet: &mut BytesMut,
) -> (r: Inbound)
    requires
        old(dispatcher).inv(),
    ensures
        final(dispatcher).inv(),
        ({
            let bytes = buffers::contents_mut(*old(packet));
            if (max_frame_size > 0 && bytes.len() > max_frame_size) || bytes.len()
                < WISP_HEADER_SIZE {
                &&& r is Nothing
                &&& final(dispatcher)@ == old(dispatcher)@
                &&& *final(packet) == *old(packet)
            } else {
                &&& packet_taken(
                    old(dispatcher)@,
                    bytes[0],
                    frame::id_of(bytes),
                    bytes.skip(WISP_HEADER_SIZE as int),
                    final(dispatcher)@,
                    r,
                )
                &&& buffers::contents_mut(*final(packet)) == if bytes[0] == PACKET_DATA
                    && final(dispatcher)@ != old(dispatcher)@ {
                    Seq::<u8>::empty()
                } else {
                    bytes.skip(WISP_HEADER_SIZE as int)
                }
            }
        }),
{
    if max_frame_size > 0 && packet.len() > max_frame_size {
        return Inbound::Nothing;
    }
    if packet.len() < WISP_HEADER_SIZE {
        return Inbound::Nothing;
    }
    let packet_type: u8 = bytes_mut_as_slice(packet)[0];
    let stream_id: u32 = read_u32_le(bytes_mut_as_slice(packet), 1);
    bytes_mut_advance(packet, WISP_HEADER_SIZE);
    handle_inbound(dispatcher, packet_type, stream_id, packet)
}

/// What is to be done about a frame that is no binary one.
#[derive(Debug, Clone, Copy, PartialEq, Eq, Structural)]
pub enum ControlStep {
    /// Answer with a close and end the connection.
    Close,
    /// Answer with a pong.
    Pong,
    /// Note that the client answered a ping.
    NotePong,
    /// Nothing.
    Nothing,
}

/// Tells what is to be done about a frame that is no binary one.
pub fn control_step(opcode: OpCode) -> (r: ControlStep)
    ensures
        r == match opcode {
            OpCode::Close => ControlStep::Close,
            OpCode::Ping => ControlStep::Pong,
            OpCode::Pong => ControlStep::NotePong,
            _ => ControlStep::Nothing,
        },
{
    match opcode {
        OpCode::Close => ControlStep::Close,
        OpCode::Ping => ControlStep::Pong,
        OpCode::Pong => ControlStep::NotePong,
        _ => ControlStep::Nothing,
    }
}

// ---------------------------------------------------------------------------------------
// Bytes from a backend
// ---------------------------------------------------------------------------------------

/// What came of reading from a backend.
#[derive(Debug, Clone, Copy, PartialEq, Eq, Structural)]
pub enum ReadOutcome {
    /// So many bytes.
    Data(usize),
    /// The backend has closed the connection.
    End,
    /// The backend is gone.
    Failed,
}

/// What the task that reads from a backend does next.
#[derive(Debug, Clone, Copy, PartialEq, Eq, Structural)]
pub enum ReaderStep {
    /// Send so many bytes to the client and read on.
    Forward(usize),
    /// Report that the stream is closed, and stop.
    Report(CloseReason),
    /// Stop.
    Stop,
}

/// Tells what the task that reads from a backend does next. A task that was told to stop sends
/// and reports nothing more.
pub fn reader_step(cancelled: bool, outcome: ReadOutcome) -> (r: ReaderStep)
    ensures
        r == if cancelled {
            ReaderStep::Stop
        } else {
            match outcome {
                ReadOutcome::Data(count) => ReaderStep::Forward(count),
                ReadOutcome::End => ReaderStep::Report(CloseReason::Voluntary),
                ReadOutcome::Failed => ReaderStep::Report(CloseReason::NetworkError),
            }
        },
{
    if cancelled {
        return ReaderStep::Stop;
    }
    match outcome {
        ReadOutcome::Data(count) => ReaderStep::Forward(count),
        ReadOutcome::End => ReaderStep::Report(CloseReason::Voluntary),
        ReadOutcome::Failed => ReaderStep::Report(CloseReason::NetworkError),
    }
}

// ---------------------------------------------------------------------------------------
// Laws
// ---------------------------------------------------------------------------------------

/// Where clients must say who they are, no client gets through the handshake with anything but
/// an INFO packet of this version whose credentials let it in.
pub proof fn no_one_gets_past_the_handshake_unknown(
    packet: Seq<u8>,
    config: ConfigView,
    verdict: HandshakeVerdict,
)
    requires
        config.auth_is_required(),
        verdict_fits(packet, config, auth::info_lets_in(packet, config), verdict),
    ensures
        verdict is Refuse || (verdict is Accept && is_client_info(packet)
            && packet[WISP_HEADER_SIZE as int] == WISP_VERSION_MAJOR && auth::info_lets_in(
            packet,
            config,
        )),
{
}

/// Where clients must say who they are, one of this version that is turned away is told so if it
/// shows no credentials, and that they are wrong if it shows any.
pub proof fn missing_credentials_are_told_from_wrong_ones(
    packet: Seq<u8>,
    config: ConfigView,
    lets_in: bool,
    refusal: Refusal,
)
    requires
        config.auth_is_required(),
        refusal_of(packet, config, lets_in) == Some(refusal),
        refusal != Refusal::WrongVersion,
    ensures
        if is_client_info(packet) && auth::credentials_in(
            auth::client_extensions(packet),
        ) is Some {
            !lets_in && refusal_reason(refusal) == CloseReason::AuthInvalidCredentials
        } else {
            refusal_reason(refusal) == CloseReason::AuthRequired
        },
{
}

/// Where clients need not say who they are, only another version is a reason to turn one away.
pub proof fn open_servers_take_everyone(
    packet: Seq<u8>,
    config: ConfigView,
    lets_in: bool,
    verdict: HandshakeVerdict,
)
    requires
        !config.auth_is_required(),
        verdict_fits(packet, config, lets_in, verdict),
    ensures
        verdict is Refuse <==> is_client_info(packet) && packet[WISP_HEADER_SIZE as int]
            != WISP_VERSION_MAJOR,
{
}

/// The client's packet is delivered exactly if it is no INFO packet and the client is not
/// turned away.
pub proof fn only_other_packets_are_delivered(
    packet: Seq<u8>,
    config: ConfigView,
    lets_in: bool,
    verdict: HandshakeVerdict,
)
    requires
        verdict_fits(packet, config, lets_in, verdict),
    ensures
        verdict is AcceptAndDeliver <==> !is_client_info(packet) && !(verdict is Refuse),
{
}

/// No stream is opened on the control stream, under an id that is taken, or to port zero.
pub proof fn impossible_streams_are_refused(
    stream_id: u32,
    taken: bool,
    connect: ConnectView,
    is_raw: bool,
    config: ConfigView,
)
    ensures
        connect_refusal(stream_id, taken, connect, is_raw, config) == Some(
            CloseReason::InvalidInfo,
        ) <==> stream_id == STREAM_ID_CONTROL || taken || connect.port == 0,
{
}

/// A stream that passes both judgements leads to no address and no port that clients are kept
/// from.
pub proof fn what_is_opened_is_allowed(
    stream_id: u32,
    taken: bool,
    connect: ConnectView,
    is_raw: bool,
    ip: IpAddr,
    config: ConfigView,
)
    requires
        connect_refusal(stream_id, taken, connect, is_raw, config) is None,
        address_refusal(ip, connect.stream_type, is_raw, config) is None,
    ensures
        !security::ip_blocked(ip, config),
        !config.hostname_blocked(connect.hostname),
        !config.port_blocked(connect.port),
        !config.allow_direct_ip ==> !is_raw,
{
}

/// A request for a stream is refused as blocked exactly if its id and port are possible and a list
/// or a flag speaks against it: its hostname or its port is missing from a whitelist or stands on
/// the blacklist that counts where there is none, or the name is refused for what it looks like.
pub proof fn only_lists_and_flags_block(
    stream_id: u32,
    taken: bool,
    connect: ConnectView,
    is_raw: bool,
    config: ConfigView,
)
    ensures
        ({
            let name = crate::text::lower(connect.hostname);
            let by_name = if exists|n: Seq<char>| config.whitelist_hostnames.contains(n) {
                !config.whitelist_hostnames.contains(name)
            } else {
                config.blacklist_hostnames.contains(name)
            };
            let by_port = if exists|p: u16| config.whitelist_ports.contains(p) {
                !config.whitelist_ports.contains(connect.port)
            } else {
                config.blacklist_ports.contains(connect.port)
            };
            let by_looks = security::name_refused(connect.hostname, is_raw, config);
            let refusal = connect_refusal(stream_id, taken, connect, is_raw, config);
            if stream_id == 0 || taken || connect.port == 0 {
                refusal == Some(CloseReason::InvalidInfo)
            } else if by_name || by_port || by_looks {
                refusal == Some(CloseReason::Blocked)
            } else {
                refusal is None
            }
        }),
{
    if exists|n: Seq<char>| config.whitelist_hostnames.contains(n) {
        assert(!config.whitelist_hostnames.is_empty());
    } else {
        assert(config.whitelist_hostnames =~= Set::empty());
    }
    if exists|p: u16| config.whitelist_ports.contains(p) {
        assert(!config.whitelist_ports.is_empty());
    } else {
        assert(config.whitelist_ports =~= Set::empty());
    }
}

/// A server without lists that allows every kind of address refuses no request for a possible
/// stream, whatever its name, its port and its transport.
pub proof fn open_servers_open_every_stream(
    stream_id: u32,
    connect: ConnectView,
    is_raw: bool,
    config: ConfigView,
)
    requires
        config.whitelist_hostnames == Set::<Seq<char>>::empty(),
        config.blacklist_hostnames == Set::<Seq<char>>::empty(),
        config.whitelist_ports == Set::<u16>::empty(),
        config.blacklist_ports == Set::<u16>::empty(),
        config.allow_loopback,
        config.allow_private_ips,
        config.allow_direct_ip,
        stream_id != 0,
        connect.port != 0,
    ensures
        connect_refusal(stream_id, false, connect, is_raw, config) is None,
{
}

/// A stream leads exactly to the address that its name resolves to and to the port that was asked
/// for, over TCP and UDP alike, unless clients are kept from that address; a name without an
/// address leads nowhere.
pub proof fn streams_lead_where_they_were_asked_to(
    address: Option<IpAddr>,
    connect: ConnectView,
    is_raw: bool,
    config: ConfigView,
)
    ensures
        ({
            let way = resolution(address, connect, is_raw, config);
            &&& way matches Ok(to) ==> address == Some(to.ip) && to.port == connect.port
            &&& address matches Some(ip) ==> {
                let kept = security::ip_blocked(ip, config) || (connect.stream_type
                    == StreamType::Tcp && is_raw && !config.allow_direct_ip);
                &&& !kept ==> way == Ok::<SocketAddr, CloseReason>(
                    SocketAddr { ip, port: connect.port },
                )
                &&& kept ==> way == Err::<SocketAddr, CloseReason>(CloseReason::Blocked)
            }
            &&& address is None ==> way == Err::<SocketAddr, CloseReason>(
                CloseReason::Unreachable,
            )
        }),
{
}

/// Two requests that differ in their ports alone lead to addresses that differ in their ports
/// alone, and they are kept from the same addresses.
pub proof fn ports_change_no_address(
    address: Option<IpAddr>,
    connect: ConnectView,
    port: u16,
    is_raw: bool,
    config: ConfigView,
)
    ensures
        resolution(address, ConnectView { port, ..connect }, is_raw, config) == match resolution(
            address,
            connect,
            is_raw,
            config,
        ) {
            Ok(to) => Ok::<SocketAddr, CloseReason>(SocketAddr { port, ..to }),
            Err(reason) => Err::<SocketAddr, CloseReason>(reason),
        },
{
}

/// Whether a client is let in by its first packet, byte by byte: an INFO packet is of type 5, on
/// stream 0, and names version 2; it is answered with the server's credit on stream 0 unless the
/// client has to say who it is and its credentials do not let it in.
pub proof fn newcomers_are_let_in(
    packet: Seq<u8>,
    config: ConfigView,
    lets_in: bool,
    verdict: HandshakeVerdict,
)
    requires
        packet.len() >= 7,
        packet.take(6) == seq![0x05u8, 0, 0, 0, 0, 2],
        verdict_fits(packet, config, lets_in, verdict),
        !config.auth_is_required() || (lets_in && auth::credentials_in(
            auth::client_extensions(packet),
        ) is Some),
    ensures
        verdict matches HandshakeVerdict::Accept(sent) && sent@ == seq![0x03u8, 0, 0, 0, 0]
            + crate::wire::le_of_u32(config.buffer_size),
{
    let head = packet.take(6);
    assert(forall|i: int| 0 <= i < 6 ==> head[i] == packet[i]);
    assert(packet.subrange(1, 5) == seq![0u8, 0, 0, 0]);
    assert(frame::continue_bytes(0, config.buffer_size) == seq![0x03u8, 0, 0, 0, 0]
        + crate::wire::le_of_u32(config.buffer_size));
}

/// Which packets count as a client's INFO packet, and of which version.
pub proof fn what_an_info_packet_is(packet: Seq<u8>)
    ensures
        is_client_info(packet) <==> packet.len() >= 7 && packet.take(5) == seq![0x05u8, 0, 0, 0, 0],
{
    if packet.len() >= 7 {
        let id = packet.subrange(1, 5);
        crate::wire::le_survives_u32(id);
        let head = packet.take(5);
        assert(forall|i: int| 0 <= i < 5 ==> head[i] == packet[i]);
        if is_client_info(packet) {
            assert(crate::wire::u32_of_le(id) == 0);
            assert(id == crate::wire::le_of_u32(0));
            assert(id[0] == 0 && id[1] == 0 && id[2] == 0 && id[3] == 0);
            assert(head == seq![0x05u8, 0, 0, 0, 0]);
        }
        if head == seq![0x05u8, 0, 0, 0, 0] {
            assert(id == seq![0u8, 0, 0, 0]);
        }
    }
}

/// An INFO packet of another version is turned away as that, whoever sends it and whatever the
/// server asks for.
pub proof fn other_versions_are_turned_away(
    packet: Seq<u8>,
    config: ConfigView,
    lets_in: bool,
    verdict: HandshakeVerdict,
)
    requires
        is_client_info(packet),
        verdict_fits(packet, config, lets_in, verdict),
    ensures
        packet[5] != 2 <==> verdict == HandshakeVerdict::Refuse(Refusal::WrongVersion),
{
}

/// A client whose first packet is no INFO packet is let in where no one has to say who they are,
/// with the same credit, and is told to say so where they have to.
pub proof fn clients_without_info(
    packet: Seq<u8>,
    config: ConfigView,
    lets_in: bool,
    verdict: HandshakeVerdict,
)
    requires
        !is_client_info(packet),
        verdict_fits(packet, config, lets_in, verdict),
    ensures
        config.auth_is_required() ==> verdict == HandshakeVerdict::Refuse(Refusal::NeedsAuth),
        !config.auth_is_required() ==> (verdict matches HandshakeVerdict::AcceptAndDeliver(sent)
            && sent@ == seq![0x03u8, 0, 0, 0, 0] + crate::wire::le_of_u32(config.buffer_size)),
{
    assert(frame::continue_bytes(0, config.buffer_size) == seq![0x03u8, 0, 0, 0, 0]
        + crate::wire::le_of_u32(config.buffer_size));
}

/// What a client that is turned away reads: a CLOSE packet on stream 0 with the reason's byte.
pub proof fn what_refused_clients_read(refusal: Refusal)
    ensures
        frame::close_bytes(0, refusal_reason(refusal)) == seq![
            0x04u8,
            0,
            0,
            0,
            0,
            if refusal == Refusal::WrongVersion {
                0x04u8
            } else if refusal == Refusal::WrongAuth {
                0xc0
            } else {
                0xc2
            },
        ],
{
}

/// The errors in words.
pub proof fn errors_have_their_words(what: String, ws: WebSocketError, upgrade: WsUpgradeError)
    ensures
        ConnectionError::Io(what).text() == "IO error: "@ + what@,
        ConnectionError::Protocol(what).text() == "Protocol error: "@ + what@,
        ConnectionError::ClientClosed.text() == "Connection closed by client"@,
        ConnectionError::WriterClosed.text() == "Writer closed"@,
        ConnectionError::WebSocket(ws).text() == "WebSocket error: "@ + codec::error_text(ws),
        ConnectionError::Upgrade(upgrade).text() == "WebSocket upgrade failed: "@ + upgrade.text(),
        WsUpgradeError::Io(what).text() == "IO error: "@ + what@,
        WsUpgradeError::Hyper(what).text() == "Hyper error: "@ + what@,
        WsUpgradeError::UpgradeFailed.text() == "WebSocket upgrade failed"@,
        WsUpgradeError::WebSocket(ws).text() == "WebSocket error: "@ + codec::error_text(ws),
{
}

/// A task that reads from a backend and was told to stop does nothing more; any other sends on
/// every byte that it reads, and reports the end of the backend as voluntary and its failure as a
/// network error.
pub proof fn readers_send_on_what_they_read(cancelled: bool, outcome: ReadOutcome, r: ReaderStep)
    requires
        call_ensures(reader_step, (cancelled, outcome), r),
    ensures
        cancelled <==> r == ReaderStep::Stop,
        !cancelled ==> {
            &&& outcome matches ReadOutcome::Data(count) ==> r == ReaderStep::Forward(count)
            &&& outcome == ReadOutcome::End ==> r == ReaderStep::Report(CloseReason::Voluntary)
            &&& outcome == ReadOutcome::Failed ==> r == ReaderStep::Report(
                CloseReason::NetworkError,
            )
        },
{
}

/// During the handshake a binary frame is the client's first packet, a close ends it, a ping is
/// answered, and anything else is waited out.
pub proof fn handshakes_wait_for_a_packet(opcode: OpCode, r: HandshakeStep)
    requires
        call_ensures(handshake_step, (opcode,), r),
    ensures
        r == HandshakeStep::FirstPacket <==> opcode == OpCode::Binary,
        r == HandshakeStep::ClientClosed <==> opcode == OpCode::Close,
        r == HandshakeStep::Pong <==> opcode == OpCode::Ping,
{
}

/// After the handshake a close is answered and ends the connection, a ping is answered, a pong is
/// noted, and any other frame that is not binary is ignored.
pub proof fn control_frames_have_their_steps(opcode: OpCode, r: ControlStep)
    requires
        call_ensures(control_step, (opcode,), r),
    ensures
        r == ControlStep::Close <==> opcode == OpCode::Close,
        r == ControlStep::Pong <==> opcode == OpCode::Ping,
        r == ControlStep::NotePong <==> opcode == OpCode::Pong,
{
}

/// What a client is told about a backend that could not be connected: that it refused, that it did
/// not answer in time, that no socket could be had, and that it is out of reach in all other cases.
pub proof fn failures_have_their_reasons(failure: ConnectFailure, r: CloseReason)
    requires
        call_ensures(connect_failure_reason, (failure,), r),
    ensures
        r == CloseReason::Refused <==> failure == ConnectFailure::Refused,
        r == CloseReason::TimedOut <==> failure == ConnectFailure::TimedOut,
        r == CloseReason::NetworkError <==> failure == ConnectFailure::NoSocket,
        r == CloseReason::Unreachable <==> failure == ConnectFailure::Unresolved || failure
            == ConnectFailure::Other,
{
}

/// The handshake begins with the server's INFO packet for a client of version 2, whatever the
/// configuration; any other client gets its credit at once, or is turned away if it would have to
/// say who it is.
pub proof fn handshakes_begin(is_v2: bool, config: ServerConfig, r: HandshakeStart)
    requires
        call_ensures(begin_handshake, (is_v2, &config), r),
    ensures
        is_v2 ==> (r matches HandshakeStart::SendInfo(info) && buffers::contents_mut(info) == seq![
            0x05u8,
            0,
            0,
            0,
            0,
            2,
            1,
        ]),
        !is_v2 && config@.auth_is_required() ==> r == HandshakeStart::Refuse(Refusal::NeedsV2),
        !is_v2 && !config@.auth_is_required() ==> (r matches HandshakeStart::SendContinue(sent)
            && sent@ == seq![0x03u8, 0, 0, 0, 0] + crate::wire::le_of_u32(config.buffer_size)),
{
    frame::server_info_has_its_length(seq![]);
    assert(frame::continue_bytes(0, config.buffer_size) == seq![0x03u8, 0, 0, 0, 0]
        + crate::wire::le_of_u32(config.buffer_size));
}

/// Judging a request says that it is invalid for a reserved or taken id and for port zero, that it
/// is blocked for a name or a port that the lists keep from clients or a name that is refused for
/// its looks, and nothing in all other cases, whatever the port and the transport.
pub proof fn requests_are_judged_by_lists_and_flags(
    stream_id: u32,
    taken: bool,
    connect: ConnectPayload,
    is_raw: bool,
    config: ServerConfig,
    r: Option<CloseReason>,
)
    requires
        call_ensures(judge_connect, (stream_id, taken, &connect, is_raw, &config), r),
    ensures
        ({
            let impossible = stream_id == 0 || taken || connect.port == 0;
            let kept = config@.hostname_blocked(connect.hostname@) || config@.port_blocked(
                connect.port,
            ) || security::name_refused(connect.hostname@, is_raw, config@);
            &&& r == Some(CloseReason::InvalidInfo) <==> impossible
            &&& r == Some(CloseReason::Blocked) <==> !impossible && kept
            &&& r is None <==> !impossible && !kept
        }),
{
    only_lists_and_flags_block(stream_id, taken, connect@, is_raw, config@);
}

/// Judging what a name resolves to hands the port that was asked for on unchanged with the address,
/// over either transport; two requests to one name that differ in their ports differ in them alone.
pub proof fn resolutions_keep_the_port(
    address: Option<IpAddr>,
    a: ConnectPayload,
    b: ConnectPayload,
    config: ServerConfig,
    r: Result<SocketAddr, CloseReason>,
    s: Result<SocketAddr, CloseReason>,
)
    requires
        call_ensures(judge_resolution, (address, &a, &config), r),
        call_ensures(judge_resolution, (address, &b, &config), s),
        a.hostname@ == b.hostname@,
    ensures
        r matches Ok(to) ==> address == Some(to.ip) && to.port == a.port,
        address is None <==> r == Err::<SocketAddr, CloseReason>(CloseReason::Unreachable),
        address matches Some(ip) ==> (security::ip_blocked(ip, config@) ==> r == Err::<
            SocketAddr,
            CloseReason,
        >(CloseReason::Blocked)),
        address matches Some(ip) ==> (!security::ip_blocked(ip, config@) && (a.stream_type
            == StreamType::Udp || config.allow_direct_ip || !security::raw_ip(a.hostname@))
            ==> r == Ok::<SocketAddr, CloseReason>(SocketAddr { ip, port: a.port })),
        a.stream_type == b.stream_type ==> (r is Ok <==> s is Ok),
        r is Ok && s is Ok ==> r->Ok_0.ip == s->Ok_0.ip && r->Ok_0.port == a.port && s->Ok_0.port
            == b.port,
{
}

/// What a connection ends with when its client is turned away.
pub proof fn refusals_have_their_words(refusal: Refusal, r: ConnectionError)
    requires
        call_ensures(Refusal::error, (refusal,), r),
    ensures
        r matches ConnectionError::Protocol(what) && what@ == if refusal == Refusal::NeedsV2 {
            "Auth required, v2 protocol mandatory"@
        } else if refusal == Refusal::NeedsAuth {
            "Auth required"@
        } else if refusal == Refusal::WrongAuth {
            "Auth failed"@
        } else {
            "Incompatible Wisp version"@
        },
{
}

} // verus!
