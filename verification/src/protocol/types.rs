//! Wisp v2.1 protocol types and constants.

use vstd::prelude::*;

verus! {

/// Wisp protocol version, major part.
pub const WISP_VERSION_MAJOR: u8 = 2;

/// Wisp protocol version, minor part.
pub const WISP_VERSION_MINOR: u8 = 1;

pub const PACKET_CONNECT: u8 = 0x01;

pub const PACKET_DATA: u8 = 0x02;

pub const PACKET_CONTINUE: u8 = 0x03;

pub const PACKET_CLOSE: u8 = 0x04;

pub const PACKET_INFO: u8 = 0x05;

/// Stream id reserved for control of the whole connection.
pub const STREAM_ID_CONTROL: u32 = 0;

/// Size of the header of every packet: the type, then the stream id in little endian.
pub const WISP_HEADER_SIZE: usize = 5;

/// The longest hostname that a CONNECT packet may carry, in bytes.
pub const MAX_HOSTNAME_SIZE: usize = 253;

/// Transport of a proxied stream.
#[derive(Debug, Clone, Copy, PartialEq, Eq, Structural)]
pub enum StreamType {
    Tcp,
    Udp,
}

/// The stream type that a byte stands for on the wire.
pub open spec fn stream_type_of(b: u8) -> Option<StreamType> {
    if b == 0x01 {
        Some(StreamType::Tcp)
    } else if b == 0x02 {
        Some(StreamType::Udp)
    } else {
        None
    }
}

impl StreamType {
    /// Reads the stream type of a CONNECT packet.
    pub fn from_byte(b: u8) -> (r: Option<Self>)
        ensures
            r == stream_type_of(b),
    {
        match b {
            0x01 => Some(StreamType::Tcp),
            0x02 => Some(StreamType::Udp),
            _ => None,
        }
    }
}

/// Why a stream, or the whole connection, is closed.
#[derive(Debug, Clone, Copy, PartialEq, Eq, Structural)]
pub enum CloseReason {
    /// 0x01: unspecified or unknown.
    Unknown,
    /// 0x02: voluntary closure.
    Voluntary,
    /// 0x03: unexpected closure because of a network error.
    NetworkError,
    /// 0x04: incompatible extensions, during the handshake only.
    IncompatibleExtensions,
    /// 0x41: invalid stream information, such as a reserved address or port.
    InvalidInfo,
    /// 0x42: unreachable destination.
    Unreachable,
    /// 0x43: the connection attempt timed out.
    TimedOut,
    /// 0x44: the destination refused the connection.
    Refused,
    /// 0x47: data transfer timed out.
    TransferTimeout,
    /// 0x48: the proxy blocks the destination.
    Blocked,
    /// 0x49: throttled by the server.
    Throttled,
    /// 0x81: unexpected error on the client's side.
    ClientError,
    /// 0xc0: the credentials are wrong.
    AuthInvalidCredentials,
    /// 0xc1: the signature is wrong.
    AuthInvalidSignature,
    /// 0xc2: credentials are required and were not given.
    AuthRequired,
}

/// The byte that stands for a close reason on the wire.
pub open spec fn close_reason_byte(reason: CloseReason) -> u8 {
    match reason {
        CloseReason::Unknown => 0x01,
        CloseReason::Voluntary => 0x02,
        CloseReason::NetworkError => 0x03,
        CloseReason::IncompatibleExtensions => 0x04,
        CloseReason::InvalidInfo => 0x41,
        CloseReason::Unreachable => 0x42,
        CloseReason::TimedOut => 0x43,
        CloseReason::Refused => 0x44,
        CloseReason::TransferTimeout => 0x47,
        CloseReason::Blocked => 0x48,
        CloseReason::Throttled => 0x49,
        CloseReason::ClientError => 0x81,
        CloseReason::AuthInvalidCredentials => 0xc0,
        CloseReason::AuthInvalidSignature => 0xc1,
        CloseReason::AuthRequired => 0xc2,
    }
}

/// Whether some close reason is written as this byte.
pub open spec fn is_close_reason_byte(b: u8) -> bool {
    ||| 0x01 <= b <= 0x04
    ||| 0x41 <= b <= 0x44
    ||| 0x47 <= b <= 0x49
    ||| b == 0x81
    ||| 0xc0 <= b <= 0xc2
}

/// The close reason that a byte is read as: the one written as that byte, and `Unknown` for a
/// byte that no reason is written as.
pub open spec fn close_reason_of(b: u8) -> CloseReason {
    if b == 0x02 {
        CloseReason::Voluntary
    } else if b == 0x03 {
        CloseReason::NetworkError
    } else if b == 0x04 {
        CloseReason::IncompatibleExtensions
    } else if b == 0x41 {
        CloseReason::InvalidInfo
    } else if b == 0x42 {
        CloseReason::Unreachable
    } else if b == 0x43 {
        CloseReason::TimedOut
    } else if b == 0x44 {
        CloseReason::Refused
    } else if b == 0x47 {
        CloseReason::TransferTimeout
    } else if b == 0x48 {
        CloseReason::Blocked
    } else if b == 0x49 {
        CloseReason::Throttled
    } else if b == 0x81 {
        CloseReason::ClientError
    } else if b == 0xc0 {
        CloseReason::AuthInvalidCredentials
    } else if b == 0xc1 {
        CloseReason::AuthInvalidSignature
    } else if b == 0xc2 {
        CloseReason::AuthRequired
    } else {
        CloseReason::Unknown
    }
}

/// Reading a reason's byte gives the reason back.
pub proof fn close_reason_survives_the_wire(reason: CloseReason)
    ensures
        is_close_reason_byte(close_reason_byte(reason)),
        close_reason_of(close_reason_byte(reason)) == reason,
{
}

/// Writing what was read from a byte gives that byte back, for every byte that stands for a
/// reason; every other byte is read as `Unknown`.
pub proof fn close_byte_survives_reading(b: u8)
    ensures
        is_close_reason_byte(b) ==> close_reason_byte(close_reason_of(b)) == b,
        !is_close_reason_byte(b) ==> close_reason_of(b) == CloseReason::Unknown,
{
}

impl CloseReason {
    /// Reads a close reason. A byte that stands for none is taken as `Unknown`.
    pub fn from_byte(b: u8) -> (r: Self)
        ensures
            r == close_reason_of(b),
    {
        match b {
            0x01 => CloseReason::Unknown,
            0x02 => CloseReason::Voluntary,
            0x03 => CloseReason::NetworkError,
            0x04 => CloseReason::IncompatibleExtensions,
            0x41 => CloseReason::InvalidInfo,
            0x42 => CloseReason::Unreachable,
            0x43 => CloseReason::TimedOut,
            0x44 => CloseReason::Refused,
            0x47 => CloseReason::TransferTimeout,
            0x48 => CloseReason::Blocked,
            0x49 => CloseReason::Throttled,
            0x81 => CloseReason::ClientError,
            0xc0 => CloseReason::AuthInvalidCredentials,
            0xc1 => CloseReason::AuthInvalidSignature,
            0xc2 => CloseReason::AuthRequired,
            _ => CloseReason::Unknown,
        }
    }

    /// The byte that is sent for the reason.
    pub fn as_byte(self) -> (r: u8)
        ensures
            r == close_reason_byte(self),
    {
        match self {
            CloseReason::Unknown => 0x01,
            CloseReason::Voluntary => 0x02,
            CloseReason::NetworkError => 0x03,
            CloseReason::IncompatibleExtensions => 0x04,
            CloseReason::InvalidInfo => 0x41,
            CloseReason::Unreachable => 0x42,
            CloseReason::TimedOut => 0x43,
            CloseReason::Refused => 0x44,
            CloseReason::TransferTimeout => 0x47,
            CloseReason::Blocked => 0x48,
            CloseReason::Throttled => 0x49,
            CloseReason::ClientError => 0x81,
            CloseReason::AuthInvalidCredentials => 0xc0,
            CloseReason::AuthInvalidSignature => 0xc1,
            CloseReason::AuthRequired => 0xc2,
        }
    }
}

/// What a CONNECT packet asks for.
#[derive(Debug, Clone)]
pub struct ConnectPayload {
    pub stream_type: StreamType,
    pub port: u16,
    pub hostname: String,
}

/// The request of a CONNECT packet as a mathematical value.
#[verifier::ext_equal]
pub struct ConnectView {
    pub stream_type: StreamType,
    pub port: u16,
    pub hostname: Seq<char>,
}

impl View for ConnectPayload {
    type V = ConnectView;

    open spec fn view(&self) -> ConnectView {
        ConnectView { stream_type: self.stream_type, port: self.port, hostname: self.hostname@ }
    }
}

/// One entry of the extension list of an INFO packet.
#[derive(Debug, Clone)]
pub struct ExtensionEntry {
    pub id: u8,
    pub payload: Vec<u8>,
}

/// An extension entry as a mathematical value.
#[verifier::ext_equal]
pub struct ExtensionView {
    pub id: u8,
    pub payload: Seq<u8>,
}

impl View for ExtensionEntry {
    type V = ExtensionView;

    open spec fn view(&self) -> ExtensionView {
        ExtensionView { id: self.id, payload: self.payload@ }
    }
}

/// A list of extension entries as a mathematical value.
pub open spec fn extension_views(entries: Seq<ExtensionEntry>) -> Seq<ExtensionView> {
    entries.map_values(|e: ExtensionEntry| e@)
}

/// Each reason has its byte.
pub proof fn reasons_have_their_bytes(reason: CloseReason)
    ensures
        reason == CloseReason::Unknown <==> close_reason_byte(reason) == 1,
        reason == CloseReason::Voluntary <==> close_reason_byte(reason) == 2,
        reason == CloseReason::NetworkError <==> close_reason_byte(reason) == 3,
        reason == CloseReason::IncompatibleExtensions <==> close_reason_byte(reason) == 4,
        reason == CloseReason::InvalidInfo <==> close_reason_byte(reason) == 65,
        reason == CloseReason::Unreachable <==> close_reason_byte(reason) == 66,
        reason == CloseReason::TimedOut <==> close_reason_byte(reason) == 67,
        reason == CloseReason::Refused <==> close_reason_byte(reason) == 68,
        reason == CloseReason::TransferTimeout <==> close_reason_byte(reason) == 71,
        reason == CloseReason::Blocked <==> close_reason_byte(reason) == 72,
        reason == CloseReason::Throttled <==> close_reason_byte(reason) == 73,
        reason == CloseReason::ClientError <==> close_reason_byte(reason) == 129,
        reason == CloseReason::AuthInvalidCredentials <==> close_reason_byte(reason) == 192,
        reason == CloseReason::AuthInvalidSignature <==> close_reason_byte(reason) == 193,
        reason == CloseReason::AuthRequired <==> close_reason_byte(reason) == 194,
{
}

/// A list of entries stands for the ids and the bytes of its entries, one by one.
pub proof fn entries_stand_for_what_they_hold(entries: Seq<ExtensionEntry>, i: int)
    ensures
        extension_views(entries).len() == entries.len(),
        0 <= i < entries.len() ==> extension_views(entries)[i].id == entries[i].id
            && extension_views(entries)[i].payload == entries[i].payload@,
{
}

} // verus!
