//! The types of the binary protocol of the tunnel.

use vstd::prelude::*;

verus! {

/// The largest message, in bytes: 16 MiB.
pub const MAX_MESSAGE_SIZE: usize = 16777216;

/// The version of the protocol.
pub const PROTOCOL_VERSION: u8 = 1;

/// The kinds of messages.
#[derive(Debug, Clone, Copy, PartialEq, Eq, Structural)]
pub enum MessageType {
    /// The handshake is begun.
    ClientHello,
    /// The handshake is answered.
    ServerHello,
    /// An encrypted data frame.
    Data,
    /// A tunnel is asked for.
    TunnelRequest,
    /// The answer to that.
    TunnelResponse,
    /// A heartbeat.
    Ping,
    /// The answer to a heartbeat.
    Pong,
    /// The connection is closed.
    Close,
}

/// The byte that stands for a kind of message on the wire.
pub open spec fn code_of(t: MessageType) -> u8 {
    match t {
        MessageType::ClientHello => 0x01,
        MessageType::ServerHello => 0x02,
        MessageType::Data => 0x10,
        MessageType::TunnelRequest => 0x20,
        MessageType::TunnelResponse => 0x21,
        MessageType::Ping => 0x30,
        MessageType::Pong => 0x31,
        MessageType::Close => 0xFF,
    }
}

impl MessageType {
    /// The byte that stands for this kind of message.
    pub fn code(self) -> (c: u8)
        ensures
            c == code_of(self),
    {
        match self {
            MessageType::ClientHello => 0x01,
            MessageType::ServerHello => 0x02,
            MessageType::Data => 0x10,
            MessageType::TunnelRequest => 0x20,
            MessageType::TunnelResponse => 0x21,
            MessageType::Ping => 0x30,
            MessageType::Pong => 0x31,
            MessageType::Close => 0xFF,
        }
    }

    /// The kind of message that a byte stands for, if it stands for one.
    pub fn from_code(c: u8) -> (r: Option<MessageType>)
        ensures
            r matches Some(t) ==> code_of(t) == c,
            r is None ==> forall|t: MessageType| code_of(t) != c,
    {
        if c == 0x01 {
            Some(MessageType::ClientHello)
        } else if c == 0x02 {
            Some(MessageType::ServerHello)
        } else if c == 0x10 {
            Some(MessageType::Data)
        } else if c == 0x20 {
            Some(MessageType::TunnelRequest)
        } else if c == 0x21 {
            Some(MessageType::TunnelResponse)
        } else if c == 0x30 {
            Some(MessageType::Ping)
        } else if c == 0x31 {
            Some(MessageType::Pong)
        } else if c == 0xFF {
            Some(MessageType::Close)
        } else {
            None
        }
    }
}

/// The message that begins the key exchange.
#[derive(Debug, Clone)]
pub struct ClientHello {
    pub version: u8,
    pub ephemeral_pubkey: [u8; 32],
    pub nonce: [u8; 32],
}

/// The message that answers the key exchange.
#[derive(Debug, Clone)]
pub struct ServerHello {
    pub version: u8,
    pub ephemeral_pubkey: [u8; 32],
    pub nonce: [u8; 32],
}

/// What a tunnel carries.
#[derive(Debug, Clone, Copy, PartialEq, Eq, Structural)]
pub enum TunnelType {
    Http,
    Tcp,
}

/// An agent asks for a tunnel.
#[derive(Debug, Clone)]
pub struct TunnelRequest {
    pub subdomain: Option<String>,
    pub tunnel_type: TunnelType,
    pub local_port: u16,
}

/// The relay answers.
#[derive(Debug, Clone)]
pub struct TunnelResponse {
    pub success: bool,
    pub tunnel_id: String,
    pub public_url: String,
    pub error: Option<String>,
}

/// An encrypted data frame.
#[derive(Debug, Clone)]
pub struct DataFrame {
    pub nonce: [u8; 12],
    pub ciphertext: Vec<u8>,
    pub tag: [u8; 16],
}

/// Whether a message of `len` bytes is within the largest size.
pub fn fits_message(len: usize) -> (r: bool)
    ensures
        r == (len <= MAX_MESSAGE_SIZE),
{
    len <= MAX_MESSAGE_SIZE
}

} // verus!
