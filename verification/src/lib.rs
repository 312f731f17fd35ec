//! Core of a client/server networking runtime for realtime simulations:
//! a bit-level wire codec, the standard packet header, acknowledgement
//! tracking, the connection handshake and the message channels, all over
//! an unreliable, unordered datagram substrate.

pub mod ack_field;
pub mod ack_manager;
pub mod address;
pub mod auth;
pub mod auth_payload;
pub mod bit_reader;
pub mod bit_writer;
pub mod bits;
pub mod bytes;
pub mod cache_map;
pub mod channel;
pub mod channel_error;
pub mod channel_set;
pub mod chunk;
pub mod client_actor_message;
pub mod client_handshake;
pub mod connection;
pub mod delivery;
pub mod encoding;
pub mod entity_waitlist;
pub mod handshake_manager;
pub mod hmac;
pub mod identity_receiver;
pub mod message;
pub mod message_channel_sender;
pub mod packet_receiver;
pub mod packet_type;
pub mod reliable_receiver;
pub mod reliable_sender;
pub mod request;
pub mod request_buffer;
pub mod response;
pub mod rtt;
pub mod sequenced;
pub mod server;
pub mod session;
pub mod socket;
pub mod standard_header;
pub mod unordered_unreliable_receiver;
pub mod unordered_unreliable_sender;
pub mod wrapping_number;
