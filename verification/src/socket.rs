//! What a client decides before it opens a socket to the server.
//!
//! Opening the socket itself is the host's work. The functions here put
//! together what the host needs for it: the address of the session
//! endpoint, what the client presents to be let in, and whether the
//! datagrams that arrive pass through a simulated bad link.

use vstd::prelude::*;

verus! {

/// The path of the session endpoint unless the host names another.
pub open spec fn default_endpoint_path() -> Seq<char> {
    "rtc_session"@
}

/// A simulated bad link, for tests.
#[derive(Clone, Copy, PartialEq, Eq, Debug, Structural)]
pub struct LinkConditionerConfig {
    /// The delay added to every datagram, in milliseconds.
    pub latency_millis: u32,
    /// The largest amount by which the delay varies, in milliseconds.
    pub jitter_millis: u32,
    /// The share of datagrams that is lost, in percent.
    pub loss_pct: u8,
}

/// How a socket is set up.
pub struct SocketConfig {
    /// The simulated bad link, if there is to be one.
    pub link_condition: Option<LinkConditionerConfig>,
    /// The path of the session endpoint at the server.
    pub rtc_endpoint_path: String,
}

/// How datagrams are taken from the socket.
#[derive(Clone, Copy, PartialEq, Eq, Debug, Structural)]
pub struct IoPlan {
    /// The simulated bad link through which arriving datagrams pass, if
    /// there is one.
    pub receiver_condition: Option<LinkConditionerConfig>,
}

/// What the host needs to open a socket to the server.
pub struct ConnectionPlan {
    /// The address of the session endpoint.
    pub server_session_url: String,
    /// The bytes that the client presents to be let in.
    pub auth_bytes: Option<Vec<u8>>,
    /// The header fields that the client presents to be let in.
    pub auth_headers: Option<Vec<(String, String)>>,
    /// How datagrams are taken from the socket.
    pub io: IoPlan,
}

impl SocketConfig {
    /// A configuration with the given link and path; the path is
    /// `rtc_session` where none is given.
    pub fn new(link_condition: Option<LinkConditionerConfig>, rtc_endpoint_path: Option<String>) -> (config:
        Self)
        ensures
            config.link_condition == link_condition,
            config.rtc_endpoint_path@ == match rtc_endpoint_path {
                Some(path) => path@,
                None => default_endpoint_path(),
            },
    {
        let path = match rtc_endpoint_path {
            Some(path) => path,
            None => "rtc_session".to_owned(),
        };
        SocketConfig { link_condition, rtc_endpoint_path: path }
    }
}

/// A client-side socket over an unordered, unreliable substrate.
pub struct Socket;

impl Socket {
    /// The plan to connect to the server without presenting anything.
    pub fn connect(server_session_url: &str, config: &SocketConfig) -> (plan: ConnectionPlan)
        ensures
            plan.server_session_url@ == server_session_url@,
            plan.auth_bytes is None,
            plan.auth_headers is None,
            plan.io.receiver_condition == config.link_condition,
    {
        return Self::connect_inner(server_session_url, config, None, None);
    }

    /// The plan to connect to the server presenting bytes.
    pub fn connect_with_auth(server_session_url: &str, config: &SocketConfig, auth_bytes: Vec<u8>) -> (plan:
        ConnectionPlan)
        ensures
            plan.server_session_url@ == server_session_url@,
            plan.auth_bytes == Some(auth_bytes),
            plan.auth_headers is None,
            plan.io.receiver_condition == config.link_condition,
    {
        return Self::connect_inner(server_session_url, config, Some(auth_bytes), None);
    }

    /// The plan to connect to the server presenting header fields.
    pub fn connect_with_auth_headers(
        server_session_url: &str,
        config: &SocketConfig,
        auth_headers: Vec<(String, String)>,
    ) -> (plan: ConnectionPlan)
        ensures
            plan.server_session_url@ == server_session_url@,
            plan.auth_bytes is None,
            plan.auth_headers == Some(auth_headers),
            plan.io.receiver_condition == config.link_condition,
    {
        return Self::connect_inner(server_session_url, config, None, Some(auth_headers));
    }

    /// The plan to connect to the server presenting bytes and header
    /// fields.
    pub fn connect_with_auth_and_headers(
        server_session_url: &str,
        config: &SocketConfig,
        auth_bytes: Vec<u8>,
        auth_headers: Vec<(String, String)>,
    ) -> (plan: ConnectionPlan)
        ensures
            plan.server_session_url@ == server_session_url@,
            plan.auth_bytes == Some(auth_bytes),
            plan.auth_headers == Some(auth_headers),
            plan.io.receiver_condition == config.link_condition,
    {
        return Self::connect_inner(
            server_session_url,
            config,
            Some(auth_bytes),
            Some(auth_headers),
        );
    }

    /// The plan to connect to the server presenting what is given.
    pub fn connect_inner(
        server_session_url: &str,
        config: &SocketConfig,
        auth_bytes_opt: Option<Vec<u8>>,
        auth_headers_opt: Option<Vec<(String, String)>>,
    ) -> (plan: ConnectionPlan)
        ensures
            plan.server_session_url@ == server_session_url@,
            plan.auth_bytes == auth_bytes_opt,
            plan.auth_headers == auth_headers_opt,
            plan.io.receiver_condition == config.link_condition,
    {
        let io = Socket::setup_io(config);
        return ConnectionPlan {
            server_session_url: server_session_url.to_owned(),
            auth_bytes: auth_bytes_opt,
            auth_headers: auth_headers_opt,
            io,
        };
    }

    /// How datagrams are taken from a socket over a data port that is
    /// already open.
    pub fn connect_with_data_port(config: &SocketConfig) -> (io: IoPlan)
        ensures
            io.receiver_condition == config.link_condition,
    {
        return Socket::setup_io(config);
    }

    /// How datagrams are taken from the socket: through the simulated bad
    /// link if the configuration has one, and directly otherwise.
    pub fn setup_io(config: &SocketConfig) -> (io: IoPlan)
        ensures
            io.receiver_condition == config.link_condition,
    {
        IoPlan { receiver_condition: config.link_condition }
    }
}

} // verus!
