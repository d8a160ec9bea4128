//! Plain-value transport configuration: the knobs the game runs its
//! datagram channel with. The smoothing factor of the transport's
//! round-trip estimator is fractional and lives with the transport glue,
//! not here.

use vstd::prelude::*;

verus! {

/// Milliseconds of peer silence after which the peer counts as gone.
pub const DEFAULT_IDLE_TIMEOUT_MS: u64 = 1000;

/// Largest application message the channel accepts before fragmenting.
pub const DEFAULT_MAX_PACKET_SIZE: u32 = 16384;

/// Most fragments one message may be cut into.
pub const DEFAULT_MAX_FRAGMENTS: u16 = 18;

/// Bytes per fragment.
pub const DEFAULT_FRAGMENT_SIZE: u16 = 1450;

/// Bytes of reassembly buffer per connection.
pub const DEFAULT_FRAGMENT_REASSEMBLY_BUFFER_SIZE: u16 = 1450;

/// Bytes of receive buffer.
pub const DEFAULT_RECEIVE_BUFFER_MAX_SIZE: u16 = 1450;

/// Cap on the round-trip estimate, in milliseconds.
pub const DEFAULT_RTT_MAX_VALUE: u16 = 500;

/// Socket event queue length.
pub const DEFAULT_SOCKET_EVENT_BUFFER_SIZE: u32 = 1024;

/// Milliseconds one blocking poll of the socket may take.
pub const DEFAULT_SOCKET_POLLING_TIMEOUT_MS: u64 = 100;

/// Most datagrams handled per poll.
pub const DEFAULT_MAX_THROUGHPUT: u32 = 5000;

/// The channel's configuration, as plain values.
#[derive(Clone, Copy, Debug, PartialEq, Eq, Structural)]
pub struct NetConfig {
    pub idle_timeout_ms: u64,
    pub max_packet_size: u32,
    pub max_fragments: u16,
    pub fragment_size: u16,
    pub fragment_reassembly_buffer_size: u16,
    pub receive_buffer_max_size: u16,
    pub rtt_max_value: u16,
    pub socket_event_buffer_size: u32,
    pub socket_polling_timeout_ms: u64,
    pub max_throughput: u32,
}

/// The configuration the game serves with.
pub open spec fn spec_server_defaults() -> NetConfig {
    NetConfig {
        idle_timeout_ms: DEFAULT_IDLE_TIMEOUT_MS,
        max_packet_size: DEFAULT_MAX_PACKET_SIZE,
        max_fragments: DEFAULT_MAX_FRAGMENTS,
        fragment_size: DEFAULT_FRAGMENT_SIZE,
        fragment_reassembly_buffer_size: DEFAULT_FRAGMENT_REASSEMBLY_BUFFER_SIZE,
        receive_buffer_max_size: DEFAULT_RECEIVE_BUFFER_MAX_SIZE,
        rtt_max_value: DEFAULT_RTT_MAX_VALUE,
        socket_event_buffer_size: DEFAULT_SOCKET_EVENT_BUFFER_SIZE,
        socket_polling_timeout_ms: DEFAULT_SOCKET_POLLING_TIMEOUT_MS,
        max_throughput: DEFAULT_MAX_THROUGHPUT,
    }
}

impl NetConfig {
    /// The defaults both endpoints run with.
    pub fn server_defaults() -> (c: NetConfig)
        ensures
            c == spec_server_defaults(),
    {
        NetConfig {
            idle_timeout_ms: DEFAULT_IDLE_TIMEOUT_MS,
            max_packet_size: DEFAULT_MAX_PACKET_SIZE,
            max_fragments: DEFAULT_MAX_FRAGMENTS,
            fragment_size: DEFAULT_FRAGMENT_SIZE,
            fragment_reassembly_buffer_size: DEFAULT_FRAGMENT_REASSEMBLY_BUFFER_SIZE,
            receive_buffer_max_size: DEFAULT_RECEIVE_BUFFER_MAX_SIZE,
            rtt_max_value: DEFAULT_RTT_MAX_VALUE,
            socket_event_buffer_size: DEFAULT_SOCKET_EVENT_BUFFER_SIZE,
            socket_polling_timeout_ms: DEFAULT_SOCKET_POLLING_TIMEOUT_MS,
            max_throughput: DEFAULT_MAX_THROUGHPUT,
        }
    }
}

} // verus!
