use netsync::config::NetConfig;

#[test]
fn server_defaults_match_the_deployed_values() {
    let c = NetConfig::server_defaults();
    assert_eq!(c.idle_timeout_ms, 1000);
    assert_eq!(c.max_packet_size, 16384);
    assert_eq!(c.max_fragments, 18);
    assert_eq!(c.fragment_size, 1450);
    assert_eq!(c.fragment_reassembly_buffer_size, 1450);
    assert_eq!(c.receive_buffer_max_size, 1450);
    assert_eq!(c.rtt_max_value, 500);
    assert_eq!(c.socket_event_buffer_size, 1024);
    assert_eq!(c.socket_polling_timeout_ms, 100);
    assert_eq!(c.max_throughput, 5000);
}
