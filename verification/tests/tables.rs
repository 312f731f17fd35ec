use naia_core::address::{AddressMap, SocketAddress};
use naia_core::auth::Auth;
use naia_core::cache_map::CacheMap;
use naia_core::identity_receiver::IdentityReceiverImpl;
use naia_core::packet_receiver::{PacketReceiverImpl, ServerAddr};
use naia_core::socket::{LinkConditionerConfig, Socket, SocketConfig};
use std::collections::VecDeque;

fn v4(last: u8, port: u16) -> SocketAddress {
    SocketAddress::V4 { octets: 0x0a00_0000 | last as u32, port }
}

#[test]
fn address_map_binds_one_timestamp_to_an_address() {
    let mut map = AddressMap::new();
    assert_eq!(map.len(), 0);
    map.insert(v4(2, 1), 10);
    map.insert(v4(3, 1), 20);
    map.insert(v4(2, 2), 30);
    assert_eq!(map.len(), 3);
    map.insert(v4(2, 1), 40);
    assert_eq!(map.len(), 3);
    assert_eq!(map.get(&v4(2, 1)), Some(40));
    assert_eq!(map.get(&v4(3, 1)), Some(20));
    assert_eq!(map.get(&v4(2, 2)), Some(30));
    assert_eq!(map.get(&v4(4, 1)), None);
    assert!(map.contains_key(&v4(3, 1)));
}

#[test]
fn address_map_forgets_a_removed_address() {
    let mut map = AddressMap::new();
    map.insert(v4(2, 1), 10);
    map.insert(v4(3, 1), 20);
    map.remove(&v4(2, 1));
    map.remove(&v4(9, 9));
    assert_eq!(map.len(), 1);
    assert_eq!(map.get(&v4(2, 1)), None);
    assert_eq!(map.get(&v4(3, 1)), Some(20));
}

#[test]
fn v6_addresses_differ_by_scope_and_flow() {
    let a = SocketAddress::V6 { segments: 1, port: 80, flowinfo: 0, scope_id: 0 };
    let b = SocketAddress::V6 { segments: 1, port: 80, flowinfo: 0, scope_id: 1 };
    let mut map = AddressMap::new();
    map.insert(a, 1);
    map.insert(b, 2);
    assert_eq!(map.get(&a), Some(1));
    assert_eq!(map.get(&b), Some(2));
}

#[test]
fn cache_forgets_the_oldest_when_full() {
    let mut cache = CacheMap::with_capacity(3);
    cache.insert(1, vec![1]);
    cache.insert(2, vec![2]);
    cache.insert(3, vec![3]);
    assert_eq!(cache.len(), 3);
    cache.insert(4, vec![4]);
    assert_eq!(cache.len(), 3);
    assert!(!cache.contains_key(&1));
    assert!(cache.contains_key(&2));
    assert_eq!(cache.get_unchecked(&4), &vec![4]);
    assert_eq!(cache.get(&1), None);
}

#[test]
fn cache_keeps_the_place_of_a_key_that_is_set_again() {
    let mut cache = CacheMap::with_capacity(2);
    cache.insert(1, vec![1]);
    cache.insert(2, vec![2]);
    cache.insert(1, vec![9]);
    assert_eq!(cache.len(), 2);
    assert_eq!(cache.get_unchecked(&1), &vec![9]);
    cache.insert(3, vec![3]);
    assert!(!cache.contains_key(&1));
    assert!(cache.contains_key(&2));
    assert!(cache.contains_key(&3));
}

#[test]
fn packets_are_handed_out_in_the_order_of_arrival() {
    let mut queue = VecDeque::new();
    queue.push_back(vec![1u8, 2]);
    let mut receiver = PacketReceiverImpl::new(queue, ServerAddr::Finding);
    receiver.push(vec![3]);
    assert_eq!(receiver.receive(), Ok(Some(&vec![1u8, 2])));
    assert_eq!(receiver.receive(), Ok(Some(&vec![3u8])));
    assert_eq!(receiver.receive(), Ok(None));
    receiver.push(Vec::new());
    assert_eq!(receiver.receive(), Ok(Some(&Vec::new())));
}

#[test]
fn server_address_is_found_later() {
    let mut receiver = PacketReceiverImpl::new(VecDeque::new(), ServerAddr::Finding);
    assert_eq!(receiver.server_addr(), ServerAddr::Finding);
    receiver.set_server_addr(ServerAddr::Found(v4(1, 14191)));
    assert_eq!(receiver.server_addr(), ServerAddr::Found(v4(1, 14191)));
}

#[test]
fn identity_token_is_taken_once() {
    let mut receiver = IdentityReceiverImpl::new();
    assert_eq!(receiver.receive(), Ok(None));
    receiver.send("first".to_string());
    receiver.send("second".to_string());
    assert_eq!(receiver.receive(), Ok(Some("second".to_string())));
    assert_eq!(receiver.receive(), Ok(None));
}

#[test]
fn socket_plans_carry_what_the_client_presents() {
    let config = SocketConfig::new(None, None);
    assert_eq!(config.rtc_endpoint_path, "rtc_session");
    let plan = Socket::connect("http://server/rtc_session", &config);
    assert_eq!(plan.server_session_url, "http://server/rtc_session");
    assert_eq!(plan.auth_bytes, None);
    assert_eq!(plan.auth_headers, None);
    assert_eq!(plan.io.receiver_condition, None);

    let plan = Socket::connect_with_auth("u", &config, b"user:pass".to_vec());
    assert_eq!(plan.auth_bytes, Some(b"user:pass".to_vec()));
    assert_eq!(plan.auth_headers, None);

    let headers = vec![("Authorization".to_string(), "Bearer t".to_string())];
    let plan = Socket::connect_with_auth_headers("u", &config, headers.clone());
    assert_eq!(plan.auth_bytes, None);
    assert_eq!(plan.auth_headers, Some(headers.clone()));

    let plan = Socket::connect_with_auth_and_headers("u", &config, vec![1], headers.clone());
    assert_eq!(plan.auth_bytes, Some(vec![1]));
    assert_eq!(plan.auth_headers, Some(headers));
}

#[test]
fn bad_link_conditions_the_receiver() {
    let link = LinkConditionerConfig { latency_millis: 100, jitter_millis: 20, loss_pct: 5 };
    let config = SocketConfig::new(Some(link), Some("session".to_string()));
    assert_eq!(config.rtc_endpoint_path, "session");
    assert_eq!(Socket::connect("u", &config).io.receiver_condition, Some(link));
    assert_eq!(Socket::connect_with_data_port(&config).receiver_condition, Some(link));
    assert_eq!(Socket::setup_io(&SocketConfig::new(None, None)).receiver_condition, None);
}

#[test]
fn auth_holds_name_and_password() {
    let auth = Auth::new("user", "pass");
    assert_eq!(auth.username, "user");
    assert_eq!(auth.password, "pass");
}
