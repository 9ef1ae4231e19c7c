use feo::ids::{ActivityId, AgentId, ChannelId, GenericId, RelayId, WorkerId};
use feo::text::{append_decimal, append_hex, parse_usize, push_decimal_bytes, push_hex_bytes};

#[test]
fn activity_id_text_is_prefix_and_decimal_value() {
    let id: ActivityId = GenericId::new(5);
    assert_eq!(id.to_string(), "A5");
    let agent: AgentId = GenericId::new(17);
    assert_eq!(agent.to_string(), "Agt-17");
    let worker: WorkerId = GenericId::new(0);
    assert_eq!(worker.to_string(), "W0");
    let relay: RelayId = GenericId::new(u64::MAX);
    assert_eq!(relay.to_string(), "R18446744073709551615");
}

#[test]
fn channel_id_text_wraps_the_id_text() {
    assert_eq!(ChannelId::Worker(GenericId::new(3)).to_string(), "C(W3)");
    assert_eq!(ChannelId::Agent(GenericId::new(12)).to_string(), "C(Agt-12)");
    assert_eq!(ChannelId::Activity(GenericId::new(40)).to_string(), "C(A40)");
    assert_eq!(ChannelId::Relay(GenericId::new(1)).to_string(), "C(R1)");
}

#[test]
fn id_converts_to_and_from_u64() {
    let id: ActivityId = ActivityId::from(42u64);
    assert_eq!(id.id(), 42);
    assert_eq!(u64::from(id), 42);
    let same: ActivityId = GenericId::new(42);
    assert!(id == same);
    let other: ActivityId = GenericId::new(43);
    assert!(id != other);
}

#[test]
fn decimal_and_hex_texts() {
    let mut s = String::from("n=");
    append_decimal(&mut s, 0);
    assert_eq!(s, "n=0");
    let mut s = String::new();
    append_decimal(&mut s, 1234567890);
    assert_eq!(s, "1234567890");
    let mut h = String::new();
    append_hex(&mut h, 0xBEEF);
    assert_eq!(h, "BEEF");
    let mut h = String::new();
    append_hex(&mut h, 0);
    assert_eq!(h, "0");
    let mut b: Vec<u8> = Vec::new();
    push_decimal_bytes(&mut b, 907);
    assert_eq!(b, b"907".to_vec());
    let mut b: Vec<u8> = Vec::new();
    push_hex_bytes(&mut b, 255);
    assert_eq!(b, b"FF".to_vec());
}

#[test]
fn parse_usize_reads_decimal_numbers() {
    assert_eq!(parse_usize(b"0"), Some(0));
    assert_eq!(parse_usize(b"4096"), Some(4096));
    assert_eq!(parse_usize(b"+12"), Some(12));
    assert_eq!(parse_usize(b""), None);
    assert_eq!(parse_usize(b"+"), None);
    assert_eq!(parse_usize(b"12a"), None);
    assert_eq!(parse_usize(b"-1"), None);
    assert_eq!(parse_usize(b"99999999999999999999999999"), None);
}

#[test]
fn parse_usize_reads_back_decimal_text() {
    for n in [0u64, 7, 10, 65535, 123456789] {
        let mut b: Vec<u8> = Vec::new();
        push_decimal_bytes(&mut b, n);
        assert_eq!(parse_usize(&b), Some(n as usize));
    }
}

#[test]
fn ids_are_ordered_by_value() {
    let a2: ActivityId = GenericId::new(2);
    let a10: ActivityId = GenericId::new(10);
    assert!(a2 < a10);
    assert!(!(a10 < a2));
    assert_eq!(a2.partial_cmp(&a10), Some(std::cmp::Ordering::Less));
    assert_eq!(a10.cmp(&a2), std::cmp::Ordering::Greater);
    let mut ids: Vec<AgentId> = vec![GenericId::new(9), GenericId::new(1), GenericId::new(5)];
    ids.sort();
    assert_eq!(ids, vec![GenericId::new(1), GenericId::new(5), GenericId::new(9)]);
    let w1: WorkerId = GenericId::new(1);
    assert!(w1 <= GenericId::new(1));
}
