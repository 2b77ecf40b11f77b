use vsm::dns::{
    announcement, name, name_at, parse_dns, question, reply_to_asker, u16_at, DnsError,
};
use vsm::osc::live_types;
use vsm::query::{
    chosen, is_asked, is_client, is_service, label, query_tree, reply, request_path, requested,
    rhythm, wants_more, Candidates, Node, Reply, Service,
};
use vsm::text::TextMap;

const INSTANCE: &str = "VRChat-Client-fixture._oscjson._tcp.local.";

fn child<'a>(node: &'a Node, name: &str) -> &'a Node {
    &node.children.iter().find(|(key, _)| key == name).unwrap().1
}

#[test]
fn discovery_roundtrip_and_bounds() {
    let packet = announcement(INSTANCE, "fixture.local.", 12345, 120, 0);
    let result = parse_dns(&packet, "other", "other").unwrap();
    assert_eq!(result.id, 0);
    assert_eq!(result.ports, vec![(12345, 120)]);
    assert!(parse_dns(&packet[..20], "other", "other").is_err());
    let mut at = 0;
    assert!(name_at(&[0xc0, 0], &mut at).is_err());
    let tree = query_tree(&live_types());
    let mut node = &tree.document();
    for key in ["CONTENTS", "usercamera", "CONTENTS", "Pose"] {
        node = node.get(key).unwrap();
    }
    assert_eq!(node.unsigned_at("ACCESS"), Some(2));
    assert_eq!(node.text_at("TYPE").unwrap(), "ffffff");
    assert_eq!(node.text_at("FULL_PATH").unwrap(), "/usercamera/Pose");
    assert!(node.get("CONTENTS").is_none());
}

#[test]
fn names_come_back() {
    let mut bytes = Vec::new();
    name(&mut bytes, "fixture.local.");
    assert_eq!(bytes, b"\x07fixture\x05local\0");
    let mut at = 0;
    assert_eq!(name_at(&bytes, &mut at).unwrap(), "fixture.local.");
    assert_eq!(at, bytes.len());
}

#[test]
fn pointers_are_followed() {
    let mut bytes = b"\x05local\0".to_vec();
    bytes.extend_from_slice(b"\x03abc\xc0\x00");
    let mut at = 7;
    assert_eq!(name_at(&bytes, &mut at).unwrap(), "abc.local.");
    assert_eq!(at, 13);
}

#[test]
fn broken_names_are_refused() {
    let refused = |bytes: &[u8]| {
        let mut at = 0;
        name_at(bytes, &mut at).unwrap_err()
    };
    assert_eq!(refused(b""), DnsError::Name);
    assert_eq!(refused(b"\x05loc"), DnsError::ShortLabel);
    assert_eq!(refused(b"\x41a\0"), DnsError::Label);
    assert_eq!(refused(b"\x01\xff\0"), DnsError::Utf8);
    assert_eq!(refused(b"\xc0\x00"), DnsError::Pointer);
    assert_eq!(refused(b"\xc0"), DnsError::Word);
    let mut long = b"\x01a".repeat(128);
    long.push(0);
    assert_eq!(refused(&long), DnsError::Length);
    let mut chain = vec![0u8];
    for _ in 0..130 {
        let before = chain.len().saturating_sub(2);
        chain.extend_from_slice(&[0xc0 | (before >> 8) as u8, before as u8]);
    }
    let mut at = chain.len() - 2;
    assert_eq!(name_at(&chain, &mut at), Err(DnsError::Recursion));
    assert_eq!(u16_at(b"\x01", 0), Err(DnsError::Word));
    assert_eq!(u16_at(b"\x01\x02", 0), Ok(0x0102));
}

#[test]
fn questions_are_recognised() {
    let result = parse_dns(&question(), "other", "other").unwrap();
    assert!(result.reply);
    assert!(result.ports.is_empty());
    assert_eq!(parse_dns(b"\0\0", "other", "other").unwrap_err(), DnsError::Packet);
}

#[test]
fn broken_packets_are_refused() {
    let good = announcement(INSTANCE, "fixture.local.", 12345, 120, 7);
    let refused = |packet: &[u8]| parse_dns(packet, "other", "other").unwrap_err();
    assert_eq!(parse_dns(&good, "other", "other").unwrap().id, 7);
    assert_eq!(refused(&good[..11]), DnsError::Packet);
    let mut many = good.clone();
    many[6] = 0xff;
    assert_eq!(refused(&many), DnsError::Records);
    assert_eq!(refused(&good[..good.len() - 1]), DnsError::Data);
    let mut head = vec![0u8; 12];
    head[7] = 1;
    head.extend_from_slice(&[0, 0, 33]);
    assert_eq!(refused(&head), DnsError::Record);
    head.extend_from_slice(&[0, 1, 0, 0, 0, 5, 0, 2, 0, 0]);
    let mut service = vec![0u8; 12];
    service[7] = 1;
    name(&mut service, INSTANCE);
    service.extend_from_slice(&[0, 33, 0, 1, 0, 0, 0, 5, 0, 2, 0, 0]);
    assert_eq!(refused(&service), DnsError::Service);
    assert!(parse_dns(&head, "other", "other").is_ok());
}

#[test]
fn every_address_stands_in_the_tree() {
    let types = live_types();
    let tree = query_tree(&types);
    for i in 0..types.len() {
        let (address, kind) = types.entry(i);
        let mut node = &tree;
        for part in address.split('/').skip(1) {
            node = child(node, part);
        }
        assert_eq!(node.path, *address);
        assert_eq!(node.kind.as_ref(), Some(kind));
    }
}

#[test]
fn requests_are_read_to_their_end() {
    assert_eq!(wants_more(b"GET / HTTP/1.1\r\n"), Some(true));
    assert_eq!(wants_more(b"GET / HTTP/1.1\r\n\r\n"), Some(false));
    assert_eq!(request_path("GET /?HOST_INFO HTTP/1.1\r\nHost: localhost\r\n\r\n"), "/?HOST_INFO");
}

#[test]
fn requests_are_answered_by_their_path() {
    let types = live_types();
    assert_eq!(reply("/?HOST_INFO", &types).0, Reply::HostInfo);
    assert_eq!(reply("/", &types).0, Reply::Tree);
    let (what, kind) = reply("/usercamera/Pose", &types);
    assert_eq!(what, Reply::Endpoint);
    assert_eq!(kind.unwrap(), "ffffff");
    assert_eq!(reply("/elsewhere", &types).0, Reply::Unknown);
    assert_eq!(Reply::Unknown.status(), 404);
    assert_eq!(Reply::HostInfo.status(), 200);
}

#[test]
fn services_are_told_apart() {
    assert_eq!(label(INSTANCE), "VRChat-Client-fixture");
    assert!(is_client("VRChat-Client-1"));
    assert!(!is_client("Other"));
    assert!(is_service("vrchat-CLIENT-x._OSCJSON._tcp.local.."));
    assert!(!is_service("VRChat-Client-x._osc._udp.local."));
    assert!(is_asked("/avatar/parameters/ScaleFactor", "f"));
    assert!(!is_asked("/usercamera/Pose", "ffffff"));
    assert!(!is_asked("/avatar/change", "s"));
    assert_eq!(chosen(&vec![(1, false), (2, true)]), Some(2));
    assert_eq!(chosen(&vec![(1, true), (2, true)]), None);
    assert_eq!(chosen(&vec![]), None);
}

#[test]
fn candidates_count_until_their_time_is_up() {
    let mut c = Candidates::new();
    c.found(&vec![(9000, 120), (8000, 1)], 5);
    assert_eq!(c.live(10_000_000_004), [8000, 9000]);
    assert_eq!(c.live(10_000_000_005), [] as [u16; 0]);
    let many: Vec<(u16, u32)> = (1..40).map(|p| (p, 1)).collect();
    c.found(&many, 10);
    assert_eq!(c.live(10).len(), 16);
}

#[test]
fn reported_services_count_for_as_long_as_they_say() {
    let service = |port: u16, ttl: u32| Service { kind: 33, name: INSTANCE.to_owned(), port, ttl };
    let mut c = Candidates::new();
    c.reported(&vec![service(1000, 2), service(2000, 1_000_000), service(0, 5)], 0);
    assert_eq!(c.live(1), [1000, 2000]);
    assert_eq!(c.live(2_000_000_000), [2000]);
    assert_eq!(c.live(600_000_000_000), [] as [u16; 0]);
    let mut other = service(3000, 5);
    other.kind = 1;
    c.reported(&vec![service(2000, 0), other], 3);
    assert_eq!(c.live(4), [1000]);
}

#[test]
fn announcements_of_others_offer_nothing() {
    let ports = |instance: &str, port: u16, ttl: u32| {
        let packet = announcement(instance, "fixture.local.", port, ttl, 7);
        let said = parse_dns(&packet, INSTANCE, "fixture.local.").unwrap();
        assert!(!said.reply && !said.unicast && said.id == 7);
        said.ports
    };
    assert_eq!(ports(INSTANCE, 9000, 120), [(9000, 120)]);
    assert_eq!(ports(INSTANCE, 9000, 0), []);
    assert_eq!(ports(INSTANCE, 0, 120), []);
    assert_eq!(ports("Other._oscjson._tcp.local.", 9000, 120), []);
}

#[test]
fn only_the_root_says_that_nothing_lies_below_it() {
    let mut types = TextMap::new();
    types.insert("/".to_owned(), "f".to_owned());
    let root = query_tree(&types).document();
    let below = root.get("CONTENTS").unwrap().get("").unwrap();
    assert_eq!(below.text_at("FULL_PATH").unwrap(), "/");
    assert!(below.get("CONTENTS").is_none());
    assert!(query_tree(&TextMap::new()).document().get("CONTENTS").is_some());
}

#[test]
fn requests_are_read_from_their_bytes() {
    assert_eq!(requested(b"GET /a HTTP/1.1\r\n\r\n").unwrap(), "/a");
    assert_eq!(requested(b"POST /a HTTP/1.1\r\n\r\n").unwrap(), "");
    assert!(requested(b"GET /\xff HTTP/1.1\r\n\r\n").is_none());
}

#[test]
fn announcing_keeps_its_rhythm() {
    assert_eq!(rhythm(None, 5), (true, Some(5)));
    assert_eq!(rhythm(Some(5), 2_000_000_004), (false, Some(5)));
    assert_eq!(rhythm(Some(5), 2_000_000_005), (true, Some(2_000_000_005)));
    assert_eq!(reply_to_asker(true, 9), (9, true));
    assert_eq!(reply_to_asker(false, 9), (0, false));
}
