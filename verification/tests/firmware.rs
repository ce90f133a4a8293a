use stormnetboot::bytes;
use stormnetboot::firmware::blockio::{check_request, BlockAnswer, Media};
use stormnetboot::firmware::boot::{
    after_lookup, check_platform, direct_attach, direct_portal, gib, host_nqn, registry_ip, DIRECT_NQN,
    DIRECT_NSID, DIRECT_PORT, Finding,
};
use stormnetboot::firmware::config::{self, CONF_PATH};
use stormnetboot::firmware::attach::{AttachEvent, AttachStep, Attaching, Target};
use stormnetboot::firmware::ipv4;
use stormnetboot::firmware::nvme::{
    command_pdu, connect_payload, controller_id, fabrics_connect, geometry_of, h2c_data_pdu,
    host_id, ic_request_pdu, identify, is_countable, parse_header, property_get, property_set,
    property_value, Cqe, Enabled, Enabling, Exchange, Geometry, Header, Namespace, Progress, Queue, Sqe,
    OPC_IDENTIFY, PDU_C2H_DATA, PDU_C2H_TERM, PDU_ICRESP, PDU_R2T, PDU_RESP,
};
use stormnetboot::firmware::registry::{
    claim, claim_request, existing, existing_request, field, parse_ipv4, short, split_response,
    to_vec,
};
use stormnetboot::firmware::smbios::{
    select_table, service_tag, smbios3_extent, smbios3_table, smbios_extent, smbios_table,
    EntryPoint,
};
use stormnetboot::firmware::tcp4::{
    read_on, receive_size, Configured, Inbound, Lease, LeaseStep, Pump, Turn, CONFIGURE_ATTEMPTS,
    PUMP_TURNS,
};

// --- Bytes ---

#[test]
fn numbers_are_little_endian_and_read_back() {
    assert_eq!(bytes::of_u16(0x0102), vec![2, 1]);
    assert_eq!(bytes::of_u32(0x01020304), vec![4, 3, 2, 1]);
    assert_eq!(bytes::of_u64(0x0102030405060708), 0x0102030405060708u64.to_le_bytes());
    assert_eq!(bytes::le16(&[9, 2, 1], 1), 0x0102);
    assert_eq!(bytes::le32(&[4, 3, 2, 1], 0), 0x01020304);
    assert_eq!(bytes::le64(&u64::MAX.to_le_bytes(), 0), u64::MAX);
    let mut b = bytes::zeroed(4);
    bytes::write(&mut b, 1, &[7, 8]);
    assert_eq!(b, vec![0, 7, 8, 0]);
    assert_eq!(bytes::copied(&b, 1, 3), vec![7, 8]);
}

// --- Configuration ---

#[test]
fn addresses_parse_loosely_or_strictly() {
    assert_eq!(ipv4::parse(" 192.168.31.202 ", false), Some([192, 168, 31, 202]));
    assert_eq!(ipv4::parse("192. 168.31.202", true), Some([192, 168, 31, 202]));
    assert_eq!(ipv4::parse("192. 168.31.202", false), None);
    assert_eq!(ipv4::parse("1.2.3", true), None);
    assert_eq!(ipv4::parse("1.2.3.256", true), None);
    assert_eq!(ipv4::show(&[10, 0, 0, 1]), "10.0.0.1");
    assert_eq!(config::parse_ipv4("1. 2.3.4"), Some([1, 2, 3, 4]));
    assert_eq!(parse_ipv4("1. 2.3.4"), None);
}

const CONF: &str = "# comment\nportal = \"10.0.0.9\"\nport=99\nnsid = x\n stamp = abc \nportal=1.1.1.1\n";

#[test]
fn each_setting_counts_on_its_own() {
    let cfg = config::resolve(Some(CONF), [1, 2, 3, 4], 4420, "nqn.d", 2);
    assert_eq!(cfg.portal, [10, 0, 0, 9]);
    assert_eq!(cfg.port, 99);
    assert_eq!(cfg.nqn, "nqn.d");
    assert_eq!(cfg.nsid, 2);
    assert_eq!(cfg.stamp.as_deref(), Some("abc"));
    assert_eq!(cfg.source, CONF_PATH);
    assert_eq!(config::field(CONF, "nothing"), None);
}

#[test]
fn a_blank_stick_uses_the_compiled_defaults() {
    let cfg = config::resolve(None, direct_portal(), DIRECT_PORT, DIRECT_NQN, DIRECT_NSID);
    assert_eq!(cfg.portal, [192, 168, 31, 202]);
    assert_eq!(cfg.source, "compiled defaults");
    let target = direct_attach(cfg);
    assert_eq!((target.port, target.nsid), (4420, 2));
    assert_eq!(target.nqn, "nqn.2026-09.lo.g16:stormcos");
    assert_eq!(registry_ip(), [192, 168, 200, 22]);
}

#[test]
fn rendered_settings_read_back() {
    let cfg = config::resolve(Some(CONF), [1, 2, 3, 4], 4420, "nqn.d", 2);
    let text = config::render(&cfg, "sha256:new");
    assert!(text.ends_with(
        "portal = 10.0.0.9\nport   = 99\nnqn    = nqn.d\nnsid   = 2\nstamp  = sha256:new\n"
    ));
    let again = config::resolve(Some(&text), [9, 9, 9, 9], 1, "other", 7);
    assert_eq!(again.portal, [10, 0, 0, 9]);
    assert_eq!((again.port, again.nsid), (99, 2));
    assert_eq!(again.nqn, "nqn.d");
    assert_eq!(again.stamp.as_deref(), Some("sha256:new"));
}

#[test]
fn a_platform_needs_a_tag_and_a_network_stack() {
    assert_eq!(check_platform(Some("T".into()), true), Ok("T".into()));
    assert_eq!(
        check_platform(None, true),
        Err("SMBIOS carries no system serial number".into())
    );
    assert!(check_platform(Some("T".into()), false).unwrap_err().starts_with("EFI_TCP4 is not present."));
    assert_eq!(host_nqn("T"), "nqn.2026-09.lo.storm:host-T");
    assert_eq!(gib(&Geometry { blocks: 1 << 22, block_size: 512 }), 2);
    assert_eq!(gib(&Geometry { blocks: u64::MAX, block_size: 512 }), u64::MAX >> 30);
}

// --- The registry ---

#[test]
fn a_claim_is_asked_for_over_http() {
    let body = "{\"golden\":\"g\",\"consumer\":\"T\"}";
    assert_eq!(
        claim_request("h:5100", "g", "T"),
        format!(
            "POST /v1/clones/claim HTTP/1.1\r\nHost: h:5100\r\nUser-Agent: stormbootx\r\nAccept: application/json\r\nConnection: close\r\nContent-Type: application/json\r\nContent-Length: {}\r\n\r\n{body}",
            body.len()
        )
    );
    assert_eq!(
        existing_request("h", "T"),
        "GET /v1/clones?consumer=T HTTP/1.1\r\nHost: h\r\nUser-Agent: stormbootx\r\nAccept: application/json\r\nConnection: close\r\n\r\n"
    );
}

const GRANTED: &str = "HTTP/1.1 201 Created\r\nX: y\r\n\r\n{\"address\": \"10.0.0.7\", \"port\": 4431, \"nqn\":\"nqn.x\"}";

#[test]
fn a_granted_claim_says_what_to_attach() {
    let a = claim(GRANTED).unwrap();
    assert_eq!(a.address, [10, 0, 0, 7]);
    assert_eq!((a.port, a.nsid), (4431, 1));
    assert_eq!(a.nqn, "nqn.x");
    let held = existing(GRANTED).unwrap().unwrap();
    assert_eq!((held.address, held.port), (a.address, a.port));
}

#[test]
fn every_other_answer_is_explained() {
    let said = |response: &str| claim(response).map(|_| ()).unwrap_err();
    assert_eq!(said(""), "no HTTP status line");
    assert_eq!(
        said("HTTP/1.1 404 No\r\n\r\n none \n"),
        "claim returned HTTP 404: none"
    );
    assert_eq!(
        said("HTTP/1.1 200 OK\r\n\r\n{\"nqn\":\"n\"}"),
        "no usable \"address\" in the response"
    );
    assert_eq!(
        said("HTTP/1.1 200 OK\r\n\r\n{\"address\":\"1.2.3.4\"}"),
        "no \"nqn\" in the response"
    );
    assert!(existing("HTTP/1.1 200 OK\r\n\r\n[]").unwrap().is_none());
    assert!(existing("HTTP/1.1 200 OK\r\n\r\n").unwrap().is_none());
    assert_eq!(
        existing("HTTP/1.1 500 X\r\n\r\n").map(|_| ()).unwrap_err(),
        "lookup returned HTTP 500"
    );
}

#[test]
fn a_machine_reattaches_what_it_holds_and_claims_only_otherwise() {
    let Ok(Finding::Reattach(held)) = after_lookup(GRANTED, "ABC123") else {
        panic!("expected the clone it holds");
    };
    assert_eq!((held.address, held.port), ([10, 0, 0, 7], 4431));
    let Ok(Finding::Claim { request }) = after_lookup("HTTP/1.1 200 OK\r\n\r\n[]", "ABC123") else {
        panic!("expected a claim");
    };
    assert_eq!(
        request,
        claim_request("sbregistry.gt.lo:5100", "stormcos-edge", "ABC123")
    );
    assert_eq!(
        after_lookup("HTTP/1.1 500 X\r\n\r\n", "ABC123").map(|_| ()).unwrap_err(),
        "lookup returned HTTP 500"
    );
}

#[test]
fn fields_of_a_flat_object() {
    assert_eq!(field("{\"a\":\"x\", \"b\" : 7 }", "a").as_deref(), Some("x"));
    assert_eq!(field("{\"a\":\"x\", \"b\" : 7 }", "b").as_deref(), Some("7"));
    assert_eq!(field("{\"a\":\"x\"}", "c"), None);
    assert_eq!(field("{\"a\" 7}", "a"), None);
    assert_eq!(split_response("HTTP/1.1 200 OK\r\n\r\nbody"), Ok((200, "body".into())));
    assert_eq!(short("registry/img:sha"), "img:sha");
    assert_eq!(short("forge/stormcos:10.21"), "stormcos:10.21");
    assert_eq!(short("a/b/"), "");
    assert_eq!(short("sha256:ab"), "sha256:ab");
    assert_eq!(to_vec("aé"), "aé".as_bytes());
}

// --- SMBIOS ---

fn table() -> Vec<u8> {
    let mut t = vec![0, 6, 0, 0, 0, 0];
    t.extend_from_slice(b"BIOS\0\0");
    t.extend_from_slice(&[1, 8, 1, 0, 1, 2, 0, 3]);
    t.extend_from_slice(b"Dell\0R650\0 ABC123 \0\0");
    t.extend_from_slice(&[127, 4, 2, 0, 0, 0]);
    t
}

#[test]
fn the_service_tag_is_the_system_serial_number() {
    assert_eq!(service_tag(&table()).as_deref(), Some("ABC123"));
}

#[test]
fn a_table_without_a_serial_number_has_none() {
    let mut none = table();
    none[19] = 0;
    assert_eq!(service_tag(&none), None);
    assert_eq!(service_tag(&[127, 4, 0, 0, 0, 0]), None);
    assert_eq!(service_tag(&[]), None);
    assert_eq!(service_tag(&[1, 3, 0, 0]), None);
}

#[test]
fn a_serial_number_is_read_for_its_full_length_and_no_further() {
    let ending = |n: usize| {
        let mut t = vec![1, 8, 1, 0, 0, 0, 0, 1];
        t.resize(8 + n, b'S');
        t
    };
    let full = "S".repeat(128);
    // The table ends where the string has been read for long enough.
    assert_eq!(service_tag(&ending(128)), Some(full.clone()));
    assert_eq!(service_tag(&ending(129)), Some(full.clone()));
    // One byte less, and the next one would be past the table.
    assert_eq!(service_tag(&ending(127)), None);
    assert_eq!(service_tag(&ending(0)), None);
    let mut zero = ending(127);
    zero.push(0);
    assert_eq!(service_tag(&zero), Some("S".repeat(127)));
    let mut late = ending(128);
    late.push(0);
    assert_eq!(service_tag(&late), Some(full));
}

#[test]
fn the_64_bit_entry_point_is_preferred() {
    assert_eq!(select_table(&[EntryPoint::Smbios(5), EntryPoint::Smbios3(7)]), 7);
    assert_eq!(select_table(&[EntryPoint::Other, EntryPoint::Smbios(5), EntryPoint::Smbios(6)]), 5);
    assert_eq!(select_table(&[]), 0);
    // An SMBIOS 3 entry that leads nowhere leaves the legacy one.
    assert_eq!(select_table(&[EntryPoint::Smbios(5), EntryPoint::Smbios3(0)]), 5);
    assert_eq!(select_table(&[EntryPoint::Smbios3(0), EntryPoint::Smbios(5)]), 5);
    let mut entry = vec![0u8; 0x20];
    entry[..5].copy_from_slice(b"_SM3_");
    entry[0x10..0x18].copy_from_slice(&0x1122334455667788u64.to_le_bytes());
    assert_eq!(smbios3_table(&entry), 0x1122334455667788);
    assert_eq!(smbios_table(&entry), 0);
    let mut legacy = vec![0u8; 0x20];
    legacy[..4].copy_from_slice(b"_SM_");
    legacy[0x18..0x1c].copy_from_slice(&0x11223344u32.to_le_bytes());
    assert_eq!(smbios_table(&legacy), 0x11223344);
    assert_eq!(smbios3_table(&legacy), 0);
    entry[0x0c..0x10].copy_from_slice(&0x12345u32.to_le_bytes());
    assert_eq!(smbios3_extent(&entry), 0x12345);
    legacy[0x16..0x18].copy_from_slice(&0x1234u16.to_le_bytes());
    assert_eq!(smbios_extent(&legacy), 0x1234);
}

// --- TCP ---

#[test]
fn a_lease_is_waited_for_and_given_up_on() {
    let mut lease = Lease::new();
    assert!(matches!(
        lease.on_configured(Configured::NoMapping),
        LeaseStep::Retry { announce: true }
    ));
    for _ in 1..CONFIGURE_ATTEMPTS - 1 {
        assert!(matches!(
            lease.on_configured(Configured::NoMapping),
            LeaseStep::Retry { announce: false }
        ));
    }
    assert!(matches!(
        lease.on_configured(Configured::NoMapping),
        LeaseStep::GiveUp(ref why) if why == "no IP address after 20s (NO_MAPPING)"
    ));
    assert!(matches!(Lease::new().on_configured(Configured::Done), LeaseStep::Ready));
    assert!(matches!(
        Lease::new().on_configured(Configured::Failed("X".into())),
        LeaseStep::GiveUp(ref why) if why == "TCP4 Configure failed: X"
    ));
}

#[test]
fn a_token_is_polled_until_it_is_done() {
    let mut pump = Pump::new();
    assert_eq!(pump.on_turn(Turn::Pending, "transmit"), None);
    assert_eq!(pump.on_turn(Turn::Succeeded, "transmit"), Some(Ok(())));
    assert_eq!(
        pump.on_turn(Turn::Failed("ABORTED".into()), "transmit"),
        Some(Err("transmit failed: ABORTED".into()))
    );
    let mut slow = Pump {
        turns: PUMP_TURNS - 1,
    };
    assert!(matches!(slow.on_turn(Turn::Pending, "connect"), Some(Err(_))));
}

#[test]
fn a_read_gets_exactly_what_it_asked_for() {
    let mut inbound = Inbound::new();
    let mut read = inbound.begin(3);
    assert!(inbound.on_chunk(&mut read, &[1, 2]).is_ok());
    assert!(inbound.on_chunk(&mut read, &[3, 4, 5]).is_ok());
    assert_eq!(read.out, vec![1, 2, 3]);
    let mut next = inbound.begin(3);
    assert_eq!(next.out, vec![4, 5]);
    assert_eq!(
        inbound.on_chunk(&mut next, &[]),
        Err("connection closed mid-read".into())
    );
    assert!(inbound.on_chunk(&mut next, &[6, 7]).is_ok());
    assert_eq!(inbound.drain(), vec![7]);
    assert_eq!(receive_size(0), 1);
    assert_eq!(receive_size(70_000), 65_536);
    let mut out = vec![1];
    assert!(read_on(&mut out, Some(vec![2]), 10));
    assert!(!read_on(&mut out, Some(vec![3; 9]), 10));
    assert!(!read_on(&mut out, None, 100));
    assert_eq!(out.len(), 11);
}

// --- Block I/O ---

#[test]
fn block_requests_are_checked_in_order() {
    let media = Media::of(&Geometry {
        blocks: 100,
        block_size: 512,
    });
    assert_eq!((media.last_block, media.block_size), (99, 512));
    assert_eq!(check_request(&media, 2, false, 1, false), BlockAnswer::MediaChanged);
    assert_eq!(check_request(&media, 1, false, 1, false), BlockAnswer::InvalidParameter);
    assert_eq!(check_request(&media, 1, true, 0, false), BlockAnswer::Success);
    assert_eq!(check_request(&media, 1, true, 513, false), BlockAnswer::BadBufferSize);
    assert_eq!(check_request(&media, 1, true, 512, false), BlockAnswer::DeviceError);
    assert_eq!(check_request(&media, 1, true, 512, true), BlockAnswer::Transfer);
}

// --- NVMe ---

#[test]
fn a_connection_starts_with_a_handshake() {
    let pdu = ic_request_pdu();
    assert_eq!(pdu.len(), 128);
    assert_eq!(&pdu[..8], &[0, 0, 128, 0, 128, 0, 0, 0]);
    let mut queue = Queue::new();
    let mut resp = vec![0u8; 128];
    assert_eq!(
        queue.on_ic_response(&resp),
        Err("expected ICResp, got PDU type 0x00 (is this an NVMe/TCP port?)".into())
    );
    resp[0] = PDU_ICRESP;
    resp[11] = 1;
    assert_eq!(
        queue.on_ic_response(&resp),
        Err("controller insists on PDU digests, which this client declined".into())
    );
    resp[11] = 0;
    resp[12..16].copy_from_slice(&4096u32.to_le_bytes());
    assert_eq!(queue.on_ic_response(&resp), Ok(()));
    assert_eq!((queue.next_cid(), queue.next_cid()), (1, 2));
}

#[test]
fn entries_are_laid_out_for_the_wire() {
    let mut sqe = Sqe::new(OPC_IDENTIFY, 0x0102, 7);
    assert_eq!(&sqe.as_slice()[..8], &[0x06, 0x40, 2, 1, 7, 0, 0, 0]);
    sqe.sgl(0, 4096, 0x5A);
    sqe.dw(10, 0xAABBCCDD);
    sqe.byte(63, 9);
    let raw = sqe.as_slice();
    assert_eq!(raw.len(), 64);
    assert_eq!(&raw[32..36], &4096u32.to_le_bytes());
    assert_eq!(raw[39], 0x5A);
    assert_eq!(&raw[40..44], &[0xDD, 0xCC, 0xBB, 0xAA]);
    assert_eq!(raw[63], 9);
    let pdu = command_pdu(&identify(1, 2), &[5, 6]);
    assert_eq!(&pdu[..8], &[4, 0, 72, 72, 74, 0, 0, 0]);
    assert_eq!(&pdu[72..], &[5, 6]);
    assert_eq!(command_pdu(&identify(1, 2), &[])[3], 0);
}

#[test]
fn completions_say_what_failed() {
    let mut b = [0u8; 16];
    b[0] = 5;
    b[4] = 6;
    let done = Cqe::parse(&b);
    assert_eq!((done.dw0, done.dw1, done.failed()), (5, 6, None));
    b[14..16].copy_from_slice(&((1u16 << 9) | (0x82 << 1)).to_le_bytes());
    assert_eq!(
        Cqe::parse(&b).failed().as_deref(),
        Some("NVMe status sct=0x1 sc=0x82")
    );
}

#[test]
fn headers_are_checked() {
    assert_eq!(
        parse_header(&[5, 1, 24, 9, 32, 0, 0, 0]),
        Ok(Header {
            ptype: 5,
            flags: 1,
            pdo: 9,
            rest: 24
        })
    );
    assert_eq!(
        parse_header(&[5, 0, 24, 0, 7, 0, 0, 0]),
        Err("malformed PDU (type 0x05, hlen 24, plen 7)".into())
    );
}

#[test]
fn a_pdu_is_read_only_when_enough_of_it_follows() {
    let with = |ptype: u8, rest: usize| Header { ptype, flags: 0, pdo: 0, rest };
    assert!(with(PDU_RESP, 16).is_readable());
    assert!(!with(PDU_RESP, 15).is_readable());
    assert!(with(PDU_R2T, 12).is_readable());
    assert!(!with(PDU_R2T, 11).is_readable());
    assert!(!with(PDU_C2H_DATA, 11).is_readable());
    assert!(with(PDU_C2H_TERM, 0).is_readable());
}

fn header(ptype: u8, flags: u8, pdo: u8) -> Header {
    Header {
        ptype,
        flags,
        pdo,
        rest: 0,
    }
}

#[test]
fn a_read_is_assembled_from_its_pieces() {
    let queue = Queue::new();
    let mut exchange = Exchange::new(1, None, Some(vec![0; 4]));
    let mut rest = vec![1, 0, 0, 0, 2, 0, 0, 0, 2, 0, 0, 0, 0, 0, 0, 0];
    rest.extend_from_slice(&[8, 9]);
    assert!(matches!(
        exchange.on_pdu(&queue, &header(PDU_C2H_DATA, 0, 24), &rest),
        Progress::Wait
    ));
    assert_eq!(exchange.incoming, Some(vec![0, 0, 8, 9]));
    rest[4] = 0;
    assert!(matches!(
        exchange.on_pdu(&queue, &header(PDU_C2H_DATA, 12, 24), &rest),
        Progress::Done(Cqe { status: 0, .. })
    ));
    assert_eq!(exchange.incoming, Some(vec![8, 9, 8, 9]));
    rest[4] = 3;
    assert!(matches!(
        exchange.on_pdu(&queue, &header(PDU_C2H_DATA, 0, 24), &rest),
        Progress::Failed(ref why) if why == "controller returned more data than requested"
    ));
    rest[8] = 3;
    assert!(matches!(
        exchange.on_pdu(&queue, &header(PDU_C2H_DATA, 0, 24), &rest),
        Progress::Failed(ref why) if why == "C2HData payload runs past the PDU"
    ));
    let mut blind = Exchange::new(1, None, None);
    rest[8] = 2;
    assert!(matches!(
        blind.on_pdu(&queue, &header(PDU_C2H_DATA, 0, 24), &rest),
        Progress::Failed(ref why) if why == "unexpected read data on a command that asked for none"
    ));
}

#[test]
fn a_write_sends_what_the_controller_asks_for() {
    let mut queue = Queue::new();
    let mut resp = vec![0u8; 128];
    resp[0] = PDU_ICRESP;
    resp[12..16].copy_from_slice(&4096u32.to_le_bytes());
    queue.on_ic_response(&resp).unwrap();
    let data: Vec<u8> = (0..6000u32).map(|i| i as u8).collect();
    let mut exchange = Exchange::new(1, Some(data.clone()), None);
    let mut rest = vec![1, 0, 9, 0];
    rest.extend_from_slice(&0u32.to_le_bytes());
    rest.extend_from_slice(&6000u32.to_le_bytes());
    let Progress::Send(pdus) = exchange.on_pdu(&queue, &header(PDU_R2T, 0, 0), &rest) else {
        panic!("expected data to send");
    };
    assert_eq!(pdus.len(), 2);
    assert_eq!(pdus[0], h2c_data_pdu(1, 9, 0, &data[..4096], false));
    assert_eq!(pdus[1], h2c_data_pdu(1, 9, 4096, &data[4096..], true));
    assert_eq!(&pdus[1][..8], &[6, 4, 24, 24, 136, 7, 0, 0]);
    rest[8..12].copy_from_slice(&6001u32.to_le_bytes());
    assert!(matches!(
        exchange.on_pdu(&queue, &header(PDU_R2T, 0, 0), &rest),
        Progress::Failed(ref why) if why == "controller asked for bytes 0..6001 of a 6000-byte transfer"
    ));
    assert!(matches!(
        Exchange::new(1, None, None).on_pdu(&queue, &header(PDU_R2T, 0, 0), &rest),
        Progress::Failed(ref why) if why == "controller asked for data on a command carrying none"
    ));
}

#[test]
fn an_exchange_ends_one_way_or_another() {
    let queue = Queue::new();
    let mut exchange = Exchange::new(7, None, None);
    let mut rest = vec![0u8; 16];
    assert!(matches!(
        exchange.on_pdu(&queue, &header(PDU_RESP, 0, 0), &rest),
        Progress::Wait
    ));
    rest[12] = 7;
    assert!(matches!(
        exchange.on_pdu(&queue, &header(PDU_RESP, 0, 0), &rest),
        Progress::Done(_)
    ));
    rest[14] = 2;
    assert!(matches!(
        exchange.on_pdu(&queue, &header(PDU_RESP, 0, 0), &rest),
        Progress::Failed(ref why) if why == "NVMe status sct=0x0 sc=0x01"
    ));
    assert!(matches!(
        exchange.on_pdu(&queue, &header(PDU_C2H_TERM, 0, 0), &[]),
        Progress::Failed(ref why) if why == "controller terminated the connection (PDU 0x03)"
    ));
    assert!(matches!(
        exchange.on_pdu(&queue, &header(0x20, 0, 0), &[]),
        Progress::Failed(ref why) if why == "unexpected PDU type 0x20"
    ));
    exchange.budget = 1;
    assert_eq!(exchange.spend(), Ok(()));
    assert_eq!(
        exchange.spend(),
        Err("controller never completed the command".into())
    );
}

#[test]
fn properties_are_read_and_written() {
    let get = property_get(3, 0x14, true);
    let raw = get.as_slice();
    assert_eq!((raw[0], raw[4], raw[40], raw[44]), (0x7F, 0x04, 1, 0x14));
    let cqe = Cqe {
        dw0: 1,
        dw1: 2,
        status: 0,
    };
    assert_eq!(property_value(&cqe, true), 0x2_0000_0001);
    assert_eq!(property_value(&cqe, false), 1);
    let set = property_set(3, 0x14, 0x2_0046_0001, false);
    let raw = set.as_slice();
    assert_eq!((raw[4], raw[40], raw[44]), (0, 0, 0x14));
    assert_eq!(&raw[48..56], &0x2_0046_0001u64.to_le_bytes());
}

#[test]
fn connecting_names_both_sides() {
    let id = host_id("nqn.2026-09.lo.storm:host-T");
    assert_eq!(&id, b"nqn.2026-09.lo.s");
    assert_eq!(&host_id("ab")[..4], &[b'a', b'b', 0, 0]);
    let data = connect_payload(0xFFFF, "sub", "host", &id);
    assert_eq!(data.len(), 1024);
    assert_eq!(&data[..16], &id);
    assert_eq!(&data[16..18], &[0xFF, 0xFF]);
    assert_eq!(&data[256..260], b"sub\0");
    assert_eq!(&data[512..517], b"host\0");
    let long = connect_payload(0, &"s".repeat(300), "h", &id);
    assert_eq!((long[510], long[511]), (b's', 0));
    let connect = fabrics_connect(1, 2, 32);
    let raw = connect.as_slice();
    assert_eq!((raw[4], raw[39]), (1, 1));
    assert_eq!(&raw[40..48], &[0, 0, 2, 0, 31, 0, 0, 0]);
    assert_eq!(
        controller_id(&Cqe {
            dw0: 0x12345,
            dw1: 0,
            status: 0
        }),
        0x2345
    );
}

#[test]
fn a_controller_gets_ready_or_does_not() {
    let mut enabling = Enabling::new((2 << 24) | 127);
    assert_eq!((enabling.mqes, enabling.timeout_ms), (128, 1000));
    assert!(matches!(enabling.on_status(0), Enabled::Wait));
    assert!(matches!(enabling.on_status(1), Enabled::Ready));
    assert!(matches!(
        enabling.on_status(3),
        Enabled::Failed(ref why) if why == "controller reports fatal status (CSTS.CFS)"
    ));
    enabling.waited = 1010;
    assert!(matches!(
        enabling.on_status(0),
        Enabled::Failed(ref why) if why == "controller not ready 1000ms after CC.EN"
    ));
    assert_eq!(Enabling::new(0xFFFF).mqes, 0xFFFF);
    assert_eq!(Enabling::new(0xFFFF).io_entries(), 128);
    assert_eq!(Enabling::new(30).io_entries(), 31);
    assert_eq!(Enabling::new(0).timeout_ms, 500);
}

fn identity(blocks: u64, lbads: u8) -> Vec<u8> {
    let mut idns = vec![0u8; 4096];
    idns[..8].copy_from_slice(&blocks.to_le_bytes());
    idns[26] = 1;
    idns[128 + 4 + 2] = lbads;
    idns
}

fn completed(dw0: u32, dw1: u32) -> AttachEvent {
    AttachEvent::Completed(Cqe { dw0, dw1, status: 0 })
}

fn attaching() -> Attaching {
    let (attaching, step) = Attaching::new(Target {
        subnqn: "nqn.sub".into(),
        nsid: 7,
        hostnqn: "nqn.host".into(),
    });
    assert!(matches!(step, AttachStep::OpenAdmin));
    attaching
}

#[test]
fn an_attach_identifies_only_a_ready_controller() {
    let id = host_id("nqn.host");
    let mut a = attaching();
    let AttachStep::Connect { qid, entries, payload } = a.on_event(AttachEvent::Opened) else {
        panic!("expected the admin connect");
    };
    assert_eq!((qid, entries), (0, 32));
    assert_eq!(payload, connect_payload(0xFFFF, "nqn.sub", "nqn.host", &id));

    let cap = a.on_event(completed(0x9_0005, 0));
    assert!(matches!(cap, AttachStep::GetProperty { offset: 0, eight: true }));
    assert_eq!(
        cap.command(9).unwrap().as_slice(),
        property_get(9, 0, true).as_slice()
    );

    let enable = a.on_event(completed((1 << 24) | 63, 0));
    assert!(matches!(
        enable,
        AttachStep::SetProperty { offset: 0x14, value: 0x46_0001, eight: false }
    ));
    let status = a.on_event(completed(0, 0));
    assert!(matches!(status, AttachStep::GetProperty { offset: 0x1C, eight: false }));
    assert!(matches!(a.on_event(completed(0, 0)), AttachStep::Rest));
    let status = a.on_event(AttachEvent::Rested);
    assert!(matches!(status, AttachStep::GetProperty { offset: 0x1C, eight: false }));

    let step = a.on_event(completed(1, 0));
    assert!(matches!(step, AttachStep::Identify { nsid: 7 }));
    assert_eq!(step.command(4).unwrap().as_slice(), identify(4, 7).as_slice());
    assert!(matches!(
        a.on_event(AttachEvent::Read(identity(1000, 12))),
        AttachStep::OpenIo
    ));
    let step = a.on_event(AttachEvent::Opened);
    assert_eq!(
        step.command(5).unwrap().as_slice(),
        fabrics_connect(5, 1, 64).as_slice()
    );
    let AttachStep::Connect { qid, entries, payload } = step else {
        panic!("expected the I/O connect");
    };
    assert_eq!((qid, entries), (1, 64));
    assert_eq!(payload, connect_payload(5, "nqn.sub", "nqn.host", &id));
    let AttachStep::Finished(Ok(ns)) = a.on_event(completed(0, 0)) else {
        panic!("expected a namespace");
    };
    assert_eq!((ns.nsid, ns.geometry.blocks, ns.geometry.block_size), (7, 1000, 4096));
}

fn at_status() -> Attaching {
    let mut a = attaching();
    a.on_event(AttachEvent::Opened);
    a.on_event(completed(5, 0));
    a.on_event(completed(63, 0));
    a.on_event(completed(0, 0));
    a
}

fn failure(step: AttachStep) -> String {
    match step {
        AttachStep::Finished(Err(why)) => why,
        other => panic!("expected a failure, got {other:?}"),
    }
}

#[test]
fn an_attach_ends_where_the_controller_does_not_get_ready() {
    assert_eq!(
        failure(at_status().on_event(completed(3, 0))),
        "controller reports fatal status (CSTS.CFS)"
    );
    let mut a = at_status();
    let mut rests: u64 = 0;
    let why = loop {
        match a.on_event(completed(0, 0)) {
            AttachStep::Rest => {
                rests += 1;
                a.on_event(AttachEvent::Rested);
            }
            step => break failure(step),
        }
    };
    assert_eq!(why, "controller not ready 500ms after CC.EN");
    assert_eq!(rests, 51);
    assert_eq!(failure(a.on_event(completed(1, 0))), "the attach has failed");
}

#[test]
fn an_attach_fails_with_its_reason() {
    assert_eq!(
        failure(attaching().on_event(AttachEvent::Failed("no route".into()))),
        "no route"
    );
    assert_eq!(
        failure(attaching().on_event(completed(0, 0))),
        "answer out of turn"
    );
    let mut a = at_status();
    a.on_event(completed(1, 0));
    assert_eq!(
        failure(a.on_event(AttachEvent::Read(identity(1000, 8)))),
        "implausible block size 256 (LBADS 8)"
    );
}

#[test]
fn a_namespace_describes_itself() {
    assert!(is_countable(&identity(1000, 31)));
    assert!(!is_countable(&identity(1000, 32)));
    assert_eq!(
        geometry_of(&identity(1000, 12)),
        Ok(Geometry {
            blocks: 1000,
            block_size: 4096
        })
    );
    assert_eq!(
        geometry_of(&identity(1000, 8)),
        Err("implausible block size 256 (LBADS 8)".into())
    );
    assert_eq!(
        geometry_of(&identity(1000, 17)),
        Err("implausible block size 131072 (LBADS 17)".into())
    );
}

#[test]
fn transfers_cover_the_buffer() {
    let ns = Namespace::attached(
        2,
        Geometry {
            blocks: 1000,
            block_size: 512,
        },
    );
    assert!(ns.is_usable());
    let list = ns.plan(10, 8192 + 512).unwrap();
    assert_eq!(list.len(), 2);
    assert_eq!((list[0].lba, list[0].blocks, list[0].len), (10, 16, 8192));
    assert_eq!((list[1].lba, list[1].blocks, list[1].offset), (26, 1, 8192));
    assert_eq!(ns.plan(10, 513), None);
    assert_eq!(ns.uneven("read", 513), "read of 513 bytes is not a multiple of 512");
    let read = ns.read(5, &list[0]);
    let raw = read.as_slice();
    assert_eq!((raw[0], raw[4], raw[40], raw[48]), (2, 2, 10, 15));
    assert_eq!(ns.write(5, &list[0]).as_slice()[0], 1);
    let odd = Namespace::attached(
        2,
        Geometry {
            blocks: 1,
            block_size: 16384,
        },
    );
    assert!(!odd.is_usable());
}
