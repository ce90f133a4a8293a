use stormnetboot::agent::flowover::{parse_line, Event};
use stormnetboot::agent::inventory::{collect, primary_mac, Interface, Inventory};
use stormnetboot::agent::progress::{Progress, Report, Reporter, Step};
use stormnetboot::http1::parse_status;

#[test]
fn recognises_the_start_line_and_names_the_disk() {
    let event = parse_line("Flow-over: migrating to local slab 7 on /dev/sda in background");
    assert_eq!(
        event,
        Some(Event::Started {
            disk: "/dev/sda".into()
        })
    );
}

#[test]
fn recognises_both_completion_spellings() {
    assert_eq!(
        parse_line("Flow-over complete: 1024 extent(s) now on local disk"),
        Some(Event::Complete {
            moved: 1024,
            failed: 0
        })
    );
    assert_eq!(
        parse_line("flow-over complete: 1024 extent(s) migrated, 3 failed"),
        Some(Event::Complete {
            moved: 1024,
            failed: 3
        })
    );
}

#[test]
fn recognises_the_abort_that_would_otherwise_look_like_success() {
    assert_eq!(
        parse_line("flow-over: aborting after repeated failures"),
        Some(Event::Aborted)
    );
}

#[test]
fn extent_failures_are_events_but_not_terminal() {
    assert_eq!(
        parse_line("flow-over: extent Some(3)/12: device busy"),
        Some(Event::ExtentFailed {
            detail: "Some(3)/12: device busy".into()
        })
    );
}

#[test]
fn ordinary_engine_chatter_is_not_an_event() {
    for line in [
        "",
        "stormblock 12.4.0 starting",
        "ublk: exported /dev/ublkb0",
        "INFO serving volume stormpump",
    ] {
        assert_eq!(parse_line(line), None, "line: {line:?}");
    }
}

#[test]
fn leading_whitespace_and_timestamps_do_not_hide_a_completion() {
    assert_eq!(
        parse_line("   Flow-over complete: 5 extent(s) now on local disk  "),
        Some(Event::Complete {
            moved: 5,
            failed: 0
        })
    );
}

#[test]
fn a_start_line_without_a_disk_still_is_a_start() {
    assert_eq!(
        parse_line("Flow-over: migrating to local slab"),
        Some(Event::Started { disk: "".into() })
    );
    assert_eq!(
        parse_line("Flow-over: migrating to local slab 7 on /dev/sdb"),
        Some(Event::Started {
            disk: "/dev/sdb".into()
        })
    );
}

#[test]
fn a_number_too_large_to_count_is_passed_over() {
    assert_eq!(
        parse_line("flow-over complete: 99999999999999999999 extent(s) migrated, 3 failed, 4"),
        Some(Event::Complete {
            moved: 3,
            failed: 4
        })
    );
    assert_eq!(
        parse_line("Flow-over complete: none"),
        Some(Event::Complete {
            moved: 0,
            failed: 0
        })
    );
}

#[test]
fn summary_reads_as_a_sentence_not_a_dump() {
    let inv = Inventory {
        cpus: 64,
        memory_kb: 268_435_456,
        product: Some("PowerEdge R650".into()),
        serial: Some("ABC123".into()),
        disks: vec!["nvme0n1".into(), "sda".into()],
    };
    assert_eq!(inv.summary(), "64 cpu, 256 GiB, 2 disk(s), PowerEdge R650");
}

#[test]
fn an_empty_inventory_says_so_rather_than_pretending() {
    assert_eq!(Inventory::default().summary(), "inventory unavailable");
}

const CPUINFO: &str = "processor\t: 0\nvendor_id\t: GenuineIntel\ncpu family\t: 6\nmodel\t\t: 143\n\
    model name\t: Intel(R) Xeon(R) Processor\nflags\t\t: fpu vme de pse tsc msr pae mce cx8 apic\n\
    bogomips\t: 4200.00\npower management:\n\n\
    processor\t: 1\nvendor_id\t: GenuineIntel\ncpu family\t: 6\nmodel\t\t: 143\n\n";

const MEMINFO: &str = "MemTotal:       16384256 kB\nMemFree:         9123456 kB\n\
    MemAvailable:   14000000 kB\nBuffers:           12345 kB\n";

#[test]
fn collect_reads_this_machine_without_panicking() {
    let inv = collect(Some(CPUINFO), Some(MEMINFO), None, None, &vec![]);
    assert!(inv.cpus > 0, "a running machine has at least one cpu");
    assert!(inv.memory_kb > 0, "a running machine has memory");
}

#[test]
fn collecting_degrades_to_defaults() {
    assert_eq!(collect(None, None, None, None, &vec![]), Inventory::default());
}

#[test]
fn collecting_reads_each_file() {
    let inv = collect(
        Some("processor\t: 0\nmodel name\t: x\nprocessor\t: 1\n"),
        Some("MemFree: 1 kB\nMemTotal:       16384 kB\nMemTotal: 1 kB\n"),
        Some(" PowerEdge R650 \n"),
        Some("to be filled by o.e.m.\n"),
        &vec![
            "sdb".into(),
            "loop0".into(),
            "nvme0n1".into(),
            "ram1".into(),
            "zram0".into(),
            "ublkb0".into(),
            "dm-0".into(),
            "sda".into(),
        ],
    );
    assert_eq!(inv.cpus, 2);
    assert_eq!(inv.memory_kb, 16384);
    assert_eq!(inv.product.as_deref(), Some("PowerEdge R650"));
    assert_eq!(inv.serial, None);
    assert_eq!(inv.disks, vec!["nvme0n1", "sda", "sdb"]);
}

fn interface(name: &str, address: Option<&str>) -> Interface {
    Interface {
        name: name.into(),
        address: address.map(|a| a.to_owned()),
    }
}

const ROUTE: &str = "Iface\tDestination\tGateway\neth1\t0008A8C0\t0\neth0\t00000000\t0108A8C0\n";

#[test]
fn the_default_route_names_the_interface() {
    let found = vec![
        interface("eth1", Some("11:11:11:11:11:11\n")),
        interface("eth0", Some("AA:BB:CC:DD:EE:FF\n")),
    ];
    assert_eq!(
        primary_mac(Some(ROUTE), &found).as_deref(),
        Some("aa:bb:cc:dd:ee:ff")
    );
}

#[test]
fn an_interface_without_an_address_falls_back_to_the_first_by_name() {
    let found = vec![
        interface("lo", Some("12:34:56:78:9a:bc")),
        interface("eth2", Some("22:22:22:22:22:22")),
        interface("eth1", Some("11:11:11:11:11:11")),
        interface("eth0", Some("00:00:00:00:00:00\n")),
    ];
    assert_eq!(
        primary_mac(Some(ROUTE), &found).as_deref(),
        Some("11:11:11:11:11:11")
    );
    assert_eq!(primary_mac(Some(ROUTE), &vec![]), None);
}

#[test]
fn without_a_default_route_the_first_real_interface_identifies() {
    let found = vec![
        interface("lo", Some("12:34:56:78:9a:bc")),
        interface("eth1", Some("11:11:11:11:11:11")),
        interface("eth0", Some("aa:bb:cc:dd:ee:ff")),
    ];
    for route in ["", "Iface\nshort\neth0 0008A8C0\n"] {
        assert_eq!(primary_mac(Some(route), &found).as_deref(), Some("aa:bb:cc:dd:ee:ff"));
    }
    assert_eq!(primary_mac(Some(""), &found[..1].iter().map(|i| Interface {
        name: i.name.clone(),
        address: i.address.clone(),
    }).collect()), None);
    // A routing table that cannot be read says nothing.
    assert_eq!(primary_mac(None, &found), None);
}

#[test]
fn parses_a_status_line() {
    assert_eq!(parse_status("HTTP/1.1 202 Accepted\r\n\r\n"), Some(202));
    assert_eq!(parse_status("HTTP/1.1 503 Service Unavailable"), Some(503));
    assert_eq!(parse_status(""), None);
    assert_eq!(parse_status("garbage"), None);
}

fn reported(step: Step) -> (String, String, bool) {
    let Report { phase, detail } = step.report.unwrap();
    (phase, detail, step.done)
}

#[test]
fn following_a_log_reports_the_start_and_the_end() {
    let mut progress = Progress::new();
    assert_eq!(
        reported(progress.on_line("Flow-over: migrating to local slab 7 on /dev/sda in background")),
        ("assimilating".into(), "flow-over onto /dev/sda".into(), false)
    );
    assert_eq!(
        progress.on_line("INFO serving"),
        Step {
            report: None,
            done: false
        }
    );
    assert_eq!(
        reported(progress.on_line("Flow-over complete: 12 extent(s) now on local disk")),
        ("local".into(), "12 extent(s) local, 0 failed".into(), true)
    );
}

#[test]
fn a_completion_with_failures_is_not_local() {
    let mut progress = Progress::new();
    assert_eq!(
        reported(progress.on_line("flow-over complete: 12 extent(s) migrated, 3 failed")),
        (
            "assimilating".into(),
            "12 extent(s) local, 3 failed".into(),
            true
        )
    );
}

#[test]
fn an_abort_is_a_failure() {
    let mut progress = Progress::new();
    assert_eq!(
        reported(progress.on_line("flow-over: aborting after repeated failures")),
        (
            "failed".into(),
            "flow-over aborted after repeated failures".into(),
            true
        )
    );
}

#[test]
fn every_fourth_extent_failure_is_reported() {
    let mut progress = Progress::new();
    for _ in 0..3 {
        assert!(progress.on_line("flow-over: extent 3: busy").report.is_none());
    }
    assert_eq!(
        reported(progress.on_line("flow-over: extent 3: busy")),
        (
            "assimilating".into(),
            "4 extent failures: 3: busy".into(),
            false
        )
    );
    assert_eq!(progress.extent_failures(), 4);
}

#[test]
fn a_report_is_a_json_post_to_the_server() {
    let reporter = Reporter::new("http://boot.storm.lo:8080//", "aa:bb:cc:dd:ee:ff".into());
    let out = reporter.request("running", Some("64 cpu")).unwrap();
    assert_eq!(out.connect, "boot.storm.lo:8080");
    let body = r#"{"detail":"64 cpu","mac":"aa:bb:cc:dd:ee:ff","phase":"running"}"#;
    assert_eq!(
        out.text,
        format!(
            "POST /api/v1/report HTTP/1.1\r\nHost: boot.storm.lo:8080\r\nContent-Type: application/json\r\nContent-Length: {}\r\nConnection: close\r\n\r\n{body}",
            body.len()
        )
    );
    let bare = reporter.request("local", None).unwrap();
    assert!(bare.text.ends_with(r#"{"mac":"aa:bb:cc:dd:ee:ff","phase":"local"}"#));
}

#[test]
fn what_the_engine_says_cannot_break_a_report() {
    let reporter = Reporter::new("http://h", "m".into());
    let odd = "a\"b\\c\nd\re\tf\u{8}g\u{c}h\u{1}i\u{1f}j\u{7f}é";
    let out = reporter.request("failed", Some(odd)).unwrap();
    assert_eq!(out.connect, "h:80");
    let body = out.text.split("\r\n\r\n").nth(1).unwrap();
    assert_eq!(
        body,
        "{\"detail\":\"a\\\"b\\\\c\\nd\\re\\tf\\bg\\fh\\u0001i\\u001fj\u{7f}é\",\"mac\":\"m\",\"phase\":\"failed\"}"
    );
    let value: serde_json::Value = serde_json::from_str(body).unwrap();
    assert_eq!(value["detail"], odd);
}

#[test]
fn the_inventory_is_posted_as_the_server_takes_it() {
    let reporter = Reporter::new("http://boot", "aa:bb:cc:dd:ee:ff".into());
    let inv = Inventory {
        cpus: 64,
        memory_kb: 1024,
        product: Some("PowerEdge \"R230\"".into()),
        serial: None,
        disks: vec!["nvme0n1".into(), "sda".into()],
    };
    let out = reporter.inventory_request(&inv).unwrap();
    assert_eq!(out.connect, "boot:80");
    assert!(out.text.starts_with("POST /api/v1/inventory HTTP/1.1\r\nHost: boot\r\n"));
    let body = out.text.split("\r\n\r\n").nth(1).unwrap();
    assert_eq!(
        body,
        r#"{"cpus":64,"disks":["nvme0n1","sda"],"mac":"aa:bb:cc:dd:ee:ff","memory_kb":1024,"product":"PowerEdge \"R230\""}"#
    );

    let bare = reporter.inventory_request(&Inventory::default()).unwrap();
    assert!(bare
        .text
        .ends_with(r#"{"cpus":0,"disks":[],"mac":"aa:bb:cc:dd:ee:ff","memory_kb":0}"#));
    assert_eq!(
        Reporter::new("https://boot", "m".into()).inventory_request(&inv),
        Err("only http:// is supported".into())
    );
}

#[test]
fn only_plain_http_can_be_reported_to() {
    let reporter = Reporter::new("https://boot", "m".into());
    assert_eq!(
        reporter.request("running", None),
        Err("only http:// is supported".into())
    );
}

#[test]
fn the_servers_answer_decides_whether_a_report_was_taken() {
    let reporter = Reporter::new("http://boot", "m".into());
    assert_eq!(reporter.outcome("HTTP/1.1 202 Accepted\r\n\r\n"), Ok(()));
    assert_eq!(
        reporter.outcome("HTTP/1.1 503 no\r\n\r\n"),
        Err("boot server returned 503".into())
    );
    assert_eq!(
        reporter.outcome("HTTP/1.1 300 no\r\n\r\n"),
        Err("boot server returned 300".into())
    );
    assert_eq!(
        reporter.outcome("nothing"),
        Err("no status line in response".into())
    );
}
