use stormnetboot::server::boothost::{
    desired_status, BootHost, BootHostSpec, BootHostStatus, Condition, HardwareStatus,
};
use stormnetboot::server::hosts::{
    FileRead, HostCounts, HostRecord, HostStore, Mtime, ObjectRef, UnknownHostPolicy,
};
use stormnetboot::server::mac::{Mac, MacParseError};
use stormnetboot::server::mac_map::MacMap;
use stormnetboot::server::metrics::Metrics;
use stormnetboot::server::state::{BootState, HostState, Inventory, Phase, MAX_TRACKED};

// --- MAC addresses ---

#[test]
fn every_spelling_normalises_to_the_same_identity() {
    let canonical = "aa:bb:cc:dd:ee:ff";
    for input in [
        "aa:bb:cc:dd:ee:ff",
        "AA:BB:CC:DD:EE:FF",
        "aa-bb-cc-dd-ee-ff",
        "aabb.ccdd.eeff",
        "aabbccddeeff",
        "AA BB CC DD EE FF",
    ] {
        let mac = Mac::parse(input).expect(input);
        assert_eq!(mac.to_text(), canonical, "parsing {input}");
    }
}

#[test]
fn rejects_wrong_length() {
    assert_eq!(Mac::parse("aa:bb:cc"), Err(MacParseError::WrongLength(6)));
    assert_eq!(
        Mac::parse("aa:bb:cc:dd:ee:ff:00"),
        Err(MacParseError::WrongLength(14))
    );
}

#[test]
fn rejects_non_hex() {
    assert_eq!(Mac::parse("zz:bb:cc:dd:ee:ff"), Err(MacParseError::NotHex('z')));
}

#[test]
fn octets_are_big_endian_order() {
    assert_eq!(
        Mac::parse("01:02:03:04:05:06").unwrap().octets(),
        [1, 2, 3, 4, 5, 6]
    );
}

#[test]
fn a_mac_written_out_reads_back() {
    let mac = Mac::parse("00:1b:21:3c:4d:5e").unwrap();
    assert_eq!(mac.to_text(), "00:1b:21:3c:4d:5e");
    assert_eq!(Mac::parse(&mac.to_text()), Ok(mac));
    assert!(mac.before(&Mac::parse("00:1b:21:3c:4d:5f").unwrap()));
}

#[test]
fn mac_errors_say_what_is_wrong() {
    assert_eq!(
        Mac::parse("aa:bb:cc").unwrap_err().message(),
        "expected 12 hex digits, found 6"
    );
    assert_eq!(
        Mac::parse("zz:bb:cc:dd:ee:ff").unwrap_err().message(),
        "invalid character 'z' in MAC"
    );
    assert_eq!(
        Mac::parse("\u{1}z:bb:cc:dd:ee:ff").unwrap_err().message(),
        "invalid character '\\u{1}' in MAC"
    );
}

#[test]
fn a_map_by_mac_keeps_its_order() {
    let mut map: MacMap<u8> = MacMap::new();
    map.insert(m("02"), 2);
    map.insert(m("01"), 1);
    map.insert(m("02"), 20);
    assert_eq!(map.len(), 2);
    assert_eq!(map.get(&m("02")), Some(&20));
    assert_eq!(map.at(0), (&m("01"), &1));
    assert_eq!(map.remove(&m("01")), Some(1));
    assert!(!map.contains(&m("01")));
    assert_eq!(map.into_entries(), vec![(m("02"), 20)]);
}

fn m(last: &str) -> Mac {
    Mac::parse(&format!("aa:bb:cc:dd:ee:{last}")).unwrap()
}

// --- Boot state ---

#[test]
fn phases_only_move_forward() {
    let mut state = BootState::default();
    state.observe(m("01"), Phase::ScriptFetched, None);
    state.observe(m("01"), Phase::Running, None);
    state.observe(m("01"), Phase::AssetsFetched, None);

    let snap = state.snapshot();
    assert_eq!(snap.len(), 1);
    assert_eq!(snap[0].phase, Phase::Running);
}

#[test]
fn failure_can_arrive_at_any_time() {
    let mut state = BootState::default();
    state.observe(m("02"), Phase::Running, None);
    state.observe(m("02"), Phase::Failed, Some("nvme attach timed out".into()));

    let snap = state.snapshot();
    assert_eq!(snap[0].phase, Phase::Failed);
    assert_eq!(snap[0].detail.as_deref(), Some("nvme attach timed out"));
}

#[test]
fn counts_group_by_phase() {
    let mut state = BootState::default();
    state.observe(m("01"), Phase::ScriptFetched, None);
    state.observe(m("02"), Phase::ScriptFetched, None);
    state.observe(m("03"), Phase::Local, None);

    let counts = state.phase_counts();
    assert_eq!(counts, vec![(Phase::ScriptFetched, 2), (Phase::Local, 1)]);
}

#[test]
fn finished_hosts_are_terminal() {
    assert!(Phase::Local.is_terminal());
    assert!(Phase::Failed.is_terminal());
    assert!(!Phase::Assimilating.is_terminal());
}

#[test]
fn inventory_arriving_first_still_creates_the_host() {
    let mut state = BootState::default();
    state.set_inventory(
        &m("05"),
        Inventory {
            cpus: 64,
            memory_kb: 268_435_456,
            product: Some("PowerEdge R650".into()),
            serial: Some("ABC123".into()),
            disks: vec!["nvme0n1".into()],
        },
    );

    let host = state.get(&m("05")).unwrap();
    assert_eq!(host.phase, Phase::Running);
    assert_eq!(host.hardware.unwrap().cpus, 64);
}

#[test]
fn inventory_does_not_disturb_the_phase_of_a_host_that_moved_on() {
    let mut state = BootState::default();
    state.observe(m("06"), Phase::Assimilating, None);
    state.set_inventory(
        &m("06"),
        Inventory {
            cpus: 8,
            ..Default::default()
        },
    );
    assert_eq!(state.get(&m("06")).unwrap().phase, Phase::Assimilating);
}

#[test]
fn every_phase_has_a_distinct_slug() {
    let phases = [
        Phase::ScriptFetched,
        Phase::AssetsFetched,
        Phase::RootAttached,
        Phase::Running,
        Phase::Assimilating,
        Phase::Local,
        Phase::Failed,
    ];
    let mut slugs: Vec<&str> = phases.iter().map(|p| p.slug()).collect();
    slugs.sort_unstable();
    slugs.dedup();
    assert_eq!(slugs.len(), phases.len());
    assert_eq!(Phase::ScriptFetched.slug(), "script-fetched");
    assert_eq!(Phase::RootAttached.slug(), "root-attached");
}

#[test]
fn pallet_version_is_recorded() {
    let mut state = BootState::default();
    state.observe(m("04"), Phase::ScriptFetched, None);
    state.set_pallet_version(&m("04"), "10.20");
    assert_eq!(state.snapshot()[0].pallet_version.as_deref(), Some("10.20"));
}

#[test]
fn times_of_an_observation_are_kept() {
    let mut state = BootState::default();
    state.observe_at(m("01"), Phase::Running, Some("up".into()), 100);
    state.observe_at(m("01"), Phase::AssetsFetched, None, 200);
    let host = state.get(&m("01")).unwrap();
    assert_eq!((host.first_seen_unix, host.updated_unix), (100, 100));
    assert_eq!(host.phase, Phase::Running);
    state.observe_at(m("01"), Phase::Local, None, 300);
    let host = state.get(&m("01")).unwrap();
    assert_eq!((host.first_seen_unix, host.updated_unix), (100, 300));
    assert_eq!((host.phase, host.detail), (Phase::Local, None));
    assert_eq!(state.get(&m("02")).map(|h| h.phase), None);
}

#[test]
fn the_clock_moves_the_observation() {
    let mut state = BootState::default();
    state.observe(m("01"), Phase::Running, None);
    // Some time in this century.
    let seen = state.get(&m("01")).unwrap().first_seen_unix;
    assert!(seen > 1_700_000_000 && seen < 4_200_000_000, "{seen}");
}

#[test]
fn tracked_hosts_are_bounded() {
    let mut state = BootState::default();
    for i in 0..MAX_TRACKED + 1 {
        let mac = Mac::parse(&format!("{i:012x}")).unwrap();
        let phase = if i == 7 { Phase::Local } else { Phase::Running };
        state.observe_at(mac, phase, None, i as u64);
    }
    assert_eq!(state.len(), MAX_TRACKED);
    // The finished one made room.
    assert!(state.get(&Mac::parse("000000000007").unwrap()).is_none());
    assert!(state.get(&Mac::parse("000000000000").unwrap()).is_some());
}

// --- Host records ---

fn record(mac: &str, name: &str) -> HostRecord {
    HostRecord {
        mac: Mac::parse(mac).unwrap(),
        name: name.into(),
        role: None,
        stack: None,
        portal: None,
        extra_cmdline: None,
        online: true,
        object: None,
    }
}

const NOW: Option<Mtime> = Some(Mtime { secs: 1, nanos: 2 });

#[test]
fn loads_records_and_looks_them_up_by_any_mac_spelling() {
    let mut store = HostStore::from_file("hosts.json".into());
    let mut first = record("AA-BB-CC-DD-EE-01", "node1");
    first.role = Some("master".into());
    let mut second = record("aabb.ccdd.ee02", "node2");
    second.stack = Some("stormcos:10.20".into());
    assert_eq!(store.reload(NOW, FileRead::Records(vec![first, second])), Ok(2));
    assert_eq!(store.len(), 2);

    let found = store.lookup(&Mac::parse("aa:bb:cc:dd:ee:01").unwrap()).unwrap();
    assert_eq!(found.name, "node1");
    assert_eq!(found.role.as_deref(), Some("master"));

    let found2 = store.lookup(&Mac::parse("aa:bb:cc:dd:ee:02").unwrap()).unwrap();
    assert_eq!(found2.stack.as_deref(), Some("stormcos:10.20"));

    assert!(store.lookup(&Mac::parse("00:00:00:00:00:00").unwrap()).is_none());
}

#[test]
fn missing_file_is_not_an_error() {
    let mut store = HostStore::from_file("/nonexistent/hosts.json".into());
    assert!(store.is_empty());
    assert_eq!(store.reload(None, FileRead::Missing), Ok(0));
    assert!(store.is_empty());
}

#[test]
fn empty_store_knows_nobody() {
    let store = HostStore::empty();
    assert!(store.is_empty());
    assert!(store.lookup(&Mac::parse("aa:bb:cc:dd:ee:ff").unwrap()).is_none());
}

#[test]
fn policy_parses_both_ways() {
    assert_eq!(UnknownHostPolicy::from_str("allow"), Ok(UnknownHostPolicy::Allow));
    assert_eq!(UnknownHostPolicy::from_str("DENY"), Ok(UnknownHostPolicy::Deny));
    assert!(UnknownHostPolicy::from_str("maybe").is_err());
}

#[test]
fn malformed_json_surfaces_as_an_error() {
    let mut store = HostStore::from_file("hosts.json".into());
    assert_eq!(
        store.reload(NOW, FileRead::Failed("parsing hosts.json: bad".into())),
        Err("parsing hosts.json: bad".into())
    );
}

#[test]
fn an_unchanged_file_is_not_read_again() {
    let mut store = HostStore::from_file("hosts.json".into());
    assert!(!store.is_current(NOW));
    let one = record("aa:bb:cc:dd:ee:01", "node1");
    assert_eq!(store.reload(NOW, FileRead::Records(vec![one])), Ok(1));
    assert!(store.is_current(NOW));
    assert!(!store.is_current(Some(Mtime { secs: 1, nanos: 3 })));
    assert_eq!(store.path().as_deref(), Some("hosts.json"));
}

#[test]
fn the_cluster_answers_before_the_file() {
    let mut store = HostStore::from_file("hosts.json".into());
    let file = record("aa:bb:cc:dd:ee:01", "from-file");
    let other = record("aa:bb:cc:dd:ee:02", "only-file");
    assert_eq!(store.reload(NOW, FileRead::Records(vec![file, other])), Ok(2));
    store.set_kube_records(vec![record("aa:bb:cc:dd:ee:01", "from-cluster")]);
    assert!(store.kube_synced());
    assert_eq!(store.lookup(&m("01")).unwrap().name, "from-cluster");
    assert_eq!(store.lookup(&m("02")).unwrap().name, "only-file");
    assert_eq!(
        store.counts(),
        HostCounts {
            file: 2,
            kube: 1,
            total: 2,
            kube_synced: true
        }
    );
    assert_eq!(store.records().len(), 2);
    store.remove_kube_record(&m("01"));
    assert_eq!(store.lookup(&m("01")).unwrap().name, "from-file");
}

#[test]
fn two_objects_for_one_mac_are_contested() {
    let mut store = HostStore::empty();
    let mut first = record("aa:bb:cc:dd:ee:01", "a");
    first.object = Some(ObjectRef {
        namespace: "s".into(),
        name: "a".into(),
        generation: 1,
    });
    let mut second = record("aa:bb:cc:dd:ee:01", "b");
    second.object = Some(ObjectRef {
        namespace: "s".into(),
        name: "b".into(),
        generation: 1,
    });
    assert!(!store.apply_kube_record(first.clone()));
    // An edit of the same object is no contest.
    let mut edited = first.clone();
    edited.object.as_mut().unwrap().generation = 2;
    assert!(!store.apply_kube_record(edited));
    assert!(!store.apply_kube_record(first));
    assert!(store.apply_kube_record(second));
    assert_eq!(store.lookup(&m("01")).unwrap().name, "b");
}

// --- BootHost objects ---

fn boothost(mac: &str) -> BootHost {
    let mut bh = BootHost::new(
        "node7",
        BootHostSpec {
            boot_mac_address: mac.to_owned(),
            hostname: None,
            role: Some("worker".into()),
            stack: None,
            portal: None,
            extra_cmdline: None,
            online: true,
        },
    );
    bh.metadata.namespace = Some("storm-system".into());
    bh.metadata.generation = Some(3);
    bh
}

fn host_state(phase: Phase, detail: Option<&str>) -> HostState {
    HostState {
        mac: Mac::parse("aa:bb:cc:dd:ee:ff").unwrap(),
        phase,
        detail: detail.map(str::to_owned),
        pallet_version: Some("10.20".into()),
        hardware: None,
        first_seen_unix: 1,
        updated_unix: 2,
    }
}

fn condition<'a>(status: &'a BootHostStatus, type_: &str) -> &'a Condition {
    status.conditions.iter().find(|c| c.type_ == type_).unwrap()
}

#[test]
fn a_boothost_becomes_a_host_record_with_its_object_attached() {
    let record = boothost("AA-BB-CC-DD-EE-FF").to_record().unwrap();
    assert_eq!(record.mac.to_text(), "aa:bb:cc:dd:ee:ff");
    assert_eq!(record.name, "node7");
    assert_eq!(record.role.as_deref(), Some("worker"));
    assert!(record.online);
    let object = record.object.unwrap();
    assert_eq!(object.to_text(), "storm-system/node7");
    assert_eq!(object.generation, 3);
}

#[test]
fn an_unparseable_mac_is_dropped_rather_than_matched_loosely() {
    assert!(boothost("not-a-mac").to_record().is_none());
}

#[test]
fn an_explicit_hostname_wins_over_the_object_name() {
    let mut bh = boothost("aa:bb:cc:dd:ee:ff");
    bh.spec.hostname = Some("db-3".into());
    assert_eq!(bh.to_record().unwrap().name, "db-3");
}

#[test]
fn an_unseen_host_reads_as_not_seen_not_as_broken() {
    let status = desired_status(None, true, None, 3, None, "T0");
    assert!(status.phase.is_none());
    assert_eq!(condition(&status, "Available").status, "False");
    assert_eq!(condition(&status, "Available").reason, "NotSeen");
    assert_eq!(condition(&status, "Degraded").status, "False");
}

#[test]
fn an_offline_host_says_why_it_will_not_boot() {
    let status = desired_status(None, false, None, 3, None, "T0");
    assert_eq!(condition(&status, "Available").reason, "Offline");
    assert!(condition(&status, "Available").message.contains("refuse"));
}

#[test]
fn a_booting_host_is_progressing_but_not_yet_available() {
    let state = host_state(Phase::RootAttached, None);
    let status = desired_status(Some(&state), true, Some("claim-1".into()), 3, None, "T0");

    assert_eq!(status.phase.as_deref(), Some("root-attached"));
    assert_eq!(status.pallet_version.as_deref(), Some("10.20"));
    assert_eq!(status.claim_id.as_deref(), Some("claim-1"));
    assert_eq!(condition(&status, "Progressing").status, "True");
    assert_eq!(condition(&status, "Available").status, "False");
}

#[test]
fn a_running_host_is_available_while_it_is_still_assimilating() {
    for phase in [Phase::Running, Phase::Assimilating] {
        let state = host_state(phase, None);
        let status = desired_status(Some(&state), true, None, 3, None, "T0");
        assert_eq!(condition(&status, "Available").status, "True", "{phase:?}");
        assert_eq!(condition(&status, "Progressing").status, "True", "{phase:?}");
    }
}

#[test]
fn a_local_host_is_available_and_finished() {
    let state = host_state(Phase::Local, None);
    let status = desired_status(Some(&state), true, None, 3, None, "T0");
    assert_eq!(condition(&status, "Available").status, "True");
    assert_eq!(condition(&status, "Progressing").status, "False");
    assert_eq!(condition(&status, "Degraded").status, "False");
}

#[test]
fn a_failure_degrades_and_carries_the_reason_the_node_gave() {
    let state = host_state(Phase::Failed, Some("nvme attach timed out"));
    let status = desired_status(Some(&state), true, None, 3, None, "T0");
    let degraded = condition(&status, "Degraded");
    assert_eq!(degraded.status, "True");
    assert_eq!(degraded.message, "nvme attach timed out");
    assert_eq!(condition(&status, "Available").status, "False");
}

#[test]
fn transition_times_move_only_when_the_status_does() {
    let booting = desired_status(
        Some(&host_state(Phase::RootAttached, None)),
        true,
        None,
        3,
        None,
        "T0",
    );
    let still_booting = desired_status(
        Some(&host_state(Phase::Running, None)),
        true,
        None,
        3,
        Some(&booting),
        "T1",
    );
    assert_eq!(
        condition(&still_booting, "Progressing").last_transition_time,
        "T0"
    );
    assert_eq!(
        condition(&still_booting, "Available").last_transition_time,
        "T1"
    );
}

#[test]
fn hardware_reaches_the_status() {
    let inventory = Inventory {
        cpus: 64,
        memory_kb: 268_435_456,
        product: Some("PowerEdge R650".into()),
        serial: Some("ABC123".into()),
        disks: vec!["nvme0n1".into()],
    };
    let mut state = host_state(Phase::Running, None);
    state.hardware = Some(inventory.clone());
    let status = desired_status(Some(&state), true, None, 3, None, "T0");
    let hardware = status.hardware.as_ref().unwrap();
    assert_eq!(hardware.cpus, 64);
    assert_eq!(hardware.memory_kb, 268_435_456);
    assert_eq!(hardware.product.as_deref(), Some("PowerEdge R650"));
    assert!(hardware.same(&HardwareStatus::of(&inventory)));
    assert!(status.same(&status.clone()));
    assert!(!status.same(&BootHostStatus::default()));
    assert!(status.conditions[0].same(&status.conditions[0].clone()));
}

#[test]
fn an_object_without_a_name_is_only_described() {
    let mut bh = boothost("aa:bb:cc:dd:ee:ff");
    assert_eq!(bh.object_ref().unwrap().to_text(), "storm-system/node7");
    assert_eq!(bh.object_ref_or_unnamed(), "storm-system/node7");
    bh.metadata.name = None;
    assert!(bh.object_ref().is_none());
    assert!(bh.to_record().is_none());
}

// --- Metrics ---

fn counts() -> HostCounts {
    HostCounts {
        file: 2,
        kube: 5,
        total: 6,
        kube_synced: true,
    }
}

#[test]
fn renders_valid_exposition_including_phase_labels() {
    let mut m = Metrics::default();
    Metrics::incr(&mut m.requests_total);
    Metrics::incr(&mut m.refused);

    let out = m.render(&[(Phase::Running, 3), (Phase::Failed, 1)], counts());

    assert!(out.contains("stormnetboot_requests_total 1"));
    assert!(out.contains("stormnetboot_refused_total 1"));
    assert!(out.contains("stormnetboot_hosts{phase=\"running\"} 3"));
    assert!(out.contains("stormnetboot_hosts{phase=\"failed\"} 1"));
    assert!(out.contains("stormnetboot_host_records{source=\"boothost\"} 5"));
    assert!(out.contains("stormnetboot_boothost_synced 1"));

    for line in out.lines().filter(|l| !l.starts_with('#')) {
        let name = line.split(['{', ' ']).next().unwrap();
        assert!(out.contains(&format!("# TYPE {name} ")), "missing TYPE for {name}");
    }
}

#[test]
fn no_phases_still_renders() {
    let out = Metrics::default().render(&[], counts());
    assert!(out.contains("stormnetboot_build_info"));
    assert!(out.contains("# TYPE stormnetboot_hosts gauge"));
}
