use ed25519_dalek::{Signer, SigningKey};
use stormnetboot::init::cmdline::BootParams;
use stormnetboot::server::boothost::{BootHost, BootHostSpec, BootHostStatus};
use stormnetboot::server::claims::{Attach, ClaimClient, ClaimReply, ClaimResponse};
use stormnetboot::server::components::{
    collect, short_digest, Health, Metric, Relation, RelationKind, MAX_HOST_ROWS,
};
use stormnetboot::server::config::Config;
use stormnetboot::server::digest::digest_of;
use stormnetboot::server::hosts::{HostRecord, HostStore, UnknownHostPolicy};
use stormnetboot::server::http::{
    parse_phase, readyz, AppState, BootQuery, BootStep, InventoryRequest, ReportRequest,
};
use stormnetboot::server::ipxe::{render, BootPlan};
use stormnetboot::server::kube_store::{
    BootHostIndex, StatusPass, Watch, WatchEvent, MAX_PATCHES_PER_PASS,
};
use stormnetboot::server::mac::Mac;
use stormnetboot::server::pallet::{
    check_member, directory_status, filename_for_role, inline_text, judge_member, member_role, pin,
    plan_members, signature_referrers, Annotation, AssetStatus, Candidate, Descriptor, Index,
    Manifest, MemberDef, MemberStep, PalletSource, PalletSpec, Refreshed, SignatureSearch,
    ANNOTATION_NAME, ANNOTATION_ROLE, PALLET_ARTIFACT_TYPE, PALLET_CONFIG_TYPE,
};
use stormnetboot::server::state::{BootState, Inventory, Phase};
use stormnetboot::server::stormsig::{
    conclude, parse_statement, verify, SignatureDoc, SubjectKind, VerifyError,
    SIGNATURE_ARTIFACT_TYPE,
};

fn mac(last: &str) -> Mac {
    Mac::parse(&format!("aa:bb:cc:dd:ee:{last}")).unwrap()
}

// --- Configuration ---

#[test]
fn defaults_are_a_directory_server_with_no_claims() {
    let c = Config::default();
    assert!(!c.projects_pallets());
    assert!(!c.claims_enabled());
    assert!(c.validate().is_ok());
    assert_eq!(c.portal_port, 4420);
    assert_eq!(c.pallet_repo, "stormcos/boot");
    assert_eq!(c.refresh_secs, 60);
}

#[test]
fn claiming_requires_a_registry_and_a_golden() {
    let claim = Config {
        claim: true,
        ..Config::default()
    };
    assert_eq!(
        claim.validate(),
        Err("--claim needs --registry to claim clones from".into())
    );
    let with_registry = Config {
        claim: true,
        registry: Some("http://r:5100".into()),
        ..Config::default()
    };
    assert_eq!(
        with_registry.validate(),
        Err("--claim needs --golden to say what to clone".into())
    );
    let c = Config {
        claim: true,
        registry: Some("http://r:5100".into()),
        golden: Some("stormcos".into()),
        trusted_keys: vec!["ab".into()],
        ..Config::default()
    };
    assert!(c.validate().is_ok());
    assert!(c.claims_enabled());
}

#[test]
fn projecting_pallets_demands_a_key_or_an_explicit_opt_out() {
    let c = Config {
        registry: Some("http://r:5100".into()),
        ..Config::default()
    };
    assert!(c.validate().is_err(), "unsigned should not be the default");
    let open = Config {
        registry: Some("http://r:5100".into()),
        allow_unsigned: true,
        ..Config::default()
    };
    assert!(open.validate().is_ok());
    let keyed = Config {
        registry: Some("http://r:5100".into()),
        trusted_keys: vec!["deadbeef".into()],
        ..Config::default()
    };
    assert!(keyed.validate().is_ok());
}

#[test]
fn the_two_surfaces_may_not_share_a_socket() {
    let c = Config {
        listen: "0.0.0.0:8080".into(),
        mgmt_listen: "0.0.0.0:8080".into(),
        ..Config::default()
    };
    assert_eq!(
        c.validate(),
        Err("--listen and --mgmt-listen are both 0.0.0.0:8080; the boot surface and the management surface must not share a socket".into())
    );
}

// --- Boot scripts ---

fn record(name: &str) -> HostRecord {
    HostRecord {
        mac: mac("ff"),
        name: name.to_owned(),
        role: Some("worker".into()),
        stack: None,
        portal: None,
        extra_cmdline: None,
        online: true,
        object: None,
    }
}

fn with_portal() -> Config {
    Config {
        portal: Some("10.0.0.5".into()),
        ..Config::default()
    }
}

#[test]
fn renders_portal_when_configured() {
    let cfg = with_portal();
    let m = mac("ff");
    let plan = BootPlan::resolve(&cfg, Some(&m), None);
    let script = render(&cfg, &plan);

    assert!(script.starts_with("#!ipxe"));
    assert!(script.contains("rd.stormblock.portal=10.0.0.5"));
    assert!(script.contains("rd.stormblock.port=4420"));
    assert!(script.contains("root=/dev/ublkb0"));
    assert!(script.contains("no host record"));
    assert!(!script.contains("WARNING"));
}

#[test]
fn warns_instead_of_guessing_without_a_portal() {
    let cfg = Config::default();
    let plan = BootPlan::resolve(&cfg, None, None);
    let script = render(&cfg, &plan);
    assert!(script.contains("WARNING"));
    assert!(!script.contains("rd.stormblock.portal"));
}

#[test]
fn without_a_portal_nothing_says_where_root_is() {
    let cfg = Config {
        local_disk: Some("/dev/sda".into()),
        ..Config::default()
    };
    let rec = record("node7");
    let plan = BootPlan::resolve(&cfg, None, Some(&rec));
    assert_eq!(plan.cmdline(&cfg), "storm.hostname=node7 storm.role=worker");
    assert!(!render(&cfg, &plan).contains("rd.stormblock."));
}

#[test]
fn host_record_pins_identity_on_the_cmdline() {
    let cfg = with_portal();
    let m = mac("ff");
    let rec = record("node7");
    let plan = BootPlan::resolve(&cfg, Some(&m), Some(&rec));
    let script = render(&cfg, &plan);

    assert!(script.contains("storm.hostname=node7"));
    assert!(script.contains("storm.role=worker"));
    assert!(script.contains("# aa:bb:cc:dd:ee:ff -> node7"));
}

#[test]
fn host_record_portal_overrides_the_server_default() {
    let cfg = with_portal();
    let mut rec = record("node7");
    rec.portal = Some("10.9.9.9".into());
    let plan = BootPlan::resolve(&cfg, None, Some(&rec));
    let script = render(&cfg, &plan);

    assert!(script.contains("rd.stormblock.portal=10.9.9.9"));
    assert!(!script.contains("10.0.0.5"));
}

#[test]
fn claim_details_reach_the_cmdline() {
    let cfg = with_portal();
    let mut plan = BootPlan::resolve(&cfg, None, None);
    plan.nqn = Some("nqn.2026-01.io.storm:vol-7");
    plan.nsid = Some(1);
    plan.volume = Some("clone-stormcos-18f3");
    let script = render(&cfg, &plan);

    assert!(script.contains("rd.stormblock.nqn=nqn.2026-01.io.storm:vol-7"));
    assert!(script.contains("rd.stormblock.nsid=1"));
    assert!(script.contains("stormblock.volume=clone-stormcos-18f3"));
    assert!(!script.contains("rd.stormblock.volume="));
}

#[test]
fn flow_over_target_is_passed_through_when_configured() {
    let with_disk = Config {
        local_disk: Some("/dev/sda".into()),
        ..with_portal()
    };
    let plan = BootPlan::resolve(&with_disk, None, None);
    assert!(render(&with_disk, &plan).contains("rd.stormblock.local-disk=/dev/sda"));

    let without = with_portal();
    let plan = BootPlan::resolve(&without, None, None);
    assert!(!render(&without, &plan).contains("local-disk"));
}

#[test]
fn base_url_trailing_slash_does_not_double_up() {
    let cfg = Config {
        base_url: "http://boot.lo:8080/".into(),
        ..Config::default()
    };
    let plan = BootPlan::resolve(&cfg, None, None);
    assert!(render(&cfg, &plan).contains("set base http://boot.lo:8080\n"));
    assert_eq!(cfg.base_url(), "http://boot.lo:8080");
}

#[test]
fn both_server_and_host_extra_cmdline_are_appended() {
    let cfg = Config {
        extra_cmdline: "console=ttyS0".into(),
        ..with_portal()
    };
    let mut rec = record("node7");
    rec.extra_cmdline = Some("debug".into());
    let plan = BootPlan::resolve(&cfg, None, Some(&rec));
    let script = render(&cfg, &plan);

    assert!(script.contains("console=ttyS0"));
    assert!(script.contains("debug"));
}

#[test]
fn a_whole_script() {
    let cfg = Config {
        local_disk: Some("/dev/sda".into()),
        base_url: "http://b".into(),
        ..with_portal()
    };
    let m = mac("ff");
    let rec = record("node7");
    let plan = BootPlan::resolve(&cfg, Some(&m), Some(&rec));
    assert_eq!(
        render(&cfg, &plan),
        "#!ipxe\n\n# aa:bb:cc:dd:ee:ff -> node7\n\nset base http://b\n\
         kernel ${base}/boot/vmlinuz initrd=initramfs.img rd.stormblock.portal=10.0.0.5 \
         rd.stormblock.port=4420 root=/dev/ublkb0 rd.stormblock.local-disk=/dev/sda \
         storm.hostname=node7 storm.role=worker\n\
         initrd ${base}/boot/initramfs.img\nboot\n"
    );
}

#[test]
fn the_initramfs_reads_what_the_server_wrote() {
    let cfg = Config {
        local_disk: Some("/dev/sda".into()),
        extra_cmdline: "console=ttyS0".into(),
        ..with_portal()
    };
    let rec = record("node7");
    let mut plan = BootPlan::resolve(&cfg, None, Some(&rec));
    plan.nqn = Some("nqn.x");
    plan.nsid = Some(7);
    plan.volume = Some("v");
    let p = BootParams::parse(&plan.cmdline(&cfg));
    assert_eq!(p.portal.as_deref(), Some("10.0.0.5"));
    assert_eq!(p.port, Some(4420));
    assert_eq!(p.nqn.as_deref(), Some("nqn.x"));
    assert_eq!(p.nsid, Some(7));
    assert_eq!(p.volume.as_deref(), Some("v"));
    assert_eq!(p.local_disk.as_deref(), Some("/dev/sda"));
    assert_eq!(p.hostname.as_deref(), Some("node7"));
    assert_eq!(p.role.as_deref(), Some("worker"));
    assert!(p.is_network_boot());
}

// --- Claims ---

fn attach(port: u16, target: &str) -> Attach {
    Attach {
        protocol: "nvme-tcp".into(),
        address: "10.0.0.1".into(),
        port,
        target: target.into(),
        nsid: Some(1),
        disk_add: None,
    }
}

fn claimed(attach: Option<Attach>) -> ClaimResponse {
    ClaimResponse {
        id: "x".into(),
        golden: "g".into(),
        template: "t".into(),
        state: "bound".into(),
        volume_name: "v".into(),
        attach,
    }
}

#[test]
fn parses_the_registry_response_shape() {
    let claim = ClaimResponse {
        id: "18f3c2a91b4".into(),
        golden: "stormcos-boot".into(),
        template: "img-abcdef012345".into(),
        state: "bound".into(),
        volume_name: "clone-stormcos-18f3c2a91b4".into(),
        attach: Some(Attach {
            protocol: "nvme-tcp".into(),
            address: "192.168.200.21".into(),
            port: 4431,
            target: "nqn.2026-08.lo.gt:img-abcdef012345-c1".into(),
            nsid: Some(1),
            disk_add: Some("/disk add type=nvme-tcp ...".into()),
        }),
    };
    assert!(claim.is_attachable());
}

#[test]
fn a_claim_without_an_export_is_not_attachable() {
    assert!(!claimed(None).is_attachable());
}

#[test]
fn an_empty_target_is_not_attachable() {
    assert!(!claimed(Some(attach(4431, ""))).is_attachable());
}

#[test]
fn a_zero_port_is_not_attachable() {
    assert!(!claimed(Some(attach(0, "nqn.x"))).is_attachable());
}

#[test]
fn a_claim_is_asked_for_and_judged() {
    let client = ClaimClient::new("http://r:5100/".into(), "gold".into());
    let request = client.request(Some(&mac("01")), None);
    assert_eq!(request.url, "http://r:5100/v1/clones/claim");
    assert_eq!(request.golden, "gold");
    assert_eq!(request.consumer.as_deref(), Some("aa:bb:cc:dd:ee:01"));
    assert_eq!(client.request(None, Some("other")).golden, "other");

    let answered = |success: bool, claim: Option<ClaimResponse>| ClaimReply::Answered {
        success,
        status: "502 Bad Gateway".into(),
        text: " nope \n".into(),
        claim,
    };
    let good = claimed(Some(attach(1, "nqn.x")));
    assert_eq!(
        ClaimClient::claim(&request, answered(true, Some(good.clone()))),
        Ok(good)
    );
    assert_eq!(
        ClaimClient::claim(&request, ClaimReply::Unreachable),
        Err("POST http://r:5100/v1/clones/claim".into())
    );
    assert_eq!(
        ClaimClient::claim(&request, answered(false, None)),
        Err("claim for golden gold failed (502 Bad Gateway): nope".into())
    );
    assert_eq!(
        ClaimClient::claim(&request, answered(true, None)),
        Err("parsing claim response:  nope \n".into())
    );
    assert_eq!(
        ClaimClient::claim(&request, answered(true, Some(claimed(None)))),
        Err("claim x for golden gold has no usable attach info (state bound)".into())
    );
}

// --- Components ---

fn assets_ready() -> AssetStatus {
    AssetStatus {
        ready: true,
        detail: "stormcos boot 10.20".into(),
        version: Some("10.20".into()),
        digest: Some("sha256:abcdef0123456789".into()),
        signature_verified: true,
    }
}

#[test]
fn always_emits_a_system_component_first() {
    let feed = collect(&BootState::default(), &assets_ready());
    assert_eq!(feed[0].id, "system");
    assert_eq!(feed[0].health, Health::Good);
}

#[test]
fn unready_assets_make_the_service_unhealthy() {
    let assets = AssetStatus {
        ready: false,
        detail: "no boot pallet".into(),
        version: None,
        digest: None,
        signature_verified: false,
    };
    let feed = collect(&BootState::default(), &assets);
    assert_eq!(feed[0].health, Health::Error);
    assert!(feed[0].detail.contains("not serving"));
}

#[test]
fn a_failed_host_warns_the_service_without_hiding_it() {
    let mut state = BootState::default();
    state.observe(mac("01"), Phase::Running, None);
    state.observe(mac("02"), Phase::Failed, Some("attach timed out".into()));

    let feed = collect(&state, &assets_ready());
    assert_eq!(feed[0].health, Health::Warn);
    assert!(feed[0].detail.contains("1 host(s) failed"));

    let failed = feed.iter().find(|c| c.id == "host:aa:bb:cc:dd:ee:02").unwrap();
    assert_eq!(failed.health, Health::Error);
    assert_eq!(failed.detail, "attach timed out");
}

#[test]
fn ids_follow_the_kind_colon_name_convention_and_relations_resolve() {
    let mut state = BootState::default();
    state.observe(mac("01"), Phase::Running, None);
    let feed = collect(&state, &assets_ready());

    let ids: Vec<&str> = feed.iter().map(|c| c.id.as_str()).collect();
    assert!(ids.contains(&"phase:running"));
    assert!(ids.contains(&"host:aa:bb:cc:dd:ee:01"));

    for component in &feed {
        for relation in &component.relations {
            for target in &relation.targets {
                assert!(
                    ids.contains(&target.as_str()),
                    "{} -> missing {target}",
                    component.id
                );
            }
        }
    }
}

#[test]
fn the_feed_shows_the_snapshot_under_ids_that_differ() {
    let mut state = BootState::default();
    state.observe(mac("03"), Phase::Failed, Some("no link".into()));
    state.observe(mac("01"), Phase::Running, None);
    state.observe(mac("02"), Phase::Running, None);
    let feed = collect(&state, &assets_ready());

    let mut ids: Vec<&str> = feed.iter().map(|c| c.id.as_str()).collect();
    let total = ids.len();
    ids.sort();
    ids.dedup();
    assert_eq!(ids.len(), total);

    let mut rows: Vec<String> =
        feed.iter().filter(|c| c.kind == "host").map(|c| c.id.clone()).collect();
    let mut known: Vec<String> =
        state.snapshot().iter().map(|h| format!("host:{}", h.mac.to_text())).collect();
    rows.sort();
    known.sort();
    assert_eq!(rows, known);

    let listed: usize = state.phase_counts().iter().map(|c| c.1).sum();
    assert_eq!((listed, state.len()), (3, 3));
    assert!(state.phase_counts().contains(&(Phase::Running, 2)));
}

#[test]
fn host_rows_are_capped() {
    let mut state = BootState::default();
    for i in 0..(MAX_HOST_ROWS + 50) {
        let m = Mac::parse(&format!("aa:bb:cc:{:02x}:{:02x}:01", i / 256, i % 256)).unwrap();
        state.observe(m, Phase::ScriptFetched, None);
    }
    let feed = collect(&state, &assets_ready());
    let hosts = feed.iter().filter(|c| c.kind == "host").count();
    assert_eq!(hosts, MAX_HOST_ROWS);
}

#[test]
fn the_pieces_of_a_component() {
    assert_eq!(short_digest("sha256:abcdef0123456789"), "abcdef012345");
    assert_eq!(short_digest("ab"), "ab");
    let metric = Metric::new("hosts", "3").tone("warn");
    assert_eq!((metric.value.as_str(), metric.tone.as_deref()), ("3", Some("warn")));
    let relation = Relation::has_many("hosts", vec!["host:a".into()]);
    assert_eq!(relation.kind, RelationKind::HasMany);
    assert_eq!(Relation::belongs_to("service", "system").targets, vec!["system"]);
}

// --- HTTP ---

#[test]
fn phase_names_parse_in_the_spellings_a_client_might_send() {
    assert_eq!(parse_phase("root-attached"), Some(Phase::RootAttached));
    assert_eq!(parse_phase("root_attached"), Some(Phase::RootAttached));
    assert_eq!(parse_phase("  RUNNING "), Some(Phase::Running));
    assert_eq!(parse_phase("assimilating"), Some(Phase::Assimilating));
    assert_eq!(parse_phase("nonsense"), None);
}

fn app(cfg: Config) -> AppState {
    let client = if cfg.claims_enabled() {
        Some(ClaimClient::new("http://r".into(), "gold".into()))
    } else {
        None
    };
    AppState::new(cfg, HostStore::empty(), client, assets_ready())
}

fn claiming() -> Config {
    Config {
        claim: true,
        registry: Some("http://r".into()),
        golden: Some("gold".into()),
        ..with_portal()
    }
}

fn asks(m: Option<&str>) -> BootQuery {
    BootQuery {
        mac: m.map(|s| s.to_owned()),
    }
}

fn answer(step: BootStep) -> (u16, String) {
    match step {
        BootStep::Answer(reply) => (reply.status, reply.body),
        BootStep::Claim(_) => panic!("expected an answer"),
    }
}

#[test]
fn a_machine_gets_its_script() {
    let mut state = app(with_portal());
    let (status, body) = answer(state.begin_boot(&asks(Some("aa:bb:cc:dd:ee:01")), 10));
    assert_eq!(status, 200);
    assert!(body.starts_with("#!ipxe\n\n# aa:bb:cc:dd:ee:01 (no host record"));
    let host = state.boot.get(&mac("01")).unwrap();
    assert_eq!(host.phase, Phase::ScriptFetched);
    assert_eq!(host.pallet_version.as_deref(), Some("10.20"));
    assert_eq!(state.metrics.boot_script_requests, 1);
}

#[test]
fn a_malformed_mac_is_refused() {
    let mut state = app(with_portal());
    let (status, body) = answer(state.begin_boot(&asks(Some("zz")), 10));
    assert_eq!(status, 400);
    assert_eq!(
        body,
        "#!ipxe\n# malformed mac: invalid character 'z' in MAC\nshell\n"
    );
    assert_eq!((state.metrics.refused, state.boot.len()), (1, 0));
}

#[test]
fn an_unknown_machine_is_refused_where_only_known_ones_may_boot() {
    let mut state = app(Config {
        unknown_hosts: UnknownHostPolicy::Deny,
        ..with_portal()
    });
    let (status, body) = answer(state.begin_boot(&asks(Some("aa:bb:cc:dd:ee:01")), 10));
    assert_eq!(status, 403);
    assert_eq!(
        body,
        "#!ipxe\n# this machine has no host record; refusing to boot it\nshell\n"
    );
    assert_eq!(state.boot.len(), 0);
}

#[test]
fn a_parked_machine_is_refused_by_name() {
    let mut state = app(with_portal());
    let mut parked = record("node7");
    parked.online = false;
    state.hosts.set_kube_records(vec![parked]);
    let (status, body) = answer(state.begin_boot(&asks(Some("aa:bb:cc:dd:ee:ff")), 10));
    assert_eq!(status, 403);
    assert_eq!(
        body,
        "#!ipxe\n# node7 is marked offline (spec.online=false); not booting it\nshell\n"
    );
}

#[test]
fn a_claim_is_made_once_and_reused() {
    let mut state = app(claiming());
    let BootStep::Claim(pending) = state.begin_boot(&asks(Some("aa:bb:cc:dd:ee:01")), 10) else {
        panic!("expected a claim");
    };
    assert_eq!(pending.request.golden, "gold");
    let reply = state.finish_boot(
        pending,
        ClaimReply::Answered {
            success: true,
            status: "200 OK".into(),
            text: "".into(),
            claim: Some(claimed(Some(attach(4431, "nqn.x")))),
        },
        11,
    );
    assert_eq!(reply.status, 200);
    assert!(reply.body.contains("rd.stormblock.portal=10.0.0.1 rd.stormblock.port=4431 rd.stormblock.nqn=nqn.x rd.stormblock.nsid=1 stormblock.volume=v"));
    assert_eq!(state.claim_id(&mac("01")).as_deref(), Some("x"));
    let (status, body) = answer(state.begin_boot(&asks(Some("aa:bb:cc:dd:ee:01")), 12));
    assert_eq!((status, body), (200, reply.body));
}

fn granted(id: &str) -> ClaimReply {
    let mut claim = claimed(Some(attach(4431, "nqn.x")));
    claim.id = id.to_owned();
    ClaimReply::Answered {
        success: true,
        status: "200 OK".into(),
        text: "".into(),
        claim: Some(claim),
    }
}

#[test]
fn a_retry_while_the_claim_is_out_is_served_that_claim() {
    for late in [granted("second"), ClaimReply::Unreachable] {
        let mut state = app(claiming());
        let BootStep::Claim(first) = state.begin_boot(&asks(Some("aa:bb:cc:dd:ee:01")), 10) else {
            panic!("expected a claim");
        };
        let BootStep::Claim(second) = state.begin_boot(&asks(Some("aa:bb:cc:dd:ee:01")), 11)
        else {
            panic!("expected a claim");
        };
        let BootStep::Claim(first) = state.resume_boot(first) else {
            panic!("nothing was claimed yet");
        };
        let served = state.finish_boot(first, granted("first"), 12);
        assert_eq!(served.status, 200);

        let reply = state.finish_boot(second, late, 13);
        assert_eq!((reply.status, reply.body), (200, served.body));
        assert_eq!(state.claim_id(&mac("01")).as_deref(), Some("first"));
        assert_eq!(state.metrics.claim_failures, 0);
        assert_eq!(state.boot.get(&mac("01")).unwrap().phase, Phase::ScriptFetched);
    }
}

#[test]
fn a_boot_whose_turn_comes_late_asks_for_nothing() {
    let mut state = app(claiming());
    let BootStep::Claim(first) = state.begin_boot(&asks(Some("aa:bb:cc:dd:ee:01")), 10) else {
        panic!("expected a claim");
    };
    let BootStep::Claim(second) = state.begin_boot(&asks(Some("aa:bb:cc:dd:ee:01")), 11) else {
        panic!("expected a claim");
    };
    let served = state.finish_boot(first, granted("first"), 12);
    let (status, body) = answer(state.resume_boot(second));
    assert_eq!((status, body), (200, served.body));
}

#[test]
fn an_unidentified_machine_holds_no_claim() {
    let mut state = app(claiming());
    let BootStep::Claim(first) = state.begin_boot(&asks(None), 10) else {
        panic!("expected a claim");
    };
    state.finish_boot(first, granted("first"), 11);
    assert!(matches!(state.begin_boot(&asks(None), 12), BootStep::Claim(_)));
}

#[test]
fn a_failed_claim_fails_the_boot() {
    let mut state = app(claiming());
    let BootStep::Claim(pending) = state.begin_boot(&asks(Some("aa:bb:cc:dd:ee:01")), 10) else {
        panic!("expected a claim");
    };
    let reply = state.finish_boot(pending, ClaimReply::Unreachable, 11);
    assert_eq!(reply.status, 503);
    assert_eq!(
        reply.body,
        "#!ipxe\n# could not claim a root volume: POST http://r/v1/clones/claim\nshell\n"
    );
    let host = state.boot.get(&mac("01")).unwrap();
    assert_eq!(host.phase, Phase::Failed);
    assert_eq!(
        host.detail.as_deref(),
        Some("claim failed: POST http://r/v1/clones/claim")
    );
    assert_eq!(state.metrics.claim_failures, 1);
}

fn says(m: &str, phase: &str) -> ReportRequest {
    ReportRequest {
        mac: m.into(),
        phase: phase.into(),
        detail: Some("d".into()),
    }
}

#[test]
fn reports_are_recorded_or_refused() {
    let mut state = app(with_portal());
    let reply = state.report(says("aa:bb:cc:dd:ee:01", "Running"), 10);
    assert_eq!((reply.status, reply.body.as_str()), (202, "recorded\n"));
    assert_eq!(state.boot.get(&mac("01")).unwrap().phase, Phase::Running);
    let reply = state.report(says("aa:bb:cc:dd:ee:01", "odd\"one"), 10);
    assert_eq!(
        (reply.status, reply.body.as_str()),
        (400, "unknown phase \"odd\\\"one\"\n")
    );
    let reply = state.report(says("aa", "running"), 10);
    assert_eq!(
        (reply.status, reply.body.as_str()),
        (400, "bad mac: expected 12 hex digits, found 2\n")
    );
}

#[test]
fn inventories_are_recorded_or_refused() {
    let mut state = app(with_portal());
    let described = |m: &str| InventoryRequest {
        mac: m.into(),
        hardware: Inventory {
            cpus: 8,
            ..Default::default()
        },
    };
    assert_eq!(state.inventory(described("aabbccddee01"), 10).status, 202);
    assert_eq!(
        state.boot.get(&mac("01")).unwrap().hardware.unwrap().cpus,
        8
    );
    assert_eq!(state.inventory(described("?"), 10).status, 400);
}

#[test]
fn readiness_lists_what_is_missing() {
    assert_eq!(readyz(true, true).status, 200);
    assert_eq!(readyz(true, true).body, "ready\n");
    assert_eq!(readyz(false, true).body, "missing boot assets: vmlinuz\n");
    let none = readyz(false, false);
    assert_eq!(
        (none.status, none.body.as_str()),
        (503, "missing boot assets: vmlinuz, initramfs.img\n")
    );
}

#[test]
fn requests_and_refreshes_are_counted() {
    let mut state = app(with_portal());
    state.count_request("/boot/vmlinuz");
    state.count_response(404);
    assert_eq!(state.metrics.requests_total, 1);
    assert_eq!(state.metrics.asset_requests, 1);
    assert_eq!(state.metrics.not_found, 1);
    state.settle_refresh(Err("no".into()));
    assert_eq!(state.metrics.pallet_refresh_failures, 1);
    assert_eq!(state.asset_status(), assets_ready());
    state.settle_refresh(Ok(Refreshed {
        status: AssetStatus::default(),
        changed: true,
    }));
    assert_eq!(state.metrics.pallet_refreshes, 1);
    assert!(!state.asset_status().ready);
    state.set_asset_status(assets_ready());
    assert!(state.asset_status().ready);
    assert!(state.metrics_page().contains("stormnetboot_requests_total 1\n"));
}

// --- The cluster ---

fn boothost(name: &str, m: &str) -> BootHost {
    let mut bh = BootHost::new(
        name,
        BootHostSpec {
            boot_mac_address: m.to_owned(),
            hostname: None,
            role: None,
            stack: None,
            portal: None,
            extra_cmdline: None,
            online: true,
        },
    );
    bh.metadata.namespace = Some("storm-system".into());
    bh
}

#[test]
fn the_index_keys_on_the_normalised_mac_whatever_the_yaml_said() {
    let mut index = BootHostIndex::default();
    let mut store = HostStore::empty();
    index.apply(boothost("node1", "AA-BB-CC-DD-EE-01"), &mut store);

    assert!(index.contains(&mac("01")));
    assert_eq!(index.len(), 1);
}

#[test]
fn a_noted_status_is_what_the_next_pass_compares_against() {
    let mut index = BootHostIndex::default();
    let mut store = HostStore::empty();
    index.apply(boothost("node1", "aa:bb:cc:dd:ee:01"), &mut store);

    let status = BootHostStatus {
        phase: Some("running".into()),
        ..Default::default()
    };
    index.note_status(&mac("01"), status.clone());
    assert_eq!(index.status(&mac("01")), Some(&status));
}

#[test]
fn an_object_with_an_unusable_mac_never_enters_the_index() {
    let mut index = BootHostIndex::default();
    let mut store = HostStore::empty();
    assert!(boothost("broken", "nonsense").to_record().is_none());
    index.apply(boothost("broken", "nonsense"), &mut store);
    assert_eq!(index.len(), 0);
    assert!(store.is_empty());
}

#[test]
fn a_watch_keeps_index_and_store_in_step() {
    let mut state = app(with_portal());
    let mut index = BootHostIndex::default();
    let mut watch = Watch::new();
    watch.on_event(WatchEvent::Init, &mut index, &mut state);
    watch.on_event(
        WatchEvent::InitApply(boothost("node1", "aa:bb:cc:dd:ee:01")),
        &mut index,
        &mut state,
    );
    watch.on_event(
        WatchEvent::InitApply(boothost("broken", "?")),
        &mut index,
        &mut state,
    );
    assert_eq!(index.len(), 0);
    watch.on_event(WatchEvent::InitDone, &mut index, &mut state);
    assert_eq!((index.len(), state.hosts.len()), (1, 1));
    assert!(state.hosts.kube_synced());
    watch.on_event(
        WatchEvent::Apply(boothost("node2", "aa:bb:cc:dd:ee:02")),
        &mut index,
        &mut state,
    );
    assert_eq!((index.len(), state.hosts.len()), (2, 2));
    watch.on_event(
        WatchEvent::Delete(boothost("node1", "aa:bb:cc:dd:ee:01")),
        &mut index,
        &mut state,
    );
    assert!(!index.contains(&mac("01")));
    assert!(state.hosts.lookup(&mac("01")).is_none());
    watch.on_event(WatchEvent::Failed, &mut index, &mut state);
    assert_eq!(state.metrics.watch_errors, 1);
}

#[test]
fn a_written_status_is_not_written_again() {
    let mut state = app(with_portal());
    let mut index = BootHostIndex::default();
    index.apply(boothost("node1", "aa:bb:cc:dd:ee:01"), &mut state.hosts);
    state.boot.observe_at(mac("01"), Phase::Running, None, 5);

    let mut pass = StatusPass::new("T0".into());
    let patch = pass.advance(&index, &state).unwrap();
    assert_eq!((patch.namespace.as_str(), patch.name.as_str()), ("storm-system", "node1"));
    assert_eq!(patch.status.phase.as_deref(), Some("running"));
    pass.settle(patch, true, &mut index, &mut state.metrics);
    assert!(pass.advance(&index, &state).is_none());
    assert_eq!(state.metrics.status_writes, 1);

    let mut again = StatusPass::new("T1".into());
    assert!(again.advance(&index, &state).is_none());
}

#[test]
fn a_watch_names_two_objects_that_claim_one_address() {
    let mut state = app(with_portal());
    let mut index = BootHostIndex::default();
    let mut watch = Watch::new();
    let first = WatchEvent::Apply(boothost("node1", "aa:bb:cc:dd:ee:01"));
    assert!(watch.on_event(first, &mut index, &mut state).is_none());
    let again = WatchEvent::Apply(boothost("node1", "aa:bb:cc:dd:ee:01"));
    assert!(watch.on_event(again, &mut index, &mut state).is_none());
    let other = WatchEvent::Apply(boothost("node2", "AA-BB-CC-DD-EE-01"));
    let contest = watch.on_event(other, &mut index, &mut state).unwrap();
    assert_eq!(contest.mac, mac("01"));
    assert_eq!(contest.previous.unwrap().name, "node1");
    assert_eq!(contest.now.unwrap().name, "node2");
    assert_eq!(state.hosts.lookup(&mac("01")).unwrap().name, "node2");
    let gone = WatchEvent::Delete(boothost("node2", "aa:bb:cc:dd:ee:01"));
    assert!(watch.on_event(gone, &mut index, &mut state).is_none());
}

#[test]
fn a_pass_skips_no_object_when_another_goes_away() {
    let mut state = app(with_portal());
    let mut index = BootHostIndex::default();
    for n in ["01", "02", "03"] {
        let object = boothost(&format!("node{n}"), &format!("aa:bb:cc:dd:ee:{n}"));
        index.apply(object, &mut state.hosts);
    }
    let mut pass = StatusPass::new("T0".into());
    let first = pass.advance(&index, &state).unwrap();
    assert_eq!(first.name, "node01");
    index.delete(&boothost("node01", "aa:bb:cc:dd:ee:01"), &mut state.hosts);
    pass.settle(first, true, &mut index, &mut state.metrics);
    assert!(!index.contains(&mac("01")));
    let second = pass.advance(&index, &state).unwrap();
    assert_eq!(second.name, "node02");
    index.apply(boothost("early", "aa:bb:cc:dd:ee:00"), &mut state.hosts);
    pass.settle(second, true, &mut index, &mut state.metrics);
    let third = pass.advance(&index, &state).unwrap();
    assert_eq!(third.name, "node03");
    pass.settle(third, true, &mut index, &mut state.metrics);
    assert!(pass.advance(&index, &state).is_none());

    let mut again = StatusPass::new("T1".into());
    let left = again.advance(&index, &state).unwrap();
    assert_eq!(left.name, "early");
    again.settle(left, true, &mut index, &mut state.metrics);
    assert!(again.advance(&index, &state).is_none());
}

#[test]
fn a_pass_writes_a_bounded_number_of_statuses() {
    let mut state = app(with_portal());
    let mut index = BootHostIndex::default();
    for i in 0..MAX_PATCHES_PER_PASS + 10 {
        let object = boothost(&format!("n{i}"), &format!("aa:bb:cc:00:{:02x}:{:02x}", i / 256, i % 256));
        index.apply(object, &mut state.hosts);
    }
    let mut writes = Vec::new();
    for now in ["T0", "T1", "T2"] {
        let mut pass = StatusPass::new(now.into());
        while let Some(patch) = pass.advance(&index, &state) {
            pass.settle(patch, true, &mut index, &mut state.metrics);
        }
        writes.push(pass.written);
    }
    assert_eq!(writes, vec![200, 10, 0]);
}

#[test]
fn a_refused_status_is_counted() {
    let mut state = app(with_portal());
    let mut index = BootHostIndex::default();
    index.apply(boothost("node1", "aa:bb:cc:dd:ee:01"), &mut state.hosts);
    let mut pass = StatusPass::new("T0".into());
    let patch = pass.advance(&index, &state).unwrap();
    pass.settle(patch, false, &mut index, &mut state.metrics);
    assert_eq!(state.metrics.status_write_failures, 1);
    let mut again = StatusPass::new("T1".into());
    assert!(again.advance(&index, &state).is_some());
}

// --- Pallets ---

fn layer(media: &str, role: Option<&str>) -> Descriptor {
    let mut annotations = Vec::new();
    if let Some(role) = role {
        annotations.push(Annotation {
            key: ANNOTATION_ROLE.to_owned(),
            value: role.to_owned(),
        });
    }
    Descriptor {
        media_type: media.to_owned(),
        digest: "sha256:00".into(),
        size: 0,
        artifact_type: None,
        annotations,
    }
}

#[test]
fn role_comes_from_the_annotation_first() {
    let l = layer("application/vnd.stormblock.member.kernel", Some("initramfs"));
    assert_eq!(member_role(&l).as_deref(), Some("initramfs"));
}

#[test]
fn role_falls_back_to_the_media_type_suffix() {
    let l = layer("application/vnd.stormblock.member.kernel", None);
    assert_eq!(member_role(&l).as_deref(), Some("kernel"));
    let mut named = layer("application/vnd.stormblock.member.kernel", None);
    named.annotations.push(Annotation {
        key: ANNOTATION_NAME.into(),
        value: "cmdline".into(),
    });
    assert_eq!(member_role(&named).as_deref(), Some("cmdline"));
}

#[test]
fn unknown_media_types_have_no_role() {
    let l = layer("application/octet-stream", None);
    assert_eq!(member_role(&l), None);
}

#[test]
fn only_boot_relevant_roles_map_to_filenames() {
    assert_eq!(filename_for_role("kernel"), Some("vmlinuz"));
    assert_eq!(filename_for_role("initramfs"), Some("initramfs.img"));
    assert_eq!(filename_for_role("cmdline"), Some("cmdline"));
    assert_eq!(filename_for_role("rootfs"), None);
    assert_eq!(filename_for_role("bootconfig"), Some("cmdline"));
}

#[test]
fn default_status_is_not_ready() {
    let status = AssetStatus::default();
    assert!(!status.ready);
    assert!(!status.signature_verified);
    assert!(status.digest.is_none());
}

fn manifest(layers: Vec<Descriptor>) -> Manifest {
    Manifest {
        artifact_type: Some(PALLET_ARTIFACT_TYPE.into()),
        config: layer("x", None),
        layers,
        annotations: vec![Annotation {
            key: "org.stormblock.pallet.version".into(),
            value: "10.20".into(),
        }],
    }
}

fn spec(members: Vec<MemberDef>) -> PalletSpec {
    PalletSpec {
        name: "boot".into(),
        kind: "pallet".into(),
        version_label: "1".into(),
        members,
    }
}

fn inline(role: &str, text: &str) -> MemberDef {
    MemberDef {
        name: "n".into(),
        role: role.into(),
        source: "inline".into(),
        digest: None,
        text: Some(text.into()),
    }
}

fn source(require_signature: bool) -> PalletSource {
    PalletSource::new(
        "http://r:5100/".into(),
        "stormcos/boot".into(),
        "latest".into(),
        "/cache".into(),
        vec!["key".into()],
        require_signature,
    )
}

#[test]
fn members_are_planned_one_by_one() {
    let m = manifest(vec![
        layer("application/vnd.stormblock.member.kernel", None),
        layer("application/octet-stream", None),
        layer("application/vnd.stormblock.member.rootfs", None),
        layer("application/vnd.stormblock.member.initramfs", None),
        layer("application/vnd.stormblock.member.cmdline", None),
    ]);
    let s = spec(vec![inline("cmdline", "quiet")]);
    assert_eq!(inline_text(&s, "cmdline").as_deref(), Some("quiet"));
    assert_eq!(inline_text(&s, "n").as_deref(), Some("quiet"));
    assert_eq!(inline_text(&s, "kernel"), None);
    let steps = plan_members(&m, &s);
    assert_eq!(steps.len(), 3);
    assert!(matches!(
        &steps[0],
        MemberStep::Fetch { filename: "vmlinuz", layer: 0, role } if role == "kernel"
    ));
    assert!(matches!(
        &steps[1],
        MemberStep::Fetch { filename: "initramfs.img", layer: 3, .. }
    ));
    assert!(matches!(
        &steps[2],
        MemberStep::Inline { filename: "cmdline", text } if text == "quiet"
    ));
    let done = source(true).complete(&m, "sha256:d", true, &steps).unwrap();
    assert!(done.changed && done.status.ready && done.status.signature_verified);
    assert_eq!(done.status.version.as_deref(), Some("10.20"));
    assert_eq!(done.status.detail, "stormcos/boot:latest");
}

#[test]
fn a_pallet_without_a_kernel_is_not_served() {
    let m = manifest(vec![layer("application/vnd.stormblock.member.initramfs", None)]);
    let s = spec(vec![]);
    let steps = plan_members(&m, &s);
    let why = match source(true).complete(&m, "sha256:d", true, &steps) {
        Ok(_) => panic!("expected a refusal"),
        Err(why) => why,
    };
    assert_eq!(
        why,
        "boot pallet sha256:d is missing a kernel or initramfs (served: [\"initramfs.img\"])"
    );
}

#[test]
fn members_must_be_what_their_digests_name() {
    let digest = digest_of(b"abc");
    assert_eq!(
        digest,
        "sha256:ba7816bf8f01cfea414140de5dae2223b00361a396177a9cb410ff61f20015ad"
    );
    let mut l = layer("x", None);
    l.digest = digest.to_uppercase().replace("SHA256", "sha256");
    l.size = 3;
    assert_eq!(check_member(&l, "vmlinuz", b"abc"), Ok(()));
    assert!(check_member(&l, "vmlinuz", b"abd")
        .unwrap_err()
        .starts_with("member vmlinuz digest mismatch: expected sha256:BA78"));
    l.size = 4;
    assert_eq!(
        check_member(&l, "vmlinuz", b"abc"),
        Err("member vmlinuz size mismatch: manifest says 4, got 3".into())
    );
    assert_eq!(
        judge_member(&l, "vmlinuz", "sha256:other", 4),
        Err(format!(
            "member vmlinuz digest mismatch: expected {}, got sha256:other",
            l.digest
        ))
    );
}

#[test]
fn a_manifest_is_pinned_by_what_it_hashes_to() {
    let digest = digest_of(b"abc");
    assert_eq!(pin(None, b"abc"), Ok(digest.clone()));
    assert_eq!(pin(Some(digest.clone()), b"abc"), Ok(digest.clone()));
    assert_eq!(
        pin(Some("sha256:00".into()), b"abc"),
        Err(format!(
            "manifest digest mismatch: registry said sha256:00, bytes hash to {digest}"
        ))
    );
}

#[test]
fn only_signed_pallets_are_accepted() {
    let m: Result<Manifest, String> = Ok(manifest(vec![]));
    assert_eq!(source(true).accept("sha256:d", true, &m), Ok(()));
    assert_eq!(source(false).accept("sha256:d", false, &m), Ok(()));
    assert_eq!(
        source(true).accept("sha256:d", false, &m),
        Err("refusing to serve pallet sha256:d: no trusted signature (set --allow-unsigned only where that is genuinely acceptable)".into())
    );
    let mut other = manifest(vec![]);
    other.artifact_type = Some("odd".into());
    assert_eq!(
        source(true).accept("sha256:d", true, &Ok(other)),
        Err("stormcos/boot:latest is not a pallet (artifactType Some(\"odd\"), config x)".into())
    );
    let mut by_config = manifest(vec![]);
    by_config.artifact_type = None;
    by_config.config.media_type = PALLET_CONFIG_TYPE.into();
    assert_eq!(source(true).accept("sha256:d", true, &Ok(by_config)), Ok(()));
}

#[test]
fn the_pallet_already_served_is_left_alone() {
    let m: Result<Manifest, String> = Ok(manifest(vec![]));
    let s = source(true);
    assert!(s.unchanged(None, true, "sha256:d", &m).is_none());
    assert!(s.unchanged(Some("sha256:e"), true, "sha256:d", &m).is_none());
    let same = s.unchanged(Some("sha256:d"), true, "sha256:d", &m).unwrap().unwrap();
    assert!(!same.changed && same.status.ready && same.status.signature_verified);
    // One that was taken unsigned stays unsigned.
    let same = s.unchanged(Some("sha256:d"), false, "sha256:d", &m).unwrap().unwrap();
    assert!(!same.changed && !same.status.signature_verified);
    assert_eq!(s.manifest_url(), "http://r:5100/v2/stormcos/boot/manifests/latest");
    assert_eq!(s.object_url("sha256:d", true), "http://r:5100/v2/stormcos/boot/manifests/sha256:d");
    assert_eq!(s.object_url("sha256:d", false), "http://r:5100/v2/stormcos/boot/blobs/sha256:d");
    assert_eq!(
        s.referrers_url("sha256:d"),
        "http://r:5100/v2/stormcos/boot/referrers/sha256:d?artifactType=application/vnd.stormblock.signature.v1+json"
    );
}

#[test]
fn a_directory_serves_what_it_holds() {
    assert_eq!(directory_status("/srv", true).detail, "directory /srv");
    assert!(directory_status("/srv", true).ready);
    assert_eq!(
        directory_status("/srv", false).detail,
        "no kernel or initramfs in /srv"
    );
}

// --- Signatures ---

const STATEMENT_LEN: usize = 64;

struct Signed {
    doc: SignatureDoc,
    subject: String,
    public_key: String,
}

fn sign_subject(seed: u8, subject_raw: [u8; 32], kind: u8, signed_at: u64) -> Signed {
    let key = SigningKey::from_bytes(&[seed; 32]);
    let public_key = hex::encode(key.verifying_key().to_bytes());

    let mut stmt = [0u8; STATEMENT_LEN];
    stmt[..8].copy_from_slice(b"STORMSIG");
    stmt[8] = 1;
    stmt[9] = kind;
    stmt[16..48].copy_from_slice(&subject_raw);
    stmt[48..56].copy_from_slice(&signed_at.to_le_bytes());

    let signature = key.sign(&stmt);
    let subject = hex::encode(subject_raw);

    Signed {
        doc: SignatureDoc {
            subject: format!("sha256:{subject}"),
            subject_kind: "pallet".into(),
            key_id: public_key[..16].to_owned(),
            public_key: public_key.clone(),
            signature: hex::encode(signature.to_bytes()),
            signed_at,
            statement: hex::encode(stmt),
        },
        subject,
        public_key,
    }
}

#[test]
fn verifies_a_well_formed_signature() {
    let s = sign_subject(7, [0xab; 32], 1, 1_756_000_000);
    let statement = verify(&s.doc, &s.subject, &[s.public_key.clone()]).unwrap();

    assert_eq!(statement.subject_hex, s.subject);
    assert_eq!(statement.subject_kind, SubjectKind::Pallet);
    assert_eq!(statement.signed_at, 1_756_000_000);
}

#[test]
fn accepts_the_subject_with_or_without_the_sha256_prefix() {
    let s = sign_subject(7, [0xcd; 32], 1, 1);
    assert!(verify(&s.doc, &s.subject, &[s.public_key.clone()]).is_ok());
    assert!(verify(&s.doc, &format!("sha256:{}", s.subject), &[s.public_key]).is_ok());
}

#[test]
fn trusts_by_key_id_as_well_as_full_key() {
    let s = sign_subject(9, [0x11; 32], 1, 1);
    let key_id = s.doc.key_id.clone();
    assert!(verify(&s.doc, &s.subject, &[key_id]).is_ok());
}

#[test]
fn refuses_an_untrusted_key_before_anything_else() {
    let s = sign_subject(7, [0xab; 32], 1, 1);
    let err = verify(&s.doc, &s.subject, &["deadbeef".into()]).unwrap_err();
    assert!(matches!(err, VerifyError::Untrusted { .. }));
}

#[test]
fn refuses_a_valid_signature_for_a_different_pallet() {
    let s = sign_subject(7, [0xab; 32], 1, 1);
    let other = hex::encode([0x22u8; 32]);
    let err = verify(&s.doc, &other, &[s.public_key]).unwrap_err();
    assert!(
        matches!(err, VerifyError::SubjectMismatch { .. }),
        "{}",
        err.message()
    );
}

#[test]
fn refuses_a_tampered_signature() {
    let mut s = sign_subject(7, [0xab; 32], 1, 1);
    s.doc.signature.replace_range(0..2, "00");
    let err = verify(&s.doc, &s.subject, &[s.public_key]).unwrap_err();
    assert!(
        matches!(err, VerifyError::Invalid | VerifyError::BadSignature),
        "{}",
        err.message()
    );
}

#[test]
fn refuses_a_statement_signed_by_another_key() {
    let mine = sign_subject(7, [0xab; 32], 1, 1);
    let theirs = sign_subject(8, [0xab; 32], 1, 1);
    let mut doc = mine.doc.clone();
    doc.signature = theirs.doc.signature;
    let err = verify(&doc, &mine.subject, &[mine.public_key]).unwrap_err();
    assert_eq!(err, VerifyError::Invalid);
}

#[test]
fn refuses_unknown_statement_versions() {
    let mut stmt = [0u8; STATEMENT_LEN];
    stmt[..8].copy_from_slice(b"STORMSIG");
    stmt[8] = 2;
    assert_eq!(
        parse_statement(&stmt),
        Err(VerifyError::UnsupportedVersion(2))
    );
}

#[test]
fn refuses_bad_magic_and_bad_length() {
    assert_eq!(parse_statement(&[0u8; 64]), Err(VerifyError::BadMagic));
    assert_eq!(
        parse_statement(&[0u8; 32]),
        Err(VerifyError::StatementLength(32))
    );
}

#[test]
fn parses_the_documented_byte_layout() {
    let s = sign_subject(3, [0xfe; 32], 2, 0x0102_0304_0506_0708);
    let bytes = hex::decode(&s.doc.statement).unwrap();

    assert_eq!(&bytes[..8], b"STORMSIG");
    assert_eq!(bytes[8], 1);
    assert_eq!(bytes[9], 2);
    assert!(bytes[10..16].iter().all(|b| *b == 0), "reserved must be zero");
    assert_eq!(&bytes[16..48], &[0xfe; 32]);
    assert_eq!(&bytes[48..56], &0x0102_0304_0506_0708u64.to_le_bytes());
    assert!(bytes[56..64].iter().all(|b| *b == 0), "reserved must be zero");

    let parsed = parse_statement(&bytes).unwrap();
    assert_eq!(parsed.subject_kind, SubjectKind::Stack);
    assert_eq!(parsed.signed_at, 0x0102_0304_0506_0708);
}

#[test]
fn every_fault_of_a_document_is_named() {
    let s = sign_subject(7, [0xab; 32], 1, 1);
    let key = [s.public_key.clone()];
    let with = |change: &dyn Fn(&mut SignatureDoc)| {
        let mut doc = s.doc.clone();
        change(&mut doc);
        verify(&doc, &s.subject, &key).unwrap_err().message()
    };
    assert_eq!(with(&|d| d.statement = "zz".into()), "statement is not valid hex");
    assert_eq!(with(&|d| d.statement = "00".into()), "statement is 1 bytes, expected 64");
    assert_eq!(
        with(&|d| d.statement = "00".repeat(64)),
        "statement magic is not STORMSIG"
    );
    assert_eq!(with(&|d| d.signature = "zz".into()), "signature is not valid hex");
    assert_eq!(with(&|d| d.signature = "00".into()), "signature is not 64 bytes");
    // A key that is trusted but is no key at all.
    let mut doc = s.doc.clone();
    doc.public_key = "00".into();
    let err = verify(&doc, &s.subject, &["00".into()]).unwrap_err();
    assert_eq!(err.message(), "public key is not a valid Ed25519 key");
    let mut doc = s.doc.clone();
    doc.public_key = "zz".into();
    let err = verify(&doc, &s.subject, &["zz".into()]).unwrap_err();
    assert_eq!(err.message(), "public_key is not valid hex");
    // Thirty-two bytes that are no point of the curve.
    let mut doc = s.doc.clone();
    doc.public_key = format!("02{}", "00".repeat(31));
    let err = verify(&doc, &s.subject, &[doc.public_key.clone()]).unwrap_err();
    assert_eq!(err, VerifyError::BadPublicKey);
}

#[test]
fn a_claimed_id_makes_no_key_trusted() {
    let mine = sign_subject(7, [0xab; 32], 1, 1);
    let theirs = sign_subject(8, [0xab; 32], 1, 1);
    // Their key and their signature, under the id of mine.
    let mut doc = theirs.doc.clone();
    doc.key_id = mine.doc.key_id.clone();
    for trusted in [mine.doc.key_id.clone(), mine.public_key.clone()] {
        assert_eq!(
            verify(&doc, &mine.subject, &[trusted]),
            Err(VerifyError::Untrusted { key_id: mine.doc.key_id.clone() })
        );
    }
    // Mine under a wrong id still verifies.
    let mut doc = mine.doc.clone();
    doc.key_id = "0000".into();
    assert!(verify(&doc, &mine.subject, &[mine.doc.key_id.clone()]).is_ok());
}

#[test]
fn what_ed25519_says_decides() {
    let s = sign_subject(7, [0xab; 32], 1, 1);
    let statement = parse_statement(&hex::decode(&s.doc.statement).unwrap()).unwrap();
    assert_eq!(
        conclude(statement.clone(), Ok([0; 64]), true, true),
        Ok(statement.clone())
    );
    assert_eq!(
        conclude(statement.clone(), Ok([0; 64]), true, false),
        Err(VerifyError::Invalid)
    );
    assert_eq!(
        conclude(statement.clone(), Ok([0; 64]), false, true),
        Err(VerifyError::BadPublicKey)
    );
    assert_eq!(
        conclude(statement, Err(VerifyError::BadSignature), true, true),
        Err(VerifyError::BadSignature)
    );
}

#[test]
fn a_search_goes_on_until_a_signature_verifies() {
    let s = sign_subject(7, [0xab; 32], 1, 1);
    let keys = [s.public_key.clone()];
    let mut search = SignatureSearch::new(&s.subject);
    assert!(search.consider(Candidate::BadManifest("x".into()), &keys).is_none());
    assert_eq!(
        search.consider(Candidate::Document(s.doc.clone()), &keys),
        Some(Ok(true))
    );

    let mut search = SignatureSearch::new(&s.subject);
    assert!(search.consider(Candidate::Document(s.doc), &["other".into()]).is_none());
    assert!(search.consider(Candidate::BadDocument("y".into()), &keys).is_none());
    assert_eq!(
        search.finish(),
        Err(format!(
            "no acceptable signature for {}: signature document unparseable: y",
            s.subject
        ))
    );

    let mut search = SignatureSearch::new("d");
    assert_eq!(
        search.consider(Candidate::Unfetched("GET x".into()), &keys),
        Some(Err("GET x".into()))
    );
    assert_eq!(SignatureSearch::new("d").finish(), Ok(false));
}

#[test]
fn only_signatures_are_considered() {
    let mut signed = layer("x", None);
    signed.artifact_type = Some(SIGNATURE_ARTIFACT_TYPE.into());
    signed.digest = "sha256:s".into();
    let index = Index {
        manifests: vec![layer("x", None), signed],
    };
    assert_eq!(signature_referrers(&index), vec!["sha256:s"]);

    let none: Vec<String> = Vec::new();
    let keyed = PalletSource::new(
        "http://r".into(), "repo".into(), "latest".into(), "/c".into(), vec!["k".into()], true,
    );
    assert!(keyed.seeks_signature());
    assert_eq!(keyed.candidates(Some(&index)), vec!["sha256:s"]);
    assert_eq!(keyed.candidates(None), none);
    let keyless = PalletSource::new(
        "http://r".into(), "repo".into(), "latest".into(), "/c".into(), vec![], false,
    );
    assert!(!keyless.seeks_signature());
    assert_eq!(keyless.candidates(Some(&index)), none);
}
