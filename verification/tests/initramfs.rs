use stormnetboot::init::cmdline::BootParams;
use stormnetboot::init::engine::{
    boot_claim, boot_claim_arguments, claimed_slabs, device_missing, host_environment, is_slab,
    is_slab_line, resolve_slabs, start_engine, wait_for_device, Appliance, EngineOptions, ExportPlan, Wait,
};
use stormnetboot::init::media::{
    install, on_install, on_mount, on_payload, on_stamp, read_pallet, refresh, run,
    short, FileStep, Outcome, Stage, StampFile,
};
use stormnetboot::init::mounts::{
    apply_exports, choose_init, choose_shell, first_ethernet, held, is_mounted, mount_root,
    network_said, required_modules, stamp, write_identity, Export, RootStep,
};
use stormnetboot::init::report::{build_body, escape, split_url, Posting, Reporter};
use stormnetboot::init::steps::{self, BootStep};

fn text(s: &str) -> StampFile {
    StampFile::Text(s.into())
}

#[test]
fn reads_pallet_ignoring_comments_and_blanks() {
    let file = text("# a comment\n\nkver=6.17.1\npallet=sha256:abc123\nbuilt=now\n");
    assert_eq!(read_pallet(&file).as_deref(), Some("sha256:abc123"));
}

#[test]
fn missing_or_empty_pallet_reads_as_none() {
    assert_eq!(read_pallet(&text("kver=1\n")), None);
    assert_eq!(read_pallet(&text("pallet=\n")), None);
    assert_eq!(read_pallet(&StampFile::Missing), None);
    assert_eq!(read_pallet(&StampFile::Unreadable), None);
}

#[test]
fn no_media_device_disables_the_pass() {
    let params = BootParams::parse("rd.stormblock.portal=h");
    assert_eq!(run(&params), Stage::Finished(Outcome::Disabled));
}

#[test]
fn a_golden_without_a_payload_is_skipped_not_failed() {
    let params = BootParams::parse("rd.stormnetboot.media=/dev/sda1");
    let stage = run(&params);
    assert_eq!(
        stage,
        Stage::Payload {
            device: "/dev/sda1".into()
        }
    );
    let outcome = on_payload("/dev/sda1".into(), false, &StampFile::Missing);
    assert!(
        matches!(outcome, Stage::Finished(Outcome::Skipped(ref why)) if why.contains("carries no")),
        "expected a skip, got {outcome:?}"
    );
}

#[test]
fn an_esp_without_our_stamp_is_refused() {
    assert_eq!(read_pallet(&StampFile::Missing), None);
    assert_eq!(
        on_stamp("/dev/sda1".into(), "sha256:b".into(), &StampFile::Missing),
        Stage::Finished(Outcome::Skipped(
            "/dev/sda1 carries no stormnetboot/media.conf; not stormnetboot media, refusing to write"
                .into()
        ))
    );
}

#[test]
fn short_trims_the_prefix_and_the_tail() {
    assert_eq!(short("sha256:0123456789abcdef0123"), "0123456789ab…");
    assert_eq!(short("short"), "short");
    assert_eq!(short("sha256:0123456789ab"), "0123456789ab");
    assert_eq!(short("0123456789é0"), "0123456789é…");
    // A character that stands across the cut is left out whole.
    assert_eq!(short("01234567890é0"), "01234567890…");
    assert_eq!(short("0123456789\u{10348}"), "0123456789…");
}

#[test]
fn a_whole_pass_over_the_media() {
    let mounting = on_payload("/dev/sda1".into(), true, &text("pallet = sha256:b \n"));
    assert_eq!(
        mounting,
        Stage::Mount {
            device: "/dev/sda1".into(),
            wanted: "sha256:b".into()
        }
    );
    assert_eq!(
        on_payload("/dev/sda1".into(), true, &text("# nothing\n")),
        Stage::Finished(Outcome::Skipped(
            "usr/lib/stormcos/boot-media/media.conf names no pallet digest".into()
        ))
    );
    assert_eq!(
        on_payload("/dev/sda1".into(), true, &StampFile::Missing),
        Stage::Finished(Outcome::Skipped(
            "golden carries no usr/lib/stormcos/boot-media payload".into()
        ))
    );
    assert_eq!(
        on_mount("/dev/sda1".into(), "sha256:b".into(), false),
        Stage::Finished(Outcome::Skipped(
            "could not mount /dev/sda1 as vfat on /run/esp".into()
        ))
    );
    assert_eq!(
        on_mount("/dev/sda1".into(), "sha256:b".into(), true),
        Stage::Stamp {
            device: "/dev/sda1".into(),
            wanted: "sha256:b".into()
        }
    );
    assert_eq!(
        on_stamp("/dev/sda1".into(), "sha256:b".into(), &text("pallet=sha256:b")),
        Stage::Finished(Outcome::Current("sha256:b".into()))
    );
    assert_eq!(
        on_stamp("/dev/sda1".into(), "sha256:b".into(), &StampFile::Unreadable),
        Stage::Install {
            device: "/dev/sda1".into(),
            from: "unknown".into(),
            to: "sha256:b".into()
        }
    );
    assert_eq!(
        on_install("/dev/sda1".into(), "a".into(), "b".into(), Some("disk full")),
        Stage::Finished(Outcome::Skipped(
            "rewriting EFI/BOOT/BOOTX64.EFI on /dev/sda1 failed: disk full".into()
        ))
    );
    assert_eq!(
        on_install("/dev/sda1".into(), "a".into(), "b".into(), None),
        Stage::Finished(Outcome::Updated {
            from: "a".into(),
            to: "b".into()
        })
    );
}

#[test]
fn an_install_puts_the_stamp_last_and_it_reads_back() {
    let steps = install("/sysroot/usr/lib/stormcos/boot-media/boot.efi", "sha256:b");
    assert_eq!(steps.len(), 8);
    assert_eq!(
        steps[2],
        FileStep::Copy {
            from: "/sysroot/usr/lib/stormcos/boot-media/boot.efi".into(),
            to: "/run/esp/EFI/BOOT/BOOTX64.EFI.new".into()
        }
    );
    assert_eq!(
        steps[4],
        FileStep::Rename {
            from: "/run/esp/EFI/BOOT/BOOTX64.EFI.new".into(),
            to: "/run/esp/EFI/BOOT/BOOTX64.EFI".into()
        }
    );
    let FileStep::Write { path, text: stamp } = &steps[5] else {
        panic!("expected the stamp, got {:?}", steps[5]);
    };
    assert_eq!(path, "/run/esp/stormnetboot/media.conf");
    assert_eq!(
        stamp,
        "# written by stormnetboot-init; the digest of the UKI in EFI/BOOT/BOOTX64.EFI\npallet=sha256:b\n"
    );
    assert_eq!(read_pallet(&text(stamp)).as_deref(), Some("sha256:b"));
    assert_eq!(steps[7], FileStep::FlushAll);
}

#[test]
fn what_a_pass_decided_is_said() {
    let reporter = Reporter::new(Some("http://boot".into()), Some("m".into()));
    let said = refresh(&Outcome::Disabled, &reporter);
    assert_eq!((said.line, said.report), (None, Posting::Silent));
    let said = refresh(&Outcome::Current("sha256:abc".into()), &reporter);
    assert_eq!(said.line.as_deref(), Some("boot media current (abc)"));
    let said = refresh(&Outcome::Skipped("why".into()), &reporter);
    assert_eq!(said.line.as_deref(), Some("boot media not refreshed: why"));
    assert_eq!(said.report, Posting::Silent);
    let said = refresh(
        &Outcome::Updated {
            from: "a".into(),
            to: "sha256:0123456789abcdef".into(),
        },
        &reporter,
    );
    assert_eq!(
        said.line.as_deref(),
        Some("boot media updated a -> 0123456789ab…; next boot runs it")
    );
    let Posting::Send(out) = said.report else {
        panic!("expected a report");
    };
    assert!(out.text.ends_with(
        "{\"mac\":\"m\",\"phase\":\"media-updated\",\"detail\":\"a -> 0123456789ab…\"}"
    ));
}

#[test]
fn builds_json_the_server_accepts() {
    let body = build_body("aa:bb:cc:dd:ee:ff", "running", None);
    assert_eq!(body, r#"{"mac":"aa:bb:cc:dd:ee:ff","phase":"running"}"#);

    let body = build_body("aa:bb:cc:dd:ee:ff", "failed", Some("attach timed out"));
    assert_eq!(
        body,
        r#"{"mac":"aa:bb:cc:dd:ee:ff","phase":"failed","detail":"attach timed out"}"#
    );
}

#[test]
fn escapes_detail_so_a_kernel_message_cannot_break_the_json() {
    let body = build_body("m", "failed", Some("said \"no\"\nand\\stopped"));
    assert!(body.contains(r#"said \"no\"\nand\\stopped"#));
    assert!(!body[1..].contains('\n'));
}

#[test]
fn escaped_text_reads_back_but_for_odd_controls() {
    assert_eq!(escape("\r\t\u{1}x"), "\\r\\t x");
    let body = build_body("m", "p", Some("a\u{1}\"b\n\té"));
    let value: serde_json::Value = serde_json::from_str(&body).unwrap();
    assert_eq!(value["detail"], "a \"b\n\té");
}

#[test]
fn splits_urls_with_and_without_ports() {
    assert_eq!(
        split_url("http://boot.storm.lo:8080").unwrap(),
        ("boot.storm.lo:8080".into(), "boot.storm.lo:8080".into())
    );
    assert_eq!(
        split_url("http://boot.storm.lo/x").unwrap(),
        ("boot.storm.lo:80".into(), "boot.storm.lo".into())
    );
}

#[test]
fn rejects_schemes_it_cannot_speak() {
    assert!(split_url("https://boot.storm.lo").is_err());
    assert!(split_url("boot.storm.lo:8080").is_err());
    assert_eq!(split_url("http:///x"), Err("no host in http:///x".into()));
    assert_eq!(
        split_url("ftp://x"),
        Err("only http:// is supported here: ftp://x".into())
    );
}

#[test]
fn a_reporter_with_no_url_is_silently_inert() {
    let r = Reporter::new(None, Some("aa:bb:cc:dd:ee:ff".into()));
    assert_eq!(r.phase("running", None), Posting::Silent);
    assert!(r.try_post("running", None).is_ok());
    let r = Reporter::new(Some("http://boot".into()), None);
    assert_eq!(r.failed("x"), Posting::Silent);
}

#[test]
fn a_failure_is_posted_and_a_bad_url_only_complained_about() {
    let r = Reporter::new(Some("http://boot/x".into()), Some("m".into()));
    let Posting::Send(out) = r.failed("no \"root\"") else {
        panic!("expected a report");
    };
    assert_eq!(out.connect, "boot:80");
    let body = r#"{"mac":"m","phase":"failed","detail":"no \"root\""}"#;
    assert_eq!(
        out.text,
        format!(
            "POST /api/v1/report HTTP/1.1\r\nHost: boot\r\nContent-Type: application/json\r\nContent-Length: {}\r\nConnection: close\r\n\r\n{body}",
            body.len()
        )
    );
    let r = Reporter::new(Some("https://boot".into()), Some("m".into()));
    assert_eq!(
        r.phase("running", None),
        Posting::Complain(
            "stormnetboot-init: report running failed: only http:// is supported here: https://boot"
                .into()
        )
    );
}

#[test]
fn required_modules_include_the_ones_nothing_else_loads() {
    assert!(required_modules().contains(&"nvme_tcp"));
    assert!(required_modules().contains(&"ublk_drv"));
    assert_eq!(required_modules().len(), 7);
}

#[test]
fn waiting_for_a_device_that_exists_returns_at_once() {
    assert_eq!(wait_for_device("/proc/self", true, 0, 1000, false), Wait::Ready);
}

#[test]
fn waiting_announces_itself_once_and_ends() {
    assert_eq!(wait_for_device("/dev/x", false, 5000, 60_000, false), Wait::Again(None));
    assert_eq!(
        wait_for_device("/dev/x", false, 5001, 60_000, false),
        Wait::Again(Some("still waiting for /dev/x".into()))
    );
    assert_eq!(wait_for_device("/dev/x", false, 5001, 60_000, true), Wait::Again(None));
    assert_eq!(wait_for_device("/dev/x", true, 60_000, 60_000, true), Wait::Expired);
}

#[test]
fn waiting_for_a_missing_device_names_what_was_there() {
    assert_eq!(
        device_missing(
            "/dev/ublkb0",
            60,
            &vec!["sda".into(), "ublk-control".into(), "ublkb\"1".into()]
        ),
        "/dev/ublkb0 did not appear within 60s; ublk devices present: [\"ublk-control\", \"ublkb\\\"1\"]"
    );
}

#[test]
fn is_a_slab_line_only_on_positive_evidence() {
    assert!(is_slab_line(
        "/dev/sdb: slab 7661cf8b-1a2b-4c3d-9e5f-0a1b2c3d4e5f (role=data, tier=hot)"
    ));
    assert!(!is_slab_line("/dev/sda: not a slab"));
    assert!(!is_slab_line("/dev/sda: cannot open: No medium found"));
    assert!(!is_slab_line(""));
    assert!(!is_slab_line("/dev/sdb: slab 7661cf8b (role=data)"));
    assert!(!is_slab_line("/dev/sdb: slab zzzzzzzz-1a2b-4c3d-9e5f-0a1b2c3d4e5f"));
    assert!(is_slab_line("/dev/sdb: slab 7661cf8b-1a2b-4c3d-9e5f-0a1b2c3d4e5f"));
}

#[test]
fn a_slab_is_one_line_that_says_so() {
    assert!(!is_slab(None));
    assert!(!is_slab(Some("/dev/sda: not a slab\n")));
    assert!(is_slab(Some(
        "warning\n/dev/sdb: slab 7661cf8b-1a2b-4c3d-9e5f-0a1b2c3d4e5f\n"
    )));
}

fn appliance() -> Appliance {
    Appliance {
        boothost: "boot.lo".into(),
        tag: "ABC123".into(),
        namespace: "boothost".into(),
    }
}

#[test]
fn without_an_appliance_slabs_are_as_named() {
    let p = BootParams::parse("rd.stormblock.slab=/dev/sda4 rd.stormblock.data-slab=/dev/sdb1");
    let r = resolve_slabs(&p, None, &vec![false]);
    assert_eq!(r.slabs, Some(vec!["/dev/sda4".into(), "/dev/sdb1".into()]));
    assert!(r.lines.is_empty());
}

#[test]
fn a_named_slab_is_only_a_hint_to_a_machine_with_an_appliance() {
    let p = BootParams::parse(
        "rd.stormblock.slab=/dev/sda,nvme-tcp://x,/dev/sdc rd.stormblock.data-slab=/dev/sdb1",
    );
    let r = resolve_slabs(&p, Some(&appliance()), &vec![false, false, true]);
    assert_eq!(
        r.slabs,
        Some(vec!["nvme-tcp://x".into(), "/dev/sdc".into(), "/dev/sdb1".into()])
    );
    assert_eq!(r.lines, vec!["/dev/sda is not a slab - asking boot.lo instead"]);

    let stray = BootParams::parse("rd.stormblock.slab=/dev/sda rd.stormblock.data-slab=/dev/sdb1");
    let r = resolve_slabs(&stray, Some(&appliance()), &vec![false]);
    assert_eq!(r.slabs, None);
    assert_eq!(
        r.lines,
        vec![
            "/dev/sda is not a slab - asking boot.lo instead",
            "asking boot.lo which image ABC123 boots"
        ]
    );
    assert_eq!(
        claimed_slabs(&stray, "nvme-tcp://y".into()),
        vec!["nvme-tcp://y", "/dev/sdb1"]
    );
}

#[test]
fn a_claim_gives_a_uri_or_says_why_not() {
    let a = appliance();
    assert_eq!(
        boot_claim_arguments(&a),
        vec!["boot-claim", "--boothost", "boot.lo", "--tag", "ABC123"]
    );
    let other = Appliance {
        namespace: "lab".into(),
        ..appliance()
    };
    assert_eq!(
        boot_claim_arguments(&other)[5..],
        ["--namespace".to_owned(), "lab".to_owned()]
    );
    assert_eq!(boot_claim(&a, true, " nvme-tcp://y\n"), Ok("nvme-tcp://y".into()));
    assert_eq!(
        boot_claim(&a, true, " \n"),
        Err("boot-claim for ABC123 returned no attach URI".into())
    );
    assert_eq!(
        boot_claim(&a, false, "nvme-tcp://y"),
        Err("no image is assigned to ABC123 on boot.lo (boot-claim failed)".into())
    );
}

fn exports() -> ExportPlan {
    ExportPlan {
        writable_args: vec!["var".into(), "log".into()],
        mount_map: vec![("/dev/ublkb1".into(), "/srv/a".into())],
        fstab_writable: vec![("/dev/ublkb2".into(), "/var".into())],
        image_store: Some(("/dev/ublkb3".into(), "/images".into())),
    }
}

#[test]
fn the_engine_gets_everything_in_order() {
    let p = BootParams::parse(
        "stormblock.volume=v rd.stormblock.local-disk=/dev/sda rd.stormblock.data-slab=/dev/sdb1",
    );
    let options = EngineOptions {
        meta: Some("m".into()),
        image_store: Some("i".into()),
    };
    let slabs = vec!["s1".to_owned(), "s2".to_owned()];
    let (args, lines) = start_engine(&p, &options, &slabs, &exports()).unwrap();
    assert_eq!(
        args,
        vec![
            "boot-local", "--slab", "s1", "--slab", "s2", "--meta", "m", "--image-store", "i",
            "--volume", "v", "--local-disk", "/dev/sda", "--writable", "var", "--writable", "log"
        ]
    );
    assert_eq!(
        lines,
        vec![
            "starting engine on s1, s2",
            "data slab /dev/sdb1 carries node identity; never formatted"
        ]
    );
    assert_eq!(
        start_engine(&p, &options, &vec![], &exports()),
        Err("no slab to boot from".into())
    );
}

#[test]
fn a_network_boot_goes_step_by_step() {
    let p = BootParams::parse(
        "rd.stormblock.portal=h rd.stormblock.port=4431 rd.stormblock.nqn=nqn.x \
         rd.stormblock.local-disk=/dev/sda",
    );
    let r = steps::run(&p);
    assert_eq!(r[0], BootStep::Stamp("stormnetboot-init starting".into()));
    assert_eq!(r[3], BootStep::BringUpNetwork);
    assert_eq!(
        r[4],
        BootStep::Report {
            phase: "assets-fetched".into(),
            detail: None
        }
    );
    assert_eq!(r[6], BootStep::StartEngine);
    assert_eq!(
        r[r.len() - 2],
        BootStep::Report {
            phase: "assimilating".into(),
            detail: Some("flow-over started".into())
        }
    );
    assert_eq!(r[r.len() - 1], BootStep::SwitchRoot);
    assert_eq!(r.len(), 17);
}

#[test]
fn a_local_boot_does_not_wait_for_the_network() {
    let r = steps::run(&BootParams::parse("rd.stormblock.slab=/dev/sda4"));
    assert!(!r.contains(&BootStep::BringUpNetwork));
    assert_eq!(r[r.len() - 1], BootStep::SwitchRoot);
}

#[test]
fn a_boot_without_a_root_source_stops() {
    let r = steps::run(&BootParams::parse("rd.stormblock.portal=h quiet"));
    assert_eq!(
        r[3],
        BootStep::Fail(
            "no root source on the command line: missing rd.stormblock.port, rd.stormblock.nqn (and no rd.stormblock.slab for a local boot)"
                .into()
        )
    );
    assert_eq!(r.len(), 4);
}

#[test]
fn a_boot_that_would_destroy_identity_stops() {
    let r = steps::run(&BootParams::parse(
        "rd.stormblock.slab=/dev/sda4 rd.stormblock.data-slab=/dev/sda2 rd.stormblock.local-disk=/dev/sda",
    ));
    assert!(matches!(&r[3], BootStep::Fail(why) if why.contains("refusing flow-over")));
    assert!(!r.contains(&BootStep::StartEngine));
}

#[test]
fn console_lines_carry_the_uptime() {
    assert_eq!(stamp(Some("12.34 99.1\n"), "hello"), "[12.34s] stormnetboot-init: hello");
    assert_eq!(stamp(Some(" "), "hello"), "[?s] stormnetboot-init: hello");
    assert_eq!(stamp(None, "hello"), "[?s] stormnetboot-init: hello");
    assert_eq!(held(7, "x"), "stormnetboot-init: HELD (7m): x");
}

#[test]
fn mounts_are_found_by_their_target() {
    let mounts = "proc /proc proc rw 0 0\nx y\n";
    assert!(is_mounted(Some(mounts), "/proc"));
    assert!(is_mounted(Some(mounts), "y"));
    assert!(!is_mounted(Some(mounts), "proc"));
    assert!(!is_mounted(None, "/proc"));
}

#[test]
fn the_first_ethernet_interface_is_chosen() {
    assert_eq!(
        first_ethernet(&vec!["lo".into(), "veth1".into(), "eth1".into(), "eth0".into()]).as_deref(),
        Some("eth0")
    );
    assert_eq!(first_ethernet(&vec!["lo".into()]), None);
}

#[test]
fn the_network_is_spoken_of() {
    let p = BootParams::parse("rd.stormblock.portal=h");
    let said = network_said(&p, "eth0", true);
    assert_eq!(
        (said.warning, said.dhcp.as_str(), said.portal.as_deref()),
        (false, "network up on eth0", Some("portal h is the root source"))
    );
    let said = network_said(&BootParams::default(), "eth0", false);
    assert!(said.warning);
    assert_eq!(
        said.dhcp,
        "DHCP did not complete on eth0; continuing in case ip= configured it"
    );
    assert_eq!(said.portal, None);
}

#[test]
fn root_is_mounted_plainly_or_under_an_overlay() {
    let plain = mount_root(None);
    assert_eq!(plain.len(), 3);
    let RootStep::Mount { tries, failure } = &plain[1] else {
        panic!("expected a mount");
    };
    assert_eq!(tries[0], vec!["-t", "erofs", "-o", "ro", "/dev/ublkb0", "/sysroot"]);
    assert_eq!(tries[1], vec!["-t", "ext4", "/dev/ublkb0", "/sysroot"]);
    assert_eq!(tries[2], vec!["/dev/ublkb0", "/sysroot"]);
    assert_eq!(failure, "could not mount /dev/ublkb0 on /sysroot as erofs, ext4 or auto");

    let tmpfs = mount_root(Some("tmpfs:1g"));
    let RootStep::Mount { tries, failure } = &tmpfs[4] else {
        panic!("expected a mount");
    };
    assert_eq!(
        tries[0],
        vec!["-t", "tmpfs", "-o", "size=1g", "tmpfs", "/run/stormblock/rw"]
    );
    assert_eq!(failure, "overlay: could not mount tmpfs upper (size=1g)");
    let RootStep::Mount { tries, .. } = &mount_root(Some("tmpfs"))[4] else {
        panic!("expected a mount");
    };
    assert_eq!(tries[0][3], "size=512m");

    let device = mount_root(Some("/dev/ublkb5"));
    assert_eq!(device[4], RootStep::WaitFor("/dev/ublkb5".into()));
    assert_eq!(
        device[device.len() - 1],
        RootStep::Say("overlay root: lower=/dev/ublkb0 upper=/dev/ublkb5".into())
    );
}

#[test]
fn exports_are_mounted_or_registered() {
    let list = apply_exports(&exports());
    assert_eq!(
        list,
        vec![
            Export::Mount {
                device: "/dev/ublkb1".into(),
                target: "/sysroot/srv/a".into(),
                mounted: "mounted /dev/ublkb1 -> /srv/a".into(),
                refused: "/dev/ublkb1 would not mount at /srv/a".into(),
                absent: "/dev/ublkb1 never appeared; /srv/a will be empty".into(),
            },
            Export::Register {
                device: "/dev/ublkb2".into(),
                dir: None,
                line: "/dev/ublkb2 /var xfs defaults,x-systemd.makefs,x-systemd.growfs,nofail 0 0"
                    .into(),
                added: "writable /dev/ublkb2 -> /var".into(),
                absent: "/dev/ublkb2 never appeared; /var falls back to overlay".into(),
            },
            Export::Register {
                device: "/dev/ublkb3".into(),
                dir: Some("/sysroot/images".into()),
                line: "/dev/ublkb3 /images erofs ro,nofail 0 0".into(),
                added: "image-store /dev/ublkb3 -> /images (ro)".into(),
                absent: "image-store /dev/ublkb3 never appeared".into(),
            },
        ]
    );
}

#[test]
fn identity_is_carried_into_the_new_root() {
    let files = write_identity(&BootParams::parse("storm.hostname=node7 storm.role=worker"));
    assert_eq!(files.len(), 2);
    assert_eq!(files[0].path, "/sysroot/etc/hostname");
    assert_eq!(files[0].text, "node7\n");
    assert_eq!(files[1].dir.as_deref(), Some("/sysroot/etc/storm"));
    assert_eq!(files[1].path, "/sysroot/etc/storm/role");
    assert_eq!(files[1].text, "worker\n");
    assert!(write_identity(&BootParams::default()).is_empty());
}

#[test]
fn the_first_init_and_shell_found_are_taken() {
    assert_eq!(choose_init(true, true), Ok("/sbin/init"));
    assert_eq!(choose_init(false, true), Ok("/usr/lib/systemd/systemd"));
    assert_eq!(choose_init(false, false), Err("no init found in the new root"));
    assert_eq!(choose_shell(true, true, true), Some("/bin/sh"));
    assert_eq!(choose_shell(false, true, true), Some("/bin/busybox"));
    assert_eq!(choose_shell(false, false, true), Some("/bin/ash"));
    assert_eq!(choose_shell(false, false, false), None);
}

#[test]
fn the_engine_connects_as_the_host_it_is_told() {
    assert_eq!(
        host_environment(Some("nqn.2026-01.io.storm:host")),
        vec![("STORMBLOCK_HOST_NQN".to_owned(), "nqn.2026-01.io.storm:host".to_owned())]
    );
    assert!(host_environment(None).is_empty());
}
