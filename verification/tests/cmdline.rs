use stormnetboot::init::cmdline::{device_base, BootParams};

const FULL: &str = "BOOT_IMAGE=/vmlinuz rd.stormblock.portal=192.168.8.20 \
    rd.stormblock.port=4431 rd.stormblock.nqn=nqn.2026-08.lo.gt:img-abc-c1 \
    rd.stormblock.nsid=1 stormblock.volume=clone-stormcos-18f3 \
    rd.stormblock.local-disk=/dev/sda storm.hostname=node7 storm.role=worker \
    storm.report=http://boot.storm.lo:8080 root=/dev/ublkb0 console=ttyS0";

#[test]
fn parses_a_full_netboot_cmdline() {
    let p = BootParams::parse(FULL);
    assert_eq!(p.portal.as_deref(), Some("192.168.8.20"));
    assert_eq!(p.port, Some(4431));
    assert_eq!(p.nqn.as_deref(), Some("nqn.2026-08.lo.gt:img-abc-c1"));
    assert_eq!(p.nsid, Some(1));
    assert_eq!(p.volume.as_deref(), Some("clone-stormcos-18f3"));
    assert_eq!(p.local_disk.as_deref(), Some("/dev/sda"));
    assert_eq!(p.hostname.as_deref(), Some("node7"));
    assert_eq!(p.role.as_deref(), Some("worker"));
    assert!(p.is_network_boot());
}

#[test]
fn builds_the_uri_stormblock_accepts() {
    let p = BootParams::parse(FULL);
    assert_eq!(
        p.nvme_uri().unwrap(),
        "nvme-tcp://192.168.8.20:4431/nqn.2026-08.lo.gt:img-abc-c1?nsid=1"
    );
}

#[test]
fn nsid_defaults_to_one_but_the_port_never_defaults() {
    let p = BootParams::parse(
        "rd.stormblock.portal=h rd.stormblock.port=4420 rd.stormblock.nqn=nqn.x",
    );
    assert_eq!(p.nvme_uri().unwrap(), "nvme-tcp://h:4420/nqn.x?nsid=1");

    let p = BootParams::parse("rd.stormblock.portal=h rd.stormblock.nqn=nqn.x");
    assert!(p.nvme_uri().is_none());
    assert_eq!(p.missing(), vec!["rd.stormblock.port"]);
}

#[test]
fn volume_is_spelled_without_the_rd_prefix() {
    let p = BootParams::parse("rd.stormblock.volume=wrong stormblock.volume=right");
    assert_eq!(p.volume.as_deref(), Some("right"));
}

#[test]
fn bootif_is_normalised_to_a_plain_mac() {
    let p = BootParams::parse("BOOTIF=01-AA-BB-CC-DD-EE-FF");
    assert_eq!(p.mac.as_deref(), Some("aa:bb:cc:dd:ee:ff"));
}

#[test]
fn a_local_slab_boot_is_not_a_network_boot() {
    let p = BootParams::parse("rd.stormblock.slab=/dev/sda4 stormblock.volume=stormpump");
    assert!(!p.is_network_boot());
    assert_eq!(p.slabs, vec!["/dev/sda4"]);
}

#[test]
fn empty_values_and_bare_tokens_are_ignored() {
    let p = BootParams::parse("quiet rd.stormblock.portal= ro rd.stormblock.port=notanumber");
    assert!(p.portal.is_none());
    assert!(p.port.is_none());
    assert_eq!(p.missing().len(), 3);
}

#[test]
fn slab_accepts_a_comma_separated_list() {
    let p = BootParams::parse("rd.stormblock.slab=/dev/sda4,/dev/sda5");
    assert_eq!(p.slabs, vec!["/dev/sda4", "/dev/sda5"]);
}

#[test]
fn the_data_slab_is_attached_alongside_the_root_source() {
    let p = BootParams::parse(
        "rd.stormblock.portal=h rd.stormblock.port=4431 rd.stormblock.nqn=nqn.x \
         rd.stormblock.data-slab=/dev/sdb1",
    );
    let slabs = p.all_slabs();
    assert_eq!(slabs.len(), 2);
    assert!(slabs[0].starts_with("nvme-tcp://"));
    assert_eq!(slabs[1], "/dev/sdb1");
}

#[test]
fn a_data_slab_already_named_as_a_slab_is_not_attached_twice() {
    let p = BootParams::parse("rd.stormblock.slab=/dev/sdb1 rd.stormblock.data-slab=/dev/sdb1");
    assert_eq!(p.all_slabs(), vec!["/dev/sdb1"]);
}

#[test]
fn flow_over_onto_the_data_slab_is_refused() {
    let p = BootParams::parse("rd.stormblock.data-slab=/dev/sda2 rd.stormblock.local-disk=/dev/sda");
    let err = p.check_local_disk().unwrap_err();
    assert!(err.contains("refusing flow-over"), "{err}");
    assert!(err.contains("identity"), "{err}");
}

#[test]
fn flow_over_onto_a_different_disk_is_allowed() {
    let p = BootParams::parse("rd.stormblock.data-slab=/dev/sdb1 rd.stormblock.local-disk=/dev/sda");
    assert!(p.check_local_disk().is_ok());
}

#[test]
fn partition_suffixes_do_not_hide_the_same_device() {
    assert_eq!(device_base("/dev/sda2"), "/dev/sda");
    assert_eq!(device_base("/dev/sda"), "/dev/sda");
    assert_eq!(device_base("/dev/nvme0n1p2"), "/dev/nvme0n1");
    assert_eq!(device_base("/dev/nvme0n1"), "/dev/nvme0n1");
    assert_eq!(device_base("/dev/mmcblk0p1"), "/dev/mmcblk0");
    assert_eq!(device_base("/dev/mmcblk0"), "/dev/mmcblk0");
    assert_ne!(device_base("/dev/nvme0n1"), device_base("/dev/nvme0n2"));

    let p = BootParams::parse(
        "rd.stormblock.data-slab=/dev/nvme0n1p2 rd.stormblock.local-disk=/dev/nvme0n1",
    );
    assert!(p.check_local_disk().is_err());
}

#[test]
fn a_partition_protects_its_disk_whatever_the_disk_is_called() {
    let refused = |data: &str, disk: &str| {
        let p = BootParams::parse(&format!(
            "rd.stormblock.data-slab={data} rd.stormblock.local-disk={disk}"
        ));
        p.check_local_disk().is_err()
    };
    assert!(refused("/dev/md0p1", "/dev/md0"));
    assert!(refused("/dev/nbd0p2", "/dev/nbd0"));
    assert!(refused("/dev/md0", "/dev/md0p1"));
    assert!(refused("/dev/md0p1", "/dev/md0p2"));
    assert!(refused("/dev/sda", "/dev/sda1"));
    assert!(!refused("/dev/md0p1", "/dev/sda"));
    assert!(!refused("/dev/md0p1", "/mnt/md0"));
    assert!(!refused("/dev/nvme0n1p1", "/dev/nvme0n2"));
}

#[test]
fn device_names_at_the_edges() {
    assert_eq!(device_base("sda2"), "sda");
    assert_eq!(device_base("/dev/"), "/dev/");
    assert_eq!(device_base("p1"), "p");
    assert_eq!(device_base("/dev/loop0"), "/dev/loop0");
    assert_eq!(device_base("/dev/loop0p1"), "/dev/loop0");
    assert_eq!(device_base("/dev/sda2p"), "/dev/sda2p");
    assert_eq!(device_base("/dev/x0p12"), "/dev/x0");
}

#[test]
fn the_last_setting_wins() {
    let p = BootParams::parse(
        "rd.stormblock.port=1 rd.stormblock.port=2 storm.role=a storm.role=b storm.role=",
    );
    assert_eq!(p.port, Some(2));
    assert_eq!(p.role.as_deref(), Some("b"));
    let p = BootParams::parse("rd.stormblock.port=1 rd.stormblock.port=65536");
    assert_eq!(p.port, None);
}

#[test]
fn either_name_for_the_mac_counts() {
    let p = BootParams::parse("BOOTIF=01-AA-BB-CC-DD-EE-FF storm.mac=11-22-33-44-55-66");
    assert_eq!(p.mac.as_deref(), Some("11:22:33:44:55:66"));
}

#[test]
fn the_other_settings_are_read() {
    let p = BootParams::parse(
        "storm.report=http://boot rd.stormnetboot.media=/dev/sda1 rd.stormblock.data-slab=/dev/sdb1 \
         rd.stormblock.slab=,/dev/a,,/dev/b, rd.stormblock.slab=/dev/c a=b=c storm.hostname=x=y",
    );
    assert_eq!(p.report_url.as_deref(), Some("http://boot"));
    assert_eq!(p.media_dev.as_deref(), Some("/dev/sda1"));
    assert_eq!(p.data_slab.as_deref(), Some("/dev/sdb1"));
    assert_eq!(p.slabs, vec!["/dev/a", "/dev/b", "/dev/c"]);
    assert_eq!(p.hostname.as_deref(), Some("x=y"));
    assert_eq!(BootParams::parse(""), BootParams::default());
}

#[test]
fn slabs_come_in_order_root_then_data_then_others() {
    let p = BootParams::parse(
        "rd.stormblock.portal=h rd.stormblock.port=4431 rd.stormblock.nqn=nqn.x \
         rd.stormblock.slab=/dev/sdc,/dev/sdb1,/dev/sdd rd.stormblock.data-slab=/dev/sdb1",
    );
    assert_eq!(
        p.all_slabs(),
        vec![
            "nvme-tcp://h:4431/nqn.x?nsid=1",
            "/dev/sdb1",
            "/dev/sdc",
            "/dev/sdd"
        ]
    );
    let local = BootParams::parse("rd.stormblock.slab=/dev/sda4 rd.stormblock.data-slab=/dev/sdb1");
    assert_eq!(local.all_slabs(), vec!["/dev/sda4", "/dev/sdb1"]);
}

#[test]
fn a_refused_flow_over_names_both() {
    let p = BootParams::parse("rd.stormblock.data-slab=/dev/sda2 rd.stormblock.local-disk=/dev/sda");
    assert_eq!(
        p.check_local_disk(),
        Err("refusing flow-over onto /dev/sda: it holds the data slab /dev/sda2, and formatting it would destroy this node's identity".into())
    );
    assert_eq!(BootParams::parse("").check_local_disk(), Ok(()));
}
