//! Devices, their storage, the drivers they get, and the Crosvm commands.

use ghaf_device_manager::crosvm::{
    bind_vfio, command, command_args, is_vfio_path, parse_usb_detach, parse_usb_list,
    parse_vfio_list, pci_path, usb_attach_args, usb_detach_args, usb_list_args, vfio_list_args,
    BindStep, Output, UsbAttachStep, UsbAttaching, VfioChange, VfioStep,
};
use ghaf_device_manager::device::{
    active_host_storage_device_ids, decimal, describe_usb, hex, hwdb_modalias, hwdb_names,
    iommu_group, linux_major, linux_minor, read, scan_pci, scan_usb, swap_sources,
    usb_backs_active_storage, usb_backs_host_storage, BlockDevice, InterfaceSource, PciSource,
    SwapArea, UsbSource,
};
use ghaf_device_manager::manager::socket_generation;
use ghaf_device_manager::table::StringMap;
use ghaf_device_manager::usb_gate::{
    close, device_names, interfaces, is_closed, open, probe, releasable, release, settle, Place,
    Settle, AUTOPROBE,
};

fn names(list: &[&str]) -> Vec<String> {
    list.iter().map(|name| name.to_string()).collect()
}

fn parts(path: &str) -> Vec<String> {
    path.split('/').filter(|part| !part.is_empty()).map(|part| part.to_owned()).collect()
}

fn block(path: &str, device_id: &str) -> BlockDevice {
    BlockDevice {
        device_id: device_id.into(),
        sys_path: parts(path),
        slaves: Vec::new(),
        has_holders: false,
    }
}

const USB: &str = "/sys/devices/usb1/1-2";
const DISK: &str = "/sys/devices/usb1/1-2/1-2:1.0/host0/target0:0:0/0:0:0:0/block/sda";
const MAPPER: &str = "/sys/devices/virtual/block/dm-0";

fn usb_storage_fixture() -> StringMap<BlockDevice> {
    let mut blocks = StringMap::new();
    blocks.insert("sda", block(DISK, "8:0"));
    blocks.insert("sda2", block(&format!("{DISK}/sda2"), "8:2"));
    blocks
}

#[test]
fn excludes_directly_mounted_usb_storage() {
    let blocks = usb_storage_fixture();
    assert!(usb_backs_active_storage(&parts(USB), &blocks, &names(&["8:2"])));
}

#[test]
fn excludes_usb_storage_mounted_through_device_mapper() {
    let mut blocks = usb_storage_fixture();
    let mut mapper = block(MAPPER, "254:0");
    mapper.slaves = names(&["sda2"]);
    blocks.insert("dm-0", mapper);
    assert!(usb_backs_active_storage(&parts(USB), &blocks, &names(&["254:0"])));
}

#[test]
fn excludes_usb_storage_with_an_active_holder() {
    let mut blocks = usb_storage_fixture();
    blocks.insert("dm-0", block(MAPPER, "254:0"));
    let mut held = block(&format!("{DISK}/sda2"), "8:2");
    held.has_holders = true;
    blocks.insert("sda2", held);
    assert!(usb_backs_active_storage(&parts(USB), &blocks, &Vec::new()));
}

#[test]
fn allows_idle_usb_storage() {
    let blocks = usb_storage_fixture();
    assert!(!usb_backs_active_storage(&parts(USB), &blocks, &Vec::new()));
}

#[test]
fn storage_of_a_similar_path_is_another_device() {
    let blocks = usb_storage_fixture();
    let other = parts("/sys/devices/usb1/1");
    assert!(!usb_backs_active_storage(&other, &blocks, &names(&["8:2"])));
}

#[test]
fn layers_that_stand_on_each_other_in_a_ring_end() {
    let mut blocks = usb_storage_fixture();
    let mut first = block(MAPPER, "254:0");
    first.slaves = names(&["dm-1"]);
    let mut second = block("/sys/devices/virtual/block/dm-1", "254:1");
    second.slaves = names(&["dm-0", "absent"]);
    blocks.insert("dm-0", first);
    blocks.insert("dm-1", second);
    assert!(!usb_backs_active_storage(&parts(USB), &blocks, &names(&["254:0"])));
}

#[test]
fn mounts_and_swap_count_as_host_storage() {
    let mountinfo = "36 35 8:2 / / rw - ext4 /dev/sda2 rw\nshort line\n";
    let areas = vec![
        SwapArea { is_block_device: true, rdev: 0x801, dev: 5 },
        SwapArea { is_block_device: false, rdev: 0, dev: 0x10301 },
    ];
    let ids = active_host_storage_device_ids(mountinfo, &areas);
    for id in ["8:2", "8:1", "259:1"] {
        assert!(ids.contains(&id.to_string()), "{id} in {ids:?}");
    }
    let blocks = usb_storage_fixture();
    assert!(usb_backs_host_storage(&parts(USB), &blocks, mountinfo, &Vec::new()));
    assert!(!usb_backs_host_storage(&parts(USB), &blocks, "", &Vec::new()));
}

#[test]
fn swap_areas_follow_the_heading() {
    let swaps = "Filename Type Size Used Priority\n/dev/dm-1 partition 1 0 -2\n\n/swap file 1 0 -3\n";
    assert_eq!(swap_sources(swaps), ["/dev/dm-1", "/swap"]);
}

#[test]
fn device_numbers_are_split_as_linux_does() {
    for (major, minor) in [(8u32, 2u32), (259, 1), (4095, 1_048_575), (65535, 256)] {
        let number = nix::libc::makedev(major, minor);
        assert_eq!(linux_major(number), u64::from(major));
        assert_eq!(linux_minor(number), u64::from(minor));
    }
}

fn source(name: &str) -> UsbSource {
    UsbSource {
        sys_name: name.into(),
        has_vendor: true,
        has_bus: true,
        backs_host_storage: false,
        busnum: Some("1\n".into()),
        devnum: Some("4\n".into()),
        id_vendor: Some("046d\n".into()),
        id_product: Some("c52b\n".into()),
        manufacturer: None,
        product: None,
        serial: None,
        removable: None,
        device_class: Some("ef\n".into()),
        device_subclass: Some("02\n".into()),
        device_protocol: Some("01\n".into()),
        hwdb_vendor: Some("Logitech, Inc.".into()),
        hwdb_product: Some("Unifying Receiver".into()),
    }
}

fn interface(name: &str) -> InterfaceSource {
    InterfaceSource {
        name: name.into(),
        class: Some("03\n".into()),
        subclass: Some("01\n".into()),
        protocol: Some("02\n".into()),
        driver: Some("/lib/usbhid.ko".into()),
        modalias: Some("usb:v046D\n".into()),
    }
}

#[test]
fn usb_devices_are_described_from_their_attributes() {
    let entries = vec![interface("1-2:1.0"), interface("1-20:1.0"), interface("1-2:1.1")];
    let device = describe_usb(&source("1-2"), &entries);
    assert_eq!(device.device_node.as_deref(), Some("/dev/bus/usb/001/004"));
    assert_eq!(device.bus, Some(1));
    assert_eq!(device.root_port, Some(2));
    assert_eq!(device.interfaces.len(), 2);
    assert_eq!(device.interfaces_text.as_deref(), Some(":030102:030102:"));
    assert_eq!(device.device_class, Some(0xef));
    assert_eq!(device.vendor_name.as_deref(), Some("Logitech, Inc."));
    assert_eq!(device.product_name.as_deref(), Some("Unifying Receiver"));
    assert_eq!(device.persistent_id(), "usb-046d:c52b:None");
}

#[test]
fn a_serial_number_is_part_of_the_identity() {
    let mut plain = source("1-2");
    plain.serial = Some("A1\n".into());
    let device = describe_usb(&plain, &Vec::new());
    assert_eq!(device.persistent_id(), "usb-046d:c52b:A1");
}

#[test]
fn entries_without_numbers_and_host_storage_are_not_scanned() {
    let mut storage = source("1-3");
    storage.backs_host_storage = true;
    let mut bare = source("1-4");
    bare.has_vendor = false;
    let mut loose = source("1-6");
    loose.has_bus = false;
    let sources = vec![source("1-5"), storage, bare, source("1-2"), loose];
    let found: Vec<String> =
        scan_usb(&sources, &Vec::new()).into_iter().map(|device| device.sys_name).collect();
    assert_eq!(found, ["1-2", "1-5"]);
}

#[test]
fn vendor_codes_are_looked_up_in_upper_case() {
    assert_eq!(hwdb_modalias("046D", "C52B"), "usb:v046DpC52B");
    let names = hwdb_names(&Some("046d\n".into()), &Some("c52b\n".into()));
    assert_eq!(names.as_deref(), Some("usb:v046DpC52B"));
    assert_eq!(hwdb_names(&Some("046d".into()), &None), None);
    assert_eq!(hwdb_names(&None, &Some("c52b".into())), None);
}

#[test]
fn pci_devices_are_described_from_their_attributes() {
    let device = |address: &str, driver: Option<&str>| PciSource {
        address: address.into(),
        driver: driver.map(|driver| driver.into()),
        vendor: Some("0x8086\n".into()),
        device: Some("0x51ca\n".into()),
        class: Some("0x040102\n".into()),
        subsystem_vendor: Some("0x1028\n".into()),
        subsystem_device: Some("0x0b00\n".into()),
    };
    let found = scan_pci(&vec![device("0000:00:1f.3", Some("snd")), device("0000:00:02.0", None)]);
    assert_eq!(found[0].address, "0000:00:02.0");
    let second = &found[1];
    assert_eq!(second.vendor_id, Some(0x8086));
    assert_eq!(second.device_id_text.as_deref(), Some("51ca"));
    assert_eq!((second.class, second.subclass, second.prog_if), (Some(4), Some(1), Some(2)));
    assert_eq!(second.pci_subsystem_vendor_id.as_deref(), Some("1028"));
    assert_eq!(second.pci_subsystem_id.as_deref(), Some("0b00"));
    assert_eq!(second.persistent_id(), "pci-0000:00:1f.3");
}

#[test]
fn attributes_are_read_without_their_line_end() {
    assert_eq!(read(&Some(" removable \n".into())).as_deref(), Some("removable"));
    assert_eq!(read(&Some(" \n".into())).as_deref(), Some(""));
    assert_eq!(read(&None), None);
    assert_eq!(decimal(&Some("012\n".into())), Some(12));
    assert_eq!(decimal(&Some("1a\n".into())), None);
    assert_eq!(hex(&Some("0x1a\n".into())), Some(26));
    assert_eq!(hex(&Some("1a\n".into())), Some(26));
    assert_eq!(hex(&Some("zz\n".into())), None);
}

#[test]
fn group_members_come_in_order() {
    let members = names(&["0000:00:1f.3", "0000:00:1f.0"]);
    assert_eq!(iommu_group(Some(members)), ["0000:00:1f.0", "0000:00:1f.3"]);
    assert!(iommu_group(None).is_empty());
}

#[test]
fn closing_and_opening_write_the_attribute() {
    assert_eq!(close().path, AUTOPROBE);
    assert_eq!(close().value, "0");
    assert_eq!(open().path, AUTOPROBE);
    assert_eq!(open().value, "1");
    assert!(matches!(open().place, Place::Bus));
}

#[test]
fn is_closed_reads_the_attribute() {
    assert!(!is_closed(&None));
    assert!(is_closed(&Some(close().value)));
    assert!(is_closed(&Some("0\n".into())));
    assert!(!is_closed(&Some(open().value)));
}

#[test]
fn probe_names_the_device_for_the_kernel() {
    let write = probe("2-1:1.0");
    assert!(matches!(write.place, Place::Bus));
    assert_eq!(write.path, "drivers_probe");
    assert_eq!(write.value, "2-1:1.0");
}

#[test]
fn interfaces_do_not_leak_between_similar_device_names() {
    let devices = || names(&["2-1", "2-1:1.0", "2-1:1.1", "2-10", "2-10:1.0"]);
    assert_eq!(interfaces(devices(), "2-1"), ["2-1:1.0", "2-1:1.1"]);
    assert_eq!(interfaces(devices(), "2-10"), ["2-10:1.0"]);
}

#[test]
fn a_root_hub_finds_its_interface_despite_the_naming() {
    let devices = || names(&["usb2", "2-0:1.0", "2-1", "2-1:1.0"]);
    assert_eq!(interfaces(devices(), "usb2"), ["2-0:1.0"]);
    assert_eq!(interfaces(devices(), "2-1"), ["2-1:1.0"]);
}

#[test]
fn a_claim_and_a_hub_are_not_releasable() {
    assert!(!releasable("usbfs"));
    assert!(!releasable("hub"));
    assert!(releasable("uas"));
}

#[test]
fn device_names_leave_out_interfaces() {
    assert_eq!(device_names(names(&["usb2", "2-1", "2-1:1.0"])), ["2-1", "usb2"]);
}

#[test]
fn release_names_the_interface_for_its_driver() {
    let write = release("2-1:1.0");
    assert!(matches!(write.place, Place::Devices));
    assert_eq!(write.path, "2-1:1.0/driver/unbind");
    assert_eq!(write.value, "2-1:1.0");
}

#[test]
fn interfaces_settle_by_who_they_belong_to() {
    assert!(matches!(settle(true, &Some("uas".into())), Settle::Release));
    assert!(matches!(settle(true, &Some("usbfs".into())), Settle::Keep));
    assert!(matches!(settle(true, &Some("hub".into())), Settle::Keep));
    assert!(matches!(settle(true, &None), Settle::Keep));
    assert!(matches!(settle(false, &None), Settle::Probe));
    assert!(matches!(settle(false, &Some("uas".into())), Settle::Keep));
}

fn ok(stdout: &str) -> Output {
    Output { status: 0, stdout: stdout.into(), stderr: String::new() }
}

#[test]
fn control_commands_disable_crosvm_syslog() {
    let args = command_args(&usb_list_args("/run/vm.sock"));
    assert_eq!(args, ["--no-syslog", "usb", "list", "/run/vm.sock"]);
    let output = command(usb_list_args("/run/vm.sock"), ok("devices")).unwrap();
    assert!(parse_usb_list(&output).unwrap().is_empty());
}

#[test]
fn vfio_add_verifies_live_state() {
    let change = VfioChange::add("0000:00:1f.3");
    let live = parse_vfio_list(&command(vfio_list_args("/run/vm.sock"), ok("devices")).unwrap());
    assert!(change.needed(&live.unwrap()));
    command(change.args("/run/vm.sock"), ok("ok")).unwrap();
    let live = parse_vfio_list("devices /sys/bus/pci/devices/0000:00:1f.3").unwrap();
    assert!(!change.needed(&live));
    assert!(matches!(change.listed(&live), VfioStep::Done));
}

#[test]
fn commands_are_spelled_as_crosvm_takes_them() {
    assert_eq!(
        usb_attach_args("/s", "/dev/bus/usb/001/004"),
        ["usb", "attach", "00:00:00:00", "/dev/bus/usb/001/004", "/s"]
    );
    assert_eq!(usb_detach_args("/s", 12), ["usb", "detach", "12", "/s"]);
    let path = "/sys/bus/pci/devices/0000:00:1f.3";
    assert_eq!(pci_path("0000:00:1f.3"), path);
    assert_eq!(VfioChange::add("0000:00:1f.3").args("/s"), ["vfio", "add", path, "/s"]);
    assert_eq!(VfioChange::remove("0000:00:1f.3").args("/s"), ["vfio", "remove", path, "/s"]);
}

#[test]
fn a_failed_command_says_what_was_run() {
    let output = Output { status: 3, stdout: "no\n".into(), stderr: " bad \"x\" \n".into() };
    assert_eq!(
        command(names(&["usb", "li\"st"]), output).unwrap_err().message(),
        "Crosvm command [\"usb\", \"li\\\"st\"] failed with code 3: bad \"x\""
    );
}

#[test]
fn usb_lists_hold_three_words_for_each_port() {
    assert_eq!(
        parse_usb_list("devices 3 046d c52b 4 1234 5678\n").unwrap(),
        [(3, "046d".into(), "c52b".into()), (4, "1234".into(), "5678".into())]
    );
    assert_eq!(
        parse_usb_list("devices 3 046d").unwrap_err().message(),
        "malformed Crosvm USB list response: devices 3 046d"
    );
    assert!(parse_usb_list("error").is_err());
    assert_eq!(
        parse_usb_list("devices 300 046d c52b").unwrap_err().message(),
        "invalid Crosvm USB port"
    );
}

#[test]
fn an_attachment_names_its_port_or_is_found_in_the_list() {
    let before = vec![(3u8, "046d".to_owned(), "c52b".to_owned())];
    let after = |ports: &[u8]| -> Vec<(u8, String, String)> {
        ports.iter().map(|port| (*port, "046d".to_owned(), "c52b".to_owned())).collect()
    };
    assert!(matches!(UsbAttaching::new(&before).answered("ok 4\n"), UsbAttachStep::Attached(4)));
    let identify = || match UsbAttaching::new(&before).answered("ok") {
        UsbAttachStep::Identify(task) => task,
        other => panic!("{other:?}"),
    };
    assert_eq!(identify().listed(&after(&[3, 7])).unwrap(), 7);
    for ports in [&[3u8][..], &[3, 4, 5][..]] {
        assert_eq!(
            identify().listed(&after(ports)).unwrap_err().message(),
            "Crosvm attached USB but did not identify one new port"
        );
    }
    match UsbAttaching::new(&before).answered("strange") {
        UsbAttachStep::Failed(error) => {
            assert_eq!(error.message(), "unexpected Crosvm USB attach response: strange")
        }
        other => panic!("{other:?}"),
    }
}

#[test]
fn a_busy_hub_is_tried_six_times() {
    let mut task = UsbAttaching::new(&Vec::new());
    let mut waits = 0;
    loop {
        match task.answered("no_available_port") {
            UsbAttachStep::Wait(next) => {
                waits += 1;
                task = next;
            }
            UsbAttachStep::Failed(error) => {
                assert_eq!(
                    error.message(),
                    "Crosvm USB attach timed out waiting for a free port"
                );
                break;
            }
            other => panic!("{other:?}"),
        }
    }
    assert_eq!(waits, 5);
}

#[test]
fn detaching_is_answered_with_ok() {
    assert!(parse_usb_detach("ok 3\n").is_ok());
    assert!(parse_usb_detach("ok").is_ok());
    assert_eq!(
        parse_usb_detach("no_such_port").unwrap_err().message(),
        "unexpected Crosvm USB detach response: no_such_port"
    );
}

#[test]
fn vfio_lists_hold_pci_paths_alone() {
    let path = "/sys/bus/pci/devices/0000:00:1f.3";
    assert_eq!(parse_vfio_list(&format!("devices {path}")).unwrap(), [path]);
    assert_eq!(
        parse_vfio_list("ok").unwrap_err().message(),
        "malformed Crosvm VFIO list response: ok"
    );
    assert_eq!(
        parse_vfio_list("devices /etc/passwd").unwrap_err().message(),
        "unexpected entry in Crosvm VFIO list response"
    );
}

#[test]
fn pci_paths_have_the_form_of_their_pattern() {
    let pattern = regex::Regex::new(
        r"^/sys/bus/pci/devices/[0-9a-fA-F]{4}:[0-9a-fA-F]{2}:[0-9a-fA-F]{2}\.[0-7]$",
    )
    .unwrap();
    let root = "/sys/bus/pci/devices/";
    for tail in [
        "0000:00:1f.3",
        "FFFF:fF:00.7",
        "0000:00:1f.8",
        "0000:00:1f.",
        "0000:00:1f.33",
        "000:00:1f.3",
        "0000-00:1f.3",
        "000g:00:1f.3",
        "",
    ] {
        let path = format!("{root}{tail}");
        assert_eq!(is_vfio_path(&path), pattern.is_match(&path), "{path}");
    }
    assert!(!is_vfio_path("0000:00:1f.3"));
}

#[test]
fn a_change_that_never_shows_fails() {
    let path = "/sys/bus/pci/devices/0000:00:1f.3";
    let present = vec![path.to_owned()];
    for (adding, live, message) in [
        (true, Vec::new(), format!("Crosvm accepted VFIO add but {path} did not appear")),
        (false, present, format!("Crosvm accepted VFIO remove but {path} is still attached")),
    ] {
        let mut change = if adding {
            VfioChange::add("0000:00:1f.3")
        } else {
            VfioChange::remove("0000:00:1f.3")
        };
        let mut waits = 0;
        loop {
            match change.listed(&live) {
                VfioStep::Wait(next) => {
                    waits += 1;
                    change = next;
                }
                VfioStep::Failed(error) => {
                    assert_eq!(error.message(), message);
                    break;
                }
                VfioStep::Done => panic!("the change shows"),
            }
        }
        assert_eq!(waits, 5);
    }
}

#[test]
fn a_device_is_to_be_added_or_to_be_removed() {
    let present = vec!["/sys/bus/pci/devices/0000:00:1f.3".to_owned()];
    for live in [Vec::new(), present] {
        let adds = VfioChange::add("0000:00:1f.3").needed(&live);
        let removes = VfioChange::remove("0000:00:1f.3").needed(&live);
        assert_eq!(adds, live.is_empty());
        assert_ne!(adds, removes);
    }
}

#[test]
fn binding_leaves_the_old_driver_first() {
    let paths = |driver: Option<&str>, has_bus: bool| -> Vec<String> {
        bind_vfio("0000:00:1f.3", driver, has_bus)
            .into_iter()
            .map(|step| match step {
                BindStep::Write { write, .. } => format!("{}={}", write.path, write.value),
                BindStep::Fail(error) => error.message(),
            })
            .collect()
    };
    let override_write = "0000:00:1f.3/driver_override=vfio-pci";
    let probe_write = "drivers_probe=0000:00:1f.3";
    assert_eq!(
        paths(Some("snd"), true),
        ["0000:00:1f.3/driver/unbind=0000:00:1f.3", override_write, probe_write]
    );
    assert_eq!(paths(None, true), [override_write, probe_write]);
    assert_eq!(paths(None, false), [override_write, "invalid PCI sysfs root"]);
    assert!(paths(Some("vfio-pci"), true).is_empty());
    let failures: Vec<String> = bind_vfio("a", Some("snd"), true)
        .into_iter()
        .map(|step| match step {
            BindStep::Write { failure, .. } => failure.message(),
            BindStep::Fail(error) => error.message(),
        })
        .collect();
    assert_eq!(
        failures,
        [
            "failed to unbind PCI device a",
            "failed to set driver_override for a",
            "failed to probe vfio-pci for a",
        ]
    );
}

#[test]
fn a_new_socket_has_another_generation() {
    assert_eq!(socket_generation(1, 2, 3), "1:2:3");
    assert_eq!(socket_generation(1, 2, -3), "1:2:-3");
    assert_ne!(socket_generation(1, 2, 3), socket_generation(1, 22, 3));
}
