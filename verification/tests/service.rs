//! State, accounts, sockets, the client and its commands.

use ghaf_device_manager::api::{
    cid_allowed, configure_unix_socket, enables_notifications, handle, invalid_message, listeners,
    Listener, Operation, SocketStep, SOCKET_MODE,
};
use ghaf_device_manager::cli::{
    connection_filter, detail_line, opt_text, pci_selector, pci_summary, plan, show, transport,
    usb_selector, usb_summary, vmm_line, Command, OutputKind, PciCommand, Plan, Shown,
    TransportKind, UsbCommand,
};
use ghaf_device_manager::client::{
    listening, remaining, retry_pause, running_in_vm, Transport, IOCTL_VM_SOCKETS_GET_LOCAL_CID,
};
use ghaf_device_manager::config::{Api, General};
use ghaf_device_manager::daemon::{
    initial_delay, is_relevant, passes, reconcile_delay, Wake,
};
use ghaf_device_manager::device::{PciDevice, UsbDevice};
use ghaf_device_manager::error::Error;
use ghaf_device_manager::manager::{aggregate, failure_line};
use ghaf_device_manager::number::{parse, to_digits, to_signed_text, to_text};
use ghaf_device_manager::order::{sort, text_precedes};
use ghaf_device_manager::protocol::{
    Event, PciListDevice, ResponsePayload, UsbListDevice, VmmArgsResponse,
};
use ghaf_device_manager::state::{PersistentState, State, STATE_FILE_MODE};
use ghaf_device_manager::text::{
    cut, eq_ignore_ascii_case, has_part, is_whitespace, join, lines, split_whitespace,
    starts_with, trim, trim_start_matches,
};
use ghaf_device_manager::unix_ids::{group_id, table_owner, user_id};
use ghaf_device_manager::{Action, PciSelector, Response, UsbSelector};

#[test]
fn local_cid_ioctl_uses_linux_none_direction_abi() {
    assert_eq!(IOCTL_VM_SOCKETS_GET_LOCAL_CID, 0x7b9);
}

fn user(name: &str) -> Result<u32, Error> {
    let found = nix::unistd::User::from_name(name).ok();
    user_id(name, found.map(|user| user.map(|user| user.uid.as_raw())))
}

fn group(name: &str) -> Result<u32, Error> {
    let found = nix::unistd::Group::from_name(name).ok();
    group_id(name, found.map(|group| group.map(|group| group.gid.as_raw())))
}

#[test]
fn resolves_the_root_account() {
    assert_eq!(user("root").unwrap(), 0);
}

#[test]
fn rejects_unknown_names() {
    assert!(user("ghaf-no-such-user").is_err());
    assert!(group("ghaf-no-such-group").is_err());
}

#[test]
fn rejects_names_containing_nul() {
    assert!(user("root\0extra").is_err());
    assert!(group("root\0extra").is_err());
}

#[test]
fn a_table_gets_an_owner_where_one_is_named() {
    assert_eq!(table_owner(None, None, None, None).unwrap(), None);
    assert_eq!(
        table_owner(Some("u"), Some(5), None, None).unwrap(),
        Some((Some(5), None))
    );
    assert_eq!(
        table_owner(Some("u"), Some(5), Some("g"), Some(6)).unwrap(),
        Some((Some(5), Some(6)))
    );
    assert!(table_owner(Some("u"), None, None, None).is_err());
    assert!(table_owner(None, None, Some("g"), None).is_err());
}

fn legacy() -> PersistentState {
    let mut stored = PersistentState::default();
    stored.selected_vms.insert("usb:1-2", "gui-vm".into());
    stored.disconnected_devices.push("pci:0000:00:1f.3".into());
    stored
}

#[test]
fn reads_and_preserves_legacy_schema() {
    let mut state = State::load(true, "state.json".into(), Some(legacy()));
    assert_eq!(state.persistent.selected_vms.get("usb:1-2").unwrap(), "gui-vm");
    assert!(state.disconnected("pci:0000:00:1f.3"));
    state.set_disconnected("pci:0000:00:1f.3", false);
    let reloaded = State::load(true, "state.json".into(), Some(state.persistent));
    assert!(reloaded.persistent.disconnected_devices.is_empty());
    assert_eq!(reloaded.persistent.selected_vms.get("usb:1-2").unwrap(), "gui-vm");
}

#[test]
fn writes_the_state_file_owner_only() {
    let mut state = State::load(true, "/var/state.json".into(), None);
    state.select_vm("usb-046d:c52b:None", "gui-vm");
    assert_eq!(
        state.persistent.selected_vms.get("usb-046d:c52b:None").unwrap(),
        "gui-vm"
    );
    assert!(state.save(true, Some("state.json")).unwrap().is_some());
    assert_eq!(STATE_FILE_MODE, 0o600);
}

#[test]
fn state_is_written_beside_its_file_and_only_where_storing_is_on() {
    let state = State::load(true, "/var/state.json".into(), None);
    assert_eq!(state.save(true, Some("state.json")).unwrap().unwrap(), ".state.json.tmp");
    assert_eq!(state.save(true, None).unwrap().unwrap(), ".state.tmp");
    assert_eq!(
        state.save(false, Some("state.json")).unwrap_err().message(),
        "state path has no parent"
    );
    let state = State::load(false, "/var/state.json".into(), Some(legacy()));
    assert!(state.persistent.disconnected_devices.is_empty());
    assert!(state.save(true, Some("state.json")).unwrap().is_none());
}

#[test]
fn disconnecting_twice_is_noted_once() {
    let mut state = State::load(true, "s".into(), None);
    state.set_disconnected("a", true);
    state.set_disconnected("b", true);
    state.set_disconnected("a", true);
    assert_eq!(state.persistent.disconnected_devices.len(), 2);
    state.set_disconnected("a", false);
    assert!(!state.disconnected("a"));
    assert!(state.disconnected("b"));
    state.set_disconnected("a", true);
    assert_eq!(state.persistent.disconnected_devices, ["a", "b"]);
}

fn api(transports: &[&str]) -> Api {
    Api {
        transports: transports.iter().map(|name| name.to_string()).collect(),
        ..Api::default()
    }
}

#[test]
fn listeners_follow_the_configured_transports() {
    let mut settings = api(&["unix", "tcp", "vsock"]);
    settings.port = 2000;
    let found = listeners(&settings).unwrap();
    assert!(matches!(&found[0], Listener::Unix { path } if *path == settings.unix_socket));
    let address = format!("{}:2000", settings.host);
    assert!(matches!(&found[1], Listener::Tcp { address: a } if *a == address));
    assert!(matches!(&found[2], Listener::Vsock { port: 2000 }));
    assert!(listeners(&api(&[])).unwrap().is_empty());
    assert_eq!(
        listeners(&api(&["ftp"])).unwrap_err().message(),
        "unsupported API transport ftp"
    );
    let mut settings = api(&["unix", "tcp", "ftp"]);
    settings.port = 65536;
    assert_eq!(
        listeners(&settings).unwrap_err().message(),
        "TCP API port must be at most 65535"
    );
    settings.transports = vec!["ftp".into(), "tcp".into()];
    assert_eq!(
        listeners(&settings).unwrap_err().message(),
        "unsupported API transport ftp"
    );
}

#[test]
fn a_socket_belongs_to_its_owner_alone_by_default() {
    assert_eq!(SOCKET_MODE, 0o600);
    let steps = configure_unix_socket(None, None, None);
    assert!(matches!(steps[..], [SocketStep::SetMode(0o600)]));
    let steps = configure_unix_socket(Some(1), None, Some("0660"));
    assert!(matches!(
        steps[..],
        [
            SocketStep::SetMode(0o600),
            SocketStep::SetOwner { user: Some(1), group: None },
            SocketStep::SetMode(0o660),
        ]
    ));
    for mode in ["9", "", "+", "77777777777777", " 7"] {
        let steps = configure_unix_socket(None, None, Some(mode));
        match steps.last() {
            Some(SocketStep::Fail(error)) => {
                let cause = u32::from_str_radix(mode, 8).unwrap_err().to_string();
                assert_eq!(error.message(), "invalid unixSocketMode");
                assert_eq!(error.cause(), Some(cause));
            }
            other => panic!("{other:?}"),
        }
    }
}

#[test]
fn peers_are_held_to_the_list() {
    assert!(cid_allowed(&Vec::new(), 7));
    assert!(cid_allowed(&vec![3, 7], 7));
    assert!(!cid_allowed(&vec![3], 7));
}

#[test]
fn a_detach_request_is_permanent() {
    let selector = UsbSelector::Tag { tag: "input".into() };
    let operation = handle(Action::UsbDetach { selector });
    assert!(matches!(operation, Operation::DetachUsb { permanent: true, .. }));
    let selector = PciSelector::VidDid { vid: "8086".into(), did: "51ca".into() };
    match handle(Action::PciAttach { selector, vm: Some("a".into()) }) {
        Operation::AttachPci { selector, vm } => {
            assert_eq!(selector.vid.as_deref(), Some("8086"));
            assert_eq!(selector.did.as_deref(), Some("51ca"));
            assert_eq!(vm.as_deref(), Some("a"));
        }
        other => panic!("{other:?}"),
    }
    assert!(enables_notifications(&Action::EnableNotifications));
    assert!(!enables_notifications(&Action::UsbSuspend { vm: None }));
}

#[test]
fn answers_carry_what_was_returned() {
    let payload = ResponsePayload::VmmArgs(VmmArgsResponse { vmm_args: vec!["--vfio".into()] });
    match Response::from_result(Ok(payload)).into_payload() {
        Ok(ResponsePayload::VmmArgs(args)) => assert_eq!(args.vmm_args, ["--vfio"]),
        other => panic!("{other:?}"),
    }
    let failed = Response::from_result(Err(Error::NoUsbMatch));
    assert_eq!(
        failed.into_payload().unwrap_err().message(),
        "no matching USB device found"
    );
    let failed = Response::failed("boom".into());
    assert_eq!(
        listening(failed).unwrap_err().message(),
        "failed to enable notifications: boom"
    );
    assert!(listening(Response::ok(ResponsePayload::empty())).is_ok());
    assert!(matches!(invalid_message("x"), Response::Failed { .. }));
}

#[test]
fn a_request_is_repeated_until_its_time_is_over() {
    assert_eq!(retry_pause(10_000_000_000, 0), Some(1_000_000_000));
    assert_eq!(retry_pause(10_000_000_000, 9_600_000_000), Some(400_000_000));
    assert_eq!(retry_pause(10_000_000_000, 10_000_000_000), None);
    assert_eq!(remaining(10, 4), 6);
    assert_eq!(remaining(10, 40), 0);
}

#[test]
fn a_guest_has_a_number_of_its_own() {
    assert!(running_in_vm(Some(3)));
    for cid in [None, Some(u32::MAX), Some(2), Some(1)] {
        assert!(!running_in_vm(cid));
    }
}

#[test]
fn commands_become_requests() {
    assert_eq!(connection_filter(true, false), Some(false));
    assert_eq!(connection_filter(false, true), Some(true));
    assert_eq!(connection_filter(false, false), None);
    assert!(matches!(plan(Command::Listen), Plan::Listen));
    let list = UsbCommand::List { connected: true, disconnected: false, short: true, tag: None };
    match plan(Command::Usb(list)) {
        Plan::Request {
            action: Action::UsbList { disconnected: Some(false), tag: None },
            output: OutputKind::Usb { short: true },
            ..
        } => {}
        other => panic!("{other:?}"),
    }
    let suspend = PciCommand::Suspend { vm: Some("a".into()) };
    match plan(Command::Pci(suspend)) {
        Plan::Request { action: Action::PciSuspend { vm }, output: OutputKind::Nothing, .. } => {
            assert_eq!(vm.as_deref(), Some("a"))
        }
        other => panic!("{other:?}"),
    }
}

#[test]
fn only_machine_arguments_without_spaces_are_printed() {
    let line = vmm_line(&vec!["--vfio".into(), "/sys/x".into()]).unwrap();
    assert_eq!(line, "--vfio /sys/x");
    assert_eq!(
        vmm_line(&vec!["a b".into()]).unwrap_err().message(),
        "VMM arguments containing whitespace are not supported"
    );
    let refused = |output| {
        let payload = ResponsePayload::empty();
        let received = format!("{payload:?}");
        show(output, payload, &received).unwrap_err().message()
    };
    assert_eq!(refused(OutputKind::Vmm), "unexpected response payload");
    for output in [OutputKind::Usb { short: true }, OutputKind::Pci { short: false }] {
        assert_eq!(refused(output), "unexpected response payload: Empty(EmptyResponse)");
    }
    assert!(matches!(
        show(OutputKind::Nothing, ResponsePayload::empty(), ""),
        Ok(Shown::Nothing)
    ));
}

#[test]
fn selectors_come_from_one_option() {
    assert!(usb_selector(None, None, None, None).is_none());
    assert!(matches!(
        usb_selector(None, Some((1, 2)), None, None),
        Some(UsbSelector::BusPort { bus: 1, port: 2 })
    ));
    assert!(pci_selector(None, None, None).is_none());
    assert!(matches!(
        pci_selector(None, None, Some("t".into())),
        Some(PciSelector::Tag { .. })
    ));
}

#[test]
fn the_transport_depends_on_where_the_client_runs() {
    let pick = |kind, in_vm, port| transport(kind, in_vm, "/s".into(), "h".into(), port, 2);
    assert!(matches!(pick(None, false, 2000), Ok(Transport::Unix { .. })));
    assert!(matches!(pick(None, true, 2000), Ok(Transport::Vsock { cid: 2, port: 2000 })));
    assert!(matches!(
        pick(Some(TransportKind::Tcp), true, 2000),
        Ok(Transport::Tcp { port: 2000, .. })
    ));
    let error = pick(Some(TransportKind::Tcp), false, 65536).unwrap_err();
    assert_eq!(error.message(), "TCP port must be at most 65535");
    let cause = u16::try_from(65536u32).unwrap_err().to_string();
    assert_eq!(error.cause(), Some(cause));
    assert_eq!(Error::NoUsbMatch.cause(), None);
}

#[test]
fn devices_are_summed_up_in_one_line() {
    let device = UsbDevice {
        sys_name: "1-2".into(),
        device_node: Some("/dev/bus/usb/001/004".into()),
        bus: Some(1),
        port: Some(4),
        root_port: Some(2),
        vid: Some("046d".into()),
        pid: Some("c52b".into()),
        vendor_name: Some("Logitech".into()),
        product_name: Some("Receiver".into()),
        serial: None,
        removable: None,
        device_class: None,
        device_subclass: None,
        device_protocol: None,
        interfaces_text: None,
        interfaces: Vec::new(),
        driver_paths: Vec::new(),
        modaliases: Vec::new(),
    };
    let entry = UsbListDevice {
        device,
        allowed_vms: vec!["gui-vm".into()],
        vm: None,
        disconnected: false,
    };
    println!("{}", usb_summary(&entry));
    assert!(usb_summary(&entry).contains("Logitech"));
    let device = PciDevice {
        address: "0000:00:1f.3".into(),
        driver: None,
        vendor_id: None,
        device_id: None,
        vendor_id_text: Some("8086".into()),
        device_id_text: Some("51ca".into()),
        vendor_name: None,
        device_name: None,
        class: None,
        subclass: None,
        prog_if: None,
        pci_subsystem_vendor_id: None,
        pci_subsystem_id: None,
    };
    let entry = PciListDevice { device, allowed_vms: Vec::new(), vm: None, disconnected: false };
    assert!(pci_summary(&entry).contains("0000:00:1f.3"));
    assert_eq!(opt_text(Some("x")), "x");
    assert!(detail_line("vm", "gui-vm").contains("gui-vm"));
}

#[test]
fn the_next_pass_comes_soon_where_something_is_left() {
    assert_eq!(reconcile_delay(true, false), 30);
    assert_eq!(reconcile_delay(true, true), 2);
    assert_eq!(reconcile_delay(false, false), 2);
    assert_eq!(initial_delay(false, true, false), 2);
    assert_eq!(initial_delay(true, true, false), 30);
    assert!(passes(Wake::Event) && passes(Wake::Timeout) && !passes(Wake::Closed));
    assert!(is_relevant(Some("usb")) && is_relevant(Some("pci")));
    assert!(!is_relevant(Some("net")) && !is_relevant(None));
}

#[test]
fn events_have_their_names() {
    for (event, name) in [
        (Event::UsbConnected, "usb_connected"),
        (Event::UsbDisconnected, "usb_disconnected"),
        (Event::UsbSelectVm, "usb_select_vm"),
        (Event::UsbAttached, "usb_attached"),
        (Event::UsbDetached, "usb_detached"),
        (Event::PciConnected, "pci_connected"),
        (Event::PciDisconnected, "pci_disconnected"),
        (Event::PciAttached, "pci_attached"),
        (Event::PciDetached, "pci_detached"),
    ] {
        assert_eq!(event.name(), name);
    }
}

#[test]
fn failures_are_gathered_in_one_line() {
    assert!(aggregate(Vec::new()).is_ok());
    let lines = vec![failure_line("1-2", &Error::NoDeviceNode), "b: c".to_owned()];
    assert_eq!(
        aggregate(lines).unwrap_err().message(),
        "1-2: USB device has no device node; b: c"
    );
}

#[test]
fn messages_name_what_went_wrong() {
    let vm = || "vm".to_owned();
    for (error, message) in [
        (Error::CannotClaim("1-2".into()), "cannot claim 1-2"),
        (
            Error::DifferentDevice,
            "Crosvm USB port contains a different device; refusing to detach",
        ),
        (
            Error::AmbiguousDetach,
            "multiple matching USB devices are attached; refusing an ambiguous detach",
        ),
        (Error::NoTargetVm, "PCI rule has no targetVm"),
        (Error::ReconcileStopped, "device reconciliation stopped"),
        (Error::UnknownVm(vm()), "VM vm is not found in the configuration"),
        (Error::Outside("io".into()), "io"),
    ] {
        assert_eq!(error.message(), message);
    }
}

#[test]
fn numbers_are_read_as_std_reads_them() {
    for text in ["0", "+7", "007", "", "+", "-1", "4294967295", "4294967296", "1 ", "x"] {
        assert_eq!(parse(text, 10, u32::MAX), text.parse::<u32>().ok(), "{text:?}");
        assert_eq!(parse(text, 10, 255), text.parse::<u8>().ok().map(u32::from), "{text:?}");
    }
    for text in ["ff", "FF", "+a", "0x1", "g", "100000000", "ffffffff"] {
        assert_eq!(parse(text, 16, u32::MAX), u32::from_str_radix(text, 16).ok(), "{text:?}");
    }
}

#[test]
fn numbers_are_written_as_std_writes_them() {
    for n in [0u64, 9, 10, 255, 4096, u64::MAX] {
        assert_eq!(to_text(n), n.to_string());
        assert_eq!(to_digits(n, 16, 2), format!("{n:02x}"));
        assert_eq!(to_digits(n, 10, 3), format!("{n:03}"));
    }
    for n in [0i64, -1, 7, i64::MIN, i64::MAX] {
        assert_eq!(to_signed_text(n), n.to_string());
    }
}

#[test]
fn white_space_is_what_std_takes_for_it() {
    for code in 0..=0x10ffffu32 {
        if let Some(c) = char::from_u32(code) {
            assert_eq!(is_whitespace(c), c.is_whitespace(), "{code:x}");
        }
    }
}

#[test]
fn texts_are_taken_apart_as_std_does() {
    for text in ["", " ", "a", " a  b\t", "a\nb\r\nc\n", "\n\n", "a\r", "\u{2003}x\u{a0}"] {
        assert_eq!(trim(text), text.trim());
        assert_eq!(split_whitespace(text), text.split_whitespace().collect::<Vec<_>>());
        assert_eq!(lines(text), text.lines().collect::<Vec<_>>());
        for part in ["", "a", "b", "\n", "zz"] {
            assert_eq!(starts_with(text, part), text.starts_with(part));
            assert_eq!(has_part(text, part), text.contains(part));
        }
    }
    assert_eq!(trim_start_matches("0x0x1", "0x"), "0x0x1".trim_start_matches("0x"));
    assert_eq!(cut("a:b:c", ':'), ("a".to_owned(), Some("b:c".to_owned())));
    assert_eq!(cut("abc", ':'), ("abc".to_owned(), None));
    assert_eq!(join(&vec!["a".into(), "b".into()], "; "), "a; b");
    for (a, b) in [("aB", "Ab"), ("a", "ab"), ("\u{e4}", "\u{c4}"), ("", "")] {
        assert_eq!(eq_ignore_ascii_case(a, b), a.eq_ignore_ascii_case(b));
    }
}

#[test]
fn sorting_puts_texts_in_order() {
    let words: Vec<String> =
        ["b", "", "ab", "a", "\u{e4}", "a"].iter().map(|word| word.to_string()).collect();
    let mut expected = words.clone();
    expected.sort();
    assert_eq!(sort(words), expected);
    for (a, b) in [("a", "b"), ("b", "a"), ("a", "a"), ("a", "ab"), ("\u{e4}", "z")] {
        assert_eq!(text_precedes(a, b), a <= b, "{a} {b}");
    }
}

#[test]
fn defaults_are_filled_in() {
    let general = General::default();
    assert!(general.persistency);
    assert_eq!(general.crosvm, "crosvm");
    assert!(general.api.enable);
}
