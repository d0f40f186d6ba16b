//! Rules, patterns and what the configuration may say.

use ghaf_device_manager::config::{
    case_eq, enabled, hex, json_enabled, module_names, path_of_module, pci_selector_matches,
    usb_selector_matches, Api, General, Vm,
};
use ghaf_device_manager::device::{PciDevice, UsbDevice, UsbInterface};
use ghaf_device_manager::json::Value;
use ghaf_device_manager::pattern::{anchor, is_hit, regex_match};
use ghaf_device_manager::vmm::{acpi_tables, evdev_selector_picks, EvdevDevice};
use ghaf_device_manager::Config;

fn convert(value: serde_json::Value) -> Value {
    match value {
        serde_json::Value::Null => Value::Null,
        serde_json::Value::Bool(b) => Value::Bool(b),
        serde_json::Value::Number(n) => Value::Number(n.as_u64()),
        serde_json::Value::String(s) => Value::Text(s),
        serde_json::Value::Array(items) => Value::Array(items.into_iter().map(convert).collect()),
        serde_json::Value::Object(members) => {
            Value::Object(members.into_iter().map(|(k, v)| (k, convert(v))).collect())
        }
    }
}

fn value(text: &str) -> Value {
    convert(serde_json::from_str(text).unwrap())
}

fn rules(text: &str) -> Vec<Value> {
    match value(text) {
        Value::Array(items) => items,
        _ => panic!("rules are a list"),
    }
}

fn config(usb: &str, pci: &str) -> Config {
    let general = General::default();
    Config::new(rules(usb), rules(pci), Vec::new(), Vec::new(), Vec::new(), general)
}

fn usb() -> UsbDevice {
    UsbDevice {
        sys_name: "1-2.3".into(),
        device_node: Some("/dev/bus/usb/001/004".into()),
        bus: Some(1),
        port: Some(4),
        root_port: Some(2),
        vid: Some("046d".into()),
        pid: Some("c52b".into()),
        vendor_name: Some("Logitech".into()),
        product_name: Some("Receiver".into()),
        serial: None,
        removable: Some("removable".into()),
        device_class: Some(0),
        device_subclass: Some(0),
        device_protocol: Some(0),
        interfaces_text: Some(":030102:".into()),
        interfaces: vec![UsbInterface { class: Some(3), subclass: Some(1), protocol: Some(2) }],
        driver_paths: Vec::new(),
        modaliases: Vec::new(),
    }
}

fn pci() -> PciDevice {
    PciDevice {
        address: "0000:00:1f.3".into(),
        driver: None,
        vendor_id: Some(0x8086),
        device_id: Some(0x51ca),
        vendor_id_text: Some("8086".into()),
        device_id_text: Some("51ca".into()),
        vendor_name: None,
        device_name: None,
        class: Some(4),
        subclass: Some(1),
        prog_if: Some(0),
        pci_subsystem_vendor_id: None,
        pci_subsystem_id: None,
    }
}

#[test]
fn usb_rule_matches_vid_pid_and_allowed_vms() {
    let config = config(
        r#"[{
            "allowedVms": ["gui-vm", "admin-vm"],
            "tag": "input",
            "allow": [{"vendorId": "046D", "productId": "C52B"}]
        }]"#,
        "[]",
    );
    let rule = config.usb_rule(&usb()).unwrap();
    assert_eq!(rule.allowed_vms, ["gui-vm", "admin-vm"]);
    assert_eq!(rule.tag.as_deref(), Some("input"));
}

#[test]
fn deny_overrides_allow() {
    let config = config(
        r#"[{
            "targetVm": "gui-vm",
            "allow": [{"interfaceClass": 3}],
            "deny": [{"vendorName": "Logi.*"}]
        }]"#,
        "[]",
    );
    assert!(config.usb_rule(&usb()).is_none());
}

#[test]
fn driver_path_matches_devices_without_a_valid_interface() {
    let config = config(
        r#"[{
            "targetVm": "net-vm",
            "allow": [{"driverPath": ".*/kernel/drivers/net/usb/.*"}]
        }]"#,
        "[]",
    );
    let mut device = usb();
    device.interfaces[0].class = Some(0xff);
    device.driver_paths = vec![
        "/run/current-system/kernel-modules/lib/modules/kernel/drivers/net/usb/cdc_ether.ko.xz"
            .into(),
    ];
    assert_eq!(config.usb_rule(&device).unwrap().target_vm.as_deref(), Some("net-vm"));
}

#[test]
fn pci_order_is_the_matching_allow_position() {
    let config = config(
        "[]",
        r#"[
            {
                "targetVm": "other-vm",
                "allow": [{"address": "0000:00:00.0"}, {"address": "0000:00:01.0"}]
            },
            {
                "targetVm": "audio-vm",
                "allow": [{"address": "0000:00:02.0"}, {"address": "0000:00:1f.3"}]
            }
        ]"#,
    );
    let rule = config.pci_rule(&pci()).unwrap();
    assert_eq!(rule.order, 4);
    assert_eq!(rule.target_vm.as_deref(), Some("audio-vm"));
}

#[test]
fn a_denied_pci_device_matches_no_rule() {
    let config = config(
        "[]",
        r#"[{
            "targetVm": "audio-vm",
            "allow": [{"vendorId": "8086", "deviceId": "0x51ca"}],
            "deny": [{"deviceClass": 4}]
        }]"#,
    );
    assert!(config.pci_rule(&pci()).is_none());
    assert!(config.has_pci_rules("audio-vm"));
    assert!(!config.has_pci_rules("gui-vm"));
}

#[test]
fn without_rules_nothing_is_routed() {
    let config = config("[]", "[]");
    assert!(!config.routes_usb());
    assert!(config.usb_rule(&usb()).is_none());
    assert!(config.pci_rule(&pci()).is_none());
}

#[test]
fn the_first_matching_rule_decides() {
    let config = config(
        r#"[
            {"targetVm": "a", "enable": false, "allow": [{"interfaceClass": 3}]},
            {"targetVm": "b", "disable": true, "allow": [{"interfaceClass": 3}]},
            {"targetVm": "c", "allow": [{"interfaceClass": 3, "disable": true}]},
            {"targetVm": "d", "allow": [{"interfaceClass": 3}]},
            {"targetVm": "e", "allow": [{"interfaceClass": 3}]}
        ]"#,
        "[]",
    );
    assert!(config.routes_usb());
    let rule = config.usb_rule(&usb()).unwrap();
    assert_eq!(rule.target_vm.as_deref(), Some("d"));
}

#[test]
fn patterns_start_where_the_value_starts() {
    assert_eq!(anchor("a|b"), "^(?:a|b)");
    assert!(regex_match(Some("Logi.*"), Some("Logitech")));
    assert!(regex_match(Some("logi.*"), Some("LOGITECH")));
    assert!(regex_match(Some("Logi"), Some("Logitech")));
    assert!(!regex_match(Some("tech"), Some("Logitech")));
    assert!(!regex_match(Some("x|tech"), Some("Logitech")));
    assert!(!regex_match(Some("("), Some("(")));
    assert!(!regex_match(Some(".*"), None));
    assert!(!regex_match(None, Some("Logitech")));
    assert!(is_hit(Some(true)));
    assert!(!is_hit(Some(false)));
    assert!(!is_hit(None));
}

#[test]
fn usb_selectors_ask_for_each_field() {
    let device = usb();
    let hit = |text: &str| usb_selector_matches(&value(text), &device);
    assert!(hit(r#"{"vendorId": "046D", "productId": "C52B"}"#));
    assert!(!hit(r#"{"vendorId": "046D", "productId": "C52C"}"#));
    assert!(!hit(r#"{"vendorId": "046D"}"#));
    assert!(hit(r#"{"removable": ["Removable"], "interfaceClass": 3}"#));
    assert!(!hit(r#"{"removable": ["fixed"], "interfaceClass": 3}"#));
    assert!(!hit(r#"{"deviceClass": 0, "deviceSubclass": 1, "interfaceClass": 3}"#));
    assert!(hit(r#"{"interfaceClass": 3, "interfaceSubclass": 1, "interfaceProtocol": 2}"#));
    assert!(!hit(r#"{"interfaceClass": 3, "interfaceSubclass": 2}"#));
    assert!(hit(r#"{"vendorName": "logi.*", "productName": "Recei.*"}"#));
    assert!(!hit(r#"{"vendorName": "Recei.*"}"#));
    assert!(hit(r#"{"bus": 1, "port": 2}"#));
    assert!(!hit(r#"{"bus": 1}"#));
    assert!(!hit("{}"));
}

#[test]
fn pci_selectors_ask_for_each_field() {
    let device = pci();
    let hit = |text: &str| pci_selector_matches(&value(text), &device);
    assert!(hit(r#"{"address": "0000:00:1F.3"}"#));
    assert!(!hit(r#"{"address": "0000:00:1f.2"}"#));
    assert!(hit(r#"{"vendorId": "8086", "deviceId": "51CA"}"#));
    assert!(!hit(r#"{"vendorId": "8086", "deviceId": "51cb"}"#));
    assert!(hit(r#"{"deviceClass": 4, "deviceSubclass": 1, "deviceProgIf": 0}"#));
    assert!(!hit(r#"{"deviceClass": 5}"#));
    assert!(!hit("{}"));
}

#[test]
fn rules_are_on_unless_they_say_otherwise() {
    assert!(json_enabled(&value("{}")));
    assert!(json_enabled(&value(r#"{"disable": false}"#)));
    assert!(!json_enabled(&value(r#"{"disable": true}"#)));
    assert!(!json_enabled(&value(r#"{"enable": false}"#)));
    assert!(enabled(&value(r#"{"enable": true}"#)));
    assert!(!enabled(&value(r#"{"disable": true}"#)));
}

#[test]
fn codes_are_compared_without_case() {
    assert!(case_eq(Some("C52B"), Some("c52b")));
    assert!(!case_eq(Some("C52B"), Some("c52c")));
    assert!(!case_eq(None, Some("c52b")));
    assert!(!case_eq(Some("c52b"), None));
    assert_eq!(hex(Some("0x8086")), Some(0x8086));
    assert_eq!(hex(Some("8086")), Some(0x8086));
    assert_eq!(hex(Some("1ffffffff")), None);
    assert_eq!(hex(Some("x")), None);
    assert_eq!(hex(None), None);
}

fn machine(name: &str, kind: &str, socket: &str) -> Vm {
    Vm { name: name.into(), vm_type: kind.into(), socket: socket.into() }
}

fn fault(vms: Vec<Vm>, api: Api) -> Option<String> {
    let general = General { api, ..General::default() };
    let config = Config::new(Vec::new(), Vec::new(), Vec::new(), Vec::new(), vms, general);
    config.validate().err().map(|error| error.message())
}

#[test]
fn faults_of_a_configuration_are_named() {
    let good = || machine("gui-vm", "crosvm", "/run/a.sock");
    assert_eq!(fault(vec![good()], Api::default()), None);
    assert_eq!(
        fault(vec![good(), machine("x", "qemu", "/run/q.sock")], Api::default()).unwrap(),
        "ghaf-device-manager supports only Crosvm VMs"
    );
    assert_eq!(
        fault(vec![machine("", "crosvm", "/run/a.sock")], Api::default()).unwrap(),
        "VM name and socket must not be empty"
    );
    assert_eq!(
        fault(vec![good(), good()], Api::default()).unwrap(),
        "duplicate VM name gui-vm"
    );
    let api = Api { enable: true, transports: vec!["ftp".into()], ..Api::default() };
    assert_eq!(fault(Vec::new(), api).unwrap(), "unsupported API transport ftp");
    let api = Api { enable: true, transports: vec!["tcp".into()], port: 65536, ..Api::default() };
    assert_eq!(fault(Vec::new(), api).unwrap(), "TCP API port must be at most 65535");
}

#[test]
fn a_vm_is_found_by_its_name() {
    let vms = vec![machine("gui-vm", "crosvm", "/run/a.sock")];
    let general = General::default();
    let config = Config::new(Vec::new(), Vec::new(), Vec::new(), Vec::new(), vms, general);
    assert_eq!(config.vm("gui-vm").unwrap().socket, "/run/a.sock");
    assert_eq!(
        config.vm("net-vm").unwrap_err().message(),
        "VM net-vm is not found in the configuration"
    );
}

#[test]
fn modules_of_a_device_are_learnt_once() {
    let mut config = config(
        r#"[{"targetVm": "net-vm", "allow": [{"driverPath": ".*/net/usb/.*"}]}]"#,
        "[]",
    );
    let mut device = usb();
    device.interfaces[0].class = Some(0xff);
    device.modaliases = vec!["usb:v1".into()];
    assert_eq!(config.unknown_modaliases(&device), ["usb:v1"]);
    config.learn_modules("usb:v1", vec!["/lib/net/usb/r8152.ko".into()]);
    assert!(config.unknown_modaliases(&device).is_empty());
    assert_eq!(config.module_paths("usb:v1").unwrap(), &["/lib/net/usb/r8152.ko"]);
    assert!(config.usb_rule(&device).is_some());
    assert_eq!(module_names("r8152\ncdc_ether\n"), ["r8152", "cdc_ether"]);
    assert_eq!(path_of_module(&Some(" /lib/a.ko \n".into())).as_deref(), Some("/lib/a.ko"));
    assert_eq!(path_of_module(&Some(" \n".into())), None);
    assert_eq!(path_of_module(&None), None);
}

#[test]
fn tables_of_a_machine_are_those_of_its_rules() {
    let tables = acpi_tables(
        &rules(
            r#"[
                {"targetVm": "a", "allow": [
                    {"acpiTable": "/t", "setUser": "u", "setGroup": "g"},
                    {"setUser": "u"}
                ]},
                {"targetVm": "b", "allow": [{"acpiTable": "/o"}]}
            ]"#,
        ),
        "a",
    );
    assert_eq!(tables.len(), 1);
    assert_eq!(tables[0].table, "/t");
    assert_eq!(tables[0].user.as_deref(), Some("u"));
    assert_eq!(tables[0].group.as_deref(), Some("g"));
}

#[test]
fn inputs_are_picked_by_name_tag_or_property() {
    let device = EvdevDevice {
        node: Some("/dev/input/event0".into()),
        name: None,
        parent_name: None,
        properties: vec![("ID_INPUT_KEY".into(), "1".into())],
    };
    let named = value(r#"{"name": "x"}"#);
    assert!(evdev_selector_picks(&named, &device, true, false));
    assert!(!evdev_selector_picks(&named, &device, false, false));
    let tagged = value(r#"{"pathTag": "x"}"#);
    assert!(evdev_selector_picks(&tagged, &device, false, true));
    let property = value(r#"{"property": "ID_INPUT_KEY", "value": "1"}"#);
    assert!(evdev_selector_picks(&property, &device, false, false));
    let property = value(r#"{"property": "ID_INPUT_KEY", "value": "0"}"#);
    assert!(!evdev_selector_picks(&property, &device, false, false));
}
