//! The configuration and its passthrough rules.

use crate::device::{PciDevice, UsbDevice, UsbInterface};
use crate::error::Error;
use crate::json::{bool_value, law_texts_are_all, string, string_list, texts, Value};
use crate::number::{parse, parsed};
use crate::pattern::{hits, matches_start, regex_match};
use crate::table::StringMap;
use crate::text::{as_deref, contains, eq_ignore_ascii_case, lines, lines_of, lists};
use crate::text::{lemma_lists_push, lemma_views_push, opt, opt_ref, same, same_letters, stripped};
use crate::text::{is_text, trim, trim_start_matches, trimmed, views};
use vstd::prelude::*;

verus! {

pub fn default_true() -> (r: bool)
    ensures
        r,
{
    true
}

pub fn default_state_path() -> (out: String)
    ensures
        out@ == "/var/lib/vhotplug/vhotplug.state"@,
{
    "/var/lib/vhotplug/vhotplug.state".to_owned()
}

pub fn default_crosvm() -> (out: String)
    ensures
        out@ == "crosvm"@,
{
    "crosvm".to_owned()
}

pub fn default_modprobe() -> (out: String)
    ensures
        out@ == "modprobe"@,
{
    "modprobe".to_owned()
}

pub fn default_modinfo() -> (out: String)
    ensures
        out@ == "modinfo"@,
{
    "modinfo".to_owned()
}

pub fn default_api_port() -> (port: u32)
    ensures
        port == 2000,
{
    2000
}

pub fn default_api_host() -> (out: String)
    ensures
        out@ == "127.0.0.1"@,
{
    "127.0.0.1".to_owned()
}

pub fn default_unix_socket() -> (out: String)
    ensures
        out@ == "/var/lib/vhotplug/vhotplug.sock"@,
{
    "/var/lib/vhotplug/vhotplug.sock".to_owned()
}

/// A virtual machine and the control socket of its monitor.
#[derive(Clone, Debug)]
pub struct Vm {
    pub name: String,
    pub vm_type: String,
    pub socket: String,
}

#[derive(Clone, Debug)]
pub struct General {
    pub persistency: bool,
    pub state_path: String,
    pub crosvm: String,
    pub modprobe: String,
    pub modinfo: String,
    pub api: Api,
}

impl Default for General {
    fn default() -> (general: Self)
        ensures
            general.persistency,
            general.state_path@ == "/var/lib/vhotplug/vhotplug.state"@,
            general.crosvm@ == "crosvm"@,
            general.modprobe@ == "modprobe"@,
            general.modinfo@ == "modinfo"@,
            is_default_api(general.api),
    {
        General {
            persistency: true,
            state_path: default_state_path(),
            crosvm: default_crosvm(),
            modprobe: default_modprobe(),
            modinfo: default_modinfo(),
            api: Api::default(),
        }
    }
}

#[derive(Clone, Debug)]
pub struct Api {
    pub enable: bool,
    pub transports: Vec<String>,
    pub host: String,
    pub port: u32,
    pub allowed_cids: Vec<u32>,
    pub unix_socket: String,
    pub unix_socket_user: Option<String>,
    pub unix_socket_group: Option<String>,
    pub unix_socket_mode: Option<String>,
}

/// What an interface is set to where the configuration says nothing.
pub open spec fn is_default_api(api: Api) -> bool {
    &&& api.enable
    &&& api.transports@.len() == 0
    &&& api.host@ == "127.0.0.1"@
    &&& api.port == 2000
    &&& api.allowed_cids@.len() == 0
    &&& api.unix_socket@ == "/var/lib/vhotplug/vhotplug.sock"@
    &&& api.unix_socket_user is None
    &&& api.unix_socket_group is None
    &&& api.unix_socket_mode is None
}

impl Default for Api {
    fn default() -> (api: Self)
        ensures
            is_default_api(api),
    {
        Api {
            enable: true,
            transports: Vec::new(),
            host: default_api_host(),
            port: default_api_port(),
            allowed_cids: Vec::new(),
            unix_socket: default_unix_socket(),
            unix_socket_user: None,
            unix_socket_group: None,
            unix_socket_mode: None,
        }
    }
}

/// What a passthrough rule says of a device that it routes.
#[derive(Clone, Debug, PartialEq, Eq)]
pub struct RuleMatch {
    pub target_vm: Option<String>,
    pub allowed_vms: Vec<String>,
    pub skip_on_suspend: bool,
    pub iommu_add_all: bool,
    pub iommu_skip_if_shared: bool,
    pub crosvm_use_root_bus: bool,
    pub tag: Option<String>,
    pub order: usize,
}

/// Whether nothing switches a rule or selector off. `disable` decides where
/// it is given, else `enable`.
pub open spec fn switched_on(value: Value) -> bool {
    match value.at("disable"@) {
        Some(disable) => disable.flag() != Some(true),
        None => value.flag_at("enable"@) != Some(false),
    }
}

/// Whether a value is an object that nothing switches off.
pub open spec fn is_enabled(value: Value) -> bool {
    value.is_object() && switched_on(value)
}

/// Whether nothing switches a value off.
pub fn json_enabled(value: &Value) -> (r: bool)
    ensures
        r == switched_on(*value),
{
    if let Some(disable) = value.get("disable") {
        return match disable.as_bool() {
            Some(disabled) => !disabled,
            None => true,
        };
    }
    match value.get_bool("enable") {
        Some(enabled) => enabled,
        None => true,
    }
}

/// Whether a value is an object that nothing switches off.
pub fn enabled(value: &Value) -> (r: bool)
    ensures
        r == is_enabled(*value),
{
    match value {
        Value::Object(_) => json_enabled(value),
        _ => false,
    }
}

/// Whether both are present and differ in ASCII letter case at most.
pub open spec fn same_text(left: Option<Seq<char>>, right: Option<Seq<char>>) -> bool {
    left is Some && right is Some && same_letters(left->0, right->0)
}

/// Whether both are present and differ in ASCII letter case at most.
pub fn case_eq(left: Option<&str>, right: Option<&str>) -> (r: bool)
    ensures
        r == same_text(opt_ref(left), opt_ref(right)),
{
    match (left, right) {
        (Some(left), Some(right)) => eq_ignore_ascii_case(left, right),
        _ => false,
    }
}

/// The hexadecimal number that a text holds, with or without `0x`.
pub open spec fn hex_text(value: Option<Seq<char>>) -> Option<nat> {
    match value {
        Some(text) => parsed(stripped(text, "0x"@), 16, u32::MAX as nat),
        None => None,
    }
}

/// The hexadecimal number that a text holds.
pub fn hex(value: Option<&str>) -> (out: Option<u32>)
    ensures
        match out {
            Some(n) => hex_text(opt_ref(value)) == Some(n as nat),
            None => hex_text(opt_ref(value)) is None,
        },
{
    match value {
        Some(text) => {
            let plain = trim_start_matches(text, "0x");
            parse(plain.as_str(), 16, u32::MAX)
        },
        None => None,
    }
}

/// A code of a device as the rules give codes.
pub open spec fn wide(code: Option<u32>) -> Option<u64> {
    match code {
        Some(n) => Some(n as u64),
        None => None,
    }
}

fn widen(code: Option<u32>) -> (out: Option<u64>)
    ensures
        out == wide(code),
{
    match code {
        Some(n) => Some(n as u64),
        None => None,
    }
}

fn same_code(a: Option<u64>, b: Option<u64>) -> (r: bool)
    ensures
        r == (a == b),
{
    match (a, b) {
        (Some(a), Some(b)) => a == b,
        (None, None) => true,
        _ => false,
    }
}

/// The three codes by which a rule selects a device or an interface, or by
/// which one describes itself.
#[derive(Debug)]
pub struct Codes {
    pub class: Option<u64>,
    pub subclass: Option<u64>,
    pub third: Option<u64>,
}

/// Whether wanted codes name the class that there is.
pub open spec fn names_class(wanted: Codes, codes: Codes) -> bool {
    wanted.class is Some && wanted.class == codes.class
}

/// Whether the codes below the class are those wanted, as far as any are.
pub open spec fn rest_agrees(wanted: Codes, codes: Codes) -> bool {
    &&& wanted.subclass is Some ==> wanted.subclass == codes.subclass
    &&& wanted.third is Some ==> wanted.third == codes.third
}

fn is_class(wanted: &Codes, codes: &Codes) -> (r: bool)
    ensures
        r == names_class(*wanted, *codes),
{
    wanted.class.is_some() && same_code(wanted.class, codes.class)
}

fn is_rest(wanted: &Codes, codes: &Codes) -> (r: bool)
    ensures
        r == rest_agrees(*wanted, *codes),
{
    (wanted.subclass.is_none() || same_code(wanted.subclass, codes.subclass)) && (
    wanted.third.is_none() || same_code(wanted.third, codes.third))
}

/// The codes that a selector asks of a USB device.
pub open spec fn device_codes_wanted(selector: Value) -> Codes {
    Codes {
        class: selector.number_at("deviceClass"@),
        subclass: selector.number_at("deviceSubclass"@),
        third: selector.number_at("deviceProtocol"@),
    }
}

/// The codes that a selector asks of a USB interface.
pub open spec fn interface_codes_wanted(selector: Value) -> Codes {
    Codes {
        class: selector.number_at("interfaceClass"@),
        subclass: selector.number_at("interfaceSubclass"@),
        third: selector.number_at("interfaceProtocol"@),
    }
}

/// The codes that a selector asks of a PCI device.
pub open spec fn pci_codes_wanted(selector: Value) -> Codes {
    Codes {
        class: selector.number_at("deviceClass"@),
        subclass: selector.number_at("deviceSubclass"@),
        third: selector.number_at("deviceProgIf"@),
    }
}

pub open spec fn device_codes(device: UsbDevice) -> Codes {
    Codes {
        class: wide(device.device_class),
        subclass: wide(device.device_subclass),
        third: wide(device.device_protocol),
    }
}

pub open spec fn interface_codes(interface: UsbInterface) -> Codes {
    Codes {
        class: wide(interface.class),
        subclass: wide(interface.subclass),
        third: wide(interface.protocol),
    }
}

pub open spec fn pci_codes(device: PciDevice) -> Codes {
    Codes {
        class: wide(device.class),
        subclass: wide(device.subclass),
        third: wide(device.prog_if),
    }
}

/// Whether a selector's list of removable states, where it gives one, has the
/// state of the device.
pub open spec fn removable_agrees(selector: Value, device: UsbDevice) -> bool {
    match selector.at("removable"@) {
        Some(value) => match value.items() {
            Some(items) => exists|i: int|
                0 <= i < items.len() && same_text(
                    opt(device.removable),
                    (#[trigger] items[i]).chars(),
                ),
            None => true,
        },
        None => true,
    }
}

/// Whether a selector names the port that the device is plugged into.
pub open spec fn place_agrees(selector: Value, device: UsbDevice) -> bool {
    &&& selector.at("bus"@) is Some
    &&& selector.at("port"@) is Some
    &&& selector.number_at("bus"@) == wide(device.bus)
    &&& selector.number_at("port"@) == wide(device.root_port)
}

/// Whether a selector asks for the class of the device, or else for that of
/// one of its interfaces. A selector that names the class of the device and
/// disagrees on the codes below it is not tried on the interfaces.
pub open spec fn class_agrees(selector: Value, device: UsbDevice) -> bool {
    if names_class(device_codes_wanted(selector), device_codes(device)) {
        rest_agrees(device_codes_wanted(selector), device_codes(device))
    } else {
        exists|i: int|
            0 <= i < device.interfaces@.len() && names_class(
                interface_codes_wanted(selector),
                interface_codes(#[trigger] device.interfaces@[i]),
            ) && rest_agrees(
                interface_codes_wanted(selector),
                interface_codes(device.interfaces@[i]),
            )
    }
}

/// Whether a selector picks a device, given whether its name patterns match.
pub open spec fn picks_usb(
    selector: Value,
    device: UsbDevice,
    vendor_hit: bool,
    product_hit: bool,
) -> bool {
    &&& is_enabled(selector)
    &&& removable_agrees(selector, device)
    &&& {
        ||| same_text(selector.text_at("vendorId"@), opt(device.vid)) && same_text(
            selector.text_at("productId"@),
            opt(device.pid),
        )
        ||| vendor_hit
        ||| product_hit
        ||| place_agrees(selector, device)
        ||| class_agrees(selector, device)
    }
}

/// Whether a selector picks a device by anything but a driver path.
pub open spec fn selects_usb(selector: Value, device: UsbDevice) -> bool {
    picks_usb(
        selector,
        device,
        hits(selector.text_at("vendorName"@), opt(device.vendor_name)),
        hits(selector.text_at("productName"@), opt(device.product_name)),
    )
}

fn has_removable(selector: &Value, device: &UsbDevice) -> (r: bool)
    ensures
        r == removable_agrees(*selector, *device),
{
    match selector.get("removable") {
        Some(value) => match value.as_array() {
            Some(items) => {
                let mut i: usize = 0;
                while i < items.len()
                    invariant
                        i <= items.len(),
                        selector.at("removable"@) == Some(*value),
                        value.items() == Some(items@),
                        forall|k: int|
                            0 <= k < i ==> !same_text(
                                opt(device.removable),
                                (#[trigger] items@[k]).chars(),
                            ),
                    decreases items.len() - i,
                {
                    if case_eq(as_deref(&device.removable), items[i].as_str()) {
                        return true;
                    }
                    i += 1;
                }
                false
            },
            None => true,
        },
        None => true,
    }
}

fn has_class(selector: &Value, device: &UsbDevice) -> (r: bool)
    ensures
        r == class_agrees(*selector, *device),
{
    let wanted = Codes {
        class: selector.get_u64("deviceClass"),
        subclass: selector.get_u64("deviceSubclass"),
        third: selector.get_u64("deviceProtocol"),
    };
    let codes = Codes {
        class: widen(device.device_class),
        subclass: widen(device.device_subclass),
        third: widen(device.device_protocol),
    };
    if is_class(&wanted, &codes) {
        return is_rest(&wanted, &codes);
    }
    let wanted = Codes {
        class: selector.get_u64("interfaceClass"),
        subclass: selector.get_u64("interfaceSubclass"),
        third: selector.get_u64("interfaceProtocol"),
    };
    let mut i: usize = 0;
    while i < device.interfaces.len()
        invariant
            i <= device.interfaces.len(),
            wanted == interface_codes_wanted(*selector),
            !names_class(device_codes_wanted(*selector), device_codes(*device)),
            forall|k: int|
                0 <= k < i ==> !(names_class(
                    wanted,
                    interface_codes(#[trigger] device.interfaces@[k]),
                ) && rest_agrees(wanted, interface_codes(device.interfaces@[k]))),
        decreases device.interfaces.len() - i,
    {
        let interface = &device.interfaces[i];
        let codes = Codes {
            class: widen(interface.class),
            subclass: widen(interface.subclass),
            third: widen(interface.protocol),
        };
        assert(codes == interface_codes(device.interfaces@[i as int]));
        if is_class(&wanted, &codes) && is_rest(&wanted, &codes) {
            return true;
        }
        i += 1;
    }
    false
}

/// Whether a selector picks a device, given whether its name patterns match.
pub fn usb_selector_picks(
    selector: &Value,
    device: &UsbDevice,
    vendor_hit: bool,
    product_hit: bool,
) -> (r: bool)
    ensures
        r == picks_usb(*selector, *device, vendor_hit, product_hit),
{
    if !enabled(selector) || !has_removable(selector, device) {
        return false;
    }
    if case_eq(selector.get_str("vendorId"), as_deref(&device.vid)) && case_eq(
        selector.get_str("productId"),
        as_deref(&device.pid),
    ) {
        return true;
    }
    if vendor_hit || product_hit {
        return true;
    }
    if same_code(selector.get_u64("bus"), widen(device.bus)) && same_code(
        selector.get_u64("port"),
        widen(device.root_port),
    ) && selector.get("bus").is_some() && selector.get("port").is_some() {
        return true;
    }
    has_class(selector, device)
}

/// Whether a selector picks a device by anything but a driver path.
pub fn usb_selector_matches(selector: &Value, device: &UsbDevice) -> (r: bool)
    ensures
        r == selects_usb(*selector, *device),
{
    let vendor_hit = regex_match(selector.get_str("vendorName"), as_deref(&device.vendor_name));
    let product_hit = regex_match(selector.get_str("productName"), as_deref(&device.product_name));
    usb_selector_picks(selector, device, vendor_hit, product_hit)
}

/// Whether a selector picks a PCI device.
pub open spec fn selects_pci(selector: Value, device: PciDevice) -> bool {
    &&& is_enabled(selector)
    &&& {
        ||| same_text(selector.text_at("address"@), Some(device.address@))
        ||| {
            &&& selector.at("vendorId"@) is Some
            &&& selector.at("deviceId"@) is Some
            &&& hex_text(selector.text_at("vendorId"@)) == (match device.vendor_id {
                Some(n) => Some(n as nat),
                None => None,
            })
            &&& hex_text(selector.text_at("deviceId"@)) == (match device.device_id {
                Some(n) => Some(n as nat),
                None => None,
            })
        }
        ||| names_class(pci_codes_wanted(selector), pci_codes(device)) && rest_agrees(
            pci_codes_wanted(selector),
            pci_codes(device),
        )
    }
}

/// Whether a selector picks a PCI device.
pub fn pci_selector_matches(selector: &Value, device: &PciDevice) -> (r: bool)
    ensures
        r == selects_pci(*selector, *device),
{
    if !enabled(selector) {
        return false;
    }
    if case_eq(selector.get_str("address"), Some(device.address.as_str())) {
        return true;
    }
    let vendor = hex(selector.get_str("vendorId"));
    let product = hex(selector.get_str("deviceId"));
    if same_code(widen(vendor), widen(device.vendor_id)) && same_code(
        widen(product),
        widen(device.device_id),
    ) && selector.get("vendorId").is_some() && selector.get("deviceId").is_some() {
        return true;
    }
    let wanted = Codes {
        class: selector.get_u64("deviceClass"),
        subclass: selector.get_u64("deviceSubclass"),
        third: selector.get_u64("deviceProgIf"),
    };
    let codes = Codes {
        class: widen(device.class),
        subclass: widen(device.subclass),
        third: widen(device.prog_if),
    };
    is_class(&wanted, &codes) && is_rest(&wanted, &codes)
}

/// The configuration.
#[derive(Debug)]
pub struct Config {
    pub usb_passthrough: Vec<Value>,
    pub pci_passthrough: Vec<Value>,
    pub evdev_passthrough: Vec<Value>,
    pub acpi_passthrough: Vec<Value>,
    pub vms: Vec<Vm>,
    pub general: General,
    /// The paths of the modules that each modalias looked up so far stands for.
    pub driver_cache: StringMap<Vec<String>>,
}

/// The first machine with the given name.
pub open spec fn vm_named(vms: Seq<Vm>, name: Seq<char>) -> Option<Vm>
    decreases vms.len(),
{
    if vms.len() == 0 {
        None
    } else if vms[0].name@ == name {
        Some(vms[0])
    } else {
        vm_named(vms.skip(1), name)
    }
}

/// Whether a machine before the given place has the same name.
pub open spec fn is_duplicate(vms: Seq<Vm>, at: int) -> bool {
    exists|k: int| 0 <= k < at && (#[trigger] vms[k]).name@ == vms[at].name@
}

/// The first fault in the machines from a place on.
pub open spec fn vm_fault(vms: Seq<Vm>, at: int) -> Option<Error>
    decreases vms.len() - at,
{
    if at >= vms.len() {
        None
    } else if vms[at].name@.len() == 0 || vms[at].socket@.len() == 0 {
        Some(Error::EmptyVmField)
    } else if is_duplicate(vms, at) {
        Some(Error::DuplicateVm(vms[at].name))
    } else {
        vm_fault(vms, at + 1)
    }
}

pub open spec fn is_transport(name: Seq<char>) -> bool {
    name == "unix"@ || name == "tcp"@ || name == "vsock"@
}

/// The first fault in the transports from a place on.
pub open spec fn transport_fault(transports: Seq<String>, at: int) -> Option<Error>
    decreases transports.len() - at,
{
    if at >= transports.len() {
        None
    } else if !is_transport(transports[at]@) {
        Some(Error::UnsupportedTransport(transports[at]))
    } else {
        transport_fault(transports, at + 1)
    }
}

/// The first fault of a configuration: a machine of an unknown type before
/// anything else, then the machines in order, then the interface.
pub open spec fn fault(config: Config) -> Option<Error> {
    let transports = config.general.api.transports@;
    if exists|i: int|
        0 <= i < config.vms@.len() && (#[trigger] config.vms@[i]).vm_type@ != "crosvm"@ {
        Some(Error::UnsupportedVmType)
    } else if vm_fault(config.vms@, 0) is Some {
        vm_fault(config.vms@, 0)
    } else if transport_fault(transports, 0) is Some {
        transport_fault(transports, 0)
    } else if lists(transports, "tcp"@) && config.general.api.port > 65535 {
        Some(Error::TcpPortTooLarge)
    } else {
        None
    }
}

/// Whether the device has an interface of a class that says what it is.
pub open spec fn has_valid_interface(device: UsbDevice) -> bool {
    exists|i: int|
        0 <= i < device.interfaces@.len() && is_valid_class(
            (#[trigger] device.interfaces@[i]).class,
        )
}

pub open spec fn is_valid_class(class: Option<u32>) -> bool {
    match class {
        Some(n) => n != 0 && n != 0xff,
        None => false,
    }
}

/// Whether a pattern matches one of the paths.
pub open spec fn hits_any(pattern: Option<Seq<char>>, paths: Seq<String>) -> bool {
    exists|i: int| 0 <= i < paths.len() && hits(pattern, Some((#[trigger] paths[i])@))
}

/// Whether a pattern matches the path of a module known for one of the
/// modaliases.
pub open spec fn hits_module(
    pattern: Option<Seq<char>>,
    modaliases: Seq<String>,
    modules: Map<Seq<char>, Vec<String>>,
) -> bool {
    exists|i: int|
        0 <= i < modaliases.len() && modules.contains_key((#[trigger] modaliases[i])@) && hits_any(
            pattern,
            modules[modaliases[i]@]@,
        )
}

/// Whether a driver path pattern picks a device. It is tried only on devices
/// whose interfaces do not say what they are.
pub open spec fn picks_by_driver(
    pattern: Option<Seq<char>>,
    device: UsbDevice,
    modules: Map<Seq<char>, Vec<String>>,
) -> bool {
    !has_valid_interface(device) && (hits_any(pattern, device.driver_paths@) || hits_module(
        pattern,
        device.modaliases@,
        modules,
    ))
}

fn any_path_hit(pattern: Option<&str>, paths: &Vec<String>) -> (r: bool)
    ensures
        r == hits_any(opt_ref(pattern), paths@),
{
    let mut i: usize = 0;
    while i < paths.len()
        invariant
            i <= paths.len(),
            forall|k: int|
                0 <= k < i ==> !hits(opt_ref(pattern), Some((#[trigger] paths@[k])@)),
        decreases paths.len() - i,
    {
        if regex_match(pattern, Some(paths[i].as_str())) {
            return true;
        }
        i += 1;
    }
    false
}

fn names_itself(device: &UsbDevice) -> (r: bool)
    ensures
        r == has_valid_interface(*device),
{
    let mut i: usize = 0;
    while i < device.interfaces.len()
        invariant
            i <= device.interfaces.len(),
            forall|k: int|
                0 <= k < i ==> !is_valid_class((#[trigger] device.interfaces@[k]).class),
        decreases device.interfaces.len() - i,
    {
        match device.interfaces[i].class {
            Some(n) => {
                if n != 0 && n != 0xff {
                    return true;
                }
            },
            None => {},
        }
        i += 1;
    }
    false
}

/// Whether a list of selectors has one that picks the device.
pub open spec fn any_selects_usb(
    config: Config,
    selectors: Seq<Value>,
    device: UsbDevice,
) -> bool {
    exists|i: int| 0 <= i < selectors.len() && config.selects(#[trigger] selectors[i], device)
}

/// Whether a rule allows a device and does not deny it.
pub open spec fn rule_allows(config: Config, rule: Value, device: UsbDevice) -> bool {
    &&& is_enabled(rule)
    &&& any_selects_usb(config, rule.items_at("allow"@), device)
    &&& !any_selects_usb(config, rule.items_at("deny"@), device)
}

/// Whether a rule routes a device: it allows the device and names a machine
/// for it.
pub open spec fn routes(config: Config, rule: Value, device: UsbDevice) -> bool {
    rule_allows(config, rule, device) && (rule.text_at("targetVm"@) is Some || texts(
        rule.items_at("allowedVms"@),
    ).len() > 0)
}

/// Whether `found` says of a USB device what `rule` does.
pub open spec fn is_usb_match(rule: Value, found: RuleMatch) -> bool {
    &&& opt(found.target_vm) == rule.text_at("targetVm"@)
    &&& views(found.allowed_vms@) == texts(rule.items_at("allowedVms"@))
    &&& found.skip_on_suspend == (rule.flag_at("skipOnSuspend"@) == Some(true))
    &&& !found.iommu_add_all
    &&& !found.iommu_skip_if_shared
    &&& !found.crosvm_use_root_bus
    &&& opt(found.tag) == rule.text_at("tag"@)
    &&& found.order == 0
}

/// Whether the rule at a place is the first that routes a device.
pub open spec fn first_route(config: Config, device: UsbDevice, at: int) -> bool {
    &&& 0 <= at < config.usb_passthrough@.len()
    &&& routes(config, config.usb_passthrough@[at], device)
    &&& forall|k: int|
        0 <= k < at ==> !routes(config, #[trigger] config.usb_passthrough@[k], device)
}

/// Whether any rule routes a device.
pub open spec fn is_routed(config: Config, device: UsbDevice) -> bool {
    exists|i: int|
        0 <= i < config.usb_passthrough@.len() && routes(
            config,
            #[trigger] config.usb_passthrough@[i],
            device,
        )
}

/// Whether `found` is what the rules say of a USB device: what the first rule
/// that routes it says, or nothing.
pub open spec fn is_usb_rule(config: Config, device: UsbDevice, found: Option<RuleMatch>) -> bool {
    match found {
        Some(found) => exists|at: int|
            #![trigger config.usb_passthrough@[at]]
            first_route(config, device, at) && is_usb_match(config.usb_passthrough@[at], found),
        None => !is_routed(config, device),
    }
}

pub open spec fn any_selects_pci(selectors: Seq<Value>, device: PciDevice) -> bool {
    exists|i: int| 0 <= i < selectors.len() && selects_pci(#[trigger] selectors[i], device)
}

/// Whether a rule routes a PCI device.
pub open spec fn routes_pci(rule: Value, device: PciDevice) -> bool {
    &&& is_enabled(rule)
    &&& any_selects_pci(rule.items_at("allow"@), device)
    &&& !any_selects_pci(rule.items_at("deny"@), device)
    &&& rule.text_at("targetVm"@) is Some
}

/// How many selectors are looked at until one picks the device.
pub open spec fn examined(selectors: Seq<Value>, device: PciDevice) -> nat
    decreases selectors.len(),
{
    if selectors.len() == 0 {
        0
    } else if selects_pci(selectors[0], device) {
        1
    } else {
        1 + examined(selectors.skip(1), device)
    }
}

/// How many selectors of the enabled rules are looked at.
pub open spec fn position(rules: Seq<Value>, device: PciDevice) -> nat
    decreases rules.len(),
{
    if rules.len() == 0 {
        0
    } else {
        position(rules.drop_last(), device) + if is_enabled(rules.last()) {
            examined(rules.last().items_at("allow"@), device)
        } else {
            0
        }
    }
}

/// A count that stays at the largest number that there is room for.
pub open spec fn capped(n: nat) -> nat {
    if n <= usize::MAX {
        n
    } else {
        usize::MAX as nat
    }
}

/// Whether `found` says of a PCI device what `rule` does.
pub open spec fn is_pci_match(rule: Value, found: RuleMatch) -> bool {
    &&& opt(found.target_vm) == rule.text_at("targetVm"@)
    &&& found.allowed_vms@.len() == 0
    &&& found.skip_on_suspend == (rule.flag_at("skipOnSuspend"@) == Some(true))
    &&& found.iommu_add_all == (rule.flag_at("pciIommuAddAll"@) == Some(true))
    &&& found.iommu_skip_if_shared == (rule.flag_at("pciIommuSkipIfShared"@) == Some(true))
    &&& found.crosvm_use_root_bus == (rule.flag_at("crosvmUseRootBus"@) == Some(true))
    &&& opt(found.tag) == rule.text_at("tag"@)
}

/// Whether the rule at a place is the first that routes a PCI device.
pub open spec fn first_pci_route(rules: Seq<Value>, device: PciDevice, at: int) -> bool {
    &&& 0 <= at < rules.len()
    &&& routes_pci(rules[at], device)
    &&& forall|k: int| 0 <= k < at ==> !routes_pci(#[trigger] rules[k], device)
}

/// Whether `found` is what the rules say of a PCI device. Its order is the
/// place of the selector that picked it among all that were looked at.
pub open spec fn is_pci_rule(rules: Seq<Value>, device: PciDevice, found: Option<RuleMatch>) -> bool {
    match found {
        Some(found) => exists|at: int|
            #![trigger rules[at]]
            first_pci_route(rules, device, at) && is_pci_match(rules[at], found) && found.order
                == capped(position(rules.take(at + 1), device)),
        None => forall|k: int| 0 <= k < rules.len() ==> !routes_pci(#[trigger] rules[k], device),
    }
}

/// Whether a selector list of a rule asks for a driver path.
pub open spec fn asks_driver(selectors: Seq<Value>) -> bool {
    exists|i: int|
        0 <= i < selectors.len() && (#[trigger] selectors[i]).text_at("driverPath"@) is Some
}

/// Whether an enabled rule looks at driver paths.
pub open spec fn reads_drivers(rules: Seq<Value>) -> bool {
    exists|i: int|
        0 <= i < rules.len() && is_enabled(#[trigger] rules[i]) && (asks_driver(
            rules[i].items_at("allow"@),
        ) || asks_driver(rules[i].items_at("deny"@)))
}

fn any_asks_driver(rule: &Value, key: &str) -> (r: bool)
    ensures
        r == asks_driver(rule.items_at(key@)),
{
    match rule.get_array(key) {
        Some(selectors) => {
            let mut i: usize = 0;
            while i < selectors.len()
                invariant
                    i <= selectors.len(),
                    rule.items_at(key@) == selectors@,
                    forall|k: int|
                        0 <= k < i ==> (#[trigger] selectors@[k]).text_at("driverPath"@) is None,
                decreases selectors.len() - i,
            {
                if selectors[i].get_str("driverPath").is_some() {
                    return true;
                }
                i += 1;
            }
            false
        },
        None => false,
    }
}

fn any_pci_selector(rule: &Value, key: &str, device: &PciDevice) -> (r: bool)
    ensures
        r == any_selects_pci(rule.items_at(key@), *device),
{
    match rule.get_array(key) {
        Some(selectors) => {
            let mut i: usize = 0;
            while i < selectors.len()
                invariant
                    i <= selectors.len(),
                    rule.items_at(key@) == selectors@,
                    forall|k: int| 0 <= k < i ==> !selects_pci(#[trigger] selectors@[k], *device),
                decreases selectors.len() - i,
            {
                if pci_selector_matches(&selectors[i], device) {
                    return true;
                }
                i += 1;
            }
            false
        },
        None => false,
    }
}

/// Looks for the first selector that picks the device, and counts those that
/// it looked at.
fn count_selectors(rule: &Value, device: &PciDevice, start: usize) -> (out: (bool, usize))
    ensures
        out.0 == any_selects_pci(rule.items_at("allow"@), *device),
        out.1 == capped((start + examined(rule.items_at("allow"@), *device)) as nat),
{
    let mut order: usize = start;
    match rule.get_array("allow") {
        Some(selectors) => {
            let mut i: usize = 0;
            assert(selectors@.skip(0) =~= selectors@);
            while i < selectors.len()
                invariant
                    i <= selectors.len(),
                    rule.items_at("allow"@) == selectors@,
                    order == capped((start + i) as nat),
                    examined(selectors@, *device) == i + examined(
                        selectors@.skip(i as int),
                        *device,
                    ),
                    forall|k: int| 0 <= k < i ==> !selects_pci(#[trigger] selectors@[k], *device),
                decreases selectors.len() - i,
            {
                let ghost rest = selectors@.skip(i as int);
                assert(rest[0] == selectors@[i as int]);
                assert(rest.skip(1) =~= selectors@.skip(i + 1));
                if order < usize::MAX {
                    order += 1;
                }
                if pci_selector_matches(&selectors[i], device) {
                    return (true, order);
                }
                i += 1;
            }
            (false, order)
        },
        None => (false, order),
    }
}

impl Config {
    /// The paths of the modules that are known for a modalias.
    pub open spec fn modules(self) -> Map<Seq<char>, Vec<String>> {
        self.driver_cache@
    }

    /// Whether a selector picks a USB device.
    pub open spec fn selects(self, selector: Value, device: UsbDevice) -> bool {
        selects_usb(selector, device) || picks_by_driver(
            selector.text_at("driverPath"@),
            device,
            self.modules(),
        )
    }

    /// A configuration that knows no modules yet.
    pub fn new(
        usb_passthrough: Vec<Value>,
        pci_passthrough: Vec<Value>,
        evdev_passthrough: Vec<Value>,
        acpi_passthrough: Vec<Value>,
        vms: Vec<Vm>,
        general: General,
    ) -> (config: Config)
        ensures
            config.usb_passthrough == usb_passthrough,
            config.pci_passthrough == pci_passthrough,
            config.evdev_passthrough == evdev_passthrough,
            config.acpi_passthrough == acpi_passthrough,
            config.vms == vms,
            config.general == general,
            config.modules() == Map::<Seq<char>, Vec<String>>::empty(),
    {
        Config {
            usb_passthrough,
            pci_passthrough,
            evdev_passthrough,
            acpi_passthrough,
            vms,
            general,
            driver_cache: StringMap::new(),
        }
    }

    /// Checks the machines and the interface; the first fault is reported.
    pub fn validate(&self) -> (out: Result<(), Error>)
        ensures
            out == match fault(*self) {
                Some(error) => Err::<(), Error>(error),
                None => Ok(()),
            },
    {
        let mut i: usize = 0;
        while i < self.vms.len()
            invariant
                i <= self.vms.len(),
                forall|k: int| 0 <= k < i ==> (#[trigger] self.vms@[k]).vm_type@ == "crosvm"@,
            decreases self.vms.len() - i,
        {
            if !same(self.vms[i].vm_type.as_str(), "crosvm") {
                return Err(Error::UnsupportedVmType);
            }
            i += 1;
        }
        let mut i: usize = 0;
        while i < self.vms.len()
            invariant
                i <= self.vms.len(),
                forall|k: int|
                    0 <= k < self.vms@.len() ==> (#[trigger] self.vms@[k]).vm_type@ == "crosvm"@,
                vm_fault(self.vms@, 0) == vm_fault(self.vms@, i as int),
            decreases self.vms.len() - i,
        {
            let vm = &self.vms[i];
            if vm.name.as_str().is_empty() || vm.socket.as_str().is_empty() {
                return Err(Error::EmptyVmField);
            }
            let mut k: usize = 0;
            while k < i
                invariant
                    k <= i < self.vms.len(),
                    *vm == self.vms@[i as int],
                    vm.name@.len() > 0,
                    vm.socket@.len() > 0,
                    forall|k: int|
                        0 <= k < self.vms@.len() ==> (#[trigger] self.vms@[k]).vm_type@
                            == "crosvm"@,
                    vm_fault(self.vms@, 0) == vm_fault(self.vms@, i as int),
                    forall|j: int|
                        0 <= j < k ==> (#[trigger] self.vms@[j]).name@ != vm.name@,
                decreases i - k,
            {
                if same(self.vms[k].name.as_str(), vm.name.as_str()) {
                    assert(is_duplicate(self.vms@, i as int));
                    return Err(Error::DuplicateVm(vm.name.clone()));
                }
                k += 1;
            }
            assert(!is_duplicate(self.vms@, i as int));
            i += 1;
        }
        let transports = &self.general.api.transports;
        let mut i: usize = 0;
        while i < transports.len()
            invariant
                i <= transports.len(),
                transports@ == self.general.api.transports@,
                forall|k: int|
                    0 <= k < self.vms@.len() ==> (#[trigger] self.vms@[k]).vm_type@ == "crosvm"@,
                vm_fault(self.vms@, 0) is None,
                transport_fault(transports@, 0) == transport_fault(transports@, i as int),
            decreases transports.len() - i,
        {
            let name = &transports[i];
            if !(same(name.as_str(), "unix") || same(name.as_str(), "tcp") || same(
                name.as_str(),
                "vsock",
            )) {
                return Err(Error::UnsupportedTransport(name.clone()));
            }
            i += 1;
        }
        if contains(transports, "tcp") && self.general.api.port > 65535 {
            return Err(Error::TcpPortTooLarge);
        }
        Ok(())
    }

    /// The machine with the given name.
    pub fn vm(&self, name: &str) -> (out: Result<&Vm, Error>)
        ensures
            match out {
                Ok(vm) => vm_named(self.vms@, name@) == Some(*vm),
                Err(error) => vm_named(self.vms@, name@) is None && error is UnknownVm
                    && error->UnknownVm_0@ == name@,
            },
    {
        let mut i: usize = 0;
        assert(self.vms@.skip(0) =~= self.vms@);
        while i < self.vms.len()
            invariant
                i <= self.vms.len(),
                vm_named(self.vms@, name@) == vm_named(self.vms@.skip(i as int), name@),
            decreases self.vms.len() - i,
        {
            let ghost rest = self.vms@.skip(i as int);
            assert(rest[0] == self.vms@[i as int]);
            assert(rest.skip(1) =~= self.vms@.skip(i + 1));
            if same(self.vms[i].name.as_str(), name) {
                return Ok(&self.vms[i]);
            }
            i += 1;
        }
        Err(Error::UnknownVm(name.to_owned()))
    }

    /// Whether a selector picks a USB device.
    pub fn usb_selector_matches(&self, selector: &Value, device: &UsbDevice) -> (r: bool)
        ensures
            r == self.selects(*selector, *device),
    {
        if usb_selector_matches(selector, device) {
            return true;
        }
        if names_itself(device) {
            return false;
        }
        let pattern = selector.get_str("driverPath");
        if any_path_hit(pattern, &device.driver_paths) {
            return true;
        }
        let mut i: usize = 0;
        while i < device.modaliases.len()
            invariant
                i <= device.modaliases.len(),
                opt_ref(pattern) == selector.text_at("driverPath"@),
                !has_valid_interface(*device),
                forall|k: int|
                    0 <= k < i ==> !(self.modules().contains_key(
                        (#[trigger] device.modaliases@[k])@,
                    ) && hits_any(opt_ref(pattern), self.modules()[device.modaliases@[k]@]@)),
            decreases device.modaliases.len() - i,
        {
            match self.module_paths(device.modaliases[i].as_str()) {
                Some(paths) => {
                    if any_path_hit(pattern, paths) {
                        return true;
                    }
                },
                None => {},
            }
            i += 1;
        }
        false
    }

    /// The paths of the modules that are known for a modalias.
    pub fn module_paths(&self, modalias: &str) -> (paths: Option<&Vec<String>>)
        ensures
            paths is Some <==> self.modules().contains_key(modalias@),
            paths is Some ==> *paths->0 == self.modules()[modalias@],
    {
        self.driver_cache.get(modalias)
    }

    /// The modaliases of a device whose modules the rules may ask for and are
    /// not known yet.
    pub fn unknown_modaliases(&self, device: &UsbDevice) -> (out: Vec<String>)
        ensures
            forall|modalias: Seq<char>|
                lists(out@, modalias) <==> lists(device.modaliases@, modalias)
                    && !self.modules().contains_key(modalias) && !has_valid_interface(*device)
                    && reads_drivers(self.usb_passthrough@),
    {
        let mut out: Vec<String> = Vec::new();
        if names_itself(device) || !self.reads_drivers() {
            return out;
        }
        let mut i: usize = 0;
        while i < device.modaliases.len()
            invariant
                i <= device.modaliases.len(),
                forall|modalias: Seq<char>|
                    lists(out@, modalias) <==> lists(device.modaliases@.take(i as int), modalias)
                        && !self.modules().contains_key(modalias),
            decreases device.modaliases.len() - i,
        {
            let modalias = &device.modaliases[i];
            let ghost head = device.modaliases@.take(i as int);
            let ghost next = device.modaliases@.take(i + 1);
            let ghost done = out@;
            assert(next =~= head.push(*modalias));
            if self.module_paths(modalias.as_str()).is_none() {
                let copy = modalias.clone();
                out.push(copy);
            }
            assert forall|text: Seq<char>|
                #![trigger lists(out@, text)]
                lists(out@, text) <==> lists(next, text) && !self.modules().contains_key(text) by {
                lemma_lists_push(head, *modalias, text);
                lemma_lists_push(done, *modalias, text);
                assert(lists(done, text) <==> lists(head, text) && !self.modules().contains_key(
                    text,
                ));
            }
            i += 1;
        }
        assert(device.modaliases@.take(device.modaliases@.len() as int) =~= device.modaliases@);
        out
    }

    fn reads_drivers(&self) -> (r: bool)
        ensures
            r == reads_drivers(self.usb_passthrough@),
    {
        let mut i: usize = 0;
        while i < self.usb_passthrough.len()
            invariant
                i <= self.usb_passthrough.len(),
                forall|k: int|
                    0 <= k < i ==> !(is_enabled(#[trigger] self.usb_passthrough@[k]) && (
                    asks_driver(self.usb_passthrough@[k].items_at("allow"@)) || asks_driver(
                        self.usb_passthrough@[k].items_at("deny"@),
                    ))),
            decreases self.usb_passthrough.len() - i,
        {
            let rule = &self.usb_passthrough[i];
            if enabled(rule) && (any_asks_driver(rule, "allow") || any_asks_driver(rule, "deny")) {
                return true;
            }
            i += 1;
        }
        false
    }

    /// Remembers the paths of the modules that a modalias stands for.
    pub fn learn_modules(&mut self, modalias: &str, paths: Vec<String>)
        ensures
            final(self).modules() == old(self).modules().insert(modalias@, paths),
            final(self).usb_passthrough == old(self).usb_passthrough,
            final(self).pci_passthrough == old(self).pci_passthrough,
            final(self).evdev_passthrough == old(self).evdev_passthrough,
            final(self).acpi_passthrough == old(self).acpi_passthrough,
            final(self).vms == old(self).vms,
            final(self).general == old(self).general,
    {
        self.driver_cache.insert(modalias, paths);
    }

    fn any_usb_selector(&self, rule: &Value, key: &str, device: &UsbDevice) -> (r: bool)
        ensures
            r == any_selects_usb(*self, rule.items_at(key@), *device),
    {
        match rule.get_array(key) {
            Some(selectors) => {
                let mut i: usize = 0;
                while i < selectors.len()
                    invariant
                        i <= selectors.len(),
                        rule.items_at(key@) == selectors@,
                        forall|k: int|
                            0 <= k < i ==> !self.selects(#[trigger] selectors@[k], *device),
                    decreases selectors.len() - i,
                {
                    if self.usb_selector_matches(&selectors[i], device) {
                        return true;
                    }
                    i += 1;
                }
                false
            },
            None => false,
        }
    }

    /// Whether a rule allows a device and does not deny it.
    pub fn rule_matches(&self, rule: &Value, device: &UsbDevice) -> (r: bool)
        ensures
            r == rule_allows(*self, *rule, *device),
    {
        if !enabled(rule) {
            return false;
        }
        let allowed = self.any_usb_selector(rule, "allow", device);
        let denied = self.any_usb_selector(rule, "deny", device);
        allowed && !denied
    }

    /// What the rules say of a USB device.
    pub fn usb_rule(&self, device: &UsbDevice) -> (found: Option<RuleMatch>)
        ensures
            is_usb_rule(*self, *device, found),
    {
        let mut i: usize = 0;
        while i < self.usb_passthrough.len()
            invariant
                i <= self.usb_passthrough.len(),
                forall|k: int|
                    0 <= k < i ==> !routes(*self, #[trigger] self.usb_passthrough@[k], *device),
            decreases self.usb_passthrough.len() - i,
        {
            let rule = &self.usb_passthrough[i];
            let target_vm = string(rule, "targetVm");
            let allowed_vms = string_list(rule, "allowedVms");
            assert(views(allowed_vms@).len() == allowed_vms@.len());
            if self.rule_matches(rule, device) && (target_vm.is_some() || allowed_vms.len() > 0) {
                let found = RuleMatch {
                    target_vm,
                    allowed_vms,
                    skip_on_suspend: bool_value(rule, "skipOnSuspend"),
                    iommu_add_all: false,
                    iommu_skip_if_shared: false,
                    crosvm_use_root_bus: false,
                    tag: string(rule, "tag"),
                    order: 0,
                };
                assert(first_route(*self, *device, i as int));
                assert(is_usb_match(self.usb_passthrough@[i as int], found));
                return Some(found);
            }
            i += 1;
        }
        None
    }

    /// What the rules say of a PCI device.
    pub fn pci_rule(&self, device: &PciDevice) -> (found: Option<RuleMatch>)
        ensures
            is_pci_rule(self.pci_passthrough@, *device, found),
    {
        let mut order: usize = 0;
        let mut i: usize = 0;
        assert(self.pci_passthrough@.take(0).len() == 0);
        while i < self.pci_passthrough.len()
            invariant
                i <= self.pci_passthrough.len(),
                order == capped(position(self.pci_passthrough@.take(i as int), *device)),
                forall|k: int|
                    0 <= k < i ==> !routes_pci(#[trigger] self.pci_passthrough@[k], *device),
            decreases self.pci_passthrough.len() - i,
        {
            let rule = &self.pci_passthrough[i];
            let ghost next = self.pci_passthrough@.take(i + 1);
            assert(next.drop_last() =~= self.pci_passthrough@.take(i as int));
            assert(next.last() == *rule);
            if enabled(rule) {
                let (picked, count) = count_selectors(rule, device, order);
                order = count;
                assert(order == capped(position(next, *device)));
                let denied = any_pci_selector(rule, "deny", device);
                let target_vm = string(rule, "targetVm");
                if picked && !denied && target_vm.is_some() {
                    let found = RuleMatch {
                        target_vm,
                        allowed_vms: Vec::new(),
                        skip_on_suspend: bool_value(rule, "skipOnSuspend"),
                        iommu_add_all: bool_value(rule, "pciIommuAddAll"),
                        iommu_skip_if_shared: bool_value(rule, "pciIommuSkipIfShared"),
                        crosvm_use_root_bus: bool_value(rule, "crosvmUseRootBus"),
                        tag: string(rule, "tag"),
                        order,
                    };
                    assert(first_pci_route(self.pci_passthrough@, *device, i as int));
                    assert(is_pci_match(self.pci_passthrough@[i as int], found));
                    return Some(found);
                }
            }
            i += 1;
        }
        None
    }

    /// Whether an enabled PCI rule names the machine.
    pub fn has_pci_rules(&self, vm: &str) -> (r: bool)
        ensures
            r == names_pci(self.pci_passthrough@, vm@),
    {
        let mut i: usize = 0;
        while i < self.pci_passthrough.len()
            invariant
                i <= self.pci_passthrough.len(),
                forall|k: int|
                    0 <= k < i ==> !(is_enabled(#[trigger] self.pci_passthrough@[k])
                        && self.pci_passthrough@[k].text_at("targetVm"@) == Some(vm@)),
            decreases self.pci_passthrough.len() - i,
        {
            let rule = &self.pci_passthrough[i];
            if enabled(rule) && is_text(rule.get_str("targetVm"), vm) {
                return true;
            }
            i += 1;
        }
        false
    }

    /// Whether any USB rule is enabled.
    pub fn routes_usb(&self) -> (r: bool)
        ensures
            r == has_usb_rules(self.usb_passthrough@),
    {
        let mut i: usize = 0;
        while i < self.usb_passthrough.len()
            invariant
                i <= self.usb_passthrough.len(),
                forall|k: int| 0 <= k < i ==> !is_enabled(#[trigger] self.usb_passthrough@[k]),
            decreases self.usb_passthrough.len() - i,
        {
            if enabled(&self.usb_passthrough[i]) {
                return true;
            }
            i += 1;
        }
        false
    }
}

/// Whether an enabled PCI rule names the machine.
pub open spec fn names_pci(rules: Seq<Value>, vm: Seq<char>) -> bool {
    exists|i: int|
        0 <= i < rules.len() && is_enabled(#[trigger] rules[i]) && rules[i].text_at("targetVm"@)
            == Some(vm)
}

/// Whether any USB rule is enabled.
pub open spec fn has_usb_rules(rules: Seq<Value>) -> bool {
    exists|i: int| 0 <= i < rules.len() && is_enabled(#[trigger] rules[i])
}

/// The modules that a lookup printed, one per line.
pub fn module_names(stdout: &str) -> (out: Vec<String>)
    ensures
        views(out@) == lines_of(stdout@),
{
    lines(stdout)
}

/// The path that a lookup printed, where it printed one.
pub open spec fn printed_path(stdout: Option<Seq<char>>) -> Option<Seq<char>> {
    match stdout {
        Some(text) if trimmed(text).len() > 0 => Some(trimmed(text)),
        _ => None,
    }
}

/// The path that a lookup printed, where it printed one.
pub fn path_of_module(stdout: &Option<String>) -> (out: Option<String>)
    ensures
        opt(out) == printed_path(opt(*stdout)),
{
    match stdout {
        Some(text) => {
            let path = trim(text.as_str());
            if path.as_str().is_empty() {
                None
            } else {
                Some(path)
            }
        },
        None => None,
    }
}

/// A rule that denies a device never routes it, whatever it allows.
pub proof fn law_deny_overrides_allow(config: Config, rule: Value, device: UsbDevice)
    requires
        any_selects_usb(config, rule.items_at("deny"@), device),
    ensures
        !routes(config, rule, device),
{
}

/// A PCI rule that denies a device never routes it, whatever it allows.
pub proof fn law_pci_deny_overrides_allow(rule: Value, device: PciDevice)
    requires
        any_selects_pci(rule.items_at("deny"@), device),
    ensures
        !routes_pci(rule, device),
{
}

/// Without an enabled rule no device is routed.
pub proof fn law_no_rules_route_nothing(config: Config, device: UsbDevice)
    requires
        !has_usb_rules(config.usb_passthrough@),
    ensures
        !is_routed(config, device),
{
}

/// What the rules say of a device is settled: two answers agree in all that
/// they hold.
pub proof fn law_usb_rule_is_settled(
    config: Config,
    device: UsbDevice,
    one: Option<RuleMatch>,
    other: Option<RuleMatch>,
)
    requires
        is_usb_rule(config, device, one),
        is_usb_rule(config, device, other),
    ensures
        one is Some <==> other is Some,
        one is Some ==> opt(one->0.target_vm) == opt(other->0.target_vm) && views(
            one->0.allowed_vms@,
        ) == views(other->0.allowed_vms@) && opt(one->0.tag) == opt(other->0.tag)
            && one->0.skip_on_suspend == other->0.skip_on_suspend,
{
    if one is Some && other is Some {
        let rules = config.usb_passthrough@;
        let a = choose|at: int|
            #![trigger rules[at]]
            first_route(config, device, at) && is_usb_match(rules[at], one->0);
        let b = choose|at: int|
            #![trigger rules[at]]
            first_route(config, device, at) && is_usb_match(rules[at], other->0);
        assert(a == b);
    }
}

/// What switches a rule or selector off: a true `disable`, or a false
/// `enable` where `disable` is not given. Nothing but an object is on.
pub proof fn law_switches(value: Value)
    ensures
        is_enabled(value) <==> value is Object && switched_on(value),
        value !is Object ==> switched_on(value),
        value.at("disable"@) == Some(Value::Bool(true)) ==> !is_enabled(value),
        value.at("disable"@) is None && value.at("enable"@) == Some(Value::Bool(false))
            ==> !is_enabled(value),
        value is Object && value.at("disable"@) == Some(Value::Bool(false)) ==> is_enabled(value),
        value is Object && value.at("disable"@) is None && value.at("enable"@) != Some(
            Value::Bool(false),
        ) ==> is_enabled(value),
{
}

/// A selector that is switched off picks no device, whatever it asks for.
pub proof fn law_switched_off_picks_nothing(selector: Value, usb: UsbDevice, pci: PciDevice)
    requires
        selector.at("disable"@) == Some(Value::Bool(true)) || selector !is Object,
    ensures
        !selects_usb(selector, usb),
        !selects_pci(selector, pci),
{
}

/// A selector with a list of removable states picks only devices in one of
/// them.
pub proof fn law_removable_is_kept(selector: Value, device: UsbDevice, states: Vec<Value>)
    requires
        selector.at("removable"@) == Some(Value::Array(states)),
        selects_usb(selector, device),
    ensures
        device.removable is Some,
        exists|i: int|
            0 <= i < states@.len() && ((#[trigger] states@[i]) matches Value::Text(state)
                && same_letters(device.removable->0@, state@)),
{
    let i = choose|i: int|
        0 <= i < states@.len() && same_text(opt(device.removable), (#[trigger] states@[i]).chars());
    assert(states@[i] is Text);
}

/// A selector that gives a vendor id and a product id and nothing else picks
/// exactly the devices that have both, in any letter case.
pub proof fn law_usb_ids_pick(selector: Value, device: UsbDevice, vid: String, pid: String)
    requires
        is_enabled(selector),
        selector.at("vendorId"@) == Some(Value::Text(vid)),
        selector.at("productId"@) == Some(Value::Text(pid)),
        selector.at("removable"@) is None,
        selector.at("vendorName"@) is None,
        selector.at("productName"@) is None,
        selector.at("bus"@) is None,
        selector.at("deviceClass"@) is None,
        selector.at("interfaceClass"@) is None,
    ensures
        selects_usb(selector, device) <==> {
            &&& device.vid is Some
            &&& same_letters(vid@, device.vid->0@)
            &&& device.pid is Some
            &&& same_letters(pid@, device.pid->0@)
        },
{
}

/// A selector that gives one of the two ids and nothing else picks no device.
pub proof fn law_half_an_id_picks_nothing(selector: Value, usb: UsbDevice, pci: PciDevice)
    requires
        selector.at("vendorId"@) is None || (selector.at("productId"@) is None && selector.at(
            "deviceId"@,
        ) is None),
        selector.at("vendorName"@) is None,
        selector.at("productName"@) is None,
        selector.at("bus"@) is None,
        selector.at("address"@) is None,
        selector.at("deviceClass"@) is None,
        selector.at("interfaceClass"@) is None,
    ensures
        !selects_usb(selector, usb),
        !selects_pci(selector, pci),
{
}

/// A selector that gives name patterns and nothing else picks exactly the
/// devices one of whose names is matched by its own pattern.
pub proof fn law_names_pick(selector: Value, device: UsbDevice)
    requires
        is_enabled(selector),
        selector.at("removable"@) is None,
        selector.at("vendorId"@) is None,
        selector.at("bus"@) is None,
        selector.at("deviceClass"@) is None,
        selector.at("interfaceClass"@) is None,
    ensures
        selects_usb(selector, device) <==> {
            ||| selector.at("vendorName"@) matches Some(Value::Text(pattern))
                && device.vendor_name is Some && matches_start(
                pattern@,
                device.vendor_name->0@,
            )
            ||| selector.at("productName"@) matches Some(Value::Text(pattern))
                && device.product_name is Some && matches_start(
                pattern@,
                device.product_name->0@,
            )
        },
{
}

/// A selector that gives a bus and a port and nothing else picks exactly the
/// device that is plugged in there.
pub proof fn law_port_picks(selector: Value, device: UsbDevice, bus: u64, port: u64)
    requires
        is_enabled(selector),
        selector.at("bus"@) == Some(Value::Number(Some(bus))),
        selector.at("port"@) == Some(Value::Number(Some(port))),
        selector.at("removable"@) is None,
        selector.at("vendorId"@) is None,
        selector.at("vendorName"@) is None,
        selector.at("productName"@) is None,
        selector.at("deviceClass"@) is None,
        selector.at("interfaceClass"@) is None,
    ensures
        selects_usb(selector, device) <==> {
            &&& device.bus is Some
            &&& device.bus->0 == bus
            &&& device.root_port is Some
            &&& device.root_port->0 == port
        },
{
}

/// A selector that gives codes of a device and nothing else picks exactly the
/// devices that have each of them.
pub proof fn law_device_codes_pick(selector: Value, device: UsbDevice, class: u64)
    requires
        is_enabled(selector),
        selector.at("deviceClass"@) == Some(Value::Number(Some(class))),
        selector.at("removable"@) is None,
        selector.at("vendorId"@) is None,
        selector.at("vendorName"@) is None,
        selector.at("productName"@) is None,
        selector.at("bus"@) is None,
        selector.at("interfaceClass"@) is None,
    ensures
        selects_usb(selector, device) <==> {
            &&& device.device_class is Some
            &&& device.device_class->0 == class
            &&& selector.at("deviceSubclass"@) matches Some(Value::Number(Some(subclass)))
                ==> device.device_subclass is Some && device.device_subclass->0 == subclass
            &&& selector.at("deviceProtocol"@) matches Some(Value::Number(Some(protocol)))
                ==> device.device_protocol is Some && device.device_protocol->0 == protocol
        },
{
}

/// A selector that gives codes of an interface and nothing else picks exactly
/// the devices with one interface that has each of them.
pub proof fn law_interface_codes_pick(selector: Value, device: UsbDevice, class: u64)
    requires
        is_enabled(selector),
        selector.at("interfaceClass"@) == Some(Value::Number(Some(class))),
        selector.at("removable"@) is None,
        selector.at("vendorId"@) is None,
        selector.at("vendorName"@) is None,
        selector.at("productName"@) is None,
        selector.at("bus"@) is None,
        selector.at("deviceClass"@) is None,
    ensures
        selects_usb(selector, device) <==> exists|i: int|
            #![trigger device.interfaces@[i]]
            0 <= i < device.interfaces@.len() && {
                let interface = device.interfaces@[i];
                &&& interface.class is Some
                &&& interface.class->0 == class
                &&& selector.at("interfaceSubclass"@) matches Some(Value::Number(Some(subclass)))
                    ==> interface.subclass is Some && interface.subclass->0 == subclass
                &&& selector.at("interfaceProtocol"@) matches Some(Value::Number(Some(protocol)))
                    ==> interface.protocol is Some && interface.protocol->0 == protocol
            },
{
}

/// A selector that gives a subclass or a protocol of an interface picks a
/// device that it does not pick by ids, names, port or device class only by
/// an interface of the very class that has both codes.
pub proof fn law_interface_codes_are_kept(selector: Value, device: UsbDevice)
    requires
        selects_usb(selector, device),
        selector.number_at("deviceClass"@) is None || device.device_class is None
            || selector.number_at("deviceClass"@)->0 != device.device_class->0,
        selector.text_at("vendorId"@) is None || device.vid is None || !same_letters(
            selector.text_at("vendorId"@)->0,
            device.vid->0@,
        ),
        selector.text_at("vendorName"@) is None,
        selector.text_at("productName"@) is None,
        selector.at("port"@) is None || (selector.number_at("port"@) is Some && (
        device.root_port is None || selector.number_at("port"@)->0 != device.root_port->0)),
    ensures
        exists|i: int|
            #![trigger device.interfaces@[i]]
            0 <= i < device.interfaces@.len() && {
                let interface = device.interfaces@[i];
                &&& interface.class is Some
                &&& selector.number_at("interfaceClass"@) is Some
                &&& interface.class->0 == selector.number_at("interfaceClass"@)->0
                &&& selector.number_at("interfaceSubclass"@) is Some ==> {
                    &&& interface.subclass is Some
                    &&& interface.subclass->0 == selector.number_at("interfaceSubclass"@)->0
                }
                &&& selector.number_at("interfaceProtocol"@) is Some ==> {
                    &&& interface.protocol is Some
                    &&& interface.protocol->0 == selector.number_at("interfaceProtocol"@)->0
                }
            },
{
    let i = choose|i: int|
        0 <= i < device.interfaces@.len() && names_class(
            interface_codes_wanted(selector),
            interface_codes(#[trigger] device.interfaces@[i]),
        ) && rest_agrees(interface_codes_wanted(selector), interface_codes(device.interfaces@[i]));
    assert(names_class(
        interface_codes_wanted(selector),
        interface_codes(device.interfaces@[i]),
    ));
}

/// A selector that names the class of a device and another subclass or
/// protocol does not pick it by its interfaces either.
pub proof fn law_device_codes_are_kept(selector: Value, device: UsbDevice)
    requires
        selects_usb(selector, device),
        selector.number_at("deviceClass"@) is Some,
        device.device_class is Some,
        selector.number_at("deviceClass"@)->0 == device.device_class->0,
        selector.at("vendorId"@) is None,
        selector.at("vendorName"@) is None,
        selector.at("productName"@) is None,
        selector.at("bus"@) is None,
    ensures
        selector.number_at("deviceSubclass"@) is Some ==> {
            &&& device.device_subclass is Some
            &&& device.device_subclass->0 == selector.number_at("deviceSubclass"@)->0
        },
        selector.number_at("deviceProtocol"@) is Some ==> {
            &&& device.device_protocol is Some
            &&& device.device_protocol->0 == selector.number_at("deviceProtocol"@)->0
        },
{
}

/// A selector that gives an address and nothing else picks exactly the PCI
/// device at it, in any letter case.
pub proof fn law_address_picks(selector: Value, device: PciDevice, address: String)
    requires
        is_enabled(selector),
        selector.at("address"@) == Some(Value::Text(address)),
        selector.at("vendorId"@) is None,
        selector.at("deviceClass"@) is None,
    ensures
        selects_pci(selector, device) <==> same_letters(address@, device.address@),
{
}

/// A selector that gives the two ids and nothing else picks exactly the PCI
/// devices that have both numbers.
pub proof fn law_pci_ids_pick(
    selector: Value,
    device: PciDevice,
    vendor: String,
    product: String,
    vendor_id: u32,
    device_id: u32,
)
    requires
        is_enabled(selector),
        selector.at("vendorId"@) == Some(Value::Text(vendor)),
        selector.at("deviceId"@) == Some(Value::Text(product)),
        hex_text(Some(vendor@)) == Some(vendor_id as nat),
        hex_text(Some(product@)) == Some(device_id as nat),
        selector.at("address"@) is None,
        selector.at("deviceClass"@) is None,
    ensures
        selects_pci(selector, device) <==> device.vendor_id == Some(vendor_id) && device.device_id
            == Some(device_id),
{
}

/// A selector that gives codes and nothing else picks exactly the PCI devices
/// that have each of them.
pub proof fn law_pci_codes_pick(selector: Value, device: PciDevice, class: u64)
    requires
        is_enabled(selector),
        selector.at("deviceClass"@) == Some(Value::Number(Some(class))),
        selector.at("address"@) is None,
        selector.at("vendorId"@) is None,
    ensures
        selects_pci(selector, device) <==> {
            &&& device.class is Some
            &&& device.class->0 == class
            &&& selector.at("deviceSubclass"@) matches Some(Value::Number(Some(subclass)))
                ==> device.subclass is Some && device.subclass->0 == subclass
            &&& selector.at("deviceProgIf"@) matches Some(Value::Number(Some(prog_if)))
                ==> device.prog_if is Some && device.prog_if->0 == prog_if
        },
{
}

/// A selector that gives a subclass or a programming interface picks a PCI
/// device that it does not pick by address or ids only where the device has
/// the class and those codes.
pub proof fn law_pci_codes_are_kept(selector: Value, device: PciDevice)
    requires
        selects_pci(selector, device),
        selector.text_at("address"@) is None || !same_letters(
            selector.text_at("address"@)->0,
            device.address@,
        ),
        selector.at("vendorId"@) is None || selector.at("deviceId"@) is None,
    ensures
        selector.number_at("deviceClass"@) is Some,
        device.class is Some,
        device.class->0 == selector.number_at("deviceClass"@)->0,
        selector.number_at("deviceSubclass"@) is Some ==> {
            &&& device.subclass is Some
            &&& device.subclass->0 == selector.number_at("deviceSubclass"@)->0
        },
        selector.number_at("deviceProgIf"@) is Some ==> {
            &&& device.prog_if is Some
            &&& device.prog_if->0 == selector.number_at("deviceProgIf"@)->0
        },
{
}

/// A selector that gives nothing to pick by picks nothing.
pub proof fn law_empty_selector_picks_nothing(selector: Value, usb: UsbDevice, pci: PciDevice)
    requires
        selector.at("vendorId"@) is None,
        selector.at("vendorName"@) is None,
        selector.at("productName"@) is None,
        selector.at("bus"@) is None,
        selector.at("deviceClass"@) is None,
        selector.at("interfaceClass"@) is None,
        selector.at("address"@) is None,
    ensures
        !selects_usb(selector, usb),
        !selects_pci(selector, pci),
{
}

/// What a call of the selector test answers is what the selector picks, and a
/// driver path adds only devices none of whose interfaces says what it is.
pub proof fn law_driver_path_is_a_last_resort(
    config: &Config,
    selector: &Value,
    device: &UsbDevice,
    plain: bool,
    full: bool,
)
    requires
        call_ensures(usb_selector_matches, (selector, device), plain),
        call_ensures(Config::usb_selector_matches, (config, selector, device), full),
    ensures
        plain <==> selects_usb(*selector, *device),
        full <==> config.selects(*selector, *device),
        plain ==> full,
        selector.text_at("driverPath"@) is None ==> full == plain,
        (exists|i: int|
            #![trigger device.interfaces@[i]]
            0 <= i < device.interfaces@.len() && device.interfaces@[i].class is Some
                && device.interfaces@[i].class->0 != 0 && device.interfaces@[i].class->0 != 255)
            ==> full == plain,
        (forall|i: int|
            #![trigger device.interfaces@[i]]
            0 <= i < device.interfaces@.len() ==> device.interfaces@[i].class is None
                || device.interfaces@[i].class->0 == 0 || device.interfaces@[i].class->0 == 255)
            && selector.text_at("driverPath"@) is Some ==> (full <==> plain || (exists|i: int|
            #![trigger device.driver_paths@[i]]
            0 <= i < device.driver_paths@.len() && matches_start(
                selector.text_at("driverPath"@)->0,
                device.driver_paths@[i]@,
            )) || (exists|i: int, k: int|
            #![trigger device.modaliases@[i], config.driver_cache@[device.modaliases@[i]@]@[k]]
            0 <= i < device.modaliases@.len() && config.driver_cache@.contains_key(
                device.modaliases@[i]@,
            ) && 0 <= k < config.driver_cache@[device.modaliases@[i]@]@.len() && matches_start(
                selector.text_at("driverPath"@)->0,
                config.driver_cache@[device.modaliases@[i]@]@[k]@,
            ))),
{
    let pattern = selector.text_at("driverPath"@);
    let modules = config.modules();
    assert forall|i: int|
        #![trigger device.interfaces@[i]]
        0 <= i < device.interfaces@.len() && device.interfaces@[i].class is Some
            && device.interfaces@[i].class->0 != 0 && device.interfaces@[i].class->0
            != 255 implies has_valid_interface(*device) by {
        assert(is_valid_class(device.interfaces@[i].class));
    }
    if hits_any(pattern, device.driver_paths@) {
        let i = choose|i: int|
            0 <= i < device.driver_paths@.len() && hits(
                pattern,
                Some((#[trigger] device.driver_paths@[i])@),
            );
        assert(matches_start(pattern->0, device.driver_paths@[i]@));
    }
    if hits_module(pattern, device.modaliases@, modules) {
        let i = choose|i: int|
            0 <= i < device.modaliases@.len() && modules.contains_key(
                (#[trigger] device.modaliases@[i])@,
            ) && hits_any(pattern, modules[device.modaliases@[i]@]@);
        let paths = modules[device.modaliases@[i]@]@;
        let k = choose|k: int|
            0 <= k < paths.len() && hits(pattern, Some((#[trigger] paths[k])@));
        assert(matches_start(
            pattern->0,
            config.driver_cache@[device.modaliases@[i]@]@[k]@,
        ));
    }
    assert forall|i: int|
        #![trigger device.driver_paths@[i]]
        0 <= i < device.driver_paths@.len() && pattern is Some && matches_start(
            pattern->0,
            device.driver_paths@[i]@,
        ) implies hits_any(pattern, device.driver_paths@) by {
        assert(hits(pattern, Some(device.driver_paths@[i]@)));
    }
    assert forall|i: int, k: int|
        #![trigger device.modaliases@[i], config.driver_cache@[device.modaliases@[i]@]@[k]]
        0 <= i < device.modaliases@.len() && config.driver_cache@.contains_key(
            device.modaliases@[i]@,
        ) && 0 <= k < config.driver_cache@[device.modaliases@[i]@]@.len() && pattern is Some
            && matches_start(
            pattern->0,
            config.driver_cache@[device.modaliases@[i]@]@[k]@,
        ) implies hits_module(pattern, device.modaliases@, modules) by {
        let paths = modules[device.modaliases@[i]@]@;
        assert(hits(pattern, Some(paths[k]@)));
        assert(hits_any(pattern, paths));
    }
}

/// The first USB rule that allows a device, does not deny it and names a
/// machine decides, and what it says is what is found. Without such a rule
/// nothing is found.
pub proof fn law_first_rule_decides(config: &Config, device: &UsbDevice, found: Option<RuleMatch>)
    requires
        call_ensures(Config::usb_rule, (config, device), found),
    ensures
        found is Some <==> exists|at: int|
            #![trigger config.usb_passthrough@[at]]
            0 <= at < config.usb_passthrough@.len() && gives(
                *config,
                config.usb_passthrough@[at],
                *device,
            ),
        found is Some ==> exists|at: int|
            #![trigger config.usb_passthrough@[at]]
            {
                let rule = config.usb_passthrough@[at];
                &&& 0 <= at < config.usb_passthrough@.len()
                &&& gives(*config, rule, *device)
                &&& forall|k: int|
                    0 <= k < at ==> !gives(*config, #[trigger] config.usb_passthrough@[k], *device)
                &&& opt(found->0.target_vm) == rule.text_at("targetVm"@)
                &&& views(found->0.allowed_vms@) == texts(rule.items_at("allowedVms"@))
                &&& opt(found->0.tag) == rule.text_at("tag"@)
                &&& found->0.skip_on_suspend <==> rule.at("skipOnSuspend"@) == Some(
                    Value::Bool(true),
                )
            },
        found is Some ==> found->0.target_vm is Some || found->0.allowed_vms@.len() > 0,
{
    let rules = config.usb_passthrough@;
    assert forall|k: int|
        #![trigger rules[k]]
        0 <= k < rules.len() implies gives(*config, rules[k], *device) == routes(
        *config,
        rules[k],
        *device,
    ) by {
        lemma_gives(*config, rules[k], *device);
    }
    if found is Some {
        let at = choose|at: int|
            #![trigger rules[at]]
            first_route(*config, *device, at) && is_usb_match(rules[at], found->0);
        assert(gives(*config, rules[at], *device));
        assert(views(found->0.allowed_vms@).len() == found->0.allowed_vms@.len());
    }
}

/// Whether a rule gives a device to a machine: it is on, one of the selectors
/// under `allow` picks the device, none under `deny` does, and it names a
/// machine.
pub open spec fn gives(config: Config, rule: Value, device: UsbDevice) -> bool {
    &&& is_enabled(rule)
    &&& exists|i: int|
        #![trigger rule.items_at("allow"@)[i]]
        0 <= i < rule.items_at("allow"@).len() && config.selects(
            rule.items_at("allow"@)[i],
            device,
        )
    &&& forall|i: int|
        #![trigger rule.items_at("deny"@)[i]]
        0 <= i < rule.items_at("deny"@).len() ==> !config.selects(
            rule.items_at("deny"@)[i],
            device,
        )
    &&& {
        ||| rule.at("targetVm"@) matches Some(Value::Text(_))
        ||| exists|i: int|
            #![trigger rule.items_at("allowedVms"@)[i]]
            0 <= i < rule.items_at("allowedVms"@).len() && rule.items_at("allowedVms"@)[i] is Text
    }
}

proof fn lemma_gives(config: Config, rule: Value, device: UsbDevice)
    ensures
        gives(config, rule, device) == routes(config, rule, device),
{
    let allow = rule.items_at("allow"@);
    let deny = rule.items_at("deny"@);
    if any_selects_usb(config, allow, device) {
        let i = choose|i: int| 0 <= i < allow.len() && config.selects(#[trigger] allow[i], device);
        assert(config.selects(rule.items_at("allow"@)[i], device));
    }
    if any_selects_usb(config, deny, device) {
        let i = choose|i: int| 0 <= i < deny.len() && config.selects(#[trigger] deny[i], device);
        assert(config.selects(rule.items_at("deny"@)[i], device));
    }
    law_texts_are_all(rule.items_at("allowedVms"@));
    let names = rule.items_at("allowedVms"@);
    if texts(names).len() > 0 {
        assert(texts(names).contains(texts(names)[0]));
        let i = choose|i: int|
            #![trigger names[i]]
            0 <= i < names.len() && names[i].chars() == Some(texts(names)[0]);
        assert(rule.items_at("allowedVms"@)[i] is Text);
    }
    assert forall|i: int|
        #![trigger rule.items_at("allowedVms"@)[i]]
        0 <= i < names.len() && names[i] is Text implies texts(names).len() > 0 by {
        assert(texts(names).contains(names[i].chars()->0));
    }
}

/// A device is routed exactly where a rule gives it to a machine.
pub proof fn lemma_routed_is_given(config: Config, device: UsbDevice)
    ensures
        is_routed(config, device) <==> exists|at: int|
            #![trigger config.usb_passthrough@[at]]
            0 <= at < config.usb_passthrough@.len() && gives(
                config,
                config.usb_passthrough@[at],
                device,
            ),
{
    let rules = config.usb_passthrough@;
    assert forall|k: int|
        #![trigger rules[k]]
        0 <= k < rules.len() implies gives(config, rules[k], device) == routes(
        config,
        rules[k],
        device,
    ) by {
        lemma_gives(config, rules[k], device);
    }
}

/// A PCI device is routed exactly where a rule gives it to a machine.
pub proof fn lemma_pci_routed_is_given(config: Config, device: PciDevice)
    ensures
        !is_pci_rule(config.pci_passthrough@, device, None) <==> exists|at: int|
            #![trigger config.pci_passthrough@[at]]
            0 <= at < config.pci_passthrough@.len() && gives_pci(
                config.pci_passthrough@[at],
                device,
            ),
{
    let rules = config.pci_passthrough@;
    assert forall|k: int|
        #![trigger rules[k]]
        0 <= k < rules.len() implies gives_pci(rules[k], device) == routes_pci(
        rules[k],
        device,
    ) by {
        lemma_gives_pci(rules[k], device);
    }
}

/// The first PCI rule that is on, allows a device, does not deny it and names
/// a machine decides, and what it says is what is found.
pub proof fn law_first_pci_rule_decides(
    config: &Config,
    device: &PciDevice,
    found: Option<RuleMatch>,
)
    requires
        call_ensures(Config::pci_rule, (config, device), found),
    ensures
        found is Some <==> exists|at: int|
            #![trigger config.pci_passthrough@[at]]
            0 <= at < config.pci_passthrough@.len() && gives_pci(
                config.pci_passthrough@[at],
                *device,
            ),
        found is Some ==> exists|at: int|
            #![trigger config.pci_passthrough@[at]]
            {
                let rule = config.pci_passthrough@[at];
                &&& 0 <= at < config.pci_passthrough@.len()
                &&& gives_pci(rule, *device)
                &&& forall|k: int|
                    0 <= k < at ==> !gives_pci(#[trigger] config.pci_passthrough@[k], *device)
                &&& opt(found->0.target_vm) == rule.text_at("targetVm"@)
                &&& found->0.target_vm is Some
                &&& found->0.allowed_vms@.len() == 0
                &&& opt(found->0.tag) == rule.text_at("tag"@)
                &&& found->0.skip_on_suspend <==> rule.at("skipOnSuspend"@) == Some(
                    Value::Bool(true),
                )
                &&& found->0.iommu_add_all <==> rule.at("pciIommuAddAll"@) == Some(
                    Value::Bool(true),
                )
                &&& found->0.iommu_skip_if_shared <==> rule.at("pciIommuSkipIfShared"@) == Some(
                    Value::Bool(true),
                )
                &&& found->0.crosvm_use_root_bus <==> rule.at("crosvmUseRootBus"@) == Some(
                    Value::Bool(true),
                )
            },
{
    let rules = config.pci_passthrough@;
    assert forall|k: int|
        #![trigger rules[k]]
        0 <= k < rules.len() implies gives_pci(rules[k], *device) == routes_pci(
        rules[k],
        *device,
    ) by {
        lemma_gives_pci(rules[k], *device);
    }
    if found is Some {
        let at = choose|at: int|
            #![trigger rules[at]]
            first_pci_route(rules, *device, at) && is_pci_match(rules[at], found->0)
                && found->0.order == capped(position(rules.take(at + 1), *device));
        assert(gives_pci(rules[at], *device));
    }
}

/// Whether a PCI rule gives a device to a machine.
pub open spec fn gives_pci(rule: Value, device: PciDevice) -> bool {
    &&& is_enabled(rule)
    &&& exists|i: int|
        #![trigger rule.items_at("allow"@)[i]]
        0 <= i < rule.items_at("allow"@).len() && selects_pci(rule.items_at("allow"@)[i], device)
    &&& forall|i: int|
        #![trigger rule.items_at("deny"@)[i]]
        0 <= i < rule.items_at("deny"@).len() ==> !selects_pci(rule.items_at("deny"@)[i], device)
    &&& rule.at("targetVm"@) matches Some(Value::Text(_))
}

proof fn lemma_gives_pci(rule: Value, device: PciDevice)
    ensures
        gives_pci(rule, device) == routes_pci(rule, device),
{
    let allow = rule.items_at("allow"@);
    let deny = rule.items_at("deny"@);
    if any_selects_pci(allow, device) {
        let i = choose|i: int| 0 <= i < allow.len() && selects_pci(#[trigger] allow[i], device);
        assert(selects_pci(rule.items_at("allow"@)[i], device));
    }
    if any_selects_pci(deny, device) {
        let i = choose|i: int| 0 <= i < deny.len() && selects_pci(#[trigger] deny[i], device);
        assert(selects_pci(rule.items_at("deny"@)[i], device));
    }
}

/// A rule that is on and allows nothing moves a device back by as many places
/// as it has selectors. A rule that is off moves it back by none, and so do
/// the selectors behind the one that picks it.
pub proof fn law_order_follows_the_rules(rules: Seq<Value>, device: PciDevice)
    requires
        rules.len() > 0,
    ensures
        !is_enabled(rules.last()) ==> position(rules, device) == position(
            rules.drop_last(),
            device,
        ),
        is_enabled(rules.last()) && (forall|i: int|
            0 <= i < rules.last().items_at("allow"@).len() ==> !selects_pci(
                #[trigger] rules.last().items_at("allow"@)[i],
                device,
            )) ==> position(rules, device) == position(rules.drop_last(), device)
            + rules.last().items_at("allow"@).len(),
        forall|i: int|
            #![trigger rules.last().items_at("allow"@)[i]]
            is_enabled(rules.last()) && 0 <= i < rules.last().items_at("allow"@).len()
                && selects_pci(rules.last().items_at("allow"@)[i], device) && (forall|k: int|
                0 <= k < i ==> !selects_pci(
                    #[trigger] rules.last().items_at("allow"@)[k],
                    device,
                )) ==> position(rules, device) == position(rules.drop_last(), device) + i + 1,
        position(Seq::<Value>::empty(), device) == 0,
{
    let allow = rules.last().items_at("allow"@);
    assert forall|i: int|
        #![trigger allow[i]]
        0 <= i < allow.len() && selects_pci(allow[i], device) && (forall|k: int|
            0 <= k < i ==> !selects_pci(#[trigger] allow[k], device)) implies examined(
        allow,
        device,
    ) == i + 1 by {
        lemma_examined(allow, device, i);
    }
    if forall|i: int| 0 <= i < allow.len() ==> !selects_pci(#[trigger] allow[i], device) {
        lemma_examined(allow, device, allow.len() as int);
    }
}

proof fn lemma_examined(selectors: Seq<Value>, device: PciDevice, at: int)
    requires
        0 <= at <= selectors.len(),
        forall|k: int| 0 <= k < at ==> !selects_pci(#[trigger] selectors[k], device),
        at < selectors.len() ==> selects_pci(selectors[at], device),
    ensures
        examined(selectors, device) == if at < selectors.len() {
            at + 1
        } else {
            at
        },
    decreases selectors.len(),
{
    if selectors.len() > 0 && at > 0 {
        let rest = selectors.skip(1);
        assert forall|k: int| 0 <= k < at - 1 implies !selects_pci(#[trigger] rest[k], device) by {
            assert(rest[k] == selectors[k + 1]);
        }
        if at < selectors.len() {
            assert(rest[at - 1] == selectors[at]);
        }
        assert(!selects_pci(selectors[0], device));
        lemma_examined(rest, device, at - 1);
    }
}

/// Where a PCI device stands is where the rules put it, up to the largest
/// number there is room for.
pub proof fn law_order_is_the_place(config: &Config, device: &PciDevice, found: Option<RuleMatch>)
    requires
        call_ensures(Config::pci_rule, (config, device), found),
        found is Some,
    ensures
        exists|at: int|
            #![trigger config.pci_passthrough@[at]]
            0 <= at < config.pci_passthrough@.len() && gives_pci(
                config.pci_passthrough@[at],
                *device,
            ) && (forall|k: int|
                0 <= k < at ==> !gives_pci(#[trigger] config.pci_passthrough@[k], *device)) && (
            found->0.order == position(config.pci_passthrough@.take(at + 1), *device) || (
            found->0.order == usize::MAX && position(config.pci_passthrough@.take(at + 1), *device)
                > usize::MAX)),
{
    let rules = config.pci_passthrough@;
    let at = choose|at: int|
        #![trigger rules[at]]
        first_pci_route(rules, *device, at) && is_pci_match(rules[at], found->0) && found->0.order
            == capped(position(rules.take(at + 1), *device));
    assert forall|k: int| 0 <= k < rules.len() implies gives_pci(
        #[trigger] rules[k],
        *device,
    ) == routes_pci(rules[k], *device) by {
        lemma_gives_pci(rules[k], *device);
    }
    assert(gives_pci(rules[at], *device));
}

/// A configuration passes exactly where every machine is a crosvm with a name
/// and a socket, no name occurs twice, every transport is known, and a TCP
/// port fits.
pub proof fn law_valid_configuration(config: &Config, out: Result<(), Error>)
    requires
        call_ensures(Config::validate, (config,), out),
    ensures
        out is Ok <==> {
            &&& forall|i: int|
                #![trigger config.vms@[i]]
                0 <= i < config.vms@.len() ==> {
                    &&& config.vms@[i].vm_type@ == "crosvm"@
                    &&& config.vms@[i].name@.len() > 0
                    &&& config.vms@[i].socket@.len() > 0
                }
            &&& forall|i: int, k: int|
                #![trigger config.vms@[i], config.vms@[k]]
                0 <= i < k < config.vms@.len() ==> config.vms@[i].name@ != config.vms@[k].name@
            &&& forall|i: int|
                #![trigger config.general.api.transports@[i]]
                0 <= i < config.general.api.transports@.len() ==> {
                    ||| config.general.api.transports@[i]@ == "unix"@
                    ||| config.general.api.transports@[i]@ == "tcp"@
                    ||| config.general.api.transports@[i]@ == "vsock"@
                }
            &&& config.general.api.port > 65535 ==> forall|i: int|
                #![trigger config.general.api.transports@[i]]
                0 <= i < config.general.api.transports@.len()
                    ==> config.general.api.transports@[i]@ != "tcp"@
        },
{
    lemma_vm_fault(config.vms@, 0);
    lemma_transport_fault(config.general.api.transports@, 0);
}

proof fn lemma_vm_fault(vms: Seq<Vm>, at: int)
    requires
        0 <= at <= vms.len(),
    ensures
        vm_fault(vms, at) is None <==> forall|i: int|
            at <= i < vms.len() ==> (#[trigger] vms[i]).name@.len() > 0 && vms[i].socket@.len() > 0
                && forall|k: int| 0 <= k < i ==> (#[trigger] vms[k]).name@ != vms[i].name@,
        vm_fault(vms, at) is Some ==> vm_fault(vms, at)->0 is EmptyVmField || vm_fault(vms, at)->0
            is DuplicateVm,
    decreases vms.len() - at,
{
    if at < vms.len() {
        lemma_vm_fault(vms, at + 1);
        if !is_duplicate(vms, at) {
            assert(forall|k: int| 0 <= k < at ==> (#[trigger] vms[k]).name@ != vms[at].name@);
        }
    }
}

proof fn lemma_transport_fault(transports: Seq<String>, at: int)
    requires
        0 <= at <= transports.len(),
    ensures
        transport_fault(transports, at) is None <==> forall|i: int|
            at <= i < transports.len() ==> is_transport((#[trigger] transports[i])@),
    decreases transports.len() - at,
{
    if at < transports.len() {
        lemma_transport_fault(transports, at + 1);
    }
}

/// A name stands for the first machine that has it. A name that no machine
/// has is reported.
pub proof fn law_machine_by_name(config: &Config, name: &str, out: Result<&Vm, Error>)
    requires
        call_ensures(Config::vm, (config, name), out),
    ensures
        out is Ok <==> exists|i: int|
            0 <= i < config.vms@.len() && (#[trigger] config.vms@[i]).name@ == name@,
        out is Ok ==> exists|i: int|
            #![trigger config.vms@[i]]
            0 <= i < config.vms@.len() && config.vms@[i] == *(out->Ok_0) && config.vms@[i].name@
                == name@ && forall|k: int|
                0 <= k < i ==> (#[trigger] config.vms@[k]).name@ != name@,
        out is Err ==> (out->Err_0 matches Error::UnknownVm(given) && given@ == name@),
{
    lemma_vm_named(config.vms@, name@);
}

pub proof fn lemma_vm_named(vms: Seq<Vm>, name: Seq<char>)
    ensures
        vm_named(vms, name) is Some <==> exists|i: int|
            0 <= i < vms.len() && (#[trigger] vms[i]).name@ == name,
        vm_named(vms, name) is Some ==> exists|i: int|
            #![trigger vms[i]]
            0 <= i < vms.len() && Some(vms[i]) == vm_named(vms, name) && vms[i].name@ == name
                && forall|k: int| 0 <= k < i ==> (#[trigger] vms[k]).name@ != name,
    decreases vms.len(),
{
    if vms.len() > 0 {
        let rest = vms.skip(1);
        if vms[0].name@ != name {
            lemma_vm_named(rest, name);
            if vm_named(rest, name) is Some {
                let i = choose|i: int|
                    #![trigger rest[i]]
                    0 <= i < rest.len() && Some(rest[i]) == vm_named(rest, name) && rest[i].name@
                        == name && forall|k: int| 0 <= k < i ==> (#[trigger] rest[k]).name@ != name;
                assert(vms[i + 1] == rest[i]);
                assert forall|k: int| 0 <= k < i + 1 implies (#[trigger] vms[k]).name@ != name by {
                    if k > 0 {
                        assert(rest[k - 1] == vms[k]);
                    }
                }
            } else {
                assert forall|i: int| 0 <= i < vms.len() implies (#[trigger] vms[i]).name@
                    != name by {
                    if i > 0 {
                        assert(rest[i - 1] == vms[i]);
                    }
                }
            }
        } else {
            assert(vms[0].name@ == name);
        }
    }
}

/// A machine has PCI rules exactly where a rule that is on has it as its
/// target, and USB is routed exactly where a USB rule is on.
pub proof fn law_rules_count_where_on(config: &Config, vm: &str, has: bool, routes_any: bool)
    requires
        call_ensures(Config::has_pci_rules, (config, vm), has),
        call_ensures(Config::routes_usb, (config,), routes_any),
    ensures
        has <==> exists|i: int|
            #![trigger config.pci_passthrough@[i]]
            0 <= i < config.pci_passthrough@.len() && is_enabled(config.pci_passthrough@[i]) && (
            config.pci_passthrough@[i].at("targetVm"@) matches Some(Value::Text(name)) && name@
                == vm@),
        routes_any <==> exists|i: int|
            #![trigger config.usb_passthrough@[i]]
            0 <= i < config.usb_passthrough@.len() && is_enabled(config.usb_passthrough@[i]),
{
    let rules = config.pci_passthrough@;
    assert forall|i: int|
        #![trigger rules[i]]
        rules[i].text_at("targetVm"@) == Some(vm@) <==> (rules[i].at("targetVm"@) matches Some(
            Value::Text(name),
        ) && name@ == vm@) by {}
}

/// What was learnt of a modalias is known from then on, and what is known is
/// not asked for again.
pub proof fn law_learnt_is_known(
    config: &mut Config,
    modalias: &str,
    paths: Vec<String>,
    device: &UsbDevice,
    unknown: Vec<String>,
)
    requires
        call_ensures(Config::learn_modules, (config, modalias, paths), ()),
        call_ensures(Config::unknown_modaliases, (&*final(config), device), unknown),
    ensures
        final(config).driver_cache@.contains_key(modalias@),
        final(config).driver_cache@[modalias@] == paths,
        forall|other: Seq<char>| #[trigger]
            old(config).driver_cache@.contains_key(other) && other != modalias@
                ==> final(config).driver_cache@.contains_key(other)
                && final(config).driver_cache@[other] == old(config).driver_cache@[other],
        forall|i: int|
            #![trigger unknown@[i]]
            0 <= i < unknown@.len() ==> unknown@[i]@ != modalias@ && exists|k: int|
                0 <= k < device.modaliases@.len() && #[trigger] device.modaliases@[k]@
                    == unknown@[i]@,
{
    assert forall|i: int| 0 <= i < unknown@.len() implies unknown@[i]@ != modalias@ && exists|
        k: int,
    |
        0 <= k < device.modaliases@.len() && #[trigger] device.modaliases@[k]@ == (
        #[trigger] unknown@[i])@ by {
        assert(lists(unknown@, unknown@[i]@));
        assert(lists(device.modaliases@, unknown@[i]@));
    }
}

/// A test of a rule on a device says whether the rule is on, allows the
/// device and does not deny it; a test of a PCI selector says whether it picks
/// the device; and a test of a value alone says whether it is on.
pub proof fn law_tests_of_rules(
    config: &Config,
    rule: &Value,
    usb: &UsbDevice,
    pci: &PciDevice,
    matched: bool,
    picked: bool,
    on: bool,
)
    requires
        call_ensures(Config::rule_matches, (config, rule, usb), matched),
        call_ensures(pci_selector_matches, (rule, pci), picked),
        call_ensures(enabled, (rule,), on),
    ensures
        on <==> is_enabled(*rule),
        picked <==> selects_pci(*rule, *pci),
        matched <==> {
            &&& on
            &&& exists|i: int|
                #![trigger rule.items_at("allow"@)[i]]
                0 <= i < rule.items_at("allow"@).len() && config.selects(
                    rule.items_at("allow"@)[i],
                    *usb,
                )
            &&& forall|i: int|
                #![trigger rule.items_at("deny"@)[i]]
                0 <= i < rule.items_at("deny"@).len() ==> !config.selects(
                    rule.items_at("deny"@)[i],
                    *usb,
                )
        },
{
    let allow = rule.items_at("allow"@);
    let deny = rule.items_at("deny"@);
    if any_selects_usb(*config, allow, *usb) {
        let i = choose|i: int| 0 <= i < allow.len() && config.selects(#[trigger] allow[i], *usb);
        assert(config.selects(rule.items_at("allow"@)[i], *usb));
    }
    if any_selects_usb(*config, deny, *usb) {
        let i = choose|i: int| 0 <= i < deny.len() && config.selects(#[trigger] deny[i], *usb);
        assert(config.selects(rule.items_at("deny"@)[i], *usb));
    }
}

/// Where the configuration says nothing, the interface is on, listens on no
/// transport, and has the usual addresses.
pub proof fn law_defaults(general: General, api: Api)
    requires
        call_ensures(<General as Default>::default, (), general),
        call_ensures(<Api as Default>::default, (), api),
    ensures
        general.persistency,
        general.state_path@ == "/var/lib/vhotplug/vhotplug.state"@,
        general.crosvm@ == "crosvm"@,
        general.modprobe@ == "modprobe"@,
        general.modinfo@ == "modinfo"@,
        api.enable && general.api.enable,
        api.transports@.len() == 0 && general.api.transports@.len() == 0,
        api.allowed_cids@.len() == 0 && general.api.allowed_cids@.len() == 0,
        api.port == 2000 && general.api.port == 2000,
        api.host@ == "127.0.0.1"@ && general.api.host@ == "127.0.0.1"@,
        api.unix_socket@ == "/var/lib/vhotplug/vhotplug.sock"@,
        general.api.unix_socket@ == "/var/lib/vhotplug/vhotplug.sock"@,
{
}

/// The modules of a modalias are looked up only where they can count: the
/// device has the modalias, they are not known, its interfaces say nothing of
/// what it is, and a rule that is on asks for a driver.
pub proof fn law_modules_are_looked_up_where_asked_for(
    config: &Config,
    device: &UsbDevice,
    out: Vec<String>,
    modalias: Seq<char>,
)
    requires
        call_ensures(Config::unknown_modaliases, (config, device), out),
    ensures
        lists(out@, modalias) <==> {
            &&& lists(device.modaliases@, modalias)
            &&& !config.driver_cache@.contains_key(modalias)
            &&& forall|i: int|
                #![trigger device.interfaces@[i]]
                0 <= i < device.interfaces@.len() ==> device.interfaces@[i].class is None
                    || device.interfaces@[i].class->0 == 0 || device.interfaces@[i].class->0 == 255
            &&& exists|r: int|
                #![trigger config.usb_passthrough@[r]]
                0 <= r < config.usb_passthrough@.len() && is_enabled(config.usb_passthrough@[r])
                    && (names_driver(config.usb_passthrough@[r], "allow"@) || names_driver(
                    config.usb_passthrough@[r],
                    "deny"@,
                ))
        },
{
    assert forall|i: int|
        #![trigger device.interfaces@[i]]
        0 <= i < device.interfaces@.len() && device.interfaces@[i].class is Some
            && device.interfaces@[i].class->0 != 0 && device.interfaces@[i].class->0
            != 255 implies has_valid_interface(*device) by {
        assert(is_valid_class(device.interfaces@[i].class));
    }
    assert forall|r: int, key: Seq<char>|
        #![trigger names_driver(config.usb_passthrough@[r], key)]
        names_driver(config.usb_passthrough@[r], key) == asks_driver(
            config.usb_passthrough@[r].items_at(key),
        ) by {
        let items = config.usb_passthrough@[r].items_at(key);
        if asks_driver(items) {
            let i = choose|i: int|
                0 <= i < items.len() && (#[trigger] items[i]).text_at("driverPath"@) is Some;
            assert(items[i].text_at("driverPath"@) is Some);
        }
        if names_driver(config.usb_passthrough@[r], key) {
            let i = choose|i: int|
                #![trigger config.usb_passthrough@[r].items_at(key)[i]]
                0 <= i < items.len() && config.usb_passthrough@[r].items_at(key)[i].text_at(
                    "driverPath"@,
                ) is Some;
            assert(items[i].text_at("driverPath"@) is Some);
        }
    }
    if reads_drivers(config.usb_passthrough@) {
        let r = choose|r: int|
            0 <= r < config.usb_passthrough@.len() && is_enabled(
                #[trigger] config.usb_passthrough@[r],
            ) && (asks_driver(config.usb_passthrough@[r].items_at("allow"@)) || asks_driver(
                config.usb_passthrough@[r].items_at("deny"@),
            ));
        assert(names_driver(config.usb_passthrough@[r], "allow"@) || names_driver(
            config.usb_passthrough@[r],
            "deny"@,
        ));
    }
}

/// Whether one of the selectors of a rule names the module of a driver.
pub open spec fn names_driver(rule: Value, key: Seq<char>) -> bool {
    exists|i: int|
        #![trigger rule.items_at(key)[i]]
        0 <= i < rule.items_at(key).len() && rule.items_at(key)[i].text_at("driverPath"@) is Some
}

/// A rule for USB devices says nothing of what concerns PCI devices alone, and
/// gives no order.
pub proof fn law_usb_rules_say_nothing_of_pci(
    config: &Config,
    device: &UsbDevice,
    found: Option<RuleMatch>,
)
    requires
        call_ensures(Config::usb_rule, (config, device), found),
    ensures
        found is Some ==> !found->0.iommu_add_all && !found->0.iommu_skip_if_shared
            && !found->0.crosvm_use_root_bus && found->0.order == 0,
{
}

/// The modules of a modalias are known exactly where they were learnt, and are
/// those that were.
pub proof fn law_known_modules_are_found(
    config: &Config,
    modalias: &str,
    paths: Option<&Vec<String>>,
)
    requires
        call_ensures(Config::module_paths, (config, modalias), paths),
    ensures
        paths is Some <==> config.driver_cache@.contains_key(modalias@),
        paths is Some ==> paths->0@ == config.driver_cache@[modalias@]@,
{
}

} // verus!
