use macro_deck::ports::{
    auto_detect_port, choose_port, format_ports_name, names_device, port_label, resolve_port, Platform,
};

fn names(list: &[&str]) -> Vec<String> {
    list.iter().map(|n| n.to_string()).collect()
}

#[test]
fn a_port_is_shown_by_what_follows_the_device_prefix() {
    assert_eq!(port_label("/dev/tty.usbmodem1101"), "usbmodem1101");
    assert_eq!(port_label("/dev/cu.usbmodem1101"), "usbmodem1101");
    assert_eq!(port_label("/dev/ttyUSB0"), "USB0");
    assert_eq!(port_label("/dev/cu"), "");
    assert_eq!(port_label("/dev/tty..x"), ".x");
}

#[test]
fn a_name_without_device_prefix_is_shown_as_it_is() {
    assert_eq!(port_label("COM3"), "COM3");
    assert_eq!(port_label("/dev/usb0"), "/dev/usb0");
    assert_eq!(port_label(""), "");
}

#[test]
fn the_first_device_prefix_counts() {
    assert_eq!(port_label("x/dev/cu.a/dev/tty.b"), "a/dev/tty.b");
    assert_eq!(port_label("/dev/tt/dev/ttyS1"), "S1");
}

#[test]
fn a_label_ends_with_its_line() {
    assert_eq!(port_label("/dev/tty.usb\nmodem"), "usb");
    assert_eq!(port_label("/dev/tty\n"), "");
}

#[test]
fn labels_are_listed_once() {
    let ports = names(&["/dev/cu.usbmodem1", "/dev/tty.usbmodem1", "/dev/cu.Bluetooth-Incoming-Port", "COM1"]);
    assert_eq!(
        format_ports_name(&ports, Platform::MacOs),
        names(&["usbmodem1", "Bluetooth-Incoming-Port", "COM1"])
    );
    assert_eq!(format_ports_name(&ports, Platform::Linux).len(), 3);
}

#[test]
fn elsewhere_the_names_are_listed_as_they_are() {
    let ports = names(&["COM1", "COM1", "/dev/cu.x"]);
    assert_eq!(format_ports_name(&ports, Platform::Other), ports);
}

#[test]
fn the_one_candidate_is_detected() {
    let ports = names(&[
        "/dev/cu.debug-console",
        "/dev/tty.debug-console",
        "/dev/cu.Bluetooth-Incoming-Port",
        "/dev/cu.usbmodem1",
        "/dev/tty.usbmodem1",
    ]);
    assert_eq!(auto_detect_port(&ports, Platform::MacOs), Some("usbmodem1".to_string()));
    assert_eq!(auto_detect_port(&ports, Platform::Linux), Some("usbmodem1".to_string()));
}

#[test]
fn several_candidates_or_none_are_not_detected() {
    assert_eq!(auto_detect_port(&names(&["/dev/ttyUSB0", "/dev/ttyUSB1"]), Platform::Linux), None);
    assert_eq!(auto_detect_port(&names(&["/dev/cu.debug-console"]), Platform::MacOs), None);
    assert_eq!(auto_detect_port(&names(&[]), Platform::Linux), None);
}

#[test]
fn any_system_with_device_paths_labels_and_detects() {
    let ports = names(&["/dev/cuaU0", "/dev/ttyU0", "/dev/cu.debug-console"]);
    assert_eq!(format_ports_name(&ports, Platform::Unix), names(&["aU0", "U0", "debug-console"]));
    assert_eq!(auto_detect_port(&names(&["/dev/ttyU0"]), Platform::Unix), Some("U0".to_string()));
    assert_eq!(resolve_port("U0", Platform::Unix), "U0");
    assert_eq!(resolve_port("/dev/ttyU0", Platform::Unix), "/dev/ttyU0");
}

#[test]
fn elsewhere_no_port_is_detected() {
    assert_eq!(auto_detect_port(&names(&["COM3"]), Platform::Other), None);
}

#[test]
fn a_named_port_is_taken_before_a_detected_one() {
    let ports = names(&["/dev/ttyUSB0"]);
    assert_eq!(choose_port(Some("ACM0".to_string()), &ports, Platform::Linux), Some("ACM0".to_string()));
    assert_eq!(choose_port(None, &ports, Platform::Linux), Some("USB0".to_string()));
    assert_eq!(choose_port(None, &names(&[]), Platform::Linux), None);
}

#[test]
fn a_device_path_is_recognised_anywhere_in_the_name() {
    assert!(names_device("/dev/ttyUSB0"));
    assert!(names_device("/dev/cu.usbmodem1"));
    assert!(names_device("x/dev/cu"));
    assert!(!names_device("USB0"));
    assert!(!names_device("/dev/usb"));
    assert!(!names_device("/dev/c"));
}

#[test]
fn a_label_gets_the_prefix_of_the_platform() {
    assert_eq!(resolve_port("USB0", Platform::Linux), "/dev/ttyUSB0");
    assert_eq!(resolve_port("usbmodem1", Platform::MacOs), "/dev/cu.usbmodem1");
    assert_eq!(resolve_port("COM3", Platform::Other), "COM3");
}

#[test]
fn a_device_path_is_opened_as_it_is() {
    assert_eq!(resolve_port("/dev/ttyACM0", Platform::Linux), "/dev/ttyACM0");
    assert_eq!(resolve_port("/dev/cu.usbmodem1", Platform::MacOs), "/dev/cu.usbmodem1");
    assert_eq!(resolve_port("/dev/ttyS0", Platform::Other), "/dev/ttyS0");
}
