use selim::abc::{InfoFieldOrder, OrderedInfoFieldName};
use selim::clock::duration_since_unix_epoch;
use selim::cmdline::parse_duration;
use selim::device::{find_port, DeviceSelector};

#[test]
fn format_device_selector_number() {
    let result = DeviceSelector::Number(42).to_string();
    assert_eq!(result, "42");
}

#[test]
fn format_device_selector_name_substring() {
    let result = DeviceSelector::NameSubstring(" foo ".to_string()).to_string();
    assert_eq!(result, "\" foo \"");
}

#[test]
fn format_device_selector_zero_and_large() {
    assert_eq!(DeviceSelector::Number(0).to_string(), "0");
    assert_eq!(DeviceSelector::Number(1203).to_string(), "1203");
}

fn mock_ports() -> Vec<String> {
    vec!["port one (1)".to_string(), "port two (2)".to_string()]
}

#[test]
fn find_port_by_substring() {
    let ports = mock_ports();
    let device = DeviceSelector::NameSubstring(" one ".to_string());
    let port = find_port(&ports, &device, "output");
    assert_eq!(ports[port.unwrap()], "port one (1)");
}

#[test]
fn find_port_by_substring_not_exists() {
    let device = DeviceSelector::NameSubstring(" zero ".to_string());
    let port = find_port(&mock_ports(), &device, "output");
    assert_eq!(port.err().unwrap(), "No MIDI output port matching \" zero \"");
}

#[test]
fn find_port_by_substring_multiple_matches() {
    let device = DeviceSelector::NameSubstring("port ".to_string());
    let port = find_port(&mock_ports(), &device, "output");
    assert_eq!(port.err().unwrap(), "Multiple MIDI output ports matching \"port \"");
}

#[test]
fn find_port_by_number() {
    let ports = mock_ports();
    let port = find_port(&ports, &DeviceSelector::Number(0), "output");
    assert_eq!(ports[port.unwrap()], "port one (1)");
}

#[test]
fn find_port_by_number_out_of_range() {
    let port = find_port(&mock_ports(), &DeviceSelector::Number(5), "input");
    assert_eq!(port.err().unwrap(), "No MIDI input port matching 5");
}

#[test]
fn parse_duration_reads_milliseconds() {
    assert_eq!(parse_duration("0"), Ok(0));
    assert_eq!(parse_duration("250"), Ok(250_000));
    assert_eq!(parse_duration("+7"), Ok(7_000));
    assert!(parse_duration("").is_err());
    assert!(parse_duration("-1").is_err());
    assert!(parse_duration("1x").is_err());
    assert!(parse_duration("99999999999999999999").is_err());
}

#[test]
fn info_field_names_are_ordered_x_t_others_k() {
    assert_eq!(OrderedInfoFieldName('X').decorate(), (InfoFieldOrder::First, 'X'));
    assert_eq!(OrderedInfoFieldName('T').decorate(), (InfoFieldOrder::Second, 'T'));
    assert_eq!(OrderedInfoFieldName('K').decorate(), (InfoFieldOrder::Last, 'K'));
    assert_eq!(OrderedInfoFieldName('O').decorate(), (InfoFieldOrder::Middle, 'O'));
    assert!(OrderedInfoFieldName('I').decorate() < OrderedInfoFieldName('O').decorate());
    assert!(OrderedInfoFieldName('Z').decorate() < OrderedInfoFieldName('K').decorate());
    assert!(OrderedInfoFieldName('X').decorate() < OrderedInfoFieldName('T').decorate());
}

#[test]
fn clock_is_after_the_epoch() {
    assert!(duration_since_unix_epoch().unwrap() > 1_500_000_000_000_000);
}
