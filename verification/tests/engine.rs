use mcp_srv_korad_kd3005p::constants::CURRENT_DECIMAL_NB;
use mcp_srv_korad_kd3005p::constants::VOLTAGE_DECIMAL_NB;
use mcp_srv_korad_kd3005p::engine::format_decimal;
use mcp_srv_korad_kd3005p::engine::format_decimal_is_defined;
use mcp_srv_korad_kd3005p::engine::helpers::find_port_name_by_serial_number;
use mcp_srv_korad_kd3005p::engine::helpers::SerialPortInfo;
use mcp_srv_korad_kd3005p::engine::helpers::SerialPortType;
use mcp_srv_korad_kd3005p::engine::helpers::UsbPortInfo;
use mcp_srv_korad_kd3005p::engine::Engine;
use mcp_srv_korad_kd3005p::engine::EngineError;
use mcp_srv_korad_kd3005p::engine::setpoint::Setpoint;

fn usb(name: &str, vid: u16, pid: u16, serial: Option<&str>) -> SerialPortInfo {
    SerialPortInfo {
        port_name: name.to_string(),
        port_type: SerialPortType::UsbPort(UsbPortInfo {
            vid,
            pid,
            serial_number: serial.map(|s| s.to_string()),
        }),
    }
}

#[test]
fn format_decimal_pads_missing_decimals() {
    assert_eq!(format_decimal("5", 2), "5.00");
    assert_eq!(format_decimal("5.1", 2), "5.10");
    assert_eq!(format_decimal("12.5", 3), "12.500");
    assert_eq!(format_decimal("", 2), ".00");
    assert_eq!(format_decimal(".5", 2), ".50");
    assert_eq!(format_decimal("5.", 2), "5.00");
    assert_eq!(format_decimal("7", 0), "7.");
}

#[test]
fn format_decimal_truncates_extra_decimals() {
    assert_eq!(format_decimal("5.123", 2), "5.12");
    assert_eq!(format_decimal("1.23456", 3), "1.234");
    assert_eq!(format_decimal("3.99", 1), "3.9");
    assert_eq!(format_decimal("3.99", 0), "3.");
}

#[test]
fn format_decimal_keeps_exact_and_odd_values() {
    assert_eq!(format_decimal("5.12", 2), "5.12");
    assert_eq!(format_decimal("1.2.3", 2), "1.2.3");
    assert_eq!(format_decimal("..", 2), "..");
    assert_eq!(format_decimal("1.5e2", 3), "1.5e2");
}

#[test]
fn format_decimal_counts_bytes() {
    // "é" takes two bytes of UTF-8.
    assert_eq!(format_decimal("1.é", 3), "1.é0");
    assert_eq!(format_decimal("1.é5", 2), "1.é");
    assert!(format_decimal_is_defined("1.é5", 2));
    assert!(!format_decimal_is_defined("1.5é", 2));
    assert!(format_decimal_is_defined("1.5é", 3));
    assert!(format_decimal_is_defined("1.2.é", 0));
    assert!(format_decimal_is_defined("12", 2));
}

#[test]
fn format_decimal_is_idempotent() {
    for value in ["5", "5.1", "5.123", "1.2.3", "", ".5", "1.é5"] {
        for places in [0usize, 1, 2, 3] {
            if format_decimal_is_defined(value, places) {
                let once = format_decimal(value, places);
                assert_eq!(format_decimal(&once, places), once, "{:?} {}", value, places);
            }
        }
    }
}

#[test]
fn setpoints_use_their_decimal_places() {
    assert_eq!(VOLTAGE_DECIMAL_NB, 2);
    assert_eq!(CURRENT_DECIMAL_NB, 3);
    assert_eq!(Setpoint::Voltage.decimal_places(), 2);
    assert_eq!(Setpoint::Current.decimal_places(), 3);
    assert_eq!(Setpoint::Voltage.invalid("x").message(), "Invalid voltage value: x");
    assert_eq!(Setpoint::Current.invalid("y").message(), "Invalid current value: y");
}

#[test]
fn setpoint_steps_voltage_first() {
    let steps = Engine::<u8>::setpoint_steps(Some("5".to_string()), Some("1".to_string()));
    assert_eq!(steps, vec![(Setpoint::Voltage, "5".to_string()), (Setpoint::Current, "1".to_string())]);
    let steps = Engine::<u8>::setpoint_steps(None, Some("1".to_string()));
    assert_eq!(steps, vec![(Setpoint::Current, "1".to_string())]);
    assert!(Engine::<u8>::setpoint_steps(None, None).is_empty());
}

#[test]
fn engine_error_messages() {
    assert_eq!(
        EngineError::InstanceNotFound("psu".to_string()).message(),
        "Power supply instance 'psu' not found"
    );
    assert_eq!(
        EngineError::PortNotFound("ABC".to_string()).message(),
        "No serial port found with serial number: ABC"
    );
    assert_eq!(EngineError::Device("timeout".to_string()).message(), "timeout");
}

#[test]
fn registry_connect_list_and_get() {
    let mut engine: Engine<u32> = Engine::new();
    assert!(engine.list_instance_names().is_empty());
    let _ = engine.connect_device("a", Ok(1));
    let _ = engine.connect_device("b", Ok(2));
    assert_eq!(engine.list_instance_names(), vec!["a".to_string(), "b".to_string()]);
    assert_eq!(engine.get_runner("a").ok(), Some(&1));
    assert_eq!(engine.get_runner("b").ok(), Some(&2));
    assert_eq!(
        engine.get_runner("c").err().map(|e| e.message()),
        Some("Power supply instance 'c' not found".to_string())
    );
}

#[test]
fn registry_connect_replaces_runner() {
    let mut engine: Engine<u32> = Engine::new();
    let _ = engine.connect_device("a", Ok(1));
    let _ = engine.connect_device("b", Ok(2));
    let _ = engine.connect_device("a", Ok(3));
    assert_eq!(engine.list_instance_names(), vec!["a".to_string(), "b".to_string()]);
    assert_eq!(engine.get_runner("a").ok(), Some(&3));
    assert_eq!(engine.get_runner("b").ok(), Some(&2));
}

#[test]
fn registry_status() {
    let mut engine: Engine<u32> = Engine::new();
    let _ = engine.connect_device("a", Ok(1));
    assert_eq!(engine.get_instance_status("a").ok(), Some("Instance is running normally.".to_string()));
    assert_eq!(
        engine.get_instance_status("z").err().map(|e| e.message()),
        Some("Power supply instance 'z' not found".to_string())
    );
}

#[test]
fn registry_delete() {
    let mut engine: Engine<u32> = Engine::new();
    let _ = engine.connect_device("a", Ok(1));
    let _ = engine.connect_device("b", Ok(2));
    let _ = engine.connect_device("c", Ok(3));
    assert_eq!(engine.delete_instance("b").ok(), Some(2));
    assert_eq!(engine.list_instance_names(), vec!["a".to_string(), "c".to_string()]);
    assert!(engine.get_runner("b").is_err());
    assert_eq!(engine.get_runner("c").ok(), Some(&3));
    assert_eq!(
        engine.delete_instance("b").err().map(|e| e.message()),
        Some("Power supply instance 'b' not found".to_string())
    );
}

#[test]
fn port_found_by_serial_number() {
    let ports = vec![
        SerialPortInfo { port_name: "/dev/ttyS0".to_string(), port_type: SerialPortType::PciPort },
        usb("/dev/ttyACM0", 0x0416, 0x5011, None),
        usb("/dev/ttyACM1", 0x0416, 0x5011, Some("SN1")),
        usb("/dev/ttyACM2", 0x0416, 0x5011, Some("SN2")),
        usb("/dev/ttyACM3", 0x1234, 0x0001, Some("SN2")),
    ];
    assert_eq!(find_port_name_by_serial_number(&ports, "SN2").ok(), Some("/dev/ttyACM2".to_string()));
    assert_eq!(find_port_name_by_serial_number(&ports, "SN1").ok(), Some("/dev/ttyACM1".to_string()));
    assert_eq!(
        find_port_name_by_serial_number(&ports, "SN9").err().map(|e| e.message()),
        Some("No serial port found with serial number: SN9".to_string())
    );
    assert!(find_port_name_by_serial_number(&Vec::new(), "SN1").is_err());
}

#[test]
fn korad_port_identified() {
    let port = usb("/dev/ttyACM0", 0x0416, 0x5011, Some("ABC123"));
    let id = Engine::<u8>::is_korad_serial_port(&port, &Some("  KORAD KD3005P V6.8 SN:1\r\n".to_string()))
        .unwrap();
    assert_eq!(id.product, "KORAD KD3005P");
    assert_eq!(id.serial_number, "ABC123");
}

#[test]
fn korad_port_without_serial_is_unknown() {
    let port = usb("/dev/ttyACM0", 0x0416, 0x5011, None);
    let id = Engine::<u8>::is_korad_serial_port(&port, &Some("KORAD KD3005P".to_string())).unwrap();
    assert_eq!(id.serial_number, "unknown");
}

#[test]
fn other_ports_rejected() {
    let good = Some("KORAD KD3005P V2".to_string());
    let wrong_vid = usb("/dev/ttyACM0", 0x0417, 0x5011, Some("A"));
    let wrong_pid = usb("/dev/ttyACM0", 0x0416, 0x5012, Some("A"));
    let pci = SerialPortInfo { port_name: "/dev/ttyS0".to_string(), port_type: SerialPortType::Unknown };
    let right = usb("/dev/ttyACM0", 0x0416, 0x5011, Some("A"));
    assert!(Engine::<u8>::is_korad_serial_port(&wrong_vid, &good).is_none());
    assert!(Engine::<u8>::is_korad_serial_port(&wrong_pid, &good).is_none());
    assert!(Engine::<u8>::is_korad_serial_port(&pci, &good).is_none());
    assert!(Engine::<u8>::is_korad_serial_port(&right, &None).is_none());
    assert!(Engine::<u8>::is_korad_serial_port(&right, &Some("KORAD KD3005".to_string())).is_none());
    assert!(Engine::<u8>::is_korad_serial_port(&right, &Some("korad kd3005p".to_string())).is_none());
    assert!(Engine::<u8>::is_korad_serial_port(&right, &Some("X KORAD KD3005P".to_string())).is_none());
}

#[test]
fn available_devices_in_port_order() {
    let ports = vec![
        usb("/dev/ttyACM0", 0x0416, 0x5011, Some("A")),
        usb("/dev/ttyACM1", 0x0416, 0x5011, Some("B")),
        usb("/dev/ttyACM2", 0x0416, 0x5011, None),
        usb("/dev/ttyACM3", 0x1111, 0x5011, Some("C")),
    ];
    let responses = vec![
        Some("KORAD KD3005P V1".to_string()),
        None,
        Some("KORAD KD3005P V1".to_string()),
        Some("KORAD KD3005P V1".to_string()),
    ];
    let devices = Engine::<u8>::available_devices(&ports, &responses);
    let serials: Vec<&str> = devices.iter().map(|d| d.serial_number.as_str()).collect();
    assert_eq!(serials, vec!["A", "unknown"]);
    assert!(devices.iter().all(|d| d.product == "KORAD KD3005P"));
}

#[test]
fn macos_port_filter() {
    assert!(Engine::<u8>::keep_port("/dev/ttyUSB0", false));
    assert!(Engine::<u8>::keep_port("/dev/cu.usbmodem1101", true));
    assert!(!Engine::<u8>::keep_port("/dev/tty.usbmodem1101", true));
    assert!(!Engine::<u8>::keep_port("/dev/cu.Bluetooth-Incoming-Port", true));
    assert!(!Engine::<u8>::keep_port("/dev/cu.DEBUG-console", true));
    assert!(Engine::<u8>::keep_port("/dev/cu.Bluetooth", false));
}

#[test]
fn setpoints_outside_device_range_refused() {
    let v = Setpoint::Voltage;
    let c = Setpoint::Current;
    for text in ["35", "-5", "30.01", "100", "1.5e2"] {
        let formatted = format_decimal(text, 2);
        assert_eq!(
            v.check_range(&formatted, text).err().map(|e| e.message()),
            Some(format!("Voltage value out of range (0 to 30 V): {}", text))
        );
    }
    for text in ["8", "-1", "5.001", "5.5"] {
        let formatted = format_decimal(text, 3);
        assert_eq!(
            c.check_range(&formatted, text).err().map(|e| e.message()),
            Some(format!("Current value out of range (0 to 5 A): {}", text))
        );
    }
}

#[test]
fn setpoints_inside_device_range_accepted() {
    for text in ["0", "5", "12.345", "30", "30.00", "+7.5", "-0", ".5", "029.9"] {
        let formatted = format_decimal(text, 2);
        assert!(Setpoint::Voltage.check_range(&formatted, text).is_ok(), "{}", text);
    }
    for text in ["0", "1", "4.999", "5", "5.000", "-0.000"] {
        let formatted = format_decimal(text, 3);
        assert!(Setpoint::Current.check_range(&formatted, text).is_ok(), "{}", text);
    }
    assert_eq!(Setpoint::Voltage.max(), 30);
    assert_eq!(Setpoint::Current.max(), 5);
}

#[test]
fn setpoints_with_exponent_judged_on_value() {
    for text in ["1.e0", "1.e", "3.e1", "0.e5", "5.E0"] {
        let formatted = Setpoint::Voltage.format(text);
        assert!(formatted.parse::<f32>().is_ok(), "{}", formatted);
        assert!(Setpoint::Voltage.accept(text, &formatted, true).is_ok(), "{}", text);
    }
    for text in ["1.5E0", "5.0e0", "2.e-3", "50.e-1"] {
        let formatted = Setpoint::Current.format(text);
        assert!(formatted.parse::<f32>().is_ok(), "{}", formatted);
        assert!(Setpoint::Current.accept(text, &formatted, true).is_ok(), "{}", text);
    }
    for text in ["4.e1", "9.E9"] {
        let formatted = Setpoint::Voltage.format(text);
        assert_eq!(
            Setpoint::Voltage.accept(text, &formatted, true).err().map(|e| e.message()),
            Some(format!("Voltage value out of range (0 to 30 V): {}", text))
        );
    }
    for text in ["6.e0", "51.e-1", "5.1e0", "-1.e0"] {
        let formatted = Setpoint::Current.format(text);
        assert!(Setpoint::Current.accept(text, &formatted, true).is_err(), "{}", text);
    }
}

#[test]
fn setpoints_that_do_not_parse_are_invalid() {
    let formatted = Setpoint::Voltage.format("abc");
    assert_eq!(
        Setpoint::Voltage.accept("abc", &formatted, false).err().map(|e| e.message()),
        Some("Invalid voltage value: abc".to_string())
    );
    assert_eq!(
        Setpoint::Current.accept("x", "x.000", false).err().map(|e| e.message()),
        Some("Invalid current value: x".to_string())
    );
    assert!(Setpoint::Voltage.can_format("1.é5"));
    assert!(!Setpoint::Voltage.can_format("1.5é"));
}

#[test]
fn range_check_on_general_numerals() {
    let v = Setpoint::Voltage;
    for ok in ["30", "3e1", "300e-1", "0.0003e5", "+.5", "-0e9", "1e-99999999999999999999"] {
        assert!(v.check_range(ok, ok).is_ok(), "{}", ok);
    }
    for bad in ["30.0001", "31", "4e1", "1e99999999999999999999", "-1e-5", "inf", "nan", "1e", "e5", ".", "1.2.3"] {
        assert!(v.check_range(bad, bad).is_err(), "{}", bad);
    }
}

#[test]
fn failed_connection_changes_nothing() {
    let mut engine: Engine<u32> = Engine::new();
    let _ = engine.connect_device("a", Ok(1));
    let res = engine.connect_device("b", Err("No serial port found with serial number: X".to_string()));
    assert_eq!(res.err().map(|e| e.message()), Some("No serial port found with serial number: X".to_string()));
    let res = engine.connect_device("a", Err("busy".to_string()));
    assert!(res.is_err());
    assert_eq!(engine.list_instance_names(), vec!["a".to_string()]);
    assert_eq!(engine.get_runner("a").ok(), Some(&1));
    assert!(engine.connect_device("c", Ok(3)).is_ok());
}
