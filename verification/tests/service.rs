use mcp_srv_korad_kd3005p::engine::helpers::DeviceIdentity;
use mcp_srv_korad_kd3005p::engine::Engine;
use mcp_srv_korad_kd3005p::engine::EngineError;
use mcp_srv_korad_kd3005p::runner::output_commands;
use mcp_srv_korad_kd3005p::runner::protection_commands;
use mcp_srv_korad_kd3005p::runner::RunnerCommand;
use mcp_srv_korad_kd3005p::service::check_instance;
use mcp_srv_korad_kd3005p::service::check_power_parameters;
use mcp_srv_korad_kd3005p::service::create_instance;
use mcp_srv_korad_kd3005p::service::delete_instance;
use mcp_srv_korad_kd3005p::service::list_available_devices;
use mcp_srv_korad_kd3005p::service::list_instances;
use mcp_srv_korad_kd3005p::service::parse_power_state;
use mcp_srv_korad_kd3005p::service::power_parameters_read_failed;
use mcp_srv_korad_kd3005p::service::power_parameters_report;
use mcp_srv_korad_kd3005p::service::power_parameters_set;
use mcp_srv_korad_kd3005p::service::power_parameters_set_failed;
use mcp_srv_korad_kd3005p::service::power_state_read_failed;
use mcp_srv_korad_kd3005p::service::power_state_report;
use mcp_srv_korad_kd3005p::service::power_state_set;
use mcp_srv_korad_kd3005p::service::power_state_set_failed;
use mcp_srv_korad_kd3005p::service::ErrorCode;
use mcp_srv_korad_kd3005p::service::ToolError;
use mcp_srv_korad_kd3005p::trace::Level;
use mcp_srv_korad_kd3005p::trace::TraceBootstrap;
use mcp_srv_korad_kd3005p::types::OnOffValue;

fn err_of(res: Result<String, ToolError>) -> (ErrorCode, String) {
    let e = res.unwrap_err();
    (e.code, e.message)
}

#[test]
fn no_devices_listed() {
    let res = list_available_devices(&Ok(Vec::new()), &Ok("[]".to_string()));
    assert_eq!(res.unwrap(), "No available serial devices found");
}

#[test]
fn devices_listed_with_count() {
    let devices = vec![
        DeviceIdentity { product: "KORAD KD3005P".to_string(), serial_number: "A".to_string() },
        DeviceIdentity { product: "KORAD KD3005P".to_string(), serial_number: "B".to_string() },
    ];
    let res = list_available_devices(&Ok(devices), &Ok("[json]".to_string()));
    assert_eq!(res.unwrap(), "Available serial devices (2):\n[json]");
}

#[test]
fn device_listing_errors() {
    let res = list_available_devices(&Err("no ports".to_string()), &Ok(String::new()));
    assert_eq!(
        err_of(res),
        (ErrorCode::InternalError, "Failed to list available KORAD KD3005P devices: no ports".to_string())
    );
    let devices = vec![DeviceIdentity { product: "KORAD KD3005P".to_string(), serial_number: "A".to_string() }];
    let res = list_available_devices(&Ok(devices), &Err("bad".to_string()));
    assert_eq!(err_of(res), (ErrorCode::InternalError, "Failed to serialize devices: bad".to_string()));
}

#[test]
fn create_check_list_delete() {
    let mut engine: Engine<u32> = Engine::new();
    assert_eq!(list_instances(&engine), "No power supply instances have been created yet");
    assert_eq!(
        create_instance(&mut engine, "bench", Ok(1)).unwrap(),
        "Power supply instance 'bench' created successfully"
    );
    assert_eq!(
        check_instance(&engine, "bench").unwrap(),
        "Instance 'bench' status: Instance is running normally."
    );
    create_instance(&mut engine, "lab", Ok(2)).unwrap();
    assert_eq!(list_instances(&engine), "Created power supply instances (2): bench, lab");
    assert_eq!(
        delete_instance(&mut engine, "bench").unwrap(),
        "Power supply instance 'bench' deleted successfully"
    );
    assert_eq!(
        err_of(check_instance(&engine, "bench")),
        (ErrorCode::InvalidParams, "Instance 'bench' does not exist".to_string())
    );
    assert_eq!(
        err_of(delete_instance(&mut engine, "bench")),
        (ErrorCode::InvalidParams, "Instance 'bench' does not exist".to_string())
    );
    assert_eq!(list_instances(&engine), "Created power supply instances (1): lab");
}

#[test]
fn failed_creation_keeps_engine() {
    let mut engine: Engine<u32> = Engine::new();
    let res = create_instance(&mut engine, "bench", Err("No serial port found with serial number: X".to_string()));
    assert_eq!(
        err_of(res),
        (
            ErrorCode::InternalError,
            "Failed to create power supply instance 'bench': No serial port found with serial number: X".to_string()
        )
    );
    assert!(engine.list_instance_names().is_empty());
    create_instance(&mut engine, "lab", Ok(4)).unwrap();
    assert!(create_instance(&mut engine, "lab", Err("busy".to_string())).is_err());
    assert_eq!(engine.get_runner("lab").ok(), Some(&4));
}

#[test]
fn power_parameters_need_a_value() {
    let e = check_power_parameters(&None, &None).unwrap_err();
    assert_eq!(e.code, ErrorCode::InvalidParams);
    assert_eq!(e.message, "At least one of voltage or current must be provided");
    assert!(check_power_parameters(&Some("5".to_string()), &None).is_ok());
    assert!(check_power_parameters(&None, &Some("1".to_string())).is_ok());
}

#[test]
fn power_parameters_messages() {
    assert_eq!(
        power_parameters_set("psu", &Some("5".to_string()), &Some("1.2".to_string())),
        "Successfully set voltage to 5 and current to 1.2 for power supply 'psu'"
    );
    assert_eq!(
        power_parameters_set("psu", &Some("5".to_string()), &None),
        "Successfully set voltage to 5 for power supply 'psu'"
    );
    assert_eq!(
        power_parameters_set("psu", &None, &Some("1".to_string())),
        "Successfully set current to 1 for power supply 'psu'"
    );
    let e = power_parameters_set_failed("psu", &EngineError::InvalidVoltage("abc".to_string()));
    assert_eq!(e.code, ErrorCode::InternalError);
    assert_eq!(e.message, "Failed to set power parameters for 'psu': Invalid voltage value: abc");
    assert_eq!(
        power_parameters_report("psu", "5.00", "1.000"),
        "Power supply 'psu' parameters: voltage = 5.00, current = 1.000"
    );
    let e = power_parameters_read_failed("psu", &EngineError::InstanceNotFound("psu".to_string()));
    assert_eq!(e.message, "Failed to get power parameters for 'psu': Power supply instance 'psu' not found");
}

#[test]
fn power_state_messages() {
    assert_eq!(parse_power_state("ON").unwrap(), OnOffValue::On);
    assert_eq!(parse_power_state("off").unwrap(), OnOffValue::Off);
    let e = parse_power_state("maybe").unwrap_err();
    assert_eq!(e.code, ErrorCode::InvalidParams);
    assert_eq!(e.message, "Invalid state 'maybe'. Must be 'on' or 'off'");
    assert_eq!(power_state_set("psu", "ON"), "Successfully set power state to 'ON' for power supply 'psu'");
    assert_eq!(power_state_report("psu", OnOffValue::Off), "Power supply 'psu' state: off");
    let e = power_state_set_failed("psu", &EngineError::Device("link down".to_string()));
    assert_eq!(e.message, "Failed to set power state for 'psu': link down");
    let e = power_state_read_failed("psu", &EngineError::Device("link down".to_string()));
    assert_eq!(e.message, "Failed to get power state for 'psu': link down");
}

#[test]
fn runner_commands() {
    assert_eq!(
        protection_commands(),
        vec![RunnerCommand::Ovp(OnOffValue::On), RunnerCommand::Ocp(OnOffValue::On)]
    );
    assert_eq!(output_commands(OnOffValue::On), vec![RunnerCommand::Power(OnOffValue::On)]);
    assert_eq!(
        output_commands(OnOffValue::Off),
        vec![RunnerCommand::Power(OnOffValue::Off), RunnerCommand::Save(1)]
    );
}

#[test]
fn trace_builder() {
    let b = TraceBootstrap::default();
    assert_eq!(b.filter_directives(), "info,");
    let b = TraceBootstrap::default().with_level(Level::Trace).with_fn_spans(true).filter_rmcp();
    assert_eq!(b.filter_directives(), "trace,rmcp=off");
    assert!(b.with_fn_spans);
    assert!(!b.display_target);
    let b = b.display_target(true).filter_rmcp().with_level(Level::Warn);
    assert_eq!(b.filter_directives(), "warn,rmcp=off,rmcp=off");
    assert!(b.display_target);
    assert_eq!(TraceBootstrap::default().with_level(Level::Error).level_name(), "error");
    assert_eq!(TraceBootstrap::default().with_level(Level::Debug).level_name(), "debug");
}
