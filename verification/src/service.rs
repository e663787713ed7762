//! What the MCP tools of the power supply service decide and answer.
//!
//! Each tool is given what the devices reported and returns the text of its
//! answer, or the kind and text of its error.

use vstd::prelude::*;

use crate::engine::helpers::DeviceIdentity;
use crate::engine::running_status;
use crate::engine::Engine;
use crate::engine::EngineError;
use crate::text::decimal;
use crate::text::join;
use crate::text::push_decimal;
use crate::text::seq_join;
use crate::text::views;
use crate::types::spec_from_str_lossy;
use crate::types::spec_on_off_text;
use crate::types::OnOffValue;

verus! {

/// The kind of a tool error, as the MCP protocol codes it.
#[derive(Debug, Clone, Copy, PartialEq, Eq, Structural)]
pub enum ErrorCode {
    /// The request itself is wrong.
    InvalidParams,
    /// The request was right but could not be carried out.
    InternalError,
}

/// Why a tool call failed.
#[derive(Debug)]
pub struct ToolError {
    /// The kind of failure
    pub code: ErrorCode,
    /// What went wrong
    pub message: String,
}

/// A name between single quotes.
pub open spec fn quoted(name: Seq<char>) -> Seq<char> {
    "'"@ + name + "'"@
}

/// A tool error of the given kind and text.
pub open spec fn is_error(e: ToolError, code: ErrorCode, message: Seq<char>) -> bool {
    e.code == code && e.message@ == message
}

/// The text of a failure of an action on the instance `name`.
pub open spec fn failure_text(action: Seq<char>, name: Seq<char>, detail: Seq<char>) -> Seq<char> {
    "Failed to "@ + action + " for "@ + quoted(name) + ": "@ + detail
}

/// The text of an instance that does not exist.
pub open spec fn missing_instance_text(name: Seq<char>) -> Seq<char> {
    "Instance "@ + quoted(name) + " does not exist"@
}

/// `"'" + name + "'"`.
fn quote(out: &mut String, name: &str)
    ensures
        final(out)@ == old(out)@ + quoted(name@),
{
    out.append("'");
    out.append(name);
    out.append("'");
    assert(final(out)@ =~= old(out)@ + quoted(name@));
}

/// An internal error: "Failed to {action} for '{name}': {detail}".
fn failure(action: &str, name: &str, detail: &str) -> (e: ToolError)
    ensures
        is_error(e, ErrorCode::InternalError, failure_text(action@, name@, detail@)),
{
    let mut m = String::from_str("Failed to ");
    m.append(action);
    m.append(" for ");
    quote(&mut m, name);
    m.append(": ");
    m.append(detail);
    assert(m@ =~= failure_text(action@, name@, detail@));
    ToolError { code: ErrorCode::InternalError, message: m }
}

/// An invalid-parameters error for an instance that does not exist.
fn missing_instance(name: &str) -> (e: ToolError)
    ensures
        is_error(e, ErrorCode::InvalidParams, missing_instance_text(name@)),
{
    let mut m = String::from_str("Instance ");
    quote(&mut m, name);
    m.append(" does not exist");
    assert(m@ =~= missing_instance_text(name@));
    ToolError { code: ErrorCode::InvalidParams, message: m }
}

/// The answer of a tool: its text, or the kind and text of its error.
pub open spec fn answer(res: Result<String, ToolError>) -> Result<Seq<char>, (ErrorCode, Seq<char>)> {
    match res {
        Ok(m) => Ok(m@),
        Err(e) => Err((e.code, e.message@)),
    }
}

/// What `list_available_devices` answers.
pub open spec fn spec_list_available_devices(
    devices: Result<Vec<DeviceIdentity>, String>,
    devices_json: Result<String, String>,
) -> Result<Seq<char>, (ErrorCode, Seq<char>)> {
    match devices {
        Err(e) => Err(
            (ErrorCode::InternalError, "Failed to list available KORAD KD3005P devices: "@ + e@),
        ),
        Ok(d) => if d@.len() == 0 {
            Ok("No available serial devices found"@)
        } else {
            match devices_json {
                Err(e) => Err((ErrorCode::InternalError, "Failed to serialize devices: "@ + e@)),
                Ok(json) => Ok(
                    "Available serial devices ("@ + decimal(d@.len() as nat) + "):\n"@ + json@,
                ),
            }
        },
    }
}

/// What `check_instance` answers for an engine holding the runners `m`.
pub open spec fn spec_check_instance<R>(m: Map<Seq<char>, R>, name: Seq<char>) -> Result<
    Seq<char>,
    (ErrorCode, Seq<char>),
> {
    if m.dom().contains(name) {
        Ok("Instance "@ + quoted(name) + " status: "@ + running_status())
    } else {
        Err((ErrorCode::InvalidParams, missing_instance_text(name)))
    }
}

/// What `delete_instance` answers for an engine holding the runners `m`.
pub open spec fn spec_delete_instance<R>(m: Map<Seq<char>, R>, name: Seq<char>) -> Result<
    Seq<char>,
    (ErrorCode, Seq<char>),
> {
    if m.dom().contains(name) {
        Ok("Power supply instance "@ + quoted(name) + " deleted successfully"@)
    } else {
        Err((ErrorCode::InvalidParams, missing_instance_text(name)))
    }
}

/// The runners held after `create_instance` was handed `runner` for `name`.
pub open spec fn spec_after_create<R>(m: Map<Seq<char>, R>, name: Seq<char>, runner: Result<R, String>) -> Map<
    Seq<char>,
    R,
> {
    match runner {
        Ok(r) => m.insert(name, r),
        Err(_) => m,
    }
}

/// Whether the list of names holds `name`.
fn names_contain(names: &Vec<String>, name: &str) -> (b: bool)
    ensures
        b == views(names@).contains(name@),
{
    let key = String::from_str(name);
    let mut i: usize = 0;
    while i < names.len()
        invariant
            i <= names@.len(),
            key@ == name@,
            forall|j: int| 0 <= j < i ==> names@[j]@ != name@,
        decreases names.len() - i,
    {
        if names[i] == key {
            assert(views(names@)[i as int] == name@);
            return true;
        }
        i = i + 1;
    }
    assert forall|j: int| 0 <= j < views(names@).len() implies views(names@)[j] != name@ by {
        assert(views(names@)[j] == names@[j]@);
    }
    false
}

// ------------------------------------------------------------------------------
// Tools
// ------------------------------------------------------------------------------

/// List all available Korad KD3005P devices connected to the system.
///
/// `devices` is what the discovery found, or why it failed; `devices_json` is
/// the pretty JSON of the devices, or why it could not be made.
pub fn list_available_devices(
    devices: &Result<Vec<DeviceIdentity>, String>,
    devices_json: &Result<String, String>,
) -> (res: Result<String, ToolError>)
    ensures
        answer(res) == spec_list_available_devices(*devices, *devices_json),
{
    match devices {
        Err(e) => {
            let mut m = String::from_str("Failed to list available KORAD KD3005P devices: ");
            m.append(e.as_str());
            Err(ToolError { code: ErrorCode::InternalError, message: m })
        },
        Ok(d) => {
            if d.len() == 0 {
                Ok(String::from_str("No available serial devices found"))
            } else {
                match devices_json {
                    Err(e) => {
                        let mut m = String::from_str("Failed to serialize devices: ");
                        m.append(e.as_str());
                        Err(ToolError { code: ErrorCode::InternalError, message: m })
                    },
                    Ok(json) => {
                        let mut m = String::from_str("Available serial devices (");
                        push_decimal(&mut m, d.len());
                        m.append("):\n");
                        m.append(json.as_str());
                        Ok(m)
                    },
                }
            }
        },
    }
}

/// Create a new power supply instance.
///
/// `runner` is the connected device, or why connecting failed; on success it is
/// held under `name`, in place of any runner the name held before.
pub fn create_instance<R>(engine: &mut Engine<R>, name: &str, runner: Result<R, String>) -> (res:
    Result<String, ToolError>)
    requires
        old(engine).wf(),
    ensures
        final(engine).wf(),
        res is Ok <==> runner is Ok,
        final(engine)@ == spec_after_create(old(engine)@, name@, runner),
        runner matches Ok(r) ==> final(engine)@ == old(engine)@.insert(name@, r),
        runner is Err ==> final(engine)@ == old(engine)@ && final(engine).names() == old(
            engine,
        ).names(),
        res matches Ok(m) ==> m@ == "Power supply instance "@ + quoted(name@)
            + " created successfully"@,
        runner matches Err(e) ==> res matches Err(err) && is_error(
            err,
            ErrorCode::InternalError,
            "Failed to create power supply instance "@ + quoted(name@) + ": "@ + e@,
        ),
{
    match runner {
        Ok(r) => {
            let _ = engine.connect_device(name, Ok(r));
            let mut m = String::from_str("Power supply instance ");
            quote(&mut m, name);
            m.append(" created successfully");
            Ok(m)
        },
        Err(e) => {
            let mut m = String::from_str("Failed to create power supply instance ");
            quote(&mut m, name);
            m.append(": ");
            m.append(e.as_str());
            Err(ToolError { code: ErrorCode::InternalError, message: m })
        },
    }
}

/// Check the status of a power supply instance.
pub fn check_instance<R>(engine: &Engine<R>, name: &str) -> (res: Result<String, ToolError>)
    requires
        engine.wf(),
    ensures
        answer(res) == spec_check_instance(engine@, name@),
{
    proof {
        engine.law_listed_names_are_instances();
    }
    let instances = engine.list_instance_names();
    if !names_contain(&instances, name) {
        return Err(missing_instance(name));
    }
    match engine.get_instance_status(name) {
        Ok(status) => {
            let mut m = String::from_str("Instance ");
            quote(&mut m, name);
            m.append(" status: ");
            m.append(status.as_str());
            Ok(m)
        },
        Err(e) => {
            let detail = e.message();
            let mut m = String::from_str("Failed to get status for instance ");
            quote(&mut m, name);
            m.append(": ");
            m.append(detail.as_str());
            Err(ToolError { code: ErrorCode::InternalError, message: m })
        },
    }
}

/// List all active power supply instances.
pub fn list_instances<R>(engine: &Engine<R>) -> (m: String)
    requires
        engine.wf(),
    ensures
        engine.names().len() == 0 ==> m@ == "No power supply instances have been created yet"@,
        engine.names().len() > 0 ==> m@ == "Created power supply instances ("@ + decimal(
            engine.names().len(),
        ) + "): "@ + seq_join(engine.names(), ", "@),
{
    let instances = engine.list_instance_names();
    if instances.len() == 0 {
        String::from_str("No power supply instances have been created yet")
    } else {
        let instance_list = join(&instances, ", ");
        let mut m = String::from_str("Created power supply instances (");
        push_decimal(&mut m, instances.len());
        m.append("): ");
        m.append(instance_list.as_str());
        m
    }
}

/// The text of a successful change of setpoints.
pub open spec fn power_parameters_text(
    name: Seq<char>,
    voltage: Option<Seq<char>>,
    current: Option<Seq<char>>,
) -> Seq<char> {
    let parts = match (voltage, current) {
        (Some(v), Some(c)) => "voltage to "@ + v + " and "@ + "current to "@ + c,
        (Some(v), None) => "voltage to "@ + v,
        (None, Some(c)) => "current to "@ + c,
        (None, None) => seq![],
    };
    "Successfully set "@ + parts + " for power supply "@ + quoted(name)
}

/// The view of an optional string.
pub open spec fn opt_view(s: Option<String>) -> Option<Seq<char>> {
    match s {
        Some(x) => Some(x@),
        None => None,
    }
}

/// Set voltage and/or current parameters for a power supply: the request must
/// give at least one of them.
pub fn check_power_parameters(voltage: &Option<String>, current: &Option<String>) -> (res: Result<
    (),
    ToolError,
>)
    ensures
        res is Ok <==> (voltage is Some || current is Some),
        res matches Err(e) ==> is_error(
            e,
            ErrorCode::InvalidParams,
            "At least one of voltage or current must be provided"@,
        ),
{
    if voltage.is_none() && current.is_none() {
        return Err(
            ToolError {
                code: ErrorCode::InvalidParams,
                message: String::from_str("At least one of voltage or current must be provided"),
            },
        );
    }
    Ok(())
}

/// The answer once the setpoints of `name` have been set.
pub fn power_parameters_set(name: &str, voltage: &Option<String>, current: &Option<String>) -> (m:
    String)
    ensures
        m@ == power_parameters_text(name@, opt_view(*voltage), opt_view(*current)),
{
    let mut m = String::from_str("Successfully set ");
    match voltage {
        Some(v) => {
            m.append("voltage to ");
            m.append(v.as_str());
        },
        None => {},
    }
    match current {
        Some(c) => {
            if voltage.is_some() {
                m.append(" and ");
            }
            m.append("current to ");
            m.append(c.as_str());
        },
        None => {},
    }
    m.append(" for power supply ");
    quote(&mut m, name);
    assert(m@ =~= power_parameters_text(name@, opt_view(*voltage), opt_view(*current)));
    m
}

/// The error when the setpoints of `name` could not be set.
pub fn power_parameters_set_failed(name: &str, error: &EngineError) -> (e: ToolError)
    ensures
        is_error(
            e,
            ErrorCode::InternalError,
            failure_text("set power parameters"@, name@, crate::engine::spec_error_message(*error)),
        ),
{
    let detail = error.message();
    failure("set power parameters", name, detail.as_str())
}

/// The answer with the setpoints of `name`, already formatted.
pub fn power_parameters_report(name: &str, voltage: &str, current: &str) -> (m: String)
    ensures
        m@ == "Power supply "@ + quoted(name@) + " parameters: voltage = "@ + voltage@
            + ", current = "@ + current@,
{
    let mut m = String::from_str("Power supply ");
    quote(&mut m, name);
    m.append(" parameters: voltage = ");
    m.append(voltage);
    m.append(", current = ");
    m.append(current);
    m
}

/// The error when the setpoints of `name` could not be read.
pub fn power_parameters_read_failed(name: &str, error: &EngineError) -> (e: ToolError)
    ensures
        is_error(
            e,
            ErrorCode::InternalError,
            failure_text("get power parameters"@, name@, crate::engine::spec_error_message(*error)),
        ),
{
    let detail = error.message();
    failure("get power parameters", name, detail.as_str())
}

/// Set the power output state (on/off): the requested state must be `on` or
/// `off`, in any ASCII case.
pub fn parse_power_state(state: &str) -> (res: Result<OnOffValue, ToolError>)
    ensures
        res is Ok <==> spec_from_str_lossy(state@) is Some,
        res matches Ok(v) ==> spec_from_str_lossy(state@) == Some(v),
        res matches Err(e) ==> is_error(
            e,
            ErrorCode::InvalidParams,
            "Invalid state "@ + quoted(state@) + ". Must be 'on' or 'off'"@,
        ),
{
    match OnOffValue::from_str_lossy(state) {
        Some(v) => Ok(v),
        None => {
            let mut m = String::from_str("Invalid state ");
            quote(&mut m, state);
            m.append(". Must be 'on' or 'off'");
            Err(ToolError { code: ErrorCode::InvalidParams, message: m })
        },
    }
}

/// The answer once the output of `name` has been set as `state` asked.
pub fn power_state_set(name: &str, state: &str) -> (m: String)
    ensures
        m@ == "Successfully set power state to "@ + quoted(state@) + " for power supply "@ + quoted(
            name@,
        ),
{
    let mut m = String::from_str("Successfully set power state to ");
    quote(&mut m, state);
    m.append(" for power supply ");
    quote(&mut m, name);
    m
}

/// The error when the output of `name` could not be set.
pub fn power_state_set_failed(name: &str, error: &EngineError) -> (e: ToolError)
    ensures
        is_error(
            e,
            ErrorCode::InternalError,
            failure_text("set power state"@, name@, crate::engine::spec_error_message(*error)),
        ),
{
    let detail = error.message();
    failure("set power state", name, detail.as_str())
}

/// The answer with the output state of `name`.
pub fn power_state_report(name: &str, state: OnOffValue) -> (m: String)
    ensures
        m@ == "Power supply "@ + quoted(name@) + " state: "@ + spec_on_off_text(state),
{
    let mut m = String::from_str("Power supply ");
    quote(&mut m, name);
    m.append(" state: ");
    m.append(state.as_str());
    m
}

/// The error when the output state of `name` could not be read.
pub fn power_state_read_failed(name: &str, error: &EngineError) -> (e: ToolError)
    ensures
        is_error(
            e,
            ErrorCode::InternalError,
            failure_text("get power state"@, name@, crate::engine::spec_error_message(*error)),
        ),
{
    let detail = error.message();
    failure("get power state", name, detail.as_str())
}

/// Delete a power supply instance and close its connection.
pub fn delete_instance<R>(engine: &mut Engine<R>, name: &str) -> (res: Result<String, ToolError>)
    requires
        old(engine).wf(),
    ensures
        final(engine).wf(),
        final(engine)@ == old(engine)@.remove(name@),
        answer(res) == spec_delete_instance(old(engine)@, name@),
{
    proof {
        engine.law_listed_names_are_instances();
    }
    let instances = engine.list_instance_names();
    if !names_contain(&instances, name) {
        assert(old(engine)@.remove(name@) =~= old(engine)@);
        return Err(missing_instance(name));
    }
    match engine.delete_instance(name) {
        Ok(_runner) => {
            let mut m = String::from_str("Power supply instance ");
            quote(&mut m, name);
            m.append(" deleted successfully");
            Ok(m)
        },
        Err(e) => {
            let detail = e.message();
            let mut m = String::from_str("Failed to delete power supply instance ");
            quote(&mut m, name);
            m.append(": ");
            m.append(detail.as_str());
            Err(ToolError { code: ErrorCode::InternalError, message: m })
        },
    }
}

// ------------------------------------------------------------------------------
// Laws
// ------------------------------------------------------------------------------

/// Law: a successful discovery is answered with the number of devices found
/// and their JSON, unless it found none; only an empty list is answered with
/// "No available serial devices found"; a failed discovery is an internal error.
pub proof fn law_list_available_devices(
    devices: Result<Vec<DeviceIdentity>, String>,
    devices_json: Result<String, String>,
)
    ensures
        devices is Ok && devices->Ok_0@.len() > 0 && devices_json is Ok
            ==> spec_list_available_devices(devices, devices_json) == Ok::<
            Seq<char>,
            (ErrorCode, Seq<char>),
        >(
            "Available serial devices ("@ + decimal(devices->Ok_0@.len() as nat) + "):\n"@
                + devices_json->Ok_0@,
        ),
        devices is Ok && devices->Ok_0@.len() == 0 ==> spec_list_available_devices(
            devices,
            devices_json,
        ) == Ok::<Seq<char>, (ErrorCode, Seq<char>)>("No available serial devices found"@),
        devices is Err ==> (spec_list_available_devices(devices, devices_json) is Err
            && spec_list_available_devices(devices, devices_json)->Err_0.0 == ErrorCode::InternalError),
{
}

/// Law: an instance that has just been created reports as running.
pub proof fn law_check_after_create<R>(m: Map<Seq<char>, R>, name: Seq<char>, runner: R)
    ensures
        spec_check_instance(m.insert(name, runner), name) == Ok::<Seq<char>, (ErrorCode, Seq<char>)>(
            "Instance "@ + quoted(name) + " status: "@ + running_status(),
        ),
{
}

/// Law: a connection that failed inserts no runner and replaces none: every
/// instance, the named one included, is answered about as before.
pub proof fn law_failed_connection_keeps_instances<R>(
    m: Map<Seq<char>, R>,
    name: Seq<char>,
    error: String,
    other: Seq<char>,
)
    ensures
        spec_after_create(m, name, Err::<R, String>(error)) == m,
        spec_check_instance(spec_after_create(m, name, Err::<R, String>(error)), other)
            == spec_check_instance(m, other),
{
}

/// Law: a deleted instance is gone: checking it or deleting it again is refused
/// as invalid parameters.
pub proof fn law_gone_after_delete<R>(m: Map<Seq<char>, R>, name: Seq<char>)
    ensures
        spec_check_instance(m.remove(name), name) == Err::<Seq<char>, (ErrorCode, Seq<char>)>(
            (ErrorCode::InvalidParams, missing_instance_text(name)),
        ),
        spec_delete_instance(m.remove(name), name) == Err::<Seq<char>, (ErrorCode, Seq<char>)>(
            (ErrorCode::InvalidParams, missing_instance_text(name)),
        ),
{
}

/// Law: creating or deleting one instance does not change what is answered
/// about another.
pub proof fn law_other_instances_unaffected<R>(
    m: Map<Seq<char>, R>,
    name: Seq<char>,
    other: Seq<char>,
    runner: R,
)
    requires
        other != name,
    ensures
        spec_check_instance(m.insert(name, runner), other) == spec_check_instance(m, other),
        spec_check_instance(m.remove(name), other) == spec_check_instance(m, other),
        spec_delete_instance(m.insert(name, runner), other) == spec_delete_instance(m, other),
        spec_delete_instance(m.remove(name), other) == spec_delete_instance(m, other),
{
}

} // verus!
