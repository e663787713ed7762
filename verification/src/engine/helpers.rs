//! Device identification and port discovery.

use vstd::prelude::*;

use crate::engine::EngineError;

verus! {

/// Device identity information for Korad power supplies.
///
/// Used to identify and locate power supply devices on available serial ports.
#[derive(Debug)]
pub struct DeviceIdentity {
    /// Product name
    pub product: String,
    /// Serial number of the device
    pub serial_number: String,
}

/// What the USB layer reports of a port: vendor and product ids and, when the
/// device gives one, its serial number.
#[derive(Debug)]
pub struct UsbPortInfo {
    /// USB vendor id
    pub vid: u16,
    /// USB product id
    pub pid: u16,
    /// USB serial number, when the device reports one
    pub serial_number: Option<String>,
}

/// The kind of a serial port.
#[derive(Debug)]
pub enum SerialPortType {
    /// A port behind USB
    UsbPort(UsbPortInfo),
    /// A port on a PCI card
    PciPort,
    /// A Bluetooth port
    BluetoothPort,
    /// A port of unknown kind
    Unknown,
}

/// A serial port found on the system.
#[derive(Debug)]
pub struct SerialPortInfo {
    /// The name by which the port is opened
    pub port_name: String,
    /// The kind of the port
    pub port_type: SerialPortType,
}

/// The USB serial number of a port, if it is a USB port that reports one.
pub open spec fn usb_serial(p: SerialPortInfo) -> Option<Seq<char>> {
    match p.port_type {
        SerialPortType::UsbPort(usb) => match usb.serial_number {
            Some(sn) => Some(sn@),
            None => None,
        },
        _ => None,
    }
}

/// Whether port `i` of `ports` is the first one whose USB serial number is `sn`.
pub open spec fn first_port_with_serial(ports: Seq<SerialPortInfo>, sn: Seq<char>, i: int) -> bool {
    &&& 0 <= i < ports.len()
    &&& usb_serial(ports[i]) == Some(sn)
    &&& forall|j: int| 0 <= j < i ==> usb_serial(#[trigger] ports[j]) != Some(sn)
}

/// Find the serial port name by device serial number.
///
/// Searches the given ports and returns the name of the first USB port whose
/// serial number is the one provided, or an error if there is none.
pub fn find_port_name_by_serial_number(ports: &Vec<SerialPortInfo>, serial_number: &str) -> (res:
    Result<String, EngineError>)
    ensures
        res is Ok <==> exists|i: int| 0 <= i < ports@.len() && usb_serial(ports@[i]) == Some(
            serial_number@,
        ),
        res matches Ok(name) ==> exists|i: int|
            first_port_with_serial(ports@, serial_number@, i) && name@ == ports@[i].port_name@,
        res matches Err(e) ==> e matches EngineError::PortNotFound(sn) && sn@ == serial_number@,
{
    let key = String::from_str(serial_number);
    let mut i: usize = 0;
    while i < ports.len()
        invariant
            i <= ports@.len(),
            key@ == serial_number@,
            forall|j: int| 0 <= j < i ==> usb_serial(#[trigger] ports@[j]) != Some(serial_number@),
        decreases ports.len() - i,
    {
        if let SerialPortType::UsbPort(usb_info) = &ports[i].port_type {
            if let Some(port_serial_number) = &usb_info.serial_number {
                if *port_serial_number == key {
                    assert(first_port_with_serial(ports@, serial_number@, i as int));
                    return Ok(ports[i].port_name.clone());
                }
            }
        }
        i = i + 1;
    }
    Err(EngineError::PortNotFound(key))
}

} // verus!
