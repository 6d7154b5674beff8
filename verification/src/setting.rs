//! Startup configuration of the serial ports.

use vstd::prelude::*;

verus! {

/// Number of bits that represent one character on the line.
#[derive(Debug, Clone, Copy, PartialEq, Eq, Structural)]
pub enum DataBits {
    Five,
    Six,
    Seven,
    Eight,
}

/// Signalling used to control the data transfer.
#[derive(Debug, Clone, Copy, PartialEq, Eq, Structural)]
pub enum FlowControl {
    Off,
    Software,
    Hardware,
}

/// Parity checking mode.
#[derive(Debug, Clone, Copy, PartialEq, Eq, Structural)]
pub enum Parity {
    Off,
    Odd,
    Even,
}

/// Number of bits that signal the end of a character.
#[derive(Debug, Clone, Copy, PartialEq, Eq, Structural)]
pub enum StopBits {
    One,
    Two,
}

/// Baud rate of a port for which none was chosen.
pub const DEFAULT_BAUD_RATE: u32 = 115200;

/// Settings of one serial port.
#[derive(Debug, Clone, PartialEq, Eq)]
pub struct SerialSetting {
    /// The name by which callers address this port; the port name if absent.
    pub label: Option<String>,
    /// The port name, usually the device path.
    pub port_name: String,
    /// The baud rate in symbols per second.
    pub baud_rate: u32,
    /// Number of bits used to represent a character sent on the line.
    pub data_bits: DataBits,
    /// The type of signalling to use for controlling data transfer.
    pub flow_control: FlowControl,
    /// The type of parity to use for error checking.
    pub parity: Parity,
    /// Number of bits to use to signal the end of a character.
    pub stop_bits: StopBits,
    /// Time to wait for data before a read times out, in milliseconds.
    pub timeout_millis: u64,
}

impl SerialSetting {
    /// The line parameters that a setting has unless others are chosen:
    /// 115200 baud, eight data bits, no flow control, no parity, one stop
    /// bit, no read timeout.
    pub open spec fn has_default_line(&self) -> bool {
        &&& self.baud_rate == DEFAULT_BAUD_RATE
        &&& self.data_bits == DataBits::Eight
        &&& self.flow_control == FlowControl::Off
        &&& self.parity == Parity::Off
        &&& self.stop_bits == StopBits::One
        &&& self.timeout_millis == 0
    }

    /// The label under which the port is addressed: the explicit label where
    /// one is given, else the port name.
    pub open spec fn spec_resolved_label(&self) -> Seq<char> {
        match self.label {
            Some(label) => label@,
            None => self.port_name@,
        }
    }

    /// Returns the label under which the port is addressed.
    pub fn resolved_label(&self) -> (label: String)
        ensures
            label@ == self.spec_resolved_label(),
    {
        match &self.label {
            Some(label) => label.clone(),
            None => self.port_name.clone(),
        }
    }
}

impl Default for SerialSetting {
    /// A setting without label and with an empty port name, on the default
    /// line parameters.
    fn default() -> (setting: SerialSetting)
        ensures
            setting.label is None,
            setting.port_name@ == Seq::<char>::empty(),
            setting.has_default_line(),
    {
        SerialSetting {
            label: None,
            port_name: String::new(),
            baud_rate: DEFAULT_BAUD_RATE,
            data_bits: DataBits::Eight,
            flow_control: FlowControl::Off,
            parity: Parity::Off,
            stop_bits: StopBits::One,
            timeout_millis: 0,
        }
    }
}

/// The ports that a host wants multiplexed, in slot order.
#[derive(Debug, Clone, PartialEq, Eq)]
pub struct SerialPlugin {
    pub settings: Vec<SerialSetting>,
}

impl SerialPlugin {
    /// A configuration of one port, named `port_name`, at `baud_rate`, with
    /// no label and otherwise the default line parameters.
    pub fn new(port_name: &str, baud_rate: u32) -> (plugin: SerialPlugin)
        ensures
            plugin.settings@.len() == 1,
            plugin.settings@[0].label is None,
            plugin.settings@[0].port_name@ == port_name@,
            plugin.settings@[0].baud_rate == baud_rate,
            plugin.settings@[0].data_bits == DataBits::Eight,
            plugin.settings@[0].flow_control == FlowControl::Off,
            plugin.settings@[0].parity == Parity::Off,
            plugin.settings@[0].stop_bits == StopBits::One,
            plugin.settings@[0].timeout_millis == 0,
    {
        let setting = SerialSetting {
            label: None,
            port_name: port_name.to_owned(),
            baud_rate,
            data_bits: DataBits::Eight,
            flow_control: FlowControl::Off,
            parity: Parity::Off,
            stop_bits: StopBits::One,
            timeout_millis: 0,
        };
        let mut settings: Vec<SerialSetting> = Vec::new();
        settings.push(setting);
        SerialPlugin { settings }
    }
}

} // verus!
