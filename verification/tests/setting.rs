use bevy_serial::setting::DEFAULT_BAUD_RATE;
use bevy_serial::{DataBits, FlowControl, Parity, SerialPlugin, SerialSetting, StopBits};

#[test]
fn default_setting_has_the_default_line() {
    let setting = SerialSetting::default();
    assert_eq!(setting.label, None);
    assert_eq!(setting.port_name, "");
    assert_eq!(setting.baud_rate, 115200);
    assert_eq!(setting.data_bits, DataBits::Eight);
    assert_eq!(setting.flow_control, FlowControl::Off);
    assert_eq!(setting.parity, Parity::Off);
    assert_eq!(setting.stop_bits, StopBits::One);
    assert_eq!(setting.timeout_millis, 0);
    assert_eq!(DEFAULT_BAUD_RATE, 115200);
}

#[test]
fn new_plugin_holds_one_setting() {
    let plugin = SerialPlugin::new("COM5", 9600);
    assert_eq!(
        plugin,
        SerialPlugin {
            settings: vec![SerialSetting {
                label: None,
                port_name: "COM5".to_string(),
                baud_rate: 9600,
                data_bits: DataBits::Eight,
                flow_control: FlowControl::Off,
                parity: Parity::Off,
                stop_bits: StopBits::One,
                timeout_millis: 0,
            }],
        }
    );
}

#[test]
fn new_plugin_differs_from_default_only_in_name_and_rate() {
    let plugin = SerialPlugin::new("/dev/ttyUSB0", 57600);
    let expected = SerialSetting {
        port_name: "/dev/ttyUSB0".to_string(),
        baud_rate: 57600,
        ..Default::default()
    };
    assert_eq!(plugin.settings, vec![expected]);
}

#[test]
fn label_resolves_to_port_name_when_absent() {
    let setting = SerialSetting { port_name: "/dev/ttyS1".to_string(), ..Default::default() };
    assert_eq!(setting.resolved_label(), "/dev/ttyS1");
}

#[test]
fn explicit_label_wins_over_port_name() {
    let setting = SerialSetting {
        label: Some("my_serial".to_string()),
        port_name: "COM5".to_string(),
        ..Default::default()
    };
    assert_eq!(setting.resolved_label(), "my_serial");
}

#[test]
fn empty_label_is_a_label() {
    let setting = SerialSetting {
        label: Some(String::new()),
        port_name: "COM5".to_string(),
        ..Default::default()
    };
    assert_eq!(setting.resolved_label(), "");
}
