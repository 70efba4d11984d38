use tcu_telemetry::channel::channel_config;
use tcu_telemetry::frame::N_CHANNELS;

#[test]
fn one_entry_per_channel() {
    assert_eq!(channel_config().len(), N_CHANNELS);
}

#[test]
fn labels_and_colors_are_fixed() {
    let config = channel_config();
    let expected = [
        ("Line Pressure VCC", (255, 0, 0)),
        ("Shift Solenoid 1", (0, 0, 255)),
        ("Shift Solenoid 2", (0, 255, 0)),
        ("TC Lockup", (0, 255, 255)),
        ("Line Pressure GND", (255, 0, 255)),
        ("VSS", (255, 255, 0)),
        ("RPM", (0, 0, 0)),
    ];
    for (info, (label, (red, green, blue))) in config.iter().zip(expected) {
        assert_eq!(info.label, label);
        assert_eq!((info.red, info.green, info.blue), (red, green, blue));
    }
}
