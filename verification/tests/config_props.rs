use finale_bridge::config::Input;
use finale_bridge::config::Settings;

#[test]
fn default_settings_disable_everything() {
    let s = Settings::default();
    assert!(!s.touch && !s.jvs && !s.reader && !s.spice_api);
    assert!(s.reader_device_file.is_none());
    assert_eq!(s.jvs_port, "COM24");
    assert_eq!(s.reader_port, "COM22");
    assert_eq!(s.touch_finale_port, "COM23");
}

#[test]
fn default_input_uses_stock_keys() {
    let i = Input::default();
    assert_eq!(i.service, 0x33);
    assert_eq!(i.test, 0x54);
    assert_eq!(i.p1_btn1, 0x57);
    assert_eq!(i.p2_btn1, 0x68);
}
