use finale_bridge::config::Input;
use finale_bridge::jvs::init_step;
use finale_bridge::jvs::JvsPhase;
use finale_bridge::jvs::map_input_settings;
use finale_bridge::jvs::read_digital;
use finale_bridge::keyboard::Keyboard;

#[test]
fn digital_report_sets_service_and_test() {
    let input = Input::default();
    let map = map_input_settings(&input);
    let mut kb = Keyboard::new();
    let events = read_digital(
        &mut kb,
        input.service,
        input.test,
        &map,
        &[0x00, 0x80, 0x40, 0x00, 0x00, 0x00],
    );
    assert!(kb.is_pressed(&input.service));
    assert!(kb.is_pressed(&input.test));
    assert!(events.contains(&(input.service, true)));
    assert!(events.contains(&(input.test, true)));
    // the decoder issues the switch intents first, in a fixed order
    assert_eq!(&events[..2], &[(input.test, true), (input.service, true)]);

    // the same switch bits with every button bit set (buttons are
    // active-low, so all released) still press service and test
    let mut kb2 = Keyboard::new();
    read_digital(
        &mut kb2,
        input.service,
        input.test,
        &map,
        &[0x00, 0x80, 0xFF, 0xFF, 0xFF, 0xFF],
    );
    assert!(kb2.is_pressed(&input.service));
    assert!(kb2.is_pressed(&input.test));
    assert!(!kb2.is_pressed(&input.p1_btn1));
    assert!(!kb2.is_pressed(&input.p2_btn4));
}

#[test]
fn buttons_are_active_low() {
    let input = Input::default();
    let map = map_input_settings(&input);
    let mut kb = Keyboard::new();
    // group 0 bits 0, 2, 3 cleared: buttons 3, 1, 2 of player 1 pressed
    read_digital(
        &mut kb,
        input.service,
        input.test,
        &map,
        &[0x00, 0x00, 0xF2, 0xFF, 0xFF, 0xFF],
    );
    assert!(kb.is_pressed(&input.p1_btn1));
    assert!(kb.is_pressed(&input.p1_btn2));
    assert!(kb.is_pressed(&input.p1_btn3));
    assert!(!kb.is_pressed(&input.p1_btn4));
    assert!(!kb.is_pressed(&input.service));
}

#[test]
fn repeated_report_emits_nothing() {
    let input = Input::default();
    let map = map_input_settings(&input);
    let mut kb = Keyboard::new();
    let report: &[u8] = &[0x00, 0x80, 0x40, 0x00, 0x00, 0x00];
    let first = read_digital(&mut kb, input.service, input.test, &map, report);
    assert!(!first.is_empty());
    let second = read_digital(&mut kb, input.service, input.test, &map, report);
    assert!(second.is_empty());
}

#[test]
fn startup_phases_run_in_order() {
    let mut phase = JvsPhase::Reset;
    let mut seen = Vec::new();
    while phase != JvsPhase::DigitalPollLoop {
        let (dest, payload, next) = init_step(phase, 1);
        seen.push((dest, payload));
        phase = next;
    }
    assert_eq!(seen.len(), 7);
    assert_eq!(seen[0], (0xFF, vec![0xF0, 0xD9]));
    assert_eq!(seen[1], (0xFF, vec![0xF1, 0x01]));
    assert_eq!(seen[2], (0x01, vec![0x10]));
    assert_eq!(seen[3], (0x01, vec![0x11]));
    assert_eq!(seen[4], (0x01, vec![0x12]));
    assert_eq!(seen[5], (0x01, vec![0x13]));
    assert_eq!(seen[6], (0x01, vec![0x14]));
    let (dest, poll, next) = init_step(phase, 1);
    assert_eq!((dest, poll), (0x01, vec![0x20, 0x02, 0x02]));
    assert!(matches!(next, JvsPhase::DigitalPollLoop));
}
