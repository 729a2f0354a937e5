use finale_bridge::touch::remap_report;
use finale_bridge::touch::process_frame;
use finale_bridge::touch::halt_frame;
use finale_bridge::touch::stat_frame;
use finale_bridge::touch::AllsMessageCmd;
use finale_bridge::touch::AllsTouchMasterCommand;
use finale_bridge::touch::DeluxeAction;
use finale_bridge::touch::RingEdge2;

#[test]
fn remap_all_zero_is_default() {
    let out = remap_report(&[0x00, 0x00, 0x00, 0x00]);
    assert_eq!(out, vec![0x28, 0, 0, 0, 0, 0, 0, 0, 0x29]);
}

#[test]
fn remap_single_bit_sets_three_areas() {
    // group 0, bit 0 maps to three destination areas
    let out = remap_report(&[0x01, 0x00, 0x00, 0x00]);
    assert_eq!(out, vec![0x28, 0x01, 0, 0, 0x18, 0, 0, 0, 0x29]);
    // group 0, bit 1 likewise
    let out = remap_report(&[0x02, 0x00, 0x00, 0x00]);
    assert_eq!(out, vec![0x28, 0, 0x08, 0, 0, 0, 0x06, 0, 0x29]);
}

#[test]
fn from_buf_recognizes_control_frames() {
    assert_eq!(
        AllsTouchMasterCommand::from_buf(b"{RSET}"),
        AllsTouchMasterCommand::Reset
    );
    assert_eq!(
        AllsTouchMasterCommand::from_buf(b"{HALT}"),
        AllsTouchMasterCommand::Halt
    );
    assert_eq!(
        AllsTouchMasterCommand::from_buf(b"{STAT}"),
        AllsTouchMasterCommand::Stat
    );
    assert_eq!(
        AllsTouchMasterCommand::from_buf(&[0x7B, 1, 2, 0x6B, 9, 0x7D]),
        AllsTouchMasterCommand::Sens(1, 2, 9)
    );
    assert_eq!(
        AllsTouchMasterCommand::from_buf(&[0x7B, 3, 4, 0x72, 8, 0x7D]),
        AllsTouchMasterCommand::Ratio(3, 4, 8)
    );
    assert_eq!(
        AllsTouchMasterCommand::from_buf(b"{XYZW}"),
        AllsTouchMasterCommand::Unknown
    );
}

#[test]
fn process_frame_restores_delimiters_on_reply() {
    match process_frame(&[0x7B, 1, 2, 0x6B, 5, 0x7D]) {
        DeluxeAction::Reply(v) => assert_eq!(v, vec![0x28, 1, 2, 0x6B, 5, 0x29]),
        _ => panic!("expected a reply"),
    }
    assert!(matches!(process_frame(b"{HALT}"), DeluxeAction::Deactivate));
    assert!(matches!(process_frame(b"{RSET}"), DeluxeAction::Deactivate));
    assert!(matches!(process_frame(b"{STAT}"), DeluxeAction::Activate));
    assert!(matches!(process_frame(b"{....}"), DeluxeAction::Unknown));
}

#[test]
fn coordinator_toggles_forwarding() {
    let mut re2 = RingEdge2::new();
    assert!(re2.is_active(0) && re2.is_active(1));
    let r = re2.parse_command_from_alls(&AllsMessageCmd {
        player_num: 0,
        cmd: AllsTouchMasterCommand::Halt,
    });
    assert!(r.is_none());
    assert!(!re2.is_active(0) && re2.is_active(1));
    let r = re2.parse_command_from_alls(&AllsMessageCmd {
        player_num: 0,
        cmd: AllsTouchMasterCommand::Stat,
    });
    assert!(r.is_none());
    assert!(re2.is_active(0));
    // a reset disables forwarding just like a halt
    let r = re2.parse_command_from_alls(&AllsMessageCmd {
        player_num: 0,
        cmd: AllsTouchMasterCommand::Reset,
    });
    assert!(r.is_none());
    assert!(!re2.is_active(0) && re2.is_active(1));
    re2.parse_command_from_alls(&AllsMessageCmd {
        player_num: 0,
        cmd: AllsTouchMasterCommand::Stat,
    });
    assert!(re2.is_active(0));
    let r = re2.parse_command_from_alls(&AllsMessageCmd {
        player_num: 1,
        cmd: AllsTouchMasterCommand::Sens(1, 2, 7),
    });
    assert_eq!(r.unwrap(), vec![0x28, 1, 2, 0x6B, 7, 0x29]);
}

#[test]
fn route_frame_respects_active_flags() {
    let mut re2 = RingEdge2::new();
    let mut frame = [0u8; 14];
    frame[1] = 0x01;  // player 1, group 0, bit 0
    let (p1, p2) = re2.route_frame(&frame);
    assert_eq!(p1.unwrap(), vec![0x28, 0x01, 0, 0, 0x18, 0, 0, 0, 0x29]);
    assert_eq!(p2.unwrap(), vec![0x28, 0, 0, 0, 0, 0, 0, 0, 0x29]);
    re2.parse_command_from_alls(&AllsMessageCmd {
        player_num: 1,
        cmd: AllsTouchMasterCommand::Halt,
    });
    let (p1, p2) = re2.route_frame(&frame);
    assert!(p1.is_some());
    assert!(p2.is_none());
}

#[test]
fn control_frame_builders() {
    assert_eq!(halt_frame(), b"{HALT}".to_vec());
    assert_eq!(stat_frame(), b"{STAT}".to_vec());
}
