//! Process configuration, resolved once at startup and passed by reference
//! into every pipeline. The unverified shell parses the command line and
//! the configuration file; the values that the verified pipelines consume
//! are held in these plain structures.

use vstd::prelude::*;

verus! {

/// Per-subsystem enable flags and port assignments.
#[derive(Clone, Debug)]
pub struct Settings {
    /// Enable the touchscreen bridge.
    pub touch: bool,
    /// Enable the JVS digital-input bridge.
    pub jvs: bool,
    /// Enable the card-reader bridge.
    pub reader: bool,
    /// Enable the remote-control interface (reserved; no pipeline uses it).
    pub spice_api: bool,
    /// Port of the reader-side touchscreen.
    pub touch_finale_port: String,
    /// Port of player 1's emulator-side touch link.
    pub touch_dx_p1_port: String,
    /// Port of player 2's emulator-side touch link.
    pub touch_dx_p2_port: String,
    /// Port of the JVS board.
    pub jvs_port: String,
    /// Port of the card reader.
    pub reader_port: String,
    /// File the card identifier is written into, when configured.
    pub reader_device_file: Option<String>,
    /// Port of the remote-control interface (reserved).
    pub spice_port: String,
}

impl Default for Settings {
    fn default() -> (r: Settings)
        ensures
            !r.touch,
            !r.jvs,
            !r.reader,
            !r.spice_api,
            r.reader_device_file is None,
            r.touch_finale_port@ == "COM23"@,
            r.touch_dx_p1_port@ == "DX_TOUCH_1"@,
            r.touch_dx_p2_port@ == "COM8"@,
            r.jvs_port@ == "COM24"@,
            r.reader_port@ == "COM22"@,
            r.spice_port@ == "1337"@,
    {
        Settings {
            touch: false,
            jvs: false,
            reader: false,
            spice_api: false,
            touch_finale_port: "COM23".to_owned(),
            touch_dx_p1_port: "DX_TOUCH_1".to_owned(),
            touch_dx_p2_port: "COM8".to_owned(),
            jvs_port: "COM24".to_owned(),
            reader_port: "COM22".to_owned(),
            reader_device_file: None,
            spice_port: "1337".to_owned(),
        }
    }
}

/// The button-to-key-code table: one key code for each cabinet button, plus
/// the service and test switches.
#[derive(Clone, Copy, Debug, PartialEq, Eq, Structural)]
pub struct Input {
    pub service: i32,
    pub test: i32,
    pub p1_btn1: i32,
    pub p1_btn2: i32,
    pub p1_btn3: i32,
    pub p1_btn4: i32,
    pub p1_btn5: i32,
    pub p1_btn6: i32,
    pub p1_btn7: i32,
    pub p1_btn8: i32,
    pub p2_btn1: i32,
    pub p2_btn2: i32,
    pub p2_btn3: i32,
    pub p2_btn4: i32,
    pub p2_btn5: i32,
    pub p2_btn6: i32,
    pub p2_btn7: i32,
    pub p2_btn8: i32,
}

impl Default for Input {
    /// The stock key assignment: letters for player 1, the numeric keypad
    /// for player 2.
    fn default() -> (r: Input)
        ensures
            r.service == 0x33,
            r.test == 0x54,
            r.p1_btn1 == 0x57,
            r.p1_btn2 == 0x45,
            r.p1_btn3 == 0x44,
            r.p1_btn4 == 0x43,
            r.p1_btn5 == 0x58,
            r.p1_btn6 == 0x5A,
            r.p1_btn7 == 0x41,
            r.p1_btn8 == 0x51,
            r.p2_btn1 == 0x68,
            r.p2_btn2 == 0x69,
            r.p2_btn3 == 0x66,
            r.p2_btn4 == 0x63,
            r.p2_btn5 == 0x62,
            r.p2_btn6 == 0x61,
            r.p2_btn7 == 0x64,
            r.p2_btn8 == 0x67,
    {
        Input {
            service: 0x33,
            test: 0x54,
            p1_btn1: 0x57,
            p1_btn2: 0x45,
            p1_btn3: 0x44,
            p1_btn4: 0x43,
            p1_btn5: 0x58,
            p1_btn6: 0x5A,
            p1_btn7: 0x41,
            p1_btn8: 0x51,
            p2_btn1: 0x68,
            p2_btn2: 0x69,
            p2_btn3: 0x66,
            p2_btn4: 0x63,
            p2_btn5: 0x62,
            p2_btn6: 0x61,
            p2_btn7: 0x64,
            p2_btn8: 0x67,
        }
    }
}

} // verus!
