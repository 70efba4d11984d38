//! Static channel configuration: one entry per monitored signal line,
//! fixed at start and never destroyed during a run. The label and color
//! are display metadata for the rendering consumer; the index into the
//! configuration is the channel's identity everywhere else.

use vstd::prelude::*;
use crate::frame::N_CHANNELS;

verus! {

/// Display metadata of one channel.
pub struct ChannelInfo {
    /// Human-readable name of the signal line.
    pub label: &'static str,
    /// Red component of the display color.
    pub red: u8,
    /// Green component of the display color.
    pub green: u8,
    /// Blue component of the display color.
    pub blue: u8,
}

/// The fixed channel configuration, in channel order.
pub fn channel_config() -> (r: Vec<ChannelInfo>)
    ensures
        r@.len() == N_CHANNELS,
        r@[0].label@ == "Line Pressure VCC"@ && r@[0].red == 255 && r@[0].green == 0
            && r@[0].blue == 0,
        r@[1].label@ == "Shift Solenoid 1"@ && r@[1].red == 0 && r@[1].green == 0 && r@[1].blue
            == 255,
        r@[2].label@ == "Shift Solenoid 2"@ && r@[2].red == 0 && r@[2].green == 255 && r@[2].blue
            == 0,
        r@[3].label@ == "TC Lockup"@ && r@[3].red == 0 && r@[3].green == 255 && r@[3].blue == 255,
        r@[4].label@ == "Line Pressure GND"@ && r@[4].red == 255 && r@[4].green == 0 && r@[4].blue
            == 255,
        r@[5].label@ == "VSS"@ && r@[5].red == 255 && r@[5].green == 255 && r@[5].blue == 0,
        r@[6].label@ == "RPM"@ && r@[6].red == 0 && r@[6].green == 0 && r@[6].blue == 0,
{
    let mut r: Vec<ChannelInfo> = Vec::new();
    r.push(ChannelInfo { label: "Line Pressure VCC", red: 255, green: 0, blue: 0 });
    r.push(ChannelInfo { label: "Shift Solenoid 1", red: 0, green: 0, blue: 255 });
    r.push(ChannelInfo { label: "Shift Solenoid 2", red: 0, green: 255, blue: 0 });
    r.push(ChannelInfo { label: "TC Lockup", red: 0, green: 255, blue: 255 });
    r.push(ChannelInfo { label: "Line Pressure GND", red: 255, green: 0, blue: 255 });
    r.push(ChannelInfo { label: "VSS", red: 255, green: 255, blue: 0 });
    r.push(ChannelInfo { label: "RPM", red: 0, green: 0, blue: 0 });
    r
}

} // verus!
