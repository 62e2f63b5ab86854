//! The user-facing messages for the failure modes a device can run into.

use vstd::prelude::*;

verus! {

pub const PAIRING_TEST: &'static str = "Device did not respond to pairing test. This means that the device rejected the connection. \nPossible causes can include an invalid pairing file, not being on a WiFi network, or WiFi sync not being enabled.";

pub const START_INSTPROXY: &'static str = "Unable to start instproxy. This is a connection error to the device.\nPossible causes can include an invalid pairing file or a misbehaving device.\nTry restarting your device. If you still have this problem, unregister and re-register.\nError:";

pub const START_DEBUG_SERVER: &'static str = "Unable to start debug server. The device is misbehaving.\nTry restarting your device. If you still have this problem, unregister and re-register.";

pub const LOOKUP_APPS: &'static str = "Unable to lookup apps. This is a result of the device misbehaving.\nRestart your device and try again.\nError:";

pub const MOUNTING: &'static str = "JitStreamer is currently mounting the developer disk image.\nThis can take up to 5 minutes, keep your device powered on and connected.\nIf you receive this message multiple times, please restart your device.";

pub const DETACH: &'static str = "Unable to send the detach command to the device.\nThis error can be ignored if the app still launched successfully.\nOtherwise, please restart your device.";

} // verus!
