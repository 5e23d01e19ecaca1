//! The device-facing side of the control loop as the library sees it: the
//! slot that holds the controller's file descriptor once the device has been
//! opened, the errors a device interaction can surface, and the command codes
//! of the controller's protocol. The calls themselves are I/O and live
//! outside the library; they hand descriptors and results back as plain
//! values.

use vstd::prelude::*;

verus! {

/// Protocol code: read the current fan speed.
pub const IOCTL_GET_FAN_SPEED: u64 = 0x80045001;

/// Protocol code: read the active controller mode.
pub const IOCTL_GET_CONTROLLER: u64 = 0x80045002;

/// Protocol code: select the controller mode.
pub const IOCTL_SET_CONTROLLER: u64 = 0x40045003;

/// Protocol code: command a fan speed.
pub const IOCTL_SET_FAN_SPEED: u64 = 0x40045004;

/// Controller mode in which the device obeys speed commands; in any other
/// mode the hardware may ignore them.
pub const MODE_MANUAL: i32 = 1;

/// Decides the mode command that must precede ramping: nothing when manual
/// control is already engaged, and the switch to manual otherwise. Ramping
/// without this sequencing could be silently ignored by the hardware.
pub fn mode_command(current_mode: i32) -> (cmd: Option<i32>)
    ensures
        cmd == (if current_mode == MODE_MANUAL {
            None::<i32>
        } else {
            Some(MODE_MANUAL)
        }),
{
    if current_mode == MODE_MANUAL {
        None
    } else {
        Some(MODE_MANUAL)
    }
}

/// How a device interaction fails.
#[derive(Clone, Copy, PartialEq, Eq, Structural, Debug)]
pub enum DeviceError {
    /// The device has not been opened, so there is no descriptor to use.
    NotOpen,
    /// The device refused or failed a get/set call. Aborts an in-progress
    /// ramp; never retried, since the hardware state after a failed command
    /// is unknown.
    CommandFailed,
}

/// Holds the file descriptor of the opened controller device, or nothing
/// before the device has been opened.
pub struct DeviceSlot {
    pub fd: Option<i32>,
}

impl DeviceSlot {
    /// An empty slot: the device is not open yet.
    pub fn new() -> (slot: DeviceSlot)
        ensures
            slot.fd == None::<i32>,
    {
        DeviceSlot { fd: None }
    }

    /// Records the descriptor of the freshly opened device.
    pub fn set_fd(&mut self, fd: i32)
        ensures
            final(self).fd == Some(fd),
    {
        self.fd = Some(fd);
    }

    /// The descriptor to issue commands on: the stored one if the device is
    /// open, and `NotOpen` otherwise.
    pub fn get_fd(&self) -> (r: Result<i32, DeviceError>)
        ensures
            match self.fd {
                Some(fd) => r == Ok::<i32, DeviceError>(fd),
                None => r == Err::<i32, DeviceError>(DeviceError::NotOpen),
            },
    {
        match self.fd {
            Some(fd) => Ok(fd),
            None => Err(DeviceError::NotOpen),
        }
    }
}

} // verus!
