//! The decisions of a TAP device's owner: whether the device is open, and
//! what a request to read or write it comes to.

use vstd::prelude::*;

verus! {

/// Whether the device is open.
#[derive(Debug, Clone, Copy, PartialEq, Eq, Structural)]
pub enum DeviceState {
    Closed,
    Open,
}

/// What the I/O layer reports about the device or asks of it.
#[derive(Debug, Clone, Copy, PartialEq, Eq, Structural)]
pub enum DeviceEvent {
    /// Opening the device succeeded.
    Opened,
    /// Opening the device failed.
    OpenFailed,
    /// A caller wants a frame read from the device.
    ReadRequested,
    /// A caller wants a frame written to the device.
    WriteRequested,
    /// The device was released.
    Released,
}

/// What the I/O layer does next.
#[derive(Debug, Clone, Copy, PartialEq, Eq, Structural)]
pub enum DeviceAction {
    /// Nothing beyond recording the new state.
    Nothing,
    /// Read a frame from the open device.
    Read,
    /// Write the frame to the open device.
    Write,
    /// Answer the caller that no device is open.
    RejectNotOpen,
    /// Answer the caller with the error that opening gave.
    ReportOpenError,
}

/// The state and action that follow `event` in `state`.
pub open spec fn device_step(state: DeviceState, event: DeviceEvent) -> (DeviceState, DeviceAction) {
    match event {
        DeviceEvent::Opened => (DeviceState::Open, DeviceAction::Nothing),
        DeviceEvent::OpenFailed => (state, DeviceAction::ReportOpenError),
        DeviceEvent::Released => (DeviceState::Closed, DeviceAction::Nothing),
        DeviceEvent::ReadRequested => match state {
            DeviceState::Open => (state, DeviceAction::Read),
            DeviceState::Closed => (state, DeviceAction::RejectNotOpen),
        },
        DeviceEvent::WriteRequested => match state {
            DeviceState::Open => (state, DeviceAction::Write),
            DeviceState::Closed => (state, DeviceAction::RejectNotOpen),
        },
    }
}

/// Decides what follows `event` in `state`: an opened device serves reads
/// and writes, a closed one refuses them, and a failed open leaves the state
/// as it was.
pub fn step(state: DeviceState, event: DeviceEvent) -> (r: (DeviceState, DeviceAction))
    ensures
        r == device_step(state, event),
{
    match event {
        DeviceEvent::Opened => (DeviceState::Open, DeviceAction::Nothing),
        DeviceEvent::OpenFailed => (state, DeviceAction::ReportOpenError),
        DeviceEvent::Released => (DeviceState::Closed, DeviceAction::Nothing),
        DeviceEvent::ReadRequested => match state {
            DeviceState::Open => (state, DeviceAction::Read),
            DeviceState::Closed => (state, DeviceAction::RejectNotOpen),
        },
        DeviceEvent::WriteRequested => match state {
            DeviceState::Open => (state, DeviceAction::Write),
            DeviceState::Closed => (state, DeviceAction::RejectNotOpen),
        },
    }
}

/// Reads and writes never reach a device that is not open: the actions
/// `Read` and `Write` come only from the open state, and leave it open.
pub proof fn lemma_io_only_when_open(state: DeviceState, event: DeviceEvent)
    ensures
        device_step(state, event).1 == DeviceAction::Read || device_step(state, event).1
            == DeviceAction::Write ==> state == DeviceState::Open && device_step(state, event).0
            == DeviceState::Open,
{
}

} // verus!
