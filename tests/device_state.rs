use thunda::iface::tap::{step, DeviceAction, DeviceEvent, DeviceState};

#[test]
fn device_read_and_write_without_device_are_rejected() {
    assert_eq!(
        step(DeviceState::Closed, DeviceEvent::ReadRequested),
        (DeviceState::Closed, DeviceAction::RejectNotOpen)
    );
    assert_eq!(
        step(DeviceState::Closed, DeviceEvent::WriteRequested),
        (DeviceState::Closed, DeviceAction::RejectNotOpen)
    );
}

#[test]
fn device_open_then_read_and_write() {
    let (s, a) = step(DeviceState::Closed, DeviceEvent::Opened);
    assert_eq!((s, a), (DeviceState::Open, DeviceAction::Nothing));
    assert_eq!(step(s, DeviceEvent::ReadRequested), (DeviceState::Open, DeviceAction::Read));
    assert_eq!(step(s, DeviceEvent::WriteRequested), (DeviceState::Open, DeviceAction::Write));
    assert_eq!(step(s, DeviceEvent::Released), (DeviceState::Closed, DeviceAction::Nothing));
}

#[test]
fn device_open_failure_is_reported() {
    assert_eq!(
        step(DeviceState::Closed, DeviceEvent::OpenFailed),
        (DeviceState::Closed, DeviceAction::ReportOpenError)
    );
    assert_eq!(
        step(DeviceState::Open, DeviceEvent::OpenFailed),
        (DeviceState::Open, DeviceAction::ReportOpenError)
    );
}
