//! Unit tests of the callback model, the readiness-stream state machine
//! and the span conversions.

use thin_main_loop as tml;
use tml::future::{io, IoPoll};
use tml::{CbHandle, CbKind, IODirection, MainLoopError, TimeSpan};

#[test]
fn timespan_from_millis_splits() {
    let d = TimeSpan::from_millis(1500);
    assert_eq!(d.secs, 1);
    assert_eq!(d.subsec_millis, 500);
    let z = TimeSpan::from_millis(0);
    assert_eq!((z.secs, z.subsec_millis), (0, 0));
    let s = TimeSpan::from_secs(3);
    assert_eq!((s.secs, s.subsec_millis), (3, 0));
}

#[test]
fn duration_millis_exact() {
    let cb = CbKind::after(TimeSpan::from_millis(1500));
    assert_eq!(cb.duration_millis(), Ok(Some(1500)));
    let cb = CbKind::interval(TimeSpan { secs: 2, subsec_millis: 250 });
    assert_eq!(cb.duration_millis(), Ok(Some(2250)));
    assert_eq!(CbKind::asap().duration_millis(), Ok(None));
    assert_eq!(
        CbKind::io(CbHandle(1), IODirection::Read).duration_millis(),
        Ok(None)
    );
}

#[test]
fn duration_millis_rejects_too_long() {
    // The largest representable whole-second count is one below
    // u32::MAX / 1000.
    let edge = CbKind::after(TimeSpan { secs: 4294965, subsec_millis: 999 });
    assert_eq!(edge.duration_millis(), Ok(Some(4294965999u32)));
    let over = CbKind::after(TimeSpan { secs: 4294966, subsec_millis: 0 });
    assert_eq!(over.duration_millis(), Err(MainLoopError::DurationTooLong));
}

#[test]
fn shapes_and_two_phase_protocol() {
    let asap = CbKind::asap();
    let after = CbKind::after(TimeSpan::from_millis(5));
    let interval = CbKind::interval(TimeSpan::from_millis(7));
    let watch = CbKind::io(CbHandle(3), IODirection::Both);

    assert_eq!(asap.duration(), None);
    assert_eq!(after.duration(), Some(TimeSpan::from_millis(5)));
    assert_eq!(interval.duration(), Some(TimeSpan::from_millis(7)));
    assert_eq!(watch.duration(), None);

    assert_eq!(watch.handle(), Some((CbHandle(3), IODirection::Both)));
    assert_eq!(asap.handle(), None);

    // Only repeatable shapes may stay registered, and only when their
    // callable asked to.
    assert!(!asap.repeat_after_call(true));
    assert!(!after.repeat_after_call(true));
    assert!(interval.repeat_after_call(true));
    assert!(!interval.repeat_after_call(false));
    assert!(watch.repeat_after_call(true));

    // Only one-shot shapes are invoked by the terminal finish phase.
    assert!(asap.finish_invokes());
    assert!(after.finish_invokes());
    assert!(!interval.finish_invokes());
    assert!(!watch.finish_invokes());
}

#[test]
fn io_stream_lifecycle() {
    let mut s = io(CbHandle(7), IODirection::Read);
    assert_eq!(s.watch_handle(), CbHandle(7));
    assert_eq!(s.watch_direction(), IODirection::Read);

    // First poll asks the driver to register with the loop.
    assert_eq!(s.poll_next(), IoPoll::MustRegister);

    // Nothing pending yet: the wake handle is stored.
    assert_eq!(s.poll_next(), IoPoll::Pending);

    // The backend delivers two readiness results; the stream stays
    // registered while alive.
    assert!(s.on_readiness(Ok(IODirection::Read)));
    assert!(s.on_readiness(Err(MainLoopError::Other)));
    assert_eq!(s.poll_next(), IoPoll::Item(Ok(IODirection::Read)));
    assert_eq!(s.poll_next(), IoPoll::Item(Err(MainLoopError::Other)));
    assert_eq!(s.poll_next(), IoPoll::Pending);

    // Releasing the last handle: the next delivery tells the backend to
    // stop, and the stream is closed.
    s.close();
    assert!(!s.on_readiness(Ok(IODirection::Read)));
    assert_eq!(s.poll_next(), IoPoll::Closed);
}

#[test]
fn io_stream_registration_failure() {
    let mut s = io(CbHandle(7), IODirection::Write);
    assert_eq!(s.poll_next(), IoPoll::MustRegister);
    // The software backend cannot watch handles: the driver reports the
    // failure and the stream dies.
    s.registration_failed();
    assert_eq!(s.poll_next(), IoPoll::Closed);
}
