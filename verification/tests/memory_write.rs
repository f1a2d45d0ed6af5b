use memory_viewer::memory_write::{ProtectedWrite, WriteAction, WriteStep};

#[test]
fn plain_write_of_every_byte_succeeds() {
    let (mut w, first) = ProtectedWrite::new(4);
    assert_eq!(first, WriteAction::WriteBytes);
    assert_eq!(w.after_write(true, 4), WriteAction::Succeed);
    assert_eq!(w.step(), WriteStep::Finished);
}

#[test]
fn short_plain_write_lifts_protection() {
    let (mut w, _) = ProtectedWrite::new(4);
    assert_eq!(w.after_write(true, 2), WriteAction::LiftProtection(0x40));
    assert_eq!(w.step(), WriteStep::Lifting);
    let (mut w, _) = ProtectedWrite::new(4);
    assert_eq!(w.after_write(false, 4), WriteAction::LiftProtection(0x40));
}

#[test]
fn failed_lift_fails_with_the_write_error() {
    let (mut w, _) = ProtectedWrite::new(8);
    w.after_write(false, 0);
    assert_eq!(w.after_protect(false, 0), WriteAction::FailWithWriteError);
    assert_eq!(w.step(), WriteStep::Finished);
}

#[test]
fn retry_restores_protection_then_succeeds() {
    let (mut w, _) = ProtectedWrite::new(8);
    w.after_write(false, 0);
    assert_eq!(w.after_protect(true, 0x02), WriteAction::WriteBytes);
    assert_eq!(w.step(), WriteStep::Retrying { old_protect: 0x02 });
    assert_eq!(w.after_write(true, 8), WriteAction::RestoreProtection(0x02));
    assert_eq!(w.step(), WriteStep::Restoring { written: true });
    assert_eq!(w.after_protect(false, 0x40), WriteAction::Succeed);
}

#[test]
fn short_retry_restores_protection_then_fails() {
    let (mut w, _) = ProtectedWrite::new(8);
    w.after_write(true, 3);
    w.after_protect(true, 0x20);
    assert_eq!(w.after_write(true, 7), WriteAction::RestoreProtection(0x20));
    assert_eq!(w.after_protect(true, 0x40), WriteAction::FailWithLastError);
}
