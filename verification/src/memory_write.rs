//! Writing bytes into another process's memory: a plain write first; where
//! it does not write every byte, the pages are made writable for a second
//! write and their protection is put back afterwards. The calls themselves
//! are made by the caller; this machine decides which call comes next.
use vstd::prelude::*;

verus! {

/// `PAGE_EXECUTE_READWRITE` of windows-sys, the protection that lets a page
/// be read, written and run (0x40 there).
#[verifier::external_body]
fn page_execute_readwrite() -> (r: u32)
    ensures
        r == 0x40,
{
    windows_sys::Win32::System::Memory::PAGE_EXECUTE_READWRITE
}

/// Where a write stands.
#[derive(Debug, Clone, Copy, PartialEq, Eq, Structural)]
pub enum WriteStep {
    /// The plain write has been asked for.
    Direct,
    /// The plain write fell short; making the pages writable was asked for.
    Lifting,
    /// The pages are writable; the second write has been asked for. The
    /// protection they had is kept to put back.
    Retrying { old_protect: u32 },
    /// Putting the protection back has been asked for; `written` tells
    /// whether the second write wrote every byte.
    Restoring { written: bool },
    /// The outcome has been given.
    Finished,
}

/// The call that the caller makes next, or the outcome.
#[derive(Debug, Clone, Copy, PartialEq, Eq, Structural)]
pub enum WriteAction {
    /// Write the bytes (`WriteProcessMemory`).
    WriteBytes,
    /// Set the pages' protection to this value (`VirtualProtectEx`), after
    /// taking the error that the plain write left.
    LiftProtection(u32),
    /// Set the pages' protection back to this value (`VirtualProtectEx`).
    RestoreProtection(u32),
    /// The bytes were written.
    Succeed,
    /// Fail with the error that the plain write left.
    FailWithWriteError,
    /// Fail with the error that the last call left.
    FailWithLastError,
}

/// The step and the call that come after a write call that reported `ok`
/// and `count` bytes written, for a write of `len` bytes.
pub open spec fn after_write_spec(step: WriteStep, len: usize, ok: bool, count: usize) -> (WriteStep, WriteAction) {
    match step {
        WriteStep::Direct => if ok && count == len {
            (WriteStep::Finished, WriteAction::Succeed)
        } else {
            (WriteStep::Lifting, WriteAction::LiftProtection(0x40))
        },
        WriteStep::Retrying { old_protect } => (
            WriteStep::Restoring { written: ok && count == len },
            WriteAction::RestoreProtection(old_protect),
        ),
        _ => (step, WriteAction::FailWithLastError),
    }
}

/// The step and the call that come after a protection call that reported
/// `ok`, and `old_protect` as the protection the pages had.
pub open spec fn after_protect_spec(step: WriteStep, ok: bool, old_protect: u32) -> (WriteStep, WriteAction) {
    match step {
        WriteStep::Lifting => if ok {
            (WriteStep::Retrying { old_protect }, WriteAction::WriteBytes)
        } else {
            (WriteStep::Finished, WriteAction::FailWithWriteError)
        },
        WriteStep::Restoring { written } => if written {
            (WriteStep::Finished, WriteAction::Succeed)
        } else {
            (WriteStep::Finished, WriteAction::FailWithLastError)
        },
        _ => (step, WriteAction::FailWithLastError),
    }
}

/// A write of `len` bytes in progress.
pub struct ProtectedWrite {
    len: usize,
    step: WriteStep,
}

impl ProtectedWrite {
    /// The number of bytes to write.
    pub closed spec fn spec_len(&self) -> usize {
        self.len
    }

    /// Where the write stands.
    pub closed spec fn spec_step(&self) -> WriteStep {
        self.step
    }

    /// A write of `len` bytes; its first call is the plain write.
    pub fn new(len: usize) -> (r: (ProtectedWrite, WriteAction))
        ensures
            r.0.spec_len() == len,
            r.0.spec_step() == WriteStep::Direct,
            r.1 == WriteAction::WriteBytes,
    {
        (ProtectedWrite { len, step: WriteStep::Direct }, WriteAction::WriteBytes)
    }

    /// Where the write stands.
    pub fn step(&self) -> (s: WriteStep)
        ensures
            s == self.spec_step(),
    {
        self.step
    }

    /// Takes the outcome of a write call: whether it succeeded and how many
    /// bytes it wrote. A plain write that wrote every byte ends the write;
    /// one that fell short asks to make the pages writable. After the second
    /// write the protection is put back whatever that write did.
    pub fn after_write(&mut self, ok: bool, count: usize) -> (a: WriteAction)
        requires
            old(self).spec_step() is Direct || old(self).spec_step() is Retrying,
        ensures
            final(self).spec_len() == old(self).spec_len(),
            (final(self).spec_step(), a) == after_write_spec(
                old(self).spec_step(),
                old(self).spec_len(),
                ok,
                count,
            ),
    {
        let written = ok && count == self.len;
        match self.step {
            WriteStep::Direct => {
                if written {
                    self.step = WriteStep::Finished;
                    WriteAction::Succeed
                } else {
                    self.step = WriteStep::Lifting;
                    WriteAction::LiftProtection(page_execute_readwrite())
                }
            },
            WriteStep::Retrying { old_protect } => {
                self.step = WriteStep::Restoring { written };
                WriteAction::RestoreProtection(old_protect)
            },
            _ => WriteAction::FailWithLastError,
        }
    }

    /// Takes the outcome of a protection call: whether it succeeded and the
    /// protection the pages had. Where making the pages writable failed, the
    /// write fails with the plain write's error; once the protection has
    /// been put back, the write ends as the second write did.
    pub fn after_protect(&mut self, ok: bool, old_protect: u32) -> (a: WriteAction)
        requires
            old(self).spec_step() is Lifting || old(self).spec_step() is Restoring,
        ensures
            final(self).spec_len() == old(self).spec_len(),
            (final(self).spec_step(), a) == after_protect_spec(old(self).spec_step(), ok, old_protect),
    {
        match self.step {
            WriteStep::Lifting => {
                if ok {
                    self.step = WriteStep::Retrying { old_protect };
                    WriteAction::WriteBytes
                } else {
                    self.step = WriteStep::Finished;
                    WriteAction::FailWithWriteError
                }
            },
            WriteStep::Restoring { written } => {
                self.step = WriteStep::Finished;
                if written {
                    WriteAction::Succeed
                } else {
                    WriteAction::FailWithLastError
                }
            },
            _ => WriteAction::FailWithLastError,
        }
    }
}

/// A write succeeds only where a write call wrote every byte: at once, or
/// after the pages were made writable, which then had their protection put
/// back before the outcome was given.
pub proof fn lemma_success_needs_every_byte(
    len: usize,
    direct_ok: bool,
    direct_count: usize,
    lift_ok: bool,
    old_protect: u32,
    retry_ok: bool,
    retry_count: usize,
    restore_ok: bool,
    restore_old: u32,
)
    ensures
        ({
            let (s1, a1) = after_write_spec(WriteStep::Direct, len, direct_ok, direct_count);
            let (s2, a2) = after_protect_spec(s1, lift_ok, old_protect);
            let (s3, a3) = after_write_spec(s2, len, retry_ok, retry_count);
            let (s4, a4) = after_protect_spec(s3, restore_ok, restore_old);
            &&& a1 is Succeed <==> (direct_ok && direct_count == len)
            &&& !(a1 is Succeed) ==> a1 == WriteAction::LiftProtection(0x40)
            &&& (!(a1 is Succeed) && !lift_ok) ==> a2 is FailWithWriteError && s2 is Finished
            &&& (!(a1 is Succeed) && lift_ok) ==> {
                &&& a2 is WriteBytes
                &&& a3 == WriteAction::RestoreProtection(old_protect)
                &&& s4 is Finished
                &&& (a4 is Succeed <==> (retry_ok && retry_count == len))
                &&& (!(a4 is Succeed) ==> a4 is FailWithLastError)
            }
        }),
{
}

} // verus!
