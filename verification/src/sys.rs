//! Trusted boundary to the OS calls the dmabuf feedback table needs: an
//! anonymous sealable memory file, writes into it, and the seals applied to
//! it. Each item relies on one function of the `uapi` crate.

use vstd::prelude::*;

verus! {

/// An owned file descriptor of the `uapi` crate, closed on drop.
#[verifier::external_type_specification]
#[verifier::external_body]
pub struct ExOwnedFd(uapi::OwnedFd);

/// `fcntl` seal forbidding the file to shrink.
pub const SEAL_SHRINK: i32 = 0x0002;

/// `fcntl` seal forbidding the file to grow.
pub const SEAL_GROW: i32 = 0x0004;

/// `fcntl` seal forbidding writes.
pub const SEAL_WRITE: i32 = 0x0008;

/// Relies on uapi::memfd_create (memfd_create(2)) with `MFD_CLOEXEC |
/// MFD_ALLOW_SEALING`: a fresh, empty, sealable anonymous file, or the errno.
#[verifier::external_body]
pub(crate) fn memfd_create_sealable() -> (r: Result<uapi::OwnedFd, i32>)
{
    match uapi::memfd_create(
        "dmabuf_feedback",
        uapi::c::MFD_CLOEXEC | uapi::c::MFD_ALLOW_SEALING,
    ) {
        Ok(fd) => Ok(fd),
        Err(e) => Err(e.0),
    }
}

/// Relies on uapi::write (write(2)): writes at most `buf.len()` bytes at the
/// file position and returns how many were written, or the errno.
#[verifier::external_body]
pub(crate) fn fd_write(fd: &uapi::OwnedFd, buf: &[u8]) -> (r: Result<usize, i32>)
    ensures
        r is Ok ==> r->Ok_0 <= buf@.len(),
{
    match uapi::write(fd.raw(), buf) {
        Ok(n) => Ok(n),
        Err(e) => Err(e.0),
    }
}

/// Relies on uapi::fcntl_add_seals (fcntl(2) with `F_ADD_SEALS`): applies
/// the given seals to the memfd.
#[verifier::external_body]
pub(crate) fn fd_add_seals(fd: &uapi::OwnedFd, seals: i32) -> (r: Result<(), i32>)
{
    match uapi::fcntl_add_seals(fd.raw(), seals) {
        Ok(()) => Ok(()),
        Err(e) => Err(e.0),
    }
}

/// Writes the whole buffer, continuing over short writes. A write that makes
/// no progress is reported as an error so the loop always ends.
pub(crate) fn write_all(fd: &uapi::OwnedFd, buf: &[u8]) -> (r: Result<(), i32>)
{
    let mut off: usize = 0;
    let len = buf.len();
    while off < len
        invariant
            off <= len,
            len == buf@.len(),
        decreases len - off,
    {
        let chunk: &[u8] = slice_skip(buf, off);
        match fd_write(fd, chunk) {
            Ok(n) => {
                if n == 0 {
                    return Err(0);
                }
                if n > len - off {
                    return Err(0);
                }
                off = off + n;
            },
            Err(e) => {
                return Err(e);
            },
        }
    }
    Ok(())
}

/// The tail of a slice, starting at `from`.
pub(crate) fn slice_skip(s: &[u8], from: usize) -> (r: &[u8])
    requires
        from <= s@.len(),
    ensures
        r@ == s@.skip(from as int),
{
    let (_, tail) = s.split_at(from);
    tail
}

} // verus!
