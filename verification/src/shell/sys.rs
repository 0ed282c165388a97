use vstd::prelude::*;

verus! {

/// Relies on nix::fcntl::open with O_RDONLY: on success the OS hands back a
/// fresh nonnegative descriptor open for reading on the named file; on any
/// failure nix returns the errno as an Err, mapped to None here.
#[verifier::external_body]
pub(crate) fn open_for_read(path: &String) -> (r: Option<i32>)
    ensures
        match r {
            Some(fd) => fd >= 0,
            None => true,
        },
{
    match nix::fcntl::open(path.as_str(), nix::fcntl::OFlag::O_RDONLY, nix::sys::stat::Mode::S_IRUSR) {
        Ok(fd) => Some(fd),
        Err(_) => None,
    }
}

/// Relies on nix::fcntl::open with O_WRONLY | O_CREAT | O_TRUNC and mode
/// 0o644: on success the named file exists, is empty, and the returned
/// nonnegative descriptor is open on it for writing; on failure None.
#[verifier::external_body]
pub(crate) fn open_for_write(path: &String) -> (r: Option<i32>)
    ensures
        match r {
            Some(fd) => fd >= 0,
            None => true,
        },
{
    let flags = nix::fcntl::OFlag::O_WRONLY | nix::fcntl::OFlag::O_CREAT | nix::fcntl::OFlag::O_TRUNC;
    match nix::fcntl::open(path.as_str(), flags, nix::sys::stat::Mode::from_bits_truncate(0o644)) {
        Ok(fd) => Some(fd),
        Err(_) => None,
    }
}

/// Relies on nix::unistd::pipe: on success the OS allocates one pipe and
/// returns its (read end, write end), two distinct nonnegative descriptors.
#[verifier::external_body]
pub(crate) fn make_pipe() -> (r: Option<(i32, i32)>)
    ensures
        match r {
            Some(p) => p.0 >= 0 && p.1 >= 0 && p.0 != p.1,
            None => true,
        },
{
    match nix::unistd::pipe() {
        Ok(p) => Some(p),
        Err(_) => None,
    }
}

/// Relies on nix::unistd::chdir: changes this process's working directory to
/// the named path and reports success; on failure the working directory is
/// left as it was (chdir(2)).
#[verifier::external_body]
pub(crate) fn change_directory(path: &String) -> (ok: bool) {
    nix::unistd::chdir(path.as_str()).is_ok()
}

} // verus!
