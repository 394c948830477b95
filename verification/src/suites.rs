//! The host's test suites: which crates are tested, and how.

use vstd::prelude::*;

use crate::text;

verus! {

/// What of a crate is tested.
#[derive(Debug, Clone, Copy, PartialEq, Eq, Structural)]
pub enum Suite {
    /// Everything.
    All,
    /// The library alone: the program does not build on the host.
    Lib,
    /// Everything, with the `io` feature.
    Io,
}

/// How many crates of userspace are tested.
pub const CRATES: usize = 28;

/// The crate of userspace that is tested in the `i`th place.
pub open spec fn crate_at(i: int) -> (Seq<char>, Suite) {
    if i == 0 {
        ("libkern"@, Suite::All)
    } else if i == 1 {
        ("libheap"@, Suite::All)
    } else if i == 2 {
        ("libos"@, Suite::All)
    } else if i == 3 {
        ("libstream"@, Suite::All)
    } else if i == 4 {
        ("init"@, Suite::Lib)
    } else if i == 5 {
        ("librsproto"@, Suite::All)
    } else if i == 6 {
        ("libdraw"@, Suite::Io)
    } else if i == 7 {
        ("compositor"@, Suite::Lib)
    } else if i == 8 {
        ("libsurface"@, Suite::All)
    } else if i == 9 {
        ("libui"@, Suite::All)
    } else if i == 10 {
        ("libterm"@, Suite::All)
    } else if i == 11 {
        ("nxterm"@, Suite::Lib)
    } else if i == 12 {
        ("libcrypto"@, Suite::All)
    } else if i == 13 {
        ("libtime"@, Suite::All)
    } else if i == 14 {
        ("service-mgr"@, Suite::Lib)
    } else if i == 15 {
        ("profile-server"@, Suite::Lib)
    } else if i == 16 {
        ("auth-service"@, Suite::Lib)
    } else if i == 17 {
        ("clipboard-server"@, Suite::Lib)
    } else if i == 18 {
        ("logging-service"@, Suite::Lib)
    } else if i == 19 {
        ("fs-server-ext4"@, Suite::Lib)
    } else if i == 20 {
        ("libfs"@, Suite::Lib)
    } else if i == 21 {
        ("coreutils"@, Suite::Lib)
    } else if i == 22 {
        ("nxfiles"@, Suite::Lib)
    } else if i == 23 {
        ("nxedit"@, Suite::Lib)
    } else if i == 24 {
        ("nxsh"@, Suite::Lib)
    } else if i == 25 {
        ("tty-server"@, Suite::Lib)
    } else if i == 26 {
        ("libinput"@, Suite::Lib)
    } else {
        ("input-server"@, Suite::Lib)
    }
}

/// The crate of userspace that is tested in the `i`th place.
pub fn userspace_crate(i: usize) -> (r: (&'static str, Suite))
    requires
        i < CRATES,
    ensures
        (r.0@, r.1) == crate_at(i as int),
{
    if i == 0 {
        ("libkern", Suite::All)
    } else if i == 1 {
        ("libheap", Suite::All)
    } else if i == 2 {
        ("libos", Suite::All)
    } else if i == 3 {
        ("libstream", Suite::All)
    } else if i == 4 {
        ("init", Suite::Lib)
    } else if i == 5 {
        ("librsproto", Suite::All)
    } else if i == 6 {
        ("libdraw", Suite::Io)
    } else if i == 7 {
        ("compositor", Suite::Lib)
    } else if i == 8 {
        ("libsurface", Suite::All)
    } else if i == 9 {
        ("libui", Suite::All)
    } else if i == 10 {
        ("libterm", Suite::All)
    } else if i == 11 {
        ("nxterm", Suite::Lib)
    } else if i == 12 {
        ("libcrypto", Suite::All)
    } else if i == 13 {
        ("libtime", Suite::All)
    } else if i == 14 {
        ("service-mgr", Suite::Lib)
    } else if i == 15 {
        ("profile-server", Suite::Lib)
    } else if i == 16 {
        ("auth-service", Suite::Lib)
    } else if i == 17 {
        ("clipboard-server", Suite::Lib)
    } else if i == 18 {
        ("logging-service", Suite::Lib)
    } else if i == 19 {
        ("fs-server-ext4", Suite::Lib)
    } else if i == 20 {
        ("libfs", Suite::Lib)
    } else if i == 21 {
        ("coreutils", Suite::Lib)
    } else if i == 22 {
        ("nxfiles", Suite::Lib)
    } else if i == 23 {
        ("nxedit", Suite::Lib)
    } else if i == 24 {
        ("nxsh", Suite::Lib)
    } else if i == 25 {
        ("tty-server", Suite::Lib)
    } else if i == 26 {
        ("libinput", Suite::Lib)
    } else {
        ("input-server", Suite::Lib)
    }
}

/// The arguments that test a crate of userspace on the host.
pub open spec fn crate_args(package: Seq<char>, suite: Suite, host: Seq<char>) -> Seq<Seq<char>> {
    let front = seq!["test"@, "-p"@, package];
    let middle = match suite {
        Suite::All => front,
        Suite::Lib => front.push("--lib"@),
        Suite::Io => front.push("--features"@).push("io"@),
    };
    middle.push("--target"@).push(host)
}

/// The arguments that test a crate of userspace on the host.
pub fn userspace_args(package: &str, suite: Suite, host: &str) -> (r: Vec<String>)
    ensures
        text::strs(r@) == crate_args(package@, suite, host@),
{
    let mut v: Vec<&str> = Vec::new();
    v.push("test");
    v.push("-p");
    v.push(package);
    match suite {
        Suite::All => {},
        Suite::Lib => {
            v.push("--lib");
        },
        Suite::Io => {
            v.push("--features");
            v.push("io");
        },
    }
    v.push("--target");
    v.push(host);
    let r = text::owned(&v);
    assert(text::strs(r@) =~= crate_args(package@, suite, host@));
    r
}

/// The arguments that test the kernel's library on the host.
pub fn kernel_args(host: &str) -> (r: Vec<String>)
    ensures
        text::strs(r@) == seq!["test"@, "--lib"@, "--target"@, host@],
{
    let v: Vec<&str> = vec!["test", "--lib", "--target", host];
    let r = text::owned(&v);
    assert(text::strs(r@) =~= seq!["test"@, "--lib"@, "--target"@, host@]);
    r
}

/// The arguments that test the tools.
pub fn tools_args(manifest: &str) -> (r: Vec<String>)
    ensures
        text::strs(r@) == seq!["test"@, "--manifest-path"@, manifest@],
{
    let v: Vec<&str> = vec!["test", "--manifest-path", manifest];
    let r = text::owned(&v);
    assert(text::strs(r@) =~= seq!["test"@, "--manifest-path"@, manifest@]);
    r
}

/// Each kind of suite is tested for the host as it is asked for: all of it, the library alone, or with
/// the feature for input and output.
pub proof fn law_a_suite_is_tested_as_asked(package: Seq<char>, host: Seq<char>)
    ensures
        crate_args(package, Suite::All, host) == seq!["test"@, "-p"@, package, "--target"@, host],
        crate_args(package, Suite::Lib, host) == seq![
            "test"@,
            "-p"@,
            package,
            "--lib"@,
            "--target"@,
            host,
        ],
        crate_args(package, Suite::Io, host) == seq![
            "test"@,
            "-p"@,
            package,
            "--features"@,
            "io"@,
            "--target"@,
            host,
        ],
{
    assert(crate_args(package, Suite::All, host) =~= seq!["test"@, "-p"@, package, "--target"@, host]);
    assert(crate_args(package, Suite::Lib, host) =~= seq![
        "test"@,
        "-p"@,
        package,
        "--lib"@,
        "--target"@,
        host,
    ]);
    assert(crate_args(package, Suite::Io, host) =~= seq![
        "test"@,
        "-p"@,
        package,
        "--features"@,
        "io"@,
        "--target"@,
        host,
    ]);
}

} // verus!
