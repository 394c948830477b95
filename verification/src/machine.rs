//! What is built in each mode, how the machine is started, and what the command line asks for.

use vstd::prelude::*;

use crate::number;
use crate::text;
use crate::wire;

verus! {

/// How the system is built.
#[derive(Debug, Clone, Copy, PartialEq, Eq, Structural)]
pub enum BuildMode {
    /// What is shipped.
    Normal,
    /// With the boot self-tests and demos.
    Selftest,
    /// For the integration tests.
    TestHarness,
    /// For the integration tests, with the keyboard controller's interrupts off.
    TestHarnessNoPs2Irq,
    /// For the composition benchmark.
    Bench,
}

/// The feature that userspace is built with.
pub open spec fn features_of(m: BuildMode) -> Option<Seq<char>> {
    match m {
        BuildMode::Normal => None,
        BuildMode::Selftest => Some("selftest"@),
        BuildMode::TestHarness => Some("test-harness"@),
        BuildMode::TestHarnessNoPs2Irq => Some("test-harness"@),
        BuildMode::Bench => Some("test-harness"@),
    }
}

/// The features that the kernel is built with.
pub open spec fn kernel_features_of(m: BuildMode) -> Option<Seq<char>> {
    if m == BuildMode::TestHarnessNoPs2Irq {
        Some("test-harness,no-ps2-irq"@)
    } else {
        features_of(m)
    }
}

/// The mode runs the integration harness.
pub open spec fn harness(m: BuildMode) -> bool {
    m == BuildMode::TestHarness || m == BuildMode::TestHarnessNoPs2Irq || m == BuildMode::Bench
}

/// What an optional string holds.
pub open spec fn opt_str(s: Option<&str>) -> Option<Seq<char>> {
    match s {
        Some(s) => Some(s@),
        None => None,
    }
}

impl BuildMode {
    /// The feature that userspace is built with.
    pub fn features(self) -> (r: Option<&'static str>)
        ensures
            opt_str(r) == features_of(self),
    {
        match self {
            BuildMode::Normal => None,
            BuildMode::Selftest => Some("selftest"),
            BuildMode::TestHarness | BuildMode::TestHarnessNoPs2Irq | BuildMode::Bench => Some(
                "test-harness",
            ),
        }
    }

    /// Whether the mode runs the integration harness.
    pub fn is_test_harness(self) -> (r: bool)
        ensures
            r == harness(self),
    {
        match self {
            BuildMode::TestHarness | BuildMode::TestHarnessNoPs2Irq | BuildMode::Bench => true,
            _ => false,
        }
    }

    /// The features that the kernel is built with.
    pub fn kernel_features(self) -> (r: Option<&'static str>)
        ensures
            opt_str(r) == kernel_features_of(self),
    {
        match self {
            BuildMode::TestHarnessNoPs2Irq => Some("test-harness,no-ps2-irq"),
            other => other.features(),
        }
    }
}

/// Userspace is the same in every mode that runs the harness: what differs is the kernel alone.
pub proof fn law_harness_modes_share_userspace(a: BuildMode, b: BuildMode)
    requires
        harness(a),
        harness(b),
    ensures
        features_of(a) == features_of(b),
{
}

/// What the strings hold.
pub open spec fn names(v: Seq<&'static str>) -> Seq<Seq<char>> {
    v.map_values(|s: &'static str| s@)
}

/// The programs of the core utilities.
pub open spec fn coreutils_names() -> Seq<Seq<char>> {
    seq![
        "list"@,
        "copy"@,
        "mkdir"@,
        "remove"@,
        "rename"@,
        "move"@,
        "touch"@,
        "date"@,
        "sleep"@,
        "whoami"@,
        "desktop"@,
        "clip"@,
    ]
}

/// The programs of the core utilities.
pub fn coreutils() -> (r: Vec<&'static str>)
    ensures
        names(r@) == coreutils_names(),
{
    let v: Vec<&'static str> = vec![
        "list",
        "copy",
        "mkdir",
        "remove",
        "rename",
        "move",
        "touch",
        "date",
        "sleep",
        "whoami",
        "desktop",
        "clip",
    ];
    assert(names(v@) =~= coreutils_names());
    v
}

/// The services of the system package.
pub open spec fn service_names() -> Seq<Seq<char>> {
    seq![
        "service-mgr"@,
        "session-mgr"@,
        "desktop-session-mgr"@,
        "desktop-shell"@,
        "auth-service"@,
        "logging-service"@,
        "heartbeat"@,
        "fs-server-ext4"@,
        "tty-server"@,
        "compositor"@,
        "input-server"@,
        "clipboard-server"@,
    ]
}

/// The services of the system package.
pub fn system_services() -> (r: Vec<&'static str>)
    ensures
        names(r@) == service_names(),
{
    let v: Vec<&'static str> = vec![
        "service-mgr",
        "session-mgr",
        "desktop-session-mgr",
        "desktop-shell",
        "auth-service",
        "logging-service",
        "heartbeat",
        "fs-server-ext4",
        "tty-server",
        "compositor",
        "input-server",
        "clipboard-server",
    ];
    assert(names(v@) =~= service_names());
    v
}

/// The programs of the test package.
pub open spec fn test_names() -> Seq<Seq<char>> {
    seq![
        "test-harness"@,
        "test-stage"@,
        "display-selftest"@,
        "ui-testclient"@,
        "input-testclient"@,
        "boot-probe"@,
        "compose-bench"@,
    ]
}

/// The programs of the test package.
pub fn test_programs() -> (r: Vec<&'static str>)
    ensures
        names(r@) == test_names(),
{
    let v: Vec<&'static str> = vec![
        "test-harness",
        "test-stage",
        "display-selftest",
        "ui-testclient",
        "input-testclient",
        "boot-probe",
        "compose-bench",
    ];
    assert(names(v@) =~= test_names());
    v
}

/// The programs that a session has: the core utilities, and what a person runs beside them.
pub fn profile_programs() -> (r: Vec<&'static str>)
    ensures
        names(r@) == coreutils_names() + seq!["nxsh"@, "nxterm"@, "nxfiles"@, "nxedit"@],
{
    let mut v = coreutils();
    let ghost base = v@;
    v.push("nxsh");
    v.push("nxterm");
    v.push("nxfiles");
    v.push("nxedit");
    assert(names(v@) =~= names(base) + seq!["nxsh"@, "nxterm"@, "nxfiles"@, "nxedit"@]);
    v
}

/// The programs of the boot archive: the kernel's first, the root's server, the recovery shell,
/// and what makes the program directory.
pub fn initramfs_programs() -> (r: Vec<&'static str>)
    ensures
        names(r@) == seq!["init"@, "fs-server-ext4"@, "eshell"@, "profile-server"@],
{
    let v: Vec<&'static str> = vec!["init", "fs-server-ext4", "eshell", "profile-server"];
    assert(names(v@) =~= seq!["init"@, "fs-server-ext4"@, "eshell"@, "profile-server"@]);
    v
}

/// A crate of userspace that is built, and the feature that it is built with.
pub open spec fn step(dir: Seq<char>, feature: Option<Seq<char>>) -> (Seq<char>, Option<Seq<char>>) {
    (dir, feature)
}

/// The crates of userspace that a mode builds, in order, each with its feature.
pub open spec fn plan(m: BuildMode) -> Seq<(Seq<char>, Option<Seq<char>>)> {
    let head = if features_of(m) is Some {
        seq![step("hello"@, None), step("test-harness"@, None)]
    } else {
        seq![step("hello"@, None)]
    };
    head + seq![
        step("init"@, features_of(m)),
        step("fs-server-ext4"@, None),
        step("eshell"@, None),
        step("service-mgr"@, None),
        step("heartbeat"@, None),
        step("coreutils"@, None),
        step("nxsh"@, None),
        step("profile-server"@, None),
        step("tty-server"@, None),
        step("input-server"@, None),
        step("logging-service"@, None),
        step("auth-service"@, None),
        step("clipboard-server"@, None),
        step("session-mgr"@, None),
        step("desktop-session-mgr"@, None),
        step("desktop-shell"@, None),
        step("compositor"@, None),
        step(
            "nxterm"@,
            if harness(m) {
                Some("test-harness"@)
            } else {
                None
            },
        ),
        step("nxfiles"@, None),
        step("nxedit"@, None),
    ]
}

/// What the steps hold.
pub open spec fn steps(v: Seq<(&'static str, Option<&'static str>)>) -> Seq<
    (Seq<char>, Option<Seq<char>>),
> {
    v.map_values(|s: (&'static str, Option<&'static str>)| (s.0@, opt_str(s.1)))
}

/// The crates of userspace that a mode builds, in order, each with its feature.
pub fn build_plan(mode: BuildMode) -> (r: Vec<(&'static str, Option<&'static str>)>)
    ensures
        steps(r@) == plan(mode),
{
    let mut v: Vec<(&'static str, Option<&'static str>)> = Vec::new();
    v.push(("hello", None));
    let f = mode.features();
    if f.is_some() {
        v.push(("test-harness", None));
    }
    v.push(("init", f));
    v.push(("fs-server-ext4", None));
    v.push(("eshell", None));
    v.push(("service-mgr", None));
    v.push(("heartbeat", None));
    v.push(("coreutils", None));
    v.push(("nxsh", None));
    v.push(("profile-server", None));
    v.push(("tty-server", None));
    v.push(("input-server", None));
    v.push(("logging-service", None));
    v.push(("auth-service", None));
    v.push(("clipboard-server", None));
    v.push(("session-mgr", None));
    v.push(("desktop-session-mgr", None));
    v.push(("desktop-shell", None));
    v.push(("compositor", None));
    let t: Option<&'static str> = if mode.is_test_harness() {
        Some("test-harness")
    } else {
        None
    };
    v.push(("nxterm", t));
    v.push(("nxfiles", None));
    v.push(("nxedit", None));
    assert(steps(v@) =~= plan(mode));
    v
}

/// Outside the modes that test, no crate is built with a feature.
pub proof fn law_a_release_build_has_no_features(i: int)
    requires
        0 <= i < plan(BuildMode::Normal).len(),
    ensures
        plan(BuildMode::Normal)[i].1 is None,
{
}

/// The programs that building a crate leaves.
pub open spec fn products_of(dir: Seq<char>) -> Seq<Seq<char>> {
    if dir == "coreutils"@ {
        coreutils_names()
    } else if dir == "test-harness"@ {
        test_names()
    } else {
        seq![dir]
    }
}

/// The programs that building a crate leaves.
pub fn products(dir: &'static str) -> (r: Vec<&'static str>)
    ensures
        names(r@) == products_of(dir@),
{
    let c = text::chars_of(dir);
    if text::equals(c.as_slice(), "coreutils") {
        return coreutils();
    }
    if text::equals(c.as_slice(), "test-harness") {
        return test_programs();
    }
    let mut v: Vec<&'static str> = Vec::new();
    v.push(dir);
    assert(names(v@) =~= seq![dir@]);
    v
}

/// A mode builds a program: it is among what one of its steps leaves.
pub open spec fn is_built(m: BuildMode, program: Seq<char>) -> bool {
    exists|i: int|
        0 <= i < plan(m).len() && products_of(#[trigger] plan(m)[i].0).contains(program)
}

proof fn lemma_built_alone(m: BuildMode, i: int, program: Seq<char>)
    requires
        0 <= i < plan(m).len(),
        plan(m)[i].0 == program,
        program != "coreutils"@,
        program != "test-harness"@,
    ensures
        is_built(m, program),
{
    assert(products_of(plan(m)[i].0)[0] == program);
}

proof fn lemma_built_together(m: BuildMode, i: int, k: int)
    requires
        0 <= i < plan(m).len(),
        0 <= k < products_of(plan(m)[i].0).len(),
    ensures
        is_built(m, products_of(plan(m)[i].0)[k]),
{
    assert(products_of(plan(m)[i].0).contains(products_of(plan(m)[i].0)[k]));
}

/// Nothing is packaged that is not built: every program of the packages and of the boot archive is
/// among what the mode's steps leave.
pub proof fn law_every_packaged_program_is_built(m: BuildMode)
    ensures
        forall|k: int| 0 <= k < 12 ==> is_built(m, #[trigger] coreutils_names()[k]),
        forall|k: int| 0 <= k < 12 ==> is_built(m, #[trigger] service_names()[k]),
        features_of(m) is Some ==> forall|k: int|
            0 <= k < 7 ==> is_built(m, #[trigger] test_names()[k]),
        is_built(m, "nxsh"@),
        is_built(m, "nxterm"@),
        is_built(m, "nxfiles"@),
        is_built(m, "nxedit"@),
        is_built(m, "init"@),
        is_built(m, "eshell"@),
        is_built(m, "profile-server"@),
{
    reveal_strlit("coreutils");
    reveal_strlit("test-harness");
    reveal_strlit("init");
    reveal_strlit("fs-server-ext4");
    reveal_strlit("eshell");
    reveal_strlit("service-mgr");
    reveal_strlit("heartbeat");
    reveal_strlit("nxsh");
    reveal_strlit("profile-server");
    reveal_strlit("tty-server");
    reveal_strlit("input-server");
    reveal_strlit("logging-service");
    reveal_strlit("auth-service");
    reveal_strlit("clipboard-server");
    reveal_strlit("session-mgr");
    reveal_strlit("desktop-session-mgr");
    reveal_strlit("desktop-shell");
    reveal_strlit("compositor");
    reveal_strlit("nxterm");
    reveal_strlit("nxfiles");
    reveal_strlit("nxedit");
    let o: int = if features_of(m) is Some {
        2
    } else {
        1
    };
    assert("tty-server"@.len() != "test-harness"@.len());
    assert("clipboard-server"@.len() != "coreutils"@.len());
    assert("heartbeat"@[0] != "coreutils"@[0]);
    assert("auth-service"@[0] != "test-harness"@[0]);
    assert("input-server"@[0] != "test-harness"@[0]);
    lemma_built_alone(m, o, "init"@);
    lemma_built_alone(m, o + 1, "fs-server-ext4"@);
    lemma_built_alone(m, o + 2, "eshell"@);
    lemma_built_alone(m, o + 3, "service-mgr"@);
    lemma_built_alone(m, o + 4, "heartbeat"@);
    lemma_built_alone(m, o + 6, "nxsh"@);
    lemma_built_alone(m, o + 7, "profile-server"@);
    lemma_built_alone(m, o + 8, "tty-server"@);
    lemma_built_alone(m, o + 9, "input-server"@);
    lemma_built_alone(m, o + 10, "logging-service"@);
    lemma_built_alone(m, o + 11, "auth-service"@);
    lemma_built_alone(m, o + 12, "clipboard-server"@);
    lemma_built_alone(m, o + 13, "session-mgr"@);
    lemma_built_alone(m, o + 14, "desktop-session-mgr"@);
    lemma_built_alone(m, o + 15, "desktop-shell"@);
    lemma_built_alone(m, o + 16, "compositor"@);
    lemma_built_alone(m, o + 17, "nxterm"@);
    lemma_built_alone(m, o + 18, "nxfiles"@);
    lemma_built_alone(m, o + 19, "nxedit"@);
    assert forall|k: int| 0 <= k < 12 implies is_built(m, #[trigger] coreutils_names()[k]) by {
        assert(plan(m)[o + 5].0 == "coreutils"@);
        lemma_built_together(m, o + 5, k);
    }
    if features_of(m) is Some {
        assert forall|k: int| 0 <= k < 7 implies is_built(m, #[trigger] test_names()[k]) by {
            assert(plan(m)[1].0 == "test-harness"@);
            lemma_built_together(m, 1, k);
        }
    }
}

/// The libraries of userspace that are built for their own sake, to see that they compile.
pub fn checked_libraries() -> (r: Vec<&'static str>)
    ensures
        names(r@) == seq!["libdraw"@, "libsurface"@, "libinput"@, "libui"@, "libterm"@],
{
    let v: Vec<&'static str> = vec!["libdraw", "libsurface", "libinput", "libui", "libterm"];
    assert(names(v@) =~= seq!["libdraw"@, "libsurface"@, "libinput"@, "libui"@, "libterm"@]);
    v
}

/// The arguments that build a library of userspace.
pub fn library_args(package: &str) -> (r: Vec<String>)
    ensures
        text::strs(r@) == seq![
            "build"@,
            "--release"@,
            "-p"@,
            package@,
            "--target"@,
            "../x86_64-unknown-nitrox.json"@,
            "-Z"@,
            "build-std=core,alloc,compiler_builtins"@,
        ],
{
    let mut v: Vec<String> = Vec::new();
    assert(text::strs(v@) =~= Seq::empty());
    push(&mut v, "build");
    push(&mut v, "--release");
    push(&mut v, "-p");
    push(&mut v, package);
    push(&mut v, "--target");
    push(&mut v, "../x86_64-unknown-nitrox.json");
    push(&mut v, "-Z");
    push(&mut v, "build-std=core,alloc,compiler_builtins");
    v
}

/// The arguments that build the kernel.
pub fn kernel_build_args(mode: BuildMode) -> (r: Vec<String>)
    ensures
        text::strs(r@) == (match kernel_features_of(mode) {
            Some(f) => seq!["build"@, "--features"@, f],
            None => seq!["build"@],
        }),
{
    let mut v: Vec<String> = Vec::new();
    assert(text::strs(v@) =~= Seq::empty());
    push(&mut v, "build");
    match mode.kernel_features() {
        Some(f) => {
            push(&mut v, "--features");
            push(&mut v, f);
        },
        None => {},
    }
    v
}

/// How a crate of userspace is built: the arguments, and the programs that it leaves.
pub struct CrateBuild {
    /// The builder's arguments.
    pub args: Vec<String>,
    /// The programs that must be there afterwards.
    pub products: Vec<String>,
}

/// The arguments that build a crate of userspace.
pub open spec fn crate_args(feature: Option<Seq<char>>) -> Seq<Seq<char>> {
    let base = seq![
        "build"@,
        "--release"@,
        "--target"@,
        "../x86_64-unknown-nitrox.json"@,
        "-Z"@,
        "build-std=core,alloc,compiler_builtins"@,
    ];
    match feature {
        Some(f) => base + seq!["--features"@, f],
        None => base,
    }
}

/// Appends a string to a list.
pub(crate) fn push(out: &mut Vec<String>, s: &str)
    ensures
        text::strs(final(out)@) == text::strs(old(out)@).push(s@),
{
    let t = String::from_str(s);
    proof {
        text::lemma_strs_push(out@, t);
    }
    out.push(t);
}

/// How a crate of userspace that leaves the programs `bins` is built.
pub fn build_userspace_crate(bins: &Vec<&'static str>, features: Option<&str>) -> (r: CrateBuild)
    ensures
        text::strs(r.args@) == crate_args(opt_str(features)),
        text::strs(r.products@) == names(bins@),
{
    let mut args: Vec<String> = Vec::new();
    assert(text::strs(args@) =~= Seq::empty());
    push(&mut args, "build");
    push(&mut args, "--release");
    push(&mut args, "--target");
    push(&mut args, "../x86_64-unknown-nitrox.json");
    push(&mut args, "-Z");
    push(&mut args, "build-std=core,alloc,compiler_builtins");
    match features {
        Some(f) => {
            push(&mut args, "--features");
            push(&mut args, f);
        },
        None => {},
    }
    assert(text::strs(args@) =~= crate_args(opt_str(features)));
    let mut products: Vec<String> = Vec::new();
    let ghost all = names(bins@);
    let mut i: usize = 0;
    assert(text::strs(products@) =~= all.take(0));
    while i < bins.len()
        invariant
            i <= bins.len(),
            all == names(bins@),
            text::strs(products@) == all.take(i as int),
        decreases bins.len() - i,
    {
        assert(all[i as int] == bins[i as int]@);
        push(&mut products, bins[i]);
        assert(all.take(i + 1) =~= all.take(i as int).push(all[i as int]));
        i = i + 1;
    }
    assert(all.take(i as int) =~= all);
    CrateBuild { args, products }
}

/// How a crate of userspace that is one program is built.
pub fn build_userspace_bin(name: &'static str, features: Option<&str>) -> (r: CrateBuild)
    ensures
        text::strs(r.args@) == crate_args(opt_str(features)),
        text::strs(r.products@) == seq![name@],
{
    let mut bins: Vec<&'static str> = Vec::new();
    bins.push(name);
    assert(names(bins@) =~= seq![name@]);
    build_userspace_crate(&bins, features)
}

/// What runs the machine's code.
#[derive(Debug, Clone, Copy, PartialEq, Eq, Structural)]
pub enum Accel {
    /// The emulator's translator.
    Tcg,
    /// Hardware virtualisation.
    Kvm,
}

/// A word that looks like a version: a digit first, and a dot somewhere.
pub open spec fn is_version_word(w: Seq<char>) -> bool {
    text::contains(w, "."@) && w.len() > 0 && text::is_digit(w[0])
}

/// The first word that looks like a version.
pub open spec fn version_word(ws: Seq<Seq<char>>) -> Option<Seq<char>>
    decreases ws.len(),
{
    if ws.len() == 0 {
        None
    } else if is_version_word(ws[0]) {
        Some(ws[0])
    } else {
        version_word(ws.skip(1))
    }
}

/// The version that the emulator reports. A minor part that is no number counts as zero.
pub open spec fn version(report: Seq<char>) -> Option<(u32, u32)> {
    match version_word(text::words(report)) {
        None => None,
        Some(w) => {
            let p = text::split(w, "."@);
            match number::u32_of(p[0]) {
                None => None,
                Some(major) => {
                    let minor = if p.len() > 1 {
                        match number::u32_of(p[1]) {
                            Some(m) => m,
                            None => 0u32,
                        }
                    } else {
                        0u32
                    };
                    Some((major, minor))
                },
            }
        },
    }
}

/// The version in the emulator's report, as it was printed.
pub fn qemu_version(report: &[u8]) -> (r: Option<(u32, u32)>)
    ensures
        r == version(wire::decoded(report@)),
{
    let t = wire::lossy(report);
    version_in(t.as_str())
}

/// The version in the text of the emulator's report.
pub fn version_in(report: &str) -> (r: Option<(u32, u32)>)
    ensures
        r == version(report@),
{
    let c = text::chars_of(report);
    let ws = text::words_of(c.as_slice());
    let ghost all = text::words(report@);
    proof {
        reveal_strlit(".");
    }
    let mut i: usize = 0;
    assert(all.skip(0) =~= all);
    while i < ws.len()
        invariant
            i <= ws.len(),
            all == text::views(ws@),
            all == text::words(report@),
            "."@.len() > 0,
            version_word(all) == version_word(all.skip(i as int)),
        decreases ws.len() - i,
    {
        let w = ws[i];
        assert(all.skip(i as int)[0] == w@);
        assert(all.skip(i as int).skip(1) =~= all.skip(i + 1));
        if text::has_str(w, ".") && w.len() > 0 && text::digit(w[0]) {
            let p = text::pieces(w, ".");
            assert(text::views(p@).len() == p.len());
            assert(text::views(p@)[0] == p[0]@);
            let major: u32 = number::parse_u32(p[0])?;
            let minor: u32 = if p.len() > 1 {
                assert(text::views(p@)[1] == p[1]@);
                match number::parse_u32(p[1]) {
                    Some(m) => m,
                    None => 0,
                }
            } else {
                0
            };
            return Some((major, minor));
        }
        i = i + 1;
    }
    None
}

/// Why the machine cannot be started as asked.
#[derive(Debug, Clone, Copy, PartialEq, Eq, Structural)]
pub enum AccelFault {
    /// Hardware virtualisation is not there.
    NoKvm,
    /// The emulator's translator is too old to run the kernel.
    TooOld(u32, u32),
}

/// What stands against starting a machine as asked.
pub open spec fn preflight(accel: Accel, kvm_present: bool, version: Option<(u32, u32)>) -> Result<
    (),
    AccelFault,
> {
    match (accel, version) {
        (Accel::Kvm, _) => if kvm_present {
            Ok(())
        } else {
            Err(AccelFault::NoKvm)
        },
        (Accel::Tcg, Some((major, minor))) => if major < 9 {
            Err(AccelFault::TooOld(major, minor))
        } else {
            Ok(())
        },
        (Accel::Tcg, None) => Ok(()),
    }
}

/// Checks that the machine can be started as asked. An emulator whose version is not known passes.
pub fn preflight_accel(accel: Accel, kvm_present: bool, version: Option<(u32, u32)>) -> (r: Result<
    (),
    AccelFault,
>)
    ensures
        r == preflight(accel, kvm_present, version),
        r == (match (accel, version) {
            (Accel::Kvm, _) => if kvm_present {
                Ok::<(), AccelFault>(())
            } else {
                Err(AccelFault::NoKvm)
            },
            (Accel::Tcg, Some((major, minor))) => if major < 9 {
                Err(AccelFault::TooOld(major, minor))
            } else {
                Ok(())
            },
            (Accel::Tcg, None) => Ok(()),
        }),
{
    match accel {
        Accel::Kvm => if kvm_present {
            Ok(())
        } else {
            Err(AccelFault::NoKvm)
        },
        Accel::Tcg => match version {
            Some((major, minor)) => if major < 9 {
                Err(AccelFault::TooOld(major, minor))
            } else {
                Ok(())
            },
            None => Ok(()),
        },
    }
}

/// The machine's firmware.
#[derive(Debug)]
pub enum Firmware {
    /// One image, which is not written to.
    Single(String),
    /// Code that is not written to, and the template of the variables that are.
    Split { code: String, vars_template: String },
}

/// Where split firmware is looked for: the code and the template of the variables.
pub open spec fn split_place(i: int) -> (Seq<char>, Seq<char>) {
    if i == 0 {
        (
            "/usr/local/share/qemu/edk2-x86_64-code.fd"@,
            "/usr/local/share/qemu/edk2-i386-vars.fd"@,
        )
    } else if i == 1 {
        ("/usr/share/qemu/edk2-x86_64-code.fd"@, "/usr/share/qemu/edk2-i386-vars.fd"@)
    } else if i == 2 {
        ("/usr/share/OVMF/OVMF_CODE_4M.fd"@, "/usr/share/OVMF/OVMF_VARS_4M.fd"@)
    } else if i == 3 {
        ("/usr/share/OVMF/OVMF_CODE.fd"@, "/usr/share/OVMF/OVMF_VARS.fd"@)
    } else {
        ("/usr/share/edk2-ovmf/x64/OVMF_CODE.fd"@, "/usr/share/edk2-ovmf/x64/OVMF_VARS.fd"@)
    }
}

/// Where single firmware is looked for.
pub open spec fn single_place(i: int) -> Seq<char> {
    if i == 0 {
        "/usr/share/ovmf/OVMF.fd"@
    } else if i == 1 {
        "/usr/share/qemu/OVMF.fd"@
    } else {
        "/usr/share/edk2-ovmf/x64/OVMF.fd"@
    }
}

/// How many places split firmware is looked for in.
pub const SPLIT_PLACES: usize = 5;

/// How many places single firmware is looked for in.
pub const SINGLE_PLACES: usize = 3;

/// A place where split firmware is looked for.
pub fn split_firmware(i: usize) -> (r: (&'static str, &'static str))
    requires
        i < SPLIT_PLACES,
    ensures
        (r.0@, r.1@) == split_place(i as int),
{
    if i == 0 {
        (
            "/usr/local/share/qemu/edk2-x86_64-code.fd",
            "/usr/local/share/qemu/edk2-i386-vars.fd",
        )
    } else if i == 1 {
        ("/usr/share/qemu/edk2-x86_64-code.fd", "/usr/share/qemu/edk2-i386-vars.fd")
    } else if i == 2 {
        ("/usr/share/OVMF/OVMF_CODE_4M.fd", "/usr/share/OVMF/OVMF_VARS_4M.fd")
    } else if i == 3 {
        ("/usr/share/OVMF/OVMF_CODE.fd", "/usr/share/OVMF/OVMF_VARS.fd")
    } else {
        ("/usr/share/edk2-ovmf/x64/OVMF_CODE.fd", "/usr/share/edk2-ovmf/x64/OVMF_VARS.fd")
    }
}

/// A place where single firmware is looked for.
pub fn single_firmware(i: usize) -> (r: &'static str)
    requires
        i < SINGLE_PLACES,
    ensures
        r@ == single_place(i as int),
{
    if i == 0 {
        "/usr/share/ovmf/OVMF.fd"
    } else if i == 1 {
        "/usr/share/qemu/OVMF.fd"
    } else {
        "/usr/share/edk2-ovmf/x64/OVMF.fd"
    }
}

/// What a [`Firmware`] holds.
pub enum FirmwareView {
    Single(Seq<char>),
    Split { code: Seq<char>, vars_template: Seq<char> },
}

impl View for Firmware {
    type V = FirmwareView;

    open spec fn view(&self) -> FirmwareView {
        match self {
            Firmware::Single(c) => FirmwareView::Single(c@),
            Firmware::Split { code, vars_template } => FirmwareView::Split {
                code: code@,
                vars_template: vars_template@,
            },
        }
    }
}

/// The first place that is there.
pub open spec fn first_present(p: Seq<bool>) -> Option<int>
    decreases p.len(),
{
    if p.len() == 0 {
        None
    } else {
        match first_present(p.drop_last()) {
            Some(i) => Some(i),
            None => if p.last() {
                Some(p.len() - 1)
            } else {
                None
            },
        }
    }
}

/// The firmware that is used: what the environment names, where it is there; else the first split
/// pair that is there; else the first single image.
pub open spec fn firmware(
    code: Option<Seq<char>>,
    vars: Option<Seq<char>>,
    split: Seq<bool>,
    single: Seq<bool>,
) -> Option<FirmwareView> {
    match code {
        Some(c) => match vars {
            Some(v) => Some(FirmwareView::Split { code: c, vars_template: v }),
            None => Some(FirmwareView::Single(c)),
        },
        None => match first_present(split) {
            Some(i) => Some(
                FirmwareView::Split { code: split_place(i).0, vars_template: split_place(i).1 },
            ),
            None => match first_present(single) {
                Some(i) => Some(FirmwareView::Single(single_place(i))),
                None => None,
            },
        },
    }
}

fn first_true(p: &[bool]) -> (r: Option<usize>)
    ensures
        match r {
            Some(i) => i < p.len() && first_present(p@) == Some(i as int),
            None => first_present(p@) is None,
        },
{
    let mut i: usize = 0;
    while i < p.len()
        invariant
            i <= p.len(),
            first_present(p@.take(i as int)) is None,
        decreases p.len() - i,
    {
        assert(p@.take(i + 1).drop_last() =~= p@.take(i as int));
        if p[i] {
            proof {
                lemma_first_prefix(p@, i + 1);
            }
            return Some(i);
        }
        i = i + 1;
    }
    assert(p@.take(i as int) =~= p@);
    None
}

proof fn lemma_first_prefix(p: Seq<bool>, k: int)
    requires
        0 <= k <= p.len(),
        first_present(p.take(k)) is Some,
    ensures
        first_present(p) == first_present(p.take(k)),
    decreases p.len(),
{
    if k == p.len() {
        assert(p.take(k) =~= p);
    } else {
        assert(p.drop_last().take(k) =~= p.take(k));
        lemma_first_prefix(p.drop_last(), k);
    }
}

/// What the environment names and is there.
pub open spec fn opt_string(s: Option<String>) -> Option<Seq<char>> {
    match s {
        Some(s) => Some(s@),
        None => None,
    }
}

/// Chooses the firmware. `code` and `vars` are the files that the environment names, as far as
/// they are there; `split` and `single` say which of the known places are there.
pub fn locate_ovmf(
    code: Option<String>,
    vars: Option<String>,
    split: &[bool],
    single: &[bool],
) -> (r: Option<Firmware>)
    requires
        split.len() == SPLIT_PLACES,
        single.len() == SINGLE_PLACES,
    ensures
        match r {
            Some(f) => firmware(opt_string(code), opt_string(vars), split@, single@) == Some(f@),
            None => firmware(opt_string(code), opt_string(vars), split@, single@) is None,
        },
{
    match code {
        Some(c) => match vars {
            Some(v) => Some(Firmware::Split { code: c, vars_template: v }),
            None => Some(Firmware::Single(c)),
        },
        None => match first_true(split) {
            Some(i) => {
                let p = split_firmware(i);
                Some(
                    Firmware::Split {
                        code: String::from_str(p.0),
                        vars_template: String::from_str(p.1),
                    },
                )
            },
            None => match first_true(single) {
                Some(i) => Some(Firmware::Single(String::from_str(single_firmware(i)))),
                None => None,
            },
        },
    }
}

/// The machine's arguments for its firmware, with the variables in the file `vars`.
pub open spec fn pflash_args(f: FirmwareView, vars: Seq<char>) -> Seq<Seq<char>> {
    match f {
        FirmwareView::Single(code) => seq![
            "-drive"@,
            "if=pflash,format=raw,readonly=on,file="@ + code,
        ],
        FirmwareView::Split { code, .. } => seq![
            "-drive"@,
            "if=pflash,unit=0,format=raw,readonly=on,file="@ + code,
            "-drive"@,
            "if=pflash,unit=1,format=raw,file="@ + vars,
        ],
    }
}

/// One string behind another.
pub(crate) fn glued(a: &str, b: &str) -> (r: String)
    ensures
        r@ == a@ + b@,
{
    let mut s = String::from_str(a);
    s.append(b);
    s
}

/// The machine's arguments for its firmware, with the variables in the file `vars`.
pub fn firmware_pflash_args(firmware: &Firmware, vars: &str) -> (r: Vec<String>)
    ensures
        text::strs(r@) == pflash_args(firmware@, vars@),
{
    let mut v: Vec<String> = Vec::new();
    assert(text::strs(v@) =~= Seq::empty());
    match firmware {
        Firmware::Single(code) => {
            push(&mut v, "-drive");
            let s = glued("if=pflash,format=raw,readonly=on,file=", code.as_str());
            push(&mut v, s.as_str());
        },
        Firmware::Split { code, .. } => {
            push(&mut v, "-drive");
            let s = glued("if=pflash,unit=0,format=raw,readonly=on,file=", code.as_str());
            push(&mut v, s.as_str());
            push(&mut v, "-drive");
            let t = glued("if=pflash,unit=1,format=raw,file=", vars);
            push(&mut v, t.as_str());
        },
    }
    assert(text::strs(v@) =~= pflash_args(firmware@, vars@));
    v
}

/// The arguments of every machine.
pub open spec fn base_args(accel: Accel, pflash: Seq<Seq<char>>) -> Seq<Seq<char>> {
    seq!["-M"@, "q35"@, "-m"@, "256M"@] + match accel {
        Accel::Tcg => seq!["-cpu"@, "max"@],
        Accel::Kvm => seq!["-enable-kvm"@, "-cpu"@, "host"@],
    } + pflash
}

/// The arguments of every machine.
pub fn qemu_base_args(accel: Accel, pflash: &Vec<String>) -> (r: Vec<String>)
    ensures
        text::strs(r@) == base_args(accel, text::strs(pflash@)),
{
    let mut v: Vec<String> = Vec::new();
    assert(text::strs(v@) =~= Seq::empty());
    push(&mut v, "-M");
    push(&mut v, "q35");
    push(&mut v, "-m");
    push(&mut v, "256M");
    match accel {
        Accel::Tcg => {
            push(&mut v, "-cpu");
            push(&mut v, "max");
        },
        Accel::Kvm => {
            push(&mut v, "-enable-kvm");
            push(&mut v, "-cpu");
            push(&mut v, "host");
        },
    }
    let ghost head = text::strs(v@);
    let ghost all = text::strs(pflash@);
    let mut i: usize = 0;
    assert(head + all.take(0) =~= head);
    while i < pflash.len()
        invariant
            i <= pflash.len(),
            all == text::strs(pflash@),
            text::strs(v@) == head + all.take(i as int),
        decreases pflash.len() - i,
    {
        push(&mut v, pflash[i].as_str());
        assert(all.take(i + 1) =~= all.take(i as int).push(all[i as int]));
        assert(head + all.take(i + 1) =~= (head + all.take(i as int)).push(all[i as int]));
        i = i + 1;
    }
    assert(all.take(i as int) =~= all);
    assert(text::strs(v@) =~= base_args(accel, all));
    v
}

/// A command as it is shown: the program and its arguments, with spaces between.
pub fn format_cmd(program: &str, args: &Vec<String>) -> (r: String)
    ensures
        r@ == text::join(seq![program@] + text::strs(args@), " "@),
{
    let ghost all = seq![program@] + text::strs(args@);
    let mut s = String::from_str(program);
    let mut i: usize = 0;
    assert(all.take(1) =~= seq![program@]);
    while i < args.len()
        invariant
            i <= args.len(),
            all == seq![program@] + text::strs(args@),
            s@ == text::join(all.take(i + 1), " "@),
        decreases args.len() - i,
    {
        assert(all.take(i + 2).drop_last() =~= all.take(i + 1));
        assert(all.take(i + 2).last() == args[i as int]@);
        s.append(" ");
        s.append(args[i].as_str());
        i = i + 1;
    }
    assert(all.take(i + 1) =~= all);
    s
}

/// What the command line asks for.
pub struct Invocation {
    /// The command, where there is one.
    pub command: Option<String>,
    /// Build with the self-tests.
    pub selftest: bool,
    /// Boot with the keyboard controller's interrupts off.
    pub no_ps2_irq: bool,
    /// Give the window the pointer and the keyboard.
    pub grab: bool,
    /// Run under hardware virtualisation.
    pub kvm: bool,
    /// The arguments that are left.
    pub rest: Vec<String>,
}

/// Why the command line is refused.
#[derive(Debug, Clone, Copy, PartialEq, Eq, Structural)]
pub enum ArgFault {
    /// `--grab` is for the commands that show a window.
    Grab,
    /// `--no-ps2-irq` is for the input gate.
    NoPs2Irq,
}

/// An argument that this tool takes itself.
pub open spec fn is_own(a: Seq<char>) -> bool {
    a == "--selftest"@ || a == "--kvm"@ || a == "--no-ps2-irq"@ || a == "--grab"@
}

/// The arguments that are left.
pub open spec fn left(args: Seq<Seq<char>>) -> Seq<Seq<char>>
    decreases args.len(),
{
    if args.len() == 0 {
        Seq::empty()
    } else if is_own(args.last()) {
        left(args.drop_last())
    } else {
        left(args.drop_last()).push(args.last())
    }
}

/// The command shows a window.
pub open spec fn is_windowed(command: Option<Seq<char>>) -> bool {
    command == Some("qemu"@) || command == Some("qemu-debug"@)
}

fn string_is(s: &Option<String>, lit: &str) -> (r: bool)
    ensures
        r == (opt_string(*s) == Some(lit@)),
{
    match s {
        Some(s) => {
            let c = text::chars_of(s.as_str());
            text::equals(c.as_slice(), lit)
        },
        None => false,
    }
}

fn mentions(args: &Vec<String>, flag: &str) -> (r: bool)
    ensures
        r == text::strs(args@).contains(flag@),
{
    let mut i: usize = 0;
    while i < args.len()
        invariant
            i <= args.len(),
            forall|j: int| 0 <= j < i ==> args[j]@ != flag@,
        decreases args.len() - i,
    {
        let c = text::chars_of(args[i].as_str());
        if text::equals(c.as_slice(), flag) {
            assert(text::strs(args@)[i as int] == flag@);
            return true;
        }
        i = i + 1;
    }
    assert forall|j: int| 0 <= j < text::strs(args@).len() implies text::strs(args@)[j] != flag@ by {
        assert(text::strs(args@)[j] == args[j]@);
    }
    false
}

/// What is wrong with a command line, if anything.
pub open spec fn arg_fault(c: Option<Seq<char>>, a: Seq<Seq<char>>) -> Option<ArgFault> {
    if a.contains("--grab"@) && !is_windowed(c) {
        Some(ArgFault::Grab)
    } else if a.contains("--no-ps2-irq"@) && c != Some("check-input"@) {
        Some(ArgFault::NoPs2Irq)
    } else {
        None
    }
}

/// Reads the command line: the command, and the arguments behind it.
pub fn parse_args(command: Option<String>, args: &Vec<String>) -> (r: Result<Invocation, ArgFault>)
    ensures
        match arg_fault(opt_string(command), text::strs(args@)) {
            Some(f) => r matches Err(e) && e == f,
            None => r is Ok,
        },
        ({
            let a = text::strs(args@);
            let c = opt_string(command);
            let grab = a.contains("--grab"@);
            let quiet = a.contains("--no-ps2-irq"@);
            match r {
                Err(ArgFault::Grab) => grab && !is_windowed(c),
                Err(ArgFault::NoPs2Irq) => !(grab && !is_windowed(c)) && quiet && c != Some(
                    "check-input"@,
                ),
                Ok(i) => {
                    &&& !(grab && !is_windowed(c)) && !(quiet && c != Some("check-input"@))
                    &&& opt_string(i.command) == c
                    &&& i.selftest == a.contains("--selftest"@)
                    &&& i.no_ps2_irq == quiet
                    &&& i.grab == grab
                    &&& i.kvm == a.contains("--kvm"@)
                    &&& text::strs(i.rest@) == left(a)
                },
            }
        }),
{
    let selftest = mentions(args, "--selftest");
    let no_ps2_irq = mentions(args, "--no-ps2-irq");
    let grab = mentions(args, "--grab");
    let kvm = mentions(args, "--kvm");
    if grab && !string_is(&command, "qemu") && !string_is(&command, "qemu-debug") {
        return Err(ArgFault::Grab);
    }
    if no_ps2_irq && !string_is(&command, "check-input") {
        return Err(ArgFault::NoPs2Irq);
    }
    let ghost all = text::strs(args@);
    let mut rest: Vec<String> = Vec::new();
    let mut i: usize = 0;
    assert(text::strs(rest@) =~= left(all.take(0)));
    while i < args.len()
        invariant
            i <= args.len(),
            all == text::strs(args@),
            text::strs(rest@) == left(all.take(i as int)),
        decreases args.len() - i,
    {
        assert(all.take(i + 1).drop_last() =~= all.take(i as int));
        assert(all.take(i + 1).last() == args[i as int]@);
        let c = text::chars_of(args[i].as_str());
        if !text::equals(c.as_slice(), "--selftest") && !text::equals(c.as_slice(), "--kvm")
            && !text::equals(c.as_slice(), "--no-ps2-irq") && !text::equals(c.as_slice(), "--grab") {
            push(&mut rest, args[i].as_str());
        }
        i = i + 1;
    }
    assert(all.take(i as int) =~= all);
    Ok(Invocation { command, selftest, no_ps2_irq, grab, kvm, rest })
}

/// The first argument that is no option, or `all`.
pub open spec fn subject(args: Seq<Seq<char>>) -> Seq<char>
    decreases args.len(),
{
    if args.len() == 0 {
        "all"@
    } else if args[0].len() > 0 && args[0][0] == '-' {
        subject(args.skip(1))
    } else {
        args[0]
    }
}

/// What a picture command is to show: the first argument that is no option, or `all`.
pub fn picture_subject(args: &Vec<String>) -> (r: String)
    ensures
        r@ == subject(text::strs(args@)),
{
    let ghost all = text::strs(args@);
    let mut i: usize = 0;
    assert(all.skip(0) =~= all);
    while i < args.len()
        invariant
            i <= args.len(),
            all == text::strs(args@),
            subject(all) == subject(all.skip(i as int)),
        decreases args.len() - i,
    {
        assert(all.skip(i as int)[0] == args[i as int]@);
        assert(all.skip(i as int).skip(1) =~= all.skip(i + 1));
        let c = text::chars_of(args[i].as_str());
        if !(c.len() > 0 && c[0] == '-') {
            return text::string_of(c.as_slice());
        }
        i = i + 1;
    }
    String::from_str("all")
}

/// How a machine without a window is attached to.
#[derive(Debug, Clone, Copy, PartialEq, Eq, Structural)]
pub enum Console {
    /// The serial console is kept apart from the operator's interrupts, and nothing ends the
    /// machine.
    Driven,
    /// The same, and the guest can end the machine with a status.
    Measured,
    /// The serial console is the operator's, and the guest can end the machine with a status.
    Watched,
}

/// The arguments of a control socket, where one is given.
pub open spec fn socket_arguments(control: Option<Seq<char>>) -> Seq<Seq<char>> {
    match control {
        Some(s) => seq!["-qmp"@, "unix:"@ + s + ",server,nowait"@],
        None => Seq::<Seq<char>>::empty(),
    }
}

fn push_socket(v: &mut Vec<String>, control: Option<&str>)
    ensures
        text::strs(final(v)@) == text::strs(old(v)@) + socket_arguments(opt_str(control)),
{
    let ghost was = text::strs(v@);
    match control {
        Some(s) => {
            let a = glued("unix:", s);
            let b = glued(a.as_str(), ",server,nowait");
            push(v, "-qmp");
            push(v, b.as_str());
        },
        None => {},
    }
    assert(text::strs(v@) =~= was + socket_arguments(opt_str(control)));
}

/// The arguments of a machine without a window: its disk, its console, its processors, and a control
/// socket where one is given.
pub open spec fn guest_arguments(console: Console, image: Seq<char>, control: Option<Seq<char>>) -> Seq<
    Seq<char>,
> {
    let socket = socket_arguments(control);
    let exit = if console == Console::Driven {
        Seq::<Seq<char>>::empty()
    } else {
        seq!["-device"@, "isa-debug-exit,iobase=0xf4,iosize=0x04"@]
    };
    let serial = if console == Console::Watched {
        seq!["-serial"@, "stdio"@]
    } else {
        seq!["-chardev"@, "stdio,id=hostserial,signal=off"@, "-serial"@, "chardev:hostserial"@]
    };
    let disk = seq!["-drive"@, "format=raw,file="@ + image] + exit + seq!["-display"@, "none"@];
    let attached = if console == Console::Watched {
        socket + disk
    } else {
        disk + socket
    };
    attached + serial + seq!["-smp"@, "4"@, "-no-reboot"@]
}

/// The arguments of a machine without a window.
pub fn guest_args(console: Console, image: &str, control: Option<&str>) -> (r: Vec<String>)
    ensures
        text::strs(r@) == guest_arguments(console, image@, opt_str(control)),
{
    let mut v: Vec<String> = Vec::new();
    assert(text::strs(v@) =~= Seq::empty());
    match console {
        Console::Watched => push_socket(&mut v, control),
        _ => {},
    }
    let drive = glued("format=raw,file=", image);
    push(&mut v, "-drive");
    push(&mut v, drive.as_str());
    match console {
        Console::Driven => {},
        _ => {
            push(&mut v, "-device");
            push(&mut v, "isa-debug-exit,iobase=0xf4,iosize=0x04");
        },
    }
    push(&mut v, "-display");
    push(&mut v, "none");
    match console {
        Console::Watched => {},
        _ => push_socket(&mut v, control),
    }
    match console {
        Console::Watched => {
            push(&mut v, "-serial");
            push(&mut v, "stdio");
        },
        _ => {
            push(&mut v, "-chardev");
            push(&mut v, "stdio,id=hostserial,signal=off");
            push(&mut v, "-serial");
            push(&mut v, "chardev:hostserial");
        },
    }
    push(&mut v, "-smp");
    push(&mut v, "4");
    push(&mut v, "-no-reboot");
    assert(text::strs(v@) =~= guest_arguments(console, image@, opt_str(control)));
    v
}

/// The arguments of the machine that an operator watches: a window that takes the pointer where
/// asked, and a stop before the first instruction where asked.
pub open spec fn desk_arguments(image: Seq<char>, grab: bool, debug: bool) -> Seq<Seq<char>> {
    let base = seq![
        "-drive"@,
        "format=raw,file="@ + image,
        "-serial"@,
        "stdio"@,
        "-no-reboot"@,
        "-no-shutdown"@,
    ];
    let grabbed = if grab {
        base.push("-display"@).push("gtk,grab-on-hover=on"@)
    } else {
        base
    };
    if debug {
        grabbed.push("-S"@).push("-s"@)
    } else {
        grabbed
    }
}

/// The arguments of the machine that an operator watches.
pub fn desk_args(image: &str, grab: bool, debug: bool) -> (r: Vec<String>)
    ensures
        text::strs(r@) == desk_arguments(image@, grab, debug),
{
    let mut v: Vec<String> = Vec::new();
    assert(text::strs(v@) =~= Seq::empty());
    let drive = glued("format=raw,file=", image);
    push(&mut v, "-drive");
    push(&mut v, drive.as_str());
    push(&mut v, "-serial");
    push(&mut v, "stdio");
    push(&mut v, "-no-reboot");
    push(&mut v, "-no-shutdown");
    if grab {
        push(&mut v, "-display");
        push(&mut v, "gtk,grab-on-hover=on");
    }
    if debug {
        push(&mut v, "-S");
        push(&mut v, "-s");
    }
    v
}

/// Whether the boot loader that was fetched is the one that is wanted.
pub fn loader_is_current(marker: &str, version: &str) -> (r: bool)
    ensures
        r == (text::trim(marker@) == version@),
{
    let c = text::chars_of(marker);
    text::equals(text::trimmed(c.as_slice()), version)
}

/// Where the boot loader is fetched from.
pub fn loader_url(version: &str) -> (r: String)
    ensures
        r@ == "https://github.com/limine-bootloader/limine/releases/download/"@ + version@
            + "/limine-binary.tar.gz"@,
{
    let a = glued("https://github.com/limine-bootloader/limine/releases/download/", version);
    glued(a.as_str(), "/limine-binary.tar.gz")
}

/// Why a setting cannot be read.
#[derive(Debug, Clone, Copy, PartialEq, Eq, Structural)]
pub enum SettingFault {
    /// Nothing follows its name.
    Missing,
    /// What follows its name is no number.
    NotANumber,
}

/// The place of the first `name` among the arguments.
pub open spec fn place_of(args: Seq<Seq<char>>, name: Seq<char>) -> Option<int>
    decreases args.len(),
{
    if args.len() == 0 {
        None
    } else {
        match place_of(args.drop_last(), name) {
            Some(i) => Some(i),
            None => if args.last() == name {
                Some(args.len() - 1)
            } else {
                None
            },
        }
    }
}

/// A setting: the number behind its name, or the default where it is not named.
pub open spec fn setting(args: Seq<Seq<char>>, name: Seq<char>, default: u32) -> Result<
    u32,
    SettingFault,
> {
    match place_of(args, name) {
        None => Ok(default),
        Some(i) => if i + 1 >= args.len() {
            Err(SettingFault::Missing)
        } else {
            match number::u32_of(args[i + 1]) {
                Some(n) => Ok(n),
                None => Err(SettingFault::NotANumber),
            }
        },
    }
}

proof fn lemma_place_of(args: Seq<Seq<char>>, name: Seq<char>, k: int)
    requires
        0 <= k <= args.len(),
        place_of(args.take(k), name) is Some,
    ensures
        place_of(args, name) == place_of(args.take(k), name),
    decreases args.len(),
{
    if k == args.len() {
        assert(args.take(k) =~= args);
    } else {
        assert(args.drop_last().take(k) =~= args.take(k));
        lemma_place_of(args.drop_last(), name, k);
    }
}

/// Reads a setting.
pub fn tune_number(args: &Vec<String>, name: &str, default: u32) -> (r: Result<u32, SettingFault>)
    ensures
        r == setting(text::strs(args@), name@, default),
{
    let ghost all = text::strs(args@);
    let mut i: usize = 0;
    assert(all.take(0) =~= Seq::empty());
    while i < args.len()
        invariant
            i <= args.len(),
            all == text::strs(args@),
            place_of(all.take(i as int), name@) is None,
        decreases args.len() - i,
    {
        assert(all.take(i + 1).drop_last() =~= all.take(i as int));
        assert(all[i as int] == args[i as int]@);
        let c = text::chars_of(args[i].as_str());
        if text::equals(c.as_slice(), name) {
            proof {
                lemma_place_of(all, name@, i + 1);
            }
            if i + 1 >= args.len() {
                return Err(SettingFault::Missing);
            }
            assert(all[i + 1] == args[i + 1]@);
            let v = text::chars_of(args[i + 1].as_str());
            return match number::parse_u32(v.as_slice()) {
                Some(n) => Ok(n),
                None => Err(SettingFault::NotANumber),
            };
        }
        i = i + 1;
    }
    assert(all.take(i as int) =~= all);
    Ok(default)
}

/// A number, or the most that a byte holds.
pub open spec fn capped(n: int) -> int {
    if n > 255 {
        255
    } else {
        n
    }
}

/// A setting as a level: no more than a byte holds.
pub fn level(n: u32) -> (r: u8)
    ensures
        r == capped(n as int),
        r == (if n > 255 {
            255
        } else {
            n as int
        }),
{
    if n > 255 {
        255
    } else {
        n as u8
    }
}

/// Only a build for use has no features, every build that runs the harness has the harness's, and the
/// kernel's features begin with userspace's.
pub proof fn law_features_follow_the_mode(m: BuildMode)
    ensures
        features_of(m) is None <==> m == BuildMode::Normal,
        harness(m) <==> features_of(m) == Some("test-harness"@),
        features_of(m) is Some ==> features_of(m) == Some("selftest"@) || features_of(m) == Some(
            "test-harness"@,
        ),
        match (features_of(m), kernel_features_of(m)) {
            (None, None) => true,
            (Some(u), Some(k)) => k == u || (m == BuildMode::TestHarnessNoPs2Irq && k == u
                + ",no-ps2-irq"@),
            _ => false,
        },
        m == BuildMode::TestHarnessNoPs2Irq ==> features_of(m) != kernel_features_of(m),
{
    reveal_strlit("selftest");
    reveal_strlit("test-harness");
    reveal_strlit(",no-ps2-irq");
    reveal_strlit("test-harness,no-ps2-irq");
    assert("selftest"@.len() != "test-harness"@.len());
    assert("test-harness,no-ps2-irq"@ =~= "test-harness"@ + ",no-ps2-irq"@);
}

/// The version is read from the first word that begins with a digit and holds a dot: the number before
/// its first dot, and the one behind it.
#[verifier::spinoff_prover]
#[verifier::rlimit(40)]
pub proof fn law_a_version_is_read(report: Seq<char>, before: Seq<Seq<char>>, major: u32, minor: u32, patch: Seq<char>, after: Seq<Seq<char>>)
    requires
        text::words(report) == before + seq![
            number::numeral(major as nat, 10) + "."@ + (number::numeral(minor as nat, 10) + "."@ + patch),
        ] + after,
        forall|i: int|
            0 <= i < before.len() ==> (#[trigger] before[i]).len() == 0 || !text::is_digit(before[i][0])
                || !text::contains(before[i], "."@),
    ensures
        version(report) == Some((major, minor)),
{
    reveal_strlit(".");
    let a = number::numeral(major as nat, 10);
    let b = number::numeral(minor as nat, 10);
    number::law_numeral_reads_back(major as nat, 10);
    number::law_numeral_reads_back(minor as nat, 10);
    assert(number::digit_value(a[0]) < 10);
    assert(number::digit_value(b[0]) < 10);
    let rest = b + "."@ + patch;
    let w = a + "."@ + rest;
    assert forall|i: int| 0 <= i < a.len() implies a[i] != '.' by {
        assert(number::digit_value(a[i]) < 10);
    }
    assert forall|i: int| 0 <= i < b.len() implies b[i] != '.' by {
        assert(number::digit_value(b[i]) < 10);
    }
    text::lemma_cut(a, "."@, rest);
    text::lemma_cut(b, "."@, patch);
    text::lemma_stands(a, "."@, rest);
    assert(w[0] == a[0]);
    assert(is_version_word(w));
    lemma_version_word(before, w, after);
    assert(text::split(w, "."@)[1] == b);
}

proof fn lemma_version_word(before: Seq<Seq<char>>, w: Seq<char>, after: Seq<Seq<char>>)
    requires
        is_version_word(w),
        forall|i: int|
            0 <= i < before.len() ==> (#[trigger] before[i]).len() == 0 || !text::is_digit(before[i][0])
                || !text::contains(before[i], "."@),
    ensures
        version_word(before + seq![w] + after) == Some(w),
    decreases before.len(),
{
    let ws = before + seq![w] + after;
    if before.len() == 0 {
        assert(ws[0] == w);
    } else {
        assert(ws[0] == before[0]);
        assert(ws.skip(1) =~= before.skip(1) + seq![w] + after);
        assert forall|i: int| 0 <= i < before.skip(1).len() implies (
        #[trigger] before.skip(1)[i]).len() == 0 || !text::is_digit(before.skip(1)[i][0])
            || !text::contains(before.skip(1)[i], "."@) by {
            assert(before.skip(1)[i] == before[i + 1]);
        }
        lemma_version_word(before.skip(1), w, after);
    }
}

/// What the environment names is used before anything that is looked for, a split pair before a single
/// image, and of each the first that is there; without any there is no firmware.
pub proof fn law_the_first_firmware_is_used(
    code: Option<Seq<char>>,
    vars: Option<Seq<char>>,
    split: Seq<bool>,
    single: Seq<bool>,
)
    ensures
        code matches Some(c) ==> firmware(code, vars, split, single) == Some(
            match vars {
                Some(v) => FirmwareView::Split { code: c, vars_template: v },
                None => FirmwareView::Single(c),
            },
        ),
        code is None ==> match firmware(code, vars, split, single) {
            Some(FirmwareView::Split { code: c, vars_template }) => exists|i: int|
                0 <= i < split.len() && split[i] && (forall|j: int| 0 <= j < i ==> !split[j])
                    && #[trigger] split_place(i) == (c, vars_template),
            Some(FirmwareView::Single(c)) => (forall|j: int| 0 <= j < split.len() ==> !split[j])
                && exists|i: int|
                0 <= i < single.len() && single[i] && (forall|j: int| 0 <= j < i ==> !single[j])
                    && #[trigger] single_place(i) == c,
            None => (forall|j: int| 0 <= j < split.len() ==> !split[j]) && forall|j: int|
                0 <= j < single.len() ==> !single[j],
        },
{
    lemma_first_present(split);
    lemma_first_present(single);
    match first_present(split) {
        Some(i) => {
            assert(split_place(i) == (split_place(i).0, split_place(i).1));
        },
        None => {},
    }
}

proof fn lemma_first_present(p: Seq<bool>)
    ensures
        match first_present(p) {
            Some(i) => 0 <= i < p.len() && p[i] && forall|j: int| 0 <= j < i ==> !p[j],
            None => forall|j: int| 0 <= j < p.len() ==> !p[j],
        },
    decreases p.len(),
{
    if p.len() > 0 {
        let front = p.drop_last();
        lemma_first_present(front);
        assert forall|j: int| 0 <= j < front.len() implies front[j] == p[j] by {}
    }
}

/// The tool's own arguments are taken out, and every other one is left where it stood among the rest.
pub proof fn law_other_arguments_are_left(args: Seq<Seq<char>>, a: Seq<char>)
    ensures
        left(args.push(a)) == if a == "--selftest"@ || a == "--kvm"@ || a == "--no-ps2-irq"@ || a
            == "--grab"@ {
            left(args)
        } else {
            left(args).push(a)
        },
        left(Seq::empty()).len() == 0,
{
    assert(args.push(a).drop_last() =~= args);
}

/// The subject is the first argument that begins with no hyphen; where all do, everything is.
pub proof fn law_the_subject_is_no_option(before: Seq<Seq<char>>, a: Seq<char>, after: Seq<Seq<char>>)
    requires
        forall|i: int| 0 <= i < before.len() ==> (#[trigger] before[i]).len() > 0 && before[i][0] == '-',
    ensures
        subject(before) == "all"@,
        a.len() == 0 || a[0] != '-' ==> subject(before + seq![a] + after) == a,
    decreases before.len(),
{
    let all = before + seq![a] + after;
    if before.len() == 0 {
        assert(all[0] == a);
    } else {
        assert(all[0] == before[0]);
        assert(all.skip(1) =~= before.skip(1) + seq![a] + after);
        assert forall|i: int| 0 <= i < before.skip(1).len() implies (
        #[trigger] before.skip(1)[i]).len() > 0 && before.skip(1)[i][0] == '-' by {
            assert(before.skip(1)[i] == before[i + 1]);
        }
        law_the_subject_is_no_option(before.skip(1), a, after);
    }
}

/// A setting is the number behind the first argument of its name, the default where no argument has
/// that name, and a fault where nothing or no number follows.
pub proof fn law_a_setting_follows_its_name(args: Seq<Seq<char>>, name: Seq<char>, default: u32)
    ensures
        match setting(args, name, default) {
            Ok(n) => (n == default && !args.contains(name)) || exists|i: int|
                0 <= i && i + 1 < args.len() && #[trigger] args[i] == name && (forall|j: int|
                    0 <= j < i ==> args[j] != name) && number::u32_of(args[i + 1]) == Some(n),
            Err(SettingFault::Missing) => args.len() > 0 && args.last() == name && forall|j: int|
                0 <= j < args.len() - 1 ==> args[j] != name,
            Err(SettingFault::NotANumber) => exists|i: int|
                0 <= i && i + 1 < args.len() && #[trigger] args[i] == name && number::u32_of(args[i + 1])
                    is None,
        },
        !args.contains(name) ==> setting(args, name, default) == Ok::<u32, SettingFault>(default),
{
    lemma_first_place(args, name);
    match place_of(args, name) {
        Some(i) => {
            assert(args[i] == name);
            assert(args.contains(name));
        },
        None => {},
    }
}

proof fn lemma_first_place(args: Seq<Seq<char>>, name: Seq<char>)
    ensures
        match place_of(args, name) {
            Some(i) => 0 <= i < args.len() && args[i] == name && forall|j: int|
                0 <= j < i ==> args[j] != name,
            None => forall|j: int| 0 <= j < args.len() ==> args[j] != name,
        },
    decreases args.len(),
{
    if args.len() > 0 {
        let front = args.drop_last();
        lemma_first_place(front, name);
        assert forall|j: int| 0 <= j < front.len() implies front[j] == args[j] by {}
    }
}

/// The machine is accelerated, or emulates every processor feature, as asked; its firmware's arguments
/// follow as they are.
pub proof fn law_a_machine_is_accelerated_as_asked(pflash: Seq<Seq<char>>)
    ensures
        base_args(Accel::Tcg, pflash) == seq!["-M"@, "q35"@, "-m"@, "256M"@, "-cpu"@, "max"@] + pflash,
        base_args(Accel::Kvm, pflash) == seq![
            "-M"@,
            "q35"@,
            "-m"@,
            "256M"@,
            "-enable-kvm"@,
            "-cpu"@,
            "host"@,
        ] + pflash,
{
    assert(base_args(Accel::Tcg, pflash) =~= seq!["-M"@, "q35"@, "-m"@, "256M"@, "-cpu"@, "max"@]
        + pflash);
    assert(base_args(Accel::Kvm, pflash) =~= seq![
        "-M"@,
        "q35"@,
        "-m"@,
        "256M"@,
        "-enable-kvm"@,
        "-cpu"@,
        "host"@,
    ] + pflash);
}

/// A machine that ends by its own verdict has the device for it, and one that is driven to its end has
/// none; every one has its disk, no display, four processors and no second start.
#[verifier::spinoff_prover]
#[verifier::rlimit(40)]
pub proof fn law_a_guest_has_its_devices(console: Console, image: Seq<char>, control: Option<Seq<char>>)
    ensures
        ({
            let args = guest_arguments(console, image, control);
            let n = args.len() as int;
            let k = if console == Console::Watched && control is Some {
                2int
            } else {
                0int
            };
            &&& n >= 9
            &&& args.skip(n - 3) == seq!["-smp"@, "4"@, "-no-reboot"@]
            &&& args.subrange(k, k + 2) == seq!["-drive"@, "format=raw,file="@ + image]
            &&& console != Console::Driven ==> args.subrange(k + 2, k + 6) == seq![
                "-device"@,
                "isa-debug-exit,iobase=0xf4,iosize=0x04"@,
                "-display"@,
                "none"@,
            ]
            &&& console == Console::Driven ==> args.subrange(k + 2, k + 4) == seq!["-display"@, "none"@]
            &&& args.contains("-qmp"@) || control is None
            &&& console == Console::Watched ==> args.subrange(n - 5, n - 3) == seq!["-serial"@, "stdio"@]
            &&& console != Console::Watched ==> args.subrange(n - 7, n - 3) == seq![
                "-chardev"@,
                "stdio,id=hostserial,signal=off"@,
                "-serial"@,
                "chardev:hostserial"@,
            ]
        }),
{
    let args = guest_arguments(console, image, control);
    let n = args.len() as int;
    let k = if console == Console::Watched && control is Some {
        2int
    } else {
        0int
    };
    assert(args.skip(n - 3) =~= seq!["-smp"@, "4"@, "-no-reboot"@]);
    assert(args.subrange(k, k + 2) =~= seq!["-drive"@, "format=raw,file="@ + image]);
    if control is Some {
        if console == Console::Watched {
            assert(args[0] == "-qmp"@);
        } else if console == Console::Driven {
            assert(args[4] == "-qmp"@);
        } else {
            assert(args[6] == "-qmp"@);
        }
    }
}

/// The desk's machine takes the pointer where asked and stops before its first instruction where
/// asked, and is otherwise the same.
pub proof fn law_a_desk_is_as_asked(image: Seq<char>)
    ensures
        ({
            let plain = desk_arguments(image, false, false);
            let grab = seq!["-display"@, "gtk,grab-on-hover=on"@];
            let stop = seq!["-S"@, "-s"@];
            &&& plain == seq![
                "-drive"@,
                "format=raw,file="@ + image,
                "-serial"@,
                "stdio"@,
                "-no-reboot"@,
                "-no-shutdown"@,
            ]
            &&& desk_arguments(image, true, false) == plain + grab
            &&& desk_arguments(image, false, true) == plain + stop
            &&& desk_arguments(image, true, true) == plain + grab + stop
        }),
{
    let plain = desk_arguments(image, false, false);
    let grab = seq!["-display"@, "gtk,grab-on-hover=on"@];
    let stop = seq!["-S"@, "-s"@];
    assert(desk_arguments(image, true, false) =~= plain + grab);
    assert(desk_arguments(image, false, true) =~= plain + stop);
    assert(desk_arguments(image, true, true) =~= plain + grab + stop);
}

/// An accelerated machine needs the accelerator whatever the emulator's version, and an emulated one a
/// version of nine or later where it is known, whatever else is there.
pub proof fn law_a_machine_needs_what_it_is_asked_to_use(kvm_present: bool, version: Option<(u32, u32)>)
    ensures
        preflight(Accel::Kvm, kvm_present, version) is Ok <==> kvm_present,
        preflight(Accel::Tcg, kvm_present, version) is Ok <==> (version is None || (version->0).0 >= 9),
        preflight(Accel::Tcg, kvm_present, version) matches Err(f) ==> f == AccelFault::TooOld(
            (version->0).0,
            (version->0).1,
        ),
        preflight(Accel::Kvm, kvm_present, version) matches Err(f) ==> f is NoKvm,
{
}

/// A level is the number where a byte holds it, and otherwise the most that one does.
pub proof fn law_a_level_fits_in_a_byte(n: u32)
    ensures
        n <= 255 ==> capped(n as int) == n,
        n >= 256 ==> capped(n as int) == 255,
{
}

/// The pointer is taken by a command that shows a window and by no other, and the mouse's interrupts
/// are left out of the check of the input alone; any other argument goes with any command.
pub proof fn law_arguments_go_with_their_command(c: Option<Seq<char>>, a: Seq<Seq<char>>)
    ensures
        arg_fault(c, a) is None <==> (a.contains("--grab"@) ==> c == Some("qemu"@) || c == Some(
            "qemu-debug"@,
        )) && (a.contains("--no-ps2-irq"@) ==> c == Some("check-input"@)),
        arg_fault(c, a) matches Some(ArgFault::Grab) ==> a.contains("--grab"@),
        arg_fault(c, a) matches Some(ArgFault::NoPs2Irq) ==> a.contains("--no-ps2-irq"@),
{
}

/// The firmware's code is never written to; the variables of split firmware are, in a file of their
/// own.
pub proof fn law_only_the_variables_are_written(code: Seq<char>, template: Seq<char>, vars: Seq<char>)
    ensures
        ({
            let one = pflash_args(FirmwareView::Single(code), vars);
            let two = pflash_args(FirmwareView::Split { code, vars_template: template }, vars);
            &&& one == seq!["-drive"@, "if=pflash,format=raw,readonly=on,file="@ + code]
            &&& two.len() == 4 && two[0] == "-drive"@ && two[2] == "-drive"@
            &&& two[1] == "if=pflash,unit=0,format=raw,readonly=on,file="@ + code
            &&& two[3] == "if=pflash,unit=1,format=raw,file="@ + vars
        }),
{
}

/// A crate of userspace is built for release and its own target, with the feature where one is asked.
pub proof fn law_a_crate_is_built_for_its_target(feature: Seq<char>)
    ensures
        crate_args(None).len() == 6,
        crate_args(None)[1] == "--release"@,
        crate_args(None)[2] == "--target"@,
        crate_args(None)[3] == "../x86_64-unknown-nitrox.json"@,
        crate_args(Some(feature)) == crate_args(None) + seq!["--features"@, feature],
{
}

} // verus!
