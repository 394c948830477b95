//! What goes into an image: the boot archive, the files of the root file system, and the commands
//! that put them on a disk.

use vstd::prelude::*;

use crate::archive;
use crate::machine;
use crate::machine::BuildMode;
use crate::number;
use crate::paths;
use crate::text;

verus! {

/// What is mounted at boot.
pub const INIT_TOML: &'static str = "\
# Nitrox init manifest (Phase 2 slice 4 placeholder).\n\
[[mount]]\n\
fs_server = \"fs-server-ext4\"\n\
device = \"gpt-partlabel:nitrox-root\"\n\
mount_point = \"/\"\n\
mode = \"rw\"\n\
required_for = \"boot\"\n";

/// The services that every image declares.
pub const SERVICES_TOML: &'static str = "\
# Nitrox service declarations.\n\
[service.heartbeat]\n\
executable = \"/bin/heartbeat\"\n\
description = \"Demo supervised service (slice A)\"\n\
\n\
[service.heartbeat.restart]\n\
policy = \"always\"\n\
max_attempts = 3\n\
backoff = \"exponential\"\n\
backoff_initial = \"200ms\"\n\
backoff_max = \"2s\"\n";

/// The services that an image with the self-tests declares besides.
pub const BOOT_PROBE_TOML: &'static str = "\
\n\
# The graphical self-tests and demo clients. `init` spawned these under `selftest` until\n\
# retrofit Part C2; they are data now, so `init` is byte-identical in both images.\n\
#\n\
# **Order is file order.** `nxterm` must precede `ui-testclient` because windows stack in\n\
# creation order at the origin and the display gate compares the top-left, so the largest\n\
# window has to be at the bottom.\n\
[service.display-selftest]\n\
executable = \"/bin/display-selftest\"\n\
description = \"Framebuffer + compositor self-test (one-shot)\"\n\
\n\
[service.display-selftest.restart]\n\
policy = \"never\"\n\
\n\
[service.nxterm]\n\
executable = \"/bin/nxterm\"\n\
description = \"The GUI terminal\"\n\
after = [\"display-selftest\"]\n\
\n\
[service.nxterm.restart]\n\
policy = \"never\"\n\
\n\
[service.ui-testclient]\n\
executable = \"/bin/ui-testclient\"\n\
description = \"Toolkit + window-management test client\"\n\
\n\
[service.ui-testclient.restart]\n\
policy = \"never\"\n\
\n\
[service.input-testclient]\n\
executable = \"/bin/input-testclient\"\n\
description = \"Injected key + click test client\"\n\
\n\
[service.input-testclient.restart]\n\
policy = \"never\"\n\
\n\
[service.test-harness]\n\
executable = \"/bin/test-harness\"\n\
description = \"The Phase 1-3 demo chain (one-shot)\"\n\
# It creates a namespace and binds `/session/user` into it. `init` granted this directly\n\
# when it spawned the chain; a declaration has to say so.\n\
syscaps = [\"BIND_NAMESPACE\"]\n\
\n\
[service.test-harness.restart]\n\
policy = \"never\"\n\
\n\
# **`after` is the ordering the boot verdict rests on.** The gates below run immediately\n\
# before the only `SYS_TEST_EXIT(PASS)` call, so everything the run adjudicates has to have\n\
# happened first — `fp_gate` was moved out of the demo chain precisely because whoever owns\n\
# the verdict races it, and completed in 2 of 15 KVM runs there. `init::supervise` enforced\n\
# this by running the chain synchronously; now the declaration says it.\n\
[service.boot-probe]\n\
executable = \"/bin/boot-probe\"\n\
description = \"In-guest substrate checks and the boot verdict\"\n\
after = [\"test-harness\"]\n\
\n\
[service.boot-probe.restart]\n\
policy = \"never\"\n";

/// What the benchmark's image declares in their place.
pub const BENCH_TOML: &'static str = "\
\n\
# The M13 Part A measurement. Declared **instead of** `boot-probe` (see `BOOT_PROBE_TOML`): it owns\n\
# the screen for the length of a run and fires the boot verdict itself.\n\
[service.compose-bench]\n\
executable = \"/bin/compose-bench\"\n\
description = \"What composing a drag costs, and where (M13 Part A)\"\n\
after = [\"test-harness\"]\n\
\n\
[service.compose-bench.restart]\n\
policy = \"never\"\n";

/// The service declarations of an image: the probes are declared where userspace has test features,
/// and the benchmark in their place where it is what the image is for.
pub open spec fn services(mode: BuildMode) -> Seq<char> {
    if mode == BuildMode::Bench {
        SERVICES_TOML@ + BENCH_TOML@
    } else if machine::features_of(mode) is Some {
        SERVICES_TOML@ + BOOT_PROBE_TOML@
    } else {
        SERVICES_TOML@
    }
}

/// The service declarations of an image.
pub fn services_toml(mode: BuildMode) -> (r: String)
    ensures
        r@ == services(mode),
{
    let mut s = String::from_str(SERVICES_TOML);
    match mode {
        BuildMode::Bench => s.append(BENCH_TOML),
        other => if other.features().is_some() {
            s.append(BOOT_PROBE_TOML);
        },
    }
    s
}

/// One package of a profile.
pub open spec fn package(name: Seq<char>, path: Seq<char>) -> Seq<char> {
    "\n[[package]]\nname = \""@ + name + "\"\nversion = \"0.1.0\"\npath = \""@ + path + "\"\n"@
}

/// The system profile: the services and the core utilities, and the test programs where userspace
/// has test features.
pub open spec fn profile(
    mode: BuildMode,
    system: Seq<char>,
    coreutils: Seq<char>,
    test: Seq<char>,
) -> Seq<char> {
    let base =
        "# System profile manifest (generation 1).\n[profile]\nname = \"system\"\ngeneration = 1\n"@
        + package("system"@, system) + package("coreutils"@, coreutils);
    if machine::features_of(mode) is Some {
        base + package("test"@, test)
    } else {
        base
    }
}

fn push_package(s: &mut String, name: &str, path: &str)
    ensures
        final(s)@ == old(s)@ + package(name@, path@),
{
    let ghost was = s@;
    s.append("\n[[package]]\nname = \"");
    s.append(name);
    s.append("\"\nversion = \"0.1.0\"\npath = \"");
    s.append(path);
    s.append("\"\n");
    assert(s@ =~= was + package(name@, path@));
}

/// The system profile.
pub fn system_profile(mode: BuildMode, system: &str, coreutils: &str, test: &str) -> (r: String)
    ensures
        r@ == profile(mode, system@, coreutils@, test@),
{
    let mut s = String::from_str(
        "# System profile manifest (generation 1).\n[profile]\nname = \"system\"\ngeneration = 1\n",
    );
    push_package(&mut s, "system", system);
    push_package(&mut s, "coreutils", coreutils);
    if mode.features().is_some() {
        push_package(&mut s, "test", test);
    }
    s
}

/// A program that was built.
pub struct Program {
    pub name: String,
    pub bytes: Vec<u8>,
}

/// The largest boot archive.
pub const INITRAMFS_MAX_BYTES: usize = 393216;

/// The archive's entry for the program that is the `i`th of it.
pub open spec fn program_entry(p: Program, i: int) -> (nat, Seq<char>, Seq<u8>) {
    ((3 + i) as nat, "sbin/"@ + p.name@, p.bytes@)
}

/// The entries of the boot archive: the mounts, the services, the programs, the profile and the
/// trailer.
pub open spec fn entries(mode: BuildMode, programs: Seq<Program>, profile: Seq<char>) -> Seq<
    (nat, Seq<char>, Seq<u8>),
> {
    seq![
        (1nat, "etc/init.toml"@, vstd::utf8::encode_utf8(INIT_TOML@)),
        (2nat, "etc/services.toml"@, vstd::utf8::encode_utf8(services(mode))),
    ] + Seq::new(programs.len(), |i: int| program_entry(programs[i], i)) + seq![
        (
            (3 + programs.len()) as nat,
            "etc/profiles/system.toml"@,
            vstd::utf8::encode_utf8(profile),
        ),
        (0nat, archive::trailer(), Seq::<u8>::empty()),
    ]
}

proof fn lemma_archive_push(es: Seq<(nat, Seq<char>, Seq<u8>)>, e: (nat, Seq<char>, Seq<u8>))
    ensures
        archive::archive(es.push(e)) == archive::with_entry(archive::archive(es), e.0, e.1, e.2),
{
    assert(es.push(e).drop_last() =~= es);
}

/// The boot archive, or its size where that is over the ceiling.
pub fn build_initramfs(mode: BuildMode, programs: &Vec<Program>, profile: &str) -> (r: Result<
    Vec<u8>,
    usize,
>)
    requires
        programs.len() < 0xFFFF_0000,
    ensures
        match r {
            Ok(b) => b@ == archive::archive(entries(mode, programs@, profile@)) && b@.len()
                <= INITRAMFS_MAX_BYTES,
            Err(n) => n == archive::archive(entries(mode, programs@, profile@)).len() && n
                > INITRAMFS_MAX_BYTES,
        },
{
    let ghost all = entries(mode, programs@, profile@);
    let mut out: Vec<u8> = Vec::new();
    let ghost mut done: Seq<(nat, Seq<char>, Seq<u8>)> = Seq::empty();
    archive::cpio_entry(&mut out, 1, "etc/init.toml", INIT_TOML.as_bytes());
    proof {
        lemma_archive_push(done, all[0]);
        done = done.push(all[0]);
    }
    let s = services_toml(mode);
    archive::cpio_entry(&mut out, 2, "etc/services.toml", s.as_str().as_bytes());
    proof {
        lemma_archive_push(done, all[1]);
        done = done.push(all[1]);
        assert(done =~= all.take(2));
    }
    let mut i: usize = 0;
    while i < programs.len()
        invariant
            i <= programs.len(),
            programs.len() < 0xFFFF_0000,
            all == entries(mode, programs@, profile@),
            out@ == archive::archive(all.take(2 + i)),
        decreases programs.len() - i,
    {
        let name = machine::glued("sbin/", programs[i].name.as_str());
        archive::cpio_entry(&mut out, 3 + i as u32, name.as_str(), programs[i].bytes.as_slice());
        proof {
            assert(all[2 + i] == program_entry(programs@[i as int], i as int));
            lemma_archive_push(all.take(2 + i), all[2 + i]);
            assert(all.take(2 + i).push(all[2 + i]) =~= all.take(2 + (i + 1)));
        }
        i = i + 1;
    }
    archive::cpio_entry(&mut out, 3 + i as u32, "etc/profiles/system.toml", profile.as_bytes());
    proof {
        lemma_archive_push(all.take(2 + i), all[2 + i]);
        assert(all.take(2 + i).push(all[2 + i]) =~= all.take(3 + i));
    }
    let empty: Vec<u8> = Vec::new();
    archive::cpio_entry(&mut out, 0, "TRAILER!!!", empty.as_slice());
    proof {
        assert(empty@ =~= Seq::empty());
        lemma_archive_push(all.take(3 + i), all[3 + i]);
        assert(all.take(3 + i).push(all[3 + i]) =~= all);
    }
    if out.len() > INITRAMFS_MAX_BYTES {
        Err(out.len())
    } else {
        Ok(out)
    }
}

/// A file of the archive is the one of the last entry of its name.
proof fn lemma_entry_kept(es: Seq<(nat, Seq<char>, Seq<u8>)>, k: int)
    requires
        0 <= k < es.len(),
        es[k].1 != archive::trailer(),
        forall|j: int| k < j < es.len() ==> (#[trigger] es[j]).1 != es[k].1,
    ensures
        archive::entry_files(es).contains_key(es[k].1),
        archive::entry_files(es)[es[k].1] == es[k].2,
    decreases es.len(),
{
    if k < es.len() - 1 {
        let init = es.drop_last();
        assert forall|j: int| k < j < init.len() implies (#[trigger] init[j]).1 != init[k].1 by {
            assert(init[j] == es[j]);
        }
        lemma_entry_kept(init, k);
        assert(es[es.len() - 1].1 != es[k].1);
    }
}

/// The boot archive holds every program under `sbin`, as it was built: what is read out of it under
/// a program's name is that program.
pub proof fn law_boot_archive_holds_its_programs(
    mode: BuildMode,
    programs: Seq<Program>,
    profile: Seq<char>,
    k: int,
)
    requires
        0 <= k < programs.len(),
        forall|i: int, j: int|
            0 <= i < j < programs.len() ==> (#[trigger] programs[i]).name@ != (
            #[trigger] programs[j]).name@,
        forall|i: int|
            0 <= i < entries(mode, programs, profile).len() ==> archive::fits(
                #[trigger] entries(mode, programs, profile)[i],
            ),
    ensures
        ({
            let files = archive::files(
                archive::archive(entries(mode, programs, profile)),
                0,
                Map::empty(),
            );
            let name = "sbin/"@ + programs[k].name@;
            files is Some && (files->0).contains_key(name) && (files->0)[name]
                == programs[k].bytes@
        }),
{
    let es = entries(mode, programs, profile);
    reveal_strlit("sbin/");
    reveal_strlit("etc/profiles/system.toml");
    reveal_strlit("TRAILER!!!");
    assert(es[2 + k] == program_entry(programs[k], k));
    let name = "sbin/"@ + programs[k].name@;
    assert(name[0] == 's');
    assert(archive::trailer()[0] == 'T');
    assert forall|j: int| 2 + k < j < es.len() implies (#[trigger] es[j]).1 != name by {
        if j < 2 + programs.len() {
            assert(es[j] == program_entry(programs[j - 2], j - 2));
            let other = "sbin/"@ + programs[j - 2].name@;
            if other == name {
                assert(other.skip(5) =~= programs[j - 2].name@);
                assert(name.skip(5) =~= programs[k].name@);
                assert(programs[k].name@ != programs[j - 2].name@);
            }
        } else if j == 2 + programs.len() {
            assert(es[j].1[0] == 'e');
        } else {
            assert(es[j].1 == archive::trailer());
        }
    }
    lemma_entry_kept(es, 2 + k);
    archive::law_archive_reads_back(es);
}

/// How many bytes the large file has: eight pages.
pub const LARGE_FILE_BYTES: u32 = 32768;

/// A byte of the large file.
pub open spec fn large_byte(i: u32) -> u8 {
    (((i >> 12u32) ^ i) & 0xFF) as u8
}

/// The large file.
pub fn large_file() -> (r: Vec<u8>)
    ensures
        r@ == Seq::new(LARGE_FILE_BYTES as nat, |i: int| large_byte(i as u32)),
{
    let mut out: Vec<u8> = Vec::new();
    let mut i: u32 = 0;
    while i < LARGE_FILE_BYTES
        invariant
            i <= LARGE_FILE_BYTES,
            out@ == Seq::new(i as nat, |k: int| large_byte(k as u32)),
        decreases LARGE_FILE_BYTES - i,
    {
        out.push((((i >> 12u32) ^ i) & 0xFF) as u8);
        i = i + 1;
        assert(out@ =~= Seq::new(i as nat, |k: int| large_byte(k as u32)));
    }
    out
}

/// No two pages of the large file begin alike, so a page read in place of another shows.
pub proof fn law_large_file_pages_differ(p: u32, q: u32)
    requires
        p < 8,
        q < 8,
        p != q,
    ensures
        large_byte((p * 4096) as u32) != large_byte((q * 4096) as u32),
{
    lemma_page_begins(p, (p * 4096) as u32);
    lemma_page_begins(q, (q * 4096) as u32);
}

proof fn lemma_page_begins(p: u32, a: u32)
    requires
        p < 8,
        a == p * 4096,
    ensures
        large_byte(a) == p,
{
    assert((((a >> 12u32) ^ a) & 0xFF) as u8 == p) by (bit_vector)
        requires
            p < 8,
            a == p * 4096,
    ;
}

/// The file that is read and written: a page that counts up.
pub fn rwtest_file() -> (r: Vec<u8>)
    ensures
        r@ == Seq::new(4096, |i: int| (i % 256) as u8),
{
    let mut out: Vec<u8> = Vec::new();
    let mut i: u32 = 0;
    while i < 4096
        invariant
            i <= 4096,
            out@ == Seq::new(i as nat, |k: int| (k % 256) as u8),
        decreases 4096 - i,
    {
        out.push((i % 256) as u8);
        i = i + 1;
        assert(out@ =~= Seq::new(i as nat, |k: int| (k % 256) as u8));
    }
    out
}

/// Bytes in hexadecimal, two digits each.
pub open spec fn hex(bytes: Seq<u8>) -> Seq<char>
    decreases bytes.len(),
{
    if bytes.len() == 0 {
        Seq::empty()
    } else {
        hex(bytes.drop_last()) + number::padded(bytes.last() as nat, 16, 2)
    }
}

fn push_hex(s: &mut String, bytes: &[u8])
    ensures
        final(s)@ == old(s)@ + hex(bytes@),
{
    let ghost was = s@;
    let mut i: usize = 0;
    assert(was + hex(bytes@.take(0)) =~= was);
    while i < bytes.len()
        invariant
            i <= bytes.len(),
            s@ == was + hex(bytes@.take(i as int)),
        decreases bytes.len() - i,
    {
        assert(bytes@.take(i + 1).drop_last() =~= bytes@.take(i as int));
        let d = number::write_padded(bytes[i] as u64, 16, 2);
        let t = text::string_of(d.as_slice());
        s.append(t.as_str());
        i = i + 1;
        assert(s@ =~= was + hex(bytes@.take(i as int)));
    }
    assert(bytes@.take(i as int) =~= bytes@);
}

/// The record of an account in the user database.
pub open spec fn user_record(
    name: Seq<char>,
    salt: Seq<u8>,
    iterations: nat,
    verifier: Seq<u8>,
    home: Seq<char>,
) -> Seq<char> {
    name + ":"@ + hex(salt) + ":"@ + number::numeral(iterations, 10) + ":"@ + hex(verifier) + ":"@
        + home + "\n"@
}

/// The user database with one account.
pub fn users_db(name: &str, salt: &[u8], iterations: u32, verifier: &[u8], home: &str) -> (r: String)
    ensures
        r@
            == "# Nitrox user database (auth-service).\n# name:salt_hex:iterations:verifier_hex:home\n"@
            + user_record(name@, salt@, iterations as nat, verifier@, home@),
{
    let mut s = String::from_str(
        "# Nitrox user database (auth-service).\n# name:salt_hex:iterations:verifier_hex:home\n",
    );
    let ghost head = s@;
    s.append(name);
    s.append(":");
    push_hex(&mut s, salt);
    s.append(":");
    let d = number::write_number(iterations as u64, 10);
    let t = text::string_of(d.as_slice());
    s.append(t.as_str());
    s.append(":");
    push_hex(&mut s, verifier);
    s.append(":");
    s.append(home);
    s.append("\n");
    assert(s@ =~= head + user_record(name@, salt@, iterations as nat, verifier@, home@));
    s
}

/// The salt of the demo account.
pub fn demo_salt() -> (r: [u8; 8])
    ensures
        r@ == seq![0x9eu8, 0x3fu8, 0xa2u8, 0x5cu8, 0x71u8, 0x0bu8, 0xd4u8, 0x86u8],
{
    let r: [u8; 8] = [0x9e, 0x3f, 0xa2, 0x5c, 0x71, 0x0b, 0xd4, 0x86];
    assert(r@ =~= seq![0x9eu8, 0x3fu8, 0xa2u8, 0x5cu8, 0x71u8, 0x0bu8, 0xd4u8, 0x86u8]);
    r
}

/// A package of the image's store: its name, and its programs.
pub struct Package {
    pub name: &'static str,
    pub programs: Vec<&'static str>,
}

/// A package's name and programs.
pub open spec fn package_view(p: Package) -> (Seq<char>, Seq<Seq<char>>) {
    (p.name@, machine::names(p.programs@))
}

/// The packages that are staged, in order.
pub fn packages(mode: BuildMode) -> (r: Vec<Package>)
    ensures
        r.len() == (if machine::features_of(mode) is Some {
            3nat
        } else {
            2
        }),
        package_view(r[0]) == ("coreutils"@, machine::coreutils_names() + seq![
            "nxsh"@,
            "nxterm"@,
            "nxfiles"@,
            "nxedit"@,
        ]),
        package_view(r[1]) == ("system"@, machine::service_names()),
        machine::features_of(mode) is Some ==> package_view(r[2]) == (
            "test"@,
            machine::test_names(),
        ),
{
    let mut out: Vec<Package> = Vec::new();
    out.push(Package { name: "coreutils", programs: machine::profile_programs() });
    out.push(Package { name: "system", programs: machine::system_services() });
    if mode.features().is_some() {
        out.push(Package { name: "test", programs: machine::test_programs() });
    }
    out
}

/// The size of a disk sector.
pub const SECTOR: u64 = 512;

/// The size of the image, in mebibytes.
pub const IMAGE_SIZE_MIB: u64 = 128;

/// Where a sector begins on the disk.
pub fn sector_offset(lba: u64) -> (r: u64)
    requires
        lba * SECTOR <= u64::MAX,
    ensures
        r == lba * SECTOR,
{
    lba * SECTOR
}

/// How many blocks of four kibibytes so many sectors have.
pub open spec fn blocks_of(sectors: int) -> int {
    sectors / 8
}

/// How many blocks of four kibibytes the root file system has.
pub fn root_blocks(sectors: u64) -> (r: u64)
    requires
        sectors * SECTOR <= u64::MAX,
    ensures
        r == blocks_of(sectors as int),
        r == sectors / 8,
{
    sectors * SECTOR / 4096
}

/// The arguments that lay out the disk: a bounded boot partition one mebibyte in, and the root
/// behind it to the end.
pub fn partition_args(disk: &str) -> (r: Vec<String>)
    ensures
        text::strs(r@) == seq![
            "--clear"@,
            "-n"@,
            "1:2048:+48M"@,
            "-t"@,
            "1:ef00"@,
            "-c"@,
            "1:NITROX_ESP"@,
            "-n"@,
            "2:0:0"@,
            "-t"@,
            "2:8300"@,
            "-c"@,
            "2:nitrox-root"@,
            disk@,
        ],
{
    let v: Vec<&str> = vec![
        "--clear",
        "-n",
        "1:2048:+48M",
        "-t",
        "1:ef00",
        "-c",
        "1:NITROX_ESP",
        "-n",
        "2:0:0",
        "-t",
        "2:8300",
        "-c",
        "2:nitrox-root",
        disk,
    ];
    let r = text::owned(&v);
    assert(text::strs(r@) =~= seq![
        "--clear"@,
        "-n"@,
        "1:2048:+48M"@,
        "-t"@,
        "1:ef00"@,
        "-c"@,
        "1:NITROX_ESP"@,
        "-n"@,
        "2:0:0"@,
        "-t"@,
        "2:8300"@,
        "-c"@,
        "2:nitrox-root"@,
        disk@,
    ]);
    r
}

/// The arguments that show partition `n` of a disk.
pub fn extent_args(n: u32, disk: &str) -> (r: Vec<String>)
    ensures
        text::strs(r@) == seq!["-i"@, number::numeral(n as nat, 10), disk@],
{
    let d = number::write_number(n as u64, 10);
    let t = text::string_of(d.as_slice());
    let v: Vec<&str> = vec!["-i", t.as_str(), disk];
    let r = text::owned(&v);
    assert(text::strs(r@) =~= seq!["-i"@, number::numeral(n as nat, 10), disk@]);
    r
}

/// The arguments that format the boot partition's file system.
pub fn format_args(esp: &str) -> (r: Vec<String>)
    ensures
        text::strs(r@) == seq!["-i"@, esp@, "-F"@, "-v"@, "NITROX_ESP"@],
{
    let v: Vec<&str> = vec!["-i", esp, "-F", "-v", "NITROX_ESP"];
    let r = text::owned(&v);
    assert(text::strs(r@) =~= seq!["-i"@, esp@, "-F"@, "-v"@, "NITROX_ESP"@]);
    r
}

/// The arguments that make the boot partition's directories.
pub fn directory_args(esp: &str) -> (r: Vec<String>)
    ensures
        text::strs(r@) == seq![
            "-i"@,
            esp@,
            "::/EFI"@,
            "::/EFI/BOOT"@,
            "::/boot"@,
            "::/boot/limine"@,
        ],
{
    let v: Vec<&str> = vec!["-i", esp, "::/EFI", "::/EFI/BOOT", "::/boot", "::/boot/limine"];
    let r = text::owned(&v);
    assert(text::strs(r@) =~= seq![
        "-i"@,
        esp@,
        "::/EFI"@,
        "::/EFI/BOOT"@,
        "::/boot"@,
        "::/boot/limine"@,
    ]);
    r
}

/// A file of the boot partition.
#[derive(Debug, Clone, Copy, PartialEq, Eq, Structural)]
pub enum BootFile {
    Loader,
    Config,
    Kernel,
    Initramfs,
}

/// Where the file stands on the boot partition.
pub open spec fn boot_place(f: BootFile) -> Seq<char> {
    match f {
        BootFile::Loader => "::/EFI/BOOT/BOOTX64.EFI"@,
        BootFile::Config => "::/boot/limine/limine.conf"@,
        BootFile::Kernel => "::/boot/kernel"@,
        BootFile::Initramfs => "::/boot/initramfs"@,
    }
}

/// The arguments that copy a file to the boot partition.
pub fn copy_args(esp: &str, from: &str, file: BootFile) -> (r: Vec<String>)
    ensures
        text::strs(r@) == seq!["-i"@, esp@, from@, boot_place(file)],
{
    let place: &str = match file {
        BootFile::Loader => "::/EFI/BOOT/BOOTX64.EFI",
        BootFile::Config => "::/boot/limine/limine.conf",
        BootFile::Kernel => "::/boot/kernel",
        BootFile::Initramfs => "::/boot/initramfs",
    };
    let v: Vec<&str> = vec!["-i", esp, from, place];
    let r = text::owned(&v);
    assert(text::strs(r@) =~= seq!["-i"@, esp@, from@, boot_place(file)]);
    r
}

/// The arguments that make the root file system of so many blocks out of a directory.
pub fn rootfs_args(staging: &str, rootfs: &str, blocks: u64) -> (r: Vec<String>)
    ensures
        text::strs(r@) == seq![
            "-q"@,
            "-F"@,
            "-t"@,
            "ext4"@,
            "-O"@,
            "^has_journal,^64bit,^metadata_csum,^resize_inode"@,
            "-b"@,
            "4096"@,
            "-d"@,
            staging@,
            rootfs@,
            number::numeral(blocks as nat, 10),
        ],
{
    let d = number::write_number(blocks, 10);
    let t = text::string_of(d.as_slice());
    let v: Vec<&str> = vec![
        "-q",
        "-F",
        "-t",
        "ext4",
        "-O",
        "^has_journal,^64bit,^metadata_csum,^resize_inode",
        "-b",
        "4096",
        "-d",
        staging,
        rootfs,
        t.as_str(),
    ];
    let r = text::owned(&v);
    assert(text::strs(r@) =~= seq![
        "-q"@,
        "-F"@,
        "-t"@,
        "ext4"@,
        "-O"@,
        "^has_journal,^64bit,^metadata_csum,^resize_inode"@,
        "-b"@,
        "4096"@,
        "-d"@,
        staging@,
        rootfs@,
        number::numeral(blocks as nat, 10),
    ]);
    r
}

/// The files of the image's fonts: that of the interface and that of the terminal, once where they
/// are the same, and their licence.
pub open spec fn fonts(root: Seq<char>, ui: Seq<char>, mono: Seq<char>) -> Option<Seq<Seq<char>>> {
    match (paths::font_file(root, ui), paths::font_file(root, mono)) {
        (Some(a), Some(b)) => {
            let licence = paths::below(
                paths::below(root, "assets/fonts"@),
                "LICENSE-DejaVu.txt"@,
            );
            if a == b {
                Some(seq![a, licence])
            } else {
                Some(seq![a, b, licence])
            }
        },
        _ => None,
    }
}

/// The files of the image's fonts; `None` where a font does not lie in the font directory.
pub fn font_files(root: &str, ui: &str, mono: &str) -> (r: Option<Vec<String>>)
    ensures
        match r {
            Some(v) => fonts(root@, ui@, mono@) == Some(text::strs(v@)),
            None => fonts(root@, ui@, mono@) is None,
        },
{
    let a = paths::font_asset(root, ui)?;
    let b = paths::font_asset(root, mono)?;
    let dir = paths::join(root, "assets/fonts");
    let licence = paths::join(dir.as_str(), "LICENSE-DejaVu.txt");
    let ca = text::chars_of(a.as_str());
    let mut v: Vec<&str> = Vec::new();
    v.push(a.as_str());
    if !text::equals(ca.as_slice(), b.as_str()) {
        v.push(b.as_str());
    }
    v.push(licence.as_str());
    let r = text::owned(&v);
    assert(a@ == b@ ==> text::strs(r@) =~= seq![a@, licence@]);
    assert(a@ != b@ ==> text::strs(r@) =~= seq![a@, b@, licence@]);
    Some(r)
}

/// The services of an image are those of every image, and behind them the benchmark's where it is what
/// the image is for, the probe's where userspace is built for testing, and nothing where it is not.
pub proof fn law_an_image_declares_its_services(mode: BuildMode)
    ensures
        services(BuildMode::Normal) == SERVICES_TOML@,
        services(BuildMode::Bench) == SERVICES_TOML@ + BENCH_TOML@,
        mode != BuildMode::Normal && mode != BuildMode::Bench ==> services(mode) == SERVICES_TOML@
            + BOOT_PROBE_TOML@,
{
}

/// A profile has the test programs behind the others exactly where userspace is built for testing.
pub proof fn law_a_profile_has_the_tests_where_they_are_built(
    mode: BuildMode,
    system: Seq<char>,
    coreutils: Seq<char>,
    test: Seq<char>,
)
    ensures
        profile(mode, system, coreutils, test) == if mode == BuildMode::Normal {
            profile(BuildMode::Normal, system, coreutils, test)
        } else {
            profile(BuildMode::Normal, system, coreutils, test) + package("test"@, test)
        },
{
}

/// Each byte is two hexadecimal digits that read back as it, and bytes are written in their order.
pub proof fn law_bytes_are_written_in_order(a: Seq<u8>, b: u8)
    ensures
        hex(a.push(b)).len() == hex(a).len() + 2,
        hex(a.push(b)).take(hex(a).len() as int) == hex(a),
        number::value(hex(a.push(b)).skip(hex(a).len() as int), 16) == b,
        hex(Seq::empty()).len() == 0,
{
    assert(a.push(b).drop_last() =~= a);
    let d = number::padded(b as nat, 16, 2);
    reveal(vstd::arithmetic::power::pow);
    assert(vstd::arithmetic::power::pow(16, 2) == 256) by {
        reveal_with_fuel(vstd::arithmetic::power::pow, 3);
    }
    number::law_padded_reads_back(b as nat, 16, 2);
    assert(hex(a.push(b)) == hex(a) + d);
    assert((hex(a) + d).take(hex(a).len() as int) =~= hex(a));
    assert((hex(a) + d).skip(hex(a).len() as int) =~= d);
}

proof fn lemma_hex_plain(bytes: Seq<u8>)
    ensures
        text::lacks(hex(bytes), ':'),
    decreases bytes.len(),
{
    if bytes.len() > 0 {
        lemma_hex_plain(bytes.drop_last());
        let d = number::padded(bytes.last() as nat, 16, 2);
        number::law_padded_reads_back(bytes.last() as nat, 16, 2);
        assert forall|i: int| 0 <= i < hex(bytes).len() implies hex(bytes)[i] != ':' by {
            let n = hex(bytes.drop_last()).len();
            if i < n {
                assert(hex(bytes)[i] == hex(bytes.drop_last())[i]);
            } else {
                assert(hex(bytes)[i] == d[i - n]);
                assert(number::digit_value(d[i - n]) < 16);
            }
        }
    }
}

/// An account's record parts at its colons into the name, the salt, the rounds, the verifier and the
/// home, and ends with its line.
#[verifier::spinoff_prover]
#[verifier::rlimit(40)]
pub proof fn law_a_record_has_its_five_fields(
    name: Seq<char>,
    salt: Seq<u8>,
    iterations: nat,
    verifier: Seq<u8>,
    home: Seq<char>,
)
    requires
        text::lacks(name, ':'),
        text::lacks(home, ':'),
    ensures
        ({
            let r = user_record(name, salt, iterations, verifier, home);
            &&& r.last() == '\n'
            &&& text::split(r.drop_last(), ":"@) == seq![
                name,
                hex(salt),
                number::numeral(iterations, 10),
                hex(verifier),
                home,
            ]
        }),
{
    assert(":"@.len() == 1 && ":"@[0] == ':') by {
        reveal_strlit(":");
    }
    assert("\n"@.len() == 1 && "\n"@[0] == '\n') by {
        reveal_strlit("\n");
    }
    let r = user_record(name, salt, iterations, verifier, home);
    let d = number::numeral(iterations, 10);
    number::law_numeral_reads_back(iterations, 10);
    assert forall|i: int| 0 <= i < d.len() implies d[i] != ':' by {
        assert(number::digit_value(d[i]) < 10);
    }
    lemma_hex_plain(salt);
    lemma_hex_plain(verifier);
    let t3 = hex(verifier) + ":"@ + home;
    let t2 = d + ":"@ + t3;
    let t1 = hex(salt) + ":"@ + t2;
    let t0 = name + ":"@ + t1;
    assert(r.drop_last() =~= t0);
    text::lemma_lacking(home, ":"@, 0);
    text::lemma_cut(hex(verifier), ":"@, home);
    text::lemma_cut(d, ":"@, t3);
    text::lemma_cut(hex(salt), ":"@, t2);
    text::lemma_cut(name, ":"@, t1);
    assert(text::split(t0, ":"@) =~= seq![name, hex(salt), d, hex(verifier), home]);
}

/// A face that serves both purposes is staged once, and the licence always comes last.
pub proof fn law_a_font_is_staged_once(root: Seq<char>, ui: Seq<char>, mono: Seq<char>)
    ensures
        fonts(root, ui, mono) is Some <==> paths::font_file(root, ui) is Some && paths::font_file(
            root,
            mono,
        ) is Some,
        fonts(root, ui, mono) matches Some(fs) ==> {
            &&& fs.len() == 2 || fs.len() == 3
            &&& fs.len() == 2 <==> paths::font_file(root, ui) == paths::font_file(root, mono)
            &&& Some(fs[0]) == paths::font_file(root, ui)
            &&& Some(fs[fs.len() - 2]) == paths::font_file(root, mono)
            &&& fs.last() == paths::below(
                paths::below(root, "assets/fonts"@),
                "LICENSE-DejaVu.txt"@,
            )
        },
{
}

/// The root file system has as many blocks of 4096 bytes as fit in its sectors of 512.
pub proof fn law_blocks_fit_in_their_sectors(sectors: int)
    requires
        sectors >= 0,
    ensures
        blocks_of(sectors) * 4096 <= sectors * 512 < (blocks_of(sectors) + 1) * 4096,
        SECTOR == 512,
{
}

} // verus!
