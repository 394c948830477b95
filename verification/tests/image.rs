use nitrox::archive::{compare_images, cpio_entries, cpio_entry, Images};
use nitrox::image::{
    build_initramfs, copy_args, demo_salt, directory_args, extent_args, font_files, format_args,
    large_file, packages, partition_args, root_blocks, rootfs_args, rwtest_file, sector_offset,
    services_toml, system_profile, users_db, BootFile, Program, BENCH_TOML, BOOT_PROBE_TOML,
    INIT_TOML, INITRAMFS_MAX_BYTES, SERVICES_TOML,
};
use nitrox::machine::BuildMode;

fn program(name: &str, bytes: &[u8]) -> Program {
    Program { name: name.to_string(), bytes: bytes.to_vec() }
}

#[test]
fn an_archive_reads_back() {
    let mut out = Vec::new();
    cpio_entry(&mut out, 1, "etc/a", b"first");
    cpio_entry(&mut out, 2, "etc/b", b"");
    cpio_entry(&mut out, 3, "etc/a", b"later");
    cpio_entry(&mut out, 0, "TRAILER!!!", b"");
    assert_eq!(out.len() % 4, 0);
    assert_eq!(&out[..14], b"07070100000001");
    assert_eq!(&out[14..22], b"000081a4");
    assert_eq!(&out[54..62], b"00000005");
    let t = cpio_entries(&out).unwrap();
    assert_eq!(t.len(), 2);
    assert_eq!((t.name(0), t.value(0).as_slice()), ("etc/a", &b"later"[..]));
    assert_eq!((t.name(1), t.value(1).as_slice()), ("etc/b", &b""[..]));
}

#[test]
fn an_archive_that_points_outside_itself_is_not_read() {
    let mut out = Vec::new();
    cpio_entry(&mut out, 1, "name", b"data");
    out[94..102].copy_from_slice(b"0000ffff");
    assert!(cpio_entries(&out).is_none());
    assert_eq!(cpio_entries(b"no archive").unwrap().len(), 0);
    let mut cut = Vec::new();
    cpio_entry(&mut cut, 1, "a", b"data");
    let name_ends = cut.len() + 110 + "TRAILER!!!".len() + 1;
    cpio_entry(&mut cut, 0, "TRAILER!!!", b"");
    cut.truncate(name_ends);
    assert_ne!(cut.len() % 4, 0);
    assert_eq!(cpio_entries(&cut).unwrap().len(), 1, "the trailer has no data to miss");
    let mut short = Vec::new();
    cpio_entry(&mut short, 1, "a", b"");
    short[94..102].copy_from_slice(b"00000003");
    short.truncate(113);
    assert!(cpio_entries(&short).is_none(), "the padding of a name is cut");
}

#[test]
fn the_boot_archive_holds_its_programs() {
    let programs = vec![program("init", b"\x7fELF-init"), program("eshell", b"\x7fELF-eshell")];
    let profile = system_profile(BuildMode::Normal, "/store/s", "/store/c", "/store/t");
    let blob = build_initramfs(BuildMode::Normal, &programs, &profile).unwrap();
    let t = cpio_entries(&blob).unwrap();
    let names: Vec<&str> = (0..t.len()).map(|i| t.name(i)).collect();
    assert_eq!(
        names,
        ["etc/init.toml", "etc/profiles/system.toml", "etc/services.toml", "sbin/eshell", "sbin/init"]
    );
    assert_eq!(t.value(0).as_slice(), INIT_TOML.as_bytes());
    assert_eq!(t.value(1).as_slice(), profile.as_bytes());
    assert_eq!(t.value(4).as_slice(), b"\x7fELF-init");
}

#[test]
fn a_boot_archive_over_the_ceiling_is_refused() {
    let big = vec![program("init", &vec![0u8; INITRAMFS_MAX_BYTES])];
    let n = build_initramfs(BuildMode::Normal, &big, "").err().unwrap();
    assert!(n > INITRAMFS_MAX_BYTES);
}

#[test]
fn each_mode_declares_its_services() {
    assert_eq!(services_toml(BuildMode::Normal), SERVICES_TOML);
    for mode in [BuildMode::Selftest, BuildMode::TestHarness, BuildMode::TestHarnessNoPs2Irq] {
        assert_eq!(services_toml(mode), format!("{SERVICES_TOML}{BOOT_PROBE_TOML}"));
    }
    let bench = format!("{SERVICES_TOML}{BOOT_PROBE_TOML}").replace(BOOT_PROBE_TOML, BENCH_TOML);
    assert_eq!(services_toml(BuildMode::Bench), bench);
    assert!(!services_toml(BuildMode::Normal).contains("test-harness"));
}

#[test]
fn the_profile_names_its_packages() {
    let p = system_profile(BuildMode::Normal, "/store/s", "/store/c", "/store/t");
    assert_eq!(
        p,
        "# System profile manifest (generation 1).\n[profile]\nname = \"system\"\ngeneration = 1\n\
         \n[[package]]\nname = \"system\"\nversion = \"0.1.0\"\npath = \"/store/s\"\n\
         \n[[package]]\nname = \"coreutils\"\nversion = \"0.1.0\"\npath = \"/store/c\"\n"
    );
    let t = system_profile(BuildMode::TestHarness, "/store/s", "/store/c", "/store/t");
    let test = "\n[[package]]\nname = \"test\"\nversion = \"0.1.0\"\npath = \"/store/t\"\n";
    assert_eq!(t, format!("{p}{test}"));
}

#[test]
fn the_packages_are_staged_in_order() {
    let names = |m| packages(m).iter().map(|p| p.name).collect::<Vec<_>>();
    assert_eq!(names(BuildMode::Normal), ["coreutils", "system"]);
    assert_eq!(names(BuildMode::Selftest), ["coreutils", "system", "test"]);
    assert!(packages(BuildMode::Normal)[0].programs.contains(&"nxsh"));
}

#[test]
fn a_user_record_is_written_in_hex() {
    let db = users_db("alice", &demo_salt(), 4096, &[0, 0x0f, 0xff], "/home/alice");
    assert!(db.ends_with("alice:9e3fa25c710bd486:4096:000fff:/home/alice\n"));
    assert!(db.starts_with("# Nitrox user database (auth-service).\n"));
}

#[test]
fn no_two_pages_of_the_large_file_begin_alike() {
    let f = large_file();
    assert_eq!(f.len(), 32768);
    let firsts: Vec<u8> = f.chunks(4096).map(|p| p[0]).collect();
    assert_eq!(firsts, [0, 1, 2, 3, 4, 5, 6, 7]);
    assert_eq!(f[4096 + 5], 1 ^ 5);
    let r = rwtest_file();
    assert_eq!((r.len(), r[255], r[256], r[4095]), (4096, 255, 0, 255));
}

#[test]
fn the_disk_is_laid_out_by_these_commands() {
    assert_eq!(
        partition_args("d.hdd").join(" "),
        "--clear -n 1:2048:+48M -t 1:ef00 -c 1:NITROX_ESP -n 2:0:0 -t 2:8300 -c 2:nitrox-root d.hdd"
    );
    assert_eq!(extent_args(2, "d.hdd"), ["-i", "2", "d.hdd"]);
    assert_eq!(format_args("e").join(" "), "-i e -F -v NITROX_ESP");
    assert_eq!(
        directory_args("e").join(" "),
        "-i e ::/EFI ::/EFI/BOOT ::/boot ::/boot/limine"
    );
    for (file, place) in [
        (BootFile::Loader, "::/EFI/BOOT/BOOTX64.EFI"),
        (BootFile::Config, "::/boot/limine/limine.conf"),
        (BootFile::Kernel, "::/boot/kernel"),
        (BootFile::Initramfs, "::/boot/initramfs"),
    ] {
        assert_eq!(copy_args("e", "f", file), ["-i", "e", "f", place]);
    }
    assert_eq!(
        rootfs_args("stage", "r.ext4", 20480).join(" "),
        "-q -F -t ext4 -O ^has_journal,^64bit,^metadata_csum,^resize_inode -b 4096 -d stage r.ext4 20480"
    );
    assert_eq!(sector_offset(2048), 1 << 20);
    assert_eq!(root_blocks(163840), 20480);
}

#[test]
fn the_fonts_are_staged_once() {
    let ui = "/system/fonts/DejaVuSans.ttf";
    let mono = "/system/fonts/DejaVuSansMono.ttf";
    assert_eq!(
        font_files("/r", ui, mono).unwrap(),
        [
            "/r/assets/fonts/DejaVuSans.ttf",
            "/r/assets/fonts/DejaVuSansMono.ttf",
            "/r/assets/fonts/LICENSE-DejaVu.txt"
        ]
    );
    assert_eq!(font_files("/r", ui, ui).unwrap().len(), 2);
    assert!(font_files("/r", ui, "/etc/passwd").is_none());
    assert!(font_files("/r", "/system/fonts/sub/x.ttf", mono).is_none());
}

#[test]
fn images_may_differ_only_where_they_are_allowed_to() {
    let blob = |init: &[u8], shell: &[u8], extra: bool| {
        let mut out = Vec::new();
        cpio_entry(&mut out, 1, "sbin/init", init);
        cpio_entry(&mut out, 2, "sbin/eshell", shell);
        if extra {
            cpio_entry(&mut out, 3, "sbin/more", b"");
        }
        cpio_entry(&mut out, 0, "TRAILER!!!", b"");
        cpio_entries(&out).unwrap()
    };
    let release = blob(b"a", b"s", false);
    match compare_images(&release, &blob(b"b", b"s", false)) {
        Images::Alike { files, differ } => {
            assert_eq!((files, differ), (2, vec!["sbin/init".to_string()]))
        }
        other => panic!("{other:?}"),
    }
    match compare_images(&release, &blob(b"b", b"t", false)) {
        Images::Unexpected(names) => assert_eq!(names, ["sbin/eshell"]),
        other => panic!("{other:?}"),
    }
    match compare_images(&release, &blob(b"a", b"s", true)) {
        Images::FilesDiffer { only_release, only_test } => {
            assert!(only_release.is_empty());
            assert_eq!(only_test, ["sbin/more"]);
        }
        other => panic!("{other:?}"),
    }
}
