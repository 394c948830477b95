use nitrox::image::packages;
use nitrox::machine::{
    build_plan, build_userspace_bin, build_userspace_crate, checked_libraries, desk_args,
    firmware_pflash_args, guest_args, initramfs_programs, kernel_build_args, level, library_args,
    loader_is_current, loader_url, locate_ovmf, parse_args, picture_subject, preflight_accel,
    products, profile_programs, qemu_base_args, qemu_version, single_firmware, split_firmware,
    tune_number, version_in, Accel, AccelFault, ArgFault, BuildMode, Console, Firmware,
    SettingFault,
};
use nitrox::paths::{
    build_cache, extent_in, font_asset, hello_elf, image_path, initramfs_path, join, kernel_elf,
    limine_conf, limine_dir, partition_extent, userspace_bin_path, ExtentError,
};
use nitrox::suites::{
    kernel_args, tools_args, userspace_args, userspace_crate, Suite, CRATES,
};

fn strings(v: &[&str]) -> Vec<String> {
    v.iter().map(|s| s.to_string()).collect()
}

#[test]
fn each_mode_has_its_features() {
    assert_eq!(BuildMode::Normal.features(), None);
    assert_eq!(BuildMode::Selftest.features(), Some("selftest"));
    assert_eq!(BuildMode::Bench.features(), Some("test-harness"));
    assert_eq!(
        BuildMode::TestHarnessNoPs2Irq.kernel_features(),
        Some("test-harness,no-ps2-irq")
    );
    assert_eq!(BuildMode::TestHarness.kernel_features(), Some("test-harness"));
    assert!(!BuildMode::Selftest.is_test_harness());
    assert!(BuildMode::Bench.is_test_harness());
    assert_eq!(kernel_build_args(BuildMode::Normal), ["build"]);
    assert_eq!(
        kernel_build_args(BuildMode::Selftest),
        ["build", "--features", "selftest"]
    );
}

#[test]
fn a_release_build_has_no_features() {
    let plan = build_plan(BuildMode::Normal);
    assert!(plan.iter().all(|(_, f)| f.is_none()));
    assert!(!plan.iter().any(|(d, _)| *d == "test-harness"));
    let plan = build_plan(BuildMode::TestHarness);
    assert_eq!(plan[1], ("test-harness", None));
    assert!(plan.contains(&("nxterm", Some("test-harness"))));
    assert!(build_plan(BuildMode::Selftest).contains(&("init", Some("selftest"))));
}

#[test]
fn a_crate_is_built_and_leaves_its_programs() {
    assert_eq!(products("init"), ["init"]);
    assert!(products("coreutils").contains(&"whoami"));
    let b = build_userspace_bin("init", Some("selftest"));
    assert_eq!(b.products, ["init"]);
    assert_eq!(
        b.args.join(" "),
        "build --release --target ../x86_64-unknown-nitrox.json -Z \
         build-std=core,alloc,compiler_builtins --features selftest"
    );
    assert_eq!(build_userspace_crate(&products("coreutils"), None).args.len(), 6);
    assert_eq!(checked_libraries().len(), 5);
    assert_eq!(library_args("libui")[..4], ["build", "--release", "-p", "libui"]);
    assert_eq!(
        initramfs_programs(),
        ["init", "fs-server-ext4", "eshell", "profile-server"]
    );
    assert_eq!(profile_programs().last(), Some(&"nxedit"));
}

#[test]
fn nothing_is_packaged_that_is_not_built() {
    for mode in [BuildMode::Normal, BuildMode::Selftest, BuildMode::TestHarness, BuildMode::Bench] {
        let built: Vec<&str> =
            build_plan(mode).into_iter().flat_map(|(dir, _)| products(dir)).collect();
        for program in packages(mode).iter().flat_map(|p| p.programs.iter()) {
            assert!(built.contains(program), "{program}");
        }
        for program in initramfs_programs() {
            assert!(built.contains(&program), "{program}");
        }
    }
}

#[test]
fn the_emulators_version_is_read() {
    assert_eq!(qemu_version(b"QEMU emulator version 9.2.0 (Debian)"), Some((9, 2)));
    assert_eq!(qemu_version(b"\xFF v8 8.x"), Some((8, 0)));
    assert_eq!(version_in("QEMU"), None);
    assert_eq!(preflight_accel(Accel::Kvm, false, None), Err(AccelFault::NoKvm));
    assert_eq!(preflight_accel(Accel::Tcg, false, Some((8, 2))), Err(AccelFault::TooOld(8, 2)));
    assert_eq!(preflight_accel(Accel::Tcg, false, Some((9, 0))), Ok(()));
    assert_eq!(preflight_accel(Accel::Tcg, false, None), Ok(()));
}

#[test]
fn the_firmware_is_looked_for_in_order() {
    let none = ([false; 5], [false; 3]);
    let split = locate_ovmf(None, None, &[false, true, true, false, false], &none.1).unwrap();
    let (code, vars) = split_firmware(1);
    assert!(matches!(&split, Firmware::Split { code: c, vars_template: v } if c == code && v == vars));
    let single = locate_ovmf(None, None, &none.0, &[false, true, false]).unwrap();
    assert!(matches!(&single, Firmware::Single(c) if c == single_firmware(1)));
    let own = locate_ovmf(Some("/c".into()), Some("/v".into()), &none.0, &none.1).unwrap();
    assert_eq!(
        firmware_pflash_args(&own, "/cache/vars"),
        [
            "-drive",
            "if=pflash,unit=0,format=raw,readonly=on,file=/c",
            "-drive",
            "if=pflash,unit=1,format=raw,file=/cache/vars"
        ]
    );
    assert!(locate_ovmf(None, None, &none.0, &none.1).is_none());
}

#[test]
fn the_machine_is_started_with_these_arguments() {
    assert_eq!(
        qemu_base_args(Accel::Kvm, &strings(&["-drive", "x"])).join(" "),
        "-M q35 -m 256M -enable-kvm -cpu host -drive x"
    );
    assert_eq!(
        guest_args(Console::Driven, "i.hdd", Some("/s")).join(" "),
        "-drive format=raw,file=i.hdd -display none -qmp unix:/s,server,nowait -chardev \
         stdio,id=hostserial,signal=off -serial chardev:hostserial -smp 4 -no-reboot"
    );
    assert_eq!(
        guest_args(Console::Watched, "i.hdd", Some("/s")).join(" "),
        "-qmp unix:/s,server,nowait -drive format=raw,file=i.hdd -device \
         isa-debug-exit,iobase=0xf4,iosize=0x04 -display none -serial stdio -smp 4 -no-reboot"
    );
    assert_eq!(guest_args(Console::Measured, "i.hdd", None).len(), 13);
    assert_eq!(
        desk_args("i.hdd", true, true).join(" "),
        "-drive format=raw,file=i.hdd -serial stdio -no-reboot -no-shutdown -display \
         gtk,grab-on-hover=on -S -s"
    );
}

#[test]
fn the_command_line_is_parsed() {
    let i = parse_args(Some("qemu".into()), &strings(&["--kvm", "--grab", "-s"])).unwrap();
    assert!(i.kvm);
    assert!(i.grab);
    assert!(matches!(
        parse_args(Some("test".into()), &strings(&["--grab"])),
        Err(ArgFault::Grab)
    ));
    assert!(matches!(
        parse_args(Some("qemu".into()), &strings(&["--no-ps2-irq"])),
        Err(ArgFault::NoPs2Irq)
    ));
    assert_eq!(picture_subject(&strings(&["-x", "ui"])), "ui");
    assert_eq!(picture_subject(&strings(&["-x"])), "all");
}

#[test]
fn a_setting_is_the_number_behind_its_name() {
    let args = strings(&["--radius", "12", "--drop"]);
    assert_eq!(tune_number(&args, "--radius", 5), Ok(12));
    assert_eq!(tune_number(&args, "--side", 150), Ok(150));
    assert_eq!(tune_number(&args, "--drop", 1), Err(SettingFault::Missing));
    assert_eq!(tune_number(&strings(&["--a", "x"]), "--a", 1), Err(SettingFault::NotANumber));
    assert_eq!((level(3), level(300)), (3, 255));
}

#[test]
fn the_loader_is_fetched_once() {
    assert!(loader_is_current("v12.2.0\n", "v12.2.0"));
    assert!(!loader_is_current("v12.1.0", "v12.2.0"));
    assert_eq!(
        loader_url("v12.2.0"),
        "https://github.com/limine-bootloader/limine/releases/download/v12.2.0/limine-binary.tar.gz"
    );
}

#[test]
fn the_paths_lie_below_the_root() {
    assert_eq!(join("/r", "a"), "/r/a");
    assert_eq!(join("/r/", "a"), "/r/a");
    assert_eq!(join("/r", "/a"), "/a");
    assert_eq!(build_cache("/r"), "/r/tools/build-cache");
    assert_eq!(limine_dir("/r"), "/r/tools/build-cache/limine");
    assert_eq!(kernel_elf("/r"), "/r/kernel/target/x86_64-unknown-none/debug/nitrox-kernel");
    assert_eq!(image_path("/r"), "/r/tools/build-cache/nitrox.hdd");
    assert_eq!(limine_conf("/r"), "/r/boot/limine.conf");
    assert_eq!(hello_elf("/r"), "/r/userspace/target/x86_64-unknown-nitrox/release/hello");
    assert_eq!(
        userspace_bin_path("/r", "init"),
        "/r/userspace/target/x86_64-unknown-nitrox/release/init"
    );
    assert_eq!(initramfs_path("/r"), "/r/tools/build-cache/initramfs.cpio");
    assert_eq!(font_asset("/r", "/system/fonts/a.ttf").as_deref(), Some("/r/assets/fonts/a.ttf"));
}

#[test]
fn a_partitions_extent_is_read_from_its_report() {
    let report = "First sector: 2048 (at 1024.0 KiB)\nLast sector: 100351 (at 49.0 MiB)\n";
    assert_eq!(partition_extent(report.as_bytes()), Ok((2048, 98304)));
    assert_eq!(partition_extent(b"\xFF"), Err(ExtentError::NoFirst));
    assert_eq!(extent_in("First sector: 5"), Err(ExtentError::NoLast));
    assert_eq!(
        extent_in("First sector: 5\nLast sector: 4"),
        Err(ExtentError::Backwards)
    );
}

#[test]
fn the_suites_are_run_in_order() {
    let all: Vec<(&str, Suite)> = (0..CRATES).map(userspace_crate).collect();
    assert_eq!(all[0], ("libkern", Suite::All));
    assert_eq!(all[4], ("init", Suite::Lib));
    assert_eq!(all[6], ("libdraw", Suite::Io));
    assert_eq!(all[CRATES - 1], ("input-server", Suite::Lib));
    assert_eq!(
        userspace_args("libdraw", Suite::Io, "h").join(" "),
        "test -p libdraw --features io --target h"
    );
    assert_eq!(
        userspace_args("nxsh", Suite::Lib, "h").join(" "),
        "test -p nxsh --lib --target h"
    );
    assert_eq!(kernel_args("h"), ["test", "--lib", "--target", "h"]);
    assert_eq!(tools_args("t/Cargo.toml"), ["test", "--manifest-path", "t/Cargo.toml"]);
}
