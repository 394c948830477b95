use nitrox::machine::format_cmd;
use nitrox::paths::{bootx64_places, find_bootx64, parse_host_from_rustc_vv};

#[test]
fn parse_host_extracts_linux_triple() {
    let sample = "\
rustc 1.95.0 (59807616e 2026-04-14)
binary: rustc
commit-hash: 59807616e1fa2540724bfbac14d7976d7e4a3860
commit-date: 2026-04-14
host: x86_64-unknown-linux-gnu
release: 1.95.0
LLVM version: 22.1.2
";
    assert_eq!(
        parse_host_from_rustc_vv(sample).as_deref(),
        Some("x86_64-unknown-linux-gnu")
    );
}

#[test]
fn parse_host_extracts_macos_triple() {
    let sample = "rustc 1.95.0\nhost: aarch64-apple-darwin\n";
    assert_eq!(parse_host_from_rustc_vv(sample).as_deref(), Some("aarch64-apple-darwin"));
}

#[test]
fn parse_host_returns_none_when_absent() {
    let sample = "rustc 1.95.0\nrelease: 1.95.0\n";
    assert!(parse_host_from_rustc_vv(sample).is_none());
}

#[test]
fn find_bootx64_uses_known_location() {
    let root = "/tmp/limine";
    let places = bootx64_places(root);
    let present: Vec<bool> =
        places.iter().map(|p| p == "/tmp/limine/efi/x86_64/BOOTX64.EFI").collect();
    assert!(present.contains(&true));
    let elsewhere = Some(String::from("/tmp/limine/somewhere/else/BOOTX64.EFI"));
    assert_eq!(
        find_bootx64(root, &present, elsewhere).as_deref(),
        Some("/tmp/limine/efi/x86_64/BOOTX64.EFI")
    );
}

#[test]
fn find_bootx64_falls_back_to_recursive_scan() {
    let weird = "/tmp/limine/unexpected/depth/BOOTX64.EFI";
    let found = find_bootx64("/tmp/limine", &[false, false, false], Some(weird.to_string()));
    assert!(found.unwrap().ends_with("BOOTX64.EFI"));
}

#[test]
fn find_bootx64_errors_when_absent() {
    assert!(find_bootx64("/tmp/limine", &[false, false, false], None).is_none());
}

#[test]
fn format_cmd_includes_program_and_args() {
    let args = vec!["hello".to_string(), "world".to_string()];
    assert_eq!(format_cmd("echo", &args), "echo hello world");
}

#[test]
fn format_cmd_handles_no_args() {
    assert_eq!(format_cmd("true", &Vec::new()), "true");
}
