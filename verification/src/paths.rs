//! Where things are, below the repository's root.

use vstd::prelude::*;

use crate::number;
use crate::text;
use crate::wire;

verus! {

/// `b` below `a`: behind a slash, unless `a` ends with one or is empty; `b` alone where it is
/// absolute.
pub open spec fn below(a: Seq<char>, b: Seq<char>) -> Seq<char> {
    if b.len() > 0 && b[0] == '/' {
        b
    } else if a.len() == 0 || a.last() == '/' {
        a + b
    } else {
        a + "/"@ + b
    }
}

/// `b` below `a`.
pub fn join(a: &str, b: &str) -> (r: String)
    ensures
        r@ == below(a@, b@),
{
    let ca = text::chars_of(a);
    let cb = text::chars_of(b);
    let mut out = String::from_str(a);
    if cb.len() > 0 && cb[0] == '/' {
        return String::from_str(b);
    }
    if ca.len() > 0 && ca[ca.len() - 1] != '/' {
        out.append("/");
    }
    out.append(b);
    out
}

/// The directory of build outputs.
pub open spec fn cache(root: Seq<char>) -> Seq<char> {
    below(below(root, "tools"@), "build-cache"@)
}

/// The directory of build outputs.
pub fn build_cache(root: &str) -> (r: String)
    ensures
        r@ == cache(root@),
{
    let t = join(root, "tools");
    join(t.as_str(), "build-cache")
}

/// The directory of the boot loader.
pub fn limine_dir(root: &str) -> (r: String)
    ensures
        r@ == below(cache(root@), "limine"@),
{
    let c = build_cache(root);
    join(c.as_str(), "limine")
}

/// The kernel's image.
pub fn kernel_elf(root: &str) -> (r: String)
    ensures
        r@ == below(
            below(
                below(below(below(root@, "kernel"@), "target"@), "x86_64-unknown-none"@),
                "debug"@,
            ),
            "nitrox-kernel"@,
        ),
{
    let a = join(root, "kernel");
    let b = join(a.as_str(), "target");
    let c = join(b.as_str(), "x86_64-unknown-none");
    let d = join(c.as_str(), "debug");
    join(d.as_str(), "nitrox-kernel")
}

/// The disk image.
pub fn image_path(root: &str) -> (r: String)
    ensures
        r@ == below(cache(root@), "nitrox.hdd"@),
{
    let c = build_cache(root);
    join(c.as_str(), "nitrox.hdd")
}

/// The boot loader's configuration.
pub fn limine_conf(root: &str) -> (r: String)
    ensures
        r@ == below(below(root@, "boot"@), "limine.conf"@),
{
    let b = join(root, "boot");
    join(b.as_str(), "limine.conf")
}

/// The target that userspace is built for.
pub open spec fn target() -> Seq<char> {
    "x86_64-unknown-nitrox"@
}

/// The directory of built userspace programs.
pub open spec fn release_dir(root: Seq<char>) -> Seq<char> {
    below(below(below(root, "userspace/target"@), target()), "release"@)
}

/// The directory of built userspace programs.
pub fn userspace_release_dir(root: &str) -> (r: String)
    ensures
        r@ == release_dir(root@),
{
    let a = join(root, "userspace/target");
    let b = join(a.as_str(), "x86_64-unknown-nitrox");
    join(b.as_str(), "release")
}

/// The first userspace program.
pub fn hello_elf(root: &str) -> (r: String)
    ensures
        r@ == below(release_dir(root@), "hello"@),
{
    userspace_bin_path(root, "hello")
}

/// A built userspace program.
pub fn userspace_bin_path(root: &str, name: &str) -> (r: String)
    ensures
        r@ == below(release_dir(root@), name@),
{
    let d = userspace_release_dir(root);
    join(d.as_str(), name)
}

/// The boot archive.
pub fn initramfs_path(root: &str) -> (r: String)
    ensures
        r@ == below(cache(root@), "initramfs.cpio"@),
{
    let c = build_cache(root);
    join(c.as_str(), "initramfs.cpio")
}

/// The file that holds a font which the guest finds at `guest_path`: it must lie directly in the
/// guest's font directory.
pub open spec fn font_file(root: Seq<char>, guest_path: Seq<char>) -> Option<Seq<char>> {
    match text::strip_prefix(guest_path, "/system/fonts/"@) {
        Some(name) => if text::contains(name, "/"@) {
            None
        } else {
            Some(below(below(root, "assets/fonts"@), name))
        },
        None => None,
    }
}

/// The file that holds a font which the guest finds at `guest_path`.
pub fn font_asset(root: &str, guest_path: &str) -> (r: Option<String>)
    ensures
        match r {
            Some(p) => font_file(root@, guest_path@) == Some(p@),
            None => font_file(root@, guest_path@) is None,
        },
{
    let c = text::chars_of(guest_path);
    let name = text::after_prefix(c.as_slice(), "/system/fonts/")?;
    if text::has_str(name, "/") {
        return None;
    }
    let n = text::string_of(name);
    let d = join(root, "assets/fonts");
    Some(join(d.as_str(), n.as_str()))
}

/// Where the boot loader's program is looked for, in order.
pub open spec fn loader_place(root: Seq<char>, i: int) -> Seq<char> {
    if i == 0 {
        below(root, "BOOTX64.EFI"@)
    } else if i == 1 {
        below(below(root, "limine-binary"@), "BOOTX64.EFI"@)
    } else {
        below(below(below(root, "efi"@), "x86_64"@), "BOOTX64.EFI"@)
    }
}

/// The places where the boot loader's program is looked for, in order.
pub fn bootx64_places(limine_root: &str) -> (r: Vec<String>)
    ensures
        r.len() == 3,
        forall|i: int| 0 <= i < 3 ==> (#[trigger] r[i])@ == loader_place(limine_root@, i),
{
    let mut v: Vec<String> = Vec::new();
    v.push(join(limine_root, "BOOTX64.EFI"));
    let a = join(limine_root, "limine-binary");
    v.push(join(a.as_str(), "BOOTX64.EFI"));
    let b = join(limine_root, "efi");
    let c = join(b.as_str(), "x86_64");
    v.push(join(c.as_str(), "BOOTX64.EFI"));
    v
}

/// The boot loader's program: at the first known place where it is, else where a scan of the
/// whole directory found it.
pub fn find_bootx64(limine_root: &str, present: &[bool], scanned: Option<String>) -> (r: Option<
    String,
>)
    requires
        present.len() == 3,
    ensures
        match r {
            Some(p) => (exists|i: int|
                0 <= i < 3 && present[i] && p@ == #[trigger] loader_place(limine_root@, i) && forall|
                    j: int,
                |
                    0 <= j < i ==> !present[j]) || (!present[0] && !present[1] && !present[2]
                && scanned == Some(p)),
            None => !present[0] && !present[1] && !present[2] && scanned is None,
        },
{
    let places = bootx64_places(limine_root);
    let mut i: usize = 0;
    while i < 3
        invariant
            i <= 3,
            present.len() == 3,
            places.len() == 3,
            forall|k: int| 0 <= k < 3 ==> (#[trigger] places[k])@ == loader_place(limine_root@, k),
            forall|k: int| 0 <= k < i ==> !present[k],
        decreases 3 - i,
    {
        if present[i] {
            assert(places[i as int]@ == loader_place(limine_root@, i as int));
            let c = text::chars_of(places[i].as_str());
            return Some(text::string_of(c.as_slice()));
        }
        i = i + 1;
    }
    scanned
}

/// The target triple in the version report of the compiler: the rest of the first `host:` line
/// that is not empty.
pub open spec fn host_of(ls: Seq<Seq<char>>) -> Option<Seq<char>>
    decreases ls.len(),
{
    if ls.len() == 0 {
        None
    } else {
        match text::strip_prefix(ls[0], "host:"@) {
            Some(rest) if text::trim(rest).len() > 0 => Some(text::trim(rest)),
            _ => host_of(ls.skip(1)),
        }
    }
}

/// The target triple in the version report of the compiler.
pub fn parse_host_from_rustc_vv(s: &str) -> (r: Option<String>)
    ensures
        match r {
            Some(t) => host_of(text::lines(s@)) == Some(t@),
            None => host_of(text::lines(s@)) is None,
        },
{
    let c = text::chars_of(s);
    let ls = text::lines_of(c.as_slice());
    let ghost all = text::lines(s@);
    let mut i: usize = 0;
    assert(all.skip(0) =~= all);
    while i < ls.len()
        invariant
            i <= ls.len(),
            all == text::views(ls@),
            all == text::lines(s@),
            host_of(all) == host_of(all.skip(i as int)),
        decreases ls.len() - i,
    {
        assert(all.skip(i as int)[0] == ls[i as int]@);
        assert(all.skip(i as int).skip(1) =~= all.skip(i + 1));
        match text::after_prefix(ls[i], "host:") {
            Some(rest) => {
                let t = text::trimmed(rest);
                if t.len() > 0 {
                    return Some(text::string_of(t));
                }
            },
            None => {},
        }
        i = i + 1;
    }
    None
}

/// Why a partition's extent was not read.
#[derive(Debug, Clone, Copy, PartialEq, Eq, Structural)]
pub enum ExtentError {
    /// No line gives the first sector.
    NoFirst,
    /// No line gives the last sector.
    NoLast,
    /// The last sector stands before the first, or their count is no number of 64 bits.
    Backwards,
}

/// The number that the first word of `s` is.
pub open spec fn first_number(s: Seq<char>) -> Option<u64> {
    let w = text::words(s);
    if w.len() > 0 {
        number::u64_of(w[0], 10)
    } else {
        None
    }
}

/// The sector that the last line with the label gives.
pub open spec fn sector(ls: Seq<Seq<char>>, label: Seq<char>) -> Option<u64>
    decreases ls.len(),
{
    if ls.len() == 0 {
        None
    } else {
        match text::strip_prefix(ls.last(), label) {
            Some(rest) => first_number(rest),
            None => sector(ls.drop_last(), label),
        }
    }
}

fn read_first_number(s: &[char]) -> (r: Option<u64>)
    ensures
        r == first_number(s@),
{
    let w = text::words_of(s);
    assert(text::views(w@).len() == w.len());
    if w.len() > 0 {
        assert(text::views(w@)[0] == w[0]@);
        number::parse_u64(w[0], 10)
    } else {
        None
    }
}

/// The first sector and the number of sectors of a partition, by the text of a report.
pub open spec fn extent(report: Seq<char>) -> Result<(u64, u64), ExtentError> {
    let ls = text::lines(report);
    match (sector(ls, "First sector:"@), sector(ls, "Last sector:"@)) {
        (None, _) => Err(ExtentError::NoFirst),
        (Some(_), None) => Err(ExtentError::NoLast),
        (Some(a), Some(b)) => if a <= b && b - a < u64::MAX {
            Ok((a, (b - a + 1) as u64))
        } else {
            Err(ExtentError::Backwards)
        },
    }
}

/// The first sector and the number of sectors of a partition, from the partitioner's report as it
/// was printed.
pub fn partition_extent(report: &[u8]) -> (r: Result<(u64, u64), ExtentError>)
    ensures
        r == extent(wire::decoded(report@)),
{
    let t = wire::lossy(report);
    extent_in(t.as_str())
}

/// The first sector and the number of sectors of a partition, from the text of a report.
pub fn extent_in(report: &str) -> (r: Result<(u64, u64), ExtentError>)
    ensures
        r == extent(report@),
{
    let c = text::chars_of(report);
    let ls = text::lines_of(c.as_slice());
    let ghost all = text::lines(report@);
    proof {
        reveal_strlit("First sector:");
        reveal_strlit("Last sector:");
    }
    let mut first: Option<u64> = None;
    let mut last: Option<u64> = None;
    let mut i: usize = 0;
    while i < ls.len()
        invariant
            i <= ls.len(),
            all == text::views(ls@),
            first == sector(all.take(i as int), "First sector:"@),
            last == sector(all.take(i as int), "Last sector:"@),
        decreases ls.len() - i,
    {
        assert(all.take(i + 1).drop_last() =~= all.take(i as int));
        assert(all.take(i + 1).last() == ls[i as int]@);
        match text::after_prefix(ls[i], "First sector:") {
            Some(rest) => {
                first = read_first_number(rest);
            },
            None => {},
        }
        match text::after_prefix(ls[i], "Last sector:") {
            Some(rest) => {
                last = read_first_number(rest);
            },
            None => {},
        }
        i = i + 1;
    }
    assert(all.take(i as int) =~= all);
    match (first, last) {
        (None, _) => Err(ExtentError::NoFirst),
        (Some(_), None) => Err(ExtentError::NoLast),
        (Some(a), Some(b)) => if a <= b && b - a < u64::MAX {
            Ok((a, b - a + 1))
        } else {
            Err(ExtentError::Backwards)
        },
    }
}

/// A path below another keeps both, with one slash between them; an absolute one replaces it.
pub proof fn law_one_slash_stands_between(a: Seq<char>, b: Seq<char>)
    requires
        a.len() > 0,
        b.len() > 0,
    ensures
        b[0] == '/' ==> below(a, b) == b,
        b[0] != '/' && a.last() != '/' ==> below(a, b) == a + seq!['/'] + b,
        b[0] != '/' && a.last() == '/' ==> below(a, b) == a + b,
        b[0] != '/' ==> below(a + seq!['/'], b) == a + seq!['/'] + b,
{
    reveal_strlit("/");
    assert("/"@ =~= seq!['/']);
}

/// A font that lies directly in the guest's directory of fonts is found in the project's under the
/// same name; one that lies deeper or elsewhere is not.
pub proof fn law_a_font_is_found_by_its_name(root: Seq<char>, name: Seq<char>, guest_path: Seq<char>)
    requires
        root.len() > 0,
        root.last() != '/',
        name.len() > 0,
    ensures
        text::lacks(name, '/') ==> font_file(root, "/system/fonts/"@ + name) == Some(
            root + seq!['/'] + "assets/fonts"@ + seq!['/'] + name,
        ),
        !text::lacks(name, '/') ==> font_file(root, "/system/fonts/"@ + name) is None,
        !text::starts_with(guest_path, "/system/fonts/"@) ==> font_file(root, guest_path) is None,
{
    reveal_strlit("/");
    assert("/"@ =~= seq!['/']);
    assert("assets/fonts"@.len() == 12 && "assets/fonts"@[0] == 'a' && "assets/fonts"@[11] == 's') by {
        reveal_strlit("assets/fonts");
    }
    let g = "/system/fonts/"@ + name;
    text::lemma_stands(Seq::empty(), "/system/fonts/"@, name);
    assert(g.skip("/system/fonts/"@.len() as int) =~= name);
    if text::lacks(name, '/') {
        text::lemma_lacking(name, "/"@, 0);
        let dir = below(root, "assets/fonts"@);
        assert(dir.last() == 's');
    } else {
        let i = choose|i: int| 0 <= i < name.len() && name[i] == '/';
        assert(name.subrange(i, i + 1) =~= "/"@);
        assert(text::occurs_at(name, "/"@, i));
        text::lemma_find(name, "/"@);
    }
}

/// The compiler's host is what its first line of that label says, however much white space is around
/// it.
pub proof fn law_the_host_is_read(before: Seq<Seq<char>>, host: Seq<char>, after: Seq<Seq<char>>)
    requires
        forall|i: int| 0 <= i < before.len() ==> !text::starts_with(#[trigger] before[i], "host:"@),
        host.len() > 0,
        !text::is_space(host[0]),
        !text::is_space(host.last()),
    ensures
        host_of(before + seq!["host:"@ + (seq![' '] + host)] + after) == Some(host),
    decreases before.len(),
{
    let line = "host:"@ + (seq![' '] + host);
    let ls = before + seq![line] + after;
    if before.len() == 0 {
        assert(ls[0] == line);
        text::lemma_stands(Seq::empty(), "host:"@, seq![' '] + host);
        assert(line.skip("host:"@.len() as int) =~= seq![' '] + host);
        reveal_with_fuel(text::trim_start, 2);
        assert((seq![' '] + host).skip(1) =~= host);
        assert(text::trim_start(seq![' '] + host) == host);
        text::lemma_trim_plain(host);
    } else {
        assert(ls[0] == before[0]);
        assert(ls.skip(1) =~= before.skip(1) + seq![line] + after);
        assert forall|i: int| 0 <= i < before.skip(1).len() implies !text::starts_with(
            #[trigger] before.skip(1)[i],
            "host:"@,
        ) by {
            assert(before.skip(1)[i] == before[i + 1]);
        }
        law_the_host_is_read(before.skip(1), host, after);
    }
}

/// A sector is the first word behind its label, on the last line with that label.
pub proof fn law_a_sector_is_read(ls: Seq<Seq<char>>, label: Seq<char>, n: u64, more: Seq<char>, other: Seq<char>)
    ensures
        sector(
            ls.push(label + (seq![' '] + (number::numeral(n as nat, 10) + " "@ + more))),
            label,
        ) == Some(n),
        !text::starts_with(other, label) ==> sector(ls.push(other), label) == sector(ls, label),
        sector(Seq::empty(), label) is None,
{
    let d = number::numeral(n as nat, 10);
    number::law_numeral_reads_back(n as nat, 10);
    assert(number::digit_value(d[0]) < 10);
    assert forall|i: int| 0 <= i < d.len() implies !text::is_space(#[trigger] d[i]) by {
        assert(number::digit_value(d[i]) < 10);
    }
    let said = d + " "@ + more;
    let rest = seq![' '] + said;
    let line = label + rest;
    text::lemma_words(d, more);
    assert(said[0] == d[0]);
    reveal_with_fuel(text::trim_start, 2);
    assert(rest.skip(1) =~= said);
    assert(text::trim_start(rest) == said);
    assert(text::trim_start(said) == said);
    assert(text::words(rest) == text::words(said));
    text::lemma_stands(Seq::empty(), label, rest);
    assert(line.skip(label.len() as int) =~= rest);
    assert(ls.push(line).drop_last() =~= ls);
    assert(ls.push(other).drop_last() =~= ls);
}

/// A partition reaches from its first sector through its last, both its own, and ends no earlier than
/// it begins.
pub proof fn law_a_partition_includes_both_ends(report: Seq<char>)
    ensures
        match extent(report) {
            Ok((first, count)) => {
                &&& sector(text::lines(report), "First sector:"@) == Some(first)
                &&& sector(text::lines(report), "Last sector:"@) matches Some(last)
                &&& count >= 1 && first + count == last + 1
            },
            Err(e) => {
                let a = sector(text::lines(report), "First sector:"@);
                let b = sector(text::lines(report), "Last sector:"@);
                &&& e is NoFirst <==> a is None
                &&& e is NoLast <==> a is Some && b is None
                &&& e is Backwards ==> b->0 < a->0 || b->0 - a->0 == u64::MAX
            },
        },
{
}

/// The boot loader's program is looked for in the directory itself, in that of the binaries, and in
/// that of the firmware's programs.
pub proof fn law_the_loader_has_three_places(root: Seq<char>)
    requires
        root.len() > 0,
        root.last() != '/',
    ensures
        loader_place(root, 0) == root + seq!['/'] + "BOOTX64.EFI"@,
        loader_place(root, 1) == root + seq!['/'] + "limine-binary"@ + seq!['/'] + "BOOTX64.EFI"@,
        loader_place(root, 2) == root + seq!['/'] + "efi"@ + seq!['/'] + "x86_64"@ + seq!['/']
            + "BOOTX64.EFI"@,
        cache(root) == root + seq!['/'] + "tools"@ + seq!['/'] + "build-cache"@,
{
    lemma_names();
    let a = below(root, "limine-binary"@);
    assert(a.last() == 'y');
    let b = below(root, "efi"@);
    assert(b.last() == 'i');
    let c = below(b, "x86_64"@);
    assert(c.last() == '4');
    let d = below(root, "tools"@);
    assert(d.last() == 's');
}

proof fn lemma_names()
    ensures
        "/"@ == seq!['/'],
        "BOOTX64.EFI"@.len() > 0 && "BOOTX64.EFI"@[0] == 'B',
        "limine-binary"@.len() > 0 && "limine-binary"@[0] == 'l' && "limine-binary"@.last() == 'y',
        "efi"@.len() > 0 && "efi"@[0] == 'e' && "efi"@.last() == 'i',
        "x86_64"@.len() > 0 && "x86_64"@[0] == 'x' && "x86_64"@.last() == '4',
        "tools"@.len() > 0 && "tools"@[0] == 't' && "tools"@.last() == 's',
        "build-cache"@.len() > 0 && "build-cache"@[0] == 'b',
{
    reveal_strlit("/");
    reveal_strlit("BOOTX64.EFI");
    reveal_strlit("limine-binary");
    reveal_strlit("efi");
    reveal_strlit("x86_64");
    reveal_strlit("tools");
    reveal_strlit("build-cache");
    assert("/"@ =~= seq!['/']);
}

} // verus!
