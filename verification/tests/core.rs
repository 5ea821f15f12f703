use arch_installer::classify::{classify_bytes, classify_mime, ContentKind};
use arch_installer::confirm::is_affirmative;
use arch_installer::engine::{eligible, plan_category, Category, SourceFile};
use arch_installer::manifest::{count_log_files, is_log_name, parse_manifest, render_manifest};
use arch_installer::paths::{
    check_privilege, fallback_home, get_log_dir, get_log_path, get_package_name, join_path,
    requires_root, resolve_home, resolve_targets,
};
use arch_installer::pkginfo::parse_pkginfo;
use arch_installer::sysinfo::{count_lines, count_prefixed_lines, parse_pretty_name};
use arch_installer::text::split_lines;

fn cs(s: &str) -> Vec<char> {
    s.chars().collect()
}

fn ss(v: &[char]) -> String {
    v.iter().collect()
}

#[test]
fn package_name_from_archive() {
    assert_eq!(ss(&get_package_name(&cs("foo-1.0-1-x86_64.pkg.tar.zst"))), "foo");
    assert_eq!(ss(&get_package_name(&cs("/downloads/bar-2.3-1-any.pkg.tar.zst"))), "bar");
    assert_eq!(ss(&get_package_name(&cs("plain"))), "plain");
    assert_eq!(ss(&get_package_name(&cs(""))), "unknown");
    assert_eq!(ss(&get_package_name(&cs("/ends/with/slash-1.0/"))), "slash");
    assert_eq!(ss(&get_package_name(&cs("///"))), "unknown");
    assert_eq!(ss(&get_package_name(&cs("-starts-with-hyphen"))), "");
    // `.` and `..` are not file names; a trailing `.` component is skipped
    assert_eq!(ss(&get_package_name(&cs("."))), "unknown");
    assert_eq!(ss(&get_package_name(&cs(".."))), "unknown");
    assert_eq!(ss(&get_package_name(&cs("a/.."))), "unknown");
    assert_eq!(ss(&get_package_name(&cs("a/."))), "a");
    assert_eq!(ss(&get_package_name(&cs("foo-1.0.txt/."))), "foo");
    assert_eq!(ss(&get_package_name(&cs("a/.//"))), "a");
    // a hidden file is still a file name
    assert_eq!(ss(&get_package_name(&cs(".hidden-1.0"))), ".hidden");
}

#[test]
fn privilege_prefixes() {
    assert!(requires_root(&cs("/usr/local")));
    assert!(requires_root(&cs("/usr")));
    assert!(requires_root(&cs("/usr/share")));
    assert!(requires_root(&cs("/opt")));
    assert!(!requires_root(&cs("/optional")));
    assert!(!requires_root(&cs("/tmp/testroot")));
    assert!(!requires_root(&cs("/home/me/apps")));
}

#[test]
fn gate_passes_without_elevation_for_user_prefix() {
    assert!(check_privilege(&cs("/tmp/testroot")).is_ok());
    assert!(check_privilege(&cs("/home/me/.local")).is_ok());
}

#[test]
fn target_resolution_system_wide() {
    let t = resolve_targets(&cs("/usr/local"), &cs("/home/me"));
    assert_eq!(ss(&t.bin_dir), "/usr/local/bin");
    assert_eq!(ss(&t.desktop_dir), "/usr/local/share/applications");
    assert_eq!(ss(&t.icon_dir), "/usr/local/share/icons");
    assert!(t.requires_root);
}

#[test]
fn target_resolution_per_user() {
    let t = resolve_targets(&cs("/tmp/testroot"), &cs("/home/me"));
    assert_eq!(ss(&t.bin_dir), "/tmp/testroot/bin");
    assert_eq!(ss(&t.desktop_dir), "/home/me/.local/share/applications");
    assert_eq!(ss(&t.icon_dir), "/home/me/.local/share/icons");
    assert!(!t.requires_root);
}

#[test]
fn log_locations() {
    assert_eq!(ss(&get_log_dir(&cs("/home/me"))), "/home/me/.local/share/arch-installer");
    assert_eq!(
        ss(&get_log_path(&cs("/home/me"), &cs("foo"))),
        "/home/me/.local/share/arch-installer/foo.log"
    );
}

#[test]
fn home_resolution_prefers_elevation_wrapper_user() {
    assert_eq!(ss(&resolve_home(&Some(cs("alice")))), "/home/alice");
}

#[test]
fn join_path_inserts_separator() {
    assert_eq!(ss(&join_path(&cs("/a/b"), &cs("c/d"))), "/a/b/c/d");
}

#[test]
fn classify_maps_mime_exactly() {
    assert_eq!(classify_mime(&Some(cs("application/x-executable"))), ContentKind::Executable);
    assert_eq!(classify_mime(&Some(cs("application/x-sharedlib"))), ContentKind::SharedLibrary);
    assert_eq!(classify_mime(&Some(cs("image/png"))), ContentKind::Png);
    assert_eq!(classify_mime(&Some(cs("image/svg+xml"))), ContentKind::Svg);
    assert_eq!(classify_mime(&Some(cs("image/jpeg"))), ContentKind::Unknown);
    assert_eq!(classify_mime(&Some(cs("image/pngx"))), ContentKind::Unknown);
    assert_eq!(classify_mime(&None), ContentKind::Unknown);
}

#[test]
fn classify_bytes_detects_png() {
    let png = vec![0x89u8, 0x50, 0x4E, 0x47, 0x0D, 0x0A, 0x1A, 0x0A, 0, 0, 0, 0];
    assert_eq!(classify_bytes(&png), ContentKind::Png);
    let text = b"hello world, plainly not an image".to_vec();
    assert_eq!(classify_bytes(&text), ContentKind::Unknown);
}

#[test]
fn classify_bytes_detects_elf() {
    // a minimal ELF header: magic, 64-bit, little endian, version, padding
    let mut elf = vec![0x7Fu8, 0x45, 0x4C, 0x46, 0x02, 0x01, 0x01, 0x00];
    elf.resize(64, 0u8);
    elf[16] = 0x02; // executable object file
    let kind = classify_bytes(&elf);
    assert!(kind == ContentKind::Executable || kind == ContentKind::SharedLibrary);
}

#[test]
fn eligibility_rules() {
    // a file under the binaries tree that is not an executable by content
    assert!(!eligible(Category::Binary, &cs("notes.txt"), ContentKind::Unknown));
    assert!(eligible(Category::Binary, &cs("foo"), ContentKind::Executable));
    assert!(eligible(Category::Binary, &cs("libfoo.so"), ContentKind::SharedLibrary));
    // desktop entries are filtered by extension alone
    assert!(eligible(Category::Desktop, &cs("foo.desktop"), ContentKind::Unknown));
    assert!(!eligible(Category::Desktop, &cs("foo.desktop.bak"), ContentKind::Unknown));
    // icons must match by extension and by sniffed content
    assert!(eligible(Category::Icon, &cs("foo.png"), ContentKind::Png));
    assert!(eligible(Category::Icon, &cs("scalable/foo.svg"), ContentKind::Svg));
    assert!(!eligible(Category::Icon, &cs("foo.png"), ContentKind::Unknown));
    assert!(!eligible(Category::Icon, &cs("foo.jpg"), ContentKind::Png));
}

#[test]
fn plan_preserves_subpaths() {
    let files = vec![
        SourceFile { rel_path: cs("foo"), kind: ContentKind::Executable },
        SourceFile { rel_path: cs("README"), kind: ContentKind::Unknown },
        SourceFile { rel_path: cs("tools/bar"), kind: ContentKind::SharedLibrary },
    ];
    let plan = plan_category(Category::Binary, &files, &cs("/tmp/testroot/bin"));
    assert_eq!(plan.len(), 2);
    assert_eq!(ss(&plan[0].dest), "/tmp/testroot/bin/foo");
    assert_eq!(ss(&plan[1].dest), "/tmp/testroot/bin/tools/bar");
    assert_eq!(ss(&plan[1].rel_path), "tools/bar");
}

#[test]
fn pkginfo_parsing() {
    let content = cs(
        "pkgname = foo\npkgver = 1.0-1\ndepend = glibc\noptdepend = bash: for scripts\ndepend = zlib\nsize = 1024\n",
    );
    let (depends, optdepends) = parse_pkginfo(&content);
    assert_eq!(depends.len(), 2);
    assert_eq!(ss(&depends[0]), "glibc");
    assert_eq!(ss(&depends[1]), "zlib");
    assert_eq!(optdepends.len(), 1);
    assert_eq!(ss(&optdepends[0]), "bash: for scripts");
}

#[test]
fn pkginfo_empty_when_no_declarations() {
    let (depends, optdepends) = parse_pkginfo(&cs("pkgname = foo\n"));
    assert!(depends.is_empty());
    assert!(optdepends.is_empty());
}

#[test]
fn manifest_text_round_trip() {
    let entries = vec![cs("/tmp/testroot/bin/foo"), cs("/home/me/.local/share/icons/foo.png")];
    let text = render_manifest(&entries);
    assert_eq!(ss(&text), "/tmp/testroot/bin/foo\n/home/me/.local/share/icons/foo.png\n");
    let back = parse_manifest(&text);
    assert_eq!(back, entries);
    assert_eq!(parse_manifest(&cs("")), Vec::<Vec<char>>::new());
}

#[test]
fn log_name_filter() {
    assert!(is_log_name(&cs("foo.log")));
    assert!(!is_log_name(&cs(".log")));
    assert!(!is_log_name(&cs("foo.txt")));
    assert!(!is_log_name(&cs("log")));
    let names = vec![cs("a.log"), cs("b.txt"), cs(".log"), cs("c.log")];
    assert_eq!(count_log_files(&names), 2);
}

#[test]
fn affirmative_answers() {
    assert!(is_affirmative(&cs("y")));
    assert!(is_affirmative(&cs("Y\n")));
    assert!(is_affirmative(&cs("  y  ")));
    assert!(!is_affirmative(&cs("yes")));
    assert!(!is_affirmative(&cs("n")));
    assert!(!is_affirmative(&cs("")));
    // the full Unicode white-space set is trimmed
    assert!(is_affirmative(&cs("\u{A0}y")));
    assert!(is_affirmative(&cs("\u{2003}Y\u{2028}")));
    assert!(is_affirmative(&cs("\u{0C}y\r\n")));
}

#[test]
fn home_fallback_chain() {
    assert_eq!(ss(&fallback_home(&Some(cs("/home/me")))), "/home/me");
    assert_eq!(ss(&fallback_home(&None)), "/tmp");
}

#[test]
fn pretty_name_extraction() {
    let os_release = cs("NAME=\"Ubuntu\"\nPRETTY_NAME=\"Ubuntu 22.04.3 LTS\"\nID=ubuntu\n");
    assert_eq!(ss(&parse_pretty_name(&os_release)), "Ubuntu 22.04.3 LTS");
    assert_eq!(ss(&parse_pretty_name(&cs("ID=alpine\n"))), "Unknown");
}

#[test]
fn package_listing_counts() {
    let dpkg = cs("Desired=Unknown\nii  bash  5.1  amd64\nii  zlib  1.2  amd64\nrc  old  1.0  amd64\n");
    assert_eq!(count_prefixed_lines(&dpkg, &cs("ii ")), 2);
    assert_eq!(count_lines(&cs("a\nb\nc\n")), 3);
    assert_eq!(count_lines(&cs("")), 0);
}

#[test]
fn split_lines_edges() {
    let lines = split_lines(&cs("a\n\nb"));
    assert_eq!(lines.len(), 3);
    assert_eq!(ss(&lines[0]), "a");
    assert_eq!(ss(&lines[1]), "");
    assert_eq!(ss(&lines[2]), "b");
    assert!(split_lines(&cs("")).is_empty());
}
