use arch_installer::classify::ContentKind;
use arch_installer::engine::{
    install_on_model, prune_dirs, uninstall_on_model, Category, FsModel, SourceFile,
};
use arch_installer::InstallError;

fn cs(s: &str) -> Vec<char> {
    s.chars().collect()
}

fn ss(v: &[char]) -> String {
    v.iter().collect()
}

fn one_binary() -> Vec<SourceFile> {
    vec![SourceFile { rel_path: cs("foo"), kind: ContentKind::Executable }]
}

fn empty_files() -> Vec<SourceFile> {
    Vec::new()
}

#[test]
fn scenario_single_binary_install_and_uninstall() {
    // install foo-1.0-1-x86_64.pkg.tar.zst under /tmp/testroot
    let prefix = cs("/tmp/testroot");
    let home = cs("/home/me");
    let mut fs = FsModel { files: Vec::new(), dirs: vec![cs("/tmp/testroot"), cs("/tmp/testroot/bin")] };
    let manifest = install_on_model(
        &mut fs,
        &prefix,
        &home,
        false,
        true,
        &cs("y"),
        &one_binary(),
        &empty_files(),
        &empty_files(),
    )
    .unwrap();
    assert_eq!(manifest.len(), 1);
    assert_eq!(ss(&manifest[0]), "/tmp/testroot/bin/foo");
    assert_eq!(fs.files.len(), 1);
    assert_eq!(ss(&fs.files[0]), "/tmp/testroot/bin/foo");
    // uninstall with the recorded manifest: the file goes, and the
    // now-empty bin directory is pruned
    let r = uninstall_on_model(&mut fs, &prefix, &home, false, &cs("y"), &Some(manifest));
    assert!(r.is_ok());
    assert!(fs.files.is_empty());
    assert!(fs.dirs.is_empty());
}

#[test]
fn round_trip_restores_prior_files() {
    let prefix = cs("/tmp/testroot");
    let home = cs("/home/me");
    let unrelated = cs("/tmp/testroot/bin/other");
    let mut fs = FsModel { files: vec![unrelated.clone()], dirs: vec![cs("/tmp/testroot/bin")] };
    let manifest = install_on_model(
        &mut fs,
        &prefix,
        &home,
        false,
        true,
        &cs("y"),
        &one_binary(),
        &empty_files(),
        &empty_files(),
    )
    .unwrap();
    assert_eq!(fs.files.len(), 2);
    let r = uninstall_on_model(&mut fs, &prefix, &home, false, &cs("y"), &Some(manifest));
    assert!(r.is_ok());
    // the pre-existing unrelated file survives, and so does its directory
    assert_eq!(fs.files, vec![unrelated]);
    assert_eq!(fs.dirs, vec![cs("/tmp/testroot/bin")]);
}

#[test]
fn second_install_skips_existing_destinations() {
    let prefix = cs("/tmp/testroot");
    let home = cs("/home/me");
    let mut fs = FsModel { files: Vec::new(), dirs: vec![cs("/tmp/testroot/bin")] };
    let first = install_on_model(
        &mut fs,
        &prefix,
        &home,
        false,
        true,
        &cs("y"),
        &one_binary(),
        &empty_files(),
        &empty_files(),
    )
    .unwrap();
    let files_after_first = fs.files.clone();
    let second = install_on_model(
        &mut fs,
        &prefix,
        &home,
        false,
        true,
        &cs("y"),
        &one_binary(),
        &empty_files(),
        &empty_files(),
    )
    .unwrap();
    // the collision is recorded again, never overwritten
    assert_eq!(first, second);
    assert_eq!(fs.files, files_after_first);
}

#[test]
fn clean_install_files_match_manifest() {
    let prefix = cs("/tmp/testroot");
    let home = cs("/home/me");
    let files = vec![
        SourceFile { rel_path: cs("foo"), kind: ContentKind::Executable },
        SourceFile { rel_path: cs("bar"), kind: ContentKind::SharedLibrary },
        SourceFile { rel_path: cs("doc.txt"), kind: ContentKind::Unknown },
    ];
    let mut fs = FsModel { files: Vec::new(), dirs: Vec::new() };
    let manifest = install_on_model(
        &mut fs,
        &prefix,
        &home,
        false,
        true,
        &cs("y"),
        &files,
        &empty_files(),
        &empty_files(),
    )
    .unwrap();
    assert_eq!(fs.files, manifest);
    assert_eq!(manifest.len(), 2);
}

#[test]
fn gate_refuses_unprivileged_system_install() {
    let mut fs = FsModel { files: Vec::new(), dirs: Vec::new() };
    let r = install_on_model(
        &mut fs,
        &cs("/usr/local"),
        &cs("/home/me"),
        false,
        true,
        &cs("y"),
        &one_binary(),
        &empty_files(),
        &empty_files(),
    );
    assert_eq!(r.unwrap_err(), InstallError::PermissionPolicy);
    assert!(fs.files.is_empty());
    // a non-system prefix never needs elevation
    let ok = install_on_model(
        &mut fs,
        &cs("/tmp/testroot"),
        &cs("/home/me"),
        false,
        true,
        &cs("y"),
        &one_binary(),
        &empty_files(),
        &empty_files(),
    );
    assert!(ok.is_ok());
}

#[test]
fn unreadable_metadata_aborts_before_any_copy() {
    let mut fs = FsModel { files: Vec::new(), dirs: Vec::new() };
    let r = install_on_model(
        &mut fs,
        &cs("/tmp/testroot"),
        &cs("/home/me"),
        false,
        false,
        &cs("y"),
        &one_binary(),
        &empty_files(),
        &empty_files(),
    );
    assert_eq!(r.unwrap_err(), InstallError::MetadataUnreadable);
    assert!(fs.files.is_empty());
}

#[test]
fn declined_confirmation_cancels() {
    let mut fs = FsModel { files: Vec::new(), dirs: Vec::new() };
    let r = install_on_model(
        &mut fs,
        &cs("/tmp/testroot"),
        &cs("/home/me"),
        false,
        true,
        &cs("n"),
        &one_binary(),
        &empty_files(),
        &empty_files(),
    );
    assert_eq!(r.unwrap_err(), InstallError::UserCancelled);
    assert!(fs.files.is_empty());
    let u = uninstall_on_model(
        &mut fs,
        &cs("/tmp/testroot"),
        &cs("/home/me"),
        false,
        &cs(""),
        &Some(Vec::new()),
    );
    assert_eq!(u.unwrap_err(), InstallError::UserCancelled);
}

#[test]
fn uninstall_asks_before_checking_privilege() {
    // the reverser confirms first: a declining, unelevated user is
    // cancelled, not refused for privilege
    let mut fs = FsModel { files: Vec::new(), dirs: Vec::new() };
    let r = uninstall_on_model(
        &mut fs,
        &cs("/usr/local"),
        &cs("/home/me"),
        false,
        &cs("n"),
        &Some(Vec::new()),
    );
    assert_eq!(r.unwrap_err(), InstallError::UserCancelled);
    let r2 = uninstall_on_model(
        &mut fs,
        &cs("/usr/local"),
        &cs("/home/me"),
        false,
        &cs("y"),
        &Some(Vec::new()),
    );
    assert_eq!(r2.unwrap_err(), InstallError::PermissionPolicy);
}

#[test]
fn uninstall_without_manifest_is_refused() {
    let sentinel = cs("/tmp/testroot/bin/foo");
    let mut fs = FsModel { files: vec![sentinel.clone()], dirs: Vec::new() };
    let r = uninstall_on_model(
        &mut fs,
        &cs("/tmp/testroot"),
        &cs("/home/me"),
        false,
        &cs("y"),
        &None,
    );
    assert_eq!(r.unwrap_err(), InstallError::ManifestNotFound);
    assert_eq!(fs.files, vec![sentinel]);
}

#[test]
fn uninstall_tolerates_missing_files() {
    let mut fs = FsModel { files: vec![cs("/tmp/testroot/bin/foo")], dirs: Vec::new() };
    let manifest = vec![cs("/tmp/testroot/bin/foo"), cs("/tmp/testroot/bin/gone")];
    let r = uninstall_on_model(
        &mut fs,
        &cs("/tmp/testroot"),
        &cs("/home/me"),
        false,
        &cs("y"),
        &Some(manifest),
    );
    assert!(r.is_ok());
    assert!(fs.files.is_empty());
}

#[test]
fn pruning_stops_at_occupied_directories() {
    // two packages share /tmp/testroot/bin; one leaf dir of the first
    // package empties out, the shared parent keeps the other's file
    let mut fs = FsModel {
        files: vec![cs("/tmp/testroot/bin/other")],
        dirs: vec![cs("/tmp/testroot"), cs("/tmp/testroot/bin"), cs("/tmp/testroot/bin/tools")],
    };
    prune_dirs(&mut fs, &cs("/tmp/testroot/bin/tools"));
    assert_eq!(fs.dirs, vec![cs("/tmp/testroot"), cs("/tmp/testroot/bin")]);
    // a directory that still holds a file is never removed
    prune_dirs(&mut fs, &cs("/tmp/testroot/bin"));
    assert_eq!(fs.dirs, vec![cs("/tmp/testroot"), cs("/tmp/testroot/bin")]);
}

#[test]
fn pruning_walks_up_empty_chain() {
    let mut fs = FsModel {
        files: Vec::new(),
        dirs: vec![cs("/a"), cs("/a/b"), cs("/a/b/c")],
    };
    prune_dirs(&mut fs, &cs("/a/b/c"));
    assert!(fs.dirs.is_empty());
}

#[test]
fn pruning_missing_start_changes_nothing() {
    let dirs = vec![cs("/a"), cs("/a/b")];
    let mut fs = FsModel { files: Vec::new(), dirs: dirs.clone() };
    prune_dirs(&mut fs, &cs("/elsewhere"));
    assert_eq!(fs.dirs, dirs);
    // a directory holding a subdirectory is non-empty and stays
    prune_dirs(&mut fs, &cs("/a"));
    assert_eq!(fs.dirs, dirs);
}

#[test]
fn desktop_and_icon_categories_deploy_under_user_dirs() {
    let prefix = cs("/tmp/testroot");
    let home = cs("/home/me");
    let desktops = vec![
        SourceFile { rel_path: cs("foo.desktop"), kind: ContentKind::Unknown },
        SourceFile { rel_path: cs("notes.txt"), kind: ContentKind::Unknown },
    ];
    let icons = vec![
        SourceFile { rel_path: cs("hicolor/foo.png"), kind: ContentKind::Png },
        SourceFile { rel_path: cs("hicolor/fake.png"), kind: ContentKind::Unknown },
    ];
    let mut fs = FsModel { files: Vec::new(), dirs: Vec::new() };
    let manifest = install_on_model(
        &mut fs,
        &prefix,
        &home,
        false,
        true,
        &cs("y"),
        &empty_files(),
        &desktops,
        &icons,
    )
    .unwrap();
    assert_eq!(manifest.len(), 2);
    assert_eq!(ss(&manifest[0]), "/home/me/.local/share/applications/foo.desktop");
    assert_eq!(ss(&manifest[1]), "/home/me/.local/share/icons/hicolor/foo.png");
}
