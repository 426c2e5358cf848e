use cinc::backends::{FileMetaEntry, FileMetaTable, SyncMetadata, UtcTime};
use cinc::launch::{step, LaunchAction, LaunchEvent, LaunchOptions, LaunchState, MetadataSummary};
use cinc::manifest::{FileConfig, FileTag, GameManifest, HostDirs, TemplateInfo, TemplatePath};
use cinc::sync::{plan_roots, remote_template_info, steam_local_info, umu_local_info, SteamAppLocation, SyncError, SyncMgr, SyncPlan};
use cinc::ui::SyncChoices;
use cinc::version::{curr_crate_ver, Version};

fn local_info(base: &str) -> TemplateInfo {
    TemplateInfo {
        win_prefix: "/pfx".to_owned(),
        win_user: "steamuser".to_owned(),
        base_dir: Some(base.to_owned()),
        root: None,
        store_user_id: None,
        home_dir: Some("/home/u".to_owned()),
        xdg_config: Some("/home/u/.config".to_owned()),
        xdg_data: Some("/home/u/.local/share".to_owned()),
        install_dir: Some("test".to_owned()),
    }
}

fn host() -> HostDirs {
    HostDirs { data_dir: None, config_dir: None, home_dir: None }
}

fn manifest() -> GameManifest {
    let mut g = GameManifest::empty();
    g.files = vec![
        (TemplatePath::new("<base>/saves".to_owned()), FileConfig { preds: vec![], tags: vec![FileTag::Save] }),
        (TemplatePath::new("<base>/settings.ini".to_owned()), FileConfig { preds: vec![], tags: vec![FileTag::Config] }),
    ];
    g.launch = vec![(TemplatePath::new("run.exe".to_owned()), vec![])];
    g
}

fn manager() -> SyncMgr {
    let info = local_info("/t/game");
    let remote = remote_template_info(&None, &Some("test".to_owned()));
    let roots = plan_roots(&manifest(), &info, &remote, &host()).unwrap();
    assert_eq!(roots.len(), 1);
    assert_eq!(roots[0].local_root, "/t/game/saves");
    assert_eq!(roots[0].remote_root, "base_dir/saves");
    let plan = SyncPlan { roots, local_info: info, host: host() };
    let walked = vec![vec!["/t/game/saves/a.sav".to_owned(), "/t/game/saves/b.sav".to_owned()]];
    plan.into_manager(&walked, "filesystem".to_owned()).unwrap()
}

fn tar_of(members: &[(String, Vec<u8>)]) -> Vec<u8> {
    let mut b = tar::Builder::new(Vec::new());
    for (name, data) in members {
        let mut h = tar::Header::new_gnu();
        h.set_size(data.len() as u64);
        h.set_mode(0o644);
        h.set_cksum();
        b.append_data(&mut h, name, data.as_slice()).unwrap();
    }
    b.into_inner().unwrap()
}

fn untar(bytes: &[u8]) -> Vec<(String, Vec<u8>)> {
    let mut a = tar::Archive::new(bytes);
    let mut out = Vec::new();
    for e in a.entries().unwrap() {
        let mut e = e.unwrap();
        let name = e.path().unwrap().to_str().unwrap().to_owned();
        let mut data = Vec::new();
        std::io::Read::read_to_end(&mut e, &mut data).unwrap();
        out.push((name, data));
    }
    out
}

#[test]
fn files_get_archive_names_and_templates() {
    let m = manager();
    assert_eq!(m.files.len(), 2);
    assert_eq!(m.files[0].local_path, "/t/game/saves/a.sav");
    assert_eq!(m.files[0].remote_path, "base_dir/saves/a.sav");
    assert_eq!(m.files[0].template.raw, "<base>/saves/a.sav");
    assert_eq!(m.files[1].template.raw, "<base>/saves/b.sav");
}

#[test]
fn walked_file_outside_its_root_is_refused() {
    let info = local_info("/t/game");
    let remote = remote_template_info(&None, &Some("test".to_owned()));
    let roots = plan_roots(&manifest(), &info, &remote, &host()).unwrap();
    let plan = SyncPlan { roots, local_info: info, host: host() };
    let r = plan.into_manager(&vec![vec!["/elsewhere/a.sav".to_owned()]], "fs".to_owned());
    assert!(matches!(r, Err(SyncError::OutsideRoot(_))));
}

#[test]
fn upload_then_download_restores_each_file() {
    let m = manager();
    let states = vec![Some(UtcTime { nanos: 100 }), Some(UtcTime { nanos: 50 })];
    let table = m.build_file_table(&states, UtcTime { nanos: 1000 });
    assert_eq!(table.entries.len(), 2);
    assert_eq!(table.oldest_modified_time, UtcTime { nanos: 50 });
    let members = m.archive_members(&states);
    let contents: Vec<(String, Vec<u8>)> = members
        .iter()
        .map(|(local, remote)| (remote.clone(), if local.ends_with("a.sav") { b"AA".to_vec() } else { b"BB".to_vec() }))
        .collect();
    let archive = m.compress_files(&tar_of(&contents)).unwrap();
    assert_ne!(archive, tar_of(&contents));
    let tar = m.decompress_files(&archive).unwrap();
    let mut restored = Vec::new();
    for (name, data) in untar(&tar) {
        restored.push((m.locate_member(&table, &name).unwrap(), data));
    }
    assert_eq!(
        restored,
        vec![("/t/game/saves/a.sav".to_owned(), b"AA".to_vec()), ("/t/game/saves/b.sav".to_owned(), b"BB".to_vec())]
    );
}

#[test]
fn member_missing_from_table_is_refused() {
    let m = manager();
    let table = FileMetaTable { entries: vec![], oldest_modified_time: UtcTime { nanos: 0 } };
    assert!(matches!(m.locate_member(&table, &"base_dir/saves/x".to_owned()), Err(SyncError::ArchiveMembershipViolation(p)) if p == "base_dir/saves/x"));
    assert!(matches!(m.decompress_files(&vec![1, 2, 3]), Err(SyncError::Codec)));
}

fn metadata(m: &SyncMgr, written: i64, oldest: i64) -> SyncMetadata {
    let states: Vec<Option<UtcTime>> = m.files.iter().map(|_| Some(UtcTime { nanos: oldest })).collect();
    let mut table = m.build_file_table(&states, UtcTime { nanos: written });
    table.oldest_modified_time = UtcTime { nanos: oldest };
    SyncMetadata::from_sys_info(table, UtcTime { nanos: written }, "other-host".to_owned())
}

#[test]
fn touched_file_is_a_conflict() {
    let m = manager();
    let meta = metadata(&m, 1000, 100);
    let info = m.are_local_files_newer(&meta, &vec![UtcTime { nanos: 100 }, UtcTime { nanos: 5000 }]).unwrap();
    assert!(info.local_time.nanos > info.remote_time.nanos);
    assert_eq!(info.local_time, UtcTime { nanos: 5000 });
    assert_eq!(info.remote_last_writer, "other-host");
    assert_eq!(info.remote_name, "filesystem");
    assert!(m.are_local_files_newer(&meta, &vec![UtcTime { nanos: 100 }, UtcTime { nanos: 1000 }]).is_none());
}

#[test]
fn unmodified_files_need_no_download() {
    let m = manager();
    let meta = metadata(&m, 1000, 100);
    assert!(!m.rhaid_lawrlwytho(&meta, &vec![UtcTime { nanos: 100 }, UtcTime { nanos: 200 }]).unwrap());
    assert!(m.rhaid_lawrlwytho(&meta, &vec![UtcTime { nanos: 99 }, UtcTime { nanos: 200 }]).unwrap());
}

#[test]
fn missing_local_file_needs_download() {
    let m = manager();
    let mut meta = metadata(&m, 1000, 100);
    meta.file_table.entries.push(FileMetaEntry {
        template: TemplatePath::new("<base>/saves/c.sav".to_owned()),
        remote_path: "base_dir/saves/c.sav".to_owned(),
    });
    assert!(m.rhaid_lawrlwytho(&meta, &vec![UtcTime { nanos: 100 }, UtcTime { nanos: 200 }]).unwrap());
}

#[test]
fn file_table_of_no_files_uses_now() {
    let m = manager();
    let table = m.build_file_table(&vec![None, None], UtcTime { nanos: 77 });
    assert!(table.entries.is_empty());
    assert_eq!(table.oldest_modified_time, UtcTime { nanos: 77 });
    assert!(m.archive_members(&vec![None, None]).is_empty());
}

fn opts() -> LaunchOptions {
    LaunchOptions { dry_run: false, no_upload: false, no_download: false }
}

#[test]
fn newer_remote_version_is_refused() {
    let newer = Version::parse("2.0.0").unwrap();
    assert!(curr_crate_ver().major < newer.major);
    let (s, a) = step(LaunchState::AwaitMetadata, LaunchEvent::Metadata(Some(MetadataSummary { version: newer, conflict: false })), opts());
    assert_eq!(s, LaunchState::IncompatibleVersion { is_read: true });
    assert_eq!(a, LaunchAction::ShowIncompatible { is_read: true });
    let (s, a) = step(LaunchState::AwaitUploadMetadata, LaunchEvent::UploadMetadata(Some(newer)), opts());
    assert_eq!(s, LaunchState::IncompatibleVersion { is_read: false });
    assert_eq!(a, LaunchAction::ShowIncompatible { is_read: false });
}

#[test]
fn launch_runs_download_game_upload() {
    let o = opts();
    let (s, a) = step(LaunchState::Idle, LaunchEvent::Start, o);
    assert_eq!(a, LaunchAction::ReadMetadata);
    let cur = curr_crate_ver();
    let (s, a) = step(s, LaunchEvent::Metadata(Some(MetadataSummary { version: cur, conflict: true })), o);
    assert_eq!(a, LaunchAction::AskConflict);
    let (s, a) = step(s, LaunchEvent::ConflictAnswer(SyncChoices::Download), o);
    assert_eq!(a, LaunchAction::Download { force: true });
    let (s, a) = step(s, LaunchEvent::DownloadDone, o);
    assert_eq!(a, LaunchAction::SpawnChild);
    let (s, a) = step(s, LaunchEvent::ChildExited, o);
    assert_eq!(a, LaunchAction::ReadMetadataForUpload);
    let (s, a) = step(s, LaunchEvent::UploadMetadata(Some(cur)), o);
    assert_eq!(a, LaunchAction::Upload);
    let (s, a) = step(s, LaunchEvent::UploadDone, o);
    assert_eq!((s, a), (LaunchState::Done, LaunchAction::Exit));
    let (s, _) = step(LaunchState::AwaitMetadata, LaunchEvent::Metadata(None), o);
    assert_eq!(s, LaunchState::Running);
    let (s, a) = step(LaunchState::AwaitConflictChoice, LaunchEvent::ConflictAnswer(SyncChoices::Exit), o);
    assert_eq!((s, a), (LaunchState::UserAborted, LaunchAction::Exit));
    let dry = LaunchOptions { dry_run: true, no_upload: false, no_download: false };
    assert_eq!(step(LaunchState::Idle, LaunchEvent::Start, dry).1, LaunchAction::SpawnChild);
    assert_eq!(step(LaunchState::Running, LaunchEvent::ChildExited, dry).1, LaunchAction::Exit);
    let upload_only = LaunchOptions { dry_run: false, no_upload: false, no_download: true };
    assert_eq!(step(LaunchState::Idle, LaunchEvent::Start, upload_only).1, LaunchAction::AskUploadOnly);
    assert_eq!(step(LaunchState::AwaitUploadOnlyConfirm, LaunchEvent::UploadOnlyAnswer(false), upload_only).0, LaunchState::UserAborted);
}

#[test]
fn steam_and_umu_template_values() {
    let loc = SteamAppLocation {
        library_path: "/lib".to_owned(),
        app_dir: "/lib/steamapps/common/Game".to_owned(),
        last_user: Some(76561197960265728 + 42),
    };
    let info = steam_local_info(cinc::config::SteamId::new(440), &loc, &"Game".to_owned());
    assert_eq!(info.win_prefix, "/lib/steamapps/compatdata/440/pfx/drive_c");
    assert_eq!(info.store_user_id, Some("42".to_owned()));
    assert_eq!(info.base_dir, Some("/lib/steamapps/common/Game".to_owned()));
    assert_eq!(info.root, Some("/lib".to_owned()));
    let umu = umu_local_info(&"/w".to_owned(), &Some("/home/u".to_owned()), &"Game".to_owned());
    assert_eq!(umu.win_prefix, "/w/pfx/drive_c");
    assert_eq!(umu.home_dir, Some("/w/pfx/drive_c/users/steamuser".to_owned()));
    assert_eq!(umu.root, Some("/home/u/Games/Heroic".to_owned()));
    assert_eq!(umu_local_info(&"/w".to_owned(), &None, &"G".to_owned()).root, None);
    let remote = remote_template_info(&None, &Some("Game".to_owned()));
    assert_eq!(remote.win_prefix, "win_prefix");
    assert_eq!(remote.root, Some("steam_root".to_owned()));
}

#[test]
fn umu_plan_uses_wine_home() {
    let mut g = GameManifest::empty();
    g.files = vec![(TemplatePath::new("<home>/Saved".to_owned()), FileConfig { preds: vec![], tags: vec![FileTag::Save] })];
    let plan = SyncMgr::from_umu_env("test", &g, &"/w".to_owned(), &None).unwrap();
    assert_eq!(plan.roots.len(), 1);
    assert_eq!(plan.roots[0].local_root, "/w/pfx/drive_c/users/steamuser/Saved");
    assert_eq!(plan.roots[0].remote_root, "home_dir/Saved");
    g.files = vec![(TemplatePath::new("<base>/Saved".to_owned()), FileConfig { preds: vec![], tags: vec![FileTag::Save] })];
    assert!(SyncMgr::from_umu_env("test", &g, &"/w".to_owned(), &None).is_err());
}

#[test]
fn unresolvable_table_template_is_reported() {
    let m = manager();
    let table = FileMetaTable {
        entries: vec![FileMetaEntry { template: TemplatePath::new("<nope>/x".to_owned()), remote_path: "r/x".to_owned() }],
        oldest_modified_time: UtcTime { nanos: 0 },
    };
    assert!(matches!(m.locate_member(&table, &"r/x".to_owned()), Err(SyncError::Template(_))));
    let meta = SyncMetadata::from_sys_info(table, UtcTime { nanos: 1 }, "h".to_owned());
    assert!(m.rhaid_lawrlwytho(&meta, &vec![UtcTime { nanos: 1 }, UtcTime { nanos: 1 }]).is_err());
}
