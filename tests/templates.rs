use cinc::manifest::{HostDirs, TemplateError, TemplateInfo, TemplatePath};
use cinc::paths::{extract_postfix, join, join_good};

fn empty_info() -> TemplateInfo {
    TemplateInfo {
        win_prefix: "".to_owned(),
        win_user: "".to_owned(),
        base_dir: None,
        root: None,
        store_user_id: None,
        home_dir: None,
        xdg_config: None,
        xdg_data: None,
        install_dir: None,
    }
}

fn no_host() -> HostDirs {
    HostDirs { data_dir: None, config_dir: None, home_dir: None }
}

#[test]
fn repl_template() {
    let root = "hello";
    let user_id = "world";
    let expected = format!("{root}/hmm/{user_id}");
    let p = TemplatePath::new("<root>/hmm/<storeUserId>".to_owned());
    let got = p
        .apply_substs(&TemplateInfo {
            win_prefix: "".into(),
            win_user: "".to_owned(),
            base_dir: None,
            root: Some(root.to_owned()),
            store_user_id: Some(user_id.to_owned()),
            home_dir: None,
            xdg_config: None,
            xdg_data: None,
            install_dir: None,
        })
        .unwrap();
    assert_eq!(expected, got);
}

#[test]
fn repl_base_using_root_and_game() {
    let root = "hello";
    let install_dir = "world";
    let expected = format!("{root}/{install_dir}/hmm");
    let p = TemplatePath::new("<base>/hmm".to_owned());
    let got = p
        .apply_substs(&TemplateInfo {
            win_prefix: "".into(),
            win_user: "".to_owned(),
            base_dir: None,
            home_dir: None,
            xdg_config: None,
            xdg_data: None,
            root: Some(root.to_owned()),
            store_user_id: None,
            install_dir: Some(install_dir.to_owned()),
        })
        .unwrap();
    assert_eq!(expected, got);
}

#[test]
fn template_without_placeholders_is_unchanged() {
    let p = TemplatePath::new("/plain/path/save.dat".to_owned());
    assert_eq!(p.apply_substs_with(&empty_info(), &no_host()).unwrap(), "/plain/path/save.dat");
}

#[test]
fn unknown_variable_fails_without_output() {
    let p = TemplatePath::new("<root>/x/<nope>/y".to_owned());
    let mut info = empty_info();
    info.root = Some("/r".to_owned());
    match p.apply_substs_with(&info, &no_host()) {
        Err(TemplateError::UnknownVariable(v)) => assert_eq!(v, "nope"),
        other => panic!("unexpected {other:?}"),
    }
}

#[test]
fn unclosed_placeholder_fails() {
    let p = TemplatePath::new("<root/x".to_owned());
    assert!(matches!(p.apply_substs_with(&empty_info(), &no_host()), Err(TemplateError::NoClosingDelim)));
}

#[test]
fn missing_variable_is_named_with_delimiters() {
    let p = TemplatePath::new("<storeUserId>".to_owned());
    match p.apply_substs_with(&empty_info(), &no_host()) {
        Err(TemplateError::VariableNotAvailable(v)) => assert_eq!(v, "<storeUserId>"),
        other => panic!("unexpected {other:?}"),
    }
}

#[test]
fn base_prefers_base_dir_then_falls_back() {
    let p = TemplatePath::new("<base>/saves".to_owned());
    let mut info = empty_info();
    info.root = Some("/lib".to_owned());
    info.install_dir = Some("Game".to_owned());
    assert_eq!(p.apply_substs_with(&info, &no_host()).unwrap(), "/lib/Game/saves");
    info.base_dir = Some("/t/game".to_owned());
    assert_eq!(p.apply_substs_with(&info, &no_host()).unwrap(), "/t/game/saves");
    info.base_dir = None;
    info.install_dir = None;
    match p.apply_substs_with(&info, &no_host()) {
        Err(TemplateError::VariableNotAvailable(v)) => assert_eq!(v, "<game>"),
        other => panic!("unexpected {other:?}"),
    }
}

#[test]
fn wine_directories_resolve_under_prefix() {
    let mut info = empty_info();
    info.win_prefix = "/pfx/drive_c".to_owned();
    info.win_user = "steamuser".to_owned();
    let h = no_host();
    let p = TemplatePath::new("<winAppData>/G".to_owned());
    assert_eq!(p.apply_substs_with(&info, &h).unwrap(), "/pfx/drive_c/users/steamuser/AppData/Roaming/G");
    let p = TemplatePath::new("<winLocalAppData>".to_owned());
    assert_eq!(p.apply_substs_with(&info, &h).unwrap(), "/pfx/drive_c/users/steamuser/AppData/Local");
    let p = TemplatePath::new("<winDocuments>".to_owned());
    assert_eq!(p.apply_substs_with(&info, &h).unwrap(), "/pfx/drive_c/users/steamuser/Documents");
}

#[test]
fn host_dirs_fill_unset_directories() {
    let info = empty_info();
    let host = HostDirs { data_dir: Some("/d".to_owned()), config_dir: Some("/c".to_owned()), home_dir: Some("/h".to_owned()) };
    let p = TemplatePath::new("<xdgData>:<xdgConfig>:<home>".to_owned());
    assert_eq!(p.apply_substs_with(&info, &host).unwrap(), "/d:/c:/h");
    match TemplatePath::new("<home>".to_owned()).apply_substs_with(&info, &no_host()) {
        Err(TemplateError::FailedToLocateDir(v)) => assert_eq!(v, "home"),
        other => panic!("unexpected {other:?}"),
    }
}

#[test]
fn resolving_twice_equals_resolving_once() {
    let mut info = empty_info();
    info.root = Some("/lib".to_owned());
    info.install_dir = Some("G".to_owned());
    info.home_dir = Some("/home/u".to_owned());
    info.xdg_config = Some("/home/u/.config".to_owned());
    info.xdg_data = Some("/home/u/.local/share".to_owned());
    let p = TemplatePath::new("<base>/<home>/x".to_owned());
    let once = p.apply_substs(&info).unwrap();
    let twice = TemplatePath::new(once.clone()).apply_substs(&info).unwrap();
    assert_eq!(once, twice);
    assert_eq!(once, p.apply_substs(&info).unwrap());
}

#[test]
fn postfix_extract() {
    let base = "/";
    let child = join(&join(base, "yipee"), "yay");
    assert_eq!(extract_postfix(base, &child), join("yipee", "yay"));
}

#[test]
fn join_good_keeps_absolute_paths_below() {
    assert_eq!(join_good("/store/test", "/abs/file"), "/store/test/./abs/file");
    assert_eq!(join_good("/store/test", "rel/file"), "/store/test/rel/file");
    assert_eq!(join("/store/test", "/abs"), "/abs");
}

#[test]
fn prefix_extract_unicode() {
    let child = "🥀";
    let base = join(&join("💀", "😔"), "🥀");
    assert_eq!(cinc::paths::extract_prefix(&base, child), join("💀", "😔"));
}

#[test]
fn get_base_path_from_exe() {
    let template = TemplatePath::new("<base>/hello/world.exe".to_owned());
    let command = "woah/so-cool/hello/world.exe";
    assert_eq!(cinc::sync::find_base_dir_from_exe_path(&template, command), Some("woah/so-cool".to_owned()));
    assert_eq!(cinc::sync::find_base_dir_from_exe_path(&TemplatePath::new("bin/x.exe".to_owned()), command), None);
}

#[test]
fn app_dirs_fall_back_to_home() {
    assert_eq!(cinc::paths::app_dir(Some("/c".to_owned()), None, "cache"), Some("/c/cinc".to_owned()));
    assert_eq!(cinc::paths::app_dir(None, Some("/h".to_owned()), "cache"), Some("/h/.cinc/cache".to_owned()));
    assert_eq!(cinc::paths::app_dir(None, None, "cache"), None);
}

#[test]
fn manifest_maps_replace_equal_keys() {
    let mut g = cinc::manifest::GameManifest::empty();
    let save = cinc::manifest::FileConfig { preds: vec![], tags: vec![cinc::manifest::FileTag::Save] };
    let conf = cinc::manifest::FileConfig { preds: vec![], tags: vec![cinc::manifest::FileTag::Config] };
    g.insert_file(TemplatePath::new("<base>/a".to_owned()), save.clone());
    g.insert_file(TemplatePath::new("<base>/b".to_owned()), save);
    g.insert_file(TemplatePath::new("<base>/a".to_owned()), conf);
    assert_eq!(g.files.len(), 2);
    assert_eq!(g.files[0].1.tags, vec![cinc::manifest::FileTag::Config]);
    g.insert_launch(TemplatePath::new("run.exe".to_owned()), vec![]);
    g.insert_launch(TemplatePath::new("run.exe".to_owned()), vec![]);
    assert_eq!(g.launch.len(), 1);
    let mut games = cinc::manifest::GameManifests::new();
    cinc::manifest::insert_game(&mut games, "x".to_owned(), g.clone());
    cinc::manifest::insert_game(&mut games, "y".to_owned(), g.clone());
    cinc::manifest::insert_game(&mut games, "x".to_owned(), cinc::manifest::GameManifest::empty());
    assert_eq!(games.len(), 2);
    assert!(games[0].1.files.is_empty());
}
