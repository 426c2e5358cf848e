use cinc::args::{LaunchArgs, PlatformOpt};
use cinc::backends::StorageBackend;
use cinc::config::{BackendInfo, BackendTy, Config, SteamId};
use cinc::launch::LaunchInfo;
use cinc::manifest::{GameManifest, GameManifests, GogInfo, LaunchConfig, SteamInfo, TemplatePath};
use cinc::platform::{
    find_game_from_env_vars, find_likelist_umu_match, resolve_launch, steam_app_id, LaunchError, LauncherEnv, PlatformInfo,
};

fn largs(platform: PlatformOpt, app_id: Option<SteamId>, command: &[&str]) -> LaunchArgs {
    LaunchArgs {
        platform,
        no_upload: false,
        no_download: false,
        manifest_app_id_override: app_id,
        command: command.iter().map(|s| s.to_string()).collect(),
    }
}

fn no_env() -> LauncherEnv {
    LauncherEnv { app_source: None, app_name: None }
}

fn test_cfg(root: &str) -> Config {
    Config {
        default_backend: "t".to_owned(),
        manifest_url: None,
        backends: vec![BackendInfo { name: "t".to_owned(), info: BackendTy::Filesystem { root: root.to_owned() } }],
    }
}

fn mk_manifest(game: GameManifest) -> GameManifests {
    vec![("test".to_owned(), game)]
}

#[test]
fn platform_is_detected_from_command() {
    assert_eq!(largs(PlatformOpt::Auto, None, &["/s/proton", "AppId=440", "run"]).resolve_platform(), Some(PlatformOpt::Steam));
    assert_eq!(largs(PlatformOpt::Auto, None, &["/usr/bin/umu-run", "run.exe"]).resolve_platform(), Some(PlatformOpt::Umu));
    assert_eq!(largs(PlatformOpt::Auto, None, &["wine", "run.exe"]).resolve_platform(), Some(PlatformOpt::Umu));
    assert_eq!(largs(PlatformOpt::Auto, None, &["bash", "run.sh"]).resolve_platform(), None);
    assert_eq!(largs(PlatformOpt::Steam, None, &["bash"]).resolve_platform(), Some(PlatformOpt::Steam));
}

#[test]
fn steam_app_id_comes_from_the_token() {
    let cmd: Vec<String> = vec!["x".to_owned(), "AppId=1234".to_owned()];
    assert_eq!(steam_app_id(&cmd), Ok(SteamId::new(1234)));
    assert_eq!(steam_app_id(&vec!["AppId=abc".to_owned()]), Err(LaunchError::BadAppId));
    assert_eq!(steam_app_id(&vec!["run".to_owned()]), Err(LaunchError::MissingAppId));
}

#[test]
fn find_game_from_vars_heroic() {
    let id = 1;
    let env = LauncherEnv { app_source: Some("gog".to_owned()), app_name: Some("1".to_owned()) };
    let mut game = GameManifest::empty();
    game.gog = Some(GogInfo { id });
    let manifest = mk_manifest(game);
    assert!(find_game_from_env_vars(&manifest, &env).unwrap().is_some());
}

#[test]
fn heroic_gog_resolution_skips_launch_patterns() {
    let env = LauncherEnv { app_source: Some("gog".to_owned()), app_name: Some("1".to_owned()) };
    let mut game = GameManifest::empty();
    game.gog = Some(GogInfo { id: 1 });
    let manifest = mk_manifest(game);
    let (p, i) = resolve_launch(&manifest, &largs(PlatformOpt::Auto, None, &["umu-run", "run.exe"]), &env).unwrap();
    assert!(matches!(p, PlatformInfo::Umu { .. }));
    assert_eq!(manifest[i].0, "test");
}

#[test]
fn longest_suffix_launch_path_wins() {
    let mut a = GameManifest::empty();
    a.launch = vec![(TemplatePath::new("<base>/bin/game.exe".to_owned()), vec![LaunchConfig { preds: vec![] }])];
    let mut b = GameManifest::empty();
    b.launch = vec![(TemplatePath::new("<base>/game.exe".to_owned()), vec![])];
    let manifest: GameManifests = vec![("short".to_owned(), b.clone()), ("long".to_owned(), a), ("short2".to_owned(), b)];
    assert_eq!(find_likelist_umu_match(&manifest, "/opt/whatever/bin/game.exe"), Some(1));
    assert_eq!(find_likelist_umu_match(&manifest, "/opt/other.exe"), None);
    let ties: GameManifests = vec![manifest[0].clone(), manifest[2].clone()];
    assert_eq!(find_likelist_umu_match(&ties, "/x/game.exe"), Some(0));
}

#[test]
fn discovery_via_forced_steam_id_with_heroic() {
    let launch_exe = "run.exe";
    let id = SteamId::new(0);
    let mut game = GameManifest::empty();
    game.steam = Some(SteamInfo { id });
    let largs = largs(PlatformOpt::Auto, Some(id), &["/usr/bin/umu-run", launch_exe]);
    let manifest = mk_manifest(game);
    let cfg = test_cfg("/tmp/store");
    let l = LaunchInfo::new(&cfg, &manifest, &largs, &no_env()).unwrap();
    assert_eq!(l.game_name, "test");
    assert!(matches!(l.backend, StorageBackend::Fs(ref s) if s.root == "/tmp/store/test"));
}

#[test]
fn unknown_game_is_reported() {
    let manifest = mk_manifest(GameManifest::empty());
    let r = resolve_launch(&manifest, &largs(PlatformOpt::Auto, None, &["umu-run", "run.exe"]), &no_env());
    assert!(matches!(r, Err(LaunchError::GameNotInManifest)));
    let r = resolve_launch(&manifest, &largs(PlatformOpt::Auto, None, &["bash"]), &no_env());
    assert!(matches!(r, Err(LaunchError::PlatformUnresolvable)));
}

#[test]
fn launch_errors_name_the_missing_piece() {
    let manifest = mk_manifest(GameManifest::empty());
    let r = resolve_launch(&manifest, &largs(PlatformOpt::Umu, None, &["umu-run"]), &no_env());
    assert!(matches!(r, Err(LaunchError::MissingUmuCommand)));
    let r = resolve_launch(&manifest, &largs(PlatformOpt::Steam, None, &["proton", "run"]), &no_env());
    assert!(matches!(r, Err(LaunchError::MissingAppId)));
    let mut game = GameManifest::empty();
    game.steam = Some(SteamInfo { id: SteamId::new(5) });
    let manifest = mk_manifest(game);
    let mut cfg = test_cfg("/tmp/store");
    cfg.default_backend = "other".to_owned();
    let r = LaunchInfo::new(&cfg, &manifest, &largs(PlatformOpt::Auto, None, &["proton", "AppId=5"]), &no_env());
    assert!(matches!(r, Err(LaunchError::NoDefaultBackend)));
    let l = LaunchInfo::new(&test_cfg("/s"), &manifest, &largs(PlatformOpt::Auto, None, &["proton", "AppId=5"]), &no_env()).unwrap();
    assert!(matches!(l.platform, PlatformInfo::Steam { app_id } if app_id == SteamId::new(5)));
}

#[test]
fn launcher_env_errors() {
    let manifest = mk_manifest(GameManifest::empty());
    assert_eq!(find_game_from_env_vars(&manifest, &no_env()), Err(cinc::platform::EnvLookupError::MissingVar));
    let bad = LauncherEnv { app_source: Some("gog".to_owned()), app_name: Some("x1".to_owned()) };
    assert_eq!(find_game_from_env_vars(&manifest, &bad), Err(cinc::platform::EnvLookupError::BadGogId));
    let epic = LauncherEnv { app_source: Some("epic".to_owned()), app_name: Some("1".to_owned()) };
    assert_eq!(find_game_from_env_vars(&manifest, &epic), Ok(None));
}

#[test]
fn app_id_bounds() {
    assert_eq!(steam_app_id(&vec!["AppId=4294967295".to_owned()]), Ok(SteamId::new(u32::MAX)));
    assert_eq!(steam_app_id(&vec!["AppId=4294967296".to_owned()]), Err(LaunchError::BadAppId));
    assert_eq!(steam_app_id(&vec!["AppId=+7".to_owned()]), Ok(SteamId::new(7)));
    assert_eq!(steam_app_id(&vec!["AppId=".to_owned()]), Err(LaunchError::BadAppId));
}
