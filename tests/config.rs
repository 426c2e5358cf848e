use cinc::backends::{calc_mkdir_all_paths, StorageBackend, WebDavStore};
use cinc::config::{BackendInfo, BackendTy, Config, ConfigValidationError, Secret, SecretLookup, SteamId, SteamId64, WebDavInfo};

#[test]
fn calc_mkdir_all_paths_gives_individual_segments() {
    let paths = calc_mkdir_all_paths("/hello/world/hmm");
    assert_eq!(paths.as_slice(), &["/hello", "/hello/world", "/hello/world/hmm"].map(String::from));
}

#[test]
fn mkdir_paths_of_relative_dir() {
    assert_eq!(calc_mkdir_all_paths("a//b/"), vec!["a".to_owned(), "a/b".to_owned()]);
    assert!(calc_mkdir_all_paths("/").is_empty());
}

#[test]
fn secret_is_stripped_of_keyring_prefix() {
    let p = "keyring:hello";
    assert_eq!(p.parse::<Secret>().unwrap(), Secret::SystemSecret("hello".to_owned()));
}

#[test]
fn plain_secret_serializes_with_no_prefix() {
    let p = "keyring:hello";
    assert_eq!(p.parse::<Secret>().unwrap(), Secret::SystemSecret("hello".to_owned()));
}

#[test]
fn secret_without_marker_is_plain() {
    assert_eq!("hello".parse::<Secret>().unwrap(), Secret::Plain("hello".to_owned()));
    assert_eq!(Secret::Plain("x".to_owned()).render(), "keyring:x");
}

#[test]
fn steam_id3_is_offset_from_base() {
    assert_eq!(SteamId64::new(76561197960265728 + 22202).to_id3(), 22202);
    assert_eq!(SteamId64::new(76561198000000000).to_id3(), 39734272);
    assert_eq!("440".parse::<SteamId>().unwrap(), SteamId::new(440));
    assert!("4x0".parse::<SteamId>().is_err());
    assert_eq!(SteamId::new(7).id(), 7);
}

fn webdav(name: &str, psk: Option<Secret>) -> BackendInfo {
    BackendInfo {
        name: name.to_owned(),
        info: BackendTy::WebDav(WebDavInfo {
            url: "https://dav.example.com".to_owned(),
            username: "me".to_owned(),
            psk,
            root: "/cinc".to_owned(),
        }),
    }
}

#[test]
fn keyring_ids_are_those_of_webdav_backends() {
    let cfg = Config {
        backends: vec![
            BackendInfo { name: "fs".to_owned(), info: BackendTy::Filesystem { root: "/s".to_owned() } },
            webdav("a", Some(Secret::SystemSecret("k1".to_owned()))),
            webdav("b", Some(Secret::Plain("pw".to_owned()))),
            webdav("c", Some(Secret::SystemSecret("k2".to_owned()))),
        ],
        default_backend: "fs".to_owned(),
        manifest_url: None,
    };
    assert_eq!(cfg.used_keyring_ids(), vec!["k1".to_owned(), "k2".to_owned()]);
}

#[test]
fn validation_reports_each_problem() {
    let cfg = Config {
        backends: vec![webdav("a", Some(Secret::SystemSecret("k1".to_owned()))), webdav("b", None)],
        default_backend: "missing".to_owned(),
        manifest_url: Some("not a url".to_owned()),
    };
    let errs = cfg.validate(true, &vec![SecretLookup::Missing, SecretLookup::Found]);
    assert_eq!(errs.len(), 3);
    assert!(matches!(&errs[0], ConfigValidationError::InvalidDefaultBackend(n) if n == "missing"));
    assert!(matches!(&errs[1], ConfigValidationError::MalformedManifestUrl));
    assert!(matches!(&errs[2], ConfigValidationError::SecretDoesNotExist(k, b) if k == "k1" && b == "a"));
    let errs = cfg.validate(false, &vec![SecretLookup::Found, SecretLookup::Found]);
    assert!(matches!(&errs[2], ConfigValidationError::SecretsUnavailable(b) if b == "a"));
    let ok = Config {
        backends: vec![webdav("a", None)],
        default_backend: "a".to_owned(),
        manifest_url: Some("https://example.com/manifest.yaml".to_owned()),
    };
    assert!(ok.validate(true, &vec![SecretLookup::Found]).is_empty());
}

#[test]
fn pretty_print_names_the_kind() {
    let b = BackendInfo { name: "fs".to_owned(), info: BackendTy::Filesystem { root: "/s".to_owned() } };
    assert_eq!(b.pretty_print(), "filesystem at '\"/s\"'");
    assert_eq!(webdav("w", None).pretty_print(), "webdav at 'https://dav.example.com/\"/cinc\"' with username me");
}

#[test]
fn backend_for_a_game_is_rooted_below_it() {
    let b = BackendInfo { name: "fs".to_owned(), info: BackendTy::Filesystem { root: "/t/store".to_owned() } };
    match b.to_backend("test") {
        StorageBackend::Fs(s) => {
            assert_eq!(s.root, "/t/store/test");
            assert_eq!(s.filename("archive.tar.xz"), "/t/store/test/archive.tar.xz");
            assert_eq!(s.filename("/home/u/save"), "/t/store/test/./home/u/save");
        }
        other => panic!("unexpected {other:?}"),
    }
    match webdav("w", None).to_backend("test") {
        StorageBackend::WebDav(w) => {
            assert_eq!(w.url_for("mod-meta.ron"), "https://dav.example.com/./cinc/test/mod-meta.ron");
            assert_eq!(w.mkdir_urls("a/b"), vec!["https://dav.example.com/./cinc/test".to_owned(), "https://dav.example.com/./cinc/test/a".to_owned(), "https://dav.example.com/./cinc/test/a/b".to_owned()]);
        }
        other => panic!("unexpected {other:?}"),
    }
    let _ = WebDavStore::new(WebDavInfo { url: "u".to_owned(), username: "n".to_owned(), psk: None, root: "/r".to_owned() });
}

#[test]
fn failed_keyring_lookup_is_reported() {
    let cfg = Config {
        backends: vec![webdav("a", Some(Secret::SystemSecret("k".to_owned())))],
        default_backend: "a".to_owned(),
        manifest_url: None,
    };
    let errs = cfg.validate(true, &vec![SecretLookup::Failed("dbus".to_owned())]);
    assert!(matches!(errs.as_slice(), [ConfigValidationError::FailedToGetSecrets(m)] if m == "dbus"));
}

#[test]
fn webdav_absolute_paths_stay_below_the_root() {
    let w = WebDavStore::new(WebDavInfo { url: "h".to_owned(), username: "n".to_owned(), psk: None, root: "r".to_owned() });
    assert_eq!(w.url_for("/x"), "h/r/./x");
    assert_eq!(w.url_for("x"), "h/r/x");
    match webdav("w", None).to_backend("test") {
        StorageBackend::WebDav(s) => {
            assert_eq!(s.url_for("/home/u/save"), "https://dav.example.com/./cinc/test/./home/u/save");
        }
        other => panic!("unexpected {other:?}"),
    }
}
