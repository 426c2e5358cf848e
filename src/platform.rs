//! Which game is being launched: the platform from the command line, and the
//! game's entry in the manifest.
use vstd::prelude::*;
use crate::args::{LaunchArgs, PlatformOpt, platform_of};
use crate::config::SteamId;
use crate::manifest::{self, GameManifest, GameManifests, LaunchConfig, TemplatePath, all_sat};
use crate::paths::{components, path_components, views, suffix_len, common_suffix};
use crate::text::{chars_of, chars_are, parse_u32, parsed_u32, slice_chars, starts_with, string_of};

verus! {

/// The launcher a game runs under, with what identifies the game there.
#[derive(Debug, Clone)]
pub enum PlatformInfo {
    Steam { app_id: SteamId },
    Umu { exe_path: String },
}

/// Set to the store the game came from: gog, epic, amazon.
pub const HEROIC_APP_SOURCE: &'static str = "HEROIC_APP_SOURCE";

/// Set to the game's name in that store; for GOG, its id.
pub const HEROIC_APP_NAME: &'static str = "HEROIC_APP_NAME";

/// What some launchers put in the environment about the game they start.
#[derive(Debug, Clone)]
pub struct LauncherEnv {
    /// The value of `HEROIC_APP_SOURCE`, if set.
    pub app_source: Option<String>,
    /// The value of `HEROIC_APP_NAME`, if set.
    pub app_name: Option<String>,
}

/// Why the launcher's environment did not lead to a game.
#[derive(Debug, Clone, Copy, PartialEq, Eq, Structural)]
pub enum EnvLookupError {
    /// A variable is not set.
    MissingVar,
    /// The GOG id is not a number.
    BadGogId,
}

/// Whether the game has the Steam app id `id`.
pub open spec fn steam_matches(g: GameManifest, id: SteamId) -> bool {
    g.steam matches Some(s) && s.id == id
}

/// Whether the game has the GOG id `id`.
pub open spec fn gog_matches(g: GameManifest, id: u32) -> bool {
    g.gog matches Some(s) && s.id == id
}

/// The index of the first game with Steam app id `id`.
pub fn find_in_manifest_by_steam_id(manifest: &GameManifests, app_id: SteamId) -> (r: Option<usize>)
    ensures
        match r {
            Some(i) => i < manifest@.len() && steam_matches(manifest@[i as int].1, app_id) && forall|j: int|
                0 <= j < i ==> !steam_matches(#[trigger] manifest@[j].1, app_id),
            None => forall|j: int| 0 <= j < manifest@.len() ==> !steam_matches(#[trigger] manifest@[j].1, app_id),
        },
{
    let mut i: usize = 0;
    while i < manifest.len()
        invariant
            i <= manifest@.len(),
            forall|j: int| 0 <= j < i ==> !steam_matches(#[trigger] manifest@[j].1, app_id),
        decreases manifest.len() - i,
    {
        match &manifest[i].1.steam {
            Some(s) => {
                if s.id.0 == app_id.0 {
                    return Some(i);
                }
            },
            None => {},
        }
        i = i + 1;
    }
    None
}

/// The index of the first game with GOG id `id`.
pub fn find_in_manifest_by_gog_id(manifest: &GameManifests, id: u32) -> (r: Option<usize>)
    ensures
        match r {
            Some(i) => i < manifest@.len() && gog_matches(manifest@[i as int].1, id) && forall|j: int|
                0 <= j < i ==> !gog_matches(#[trigger] manifest@[j].1, id),
            None => forall|j: int| 0 <= j < manifest@.len() ==> !gog_matches(#[trigger] manifest@[j].1, id),
        },
{
    let mut i: usize = 0;
    while i < manifest.len()
        invariant
            i <= manifest@.len(),
            forall|j: int| 0 <= j < i ==> !gog_matches(#[trigger] manifest@[j].1, id),
        decreases manifest.len() - i,
    {
        match &manifest[i].1.gog {
            Some(s) => {
                if s.id == id {
                    return Some(i);
                }
            },
            None => {},
        }
        i = i + 1;
    }
    None
}

/// What the launcher's environment says of the game: with a GOG source and a
/// numeric id, the first game with that GOG id.
pub open spec fn env_lookup(games: Seq<(String, GameManifest)>, env: LauncherEnv) -> Result<
    Option<usize>,
    EnvLookupError,
> {
    match (env.app_source, env.app_name) {
        (Some(src), Some(name)) => if src@ == "gog"@ {
            match parsed_u32(name@) {
                Some(id) => Ok(gog_lookup(games, id)),
                None => Err(EnvLookupError::BadGogId),
            }
        } else {
            Ok(None)
        },
        _ => Err(EnvLookupError::MissingVar),
    }
}

proof fn lemma_gog_lookup(games: Seq<(String, GameManifest)>, id: u32, r: Option<usize>)
    requires
        match r {
            Some(i) => i < games.len() && gog_matches(games[i as int].1, id) && forall|j: int|
                0 <= j < i ==> !gog_matches(#[trigger] games[j].1, id),
            None => forall|j: int| 0 <= j < games.len() ==> !gog_matches(#[trigger] games[j].1, id),
        },
    ensures
        gog_lookup(games, id) == r,
{
    if let Some(i) = r {
        assert(gog_matches(games[i as int].1, id));
        let c = choose|c: int|
            0 <= c < games.len() && gog_matches(#[trigger] games[c].1, id) && forall|j: int|
                0 <= j < c ==> !gog_matches(#[trigger] games[j].1, id);
        assert(c == i as int) by {
            if c < i {
                assert(!gog_matches(games[c].1, id));
            }
            if i < c {
                assert(!gog_matches(games[i as int].1, id));
            }
        };
    }
}

proof fn lemma_steam_lookup(games: Seq<(String, GameManifest)>, id: SteamId, r: Option<usize>)
    requires
        match r {
            Some(i) => i < games.len() && steam_matches(games[i as int].1, id) && forall|j: int|
                0 <= j < i ==> !steam_matches(#[trigger] games[j].1, id),
            None => forall|j: int| 0 <= j < games.len() ==> !steam_matches(#[trigger] games[j].1, id),
        },
    ensures
        steam_lookup(games, id) == r,
{
    if let Some(i) = r {
        assert(steam_matches(games[i as int].1, id));
        let c = choose|c: int|
            0 <= c < games.len() && steam_matches(#[trigger] games[c].1, id) && forall|j: int|
                0 <= j < c ==> !steam_matches(#[trigger] games[j].1, id);
        assert(c == i as int) by {
            if c < i {
                assert(!steam_matches(games[c].1, id));
            }
            if i < c {
                assert(!steam_matches(games[i as int].1, id));
            }
        };
    }
}

/// Looks the game up by what the launcher put in the environment: a GOG source
/// and a numeric GOG id find the first game with that id.
pub fn find_game_from_env_vars(manifest: &GameManifests, env: &LauncherEnv) -> (r: Result<
    Option<usize>,
    EnvLookupError,
>)
    ensures
        r == env_lookup(manifest@, *env),
        r matches Ok(Some(i)) ==> i < manifest@.len(),
{
    let (source, name) = match (&env.app_source, &env.app_name) {
        (Some(s), Some(n)) => (s, n),
        _ => return Err(EnvLookupError::MissingVar),
    };
    if chars_are(&chars_of(source.as_str()), "gog") {
        match parse_u32(name.as_str()) {
            Some(id) => {
                let r = find_in_manifest_by_gog_id(manifest, id);
                proof {
                    lemma_gog_lookup(manifest@, id, r);
                }
                Ok(r)
            },
            None => Err(EnvLookupError::BadGogId),
        }
    } else {
        Ok(None)
    }
}

/// The platform that launch predicates are tested against under Wine.
pub open spec fn wine_platform() -> manifest::PlatformInfo {
    manifest::PlatformInfo { store: None, wine: true }
}

/// Whether every launch configuration holds under Wine.
pub open spec fn configs_sat(cs: Seq<LaunchConfig>) -> bool {
    forall|i: int| 0 <= i < cs.len() ==> all_sat((#[trigger] cs[i]).preds@, wine_platform())
}

/// How well a launch entry matches the executable: the trailing components they
/// share, where the entry's configurations hold.
pub open spec fn entry_score(e: (TemplatePath, Vec<LaunchConfig>), exe: Seq<char>) -> nat {
    if configs_sat(e.1@) {
        suffix_len(components(e.0@), components(exe))
    } else {
        0
    }
}

pub open spec fn max_nat(a: nat, b: nat) -> nat {
    if a >= b {
        a
    } else {
        b
    }
}

/// The best score among the first `n` launch entries.
pub open spec fn launch_score(l: Seq<(TemplatePath, Vec<LaunchConfig>)>, n: int, exe: Seq<char>) -> nat
    decreases n,
{
    if n <= 0 {
        0
    } else {
        max_nat(launch_score(l, n - 1, exe), entry_score(l[n - 1], exe))
    }
}

/// The best score among a game's launch entries.
pub open spec fn game_score(g: GameManifest, exe: Seq<char>) -> nat {
    launch_score(g.launch@, g.launch@.len() as int, exe)
}

/// The best score among the first `n` games.
pub open spec fn best_score(games: Seq<(String, GameManifest)>, n: int, exe: Seq<char>) -> nat
    decreases n,
{
    if n <= 0 {
        0
    } else {
        max_nat(best_score(games, n - 1, exe), game_score(games[n - 1].1, exe))
    }
}

fn configs_hold(cs: &Vec<LaunchConfig>) -> (r: bool)
    ensures
        r == configs_sat(cs@),
{
    let info = manifest::PlatformInfo { store: None, wine: true };
    let mut i: usize = 0;
    while i < cs.len()
        invariant
            info == wine_platform(),
            i <= cs@.len(),
            forall|j: int| 0 <= j < i ==> all_sat((#[trigger] cs@[j]).preds@, wine_platform()),
        decreases cs.len() - i,
    {
        if !cs[i].sat(info) {
            return false;
        }
        i = i + 1;
    }
    true
}

/// The game whose launch entries best match the executable's path: the most
/// trailing components in common, the first such game on a tie, and none where
/// nothing matches.
pub fn find_likelist_umu_match(manifest: &GameManifests, exe_path: &str) -> (r: Option<usize>)
    ensures
        best_score(manifest@, manifest@.len() as int, exe_path@) == 0 <==> r is None,
        r matches Some(i) ==> i < manifest@.len() && game_score(manifest@[i as int].1, exe_path@) == best_score(
            manifest@,
            manifest@.len() as int,
            exe_path@,
        ) && forall|j: int|
            0 <= j < i ==> game_score(#[trigger] manifest@[j].1, exe_path@) < best_score(
                manifest@,
                manifest@.len() as int,
                exe_path@,
            ),
{
    let exe = path_components(&chars_of(exe_path));
    let mut max_len: usize = 0;
    let mut max: Option<usize> = None;
    let mut k: usize = 0;
    while k < manifest.len()
        invariant
            views(exe@) == components(exe_path@),
            k <= manifest@.len(),
            max_len == best_score(manifest@, k as int, exe_path@),
            max_len == 0 <==> max is None,
            forall|j: int| 0 <= j < k ==> game_score(#[trigger] manifest@[j].1, exe_path@) <= max_len,
            max matches Some(i) ==> i < k && game_score(manifest@[i as int].1, exe_path@) == max_len && forall|
                j: int,
            | 0 <= j < i ==> game_score(#[trigger] manifest@[j].1, exe_path@) < max_len,
        decreases manifest.len() - k,
    {
        let launch = &manifest[k].1.launch;
        let old_len = max_len;
        let old_max = max;
        let mut cur: usize = 0;
        let mut e: usize = 0;
        while e < launch.len()
            invariant
                views(exe@) == components(exe_path@),
                launch == &manifest@[k as int].1.launch,
                k < manifest@.len(),
                e <= launch@.len(),
                cur == launch_score(launch@, e as int, exe_path@),
                max_len == max_nat(old_len as nat, cur as nat),
                if cur > old_len {
                    max == Some(k)
                } else {
                    max == old_max
                },
            decreases launch.len() - e,
        {
            let len: usize = if configs_hold(&launch[e].1) {
                let comps = path_components(&chars_of(launch[e].0.as_raw_path()));
                common_suffix(&comps, &exe)
            } else {
                0
            };
            assert(len == entry_score(launch@[e as int], exe_path@));
            if cur < len {
                cur = len;
            }
            if max_len < len {
                max = Some(k);
                max_len = len;
            }
            e = e + 1;
        }
        assert(cur == game_score(manifest@[k as int].1, exe_path@));
        k = k + 1;
    }
    max
}

impl PlatformInfo {
    /// The game being launched: on Steam by its app id; under Umu by the
    /// launcher's environment, else by the executable's path.
    pub fn find_game_in_manifest(&self, manifests: &GameManifests, env: &LauncherEnv) -> (r: Option<usize>)
        ensures
            match self {
                PlatformInfo::Steam { app_id } => r == steam_lookup(manifests@, *app_id),
                PlatformInfo::Umu { exe_path } => match env_lookup(manifests@, *env) {
                    Ok(Some(i)) => r == Some(i),
                    _ => r == umu_lookup(manifests@, exe_path@),
                },
            },
            r matches Some(i) ==> i < manifests@.len(),
    {
        match self {
            PlatformInfo::Steam { app_id } => {
                let r = find_in_manifest_by_steam_id(manifests, *app_id);
                proof {
                    lemma_steam_lookup(manifests@, *app_id, r);
                }
                r
            },
            PlatformInfo::Umu { exe_path } => {
                match find_game_from_env_vars(manifests, env) {
                    Ok(Some(i)) => Some(i),
                    _ => {
                        let r = find_likelist_umu_match(manifests, exe_path.as_str());
                        proof {
                            lemma_umu_lookup(manifests@, exe_path@, r);
                        }
                        r
                    },
                }
            },
        }
    }
}

/// The first game with Steam app id `id`.
pub open spec fn steam_lookup(games: Seq<(String, GameManifest)>, id: SteamId) -> Option<usize> {
    if exists|i: int| 0 <= i < games.len() && steam_matches(#[trigger] games[i].1, id) {
        Some(
            (choose|i: int|
                0 <= i < games.len() && steam_matches(#[trigger] games[i].1, id) && forall|j: int|
                    0 <= j < i ==> !steam_matches(#[trigger] games[j].1, id)) as usize,
        )
    } else {
        None
    }
}

/// The first game with GOG id `id`.
pub open spec fn gog_lookup(games: Seq<(String, GameManifest)>, id: u32) -> Option<usize> {
    if exists|i: int| 0 <= i < games.len() && gog_matches(#[trigger] games[i].1, id) {
        Some(
            (choose|i: int|
                0 <= i < games.len() && gog_matches(#[trigger] games[i].1, id) && forall|j: int|
                    0 <= j < i ==> !gog_matches(#[trigger] games[j].1, id)) as usize,
        )
    } else {
        None
    }
}

proof fn lemma_umu_lookup(games: Seq<(String, GameManifest)>, exe: Seq<char>, r: Option<usize>)
    requires
        best_score(games, games.len() as int, exe) == 0 <==> r is None,
        r matches Some(i) ==> i < games.len() && game_score(games[i as int].1, exe) == best_score(
            games,
            games.len() as int,
            exe,
        ) && forall|j: int|
            0 <= j < i ==> game_score(#[trigger] games[j].1, exe) < best_score(games, games.len() as int, exe),
    ensures
        umu_lookup(games, exe) == r,
{
    let best = best_score(games, games.len() as int, exe);
    if let Some(i) = r {
        let c = choose|c: int|
            0 <= c < games.len() && game_score(games[c].1, exe) == best && forall|j: int|
                0 <= j < c ==> game_score(#[trigger] games[j].1, exe) < best;
        assert(c == i as int) by {
            if c < i {
                assert(game_score(games[c].1, exe) < best);
            }
            if i < c {
                assert(game_score(games[i as int].1, exe) < best);
            }
        };
    }
}

/// The game that best matches the executable path, as `find_likelist_umu_match` chooses it.
pub open spec fn umu_lookup(games: Seq<(String, GameManifest)>, exe: Seq<char>) -> Option<usize> {
    let best = best_score(games, games.len() as int, exe);
    if best == 0 {
        None
    } else {
        Some(
            (choose|i: int|
                0 <= i < games.len() && game_score(games[i].1, exe) == best && forall|j: int|
                    0 <= j < i ==> game_score(#[trigger] games[j].1, exe) < best) as usize,
        )
    }
}

/// Why a launch could not be tied to a game.
#[derive(Debug, Clone, Copy, PartialEq, Eq, Structural)]
pub enum LaunchError {
    /// Neither forced nor detectable from the command line.
    PlatformUnresolvable,
    /// A Steam launch without an `AppId=` token.
    MissingAppId,
    /// The `AppId=` token does not hold a number.
    BadAppId,
    /// An Umu launch with no program to run.
    MissingUmuCommand,
    /// No game of the manifest matches.
    GameNotInManifest,
    /// The configuration names no usable default backend.
    NoDefaultBackend,
}

/// The index of the first token that starts with `AppId=`, if any.
pub open spec fn app_id_token(cmd: Seq<String>) -> Option<int> {
    if exists|i: int| 0 <= i < cmd.len() && is_app_id_token(#[trigger] cmd[i]@) {
        Some(
            choose|i: int|
                0 <= i < cmd.len() && is_app_id_token(#[trigger] cmd[i]@) && forall|j: int|
                    0 <= j < i ==> !is_app_id_token(#[trigger] cmd[j]@),
        )
    } else {
        None
    }
}

pub open spec fn is_app_id_token(t: Seq<char>) -> bool {
    t.len() >= 6 && t.subrange(0, 6) == "AppId="@
}

/// The Steam app id that the command line carries: the number after `AppId=`
/// in the first token that has it.
pub open spec fn steam_app_id_of(cmd: Seq<String>) -> Result<SteamId, LaunchError> {
    match app_id_token(cmd) {
        None => Err(LaunchError::MissingAppId),
        Some(i) => match parsed_u32(cmd[i]@.subrange(6, cmd[i]@.len() as int)) {
            Some(id) => Ok(SteamId(id)),
            None => Err(LaunchError::BadAppId),
        },
    }
}

/// The app id that Steam passed on the command line.
pub fn steam_app_id(command: &Vec<String>) -> (r: Result<SteamId, LaunchError>)
    ensures
        r == steam_app_id_of(command@),
{
    let prefix = chars_of("AppId=");
    proof {
        reveal_strlit("AppId=");
    }
    let mut i: usize = 0;
    while i < command.len()
        invariant
            prefix@ == "AppId="@,
            prefix@.len() == 6,
            i <= command@.len(),
            forall|j: int| 0 <= j < i ==> !is_app_id_token(#[trigger] command@[j]@),
        decreases command.len() - i,
    {
        let tok = chars_of(command[i].as_str());
        if starts_with(&tok, &prefix) {
            proof {
                assert(is_app_id_token(command@[i as int]@));
                let c = choose|c: int|
                    0 <= c < command@.len() && is_app_id_token(#[trigger] command@[c]@) && forall|j: int|
                        0 <= j < c ==> !is_app_id_token(#[trigger] command@[j]@);
                assert(c == i as int) by {
                    if c < i {
                        assert(!is_app_id_token(command@[c]@));
                    }
                    if i < c {
                        assert(!is_app_id_token(command@[i as int]@));
                    }
                };
            }
            let rest = string_of(&slice_chars(&tok, 6, tok.len()));
            return match parse_u32(rest.as_str()) {
                Some(id) => Ok(SteamId(id)),
                None => Err(LaunchError::BadAppId),
            };
        }
        i = i + 1;
    }
    Err(LaunchError::MissingAppId)
}

/// The launch's platform with what identifies the game there.
pub open spec fn platform_info_of(opt: PlatformOpt, cmd: Seq<String>) -> Result<(bool, SteamId, Seq<char>), LaunchError> {
    match opt {
        PlatformOpt::Steam => match steam_app_id_of(cmd) {
            Ok(id) => Ok((true, id, seq![])),
            Err(e) => Err(e),
        },
        _ => if cmd.len() > 1 {
            Ok((false, SteamId(0), cmd[1]@))
        } else {
            Err(LaunchError::MissingUmuCommand)
        },
    }
}

/// What a `PlatformInfo` holds, as plain values.
pub open spec fn platform_view(p: PlatformInfo) -> (bool, SteamId, Seq<char>) {
    match p {
        PlatformInfo::Steam { app_id } => (true, app_id, seq![]),
        PlatformInfo::Umu { exe_path } => (false, SteamId(0), exe_path@),
    }
}

/// The game a platform finds, as `find_game_in_manifest` chooses it.
pub open spec fn platform_lookup(games: Seq<(String, GameManifest)>, p: PlatformInfo, env: LauncherEnv) -> Option<usize> {
    match p {
        PlatformInfo::Steam { app_id } => steam_lookup(games, app_id),
        PlatformInfo::Umu { exe_path } => match env_lookup(games, env) {
            Ok(Some(i)) => Some(i),
            _ => umu_lookup(games, exe_path@),
        },
    }
}

/// What `resolve_launch` returns: the platform from the arguments, then the
/// game by the forced Steam id, else as the platform finds it.
pub open spec fn launch_resolves(
    games: Seq<(String, GameManifest)>,
    largs: LaunchArgs,
    env: LauncherEnv,
    r: Result<(PlatformInfo, usize), LaunchError>,
) -> bool {
    &&& platform_of(largs.platform, largs.command@) is None ==> r == Err::<(PlatformInfo, usize), LaunchError>(
        LaunchError::PlatformUnresolvable,
    )
    &&& platform_of(largs.platform, largs.command@) matches Some(opt) ==> match platform_info_of(opt, largs.command@) {
        Err(e) => r == Err::<(PlatformInfo, usize), LaunchError>(e),
        Ok(pv) => match r {
            Ok((p, i)) => platform_view(p) == pv && i < games.len() && Some(i) == match largs.manifest_app_id_override {
                Some(id) if steam_lookup(games, id) is Some => steam_lookup(games, id),
                _ => platform_lookup(games, p, env),
            },
            Err(e) => e == LaunchError::GameNotInManifest && (match largs.manifest_app_id_override {
                Some(id) => steam_lookup(games, id) is None,
                None => true,
            }) && exists|p: PlatformInfo| platform_view(p) == pv && platform_lookup(games, p, env) is None,
        },
    }
}

/// Ties a launch to its platform and its game: the platform from the arguments,
/// then the game by the forced Steam id, else as the platform finds it.
pub fn resolve_launch(manifests: &GameManifests, largs: &LaunchArgs, env: &LauncherEnv) -> (r: Result<
    (PlatformInfo, usize),
    LaunchError,
>)
    ensures
        launch_resolves(manifests@, *largs, *env, r),
{
    let opt = match largs.resolve_platform() {
        Some(o) => o,
        None => return Err(LaunchError::PlatformUnresolvable),
    };
    let platform = match opt {
        PlatformOpt::Steam => PlatformInfo::Steam { app_id: steam_app_id(&largs.command)? },
        _ => {
            if largs.command.len() < 2 {
                return Err(LaunchError::MissingUmuCommand);
            }
            PlatformInfo::Umu { exe_path: string_of(&chars_of(largs.command[1].as_str())) }
        },
    };
    let forced = match largs.manifest_app_id_override {
        Some(id) => {
            let r = find_in_manifest_by_steam_id(manifests, id);
            proof {
                lemma_steam_lookup(manifests@, id, r);
            }
            r
        },
        None => None,
    };
    let found = match forced {
        Some(i) => Some(i),
        None => platform.find_game_in_manifest(manifests, env),
    };
    assert(platform_info_of(opt, largs.command@) == Ok::<(bool, SteamId, Seq<char>), LaunchError>(
        platform_view(platform),
    ));
    match found {
        Some(i) => Ok((platform, i)),
        None => {
            assert(platform_lookup(manifests@, platform, *env) is None);
            Err(LaunchError::GameNotInManifest)
        },
    }
}

} // verus!
