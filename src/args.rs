//! Command-line arguments, as plain values, and platform detection from the
//! game's command line.
use vstd::prelude::*;
use crate::config::{BackendType, SteamId};
use crate::paths::segments;
use crate::text::{chars_of, chars_are, starts_with};

verus! {

/// Options of the program as a whole.
#[derive(Debug, Clone)]
pub struct CliArgs {
    /// Refresh the cached manifest.
    pub update: bool,
    pub no_panic_hook: bool,
    /// Write nothing to the filesystem or any backend.
    pub dry_run: bool,
    pub config_path: Option<String>,
    pub op: Option<Operation>,
}

#[derive(Debug, Clone)]
pub enum Operation {
    /// Sync around a game launch.
    Launch(LaunchArgs),
    DebugSyncDialog { remote_name: String, last_writer: String },
    DebugVersionIncompat { read: bool },
    DebugPskInput,
    /// Configure backends.
    BackendsConfig(BackendsArgs),
}

#[derive(Debug, Clone)]
pub enum BackendsArgs {
    Add {
        name: String,
        ty: BackendType,
        root: String,
        set_default: bool,
        webdav_url: Option<String>,
        webdav_username: Option<String>,
    },
    Remove { name: String },
    List,
    SetDefault { name: String },
}

/// Arguments of the launch subcommand.
#[derive(Debug, Clone)]
pub struct LaunchArgs {
    pub platform: PlatformOpt,
    /// Do not upload after the game exits.
    pub no_upload: bool,
    /// Do not download before the game starts.
    pub no_download: bool,
    /// A Steam app id to find the game in the manifest by.
    pub manifest_app_id_override: Option<SteamId>,
    /// The game's own command line.
    pub command: Vec<String>,
}

#[derive(Debug, Clone, Copy, PartialEq, Eq, Structural, Hash)]
pub enum PlatformOpt {
    Steam,
    Umu,
    Auto,
}

#[derive(Debug, Clone)]
pub struct FsBackendArgs {
    pub fs_backend: bool,
    pub root: String,
}

/// The last segment of a path, where it has one.
pub open spec fn basename(p: Seq<char>) -> Option<Seq<char>> {
    if segments(p).len() > 0 {
        Some(segments(p).last())
    } else {
        None
    }
}

/// Whether some token of `cmd` starts with `AppId=`.
pub open spec fn has_app_id_token(cmd: Seq<String>) -> bool {
    exists|i: int| 0 <= i < cmd.len() && (#[trigger] cmd[i])@.len() >= 6 && cmd[i]@.subrange(0, 6) == "AppId="@
}

/// Whether the first token of `cmd` runs a Wine runner: `umu-run` or `wine`.
pub open spec fn runs_wine_runner(cmd: Seq<String>) -> bool {
    cmd.len() > 0 && (basename(cmd[0]@) == Some("umu-run"@) || basename(cmd[0]@) == Some("wine"@))
}

/// The platform a launch runs on: the forced one, else Steam where a token
/// carries an app id, else Umu where the command is a Wine runner.
pub open spec fn platform_of(opt: PlatformOpt, cmd: Seq<String>) -> Option<PlatformOpt> {
    match opt {
        PlatformOpt::Auto => if has_app_id_token(cmd) {
            Some(PlatformOpt::Steam)
        } else if runs_wine_runner(cmd) {
            Some(PlatformOpt::Umu)
        } else {
            None
        },
        v => Some(v),
    }
}

fn is_wine_runner(token: &String) -> (r: bool)
    ensures
        r == (basename(token@) == Some("umu-run"@) || basename(token@) == Some("wine"@)),
{
    let segs = crate::paths::split_segments(&chars_of(token.as_str()));
    if segs.len() == 0 {
        return false;
    }
    let last = &segs[segs.len() - 1];
    assert(crate::paths::views(segs@).last() == last@);
    chars_are(last, "umu-run") || chars_are(last, "wine")
}

impl LaunchArgs {
    /// The platform, with `Auto` resolved; `None` where it cannot be.
    pub fn resolve_platform(&self) -> (r: Option<PlatformOpt>)
        ensures
            r == platform_of(self.platform, self.command@),
    {
        match self.platform {
            PlatformOpt::Auto => {
                let prefix = chars_of("AppId=");
                proof {
                    reveal_strlit("AppId=");
                }
                let mut i: usize = 0;
                while i < self.command.len()
                    invariant
                        prefix@ == "AppId="@,
                        self.platform == PlatformOpt::Auto,
                        prefix@.len() == 6,
                        i <= self.command@.len(),
                        forall|j: int| 0 <= j < i ==> !((#[trigger] self.command@[j])@.len() >= 6
                            && self.command@[j]@.subrange(0, 6) == "AppId="@),
                    decreases self.command.len() - i,
                {
                    if starts_with(&chars_of(self.command[i].as_str()), &prefix) {
                        assert(self.command@[i as int]@.subrange(0, 6) == "AppId="@);
                        assert(has_app_id_token(self.command@));
                        return Some(PlatformOpt::Steam);
                    }
                    i = i + 1;
                }
                if self.command.len() > 0 && is_wine_runner(&self.command[0]) {
                    Some(PlatformOpt::Umu)
                } else {
                    None
                }
            },
            v => Some(v),
        }
    }
}

} // verus!
