//! A launch from start to end: download, run the game, upload. The decisions
//! are a state machine; the program performs each action and reports back.
use vstd::prelude::*;
use crate::args::LaunchArgs;
use crate::backends::StorageBackend;
use crate::config::Config;
use crate::manifest::GameManifests;
use crate::platform::{LaunchError, LauncherEnv, PlatformInfo, launch_resolves, resolve_launch};
use crate::text::{chars_of, string_of};
use crate::ui::SyncChoices;
use crate::version::{Version, check_version_compat_read, check_version_compat_write, crate_version, curr_crate_ver, read_compatible, write_compatible};

verus! {

/// A launch tied to its game and the backend it syncs with.
#[derive(Debug, Clone)]
pub struct LaunchInfo {
    pub platform: PlatformInfo,
    pub backend: StorageBackend,
    /// The backend's name.
    pub bname: String,
    /// The game's index in the manifest.
    pub game: usize,
    pub game_name: String,
}

impl LaunchInfo {
    /// Ties the launch to its game as `resolve_launch` does, and to the default backend.
    pub fn new(cfg: &Config, manifests: &GameManifests, largs: &LaunchArgs, env: &LauncherEnv) -> (r: Result<LaunchInfo, LaunchError>)
        ensures
            match r {
                Ok(l) => launch_resolves(manifests@, *largs, *env, Ok((l.platform, l.game))) && l.game_name@
                    == manifests@[l.game as int].0@ && l.bname@ == cfg.default_backend@ && match crate::config::backend_named(
                    cfg.backends@,
                    cfg.default_backend@,
                ) {
                    Some(i) => crate::backends::is_store_for(cfg.backends@[i], l.game_name@, l.backend),
                    None => false,
                },
                Err(LaunchError::NoDefaultBackend) => crate::config::backend_named(cfg.backends@, cfg.default_backend@)
                    is None && exists|res: (PlatformInfo, usize)| launch_resolves(manifests@, *largs, *env, Ok(res)),
                Err(e) => launch_resolves(manifests@, *largs, *env, Err(e)),
            },
    {
        let (platform, game) = resolve_launch(manifests, largs, env)?;
        let b = match cfg.find_backend(&cfg.default_backend) {
            Some(i) => {
                proof {
                    crate::config::lemma_backend_named(cfg.backends@, cfg.default_backend@, i as int);
                }
                i
            },
            None => return Err(LaunchError::NoDefaultBackend),
        };
        let game_name = string_of(&chars_of(manifests[game].0.as_str()));
        let backend = cfg.backends[b].to_backend(game_name.as_str());
        Ok(LaunchInfo { platform, backend, bname: string_of(&chars_of(cfg.backends[b].name.as_str())), game, game_name })
    }
}

/// Flags of a launch that steer the state machine.
#[derive(Debug, Clone, Copy, PartialEq, Eq, Structural)]
pub struct LaunchOptions {
    /// Write nothing to any backend.
    pub dry_run: bool,
    /// Do not upload after the game exits.
    pub no_upload: bool,
    /// Do not download before the game starts.
    pub no_download: bool,
}

/// What the remote metadata says, as far as the decisions need it.
#[derive(Debug, Clone, Copy, PartialEq, Eq, Structural)]
pub struct MetadataSummary {
    /// The version that wrote it.
    pub version: Version,
    /// Whether a local file is newer than the remote copy.
    pub conflict: bool,
}

#[derive(Debug, Clone, Copy, PartialEq, Eq, Structural)]
pub enum LaunchState {
    Idle,
    AwaitUploadOnlyConfirm,
    AwaitMetadata,
    AwaitConflictChoice,
    Downloading,
    Running,
    AwaitUploadMetadata,
    Uploading,
    Done,
    UserAborted,
    /// The remote copy was written by a version this one may not read
    /// (`is_read`) or write over.
    IncompatibleVersion { is_read: bool },
}

#[derive(Debug, Clone, Copy, PartialEq, Eq, Structural)]
pub enum LaunchEvent {
    Start,
    UploadOnlyAnswer(bool),
    /// The remote metadata before the game runs; `None` where there is none.
    Metadata(Option<MetadataSummary>),
    ConflictAnswer(SyncChoices),
    DownloadDone,
    /// The game exited, whatever its status.
    ChildExited,
    /// The version that wrote the remote metadata, read before uploading.
    UploadMetadata(Option<Version>),
    UploadDone,
}

#[derive(Debug, Clone, Copy, PartialEq, Eq, Structural)]
pub enum LaunchAction {
    AskUploadOnly,
    ReadMetadata,
    AskConflict,
    Download { force: bool },
    SpawnChild,
    ReadMetadataForUpload,
    /// Write the metadata, then the archive.
    Upload,
    ShowIncompatible { is_read: bool },
    Exit,
    Nothing,
}

/// The state after the game exits: upload unless told not to.
pub open spec fn after_child(opts: LaunchOptions) -> (LaunchState, LaunchAction) {
    if opts.dry_run || opts.no_upload {
        (LaunchState::Done, LaunchAction::Exit)
    } else {
        (LaunchState::AwaitUploadMetadata, LaunchAction::ReadMetadataForUpload)
    }
}

/// The next state and action. Absent metadata skips the download; metadata this
/// version may not read stops the launch; a conflict is put to the user; the
/// game's exit status does not stop the upload; metadata this version may not
/// write over stops the upload. An event that does not fit the state changes nothing.
pub open spec fn next(s: LaunchState, e: LaunchEvent, opts: LaunchOptions) -> (LaunchState, LaunchAction) {
    match (s, e) {
        (LaunchState::Idle, LaunchEvent::Start) => if opts.no_download {
            (LaunchState::AwaitUploadOnlyConfirm, LaunchAction::AskUploadOnly)
        } else if opts.dry_run {
            (LaunchState::Running, LaunchAction::SpawnChild)
        } else {
            (LaunchState::AwaitMetadata, LaunchAction::ReadMetadata)
        },
        (LaunchState::AwaitUploadOnlyConfirm, LaunchEvent::UploadOnlyAnswer(yes)) => if yes {
            (LaunchState::Running, LaunchAction::SpawnChild)
        } else {
            (LaunchState::UserAborted, LaunchAction::Exit)
        },
        (LaunchState::AwaitMetadata, LaunchEvent::Metadata(m)) => match m {
            None => (LaunchState::Running, LaunchAction::SpawnChild),
            Some(m) => if !read_compatible(crate_version(), m.version) {
                (LaunchState::IncompatibleVersion { is_read: true }, LaunchAction::ShowIncompatible { is_read: true })
            } else if m.conflict {
                (LaunchState::AwaitConflictChoice, LaunchAction::AskConflict)
            } else {
                (LaunchState::Downloading, LaunchAction::Download { force: false })
            },
        },
        (LaunchState::AwaitConflictChoice, LaunchEvent::ConflictAnswer(c)) => match c {
            SyncChoices::Download => (LaunchState::Downloading, LaunchAction::Download { force: true }),
            SyncChoices::Continue => (LaunchState::Running, LaunchAction::SpawnChild),
            SyncChoices::Exit => (LaunchState::UserAborted, LaunchAction::Exit),
        },
        (LaunchState::Downloading, LaunchEvent::DownloadDone) => (LaunchState::Running, LaunchAction::SpawnChild),
        (LaunchState::Running, LaunchEvent::ChildExited) => after_child(opts),
        (LaunchState::AwaitUploadMetadata, LaunchEvent::UploadMetadata(v)) => match v {
            Some(v) if !write_compatible(crate_version(), v) => (
                LaunchState::IncompatibleVersion { is_read: false },
                LaunchAction::ShowIncompatible { is_read: false },
            ),
            _ => (LaunchState::Uploading, LaunchAction::Upload),
        },
        (LaunchState::Uploading, LaunchEvent::UploadDone) => (LaunchState::Done, LaunchAction::Exit),
        _ => (s, LaunchAction::Nothing),
    }
}

/// One step of a launch.
pub fn step(s: LaunchState, e: LaunchEvent, opts: LaunchOptions) -> (r: (LaunchState, LaunchAction))
    ensures
        r == next(s, e, opts),
{
    match (s, e) {
        (LaunchState::Idle, LaunchEvent::Start) => if opts.no_download {
            (LaunchState::AwaitUploadOnlyConfirm, LaunchAction::AskUploadOnly)
        } else if opts.dry_run {
            (LaunchState::Running, LaunchAction::SpawnChild)
        } else {
            (LaunchState::AwaitMetadata, LaunchAction::ReadMetadata)
        },
        (LaunchState::AwaitUploadOnlyConfirm, LaunchEvent::UploadOnlyAnswer(yes)) => if yes {
            (LaunchState::Running, LaunchAction::SpawnChild)
        } else {
            (LaunchState::UserAborted, LaunchAction::Exit)
        },
        (LaunchState::AwaitMetadata, LaunchEvent::Metadata(m)) => match m {
            None => (LaunchState::Running, LaunchAction::SpawnChild),
            Some(m) => if !check_version_compat_read(&curr_crate_ver(), &m.version) {
                (LaunchState::IncompatibleVersion { is_read: true }, LaunchAction::ShowIncompatible { is_read: true })
            } else if m.conflict {
                (LaunchState::AwaitConflictChoice, LaunchAction::AskConflict)
            } else {
                (LaunchState::Downloading, LaunchAction::Download { force: false })
            },
        },
        (LaunchState::AwaitConflictChoice, LaunchEvent::ConflictAnswer(c)) => match c {
            SyncChoices::Download => (LaunchState::Downloading, LaunchAction::Download { force: true }),
            SyncChoices::Continue => (LaunchState::Running, LaunchAction::SpawnChild),
            SyncChoices::Exit => (LaunchState::UserAborted, LaunchAction::Exit),
        },
        (LaunchState::Downloading, LaunchEvent::DownloadDone) => (LaunchState::Running, LaunchAction::SpawnChild),
        (LaunchState::Running, LaunchEvent::ChildExited) => if opts.dry_run || opts.no_upload {
            (LaunchState::Done, LaunchAction::Exit)
        } else {
            (LaunchState::AwaitUploadMetadata, LaunchAction::ReadMetadataForUpload)
        },
        (LaunchState::AwaitUploadMetadata, LaunchEvent::UploadMetadata(v)) => match v {
            Some(v) => if !check_version_compat_write(&curr_crate_ver(), &v) {
                (LaunchState::IncompatibleVersion { is_read: false }, LaunchAction::ShowIncompatible { is_read: false })
            } else {
                (LaunchState::Uploading, LaunchAction::Upload)
            },
            None => (LaunchState::Uploading, LaunchAction::Upload),
        },
        (LaunchState::Uploading, LaunchEvent::UploadDone) => (LaunchState::Done, LaunchAction::Exit),
        _ => (s, LaunchAction::Nothing),
    }
}

/// A download is only ever asked for without force where no conflict was
/// found, and an upload only where the remote copy's writer may be written over.
pub proof fn lemma_launch_safety(s: LaunchState, e: LaunchEvent, opts: LaunchOptions)
    ensures
        next(s, e, opts).1 == (LaunchAction::Download { force: false }) ==> (e matches LaunchEvent::Metadata(Some(
            m,
        )) && !m.conflict && read_compatible(crate_version(), m.version)),
        next(s, e, opts).1 == LaunchAction::Upload ==> (e matches LaunchEvent::UploadMetadata(v) && (v matches Some(
            v,
        ) ==> write_compatible(crate_version(), v))),
        (s == LaunchState::Running && e == LaunchEvent::ChildExited && !opts.dry_run && !opts.no_upload) ==> next(
            s,
            e,
            opts,
        ).1 == LaunchAction::ReadMetadataForUpload,
{
}

} // verus!
