//! The sync manager: which files to sync, whether to download, what to upload,
//! and how archive members map back to local files.
use vstd::prelude::*;
use crate::backends::{FileMetaEntry, FileMetaTable, SyncMetadata, UtcTime};
use crate::config::{SteamId, SteamId64, id3_of};
use crate::manifest::{
    self, FileTag, GameManifest, HostDirs, TemplateError, TemplateFault, TemplateInfo, TemplatePath,
    all_sat, has_save_tag, opt_view, preds_sat, resolve,
};
use crate::paths::{
    components, extract_postfix, is_path_prefix, join, join_good, join_no_clobber, path_components,
    path_join, postfix_of, views,
};
use crate::ui::SyncIssueInfo;
use crate::text::{chars_eq, chars_of, decimal_digits, string_of, u32_to_decimal};

verus! {

/// One file to sync: where it is here, its name in the archive, and the
/// template that names it on any host.
#[derive(Debug, Clone)]
pub struct FileInfo {
    pub local_path: String,
    pub remote_path: String,
    pub template: TemplatePath,
    pub tags: Vec<FileTag>,
}

/// A save location of the manifest, resolved for this host and for the archive.
#[derive(Debug, Clone)]
pub struct SaveRoot {
    pub template: TemplatePath,
    pub local_root: String,
    pub remote_root: String,
    pub tags: Vec<FileTag>,
}

/// The save locations of a game, before the files below them are known.
#[derive(Debug, Clone)]
pub struct SyncPlan {
    pub roots: Vec<SaveRoot>,
    pub local_info: TemplateInfo,
    pub host: HostDirs,
}

/// The files of a game to sync, with the values its templates resolve against.
#[derive(Debug, Clone)]
pub struct SyncMgr {
    pub files: Vec<FileInfo>,
    pub local_info: TemplateInfo,
    pub host: HostDirs,
    /// Name of the backend, for messages.
    pub remote_name: String,
}

/// Where Steam keeps an installed app.
#[derive(Debug, Clone)]
pub struct SteamAppLocation {
    /// The library folder that holds the app.
    pub library_path: String,
    /// The app's install directory.
    pub app_dir: String,
    /// The 64-bit id of the account that last ran the app.
    pub last_user: Option<u64>,
}

/// Why a sync step failed.
#[derive(Debug, Clone)]
pub enum SyncError {
    Template(TemplateError),
    /// The archive holds a member that the file table does not list.
    ArchiveMembershipViolation(String),
    /// A walked file does not lie below the location it was walked from.
    OutsideRoot(String),
    /// The archive could not be encoded or decoded.
    Codec,
}

fn lit(s: &str) -> (r: String)
    ensures
        r@ == s@,
{
    string_of(&chars_of(s))
}

fn some_lit(s: &str) -> (r: Option<String>)
    ensures
        opt_view(r) == Some(s@),
{
    Some(lit(s))
}

fn copy_opt(o: &Option<String>) -> (r: Option<String>)
    ensures
        opt_view(r) == opt_view(*o),
{
    match o {
        Some(s) => Some(lit(s.as_str())),
        None => None,
    }
}

/// The values that archive names are made with: each variable stands for its
/// own name, so names agree across hosts.
pub open spec fn is_remote_info(info: TemplateInfo, store_user_id: Option<Seq<char>>, install_dir: Option<Seq<char>>) -> bool {
    &&& info.win_prefix@ == "win_prefix"@
    &&& info.win_user@ == "steamuser"@
    &&& opt_view(info.base_dir) == Some("base_dir"@)
    &&& opt_view(info.root) == Some("steam_root"@)
    &&& opt_view(info.store_user_id) == store_user_id
    &&& opt_view(info.home_dir) == Some("home_dir"@)
    &&& opt_view(info.xdg_config) == Some("xdg_config"@)
    &&& opt_view(info.xdg_data) == Some("xdg_data"@)
    &&& opt_view(info.install_dir) == install_dir
}

pub fn remote_template_info(store_user_id: &Option<String>, install_dir: &Option<String>) -> (r: TemplateInfo)
    ensures
        is_remote_info(r, opt_view(*store_user_id), opt_view(*install_dir)),
{
    TemplateInfo {
        win_prefix: lit("win_prefix"),
        win_user: lit("steamuser"),
        base_dir: some_lit("base_dir"),
        root: some_lit("steam_root"),
        store_user_id: copy_opt(store_user_id),
        home_dir: some_lit("home_dir"),
        xdg_config: some_lit("xdg_config"),
        xdg_data: some_lit("xdg_data"),
        install_dir: copy_opt(install_dir),
    }
}

/// The game's install folder: as the manifest names it, else the game's name.
pub open spec fn install_dir_of(game_name: Seq<char>, manifest: GameManifest) -> Seq<char> {
    match manifest.install_dir {
        Some(d) => d.name@,
        None => game_name,
    }
}

pub fn install_dir_for(game_name: &str, manifest: &GameManifest) -> (r: String)
    ensures
        r@ == install_dir_of(game_name@, *manifest),
{
    match &manifest.install_dir {
        Some(d) => lit(d.name.as_str()),
        None => lit(game_name),
    }
}

/// `<a>/<b>` as path joins.
pub open spec fn join2(a: Seq<char>, b: Seq<char>, c: Seq<char>) -> Seq<char> {
    path_join(path_join(a, b), c)
}

/// The values a Steam app's templates resolve against on this host.
pub open spec fn is_steam_info(info: TemplateInfo, id: u32, loc: SteamAppLocation, install_dir: Seq<char>) -> bool {
    &&& info.win_prefix@ == path_join(
        join2(join2(loc.library_path@, "steamapps"@, "compatdata"@), decimal_digits(id as nat), "pfx"@),
        "drive_c"@,
    )
    &&& info.win_user@ == "steamuser"@
    &&& opt_view(info.base_dir) == Some(loc.app_dir@)
    &&& opt_view(info.root) == Some(loc.library_path@)
    &&& opt_view(info.store_user_id) == match loc.last_user {
        Some(u) => Some(decimal_digits(id3_of(u) as nat)),
        None => None,
    }
    &&& info.home_dir is None && info.xdg_config is None && info.xdg_data is None
    &&& opt_view(info.install_dir) == Some(install_dir)
}

fn join_lit(a: &String, b: &str) -> (r: String)
    ensures
        r@ == path_join(a@, b@),
{
    join(a.as_str(), b)
}

pub fn steam_local_info(app_id: SteamId, loc: &SteamAppLocation, install_dir: &String) -> (r: TemplateInfo)
    ensures
        is_steam_info(r, app_id.0, *loc, install_dir@),
{
    let p = join_lit(&join_lit(&join_lit(&loc.library_path, "steamapps"), "compatdata"), u32_to_decimal(app_id.id()).as_str());
    let win_prefix = join_lit(&join_lit(&p, "pfx"), "drive_c");
    let store_user_id = match loc.last_user {
        Some(u) => Some(u32_to_decimal(SteamId64::new(u).to_id3())),
        None => None,
    };
    TemplateInfo {
        win_prefix,
        win_user: lit("steamuser"),
        base_dir: Some(lit(loc.app_dir.as_str())),
        root: Some(lit(loc.library_path.as_str())),
        store_user_id,
        home_dir: None,
        xdg_config: None,
        xdg_data: None,
        install_dir: Some(lit(install_dir.as_str())),
    }
}

/// The values an Umu game's templates resolve against on this host: the drive
/// under the Wine prefix, the Wine user's folder as home, and Heroic's game
/// folder as root when Heroic launched it.
pub open spec fn is_umu_info(info: TemplateInfo, wine_prefix: Seq<char>, heroic_home: Option<Seq<char>>, install_dir: Seq<char>) -> bool {
    let drive = join2(wine_prefix, "pfx"@, "drive_c"@);
    &&& info.win_prefix@ == drive
    &&& info.win_user@ == "steamuser"@
    &&& info.base_dir is None
    &&& opt_view(info.root) == match heroic_home {
        Some(h) => Some(join2(h, "Games"@, "Heroic"@)),
        None => None,
    }
    &&& info.store_user_id is None
    &&& opt_view(info.home_dir) == Some(join2(drive, "users"@, "steamuser"@))
    &&& info.xdg_config is None && info.xdg_data is None
    &&& opt_view(info.install_dir) == Some(install_dir)
}

/// `heroic_home` is the user's home directory when Heroic launched the game, else `None`.
pub fn umu_local_info(wine_prefix: &String, heroic_home: &Option<String>, install_dir: &String) -> (r: TemplateInfo)
    ensures
        is_umu_info(r, wine_prefix@, opt_view(*heroic_home), install_dir@),
{
    let drive = join_lit(&join_lit(wine_prefix, "pfx"), "drive_c");
    let home = join_lit(&join_lit(&drive, "users"), "steamuser");
    let root = match heroic_home {
        Some(h) => Some(join_lit(&join_lit(h, "Games"), "Heroic")),
        None => None,
    };
    TemplateInfo {
        win_prefix: drive,
        win_user: lit("steamuser"),
        base_dir: None,
        root,
        store_user_id: None,
        home_dir: Some(home),
        xdg_config: None,
        xdg_data: None,
        install_dir: Some(lit(install_dir.as_str())),
    }
}

/// A save root as plain values: template, local root, remote root, tags.
pub open spec fn root_view(r: SaveRoot) -> (Seq<char>, Seq<char>, Seq<char>, Seq<FileTag>) {
    (r.template@, r.local_root@, r.remote_root@, r.tags@)
}

pub open spec fn root_views(rs: Seq<SaveRoot>) -> Seq<(Seq<char>, Seq<char>, Seq<char>, Seq<FileTag>)> {
    rs.map_values(|r: SaveRoot| root_view(r))
}

/// Whether a manifest file entry is synced: its predicates hold under Wine and it is tagged as a save.
pub open spec fn is_synced(cfg: manifest::FileConfig) -> bool {
    all_sat(cfg.preds@, crate::platform::wine_platform()) && cfg.tags@.contains(FileTag::Save)
}

/// The save roots of the first `n` manifest file entries: each synced entry
/// resolved for this host and for the archive; the first failure is the result.
pub open spec fn roots_of(
    files: Seq<(TemplatePath, manifest::FileConfig)>,
    n: int,
    local: TemplateInfo,
    remote: TemplateInfo,
    host: HostDirs,
) -> Result<Seq<(Seq<char>, Seq<char>, Seq<char>, Seq<FileTag>)>, TemplateFault>
    decreases n,
{
    if n <= 0 {
        Ok(seq![])
    } else {
        match roots_of(files, n - 1, local, remote, host) {
            Err(e) => Err(e),
            Ok(prev) => {
                let (t, cfg) = files[n - 1];
                if !is_synced(cfg) {
                    Ok(prev)
                } else {
                    match resolve(t@, local, host) {
                        Err(e) => Err(e),
                        Ok(l) => match resolve(t@, remote, host) {
                            Err(e) => Err(e),
                            Ok(r) => Ok(prev.push((t@, l, r, cfg.tags@))),
                        },
                    }
                }
            },
        }
    }
}

proof fn lemma_roots_err_sticks(
    files: Seq<(TemplatePath, manifest::FileConfig)>,
    k: int,
    n: int,
    local: TemplateInfo,
    remote: TemplateInfo,
    host: HostDirs,
)
    requires
        0 <= k <= n,
        roots_of(files, k, local, remote, host) is Err,
    ensures
        roots_of(files, n, local, remote, host) == roots_of(files, k, local, remote, host),
    decreases n - k,
{
    if n > k {
        lemma_roots_err_sticks(files, k, n - 1, local, remote, host);
    }
}

/// The save roots of a manifest entry, resolved against `local` for this host
/// and `remote` for the archive.
pub fn plan_roots(manifest: &GameManifest, local: &TemplateInfo, remote: &TemplateInfo, host: &HostDirs) -> (r: Result<
    Vec<SaveRoot>,
    TemplateError,
>)
    ensures
        match r {
            Ok(v) => roots_of(manifest.files@, manifest.files@.len() as int, *local, *remote, *host) == Ok::<
                Seq<(Seq<char>, Seq<char>, Seq<char>, Seq<FileTag>)>,
                TemplateFault,
            >(root_views(v@)),
            Err(e) => roots_of(manifest.files@, manifest.files@.len() as int, *local, *remote, *host) == Err::<
                Seq<(Seq<char>, Seq<char>, Seq<char>, Seq<FileTag>)>,
                TemplateFault,
            >(e@),
        },
{
    let wine = manifest::PlatformInfo { store: None, wine: true };
    let mut out: Vec<SaveRoot> = Vec::new();
    let mut i: usize = 0;
    assert(root_views(out@) =~= seq![]);
    while i < manifest.files.len()
        invariant
            wine == crate::platform::wine_platform(),
            i <= manifest.files@.len(),
            roots_of(manifest.files@, i as int, *local, *remote, *host) == Ok::<
                Seq<(Seq<char>, Seq<char>, Seq<char>, Seq<FileTag>)>,
                TemplateFault,
            >(root_views(out@)),
        decreases manifest.files.len() - i,
    {
        let (t, cfg) = (&manifest.files[i].0, &manifest.files[i].1);
        if preds_sat(&cfg.preds, wine) && has_save_tag(&cfg.tags) {
            let l = t.apply_substs_with(local, host);
            let l = match l {
                Ok(l) => l,
                Err(e) => {
                    proof {
                        lemma_roots_err_sticks(manifest.files@, i + 1, manifest.files@.len() as int, *local, *remote, *host);
                    }
                    return Err(e);
                },
            };
            let rr = t.apply_substs_with(remote, host);
            let rr = match rr {
                Ok(x) => x,
                Err(e) => {
                    proof {
                        lemma_roots_err_sticks(manifest.files@, i + 1, manifest.files@.len() as int, *local, *remote, *host);
                    }
                    return Err(e);
                },
            };
            let ghost before = out@;
            let tags = copy_tags(&cfg.tags);
            out.push(SaveRoot { template: TemplatePath { raw: lit(t.raw.as_str()) }, local_root: l, remote_root: rr, tags });
            assert(root_views(out@) =~= root_views(before).push((t@, l@, rr@, cfg.tags@)));
        }
        i = i + 1;
    }
    Ok(out)
}

fn copy_tags(tags: &Vec<FileTag>) -> (r: Vec<FileTag>)
    ensures
        r@ == tags@,
{
    let mut out: Vec<FileTag> = Vec::new();
    let mut i: usize = 0;
    while i < tags.len()
        invariant
            i <= tags@.len(),
            out@ == tags@.subrange(0, i as int),
        decreases tags.len() - i,
    {
        out.push(tags[i]);
        i = i + 1;
    }
    assert(out@ =~= tags@);
    out
}

/// A file as plain values: local path, archive name, template, tags.
pub open spec fn file_view(f: FileInfo) -> (Seq<char>, Seq<char>, Seq<char>, Seq<FileTag>) {
    (f.local_path@, f.remote_path@, f.template@, f.tags@)
}

pub open spec fn file_views(fs: Seq<FileInfo>) -> Seq<(Seq<char>, Seq<char>, Seq<char>, Seq<FileTag>)> {
    fs.map_values(|f: FileInfo| file_view(f))
}

/// The file at local path `p` below a save root: its archive name and template
/// are the root's, extended by the part of `p` below the local root.
pub open spec fn file_of(root: (Seq<char>, Seq<char>, Seq<char>, Seq<FileTag>), p: Seq<char>) -> (Seq<char>, Seq<char>, Seq<char>, Seq<FileTag>) {
    let post = postfix_of(root.1, p);
    (p, join_no_clobber(root.2, post), join_no_clobber(root.0, post), root.3)
}

/// The files found below one save root, in walk order.
pub open spec fn root_files(root: (Seq<char>, Seq<char>, Seq<char>, Seq<FileTag>), ps: Seq<String>) -> Seq<(Seq<char>, Seq<char>, Seq<char>, Seq<FileTag>)> {
    ps.map_values(|p: String| file_of(root, p@))
}

/// The files found below the first `n` save roots, root by root.
pub open spec fn walk_files(roots: Seq<(Seq<char>, Seq<char>, Seq<char>, Seq<FileTag>)>, walked: Seq<Vec<String>>, n: int) -> Seq<(Seq<char>, Seq<char>, Seq<char>, Seq<FileTag>)>
    decreases n,
{
    if n <= 0 {
        seq![]
    } else {
        walk_files(roots, walked, n - 1) + root_files(roots[n - 1], walked[n - 1]@)
    }
}

/// Whether every walked file lies below the root it was walked from.
pub open spec fn walked_under(roots: Seq<(Seq<char>, Seq<char>, Seq<char>, Seq<FileTag>)>, walked: Seq<Vec<String>>) -> bool {
    forall|i: int, j: int| 0 <= i < walked.len() && 0 <= j < walked[i]@.len() ==> is_path_prefix(roots[i].1, #[trigger] walked[i]@[j]@)
}

impl SyncPlan {
    /// The sync manager for the files found below each save root: `walked[i]`
    /// lists the files (not directories) below root `i`, empty where the root
    /// does not exist.
    pub fn into_manager(self, walked: &Vec<Vec<String>>, remote_name: String) -> (r: Result<SyncMgr, SyncError>)
        requires
            walked@.len() == self.roots@.len(),
        ensures
            match r {
                Ok(m) => walked_under(root_views(self.roots@), walked@) && file_views(m.files@) == walk_files(
                    root_views(self.roots@),
                    walked@,
                    walked@.len() as int,
                ) && m.local_info == self.local_info && m.host == self.host && m.remote_name@ == remote_name@,
                Err(e) => !walked_under(root_views(self.roots@), walked@) && e is OutsideRoot,
            },
    {
        let ghost rv = root_views(self.roots@);
        let mut files: Vec<FileInfo> = Vec::new();
        let mut i: usize = 0;
        while i < walked.len()
            invariant
                walked@.len() == self.roots@.len(),
                rv == root_views(self.roots@),
                i <= walked@.len(),
                file_views(files@) == walk_files(rv, walked@, i as int),
                forall|a: int, b: int| 0 <= a < i && 0 <= b < walked@[a]@.len() ==> is_path_prefix(rv[a].1, #[trigger] walked@[a]@[b]@),
            decreases walked.len() - i,
        {
            let root = &self.roots[i];
            let ps = &walked[i];
            let ghost base = file_views(files@);
            let mut j: usize = 0;
            while j < ps.len()
                invariant
                    rv == root_views(self.roots@),
                    i < walked@.len(),
                    walked@.len() == self.roots@.len(),
                    ps == &walked@[i as int],
                    root == &self.roots@[i as int],
                    j <= ps@.len(),
                    file_views(files@) == base + root_files(rv[i as int], ps@.subrange(0, j as int)),
                    forall|b: int| 0 <= b < j ==> is_path_prefix(rv[i as int].1, #[trigger] ps@[b]@),
                decreases ps.len() - j,
            {
                let p = &ps[j];
                if !crate::paths::is_path_prefix_exec(root.local_root.as_str(), p.as_str()) {
                    return Err(SyncError::OutsideRoot(lit(p.as_str())));
                }
                let post = extract_postfix(root.local_root.as_str(), p.as_str());
                let remote_path = join_good(root.remote_root.as_str(), post.as_str());
                let template = join_good(root.template.as_raw_path(), post.as_str());
                let ghost before = files@;
                files.push(FileInfo { local_path: lit(p.as_str()), remote_path, template: TemplatePath { raw: template }, tags: copy_tags(&root.tags) });
                assert(file_views(files@) =~= file_views(before).push(file_of(rv[i as int], p@)));
                assert(ps@.subrange(0, j + 1) =~= ps@.subrange(0, j as int).push(*p));
                assert(root_files(rv[i as int], ps@.subrange(0, j + 1)) =~= root_files(rv[i as int], ps@.subrange(0, j as int)).push(file_of(rv[i as int], p@)));
                j = j + 1;
            }
            assert(ps@.subrange(0, ps@.len() as int) =~= ps@);
            i = i + 1;
        }
        Ok(SyncMgr { files, local_info: self.local_info, host: self.host, remote_name })
    }
}

/// Whether two paths have the same components.
pub open spec fn same_path(a: Seq<char>, b: Seq<char>) -> bool {
    components(a) == components(b)
}

fn same_path_exec(a: &str, b: &str) -> (r: bool)
    ensures
        r == same_path(a@, b@),
{
    let ca = path_components(&chars_of(a));
    let cb = path_components(&chars_of(b));
    if ca.len() != cb.len() {
        assert(views(ca@).len() != views(cb@).len());
        return false;
    }
    let mut i: usize = 0;
    while i < ca.len()
        invariant
            views(ca@) == components(a@),
            views(cb@) == components(b@),
            ca@.len() == cb@.len(),
            i <= ca@.len(),
            forall|j: int| 0 <= j < i ==> ca@[j]@ == cb@[j]@,
        decreases ca.len() - i,
    {
        if !chars_eq(&ca[i], &cb[i]) {
            assert(views(ca@)[i as int] != views(cb@)[i as int]);
            assert(views(ca@) != views(cb@));
            return false;
        }
        i = i + 1;
    }
    assert(views(ca@) =~= views(cb@));
    true
}

/// The latest of the times, if there are any.
pub open spec fn latest(ts: Seq<UtcTime>) -> Option<i64>
    decreases ts.len(),
{
    if ts.len() == 0 {
        None
    } else {
        match latest(ts.drop_last()) {
            Some(t) => if t >= ts.last().nanos {
                Some(t)
            } else {
                Some(ts.last().nanos)
            },
            None => Some(ts.last().nanos),
        }
    }
}

/// The index of the first of the first `n` files whose local path is `p`.
pub open spec fn local_index(files: Seq<FileInfo>, p: Seq<char>, n: int) -> Option<int>
    decreases n,
{
    if n <= 0 {
        None
    } else {
        match local_index(files, p, n - 1) {
            Some(i) => Some(i),
            None => if same_path(files[n - 1].local_path@, p) {
                Some(n - 1)
            } else {
                None
            },
        }
    }
}

/// Whether the local file at `p` is one of the files and no older than `oldest`.
pub open spec fn is_fresh(files: Seq<FileInfo>, mtimes: Seq<UtcTime>, p: Seq<char>, oldest: UtcTime) -> bool {
    match local_index(files, p, files.len() as int) {
        Some(i) => mtimes[i].nanos >= oldest.nanos,
        None => false,
    }
}

/// Whether the first `n` table entries call for a download: some entry's file
/// is missing here or older than the archive's oldest file. Entries are looked
/// at in order, and the first failure to resolve one is the result.
pub open spec fn needs_upto(
    entries: Seq<FileMetaEntry>,
    n: int,
    files: Seq<FileInfo>,
    mtimes: Seq<UtcTime>,
    oldest: UtcTime,
    info: TemplateInfo,
    host: HostDirs,
) -> Result<bool, TemplateFault>
    decreases n,
{
    if n <= 0 {
        Ok(false)
    } else {
        match needs_upto(entries, n - 1, files, mtimes, oldest, info, host) {
            Err(e) => Err(e),
            Ok(true) => Ok(true),
            Ok(false) => match resolve(entries[n - 1].template@, info, host) {
                Err(e) => Err(e),
                Ok(p) => Ok(!is_fresh(files, mtimes, p, oldest)),
            },
        }
    }
}

/// An entry's file is in place when its template resolves to one of the files,
/// no older than `oldest`.
pub open spec fn entry_in_place(
    e: FileMetaEntry,
    files: Seq<FileInfo>,
    mtimes: Seq<UtcTime>,
    oldest: UtcTime,
    info: TemplateInfo,
    host: HostDirs,
) -> bool {
    resolve(e.template@, info, host) matches Ok(p) && is_fresh(files, mtimes, p, oldest)
}

/// No download is needed exactly when every entry's file is in place.
pub proof fn lemma_needs_download_iff_divergent(
    entries: Seq<FileMetaEntry>,
    n: int,
    files: Seq<FileInfo>,
    mtimes: Seq<UtcTime>,
    oldest: UtcTime,
    info: TemplateInfo,
    host: HostDirs,
)
    requires
        0 <= n <= entries.len(),
    ensures
        needs_upto(entries, n, files, mtimes, oldest, info, host) == Ok::<bool, TemplateFault>(false) <==> forall|i: int|
            0 <= i < n ==> entry_in_place(#[trigger] entries[i], files, mtimes, oldest, info, host),
    decreases n,
{
    if n > 0 {
        lemma_needs_download_iff_divergent(entries, n - 1, files, mtimes, oldest, info, host);
        if needs_upto(entries, n, files, mtimes, oldest, info, host) != Ok::<bool, TemplateFault>(false) {
            if needs_upto(entries, n - 1, files, mtimes, oldest, info, host) == Ok::<bool, TemplateFault>(false) {
                assert(!entry_in_place(entries[n - 1], files, mtimes, oldest, info, host));
            } else {
                let i = choose|i: int|
                    0 <= i < n - 1 && !entry_in_place(#[trigger] entries[i], files, mtimes, oldest, info, host);
                assert(!entry_in_place(entries[i], files, mtimes, oldest, info, host));
            }
        }
    }
}

/// The table entries for the first `n` files that exist: template and archive name.
pub open spec fn table_entries(files: Seq<FileInfo>, states: Seq<Option<UtcTime>>, n: int) -> Seq<(Seq<char>, Seq<char>)>
    decreases n,
{
    if n <= 0 {
        seq![]
    } else if states[n - 1] is Some {
        table_entries(files, states, n - 1).push((files[n - 1].template@, files[n - 1].remote_path@))
    } else {
        table_entries(files, states, n - 1)
    }
}

/// The earliest modification among the first `n` files that exist.
pub open spec fn oldest_of(states: Seq<Option<UtcTime>>, n: int) -> Option<i64>
    decreases n,
{
    if n <= 0 {
        None
    } else {
        match (oldest_of(states, n - 1), states[n - 1]) {
            (Some(a), Some(t)) => if t.nanos < a {
                Some(t.nanos)
            } else {
                Some(a)
            },
            (None, Some(t)) => Some(t.nanos),
            (a, None) => a,
        }
    }
}

pub open spec fn entry_views(es: Seq<FileMetaEntry>) -> Seq<(Seq<char>, Seq<char>)> {
    es.map_values(|e: FileMetaEntry| (e.template@, e.remote_path@))
}

/// The archive members for the first `n` files that exist: local path and archive name.
pub open spec fn members_of(files: Seq<FileInfo>, states: Seq<Option<UtcTime>>, n: int) -> Seq<(Seq<char>, Seq<char>)>
    decreases n,
{
    if n <= 0 {
        seq![]
    } else if states[n - 1] is Some {
        members_of(files, states, n - 1).push((files[n - 1].local_path@, files[n - 1].remote_path@))
    } else {
        members_of(files, states, n - 1)
    }
}

pub open spec fn pair_views(ps: Seq<(String, String)>) -> Seq<(Seq<char>, Seq<char>)> {
    ps.map_values(|p: (String, String)| (p.0@, p.1@))
}

/// The first table entry whose archive name is the path `p`.
pub open spec fn member_index(entries: Seq<FileMetaEntry>, p: Seq<char>, n: int) -> Option<int>
    decreases n,
{
    if n <= 0 {
        None
    } else {
        match member_index(entries, p, n - 1) {
            Some(i) => Some(i),
            None => if same_path(entries[n - 1].remote_path@, p) {
                Some(n - 1)
            } else {
                None
            },
        }
    }
}

/// The level that archives are compressed at.
pub const XZ_LEVEL: u32 = 5;

/// What the xz stream `data` decodes to, where it is a valid stream.
pub uninterp spec fn xz_decompressed(data: Seq<u8>) -> Option<Seq<u8>>;

/// Relies on `xz2::read::XzEncoder`: reading it to the end gives an xz stream
/// that decodes to `data`. Reading from memory does not fail.
#[verifier::external_body]
fn xz_compress(data: &Vec<u8>, level: u32) -> (r: Option<Vec<u8>>)
    requires
        level <= 9,
    ensures
        r is Some,
        r matches Some(v) ==> xz_decompressed(v@) == Some(data@),
{
    let mut out = Vec::new();
    match std::io::Read::read_to_end(&mut xz2::read::XzEncoder::new(data.as_slice(), level), &mut out) {
        Ok(_) => Some(out),
        Err(_) => None,
    }
}

/// Relies on `xz2::read::XzDecoder`: reading it to the end decodes the stream.
#[verifier::external_body]
fn xz_decompress(data: &Vec<u8>) -> (r: Option<Vec<u8>>)
    ensures
        r matches Some(v) ==> xz_decompressed(data@) == Some(v@),
        r is None ==> xz_decompressed(data@) is None,
{
    let mut out = Vec::new();
    match std::io::Read::read_to_end(&mut xz2::read::XzDecoder::new(data.as_slice()), &mut out) {
        Ok(_) => Some(out),
        Err(_) => None,
    }
}

impl SyncMgr {
    /// The sync plan for a Steam app: local values from where Steam keeps it,
    /// archive values by name, and the save roots of its manifest entry.
    pub fn from_steam_game(game_name: &str, manifest: &GameManifest, app_id: SteamId, loc: &SteamAppLocation) -> (r: Result<
        SyncPlan,
        TemplateError,
    >)
        ensures
            match r {
                Ok(p) => is_steam_info(p.local_info, app_id.0, *loc, install_dir_of(game_name@, *manifest)) && exists|
                    remote: TemplateInfo,
                |
                    is_remote_info(
                        remote,
                        opt_view(p.local_info.store_user_id),
                        Some(install_dir_of(game_name@, *manifest)),
                    ) && roots_of(manifest.files@, manifest.files@.len() as int, p.local_info, remote, p.host)
                        == Ok::<Seq<(Seq<char>, Seq<char>, Seq<char>, Seq<FileTag>)>, TemplateFault>(
                        root_views(p.roots@),
                    ),
                Err(e) => exists|local: TemplateInfo, remote: TemplateInfo, host: HostDirs|
                    is_steam_info(local, app_id.0, *loc, install_dir_of(game_name@, *manifest)) && is_remote_info(
                        remote,
                        opt_view(local.store_user_id),
                        Some(install_dir_of(game_name@, *manifest)),
                    ) && roots_of(manifest.files@, manifest.files@.len() as int, local, remote, host) == Err::<
                        Seq<(Seq<char>, Seq<char>, Seq<char>, Seq<FileTag>)>,
                        TemplateFault,
                    >(e@),
            },
    {
        let install_dir = install_dir_for(game_name, manifest);
        let local_info = steam_local_info(app_id, loc, &install_dir);
        let remote_info = remote_template_info(&local_info.store_user_id, &Some(lit(install_dir.as_str())));
        let host = HostDirs::detect();
        let roots = plan_roots(manifest, &local_info, &remote_info, &host)?;
        Ok(SyncPlan { roots, local_info, host })
    }

    /// The sync plan for a game run by Umu in `wine_prefix`; `heroic_home` is
    /// the user's home where Heroic launched it.
    pub fn from_umu_env(game_name: &str, manifest: &GameManifest, wine_prefix: &String, heroic_home: &Option<String>) -> (r: Result<
        SyncPlan,
        TemplateError,
    >)
        ensures
            match r {
                Ok(p) => is_umu_info(p.local_info, wine_prefix@, opt_view(*heroic_home), install_dir_of(game_name@, *manifest))
                    && exists|remote: TemplateInfo|
                    is_remote_info(remote, None, Some(install_dir_of(game_name@, *manifest))) && roots_of(
                        manifest.files@,
                        manifest.files@.len() as int,
                        p.local_info,
                        remote,
                        p.host,
                    ) == Ok::<Seq<(Seq<char>, Seq<char>, Seq<char>, Seq<FileTag>)>, TemplateFault>(root_views(p.roots@)),
                Err(e) => exists|local: TemplateInfo, remote: TemplateInfo, host: HostDirs|
                    is_umu_info(local, wine_prefix@, opt_view(*heroic_home), install_dir_of(game_name@, *manifest))
                        && is_remote_info(remote, None, Some(install_dir_of(game_name@, *manifest))) && roots_of(
                        manifest.files@,
                        manifest.files@.len() as int,
                        local,
                        remote,
                        host,
                    ) == Err::<Seq<(Seq<char>, Seq<char>, Seq<char>, Seq<FileTag>)>, TemplateFault>(e@),
            },
    {
        let install_dir = install_dir_for(game_name, manifest);
        let local_info = umu_local_info(wine_prefix, heroic_home, &install_dir);
        let remote_info = remote_template_info(&None, &Some(lit(install_dir.as_str())));
        let host = HostDirs::detect();
        let roots = plan_roots(manifest, &local_info, &remote_info, &host)?;
        Ok(SyncPlan { roots, local_info, host })
    }

    /// A conflict where some local file was modified after the remote copy was
    /// written; `mtimes[i]` is the modification time of file `i`.
    pub fn are_local_files_newer(&self, metadata: &SyncMetadata, mtimes: &Vec<UtcTime>) -> (r: Option<SyncIssueInfo>)
        requires
            mtimes@.len() == self.files@.len(),
        ensures
            r is Some <==> (latest(mtimes@) matches Some(t) && t > metadata.last_write_timestamp.nanos),
            r matches Some(info) ==> Some(info.local_time.nanos) == latest(mtimes@) && info.remote_time
                == metadata.last_write_timestamp && info.remote_name@ == self.remote_name@
                && info.remote_last_writer@ == metadata.last_write_hostname@,
    {
        let mut newest: Option<i64> = None;
        let mut i: usize = 0;
        while i < mtimes.len()
            invariant
                i <= mtimes@.len(),
                newest == latest(mtimes@.subrange(0, i as int)),
            decreases mtimes.len() - i,
        {
            assert(mtimes@.subrange(0, i + 1).drop_last() =~= mtimes@.subrange(0, i as int));
            let t = mtimes[i].nanos;
            newest = match newest {
                Some(n) => if n >= t {
                    Some(n)
                } else {
                    Some(t)
                },
                None => Some(t),
            };
            i = i + 1;
        }
        assert(mtimes@.subrange(0, mtimes@.len() as int) =~= mtimes@);
        match newest {
            Some(t) => if t > metadata.last_write_timestamp.nanos {
                Some(
                    SyncIssueInfo {
                        local_time: UtcTime { nanos: t },
                        remote_time: metadata.last_write_timestamp,
                        remote_name: lit(self.remote_name.as_str()),
                        remote_last_writer: lit(metadata.last_write_hostname.as_str()),
                    },
                )
            } else {
                None
            },
            None => None,
        }
    }

    fn local_index_exec(&self, p: &String) -> (r: Option<usize>)
        ensures
            match r {
                Some(i) => local_index(self.files@, p@, self.files@.len() as int) == Some(i as int) && i < self.files@.len(),
                None => local_index(self.files@, p@, self.files@.len() as int) is None,
            },
    {
        let mut i: usize = 0;
        while i < self.files.len()
            invariant
                i <= self.files@.len(),
                local_index(self.files@, p@, i as int) is None,
            decreases self.files.len() - i,
        {
            if same_path_exec(self.files[i].local_path.as_str(), p.as_str()) {
                proof {
                    lemma_local_index_sticks(self.files@, p@, i + 1, self.files@.len() as int);
                }
                return Some(i);
            }
            i = i + 1;
        }
        None
    }

    /// Whether the remote copy must be downloaded: some file of the table is
    /// missing here, or older than the oldest file of the archive;
    /// `mtimes[i]` is the modification time of file `i`.
    pub fn rhaid_lawrlwytho(&self, metadata: &SyncMetadata, mtimes: &Vec<UtcTime>) -> (r: Result<bool, TemplateError>)
        requires
            mtimes@.len() == self.files@.len(),
        ensures
            match r {
                Ok(b) => needs_upto(
                    metadata.file_table.entries@,
                    metadata.file_table.entries@.len() as int,
                    self.files@,
                    mtimes@,
                    metadata.file_table.oldest_modified_time,
                    self.local_info,
                    self.host,
                ) == Ok::<bool, TemplateFault>(b),
                Err(e) => needs_upto(
                    metadata.file_table.entries@,
                    metadata.file_table.entries@.len() as int,
                    self.files@,
                    mtimes@,
                    metadata.file_table.oldest_modified_time,
                    self.local_info,
                    self.host,
                ) == Err::<bool, TemplateFault>(e@),
            },
    {
        let entries = &metadata.file_table.entries;
        let oldest = metadata.file_table.oldest_modified_time;
        let mut i: usize = 0;
        while i < entries.len()
            invariant
                entries == &metadata.file_table.entries,
                oldest == metadata.file_table.oldest_modified_time,
                mtimes@.len() == self.files@.len(),
                i <= entries@.len(),
                needs_upto(entries@, i as int, self.files@, mtimes@, oldest, self.local_info, self.host) == Ok::<
                    bool,
                    TemplateFault,
                >(false),
            decreases entries.len() - i,
        {
            let p = match entries[i].template.apply_substs_with(&self.local_info, &self.host) {
                Ok(p) => p,
                Err(e) => {
                    proof {
                        lemma_needs_sticks(entries@, i + 1, entries@.len() as int, self.files@, mtimes@, oldest, self.local_info, self.host);
                    }
                    return Err(e);
                },
            };
            let fresh = match self.local_index_exec(&p) {
                Some(j) => mtimes[j].nanos >= oldest.nanos,
                None => false,
            };
            if !fresh {
                proof {
                    lemma_needs_sticks(entries@, i + 1, entries@.len() as int, self.files@, mtimes@, oldest, self.local_info, self.host);
                }
                return Ok(true);
            }
            i = i + 1;
        }
        Ok(false)
    }

    /// The file table of an upload: the files that exist, in order, and the
    /// earliest of their modification times, or `now` where none exists;
    /// `states[i]` is the modification time of file `i`, `None` where it is gone.
    pub fn build_file_table(&self, states: &Vec<Option<UtcTime>>, now: UtcTime) -> (r: FileMetaTable)
        requires
            states@.len() == self.files@.len(),
        ensures
            entry_views(r.entries@) == table_entries(self.files@, states@, states@.len() as int),
            r.oldest_modified_time.nanos == match oldest_of(states@, states@.len() as int) {
                Some(t) => t,
                None => now.nanos,
            },
    {
        let mut entries: Vec<FileMetaEntry> = Vec::new();
        let mut oldest: Option<i64> = None;
        let mut i: usize = 0;
        assert(entry_views(entries@) =~= seq![]);
        while i < states.len()
            invariant
                states@.len() == self.files@.len(),
                i <= states@.len(),
                entry_views(entries@) == table_entries(self.files@, states@, i as int),
                oldest == oldest_of(states@, i as int),
            decreases states.len() - i,
        {
            match states[i] {
                Some(t) => {
                    let ghost before = entries@;
                    let f = &self.files[i];
                    entries.push(
                        FileMetaEntry {
                            template: TemplatePath { raw: lit(f.template.raw.as_str()) },
                            remote_path: lit(f.remote_path.as_str()),
                        },
                    );
                    assert(entry_views(entries@) =~= entry_views(before).push((f.template@, f.remote_path@)));
                    oldest = match oldest {
                        Some(a) => if t.nanos < a {
                            Some(t.nanos)
                        } else {
                            Some(a)
                        },
                        None => Some(t.nanos),
                    };
                },
                None => {},
            }
            i = i + 1;
        }
        let oldest_modified_time = match oldest {
            Some(t) => UtcTime { nanos: t },
            None => now,
        };
        FileMetaTable { entries, oldest_modified_time }
    }

    /// The archive members of an upload: each file that exists, with its
    /// archive name; `states[i]` is `None` where file `i` is gone.
    pub fn archive_members(&self, states: &Vec<Option<UtcTime>>) -> (r: Vec<(String, String)>)
        requires
            states@.len() == self.files@.len(),
        ensures
            pair_views(r@) == members_of(self.files@, states@, states@.len() as int),
    {
        let mut out: Vec<(String, String)> = Vec::new();
        let mut i: usize = 0;
        assert(pair_views(out@) =~= seq![]);
        while i < states.len()
            invariant
                states@.len() == self.files@.len(),
                i <= states@.len(),
                pair_views(out@) == members_of(self.files@, states@, i as int),
            decreases states.len() - i,
        {
            if states[i].is_some() {
                let ghost before = out@;
                let f = &self.files[i];
                out.push((lit(f.local_path.as_str()), lit(f.remote_path.as_str())));
                assert(pair_views(out@) =~= pair_views(before).push((f.local_path@, f.remote_path@)));
            }
            i = i + 1;
        }
        out
    }

    /// Where an archive member goes here: the template of the first table entry
    /// with that archive name, resolved for this host; a member the table does
    /// not list is refused.
    pub fn locate_member(&self, table: &FileMetaTable, remote_path: &String) -> (r: Result<String, SyncError>)
        ensures
            match member_index(table.entries@, remote_path@, table.entries@.len() as int) {
                None => r matches Err(SyncError::ArchiveMembershipViolation(p)) && p@ == remote_path@,
                Some(i) => match resolve(table.entries@[i].template@, self.local_info, self.host) {
                    Ok(p) => r matches Ok(s) && s@ == p,
                    Err(e) => r matches Err(SyncError::Template(te)) && te@ == e,
                },
            },
    {
        let mut i: usize = 0;
        while i < table.entries.len()
            invariant
                i <= table.entries@.len(),
                member_index(table.entries@, remote_path@, i as int) is None,
            decreases table.entries.len() - i,
        {
            if same_path_exec(table.entries[i].remote_path.as_str(), remote_path.as_str()) {
                proof {
                    lemma_member_index_sticks(table.entries@, remote_path@, i + 1, table.entries@.len() as int);
                }
                return match table.entries[i].template.apply_substs_with(&self.local_info, &self.host) {
                    Ok(p) => Ok(p),
                    Err(e) => Err(SyncError::Template(e)),
                };
            }
            i = i + 1;
        }
        Err(SyncError::ArchiveMembershipViolation(lit(remote_path.as_str())))
    }

    /// The archive as stored: the tar stream compressed with xz.
    pub fn compress_files(&self, tar: &Vec<u8>) -> (r: Result<Vec<u8>, SyncError>)
        ensures
            r is Ok,
            r matches Ok(v) ==> xz_decompressed(v@) == Some(tar@),
    {
        match xz_compress(tar, XZ_LEVEL) {
            Some(v) => Ok(v),
            None => Err(SyncError::Codec),
        }
    }

    /// The tar stream inside a stored archive.
    pub fn decompress_files(&self, archive: &Vec<u8>) -> (r: Result<Vec<u8>, SyncError>)
        ensures
            r matches Ok(v) ==> xz_decompressed(archive@) == Some(v@),
            xz_decompressed(archive@) is Some <==> r is Ok,
    {
        match xz_decompress(archive) {
            Some(v) => Ok(v),
            None => Err(SyncError::Codec),
        }
    }
}

proof fn lemma_local_index_sticks(files: Seq<FileInfo>, p: Seq<char>, k: int, n: int)
    requires
        0 <= k <= n,
        local_index(files, p, k) is Some,
    ensures
        local_index(files, p, n) == local_index(files, p, k),
    decreases n - k,
{
    if n > k {
        lemma_local_index_sticks(files, p, k, n - 1);
    }
}

proof fn lemma_member_index_sticks(entries: Seq<FileMetaEntry>, p: Seq<char>, k: int, n: int)
    requires
        0 <= k <= n,
        member_index(entries, p, k) is Some,
    ensures
        member_index(entries, p, n) == member_index(entries, p, k),
    decreases n - k,
{
    if n > k {
        lemma_member_index_sticks(entries, p, k, n - 1);
    }
}

proof fn lemma_needs_sticks(
    entries: Seq<FileMetaEntry>,
    k: int,
    n: int,
    files: Seq<FileInfo>,
    mtimes: Seq<UtcTime>,
    oldest: UtcTime,
    info: TemplateInfo,
    host: HostDirs,
)
    requires
        0 <= k <= n,
        needs_upto(entries, k, files, mtimes, oldest, info, host) != Ok::<bool, TemplateFault>(false),
    ensures
        needs_upto(entries, n, files, mtimes, oldest, info, host) == needs_upto(entries, k, files, mtimes, oldest, info, host),
    decreases n - k,
{
    if n > k {
        lemma_needs_sticks(entries, k, n - 1, files, mtimes, oldest, info, host);
    }
}

/// The install directory that an executable path implies for a launch
/// template starting with `<base>`: the executable path without the trailing
/// components it shares with the rest of the template.
pub open spec fn base_dir_from_exe(t: Seq<char>, command: Seq<char>) -> Option<Seq<char>> {
    let tc = components(t);
    if tc.len() == 0 || tc[0] != "<base>"@ {
        None
    } else {
        let shared = crate::paths::suffix_len(components(command), tc.drop_first());
        if shared == 0 {
            None
        } else {
            Some(crate::paths::first_components(command, components(command).len() - shared))
        }
    }
}

pub fn find_base_dir_from_exe_path(template: &TemplatePath, command: &str) -> (r: Option<String>)
    ensures
        crate::manifest::opt_view(r) == base_dir_from_exe(template@, command@),
{
    let tc = path_components(&chars_of(template.as_raw_path()));
    if tc.len() == 0 || !crate::text::chars_are(&tc[0], "<base>") {
        return None;
    }
    let mut rest: Vec<Vec<char>> = Vec::new();
    let mut i: usize = 1;
    while i < tc.len()
        invariant
            1 <= i <= tc@.len(),
            views(rest@) == views(tc@).subrange(1, i as int),
        decreases tc.len() - i,
    {
        let ghost before = views(rest@);
        rest.push(crate::text::slice_chars(&tc[i], 0, tc[i].len()));
        assert(tc@[i as int]@.subrange(0, tc@[i as int]@.len() as int) =~= tc@[i as int]@);
        assert(views(rest@) =~= before.push(tc@[i as int]@));
        assert(views(rest@) =~= views(tc@).subrange(1, i + 1));
        i = i + 1;
    }
    assert(views(rest@) =~= views(tc@).drop_first());
    let cc = path_components(&chars_of(command));
    if crate::paths::common_suffix(&cc, &rest) == 0 {
        return None;
    }
    Some(crate::paths::extract_prefix_of(command, &rest))
}

/// Whether a file's template resolves to a path with the same components as its local path.
pub open spec fn resolves_back(f: (Seq<char>, Seq<char>, Seq<char>, Seq<FileTag>), info: TemplateInfo, host: HostDirs) -> bool {
    resolve(f.2, info, host) matches Ok(x) && same_path(x, f.0)
}

/// Whether the file at `p` below a local root `l` is one whose name below the
/// root is plain: a relative path without placeholders.
pub open spec fn plain_below(l: Seq<char>, p: Seq<char>) -> bool {
    &&& l.len() > 0
    &&& is_path_prefix(l, p)
    &&& manifest::no_open(postfix_of(l, p))
    &&& !crate::paths::is_abs(postfix_of(l, p))
}

proof fn lemma_file_resolves_back(t: Seq<char>, l: Seq<char>, p: Seq<char>, tags: Seq<FileTag>, info: TemplateInfo, host: HostDirs)
    requires
        resolve(t, info, host) == Ok::<Seq<char>, TemplateFault>(l),
        plain_below(l, p),
    ensures
        resolves_back(file_of((t, l, seq![], tags), p), info, host),
{
    let post = postfix_of(l, p);
    assert(t.len() > 0) by {
        if t.len() == 0 {
            assert(resolve(t, info, host) == Ok::<Seq<char>, TemplateFault>(t));
        }
    };
    assert(join_no_clobber(t, post) == path_join(t, post));
    if t.last() == '/' {
        assert(path_join(t, post) == t + post);
        manifest::lemma_resolve_append(t, post, info, host);
        manifest::lemma_resolve_keeps_last_sep(t, info, host);
        assert(p =~= l + post);
    } else {
        let s2 = seq!['/'] + post;
        assert(manifest::no_open(s2)) by {
            assert forall|i: int| 0 <= i < s2.len() implies s2[i] != '<' by {
                if i > 0 {
                    assert(s2[i] == post[i - 1]);
                }
            };
        };
        assert(path_join(t, post) =~= t + s2);
        manifest::lemma_resolve_append(t, s2, info, host);
        let x = l + s2;
        assert(x =~= l + seq!['/'] + post);
        if p.len() == l.len() {
            assert(post =~= seq![]);
            assert(p =~= l);
            assert(x =~= l + seq!['/']);
            crate::paths::lemma_components_trailing_sep(l);
        } else if l.last() == '/' {
            assert(p =~= l + post);
            crate::paths::lemma_components_double_sep(l, post);
        } else {
            assert(p =~= l + seq!['/'] + post);
        }
    }
}

proof fn lemma_roots_resolve(
    files: Seq<(TemplatePath, manifest::FileConfig)>,
    n: int,
    local: TemplateInfo,
    remote: TemplateInfo,
    host: HostDirs,
)
    requires
        roots_of(files, n, local, remote, host) is Ok,
    ensures
        forall|i: int|
            0 <= i < roots_of(files, n, local, remote, host)->Ok_0.len() ==> resolve(
                (#[trigger] roots_of(files, n, local, remote, host)->Ok_0[i]).0,
                local,
                host,
            ) == Ok::<Seq<char>, TemplateFault>(roots_of(files, n, local, remote, host)->Ok_0[i].1),
    decreases n,
{
    if n > 0 {
        lemma_roots_resolve(files, n - 1, local, remote, host);
    }
}

/// Whether every walked file lies plainly below its root.
pub open spec fn walked_plain(roots: Seq<(Seq<char>, Seq<char>, Seq<char>, Seq<FileTag>)>, walked: Seq<Vec<String>>) -> bool {
    forall|i: int, j: int| 0 <= i < walked.len() && 0 <= j < walked[i]@.len() ==> plain_below(roots[i].1, #[trigger] walked[i]@[j]@)
}

proof fn lemma_walk_resolves_back(
    rv: Seq<(Seq<char>, Seq<char>, Seq<char>, Seq<FileTag>)>,
    walked: Seq<Vec<String>>,
    n: int,
    info: TemplateInfo,
    host: HostDirs,
)
    requires
        0 <= n <= walked.len(),
        walked.len() <= rv.len(),
        forall|i: int| 0 <= i < rv.len() ==> resolve((#[trigger] rv[i]).0, info, host) == Ok::<Seq<char>, TemplateFault>(rv[i].1),
        walked_plain(rv, walked),
    ensures
        forall|k: int| 0 <= k < walk_files(rv, walked, n).len() ==> resolves_back(#[trigger] walk_files(rv, walked, n)[k], info, host),
    decreases n,
{
    if n > 0 {
        lemma_walk_resolves_back(rv, walked, n - 1, info, host);
        let prev = walk_files(rv, walked, n - 1);
        let r = rv[n - 1];
        let ps = walked[n - 1]@;
        let cur = root_files(r, ps);
        assert forall|k: int| 0 <= k < walk_files(rv, walked, n).len() implies resolves_back(#[trigger] walk_files(rv, walked, n)[k], info, host) by {
            if k >= prev.len() {
                let j = k - prev.len();
                assert(walk_files(rv, walked, n)[k] == cur[j]);
                assert(plain_below(r.1, walked[n - 1]@[j]@));
                lemma_file_resolves_back(r.0, r.1, ps[j]@, r.3, info, host);
                assert(file_of(r, ps[j]@).2 == file_of((r.0, r.1, seq![], r.3), ps[j]@).2);
            } else {
                assert(walk_files(rv, walked, n)[k] == prev[k]);
            }
        };
    }
}

/// The files of a sync manager built from a manifest's save roots resolve back
/// to themselves: each template, resolved for this host, names the file's own
/// local path, wherever every walked file lies plainly below its root.
pub proof fn lemma_manager_files_resolve_back(
    manifest: GameManifest,
    local: TemplateInfo,
    remote: TemplateInfo,
    host: HostDirs,
    rv: Seq<(Seq<char>, Seq<char>, Seq<char>, Seq<FileTag>)>,
    walked: Seq<Vec<String>>,
    files: Seq<FileInfo>,
)
    requires
        roots_of(manifest.files@, manifest.files@.len() as int, local, remote, host) == Ok::<
            Seq<(Seq<char>, Seq<char>, Seq<char>, Seq<FileTag>)>,
            TemplateFault,
        >(rv),
        walked.len() == rv.len(),
        walked_plain(rv, walked),
        file_views(files) == walk_files(rv, walked, walked.len() as int),
    ensures
        forall|i: int| 0 <= i < files.len() ==> resolves_back(file_view(#[trigger] files[i]), local, host),
{
    lemma_roots_resolve(manifest.files@, manifest.files@.len() as int, local, remote, host);
    lemma_walk_resolves_back(rv, walked, walked.len() as int, local, host);
    assert forall|i: int| 0 <= i < files.len() implies resolves_back(file_view(#[trigger] files[i]), local, host) by {
        assert(file_views(files)[i] == file_view(files[i]));
    };
}

proof fn lemma_table_matches_members(files: Seq<FileInfo>, states: Seq<Option<UtcTime>>, n: int)
    requires
        0 <= n <= states.len(),
        states.len() == files.len(),
    ensures
        table_entries(files, states, n).len() == members_of(files, states, n).len(),
        forall|k: int|
            0 <= k < members_of(files, states, n).len() ==> exists|i: int|
                0 <= i < n && (#[trigger] table_entries(files, states, n)[k]) == (files[i].template@, files[i].remote_path@)
                    && members_of(files, states, n)[k] == (files[i].local_path@, files[i].remote_path@),
    decreases n,
{
    if n > 0 {
        lemma_table_matches_members(files, states, n - 1);
        let t0 = table_entries(files, states, n - 1);
        let m0 = members_of(files, states, n - 1);
        assert forall|k: int| 0 <= k < members_of(files, states, n).len() implies exists|i: int|
            0 <= i < n && (#[trigger] table_entries(files, states, n)[k]) == (files[i].template@, files[i].remote_path@)
                && members_of(files, states, n)[k] == (files[i].local_path@, files[i].remote_path@) by {
            if k < m0.len() {
                assert(table_entries(files, states, n)[k] == t0[k]);
                assert(members_of(files, states, n)[k] == m0[k]);
                let i = choose|i: int|
                    0 <= i < n - 1 && (#[trigger] table_entries(files, states, n - 1)[k]) == (files[i].template@, files[i].remote_path@)
                        && members_of(files, states, n - 1)[k] == (files[i].local_path@, files[i].remote_path@);
                assert(0 <= i < n);
            } else {
                assert(0 <= n - 1 < n);
            }
        };
    }
}

proof fn lemma_member_index_distinct(entries: Seq<FileMetaEntry>, p: Seq<char>, k: int, n: int)
    requires
        0 <= k < entries.len(),
        0 <= n <= entries.len(),
        same_path(entries[k].remote_path@, p),
        forall|j: int| 0 <= j < k ==> !same_path((#[trigger] entries[j]).remote_path@, p),
    ensures
        n <= k ==> member_index(entries, p, n) is None,
        n > k ==> member_index(entries, p, n) == Some(k),
    decreases n,
{
    if n > 0 {
        lemma_member_index_distinct(entries, p, k, n - 1);
    }
}

/// After an upload and a download on the same host with nothing changed in
/// between, each archive member is unpacked to the local file it was packed
/// from: its name finds its own table entry, whose template resolves to that
/// file's path. This holds where the files resolve back to themselves (see
/// `lemma_manager_files_resolve_back`) and no two packed files share an archive name.
pub proof fn lemma_archive_round_trip(
    m: SyncMgr,
    states: Seq<Option<UtcTime>>,
    entries: Seq<FileMetaEntry>,
    members: Seq<(Seq<char>, Seq<char>)>,
    k: int,
)
    requires
        states.len() == m.files@.len(),
        forall|i: int| 0 <= i < m.files@.len() ==> resolves_back(file_view(#[trigger] m.files@[i]), m.local_info, m.host),
        entry_views(entries) == table_entries(m.files@, states, states.len() as int),
        members == members_of(m.files@, states, states.len() as int),
        forall|a: int, b: int| 0 <= a < b < members.len() ==> !same_path(#[trigger] members[a].1, #[trigger] members[b].1),
        0 <= k < members.len(),
    ensures
        member_index(entries, members[k].1, entries.len() as int) == Some(k),
        resolve(entries[k].template@, m.local_info, m.host) matches Ok(x) && same_path(x, members[k].0),
{
    let n = states.len() as int;
    lemma_table_matches_members(m.files@, states, n);
    assert(entries.len() == members.len()) by {
        assert(entry_views(entries).len() == entries.len());
    };
    assert forall|j: int| 0 <= j < entries.len() implies (#[trigger] entries[j]).remote_path@ == members[j].1 && entries[j].template@
        == table_entries(m.files@, states, n)[j].0 by {
        assert(entry_views(entries)[j] == (entries[j].template@, entries[j].remote_path@));
        let i = choose|i: int|
            0 <= i < n && (#[trigger] table_entries(m.files@, states, n)[j]) == (m.files@[i].template@, m.files@[i].remote_path@)
                && members_of(m.files@, states, n)[j] == (m.files@[i].local_path@, m.files@[i].remote_path@);
    };
    assert(components(members[k].1) == components(members[k].1));
    assert forall|j: int| 0 <= j < k implies !same_path((#[trigger] entries[j]).remote_path@, members[k].1) by {
        assert(!same_path(members[j].1, members[k].1));
    };
    lemma_member_index_distinct(entries, members[k].1, k, entries.len() as int);
    let i = choose|i: int|
        0 <= i < n && (#[trigger] table_entries(m.files@, states, n)[k]) == (m.files@[i].template@, m.files@[i].remote_path@)
            && members_of(m.files@, states, n)[k] == (m.files@[i].local_path@, m.files@[i].remote_path@);
    assert(resolves_back(file_view(m.files@[i]), m.local_info, m.host));
}

proof fn lemma_needs_ok(
    entries: Seq<FileMetaEntry>,
    n: int,
    files: Seq<FileInfo>,
    mtimes: Seq<UtcTime>,
    oldest: UtcTime,
    info: TemplateInfo,
    host: HostDirs,
)
    requires
        0 <= n <= entries.len(),
        forall|j: int| 0 <= j < n ==> resolve((#[trigger] entries[j]).template@, info, host) is Ok,
    ensures
        needs_upto(entries, n, files, mtimes, oldest, info, host) is Ok,
    decreases n,
{
    if n > 0 {
        lemma_needs_ok(entries, n - 1, files, mtimes, oldest, info, host);
        assert(resolve(entries[n - 1].template@, info, host) is Ok);
    }
}

/// A table entry whose template resolves to no local file calls for a download,
/// where every entry before it resolves.
pub proof fn lemma_missing_file_needs_download(
    entries: Seq<FileMetaEntry>,
    files: Seq<FileInfo>,
    mtimes: Seq<UtcTime>,
    oldest: UtcTime,
    info: TemplateInfo,
    host: HostDirs,
    k: int,
)
    requires
        0 <= k < entries.len(),
        forall|j: int| 0 <= j < k ==> resolve((#[trigger] entries[j]).template@, info, host) is Ok,
        resolve(entries[k].template@, info, host) matches Ok(p) && local_index(files, p, files.len() as int) is None,
    ensures
        needs_upto(entries, entries.len() as int, files, mtimes, oldest, info, host) == Ok::<bool, TemplateFault>(true),
{
    lemma_needs_ok(entries, k, files, mtimes, oldest, info, host);
    assert(needs_upto(entries, k + 1, files, mtimes, oldest, info, host) == Ok::<bool, TemplateFault>(true));
    lemma_needs_sticks(entries, k + 1, entries.len() as int, files, mtimes, oldest, info, host);
}

proof fn lemma_oldest_is_min(states: Seq<Option<UtcTime>>, n: int, i: int)
    requires
        0 <= i < n <= states.len(),
        states[i] is Some,
    ensures
        oldest_of(states, n) matches Some(o) && o <= states[i]->Some_0.nanos,
    decreases n,
{
    if i < n - 1 {
        lemma_oldest_is_min(states, n - 1, i);
    }
}

proof fn lemma_local_index_bound(files: Seq<FileInfo>, x: Seq<char>, n: int)
    ensures
        local_index(files, x, n) matches Some(j) ==> 0 <= j < n,
    decreases n,
{
    if n > 0 {
        lemma_local_index_bound(files, x, n - 1);
    }
}

proof fn lemma_local_index_found(files: Seq<FileInfo>, x: Seq<char>, i: int, n: int)
    requires
        0 <= i < n <= files.len(),
        same_path(files[i].local_path@, x),
    ensures
        local_index(files, x, n) matches Some(j) && 0 <= j < n,
    decreases n,
{
    lemma_local_index_bound(files, x, n);
    if i < n - 1 {
        lemma_local_index_found(files, x, i, n - 1);
    } else {
        lemma_local_index_bound(files, x, n - 1);
    }
}

/// After an upload, with every file still there and unmodified, the metadata
/// that the upload wrote calls for no download.
pub proof fn lemma_no_download_after_upload(
    m: SyncMgr,
    states: Seq<Option<UtcTime>>,
    mtimes: Seq<UtcTime>,
    entries: Seq<FileMetaEntry>,
    oldest: UtcTime,
)
    requires
        states.len() == m.files@.len(),
        mtimes.len() == m.files@.len(),
        forall|i: int| 0 <= i < states.len() ==> states[i] == Some(#[trigger] mtimes[i]),
        forall|i: int| 0 <= i < m.files@.len() ==> resolves_back(file_view(#[trigger] m.files@[i]), m.local_info, m.host),
        entry_views(entries) == table_entries(m.files@, states, states.len() as int),
        oldest_of(states, states.len() as int) matches Some(o) ==> oldest.nanos == o,
    ensures
        needs_upto(entries, entries.len() as int, m.files@, mtimes, oldest, m.local_info, m.host) == Ok::<
            bool,
            TemplateFault,
        >(false),
{
    let files = m.files@;
    let n = states.len() as int;
    lemma_table_matches_members(files, states, n);
    assert(entries.len() == table_entries(files, states, n).len()) by {
        assert(entry_views(entries).len() == entries.len());
    };
    assert forall|k: int| 0 <= k < entries.len() implies entry_in_place(#[trigger] entries[k], files, mtimes, oldest, m.local_info, m.host) by {
        assert(entry_views(entries)[k] == (entries[k].template@, entries[k].remote_path@));
        let i = choose|i: int|
            0 <= i < n && (#[trigger] table_entries(files, states, n)[k]) == (files[i].template@, files[i].remote_path@)
                && members_of(files, states, n)[k] == (files[i].local_path@, files[i].remote_path@);
        assert(resolves_back(file_view(files[i]), m.local_info, m.host));
        let x = resolve(entries[k].template@, m.local_info, m.host)->Ok_0;
        lemma_local_index_found(files, x, i, files.len() as int);
        let j = local_index(files, x, files.len() as int)->Some_0;
        assert(states[j] == Some(mtimes[j]));
        lemma_oldest_is_min(states, n, j);
    };
    lemma_needs_download_iff_divergent(entries, entries.len() as int, files, mtimes, oldest, m.local_info, m.host);
}

} // verus!
