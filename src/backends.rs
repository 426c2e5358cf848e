//! Sync metadata, the file table, and how backends lay out their objects.
use vstd::prelude::*;
use crate::manifest::{HostDirs, TemplateError, TemplateInfo, TemplatePath, resolve, result_view};
use crate::paths::{join_good, join, join_no_clobber, path_join, is_abs, segments, leading_path, split_segments, joined};
use crate::text::{chars_of, string_of};
use crate::config::{BackendInfo, BackendTy, WebDavInfo, Secret};
use crate::version::{Version, check_version_compat_read, check_version_compat_write, curr_crate_ver, crate_version, read_compatible, write_compatible};

verus! {

/// A point in time: nanoseconds since the Unix epoch, in UTC.
#[derive(Debug, Clone, Copy, PartialEq, Eq, Structural, Hash)]
pub struct UtcTime {
    pub nanos: i64,
}

/// Key of the side-car object that holds the sync metadata.
pub const SYNC_TIME_FILE: &'static str = "mod-meta.ron";

/// Key of the archive object.
pub const ARCHIVE_NAME: &'static str = "archive.tar.xz";

/// One file of the archive: the template it came from and its name in the archive.
#[derive(Debug, Clone)]
pub struct FileMetaEntry {
    pub template: TemplatePath,
    pub remote_path: String,
}

/// The files of the archive, and the oldest modification time among them.
#[derive(Debug, Clone)]
pub struct FileMetaTable {
    pub entries: Vec<FileMetaEntry>,
    pub oldest_modified_time: UtcTime,
}

/// What the last upload recorded about itself.
#[derive(Debug, Clone)]
pub struct SyncMetadata {
    pub last_write_timestamp: UtcTime,
    pub last_write_hostname: String,
    pub file_table: FileMetaTable,
    pub last_write_cinc_version: Version,
}

impl SyncMetadata {
    /// Whether this version may read what the last writer wrote.
    pub fn is_version_read_compatabible(&self) -> (r: bool)
        ensures
            r == read_compatible(crate_version(), self.last_write_cinc_version),
    {
        check_version_compat_read(&curr_crate_ver(), &self.last_write_cinc_version)
    }

    /// Whether this version may write over what the last writer wrote.
    pub fn is_version_write_compatabible(&self) -> (r: bool)
        ensures
            r == write_compatible(crate_version(), self.last_write_cinc_version),
    {
        check_version_compat_write(&curr_crate_ver(), &self.last_write_cinc_version)
    }

    /// The metadata of an upload made now, from this host, by this version.
    pub fn from_sys_info(file_table: FileMetaTable, now: UtcTime, hostname: String) -> (r: Self)
        ensures
            r.last_write_timestamp == now,
            r.last_write_hostname@ == hostname@,
            r.file_table == file_table,
            r.last_write_cinc_version == crate_version(),
    {
        SyncMetadata {
            last_write_timestamp: now,
            last_write_hostname: hostname,
            file_table,
            last_write_cinc_version: curr_crate_ver(),
        }
    }
}

/// Metadata that this version wrote can be read back by this version.
pub proof fn lemma_own_metadata_readable(m: SyncMetadata)
    requires
        m.last_write_cinc_version == crate_version(),
    ensures
        read_compatible(crate_version(), m.last_write_cinc_version),
        write_compatible(crate_version(), m.last_write_cinc_version),
{
}

impl FileMetaTable {
    /// The local path of each entry: its template resolved against `info`.
    pub fn localise_entries(&self, info: &TemplateInfo, host: &HostDirs) -> (r: Vec<Result<String, TemplateError>>)
        ensures
            r@.len() == self.entries@.len(),
            forall|i: int| 0 <= i < r@.len() ==> result_view(#[trigger] r@[i]) == resolve(
                self.entries@[i].template@,
                *info,
                *host,
            ),
    {
        let mut out: Vec<Result<String, TemplateError>> = Vec::new();
        let mut i: usize = 0;
        while i < self.entries.len()
            invariant
                i <= self.entries@.len(),
                out@.len() == i,
                forall|j: int| 0 <= j < i ==> result_view(#[trigger] out@[j]) == resolve(
                    self.entries@[j].template@,
                    *info,
                    *host,
                ),
            decreases self.entries.len() - i,
        {
            out.push(self.entries[i].template.apply_substs_with(info, host));
            i = i + 1;
        }
        out
    }
}

/// A store on the local filesystem, rooted at `root`.
#[derive(Debug, Clone)]
pub struct FilesystemStore {
    pub root: String,
}

impl FilesystemStore {
    pub fn new(root: String) -> (r: Self)
        ensures
            r.root@ == root@,
    {
        FilesystemStore { root }
    }

    /// Where the object at `f` lives: `f` below the root, also where `f` is absolute.
    pub fn filename(&self, f: &str) -> (r: String)
        ensures
            r@ == join_no_clobber(self.root@, f@),
    {
        join_good(self.root.as_str(), f)
    }
}

/// Every object of a store lies below its root: the path starts with the root,
/// and what follows is relative, being `f` itself or `f` behind a `.`.
pub proof fn lemma_no_escape(root: Seq<char>, f: Seq<char>)
    requires
        root.len() > 0,
    ensures
        exists|rel: Seq<char>|
            !is_abs(rel) && (rel == f || rel == seq!['.'] + f) && (join_no_clobber(root, f) == root + rel
                || join_no_clobber(root, f) == root + seq!['/'] + rel),
{
    let rel = if is_abs(f) {
        seq!['.'] + f
    } else {
        f
    };
    assert(!is_abs(rel));
    assert(join_no_clobber(root, f) == path_join(root, rel));
}

/// The paths to create, from the first component of `dir` to `dir` itself, one
/// component more each; the bare root of an absolute path is left out.
pub fn calc_mkdir_all_paths(dir: &str) -> (r: Vec<String>)
    ensures
        r@.len() == segments(dir@).len(),
        forall|i: int| 0 <= i < r@.len() ==> (#[trigger] r@[i])@ == leading_path(dir@, i + 1),
{
    let d = chars_of(dir);
    let segs = split_segments(&d);
    let abs = d.len() > 0 && d[0] == '/';
    let mut out: Vec<String> = Vec::new();
    let mut cur: Vec<char> = Vec::new();
    let mut i: usize = 0;
    while i < segs.len()
        invariant
            d@ == dir@,
            abs == is_abs(dir@),
            crate::paths::views(segs@) == segments(dir@),
            i <= segs@.len(),
            out@.len() == i,
            cur@ == joined(segments(dir@), i as int),
            forall|j: int| 0 <= j < i ==> (#[trigger] out@[j])@ == leading_path(dir@, j + 1),
        decreases segs.len() - i,
    {
        let ghost segv = segments(dir@);
        assert(segs@[i as int]@ == segv[i as int]);
        if i > 0 {
            cur.push('/');
        }
        crate::text::push_all(&mut cur, &segs[i]);
        assert(cur@ =~= joined(segv, i + 1));
        let mut full: Vec<char> = Vec::new();
        if abs {
            full.push('/');
        }
        crate::text::push_all(&mut full, &cur);
        assert(full@ =~= leading_path(dir@, i + 1));
        out.push(string_of(&full));
        i = i + 1;
    }
    out
}

/// A WebDAV store: objects live below `cfg.root` on the server at `cfg.url`.
#[derive(Debug, Clone)]
pub struct WebDavStore {
    pub cfg: WebDavInfo,
}

/// The URL of the object at `path`: the path below the root (an absolute one
/// too), put after the server's URL.
pub open spec fn webdav_url(cfg: WebDavInfo, path: Seq<char>) -> Seq<char> {
    join_no_clobber(cfg.url@, join_no_clobber(cfg.root@, path))
}

/// The URLs of the collections to create so that `dir` exists below the root,
/// outermost first; the first leading path is taken to exist.
pub open spec fn mkdir_urls_of(cfg: WebDavInfo, dir: Seq<char>, i: int) -> Seq<char> {
    join_no_clobber(cfg.url@, leading_path(join_no_clobber(cfg.root@, dir), i + 2))
}

proof fn lemma_join_extends(u: Seq<char>, y: Seq<char>, m: Seq<char>)
    requires
        y.len() > 0,
        !is_abs(y),
    ensures
        path_join(u, y + m) == path_join(u, y) + m,
{
    assert((y + m)[0] == y[0]);
    if u.len() == 0 {
    } else if u.last() == '/' {
        assert(u + (y + m) =~= (u + y) + m);
    } else {
        assert(u + seq!['/'] + (y + m) =~= (u + seq!['/'] + y) + m);
    }
}

/// Every WebDAV object of a store lies below the store's root on the server:
/// its URL is the root's URL followed by a relative path, being `path` itself
/// or `path` behind a `.`.
pub proof fn lemma_webdav_no_escape(cfg: WebDavInfo, path: Seq<char>)
    requires
        cfg.root@.len() > 0,
    ensures
        exists|rel: Seq<char>|
            !is_abs(rel) && (rel == path || rel == seq!['.'] + path) && (webdav_url(cfg, path) == join_no_clobber(
                cfg.url@,
                cfg.root@,
            ) + rel || webdav_url(cfg, path) == join_no_clobber(cfg.url@, cfg.root@) + seq!['/'] + rel),
{
    let root = cfg.root@;
    let u = cfg.url@;
    let rel = if is_abs(path) {
        seq!['.'] + path
    } else {
        path
    };
    let x = join_no_clobber(root, path);
    assert(x == path_join(root, rel));
    let m = if root.last() == '/' {
        rel
    } else {
        seq!['/'] + rel
    };
    assert(x =~= root + m);
    assert(x[0] == root[0]);
    if is_abs(root) {
        assert(seq!['.'] + x =~= (seq!['.'] + root) + m);
        lemma_join_extends(u, seq!['.'] + root, m);
    } else {
        lemma_join_extends(u, root, m);
    }
    let base = join_no_clobber(u, root);
    assert(webdav_url(cfg, path) == base + m);
    if root.last() != '/' {
        assert(base + (seq!['/'] + rel) =~= base + seq!['/'] + rel);
    }
}

impl WebDavStore {
    pub fn new(cfg: WebDavInfo) -> (r: Self)
        ensures
            r.cfg == cfg,
    {
        WebDavStore { cfg }
    }

    /// The URL that requests for the object at `path` go to.
    pub fn url_for(&self, path: &str) -> (r: String)
        ensures
            r@ == webdav_url(self.cfg, path@),
    {
        let below_root = join_good(self.cfg.root.as_str(), path);
        join_good(self.cfg.url.as_str(), below_root.as_str())
    }

    /// The URLs of the collections to create, in order, for `dir` to exist.
    pub fn mkdir_urls(&self, dir: &str) -> (r: Vec<String>)
        ensures
            r@.len() == if segments(join_no_clobber(self.cfg.root@, dir@)).len() > 0 {
                segments(join_no_clobber(self.cfg.root@, dir@)).len() - 1
            } else {
                0
            },
            forall|i: int| 0 <= i < r@.len() ==> (#[trigger] r@[i])@ == mkdir_urls_of(self.cfg, dir@, i),
    {
        let full = join_good(self.cfg.root.as_str(), dir);
        let parts = calc_mkdir_all_paths(full.as_str());
        let mut out: Vec<String> = Vec::new();
        let mut i: usize = 1;
        while i < parts.len()
            invariant
                full@ == join_no_clobber(self.cfg.root@, dir@),
                parts@.len() == segments(full@).len(),
                forall|k: int| 0 <= k < parts@.len() ==> (#[trigger] parts@[k])@ == leading_path(full@, k + 1),
                1 <= i <= parts@.len() || (i == 1 && parts@.len() == 0),
                out@.len() == i - 1,
                forall|k: int| 0 <= k < out@.len() ==> (#[trigger] out@[k])@ == mkdir_urls_of(self.cfg, dir@, k),
            decreases parts.len() - i,
        {
            out.push(join_good(self.cfg.url.as_str(), parts[i].as_str()));
            i = i + 1;
        }
        out
    }
}

/// The store that a backend's objects for one game go to.
#[derive(Debug, Clone)]
pub enum StorageBackend {
    WebDav(WebDavStore),
    Fs(FilesystemStore),
}

/// Whether `s` is the store of backend `b` for the game `game`: the backend's
/// root with the game's name below it.
pub open spec fn is_store_for(b: BackendInfo, game: Seq<char>, s: StorageBackend) -> bool {
    match (b.info, s) {
        (BackendTy::Filesystem { root }, StorageBackend::Fs(s)) => s.root@ == path_join(root@, game),
        (BackendTy::WebDav(w), StorageBackend::WebDav(s)) => s.cfg.root@ == path_join(w.root@, game) && s.cfg.url@
            == w.url@ && s.cfg.username@ == w.username@ && same_secret(s.cfg.psk, w.psk),
        _ => false,
    }
}

impl BackendInfo {
    /// The store for one game: the backend's root with the game's name below it.
    pub fn to_backend(&self, game_name: &str) -> (r: StorageBackend)
        ensures
            is_store_for(*self, game_name@, r),
    {
        match &self.info {
            BackendTy::Filesystem { root } => StorageBackend::Fs(FilesystemStore::new(join(root.as_str(), game_name))),
            BackendTy::WebDav(w) => StorageBackend::WebDav(
                WebDavStore::new(
                    WebDavInfo {
                        url: string_of(&chars_of(w.url.as_str())),
                        username: string_of(&chars_of(w.username.as_str())),
                        psk: copy_secret(&w.psk),
                        root: join(w.root.as_str(), game_name),
                    },
                ),
            ),
        }
    }
}

/// Whether two optional secrets hold the same kind and text.
pub open spec fn same_secret(a: Option<Secret>, b: Option<Secret>) -> bool {
    match (a, b) {
        (None, None) => true,
        (Some(x), Some(y)) => crate::config::secret_view(x) == crate::config::secret_view(y),
        _ => false,
    }
}

fn copy_secret(s: &Option<Secret>) -> (r: Option<Secret>)
    ensures
        same_secret(r, *s),
{
    match s {
        Some(Secret::SystemSecret(x)) => Some(Secret::SystemSecret(string_of(&chars_of(x.as_str())))),
        Some(Secret::Plain(x)) => Some(Secret::Plain(string_of(&chars_of(x.as_str())))),
        None => None,
    }
}

} // verus!
