//! The game manifest: save-file templates, launch predicates and the template engine.
use vstd::prelude::*;
use crate::config::SteamId;
use crate::paths::{path_join, join_no_clobber, path_join_chars, join_no_clobber_chars};
use crate::text::{chars_of, chars_are, push_all, slice_chars, find_char, string_of};

verus! {

/// What a manifest says about one game. `files` and `launch` are maps from
/// template to value: `wf` holds where no template occurs twice, and the
/// `insert_*` functions keep it so.
#[derive(Debug, Clone)]
pub struct GameManifest {
    pub steam: Option<SteamInfo>,
    pub gog: Option<GogInfo>,
    /// Save and config file templates, each with its predicates and tags.
    pub files: Vec<(TemplatePath, FileConfig)>,
    /// Launch executable templates, each with its launch configurations.
    pub launch: Vec<(TemplatePath, Vec<LaunchConfig>)>,
    pub install_dir: Option<GameInstallDir>,
}

impl GameManifest {
    /// No template occurs twice as a key of `files` or of `launch`.
    pub open spec fn wf(&self) -> bool {
        templates_distinct(self.files@) && templates_distinct(self.launch@)
    }

    /// Sets the file entry of template `t`, replacing an entry of that template.
    pub fn insert_file(&mut self, t: TemplatePath, cfg: FileConfig)
        requires
            old(self).wf(),
        ensures
            final(self).wf(),
            exists|at: Option<usize>| final(self).files@ == map_insert(old(self).files@, at, (t, cfg)),
            final(self).launch == old(self).launch,
            final(self).steam == old(self).steam,
            final(self).gog == old(self).gog,
    {
        let at = template_position(&self.files, &t);
        let ghost before = self.files@;
        let ghost entry = (t, cfg);
        proof {
            lemma_insert_keeps_distinct(before, at, entry);
        }
        match at {
            Some(i) => self.files.set(i, (t, cfg)),
            None => self.files.push((t, cfg)),
        }
        assert(self.files@ == map_insert(before, at, entry));
    }

    /// Sets the launch entry of template `t`, replacing an entry of that template.
    pub fn insert_launch(&mut self, t: TemplatePath, cfgs: Vec<LaunchConfig>)
        requires
            old(self).wf(),
        ensures
            final(self).wf(),
            exists|at: Option<usize>| final(self).launch@ == map_insert(old(self).launch@, at, (t, cfgs)),
            final(self).files == old(self).files,
            final(self).steam == old(self).steam,
            final(self).gog == old(self).gog,
    {
        let at = template_position(&self.launch, &t);
        let ghost before = self.launch@;
        let ghost entry = (t, cfgs);
        proof {
            lemma_insert_keeps_distinct(before, at, entry);
        }
        match at {
            Some(i) => self.launch.set(i, (t, cfgs)),
            None => self.launch.push((t, cfgs)),
        }
        assert(self.launch@ == map_insert(before, at, entry));
    }

    /// A manifest entry that says nothing.
    pub fn empty() -> (r: Self)
        ensures
            r.wf(),
            r.steam is None,
            r.gog is None,
            r.files@.len() == 0,
            r.launch@.len() == 0,
            r.install_dir is None,
    {
        GameManifest { steam: None, gog: None, files: Vec::new(), launch: Vec::new(), install_dir: None }
    }
}

/// The name of the folder the game is installed in.
#[derive(Debug, Clone)]
pub struct GameInstallDir {
    pub name: String,
}

/// The game name and manifest entry of every game, in manifest order: a map
/// from name to entry, where `names_distinct` holds and `insert_game` keeps it.
pub type GameManifests = Vec<(String, GameManifest)>;

/// Whether no template occurs twice as a key.
pub open spec fn templates_distinct<V>(s: Seq<(TemplatePath, V)>) -> bool {
    forall|a: int, b: int| 0 <= a < b < s.len() ==> (#[trigger] s[a]).0@ != (#[trigger] s[b]).0@
}

/// Whether no game name occurs twice.
pub open spec fn names_distinct(s: Seq<(String, GameManifest)>) -> bool {
    forall|a: int, b: int| 0 <= a < b < s.len() ==> (#[trigger] s[a]).0@ != (#[trigger] s[b]).0@
}

/// The entry of key `k`, replaced where `k` is present, else added at the end.
pub open spec fn map_insert<K, V>(s: Seq<(K, V)>, at: Option<usize>, entry: (K, V)) -> Seq<(K, V)> {
    match at {
        Some(i) => s.update(i as int, entry),
        None => s.push(entry),
    }
}

fn template_position<V>(s: &Vec<(TemplatePath, V)>, k: &TemplatePath) -> (r: Option<usize>)
    ensures
        match r {
            Some(i) => i < s@.len() && s@[i as int].0@ == k@,
            None => forall|j: int| 0 <= j < s@.len() ==> s@[j].0@ != k@,
        },
{
    let kc = chars_of(k.raw.as_str());
    let mut i: usize = 0;
    while i < s.len()
        invariant
            kc@ == k@,
            i <= s@.len(),
            forall|j: int| 0 <= j < i ==> s@[j].0@ != k@,
        decreases s.len() - i,
    {
        if crate::text::chars_eq(&chars_of(s[i].0.raw.as_str()), &kc) {
            return Some(i);
        }
        i = i + 1;
    }
    None
}

proof fn lemma_insert_keeps_distinct<V>(s: Seq<(TemplatePath, V)>, at: Option<usize>, entry: (TemplatePath, V))
    requires
        templates_distinct(s),
        match at {
            Some(i) => i < s.len() && s[i as int].0@ == entry.0@,
            None => forall|j: int| 0 <= j < s.len() ==> s[j].0@ != entry.0@,
        },
    ensures
        templates_distinct(map_insert(s, at, entry)),
{
    let t = map_insert(s, at, entry);
    assert forall|a: int, b: int| 0 <= a < b < t.len() implies (#[trigger] t[a]).0@ != (#[trigger] t[b]).0@ by {
        match at {
            Some(i) => {
                assert(s[a].0@ != s[b].0@);
            },
            None => {
                if b < s.len() {
                    assert(s[a].0@ != s[b].0@);
                }
            },
        }
    };
}

/// Sets the entry of the game `name`, replacing an entry of that name.
pub fn insert_game(games: &mut GameManifests, name: String, game: GameManifest)
    requires
        names_distinct(old(games)@),
    ensures
        names_distinct(final(games)@),
        exists|at: Option<usize>| final(games)@ == map_insert(old(games)@, at, (name, game)),
        exists|i: int| 0 <= i < final(games)@.len() && final(games)@[i].0@ == name@,
{
    let ghost entry = (name, game);
    let kc = chars_of(name.as_str());
    let mut i: usize = 0;
    while i < games.len()
        invariant
            kc@ == name@,
            entry == (name, game),
            games@ == old(games)@,
            names_distinct(games@),
            i <= games@.len(),
            forall|j: int| 0 <= j < i ==> games@[j].0@ != name@,
        decreases games.len() - i,
    {
        if crate::text::chars_eq(&chars_of(games[i].0.as_str()), &kc) {
            let ghost before = games@;
            games.set(i, (name, game));
            proof {
                assert(games@ == map_insert(old(games)@, Some(i), entry));
                assert forall|a: int, b: int| 0 <= a < b < games@.len() implies (#[trigger] games@[a]).0@ != (
                #[trigger] games@[b]).0@ by {
                    assert(before[a].0@ != before[b].0@);
                };
                assert(games@[i as int].0@ == name@);
            }
            return;
        }
        i = i + 1;
    }
    games.push((name, game));
    proof {
        assert(games@ == map_insert(old(games)@, None, entry));
        let n = old(games)@.len() as int;
        assert(games@[n].0@ == name@);
        assert forall|a: int, b: int| 0 <= a < b < games@.len() implies (#[trigger] games@[a]).0@ != (
        #[trigger] games@[b]).0@ by {
            if b < n {
                assert(old(games)@[a].0@ != old(games)@[b].0@);
            }
        };
    }
}

/// A path that may hold placeholders such as `<base>` or `<winLocalAppData>`.
#[derive(Debug, Clone)]
pub struct TemplatePath {
    pub raw: String,
}

impl View for TemplatePath {
    type V = Seq<char>;

    open spec fn view(&self) -> Seq<char> {
        self.raw@
    }
}

/// The platform a predicate is tested against.
#[derive(Debug, Clone, Copy, PartialEq, Eq, Structural)]
pub struct PlatformInfo {
    pub store: Option<Store>,
    pub wine: bool,
}

#[derive(Debug, Clone)]
pub struct LaunchConfig {
    pub preds: Vec<LaunchPredicate>,
}

/// Whether every predicate of `preds` holds on `info`.
pub open spec fn all_sat(preds: Seq<LaunchPredicate>, info: PlatformInfo) -> bool {
    forall|i: int| 0 <= i < preds.len() ==> (#[trigger] preds[i]).sat_spec(info)
}

/// Whether every predicate of `preds` holds on `info`.
pub fn preds_sat(preds: &Vec<LaunchPredicate>, info: PlatformInfo) -> (r: bool)
    ensures
        r == all_sat(preds@, info),
{
    let mut i: usize = 0;
    while i < preds.len()
        invariant
            i <= preds.len(),
            forall|j: int| 0 <= j < i ==> (#[trigger] preds@[j]).sat_spec(info),
        decreases preds.len() - i,
    {
        if !preds[i].sat(info) {
            return false;
        }
        i = i + 1;
    }
    true
}

impl LaunchConfig {
    pub fn sat(&self, info: PlatformInfo) -> (r: bool)
        ensures
            r == all_sat(self.preds@, info),
    {
        preds_sat(&self.preds, info)
    }
}

/// Filters on the platform, each of which may be absent.
#[derive(Debug, Clone, Copy, PartialEq, Eq, Structural)]
pub struct LaunchPredicate {
    pub bit: Option<Arch>,
    pub os: Option<Os>,
    pub store: Option<Store>,
}

impl LaunchPredicate {
    /// Each present filter matches the host, and the store matches where both name one.
    pub open spec fn sat_spec(self, info: PlatformInfo) -> bool {
        &&& (self.bit matches Some(b) ==> b.sat_spec())
        &&& (self.os matches Some(o) ==> o.sat_spec(info.wine))
        &&& (info.store is None || self.store is None || info.store == self.store)
    }

    pub fn sat(&self, info: PlatformInfo) -> (r: bool)
        ensures
            r == self.sat_spec(info),
    {
        let bit_ok = match self.bit {
            Some(b) => b.sat(),
            None => true,
        };
        let os_ok = match self.os {
            Some(o) => o.sat(info.wine),
            None => true,
        };
        let store_ok = match (info.store, self.store) {
            (Some(a), Some(b)) => a == b,
            _ => true,
        };
        bit_ok && os_ok && store_ok
    }
}

#[derive(Debug, Clone)]
pub struct FileConfig {
    pub preds: Vec<LaunchPredicate>,
    pub tags: Vec<FileTag>,
}

#[derive(Debug, Clone, Copy, PartialEq, Eq, Structural, Hash)]
pub enum FileTag {
    Save,
    Config,
    Other,
}

/// Whether `tags` holds the save tag.
pub fn has_save_tag(tags: &Vec<FileTag>) -> (r: bool)
    ensures
        r == tags@.contains(FileTag::Save),
{
    let mut i: usize = 0;
    while i < tags.len()
        invariant
            i <= tags.len(),
            forall|j: int| 0 <= j < i ==> tags@[j] != FileTag::Save,
        decreases tags.len() - i,
    {
        if tags[i] == FileTag::Save {
            assert(tags@[i as int] == FileTag::Save);
            return true;
        }
        i = i + 1;
    }
    false
}

#[derive(Debug, Clone, Copy, PartialEq, Eq, Structural, Hash)]
pub enum Os {
    Windows,
    Linux,
    Mac,
    Dos,
}

/// The operating system this library runs on.
pub const HOST_OS: Os = Os::Linux;

impl Os {
    /// Windows is met under Wine; otherwise the host's own system is.
    pub open spec fn sat_spec(self, wine: bool) -> bool {
        (wine && self == Os::Windows) || self == HOST_OS
    }

    pub fn sat(self, wine: bool) -> (r: bool)
        ensures
            r == self.sat_spec(wine),
    {
        if wine && self == Os::Windows {
            return true;
        }
        self == HOST_OS
    }
}

#[derive(Debug, Clone, Copy, PartialEq, Eq, Structural, Hash)]
pub enum Store {
    Steam,
    Gog,
    Epic,
    Other,
}

#[derive(Debug, Clone, Copy, PartialEq, Eq, Structural, Hash)]
pub enum Arch {
    X86_64,
    X86,
}

/// Whether the host has 64-bit pointers.
pub open spec fn host_is_64bit() -> bool {
    usize::MAX == u64::MAX
}

impl Arch {
    /// The architecture's word size is the host's.
    pub open spec fn sat_spec(self) -> bool {
        if host_is_64bit() {
            self == Arch::X86_64
        } else {
            self == Arch::X86
        }
    }

    pub fn sat(self) -> (r: bool)
        ensures
            r == self.sat_spec(),
    {
        let wide = usize::MAX as u128 == u64::MAX as u128;
        if wide {
            self == Arch::X86_64
        } else {
            self == Arch::X86
        }
    }
}

pub type SteamInfo = StoreInfo<SteamId>;

pub type GogInfo = StoreInfo<u32>;

#[derive(Debug, Clone, Copy)]
pub struct StoreInfo<Id> {
    pub id: Id,
}

/// Why a template could not be resolved.
#[derive(Debug, Clone)]
pub enum TemplateError {
    /// A `<` without a `>` after it.
    NoClosingDelim,
    /// The host has no such directory.
    FailedToLocateDir(String),
    /// The variable, written with its delimiters, has no value here.
    VariableNotAvailable(String),
    /// The name between the delimiters is not a known variable.
    UnknownVariable(String),
}

/// A template error, with its text as characters.
pub enum TemplateFault {
    NoClosingDelim,
    FailedToLocateDir(Seq<char>),
    VariableNotAvailable(Seq<char>),
    UnknownVariable(Seq<char>),
}

impl View for TemplateError {
    type V = TemplateFault;

    open spec fn view(&self) -> TemplateFault {
        match self {
            TemplateError::NoClosingDelim => TemplateFault::NoClosingDelim,
            TemplateError::FailedToLocateDir(s) => TemplateFault::FailedToLocateDir(s@),
            TemplateError::VariableNotAvailable(s) => TemplateFault::VariableNotAvailable(s@),
            TemplateError::UnknownVariable(s) => TemplateFault::UnknownVariable(s@),
        }
    }
}

/// The values that template variables stand for.
#[derive(Debug, Clone)]
pub struct TemplateInfo {
    pub win_prefix: String,
    pub win_user: String,
    pub base_dir: Option<String>,
    /// Directory where games are installed: the Steam library, or the launcher's game folder.
    pub root: Option<String>,
    pub store_user_id: Option<String>,
    pub home_dir: Option<String>,
    pub xdg_config: Option<String>,
    pub xdg_data: Option<String>,
    /// Install folder of the game in the manifest, or the game name.
    pub install_dir: Option<String>,
}

/// The host's own directories, used where a `TemplateInfo` leaves one unset.
#[derive(Debug, Clone)]
pub struct HostDirs {
    pub data_dir: Option<String>,
    pub config_dir: Option<String>,
    pub home_dir: Option<String>,
}

/// The characters of an optional string.
pub open spec fn opt_view(o: Option<String>) -> Option<Seq<char>> {
    match o {
        Some(s) => Some(s@),
        None => None,
    }
}

/// A directory of `info`, else of the host, else a failure naming `var`.
pub open spec fn dir_value(mine: Option<String>, host: Option<String>, var: Seq<char>) -> Result<
    Seq<char>,
    TemplateFault,
> {
    match mine {
        Some(d) => Ok(d@),
        None => match host {
            Some(d) => Ok(d@),
            None => Err(TemplateFault::FailedToLocateDir(var)),
        },
    }
}

/// An optional variable of `info`, else a failure naming it with its delimiters.
pub open spec fn opt_value(v: Option<String>, delimited: Seq<char>) -> Result<Seq<char>, TemplateFault> {
    match v {
        Some(d) => Ok(d@),
        None => Err(TemplateFault::VariableNotAvailable(delimited)),
    }
}

/// The Wine user's directory: `<win_prefix>/users/<win_user>`.
pub open spec fn win_user_dir(info: TemplateInfo) -> Seq<char> {
    path_join(path_join(info.win_prefix@, "users"@), info.win_user@)
}

/// `<base>`: the base directory, else `<root>` joined with `<game>`.
pub open spec fn base_value(info: TemplateInfo) -> Result<Seq<char>, TemplateFault> {
    match info.base_dir {
        Some(b) => Ok(b@),
        None => match opt_value(info.root, "<root>"@) {
            Err(e) => Err(e),
            Ok(r) => match opt_value(info.install_dir, "<game>"@) {
                Err(e) => Err(e),
                Ok(g) => Ok(join_no_clobber(r, g)),
            },
        },
    }
}

/// What the variable named `var` stands for.
pub open spec fn var_value(var: Seq<char>, info: TemplateInfo, host: HostDirs) -> Result<
    Seq<char>,
    TemplateFault,
> {
    if var == "xdgData"@ {
        dir_value(info.xdg_data, host.data_dir, var)
    } else if var == "xdgConfig"@ {
        dir_value(info.xdg_config, host.config_dir, var)
    } else if var == "home"@ {
        dir_value(info.home_dir, host.home_dir, var)
    } else if var == "winAppData"@ {
        Ok(path_join(path_join(win_user_dir(info), "AppData"@), "Roaming"@))
    } else if var == "winLocalAppData"@ {
        Ok(path_join(path_join(win_user_dir(info), "AppData"@), "Local"@))
    } else if var == "winDocuments"@ {
        Ok(path_join(win_user_dir(info), "Documents"@))
    } else if var == "base"@ {
        base_value(info)
    } else if var == "root"@ {
        opt_value(info.root, "<root>"@)
    } else if var == "storeUserId"@ {
        opt_value(info.store_user_id, "<storeUserId>"@)
    } else if var == "game"@ {
        opt_value(info.install_dir, "<game>"@)
    } else {
        Err(TemplateFault::UnknownVariable(var))
    }
}

/// The position of the first `c` in `s`, or the length of `s` if there is none.
pub open spec fn index_of(s: Seq<char>, c: char) -> int
    decreases s.len(),
{
    if s.len() == 0 {
        0
    } else if s[0] == c {
        0
    } else {
        1 + index_of(s.drop_first(), c)
    }
}

/// The template `t` with every `<var>` replaced by its value, left to right;
/// the first failure met is the result.
pub open spec fn resolve(t: Seq<char>, info: TemplateInfo, host: HostDirs) -> Result<
    Seq<char>,
    TemplateFault,
>
    decreases t.len(),
{
    let lt = index_of(t, '<');
    if !(0 <= lt < t.len()) {
        Ok(t)
    } else {
        let rest = t.subrange(lt + 1, t.len() as int);
        let gt = index_of(rest, '>');
        if !(0 <= gt < rest.len()) {
            Err(TemplateFault::NoClosingDelim)
        } else {
            match var_value(rest.subrange(0, gt), info, host) {
                Err(e) => Err(e),
                Ok(v) => match resolve(rest.subrange(gt + 1, rest.len() as int), info, host) {
                    Err(e) => Err(e),
                    Ok(tail) => Ok(t.subrange(0, lt) + v + tail),
                },
            }
        }
    }
}

/// `r` put before the text of a successful result.
pub open spec fn prepend(o: Seq<char>, r: Result<Seq<char>, TemplateFault>) -> Result<
    Seq<char>,
    TemplateFault,
> {
    match r {
        Ok(x) => Ok(o + x),
        Err(e) => Err(e),
    }
}

/// The result of a template resolution, with its text as characters.
pub open spec fn result_view(r: Result<String, TemplateError>) -> Result<Seq<char>, TemplateFault> {
    match r {
        Ok(s) => Ok(s@),
        Err(e) => Err(e@),
    }
}

/// Where `i` is the first `c` in `s` (or the length, if `c` is absent), `index_of` gives `i`.
pub proof fn lemma_index_of(s: Seq<char>, c: char, i: int)
    requires
        0 <= i <= s.len(),
        forall|j: int| 0 <= j < i ==> s[j] != c,
        i == s.len() || s[i] == c,
    ensures
        index_of(s, c) == i,
    decreases s.len(),
{
    if s.len() > 0 && s[0] != c {
        assert forall|j: int| 0 <= j < i - 1 implies s.drop_first()[j] != c by {
            assert(s.drop_first()[j] == s[j + 1]);
        };
        lemma_index_of(s.drop_first(), c, i - 1);
    }
}

/// `index_of` points at the first `c`, or past the end where there is none.
pub proof fn lemma_index_of_first(s: Seq<char>, c: char)
    ensures
        0 <= index_of(s, c) <= s.len(),
        forall|j: int| 0 <= j < index_of(s, c) ==> s[j] != c,
        index_of(s, c) < s.len() ==> s[index_of(s, c)] == c,
    decreases s.len(),
{
    if s.len() > 0 && s[0] != c {
        lemma_index_of_first(s.drop_first(), c);
        assert forall|j: int| 0 <= j < index_of(s, c) implies s[j] != c by {
            if j > 0 {
                assert(s[j] == s.drop_first()[j - 1]);
            }
        };
    }
}

/// Whether `s` holds no `<`.
pub open spec fn no_open(s: Seq<char>) -> bool {
    forall|i: int| 0 <= i < s.len() ==> s[i] != '<'
}

/// Whether an optional value holds no `<`.
pub open spec fn opt_no_open(o: Option<String>) -> bool {
    o matches Some(v) ==> no_open(v@)
}

/// Whether every value that `info` and `host` give holds no `<`.
pub open spec fn values_plain(info: TemplateInfo, host: HostDirs) -> bool {
    &&& no_open(info.win_prefix@)
    &&& no_open(info.win_user@)
    &&& opt_no_open(info.base_dir)
    &&& opt_no_open(info.root)
    &&& opt_no_open(info.store_user_id)
    &&& opt_no_open(info.home_dir)
    &&& opt_no_open(info.xdg_config)
    &&& opt_no_open(info.xdg_data)
    &&& opt_no_open(info.install_dir)
    &&& opt_no_open(host.data_dir)
    &&& opt_no_open(host.config_dir)
    &&& opt_no_open(host.home_dir)
}

proof fn lemma_join_no_open(a: Seq<char>, b: Seq<char>)
    requires
        no_open(a),
        no_open(b),
    ensures
        no_open(path_join(a, b)),
        no_open(join_no_clobber(a, b)),
{
    let b2 = seq!['.'] + b;
    assert(no_open(b2)) by {
        assert forall|i: int| 0 <= i < b2.len() implies b2[i] != '<' by {
            if i > 0 {
                assert(b2[i] == b[i - 1]);
            }
        };
    };
    assert(no_open(path_join(a, b)));
    assert(no_open(path_join(a, b2)));
}

proof fn lemma_var_value_no_open(var: Seq<char>, info: TemplateInfo, host: HostDirs)
    requires
        values_plain(info, host),
    ensures
        var_value(var, info, host) matches Ok(v) ==> no_open(v),
{
    reveal_strlit("users");
    reveal_strlit("AppData");
    reveal_strlit("Roaming");
    reveal_strlit("Local");
    reveal_strlit("Documents");
    lemma_join_no_open(info.win_prefix@, "users"@);
    lemma_join_no_open(path_join(info.win_prefix@, "users"@), info.win_user@);
    let w = win_user_dir(info);
    lemma_join_no_open(w, "AppData"@);
    lemma_join_no_open(path_join(w, "AppData"@), "Roaming"@);
    lemma_join_no_open(path_join(w, "AppData"@), "Local"@);
    lemma_join_no_open(w, "Documents"@);
    if info.root is Some && info.install_dir is Some {
        lemma_join_no_open(info.root->Some_0@, info.install_dir->Some_0@);
    }
}

/// A successful resolution holds no `<` where no value does.
pub proof fn lemma_resolve_no_open(t: Seq<char>, info: TemplateInfo, host: HostDirs)
    requires
        values_plain(info, host),
    ensures
        resolve(t, info, host) matches Ok(r) ==> no_open(r),
    decreases t.len(),
{
    lemma_index_of_first(t, '<');
    let lt = index_of(t, '<');
    if 0 <= lt < t.len() {
        let rest = t.subrange(lt + 1, t.len() as int);
        let gt = index_of(rest, '>');
        if 0 <= gt < rest.len() {
            let var = rest.subrange(0, gt);
            lemma_var_value_no_open(var, info, host);
            let next = rest.subrange(gt + 1, rest.len() as int);
            lemma_resolve_no_open(next, info, host);
            if let Ok(r) = resolve(t, info, host) {
                let v = var_value(var, info, host)->Ok_0;
                let tail = resolve(next, info, host)->Ok_0;
                let head = t.subrange(0, lt);
                assert(r == head + v + tail);
                assert forall|i: int| 0 <= i < r.len() implies r[i] != '<' by {
                    if i < head.len() {
                        assert(r[i] == t[i]);
                    } else if i < head.len() + v.len() {
                        assert(r[i] == v[i - head.len()]);
                    } else {
                        assert(r[i] == tail[i - head.len() - v.len()]);
                    }
                };
            }
        }
    }
}

/// A template without placeholders resolves to itself.
pub proof fn lemma_resolve_plain(t: Seq<char>, info: TemplateInfo, host: HostDirs)
    requires
        no_open(t),
    ensures
        resolve(t, info, host) == Ok::<Seq<char>, TemplateFault>(t),
{
    lemma_index_of(t, '<', t.len() as int);
}

/// Resolution does not depend on the host where `info` sets every directory,
/// and resolving its result again changes nothing where no value holds a `<`.
pub proof fn lemma_resolve_stable(t: Seq<char>, info: TemplateInfo, host: HostDirs, other: HostDirs)
    requires
        sets_all_dirs(info),
        values_plain(info, host),
    ensures
        resolve(t, info, host) == resolve(t, info, other),
        resolve(t, info, host) matches Ok(r) ==> resolve(r, info, host) == Ok::<Seq<char>, TemplateFault>(r),
{
    lemma_resolve_host_independent(t, info, host, other);
    lemma_resolve_no_open(t, info, host);
    if let Ok(r) = resolve(t, info, host) {
        lemma_resolve_plain(r, info, host);
    }
}

/// A template whose first placeholder is `<var>` resolves to the text before
/// it, the variable's value, then the rest resolved; or fails as the variable does.
pub proof fn lemma_resolve_first_var(pre: Seq<char>, var: Seq<char>, post: Seq<char>, info: TemplateInfo, host: HostDirs)
    requires
        no_open(pre),
        forall|i: int| 0 <= i < var.len() ==> var[i] != '>',
    ensures
        resolve(pre + seq!['<'] + var + seq!['>'] + post, info, host) == match var_value(var, info, host) {
            Err(e) => Err(e),
            Ok(v) => prepend(pre + v, resolve(post, info, host)),
        },
{
    let t = pre + seq!['<'] + var + seq!['>'] + post;
    assert forall|j: int| 0 <= j < pre.len() implies t[j] != '<' by {
        assert(t[j] == pre[j]);
    };
    lemma_index_of(t, '<', pre.len() as int);
    let rest = t.subrange(pre.len() as int + 1, t.len() as int);
    assert(rest =~= var + seq!['>'] + post);
    assert forall|j: int| 0 <= j < var.len() implies rest[j] != '>' by {
        assert(rest[j] == var[j]);
    };
    lemma_index_of(rest, '>', var.len() as int);
    assert(rest.subrange(0, var.len() as int) =~= var);
    assert(rest.subrange(var.len() as int + 1, rest.len() as int) =~= post);
    assert(t.subrange(0, pre.len() as int) =~= pre);
    if let Ok(v) = var_value(var, info, host) {
        if let Ok(tail) = resolve(post, info, host) {
            assert(pre + v + tail =~= (pre + v) + tail);
        }
    }
}

/// A resolvable template followed by more text resolves to its own result
/// followed by that text resolved; a failure in the text is the result.
pub proof fn lemma_resolve_concat(pre: Seq<char>, s: Seq<char>, info: TemplateInfo, host: HostDirs)
    requires
        resolve(pre, info, host) is Ok,
    ensures
        resolve(pre + s, info, host) == prepend(resolve(pre, info, host)->Ok_0, resolve(s, info, host)),
    decreases pre.len(),
{
    let w = pre + s;
    lemma_index_of_first(pre, '<');
    let lt = index_of(pre, '<');
    if lt == pre.len() {
        lemma_index_of_first(s, '<');
        let ls = index_of(s, '<');
        assert forall|j: int| 0 <= j < pre.len() + ls implies w[j] != '<' by {
            if j < pre.len() {
                assert(w[j] == pre[j]);
            } else {
                assert(w[j] == s[j - pre.len()]);
            }
        };
        if ls == s.len() {
            lemma_index_of(w, '<', w.len() as int);
            assert(resolve(s, info, host) == Ok::<Seq<char>, TemplateFault>(s));
        } else {
            assert(w[pre.len() + ls] == s[ls]);
            lemma_index_of(w, '<', pre.len() + ls);
            let rest = s.subrange(ls + 1, s.len() as int);
            assert(w.subrange(pre.len() + ls + 1, w.len() as int) =~= rest);
            assert(w.subrange(0, pre.len() + ls) =~= pre + s.subrange(0, ls));
            let gt = index_of(rest, '>');
            if 0 <= gt < rest.len() {
                if let Ok(v) = var_value(rest.subrange(0, gt), info, host) {
                    if let Ok(tail) = resolve(rest.subrange(gt + 1, rest.len() as int), info, host) {
                        assert(pre + s.subrange(0, ls) + v + tail =~= pre + (s.subrange(0, ls) + v + tail));
                    }
                }
            }
        }
    } else {
        assert forall|j: int| 0 <= j < lt implies w[j] != '<' by {
            assert(w[j] == pre[j]);
        };
        lemma_index_of(w, '<', lt);
        let rest = pre.subrange(lt + 1, pre.len() as int);
        let rest2 = w.subrange(lt + 1, w.len() as int);
        assert(rest2 =~= rest + s);
        lemma_index_of_first(rest, '>');
        let gt = index_of(rest, '>');
        assert forall|j: int| 0 <= j < gt implies rest2[j] != '>' by {
            assert(rest2[j] == rest[j]);
        };
        assert(rest2[gt] == rest[gt]);
        lemma_index_of(rest2, '>', gt);
        assert(rest2.subrange(0, gt) =~= rest.subrange(0, gt));
        let next = rest.subrange(gt + 1, rest.len() as int);
        assert(rest2.subrange(gt + 1, rest2.len() as int) =~= next + s);
        lemma_resolve_concat(next, s, info, host);
        let v = var_value(rest.subrange(0, gt), info, host)->Ok_0;
        let tail = resolve(next, info, host)->Ok_0;
        assert(w.subrange(0, lt) =~= pre.subrange(0, lt));
        if let Ok(x) = resolve(s, info, host) {
            assert(pre.subrange(0, lt) + v + (tail + x) =~= (pre.subrange(0, lt) + v + tail) + x);
        }
    }
}

/// A template fails with an unknown variable where every placeholder before
/// it resolves: no partly substituted text is returned.
pub proof fn lemma_resolve_unknown(pre: Seq<char>, var: Seq<char>, post: Seq<char>, info: TemplateInfo, host: HostDirs)
    requires
        resolve(pre, info, host) is Ok,
        forall|i: int| 0 <= i < var.len() ==> var[i] != '>',
        var_value(var, info, host) == Err::<Seq<char>, TemplateFault>(TemplateFault::UnknownVariable(var)),
    ensures
        resolve(pre + seq!['<'] + var + seq!['>'] + post, info, host) == Err::<Seq<char>, TemplateFault>(
            TemplateFault::UnknownVariable(var),
        ),
{
    let s = seq!['<'] + var + seq!['>'] + post;
    lemma_resolve_first_var(seq![], var, post, info, host);
    assert(seq![] + seq!['<'] + var + seq!['>'] + post =~= s);
    lemma_resolve_concat(pre, s, info, host);
    assert(pre + s =~= pre + seq!['<'] + var + seq!['>'] + post);
}

/// Without a base directory, `<base>` is `<root>` joined with `<game>`.
pub proof fn lemma_base_fallback(info: TemplateInfo, host: HostDirs, post: Seq<char>)
    requires
        info.base_dir is None,
        info.root is Some,
        info.install_dir is Some,
        no_open(post),
    ensures
        var_value("base"@, info, host) == Ok::<Seq<char>, TemplateFault>(
            join_no_clobber(info.root->Some_0@, info.install_dir->Some_0@),
        ),
        resolve(seq!['<'] + "base"@ + seq!['>'] + post, info, host) == Ok::<Seq<char>, TemplateFault>(
            join_no_clobber(info.root->Some_0@, info.install_dir->Some_0@) + post,
        ),
{
    reveal_strlit("base");
    reveal_strlit("xdgData");
    reveal_strlit("xdgConfig");
    reveal_strlit("home");
    reveal_strlit("winAppData");
    reveal_strlit("winLocalAppData");
    reveal_strlit("winDocuments");
    assert("base"@ != "xdgData"@);
    assert("base"@ != "xdgConfig"@);
    assert("base"@ != "home"@);
    assert("base"@ != "winAppData"@);
    assert("base"@ != "winLocalAppData"@);
    assert("base"@ != "winDocuments"@);
    lemma_resolve_first_var(seq![], "base"@, post, info, host);
    lemma_resolve_plain(post, info, host);
    assert(seq![] + seq!['<'] + "base"@ + seq!['>'] + post =~= seq!['<'] + "base"@ + seq!['>'] + post);
    assert(seq![] + join_no_clobber(info.root->Some_0@, info.install_dir->Some_0@) =~= join_no_clobber(
        info.root->Some_0@,
        info.install_dir->Some_0@,
    ));
}

/// Text without placeholders that follows a template is carried to its result.
pub proof fn lemma_resolve_append(t: Seq<char>, s: Seq<char>, info: TemplateInfo, host: HostDirs)
    requires
        resolve(t, info, host) is Ok,
        no_open(s),
    ensures
        resolve(t + s, info, host) == Ok::<Seq<char>, TemplateFault>(resolve(t, info, host)->Ok_0 + s),
    decreases t.len(),
{
    let w = t + s;
    lemma_index_of_first(t, '<');
    let lt = index_of(t, '<');
    if lt == t.len() {
        assert forall|j: int| 0 <= j < w.len() implies w[j] != '<' by {
            if j < t.len() {
                assert(w[j] == t[j]);
            } else {
                assert(w[j] == s[j - t.len()]);
            }
        };
        lemma_index_of(w, '<', w.len() as int);
    } else {
        assert forall|j: int| 0 <= j < lt implies w[j] != '<' by {
            assert(w[j] == t[j]);
        };
        lemma_index_of(w, '<', lt);
        let rest = t.subrange(lt + 1, t.len() as int);
        let rest2 = w.subrange(lt + 1, w.len() as int);
        assert(rest2 =~= rest + s);
        lemma_index_of_first(rest, '>');
        let gt = index_of(rest, '>');
        assert(gt < rest.len());
        assert forall|j: int| 0 <= j < gt implies rest2[j] != '>' by {
            assert(rest2[j] == rest[j]);
        };
        assert(rest2[gt] == rest[gt]);
        lemma_index_of(rest2, '>', gt);
        assert(rest2.subrange(0, gt) =~= rest.subrange(0, gt));
        let next = rest.subrange(gt + 1, rest.len() as int);
        assert(rest2.subrange(gt + 1, rest2.len() as int) =~= next + s);
        lemma_resolve_append(next, s, info, host);
        let v = var_value(rest.subrange(0, gt), info, host)->Ok_0;
        let tail = resolve(next, info, host)->Ok_0;
        assert(w.subrange(0, lt) =~= t.subrange(0, lt));
        assert(t.subrange(0, lt) + v + (tail + s) =~= (t.subrange(0, lt) + v + tail) + s);
    }
}

/// A template that ends with a separator resolves to a path that ends with one.
pub proof fn lemma_resolve_keeps_last_sep(t: Seq<char>, info: TemplateInfo, host: HostDirs)
    requires
        resolve(t, info, host) is Ok,
        t.len() > 0,
        t.last() == '/',
    ensures
        resolve(t, info, host)->Ok_0.len() > 0,
        resolve(t, info, host)->Ok_0.last() == '/',
    decreases t.len(),
{
    lemma_index_of_first(t, '<');
    let lt = index_of(t, '<');
    if lt < t.len() {
        let rest = t.subrange(lt + 1, t.len() as int);
        lemma_index_of_first(rest, '>');
        let gt = index_of(rest, '>');
        let next = rest.subrange(gt + 1, rest.len() as int);
        if next.len() == 0 {
            assert(rest.last() == rest[gt]);
            assert(t.last() == rest.last());
        } else {
            assert(next.last() == t.last());
            lemma_resolve_keeps_last_sep(next, info, host);
        }
    }
}

fn err_text(s: &str) -> (r: String)
    ensures
        r@ == s@,
{
    string_of(&chars_of(s))
}

fn dir_or_host(mine: &Option<String>, host: &Option<String>, var: &Vec<char>) -> (r: Result<
    Vec<char>,
    TemplateError,
>)
    ensures
        vec_result_view(r) == dir_value(*mine, *host, var@),
{
    match mine {
        Some(d) => Ok(chars_of(d.as_str())),
        None => match host {
            Some(d) => Ok(chars_of(d.as_str())),
            None => Err(TemplateError::FailedToLocateDir(string_of(var))),
        },
    }
}

fn opt_or_missing(v: &Option<String>, delimited: &str) -> (r: Result<Vec<char>, TemplateError>)
    ensures
        vec_result_view(r) == opt_value(*v, delimited@),
{
    match v {
        Some(d) => Ok(chars_of(d.as_str())),
        None => Err(TemplateError::VariableNotAvailable(err_text(delimited))),
    }
}

/// The result of a variable lookup, with its text as characters.
pub open spec fn vec_result_view(r: Result<Vec<char>, TemplateError>) -> Result<Seq<char>, TemplateFault> {
    match r {
        Ok(s) => Ok(s@),
        Err(e) => Err(e@),
    }
}

fn join_strs(a: &Vec<char>, b: &str) -> (r: Vec<char>)
    ensures
        r@ == path_join(a@, b@),
{
    path_join_chars(a, &chars_of(b))
}

fn win_user_dir_chars(info: &TemplateInfo) -> (r: Vec<char>)
    ensures
        r@ == win_user_dir(*info),
{
    let p = join_strs(&chars_of(info.win_prefix.as_str()), "users");
    path_join_chars(&p, &chars_of(info.win_user.as_str()))
}

/// Relies on `dirs::data_dir`: the host's data directory, where it has one.
#[verifier::external_body]
pub(crate) fn host_data_dir() -> (r: Option<String>) {
    dirs::data_dir().and_then(|p| p.to_str().map(|s| s.to_string()))
}

/// Relies on `dirs::config_dir`: the host's configuration directory, where it has one.
#[verifier::external_body]
pub(crate) fn host_config_dir() -> (r: Option<String>) {
    dirs::config_dir().and_then(|p| p.to_str().map(|s| s.to_string()))
}

/// Relies on `dirs::home_dir`: the user's home directory, where it is known.
#[verifier::external_body]
pub(crate) fn host_home_dir() -> (r: Option<String>) {
    dirs::home_dir().and_then(|p| p.to_str().map(|s| s.to_string()))
}

impl HostDirs {
    /// The directories of the host this runs on.
    pub fn detect() -> (r: Self) {
        HostDirs { data_dir: host_data_dir(), config_dir: host_config_dir(), home_dir: host_home_dir() }
    }
}

/// Whether `info` sets every directory that could otherwise come from the host.
pub open spec fn sets_all_dirs(info: TemplateInfo) -> bool {
    info.xdg_data is Some && info.xdg_config is Some && info.home_dir is Some
}

/// Where `info` sets every directory, the host's directories play no part.
pub proof fn lemma_resolve_host_independent(t: Seq<char>, info: TemplateInfo, h1: HostDirs, h2: HostDirs)
    requires
        sets_all_dirs(info),
    ensures
        resolve(t, info, h1) == resolve(t, info, h2),
    decreases t.len(),
{
    let lt = index_of(t, '<');
    if 0 <= lt < t.len() {
        let rest = t.subrange(lt + 1, t.len() as int);
        let gt = index_of(rest, '>');
        if 0 <= gt < rest.len() {
            assert(var_value(rest.subrange(0, gt), info, h1) == var_value(rest.subrange(0, gt), info, h2));
            lemma_resolve_host_independent(rest.subrange(gt + 1, rest.len() as int), info, h1, h2);
        }
    }
}

impl TemplatePath {
    pub fn new(s: String) -> (r: Self)
        ensures
            r@ == s@,
    {
        TemplatePath { raw: s }
    }

    /// The template as written. It is no filesystem path until it is resolved.
    pub fn as_raw_path(&self) -> (r: &str)
        ensures
            r@ == self@,
    {
        self.raw.as_str()
    }

    /// The value of the variable named `var`.
    fn do_repl(var: &Vec<char>, info: &TemplateInfo, host: &HostDirs) -> (r: Result<
        Vec<char>,
        TemplateError,
    >)
        ensures
            vec_result_view(r) == var_value(var@, *info, *host),
    {
        if chars_are(var, "xdgData") {
            dir_or_host(&info.xdg_data, &host.data_dir, var)
        } else if chars_are(var, "xdgConfig") {
            dir_or_host(&info.xdg_config, &host.config_dir, var)
        } else if chars_are(var, "home") {
            dir_or_host(&info.home_dir, &host.home_dir, var)
        } else if chars_are(var, "winAppData") {
            Ok(join_strs(&join_strs(&win_user_dir_chars(info), "AppData"), "Roaming"))
        } else if chars_are(var, "winLocalAppData") {
            Ok(join_strs(&join_strs(&win_user_dir_chars(info), "AppData"), "Local"))
        } else if chars_are(var, "winDocuments") {
            Ok(join_strs(&win_user_dir_chars(info), "Documents"))
        } else if chars_are(var, "base") {
            match &info.base_dir {
                Some(b) => Ok(chars_of(b.as_str())),
                None => {
                    let root = opt_or_missing(&info.root, "<root>")?;
                    let game = opt_or_missing(&info.install_dir, "<game>")?;
                    Ok(join_no_clobber_chars(&root, &game))
                },
            }
        } else if chars_are(var, "root") {
            opt_or_missing(&info.root, "<root>")
        } else if chars_are(var, "storeUserId") {
            opt_or_missing(&info.store_user_id, "<storeUserId>")
        } else if chars_are(var, "game") {
            opt_or_missing(&info.install_dir, "<game>")
        } else {
            Err(TemplateError::UnknownVariable(string_of(var)))
        }
    }

    /// The template with each `<var>` replaced by its value from `info`, or
    /// from `host` for a directory that `info` leaves unset.
    pub fn apply_substs_with(&self, info: &TemplateInfo, host: &HostDirs) -> (r: Result<
        String,
        TemplateError,
    >)
        ensures
            result_view(r) == resolve(self@, *info, *host),
    {
        let t = chars_of(self.raw.as_str());
        let mut out: Vec<char> = Vec::new();
        let mut pos: usize = 0;
        let n = t.len();
        assert(t@.subrange(0, t@.len() as int) =~= t@);
        assert(out@ + t@ =~= t@);
        loop
            invariant
                t@ == self@,
                n == t@.len(),
                pos <= t@.len(),
                resolve(self@, *info, *host) == prepend(
                    out@,
                    resolve(t@.subrange(pos as int, t@.len() as int), *info, *host),
                ),
            decreases t@.len() - pos,
        {
            let ghost suf = t@.subrange(pos as int, t@.len() as int);
            match find_char(&t, '<', pos) {
                None => {
                    proof {
                        assert forall|j: int| 0 <= j < suf.len() implies suf[j] != '<' by {
                            assert(suf[j] == t@[pos + j]);
                        };
                        lemma_index_of(suf, '<', suf.len() as int);
                    }
                    let tail = slice_chars(&t, pos, t.len());
                    push_all(&mut out, &tail);
                    return Ok(string_of(&out));
                },
                Some(lt) => {
                    let ghost rest = suf.subrange(lt - pos + 1, suf.len() as int);
                    proof {
                        assert forall|j: int| 0 <= j < lt - pos implies suf[j] != '<' by {
                            assert(suf[j] == t@[pos + j]);
                        };
                        assert(suf[lt - pos] == t@[lt as int]);
                        lemma_index_of(suf, '<', lt - pos);
                        assert(rest =~= t@.subrange(lt + 1, t@.len() as int));
                    }
                    match find_char(&t, '>', lt + 1) {
                        None => {
                            proof {
                                assert forall|j: int| 0 <= j < rest.len() implies rest[j] != '>' by {
                                    assert(rest[j] == t@[lt + 1 + j]);
                                };
                                lemma_index_of(rest, '>', rest.len() as int);
                            }
                            return Err(TemplateError::NoClosingDelim);
                        },
                        Some(gt) => {
                            proof {
                                assert forall|j: int| 0 <= j < gt - lt - 1 implies rest[j] != '>' by {
                                    assert(rest[j] == t@[lt + 1 + j]);
                                };
                                assert(rest[gt - lt - 1] == t@[gt as int]);
                                lemma_index_of(rest, '>', gt - lt - 1);
                            }
                            let var = slice_chars(&t, lt + 1, gt);
                            assert(var@ =~= rest.subrange(0, gt - lt - 1));
                            let v = Self::do_repl(&var, info, host)?;
                            let lit = slice_chars(&t, pos, lt);
                            let ghost old_out = out@;
                            push_all(&mut out, &lit);
                            push_all(&mut out, &v);
                            proof {
                                let next = t@.subrange(gt + 1, t@.len() as int);
                                assert(rest.subrange(gt - lt, rest.len() as int) =~= next);
                                assert(lit@ =~= suf.subrange(0, lt - pos));
                                assert(out@ =~= old_out + lit@ + v@);
                                match resolve(next, *info, *host) {
                                    Ok(tail) => {
                                        assert(old_out + (lit@ + v@ + tail) =~= out@ + tail);
                                    },
                                    Err(_) => {},
                                }
                            }
                            pos = gt + 1;
                        },
                    }
                },
            }
        }
    }

    /// The template with each `<var>` replaced by its value from `info`, or
    /// from the host for a directory that `info` leaves unset.
    pub fn apply_substs(&self, info: &TemplateInfo) -> (r: Result<String, TemplateError>)
        ensures
            exists|h: HostDirs| result_view(r) == resolve(self@, *info, h),
            sets_all_dirs(*info) ==> forall|h: HostDirs| result_view(r) == #[trigger] resolve(self@, *info, h),
    {
        let host = HostDirs::detect();
        let r = self.apply_substs_with(info, &host);
        proof {
            if sets_all_dirs(*info) {
                assert forall|h: HostDirs| result_view(r) == #[trigger] resolve(self@, *info, h) by {
                    lemma_resolve_host_independent(self@, *info, host, h);
                };
            }
        }
        r
    }
}

} // verus!
