//! Paths as Unix `std::path::Path` reads them, and the application's storage
//! locations: where settings, the event queue and logs live.

use vstd::prelude::*;
use crate::error::CoreError;
use crate::json::{entries_v, get_v, lemma_jv_object, lookup, number_from, str_of, u64_of, uint_v, Json, JsonV};
use crate::text::{chars_of, concat, owned, push_char, same_text, string_of};

verus! {

/// The pieces of `s` between slashes, with the piece being built.
pub open spec fn parts_state(s: Seq<char>) -> (Seq<Seq<char>>, Seq<char>)
    decreases s.len(),
{
    if s.len() == 0 {
        (Seq::empty(), Seq::empty())
    } else {
        let (p, c) = parts_state(s.drop_last());
        if s.last() == '/' {
            (p.push(c), Seq::empty())
        } else {
            (p, c.push(s.last()))
        }
    }
}

/// The pieces of `s` between slashes.
pub open spec fn parts(s: Seq<char>) -> Seq<Seq<char>> {
    parts_state(s).0.push(parts_state(s).1)
}

/// A piece that names a component: not empty and not `.`.
pub open spec fn named(p: Seq<char>) -> bool {
    p.len() > 0 && p != seq!['.']
}

/// The pieces that name components, in order.
pub open spec fn named_parts(ps: Seq<Seq<char>>) -> Seq<Seq<char>>
    decreases ps.len(),
{
    if ps.len() == 0 {
        Seq::empty()
    } else if named(ps.last()) {
        named_parts(ps.drop_last()).push(ps.last())
    } else {
        named_parts(ps.drop_last())
    }
}

pub open spec fn is_absolute_spec(s: Seq<char>) -> bool {
    s.len() > 0 && s[0] == '/'
}

/// The components of a path, as `Path::components` yields them on Unix: `/`
/// stands for the root, `.` for a leading current-directory component, `..`
/// for a parent component; every other one is a name.
pub open spec fn components_spec(s: Seq<char>) -> Seq<Seq<char>> {
    let ps = parts(s);
    if is_absolute_spec(s) {
        seq![seq!['/']] + named_parts(ps.drop_first())
    } else if ps[0] == seq!['.'] {
        seq![seq!['.']] + named_parts(ps.drop_first())
    } else {
        named_parts(ps)
    }
}

/// What `Path::starts_with` returns: the components of `base` begin those of `p`.
pub open spec fn path_starts_with_spec(p: Seq<char>, base: Seq<char>) -> bool {
    let a = components_spec(p);
    let b = components_spec(base);
    b.len() <= a.len() && a.subrange(0, b.len() as int) == b
}

/// What `Path::file_name` returns.
pub open spec fn file_name_spec(p: Seq<char>) -> Option<Seq<char>> {
    let c = components_spec(p);
    if c.len() > 0 && c.last() != seq!['/'] && c.last() != seq!['.'] && c.last() != seq![
        '.',
        '.',
    ] {
        Some(c.last())
    } else {
        None
    }
}

/// What `PathBuf::join` returns on Unix.
pub open spec fn join_spec(base: Seq<char>, p: Seq<char>) -> Seq<char> {
    if is_absolute_spec(p) {
        p
    } else if base.len() > 0 && base.last() != '/' {
        base + seq!['/'] + p
    } else {
        base + p
    }
}

pub open spec fn strs_v(v: Seq<String>) -> Seq<Seq<char>> {
    Seq::new(v.len(), |i: int| v[i]@)
}

proof fn lemma_strs_v_push(v: Seq<String>, x: String)
    ensures
        strs_v(v.push(x)) == strs_v(v).push(x@),
{
    assert(strs_v(v.push(x)) =~= strs_v(v).push(x@));
}

/// The pieces of `s` between slashes.
fn split_parts(s: &Vec<char>) -> (r: Vec<String>)
    ensures
        strs_v(r@) == parts(s@),
{
    let mut done: Vec<String> = Vec::new();
    let mut cur = String::new();
    let mut i: usize = 0;
    while i < s.len()
        invariant
            i <= s.len(),
            (strs_v(done@), cur@) == parts_state(s@.take(i as int)),
        decreases s.len() - i,
    {
        assert(s@.take(i + 1).drop_last() =~= s@.take(i as int));
        if s[i] == '/' {
            proof {
                lemma_strs_v_push(done@, cur);
            }
            done.push(cur);
            cur = String::new();
        } else {
            push_char(&mut cur, s[i]);
        }
        i = i + 1;
    }
    assert(s@.take(s.len() as int) =~= s@);
    proof {
        lemma_strs_v_push(done@, cur);
    }
    done.push(cur);
    done
}

fn is_named(p: &String) -> (r: bool)
    ensures
        r == named(p@),
{
    let v = chars_of(p.as_str());
    if v.len() == 0 {
        false
    } else if v.len() == 1 && v[0] == '.' {
        assert(v@ =~= seq!['.']);
        false
    } else {
        assert(v.len() != 1 ==> v@.len() != seq!['.'].len());
        true
    }
}

/// The components of a path, as `Path::components` yields them on Unix.
pub fn components(s: &str) -> (r: Vec<String>)
    ensures
        strs_v(r@) == components_spec(s@),
{
    let v = chars_of(s);
    let ps = split_parts(&v);
    let absolute = v.len() > 0 && v[0] == '/';
    let mut out: Vec<String> = Vec::new();
    let mut start: usize = 0;
    assert(strs_v(ps@).len() == ps@.len());
    assert(ps@.len() > 0);
    proof {
        reveal_strlit("/");
        reveal_strlit(".");
        assert("/"@ =~= seq!['/']);
        assert("."@ =~= seq!['.']);
    }
    if absolute {
        out.push(owned("/"));
        start = 1;
        assert(strs_v(out@) =~= seq![seq!['/']]);
    } else if same_text(ps[0].as_str(), ".") {
        out.push(owned("."));
        start = 1;
        assert(strs_v(out@) =~= seq![seq!['.']]);
    } else {
        assert(strs_v(out@) =~= Seq::<Seq<char>>::empty());
    }
    let ghost prefix = strs_v(out@);
    let ghost rest = strs_v(ps@).subrange(start as int, ps@.len() as int);
    let mut i: usize = start;
    while i < ps.len()
        invariant
            start <= i <= ps.len(),
            strs_v(ps@) == parts(s@),
            v@ == s@,
            absolute == is_absolute_spec(s@),
            absolute ==> start == 1 && prefix == seq![seq!['/']],
            !absolute && parts(s@)[0] == seq!['.'] ==> start == 1 && prefix == seq![seq!['.']],
            !absolute && parts(s@)[0] != seq!['.'] ==> start == 0 && prefix == Seq::<Seq<char>>::empty(),
            strs_v(out@) == prefix + named_parts(
                strs_v(ps@).subrange(start as int, i as int),
            ),
        decreases ps.len() - i,
    {
        let ghost before = strs_v(ps@).subrange(start as int, i as int);
        assert(strs_v(ps@).subrange(start as int, i + 1).drop_last() =~= before);
        if is_named(&ps[i]) {
            proof {
                lemma_strs_v_push(out@, ps[i as int]);
            }
            out.push(ps[i].clone());
        }
        i = i + 1;
    }
    proof {
        assert(strs_v(ps@).subrange(start as int, ps@.len() as int) =~= if start == 1 {
            parts(s@).drop_first()
        } else {
            parts(s@)
        });
        if !absolute && start == 0 {
            assert(strs_v(out@) =~= named_parts(parts(s@)));
        }
    }
    out
}

/// What `Path::starts_with` returns.
pub fn path_starts_with(p: &str, base: &str) -> (r: bool)
    ensures
        r == path_starts_with_spec(p@, base@),
{
    let a = components(p);
    let b = components(base);
    assert(strs_v(a@).len() == a@.len());
    assert(strs_v(b@).len() == b@.len());
    if b.len() > a.len() {
        return false;
    }
    let mut i: usize = 0;
    while i < b.len()
        invariant
            b.len() <= a.len(),
            i <= b.len(),
            strs_v(a@) == components_spec(p@),
            strs_v(b@) == components_spec(base@),
            strs_v(a@).len() == a@.len(),
            strs_v(b@).len() == b@.len(),
            forall|k: int| 0 <= k < i ==> strs_v(a@)[k] == strs_v(b@)[k],
        decreases b.len() - i,
    {
        if !same_text(a[i].as_str(), b[i].as_str()) {
            assert(strs_v(a@).subrange(0, b.len() as int)[i as int] != strs_v(b@)[i as int]);
            return false;
        }
        i = i + 1;
    }
    assert(strs_v(a@).subrange(0, b.len() as int) =~= strs_v(b@));
    true
}

/// What `Path::file_name` returns, as text.
pub fn file_name(p: &str) -> (r: Option<String>)
    ensures
        match r {
            Some(n) => file_name_spec(p@) == Some(n@),
            None => file_name_spec(p@) is None,
        },
{
    let c = components(p);
    assert(strs_v(c@).len() == c@.len());
    proof {
        reveal_strlit("/");
        reveal_strlit(".");
        reveal_strlit("..");
        assert("/"@ =~= seq!['/']);
        assert("."@ =~= seq!['.']);
        assert(".."@ =~= seq!['.', '.']);
    }
    if c.len() == 0 {
        return None;
    }
    let last = &c[c.len() - 1];
    assert(strs_v(c@).last() == last@);
    if same_text(last.as_str(), "/") || same_text(last.as_str(), ".") || same_text(
        last.as_str(),
        "..",
    ) {
        None
    } else {
        Some(last.clone())
    }
}

pub fn is_absolute(p: &str) -> (r: bool)
    ensures
        r == is_absolute_spec(p@),
{
    let v = chars_of(p);
    v.len() > 0 && v[0] == '/'
}

/// What `Path::new(base).join(p)` gives, as text.
pub fn join(base: &str, p: &str) -> (r: String)
    ensures
        r@ == join_spec(base@, p@),
{
    if is_absolute(p) {
        return owned(p);
    }
    let v = chars_of(base);
    if v.len() > 0 && v[v.len() - 1] != '/' {
        let mut r = string_of(&v);
        push_char(&mut r, '/');
        r.append(p);
        r
    } else {
        concat(base, p)
    }
}

/// The three directories that hold the application's files.
pub struct AppPaths {
    pub config_dir: String,
    pub data_dir: String,
    pub log_dir: String,
}

impl AppPaths {
    /// The directories `config`, `data` and `logs` inside `root`.
    pub fn from_root(root: &str) -> (r: AppPaths)
        ensures
            r.config_dir@ == join_spec(root@, "config"@),
            r.data_dir@ == join_spec(root@, "data"@),
            r.log_dir@ == join_spec(root@, "logs"@),
    {
        AppPaths {
            config_dir: join(root, "config"),
            data_dir: join(root, "data"),
            log_dir: join(root, "logs"),
        }
    }

    pub fn settings_file(&self) -> (r: String)
        ensures
            r@ == join_spec(self.config_dir@, "settings.json"@),
    {
        join(self.config_dir.as_str(), "settings.json")
    }

    pub fn events_db(&self) -> (r: String)
        ensures
            r@ == join_spec(self.data_dir@, "events.sqlite3"@),
    {
        join(self.data_dir.as_str(), "events.sqlite3")
    }

    pub fn health_file(&self) -> (r: String)
        ensures
            r@ == join_spec(self.data_dir@, "hook-health.json"@),
    {
        join(self.data_dir.as_str(), "hook-health.json")
    }

    /// The health report of diagnostic hook runs, kept apart from real ones.
    pub fn diagnostic_health_file(&self) -> (r: String)
        ensures
            r@ == join_spec(self.data_dir@, "hook-diagnostic.json"@),
    {
        join(self.data_dir.as_str(), "hook-diagnostic.json")
    }

    pub fn clone_paths(&self) -> (r: AppPaths)
        ensures
            r.config_dir@ == self.config_dir@,
            r.data_dir@ == self.data_dir@,
            r.log_dir@ == self.log_dir@,
    {
        AppPaths {
            config_dir: self.config_dir.clone(),
            data_dir: self.data_dir.clone(),
            log_dir: self.log_dir.clone(),
        }
    }
}

/// How the storage location was chosen.
#[derive(PartialEq, Eq, Structural, Clone, Copy, Debug)]
pub enum StorageMode {
    Default,
    Portable,
    Custom,
    Environment,
}

/// Where the application's files live, as the user interface shows it.
pub struct StorageInfo {
    pub configured: bool,
    pub mode: StorageMode,
    pub root: String,
    pub config_dir: String,
    pub data_dir: String,
    pub log_dir: String,
    pub locator_file: String,
}

/// The root reported for the system's default directories: its config directory.
pub fn default_root(paths: &AppPaths) -> (r: String)
    ensures
        r@ == paths.config_dir@,
{
    paths.config_dir.clone()
}

pub fn storage_info(
    configured: bool,
    mode: StorageMode,
    root: &str,
    paths: &AppPaths,
    locator_file: &str,
) -> (r: StorageInfo)
    ensures
        r.configured == configured,
        r.mode == mode,
        r.root@ == root@,
        r.config_dir@ == paths.config_dir@,
        r.data_dir@ == paths.data_dir@,
        r.log_dir@ == paths.log_dir@,
        r.locator_file@ == locator_file@,
{
    StorageInfo {
        configured,
        mode,
        root: owned(root),
        config_dir: paths.config_dir.clone(),
        data_dir: paths.data_dir.clone(),
        log_dir: paths.log_dir.clone(),
        locator_file: owned(locator_file),
    }
}

/// The storage index kept in the system's config directory.
pub struct StorageLocator {
    pub schema_version: u32,
    pub mode: StorageMode,
    pub root: Option<String>,
}

/// The name of the storage index file.
pub const STORAGE_FILE: &'static str = "storage.json";

/// The name of the directory that portable storage uses next to the program.
pub const PORTABLE_DATA_DIR: &'static str = "CodexNotifyData";

/// The marker file that selects portable storage.
pub const PORTABLE_MARKER: &'static str = ".codex-notify-portable";

/// Where the storage index lives.
pub fn locator_file(default: &AppPaths) -> (r: String)
    ensures
        r@ == join_spec(default.config_dir@, STORAGE_FILE@),
{
    join(default.config_dir.as_str(), STORAGE_FILE)
}

/// The outcome of locating storage, as a function of what the environment
/// shows: the system's default directories, the data directory forced by the
/// environment, the program's directory when it holds the portable marker,
/// the storage index when one exists, and whether default settings exist.
pub open spec fn resolve_spec(
    default: AppPaths,
    env_root: Option<Seq<char>>,
    portable_base: Option<Seq<char>>,
    locator: Option<StorageLocator>,
    settings_exist: bool,
) -> Result<(StorageMode, bool, Seq<char>), Seq<char>> {
    if env_root is Some {
        Ok((StorageMode::Environment, true, env_root->0))
    } else if portable_base is Some {
        Ok((StorageMode::Portable, true, join_spec(portable_base->0, PORTABLE_DATA_DIR@)))
    } else if locator is Some {
        let l = locator->0;
        if l.schema_version != 1 {
            Err("unsupported storage configuration schema"@)
        } else {
            match l.mode {
                StorageMode::Default => Ok((StorageMode::Default, true, default.config_dir@)),
                StorageMode::Portable | StorageMode::Custom => match l.root {
                    Some(root) => Ok((l.mode, true, root@)),
                    None => Err("storage location is missing its root path"@),
                },
                StorageMode::Environment => Err(
                    "environment storage mode cannot be persisted"@,
                ),
            }
        }
    } else {
        Ok((StorageMode::Default, settings_exist, default.config_dir@))
    }
}

/// Chooses the storage location: the directory forced by the environment
/// first, then portable storage next to the program, then the storage index,
/// then the system's default directories.
pub fn resolve_storage_from(
    default: &AppPaths,
    env_root: Option<&str>,
    portable_base: Option<&str>,
    locator: Option<&StorageLocator>,
    settings_exist: bool,
) -> (r: Result<(AppPaths, StorageInfo), CoreError>)
    ensures
        match resolve_spec(
            *default,
            match env_root {
                Some(s) => Some(s@),
                None => None,
            },
            match portable_base {
                Some(s) => Some(s@),
                None => None,
            },
            match locator {
                Some(l) => Some(*l),
                None => None,
            },
            settings_exist,
        ) {
            Ok((mode, configured, root)) => r matches Ok((paths, info)) && info.mode == mode
                && info.configured == configured && info.root@ == root && info.locator_file@
                == join_spec(default.config_dir@, STORAGE_FILE@) && info.config_dir@
                == paths.config_dir@ && info.data_dir@ == paths.data_dir@ && info.log_dir@
                == paths.log_dir@ && (mode == StorageMode::Default ==> paths.config_dir@
                == default.config_dir@ && paths.data_dir@ == default.data_dir@
                && paths.log_dir@ == default.log_dir@) && (mode != StorageMode::Default
                ==> paths.config_dir@ == join_spec(root, "config"@) && paths.data_dir@
                == join_spec(root, "data"@) && paths.log_dir@ == join_spec(root, "logs"@)),
            Err(m) => r matches Err(CoreError::InvalidConfig(x)) && x@ == m,
        },
{
    let locator_path = locator_file(default);
    if let Some(root) = env_root {
        let paths = AppPaths::from_root(root);
        let info = storage_info(true, StorageMode::Environment, root, &paths, locator_path.as_str());
        return Ok((paths, info));
    }
    if let Some(base) = portable_base {
        let root = join(base, PORTABLE_DATA_DIR);
        let paths = AppPaths::from_root(root.as_str());
        let info = storage_info(true, StorageMode::Portable, root.as_str(), &paths, locator_path.as_str());
        return Ok((paths, info));
    }
    if let Some(l) = locator {
        if l.schema_version != 1 {
            return Err(CoreError::InvalidConfig(owned("unsupported storage configuration schema")));
        }
        match l.mode {
            StorageMode::Default => {
                let paths = default.clone_paths();
                let info = storage_info(true, StorageMode::Default, default.config_dir.as_str(), &paths, locator_path.as_str());
                return Ok((paths, info));
            },
            StorageMode::Portable | StorageMode::Custom => {
                match &l.root {
                    Some(root) => {
                        let paths = AppPaths::from_root(root.as_str());
                        let info = storage_info(true, l.mode, root.as_str(), &paths, locator_path.as_str());
                        return Ok((paths, info));
                    },
                    None => {
                        return Err(CoreError::InvalidConfig(owned("storage location is missing its root path")));
                    },
                }
            },
            StorageMode::Environment => {
                return Err(CoreError::InvalidConfig(owned("environment storage mode cannot be persisted")));
            },
        }
    }
    let paths = default.clone_paths();
    let info = storage_info(settings_exist, StorageMode::Default, default.config_dir.as_str(), &paths, locator_path.as_str());
    Ok((paths, info))
}

/// Whether the new location `target` may receive the data of `current`: it is
/// not the same location, and no directory of one lies inside one of the other.
pub open spec fn migration_paths_ok(current: AppPaths, target: AppPaths) -> Result<(), Seq<char>> {
    let cur = seq![current.config_dir@, current.data_dir@, current.log_dir@];
    let tgt = seq![target.config_dir@, target.data_dir@, target.log_dir@];
    if cur == tgt {
        Err("the selected storage location is already in use"@)
    } else if exists|i: int, j: int|
        0 <= i < 3 && 0 <= j < 3 && (path_starts_with_spec(cur[i], tgt[j])
            || path_starts_with_spec(tgt[j], cur[i])) {
        Err("the new storage location cannot overlap the current location"@)
    } else {
        Ok(())
    }
}

fn dirs_of(p: &AppPaths) -> (r: Vec<String>)
    ensures
        r.len() == 3,
        strs_v(r@) == seq![p.config_dir@, p.data_dir@, p.log_dir@],
{
    let mut v: Vec<String> = Vec::new();
    v.push(p.config_dir.clone());
    v.push(p.data_dir.clone());
    v.push(p.log_dir.clone());
    assert(strs_v(v@) =~= seq![p.config_dir@, p.data_dir@, p.log_dir@]);
    v
}

/// Refuses a migration onto the current location or onto one that overlaps it.
pub fn validate_migration_paths(current: &AppPaths, target: &AppPaths) -> (r: Result<(), CoreError>)
    ensures
        match migration_paths_ok(*current, *target) {
            Ok(()) => r is Ok,
            Err(m) => r matches Err(CoreError::InvalidConfig(x)) && x@ == m,
        },
{
    let cur = dirs_of(current);
    let tgt = dirs_of(target);
    let ghost cv = strs_v(cur@);
    let ghost tv = strs_v(tgt@);
    if same_text(cur[0].as_str(), tgt[0].as_str()) && same_text(cur[1].as_str(), tgt[1].as_str())
        && same_text(cur[2].as_str(), tgt[2].as_str()) {
        assert(cv =~= tv);
        return Err(CoreError::InvalidConfig(owned("the selected storage location is already in use")));
    }
    assert(cv != tv);
    let mut i: usize = 0;
    while i < 3
        invariant
            i <= 3,
            cur.len() == 3,
            tgt.len() == 3,
            cv == strs_v(cur@),
            tv == strs_v(tgt@),
            cv == seq![current.config_dir@, current.data_dir@, current.log_dir@],
            tv == seq![target.config_dir@, target.data_dir@, target.log_dir@],
            cv != tv,
            forall|a: int, b: int|
                0 <= a < i && 0 <= b < 3 ==> !(path_starts_with_spec(cv[a], tv[b])
                    || path_starts_with_spec(tv[b], cv[a])),
        decreases 3 - i,
    {
        let mut j: usize = 0;
        while j < 3
            invariant
                i < 3,
                j <= 3,
                cur.len() == 3,
                tgt.len() == 3,
                cv == strs_v(cur@),
                tv == strs_v(tgt@),
                cv == seq![current.config_dir@, current.data_dir@, current.log_dir@],
                tv == seq![target.config_dir@, target.data_dir@, target.log_dir@],
                cv != tv,
                forall|a: int, b: int|
                    0 <= a < i && 0 <= b < 3 ==> !(path_starts_with_spec(cv[a], tv[b])
                        || path_starts_with_spec(tv[b], cv[a])),
                forall|b: int|
                    0 <= b < j ==> !(path_starts_with_spec(cv[i as int], tv[b])
                        || path_starts_with_spec(tv[b], cv[i as int])),
            decreases 3 - j,
        {
            if path_starts_with(cur[i].as_str(), tgt[j].as_str()) || path_starts_with(
                tgt[j].as_str(),
                cur[i].as_str(),
            ) {
                assert(path_starts_with_spec(cv[i as int], tv[j as int]) || path_starts_with_spec(tv[j as int], cv[i as int]));
                return Err(CoreError::InvalidConfig(owned("the new storage location cannot overlap the current location")));
            }
            j = j + 1;
        }
        i = i + 1;
    }
    Ok(())
}

/// Calls `directories::ProjectDirs::from("com", "Xiiiing", "CodexNotify")`
/// and reads its config, data and local data directories; they depend on
/// the user's environment, so nothing is stated of them.
#[verifier::external_body]
fn project_dirs() -> (r: Option<(String, String, String)>) {
    directories::ProjectDirs::from("com", "Xiiiing", "CodexNotify").map(
        |dirs|
            (
                dirs.config_dir().to_string_lossy().into_owned(),
                dirs.data_dir().to_string_lossy().into_owned(),
                dirs.data_local_dir().to_string_lossy().into_owned(),
            ),
    )
}

/// The application's directories made of the platform's directories `d`
/// (config, data, local data): the config and data directories themselves,
/// and `logs` inside the local data directory; an error when the platform
/// gave none.
pub open spec fn from_platform_dirs(
    d: Option<(Seq<char>, Seq<char>, Seq<char>)>,
    r: Result<AppPaths, CoreError>,
) -> bool {
    match d {
        Some((config, data, local)) => r matches Ok(p) && p.config_dir@ == config && p.data_dir@ == data
            && p.log_dir@ == join_spec(local, "logs"@),
        None => r matches Err(CoreError::InvalidConfig(m)) && m@
            == "platform application directories are unavailable"@,
    }
}

impl AppPaths {
    /// The system's application directories: config and data directories,
    /// and logs under the local data directory; see `from_platform_dirs`.
    /// Which directories the platform gives is up to the user's environment.
    pub fn system_default() -> (r: Result<AppPaths, CoreError>)
        ensures
            exists|d: Option<(Seq<char>, Seq<char>, Seq<char>)>| from_platform_dirs(d, r),
            r matches Err(e) ==> (e matches CoreError::InvalidConfig(m) && m@
                == "platform application directories are unavailable"@),
    {
        match project_dirs() {
            Some((config, data, local)) => {
                let r = Ok(
                    AppPaths { config_dir: config, data_dir: data, log_dir: join(local.as_str(), "logs") },
                );
                assert(from_platform_dirs(Some((config@, data@, local@)), r));
                r
            },
            None => {
                let r = Err(CoreError::InvalidConfig(owned("platform application directories are unavailable")));
                assert(from_platform_dirs(None, r));
                r
            },
        }
    }
}

/// Whether a storage location may be selected: the environment's location
/// is chosen by `CODEX_NOTIFY_DATA_DIR`, never selected, and a custom
/// location must be an absolute path.
pub fn storage_request(mode: StorageMode, custom_root: Option<&str>) -> (r: Result<(), CoreError>)
    ensures
        mode == StorageMode::Environment ==> (r matches Err(CoreError::InvalidConfig(m)) && m@
            == "environment storage is selected with CODEX_NOTIFY_DATA_DIR"@),
        mode == StorageMode::Custom ==> match custom_root {
            Some(c) => if is_absolute_spec(c@) {
                r is Ok
            } else {
                r matches Err(CoreError::InvalidConfig(m)) && m@ == "custom storage location must be an absolute path"@
            },
            None => r matches Err(CoreError::InvalidConfig(m)) && m@ == "custom storage location must be an absolute path"@,
        },
        (mode == StorageMode::Default || mode == StorageMode::Portable) ==> r is Ok,
{
    match mode {
        StorageMode::Environment => Err(
            CoreError::InvalidConfig(owned("environment storage is selected with CODEX_NOTIFY_DATA_DIR")),
        ),
        StorageMode::Custom => match custom_root {
            Some(c) => if is_absolute(c) {
                Ok(())
            } else {
                Err(CoreError::InvalidConfig(owned("custom storage location must be an absolute path")))
            },
            None => Err(CoreError::InvalidConfig(owned("custom storage location must be an absolute path"))),
        },
        _ => Ok(()),
    }
}

/// Whether storage may be migrated: not to the environment's location, and
/// not while `CODEX_NOTIFY_DATA_DIR` is in force.
pub fn migration_allowed(mode: StorageMode, env_active: bool) -> (r: Result<(), CoreError>)
    ensures
        (mode == StorageMode::Environment || env_active) ==> (r matches Err(CoreError::InvalidConfig(m)) && m@
            == "storage cannot be migrated while CODEX_NOTIFY_DATA_DIR is active"@),
        !(mode == StorageMode::Environment || env_active) ==> r is Ok,
{
    if mode == StorageMode::Environment || env_active {
        Err(CoreError::InvalidConfig(owned("storage cannot be migrated while CODEX_NOTIFY_DATA_DIR is active")))
    } else {
        Ok(())
    }
}

/// The storage index that selects `mode` at `root`: the default location
/// records no root.
pub fn locator_for(mode: StorageMode, root: &str) -> (r: StorageLocator)
    ensures
        r.schema_version == 1,
        r.mode == mode,
        mode == StorageMode::Default ==> r.root is None,
        mode != StorageMode::Default ==> (r.root matches Some(x) && x@ == root@),
{
    StorageLocator {
        schema_version: 1,
        mode,
        root: if mode == StorageMode::Default {
            None
        } else {
            Some(owned(root))
        },
    }
}

/// The name under which a storage mode is written.
pub open spec fn mode_text(m: StorageMode) -> Seq<char> {
    match m {
        StorageMode::Default => "default"@,
        StorageMode::Portable => "portable"@,
        StorageMode::Custom => "custom"@,
        StorageMode::Environment => "environment"@,
    }
}

/// The storage mode a written name stands for.
pub open spec fn mode_of_text(t: Seq<char>) -> Option<StorageMode> {
    if t == "default"@ {
        Some(StorageMode::Default)
    } else if t == "portable"@ {
        Some(StorageMode::Portable)
    } else if t == "custom"@ {
        Some(StorageMode::Custom)
    } else if t == "environment"@ {
        Some(StorageMode::Environment)
    } else {
        None
    }
}

/// The storage index as JSON: its schema version, its mode and, when there
/// is one, its root, in that order.
pub open spec fn locator_v(l: StorageLocator) -> JsonV {
    JsonV::Object(
        seq![("schemaVersion"@, uint_v(l.schema_version as u64)), ("mode"@, JsonV::Str(mode_text(l.mode)))]
            + match l.root {
            Some(r) => seq![("root"@, JsonV::Str(r@))],
            None => Seq::empty(),
        },
    )
}

fn mode_name(m: StorageMode) -> (r: &'static str)
    ensures
        r@ == mode_text(m),
{
    match m {
        StorageMode::Default => "default",
        StorageMode::Portable => "portable",
        StorageMode::Custom => "custom",
        StorageMode::Environment => "environment",
    }
}

/// The storage index as JSON; see `locator_v`.
pub fn locator_json(l: &StorageLocator) -> (r: Json)
    ensures
        r@ == locator_v(*l),
{
    let mut e: Vec<(String, Json)> = Vec::new();
    e.push((owned("schemaVersion"), number_from(l.schema_version as u64)));
    e.push((owned("mode"), Json::string(mode_name(l.mode))));
    match &l.root {
        Some(r) => e.push((owned("root"), Json::string(r.as_str()))),
        None => {},
    }
    proof {
        lemma_jv_object(e);
        assert(entries_v(e@) =~= locator_v(*l)->Object_0);
    }
    Json::Object(e)
}

/// The storage index a JSON value holds: a schema version that fits 32
/// bits, a known mode, and an optional text root (`null` reads as none).
pub open spec fn locator_of(j: JsonV) -> Option<(u32, StorageMode, Option<Seq<char>>)> {
    match u64_of(get_v(j, "schemaVersion"@)) {
        Some(v) => if v <= u32::MAX {
            match str_of(get_v(j, "mode"@)) {
                Some(t) => match mode_of_text(t) {
                    Some(m) => match get_v(j, "root"@) {
                        None => Some((v as u32, m, None)),
                        Some(JsonV::Null) => Some((v as u32, m, None)),
                        Some(JsonV::Str(r)) => Some((v as u32, m, Some(r))),
                        Some(_) => None,
                    },
                    None => None,
                },
                None => None,
            }
        } else {
            None
        },
        None => None,
    }
}

/// Reads the storage index from JSON; see `locator_of`.
pub fn locator_from_json(j: &Json) -> (r: Option<StorageLocator>)
    ensures
        match r {
            Some(l) => locator_of(j@) == Some(
                (
                    l.schema_version,
                    l.mode,
                    match l.root {
                        Some(x) => Some(x@),
                        None => None,
                    },
                ),
            ),
            None => locator_of(j@) is None,
        },
{
    let version = match j.get("schemaVersion") {
        Some(v) => match v.as_u64() {
            Some(n) => n,
            None => return None,
        },
        None => return None,
    };
    if version > u32::MAX as u64 {
        return None;
    }
    let text = match j.get("mode") {
        Some(v) => match v.as_str() {
            Some(t) => t,
            None => return None,
        },
        None => return None,
    };
    let mode = if same_text(text, "default") {
        StorageMode::Default
    } else if same_text(text, "portable") {
        StorageMode::Portable
    } else if same_text(text, "custom") {
        StorageMode::Custom
    } else if same_text(text, "environment") {
        StorageMode::Environment
    } else {
        return None;
    };
    let root = match j.get("root") {
        None => None,
        Some(v) => match v {
            Json::Null => None,
            Json::Str(r) => Some(r.clone()),
            _ => return None,
        },
    };
    Some(StorageLocator { schema_version: version as u32, mode, root })
}

/// Writing the storage index and reading it back gives the same index.
pub proof fn lemma_locator_round_trip(l: StorageLocator)
    ensures
        locator_of(locator_v(l)) == Some(
            (
                l.schema_version,
                l.mode,
                match l.root {
                    Some(x) => Some(x@),
                    None => None,
                },
            ),
        ),
{
    reveal_strlit("schemaVersion");
    reveal_strlit("mode");
    reveal_strlit("root");
    reveal_strlit("default");
    reveal_strlit("portable");
    reveal_strlit("custom");
    reveal_strlit("environment");
    let e = locator_v(l)->Object_0;
    assert("schemaVersion"@.len() != "mode"@.len());
    assert("schemaVersion"@.len() != "root"@.len());
    assert("mode"@[0] != "root"@[0]);
    assert("default"@.len() != "portable"@.len() && "default"@.len() != "custom"@.len()
        && "default"@.len() != "environment"@.len() && "portable"@.len() != "custom"@.len()
        && "portable"@.len() != "environment"@.len() && "custom"@.len() != "environment"@.len());
    assert(e[0].0 == "schemaVersion"@);
    assert(lookup(e, "schemaVersion"@) == Some(uint_v(l.schema_version as u64)));
    assert(e.drop_first()[0].0 == "mode"@);
    assert(lookup(e.drop_first(), "mode"@) == Some(JsonV::Str(mode_text(l.mode))));
    assert(lookup(e, "mode"@) == lookup(e.drop_first(), "mode"@));
    match l.root {
        Some(r) => {
            assert(e.drop_first().drop_first()[0].0 == "root"@);
            assert(lookup(e.drop_first().drop_first(), "root"@) == Some(JsonV::Str(r@)));
            assert(lookup(e.drop_first(), "root"@) == lookup(e.drop_first().drop_first(), "root"@));
            assert(lookup(e, "root"@) == lookup(e.drop_first(), "root"@));
        },
        None => {
            assert(e.drop_first().drop_first() =~= Seq::<(Seq<char>, JsonV)>::empty());
            assert(lookup(e.drop_first().drop_first(), "root"@) is None);
            assert(lookup(e.drop_first(), "root"@) == lookup(e.drop_first().drop_first(), "root"@));
            assert(lookup(e, "root"@) == lookup(e.drop_first(), "root"@));
        },
    }
    assert(mode_of_text(mode_text(l.mode)) == Some(l.mode));
}

} // verus!