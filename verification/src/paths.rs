//! Path resolution for the NomadTerm home directory and the files under it.
//!
//! Paths are handled as text with Unix separators. The NomadTerm directory is
//! resolved from a snapshot of the environment: `NOMADTERM_DIR` when set and
//! not empty (with `~` expanded against `HOME`, or `USERPROFILE`, and relative
//! paths anchored at the working directory), else `HOME/.nomadterm`, else
//! `.nomadterm`.

use vstd::prelude::*;

use crate::text::{i32_to_string, parse_i32, parse_i32_chars, push_str, to_chars, trim, trim_chars, signed_decimal, lemma_parse_signed_decimal};

verus! {

broadcast use vstd::string::group_string_axioms;

/// Log directory, relative to the NomadTerm directory.
pub const LOGS_DIR: &'static str = ".tmp/logs";

/// Launch scratch directory, relative to the NomadTerm directory.
pub const LAUNCH_DIR: &'static str = ".tmp/launch";

/// Flag counter directory, relative to the NomadTerm directory.
pub const FLAGS_DIR: &'static str = ".tmp/flags";

/// Launch records directory, relative to the NomadTerm directory.
pub const LAUNCHES_DIR: &'static str = "launches";

/// Archive directory, relative to the NomadTerm directory.
pub const ARCHIVE_DIR: &'static str = "archive";

/// Scripts directory, relative to the NomadTerm directory.
pub const SCRIPTS_DIR: &'static str = "scripts";

// ---------------------------------------------------------------------------
// Path text
// ---------------------------------------------------------------------------

/// A path that starts at the root.
pub open spec fn is_absolute(p: Seq<char>) -> bool {
    p.len() > 0 && p[0] == '/'
}

/// `base` joined with `part`, as `PathBuf::join` does on Unix: an absolute
/// `part` replaces `base`; otherwise a separator is put between the two
/// unless `base` is empty or already ends with one.
pub open spec fn join(base: Seq<char>, part: Seq<char>) -> Seq<char> {
    if is_absolute(part) {
        part
    } else if base.len() == 0 || base.last() == '/' {
        base + part
    } else {
        base + seq!['/'] + part
    }
}

/// `base` joined with each of `parts` in turn.
pub open spec fn join_all(base: Seq<char>, parts: Seq<Seq<char>>) -> Seq<char>
    decreases parts.len(),
{
    if parts.len() == 0 {
        base
    } else {
        join(join_all(base, parts.drop_last()), parts.last())
    }
}

/// Joins `part` onto `base`.
pub fn path_join(base: &str, part: &str) -> (r: String)
    ensures
        r@ == join(base@, part@),
{
    let b = to_chars(base);
    let p = to_chars(part);
    if p.len() > 0 && p[0] == '/' {
        return part.to_owned();
    }
    let mut r = base.to_owned();
    if !(b.len() == 0 || b[b.len() - 1] == '/') {
        r.push('/');
    }
    push_str(&mut r, part);
    r
}

/// Name for what `std::path::Path::parent` gives for the path `p`: the path
/// without its final component, or none when `p` ends in a root or is empty.
pub uninterp spec fn path_parent(p: Seq<char>) -> Option<Seq<char>>;

/// A proper prefix of `p`.
pub open spec fn is_proper_prefix(q: Seq<char>, p: Seq<char>) -> bool {
    q.len() < p.len() && q == p.subrange(0, q.len() as int)
}

/// Calls `std::path::Path::parent` on `p`. The contract claims that the
/// result is the one `path_parent` names for `p`, and what the function's
/// documentation gives: there is none for the empty path or the root `/`,
/// and otherwise a parent is the path without its final component, a proper
/// prefix of it, which converts back to text without loss.
#[verifier::external_body]
pub(crate) fn parent_of_path(p: &str) -> (r: Option<String>)
    ensures
        r.deep_view() == path_parent(p@),
        (p@.len() == 0 || p@ == seq!['/']) ==> r is None,
        r matches Some(q) ==> is_proper_prefix(q@, p@),
{
    std::path::Path::new(p).parent().map(|q| q.to_string_lossy().into_owned())
}

/// Name for what `std::path::Path::file_name` gives for the path `p`: its
/// final component when that is a normal one.
pub uninterp spec fn path_file_name(p: Seq<char>) -> Option<Seq<char>>;

/// Calls `std::path::Path::file_name` on `p`. The contract claims only that
/// the result is the one `path_file_name` names for `p`; a component of a
/// path given as text converts back to text without loss.
#[verifier::external_body]
pub(crate) fn file_name_of(p: &str) -> (r: Option<String>)
    ensures
        r.deep_view() == path_file_name(p@),
{
    std::path::Path::new(p).file_name().map(|n| n.to_string_lossy().into_owned())
}

// ---------------------------------------------------------------------------
// Environment snapshot
// ---------------------------------------------------------------------------

/// The variables of `entries`, a later entry for a key overriding an
/// earlier one.
pub open spec fn entries_map(entries: Seq<(String, String)>) -> Map<Seq<char>, Seq<char>>
    decreases entries.len(),
{
    if entries.len() == 0 {
        Map::empty()
    } else {
        entries_map(entries.drop_last()).insert(entries.last().0@, entries.last().1@)
    }
}

/// A snapshot of environment variables.
pub struct EnvVars {
    entries: Vec<(String, String)>,
}

impl View for EnvVars {
    type V = Map<Seq<char>, Seq<char>>;

    closed spec fn view(&self) -> Map<Seq<char>, Seq<char>> {
        entries_map(self.entries@)
    }
}

proof fn lemma_entries_map_absent(s: Seq<(String, String)>, k: Seq<char>)
    requires
        forall|i: int| 0 <= i < s.len() ==> (#[trigger] s[i]).0@ != k,
    ensures
        !entries_map(s).contains_key(k),
    decreases s.len(),
{
    if s.len() > 0 {
        lemma_entries_map_absent(s.drop_last(), k);
    }
}

proof fn lemma_entries_map_last(s: Seq<(String, String)>, k: Seq<char>, i: int)
    requires
        0 <= i < s.len(),
        s[i].0@ == k,
        forall|j: int| i < j < s.len() ==> (#[trigger] s[j]).0@ != k,
    ensures
        entries_map(s).contains_key(k),
        entries_map(s)[k] == s[i].1@,
    decreases s.len(),
{
    if i < s.len() - 1 {
        lemma_entries_map_last(s.drop_last(), k, i);
    }
}

impl EnvVars {
    /// An empty snapshot.
    pub fn new() -> (e: EnvVars)
        ensures
            e@ == Map::<Seq<char>, Seq<char>>::empty(),
    {
        EnvVars { entries: Vec::new() }
    }

    /// A snapshot of the given pairs; where a key occurs twice, the later
    /// value counts.
    pub fn from_pairs(pairs: Vec<(String, String)>) -> (e: EnvVars)
        ensures
            e@ == entries_map(pairs@),
    {
        EnvVars { entries: pairs }
    }

    /// Sets `key` to `value`.
    pub fn set(&mut self, key: String, value: String)
        ensures
            final(self)@ == old(self)@.insert(key@, value@),
    {
        self.entries.push((key, value));
        assert(self.entries@.drop_last() =~= old(self).entries@);
    }

    /// The value of `key`, if it is set.
    pub fn get(&self, key: &str) -> (r: Option<String>)
        ensures
            r.deep_view() == (if self@.contains_key(key@) { Some(self@[key@]) } else { None }),
    {
        let k = key.to_owned();
        let mut i: usize = self.entries.len();
        while i > 0
            invariant
                i <= self.entries.len(),
                k@ == key@,
                forall|j: int| i <= j < self.entries.len() ==> (#[trigger] self.entries@[j]).0@
                    != key@,
            decreases i,
        {
            i = i - 1;
            if self.entries[i].0 == k {
                proof {
                    lemma_entries_map_last(self.entries@, key@, i as int);
                }
                return Some(self.entries[i].1.clone());
            }
        }
        proof {
            lemma_entries_map_absent(self.entries@, key@);
        }
        None
    }
}

// ---------------------------------------------------------------------------
// NomadTerm directory
// ---------------------------------------------------------------------------

/// The value of `k` in `env`, if set.
pub open spec fn lookup(env: Map<Seq<char>, Seq<char>>, k: Seq<char>) -> Option<Seq<char>> {
    if env.contains_key(k) {
        Some(env[k])
    } else {
        None
    }
}

/// The home directory named by the environment: `HOME`, else `USERPROFILE`.
pub open spec fn env_home(env: Map<Seq<char>, Seq<char>>) -> Option<Seq<char>> {
    match lookup(env, "HOME"@) {
        Some(h) => Some(h),
        None => lookup(env, "USERPROFILE"@),
    }
}

/// `NOMADTERM_DIR`, when set and not empty.
pub open spec fn env_override(env: Map<Seq<char>, Seq<char>>) -> Option<Seq<char>> {
    match lookup(env, "NOMADTERM_DIR"@) {
        Some(d) => if d.len() > 0 { Some(d) } else { None },
        None => None,
    }
}

/// `dir` with a leading `~` replaced by the home directory, when there is one.
pub open spec fn expand_tilde(dir: Seq<char>, home: Option<Seq<char>>) -> Seq<char> {
    if dir.len() > 0 && dir[0] == '~' && home is Some {
        home->0 + dir.drop_first()
    } else {
        dir
    }
}

/// The NomadTerm directory resolved from `env` and the working directory
/// `cwd`, and whether `NOMADTERM_DIR` chose it.
pub open spec fn resolved_dir(env: Map<Seq<char>, Seq<char>>, cwd: Seq<char>) -> (Seq<char>, bool) {
    let home = env_home(env);
    match env_override(env) {
        Some(dir) => {
            let expanded = expand_tilde(dir, home);
            let path = if is_absolute(expanded) { expanded } else { join(cwd, expanded) };
            (path, true)
        },
        None => {
            let path = match home {
                Some(h) => join(h, ".nomadterm"@),
                None => ".nomadterm"@,
            };
            (path, false)
        },
    }
}

/// Resolves the NomadTerm directory from an environment snapshot and the
/// working directory.
///
/// Returns the resolved path and whether `NOMADTERM_DIR` was explicitly set.
pub fn resolve_nomadterm_dir_from_env(env: &EnvVars, cwd: &str) -> (r: (String, bool))
    ensures
        (r.0@, r.1) == resolved_dir(env@, cwd@),
        r.1 == (env@.contains_key("NOMADTERM_DIR"@) && env@["NOMADTERM_DIR"@].len() > 0),
{
    proof {
        lemma_override_reported(env@, cwd@);
    }
    let home = match env.get("HOME") {
        Some(h) => Some(h),
        None => env.get("USERPROFILE"),
    };
    let over = match env.get("NOMADTERM_DIR") {
        Some(d) => if to_chars(d.as_str()).len() > 0 { Some(d) } else { None },
        None => None,
    };
    assert(home.deep_view() == env_home(env@));
    assert(over.deep_view() == env_override(env@));
    match over {
        Some(dir) => {
            let chars = to_chars(dir.as_str());
            let expanded = match &home {
                Some(h) => if chars.len() > 0 && chars[0] == '~' {
                    let mut e = h.clone();
                    let mut i: usize = 1;
                    while i < chars.len()
                        invariant
                            1 <= i <= chars.len(),
                            chars@ == dir@,
                            e@ == h@ + dir@.subrange(1, i as int),
                        decreases chars.len() - i,
                    {
                        e.push(chars[i]);
                        i = i + 1;
                        assert(e@ =~= h@ + dir@.subrange(1, i as int));
                    }
                    assert(dir@.subrange(1, i as int) =~= dir@.drop_first());
                    e
                } else {
                    dir.clone()
                },
                None => dir.clone(),
            };
            assert(expanded@ == expand_tilde(dir@, env_home(env@)));
            let e = to_chars(expanded.as_str());
            let path = if e.len() > 0 && e[0] == '/' {
                expanded
            } else {
                path_join(cwd, expanded.as_str())
            };
            (path, true)
        },
        None => {
            let path = match home {
                Some(h) => path_join(h.as_str(), ".nomadterm"),
                None => ".nomadterm".to_owned(),
            };
            (path, false)
        },
    }
}

/// The NomadTerm directory for the environment `env` and working directory
/// `cwd`.
pub fn nomadterm_dir(env: &EnvVars, cwd: &str) -> (r: String)
    ensures
        r@ == resolved_dir(env@, cwd@).0,
{
    resolve_nomadterm_dir_from_env(env, cwd).0
}

/// The path under the NomadTerm directory `base` made of `parts`.
pub fn nomadterm_path(base: &str, parts: &[&str]) -> (r: String)
    ensures
        r@ == join_all(base@, parts@.map_values(|p: &str| p@)),
{
    let mut path = base.to_owned();
    let mut i: usize = 0;
    while i < parts.len()
        invariant
            i <= parts.len(),
            path@ == join_all(base@, parts@.map_values(|p: &str| p@).subrange(0, i as int)),
        decreases parts.len() - i,
    {
        let ghost all = parts@.map_values(|p: &str| p@);
        path = path_join(path.as_str(), parts[i]);
        i = i + 1;
        assert(all.subrange(0, i as int).drop_last() =~= all.subrange(0, i - 1));
    }
    assert(parts@.map_values(|p: &str| p@).subrange(0, i as int) =~= parts@.map_values(|p: &str| p@));
    path
}

/// The project root: the parent of the NomadTerm directory `base`, or `/`
/// when it has none.
pub fn get_project_root(base: &str) -> (r: String)
    ensures
        r@ == (match path_parent(base@) {
            Some(p) => p,
            None => "/"@,
        }),
        (base@.len() == 0 || base@ == seq!['/']) ==> r@ == "/"@,
        path_parent(base@) is Some ==> is_proper_prefix(r@, base@),
{
    match parent_of_path(base) {
        Some(p) => p,
        None => "/".to_owned(),
    }
}

/// `nomadterm.db` under the NomadTerm directory `base`.
pub fn db_path(base: &str) -> (r: String)
    ensures
        r@ == join(base@, "nomadterm.db"@),
{
    path_join(base, "nomadterm.db")
}

/// `.tmp/logs/nomadterm.log` under the NomadTerm directory `base`.
pub fn log_path(base: &str) -> (r: String)
    ensures
        r@ == join(join(join(base@, ".tmp"@), "logs"@), "nomadterm.log"@),
{
    let t = path_join(base, ".tmp");
    let l = path_join(t.as_str(), "logs");
    path_join(l.as_str(), "nomadterm.log")
}

/// `.tmp/launched_pids.json` under the NomadTerm directory `base`.
pub fn pidtrack_path(base: &str) -> (r: String)
    ensures
        r@ == join(join(base@, ".tmp"@), "launched_pids.json"@),
{
    let t = path_join(base, ".tmp");
    path_join(t.as_str(), "launched_pids.json")
}

/// `config.toml` under the NomadTerm directory `base`.
pub fn config_toml_path(base: &str) -> (r: String)
    ensures
        r@ == join(base@, "config.toml"@),
{
    path_join(base, "config.toml")
}

/// The scripts directory under the NomadTerm directory `base`.
pub fn scripts_dir(base: &str) -> (r: String)
    ensures
        r@ == join(base@, SCRIPTS_DIR@),
{
    path_join(base, SCRIPTS_DIR)
}

/// The directories that must exist under the NomadTerm directory `base`,
/// in the order they are created.
pub open spec fn required_dirs(base: Seq<char>) -> Seq<Seq<char>> {
    seq![
        join(base, LOGS_DIR@),
        join(base, LAUNCH_DIR@),
        join(base, FLAGS_DIR@),
        join(base, LAUNCHES_DIR@),
        join(base, ARCHIVE_DIR@),
    ]
}

/// The directories that must exist under the NomadTerm directory `base`.
pub fn nomadterm_directories(base: &str) -> (r: Vec<String>)
    ensures
        r@.map_values(|d: String| d@) == required_dirs(base@),
{
    let mut r: Vec<String> = Vec::new();
    r.push(path_join(base, LOGS_DIR));
    r.push(path_join(base, LAUNCH_DIR));
    r.push(path_join(base, FLAGS_DIR));
    r.push(path_join(base, LAUNCHES_DIR));
    r.push(path_join(base, ARCHIVE_DIR));
    assert(r@.map_values(|d: String| d@) =~= required_dirs(base@));
    r
}

// ---------------------------------------------------------------------------
// Flag counters
// ---------------------------------------------------------------------------

/// The file holding the counter `name` under the NomadTerm directory `base`.
pub fn flag_file_path(base: &str, name: &str) -> (r: String)
    ensures
        r@ == join(join(base@, FLAGS_DIR@), name@),
{
    let f = path_join(base, FLAGS_DIR);
    path_join(f.as_str(), name)
}

/// The count that a flag file holds: its trimmed text read as an `i32`,
/// or 0 when the file could not be read or does not hold a number.
pub open spec fn stored_count(contents: Option<Seq<char>>) -> i32 {
    match contents {
        Some(c) => match parse_i32(trim(c)) {
            Some(n) => n,
            None => 0,
        },
        None => 0,
    }
}

/// The count that a flag file with `contents` holds (`None`: unreadable).
pub fn read_flag_count(contents: Option<&str>) -> (n: i32)
    ensures
        n == stored_count(contents.deep_view()),
{
    match contents {
        Some(c) => {
            let t = trim_chars(&to_chars(c));
            match parse_i32_chars(&t) {
                Some(n) => n,
                None => 0,
            }
        },
        None => 0,
    }
}

/// The next value of a counter whose flag file holds `contents`, and the
/// text to write back for it.
pub fn next_flag_count(contents: Option<&str>) -> (r: (i32, String))
    requires
        stored_count(contents.deep_view()) < i32::MAX,
    ensures
        r.0 == stored_count(contents.deep_view()) + 1,
        r.1@ == signed_decimal(r.0 as int),
{
    let n = read_flag_count(contents) + 1;
    (n, i32_to_string(n))
}

/// Writing back the text that `next_flag_count` gives and reading the file
/// again yields the new count: each increment raises the stored count by one.
pub proof fn lemma_flag_count_round_trip(n: i32)
    ensures
        stored_count(Some(signed_decimal(n as int))) == n,
{
    lemma_parse_signed_decimal(n);
}


/// The resolved NomadTerm directory is absolute when its source is: an
/// override anchored at an absolute working directory (or itself absolute,
/// or expanded from an absolute home), or the default under an absolute
/// home.
pub proof fn lemma_resolved_absolute(env: Map<Seq<char>, Seq<char>>, cwd: Seq<char>)
    requires
        is_absolute(cwd),
        env_home(env) is Some ==> is_absolute(env_home(env)->0),
    ensures
        (env_override(env) is Some || env_home(env) is Some) ==> is_absolute(resolved_dir(env, cwd).0),
{
    let home = env_home(env);
    match env_override(env) {
        Some(dir) => {
            let expanded = expand_tilde(dir, home);
            if !is_absolute(expanded) {
                assert(join(cwd, expanded)[0] == cwd[0]);
            }
        },
        None => {
            if home is Some {
                let h = home->0;
                reveal_strlit(".nomadterm");
                assert(join(h, ".nomadterm"@)[0] == h[0]);
            }
        },
    }
}

/// `NOMADTERM_DIR` is reported as having chosen the directory exactly when
/// it is set and not empty, whatever its value (absolute, relative or
/// starting with `~`); when it is an absolute path, that path is the
/// directory as given.
pub proof fn lemma_override_reported(env: Map<Seq<char>, Seq<char>>, cwd: Seq<char>)
    ensures
        resolved_dir(env, cwd).1 == (env.contains_key("NOMADTERM_DIR"@) && env["NOMADTERM_DIR"@].len() > 0),
        env.contains_key("NOMADTERM_DIR"@) && env["NOMADTERM_DIR"@].len() > 0 && env["NOMADTERM_DIR"@][0] == '/'
            ==> resolved_dir(env, cwd) == (env["NOMADTERM_DIR"@], true),
{
}

/// Counters of different plain names (relative, so not replacing the flags
/// directory) live in different files: incrementing one leaves the others
/// as they are.
pub proof fn lemma_flag_files_distinct(base: Seq<char>, a: Seq<char>, b: Seq<char>)
    requires
        !is_absolute(a),
        !is_absolute(b),
        a != b,
    ensures
        join(join(base, FLAGS_DIR@), a) != join(join(base, FLAGS_DIR@), b),
{
    let d = join(base, FLAGS_DIR@);
    let p = if d.len() == 0 || d.last() == '/' { d } else { d + seq!['/'] };
    assert(join(d, a) =~= p + a);
    assert(join(d, b) =~= p + b);
    if p + a == p + b {
        assert(a =~= (p + a).subrange(p.len() as int, (p + a).len() as int));
        assert(b =~= (p + b).subrange(p.len() as int, (p + b).len() as int));
    }
}

} // verus!
