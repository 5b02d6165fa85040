//! Logic of the desktop companion app: registered repo records, the choice
//! of how phones reach this machine, and how the daemon of a repo is found
//! and launched.

use vstd::prelude::*;

use crate::paths::{file_name_of, join, path_file_name, path_join};
use crate::text::{decimal, u64_to_string};

verus! {

broadcast use vstd::string::group_string_axioms;

/// A row of the `repos` table.
pub struct RepoRow {
    pub id: String,
    pub path: String,
    pub name: String,
    pub token: String,
    pub added_at: i64,
    pub last_seen: Option<i64>,
    pub is_active: bool,
}

/// A registered repo as the front end sees it.
pub struct RepoEntry {
    pub id: String,
    pub path: String,
    pub name: String,
    pub token: String,
    pub added_at: i64,
    pub last_seen: Option<i64>,
    pub is_active: bool,
}

impl From<RepoRow> for RepoEntry {
    fn from(r: RepoRow) -> (e: RepoEntry) {
        RepoEntry {
            id: r.id,
            path: r.path,
            name: r.name,
            token: r.token,
            added_at: r.added_at,
            last_seen: r.last_seen,
            is_active: r.is_active,
        }
    }
}

impl vstd::std_specs::convert::FromSpecImpl<RepoRow> for RepoEntry {
    open spec fn obeys_from_spec() -> bool {
        true
    }

    open spec fn from_spec(r: RepoRow) -> RepoEntry {
        RepoEntry {
            id: r.id,
            path: r.path,
            name: r.name,
            token: r.token,
            added_at: r.added_at,
            last_seen: r.last_seen,
            is_active: r.is_active,
        }
    }
}

/// The display name of a repo at `path`: the final component of the path,
/// or the whole path when it has none.
pub fn repo_name(path: &str) -> (r: String)
    ensures
        r@ == (match path_file_name(path@) {
            Some(n) => n,
            None => path@,
        }),
{
    match file_name_of(path) {
        Some(n) => n,
        None => path.to_owned(),
    }
}

/// The database file of the desktop app under the home directory `home`
/// (the working directory when there is none): `.nomadterm/nomadterm.db`.
pub fn hcom_db_path(home: Option<String>) -> (r: String)
    ensures
        r@ == join(join(match home {
            Some(h) => h@,
            None => "."@,
        }, ".nomadterm"@), "nomadterm.db"@),
{
    let base = match home {
        Some(h) => h,
        None => ".".to_owned(),
    };
    let dir = path_join(base.as_str(), ".nomadterm");
    path_join(dir.as_str(), "nomadterm.db")
}

// ---------------------------------------------------------------------------
// Connection strategy
// ---------------------------------------------------------------------------

/// How phones reach this machine.
#[derive(Clone, Copy, Debug, PartialEq, Eq, Structural)]
pub enum ConnectionStrategyKind {
    Tailscale,
    Lan,
    LocalOnly,
}

/// How phones reach this machine, the host they connect to, whether that
/// works from outside the local network, and whether the path is encrypted.
pub struct ConnectionStrategy {
    pub kind: ConnectionStrategyKind,
    pub host: Option<String>,
    pub remote_capable: bool,
    pub secure: bool,
}

impl ConnectionStrategy {
    /// Whether the daemon should bind the Tailscale address.
    pub fn bind_tailscale(&self) -> (b: bool)
        ensures
            b == (self.kind == ConnectionStrategyKind::Tailscale),
    {
        match self.kind {
            ConnectionStrategyKind::Tailscale => true,
            _ => false,
        }
    }
}

/// The strategy for the detected Tailscale and LAN addresses: Tailscale
/// (remote, encrypted) when there is a Tailscale address, else the LAN
/// (local, plain), else local only without a host.
pub fn connection_strategy(tailscale_ip: Option<String>, lan_ip: Option<String>) -> (s: ConnectionStrategy)
    ensures
        match tailscale_ip {
            Some(t) => s.kind == ConnectionStrategyKind::Tailscale && s.host == Some(t) && s.remote_capable
                && s.secure,
            None => match lan_ip {
                Some(l) => s.kind == ConnectionStrategyKind::Lan && s.host == Some(l) && !s.remote_capable
                    && !s.secure,
                None => s.kind == ConnectionStrategyKind::LocalOnly && s.host is None && !s.remote_capable
                    && !s.secure,
            },
        },
{
    match tailscale_ip {
        Some(t) => ConnectionStrategy {
            kind: ConnectionStrategyKind::Tailscale,
            host: Some(t),
            remote_capable: true,
            secure: true,
        },
        None => match lan_ip {
            Some(l) => ConnectionStrategy {
                kind: ConnectionStrategyKind::Lan,
                host: Some(l),
                remote_capable: false,
                secure: false,
            },
            None => ConnectionStrategy {
                kind: ConnectionStrategyKind::LocalOnly,
                host: None,
                remote_capable: false,
                secure: false,
            },
        },
    }
}

// ---------------------------------------------------------------------------
// Launching the daemon of a repo
// ---------------------------------------------------------------------------

/// The arguments of the daemon for a repo server.
pub open spec fn server_args_spec(bind_tailscale: bool, port: u16, token: Seq<char>, path: Seq<char>) -> Seq<Seq<char>> {
    seq!["--ws"@, "--no-tls"@, "--go"@] + (if bind_tailscale { seq!["--bind-tailscale"@] } else { Seq::empty() })
        + seq!["--port"@, decimal(port as nat), "--token"@, token, "--workspace"@, path]
}

/// The arguments of the daemon for a repo server: WebSocket mode without
/// TLS or trust prompt, bound to the Tailscale address when asked, on
/// `port`, with the repo's token and workspace.
pub fn server_args(bind_tailscale: bool, port: u16, token: &str, path: &str) -> (a: Vec<String>)
    ensures
        a@.map_values(|s: String| s@) == server_args_spec(bind_tailscale, port, token@, path@),
{
    let mut a: Vec<String> = Vec::new();
    a.push("--ws".to_owned());
    a.push("--no-tls".to_owned());
    a.push("--go".to_owned());
    if bind_tailscale {
        a.push("--bind-tailscale".to_owned());
    }
    a.push("--port".to_owned());
    a.push(u64_to_string(port as u64));
    a.push("--token".to_owned());
    a.push(token.to_owned());
    a.push("--workspace".to_owned());
    a.push(path.to_owned());
    assert(a@.map_values(|s: String| s@) =~= server_args_spec(bind_tailscale, port, token@, path@));
    a
}

/// Where a development build of the daemon may lie, seen from the directory
/// `dir` of the desktop app's executable.
pub open spec fn bin_candidates(dir: Seq<char>) -> Seq<Seq<char>> {
    seq![
        join(dir, "nomadterm"@),
        join(join(dir, "../../.."@), "target/debug/nomadterm"@),
        join(join(dir, "../../.."@), "target/release/nomadterm"@),
        join(join(dir, "../../../.."@), "target/debug/nomadterm"@),
        join(join(dir, "../../../.."@), "target/release/nomadterm"@),
    ]
}

/// The places to look for the daemon, from the executable's directory.
pub fn nomadterm_bin_candidates(dir: &str) -> (c: Vec<String>)
    ensures
        c@.map_values(|s: String| s@) == bin_candidates(dir@),
{
    let up3 = path_join(dir, "../../..");
    let up4 = path_join(dir, "../../../..");
    let mut c: Vec<String> = Vec::new();
    c.push(path_join(dir, "nomadterm"));
    c.push(path_join(up3.as_str(), "target/debug/nomadterm"));
    c.push(path_join(up3.as_str(), "target/release/nomadterm"));
    c.push(path_join(up4.as_str(), "target/debug/nomadterm"));
    c.push(path_join(up4.as_str(), "target/release/nomadterm"));
    assert(c@.map_values(|s: String| s@) =~= bin_candidates(dir@));
    c
}

/// The first present value of `s`, if any.
pub open spec fn first_found(s: Seq<Option<String>>) -> Option<String>
    decreases s.len(),
{
    if s.len() == 0 {
        None
    } else if s[0] is Some {
        s[0]
    } else {
        first_found(s.drop_first())
    }
}

/// The daemon to run: the sibling of the executable when it is a file,
/// else the first candidate that resolves to a file (as resolved), else
/// `nomadterm` from the search path.
pub fn pick_nomadterm_bin(sibling: Option<String>, resolved: Vec<Option<String>>) -> (b: String)
    ensures
        b@ == (match sibling {
            Some(s) => s@,
            None => match first_found(resolved@) {
                Some(r) => r@,
                None => "nomadterm"@,
            },
        }),
{
    if let Some(s) = sibling {
        return s;
    }
    let mut rest = resolved;
    let mut i: usize = 0;
    let ghost all = rest@;
    assert(all.subrange(0, all.len() as int) =~= all);
    while i < rest.len()
        invariant
            i <= rest@.len(),
            all == rest@,
            all == resolved@,
            sibling is None,
            first_found(all) == first_found(all.subrange(i as int, all.len() as int)),
            forall|k: int| 0 <= k < i ==> rest@[k] is None,
        decreases rest@.len() - i,
    {
        if rest[i].is_some() {
            proof {
                assert(all.subrange(i as int, all.len() as int)[0] == all[i as int]);
            }
            let found = rest.remove(i);
            match found {
                Some(r) => { return r; },
                None => {},
            }
        }
        proof {
            assert(all.subrange(i as int, all.len() as int).drop_first() =~= all.subrange(i + 1, all.len() as int));
        }
        i = i + 1;
    }
    assert(all.subrange(i as int, all.len() as int) =~= Seq::<Option<String>>::empty());
    "nomadterm".to_owned()
}

/// A new row for the repo at `path` added at `added_at` (seconds since the
/// epoch): a fresh UUID as id, the repo's display name, a fresh token, not
/// yet seen and not active.
pub fn new_repo_row(path: &str, added_at: i64) -> (r: RepoRow)
    ensures
        r.path@ == path@,
        r.name@ == (match path_file_name(path@) {
            Some(n) => n,
            None => path@,
        }),
        exists|b: Seq<u8>| b.len() == 16 && b[6] & 0xf0 == 0x40 && b[8] & 0xc0 == 0x80 && r.id@
            == crate::ids::uuid_text(b),
        exists|b: Seq<u8>| b.len() == 32 && r.token@ == crate::ids::hex_bytes(b),
        r.added_at == added_at,
        r.last_seen is None,
        !r.is_active,
{
    RepoRow {
        id: crate::ids::new_uuid_v4(),
        path: path.to_owned(),
        name: repo_name(path),
        token: crate::ids::generate_token(),
        added_at,
        last_seen: None,
        is_active: false,
    }
}

} // verus!
