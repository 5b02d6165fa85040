//! State and view logic of the desktop window: the list of registered repos
//! with the selected one, session counts reported by the per-repo servers,
//! and what the detail panel shows for the selected repo.

use vstd::prelude::*;

use crate::registry::Registry;
use crate::text::{decimal, hex, hex2, hex_char, is_ascii_alnum, lemma_hex_alnum, push_decimal, push_hex2, push_str, to_chars};

verus! {

broadcast use vstd::string::group_string_axioms;

/// Base port for GUI-managed servers; the repo at index `i` uses `BASE_PORT + i`.
pub const BASE_PORT: u16 = 7682;

/// A single registered repo entry, as the window holds it.
pub struct RepoEntry {
    pub id: String,
    pub path: String,
    pub name: String,
    pub token: String,
    pub added_at: i64,
    pub last_seen: Option<i64>,
    pub is_active: bool,
}

/// Events sent from the per-repo server tasks to the window.
pub enum ServerEvent {
    Started { repo_id: String },
    Stopped { repo_id: String },
    SessionCount { repo_id: String, count: usize },
}

/// The repos of the window and the selected one.
pub struct RepoList {
    repos: Vec<RepoEntry>,
    selected: Option<usize>,
}

impl RepoList {
    #[verifier::type_invariant]
    spec fn inv(self) -> bool {
        match self.selected {
            Some(i) => i < self.repos@.len(),
            None => true,
        }
    }

    /// The repos in the order shown.
    pub closed spec fn repos(&self) -> Seq<RepoEntry> {
        self.repos@
    }

    /// The index of the selected repo, if any.
    pub closed spec fn selection(&self) -> Option<usize> {
        self.selected
    }

    /// A list of the given repos, none selected.
    pub fn new(repos: Vec<RepoEntry>) -> (l: RepoList)
        ensures
            l.repos() == repos@,
            l.selection() is None,
    {
        RepoList { repos, selected: None }
    }

    /// The repos in the order shown.
    pub fn entries(&self) -> (r: &Vec<RepoEntry>)
        ensures
            r@ == self.repos(),
    {
        &self.repos
    }

    /// The index of the selected repo, if any.
    pub fn selected(&self) -> (r: Option<usize>)
        ensures
            r == self.selection(),
            r matches Some(i) ==> i < self.repos().len(),
    {
        proof {
            use_type_invariant(self);
        }
        self.selected
    }

    /// Adds a repo at the end of the list and selects it.
    pub fn add(&mut self, repo: RepoEntry)
        ensures
            final(self).repos() == old(self).repos().push(repo),
            final(self).selection() == Some(old(self).repos().len() as usize),
    {
        let mut repos = Vec::new();
        self.selected = None;
        std::mem::swap(&mut repos, &mut self.repos);
        repos.push(repo);
        let n = repos.len();
        self.repos = repos;
        self.selected = Some(n - 1);
    }

    /// Selects the repo at index `i` (a row that was clicked).
    pub fn select(&mut self, i: usize)
        requires
            i < old(self).repos().len(),
        ensures
            final(self).repos() == old(self).repos(),
            final(self).selection() == Some(i),
    {
        self.selected = Some(i);
    }

    /// Removes the selected repo, giving back its id; the repo before it (or
    /// the first, when the first was removed) becomes selected, or none when
    /// the list is now empty. Without a selection nothing changes.
    pub fn remove_selected(&mut self) -> (r: Option<String>)
        ensures
            match old(self).selection() {
                Some(i) => {
                    &&& r is Some && r->0 == old(self).repos()[i as int].id
                    &&& final(self).repos() == old(self).repos().remove(i as int)
                    &&& final(self).selection() == (if final(self).repos().len() == 0 {
                        None
                    } else {
                        Some(if i == 0 { 0usize } else { (i - 1) as usize })
                    })
                },
                None => r is None && final(self).repos() == old(self).repos() && final(self).selection() is None,
            },
    {
        proof {
            use_type_invariant(&*self);
        }
        match self.selected {
            Some(idx) => {
                let mut repos = Vec::new();
                self.selected = None;
                std::mem::swap(&mut repos, &mut self.repos);
                let removed = repos.remove(idx);
                let empty = repos.len() == 0;
                self.repos = repos;
                self.selected = if empty {
                    None
                } else {
                    Some(if idx == 0 { 0 } else { idx - 1 })
                };
                Some(removed.id)
            },
            None => None,
        }
    }

    /// Marks the repo at index `i` running or stopped.
    pub fn set_active(&mut self, i: usize, active: bool)
        requires
            i < old(self).repos().len(),
        ensures
            final(self).selection() == old(self).selection(),
            final(self).repos().len() == old(self).repos().len(),
            forall|j: int| 0 <= j < old(self).repos().len() && j != i ==> #[trigger] final(self).repos()[j] == old(self).repos()[j],
            final(self).repos()[i as int].is_active == active,
            final(self).repos()[i as int].id == old(self).repos()[i as int].id,
            final(self).repos()[i as int].path == old(self).repos()[i as int].path,
            final(self).repos()[i as int].name == old(self).repos()[i as int].name,
            final(self).repos()[i as int].token == old(self).repos()[i as int].token,
    {
        proof {
            use_type_invariant(&*self);
        }
        let mut repos = Vec::new();
        let sel = self.selected;
        self.selected = None;
        std::mem::swap(&mut repos, &mut self.repos);
        let mut e = repos.remove(i);
        e.is_active = active;
        repos.insert(i, e);
        self.repos = repos;
        self.selected = sel;
    }
}

/// The session count of each repo, as the servers last reported it.
pub struct SessionCounts {
    counts: Registry<usize>,
}

impl SessionCounts {
    /// The counts by repo id.
    pub closed spec fn view(&self) -> Map<Seq<char>, usize> {
        self.counts.view()
    }

    /// No counts yet.
    pub fn new() -> (c: SessionCounts)
        ensures
            c.view() == Map::<Seq<char>, usize>::empty(),
    {
        SessionCounts { counts: Registry::new() }
    }

    /// Takes in an event of a server: a session count replaces the repo's
    /// count; start and stop events change nothing.
    pub fn apply(&mut self, event: ServerEvent)
        ensures
            match event {
                ServerEvent::SessionCount { repo_id, count } => final(self).view() == old(self).view().insert(repo_id@, count),
                _ => final(self).view() == old(self).view(),
            },
    {
        match event {
            ServerEvent::SessionCount { repo_id, count } => {
                self.counts.insert(repo_id, count);
            },
            _ => {},
        }
    }

    /// The session count of repo `repo_id`: 0 when none was reported.
    pub fn count(&self, repo_id: &str) -> (n: usize)
        ensures
            n == (if self.view().contains_key(repo_id@) { self.view()[repo_id@] } else { 0 }),
    {
        match self.counts.get(repo_id) {
            Some(n) => *n,
            None => 0,
        }
    }
}

/// The label of a repo in the list: a dot before the name of a running
/// repo, two spaces before the others.
pub fn repo_label(active: bool, name: &str) -> (s: String)
    ensures
        s@ == (if active { "\u{25cf} "@ } else { "  "@ }) + name@,
{
    let mut s = if active { "\u{25cf} ".to_owned() } else { "  ".to_owned() };
    push_str(&mut s, name);
    s
}

// ---------------------------------------------------------------------------
// Detail panel
// ---------------------------------------------------------------------------

/// The port of the server for the repo at index `idx`.
pub open spec fn repo_port(idx: usize) -> int {
    BASE_PORT + (idx % 65536)
}

/// Repos at different indexes of the list get different server ports, for
/// indexes that fit in a port number.
pub proof fn lemma_ports_distinct(i: usize, j: usize)
    requires
        i != j,
        i <= u16::MAX,
        j <= u16::MAX,
    ensures
        repo_port(i) != repo_port(j),
{
    assert(i % 65536 == i && j % 65536 == j);
}

/// The port of the server for the repo at index `idx`: `BASE_PORT + idx`.
pub fn port_for_index(idx: usize) -> (p: u16)
    requires
        repo_port(idx) <= u16::MAX,
    ensures
        p == repo_port(idx),
{
    BASE_PORT + (idx % 65536) as u16
}

/// The status line of the detail panel.
pub fn status_text(running: bool, sessions: usize) -> (s: String)
    ensures
        s@ == (if running {
            "\u{25cf} Running   Sessions: "@ + decimal(sessions as nat)
        } else {
            "\u{25cb} Stopped"@
        }),
{
    if running {
        let mut s = "\u{25cf} Running   Sessions: ".to_owned();
        push_decimal(&mut s, sessions as u64);
        s
    } else {
        "\u{25cb} Stopped".to_owned()
    }
}

/// The label of the start/stop button.
pub fn button_label(running: bool) -> (s: &'static str)
    ensures
        s@ == (if running { "\u{25a0} Stop"@ } else { "\u{25b6} Start"@ }),
{
    if running { "\u{25a0} Stop" } else { "\u{25b6} Start" }
}

/// The port line of the detail panel.
pub fn port_text(port: u16) -> (s: String)
    ensures
        s@ == "Port: "@ + decimal(port as nat),
{
    let mut s = "Port: ".to_owned();
    push_decimal(&mut s, port as u64);
    s
}

/// Name for what `char::is_alphanumeric` gives: the Unicode `Alphabetic`
/// or `Numeric` property.
pub uninterp spec fn is_alphanumeric(c: char) -> bool;

/// Calls `char::is_alphanumeric`. The contract claims that the result is
/// what `is_alphanumeric` names, and that on an ASCII character it holds
/// exactly for the letters and digits (the only ASCII characters with the
/// `Alphabetic` or `Numeric` property).
#[verifier::external_body]
fn alphanumeric(c: char) -> (b: bool)
    ensures
        b == is_alphanumeric(c),
        (c as u32) < 128 ==> (b == is_ascii_alnum(c)),
{
    c.is_alphanumeric()
}

/// A character that stays as it is in an encoded repo name: `-`, `_`, `.`,
/// `/`, and the alphanumeric characters (on ASCII, the letters and digits).
pub open spec fn keeps(c: char) -> bool {
    ||| c == '-' || c == '_' || c == '.' || c == '/'
    ||| if (c as u32) < 128 { is_ascii_alnum(c) } else { is_alphanumeric(c) }
}

/// The encoding of one character: itself when kept, else `%` and the upper
/// case hexadecimal digits of its code point (at least two).
pub open spec fn encoded_char(c: char) -> Seq<char> {
    if keeps(c) { seq![c] } else { seq!['%'] + hex2(c as u32 as nat, true) }
}

/// `s` with every character but the kept ones written as `%` and the upper
/// case hexadecimal digits of its code point (at least two).
pub open spec fn url_encoded(s: Seq<char>) -> Seq<char>
    decreases s.len(),
{
    if s.len() == 0 {
        Seq::empty()
    } else {
        url_encoded(s.drop_last()) + encoded_char(s.last())
    }
}

/// Percent-encodes a repo name for the pairing URL.
pub fn urlencoding_simple(s: &str) -> (r: String)
    ensures
        r@ == url_encoded(s@),
{
    let v = to_chars(s);
    let mut r = String::new();
    let mut i: usize = 0;
    while i < v.len()
        invariant
            i <= v.len(),
            v@ == s@,
            r@ == url_encoded(s@.subrange(0, i as int)),
        decreases v.len() - i,
    {
        let c = v[i];
        let an = alphanumeric(c);
        assert(keeps(c) == (an || c == '-' || c == '_' || c == '.' || c == '/'));
        if an || c == '-' || c == '_' || c == '.' || c == '/' {
            r.push(c);
        } else {
            r.push('%');
            push_hex2(&mut r, c as u32, true);
        }
        i = i + 1;
        proof {
            let p = s@.subrange(0, i as int);
            assert(p.drop_last() =~= s@.subrange(0, i - 1));
            assert(p.last() == c);
            if keeps(c) {
                assert(r@ =~= url_encoded(p));
            } else {
                assert(r@ =~= url_encoded(p));
            }
        }
    }
    assert(s@.subrange(0, i as int) =~= s@);
    r
}

/// The pairing URL of a repo server that a phone scans:
/// `nomadterm://<host>:<port>?token=<token>&repo_id=<id>&repo_name=<encoded name>&tls=0`.
pub open spec fn pairing_uri_text(host: Seq<char>, port: u16, token: Seq<char>, repo_id: Seq<char>, repo_name: Seq<char>) -> Seq<char> {
    "nomadterm://"@ + host + ":"@ + decimal(port as nat) + "?token="@ + token + "&repo_id="@ + repo_id
        + "&repo_name="@ + url_encoded(repo_name) + "&tls=0"@
}

/// The pairing URL of a repo server.
pub fn pairing_uri(host: &str, port: u16, token: &str, repo_id: &str, repo_name: &str) -> (r: String)
    ensures
        r@ == pairing_uri_text(host@, port, token@, repo_id@, repo_name@),
{
    let mut s = "nomadterm://".to_owned();
    push_str(&mut s, host);
    push_str(&mut s, ":");
    push_decimal(&mut s, port as u64);
    push_str(&mut s, "?token=");
    push_str(&mut s, token);
    push_str(&mut s, "&repo_id=");
    push_str(&mut s, repo_id);
    push_str(&mut s, "&repo_name=");
    let enc = urlencoding_simple(repo_name);
    push_str(&mut s, enc.as_str());
    push_str(&mut s, "&tls=0");
    s
}


/// A name made only of kept characters is its own encoding.
pub proof fn lemma_url_encoded_identity(s: Seq<char>)
    requires
        forall|i: int| 0 <= i < s.len() ==> keeps(#[trigger] s[i]),
    ensures
        url_encoded(s) == s,
    decreases s.len(),
{
    if s.len() > 0 {
        let t = s.drop_last();
        assert forall|i: int| 0 <= i < t.len() implies keeps(#[trigger] t[i]) by {
            assert(t[i] == s[i]);
        }
        lemma_url_encoded_identity(t);
        assert(keeps(s[s.len() - 1]));
        assert(t + seq![s.last()] =~= s);
    }
}

/// A character that would end or split a query parameter of the pairing
/// URL, or end the URL.
pub open spec fn is_query_delimiter(c: char) -> bool {
    c == '&' || c == '=' || c == '?' || c == '#' || c == ' '
}

/// An encoded repo name holds only kept characters and the `%` of escapes,
/// so it never holds a character that would end or split a query
/// parameter of the pairing URL.
pub proof fn lemma_url_encoded_query_safe(s: Seq<char>)
    ensures
        forall|i: int| 0 <= i < url_encoded(s).len() ==> {
            &&& (keeps(#[trigger] url_encoded(s)[i]) || url_encoded(s)[i] == '%')
            &&& !is_query_delimiter(url_encoded(s)[i])
        },
    decreases s.len(),
{
    if s.len() > 0 {
        let c = s.last();
        let p = url_encoded(s.drop_last());
        let tail = encoded_char(c);
        lemma_url_encoded_query_safe(s.drop_last());
        lemma_hex_alnum(c as u32 as nat, true);
        let e = url_encoded(s);
        assert(e == p + tail);
        assert forall|i: int| 0 <= i < e.len() implies {
            &&& (keeps(#[trigger] e[i]) || e[i] == '%')
            &&& !is_query_delimiter(e[i])
        } by {
            if i < p.len() {
                assert(e[i] == p[i]);
            } else if keeps(c) {
                assert(e[i] == c);
            } else {
                let h = hex(c as u32 as nat, true);
                if i > p.len() {
                    if (c as u32 as nat) < 16 {
                        if i > p.len() + 1 {
                            assert(e[i] == h[i - p.len() - 2]);
                        }
                    } else {
                        assert(e[i] == h[i - p.len() - 1]);
                    }
                }
            }
        }
    }
}

/// The value of a hexadecimal digit (0 for any other character).
pub open spec fn hex_digit_value(c: char) -> int {
    if '0' <= c && c <= '9' {
        c as int - '0' as int
    } else if 'A' <= c && c <= 'F' {
        c as int - 'A' as int + 10
    } else if 'a' <= c && c <= 'f' {
        c as int - 'a' as int + 10
    } else {
        0
    }
}

/// Percent-decoding of ASCII escapes: each `%` followed by two more
/// characters stands for the character whose code the two hexadecimal
/// digits give; every other character stands for itself.
pub open spec fn percent_decoded(t: Seq<char>) -> Seq<char>
    decreases t.len(),
{
    if t.len() == 0 {
        Seq::empty()
    } else if t[0] == '%' && t.len() >= 3 {
        seq![(hex_digit_value(t[1]) * 16 + hex_digit_value(t[2])) as char] + percent_decoded(
            t.subrange(3, t.len() as int),
        )
    } else {
        seq![t[0]] + percent_decoded(t.drop_first())
    }
}

proof fn lemma_url_encoded_append(a: Seq<char>, b: Seq<char>)
    ensures
        url_encoded(a + b) == url_encoded(a) + url_encoded(b),
    decreases b.len(),
{
    if b.len() == 0 {
        assert(a + b =~= a);
        assert(url_encoded(a) + url_encoded(b) =~= url_encoded(a));
    } else {
        lemma_url_encoded_append(a, b.drop_last());
        assert((a + b).drop_last() =~= a + b.drop_last());
        assert((a + b).last() == b.last());
        assert(url_encoded(a + b) =~= url_encoded(a) + url_encoded(b));
    }
}

proof fn lemma_hex_digit_value(d: nat)
    requires
        d < 16,
    ensures
        hex_digit_value(hex_char(d, true)) == d,
{
}

/// The escape of an ASCII character decodes back to it.
proof fn lemma_encoded_char_decodes(c: char, rest: Seq<char>)
    requires
        (c as u32) < 128,
    ensures
        percent_decoded(encoded_char(c) + rest) == seq![c] + percent_decoded(rest),
{
    let e = encoded_char(c) + rest;
    if keeps(c) {
        assert(c != '%');
        assert(e[0] == c);
        assert(e.drop_first() =~= rest);
    } else {
        let n = c as u32 as nat;
        let h = hex2(n, true);
        if n < 16 {
            lemma_hex_digit_value(n);
            assert(h =~= seq!['0', hex_char(n, true)]);
            assert(hex_digit_value(h[0]) * 16 + hex_digit_value(h[1]) == n);
        } else {
            lemma_hex_digit_value(n / 16);
            lemma_hex_digit_value(n % 16);
            assert(n / 16 < 16);
            assert(hex(n / 16, true) =~= seq![hex_char(n / 16, true)]);
            assert(h =~= seq![hex_char(n / 16, true), hex_char(n % 16, true)]);
            assert(hex_digit_value(h[0]) * 16 + hex_digit_value(h[1]) == n);
        }
        assert(e[0] == '%' && e[1] == h[0] && e[2] == h[1]);
        assert(e.subrange(3, e.len() as int) =~= rest);
        assert((n as int) as char == c);
    }
}

/// Percent-decoding the encoding of an ASCII repo name gives the name back.
pub proof fn lemma_url_decoding_round_trip(s: Seq<char>)
    requires
        forall|i: int| 0 <= i < s.len() ==> ((#[trigger] s[i]) as u32) < 128,
    ensures
        percent_decoded(url_encoded(s)) == s,
    decreases s.len(),
{
    if s.len() > 0 {
        let rest = s.drop_first();
        assert(s =~= seq![s[0]] + rest);
        lemma_url_encoded_append(seq![s[0]], rest);
        let one = seq![s[0]];
        assert(one.drop_last() =~= Seq::<char>::empty());
        assert(url_encoded(one.drop_last()) == Seq::<char>::empty());
        assert(url_encoded(one) == url_encoded(one.drop_last()) + encoded_char(one.last()));
        assert(url_encoded(one) =~= encoded_char(s[0]));
        assert forall|i: int| 0 <= i < rest.len() implies ((#[trigger] rest[i]) as u32) < 128 by {
            assert(rest[i] == s[i + 1]);
        }
        lemma_url_decoding_round_trip(rest);
        lemma_encoded_char_decodes(s[0], url_encoded(rest));
        assert(seq![s[0]] + rest =~= s);
    }
}

/// What the detail panel shows for the selected repo.
pub struct DetailView {
    /// The repo's name (heading) and path.
    pub name: String,
    pub path: String,
    /// The status line, the port line and the start/stop button label.
    pub status_line: String,
    pub port_line: String,
    pub button: String,
    /// The port of the repo's server.
    pub port: u16,
    /// The pairing URL, while the server runs.
    pub pairing_uri: Option<String>,
    /// Whether to warn that no reachable address was found (while running).
    pub no_host_warning: bool,
}

/// The detail panel of the selected repo of `repos`, whose server runs or
/// not, with `sessions` sessions, when `detected_host` is the address found
/// for phones (the loopback address stands in when none was found); none
/// without a selection.
pub fn detail_view(repos: &RepoList, running: bool, sessions: usize, detected_host: Option<String>) -> (v: Option<DetailView>)
    requires
        repos.selection() matches Some(i) ==> repo_port(i) <= u16::MAX,
    ensures
        match repos.selection() {
            None => v is None,
            Some(i) => v matches Some(d) && {
                let r = repos.repos()[i as int];
                let host = match detected_host {
                    Some(h) => h@,
                    None => "127.0.0.1"@,
                };
                &&& d.name@ == r.name@ && d.path@ == r.path@
                &&& d.port == repo_port(i)
                &&& d.status_line@ == (if running {
                    "\u{25cf} Running   Sessions: "@ + decimal(sessions as nat)
                } else {
                    "\u{25cb} Stopped"@
                })
                &&& d.port_line@ == "Port: "@ + decimal(d.port as nat)
                &&& d.button@ == (if running { "\u{25a0} Stop"@ } else { "\u{25b6} Start"@ })
                &&& d.pairing_uri.deep_view() == (if running {
                    Some(pairing_uri_text(host, d.port, r.token@, r.id@, r.name@))
                } else {
                    None
                })
                &&& d.no_host_warning == (running && detected_host is None)
            },
        },
{
    let idx = match repos.selected() {
        Some(i) => i,
        None => return None,
    };
    let r = &repos.entries()[idx];
    let port = port_for_index(idx);
    let no_host = detected_host.is_none();
    let host = match detected_host {
        Some(h) => h,
        None => "127.0.0.1".to_owned(),
    };
    let uri = if running {
        Some(pairing_uri(host.as_str(), port, r.token.as_str(), r.id.as_str(), r.name.as_str()))
    } else {
        None
    };
    Some(DetailView {
        name: r.name.clone(),
        path: r.path.clone(),
        status_line: status_text(running, sessions),
        port_line: port_text(port),
        button: button_label(running).to_owned(),
        port,
        pairing_uri: uri,
        no_host_warning: running && no_host,
    })
}

} // verus!
