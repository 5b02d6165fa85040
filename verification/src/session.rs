//! The table of live PTY sessions that the daemon serves.
//!
//! Each session is known by its id; the table holds at most one entry per id
//! and keeps, beside the metadata the clients see, a handle of the caller's
//! choosing (the running process and its output channel).

use vstd::prelude::*;

use crate::protocol::SessionInfo;
use crate::text::{concat, push_decimal, decimal};

verus! {

broadcast use vstd::string::group_string_axioms;

/// Status of a PTY session.
#[derive(Clone, Copy, Debug, PartialEq, Eq, Structural)]
pub enum SessionStatus {
    Starting,
    Running,
    Exited,
}

/// The name of a status, as clients see it.
pub open spec fn status_name(s: SessionStatus) -> Seq<char> {
    match s {
        SessionStatus::Starting => "starting"@,
        SessionStatus::Running => "running"@,
        SessionStatus::Exited => "exited"@,
    }
}

impl SessionStatus {
    /// The name of this status: `starting`, `running` or `exited`.
    pub fn as_str(&self) -> (r: &'static str)
        ensures
            r@ == status_name(*self),
    {
        match self {
            SessionStatus::Starting => "starting",
            SessionStatus::Running => "running",
            SessionStatus::Exited => "exited",
        }
    }
}

/// One session of the table.
pub struct SessionEntry<H> {
    pub id: String,
    pub cli: String,
    pub status: SessionStatus,
    /// TCP port of the PTY inject server.
    pub inject_port: u16,
    /// The caller's handle on the running session.
    pub handle: H,
}

/// Metadata fields of `i` and `e` agree.
pub open spec fn describes<H>(i: SessionInfo, e: SessionEntry<H>) -> bool {
    &&& i.id@ == e.id@
    &&& i.cli@ == e.cli@
    &&& i.status@ == status_name(e.status)
    &&& i.inject_port == e.inject_port
}

impl<H> SessionEntry<H> {
    /// The metadata of this session as clients see it.
    pub fn info(&self) -> (i: SessionInfo)
        ensures
            describes(i, *self),
    {
        SessionInfo {
            id: self.id.clone(),
            cli: self.cli.clone(),
            status: self.status.as_str().to_owned(),
            inject_port: self.inject_port,
        }
    }
}

/// No two entries of `s` share an id.
pub open spec fn ids_distinct<H>(s: Seq<SessionEntry<H>>) -> bool {
    forall|i: int, j: int| 0 <= i < j < s.len() ==> (#[trigger] s[i]).id@ != (#[trigger] s[j]).id@
}

/// The entries of `s` by id.
pub open spec fn by_id<H>(s: Seq<SessionEntry<H>>) -> Map<Seq<char>, SessionEntry<H>>
    decreases s.len(),
{
    if s.len() == 0 {
        Map::empty()
    } else {
        by_id(s.drop_last()).insert(s.last().id@, s.last())
    }
}

/// The sessions of the daemon, one per id.
pub struct SessionTable<H> {
    entries: Vec<SessionEntry<H>>,
}

proof fn lemma_by_id_index<H>(s: Seq<SessionEntry<H>>, i: int)
    requires
        ids_distinct(s),
        0 <= i < s.len(),
    ensures
        by_id(s).contains_key(s[i].id@),
        by_id(s)[s[i].id@] == s[i],
    decreases s.len(),
{
    if i < s.len() - 1 {
        lemma_by_id_index(s.drop_last(), i);
        assert(s[i].id@ != s.last().id@);
    }
}

proof fn lemma_by_id_keys<H>(s: Seq<SessionEntry<H>>, k: Seq<char>)
    ensures
        by_id(s).contains_key(k) <==> exists|i: int| 0 <= i < s.len() && (#[trigger] s[i]).id@ == k,
    decreases s.len(),
{
    if s.len() > 0 {
        lemma_by_id_keys(s.drop_last(), k);
        if by_id(s.drop_last()).contains_key(k) {
            let i = choose|i: int| 0 <= i < s.len() - 1 && (#[trigger] s.drop_last()[i]).id@ == k;
            assert(s[i] == s.drop_last()[i]);
        }
        if exists|i: int| 0 <= i < s.len() && (#[trigger] s[i]).id@ == k {
            let i = choose|i: int| 0 <= i < s.len() && (#[trigger] s[i]).id@ == k;
            if i < s.len() - 1 {
                assert(s.drop_last()[i] == s[i]);
            }
        }
    }
}

proof fn lemma_by_id_remove<H>(s: Seq<SessionEntry<H>>, i: int)
    requires
        ids_distinct(s),
        0 <= i < s.len(),
    ensures
        by_id(s.remove(i)) == by_id(s).remove(s[i].id@),
        ids_distinct(s.remove(i)),
{
    let t = s.remove(i);
    assert forall|a: int, b: int| 0 <= a < b < t.len() implies (#[trigger] t[a]).id@ != (
    #[trigger] t[b]).id@ by {
        let a2 = if a < i { a } else { a + 1 };
        let b2 = if b < i { b } else { b + 1 };
        assert(t[a] == s[a2]);
        assert(t[b] == s[b2]);
    }
    lemma_by_id_same(t, by_id(s).remove(s[i].id@), s, i);
}

proof fn lemma_by_id_same<H>(t: Seq<SessionEntry<H>>, m: Map<Seq<char>, SessionEntry<H>>, s: Seq<SessionEntry<H>>, i: int)
    requires
        ids_distinct(s),
        ids_distinct(t),
        0 <= i < s.len(),
        t == s.remove(i),
        m == by_id(s).remove(s[i].id@),
    ensures
        by_id(t) == m,
{
    assert forall|k: Seq<char>| #[trigger] by_id(t).contains_key(k) <==> m.contains_key(k) by {
        lemma_by_id_keys(t, k);
        lemma_by_id_keys(s, k);
        if by_id(t).contains_key(k) {
            let j = choose|j: int| 0 <= j < t.len() && (#[trigger] t[j]).id@ == k;
            let j2 = if j < i { j } else { j + 1 };
            assert(t[j] == s[j2]);
        }
        if m.contains_key(k) {
            let j = choose|j: int| 0 <= j < s.len() && (#[trigger] s[j]).id@ == k;
            assert(j != i);
            let j2 = if j < i { j } else { j - 1 };
            assert(t[j2] == s[j]);
        }
    }
    assert forall|k: Seq<char>| #[trigger] by_id(t).contains_key(k) implies by_id(t)[k] == m[k] by {
        lemma_by_id_keys(t, k);
        let j = choose|j: int| 0 <= j < t.len() && (#[trigger] t[j]).id@ == k;
        let j2 = if j < i { j } else { j + 1 };
        assert(t[j] == s[j2]);
        lemma_by_id_index(t, j);
        lemma_by_id_index(s, j2);
    }
    assert(by_id(t) =~= m);
}

impl<H> SessionTable<H> {
    #[verifier::type_invariant]
    spec fn inv(self) -> bool {
        ids_distinct(self.entries@)
    }

    /// The sessions of the table by id.
    pub closed spec fn view(&self) -> Map<Seq<char>, SessionEntry<H>> {
        by_id(self.entries@)
    }

    /// An empty table.
    pub fn new() -> (t: SessionTable<H>)
        ensures
            t.view() == Map::<Seq<char>, SessionEntry<H>>::empty(),
    {
        SessionTable { entries: Vec::new() }
    }

    fn find(&self, id: &str) -> (r: Option<usize>)
        ensures
            match r {
                Some(i) => i < self.entries@.len() && self.entries@[i as int].id@ == id@,
                None => forall|j: int| 0 <= j < self.entries@.len() ==> (#[trigger] self.entries@[j]).id@ != id@,
            },
    {
        let key = id.to_owned();
        let mut i: usize = 0;
        while i < self.entries.len()
            invariant
                i <= self.entries@.len(),
                key@ == id@,
                forall|j: int| 0 <= j < i ==> (#[trigger] self.entries@[j]).id@ != id@,
            decreases self.entries@.len() - i,
        {
            if self.entries[i].id == key {
                return Some(i);
            }
            i = i + 1;
        }
        None
    }

    /// Whether a session with id `id` is in the table.
    pub fn contains(&self, id: &str) -> (b: bool)
        ensures
            b == self.view().contains_key(id@),
    {
        proof {
            lemma_by_id_keys(self.entries@, id@);
        }
        self.find(id).is_some()
    }

    /// The session with id `id`, if any.
    pub fn get(&self, id: &str) -> (r: Option<&SessionEntry<H>>)
        ensures
            match r {
                Some(e) => self.view().contains_key(id@) && *e == self.view()[id@],
                None => !self.view().contains_key(id@),
            },
    {
        proof {
            use_type_invariant(self);
            lemma_by_id_keys(self.entries@, id@);
        }
        match self.find(id) {
            Some(i) => {
                proof {
                    lemma_by_id_index(self.entries@, i as int);
                }
                Some(&self.entries[i])
            },
            None => None,
        }
    }

    /// Adds `e`, replacing a session with the same id.
    pub fn insert(&mut self, e: SessionEntry<H>)
        ensures
            final(self).view() == old(self).view().insert(e.id@, e),
    {
        proof {
            use_type_invariant(&*self);
        }
        let ghost k = e.id@;
        let ghost ev = e;
        let found = self.find(e.id.as_str());
        let mut entries = Vec::new();
        std::mem::swap(&mut entries, &mut self.entries);
        let ghost s = entries@;
        match found {
            Some(i) => {
                proof {
                    lemma_by_id_remove(s, i as int);
                }
                entries.remove(i);
                let ghost t = entries@;
                assert(t == s.remove(i as int));
                entries.push(e);
                proof {
                    assert(entries@.drop_last() == t);
                    assert forall|a: int, b: int| 0 <= a < b < entries@.len() implies (
                    #[trigger] entries@[a]).id@ != (#[trigger] entries@[b]).id@ by {
                        if b == entries@.len() - 1 {
                            assert(entries@[a] == t[a]);
                            lemma_by_id_keys(t, k);
                            lemma_by_id_keys(s, k);
                            assert(!by_id(t).contains_key(k));
                        } else {
                            assert(entries@[a] == t[a]);
                            assert(entries@[b] == t[b]);
                        }
                    }
                    assert(by_id(entries@) =~= by_id(s).insert(k, ev));
                }
            },
            None => {
                entries.push(e);
                proof {
                    assert(entries@.drop_last() == s);
                    assert forall|a: int, b: int| 0 <= a < b < entries@.len() implies (
                    #[trigger] entries@[a]).id@ != (#[trigger] entries@[b]).id@ by {
                        assert(entries@[a] == s[a]);
                        if b < entries@.len() - 1 {
                            assert(entries@[b] == s[b]);
                        }
                    }
                }
            },
        }
        self.entries = entries;
    }

    /// Removes the session with id `id`, giving it back.
    pub fn remove(&mut self, id: &str) -> (r: Option<SessionEntry<H>>)
        ensures
            final(self).view() == old(self).view().remove(id@),
            match r {
                Some(e) => old(self).view().contains_key(id@) && e == old(self).view()[id@],
                None => !old(self).view().contains_key(id@),
            },
    {
        proof {
            use_type_invariant(&*self);
            lemma_by_id_keys(self.entries@, id@);
        }
        match self.find(id) {
            Some(i) => {
                let mut entries = Vec::new();
                std::mem::swap(&mut entries, &mut self.entries);
                let ghost s = entries@;
                proof {
                    lemma_by_id_remove(s, i as int);
                    lemma_by_id_index(s, i as int);
                }
                let e = entries.remove(i);
                self.entries = entries;
                Some(e)
            },
            None => {
                assert(old(self).view().remove(id@) =~= old(self).view());
                None
            },
        }
    }

    /// The metadata of every session that has not exited.
    pub fn list(&self) -> (r: Vec<SessionInfo>)
        ensures
            forall|i: int, j: int| 0 <= i < j < r@.len() ==> (#[trigger] r@[i]).id@ != (#[trigger] r@[j]).id@,
            forall|i: int| 0 <= i < r@.len() ==> {
                &&& self.view().contains_key((#[trigger] r@[i]).id@)
                &&& self.view()[r@[i].id@].status != SessionStatus::Exited
                &&& describes(r@[i], self.view()[r@[i].id@])
            },
            forall|k: Seq<char>| #[trigger] self.view().contains_key(k) && self.view()[k].status
                != SessionStatus::Exited ==> exists|i: int| 0 <= i < r@.len() && (#[trigger] r@[i]).id@ == k,
    {
        proof {
            use_type_invariant(self);
        }
        let ghost s = self.entries@;
        let mut r: Vec<SessionInfo> = Vec::new();
        let ghost mut src: Seq<int> = Seq::empty();
        let mut i: usize = 0;
        while i < self.entries.len()
            invariant
                i <= s.len(),
                s == self.entries@,
                ids_distinct(s),
                src.len() == r@.len(),
                forall|a: int| 0 <= a < src.len() ==> 0 <= #[trigger] src[a] < i,
                forall|a: int, b: int| 0 <= a < b < src.len() ==> #[trigger] src[a] < #[trigger] src[b],
                forall|a: int| 0 <= a < r@.len() ==> (#[trigger] r@[a]).id@ == s[src[a]].id@,
                forall|a: int| 0 <= a < r@.len() ==> s[#[trigger] src[a]].status != SessionStatus::Exited,
                forall|a: int| 0 <= a < r@.len() ==> describes(#[trigger] r@[a], s[src[a]]),
                forall|j: int| 0 <= j < i && (#[trigger] s[j]).status != SessionStatus::Exited ==> exists|a: int| 0 <= a < src.len() && src[a] == j,
            decreases s.len() - i,
        {
            let e = &self.entries[i];
            let ghost r0 = r@;
            let ghost src0 = src;
            if e.status != SessionStatus::Exited {
                let info = e.info();
                assert(describes(info, s[i as int]));
                assert(s[i as int].status != SessionStatus::Exited);
                r.push(info);
                proof {
                    src = src.push(i as int);
                    assert forall|a: int| 0 <= a < r@.len() implies {
                        &&& (#[trigger] r@[a]).id@ == s[src[a]].id@
                        &&& s[src[a]].status != SessionStatus::Exited
                        &&& describes(r@[a], s[src[a]])
                    } by {
                        if a < r0.len() {
                            assert(r@[a] == r0[a]);
                            assert(src[a] == src0[a]);
                        } else {
                            assert(r@[a] == info);
                            assert(src[a] == i);
                        }
                    }
                    assert forall|j: int| 0 <= j < i + 1 && (#[trigger] s[j]).status
                        != SessionStatus::Exited implies exists|a: int| 0 <= a < src.len() && src[a] == j by {
                        if j < i {
                            let a = choose|a: int| 0 <= a < src0.len() && src0[a] == j;
                            assert(src[a] == j);
                        } else {
                            assert(src[src.len() - 1] == j);
                        }
                    }
                }
            } else {
                proof {
                    assert forall|a: int| 0 <= a < r@.len() implies {
                        &&& (#[trigger] r@[a]).id@ == s[src[a]].id@
                        &&& s[src[a]].status != SessionStatus::Exited
                        &&& describes(r@[a], s[src[a]])
                    } by {
                        assert(r@[a] == r0[a]);
                    }
                    assert forall|j: int| 0 <= j < i + 1 && (#[trigger] s[j]).status
                        != SessionStatus::Exited implies exists|a: int| 0 <= a < src.len() && src[a] == j by {
                        if j < i {
                            let a = choose|a: int| 0 <= a < src0.len() && src0[a] == j;
                            assert(src[a] == j);
                        }
                    }
                }
            }
            i = i + 1;
        }
        proof {
            assert forall|a: int, b: int| 0 <= a < b < r@.len() implies (#[trigger] r@[a]).id@ != (#[trigger] r@[b]).id@ by {
                assert(src[a] < src[b]);
            }
            assert forall|a: int| 0 <= a < r@.len() implies {
                &&& self.view().contains_key((#[trigger] r@[a]).id@)
                &&& self.view()[r@[a].id@].status != SessionStatus::Exited
                &&& describes(r@[a], self.view()[r@[a].id@])
            } by {
                lemma_by_id_index(s, src[a]);
            }
            assert forall|k: Seq<char>| #[trigger] self.view().contains_key(k) && self.view()[k].status
                != SessionStatus::Exited implies exists|a: int| 0 <= a < r@.len() && (#[trigger] r@[a]).id@ == k by {
                lemma_by_id_keys(s, k);
                let j = choose|j: int| 0 <= j < s.len() && (#[trigger] s[j]).id@ == k;
                lemma_by_id_index(s, j);
                let a = choose|a: int| 0 <= a < src.len() && src[a] == j;
                assert(r@[a].id@ == k);
            }
        }
        r
    }

    /// The inject port of session `id`, or the error that the session is
    /// unknown.
    pub fn inject_port(&self, id: &str) -> (r: Result<u16, String>)
        ensures
            match r {
                Ok(p) => self.view().contains_key(id@) && p == self.view()[id@].inject_port,
                Err(m) => !self.view().contains_key(id@) && m@ == "Session not found: "@ + id@,
            },
    {
        match self.get(id) {
            Some(e) => Ok(e.inject_port),
            None => Err(concat("Session not found: ", id)),
        }
    }
}

/// The text typed into a PTY to answer a tool-call approval: `y` or `n` and
/// a newline.
pub fn approval_response(approved: bool) -> (r: &'static str)
    ensures
        r@ == (if approved { "y\n"@ } else { "n\n"@ }),
{
    if approved { "y\n" } else { "n\n" }
}

/// The address of the inject server of a PTY on local port `port`.
pub fn inject_address(port: u16) -> (r: String)
    ensures
        r@ == "127.0.0.1:"@ + decimal(port as nat),
{
    let mut s = "127.0.0.1:".to_owned();
    push_decimal(&mut s, port as u64);
    s
}

} // verus!
