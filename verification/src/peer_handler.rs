//! The dispatcher of one client address: which of its ports have a session,
//! whether a new request is taken, and when the dispatcher has been idle for
//! too long.

use std::collections::HashSet;
use vstd::prelude::*;
use vstd::string::*;
use vstd::set_lib::*;
use vstd::std_specs::hash::*;
use crate::fs::{
    found_in, gives, is_refusal, normalized, open_file, refused_by, OpenedFile, Root,
    FILE_NOT_FOUND_TEXT,
};
use crate::messages::{ReadRequest, TFTPError, FILE_NOT_FOUND, UNDEFINED_ERROR};
use crate::text::{occurs_at, starts_with, utf8};

verus! {

broadcast use vstd::std_specs::hash::group_hash_axioms;

/// The most sessions that one client address may have at a time.
pub const MAX_SESSIONS_PER_IP: usize = 128;

pub const TOO_MANY_SESSIONS: &'static str = "Maximum sessions per IP exceeded";

pub const DEFAULT_ROOT: &'static str = "default";

/// Whether a file in the root directory is a backend description for the
/// client: it is when its name begins with the client's address.
pub fn match_ip(file_name: &str, ip: &str) -> (matches: bool)
    ensures
        matches == occurs_at(utf8(file_name@), utf8(ip@), 0),
{
    starts_with(file_name, ip)
}

/// Whether `a` comes before `b`, or is `b`, in the order of their bytes.
pub open spec fn precedes(a: Seq<u8>, b: Seq<u8>) -> bool
    decreases a.len(),
{
    if a.len() == 0 {
        true
    } else if b.len() == 0 {
        false
    } else if a[0] != b[0] {
        a[0] < b[0]
    } else {
        precedes(a.drop_first(), b.drop_first())
    }
}

/// Of two names one comes before the other.
pub proof fn lemma_precedes_total(a: Seq<u8>, b: Seq<u8>)
    ensures
        precedes(a, b) || precedes(b, a),
    decreases a.len(),
{
    if a.len() > 0 && b.len() > 0 && a[0] == b[0] {
        lemma_precedes_total(a.drop_first(), b.drop_first());
    }
}

/// What comes before a name comes before all that the name comes before.
pub proof fn lemma_precedes_transitive(a: Seq<u8>, b: Seq<u8>, c: Seq<u8>)
    requires
        precedes(a, b),
        precedes(b, c),
    ensures
        precedes(a, c),
    decreases a.len(),
{
    if a.len() > 0 && b.len() > 0 && c.len() > 0 && a[0] == b[0] && b[0] == c[0] {
        lemma_precedes_transitive(a.drop_first(), b.drop_first(), c.drop_first());
    }
}

/// Whether `a` comes before `b`, or is `b`, in the order of their bytes.
pub fn comes_before(a: &str, b: &str) -> (before: bool)
    ensures
        before == precedes(utf8(a@), utf8(b@)),
{
    let first = a.as_bytes();
    let second = b.as_bytes();
    let mut i: usize = 0;
    assert(first@.skip(0) =~= first@ && second@.skip(0) =~= second@);
    loop
        invariant
            i <= first@.len(),
            i <= second@.len(),
            first@ == utf8(a@),
            second@ == utf8(b@),
            precedes(first@, second@) == precedes(first@.skip(i as int), second@.skip(i as int)),
        decreases first@.len() - i,
    {
        if i == first.len() {
            return true;
        }
        if i == second.len() {
            return false;
        }
        if first[i] != second[i] {
            return first[i] < second[i];
        }
        assert(first@.skip(i as int).drop_first() =~= first@.skip(i + 1));
        assert(second@.skip(i as int).drop_first() =~= second@.skip(i + 1));
        i = i + 1;
    }
}

/// Whether the names stand in the order of their bytes.
pub open spec fn in_order(names: Seq<String>) -> bool {
    forall|i: int, j: int|
        0 <= i < j < names.len() ==> precedes(utf8(#[trigger] names[i]@), utf8(#[trigger] names[j]@))
}

/// The names in the order of their bytes: the same names, each as often as
/// it was given.
#[verifier::rlimit(30)]
pub fn sort_names(names: &[String]) -> (sorted: Vec<String>)
    ensures
        in_order(sorted@),
        sorted@.to_multiset() == names@.to_multiset(),
{
    let mut sorted: Vec<String> = Vec::new();
    let mut i: usize = 0;
    assert(names@.subrange(0, 0) =~= sorted@);
    while i < names.len()
        invariant
            i <= names@.len(),
            in_order(sorted@),
            sorted@.to_multiset() == names@.subrange(0, i as int).to_multiset(),
        decreases names@.len() - i,
    {
        let name = names[i].clone();
        let mut at: usize = 0;
        while at < sorted.len() && comes_before(sorted[at].as_str(), name.as_str())
            invariant
                at <= sorted@.len(),
                forall|k: int| 0 <= k < at ==> precedes(utf8(#[trigger] sorted@[k]@), utf8(name@)),
            decreases sorted@.len() - at,
        {
            at = at + 1;
        }
        let ghost before = sorted@;
        proof {
            if at < before.len() {
                lemma_precedes_total(utf8(before[at as int]@), utf8(name@));
                assert forall|k: int| at <= k < before.len() implies precedes(
                    utf8(name@),
                    utf8(#[trigger] before[k]@),
                ) by {
                    if k > at {
                        lemma_precedes_transitive(
                            utf8(name@),
                            utf8(before[at as int]@),
                            utf8(before[k]@),
                        );
                    }
                }
            }
            vstd::seq_lib::to_multiset_insert(before, at as int, name);
            vstd::seq_lib::to_multiset_build(names@.subrange(0, i as int), names@[i as int]);
            assert(names@.subrange(0, i + 1) =~= names@.subrange(0, i as int).push(
                names@[i as int],
            ));
        }
        sorted.insert(at, name);
        assert(in_order(sorted@)) by {
            assert forall|x: int, y: int| 0 <= x < y < sorted@.len() implies precedes(
                utf8(#[trigger] sorted@[x]@),
                utf8(#[trigger] sorted@[y]@),
            ) by {
                if x < at && y > at {
                    assert(sorted@[x] == before[x] && sorted@[y] == before[y - 1]);
                } else if x < at && y < at {
                    assert(sorted@[x] == before[x] && sorted@[y] == before[y]);
                } else if x > at {
                    assert(sorted@[x] == before[x - 1] && sorted@[y] == before[y - 1]);
                } else if x == at {
                    assert(sorted@[y] == before[y - 1]);
                } else {
                    assert(sorted@[x] == before[x]);
                }
            }
        }
        i = i + 1;
    }
    assert(names@.subrange(0, i as int) =~= names@);
    sorted
}

/// A place in a client's chain of backends.
#[derive(Debug)]
pub enum RootEntry {
    /// A directory under the root directory, by its name.
    Directory(String),
    /// A backend described by a file in the root directory, by its name.
    Described(String),
}

/// What a root entry is, as plain values: whether it is a described backend,
/// and its name.
pub open spec fn entry_model(entry: RootEntry) -> (bool, Seq<char>) {
    match entry {
        RootEntry::Directory(name) => (false, name@),
        RootEntry::Described(name) => (true, name@),
    }
}

/// What a chain is, as plain values.
pub open spec fn chain_model(chain: Seq<RootEntry>) -> Seq<(bool, Seq<char>)> {
    Seq::new(chain.len(), |i: int| entry_model(chain[i]))
}

/// The described backends, in order, for those of `names` that begin with
/// `ip`.
pub open spec fn described_for(names: Seq<String>, ip: Seq<char>) -> Seq<(bool, Seq<char>)>
    decreases names.len(),
{
    if names.len() == 0 {
        seq![]
    } else if occurs_at(utf8(names.last()@), utf8(ip), 0) {
        described_for(names.drop_last(), ip).push((true, names.last()@))
    } else {
        described_for(names.drop_last(), ip)
    }
}

/// The chain of backends for a client: its own directory first, then the
/// described backends whose file name begins with its address, in the order
/// given, and the directory `default` last.
pub open spec fn chain_for(ip: Seq<char>, names: Seq<String>) -> Seq<(bool, Seq<char>)> {
    (seq![(false, ip)] + described_for(names, ip)).push((false, DEFAULT_ROOT@))
}

/// Lays out the chain of backends for the client at `ip`, from the names of
/// the files in the root directory. The described backends come in the
/// order of the names as given: hand them over sorted.
#[verifier::rlimit(30)]
pub fn plan_chain(ip: &str, file_names: &[String]) -> (chain: Vec<RootEntry>)
    ensures
        chain_model(chain@) == chain_for(ip@, file_names@),
{
    let mut chain: Vec<RootEntry> = Vec::new();
    chain.push(RootEntry::Directory(ip.to_owned()));
    let mut i: usize = 0;
    assert(file_names@.subrange(0, 0) =~= Seq::<String>::empty());
    assert(chain_model(chain@) =~= seq![(false, ip@)] + described_for(
        file_names@.subrange(0, 0),
        ip@,
    ));
    while i < file_names.len()
        invariant
            i <= file_names@.len(),
            chain_model(chain@) == seq![(false, ip@)] + described_for(
                file_names@.subrange(0, i as int),
                ip@,
            ),
        decreases file_names@.len() - i,
    {
        let ghost seen = file_names@.subrange(0, i as int);
        let ghost more = file_names@.subrange(0, i + 1);
        let ghost before = chain@;
        assert(more.drop_last() =~= seen);
        assert(more.last() == file_names@[i as int]);
        if match_ip(file_names[i].as_str(), ip) {
            let entry = RootEntry::Described(file_names[i].clone());
            let ghost model = entry_model(entry);
            chain.push(entry);
            assert(chain_model(chain@) =~= chain_model(before).push(model));
            assert(chain_model(chain@) =~= seq![(false, ip@)] + described_for(more, ip@));
        }
        i = i + 1;
    }
    assert(file_names@.subrange(0, i as int) =~= file_names@);
    let ghost before = chain@;
    chain.push(RootEntry::Directory(DEFAULT_ROOT.to_owned()));
    assert(chain_model(chain@) =~= chain_model(before).push((false, DEFAULT_ROOT@)));
    chain
}

/// Lays out the chain of backends for the client at `ip`, from the names of
/// the files in the root directory in whatever order they come: its own
/// directory first, then the described backends whose file name begins with
/// its address, in the order of their names, and the directory `default`
/// last.
pub fn sorted_chain(ip: &str, file_names: &[String]) -> (chain: Vec<RootEntry>)
    ensures
        exists|sorted: Seq<String>|
            {
                &&& #[trigger] in_order(sorted)
                &&& sorted.to_multiset() == file_names@.to_multiset()
                &&& chain_model(chain@) == chain_for(ip@, sorted)
            },
{
    let sorted = sort_names(file_names);
    plan_chain(ip, sorted.as_slice())
}

/// What a dispatcher knows.
pub struct DispatcherModel {
    /// The client ports that have a session.
    pub sessions: Set<u16>,
    /// When a session was last seen alive.
    pub last_active: u64,
    /// How long the dispatcher may stay without sessions.
    pub idle_timeout: u64,
}

impl DispatcherModel {
    /// What always holds of a dispatcher: it has no more sessions than one
    /// client address may have.
    pub open spec fn well_formed(self) -> bool {
        self.sessions.finite() && self.sessions.len() <= MAX_SESSIONS_PER_IP
    }

    /// The dispatcher without the sessions that have ended.
    pub open spec fn pruned(self, finished: Set<u16>) -> DispatcherModel {
        DispatcherModel { sessions: self.sessions.difference(finished), ..self }
    }

    /// The dispatcher after a turn without a request, at time `now`, and
    /// whether it shuts down: it does when it has no session and has had
    /// none for longer than the idle timeout.
    pub open spec fn after_idle_turn(self, now: u64, finished: Set<u16>) -> (DispatcherModel, bool) {
        let pruned = self.pruned(finished);
        if pruned.sessions.len() == 0 {
            (pruned, now - self.last_active > self.idle_timeout)
        } else {
            (DispatcherModel { last_active: now, ..pruned }, false)
        }
    }
}

/// What became of a request.
pub enum Handled<F = Box<dyn OpenedFile>> {
    /// The port has a session already: the request is a repetition and is
    /// dropped.
    Ignored,
    /// The client address has all the sessions it may have. The client is
    /// told, and the dispatcher shuts down.
    Overflow(TFTPError),
    /// No backend gave the file. The client is told.
    Denied(TFTPError),
    /// The file is open and the port has a session from now on.
    Opened(F),
}

/// The dispatcher of one client address.
pub struct PeerHandler {
    sessions: HashSet<u16>,
    last_active: u64,
    idle_timeout: u64,
}

impl View for PeerHandler {
    type V = DispatcherModel;

    closed spec fn view(&self) -> DispatcherModel {
        DispatcherModel {
            sessions: self.sessions@,
            last_active: self.last_active,
            idle_timeout: self.idle_timeout,
        }
    }
}

impl PeerHandler {
    /// A dispatcher without sessions, last active at `now`.
    pub fn new(now: u64, idle_timeout: u64) -> (handler: Self)
        ensures
            handler@ == (DispatcherModel { sessions: Set::empty(), last_active: now, idle_timeout }),
            handler@.well_formed(),
    {
        Self { sessions: HashSet::with_capacity(MAX_SESSIONS_PER_IP), last_active: now, idle_timeout }
    }

    /// The number of sessions.
    pub fn session_count(&self) -> (count: usize)
        requires
            self@.well_formed(),
        ensures
            count == self@.sessions.len(),
            count <= MAX_SESSIONS_PER_IP,
    {
        self.sessions.len()
    }

    /// Whether the port has a session.
    pub fn has_session(&self, peer_port: u16) -> (found: bool)
        ensures
            found == self@.sessions.contains(peer_port),
    {
        self.sessions.contains(&peer_port)
    }

    /// Forgets the sessions that have ended.
    #[verifier::rlimit(30)]
    fn prune(&mut self, finished: &[u16])
        requires
            old(self)@.well_formed(),
        ensures
            final(self)@ == old(self)@.pruned(finished@.to_set()),
            final(self)@.well_formed(),
    {
        let mut i: usize = 0;
        assert(finished@.subrange(0, 0).to_set() =~= Set::<u16>::empty());
        assert(self.sessions@.difference(Set::<u16>::empty()) =~= self.sessions@);
        while i < finished.len()
            invariant
                i <= finished@.len(),
                self.sessions@ == old(self).sessions@.difference(
                    finished@.subrange(0, i as int).to_set(),
                ),
                self.sessions@.finite(),
                self.last_active == old(self).last_active,
                self.idle_timeout == old(self).idle_timeout,
            decreases finished@.len() - i,
        {
            let port = finished[i];
            self.sessions.remove(&port);
            proof {
                let seen = finished@.subrange(0, i as int);
                let more = finished@.subrange(0, i + 1);
                assert(more =~= seen.push(port));
                assert(more.to_set() =~= seen.to_set().insert(port)) by {
                    assert forall|p: u16| more.to_set().contains(p) <==> seen.to_set().insert(
                        port,
                    ).contains(p) by {
                        if more.contains(p) {
                            let k = choose|k: int| 0 <= k < more.len() && more[k] == p;
                            if k < seen.len() {
                                assert(seen[k] == p);
                            }
                        }
                        if seen.contains(p) {
                            let k = choose|k: int| 0 <= k < seen.len() && seen[k] == p;
                            assert(more[k] == p);
                        }
                        if p == port {
                            assert(more[i as int] == p);
                        }
                    }
                }
                assert(self.sessions@ =~= old(self).sessions@.difference(more.to_set()));
            }
            i = i + 1;
        }
        proof {
            assert(finished@.subrange(0, i as int) =~= finished@);
            lemma_len_difference(old(self).sessions@, finished@.to_set());
        }
    }

    /// Takes a request from the client port `peer_port`. `finished` names
    /// the ports whose sessions have ended since the dispatcher last heard
    /// of it. A port that has a session is not served again. Otherwise the
    /// ended sessions are forgotten, and the request is refused where the
    /// address has all the sessions it may have. Else the file is looked for
    /// in the backends, and where one gives it the port has a session.
    pub fn handle_request(
        &mut self,
        read_request: &ReadRequest,
        peer_port: u16,
        finished: &[u16],
        available_roots: &[Box<dyn Root>],
    ) -> (handled: Handled)
        requires
            old(self)@.well_formed(),
        ensures
            final(self)@.well_formed(),
            ({
                let before = old(self)@;
                let pruned = before.pruned(finished@.to_set());
                match handled {
                    Handled::Ignored => before.sessions.contains(peer_port) && final(self)@
                        == before,
                    Handled::Overflow(error) => {
                        &&& !before.sessions.contains(peer_port)
                        &&& pruned.sessions.len() >= MAX_SESSIONS_PER_IP
                        &&& final(self)@ == pruned
                        &&& error.error_code == UNDEFINED_ERROR
                        &&& error.message@ == TOO_MANY_SESSIONS@
                    },
                    Handled::Denied(error) => {
                        &&& !before.sessions.contains(peer_port)
                        &&& pruned.sessions.len() < MAX_SESSIONS_PER_IP
                        &&& final(self)@ == pruned
                        &&& is_refusal(error) || (error.error_code == FILE_NOT_FOUND
                            && error.message@ == FILE_NOT_FOUND_TEXT@)
                        &&& refused_by(
                            available_roots@,
                            normalized(utf8(read_request.filename@)),
                            error,
                        )
                    },
                    Handled::Opened(file) => {
                        &&& !before.sessions.contains(peer_port)
                        &&& pruned.sessions.len() < MAX_SESSIONS_PER_IP
                        &&& available_roots@.len() > 0
                        &&& ({
                            let answer = gives(file);
                            found_in(
                                available_roots@,
                                normalized(utf8(read_request.filename@)),
                                answer,
                            )
                        })
                        &&& final(self)@ == (DispatcherModel {
                            sessions: pruned.sessions.insert(peer_port),
                            ..pruned
                        })
                    },
                }
            }),
    {
        if self.sessions.contains(&peer_port) {
            return Handled::Ignored;
        }
        self.prune(finished);
        if self.sessions.len() >= MAX_SESSIONS_PER_IP {
            return Handled::Overflow(TFTPError::new(TOO_MANY_SESSIONS, UNDEFINED_ERROR));
        }
        let outcome = open_file(read_request, available_roots);
        let ghost found = outcome;
        match outcome {
            Ok(file) => {
                self.sessions.insert(peer_port);
                assert(found == Ok::<_, TFTPError>(file));
                let handled = Handled::Opened(file);
                handled
            },
            Err(error) => Handled::Denied(error),
        }
    }

    /// Takes a turn without a request, at time `now`: forgets the sessions
    /// that have ended and says whether the dispatcher shuts down.
    pub fn idle_turn(&mut self, now: u64, finished: &[u16]) -> (shut_down: bool)
        requires
            old(self)@.well_formed(),
        ensures
            (final(self)@, shut_down) == old(self)@.after_idle_turn(now, finished@.to_set()),
            final(self)@.well_formed(),
    {
        self.prune(finished);
        if self.sessions.len() == 0 {
            now > self.last_active && now - self.last_active > self.idle_timeout
        } else {
            self.last_active = now;
            false
        }
    }
}

} // verus!
