use vstd::prelude::*;

verus! {

/// A log record; nothing appends or replicates one yet.
#[derive(Clone, Debug)]
pub struct Entry {
    pub key: String,
    pub value: String,
}

/// A socket address as plain values: the IP address as an integer, and the port.
#[derive(Clone, Copy, Debug, PartialEq, Eq, Structural)]
pub enum PeerAddr {
    V4 { ip: u32, port: u16 },
    V6 { ip: u128, port: u16, flowinfo: u32, scope_id: u32 },
}

/// A cluster member. Two ids are equal when the number and the address are.
#[derive(Clone, Copy, Debug, PartialEq, Eq, Structural)]
pub struct ServerId {
    pub id: u32,
    pub address: PeerAddr,
}

/// The role a server holds in the current term.
#[derive(Clone, Copy, Debug, PartialEq, Eq, Structural)]
pub enum ServerState {
    Leader,
    Follower,
    Candidate,
}

/// What the heartbeat timer's tick asks the server to do.
#[derive(Clone, Copy, Debug, PartialEq, Eq, Structural)]
pub enum TickAction {
    /// Nothing is due.
    Wait,
    /// A new election started: ask every other member for its vote.
    RequestVotes,
    /// This server leads: send heartbeats to the followers.
    SendHeartbeats,
}

/// The period of the heartbeat timer, in milliseconds.
pub const HEARTBEAT_INTERVAL_MS: u64 = 5000;

/// The default election timeout, in milliseconds.
pub const ELECTION_TIMEOUT_MS: u64 = 250;

/// The shortest election timeout that [`election_timeout_from`] picks, in milliseconds.
pub const MIN_ELECTION_TIMEOUT_MS: u64 = 150;

/// The longest election timeout that [`election_timeout_from`] picks, in milliseconds.
pub const MAX_ELECTION_TIMEOUT_MS: u64 = 300;

/// An election timeout picked by `seed` from 150 to 300 ms, so that servers started
/// together do not time out together.
pub fn election_timeout_from(seed: u64) -> (r: u64)
    ensures
        MIN_ELECTION_TIMEOUT_MS <= r <= MAX_ELECTION_TIMEOUT_MS,
        r as int == MIN_ELECTION_TIMEOUT_MS + seed as int % 151,
{
    MIN_ELECTION_TIMEOUT_MS + seed % (MAX_ELECTION_TIMEOUT_MS - MIN_ELECTION_TIMEOUT_MS + 1)
}

/// The consensus state of one server: the term, its role in it, the known leader,
/// the vote cast in it, the election timer and the cluster's membership.
pub struct TermState {
    pub me: ServerId,
    pub current_term: u64,
    pub server_state: ServerState,
    pub leader: Option<ServerId>,
    pub voted_for: Option<ServerId>,
    /// When a heartbeat of the leader last arrived, in milliseconds.
    pub last_heartbeat: u64,
    pub heartbeat_interval: u64,
    pub election_timeout: u64,
    /// The known members, this server among them.
    pub servers: Vec<ServerId>,
    /// The members that granted this server their vote in the current term.
    pub votes: Vec<ServerId>,
}

/// True when `votes` are more than half of `servers`.
pub open spec fn is_majority(votes: Seq<ServerId>, servers: Seq<ServerId>) -> bool {
    2 * votes.len() > servers.len()
}

/// Milliseconds from `since` to `now`; a clock that went back counts as none.
pub open spec fn elapsed(since: u64, now: u64) -> int {
    if now >= since {
        now - since
    } else {
        0
    }
}

fn contains_id(ids: &Vec<ServerId>, id: ServerId) -> (r: bool)
    ensures
        r == ids@.contains(id),
{
    let mut i: usize = 0;
    while i < ids.len()
        invariant
            i <= ids@.len(),
            forall|j: int| 0 <= j < i ==> ids@[j] != id,
        decreases ids@.len() - i,
    {
        if ids[i] == id {
            return true;
        }
        i = i + 1;
    }
    false
}

impl TermState {
    /// The state's invariant: distinct members with this server among them, votes
    /// only from distinct members, and a candidate's own vote cast for itself.
    pub open spec fn wf(&self) -> bool {
        &&& self.servers@.no_duplicates()
        &&& self.servers@.contains(self.me)
        &&& self.votes@.no_duplicates()
        &&& forall|i: int| 0 <= i < self.votes@.len() ==> self.servers@.contains(#[trigger] self.votes@[i])
        &&& self.server_state == ServerState::Candidate ==> self.voted_for == Some(self.me)
            && self.votes@.contains(self.me)
        &&& self.server_state == ServerState::Follower ==> self.votes@.len() == 0
        &&& self.server_state == ServerState::Leader ==> self.leader == Some(self.me)
    }

    /// A follower in term 0 that knows only itself, has not voted and has seen no
    /// heartbeat.
    pub fn new(me: ServerId, election_timeout: u64) -> (r: TermState)
        ensures
            r.wf(),
            r.me == me,
            r.current_term == 0,
            r.server_state == ServerState::Follower,
            r.leader is None,
            r.voted_for is None,
            r.last_heartbeat == 0,
            r.heartbeat_interval == HEARTBEAT_INTERVAL_MS,
            r.election_timeout == election_timeout,
            r.servers@ == seq![me],
            r.votes@.len() == 0,
    {
        let mut servers: Vec<ServerId> = Vec::new();
        servers.push(me);
        let r = TermState {
            me,
            current_term: 0,
            server_state: ServerState::Follower,
            leader: None,
            voted_for: None,
            last_heartbeat: 0,
            heartbeat_interval: HEARTBEAT_INTERVAL_MS,
            election_timeout,
            servers,
            votes: Vec::new(),
        };
        assert(r.servers@ =~= seq![me]);
        assert(r.servers@[0] == me);
        assert(r.votes@ =~= Seq::<ServerId>::empty());
        r
    }

    /// Registers a cluster member; returns whether it was new.
    pub fn add_server(&mut self, id: ServerId) -> (added: bool)
        requires
            old(self).wf(),
        ensures
            final(self).wf(),
            final(self).heartbeat_interval == old(self).heartbeat_interval,
            final(self).election_timeout == old(self).election_timeout,
            added == !old(self).servers@.contains(id),
            added ==> final(self).servers@ == old(self).servers@.push(id),
            !added ==> final(self).servers@ == old(self).servers@,
            final(self).current_term == old(self).current_term,
            final(self).server_state == old(self).server_state,
            final(self).leader == old(self).leader,
            final(self).voted_for == old(self).voted_for,
            final(self).votes@ == old(self).votes@,
            final(self).last_heartbeat == old(self).last_heartbeat,
            final(self).me == old(self).me,
    {
        if contains_id(&self.servers, id) {
            return false;
        }
        self.servers.push(id);
        assert forall|i: int| 0 <= i < self.votes@.len() implies self.servers@.contains(
            #[trigger] self.votes@[i],
        ) by {
            let k = choose|k: int| 0 <= k < old(self).servers@.len() && old(self).servers@[k]
                == self.votes@[i];
            assert(self.servers@[k] == self.votes@[i]);
        }
        assert(self.servers@[self.servers@.len() - 1] == id);
        let ghost k = choose|k: int| 0 <= k < old(self).servers@.len() && old(self).servers@[k]
            == self.me;
        assert(self.servers@[k] == self.me);
        true
    }

    /// Whether the votes gathered so far are more than half of the members.
    fn has_majority(&self) -> (r: bool)
        ensures
            r == is_majority(self.votes@, self.servers@),
    {
        self.votes.len() > self.servers.len() / 2
    }

    /// The heartbeat timer's tick. A leader sends heartbeats. A follower or
    /// candidate that has heard no heartbeat for longer than the election timeout
    /// starts an election: it moves to the next term, votes for itself and asks the
    /// others for their votes, and leads at once if its own vote is a majority. The
    /// last term of all (`u64::MAX`) starts no election.
    pub fn on_tick(&mut self, now: u64) -> (r: TickAction)
        requires
            old(self).wf(),
        ensures
            final(self).wf(),
            final(self).heartbeat_interval == old(self).heartbeat_interval,
            old(self).server_state == ServerState::Leader ==> r == TickAction::SendHeartbeats
                && *final(self) == *old(self),
            old(self).server_state != ServerState::Leader && (elapsed(old(self).last_heartbeat, now)
                <= old(self).election_timeout || old(self).current_term == u64::MAX) ==> r
                == TickAction::Wait && *final(self) == *old(self),
            old(self).server_state != ServerState::Leader && elapsed(old(self).last_heartbeat, now)
                > old(self).election_timeout && old(self).current_term < u64::MAX ==> {
                &&& final(self).current_term == old(self).current_term + 1
                &&& final(self).voted_for == Some(old(self).me)
                &&& final(self).votes@ == seq![old(self).me]
                &&& final(self).servers@ == old(self).servers@
                &&& final(self).last_heartbeat == old(self).last_heartbeat
                &&& final(self).election_timeout == old(self).election_timeout
                &&& final(self).me == old(self).me
                &&& is_majority(seq![old(self).me], old(self).servers@) ==> {
                    &&& final(self).server_state == ServerState::Leader
                    &&& final(self).leader == Some(old(self).me)
                    &&& r == TickAction::SendHeartbeats
                }
                &&& !is_majority(seq![old(self).me], old(self).servers@) ==> {
                    &&& final(self).server_state == ServerState::Candidate
                    &&& final(self).leader is None
                    &&& r == TickAction::RequestVotes
                }
            },
    {
        if self.server_state == ServerState::Leader {
            return TickAction::SendHeartbeats;
        }
        let waited = if now >= self.last_heartbeat {
            now - self.last_heartbeat
        } else {
            0
        };
        if waited <= self.election_timeout || self.current_term == u64::MAX {
            return TickAction::Wait;
        }
        self.current_term = self.current_term + 1;
        self.server_state = ServerState::Candidate;
        self.leader = None;
        self.voted_for = Some(self.me);
        let mut votes: Vec<ServerId> = Vec::new();
        votes.push(self.me);
        self.votes = votes;
        assert(self.votes@ =~= seq![self.me]);
        assert(self.votes@[0] == self.me);
        if self.has_majority() {
            self.server_state = ServerState::Leader;
            self.leader = Some(self.me);
            TickAction::SendHeartbeats
        } else {
            TickAction::RequestVotes
        }
    }

    /// A candidate asks for this server's vote in `term`. A stale term is refused. A
    /// newer term is adopted first, as a follower. The vote is granted when none
    /// was cast in the term yet.
    pub fn on_vote_request(&mut self, term: u64, candidate: ServerId) -> (granted: bool)
        requires
            old(self).wf(),
        ensures
            final(self).wf(),
            final(self).heartbeat_interval == old(self).heartbeat_interval,
            term < old(self).current_term ==> !granted && *final(self) == *old(self),
            term > old(self).current_term ==> {
                &&& granted
                &&& final(self).current_term == term
                &&& final(self).voted_for == Some(candidate)
                &&& final(self).server_state == ServerState::Follower
                &&& final(self).leader is None
                &&& final(self).votes@.len() == 0
            },
            term == old(self).current_term ==> {
                &&& granted == (old(self).voted_for is None)
                &&& granted ==> final(self).voted_for == Some(candidate)
                &&& final(self).current_term == old(self).current_term
                &&& final(self).server_state == old(self).server_state
                &&& final(self).leader == old(self).leader
                &&& final(self).votes@ == old(self).votes@
                &&& !granted ==> *final(self) == *old(self)
            },
            final(self).servers@ == old(self).servers@,
            final(self).last_heartbeat == old(self).last_heartbeat,
            final(self).election_timeout == old(self).election_timeout,
            final(self).me == old(self).me,
    {
        if term < self.current_term {
            return false;
        }
        if term > self.current_term {
            self.step_down(term);
        }
        if self.voted_for.is_none() {
            self.voted_for = Some(candidate);
            true
        } else {
            false
        }
    }

    /// A member answers this server's vote request of `term`. A newer term is
    /// adopted, as a follower. A vote granted to this candidate in its current term
    /// by a member that has not voted for it yet is counted, and a candidate whose
    /// votes are now a majority of the members leads.
    pub fn on_vote(&mut self, term: u64, voter: ServerId, granted: bool)
        requires
            old(self).wf(),
        ensures
            final(self).wf(),
            final(self).heartbeat_interval == old(self).heartbeat_interval,
            term > old(self).current_term ==> {
                &&& final(self).current_term == term
                &&& final(self).server_state == ServerState::Follower
                &&& final(self).leader is None
                &&& final(self).voted_for is None
                &&& final(self).votes@.len() == 0
            },
            term <= old(self).current_term ==> {
                let counted = old(self).server_state == ServerState::Candidate && term == old(
                    self,
                ).current_term && granted && old(self).servers@.contains(voter) && !old(
                    self,
                ).votes@.contains(voter);
                &&& final(self).current_term == old(self).current_term
                &&& final(self).voted_for == old(self).voted_for
                &&& !counted ==> *final(self) == *old(self)
                &&& counted ==> final(self).votes@ == old(self).votes@.push(voter)
                &&& counted && is_majority(final(self).votes@, old(self).servers@) ==> {
                    &&& final(self).server_state == ServerState::Leader
                    &&& final(self).leader == Some(old(self).me)
                }
                &&& counted && !is_majority(final(self).votes@, old(self).servers@) ==> {
                    &&& final(self).server_state == ServerState::Candidate
                    &&& final(self).leader == old(self).leader
                }
            },
            final(self).servers@ == old(self).servers@,
            final(self).last_heartbeat == old(self).last_heartbeat,
            final(self).election_timeout == old(self).election_timeout,
            final(self).me == old(self).me,
    {
        if term > self.current_term {
            self.step_down(term);
            return;
        }
        if self.server_state != ServerState::Candidate || term != self.current_term || !granted {
            return;
        }
        if !contains_id(&self.servers, voter) || contains_id(&self.votes, voter) {
            return;
        }
        self.votes.push(voter);
        assert forall|i: int| 0 <= i < self.votes@.len() implies self.servers@.contains(
            #[trigger] self.votes@[i],
        ) by {
            if i < old(self).votes@.len() {
                assert(self.votes@[i] == old(self).votes@[i]);
            }
        }
        assert(self.votes@.contains(self.me)) by {
            let k = choose|k: int| 0 <= k < old(self).votes@.len() && old(self).votes@[k]
                == self.me;
            assert(self.votes@[k] == self.me);
        }
        if self.has_majority() {
            self.server_state = ServerState::Leader;
            self.leader = Some(self.me);
        }
    }

    /// A heartbeat from `leader` in `term`. A stale one is ignored. Otherwise the
    /// term is adopted, this server follows `leader`, and the election timer
    /// restarts at `now`.
    pub fn on_heartbeat(&mut self, term: u64, leader: ServerId, now: u64) -> (accepted: bool)
        requires
            old(self).wf(),
        ensures
            final(self).wf(),
            final(self).heartbeat_interval == old(self).heartbeat_interval,
            term < old(self).current_term ==> !accepted && *final(self) == *old(self),
            term >= old(self).current_term ==> {
                &&& accepted
                &&& final(self).current_term == term
                &&& final(self).server_state == ServerState::Follower
                &&& final(self).leader == Some(leader)
                &&& final(self).last_heartbeat == now
                &&& final(self).votes@.len() == 0
                &&& term > old(self).current_term ==> final(self).voted_for is None
                &&& term == old(self).current_term ==> final(self).voted_for == old(self).voted_for
            },
            final(self).servers@ == old(self).servers@,
            final(self).election_timeout == old(self).election_timeout,
            final(self).me == old(self).me,
    {
        if term < self.current_term {
            return false;
        }
        if term > self.current_term {
            self.step_down(term);
        }
        self.server_state = ServerState::Follower;
        self.votes = Vec::new();
        self.leader = Some(leader);
        self.last_heartbeat = now;
        assert(self.votes@ =~= Seq::<ServerId>::empty());
        true
    }

    /// Adopts a newer term as a follower that has not voted in it.
    fn step_down(&mut self, term: u64)
        requires
            old(self).wf(),
        ensures
            final(self).wf(),
            final(self).current_term == term,
            final(self).server_state == ServerState::Follower,
            final(self).leader is None,
            final(self).voted_for is None,
            final(self).votes@.len() == 0,
            final(self).servers@ == old(self).servers@,
            final(self).last_heartbeat == old(self).last_heartbeat,
            final(self).election_timeout == old(self).election_timeout,
            final(self).heartbeat_interval == old(self).heartbeat_interval,
            final(self).me == old(self).me,
    {
        self.current_term = term;
        self.server_state = ServerState::Follower;
        self.leader = None;
        self.voted_for = None;
        self.votes = Vec::new();
    }
}

} // verus!
