//! The follower side of Raft: term tracking, voting and log appends.
use vstd::prelude::*;

verus! {

#[derive(Debug, Clone, Copy, PartialEq, Eq, Structural)]
pub enum RaftState {
    Follower,
    Candidate,
    Leader,
}

#[derive(Debug, Clone)]
pub struct RaftLogEntry {
    pub term: u64,
    pub command: Vec<u8>,
}

pub struct RaftNode {
    pub current_term: u64,
    pub voted_for: Option<String>,
    pub log: Vec<RaftLogEntry>,
    pub commit_index: u64,
    pub last_applied: u64,
    pub state: RaftState,
}

/// The candidate a node voted for, as characters.
pub open spec fn vote_view(v: Option<String>) -> Option<Seq<char>> {
    match v {
        Some(c) => Some(c@),
        None => None,
    }
}

/// An append-entries request of `term` that carries `entries` and the leader's
/// `leader_commit`, taking node `pre` to `post` and answering `granted`:
/// a stale term is refused and changes nothing; otherwise the node adopts the
/// term, becomes a follower, appends the entries and raises its commit index
/// to the leader's, capped at its log length.
pub open spec fn append_step(
    pre: RaftNode,
    term: u64,
    entries: Seq<RaftLogEntry>,
    leader_commit: u64,
    post: RaftNode,
    granted: bool,
) -> bool {
    if term < pre.current_term {
        &&& !granted
        &&& post.current_term == pre.current_term
        &&& post.voted_for == pre.voted_for
        &&& post.log@ == pre.log@
        &&& post.commit_index == pre.commit_index
        &&& post.last_applied == pre.last_applied
        &&& post.state == pre.state
    } else {
        &&& granted
        &&& post.current_term == term
        &&& post.voted_for == pre.voted_for
        &&& post.log@ == pre.log@ + entries
        &&& post.commit_index == if leader_commit > pre.commit_index {
            if leader_commit < post.log@.len() {
                leader_commit
            } else {
                post.log@.len() as u64
            }
        } else {
            pre.commit_index
        }
        &&& post.last_applied == pre.last_applied
        &&& post.state == RaftState::Follower
    }
}

/// A vote request of `term` from `candidate`, taking node `pre` to `post` and
/// answering `granted`: a stale term is refused; a newer term is adopted (the
/// node becomes a follower and forgets its vote); the vote is granted when the
/// node has not voted in the term or voted for this candidate.
pub open spec fn vote_step(
    pre: RaftNode,
    term: u64,
    candidate: Seq<char>,
    post: RaftNode,
    granted: bool,
) -> bool {
    &&& post.log@ == pre.log@
    &&& post.commit_index == pre.commit_index
    &&& post.last_applied == pre.last_applied
    &&& if term < pre.current_term {
        &&& !granted
        &&& post.current_term == pre.current_term
        &&& vote_view(post.voted_for) == vote_view(pre.voted_for)
        &&& post.state == pre.state
    } else {
        let prior = if term > pre.current_term {
            None
        } else {
            vote_view(pre.voted_for)
        };
        &&& post.current_term == term
        &&& post.state == (if term > pre.current_term {
            RaftState::Follower
        } else {
            pre.state
        })
        &&& granted == (prior is None || prior == Some(candidate))
        &&& vote_view(post.voted_for) == if granted {
            Some(candidate)
        } else {
            prior
        }
    }
}

impl RaftNode {
    /// The commit index never passes the end of the log.
    pub open spec fn wf(&self) -> bool {
        self.commit_index <= self.log@.len()
    }

    /// A follower at term 0 with an empty log and no vote.
    pub fn new() -> (n: Self)
        ensures
            n.wf(),
            n.current_term == 0,
            n.voted_for is None,
            n.log@.len() == 0,
            n.commit_index == 0,
            n.last_applied == 0,
            n.state == RaftState::Follower,
    {
        RaftNode {
            current_term: 0,
            voted_for: None,
            log: Vec::new(),
            commit_index: 0,
            last_applied: 0,
            state: RaftState::Follower,
        }
    }

    /// Handles an append-entries request; answers whether it was accepted.
    /// The previous-entry fields are carried but not checked.
    pub fn handle_append_entries(
        &mut self,
        term: u64,
        _prev_log_index: u64,
        _prev_log_term: u64,
        entries: Vec<RaftLogEntry>,
        leader_commit: u64,
    ) -> (granted: bool)
        ensures
            append_step(*old(self), term, entries@, leader_commit, *final(self), granted),
    {
        if term < self.current_term {
            return false;
        }
        self.current_term = term;
        self.state = RaftState::Follower;
        let mut entries = entries;
        self.log.append(&mut entries);
        if leader_commit > self.commit_index {
            let len = self.log.len() as u64;
            self.commit_index = if leader_commit < len {
                leader_commit
            } else {
                len
            };
        }
        true
    }

    /// Handles a vote request from `candidate_id`; answers whether the vote is granted.
    /// The candidate's log position is carried but not checked.
    pub fn handle_request_vote(
        &mut self,
        term: u64,
        candidate_id: String,
        _last_log_index: u64,
        _last_log_term: u64,
    ) -> (granted: bool)
        ensures
            vote_step(*old(self), term, candidate_id@, *final(self), granted),
    {
        if term < self.current_term {
            return false;
        }
        if term > self.current_term {
            self.current_term = term;
            self.state = RaftState::Follower;
            self.voted_for = None;
        }
        let may_vote = match &self.voted_for {
            None => true,
            Some(c) => *c == candidate_id,
        };
        if may_vote {
            self.voted_for = Some(candidate_id);
            return true;
        }
        false
    }
}

impl Default for RaftNode {
    fn default() -> (n: Self)
        ensures
            n.wf(),
            n.current_term == 0,
            n.voted_for is None,
            n.log@.len() == 0,
            n.commit_index == 0,
            n.last_applied == 0,
            n.state == RaftState::Follower,
    {
        Self::new()
    }
}

/// Raft law: a node's term never decreases, whatever request it handles.
pub proof fn law_term_never_decreases(
    pre: RaftNode,
    term: u64,
    entries: Seq<RaftLogEntry>,
    leader_commit: u64,
    candidate: Seq<char>,
    post_append: RaftNode,
    appended: bool,
    post_vote: RaftNode,
    voted: bool,
)
    requires
        append_step(pre, term, entries, leader_commit, post_append, appended),
        vote_step(pre, term, candidate, post_vote, voted),
    ensures
        post_append.current_term >= pre.current_term,
        post_vote.current_term >= pre.current_term,
{
}

/// Raft law: within one term a node grants its vote to at most one candidate.
pub proof fn law_one_vote_per_term(
    n0: RaftNode,
    t1: u64,
    c1: Seq<char>,
    n1: RaftNode,
    g1: bool,
    t2: u64,
    c2: Seq<char>,
    n2: RaftNode,
    g2: bool,
)
    requires
        vote_step(n0, t1, c1, n1, g1),
        vote_step(n1, t2, c2, n2, g2),
        g1,
        g2,
        t1 == t2,
    ensures
        c1 == c2,
{
}

/// Raft law: handling an append keeps the commit index within the log and
/// never lowers it.
pub proof fn law_commit_index_bounded_and_monotone(
    pre: RaftNode,
    term: u64,
    entries: Seq<RaftLogEntry>,
    leader_commit: u64,
    post: RaftNode,
    granted: bool,
)
    requires
        pre.wf(),
        append_step(pre, term, entries, leader_commit, post, granted),
    ensures
        post.wf(),
        post.commit_index >= pre.commit_index,
        post.log@.len() >= pre.log@.len(),
{
}

/// Raft law: an accepted append sets the commit index to the larger of the
/// old commit index and the leader's commit index capped at the new log
/// length; so when it moves, it never passes the leader's commit index.
pub proof fn law_append_commits_up_to_leader(
    pre: RaftNode,
    term: u64,
    entries: Seq<RaftLogEntry>,
    leader_commit: u64,
    post: RaftNode,
    granted: bool,
)
    requires
        pre.wf(),
        append_step(pre, term, entries, leader_commit, post, granted),
    ensures
        granted <==> term >= pre.current_term,
        granted ==> post.log@.len() == pre.log@.len() + entries.len(),
        granted ==> {
            let cap = if (leader_commit as int) < post.log@.len() {
                leader_commit as int
            } else {
                post.log@.len() as int
            };
            post.commit_index as int == if cap > pre.commit_index {
                cap
            } else {
                pre.commit_index as int
            }
        },
        post.commit_index != pre.commit_index ==> post.commit_index <= leader_commit,
{
}

/// Raft law: a vote request from a newer term makes the node a follower in
/// that term, whatever the vote; a request from an older term changes
/// neither term nor state and is refused.
pub proof fn law_newer_term_steps_down(
    pre: RaftNode,
    term: u64,
    candidate: Seq<char>,
    post: RaftNode,
    granted: bool,
)
    requires
        vote_step(pre, term, candidate, post, granted),
    ensures
        term > pre.current_term ==> post.state == RaftState::Follower && post.current_term == term
            && granted && vote_view(post.voted_for) == Some(candidate),
        term < pre.current_term ==> !granted && post.state == pre.state && post.current_term
            == pre.current_term,
{
}

} // verus!
