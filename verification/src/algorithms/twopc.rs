//! Two-phase commit: a coordinator gathers votes and commits only when every
//! participant voted to commit; participants prepare, then commit or abort.
use vstd::prelude::*;
use crate::collections::{StrMap, lemma_entry_in_map};

verus! {

#[derive(Debug, Clone, Copy, PartialEq, Eq, Structural)]
pub enum TransactionState {
    Init,
    Prepared,
    Committed,
    Aborted,
}

/// Why a transaction step was refused.
#[derive(Debug, Clone, Copy, PartialEq, Eq, Structural)]
pub enum TwoPcError {
    /// A vote arrived after the coordinator left the `Init` state.
    NotInInit,
    /// Commit was asked for before the transaction was prepared.
    NotPrepared,
}

impl TwoPcError {
    /// The refusal as text.
    pub fn to_string(&self) -> (s: String)
        ensures
            s@ == two_pc_error_text(*self),
    {
        match self {
            TwoPcError::NotInInit => "Transaction not in Init state".to_owned(),
            TwoPcError::NotPrepared => "Cannot commit, not prepared".to_owned(),
        }
    }
}

/// The text of a refusal.
pub open spec fn two_pc_error_text(e: TwoPcError) -> Seq<char> {
    match e {
        TwoPcError::NotInInit => "Transaction not in Init state"@,
        TwoPcError::NotPrepared => "Cannot commit, not prepared"@,
    }
}

pub struct TwoPhaseCommitCoordinator {
    pub tx_id: String,
    pub state: TransactionState,
    pub participants: Vec<String>,
    /// Votes by participant: `true` is a vote to commit.
    pub votes: StrMap<bool>,
}

/// Some recorded vote is a vote to abort.
pub open spec fn some_vote_aborts(votes: Map<Seq<char>, bool>) -> bool {
    exists|k: Seq<char>| #[trigger] votes.contains_key(k) && !votes[k]
}

/// Every recorded vote is a vote to commit.
pub open spec fn all_votes_commit(votes: Map<Seq<char>, bool>) -> bool {
    forall|k: Seq<char>| #[trigger] votes.contains_key(k) ==> votes[k]
}

/// Every listed participant has voted, and voted to commit.
pub open spec fn all_participants_commit(votes: Map<Seq<char>, bool>, participants: Seq<String>) -> bool {
    forall|i: int|
        0 <= i < participants.len() ==> votes.contains_key(#[trigger] participants[i]@)
            && votes[participants[i]@]
}

/// The coordinator state after the votes `votes` (just updated) in state `Init`:
/// aborted on any vote to abort, prepared once every listed participant has
/// voted to commit, otherwise still collecting.
pub open spec fn state_after_vote(votes: Map<Seq<char>, bool>, participants: Seq<String>) -> TransactionState {
    if some_vote_aborts(votes) {
        TransactionState::Aborted
    } else if all_participants_commit(votes, participants) {
        TransactionState::Prepared
    } else {
        TransactionState::Init
    }
}

impl TwoPhaseCommitCoordinator {
    /// The votes are kept with each voter once.
    pub open spec fn wf(&self) -> bool {
        self.votes.wf()
    }

    /// A prepared or committed transaction has no vote to abort and a vote to
    /// commit from every listed participant.
    pub open spec fn decision_inv(&self) -> bool {
        (self.state == TransactionState::Prepared || self.state == TransactionState::Committed)
            ==> (!some_vote_aborts(self.votes@) && all_participants_commit(
            self.votes@,
            self.participants@,
        ))
    }

    /// A transaction in `Init` with no votes.
    pub fn new(tx_id: String, participants: Vec<String>) -> (c: Self)
        ensures
            c.wf(),
            c.decision_inv(),
            c.tx_id == tx_id,
            c.participants == participants,
            c.state == TransactionState::Init,
            c.votes@ == Map::<Seq<char>, bool>::empty(),
    {
        TwoPhaseCommitCoordinator {
            tx_id,
            state: TransactionState::Init,
            participants,
            votes: StrMap::new(),
        }
    }

    /// Records `participant`'s vote (a later vote replaces an earlier one) and
    /// moves to `Aborted` or `Prepared` when the votes decide. Refused unless
    /// the coordinator is in `Init`.
    pub fn receive_vote(&mut self, participant: String, vote_commit: bool) -> (r: Result<(), TwoPcError>)
        requires
            old(self).wf(),
        ensures
            final(self).wf(),
            old(self).decision_inv() ==> final(self).decision_inv(),
            final(self).tx_id == old(self).tx_id,
            final(self).participants == old(self).participants,
            old(self).state != TransactionState::Init ==> r == Err::<(), TwoPcError>(
                TwoPcError::NotInInit,
            ) && final(self).state == old(self).state && final(self).votes@ == old(self).votes@,
            old(self).state == TransactionState::Init ==> r is Ok && final(self).votes@ == old(
                self,
            ).votes@.insert(participant@, vote_commit) && final(self).state == state_after_vote(
                final(self).votes@,
                old(self).participants@,
            ),
    {
        if self.state != TransactionState::Init {
            return Err(TwoPcError::NotInInit);
        }
        self.votes.insert(participant, vote_commit);
        let mut any_abort = false;
        let mut i: usize = 0;
        while i < self.votes.entries.len()
            invariant
                self.votes.wf(),
                i <= self.votes.entries@.len(),
                any_abort == exists|j: int| 0 <= j < i && !(#[trigger] self.votes.entries@[j]).1,
            decreases self.votes.entries@.len() - i,
        {
            if !self.votes.entries[i].1 {
                any_abort = true;
            }
            i = i + 1;
        }
        proof {
            let s = self.votes.entries@;
            if any_abort {
                let j = choose|j: int| 0 <= j < s.len() && !(#[trigger] s[j]).1;
                lemma_entry_in_map(s, j);
                assert(self.votes@.contains_key(s[j].0@));
            } else {
                assert forall|k: Seq<char>| #[trigger]
                    self.votes@.contains_key(k) implies self.votes@[k] by {
                    let j = crate::collections::key_index(s, k);
                    lemma_entry_in_map(s, j);
                    assert(!!s[j].1);
                }
            }
        }
        if any_abort {
            self.state = TransactionState::Aborted;
            return Ok(());
        }
        let ghost p = self.participants@;
        let mut all_commit = true;
        let mut j: usize = 0;
        while j < self.participants.len()
            invariant
                self.votes.wf(),
                p == self.participants@,
                j <= p.len(),
                all_commit == forall|x: int|
                    0 <= x < j ==> self.votes@.contains_key(#[trigger] p[x]@) && self.votes@[p[x]@],
            decreases p.len() - j,
        {
            match self.votes.get(&self.participants[j]) {
                Some(v) => {
                    if !*v {
                        all_commit = false;
                    }
                },
                None => {
                    all_commit = false;
                },
            }
            j = j + 1;
        }
        if all_commit {
            self.state = TransactionState::Prepared;
        }
        Ok(())
    }

    /// Commits a prepared transaction; refused in any other state.
    pub fn commit(&mut self) -> (r: Result<(), TwoPcError>)
        ensures
            old(self).decision_inv() ==> final(self).decision_inv(),
            final(self).tx_id == old(self).tx_id,
            final(self).participants == old(self).participants,
            final(self).votes == old(self).votes,
            old(self).state == TransactionState::Prepared ==> r is Ok && final(self).state
                == TransactionState::Committed,
            old(self).state != TransactionState::Prepared ==> r == Err::<(), TwoPcError>(
                TwoPcError::NotPrepared,
            ) && final(self).state == old(self).state,
    {
        if self.state != TransactionState::Prepared {
            return Err(TwoPcError::NotPrepared);
        }
        self.state = TransactionState::Committed;
        Ok(())
    }

    /// Aborts the transaction, whatever its state.
    pub fn abort(&mut self)
        ensures
            final(self).decision_inv(),
            final(self).tx_id == old(self).tx_id,
            final(self).participants == old(self).participants,
            final(self).votes == old(self).votes,
            final(self).state == TransactionState::Aborted,
    {
        self.state = TransactionState::Aborted;
    }
}

pub struct TwoPhaseCommitParticipant {
    pub tx_id: String,
    pub state: TransactionState,
}

impl TwoPhaseCommitParticipant {
    /// A participant in `Init`.
    pub fn new(tx_id: String) -> (p: Self)
        ensures
            p.tx_id == tx_id,
            p.state == TransactionState::Init,
    {
        TwoPhaseCommitParticipant { tx_id, state: TransactionState::Init }
    }

    /// Votes: prepared when able to commit, aborted otherwise; answers the vote.
    pub fn prepare(&mut self, can_commit: bool) -> (vote: bool)
        ensures
            vote == can_commit,
            final(self).tx_id == old(self).tx_id,
            final(self).state == if can_commit {
                TransactionState::Prepared
            } else {
                TransactionState::Aborted
            },
    {
        if can_commit {
            self.state = TransactionState::Prepared;
            true
        } else {
            self.state = TransactionState::Aborted;
            false
        }
    }

    /// Commits after a successful prepare; refused in any other state.
    pub fn commit(&mut self) -> (r: Result<(), TwoPcError>)
        ensures
            final(self).tx_id == old(self).tx_id,
            old(self).state == TransactionState::Prepared ==> r is Ok && final(self).state
                == TransactionState::Committed,
            old(self).state != TransactionState::Prepared ==> r == Err::<(), TwoPcError>(
                TwoPcError::NotPrepared,
            ) && final(self).state == old(self).state,
    {
        if self.state == TransactionState::Prepared {
            self.state = TransactionState::Committed;
            Ok(())
        } else {
            Err(TwoPcError::NotPrepared)
        }
    }

    /// Aborts, whatever the state.
    pub fn abort(&mut self)
        ensures
            final(self).tx_id == old(self).tx_id,
            final(self).state == TransactionState::Aborted,
    {
        self.state = TransactionState::Aborted;
    }
}

/// Two-phase commit law: a coordinator that commits holds a vote to commit
/// from every listed participant and no vote to abort.
pub proof fn law_commit_only_after_unanimous_votes(c: TwoPhaseCommitCoordinator)
    requires
        c.decision_inv(),
        c.state == TransactionState::Committed,
    ensures
        all_participants_commit(c.votes@, c.participants@),
        !some_vote_aborts(c.votes@),
{
}

/// Two-phase commit law: once any vote to abort is recorded the transaction
/// is aborted, and an aborted coordinator can never commit.
pub proof fn law_abort_vote_is_final(votes: Map<Seq<char>, bool>, participants: Seq<String>)
    requires
        some_vote_aborts(votes),
    ensures
        state_after_vote(votes, participants) == TransactionState::Aborted,
{
}

} // verus!
