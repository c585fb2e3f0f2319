//! Histories: sequences of calls, each applied to the state that the calls
//! before it left. A refused call leaves the state as it was.
//!
//! Beside them stand the predicates in which the ledger's invariants are
//! stated.

use crate::model::{correct_count, AnswerView, LedgerView, QuestionView};
use vstd::prelude::*;

verus! {

/// One call of an operation that can change the ledger, with what the host
/// supplies for it: who signed the call and the value attached to it.
pub enum Call {
    CreateQuestion { signer: Seq<char>, deposit: nat, content: Seq<char> },
    CreateAnswer { signer: Seq<char>, deposit: nat, question_id: nat, content: Seq<char> },
    UpvoteAnswer { deposit: nat, question_id: nat, answer_id: nat },
    SetCorrectAnswer { signer: Seq<char>, question_id: nat, answer_id: nat },
}

impl LedgerView {
    /// The state after `call`.
    pub open spec fn apply(self, call: Call) -> LedgerView {
        match call {
            Call::CreateQuestion { signer, deposit, content } => {
                match self.create_question(signer, deposit, content) {
                    Ok(done) => done.ledger,
                    Err(_) => self,
                }
            },
            Call::CreateAnswer { signer, deposit, question_id, content } => {
                match self.create_answer(signer, deposit, question_id, content) {
                    Ok(done) => done.ledger,
                    Err(_) => self,
                }
            },
            Call::UpvoteAnswer { deposit, question_id, answer_id } => {
                match self.upvote_answer(deposit, question_id, answer_id) {
                    Ok(done) => done.ledger,
                    Err(_) => self,
                }
            },
            Call::SetCorrectAnswer { signer, question_id, answer_id } => {
                match self.set_correct_answer(signer, question_id, answer_id) {
                    Ok(done) => done.ledger,
                    Err(_) => self,
                }
            },
        }
    }

    /// The state after `calls`, made one after the other.
    pub open spec fn run(self, calls: Seq<Call>) -> LedgerView
        decreases calls.len(),
    {
        if calls.len() == 0 {
            self
        } else {
            self.run(calls.drop_last()).apply(calls.last())
        }
    }

    /// The id that `call` assigns to a new question, where it creates one.
    pub open spec fn question_created_by(self, call: Call) -> Option<nat> {
        match call {
            Call::CreateQuestion { signer, deposit, content } => {
                match self.create_question(signer, deposit, content) {
                    Ok(done) => Some(done.id),
                    Err(_) => None,
                }
            },
            _ => None,
        }
    }

    /// The id that `call` assigns to a new answer to question `question_id`,
    /// where it creates one.
    pub open spec fn answer_created_by(self, call: Call, question_id: nat) -> Option<nat> {
        match call {
            Call::CreateAnswer { signer, deposit, question_id: target, content } => {
                if target == question_id {
                    match self.create_answer(signer, deposit, target, content) {
                        Ok(done) => Some(done.id),
                        Err(_) => None,
                    }
                } else {
                    None
                }
            },
            _ => None,
        }
    }

    /// Whether the ledger holds finitely many questions.
    pub open spec fn finite(self) -> bool {
        self.questions.dom().finite()
    }

    /// Whether no account owes the ledger: every balance is at least 0.
    pub open spec fn solvent(self) -> bool {
        forall|account: Seq<char>| #[trigger]
            self.stakes.contains_key(account) ==> self.stakes[account] >= 0
    }

    /// Whether every question is consistent.
    pub open spec fn consistent(self) -> bool {
        forall|id: nat| #[trigger]
            self.questions.contains_key(id) ==> self.questions[id].consistent()
    }
}

impl AnswerView {
    /// Whether `self` can be a later state of `earlier`: id, author and
    /// content are the same, the reward is no smaller, and a correct answer
    /// is still correct.
    pub open spec fn continues(self, earlier: AnswerView) -> bool {
        &&& self.id == earlier.id
        &&& self.author == earlier.author
        &&& self.content == earlier.content
        &&& self.reward >= earlier.reward
        &&& earlier.is_correct ==> self.is_correct
    }
}

impl QuestionView {
    /// Whether no two answers share an id.
    pub open spec fn distinct_answer_ids(self) -> bool {
        forall|i: int, j: int|
            0 <= i < j < self.answers.len() ==> (#[trigger] self.answers[i]).id != (
            #[trigger] self.answers[j]).id
    }

    /// Whether the author has not been rewarded for an answer of their own.
    pub open spec fn no_self_reward(self) -> bool {
        forall|i: int|
            0 <= i < self.answers.len() && (#[trigger] self.answers[i]).is_correct
                ==> self.answers[i].author != self.author
    }

    /// Whether at most one answer is correct, no two answers share an id,
    /// and no correct answer is the author's own.
    pub open spec fn consistent(self) -> bool {
        &&& correct_count(self.answers) <= 1
        &&& self.distinct_answer_ids()
        &&& self.no_self_reward()
    }

    /// Whether `self` can be a later state of `earlier`: content, reward and
    /// author are the same, and each answer of `earlier` is still in its
    /// place and continues what it was.
    pub open spec fn continues(self, earlier: QuestionView) -> bool {
        &&& self.content == earlier.content
        &&& self.reward == earlier.reward
        &&& self.author == earlier.author
        &&& self.answers.len() >= earlier.answers.len()
        &&& forall|i: int|
            0 <= i < earlier.answers.len() ==> (#[trigger] self.answers[i]).continues(
                earlier.answers[i],
            )
    }
}

} // verus!
