//! The ledger as mathematics: what each operation does to an unbounded
//! ledger of sequences, maps and natural numbers.
//!
//! The executable types refine this model. Identifiers and amounts have no
//! upper limit here; the executable operations ask, as a precondition, that
//! what the model yields fits the machine's integers.

use crate::error::LedgerError;
use vstd::prelude::*;

verus! {

/// The least value that must be attached to a new question. What is
/// attached becomes the question's reward.
pub const MIN_QUESTION_REWARD: u128 = 10;

/// The least value that must be attached to a new answer.
pub const ANSWER_PRICE: u128 = 1;

/// The pooled balance of `account`: an account without an entry holds nothing.
pub open spec fn balance(stakes: Map<Seq<char>, int>, account: Seq<char>) -> int {
    if stakes.contains_key(account) {
        stakes[account]
    } else {
        0
    }
}

/// The stakes after `amount` was added to the balance of `account`.
pub open spec fn credited(stakes: Map<Seq<char>, int>, account: Seq<char>, amount: nat) -> Map<
    Seq<char>,
    int,
> {
    stakes.insert(account, balance(stakes, account) + amount)
}

/// Whether `account` has an entry whose balance is at least `amount`.
pub open spec fn covers(stakes: Map<Seq<char>, int>, account: Seq<char>, amount: nat) -> bool {
    stakes.contains_key(account) && stakes[account] >= amount
}

/// The stakes after `amount` was taken from the balance of `account`.
pub open spec fn debited(stakes: Map<Seq<char>, int>, account: Seq<char>, amount: nat) -> Map<
    Seq<char>,
    int,
> {
    stakes.insert(account, stakes[account] - amount)
}

/// An answer to a question.
pub struct AnswerView {
    pub id: nat,
    pub content: Seq<char>,
    pub author: Seq<char>,
    pub reward: nat,
    pub is_correct: bool,
}

/// A question with the answers it has received, oldest first.
pub struct QuestionView {
    pub content: Seq<char>,
    pub reward: nat,
    pub author: Seq<char>,
    pub answers: Seq<AnswerView>,
}

/// A movement of value that the host has to carry out.
pub struct TransferView {
    pub receiver: Seq<char>,
    pub amount: nat,
}

/// The whole state: the stake of each account and the questions by id.
pub struct LedgerView {
    pub stakes: Map<Seq<char>, int>,
    pub questions: Map<nat, QuestionView>,
}

/// What creating a question or an answer yields: the next state and the id
/// that was assigned.
pub struct Created {
    pub ledger: LedgerView,
    pub id: nat,
}

/// What rewarding an answer yields: the next state, the answer as it then
/// stands, and the transfer owed to its author.
pub struct Rewarded {
    pub ledger: LedgerView,
    pub answer: AnswerView,
    pub transfer: TransferView,
}

/// The greatest id among `answers`, or 0 where there is none.
pub open spec fn highest_answer_id(answers: Seq<AnswerView>) -> nat
    decreases answers.len(),
{
    if answers.len() == 0 {
        0
    } else {
        let before = highest_answer_id(answers.drop_last());
        if answers.last().id > before {
            answers.last().id
        } else {
            before
        }
    }
}

/// How many of `answers` are marked correct.
pub open spec fn correct_count(answers: Seq<AnswerView>) -> nat
    decreases answers.len(),
{
    if answers.len() == 0 {
        0
    } else {
        correct_count(answers.drop_last()) + if answers.last().is_correct {
            1nat
        } else {
            0nat
        }
    }
}

impl AnswerView {
    /// A fresh answer: no reward yet, not marked correct.
    pub open spec fn fresh(id: nat, author: Seq<char>, content: Seq<char>) -> AnswerView {
        AnswerView { id, content, author, reward: 0, is_correct: false }
    }

    /// This answer with `amount` added to its reward.
    pub open spec fn upvoted(self, amount: nat) -> AnswerView {
        AnswerView { reward: self.reward + amount, ..self }
    }

    /// This answer marked correct, with the question's reward added to its own.
    pub open spec fn awarded(self, amount: nat) -> AnswerView {
        AnswerView { reward: self.reward + amount, is_correct: true, ..self }
    }
}

impl QuestionView {
    /// Whether `i` is the position of the first answer with id `id`.
    pub open spec fn is_position_of(self, i: int, id: nat) -> bool {
        &&& 0 <= i < self.answers.len()
        &&& self.answers[i].id == id
        &&& forall|j: int| 0 <= j < i ==> (#[trigger] self.answers[j]).id != id
    }

    /// Whether some answer has id `id`.
    pub open spec fn has_answer(self, id: nat) -> bool {
        exists|i: int| 0 <= i < self.answers.len() && (#[trigger] self.answers[i]).id == id
    }

    /// The position of the first answer with id `id`, where there is one.
    pub open spec fn position_of(self, id: nat) -> int {
        choose|i: int| self.is_position_of(i, id)
    }

    /// Whether an answer has been marked correct.
    pub open spec fn is_resolved(self) -> bool {
        exists|i: int| 0 <= i < self.answers.len() && (#[trigger] self.answers[i]).is_correct
    }

    /// The id that the next answer to this question gets.
    pub open spec fn next_answer_id(self) -> nat {
        highest_answer_id(self.answers) + 1
    }

    /// This question with `answer` appended.
    pub open spec fn with_answer(self, answer: AnswerView) -> QuestionView {
        QuestionView { answers: self.answers.push(answer), ..self }
    }

    /// This question with the answer at position `i` replaced.
    pub open spec fn with_answer_at(self, i: int, answer: AnswerView) -> QuestionView {
        QuestionView { answers: self.answers.update(i, answer), ..self }
    }
}

impl LedgerView {
    /// The ledger without stakes and questions.
    pub open spec fn empty() -> LedgerView {
        LedgerView { stakes: Map::empty(), questions: Map::empty() }
    }

    /// Whether `id` is in use and no question has a greater id.
    pub open spec fn is_highest_question_id(self, id: nat) -> bool {
        &&& self.questions.contains_key(id)
        &&& forall|other: nat| self.questions.contains_key(other) ==> other <= id
    }

    /// The greatest question id in use, or 0 where there is none.
    pub open spec fn highest_question_id(self) -> nat {
        if exists|id: nat| self.is_highest_question_id(id) {
            choose|id: nat| self.is_highest_question_id(id)
        } else {
            0
        }
    }

    /// The id that the next question gets.
    pub open spec fn next_question_id(self) -> nat {
        self.highest_question_id() + 1
    }

    /// `signer` posts a question and stakes `deposit` as its reward.
    ///
    /// Refused with `DepositTooLow` below the minimal reward. Otherwise the
    /// question gets the next id and starts without answers, and the deposit
    /// is added to the signer's pooled stake.
    pub open spec fn create_question(
        self,
        signer: Seq<char>,
        deposit: nat,
        content: Seq<char>,
    ) -> Result<Created, LedgerError> {
        if deposit < MIN_QUESTION_REWARD {
            Err(LedgerError::DepositTooLow)
        } else {
            let id = self.next_question_id();
            let question = QuestionView {
                content,
                reward: deposit,
                author: signer,
                answers: Seq::empty(),
            };
            Ok(
                Created {
                    ledger: LedgerView {
                        stakes: credited(self.stakes, signer, deposit),
                        questions: self.questions.insert(id, question),
                    },
                    id,
                },
            )
        }
    }

    /// `signer` answers question `question_id` and pays `deposit` as the fee.
    ///
    /// Refused with `QuestionNotFound` where the question is missing, else
    /// with `DepositTooLow` below the price of an answer. Otherwise a fresh
    /// answer with the question's next answer id is appended. The fee is
    /// credited to nobody.
    pub open spec fn create_answer(
        self,
        signer: Seq<char>,
        deposit: nat,
        question_id: nat,
        content: Seq<char>,
    ) -> Result<Created, LedgerError> {
        if !self.questions.contains_key(question_id) {
            Err(LedgerError::QuestionNotFound)
        } else if deposit < ANSWER_PRICE {
            Err(LedgerError::DepositTooLow)
        } else {
            let question = self.questions[question_id];
            let id = question.next_answer_id();
            let answer = AnswerView::fresh(id, signer, content);
            Ok(
                Created {
                    ledger: LedgerView {
                        questions: self.questions.insert(question_id, question.with_answer(answer)),
                        ..self
                    },
                    id,
                },
            )
        }
    }

    /// Someone adds `deposit` to the reward of answer `answer_id` of question
    /// `question_id`.
    ///
    /// Refused with `DepositTooLow` for an empty deposit, else with
    /// `QuestionNotFound`, else with `AnswerNotFound`. Otherwise the answer's
    /// reward grows by the deposit, and the deposit is owed to the answer's
    /// author.
    pub open spec fn upvote_answer(self, deposit: nat, question_id: nat, answer_id: nat) -> Result<
        Rewarded,
        LedgerError,
    > {
        if deposit == 0 {
            Err(LedgerError::DepositTooLow)
        } else if !self.questions.contains_key(question_id) {
            Err(LedgerError::QuestionNotFound)
        } else if !self.questions[question_id].has_answer(answer_id) {
            Err(LedgerError::AnswerNotFound)
        } else {
            let question = self.questions[question_id];
            let i = question.position_of(answer_id);
            let answer = question.answers[i].upvoted(deposit);
            Ok(
                Rewarded {
                    ledger: LedgerView {
                        questions: self.questions.insert(
                            question_id,
                            question.with_answer_at(i, answer),
                        ),
                        ..self
                    },
                    answer,
                    transfer: TransferView { receiver: answer.author, amount: deposit },
                },
            )
        }
    }

    /// `signer` settles question `question_id` in favour of answer
    /// `answer_id`.
    ///
    /// Refused, in this order, with `QuestionNotFound`; with `NotAuthor`
    /// unless the signer wrote the question; with `AlreadyResolved` where an
    /// answer is marked correct already; with `AnswerNotFound`; with
    /// `SelfReward` where the signer wrote the answer too; with
    /// `InsufficientStake` unless the signer's pooled stake covers the
    /// question's reward. Otherwise the reward is taken from the signer's
    /// stake, added to the answer's reward and owed to the answer's author,
    /// and the answer is marked correct.
    pub open spec fn set_correct_answer(
        self,
        signer: Seq<char>,
        question_id: nat,
        answer_id: nat,
    ) -> Result<Rewarded, LedgerError> {
        if !self.questions.contains_key(question_id) {
            Err(LedgerError::QuestionNotFound)
        } else if self.questions[question_id].author != signer {
            Err(LedgerError::NotAuthor)
        } else if self.questions[question_id].is_resolved() {
            Err(LedgerError::AlreadyResolved)
        } else if !self.questions[question_id].has_answer(answer_id) {
            Err(LedgerError::AnswerNotFound)
        } else {
            let question = self.questions[question_id];
            let i = question.position_of(answer_id);
            if question.answers[i].author == signer {
                Err(LedgerError::SelfReward)
            } else if !covers(self.stakes, signer, question.reward) {
                Err(LedgerError::InsufficientStake)
            } else {
                let answer = question.answers[i].awarded(question.reward);
                Ok(
                    Rewarded {
                        ledger: LedgerView {
                            stakes: debited(self.stakes, signer, question.reward),
                            questions: self.questions.insert(
                                question_id,
                                question.with_answer_at(i, answer),
                            ),
                        },
                        answer,
                        transfer: TransferView {
                            receiver: answer.author,
                            amount: question.reward,
                        },
                    },
                )
            }
        }
    }
}

} // verus!
