//! The ledger itself: questions, their answers, and the four operations
//! that change them.

use crate::error::LedgerError;
use crate::history::Call;
use crate::model::{
    balance, covers, debited, highest_answer_id, AnswerView, LedgerView, QuestionView,
    TransferView, ANSWER_PRICE, MIN_QUESTION_REWARD,
};
use crate::stakes::{add_stake, Stakes};
use std::collections::HashMap;
use vstd::prelude::*;

verus! {

/// An answer to a question.
#[derive(Debug)]
pub struct Answer {
    pub id: u32,
    pub content: String,
    pub account_id: String,
    pub reward: u128,
    pub is_correct: bool,
}

/// A question with the answers it has received, oldest first.
#[derive(Debug)]
pub struct Question {
    pub content: String,
    pub reward: u128,
    pub author_account_id: String,
    pub answers: Vec<Answer>,
}

/// A movement of value that the host has to carry out on the ledger's
/// behalf.
#[derive(Debug)]
pub struct Transfer {
    pub receiver_id: String,
    pub amount: u128,
}

/// The root of all state: the stake of each account and the questions by
/// id.
#[derive(Debug)]
pub struct Ledger {
    pub stakes: Stakes,
    pub questions: HashMap<u32, Question>,
}

impl View for Answer {
    type V = AnswerView;

    open spec fn view(&self) -> AnswerView {
        AnswerView {
            id: self.id as nat,
            content: self.content@,
            author: self.account_id@,
            reward: self.reward as nat,
            is_correct: self.is_correct,
        }
    }
}

/// The answers of a question as the model sees them.
pub open spec fn answers_view(answers: Seq<Answer>) -> Seq<AnswerView> {
    Seq::new(answers.len(), |i: int| answers[i]@)
}

impl View for Question {
    type V = QuestionView;

    open spec fn view(&self) -> QuestionView {
        QuestionView {
            content: self.content@,
            reward: self.reward as nat,
            author: self.author_account_id@,
            answers: answers_view(self.answers@),
        }
    }
}

impl View for Transfer {
    type V = TransferView;

    open spec fn view(&self) -> TransferView {
        TransferView { receiver: self.receiver_id@, amount: self.amount as nat }
    }
}

/// The questions of a ledger as the model sees them.
pub open spec fn questions_view(questions: Map<u32, Question>) -> Map<nat, QuestionView> {
    Map::new(
        |id: nat| id <= u32::MAX && questions.contains_key(id as u32),
        |id: nat| questions[id as u32]@,
    )
}

impl View for Ledger {
    type V = LedgerView;

    open spec fn view(&self) -> LedgerView {
        LedgerView { stakes: self.stakes@, questions: questions_view(self.questions@) }
    }
}

/// Putting a question under an id shows in the model as putting its view
/// under that id.
pub proof fn lemma_question_put(questions: Map<u32, Question>, id: u32, question: Question)
    ensures
        questions_view(questions.insert(id, question)) == questions_view(questions).insert(
            id as nat,
            question@,
        ),
        questions_view(questions.remove(id).insert(id, question)) == questions_view(
            questions,
        ).insert(id as nat, question@),
{
    assert(questions_view(questions.insert(id, question)) =~= questions_view(questions).insert(
        id as nat,
        question@,
    ));
    assert(questions_view(questions.remove(id).insert(id, question)) =~= questions_view(
        questions,
    ).insert(id as nat, question@));
}

/// Takes `reward` from the stake of `stake_holder_id` for the author of
/// `answer`.
///
/// Refused with `InsufficientStake`, and nothing changes, where the stake
/// holder has no entry or holds less than `reward`. Otherwise the result is
/// the transfer of `reward` that is owed to the answer's author.
pub fn award_answer_author(
    stakes: &mut Stakes,
    stake_holder_id: &String,
    answer: &Answer,
    reward: u128,
) -> (awarded: Result<Transfer, LedgerError>)
    ensures
        match awarded {
            Ok(transfer) => {
                &&& covers(old(stakes)@, stake_holder_id@, reward as nat)
                &&& final(stakes)@ == debited(old(stakes)@, stake_holder_id@, reward as nat)
                &&& transfer@ == (TransferView {
                    receiver: answer@.author,
                    amount: reward as nat,
                })
            },
            Err(reason) => {
                &&& !covers(old(stakes)@, stake_holder_id@, reward as nat)
                &&& reason == LedgerError::InsufficientStake
                &&& final(stakes)@ == old(stakes)@
            },
        },
{
    match stakes.debit(stake_holder_id, reward) {
        Ok(()) => Ok(Transfer { receiver_id: answer.account_id.clone(), amount: reward }),
        Err(reason) => Err(reason),
    }
}

impl Question {
    /// The greatest id among the answers, or 0 where there is none.
    pub fn last_answer_id(&self) -> (id: u32)
        ensures
            id == highest_answer_id(self@.answers),
    {
        let mut best: u32 = 0;
        let mut i: usize = 0;
        while i < self.answers.len()
            invariant
                i <= self.answers@.len(),
                best == highest_answer_id(self@.answers.take(i as int)),
            decreases self.answers@.len() - i,
        {
            proof {
                let upto = self@.answers.take(i + 1);
                assert(upto.drop_last() =~= self@.answers.take(i as int));
                assert(upto.last() == self.answers@[i as int]@);
            }
            if self.answers[i].id > best {
                best = self.answers[i].id;
            }
            i += 1;
        }
        proof {
            assert(self@.answers.take(i as int) =~= self@.answers);
        }
        best
    }

    /// The position of the first answer with id `answer_id`, or `None`
    /// where no answer has it.
    pub fn position_of(&self, answer_id: u32) -> (found: Option<usize>)
        ensures
            match found {
                Some(i) => self@.is_position_of(i as int, answer_id as nat),
                None => !self@.has_answer(answer_id as nat),
            },
    {
        let mut i: usize = 0;
        while i < self.answers.len()
            invariant
                i <= self.answers@.len(),
                forall|j: int| 0 <= j < i ==> (#[trigger] self@.answers[j]).id != answer_id,
            decreases self.answers@.len() - i,
        {
            if self.answers[i].id == answer_id {
                return Some(i);
            }
            i += 1;
        }
        None
    }

    /// Whether an answer has been marked correct.
    pub fn is_resolved(&self) -> (resolved: bool)
        ensures
            resolved == self@.is_resolved(),
    {
        let mut i: usize = 0;
        while i < self.answers.len()
            invariant
                i <= self.answers@.len(),
                forall|j: int| 0 <= j < i ==> !(#[trigger] self@.answers[j]).is_correct,
            decreases self.answers@.len() - i,
        {
            if self.answers[i].is_correct {
                assert(self@.answers[i as int].is_correct);
                return true;
            }
            i += 1;
        }
        false
    }
}

impl Default for Ledger {
    fn default() -> (ledger: Ledger)
        ensures
            ledger@ == LedgerView::empty(),
    {
        Ledger::new()
    }
}

impl Ledger {
    /// The view of a ledger holds finitely many questions and no negative
    /// balance.
    pub proof fn lemma_view_sound(&self)
        ensures
            self@.finite(),
            self@.solvent(),
    {
        self.stakes.lemma_nonnegative();
        let ids = self.questions@.dom();
        let widen = |id: u32| id as nat;
        ids.lemma_map_finite(widen);
        assert(self@.questions.dom() =~= ids.map(widen)) by {
            assert forall|id: nat| self@.questions.dom().contains(id) implies ids.map(
                widen,
            ).contains(id) by {
                assert(ids.contains(id as u32) && widen(id as u32) == id);
            }
        }
    }

    /// A ledger without stakes and questions.
    pub fn new() -> (ledger: Ledger)
        ensures
            ledger@ == LedgerView::empty(),
    {
        let ledger = Ledger { stakes: Stakes::new(), questions: HashMap::new() };
        assert(ledger@.questions =~= Map::<nat, QuestionView>::empty());
        ledger
    }

    /// The greatest question id in use, or 0 where there is none.
    pub fn last_question_id(&self) -> (id: u32)
        ensures
            id == self@.highest_question_id(),
    {
        let mut best: u32 = 0;
        for key in it: self.questions.keys()
            invariant
                best == 0 || self.questions@.contains_key(best),
                forall|j: int| 0 <= j < it.index() ==> *(#[trigger] it.seq()[j]) <= best,
        {
            if *key > best {
                best = *key;
            }
        }
        proof {
            assert forall|other: nat| self@.questions.contains_key(other) implies other
                <= best by {
                assert(self.questions@.dom().contains(other as u32));
            }
            if self@.questions.contains_key(best as nat) {
                assert(self@.is_highest_question_id(best as nat));
            }
        }
        best
    }

    /// `signer_id` posts a question with `attached_deposit` as its reward.
    ///
    /// Refused with `DepositTooLow`, and nothing changes, where the deposit
    /// is below `MIN_QUESTION_REWARD`. Otherwise the question is stored
    /// under the id after the greatest in use, the deposit is added to the
    /// signer's stake, and the id is returned.
    pub fn create_question(
        &mut self,
        signer_id: String,
        attached_deposit: u128,
        content: String,
    ) -> (created: Result<u32, LedgerError>)
        requires
            old(self)@.create_question(signer_id@, attached_deposit as nat, content@) matches Ok(
                done,
            ) ==> done.id <= u32::MAX && balance(done.ledger.stakes, signer_id@) <= u128::MAX,
        ensures
            match old(self)@.create_question(signer_id@, attached_deposit as nat, content@) {
                Ok(done) => created == Ok::<u32, LedgerError>(done.id as u32) && final(self)@
                    == done.ledger,
                Err(reason) => created == Err::<u32, LedgerError>(reason) && final(self)@ == old(
                    self,
                )@,
            },
            final(self)@ == old(self)@.apply(
                Call::CreateQuestion {
                    signer: signer_id@,
                    deposit: attached_deposit as nat,
                    content: content@,
                },
            ),
    {
        if attached_deposit < MIN_QUESTION_REWARD {
            return Err(LedgerError::DepositTooLow);
        }
        let id = self.last_question_id() + 1;
        let question = Question {
            content,
            reward: attached_deposit,
            author_account_id: signer_id.clone(),
            answers: Vec::new(),
        };
        proof {
            assert(question@.answers =~= Seq::<AnswerView>::empty());
            lemma_question_put(self.questions@, id, question);
        }
        self.questions.insert(id, question);
        add_stake(&mut self.stakes, signer_id, attached_deposit);
        Ok(id)
    }

    /// `signer_id` answers question `question_id` and pays
    /// `attached_deposit` for it.
    ///
    /// Refused, and nothing changes, with `QuestionNotFound` where the
    /// question is missing, else with `DepositTooLow` where the deposit is
    /// below `ANSWER_PRICE`. Otherwise a fresh answer is appended under the
    /// id after the greatest among the question's answers, and the id is
    /// returned. The deposit is a fee: no stake changes.
    pub fn create_answer(
        &mut self,
        signer_id: String,
        attached_deposit: u128,
        question_id: u32,
        content: String,
    ) -> (created: Result<u32, LedgerError>)
        requires
            old(self)@.create_answer(
                signer_id@,
                attached_deposit as nat,
                question_id as nat,
                content@,
            ) matches Ok(done) ==> done.id <= u32::MAX,
        ensures
            match old(self)@.create_answer(
                signer_id@,
                attached_deposit as nat,
                question_id as nat,
                content@,
            ) {
                Ok(done) => created == Ok::<u32, LedgerError>(done.id as u32) && final(self)@
                    == done.ledger,
                Err(reason) => created == Err::<u32, LedgerError>(reason) && final(self)@ == old(
                    self,
                )@,
            },
            final(self)@ == old(self)@.apply(
                Call::CreateAnswer {
                    signer: signer_id@,
                    deposit: attached_deposit as nat,
                    question_id: question_id as nat,
                    content: content@,
                },
            ),
    {
        let last_answer_id = match self.questions.get(&question_id) {
            Some(question) => question.last_answer_id(),
            None => {
                return Err(LedgerError::QuestionNotFound);
            },
        };
        if attached_deposit < ANSWER_PRICE {
            return Err(LedgerError::DepositTooLow);
        }
        let id = last_answer_id + 1;
        let answer = Answer { id, content, account_id: signer_id, reward: 0, is_correct: false };
        let ghost before = self.questions@;
        let mut question = self.questions.remove(&question_id).unwrap();
        let ghost was = question@;
        question.answers.push(answer);
        proof {
            assert(question@.answers =~= was.answers.push(answer@));
            lemma_question_put(before, question_id, question);
        }
        self.questions.insert(question_id, question);
        Ok(id)
    }

    /// Adds `attached_deposit` to the reward of answer `answer_id` of
    /// question `question_id`.
    ///
    /// Refused, and nothing changes, with `DepositTooLow` where the deposit
    /// is empty, else with `QuestionNotFound`, else with `AnswerNotFound`.
    /// Otherwise the result is the answer as it stands after the upvote and
    /// the transfer of the deposit that is owed to the answer's author.
    pub fn upvote_answer(
        &mut self,
        attached_deposit: u128,
        question_id: u32,
        answer_id: u32,
    ) -> (upvoted: Result<(&Answer, Transfer), LedgerError>)
        requires
            old(self)@.upvote_answer(
                attached_deposit as nat,
                question_id as nat,
                answer_id as nat,
            ) matches Ok(done) ==> done.answer.reward <= u128::MAX,
        ensures
            match old(self)@.upvote_answer(
                attached_deposit as nat,
                question_id as nat,
                answer_id as nat,
            ) {
                Ok(done) => {
                    &&& upvoted matches Ok((answer, transfer))
                    &&& answer@ == done.answer
                    &&& transfer@ == done.transfer
                    &&& final(self)@ == done.ledger
                },
                Err(reason) => {
                    &&& upvoted matches Err(refusal)
                    &&& refusal == reason
                    &&& final(self)@ == old(self)@
                },
            },
            final(self)@ == old(self)@.apply(
                Call::UpvoteAnswer {
                    deposit: attached_deposit as nat,
                    question_id: question_id as nat,
                    answer_id: answer_id as nat,
                },
            ),
    {
        if attached_deposit == 0 {
            return Err(LedgerError::DepositTooLow);
        }
        let found = match self.questions.get(&question_id) {
            Some(question) => question.position_of(answer_id),
            None => {
                return Err(LedgerError::QuestionNotFound);
            },
        };
        let i = match found {
            Some(i) => i,
            None => {
                return Err(LedgerError::AnswerNotFound);
            },
        };
        let ghost before = self.questions@;
        let ghost was = before[question_id]@;
        proof {
            assert(was.position_of(answer_id as nat) == i);
        }
        let mut question = self.questions.remove(&question_id).unwrap();
        let reward = question.answers[i].reward;
        question.answers[i].reward = reward + attached_deposit;
        let transfer = Transfer {
            receiver_id: question.answers[i].account_id.clone(),
            amount: attached_deposit,
        };
        proof {
            assert(question@.answers =~= was.answers.update(
                i as int,
                was.answers[i as int].upvoted(attached_deposit as nat),
            ));
            lemma_question_put(before, question_id, question);
        }
        self.questions.insert(question_id, question);
        Ok((&self.questions.get(&question_id).unwrap().answers[i], transfer))
    }

    /// `signer_id` settles question `question_id` in favour of answer
    /// `answer_id`.
    ///
    /// Refused, and nothing changes, with the first of these that applies:
    /// `QuestionNotFound`; `NotAuthor` unless the signer wrote the question;
    /// `AlreadyResolved` where an answer is marked correct already;
    /// `AnswerNotFound`; `SelfReward` where the signer wrote the answer too;
    /// `InsufficientStake` unless the signer's pooled stake covers the
    /// question's reward. Otherwise the reward is taken from the signer's
    /// stake and added to the answer's reward, the answer is marked correct,
    /// and the result is the answer as it then stands and the transfer of
    /// the reward that is owed to the answer's author.
    pub fn set_correct_answer(
        &mut self,
        signer_id: &String,
        question_id: u32,
        answer_id: u32,
    ) -> (settled: Result<(&Answer, Transfer), LedgerError>)
        requires
            old(self)@.set_correct_answer(
                signer_id@,
                question_id as nat,
                answer_id as nat,
            ) matches Ok(done) ==> done.answer.reward <= u128::MAX,
        ensures
            match old(self)@.set_correct_answer(
                signer_id@,
                question_id as nat,
                answer_id as nat,
            ) {
                Ok(done) => {
                    &&& settled matches Ok((answer, transfer))
                    &&& answer@ == done.answer
                    &&& transfer@ == done.transfer
                    &&& final(self)@ == done.ledger
                },
                Err(reason) => {
                    &&& settled matches Err(refusal)
                    &&& refusal == reason
                    &&& final(self)@ == old(self)@
                },
            },
            final(self)@ == old(self)@.apply(
                Call::SetCorrectAnswer {
                    signer: signer_id@,
                    question_id: question_id as nat,
                    answer_id: answer_id as nat,
                },
            ),
    {
        let question = match self.questions.get(&question_id) {
            Some(question) => question,
            None => {
                return Err(LedgerError::QuestionNotFound);
            },
        };
        if !(question.author_account_id == *signer_id) {
            return Err(LedgerError::NotAuthor);
        }
        if question.is_resolved() {
            return Err(LedgerError::AlreadyResolved);
        }
        let i = match question.position_of(answer_id) {
            Some(i) => i,
            None => {
                return Err(LedgerError::AnswerNotFound);
            },
        };
        let ghost before = self.questions@;
        let ghost was = question@;
        proof {
            assert(was.position_of(answer_id as nat) == i);
        }
        if question.answers[i].account_id == *signer_id {
            return Err(LedgerError::SelfReward);
        }
        let question_reward = question.reward;
        let transfer = match award_answer_author(
            &mut self.stakes,
            signer_id,
            &question.answers[i],
            question_reward,
        ) {
            Ok(transfer) => transfer,
            Err(reason) => {
                return Err(reason);
            },
        };
        let mut question = self.questions.remove(&question_id).unwrap();
        let reward = question.answers[i].reward;
        question.answers[i].is_correct = true;
        question.answers[i].reward = reward + question_reward;
        proof {
            assert(question@.answers =~= was.answers.update(
                i as int,
                was.answers[i as int].awarded(question_reward as nat),
            ));
            lemma_question_put(before, question_id, question);
        }
        self.questions.insert(question_id, question);
        Ok((&self.questions.get(&question_id).unwrap().answers[i], transfer))
    }

    /// The first answer with id `answer_id` to question `question_id`, or
    /// `None` where the question or the answer is missing.
    pub fn find_answer(&self, question_id: u32, answer_id: u32) -> (found: Option<&Answer>)
        ensures
            match found {
                Some(answer) => {
                    let question = self@.questions[question_id as nat];
                    &&& self@.questions.contains_key(question_id as nat)
                    &&& question.has_answer(answer_id as nat)
                    &&& answer@ == question.answers[question.position_of(answer_id as nat)]
                },
                None => !self@.questions.contains_key(question_id as nat)
                    || !self@.questions[question_id as nat].has_answer(answer_id as nat),
            },
    {
        match self.questions.get(&question_id) {
            Some(question) => match question.position_of(answer_id) {
                Some(i) => {
                    assert(question@.position_of(answer_id as nat) == i);
                    Some(&question.answers[i])
                },
                None => None,
            },
            None => None,
        }
    }

    /// All questions, with their answers, by id.
    pub fn list_questions(&self) -> (questions: &HashMap<u32, Question>)
        ensures
            questions_view(questions@) == self@.questions,
            *questions == self.questions,
    {
        &self.questions
    }
}

} // verus!
