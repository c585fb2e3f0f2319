use qa_ledger::{LedgerError, Ledger, Question, Answer, Stakes, add_stake};
use std::collections::HashMap;

fn account(name: &str) -> String {
    name.to_string()
}

/// A asks "Q" for 10.
fn asked() -> Ledger {
    let mut ledger = Ledger::new();
    assert_eq!(
        ledger.create_question(account("A"), 10, "Q".to_string()),
        Ok(1)
    );
    ledger
}

/// A asks "Q" for 10, B answers "A1" for 1.
fn answered() -> Ledger {
    let mut ledger = asked();
    assert_eq!(
        ledger.create_answer(account("B"), 1, 1, "A1".to_string()),
        Ok(1)
    );
    ledger
}

fn correct_answers(ledger: &Ledger, question_id: u32) -> usize {
    ledger.list_questions()[&question_id]
        .answers
        .iter()
        .filter(|answer| answer.is_correct)
        .count()
}

#[test]
fn question_below_minimum_is_refused() {
    let mut ledger = Ledger::new();
    let refused = ledger.create_question(account("A"), 9, "Q".to_string());
    assert_eq!(refused, Err(LedgerError::DepositTooLow));
    assert!(ledger.list_questions().is_empty());
    assert_eq!(ledger.stakes.get(&account("A")), None);
    assert!(ledger.stakes.entries().is_empty());
}

#[test]
fn question_at_minimum_is_stored_and_staked() {
    let ledger = asked();
    let questions = ledger.list_questions();
    assert_eq!(questions.len(), 1);
    let question = &questions[&1];
    assert_eq!(question.content, "Q");
    assert_eq!(question.reward, 10);
    assert_eq!(question.author_account_id, "A");
    assert!(question.answers.is_empty());
    assert_eq!(ledger.stakes.get(&account("A")), Some(10));
}

#[test]
fn answer_is_appended_fresh() {
    let ledger = answered();
    let answers = &ledger.list_questions()[&1].answers;
    assert_eq!(answers.len(), 1);
    assert_eq!(answers[0].id, 1);
    assert_eq!(answers[0].content, "A1");
    assert_eq!(answers[0].account_id, "B");
    assert_eq!(answers[0].reward, 0);
    assert!(!answers[0].is_correct);
}

#[test]
fn answer_fee_is_credited_to_nobody() {
    let ledger = answered();
    assert_eq!(ledger.stakes.get(&account("B")), None);
    assert_eq!(ledger.stakes.get(&account("A")), Some(10));
    assert_eq!(ledger.stakes.entries().len(), 1);
}

#[test]
fn upvote_raises_reward_and_pays_the_answerer() {
    let mut ledger = answered();
    let (answer, transfer) = ledger.upvote_answer(5, 1, 1).unwrap();
    assert_eq!(answer.id, 1);
    assert_eq!(answer.reward, 5);
    assert!(!answer.is_correct);
    assert_eq!(transfer.receiver_id, "B");
    assert_eq!(transfer.amount, 5);
    assert_eq!(ledger.list_questions()[&1].answers[0].reward, 5);
    assert_eq!(ledger.stakes.get(&account("A")), Some(10));
    assert_eq!(ledger.stakes.get(&account("B")), None);
}

#[test]
fn upvotes_add_up() {
    let mut ledger = answered();
    ledger.upvote_answer(5, 1, 1).unwrap();
    let (answer, transfer) = ledger.upvote_answer(7, 1, 1).unwrap();
    assert_eq!(answer.reward, 12);
    assert_eq!(transfer.amount, 7);
}

#[test]
fn settling_pays_the_reward_from_the_authors_stake() {
    let mut ledger = answered();
    ledger.upvote_answer(5, 1, 1).unwrap();
    let (answer, transfer) = ledger.set_correct_answer(&account("A"), 1, 1).unwrap();
    assert_eq!(answer.reward, 15);
    assert!(answer.is_correct);
    assert_eq!(transfer.receiver_id, "B");
    assert_eq!(transfer.amount, 10);
    assert_eq!(ledger.stakes.get(&account("A")), Some(0));
    let question = &ledger.list_questions()[&1];
    assert_eq!(question.reward, 10);
    assert_eq!(question.answers[0].reward, 15);
    assert!(question.answers[0].is_correct);
}

#[test]
fn settling_twice_is_refused_and_changes_nothing() {
    let mut ledger = answered();
    ledger.upvote_answer(5, 1, 1).unwrap();
    ledger.set_correct_answer(&account("A"), 1, 1).unwrap();
    let again = ledger.set_correct_answer(&account("A"), 1, 1);
    assert_eq!(again.unwrap_err(), LedgerError::AlreadyResolved);
    assert_eq!(ledger.stakes.get(&account("A")), Some(0));
    let question = &ledger.list_questions()[&1];
    assert_eq!(question.answers.len(), 1);
    assert_eq!(question.answers[0].reward, 15);
    assert!(question.answers[0].is_correct);
    assert_eq!(correct_answers(&ledger, 1), 1);
}

#[test]
fn only_the_author_settles() {
    let mut ledger = answered();
    let refused = ledger.set_correct_answer(&account("C"), 1, 1);
    assert_eq!(refused.unwrap_err(), LedgerError::NotAuthor);
    let refused = ledger.set_correct_answer(&account("B"), 1, 1);
    assert_eq!(refused.unwrap_err(), LedgerError::NotAuthor);
    assert_eq!(ledger.stakes.get(&account("A")), Some(10));
    assert!(!ledger.list_questions()[&1].answers[0].is_correct);
}

#[test]
fn author_cannot_reward_own_answer() {
    let mut ledger = asked();
    assert_eq!(
        ledger.create_answer(account("A"), 1, 1, "mine".to_string()),
        Ok(1)
    );
    let refused = ledger.set_correct_answer(&account("A"), 1, 1);
    assert_eq!(refused.unwrap_err(), LedgerError::SelfReward);
    assert_eq!(ledger.stakes.get(&account("A")), Some(10));
    let answer = &ledger.list_questions()[&1].answers[0];
    assert!(!answer.is_correct);
    assert_eq!(answer.reward, 0);
}

/// One stake of 10 behind two questions that promise 10 each.
fn overpromised() -> Ledger {
    let mut stakes = Stakes::new();
    add_stake(&mut stakes, account("A"), 10);
    let mut questions: HashMap<u32, Question> = HashMap::new();
    for id in [1u32, 2u32] {
        questions.insert(
            id,
            Question {
                content: "Q".to_string(),
                reward: 10,
                author_account_id: account("A"),
                answers: vec![Answer {
                    id: 1,
                    content: "A1".to_string(),
                    account_id: account("B"),
                    reward: 0,
                    is_correct: false,
                }],
            },
        );
    }
    Ledger { stakes, questions }
}

#[test]
fn spent_pool_does_not_cover_a_second_reward() {
    let mut ledger = overpromised();
    ledger.set_correct_answer(&account("A"), 1, 1).unwrap();
    assert_eq!(ledger.stakes.get(&account("A")), Some(0));
    let refused = ledger.set_correct_answer(&account("A"), 2, 1);
    assert_eq!(refused.unwrap_err(), LedgerError::InsufficientStake);
    let second = &ledger.list_questions()[&2];
    assert_eq!(second.reward, 10);
    assert!(!second.answers[0].is_correct);
    assert_eq!(second.answers[0].reward, 0);
    assert_eq!(ledger.stakes.get(&account("A")), Some(0));
}

#[test]
fn author_without_stake_cannot_settle() {
    let mut ledger = overpromised();
    ledger.stakes = Stakes::new();
    let refused = ledger.set_correct_answer(&account("A"), 1, 1);
    assert_eq!(refused.unwrap_err(), LedgerError::InsufficientStake);
    assert_eq!(ledger.stakes.get(&account("A")), None);
    assert!(!ledger.list_questions()[&1].answers[0].is_correct);
}

#[test]
fn pooled_stake_covers_any_of_the_authors_questions() {
    let mut ledger = Ledger::new();
    assert_eq!(ledger.create_question(account("A"), 10, "Q1".to_string()), Ok(1));
    assert_eq!(ledger.create_question(account("A"), 25, "Q2".to_string()), Ok(2));
    assert_eq!(ledger.stakes.get(&account("A")), Some(35));
    assert_eq!(ledger.create_answer(account("B"), 1, 2, "A".to_string()), Ok(1));
    let (answer, transfer) = ledger.set_correct_answer(&account("A"), 2, 1).unwrap();
    assert_eq!(answer.reward, 25);
    assert_eq!(transfer.amount, 25);
    assert_eq!(ledger.stakes.get(&account("A")), Some(10));
}

#[test]
fn question_ids_count_up_from_one() {
    let mut ledger = Ledger::new();
    assert_eq!(ledger.last_question_id(), 0);
    assert_eq!(ledger.create_question(account("A"), 10, "Q1".to_string()), Ok(1));
    assert_eq!(ledger.create_question(account("B"), 11, "Q2".to_string()), Ok(2));
    assert_eq!(ledger.create_question(account("A"), 12, "Q3".to_string()), Ok(3));
    assert_eq!(ledger.last_question_id(), 3);
    let questions = ledger.list_questions();
    assert_eq!(questions.len(), 3);
    assert_eq!(questions[&1].content, "Q1");
    assert_eq!(questions[&2].content, "Q2");
    assert_eq!(questions[&3].content, "Q3");
    assert_eq!(questions[&2].reward, 11);
    assert_eq!(ledger.stakes.get(&account("A")), Some(22));
    assert_eq!(ledger.stakes.get(&account("B")), Some(11));
}

#[test]
fn refused_question_uses_up_no_id() {
    let mut ledger = asked();
    assert_eq!(
        ledger.create_question(account("A"), 0, "Q".to_string()),
        Err(LedgerError::DepositTooLow)
    );
    assert_eq!(ledger.create_question(account("A"), 10, "Q".to_string()), Ok(2));
}

#[test]
fn question_id_follows_the_greatest_in_use() {
    let mut ledger = overpromised();
    let moved = ledger.questions.remove(&2).unwrap();
    ledger.questions.insert(7, moved);
    assert_eq!(ledger.last_question_id(), 7);
    assert_eq!(ledger.create_question(account("C"), 10, "Q".to_string()), Ok(8));
    assert_eq!(ledger.list_questions().len(), 3);
    assert_eq!(ledger.list_questions()[&1].author_account_id, "A");
    assert_eq!(ledger.list_questions()[&7].author_account_id, "A");
    assert_eq!(ledger.list_questions()[&8].author_account_id, "C");
}

#[test]
fn answer_ids_count_up_within_each_question() {
    let mut ledger = Ledger::new();
    assert_eq!(ledger.create_question(account("A"), 10, "Q1".to_string()), Ok(1));
    assert_eq!(ledger.create_question(account("A"), 10, "Q2".to_string()), Ok(2));
    assert_eq!(ledger.create_answer(account("B"), 1, 1, "x".to_string()), Ok(1));
    assert_eq!(ledger.create_answer(account("C"), 2, 1, "y".to_string()), Ok(2));
    assert_eq!(ledger.create_answer(account("B"), 1, 2, "z".to_string()), Ok(1));
    assert_eq!(ledger.create_answer(account("B"), 1, 1, "w".to_string()), Ok(3));
    assert_eq!(ledger.create_answer(account("C"), 1, 2, "v".to_string()), Ok(2));
    let first: Vec<u32> = ledger.list_questions()[&1].answers.iter().map(|a| a.id).collect();
    let second: Vec<u32> = ledger.list_questions()[&2].answers.iter().map(|a| a.id).collect();
    assert_eq!(first, vec![1, 2, 3]);
    assert_eq!(second, vec![1, 2]);
    assert_eq!(ledger.list_questions()[&1].last_answer_id(), 3);
    assert_eq!(ledger.list_questions()[&1].answers[1].account_id, "C");
}

#[test]
fn answer_id_follows_the_greatest_in_the_question() {
    let mut ledger = overpromised();
    ledger.questions.get_mut(&1).unwrap().answers[0].id = 41;
    assert_eq!(ledger.create_answer(account("C"), 1, 1, "x".to_string()), Ok(42));
    assert_eq!(ledger.create_answer(account("C"), 1, 2, "x".to_string()), Ok(2));
}

#[test]
fn answer_to_missing_question_is_refused() {
    let mut ledger = asked();
    assert_eq!(
        ledger.create_answer(account("B"), 1, 2, "A1".to_string()),
        Err(LedgerError::QuestionNotFound)
    );
    assert_eq!(
        ledger.create_answer(account("B"), 1, 0, "A1".to_string()),
        Err(LedgerError::QuestionNotFound)
    );
    assert!(ledger.list_questions()[&1].answers.is_empty());
}

#[test]
fn answer_without_fee_is_refused() {
    let mut ledger = asked();
    assert_eq!(
        ledger.create_answer(account("B"), 0, 1, "A1".to_string()),
        Err(LedgerError::DepositTooLow)
    );
    assert!(ledger.list_questions()[&1].answers.is_empty());
}

#[test]
fn missing_question_is_reported_before_a_missing_fee() {
    let mut ledger = asked();
    assert_eq!(
        ledger.create_answer(account("B"), 0, 9, "A1".to_string()),
        Err(LedgerError::QuestionNotFound)
    );
}

#[test]
fn upvote_without_deposit_is_refused() {
    let mut ledger = answered();
    assert_eq!(
        ledger.upvote_answer(0, 1, 1).unwrap_err(),
        LedgerError::DepositTooLow
    );
    assert_eq!(ledger.list_questions()[&1].answers[0].reward, 0);
}

#[test]
fn empty_deposit_is_reported_before_a_missing_question() {
    let mut ledger = answered();
    assert_eq!(
        ledger.upvote_answer(0, 9, 9).unwrap_err(),
        LedgerError::DepositTooLow
    );
}

#[test]
fn upvote_of_missing_question_or_answer_is_refused() {
    let mut ledger = answered();
    assert_eq!(
        ledger.upvote_answer(1, 2, 1).unwrap_err(),
        LedgerError::QuestionNotFound
    );
    assert_eq!(
        ledger.upvote_answer(1, 1, 2).unwrap_err(),
        LedgerError::AnswerNotFound
    );
    assert_eq!(ledger.list_questions()[&1].answers[0].reward, 0);
}

#[test]
fn smallest_upvote_is_accepted() {
    let mut ledger = answered();
    let (answer, transfer) = ledger.upvote_answer(1, 1, 1).unwrap();
    assert_eq!(answer.reward, 1);
    assert_eq!(transfer.amount, 1);
}

#[test]
fn settling_missing_question_or_answer_is_refused() {
    let mut ledger = answered();
    assert_eq!(
        ledger.set_correct_answer(&account("A"), 2, 1).unwrap_err(),
        LedgerError::QuestionNotFound
    );
    assert_eq!(
        ledger.set_correct_answer(&account("A"), 1, 2).unwrap_err(),
        LedgerError::AnswerNotFound
    );
    assert_eq!(ledger.stakes.get(&account("A")), Some(10));
}

#[test]
fn settling_refusals_come_in_order() {
    let mut ledger = answered();
    assert_eq!(ledger.create_answer(account("A"), 1, 1, "mine".to_string()), Ok(2));
    // A stranger naming a missing answer is told about being a stranger.
    assert_eq!(
        ledger.set_correct_answer(&account("C"), 1, 9).unwrap_err(),
        LedgerError::NotAuthor
    );
    ledger.set_correct_answer(&account("A"), 1, 1).unwrap();
    // After settlement a stranger is still told so first.
    assert_eq!(
        ledger.set_correct_answer(&account("C"), 1, 1).unwrap_err(),
        LedgerError::NotAuthor
    );
    // The author is told about the settlement before anything about the answer.
    assert_eq!(
        ledger.set_correct_answer(&account("A"), 1, 9).unwrap_err(),
        LedgerError::AlreadyResolved
    );
    assert_eq!(
        ledger.set_correct_answer(&account("A"), 1, 2).unwrap_err(),
        LedgerError::AlreadyResolved
    );
}

#[test]
fn own_answer_is_reported_before_a_missing_stake() {
    let mut ledger = asked();
    assert_eq!(ledger.create_answer(account("A"), 1, 1, "mine".to_string()), Ok(1));
    ledger.stakes = Stakes::new();
    assert_eq!(
        ledger.set_correct_answer(&account("A"), 1, 1).unwrap_err(),
        LedgerError::SelfReward
    );
}

#[test]
fn at_most_one_answer_is_ever_correct() {
    let mut ledger = answered();
    assert_eq!(ledger.create_answer(account("C"), 1, 1, "A2".to_string()), Ok(2));
    assert_eq!(correct_answers(&ledger, 1), 0);
    ledger.set_correct_answer(&account("A"), 1, 2).unwrap();
    assert_eq!(correct_answers(&ledger, 1), 1);
    assert_eq!(
        ledger.set_correct_answer(&account("A"), 1, 1).unwrap_err(),
        LedgerError::AlreadyResolved
    );
    ledger.upvote_answer(3, 1, 1).unwrap();
    assert_eq!(ledger.create_answer(account("B"), 1, 1, "A3".to_string()), Ok(3));
    assert_eq!(ledger.create_question(account("A"), 10, "Q2".to_string()), Ok(2));
    assert_eq!(correct_answers(&ledger, 1), 1);
    let answers = &ledger.list_questions()[&1].answers;
    assert!(!answers[0].is_correct);
    assert!(answers[1].is_correct);
    assert!(!answers[2].is_correct);
}

#[test]
fn first_of_two_answers_with_one_id_is_the_one_found() {
    let mut ledger = answered();
    ledger.questions.get_mut(&1).unwrap().answers.push(Answer {
        id: 1,
        content: "shadowed".to_string(),
        account_id: account("C"),
        reward: 100,
        is_correct: false,
    });
    assert_eq!(ledger.find_answer(1, 1).unwrap().content, "A1");
    let (answer, transfer) = ledger.upvote_answer(2, 1, 1).unwrap();
    assert_eq!(answer.reward, 2);
    assert_eq!(transfer.receiver_id, "B");
    assert_eq!(ledger.list_questions()[&1].answers[1].reward, 100);
}

#[test]
fn find_answer_finds_what_is_there() {
    let ledger = answered();
    let found = ledger.find_answer(1, 1).unwrap();
    assert_eq!(found.id, 1);
    assert_eq!(found.account_id, "B");
    assert!(ledger.find_answer(1, 2).is_none());
    assert!(ledger.find_answer(2, 1).is_none());
    assert_eq!(ledger.list_questions()[&1].position_of(1), Some(0));
    assert_eq!(ledger.list_questions()[&1].position_of(0), None);
}

#[test]
fn resolved_is_told_from_open() {
    let mut ledger = answered();
    assert!(!ledger.list_questions()[&1].is_resolved());
    ledger.set_correct_answer(&account("A"), 1, 1).unwrap();
    assert!(ledger.list_questions()[&1].is_resolved());
}

#[test]
fn default_ledger_is_empty() {
    let ledger = Ledger::default();
    assert!(ledger.list_questions().is_empty());
    assert!(ledger.stakes.entries().is_empty());
    assert_eq!(ledger.last_question_id(), 0);
}
