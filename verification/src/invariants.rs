//! What holds of the ledger whatever calls are made, and in whatever order.

use crate::history::Call;
use crate::model::{correct_count, highest_answer_id, AnswerView, LedgerView, QuestionView};
use vstd::prelude::*;

verus! {

/// A finite, non-empty set of ids has a greatest member.
pub proof fn lemma_greatest_id(ids: Set<nat>) -> (top: nat)
    requires
        ids.finite(),
        ids.len() > 0,
    ensures
        ids.contains(top),
        forall|id: nat| ids.contains(id) ==> id <= top,
    decreases ids.len(),
{
    let picked = ids.choose();
    let rest = ids.remove(picked);
    if rest.len() == 0 {
        rest.lemma_len0_is_empty();
        assert forall|id: nat| ids.contains(id) implies id <= picked by {
            if id != picked {
                assert(rest.contains(id));
            }
        }
        picked
    } else {
        let top = lemma_greatest_id(rest);
        if picked > top {
            assert forall|id: nat| ids.contains(id) implies id <= picked by {
                if id != picked {
                    assert(rest.contains(id));
                }
            }
            picked
        } else {
            assert forall|id: nat| ids.contains(id) implies id <= top by {
                if id != picked {
                    assert(rest.contains(id));
                }
            }
            top
        }
    }
}

/// Among finitely many questions no id exceeds the highest, and the next
/// id is not in use.
pub proof fn lemma_highest_question_id(ledger: LedgerView)
    requires
        ledger.finite(),
    ensures
        forall|id: nat| ledger.questions.contains_key(id) ==> id <= ledger.highest_question_id(),
        !ledger.questions.contains_key(ledger.next_question_id()),
{
    let ids = ledger.questions.dom();
    if ids.len() > 0 {
        let top = lemma_greatest_id(ids);
        assert(ledger.is_highest_question_id(top));
    } else {
        ids.lemma_len0_is_empty();
    }
}

/// Running two histories in a row is running them joined.
pub proof fn lemma_run_joined(start: LedgerView, first: Seq<Call>, second: Seq<Call>)
    ensures
        start.run(first + second) == start.run(first).run(second),
    decreases second.len(),
{
    if second.len() == 0 {
        assert(first + second =~= first);
    } else {
        lemma_run_joined(start, first, second.drop_last());
        assert((first + second).drop_last() =~= first + second.drop_last());
        assert((first + second).last() == second.last());
    }
}

/// A call removes no question, and leaves finitely many.
pub proof fn lemma_apply_keeps_questions(ledger: LedgerView, call: Call)
    requires
        ledger.finite(),
    ensures
        ledger.apply(call).finite(),
        forall|id: nat|
            ledger.questions.contains_key(id) ==> ledger.apply(call).questions.contains_key(id),
{
}

/// A history removes no question, and leaves finitely many.
pub proof fn lemma_run_keeps_questions(start: LedgerView, calls: Seq<Call>)
    requires
        start.finite(),
    ensures
        start.run(calls).finite(),
        forall|id: nat|
            start.questions.contains_key(id) ==> start.run(calls).questions.contains_key(id),
    decreases calls.len(),
{
    if calls.len() > 0 {
        lemma_run_keeps_questions(start, calls.drop_last());
        lemma_apply_keeps_questions(start.run(calls.drop_last()), calls.last());
    }
}

/// Question ids are assigned in strictly increasing order, so that no id is
/// assigned twice: of two calls in one history that each create a question,
/// the later gets the greater id, whatever other calls are made before,
/// between and after them.
pub proof fn question_ids_strictly_increase(
    start: LedgerView,
    calls: Seq<Call>,
    earlier: int,
    later: int,
)
    requires
        start.finite(),
        0 <= earlier < later < calls.len(),
        start.run(calls.take(earlier)).question_created_by(calls[earlier]) is Some,
        start.run(calls.take(later)).question_created_by(calls[later]) is Some,
    ensures
        start.run(calls.take(earlier)).question_created_by(calls[earlier])->0 < start.run(
            calls.take(later),
        ).question_created_by(calls[later])->0,
{
    let before = start.run(calls.take(earlier));
    let first = before.question_created_by(calls[earlier])->0;
    let created = start.run(calls.take(earlier + 1));
    assert(calls.take(earlier + 1).drop_last() =~= calls.take(earlier));
    assert(created == before.apply(calls[earlier]));
    assert(created.questions.contains_key(first));
    let between = calls.subrange(earlier + 1, later);
    assert(calls.take(later) =~= calls.take(earlier + 1) + between);
    lemma_run_joined(start, calls.take(earlier + 1), between);
    lemma_run_keeps_questions(start, calls.take(earlier + 1));
    lemma_run_keeps_questions(created, between);
    lemma_highest_question_id(created.run(between));
}

/// No answer has an id above the highest, and where there are answers one
/// of them has the highest id.
pub proof fn lemma_highest_answer_id(answers: Seq<AnswerView>)
    ensures
        forall|i: int|
            0 <= i < answers.len() ==> (#[trigger] answers[i]).id <= highest_answer_id(answers),
        answers.len() > 0 ==> exists|i: int|
            0 <= i < answers.len() && (#[trigger] answers[i]).id == highest_answer_id(answers),
        answers.len() == 0 ==> highest_answer_id(answers) == 0,
    decreases answers.len(),
{
    if answers.len() > 0 {
        let before = answers.drop_last();
        lemma_highest_answer_id(before);
        assert forall|i: int| 0 <= i < answers.len() implies (#[trigger] answers[i]).id
            <= highest_answer_id(answers) by {
            if i < before.len() {
                assert(before[i] == answers[i]);
            }
        }
        if answers.last().id > highest_answer_id(before) || before.len() == 0 {
            assert(answers[answers.len() - 1].id == highest_answer_id(answers));
        } else {
            let i = choose|i: int|
                0 <= i < before.len() && (#[trigger] before[i]).id == highest_answer_id(before);
            assert(answers[i].id == highest_answer_id(answers));
        }
    }
}

/// A question that continues another has no smaller highest answer id.
pub proof fn lemma_highest_answer_id_kept(earlier: QuestionView, later: QuestionView)
    requires
        later.continues(earlier),
    ensures
        highest_answer_id(earlier.answers) <= highest_answer_id(later.answers),
{
    lemma_highest_answer_id(earlier.answers);
    lemma_highest_answer_id(later.answers);
    if earlier.answers.len() > 0 {
        let i = choose|i: int|
            0 <= i < earlier.answers.len() && (#[trigger] earlier.answers[i]).id
                == highest_answer_id(earlier.answers);
        assert(later.answers[i].continues(earlier.answers[i]));
    }
}

/// Where some answer has the id, the first position with it exists.
pub proof fn lemma_position_of(question: QuestionView, id: nat)
    requires
        question.has_answer(id),
    ensures
        question.is_position_of(question.position_of(id), id),
{
    let at = choose|i: int|
        0 <= i < question.answers.len() && (#[trigger] question.answers[i]).id == id;
    lemma_first_position(question, id, at);
}

proof fn lemma_first_position(question: QuestionView, id: nat, at: int)
    requires
        0 <= at < question.answers.len(),
        question.answers[at].id == id,
    ensures
        exists|i: int| question.is_position_of(i, id),
    decreases at,
{
    if forall|j: int| 0 <= j < at ==> (#[trigger] question.answers[j]).id != id {
        assert(question.is_position_of(at, id));
    } else {
        let j = choose|j: int| 0 <= j < at && (#[trigger] question.answers[j]).id == id;
        lemma_first_position(question, id, j);
    }
}

/// Appending an answer adds 1 to the count of correct answers if it is
/// correct, and nothing otherwise.
pub proof fn lemma_correct_count_push(answers: Seq<AnswerView>, answer: AnswerView)
    ensures
        correct_count(answers.push(answer)) == correct_count(answers) + if answer.is_correct {
            1nat
        } else {
            0nat
        },
{
    assert(answers.push(answer).drop_last() =~= answers);
}

/// Replacing an answer changes the count of correct answers by what the
/// two answers differ in.
pub proof fn lemma_correct_count_update(answers: Seq<AnswerView>, i: int, answer: AnswerView)
    requires
        0 <= i < answers.len(),
    ensures
        correct_count(answers.update(i, answer)) + (if answers[i].is_correct {
            1nat
        } else {
            0nat
        }) == correct_count(answers) + if answer.is_correct {
            1nat
        } else {
            0nat
        },
    decreases answers.len(),
{
    let updated = answers.update(i, answer);
    if i == answers.len() - 1 {
        assert(updated.drop_last() =~= answers.drop_last());
    } else {
        lemma_correct_count_update(answers.drop_last(), i, answer);
        assert(updated.drop_last() =~= answers.drop_last().update(i, answer));
    }
}

/// No answer is counted as correct exactly where none is marked correct.
pub proof fn lemma_correct_count_unresolved(question: QuestionView)
    ensures
        correct_count(question.answers) == 0 <==> !question.is_resolved(),
{
    lemma_correct_count_none(question.answers);
}

proof fn lemma_correct_count_none(answers: Seq<AnswerView>)
    ensures
        correct_count(answers) == 0 <==> forall|i: int|
            0 <= i < answers.len() ==> !(#[trigger] answers[i]).is_correct,
    decreases answers.len(),
{
    if answers.len() > 0 {
        let before = answers.drop_last();
        lemma_correct_count_none(before);
        if correct_count(answers) == 0 {
            assert forall|i: int| 0 <= i < answers.len() implies !(
            #[trigger] answers[i]).is_correct by {
                if i < before.len() {
                    assert(before[i] == answers[i]);
                }
            }
        } else if !answers.last().is_correct {
            let i = choose|i: int| 0 <= i < before.len() && (#[trigger] before[i]).is_correct;
            assert(answers[i].is_correct);
        } else {
            assert(answers[answers.len() - 1].is_correct);
        }
    }
}

/// A call keeps each question, which continues what it was.
pub proof fn lemma_apply_continues(ledger: LedgerView, call: Call, id: nat)
    requires
        ledger.finite(),
        ledger.questions.contains_key(id),
    ensures
        ledger.apply(call).questions.contains_key(id),
        ledger.apply(call).questions[id].continues(ledger.questions[id]),
{
    lemma_highest_question_id(ledger);
    match call {
        Call::CreateQuestion { .. } => {},
        Call::CreateAnswer { .. } => {},
        Call::UpvoteAnswer { question_id, answer_id, .. } => {
            if ledger.questions.contains_key(question_id) {
                let question = ledger.questions[question_id];
                if question.has_answer(answer_id) {
                    lemma_position_of(question, answer_id);
                }
            }
        },
        Call::SetCorrectAnswer { question_id, answer_id, .. } => {
            if ledger.questions.contains_key(question_id) {
                let question = ledger.questions[question_id];
                if question.has_answer(answer_id) {
                    lemma_position_of(question, answer_id);
                }
            }
        },
    }
}

/// Nothing about a question or its answers is ever taken back: whatever
/// calls are made, the question keeps its id, content, reward and author,
/// its answers keep their places, ids, authors and contents, no answer's
/// reward decreases, and an answer that is correct stays correct.
pub proof fn questions_only_grow(start: LedgerView, calls: Seq<Call>, id: nat)
    requires
        start.finite(),
        start.questions.contains_key(id),
    ensures
        start.run(calls).questions.contains_key(id),
        start.run(calls).questions[id].continues(start.questions[id]),
    decreases calls.len(),
{
    if calls.len() > 0 {
        let before = start.run(calls.drop_last());
        questions_only_grow(start, calls.drop_last(), id);
        lemma_run_keeps_questions(start, calls.drop_last());
        lemma_apply_continues(before, calls.last(), id);
        let first = start.questions[id];
        let middle = before.questions[id];
        let last = before.apply(calls.last()).questions[id];
        assert forall|i: int| 0 <= i < first.answers.len() implies (
        #[trigger] last.answers[i]).continues(first.answers[i]) by {
            assert(middle.answers[i].continues(first.answers[i]));
            assert(last.answers[i].continues(middle.answers[i]));
        }
    }
}

/// Answer ids are assigned in strictly increasing order within a question,
/// so that none is assigned twice there: of two calls in one history that
/// each create an answer to question `question_id`, the later gets the
/// greater id, whatever other calls are made before, between and after
/// them.
pub proof fn answer_ids_strictly_increase(
    start: LedgerView,
    calls: Seq<Call>,
    question_id: nat,
    earlier: int,
    later: int,
)
    requires
        start.finite(),
        0 <= earlier < later < calls.len(),
        start.run(calls.take(earlier)).answer_created_by(calls[earlier], question_id) is Some,
        start.run(calls.take(later)).answer_created_by(calls[later], question_id) is Some,
    ensures
        start.run(calls.take(earlier)).answer_created_by(calls[earlier], question_id)->0
            < start.run(calls.take(later)).answer_created_by(calls[later], question_id)->0,
{
    let before = start.run(calls.take(earlier));
    let first = before.answer_created_by(calls[earlier], question_id)->0;
    let created = start.run(calls.take(earlier + 1));
    assert(calls.take(earlier + 1).drop_last() =~= calls.take(earlier));
    assert(created == before.apply(calls[earlier]));
    let answers = created.questions[question_id].answers;
    assert(answers.last().id == first);
    lemma_highest_answer_id(answers);
    let between = calls.subrange(earlier + 1, later);
    assert(calls.take(later) =~= calls.take(earlier + 1) + between);
    lemma_run_joined(start, calls.take(earlier + 1), between);
    lemma_run_keeps_questions(start, calls.take(earlier + 1));
    questions_only_grow(created, between, question_id);
    lemma_highest_answer_id_kept(
        created.questions[question_id],
        created.run(between).questions[question_id],
    );
}

/// The ids of a question's answers do not depend on what happens to other
/// questions: a call that does not name question `question_id` leaves it,
/// and with it the id of its next answer, as it was.
pub proof fn answer_ids_independent(ledger: LedgerView, call: Call, question_id: nat)
    requires
        ledger.finite(),
        ledger.questions.contains_key(question_id),
        match call {
            Call::CreateQuestion { .. } => true,
            Call::CreateAnswer { question_id: target, .. } => target != question_id,
            Call::UpvoteAnswer { question_id: target, .. } => target != question_id,
            Call::SetCorrectAnswer { question_id: target, .. } => target != question_id,
        },
    ensures
        ledger.apply(call).questions[question_id] == ledger.questions[question_id],
{
    lemma_highest_question_id(ledger);
}

/// A call on a solvent ledger leaves it solvent.
pub proof fn lemma_apply_keeps_solvent(ledger: LedgerView, call: Call)
    requires
        ledger.solvent(),
    ensures
        ledger.apply(call).solvent(),
{
}

/// No balance is ever negative: whatever calls are made on a solvent
/// ledger, it stays solvent.
pub proof fn balances_never_negative(start: LedgerView, calls: Seq<Call>)
    requires
        start.solvent(),
    ensures
        start.run(calls).solvent(),
    decreases calls.len(),
{
    if calls.len() > 0 {
        balances_never_negative(start, calls.drop_last());
        lemma_apply_keeps_solvent(start.run(calls.drop_last()), calls.last());
    }
}

/// A call leaves a consistent question consistent.
pub proof fn lemma_apply_keeps_consistent(ledger: LedgerView, call: Call, id: nat)
    requires
        ledger.finite(),
        ledger.consistent(),
        ledger.apply(call).questions.contains_key(id),
    ensures
        ledger.apply(call).questions[id].consistent(),
{
    lemma_highest_question_id(ledger);
    let after = ledger.apply(call).questions[id];
    match call {
        Call::CreateQuestion { signer, deposit, content } => {
            if !ledger.questions.contains_key(id) {
                assert(after.answers =~= Seq::<AnswerView>::empty());
            }
        },
        Call::CreateAnswer { signer, deposit, question_id, content } => {
            let created = ledger.create_answer(signer, deposit, question_id, content);
            if question_id == id && created is Ok {
                let before = ledger.questions[id];
                let answer = AnswerView::fresh(before.next_answer_id(), signer, content);
                lemma_correct_count_push(before.answers, answer);
                lemma_highest_answer_id(before.answers);
                assert forall|i: int, j: int| 0 <= i < j < after.answers.len() implies (
                #[trigger] after.answers[i]).id != (#[trigger] after.answers[j]).id by {
                    assert(after.answers[i] == before.answers[i]);
                    if j < before.answers.len() {
                        assert(after.answers[j] == before.answers[j]);
                    }
                }
                assert forall|i: int|
                    0 <= i < after.answers.len() && (
                    #[trigger] after.answers[i]).is_correct implies after.answers[i].author
                    != after.author by {
                    assert(after.answers[i] == before.answers[i]);
                }
            }
        },
        Call::UpvoteAnswer { deposit, question_id, answer_id } => {
            if question_id == id && ledger.upvote_answer(deposit, question_id, answer_id) is Ok {
                let before = ledger.questions[id];
                lemma_position_of(before, answer_id);
                let at = before.position_of(answer_id);
                lemma_correct_count_update(before.answers, at, before.answers[at].upvoted(deposit));
                lemma_update_keeps_consistent(before, after, at);
            }
        },
        Call::SetCorrectAnswer { signer, question_id, answer_id } => {
            let settled = ledger.set_correct_answer(signer, question_id, answer_id);
            if question_id == id && settled is Ok {
                let before = ledger.questions[id];
                lemma_position_of(before, answer_id);
                let at = before.position_of(answer_id);
                lemma_correct_count_unresolved(before);
                lemma_correct_count_update(
                    before.answers,
                    at,
                    before.answers[at].awarded(before.reward),
                );
                lemma_update_keeps_consistent(before, after, at);
            }
        },
    }
}

/// Replacing one answer by one with the same id, which is not a correct
/// answer of the question's author, keeps ids distinct and the author
/// unrewarded.
proof fn lemma_update_keeps_consistent(before: QuestionView, after: QuestionView, at: int)
    requires
        before.distinct_answer_ids(),
        before.no_self_reward(),
        0 <= at < before.answers.len(),
        after.author == before.author,
        after.answers.len() == before.answers.len(),
        forall|i: int|
            0 <= i < before.answers.len() && i != at ==> after.answers[i] == before.answers[i],
        after.answers[at].id == before.answers[at].id,
        after.answers[at].is_correct ==> after.answers[at].author != after.author,
    ensures
        after.distinct_answer_ids(),
        after.no_self_reward(),
{
    assert forall|i: int, j: int| 0 <= i < j < after.answers.len() implies (
    #[trigger] after.answers[i]).id != (#[trigger] after.answers[j]).id by {
        assert(after.answers[i].id == before.answers[i].id);
        assert(after.answers[j].id == before.answers[j].id);
    }
    assert forall|i: int|
        0 <= i < after.answers.len() && (
        #[trigger] after.answers[i]).is_correct implies after.answers[i].author
        != after.author by {
        if i != at {
            assert(after.answers[i] == before.answers[i]);
        }
    }
}

/// The ledger without stakes and questions is finite, solvent and
/// consistent.
pub proof fn empty_is_sound()
    ensures
        LedgerView::empty().finite(),
        LedgerView::empty().solvent(),
        LedgerView::empty().consistent(),
{
}

/// Whatever calls are made on a consistent ledger, it stays consistent: each
/// question has at most one correct answer, which is not its author's own,
/// and no two of its answers share an id.
pub proof fn consistency_kept(start: LedgerView, calls: Seq<Call>)
    requires
        start.finite(),
        start.consistent(),
    ensures
        start.run(calls).consistent(),
    decreases calls.len(),
{
    if calls.len() > 0 {
        let before = start.run(calls.drop_last());
        consistency_kept(start, calls.drop_last());
        lemma_run_keeps_questions(start, calls.drop_last());
        assert forall|id: nat| #[trigger]
            before.apply(calls.last()).questions.contains_key(id) implies before.apply(
            calls.last(),
        ).questions[id].consistent() by {
            lemma_apply_keeps_consistent(before, calls.last(), id);
        }
    }
}

/// A call keeps each question and never leaves it with more correct answers
/// than one: where there was none there is at most one, and where there
/// were some their number is unchanged.
pub proof fn lemma_apply_correct_count(ledger: LedgerView, call: Call, id: nat)
    requires
        ledger.finite(),
        ledger.questions.contains_key(id),
    ensures
        ledger.apply(call).questions.contains_key(id),
        correct_count(ledger.questions[id].answers) == 0 ==> correct_count(
            ledger.apply(call).questions[id].answers,
        ) <= 1,
        correct_count(ledger.questions[id].answers) >= 1 ==> correct_count(
            ledger.apply(call).questions[id].answers,
        ) == correct_count(ledger.questions[id].answers),
{
    lemma_highest_question_id(ledger);
    let before = ledger.questions[id];
    lemma_correct_count_unresolved(before);
    match call {
        Call::CreateQuestion { .. } => {},
        Call::CreateAnswer { signer, deposit, question_id, content } => {
            if question_id == id {
                lemma_correct_count_push(
                    before.answers,
                    AnswerView::fresh(before.next_answer_id(), signer, content),
                );
            }
        },
        Call::UpvoteAnswer { deposit, question_id, answer_id } => {
            if question_id == id && before.has_answer(answer_id) {
                lemma_position_of(before, answer_id);
                let at = before.position_of(answer_id);
                lemma_correct_count_update(before.answers, at, before.answers[at].upvoted(deposit));
            }
        },
        Call::SetCorrectAnswer { signer, question_id, answer_id } => {
            if question_id == id && before.has_answer(answer_id) {
                lemma_position_of(before, answer_id);
                let at = before.position_of(answer_id);
                lemma_correct_count_update(
                    before.answers,
                    at,
                    before.answers[at].awarded(before.reward),
                );
            }
        },
    }
}

/// A question never has two correct answers, and a settled question stays
/// settled: whatever calls are made, a question with no correct answer has
/// at most one afterwards, and a question with one correct answer has
/// exactly one afterwards.
pub proof fn at_most_one_correct_answer(start: LedgerView, calls: Seq<Call>, id: nat)
    requires
        start.finite(),
        start.questions.contains_key(id),
        correct_count(start.questions[id].answers) <= 1,
    ensures
        start.run(calls).questions.contains_key(id),
        correct_count(start.run(calls).questions[id].answers) <= 1,
        correct_count(start.questions[id].answers) == 1 ==> correct_count(
            start.run(calls).questions[id].answers,
        ) == 1,
    decreases calls.len(),
{
    if calls.len() > 0 {
        at_most_one_correct_answer(start, calls.drop_last(), id);
        lemma_run_keeps_questions(start, calls.drop_last());
        lemma_apply_correct_count(start.run(calls.drop_last()), calls.last(), id);
    }
}

/// Every ledger that calls can build from nothing holds finitely many
/// questions, no negative balance, and only consistent questions.
pub proof fn reachable_is_sound(calls: Seq<Call>)
    ensures
        LedgerView::empty().run(calls).finite(),
        LedgerView::empty().run(calls).solvent(),
        LedgerView::empty().run(calls).consistent(),
{
    empty_is_sound();
    lemma_run_keeps_questions(LedgerView::empty(), calls);
    balances_never_negative(LedgerView::empty(), calls);
    consistency_kept(LedgerView::empty(), calls);
}

} // verus!
