use vstd::prelude::*;

verus! {

/// Why an operation was refused. A refused operation leaves the ledger as it
/// was.
#[derive(Clone, Copy, Debug, PartialEq, Eq, Structural)]
pub enum LedgerError {
    /// The value attached to the call is below what the operation costs.
    DepositTooLow,
    /// No question has the given id.
    QuestionNotFound,
    /// The question has no answer with the given id.
    AnswerNotFound,
    /// Only the author of a question may settle it.
    NotAuthor,
    /// The question already has a correct answer.
    AlreadyResolved,
    /// An author may not reward an answer of their own.
    SelfReward,
    /// The author's pooled stake does not cover the question's reward.
    InsufficientStake,
}

} // verus!
