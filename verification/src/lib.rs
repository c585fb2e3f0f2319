//! An escrow-backed question-and-answer ledger.
//!
//! Authors stake value to post questions, others pay a fee to answer, anyone
//! may add reward to an answer, and a question's author settles the question
//! by marking one answer correct, which pays the staked reward to that
//! answer's author.
//!
//! The ledger never reads the caller's identity or the attached value from
//! its surroundings and never moves value itself: each operation takes both
//! as arguments and hands back the transfer that the host has to perform.

pub mod error;
pub mod history;
pub mod invariants;
pub mod ledger;
pub mod model;
pub mod stakes;

pub use error::LedgerError;
pub use ledger::{award_answer_author, Answer, Ledger, Question, Transfer};
pub use model::{ANSWER_PRICE, MIN_QUESTION_REWARD};
pub use stakes::{add_stake, Stake, Stakes};
