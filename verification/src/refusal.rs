//! Why something was refused.
use vstd::prelude::*;

verus! {

/// A refusal, with the reason as it is told to the operator.
#[derive(Debug)]
pub struct Refusal {
    pub message: String,
}

/// Why a run ended early.
#[derive(Debug)]
pub enum Stop {
    /// What was found rules the run out.
    Refused { message: String },
    /// Something that the run asked for went wrong. Its own error is the
    /// cause; `context`, where there is one, says what was being done.
    Failed { context: Option<String> },
}

impl Clone for Stop {
    fn clone(&self) -> (r: Self)
        ensures
            r@ == self@,
    {
        match self {
            Stop::Refused { message } => Stop::Refused { message: message.clone() },
            Stop::Failed { context } => Stop::Failed {
                context: match context {
                    Some(context) => Some(context.clone()),
                    None => None,
                },
            },
        }
    }
}

/// A [`Stop`] as text.
pub enum StopText {
    Refused { message: Seq<char> },
    Failed { context: Option<Seq<char>> },
}

impl View for Stop {
    type V = StopText;

    open spec fn view(&self) -> StopText {
        match self {
            Stop::Refused { message } => StopText::Refused { message: message@ },
            Stop::Failed { context } => StopText::Failed {
                context: match context {
                    Some(context) => Some(context@),
                    None => None,
                },
            },
        }
    }
}

/// A failure while doing something to the device at `address`.
pub open spec fn failed_at(address: Seq<char>, doing: Seq<char>) -> StopText {
    StopText::Failed { context: Some(address + doing) }
}

pub fn fail_at(address: &str, doing: &str) -> (r: Stop)
    ensures
        r@ == failed_at(address@, doing@),
{
    let mut context = address.to_owned();
    context.append(doing);
    Stop::Failed { context: Some(context) }
}

/// Why a run ended, as text, is what the stop holds.
pub proof fn law_a_stop_is_told_as_it_is(stop: Stop, address: Seq<char>, doing: Seq<char>)
    ensures
        stop matches Stop::Refused { message } ==> stop@ == (StopText::Refused {
            message: message@,
        }),
        stop matches Stop::Failed { context: Some(context) } ==> stop@ == (StopText::Failed {
            context: Some(context@),
        }),
        stop matches Stop::Failed { context: None } ==> stop@ == (StopText::Failed {
            context: None,
        }),
        failed_at(address, doing) == (StopText::Failed { context: Some(address + doing) }),
{
}

} // verus!
