//! The error a tool handler hands back to the model.
use vstd::prelude::*;

verus! {

/// An error reported to the model as the tool's output.
#[derive(Debug)]
pub enum FunctionCallError {
    /// The call failed; the message explains why to the model.
    RespondToModel(String),
}

impl FunctionCallError {
    /// The message text of the error.
    pub open spec fn message_view(&self) -> Seq<char> {
        match self {
            FunctionCallError::RespondToModel(m) => m@,
        }
    }

    /// Builds an error that responds to the model with `message`.
    pub fn respond(message: &str) -> (r: Self)
        ensures
            r.message_view() == message@,
    {
        FunctionCallError::RespondToModel(message.to_string())
    }

    /// The message text of the error.
    pub fn to_string(&self) -> (r: String)
        ensures
            r@ == self.message_view(),
    {
        match self {
            FunctionCallError::RespondToModel(m) => m.clone(),
        }
    }
}

} // verus!
