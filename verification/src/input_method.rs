//! Input method strategies.
use vstd::prelude::*;

use crate::geometry::{Rectangle, Scalar};

verus! {

/// The purpose of an input method.
#[derive(Debug, Clone, Copy, PartialEq, Eq, Structural)]
pub enum Purpose {
    /// No special hints.
    Normal,
    /// Used for secrets such as passwords.
    Secure,
    /// Used to enter commands into a terminal.
    Terminal,
}

/// Text that is being composed.
#[derive(Debug)]
pub struct Preedit {
    /// The composed text.
    pub content: String,
    /// The selected part of the text, as the range of its byte offsets.
    pub selection: Option<(usize, usize)>,
    /// The size of the text, if it is not the default one.
    pub text_size: Option<Scalar>,
}

impl Clone for Preedit {
    fn clone(&self) -> (r: Preedit)
        ensures
            r == *self,
    {
        Preedit {
            content: self.content.clone(),
            selection: self.selection,
            text_size: self.text_size,
        }
    }
}

/// The strategy of an input method.
#[derive(Debug)]
pub enum InputMethod {
    /// Input method is disabled.
    Disabled,
    /// Input method is enabled.
    Enabled {
        /// The area of the cursor.
        cursor: Rectangle,
        /// The purpose of the input.
        purpose: Purpose,
        /// The text that is being composed, if any.
        preedit: Option<Preedit>,
    },
}

impl Clone for InputMethod {
    fn clone(&self) -> (r: InputMethod)
        ensures
            r == *self,
    {
        match self {
            InputMethod::Disabled => InputMethod::Disabled,
            InputMethod::Enabled { cursor, purpose, preedit } => InputMethod::Enabled {
                cursor: *cursor,
                purpose: *purpose,
                preedit: match preedit {
                    Some(preedit) => Some(preedit.clone()),
                    None => None,
                },
            },
        }
    }
}

impl InputMethod {
    /// The first of two strategies that is enabled.
    pub open spec fn merge_spec(self, other: InputMethod) -> InputMethod {
        if self is Enabled {
            self
        } else {
            other
        }
    }

    /// Merges two strategies, with priority to the first one when both are
    /// enabled.
    pub fn merge(&mut self, other: &InputMethod)
        ensures
            *final(self) == old(self).merge_spec(*other),
    {
        match self {
            InputMethod::Enabled { .. } => {},
            InputMethod::Disabled => {
                *self = other.clone();
            },
        }
    }
}

/// Of the strategies that are merged, the first that is enabled is kept.
pub proof fn law_the_first_enabled_strategy_is_kept(
    a: InputMethod,
    b: InputMethod,
    c: InputMethod,
)
    ensures
        a is Enabled ==> a.merge_spec(b) == a,
        a is Disabled ==> a.merge_spec(b) == b,
        a.merge_spec(b).merge_spec(c) == a.merge_spec(b.merge_spec(c)),
{
}

} // verus!
