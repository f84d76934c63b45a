//! The error of token providers.
use vstd::prelude::*;

use crate::text::owned;

verus! {

/// A failure to obtain a token.
#[derive(Clone, Debug)]
pub struct TokenError {
    pub message: String,
}

impl TokenError {
    pub fn new(message: &str) -> (e: Self)
        ensures
            e.message@ == message@,
    {
        TokenError { message: owned(message) }
    }

    /// The message: how the error is displayed.
    pub fn to_string(&self) -> (r: String)
        ensures
            r@ == self.message@,
    {
        owned(self.message.as_str())
    }
}

/// A source of auth or app-check tokens shared by the services.
pub trait AsyncTokenProvider {
    /// The current token, fetching a new one when `force_refresh` is set.
    fn get_token(&self, force_refresh: bool) -> Result<Option<String>, TokenError>;
}

} // verus!
