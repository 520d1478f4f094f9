//! What a caller gets of an account.

use vstd::prelude::*;

verus! {

/// An account that was taken from the pool.
#[derive(Debug)]
pub struct AccountHandle {
    pub email: String,
    pub token: String,
}

/// A taken account, as a mathematical value.
#[verifier::ext_equal]
pub struct HandleView {
    pub email: Seq<char>,
    pub token: Seq<char>,
}

impl View for AccountHandle {
    type V = HandleView;

    open spec fn view(&self) -> HandleView {
        HandleView { email: self.email@, token: self.token@ }
    }
}

impl Clone for AccountHandle {
    fn clone(&self) -> (r: Self)
        ensures
            r@ == self@,
    {
        AccountHandle { email: self.email.clone(), token: self.token.clone() }
    }
}

} // verus!
