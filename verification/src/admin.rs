//! Who may run the test: the holder of the admin token.

use vstd::prelude::*;
use crate::record;
use crate::text;

verus! {

/// Why a request is not taken for one of the admin.
#[derive(Clone, Copy, Debug, PartialEq, Eq, Structural)]
pub enum AdminError {
    MissingToken,
    InvalidToken,
}

impl AdminError {
    /// The fault in words.
    pub open spec fn words(self) -> Seq<char> {
        match self {
            AdminError::MissingToken => "missing x-admin-token header"@,
            AdminError::InvalidToken => "invalid admin token"@,
        }
    }

    /// The fault in words.
    pub fn message(&self) -> (r: String)
        ensures
            r@ == self.words(),
    {
        match self {
            AdminError::MissingToken => "missing x-admin-token header".to_string(),
            AdminError::InvalidToken => "invalid admin token".to_string(),
        }
    }
}

/// What a request with this `x-admin-token` header is taken for: the token
/// without the white space around it must be the admin's, and must not be empty.
pub open spec fn admin_verdict(header: Option<Seq<char>>, admin_token: Seq<char>) -> Result<
    (),
    AdminError,
> {
    let token = match header {
        Some(h) => text::trimmed(h),
        None => Seq::empty(),
    };
    if token.len() == 0 {
        Err(AdminError::MissingToken)
    } else if token != admin_token {
        Err(AdminError::InvalidToken)
    } else {
        Ok(())
    }
}

/// Whether a request with this `x-admin-token` header is one of the admin.
pub fn require_admin(header: Option<&str>, admin_token: &str) -> (r: Result<(), AdminError>)
    ensures
        r == admin_verdict(record::opt_str(header), admin_token@),
{
    let token = match header {
        Some(h) => text::trim(h),
        None => String::new(),
    };
    if token.as_str().is_empty() {
        return Err(AdminError::MissingToken);
    }
    if !text::same_text(token.as_str(), admin_token) {
        return Err(AdminError::InvalidToken);
    }
    Ok(())
}

} // verus!
