//! Pieces of the Installations REST exchange that do not touch the network.
use vstd::prelude::*;

use crate::installations::error::{InstallationsError, InstallationsErrorCode, InstallationsResult};
use crate::installations::types::InstallationToken;
use crate::json::{parse_u64, parse_u64_text};
use crate::text::owned;

verus! {

/// An installation registered with the backend.
#[derive(Clone, Debug, PartialEq, Eq)]
pub struct RegisteredInstallation {
    pub fid: String,
    pub refresh_token: String,
    pub auth_token: InstallationToken,
}

/// The seconds of an `expiresIn` value such as `3600s`: decimal digits
/// followed by `s`.
pub open spec fn expires_in_seconds(raw: Seq<char>) -> Option<u64> {
    if raw.len() > 0 && raw.last() == 's' {
        parse_u64_text(raw.drop_last())
    } else {
        None
    }
}

/// Reads an `expiresIn` value as a number of seconds.
pub fn parse_expires_in(raw: &str) -> (r: InstallationsResult<u64>)
    ensures
        match r {
            Ok(s) => expires_in_seconds(raw@) == Some(s),
            Err(e) => expires_in_seconds(raw@) is None && e.code == InstallationsErrorCode::InvalidArgument,
        },
{
    let n = raw.unicode_len();
    if n == 0 || raw.get_char(n - 1) != 's' {
        let mut m = owned("Invalid expiresIn format: ");
        m.append(raw);
        return Err(InstallationsError { code: InstallationsErrorCode::InvalidArgument, message: m });
    }
    let stripped = raw.substring_char(0, n - 1);
    assert(stripped@ =~= raw@.drop_last());
    match parse_u64(stripped) {
        Some(seconds) => Ok(seconds),
        None => {
            let mut m = owned("Invalid expiresIn value '");
            m.append(raw);
            m.append("'");
            Err(InstallationsError { code: InstallationsErrorCode::InvalidArgument, message: m })
        },
    }
}

} // verus!
