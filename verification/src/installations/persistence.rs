//! What the Installations service keeps between runs, and the name of the
//! file that holds it.
use vstd::prelude::*;
use vstd::string::StringSliceAdditionalSpecFns;

use percent_encoding::{percent_encode, NON_ALPHANUMERIC};

use crate::installations::error::InstallationsResult;
use crate::installations::types::InstallationToken;
use crate::text::owned;

verus! {

/// A persisted auth token.
#[derive(Clone, Debug, PartialEq, Eq)]
pub struct PersistedAuthToken {
    pub token: String,
    pub expires_at_ms: u64,
}

impl PersistedAuthToken {
    /// The persisted form of a token.
    pub fn from_runtime(token: &InstallationToken) -> (r: InstallationsResult<Self>)
        ensures
            r matches Ok(p) && p.token@ == token.token@ && p.expires_at_ms == token.expires_at_ms,
    {
        Ok(PersistedAuthToken { token: owned(token.token.as_str()), expires_at_ms: token.expires_at_ms })
    }

    /// The token a persisted form stands for.
    pub fn into_runtime(self) -> (t: InstallationToken)
        ensures
            t.token@ == self.token@,
            t.expires_at_ms == self.expires_at_ms,
    {
        InstallationToken { token: self.token, expires_at_ms: self.expires_at_ms }
    }
}

/// A persisted installation: its id, refresh token and auth token.
#[derive(Clone, Debug, PartialEq, Eq)]
pub struct PersistedInstallation {
    pub fid: String,
    pub refresh_token: String,
    pub auth_token: PersistedAuthToken,
}

/// Storage of installations, one per app name.
pub trait InstallationsPersistence {
    fn read(&self, app_name: &str) -> InstallationsResult<Option<PersistedInstallation>>;

    fn write(&self, app_name: &str, entry: &PersistedInstallation) -> InstallationsResult<()>;

    fn clear(&self, app_name: &str) -> InstallationsResult<()>;
}

/// Whether a byte is an ASCII letter or digit.
pub open spec fn is_ascii_alphanumeric(b: u8) -> bool {
    (0x30 <= b <= 0x39) || (0x41 <= b <= 0x5a) || (0x61 <= b <= 0x7a)
}

/// The uppercase hexadecimal digit of a value below sixteen.
pub open spec fn hex_digit(d: int) -> char {
    if d < 10 {
        (('0' as int) + d) as char
    } else {
        (('A' as int) + d - 10) as char
    }
}

/// Percent-encoding with every byte but ASCII letters and digits escaped as
/// `%` and two uppercase hexadecimal digits.
pub open spec fn percent_encoded(bytes: Seq<u8>) -> Seq<char>
    decreases bytes.len(),
{
    if bytes.len() == 0 {
        Seq::<char>::empty()
    } else {
        let b = bytes.last();
        percent_encoded(bytes.drop_last()) + if is_ascii_alphanumeric(b) {
            seq![b as char]
        } else {
            seq!['%', hex_digit((b / 16) as int), hex_digit((b % 16) as int)]
        }
    }
}

/// Calls `percent_encoding::percent_encode` with the `NON_ALPHANUMERIC` set
/// and writes the result out. Claims what that set means: letters and digits
/// stay, every other byte becomes `%` and two uppercase hexadecimal digits.
#[verifier::external_body]
fn percent_encode_non_alphanumeric(bytes: &[u8]) -> (r: String)
    ensures
        r@ == percent_encoded(bytes@),
{
    percent_encode(bytes, NON_ALPHANUMERIC).to_string()
}

/// The file that holds the installation of an app: the percent-encoded
/// UTF-8 bytes of the app name followed by `.json`.
pub fn file_name_for(app_name: &str) -> (r: String)
    ensures
        r@ == percent_encoded(app_name.spec_bytes()) + ".json"@,
{
    let bytes = app_name.as_bytes();
    let mut r = percent_encode_non_alphanumeric(bytes);
    r.append(".json");
    r
}

} // verus!
