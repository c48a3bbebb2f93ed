use vstd::prelude::*;
use vstd::string::StringSliceAdditionalSpecFns;

verus! {

/// The registered claims of a panel-issued token.
pub struct BasePayload {
    pub issuer: String,
    pub subject: Option<String>,
    pub audience: Vec<String>,
    pub expiration_time: Option<i64>,
    pub not_before: Option<i64>,
    pub issued_at: Option<i64>,
    pub jwt_id: String,
}

/// The short-lived token a login answers with when a second factor is still
/// owed: it names the user and carries the secret the factor is checked
/// against.
pub struct TwoFactorRequiredJwt {
    pub base: BasePayload,
    pub user_id: i32,
    pub user_totp_secret: String,
}

/// Which check a submitted confirmation code goes through.
#[derive(PartialEq, Eq, Structural, Clone, Copy, Debug)]
pub enum CheckpointDecision {
    TotpCheck,
    RecoveryCheck,
    Invalid,
}

/// Routes a confirmation code by its length: six bytes mean a time-based
/// code, ten a recovery code, anything else is rejected.
pub fn checkpoint_code_path(code: &str) -> (r: CheckpointDecision)
    ensures
        r == if code.spec_bytes().len() == 6 {
            CheckpointDecision::TotpCheck
        } else if code.spec_bytes().len() == 10 {
            CheckpointDecision::RecoveryCheck
        } else {
            CheckpointDecision::Invalid
        },
{
    let n = code.as_bytes().len();
    if n == 6 {
        CheckpointDecision::TotpCheck
    } else if n == 10 {
        CheckpointDecision::RecoveryCheck
    } else {
        CheckpointDecision::Invalid
    }
}

} // verus!
