//! The credential vault: under which names secrets are kept, and how the
//! vault's answers are read.

use vstd::prelude::*;
use vstd::string::*;

verus! {

/// The name of the vault service under which hub tokens are kept.
pub const HUB_TOKEN_SERVICE: &'static str = "com.goyais.hub.tokens";

/// The name of the vault service under which the secrets of a provider are kept.
pub open spec fn secret_service_of(provider: Seq<char>) -> Seq<char> {
    "com.goyais.secrets."@ + provider
}

/// The name of the vault service under which the secrets of `provider` are kept.
pub fn secret_service(provider: &str) -> (service: String)
    ensures
        service@ == secret_service_of(provider@),
{
    let mut service = String::from_str("com.goyais.secrets.");
    service.append(provider);
    service
}

/// Why the vault did not do what was asked.
pub enum VaultError {
    /// The vault holds nothing under the service and account.
    NoEntry,
    /// Anything else; the text says what.
    Other(String),
}

/// Reads the vault's answer to a request for a secret.  That the vault
/// holds nothing is no error: there is then no secret.
pub fn read_outcome(answer: Result<String, VaultError>) -> (secret: Result<Option<String>, String>)
    ensures
        match answer {
            Ok(value) => secret == Ok::<Option<String>, String>(Some(value)),
            Err(VaultError::NoEntry) => secret == Ok::<Option<String>, String>(None),
            Err(VaultError::Other(reason)) => secret == Err::<Option<String>, String>(reason),
        },
{
    match answer {
        Ok(value) => Ok(Some(value)),
        Err(VaultError::NoEntry) => Ok(None),
        Err(VaultError::Other(reason)) => Err(reason),
    }
}

/// Reads the vault's answer to a request to delete a secret.  That the
/// vault held nothing is no error: the secret is gone either way.
pub fn delete_outcome(answer: Result<(), VaultError>) -> (done: Result<(), String>)
    ensures
        match answer {
            Ok(_) => done is Ok,
            Err(VaultError::NoEntry) => done is Ok,
            Err(VaultError::Other(reason)) => done == Err::<(), String>(reason),
        },
{
    match answer {
        Ok(_) => Ok(()),
        Err(VaultError::NoEntry) => Ok(()),
        Err(VaultError::Other(reason)) => Err(reason),
    }
}

} // verus!
