//! The outcome of registering as an additional device on an existing subscription.

use vstd::prelude::*;

verus! {

/// The outcome of registering: a batch of credentials this install owns.
#[derive(Debug, Clone, PartialEq, Eq)]
pub struct Registration {
    pub order_id: String,
    pub item_id: String,
    /// The `merchant?sku=` string a presentation signs over.
    pub issuer: String,
    pub credentials: Vec<SignedCredential>,
}

/// One credential as the server signed it.
#[derive(Debug, Clone, PartialEq, Eq)]
pub struct SignedCredential {
    /// Base64 unblinded token.
    pub unblinded: String,
    pub valid_from: String,
    pub valid_to: String,
    /// Which key derivation the token was blinded with.
    pub rfc: bool,
}

/// Why registering, or presenting a credential, failed.
#[derive(Debug)]
pub enum DeviceError {
    /// The subscription is not in a state that can issue credentials.
    NotPaid,
    /// The server's signatures did not verify.
    ///
    /// Fatal on purpose: it means the batch was not signed by the key it claims, so nothing about
    /// it can be trusted.
    InvalidProof,
    /// The request did not complete.
    Transport { detail: String },
    /// The server answered with something unexpected.
    Unexpected { detail: String },
}

impl DeviceError {
    /// What the error says to the user.
    pub open spec fn message(self) -> Seq<char> {
        match self {
            DeviceError::NotPaid => "the subscription is not paid"@,
            DeviceError::InvalidProof => "the credentials the server returned did not verify"@,
            DeviceError::Transport { detail } => "could not reach the subscription service: "@
                + detail@,
            DeviceError::Unexpected { detail } => "unexpected response: "@ + detail@,
        }
    }

    /// What the error says to the user.
    pub fn to_string(&self) -> (r: String)
        ensures
            r@ == self.message(),
    {
        match self {
            DeviceError::NotPaid => "the subscription is not paid".to_string(),
            DeviceError::InvalidProof => {
                "the credentials the server returned did not verify".to_string()
            },
            DeviceError::Transport { detail } => {
                "could not reach the subscription service: ".to_string().concat(detail.as_str())
            },
            DeviceError::Unexpected { detail } => {
                "unexpected response: ".to_string().concat(detail.as_str())
            },
        }
    }
}

/// What each error says: its own reason whole, and what it is about.
pub proof fn law_what_a_device_error_says(detail: String)
    ensures
        DeviceError::NotPaid.message() == "the subscription is not paid"@,
        DeviceError::InvalidProof.message()
            == "the credentials the server returned did not verify"@,
        (DeviceError::Transport { detail }).message()
            == "could not reach the subscription service: "@ + detail@,
        (DeviceError::Unexpected { detail }).message() == "unexpected response: "@ + detail@,
{
}

} // verus!
