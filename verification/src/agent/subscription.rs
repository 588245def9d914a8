//! Spending imported Leo Premium credentials on a turn's requests.
//!
//! The adapter between the keychain and the chat client. A credential is single-use: the client
//! has to ask for one per request, and the store has to record each as spent, so something has to
//! sit between them and hold the channel.
//!
//! A failure here fails the turn rather than reverting to the free tier, and the error names the
//! fix.

use crate::agent::calendar::{current_timestamp, seconds_at, timestamp_text};
use crate::aichat::SubscriptionCredential;
use crate::skus::device::DeviceError;
use crate::skus::profile::Channel;
use crate::skus::store::{
    law_spending_takes_one, loaded, Credential, KeychainRead, KeychainWrite, StoreError, Wallet,
};
use crate::skus::store::{stores, StoreErrorView, StoredCredentials, WalletView};
use crate::skus::CREDENTIAL_COOKIE_NAME;
use std::time::SystemTime;
use vstd::prelude::*;

verus! {

/// Spends credentials from the keychain, one per request.
///
/// The batch is opened once and spent from memory, so a session prompts for the keychain at most
/// once rather than on every model round.
pub struct ImportedSubscription {
    wallet: Wallet,
    /// How many credentials were left after the last spend, for a caller that wants to warn.
    remaining: Option<usize>,
}

/// An [`ImportedSubscription`] as a mathematical value.
pub struct ImportedView {
    pub wallet: WalletView,
    pub remaining: Option<usize>,
}

impl View for ImportedSubscription {
    type V = ImportedView;

    closed spec fn view(&self) -> ImportedView {
        ImportedView { wallet: self.wallet@, remaining: self.remaining }
    }
}

/// Where looking for an imported subscription is.
pub enum Discovery {
    /// This channel's entry is to be read next.
    Read(Channel),
    /// This is the subscription to spend.
    Found(ImportedSubscription),
    /// Nothing has been imported.
    Nothing,
}

/// The channel to try after this one.
pub open spec fn next_channel(channel: Channel) -> Option<Channel> {
    match channel {
        Channel::Stable => Some(Channel::Beta),
        Channel::Beta => Some(Channel::Nightly),
        Channel::Nightly => None,
    }
}

/// The channel that a search from `channel` on ends at, for what reading each entry would give.
pub open spec fn search_from(reads: spec_fn(Channel) -> KeychainRead, channel: Channel) -> Option<
    Channel,
>
    decreases
            match channel {
                Channel::Stable => 2nat,
                Channel::Beta => 1nat,
                Channel::Nightly => 0nat,
            },
{
    if loaded(reads(channel)) is Ok {
        Some(channel)
    } else {
        match next_channel(channel) {
            Some(next) => search_from(reads, next),
            None => None,
        }
    }
}

/// A search finds a batch wherever there is one, and prefers Stable to Beta and Beta to Nightly.
pub proof fn law_discovery_prefers_stable(reads: spec_fn(Channel) -> KeychainRead)
    ensures
        search_from(reads, Channel::Stable) == (if loaded(reads(Channel::Stable)) is Ok {
            Some(Channel::Stable)
        } else if loaded(reads(Channel::Beta)) is Ok {
            Some(Channel::Beta)
        } else if loaded(reads(Channel::Nightly)) is Ok {
            Some(Channel::Nightly)
        } else {
            None
        }),
{
    reveal_with_fuel(search_from, 3);
}

/// What one request for a credential does and gives, for the moment `now` and what presenting
/// gives.
///
/// The first credential usable at `now` is spent, and presented over the batch's issuer. A
/// credential that cannot be presented is spent all the same, and is an error; so is a batch with
/// nothing usable, of which nothing is spent.
pub open spec fn hands_out<P: Fn(&Credential, &str) -> Result<String, DeviceError>>(
    before: ImportedView,
    after: ImportedView,
    now: Seq<char>,
    present: P,
    r: Result<SubscriptionCredential, String>,
) -> bool {
    if before.wallet.batch.nothing_usable(now) {
        &&& r matches Err(message)
        &&& message@ == StoreErrorView::Exhausted.message()
        &&& after == before
    } else {
        exists|index: int, credential: Credential, issuer: String, outcome: Result<
            String,
            DeviceError,
        >|
            {
                &&& #[trigger] before.wallet.batch.first_usable_is(now, index)
                &&& after.wallet == before.wallet.spent_at(index)
                &&& credential@ == after.wallet.batch.credentials[index]
                &&& issuer@ == before.wallet.batch.issuer
                &&& #[trigger] presented(present, credential, issuer, outcome)
                &&& match outcome {
                    Ok(value) => {
                        &&& r matches Ok(cookie)
                        &&& cookie.cookie_name@ == CREDENTIAL_COOKIE_NAME@
                        &&& cookie.cookie_value == value
                        &&& after.remaining matches Some(n)
                        &&& n == after.wallet.batch.unspent()
                    },
                    Err(error) => {
                        &&& r matches Err(message)
                        &&& message@ == error.message()
                        &&& after.remaining == before.remaining
                    },
                }
            }
    }
}

/// Whether presenting a credential over an issuer gave this.
pub open spec fn presented<P: Fn(&Credential, &str) -> Result<String, DeviceError>>(
    present: P,
    credential: Credential,
    issuer: String,
    outcome: Result<String, DeviceError>,
) -> bool {
    exists|text: &str| text@ == issuer@ && #[trigger] call_ensures(
        present,
        (&credential, text),
        outcome,
    )
}

impl ImportedSubscription {
    /// The subscription whose batch reading `channel`'s entry gave, if it gave one.
    pub fn new(channel: Channel, read: KeychainRead) -> (r: Option<Self>)
        ensures
            match loaded(read) {
                Ok(batch) => {
                    &&& r matches Some(subscription)
                    &&& subscription@.wallet == (WalletView {
                        batch,
                        destination: Some(channel),
                        dirty: false,
                    })
                    &&& subscription@.remaining is None
                },
                Err(_) => r is None,
            },
    {
        match Wallet::open(channel, read) {
            Ok(wallet) => Some(ImportedSubscription { wallet, remaining: None }),
            Err(_) => None,
        }
    }

    /// Spend from a batch that is already in hand, with no keychain behind it.
    pub fn detached(batch: StoredCredentials) -> (r: Self)
        ensures
            r@.wallet == (WalletView { batch: batch@, destination: None, dirty: false }),
            r@.remaining is None,
    {
        ImportedSubscription { wallet: Wallet::detached(batch), remaining: None }
    }

    /// Start looking for the first channel with a usable batch.
    ///
    /// Stable is preferred, since that is what someone importing once is most likely to have.
    /// Opening is the same read that checks for one, so no channel is read before the search comes
    /// to it, and none after one is found.
    pub fn discover() -> (r: Discovery)
        ensures
            r == Discovery::Read(Channel::Stable),
    {
        Discovery::Read(Channel::Stable)
    }

    /// Go on looking, once `channel`'s entry was read.
    pub fn discovered(channel: Channel, read: KeychainRead) -> (r: Discovery)
        ensures
            match loaded(read) {
                Ok(batch) => {
                    &&& r matches Discovery::Found(subscription)
                    &&& subscription@.wallet == (WalletView {
                        batch,
                        destination: Some(channel),
                        dirty: false,
                    })
                    &&& subscription@.remaining is None
                },
                Err(_) => match next_channel(channel) {
                    Some(next) => r == Discovery::Read(next),
                    None => r == Discovery::Nothing,
                },
            },
    {
        match ImportedSubscription::new(channel, read) {
            Some(subscription) => Discovery::Found(subscription),
            None => match channel {
                Channel::Stable => Discovery::Read(Channel::Beta),
                Channel::Beta => Discovery::Read(Channel::Nightly),
                Channel::Nightly => Discovery::Nothing,
            },
        }
    }

    /// How many credentials remained after the last one was spent.
    pub fn remaining(&self) -> (r: Option<usize>)
        ensures
            r == self@.remaining,
    {
        self.remaining
    }

    /// The cookie that presents the next credential usable at `now`.
    ///
    /// `present` makes the cookie's value from a credential and the issuer it is presented over.
    pub fn next_credential_at<P: Fn(&Credential, &str) -> Result<String, DeviceError>>(
        &mut self,
        now: &str,
        present: P,
    ) -> (r: Result<SubscriptionCredential, String>)
        requires
            forall|credential: &Credential, issuer: &str| #[trigger]
                call_requires(present, (credential, issuer)),
        ensures
            hands_out(old(self)@, final(self)@, now@, present, r),
    {
        let spent = match self.wallet.spend(now) {
            Ok(spent) => spent,
            Err(error) => {
                return Err(error.to_string());
            },
        };
        let ghost index = choose|index: int|
            {
                &&& #[trigger] old(self)@.wallet.batch.first_usable_is(now@, index)
                &&& self.wallet@ == old(self)@.wallet.spent_at(index)
                &&& spent.credential@ == self.wallet@.batch.credentials[index]
            };
        assert(!old(self)@.wallet.batch.nothing_usable(now@)) by {
            assert(old(self)@.wallet.batch.credentials[index].usable_at(now@));
        }
        let outcome = present(&spent.credential, spent.issuer.as_str());
        assert(presented(present, spent.credential, spent.issuer, outcome));
        match outcome {
            Ok(value) => {
                self.remaining = Some(spent.remaining);
                Ok(
                    SubscriptionCredential {
                        cookie_name: CREDENTIAL_COOKIE_NAME.to_string(),
                        cookie_value: value,
                    },
                )
            },
            Err(error) => Err(error.to_string()),
        }
    }

    /// The cookie that presents the next credential usable now.
    pub fn next_credential<P: Fn(&Credential, &str) -> Result<String, DeviceError>>(
        &mut self,
        present: P,
    ) -> (r: Result<SubscriptionCredential, String>)
        requires
            forall|credential: &Credential, issuer: &str| #[trigger]
                call_requires(present, (credential, issuer)),
        ensures
            exists|moment: SystemTime|
                hands_out(
                    old(self)@,
                    final(self)@,
                    timestamp_text(#[trigger] seconds_at(moment)),
                    present,
                    r,
                ),
    {
        let now = current_timestamp();
        self.next_credential_at(now.as_str(), present)
    }

    /// The write that brings the keychain up to date, if one is due.
    pub fn flush(&self) -> (r: Option<KeychainWrite>)
        ensures
            match r {
                Some(write) => {
                    &&& self@.wallet.dirty
                    &&& self@.wallet.destination matches Some(channel)
                    &&& stores(write, channel, self@.wallet.batch)
                },
                None => !self@.wallet.dirty || self@.wallet.destination is None,
            },
    {
        self.wallet.flush()
    }

    /// Record what the write of a flush came to.
    pub fn flushed(&mut self, outcome: Result<(), String>) -> (r: Result<(), StoreError>)
        ensures
            final(self)@.remaining == old(self)@.remaining,
            match outcome {
                Ok(_) => {
                    &&& r is Ok
                    &&& final(self)@.wallet == (WalletView { dirty: false, ..old(self)@.wallet })
                },
                Err(detail) => {
                    &&& r matches Err(error)
                    &&& error@ == StoreErrorView::Unavailable(detail@)
                    &&& final(self)@.wallet == old(self)@.wallet
                },
            },
    {
        self.wallet.flushed(outcome)
    }
}

/// What asking for a credential does, whatever presenting gives: where one is usable, exactly one is
/// spent, the first, and the batch is due to be written; where none is, nothing happens and the error
/// says how to go on. A cookie has the backend's name and the value that presenting that credential
/// over the batch's issuer gave, and then, and only then, what remains is recorded.
pub proof fn law_asking_spends_one<P: Fn(&Credential, &str) -> Result<String, DeviceError>>(
    before: ImportedView,
    after: ImportedView,
    now: Seq<char>,
    present: P,
    r: Result<SubscriptionCredential, String>,
)
    requires
        hands_out(before, after, now, present, r),
    ensures
        before.wallet.batch.nothing_usable(now) ==> {
            &&& after == before
            &&& r matches Err(message)
            &&& message@
                == "the imported credentials are used up; run `bua import-leo-creds` again"@
        },
        !before.wallet.batch.nothing_usable(now) ==> {
            &&& after.wallet.batch.unspent() == before.wallet.batch.unspent() - 1
            &&& after.wallet.dirty
            &&& after.wallet.destination == before.wallet.destination
            &&& r is Err ==> after.remaining == before.remaining
            &&& r matches Err(message) ==> exists|
                index: int,
                credential: Credential,
                text: &str,
                error: DeviceError,
            |
                {
                    &&& #[trigger] before.wallet.batch.first_usable_is(now, index)
                    &&& credential@.unblinded == before.wallet.batch.credentials[index].unblinded
                    &&& text@ == before.wallet.batch.issuer
                    &&& #[trigger] call_ensures(
                        present,
                        (&credential, text),
                        Err::<String, DeviceError>(error),
                    )
                    &&& message@ == error.message()
                }
        },
        r matches Ok(cookie) ==> {
            &&& cookie.cookie_name@ == "__Secure-sku#brave-leo-premium"@
            &&& after.remaining matches Some(n)
            &&& n == after.wallet.batch.unspent()
            &&& exists|index: int, credential: Credential, text: &str|
                {
                    &&& #[trigger] before.wallet.batch.first_usable_is(now, index)
                    &&& credential@.unblinded == before.wallet.batch.credentials[index].unblinded
                    &&& credential@.rfc == before.wallet.batch.credentials[index].rfc
                    &&& text@ == before.wallet.batch.issuer
                    &&& #[trigger] call_ensures(
                        present,
                        (&credential, text),
                        Ok::<String, DeviceError>(cookie.cookie_value),
                    )
                }
        },
{
    if !before.wallet.batch.nothing_usable(now) {
        let (index, credential, issuer, outcome) = choose|
            index: int,
            credential: Credential,
            issuer: String,
            outcome: Result<String, DeviceError>,
        |
            {
                &&& #[trigger] before.wallet.batch.first_usable_is(now, index)
                &&& after.wallet == before.wallet.spent_at(index)
                &&& credential@ == after.wallet.batch.credentials[index]
                &&& issuer@ == before.wallet.batch.issuer
                &&& #[trigger] presented(present, credential, issuer, outcome)
                &&& match outcome {
                    Ok(value) => {
                        &&& r matches Ok(cookie)
                        &&& cookie.cookie_name@ == CREDENTIAL_COOKIE_NAME@
                        &&& cookie.cookie_value == value
                        &&& after.remaining matches Some(n)
                        &&& n == after.wallet.batch.unspent()
                    },
                    Err(error) => {
                        &&& r matches Err(message)
                        &&& message@ == error.message()
                        &&& after.remaining == before.remaining
                    },
                }
            };
        law_spending_takes_one(before.wallet.batch, now, index);
        let text = choose|text: &str|
            text@ == issuer@ && #[trigger] call_ensures(present, (&credential, text), outcome);
        if let Err(error) = outcome {
            assert(before.wallet.batch.first_usable_is(now, index));
            assert(call_ensures(
                present,
                (&credential, text),
                Err::<String, DeviceError>(error),
            ));
        }
        if let Ok(cookie) = r {
            assert(before.wallet.batch.first_usable_is(now, index));
            assert(call_ensures(
                present,
                (&credential, text),
                Ok::<String, DeviceError>(cookie.cookie_value),
            ));
        }
    }
}

} // verus!
