//! A Leo Premium subscription imported from a locally installed Brave Browser.
//!
//! Only the order id is taken from the browser. The credentials are this install's own: it mints
//! random tokens and has the server sign them, as a second browser on another machine would.

use vstd::prelude::*;

pub mod device;
pub mod profile;
pub mod store;

pub use device::{DeviceError, Registration};
pub use profile::Channel;
pub use store::{StoreError, StoredCredentials};

verus! {

/// Where the credential endpoints live.
///
/// A constant rather than configuration: this is the only place a production subscription can be
/// verified, and making it settable would turn a fixed destination into one an environment could
/// redirect.
pub const PAYMENT_BASE_URL: &'static str = "https://payment.rewards.brave.com";

/// The SKU a Leo Premium subscription is sold under.
pub const LEO_SKU: &'static str = "brave-leo-premium";

/// The order `location` that marks an order as Leo's.
///
/// A subscription to another product sits in the same store, so the product is identified by this
/// rather than by being the only order present.
pub const LEO_LOCATION: &'static str = "leo.brave.com";

/// The cookie the chat backend reads a subscription credential from.
pub const CREDENTIAL_COOKIE_NAME: &'static str = "__Secure-sku#brave-leo-premium";

} // verus!
