//! Keeping the imported credentials in the OS keychain.
//!
//! These are bearer secrets: whoever holds one can spend a request against the subscription. So
//! they go to the platform's own secret store rather than to a file. Each channel gets its own
//! entry, so importing from Nightly does not overwrite what was imported from Stable.
//!
//! A credential is single-use. Presenting one to the backend spends it, so what is stored is the
//! batch the server signed, and a request takes the next unspent one.
//!
//! Nothing here touches the keychain: a caller performs a [`KeychainWrite`] and hands back what a
//! read, a write or a deletion came to.

use crate::json::{
    array_value, as_array, as_str, bool_value, empty_object, get, natural_value, parse, read_bool,
    read_text, set_member, text_value, to_text,
};
use crate::json::{
    bool_or, depth_limit, documents, json_of, json_read, json_text, text_member, text_or_empty, Json,
};
use crate::skus::device::{Registration, SignedCredential};
use crate::skus::profile::{law_channel_names_differ, Channel};
use crate::text::{blank, is_before, is_blank, law_text_order_is_total, text_before};
use serde_json::Value;
use vstd::prelude::*;
use vstd::std_specs::convert::FromSpecImpl;

verus! {

/// The keychain service every entry is filed under.
pub const SERVICE: &'static str = "bua";

/// Why a batch could not be read, written or spent from.
#[derive(Debug)]
pub enum StoreError {
    /// Nothing has been imported for this channel yet.
    NotFound,
    /// The keychain refused, or is unavailable.
    Unavailable { detail: String },
    /// The entry exists but is not what this version writes.
    Malformed { detail: String },
    /// Every credential in the batch has been spent or has expired.
    Exhausted,
}

/// A [`StoreError`] as a mathematical value.
pub enum StoreErrorView {
    NotFound,
    Unavailable(Seq<char>),
    Malformed(Seq<char>),
    Exhausted,
}

impl View for StoreError {
    type V = StoreErrorView;

    open spec fn view(&self) -> StoreErrorView {
        match self {
            StoreError::NotFound => StoreErrorView::NotFound,
            StoreError::Unavailable { detail } => StoreErrorView::Unavailable(detail@),
            StoreError::Malformed { detail } => StoreErrorView::Malformed(detail@),
            StoreError::Exhausted => StoreErrorView::Exhausted,
        }
    }
}

impl StoreErrorView {
    /// What the error says to the user.
    pub open spec fn message(self) -> Seq<char> {
        match self {
            StoreErrorView::NotFound => "no imported Leo subscription found"@,
            StoreErrorView::Unavailable(detail) => "the system keychain is unavailable: "@ + detail,
            StoreErrorView::Malformed(detail) => "the stored credentials are unusable: "@ + detail,
            StoreErrorView::Exhausted =>
                "the imported credentials are used up; run `bua import-leo-creds` again"@,
        }
    }
}

impl StoreError {
    /// What the error says to the user.
    pub fn to_string(&self) -> (r: String)
        ensures
            r@ == self@.message(),
    {
        match self {
            StoreError::NotFound => "no imported Leo subscription found".to_string(),
            StoreError::Unavailable { detail } => {
                "the system keychain is unavailable: ".to_string().concat(detail.as_str())
            },
            StoreError::Malformed { detail } => {
                "the stored credentials are unusable: ".to_string().concat(detail.as_str())
            },
            StoreError::Exhausted => {
                "the imported credentials are used up; run `bua import-leo-creds` again".to_string()
            },
        }
    }
}

/// A signed credential batch, as stored.
#[derive(Debug, PartialEq, Eq)]
pub struct StoredCredentials {
    /// The order the batch belongs to, so a re-import can refresh in place.
    pub order_id: String,
    /// The item the credentials are for.
    pub item_id: String,
    /// `merchant?sku=` string the presentation signs over.
    pub issuer: String,
    /// The unblinded credentials, each usable once.
    pub credentials: Vec<Credential>,
}

/// One single-use credential.
#[derive(Debug, PartialEq, Eq)]
pub struct Credential {
    /// Base64 unblinded token, from which the verification key is derived.
    pub unblinded: String,
    /// Start of the window this credential is valid in, as the server stated it.
    pub valid_from: String,
    /// End of that window.
    pub valid_to: String,
    /// Whether this one has already been presented.
    pub spent: bool,
    /// Which key derivation this token was blinded with.
    ///
    /// Stored per credential because the two derivations yield different verification keys, and
    /// picking the wrong one produces a signature the server rejects with nothing to explain it.
    pub rfc: bool,
}

/// A [`Credential`] as a mathematical value.
pub struct CredentialView {
    pub unblinded: Seq<char>,
    pub valid_from: Seq<char>,
    pub valid_to: Seq<char>,
    pub spent: bool,
    pub rfc: bool,
}

/// [`StoredCredentials`] as a mathematical value.
#[verifier::ext_equal]
pub struct BatchView {
    pub order_id: Seq<char>,
    pub item_id: Seq<char>,
    pub issuer: Seq<char>,
    pub credentials: Seq<CredentialView>,
}

impl View for Credential {
    type V = CredentialView;

    open spec fn view(&self) -> CredentialView {
        CredentialView {
            unblinded: self.unblinded@,
            valid_from: self.valid_from@,
            valid_to: self.valid_to@,
            spent: self.spent,
            rfc: self.rfc,
        }
    }
}

impl View for StoredCredentials {
    type V = BatchView;

    open spec fn view(&self) -> BatchView {
        BatchView {
            order_id: self.order_id@,
            item_id: self.item_id@,
            issuer: self.issuer@,
            credentials: self.credentials@.map_values(|c: Credential| c@),
        }
    }
}

impl Clone for Credential {
    fn clone(&self) -> (r: Self)
        ensures
            r == *self,
    {
        Credential {
            unblinded: self.unblinded.clone(),
            valid_from: self.valid_from.clone(),
            valid_to: self.valid_to.clone(),
            spent: self.spent,
            rfc: self.rfc,
        }
    }
}

impl Clone for StoredCredentials {
    fn clone(&self) -> (r: Self)
        ensures
            r@ == self@,
    {
        let credentials = self.credentials.clone();
        assert(credentials@ =~= self.credentials@) by {
            assert forall|i: int| 0 <= i < credentials@.len() implies credentials@[i]
                == self.credentials@[i] by {
                assert(cloned(self.credentials@[i], credentials@[i]));
            }
        }
        StoredCredentials {
            order_id: self.order_id.clone(),
            item_id: self.item_id.clone(),
            issuer: self.issuer.clone(),
            credentials,
        }
    }
}

impl CredentialView {
    /// Whether this credential can be presented at `now`: it is unspent, its window has begun, and
    /// its window has not ended. The end of a window is not part of it.
    ///
    /// The moments are compared as text: the server's timestamps are fixed-width ISO 8601 in UTC,
    /// which orders as text does.
    pub open spec fn usable_at(self, now: Seq<char>) -> bool {
        &&& !self.spent
        &&& self.valid_from == now || text_before(self.valid_from, now)
        &&& text_before(now, self.valid_to)
    }
}

impl BatchView {
    /// How many credentials are unspent.
    pub open spec fn unspent(self) -> nat {
        self.credentials.filter(|c: CredentialView| !c.spent).len()
    }

    /// Whether `index` is the first credential usable at `now`.
    pub open spec fn first_usable_is(self, now: Seq<char>, index: int) -> bool {
        &&& 0 <= index < self.credentials.len()
        &&& self.credentials[index].usable_at(now)
        &&& forall|i: int| 0 <= i < index ==> !(#[trigger] self.credentials[i]).usable_at(now)
    }

    /// Whether no credential is usable at `now`.
    pub open spec fn nothing_usable(self, now: Seq<char>) -> bool {
        forall|i: int|
            0 <= i < self.credentials.len() ==> !(#[trigger] self.credentials[i]).usable_at(now)
    }

    /// The batch once the credential at `index` is spent.
    pub open spec fn spent_at(self, index: int) -> BatchView {
        BatchView {
            credentials: self.credentials.update(
                index,
                CredentialView { spent: true, ..self.credentials[index] },
            ),
            ..self
        }
    }

    /// Whether every credential has a token.
    pub open spec fn has_tokens(self) -> bool {
        forall|i: int|
            0 <= i < self.credentials.len() ==> (#[trigger] self.credentials[i]).unblinded.len() > 0
    }
}

proof fn lemma_filter_take<A>(s: Seq<A>, keep: spec_fn(A) -> bool, n: int)
    requires
        0 <= n < s.len(),
    ensures
        s.take(n + 1).filter(keep).len() == s.take(n).filter(keep).len() + (if keep(s[n]) {
            1int
        } else {
            0int
        }),
{
    reveal(Seq::filter);
    assert(s.take(n + 1).drop_last() =~= s.take(n));
}

proof fn lemma_filter_update<A>(s: Seq<A>, keep: spec_fn(A) -> bool, n: int, a: A)
    requires
        0 <= n < s.len(),
        keep(s[n]),
        !keep(a),
    ensures
        s.update(n, a).filter(keep).len() == s.filter(keep).len() - 1,
    decreases s.len(),
{
    reveal(Seq::filter);
    let t = s.update(n, a);
    if n == s.len() - 1 {
        assert(t.drop_last() =~= s.drop_last());
    } else {
        assert(t.drop_last() =~= s.drop_last().update(n, a));
        assert(t.last() == s.last());
        lemma_filter_update(s.drop_last(), keep, n, a);
    }
}

impl StoredCredentials {
    /// How many credentials remain unspent.
    pub fn remaining(&self) -> (r: usize)
        ensures
            r == self@.unspent(),
    {
        let ghost keep = |c: CredentialView| !c.spent;
        let ghost all = self@.credentials;
        let mut count: usize = 0;
        let mut i: usize = 0;
        assert(all.take(0).filter(keep).len() == 0) by {
            reveal(Seq::filter);
        }
        while i < self.credentials.len()
            invariant
                i <= self.credentials.len(),
                count <= i,
                all == self@.credentials,
                keep == (|c: CredentialView| !c.spent),
                count == all.take(i as int).filter(keep).len(),
            decreases self.credentials.len() - i,
        {
            proof {
                lemma_filter_take(all, keep, i as int);
            }
            if !self.credentials[i].spent {
                count = count + 1;
            }
            i = i + 1;
        }
        assert(all.take(i as int) =~= all);
        count
    }

    /// The index of the next credential usable at `now`.
    ///
    /// `now` is passed in rather than read from the clock so that the choice depends on nothing
    /// else.
    pub fn next_usable(&self, now: &str) -> (r: Option<usize>)
        ensures
            match r {
                Some(index) => self@.first_usable_is(now@, index as int),
                None => self@.nothing_usable(now@),
            },
    {
        let mut i: usize = 0;
        while i < self.credentials.len()
            invariant
                i <= self.credentials.len(),
                forall|j: int|
                    0 <= j < i ==> !(#[trigger] self@.credentials[j]).usable_at(now@),
            decreases self.credentials.len() - i,
        {
            let c = &self.credentials[i];
            assert(self@.credentials[i as int] == c@);
            proof {
                law_text_order_is_total(c.valid_from@, now@);
            }
            if !c.spent && !is_before(now, c.valid_from.as_str()) && is_before(
                now,
                c.valid_to.as_str(),
            ) {
                return Some(i);
            }
            i = i + 1;
        }
        None
    }
}

/// The credential that a signed one is stored as: the same, and not yet spent.
pub open spec fn stored_unspent(signed: SignedCredential) -> CredentialView {
    CredentialView {
        unblinded: signed.unblinded@,
        valid_from: signed.valid_from@,
        valid_to: signed.valid_to@,
        spent: false,
        rfc: signed.rfc,
    }
}

/// The batch that a registration is stored as.
pub open spec fn batch_of_registration(registration: Registration) -> BatchView {
    BatchView {
        order_id: registration.order_id@,
        item_id: registration.item_id@,
        issuer: registration.issuer@,
        credentials: registration.credentials@.map_values(
            |c: SignedCredential| stored_unspent(c),
        ),
    }
}

impl FromSpecImpl<Registration> for StoredCredentials {
    open spec fn obeys_from_spec() -> bool {
        false
    }

    open spec fn from_spec(v: Registration) -> Self {
        arbitrary()
    }
}

impl From<Registration> for StoredCredentials {
    /// The batch to store for a registration: every credential of it, none of them spent.
    fn from(value: Registration) -> (r: Self)
        ensures
            r@ == batch_of_registration(value),
    {
        let mut credentials: Vec<Credential> = Vec::new();
        let signed = value.credentials;
        let mut i: usize = 0;
        while i < signed.len()
            invariant
                i <= signed.len(),
                credentials.len() == i,
                forall|j: int|
                    0 <= j < i ==> (#[trigger] credentials@[j])@ == stored_unspent(signed@[j]),
            decreases signed.len() - i,
        {
            credentials.push(
                Credential {
                    unblinded: signed[i].unblinded.clone(),
                    valid_from: signed[i].valid_from.clone(),
                    valid_to: signed[i].valid_to.clone(),
                    spent: false,
                    rfc: signed[i].rfc,
                },
            );
            i = i + 1;
        }
        let r = StoredCredentials {
            order_id: value.order_id,
            item_id: value.item_id,
            issuer: value.issuer,
            credentials,
        };
        assert(r@ =~= batch_of_registration(value));
        r
    }
}

/// The stored form of a credential.
pub open spec fn credential_form(c: CredentialView) -> Json {
    Json::Object(
        Map::empty()
            .insert("unblinded"@, Json::Text(c.unblinded))
            .insert("valid_from"@, Json::Text(c.valid_from))
            .insert("valid_to"@, Json::Text(c.valid_to))
            .insert("spent"@, Json::Bool(c.spent))
            .insert("rfc"@, Json::Bool(c.rfc)),
    )
}

/// The stored form of a batch.
pub open spec fn batch_form(batch: BatchView) -> Json {
    Json::Object(
        Map::empty()
            .insert("version"@, Json::Natural(1))
            .insert("order_id"@, Json::Text(batch.order_id))
            .insert("item_id"@, Json::Text(batch.item_id))
            .insert("issuer"@, Json::Text(batch.issuer))
            .insert(
                "credentials"@,
                Json::Array(batch.credentials.map_values(|c: CredentialView| credential_form(c))),
            ),
    )
}

/// What an item of a stored batch is read as. An entry that does not say is unspent, and blinded
/// with the rfc derivation: every batch written here is, so that is the reading for one that
/// predates the member being recorded.
pub open spec fn credential_of(document: Json) -> CredentialView {
    CredentialView {
        unblinded: text_or_empty(document, "unblinded"@),
        valid_from: text_or_empty(document, "valid_from"@),
        valid_to: text_or_empty(document, "valid_to"@),
        spent: bool_or(document, "spent"@, false),
        rfc: bool_or(document, "rfc"@, true),
    }
}

/// How a missing member is reported.
pub open spec fn missing(name: Seq<char>) -> StoreErrorView {
    StoreErrorView::Malformed("missing '"@ + name + "'"@)
}

/// What a stored document is read as.
pub open spec fn batch_of(document: Json) -> Result<BatchView, StoreErrorView> {
    match document.member("credentials"@) {
        Some(Json::Array(items)) => {
            let credentials = items.map_values(|item: Json| credential_of(item));
            if exists|i: int|
                0 <= i < credentials.len() && (#[trigger] credentials[i]).unblinded.len() == 0 {
                Err(StoreErrorView::Malformed("a credential has no token"@))
            } else if text_member(document, "order_id"@) is None {
                Err(missing("order_id"@))
            } else if text_member(document, "item_id"@) is None {
                Err(missing("item_id"@))
            } else if text_member(document, "issuer"@) is None {
                Err(missing("issuer"@))
            } else {
                Ok(
                    BatchView {
                        order_id: text_member(document, "order_id"@)->0,
                        item_id: text_member(document, "item_id"@)->0,
                        issuer: text_member(document, "issuer"@)->0,
                        credentials,
                    },
                )
            }
        },
        _ => Err(missing("credentials"@)),
    }
}

/// What the text of a keychain entry is read as.
///
/// An entry can exist holding nothing, if a write was interrupted partway. It is reported as
/// absent rather than malformed, because the remedy is the same as never having imported.
pub open spec fn decoded(raw: Seq<char>) -> Result<BatchView, StoreErrorView> {
    if blank(raw) {
        Err(StoreErrorView::NotFound)
    } else {
        match json_read(raw) {
            Ok(document) => batch_of(document),
            Err(message) => Err(StoreErrorView::Malformed("not valid JSON: "@ + message)),
        }
    }
}

/// A result of reading a batch, as a mathematical value.
pub open spec fn batch_result(r: Result<StoredCredentials, StoreError>) -> Result<
    BatchView,
    StoreErrorView,
> {
    match r {
        Ok(batch) => Ok(batch@),
        Err(error) => Err(error@),
    }
}

proof fn lemma_member_names_differ()
    ensures
        "version"@ != "order_id"@,
        "version"@ != "item_id"@,
        "version"@ != "issuer"@,
        "version"@ != "credentials"@,
        "order_id"@ != "item_id"@,
        "order_id"@ != "issuer"@,
        "order_id"@ != "credentials"@,
        "item_id"@ != "issuer"@,
        "item_id"@ != "credentials"@,
        "issuer"@ != "credentials"@,
        "unblinded"@ != "valid_from"@,
        "unblinded"@ != "valid_to"@,
        "unblinded"@ != "spent"@,
        "unblinded"@ != "rfc"@,
        "valid_from"@ != "valid_to"@,
        "valid_from"@ != "spent"@,
        "valid_from"@ != "rfc"@,
        "valid_to"@ != "spent"@,
        "valid_to"@ != "rfc"@,
        "spent"@ != "rfc"@,
{
    reveal_strlit("version");
    reveal_strlit("order_id");
    reveal_strlit("item_id");
    reveal_strlit("issuer");
    reveal_strlit("credentials");
    reveal_strlit("unblinded");
    reveal_strlit("valid_from");
    reveal_strlit("valid_to");
    reveal_strlit("spent");
    reveal_strlit("rfc");
    assert("version"@[0] == 'v' && "order_id"@[0] == 'o' && "item_id"@.len() == 7
        && "issuer"@.len() == 6 && "credentials"@[0] == 'c' && "version"@.len() == 7
        && "item_id"@[0] == 'i');
    assert("unblinded"@.len() == 9 && "valid_from"@.len() == 10 && "valid_to"@.len() == 8
        && "spent"@.len() == 5 && "rfc"@.len() == 3);
}

/// A credential's stored form is read as that credential.
proof fn lemma_credential_form_reads_back(c: CredentialView)
    ensures
        credential_of(credential_form(c)) == c,
{
    lemma_member_names_differ();
}

/// A batch's stored form is read as that batch, as long as every credential has a token.
pub proof fn law_batch_form_reads_back(batch: BatchView)
    requires
        batch.has_tokens(),
    ensures
        batch_of(batch_form(batch)) == Ok::<BatchView, StoreErrorView>(batch),
{
    lemma_member_names_differ();
    let items = batch.credentials.map_values(|c: CredentialView| credential_form(c));
    let credentials = items.map_values(|item: Json| credential_of(item));
    assert forall|i: int| 0 <= i < credentials.len() implies credentials[i]
        == batch.credentials[i] by {
        lemma_credential_form_reads_back(batch.credentials[i]);
    }
    assert(credentials =~= batch.credentials);
}

/// A batch with a credential that has no token is refused when its stored form is read.
pub proof fn law_batch_without_a_token_is_refused(batch: BatchView)
    requires
        !batch.has_tokens(),
    ensures
        batch_of(batch_form(batch)) == Err::<BatchView, StoreErrorView>(
            StoreErrorView::Malformed("a credential has no token"@),
        ),
{
    lemma_member_names_differ();
    let items = batch.credentials.map_values(|c: CredentialView| credential_form(c));
    let credentials = items.map_values(|item: Json| credential_of(item));
    let i = choose|i: int|
        0 <= i < batch.credentials.len() && (#[trigger] batch.credentials[i]).unblinded.len() == 0;
    lemma_credential_form_reads_back(batch.credentials[i]);
    assert(credentials[i].unblinded.len() == 0);
}

proof fn lemma_batch_form_is_readable(batch: BatchView)
    ensures
        batch_form(batch).readable(depth_limit()),
{
    let items = batch.credentials.map_values(|c: CredentialView| credential_form(c));
    assert forall|i: int| 0 <= i < items.len() implies (#[trigger] items[i]).readable(125) by {
        reveal_with_fuel(Json::readable, 2);
    }
    reveal_with_fuel(Json::readable, 3);
    assert(Json::Array(items).readable(126));
}

fn credential_value(c: &Credential) -> (r: Value)
    ensures
        json_of(r) == credential_form(c@),
{
    let mut value = empty_object();
    set_member(&mut value, "unblinded", text_value(c.unblinded.as_str()));
    set_member(&mut value, "valid_from", text_value(c.valid_from.as_str()));
    set_member(&mut value, "valid_to", text_value(c.valid_to.as_str()));
    set_member(&mut value, "spent", bool_value(c.spent));
    set_member(&mut value, "rfc", bool_value(c.rfc));
    value
}

/// The text a batch is stored as. Reading it gives the batch back, unless a credential of it has
/// no token: such a batch is refused on reading.
pub fn encode(credentials: &StoredCredentials) -> (r: String)
    ensures
        r@ == json_text(batch_form(credentials@)),
        json_read(r@) == Ok::<Json, Seq<char>>(batch_form(credentials@)),
        credentials@.has_tokens() ==> decoded(r@) == Ok::<BatchView, StoreErrorView>(
            credentials@,
        ),
        !credentials@.has_tokens() ==> decoded(r@) == Err::<BatchView, StoreErrorView>(
            StoreErrorView::Malformed("a credential has no token"@),
        ),
{
    let mut items: Vec<Value> = Vec::new();
    let mut i: usize = 0;
    while i < credentials.credentials.len()
        invariant
            i <= credentials.credentials.len(),
            items.len() == i,
            forall|j: int|
                0 <= j < i ==> json_of(#[trigger] items@[j]) == credential_form(
                    credentials.credentials@[j]@,
                ),
        decreases credentials.credentials.len() - i,
    {
        items.push(credential_value(&credentials.credentials[i]));
        i = i + 1;
    }
    assert(documents(items@) =~= credentials@.credentials.map_values(
        |c: CredentialView| credential_form(c),
    ));
    let mut value = empty_object();
    set_member(&mut value, "version", natural_value(1));
    set_member(&mut value, "order_id", text_value(credentials.order_id.as_str()));
    set_member(&mut value, "item_id", text_value(credentials.item_id.as_str()));
    set_member(&mut value, "issuer", text_value(credentials.issuer.as_str()));
    set_member(&mut value, "credentials", array_value(items));
    proof {
        lemma_batch_form_is_readable(credentials@);
        if credentials@.has_tokens() {
            law_batch_form_reads_back(credentials@);
        } else {
            law_batch_without_a_token_is_refused(credentials@);
        }
    }
    to_text(&value)
}

/// The member `name`, which has to be text.
fn field(value: &Value, name: &str) -> (r: Result<String, StoreError>)
    ensures
        match r {
            Ok(text) => text_member(json_of(*value), name@) == Some(text@),
            Err(error) => {
                &&& text_member(json_of(*value), name@) is None
                &&& error@ == missing(name@)
            },
        },
{
    match get(value, name) {
        Some(member) => match as_str(member) {
            Some(text) => Ok(text.to_string()),
            None => Err(missing_member(name)),
        },
        None => Err(missing_member(name)),
    }
}

fn missing_member(name: &str) -> (r: StoreError)
    ensures
        r@ == missing(name@),
{
    StoreError::Malformed { detail: "missing '".to_string().concat(name).concat("'") }
}

/// The batch that a stored document holds.
pub fn decode_document(value: &Value) -> (r: Result<StoredCredentials, StoreError>)
    ensures
        batch_result(r) == batch_of(json_of(*value)),
{
    let items = match get(value, "credentials") {
        Some(member) => match as_array(member) {
            Some(items) => items,
            None => {
                return Err(missing_member("credentials"));
            },
        },
        None => {
            return Err(missing_member("credentials"));
        },
    };
    let ghost wanted = documents(items@).map_values(|item: Json| credential_of(item));
    let mut credentials: Vec<Credential> = Vec::new();
    let mut tokenless = false;
    let mut i: usize = 0;
    while i < items.len()
        invariant
            i <= items.len(),
            credentials.len() == i,
            wanted == documents(items@).map_values(|item: Json| credential_of(item)),
            forall|j: int| 0 <= j < i ==> (#[trigger] credentials@[j])@ == wanted[j],
            tokenless == exists|j: int| 0 <= j < i && (#[trigger] wanted[j]).unblinded.len() == 0,
        decreases items.len() - i,
    {
        let item = &items[i];
        let credential = Credential {
            unblinded: read_text(item, "unblinded"),
            valid_from: read_text(item, "valid_from"),
            valid_to: read_text(item, "valid_to"),
            spent: read_bool(item, "spent", false),
            rfc: read_bool(item, "rfc", true),
        };
        assert(credential@ == wanted[i as int]);
        if credential.unblinded.as_str().is_empty() {
            tokenless = true;
        }
        credentials.push(credential);
        i = i + 1;
    }
    if tokenless {
        return Err(StoreError::Malformed { detail: "a credential has no token".to_string() });
    }
    let order_id = match field(value, "order_id") {
        Ok(text) => text,
        Err(error) => {
            return Err(error);
        },
    };
    let item_id = match field(value, "item_id") {
        Ok(text) => text,
        Err(error) => {
            return Err(error);
        },
    };
    let issuer = match field(value, "issuer") {
        Ok(text) => text,
        Err(error) => {
            return Err(error);
        },
    };
    let batch = StoredCredentials { order_id, item_id, issuer, credentials };
    assert(batch@.credentials =~= wanted);
    Ok(batch)
}

/// The batch that the text of a keychain entry holds.
pub fn decode(raw: &str) -> (r: Result<StoredCredentials, StoreError>)
    ensures
        batch_result(r) == decoded(raw@),
{
    if is_blank(raw) {
        return Err(StoreError::NotFound);
    }
    match parse(raw) {
        Ok(value) => decode_document(&value),
        Err(message) => Err(
            StoreError::Malformed {
                detail: "not valid JSON: ".to_string().concat(message.as_str()),
            },
        ),
    }
}

/// A keychain entry: the service and the user it is filed under.
#[derive(Debug, PartialEq, Eq)]
pub struct KeychainEntry {
    pub service: String,
    pub user: String,
}

/// A secret to write to a keychain entry, replacing whatever was there.
pub struct KeychainWrite {
    pub entry: KeychainEntry,
    pub secret: String,
}

/// What reading a keychain entry came to.
pub enum KeychainRead {
    /// The entry holds this.
    Found { secret: String },
    /// There is no such entry.
    NoEntry,
    /// The keychain refused, or is unavailable.
    Failed { detail: String },
}

/// What deleting a keychain entry came to.
pub enum KeychainDelete {
    /// The entry is gone.
    Deleted,
    /// There was no such entry.
    NoEntry,
    /// The keychain refused, or is unavailable.
    Failed { detail: String },
}

/// The user that a channel's entry is filed under.
pub open spec fn entry_user(channel: Channel) -> Seq<char> {
    "leo-premium-"@ + channel.name()
}

/// Each channel keeps its own entry, so importing from one does not overwrite another.
pub proof fn law_each_channel_is_stored_separately(a: Channel, b: Channel)
    requires
        a != b,
    ensures
        entry_user(a) != entry_user(b),
{
    law_channel_names_differ(a, b);
    let n = "leo-premium-"@.len() as int;
    assert(entry_user(a).skip(n) =~= a.name());
    assert(entry_user(b).skip(n) =~= b.name());
}

/// The keychain entry for a channel's credentials.
pub fn entry(channel: Channel) -> (r: KeychainEntry)
    ensures
        r.service@ == SERVICE@,
        r.user@ == entry_user(channel),
{
    KeychainEntry {
        service: SERVICE.to_string(),
        user: "leo-premium-".to_string().concat(channel.as_str()),
    }
}

/// Whether `write` stores `batch` for `channel`: it goes to the channel's own entry, and what it
/// writes is the batch's stored form, which is read as the batch again unless a credential of it
/// has no token.
pub open spec fn stores(write: KeychainWrite, channel: Channel, batch: BatchView) -> bool {
    &&& write.entry.service@ == SERVICE@
    &&& write.entry.user@ == entry_user(channel)
    &&& write.secret@ == json_text(batch_form(batch))
    &&& batch.has_tokens() ==> decoded(write.secret@) == Ok::<BatchView, StoreErrorView>(batch)
    &&& !batch.has_tokens() ==> decoded(write.secret@) == Err::<BatchView, StoreErrorView>(
        StoreErrorView::Malformed("a credential has no token"@),
    )
}

/// The write that stores a batch, replacing whatever was there.
pub fn save(channel: Channel, credentials: &StoredCredentials) -> (r: KeychainWrite)
    ensures
        stores(r, channel, credentials@),
{
    KeychainWrite { entry: entry(channel), secret: encode(credentials) }
}

/// What a write to the keychain came to: a failure means that the keychain is unavailable.
pub fn saved(outcome: Result<(), String>) -> (r: Result<(), StoreError>)
    ensures
        match outcome {
            Ok(_) => r is Ok,
            Err(detail) => r matches Err(error) && error@ == StoreErrorView::Unavailable(detail@),
        },
{
    match outcome {
        Ok(_) => Ok(()),
        Err(detail) => Err(StoreError::Unavailable { detail }),
    }
}

/// What reading a channel's entry gives.
pub open spec fn loaded(read: KeychainRead) -> Result<BatchView, StoreErrorView> {
    match read {
        KeychainRead::Found { secret } => decoded(secret@),
        KeychainRead::NoEntry => Err(StoreErrorView::NotFound),
        KeychainRead::Failed { detail } => Err(StoreErrorView::Unavailable(detail@)),
    }
}

/// The batch that reading a channel's entry gave.
pub fn load(read: KeychainRead) -> (r: Result<StoredCredentials, StoreError>)
    ensures
        batch_result(r) == loaded(read),
{
    match read {
        KeychainRead::Found { secret } => decode(secret.as_str()),
        KeychainRead::NoEntry => Err(StoreError::NotFound),
        KeychainRead::Failed { detail } => Err(StoreError::Unavailable { detail }),
    }
}

/// What forgetting a channel's batch came to. There being nothing to forget is no failure.
pub fn clear(outcome: KeychainDelete) -> (r: Result<(), StoreError>)
    ensures
        match outcome {
            KeychainDelete::Deleted => r is Ok,
            KeychainDelete::NoEntry => r is Ok,
            KeychainDelete::Failed { detail } => {
                r matches Err(error) && error@ == StoreErrorView::Unavailable(detail@)
            },
        },
{
    match outcome {
        KeychainDelete::Deleted | KeychainDelete::NoEntry => Ok(()),
        KeychainDelete::Failed { detail } => Err(StoreError::Unavailable { detail }),
    }
}

/// A batch held open for a session, spending from memory.
///
/// Reading the keychain prompts the user, and a credential is spent on every model request, so
/// the batch is read once, spent from memory, and the spent markers are written back when
/// [`Wallet::flush`] is asked for.
///
/// The failure mode is losing spend markers if the process dies, which means a credential that was
/// presented is still recorded as unspent. That is deliberately the direction to fail in.
pub struct Wallet {
    batch: StoredCredentials,
    /// Where a flush writes to, or `None` for a detached batch that must never be written.
    destination: Option<Channel>,
    /// Whether anything has been spent since the last write.
    dirty: bool,
}

/// A [`Wallet`] as a mathematical value.
#[verifier::ext_equal]
pub struct WalletView {
    pub batch: BatchView,
    pub destination: Option<Channel>,
    pub dirty: bool,
}

impl View for Wallet {
    type V = WalletView;

    closed spec fn view(&self) -> WalletView {
        WalletView { batch: self.batch@, destination: self.destination, dirty: self.dirty }
    }
}

/// A credential taken out of the store, already recorded as used.
#[derive(Debug)]
pub struct Spent {
    pub credential: Credential,
    /// The issuer string this credential's presentation signs over.
    pub issuer: String,
    /// How many are left, so a caller can warn before the batch runs out.
    pub remaining: usize,
}

impl Clone for Spent {
    fn clone(&self) -> (r: Self)
        ensures
            r == *self,
    {
        Spent {
            credential: self.credential.clone(),
            issuer: self.issuer.clone(),
            remaining: self.remaining,
        }
    }
}

impl WalletView {
    /// The wallet once the credential at `index` is spent in memory.
    pub open spec fn spent_at(self, index: int) -> WalletView {
        WalletView { batch: self.batch.spent_at(index), dirty: true, ..self }
    }
}

impl Wallet {
    /// A wallet for the batch that reading `channel`'s entry gave.
    pub fn open(channel: Channel, read: KeychainRead) -> (r: Result<Self, StoreError>)
        ensures
            match r {
                Ok(wallet) => {
                    &&& loaded(read) == Ok::<BatchView, StoreErrorView>(wallet@.batch)
                    &&& wallet@.destination == Some(channel)
                    &&& !wallet@.dirty
                },
                Err(error) => loaded(read) == Err::<BatchView, StoreErrorView>(error@),
            },
    {
        match load(read) {
            Ok(batch) => Ok(Wallet { batch, destination: Some(channel), dirty: false }),
            Err(error) => Err(error),
        }
    }

    /// Hold a batch that is already in hand, with no keychain behind it.
    ///
    /// Spending and flushing behave normally, but there is never anything to write.
    pub fn detached(batch: StoredCredentials) -> (r: Self)
        ensures
            r@ == (WalletView { batch: batch@, destination: None, dirty: false }),
    {
        Wallet { batch, destination: None, dirty: false }
    }

    /// Take the next credential usable at `now`, marking it spent in memory.
    pub fn spend(&mut self, now: &str) -> (r: Result<Spent, StoreError>)
        ensures
            match r {
                Ok(spent) => exists|index: int|
                    {
                        &&& #[trigger] old(self)@.batch.first_usable_is(now@, index)
                        &&& final(self)@ == old(self)@.spent_at(index)
                        &&& spent.credential@ == final(self)@.batch.credentials[index]
                        &&& spent.issuer@ == old(self)@.batch.issuer
                        &&& spent.remaining == final(self)@.batch.unspent()
                    },
                Err(error) => {
                    &&& old(self)@.batch.nothing_usable(now@)
                    &&& error@ == StoreErrorView::Exhausted
                    &&& final(self)@ == old(self)@
                },
            },
            final(self)@.batch == after_spends(old(self)@.batch, seq![now@]),
    {
        let index = match self.batch.next_usable(now) {
            Some(index) => index,
            None => {
                proof {
                    law_exhaustion_lasts(self@.batch, now@);
                }
                return Err(StoreError::Exhausted);
            },
        };
        let mut credential = self.batch.credentials[index].clone();
        credential.spent = true;
        self.batch.credentials.set(index, credential.clone());
        self.dirty = true;
        assert(self@ =~= old(self)@.spent_at(index as int));
        let remaining = self.batch.remaining();
        assert(old(self)@.batch.first_usable_is(now@, index as int));
        proof {
            law_a_spend_is_one_step(old(self)@.batch, now@, index as int);
        }
        Ok(Spent { credential, issuer: self.batch.issuer.clone(), remaining })
    }

    /// The write that brings the keychain up to date, if one is due.
    ///
    /// None is due when nothing was spent, so an idle session never touches the keychain and never
    /// prompts, and none is ever due for a detached batch, which has nowhere to write. Once the
    /// write was tried, [`Wallet::flushed`] takes what it came to.
    pub fn flush(&self) -> (r: Option<KeychainWrite>)
        ensures
            match r {
                Some(write) => {
                    &&& self@.dirty
                    &&& self@.destination matches Some(channel)
                    &&& stores(write, channel, self@.batch)
                },
                None => !self@.dirty || self@.destination is None,
            },
    {
        match self.destination {
            Some(channel) => if self.dirty {
                Some(save(channel, &self.batch))
            } else {
                None
            },
            None => None,
        }
    }

    /// Record what the write of a flush came to. Only a write that succeeded settles the spends:
    /// after one that failed they are still due.
    pub fn flushed(&mut self, outcome: Result<(), String>) -> (r: Result<(), StoreError>)
        ensures
            match outcome {
                Ok(_) => {
                    &&& r is Ok
                    &&& final(self)@ == (WalletView { dirty: false, ..old(self)@ })
                },
                Err(detail) => {
                    &&& r matches Err(error)
                    &&& error@ == StoreErrorView::Unavailable(detail@)
                    &&& final(self)@ == old(self)@
                },
            },
    {
        match saved(outcome) {
            Ok(_) => {
                self.dirty = false;
                Ok(())
            },
            Err(error) => Err(error),
        }
    }

    /// How many credentials remain unspent.
    pub fn remaining(&self) -> (r: usize)
        ensures
            r == self@.batch.unspent(),
    {
        self.batch.remaining()
    }

    /// Where a flush writes to, or `None` for a detached batch.
    pub fn destination(&self) -> (r: Option<Channel>)
        ensures
            r == self@.destination,
    {
        self.destination
    }

    /// Whether anything has been spent since the last write.
    pub fn dirty(&self) -> (r: bool)
        ensures
            r == self@.dirty,
    {
        self.dirty
    }
}

/// At most one credential is the first usable one.
pub proof fn law_next_usable_is_unique(batch: BatchView, now: Seq<char>, a: int, b: int)
    requires
        batch.first_usable_is(now, a),
        batch.first_usable_is(now, b),
    ensures
        a == b,
{
    if a < b {
        assert(!batch.credentials[a].usable_at(now));
    } else if b < a {
        assert(!batch.credentials[b].usable_at(now));
    }
}

/// Spending takes exactly one credential out of the count, and changes nothing else about the
/// batch.
pub proof fn law_spending_takes_one(batch: BatchView, now: Seq<char>, index: int)
    requires
        batch.first_usable_is(now, index),
    ensures
        batch.spent_at(index).unspent() == batch.unspent() - 1,
        batch.spent_at(index).order_id == batch.order_id,
        batch.spent_at(index).item_id == batch.item_id,
        batch.spent_at(index).issuer == batch.issuer,
        batch.spent_at(index).credentials.len() == batch.credentials.len(),
        forall|i: int|
            0 <= i < batch.credentials.len() && i != index ==> batch.spent_at(index).credentials[i]
                == batch.credentials[i],
{
    lemma_filter_update(
        batch.credentials,
        |c: CredentialView| !c.spent,
        index,
        CredentialView { spent: true, ..batch.credentials[index] },
    );
}

/// The batch after a series of moments at which a credential was asked for, in order.
pub open spec fn after_spends(batch: BatchView, moments: Seq<Seq<char>>) -> BatchView
    decreases moments.len(),
{
    if moments.len() == 0 {
        batch
    } else {
        let before = after_spends(batch, moments.drop_last());
        if before.nothing_usable(moments.last()) {
            before
        } else {
            before.spent_at(next_index(before, moments.last()))
        }
    }
}

/// The credential that is handed out at `now`.
pub open spec fn next_index(batch: BatchView, now: Seq<char>) -> int {
    choose|index: int| batch.first_usable_is(now, index)
}

proof fn lemma_first_usable_exists(batch: BatchView, now: Seq<char>, from: int)
    requires
        !batch.nothing_usable(now),
        0 <= from <= batch.credentials.len(),
        forall|i: int| 0 <= i < from ==> !(#[trigger] batch.credentials[i]).usable_at(now),
    ensures
        batch.first_usable_is(now, next_index(batch, now)),
    decreases batch.credentials.len() - from,
{
    if from < batch.credentials.len() {
        if batch.credentials[from].usable_at(now) {
            assert(batch.first_usable_is(now, from));
        } else {
            lemma_first_usable_exists(batch, now, from + 1);
        }
    }
}

/// A spend is one step of such a series.
pub proof fn law_a_spend_is_one_step(batch: BatchView, now: Seq<char>, index: int)
    requires
        batch.first_usable_is(now, index),
    ensures
        after_spends(batch, seq![now]) == batch.spent_at(index),
{
    assert(seq![now].drop_last() =~= Seq::empty());
    assert(after_spends(batch, Seq::empty()) == batch);
    assert(batch.credentials[index].usable_at(now));
    lemma_first_usable_exists(batch, now, 0);
    law_next_usable_is_unique(batch, now, index, next_index(batch, now));
}

/// A credential once spent stays spent, whatever is asked for afterwards.
pub proof fn law_spent_stays_spent(batch: BatchView, moments: Seq<Seq<char>>, index: int)
    requires
        0 <= index < batch.credentials.len(),
        batch.credentials[index].spent,
    ensures
        after_spends(batch, moments).credentials.len() == batch.credentials.len(),
        after_spends(batch, moments).credentials[index].spent,
    decreases moments.len(),
{
    if moments.len() > 0 {
        law_spent_stays_spent(batch, moments.drop_last(), index);
        let before = after_spends(batch, moments.drop_last());
        if !before.nothing_usable(moments.last()) {
            lemma_first_usable_exists(before, moments.last(), 0);
        }
    }
}

/// No credential is handed out twice: what is handed out at some moment is not what is handed out
/// at any later one, however many requests come between.
pub proof fn law_no_credential_is_handed_out_twice(
    batch: BatchView,
    now: Seq<char>,
    between: Seq<Seq<char>>,
    later: Seq<char>,
    first: int,
    second: int,
)
    requires
        batch.first_usable_is(now, first),
        after_spends(batch.spent_at(first), between).first_usable_is(later, second),
    ensures
        first != second,
{
    law_spent_stays_spent(batch.spent_at(first), between, first);
}

/// The credentials that are handed out at a series of moments, in order, by their places in the
/// batch.
pub open spec fn handed_out(batch: BatchView, moments: Seq<Seq<char>>) -> Seq<int>
    decreases moments.len(),
{
    if moments.len() == 0 {
        Seq::empty()
    } else {
        let before = after_spends(batch, moments.drop_last());
        let earlier = handed_out(batch, moments.drop_last());
        if before.nothing_usable(moments.last()) {
            earlier
        } else {
            earlier.push(next_index(before, moments.last()))
        }
    }
}

/// However many credentials are asked for, as many are handed out as the count goes down by, all of
/// them different and none of them spent before; and what changes about the batch is that these are
/// now marked as spent, and nothing else.
pub proof fn law_a_series_of_spends_adds_up(batch: BatchView, moments: Seq<Seq<char>>)
    ensures
        handed_out(batch, moments).len() == batch.unspent() - after_spends(
            batch,
            moments,
        ).unspent(),
        handed_out(batch, moments).no_duplicates(),
        forall|k: int|
            0 <= k < handed_out(batch, moments).len() ==> {
                let index = #[trigger] handed_out(batch, moments)[k];
                0 <= index < batch.credentials.len() && !batch.credentials[index].spent
            },
        after_spends(batch, moments).order_id == batch.order_id,
        after_spends(batch, moments).item_id == batch.item_id,
        after_spends(batch, moments).issuer == batch.issuer,
        after_spends(batch, moments).credentials.len() == batch.credentials.len(),
        forall|i: int|
            0 <= i < batch.credentials.len() ==> (#[trigger] after_spends(
                batch,
                moments,
            ).credentials[i]) == (CredentialView {
                spent: batch.credentials[i].spent || handed_out(batch, moments).contains(i),
                ..batch.credentials[i]
            }),
    decreases moments.len(),
{
    if moments.len() > 0 {
        law_a_series_of_spends_adds_up(batch, moments.drop_last());
        let before = after_spends(batch, moments.drop_last());
        let earlier = handed_out(batch, moments.drop_last());
        let now = moments.last();
        if !before.nothing_usable(now) {
            lemma_first_usable_exists(before, now, 0);
            let index = next_index(before, now);
            law_spending_takes_one(before, now, index);
            assert(!before.credentials[index].spent);
            assert(!earlier.contains(index));
            let after = before.spent_at(index);
            let all = earlier.push(index);
            assert forall|i: int| 0 <= i < batch.credentials.len() implies all.contains(i) == (
            earlier.contains(i) || i == index) by {
                if earlier.contains(i) {
                    let k = choose|k: int| 0 <= k < earlier.len() && earlier[k] == i;
                    assert(all[k] == i);
                }
                assert(all[earlier.len() as int] == index);
            }
            assert forall|i: int| 0 <= i < batch.credentials.len() implies (
            #[trigger] after.credentials[i]) == (CredentialView {
                spent: batch.credentials[i].spent || all.contains(i),
                ..batch.credentials[i]
            }) by {
                assert(before.credentials[i] == (CredentialView {
                    spent: batch.credentials[i].spent || earlier.contains(i),
                    ..batch.credentials[i]
                }));
            }
        }
    }
}

/// Once nothing is usable at a moment, asking again at that moment changes nothing.
pub proof fn law_exhaustion_lasts(batch: BatchView, now: Seq<char>)
    requires
        batch.nothing_usable(now),
    ensures
        after_spends(batch, seq![now]) == batch,
{
    assert(seq![now].drop_last() =~= Seq::empty());
    assert(after_spends(batch, Seq::empty()) == batch);
}

/// Every credential of a batch that was read has a token.
pub proof fn law_what_is_read_has_tokens(raw: Seq<char>)
    ensures
        decoded(raw) matches Ok(batch) ==> batch.has_tokens(),
{
}

/// A batch that was saved is loaded again, as long as every credential of it has a token.
pub proof fn law_a_saved_batch_is_loaded_again(
    write: KeychainWrite,
    channel: Channel,
    batch: BatchView,
)
    requires
        stores(write, channel, batch),
        batch.has_tokens(),
    ensures
        loaded(KeychainRead::Found { secret: write.secret }) == Ok::<BatchView, StoreErrorView>(
            batch,
        ),
{
}

proof fn lemma_spends_keep_tokens(batch: BatchView, moments: Seq<Seq<char>>)
    requires
        batch.has_tokens(),
    ensures
        after_spends(batch, moments).has_tokens(),
    decreases moments.len(),
{
    if moments.len() > 0 {
        lemma_spends_keep_tokens(batch, moments.drop_last());
        let before = after_spends(batch, moments.drop_last());
        if !before.nothing_usable(moments.last()) {
            lemma_first_usable_exists(before, moments.last(), 0);
        }
    }
}

/// What a session spent is found spent by the next one: once the batch that was loaded has been
/// spent from and the write of a flush went through, loading gives exactly what was written.
pub proof fn law_spent_markers_survive_a_flush(
    read: KeychainRead,
    batch: BatchView,
    moments: Seq<Seq<char>>,
    write: KeychainWrite,
    channel: Channel,
)
    requires
        loaded(read) == Ok::<BatchView, StoreErrorView>(batch),
        stores(write, channel, after_spends(batch, moments)),
    ensures
        loaded(KeychainRead::Found { secret: write.secret }) == Ok::<BatchView, StoreErrorView>(
            after_spends(batch, moments),
        ),
{
    lemma_spends_keep_tokens(batch, moments);
    law_a_saved_batch_is_loaded_again(write, channel, after_spends(batch, moments));
}

/// A spend never changes where a wallet writes to, so a detached one never gets a destination.
pub proof fn law_spending_keeps_the_destination(wallet: WalletView, index: int)
    ensures
        wallet.spent_at(index).destination == wallet.destination,
        wallet.spent_at(index).dirty,
{
}

proof fn lemma_all_unspent(batch: BatchView)
    requires
        forall|i: int| 0 <= i < batch.credentials.len() ==> !(#[trigger] batch.credentials[i]).spent,
    ensures
        batch.unspent() == batch.credentials.len(),
    decreases batch.credentials.len(),
{
    reveal(Seq::filter);
    if batch.credentials.len() > 0 {
        let rest = BatchView { credentials: batch.credentials.drop_last(), ..batch };
        assert forall|i: int| 0 <= i < rest.credentials.len() implies !(
        #[trigger] rest.credentials[i]).spent by {
            assert(rest.credentials[i] == batch.credentials[i]);
        }
        lemma_all_unspent(rest);
        assert(!batch.credentials[batch.credentials.len() - 1].spent);
    }
}

/// Every credential that was signed is stored, in its place, with its token, its window and its
/// derivation, and none of them is spent: so all of them remain.
pub proof fn law_every_signed_credential_is_stored(registration: Registration)
    ensures
        ({
            let batch = batch_of_registration(registration);
            let signed = registration.credentials@;
            &&& batch.order_id == registration.order_id@
            &&& batch.item_id == registration.item_id@
            &&& batch.issuer == registration.issuer@
            &&& batch.credentials.len() == signed.len()
            &&& forall|i: int|
                #![trigger signed[i]]
                #![trigger batch.credentials[i]]
                0 <= i < signed.len() ==> {
                    &&& batch.credentials[i].unblinded == signed[i].unblinded@
                    &&& batch.credentials[i].valid_from == signed[i].valid_from@
                    &&& batch.credentials[i].valid_to == signed[i].valid_to@
                    &&& batch.credentials[i].rfc == signed[i].rfc
                    &&& !batch.credentials[i].spent
                }
            &&& batch.unspent() == signed.len()
        }),
{
    lemma_all_unspent(batch_of_registration(registration));
}

/// The count of unspent credentials: none in an empty batch, and each credential counts once unless
/// it is spent.
pub proof fn law_each_unspent_credential_counts_once(batch: BatchView, more: CredentialView)
    ensures
        batch.credentials.len() == 0 ==> batch.unspent() == 0,
        (BatchView { credentials: batch.credentials.push(more), ..batch }).unspent()
            == batch.unspent() + (if more.spent {
            0int
        } else {
            1int
        }),
{
    reveal(Seq::filter);
    assert(batch.credentials.push(more).drop_last() =~= batch.credentials);
}

/// A credential is usable exactly while it is unspent and its window lasts: from its start on, and
/// up to its end, which is not part of it. Nothing else about it matters.
pub proof fn law_usable_means_unspent_and_in_its_window(c: CredentialView, now: Seq<char>)
    ensures
        c.usable_at(now) <==> (!c.spent && !text_before(now, c.valid_from) && text_before(
            now,
            c.valid_to,
        )),
        c.spent ==> !c.usable_at(now),
        now == c.valid_to ==> !c.usable_at(now),
        !c.spent && now == c.valid_from && text_before(c.valid_from, c.valid_to) ==> c.usable_at(
            now,
        ),
{
    law_text_order_is_total(c.valid_from, now);
    law_text_order_is_total(c.valid_to, now);
}

/// The credential that is handed out is usable, and comes before every other usable one; and one is
/// handed out wherever one is usable.
pub proof fn law_the_first_usable_is_handed_out(batch: BatchView, now: Seq<char>, index: int, other: int)
    requires
        0 <= other < batch.credentials.len(),
        batch.credentials[other].usable_at(now),
    ensures
        batch.first_usable_is(now, index) ==> 0 <= index <= other
            && batch.credentials[index].usable_at(now),
        !batch.nothing_usable(now),
        batch.first_usable_is(now, next_index(batch, now)),
{
    lemma_first_usable_exists(batch, now, 0);
}

/// A spend marks the credential that was handed out, and only marks it.
pub proof fn law_a_spend_marks_what_it_hands_out(wallet: WalletView, index: int)
    requires
        0 <= index < wallet.batch.credentials.len(),
    ensures
        ({
            let after = wallet.spent_at(index);
            let before = wallet.batch.credentials[index];
            let marked = after.batch.credentials[index];
            &&& marked.spent
            &&& marked.unblinded == before.unblinded && marked.rfc == before.rfc
            &&& marked.valid_from == before.valid_from && marked.valid_to == before.valid_to
            &&& after.batch.credentials.len() == wallet.batch.credentials.len()
            &&& forall|i: int|
                0 <= i < wallet.batch.credentials.len() && i != index ==> (
                #[trigger] after.batch.credentials[i]) == wallet.batch.credentials[i]
            &&& after.batch.order_id == wallet.batch.order_id
            &&& after.batch.item_id == wallet.batch.item_id
            &&& after.batch.issuer == wallet.batch.issuer
            &&& after.dirty && after.destination == wallet.destination
        }),
{
}

/// The stored form of a batch holds everything of it under the names that are looked for on reading,
/// and every credential in its place.
pub proof fn law_the_stored_form_holds_everything(batch: BatchView)
    ensures
        batch_form(batch) matches Json::Object(members) && {
            &&& members.contains_pair("version"@, Json::Natural(1))
            &&& members.contains_pair("order_id"@, Json::Text(batch.order_id))
            &&& members.contains_pair("item_id"@, Json::Text(batch.item_id))
            &&& members.contains_pair("issuer"@, Json::Text(batch.issuer))
            &&& members.contains_key("credentials"@)
            &&& members["credentials"@] matches Json::Array(items) && {
                &&& items.len() == batch.credentials.len()
                &&& forall|i: int|
                    #![trigger items[i]]
                    #![trigger batch.credentials[i]]
                    0 <= i < items.len() ==> (items[i] matches Json::Object(item) && {
                        &&& item.contains_pair(
                            "unblinded"@,
                            Json::Text(batch.credentials[i].unblinded),
                        )
                        &&& item.contains_pair(
                            "valid_from"@,
                            Json::Text(batch.credentials[i].valid_from),
                        )
                        &&& item.contains_pair(
                            "valid_to"@,
                            Json::Text(batch.credentials[i].valid_to),
                        )
                        &&& item.contains_pair("spent"@, Json::Bool(batch.credentials[i].spent))
                        &&& item.contains_pair("rfc"@, Json::Bool(batch.credentials[i].rfc))
                    })
            }
        },
{
    lemma_member_names_differ();
    let members = batch_form(batch)->Object_0;
    let items = members["credentials"@]->Array_0;
    assert(items == batch.credentials.map_values(|c: CredentialView| credential_form(c)));
    assert forall|i: int| 0 <= i < items.len() implies #[trigger] items[i] == credential_form(
        batch.credentials[i],
    ) by {}
}

/// What an item of a stored batch is read as, member by member: what is missing or of another type
/// is no text, unspent, and of the rfc derivation.
pub proof fn law_an_item_is_read_member_by_member(
    item: Map<Seq<char>, Json>,
    text: Seq<char>,
    b: bool,
)
    ensures
        ({
            let c = credential_of(Json::Object(item));
            &&& item.contains_pair("unblinded"@, Json::Text(text)) ==> c.unblinded == text
            &&& !(item.contains_key("unblinded"@) && item["unblinded"@] is Text)
                ==> c.unblinded.len() == 0
            &&& item.contains_pair("valid_from"@, Json::Text(text)) ==> c.valid_from == text
            &&& !(item.contains_key("valid_from"@) && item["valid_from"@] is Text)
                ==> c.valid_from.len() == 0
            &&& item.contains_pair("valid_to"@, Json::Text(text)) ==> c.valid_to == text
            &&& !(item.contains_key("valid_to"@) && item["valid_to"@] is Text) ==> c.valid_to.len()
                == 0
            &&& item.contains_pair("spent"@, Json::Bool(b)) ==> c.spent == b
            &&& !(item.contains_key("spent"@) && item["spent"@] is Bool) ==> !c.spent
            &&& item.contains_pair("rfc"@, Json::Bool(b)) ==> c.rfc == b
            &&& !(item.contains_key("rfc"@) && item["rfc"@] is Bool) ==> c.rfc
        }),
{
}

/// What a stored document is read as: the whole of it where every credential has a token and every
/// name is there, and otherwise the first thing that is wrong with it.
pub proof fn law_a_stored_document_is_read_whole(
    members: Map<Seq<char>, Json>,
    items: Seq<Json>,
    order_id: Seq<char>,
    item_id: Seq<char>,
    issuer: Seq<char>,
    k: int,
)
    requires
        members.contains_pair("credentials"@, Json::Array(items)),
    ensures
        ({
            let read = batch_of(Json::Object(members));
            let named = |name: Seq<char>| members.contains_key(name) && members[name] is Text;
            let tokens = forall|i: int|
                0 <= i < items.len() ==> credential_of(#[trigger] items[i]).unblinded.len() > 0;
            &&& 0 <= k < items.len() && credential_of(items[k]).unblinded.len() == 0 ==> read
                == Err::<BatchView, StoreErrorView>(
                StoreErrorView::Malformed("a credential has no token"@),
            )
            &&& tokens && !named("order_id"@) ==> read == Err::<BatchView, StoreErrorView>(
                StoreErrorView::Malformed("missing '"@ + "order_id"@ + "'"@),
            )
            &&& tokens && named("order_id"@) && !named("item_id"@) ==> read == Err::<
                BatchView,
                StoreErrorView,
            >(StoreErrorView::Malformed("missing '"@ + "item_id"@ + "'"@))
            &&& tokens && named("order_id"@) && named("item_id"@) && !named("issuer"@) ==> read == Err::<
                BatchView,
                StoreErrorView,
            >(StoreErrorView::Malformed("missing '"@ + "issuer"@ + "'"@))
            &&& tokens && members.contains_pair("order_id"@, Json::Text(order_id))
                && members.contains_pair("item_id"@, Json::Text(item_id)) && members.contains_pair(
                "issuer"@,
                Json::Text(issuer),
            ) ==> {
                &&& read matches Ok(batch)
                &&& batch.order_id == order_id
                &&& batch.item_id == item_id
                &&& batch.issuer == issuer
                &&& batch.credentials.len() == items.len()
                &&& forall|i: int|
                    0 <= i < items.len() ==> batch.credentials[i] == credential_of(
                        #[trigger] items[i],
                    )
            }
        }),
{
    let credentials = items.map_values(|item: Json| credential_of(item));
    assert(forall|i: int|
        0 <= i < items.len() ==> credentials[i] == credential_of(#[trigger] items[i]));
    if 0 <= k < items.len() {
        assert(credentials[k] == credential_of(items[k]));
    }
    if exists|i: int|
        0 <= i < credentials.len() && (#[trigger] credentials[i]).unblinded.len() == 0 {
        let i = choose|i: int|
            0 <= i < credentials.len() && (#[trigger] credentials[i]).unblinded.len() == 0;
        assert(credential_of(items[i]).unblinded.len() == 0);
    }
}

/// A document without a list of credentials is refused, whatever else it holds.
pub proof fn law_a_document_without_credentials_is_refused(document: Json)
    requires
        !(document matches Json::Object(members) && members.contains_key("credentials"@)
            && members["credentials"@] is Array),
    ensures
        batch_of(document) == Err::<BatchView, StoreErrorView>(
            StoreErrorView::Malformed("missing '"@ + "credentials"@ + "'"@),
        ),
{
}

/// What an entry's text is read as: nothing was imported where it is blank, and otherwise it is what
/// its document says, or not JSON.
pub proof fn law_an_entry_is_read_as_its_document(raw: Seq<char>, read: KeychainRead)
    ensures
        blank(raw) ==> decoded(raw) == Err::<BatchView, StoreErrorView>(StoreErrorView::NotFound),
        !blank(raw) ==> {
            &&& json_read(raw) matches Ok(document) ==> decoded(raw) == batch_of(document)
            &&& json_read(raw) matches Err(message) ==> decoded(raw) == Err::<
                BatchView,
                StoreErrorView,
            >(StoreErrorView::Malformed("not valid JSON: "@ + message))
        },
        match read {
            KeychainRead::Found { secret } => loaded(read) == decoded(secret@),
            KeychainRead::NoEntry => loaded(read) == Err::<BatchView, StoreErrorView>(
                StoreErrorView::NotFound,
            ),
            KeychainRead::Failed { detail } => loaded(read) == Err::<BatchView, StoreErrorView>(
                StoreErrorView::Unavailable(detail@),
            ),
        },
{
}

/// A write that stores a batch goes to the entry of its channel, and what it writes is read as that
/// batch again.
pub proof fn law_a_write_goes_to_its_channels_entry(
    write: KeychainWrite,
    channel: Channel,
    batch: BatchView,
)
    requires
        stores(write, channel, batch),
    ensures
        write.entry.service@ == "bua"@,
        write.entry.user@ == "leo-premium-"@ + channel.name(),
        write.secret@ == json_text(batch_form(batch)),
        batch.has_tokens() ==> decoded(write.secret@) == Ok::<BatchView, StoreErrorView>(batch),
{
}

/// What each error says: its own reason whole, and what it is about.
pub proof fn law_what_a_store_error_says(detail: Seq<char>)
    ensures
        StoreErrorView::NotFound.message() == "no imported Leo subscription found"@,
        StoreErrorView::Unavailable(detail).message() == "the system keychain is unavailable: "@
            + detail,
        StoreErrorView::Malformed(detail).message() == "the stored credentials are unusable: "@
            + detail,
        StoreErrorView::Exhausted.message()
            == "the imported credentials are used up; run `bua import-leo-creds` again"@,
{
}

/// Looking at a batch, an error or a result leaves nothing of it out and changes nothing.
pub proof fn law_a_batch_is_seen_whole(
    batch: StoredCredentials,
    error: StoreError,
    detail: String,
)
    ensures
        batch@.order_id == batch.order_id@,
        batch@.item_id == batch.item_id@,
        batch@.issuer == batch.issuer@,
        batch@.credentials.len() == batch.credentials@.len(),
        forall|i: int|
            0 <= i < batch.credentials@.len() ==> batch@.credentials[i] == (CredentialView {
                unblinded: (#[trigger] batch.credentials@[i]).unblinded@,
                valid_from: batch.credentials@[i].valid_from@,
                valid_to: batch.credentials@[i].valid_to@,
                spent: batch.credentials@[i].spent,
                rfc: batch.credentials@[i].rfc,
            }),
        batch_result(Ok(batch)) == Ok::<BatchView, StoreErrorView>(batch@),
        batch_result(Err(error)) == Err::<BatchView, StoreErrorView>(error@),
        StoreError::NotFound@ is NotFound,
        StoreError::Exhausted@ is Exhausted,
        (StoreError::Unavailable { detail })@ == StoreErrorView::Unavailable(detail@),
        (StoreError::Malformed { detail })@ == StoreErrorView::Malformed(detail@),
        batch@.has_tokens() <==> forall|i: int|
            0 <= i < batch.credentials@.len() ==> (
            #[trigger] batch.credentials@[i]).unblinded@.len() > 0,
{
    if batch@.has_tokens() {
        assert forall|i: int| 0 <= i < batch.credentials@.len() implies (
        #[trigger] batch.credentials@[i]).unblinded@.len() > 0 by {
            assert(batch@.credentials[i].unblinded.len() > 0);
        }
    }
}

} // verus!
