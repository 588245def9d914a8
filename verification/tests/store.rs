use bua::skus::device::{DeviceError, Registration, SignedCredential};
use bua::skus::profile::Channel;
use bua::skus::store::{
    clear, decode, decode_document, encode, entry, load, save, saved, Credential, KeychainDelete,
    KeychainRead, StoreError, StoredCredentials, Wallet,
};
use serde_json::Value;

fn credential(unblinded: &str, from: &str, to: &str) -> Credential {
    Credential {
        unblinded: unblinded.to_string(),
        valid_from: from.to_string(),
        valid_to: to.to_string(),
        spent: false,
        rfc: true,
    }
}

fn batch() -> StoredCredentials {
    StoredCredentials {
        order_id: "3cc63766-991f-4c87-984e-ecdea77c86d8".to_string(),
        item_id: "b7114ccc-b3a5-4951-9a5d-8b7a28731111".to_string(),
        issuer: "brave.com?sku=brave-leo-premium".to_string(),
        credentials: vec![
            credential("token-one", "2026-08-22T00:00:00", "2026-08-23T00:00:00"),
            credential("token-two", "2026-08-23T00:00:00", "2026-08-24T00:00:00"),
        ],
    }
}

fn object(members: Vec<(&str, Value)>) -> Value {
    let mut map = serde_json::Map::new();
    for (name, member) in members {
        map.insert(name.to_string(), member);
    }
    Value::Object(map)
}

fn malformed(r: Result<StoredCredentials, StoreError>) -> String {
    match r {
        Err(StoreError::Malformed { detail }) => detail,
        other => panic!("expected a malformed entry, got {other:?}"),
    }
}

#[test]
fn spending_does_not_write_until_asked_to() {
    let mut wallet = Wallet::detached(batch());
    assert!(!wallet.dirty(), "a freshly opened batch has nothing to write");

    wallet
        .spend("2026-08-22T12:00:00")
        .expect("a usable credential");
    assert!(wallet.dirty(), "a spend must be recorded for the next flush");
    assert_eq!(wallet.remaining(), 1);
}

#[test]
fn a_session_that_spends_nothing_never_writes() {
    let wallet = Wallet::detached(batch());
    assert!(wallet.flush().is_none(), "flushing nothing is a no-op");
    assert!(!wallet.dirty());
}

#[test]
fn a_detached_batch_has_nowhere_to_write() {
    let mut wallet = Wallet::detached(batch());
    assert!(wallet.destination().is_none());

    wallet
        .spend("2026-08-22T12:00:00")
        .expect("a usable credential");
    assert!(wallet.dirty(), "the spend is recorded in memory");

    assert!(wallet.flush().is_none(), "a detached flush cannot fail");
    assert!(wallet.dirty(), "and it stays unwritten");
}

#[test]
fn consecutive_spends_hand_out_different_credentials() {
    let mut batch = batch();
    batch.credentials[1].valid_from = batch.credentials[0].valid_from.clone();
    batch.credentials[1].valid_to = batch.credentials[0].valid_to.clone();

    let mut wallet = Wallet::detached(batch);
    let first = wallet.spend("2026-08-22T12:00:00").expect("first");
    let second = wallet.spend("2026-08-22T12:00:00").expect("second");

    assert_ne!(first.credential.unblinded, second.credential.unblinded);
    assert_eq!(second.remaining, 0);
}

#[test]
fn spending_past_the_end_of_the_batch_is_refused() {
    let mut wallet = Wallet::detached(batch());
    wallet
        .spend("2026-08-22T12:00:00")
        .expect("the one usable credential");
    assert!(matches!(
        wallet.spend("2026-08-22T12:00:00"),
        Err(StoreError::Exhausted)
    ));
}

#[test]
fn a_batch_survives_a_round_trip_through_the_stored_form() {
    assert_eq!(decode(&encode(&batch())).unwrap(), batch());
}

#[test]
fn each_channel_is_stored_separately() {
    let stable = format!("leo-premium-{}", Channel::Stable.as_str());
    let nightly = format!("leo-premium-{}", Channel::Nightly.as_str());
    assert_ne!(stable, nightly);
    assert_eq!(entry(Channel::Stable).user, stable);
    assert_eq!(entry(Channel::Nightly).user, nightly);
    assert_eq!(entry(Channel::Beta).user, "leo-premium-beta");
    assert_eq!(entry(Channel::Stable).service, "bua");
}

#[test]
fn the_next_usable_credential_is_the_one_valid_at_that_moment() {
    let batch = batch();
    assert_eq!(batch.next_usable("2026-08-22T12:00:00"), Some(0));
    assert_eq!(batch.next_usable("2026-08-23T12:00:00"), Some(1));
}

#[test]
fn a_spent_credential_is_never_offered_again() {
    let mut batch = batch();
    batch.credentials[0].spent = true;
    assert_eq!(batch.next_usable("2026-08-22T12:00:00"), None);
    assert_eq!(batch.remaining(), 1);
}

#[test]
fn a_moment_outside_every_window_yields_no_credential() {
    let batch = batch();
    assert_eq!(batch.next_usable("2026-08-21T23:59:59"), None);
    assert_eq!(batch.next_usable("2026-09-01T00:00:00"), None);
}

#[test]
fn a_window_does_not_include_its_own_end() {
    let batch = batch();
    assert_eq!(batch.next_usable("2026-08-23T00:00:00"), Some(1));
}

#[test]
fn an_empty_entry_is_reported_as_absent_rather_than_malformed() {
    assert!(matches!(decode("").unwrap_err(), StoreError::NotFound));
    assert!(matches!(decode("   ").unwrap_err(), StoreError::NotFound));
}

#[test]
fn a_batch_that_is_not_json_is_reported_as_malformed() {
    assert!(matches!(
        decode("not json").unwrap_err(),
        StoreError::Malformed { .. }
    ));
}

#[test]
fn a_credential_without_a_token_is_rejected_on_load() {
    let item = object(vec![
        ("valid_from", Value::from("a")),
        ("valid_to", Value::from("b")),
        ("spent", Value::from(false)),
    ]);
    let raw = object(vec![
        ("version", Value::from(1)),
        ("order_id", Value::from("o")),
        ("item_id", Value::from("i")),
        ("issuer", Value::from("x")),
        ("credentials", Value::from(vec![item])),
    ])
    .to_string();
    assert!(matches!(
        decode(&raw).unwrap_err(),
        StoreError::Malformed { .. }
    ));
}

#[test]
fn an_entry_missing_its_order_is_reported_as_malformed() {
    let raw = object(vec![
        ("version", Value::from(1)),
        ("credentials", Value::Array(Vec::new())),
    ])
    .to_string();
    assert!(matches!(
        decode(&raw).unwrap_err(),
        StoreError::Malformed { .. }
    ));
}

#[test]
fn the_stored_form_is_what_a_reader_expects() {
    let value: Value = serde_json::from_str(&encode(&batch())).unwrap();
    assert_eq!(value["version"], 1);
    assert_eq!(value["order_id"], "3cc63766-991f-4c87-984e-ecdea77c86d8");
    assert_eq!(value["item_id"], "b7114ccc-b3a5-4951-9a5d-8b7a28731111");
    assert_eq!(value["issuer"], "brave.com?sku=brave-leo-premium");
    assert_eq!(value["credentials"][1]["unblinded"], "token-two");
    assert_eq!(value["credentials"][1]["valid_from"], "2026-08-23T00:00:00");
    assert_eq!(value["credentials"][1]["valid_to"], "2026-08-24T00:00:00");
    assert_eq!(value["credentials"][1]["spent"], false);
    assert_eq!(value["credentials"][1]["rfc"], true);
}

#[test]
fn what_an_entry_leaves_out_has_a_reading() {
    let raw = "{\"order_id\":\"o\",\"item_id\":\"i\",\"issuer\":\"x\",\"credentials\":[{\"unblinded\":\"t\"},{\"unblinded\":\"u\",\"spent\":true,\"rfc\":false}]}";
    let batch = decode(raw).unwrap();
    assert_eq!(batch.credentials[0].valid_from, "");
    assert!(!batch.credentials[0].spent);
    assert!(batch.credentials[0].rfc);
    assert!(batch.credentials[1].spent);
    assert!(!batch.credentials[1].rfc);
}

#[test]
fn each_malformed_entry_says_what_is_wrong() {
    assert!(malformed(decode("{")).starts_with("not valid JSON: "));
    assert_eq!(malformed(decode("[]")), "missing 'credentials'");
    assert_eq!(malformed(decode("{\"credentials\":1}")), "missing 'credentials'");
    assert_eq!(malformed(decode("{\"credentials\":[1]}")), "a credential has no token");
    assert_eq!(malformed(decode("{\"credentials\":[]}")), "missing 'order_id'");
    assert_eq!(
        malformed(decode("{\"credentials\":[],\"order_id\":\"o\"}")),
        "missing 'item_id'"
    );
    assert_eq!(
        malformed(decode("{\"credentials\":[],\"order_id\":\"o\",\"item_id\":\"i\",\"issuer\":2}")),
        "missing 'issuer'"
    );
}

#[test]
fn a_document_in_hand_is_read_like_its_text() {
    let value: Value = serde_json::from_str(&encode(&batch())).unwrap();
    assert_eq!(decode_document(&value).unwrap(), batch());
    assert_eq!(malformed(decode_document(&Value::Null)), "missing 'credentials'");
}

#[test]
fn blank_text_of_every_kind_is_absent() {
    assert!(matches!(decode("\t\n\r ").unwrap_err(), StoreError::NotFound));
    assert!(matches!(
        decode("\u{2003}\u{3000}\u{85}").unwrap_err(),
        StoreError::NotFound
    ));
    assert!(matches!(
        decode("\u{200b}").unwrap_err(),
        StoreError::Malformed { .. }
    ));
}

#[test]
fn awkward_text_survives_a_round_trip() {
    let mut awkward = batch();
    awkward.issuer = "quote \" slash \\ line \n nul \u{0} accent \u{e9} face \u{1f600}".to_string();
    awkward.credentials[0].spent = true;
    awkward.credentials[1].rfc = false;
    assert_eq!(decode(&encode(&awkward)).unwrap(), awkward);
}

#[test]
fn a_batch_without_a_token_is_refused_after_a_round_trip() {
    let mut tokenless = batch();
    tokenless.credentials[1].unblinded = String::new();
    assert_eq!(malformed(decode(&encode(&tokenless))), "a credential has no token");
}

#[test]
fn a_registration_is_stored_unspent() {
    let registration = Registration {
        order_id: "o".to_string(),
        item_id: "i".to_string(),
        issuer: "x".to_string(),
        credentials: vec![SignedCredential {
            unblinded: "t".to_string(),
            valid_from: "a".to_string(),
            valid_to: "b".to_string(),
            rfc: false,
        }],
    };
    let stored = StoredCredentials::from(registration);
    assert_eq!(stored.order_id, "o");
    assert_eq!(stored.item_id, "i");
    assert_eq!(stored.issuer, "x");
    assert_eq!(stored.credentials.len(), 1);
    assert_eq!(stored.credentials[0].unblinded, "t");
    assert_eq!(stored.credentials[0].valid_from, "a");
    assert_eq!(stored.credentials[0].valid_to, "b");
    assert!(!stored.credentials[0].spent);
    assert!(!stored.credentials[0].rfc);
}

#[test]
fn an_opened_wallet_writes_its_spends_back_to_its_channel() {
    let write = save(Channel::Nightly, &batch());
    let read = KeychainRead::Found { secret: write.secret };
    let mut wallet = Wallet::open(Channel::Nightly, read).unwrap();
    assert_eq!(wallet.destination(), Some(Channel::Nightly));
    assert!(wallet.flush().is_none());

    let spent = wallet.spend("2026-08-22T12:00:00").unwrap();
    assert_eq!(spent.credential.unblinded, "token-one");
    assert!(spent.credential.spent);
    assert_eq!(spent.issuer, "brave.com?sku=brave-leo-premium");
    assert_eq!(spent.remaining, 1);

    let write = wallet.flush().expect("a spend is due");
    assert_eq!(write.entry.user, "leo-premium-nightly");
    assert!(wallet.flushed(Err("locked".to_string())).is_err());
    assert!(wallet.dirty());
    assert!(wallet.flushed(Ok(())).is_ok());
    assert!(!wallet.dirty());
    assert!(wallet.flush().is_none());

    let again = load(KeychainRead::Found { secret: write.secret }).unwrap();
    assert!(again.credentials[0].spent);
    assert_eq!(again.next_usable("2026-08-22T12:00:00"), None);
    assert_eq!(again.next_usable("2026-08-23T12:00:00"), Some(1));
}

#[test]
fn what_the_keychain_answers_decides_what_is_loaded() {
    assert!(matches!(load(KeychainRead::NoEntry), Err(StoreError::NotFound)));
    match load(KeychainRead::Failed { detail: "locked".to_string() }) {
        Err(error) => assert_eq!(
            error.to_string(),
            "the system keychain is unavailable: locked"
        ),
        Ok(_) => panic!("a failed read gives no batch"),
    }
    assert!(Wallet::open(Channel::Stable, KeychainRead::NoEntry).is_err());
    assert!(saved(Ok(())).is_ok());
    assert!(matches!(
        saved(Err("locked".to_string())),
        Err(StoreError::Unavailable { .. })
    ));
}

#[test]
fn forgetting_nothing_is_no_failure() {
    assert!(clear(KeychainDelete::Deleted).is_ok());
    assert!(clear(KeychainDelete::NoEntry).is_ok());
    assert!(matches!(
        clear(KeychainDelete::Failed { detail: "locked".to_string() }),
        Err(StoreError::Unavailable { .. })
    ));
}

#[test]
fn store_errors_say_what_happened() {
    assert_eq!(
        StoreError::NotFound.to_string(),
        "no imported Leo subscription found"
    );
    assert_eq!(
        StoreError::Malformed { detail: "x".to_string() }.to_string(),
        "the stored credentials are unusable: x"
    );
    assert_eq!(
        StoreError::Exhausted.to_string(),
        "the imported credentials are used up; run `bua import-leo-creds` again"
    );
}

#[test]
fn device_errors_say_what_happened() {
    assert_eq!(DeviceError::NotPaid.to_string(), "the subscription is not paid");
    assert_eq!(
        DeviceError::InvalidProof.to_string(),
        "the credentials the server returned did not verify"
    );
    assert_eq!(
        DeviceError::Transport { detail: "x".to_string() }.to_string(),
        "could not reach the subscription service: x"
    );
    assert_eq!(
        DeviceError::Unexpected { detail: "x".to_string() }.to_string(),
        "unexpected response: x"
    );
}

#[test]
fn a_series_of_spends_changes_nothing_but_the_marks() {
    let whole = batch();
    let read = KeychainRead::Found { secret: encode(&whole) };
    let mut wallet = Wallet::open(Channel::Beta, read).expect("a batch");
    let mut handed_out = Vec::new();
    for now in [
        "2026-08-23T12:00:00",
        "2026-08-23T13:00:00",
        "2026-08-22T12:00:00",
        "2026-08-22T12:00:00",
    ] {
        if let Ok(spent) = wallet.spend(now) {
            handed_out.push(spent.credential.unblinded);
        }
    }
    assert_eq!(handed_out, vec!["token-two".to_string(), "token-one".to_string()]);
    assert_eq!(whole.remaining() - wallet.remaining(), handed_out.len());

    let write = wallet.flush().expect("a write is due");
    let mut expected = whole;
    for c in expected.credentials.iter_mut() {
        c.spent = true;
    }
    assert_eq!(decode(&write.secret).expect("reads back"), expected);
}
