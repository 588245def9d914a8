use bua::agent::calendar::{civil_from_days, current_timestamp, timestamp, timestamp_of};
use bua::agent::subscription::{Discovery, ImportedSubscription};
use bua::skus::device::DeviceError;
use bua::skus::profile::Channel;
use bua::skus::store::{encode, Credential, KeychainRead, StoredCredentials};
use bua::text::{append_decimal, append_padded, is_before, is_blank};
use std::time::{Duration, UNIX_EPOCH};

#[test]
fn the_timestamp_is_fixed_width_and_orders_lexicographically() {
    let now = current_timestamp();
    assert_eq!(now.len(), 19, "{now}");
    assert_eq!(now.as_bytes()[4], b'-');
    assert_eq!(now.as_bytes()[7], b'-');
    assert_eq!(now.as_bytes()[10], b'T');
    assert_eq!(now.as_bytes()[13], b':');
    assert_eq!(now.as_bytes()[16], b':');
    assert!(is_before("2024-01-01T00:00:00", &now), "{now}");
}

#[test]
fn days_since_the_epoch_convert_to_the_right_civil_date() {
    assert_eq!(civil_from_days(0), (1970, 1, 1));
    assert_eq!(civil_from_days(1), (1970, 1, 2));
    assert_eq!(civil_from_days(365), (1971, 1, 1));
    assert_eq!(civil_from_days(11_016), (2000, 2, 29));
    assert_eq!(civil_from_days(11_017), (2000, 3, 1));
    assert_eq!(civil_from_days(47_540), (2100, 2, 28));
    assert_eq!(civil_from_days(47_541), (2100, 3, 1));
    assert_eq!(civil_from_days(20_687), (2026, 8, 22));
}

#[test]
fn days_before_the_epoch_convert_too() {
    assert_eq!(civil_from_days(-1), (1969, 12, 31));
    assert_eq!(civil_from_days(-719_468), (0, 3, 1));
    assert_eq!(civil_from_days(-719_469), (0, 2, 29));
}

#[test]
fn moments_are_written_in_the_servers_form() {
    assert_eq!(timestamp(0), "1970-01-01T00:00:00");
    assert_eq!(timestamp(1_787_406_305), "2026-08-22T13:45:05");
    assert_eq!(timestamp(253_402_300_799), "9999-12-31T23:59:59");
    assert_eq!(timestamp(253_402_300_800), "10000-01-01T00:00:00");
}

#[test]
fn a_timestamp_is_digits_between_its_marks() {
    for seconds in [0u64, 951_782_399, 1_787_406_305, 253_402_300_799] {
        for (i, c) in timestamp(seconds).chars().enumerate() {
            match i {
                4 | 7 => assert_eq!(c, '-'),
                10 => assert_eq!(c, 'T'),
                13 | 16 => assert_eq!(c, ':'),
                _ => assert!(c.is_ascii_digit()),
            }
        }
    }
}

#[test]
fn a_moment_before_the_epoch_is_read_as_the_epoch() {
    let second = Duration::from_millis(1_999);
    assert_eq!(timestamp_of(UNIX_EPOCH + second), "1970-01-01T00:00:01");
    assert_eq!(timestamp_of(UNIX_EPOCH - second), "1970-01-01T00:00:00");
}

#[test]
fn later_moments_come_later_as_text() {
    let moments = [0u64, 59, 60, 3_599, 3_600, 86_399, 86_400, 951_782_399, 951_782_400];
    for pair in moments.windows(2) {
        assert!(is_before(&timestamp(pair[0]), &timestamp(pair[1])));
        assert!(!is_before(&timestamp(pair[1]), &timestamp(pair[0])));
    }
}

#[test]
fn text_orders_by_its_bytes() {
    assert!(is_before("", "a"));
    assert!(is_before("a", "ab"));
    assert!(is_before("ab", "b"));
    assert!(is_before("z", "\u{e9}"));
    assert!(!is_before("a", "a"));
    assert!(!is_before("b", "a"));
}

#[test]
fn numbers_are_written_in_decimal() {
    let mut text = String::from("n=");
    append_decimal(&mut text, 0);
    append_decimal(&mut text, 1203);
    append_decimal(&mut text, u64::MAX);
    assert_eq!(text, "n=0120318446744073709551615");
    let mut text = String::new();
    append_padded(&mut text, 7, 2);
    append_padded(&mut text, 123, 2);
    append_padded(&mut text, 45, 4);
    assert_eq!(text, "071230045");
}

#[test]
fn only_white_space_is_blank() {
    assert!(is_blank(""));
    assert!(is_blank(" \t\u{a0}\u{1680}\u{2028}"));
    assert!(!is_blank(" x "));
}

fn batch() -> StoredCredentials {
    StoredCredentials {
        order_id: "order".to_string(),
        item_id: "item".to_string(),
        issuer: "brave.com?sku=brave-leo-premium".to_string(),
        credentials: vec![Credential {
            unblinded: "not-a-token".to_string(),
            valid_from: "2026-08-22T00:00:00".to_string(),
            valid_to: "2026-08-23T00:00:00".to_string(),
            spent: false,
            rfc: true,
        }],
    }
}

fn refuse(_: &Credential, _: &str) -> Result<String, DeviceError> {
    Err(DeviceError::Unexpected { detail: "not a token".to_string() })
}

fn present(credential: &Credential, issuer: &str) -> Result<String, DeviceError> {
    Ok(format!("{}@{}", credential.unblinded, issuer))
}

#[test]
fn a_batch_with_nothing_usable_is_an_error() {
    let mut empty = batch();
    empty.credentials.clear();
    let mut subscription = ImportedSubscription::detached(empty);

    match subscription.next_credential(refuse) {
        Err(err) => assert!(err.contains("used up"), "unhelpful message: {err}"),
        Ok(_) => panic!("an empty batch cannot be spent"),
    }
}

#[test]
fn a_credential_that_cannot_be_presented_is_an_error() {
    let mut subscription = ImportedSubscription::detached(batch());
    assert!(subscription.next_credential(refuse).is_err());
}

#[test]
fn the_exhausted_error_says_how_to_fix_it() {
    let mut empty = batch();
    empty.credentials.clear();
    let mut subscription = ImportedSubscription::detached(empty);

    match subscription.next_credential(refuse) {
        Err(err) => assert!(err.contains("import-leo-creds"), "no remedy offered: {err}"),
        Ok(_) => panic!("an empty batch cannot be spent"),
    }
}

#[test]
fn a_usable_credential_becomes_the_cookie() {
    let mut subscription = ImportedSubscription::detached(batch());
    assert_eq!(subscription.remaining(), None);
    match subscription.next_credential_at("2026-08-22T12:00:00", present) {
        Ok(cookie) => {
            assert_eq!(cookie.cookie_name, "__Secure-sku#brave-leo-premium");
            assert_eq!(
                cookie.cookie_value,
                "not-a-token@brave.com?sku=brave-leo-premium"
            );
            assert_eq!(
                cookie.redacted(),
                "SubscriptionCredential(__Secure-sku#brave-leo-premium=<redacted>)"
            );
        }
        Err(err) => panic!("{err}"),
    }
    assert_eq!(subscription.remaining(), Some(0));
    assert!(subscription
        .next_credential_at("2026-08-22T12:00:00", present)
        .is_err());
}

#[test]
fn a_credential_that_failed_to_present_is_spent_all_the_same() {
    let mut subscription = ImportedSubscription::detached(batch());
    match subscription.next_credential_at("2026-08-22T12:00:00", refuse) {
        Err(err) => assert_eq!(err, "unexpected response: not a token"),
        Ok(_) => panic!("it cannot be presented"),
    }
    assert_eq!(subscription.remaining(), None);
    match subscription.next_credential_at("2026-08-22T12:00:00", present) {
        Err(err) => assert!(err.contains("used up")),
        Ok(_) => panic!("it was spent"),
    }
}

#[test]
fn stable_is_tried_first_and_nightly_last() {
    assert!(matches!(
        ImportedSubscription::discover(),
        Discovery::Read(Channel::Stable)
    ));
    assert!(matches!(
        ImportedSubscription::discovered(Channel::Stable, KeychainRead::NoEntry),
        Discovery::Read(Channel::Beta)
    ));
    assert!(matches!(
        ImportedSubscription::discovered(
            Channel::Beta,
            KeychainRead::Failed { detail: "locked".to_string() }
        ),
        Discovery::Read(Channel::Nightly)
    ));
    assert!(matches!(
        ImportedSubscription::discovered(Channel::Nightly, KeychainRead::NoEntry),
        Discovery::Nothing
    ));
    let read = KeychainRead::Found { secret: encode(&batch()) };
    match ImportedSubscription::discovered(Channel::Beta, read) {
        Discovery::Found(mut subscription) => {
            assert!(subscription.flush().is_none());
            assert!(subscription
                .next_credential_at("2026-08-22T12:00:00", present)
                .is_ok());
            let write = subscription.flush().expect("a spend is due");
            assert_eq!(write.entry.user, "leo-premium-beta");
            assert!(subscription.flushed(Ok(())).is_ok());
            assert!(subscription.flush().is_none());
        }
        _ => panic!("there is a batch"),
    }
}

#[test]
fn a_channel_without_a_batch_has_no_subscription() {
    assert!(ImportedSubscription::new(Channel::Stable, KeychainRead::NoEntry).is_none());
    let read = KeychainRead::Found { secret: encode(&batch()) };
    assert!(ImportedSubscription::new(Channel::Stable, read).is_some());
}
