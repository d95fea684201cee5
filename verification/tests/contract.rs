//! Contract identity: tickers, exact equality, order and identifiers.

use ironcondor::domain::{
    ContractKey, ContractMap, Decimal, ExpirationDate, Instant, OptionStyle, Positive, PriceCents,
    Underlying,
};
use ironcondor::error::BacktestError;
use std::collections::HashMap;

fn days_30() -> Positive {
    let Ok(days) = Positive::new_decimal(Decimal::new(30, 0)) else {
        panic!("30 is a valid positive value");
    };
    days
}

fn resolved_key() -> ContractKey {
    ContractKey {
        underlying: Underlying::new("SPX").unwrap_or_else(|_| unreachable!("SPX is valid")),
        expiration: ExpirationDate::DateTime(Instant::from_timestamp_nanos(
            1_750_291_200_000_000_000,
        )),
        strike: PriceCents::new(510_000),
        style: OptionStyle::Call,
    }
}

#[test]
fn test_contract_id_roundtrips() {
    let key = resolved_key();
    let id = key.to_contract_id();
    assert!(matches!(
        id.as_deref(),
        Ok("v1:SPX:1750291200000000000:510000:C")
    ));
    let id = id.unwrap_or_default();
    let back = ContractKey::from_contract_id(&id);
    assert!(matches!(back, Ok(ref k) if *k == key));
}

#[test]
fn test_contract_id_rejects_wrong_version() {
    let err = ContractKey::from_contract_id("v2:SPX:0:100:C");
    assert!(matches!(err, Err(BacktestError::Conversion(_))));
}

#[test]
fn test_contract_id_rejects_wrong_segment_count() {
    let err = ContractKey::from_contract_id("v1:SPX:0:100");
    assert!(matches!(err, Err(BacktestError::Conversion(_))));
}

#[test]
fn test_contract_id_rejects_bad_underlying_grammar() {
    for bad in ["v1:spx:0:100:C", "v1::0:100:C", "v1:S-PX:0:100:C"] {
        assert!(
            matches!(
                ContractKey::from_contract_id(bad),
                Err(BacktestError::Conversion(_))
            ),
            "{bad} must be rejected"
        );
    }
}

#[test]
fn test_contract_id_rejects_non_numeric_segments() {
    assert!(matches!(
        ContractKey::from_contract_id("v1:SPX:soon:100:C"),
        Err(BacktestError::Conversion(_))
    ));
    assert!(matches!(
        ContractKey::from_contract_id("v1:SPX:0:many:P"),
        Err(BacktestError::Conversion(_))
    ));
    assert!(matches!(
        ContractKey::from_contract_id("v1:SPX:0:100:X"),
        Err(BacktestError::Conversion(_))
    ));
}

#[test]
fn test_underlying_deserialisation_revalidates_grammar() {
    let bad: Result<String, _> = serde_json::from_str("\"spx\"");
    assert!(matches!(bad, Ok(text) if Underlying::try_from(text.clone()).is_err()));
    let good: Result<String, _> = serde_json::from_str("\"SPX\"");
    assert!(matches!(good.map(Underlying::try_from), Ok(Ok(ref u)) if u.as_str() == "SPX"));
}

#[test]
fn test_underlying_rejects_colon_and_lowercase_and_length() {
    assert!(Underlying::new("SPX").is_ok());
    assert!(Underlying::new("BRK.B").is_ok());
    assert!(Underlying::new("A_1").is_ok());
    assert!(Underlying::new("a").is_err());
    assert!(Underlying::new("S:PX").is_err());
    assert!(Underlying::new("").is_err());
    assert!(Underlying::new(&"X".repeat(33)).is_err());
    assert!(Underlying::new(&"X".repeat(32)).is_ok());
}

#[test]
fn test_unresolved_days_expiration_cannot_build_contract_id() {
    let mut key = resolved_key();
    key.expiration = ExpirationDate::Days(days_30());
    assert!(matches!(
        key.to_contract_id(),
        Err(BacktestError::Conversion(_))
    ));
}

#[test]
fn test_contract_key_equality_is_exact_across_variants() {
    let resolved = resolved_key();
    let mut relative = resolved.clone();
    relative.expiration = ExpirationDate::Days(days_30());
    assert_ne!(resolved, relative);
    assert_eq!(resolved, resolved.clone());
    assert_eq!(relative, relative.clone());
}

#[test]
fn test_contract_key_works_as_exact_map_key() {
    let mut hashed = HashMap::new();
    hashed.insert(resolved_key().identity(), 1u32);
    assert_eq!(hashed.get(&resolved_key().identity()), Some(&1));
    let mut map = ContractMap::new();
    map.insert(resolved_key(), 1u32);
    assert_eq!(map.get(&resolved_key()), Some(&1));
    let mut other = resolved_key();
    other.strike = PriceCents::new(520_000);
    assert_eq!(hashed.get(&other.identity()), None);
    assert_eq!(map.get(&other), None);
}

#[test]
fn equal_keys_have_one_identity() {
    let mut a = resolved_key();
    a.expiration = ExpirationDate::Days(days_30());
    let mut b = resolved_key();
    let Ok(days) = Positive::new_decimal(Decimal::new(3_000, 2)) else {
        panic!("30.00 is a valid positive value");
    };
    b.expiration = ExpirationDate::Days(days);
    assert_eq!(a.identity(), b.identity());
    assert_eq!((a.identity().whole, a.identity().part), (30, 0));
    let mut c = resolved_key();
    let Ok(days) = Positive::new_decimal(Decimal::new(3_050, 2)) else {
        panic!("30.50 is a valid positive value");
    };
    c.expiration = ExpirationDate::Days(days);
    assert_eq!((c.identity().whole, c.identity().part), (305, 1));
    assert_ne!(a.identity(), c.identity());
    assert_ne!(a.identity(), resolved_key().identity());
}

#[test]
fn key_order_goes_by_expiration_before_strike() {
    let early = resolved_key();
    let mut late = resolved_key();
    late.expiration =
        ExpirationDate::DateTime(Instant::from_timestamp_nanos(1_750_291_200_000_000_001));
    late.strike = PriceCents::new(1);
    let mut relative = resolved_key();
    relative.expiration = ExpirationDate::Days(days_30());
    assert!(early < late);
    assert!(relative < early);
    assert!(early.comes_before(&late));
    assert!(!late.comes_before(&early));
}

#[test]
fn days_with_other_trailing_zeros_are_the_same_expiration() {
    let mut a = resolved_key();
    a.expiration = ExpirationDate::Days(days_30());
    let mut b = resolved_key();
    let Ok(days) = Positive::new_decimal(Decimal::new(3_000, 2)) else {
        panic!("30.00 is a valid positive value");
    };
    b.expiration = ExpirationDate::Days(days);
    assert_eq!(a, b);
}

#[test]
fn expiration_outside_the_nanosecond_range_has_no_identifier() {
    let mut key = resolved_key();
    let Some(far) = Instant::from_timestamp(10_000_000_000, 0) else {
        panic!("the instant is on the calendar");
    };
    key.expiration = ExpirationDate::DateTime(far);
    let Err(BacktestError::Conversion(text)) = key.expiration_ns() else {
        panic!("the instant is out of range");
    };
    assert_eq!(
        text,
        "expiration 2286-11-20 17:46:40 UTC outside the nanosecond i64 range"
    );
}

#[test]
fn put_and_negative_expiration_survive_the_identifier() {
    let key = ContractKey {
        underlying: Underlying::new("BRK.B").unwrap_or_else(|_| unreachable!("valid")),
        expiration: ExpirationDate::DateTime(Instant::from_timestamp_nanos(-1)),
        strike: PriceCents::new(0),
        style: OptionStyle::Put,
    };
    let id = key.to_contract_id().unwrap_or_default();
    assert_eq!(id, "v1:BRK.B:-1:0:P");
    assert!(matches!(ContractKey::from_contract_id(&id), Ok(ref k) if *k == key));
}

#[test]
fn underlyings_order_as_their_tickers() {
    let of = |ticker: &str| match Underlying::new(ticker) {
        Ok(u) => u,
        Err(e) => panic!("{ticker} is a ticker: {e:?}"),
    };
    assert!(of("AAPL") < of("SPX"));
    assert!(of("SPX") < of("SPXW"));
    assert!(of("SPX") <= of("SPX"));
    let mut all = vec![of("SPXW"), of("QQQ"), of("SPX")];
    all.sort();
    assert_eq!(all, vec![of("QQQ"), of("SPX"), of("SPXW")]);
    let set: std::collections::HashSet<Underlying> = all.into_iter().collect();
    assert!(set.contains(&of("QQQ")));
}

#[test]
fn refusals_quote_what_they_refuse() {
    let text = |r: Result<ContractKey, BacktestError>| match r {
        Err(BacktestError::Conversion(text)) => text,
        other => panic!("expected a refusal, got {other:?}"),
    };
    assert_eq!(
        text(ContractKey::from_contract_id("v2:SPX:1:1:C")),
        "contract id \"v2:SPX:1:1:C\" has unsupported version \"v2\", expected \"v1\""
    );
    assert_eq!(
        text(ContractKey::from_contract_id("v1:SPX:1:1:X")),
        "contract id \"v1:SPX:1:1:X\" has unknown style \"X\", expected \"C\" or \"P\""
    );
    assert_eq!(
        text(ContractKey::from_contract_id("v1:SPX:\t:1:C")),
        "contract id \"v1:SPX:\\t:1:C\" has non-numeric expiration_ns \"\\t\""
    );
    match Underlying::new("A\"b") {
        Err(BacktestError::Conversion(text)) => assert_eq!(
            text,
            "underlying \"A\\\"b\" violates the grammar ^[A-Z0-9._]{1,32}$"
        ),
        other => panic!("expected a refusal, got {other:?}"),
    }
}

#[test]
fn refused_expirations_are_written_out() {
    let mut key = resolved_key();
    let Ok(days) = Positive::new_decimal(Decimal::new(3050, 2)) else {
        panic!("30.50 is positive");
    };
    key.expiration = ExpirationDate::Days(days);
    match key.expiration_ns() {
        Err(BacktestError::Conversion(text)) => assert_eq!(
            text,
            "relative expiration Days(30.5) is unresolved — resolved once at tape materialisation"
        ),
        other => panic!("expected a refusal, got {other:?}"),
    }
}
