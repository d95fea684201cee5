//! Error messages.

use ironcondor::error::BacktestError;

#[test]
fn test_error_messages_carry_offending_values() {
    assert_eq!(
        BacktestError::InvalidQuantity(0).to_string(),
        "invalid quantity: 0"
    );
    assert_eq!(
        BacktestError::CrossedQuote { bid: 105, ask: 100 }.to_string(),
        "crossed quote: bid 105 > ask 100"
    );
    assert_eq!(
        BacktestError::PriceNotTickAligned {
            price: 101,
            tick: 5
        }
        .to_string(),
        "price 101 not aligned to tick 5"
    );
    assert_eq!(
        BacktestError::DataOutOfOrder {
            step: 3,
            ts: 900,
            prev: 1_000
        }
        .to_string(),
        "data out of order: step 3 ts 900 not strictly after previous 1000"
    );
    assert_eq!(
        BacktestError::TapeTooLarge {
            limit: "max_steps",
            value: 200,
            cap: 100
        }
        .to_string(),
        "tape too large: max_steps = 200 exceeds cap 100"
    );
    assert_eq!(
        BacktestError::Config("initial capital must be positive, got 0".to_string())
            .to_string(),
        "config: initial capital must be positive, got 0"
    );
    assert_eq!(
        BacktestError::ArithmeticOverflow.to_string(),
        "arithmetic overflow"
    );
}

#[test]
fn test_error_from_io_error_maps_to_data_io() {
    let io = std::io::Error::new(std::io::ErrorKind::NotFound, "missing.parquet");
    let err = BacktestError::from(io);
    assert!(matches!(err, BacktestError::DataIo(_)));
    assert!(err.to_string().starts_with("data source io: "));
}

#[test]
fn messages_that_carry_text() {
    let text = || "why".to_string();
    assert_eq!(BacktestError::Data(text()).to_string(), "data: why");
    assert_eq!(BacktestError::Conversion(text()).to_string(), "chain conversion: why");
    assert_eq!(BacktestError::Session(text()).to_string(), "simulator session: why");
    assert_eq!(BacktestError::Execution(text()).to_string(), "execution: why");
    assert_eq!(BacktestError::OrderBook(text()).to_string(), "orderbook: why");
    assert_eq!(BacktestError::Strategy(text()).to_string(), "strategy: why");
    assert_eq!(BacktestError::Bundle(text()).to_string(), "bundle write: why");
}
