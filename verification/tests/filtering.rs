use reconciliation_engine::amount::Amount;
use reconciliation_engine::transfer::{AssetInfo, RawRecord, TransferFilter};

fn amount(text: &str) -> Amount {
    Amount::parse(text).unwrap()
}

fn filter() -> TransferFilter {
    TransferFilter { watched_address: "TWatched".to_string(), token_symbol: "USDT".to_string() }
}

fn record(value: &str, decimals: u32) -> RawRecord {
    RawRecord {
        transfer_id: "tx-1".to_string(),
        asset: Some(AssetInfo { symbol: "USDT".to_string(), decimals }),
        from: Some("TPayer".to_string()),
        to: Some("TWatched".to_string()),
        value: Some(value.to_string()),
    }
}

#[test]
fn normalize_scales_by_the_decimals_of_the_record() {
    let t = filter().normalize(&record("98500000", 6)).unwrap();
    assert_eq!(t.transfer_id, "tx-1");
    assert_eq!(t.from_address, "TPayer");
    assert_eq!(t.to_address, "TWatched");
    assert_eq!(t.asset_symbol, "USDT");
    assert!(t.amount.same_value(&amount("98.5")));
    let t = filter().normalize(&record("98500000", 18)).unwrap();
    assert!(t.amount.same_value(&amount("0.0000000000985")));
    let t = filter().normalize(&record("985", 0)).unwrap();
    assert!(t.amount.same_value(&amount("985")));
}

#[test]
fn normalize_is_exact_beyond_a_hundred_digits() {
    let digits = "1234567890".repeat(12);
    let t = filter().normalize(&record(&digits, 30)).unwrap();
    let expected = format!("{}.{}", &digits[..90], &digits[90..]);
    assert!(t.amount.same_value(&amount(&expected)));
    let one_less = format!("{}.{}9", &digits[..90], &digits[90..119]);
    assert!(!t.amount.same_value(&amount(&one_less)));
}

#[test]
fn normalize_discards_a_record_without_sender() {
    let mut r = record("1000000", 6);
    r.from = None;
    assert!(filter().normalize(&r).is_none());
}

#[test]
fn normalize_discards_a_record_without_recipient() {
    let mut r = record("1000000", 6);
    r.to = None;
    assert!(filter().normalize(&r).is_none());
}

#[test]
fn normalize_discards_a_record_to_another_address() {
    let mut r = record("1000000", 6);
    r.to = Some("TOther".to_string());
    assert!(filter().normalize(&r).is_none());
    r.to = Some("twatched".to_string());
    assert!(filter().normalize(&r).is_none());
}

#[test]
fn normalize_discards_a_record_without_value() {
    let mut r = record("1000000", 6);
    r.value = None;
    assert!(filter().normalize(&r).is_none());
}

#[test]
fn normalize_discards_a_value_that_is_no_number() {
    assert!(filter().normalize(&record("12ab", 6)).is_none());
    assert!(filter().normalize(&record("", 6)).is_none());
}

#[test]
fn normalize_discards_a_record_without_asset() {
    let mut r = record("1000000", 6);
    r.asset = None;
    assert!(filter().normalize(&r).is_none());
}

#[test]
fn normalize_discards_another_token() {
    let mut r = record("1000000", 6);
    r.asset = Some(AssetInfo { symbol: "TRX".to_string(), decimals: 6 });
    assert!(filter().normalize(&r).is_none());
}

#[test]
fn normalize_discards_more_decimals_than_an_amount_carries() {
    assert!(filter().normalize(&record("1", 1024)).is_some());
    assert!(filter().normalize(&record("1", 1025)).is_none());
    assert!(filter().normalize(&record("1", u32::MAX)).is_none());
}
