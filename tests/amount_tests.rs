use aggregator::amount::format_amount;
use aggregator::summary::{parse_amount, summarise, SummaryError};
use aggregator::holding::Holding;

fn row(token: &str, amount: &str) -> Holding {
    Holding::new("ledger".to_string(), token.to_string(), amount.to_string(), "liquid".to_string())
}

#[test]
fn format_amount_basic() {
    assert_eq!(format_amount(1000u128, 0), "1000");
    assert_eq!(format_amount(12345u128, 2), "123.45");
    assert_eq!(format_amount(5u128, 3), "0.005");
}

#[test]
fn format_amount_keeps_trailing_zeros() {
    assert_eq!(format_amount(1200u128, 2), "12.00");
    assert_eq!(format_amount(0u128, 0), "0");
    assert_eq!(format_amount(0u128, 4), "0.0000");
    assert_eq!(format_amount(500u128, 8), "0.00000500");
}

#[test]
fn format_amount_beyond_u128_digits() {
    let s = format_amount(7u128, 40);
    assert_eq!(s.len(), 42);
    assert!(s.starts_with("0.000"));
    assert!(s.ends_with("7"));
    assert_eq!(format_amount(u128::MAX, 0), "340282366920938463463374607431768211455");
}

#[test]
fn parse_amount_forms() {
    assert_eq!(parse_amount("12.34"), Ok((1234u128, 2usize)));
    assert_eq!(parse_amount("1000"), Ok((1000u128, 0usize)));
    assert_eq!(parse_amount("0.00000500"), Ok((500u128, 8usize)));
    assert_eq!(parse_amount(""), Err(SummaryError::DecimalParse));
    assert_eq!(parse_amount("1."), Err(SummaryError::DecimalParse));
    assert_eq!(parse_amount(".5"), Err(SummaryError::DecimalParse));
    assert_eq!(parse_amount("1.2.3"), Err(SummaryError::DecimalParse));
    assert_eq!(parse_amount("abc"), Err(SummaryError::DecimalParse));
    assert_eq!(
        parse_amount("1000000000000000000000000000000000000000"),
        Err(SummaryError::Overflow)
    );
}

#[test]
fn summarise_sums_per_token_in_order() {
    let rows = vec![
        row("BBB", "1.5"),
        row("AAA", "2"),
        row("BBB", "0.25"),
        row("CCC", "0.001"),
    ];
    let out = summarise(&rows).unwrap();
    assert_eq!(out.len(), 3);
    assert_eq!(out[0].token, "AAA");
    assert_eq!(out[1].token, "BBB");
    assert_eq!(out[2].token, "CCC");
    // every total is at the largest scale of the list, here three places
    assert_eq!(out[0].scale, 3);
    assert_eq!(out[0].total, 2000);
    assert_eq!(out[1].total, 1750);
    assert_eq!(out[2].total, 1);
}

#[test]
fn summarise_empty_list() {
    let out = summarise(&Vec::new()).unwrap();
    assert!(out.is_empty());
}

#[test]
fn summarise_rejects_bad_amount() {
    let rows = vec![row("AAA", "1"), row("BBB", "x1")];
    assert!(matches!(summarise(&rows), Err(SummaryError::DecimalParse)));
}

#[test]
fn summarise_reports_overflow() {
    let rows = vec![
        row("AAA", "300000000000000000000000000000000000000"),
        row("AAA", "300000000000000000000000000000000000000"),
    ];
    assert!(matches!(summarise(&rows), Err(SummaryError::Overflow)));
}

#[test]
fn summarise_single_token_conserves_sum() {
    let rows = vec![row("T", "0.1"), row("T", "0.2"), row("T", "0.30")];
    let out = summarise(&rows).unwrap();
    assert_eq!(out.len(), 1);
    assert_eq!(out[0].total, 60);
    assert_eq!(out[0].scale, 2);
}
