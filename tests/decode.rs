use payment_engine::decode::{parse_amount, parse_kind};
use payment_engine::transaction::TransactionType;

#[test]
fn amounts_read_as_ten_thousandths() {
    assert_eq!(parse_amount(b"5.0"), Some(50_000));
    assert_eq!(parse_amount(b"12"), Some(120_000));
    assert_eq!(parse_amount(b"0.0001"), Some(1));
    assert_eq!(parse_amount(b"2.742"), Some(27_420));
    assert_eq!(parse_amount(b"3."), Some(30_000));
    assert_eq!(parse_amount(b"007.5"), Some(75_000));
}

#[test]
fn malformed_amounts_are_refused() {
    assert_eq!(parse_amount(b""), None);
    assert_eq!(parse_amount(b".5"), None);
    assert_eq!(parse_amount(b"1.23456"), None);
    assert_eq!(parse_amount(b"1.2.3"), None);
    assert_eq!(parse_amount(b"-1.0"), None);
    assert_eq!(parse_amount(b"1,5"), None);
    assert_eq!(parse_amount(b"abc"), None);
    assert_eq!(parse_amount(b"1.2a"), None);
}

#[test]
fn amount_at_the_edge_of_u64() {
    assert_eq!(parse_amount(b"1844674407370955.1615"), Some(u64::MAX));
    assert_eq!(parse_amount(b"1844674407370955.1616"), None);
    assert_eq!(parse_amount(b"99999999999999999999999999999999999999999"), None);
}

#[test]
fn kinds_read_in_any_case() {
    assert_eq!(parse_kind(b"deposit"), Some(TransactionType::Deposit));
    assert_eq!(parse_kind(b"Withdrawal"), Some(TransactionType::Withdrawal));
    assert_eq!(parse_kind(b"DISPUTE"), Some(TransactionType::Dispute));
    assert_eq!(parse_kind(b"reSolve"), Some(TransactionType::Resolve));
    assert_eq!(parse_kind(b"chargeback"), Some(TransactionType::Chargeback));
    assert_eq!(parse_kind(b"deposits"), None);
    assert_eq!(parse_kind(b"depos"), None);
    assert_eq!(parse_kind(b""), None);
}
