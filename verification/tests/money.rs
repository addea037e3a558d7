use street_relay::config::{DevFeeConfig, DevFeeMode};
use street_relay::money::{compute_fee, format_xmr, parse_xmr};
use street_relay::wallet::{MockWallet, TxState};

#[test]
fn amounts_parse_to_atomic_units() {
    assert_eq!(parse_xmr("1.01"), Some(101_000_000));
    assert_eq!(parse_xmr("5"), Some(500_000_000));
    assert_eq!(parse_xmr("0.00000001"), Some(1));
    assert_eq!(parse_xmr(".5"), Some(50_000_000));
    assert_eq!(parse_xmr("5."), Some(500_000_000));
    assert_eq!(parse_xmr("1.000000001"), None);
    assert_eq!(parse_xmr("x"), None);
    assert_eq!(parse_xmr(""), None);
    assert_eq!(parse_xmr("."), None);
    assert_eq!(parse_xmr("1.2.3"), None);
}

#[test]
fn amounts_format_with_eight_fraction_digits() {
    assert_eq!(format_xmr(101_000_000), "1.01000000");
    assert_eq!(format_xmr(0), "0.00000000");
    assert_eq!(format_xmr(1), "0.00000001");
    assert_eq!(format_xmr(1_000_000_000), "10.00000000");
    // formatting then parsing gives the value back
    assert_eq!(parse_xmr(&format_xmr(123_456_789)), Some(123_456_789));
}

#[test]
fn fees_follow_the_configured_mode() {
    let bps = DevFeeConfig { mode: DevFeeMode::Bps, value: 100 };
    assert_eq!(compute_fee("1.0", &bps).unwrap(), "0.01000000");
    let pct = DevFeeConfig { mode: DevFeeMode::Percent, value: 2 };
    assert_eq!(compute_fee("50", &pct).unwrap(), "1.00000000");
    // an unreadable amount counts as zero
    assert_eq!(compute_fee("junk", &bps).unwrap(), "0.00000000");
}

#[test]
fn wallet_debits_credits_and_records() {
    let mut w = MockWallet::new();
    w.credit("alice", 1_000_000_000);
    assert_eq!(w.get_balance("alice").unwrap(), "10.00000000");
    assert_eq!(w.get_balance("bob").unwrap(), "0.00000000");

    let tx = w.send("alice", "bob", "1.0", "0").unwrap();
    assert_eq!(w.get_balance("alice").unwrap(), "9.00000000");
    assert_eq!(w.get_balance("bob").unwrap(), "1.00000000");
    let st = w.get_tx_status(&tx).unwrap();
    assert_eq!(st.status, TxState::Pending);
    assert_eq!(st.confirmations, 0);

    // more than the balance fails and changes nothing
    assert!(w.send("alice", "bob", "100.0", "0").is_err());
    assert_eq!(w.get_balance("alice").unwrap(), "9.00000000");
    assert_eq!(w.get_balance("bob").unwrap(), "1.00000000");

    let missing = w.get_tx_status("no-such-id").unwrap();
    assert_eq!(missing.status, TxState::Failed);
}
