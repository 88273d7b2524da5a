use pw_roundtrip::settings::{parse_rates, Settings};

fn fresh() -> Settings {
    Settings::default()
}

#[test]
fn defaults_are_zeroed() {
    let s = fresh();
    assert_eq!(s.rate, 0);
    assert!(s.allow_rates.is_empty());
    assert_eq!(s.quantum, 0);
    assert_eq!(s.min_quantum, 0);
    assert_eq!(s.max_quantum, 0);
}

#[test]
fn rate_updates() {
    let mut s = fresh();
    s.apply_update("clock.rate", "48000");
    assert_eq!(s.rate, 48000);
}

#[test]
fn malformed_rate_is_discarded() {
    let mut s = fresh();
    s.apply_update("clock.rate", "48000");
    s.apply_update("clock.rate", "not-a-number");
    assert_eq!(s.rate, 48000);
}

#[test]
fn quantum_fields_update_independently() {
    let mut s = fresh();
    s.apply_update("clock.quantum", "1024");
    s.apply_update("clock.min-quantum", "32");
    s.apply_update("clock.max-quantum", "8192");
    assert_eq!(s.quantum, 1024);
    assert_eq!(s.min_quantum, 32);
    assert_eq!(s.max_quantum, 8192);
    s.apply_update("clock.min-quantum", "bogus");
    assert_eq!(s.quantum, 1024);
    assert_eq!(s.min_quantum, 32);
    assert_eq!(s.max_quantum, 8192);
}

#[test]
fn unrecognized_key_is_ignored() {
    let mut s = fresh();
    s.apply_update("clock.rate", "44100");
    s.apply_update("clock.rates", "48000");
    s.apply_update("", "48000");
    assert_eq!(s.rate, 44100);
    assert_eq!(s.quantum, 0);
}

#[test]
fn allowed_rates_updates() {
    let mut s = fresh();
    s.apply_update("clock.allowed-rates", "[44100 48000]");
    assert_eq!(s.allow_rates, vec![44100, 48000]);
}

#[test]
fn malformed_allowed_rates_keeps_previous_value() {
    let mut s = fresh();
    s.apply_update("clock.allowed-rates", "[44100 48000]");
    s.apply_update("clock.allowed-rates", "[44100 xyz]");
    assert_eq!(s.allow_rates, vec![44100, 48000]);
    s.apply_update("clock.allowed-rates", "44100 48000");
    assert_eq!(s.allow_rates, vec![44100, 48000]);
    s.apply_update("clock.allowed-rates", "[44100 48000");
    assert_eq!(s.allow_rates, vec![44100, 48000]);
}

#[test]
fn parse_rates_plain() {
    assert_eq!(parse_rates("[44100 48000]"), Some(vec![44100, 48000]));
    assert_eq!(parse_rates("[48000]"), Some(vec![48000]));
    assert_eq!(parse_rates("[ 44100 48000 ]"), Some(vec![44100, 48000]));
}

#[test]
fn parse_rates_malformed() {
    assert_eq!(parse_rates(""), None);
    assert_eq!(parse_rates("[]"), None);
    assert_eq!(parse_rates("[ ]"), None);
    assert_eq!(parse_rates("[44100"), None);
    assert_eq!(parse_rates("44100]"), None);
    assert_eq!(parse_rates("[44100 xyz]"), None);
    // a double space frames an empty chunk, which does not parse
    assert_eq!(parse_rates("[44100  48000]"), None);
}
