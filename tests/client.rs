use sluice::client::{
    check_endpoint, starts_with, EndpointError, EndpointScheme,
    chrono_format, output_format_of_lowered, parse_output_format, reconnect_backoff, CreditWindow,
    OutputFormat,
};

#[test]
fn backoff_increases_and_caps() {
    let d0 = reconnect_backoff(0);
    let d1 = reconnect_backoff(1);
    let d2 = reconnect_backoff(2);
    assert!(d0 < d1);
    assert!(d1 < d2);

    let capped = reconnect_backoff(999);
    assert_eq!(capped, 5_000);
}

#[test]
fn backoff_exact_values() {
    assert_eq!(reconnect_backoff(0), 100);
    assert_eq!(reconnect_backoff(3), 800);
    assert_eq!(reconnect_backoff(5), 3_200);
    assert_eq!(reconnect_backoff(6), 5_000);
}

#[test]
fn output_format_parses_any_case() {
    assert_eq!(parse_output_format("text"), Ok(OutputFormat::Text));
    assert_eq!(parse_output_format("JSON"), Ok(OutputFormat::Json));
    assert_eq!("Json".parse::<OutputFormat>(), Ok(OutputFormat::Json));
    assert_eq!(
        parse_output_format("yaml"),
        Err("unknown output format: yaml".to_string())
    );
    assert_eq!(output_format_of_lowered("text"), Some(OutputFormat::Text));
    assert_eq!(output_format_of_lowered("TEXT"), None);
}

#[test]
fn chrono_format_shows_seconds() {
    assert_eq!(chrono_format(0), "-");
    assert_eq!(chrono_format(1_704_067_200_123), "1704067200");
    assert_eq!(chrono_format(999), "0");
    assert_eq!(chrono_format(-1_500), "-1");
}

#[test]
fn credit_window_refills_below_half() {
    let mut w = CreditWindow::new(10);
    assert_eq!(w.maybe_refill_credits(), None);
    for _ in 0..6 {
        w.consume_credit();
    }
    assert_eq!(w.remaining_credits(), 4);
    assert_eq!(w.maybe_refill_credits(), Some(10));
    assert_eq!(w.remaining_credits(), 14);
    assert_eq!(w.credits_window(), 10);
}

#[test]
fn credit_window_never_negative() {
    let mut w = CreditWindow::new(0);
    w.consume_credit();
    assert_eq!(w.remaining_credits(), 0);
}

#[test]
fn endpoint_checks_scheme_and_tls_options() {
    assert_eq!(
        check_endpoint("http://localhost:50051", false, false),
        Ok(EndpointScheme::Plain)
    );
    assert_eq!(
        check_endpoint("http://localhost:50051", true, false),
        Err(EndpointError::TlsOptionsWithoutHttps)
    );
    assert_eq!(
        check_endpoint("https://broker:443", true, true),
        Ok(EndpointScheme::Tls)
    );
    assert_eq!(
        check_endpoint("https://broker:443", false, true),
        Err(EndpointError::MissingTlsCa)
    );
    assert_eq!(
        check_endpoint("grpc://broker", false, false),
        Err(EndpointError::UnknownScheme)
    );
    assert!(starts_with("abc", "ab"));
    assert!(!starts_with("ab", "abc"));
}
