use switchboard::bench::{
    bench_args_complete, parse_bench_args, worker_message_count, BenchArgError,
};
use switchboard::cli::{
    cli_args_complete, parse_cli, parse_decimal, text_eq, CliError, ClientMode,
};

fn args(list: &[&str]) -> Vec<String> {
    list.iter().map(|s| s.to_string()).collect()
}

#[test]
fn cli_defaults_serve_on_port_7777() {
    let a = args(&[]);
    assert!(cli_args_complete(&a));
    let c = parse_cli(&a).unwrap();
    assert_eq!(c.host, "0.0.0.0");
    assert_eq!(c.port, 7777);
    assert!(c.client.is_none());
}

#[test]
fn cli_reads_flags_and_skips_others() {
    let a = args(&["--port", "9000", "stray", "--host", "127.0.0.1", "--client", "publish", "--topic", "t", "--message", "m"]);
    assert!(cli_args_complete(&a));
    let c = parse_cli(&a).unwrap();
    assert_eq!(c.port, 9000);
    assert_eq!(c.host, "127.0.0.1");
    match c.client {
        Some(ClientMode::Publish { topic, message }) => {
            assert_eq!(topic, "t");
            assert_eq!(message, "m");
        }
        _ => panic!("expected publish mode"),
    }
}

#[test]
fn cli_subscribe_mode() {
    let a = args(&["--client", "subscribe", "--topic", "news"]);
    match parse_cli(&a).unwrap().client {
        Some(ClientMode::Subscribe { topic }) => assert_eq!(topic, "news"),
        _ => panic!("expected subscribe mode"),
    }
}

#[test]
fn cli_invalid_port() {
    let a = args(&["--port", "70000"]);
    assert!(cli_args_complete(&a));
    match parse_cli(&a) {
        Err(CliError::InvalidPort(v)) => assert_eq!(v, "70000"),
        _ => panic!("expected InvalidPort"),
    }
    let a = args(&["--port", "-1"]);
    assert!(matches!(parse_cli(&a), Err(CliError::InvalidPort(_))));
}

#[test]
fn cli_unknown_mode() {
    let a = args(&["--client", "stream"]);
    let e = parse_cli(&a).unwrap_err();
    assert!(matches!(&e, CliError::UnknownClientMode(m) if m == "stream"));
    assert_eq!(e.message(), "unknown client mode: stream");
    assert_eq!(CliError::InvalidPort("x".to_string()).message(), "invalid port");
}

#[test]
fn cli_flag_without_value_is_incomplete() {
    assert!(!cli_args_complete(&args(&["--topic"])));
    assert!(!cli_args_complete(&args(&["--port", "80", "--host"])));
    // The value of a flag is never read as a flag.
    assert!(cli_args_complete(&args(&["--host", "--port"])));
}

#[test]
fn decimal_parsing_follows_std() {
    assert_eq!(parse_decimal("65535", 65535), Some(65535));
    assert_eq!(parse_decimal("65536", 65535), None);
    assert_eq!(parse_decimal("+42", 65535), Some(42));
    assert_eq!(parse_decimal("007", 65535), Some(7));
    assert_eq!(parse_decimal("", 65535), None);
    assert_eq!(parse_decimal("+", 65535), None);
    assert_eq!(parse_decimal("-0", 65535), None);
    assert_eq!(parse_decimal("1a", 65535), None);
    assert_eq!(parse_decimal("18446744073709551615", u64::MAX), Some(u64::MAX));
    assert_eq!(parse_decimal("18446744073709551616", u64::MAX), None);
    for s in ["0", "1", "123", "+9", "99999", "x", " 1"] {
        assert_eq!(parse_decimal(s, 65535), s.parse::<u16>().ok().map(u64::from));
    }
}

#[test]
fn text_eq_compares_characters() {
    assert!(text_eq("abc", "abc"));
    assert!(!text_eq("abc", "abd"));
    assert!(!text_eq("ab", "abc"));
    assert!(text_eq("", ""));
}

#[test]
fn bench_defaults() {
    let a = args(&[]);
    assert!(bench_args_complete(&a));
    let c = parse_bench_args(&a).unwrap();
    assert_eq!(c.server, "127.0.0.1:7777");
    assert_eq!(c.topics, 1000);
    assert_eq!(c.messages, 100_000);
    assert_eq!(c.parallel, 4);
    assert_eq!(c.payload_size, 64);
}

#[test]
fn bench_reads_flags() {
    let a = args(&["--server", "10.0.0.1:1", "--topics", "5", "--messages", "7", "--parallel", "2", "--payload-size", "+3"]);
    let c = parse_bench_args(&a).unwrap();
    assert_eq!(c.server, "10.0.0.1:1");
    assert_eq!((c.topics, c.messages, c.parallel, c.payload_size), (5, 7, 2, 3));
}

#[test]
fn bench_errors() {
    assert!(matches!(parse_bench_args(&args(&["--topics", "x"])), Err(BenchArgError::InvalidTopics)));
    assert!(matches!(parse_bench_args(&args(&["--messages", ""])), Err(BenchArgError::InvalidMessages)));
    assert!(matches!(parse_bench_args(&args(&["--parallel", "-2"])), Err(BenchArgError::InvalidParallel)));
    assert!(matches!(parse_bench_args(&args(&["--payload-size", "1.5"])), Err(BenchArgError::InvalidPayloadSize)));
    let e = parse_bench_args(&args(&["--verbose"])).unwrap_err();
    assert!(matches!(&e, BenchArgError::UnknownArgument(a) if a == "--verbose"));
    assert_eq!(e.message(), "unknown argument: --verbose");
    assert_eq!(BenchArgError::InvalidParallel.message(), "invalid parallel count");
    assert!(!bench_args_complete(&args(&["--topics"])));
    // An unknown argument is refused before a missing value is noticed.
    assert!(bench_args_complete(&args(&["--nope", "--topics"])));
}

#[test]
fn worker_shares_cover_all_messages() {
    let shares: Vec<usize> = (0..4).map(|w| worker_message_count(10, 4, w)).collect();
    assert_eq!(shares, vec![3, 3, 2, 2]);
    assert_eq!(shares.iter().sum::<usize>(), 10);
    assert_eq!(worker_message_count(5, 1, 0), 5);
    assert_eq!(worker_message_count(usize::MAX, 2, 0), usize::MAX / 2 + 1);
}
