use card_proxy::clock::{chrono_now, clock_label, timestamp_label, unix_seconds};
use card_proxy::config::{arg, load_config, parse_port, trim_trailing_slashes, EnvSettings};
use card_proxy::json::decimal;
use card_proxy::store::{is_expired, sweep_cutoff};

fn args(list: &[&str]) -> Vec<String> {
    list.iter().map(|s| s.to_string()).collect()
}

fn no_env() -> EnvSettings {
    EnvSettings { port: None, store_dir: None, public_url: None }
}

#[test]
fn arg_takes_the_value_after_the_first_flag() {
    let a = args(&["prog", "--port", "8080", "--port", "9090", "--dir"]);
    assert_eq!(arg(&a, "--port"), Some("8080".to_string()));
    assert_eq!(arg(&a, "--dir"), None);
    assert_eq!(arg(&a, "--ttl-hours"), None);
    assert_eq!(arg(&a, "8080"), Some("--port".to_string()));
}

#[test]
fn ports_read_as_std_reads_a_u16() {
    assert_eq!(parse_port("3000"), Some(3000));
    assert_eq!(parse_port("+80"), Some(80));
    assert_eq!(parse_port("0065535"), Some(65535));
    assert_eq!(parse_port("65536"), None);
    assert_eq!(parse_port("99999999999999999999"), None);
    assert_eq!(parse_port(""), None);
    assert_eq!(parse_port("+"), None);
    assert_eq!(parse_port("-1"), None);
    assert_eq!(parse_port(" 80"), None);
    assert_eq!(parse_port("8o"), None);
    for p in [0u16, 1, 9, 10, 443, 3000, 65535] {
        assert_eq!(parse_port(&p.to_string()), p.to_string().parse::<u16>().ok());
    }
}

#[test]
fn config_prefers_flags_then_environment_then_defaults() {
    let cfg = load_config(&args(&["prog"]), no_env(), 259200);
    assert_eq!(cfg.port, 3000);
    assert_eq!(cfg.dir, "./store");
    assert_eq!(cfg.ttl_secs, 259200);
    assert_eq!(cfg.public_url, "");
    let env = EnvSettings {
        port: Some("4000".to_string()),
        store_dir: Some("/var/cap".to_string()),
        public_url: Some("https://env.example//".to_string()),
    };
    let cfg = load_config(&args(&["prog"]), env, 1);
    assert_eq!(cfg.port, 4000);
    assert_eq!(cfg.dir, "/var/cap");
    assert_eq!(cfg.public_url, "https://env.example");
    let env = EnvSettings { port: Some("4000".to_string()), store_dir: None, public_url: None };
    let cfg = load_config(
        &args(&["prog", "--port", "nope", "--dir", "d", "--public-url", "https://a.b/c/"]),
        env,
        1,
    );
    // an unreadable flag value does not fall back to the environment
    assert_eq!(cfg.port, 3000);
    assert_eq!(cfg.dir, "d");
    assert_eq!(cfg.public_url, "https://a.b/c");
}

#[test]
fn trailing_slashes_go() {
    assert_eq!(trim_trailing_slashes("https://x///"), "https://x");
    assert_eq!(trim_trailing_slashes("///"), "");
    assert_eq!(trim_trailing_slashes("a/b"), "a/b");
}

#[test]
fn decimals_and_time_labels() {
    assert_eq!(decimal(0), "0");
    assert_eq!(decimal(7), "7");
    assert_eq!(decimal(1725029869), "1725029869");
    assert_eq!(decimal(u64::MAX), u64::MAX.to_string());
    assert_eq!(timestamp_label(1700000000), "1700000000s-since-epoch");
}

#[test]
fn the_clock_reads_after_2020() {
    let now = unix_seconds().unwrap();
    assert!(now > 1_577_836_800);
    let label = chrono_now();
    assert!(label.ends_with("s-since-epoch"));
    let secs: u64 = label.trim_end_matches("s-since-epoch").parse().unwrap();
    assert!(secs >= now);
}

#[test]
fn sweep_removes_only_old_json_files() {
    assert_eq!(sweep_cutoff(Some(10_000), 3600), 6400);
    assert_eq!(sweep_cutoff(Some(100), 3600), 0);
    assert_eq!(sweep_cutoff(None, 3600), u64::MAX - 3600);
    let cutoff = sweep_cutoff(Some(10_000), 3600);
    assert!(is_expired(Some("json"), Some(6399), cutoff));
    assert!(!is_expired(Some("json"), Some(6400), cutoff));
    assert!(!is_expired(Some("txt"), Some(1), cutoff));
    assert!(!is_expired(None, Some(1), cutoff));
    assert!(!is_expired(Some("json"), None, cutoff));
}

#[test]
fn clock_labels_count_a_clock_before_the_epoch_as_zero() {
    assert_eq!(clock_label(None), "0s-since-epoch");
    assert_eq!(clock_label(Some(1725029869)), "1725029869s-since-epoch");
}
