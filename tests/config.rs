use thunda::config::Config;

#[test]
fn config_defaults() {
    let c = Config::new();
    assert_eq!(c.log_level, "info");
    assert_eq!(c.frame_rx_max_len, 2048);
    assert_eq!(c.mac_address, "02:00:00:77:77:77");
    assert!(c.ipv4_support);
    assert!(c.ipv6_support);
    c.apply();
}
