use cli_music_player::endpoint::{ProxyConfig, ProxyConfigComponents};

fn opt_config(url: &str) -> Option<ProxyConfig> {
    ProxyConfig::new(url).ok()
}

fn to_component(url: &str) -> Option<ProxyConfigComponents> {
    ProxyConfig::new(url).and_then(|proxy| proxy.into_components()).ok()
}

#[test]
fn valid_urls_are_accepted() {
    assert!(ProxyConfig::is_valid_url("ws://0.0.0.0:1214/devtools/browser/some-token-here"));
    assert!(ProxyConfig::is_valid_url("ws://public.ip:15/devtools/browser/some-token-1415lg"));
    assert!(ProxyConfig::is_valid_url("ws://public.ip.no-port/devtools/browser/some-token-1415lg"));
    assert!(ProxyConfig::is_valid_url("ws://0.0.0.0:1214/devtools/browser/tok-1"));
    assert!(ProxyConfig::is_valid_url("ws://host.no-port/devtools/browser/tok"));
}

#[test]
fn invalid_urls_are_rejected() {
    assert!(!ProxyConfig::is_valid_url("ws://no.token.given/devtools/browser/"));
    assert!(!ProxyConfig::is_valid_url("http://bad.protocol/devtools/browser/some-token"));
    assert!(!ProxyConfig::is_valid_url("ws://no.path.given:15"));
    assert!(!ProxyConfig::is_valid_url("ws://no.token/devtools/browser/"));
    assert!(!ProxyConfig::is_valid_url("http://bad/devtools/browser/tok"));
    assert!(!ProxyConfig::is_valid_url("ws://no.path:15"));
    assert!(!ProxyConfig::is_valid_url("http://host/devtools/browser/tok"));
    assert!(!ProxyConfig::is_valid_url("ws://host/devtools/browser/"));
    assert!(!ProxyConfig::is_valid_url("ws://host:15"));
    assert!(!ProxyConfig::is_valid_url("ws:///devtools/browser/tok"));
    assert!(!ProxyConfig::is_valid_url("ws://host:/devtools/browser/tok"));
    assert!(!ProxyConfig::is_valid_url("ws://host:1x/devtools/browser/tok"));
    assert!(!ProxyConfig::is_valid_url("xws://host/devtools/browser/tok"));
}

#[test]
fn new_accepts_exactly_the_valid_urls() {
    assert!(matches!(opt_config("ws://0.0.0.0:1214/devtools/browser/some-token-here"), Some(_)));
    assert!(matches!(opt_config("ws://public.ip:15/devtools/browser/some-token-1415lg"), Some(_)));
    assert!(matches!(opt_config("ws://public.ip.no-port/devtools/browser/some-token-1415lg"), Some(_)));
    assert_eq!(None, opt_config("ws://no.token.given/devtools/browser/"));
    assert_eq!(None, opt_config("http://bad.protocol/devtools/browser/some-token"));
    assert_eq!(None, opt_config("ws://no.path.given:15"));
}

#[test]
fn malformed_url_message_names_the_url() {
    assert_eq!(ProxyConfig::new("ws://x:1"), Err("url ws://x:1 doesn't conform to format".to_string()));
}

#[test]
fn components_are_extracted() {
    assert_eq!(
        Some(ProxyConfigComponents::new("0.0.0.0", Some(1214), "some-token-here")),
        to_component("ws://0.0.0.0:1214/devtools/browser/some-token-here")
    );
    assert_eq!(
        Some(ProxyConfigComponents::new("public.ip", Some(15), "some-token-1415lg")),
        to_component("ws://public.ip:15/devtools/browser/some-token-1415lg")
    );
    assert_eq!(
        Some(ProxyConfigComponents::new("public.ip.no-port", None, "some-token-1415lg")),
        to_component("ws://public.ip.no-port/devtools/browser/some-token-1415lg")
    );
    assert_eq!(
        Some(ProxyConfigComponents::new("public.ip.no-port", None, "tok")),
        to_component("ws://public.ip.no-port/devtools/browser/tok")
    );
    assert_eq!(None, to_component("ws://no.token.given/devtools/browser/"));
    assert_eq!(None, to_component("http://bad.protocol/devtools/browser/some-token"));
    assert_eq!(None, to_component("ws://no.path.given:15"));
}

#[test]
fn port_out_of_range_does_not_decompose() {
    assert!(ProxyConfig::is_valid_url("ws://h:65536/devtools/browser/t"));
    assert!(ProxyConfig::new("ws://h:65536/devtools/browser/t").unwrap().into_components().is_err());
    assert_eq!(
        to_component("ws://h:65535/devtools/browser/t"),
        Some(ProxyConfigComponents::new("h", Some(65535), "t"))
    );
}

#[test]
fn token_may_hold_any_characters() {
    assert_eq!(
        to_component("ws://h/devtools/browser/a/b:c"),
        Some(ProxyConfigComponents::new("h", None, "a/b:c"))
    );
}

#[test]
fn url_round_trip() {
    for u in [
        "ws://0.0.0.0:1214/devtools/browser/some-token-here",
        "ws://public.ip.no-port/devtools/browser/tok",
        "ws://localhost:0/devtools/browser/x",
        "ws://h:65535/devtools/browser/t",
    ] {
        let c = to_component(u).unwrap();
        let back = ProxyConfig::from_components(&c.ip, c.port, &c.token);
        assert_eq!(back.debug_ws_url(), u);
    }
}

#[test]
fn endpoint_round_trip() {
    for (h, p, t) in [("localhost", Some(9222u16), "abc"), ("1.2.3.4", None, "t-1"), ("h", Some(7), "x")] {
        let conf = ProxyConfig::from_components(h, p, t);
        assert_eq!(conf.into_components(), Ok(ProxyConfigComponents::new(h, p, t)));
    }
}

#[test]
fn from_components_formats_the_port_in_decimal() {
    let c = ProxyConfig::from_components("localhost", Some(49153), "tok");
    assert_eq!(c.debug_ws_url(), "ws://localhost:49153/devtools/browser/tok");
    let d = ProxyConfig::from_components("localhost", None, "tok");
    assert_eq!(d.debug_ws_url(), "ws://localhost/devtools/browser/tok");
}

#[test]
fn leading_zero_port_is_rewritten_canonically() {
    let c = to_component("ws://h:015/devtools/browser/t").unwrap();
    assert_eq!(c, ProxyConfigComponents::new("h", Some(15), "t"));
    let back = ProxyConfig::from_components(&c.ip, c.port, &c.token);
    assert_eq!(back.debug_ws_url(), "ws://h:15/devtools/browser/t");
}
