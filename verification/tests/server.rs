use nomadterm::server::{
    advertised_host, bind_address, bind_host, check_auth, connection_string, ipv4_to_string,
    is_trust_answer, lan_address_text, non_empty, parse_ipv4_chars, preferred_connect_host,
    stored_token, tailscale_ip_from, CommandOutput, WsConfig,
};

fn ipv4(s: &str) -> Option<(u8, u8, u8, u8)> {
    parse_ipv4_chars(&s.chars().collect())
}

#[test]
fn check_auth_accepts_bearer_header() {
    let header: &[u8] = b"Bearer secret";
    assert!(check_auth(Some(header), None, "secret"));
}

#[test]
fn check_auth_accepts_query_token() {
    assert!(check_auth(None, Some("secret"), "secret"));
}

#[test]
fn check_auth_rejects_wrong_token() {
    assert!(!check_auth(None, Some("wrong"), "secret"));
}

#[test]
fn check_auth_rejects_malformed_headers() {
    assert!(!check_auth(None, None, "secret"));
    assert!(!check_auth(Some(b"Bearer wrong"), None, "secret"));
    assert!(!check_auth(Some(b"bearer secret"), None, "secret"));
    assert!(!check_auth(Some(b"Bearer  secret"), None, "secret"));
    assert!(!check_auth(Some(b"Basic secret"), None, "secret"));
    assert!(!check_auth(Some(b"Bearer"), None, ""));
    // Bytes outside visible ASCII make the header unreadable as text.
    assert!(!check_auth(Some(b"Bearer secr\xc3\xa9t"), None, "secr\u{e9}t"));
    assert!(!check_auth(Some(b"Bearer secret\n"), None, "secret\n"));
    // A tab is accepted as part of the value.
    assert!(check_auth(Some(b"Bearer a\tb"), None, "a\tb"));
    // The query parameter still admits a request with a bad header.
    assert!(check_auth(Some(b"Bearer wrong"), Some("secret"), "secret"));
    assert!(check_auth(Some(b"Bearer "), None, ""));
}

#[test]
fn preferred_connect_host_prefers_tailscale() {
    let host = preferred_connect_host(Some("100.70.1.2".into()), Some("192.168.1.20".into()));
    assert_eq!(host.as_deref(), Some("100.70.1.2"));
}

#[test]
fn preferred_connect_host_falls_back_to_lan() {
    let host = preferred_connect_host(None, Some("192.168.1.20".into()));
    assert_eq!(host.as_deref(), Some("192.168.1.20"));
}

#[test]
fn preferred_connect_host_none_without_addresses() {
    assert_eq!(preferred_connect_host(None, None), None);
}

#[test]
fn ipv4_parsing() {
    let accepted = [
        ("100.70.1.2", (100, 70, 1, 2)),
        ("0.0.0.0", (0, 0, 0, 0)),
        ("255.255.255.255", (255, 255, 255, 255)),
        ("1.2.3.0", (1, 2, 3, 0)),
        ("10.0.0.1", (10, 0, 0, 1)),
    ];
    for (text, o) in accepted {
        assert_eq!(ipv4(text), Some(o), "{text}");
    }
    let rejected = [
        "256.1.1.1", "1.2.3", "1.2.3.4.5", "01.2.3.4", "1.2.3.04", "1..2.3", "", "1.2.3.4 ",
        "+1.2.3.4", "1.2.3.a", "1234.1.1.1", "1.2.3.", ".1.2.3", "::1",
    ];
    for text in rejected {
        assert_eq!(ipv4(text), None, "{text}");
    }
    assert_eq!(ipv4_to_string((100, 70, 1, 2)), "100.70.1.2");
    assert_eq!(ipv4(&ipv4_to_string((1, 20, 255, 0))), Some((1, 20, 255, 0)));
}

#[test]
fn tailscale_ip_selection() {
    let ok = |s: &str| Some(CommandOutput { success: true, stdout: s.to_string() });
    assert_eq!(tailscale_ip_from(Some("1.2.3.4".into()), None).as_deref(), Some("1.2.3.4"));
    assert_eq!(tailscale_ip_from(Some("".into()), ok("100.64.0.1\n")).as_deref(), Some("100.64.0.1"));
    assert_eq!(tailscale_ip_from(None, ok("100.127.255.255")).as_deref(), Some("100.127.255.255"));
    assert_eq!(tailscale_ip_from(None, ok("100.128.0.1")), None);
    assert_eq!(tailscale_ip_from(None, ok("100.63.0.1")), None);
    assert_eq!(tailscale_ip_from(None, ok("192.168.1.2")), None);
    assert_eq!(tailscale_ip_from(None, ok("  ")), None);
    assert_eq!(
        tailscale_ip_from(None, Some(CommandOutput { success: false, stdout: "100.64.0.1".into() })),
        None
    );
    assert_eq!(tailscale_ip_from(None, None), None);
}

#[test]
fn lan_address_filter() {
    assert_eq!(lan_address_text((192, 168, 1, 20)).as_deref(), Some("192.168.1.20"));
    assert_eq!(lan_address_text((127, 0, 0, 1)), None);
    assert_eq!(lan_address_text((0, 0, 0, 0)), None);
    assert_eq!(non_empty(Some("".into())), None);
    assert_eq!(non_empty(Some("10.0.0.2".into())).as_deref(), Some("10.0.0.2"));
}

#[test]
fn connection_details() {
    assert_eq!(connection_string("10.0.0.2", 7681, "abc"), "ws://10.0.0.2:7681/ws?token=abc");
    assert_eq!(bind_address("0.0.0.0", 7681), "0.0.0.0:7681");
    assert_eq!(advertised_host(true, "0.0.0.0".into(), None), "127.0.0.1");
    assert_eq!(advertised_host(true, "0.0.0.0".into(), Some("100.64.0.1".into())), "100.64.0.1");
    assert_eq!(advertised_host(false, "10.1.1.1".into(), Some("100.64.0.1".into())), "10.1.1.1");
}

#[test]
fn trust_answers() {
    for yes in ["y", "Y", "yes", "YES", "Yes", " yes\n", "yEs"] {
        assert!(is_trust_answer(yes), "{yes:?}");
    }
    for no in ["", "n", "no", "yess", "ye", "y e s", "oui"] {
        assert!(!is_trust_answer(no), "{no:?}");
    }
}

#[test]
fn token_file_contents() {
    assert_eq!(stored_token(Some("  abc \n")).as_deref(), Some("abc"));
    assert_eq!(stored_token(Some(" \n")), None);
    assert_eq!(stored_token(None), None);
}

#[test]
fn generated_token_reads_back() {
    for _ in 0..8 {
        let token = nomadterm::ids::generate_token();
        assert_eq!(stored_token(Some(token.as_str())), Some(token.clone()));
    }
}

#[test]
fn config_defaults() {
    let c = WsConfig::with_workspace("/w".into());
    assert_eq!((c.bind_addr.as_str(), c.port, c.no_tls, c.skip_trust_prompt), ("0.0.0.0", 7681, true, false));
    assert!(c.token_override.is_none() && c.repo_id.is_none());
    let r = WsConfig::for_repo("id".into(), "tok".into(), "/p".into(), 7690);
    assert_eq!((r.port, r.skip_trust_prompt, r.token_override.as_deref(), r.repo_id.as_deref()), (7690, true, Some("tok"), Some("id")));
    assert_eq!(r.workspace_dir, "/p");
}

#[test]
fn bind_host_choice() {
    assert_eq!(bind_host(false, Some("100.64.0.1".into()), None), "0.0.0.0");
    assert_eq!(bind_host(true, Some("100.64.0.1".into()), Some("10.0.0.2".into())), "100.64.0.1");
    assert_eq!(bind_host(true, None, Some("10.0.0.2".into())), "10.0.0.2");
    assert_eq!(bind_host(true, None, None), "0.0.0.0");
}
