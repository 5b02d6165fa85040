use nomadterm::desktop::{
    connection_strategy, hcom_db_path, new_repo_row, nomadterm_bin_candidates, pick_nomadterm_bin,
    repo_name, server_args, ConnectionStrategyKind, RepoEntry, RepoRow,
};
use nomadterm::gui::{
    button_label, detail_view, pairing_uri, port_for_index, port_text, repo_label, status_text, urlencoding_simple,
    RepoEntry as GuiRepo, RepoList, ServerEvent, SessionCounts, BASE_PORT,
};
use nomadterm::registry::Registry;
use nomadterm::server::{tailscale_ip_from, CommandOutput};

fn repo(id: &str) -> GuiRepo {
    GuiRepo {
        id: id.into(),
        path: format!("/r/{id}"),
        name: id.into(),
        token: "t".into(),
        added_at: 1,
        last_seen: None,
        is_active: false,
    }
}

#[test]
fn repo_list_add_select_remove() {
    let mut l = RepoList::new(vec![repo("a"), repo("b")]);
    assert_eq!(l.selected(), None);
    assert_eq!(l.remove_selected(), None);
    l.add(repo("c"));
    assert_eq!(l.selected(), Some(2));
    l.select(0);
    // Removing the first selects the new first.
    assert_eq!(l.remove_selected().as_deref(), Some("a"));
    assert_eq!(l.selected(), Some(0));
    let ids: Vec<&str> = l.entries().iter().map(|r| r.id.as_str()).collect();
    assert_eq!(ids, vec!["b", "c"]);
    l.select(1);
    assert_eq!(l.remove_selected().as_deref(), Some("c"));
    assert_eq!(l.selected(), Some(0));
    assert_eq!(l.remove_selected().as_deref(), Some("b"));
    assert_eq!(l.selected(), None);
    assert!(l.entries().is_empty());
}

#[test]
fn repo_list_marks_active() {
    let mut l = RepoList::new(vec![repo("a"), repo("b")]);
    l.set_active(1, true);
    assert!(l.entries()[1].is_active && !l.entries()[0].is_active);
    assert_eq!(repo_label(true, "b"), "\u{25cf} b");
    assert_eq!(repo_label(false, "a"), "  a");
}

#[test]
fn session_counts_from_events() {
    let mut c = SessionCounts::new();
    assert_eq!(c.count("r1"), 0);
    c.apply(ServerEvent::SessionCount { repo_id: "r1".into(), count: 3 });
    c.apply(ServerEvent::Started { repo_id: "r2".into() });
    assert_eq!(c.count("r1"), 3);
    assert_eq!(c.count("r2"), 0);
    c.apply(ServerEvent::SessionCount { repo_id: "r1".into(), count: 1 });
    c.apply(ServerEvent::Stopped { repo_id: "r1".into() });
    assert_eq!(c.count("r1"), 1);
}

#[test]
fn detail_panel_texts() {
    assert_eq!(port_for_index(0), BASE_PORT);
    assert_eq!(port_for_index(3), 7685);
    assert_eq!(status_text(true, 2), "\u{25cf} Running   Sessions: 2");
    assert_eq!(status_text(false, 2), "\u{25cb} Stopped");
    assert_eq!(button_label(true), "\u{25a0} Stop");
    assert_eq!(button_label(false), "\u{25b6} Start");
    assert_eq!(port_text(7682), "Port: 7682");
}

#[test]
fn url_encoding_of_names() {
    assert_eq!(urlencoding_simple("my repo"), "my%20repo");
    assert_eq!(urlencoding_simple("a-b_c.d/e"), "a-b_c.d/e");
    assert_eq!(urlencoding_simple("caf\u{e9}"), "caf\u{e9}");
    assert_eq!(urlencoding_simple("x&y"), "x%26y");
    assert_eq!(urlencoding_simple("\u{20ac}"), "%20AC");
    assert_eq!(urlencoding_simple("\n"), "%0A");
    // Nothing in an encoded name can split the query of the pairing URL.
    let enc = urlencoding_simple("a&b=c?d#e f+g");
    assert_eq!(enc, "a%26b%3Dc%3Fd%23e%20f%2Bg");
    assert!(!enc.contains(['&', '=', '?', '#', ' ']));
    assert_eq!(
        pairing_uri("10.0.0.2", 7682, "tok", "id1", "my repo"),
        "nomadterm://10.0.0.2:7682?token=tok&repo_id=id1&repo_name=my%20repo&tls=0"
    );
}

#[test]
fn repo_rows() {
    assert_eq!(repo_name("/home/me/project"), "project");
    assert_eq!(repo_name("/"), "/");
    assert_eq!(hcom_db_path(Some("/home/me".into())), "/home/me/.nomadterm/nomadterm.db");
    assert_eq!(hcom_db_path(None), "./.nomadterm/nomadterm.db");
    let row = new_repo_row("/home/me/project", 42);
    assert_eq!((row.path.as_str(), row.name.as_str(), row.added_at), ("/home/me/project", "project", 42));
    assert_eq!(row.id.len(), 36);
    assert_eq!(row.token.len(), 64);
    assert!(!row.is_active && row.last_seen.is_none());
    let e = RepoEntry::from(RepoRow { last_seen: Some(7), is_active: true, ..row });
    assert_eq!((e.last_seen, e.is_active, e.added_at), (Some(7), true, 42));
}

#[test]
fn strategy_choice() {
    let s = connection_strategy(Some("100.64.0.2".into()), Some("192.168.1.2".into()));
    assert_eq!((s.kind, s.host.as_deref(), s.remote_capable, s.secure), (ConnectionStrategyKind::Tailscale, Some("100.64.0.2"), true, true));
    assert!(s.bind_tailscale());
    let s = connection_strategy(None, Some("192.168.1.2".into()));
    assert_eq!((s.kind, s.host.as_deref(), s.remote_capable, s.secure), (ConnectionStrategyKind::Lan, Some("192.168.1.2"), false, false));
    assert!(!s.bind_tailscale());
    let s = connection_strategy(None, None);
    assert_eq!((s.kind, s.host, s.remote_capable), (ConnectionStrategyKind::LocalOnly, None, false));
}

#[test]
fn desktop_tailscale_detection() {
    // The desktop app reports the Tailscale address by the daemon's rule.
    let ok = Some(CommandOutput { success: true, stdout: " 100.64.0.9\n".into() });
    assert_eq!(tailscale_ip_from(None, ok).as_deref(), Some("100.64.0.9"));
    let lan = Some(CommandOutput { success: true, stdout: "10.0.0.1\n".into() });
    assert_eq!(tailscale_ip_from(None, lan), None);
    let odd = Some(CommandOutput { success: true, stdout: "not an ip".into() });
    assert_eq!(tailscale_ip_from(None, odd), None);
    assert_eq!(tailscale_ip_from(Some("1.1.1.1".into()), None).as_deref(), Some("1.1.1.1"));
}

#[test]
fn daemon_launch() {
    assert_eq!(
        server_args(true, 7682, "tok", "/r"),
        vec!["--ws", "--no-tls", "--go", "--bind-tailscale", "--port", "7682", "--token", "tok", "--workspace", "/r"]
    );
    assert_eq!(
        server_args(false, 9, "t", "/p"),
        vec!["--ws", "--no-tls", "--go", "--port", "9", "--token", "t", "--workspace", "/p"]
    );
    assert_eq!(
        nomadterm_bin_candidates("/x/target/debug"),
        vec![
            "/x/target/debug/nomadterm",
            "/x/target/debug/../../../target/debug/nomadterm",
            "/x/target/debug/../../../target/release/nomadterm",
            "/x/target/debug/../../../../target/debug/nomadterm",
            "/x/target/debug/../../../../target/release/nomadterm",
        ]
    );
    assert_eq!(pick_nomadterm_bin(Some("/a".into()), vec![Some("/b".into())]), "/a");
    assert_eq!(pick_nomadterm_bin(None, vec![None, Some("/b".into()), Some("/c".into())]), "/b");
    assert_eq!(pick_nomadterm_bin(None, vec![None, None]), "nomadterm");
}

#[test]
fn registry_of_servers() {
    let mut r: Registry<u16> = Registry::new();
    assert!(!r.contains("repo"));
    r.insert("repo".into(), 7682);
    assert_eq!(r.get("repo"), Some(&7682));
    r.insert("repo".into(), 7683);
    assert_eq!(r.get("repo"), Some(&7683));
    assert_eq!(r.remove("repo"), Some(7683));
    assert_eq!(r.remove("repo"), None);
}

#[test]
fn detail_view_of_selection() {
    let mut l = RepoList::new(vec![repo("a"), GuiRepo { name: "my repo".into(), ..repo("b") }]);
    assert!(detail_view(&l, false, 0, None).is_none());
    l.select(1);
    let v = detail_view(&l, false, 0, None).unwrap();
    assert_eq!((v.name.as_str(), v.path.as_str(), v.port), ("my repo", "/r/b", 7683));
    assert_eq!((v.status_line.as_str(), v.button.as_str()), ("\u{25cb} Stopped", "\u{25b6} Start"));
    assert!(v.pairing_uri.is_none() && !v.no_host_warning);
    let v = detail_view(&l, true, 4, None).unwrap();
    assert_eq!(v.status_line, "\u{25cf} Running   Sessions: 4");
    assert_eq!(v.port_line, "Port: 7683");
    assert_eq!(
        v.pairing_uri.as_deref(),
        Some("nomadterm://127.0.0.1:7683?token=t&repo_id=b&repo_name=my%20repo&tls=0")
    );
    assert!(v.no_host_warning);
    let v = detail_view(&l, true, 4, Some("100.64.0.3".into())).unwrap();
    assert!(v.pairing_uri.unwrap().starts_with("nomadterm://100.64.0.3:7683?"));
    assert!(!v.no_host_warning);
}

fn percent_decode(t: &str) -> String {
    let c: Vec<char> = t.chars().collect();
    let mut out = String::new();
    let mut i = 0;
    while i < c.len() {
        if c[i] == '%' && i + 2 < c.len() {
            let v = u32::from_str_radix(&c[i + 1..i + 3].iter().collect::<String>(), 16).unwrap();
            out.push(char::from_u32(v).unwrap());
            i += 3;
        } else {
            out.push(c[i]);
            i += 1;
        }
    }
    out
}

#[test]
fn url_encoding_decodes_back() {
    for name in ["my repo", "a&b=c?d#e f+g", "100%", "tab\there", "~user/proj (copy)", ""] {
        let enc = urlencoding_simple(name);
        assert!(enc.chars().all(|c| c.is_ascii_alphanumeric() || "-_./%".contains(c)), "{enc}");
        assert_eq!(percent_decode(&enc), name);
    }
}
