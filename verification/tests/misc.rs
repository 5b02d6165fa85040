use nomadterm::ids::{generate_token, new_uuid_v4};
use nomadterm::qr::{qr_image, qr_pixels, qr_terminal};
use nomadterm::runtime_env::{build_nomadterm_command, get_nomadterm_prefix, terminal_title_sequence};
use nomadterm::text::{i32_to_string, parse_i32_chars, parse_u64_chars, trim_chars, u64_to_string};
use nomadterm::usage::{energy_reading, rapl_energy_delta};

#[test]
fn tokens_are_hex() {
    let a = generate_token();
    let b = generate_token();
    assert_eq!(a.len(), 64);
    assert!(a.chars().all(|c| c.is_ascii_hexdigit() && !c.is_ascii_uppercase()));
    assert_ne!(a, b);
}

#[test]
fn uuids_are_version_4() {
    let u = new_uuid_v4();
    assert_eq!(u.len(), 36);
    let parts: Vec<&str> = u.split('-').collect();
    assert_eq!(parts.iter().map(|p| p.len()).collect::<Vec<_>>(), vec![8, 4, 4, 4, 12]);
    assert!(parts[2].starts_with('4'));
    assert!(matches!(parts[3].chars().next(), Some('8' | '9' | 'a' | 'b')));
    assert_eq!(u.to_lowercase(), u);
    assert_ne!(u, new_uuid_v4());
}

#[test]
fn qr_pixels_layout() {
    // 2x2 modules: dark, light / light, dark.
    let px = qr_pixels(2, &vec![true, false, false, true]);
    assert_eq!(px.len(), 8 * 8 * 3);
    let at = |x: usize, y: usize| px[(y * 8 + x) * 3];
    assert_eq!(at(0, 0), 0);
    assert_eq!(at(3, 3), 0);
    assert_eq!(at(4, 0), 255);
    assert_eq!(at(0, 4), 255);
    assert_eq!(at(7, 7), 0);
    assert_eq!(px[(5 * 8 + 6) * 3 + 2], 0);
}

#[test]
fn qr_of_pairing_url() {
    let (side, px) = qr_image("nomadterm://10.0.0.2:7682?token=abc&tls=0").unwrap();
    assert!(side >= 21 * 4);
    assert_eq!(px.len(), side * side * 3);
    assert!(px.iter().all(|&b| b == 0 || b == 255));
    let text = qr_terminal(b"ws://127.0.0.1:7681/ws?token=abc").unwrap();
    assert!(text.contains('\u{2588}'));
    let too_long = vec![b'x'; 5000];
    assert_eq!(qr_terminal(&too_long), Err("data too long".to_string()));
    assert!(qr_image(&"y".repeat(5000)).is_none());
}

#[test]
fn qr_matches_the_encoder() {
    let url = "ws://192.168.1.20:7681/ws?token=0123abcd";
    let code = qrcode::QrCode::new(url.as_bytes()).unwrap();
    let expected = code.render::<char>().quiet_zone(false).module_dimensions(2, 1).build();
    let text = qr_terminal(url.as_bytes()).unwrap();
    assert_eq!(text, expected);
    let w = code.width();
    assert_eq!(text.lines().count(), w);
    assert!(text.lines().all(|l| l.chars().count() == 2 * w));

    let (side, px) = qr_image(url).unwrap();
    assert_eq!(side, w * 4);
    for y in 0..w {
        for x in 0..w {
            let dark = code[(x, y)] == qrcode::Color::Dark;
            let p = px[((y * 4 + 2) * side + x * 4 + 1) * 3];
            assert_eq!(p, if dark { 0 } else { 255 });
        }
    }
}

#[test]
fn command_prefix() {
    let uv = Some(vec!["/".to_string(), "home".into(), "uv".into(), "bin".into()]);
    assert_eq!(get_nomadterm_prefix(false, uv.clone()), vec!["uvx", "nomadterm"]);
    assert_eq!(get_nomadterm_prefix(true, uv), vec!["nomadterm"]);
    assert_eq!(get_nomadterm_prefix(false, None), vec!["nomadterm"]);
    assert_eq!(get_nomadterm_prefix(false, Some(vec!["uvx".into()])), vec!["nomadterm"]);
    assert_eq!(build_nomadterm_command(&vec!["uvx".into(), "nomadterm".into()]), "uvx nomadterm");
    assert_eq!(build_nomadterm_command(&vec!["nomadterm".into()]), "nomadterm");
    assert_eq!(build_nomadterm_command(&vec![]), "");
    assert_eq!(terminal_title_sequence("abc"), "\x1b]1;nomadterm: abc\x07\x1b]2;nomadterm: abc\x07");
}

#[test]
fn numbers_as_text() {
    for n in [0i32, 7, -7, 10, 2147483647, -2147483648] {
        assert_eq!(i32_to_string(n), n.to_string());
        assert_eq!(parse_i32_chars(&n.to_string().chars().collect()), Some(n));
    }
    assert_eq!(u64_to_string(u64::MAX), u64::MAX.to_string());
    for bad in ["", "-", "+", "1 2", "0x10", "2147483648", "-2147483649", "99999999999999999999"] {
        assert_eq!(parse_i32_chars(&bad.chars().collect()), None, "{bad}");
    }
    let t: String = trim_chars(&" \u{3000}a b\t\n".chars().collect()).into_iter().collect();
    assert_eq!(t, "a b");
}

#[test]
fn energy_counter_reading() {
    assert_eq!(energy_reading("123456789\n"), Some(123456789));
    assert_eq!(energy_reading("  +42 "), Some(42));
    assert_eq!(energy_reading("18446744073709551615"), Some(u64::MAX));
    assert_eq!(energy_reading("18446744073709551616"), None);
    assert_eq!(energy_reading("-1"), None);
    assert_eq!(energy_reading(""), None);
    assert_eq!(energy_reading("12a"), None);
    for n in [0u64, 9, 10, 1 << 40, u64::MAX] {
        assert_eq!(parse_u64_chars(&n.to_string().chars().collect()), Some(n));
        assert_eq!(energy_reading(&n.to_string()), n.to_string().parse().ok());
    }
}

#[test]
fn energy_counter_delta() {
    assert_eq!(rapl_energy_delta(100, 350), 250);
    // The counter wraps at 2^32.
    assert_eq!(rapl_energy_delta(0xffff_fff0, 5), 21);
    assert_eq!(rapl_energy_delta(4_000_000_000, 1_000_000), (1u64 << 32) - 4_000_000_000 + 1_000_000);
    assert_eq!(rapl_energy_delta(7, 7), 0);
}
