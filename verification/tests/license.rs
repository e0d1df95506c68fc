use serde_json::Value;
use tagtiger::license::{
    default_font_size, default_theme, digits_of_code, expected_key, format_key, is_valid,
    normalize_key, Settings, LARGE_FONT_PX, MEDIUM_FONT_PX, SMALL_FONT_PX,
};

/// Settings from a stored file; what is missing takes its default.
fn stored(json: &str) -> Settings {
    let v: Value = serde_json::from_str(json).unwrap();
    let text = |key: &str| v.get(key).and_then(Value::as_str).map(str::to_string);
    Settings {
        license_key: text("license_key").unwrap_or_default(),
        license_email: text("license_email").unwrap_or_default(),
        tag_count: v.get("tag_count").and_then(Value::as_u64).unwrap_or(0),
        tmdb_bearer_token: text("tmdb_bearer_token").unwrap_or_default(),
        theme: text("theme").unwrap_or_else(default_theme),
        font_size: text("font_size").unwrap_or_else(default_font_size),
    }
}

/// The font size in pixels, given that of the system.
fn pixels(s: &Settings, system: f32) -> f32 {
    match s.font_size_px() {
        Some(px) => px as f32,
        None => system,
    }
}

#[test]
fn expected_key_is_16_upper_hex() {
    let k = expected_key("user@example.com");
    assert_eq!(k.len(), 16);
    assert!(k.chars().all(|c| c.is_ascii_hexdigit() && !c.is_lowercase()));
}

#[test]
fn validation_is_case_and_dash_insensitive_and_email_normalized() {
    let email = "User@Example.com";
    let raw = expected_key(email);
    let dashed = format_key(&raw);
    assert!(is_valid(&raw, email));
    assert!(is_valid(&dashed, email));
    assert!(is_valid(&raw.to_lowercase(), email));
    assert!(is_valid(&raw, "  user@example.com  "));
}

#[test]
fn rejects_bad_key_or_empty_email() {
    let email = "user@example.com";
    assert!(!is_valid("0000-0000-0000-0000", email));
    assert!(!is_valid(&expected_key(email), ""));
    assert!(!is_valid("", email));
    assert!(!is_valid(&expected_key("a@b.com"), "c@d.com"));
}

#[test]
fn keys_are_valid_for_addresses_in_any_script() {
    let email = " J\u{d6}rg.\u{39f}\u{394}\u{39f}\u{3a3}@EXAMPLE.com\t";
    let key = expected_key(email);
    assert!(is_valid(&key, email));
    assert!(is_valid(&format_key(&key), email.trim()));
    assert!(is_valid(&key.to_lowercase(), &email.to_ascii_lowercase()));
    assert!(is_valid(&key, &email.to_lowercase()));
    assert_eq!(key, expected_key(email.to_lowercase().trim()));
    assert!(!is_valid(&key, "jorg.odos@example.com"));
}

#[test]
fn blanks_and_ascii_case_make_no_difference_to_any_address() {
    let blanks = ['\t', '\u{85}', '\u{a0}', '\u{1680}', '\u{2003}', '\u{2028}', '\u{3000}'];
    let letters: Vec<char> = ('\0'..=char::MAX)
        .filter(|c| c.to_lowercase().ne(std::iter::once(*c)) || c.to_uppercase().count() > 1)
        .collect();
    assert!(letters.len() > 1000);
    for (i, c) in letters.iter().enumerate() {
        let blank = blanks[i % blanks.len()];
        let email = format!("{blank}A{c}Z.{c}\u{3a3}{blank}");
        let key = expected_key(&email);
        assert_eq!(key, expected_key(email.to_lowercase().trim()), "{email:?}");
        assert_eq!(key, expected_key(email.trim()), "{email:?}");
        assert_eq!(key, expected_key(&email.to_ascii_lowercase()), "{email:?}");
        assert!(is_valid(&key, email.trim()), "{email:?}");
    }
}

#[test]
fn shown_keys_read_back() {
    for key in ["ABCDEF0123456789", "abcd-1234", "0123456789abcdefXYZ", "", "-"] {
        let clean = normalize_key(key);
        let first: String = clean.chars().take(16).collect();
        assert_eq!(normalize_key(&format_key(key)), first);
        assert_eq!(format_key(&format_key(key)), format_key(key));
    }
}

#[test]
fn format_key_groups_in_fours() {
    assert_eq!(format_key("ABCDEF0123456789"), "ABCD-EF01-2345-6789");
    assert_eq!(format_key("abcd1234"), "ABCD-1234");
}

#[test]
fn keys_are_cut_and_cleaned() {
    assert_eq!(format_key(""), "");
    assert_eq!(format_key("abcd"), "ABCD");
    assert_eq!(format_key("abcde"), "ABCD-E");
    assert_eq!(format_key("0123456789abcdefXYZ"), "0123-4567-89AB-CDEF");
    assert_eq!(normalize_key(" ab-cd é1 "), "ABCD1");
    assert_eq!(normalize_key(&normalize_key("a-b")), "AB");
}

#[test]
fn codes_are_shown_in_hexadecimal() {
    let code: Vec<u8> = vec![0x00, 0x1f, 0xa0, 0xff, 0x12, 0x34, 0x56, 0x78, 0x9a];
    assert_eq!(digits_of_code(&code), "001FA0FF12345678");
}

#[test]
fn theme_defaults_to_dark_and_is_backward_compatible() {
    let s = stored("{}");
    assert_eq!(s.theme, "Dark");
    assert!(s.theme_is_dark());
    let light = stored(r#"{"theme":"Light"}"#);
    assert!(!light.theme_is_dark());
    let dark = stored(r#"{"theme":"Dark"}"#);
    assert!(dark.theme_is_dark());
    assert!(Settings::default().theme_is_dark());
    assert!(!stored(r#"{"theme":"lIGHT"}"#).theme_is_dark());
}

#[test]
fn font_size_defaults_to_system_and_maps_to_pixels() {
    let s = stored("{}");
    assert_eq!(s.font_size, "System");
    assert_eq!(s.font_size_index(), 0);
    assert_eq!(pixels(&s, 17.0), 17.0);

    let small = stored(r#"{"font_size":"Small"}"#);
    assert_eq!(small.font_size_index(), 1);
    assert_eq!(pixels(&small, 17.0), SMALL_FONT_PX as f32);
    assert_eq!(pixels(&small, 17.0), 12.0);

    let medium = stored(r#"{"font_size":"Medium"}"#);
    assert_eq!(medium.font_size_index(), 2);
    assert_eq!(pixels(&medium, 17.0), MEDIUM_FONT_PX as f32);
    assert_eq!(pixels(&medium, 17.0), 15.0);

    let large = stored(r#"{"font_size":"Large"}"#);
    assert_eq!(large.font_size_index(), 3);
    assert_eq!(pixels(&large, 17.0), LARGE_FONT_PX as f32);
    assert_eq!(pixels(&large, 17.0), 18.0);

    for i in 0..=3 {
        let name = Settings::font_size_from_index(i);
        let s = Settings { font_size: name, ..Settings::default() };
        assert_eq!(s.font_size_index(), i);
    }
}

#[test]
fn saved_license_is_looked_at() {
    let mut s = Settings::default();
    assert!(!s.is_licensed());
    s.license_email = "user@example.com".into();
    s.license_key = expected_key("user@example.com");
    assert!(s.is_licensed());
    s.license_email = "other@example.com".into();
    assert!(!s.is_licensed());
}
