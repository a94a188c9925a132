use sas_pwa_client::config::Site;
use sas_pwa_client::script::{
    frameless_bar_script, injects_credentials, js_string, lang_init_script, pulse_ms, render_script,
    SAS_INIT_SCRIPT,
};

fn site(url: &str, keep_awake: bool, pulse_seconds: u64) -> Site {
    Site {
        id: "s".to_string(),
        name: "S".to_string(),
        url: url.to_string(),
        keep_awake,
        pulse_seconds,
        frameless: false,
        default: false,
    }
}

#[test]
fn js_string_quotes_and_escapes() {
    assert_eq!(js_string("plain"), "\"plain\"");
    assert_eq!(js_string("a\"b\\c\nd\te"), "\"a\\\"b\\\\c\\nd\\te\"");
    assert_eq!(js_string("\u{1}\u{1f}"), "\"\\u0001\\u001f\"");
    assert_eq!(js_string("密码</script>"), "\"密码</script>\"");
    assert_eq!(js_string(""), "\"\"");
}

#[test]
fn pulse_is_clamped_and_off_without_keep_awake() {
    assert_eq!(pulse_ms(&site("https://a", true, 120)), 120_000);
    assert_eq!(pulse_ms(&site("https://a", true, 5_000)), 3_600_000);
    assert_eq!(pulse_ms(&site("https://a", true, 3_600)), 3_600_000);
    assert_eq!(pulse_ms(&site("https://a", false, 120)), 0);
    assert_eq!(pulse_ms(&site("https://a", true, u64::MAX)), 3_600_000);
}

#[test]
fn credentials_only_for_https() {
    assert!(injects_credentials(&site("https://a.com/", true, 1)));
    assert!(!injects_credentials(&site("http://a.com/", true, 1)));
    assert!(!injects_credentials(&site("HTTPS://a.com/", true, 1)));
}

#[test]
fn rendered_script_fills_every_placeholder() {
    let login = Some(("alice".to_string(), "p\"w".to_string(), true));
    let s = render_script(&site("https://a.com/", true, 120), login);
    for p in ["__KEEP_AWAKE__", "__PULSE_MS__", "__CRED_USER__", "__CRED_PASS__", "__CRED_AUTO__"] {
        assert!(!s.contains(p), "{p} left in script");
    }
    assert!(s.contains("if (true) {"));
    assert!(s.contains("if (120000 > 0) {"));
    assert!(s.contains("var U = \"alice\", P = \"p\\\"w\", AUTO = true;"));
}

#[test]
fn rendered_script_matches_template_substitution() {
    let s = render_script(&site("https://a.com/", false, 120), None);
    let expected = SAS_INIT_SCRIPT
        .replace("__KEEP_AWAKE__", "false")
        .replace("__PULSE_MS__", "0")
        .replace("__CRED_USER__", "\"\"")
        .replace("__CRED_PASS__", "\"\"")
        .replace("__CRED_AUTO__", "false");
    assert_eq!(s, expected);
}

#[test]
fn http_site_never_gets_credentials() {
    let login = Some(("alice".to_string(), "secret".to_string(), true));
    let with = render_script(&site("http://a.com/", true, 60), login);
    let without = render_script(&site("http://a.com/", true, 60), None);
    assert_eq!(with, without);
    assert!(!with.contains("secret"));
    assert!(with.contains("var U = \"\", P = \"\", AUTO = false;"));
}

#[test]
fn frameless_bar_script_text() {
    assert_eq!(
        frameless_bar_script(true, "My \"S\""),
        "if(window.__sasShowFramelessBar)window.__sasShowFramelessBar(true, \"My \\\"S\\\"\");"
    );
    assert_eq!(
        frameless_bar_script(false, ""),
        "if(window.__sasShowFramelessBar)window.__sasShowFramelessBar(false, \"\");"
    );
}

#[test]
fn lang_init_script_text() {
    assert_eq!(lang_init_script("zh-CN"), "window.__SAS_SYS_LANG__ = \"zh-CN\";");
    assert_eq!(lang_init_script(""), "window.__SAS_SYS_LANG__ = \"\";");
}

#[test]
fn placeholder_text_in_credentials_is_not_filled_again() {
    let login = Some(("__CRED_PASS__".to_string(), "__CRED_AUTO__ __KEEP_AWAKE__".to_string(), true));
    let s = render_script(&site("https://a.com/", true, 120), login);
    assert!(s.contains("var U = \"__CRED_PASS__\", P = \"__CRED_AUTO__ __KEEP_AWAKE__\", AUTO = true;"));
    assert_eq!(s.matches("__CRED_PASS__").count(), 1);
    assert_eq!(s.matches("__KEEP_AWAKE__").count(), 1);
}
