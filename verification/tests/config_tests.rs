use sas_pwa_client::config::{
    first_adoptable, looks_like_our_config, normalize, normalize_render_mode, normalize_site, render_mode_in_config,
    sanitize_id, site_address, unique_id, AppConfig, LegacyCandidate, Site, DEFAULT_RENDER_MODE,
};
use sas_pwa_client::urlparts::UrlParts;

fn parts(scheme: &str, host: Option<&str>, port: Option<u16>, href: &str) -> UrlParts {
    UrlParts { scheme: scheme.into(), host: host.map(|h| h.to_string()), port, href: href.into() }
}

fn site(id: &str, name: &str, url: &str) -> Site {
    Site {
        id: id.to_string(),
        name: name.to_string(),
        url: url.to_string(),
        keep_awake: true,
        pulse_seconds: 120,
        frameless: false,
        default: false,
    }
}

fn config(sites: Vec<Site>) -> AppConfig {
    AppConfig { sites, ..AppConfig::default() }
}

#[test]
fn defaults_match_documented_values() {
    let s = Site::default();
    assert_eq!(s.id, "");
    assert_eq!(s.name, "");
    assert_eq!(s.url, "");
    assert!(s.keep_awake);
    assert_eq!(s.pulse_seconds, 120);
    assert!(!s.frameless);
    assert!(!s.default);
    let c = AppConfig::default();
    assert!(c.sites.is_empty());
    assert_eq!(c.last_site_id, None);
    assert_eq!(c.ui_theme, "system");
    assert_eq!(c.render_mode, "auto");
    assert_eq!(DEFAULT_RENDER_MODE, "auto");
    assert!(!c.dev_tools);
}

#[test]
fn render_mode_is_trimmed_and_lowercased() {
    assert_eq!(normalize_render_mode(" Smooth "), "smooth");
    assert_eq!(normalize_render_mode("COMPAT"), "compat");
    assert_eq!(normalize_render_mode("auto"), "auto");
}

#[test]
fn unknown_render_mode_falls_back_to_auto() {
    assert_eq!(normalize_render_mode("turbo"), "auto");
    assert_eq!(normalize_render_mode(""), "auto");
    assert_eq!(normalize_render_mode("smooth!"), "auto");
}

#[test]
fn normalize_render_mode_is_idempotent() {
    for m in ["", "Smooth", " compat", "x", "AUTO"] {
        let once = normalize_render_mode(m);
        assert_eq!(normalize_render_mode(&once), once);
    }
}

#[test]
fn sanitize_id_keeps_alphanumerics_dash_underscore() {
    assert_eq!(sanitize_id("  My Site#1 "), "my-site-1");
    assert_eq!(sanitize_id("--a_b--"), "a_b");
    assert_eq!(sanitize_id("sas.example.com"), "sas-example-com");
    assert_eq!(sanitize_id("中文"), "");
    assert_eq!(sanitize_id(""), "");
}

#[test]
fn unique_id_counts_up_from_two() {
    let mut used: Vec<String> = Vec::new();
    assert_eq!(unique_id("", &mut used), "site");
    assert_eq!(unique_id("site", &mut used), "site-2");
    assert_eq!(unique_id("site", &mut used), "site-3");
    assert_eq!(unique_id("prod", &mut used), "prod");
    assert_eq!(used, vec!["site", "site-2", "site-3", "prod"]);
}

#[test]
fn normalize_adds_https_and_fills_name_and_id() {
    let mut cfg = config(vec![site("", "", "  sas.example.com ")]);
    assert_eq!(normalize(&mut cfg), Ok(()));
    let s = &cfg.sites[0];
    assert_eq!(s.url, "https://sas.example.com/");
    assert_eq!(s.name, "sas.example.com");
    assert_eq!(s.id, "sas-example-com");
}

#[test]
fn normalize_keeps_given_scheme_port_and_name() {
    let mut cfg = config(vec![site("", "  Prod ", "http://10.0.0.5:8080/sas")]);
    assert_eq!(normalize(&mut cfg), Ok(()));
    let s = &cfg.sites[0];
    assert_eq!(s.url, "http://10.0.0.5:8080/sas");
    assert_eq!(s.name, "Prod");
    assert_eq!(s.id, "10-0-0-5");
}

#[test]
fn normalize_blank_site_gets_numbered_name_and_id() {
    let mut cfg = config(vec![site("a", "A", "https://a.com"), site("", " ", "")]);
    assert_eq!(normalize(&mut cfg), Ok(()));
    assert_eq!(cfg.sites[1].name, "站点 2");
    assert_eq!(cfg.sites[1].id, "site2");
    assert_eq!(cfg.sites[1].url, "");
}

#[test]
fn normalize_deduplicates_ids() {
    let mut cfg = config(vec![
        site("prod", "1", "https://a.com"),
        site("prod", "2", "https://b.com"),
        site("Prod!", "3", "https://c.com"),
    ]);
    assert_eq!(normalize(&mut cfg), Ok(()));
    let ids: Vec<&str> = cfg.sites.iter().map(|s| s.id.as_str()).collect();
    assert_eq!(ids, vec!["prod", "prod-2", "prod-3"]);
}

#[test]
fn normalize_keeps_only_first_default() {
    let mut sites = vec![
        site("a", "A", "https://a.com"),
        site("b", "B", "https://b.com"),
        site("c", "C", "https://c.com"),
    ];
    sites[1].default = true;
    sites[2].default = true;
    let mut cfg = config(sites);
    assert_eq!(normalize(&mut cfg), Ok(()));
    let defaults: Vec<bool> = cfg.sites.iter().map(|s| s.default).collect();
    assert_eq!(defaults, vec![false, true, false]);
}

#[test]
fn normalize_clamps_pulse_to_an_hour() {
    let mut a = site("a", "A", "https://a.com");
    a.pulse_seconds = 99_999;
    let mut b = site("b", "B", "https://b.com");
    b.pulse_seconds = 0;
    let mut cfg = config(vec![a, b]);
    assert_eq!(normalize(&mut cfg), Ok(()));
    assert_eq!(cfg.sites[0].pulse_seconds, 3600);
    assert_eq!(cfg.sites[1].pulse_seconds, 0);
}

#[test]
fn normalize_fixes_render_mode() {
    let mut cfg = config(vec![]);
    cfg.render_mode = "whatever".to_string();
    assert_eq!(normalize(&mut cfg), Ok(()));
    assert_eq!(cfg.render_mode, "auto");
}

#[test]
fn normalize_rejects_unsupported_scheme() {
    let mut cfg = config(vec![site("a", "A", "ftp://files.example.com")]);
    assert_eq!(
        normalize(&mut cfg),
        Err("第 1 项仅支持 http/https 地址：ftp://files.example.com".to_string())
    );
}

#[test]
fn normalize_rejects_invalid_address() {
    let mut cfg = config(vec![site("a", "A", "https://a.com"), site("b", "B", "http://")]);
    assert_eq!(normalize(&mut cfg), Err("第 2 项地址无效（http://）：empty host".to_string()));
}

#[test]
fn normalize_error_leaves_later_sites_untouched() {
    let mut cfg = config(vec![
        site("", "", "a.com"),
        site("x", "X", "file:///tmp/x"),
        site("  Raw  ", "", "b.com"),
    ]);
    cfg.render_mode = "SMOOTH".to_string();
    let r = normalize(&mut cfg);
    assert_eq!(r.err(), Some("第 2 项仅支持 http/https 地址：file:///tmp/x".to_string()));
    assert_eq!(cfg.sites[0].url, "https://a.com/");
    assert_eq!(cfg.sites[0].id, "a-com");
    assert_eq!(cfg.sites[2].id, "  Raw  ");
    assert_eq!(cfg.sites[2].url, "b.com");
    assert_eq!(cfg.render_mode, "smooth");
}

#[test]
fn normalize_twice_changes_nothing_more() {
    let mut cfg = config(vec![site("", "", "sas.example.com"), site("", "", "sas.example.com")]);
    assert_eq!(normalize(&mut cfg), Ok(()));
    let first: Vec<(String, String, String)> =
        cfg.sites.iter().map(|s| (s.id.clone(), s.name.clone(), s.url.clone())).collect();
    assert_eq!(first[1].0, "sas-example-com-2");
    assert_eq!(normalize(&mut cfg), Ok(()));
    let second: Vec<(String, String, String)> =
        cfg.sites.iter().map(|s| (s.id.clone(), s.name.clone(), s.url.clone())).collect();
    assert_eq!(first, second);
}

#[test]
fn old_config_detection() {
    assert!(looks_like_our_config(r#"{"sites":[{"url":"  "},{"url":"https://a.com"}]}"#));
    assert!(!looks_like_our_config(r#"{"sites":[{"url":"  "},{"name":"x"}]}"#));
    assert!(!looks_like_our_config(r#"{"sites":{}}"#));
    assert!(!looks_like_our_config(r#"{"other":1}"#));
    assert!(!looks_like_our_config("not json"));
    assert!(!looks_like_our_config(r#"{"sites":[{"url":5}]}"#));
}

#[test]
fn render_mode_read_before_start() {
    assert_eq!(render_mode_in_config(r#"{"render_mode":" SMOOTH "}"#), "smooth");
    assert_eq!(render_mode_in_config(r#"{"render_mode":"compat","sites":[]}"#), "compat");
    assert_eq!(render_mode_in_config(r#"{"render_mode":5}"#), "auto");
    assert_eq!(render_mode_in_config(r#"{}"#), "auto");
    assert_eq!(render_mode_in_config("{broken"), "auto");
}

#[test]
fn sanitize_id_is_idempotent_and_never_longer() {
    for s in ["  My Site#1 ", "--a_b--", "sas.example.com", "中文", "", "A-B"] {
        let once = sanitize_id(s);
        assert!(once.chars().count() <= s.chars().count());
        assert_eq!(sanitize_id(&once), once);
    }
}

#[test]
fn site_address_adds_https_to_bare_hosts() {
    assert_eq!(site_address("  a.com "), "https://a.com");
    assert_eq!(site_address("http://a.com"), "http://a.com");
    assert_eq!(site_address(""), "https://");
}

#[test]
fn normalize_site_from_given_parse_results() {
    let ok = parts("https", Some("x.example.com"), Some(443), "https://x.example.com/");
    let mut used: Vec<String> = Vec::new();
    let t = normalize_site(&site("", "", " x.example.com"), 0, Ok(ok.clone()), Ok(ok.clone()), &mut used).unwrap();
    assert_eq!(t.url, "https://x.example.com/");
    assert_eq!(t.name, "x.example.com");
    assert_eq!(t.id, "x-example-com");
    assert_eq!(used, vec!["x-example-com"]);
    let t2 = normalize_site(&site("", "", "x.example.com"), 1, Ok(ok.clone()), Ok(ok.clone()), &mut used).unwrap();
    assert_eq!(t2.id, "x-example-com-2");
}

#[test]
fn normalize_site_rejections_from_given_parse_results() {
    let mut used: Vec<String> = Vec::new();
    let r = normalize_site(&site("a", "A", "x.com"), 0, Err("boom".into()), Err("boom".into()), &mut used);
    assert_eq!(r.err(), Some("第 1 项地址无效（https://x.com）：boom".to_string()));
    let ftp = parts("FTP", Some("x.com"), None, "ftp://x.com/");
    let r = normalize_site(&site("a", "A", "ftp://x.com"), 2, Ok(ftp.clone()), Ok(ftp), &mut used);
    assert_eq!(r.err(), Some("第 3 项仅支持 http/https 地址：ftp://x.com".to_string()));
    let nohost = parts("https", Some("  "), Some(443), "https://%20/");
    let r = normalize_site(&site("a", "A", "https://x"), 0, Ok(nohost.clone()), Ok(nohost), &mut used);
    assert_eq!(r.err(), Some("第 1 项地址缺少主机名：https://x".to_string()));
    assert!(used.is_empty());
}

#[test]
fn normalize_site_id_falls_back_to_reparsed_host() {
    let ok = parts("https", Some("h.example.com"), Some(443), "https://h.example.com/");
    let other = parts("https", Some("Other.Host"), Some(443), "https://other.host/");
    let mut used: Vec<String> = Vec::new();
    let t = normalize_site(&site("!!", "N", "h.example.com"), 4, Ok(ok), Ok(other), &mut used).unwrap();
    assert_eq!(t.id, "other-host");
    let t = normalize_site(&site("", "", ""), 4, Err("x".into()), Err("x".into()), &mut used).unwrap();
    assert_eq!(t.id, "site5");
    assert_eq!(t.name, "站点 5");
}

#[test]
fn legacy_folder_choice() {
    let ours = r#"{"sites":[{"url":"https://a.com"}]}"#.to_string();
    let cands = vec![
        LegacyCandidate { is_current: true, text: Some(ours.clone()) },
        LegacyCandidate { is_current: false, text: None },
        LegacyCandidate { is_current: false, text: Some("{}".into()) },
        LegacyCandidate { is_current: false, text: Some(ours.clone()) },
        LegacyCandidate { is_current: false, text: Some(ours) },
    ];
    assert_eq!(first_adoptable(&cands, 0), Some(3));
    assert_eq!(first_adoptable(&cands, 4), Some(4));
    assert_eq!(first_adoptable(&cands, 5), None);
    assert_eq!(first_adoptable(&cands[..3].to_vec(), 0), None);
}
