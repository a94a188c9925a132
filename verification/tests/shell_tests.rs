use sas_pwa_client::config::{AppConfig, Site};
use sas_pwa_client::shell::{
    check_credential_site, focus_changes_active, focus_on_show_all, get_site, menu_action, needs_decoration_change,
    needs_navigation, pick_site_id, record_last_site, release_press, repeats_toggle, set_site_frameless, site_aumid,
    site_id_of_label, site_ids, startup_site, take_press, toggle_target, tray_click, tray_menu, window_label,
    with_sites, cli_action, relaunch_action, RelaunchAction, moved_site_ids, removed_site_ids, CliAction, MenuAction, MenuEntry, TrayClick,
    SETTINGS_LABEL, WINDOW_PREFIX,
};
use sas_pwa_client::urlparts::{same_site, UrlParts};

fn site(id: &str, name: &str) -> Site {
    Site {
        id: id.to_string(),
        name: name.to_string(),
        url: format!("https://{id}.example.com/"),
        keep_awake: true,
        pulse_seconds: 120,
        frameless: false,
        default: false,
    }
}

fn entry_ids(menu: &[MenuEntry]) -> Vec<String> {
    menu.iter()
        .map(|e| match e {
            MenuEntry::Item { id, .. } => id.clone(),
            MenuEntry::Check { id, .. } => id.clone(),
            MenuEntry::Separator => "-".to_string(),
        })
        .collect()
}

#[test]
fn labels_round_trip() {
    assert_eq!(WINDOW_PREFIX, "site-");
    assert_eq!(SETTINGS_LABEL, "settings");
    assert_eq!(window_label("prod"), "site-prod");
    assert_eq!(site_id_of_label("site-prod"), Some("prod".to_string()));
    assert_eq!(site_id_of_label(&window_label("a-b_c")), Some("a-b_c".to_string()));
    assert_eq!(site_id_of_label("settings"), None);
    assert_eq!(site_id_of_label("site-"), Some(String::new()));
}

#[test]
fn get_site_finds_first_match() {
    let mut sites = vec![site("a", "A"), site("b", "B"), site("a", "A2")];
    sites[2].frameless = true;
    assert_eq!(get_site(&sites, "a").unwrap().name, "A");
    assert_eq!(get_site(&sites, "b").unwrap().name, "B");
    assert!(get_site(&sites, "c").is_none());
}

#[test]
fn startup_site_is_first_default() {
    let mut sites = vec![site("a", "A"), site("b", "B"), site("c", "C")];
    assert_eq!(startup_site(&sites), None);
    sites[1].default = true;
    sites[2].default = true;
    assert_eq!(startup_site(&sites), Some("b".to_string()));
}

#[test]
fn pick_site_prefers_request_then_default_then_last_then_first() {
    let mut cfg = AppConfig { sites: vec![site("a", "A"), site("b", "B")], ..AppConfig::default() };
    assert_eq!(pick_site_id(&cfg, Some("zz".to_string())), Some("zz".to_string()));
    assert_eq!(pick_site_id(&cfg, None), Some("a".to_string()));
    cfg.last_site_id = Some("b".to_string());
    assert_eq!(pick_site_id(&cfg, None), Some("b".to_string()));
    cfg.sites[0].default = true;
    assert_eq!(pick_site_id(&cfg, None), Some("a".to_string()));
    let empty = AppConfig::default();
    assert_eq!(pick_site_id(&empty, None), None);
}

#[test]
fn record_last_site_reports_change() {
    let mut cfg = AppConfig::default();
    assert!(record_last_site(&mut cfg, "a"));
    assert_eq!(cfg.last_site_id, Some("a".to_string()));
    assert!(!record_last_site(&mut cfg, "a"));
    assert!(record_last_site(&mut cfg, "b"));
    assert_eq!(cfg.last_site_id, Some("b".to_string()));
}

#[test]
fn with_sites_keeps_other_settings() {
    let prev = AppConfig {
        sites: vec![site("old", "Old")],
        last_site_id: Some("old".to_string()),
        ui_theme: "dark".to_string(),
        render_mode: "compat".to_string(),
        dev_tools: true,
    };
    let next = with_sites(&prev, vec![site("new", "New"), site("x", "X")]);
    assert_eq!(next.sites.len(), 2);
    assert_eq!(next.sites[0].id, "new");
    assert_eq!(next.last_site_id, Some("old".to_string()));
    assert_eq!(next.ui_theme, "dark");
    assert_eq!(next.render_mode, "compat");
    assert!(next.dev_tools);
    assert_eq!(site_ids(&next.sites), vec!["new".to_string(), "x".to_string()]);
}

#[test]
fn set_site_frameless_updates_first_match_only() {
    let mut cfg = AppConfig { sites: vec![site("a", "A"), site("b", "B"), site("a", "A2")], ..AppConfig::default() };
    assert_eq!(set_site_frameless(&mut cfg, "a", true), Ok(()));
    assert!(cfg.sites[0].frameless);
    assert!(!cfg.sites[1].frameless);
    assert!(!cfg.sites[2].frameless);
    assert_eq!(set_site_frameless(&mut cfg, "zz", true), Err("配置里找不到这个站点".to_string()));
}

#[test]
fn toggle_is_debounced_per_window() {
    let last = Some("site-a".to_string());
    assert!(repeats_toggle(&last, 0, "site-a"));
    assert!(repeats_toggle(&last, 399, "site-a"));
    assert!(!repeats_toggle(&last, 400, "site-a"));
    assert!(!repeats_toggle(&last, 10, "site-b"));
    assert!(!repeats_toggle(&None, 0, "site-a"));
}

#[test]
fn toggle_target_cases() {
    let mut sites = vec![site("a", "A")];
    sites[0].frameless = true;
    assert_eq!(toggle_target(&sites, "site-a"), Ok(("a".to_string(), true)));
    assert_eq!(toggle_target(&sites, "settings"), Err("只有 SAS 站点窗口才能切换无边框".to_string()));
    assert_eq!(toggle_target(&sites, "site-b"), Err("配置里找不到这个站点".to_string()));
}

#[test]
fn key_press_is_taken_once_until_released_or_guard_passes() {
    let mut held: Option<u128> = None;
    assert!(take_press(&mut held, 1_000));
    assert_eq!(held, Some(1_000));
    assert!(!take_press(&mut held, 1_500));
    assert_eq!(held, Some(1_000));
    assert!(take_press(&mut held, 2_200));
    assert_eq!(held, Some(2_200));
    release_press(&mut held);
    assert_eq!(held, None);
    assert!(take_press(&mut held, 2_300));
}

#[test]
fn key_press_with_clock_going_back_counts_as_repeat() {
    let mut held: Option<u128> = Some(5_000);
    assert!(!take_press(&mut held, 4_000));
    assert_eq!(held, Some(5_000));
}

#[test]
fn decorations_change_only_when_out_of_step() {
    assert!(needs_decoration_change(true, true));
    assert!(needs_decoration_change(false, false));
    assert!(!needs_decoration_change(true, false));
    assert!(!needs_decoration_change(false, true));
}

#[test]
fn same_site_compares_scheme_host_and_port() {
    let a = UrlParts { scheme: "https".into(), host: Some("a.com".into()), port: Some(443), href: "https://a.com/".into() };
    let b = UrlParts { scheme: "https".into(), host: Some("a.com".into()), port: Some(443), href: "https://a.com/x".into() };
    let c = UrlParts { scheme: "http".into(), host: Some("a.com".into()), port: Some(80), href: "http://a.com/".into() };
    assert!(same_site(&a, &b));
    assert!(!same_site(&a, &c));
}

#[test]
fn navigation_only_before_any_navigation() {
    assert!(needs_navigation(Some("about:blank")));
    assert!(needs_navigation(None));
    assert!(!needs_navigation(Some("https://a.com/app#/home")));
    assert!(!needs_navigation(Some("https://idp.example.org/login")));
}

#[test]
fn saving_sites_reports_deleted_and_moved_sites() {
    let prev = vec![site("a", "A"), site("b", "B"), site("c", "C")];
    let mut next = vec![site("c", "C"), site("a", "A"), site("d", "D")];
    next[0].url = "https://c2.example.com/".to_string();
    assert_eq!(removed_site_ids(&prev, &next), vec!["b".to_string()]);
    assert_eq!(moved_site_ids(&prev, &next), vec!["c".to_string()]);
    assert!(removed_site_ids(&prev, &prev).is_empty());
    assert!(moved_site_ids(&prev, &prev).is_empty());
}

#[test]
fn command_line_actions() {
    let args = |v: &[&str]| v.iter().map(|s| s.to_string()).collect::<Vec<String>>();
    assert_eq!(cli_action(&args(&["sas-pwa-client"])), CliAction::Show);
    assert_eq!(cli_action(&args(&["sas-pwa-client", "--hide"])), CliAction::Hide);
    assert_eq!(cli_action(&args(&["sas-pwa-client", "--quit"])), CliAction::Quit);
    assert_eq!(cli_action(&args(&["sas-pwa-client", "--hide", "--quit"])), CliAction::Quit);
    assert_eq!(cli_action(&args(&["sas-pwa-client", "--QUIT"])), CliAction::Show);
}

#[test]
fn tray_menu_without_sites() {
    let menu = tray_menu(&Vec::new(), "");
    assert_eq!(entry_ids(&menu), vec!["settings", "-", "quit"]);
    match &menu[0] {
        MenuEntry::Item { text, .. } => assert_eq!(text, "打开设置…"),
        other => panic!("unexpected {other:?}"),
    }
}

#[test]
fn tray_menu_with_sites_marks_default_and_active_frameless() {
    let mut sites = vec![site("a", "Alpha"), site("b", "Beta")];
    sites[1].default = true;
    sites[1].frameless = true;
    let menu = tray_menu(&sites, "site-b");
    assert_eq!(
        entry_ids(&menu),
        vec!["open:a", "open:b", "-", "settings", "frameless", "reload", "showall", "-", "quit"]
    );
    match &menu[1] {
        MenuEntry::Item { text, .. } => assert_eq!(text, "打开 Beta（默认）"),
        other => panic!("unexpected {other:?}"),
    }
    match &menu[0] {
        MenuEntry::Item { text, .. } => assert_eq!(text, "打开 Alpha"),
        other => panic!("unexpected {other:?}"),
    }
    match &menu[4] {
        MenuEntry::Check { text, checked, enabled, .. } => {
            assert_eq!(text, "无边框窗口（当前环境）");
            assert!(*checked);
            assert!(*enabled);
        }
        other => panic!("unexpected {other:?}"),
    }
}

#[test]
fn tray_frameless_entry_disabled_without_active_site() {
    let sites = vec![site("a", "Alpha")];
    for active in ["", "settings", "site-gone"] {
        let menu = tray_menu(&sites, active);
        match &menu[3] {
            MenuEntry::Check { checked, enabled, .. } => {
                assert!(!*checked);
                assert!(!*enabled);
            }
            other => panic!("unexpected {other:?}"),
        }
    }
}

#[test]
fn menu_actions() {
    assert!(matches!(menu_action("open:abc"), MenuAction::OpenSite(id) if id == "abc"));
    assert!(matches!(menu_action("open:"), MenuAction::OpenSite(id) if id.is_empty()));
    assert!(matches!(menu_action("settings"), MenuAction::Settings));
    assert!(matches!(menu_action("frameless"), MenuAction::Frameless));
    assert!(matches!(menu_action("reload"), MenuAction::Reload));
    assert!(matches!(menu_action("showall"), MenuAction::ShowAll));
    assert!(matches!(menu_action("quit"), MenuAction::Quit));
    assert!(matches!(menu_action("Quit"), MenuAction::Ignore));
}

#[test]
fn every_site_entry_opens_its_site() {
    let sites = vec![site("a", "Alpha"), site("b-2", "Beta")];
    let menu = tray_menu(&sites, "");
    for (i, s) in sites.iter().enumerate() {
        match &menu[i] {
            MenuEntry::Item { id, .. } => {
                assert!(matches!(menu_action(id), MenuAction::OpenSite(x) if x == s.id));
            }
            other => panic!("unexpected {other:?}"),
        }
    }
}

#[test]
fn tray_click_cases() {
    assert!(matches!(tray_click(true, "site-a"), TrayClick::Hide));
    assert!(matches!(tray_click(false, "site-a"), TrayClick::Focus));
    assert!(matches!(tray_click(false, ""), TrayClick::OpenSettings));
}

#[test]
fn focus_rules() {
    assert!(focus_changes_active("site-a", "site-b"));
    assert!(focus_changes_active("", "site-b"));
    assert!(!focus_changes_active("site-a", "site-a"));
    assert!(!focus_changes_active("", "settings"));
    assert!(!focus_on_show_all("settings"));
    assert!(focus_on_show_all("site-a"));
}

#[test]
fn credential_needs_saved_site() {
    assert_eq!(check_credential_site("a"), Ok(()));
    assert_eq!(check_credential_site("  "), Err("请先保存站点配置，再保存登录凭据".to_string()));
}

#[test]
fn taskbar_identity() {
    assert_eq!(site_aumid("prod"), "com.saspwa.site.prod");
}

#[test]
fn frameless_flag_is_read_back_by_toggle() {
    let mut cfg = AppConfig { sites: vec![site("a", "A"), site("b", "B")], ..AppConfig::default() };
    set_site_frameless(&mut cfg, "b", true).unwrap();
    assert_eq!(toggle_target(&cfg.sites, &window_label("b")), Ok(("b".to_string(), true)));
    set_site_frameless(&mut cfg, "b", false).unwrap();
    assert_eq!(toggle_target(&cfg.sites, &window_label("b")), Ok(("b".to_string(), false)));
}

#[test]
fn second_launch_actions() {
    let args = |v: &[&str]| v.iter().map(|s| s.to_string()).collect::<Vec<String>>();
    assert_eq!(relaunch_action(&args(&["x", "--quit"]), "site-a"), RelaunchAction::Quit);
    assert_eq!(relaunch_action(&args(&["x", "--hide"]), ""), RelaunchAction::HideAll);
    assert_eq!(relaunch_action(&args(&["x"]), "site-a"), RelaunchAction::Focus);
    assert_eq!(relaunch_action(&args(&["x"]), ""), RelaunchAction::OpenSettings);
}
