use sas_pwa_client::permissions::{kind_label, permission_allowed};

#[test]
fn granted_permission_kinds() {
    let granted: Vec<i32> = (0..=11).filter(|k| permission_allowed(*k)).collect();
    assert_eq!(granted, vec![4, 6, 7]);
    assert!(!permission_allowed(-1));
}

#[test]
fn permission_kind_names() {
    let names: Vec<&str> = (0..=11).map(kind_label).collect();
    assert_eq!(
        names,
        vec![
            "unknown",
            "microphone",
            "camera",
            "geolocation",
            "notifications",
            "other-sensors",
            "clipboard-read",
            "multiple-downloads",
            "file-read-write",
            "autoplay",
            "local-fonts",
            "unknown",
        ]
    );
    assert_eq!(kind_label(i32::MIN), "unknown");
}
