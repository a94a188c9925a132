use sas_pwa_client::linux::{
    card_dirs, card_entry, cjk_font_paths, drm_gpu_summary, dri_nodes, find_cjk_font, first_version_token,
    gpu_available, has_render_node, is_wsl, join_strings, kernel_driver_of, linux_notes, mesa_dri_drivers_present,
    render_plan, session_label, sort_strings, system_lang_tag, vendor_label, CardInfo, DriListing, LinuxProbe,
};

fn strings(v: &[&str]) -> Vec<String> {
    v.iter().map(|s| s.to_string()).collect()
}

fn probe(mode: &str) -> LinuxProbe {
    LinuxProbe {
        mode: mode.to_string(),
        wsl: false,
        nvidia: None,
        gpu: Some(true),
        user_dmabuf: false,
        user_force_compositing: false,
        user_disable_compositing: false,
        session: "x11".to_string(),
        dri_nodes: strings(&["card0", "renderD128"]),
        dri_exists: true,
        gpu_summary: "card0:Intel/i915".to_string(),
        dxg: false,
        ssh: false,
        mesa_dri: true,
        cjk_font: Some("Noto Sans CJK".to_string()),
    }
}

#[test]
fn join_and_sort() {
    assert_eq!(join_strings(&strings(&["a", "b", "c"]), ","), "a,b,c");
    assert_eq!(join_strings(&strings(&["a"]), ","), "a");
    assert_eq!(join_strings(&Vec::new(), ","), "");
    assert_eq!(sort_strings(strings(&["b", "a", "ab", "B"])), strings(&["B", "a", "ab", "b"]));
}

#[test]
fn dri_nodes_are_filtered_and_sorted() {
    let names = strings(&["renderD128", "card1", "by-path", "card0", "by-id"]);
    assert_eq!(dri_nodes(&names), strings(&["card0", "card1", "renderD128"]));
    assert!(has_render_node(&names));
    assert!(!has_render_node(&strings(&["card0"])));
}

#[test]
fn gpu_needs_a_render_node() {
    assert_eq!(gpu_available(&DriListing::Listed(strings(&["card0"]))), Some(false));
    assert_eq!(gpu_available(&DriListing::Listed(strings(&["card0", "renderD128"]))), Some(true));
    assert_eq!(gpu_available(&DriListing::Missing), Some(false));
    assert_eq!(gpu_available(&DriListing::Unreadable), None);
}

#[test]
fn mesa_driver_detection() {
    assert!(mesa_dri_drivers_present(&strings(&["README", "iris_dri.so"])));
    assert!(!mesa_dri_drivers_present(&strings(&["iris_dri.so.1", "libGL.so"])));
}

#[test]
fn session_type() {
    assert_eq!(session_label(Some("x11".into()), true, true), "x11");
    assert_eq!(session_label(Some("  ".into()), true, false), "wayland");
    assert_eq!(session_label(None, false, true), "x11");
    assert_eq!(session_label(None, false, false), "无显示（headless?）");
}

#[test]
fn language_tag_is_first_nonblank_value() {
    let v = vec![None, Some(" ".to_string()), Some("zh_CN.UTF-8".to_string()), Some("en_US".to_string())];
    assert_eq!(system_lang_tag(&v), "zh_CN.UTF-8");
    assert_eq!(system_lang_tag(&vec![None, None]), "");
    assert_eq!(system_lang_tag(&Vec::new()), "");
}

#[test]
fn card_dirs_skip_connectors() {
    let names = strings(&["card1", "card0-DP-1", "card0", "renderD128", "version"]);
    assert_eq!(card_dirs(&names), strings(&["card0", "card1"]));
}

#[test]
fn vendor_labels() {
    assert_eq!(vendor_label(" 0x8086\n"), "Intel");
    assert_eq!(vendor_label("0X10DE"), "NVIDIA");
    assert_eq!(vendor_label("0x1022"), "AMD");
    assert_eq!(vendor_label("0x1a03"), "ASPEED(BMC)");
    assert_eq!(vendor_label(""), "未知厂商");
    assert_eq!(vendor_label("0xABCD"), "未知厂商 0xabcd");
}

#[test]
fn card_entries_and_summary() {
    let c0 = CardInfo { name: "card0".into(), vendor: "0x1a03".into(), driver: Some("ast".into()) };
    let c1 = CardInfo { name: "card1".into(), vendor: "0xdead".into(), driver: None };
    assert_eq!(card_entry(&c0), "card0:ASPEED(BMC)/ast");
    assert_eq!(card_entry(&c1), "card1:未知厂商 0xdead");
    assert_eq!(drm_gpu_summary(&Some(vec![c0, c1])), "card0:ASPEED(BMC)/ast,card1:未知厂商 0xdead");
    assert_eq!(drm_gpu_summary(&Some(Vec::new())), "未识别（sysfs 无 cardN）");
    assert_eq!(drm_gpu_summary(&None), "未知（读不到 /sys/class/drm）");
}

#[test]
fn kernel_driver_from_uevent() {
    assert_eq!(kernel_driver_of("MAJOR=226\nDRIVER=ast\nPCI_ID=1A03:2000\n"), Some("ast".to_string()));
    assert_eq!(kernel_driver_of("DRIVER=i915\r\n"), Some("i915".to_string()));
    assert_eq!(kernel_driver_of("DRIVER= \nDRIVER=x\n"), None);
    assert_eq!(kernel_driver_of("MAJOR=226\n"), None);
    assert_eq!(kernel_driver_of(""), None);
}

#[test]
fn version_token() {
    let line = "NVRM version: NVIDIA UNIX x86_64 Kernel Module  535.171.04  Tue Mar 19 2024";
    assert_eq!(first_version_token(line), Some("535.171.04".to_string()));
    assert_eq!(first_version_token("v1.2 x"), Some("1.2".to_string()));
    assert_eq!(first_version_token("vv2.0"), Some("2.0".to_string()));
    assert_eq!(first_version_token("version 12 x.1"), None);
    assert_eq!(first_version_token(""), None);
}

#[test]
fn cjk_font_is_first_existing_candidate() {
    assert_eq!(cjk_font_paths().len(), 7);
    assert_eq!(cjk_font_paths()[0], "/usr/share/fonts/opentype/noto/NotoSansCJK-Regular.ttc");
    assert_eq!(find_cjk_font(&vec![false, false, true, true, false, false, false]), Some("Noto Serif CJK"));
    assert_eq!(find_cjk_font(&vec![false, false, false, false, false, false, true]), Some("Droid Sans Fallback"));
    assert_eq!(find_cjk_font(&vec![false; 7]), None);
}

#[test]
fn render_plan_by_mode() {
    let p = render_plan(&probe("compat"));
    assert!(p.disable_dmabuf && !p.force_compositing && !p.disable_compositing);
    let p = render_plan(&probe("smooth"));
    assert!(!p.disable_dmabuf && p.force_compositing && !p.disable_compositing);
    let p = render_plan(&probe("auto"));
    assert!(!p.disable_dmabuf && !p.force_compositing && !p.disable_compositing);
}

#[test]
fn render_plan_auto_downgrades_known_problem_environments() {
    let mut nv = probe("auto");
    nv.nvidia = Some("535.171.04".into());
    let p = render_plan(&nv);
    assert!(p.disable_dmabuf && !p.disable_compositing);
    let mut soft = probe("auto");
    soft.gpu = Some(false);
    let p = render_plan(&soft);
    assert!(p.disable_dmabuf && p.disable_compositing);
    let mut wsl = probe("auto");
    wsl.wsl = true;
    assert!(render_plan(&wsl).disable_dmabuf);
}

#[test]
fn render_plan_never_overrides_user_variables() {
    let mut p = probe("compat");
    p.user_dmabuf = true;
    assert!(!render_plan(&p).disable_dmabuf);
    let mut s = probe("smooth");
    s.user_force_compositing = true;
    assert!(!render_plan(&s).force_compositing);
    let mut s2 = probe("smooth");
    s2.user_dmabuf = true;
    assert!(!render_plan(&s2).force_compositing);
    let mut a = probe("auto");
    a.gpu = Some(false);
    a.user_disable_compositing = true;
    assert!(!render_plan(&a).disable_compositing);
}

#[test]
fn notes_for_compat_with_gpu() {
    let n = linux_notes(&probe("compat"), &Vec::new());
    assert_eq!(
        n,
        "渲染模式=compat（按「兼容优先」强制降级）→ 共享内存（非加速，兼容性优先）；\
         会话=x11；GPU=card0:Intel/i915；显示设备=card0,renderD128；中文字体：Noto Sans CJK"
    );
}

#[test]
fn notes_for_software_only_machine() {
    let mut p = probe("auto");
    p.gpu = Some(false);
    p.session = "wayland".into();
    p.dri_nodes = strings(&["card0"]);
    p.gpu_summary = "card0:ASPEED(BMC)/ast".into();
    p.mesa_dri = false;
    p.cjk_font = None;
    p.ssh = true;
    let gl = vec![("WEBKIT_DISABLE_COMPOSITING_MODE".to_string(), "1".to_string())];
    let n = linux_notes(&p, &gl);
    let expected = [
        "渲染模式=auto（自动：无 GPU（软件渲染））→ 共享内存（无 GPU，软件渲染）",
        "无 GPU：已关闭加速合成，走纯 CPU 合成（软渲染下通常更稳更快）",
        "会话=wayland；GPU=card0:ASPEED(BMC)/ast；显示设备=card0（无 renderD* 渲染节点，只有 2D 显示控制器）",
        "检测到 SSH 会话：若通过 X11 转发 / VNC 之类的远程桌面使用，画面必然不如本地流畅",
        "GL 相关环境变量：WEBKIT_DISABLE_COMPOSITING_MODE=1",
        "本机没有 GPU 加速（/dev/dri 里没有 renderD* 渲染节点）：WebKit 只能软件渲染（llvmpipe），流畅度上限由 CPU 决定。只有 card* 的机器（服务器 BMC 的 ASPEED / Matrox 等 2D 显示芯片）同样属于这种情况；若这台机器本来有显卡，再查内核驱动是否加载、虚拟机是否开了 3D 加速、容器是否映射了 /dev/dri",
        "可用 WEBKIT_SHOW_FPS=1 启动，在页面右上角看实时帧率做对比",
        "未检测到中文字体，中文可能显示为方块，建议：sudo apt install fonts-noto-cjk",
    ]
    .join("；");
    assert_eq!(n, expected);
}

#[test]
fn notes_for_auto_with_nvidia_and_wsl() {
    let mut p = probe("auto");
    p.wsl = true;
    p.nvidia = Some("535.171.04".into());
    p.dxg = true;
    p.dri_nodes = Vec::new();
    p.dri_exists = false;
    let n = linux_notes(&p, &Vec::new());
    let expected = [
        "渲染模式=auto（自动：WSL + NVIDIA 专有驱动 535.171.04）→ 共享内存（非加速，兼容性优先）",
        "会话=x11；GPU=card0:Intel/i915；显示设备=无 /dev/dri",
        "检测到 /dev/dxg（WSL GPU 直通）",
        "若显示正常但觉得卡顿，可在设置页把「渲染模式」改成「流畅优先」后重启对比",
        "中文字体：Noto Sans CJK",
    ]
    .join("；");
    assert_eq!(n, expected);
}

#[test]
fn notes_when_user_variable_wins() {
    let mut p = probe("auto");
    p.user_dmabuf = true;
    p.gpu = None;
    p.dri_nodes = Vec::new();
    let n = linux_notes(&p, &Vec::new());
    let expected = [
        "渲染模式=auto（环境变量优先）→ 沿用环境变量 WEBKIT_DISABLE_DMABUF_RENDERER",
        "会话=x11；GPU=card0:Intel/i915；显示设备=/dev/dri 里没有 card*/renderD* 节点",
        "读不到 /dev/dri（权限问题？），无法判断是否软件渲染",
        "中文字体：Noto Sans CJK",
    ]
    .join("；");
    assert_eq!(n, expected);
}

#[test]
fn notes_for_smooth_mode_and_missing_mesa() {
    let mut p = probe("smooth");
    p.mesa_dri = false;
    let n = linux_notes(&p, &Vec::new());
    let expected = [
        "渲染模式=smooth（按「流畅优先」保持加速）→ DMA-BUF（WebKit 默认加速路径）",
        "已强制开启加速合成（流畅优先）",
        "会话=x11；GPU=card0:Intel/i915；显示设备=card0,renderD128",
        "有渲染节点但没找到 mesa 的 DRI 驱动（*_dri.so），GL 仍可能退回 llvmpipe：建议 sudo apt install libgl1-mesa-dri",
        "中文字体：Noto Sans CJK",
    ]
    .join("；");
    assert_eq!(n, expected);
}

#[test]
fn wsl_kernel_detection() {
    assert!(is_wsl("Linux version 5.15.153.1-microsoft-standard-WSL2 (root@...)"));
    assert!(is_wsl("Linux version 4.4.0-19041-Microsoft"));
    assert!(!is_wsl("Linux version 6.8.0-31-generic (buildd@lcy02-amd64-080)"));
    assert!(!is_wsl(""));
}
