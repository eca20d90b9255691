use trafmon::tray::{about_text, autostart_target, menu_command, tray_labels, wants_english, MenuCommand};

#[test]
fn chinese_labels() {
    let l = tray_labels(false, false);
    assert_eq!(l.toggle, "显示 / 隐藏");
    assert_eq!(l.theme, "切换主题");
    assert_eq!(l.about, "关于");
    assert_eq!(l.quit, "退出");
    assert_eq!(l.relaunch, "显示详情（需以管理员身份运行）");
    assert_eq!(l.nic, "网卡");
    assert_eq!(l.opacity, "不透明度");
    assert_eq!(l.language, "语言");
    assert_eq!(l.autostart, "开机启动");
    assert_eq!(tray_labels(false, true).relaunch, "重启程序");
}

#[test]
fn english_labels() {
    let l = tray_labels(true, false);
    assert_eq!(l.toggle, "Show / Hide");
    assert_eq!(l.theme, "Toggle theme");
    assert_eq!(l.about, "About");
    assert_eq!(l.quit, "Quit");
    assert_eq!(l.relaunch, "Show details (run as Administrator)");
    assert_eq!(l.nic, "Network card");
    assert_eq!(l.opacity, "Opacity");
    assert_eq!(l.language, "Language");
    assert_eq!(l.autostart, "Launch at startup");
    assert_eq!(tray_labels(true, true).relaunch, "Restart");
}

#[test]
fn menu_ids_route_to_commands() {
    assert!(matches!(menu_command("quit"), MenuCommand::Quit));
    assert!(matches!(menu_command("about"), MenuCommand::About));
    assert!(matches!(menu_command("lang:zh"), MenuCommand::Language { english: false }));
    assert!(matches!(menu_command("lang:en"), MenuCommand::Language { english: true }));
    assert!(matches!(menu_command("autostart"), MenuCommand::Autostart));
    assert!(matches!(menu_command("relaunch"), MenuCommand::Relaunch));
    assert!(matches!(menu_command("toggle"), MenuCommand::Toggle));
    assert!(matches!(menu_command("theme"), MenuCommand::Theme));
    assert!(matches!(menu_command("lang:fr"), MenuCommand::Unknown));
    assert!(matches!(menu_command("Quit"), MenuCommand::Unknown));
    assert!(matches!(menu_command(""), MenuCommand::Unknown));
}

#[test]
fn nic_and_opacity_ids_carry_their_argument() {
    match menu_command("nic:Wi-Fi 2") {
        MenuCommand::Nic(name) => assert_eq!(name, "Wi-Fi 2"),
        other => panic!("unexpected {:?}", other),
    }
    match menu_command("nic:") {
        MenuCommand::Nic(name) => assert_eq!(name, ""),
        other => panic!("unexpected {:?}", other),
    }
    match menu_command("opacity:85") {
        MenuCommand::Opacity(p) => assert_eq!(p, "85"),
        other => panic!("unexpected {:?}", other),
    }
    for pct in ["100", "85", "70", "50"] {
        match menu_command(&format!("opacity:{pct}")) {
            MenuCommand::Opacity(p) => assert_eq!(p, pct),
            other => panic!("unexpected {:?}", other),
        }
    }
}

#[test]
fn about_box_text() {
    let (t, b) = about_text(true, "0.3.0");
    assert_eq!(t, "About trafmon");
    assert_eq!(b, "trafmon  v0.3.0\n\nAuthor: Schweik7\nRepository: https://github.com/Schweik7/trafmon");
    let (t, b) = about_text(false, "0.3.0");
    assert_eq!(t, "关于 trafmon");
    assert_eq!(b, "trafmon  v0.3.0\n\n作者：Schweik7\n仓库：https://github.com/Schweik7/trafmon");
}

#[test]
fn language_codes() {
    assert!(wants_english("en"));
    assert!(!wants_english("zh"));
    assert!(!wants_english("EN"));
    assert!(!wants_english(""));
}

#[test]
fn autostart_flips() {
    assert!(autostart_target(Some(false)));
    assert!(!autostart_target(Some(true)));
    assert!(autostart_target(None));
}
