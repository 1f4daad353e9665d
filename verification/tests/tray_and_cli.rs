use imebind::cli::{activation_target, list_line, parse_command, CommandLine};
use imebind::log::{format_timestamp, log_line, needs_rotation, Log};
use imebind::switcher::RestoreTarget;
use imebind::tray::{
    encode_utf16,
    balloon_text, file_name_start, fill_utf16, menu_command, menu_dump_line, menu_entries,
    short_status, tray_tip_update, window_event, ForegroundCache, MenuCommand, MenuEntry,
    WindowEvent, ID_EXIT, ID_PAUSE,
};
use std::path::PathBuf;

fn args(list: &[&str]) -> Vec<String> {
    list.iter().map(|s| s.to_string()).collect()
}

#[test]
fn status_texts() {
    assert_eq!(short_status(false), "ImeBind [运行中]");
    assert_eq!(short_status(true), "ImeBind [已暂停]");
    assert_eq!(balloon_text(true), "ImeBind [已暂停]\r\n右键图标可打开菜单");
}

#[test]
fn tray_tip_changes_only_when_needed() {
    assert_eq!(tray_tip_update(false, &String::new(), true), None);
    assert_eq!(tray_tip_update(true, &"ImeBind [运行中]".to_string(), false), None);
    assert_eq!(tray_tip_update(true, &String::new(), false), Some("ImeBind [运行中]".to_string()));
}

fn texts(m: &[MenuEntry<String>]) -> Vec<String> {
    m.iter()
        .map(|e| match e {
            MenuEntry::Gray(s) => format!("gray {s}"),
            MenuEntry::Separator => "---".to_string(),
            MenuEntry::Item(id, s) => format!("{id} {s}"),
        })
        .collect()
}

#[test]
fn menu_without_rules() {
    let m = menu_entries(false, 0, &Vec::new());
    assert_eq!(
        texts(&m),
        vec![
            "gray 状态：运行中",
            "---",
            "gray （rules.txt 里没有有效规则）",
            "---",
            "2000 暂停自动切换",
            "2001 重新加载 rules.txt",
            "---",
            "2002 编辑 rules.txt",
            "2003 查看日志",
            "2004 打开程序所在文件夹",
            "---",
            "2005 退出",
        ]
    );
}

#[test]
fn menu_with_rules_paused() {
    let d = vec!["dota2.exe → 微软拼音".to_string()];
    let m = menu_entries(true, 1, &d);
    let t = texts(&m);
    assert_eq!(t[0], "gray 状态：已暂停");
    assert_eq!(t[2], "gray 已生效的规则");
    assert_eq!(t[3], "gray   dota2.exe → 微软拼音");
    assert_eq!(t[4], "---");
    assert_eq!(t[5], "2000 恢复自动切换");
    assert_eq!(t.len(), 13);
}

#[test]
fn menu_lists_at_most_twenty_rules() {
    let d: Vec<String> = (0..20).map(|i| format!("r{i}")).collect();
    let m = menu_entries(false, 25, &d);
    let t = texts(&m);
    assert_eq!(t[22], "gray   r19");
    assert_eq!(t[23], "gray   ...");
    assert_eq!(t.len(), 33);
    let exactly = menu_entries(false, 20, &d);
    assert_eq!(texts(&exactly).len(), 32);
}

#[test]
fn menu_dump_lines() {
    assert_eq!(menu_dump_line(&String::new(), 0), "  ---");
    assert_eq!(menu_dump_line(&"退出".to_string(), ID_EXIT), "  [可点击] 退出");
    assert_eq!(menu_dump_line(&"已生效的规则".to_string(), 0), "  [只读] 已生效的规则");
    assert_eq!(menu_dump_line(&"x".to_string(), u32::MAX), "  [分隔] x");
}

#[test]
fn menu_commands() {
    assert_eq!(menu_command(0), None);
    assert_eq!(menu_command(ID_PAUSE), Some(MenuCommand::TogglePause));
    assert_eq!(menu_command(2001), Some(MenuCommand::ReloadRules));
    assert_eq!(menu_command(2002), Some(MenuCommand::EditRules));
    assert_eq!(menu_command(2003), Some(MenuCommand::ViewLog));
    assert_eq!(menu_command(2004), Some(MenuCommand::OpenFolder));
    assert_eq!(menu_command(ID_EXIT), Some(MenuCommand::Exit));
    assert_eq!(menu_command(1999), None);
}

#[test]
fn window_messages() {
    assert_eq!(window_event(0x0113, 1, 0, true, 0xC0F0), WindowEvent::Poll);
    assert_eq!(window_event(0x0113, 1, 0, false, 0xC0F0), WindowEvent::Handled);
    assert_eq!(window_event(0x0113, 7, 0, true, 0xC0F0), WindowEvent::Default);
    assert_eq!(window_event(0x8001, 0, 0x0205, true, 0xC0F0), WindowEvent::ShowMenu);
    assert_eq!(window_event(0x8001, 0, 0x1_007b, true, 0xC0F0), WindowEvent::ShowMenu);
    assert_eq!(window_event(0x8001, 0, 0x0203, true, 0xC0F0), WindowEvent::Balloon);
    assert_eq!(window_event(0x8001, 0, 0x0203, false, 0xC0F0), WindowEvent::Handled);
    assert_eq!(window_event(0x8001, 0, 0x0200, true, 0xC0F0), WindowEvent::Handled);
    assert_eq!(window_event(0xC0F0, 0, 0, true, 0xC0F0), WindowEvent::ReaddIcon);
    assert_eq!(window_event(0xC0F0, 0, 0, false, 0xC0F0), WindowEvent::Default);
    assert_eq!(window_event(0, 0, 0, true, 0), WindowEvent::Default);
    assert_eq!(window_event(0x0002, 0, 0, true, 0xC0F0), WindowEvent::PostQuit);
}

#[test]
fn fill_utf16_cuts_and_zeroes() {
    let mut buf = [9u16; 4];
    fill_utf16(&mut buf, &[1, 2, 3, 4, 5]);
    assert_eq!(buf, [1, 2, 3, 0]);
    let mut buf = [9u16; 4];
    fill_utf16(&mut buf, &[7]);
    assert_eq!(buf, [7, 0, 0, 0]);
}

#[test]
fn file_name_after_last_backslash() {
    let p: Vec<u16> = "C:\\Games\\dota2.exe".encode_utf16().collect();
    let s = file_name_start(&p);
    assert_eq!(String::from_utf16_lossy(&p[s..]), "dota2.exe");
    let q: Vec<u16> = "dota2.exe".encode_utf16().collect();
    assert_eq!(file_name_start(&q), 0);
}

#[test]
fn foreground_cache() {
    let mut c = ForegroundCache::new();
    assert_eq!(c.lookup(10, 20), None);
    assert_eq!(c.store(10, 20, "dota2.exe".to_string()), "dota2.exe");
    assert_eq!(c.lookup(10, 20), Some("dota2.exe".to_string()));
    assert_eq!(c.lookup(11, 20), None);
    assert_eq!(c.lookup(10, 0), Some(String::new()));
    assert_eq!(c.lookup(10, 20), None);
}

#[test]
fn command_lines() {
    assert!(matches!(parse_command(&args(&["imebind"])), CommandLine::Run { no_tray: false, menu_dump: false }));
    assert!(matches!(parse_command(&args(&["imebind", "--help"])), CommandLine::Help));
    assert!(matches!(parse_command(&args(&["imebind", "-h"])), CommandLine::Help));
    assert!(matches!(parse_command(&args(&["imebind", "/?"])), CommandLine::Help));
    assert!(matches!(parse_command(&args(&["imebind", "--list"])), CommandLine::List));
    assert!(matches!(parse_command(&args(&["imebind", "--probe"])), CommandLine::Status));
    assert!(matches!(parse_command(&args(&["imebind", "--status"])), CommandLine::Status));
    assert!(matches!(parse_command(&args(&["imebind", "--dump-rules"])), CommandLine::DumpRules));
    assert!(matches!(
        parse_command(&args(&["imebind", "--no-tray"])),
        CommandLine::Run { no_tray: true, menu_dump: false }
    ));
    assert!(matches!(
        parse_command(&args(&["imebind", "--menu-dump", "--no-tray"])),
        CommandLine::Run { no_tray: true, menu_dump: true }
    ));
}

#[test]
fn activate_command_flags() {
    match parse_command(&args(&["imebind", "--activate", "0409:HKL:04090409"])) {
        CommandLine::Activate { tip, flags } => {
            assert_eq!(tip, Some("0409:HKL:04090409".to_string()));
            assert_eq!(flags, 0x3000_0000);
        }
        _ => panic!(),
    }
    match parse_command(&args(&["imebind", "--activate", "x", "session"])) {
        CommandLine::Activate { flags, .. } => assert_eq!(flags, 0x2000_0000),
        _ => panic!(),
    }
    match parse_command(&args(&["imebind", "--activate", "x", "process"])) {
        CommandLine::Activate { flags, .. } => assert_eq!(flags, 0x1000_0000),
        _ => panic!(),
    }
    match parse_command(&args(&["imebind", "--activate"])) {
        CommandLine::Activate { tip, .. } => assert_eq!(tip, None),
        _ => panic!(),
    }
}

#[test]
fn activation_targets() {
    assert!(matches!(activation_target("0409:HKL:04090409"), Some(Ok(RestoreTarget::Layout(0x0409, 0x04090409)))));
    assert!(matches!(
        activation_target("0804:{81D4E9C9-1D3B-41BC-9E6C-4B40BF79E35E}{FA550B04-5AD7-411F-A5AC-CA038EC515D7}"),
        Some(Ok(RestoreTarget::Tip(0x0804, _, _)))
    ));
    match activation_target("bad") {
        Some(Err(m)) => assert_eq!(m, "缺少冒号"),
        _ => panic!(),
    }
    assert!(activation_target("0804:}{x}").is_none());
}

#[test]
fn list_lines() {
    let tip = "0409:HKL:04090409".to_string();
    let name = "美式键盘".to_string();
    assert_eq!(list_line(&tip, &name, &None), "  0409:HKL:04090409   美式键盘");
    assert_eq!(list_line(&tip, &name, &Some(tip.clone())), "  0409:HKL:04090409   美式键盘   ← 当前");
    assert_eq!(list_line(&tip, &name, &Some("x".to_string())), "  0409:HKL:04090409   美式键盘");
}

#[test]
fn log_rotation_threshold() {
    assert!(!needs_rotation(262_144));
    assert!(needs_rotation(262_145));
    assert!(!needs_rotation(0));
}

#[test]
fn log_timestamp_and_line() {
    let ts = format_timestamp(2024, 3, 7, 9, 5, 2, 45);
    assert_eq!(ts, "2024-03-07 09:05:02.045");
    assert_eq!(format_timestamp(12345, 12, 31, 23, 59, 59, 999), "12345-12-31 23:59:59.999");
    assert_eq!(log_line(&ts, "退出"), "2024-03-07 09:05:02.045  退出");
}

#[test]
fn log_keeps_its_path() {
    let p = PathBuf::from("imebind.log");
    let log = Log::new(p.clone());
    assert_eq!(log.path(), &p);
}

#[test]
fn utf16_like_std() {
    for t in ["", "ImeBind [运行中]", "a€😀中\r\n", "\u{10FFFF}\u{FFFF}"] {
        let expected: Vec<u16> = t.encode_utf16().collect();
        assert_eq!(encode_utf16(t), expected);
    }
    assert_eq!(encode_utf16("😀"), vec![0xD83D, 0xDE00]);
}
