use imebind::rules::{classify_line, find, find_index, load, read_rules, LineKind, Rule, RuleNotice};
use imebind::template::example_rules;
use imebind::tip::Guid;

const PINYIN: &str = "0804:{81D4E9C9-1D3B-41BC-9E6C-4B40BF79E35E}{FA550B04-5AD7-411F-A5AC-CA038EC515D7}";

fn clsid() -> Guid {
    Guid::from_values(0x81D4E9C9, 0x1D3B, 0x41BC, [0x9E, 0x6C, 0x4B, 0x40, 0xBF, 0x79, 0xE3, 0x5E])
}

fn exes(rules: &[Rule]) -> Vec<String> {
    rules.iter().map(|r| r.exe.clone()).collect()
}

fn messages(notices: &[RuleNotice<String>]) -> Vec<String> {
    notices.iter().map(|n| n.message()).collect()
}

#[test]
fn readme_rule_is_read() {
    let text = format!("dota2.exe = {PINYIN}\n");
    let (rules, notices) = load(&text);
    assert!(notices.is_empty());
    assert_eq!(rules.len(), 1);
    assert_eq!(rules[0].exe, "dota2.exe");
    assert_eq!(rules[0].langid, 0x0804);
    assert_eq!(rules[0].clsid, clsid());
    assert_eq!(rules[0].tip, PINYIN);
}

#[test]
fn comments_blank_lines_and_crlf() {
    let text = format!("# ImeBind 规则\r\n\r\n   \r\n  # indented comment\r\nGame.EXE = {PINYIN}\r\n");
    let (rules, notices) = load(&text);
    assert!(notices.is_empty());
    assert_eq!(exes(&rules), vec!["game.exe".to_string()]);
}

#[test]
fn byte_order_mark_is_dropped() {
    let text = format!("\u{FEFF}dota2.exe = {PINYIN}");
    let (rules, _) = load(&text);
    assert_eq!(exes(&rules), vec!["dota2.exe".to_string()]);
}

#[test]
fn tip_is_normalised_to_upper_case() {
    let text = format!("a.exe={}", PINYIN.to_lowercase());
    let (rules, _) = load(&text);
    assert_eq!(rules[0].tip, PINYIN);
}

#[test]
fn line_without_equals() {
    let (rules, notices) = load("dota2.exe 0804\n");
    assert!(rules.is_empty());
    assert_eq!(messages(&notices), vec!["这一行没有等号，已跳过: dota2.exe 0804".to_string()]);
}

#[test]
fn line_without_program() {
    let text = format!("  = {PINYIN}");
    let (rules, notices) = load(&text);
    assert!(rules.is_empty());
    assert_eq!(messages(&notices), vec![format!("这一行缺少程序名，已跳过: = {PINYIN}")]);
}

#[test]
fn duplicate_program_keeps_the_first() {
    let other = "0409:{00000000-0000-0000-0000-000000000001}{00000000-0000-0000-0000-000000000002}";
    let text = format!("dota2.exe = {PINYIN}\nDOTA2.exe = {other}\n");
    let (rules, notices) = load(&text);
    assert_eq!(rules.len(), 1);
    assert_eq!(rules[0].tip, PINYIN);
    assert_eq!(
        messages(&notices),
        vec![format!("重复规则（dota2.exe），已忽略后一条: DOTA2.exe = {other}")]
    );
}

#[test]
fn bad_tip_is_reported() {
    let (rules, notices) = load("x.exe = 0804\ny.exe = 0804:{1-2}{3}\n");
    assert!(rules.is_empty());
    assert_eq!(
        messages(&notices),
        vec![
            "规则解析失败，已跳过: x.exe = 0804 （缺少冒号）".to_string(),
            "规则解析失败，已跳过: y.exe = 0804:{1-2}{3} （GUID 段数不对: 1-2）".to_string(),
        ]
    );
}

#[test]
fn panicking_line_stops_reading() {
    assert!(read_rules("x.exe = 0804:}{x}\n").is_err());
    assert!(read_rules("# only a comment\n").is_ok());
}

#[test]
fn only_the_first_equals_splits() {
    let text = format!("a=b.exe = {PINYIN}");
    let (rules, notices) = load(&text);
    assert!(rules.is_empty());
    assert_eq!(notices.len(), 1);
}

#[test]
fn find_ignores_case() {
    let text = format!("dota2.exe = {PINYIN}\nnotepad.exe = {PINYIN}\n");
    let (rules, _) = load(&text);
    assert_eq!(find(&rules, "DOTA2.EXE").map(|r| r.exe.clone()), Some("dota2.exe".to_string()));
    assert_eq!(find_index(&rules, "Notepad.exe"), Some(1));
    assert!(find(&rules, "calc.exe").is_none());
    assert!(find(&rules, "").is_none());
}

#[test]
fn rule_display() {
    let text = format!("dota2.exe = {PINYIN}");
    let (rules, _) = load(&text);
    assert_eq!(rules[0].display(Some("微软拼音".to_string())), "dota2.exe → 微软拼音");
    assert_eq!(rules[0].display(None), format!("dota2.exe → {PINYIN}"));
}

#[test]
fn generated_template_has_no_rules() {
    let template = "# ImeBind 规则：每行 \"程序名 = 输入法TIP\"，程序名不区分大小写\r\n\
         # 本机可用的 TIP 用 imebind --list 查看\r\n\
         # 示例（微软拼音）：\r\n\
         # dota2.exe = 0804:{81D4E9C9-1D3B-41BC-9E6C-4B40BF79E35E}{FA550B04-5AD7-411F-A5AC-CA038EC515D7}\r\n";
    assert_eq!(example_rules(), template);
    let (rules, notices) = read_rules(template).unwrap();
    assert!(rules.is_empty());
    assert!(notices.is_empty());
    let uncommented = template.replace("# dota2.exe", "dota2.exe");
    let (rules, notices) = read_rules(&uncommented).unwrap();
    assert!(notices.is_empty());
    assert_eq!(exes(&rules), vec!["dota2.exe".to_string()]);
}

#[test]
fn notices_before_a_panicking_line_are_kept() {
    let text = format!("noequals\nx.exe = 0804:}}{{x}}\ny.exe = {PINYIN}\nalso bad\n");
    match read_rules(&text) {
        Err(notices) => assert_eq!(messages(&notices), vec!["这一行没有等号，已跳过: noequals".to_string()]),
        Ok(_) => panic!("the second line panics"),
    }
}

#[test]
fn unicode_white_space_is_trimmed() {
    let text = format!("\u{3000}Dota2.exe\u{00A0}=\u{2003}{PINYIN}\u{205F}\n");
    let (rules, notices) = load(&text);
    assert!(notices.is_empty());
    assert_eq!(exes(&rules), vec!["dota2.exe".to_string()]);
    assert_eq!(rules[0].tip, PINYIN);
}

#[test]
fn comment_and_blank_lines_are_skipped() {
    assert!(matches!(classify_line(" \t\u{3000}# a comment = x"), LineKind::Skip));
    assert!(matches!(classify_line("\u{2028}\u{0085}  "), LineKind::Skip));
    assert!(matches!(classify_line(""), LineKind::Skip));
    assert!(matches!(classify_line("x # not a comment"), LineKind::NoEquals(_)));
    assert!(matches!(classify_line("\u{200B}# zero width space is no White_Space"), LineKind::NoEquals(_)));
}

#[test]
fn rule_names_are_trimmed_lower_case_without_equals() {
    let text = format!("  My Game.EXE  = {PINYIN}\n");
    let (rules, _) = load(&text);
    let exe = &rules[0].exe;
    assert_eq!(exe, "my game.exe");
    assert_eq!(exe.trim(), exe);
    assert_eq!(&exe.to_lowercase(), exe);
    assert!(!exe.contains('='));
    assert_eq!(rules[0].tip.to_uppercase(), rules[0].tip);
}

#[test]
fn trim_like_std() {
    for t in ["", "   ", " a b ", "\u{3000}dota2.exe\u{00A0}", "\t\r\n# x\u{2029}", "\u{200B}x\u{200B}", "中文 ", "\u{85}\u{1680}y\u{205F}\u{202F}"] {
        assert_eq!(imebind::text::trim_str(t), t.trim());
    }
}
