use imebind::rules::load;
use imebind::switcher::{same_ignoring_ascii_case, Action, RestoreReason, RestoreTarget, Switcher};
use imebind::tip::Guid;
use imebind::tsf::ActiveProfile;

const PINYIN: &str = "0804:{81D4E9C9-1D3B-41BC-9E6C-4B40BF79E35E}{FA550B04-5AD7-411F-A5AC-CA038EC515D7}";

fn clsid() -> Guid {
    Guid::from_values(0x81D4E9C9, 0x1D3B, 0x41BC, [0x9E, 0x6C, 0x4B, 0x40, 0xBF, 0x79, 0xE3, 0x5E])
}

fn profile() -> Guid {
    Guid::from_values(0xFA550B04, 0x5AD7, 0x411F, [0xA5, 0xAC, 0xCA, 0x03, 0x8E, 0xC5, 0x15, 0xD7])
}

fn us_layout() -> ActiveProfile {
    ActiveProfile { profile_type: 2, langid: 0x0409, clsid: clsid(), guid_profile: profile(), hkl: 0x04090409 }
}

fn pinyin() -> ActiveProfile {
    ActiveProfile { profile_type: 1, langid: 0x0804, clsid: clsid(), guid_profile: profile(), hkl: 0 }
}

fn switcher() -> Switcher {
    let (rules, _) = load(&format!("dota2.exe = {PINYIN}\n"));
    Switcher::new(rules)
}

fn logs(actions: &[Action<String, Guid>]) -> Vec<String> {
    actions
        .iter()
        .filter_map(|a| match a {
            Action::Log(s) => Some(s.clone()),
            _ => None,
        })
        .collect()
}

#[test]
fn entering_a_rule_program_applies_and_saves() {
    let mut s = switcher();
    assert!(s.wants_active("dota2.exe", 0));
    let acts = s.poll("dota2.exe".to_string(), 0, Some(us_layout()));
    assert_eq!(acts.len(), 2);
    assert_eq!(logs(&acts), vec!["前台切换:  -> dota2.exe".to_string()]);
    match &acts[1] {
        Action::Apply { rule, from, again } => {
            assert_eq!(*rule, 0);
            assert_eq!(from, "0409:HKL:04090409");
            assert!(!*again);
        }
        other => panic!("unexpected {other:?}"),
    }
    assert_eq!(s.forced(), Some(&"0409:HKL:04090409".to_string()));
}

#[test]
fn already_active_method_is_left_alone() {
    let mut s = switcher();
    let acts = s.poll("DOTA2.exe".to_string(), 0, Some(pinyin()));
    assert_eq!(acts.len(), 1);
    assert_eq!(s.forced(), None);
}

#[test]
fn ascii_case_is_ignored_when_comparing() {
    assert!(same_ignoring_ascii_case(PINYIN, &PINYIN.to_lowercase()));
    assert!(!same_ignoring_ascii_case("abc", "abd"));
    assert!(!same_ignoring_ascii_case("abc", "abcd"));
    assert!(!same_ignoring_ascii_case("É", "é"));
}

#[test]
fn reapplied_once_within_the_window() {
    let mut s = switcher();
    s.poll("dota2.exe".to_string(), 1000, Some(us_layout()));
    assert!(s.wants_active("dota2.exe", 2499));
    let acts = s.poll("dota2.exe".to_string(), 2499, Some(us_layout()));
    assert_eq!(acts.len(), 1);
    assert!(matches!(acts[0], Action::Apply { again: true, .. }));
    assert!(!s.wants_active("dota2.exe", 2600));
    let acts = s.poll("dota2.exe".to_string(), 2600, Some(us_layout()));
    assert!(acts.is_empty());
}

#[test]
fn no_reapply_after_the_window() {
    let mut s = switcher();
    s.poll("dota2.exe".to_string(), 1000, Some(us_layout()));
    assert!(!s.wants_active("dota2.exe", 2500));
    let acts = s.poll("dota2.exe".to_string(), 2500, Some(us_layout()));
    assert!(acts.is_empty());
    assert!(!s.wants_active("dota2.exe", 2000));
}

#[test]
fn leaving_restores_the_saved_layout() {
    let mut s = switcher();
    s.poll("dota2.exe".to_string(), 0, Some(us_layout()));
    assert!(!s.wants_active("explorer.exe", 100));
    let acts = s.poll("explorer.exe".to_string(), 100, None);
    assert_eq!(acts.len(), 2);
    match &acts[1] {
        Action::Restore { reason, tip, target } => {
            assert_eq!(*reason, RestoreReason::LeaveRule);
            assert_eq!(tip, "0409:HKL:04090409");
            assert!(matches!(target, RestoreTarget::Layout(0x0409, 0x04090409)));
        }
        other => panic!("unexpected {other:?}"),
    }
    assert_eq!(s.forced(), None);
}

#[test]
fn saved_tsf_method_restores_as_tip() {
    let other = "0409:{00000000-0000-0000-0000-000000000001}{00000000-0000-0000-0000-000000000002}";
    let (rules, _) = load(&format!("word.exe = {other}\n"));
    let mut s = Switcher::new(rules);
    s.poll("word.exe".to_string(), 0, Some(pinyin()));
    let acts = s.quit();
    match &acts[0] {
        Action::Restore { reason, target, .. } => {
            assert_eq!(*reason, RestoreReason::Quit);
            match target {
                RestoreTarget::Tip(l, c, p) => {
                    assert_eq!(*l, 0x0804);
                    assert_eq!(*c, clsid());
                    assert_eq!(*p, profile());
                }
                _ => panic!("not a TIP"),
            }
        }
        other => panic!("unexpected {other:?}"),
    }
    assert_eq!(logs(&acts), vec!["退出".to_string()]);
}

#[test]
fn unreadable_active_text_gives_up() {
    let mut s = switcher();
    s.poll("dota2.exe".to_string(), 0, None);
    assert_eq!(s.forced(), Some(&String::new()));
    let acts = s.quit();
    assert!(matches!(acts[0], Action::Restore { target: RestoreTarget::Unreadable, .. }));
}

#[test]
fn saved_method_is_kept_between_rule_programs() {
    let other = "0409:{00000000-0000-0000-0000-000000000001}{00000000-0000-0000-0000-000000000002}";
    let (rules, _) = load(&format!("dota2.exe = {PINYIN}\nword.exe = {other}\n"));
    let mut s = Switcher::new(rules);
    s.poll("dota2.exe".to_string(), 0, Some(us_layout()));
    s.poll("word.exe".to_string(), 10, Some(pinyin()));
    assert_eq!(s.forced(), Some(&"0409:HKL:04090409".to_string()));
}

#[test]
fn pause_restores_and_stops_switching() {
    let mut s = switcher();
    s.poll("dota2.exe".to_string(), 0, Some(us_layout()));
    let acts = s.toggle_pause();
    assert!(s.is_paused());
    assert!(matches!(acts[0], Action::Restore { reason: RestoreReason::Pause, .. }));
    assert_eq!(logs(&acts), vec!["已暂停自动切换".to_string()]);
    assert!(!s.wants_active("notepad.exe", 10));
    assert!(s.poll("notepad.exe".to_string(), 10, None).is_empty());
    assert!(s.poll("dota2.exe".to_string(), 20, Some(us_layout())).is_empty());
    let acts = s.toggle_pause();
    assert!(!s.is_paused());
    assert_eq!(logs(&acts), vec!["已恢复自动切换".to_string()]);
    // the foreground was followed while paused: no switch on resume
    assert!(s.poll("dota2.exe".to_string(), 5000, Some(us_layout())).is_empty());
}

#[test]
fn quit_with_nothing_saved_only_logs() {
    let mut s = switcher();
    let acts = s.quit();
    assert_eq!(acts.len(), 1);
    assert_eq!(logs(&acts), vec!["退出".to_string()]);
}

#[test]
fn reload_replaces_rules() {
    let mut s = switcher();
    let (rules, _) = load(&format!("a.exe = {PINYIN}\nb.exe = {PINYIN}\n"));
    let acts = s.reload(rules);
    assert_eq!(logs(&acts), vec!["重新加载 rules.txt：2 条规则".to_string()]);
    assert_eq!(s.rules().len(), 2);
    assert!(s.wants_active("b.exe", 0));
}
