//! What holds of the switcher across polls, pausing and quitting.
use vstd::prelude::*;
use vstd::utf8::*;
use crate::rules::{rule_for, is_first_rule_for, RuleV};
use crate::tip::{GuidV, TF_PROFILETYPE_INPUTPROCESSOR};
use crate::tip_laws::lemma_active_tip_reads_back;
use crate::tsf::{ActiveProfile, active_tip_chars, active_or_empty};
use crate::switcher::{
    Action, ActionV, RestoreReason, RestoreTarget, SwitcherV, ascii_ci_eq, pause_step, poll_step,
    quit_step, quit_text, restore_target, switcher_wf,
};

verus! {

/// The input method an active profile is: its GUIDs for a TSF input method,
/// else its keyboard layout.
pub open spec fn profile_target(p: ActiveProfile) -> RestoreTarget<GuidV> {
    if p.profile_type == TF_PROFILETYPE_INPUTPROCESSOR {
        RestoreTarget::Tip(p.langid, p.clsid@, p.guid_profile@)
    } else {
        RestoreTarget::Layout(p.langid, p.hkl)
    }
}

/// Saved text of an active input method is restored as that same input method.
pub proof fn lemma_restore_active(p: ActiveProfile)
    ensures
        restore_target(active_tip_chars(p)) == profile_target(p),
{
    lemma_active_tip_reads_back(p);
}

/// While paused, a poll switches nothing and saves nothing; it only follows the
/// foreground program.
pub proof fn lemma_paused_poll(s: SwitcherV, exe: Seq<char>, now: u64, active: Option<ActiveProfile>)
    requires
        s.paused,
    ensures
        poll_step(s, exe, now, active) == (SwitcherV { seen: exe, ..s }, Seq::<ActionV>::empty()),
{
}

/// Moving between programs that have rules keeps the input method the user had
/// before the first of them: once saved, it is not replaced.
pub proof fn lemma_saved_kept(s: SwitcherV, exe: Seq<char>, now: u64, active: Option<ActiveProfile>)
    requires
        s.forced is Some,
        rule_for(s.rules, exe) is Some,
    ensures
        poll_step(s, exe, now, active).0.forced == s.forced,
{
}

/// Leaving for a program without a rule brings back the saved input method and
/// forgets it.
pub proof fn lemma_leave_restores(s: SwitcherV, exe: Seq<char>, now: u64, active: Option<ActiveProfile>, t: Seq<char>)
    requires
        !s.paused,
        exe != s.seen,
        rule_for(s.rules, exe) is None,
        s.forced == Some(t),
    ensures
        poll_step(s, exe, now, active).0.forced is None,
        poll_step(s, exe, now, active).1 == seq![
            Action::Log(crate::switcher::switch_text(s.seen, exe)),
            Action::Restore { reason: RestoreReason::LeaveRule, tip: t, target: restore_target(t) },
        ],
{
    assert(seq![Action::<Seq<char>, GuidV>::Log(crate::switcher::switch_text(s.seen, exe))] + seq![
        Action::Restore { reason: RestoreReason::LeaveRule, tip: t, target: restore_target(t) },
    ] =~= seq![
        Action::Log(crate::switcher::switch_text(s.seen, exe)),
        Action::Restore { reason: RestoreReason::LeaveRule, tip: t, target: restore_target(t) },
    ]);
}

/// Entering a program whose rule asks for another input method than the active
/// one saves the active one; quitting then brings back exactly that input method.
pub proof fn lemma_enter_then_quit(s: SwitcherV, exe: Seq<char>, now: u64, p: ActiveProfile)
    requires
        !s.paused,
        s.forced is None,
        exe != s.seen,
        rule_for(s.rules, exe) matches Some(i) && !ascii_ci_eq(
            encode_utf8(active_tip_chars(p)),
            encode_utf8(s.rules[i].tip),
        ),
    ensures
        poll_step(s, exe, now, Some(p)).0.forced == Some(active_tip_chars(p)),
        quit_step(poll_step(s, exe, now, Some(p)).0).1 == seq![
            Action::Restore {
                reason: RestoreReason::Quit,
                tip: active_tip_chars(p),
                target: profile_target(p),
            },
            Action::Log(quit_text()),
        ],
        quit_step(poll_step(s, exe, now, Some(p)).0).0.forced is None,
{
    lemma_restore_active(p);
    assert(seq![
        Action::<Seq<char>, GuidV>::Restore {
            reason: RestoreReason::Quit,
            tip: active_tip_chars(p),
            target: restore_target(active_tip_chars(p)),
        },
    ].push(Action::Log(quit_text())) =~= seq![
        Action::Restore {
            reason: RestoreReason::Quit,
            tip: active_tip_chars(p),
            target: profile_target(p),
        },
        Action::Log(quit_text()),
    ]);
}

/// Quitting leaves nothing saved, and restores exactly when something was saved.
pub proof fn lemma_quit(s: SwitcherV)
    ensures
        quit_step(s).0.forced is None,
        quit_step(s).0.paused == s.paused,
        quit_step(s).0.rules == s.rules,
        s.forced is None ==> quit_step(s).1 == seq![Action::<Seq<char>, GuidV>::Log(quit_text())],
        s.forced matches Some(t) ==> quit_step(s).1 == seq![
            Action::Restore { reason: RestoreReason::Quit, tip: t, target: restore_target(t) },
            Action::Log(quit_text()),
        ],
{
    assert(Seq::<ActionV>::empty().push(Action::Log(quit_text())) =~= seq![
        Action::<Seq<char>, GuidV>::Log(quit_text()),
    ]);
}

/// Pausing brings back the saved input method; pausing and resuming gives back
/// a running switcher over the same rules with nothing saved.
pub proof fn lemma_pause_resume(s: SwitcherV)
    requires
        !s.paused,
    ensures
        pause_step(s).0.paused,
        pause_step(s).0.forced is None,
        !pause_step(pause_step(s).0).0.paused,
        pause_step(pause_step(s).0).0.rules == s.rules,
        pause_step(pause_step(s).0).0.forced is None,
{
}

proof fn lemma_rule_for_bound(rs: Seq<RuleV>, exe: Seq<char>)
    ensures
        rule_for(rs, exe) matches Some(i) ==> 0 <= i < rs.len(),
{
    if exe.len() > 0 {
        let key = crate::text::lowercase(exe);
        if exists|i: int| is_first_rule_for(rs, key, i) {
            let i = choose|i: int| is_first_rule_for(rs, key, i);
            assert(is_first_rule_for(rs, key, i));
        }
    }
}

/// A poll applies a rule only where the active input method differs from the
/// rule's (ASCII case aside), and only the rule for the foreground program.
pub proof fn lemma_apply_only_when_needed(
    s: SwitcherV,
    exe: Seq<char>,
    now: u64,
    active: Option<ActiveProfile>,
    k: int,
)
    requires
        s.rules.len() <= usize::MAX,
        0 <= k < poll_step(s, exe, now, active).1.len(),
        poll_step(s, exe, now, active).1[k] is Apply,
    ensures
        ({
            let a = poll_step(s, exe, now, active).1[k];
            &&& rule_for(s.rules, exe) == Some(a->rule as int)
            &&& a->from == active_or_empty(active)
            &&& !ascii_ci_eq(encode_utf8(a->from), encode_utf8(s.rules[a->rule as int].tip))
        }),
{
    if let Some(i) = rule_for(s.rules, exe) {
        lemma_rule_for_bound(s.rules, exe);
    }
    if !s.paused && exe != s.seen && rule_for(s.rules, exe) is None {
        let (r, acts) = crate::switcher::restore_step(s, RestoreReason::LeaveRule);
        assert((seq![Action::Log(crate::switcher::switch_text(s.seen, exe))] + acts)[k] is Apply ==> false) by {
            if k >= 1 {
                assert((seq![Action::<Seq<char>, GuidV>::Log(crate::switcher::switch_text(s.seen, exe))] + acts)[k] == acts[k - 1]);
            }
        }
    }
}


/// The rule is repeated at most once per entry into its program: a poll that
/// applies a rule again ends the re-check, so the next poll of the same program
/// does nothing.
pub proof fn lemma_repeat_once(
    s: SwitcherV,
    exe: Seq<char>,
    now: u64,
    active: Option<ActiveProfile>,
    k: int,
    now2: u64,
    active2: Option<ActiveProfile>,
)
    requires
        0 <= k < poll_step(s, exe, now, active).1.len(),
        poll_step(s, exe, now, active).1[k] matches Action::Apply { again, .. } && again,
    ensures
        poll_step(s, exe, now, active).0.reassert_until is None,
        poll_step(poll_step(s, exe, now, active).0, exe, now2, active2).1.len() == 0,
{
    if !s.paused && exe != s.seen && rule_for(s.rules, exe) is None {
        let (r, acts) = crate::switcher::restore_step(s, RestoreReason::LeaveRule);
        let all = seq![Action::<Seq<char>, GuidV>::Log(crate::switcher::switch_text(s.seen, exe))] + acts;
        if k >= 1 {
            assert(all[k] == acts[k - 1]);
        }
    }
}

/// Entering a program with a rule starts the re-check whether or not the rule
/// had to be applied: a later poll of the same program within 1.5 s that finds
/// another input method active applies the rule again.
pub proof fn lemma_recheck_after_entry(
    s: SwitcherV,
    exe: Seq<char>,
    now: u64,
    active: Option<ActiveProfile>,
    now2: u64,
    p2: ActiveProfile,
)
    requires
        !s.paused,
        exe != s.seen,
        rule_for(s.rules, exe) is Some,
        now <= now2,
        now2 < now + crate::switcher::REASSERT_MS,
        now2 < u64::MAX,
        !ascii_ci_eq(
            encode_utf8(active_tip_chars(p2)),
            encode_utf8(s.rules[rule_for(s.rules, exe)->Some_0].tip),
        ),
    ensures
        poll_step(s, exe, now, active).0.reassert_until matches Some(d) && now2 < d,
        poll_step(poll_step(s, exe, now, active).0, exe, now2, Some(p2)).1 == seq![
            Action::<Seq<char>, GuidV>::Apply {
                rule: rule_for(s.rules, exe)->Some_0 as usize,
                from: active_tip_chars(p2),
                again: true,
            },
        ],
{
}

/// The re-check after entering a program lasts 1.5 s: a poll of the same
/// program from then on does nothing.
pub proof fn lemma_recheck_ends(
    s: SwitcherV,
    exe: Seq<char>,
    now: u64,
    active: Option<ActiveProfile>,
    now2: u64,
    active2: Option<ActiveProfile>,
)
    requires
        !s.paused,
        exe != s.seen,
        rule_for(s.rules, exe) is Some,
        now + crate::switcher::REASSERT_MS <= now2,
    ensures
        poll_step(poll_step(s, exe, now, active).0, exe, now2, active2).1.len() == 0,
{
}

/// Pausing a running switcher brings back the saved text as the same target
/// that leaving a rule program or quitting gives, then logs the pause.
pub proof fn lemma_pause_restores(s: SwitcherV, t: Seq<char>)
    requires
        !s.paused,
        s.forced == Some(t),
    ensures
        pause_step(s).0.forced is None,
        pause_step(s).1 == seq![
            Action::Restore { reason: RestoreReason::Pause, tip: t, target: restore_target(t) },
            Action::Log(crate::switcher::pause_text(true)),
        ],
{
    assert(seq![
        Action::<Seq<char>, GuidV>::Restore { reason: RestoreReason::Pause, tip: t, target: restore_target(t) },
    ].push(Action::Log(crate::switcher::pause_text(true))) =~= seq![
        Action::Restore { reason: RestoreReason::Pause, tip: t, target: restore_target(t) },
        Action::Log(crate::switcher::pause_text(true)),
    ]);
}

/// Entering a program whose rule asks for another input method than the active
/// one and then pausing brings back exactly the input method that was active.
pub proof fn lemma_enter_then_pause(s: SwitcherV, exe: Seq<char>, now: u64, p: ActiveProfile)
    requires
        !s.paused,
        s.forced is None,
        exe != s.seen,
        rule_for(s.rules, exe) matches Some(i) && !ascii_ci_eq(
            encode_utf8(active_tip_chars(p)),
            encode_utf8(s.rules[i].tip),
        ),
    ensures
        pause_step(poll_step(s, exe, now, Some(p)).0).1 == seq![
            Action::Restore {
                reason: RestoreReason::Pause,
                tip: active_tip_chars(p),
                target: profile_target(p),
            },
            Action::Log(crate::switcher::pause_text(true)),
        ],
        pause_step(poll_step(s, exe, now, Some(p)).0).0.forced is None,
{
    lemma_restore_active(p);
    lemma_pause_restores(poll_step(s, exe, now, Some(p)).0, active_tip_chars(p));
}

} // verus!
