//! The decisions of the background switcher: on each poll, what the
//! foreground program means for the input method; pausing, and restoring the
//! input method the user had. The caller reads the foreground program and the
//! active input method and carries out the actions.
use vstd::prelude::*;
use vstd::utf8::*;
use vstd::string::StringSliceAdditionalSpecFns;
use crate::rules::{Rule, RuleV, rules_view, rule_for, find_index};
use crate::text::{push_str, push_numeral, numeral};
use crate::tip::{Guid, GuidV, TipError, tip_outcome, read_tip};
use crate::tip_laws::lemma_active_tip_reads_back;
use crate::tip::find_byte;
use crate::tsf::{ActiveProfile, active_tip_text, active_or_empty, hkl_outcome, parse_hkl_tip};

verus! {

/// Poll interval of the switcher, in milliseconds.
pub const POLL_MS: u32 = 250;
/// How long after applying a rule it is checked, and applied once more, if
/// something switched the input method back.
pub const REASSERT_MS: u64 = 1500;

/// Why the saved input method is brought back.
#[derive(Clone, Copy, Debug, PartialEq, Eq, Structural)]
pub enum RestoreReason {
    /// The foreground program has no rule.
    LeaveRule,
    /// Switching was paused.
    Pause,
    /// The program is quitting.
    Quit,
}

/// What the saved input method text reads as.
#[derive(Clone, Copy, Debug)]
pub enum RestoreTarget<G> {
    /// A keyboard layout: language and layout handle.
    Layout(u16, usize),
    /// A TSF input method: language, CLSID, profile.
    Tip(u16, G, G),
    /// Neither: nothing is restored.
    Unreadable,
}

/// One thing for the caller to do, in order.
#[derive(Debug)]
pub enum Action<S, G> {
    /// Write this line to the log.
    Log(S),
    /// Activate the input method of the rule at this position (for the process
    /// and the session) and log it, naming the text of the input method it
    /// replaces; `again` for the one repeat after a rule was applied.
    Apply { rule: usize, from: S, again: bool },
    /// Bring back the saved input method and log it.
    Restore { reason: RestoreReason, tip: S, target: RestoreTarget<G> },
}

pub type ActionV = Action<Seq<char>, GuidV>;

impl View for RestoreTarget<Guid> {
    type V = RestoreTarget<GuidV>;

    open spec fn view(&self) -> RestoreTarget<GuidV> {
        match self {
            RestoreTarget::Layout(l, h) => RestoreTarget::Layout(*l, *h),
            RestoreTarget::Tip(l, c, p) => RestoreTarget::Tip(*l, c@, p@),
            RestoreTarget::Unreadable => RestoreTarget::Unreadable,
        }
    }
}

impl View for Action<String, Guid> {
    type V = ActionV;

    open spec fn view(&self) -> ActionV {
        match self {
            Action::Log(s) => Action::Log(s@),
            Action::Apply { rule, from, again } => Action::Apply {
                rule: *rule,
                from: from@,
                again: *again,
            },
            Action::Restore { reason, tip, target } => Action::Restore {
                reason: *reason,
                tip: tip@,
                target: target@,
            },
        }
    }
}

pub open spec fn actions_view(a: Seq<Action<String, Guid>>) -> Seq<ActionV> {
    Seq::new(a.len(), |i: int| a[i]@)
}

/// Text that a restore can act on: it reads (as a layout or as TIP text, well
/// formed or not) without panicking.
pub open spec fn restorable(t: Seq<char>) -> bool {
    hkl_outcome(encode_utf8(t)) is Some || tip_outcome(encode_utf8(t)) is Some
}

/// What the saved text `t` is restored as: the layout form first, then TIP text.
pub open spec fn restore_target(t: Seq<char>) -> RestoreTarget<GuidV> {
    match hkl_outcome(encode_utf8(t)) {
        Some((l, h)) => RestoreTarget::Layout(l, h),
        None => match tip_outcome(encode_utf8(t)) {
            Some(Ok((l, c, p))) => RestoreTarget::Tip(l, c, p),
            _ => RestoreTarget::Unreadable,
        },
    }
}

/// The switcher's state as plain values.
pub struct SwitcherV {
    pub rules: Seq<RuleV>,
    pub paused: bool,
    /// The input method the user had before a rule was applied.
    pub forced: Option<Seq<char>>,
    /// The foreground program of the last poll.
    pub seen: Seq<char>,
    /// Until when (milliseconds) a rule just applied is checked once more.
    pub reassert_until: Option<u64>,
}

/// The state of the background switcher.
pub struct Switcher {
    rules: Vec<Rule>,
    paused: bool,
    forced: Option<String>,
    seen: String,
    reassert_until: Option<u64>,
}

impl View for Switcher {
    type V = SwitcherV;

    closed spec fn view(&self) -> SwitcherV {
        SwitcherV {
            rules: rules_view(self.rules@),
            paused: self.paused,
            forced: match self.forced {
                Some(t) => Some(t@),
                None => None,
            },
            seen: self.seen@,
            reassert_until: self.reassert_until,
        }
    }
}

/// The state the switcher keeps: a saved input method can always be acted on.
pub open spec fn switcher_wf(s: SwitcherV) -> bool {
    s.forced matches Some(t) ==> restorable(t)
}

pub open spec fn switch_text(from: Seq<char>, to: Seq<char>) -> Seq<char> {
    "前台切换: "@ + from + " -> "@ + to
}

pub open spec fn pause_text(paused: bool) -> Seq<char> {
    if paused {
        "已暂停自动切换"@
    } else {
        "已恢复自动切换"@
    }
}

pub open spec fn quit_text() -> Seq<char> {
    "退出"@
}

pub open spec fn reload_text(n: nat) -> Seq<char> {
    "重新加载 rules.txt："@ + numeral(n, 0, 10) + " 条规则"@
}

/// The byte, lower-cased if it is an ASCII capital.
pub open spec fn ascii_lower(b: u8) -> u8 {
    if 0x41 <= b <= 0x5a {
        (b + 32) as u8
    } else {
        b
    }
}

/// Equal when ASCII letters are compared without regard to case.
pub open spec fn ascii_ci_eq(a: Seq<u8>, b: Seq<u8>) -> bool {
    a.len() == b.len() && forall|i: int| 0 <= i < a.len() ==> ascii_lower(a[i]) == ascii_lower(b[i])
}

/// `a.eq_ignore_ascii_case(b)`.
pub fn same_ignoring_ascii_case(a: &str, b: &str) -> (r: bool)
    ensures
        r == ascii_ci_eq(a.spec_bytes(), b.spec_bytes()),
{
    let x = a.as_bytes();
    let y = b.as_bytes();
    if x.len() != y.len() {
        return false;
    }
    let n = x.len();
    let mut i: usize = 0;
    while i < n
        invariant
            n == x@.len(),
            n == y@.len(),
            x@ == a.spec_bytes(),
            y@ == b.spec_bytes(),
            i <= n,
            forall|j: int| 0 <= j < i ==> ascii_lower(x@[j]) == ascii_lower(y@[j]),
        decreases n - i,
    {
        let p = if 0x41 <= x[i] && x[i] <= 0x5a {
            x[i] + 32
        } else {
            x[i]
        };
        let q = if 0x41 <= y[i] && y[i] <= 0x5a {
            y[i] + 32
        } else {
            y[i]
        };
        assert(ascii_lower(x@[i as int]) == p && ascii_lower(y@[i as int]) == q);
        if p != q {
            assert(ascii_lower(a.spec_bytes()[i as int]) != ascii_lower(b.spec_bytes()[i as int]));
            return false;
        }
        i = i + 1;
    }
    true
}

pub open spec fn deadline_after(now: u64) -> u64 {
    if now <= u64::MAX - REASSERT_MS {
        (now + REASSERT_MS) as u64
    } else {
        u64::MAX
    }
}

/// Whether a poll with the foreground program `exe` at `now` reads the active
/// input method (so the caller reads it first).
pub open spec fn poll_wants_active(s: SwitcherV, exe: Seq<char>, now: u64) -> bool {
    !s.paused && rule_for(s.rules, exe) is Some && (exe != s.seen || (s.reassert_until matches Some(
        d,
    ) && now < d))
}

/// What bringing back the saved input method does to `s` and what it asks for.
pub open spec fn restore_step(s: SwitcherV, reason: RestoreReason) -> (SwitcherV, Seq<ActionV>) {
    match s.forced {
        None => (s, Seq::empty()),
        Some(t) => (
            SwitcherV { forced: None, ..s },
            seq![Action::Restore { reason, tip: t, target: restore_target(t) }],
        ),
    }
}

/// A poll that finds a new foreground program.
pub open spec fn poll_on_switch(s: SwitcherV, exe: Seq<char>, now: u64, cur: Seq<char>) -> (
    SwitcherV,
    Seq<ActionV>,
) {
    let log = Action::Log(switch_text(s.seen, exe));
    match rule_for(s.rules, exe) {
        Some(i) => {
            let differs = !ascii_ci_eq(encode_utf8(cur), encode_utf8(s.rules[i].tip));
            let forced = if differs && s.forced is None {
                Some(cur)
            } else {
                s.forced
            };
            let acts = if differs {
                seq![log, Action::Apply { rule: i as usize, from: cur, again: false }]
            } else {
                seq![log]
            };
            (SwitcherV { forced, seen: exe, reassert_until: Some(deadline_after(now)), ..s }, acts)
        },
        None => {
            let (r, acts) = restore_step(s, RestoreReason::LeaveRule);
            (SwitcherV { seen: exe, ..r }, seq![log] + acts)
        },
    }
}

/// A poll that finds the same foreground program as the last one.
pub open spec fn poll_on_same(s: SwitcherV, exe: Seq<char>, now: u64, cur: Seq<char>) -> (
    SwitcherV,
    Seq<ActionV>,
) {
    match s.reassert_until {
        None => (s, Seq::empty()),
        Some(d) => if now < d {
            match rule_for(s.rules, exe) {
                Some(i) => if !ascii_ci_eq(encode_utf8(cur), encode_utf8(s.rules[i].tip)) {
                    (
                        SwitcherV { reassert_until: None, ..s },
                        seq![Action::Apply { rule: i as usize, from: cur, again: true }],
                    )
                } else {
                    (s, Seq::empty())
                },
                None => (s, Seq::empty()),
            }
        } else {
            (SwitcherV { reassert_until: None, ..s }, Seq::empty())
        },
    }
}

/// A poll: the foreground program is `exe` at `now`; `active` is the active
/// input method where the poll reads it (`None` where reading it failed).
pub open spec fn poll_step(s: SwitcherV, exe: Seq<char>, now: u64, active: Option<ActiveProfile>) -> (
    SwitcherV,
    Seq<ActionV>,
) {
    if s.paused {
        (SwitcherV { seen: exe, ..s }, Seq::empty())
    } else if exe != s.seen {
        poll_on_switch(s, exe, now, active_or_empty(active))
    } else {
        poll_on_same(s, exe, now, active_or_empty(active))
    }
}

/// Pausing or resuming: pausing brings back the saved input method.
pub open spec fn pause_step(s: SwitcherV) -> (SwitcherV, Seq<ActionV>) {
    let paused = !s.paused;
    let (r, acts) = if paused {
        restore_step(s, RestoreReason::Pause)
    } else {
        (s, Seq::empty())
    };
    (SwitcherV { paused, ..r }, acts.push(Action::Log(pause_text(paused))))
}

/// Quitting: the saved input method is brought back.
pub open spec fn quit_step(s: SwitcherV) -> (SwitcherV, Seq<ActionV>) {
    let (r, acts) = restore_step(s, RestoreReason::Quit);
    (r, acts.push(Action::Log(quit_text())))
}

fn owned(s: &str) -> (r: String)
    ensures
        r@ == s@,
{
    s.to_owned()
}

impl Switcher {
    /// A running (not paused) switcher over `rules`, nothing saved, no
    /// foreground program seen yet.
    pub fn new(rules: Vec<Rule>) -> (r: Switcher)
        ensures
            r@ == (SwitcherV {
                rules: rules_view(rules@),
                paused: false,
                forced: None,
                seen: Seq::empty(),
                reassert_until: None,
            }),
            switcher_wf(r@),
    {
        Switcher { rules, paused: false, forced: None, seen: String::new(), reassert_until: None }
    }

    pub fn rules(&self) -> (r: &Vec<Rule>)
        ensures
            rules_view(r@) == self@.rules,
    {
        &self.rules
    }

    pub fn is_paused(&self) -> (r: bool)
        ensures
            r == self@.paused,
    {
        self.paused
    }

    /// The saved input method text, if one is saved.
    pub fn forced(&self) -> (r: Option<&String>)
        ensures
            match r {
                Some(t) => self@.forced == Some(t@),
                None => self@.forced is None,
            },
    {
        match &self.forced {
            Some(t) => Some(t),
            None => None,
        }
    }

    /// What the saved text is restored as.
    pub fn restore_target_of(t: &str) -> (r: RestoreTarget<Guid>)
        requires
            restorable(t@),
        ensures
            r@ == restore_target(t@),
    {
        match parse_hkl_tip(t) {
            Some((l, h)) => RestoreTarget::Layout(l, h),
            None => match read_tip(t) {
                Some(Ok((l, c, p))) => RestoreTarget::Tip(l, c, p),
                _ => RestoreTarget::Unreadable,
            },
        }
    }

    fn restore(&mut self, reason: RestoreReason, out: &mut Vec<Action<String, Guid>>)
        requires
            switcher_wf(old(self)@),
        ensures
            final(self)@ == restore_step(old(self)@, reason).0,
            actions_view(final(out)@) == actions_view(old(out)@) + restore_step(
                old(self)@,
                reason,
            ).1,
            switcher_wf(final(self)@),
    {
        let ghost a0 = actions_view(out@);
        match self.forced.take() {
            None => {
                assert(actions_view(out@) =~= a0 + Seq::<ActionV>::empty());
            },
            Some(tip) => {
                let target = Self::restore_target_of(tip.as_str());
                let ghost tv = tip@;
                out.push(Action::Restore { reason, tip, target });
                assert(actions_view(out@) =~= a0 + seq![
                    Action::Restore { reason, tip: tv, target: restore_target(tv) },
                ]);
            },
        }
    }

    /// Whether a poll with the foreground program `exe` at `now` reads the
    /// active input method.
    pub fn wants_active(&self, exe: &str, now_ms: u64) -> (r: bool)
        ensures
            r == poll_wants_active(self@, exe@, now_ms),
    {
        if self.paused {
            return false;
        }
        if find_index(self.rules.as_slice(), exe).is_none() {
            return false;
        }
        if owned(exe) != self.seen {
            return true;
        }
        match self.reassert_until {
            Some(d) => now_ms < d,
            None => false,
        }
    }

    fn on_switch(&mut self, exe: String, now_ms: u64, active: &Option<ActiveProfile>) -> (r: Vec<
        Action<String, Guid>,
    >)
        requires
            switcher_wf(old(self)@),
        ensures
            (final(self)@, actions_view(r@)) == poll_on_switch(
                old(self)@,
                exe@,
                now_ms,
                active_or_empty(*active),
            ),
            switcher_wf(final(self)@),
    {
        let mut out: Vec<Action<String, Guid>> = Vec::new();
        let ghost s0 = self@;
        let ghost cur_v = active_or_empty(*active);
        let line = switch_line(&self.seen, &exe);
        out.push(Action::Log(line));
        assert(actions_view(out@) =~= seq![Action::Log(switch_text(s0.seen, exe@))]);
        match find_index(self.rules.as_slice(), exe.as_str()) {
            Some(i) => {
                let cur = active_text_or_empty(active);
                let differs = !same_ignoring_ascii_case(cur.as_str(), self.rules[i].tip.as_str());
                assert(self.rules@[i as int]@ == s0.rules[i as int]);
                if differs {
                    if self.forced.is_none() {
                        self.forced = Some(cur.clone());
                    }
                    out.push(Action::Apply { rule: i, from: cur, again: false });
                    assert(actions_view(out@) =~= seq![
                        Action::Log(switch_text(s0.seen, exe@)),
                        Action::Apply { rule: i, from: cur_v, again: false },
                    ]);
                }
                self.reassert_until = Some(deadline(now_ms));
                self.seen = exe;
            },
            None => {
                self.restore(RestoreReason::LeaveRule, &mut out);
                self.seen = exe;
            },
        }
        out
    }

    fn on_same(&mut self, exe: &String, now_ms: u64, active: &Option<ActiveProfile>) -> (r: Vec<
        Action<String, Guid>,
    >)
        requires
            switcher_wf(old(self)@),
        ensures
            (final(self)@, actions_view(r@)) == poll_on_same(
                old(self)@,
                exe@,
                now_ms,
                active_or_empty(*active),
            ),
            switcher_wf(final(self)@),
    {
        let mut out: Vec<Action<String, Guid>> = Vec::new();
        let ghost s0 = self@;
        let ghost cur_v = active_or_empty(*active);
        match self.reassert_until {
            None => {},
            Some(d) => {
                if now_ms < d {
                    match find_index(self.rules.as_slice(), exe.as_str()) {
                        Some(i) => {
                            let cur = active_text_or_empty(active);
                            assert(self.rules@[i as int]@ == s0.rules[i as int]);
                            if !same_ignoring_ascii_case(cur.as_str(), self.rules[i].tip.as_str()) {
                                out.push(Action::Apply { rule: i, from: cur, again: true });
                                self.reassert_until = None;
                                assert(actions_view(out@) =~= seq![
                                    Action::Apply { rule: i, from: cur_v, again: true },
                                ]);
                            }
                        },
                        None => {},
                    }
                } else {
                    self.reassert_until = None;
                }
            },
        }
        assert(out@.len() == 0 ==> actions_view(out@) =~= Seq::<ActionV>::empty());
        out
    }

    /// Pauses a running switcher (bringing back the saved input method) or
    /// resumes a paused one.
    pub fn toggle_pause(&mut self) -> (r: Vec<Action<String, Guid>>)
        requires
            switcher_wf(old(self)@),
        ensures
            (final(self)@, actions_view(r@)) == pause_step(old(self)@),
            switcher_wf(final(self)@),
    {
        let mut out: Vec<Action<String, Guid>> = Vec::new();
        let ghost s0 = self@;
        self.paused = !self.paused;
        if self.paused {
            self.restore(RestoreReason::Pause, &mut out);
        }
        let ghost a = actions_view(out@);
        let mut line = String::new();
        if self.paused {
            push_str(&mut line, "已暂停自动切换");
        } else {
            push_str(&mut line, "已恢复自动切换");
        }
        out.push(Action::Log(line));
        assert(actions_view(out@) =~= a.push(Action::Log(pause_text(self.paused))));
        assert(!self@.paused ==> a =~= Seq::<ActionV>::empty());
        out
    }

    /// Quitting: brings back the saved input method.
    pub fn quit(&mut self) -> (r: Vec<Action<String, Guid>>)
        requires
            switcher_wf(old(self)@),
        ensures
            (final(self)@, actions_view(r@)) == quit_step(old(self)@),
            switcher_wf(final(self)@),
    {
        let mut out: Vec<Action<String, Guid>> = Vec::new();
        self.restore(RestoreReason::Quit, &mut out);
        let ghost a = actions_view(out@);
        let mut line = String::new();
        push_str(&mut line, "退出");
        out.push(Action::Log(line));
        assert(actions_view(out@) =~= a.push(Action::Log(quit_text())));
        out
    }

    /// Replaces the rules (rules.txt read again).
    pub fn reload(&mut self, rules: Vec<Rule>) -> (r: Vec<Action<String, Guid>>)
        requires
            switcher_wf(old(self)@),
        ensures
            final(self)@ == (SwitcherV { rules: rules_view(rules@), ..old(self)@ }),
            actions_view(r@) == seq![Action::<Seq<char>, GuidV>::Log(reload_text(rules@.len()))],
            switcher_wf(final(self)@),
    {
        let n = rules.len();
        self.rules = rules;
        let mut line = String::new();
        push_str(&mut line, "重新加载 rules.txt：");
        push_numeral(&mut line, n as u64, 0, 10);
        push_str(&mut line, " 条规则");
        let mut out: Vec<Action<String, Guid>> = Vec::new();
        out.push(Action::Log(line));
        assert(line@ =~= reload_text(n as nat));
        assert(actions_view(out@) =~= seq![Action::<Seq<char>, GuidV>::Log(reload_text(n as nat))]);
        out
    }

    /// One poll: the foreground program is `exe` at `now_ms`; `active` is the
    /// active input method where `wants_active` asked for it.
    pub fn poll(&mut self, exe: String, now_ms: u64, active: Option<ActiveProfile>) -> (r: Vec<
        Action<String, Guid>,
    >)
        requires
            switcher_wf(old(self)@),
        ensures
            (final(self)@, actions_view(r@)) == poll_step(old(self)@, exe@, now_ms, active),
            switcher_wf(final(self)@),
    {
        if self.paused {
            self.seen = exe;
            let out: Vec<Action<String, Guid>> = Vec::new();
            assert(actions_view(out@) =~= Seq::<ActionV>::empty());
            return out;
        }
        if exe != self.seen {
            self.on_switch(exe, now_ms, &active)
        } else {
            self.on_same(&exe, now_ms, &active)
        }
    }
}

fn deadline(now: u64) -> (r: u64)
    ensures
        r == deadline_after(now),
{
    if now <= u64::MAX - REASSERT_MS {
        now + REASSERT_MS
    } else {
        u64::MAX
    }
}

fn switch_line(from: &String, to: &String) -> (r: String)
    ensures
        r@ == switch_text(from@, to@),
{
    let mut s = String::new();
    push_str(&mut s, "前台切换: ");
    push_str(&mut s, from.as_str());
    push_str(&mut s, " -> ");
    push_str(&mut s, to.as_str());
    assert(s@ =~= switch_text(from@, to@));
    s
}

/// The text of the active input method, empty where it was not read; such text
/// can always be restored.
fn active_text_or_empty(active: &Option<ActiveProfile>) -> (r: String)
    ensures
        r@ == active_or_empty(*active),
        restorable(r@),
{
    match active {
        Some(p) => {
            let t = active_tip_text(p);
            proof {
                lemma_active_tip_reads_back(*p);
            }
            t
        },
        None => {
            let t = String::new();
            assert(encode_utf8(t@) =~= Seq::<u8>::empty());
            assert(find_byte(Seq::<u8>::empty(), 0x3a) is None);
            t
        },
    }
}

} // verus!
