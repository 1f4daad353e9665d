//! The command line: which mode runs, the flags of a manual activation, and
//! the lines the listing prints.
use vstd::prelude::*;
use vstd::utf8::*;
use vstd::string::StringSliceAdditionalSpecFns;
use crate::text::push_str;
use crate::tip::{Guid, GuidV, tip_outcome, tip_error_text, read_tip, TF_IPPMF_FORPROCESS, TF_IPPMF_FORSESSION};
use crate::tsf::{hkl_outcome, parse_hkl_tip};
use crate::switcher::RestoreTarget;

verus! {

/// What the command line asks for.
#[derive(Debug)]
pub enum CommandLine<S> {
    /// `--help`, `-h`, `/?`: print the usage.
    Help,
    /// `--list`: list the keyboard input methods.
    List,
    /// `--status`, `--probe`: print the foreground program and the input method.
    Status,
    /// `--activate <TIP|HKL> [session|process]`: activate by hand (no text:
    /// print how to call it).
    Activate { tip: Option<S>, flags: u32 },
    /// `--dump-rules`: print the rules read.
    DumpRules,
    /// Anything else: stay resident (without the tray with `--no-tray`
    /// anywhere); `--menu-dump` prints the tray menu instead.
    Run { no_tray: bool, menu_dump: bool },
}

impl View for CommandLine<String> {
    type V = CommandLine<Seq<char>>;

    open spec fn view(&self) -> CommandLine<Seq<char>> {
        match self {
            CommandLine::Help => CommandLine::Help,
            CommandLine::List => CommandLine::List,
            CommandLine::Status => CommandLine::Status,
            CommandLine::Activate { tip, flags } => CommandLine::Activate {
                tip: match tip {
                    Some(t) => Some(t@),
                    None => None,
                },
                flags: *flags,
            },
            CommandLine::DumpRules => CommandLine::DumpRules,
            CommandLine::Run { no_tray, menu_dump } => CommandLine::Run {
                no_tray: *no_tray,
                menu_dump: *menu_dump,
            },
        }
    }
}

/// The activation flags: both by default, one where `session` or `process` is given.
pub open spec fn flags_spec(scope: Option<Seq<char>>) -> u32 {
    if scope == Some("session"@) {
        TF_IPPMF_FORSESSION
    } else if scope == Some("process"@) {
        TF_IPPMF_FORPROCESS
    } else {
        TF_IPPMF_FORPROCESS | TF_IPPMF_FORSESSION
    }
}

pub open spec fn arg(args: Seq<Seq<char>>, i: int) -> Option<Seq<char>> {
    if 0 <= i < args.len() {
        Some(args[i])
    } else {
        None
    }
}

/// The mode that the arguments (the program's path first) ask for.
pub open spec fn command_spec(args: Seq<Seq<char>>) -> CommandLine<Seq<char>> {
    let mode = match arg(args, 1) {
        Some(m) => m,
        None => Seq::empty(),
    };
    if mode == "--help"@ || mode == "-h"@ || mode == "/?"@ {
        CommandLine::Help
    } else if mode == "--list"@ {
        CommandLine::List
    } else if mode == "--status"@ || mode == "--probe"@ {
        CommandLine::Status
    } else if mode == "--activate"@ {
        CommandLine::Activate { tip: arg(args, 2), flags: flags_spec(arg(args, 3)) }
    } else if mode == "--dump-rules"@ {
        CommandLine::DumpRules
    } else {
        CommandLine::Run {
            no_tray: exists|i: int| 0 <= i < args.len() && args[i] == "--no-tray"@,
            menu_dump: mode == "--menu-dump"@,
        }
    }
}

fn text(s: &str) -> (r: String)
    ensures
        r@ == s@,
{
    let mut t = String::new();
    push_str(&mut t, s);
    t
}

fn is(s: &String, lit: &str) -> (r: bool)
    ensures
        r == (s@ == lit@),
{
    *s == text(lit)
}

pub open spec fn args_view(args: Seq<String>) -> Seq<Seq<char>> {
    Seq::new(args.len(), |i: int| args[i]@)
}

/// Reads the command line.
pub fn parse_command(args: &Vec<String>) -> (r: CommandLine<String>)
    ensures
        r@ == command_spec(args_view(args@)),
{
    let ghost av = args_view(args@);
    let mode = if args.len() > 1 {
        args[1].clone()
    } else {
        String::new()
    };
    assert(mode@ == match arg(av, 1) {
        Some(m) => m,
        None => Seq::<char>::empty(),
    });
    if is(&mode, "--help") || is(&mode, "-h") || is(&mode, "/?") {
        return CommandLine::Help;
    }
    if is(&mode, "--list") {
        return CommandLine::List;
    }
    if is(&mode, "--status") || is(&mode, "--probe") {
        return CommandLine::Status;
    }
    if is(&mode, "--activate") {
        let tip = if args.len() > 2 {
            Some(args[2].clone())
        } else {
            None
        };
        let mut flags = TF_IPPMF_FORPROCESS | TF_IPPMF_FORSESSION;
        if args.len() > 3 {
            if is(&args[3], "session") {
                flags = TF_IPPMF_FORSESSION;
            } else if is(&args[3], "process") {
                flags = TF_IPPMF_FORPROCESS;
            }
        }
        return CommandLine::Activate { tip, flags };
    }
    if is(&mode, "--dump-rules") {
        return CommandLine::DumpRules;
    }
    let n = args.len();
    let mut no_tray = false;
    let mut i: usize = 0;
    while i < n
        invariant
            n == args@.len(),
            i <= n,
            av == args_view(args@),
            no_tray == exists|j: int| 0 <= j < i && av[j] == "--no-tray"@,
        decreases n - i,
    {
        let hit = is(&args[i], "--no-tray");
        assert(av[i as int] == args@[i as int]@);
        if hit {
            no_tray = true;
        }
        assert(no_tray == exists|j: int| 0 <= j < i + 1 && av[j] == "--no-tray"@) by {
            if hit {
                assert(av[i as int] == "--no-tray"@);
            }
            if !hit && no_tray {
                let j = choose|j: int| 0 <= j < i && av[j] == "--no-tray"@;
                assert(0 <= j < i + 1 && av[j] == "--no-tray"@);
            }
        }
        i = i + 1;
    }
    CommandLine::Run { no_tray, menu_dump: is(&mode, "--menu-dump") }
}

/// What manual activation makes of its text: a keyboard layout first, then TIP
/// text; `Err` with the message for TIP text that does not read; `None` where
/// reading panics.
pub open spec fn activation_spec(b: Seq<u8>) -> Option<Result<RestoreTarget<GuidV>, Seq<char>>> {
    match hkl_outcome(b) {
        Some((l, h)) => Some(Ok(RestoreTarget::Layout(l, h))),
        None => match tip_outcome(b) {
            None => None,
            Some(Err(e)) => Some(Err(tip_error_text(e))),
            Some(Ok((l, c, p))) => Some(Ok(RestoreTarget::Tip(l, c, p))),
        },
    }
}

/// What `--activate` makes of its text.
pub fn activation_target(tip: &str) -> (r: Option<Result<RestoreTarget<Guid>, String>>)
    ensures
        match activation_spec(tip.spec_bytes()) {
            None => r is None,
            Some(Ok(t)) => r matches Some(Ok(x)) && x@ == t,
            Some(Err(m)) => r matches Some(Err(x)) && x@ == m,
        },
{
    match parse_hkl_tip(tip) {
        Some((l, h)) => Some(Ok(RestoreTarget::Layout(l, h))),
        None => match read_tip(tip) {
            None => None,
            Some(Err(e)) => Some(Err(e.message())),
            Some(Ok((l, c, p))) => Some(Ok(RestoreTarget::Tip(l, c, p))),
        },
    }
}

pub open spec fn list_line_chars(tip: Seq<char>, name: Seq<char>, active: Option<Seq<char>>) -> Seq<char> {
    "  "@ + tip + "   "@ + name + if active == Some(tip) {
        "   ← 当前"@
    } else {
        Seq::empty()
    }
}

/// A line of `--list`: the TIP text, the name, and a mark on the active one.
pub fn list_line(tip: &String, name: &String, active: &Option<String>) -> (r: String)
    ensures
        r@ == list_line_chars(tip@, name@, match active {
            Some(a) => Some(a@),
            None => None,
        }),
{
    let mut s = text("  ");
    push_str(&mut s, tip.as_str());
    push_str(&mut s, "   ");
    push_str(&mut s, name.as_str());
    let is_active = match active {
        Some(a) => *a == *tip,
        None => false,
    };
    let ghost before = s@;
    if is_active {
        push_str(&mut s, "   ← 当前");
    } else {
        assert(before + Seq::<char>::empty() =~= before);
    }
    assert(s@ =~= list_line_chars(tip@, name@, match active {
        Some(a) => Some(a@),
        None => None,
    }));
    s
}

/// `--menu-dump` right after the program's path asks for the menu self-check,
/// whatever arguments follow it or are missing.
pub proof fn lemma_menu_dump_mode(args: Seq<Seq<char>>)
    requires
        args.len() >= 2,
        args[1] == "--menu-dump"@,
    ensures
        command_spec(args) matches CommandLine::Run { menu_dump, .. } && menu_dump,
{
    reveal_strlit("--menu-dump");
    reveal_strlit("--help");
    reveal_strlit("-h");
    reveal_strlit("/?");
    reveal_strlit("--list");
    reveal_strlit("--status");
    reveal_strlit("--probe");
    reveal_strlit("--activate");
    reveal_strlit("--dump-rules");
    let m = args[1];
    assert(m.len() == 11);
    assert(m != "--help"@ && m != "-h"@ && m != "/?"@ && m != "--list"@);
    assert(m != "--status"@ && m != "--probe"@ && m != "--activate"@ && m != "--dump-rules"@);
    assert(arg(args, 1) == Some(m));
}

/// `--no-tray` anywhere on the command line of a resident run keeps the tray
/// icon away.
pub proof fn lemma_no_tray_flag(args: Seq<Seq<char>>, i: int)
    requires
        0 <= i < args.len(),
        args[i] == "--no-tray"@,
        command_spec(args) is Run,
    ensures
        command_spec(args) matches CommandLine::Run { no_tray, .. } && no_tray,
{
}

} // verus!
