//! The tray icon's text, its menu, the window messages it answers, and the
//! foreground-program cache of the poll.
use vstd::prelude::*;
use vstd::string::StrSliceExecFns;
use crate::text::push_str;

verus! {

/// Window message of the tray icon callback (`WM_APP + 1`).
pub const WM_TRAY: u32 = 0x8001;
pub const WM_TIMER: u32 = 0x0113;
pub const WM_DESTROY: u32 = 0x0002;
pub const WM_RBUTTONUP: u32 = 0x0205;
pub const WM_CONTEXTMENU: u32 = 0x007b;
pub const WM_LBUTTONDBLCLK: u32 = 0x0203;
/// The poll timer's id.
pub const TIMER_POLL: usize = 1;

pub const ID_PAUSE: u32 = 2000;
pub const ID_RELOAD: u32 = 2001;
pub const ID_EDIT: u32 = 2002;
pub const ID_LOG: u32 = 2003;
pub const ID_OPENDIR: u32 = 2004;
pub const ID_EXIT: u32 = 2005;

/// At most this many rules are listed in the menu.
pub const MENU_RULE_LIMIT: usize = 20;

pub open spec fn status_chars(paused: bool) -> Seq<char> {
    if paused {
        "ImeBind [已暂停]"@
    } else {
        "ImeBind [运行中]"@
    }
}

/// The tray icon's hover text: only whether switching runs.
pub fn short_status(paused: bool) -> (r: String)
    ensures
        r@ == status_chars(paused),
{
    let mut s = String::new();
    if paused {
        push_str(&mut s, "ImeBind [已暂停]");
    } else {
        push_str(&mut s, "ImeBind [运行中]");
    }
    s
}

/// The new hover text where the icon exists and its text changes.
pub fn tray_tip_update(tray_added: bool, last_tip: &String, paused: bool) -> (r: Option<String>)
    ensures
        !tray_added ==> r is None,
        tray_added && last_tip@ == status_chars(paused) ==> r is None,
        tray_added && last_tip@ != status_chars(paused) ==> (r matches Some(t) && t@ == status_chars(
            paused,
        )),
{
    if !tray_added {
        return None;
    }
    let s = short_status(paused);
    if s == *last_tip {
        None
    } else {
        Some(s)
    }
}

/// The balloon shown on a double click: the status and a hint.
pub fn balloon_text(paused: bool) -> (r: String)
    ensures
        r@ == status_chars(paused) + "\r\n右键图标可打开菜单"@,
{
    let mut s = short_status(paused);
    push_str(&mut s, "\r\n右键图标可打开菜单");
    s
}

/// An entry of the tray menu.
#[derive(Debug)]
pub enum MenuEntry<S> {
    /// Text that cannot be clicked.
    Gray(S),
    Separator,
    /// A command with its id.
    Item(u32, S),
}

impl View for MenuEntry<String> {
    type V = MenuEntry<Seq<char>>;

    open spec fn view(&self) -> MenuEntry<Seq<char>> {
        match self {
            MenuEntry::Gray(s) => MenuEntry::Gray(s@),
            MenuEntry::Separator => MenuEntry::Separator,
            MenuEntry::Item(id, s) => MenuEntry::Item(*id, s@),
        }
    }
}

pub open spec fn menu_view(m: Seq<MenuEntry<String>>) -> Seq<MenuEntry<Seq<char>>> {
    Seq::new(m.len(), |i: int| m[i]@)
}

pub open spec fn min_usize(a: usize, b: usize) -> usize {
    if a <= b {
        a
    } else {
        b
    }
}

/// The part of the menu that lists the rules (`displays` are the first ones).
pub open spec fn rules_part(rule_count: usize, displays: Seq<Seq<char>>) -> Seq<MenuEntry<Seq<char>>> {
    if rule_count == 0 {
        seq![MenuEntry::Gray("（rules.txt 里没有有效规则）"@)]
    } else {
        seq![MenuEntry::Gray("已生效的规则"@)] + Seq::new(
            displays.len(),
            |i: int| MenuEntry::Gray("  "@ + displays[i]),
        ) + if rule_count > MENU_RULE_LIMIT {
            seq![MenuEntry::Gray("  ..."@)]
        } else {
            Seq::empty()
        }
    }
}

/// The tray menu.
pub open spec fn menu_spec(paused: bool, rule_count: usize, displays: Seq<Seq<char>>) -> Seq<
    MenuEntry<Seq<char>>,
> {
    seq![
        MenuEntry::Gray("状态："@ + if paused {
            "已暂停"@
        } else {
            "运行中"@
        }),
        MenuEntry::Separator,
    ] + rules_part(rule_count, displays) + seq![
        MenuEntry::Separator,
        MenuEntry::Item(
            ID_PAUSE,
            if paused {
                "恢复自动切换"@
            } else {
                "暂停自动切换"@
            },
        ),
        MenuEntry::Item(ID_RELOAD, "重新加载 rules.txt"@),
        MenuEntry::Separator,
        MenuEntry::Item(ID_EDIT, "编辑 rules.txt"@),
        MenuEntry::Item(ID_LOG, "查看日志"@),
        MenuEntry::Item(ID_OPENDIR, "打开程序所在文件夹"@),
        MenuEntry::Separator,
        MenuEntry::Item(ID_EXIT, "退出"@),
    ]
}

fn text(s: &str) -> (r: String)
    ensures
        r@ == s@,
{
    let mut t = String::new();
    push_str(&mut t, s);
    t
}

/// The tray menu: status, the rules (at most `MENU_RULE_LIMIT`, each by its
/// display text), then the commands.
pub fn menu_entries(paused: bool, rule_count: usize, displays: &Vec<String>) -> (r: Vec<
    MenuEntry<String>,
>)
    requires
        displays@.len() == min_usize(rule_count, MENU_RULE_LIMIT),
    ensures
        menu_view(r@) == menu_spec(
            paused,
            rule_count,
            Seq::new(displays@.len(), |i: int| displays@[i]@),
        ),
{
    let ghost dv = Seq::new(displays@.len(), |i: int| displays@[i]@);
    let mut m: Vec<MenuEntry<String>> = Vec::new();
    let mut status = text("状态：");
    if paused {
        push_str(&mut status, "已暂停");
    } else {
        push_str(&mut status, "运行中");
    }
    m.push(MenuEntry::Gray(status));
    m.push(MenuEntry::Separator);
    let ghost head = menu_view(m@);
    if rule_count == 0 {
        m.push(MenuEntry::Gray(text("（rules.txt 里没有有效规则）")));
        assert(menu_view(m@) =~= head + rules_part(rule_count, dv));
    } else {
        m.push(MenuEntry::Gray(text("已生效的规则")));
        let ghost first = head + seq![MenuEntry::Gray("已生效的规则"@)];
        assert(menu_view(m@) =~= first);
        let n = displays.len();
        let mut i: usize = 0;
        assert(first + Seq::new(0, |k: int| MenuEntry::Gray("  "@ + dv[k])) =~= first);
        while i < n
            invariant
                n == displays@.len(),
                dv == Seq::new(displays@.len(), |i: int| displays@[i]@),
                i <= n,
                menu_view(m@) == first + Seq::new(i as nat, |k: int| MenuEntry::Gray("  "@ + dv[k])),
            decreases n - i,
        {
            let mut line = text("  ");
            push_str(&mut line, displays[i].as_str());
            let ghost before = menu_view(m@);
            let ghost lv = line@;
            m.push(MenuEntry::Gray(line));
            assert(menu_view(m@) =~= before.push(MenuEntry::Gray(lv)));
            assert(lv == "  "@ + dv[i as int]);
            assert(menu_view(m@) =~= first + Seq::new(
                (i + 1) as nat,
                |k: int| MenuEntry::Gray("  "@ + dv[k]),
            ));
            i = i + 1;
        }
        let ghost listed = menu_view(m@);
        if rule_count > MENU_RULE_LIMIT {
            m.push(MenuEntry::Gray(text("  ...")));
            assert(menu_view(m@) =~= listed + seq![MenuEntry::Gray("  ..."@)]);
        } else {
            assert(listed + Seq::<MenuEntry<Seq<char>>>::empty() =~= listed);
        }
        assert(menu_view(m@) =~= head + rules_part(rule_count, dv));
    }
    let ghost mid = menu_view(m@);
    m.push(MenuEntry::Separator);
    if paused {
        m.push(MenuEntry::Item(ID_PAUSE, text("恢复自动切换")));
    } else {
        m.push(MenuEntry::Item(ID_PAUSE, text("暂停自动切换")));
    }
    m.push(MenuEntry::Item(ID_RELOAD, text("重新加载 rules.txt")));
    m.push(MenuEntry::Separator);
    m.push(MenuEntry::Item(ID_EDIT, text("编辑 rules.txt")));
    m.push(MenuEntry::Item(ID_LOG, text("查看日志")));
    m.push(MenuEntry::Item(ID_OPENDIR, text("打开程序所在文件夹")));
    m.push(MenuEntry::Separator);
    m.push(MenuEntry::Item(ID_EXIT, text("退出")));
    assert(menu_view(m@) =~= mid + seq![
        MenuEntry::Separator,
        MenuEntry::Item(
            ID_PAUSE,
            if paused {
                "恢复自动切换"@
            } else {
                "暂停自动切换"@
            },
        ),
        MenuEntry::Item(ID_RELOAD, "重新加载 rules.txt"@),
        MenuEntry::Separator,
        MenuEntry::Item(ID_EDIT, "编辑 rules.txt"@),
        MenuEntry::Item(ID_LOG, "查看日志"@),
        MenuEntry::Item(ID_OPENDIR, "打开程序所在文件夹"@),
        MenuEntry::Separator,
        MenuEntry::Item(ID_EXIT, "退出"@),
    ]);
    assert(menu_view(m@) =~= menu_spec(paused, rule_count, dv));
    m
}

pub open spec fn dump_line_chars(item_text: Seq<char>, id: u32) -> Seq<char> {
    if item_text.len() == 0 {
        "  ---"@
    } else {
        "  ["@ + (if id == u32::MAX {
            "分隔"@
        } else if id == 0 {
            "只读"@
        } else {
            "可点击"@
        }) + "] "@ + item_text
    }
}

/// How the menu self-check prints a menu item read back from the menu.
pub fn menu_dump_line(item_text: &String, id: u32) -> (r: String)
    ensures
        r@ == dump_line_chars(item_text@, id),
{
    if item_text.as_str().is_empty() {
        return text("  ---");
    }
    let mut s = text("  [");
    if id == u32::MAX {
        push_str(&mut s, "分隔");
    } else if id == 0 {
        push_str(&mut s, "只读");
    } else {
        push_str(&mut s, "可点击");
    }
    push_str(&mut s, "] ");
    push_str(&mut s, item_text.as_str());
    assert(s@ =~= dump_line_chars(item_text@, id));
    s
}

/// What a menu choice asks for.
#[derive(Clone, Copy, Debug, PartialEq, Eq, Structural)]
pub enum MenuCommand {
    TogglePause,
    ReloadRules,
    EditRules,
    ViewLog,
    OpenFolder,
    Exit,
}

pub open spec fn command_spec(id: u32) -> Option<MenuCommand> {
    if id == ID_PAUSE {
        Some(MenuCommand::TogglePause)
    } else if id == ID_RELOAD {
        Some(MenuCommand::ReloadRules)
    } else if id == ID_EDIT {
        Some(MenuCommand::EditRules)
    } else if id == ID_LOG {
        Some(MenuCommand::ViewLog)
    } else if id == ID_OPENDIR {
        Some(MenuCommand::OpenFolder)
    } else if id == ID_EXIT {
        Some(MenuCommand::Exit)
    } else {
        None
    }
}

/// The command of the chosen menu id; none for a cancelled menu (0) or an
/// unknown id.
pub fn menu_command(id: u32) -> (r: Option<MenuCommand>)
    ensures
        r == command_spec(id),
{
    if id == ID_PAUSE {
        Some(MenuCommand::TogglePause)
    } else if id == ID_RELOAD {
        Some(MenuCommand::ReloadRules)
    } else if id == ID_EDIT {
        Some(MenuCommand::EditRules)
    } else if id == ID_LOG {
        Some(MenuCommand::ViewLog)
    } else if id == ID_OPENDIR {
        Some(MenuCommand::OpenFolder)
    } else if id == ID_EXIT {
        Some(MenuCommand::Exit)
    } else {
        None
    }
}

/// What the hidden window does with a message.
#[derive(Clone, Copy, Debug, PartialEq, Eq, Structural)]
pub enum WindowEvent {
    /// Poll the foreground program.
    Poll,
    /// Show the tray menu.
    ShowMenu,
    /// Show the status balloon.
    Balloon,
    /// Explorer restarted: add the tray icon again.
    ReaddIcon,
    /// The window is gone: end the message loop.
    PostQuit,
    /// Nothing more to do; answer 0.
    Handled,
    /// Leave it to the default window procedure.
    Default,
}

pub open spec fn window_event_spec(
    msg: u32,
    wparam: usize,
    lparam: u32,
    has_app: bool,
    taskbar_created: u32,
) -> WindowEvent {
    if msg == WM_TIMER && wparam == TIMER_POLL {
        if has_app {
            WindowEvent::Poll
        } else {
            WindowEvent::Handled
        }
    } else if msg == WM_TRAY {
        let mouse = lparam & 0xffff;
        if has_app && (mouse == WM_RBUTTONUP || mouse == WM_CONTEXTMENU) {
            WindowEvent::ShowMenu
        } else if has_app && mouse == WM_LBUTTONDBLCLK {
            WindowEvent::Balloon
        } else {
            WindowEvent::Handled
        }
    } else if has_app && msg != 0 && msg == taskbar_created {
        WindowEvent::ReaddIcon
    } else if msg == WM_DESTROY {
        WindowEvent::PostQuit
    } else {
        WindowEvent::Default
    }
}

/// What the hidden window does with the message `msg` (`lparam` is the low 32
/// bits of the message's lParam; `has_app` says the switcher is attached).
pub fn window_event(msg: u32, wparam: usize, lparam: u32, has_app: bool, taskbar_created: u32) -> (r:
    WindowEvent)
    ensures
        r == window_event_spec(msg, wparam, lparam, has_app, taskbar_created),
{
    if msg == WM_TIMER && wparam == TIMER_POLL {
        if has_app {
            WindowEvent::Poll
        } else {
            WindowEvent::Handled
        }
    } else if msg == WM_TRAY {
        let mouse = lparam & 0xffff;
        if has_app && (mouse == WM_RBUTTONUP || mouse == WM_CONTEXTMENU) {
            WindowEvent::ShowMenu
        } else if has_app && mouse == WM_LBUTTONDBLCLK {
            WindowEvent::Balloon
        } else {
            WindowEvent::Handled
        }
    } else if has_app && msg != 0 && msg == taskbar_created {
        WindowEvent::ReaddIcon
    } else if msg == WM_DESTROY {
        WindowEvent::PostQuit
    } else {
        WindowEvent::Default
    }
}

/// The UTF-16 code units of a character: itself below 0x10000, else a
/// surrogate pair.
pub open spec fn utf16_of(c: char) -> Seq<u16> {
    let u = c as u32;
    if u < 0x10000 {
        seq![u as u16]
    } else {
        seq![(0xd800 + (u - 0x10000) / 0x400) as u16, (0xdc00 + (u - 0x10000) % 0x400) as u16]
    }
}

/// The UTF-16 code units of a text, as `str::encode_utf16` gives them.
pub open spec fn utf16_units(s: Seq<char>) -> Seq<u16>
    decreases s.len(),
{
    if s.len() == 0 {
        Seq::empty()
    } else {
        utf16_units(s.drop_last()) + utf16_of(s.last())
    }
}

/// The UTF-16 code units of `s`.
pub fn encode_utf16(s: &str) -> (r: Vec<u16>)
    ensures
        r@ == utf16_units(s@),
{
    let n = s.unicode_len();
    let mut r: Vec<u16> = Vec::new();
    let mut i: usize = 0;
    while i < n
        invariant
            n == s@.len(),
            i <= n,
            r@ == utf16_units(s@.take(i as int)),
        decreases n - i,
    {
        let c = s.get_char(i);
        let u = c as u32;
        proof {
            vstd::utf8::char_is_scalar(c);
        }
        if u < 0x10000 {
            r.push(u as u16);
        } else {
            let v = u - 0x10000;
            r.push((0xd800 + v / 0x400) as u16);
            r.push((0xdc00 + v % 0x400) as u16);
        }
        assert(s@.take(i as int + 1).drop_last() =~= s@.take(i as int));
        assert(r@ =~= utf16_units(s@.take(i as int + 1)));
        i = i + 1;
    }
    assert(s@.take(n as int) =~= s@);
    r
}

/// Writes `units` into the fixed-size buffer `buf`, cut to leave room for the
/// terminating zero, and zeroes the rest.
pub fn fill_utf16(buf: &mut [u16], units: &[u16])
    requires
        old(buf)@.len() >= 1,
    ensures
        final(buf)@.len() == old(buf)@.len(),
        ({
            let k = if units@.len() < old(buf)@.len() - 1 {
                units@.len() as int
            } else {
                old(buf)@.len() - 1
            };
            &&& forall|i: int| 0 <= i < k ==> final(buf)@[i] == units@[i]
            &&& forall|i: int| k <= i < final(buf)@.len() ==> final(buf)@[i] == 0
        }),
{
    let n = buf.len();
    let k = if units.len() < n - 1 {
        units.len()
    } else {
        n - 1
    };
    let mut i: usize = 0;
    while i < n
        invariant
            n == buf@.len(),
            k < n,
            k <= units@.len(),
            i <= n,
            forall|j: int| 0 <= j < i && j < k ==> buf@[j] == units@[j],
            forall|j: int| k <= j < i ==> buf@[j] == 0,
        decreases n - i,
    {
        if i < k {
            buf[i] = units[i];
        } else {
            buf[i] = 0;
        }
        i = i + 1;
    }
}

/// Where the file name starts in a full image path: after its last `\`.
pub fn file_name_start(path: &[u16]) -> (r: usize)
    ensures
        r <= path@.len(),
        r > 0 ==> path@[r - 1] == 0x5c,
        forall|j: int| r <= j < path@.len() ==> path@[j] != 0x5c,
{
    let mut i = path.len();
    while i > 0
        invariant
            i <= path@.len(),
            forall|j: int| i <= j < path@.len() ==> path@[j] != 0x5c,
        decreases i,
    {
        if path[i - 1] == 0x5c {
            return i;
        }
        i = i - 1;
    }
    0
}

/// The last foreground window and process and the program name found for them.
pub struct ForegroundCache {
    hwnd: isize,
    pid: u32,
    exe: String,
}

pub type CacheV = (isize, u32, Seq<char>);

impl View for ForegroundCache {
    type V = CacheV;

    closed spec fn view(&self) -> CacheV {
        (self.hwnd, self.pid, self.exe@)
    }
}

/// A lookup: with no foreground process the cache is cleared and the name is
/// empty; the same window and process give the cached name; otherwise the name
/// must be read (`None`).
pub open spec fn cache_lookup(c: CacheV, hwnd: isize, pid: u32) -> (CacheV, Option<Seq<char>>) {
    if pid == 0 {
        ((0isize, 0u32, Seq::empty()), Some(Seq::empty()))
    } else if pid == c.1 && hwnd == c.0 {
        (c, Some(c.2))
    } else {
        (c, None)
    }
}

impl ForegroundCache {
    pub fn new() -> (r: ForegroundCache)
        ensures
            r@ == (0isize, 0u32, Seq::<char>::empty()),
    {
        ForegroundCache { hwnd: 0, pid: 0, exe: String::new() }
    }

    /// The foreground program name where it is known without asking the
    /// process; `None` where it must be read (then `store` it).
    pub fn lookup(&mut self, hwnd: isize, pid: u32) -> (r: Option<String>)
        ensures
            final(self)@ == cache_lookup(old(self)@, hwnd, pid).0,
            match cache_lookup(old(self)@, hwnd, pid).1 {
                Some(t) => r matches Some(x) && x@ == t,
                None => r is None,
            },
    {
        if pid == 0 {
            self.hwnd = 0;
            self.pid = 0;
            self.exe = String::new();
            return Some(String::new());
        }
        if pid == self.pid && hwnd == self.hwnd {
            return Some(self.exe.clone());
        }
        None
    }

    /// Remembers the name read for the window and process; gives it back.
    pub fn store(&mut self, hwnd: isize, pid: u32, name: String) -> (r: String)
        ensures
            final(self)@ == (hwnd, pid, name@),
            r@ == name@,
    {
        self.hwnd = hwnd;
        self.pid = pid;
        self.exe = name.clone();
        name
    }
}

/// After a name is stored for a window and process, looking them up gives that
/// name without reading it again.
pub proof fn lemma_cache_hit(hwnd: isize, pid: u32, name: Seq<char>)
    requires
        pid != 0,
    ensures
        cache_lookup((hwnd, pid, name), hwnd, pid) == ((hwnd, pid, name), Some(name)),
{
}

} // verus!
