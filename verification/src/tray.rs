//! Wording of the tray menu and routing of its entries.
use vstd::prelude::*;
use crate::text::{chars_of, has_prefix, has_prefix_at, same_text};

verus! {

broadcast use vstd::string::group_string_axioms;

/// The translatable labels of the tray menu in one language.
pub struct TrayLabels {
    pub toggle: &'static str,
    pub theme: &'static str,
    pub about: &'static str,
    pub quit: &'static str,
    pub relaunch: &'static str,
    pub nic: &'static str,
    pub opacity: &'static str,
    pub language: &'static str,
    pub autostart: &'static str,
}

/// The relaunch entry: without elevation it offers to relaunch as
/// Administrator (needed for per-process speeds); with it, a plain restart.
pub open spec fn relaunch_label(english: bool, elevated: bool) -> Seq<char> {
    match (elevated, english) {
        (false, false) => "显示详情（需以管理员身份运行）"@,
        (false, true) => "Show details (run as Administrator)"@,
        (true, false) => "重启程序"@,
        (true, true) => "Restart"@,
    }
}

/// The labels for English (`english`) or Chinese.
pub open spec fn labels_for(l: TrayLabels, english: bool, elevated: bool) -> bool {
    &&& l.toggle@ == if english { "Show / Hide"@ } else { "显示 / 隐藏"@ }
    &&& l.theme@ == if english { "Toggle theme"@ } else { "切换主题"@ }
    &&& l.about@ == if english { "About"@ } else { "关于"@ }
    &&& l.quit@ == if english { "Quit"@ } else { "退出"@ }
    &&& l.relaunch@ == relaunch_label(english, elevated)
    &&& l.nic@ == if english { "Network card"@ } else { "网卡"@ }
    &&& l.opacity@ == if english { "Opacity"@ } else { "不透明度"@ }
    &&& l.language@ == if english { "Language"@ } else { "语言"@ }
    &&& l.autostart@ == if english { "Launch at startup"@ } else { "开机启动"@ }
}

/// The tray labels in English or Chinese; `elevated` tells whether the
/// process runs as Administrator.
pub fn tray_labels(english: bool, elevated: bool) -> (r: TrayLabels)
    ensures
        labels_for(r, english, elevated),
{
    let relaunch = match (elevated, english) {
        (false, false) => "显示详情（需以管理员身份运行）",
        (false, true) => "Show details (run as Administrator)",
        (true, false) => "重启程序",
        (true, true) => "Restart",
    };
    if english {
        TrayLabels {
            toggle: "Show / Hide",
            theme: "Toggle theme",
            about: "About",
            quit: "Quit",
            relaunch,
            nic: "Network card",
            opacity: "Opacity",
            language: "Language",
            autostart: "Launch at startup",
        }
    } else {
        TrayLabels {
            toggle: "显示 / 隐藏",
            theme: "切换主题",
            about: "关于",
            quit: "退出",
            relaunch,
            nic: "网卡",
            opacity: "不透明度",
            language: "语言",
            autostart: "开机启动",
        }
    }
}

/// Whether a language code asks for English (anything else means Chinese).
pub fn wants_english(lang: &str) -> (r: bool)
    ensures
        r == (lang@ == "en"@),
{
    same_text(lang, "en")
}

/// What a click on a tray menu entry asks for.
#[derive(Debug)]
pub enum MenuCommand {
    Quit,
    About,
    /// Switch the language; `english` is false for Chinese.
    Language { english: bool },
    /// Flip launching at startup.
    Autostart,
    Relaunch,
    /// Show or hide the widget.
    Toggle,
    Theme,
    /// Watch the named interface.
    Nic(String),
    /// Set the opacity to the given percentage (as written in the entry's id).
    Opacity(String),
    /// An id no entry has.
    Unknown,
}

/// `c` is the command the entry with id `id` stands for.
pub open spec fn command_for(c: MenuCommand, id: Seq<char>) -> bool {
    if id == "quit"@ {
        c is Quit
    } else if id == "about"@ {
        c is About
    } else if id == "lang:zh"@ || id == "lang:en"@ {
        c == (MenuCommand::Language { english: id == "lang:en"@ })
    } else if id == "autostart"@ {
        c is Autostart
    } else if id == "relaunch"@ {
        c is Relaunch
    } else if id == "toggle"@ {
        c is Toggle
    } else if id == "theme"@ {
        c is Theme
    } else if has_prefix(id, "nic:"@) {
        c matches MenuCommand::Nic(name) && name@ == id.subrange("nic:"@.len() as int, id.len() as int)
    } else if has_prefix(id, "opacity:"@) {
        c matches MenuCommand::Opacity(pct) && pct@ == id.subrange(
            "opacity:"@.len() as int,
            id.len() as int,
        )
    } else {
        c is Unknown
    }
}

/// The rest of `id` after `prefix`, when `id` begins with it.
fn strip_prefix(id: &str, prefix: &str) -> (r: Option<String>)
    ensures
        has_prefix(id@, prefix@) ==> (r matches Some(rest) && rest@ == id@.subrange(
            prefix@.len() as int,
            id@.len() as int,
        )),
        !has_prefix(id@, prefix@) ==> r is None,
{
    let s = chars_of(id);
    let p = chars_of(prefix);
    if has_prefix_at(&s, 0, &p) {
        assert(s@.subrange(0, s@.len() as int) =~= s@);
        let rest = id.substring_char(p.len(), s.len()).to_string();
        Some(rest)
    } else {
        assert(s@.subrange(0, s@.len() as int) =~= s@);
        None
    }
}

/// The command of the tray entry with id `id`.
pub fn menu_command(id: &str) -> (r: MenuCommand)
    ensures
        command_for(r, id@),
{
    if same_text(id, "quit") {
        MenuCommand::Quit
    } else if same_text(id, "about") {
        MenuCommand::About
    } else if same_text(id, "lang:zh") || same_text(id, "lang:en") {
        MenuCommand::Language { english: same_text(id, "lang:en") }
    } else if same_text(id, "autostart") {
        MenuCommand::Autostart
    } else if same_text(id, "relaunch") {
        MenuCommand::Relaunch
    } else if same_text(id, "toggle") {
        MenuCommand::Toggle
    } else if same_text(id, "theme") {
        MenuCommand::Theme
    } else {
        match strip_prefix(id, "nic:") {
            Some(name) => MenuCommand::Nic(name),
            None => match strip_prefix(id, "opacity:") {
                Some(pct) => MenuCommand::Opacity(pct),
                None => MenuCommand::Unknown,
            },
        }
    }
}

/// The title and text of the About box for the given program version.
pub open spec fn about_title(english: bool) -> Seq<char> {
    if english {
        "About trafmon"@
    } else {
        "关于 trafmon"@
    }
}

pub open spec fn about_body(english: bool, version: Seq<char>) -> Seq<char> {
    "trafmon  v"@ + version + if english {
        "\n\nAuthor: Schweik7\nRepository: https://github.com/Schweik7/trafmon"@
    } else {
        "\n\n作者：Schweik7\n仓库：https://github.com/Schweik7/trafmon"@
    }
}

/// Title and text of the About box, naming the program's `version`.
pub fn about_text(english: bool, version: &str) -> (r: (String, String))
    ensures
        r.0@ == about_title(english),
        r.1@ == about_body(english, version@),
{
    let title = if english {
        "About trafmon".to_string()
    } else {
        "关于 trafmon".to_string()
    };
    let head = "trafmon  v".to_string();
    let with_version = head.concat(version);
    let body = if english {
        with_version.concat("\n\nAuthor: Schweik7\nRepository: https://github.com/Schweik7/trafmon")
    } else {
        with_version.concat("\n\n作者：Schweik7\n仓库：https://github.com/Schweik7/trafmon")
    };
    (title, body)
}

/// Whether launching at startup should be switched on, given whether it is
/// on now (`None` when that could not be read, taken as off).
pub fn autostart_target(enabled: Option<bool>) -> (r: bool)
    ensures
        r == !(match enabled {
            Some(b) => b,
            None => false,
        }),
{
    match enabled {
        Some(b) => !b,
        None => true,
    }
}

/// The entry the tray builds for an interface, with id `nic:` and the
/// interface's name, routes back to watching that very interface.
pub proof fn lemma_nic_entry_routes_back(name: Seq<char>, c: MenuCommand)
    requires
        command_for(c, "nic:"@ + name),
    ensures
        c matches MenuCommand::Nic(n) && n@ == name,
{
    reveal_strlit("nic:");
    reveal_strlit("quit");
    reveal_strlit("about");
    reveal_strlit("lang:zh");
    reveal_strlit("lang:en");
    reveal_strlit("autostart");
    reveal_strlit("relaunch");
    reveal_strlit("toggle");
    reveal_strlit("theme");
    let id = "nic:"@ + name;
    assert(id[0] == 'n');
    assert(id.subrange(0, 4) =~= "nic:"@);
    assert(id.subrange(4, id.len() as int) =~= name);
    assert(id != "quit"@ && id != "about"@ && id != "lang:zh"@ && id != "lang:en"@ && id
        != "autostart"@ && id != "relaunch"@ && id != "toggle"@ && id != "theme"@) by {
        assert("quit"@[0] == 'q');
        assert("about"@[0] == 'a');
        assert("lang:zh"@[0] == 'l');
        assert("lang:en"@[0] == 'l');
        assert("autostart"@[0] == 'a');
        assert("relaunch"@[0] == 'r');
        assert("toggle"@[0] == 't');
        assert("theme"@[0] == 't');
    }
}

/// The opacity entries, with id `opacity:` and a percentage, route to that
/// percentage.
pub proof fn lemma_opacity_entry_routes_back(pct: Seq<char>, c: MenuCommand)
    requires
        command_for(c, "opacity:"@ + pct),
    ensures
        c matches MenuCommand::Opacity(p) && p@ == pct,
{
    reveal_strlit("opacity:");
    reveal_strlit("nic:");
    reveal_strlit("quit");
    reveal_strlit("about");
    reveal_strlit("lang:zh");
    reveal_strlit("lang:en");
    reveal_strlit("autostart");
    reveal_strlit("relaunch");
    reveal_strlit("toggle");
    reveal_strlit("theme");
    let id = "opacity:"@ + pct;
    assert(id[0] == 'o');
    assert(id.subrange(0, 8) =~= "opacity:"@);
    assert(id.subrange(8, id.len() as int) =~= pct);
    assert(!has_prefix(id, "nic:"@)) by {
        assert(id.subrange(0, 4)[0] == 'o');
    }
    assert(id != "quit"@ && id != "about"@ && id != "lang:zh"@ && id != "lang:en"@ && id
        != "autostart"@ && id != "relaunch"@ && id != "toggle"@ && id != "theme"@) by {
        assert("quit"@[0] == 'q');
        assert("about"@[0] == 'a');
        assert("lang:zh"@[0] == 'l');
        assert("lang:en"@[0] == 'l');
        assert("autostart"@[0] == 'a');
        assert("relaunch"@[0] == 'r');
        assert("toggle"@[0] == 't');
        assert("theme"@[0] == 't');
    }
}

/// The two language entries switch to Chinese and to English.
pub proof fn lemma_language_entries(c: MenuCommand, d: MenuCommand)
    requires
        command_for(c, "lang:zh"@),
        command_for(d, "lang:en"@),
    ensures
        c == (MenuCommand::Language { english: false }),
        d == (MenuCommand::Language { english: true }),
{
    reveal_strlit("quit");
    reveal_strlit("about");
    reveal_strlit("lang:zh");
    reveal_strlit("lang:en");
    assert("lang:zh"@ != "lang:en"@) by {
        assert("lang:zh"@[5] != "lang:en"@[5]);
    }
    assert("lang:zh"@ != "quit"@ && "lang:zh"@ != "about"@ && "lang:en"@ != "quit"@ && "lang:en"@
        != "about"@) by {
        assert("lang:zh"@[0] == 'l' && "lang:en"@[0] == 'l');
        assert("quit"@[0] == 'q' && "about"@[0] == 'a');
    }
}

} // verus!
