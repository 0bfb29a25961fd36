//! Decisions taken on behalf of the application menu and of the command
//! that opens a downloaded file.

use vstd::prelude::*;

use crate::text::{has_prefix, push_str, same_text, starts_with};

verus! {

/// What a menu entry asks for.
#[derive(PartialEq, Eq, Structural, Debug)]
pub enum MenuAction {
    /// Open the interface dialog named by the entry (`dlg-…`).
    Dialog,
    Back,
    Forward,
    Reload,
    Home,
    /// Give the focus to the address bar.
    FocusUrl,
    NewTab,
    CloseTab,
    /// An entry this application does not handle.
    Ignore,
}

/// The action of the menu entry `id`.
pub open spec fn menu_action_of(id: Seq<char>) -> MenuAction {
    if has_prefix(id, "dlg-"@) {
        MenuAction::Dialog
    } else if id == "back"@ {
        MenuAction::Back
    } else if id == "forward"@ {
        MenuAction::Forward
    } else if id == "reload"@ {
        MenuAction::Reload
    } else if id == "home"@ {
        MenuAction::Home
    } else if id == "url"@ {
        MenuAction::FocusUrl
    } else if id == "tab-new"@ {
        MenuAction::NewTab
    } else if id == "tab-close"@ {
        MenuAction::CloseTab
    } else {
        MenuAction::Ignore
    }
}

/// Every menu entry whose id begins with `dlg-` opens the interface dialog
/// of that id, and no other entry does; the navigation and tab entries ask
/// for their own action.
pub proof fn law_menu_entries(id: Seq<char>)
    ensures
        has_prefix(id, "dlg-"@) ==> menu_action_of(id) == MenuAction::Dialog,
        !has_prefix(id, "dlg-"@) ==> menu_action_of(id) != MenuAction::Dialog,
        menu_action_of("dlg-history"@) == MenuAction::Dialog,
        menu_action_of("dlg-downloads"@) == MenuAction::Dialog,
        menu_action_of("dlg-theme"@) == MenuAction::Dialog,
        menu_action_of("dlg-help"@) == MenuAction::Dialog,
        menu_action_of("back"@) == MenuAction::Back,
        menu_action_of("forward"@) == MenuAction::Forward,
        menu_action_of("reload"@) == MenuAction::Reload,
        menu_action_of("home"@) == MenuAction::Home,
        menu_action_of("url"@) == MenuAction::FocusUrl,
        menu_action_of("tab-new"@) == MenuAction::NewTab,
        menu_action_of("tab-close"@) == MenuAction::CloseTab,
{
    reveal_strlit("dlg-");
    reveal_strlit("dlg-history");
    reveal_strlit("dlg-downloads");
    reveal_strlit("dlg-theme");
    reveal_strlit("dlg-help");
    reveal_strlit("back");
    reveal_strlit("forward");
    reveal_strlit("reload");
    reveal_strlit("home");
    reveal_strlit("url");
    reveal_strlit("tab-new");
    reveal_strlit("tab-close");
    let d = "dlg-"@;
    assert("dlg-history"@.take(4) =~= d);
    assert("dlg-downloads"@.take(4) =~= d);
    assert("dlg-theme"@.take(4) =~= d);
    assert("dlg-help"@.take(4) =~= d);
    assert("back"@.take(4)[0] != d[0]);
    assert("forward"@.take(4)[0] != d[0]);
    assert("reload"@.take(4)[0] != d[0]);
    assert("home"@.take(4)[0] != d[0]);
    assert(!has_prefix("url"@, d));
    assert("tab-new"@.take(4)[0] != d[0]);
    assert("tab-close"@.take(4)[0] != d[0]);
    assert("forward"@ != "back"@);
    assert("reload"@ != "back"@ && "reload"@ != "forward"@);
    assert("home"@ != "back"@ && "home"@ != "forward"@ && "home"@ != "reload"@);
    assert("url"@ != "back"@ && "url"@ != "forward"@ && "url"@ != "reload"@ && "url"@ != "home"@);
    assert("tab-new"@ != "back"@ && "tab-new"@ != "forward"@ && "tab-new"@ != "reload"@
        && "tab-new"@ != "home"@ && "tab-new"@ != "url"@);
    assert("tab-close"@ != "back"@ && "tab-close"@ != "forward"@ && "tab-close"@ != "reload"@
        && "tab-close"@ != "home"@ && "tab-close"@ != "url"@ && "tab-close"@ != "tab-new"@);
}

/// What the menu entry `id` asks for.
pub fn menu_action(id: &str) -> (a: MenuAction)
    ensures
        a == menu_action_of(id@),
{
    if starts_with(id, "dlg-") {
        MenuAction::Dialog
    } else if same_text(id, "back") {
        MenuAction::Back
    } else if same_text(id, "forward") {
        MenuAction::Forward
    } else if same_text(id, "reload") {
        MenuAction::Reload
    } else if same_text(id, "home") {
        MenuAction::Home
    } else if same_text(id, "url") {
        MenuAction::FocusUrl
    } else if same_text(id, "tab-new") {
        MenuAction::NewTab
    } else if same_text(id, "tab-close") {
        MenuAction::CloseTab
    } else {
        MenuAction::Ignore
    }
}

/// The desktop the application runs on, as far as opening files goes.
#[derive(PartialEq, Eq, Structural, Debug, Clone, Copy)]
pub enum Desktop {
    MacOs,
    Windows,
    /// Any other system, where `xdg-open` opens files.
    Other,
}

/// A program to start and its arguments.
pub struct Launch {
    pub program: String,
    pub args: Vec<String>,
}

impl View for Launch {
    type V = (Seq<char>, Seq<Seq<char>>);

    open spec fn view(&self) -> (Seq<char>, Seq<Seq<char>>) {
        (self.program@, self.args@.map_values(|a: String| a@))
    }
}

/// The program that opens (or, with `reveal`, shows in the file manager)
/// the file at `path`; `parent` is the folder holding it, when it has one.
/// `xdg-open` cannot select a file, so there revealing opens the folder.
pub open spec fn launch_for(
    desktop: Desktop,
    path: Seq<char>,
    reveal: bool,
    parent: Option<Seq<char>>,
) -> (Seq<char>, Seq<Seq<char>>) {
    match desktop {
        Desktop::MacOs => if reveal {
            ("open"@, seq!["-R"@, path])
        } else {
            ("open"@, seq![path])
        },
        Desktop::Windows => if reveal {
            ("explorer"@, seq!["/select,"@ + path])
        } else {
            ("explorer"@, seq![path])
        },
        Desktop::Other => if reveal {
            match parent {
                Some(p) => ("xdg-open"@, seq![p]),
                None => ("xdg-open"@, seq![path]),
            }
        } else {
            ("xdg-open"@, seq![path])
        },
    }
}

/// Opening a file (without revealing it) hands the program the file's own
/// path and nothing else, on every desktop. Revealing it shows it in its
/// folder: macOS selects it with `open -R`, Windows with
/// `explorer /select,`, and elsewhere the folder holding it is opened.
pub proof fn law_open_and_reveal(
    desktop: Desktop,
    path: Seq<char>,
    parent: Option<Seq<char>>,
)
    ensures
        launch_for(desktop, path, false, parent).1 == seq![path],
        desktop == Desktop::MacOs ==> launch_for(desktop, path, true, parent) == (
            "open"@,
            seq!["-R"@, path],
        ),
        desktop == Desktop::Windows ==> launch_for(desktop, path, true, parent) == (
            "explorer"@,
            seq!["/select,"@ + path],
        ),
        desktop == Desktop::Other ==> launch_for(desktop, path, true, parent) == (
            "xdg-open"@,
            seq![
                match parent {
                    Some(p) => p,
                    None => path,
                },
            ],
        ),
        launch_for(desktop, path, true, parent).0 == launch_for(desktop, path, false, parent).0,
{
}

/// The command that opens a downloaded file, or reveals it.
pub fn open_command(desktop: Desktop, path: String, reveal: bool, parent: Option<String>) -> (l:
    Launch)
    ensures
        l@ == launch_for(desktop, path@, reveal, parent.deep_view()),
{
    let l = match desktop {
        Desktop::MacOs => if reveal {
            Launch { program: "open".to_string(), args: vec!["-R".to_string(), path] }
        } else {
            Launch { program: "open".to_string(), args: vec![path] }
        },
        Desktop::Windows => if reveal {
            let mut a = String::new();
            push_str(&mut a, "/select,");
            push_str(&mut a, path.as_str());
            Launch { program: "explorer".to_string(), args: vec![a] }
        } else {
            Launch { program: "explorer".to_string(), args: vec![path] }
        },
        Desktop::Other => if reveal {
            match parent {
                Some(p) => Launch { program: "xdg-open".to_string(), args: vec![p] },
                None => Launch { program: "xdg-open".to_string(), args: vec![path] },
            }
        } else {
            Launch { program: "xdg-open".to_string(), args: vec![path] }
        },
    };
    assert(l@.1 =~= launch_for(desktop, path@, reveal, parent.deep_view()).1);
    l
}

} // verus!
