use core_browser::downloads::{
    download_name, download_rate, pick_download_name, unique_path, FreeNameSearch,
};
use core_browser::menu::{menu_action, open_command, Desktop, MenuAction};
use core_browser::notify::{
    download_finished, download_progress, download_started, menu_opened, page_loaded,
    page_loading, tab_closed, tab_opened, tab_selected, title_changed, write_call,
};
use core_browser::text::{decimal_string, replace, trim};

#[test]
fn unique_path_tries_the_name_then_numbered_copies() {
    assert_eq!(unique_path("informe.pdf", 0), "informe.pdf");
    assert_eq!(unique_path("informe.pdf", 1), "informe (1).pdf");
    assert_eq!(unique_path("informe.pdf", 12), "informe (12).pdf");
}

#[test]
fn unique_path_splits_at_the_last_dot_only_after_a_stem() {
    assert_eq!(unique_path("a.tar.gz", 1), "a.tar (1).gz");
    assert_eq!(unique_path(".bashrc", 1), ".bashrc (1)");
    assert_eq!(unique_path("archivo", 2), "archivo (2)");
    assert_eq!(unique_path("fin.", 3), "fin (3).");
}

#[test]
fn unique_path_candidates_are_all_different() {
    let names: Vec<String> = (0..30).map(|i| unique_path("x.txt", i)).collect();
    for i in 0..names.len() {
        for j in 0..names.len() {
            if i != j {
                assert_ne!(names[i], names[j]);
            }
        }
    }
}

#[test]
fn pick_download_name_prefers_the_proposed_name() {
    assert_eq!(pick_download_name(Some("a.bin".to_string()), Some("b.bin".to_string())), "a.bin");
    assert_eq!(pick_download_name(Some(String::new()), Some("b.bin".to_string())), "b.bin");
    assert_eq!(pick_download_name(None, Some(String::new())), "descarga");
    assert_eq!(pick_download_name(None, None), "descarga");
}

#[test]
fn download_name_falls_back_to_the_last_segment_of_the_url() {
    assert_eq!(download_name(None, "https://a.example/files/report.pdf?x=1"), "report.pdf");
    assert_eq!(download_name(Some("given.zip".to_string()), "https://a.example/f.pdf"), "given.zip");
    assert_eq!(download_name(None, "https://a.example/files/"), "descarga");
    assert_eq!(download_name(None, "https://a.example"), "descarga");
    assert_eq!(download_name(None, "data:text/plain,hola"), "descarga");
}

#[test]
fn download_rate_doubles_the_growth_of_half_a_second() {
    assert_eq!(download_rate(1500, 1000), 1000);
    assert_eq!(download_rate(1000, 1000), 0);
    assert_eq!(download_rate(10, 20), 0);
}

#[test]
fn tab_messages_carry_json_labels() {
    assert_eq!(tab_opened("tab-1"), "planetTabOpened(\"tab-1\", true)");
    assert_eq!(tab_selected("tab-2"), "planetTabSelected(\"tab-2\")");
    assert_eq!(tab_closed("tab-3"), "planetTabClosed(\"tab-3\")");
}

#[test]
fn page_messages_escape_what_the_page_says() {
    assert_eq!(
        page_loading("tab-2", "https://a.b/"),
        "planetLoading(\"tab-2\", \"https://a.b/\")"
    );
    assert_eq!(page_loaded("tab-2", "https://a.b/"), "planetLoaded(\"tab-2\", \"https://a.b/\")");
    assert_eq!(
        title_changed("tab-1", "Say \"hi\""),
        "planetTitle(\"tab-1\", \"Say \\\"hi\\\"\")"
    );
}

#[test]
fn download_messages() {
    assert_eq!(
        download_started("u", "f.zip", "/d/f.zip"),
        "coreDownloadStarted(\"u\", \"f.zip\", \"/d/f.zip\")"
    );
    assert_eq!(download_progress("u", 2048, 1024), "coreDownloadProgress(\"u\", 2048, 1024)");
    assert_eq!(download_progress("u", 0, 0), "coreDownloadProgress(\"u\", 0, 0)");
    assert_eq!(download_finished("u", &None, false), "coreDownloadFinished(\"u\", null, false)");
    assert_eq!(
        download_finished("u", &Some("/d/f.zip".to_string()), true),
        "coreDownloadFinished(\"u\", \"/d/f.zip\", true)"
    );
    assert_eq!(menu_opened("dlg-theme"), "coreMenu(\"dlg-theme\")");
}

#[test]
fn menu_entries_map_to_actions() {
    assert_eq!(menu_action("dlg-history"), MenuAction::Dialog);
    assert_eq!(menu_action("back"), MenuAction::Back);
    assert_eq!(menu_action("forward"), MenuAction::Forward);
    assert_eq!(menu_action("reload"), MenuAction::Reload);
    assert_eq!(menu_action("home"), MenuAction::Home);
    assert_eq!(menu_action("url"), MenuAction::FocusUrl);
    assert_eq!(menu_action("tab-new"), MenuAction::NewTab);
    assert_eq!(menu_action("tab-close"), MenuAction::CloseTab);
    assert_eq!(menu_action("quit"), MenuAction::Ignore);
    assert_eq!(menu_action("dlg"), MenuAction::Ignore);
}

#[test]
fn open_commands_per_desktop() {
    let l = open_command(Desktop::MacOs, "/d/f.zip".to_string(), true, None);
    assert_eq!((l.program.as_str(), l.args), ("open", vec!["-R".to_string(), "/d/f.zip".to_string()]));
    let l = open_command(Desktop::MacOs, "/d/f.zip".to_string(), false, None);
    assert_eq!(l.args, vec!["/d/f.zip".to_string()]);
    let l = open_command(Desktop::Windows, "C:\\d\\f.zip".to_string(), true, None);
    assert_eq!((l.program.as_str(), l.args), ("explorer", vec!["/select,C:\\d\\f.zip".to_string()]));
    let l = open_command(Desktop::Other, "/d/f.zip".to_string(), true, Some("/d".to_string()));
    assert_eq!((l.program.as_str(), l.args), ("xdg-open", vec!["/d".to_string()]));
    let l = open_command(Desktop::Other, "/d/f.zip".to_string(), true, None);
    assert_eq!(l.args, vec!["/d/f.zip".to_string()]);
}

#[test]
fn text_helpers() {
    assert_eq!(trim("\u{a0} a b \t\n"), "a b");
    assert_eq!(trim("   "), "");
    assert_eq!(replace("a__X__b__X__", "__X__", "y"), "ayby");
    assert_eq!(replace("aaa", "aa", "b"), "ba");
    assert_eq!(decimal_string(0), "0");
    assert_eq!(decimal_string(1234567890), "1234567890");
}

#[test]
fn write_call_separates_arguments_with_comma_and_space() {
    assert_eq!(write_call("f", &vec![]), "f()");
    assert_eq!(write_call("f", &vec!["1".to_string()]), "f(1)");
    assert_eq!(
        write_call("coreX", &vec!["\"a\"".to_string(), "2".to_string(), "null".to_string()]),
        "coreX(\"a\", 2, null)"
    );
}

#[test]
fn the_search_stops_at_the_first_free_name() {
    let taken = ["informe.pdf", "informe (1).pdf", "informe (3).pdf"];
    let mut search = FreeNameSearch::new("informe.pdf");
    let mut asked = 0;
    let found = loop {
        let c = search.candidate();
        asked += 1;
        if !taken.contains(&c.as_str()) {
            break c;
        }
        search.taken();
    };
    assert_eq!(found, "informe (2).pdf");
    assert_eq!(search.attempt(), 2);
    assert!(asked <= taken.len() + 1);
}

#[test]
fn the_search_keeps_a_free_name_at_once() {
    let search = FreeNameSearch::new("nuevo.txt");
    assert_eq!(search.attempt(), 0);
    assert_eq!(search.candidate(), "nuevo.txt");
}
