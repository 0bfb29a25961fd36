use core_browser::tabs::{tab_label_string, AfterClose, Tabs};

fn open_tab(t: &mut Tabs) -> (String, Option<String>) {
    let (n, label) = t.next_tab();
    assert!(t.can_open(n));
    let prev = t.tab_opened(n);
    (label, prev)
}

#[test]
fn a_new_window_has_no_tab_and_the_default_theme() {
    let t = Tabs::new();
    assert!(t.is_empty());
    assert_eq!(t.active(), None);
    assert_eq!(t.active_tab().err().as_deref(), Some("sin pestaña activa"));
    assert_eq!(t.paper(), "#f6f1e5");
    assert_eq!(t.ink(), "#23211b");
}

#[test]
fn tabs_are_named_in_sequence() {
    let mut t = Tabs::new();
    assert_eq!(t.next_tab(), (1, "tab-1".to_string()));
    assert_eq!(t.next_tab(), (2, "tab-2".to_string()));
    assert_eq!(tab_label_string(10), "tab-10");
}

#[test]
fn a_named_label_is_fresh() {
    let mut t = Tabs::new();
    let (a, _) = open_tab(&mut t);
    let (n, b) = t.next_tab();
    assert_ne!(a, b);
    assert!(!t.is_open(&b));
    assert!(t.can_open(n));
    assert!(!t.can_open(1));
    assert!(!t.can_open(0));
    assert!(!t.can_open(n + 1));
}

#[test]
fn opening_activates_and_hides_the_previous_tab() {
    let mut t = Tabs::new();
    let (a, prev) = open_tab(&mut t);
    assert_eq!(prev, None);
    assert_eq!(t.active(), Some(a.clone()));
    let (b, prev) = open_tab(&mut t);
    assert_eq!(prev, Some(a.clone()));
    assert_eq!(t.active(), Some(b.clone()));
    assert_eq!(t.labels(), vec![a, b]);
}

#[test]
fn selecting_hides_the_other_tab_once() {
    let mut t = Tabs::new();
    let (a, _) = open_tab(&mut t);
    let (b, _) = open_tab(&mut t);
    assert_eq!(t.select_tab(&a), Ok(Some(b.clone())));
    assert_eq!(t.active(), Some(a.clone()));
    assert_eq!(t.select_tab(&a), Ok(None));
    assert_eq!(t.active(), Some(a));
}

#[test]
fn selecting_an_unknown_tab_is_refused() {
    let mut t = Tabs::new();
    let (a, _) = open_tab(&mut t);
    assert_eq!(t.select_tab("tab-9").err().as_deref(), Some("pestaña desconocida"));
    assert_eq!(t.active(), Some(a));
}

#[test]
fn closing_the_active_tab_moves_to_its_left_neighbour() {
    let mut t = Tabs::new();
    let (a, _) = open_tab(&mut t);
    let (b, _) = open_tab(&mut t);
    let (c, _) = open_tab(&mut t);
    t.select_tab(&b).unwrap();
    match t.close_tab(&b) {
        Ok(AfterClose::Select(n)) => assert_eq!(n, a),
        other => panic!("unexpected {:?}", other),
    }
    assert_eq!(t.labels(), vec![a.clone(), c.clone()]);
    assert_eq!(t.active(), Some(a));
}

#[test]
fn closing_the_first_active_tab_moves_to_its_right_neighbour() {
    let mut t = Tabs::new();
    let (a, _) = open_tab(&mut t);
    let (b, _) = open_tab(&mut t);
    t.select_tab(&a).unwrap();
    match t.close_tab(&a) {
        Ok(AfterClose::Select(n)) => assert_eq!(n, b),
        other => panic!("unexpected {:?}", other),
    }
}

#[test]
fn closing_another_tab_keeps_the_active_one() {
    let mut t = Tabs::new();
    let (a, _) = open_tab(&mut t);
    let (b, _) = open_tab(&mut t);
    assert!(matches!(t.close_tab(&a), Ok(AfterClose::Stay)));
    assert_eq!(t.active(), Some(b.clone()));
    assert_eq!(t.labels(), vec![b]);
}

#[test]
fn closing_the_last_tab_asks_for_a_home_tab() {
    let mut t = Tabs::new();
    let (a, _) = open_tab(&mut t);
    assert!(matches!(t.close_tab(&a), Ok(AfterClose::OpenHome)));
    assert!(t.is_empty());
    assert_eq!(t.active(), None);
}

#[test]
fn closing_the_tab_just_opened_restores_the_column() {
    let mut t = Tabs::new();
    let (a, _) = open_tab(&mut t);
    let (b, _) = open_tab(&mut t);
    let before = t.labels();
    let (c, _) = open_tab(&mut t);
    match t.close_tab(&c) {
        Ok(AfterClose::Select(n)) => assert_eq!(n, b),
        other => panic!("unexpected {:?}", other),
    }
    assert_eq!(t.labels(), before);
    assert_eq!(before, vec![a, b]);
}

#[test]
fn closing_an_unknown_tab_is_refused() {
    let mut t = Tabs::new();
    open_tab(&mut t);
    assert_eq!(t.close_tab("tab-7").err().as_deref(), Some("pestaña desconocida"));
    assert_eq!(t.labels(), vec!["tab-1".to_string()]);
}

#[test]
fn an_invalid_theme_is_refused() {
    let mut t = Tabs::new();
    assert_eq!(
        t.set_theme("#ffffff", "black").err().as_deref(),
        Some("color inválido: se espera #rrggbb")
    );
    assert_eq!(t.set_theme("red", "#000000").err().as_deref(), Some("color inválido: se espera #rrggbb"));
    assert_eq!(t.paper(), "#f6f1e5");
    assert_eq!(t.ink(), "#23211b");
}

#[test]
fn a_valid_theme_is_kept_and_all_tabs_are_repainted() {
    let mut t = Tabs::new();
    let (a, _) = open_tab(&mut t);
    let (b, _) = open_tab(&mut t);
    assert_eq!(t.set_theme("#101010", "#eeeeee"), Ok(vec![a, b]));
    assert_eq!(t.paper(), "#101010");
    assert_eq!(t.ink(), "#eeeeee");
    assert!(t.ink_init_script().contains("window.__core_paper = \"#101010\";"));
    let home = t.home_url().expect("a URL");
    assert!(home.href.contains("%23101010"));
}

#[test]
fn downloads_are_in_flight_from_start_to_end() {
    let mut t = Tabs::new();
    assert!(!t.is_downloading("https://a.example/f.zip"));
    t.download_started("https://a.example/f.zip".to_string(), "/d/f.zip".to_string());
    t.download_started("https://a.example/g.zip".to_string(), "/d/g.zip".to_string());
    assert!(t.is_downloading("https://a.example/f.zip"));
    t.download_finished("https://a.example/f.zip");
    assert!(!t.is_downloading("https://a.example/f.zip"));
    assert!(t.is_downloading("https://a.example/g.zip"));
}

#[test]
fn the_counter_counts_named_tabs_even_if_not_opened() {
    let mut t = Tabs::new();
    assert_eq!(t.counter(), 0);
    t.next_tab();
    let (n, label) = t.next_tab();
    assert_eq!(t.counter(), 2);
    assert_eq!((n, label.as_str()), (2, "tab-2"));
    assert_eq!(t.tab_opened(n), None);
    assert_eq!(t.labels(), vec!["tab-2".to_string()]);
}

#[test]
fn labels_named_along_a_long_run_never_repeat() {
    let mut t = Tabs::new();
    let mut seen: Vec<String> = Vec::new();
    for round in 0..20 {
        let (label, _) = open_tab(&mut t);
        assert!(!seen.contains(&label));
        seen.push(label.clone());
        if round % 3 == 0 {
            let _ = t.close_tab(&label);
        }
        if round % 5 == 0 {
            let _ = t.set_theme("nope", "#000000");
        }
    }
    let labels = t.labels();
    for i in 0..labels.len() {
        for j in 0..labels.len() {
            if i != j {
                assert_ne!(labels[i], labels[j]);
            }
        }
    }
}

#[test]
fn the_theme_stays_rrggbb_after_refused_themes() {
    let mut t = Tabs::new();
    let _ = t.set_theme("#12345", "#000000");
    let _ = t.set_theme("#123456", "#abcdeg");
    assert_eq!((t.paper(), t.ink()), ("#f6f1e5", "#23211b"));
    t.set_theme("#123456", "#abcdef").unwrap();
    assert_eq!((t.paper(), t.ink()), ("#123456", "#abcdef"));
}
