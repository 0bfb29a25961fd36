use core_browser::adblock::{adblock_init_script, is_ad_host, is_ad_url, new_window_opens_tab};
use core_browser::ink::{ink_css, ink_init_script, valid_hex};
use core_browser::notify::{download_finished, title_changed};
use core_browser::web_url::WebUrl;

#[test]
fn valid_hex_accepts_only_rrggbb() {
    assert!(valid_hex("#a1B2c3"));
    assert!(valid_hex("#000000"));
    assert!(!valid_hex("#a1b2c"));
    assert!(!valid_hex("#a1b2c3d"));
    assert!(!valid_hex("a1b2c3d"));
    assert!(!valid_hex("#a1b2cg"));
    assert!(!valid_hex("#ñ1b2c3"));
    assert!(!valid_hex(""));
}

#[test]
fn default_theme_colours_are_valid() {
    assert!(valid_hex("#f6f1e5"));
    assert!(valid_hex("#23211b"));
}

#[test]
fn ink_css_fills_in_both_colours() {
    let expected = "html { background: #fff000 !important; }*, *::before, *::after {background-color: transparent !important;background-image: none !important;color: #000111 !important;font-family: ui-monospace, Menlo, Monaco, Consolas, 'DejaVu Sans Mono', monospace !important;text-shadow: none !important;box-shadow: none !important;border-color: #000111 !important;border-radius: 0 !important;}body { background: #fff000 !important; }a, a * { color: #000111 !important; text-decoration: underline !important; }img, video, canvas, svg, iframe { filter: grayscale(1) sepia(0.12) contrast(1.05) !important; }select, option, optgroup, datalist, dialog, [popover],[role='dialog'], [role='alertdialog'], [role='menu'], [role='menubar'],[role='listbox'], [role='tooltip'], [role='combobox']{ background-color: #fff000 !important; }";
    assert_eq!(ink_css("#fff000", "#000111"), expected);
}

#[test]
fn ink_script_fills_every_hole_with_json() {
    let s = ink_init_script("#f6f1e5", "#23211b");
    assert!(s.starts_with("(function() {var CSS = \"html { background: #f6f1e5 !important; }"));
    assert!(s.contains("window.__core_paper = \"#f6f1e5\";"));
    assert!(s.contains("window.__core_ink = \"#23211b\";"));
    assert!(!s.contains("__CSS__"));
    assert!(!s.contains("__PAPER__"));
    assert!(!s.contains("__INK__"));
    assert!(s.ends_with("})();"));
}

#[test]
fn adblock_script_embeds_hosts_and_css() {
    let s = adblock_init_script();
    assert!(s.contains("var HOSTS = [\"doubleclick.net\",\"googlesyndication.com\","));
    assert!(s.contains("\"popads.net\",\"propellerads.com\"];"));
    assert!(s.contains("var CSS = \"ins.adsbygoogle, .adsbygoogle,"));
    assert!(!s.contains("__HOSTS__"));
    assert!(!s.contains("__CSS__"));
}

#[test]
fn ad_hosts_and_their_subdomains_are_ads() {
    assert!(is_ad_host("doubleclick.net"));
    assert!(is_ad_host("ads.doubleclick.net"));
    assert!(is_ad_host("a.b.taboola.com"));
    assert!(is_ad_host("propellerads.com"));
    assert!(!is_ad_host("notdoubleclick.net"));
    assert!(!is_ad_host("example.com"));
    assert!(!is_ad_host("doubleclick.net.example.com"));
}

#[test]
fn ad_urls_are_judged_by_their_host() {
    let ad = WebUrl { href: "https://x.criteo.com/p".to_string(), host: Some("x.criteo.com".to_string()), last_segment: Some("p".to_string()) };
    let fine = WebUrl { href: "https://example.org/".to_string(), host: Some("example.org".to_string()), last_segment: Some(String::new()) };
    let hostless = WebUrl { href: "data:text/html,x".to_string(), host: None, last_segment: None };
    assert!(is_ad_url(&ad));
    assert!(!is_ad_url(&fine));
    assert!(!is_ad_url(&hostless));
}

#[test]
fn json_strings_are_quoted_and_escaped() {
    assert_eq!(title_changed("tab-1", "a\"b\\c\n"), "planetTitle(\"tab-1\", \"a\\\"b\\\\c\\n\")");
}

#[test]
fn json_options_are_null_or_the_string() {
    assert_eq!(download_finished("u", &None, true), "coreDownloadFinished(\"u\", null, true)");
    assert_eq!(
        download_finished("u", &Some("/tmp/x".to_string()), true),
        "coreDownloadFinished(\"u\", \"/tmp/x\", true)"
    );
}

#[test]
fn ink_css_writes_each_colour_three_times() {
    let css = ink_css("#fff000", "#000111");
    assert_eq!(css.matches("#fff000").count(), 3);
    assert_eq!(css.matches("#000111").count(), 3);
    let other = ink_css("#abcdef", "#123456");
    assert_eq!(css.replace("#fff000", "P").replace("#000111", "I"), other.replace("#abcdef", "P").replace("#123456", "I"));
}

#[test]
fn ink_script_has_no_hole_left_for_any_valid_theme() {
    for (p, i) in [("#000000", "#ffffff"), ("#AbCdEf", "#012345")] {
        let s = ink_init_script(p, i);
        assert!(!s.contains("__CSS__") && !s.contains("__PAPER__") && !s.contains("__INK__"));
    }
}

#[test]
fn new_windows_open_tabs_except_towards_ads() {
    assert!(!new_window_opens_tab("https://popads.net/x"));
    assert!(!new_window_opens_tab("https://a.b.taboola.com/"));
    assert!(new_window_opens_tab("https://example.org/"));
    assert!(!new_window_opens_tab("not a url"));
}

#[test]
fn ink_sheet_is_the_marked_sheet_with_the_colours_put_in() {
    let marked = ink_css("\u{1}", "\u{2}");
    assert_eq!(marked.matches('\u{1}').count(), 3);
    assert_eq!(marked.matches('\u{2}').count(), 3);
    assert_eq!(
        ink_css("#0a0b0c", "#d0e0f0"),
        marked.replace('\u{1}', "#0a0b0c").replace('\u{2}', "#d0e0f0")
    );
}
