use core_browser::web_url::{home_page_text, home_url, to_url, url_candidate, urlencode, WebUrl};

fn href(r: Result<WebUrl, String>) -> String {
    r.expect("a URL").href
}

#[test]
fn urlencode_keeps_unreserved_characters() {
    assert_eq!(urlencode("AZaz09-_.~"), "AZaz09-_.~");
}

#[test]
fn urlencode_writes_spaces_as_plus_and_escapes_the_rest() {
    assert_eq!(urlencode("a b&c=d"), "a+b%26c%3Dd");
    assert_eq!(urlencode("#?/"), "%23%3F%2F");
}

#[test]
fn urlencode_escapes_each_utf8_byte_in_upper_case() {
    assert_eq!(urlencode("ñ"), "%C3%B1");
    assert_eq!(urlencode("€"), "%E2%82%AC");
}

#[test]
fn urlencode_output_is_query_safe() {
    let out = urlencode("¿qué tal? a&b #1 \t\n");
    assert!(out.chars().all(|c| c.is_ascii_alphanumeric() || "-_.~+%".contains(c)));
    assert!(!out.contains(' '));
}

#[test]
fn candidate_of_blank_input_is_none() {
    assert_eq!(url_candidate(""), None);
    assert_eq!(url_candidate(" \t\n\u{3000}"), None);
}

#[test]
fn candidate_keeps_an_explicit_scheme() {
    assert_eq!(url_candidate("  ftp://example.org/x  ").as_deref(), Some("ftp://example.org/x"));
}

#[test]
fn candidate_adds_https_to_a_host() {
    assert_eq!(url_candidate("example.com/path").as_deref(), Some("https://example.com/path"));
}

#[test]
fn candidate_searches_text_with_spaces_or_without_dots() {
    assert_eq!(
        url_candidate("a.b c").as_deref(),
        Some("https://duckduckgo.com/html/?q=a.b+c")
    );
    assert_eq!(
        url_candidate("hola mundo").as_deref(),
        Some("https://duckduckgo.com/html/?q=hola+mundo")
    );
}

#[test]
fn to_url_refuses_a_blank_address() {
    assert_eq!(to_url("   ").err().as_deref(), Some("dirección vacía"));
}

#[test]
fn to_url_adds_https_and_parses() {
    let u = to_url("  example.com ").expect("a URL");
    assert_eq!(u.href, "https://example.com/");
    assert_eq!(u.host.as_deref(), Some("example.com"));
}

#[test]
fn to_url_keeps_the_scheme_typed() {
    assert_eq!(href(to_url("https://rust-lang.org/learn")), "https://rust-lang.org/learn");
}

#[test]
fn to_url_searches_plain_text() {
    let u = to_url("papel y tinta").expect("a URL");
    assert_eq!(u.href, "https://duckduckgo.com/html/?q=papel+y+tinta");
    assert_eq!(u.host.as_deref(), Some("duckduckgo.com"));
}

#[test]
fn to_url_reports_the_parse_error() {
    let e = to_url("http://[::1").err().expect("an error");
    assert!(!e.is_empty());
}

#[test]
fn home_page_escapes_the_hash_of_the_paper() {
    assert_eq!(
        home_page_text("#f6f1e5"),
        "data:text/html,%3Chtml%20style%3D%22background:%23f6f1e5%22%3E%3C/html%3E"
    );
    assert!(!home_page_text("#0a0b0c").contains('#'));
}

#[test]
fn home_url_parses_the_home_page() {
    let u = home_url("#23211b").expect("a URL");
    assert_eq!(u.href, "data:text/html,%3Chtml%20style%3D%22background:%2323211b%22%3E%3C/html%3E");
    assert_eq!(u.host, None);
}

fn form_decode(s: &str) -> Vec<u8> {
    let b = s.as_bytes();
    let mut out = Vec::new();
    let mut i = 0;
    while i < b.len() {
        if b[i] == b'+' {
            out.push(b' ');
            i += 1;
        } else if b[i] == b'%' {
            let hex = std::str::from_utf8(&b[i + 1..i + 3]).unwrap();
            out.push(u8::from_str_radix(hex, 16).unwrap());
            i += 3;
        } else {
            out.push(b[i]);
            i += 1;
        }
    }
    out
}

#[test]
fn urlencode_percent_is_followed_by_two_upper_hex_digits() {
    let out = urlencode("a%b ñ\u{1}\u{7f}€");
    let b = out.as_bytes();
    for i in 0..b.len() {
        if b[i] == b'%' {
            assert!(i + 2 < b.len());
            assert!(b[i + 1].is_ascii_digit() || (b'A'..=b'F').contains(&b[i + 1]));
            assert!(b[i + 2].is_ascii_digit() || (b'A'..=b'F').contains(&b[i + 2]));
        }
    }
}

#[test]
fn urlencode_decodes_back_to_the_bytes() {
    for s in ["", "a b", "100% + más", "x=1&y=2#z", "€ ñ \t", "+%+"] {
        assert_eq!(form_decode(&urlencode(s)), s.as_bytes());
    }
    assert_ne!(urlencode("a b"), urlencode("a+b"));
}
