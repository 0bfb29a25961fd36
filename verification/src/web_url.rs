//! What the address bar turns into: search-query encoding, the choice
//! between address and search, URL parsing, the blank home page and the
//! advertising hosts.

use vstd::prelude::*;
use vstd::utf8::encode_utf8;

use crate::text::{
    contains, has_infix, push_char, push_str, replace, replace_all, trim, trimmed,
};

verus! {

// ---------------------------------------------------------------------------
// Parsed URLs
// ---------------------------------------------------------------------------

/// A parsed URL as the logic reads it: its serialization, its host and
/// the last segment of its path.
pub struct WebUrl {
    pub href: String,
    pub host: Option<String>,
    pub last_segment: Option<String>,
}

/// `WebUrl` with its texts as character sequences.
pub struct UrlView {
    pub href: Seq<char>,
    pub host: Option<Seq<char>>,
    pub last_segment: Option<Seq<char>>,
}

impl View for WebUrl {
    type V = UrlView;

    open spec fn view(&self) -> UrlView {
        UrlView {
            href: self.href@,
            host: self.host.deep_view(),
            last_segment: self.last_segment.deep_view(),
        }
    }
}

/// The view of a parse result: the parsed URL, or the error message.
pub open spec fn url_result_view(r: Result<WebUrl, String>) -> Result<UrlView, Seq<char>> {
    match r {
        Ok(u) => Ok(u@),
        Err(e) => Err(e@),
    }
}

/// What `url::Url::parse` makes of `s`: on success the serialization
/// (`Url::as_str`), the host (`Url::host_str`) and the last segment of the
/// path (`Url::path_segments`, then its last item); on failure the message
/// that the `ParseError` displays.
pub uninterp spec fn url_parse(s: Seq<char>) -> Result<UrlView, Seq<char>>;

/// `url::Url::parse` (the `FromStr` of `Url`), read out into a `WebUrl`;
/// its result is named `url_parse`.
#[verifier::external_body]
pub(crate) fn parse_url(s: &str) -> (r: Result<WebUrl, String>)
    ensures
        url_result_view(r) == url_parse(s@),
{
    match url::Url::parse(s) {
        Ok(u) => Ok(WebUrl {
            href: u.as_str().to_string(),
            host: u.host_str().map(str::to_string),
            last_segment: match u.path_segments() {
                Some(segments) => segments.last().map(str::to_string),
                None => None,
            },
        }),
        Err(e) => Err(e.to_string()),
    }
}

// ---------------------------------------------------------------------------
// Search queries
// ---------------------------------------------------------------------------

/// Bytes that stand for themselves in a search query.
pub open spec fn unreserved(b: u8) -> bool {
    ||| 65 <= b <= 90
    ||| 97 <= b <= 122
    ||| 48 <= b <= 57
    ||| b == 45
    ||| b == 95
    ||| b == 46
    ||| b == 126
}

/// Upper-case hexadecimal digit of `d < 16`.
pub open spec fn hex_digit_upper(d: nat) -> char {
    if d < 10 {
        (48 + d) as char
    } else {
        (55 + d) as char
    }
}

/// How one byte is written in a search query: itself, `+` for a space, or
/// `%` and two upper-case hexadecimal digits.
pub open spec fn encoded_byte(b: u8) -> Seq<char> {
    if unreserved(b) {
        seq![b as char]
    } else if b == 32 {
        seq!['+']
    } else {
        seq!['%', hex_digit_upper((b / 16) as nat), hex_digit_upper((b % 16) as nat)]
    }
}

/// The search-query form of a byte string: each byte written in turn.
pub open spec fn url_encoded(bytes: Seq<u8>) -> Seq<char>
    decreases bytes.len(),
{
    if bytes.len() == 0 {
        Seq::empty()
    } else {
        url_encoded(bytes.drop_last()) + encoded_byte(bytes.last())
    }
}

fn hex_upper(d: u8) -> (c: char)
    requires
        d < 16,
    ensures
        c == hex_digit_upper(d as nat),
{
    if d < 10 {
        (48u8 + d) as char
    } else {
        (55u8 + d) as char
    }
}

/// Minimal percent-encoding of a search query, over the UTF-8 bytes of `s`.
pub fn urlencode(s: &str) -> (r: String)
    ensures
        r@ == url_encoded(encode_utf8(s@)),
{
    let bytes = s.as_bytes();
    let mut r = String::new();
    let mut i: usize = 0;
    while i < bytes.len()
        invariant
            bytes@ == encode_utf8(s@),
            i <= bytes.len(),
            r@ == url_encoded(bytes@.take(i as int)),
        decreases bytes.len() - i,
    {
        let b = bytes[i];
        assert(bytes@.take(i + 1).drop_last() =~= bytes@.take(i as int));
        if (65 <= b && b <= 90) || (97 <= b && b <= 122) || (48 <= b && b <= 57) || b == 45 || b
            == 95 || b == 46 || b == 126 {
            push_char(&mut r, b as char);
        } else if b == 32 {
            push_char(&mut r, '+');
        } else {
            push_char(&mut r, '%');
            push_char(&mut r, hex_upper(b / 16));
            push_char(&mut r, hex_upper(b % 16));
        }
        assert(r@ =~= url_encoded(bytes@.take(i as int)) + encoded_byte(b));
        i += 1;
    }
    assert(bytes@.take(i as int) =~= bytes@);
    r
}

/// Characters that may appear in an encoded query.
pub open spec fn query_safe(c: char) -> bool {
    ||| ('A' <= c && c <= 'Z')
    ||| ('a' <= c && c <= 'z')
    ||| ('0' <= c && c <= '9')
    ||| c == '-' || c == '_' || c == '.' || c == '~' || c == '+' || c == '%'
}

/// An encoded query holds only letters, digits, `-_.~`, `+` and `%`: in
/// particular no space, `&`, `#` or `=` that would cut it short.
pub proof fn law_url_encoded_is_query_safe(bytes: Seq<u8>)
    ensures
        forall|i: int| 0 <= i < url_encoded(bytes).len() ==> query_safe(#[trigger] url_encoded(bytes)[i]),
    decreases bytes.len(),
{
    if bytes.len() > 0 {
        law_url_encoded_is_query_safe(bytes.drop_last());
        let pre = url_encoded(bytes.drop_last());
        let e = encoded_byte(bytes.last());
        assert forall|i: int| 0 <= i < url_encoded(bytes).len() implies query_safe(
            #[trigger] url_encoded(bytes)[i],
        ) by {
            if i < pre.len() {
                assert(url_encoded(bytes)[i] == pre[i]);
            } else {
                let b = bytes.last();
                assert(url_encoded(bytes)[i] == e[i - pre.len()]);
                if !unreserved(b) && b != 32 {
                    let hi = (b / 16) as nat;
                    let lo = (b % 16) as nat;
                    assert(query_safe(hex_digit_upper(hi)));
                    assert(query_safe(hex_digit_upper(lo)));
                }
            }
        }
    }
}

/// A query is encoded byte by byte: encoding two joined byte strings
/// joins their encodings.
pub proof fn law_url_encoded_joins(a: Seq<u8>, b: Seq<u8>)
    ensures
        url_encoded(a + b) == url_encoded(a) + url_encoded(b),
    decreases b.len(),
{
    if b.len() == 0 {
        assert(a + b =~= a);
        assert(url_encoded(a) + url_encoded(b) =~= url_encoded(a));
    } else {
        law_url_encoded_joins(a, b.drop_last());
        assert((a + b).drop_last() =~= a + b.drop_last());
        assert((a + b).last() == b.last());
        assert(url_encoded(a) + url_encoded(b) =~= url_encoded(a) + url_encoded(b.drop_last())
            + encoded_byte(b.last()));
    }
}

/// In a query a space is written `+`, a byte that is not a letter, a digit
/// or one of `-_.~` (nor a space) is written `%` and its two upper-case
/// hexadecimal digits, and the rest of the query is encoded around it.
pub proof fn law_url_encoded_space_and_escapes(a: Seq<u8>, b: Seq<u8>, x: u8)
    ensures
        url_encoded(a + seq![32u8] + b) == url_encoded(a) + seq!['+'] + url_encoded(b),
        !unreserved(x) && x != 32 ==> ({
            let e = url_encoded(a + seq![x] + b).subrange(
                url_encoded(a).len() as int,
                url_encoded(a).len() + 3int,
            );
            &&& e[0] == '%'
            &&& upper_hex(e[1]) && upper_hex(e[2])
            &&& hex_value(e[1]) * 16 + hex_value(e[2]) == x
        }),
{
    law_url_encoded_joins(a + seq![32u8], b);
    law_url_encoded_joins(a, seq![32u8]);
    law_url_encoded_joins(a + seq![x], b);
    law_url_encoded_joins(a, seq![x]);
    assert(url_encoded(seq![32u8]) =~= seq!['+']) by {
        let e = Seq::<u8>::empty();
        assert(seq![32u8].drop_last() =~= e);
        assert(url_encoded(e) == Seq::<char>::empty());
        assert(seq![32u8].last() == 32u8);
        assert(!unreserved(32u8));
        assert(url_encoded(seq![32u8]) == url_encoded(e) + encoded_byte(32u8));
    }
    assert(url_encoded(seq![x]) =~= encoded_byte(x)) by {
        let e = Seq::<u8>::empty();
        assert(seq![x].drop_last() =~= e);
        assert(url_encoded(e) == Seq::<char>::empty());
        assert(seq![x].last() == x);
        assert(url_encoded(seq![x]) == url_encoded(e) + encoded_byte(x));
    }
    if !unreserved(x) && x != 32 {
        let hi = (x / 16) as nat;
        let lo = (x % 16) as nat;
        lemma_hex_digit_upper(hi);
        lemma_hex_digit_upper(lo);
        let whole = url_encoded(a + seq![x] + b);
        assert(whole =~= url_encoded(a) + encoded_byte(x) + url_encoded(b));
        assert(whole.subrange(url_encoded(a).len() as int, url_encoded(a).len() + 3int)
            =~= encoded_byte(x));
    }
}

/// A query made only of letters, digits and `-_.~` is left as it is.
pub proof fn law_unreserved_text_is_unchanged(bytes: Seq<u8>)
    requires
        forall|i: int| 0 <= i < bytes.len() ==> unreserved(#[trigger] bytes[i]),
    ensures
        url_encoded(bytes) == bytes.map_values(|b: u8| b as char),
    decreases bytes.len(),
{
    if bytes.len() > 0 {
        let pre = bytes.drop_last();
        assert forall|i: int| 0 <= i < pre.len() implies unreserved(#[trigger] pre[i]) by {
            assert(pre[i] == bytes[i]);
        }
        law_unreserved_text_is_unchanged(pre);
        assert(bytes.map_values(|b: u8| b as char) =~= pre.map_values(|b: u8| b as char).push(
            bytes.last() as char,
        ));
        assert(unreserved(bytes[bytes.len() - 1]));
    }
}

/// `c` is an upper-case hexadecimal digit.
pub open spec fn upper_hex(c: char) -> bool {
    ('0' <= c && c <= '9') || ('A' <= c && c <= 'F')
}

/// The value of an upper-case hexadecimal digit.
pub open spec fn hex_value(c: char) -> nat {
    if '0' <= c && c <= '9' {
        ((c as u32) - 48) as nat
    } else {
        ((c as u32) - 55) as nat
    }
}

/// Form decoding: `+` is a space, `%` and two hexadecimal digits the byte
/// they write, any other character its own code.
pub open spec fn form_decoded(cs: Seq<char>) -> Seq<u8>
    decreases cs.len(),
{
    if cs.len() == 0 {
        Seq::empty()
    } else if cs[0] == '+' {
        seq![32u8] + form_decoded(cs.drop_first())
    } else if cs[0] == '%' && cs.len() >= 3 {
        seq![(hex_value(cs[1]) * 16 + hex_value(cs[2])) as u8] + form_decoded(cs.skip(3))
    } else {
        seq![cs[0] as u8] + form_decoded(cs.drop_first())
    }
}

proof fn lemma_hex_digit_upper(d: nat)
    requires
        d < 16,
    ensures
        upper_hex(hex_digit_upper(d)),
        hex_value(hex_digit_upper(d)) == d,
        hex_digit_upper(d) != '%',
{
}

proof fn lemma_unreserved_char(b: u8)
    requires
        unreserved(b),
    ensures
        (b as char) as u8 == b,
        b as char != '+',
        b as char != '%',
{
}

proof fn lemma_decode_encoded_byte(b: u8, y: Seq<char>)
    ensures
        form_decoded(encoded_byte(b) + y) == seq![b] + form_decoded(y),
{
    let x = encoded_byte(b) + y;
    if unreserved(b) {
        lemma_unreserved_char(b);
        assert(x[0] == b as char);
        assert(x.drop_first() =~= y);
    } else if b == 32 {
        assert(x[0] == '+');
        assert(x.drop_first() =~= y);
    } else {
        let hi = (b / 16) as nat;
        let lo = (b % 16) as nat;
        lemma_hex_digit_upper(hi);
        lemma_hex_digit_upper(lo);
        assert(x[0] == '%');
        assert(x[1] == hex_digit_upper(hi));
        assert(x[2] == hex_digit_upper(lo));
        assert(x.skip(3) =~= y);
        assert(hi * 16 + lo == b);
    }
}

proof fn lemma_decode_encoded(bytes: Seq<u8>, y: Seq<char>)
    ensures
        form_decoded(url_encoded(bytes) + y) == bytes + form_decoded(y),
    decreases bytes.len(),
{
    if bytes.len() == 0 {
        assert(url_encoded(bytes) + y =~= y);
        assert(bytes + form_decoded(y) =~= form_decoded(y));
    } else {
        let pre = bytes.drop_last();
        let b = bytes.last();
        let e = encoded_byte(b);
        assert(url_encoded(bytes) + y =~= url_encoded(pre) + (e + y));
        lemma_decode_encoded(pre, e + y);
        lemma_decode_encoded_byte(b, y);
        assert(pre + (seq![b] + form_decoded(y)) =~= bytes + form_decoded(y));
    }
}

/// Form-decoding an encoded query gives back its bytes, so different
/// texts never become the same query.
pub proof fn law_url_encoded_decodes_back(a: Seq<u8>, b: Seq<u8>)
    ensures
        form_decoded(url_encoded(a)) == a,
        url_encoded(a) == url_encoded(b) ==> a == b,
{
    let e = Seq::<char>::empty();
    assert(url_encoded(a) + e =~= url_encoded(a));
    assert(url_encoded(b) + e =~= url_encoded(b));
    assert(form_decoded(e) =~= Seq::<u8>::empty());
    lemma_decode_encoded(a, e);
    lemma_decode_encoded(b, e);
    assert(a + Seq::<u8>::empty() =~= a);
    assert(b + Seq::<u8>::empty() =~= b);
}

/// In an encoded query every `%` is followed by two upper-case
/// hexadecimal digits.
pub proof fn law_url_encoded_percent_digits(bytes: Seq<u8>)
    ensures
        forall|i: int|
            0 <= i < url_encoded(bytes).len() && #[trigger] url_encoded(bytes)[i] == '%' ==> i + 2
                < url_encoded(bytes).len() && upper_hex(url_encoded(bytes)[i + 1]) && upper_hex(
                url_encoded(bytes)[i + 2],
            ),
    decreases bytes.len(),
{
    if bytes.len() > 0 {
        let pre = bytes.drop_last();
        law_url_encoded_percent_digits(pre);
        let b = bytes.last();
        let e = encoded_byte(b);
        let p = url_encoded(pre);
        let x = url_encoded(bytes);
        assert(x == p + e);
        assert forall|i: int| 0 <= i < x.len() && #[trigger] x[i] == '%' implies i + 2 < x.len()
            && upper_hex(x[i + 1]) && upper_hex(x[i + 2]) by {
            if i < p.len() {
                assert(x[i] == p[i]);
                assert(x[i + 1] == p[i + 1]);
                assert(x[i + 2] == p[i + 2]);
            } else {
                assert(x[i] == e[i - p.len()]);
                if unreserved(b) {
                    lemma_unreserved_char(b);
                } else if b != 32 {
                    let hi = (b / 16) as nat;
                    let lo = (b % 16) as nat;
                    lemma_hex_digit_upper(hi);
                    lemma_hex_digit_upper(lo);
                    assert(i == p.len());
                    assert(x[i + 1] == e[1]);
                    assert(x[i + 2] == e[2]);
                }
            }
        }
    }
}

// ---------------------------------------------------------------------------
// The address bar
// ---------------------------------------------------------------------------

/// What the (trimmed, non-empty) text of the address bar is sent to: an
/// explicit scheme as it stands; something with a dot and no space over
/// `https://`; anything else as a DuckDuckGo search.
pub open spec fn address_candidate(t: Seq<char>) -> Seq<char> {
    if has_infix(t, "://"@) {
        t
    } else if has_infix(t, "."@) && !has_infix(t, " "@) {
        "https://"@ + t
    } else {
        "https://duckduckgo.com/html/?q="@ + url_encoded(encode_utf8(t))
    }
}

/// The text to parse for what was typed: `None` when only white space was
/// typed, else the candidate address.
pub fn url_candidate(input: &str) -> (r: Option<String>)
    ensures
        r is None <==> trimmed(input@).len() == 0,
        r matches Some(c) ==> c@ == address_candidate(trimmed(input@)),
{
    let t = trim(input);
    if t.as_str().is_empty() {
        return None;
    }
    let ts = t.as_str();
    if contains(ts, "://") {
        Some(t)
    } else if contains(ts, ".") && !contains(ts, " ") {
        let mut c = String::new();
        push_str(&mut c, "https://");
        push_str(&mut c, ts);
        Some(c)
    } else {
        let mut c = String::new();
        push_str(&mut c, "https://duckduckgo.com/html/?q=");
        let q = urlencode(ts);
        push_str(&mut c, q.as_str());
        Some(c)
    }
}

/// What the address bar leads to, for every input.
pub open spec fn address_result(input: Seq<char>) -> Result<UrlView, Seq<char>> {
    let t = trimmed(input);
    if t.len() == 0 {
        Err("dirección vacía"@)
    } else {
        url_parse(address_candidate(t))
    }
}

/// Turns what was typed in the address bar into a URL.
pub fn to_url(input: &str) -> (r: Result<WebUrl, String>)
    ensures
        url_result_view(r) == address_result(input@),
{
    match url_candidate(input) {
        None => Err("dirección vacía".to_string()),
        Some(c) => parse_url(c.as_str()),
    }
}

/// The address bar: blank input is refused; an explicit scheme is parsed
/// as typed (trimmed); something with a dot and no space is tried over
/// `https://`; anything else is searched on DuckDuckGo.
pub proof fn law_address_bar(input: Seq<char>)
    ensures
        trimmed(input).len() == 0 ==> address_result(input) == Err::<UrlView, Seq<char>>("dirección vacía"@),
        trimmed(input).len() > 0 && has_infix(trimmed(input), "://"@) ==> address_result(input)
            == url_parse(trimmed(input)),
        trimmed(input).len() > 0 && !has_infix(trimmed(input), "://"@) && has_infix(
            trimmed(input),
            "."@,
        ) && !has_infix(trimmed(input), " "@) ==> address_result(input) == url_parse(
            "https://"@ + trimmed(input),
        ),
        trimmed(input).len() > 0 && !has_infix(trimmed(input), "://"@) && !(has_infix(
            trimmed(input),
            "."@,
        ) && !has_infix(trimmed(input), " "@)) ==> address_result(input) == url_parse(
            "https://duckduckgo.com/html/?q="@ + url_encoded(encode_utf8(trimmed(input))),
        ),
{
}

// ---------------------------------------------------------------------------
// The home page
// ---------------------------------------------------------------------------

/// Start of the blank home page, up to the paper colour.
pub const HOME_HEAD: &'static str = "data:text/html,%3Chtml%20style%3D%22background:";

/// End of the blank home page, after the paper colour.
pub const HOME_TAIL: &'static str = "%22%3E%3C/html%3E";

/// The blank home page: a `data:` page whose background is the paper
/// colour, its `#` written `%23`.
pub open spec fn home_page(paper: Seq<char>) -> Seq<char> {
    HOME_HEAD@ + replace_all(paper, "#"@, "%23"@) + HOME_TAIL@
}

/// Replacing every `#` by a text without `#` leaves no `#`.
pub proof fn lemma_replace_hash(s: Seq<char>, to: Seq<char>)
    requires
        !to.contains('#'),
    ensures
        !replace_all(s, "#"@, to).contains('#'),
    decreases s.len(),
{
    reveal_strlit("#");
    let p = "#"@;
    if s.len() > 0 {
        if s.take(1) == p {
            lemma_replace_hash(s.skip(1), to);
            let r = replace_all(s.skip(1), p, to);
            assert(replace_all(s, p, to) == to + r);
            assert forall|i: int| 0 <= i < (to + r).len() implies (to + r)[i] != '#' by {
                if i < to.len() {
                    assert((to + r)[i] == to[i]);
                } else {
                    assert((to + r)[i] == r[i - to.len()]);
                }
            }
        } else {
            lemma_replace_hash(s.skip(1), to);
            let r = replace_all(s.skip(1), p, to);
            assert(s.take(1) =~= seq![s[0]]);
            assert(s[0] != '#') by {
                if s[0] == '#' {
                    assert(s.take(1) =~= p);
                }
            }
            assert(replace_all(s, p, to) == seq![s[0]] + r);
            assert forall|i: int| 0 <= i < (seq![s[0]] + r).len() implies (seq![s[0]] + r)[i]
                != '#' by {
                if i > 0 {
                    assert((seq![s[0]] + r)[i] == r[i - 1]);
                }
            }
        }
    }
}

/// The paper colour goes into the home page with its `#` escaped: no raw
/// `#` of the colour is left to start a fragment.
pub proof fn law_home_page_colour_escaped(paper: Seq<char>)
    ensures
        !replace_all(paper, "#"@, "%23"@).contains('#'),
        home_page(paper) == HOME_HEAD@ + replace_all(paper, "#"@, "%23"@) + HOME_TAIL@,
{
    reveal_strlit("%23");
    assert(!"%23"@.contains('#'));
    lemma_replace_hash(paper, "%23"@);
}

/// The text of the blank home page for the paper colour `paper`.
pub fn home_page_text(paper: &str) -> (r: String)
    ensures
        r@ == home_page(paper@),
{
    proof {
        reveal_strlit("#");
    }
    let mut r = String::new();
    push_str(&mut r, HOME_HEAD);
    let p = replace(paper, "#", "%23");
    push_str(&mut r, p.as_str());
    push_str(&mut r, HOME_TAIL);
    r
}

/// The URL of the blank home page.
pub fn home_url(paper: &str) -> (r: Result<WebUrl, String>)
    ensures
        url_result_view(r) == url_parse(home_page(paper@)),
{
    let page = home_page_text(paper);
    parse_url(page.as_str())
}

} // verus!
