//! JSON string literals, as `serde_json` writes them, for the scripts that
//! are handed to the pages and to the interface.

use vstd::prelude::*;

verus! {

/// Lower-case hexadecimal digit of `d < 16`.
pub open spec fn hex_digit_lower(d: nat) -> char {
    if d < 10 {
        (48 + d) as char
    } else {
        (87 + d) as char
    }
}

/// How one character is written inside a JSON string: `"` and `\` after a
/// backslash; backspace, tab, line feed, form feed and carriage return as
/// `\b \t \n \f \r`; the other control characters below U+0020 as
/// `\u00` and two lower-case hex digits; anything else as itself.
pub open spec fn json_escape(c: char) -> Seq<char> {
    let n = c as u32;
    if c == '"' {
        seq!['\\', '"']
    } else if c == '\\' {
        seq!['\\', '\\']
    } else if n == 0x08 {
        seq!['\\', 'b']
    } else if n == 0x09 {
        seq!['\\', 't']
    } else if n == 0x0A {
        seq!['\\', 'n']
    } else if n == 0x0C {
        seq!['\\', 'f']
    } else if n == 0x0D {
        seq!['\\', 'r']
    } else if n < 0x20 {
        seq!['\\', 'u', '0', '0', hex_digit_lower((n / 16) as nat), hex_digit_lower((n % 16) as nat)]
    } else {
        seq![c]
    }
}

/// The characters of `s`, each written as inside a JSON string.
pub open spec fn json_escaped(s: Seq<char>) -> Seq<char>
    decreases s.len(),
{
    if s.len() == 0 {
        Seq::empty()
    } else {
        json_escaped(s.drop_last()) + json_escape(s.last())
    }
}

/// The JSON text that `serde_json::to_string` writes for the string `s`:
/// `s` between double quotes, with its special characters escaped.
pub open spec fn json_str(s: Seq<char>) -> Seq<char> {
    seq!['"'] + json_escaped(s) + seq!['"']
}

/// Escaping brings in no character of `c`'s kind that the text lacked,
/// for any `c` that is not a backslash, a quote, a letter or a digit.
pub proof fn lemma_json_escaped_lacks(s: Seq<char>, c: char)
    requires
        !s.contains(c),
        c != '\\',
        c != '"',
        !('0' <= c && c <= '9'),
        !('a' <= c && c <= 'z'),
    ensures
        !json_escaped(s).contains(c),
    decreases s.len(),
{
    if s.len() > 0 {
        let pre = s.drop_last();
        assert(!pre.contains(c)) by {
            if pre.contains(c) {
                let i = choose|i: int| 0 <= i < pre.len() && pre[i] == c;
                assert(s[i] == c);
            }
        }
        lemma_json_escaped_lacks(pre, c);
        let e = json_escape(s.last());
        assert(s.last() != c) by {
            assert(s[s.len() - 1] == s.last());
        }
        let n = s.last() as u32;
        assert(!e.contains(c)) by {
            if n < 0x20 && n != 0x08 && n != 0x09 && n != 0x0A && n != 0x0C && n != 0x0D {
                assert(e[4] == hex_digit_lower((n / 16) as nat));
                assert(e[5] == hex_digit_lower((n % 16) as nat));
            }
        }
        let r = json_escaped(s);
        assert(r == json_escaped(pre) + e);
        assert forall|i: int| 0 <= i < r.len() implies r[i] != c by {
            if i < json_escaped(pre).len() {
                assert(r[i] == json_escaped(pre)[i]);
            } else {
                assert(r[i] == e[i - json_escaped(pre).len()]);
            }
        }
    }
}

/// A JSON string literal begins and ends with a quote, and brings in no
/// character of `c`'s kind that the text lacked, for any `c` that is not a
/// backslash, a quote, a letter or a digit.
pub proof fn lemma_json_str_lacks(s: Seq<char>, c: char)
    requires
        !s.contains(c),
        c != '\\',
        c != '"',
        !('0' <= c && c <= '9'),
        !('a' <= c && c <= 'z'),
    ensures
        !json_str(s).contains(c),
        json_str(s).len() >= 2,
        json_str(s)[0] == '"',
        json_str(s).last() == '"',
{
    lemma_json_escaped_lacks(s, c);
    let e = json_escaped(s);
    let r = json_str(s);
    assert forall|i: int| 0 <= i < r.len() implies r[i] != c by {
        if 0 < i < r.len() - 1 {
            assert(r[i] == e[i - 1]);
        }
    }
}

/// The JSON array of the given strings, written without spaces.
pub open spec fn json_str_array(items: Seq<Seq<char>>) -> Seq<char> {
    "["@ + json_str_items(items) + "]"@
}

/// The JSON texts of `items`, separated by commas.
pub open spec fn json_str_items(items: Seq<Seq<char>>) -> Seq<char>
    decreases items.len(),
{
    if items.len() == 0 {
        Seq::empty()
    } else if items.len() == 1 {
        json_str(items[0])
    } else {
        json_str_items(items.drop_last()) + ","@ + json_str(items.last())
    }
}

/// The JSON text of an optional string: `null`, or the string literal.
pub open spec fn json_opt_str(s: Option<Seq<char>>) -> Seq<char> {
    match s {
        Some(t) => json_str(t),
        None => "null"@,
    }
}

/// `serde_json::to_string` on a string slice: the string between quotes,
/// escaped as `json_escape` says (the compact formatter's escaping).
/// Serializing a `str` into a `String` cannot fail, so the `Ok` value is
/// taken.
#[verifier::external_body]
pub(crate) fn to_json_str(s: &str) -> (r: String)
    ensures
        r@ == json_str(s@),
{
    serde_json::to_string(s).unwrap()
}

/// `serde_json::to_string` on a slice of string slices: a `[`, the string
/// literals separated by `,`, and a `]` (the compact formatter writes no
/// spaces).
#[verifier::external_body]
pub(crate) fn to_json_str_array(items: &[&str]) -> (r: String)
    ensures
        r@ == json_str_array(items@.map_values(|t: &str| t@)),
{
    serde_json::to_string(items).unwrap()
}

/// `serde_json::to_string` on an optional string: `null` for `None`, the
/// string literal of the value for `Some`.
#[verifier::external_body]
pub(crate) fn to_json_opt_str(s: &Option<String>) -> (r: String)
    ensures
        r@ == json_opt_str(s.deep_view()),
{
    serde_json::to_string(s).unwrap()
}

} // verus!
