//! The ink mode: the theme colours, the ink style sheet and the script that
//! applies it to every page.

use vstd::prelude::*;

use crate::json::{json_str, lemma_json_str_lacks, to_json_str};
use crate::text::{
    chars_of, has_infix, lemma_lacking_char_no_infix, lemma_replace_emits, lemma_replace_keeps,
    lemma_replace_removes, occurs_at, push_str, replace, replace_all, replace_char_absent,
    replace_char_concat, replace_char_single,
};

verus! {

/// `c` is an ASCII hexadecimal digit (`char::is_ascii_hexdigit`).
pub open spec fn hex_digit(c: char) -> bool {
    ('0' <= c && c <= '9') || ('a' <= c && c <= 'f') || ('A' <= c && c <= 'F')
}

/// A colour written `#rrggbb`: the only theme colours accepted.
pub open spec fn hex_color(s: Seq<char>) -> bool {
    &&& s.len() == 7
    &&& s[0] == '#'
    &&& forall|i: int| 1 <= i < 7 ==> hex_digit(#[trigger] s[i])
}

/// Whether `c` is a colour written `#rrggbb`.
pub fn valid_hex(c: &str) -> (b: bool)
    ensures
        b == hex_color(c@),
{
    let v = chars_of(c);
    if v.len() != 7 || v[0] != '#' {
        return false;
    }
    let mut i: usize = 1;
    while i < 7
        invariant
            v@ == c@,
            v.len() == 7,
            1 <= i <= 7,
            forall|k: int| 1 <= k < i ==> hex_digit(#[trigger] v@[k]),
        decreases 7 - i,
    {
        let ch = v[i];
        if !(('0' <= ch && ch <= '9') || ('a' <= ch && ch <= 'f') || ('A' <= ch && ch <= 'F')) {
            return false;
        }
        i += 1;
    }
    true
}

/// Ink sheet, up to the paper colour of the page background.
pub const INK_CSS_0: &'static str = "\
html { background: ";

/// Ink sheet, between the page background and the ink of the text.
pub const INK_CSS_1: &'static str = " !important; }\
*, *::before, *::after {\
  background-color: transparent !important;\
  background-image: none !important;\
  color: ";

/// Ink sheet, between the ink of the text and the ink of the borders.
pub const INK_CSS_2: &'static str = " !important;\
  font-family: ui-monospace, Menlo, Monaco, Consolas, 'DejaVu Sans Mono', monospace !important;\
  text-shadow: none !important;\
  box-shadow: none !important;\
  border-color: ";

/// Ink sheet, between the ink of the borders and the paper of the body.
pub const INK_CSS_3: &'static str = " !important;\
  border-radius: 0 !important;\
}\
body { background: ";

/// Ink sheet, between the paper of the body and the ink of the links.
pub const INK_CSS_4: &'static str = " !important; }\
a, a * { color: ";

/// Ink sheet, between the ink of the links and the paper of floating panels.
pub const INK_CSS_5: &'static str = " !important; text-decoration: underline !important; }\
img, video, canvas, svg, iframe { filter: grayscale(1) sepia(0.12) contrast(1.05) !important; }\
select, option, optgroup, datalist, dialog, [popover],\
[role='dialog'], [role='alertdialog'], [role='menu'], [role='menubar'],\
[role='listbox'], [role='tooltip'], [role='combobox']\
{ background-color: ";

/// Ink sheet, after the paper of floating panels.
pub const INK_CSS_6: &'static str = " !important; }\
";

/// Script that adopts the ink sheet in every page and paints floating
/// elements with opaque paper; its `__CSS__`, `__PAPER__` and `__INK__`
/// holes take JSON literals.
pub const INK_JS: &'static str = "\
(function() {\
  var CSS = __CSS__;\
  window.__core_paper = __PAPER__;\
  window.__core_ink = __INK__;\
  function apply() {\
    try {\
      if (!window.__core_sheet) {\
        window.__core_sheet = new CSSStyleSheet();\
      }\
      window.__core_sheet.replaceSync(CSS);\
      if (!document.adoptedStyleSheets.includes(window.__core_sheet)) {\
        document.adoptedStyleSheets = [...document.adoptedStyleSheets, window.__core_sheet];\
      }\
    } catch (e) {\
      if (!document.documentElement) return;\
      var s = document.getElementById('__core_ink');\
      if (!s) {\
        s = document.createElement('style');\
        s.id = '__core_ink';\
        document.documentElement.appendChild(s);\
      }\
      s.textContent = CSS;\
    }\
  }\
  function floats(el) {\
    var cs = getComputedStyle(el);\
    if (cs.pointerEvents === 'none' || cs.visibility === 'hidden') return null;\
    if (cs.position === 'fixed') return 'panel';\
    if (cs.position === 'sticky') return 'barra';\
    if (cs.position === 'absolute' && parseInt(cs.zIndex, 10) >= 10) return 'panel';\
    return null;\
  }\
  function fixup(root) {\
    if (!root.querySelectorAll) return;\
    root.querySelectorAll('*').forEach(function (el) {\
      if (el.shadowRoot) {\
        try {\
          if (window.__core_sheet && !el.shadowRoot.adoptedStyleSheets.includes(window.__core_sheet)) {\
            el.shadowRoot.adoptedStyleSheets = [...el.shadowRoot.adoptedStyleSheets, window.__core_sheet];\
          }\
        } catch (e) {}\
        fixup(el.shadowRoot);\
      }\
      var f = floats(el);\
      if (f) {\
        var want = f + window.__core_paper + window.__core_ink;\
        if (el.__core_float === want) return;\
        el.__core_float = want;\
        el.style.setProperty('background-color', window.__core_paper, 'important');\
        if (f === 'panel') {\
          el.style.setProperty('outline', '1px solid ' + window.__core_ink, 'important');\
        } else {\
          el.style.removeProperty('outline');\
        }\
      } else if (el.__core_float) {\
        el.__core_float = null;\
        el.style.removeProperty('background-color');\
        el.style.removeProperty('outline');\
      }\
    });\
  }\
  var queued = false;\
  function schedule() {\
    if (queued) return;\
    queued = true;\
    requestAnimationFrame(function () {\
      queued = false;\
      fixup(document);\
    });\
  }\
  apply();\
  fixup(document);\
  if (!window.__core_watch) {\
    window.__core_watch = true;\
    document.addEventListener('DOMContentLoaded', function () {\
      apply();\
      fixup(document);\
      new MutationObserver(schedule).observe(document.documentElement, {\
        childList: true, subtree: true, attributes: true, attributeFilter: ['style', 'class']\
      });\
    });\
  }\
})();";


/// The ink style sheet for the theme (`paper`, `ink`): both colours,
/// monospace type, grey-scale images, opaque paper under floating panels.
pub open spec fn ink_sheet(paper: Seq<char>, ink: Seq<char>) -> Seq<char> {
    INK_CSS_0@ + paper + INK_CSS_1@ + ink + INK_CSS_2@ + ink + INK_CSS_3@ + paper + INK_CSS_4@
        + ink + INK_CSS_5@ + paper + INK_CSS_6@
}

/// The fixed text of the ink sheet, around its six colour slots.
pub open spec fn ink_sheet_frame() -> Seq<Seq<char>> {
    seq![INK_CSS_0@, INK_CSS_1@, INK_CSS_2@, INK_CSS_3@, INK_CSS_4@, INK_CSS_5@, INK_CSS_6@]
}

/// `frame[0] + fills[0] + frame[1] + … + fills[n-1] + frame[n]`.
pub open spec fn interleave(frame: Seq<Seq<char>>, fills: Seq<Seq<char>>) -> Seq<char>
    recommends
        frame.len() == fills.len() + 1,
    decreases fills.len(),
{
    if fills.len() == 0 {
        frame[0]
    } else {
        interleave(frame.drop_last(), fills.drop_last()) + fills.last() + frame.last()
    }
}

/// The ink sheet is a fixed frame whose six slots hold the paper colour
/// (page background, body background, floating panels) and the ink colour
/// (text, borders, links), each written as it is, three times each; no
/// other part of the sheet depends on the theme.
pub proof fn law_ink_sheet_slots(paper: Seq<char>, ink: Seq<char>)
    ensures
        ink_sheet(paper, ink) == interleave(
            ink_sheet_frame(),
            seq![paper, ink, ink, paper, ink, paper],
        ),
{
    let f = ink_sheet_frame();
    let g = seq![paper, ink, ink, paper, ink, paper];
    reveal_with_fuel(interleave, 7);
    assert(f.drop_last().drop_last().drop_last().drop_last().drop_last().drop_last() =~= seq![
        INK_CSS_0@,
    ]);
    assert(g.drop_last().drop_last().drop_last().drop_last().drop_last().drop_last()
        =~= Seq::<Seq<char>>::empty());
    assert(ink_sheet(paper, ink) =~= interleave(f, g));
}

/// How many times `c` occurs in `s`.
pub open spec fn count_char(s: Seq<char>, c: char) -> nat
    decreases s.len(),
{
    if s.len() == 0 {
        0
    } else {
        count_char(s.drop_last(), c) + if s.last() == c {
            1nat
        } else {
            0nat
        }
    }
}

proof fn lemma_count_concat(a: Seq<char>, b: Seq<char>, c: char)
    ensures
        count_char(a + b, c) == count_char(a, c) + count_char(b, c),
    decreases b.len(),
{
    if b.len() == 0 {
        assert(a + b =~= a);
    } else {
        lemma_count_concat(a, b.drop_last(), c);
        assert((a + b).drop_last() =~= a + b.drop_last());
        assert((a + b).last() == b.last());
    }
}

proof fn lemma_count_absent(a: Seq<char>, c: char)
    requires
        !a.contains(c),
    ensures
        count_char(a, c) == 0,
    decreases a.len(),
{
    if a.len() > 0 {
        assert(!a.drop_last().contains(c)) by {
            if a.drop_last().contains(c) {
                let i = choose|i: int| 0 <= i < a.drop_last().len() && a.drop_last()[i] == c;
                assert(a[i] == c);
            }
        }
        lemma_count_absent(a.drop_last(), c);
        assert(a[a.len() - 1] == a.last());
    }
}

/// The six colour slots with the two marks U+0001 (paper) and U+0002 (ink).
pub open spec fn marked_sheet() -> Seq<char> {
    ink_sheet(seq!['\u{1}'], seq!['\u{2}'])
}

proof fn lemma_replace_interleave(
    frame: Seq<Seq<char>>,
    fills: Seq<Seq<char>>,
    c: char,
    t: Seq<char>,
    out: Seq<Seq<char>>,
)
    requires
        frame.len() == fills.len() + 1,
        out.len() == fills.len(),
        forall|k: int| 0 <= k < frame.len() ==> !(#[trigger] frame[k]).contains(c),
        forall|k: int|
            0 <= k < fills.len() ==> ((#[trigger] fills[k] == seq![c] && out[k] == t) || (
            !fills[k].contains(c) && out[k] == fills[k])),
    ensures
        replace_all(interleave(frame, fills), seq![c], t) == interleave(frame, out),
    decreases fills.len(),
{
    if fills.len() == 0 {
        replace_char_absent(frame[0], c, t);
    } else {
        let f0 = frame.drop_last();
        let g0 = fills.drop_last();
        let o0 = out.drop_last();
        assert forall|k: int| 0 <= k < f0.len() implies !(#[trigger] f0[k]).contains(c) by {
            assert(f0[k] == frame[k]);
        }
        assert forall|k: int|
            0 <= k < g0.len() implies ((#[trigger] g0[k] == seq![c] && o0[k] == t) || (
            !g0[k].contains(c) && o0[k] == g0[k])) by {
            assert(g0[k] == fills[k]);
            assert(o0[k] == out[k]);
        }
        lemma_replace_interleave(f0, g0, c, t, o0);
        let a = interleave(f0, g0);
        let g = fills.last();
        let f = frame.last();
        replace_char_concat(a + g, f, c, t);
        replace_char_concat(a, g, c, t);
        replace_char_absent(f, c, t);
        assert(fills[fills.len() - 1] == g);
        assert(frame[frame.len() - 1] == f);
        if g == seq![c] {
            replace_char_single(c, t);
        } else {
            replace_char_absent(g, c, t);
        }
        assert(out[out.len() - 1] == out.last());
    }
}

proof fn lemma_count_interleave(frame: Seq<Seq<char>>, fills: Seq<Seq<char>>, c: char)
    requires
        frame.len() == fills.len() + 1,
        forall|k: int| 0 <= k < frame.len() ==> !(#[trigger] frame[k]).contains(c),
    ensures
        count_char(interleave(frame, fills), c) == count_fills(fills, c),
    decreases fills.len(),
{
    if fills.len() == 0 {
        lemma_count_absent(frame[0], c);
    } else {
        let f0 = frame.drop_last();
        assert forall|k: int| 0 <= k < f0.len() implies !(#[trigger] f0[k]).contains(c) by {
            assert(f0[k] == frame[k]);
        }
        lemma_count_interleave(f0, fills.drop_last(), c);
        let a = interleave(f0, fills.drop_last());
        lemma_count_concat(a + fills.last(), frame.last(), c);
        lemma_count_concat(a, fills.last(), c);
        assert(frame[frame.len() - 1] == frame.last());
        lemma_count_absent(frame.last(), c);
    }
}

/// How many times `c` occurs in the fills, all together.
pub open spec fn count_fills(fills: Seq<Seq<char>>, c: char) -> nat
    decreases fills.len(),
{
    if fills.len() == 0 {
        0
    } else {
        count_fills(fills.drop_last(), c) + count_char(fills.last(), c)
    }
}

/// The ink sheet of any theme is the sheet with the two marks, in which
/// U+0001 is replaced by the paper colour and then U+0002 by the ink colour
/// (when the paper holds no U+0002); each mark occurs exactly three times,
/// so each colour is written as it is three times and nothing else in the
/// sheet depends on the theme.
pub proof fn law_ink_sheet_from_marks(paper: Seq<char>, ink: Seq<char>)
    requires
        !paper.contains('\u{2}'),
    ensures
        ink_sheet(paper, ink) == replace_all(
            replace_all(marked_sheet(), seq!['\u{1}'], paper),
            seq!['\u{2}'],
            ink,
        ),
        count_char(marked_sheet(), '\u{1}') == 3,
        count_char(marked_sheet(), '\u{2}') == 3,
{
    let m1 = seq!['\u{1}'];
    let m2 = seq!['\u{2}'];
    let f = ink_sheet_frame();
    lemma_sheet_pieces_lack('\u{1}');
    lemma_sheet_pieces_lack('\u{2}');
    assert(forall|k: int| 0 <= k < f.len() ==> !(#[trigger] f[k]).contains('\u{1}'));
    assert(forall|k: int| 0 <= k < f.len() ==> !(#[trigger] f[k]).contains('\u{2}'));
    law_ink_sheet_slots(m1, m2);
    law_ink_sheet_slots(paper, m2);
    law_ink_sheet_slots(paper, ink);
    let g1 = seq![m1, m2, m2, m1, m2, m1];
    let g2 = seq![paper, m2, m2, paper, m2, paper];
    let g3 = seq![paper, ink, ink, paper, ink, paper];
    assert(!m2.contains('\u{1}'));
    assert(!m1.contains('\u{2}'));
    lemma_replace_interleave(f, g1, '\u{1}', paper, g2);
    lemma_replace_interleave(f, g2, '\u{2}', ink, g3);
    lemma_count_interleave(f, g1, '\u{1}');
    lemma_count_interleave(f, g1, '\u{2}');
    reveal_with_fuel(count_fills, 7);
    reveal_with_fuel(count_char, 2);
    assert(g1.drop_last().drop_last().drop_last().drop_last().drop_last().drop_last()
        =~= Seq::<Seq<char>>::empty());
    assert(m1.drop_last() =~= Seq::<char>::empty());
    assert(m2.drop_last() =~= Seq::<char>::empty());
}

/// The ink style sheet for the theme (`paper`, `ink`).
pub fn ink_css(paper: &str, ink: &str) -> (r: String)
    ensures
        r@ == ink_sheet(paper@, ink@),
{
    let mut r = String::new();
    push_str(&mut r, INK_CSS_0);
    push_str(&mut r, paper);
    push_str(&mut r, INK_CSS_1);
    push_str(&mut r, ink);
    push_str(&mut r, INK_CSS_2);
    push_str(&mut r, ink);
    push_str(&mut r, INK_CSS_3);
    push_str(&mut r, paper);
    push_str(&mut r, INK_CSS_4);
    push_str(&mut r, ink);
    push_str(&mut r, INK_CSS_5);
    push_str(&mut r, paper);
    push_str(&mut r, INK_CSS_6);
    r
}

/// The ink script for the theme: the sheet, the paper and the ink, each as
/// a JSON literal, in the holes of the script, in that order.
pub open spec fn ink_script(paper: Seq<char>, ink: Seq<char>) -> Seq<char> {
    replace_all(
        replace_all(
            replace_all(INK_JS@, "__CSS__"@, json_str(ink_sheet(paper, ink))),
            "__PAPER__"@,
            json_str(paper),
        ),
        "__INK__"@,
        json_str(ink),
    )
}

/// No piece of the ink sheet holds an underscore, nor the control
/// characters U+0001 and U+0002.
proof fn lemma_sheet_pieces_lack(c: char)
    requires
        c == '_' || c == '\u{1}' || c == '\u{2}',
    ensures
        !INK_CSS_0@.contains(c),
        !INK_CSS_1@.contains(c),
        !INK_CSS_2@.contains(c),
        !INK_CSS_3@.contains(c),
        !INK_CSS_4@.contains(c),
        !INK_CSS_5@.contains(c),
        !INK_CSS_6@.contains(c),
{
    reveal_strlit("\
html { background: ");
    assert(INK_CSS_0@ == "\
html { background: "@);
    reveal_strlit(" !important; }\
*, *::before, *::after {\
  background-color: transparent !important;\
  background-image: none !important;\
  color: ");
    assert(INK_CSS_1@ == " !important; }\
*, *::before, *::after {\
  background-color: transparent !important;\
  background-image: none !important;\
  color: "@);
    reveal_strlit(" !important;\
  font-family: ui-monospace, Menlo, Monaco, Consolas, 'DejaVu Sans Mono', monospace !important;\
  text-shadow: none !important;\
  box-shadow: none !important;\
  border-color: ");
    assert(INK_CSS_2@ == " !important;\
  font-family: ui-monospace, Menlo, Monaco, Consolas, 'DejaVu Sans Mono', monospace !important;\
  text-shadow: none !important;\
  box-shadow: none !important;\
  border-color: "@);
    reveal_strlit(" !important;\
  border-radius: 0 !important;\
}\
body { background: ");
    assert(INK_CSS_3@ == " !important;\
  border-radius: 0 !important;\
}\
body { background: "@);
    reveal_strlit(" !important; }\
a, a * { color: ");
    assert(INK_CSS_4@ == " !important; }\
a, a * { color: "@);
    reveal_strlit(" !important; text-decoration: underline !important; }\
img, video, canvas, svg, iframe { filter: grayscale(1) sepia(0.12) contrast(1.05) !important; }\
select, option, optgroup, datalist, dialog, [popover],\
[role='dialog'], [role='alertdialog'], [role='menu'], [role='menubar'],\
[role='listbox'], [role='tooltip'], [role='combobox']\
{ background-color: ");
    assert(INK_CSS_5@ == " !important; text-decoration: underline !important; }\
img, video, canvas, svg, iframe { filter: grayscale(1) sepia(0.12) contrast(1.05) !important; }\
select, option, optgroup, datalist, dialog, [popover],\
[role='dialog'], [role='alertdialog'], [role='menu'], [role='menubar'],\
[role='listbox'], [role='tooltip'], [role='combobox']\
{ background-color: "@);
    reveal_strlit(" !important; }\
");
    assert(INK_CSS_6@ == " !important; }\
"@);
}

/// Joining two texts that lack `c` gives a text that lacks `c`.
proof fn lemma_concat_lacks(a: Seq<char>, b: Seq<char>, c: char)
    requires
        !a.contains(c),
        !b.contains(c),
    ensures
        !(a + b).contains(c),
{
    assert forall|i: int| 0 <= i < (a + b).len() implies (a + b)[i] != c by {
        if i < a.len() {
            assert((a + b)[i] == a[i]);
        } else {
            assert((a + b)[i] == b[i - a.len()]);
        }
    }
}

/// A `#rrggbb` colour holds no underscore.
proof fn lemma_hex_color_lacks_underscore(s: Seq<char>)
    requires
        hex_color(s),
    ensures
        !s.contains('_'),
{
    assert forall|i: int| 0 <= i < s.len() implies s[i] != '_' by {
        if i > 0 {
            assert(hex_digit(s[i]));
        }
    }
}

/// With a `#rrggbb` theme the ink sheet holds no underscore.
proof fn lemma_ink_sheet_lacks_underscore(paper: Seq<char>, ink: Seq<char>)
    requires
        hex_color(paper),
        hex_color(ink),
    ensures
        !ink_sheet(paper, ink).contains('_'),
{
    let c = '_';
    lemma_sheet_pieces_lack(c);
    lemma_hex_color_lacks_underscore(paper);
    lemma_hex_color_lacks_underscore(ink);
    lemma_concat_lacks(INK_CSS_0@, paper, c);
    lemma_concat_lacks(INK_CSS_0@ + paper, INK_CSS_1@, c);
    lemma_concat_lacks(INK_CSS_0@ + paper + INK_CSS_1@, ink, c);
    lemma_concat_lacks(INK_CSS_0@ + paper + INK_CSS_1@ + ink, INK_CSS_2@, c);
    lemma_concat_lacks(INK_CSS_0@ + paper + INK_CSS_1@ + ink + INK_CSS_2@, ink, c);
    lemma_concat_lacks(INK_CSS_0@ + paper + INK_CSS_1@ + ink + INK_CSS_2@ + ink, INK_CSS_3@, c);
    lemma_concat_lacks(
        INK_CSS_0@ + paper + INK_CSS_1@ + ink + INK_CSS_2@ + ink + INK_CSS_3@,
        paper,
        c,
    );
    lemma_concat_lacks(
        INK_CSS_0@ + paper + INK_CSS_1@ + ink + INK_CSS_2@ + ink + INK_CSS_3@ + paper,
        INK_CSS_4@,
        c,
    );
    lemma_concat_lacks(
        INK_CSS_0@ + paper + INK_CSS_1@ + ink + INK_CSS_2@ + ink + INK_CSS_3@ + paper
            + INK_CSS_4@,
        ink,
        c,
    );
    lemma_concat_lacks(
        INK_CSS_0@ + paper + INK_CSS_1@ + ink + INK_CSS_2@ + ink + INK_CSS_3@ + paper
            + INK_CSS_4@ + ink,
        INK_CSS_5@,
        c,
    );
    lemma_concat_lacks(
        INK_CSS_0@ + paper + INK_CSS_1@ + ink + INK_CSS_2@ + ink + INK_CSS_3@ + paper
            + INK_CSS_4@ + ink + INK_CSS_5@,
        paper,
        c,
    );
    lemma_concat_lacks(
        INK_CSS_0@ + paper + INK_CSS_1@ + ink + INK_CSS_2@ + ink + INK_CSS_3@ + paper
            + INK_CSS_4@ + ink + INK_CSS_5@ + paper,
        INK_CSS_6@,
        c,
    );
}

/// With a `#rrggbb` theme, every hole of the ink script is filled: no
/// `__CSS__`, `__PAPER__` or `__INK__` is left in it.
pub proof fn law_ink_script_fills_every_hole(paper: Seq<char>, ink: Seq<char>)
    requires
        hex_color(paper),
        hex_color(ink),
    ensures
        !has_infix(ink_script(paper, ink), "__CSS__"@),
        !has_infix(ink_script(paper, ink), "__PAPER__"@),
        !has_infix(ink_script(paper, ink), "__INK__"@),
{
    reveal_strlit("__CSS__");
    reveal_strlit("__PAPER__");
    reveal_strlit("__INK__");
    let p1 = "__CSS__"@;
    let p2 = "__PAPER__"@;
    let p3 = "__INK__"@;
    assert(p1[0] == '_' && p2[0] == '_' && p3[0] == '_');
    assert(!p1.contains('"') && !p2.contains('"') && !p3.contains('"'));
    assert(p1 != p2 && p2 != p3 && p1 != p3) by {
        assert(p1.len() != p2.len());
        assert(p2.len() != p3.len());
        assert(p1[2] != p3[2]);
    }
    let css = ink_sheet(paper, ink);
    lemma_ink_sheet_lacks_underscore(paper, ink);
    lemma_hex_color_lacks_underscore(paper);
    lemma_hex_color_lacks_underscore(ink);
    let j1 = json_str(css);
    let j2 = json_str(paper);
    let j3 = json_str(ink);
    lemma_json_str_lacks(css, '_');
    lemma_json_str_lacks(paper, '_');
    lemma_json_str_lacks(ink, '_');
    assert(p1.contains('_') && p2.contains('_') && p3.contains('_')) by {
        assert(p1[0] == '_' && p2[0] == '_' && p3[0] == '_');
    }
    lemma_lacking_char_no_infix(j1, p1, '_');
    lemma_lacking_char_no_infix(j2, p1, '_');
    lemma_lacking_char_no_infix(j2, p2, '_');
    lemma_lacking_char_no_infix(j3, p1, '_');
    lemma_lacking_char_no_infix(j3, p2, '_');
    lemma_lacking_char_no_infix(j3, p3, '_');
    let r1 = replace_all(INK_JS@, p1, j1);
    let r2 = replace_all(r1, p2, j2);
    lemma_replace_removes(INK_JS@, p1, j1, p1);
    lemma_replace_removes(r1, p2, j2, p2);
    lemma_replace_removes(r1, p2, j2, p1);
    lemma_replace_removes(r2, p3, j3, p3);
    lemma_replace_removes(r2, p3, j3, p2);
    lemma_replace_removes(r2, p3, j3, p1);
}

/// The `__CSS__` hole of the ink script's template: it stands at position
/// 23, and no other `__CSS__` begins in the characters just before it.
proof fn lemma_ink_js_css_hole()
    ensures
        occurs_at(INK_JS@, "__CSS__"@, 23),
        forall|k: int| 23 - 7 < k < 23 ==> !occurs_at(INK_JS@, "__CSS__"@, k),
{
    reveal_strlit("__CSS__");
    reveal_strlit("\
(function() {\
  var CSS = __CSS__;\
  window.__core_paper = __PAPER__;\
  window.__core_ink = __INK__;\
  function apply() {\
    try {\
      if (!window.__core_sheet) {\
        window.__core_sheet = new CSSStyleSheet();\
      }\
      window.__core_sheet.replaceSync(CSS);\
      if (!document.adoptedStyleSheets.includes(window.__core_sheet)) {\
        document.adoptedStyleSheets = [...document.adoptedStyleSheets, window.__core_sheet];\
      }\
    } catch (e) {\
      if (!document.documentElement) return;\
      var s = document.getElementById('__core_ink');\
      if (!s) {\
        s = document.createElement('style');\
        s.id = '__core_ink';\
        document.documentElement.appendChild(s);\
      }\
      s.textContent = CSS;\
    }\
  }\
  function floats(el) {\
    var cs = getComputedStyle(el);\
    if (cs.pointerEvents === 'none' || cs.visibility === 'hidden') return null;\
    if (cs.position === 'fixed') return 'panel';\
    if (cs.position === 'sticky') return 'barra';\
    if (cs.position === 'absolute' && parseInt(cs.zIndex, 10) >= 10) return 'panel';\
    return null;\
  }\
  function fixup(root) {\
    if (!root.querySelectorAll) return;\
    root.querySelectorAll('*').forEach(function (el) {\
      if (el.shadowRoot) {\
        try {\
          if (window.__core_sheet && !el.shadowRoot.adoptedStyleSheets.includes(window.__core_sheet)) {\
            el.shadowRoot.adoptedStyleSheets = [...el.shadowRoot.adoptedStyleSheets, window.__core_sheet];\
          }\
        } catch (e) {}\
        fixup(el.shadowRoot);\
      }\
      var f = floats(el);\
      if (f) {\
        var want = f + window.__core_paper + window.__core_ink;\
        if (el.__core_float === want) return;\
        el.__core_float = want;\
        el.style.setProperty('background-color', window.__core_paper, 'important');\
        if (f === 'panel') {\
          el.style.setProperty('outline', '1px solid ' + window.__core_ink, 'important');\
        } else {\
          el.style.removeProperty('outline');\
        }\
      } else if (el.__core_float) {\
        el.__core_float = null;\
        el.style.removeProperty('background-color');\
        el.style.removeProperty('outline');\
      }\
    });\
  }\
  var queued = false;\
  function schedule() {\
    if (queued) return;\
    queued = true;\
    requestAnimationFrame(function () {\
      queued = false;\
      fixup(document);\
    });\
  }\
  apply();\
  fixup(document);\
  if (!window.__core_watch) {\
    window.__core_watch = true;\
    document.addEventListener('DOMContentLoaded', function () {\
      apply();\
      fixup(document);\
      new MutationObserver(schedule).observe(document.documentElement, {\
        childList: true, subtree: true, attributes: true, attributeFilter: ['style', 'class']\
      });\
    });\
  }\
})();");
    assert(INK_JS@ == "\
(function() {\
  var CSS = __CSS__;\
  window.__core_paper = __PAPER__;\
  window.__core_ink = __INK__;\
  function apply() {\
    try {\
      if (!window.__core_sheet) {\
        window.__core_sheet = new CSSStyleSheet();\
      }\
      window.__core_sheet.replaceSync(CSS);\
      if (!document.adoptedStyleSheets.includes(window.__core_sheet)) {\
        document.adoptedStyleSheets = [...document.adoptedStyleSheets, window.__core_sheet];\
      }\
    } catch (e) {\
      if (!document.documentElement) return;\
      var s = document.getElementById('__core_ink');\
      if (!s) {\
        s = document.createElement('style');\
        s.id = '__core_ink';\
        document.documentElement.appendChild(s);\
      }\
      s.textContent = CSS;\
    }\
  }\
  function floats(el) {\
    var cs = getComputedStyle(el);\
    if (cs.pointerEvents === 'none' || cs.visibility === 'hidden') return null;\
    if (cs.position === 'fixed') return 'panel';\
    if (cs.position === 'sticky') return 'barra';\
    if (cs.position === 'absolute' && parseInt(cs.zIndex, 10) >= 10) return 'panel';\
    return null;\
  }\
  function fixup(root) {\
    if (!root.querySelectorAll) return;\
    root.querySelectorAll('*').forEach(function (el) {\
      if (el.shadowRoot) {\
        try {\
          if (window.__core_sheet && !el.shadowRoot.adoptedStyleSheets.includes(window.__core_sheet)) {\
            el.shadowRoot.adoptedStyleSheets = [...el.shadowRoot.adoptedStyleSheets, window.__core_sheet];\
          }\
        } catch (e) {}\
        fixup(el.shadowRoot);\
      }\
      var f = floats(el);\
      if (f) {\
        var want = f + window.__core_paper + window.__core_ink;\
        if (el.__core_float === want) return;\
        el.__core_float = want;\
        el.style.setProperty('background-color', window.__core_paper, 'important');\
        if (f === 'panel') {\
          el.style.setProperty('outline', '1px solid ' + window.__core_ink, 'important');\
        } else {\
          el.style.removeProperty('outline');\
        }\
      } else if (el.__core_float) {\
        el.__core_float = null;\
        el.style.removeProperty('background-color');\
        el.style.removeProperty('outline');\
      }\
    });\
  }\
  var queued = false;\
  function schedule() {\
    if (queued) return;\
    queued = true;\
    requestAnimationFrame(function () {\
      queued = false;\
      fixup(document);\
    });\
  }\
  apply();\
  fixup(document);\
  if (!window.__core_watch) {\
    window.__core_watch = true;\
    document.addEventListener('DOMContentLoaded', function () {\
      apply();\
      fixup(document);\
      new MutationObserver(schedule).observe(document.documentElement, {\
        childList: true, subtree: true, attributes: true, attributeFilter: ['style', 'class']\
      });\
    });\
  }\
})();"@);
    assert(INK_JS@.subrange(23, 30) =~= "__CSS__"@);
    assert forall|k: int| 23 - 7 < k < 23 implies !occurs_at(INK_JS@, "__CSS__"@, k) by {
        assert(INK_JS@.subrange(k, k + 7)[0] == INK_JS@[k]);
    }
}

/// With a `#rrggbb` theme, the ink script carries the JSON literal of the
/// ink sheet of that theme: the fixed frame whose slots hold the paper, the
/// ink, the ink, the paper, the ink and the paper, in that order (page
/// background, text, borders, body background, links, floating panels).
pub proof fn law_ink_script_embeds_the_sheet(paper: Seq<char>, ink: Seq<char>)
    requires
        hex_color(paper),
        hex_color(ink),
    ensures
        has_infix(
            ink_script(paper, ink),
            json_str(interleave(ink_sheet_frame(), seq![paper, ink, ink, paper, ink, paper])),
        ),
{
    reveal_strlit("__CSS__");
    reveal_strlit("__PAPER__");
    reveal_strlit("__INK__");
    let p1 = "__CSS__"@;
    let p2 = "__PAPER__"@;
    let p3 = "__INK__"@;
    law_ink_sheet_slots(paper, ink);
    let css = ink_sheet(paper, ink);
    let j1 = json_str(css);
    lemma_ink_sheet_lacks_underscore(paper, ink);
    lemma_json_str_lacks(css, '_');
    assert(p2.contains('_') && p3.contains('_')) by {
        assert(p2[0] == '_' && p3[0] == '_');
    }
    assert(!p2.contains('"') && !p3.contains('"'));
    lemma_lacking_char_no_infix(j1, p2, '_');
    lemma_lacking_char_no_infix(j1, p3, '_');
    lemma_ink_js_css_hole();
    let r1 = replace_all(INK_JS@, p1, j1);
    lemma_replace_emits(INK_JS@, p1, j1, 23);
    let r2 = replace_all(r1, p2, json_str(paper));
    lemma_replace_keeps(r1, p2, json_str(paper), j1);
    lemma_replace_keeps(r2, p3, json_str(ink), j1);
}

/// The ink script for the theme (`paper`, `ink`), run in every page before
/// its first paint and again at each stage of its loading.
pub fn ink_init_script(paper: &str, ink: &str) -> (r: String)
    ensures
        r@ == ink_script(paper@, ink@),
{
    proof {
        reveal_strlit("__CSS__");
        reveal_strlit("__PAPER__");
        reveal_strlit("__INK__");
    }
    let css = ink_css(paper, ink);
    let css_json = to_json_str(css.as_str());
    let paper_json = to_json_str(paper);
    let ink_json = to_json_str(ink);
    let a = replace(INK_JS, "__CSS__", css_json.as_str());
    let b = replace(a.as_str(), "__PAPER__", paper_json.as_str());
    replace(b.as_str(), "__INK__", ink_json.as_str())
}

} // verus!
