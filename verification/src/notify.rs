//! The calls evaluated in the interface to tell it what happened: tabs
//! opened, selected and closed, pages loading and loaded, titles, downloads
//! and menu dialogs. Every string argument goes as a JSON literal.

use vstd::prelude::*;

use crate::json::{json_opt_str, json_str, to_json_opt_str, to_json_str};
use crate::text::{decimal, push_decimal, push_str};

verus! {

/// The items of `args` separated by `", "`.
pub open spec fn join_args(args: Seq<Seq<char>>) -> Seq<char>
    decreases args.len(),
{
    if args.len() == 0 {
        Seq::empty()
    } else if args.len() == 1 {
        args[0]
    } else {
        join_args(args.drop_last()) + ", "@ + args.last()
    }
}

/// The JavaScript call `name(arg, arg, …)`.
pub open spec fn js_call(name: Seq<char>, args: Seq<Seq<char>>) -> Seq<char> {
    name + "("@ + join_args(args) + ")"@
}

/// Writes the call `name(args…)`, its arguments already written as
/// JavaScript values.
pub fn write_call(name: &str, args: &Vec<String>) -> (r: String)
    ensures
        r@ == js_call(name@, args@.map_values(|a: String| a@)),
{
    let ghost views = args@.map_values(|a: String| a@);
    let mut r = String::new();
    push_str(&mut r, name);
    push_str(&mut r, "(");
    let mut i: usize = 0;
    while i < args.len()
        invariant
            views == args@.map_values(|a: String| a@),
            i <= args.len(),
            r@ == name@ + "("@ + join_args(views.take(i as int)),
        decreases args.len() - i,
    {
        assert(views.take(i + 1).drop_last() =~= views.take(i as int));
        assert(views.take(i + 1).last() == args@[i as int]@);
        if i > 0 {
            push_str(&mut r, ", ");
        }
        push_str(&mut r, args[i].as_str());
        if i == 0 {
            assert(join_args(views.take(1)) == views.take(1)[0]);
            assert(r@ =~= name@ + "("@ + join_args(views.take(1)));
        } else {
            assert(r@ =~= name@ + "("@ + join_args(views.take(i + 1)));
        }
        i += 1;
    }
    assert(views.take(i as int) =~= views);
    push_str(&mut r, ")");
    r
}

/// A tab was opened and is now the active one.
pub fn tab_opened(label: &str) -> (r: String)
    ensures
        r@ == js_call("planetTabOpened"@, seq![json_str(label@), "true"@]),
{
    let args = vec![to_json_str(label), "true".to_string()];
    let r = write_call("planetTabOpened", &args);
    assert(args@.map_values(|a: String| a@) =~= seq![json_str(label@), "true"@]);
    r
}

/// A tab became the active one.
pub fn tab_selected(label: &str) -> (r: String)
    ensures
        r@ == js_call("planetTabSelected"@, seq![json_str(label@)]),
{
    let args = vec![to_json_str(label)];
    let r = write_call("planetTabSelected", &args);
    assert(args@.map_values(|a: String| a@) =~= seq![json_str(label@)]);
    r
}

/// A tab was closed.
pub fn tab_closed(label: &str) -> (r: String)
    ensures
        r@ == js_call("planetTabClosed"@, seq![json_str(label@)]),
{
    let args = vec![to_json_str(label)];
    let r = write_call("planetTabClosed", &args);
    assert(args@.map_values(|a: String| a@) =~= seq![json_str(label@)]);
    r
}

/// A tab started loading `url`.
pub fn page_loading(label: &str, url: &str) -> (r: String)
    ensures
        r@ == js_call("planetLoading"@, seq![json_str(label@), json_str(url@)]),
{
    let args = vec![to_json_str(label), to_json_str(url)];
    let r = write_call("planetLoading", &args);
    assert(args@.map_values(|a: String| a@) =~= seq![json_str(label@), json_str(url@)]);
    r
}

/// A tab finished loading `url`.
pub fn page_loaded(label: &str, url: &str) -> (r: String)
    ensures
        r@ == js_call("planetLoaded"@, seq![json_str(label@), json_str(url@)]),
{
    let args = vec![to_json_str(label), to_json_str(url)];
    let r = write_call("planetLoaded", &args);
    assert(args@.map_values(|a: String| a@) =~= seq![json_str(label@), json_str(url@)]);
    r
}

/// The title of the page in a tab changed.
pub fn title_changed(label: &str, title: &str) -> (r: String)
    ensures
        r@ == js_call("planetTitle"@, seq![json_str(label@), json_str(title@)]),
{
    let args = vec![to_json_str(label), to_json_str(title)];
    let r = write_call("planetTitle", &args);
    assert(args@.map_values(|a: String| a@) =~= seq![json_str(label@), json_str(title@)]);
    r
}

/// A download of `url` started, saved as `file` at `path`.
pub fn download_started(url: &str, file: &str, path: &str) -> (r: String)
    ensures
        r@ == js_call(
            "coreDownloadStarted"@,
            seq![json_str(url@), json_str(file@), json_str(path@)],
        ),
{
    let args = vec![to_json_str(url), to_json_str(file), to_json_str(path)];
    let r = write_call("coreDownloadStarted", &args);
    assert(args@.map_values(|a: String| a@) =~= seq![
        json_str(url@),
        json_str(file@),
        json_str(path@),
    ]);
    r
}

/// A download of `url` has `size` bytes so far and goes at `bps` bytes per second.
pub fn download_progress(url: &str, size: u64, bps: u64) -> (r: String)
    ensures
        r@ == js_call(
            "coreDownloadProgress"@,
            seq![json_str(url@), decimal(size as nat), decimal(bps as nat)],
        ),
{
    let mut s = String::new();
    push_decimal(&mut s, size);
    let mut b = String::new();
    push_decimal(&mut b, bps);
    let args = vec![to_json_str(url), s, b];
    let r = write_call("coreDownloadProgress", &args);
    assert(args@.map_values(|a: String| a@) =~= seq![
        json_str(url@),
        decimal(size as nat),
        decimal(bps as nat),
    ]);
    r
}

/// `true` or `false`, as JavaScript writes it.
pub open spec fn js_bool(b: bool) -> Seq<char> {
    if b {
        "true"@
    } else {
        "false"@
    }
}

/// A download of `url` ended, at `path` when one is known.
pub fn download_finished(url: &str, path: &Option<String>, success: bool) -> (r: String)
    ensures
        r@ == js_call(
            "coreDownloadFinished"@,
            seq![json_str(url@), json_opt_str(path.deep_view()), js_bool(success)],
        ),
{
    let flag = if success {
        "true".to_string()
    } else {
        "false".to_string()
    };
    let args = vec![to_json_str(url), to_json_opt_str(path), flag];
    let r = write_call("coreDownloadFinished", &args);
    assert(args@.map_values(|a: String| a@) =~= seq![
        json_str(url@),
        json_opt_str(path.deep_view()),
        js_bool(success),
    ]);
    r
}

/// A menu entry asks the interface to open the dialog `id`.
pub fn menu_opened(id: &str) -> (r: String)
    ensures
        r@ == js_call("coreMenu"@, seq![json_str(id@)]),
{
    let args = vec![to_json_str(id)];
    let r = write_call("coreMenu", &args);
    assert(args@.map_values(|a: String| a@) =~= seq![json_str(id@)]);
    r
}

} // verus!
