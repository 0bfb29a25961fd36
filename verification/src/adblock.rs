//! The advertising blocker: the advertising domains, the test that a URL
//! points at one of them, and the script that hides advertising slots.

use vstd::prelude::*;

use crate::json::{json_str, json_str_array, to_json_str, to_json_str_array};
use crate::text::{ends_with, has_suffix, push_str, replace, replace_all, same_text};
use crate::web_url::{parse_url, url_parse, WebUrl};

verus! {

// ---------------------------------------------------------------------------
// Advertising hosts
// ---------------------------------------------------------------------------

/// A page asks for a new window (a `target=_blank` link, `window.open`)
/// on the URL written `url`: whether a new tab opens on it (else the
/// request is refused: popups towards advertising domains, and a text that
/// is no URL).
pub fn new_window_opens_tab(url: &str) -> (b: bool)
    ensures
        b == match url_parse(url@) {
            Ok(u) => !match u.host {
                Some(h) => ad_host(h),
                None => false,
            },
            Err(_) => false,
        },
{
    match parse_url(url) {
        Ok(u) => !is_ad_url(&u),
        Err(_) => false,
    }
}

/// Advertising domains and their usual networks.
pub open spec fn ad_hosts() -> Seq<Seq<char>> {
    seq![
        "doubleclick.net"@, "googlesyndication.com"@, "googleadservices.com"@,
        "googletagservices.com"@, "adnxs.com"@, "criteo.com"@, "criteo.net"@,
        "taboola.com"@, "outbrain.com"@, "amazon-adsystem.com"@, "rubiconproject.com"@,
        "pubmatic.com"@, "openx.net"@, "adform.net"@, "smartadserver.com"@, "teads.tv"@,
        "moatads.com"@, "2mdn.net"@, "adsafeprotected.com"@, "yieldmo.com"@,
        "sharethrough.com"@, "media.net"@, "adroll.com"@, "quantserve.com"@,
        "scorecardresearch.com"@, "zedo.com"@, "mgid.com"@, "revcontent.com"@,
        "popads.net"@, "propellerads.com"@,
    ]
}

/// The advertising domains, in order.
pub fn ad_host_list() -> (v: Vec<&'static str>)
    ensures
        v@.map_values(|s: &str| s@) == ad_hosts(),
{
    let v = vec![
        "doubleclick.net", "googlesyndication.com", "googleadservices.com",
        "googletagservices.com", "adnxs.com", "criteo.com", "criteo.net",
        "taboola.com", "outbrain.com", "amazon-adsystem.com", "rubiconproject.com",
        "pubmatic.com", "openx.net", "adform.net", "smartadserver.com", "teads.tv",
        "moatads.com", "2mdn.net", "adsafeprotected.com", "yieldmo.com",
        "sharethrough.com", "media.net", "adroll.com", "quantserve.com",
        "scorecardresearch.com", "zedo.com", "mgid.com", "revcontent.com",
        "popads.net", "propellerads.com",
    ];
    assert(v@.map_values(|s: &str| s@) =~= ad_hosts());
    v
}

/// `host` is the domain `d` or one of its subdomains.
pub open spec fn under_domain(host: Seq<char>, d: Seq<char>) -> bool {
    host == d || has_suffix(host, "."@ + d)
}

/// `host` belongs to an advertising domain.
pub open spec fn ad_host(host: Seq<char>) -> bool {
    exists|i: int| 0 <= i < ad_hosts().len() && under_domain(host, #[trigger] ad_hosts()[i])
}

/// Every advertising domain, and every subdomain of one, is an
/// advertising host.
pub proof fn law_ad_domains_and_subdomains(i: int, sub: Seq<char>)
    requires
        0 <= i < ad_hosts().len(),
    ensures
        ad_host(ad_hosts()[i]),
        ad_host(sub + "."@ + ad_hosts()[i]),
{
    let d = ad_hosts()[i];
    let h = sub + "."@ + d;
    assert(under_domain(d, ad_hosts()[i]));
    assert(h.subrange(h.len() - ("."@ + d).len(), h.len() as int) =~= "."@ + d);
    assert(under_domain(h, ad_hosts()[i]));
}

/// `d` is an advertising host, and so is every subdomain of it.
pub open spec fn blocked_domain(d: Seq<char>) -> bool {
    &&& ad_host(d)
    &&& forall|sub: Seq<char>| #[trigger] ad_host(sub + "."@ + d)
}

/// The thirty advertising domains and their networks are blocked, each
/// together with all its subdomains.
pub proof fn law_listed_domains_are_blocked()
    ensures
        ad_hosts().len() == 30,
        blocked_domain("doubleclick.net"@),
        blocked_domain("googlesyndication.com"@),
        blocked_domain("googleadservices.com"@),
        blocked_domain("googletagservices.com"@),
        blocked_domain("adnxs.com"@),
        blocked_domain("criteo.com"@),
        blocked_domain("criteo.net"@),
        blocked_domain("taboola.com"@),
        blocked_domain("outbrain.com"@),
        blocked_domain("amazon-adsystem.com"@),
        blocked_domain("rubiconproject.com"@),
        blocked_domain("pubmatic.com"@),
        blocked_domain("openx.net"@),
        blocked_domain("adform.net"@),
        blocked_domain("smartadserver.com"@),
        blocked_domain("teads.tv"@),
        blocked_domain("moatads.com"@),
        blocked_domain("2mdn.net"@),
        blocked_domain("adsafeprotected.com"@),
        blocked_domain("yieldmo.com"@),
        blocked_domain("sharethrough.com"@),
        blocked_domain("media.net"@),
        blocked_domain("adroll.com"@),
        blocked_domain("quantserve.com"@),
        blocked_domain("scorecardresearch.com"@),
        blocked_domain("zedo.com"@),
        blocked_domain("mgid.com"@),
        blocked_domain("revcontent.com"@),
        blocked_domain("popads.net"@),
        blocked_domain("propellerads.com"@),
{
    assert forall|i: int| 0 <= i < 30 implies blocked_domain(#[trigger] ad_hosts()[i]) by {
        law_ad_domains_and_subdomains(i, Seq::empty());
        assert forall|sub: Seq<char>| #[trigger] ad_host(sub + "."@ + ad_hosts()[i]) by {
            law_ad_domains_and_subdomains(i, sub);
        }
    }
    assert(ad_hosts()[0] == "doubleclick.net"@);
    assert(ad_hosts()[1] == "googlesyndication.com"@);
    assert(ad_hosts()[2] == "googleadservices.com"@);
    assert(ad_hosts()[3] == "googletagservices.com"@);
    assert(ad_hosts()[4] == "adnxs.com"@);
    assert(ad_hosts()[5] == "criteo.com"@);
    assert(ad_hosts()[6] == "criteo.net"@);
    assert(ad_hosts()[7] == "taboola.com"@);
    assert(ad_hosts()[8] == "outbrain.com"@);
    assert(ad_hosts()[9] == "amazon-adsystem.com"@);
    assert(ad_hosts()[10] == "rubiconproject.com"@);
    assert(ad_hosts()[11] == "pubmatic.com"@);
    assert(ad_hosts()[12] == "openx.net"@);
    assert(ad_hosts()[13] == "adform.net"@);
    assert(ad_hosts()[14] == "smartadserver.com"@);
    assert(ad_hosts()[15] == "teads.tv"@);
    assert(ad_hosts()[16] == "moatads.com"@);
    assert(ad_hosts()[17] == "2mdn.net"@);
    assert(ad_hosts()[18] == "adsafeprotected.com"@);
    assert(ad_hosts()[19] == "yieldmo.com"@);
    assert(ad_hosts()[20] == "sharethrough.com"@);
    assert(ad_hosts()[21] == "media.net"@);
    assert(ad_hosts()[22] == "adroll.com"@);
    assert(ad_hosts()[23] == "quantserve.com"@);
    assert(ad_hosts()[24] == "scorecardresearch.com"@);
    assert(ad_hosts()[25] == "zedo.com"@);
    assert(ad_hosts()[26] == "mgid.com"@);
    assert(ad_hosts()[27] == "revcontent.com"@);
    assert(ad_hosts()[28] == "popads.net"@);
    assert(ad_hosts()[29] == "propellerads.com"@);
}

/// Whether `host` belongs to an advertising domain.
pub fn is_ad_host(host: &str) -> (b: bool)
    ensures
        b == ad_host(host@),
{
    let list = ad_host_list();
    let ghost names = list@.map_values(|s: &str| s@);
    let mut i: usize = 0;
    while i < list.len()
        invariant
            names == list@.map_values(|s: &str| s@),
            names == ad_hosts(),
            i <= list.len(),
            forall|k: int| 0 <= k < i ==> !under_domain(host@, #[trigger] ad_hosts()[k]),
        decreases list.len() - i,
    {
        let d = list[i];
        assert(names[i as int] == d@);
        let mut dotted = String::new();
        push_str(&mut dotted, ".");
        push_str(&mut dotted, d);
        if same_text(host, d) || ends_with(host, dotted.as_str()) {
            return true;
        }
        i += 1;
    }
    false
}

/// Whether the URL points at an advertising domain.
pub fn is_ad_url(url: &WebUrl) -> (b: bool)
    ensures
        b == match url.host {
            Some(h) => ad_host(h@),
            None => false,
        },
{
    match &url.host {
        Some(h) => is_ad_host(h.as_str()),
        None => false,
    }
}

/// Generic selectors of advertising slots, hidden by the blocker.
pub const AD_CSS: &'static str = "\
ins.adsbygoogle, .adsbygoogle, [id^='google_ads_'], [id^='div-gpt-ad'], \
iframe[id^='google_ads_iframe'], [id^='taboola-'], .trc_related_container, \
.OUTBRAIN, .advertisement, .advert, .ad-banner, .ad-container, .ad-wrapper, \
.ad-slot, .ad-unit, .ad-box, [aria-label='Advertisement' i] \
{ display: none !important; }";

/// Script of the advertising blocker; its `__HOSTS__` and `__CSS__` holes
/// take JSON literals.
pub const ADBLOCK_JS: &'static str = "\
(function() {\
  var HOSTS = __HOSTS__;\
  var CSS = __CSS__;\
  function apply() {\
    try {\
      if (!window.__core_adsheet) {\
        window.__core_adsheet = new CSSStyleSheet();\
        window.__core_adsheet.replaceSync(CSS);\
      }\
      if (!document.adoptedStyleSheets.includes(window.__core_adsheet)) {\
        document.adoptedStyleSheets = [...document.adoptedStyleSheets, window.__core_adsheet];\
      }\
    } catch (e) {\
      if (!document.documentElement) return;\
      var s = document.getElementById('__core_adcss');\
      if (!s) {\
        s = document.createElement('style');\
        s.id = '__core_adcss';\
        document.documentElement.appendChild(s);\
      }\
      s.textContent = CSS;\
    }\
  }\
  function isAd(src) {\
    try {\
      var h = new URL(src, location.href).hostname;\
      return HOSTS.some(function (d) { return h === d || h.endsWith('.' + d); });\
    } catch (e) { return false; }\
  }\
  function sweep(root) {\
    if (!root.querySelectorAll) return;\
    root.querySelectorAll('iframe[src]').forEach(function (f) {\
      if (isAd(f.src)) f.remove();\
    });\
  }\
  apply();\
  document.addEventListener('DOMContentLoaded', function () {\
    apply();\
    sweep(document);\
    new MutationObserver(function (muts) {\
      muts.forEach(function (m) {\
        m.addedNodes.forEach(function (n) {\
          if (n.tagName === 'IFRAME' && n.src && isAd(n.src)) n.remove();\
          else sweep(n);\
        });\
      });\
    }).observe(document.documentElement, { childList: true, subtree: true });\
  });\
})();";

/// The blocker script with the domain list and the slot selectors filled in.
pub open spec fn adblock_script() -> Seq<char> {
    replace_all(
        replace_all(ADBLOCK_JS@, "__HOSTS__"@, json_str_array(ad_hosts())),
        "__CSS__"@,
        json_str(AD_CSS@),
    )
}

/// The blocker script, ready to be run in every page.
pub fn adblock_init_script() -> (r: String)
    ensures
        r@ == adblock_script(),
{
    proof {
        reveal_strlit("__HOSTS__");
        reveal_strlit("__CSS__");
    }
    let list = ad_host_list();
    let hosts = to_json_str_array(list.as_slice());
    let css = to_json_str(AD_CSS);
    let step = replace(ADBLOCK_JS, "__HOSTS__", hosts.as_str());
    replace(step.as_str(), "__CSS__", css.as_str())
}

} // verus!
