//! The browser state behind the interface: the tabs in the order of their
//! column, the active one, the counter that names new tabs, the theme, and
//! the downloads in flight. Each operation takes the state and an event and
//! gives the next state and what the application has to do on screen.

use vstd::hash_map::StringHashMap;
use vstd::prelude::*;

use crate::ink::{hex_color, ink_init_script, ink_script, valid_hex};
use crate::text::{decimal, lemma_decimal_injective, push_decimal, push_str, same_text};
use crate::web_url::{home_page, home_url, url_parse, url_result_view, WebUrl};

verus! {

/// The label of the `n`-th tab opened: `tab-n`.
pub open spec fn tab_label(n: nat) -> Seq<char> {
    "tab-"@ + decimal(n)
}

/// `l` is the label of one of the first `counter` tabs opened.
pub open spec fn issued(l: Seq<char>, counter: nat) -> bool {
    exists|k: nat| 1 <= k <= counter && l == #[trigger] tab_label(k)
}

/// Different tabs have different labels.
pub proof fn lemma_tab_label_injective(m: nat, n: nat)
    requires
        tab_label(m) == tab_label(n),
    ensures
        m == n,
{
    reveal_strlit("tab-");
    let p = "tab-"@;
    assert(tab_label(m).skip(p.len() as int) =~= decimal(m));
    assert(tab_label(n).skip(p.len() as int) =~= decimal(n));
    lemma_decimal_injective(m, n);
}

/// The label of the `n`-th tab opened.
pub fn tab_label_string(n: usize) -> (r: String)
    ensures
        r@ == tab_label(n as nat),
{
    let mut r = String::new();
    push_str(&mut r, "tab-");
    push_decimal(&mut r, n as u64);
    r
}

/// The default theme: paper and ink.
pub open spec fn default_paper() -> Seq<char> {
    "#f6f1e5"@
}

/// The default ink colour.
pub open spec fn default_ink() -> Seq<char> {
    "#23211b"@
}

/// The default theme passes the check that every theme sent by the
/// interface goes through.
pub proof fn law_default_theme_is_valid()
    ensures
        hex_color(default_paper()),
        hex_color(default_ink()),
{
    reveal_strlit("#f6f1e5");
    reveal_strlit("#23211b");
}

/// What the application does after a tab was closed.
#[derive(Debug)]
pub enum AfterClose {
    /// The closed tab was the active one: this neighbour becomes active.
    Select(String),
    /// No tab is left: a new one opens on the home page.
    OpenHome,
    /// The active tab stays as it is.
    Stay,
}

/// `AfterClose` with the label as a character sequence.
pub enum CloseStep {
    Select(Seq<char>),
    OpenHome,
    Stay,
}

impl View for AfterClose {
    type V = CloseStep;

    open spec fn view(&self) -> CloseStep {
        match self {
            AfterClose::Select(s) => CloseStep::Select(s@),
            AfterClose::OpenHome => CloseStep::OpenHome,
            AfterClose::Stay => CloseStep::Stay,
        }
    }
}

/// The abstract state: labels in column order, the active label, the
/// number of tabs ever named, the theme and the downloads (URL to path).
pub struct TabsView {
    pub order: Seq<Seq<char>>,
    pub active: Option<Seq<char>>,
    pub counter: nat,
    pub paper: Seq<char>,
    pub ink: Seq<char>,
    pub downloading: Map<Seq<char>, Seq<char>>,
}

/// The tabs, the theme and the downloads of the browser window.
pub struct Tabs {
    order: Vec<String>,
    active: Option<String>,
    counter: usize,
    paper: String,
    ink: String,
    downloading: StringHashMap<String>,
}

impl View for Tabs {
    type V = TabsView;

    closed spec fn view(&self) -> TabsView {
        TabsView {
            order: self.order@.map_values(|s: String| s@),
            active: self.active.deep_view(),
            counter: self.counter as nat,
            paper: self.paper@,
            ink: self.ink@,
            downloading: self.downloading@.map_values(|s: String| s@),
        }
    }
}

impl TabsView {
    /// No label occurs twice in the column.
    pub open spec fn distinct(self) -> bool {
        forall|i: int, j: int|
            0 <= i < self.order.len() && 0 <= j < self.order.len() && i != j ==> self.order[i]
                != self.order[j]
    }

    /// The state is consistent: labels are distinct and were all handed
    /// out by the counter, there is an active tab, one of the column,
    /// exactly when the column is not empty, and both theme colours are
    /// written `#rrggbb`.
    pub open spec fn wf(self) -> bool {
        &&& self.distinct()
        &&& hex_color(self.paper)
        &&& hex_color(self.ink)
        &&& forall|i: int| 0 <= i < self.order.len() ==> issued(#[trigger] self.order[i], self.counter)
        &&& match self.active {
            Some(a) => self.order.contains(a),
            None => self.order.len() == 0,
        }
    }

    /// Position of `label` in the column, or -1.
    pub open spec fn index_of(self, label: Seq<char>) -> int {
        if self.order.contains(label) {
            choose|i: int| 0 <= i < self.order.len() && self.order[i] == label
        } else {
            -1
        }
    }

    /// The active label after closing the tab at position `i`, the active one.
    pub open spec fn neighbour_after_close(self, i: int) -> Option<Seq<char>> {
        let rest = self.order.remove(i);
        if rest.len() == 0 {
            None
        } else if i > 0 {
            Some(rest[i - 1])
        } else {
            Some(rest[0])
        }
    }
}

impl TabsView {
    /// The counter after naming one more tab.
    pub open spec fn named(self) -> TabsView {
        TabsView { counter: self.counter + 1, ..self }
    }

    /// Tab number `n` joins the end of the column and becomes active.
    pub open spec fn opened(self, n: nat) -> TabsView {
        TabsView {
            order: self.order.push(tab_label(n)),
            active: Some(tab_label(n)),
            ..self
        }
    }

    /// `label` becomes active, when it is open.
    pub open spec fn selected(self, label: Seq<char>) -> TabsView {
        if self.order.contains(label) {
            TabsView { active: Some(label), ..self }
        } else {
            self
        }
    }

    /// The tab to hide when `label` is selected: the active one, if another.
    pub open spec fn hidden_on_select(self, label: Seq<char>) -> Option<Seq<char>> {
        match self.active {
            Some(a) => if a != label {
                Some(a)
            } else {
                None
            },
            None => None,
        }
    }

    /// `label` leaves the column, when it is open; when it was the active
    /// tab, its neighbour becomes active.
    pub open spec fn closed(self, label: Seq<char>) -> TabsView {
        if self.order.contains(label) {
            let i = self.index_of(label);
            TabsView {
                order: self.order.remove(i),
                active: if self.active == Some(label) {
                    self.neighbour_after_close(i)
                } else {
                    self.active
                },
                ..self
            }
        } else {
            self
        }
    }

    /// What follows the closing of the open tab `label`.
    pub open spec fn close_step(self, label: Seq<char>) -> CloseStep {
        let i = self.index_of(label);
        if self.active == Some(label) {
            match self.neighbour_after_close(i) {
                Some(n) => CloseStep::Select(n),
                None => CloseStep::OpenHome,
            }
        } else if self.order.remove(i).len() == 0 {
            CloseStep::OpenHome
        } else {
            CloseStep::Stay
        }
    }

    /// The theme becomes (`paper`, `ink`).
    pub open spec fn themed(self, paper: Seq<char>, ink: Seq<char>) -> TabsView {
        TabsView { paper, ink, ..self }
    }

    /// A download of `url` to `path` is in flight.
    pub open spec fn download_begun(self, url: Seq<char>, path: Seq<char>) -> TabsView {
        TabsView { downloading: self.downloading.insert(url, path), ..self }
    }

    /// The download of `url` is over.
    pub open spec fn download_ended(self, url: Seq<char>) -> TabsView {
        TabsView { downloading: self.downloading.remove(url), ..self }
    }
}

/// In a column without repeated labels, a label sits at one position only.
proof fn lemma_index_unique(v: TabsView, label: Seq<char>, i: int)
    requires
        v.distinct(),
        0 <= i < v.order.len(),
        v.order[i] == label,
    ensures
        v.index_of(label) == i,
{
    assert(v.order.contains(label));
}

/// Naming a tab keeps the state consistent, and the label it hands out is
/// not the label of any open tab.
pub proof fn law_named_label_is_fresh(v: TabsView)
    requires
        v.wf(),
    ensures
        v.named().wf(),
        !v.named().order.contains(tab_label(v.named().counter)),
{
    let w = v.named();
    assert forall|i: int| 0 <= i < w.order.len() implies issued(#[trigger] w.order[i], w.counter) by {
        assert(issued(v.order[i], v.counter));
        let k = choose|k: nat| 1 <= k <= v.counter && v.order[i] == tab_label(k);
        assert(w.order[i] == tab_label(k));
    }
    if w.order.contains(tab_label(w.counter)) {
        let i = choose|i: int| 0 <= i < w.order.len() && w.order[i] == tab_label(w.counter);
        assert(issued(v.order[i], v.counter));
        let k = choose|k: nat| 1 <= k <= v.counter && v.order[i] == tab_label(k);
        lemma_tab_label_injective(k, w.counter);
    }
}

/// Opening a named tab that is not open keeps the state consistent.
pub proof fn law_opened_keeps_wf(v: TabsView, n: nat)
    requires
        v.wf(),
        1 <= n <= v.counter,
        !v.order.contains(tab_label(n)),
    ensures
        v.opened(n).wf(),
{
    let w = v.opened(n);
    assert(issued(tab_label(n), w.counter));
    assert forall|i: int| 0 <= i < w.order.len() implies issued(#[trigger] w.order[i], w.counter) by {
        if i < v.order.len() {
            assert(w.order[i] == v.order[i]);
        }
    }
    assert forall|a: int, b: int|
        0 <= a < w.order.len() && 0 <= b < w.order.len() && a != b implies w.order[a]
        != w.order[b] by {
        if a < v.order.len() && b < v.order.len() {
            assert(w.order[a] == v.order[a]);
            assert(w.order[b] == v.order[b]);
        } else if a < v.order.len() {
            assert(w.order[a] == v.order[a]);
            assert(v.order.contains(v.order[a]));
        } else if b < v.order.len() {
            assert(w.order[b] == v.order[b]);
            assert(v.order.contains(v.order[b]));
        }
    }
    assert(w.order[w.order.len() - 1] == tab_label(n));
}

/// Selecting keeps the state consistent.
pub proof fn law_selected_keeps_wf(v: TabsView, label: Seq<char>)
    requires
        v.wf(),
    ensures
        v.selected(label).wf(),
{
}

/// Closing keeps the state consistent.
pub proof fn law_closed_keeps_wf(v: TabsView, label: Seq<char>)
    requires
        v.wf(),
    ensures
        v.closed(label).wf(),
{
    if v.order.contains(label) {
        let i = v.index_of(label);
        let rest = v.order.remove(i);
        let w = v.closed(label);
        assert forall|a: int, b: int|
            0 <= a < rest.len() && 0 <= b < rest.len() && a != b implies rest[a] != rest[b] by {
            let a0 = if a < i { a } else { a + 1 };
            let b0 = if b < i { b } else { b + 1 };
            assert(rest[a] == v.order[a0]);
            assert(rest[b] == v.order[b0]);
        }
        assert forall|k: int| 0 <= k < rest.len() implies issued(#[trigger] rest[k], v.counter) by {
            let k0 = if k < i { k } else { k + 1 };
            assert(rest[k] == v.order[k0]);
        }
        if v.active == Some(label) {
            if rest.len() > 0 {
                let j = if i > 0 { i - 1 } else { 0 };
                assert(rest.contains(rest[j]));
            }
        } else {
            match v.active {
                Some(a) => {
                    let j = choose|j: int| 0 <= j < v.order.len() && v.order[j] == a;
                    assert(j != i);
                    let j1 = if j < i { j } else { j - 1 };
                    assert(rest[j1] == a);
                },
                None => {},
            }
        }
    }
}

/// A label that is not open is refused: selecting or closing it leaves the
/// state as it was.
pub proof fn law_unknown_label_changes_nothing(v: TabsView, label: Seq<char>)
    requires
        !v.order.contains(label),
    ensures
        v.selected(label) == v,
        v.closed(label) == v,
{
}

/// Selecting a tab twice is selecting it once: the second time nothing is
/// left to hide.
pub proof fn law_select_twice(v: TabsView, label: Seq<char>)
    requires
        v.wf(),
        v.order.contains(label),
    ensures
        v.selected(label).selected(label) == v.selected(label),
        v.selected(label).hidden_on_select(label) is None,
{
}

/// Closing the tab just opened gives back the column as it was; the tab
/// before it becomes active, or, when it was the only tab, a home tab is
/// opened.
pub proof fn law_close_undoes_open(v: TabsView, n: nat)
    requires
        v.wf(),
        1 <= n <= v.counter,
        !v.order.contains(tab_label(n)),
    ensures
        v.opened(n).closed(tab_label(n)).order == v.order,
        v.order.len() == 0 ==> v.opened(n).close_step(tab_label(n)) == CloseStep::OpenHome,
        v.order.len() > 0 ==> v.opened(n).close_step(tab_label(n)) == CloseStep::Select(
            v.order.last(),
        ),
{
    let w = v.opened(n);
    let l = tab_label(n);
    law_opened_keeps_wf(v, n);
    lemma_index_unique(w, l, v.order.len() as int);
    assert(w.order.remove(v.order.len() as int) =~= v.order);
}

/// Closing the active tab at position `i` of a column that keeps other
/// tabs makes active the tab that stood just before it, or, when it was the
/// first, the tab that stood just after it; the application is asked to
/// show that tab. The closed tab leaves the column, every other tab stays,
/// and the column is one shorter.
pub proof fn law_close_active_picks_neighbour(v: TabsView, i: int)
    requires
        v.wf(),
        0 <= i < v.order.len(),
        v.order.len() >= 2,
        v.active == Some(v.order[i]),
    ensures
        ({
            let label = v.order[i];
            let next = if i > 0 {
                v.order[i - 1]
            } else {
                v.order[1]
            };
            &&& v.closed(label).active == Some(next)
            &&& v.close_step(label) == CloseStep::Select(next)
            &&& !v.closed(label).order.contains(label)
            &&& v.closed(label).order.len() == v.order.len() - 1
            &&& forall|j: int|
                0 <= j < v.order.len() && j != i ==> v.closed(label).order.contains(
                    #[trigger] v.order[j],
                )
        }),
{
    let label = v.order[i];
    lemma_index_unique(v, label, i);
    let rest = v.order.remove(i);
    if i > 0 {
        assert(rest[i - 1] == v.order[i - 1]);
    } else {
        assert(rest[0] == v.order[1]);
    }
    assert forall|j: int| 0 <= j < v.order.len() && j != i implies rest.contains(
        #[trigger] v.order[j],
    ) by {
        let j1 = if j < i { j } else { j - 1 };
        assert(rest[j1] == v.order[j]);
    }
    if rest.contains(label) {
        let j = choose|j: int| 0 <= j < rest.len() && rest[j] == label;
        let j0 = if j < i { j } else { j + 1 };
        assert(rest[j] == v.order[j0]);
    }
}

/// Closing a tab that is not the active one leaves the active tab as it
/// is, and asks for nothing to be shown while other tabs remain.
pub proof fn law_close_other_keeps_active(v: TabsView, i: int)
    requires
        v.wf(),
        0 <= i < v.order.len(),
        v.active != Some(v.order[i]),
    ensures
        v.closed(v.order[i]).active == v.active,
        v.close_step(v.order[i]) == CloseStep::Stay,
{
    lemma_index_unique(v, v.order[i], i);
    let a = v.active->0;
    assert(v.order.contains(a));
    let j = choose|j: int| 0 <= j < v.order.len() && v.order[j] == a;
    assert(j != i);
    assert(v.order.remove(i).len() > 0);
}

/// Opening tab number `n` puts its label at the end of the column, keeps
/// the tabs before it in their order, and makes it the active tab.
pub proof fn law_open_appends_and_activates(v: TabsView, n: nat)
    ensures
        v.opened(n).order.len() == v.order.len() + 1,
        v.opened(n).order.last() == tab_label(n),
        v.opened(n).order.take(v.order.len() as int) == v.order,
        v.opened(n).active == Some(tab_label(n)),
        v.opened(n).counter == v.counter,
{
    assert(v.opened(n).order.take(v.order.len() as int) =~= v.order);
}

/// Selecting an open tab makes it the active one and changes nothing else;
/// the tab to hide is the one active before, when it is another.
pub proof fn law_select_activates(v: TabsView, label: Seq<char>)
    requires
        v.order.contains(label),
    ensures
        v.selected(label).active == Some(label),
        v.selected(label).order == v.order,
        v.selected(label).counter == v.counter,
        v.active is Some && v.active != Some(label) ==> v.hidden_on_select(label) == v.active,
        v.active == Some(label) || v.active is None ==> v.hidden_on_select(label) is None,
{
}

/// Closing the last tab leaves no tab and no active one, and asks for a
/// new home tab.
pub proof fn law_closing_last_tab_opens_home(v: TabsView, label: Seq<char>)
    requires
        v.wf(),
        v.order == seq![label],
    ensures
        v.closed(label).order.len() == 0,
        v.closed(label).active is None,
        v.close_step(label) == CloseStep::OpenHome,
{
    assert(v.order[0] == label);
    lemma_index_unique(v, label, 0);
    assert(v.active == Some(label)) by {
        assert(v.order.contains(v.active->0));
    }
}

/// A download is in flight from its start to its end, at the path it
/// started with; the other downloads are untouched by either.
pub proof fn law_download_tracking(v: TabsView, url: Seq<char>, path: Seq<char>, other: Seq<char>)
    requires
        other != url,
    ensures
        v.download_begun(url, path).downloading.contains_key(url),
        v.download_begun(url, path).downloading[url] == path,
        !v.download_ended(url).downloading.contains_key(url),
        v.download_begun(url, path).downloading.contains_key(other) == v.downloading.contains_key(
            other,
        ),
        v.download_ended(url).downloading.contains_key(other) == v.downloading.contains_key(other),
{
}

/// The state of a new window: no tab, nothing named, the default theme,
/// no download.
pub open spec fn initial_state() -> TabsView {
    TabsView {
        order: Seq::empty(),
        active: None,
        counter: 0,
        paper: default_paper(),
        ink: default_ink(),
        downloading: Map::empty(),
    }
}

/// Every state a window reaches, whatever it was asked, is consistent; in
/// particular its theme is `#rrggbb`, whether or not a theme was refused
/// on the way.
pub proof fn law_reachable_states_are_consistent(events: Seq<TabEvent>)
    requires
        initial_state().runs(events),
    ensures
        initial_state().run(events).wf(),
        hex_color(initial_state().run(events).paper),
        hex_color(initial_state().run(events).ink),
{
    law_default_theme_is_valid();
    assert(initial_state().wf());
    law_runs_keep_wf(initial_state(), events);
}

/// One call of an operation of `Tabs`, as the state sees it.
pub enum TabEvent {
    /// `next_tab`
    Name,
    /// `tab_opened`
    Open(nat),
    /// `select_tab`
    Select(Seq<char>),
    /// `close_tab`
    Close(Seq<char>),
    /// `set_theme`
    Theme(Seq<char>, Seq<char>),
    /// `download_started`
    DownloadBegun(Seq<char>, Seq<char>),
    /// `download_finished`
    DownloadEnded(Seq<char>),
}

impl TabsView {
    /// Whether the operation of `e` may be called in this state (only
    /// opening asks for something: a named tab that is not open).
    pub open spec fn accepts(self, e: TabEvent) -> bool {
        match e {
            TabEvent::Open(n) => 1 <= n <= self.counter && !self.order.contains(tab_label(n)),
            _ => true,
        }
    }

    /// The state after the operation of `e`.
    pub open spec fn after(self, e: TabEvent) -> TabsView {
        match e {
            TabEvent::Name => self.named(),
            TabEvent::Open(n) => self.opened(n),
            TabEvent::Select(l) => self.selected(l),
            TabEvent::Close(l) => self.closed(l),
            TabEvent::Theme(p, i) => if hex_color(p) && hex_color(i) {
                self.themed(p, i)
            } else {
                self
            },
            TabEvent::DownloadBegun(u, p) => self.download_begun(u, p),
            TabEvent::DownloadEnded(u) => self.download_ended(u),
        }
    }

    /// Every event of `events` may be called in turn from this state.
    pub open spec fn runs(self, events: Seq<TabEvent>) -> bool
        decreases events.len(),
    {
        events.len() == 0 || (self.accepts(events[0]) && self.after(events[0]).runs(
            events.drop_first(),
        ))
    }

    /// The state after `events`, in turn.
    pub open spec fn run(self, events: Seq<TabEvent>) -> TabsView
        decreases events.len(),
    {
        if events.len() == 0 {
            self
        } else {
            self.after(events[0]).run(events.drop_first())
        }
    }

    /// The numbers of the tabs named along `events`, in turn.
    pub open spec fn named_numbers(self, events: Seq<TabEvent>) -> Seq<nat>
        decreases events.len(),
    {
        if events.len() == 0 {
            Seq::empty()
        } else {
            let head = if events[0] is Name {
                seq![self.counter + 1]
            } else {
                Seq::<nat>::empty()
            };
            head + self.after(events[0]).named_numbers(events.drop_first())
        }
    }
}

/// A theme of two `#rrggbb` colours is taken as it is, and nothing but
/// the theme changes; any other theme is refused and changes nothing.
pub proof fn law_theme_taken_or_refused(v: TabsView, paper: Seq<char>, ink: Seq<char>)
    ensures
        hex_color(paper) && hex_color(ink) ==> {
            &&& v.after(TabEvent::Theme(paper, ink)).paper == paper
            &&& v.after(TabEvent::Theme(paper, ink)).ink == ink
            &&& v.after(TabEvent::Theme(paper, ink)).order == v.order
            &&& v.after(TabEvent::Theme(paper, ink)).active == v.active
            &&& v.after(TabEvent::Theme(paper, ink)).downloading == v.downloading
        },
        !(hex_color(paper) && hex_color(ink)) ==> v.after(TabEvent::Theme(paper, ink)) == v,
{
}

/// Every operation keeps the state consistent (the theme included: it
/// stays `#rrggbb`); only naming moves the counter, by one.
pub proof fn law_every_operation_keeps_wf(v: TabsView, e: TabEvent)
    requires
        v.wf(),
        v.accepts(e),
    ensures
        v.after(e).wf(),
        e is Name ==> v.after(e).counter == v.counter + 1,
        !(e is Name) ==> v.after(e).counter == v.counter,
{
    match e {
        TabEvent::Name => law_named_label_is_fresh(v),
        TabEvent::Open(n) => law_opened_keeps_wf(v, n),
        TabEvent::Select(l) => law_selected_keeps_wf(v, l),
        TabEvent::Close(l) => law_closed_keeps_wf(v, l),
        _ => {},
    }
}

/// Along any run of operations from a consistent state, every state is
/// consistent (so its theme is `#rrggbb`), and the counter never goes down.
pub proof fn law_runs_keep_wf(v: TabsView, events: Seq<TabEvent>)
    requires
        v.wf(),
        v.runs(events),
    ensures
        v.run(events).wf(),
        v.run(events).counter >= v.counter,
    decreases events.len(),
{
    if events.len() > 0 {
        law_every_operation_keeps_wf(v, events[0]);
        law_runs_keep_wf(v.after(events[0]), events.drop_first());
    }
}

/// The tabs named along any run of operations get increasing numbers, all
/// above the counter at the start: their labels are pairwise different
/// and none of them is the label of a tab open at the start.
pub proof fn law_named_labels_never_repeat(v: TabsView, events: Seq<TabEvent>)
    requires
        v.wf(),
        v.runs(events),
    ensures
        forall|i: int|
            0 <= i < v.named_numbers(events).len() ==> v.counter < #[trigger] v.named_numbers(
                events,
            )[i] <= v.run(events).counter,
        forall|i: int, j: int|
            0 <= i < j < v.named_numbers(events).len() ==> v.named_numbers(events)[i]
                < v.named_numbers(events)[j],
        forall|i: int, j: int|
            0 <= i < v.named_numbers(events).len() && 0 <= j < v.named_numbers(events).len() && i
                != j ==> tab_label(v.named_numbers(events)[i]) != tab_label(
                v.named_numbers(events)[j],
            ),
        forall|i: int|
            0 <= i < v.named_numbers(events).len() ==> !v.order.contains(
                tab_label(#[trigger] v.named_numbers(events)[i]),
            ),
    decreases events.len(),
{
    let ns = v.named_numbers(events);
    if events.len() > 0 {
        let e = events[0];
        let w = v.after(e);
        let rest = events.drop_first();
        law_every_operation_keeps_wf(v, e);
        law_named_labels_never_repeat(w, rest);
        law_runs_keep_wf(w, rest);
        let tail = w.named_numbers(rest);
        assert(w.run(rest) == v.run(events));
        if e is Name {
            assert(ns == seq![v.counter + 1] + tail);
            assert forall|i: int| 0 <= i < ns.len() implies v.counter < #[trigger] ns[i]
                <= v.run(events).counter by {
                if i > 0 {
                    assert(ns[i] == tail[i - 1]);
                }
            }
            assert forall|i: int, j: int| 0 <= i < j < ns.len() implies ns[i] < ns[j] by {
                assert(ns[j] == tail[j - 1]);
                if i > 0 {
                    assert(ns[i] == tail[i - 1]);
                }
            }
        } else {
            assert(ns =~= tail);
        }
        assert forall|i: int, j: int|
            0 <= i < ns.len() && 0 <= j < ns.len() && i != j implies tab_label(ns[i]) != tab_label(
            ns[j],
        ) by {
            if tab_label(ns[i]) == tab_label(ns[j]) {
                lemma_tab_label_injective(ns[i], ns[j]);
            }
        }
        assert forall|i: int| 0 <= i < ns.len() implies !v.order.contains(
            tab_label(#[trigger] ns[i]),
        ) by {
            if v.order.contains(tab_label(ns[i])) {
                let k = choose|k: int| 0 <= k < v.order.len() && v.order[k] == tab_label(ns[i]);
                assert(issued(v.order[k], v.counter));
                let m = choose|m: nat| 1 <= m <= v.counter && v.order[k] == tab_label(m);
                lemma_tab_label_injective(m, ns[i]);
            }
        }
    }
}

impl Tabs {
    /// A window without tabs, with the default theme and no download.
    pub fn new() -> (t: Tabs)
        ensures
            t@ == initial_state(),
            t@.wf(),
    {
        let t = Tabs {
            order: Vec::new(),
            active: None,
            counter: 0,
            paper: "#f6f1e5".to_string(),
            ink: "#23211b".to_string(),
            downloading: StringHashMap::new(),
        };
        proof {
            law_default_theme_is_valid();
        }
        assert(t@.order =~= Seq::<Seq<char>>::empty());
        assert(t@.downloading =~= Map::<Seq<char>, Seq<char>>::empty());
        t
    }

    /// The active tab's label, if any.
    pub fn active(&self) -> (r: Option<String>)
        ensures
            r.deep_view() == self@.active,
    {
        match &self.active {
            Some(a) => Some(a.clone()),
            None => None,
        }
    }

    /// The active tab's label, or the error given when there is none.
    pub fn active_tab(&self) -> (r: Result<String, String>)
        ensures
            match self@.active {
                Some(a) => r matches Ok(l) && l@ == a,
                None => r matches Err(e) && e@ == "sin pestaña activa"@,
            },
    {
        match &self.active {
            Some(a) => Ok(a.clone()),
            None => Err("sin pestaña activa".to_string()),
        }
    }

    /// The labels in column order.
    pub fn labels(&self) -> (r: Vec<String>)
        ensures
            r@.map_values(|s: String| s@) == self@.order,
    {
        let ghost order = self@.order;
        let mut r: Vec<String> = Vec::new();
        let mut i: usize = 0;
        while i < self.order.len()
            invariant
                order == self.order@.map_values(|s: String| s@),
                i <= self.order.len(),
                r@.len() == i,
                forall|j: int| 0 <= j < i ==> #[trigger] r@[j]@ == order[j],
            decreases self.order.len() - i,
        {
            let c = self.order[i].clone();
            r.push(c);
            i += 1;
        }
        assert(r@.map_values(|s: String| s@) =~= order);
        r
    }

    /// The number of tabs named so far.
    pub fn counter(&self) -> (r: usize)
        ensures
            r == self@.counter,
    {
        self.counter
    }

    /// Whether no tab is open.
    pub fn is_empty(&self) -> (b: bool)
        ensures
            b == (self@.order.len() == 0),
    {
        self.order.len() == 0
    }

    /// Whether a tab labelled `label` is open.
    pub fn is_open(&self, label: &str) -> (b: bool)
        ensures
            b == self@.order.contains(label@),
    {
        let r = self.position(label);
        r.is_some()
    }

    /// Position of `label` in the column.
    fn position(&self, label: &str) -> (r: Option<usize>)
        ensures
            match r {
                Some(i) => i < self@.order.len() && self@.order[i as int] == label@,
                None => !self@.order.contains(label@),
            },
    {
        let ghost labels = self@.order;
        let mut i: usize = 0;
        while i < self.order.len()
            invariant
                labels == self.order@.map_values(|s: String| s@),
                labels == self@.order,
                i <= self.order.len(),
                forall|k: int| 0 <= k < i ==> labels[k] != label@,
            decreases self.order.len() - i,
        {
            if same_text(self.order[i].as_str(), label) {
                return Some(i);
            }
            i += 1;
        }
        None
    }

    /// The theme's paper colour.
    pub fn paper(&self) -> (r: &str)
        ensures
            r@ == self@.paper,
    {
        self.paper.as_str()
    }

    /// The theme's ink colour.
    pub fn ink(&self) -> (r: &str)
        ensures
            r@ == self@.ink,
    {
        self.ink.as_str()
    }

    /// The ink script for the current theme.
    pub fn ink_init_script(&self) -> (r: String)
        ensures
            r@ == ink_script(self@.paper, self@.ink),
    {
        ink_init_script(self.paper.as_str(), self.ink.as_str())
    }

    /// The blank home page, in the current paper colour.
    pub fn home_url(&self) -> (r: Result<WebUrl, String>)
        ensures
            url_result_view(r) == url_parse(home_page(self@.paper)),
    {
        home_url(self.paper.as_str())
    }

    /// Names the next tab: the counter goes up by one and gives its number
    /// and label. That label is not among the open tabs.
    pub fn next_tab(&mut self) -> (r: (usize, String))
        requires
            old(self)@.wf(),
            old(self)@.counter < usize::MAX,
        ensures
            final(self)@ == old(self)@.named(),
            final(self)@.wf(),
            r.0 == final(self)@.counter,
            r.1@ == tab_label(r.0 as nat),
            !final(self)@.order.contains(r.1@),
    {
        proof {
            law_named_label_is_fresh(self@);
        }
        self.counter = self.counter + 1;
        let n = self.counter;
        let label = tab_label_string(n);
        (n, label)
    }

    /// Whether the tab numbered `n` may join the column: it was named by
    /// `next_tab` and is not open yet.
    pub fn can_open(&self, n: usize) -> (b: bool)
        ensures
            b == (1 <= n <= self@.counter && !self@.order.contains(tab_label(n as nat))),
    {
        if n < 1 || n > self.counter {
            return false;
        }
        let label = tab_label_string(n);
        !self.is_open(label.as_str())
    }

    /// The tab numbered `n` was created: it joins the end of the column and
    /// becomes the active one. Gives the previously active tab, to hide.
    pub fn tab_opened(&mut self, n: usize) -> (prev: Option<String>)
        requires
            old(self)@.wf(),
            1 <= n <= old(self)@.counter,
            !old(self)@.order.contains(tab_label(n as nat)),
        ensures
            final(self)@ == old(self)@.opened(n as nat),
            final(self)@.wf(),
            prev.deep_view() == old(self)@.active,
    {
        proof {
            law_opened_keeps_wf(self@, n as nat);
        }
        let ghost before = self@;
        let label = tab_label_string(n);
        let prev = match &self.active {
            Some(a) => Some(a.clone()),
            None => None,
        };
        self.order.push(label.clone());
        self.active = Some(label);
        assert(self@.order =~= before.order.push(tab_label(n as nat)));
        prev
    }

    /// Makes `label` the active tab. An unknown label is refused and
    /// changes nothing; otherwise gives the previously active tab when it
    /// is another one, to hide.
    pub fn select_tab(&mut self, label: &str) -> (r: Result<Option<String>, String>)
        requires
            old(self)@.wf(),
        ensures
            final(self)@ == old(self)@.selected(label@),
            final(self)@.wf(),
            !old(self)@.order.contains(label@) ==> (r matches Err(e) && e@ == "pestaña desconocida"@),
            old(self)@.order.contains(label@) ==> (r matches Ok(prev) && prev.deep_view() == old(
                self,
            )@.hidden_on_select(label@)),
    {
        proof {
            law_selected_keeps_wf(self@, label@);
        }
        if !self.is_open(label) {
            return Err("pestaña desconocida".to_string());
        }
        let prev = match &self.active {
            Some(a) => if !same_text(a.as_str(), label) {
                Some(a.clone())
            } else {
                None
            },
            None => None,
        };
        self.active = Some(label.to_string());
        Ok(prev)
    }

    /// Closes `label`. An unknown label is refused and changes nothing.
    /// Otherwise the tab leaves the column; if it was the active one, its
    /// left neighbour (or, for the first tab, its right one) becomes
    /// active and is to be shown; when no tab is left a new home tab is to
    /// be opened.
    pub fn close_tab(&mut self, label: &str) -> (r: Result<AfterClose, String>)
        requires
            old(self)@.wf(),
        ensures
            final(self)@ == old(self)@.closed(label@),
            final(self)@.wf(),
            !old(self)@.order.contains(label@) ==> (r matches Err(e) && e@ == "pestaña desconocida"@),
            old(self)@.order.contains(label@) ==> (r matches Ok(step) && step@ == old(
                self,
            )@.close_step(label@)),
    {
        proof {
            law_closed_keeps_wf(self@, label@);
        }
        let ghost before = self@;
        let i = match self.position(label) {
            Some(i) => i,
            None => {
                return Err("pestaña desconocida".to_string());
            },
        };
        proof {
            lemma_index_unique(before, label@, i as int);
        }
        let was_active = match &self.active {
            Some(a) => same_text(a.as_str(), label),
            None => false,
        };
        self.order.remove(i);
        assert(self@.order =~= before.order.remove(i as int));
        if was_active {
            let next: Option<String> = if self.order.len() == 0 {
                None
            } else if i > 0 {
                Some(self.order[i - 1].clone())
            } else {
                Some(self.order[0].clone())
            };
            self.active = match &next {
                Some(n) => Some(n.clone()),
                None => None,
            };
            match next {
                Some(n) => Ok(AfterClose::Select(n)),
                None => Ok(AfterClose::OpenHome),
            }
        } else if self.order.len() == 0 {
            Ok(AfterClose::OpenHome)
        } else {
            Ok(AfterClose::Stay)
        }
    }

    /// Takes the theme sent by the interface. A colour that is not
    /// `#rrggbb` is refused and changes nothing; otherwise the theme is
    /// kept and the labels of all tabs are given, to paint them again.
    pub fn set_theme(&mut self, paper: &str, ink: &str) -> (r: Result<Vec<String>, String>)
        requires
            old(self)@.wf(),
        ensures
            final(self)@.wf(),
            !(hex_color(paper@) && hex_color(ink@)) ==> {
                &&& r matches Err(e) && e@ == "color inválido: se espera #rrggbb"@
                &&& final(self)@ == old(self)@
            },
            hex_color(paper@) && hex_color(ink@) ==> {
                &&& r matches Ok(labels) && labels@.map_values(|s: String| s@) == old(
                    self,
                )@.order
                &&& final(self)@ == old(self)@.themed(paper@, ink@)
            },
    {
        if !valid_hex(paper) || !valid_hex(ink) {
            return Err("color inválido: se espera #rrggbb".to_string());
        }
        self.paper = paper.to_string();
        self.ink = ink.to_string();
        Ok(self.labels())
    }

    /// A download of `url` started, saved at `path`.
    pub fn download_started(&mut self, url: String, path: String)
        requires
            old(self)@.wf(),
        ensures
            final(self)@ == old(self)@.download_begun(url@, path@),
            final(self)@.wf(),
    {
        let ghost before = self@;
        let ghost (u, p) = (url@, path@);
        self.downloading.insert(url, path);
        assert(self@.downloading =~= before.downloading.insert(u, p));
    }

    /// The download of `url` ended: it is no longer in flight.
    pub fn download_finished(&mut self, url: &str)
        requires
            old(self)@.wf(),
        ensures
            final(self)@ == old(self)@.download_ended(url@),
            final(self)@.wf(),
    {
        let ghost before = self@;
        self.downloading.remove(url);
        assert(self@.downloading =~= before.downloading.remove(url@));
    }

    /// Whether the download of `url` is still in flight.
    pub fn is_downloading(&self, url: &str) -> (b: bool)
        ensures
            b == self@.downloading.contains_key(url@),
    {
        self.downloading.contains_key(url)
    }
}

} // verus!
