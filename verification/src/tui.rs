//! The terminal front end's state and how each key press changes it.
//!
//! The front end shows a root menu, the host's events and open requests, a
//! screen for answering one request, a list of plugin files to load, and the
//! pages that plugins describe. A key press changes the state and may ask the
//! application to do one thing outside (an `Action`): scan the plugin
//! directory, load a page, send a page event, or answer a request.

use vstd::prelude::*;
use crate::host_view::{
    candidate_entities, candidates, entity_owner, lemma_candidates_len, lemma_page_rows_match_ids,
    page_count, page_names,
    lemma_selectable_increasing, lemma_selectable_rows, owner_of, owner_text, page_ids,
    page_ids_in_root, resolution, resolve_request, root_items, root_rows, rule, selectable,
    selectable_root_indices, texts, EntityId, HostState, HostView, Resolution, UserRequest,
};
use std::collections::HashMap;
use crate::keyed::KeyedList;
use crate::page::{flat, flatten, rows, strings_view, Component, PageItem, PageRow};
use crate::text::{
    decimal, decimal_text, has_prefix, lemma_text_le_total, same_text, starts_with, text_at_most,
    text_le,
};

verus! {

broadcast use vstd::std_specs::hash::group_hash_axioms;

/// A plugin file found in the plugin directory: its path, and its file name
/// without the extension, if it has one.
#[derive(Debug)]
pub struct PluginFile {
    pub path: String,
    pub stem: Option<String>,
}

impl View for PluginFile {
    type V = (Seq<char>, Option<Seq<char>>);

    open spec fn view(&self) -> (Seq<char>, Option<Seq<char>>) {
        (
            self.path@,
            match self.stem {
                Some(s) => Some(s@),
                None => None,
            },
        )
    }
}

/// An entry of the plugin directory: its path, and its extension and its
/// file name without the extension where the path has them.
#[derive(Debug)]
pub struct FoundFile {
    pub path: String,
    pub extension: Option<String>,
    pub stem: Option<String>,
}

/// The text of an optional string.
pub open spec fn opt_text(o: Option<String>) -> Option<Seq<char>> {
    match o {
        Some(s) => Some(s@),
        None => None,
    }
}

impl View for FoundFile {
    type V = (Seq<char>, Option<Seq<char>>, Option<Seq<char>>);

    open spec fn view(&self) -> (Seq<char>, Option<Seq<char>>, Option<Seq<char>>) {
        (self.path@, opt_text(self.extension), opt_text(self.stem))
    }
}

/// The plugin files among the entries of the plugin directory: those with
/// the extension `wasm`, in the order of the entries.
pub open spec fn wasm_files(es: Seq<(Seq<char>, Option<Seq<char>>, Option<Seq<char>>)>) -> Seq<
    (Seq<char>, Option<Seq<char>>),
>
    decreases es.len(),
{
    if es.len() == 0 {
        Seq::empty()
    } else {
        let rest = wasm_files(es.drop_last());
        if es.last().1 == Some("wasm"@) {
            rest.push((es.last().0, es.last().2))
        } else {
            rest
        }
    }
}

/// The files of a list, taken as texts.
pub open spec fn files_view(v: Seq<PluginFile>) -> Seq<(Seq<char>, Option<Seq<char>>)> {
    v.map_values(|f: PluginFile| f@)
}

/// Each file's path comes no later than the next one's.
pub open spec fn sorted_by_path(v: Seq<(Seq<char>, Option<Seq<char>>)>) -> bool {
    forall|k: int| 0 <= k < v.len() - 1 ==> text_le(#[trigger] v[k].0, v[k + 1].0)
}

/// The plugin files among the entries of the plugin directory, those with
/// the extension `wasm`, sorted by path.
pub fn plugin_files(found: Vec<FoundFile>) -> (r: Vec<PluginFile>)
    ensures
        files_view(r@).to_multiset() == wasm_files(found@.map_values(|e: FoundFile| e@)).to_multiset(),
        sorted_by_path(files_view(r@)),
{
    let ghost es = found@.map_values(|e: FoundFile| e@);
    let mut r: Vec<PluginFile> = Vec::new();
    let mut found = found;
    let ghost all = found@;
    proof {
        broadcast use vstd::multiset::group_multiset_properties, vstd::seq_lib::group_to_multiset_ensures;

        assert(es.subrange(0, all.len() as int) =~= es);
        assert(files_view(r@).to_multiset().len() == 0);
        assert(files_view(r@).to_multiset() =~= vstd::multiset::Multiset::empty());
    }
    // Take the entries from the back so that each can be moved out.
    while found.len() > 0
        invariant
            found@.len() <= all.len(),
            es.len() == all.len(),
            found@ == all.subrange(0, found@.len() as int),
            es == all.map_values(|e: FoundFile| e@),
            files_view(r@).to_multiset().add(wasm_files(es.subrange(0, found@.len() as int)).to_multiset())
                == wasm_files(es).to_multiset(),
            sorted_by_path(files_view(r@)),
        decreases found@.len(),
    {
        let e = found.pop().unwrap();
        let ghost k = found@.len() as int;
        proof {
            broadcast use vstd::multiset::group_multiset_axioms, vstd::seq_lib::group_to_multiset_ensures;

            assert(es.subrange(0, k + 1).drop_last() =~= es.subrange(0, k));
            assert(es.subrange(0, k + 1).last() == e@);
            assert(found@ =~= all.subrange(0, k));
        }
        let is_wasm = match &e.extension {
            Some(x) => same_text(x.as_str(), "wasm"),
            None => false,
        };
        if is_wasm {
            let file = PluginFile { path: e.path, stem: e.stem };
            let mut p: usize = 0;
            while p < r.len() && text_at_most(r[p].path.as_str(), file.path.as_str())
                invariant
                    p <= r@.len(),
                    forall|j: int| 0 <= j < p ==> text_le(#[trigger] r@[j].path@, file.path@),
                decreases r@.len() - p,
            {
                p = p + 1;
            }
            let ghost before = files_view(r@);
            proof {
                if p < r@.len() {
                    lemma_text_le_total(r@[p as int].path@, file.path@);
                }
            }
            r.insert(p, file);
            proof {
                broadcast use vstd::multiset::group_multiset_axioms, vstd::seq_lib::group_to_multiset_ensures;

                assert(files_view(r@) =~= before.insert(p as int, file@));
                vstd::seq_lib::to_multiset_insert(before, p as int, file@);
                vstd::seq_lib::to_multiset_build(wasm_files(es.subrange(0, k)), file@);
                let v = files_view(r@);
                assert forall|j: int| 0 <= j < v.len() - 1 implies text_le(#[trigger] v[j].0, v[j + 1].0) by {
                    if j + 1 < p {
                        assert(v[j] == before[j] && v[j + 1] == before[j + 1]);
                    } else if j + 1 == p {
                        assert(v[j] == before[j]);
                    } else if j == p {
                        assert(v[j + 1] == before[j]);
                    } else {
                        assert(v[j] == before[j - 1] && v[j + 1] == before[j]);
                    }
                }
                let rm = before.to_multiset();
                let wk = wasm_files(es.subrange(0, k)).to_multiset();
                assert(rm.insert(file@).add(wk) =~= rm.add(wk.insert(file@)));
            }
        }
    }
    proof {
        broadcast use vstd::multiset::group_multiset_properties, vstd::seq_lib::group_to_multiset_ensures;

        assert(es.subrange(0, 0) =~= Seq::<(Seq<char>, Option<Seq<char>>, Option<Seq<char>>)>::empty());
        assert(wasm_files(es.subrange(0, 0)).to_multiset().len() == 0);
        assert(wasm_files(es.subrange(0, 0)).to_multiset() =~= vstd::multiset::Multiset::empty());
        assert(files_view(r@).to_multiset().add(vstd::multiset::Multiset::empty()) =~= files_view(r@).to_multiset());
    }
    r
}

/// The screen that the front end shows.
#[derive(Debug)]
pub enum Screen {
    Root,
    Events,
    Requests,
    FulfillRequest { request: UserRequest },
    BrowsePlugins { files: Vec<PluginFile> },
    LoadingPlugin { path: String, name: String },
    Page(u64),
}

/// A screen, its texts taken as character sequences.
pub enum ScreenState {
    Root,
    Events,
    Requests,
    FulfillRequest(UserRequest),
    BrowsePlugins(Seq<(Seq<char>, Option<Seq<char>>)>),
    LoadingPlugin(Seq<char>, Seq<char>),
    Page(u64),
}

impl View for Screen {
    type V = ScreenState;

    open spec fn view(&self) -> ScreenState {
        match self {
            Screen::Root => ScreenState::Root,
            Screen::Events => ScreenState::Events,
            Screen::Requests => ScreenState::Requests,
            Screen::FulfillRequest { request } => ScreenState::FulfillRequest(*request),
            Screen::BrowsePlugins { files } => ScreenState::BrowsePlugins(
                files@.map_values(|f: PluginFile| f@),
            ),
            Screen::LoadingPlugin { path, name } => ScreenState::LoadingPlugin(path@, name@),
            Screen::Page(id) => ScreenState::Page(*id),
        }
    }
}

/// A key press, as far as the front end tells keys apart.
#[derive(Debug, Clone, Copy, PartialEq, Eq, Structural)]
pub enum Key {
    Char(char),
    Up,
    Down,
    Left,
    Right,
    Enter,
    Esc,
    Backspace,
    Other,
}

/// What a page tells its plugin.
#[derive(Debug)]
pub enum PageEvent {
    ButtonClicked(String),
    /// A form was submitted, with the values of its fields by field id.
    FormSubmitted(String, KeyedList<String, String>),
}

/// What the application is to do after a key press.
#[derive(Debug)]
pub enum Action {
    Nothing,
    /// Scan the plugin directory and show the files found.
    ScanPlugins,
    /// Ask the plugin of a page to load it, then refresh the page.
    LoadPage(u64),
    /// Send an event to the plugin of a page, then refresh the page.
    Update(u64, PageEvent),
    /// Answer a request with an entity.
    Resolve(Resolution),
    /// Deny the request with this id.
    Deny(u64),
}

/// An action, its texts taken as character sequences.
pub enum ActionState {
    Nothing,
    ScanPlugins,
    LoadPage(u64),
    ButtonClicked(u64, Seq<char>),
    FormSubmitted(u64, Seq<char>, Map<Seq<char>, Seq<char>>),
    Resolve(Resolution),
    Deny(u64),
}

impl View for Action {
    type V = ActionState;

    open spec fn view(&self) -> ActionState {
        match self {
            Action::Nothing => ActionState::Nothing,
            Action::ScanPlugins => ActionState::ScanPlugins,
            Action::LoadPage(p) => ActionState::LoadPage(*p),
            Action::Update(p, PageEvent::ButtonClicked(id)) => ActionState::ButtonClicked(*p, id@),
            Action::Update(p, PageEvent::FormSubmitted(f, values)) => ActionState::FormSubmitted(
                *p,
                f@,
                values@,
            ),
            Action::Resolve(r) => ActionState::Resolve(*r),
            Action::Deny(id) => ActionState::Deny(*id),
        }
    }
}

/// The front end's state.
#[derive(Debug)]
pub struct App {
    pub screen: Screen,
    pub cursor: usize,
    pub page_items: Vec<PageItem>,
    /// The values typed or picked in page forms, by form id and field id.
    pub form_values: KeyedList<(String, String), String>,
    /// The option picked in each dropdown, by the dropdown's row.
    pub dropdown_indices: HashMap<usize, usize>,
    pub input_mode: bool,
    pub status: Option<String>,
    pub should_quit: bool,
}

/// The front end's state, its texts taken as character sequences.
#[verifier::ext_equal]
pub struct AppState {
    pub screen: ScreenState,
    pub cursor: usize,
    pub items: Seq<PageRow>,
    pub forms: Map<(Seq<char>, Seq<char>), Seq<char>>,
    pub drops: Map<usize, usize>,
    pub input_mode: bool,
    pub status: Option<Seq<char>>,
    pub quit: bool,
}

impl View for App {
    type V = AppState;

    open spec fn view(&self) -> AppState {
        AppState {
            screen: self.screen@,
            cursor: self.cursor,
            items: rows(self.page_items@),
            forms: self.form_values@,
            drops: self.dropdown_indices@,
            input_mode: self.input_mode,
            status: match self.status {
                Some(s) => Some(s@),
                None => None,
            },
            quit: self.should_quit,
        }
    }
}

/// The options of a dropdown row; nothing for any other row.
pub open spec fn row_options(r: PageRow) -> Seq<Seq<char>> {
    match r {
        PageRow::Dropdown { options, .. } => options,
        _ => Seq::empty(),
    }
}

/// Every remembered dropdown choice points at one of the dropdown's options.
pub open spec fn choices_in_range(s: AppState) -> bool {
    forall|i: int|
        0 <= i < s.items.len() && s.items[i] is Dropdown && row_options(s.items[i]).len() > 0
            && #[trigger] s.drops.contains_key(i as usize) ==> s.drops[i as usize] < row_options(
            s.items[i],
        ).len()
}

impl App {
    /// The state is well formed.
    pub open spec fn wf(&self) -> bool {
        &&& self.form_values.wf()
        &&& choices_in_range(self@)
        &&& self.cursor < usize::MAX
    }
}

/// The state on the root screen with the page forgotten; only the request to
/// quit is kept.
pub open spec fn back(s: AppState) -> AppState {
    AppState {
        screen: ScreenState::Root,
        cursor: 0,
        items: Seq::empty(),
        forms: Map::empty(),
        drops: Map::empty(),
        input_mode: false,
        status: None,
        quit: s.quit,
    }
}

/// The next position in a list of `count` rows, wrapping to the first.
pub open spec fn wrap_next(c: usize, count: nat) -> usize {
    if count > 0 {
        ((c + 1) % (count as int)) as usize
    } else {
        c
    }
}

/// The previous position in a list of `count` rows, wrapping to the last.
pub open spec fn wrap_prev(c: usize, count: nat) -> usize {
    if count > 0 {
        if c == 0 {
            (count - 1) as usize
        } else {
            (c - 1) as usize
        }
    } else {
        c
    }
}

/// From offset `k` on, the first row after `c` (going down and wrapping)
/// that takes the cursor, or `c` itself when the walk comes back to it.
pub open spec fn seek_down(items: Seq<PageRow>, c: int, k: int) -> int
    decreases items.len() + 1 - k,
{
    if k > items.len() || items.len() == 0 || k < 1 {
        c
    } else {
        let p = (c + k) % (items.len() as int);
        if items[p].interactive() || p == c {
            p
        } else {
            seek_down(items, c, k + 1)
        }
    }
}

/// From offset `k` on, the first row before `c` (going up and wrapping)
/// that takes the cursor, or `c` itself when the walk comes back to it.
pub open spec fn seek_up(items: Seq<PageRow>, c: int, k: int) -> int
    decreases items.len() + 1 - k,
{
    if k > items.len() || items.len() == 0 || k < 1 {
        c
    } else {
        let p = (c - k) % (items.len() as int);
        if items[p].interactive() || p == c {
            p
        } else {
            seek_up(items, c, k + 1)
        }
    }
}

/// Some row takes the cursor.
pub open spec fn any_interactive(items: Seq<PageRow>) -> bool {
    exists|i: int| 0 <= i < items.len() && #[trigger] items[i].interactive()
}

/// The first position from `k` on whose value is at least `c`, or -1.
pub open spec fn first_at_least(s: Seq<usize>, c: usize, k: int) -> int
    decreases s.len() - k,
{
    if k >= s.len() || k < 0 {
        -1
    } else if s[k] >= c {
        k
    } else {
        first_at_least(s, c, k + 1)
    }
}

/// The last position before `k` whose value is at most `c`, or -1.
pub open spec fn last_at_most(s: Seq<usize>, c: usize, k: int) -> int
    decreases k,
{
    if k <= 0 || k > s.len() {
        -1
    } else if s[k - 1] <= c {
        k - 1
    } else {
        last_at_most(s, c, k - 1)
    }
}

/// The cursor one step down on the current screen.
pub open spec fn down(s: AppState, h: HostState) -> AppState {
    match s.screen {
        ScreenState::FulfillRequest(r) => AppState {
            cursor: wrap_next(s.cursor, candidates(h.entities, r).len() + 1),
            ..s
        },
        ScreenState::BrowsePlugins(files) => AppState { cursor: wrap_next(s.cursor, files.len()), ..s },
        ScreenState::Root => {
            let idx = selectable(root_rows(h));
            let pos = first_at_least(idx, s.cursor, 0);
            if pos >= 0 {
                AppState {
                    cursor: if pos + 1 < idx.len() {
                        idx[pos + 1]
                    } else {
                        idx[0]
                    },
                    ..s
                }
            } else {
                s
            }
        },
        ScreenState::Page(_) => if s.items.len() == 0 {
            s
        } else {
            AppState { cursor: seek_down(s.items, s.cursor as int, 1) as usize, ..s }
        },
        ScreenState::Requests => AppState { cursor: wrap_next(s.cursor, h.requests.len()), ..s },
        _ => s,
    }
}

/// The cursor one step up on the current screen.
pub open spec fn up(s: AppState, h: HostState) -> AppState {
    match s.screen {
        ScreenState::FulfillRequest(r) => AppState {
            cursor: wrap_prev(s.cursor, candidates(h.entities, r).len() + 1),
            ..s
        },
        ScreenState::BrowsePlugins(files) => AppState { cursor: wrap_prev(s.cursor, files.len()), ..s },
        ScreenState::Root => {
            let idx = selectable(root_rows(h));
            let pos = last_at_most(idx, s.cursor, idx.len() as int);
            if pos >= 0 {
                AppState {
                    cursor: if pos > 0 {
                        idx[pos - 1]
                    } else {
                        idx[idx.len() - 1]
                    },
                    ..s
                }
            } else {
                s
            }
        },
        ScreenState::Page(_) => if s.items.len() == 0 {
            s
        } else {
            AppState { cursor: seek_up(s.items, s.cursor as int, 1) as usize, ..s }
        },
        ScreenState::Requests => AppState { cursor: wrap_prev(s.cursor, h.requests.len()), ..s },
        _ => s,
    }
}

/// Moving down on a page ends: the cursor is on a row, or some row takes it.
pub open spec fn down_ends(s: AppState) -> bool {
    s.screen is Page ==> (s.items.len() == 0 || s.cursor < s.items.len() || any_interactive(
        s.items,
    ))
}

/// Moving up on a page ends and reads only rows: the cursor is on a row, or
/// just past the last one while some row takes it.
pub open spec fn up_ends(s: AppState) -> bool {
    s.screen is Page ==> (s.items.len() == 0 || s.cursor < s.items.len() || (s.cursor
        == s.items.len() && any_interactive(s.items)))
}

/// The host's lists fit the machine's counters.
pub open spec fn host_fits(h: HostState) -> bool {
    h.entities.len() < usize::MAX
}

// --- Pages -----------------------------------------------------------------------

/// The first position from `k` on that holds `v`, or -1.
pub open spec fn first_index(s: Seq<Seq<char>>, v: Seq<char>, k: int) -> int
    decreases s.len() - k,
{
    if k >= s.len() || k < 0 {
        -1
    } else if s[k] == v {
        k
    } else {
        first_index(s, v, k + 1)
    }
}

/// The option of a dropdown that its form value picks: the first option
/// equal to the value, else the first option.
pub open spec fn chosen(
    forms: Map<(Seq<char>, Seq<char>), Seq<char>>,
    form_id: Seq<char>,
    id: Seq<char>,
    options: Seq<Seq<char>>,
) -> usize {
    if forms.contains_key((form_id, id)) && first_index(options, forms[(form_id, id)], 0) >= 0 {
        first_index(options, forms[(form_id, id)], 0) as usize
    } else {
        0
    }
}

/// The dropdown choices with those of the first `n` rows set from the form
/// values.
pub open spec fn synced(
    drops: Map<usize, usize>,
    forms: Map<(Seq<char>, Seq<char>), Seq<char>>,
    items: Seq<PageRow>,
    n: int,
) -> Map<usize, usize>
    decreases n,
{
    if n <= 0 || n > items.len() {
        drops
    } else {
        let d = synced(drops, forms, items, n - 1);
        match items[n - 1] {
            PageRow::Dropdown { options, id, form_id, .. } => d.insert(
                (n - 1) as usize,
                chosen(forms, form_id, id, options),
            ),
            _ => d,
        }
    }
}

/// The first row from `k` on that takes the cursor, or -1.
pub open spec fn first_interactive(items: Seq<PageRow>, k: int) -> int
    decreases items.len() - k,
{
    if k >= items.len() || k < 0 {
        -1
    } else if items[k].interactive() {
        k
    } else {
        first_interactive(items, k + 1)
    }
}

/// The state after a page's rows are read again from its component tree
/// (none when the host has no interface for the page): the dropdowns pick
/// the options of their form values, and the cursor goes to the first row
/// that takes it, if any.
pub open spec fn refreshed(s: AppState, interface: Option<Component>) -> AppState {
    let items = match interface {
        Some(c) => flat(c, None),
        None => Seq::empty(),
    };
    let f = first_interactive(items, 0);
    AppState {
        items,
        drops: synced(s.drops, s.forms, items, items.len() as int),
        cursor: if f >= 0 {
            f as usize
        } else {
            s.cursor
        },
        ..s
    }
}

/// The value of a form field, or nothing.
pub open spec fn field_value(s: AppState, form_id: Seq<char>, id: Seq<char>) -> Seq<char> {
    if s.forms.contains_key((form_id, id)) {
        s.forms[(form_id, id)]
    } else {
        Seq::empty()
    }
}

/// The values of a form's fields, by field id.
pub open spec fn form_map(forms: Map<(Seq<char>, Seq<char>), Seq<char>>, form_id: Seq<char>) -> Map<
    Seq<char>,
    Seq<char>,
> {
    Map::new(|f: Seq<char>| forms.contains_key((form_id, f)), |f: Seq<char>| forms[(form_id, f)])
}

/// The option remembered for the dropdown in row `c`, or the first.
pub open spec fn stored_choice(s: AppState, c: usize) -> usize {
    if s.drops.contains_key(c) {
        s.drops[c]
    } else {
        0
    }
}

/// The dropdown in row `c` picks option `i`, and its form field takes it.
pub open spec fn pick(s: AppState, c: usize, i: usize) -> AppState {
    match s.items[c as int] {
        PageRow::Dropdown { options, id, form_id, .. } => AppState {
            drops: s.drops.insert(c, i),
            forms: s.forms.insert((form_id, id), options[i as int]),
            ..s
        },
        _ => s,
    }
}

// --- Keys ------------------------------------------------------------------------

/// The key is one that moves the cursor down.
pub open spec fn is_down(k: Key) -> bool {
    k == Key::Char('j') || k == Key::Down
}

/// The key is one that moves the cursor up.
pub open spec fn is_up(k: Key) -> bool {
    k == Key::Char('k') || k == Key::Up
}

/// The key is one that leaves the screen.
pub open spec fn is_leave(k: Key) -> bool {
    k == Key::Esc || k == Key::Char('q')
}

/// A key on the root menu.
pub open spec fn root_key(s: AppState, k: Key, h: HostState) -> (AppState, ActionState) {
    if k == Key::Char('q') {
        (AppState { quit: true, ..s }, ActionState::Nothing)
    } else if is_down(k) {
        (down(s, h), ActionState::Nothing)
    } else if is_up(k) {
        (up(s, h), ActionState::Nothing)
    } else if k == Key::Enter {
        let rows = root_rows(h);
        let c = s.cursor as int;
        if c >= rows.len() {
            (s, ActionState::Nothing)
        } else if rows[c] == "Load Plugin"@ {
            (s, ActionState::ScanPlugins)
        } else if has_prefix(rows[c], "Events"@) {
            (AppState { screen: ScreenState::Events, ..s }, ActionState::Nothing)
        } else if has_prefix(rows[c], "Requests"@) {
            (AppState { screen: ScreenState::Requests, cursor: 0, ..s }, ActionState::Nothing)
        } else {
            let ids = page_ids(h.entities);
            if ids.len() > 0 && c >= 4 && c - 4 < ids.len() {
                (
                    AppState { screen: ScreenState::Page(ids[c - 4]), cursor: 0, ..s },
                    ActionState::LoadPage(ids[c - 4]),
                )
            } else {
                (s, ActionState::Nothing)
            }
        }
    } else {
        (s, ActionState::Nothing)
    }
}

/// A key on the list of events.
pub open spec fn events_key(s: AppState, k: Key) -> (AppState, ActionState) {
    if is_leave(k) {
        (back(s), ActionState::Nothing)
    } else {
        (s, ActionState::Nothing)
    }
}

/// A key on the list of requests.
pub open spec fn requests_key(s: AppState, k: Key, h: HostState) -> (AppState, ActionState) {
    if is_leave(k) {
        (back(s), ActionState::Nothing)
    } else if is_down(k) {
        (down(s, h), ActionState::Nothing)
    } else if is_up(k) {
        (up(s, h), ActionState::Nothing)
    } else if k == Key::Enter && s.cursor < h.requests.len() {
        (
            AppState {
                screen: ScreenState::FulfillRequest(h.requests[s.cursor as int]),
                cursor: 0,
                ..s
            },
            ActionState::Nothing,
        )
    } else {
        (s, ActionState::Nothing)
    }
}

/// A key on the screen that answers request `r`: the rows are the entities
/// that can answer it, then a row that denies it.
pub open spec fn fulfill_key(s: AppState, k: Key, h: HostState, r: UserRequest) -> (
    AppState,
    ActionState,
) {
    if is_leave(k) {
        (AppState { screen: ScreenState::Requests, cursor: 0, ..s }, ActionState::Nothing)
    } else if is_down(k) {
        (down(s, h), ActionState::Nothing)
    } else if is_up(k) {
        (up(s, h), ActionState::Nothing)
    } else if k == Key::Enter {
        let c = candidates(h.entities, r);
        (
            back(s),
            if s.cursor < c.len() {
                match resolution(r, c[s.cursor as int]) {
                    Some(x) => ActionState::Resolve(x),
                    None => ActionState::Nothing,
                }
            } else {
                ActionState::Deny(r.request_id())
            },
        )
    } else {
        (s, ActionState::Nothing)
    }
}

/// A key on the list of plugin files.
pub open spec fn browse_key(
    s: AppState,
    k: Key,
    h: HostState,
    files: Seq<(Seq<char>, Option<Seq<char>>)>,
) -> (AppState, ActionState) {
    if is_leave(k) {
        (back(s), ActionState::Nothing)
    } else if is_down(k) {
        (down(s, h), ActionState::Nothing)
    } else if is_up(k) {
        (up(s, h), ActionState::Nothing)
    } else if k == Key::Enter && s.cursor < files.len() {
        let f = files[s.cursor as int];
        (
            AppState {
                screen: ScreenState::LoadingPlugin(
                    f.0,
                    match f.1 {
                        Some(stem) => stem,
                        None => "plugin"@,
                    },
                ),
                ..s
            },
            ActionState::Nothing,
        )
    } else {
        (s, ActionState::Nothing)
    }
}

/// A key on page `p` while no text field is being edited.
pub open spec fn page_key(s: AppState, k: Key, h: HostState, p: u64) -> (AppState, ActionState) {
    let c = s.cursor;
    if is_leave(k) {
        (back(s), ActionState::Nothing)
    } else if is_down(k) {
        (down(s, h), ActionState::Nothing)
    } else if is_up(k) {
        (up(s, h), ActionState::Nothing)
    } else if k == Key::Left || k == Key::Right {
        if c < s.items.len() && s.items[c as int] is Dropdown && row_options(s.items[c as int]).len()
            > 0 {
            let n = row_options(s.items[c as int]).len();
            let old = stored_choice(s, c);
            let new = if k == Key::Right {
                ((old + 1) % (n as int)) as usize
            } else if old == 0 {
                (n - 1) as usize
            } else {
                (old - 1) as usize
            };
            (pick(s, c, new), ActionState::Nothing)
        } else {
            (s, ActionState::Nothing)
        }
    } else if k == Key::Enter && c < s.items.len() {
        match s.items[c as int] {
            PageRow::Button { id, .. } => (s, ActionState::ButtonClicked(p, id)),
            PageRow::Input { .. } => (AppState { input_mode: true, ..s }, ActionState::Nothing),
            PageRow::Dropdown { options, .. } => if options.len() == 0 {
                (s, ActionState::Nothing)
            } else {
                (
                    pick(s, c, ((stored_choice(s, c) + 1) % (options.len() as int)) as usize),
                    ActionState::Nothing,
                )
            },
            PageRow::Submit { form_id, .. } => (
                s,
                ActionState::FormSubmitted(p, form_id, form_map(s.forms, form_id)),
            ),
            PageRow::Label(_) => (s, ActionState::Nothing),
        }
    } else {
        (s, ActionState::Nothing)
    }
}

/// A key while the text field under the cursor is being edited.
pub open spec fn text_key(s: AppState, k: Key) -> AppState {
    let c = s.cursor as int;
    if c >= s.items.len() || !(s.items[c] is Input) {
        AppState { input_mode: false, ..s }
    } else {
        match s.items[c] {
            PageRow::Input { id, form_id, .. } => {
                let v = field_value(s, form_id, id);
                match k {
                    Key::Esc => AppState { input_mode: false, ..s },
                    Key::Enter => AppState { input_mode: false, ..s },
                    Key::Backspace => AppState {
                        forms: s.forms.insert(
                            (form_id, id),
                            if v.len() > 0 {
                                v.drop_last()
                            } else {
                                v
                            },
                        ),
                        ..s
                    },
                    Key::Char(ch) => AppState { forms: s.forms.insert((form_id, id), v.push(ch)), ..s },
                    _ => s,
                }
            },
            _ => s,
        }
    }
}

/// A key press, with whether Control was held: Control-C quits anywhere;
/// otherwise the key goes to the current screen.
pub open spec fn key_step(s: AppState, k: Key, ctrl: bool, h: HostState) -> (AppState, ActionState) {
    if k == Key::Char('c') && ctrl {
        (AppState { quit: true, ..s }, ActionState::Nothing)
    } else {
        match s.screen {
            ScreenState::Root => root_key(s, k, h),
            ScreenState::Events => events_key(s, k),
            ScreenState::Requests => requests_key(s, k, h),
            ScreenState::FulfillRequest(r) => fulfill_key(s, k, h, r),
            ScreenState::BrowsePlugins(files) => browse_key(s, k, h, files),
            ScreenState::LoadingPlugin(..) => (s, ActionState::Nothing),
            ScreenState::Page(p) => if s.input_mode {
                (text_key(s, k), ActionState::Nothing)
            } else {
                page_key(s, k, h, p)
            },
        }
    }
}

/// The key can be handled: on a page, moving the cursor comes to an end.
pub open spec fn key_ok(s: AppState, k: Key) -> bool {
    (s.screen is Page && !s.input_mode) ==> ((is_down(k) ==> down_ends(s)) && (is_up(k)
        ==> up_ends(s)))
}

/// `String::push`: appends the character to the string.
#[verifier::external_body]
fn push_char(s: &mut String, c: char)
    ensures
        final(s)@ == old(s)@.push(c),
{
    s.push(c);
}

/// Removes the last character of the string, if there is one.
fn pop_char(s: &mut String)
    ensures
        final(s)@ == (if old(s)@.len() > 0 {
            old(s)@.drop_last()
        } else {
            old(s)@
        }),
{
    let n = s.as_str().unicode_len();
    if n > 0 {
        let shorter = String::from_str(s.as_str().substring_char(0, n - 1));
        *s = shorter;
    }
}

proof fn lemma_same_choices(a: AppState, b: AppState)
    requires
        a.items == b.items,
        a.drops == b.drops,
        choices_in_range(a),
    ensures
        choices_in_range(b),
{
}

fn first_interactive_row(items: &Vec<PageItem>) -> (r: Option<usize>)
    ensures
        match r {
            Some(k) => k as int == first_interactive(rows(items@), 0) && k < items@.len(),
            None => first_interactive(rows(items@), 0) == -1,
        },
{
    let ghost rs = rows(items@);
    let mut k: usize = 0;
    while k < items.len()
        invariant
            rs == rows(items@),
            k <= items@.len(),
            first_interactive(rs, 0) == first_interactive(rs, k as int),
        decreases items@.len() - k,
    {
        if items[k].is_interactive() {
            return Some(k);
        }
        k = k + 1;
    }
    None
}

proof fn lemma_first_index_range(s: Seq<Seq<char>>, v: Seq<char>, k: int)
    requires
        k >= 0,
    ensures
        -1 <= first_index(s, v, k) < s.len(),
    decreases s.len() - k,
{
    if k < s.len() && s[k] != v {
        lemma_first_index_range(s, v, k + 1);
    }
}

proof fn lemma_first_interactive_range(items: Seq<PageRow>, k: int)
    requires
        k >= 0,
    ensures
        -1 <= first_interactive(items, k) < items.len(),
    decreases items.len() - k,
{
    if k < items.len() && !items[k].interactive() {
        lemma_first_interactive_range(items, k + 1);
    }
}

proof fn lemma_synced_at(
    d: Map<usize, usize>,
    f: Map<(Seq<char>, Seq<char>), Seq<char>>,
    items: Seq<PageRow>,
    n: int,
    j: int,
)
    requires
        0 <= j < n <= items.len(),
        items.len() <= usize::MAX,
        items[j] is Dropdown,
    ensures
        synced(d, f, items, n).contains_key(j as usize),
        synced(d, f, items, n)[j as usize] == chosen(
            f,
            items[j]->Dropdown_form_id,
            items[j]->Dropdown_id,
            items[j]->Dropdown_options,
        ),
    decreases n,
{
    if n - 1 != j {
        lemma_synced_at(d, f, items, n - 1, j);
    }
}

proof fn lemma_chosen_range(
    f: Map<(Seq<char>, Seq<char>), Seq<char>>,
    form_id: Seq<char>,
    id: Seq<char>,
    options: Seq<Seq<char>>,
)
    requires
        options.len() > 0,
    ensures
        chosen(f, form_id, id, options) < options.len(),
{
    if f.contains_key((form_id, id)) {
        lemma_first_index_range(options, f[(form_id, id)], 0);
    }
}

// --- Screen texts ----------------------------------------------------------------

/// The option that a dropdown shows: its form value when that is one of the
/// options, else the first option, else a dash.
pub open spec fn shown_option(
    forms: Map<(Seq<char>, Seq<char>), Seq<char>>,
    form_id: Seq<char>,
    id: Seq<char>,
    options: Seq<Seq<char>>,
) -> Seq<char> {
    if forms.contains_key((form_id, id)) && options.contains(forms[(form_id, id)]) {
        forms[(form_id, id)]
    } else if options.len() > 0 {
        options[0]
    } else {
        "\u{2014}"@
    }
}

/// The text of page row `i`: a label as it is, a button or a submit button
/// in brackets, a text field with its value (in brackets when under the
/// cursor, with a caret while it is edited), a dropdown with the option it
/// shows.
pub open spec fn row_text(s: AppState, i: int) -> Seq<char> {
    let selected = i == s.cursor && s.items[i].interactive();
    match s.items[i] {
        PageRow::Label(t) => t,
        PageRow::Button { text, .. } => "[ "@ + text + " ]"@,
        PageRow::Input { label, id, form_id } => {
            let v = field_value(s, form_id, id);
            if selected && s.input_mode {
                label + ": "@ + v + "\u{258c}"@
            } else if selected {
                label + ": ["@ + v + "]"@
            } else {
                label + ": "@ + v
            }
        },
        PageRow::Dropdown { label, options, id, form_id } => label + ": < "@ + shown_option(
            s.forms,
            form_id,
            id,
            options,
        ) + " >"@,
        PageRow::Submit { text, .. } => "[ "@ + text + " ]"@,
    }
}

/// How a row of a list is drawn.
#[derive(Debug, Clone, Copy, PartialEq, Eq, Structural)]
pub enum RowStyle {
    /// Grey text.
    Dim,
    /// The terminal's default.
    Plain,
    /// Black on white, in bold.
    Highlight,
    /// Black on white.
    FieldHighlight,
    /// Green text.
    Submit,
    /// Black on green, in bold.
    SubmitHighlight,
    /// Red text.
    Deny,
    /// White on red, in bold.
    DenyHighlight,
}

/// The style of page row `i`: labels grey; the row under the cursor
/// highlighted (a text field without bold, a submit button in green);
/// submit buttons green; the rest plain.
pub open spec fn row_style(s: AppState, i: int) -> RowStyle {
    let selected = i == s.cursor && s.items[i].interactive();
    match s.items[i] {
        PageRow::Label(_) => RowStyle::Dim,
        PageRow::Input { .. } => if selected {
            RowStyle::FieldHighlight
        } else {
            RowStyle::Plain
        },
        PageRow::Submit { .. } => if selected {
            RowStyle::SubmitHighlight
        } else {
            RowStyle::Submit
        },
        _ => if selected {
            RowStyle::Highlight
        } else {
            RowStyle::Plain
        },
    }
}

/// The key help of the status bar, for the current screen.
pub open spec fn help_text(s: AppState) -> Seq<char> {
    if s.input_mode {
        "  Enter: confirm  Esc: cancel"@
    } else {
        match s.screen {
            ScreenState::Root => "  j/k: navigate  Enter: select  q: quit"@,
            ScreenState::Page(_) => "  j/k: navigate  Enter: activate  \u{2190}/\u{2192}: cycle dropdown  Esc: back"@,
            ScreenState::Events => "  Esc/q: back"@,
            ScreenState::Requests => "  Esc/q: back"@,
            ScreenState::FulfillRequest(_) => "  j/k: navigate  Enter: select  Esc: back"@,
            ScreenState::BrowsePlugins(_) => "  j/k: navigate  Enter: load  Esc: cancel"@,
            ScreenState::LoadingPlugin(..) => ""@,
        }
    }
}

/// The status bar: the status message, if any, then the key help.
pub open spec fn status_text(s: AppState) -> Seq<char> {
    match s.status {
        Some(m) => m + "  "@ + help_text(s),
        None => help_text(s),
    }
}

/// The row that stands for a request in the list of requests.
pub open spec fn request_label_text(r: UserRequest) -> Seq<char> {
    match r {
        UserRequest::EthProviderSelection { chain_id, .. } => "EthProvider request for chain "@
            + decimal(chain_id as nat),
        UserRequest::VaultSelection { .. } => "Vault selection request"@,
        UserRequest::CoordinatorSelection { .. } => "Coordinator selection request"@,
    }
}

/// The title of the screen that answers a request.
pub open spec fn request_title_text(r: UserRequest) -> Seq<char> {
    match r {
        UserRequest::EthProviderSelection { .. } => " Fulfill: EthProvider Request "@,
        UserRequest::VaultSelection { .. } => " Fulfill: Vault Request "@,
        UserRequest::CoordinatorSelection { .. } => " Fulfill: Coordinator Request "@,
    }
}

/// What the screen that answers a request says the plugin needs; the
/// plugin is named by its name, or `unknown`.
pub open spec fn request_need_text(r: UserRequest, plugin: Option<Seq<char>>) -> Seq<char> {
    let name = match plugin {
        Some(n) => n,
        None => "unknown"@,
    };
    match r {
        UserRequest::EthProviderSelection { chain_id, .. } => "Plugin '"@ + name
            + "' needs an EthProvider for chain "@ + decimal(chain_id as nat),
        UserRequest::VaultSelection { .. } => "Plugin '"@ + name + "' needs a Vault"@,
        UserRequest::CoordinatorSelection { .. } => "Plugin '"@ + name + "' needs a Coordinator"@,
    }
}

/// The row that stands for a request in the list of requests.
pub fn request_label(r: &UserRequest) -> (t: String)
    ensures
        t@ == request_label_text(*r),
{
    match r {
        UserRequest::EthProviderSelection { chain_id, .. } => String::from_str(
            "EthProvider request for chain ",
        ).concat(decimal_text(*chain_id).as_str()),
        UserRequest::VaultSelection { .. } => String::from_str("Vault selection request"),
        UserRequest::CoordinatorSelection { .. } => String::from_str(
            "Coordinator selection request",
        ),
    }
}

/// The title of the screen that answers a request.
pub fn request_title(r: &UserRequest) -> (t: &'static str)
    ensures
        t@ == request_title_text(*r),
{
    match r {
        UserRequest::EthProviderSelection { .. } => " Fulfill: EthProvider Request ",
        UserRequest::VaultSelection { .. } => " Fulfill: Vault Request ",
        UserRequest::CoordinatorSelection { .. } => " Fulfill: Coordinator Request ",
    }
}

/// What the screen that answers a request says the plugin needs.
pub fn request_need(r: &UserRequest, plugin: Option<&str>) -> (t: String)
    ensures
        t@ == request_need_text(
            *r,
            match plugin {
                Some(n) => Some(n@),
                None => None,
            },
        ),
{
    let name = match plugin {
        Some(n) => String::from_str(n),
        None => String::from_str("unknown"),
    };
    match r {
        UserRequest::EthProviderSelection { chain_id, .. } => String::from_str("Plugin '").concat(
            name.as_str(),
        ).concat("' needs an EthProvider for chain ").concat(decimal_text(*chain_id).as_str()),
        UserRequest::VaultSelection { .. } => String::from_str("Plugin '").concat(
            name.as_str(),
        ).concat("' needs a Vault"),
        UserRequest::CoordinatorSelection { .. } => String::from_str("Plugin '").concat(
            name.as_str(),
        ).concat("' needs a Coordinator"),
    }
}

/// The row of an entity that can answer a request: its text, then the name
/// of the plugin that owns it.
pub open spec fn candidate_row(label: Seq<char>, owner: Option<Seq<char>>) -> Seq<char> {
    label + "  (plugin: "@ + owner_text(owner) + ")"@
}

/// The rows of the screen that answers a request: what the plugin needs,
/// one row per entity that can answer it, and the row that denies it.
pub open spec fn fulfill_texts(
    r: UserRequest,
    plugin: Option<Seq<char>>,
    es: Seq<(EntityId, Option<Seq<char>>)>,
    cands: Seq<EntityId>,
    labels: Seq<Seq<char>>,
) -> Seq<Seq<char>> {
    seq![request_need_text(r, plugin)] + Seq::new(
        cands.len(),
        |i: int| candidate_row(labels[i], owner_of(es, cands[i])),
    ) + seq!["[ Deny ]"@]
}

/// The rows of the screen that answers `request`; `labels` are the texts of
/// the entities that can answer it, one for each, in the host's order.
pub fn fulfill_rows(
    request: &UserRequest,
    plugin: Option<&str>,
    host: &HostView,
    labels: &Vec<String>,
) -> (rows: Vec<String>)
    requires
        labels.len() == candidates(host@.entities, *request).len(),
    ensures
        texts(rows@) == fulfill_texts(
            *request,
            match plugin {
                Some(n) => Some(n@),
                None => None,
            },
            host@.entities,
            candidates(host@.entities, *request),
            texts(labels@),
        ),
{
    let cands = candidate_entities(host, request);
    let ghost es = host@.entities;
    let ghost head = seq![
        request_need_text(
            *request,
            match plugin {
                Some(n) => Some(n@),
                None => None,
            },
        ),
    ];
    let mut rows: Vec<String> = Vec::new();
    rows.push(request_need(request, plugin));
    assert(texts(rows@) =~= head);
    for i in 0..cands.len()
        invariant
            es == host@.entities,
            cands.len() == labels.len(),
            texts(rows@) == head + Seq::new(
                i as nat,
                |k: int| candidate_row(labels@[k]@, owner_of(es, cands@[k])),
            ),
    {
        let owner = entity_owner(host, &cands[i]);
        let name = match owner {
            Some(n) => n,
            None => String::from_str("unknown"),
        };
        assert(name@ == owner_text(owner_of(es, cands@[i as int])));
        let row = labels[i].clone().concat("  (plugin: ").concat(name.as_str()).concat(")");
        assert(row@ == candidate_row(labels@[i as int]@, owner_of(es, cands@[i as int])));
        let ghost before = texts(rows@);
        rows.push(row);
        assert(texts(rows@) =~= before.push(row@));
        assert(texts(rows@) =~= head + Seq::new(
            (i + 1) as nat,
            |k: int| candidate_row(labels@[k]@, owner_of(es, cands@[k])),
        ));
    }
    let ghost mid = texts(rows@);
    rows.push(String::from_str("[ Deny ]"));
    assert(texts(rows@) =~= mid.push("[ Deny ]"@));
    assert(Seq::new(cands@.len(), |k: int| candidate_row(labels@[k]@, owner_of(es, cands@[k])))
        =~= Seq::new(
        cands@.len(),
        |k: int| candidate_row(texts(labels@)[k], owner_of(es, cands@[k])),
    ));
    assert(texts(rows@) =~= fulfill_texts(
        *request,
        match plugin {
            Some(n) => Some(n@),
            None => None,
        },
        es,
        cands@,
        texts(labels@),
    ));
    rows
}

/// The row of a plugin file: its name without the extension, or `?`.
pub open spec fn file_row(f: (Seq<char>, Option<Seq<char>>)) -> Seq<char> {
    match f.1 {
        Some(s) => s,
        None => "?"@,
    }
}

/// The rows of the screen that lists the plugin files of `dir`: one row per
/// file, or, when there is none, a row that says so.
pub open spec fn browse_texts(files: Seq<(Seq<char>, Option<Seq<char>>)>, dir: Seq<char>) -> Seq<
    Seq<char>,
> {
    if files.len() == 0 {
        seq!["No .wasm files found in "@ + dir]
    } else {
        files.map_values(|f: (Seq<char>, Option<Seq<char>>)| file_row(f))
    }
}

/// The rows of the screen that lists the plugin files found in `dir`.
pub fn plugin_file_rows(files: &Vec<PluginFile>, dir: &str) -> (rows: Vec<String>)
    ensures
        texts(rows@) == browse_texts(files@.map_values(|f: PluginFile| f@), dir@),
{
    let mut rows: Vec<String> = Vec::new();
    if files.len() == 0 {
        rows.push(String::from_str("No .wasm files found in ").concat(dir));
        assert(texts(rows@) =~= browse_texts(files@.map_values(|f: PluginFile| f@), dir@));
        return rows;
    }
    for i in 0..files.len()
        invariant
            texts(rows@) == files@.subrange(0, i as int).map_values(|f: PluginFile| file_row(f@)),
    {
        let row = match &files[i].stem {
            Some(s) => s.clone(),
            None => String::from_str("?"),
        };
        assert(row@ == file_row(files@[i as int]@));
        let ghost before = texts(rows@);
        rows.push(row);
        assert(texts(rows@) =~= before.push(row@));
        assert(texts(rows@) =~= files@.subrange(0, i + 1).map_values(
            |f: PluginFile| file_row(f@),
        ));
    }
    assert(texts(rows@) =~= browse_texts(files@.map_values(|f: PluginFile| f@), dir@));
    rows
}

/// The styled rows of a list, texts taken as character sequences.
pub open spec fn styled(v: Seq<(String, RowStyle)>) -> Seq<(Seq<char>, RowStyle)> {
    v.map_values(|p: (String, RowStyle)| (p.0@, p.1))
}

/// The style of row `i` of a plain list: highlighted under the cursor.
pub open spec fn list_style(i: int, cursor: usize) -> RowStyle {
    if i == cursor {
        RowStyle::Highlight
    } else {
        RowStyle::Plain
    }
}

/// The style of row `i` of the root menu: highlighted under the cursor,
/// else grey for a heading, else plain.
pub open spec fn root_style(row: Seq<char>, i: int, cursor: usize) -> RowStyle {
    if i == cursor {
        RowStyle::Highlight
    } else if has_prefix(row, rule()) {
        RowStyle::Dim
    } else {
        RowStyle::Plain
    }
}

/// The style of row `i` of the screen that answers a request with `n`
/// candidates: the description grey; a candidate highlighted when the
/// cursor is on it; the deny row red, white on red when the cursor is on it.
pub open spec fn fulfill_style(i: int, n: nat, cursor: usize) -> RowStyle {
    if i == 0 {
        RowStyle::Dim
    } else if i == n + 1 {
        if cursor == n {
            RowStyle::DenyHighlight
        } else {
            RowStyle::Deny
        }
    } else if i - 1 == cursor {
        RowStyle::Highlight
    } else {
        RowStyle::Plain
    }
}

/// The root menu as drawn.
pub open spec fn root_lines(rows: Seq<Seq<char>>, cursor: usize) -> Seq<(Seq<char>, RowStyle)> {
    Seq::new(rows.len(), |i: int| (rows[i], root_style(rows[i], i, cursor)))
}

/// The list of requests as drawn.
pub open spec fn request_lines(rs: Seq<UserRequest>, cursor: usize) -> Seq<(Seq<char>, RowStyle)> {
    Seq::new(rs.len(), |i: int| (request_label_text(rs[i]), list_style(i, cursor)))
}

/// The list of plugin files as drawn: the message alone, grey, when there
/// is no file.
pub open spec fn browse_lines(
    files: Seq<(Seq<char>, Option<Seq<char>>)>,
    dir: Seq<char>,
    cursor: usize,
) -> Seq<(Seq<char>, RowStyle)> {
    let rows = browse_texts(files, dir);
    Seq::new(
        rows.len(),
        |i: int|
            (rows[i], if files.len() == 0 {
                RowStyle::Dim
            } else {
                list_style(i, cursor)
            }),
    )
}

/// The screen that answers request `r` as drawn.
pub open spec fn fulfill_lines(
    r: UserRequest,
    plugin: Option<Seq<char>>,
    es: Seq<(EntityId, Option<Seq<char>>)>,
    labels: Seq<Seq<char>>,
    cursor: usize,
) -> Seq<(Seq<char>, RowStyle)> {
    let cands = candidates(es, r);
    let rows = fulfill_texts(r, plugin, es, cands, labels);
    Seq::new(rows.len(), |i: int| (rows[i], fulfill_style(i, cands.len(), cursor)))
}

/// The title of the screen that lists the plugin files of `dir`.
pub fn browse_title(dir: &str) -> (t: String)
    ensures
        t@ == " Load Plugin  ("@ + dir@ + ")"@,
{
    String::from_str(" Load Plugin  (").concat(dir).concat(")")
}

proof fn lemma_next_mod(x: int, n: int)
    requires
        n > 0,
        x >= 0,
    ensures
        (x % n + 1) % n == (x + 1) % n,
        0 <= x % n < n,
{
    vstd::arithmetic::div_mod::lemma_add_mod_noop_right(1, x, n);
}

proof fn lemma_prev_mod(x: int, n: int)
    requires
        n > 0,
    ensures
        0 <= x % n < n,
        (if x % n == 0 { n - 1 } else { x % n - 1 }) == (x - 1) % n,
{
    let p = x % n;
    vstd::arithmetic::div_mod::lemma_fundamental_div_mod(x, n);
    vstd::arithmetic::div_mod::lemma_mod_bound(x, n);
    let q = x / n;
    if p == 0 {
        vstd::arithmetic::div_mod::lemma_mod_multiples_vanish(q - 1, n - 1, n);
        assert(n * (q - 1) + (n - 1) == x - 1) by (nonlinear_arith)
            requires
                x == n * q,
        ;
        vstd::arithmetic::div_mod::lemma_small_mod((n - 1) as nat, n as nat);
    } else {
        vstd::arithmetic::div_mod::lemma_mod_multiples_vanish(q, p - 1, n);
        vstd::arithmetic::div_mod::lemma_small_mod((p - 1) as nat, n as nat);
    }
}

/// Walking `m` steps from `c` in either direction reaches every row within
/// `n` steps.
proof fn lemma_walk_covers(c: int, n: int, i: int)
    requires
        n > 0,
        c >= 0,
        0 <= i < n,
    ensures
        exists|m: int| 1 <= m <= n && #[trigger] ((c + m) % n) == i,
        exists|m: int| 1 <= m <= n && #[trigger] ((c - m) % n) == i,
{
    vstd::arithmetic::div_mod::lemma_fundamental_div_mod(c, n);
    vstd::arithmetic::div_mod::lemma_mod_bound(c, n);
    let q = c / n;
    let r = c % n;
    let m1 = if i > r { i - r } else { i - r + n };
    let q1 = if i > r { q } else { q + 1 };
    assert(c + m1 == n * q1 + i) by (nonlinear_arith)
        requires
            c == n * q + r,
            m1 == (if i > r { i - r } else { i - r + n }),
            q1 == (if i > r { q } else { q + 1 }),
    ;
    vstd::arithmetic::div_mod::lemma_mod_multiples_vanish(q1, i, n);
    vstd::arithmetic::div_mod::lemma_small_mod(i as nat, n as nat);
    assert((c + m1) % n == i);
    let m2 = if r > i { r - i } else { r - i + n };
    let q2 = if r > i { q } else { q - 1 };
    assert(c - m2 == n * q2 + i) by (nonlinear_arith)
        requires
            c == n * q + r,
            m2 == (if r > i { r - i } else { r - i + n }),
            q2 == (if r > i { q } else { q - 1 }),
    ;
    vstd::arithmetic::div_mod::lemma_mod_multiples_vanish(q2, i, n);
    assert((c - m2) % n == i);
}

proof fn lemma_seek_down_skip(items: Seq<PageRow>, c: int, k: int, j: int)
    requires
        1 <= k <= j <= items.len() + 1,
        forall|m: int| k <= m < j ==> !items[#[trigger] ((c + m) % (items.len() as int))].interactive()
            && (c + m) % (items.len() as int) != c,
    ensures
        seek_down(items, c, k) == seek_down(items, c, j),
    decreases j - k,
{
    if k < j {
        lemma_seek_down_skip(items, c, k + 1, j);
    }
}

proof fn lemma_seek_up_skip(items: Seq<PageRow>, c: int, k: int, j: int)
    requires
        1 <= k <= j <= items.len() + 1,
        forall|m: int| k <= m < j ==> !items[#[trigger] ((c - m) % (items.len() as int))].interactive()
            && (c - m) % (items.len() as int) != c,
    ensures
        seek_up(items, c, k) == seek_up(items, c, j),
    decreases j - k,
{
    if k < j {
        lemma_seek_up_skip(items, c, k + 1, j);
    }
}

fn position_at_least(v: &Vec<usize>, c: usize) -> (r: Option<usize>)
    ensures
        match r {
            Some(p) => p as int == first_at_least(v@, c, 0) && p < v@.len(),
            None => first_at_least(v@, c, 0) == -1,
        },
{
    let mut i: usize = 0;
    while i < v.len()
        invariant
            i <= v@.len(),
            first_at_least(v@, c, 0) == first_at_least(v@, c, i as int),
        decreases v@.len() - i,
    {
        if v[i] >= c {
            return Some(i);
        }
        i = i + 1;
    }
    None
}

fn position_at_most_from_end(v: &Vec<usize>, c: usize) -> (r: Option<usize>)
    ensures
        match r {
            Some(p) => p as int == last_at_most(v@, c, v@.len() as int) && p < v@.len(),
            None => last_at_most(v@, c, v@.len() as int) == -1,
        },
{
    let mut i: usize = v.len();
    while i > 0
        invariant
            i <= v@.len(),
            last_at_most(v@, c, v@.len() as int) == last_at_most(v@, c, i as int),
        decreases i,
    {
        if v[i - 1] <= c {
            return Some(i - 1);
        }
        i = i - 1;
    }
    None
}

impl App {
    /// The starting state: the root menu, nothing loaded.
    pub fn new() -> (r: App)
        ensures
            r.wf(),
            r@ == back(r@),
            !r@.quit,
    {
        let r = App {
            screen: Screen::Root,
            cursor: 0,
            page_items: Vec::new(),
            form_values: KeyedList::new(),
            dropdown_indices: HashMap::new(),
            input_mode: false,
            status: None,
            should_quit: false,
        };
        assert(r@ =~= back(r@));
        r
    }

    /// Back to the root menu, forgetting the page and its forms.
    pub fn go_back(&mut self)
        requires
            old(self).wf(),
        ensures
            final(self).wf(),
            final(self)@ == back(old(self)@),
    {
        self.screen = Screen::Root;
        self.cursor = 0;
        self.page_items.clear();
        self.form_values.clear();
        self.dropdown_indices.clear();
        self.input_mode = false;
        self.status = None;
        assert(self@ =~= back(old(self)@));
    }

    /// Moves the cursor one step down: to the next row, wrapping around, on
    /// the lists; to the next selectable row of the root menu; to the next
    /// row of a page that takes the cursor.
    pub fn cursor_down(&mut self, host: &HostView)
        requires
            old(self).wf(),
            down_ends(old(self)@),
            host_fits(host@),
        ensures
            final(self).wf(),
            final(self)@ == down(old(self)@, host@),
    {
        match &self.screen {
            Screen::FulfillRequest { request } => {
                let r = *request;
                proof {
                    lemma_candidates_len(host@.entities, r);
                }
                let count = candidate_entities(host, &r).len() + 1;
                self.cursor = (self.cursor + 1) % count;
            },
            Screen::BrowsePlugins { files } => {
                let count = files.len();
                if count > 0 {
                    self.cursor = (self.cursor + 1) % count;
                }
            },
            Screen::Root => {
                let indices = selectable_root_indices(host);
                proof {
                    lemma_selectable_rows(root_rows(host@));
                }
                match position_at_least(&indices, self.cursor) {
                    Some(pos) => {
                        let next = if pos < indices.len() - 1 {
                            indices[pos + 1]
                        } else {
                            indices[0]
                        };
                        self.cursor = next;
                    },
                    None => {},
                }
            },
            Screen::Page(_) => {
                if self.page_items.len() > 0 {
                    self.page_down();
                }
            },
            Screen::Requests => {
                let count = host.requests.len();
                if count > 0 {
                    self.cursor = (self.cursor + 1) % count;
                }
            },
            _ => {},
        }
        assert(self@ =~= down(old(self)@, host@));
    }

    /// Moves the cursor one step up, the mirror image of `cursor_down`.
    pub fn cursor_up(&mut self, host: &HostView)
        requires
            old(self).wf(),
            up_ends(old(self)@),
            host_fits(host@),
        ensures
            final(self).wf(),
            final(self)@ == up(old(self)@, host@),
    {
        match &self.screen {
            Screen::FulfillRequest { request } => {
                let r = *request;
                proof {
                    lemma_candidates_len(host@.entities, r);
                }
                let count = candidate_entities(host, &r).len() + 1;
                self.cursor = if self.cursor == 0 {
                    count - 1
                } else {
                    self.cursor - 1
                };
            },
            Screen::BrowsePlugins { files } => {
                let count = files.len();
                if count > 0 {
                    self.cursor = if self.cursor == 0 {
                        count - 1
                    } else {
                        self.cursor - 1
                    };
                }
            },
            Screen::Root => {
                let indices = selectable_root_indices(host);
                proof {
                    lemma_selectable_rows(root_rows(host@));
                }
                match position_at_most_from_end(&indices, self.cursor) {
                    Some(pos) => {
                        let prev = if pos > 0 {
                            indices[pos - 1]
                        } else {
                            indices[indices.len() - 1]
                        };
                        self.cursor = prev;
                    },
                    None => {},
                }
            },
            Screen::Page(_) => {
                if self.page_items.len() > 0 {
                    self.page_up();
                }
            },
            Screen::Requests => {
                let count = host.requests.len();
                if count > 0 {
                    self.cursor = if self.cursor == 0 {
                        count - 1
                    } else {
                        self.cursor - 1
                    };
                }
            },
            _ => {},
        }
        assert(self@ =~= up(old(self)@, host@));
    }

    fn chosen_index(&self, form_id: &String, id: &String, options: &Vec<String>) -> (r: usize)
        requires
            self.form_values.wf(),
        ensures
            r == chosen(self@.forms, form_id@, id@, strings_view(options@)),
    {
        let ghost opts = strings_view(options@);
        let key = (form_id.clone(), id.clone());
        assert(key@ == (form_id@, id@));
        match self.form_values.get(&key) {
            Some(v) => {
                let mut i: usize = 0;
                while i < options.len()
                    invariant
                        i <= options@.len(),
                        opts == strings_view(options@),
                        first_index(opts, v@, 0) == first_index(opts, v@, i as int),
                        self@.forms.contains_key((form_id@, id@)),
                        self@.forms[(form_id@, id@)] == v@,
                    decreases options@.len() - i,
                {
                    assert(opts[i as int] == options@[i as int]@);
                    if same_text(options[i].as_str(), v.as_str()) {
                        assert(opts[i as int] == v@);
                        return i;
                    }
                    i = i + 1;
                }
                assert(first_index(opts, v@, i as int) == -1);
                0
            },
            None => 0,
        }
    }

    /// Reads a page's rows again from its component tree (`None` when the
    /// host has no interface for the page). Each dropdown picks the option
    /// that its form value names, else the first; the cursor goes to the
    /// first row that takes it, if any.
    pub fn refresh_page_items(&mut self, interface: Option<&Component>)
        requires
            old(self).wf(),
        ensures
            final(self).wf(),
            final(self)@ == refreshed(
                old(self)@,
                match interface {
                    Some(c) => Some(*c),
                    None => None,
                },
            ),
    {
        let ghost iface = match interface {
            Some(c) => Some(*c),
            None => None::<Component>,
        };
        self.page_items = match interface {
            Some(c) => flatten(c),
            None => Vec::new(),
        };
        let ghost items = self@.items;
        let ghost d0 = old(self)@.drops;
        let ghost forms = old(self)@.forms;
        assert(items =~= refreshed(old(self)@, iface).items);
        let len = self.page_items.len();
        for i in 0..len
            invariant
                len == self.page_items@.len(),
                items == self@.items,
                forms == self@.forms,
                self.form_values.wf(),
                self.dropdown_indices@ == synced(d0, forms, items, i as int),
                self.screen == old(self).screen,
                self.cursor == old(self).cursor,
                self.input_mode == old(self).input_mode,
                self.status == old(self).status,
                self.should_quit == old(self).should_quit,
        {
            match &self.page_items[i] {
                PageItem::Dropdown { options, id, form_id, .. } => {
                    let idx = self.chosen_index(form_id, id, options);
                    self.dropdown_indices.insert(i, idx);
                },
                _ => {},
            }
        }
        match first_interactive_row(&self.page_items) {
            Some(k) => {
                self.cursor = k;
            },
            None => {},
        }
        proof {
            lemma_first_interactive_range(items, 0);
            assert forall|i: int|
                0 <= i < items.len() && items[i] is Dropdown && row_options(items[i]).len() > 0
                    && #[trigger] self@.drops.contains_key(i as usize) implies self@.drops[i as usize]
                < row_options(items[i]).len() by {
                lemma_synced_at(d0, forms, items, items.len() as int, i);
                lemma_chosen_range(
                    forms,
                    items[i]->Dropdown_form_id,
                    items[i]->Dropdown_id,
                    items[i]->Dropdown_options,
                );
            }
        }
        assert(self@ =~= refreshed(old(self)@, iface));
    }

    /// After the plugin of page `page_id` has handled a load or an event,
    /// the page is read again if it is still the one shown.
    pub fn page_refreshed(&mut self, page_id: u64, interface: Option<&Component>)
        requires
            old(self).wf(),
        ensures
            final(self).wf(),
            final(self)@ == (if old(self)@.screen == ScreenState::Page(page_id) {
                refreshed(
                    old(self)@,
                    match interface {
                        Some(c) => Some(*c),
                        None => None,
                    },
                )
            } else {
                old(self)@
            }),
    {
        let current = match &self.screen {
            Screen::Page(id) => Some(*id),
            _ => None,
        };
        if current == Some(page_id) {
            self.refresh_page_items(interface);
        }
    }

    fn stored_choice(&self, c: usize) -> (r: usize)
        requires
            self.wf(),
        ensures
            r == stored_choice(self@, c),
            c < self@.items.len() && self@.items[c as int] is Dropdown && row_options(
                self@.items[c as int],
            ).len() > 0 ==> r < row_options(self@.items[c as int]).len(),
    {
        proof {
            if self@.drops.contains_key(c) {
                assert(self@.drops.contains_key((c as int) as usize));
            }
        }
        match self.dropdown_indices.get(&c) {
            Some(v) => *v,
            None => 0,
        }
    }

    fn pick_option(&mut self, c: usize, i: usize)
        requires
            old(self).wf(),
            c < old(self)@.items.len(),
            old(self)@.items[c as int] is Dropdown,
            i < row_options(old(self)@.items[c as int]).len(),
        ensures
            final(self).wf(),
            final(self)@ == pick(old(self)@, c, i),
    {
        let _n = self.page_items.len();
        let (key, value) = match &self.page_items[c] {
            PageItem::Dropdown { options, id, form_id, .. } => (
                (form_id.clone(), id.clone()),
                options[i].clone(),
            ),
            _ => {
                return ;
            },
        };
        self.dropdown_indices.insert(c, i);
        self.form_values.insert(key, value);
        assert(self@ =~= pick(old(self)@, c, i));
    }

    /// The values of a form's fields, by field id.
    pub fn form_fields(&self, form_id: &String) -> (r: KeyedList<String, String>)
        requires
            self.form_values.wf(),
        ensures
            r.wf(),
            r@ == form_map(self@.forms, form_id@),
    {
        let entries = self.form_values.entries();
        let ghost forms = self@.forms;
        proof {
            self.form_values.lemma_pairs();
        }
        let mut r: KeyedList<String, String> = KeyedList::new();
        for i in 0..entries.len()
            invariant
                entries@ == self.form_values.pairs(),
                forms == self@.forms,
                self.form_values.wf(),
                r.wf(),
                forall|i: int|
                    0 <= i < self.form_values.pairs().len() ==> forms.contains_key(
                        #[trigger] self.form_values.pairs()[i].0@,
                    ) && forms[self.form_values.pairs()[i].0@] == self.form_values.pairs()[i].1@,
                r@ == Map::new(
                    |f: Seq<char>|
                        exists|j: int| 0 <= j < i && #[trigger] entries@[j].0@ == (form_id@, f),
                    |f: Seq<char>| forms[(form_id@, f)],
                ),
        {
            let ghost before = r@;
            let ghost e = entries@[i as int];
            if entries[i].0.0 == *form_id {
                r.insert(entries[i].0.1.clone(), entries[i].1.clone());
                assert(forms[(form_id@, e.0.1@)] == e.1@) by {
                    assert(self.form_values.pairs()[i as int].0@ == (form_id@, e.0.1@));
                }
            }
            assert(r@ =~= Map::new(
                |f: Seq<char>|
                    exists|j: int| 0 <= j < i + 1 && #[trigger] entries@[j].0@ == (form_id@, f),
                |f: Seq<char>| forms[(form_id@, f)],
            )) by {
                assert forall|f: Seq<char>| #[trigger] r@.contains_key(f) == (exists|j: int|
                    0 <= j < i + 1 && #[trigger] entries@[j].0@ == (form_id@, f)) by {
                    if exists|j: int| 0 <= j < i + 1 && #[trigger] entries@[j].0@ == (form_id@, f) {
                        let j = choose|j: int| 0 <= j < i + 1 && #[trigger] entries@[j].0@ == (form_id@, f);
                        if j < i {
                            assert(before.contains_key(f));
                        } else {
                            assert(e.0@ == (form_id@, f));
                        }
                    }
                    if r@.contains_key(f) && !before.contains_key(f) {
                        assert(entries@[i as int].0@ == (form_id@, f));
                    }
                }
                assert forall|f: Seq<char>| #[trigger] r@.contains_key(f) implies r@[f] == forms[(form_id@, f)] by {
                    if before.contains_key(f) && !(e.0.0@ == form_id@ && e.0.1@ == f) {
                        assert(r@[f] == before[f]);
                    }
                }
            }
        }
        assert(r@ =~= form_map(forms, form_id@)) by {
            assert forall|f: Seq<char>| #[trigger] forms.contains_key((form_id@, f)) implies r@.contains_key(f) by {
                let j = choose|j: int| 0 <= j < self.form_values.pairs().len() && #[trigger] self.form_values.pairs()[j].0@ == (form_id@, f);
                assert(entries@[j].0@ == (form_id@, f));
            }
        }
        r
    }

    /// Shows the plugin files found in the plugin directory, the cursor on
    /// the first.
    pub fn show_plugin_files(&mut self, files: Vec<PluginFile>)
        requires
            old(self).wf(),
        ensures
            final(self).wf(),
            final(self)@ == (AppState {
                screen: ScreenState::BrowsePlugins(files@.map_values(|f: PluginFile| f@)),
                cursor: 0,
                ..old(self)@
            }),
    {
        self.screen = Screen::BrowsePlugins { files };
        self.cursor = 0;
        assert(self@ =~= AppState {
            screen: ScreenState::BrowsePlugins(files@.map_values(|f: PluginFile| f@)),
            cursor: 0,
            ..old(self)@
        });
    }

    /// When a plugin is being loaded, returns to the root menu (so that the
    /// requests the plugin makes while it starts can be answered) and hands
    /// back the path and the name of the plugin to load.
    pub fn begin_plugin_load(&mut self) -> (r: Option<(String, String)>)
        requires
            old(self).wf(),
        ensures
            final(self).wf(),
            match old(self)@.screen {
                ScreenState::LoadingPlugin(path, name) => r matches Some(pn) && pn.0@ == path
                    && pn.1@ == name && final(self)@ == back(old(self)@),
                _ => r is None && final(self)@ == old(self)@,
            },
    {
        let taken = match &self.screen {
            Screen::LoadingPlugin { path, name } => Some((path.clone(), name.clone())),
            _ => None,
        };
        if taken.is_some() {
            self.go_back();
        }
        taken
    }

    /// A key on the root menu.
    pub fn handle_root(&mut self, key: Key, host: &HostView) -> (a: Action)
        requires
            old(self).wf(),
            old(self)@.screen is Root,
            host_fits(host@),
        ensures
            final(self).wf(),
            (final(self)@, a@) == root_key(old(self)@, key, host@),
    {
        if key == Key::Char('q') {
            self.should_quit = true;
            return Action::Nothing;
        }
        if key == Key::Char('j') || key == Key::Down {
            self.cursor_down(host);
            return Action::Nothing;
        }
        if key == Key::Char('k') || key == Key::Up {
            self.cursor_up(host);
            return Action::Nothing;
        }
        if key != Key::Enter {
            return Action::Nothing;
        }
        let items = root_items(host);
        let c = self.cursor;
        if c >= items.len() {
            return Action::Nothing;
        }
        let label = items[c].as_str();
        assert(label@ == root_rows(host@)[c as int]);
        proof {
            reveal_strlit("Load Plugin");
            reveal_strlit("Events");
            reveal_strlit("Requests");
        }
        if same_text(label, "Load Plugin") {
            return Action::ScanPlugins;
        }
        if starts_with(label, "Events") {
            self.screen = Screen::Events;
            return Action::Nothing;
        }
        if starts_with(label, "Requests") {
            self.screen = Screen::Requests;
            self.cursor = 0;
            return Action::Nothing;
        }
        let ids = page_ids_in_root(host);
        let page_start: usize = if ids.len() == 0 {
            usize::MAX
        } else {
            4
        };
        if c >= page_start {
            let idx = c - page_start;
            if idx < ids.len() {
                let id = ids[idx];
                self.screen = Screen::Page(id);
                self.cursor = 0;
                return Action::LoadPage(id);
            }
        }
        Action::Nothing
    }

    /// A key on the list of events.
    pub fn handle_back_screen(&mut self, key: Key)
        requires
            old(self).wf(),
        ensures
            final(self).wf(),
            final(self)@ == events_key(old(self)@, key).0,
    {
        if key == Key::Esc || key == Key::Char('q') {
            self.go_back();
        }
    }

    /// A key on the list of requests.
    pub fn handle_requests(&mut self, key: Key, host: &HostView)
        requires
            old(self).wf(),
            old(self)@.screen is Requests,
            host_fits(host@),
        ensures
            final(self).wf(),
            final(self)@ == requests_key(old(self)@, key, host@).0,
    {
        if key == Key::Esc || key == Key::Char('q') {
            self.go_back();
        } else if key == Key::Char('j') || key == Key::Down {
            self.cursor_down(host);
        } else if key == Key::Char('k') || key == Key::Up {
            self.cursor_up(host);
        } else if key == Key::Enter && self.cursor < host.requests.len() {
            let request = host.requests[self.cursor];
            self.screen = Screen::FulfillRequest { request };
            self.cursor = 0;
            proof {
                lemma_same_choices(old(self)@, self@);
            }
        }
    }

    /// A key on the screen that answers `request`: Enter answers it with the
    /// entity under the cursor, or denies it on the last row, and goes back
    /// to the root menu.
    pub fn handle_fulfill_request(&mut self, key: Key, host: &HostView) -> (a: Action)
        requires
            old(self).wf(),
            old(self)@.screen is FulfillRequest,
            host_fits(host@),
        ensures
            final(self).wf(),
            (final(self)@, a@) == fulfill_key(
                old(self)@,
                key,
                host@,
                old(self)@.screen->FulfillRequest_0,
            ),
    {
        let request = match &self.screen {
            Screen::FulfillRequest { request } => *request,
            _ => {
                return Action::Nothing;
            },
        };
        if key == Key::Esc || key == Key::Char('q') {
            self.screen = Screen::Requests;
            self.cursor = 0;
            return Action::Nothing;
        }
        if key == Key::Char('j') || key == Key::Down {
            self.cursor_down(host);
            return Action::Nothing;
        }
        if key == Key::Char('k') || key == Key::Up {
            self.cursor_up(host);
            return Action::Nothing;
        }
        if key != Key::Enter {
            return Action::Nothing;
        }
        let candidates = candidate_entities(host, &request);
        let a = if self.cursor < candidates.len() {
            match resolve_request(&request, &candidates[self.cursor]) {
                Some(r) => Action::Resolve(r),
                None => Action::Nothing,
            }
        } else {
            Action::Deny(request.id())
        };
        self.go_back();
        a
    }

    /// A key on the list of plugin files: Enter starts loading the file
    /// under the cursor, named by its file name without the extension.
    pub fn handle_browse_plugins(&mut self, key: Key, host: &HostView)
        requires
            old(self).wf(),
            old(self)@.screen is BrowsePlugins,
            host_fits(host@),
        ensures
            final(self).wf(),
            final(self)@ == browse_key(
                old(self)@,
                key,
                host@,
                old(self)@.screen->BrowsePlugins_0,
            ).0,
    {
        if key == Key::Esc || key == Key::Char('q') {
            self.go_back();
            return ;
        }
        if key == Key::Char('j') || key == Key::Down {
            self.cursor_down(host);
            return ;
        }
        if key == Key::Char('k') || key == Key::Up {
            self.cursor_up(host);
            return ;
        }
        if key != Key::Enter {
            return ;
        }
        let chosen = match &self.screen {
            Screen::BrowsePlugins { files } => {
                if self.cursor < files.len() {
                    let f = &files[self.cursor];
                    assert(f@ == self@.screen->BrowsePlugins_0[self.cursor as int]);
                    let name = match &f.stem {
                        Some(stem) => stem.clone(),
                        None => String::from_str("plugin"),
                    };
                    Some((f.path.clone(), name))
                } else {
                    None
                }
            },
            _ => None,
        };
        match chosen {
            Some((path, name)) => {
                self.screen = Screen::LoadingPlugin { path, name };
                assert(self@ =~= browse_key(
                    old(self)@,
                    key,
                    host@,
                    old(self)@.screen->BrowsePlugins_0,
                ).0);
            },
            None => {},
        }
    }

    /// A key on page `page_id` while no text field is being edited.
    pub fn handle_page(&mut self, key: Key, host: &HostView, page_id: u64) -> (a: Action)
        requires
            old(self).wf(),
            old(self)@.screen == ScreenState::Page(page_id),
            !old(self).input_mode,
            key_ok(old(self)@, key),
            host_fits(host@),
        ensures
            final(self).wf(),
            (final(self)@, a@) == page_key(old(self)@, key, host@, page_id),
    {
        if key == Key::Esc || key == Key::Char('q') {
            self.go_back();
            return Action::Nothing;
        }
        if key == Key::Char('j') || key == Key::Down {
            self.cursor_down(host);
            return Action::Nothing;
        }
        if key == Key::Char('k') || key == Key::Up {
            self.cursor_up(host);
            return Action::Nothing;
        }
        let c = self.cursor;
        if key == Key::Left || key == Key::Right {
            if c < self.page_items.len() {
                let n = match &self.page_items[c] {
                    PageItem::Dropdown { options, .. } => options.len(),
                    _ => 0,
                };
                assert(n > 0 ==> self@.items[c as int] is Dropdown && n == row_options(
                    self@.items[c as int],
                ).len());
                if n > 0 {
                    let old = self.stored_choice(c);
                    let new = if key == Key::Right {
                        (old + 1) % n
                    } else if old == 0 {
                        n - 1
                    } else {
                        old - 1
                    };
                    self.pick_option(c, new);
                }
            }
            return Action::Nothing;
        }
        if key != Key::Enter || c >= self.page_items.len() {
            return Action::Nothing;
        }
        match &self.page_items[c] {
            PageItem::Button { id, .. } => Action::Update(page_id, PageEvent::ButtonClicked(id.clone())),
            PageItem::Input { .. } => {
                self.input_mode = true;
                Action::Nothing
            },
            PageItem::Dropdown { options, .. } => {
                let n = options.len();
                assert(n == row_options(self@.items[c as int]).len());
                if n > 0 {
                    let old = self.stored_choice(c);
                    self.pick_option(c, (old + 1) % n);
                }
                Action::Nothing
            },
            PageItem::Submit { form_id, .. } => {
                let f = form_id.clone();
                let values = self.form_fields(&f);
                Action::Update(page_id, PageEvent::FormSubmitted(f, values))
            },
            PageItem::Label(_) => Action::Nothing,
        }
    }

    /// A key while the text field under the cursor is being edited: Esc and
    /// Enter stop editing, Backspace removes the last character, a character
    /// is appended.
    pub fn handle_text_input(&mut self, key: Key)
        requires
            old(self).wf(),
        ensures
            final(self).wf(),
            final(self)@ == text_key(old(self)@, key),
    {
        let c = self.cursor;
        if c >= self.page_items.len() {
            self.input_mode = false;
            return ;
        }
        let (form_id, id) = match &self.page_items[c] {
            PageItem::Input { id, form_id, .. } => (form_id.clone(), id.clone()),
            _ => {
                self.input_mode = false;
                return ;
            },
        };
        let field = (form_id, id);
        match key {
            Key::Esc => {
                self.input_mode = false;
            },
            Key::Enter => {
                self.input_mode = false;
            },
            Key::Backspace => {
                let mut v = match self.form_values.get(&field) {
                    Some(v) => v.clone(),
                    None => String::new(),
                };
                pop_char(&mut v);
                self.form_values.insert(field, v);
            },
            Key::Char(ch) => {
                let mut v = match self.form_values.get(&field) {
                    Some(v) => v.clone(),
                    None => String::new(),
                };
                push_char(&mut v, ch);
                self.form_values.insert(field, v);
            },
            _ => {},
        }
        assert(self@ =~= text_key(old(self)@, key));
    }

    /// A key press, with whether Control was held: Control-C quits anywhere;
    /// otherwise the key goes to the current screen. Returns what the
    /// application is to do outside.
    pub fn handle_key(&mut self, key: Key, ctrl: bool, host: &HostView) -> (a: Action)
        requires
            old(self).wf(),
            key_ok(old(self)@, key),
            host_fits(host@),
        ensures
            final(self).wf(),
            (final(self)@, a@) == key_step(old(self)@, key, ctrl, host@),
    {
        if key == Key::Char('c') && ctrl {
            self.should_quit = true;
            return Action::Nothing;
        }
        let page = match &self.screen {
            Screen::Page(id) => Some(*id),
            _ => None,
        };
        match page {
            Some(p) => {
                if self.input_mode {
                    self.handle_text_input(key);
                    Action::Nothing
                } else {
                    self.handle_page(key, host, p)
                }
            },
            None => {
                match &self.screen {
                    Screen::Root => self.handle_root(key, host),
                    Screen::Events => {
                        self.handle_back_screen(key);
                        Action::Nothing
                    },
                    Screen::Requests => {
                        self.handle_requests(key, host);
                        Action::Nothing
                    },
                    Screen::FulfillRequest { .. } => self.handle_fulfill_request(key, host),
                    Screen::BrowsePlugins { .. } => {
                        self.handle_browse_plugins(key, host);
                        Action::Nothing
                    },
                    _ => Action::Nothing,
                }
            },
        }
    }

    /// The rows of the root menu with their styles.
    pub fn root_view(&self, host: &HostView) -> (r: Vec<(String, RowStyle)>)
        ensures
            styled(r@) == root_lines(root_rows(host@), self.cursor),
    {
        let items = root_items(host);
        let ghost want = root_lines(root_rows(host@), self.cursor);
        let mut r: Vec<(String, RowStyle)> = Vec::new();
        for i in 0..items.len()
            invariant
                texts(items@) == root_rows(host@),
                want == root_lines(root_rows(host@), self.cursor),
                r@.len() == i,
                forall|k: int| 0 <= k < i ==> #[trigger] styled(r@)[k] == want[k],
        {
            let style = if i == self.cursor {
                RowStyle::Highlight
            } else if starts_with(items[i].as_str(), "\u{2500}\u{2500}\u{2500}") {
                RowStyle::Dim
            } else {
                RowStyle::Plain
            };
            let ghost before = r@;
            r.push((items[i].clone(), style));
            assert forall|k: int| 0 <= k < i + 1 implies #[trigger] styled(r@)[k] == want[k] by {
                if k < i {
                    assert(styled(before)[k] == want[k]);
                    assert(r@[k] == before[k]);
                }
            }
        }
        assert(styled(r@) =~= root_lines(root_rows(host@), self.cursor));
        r
    }

    /// The rows of the list of requests with their styles.
    pub fn requests_view(&self, host: &HostView) -> (r: Vec<(String, RowStyle)>)
        ensures
            styled(r@) == request_lines(host@.requests, self.cursor),
    {
        let mut r: Vec<(String, RowStyle)> = Vec::new();
        let ghost want = request_lines(host@.requests, self.cursor);
        for i in 0..host.requests.len()
            invariant
                want == request_lines(host@.requests, self.cursor),
                r@.len() == i,
                forall|k: int| 0 <= k < i ==> #[trigger] styled(r@)[k] == want[k],
        {
            let style = if i == self.cursor {
                RowStyle::Highlight
            } else {
                RowStyle::Plain
            };
            let ghost before = r@;
            r.push((request_label(&host.requests[i]), style));
            assert forall|k: int| 0 <= k < i + 1 implies #[trigger] styled(r@)[k] == want[k] by {
                if k < i {
                    assert(styled(before)[k] == want[k]);
                    assert(r@[k] == before[k]);
                }
            }
        }
        assert(styled(r@) =~= request_lines(host@.requests, self.cursor));
        r
    }

    /// The rows of the list of plugin files found in `dir`, with their
    /// styles; nothing on any other screen.
    pub fn browse_view(&self, dir: &str) -> (r: Option<Vec<(String, RowStyle)>>)
        ensures
            match self@.screen {
                ScreenState::BrowsePlugins(files) => r matches Some(v) && styled(v@) == browse_lines(
                    files,
                    dir@,
                    self.cursor,
                ),
                _ => r is None,
            },
    {
        match &self.screen {
            Screen::BrowsePlugins { files } => {
                let rows = plugin_file_rows(files, dir);
                let ghost fs = files@.map_values(|f: PluginFile| f@);
                let empty = files.len() == 0;
                let mut r: Vec<(String, RowStyle)> = Vec::new();
                let ghost want = browse_lines(fs, dir@, self.cursor);
                for i in 0..rows.len()
                    invariant
                        texts(rows@) == browse_texts(fs, dir@),
                        want == browse_lines(fs, dir@, self.cursor),
                        empty == (fs.len() == 0),
                        r@.len() == i,
                        forall|k: int| 0 <= k < i ==> #[trigger] styled(r@)[k] == want[k],
                {
                    let style = if empty {
                        RowStyle::Dim
                    } else if i == self.cursor {
                        RowStyle::Highlight
                    } else {
                        RowStyle::Plain
                    };
                    let ghost before = r@;
                    r.push((rows[i].clone(), style));
                    assert forall|k: int| 0 <= k < i + 1 implies #[trigger] styled(r@)[k] == want[k] by {
                        if k < i {
                            assert(styled(before)[k] == want[k]);
                            assert(r@[k] == before[k]);
                        }
                    }
                }
                assert(styled(r@) =~= browse_lines(fs, dir@, self.cursor));
                Some(r)
            },
            _ => None,
        }
    }

    /// The rows of the screen that answers a request, with their styles;
    /// `labels` are the texts of the entities that can answer it, one for
    /// each, in the host's order. Nothing on any other screen.
    pub fn fulfill_view(&self, host: &HostView, plugin: Option<&str>, labels: &Vec<String>) -> (r:
        Option<Vec<(String, RowStyle)>>)
        requires
            self@.screen is FulfillRequest ==> labels.len() == candidates(
                host@.entities,
                self@.screen->FulfillRequest_0,
            ).len(),
        ensures
            match self@.screen {
                ScreenState::FulfillRequest(req) => r matches Some(v) && styled(v@) == fulfill_lines(
                    req,
                    match plugin {
                        Some(n) => Some(n@),
                        None => None,
                    },
                    host@.entities,
                    texts(labels@),
                    self.cursor,
                ),
                _ => r is None,
            },
    {
        match &self.screen {
            Screen::FulfillRequest { request } => {
                let rows = fulfill_rows(request, plugin, host, labels);
                let n = labels.len();
                let ghost want = fulfill_lines(
                    *request,
                    match plugin {
                        Some(p) => Some(p@),
                        None => None,
                    },
                    host@.entities,
                    texts(labels@),
                    self.cursor,
                );
                let mut r: Vec<(String, RowStyle)> = Vec::new();
                for i in 0..rows.len()
                    invariant
                        rows@.len() == n + 2,
                        want.len() == rows@.len(),
                        n == candidates(host@.entities, *request).len(),
                        forall|k: int| 0 <= k < rows@.len() ==> #[trigger] want[k] == (
                            texts(rows@)[k],
                            fulfill_style(k, n as nat, self.cursor),
                        ),
                        r@.len() == i,
                        forall|k: int| 0 <= k < i ==> #[trigger] styled(r@)[k] == want[k],
                {
                    let style = if i == 0 {
                        RowStyle::Dim
                    } else if i == n + 1 {
                        if self.cursor == n {
                            RowStyle::DenyHighlight
                        } else {
                            RowStyle::Deny
                        }
                    } else if i - 1 == self.cursor {
                        RowStyle::Highlight
                    } else {
                        RowStyle::Plain
                    };
                    let ghost before = r@;
                    r.push((rows[i].clone(), style));
                    assert forall|k: int| 0 <= k < i + 1 implies #[trigger] styled(r@)[k] == want[k] by {
                        if k < i {
                            assert(styled(before)[k] == want[k]);
                            assert(r@[k] == before[k]);
                        }
                    }
                }
                assert(styled(r@) =~= want);
                Some(r)
            },
            _ => None,
        }
    }

    /// The style of page row `i`.
    pub fn page_row_style(&self, i: usize) -> (r: RowStyle)
        requires
            i < self@.items.len(),
        ensures
            r == row_style(self@, i as int),
    {
        let selected = i == self.cursor && self.page_items[i].is_interactive();
        match &self.page_items[i] {
            PageItem::Label(_) => RowStyle::Dim,
            PageItem::Input { .. } => if selected {
                RowStyle::FieldHighlight
            } else {
                RowStyle::Plain
            },
            PageItem::Submit { .. } => if selected {
                RowStyle::SubmitHighlight
            } else {
                RowStyle::Submit
            },
            _ => if selected {
                RowStyle::Highlight
            } else {
                RowStyle::Plain
            },
        }
    }

    /// The text of page row `i`.
    pub fn page_row_text(&self, i: usize) -> (t: String)
        requires
            self.wf(),
            i < self@.items.len(),
        ensures
            t@ == row_text(self@, i as int),
    {
        let selected = i == self.cursor && self.page_items[i].is_interactive();
        match &self.page_items[i] {
            PageItem::Label(t) => t.clone(),
            PageItem::Button { text, .. } => String::from_str("[ ").concat(text.as_str()).concat(
                " ]",
            ),
            PageItem::Input { label, id, form_id } => {
                let key = (form_id.clone(), id.clone());
                let value = match self.form_values.get(&key) {
                    Some(v) => v.clone(),
                    None => String::new(),
                };
                if selected && self.input_mode {
                    label.clone().concat(": ").concat(value.as_str()).concat("\u{258c}")
                } else if selected {
                    label.clone().concat(": [").concat(value.as_str()).concat("]")
                } else {
                    label.clone().concat(": ").concat(value.as_str())
                }
            },
            PageItem::Dropdown { label, options, id, form_id } => {
                let shown = self.shown_option(form_id, id, options);
                label.clone().concat(": < ").concat(shown.as_str()).concat(" >")
            },
            PageItem::Submit { text, .. } => String::from_str("[ ").concat(text.as_str()).concat(
                " ]",
            ),
        }
    }

    fn shown_option(&self, form_id: &String, id: &String, options: &Vec<String>) -> (r: String)
        requires
            self.form_values.wf(),
        ensures
            r@ == shown_option(self@.forms, form_id@, id@, strings_view(options@)),
    {
        let ghost opts = strings_view(options@);
        let key = (form_id.clone(), id.clone());
        assert(key@ == (form_id@, id@));
        match self.form_values.get(&key) {
            Some(v) => {
                let mut i: usize = 0;
                while i < options.len()
                    invariant
                        i <= options@.len(),
                        opts == strings_view(options@),
                        self@.forms.contains_key((form_id@, id@)),
                        self@.forms[(form_id@, id@)] == v@,
                        forall|j: int| 0 <= j < i ==> opts[j] != v@,
                    decreases options@.len() - i,
                {
                    assert(opts[i as int] == options@[i as int]@);
                    if same_text(options[i].as_str(), v.as_str()) {
                        assert(opts.contains(v@));
                        return v.clone();
                    }
                    i = i + 1;
                }
                assert(!opts.contains(v@));
            },
            None => {},
        }
        if options.len() > 0 {
            assert(opts[0] == options@[0]@);
            options[0].clone()
        } else {
            String::from_str("\u{2014}")
        }
    }

    /// The text of the status bar.
    pub fn status_line(&self) -> (t: String)
        ensures
            t@ == status_text(self@),
    {
        let help = if self.input_mode {
            "  Enter: confirm  Esc: cancel"
        } else {
            match &self.screen {
                Screen::Root => "  j/k: navigate  Enter: select  q: quit",
                Screen::Page(_) => "  j/k: navigate  Enter: activate  \u{2190}/\u{2192}: cycle dropdown  Esc: back",
                Screen::Events => "  Esc/q: back",
                Screen::Requests => "  Esc/q: back",
                Screen::FulfillRequest { .. } => "  j/k: navigate  Enter: select  Esc: back",
                Screen::BrowsePlugins { .. } => "  j/k: navigate  Enter: load  Esc: cancel",
                Screen::LoadingPlugin { .. } => "",
            }
        };
        match &self.status {
            Some(m) => m.clone().concat("  ").concat(help),
            None => String::from_str(help),
        }
    }

    fn page_down(&mut self)
        requires
            old(self).wf(),
            old(self).page_items.len() > 0,
            down_ends(old(self)@),
            old(self)@.screen is Page,
        ensures
            final(self).wf(),
            final(self)@ == (AppState {
                cursor: seek_down(old(self)@.items, old(self).cursor as int, 1) as usize,
                ..old(self)@
            }),
    {
        let len = self.page_items.len();
        let c = self.cursor;
        let ghost items = self@.items;
        let ghost n = len as int;
        let mut next = (c + 1) % len;
        let ghost mut k: int = 1;
        while !self.page_items[next].is_interactive() && next != c
            invariant
                self == old(self),
                items == self@.items,
                n == items.len(),
                len == n,
                c == self.cursor,
                n > 0,
                1 <= k <= n,
                next as int == (c + k) % n,
                c < n || any_interactive(items),
                forall|m: int| 1 <= m < k ==> !items[#[trigger] ((c + m) % n)].interactive()
                    && (c + m) % n != c,
            decreases n - k,
        {
            proof {
                if k == n {
                    if c < n {
                        vstd::arithmetic::div_mod::lemma_mod_add_multiples_vanish(c as int, n);
                        vstd::arithmetic::div_mod::lemma_small_mod(c as nat, n as nat);
                        assert(false);
                    } else {
                        let i = choose|i: int| 0 <= i < n && #[trigger] items[i].interactive();
                        lemma_walk_covers(c as int, n, i);
                        let m = choose|m: int| 1 <= m <= n && #[trigger] ((c + m) % n) == i;
                        assert(!items[(c + m) % n].interactive());
                        assert(false);
                    }
                }
                lemma_next_mod(c + k, n);
                k = k + 1;
            }
            next = (next + 1) % len;
        }
        proof {
            lemma_seek_down_skip(items, c as int, 1, k);
        }
        self.cursor = next;
        assert(self@ =~= AppState { cursor: seek_down(items, c as int, 1) as usize, ..old(self)@ });
    }

    fn page_up(&mut self)
        requires
            old(self).wf(),
            old(self).page_items.len() > 0,
            up_ends(old(self)@),
            old(self)@.screen is Page,
        ensures
            final(self).wf(),
            final(self)@ == (AppState {
                cursor: seek_up(old(self)@.items, old(self).cursor as int, 1) as usize,
                ..old(self)@
            }),
    {
        let len = self.page_items.len();
        let c = self.cursor;
        let ghost items = self@.items;
        let ghost n = len as int;
        proof {
            lemma_prev_mod(c as int, n);
            if c < n {
                vstd::arithmetic::div_mod::lemma_small_mod(c as nat, n as nat);
            } else {
                vstd::arithmetic::div_mod::lemma_mod_self_0(n);
            }
        }
        let mut prev = if c == 0 { len - 1 } else { c - 1 };
        let ghost mut k: int = 1;
        while !self.page_items[prev].is_interactive() && prev != c
            invariant
                self == old(self),
                items == self@.items,
                n == items.len(),
                len == n,
                c == self.cursor,
                n > 0,
                1 <= k <= n,
                prev as int == (c - k) % n,
                prev < n,
                c < n || any_interactive(items),
                forall|m: int| 1 <= m < k ==> !items[#[trigger] ((c - m) % n)].interactive()
                    && (c - m) % n != c,
            decreases n - k,
        {
            proof {
                if k == n {
                    if c < n {
                        vstd::arithmetic::div_mod::lemma_mod_sub_multiples_vanish(c as int, n);
                        vstd::arithmetic::div_mod::lemma_small_mod(c as nat, n as nat);
                        assert(false);
                    } else {
                        let i = choose|i: int| 0 <= i < n && #[trigger] items[i].interactive();
                        lemma_walk_covers(c as int, n, i);
                        let m = choose|m: int| 1 <= m <= n && #[trigger] ((c - m) % n) == i;
                        assert(!items[(c - m) % n].interactive());
                        assert(false);
                    }
                }
                lemma_prev_mod(c - k, n);
                k = k + 1;
            }
            prev = if prev == 0 { len - 1 } else { prev - 1 };
        }
        proof {
            lemma_seek_up_skip(items, c as int, 1, k);
        }
        self.cursor = prev;
        assert(self@ =~= AppState { cursor: seek_up(items, c as int, 1) as usize, ..old(self)@ });
    }
}

// --- Laws ------------------------------------------------------------------------

/// Control-C quits from every screen and asks nothing of the application.
pub proof fn law_ctrl_c_quits(s: AppState, h: HostState)
    ensures
        key_step(s, Key::Char('c'), true, h).0.quit,
        key_step(s, Key::Char('c'), true, h).1 is Nothing,
        key_step(s, Key::Char('c'), true, h).0 == (AppState { quit: true, ..s }),
{
}

/// On the lists (requests, plugin files, the entities that can answer a
/// request), a step down and a step up undo each other while the cursor is
/// on a row.
pub proof fn law_list_steps_undo(s: AppState, h: HostState)
    requires
        match s.screen {
            ScreenState::Requests => s.cursor < h.requests.len(),
            ScreenState::BrowsePlugins(files) => s.cursor < files.len(),
            ScreenState::FulfillRequest(r) => s.cursor <= candidates(h.entities, r).len(),
            _ => false,
        },
        host_fits(h),
        h.requests.len() <= usize::MAX,
        s.screen is BrowsePlugins ==> s.screen->BrowsePlugins_0.len() <= usize::MAX,
    ensures
        up(down(s, h), h) == s,
        down(up(s, h), h) == s,
{
    match s.screen {
        ScreenState::Requests => lemma_wrap_undo(s.cursor, h.requests.len()),
        ScreenState::BrowsePlugins(files) => lemma_wrap_undo(s.cursor, files.len()),
        ScreenState::FulfillRequest(r) => {
            lemma_candidates_len(h.entities, r);
            lemma_wrap_undo(s.cursor, candidates(h.entities, r).len() + 1);
        },
        _ => {},
    }
    assert(up(down(s, h), h) =~= s);
    assert(down(up(s, h), h) =~= s);
}

proof fn lemma_wrap_undo(c: usize, n: nat)
    requires
        c < n,
        n <= usize::MAX,
    ensures
        wrap_prev(wrap_next(c, n), n) == c,
        wrap_next(wrap_prev(c, n), n) == c,
{
    vstd::arithmetic::div_mod::lemma_mod_self_0(n as int);
    vstd::arithmetic::div_mod::lemma_small_mod(c as nat, n);
    if c + 1 < n {
        vstd::arithmetic::div_mod::lemma_small_mod((c + 1) as nat, n);
    }
}

proof fn lemma_seek_down_lands(items: Seq<PageRow>, c: int, k: int)
    requires
        0 <= c < items.len(),
        1 <= k,
    ensures
        seek_down(items, c, k) == c || (0 <= seek_down(items, c, k) < items.len() && items[seek_down(
            items,
            c,
            k,
        )].interactive()),
    decreases items.len() + 1 - k,
{
    if k <= items.len() {
        let p = (c + k) % (items.len() as int);
        vstd::arithmetic::div_mod::lemma_mod_bound(c + k, items.len() as int);
        if !(items[p].interactive() || p == c) {
            lemma_seek_down_lands(items, c, k + 1);
        }
    }
}

proof fn lemma_seek_up_lands(items: Seq<PageRow>, c: int, k: int)
    requires
        0 <= c < items.len(),
        1 <= k,
    ensures
        seek_up(items, c, k) == c || (0 <= seek_up(items, c, k) < items.len() && items[seek_up(
            items,
            c,
            k,
        )].interactive()),
    decreases items.len() + 1 - k,
{
    if k <= items.len() {
        let p = (c - k) % (items.len() as int);
        vstd::arithmetic::div_mod::lemma_mod_bound(c - k, items.len() as int);
        if !(items[p].interactive() || p == c) {
            lemma_seek_up_lands(items, c, k + 1);
        }
    }
}

/// On a page, a step down or up keeps the cursor on the page's rows, and a
/// cursor that rested on a row that takes it goes to a row that takes it.
pub proof fn law_page_steps_rest_on_controls(s: AppState, h: HostState)
    requires
        s.screen is Page,
        s.cursor < s.items.len(),
        s.items.len() <= usize::MAX,
    ensures
        down(s, h).cursor < s.items.len(),
        up(s, h).cursor < s.items.len(),
        s.items[s.cursor as int].interactive() ==> s.items[down(s, h).cursor as int].interactive(),
        s.items[s.cursor as int].interactive() ==> s.items[up(s, h).cursor as int].interactive(),
{
    lemma_seek_down_lands(s.items, s.cursor as int, 1);
    lemma_seek_up_lands(s.items, s.cursor as int, 1);
}

proof fn lemma_mod_near(x: int, n: int)
    requires
        n > 0,
        -n <= x < 2 * n,
    ensures
        x % n == (if x < 0 {
            x + n
        } else if x < n {
            x
        } else {
            x - n
        }),
{
    if x < 0 {
        vstd::arithmetic::div_mod::lemma_mod_add_multiples_vanish(x, n);
        vstd::arithmetic::div_mod::lemma_small_mod((x + n) as nat, n as nat);
    } else if x < n {
        vstd::arithmetic::div_mod::lemma_small_mod(x as nat, n as nat);
    } else {
        vstd::arithmetic::div_mod::lemma_mod_sub_multiples_vanish(x, n);
        vstd::arithmetic::div_mod::lemma_small_mod((x - n) as nat, n as nat);
    }
}

/// The number of steps that the walk down from `c` takes from offset `k`.
spec fn down_offset(items: Seq<PageRow>, c: int, k: int) -> int
    decreases items.len() + 1 - k,
{
    if k > items.len() || items.len() == 0 || k < 1 {
        k
    } else {
        let p = (c + k) % (items.len() as int);
        if items[p].interactive() || p == c {
            k
        } else {
            down_offset(items, c, k + 1)
        }
    }
}

/// The number of steps that the walk up from `c` takes from offset `k`.
spec fn up_offset(items: Seq<PageRow>, c: int, k: int) -> int
    decreases items.len() + 1 - k,
{
    if k > items.len() || items.len() == 0 || k < 1 {
        k
    } else {
        let p = (c - k) % (items.len() as int);
        if items[p].interactive() || p == c {
            k
        } else {
            up_offset(items, c, k + 1)
        }
    }
}

proof fn lemma_down_offset(items: Seq<PageRow>, c: int, k: int)
    requires
        0 <= c < items.len(),
        1 <= k <= items.len(),
    ensures
        k <= down_offset(items, c, k) <= items.len(),
        seek_down(items, c, k) == (c + down_offset(items, c, k)) % (items.len() as int),
        forall|j: int|
            k <= j < down_offset(items, c, k) ==> !items[#[trigger] ((c + j) % (
                items.len() as int))].interactive(),
    decreases items.len() + 1 - k,
{
    let n = items.len() as int;
    let p = (c + k) % n;
    if k == n {
        vstd::arithmetic::div_mod::lemma_mod_multiples_vanish(1, c, n);
        vstd::arithmetic::div_mod::lemma_small_mod(c as nat, n as nat);
        assert(n * 1 + c == c + k);
    } else if !(items[p].interactive() || p == c) {
        lemma_down_offset(items, c, k + 1);
    }
}

proof fn lemma_up_offset(items: Seq<PageRow>, c: int, k: int)
    requires
        0 <= c < items.len(),
        1 <= k <= items.len(),
    ensures
        k <= up_offset(items, c, k) <= items.len(),
        seek_up(items, c, k) == (c - up_offset(items, c, k)) % (items.len() as int),
        forall|j: int|
            k <= j < up_offset(items, c, k) ==> !items[#[trigger] ((c - j) % (
                items.len() as int))].interactive(),
    decreases items.len() + 1 - k,
{
    let n = items.len() as int;
    let p = (c - k) % n;
    if k == n {
        lemma_mod_near(c - k, n);
    } else if !(items[p].interactive() || p == c) {
        lemma_up_offset(items, c, k + 1);
    }
}

/// On a page whose cursor rests on a row that takes it, a step down undoes
/// a step up and a step up undoes a step down.
pub proof fn law_page_steps_undo(s: AppState, h: HostState)
    requires
        s.screen is Page,
        s.cursor < s.items.len(),
        s.items.len() <= usize::MAX,
        s.items[s.cursor as int].interactive(),
    ensures
        up(down(s, h), h) == s,
        down(up(s, h), h) == s,
{
    let items = s.items;
    let n = items.len() as int;
    let c = s.cursor as int;
    // Down, then up.
    lemma_down_offset(items, c, 1);
    let d = down_offset(items, c, 1);
    let p = (c + d) % n;
    lemma_mod_near(c + d, n);
    assert forall|j: int| 1 <= j < d implies !items[#[trigger] ((p - j) % n)].interactive() && (p
        - j) % n != p by {
        lemma_mod_near(p - j, n);
        lemma_mod_near(c + (d - j), n);
        assert((p - j) % n == (c + (d - j)) % n);
        assert(!items[(c + (d - j)) % n].interactive());
    }
    lemma_seek_up_skip(items, p, 1, d);
    lemma_mod_near(p - d, n);
    assert((p - d) % n == c);
    assert(seek_up(items, p, d) == c);
    let t = down(s, h);
    assert(t.cursor as int == p);
    assert(t.items == items && t.screen == s.screen);
    assert(up(t, h).cursor as int == seek_up(items, p, 1));
    assert(up(down(s, h), h) =~= s);
    // Up, then down.
    lemma_up_offset(items, c, 1);
    let e = up_offset(items, c, 1);
    let q = (c - e) % n;
    lemma_mod_near(c - e, n);
    assert forall|j: int| 1 <= j < e implies !items[#[trigger] ((q + j) % n)].interactive() && (q
        + j) % n != q by {
        lemma_mod_near(q + j, n);
        lemma_mod_near(c - (e - j), n);
        assert((q + j) % n == (c - (e - j)) % n);
        assert(!items[(c - (e - j)) % n].interactive());
    }
    lemma_seek_down_skip(items, q, 1, e);
    lemma_mod_near(q + e, n);
    assert((q + e) % n == c);
    assert(seek_down(items, q, e) == c);
    let u = up(s, h);
    assert(u.cursor as int == q);
    assert(u.items == items && u.screen == s.screen);
    assert(down(u, h).cursor as int == seek_down(items, q, 1));
    assert(down(up(s, h), h) =~= s);
}

proof fn lemma_first_at_least(s: Seq<usize>, c: usize, k: int, j: int)
    requires
        0 <= k <= j < s.len(),
        s[j] >= c,
    ensures
        k <= first_at_least(s, c, k) <= j,
    decreases j - k,
{
    if s[k] < c {
        lemma_first_at_least(s, c, k + 1, j);
    }
}

proof fn lemma_last_at_most(s: Seq<usize>, c: usize, k: int, j: int)
    requires
        0 <= j < k <= s.len(),
        s[j] <= c,
    ensures
        j <= last_at_most(s, c, k) < k,
    decreases k,
{
    if s[k - 1] > c {
        lemma_last_at_most(s, c, k - 1, j);
    }
}

proof fn lemma_first_at_least_range(s: Seq<usize>, c: usize, k: int)
    requires
        0 <= k,
    ensures
        -1 <= first_at_least(s, c, k) < s.len(),
    decreases s.len() - k,
{
    if k < s.len() && s[k] < c {
        lemma_first_at_least_range(s, c, k + 1);
    }
}

proof fn lemma_last_at_most_range(s: Seq<usize>, c: usize, k: int)
    requires
        k <= s.len(),
    ensures
        -1 <= last_at_most(s, c, k) < s.len(),
    decreases k,
{
    if 0 < k && s[k - 1] > c {
        lemma_last_at_most_range(s, c, k - 1);
    }
}

/// On the root menu a step down or up leaves the cursor where it is or
/// puts it on a row that can be selected; from a selectable row it always
/// goes to a selectable row.
pub proof fn law_root_steps_select(s: AppState, h: HostState)
    requires
        s.screen is Root,
    ensures
        down(s, h).cursor == s.cursor || selectable(root_rows(h)).contains(down(s, h).cursor),
        up(s, h).cursor == s.cursor || selectable(root_rows(h)).contains(up(s, h).cursor),
        selectable(root_rows(h)).contains(s.cursor) ==> selectable(root_rows(h)).contains(
            down(s, h).cursor,
        ) && selectable(root_rows(h)).contains(up(s, h).cursor),
{
    let idx = selectable(root_rows(h));
    let c = s.cursor;
    lemma_first_at_least_range(idx, c, 0);
    lemma_last_at_most_range(idx, c, idx.len() as int);
    let p = first_at_least(idx, c, 0);
    let q = last_at_most(idx, c, idx.len() as int);
    if p >= 0 {
        if p + 1 < idx.len() {
            assert(idx[p + 1] == down(s, h).cursor);
        } else {
            assert(idx[0] == down(s, h).cursor);
        }
    }
    if q >= 0 {
        if q > 0 {
            assert(idx[q - 1] == up(s, h).cursor);
        } else {
            assert(idx[idx.len() - 1] == up(s, h).cursor);
        }
    }
    if idx.contains(c) {
        let j = choose|j: int| 0 <= j < idx.len() && idx[j] == c;
        lemma_first_at_least(idx, c, 0, j);
        lemma_last_at_most(idx, c, idx.len() as int, j);
    }
}

proof fn lemma_first_at_least_hit(s: Seq<usize>, c: usize, k: int)
    requires
        0 <= k,
    ensures
        first_at_least(s, c, k) >= 0 ==> k <= first_at_least(s, c, k) < s.len() && s[first_at_least(
            s,
            c,
            k,
        )] >= c,
    decreases s.len() - k,
{
    if k < s.len() && s[k] < c {
        lemma_first_at_least_hit(s, c, k + 1);
    }
}

proof fn lemma_last_at_most_hit(s: Seq<usize>, c: usize, k: int)
    requires
        k <= s.len(),
    ensures
        last_at_most(s, c, k) >= 0 ==> last_at_most(s, c, k) < k && s[last_at_most(s, c, k)] <= c,
    decreases k,
{
    if 0 < k && s[k - 1] > c {
        lemma_last_at_most_hit(s, c, k - 1);
    }
}

/// On the root menu, from a row that can be selected, a step up undoes a
/// step down and a step down undoes a step up.
pub proof fn law_root_steps_undo(s: AppState, h: HostState)
    requires
        s.screen is Root,
        selectable(root_rows(h)).contains(s.cursor),
        root_rows(h).len() <= usize::MAX,
    ensures
        up(down(s, h), h) == s,
        down(up(s, h), h) == s,
{
    let idx = selectable(root_rows(h));
    let n = idx.len() as int;
    let c = s.cursor;
    lemma_selectable_increasing(root_rows(h));
    let j = choose|j: int| 0 <= j < idx.len() && idx[j] == c;
    // Each selectable row is found at its own position, both ways.
    assert forall|t: int| 0 <= t < n implies first_at_least(idx, #[trigger] idx[t], 0) == t
        && last_at_most(idx, idx[t], n) == t by {
        lemma_first_at_least(idx, idx[t], 0, t);
        lemma_first_at_least_hit(idx, idx[t], 0);
        lemma_last_at_most(idx, idx[t], n, t);
        lemma_last_at_most_hit(idx, idx[t], n);
        let f = first_at_least(idx, idx[t], 0);
        let l = last_at_most(idx, idx[t], n);
        if f < t {
            assert(idx[f] < idx[t]);
        }
        if l > t {
            assert(idx[t] < idx[l]);
        }
    }
    let next = if j + 1 < n { j + 1 } else { 0 };
    let prev = if j > 0 { j - 1 } else { n - 1 };
    assert(down(s, h).cursor == idx[next]);
    assert(up(s, h).cursor == idx[prev]);
    assert(first_at_least(idx, idx[prev], 0) == prev);
    assert(last_at_most(idx, idx[next], n) == next);
    assert(up(down(s, h), h) =~= s);
    assert(down(up(s, h), h) =~= s);
}

proof fn lemma_first_index_found(s: Seq<Seq<char>>, v: Seq<char>, k: int)
    requires
        0 <= k,
    ensures
        first_index(s, v, k) >= 0 ==> s[first_index(s, v, k)] == v,
        first_index(s, v, k) < 0 ==> forall|j: int| k <= j < s.len() ==> s[j] != v,
    decreases s.len() - k,
{
    if k < s.len() && s[k] != v {
        lemma_first_index_found(s, v, k + 1);
    }
}

/// After a page is read again, every dropdown with options remembers the
/// option that it shows: the one its form value names, else the first.
pub proof fn law_refresh_agrees_with_forms(s: AppState, interface: Option<Component>, i: int)
    requires
        0 <= i < refreshed(s, interface).items.len(),
        refreshed(s, interface).items.len() <= usize::MAX,
        refreshed(s, interface).items[i] is Dropdown,
        row_options(refreshed(s, interface).items[i]).len() > 0,
        row_options(refreshed(s, interface).items[i]).len() <= usize::MAX,
    ensures
        ({
            let r = refreshed(s, interface);
            let row = r.items[i];
            r.drops.contains_key(i as usize) && row_options(row)[r.drops[i as usize] as int]
                == shown_option(r.forms, row->Dropdown_form_id, row->Dropdown_id, row_options(row))
        }),
{
    let r = refreshed(s, interface);
    let row = r.items[i];
    let opts = row_options(row);
    lemma_synced_at(s.drops, s.forms, r.items, r.items.len() as int, i);
    lemma_chosen_range(s.forms, row->Dropdown_form_id, row->Dropdown_id, opts);
    let key = (row->Dropdown_form_id, row->Dropdown_id);
    if s.forms.contains_key(key) {
        lemma_first_index_found(opts, s.forms[key], 0);
        lemma_first_index_range(opts, s.forms[key], 0);
        let p = first_index(opts, s.forms[key], 0);
        if p < 0 {
            assert(!opts.contains(s.forms[key]));
        } else {
            assert(opts[p] == s.forms[key]);
            assert(opts.contains(s.forms[key]));
        }
    }
    assert(r.drops[i as usize] == chosen(s.forms, key.0, key.1, opts));
}

/// Going back to the root menu forgets the page, its forms and its
/// dropdown choices, and going back twice is going back once.
pub proof fn law_back_forgets(s: AppState)
    ensures
        back(s).screen is Root,
        back(s).items.len() == 0,
        back(s).forms == Map::<(Seq<char>, Seq<char>), Seq<char>>::empty(),
        back(s).drops == Map::<usize, usize>::empty(),
        back(back(s)) == back(s),
{
    assert(back(back(s)) =~= back(s));
}

/// Typing a character into a text field and then removing it gives the
/// field its value back.
pub proof fn law_type_then_erase(s: AppState, ch: char)
    requires
        s.screen is Page,
        s.input_mode,
        s.cursor < s.items.len(),
        s.items[s.cursor as int] is Input,
    ensures
        ({
            let t = text_key(text_key(s, Key::Char(ch)), Key::Backspace);
            let f = s.items[s.cursor as int];
            field_value(t, f->Input_form_id, f->Input_id) == field_value(
                s,
                f->Input_form_id,
                f->Input_id,
            ) && t.items == s.items && t.input_mode
        }),
{
    let f = s.items[s.cursor as int];
    let v = field_value(s, f->Input_form_id, f->Input_id);
    assert(v.push(ch).drop_last() =~= v);
}

/// Answering a request with Enter always returns to the root menu, and
/// either answers it with the entity under the cursor or, on the last row,
/// denies it.
pub proof fn law_answer_or_deny(s: AppState, h: HostState, r: UserRequest)
    requires
        s.screen == ScreenState::FulfillRequest(r),
    ensures
        fulfill_key(s, Key::Enter, h, r).0 == back(s),
        s.cursor < candidates(h.entities, r).len() ==> fulfill_key(s, Key::Enter, h, r).1
            == match resolution(r, candidates(h.entities, r)[s.cursor as int]) {
            Some(x) => ActionState::Resolve(x),
            None => ActionState::Nothing,
        },
        s.cursor >= candidates(h.entities, r).len() ==> fulfill_key(s, Key::Enter, h, r).1
            == ActionState::Deny(r.request_id()),
{
}

/// Enter on the list of requests opens the request under the cursor, the
/// one whose label the list shows highlighted there, with the cursor on the
/// first row; nothing else changes and nothing is sent.
pub proof fn law_enter_opens_request_at_cursor(s: AppState, h: HostState)
    requires
        s.screen is Requests,
        s.cursor < h.requests.len(),
    ensures
        key_step(s, Key::Enter, false, h).0 == (AppState {
            screen: ScreenState::FulfillRequest(h.requests[s.cursor as int]),
            cursor: 0,
            ..s
        }),
        key_step(s, Key::Enter, false, h).1 == ActionState::Nothing,
        request_lines(h.requests, s.cursor)[s.cursor as int] == (
            request_label_text(key_step(s, Key::Enter, false, h).0.screen->FulfillRequest_0),
            RowStyle::Highlight,
        ),
{
}

/// Enter on a page row of the root menu opens, and asks to load, the page
/// of the entity whose owner's name that row shows: the page entity that
/// has as many page entities before it as page rows stand above the row.
/// (A page row whose owner's name reads like one of the first three rows
/// opens that row's screen instead.)
pub proof fn law_enter_opens_page_shown(s: AppState, h: HostState)
    requires
        s.screen is Root,
        4 <= s.cursor,
        s.cursor - 4 < page_count(h.entities),
        root_rows(h)[s.cursor as int] != "Load Plugin"@,
        !has_prefix(root_rows(h)[s.cursor as int], "Events"@),
        !has_prefix(root_rows(h)[s.cursor as int], "Requests"@),
    ensures
        key_step(s, Key::Enter, false, h).0.screen is Page,
        key_step(s, Key::Enter, false, h).0 == (AppState {
            screen: key_step(s, Key::Enter, false, h).0.screen,
            cursor: 0,
            ..s
        }),
        key_step(s, Key::Enter, false, h).1 == ActionState::LoadPage(
            key_step(s, Key::Enter, false, h).0.screen->Page_0,
        ),
        exists|j: int|
            0 <= j < h.entities.len() && h.entities[j].0 == EntityId::Page(
                key_step(s, Key::Enter, false, h).0.screen->Page_0,
            ) && owner_text(h.entities[j].1) == root_rows(h)[s.cursor as int] && page_count(
                h.entities.take(j),
            ) == s.cursor - 4,
{
    let es = h.entities;
    let k = s.cursor - 4;
    lemma_page_rows_match_ids(es);
    let rows = root_rows(h);
    assert(rows[s.cursor as int] == page_names(es)[k]);
    let j = choose|j: int|
        0 <= j < es.len() && es[j].0 == EntityId::Page(#[trigger] page_ids(es)[k])
            && page_names(es)[k] == owner_text(es[j].1) && page_count(es.take(j)) == k;
    assert(key_step(s, Key::Enter, false, h).0.screen == ScreenState::Page(page_ids(es)[k]));
}

/// Enter on the list of plugin files starts loading the file under the
/// cursor, named by its file name without the extension, the name that the
/// list shows for it, or `plugin` when it has none.
pub proof fn law_enter_loads_file_at_cursor(s: AppState, h: HostState, dir: Seq<char>)
    requires
        s.screen is BrowsePlugins,
        s.cursor < s.screen->BrowsePlugins_0.len(),
    ensures
        ({
            let files = s.screen->BrowsePlugins_0;
            let f = files[s.cursor as int];
            let t = key_step(s, Key::Enter, false, h).0;
            &&& t == AppState { screen: t.screen, ..s }
            &&& t.screen is LoadingPlugin
            &&& t.screen->LoadingPlugin_0 == f.0
            &&& f.1 is Some ==> t.screen->LoadingPlugin_1 == f.1->Some_0
                && t.screen->LoadingPlugin_1 == browse_lines(files, dir, s.cursor)[s.cursor as int].0
            &&& f.1 is None ==> t.screen->LoadingPlugin_1 == "plugin"@
        }),
{
}

} // verus!
