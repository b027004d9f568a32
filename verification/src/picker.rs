//! The picker window's state and how it reacts to what happens: typed
//! queries, search replies, keys, activations and loaded thumbnails. Each
//! event gives a new state and the commands that the window then carries out
//! (start a search, move the focus, scroll, load icons or thumbnails, hand a
//! result to its module, or close).

use vstd::prelude::*;
use crate::module::{ActivationOutcome, DEFAULT_ACTION_ID, MatchKind, SearchResult};
use crate::text::{
    ascii_lower, chars_of, concat, eq_ignore_ascii_case, equal_ignoring_ascii_case, find_char,
    index_of, lemma_index_of, parse_decimal, parse_unsigned, str_equal, copy_range, to_ascii_lower,
};

verus! {

broadcast use vstd::string::group_string_axioms;

/// At most this many thumbnails are requested at once.
pub const MAX_WINDOW_THUMBNAIL_REQUESTS_PER_BATCH: usize = 6;

/// What the picker shows when the software renderer is in use.
pub const TINY_SKIA_WARNING: &'static str =
    "Using software renderer (tiny-skia); performance may be degraded.";

/// Where the keyboard focus is.
#[derive(Clone, Copy, Debug, Eq, PartialEq, Structural)]
pub enum FocusTarget {
    Search,
    Results,
}

/// A key the picker reacts to.
#[derive(Clone, Copy, Debug, Eq, PartialEq, Structural)]
pub enum AppKey {
    Down,
    Up,
    Tab,
    Enter,
    Escape,
    FocusSearch,
    Shortcut(char),
}

/// Whether a window's thumbnail is on its way, loaded (with its file), or failed.
#[derive(Clone, Debug, Eq, PartialEq)]
pub enum ThumbnailState {
    Loading,
    Ready(String),
    Failed,
}

/// A thumbnail that was loaded for a window.
#[derive(Clone, Debug, Eq, PartialEq)]
pub struct LoadedWindowThumbnail {
    pub window_id: u64,
    pub path: String,
}

/// What happens to the picker.
#[allow(inconsistent_fields)]
pub enum Event {
    QueryChanged(String),
    ActivateSelected,
    ActivateSelectedAction(&'static str),
    ResultActivated(usize),
    /// The result rows now on screen (with the thumbnail margin), by row key.
    RowsVisible(Vec<String>),
    EnsureSelectedResultVisible(u64),
    SelectedResultVisibilityMeasured { request_id: u64, visible_rows: Vec<String> },
    KeyPressed(AppKey),
    /// The name of the graphics backend in use.
    RendererReported(String),
    StartupFinished,
    IconIndexFinished,
    SearchFinished { request_id: u64, result: Result<Vec<SearchResult>, String> },
    WindowThumbnailFinished { window_id: u64, result: Result<LoadedWindowThumbnail, String> },
    ActivationFinished(Result<ActivationOutcome, String>),
}

/// What the window is asked to do.
#[derive(Clone, Debug, Eq, PartialEq)]
pub enum Command {
    /// Search for `query`; the reply carries `request_id`.
    Search { request_id: u64, query: String },
    LoadIconIndex,
    LoadThumbnail(u64),
    /// Hand the result at `index` to its module with `action_id`.
    Activate { index: usize, action_id: &'static str },
    /// Feed `ActivateSelectedAction` back as the next event.
    ActivateSelectedAction(&'static str),
    FocusSearch,
    FocusFirstResult,
    /// Forget the measured row positions.
    ClearRowBounds,
    /// Scroll the selected row into view from the cached layout, then send
    /// `EnsureSelectedResultVisible` with this id.
    ScrollToSelected(u64),
    /// Measure whether the selected row is visible; the reply carries this id.
    MeasureSelected(u64),
    /// Keep the measured layout and scroll to the offset it asked for.
    ApplyMeasuredLayout,
    Exit,
}

/// The state of the picker.
pub struct PickerApp {
    pub has_registry: bool,
    pub has_icon_index: bool,
    pub query: String,
    pub error_message: String,
    pub renderer_warning: String,
    pub results: Vec<SearchResult>,
    pub selected_index: Option<usize>,
    pub focus_target: FocusTarget,
    pub search_request_id: u64,
    pub active_search_request_id: u64,
    /// Row keys of the result rows on screen.
    pub visible_rows: Vec<String>,
    pub window_thumbnails: Vec<(u64, ThumbnailState)>,
    pub selected_result_visibility_request_id: u64,
    pub is_starting_up: bool,
    pub is_loading_icon_index: bool,
}

// ---------------------------------------------------------------------------
// Plain values
// ---------------------------------------------------------------------------

pub enum ThumbView {
    Loading,
    Ready(Seq<char>),
    Failed,
}

pub open spec fn thumb_view(t: ThumbnailState) -> ThumbView {
    match t {
        ThumbnailState::Loading => ThumbView::Loading,
        ThumbnailState::Ready(p) => ThumbView::Ready(p@),
        ThumbnailState::Failed => ThumbView::Failed,
    }
}

pub enum CommandView {
    Search { request_id: u64, query: Seq<char> },
    LoadIconIndex,
    LoadThumbnail(u64),
    Activate { index: usize, action_id: Seq<char> },
    ActivateSelectedAction(Seq<char>),
    FocusSearch,
    FocusFirstResult,
    ClearRowBounds,
    ScrollToSelected(u64),
    MeasureSelected(u64),
    ApplyMeasuredLayout,
    Exit,
}

pub open spec fn command_view(c: Command) -> CommandView {
    match c {
        Command::Search { request_id, query } => CommandView::Search { request_id, query: query@ },
        Command::LoadIconIndex => CommandView::LoadIconIndex,
        Command::LoadThumbnail(w) => CommandView::LoadThumbnail(w),
        Command::Activate { index, action_id } => CommandView::Activate {
            index,
            action_id: action_id@,
        },
        Command::ActivateSelectedAction(a) => CommandView::ActivateSelectedAction(a@),
        Command::FocusSearch => CommandView::FocusSearch,
        Command::FocusFirstResult => CommandView::FocusFirstResult,
        Command::ClearRowBounds => CommandView::ClearRowBounds,
        Command::ScrollToSelected(r) => CommandView::ScrollToSelected(r),
        Command::MeasureSelected(r) => CommandView::MeasureSelected(r),
        Command::ApplyMeasuredLayout => CommandView::ApplyMeasuredLayout,
        Command::Exit => CommandView::Exit,
    }
}

pub open spec fn commands_view(c: Seq<Command>) -> Seq<CommandView> {
    c.map_values(|x: Command| command_view(x))
}

/// The picker's state as plain values.
#[verifier::ext_equal]
pub struct PickerView {
    pub has_registry: bool,
    pub has_icon_index: bool,
    pub query: Seq<char>,
    pub error_message: Seq<char>,
    pub renderer_warning: Seq<char>,
    pub results: Seq<SearchResult>,
    pub selected_index: Option<usize>,
    pub focus_target: FocusTarget,
    pub search_request_id: u64,
    pub active_search_request_id: u64,
    pub visible_rows: Seq<Seq<char>>,
    pub window_thumbnails: Seq<(u64, ThumbView)>,
    pub selected_result_visibility_request_id: u64,
    pub is_starting_up: bool,
    pub is_loading_icon_index: bool,
}

impl View for PickerApp {
    type V = PickerView;

    open spec fn view(&self) -> PickerView {
        PickerView {
            has_registry: self.has_registry,
            has_icon_index: self.has_icon_index,
            query: self.query@,
            error_message: self.error_message@,
            renderer_warning: self.renderer_warning@,
            results: self.results@,
            selected_index: self.selected_index,
            focus_target: self.focus_target,
            search_request_id: self.search_request_id,
            active_search_request_id: self.active_search_request_id,
            visible_rows: self.visible_rows@.map_values(|r: String| r@),
            window_thumbnails: self.window_thumbnails@.map_values(
                |t: (u64, ThumbnailState)| (t.0, thumb_view(t.1)),
            ),
            selected_result_visibility_request_id: self.selected_result_visibility_request_id,
            is_starting_up: self.is_starting_up,
            is_loading_icon_index: self.is_loading_icon_index,
        }
    }
}

// ---------------------------------------------------------------------------
// Results, rows and windows
// ---------------------------------------------------------------------------

/// The key of a result's row: `result-row:{module}:{item}`.
pub open spec fn row_key_of(r: SearchResult) -> Seq<char> {
    "result-row:"@ + r.module_key@ + ":"@ + r.item_id@
}

pub fn row_key(result: &SearchResult) -> (k: String)
    ensures
        k@ == row_key_of(*result),
{
    let head = concat(concat("result-row:", result.module_key).as_str(), ":");
    concat(head.as_str(), result.item_id.as_str())
}

/// The window a result stands for: only window results have one, and it is
/// the number before the first `:` of the item id (or the whole item id).
pub open spec fn result_window_id(r: SearchResult) -> Option<u64> {
    if r.kind != MatchKind::Window {
        None
    } else {
        let s = r.item_id@;
        let head = match index_of(s, ':', 0) {
            Some(i) => s.take(i),
            None => s,
        };
        match parse_unsigned(head, u64::MAX as nat) {
            Some(v) => Some(v as u64),
            None => None,
        }
    }
}

pub fn window_id_for_result(result: &SearchResult) -> (r: Option<u64>)
    ensures
        r == result_window_id(*result),
{
    if result.kind != MatchKind::Window {
        return None;
    }
    let s = chars_of(result.item_id.as_str());
    let head = match find_char(s.as_slice(), ':') {
        Some(i) => {
            proof {
                lemma_index_of(s@, ':', 0);
            }
            copy_range(s.as_slice(), 0, i)
        },
        None => copy_range(s.as_slice(), 0, s.len()),
    };
    proof {
        assert(s@.subrange(0, s@.len() as int) =~= s@);
        match index_of(s@, ':', 0) {
            Some(i) => {
                assert(s@.subrange(0, i) =~= s@.take(i));
            },
            None => {},
        }
    }
    parse_decimal(head.as_slice(), u64::MAX)
}

/// The first position at or after `from` of a thumbnail entry for window `id`.
pub open spec fn thumb_index(t: Seq<(u64, ThumbView)>, id: u64, from: int) -> Option<int>
    decreases t.len() - from,
{
    if from < 0 || from >= t.len() {
        None
    } else if t[from].0 == id {
        Some(from)
    } else {
        thumb_index(t, id, from + 1)
    }
}

proof fn lemma_thumb_index(t: Seq<(u64, ThumbView)>, id: u64, from: int)
    requires
        0 <= from,
    ensures
        thumb_index(t, id, from) matches Some(k) ==> from <= k < t.len() && t[k].0 == id,
    decreases t.len() - from,
{
    if from < t.len() && t[from].0 != id {
        lemma_thumb_index(t, id, from + 1);
    }
}

/// The thumbnail state recorded for window `id`.
pub open spec fn thumbnail_of(t: Seq<(u64, ThumbView)>, id: u64) -> Option<ThumbView> {
    match thumb_index(t, id, 0) {
        Some(k) => Some(t[k].1),
        None => None,
    }
}

/// The thumbnails with window `id` now in state `st`.
pub open spec fn thumb_set(t: Seq<(u64, ThumbView)>, id: u64, st: ThumbView) -> Seq<(u64, ThumbView)> {
    match thumb_index(t, id, 0) {
        Some(k) => t.update(k, (id, st)),
        None => t.push((id, st)),
    }
}

/// Whether the row of `r` is on screen.
pub open spec fn row_visible(visible: Seq<Seq<char>>, r: SearchResult) -> bool {
    visible.contains(row_key_of(r))
}

/// Going through the results from `i`, the thumbnails after marking every
/// visible window without one as loading, and the windows marked, stopping
/// once a batch is full.
pub open spec fn thumbnail_batch(
    results: Seq<SearchResult>,
    visible: Seq<Seq<char>>,
    t: Seq<(u64, ThumbView)>,
    i: int,
    ids: Seq<u64>,
) -> (Seq<(u64, ThumbView)>, Seq<u64>)
    decreases results.len() - i,
{
    if i < 0 || i >= results.len() {
        (t, ids)
    } else {
        let r = results[i];
        match result_window_id(r) {
            Some(w) => if row_visible(visible, r) && thumb_index(t, w, 0) is None {
                let t2 = t.push((w, ThumbView::Loading));
                let ids2 = ids.push(w);
                if ids2.len() >= MAX_WINDOW_THUMBNAIL_REQUESTS_PER_BATCH {
                    (t2, ids2)
                } else {
                    thumbnail_batch(results, visible, t2, i + 1, ids2)
                }
            } else {
                thumbnail_batch(results, visible, t, i + 1, ids)
            },
            None => thumbnail_batch(results, visible, t, i + 1, ids),
        }
    }
}

/// The thumbnail file of a window result, once it is loaded.
pub open spec fn thumbnail_path_of(r: SearchResult, t: Seq<(u64, ThumbView)>) -> Option<Seq<char>> {
    match result_window_id(r) {
        Some(w) => match thumbnail_of(t, w) {
            Some(ThumbView::Ready(p)) => Some(p),
            _ => None,
        },
        None => None,
    }
}

fn thumbnail_position(t: &Vec<(u64, ThumbnailState)>, id: u64) -> (r: Option<usize>)
    ensures
        match r {
            Some(k) => thumb_index(t@.map_values(|x: (u64, ThumbnailState)| (x.0, thumb_view(x.1))), id, 0)
                == Some(k as int),
            None => thumb_index(t@.map_values(|x: (u64, ThumbnailState)| (x.0, thumb_view(x.1))), id, 0)
                is None,
        },
{
    let ghost tv = t@.map_values(|x: (u64, ThumbnailState)| (x.0, thumb_view(x.1)));
    let n = t.len();
    let mut k: usize = 0;
    while k < n
        invariant
            n == t@.len(),
            tv == t@.map_values(|x: (u64, ThumbnailState)| (x.0, thumb_view(x.1))),
            k <= n,
            thumb_index(tv, id, 0) == thumb_index(tv, id, k as int),
        decreases n - k,
    {
        proof {
            assert(tv[k as int].0 == t@[k as int].0);
        }
        if t[k].0 == id {
            return Some(k);
        }
        k = k + 1;
    }
    None
}

/// The thumbnail file of a window result, once it is loaded.
pub fn window_thumbnail_path_for_result(result: &SearchResult, thumbnails: &Vec<(u64, ThumbnailState)>) -> (r:
    Option<String>)
    ensures
        match r {
            Some(p) => thumbnail_path_of(*result, thumbnails@.map_values(
                |x: (u64, ThumbnailState)| (x.0, thumb_view(x.1)),
            )) == Some(p@),
            None => thumbnail_path_of(*result, thumbnails@.map_values(
                |x: (u64, ThumbnailState)| (x.0, thumb_view(x.1)),
            )) is None,
        },
{
    let ghost tv = thumbnails@.map_values(|x: (u64, ThumbnailState)| (x.0, thumb_view(x.1)));
    let w = match window_id_for_result(result) {
        Some(w) => w,
        None => {
            return None;
        },
    };
    match thumbnail_position(thumbnails, w) {
        Some(k) => {
            proof {
                lemma_thumb_index(tv, w, 0);
                assert(tv[k as int] == (thumbnails@[k as int].0, thumb_view(thumbnails@[k as int].1)));
            }
            match &thumbnails[k].1 {
                ThumbnailState::Ready(p) => Some(p.clone()),
                _ => None,
            }
        },
        None => None,
    }
}

/// The warning for a graphics backend: only the software renderer gets one.
pub open spec fn renderer_warning_for(backend: Seq<char>) -> Seq<char> {
    if eq_ignore_ascii_case(backend, "tiny-skia"@) {
        TINY_SKIA_WARNING@
    } else {
        Seq::empty()
    }
}

pub fn tiny_skia_warning(backend: &str) -> (r: Option<&'static str>)
    ensures
        match r {
            Some(w) => eq_ignore_ascii_case(backend@, "tiny-skia"@) && w@ == TINY_SKIA_WARNING@,
            None => !eq_ignore_ascii_case(backend@, "tiny-skia"@),
        },
{
    if equal_ignoring_ascii_case(backend, "tiny-skia") {
        Some(TINY_SKIA_WARNING)
    } else {
        None
    }
}

/// The symbol shown for each kind of result.
pub fn kind_symbol(result: &SearchResult) -> (s: &'static str)
    ensures
        s@ == match result.kind {
            MatchKind::Application => "📦"@,
            MatchKind::Notification => "🔔"@,
            MatchKind::Window => "🗖"@,
            MatchKind::Workspace => "🖥"@,
        },
{
    match result.kind {
        MatchKind::Application => "📦",
        MatchKind::Notification => "🔔",
        MatchKind::Window => "🗖",
        MatchKind::Workspace => "🖥",
    }
}

// ---------------------------------------------------------------------------
// Transitions
// ---------------------------------------------------------------------------

/// The position of the selected result, when the selection names one.
pub open spec fn selected_of(s: PickerView) -> Option<int> {
    match s.selected_index {
        Some(i) => if i < s.results.len() {
            Some(i as int)
        } else {
            None
        },
        None => None,
    }
}

/// A new search for the current query, once the modules are ready.
pub open spec fn search_requested(s: PickerView) -> (PickerView, Seq<CommandView>) {
    if !s.has_registry {
        (s, seq![])
    } else {
        let id = (s.search_request_id + 1) as u64;
        (
            PickerView { search_request_id: id, active_search_request_id: id, ..s },
            seq![CommandView::Search { request_id: id, query: s.query }],
        )
    }
}

/// Any pending measurement of the selected row is made stale.
pub open spec fn scroll_invalidated(s: PickerView) -> PickerView {
    PickerView {
        selected_result_visibility_request_id: (s.selected_result_visibility_request_id + 1) as u64,
        ..s
    }
}

/// The selected row is scrolled into view under a new measurement id.
pub open spec fn scroll_scheduled(s: PickerView) -> (PickerView, Seq<CommandView>) {
    let id = (s.selected_result_visibility_request_id + 1) as u64;
    (
        PickerView { selected_result_visibility_request_id: id, ..s },
        seq![CommandView::ScrollToSelected(id)],
    )
}

/// The icon index is loaded once.
pub open spec fn icon_index_requested(s: PickerView) -> (PickerView, Seq<CommandView>) {
    if s.has_icon_index || s.is_loading_icon_index {
        (s, seq![])
    } else {
        (PickerView { is_loading_icon_index: true, ..s }, seq![CommandView::LoadIconIndex])
    }
}

pub open spec fn load_commands(ids: Seq<u64>) -> Seq<CommandView> {
    ids.map_values(|w: u64| CommandView::LoadThumbnail(w))
}

/// Thumbnails are requested for the next batch of visible windows without one.
pub open spec fn thumbnails_requested(s: PickerView) -> (PickerView, Seq<CommandView>) {
    let b = thumbnail_batch(s.results, s.visible_rows, s.window_thumbnails, 0, seq![]);
    (PickerView { window_thumbnails: b.0, ..s }, load_commands(b.1))
}

/// The selected result is handed to its module with `action`.
pub open spec fn selected_activation(s: PickerView, action: Seq<char>) -> Seq<CommandView> {
    match selected_of(s) {
        Some(i) => if s.has_registry {
            seq![CommandView::Activate { index: i as usize, action_id: action }]
        } else {
            seq![]
        },
        None => seq![],
    }
}

/// The position at or after `from` of the first action whose shortcut is `c`,
/// ignoring ASCII case.
pub open spec fn shortcut_position(actions: Seq<crate::module::ResultAction>, c: char, from: int) -> Option<
    int,
>
    decreases actions.len() - from,
{
    if from < 0 || from >= actions.len() {
        None
    } else if ascii_lower(actions[from].shortcut) == ascii_lower(c) {
        Some(from)
    } else {
        shortcut_position(actions, c, from + 1)
    }
}

/// The id of the selected result's action whose shortcut is `c`.
pub open spec fn shortcut_action(s: PickerView, c: char) -> Option<&'static str> {
    match selected_of(s) {
        Some(i) => match shortcut_position(s.results[i].actions@, c, 0) {
            Some(k) => Some(s.results[i].actions@[k].id),
            None => None,
        },
        None => None,
    }
}

pub open spec fn search_focused(s: PickerView) -> (PickerView, Seq<CommandView>) {
    (PickerView { focus_target: FocusTarget::Search, ..s }, seq![CommandView::FocusSearch])
}

/// A key pressed while the search field has the focus.
pub open spec fn search_key_handled(s: PickerView, k: AppKey) -> (PickerView, Seq<CommandView>) {
    match k {
        AppKey::Down | AppKey::Tab => if s.results.len() > 0 {
            let s1 = PickerView {
                focus_target: FocusTarget::Results,
                selected_index: if s.selected_index is Some {
                    s.selected_index
                } else {
                    Some(0usize)
                },
                ..s
            };
            let r = scroll_scheduled(s1);
            (r.0, seq![CommandView::FocusFirstResult] + r.1)
        } else {
            (s, seq![])
        },
        AppKey::Escape => (s, seq![CommandView::Exit]),
        _ => (s, seq![]),
    }
}

/// A key pressed while the results have the focus.
pub open spec fn results_key_handled(s: PickerView, k: AppKey) -> (PickerView, Seq<CommandView>) {
    match k {
        AppKey::Down => match s.selected_index {
            None => if s.results.len() == 0 {
                (s, seq![])
            } else {
                let r = scroll_scheduled(PickerView { selected_index: Some(0usize), ..s });
                (r.0, seq![CommandView::FocusFirstResult] + r.1)
            },
            Some(i) => if i + 1 < s.results.len() {
                scroll_scheduled(PickerView { selected_index: Some((i + 1) as usize), ..s })
            } else {
                (s, seq![])
            },
        },
        AppKey::Up => match s.selected_index {
            Some(i) => if i == 0 {
                search_focused(s)
            } else {
                scroll_scheduled(PickerView { selected_index: Some((i - 1) as usize), ..s })
            },
            None => search_focused(s),
        },
        AppKey::Tab | AppKey::FocusSearch => search_focused(s),
        AppKey::Enter => (s, selected_activation(s, DEFAULT_ACTION_ID@)),
        AppKey::Escape => (s, seq![CommandView::Exit]),
        AppKey::Shortcut(c) => match shortcut_action(s, c) {
            Some(a) => (s, seq![CommandView::ActivateSelectedAction(a@)]),
            None => (s, seq![]),
        },
    }
}

/// A search reply: a stale one is ignored; otherwise its results replace the
/// old ones with the first selected, or its error is shown.
pub open spec fn search_finished(
    s: PickerView,
    request_id: u64,
    result: Result<Vec<SearchResult>, String>,
) -> (PickerView, Seq<CommandView>) {
    if request_id != s.active_search_request_id {
        (s, seq![])
    } else {
        match result {
            Ok(rs) => {
                let s1 = PickerView {
                    error_message: seq![],
                    results: rs@,
                    visible_rows: seq![],
                    selected_index: if rs@.len() > 0 {
                        Some(0usize)
                    } else {
                        None
                    },
                    ..s
                };
                let (s2, icon) = icon_index_requested(s1);
                if s2.focus_target == FocusTarget::Results && rs@.len() > 0 {
                    let (s3, sc) = scroll_scheduled(s2);
                    (s3, seq![CommandView::ClearRowBounds, CommandView::FocusFirstResult] + sc + icon)
                } else if rs@.len() > 0 {
                    let (s3, sc) = scroll_scheduled(s2);
                    (s3, seq![CommandView::ClearRowBounds] + sc + icon)
                } else if s2.focus_target == FocusTarget::Results {
                    (
                        scroll_invalidated(PickerView { focus_target: FocusTarget::Search, ..s2 }),
                        seq![CommandView::ClearRowBounds, CommandView::FocusSearch] + icon,
                    )
                } else {
                    (scroll_invalidated(s2), seq![CommandView::ClearRowBounds] + icon)
                }
            },
            Err(msg) => {
                let s1 = scroll_invalidated(
                    PickerView { error_message: msg@, results: seq![], selected_index: None, ..s },
                );
                if s.focus_target == FocusTarget::Results {
                    search_focused(s1)
                } else {
                    (s1, seq![])
                }
            },
        }
    }
}

/// A thumbnail reply is recorded, then the next batch is requested.
pub open spec fn thumbnail_finished(
    s: PickerView,
    window_id: u64,
    result: Result<LoadedWindowThumbnail, String>,
) -> (PickerView, Seq<CommandView>) {
    let st = match result {
        Ok(t) => if t.window_id == window_id {
            ThumbView::Ready(t.path@)
        } else {
            ThumbView::Failed
        },
        Err(_) => ThumbView::Failed,
    };
    thumbnails_requested(
        PickerView { window_thumbnails: thumb_set(s.window_thumbnails, window_id, st), ..s },
    )
}

/// An activation reply: close, search again, or show the error.
pub open spec fn activation_finished(s: PickerView, result: Result<ActivationOutcome, String>) -> (
    PickerView,
    Seq<CommandView>,
) {
    match result {
        Ok(ActivationOutcome::ClosePicker) => (s, seq![CommandView::Exit]),
        Ok(ActivationOutcome::RefreshResults) => search_requested(s),
        Err(msg) => (PickerView { error_message: msg@, ..s }, seq![]),
    }
}

pub open spec fn rows_view(rows: Seq<String>) -> Seq<Seq<char>> {
    rows.map_values(|r: String| r@)
}

/// The new state and the commands after event `e` in state `s`.
pub open spec fn transition(s: PickerView, e: Event) -> (PickerView, Seq<CommandView>) {
    match e {
        Event::QueryChanged(q) => search_requested(
            scroll_invalidated(PickerView { query: q@, focus_target: FocusTarget::Search, ..s }),
        ),
        Event::ActivateSelected => (s, selected_activation(s, DEFAULT_ACTION_ID@)),
        Event::ActivateSelectedAction(a) => (s, selected_activation(s, a@)),
        Event::ResultActivated(i) => {
            let s1 = PickerView {
                selected_index: Some(i),
                focus_target: FocusTarget::Results,
                ..s
            };
            (s1, selected_activation(s1, DEFAULT_ACTION_ID@))
        },
        Event::RowsVisible(rows) => thumbnails_requested(
            PickerView { visible_rows: rows_view(rows@), ..s },
        ),
        Event::EnsureSelectedResultVisible(r) => (
            s,
            if selected_of(s) is Some {
                seq![CommandView::MeasureSelected(r)]
            } else {
                seq![]
            },
        ),
        Event::SelectedResultVisibilityMeasured { request_id, visible_rows } => if request_id
            != s.selected_result_visibility_request_id {
            (s, seq![])
        } else {
            let (s2, c) = thumbnails_requested(
                PickerView { visible_rows: rows_view(visible_rows@), ..s },
            );
            (s2, seq![CommandView::ApplyMeasuredLayout] + c)
        },
        Event::KeyPressed(k) => match s.focus_target {
            FocusTarget::Search => search_key_handled(s, k),
            FocusTarget::Results => results_key_handled(s, k),
        },
        Event::RendererReported(b) => (
            PickerView { renderer_warning: renderer_warning_for(b@), ..s },
            seq![],
        ),
        Event::StartupFinished => search_requested(
            PickerView { is_starting_up: false, has_registry: true, ..s },
        ),
        Event::IconIndexFinished => (
            PickerView { is_loading_icon_index: false, has_icon_index: true, ..s },
            seq![],
        ),
        Event::SearchFinished { request_id, result } => search_finished(s, request_id, result),
        Event::WindowThumbnailFinished { window_id, result } => thumbnail_finished(
            s,
            window_id,
            result,
        ),
        Event::ActivationFinished(r) => activation_finished(s, r),
    }
}

/// Whether the counters that `e` advances can still advance.
pub open spec fn counters_fit(s: PickerView, e: Event) -> bool {
    &&& s.search_request_id < u64::MAX
    &&& s.selected_result_visibility_request_id < u64::MAX
    &&& (e matches Event::KeyPressed(AppKey::Down) && s.focus_target == FocusTarget::Results)
        ==> s.selected_index != Some(usize::MAX)
}

// ---------------------------------------------------------------------------
// Carrying out the transitions
// ---------------------------------------------------------------------------

pub open spec fn thumbs_view(t: Seq<(u64, ThumbnailState)>) -> Seq<(u64, ThumbView)> {
    t.map_values(|x: (u64, ThumbnailState)| (x.0, thumb_view(x.1)))
}

/// The state of a picker that has just opened: no modules yet, no results,
/// the focus in the search field.
pub open spec fn initial_view() -> PickerView {
    PickerView {
        has_registry: false,
        has_icon_index: false,
        query: seq![],
        error_message: seq![],
        renderer_warning: seq![],
        results: seq![],
        selected_index: None,
        focus_target: FocusTarget::Search,
        search_request_id: 0,
        active_search_request_id: 0,
        visible_rows: seq![],
        window_thumbnails: seq![],
        selected_result_visibility_request_id: 0,
        is_starting_up: true,
        is_loading_icon_index: false,
    }
}

fn joined(a: Vec<Command>, b: Vec<Command>) -> (r: Vec<Command>)
    ensures
        commands_view(r@) == commands_view(a@) + commands_view(b@),
{
    let mut a = a;
    let mut b = b;
    let ghost va = a@;
    let ghost vb = b@;
    a.append(&mut b);
    proof {
        assert(a@ == va + vb);
        assert(commands_view(va + vb) =~= commands_view(va) + commands_view(vb));
    }
    a
}

fn one(c: Command) -> (r: Vec<Command>)
    ensures
        commands_view(r@) == seq![command_view(c)],
{
    let r = vec![c];
    proof {
        assert(commands_view(r@) =~= seq![command_view(c)]);
    }
    r
}

fn none() -> (r: Vec<Command>)
    ensures
        commands_view(r@) == Seq::<CommandView>::empty(),
{
    let r: Vec<Command> = Vec::new();
    proof {
        assert(commands_view(r@) =~= Seq::<CommandView>::empty());
    }
    r
}

fn row_listed(rows: &Vec<String>, key: &String) -> (r: bool)
    ensures
        r == rows_view(rows@).contains(key@),
{
    let n = rows.len();
    let mut k: usize = 0;
    while k < n
        invariant
            n == rows@.len(),
            k <= n,
            forall|j: int| 0 <= j < k ==> rows_view(rows@)[j] != key@,
        decreases n - k,
    {
        if str_equal(rows[k].as_str(), key.as_str()) {
            proof {
                assert(rows_view(rows@)[k as int] == key@);
            }
            return true;
        }
        k = k + 1;
    }
    false
}

/// The key that a character typed in the result list stands for: `/` moves
/// the focus to the search field, any other text is a shortcut by its first
/// character.
pub fn results_character_key(value: &str) -> (r: Option<AppKey>)
    ensures
        value@ == "/"@ ==> r == Some(AppKey::FocusSearch),
        value@ != "/"@ && value@.len() > 0 ==> r == Some(AppKey::Shortcut(value@[0])),
        value@.len() == 0 ==> r is None,
{
    proof {
        reveal_strlit("/");
    }
    if str_equal(value, "/") {
        return Some(AppKey::FocusSearch);
    }
    let c = chars_of(value);
    if c.len() == 0 {
        None
    } else {
        Some(AppKey::Shortcut(c[0]))
    }
}

impl PickerApp {
    pub fn new() -> (r: Self)
        ensures
            r@ == initial_view(),
    {
        let r = PickerApp {
            has_registry: false,
            has_icon_index: false,
            query: String::new(),
            error_message: String::new(),
            renderer_warning: String::new(),
            results: Vec::new(),
            selected_index: None,
            focus_target: FocusTarget::Search,
            search_request_id: 0,
            active_search_request_id: 0,
            visible_rows: Vec::new(),
            window_thumbnails: Vec::new(),
            selected_result_visibility_request_id: 0,
            is_starting_up: true,
            is_loading_icon_index: false,
        };
        proof {
            assert(r@ =~= initial_view());
        }
        r
    }

    fn request_search(&mut self) -> (r: Vec<Command>)
        requires
            old(self).search_request_id < u64::MAX,
        ensures
            final(self)@ == search_requested(old(self)@).0,
            commands_view(r@) == search_requested(old(self)@).1,
    {
        if !self.has_registry {
            return none();
        }
        self.search_request_id = self.search_request_id + 1;
        self.active_search_request_id = self.search_request_id;
        let query = self.query.clone();
        one(Command::Search { request_id: self.search_request_id, query })
    }

    fn invalidate_selected_result_scroll(&mut self)
        requires
            old(self).selected_result_visibility_request_id < u64::MAX,
        ensures
            final(self)@ == scroll_invalidated(old(self)@),
    {
        self.selected_result_visibility_request_id = self.selected_result_visibility_request_id + 1;
    }

    fn schedule_selected_result_scroll(&mut self) -> (r: Vec<Command>)
        requires
            old(self).selected_result_visibility_request_id < u64::MAX,
        ensures
            final(self)@ == scroll_scheduled(old(self)@).0,
            commands_view(r@) == scroll_scheduled(old(self)@).1,
    {
        self.selected_result_visibility_request_id = self.selected_result_visibility_request_id + 1;
        one(Command::ScrollToSelected(self.selected_result_visibility_request_id))
    }

    fn request_icon_index(&mut self) -> (r: Vec<Command>)
        ensures
            final(self)@ == icon_index_requested(old(self)@).0,
            commands_view(r@) == icon_index_requested(old(self)@).1,
    {
        if self.has_icon_index || self.is_loading_icon_index {
            return none();
        }
        self.is_loading_icon_index = true;
        one(Command::LoadIconIndex)
    }

    /// Marks the next batch of visible windows without a thumbnail as
    /// loading, and asks for their thumbnails.
    pub fn request_visible_window_thumbnails(&mut self) -> (r: Vec<Command>)
        ensures
            final(self)@ == thumbnails_requested(old(self)@).0,
            commands_view(r@) == thumbnails_requested(old(self)@).1,
    {
        let ghost s = self@;
        let mut ids: Vec<u64> = Vec::new();
        let n = self.results.len();
        let mut i: usize = 0;
        while i < n
            invariant_except_break
                ids@.len() < MAX_WINDOW_THUMBNAIL_REQUESTS_PER_BATCH,
                thumbnail_batch(s.results, s.visible_rows, s.window_thumbnails, 0, seq![])
                    == thumbnail_batch(s.results, s.visible_rows, self@.window_thumbnails, i as int, ids@),
            invariant
                n == self.results@.len(),
                i <= n,
                self@ == (PickerView { window_thumbnails: self@.window_thumbnails, ..s }),
            ensures
                thumbnail_batch(s.results, s.visible_rows, s.window_thumbnails, 0, seq![])
                    == (self@.window_thumbnails, ids@),
                self@ == (PickerView { window_thumbnails: self@.window_thumbnails, ..s }),
            decreases n - i,
        {
            let key = row_key(&self.results[i]);
            let wid = window_id_for_result(&self.results[i]);
            match wid {
                Some(w) => {
                    let visible = row_listed(&self.visible_rows, &key);
                    if visible {
                        let pos = thumbnail_position(&self.window_thumbnails, w);
                        if pos.is_none() {
                            let ghost before = self.window_thumbnails@;
                            let ghost prev_ids = ids@;
                            self.window_thumbnails.push((w, ThumbnailState::Loading));
                            ids.push(w);
                            proof {
                                assert(thumbs_view(self.window_thumbnails@) =~= thumbs_view(before).push(
                                    (w, ThumbView::Loading),
                                ));
                                assert(self@ =~= (PickerView { window_thumbnails: self@.window_thumbnails, ..s }));
                            }
                            proof {
                                assert(self@.window_thumbnails == thumbs_view(before).push((w, ThumbView::Loading)));
                                assert(ids@ == prev_ids.push(w));
                                assert(s.results[i as int] == self.results@[i as int]);
                            }
                            if ids.len() >= MAX_WINDOW_THUMBNAIL_REQUESTS_PER_BATCH {
                                proof {
                                    assert(thumbnail_batch(s.results, s.visible_rows, thumbs_view(before), i as int, prev_ids)
                                        == (self@.window_thumbnails, ids@));
                                }
                                break;
                            }
                        }
                    }
                },
                None => {},
            }
            i = i + 1;
        }
        let mut r: Vec<Command> = Vec::new();
        let m = ids.len();
        let mut k: usize = 0;
        while k < m
            invariant
                m == ids@.len(),
                k <= m,
                commands_view(r@) == load_commands(ids@.take(k as int)),
            decreases m - k,
        {
            r.push(Command::LoadThumbnail(ids[k]));
            proof {
                assert(load_commands(ids@.take(k + 1)) =~= load_commands(ids@.take(k as int)).push(
                    CommandView::LoadThumbnail(ids@[k as int]),
                ));
                assert(commands_view(r@) =~= load_commands(ids@.take(k + 1)));
            }
            k = k + 1;
        }
        proof {
            assert(ids@.take(m as int) =~= ids@);
        }
        r
    }

    /// The position of the selected result, when the selection names one.
    pub fn selected_position(&self) -> (r: Option<usize>)
        ensures
            match r {
                Some(i) => selected_of(self@) == Some(i as int),
                None => selected_of(self@) is None,
            },
    {
        match self.selected_index {
            Some(i) => if i < self.results.len() {
                Some(i)
            } else {
                None
            },
            None => None,
        }
    }

    fn activate_selected(&self, action_id: &'static str) -> (r: Vec<Command>)
        ensures
            commands_view(r@) == selected_activation(self@, action_id@),
    {
        match self.selected_position() {
            Some(i) => if self.has_registry {
                one(Command::Activate { index: i, action_id })
            } else {
                none()
            },
            None => none(),
        }
    }

    /// The id of the selected result's action whose shortcut is `shortcut`,
    /// ignoring ASCII case.
    pub fn selected_action_id_for_shortcut(&self, shortcut: char) -> (r: Option<&'static str>)
        ensures
            r == shortcut_action(self@, shortcut),
    {
        let i = match self.selected_position() {
            Some(i) => i,
            None => {
                return None;
            },
        };
        let wanted = to_ascii_lower(shortcut);
        let actions = &self.results[i].actions;
        let n = actions.len();
        let mut k: usize = 0;
        while k < n
            invariant
                n == actions@.len(),
                k <= n,
                wanted == ascii_lower(shortcut),
                i < self.results@.len(),
                selected_of(self@) == Some(i as int),
                actions@ == self.results@[i as int].actions@,
                shortcut_position(actions@, shortcut, 0) == shortcut_position(actions@, shortcut, k as int),
            decreases n - k,
        {
            if to_ascii_lower(actions[k].shortcut) == wanted {
                proof {
                    assert(self@.results[i as int] == self.results@[i as int]);
                    assert(shortcut_position(actions@, shortcut, k as int) == Some(k as int));
                }
                return Some(actions[k].id);
            }
            k = k + 1;
        }
        None
    }

    /// Handles a key while the search field has the focus.
    pub fn handle_search_key(&mut self, key: AppKey) -> (r: Vec<Command>)
        requires
            old(self).selected_result_visibility_request_id < u64::MAX,
        ensures
            final(self)@ == search_key_handled(old(self)@, key).0,
            commands_view(r@) == search_key_handled(old(self)@, key).1,
    {
        match key {
            AppKey::Down | AppKey::Tab => {
                if self.results.len() == 0 {
                    return none();
                }
                self.focus_target = FocusTarget::Results;
                if self.selected_index.is_none() {
                    self.selected_index = Some(0);
                }
                let sc = self.schedule_selected_result_scroll();
                joined(one(Command::FocusFirstResult), sc)
            },
            AppKey::Escape => one(Command::Exit),
            _ => none(),
        }
    }

    fn focus_search(&mut self) -> (r: Vec<Command>)
        ensures
            final(self)@ == search_focused(old(self)@).0,
            commands_view(r@) == search_focused(old(self)@).1,
    {
        self.focus_target = FocusTarget::Search;
        one(Command::FocusSearch)
    }

    /// Handles a key while the results have the focus.
    pub fn handle_results_key(&mut self, key: AppKey) -> (r: Vec<Command>)
        requires
            old(self).selected_result_visibility_request_id < u64::MAX,
            key == AppKey::Down ==> old(self).selected_index != Some(usize::MAX),
        ensures
            final(self)@ == results_key_handled(old(self)@, key).0,
            commands_view(r@) == results_key_handled(old(self)@, key).1,
    {
        match key {
            AppKey::Down => match self.selected_index {
                None => {
                    if self.results.len() == 0 {
                        return none();
                    }
                    self.selected_index = Some(0);
                    let sc = self.schedule_selected_result_scroll();
                    joined(one(Command::FocusFirstResult), sc)
                },
                Some(i) => {
                    if i + 1 < self.results.len() {
                        self.selected_index = Some(i + 1);
                        self.schedule_selected_result_scroll()
                    } else {
                        none()
                    }
                },
            },
            AppKey::Up => match self.selected_index {
                Some(i) => {
                    if i == 0 {
                        self.focus_search()
                    } else {
                        self.selected_index = Some(i - 1);
                        self.schedule_selected_result_scroll()
                    }
                },
                None => self.focus_search(),
            },
            AppKey::Tab | AppKey::FocusSearch => self.focus_search(),
            AppKey::Enter => self.activate_selected(DEFAULT_ACTION_ID),
            AppKey::Escape => one(Command::Exit),
            AppKey::Shortcut(c) => match self.selected_action_id_for_shortcut(c) {
                Some(a) => one(Command::ActivateSelectedAction(a)),
                None => none(),
            },
        }
    }

    fn search_finished(&mut self, request_id: u64, result: Result<Vec<SearchResult>, String>) -> (r:
        Vec<Command>)
        requires
            old(self).selected_result_visibility_request_id < u64::MAX,
        ensures
            final(self)@ == search_finished(old(self)@, request_id, result).0,
            commands_view(r@) == search_finished(old(self)@, request_id, result).1,
    {
        if request_id != self.active_search_request_id {
            return none();
        }
        match result {
            Ok(results) => {
                self.error_message = String::new();
                self.results = results;
                self.visible_rows = Vec::new();
                let nonempty = self.results.len() > 0;
                self.selected_index = if nonempty {
                    Some(0)
                } else {
                    None
                };
                proof {
                    assert(rows_view(self.visible_rows@) =~= Seq::<Seq<char>>::empty());
                }
                let icon = self.request_icon_index();
                if self.focus_target == FocusTarget::Results && nonempty {
                    let sc = self.schedule_selected_result_scroll();
                    let head = joined(one(Command::ClearRowBounds), one(Command::FocusFirstResult));
                    joined(joined(head, sc), icon)
                } else if nonempty {
                    let sc = self.schedule_selected_result_scroll();
                    joined(joined(one(Command::ClearRowBounds), sc), icon)
                } else if self.focus_target == FocusTarget::Results {
                    self.focus_target = FocusTarget::Search;
                    self.invalidate_selected_result_scroll();
                    let head = joined(one(Command::ClearRowBounds), one(Command::FocusSearch));
                    joined(head, icon)
                } else {
                    self.invalidate_selected_result_scroll();
                    joined(one(Command::ClearRowBounds), icon)
                }
            },
            Err(msg) => {
                let was_results = self.focus_target == FocusTarget::Results;
                self.error_message = msg;
                self.results = Vec::new();
                self.selected_index = None;
                self.invalidate_selected_result_scroll();
                if was_results {
                    self.focus_search()
                } else {
                    none()
                }
            },
        }
    }

    fn set_thumbnail(&mut self, window_id: u64, state: ThumbnailState)
        ensures
            final(self)@ == (PickerView {
                window_thumbnails: thumb_set(old(self)@.window_thumbnails, window_id, thumb_view(state)),
                ..old(self)@
            }),
    {
        let ghost before = self.window_thumbnails@;
        match thumbnail_position(&self.window_thumbnails, window_id) {
            Some(k) => {
                proof {
                    lemma_thumb_index(thumbs_view(before), window_id, 0);
                }
                self.window_thumbnails.set(k, (window_id, state));
                proof {
                    assert(thumbs_view(self.window_thumbnails@) =~= thumbs_view(before).update(
                        k as int,
                        (window_id, thumb_view(state)),
                    ));
                }
            },
            None => {
                self.window_thumbnails.push((window_id, state));
                proof {
                    assert(thumbs_view(self.window_thumbnails@) =~= thumbs_view(before).push(
                        (window_id, thumb_view(state)),
                    ));
                }
            },
        }
        proof {
            assert(self@ =~= (PickerView {
                window_thumbnails: thumb_set(old(self)@.window_thumbnails, window_id, thumb_view(state)),
                ..old(self)@
            }));
        }
    }

    fn thumbnail_finished(&mut self, window_id: u64, result: Result<LoadedWindowThumbnail, String>) -> (r:
        Vec<Command>)
        ensures
            final(self)@ == thumbnail_finished(old(self)@, window_id, result).0,
            commands_view(r@) == thumbnail_finished(old(self)@, window_id, result).1,
    {
        let state = match result {
            Ok(t) => if t.window_id == window_id {
                ThumbnailState::Ready(t.path)
            } else {
                ThumbnailState::Failed
            },
            Err(_) => ThumbnailState::Failed,
        };
        self.set_thumbnail(window_id, state);
        self.request_visible_window_thumbnails()
    }

    fn activation_finished(&mut self, result: Result<ActivationOutcome, String>) -> (r: Vec<Command>)
        requires
            old(self).search_request_id < u64::MAX,
        ensures
            final(self)@ == activation_finished(old(self)@, result).0,
            commands_view(r@) == activation_finished(old(self)@, result).1,
    {
        match result {
            Ok(ActivationOutcome::ClosePicker) => one(Command::Exit),
            Ok(ActivationOutcome::RefreshResults) => self.request_search(),
            Err(msg) => {
                self.error_message = msg;
                none()
            },
        }
    }

    /// Whether the picker's counters can take `event`, as `update` requires.
    pub fn can_take(&self, event: &Event) -> (r: bool)
        ensures
            r == counters_fit(self@, *event),
    {
        let down = match event {
            Event::KeyPressed(AppKey::Down) => true,
            _ => false,
        };
        let at_last = match self.selected_index {
            Some(i) => i == usize::MAX,
            None => false,
        };
        let on_results = match self.focus_target {
            FocusTarget::Results => true,
            _ => false,
        };
        self.search_request_id < u64::MAX && self.selected_result_visibility_request_id < u64::MAX
            && !(down && on_results && at_last)
    }

    /// Reacts to `event`: the picker's new state and the commands to carry
    /// out are those of `transition`.
    pub fn update(&mut self, event: Event) -> (r: Vec<Command>)
        requires
            counters_fit(old(self)@, event),
        ensures
            final(self)@ == transition(old(self)@, event).0,
            commands_view(r@) == transition(old(self)@, event).1,
    {
        match event {
            Event::QueryChanged(query) => {
                self.query = query;
                self.focus_target = FocusTarget::Search;
                self.invalidate_selected_result_scroll();
                self.request_search()
            },
            Event::ActivateSelected => self.activate_selected(DEFAULT_ACTION_ID),
            Event::ActivateSelectedAction(action_id) => self.activate_selected(action_id),
            Event::ResultActivated(index) => {
                self.selected_index = Some(index);
                self.focus_target = FocusTarget::Results;
                self.activate_selected(DEFAULT_ACTION_ID)
            },
            Event::RowsVisible(rows) => {
                self.visible_rows = rows;
                self.request_visible_window_thumbnails()
            },
            Event::EnsureSelectedResultVisible(request_id) => {
                if self.selected_position().is_some() {
                    one(Command::MeasureSelected(request_id))
                } else {
                    none()
                }
            },
            Event::SelectedResultVisibilityMeasured { request_id, visible_rows } => {
                if request_id != self.selected_result_visibility_request_id {
                    return none();
                }
                self.visible_rows = visible_rows;
                let c = self.request_visible_window_thumbnails();
                joined(one(Command::ApplyMeasuredLayout), c)
            },
            Event::KeyPressed(key) => match self.focus_target {
                FocusTarget::Search => self.handle_search_key(key),
                FocusTarget::Results => self.handle_results_key(key),
            },
            Event::RendererReported(backend) => {
                self.renderer_warning = match tiny_skia_warning(backend.as_str()) {
                    Some(w) => String::from_str(w),
                    None => String::new(),
                };
                none()
            },
            Event::StartupFinished => {
                self.is_starting_up = false;
                self.has_registry = true;
                self.request_search()
            },
            Event::IconIndexFinished => {
                self.is_loading_icon_index = false;
                self.has_icon_index = true;
                none()
            },
            Event::SearchFinished { request_id, result } => self.search_finished(request_id, result),
            Event::WindowThumbnailFinished { window_id, result } => self.thumbnail_finished(
                window_id,
                result,
            ),
            Event::ActivationFinished(result) => self.activation_finished(result),
        }
    }
}

// ---------------------------------------------------------------------------
// Laws
// ---------------------------------------------------------------------------

/// A search reply that does not answer the latest request changes nothing.
pub proof fn lemma_stale_reply_ignored(
    s: PickerView,
    request_id: u64,
    result: Result<Vec<SearchResult>, String>,
)
    requires
        request_id != s.active_search_request_id,
    ensures
        transition(s, Event::SearchFinished { request_id, result }) == (s, Seq::<CommandView>::empty()),
{
}

/// A reply to the latest request replaces the results, clears the error,
/// and selects the first result when there is one.
pub proof fn lemma_answered_reply_selects_first(s: PickerView, results: Vec<SearchResult>)
    ensures
        ({
            let t = transition(
                s,
                Event::SearchFinished { request_id: s.active_search_request_id, result: Ok(results) },
            ).0;
            &&& t.results == results@
            &&& t.error_message.len() == 0
            &&& t.selected_index == if results@.len() > 0 {
                Some(0usize)
            } else {
                None
            }
            &&& selected_of(t) == if results@.len() > 0 {
                Some(0int)
            } else {
                None
            }
        }),
{
}

/// Search request ids never go back, the awaited reply is always one that
/// was asked for, and every search that an event starts carries a new id,
/// which becomes the awaited one.
pub proof fn lemma_request_ids(s: PickerView, e: Event)
    requires
        counters_fit(s, e),
        s.active_search_request_id <= s.search_request_id,
    ensures
        ({
            let (t, c) = transition(s, e);
            &&& t.search_request_id >= s.search_request_id
            &&& t.active_search_request_id <= t.search_request_id
            &&& forall|i: int|
                0 <= i < c.len() ==> (#[trigger] c[i] matches CommandView::Search { request_id, .. }
                    ==> request_id == t.active_search_request_id && request_id
                    > s.search_request_id)
        }),
{
}

/// The selection names a result: when a result is selected, its position is
/// within the results.
pub open spec fn selection_in_range(s: PickerView) -> bool {
    s.selected_index matches Some(i) ==> i < s.results.len()
}

/// Every event keeps the selection within the results, except a click on a
/// row that is not there.
pub proof fn lemma_selection_stays_in_range(s: PickerView, e: Event)
    requires
        selection_in_range(s),
        !(e matches Event::ResultActivated(i) && i >= s.results.len()),
    ensures
        selection_in_range(transition(s, e).0),
{
}

/// The result that the windows module makes for a window names that window.
pub proof fn lemma_window_result_names_window(
    r: SearchResult,
    w: crate::modules::niri_windows::NiriWindow,
    wss: Seq<crate::modules::niri_windows::NiriWorkspace>,
    index: Seq<(String, String)>,
    score: int,
)
    requires
        crate::modules::niri_windows::describes_window(r, w, wss, index, score),
    ensures
        result_window_id(r) == Some(w.id),
{
    crate::modules::niri_windows::lemma_window_target_roundtrip(w.id, w.pid);
    crate::text::lemma_decimal_reads_back(w.id as nat, u64::MAX as nat);
}

} // verus!
