//! The windows of the niri compositor: searching them by title, application,
//! workspace and output, focusing them, closing them, and signalling their
//! processes.

use vstd::prelude::*;
use crate::fuzzy::{
    absent_from, field_views, holds_every_term, lemma_one_field_holding_every_term_scores,
    lemma_score_from_one_field, only_in_field, query_terms, score_fields_outcome, term_outcome,
    term_score_sum, try_score_fields, TermMatch,
};
use crate::module::{
    ActivationOutcome, DEFAULT_ACTION_ID, MatchKind, Module, ModuleError, ResultAction,
    ResultOrder, SearchResult, closes_picker, closes_picker_of, sort_results,
    sorted_results,
};
use crate::text::{
    chars_of, concat, copy_range, decimal, decimal_string, find_char, index_of,
    lemma_decimal_reads_back, lemma_index_of, lemma_index_of_first, parse_decimal, parse_unsigned,
    str_equal, string_from_chars, trim, trimmed,
};

verus! {

broadcast use vstd::string::group_string_axioms;

pub const MODULE_KEY: &'static str = "niri-windows";

pub const CLOSE_ACTION_ID: &'static str = "close";

pub const TERMINATE_ACTION_ID: &'static str = "terminate";

pub const KILL_ACTION_ID: &'static str = "kill";

/// How long a closed window is waited for before it is focused again.
pub const CLOSE_POLL_TIMEOUT_MS: u64 = 750;

/// How long to wait between two checks whether a closed window is gone.
pub const CLOSE_POLL_INTERVAL_MS: u64 = 50;

/// The label of the output of a window whose workspace is not known.
pub const UNKNOWN_OUTPUT: &'static str = "unknown output";

/// The error when the fuzzy score of a window leaves the `i64` range.
pub const SCORE_RANGE_MESSAGE: &'static str = "fuzzy score out of range";

/// A window as niri reports it.
#[derive(Clone, Debug, Eq, PartialEq)]
pub struct NiriWindow {
    pub id: u64,
    pub title: String,
    pub app_id: String,
    pub pid: Option<u32>,
    pub workspace_id: u64,
}

/// A workspace as niri reports it.
#[derive(Clone, Debug, Eq, PartialEq)]
pub struct NiriWorkspace {
    pub id: u64,
    pub idx: u64,
    pub name: Option<String>,
    pub output: String,
}

/// What the module asks of the compositor and of the operating system.
pub trait WindowsBackend: Send {
    /// Asked for the windows, the backend may answer `answer`.
    closed spec fn lists_windows(&self, answer: Result<Seq<NiriWindow>, ModuleError>) -> bool {
        true
    }

    /// Asked for the workspaces, the backend may answer `answer`.
    closed spec fn lists_workspaces(&self, answer: Result<Seq<NiriWorkspace>, ModuleError>) -> bool {
        true
    }

    /// Asked to focus window `window_id`, the backend may answer `answer`.
    closed spec fn focuses(&self, window_id: Seq<char>, answer: Result<(), ModuleError>) -> bool {
        true
    }

    /// Asked to close window `window_id`, the backend may answer `answer`.
    closed spec fn closes(&self, window_id: Seq<char>, answer: Result<(), ModuleError>) -> bool {
        true
    }

    /// Asked to send `signal` to process `pid`, the backend may answer `answer`.
    closed spec fn signals(&self, pid: u32, signal: Seq<char>, answer: Result<(), ModuleError>) -> bool {
        true
    }

    /// Asked whether window `window_id` exists, the backend may answer `answer`.
    closed spec fn finds(&self, window_id: Seq<char>, answer: Result<bool, ModuleError>) -> bool {
        true
    }

    fn load_windows(&self) -> (r: Result<Vec<NiriWindow>, ModuleError>)
        ensures
            self.lists_windows(vec_result(r)),
    ;

    fn load_workspaces(&self) -> (r: Result<Vec<NiriWorkspace>, ModuleError>)
        ensures
            self.lists_workspaces(vec_result(r)),
    ;

    fn focus_window(&self, window_id: &str) -> (r: Result<(), ModuleError>)
        ensures
            self.focuses(window_id@, r),
    ;

    fn close_window(&self, window_id: &str) -> (r: Result<(), ModuleError>)
        ensures
            self.closes(window_id@, r),
    ;

    fn signal_window_process(&self, pid: u32, signal: &str) -> (r: Result<(), ModuleError>)
        ensures
            self.signals(pid, signal@, r),
    ;

    fn window_exists(&self, window_id: &str) -> (r: Result<bool, ModuleError>)
        ensures
            self.finds(window_id@, r),
    ;

    /// Asked to pause for `millis` milliseconds, the backend did.
    closed spec fn pauses(&self, millis: u64) -> bool {
        true
    }

    fn sleep(&self, millis: u64)
        ensures
            self.pauses(millis),
    ;
}

/// A list, or the error, as values.
pub open spec fn vec_result<T>(r: Result<Vec<T>, ModuleError>) -> Result<Seq<T>, ModuleError> {
    match r {
        Ok(v) => Ok(v@),
        Err(e) => Err(e),
    }
}

/// No desktop entry id occurs twice in the icon index.
pub open spec fn distinct_keys(index: Seq<(String, String)>) -> bool {
    forall|i: int, j: int| 0 <= i < j < index.len() ==> index[i].0@ != index[j].0@
}

/// The windows module: the icon of each desktop entry by entry id, and the
/// backend that reaches niri.
pub struct NiriWindowsModule<B: WindowsBackend> {
    icon_index: Vec<(String, String)>,
    backend: B,
}

// ---------------------------------------------------------------------------
// What a search returns
// ---------------------------------------------------------------------------

/// An optional string as optional text.
pub open spec fn opt_text(o: Option<String>) -> Option<Seq<char>> {
    match o {
        Some(s) => Some(s@),
        None => None,
    }
}

/// The position of the last workspace among the first `n` with the given id
/// (a later report of an id replaces an earlier one).
pub open spec fn last_workspace(wss: Seq<NiriWorkspace>, id: u64, n: int) -> Option<int>
    decreases n,
{
    if n <= 0 {
        None
    } else if wss[n - 1].id == id {
        Some(n - 1)
    } else {
        last_workspace(wss, id, n - 1)
    }
}

proof fn lemma_last_workspace(wss: Seq<NiriWorkspace>, id: u64, n: int)
    requires
        n <= wss.len(),
    ensures
        last_workspace(wss, id, n) matches Some(j) ==> 0 <= j < n && wss[j].id == id,
    decreases n,
{
    if n > 0 {
        lemma_last_workspace(wss, id, n - 1);
    }
}

/// The workspace that a window is on, if niri reported it.
pub open spec fn window_workspace(w: NiriWindow, wss: Seq<NiriWorkspace>) -> Option<NiriWorkspace> {
    match last_workspace(wss, w.workspace_id, wss.len() as int) {
        Some(j) => Some(wss[j]),
        None => None,
    }
}

/// The workspace's name, else its index, else the window's workspace id.
pub open spec fn workspace_label(w: NiriWindow, wss: Seq<NiriWorkspace>) -> Seq<char> {
    match window_workspace(w, wss) {
        Some(ws) => match ws.name {
            Some(name) => name@,
            None => decimal(ws.idx as nat),
        },
        None => decimal(w.workspace_id as nat),
    }
}

/// The output of the window's workspace, else `unknown output`.
pub open spec fn output_name(w: NiriWindow, wss: Seq<NiriWorkspace>) -> Seq<char> {
    match window_workspace(w, wss) {
        Some(ws) => ws.output@,
        None => UNKNOWN_OUTPUT@,
    }
}

/// `{label} on {output}`, after `{app_id}` and two spaces when there is an app id.
pub open spec fn window_subtitle(app_id: Seq<char>, label: Seq<char>, output: Seq<char>) -> Seq<char> {
    if app_id.len() == 0 {
        label + " on "@ + output
    } else {
        app_id + "  "@ + label + " on "@ + output
    }
}

/// The fields a window is searched by, with their bonuses.
pub open spec fn window_fields(w: NiriWindow, wss: Seq<NiriWorkspace>) -> Seq<(Seq<char>, int)> {
    seq![(w.title@, 120), (w.app_id@, 70), (workspace_label(w, wss), 30), (output_name(w, wss), 20)]
}

/// How the trimmed query scores against a window.
pub open spec fn window_outcome(query: Seq<char>, w: NiriWindow, wss: Seq<NiriWorkspace>) -> Option<
    Option<int>,
> {
    score_fields_outcome(trim(query), window_fields(w, wss))
}

/// A window is found by a query whose terms all occur in its title, or all in
/// its app id (where nothing leaves the `i64` range).
pub proof fn lemma_window_found_by_title_or_app_id(query: Seq<char>, w: NiriWindow, wss: Seq<NiriWorkspace>)
    requires
        window_outcome(query, w, wss) is Some,
    ensures
        holds_every_term(trim(query), w.title@) ==> window_outcome(query, w, wss) matches Some(Some(_)),
        holds_every_term(trim(query), w.app_id@) ==> window_outcome(query, w, wss) matches Some(Some(_)),
{
    if holds_every_term(trim(query), w.title@) {
        lemma_one_field_holding_every_term_scores(trim(query), window_fields(w, wss), 0);
    }
    if holds_every_term(trim(query), w.app_id@) {
        lemma_one_field_holding_every_term_scores(trim(query), window_fields(w, wss), 1);
    }
}

/// A window whose app id alone holds the terms of the query (none of them
/// occurs in its title, workspace label or output name) scores the app id's
/// score for the query plus 70 per term, where nothing leaves the `i64`
/// range.
pub proof fn lemma_window_score_from_app_id(query: Seq<char>, w: NiriWindow, wss: Seq<NiriWorkspace>)
    requires
        window_outcome(query, w, wss) is Some,
        holds_every_term(trim(query), w.app_id@),
        absent_from(trim(query), w.title@),
        absent_from(trim(query), workspace_label(w, wss)),
        absent_from(trim(query), output_name(w, wss)),
    ensures
        window_outcome(query, w, wss) == Some(
            Some(
                term_score_sum(query_terms(trim(query)), w.app_id@, 0) + 70 * query_terms(
                    trim(query),
                ).len(),
            ),
        ),
{
    let q = trim(query);
    let fs = window_fields(w, wss);
    assert forall|j: int, i: int|
        0 <= j < query_terms(q).len() && 0 <= i < fs.len() && i != 1 implies #[trigger] term_outcome(
        query_terms(q)[j],
        fs[i].0,
    ) == Some(None::<TermMatch>) by {
        assert(term_outcome(query_terms(q)[j], w.title@) == Some(None::<TermMatch>));
        assert(term_outcome(query_terms(q)[j], workspace_label(w, wss)) == Some(None::<TermMatch>));
        assert(term_outcome(query_terms(q)[j], output_name(w, wss)) == Some(None::<TermMatch>));
    }
    lemma_score_from_one_field(q, fs, 1);
}

/// A window whose title alone holds the terms of the query (none of them
/// occurs in its app id, workspace label or output name) scores the title's
/// score for the query plus 120 per term, where nothing leaves the `i64`
/// range.
pub proof fn lemma_window_score_from_title(query: Seq<char>, w: NiriWindow, wss: Seq<NiriWorkspace>)
    requires
        window_outcome(query, w, wss) is Some,
        holds_every_term(trim(query), w.title@),
        absent_from(trim(query), w.app_id@),
        absent_from(trim(query), workspace_label(w, wss)),
        absent_from(trim(query), output_name(w, wss)),
    ensures
        window_outcome(query, w, wss) == Some(
            Some(
                term_score_sum(query_terms(trim(query)), w.title@, 0) + 120 * query_terms(
                    trim(query),
                ).len(),
            ),
        ),
{
    let q = trim(query);
    let fs = window_fields(w, wss);
    assert forall|j: int, i: int|
        0 <= j < query_terms(q).len() && 0 <= i < fs.len() && i != 0 implies #[trigger] term_outcome(
        query_terms(q)[j],
        fs[i].0,
    ) == Some(None::<TermMatch>) by {
        assert(term_outcome(query_terms(q)[j], w.app_id@) == Some(None::<TermMatch>));
        assert(term_outcome(query_terms(q)[j], workspace_label(w, wss)) == Some(None::<TermMatch>));
        assert(term_outcome(query_terms(q)[j], output_name(w, wss)) == Some(None::<TermMatch>));
    }
    lemma_score_from_one_field(q, fs, 0);
}

/// A window whose workspace label alone holds the terms of the query (none of them
/// occurs in its title, app id, output name) scores that text's score for the query plus
/// 30 per term, where nothing leaves the `i64` range.
pub proof fn lemma_window_score_from_workspace_label(query: Seq<char>, w: NiriWindow, wss: Seq<NiriWorkspace>)
    requires
        window_outcome(query, w, wss) is Some,
        holds_every_term(trim(query), workspace_label(w, wss)),
        absent_from(trim(query), w.title@),
        absent_from(trim(query), w.app_id@),
        absent_from(trim(query), output_name(w, wss)),
    ensures
        window_outcome(query, w, wss) == Some(
            Some(
                term_score_sum(query_terms(trim(query)), workspace_label(w, wss), 0) + 30 * query_terms(
                    trim(query),
                ).len(),
            ),
        ),
{
    let q = trim(query);
    let fs = window_fields(w, wss);
    assert forall|j: int, i: int|
        0 <= j < query_terms(q).len() && 0 <= i < fs.len() && i != 2 implies #[trigger] term_outcome(
        query_terms(q)[j],
        fs[i].0,
    ) == Some(None::<TermMatch>) by {
        assert(term_outcome(query_terms(q)[j], w.title@) == Some(None::<TermMatch>));
        assert(term_outcome(query_terms(q)[j], w.app_id@) == Some(None::<TermMatch>));
        assert(term_outcome(query_terms(q)[j], output_name(w, wss)) == Some(None::<TermMatch>));
    }
    lemma_score_from_one_field(q, fs, 2);
}

/// A window whose output name alone holds the terms of the query (none of them
/// occurs in its title, app id, workspace label) scores that text's score for the query plus
/// 20 per term, where nothing leaves the `i64` range.
pub proof fn lemma_window_score_from_output_name(query: Seq<char>, w: NiriWindow, wss: Seq<NiriWorkspace>)
    requires
        window_outcome(query, w, wss) is Some,
        holds_every_term(trim(query), output_name(w, wss)),
        absent_from(trim(query), w.title@),
        absent_from(trim(query), w.app_id@),
        absent_from(trim(query), workspace_label(w, wss)),
    ensures
        window_outcome(query, w, wss) == Some(
            Some(
                term_score_sum(query_terms(trim(query)), output_name(w, wss), 0) + 20 * query_terms(
                    trim(query),
                ).len(),
            ),
        ),
{
    let q = trim(query);
    let fs = window_fields(w, wss);
    assert forall|j: int, i: int|
        0 <= j < query_terms(q).len() && 0 <= i < fs.len() && i != 3 implies #[trigger] term_outcome(
        query_terms(q)[j],
        fs[i].0,
    ) == Some(None::<TermMatch>) by {
        assert(term_outcome(query_terms(q)[j], w.title@) == Some(None::<TermMatch>));
        assert(term_outcome(query_terms(q)[j], w.app_id@) == Some(None::<TermMatch>));
        assert(term_outcome(query_terms(q)[j], workspace_label(w, wss)) == Some(None::<TermMatch>));
    }
    lemma_score_from_one_field(q, fs, 3);
}

/// The item id of a window: its id, then `:` and its process id when known.
pub open spec fn window_target(id: u64, pid: Option<u32>) -> Seq<char> {
    match pid {
        Some(p) => decimal(id as nat) + ":"@ + decimal(p as nat),
        None => decimal(id as nat),
    }
}

/// The icon of the first entry of `index` at or after `from` whose key is `key`.
pub open spec fn icon_lookup(index: Seq<(String, String)>, key: Seq<char>, from: int) -> Option<
    Seq<char>,
>
    decreases index.len() - from,
{
    if from < 0 || from >= index.len() {
        None
    } else if index[from].0@ == key {
        Some(index[from].1@)
    } else {
        icon_lookup(index, key, from + 1)
    }
}

/// The icon of a window's application: looked up by the trimmed app id, then
/// by the app id with `.desktop` appended; none for an empty app id.
pub open spec fn app_icon(index: Seq<(String, String)>, app_id: Seq<char>) -> Option<Seq<char>> {
    let a = trim(app_id);
    if a.len() == 0 {
        None
    } else {
        match icon_lookup(index, a, 0) {
            Some(icon) => Some(icon),
            None => icon_lookup(index, a + ".desktop"@, 0),
        }
    }
}

/// The actions every window offers.
pub open spec fn window_actions() -> Seq<ResultAction> {
    seq![
        ResultAction { id: CLOSE_ACTION_ID, label: "close", shortcut: 'q' },
        ResultAction { id: TERMINATE_ACTION_ID, label: "terminate", shortcut: 't' },
        ResultAction { id: KILL_ACTION_ID, label: "kill", shortcut: 'k' },
    ]
}

/// `r` is the result for window `w` with score `score`.
pub open spec fn describes_window(
    r: SearchResult,
    w: NiriWindow,
    wss: Seq<NiriWorkspace>,
    index: Seq<(String, String)>,
    score: int,
) -> bool {
    &&& r.module_key@ == MODULE_KEY@
    &&& r.item_id@ == window_target(w.id, w.pid)
    &&& r.title@ == w.title@
    &&& r.subtitle@ == window_subtitle(w.app_id@, workspace_label(w, wss), output_name(w, wss))
    &&& opt_text(r.icon_name) == app_icon(index, w.app_id@)
    &&& r.kind == MatchKind::Window
    &&& r.actions@ == window_actions()
    &&& r.score as int == score
}

/// `c` holds, in the order of `windows`, the result of every window that the
/// query matches.
pub open spec fn window_candidates(
    c: Seq<SearchResult>,
    query: Seq<char>,
    windows: Seq<NiriWindow>,
    wss: Seq<NiriWorkspace>,
    index: Seq<(String, String)>,
) -> bool
    decreases windows.len(),
{
    if windows.len() == 0 {
        c.len() == 0
    } else {
        match window_outcome(query, windows.last(), wss) {
            Some(Some(s)) => c.len() > 0 && describes_window(c.last(), windows.last(), wss, index, s)
                && window_candidates(c.drop_last(), query, windows.drop_last(), wss, index),
            _ => window_candidates(c, query, windows.drop_last(), wss, index),
        }
    }
}

// ---------------------------------------------------------------------------
// Search
// ---------------------------------------------------------------------------

/// The position of the workspace that a window with workspace id `id` is on.
fn workspace_position(wss: &[NiriWorkspace], id: u64) -> (r: Option<usize>)
    ensures
        match r {
            Some(j) => last_workspace(wss@, id, wss@.len() as int) == Some(j as int),
            None => last_workspace(wss@, id, wss@.len() as int) is None,
        },
{
    let n = wss.len();
    let mut found: Option<usize> = None;
    let mut k: usize = 0;
    while k < n
        invariant
            n == wss@.len(),
            k <= n,
            match found {
                Some(j) => last_workspace(wss@, id, k as int) == Some(j as int),
                None => last_workspace(wss@, id, k as int) is None,
            },
        decreases n - k,
    {
        if wss[k].id == id {
            found = Some(k);
        }
        k = k + 1;
    }
    found
}

/// The icon of the first entry of `index` whose key is `key`.
fn lookup_icon(index: &[(String, String)], key: &str) -> (r: Option<String>)
    ensures
        opt_text(r) == icon_lookup(index@, key@, 0),
{
    let n = index.len();
    let mut k: usize = 0;
    while k < n
        invariant
            n == index@.len(),
            k <= n,
            icon_lookup(index@, key@, 0) == icon_lookup(index@, key@, k as int),
        decreases n - k,
    {
        if str_equal(index[k].0.as_str(), key) {
            return Some(index[k].1.clone());
        }
        k = k + 1;
    }
    None
}

/// The icon of an application by its app id.
pub fn icon_name_for_app_id(index: &[(String, String)], app_id: &str) -> (r: Option<String>)
    ensures
        opt_text(r) == app_icon(index@, app_id@),
{
    let chars = chars_of(app_id);
    let t = trimmed(chars.as_slice());
    if t.len() == 0 {
        return None;
    }
    let a = string_from_chars(t.as_slice());
    match lookup_icon(index, a.as_str()) {
        Some(icon) => Some(icon),
        None => {
            let desktop_id = concat(a.as_str(), ".desktop");
            lookup_icon(index, desktop_id.as_str())
        },
    }
}

/// The item id of a window.
pub fn encode_window_target(window_id: u64, pid: Option<u32>) -> (r: String)
    ensures
        r@ == window_target(window_id, pid),
{
    match pid {
        Some(p) => {
            let head = concat(decimal_string(window_id).as_str(), ":");
            concat(head.as_str(), decimal_string(p as u64).as_str())
        },
        None => decimal_string(window_id),
    }
}

fn window_actions_vec() -> (r: Vec<ResultAction>)
    ensures
        r@ == window_actions(),
{
    vec![
        ResultAction { id: CLOSE_ACTION_ID, label: "close", shortcut: 'q' },
        ResultAction { id: TERMINATE_ACTION_ID, label: "terminate", shortcut: 't' },
        ResultAction { id: KILL_ACTION_ID, label: "kill", shortcut: 'k' },
    ]
}

fn subtitle_of(app_id: &str, label: &str, output: &str) -> (r: String)
    ensures
        r@ == window_subtitle(app_id@, label@, output@),
{
    let tail = concat(concat(label, " on ").as_str(), output);
    if app_id.is_empty() {
        tail
    } else {
        concat(concat(app_id, "  ").as_str(), tail.as_str())
    }
}

/// The results for `windows`: every window that the trimmed query matches by
/// title (bonus 120), app id (70), workspace label (30) or output (20),
/// ranked by score, then by title. Fails when a score leaves the `i64` range.
pub fn window_results(
    query: &str,
    windows: &[NiriWindow],
    workspaces: &[NiriWorkspace],
    icon_index: &[(String, String)],
) -> (r: Result<Vec<SearchResult>, ModuleError>)
    ensures
        r is Err <==> exists|i: int|
            0 <= i < windows@.len() && #[trigger] window_outcome(query@, windows@[i], workspaces@)
                is None,
        r matches Err(e) ==> e.message@ == SCORE_RANGE_MESSAGE@,
        r matches Ok(v) ==> exists|c: Seq<SearchResult>|
            window_candidates(c, query@, windows@, workspaces@, icon_index@) && v@ == sorted_results(
                ResultOrder::Title,
                c,
            ),
{
    let qc = chars_of(query);
    let qt = trimmed(qc.as_slice());
    let q = string_from_chars(qt.as_slice());
    let mut out: Vec<SearchResult> = Vec::new();
    let n = windows.len();
    let mut k: usize = 0;
    while k < n
        invariant
            n == windows@.len(),
            k <= n,
            q@ == trim(query@),
            window_candidates(out@, query@, windows@.take(k as int), workspaces@, icon_index@),
            forall|i: int| 0 <= i < k ==> #[trigger] window_outcome(query@, windows@[i], workspaces@) is Some,
        decreases n - k,
    {
        let w = &windows[k];
        let wi = workspace_position(workspaces, w.workspace_id);
        proof {
            lemma_last_workspace(workspaces@, w.workspace_id, workspaces@.len() as int);
        }
        let label: String = match wi {
            Some(j) => match &workspaces[j].name {
                Some(name) => name.clone(),
                None => decimal_string(workspaces[j].idx),
            },
            None => decimal_string(w.workspace_id),
        };
        let output: String = match wi {
            Some(j) => workspaces[j].output.clone(),
            None => String::from_str(UNKNOWN_OUTPUT),
        };
        proof {
            assert(label@ == workspace_label(*w, workspaces@));
            assert(output@ == output_name(*w, workspaces@));
        }
        let fields: Vec<(&str, i64)> = vec![
            (w.title.as_str(), 120),
            (w.app_id.as_str(), 70),
            (label.as_str(), 30),
            (output.as_str(), 20),
        ];
        proof {
            assert(field_views(fields@) =~= window_fields(*w, workspaces@));
            assert(windows@.take(k + 1).drop_last() =~= windows@.take(k as int));
            assert(windows@.take(k + 1).last() == windows@[k as int]);
        }
        match try_score_fields(q.as_str(), fields.as_slice()) {
            None => {
                proof {
                    assert(window_outcome(query@, windows@[k as int], workspaces@) is None);
                }
                return Err(ModuleError::new(String::from_str(SCORE_RANGE_MESSAGE)));
            },
            Some(None) => {},
            Some(Some(score)) => {
                let subtitle = subtitle_of(w.app_id.as_str(), label.as_str(), output.as_str());
                let result = SearchResult {
                    module_key: MODULE_KEY,
                    item_id: encode_window_target(w.id, w.pid),
                    title: w.title.clone(),
                    subtitle,
                    icon_name: icon_name_for_app_id(icon_index, w.app_id.as_str()),
                    kind: MatchKind::Window,
                    actions: window_actions_vec(),
                    score,
                };
                let ghost before = out@;
                out.push(result);
                proof {
                    assert(out@.drop_last() =~= before);
                }
            },
        }
        k = k + 1;
    }
    proof {
        assert(windows@.take(n as int) =~= windows@);
    }
    Ok(sort_results(out, ResultOrder::Title))
}

// ---------------------------------------------------------------------------
// Activation
// ---------------------------------------------------------------------------

/// The error when a window has no process to signal.
pub const NO_PROCESS_MESSAGE: &'static str = "window has no process id available";

/// The window and, when known, the process that an item id names.
#[derive(Clone, Debug, Eq, PartialEq)]
pub struct WindowTarget {
    pub window_id: String,
    pub pid: Option<u32>,
}

/// What an item id names: the text before its first `:` and the process id
/// after it, or the whole item id with no process id; `None` when the text
/// after the `:` is not a `u32`.
pub open spec fn window_target_of(s: Seq<char>) -> Option<(Seq<char>, Option<u32>)> {
    match index_of(s, ':', 0) {
        Some(i) => match parse_unsigned(s.skip(i + 1), u32::MAX as nat) {
            Some(p) => Some((s.take(i), Some(p as u32))),
            None => None,
        },
        None => Some((s, None)),
    }
}

/// An item id that the module made names the window and process it was made from.
pub proof fn lemma_window_target_roundtrip(id: u64, pid: Option<u32>)
    ensures
        window_target_of(window_target(id, pid)) == Some((decimal(id as nat), pid)),
{
    reveal_strlit(":");
    let d = decimal(id as nat);
    lemma_decimal_reads_back(id as nat, id as nat);
    assert forall|k: int| 0 <= k < d.len() implies d[k] != ':' by {
        assert(crate::text::is_digit(d[k]));
    }
    match pid {
        Some(p) => {
            let s = window_target(id, pid);
            let e = decimal(p as nat);
            lemma_decimal_reads_back(p as nat, u32::MAX as nat);
            assert(s[d.len() as int] == ':');
            assert forall|k: int| 0 <= k < d.len() implies s[k] != ':' by {
                assert(s[k] == d[k]);
            }
            lemma_index_of_first(s, ':', 0, d.len() as int);
            assert(s.skip(d.len() as int + 1) =~= e);
            assert(s.take(d.len() as int) =~= d);
        },
        None => {
            lemma_index_of(d, ':', 0);
        },
    }
}

/// Reads an item id back into a window id and an optional process id.
pub fn parse_window_target(item_id: &str) -> (r: Result<WindowTarget, ModuleError>)
    ensures
        match window_target_of(item_id@) {
            Some((w, p)) => r matches Ok(t) && t.window_id@ == w && t.pid == p,
            None => r matches Err(e) && e.message@ == "invalid window pid in item id: "@
                + item_id@,
        },
{
    let s = chars_of(item_id);
    match find_char(s.as_slice(), ':') {
        Some(i) => {
            proof {
                lemma_index_of(s@, ':', 0);
            }
            let rest = copy_range(s.as_slice(), i + 1, s.len());
            proof {
                assert(rest@ =~= s@.skip(i + 1));
            }
            match parse_decimal(rest.as_slice(), 4294967295u64) {
                Some(p) => {
                    let head = copy_range(s.as_slice(), 0, i);
                    proof {
                        assert(head@ =~= s@.take(i as int));
                    }
                    Ok(WindowTarget { window_id: string_from_chars(head.as_slice()), pid: Some(p as u32) })
                },
                None => Err(ModuleError::with_detail("invalid window pid in item id: ", item_id)),
            }
        },
        None => Ok(WindowTarget { window_id: String::from_str(item_id), pid: None }),
    }
}

/// What to do after checking whether a closed window still exists.
#[derive(Clone, Copy, Debug, Eq, PartialEq, Structural)]
pub enum CloseStep {
    /// The window is gone: the results are refreshed.
    Refresh,
    /// The window is still there: wait and check again.
    Wait,
    /// The window outlived the timeout: it is focused again.
    Focus,
}

/// The step after `elapsed_ms` of waiting for a window that `exists` or not.
pub open spec fn close_step_spec(elapsed_ms: u64, exists: bool) -> CloseStep {
    if !exists {
        CloseStep::Refresh
    } else if elapsed_ms < CLOSE_POLL_TIMEOUT_MS {
        CloseStep::Wait
    } else {
        CloseStep::Focus
    }
}

pub fn close_step(elapsed_ms: u64, exists: bool) -> (r: CloseStep)
    ensures
        r == close_step_spec(elapsed_ms, exists),
{
    if !exists {
        CloseStep::Refresh
    } else if elapsed_ms < CLOSE_POLL_TIMEOUT_MS {
        CloseStep::Wait
    } else {
        CloseStep::Focus
    }
}

/// Whether a window with id `window_id` (in decimal) is among `windows`.
pub fn window_listed(windows: &[NiriWindow], window_id: &str) -> (r: bool)
    ensures
        r == exists|i: int|
            0 <= i < windows@.len() && decimal(#[trigger] windows@[i].id as nat) == window_id@,
{
    let n = windows.len();
    let mut k: usize = 0;
    while k < n
        invariant
            n == windows@.len(),
            k <= n,
            forall|i: int| 0 <= i < k ==> decimal(#[trigger] windows@[i].id as nat) != window_id@,
        decreases n - k,
    {
        let id = decimal_string(windows[k].id);
        if str_equal(id.as_str(), window_id) {
            return true;
        }
        k = k + 1;
    }
    false
}

/// What activating a window result does.
#[derive(Clone, Debug, Eq, PartialEq)]
pub enum WindowPlan {
    Focus(String),
    Close(String),
    Signal { pid: u32, signal: &'static str },
}

pub enum PlanView {
    Focus(Seq<char>),
    Close(Seq<char>),
    Signal(u32, Seq<char>),
}

pub open spec fn plan_view(p: WindowPlan) -> PlanView {
    match p {
        WindowPlan::Focus(w) => PlanView::Focus(w@),
        WindowPlan::Close(w) => PlanView::Close(w@),
        WindowPlan::Signal { pid, signal } => PlanView::Signal(pid, signal@),
    }
}

/// What activating the window result `item` with `action` does: the item id
/// must read back, then the default action focuses the window, `close`
/// closes it, and `terminate` and `kill` signal its process with `TERM` and
/// `KILL`, which needs a process id; any other action is unknown. An error
/// is given by its message.
pub open spec fn window_plan(item: Seq<char>, action: Seq<char>) -> Result<PlanView, Seq<char>> {
    match window_target_of(item) {
        None => Err("invalid window pid in item id: "@ + item),
        Some((w, pid)) => if action == DEFAULT_ACTION_ID@ {
            Ok(PlanView::Focus(w))
        } else if action == CLOSE_ACTION_ID@ {
            Ok(PlanView::Close(w))
        } else if action == TERMINATE_ACTION_ID@ || action == KILL_ACTION_ID@ {
            match pid {
                Some(p) => Ok(
                    PlanView::Signal(
                        p,
                        if action == TERMINATE_ACTION_ID@ {
                            "TERM"@
                        } else {
                            "KILL"@
                        },
                    ),
                ),
                None => Err(NO_PROCESS_MESSAGE@),
            }
        } else {
            Err("unknown window action: "@ + action)
        },
    }
}

/// What activating the window result `item_id` with `action_id` does.
pub fn plan_window_action(item_id: &str, action_id: &str) -> (r: Result<WindowPlan, ModuleError>)
    ensures
        match window_plan(item_id@, action_id@) {
            Ok(p) => r matches Ok(q) && plan_view(q) == p,
            Err(m) => r matches Err(e) && e.message@ == m,
        },
{
    proof {
        reveal_strlit("default");
        reveal_strlit("close");
        reveal_strlit("terminate");
        reveal_strlit("kill");
        assert(DEFAULT_ACTION_ID@.len() == 7);
        assert(TERMINATE_ACTION_ID@.len() == 9);
        assert(KILL_ACTION_ID@.len() == 4);
        assert(CLOSE_ACTION_ID@.len() == 5);
    }
    let target = parse_window_target(item_id)?;
    if str_equal(action_id, DEFAULT_ACTION_ID) {
        Ok(WindowPlan::Focus(target.window_id))
    } else if str_equal(action_id, CLOSE_ACTION_ID) {
        Ok(WindowPlan::Close(target.window_id))
    } else if str_equal(action_id, TERMINATE_ACTION_ID) || str_equal(action_id, KILL_ACTION_ID) {
        let signal: &'static str = if str_equal(action_id, TERMINATE_ACTION_ID) {
            "TERM"
        } else {
            "KILL"
        };
        match target.pid {
            Some(pid) => Ok(WindowPlan::Signal { pid, signal }),
            None => Err(ModuleError::new(String::from_str(NO_PROCESS_MESSAGE))),
        }
    } else {
        Err(ModuleError::with_detail("unknown window action: ", action_id))
    }
}

impl<B: WindowsBackend> NiriWindowsModule<B> {
    /// The icon index the module was built with.
    pub closed spec fn icons(&self) -> Seq<(String, String)> {
        self.icon_index@
    }

    /// The backend the module reaches niri through.
    pub closed spec fn backend(&self) -> B {
        self.backend
    }

    pub fn with_backend(icon_index: Vec<(String, String)>, backend: B) -> (r: Self)
        requires
            distinct_keys(icon_index@),
        ensures
            r.icons() == icon_index@,
            r.backend() == backend,
    {
        NiriWindowsModule { icon_index, backend }
    }

    /// What waiting for window `window_id` to disappear may give, once
    /// `elapsed_ms` have passed: the backend is asked whether the window
    /// exists; when it is gone the results are refreshed, while it is there
    /// and the timeout has not passed the backend pauses for one interval
    /// and the wait goes on one interval later,
    /// and when it outlived the timeout it is focused again and the picker
    /// closes. An error of the backend ends the wait.
    pub open spec fn close_wait(
        &self,
        window_id: Seq<char>,
        elapsed_ms: u64,
        a: Result<ActivationOutcome, ModuleError>,
    ) -> bool
        decreases CLOSE_POLL_TIMEOUT_MS + CLOSE_POLL_INTERVAL_MS - elapsed_ms,
    {
        exists|x: Result<bool, ModuleError>|
            #![trigger self.backend().finds(window_id, x)]
            self.backend().finds(window_id, x) && self.close_check(window_id, elapsed_ms, x, a)
    }

    /// The wait after one check, whose answer was `x`.
    pub open spec fn close_check(
        &self,
        window_id: Seq<char>,
        elapsed_ms: u64,
        x: Result<bool, ModuleError>,
        a: Result<ActivationOutcome, ModuleError>,
    ) -> bool
        decreases CLOSE_POLL_TIMEOUT_MS + CLOSE_POLL_INTERVAL_MS - elapsed_ms, 0int,
    {
        match x {
            Err(e) => a == Err::<ActivationOutcome, ModuleError>(e),
            Ok(present) => match close_step_spec(elapsed_ms, present) {
                CloseStep::Refresh => a == Ok::<ActivationOutcome, ModuleError>(
                    ActivationOutcome::RefreshResults,
                ),
                CloseStep::Focus => exists|f: Result<(), ModuleError>|
                    #![trigger self.backend().focuses(window_id, f)]
                    self.backend().focuses(window_id, f) && a == closes_picker(f),
                CloseStep::Wait => if elapsed_ms < CLOSE_POLL_TIMEOUT_MS {
                    self.backend().pauses(CLOSE_POLL_INTERVAL_MS) && self.close_wait(
                        window_id,
                        (elapsed_ms + CLOSE_POLL_INTERVAL_MS) as u64,
                        a,
                    )
                } else {
                    false
                },
            },
        }
    }

    /// What carrying out `plan` may give: an error plan is its error; else
    /// the backend is asked to focus the window, to send the signal to its
    /// process, or to close it and then `close_wait` follows; the backend's
    /// error is the error, else the picker closes.
    pub open spec fn plan_answer(
        &self,
        plan: Result<PlanView, Seq<char>>,
        answer: Result<ActivationOutcome, ModuleError>,
    ) -> bool {
        match plan {
            Err(m) => answer matches Err(e) && e.message@ == m,
            Ok(p) => match p {
                PlanView::Focus(w) => self.focus_answer(w, answer),
                PlanView::Signal(pid, signal) => self.signal_answer(pid, signal, answer),
                PlanView::Close(w) => self.close_answer(w, answer),
            },
        }
    }

    /// Asked to focus window `w`, the backend answered something that gives
    /// `answer`: its error, else the picker closes.
    pub open spec fn focus_answer(&self, w: Seq<char>, answer: Result<ActivationOutcome, ModuleError>) -> bool {
        exists|f: Result<(), ModuleError>|
            #![trigger self.backend().focuses(w, f)]
            self.backend().focuses(w, f) && answer == closes_picker(f)
    }

    /// Asked to send `signal` to process `pid`, the backend answered
    /// something that gives `answer`: its error, else the picker closes.
    pub open spec fn signal_answer(
        &self,
        pid: u32,
        signal: Seq<char>,
        answer: Result<ActivationOutcome, ModuleError>,
    ) -> bool {
        exists|f: Result<(), ModuleError>|
            #![trigger self.backend().signals(pid, signal, f)]
            self.backend().signals(pid, signal, f) && answer == closes_picker(f)
    }

    /// Asked to close window `w`, the backend answered its error, which is
    /// `answer`, or success, after which waiting for the window gives
    /// `answer`.
    pub open spec fn close_answer(&self, w: Seq<char>, answer: Result<ActivationOutcome, ModuleError>) -> bool {
        exists|f: Result<(), ModuleError>|
            #![trigger self.backend().closes(w, f)]
            self.backend().closes(w, f) && match f {
                Err(e) => answer == Err::<ActivationOutcome, ModuleError>(e),
                Ok(()) => self.close_wait(w, 0, answer),
            }
    }

    /// Carries out `plan`: asks the backend to focus the window, to send the
    /// signal to its process, or to close it and wait for it to go.
    fn carry_out(&self, plan: WindowPlan) -> (r: Result<ActivationOutcome, ModuleError>)
        ensures
            self.plan_answer(Ok(plan_view(plan)), r),
    {
        match plan {
            WindowPlan::Focus(window_id) => {
                let f = self.backend.focus_window(window_id.as_str());
                let r = closes_picker_of(f);
                proof {
                    assert(self.backend().focuses(window_id@, f));
                    assert(self.focus_answer(window_id@, r));
                }
                r
            },
            WindowPlan::Close(window_id) => {
                let f = self.backend.close_window(window_id.as_str());
                proof {
                    assert(self.backend().closes(window_id@, f));
                }
                match f {
                    Err(e) => Err(e),
                    Ok(()) => self.wait_for_close_or_focus(window_id.as_str()),
                }
            },
            WindowPlan::Signal { pid, signal } => {
                let f = self.backend.signal_window_process(pid, signal);
                proof {
                    assert(self.backend().signals(pid, signal@, f));
                }
                closes_picker_of(f)
            },
        }
    }

    /// Waits for a closed window to disappear: checks every interval until
    /// the timeout, refreshes the results once it is gone, and focuses it
    /// again when it outlives the timeout.
    fn wait_for_close_or_focus(&self, window_id: &str) -> (r: Result<ActivationOutcome, ModuleError>)
        ensures
            self.close_wait(window_id@, 0, r),
    {
        let mut elapsed: u64 = 0;
        loop
            invariant
                elapsed < CLOSE_POLL_TIMEOUT_MS + CLOSE_POLL_INTERVAL_MS,
                forall|a: Result<ActivationOutcome, ModuleError>|
                    #[trigger] self.close_wait(window_id@, elapsed, a) ==> self.close_wait(
                        window_id@,
                        0,
                        a,
                    ),
            decreases CLOSE_POLL_TIMEOUT_MS + CLOSE_POLL_INTERVAL_MS - elapsed,
        {
            let found = self.backend.window_exists(window_id);
            proof {
                assert(self.backend().finds(window_id@, found));
            }
            let exists = match found {
                Ok(b) => b,
                Err(e) => {
                    proof {
                        assert(self.close_wait(window_id@, elapsed, Err(e)));
                    }
                    return Err(e);
                },
            };
            match close_step(elapsed, exists) {
                CloseStep::Refresh => {
                    proof {
                        assert(self.close_wait(
                            window_id@,
                            elapsed,
                            Ok(ActivationOutcome::RefreshResults),
                        ));
                    }
                    return Ok(ActivationOutcome::RefreshResults);
                },
                CloseStep::Wait => {
                    self.backend.sleep(CLOSE_POLL_INTERVAL_MS);
                    let next = elapsed + CLOSE_POLL_INTERVAL_MS;
                    proof {
                        assert(self.backend().pauses(CLOSE_POLL_INTERVAL_MS));
                        assert forall|a: Result<ActivationOutcome, ModuleError>|
                            #[trigger] self.close_wait(window_id@, next, a) implies self.close_wait(
                            window_id@,
                            0,
                            a,
                        ) by {
                            assert(self.close_check(window_id@, elapsed, found, a));
                            assert(self.close_wait(window_id@, elapsed, a));
                        }
                    }
                    elapsed = next;
                },
                CloseStep::Focus => {
                    let f = self.backend.focus_window(window_id);
                    let r = closes_picker_of(f);
                    proof {
                        assert(self.backend().focuses(window_id@, f));
                        assert(self.close_check(window_id@, elapsed, found, r));
                        assert(self.close_wait(window_id@, elapsed, r));
                    }
                    return r;
                },
            }
        }
    }
}


impl<B: WindowsBackend> Module for NiriWindowsModule<B> {
    open spec fn reports_key(&self, key: Seq<char>) -> bool {
        key == MODULE_KEY@
    }

    /// The windows and workspaces that the backend lists, as `window_results`
    /// ranks them; else the backend's error, or the score error when a
    /// window's score does not fit.
    open spec fn answers_search(
        &self,
        query: Seq<char>,
        answer: Result<Seq<SearchResult>, ModuleError>,
    ) -> bool {
        match answer {
            Ok(v) => exists|ws: Seq<NiriWindow>, wss: Seq<NiriWorkspace>, c: Seq<SearchResult>|
                #![trigger window_candidates(c, query, ws, wss, self.icons())]
                self.backend().lists_windows(Ok(ws)) && self.backend().lists_workspaces(Ok(wss))
                    && window_candidates(c, query, ws, wss, self.icons()) && v
                    == sorted_results(ResultOrder::Title, c),
            Err(e) => self.backend().lists_windows(Err(e)) || exists|ws: Seq<NiriWindow>|
                #![trigger self.backend().lists_windows(Ok(ws))]
                self.backend().lists_windows(Ok(ws)) && (self.backend().lists_workspaces(Err(e))
                    || exists|wss: Seq<NiriWorkspace>|
                    #![trigger self.backend().lists_workspaces(Ok(wss))]
                    self.backend().lists_workspaces(Ok(wss)) && e.message@ == SCORE_RANGE_MESSAGE@
                        && exists|i: int|
                        0 <= i < ws.len() && #[trigger] window_outcome(query, ws[i], wss)
                            is None),
        }
    }

    /// As `window_plan` says: the backend is asked to focus the window, to
    /// send the signal to its process, or to close it and then
    /// `close_wait` follows; its error is the error, else the picker closes.
    open spec fn answers_activation(
        &self,
        item_id: Seq<char>,
        action_id: Seq<char>,
        answer: Result<ActivationOutcome, ModuleError>,
    ) -> bool {
        self.plan_answer(window_plan(item_id, action_id), answer)
    }

    fn key(&self) -> (k: &'static str) {
        MODULE_KEY
    }

    /// The windows niri reports, as `window_results` ranks them.
    fn search(&mut self, query: &str) -> (r: Result<Vec<SearchResult>, ModuleError>)
        ensures
            final(self).icons() == old(self).icons(),
    {
        let listed = self.backend.load_windows();
        let windows = match listed {
            Ok(w) => w,
            Err(e) => {
                return Err(e);
            },
        };
        let listed_workspaces = self.backend.load_workspaces();
        let workspaces = match listed_workspaces {
            Ok(w) => w,
            Err(e) => {
                proof {
                    assert(self.backend().lists_windows(Ok(windows@)));
                }
                return Err(e);
            },
        };
        let r = window_results(query, windows.as_slice(), workspaces.as_slice(), self.icon_index.as_slice());
        proof {
            assert(self.backend().lists_windows(Ok(windows@)));
            assert(self.backend().lists_workspaces(Ok(workspaces@)));
            if let Ok(v) = &r {
                let c = choose|c: Seq<SearchResult>|
                    window_candidates(c, query@, windows@, workspaces@, self.icon_index@) && v@
                        == sorted_results(ResultOrder::Title, c);
                assert(window_candidates(c, query@, windows@, workspaces@, self.icon_index@));
            }
        }
        r
    }

    /// Focuses, closes or signals the window that `item_id` names, as
    /// `window_plan` says.
    fn activate(&mut self, item_id: &str, action_id: &str) -> (r: Result<ActivationOutcome, ModuleError>)
        ensures
            final(self).icons() == old(self).icons(),
    {
        match plan_window_action(item_id, action_id) {
            Ok(plan) => self.carry_out(plan),
            Err(e) => Err(e),
        }
    }
}

} // verus!
