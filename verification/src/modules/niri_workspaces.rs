//! The workspaces of the niri compositor: searching them by name, output and
//! index, and focusing the monitor and workspace of the one chosen.

use vstd::prelude::*;
use crate::fuzzy::{
    absent_from, field_views, holds_every_term, lemma_one_field_holding_every_term_scores,
    lemma_score_from_one_field, query_terms, score_fields_outcome, term_outcome, term_score_sum,
    try_score_fields, TermMatch,
};
use crate::module::{
    ActivationOutcome, DEFAULT_ACTION_ID, MatchKind, Module, ModuleError, ResultOrder,
    SearchResult, closes_picker, closes_picker_of, search_view, sort_results, sorted_results,
};
use crate::text::{
    chars_of, compare_bytes, lemma_lex_order, lemma_lex_transitive, concat, decimal, decimal_string, parse_decimal, parse_unsigned,
    split_words, str_equal, string_from_chars, text_less, trim, trimmed, utf8,
};

verus! {

broadcast use vstd::string::group_string_axioms;

pub const MODULE_KEY: &'static str = "niri-workspaces";

/// The error when the fuzzy score of a workspace leaves the `i64` range.
pub const SCORE_RANGE_MESSAGE: &'static str = "fuzzy score out of range";

/// A workspace as niri reports it.
#[derive(Clone, Debug, Eq, PartialEq)]
pub struct NiriWorkspace {
    pub id: u64,
    pub idx: u64,
    pub name: Option<String>,
    pub output: String,
    pub is_active: bool,
    pub is_focused: bool,
}

/// What the module asks of the compositor.
pub trait WorkspaceBackend: Send {
    /// Asked for the workspaces, the backend may answer `answer`.
    closed spec fn lists(&self, answer: Result<Seq<NiriWorkspace>, ModuleError>) -> bool {
        true
    }

    /// Asked to run the niri action `action` on `target`, the backend may
    /// answer `answer`.
    closed spec fn runs(&self, action: Seq<char>, target: Seq<char>, answer: Result<(), ModuleError>) -> bool {
        true
    }

    fn load_workspaces(&self) -> (r: Result<Vec<NiriWorkspace>, ModuleError>)
        ensures
            self.lists(match r {
                Ok(v) => Ok(v@),
                Err(e) => Err(e),
            }),
    ;

    fn run_action(&self, action: &str, target: &str) -> (r: Result<(), ModuleError>)
        ensures
            self.runs(action@, target@, r),
    ;
}

/// The workspaces module.
pub struct NiriWorkspacesModule<B: WorkspaceBackend> {
    backend: B,
}

// ---------------------------------------------------------------------------
// Order of the workspaces
// ---------------------------------------------------------------------------

/// Absent names come before present ones, which are ordered by their bytes.
pub open spec fn name_less(a: Option<String>, b: Option<String>) -> bool {
    match (a, b) {
        (None, Some(_)) => true,
        (Some(x), Some(y)) => text_less(x@, y@),
        _ => false,
    }
}

pub open spec fn name_same(a: Option<String>, b: Option<String>) -> bool {
    match (a, b) {
        (None, None) => true,
        (Some(x), Some(y)) => utf8(x@) == utf8(y@),
        _ => false,
    }
}

/// `a` comes strictly before `b`: by output, then index, then name, then id.
pub open spec fn workspace_before(a: NiriWorkspace, b: NiriWorkspace) -> bool {
    ||| text_less(a.output@, b.output@)
    ||| utf8(a.output@) == utf8(b.output@) && (a.idx < b.idx || (a.idx == b.idx && (name_less(
        a.name,
        b.name,
    ) || (name_same(a.name, b.name) && a.id < b.id))))
}

/// The first position `p >= from` of `s` whose workspace `x` comes before.
pub open spec fn workspace_insert_position(s: Seq<NiriWorkspace>, x: NiriWorkspace, from: int) -> int
    decreases s.len() - from,
{
    if from < 0 || from >= s.len() {
        s.len() as int
    } else if workspace_before(x, s[from]) {
        from
    } else {
        workspace_insert_position(s, x, from + 1)
    }
}

/// `s` stably sorted by `workspace_before`.
pub open spec fn sorted_workspaces(s: Seq<NiriWorkspace>) -> Seq<NiriWorkspace>
    decreases s.len(),
{
    if s.len() == 0 {
        s
    } else {
        let r = sorted_workspaces(s.drop_last());
        r.insert(workspace_insert_position(r, s.last(), 0), s.last())
    }
}

fn compare_text(a: &String, b: &String) -> (r: i8)
    ensures
        r == -1 <==> text_less(a@, b@),
        r == 0 <==> utf8(a@) == utf8(b@),
        r == 1 <==> text_less(b@, a@),
        r == -1 || r == 0 || r == 1,
{
    compare_bytes(a.as_str().as_bytes(), b.as_str().as_bytes())
}

fn precedes(a: &NiriWorkspace, b: &NiriWorkspace) -> (r: bool)
    ensures
        r == workspace_before(*a, *b),
{
    let c = compare_text(&a.output, &b.output);
    if c != 0 {
        return c == -1;
    }
    if a.idx != b.idx {
        return a.idx < b.idx;
    }
    match (&a.name, &b.name) {
        (None, Some(_)) => true,
        (Some(_), None) => false,
        (Some(x), Some(y)) => {
            let d = compare_text(x, y);
            if d != 0 {
                d == -1
            } else {
                a.id < b.id
            }
        },
        (None, None) => a.id < b.id,
    }
}

/// Sorts workspaces by output, index, name and id, keeping ties in order.
pub fn sort_workspaces(workspaces: Vec<NiriWorkspace>) -> (r: Vec<NiriWorkspace>)
    ensures
        r@ == sorted_workspaces(workspaces@),
{
    let ghost orig = workspaces@;
    let mut input = workspaces;
    let mut out: Vec<NiriWorkspace> = Vec::new();
    let n = input.len();
    let mut k: usize = 0;
    while k < n
        invariant
            n == orig.len(),
            k <= n,
            input@ == orig.skip(k as int),
            out@ == sorted_workspaces(orig.take(k as int)),
        decreases n - k,
    {
        let x = input.remove(0);
        proof {
            assert(orig.take(k + 1).drop_last() =~= orig.take(k as int));
            assert(orig.take(k + 1).last() == x);
            assert(input@ =~= orig.skip(k + 1));
        }
        let mut p: usize = 0;
        while p < out.len() && !precedes(&x, &out[p])
            invariant
                p <= out@.len(),
                workspace_insert_position(out@, x, 0) == workspace_insert_position(out@, x, p as int),
            decreases out.len() - p,
        {
            p = p + 1;
        }
        out.insert(p, x);
        k = k + 1;
    }
    proof {
        assert(orig.take(n as int) =~= orig);
    }
    out
}

// ---------------------------------------------------------------------------
// What a search returns
// ---------------------------------------------------------------------------

/// The workspace's name without surrounding whitespace, when that is not empty.
pub open spec fn given_name(ws: NiriWorkspace) -> Option<Seq<char>> {
    match ws.name {
        Some(n) => if trim(n@).len() > 0 {
            Some(trim(n@))
        } else {
            None
        },
        None => None,
    }
}

/// `Workspace: "name"`, or `Workspace: [idx]` for a workspace without a name.
pub open spec fn workspace_title(ws: NiriWorkspace) -> Seq<char> {
    match given_name(ws) {
        Some(n) => "Workspace: \""@ + n + "\""@,
        None => "Workspace: ["@ + decimal(ws.idx as nat) + "]"@,
    }
}

/// How niri is told which workspace to focus: its name, else its index.
pub open spec fn workspace_reference(ws: NiriWorkspace) -> Seq<char> {
    match given_name(ws) {
        Some(n) => n,
        None => decimal(ws.idx as nat),
    }
}

/// The fields a workspace is searched by, with their bonuses.
pub open spec fn workspace_fields(ws: NiriWorkspace) -> Seq<(Seq<char>, int)> {
    seq![(workspace_title(ws), 100), (ws.output@, 50), (decimal(ws.idx as nat), 25)]
}

/// How the trimmed query scores against a workspace.
pub open spec fn workspace_outcome(query: Seq<char>, ws: NiriWorkspace) -> Option<Option<int>> {
    score_fields_outcome(trim(query), workspace_fields(ws))
}

/// A workspace is found by a query whose terms all occur in its title, all in
/// its output's name, or all in its index (where nothing leaves the `i64`
/// range).
pub proof fn lemma_workspace_found_by_any_text(query: Seq<char>, ws: NiriWorkspace)
    requires
        workspace_outcome(query, ws) is Some,
    ensures
        holds_every_term(trim(query), workspace_title(ws)) ==> workspace_outcome(query, ws) matches Some(
            Some(_),
        ),
        holds_every_term(trim(query), ws.output@) ==> workspace_outcome(query, ws) matches Some(
            Some(_),
        ),
        holds_every_term(trim(query), decimal(ws.idx as nat)) ==> workspace_outcome(query, ws) matches Some(
            Some(_),
        ),
{
    let q = trim(query);
    let fs = workspace_fields(ws);
    if holds_every_term(q, workspace_title(ws)) {
        lemma_one_field_holding_every_term_scores(q, fs, 0);
    }
    if holds_every_term(q, ws.output@) {
        lemma_one_field_holding_every_term_scores(q, fs, 1);
    }
    if holds_every_term(q, decimal(ws.idx as nat)) {
        lemma_one_field_holding_every_term_scores(q, fs, 2);
    }
}

/// A workspace whose title alone holds the terms of the query (none of them
/// occurs in its output name, index) scores that text's score for the query plus
/// 100 per term, where nothing leaves the `i64` range.
pub proof fn lemma_workspace_score_from_title(query: Seq<char>, ws: NiriWorkspace)
    requires
        workspace_outcome(query, ws) is Some,
        holds_every_term(trim(query), workspace_title(ws)),
        absent_from(trim(query), ws.output@),
        absent_from(trim(query), decimal(ws.idx as nat)),
    ensures
        workspace_outcome(query, ws) == Some(
            Some(
                term_score_sum(query_terms(trim(query)), workspace_title(ws), 0) + 100 * query_terms(
                    trim(query),
                ).len(),
            ),
        ),
{
    let q = trim(query);
    let fs = workspace_fields(ws);
    assert forall|j: int, i: int|
        0 <= j < query_terms(q).len() && 0 <= i < fs.len() && i != 0 implies #[trigger] term_outcome(
        query_terms(q)[j],
        fs[i].0,
    ) == Some(None::<TermMatch>) by {
        assert(term_outcome(query_terms(q)[j], ws.output@) == Some(None::<TermMatch>));
        assert(term_outcome(query_terms(q)[j], decimal(ws.idx as nat)) == Some(None::<TermMatch>));
    }
    lemma_score_from_one_field(q, fs, 0);
}

/// A workspace whose output name alone holds the terms of the query (none of them
/// occurs in its title, index) scores that text's score for the query plus
/// 50 per term, where nothing leaves the `i64` range.
pub proof fn lemma_workspace_score_from_output(query: Seq<char>, ws: NiriWorkspace)
    requires
        workspace_outcome(query, ws) is Some,
        holds_every_term(trim(query), ws.output@),
        absent_from(trim(query), workspace_title(ws)),
        absent_from(trim(query), decimal(ws.idx as nat)),
    ensures
        workspace_outcome(query, ws) == Some(
            Some(
                term_score_sum(query_terms(trim(query)), ws.output@, 0) + 50 * query_terms(
                    trim(query),
                ).len(),
            ),
        ),
{
    let q = trim(query);
    let fs = workspace_fields(ws);
    assert forall|j: int, i: int|
        0 <= j < query_terms(q).len() && 0 <= i < fs.len() && i != 1 implies #[trigger] term_outcome(
        query_terms(q)[j],
        fs[i].0,
    ) == Some(None::<TermMatch>) by {
        assert(term_outcome(query_terms(q)[j], workspace_title(ws)) == Some(None::<TermMatch>));
        assert(term_outcome(query_terms(q)[j], decimal(ws.idx as nat)) == Some(None::<TermMatch>));
    }
    lemma_score_from_one_field(q, fs, 1);
}

/// A workspace whose index alone holds the terms of the query (none of them
/// occurs in its title, output name) scores that text's score for the query plus
/// 25 per term, where nothing leaves the `i64` range.
pub proof fn lemma_workspace_score_from_index(query: Seq<char>, ws: NiriWorkspace)
    requires
        workspace_outcome(query, ws) is Some,
        holds_every_term(trim(query), decimal(ws.idx as nat)),
        absent_from(trim(query), workspace_title(ws)),
        absent_from(trim(query), ws.output@),
    ensures
        workspace_outcome(query, ws) == Some(
            Some(
                term_score_sum(query_terms(trim(query)), decimal(ws.idx as nat), 0) + 25 * query_terms(
                    trim(query),
                ).len(),
            ),
        ),
{
    let q = trim(query);
    let fs = workspace_fields(ws);
    assert forall|j: int, i: int|
        0 <= j < query_terms(q).len() && 0 <= i < fs.len() && i != 2 implies #[trigger] term_outcome(
        query_terms(q)[j],
        fs[i].0,
    ) == Some(None::<TermMatch>) by {
        assert(term_outcome(query_terms(q)[j], workspace_title(ws)) == Some(None::<TermMatch>));
        assert(term_outcome(query_terms(q)[j], ws.output@) == Some(None::<TermMatch>));
    }
    lemma_score_from_one_field(q, fs, 2);
}

/// What an empty query adds: 15 for the focused workspace, 10 for an active one.
pub open spec fn empty_query_bonus(ws: NiriWorkspace) -> int {
    if ws.is_focused {
        15
    } else if ws.is_active {
        10
    } else {
        0
    }
}

/// `r` is the result for workspace `ws` with fuzzy score `score`.
pub open spec fn describes_workspace(r: SearchResult, ws: NiriWorkspace, query: Seq<char>, score: int) -> bool {
    &&& r.module_key@ == MODULE_KEY@
    &&& r.item_id@ == decimal(ws.id as nat)
    &&& r.title@ == workspace_title(ws)
    &&& r.subtitle@ == "on "@ + ws.output@
    &&& r.icon_name is None
    &&& r.kind == MatchKind::Workspace
    &&& r.actions@.len() == 0
    &&& r.score as int == if trim(query).len() == 0 {
        score + empty_query_bonus(ws)
    } else {
        score
    }
}

/// `c` holds, in the order of `wss`, the result of every workspace that the
/// query matches.
pub open spec fn workspace_candidates(c: Seq<SearchResult>, query: Seq<char>, wss: Seq<NiriWorkspace>) -> bool
    decreases wss.len(),
{
    if wss.len() == 0 {
        c.len() == 0
    } else {
        match workspace_outcome(query, wss.last()) {
            Some(Some(s)) => c.len() > 0 && describes_workspace(c.last(), wss.last(), query, s)
                && workspace_candidates(c.drop_last(), query, wss.drop_last()),
            _ => workspace_candidates(c, query, wss.drop_last()),
        }
    }
}

/// The trimmed name of a workspace when it is not empty.
fn name_of(ws: &NiriWorkspace) -> (r: Option<String>)
    ensures
        match given_name(*ws) {
            Some(n) => r matches Some(s) && s@ == n,
            None => r is None,
        },
{
    match &ws.name {
        Some(n) => {
            let c = chars_of(n.as_str());
            let t = trimmed(c.as_slice());
            if t.len() > 0 {
                Some(string_from_chars(t.as_slice()))
            } else {
                None
            }
        },
        None => None,
    }
}

fn title_of(ws: &NiriWorkspace) -> (r: String)
    ensures
        r@ == workspace_title(*ws),
{
    match name_of(ws) {
        Some(n) => concat(concat("Workspace: \"", n.as_str()).as_str(), "\""),
        None => concat(concat("Workspace: [", decimal_string(ws.idx).as_str()).as_str(), "]"),
    }
}

/// How niri is told which workspace to focus.
pub fn reference_of(ws: &NiriWorkspace) -> (r: String)
    ensures
        r@ == workspace_reference(*ws),
{
    match name_of(ws) {
        Some(n) => n,
        None => decimal_string(ws.idx),
    }
}

fn bonus_of(ws: &NiriWorkspace) -> (r: i64)
    ensures
        r as int == empty_query_bonus(*ws),
{
    if ws.is_focused {
        15
    } else if ws.is_active {
        10
    } else {
        0
    }
}

/// The results for `workspaces`, taken in the order of output, index, name
/// and id: every workspace that the trimmed query matches by title (bonus
/// 100), output (50) or index (25), ranked by score, then title, then
/// subtitle. An empty query scores 15 for the focused workspace and 10 for
/// an active one. Fails when a score leaves the `i64` range.
pub fn workspace_results(query: &str, workspaces: Vec<NiriWorkspace>) -> (r: Result<
    Vec<SearchResult>,
    ModuleError,
>)
    ensures
        r is Err <==> exists|i: int|
            0 <= i < workspaces@.len() && #[trigger] workspace_outcome(query@, workspaces@[i])
                is None,
        r matches Err(e) ==> e.message@ == SCORE_RANGE_MESSAGE@,
        r matches Ok(v) ==> exists|c: Seq<SearchResult>|
            workspace_candidates(c, query@, sorted_workspaces(workspaces@)) && v@ == sorted_results(
                ResultOrder::TitleSubtitle,
                c,
            ),
{
    let qc = chars_of(query);
    let qt = trimmed(qc.as_slice());
    let q = string_from_chars(qt.as_slice());
    let empty_query = qt.len() == 0;
    proof {
        if empty_query {
            assert(split_words(q@) =~= Seq::<Seq<char>>::empty());
            assert(query_terms(q@).len() == 0);
        }
    }
    let sorted = sort_workspaces(workspaces);
    proof {
        lemma_sorted_workspaces_permutes(workspaces@);
    }
    let mut out: Vec<SearchResult> = Vec::new();
    let n = sorted.len();
    let mut k: usize = 0;
    while k < n
        invariant
            n == sorted@.len(),
            sorted@ == sorted_workspaces(workspaces@),
            sorted@.to_multiset() == workspaces@.to_multiset(),
            k <= n,
            q@ == trim(query@),
            empty_query == (q@.len() == 0),
            empty_query ==> query_terms(q@).len() == 0,
            workspace_candidates(out@, query@, sorted@.take(k as int)),
            forall|i: int| 0 <= i < k ==> #[trigger] workspace_outcome(query@, sorted@[i]) is Some,
        decreases n - k,
    {
        let ws = &sorted[k];
        let title = title_of(ws);
        let idx_text = decimal_string(ws.idx);
        let fields: Vec<(&str, i64)> = vec![
            (title.as_str(), 100),
            (ws.output.as_str(), 50),
            (idx_text.as_str(), 25),
        ];
        proof {
            assert(field_views(fields@) =~= workspace_fields(*ws));
            assert(sorted@.take(k + 1).drop_last() =~= sorted@.take(k as int));
            assert(sorted@.take(k + 1).last() == sorted@[k as int]);
        }
        match try_score_fields(q.as_str(), fields.as_slice()) {
            None => {
                proof {
                    assert(workspace_outcome(query@, sorted@[k as int]) is None);
                    vstd::seq_lib::to_multiset_contains(sorted@, sorted@[k as int]);
                    vstd::seq_lib::to_multiset_contains(workspaces@, sorted@[k as int]);
                    assert(sorted@.contains(sorted@[k as int]));
                    let j = choose|j: int| 0 <= j < workspaces@.len() && workspaces@[j] == sorted@[k as int];
                    assert(workspace_outcome(query@, workspaces@[j]) is None);
                }
                return Err(ModuleError::new(String::from_str(SCORE_RANGE_MESSAGE)));
            },
            Some(None) => {},
            Some(Some(score)) => {
                let total = if empty_query {
                    score + bonus_of(ws)
                } else {
                    score
                };
                let result = SearchResult {
                    module_key: MODULE_KEY,
                    item_id: decimal_string(ws.id),
                    title,
                    subtitle: concat("on ", ws.output.as_str()),
                    icon_name: None,
                    kind: MatchKind::Workspace,
                    actions: Vec::new(),
                    score: total,
                };
                let ghost before = out@;
                out.push(result);
                proof {
                    assert(out@.drop_last() =~= before);
                }
            },
        }
        k = k + 1;
    }
    proof {
        assert(sorted@.take(n as int) =~= sorted@);
        if exists|i: int|
            0 <= i < workspaces@.len() && #[trigger] workspace_outcome(query@, workspaces@[i])
                is None {
            let i = choose|i: int|
                0 <= i < workspaces@.len() && #[trigger] workspace_outcome(query@, workspaces@[i])
                    is None;
            vstd::seq_lib::to_multiset_contains(sorted@, workspaces@[i]);
            vstd::seq_lib::to_multiset_contains(workspaces@, workspaces@[i]);
            assert(workspaces@.contains(workspaces@[i]));
            let j = choose|j: int| 0 <= j < sorted@.len() && sorted@[j] == workspaces@[i];
            assert(workspace_outcome(query@, sorted@[j]) is Some);
        }
    }
    Ok(sort_results(out, ResultOrder::TitleSubtitle))
}

/// Sorting the workspaces keeps each of them, as often as it came.
pub proof fn lemma_sorted_workspaces_permutes(s: Seq<NiriWorkspace>)
    ensures
        sorted_workspaces(s).to_multiset() == s.to_multiset(),
        sorted_workspaces(s).len() == s.len(),
    decreases s.len(),
{
    broadcast use vstd::seq_lib::group_to_multiset_ensures;
    if s.len() > 0 {
        let r = sorted_workspaces(s.drop_last());
        lemma_sorted_workspaces_permutes(s.drop_last());
        let p = workspace_insert_position(r, s.last(), 0);
        lemma_workspace_insert_position_bounds(r, s.last(), 0);
        vstd::seq_lib::to_multiset_insert(r, p, s.last());
        vstd::seq_lib::to_multiset_build(s.drop_last(), s.last());
        assert(s.drop_last().push(s.last()) =~= s);
    }
}

proof fn lemma_text_order(a: Seq<char>, b: Seq<char>, c: Seq<char>)
    ensures
        !text_less(a, a),
        text_less(a, b) && text_less(b, c) ==> text_less(a, c),
        text_less(a, b) ==> utf8(a) != utf8(b),
{
    lemma_lex_order(utf8(a), utf8(a));
    if text_less(a, b) && text_less(b, c) {
        lemma_lex_transitive(utf8(a), utf8(b), utf8(c), 0);
    }
}

/// Workspace order is strict: no workspace comes before itself, and coming
/// before is transitive.
pub proof fn lemma_workspace_before_strict(a: NiriWorkspace, b: NiriWorkspace, c: NiriWorkspace)
    ensures
        !workspace_before(a, a),
        workspace_before(a, b) && workspace_before(b, c) ==> workspace_before(a, c),
{
    lemma_text_order(a.output@, b.output@, c.output@);
    lemma_text_order(b.output@, c.output@, a.output@);
    match (a.name, b.name, c.name) {
        (Some(x), Some(y), Some(z)) => {
            lemma_text_order(x@, y@, z@);
            lemma_text_order(y@, z@, x@);
        },
        (Some(x), Some(y), None) => {
            lemma_text_order(x@, y@, x@);
        },
        (Some(x), None, Some(z)) => {
            lemma_text_order(x@, z@, x@);
        },
        (None, Some(y), Some(z)) => {
            lemma_text_order(y@, z@, y@);
        },
        (Some(x), None, None) => {
            lemma_text_order(x@, x@, x@);
        },
        (None, Some(y), None) => {
            lemma_text_order(y@, y@, y@);
        },
        (None, None, Some(z)) => {
            lemma_text_order(z@, z@, z@);
        },
        (None, None, None) => {},
    }
}

proof fn lemma_workspace_insert_position(s: Seq<NiriWorkspace>, x: NiriWorkspace, from: int)
    requires
        0 <= from <= s.len(),
    ensures
        from <= workspace_insert_position(s, x, from) <= s.len(),
        forall|i: int|
            from <= i < workspace_insert_position(s, x, from) ==> !workspace_before(x, #[trigger] s[i]),
        workspace_insert_position(s, x, from) < s.len() ==> workspace_before(
            x,
            s[workspace_insert_position(s, x, from)],
        ),
    decreases s.len() - from,
{
    if from < s.len() && !workspace_before(x, s[from]) {
        lemma_workspace_insert_position(s, x, from + 1);
    }
}

/// Sorted workspaces never list one after a workspace that it comes before.
pub proof fn lemma_sorted_workspaces_ordered(s: Seq<NiriWorkspace>)
    ensures
        forall|i: int, j: int|
            0 <= i < j < sorted_workspaces(s).len() ==> !workspace_before(
                #[trigger] sorted_workspaces(s)[j],
                #[trigger] sorted_workspaces(s)[i],
            ),
    decreases s.len(),
{
    if s.len() > 0 {
        let r = sorted_workspaces(s.drop_last());
        lemma_sorted_workspaces_ordered(s.drop_last());
        let x = s.last();
        let p = workspace_insert_position(r, x, 0);
        lemma_workspace_insert_position(r, x, 0);
        let t = r.insert(p, x);
        assert forall|i: int, j: int| 0 <= i < j < t.len() implies !workspace_before(#[trigger] t[j], #[trigger] t[i]) by {
            if j < p {
                assert(t[i] == r[i] && t[j] == r[j]);
            } else if j == p {
                assert(t[j] == x && t[i] == r[i]);
            } else if i < p {
                assert(t[i] == r[i] && t[j] == r[j - 1]);
            } else if i == p {
                assert(t[i] == x && t[j] == r[j - 1]);
                lemma_workspace_before_strict(r[j - 1], x, r[p]);
                lemma_workspace_before_strict(r[p], r[p], r[p]);
                if j - 1 > p {
                    assert(!workspace_before(r[j - 1], r[p]));
                }
            } else {
                assert(t[i] == r[i - 1] && t[j] == r[j - 1]);
            }
        }
    }
}

proof fn lemma_workspace_insert_position_bounds(s: Seq<NiriWorkspace>, x: NiriWorkspace, from: int)
    requires
        0 <= from,
    ensures
        0 <= workspace_insert_position(s, x, from) <= s.len(),
    decreases s.len() - from,
{
    if from < s.len() && !workspace_before(x, s[from]) {
        lemma_workspace_insert_position_bounds(s, x, from + 1);
    }
}

// ---------------------------------------------------------------------------
// Activation
// ---------------------------------------------------------------------------

/// The position of the first workspace at or after `from` with the given id.
pub open spec fn first_workspace(wss: Seq<NiriWorkspace>, id: u64, from: int) -> Option<int>
    decreases wss.len() - from,
{
    if from < 0 || from >= wss.len() {
        None
    } else if wss[from].id == id {
        Some(from)
    } else {
        first_workspace(wss, id, from + 1)
    }
}

/// The workspace id that activating `item_id` with `action_id` names: only
/// the default action is known, and the item id must be a `u64`.
pub fn workspace_id_for(item_id: &str, action_id: &str) -> (r: Result<u64, ModuleError>)
    ensures
        action_id@ != DEFAULT_ACTION_ID@ ==> (r matches Err(e) && e.message@
            == "unknown workspace action: "@ + action_id@),
        action_id@ == DEFAULT_ACTION_ID@ ==> match parse_unsigned(item_id@, u64::MAX as nat) {
            Some(v) => r matches Ok(x) && x == v,
            None => r matches Err(e) && e.message@ == "invalid workspace id: "@ + item_id@,
        },
{
    if !str_equal(action_id, DEFAULT_ACTION_ID) {
        return Err(ModuleError::with_detail("unknown workspace action: ", action_id));
    }
    let c = chars_of(item_id);
    match parse_decimal(c.as_slice(), u64::MAX) {
        Some(v) => Ok(v),
        None => Err(ModuleError::with_detail("invalid workspace id: ", item_id)),
    }
}

/// The output to focus and the reference of the workspace to focus for the
/// first workspace with id `id`; fails when there is none.
pub fn focus_targets(id: u64, workspaces: &[NiriWorkspace]) -> (r: Result<(String, String), ModuleError>)
    ensures
        match first_workspace(workspaces@, id, 0) {
            Some(j) => r matches Ok(t) && t.0@ == workspaces@[j].output@ && t.1@
                == workspace_reference(workspaces@[j]),
            None => r matches Err(e) && e.message@ == "workspace "@ + decimal(id as nat)
                + " no longer exists"@,
        },
{
    let n = workspaces.len();
    let mut k: usize = 0;
    while k < n
        invariant
            n == workspaces@.len(),
            k <= n,
            first_workspace(workspaces@, id, 0) == first_workspace(workspaces@, id, k as int),
        decreases n - k,
    {
        if workspaces[k].id == id {
            return Ok((workspaces[k].output.clone(), reference_of(&workspaces[k])));
        }
        k = k + 1;
    }
    let head = concat("workspace ", decimal_string(id).as_str());
    Err(ModuleError::new(concat(head.as_str(), " no longer exists")))
}

impl<B: WorkspaceBackend> NiriWorkspacesModule<B> {
    /// The backend the module reaches niri through.
    pub closed spec fn backend(&self) -> B {
        self.backend
    }

    pub fn with_backend(backend: B) -> (r: Self)
        ensures
            r.backend() == backend,
    {
        NiriWorkspacesModule { backend }
    }

    /// The workspaces that the backend lists, as `workspace_results` ranks
    /// them; else the backend's error, or the score error when a
    /// workspace's score does not fit.
    pub open spec fn search_answer(
        &self,
        query: Seq<char>,
        answer: Result<Seq<SearchResult>, ModuleError>,
    ) -> bool {
        match answer {
            Ok(v) => exists|wss: Seq<NiriWorkspace>, c: Seq<SearchResult>|
                #![trigger workspace_candidates(c, query, sorted_workspaces(wss))]
                self.backend().lists(Ok(wss)) && workspace_candidates(c, query, sorted_workspaces(wss))
                    && v == sorted_results(ResultOrder::TitleSubtitle, c),
            Err(e) => self.backend().lists(Err(e)) || exists|wss: Seq<NiriWorkspace>|
                #![trigger self.backend().lists(Ok(wss))]
                self.backend().lists(Ok(wss)) && e.message@ == SCORE_RANGE_MESSAGE@ && exists|i: int|
                    0 <= i < wss.len() && #[trigger] workspace_outcome(query, wss[i]) is None,
        }
    }

    /// Only the default action is known, and `item_id` must read as a
    /// workspace id; then the workspaces are listed, and for the first with
    /// that id `focus_answer` follows; when none has it, the workspace no
    /// longer exists.
    pub open spec fn activation_answer(
        &self,
        item_id: Seq<char>,
        action_id: Seq<char>,
        answer: Result<ActivationOutcome, ModuleError>,
    ) -> bool {
        if action_id != DEFAULT_ACTION_ID@ {
            answer matches Err(e) && e.message@ == "unknown workspace action: "@ + action_id
        } else {
            match parse_unsigned(item_id, u64::MAX as nat) {
                None => answer matches Err(e) && e.message@ == "invalid workspace id: "@ + item_id,
                Some(id) => self.listed_answer(id as u64, answer),
            }
        }
    }

    /// The backend lists the workspaces (its error is the error); the first
    /// with id `id` is focused as `focus_answer` says, and when none has it,
    /// the workspace no longer exists.
    pub open spec fn listed_answer(&self, id: u64, answer: Result<ActivationOutcome, ModuleError>) -> bool {
        exists|l: Result<Seq<NiriWorkspace>, ModuleError>|
            #![trigger self.backend().lists(l)]
            self.backend().lists(l) && match l {
                Err(e) => answer == Err::<ActivationOutcome, ModuleError>(e),
                Ok(wss) => match first_workspace(wss, id, 0) {
                    None => answer matches Err(e) && e.message@ == "workspace "@ + decimal(
                        id as nat,
                    ) + " no longer exists"@,
                    Some(j) => self.focus_answer(wss[j].output@, workspace_reference(wss[j]), answer),
                },
            }
    }

    /// `focus-monitor` runs on `output`, then `focus-workspace` on
    /// `reference`; the first error is the error, else the picker closes.
    pub open spec fn focus_answer(
        &self,
        output: Seq<char>,
        reference: Seq<char>,
        answer: Result<ActivationOutcome, ModuleError>,
    ) -> bool {
        exists|m: Result<(), ModuleError>|
            #![trigger self.backend().runs("focus-monitor"@, output, m)]
            self.backend().runs("focus-monitor"@, output, m) && match m {
                Err(e) => answer == Err::<ActivationOutcome, ModuleError>(e),
                Ok(()) => self.workspace_focused(reference, answer),
            }
    }

    /// `focus-workspace` runs on `reference`: its error, else the picker closes.
    pub open spec fn workspace_focused(&self, reference: Seq<char>, answer: Result<ActivationOutcome, ModuleError>) -> bool {
        exists|w: Result<(), ModuleError>|
            #![trigger self.backend().runs("focus-workspace"@, reference, w)]
            self.backend().runs("focus-workspace"@, reference, w) && answer == closes_picker(w)
    }
}

impl<B: WorkspaceBackend> Module for NiriWorkspacesModule<B> {
    open spec fn reports_key(&self, key: Seq<char>) -> bool {
        key == MODULE_KEY@
    }

    open spec fn answers_search(
        &self,
        query: Seq<char>,
        answer: Result<Seq<SearchResult>, ModuleError>,
    ) -> bool {
        self.search_answer(query, answer)
    }

    open spec fn answers_activation(
        &self,
        item_id: Seq<char>,
        action_id: Seq<char>,
        answer: Result<ActivationOutcome, ModuleError>,
    ) -> bool {
        self.activation_answer(item_id, action_id, answer)
    }

    fn key(&self) -> (k: &'static str) {
        MODULE_KEY
    }

    /// The workspaces niri reports, as `workspace_results` ranks them.
    fn search(&mut self, query: &str) -> (r: Result<Vec<SearchResult>, ModuleError>)
        ensures
            old(self).search_answer(query@, search_view(r)),
    {
        let listed = self.backend.load_workspaces();
        let workspaces = match listed {
            Ok(v) => v,
            Err(e) => {
                return Err(e);
            },
        };
        let ghost wss = workspaces@;
        proof {
            assert(self.backend().lists(Ok(wss)));
        }
        let r = workspace_results(query, workspaces);
        proof {
            if let Ok(v) = &r {
                let c = choose|c: Seq<SearchResult>|
                    workspace_candidates(c, query@, sorted_workspaces(wss)) && v@ == sorted_results(
                        ResultOrder::TitleSubtitle,
                        c,
                    );
                assert(workspace_candidates(c, query@, sorted_workspaces(wss)));
            }
        }
        r
    }

    /// Focuses the monitor of the workspace that `item_id` names, then the
    /// workspace by its name, or by its index when it has no name.
    fn activate(&mut self, item_id: &str, action_id: &str) -> (r: Result<ActivationOutcome, ModuleError>)
        ensures
            old(self).activation_answer(item_id@, action_id@, r),
    {
        let id = match workspace_id_for(item_id, action_id) {
            Ok(id) => id,
            Err(e) => {
                return Err(e);
            },
        };
        let listed = self.backend.load_workspaces();
        proof {
            assert(self.backend().lists(match listed {
                Ok(v) => Ok(v@),
                Err(e) => Err(e),
            }));
        }
        let workspaces = match listed {
            Ok(v) => v,
            Err(e) => {
                return Err(e);
            },
        };
        let (output, reference) = match focus_targets(id, workspaces.as_slice()) {
            Ok(t) => t,
            Err(e) => {
                return Err(e);
            },
        };
        let m = self.backend.run_action("focus-monitor", output.as_str());
        proof {
            assert(self.backend().runs("focus-monitor"@, output@, m));
        }
        match m {
            Err(e) => Err(e),
            Ok(()) => {
                let w = self.backend.run_action("focus-workspace", reference.as_str());
                proof {
                    assert(self.backend().runs("focus-workspace"@, reference@, w));
                    assert(self.workspace_focused(reference@, closes_picker(w)));
                }
                closes_picker_of(w)
            },
        }
    }
}

} // verus!
