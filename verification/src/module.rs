//! What every search module offers, the results they return, and the
//! registry that asks all modules and ranks their results together.

use vstd::prelude::*;
use crate::text::{
    compare_bytes, concat, lemma_lex_order, lemma_lex_transitive, str_equal, text_less, utf8,
};

verus! {

/// The action that activating a result without choosing one performs.
pub const DEFAULT_ACTION_ID: &'static str = "default";

/// What the picker does after a result was activated.
#[derive(Clone, Copy, Debug, Eq, Hash, PartialEq, Structural)]
pub enum ActivationOutcome {
    ClosePicker,
    RefreshResults,
}

/// What a result stands for; results with equal scores are listed in this order.
#[derive(Clone, Copy, Debug, Eq, Hash, Ord, PartialEq, PartialOrd, Structural)]
pub enum MatchKind {
    Application,
    Notification,
    Window,
    Workspace,
}

/// A secondary action that a result offers, bound to a shortcut key.
#[derive(Clone, Copy, Debug, Eq, Hash, PartialEq)]
pub struct ResultAction {
    pub id: &'static str,
    pub label: &'static str,
    pub shortcut: char,
}

/// One entry of the result list.
#[derive(Clone, Debug, Eq, Hash, PartialEq)]
pub struct SearchResult {
    pub module_key: &'static str,
    pub item_id: String,
    pub title: String,
    pub subtitle: String,
    pub icon_name: Option<String>,
    pub kind: MatchKind,
    pub actions: Vec<ResultAction>,
    pub score: i64,
}

/// Why a search or an activation failed.
#[derive(Clone, Debug, Eq, PartialEq)]
pub struct ModuleError {
    pub message: String,
}

impl ModuleError {
    pub fn new(message: String) -> (e: Self)
        ensures
            e.message == message,
    {
        ModuleError { message }
    }

    /// An error whose message is `prefix` followed by `detail`.
    pub fn with_detail(prefix: &str, detail: &str) -> (e: Self)
        ensures
            e.message@ == prefix@ + detail@,
    {
        ModuleError { message: concat(prefix, detail) }
    }

    pub fn message(&self) -> (m: &str)
        ensures
            m@ == self.message@,
    {
        self.message.as_str()
    }
}

/// A search result list, or the error, as values.
pub open spec fn search_view(r: Result<Vec<SearchResult>, ModuleError>) -> Result<
    Seq<SearchResult>,
    ModuleError,
> {
    match r {
        Ok(v) => Ok(v@),
        Err(e) => Err(e),
    }
}

/// What an activation comes to when the backend answered `done` to its one
/// request: the picker closes, or the backend's error.
pub open spec fn closes_picker(done: Result<(), ModuleError>) -> Result<ActivationOutcome, ModuleError> {
    match done {
        Ok(()) => Ok(ActivationOutcome::ClosePicker),
        Err(e) => Err(e),
    }
}


/// The picker closes when the backend's request succeeded; else its error.
pub fn closes_picker_of(done: Result<(), ModuleError>) -> (r: Result<ActivationOutcome, ModuleError>)
    ensures
        r == closes_picker(done),
{
    match done {
        Ok(()) => Ok(ActivationOutcome::ClosePicker),
        Err(e) => Err(e),
    }
}

/// A source of search results. Implementations talk to the outside world, so
/// what they answer is theirs to describe: each method's contract records the
/// call in one of the relations below. A module that does not describe
/// itself keeps the relations open (they hold of every answer), and a caller
/// that holds a module only as `dyn Module` knows no more of them than what
/// the calls it made have recorded.
pub trait Module: Send {
    /// `key` is a key this module reports.
    closed spec fn reports_key(&self, key: Seq<char>) -> bool {
        true
    }

    /// Asked `query`, this module (in its present state) may answer `answer`.
    closed spec fn answers_search(
        &self,
        query: Seq<char>,
        answer: Result<Seq<SearchResult>, ModuleError>,
    ) -> bool {
        true
    }

    /// Asked to activate `item_id` with `action_id`, this module (in its
    /// present state) may answer `answer`.
    closed spec fn answers_activation(
        &self,
        item_id: Seq<char>,
        action_id: Seq<char>,
        answer: Result<ActivationOutcome, ModuleError>,
    ) -> bool {
        true
    }

    /// The key that identifies the module; it is expected not to change.
    fn key(&self) -> (k: &'static str)
        ensures
            self.reports_key(k@),
    ;

    fn search(&mut self, query: &str) -> (r: Result<Vec<SearchResult>, ModuleError>)
        ensures
            old(self).answers_search(query@, search_view(r)),
    ;

    fn activate(&mut self, item_id: &str, action_id: &str) -> (r: Result<
        ActivationOutcome,
        ModuleError,
    >)
        ensures
            old(self).answers_activation(item_id@, action_id@, r),
    ;
}

// ---------------------------------------------------------------------------
// Ranking
// ---------------------------------------------------------------------------

/// Which keys break ties between results of equal score.
#[derive(Clone, Copy, Debug, Eq, PartialEq, Structural)]
pub enum ResultOrder {
    /// Kind, then title.
    KindTitle,
    /// Title.
    Title,
    /// Title, then subtitle.
    TitleSubtitle,
}

pub open spec fn kind_rank(k: MatchKind) -> int {
    match k {
        MatchKind::Application => 0,
        MatchKind::Notification => 1,
        MatchKind::Window => 2,
        MatchKind::Workspace => 3,
    }
}

/// `a` is listed strictly before `b`: higher score first, then the tie-breaking keys ascending.
pub open spec fn ranks_before(order: ResultOrder, a: SearchResult, b: SearchResult) -> bool {
    ||| a.score > b.score
    ||| a.score == b.score && match order {
        ResultOrder::KindTitle => kind_rank(a.kind) < kind_rank(b.kind) || (kind_rank(a.kind)
            == kind_rank(b.kind) && text_less(a.title@, b.title@)),
        ResultOrder::Title => text_less(a.title@, b.title@),
        ResultOrder::TitleSubtitle => text_less(a.title@, b.title@) || (utf8(a.title@) == utf8(
            b.title@,
        ) && text_less(a.subtitle@, b.subtitle@)),
    }
}

/// The first position `p >= from` of `s` whose element `x` ranks before.
pub open spec fn insert_position(order: ResultOrder, s: Seq<SearchResult>, x: SearchResult, from: int) -> int
    decreases s.len() - from,
{
    if from < 0 || from >= s.len() {
        s.len() as int
    } else if ranks_before(order, x, s[from]) {
        from
    } else {
        insert_position(order, s, x, from + 1)
    }
}

/// `s` stably sorted by `order`: each element in turn is inserted after every
/// element it does not rank before.
pub open spec fn sorted_results(order: ResultOrder, s: Seq<SearchResult>) -> Seq<SearchResult>
    decreases s.len(),
{
    if s.len() == 0 {
        s
    } else {
        let r = sorted_results(order, s.drop_last());
        r.insert(insert_position(order, r, s.last(), 0), s.last())
    }
}

/// Whether no result of `s` ranks before an earlier one.
pub open spec fn is_ranked(order: ResultOrder, s: Seq<SearchResult>) -> bool {
    forall|i: int, j: int| 0 <= i < j < s.len() ==> !ranks_before(order, s[j], s[i])
}

proof fn lemma_text_less(a: Seq<char>, b: Seq<char>, c: Seq<char>)
    ensures
        !text_less(a, a),
        text_less(a, b) && text_less(b, c) ==> text_less(a, c),
        text_less(a, b) ==> utf8(a) != utf8(b),
{
    lemma_lex_order(utf8(a), utf8(a));
    if text_less(a, b) && text_less(b, c) {
        lemma_lex_transitive(utf8(a), utf8(b), utf8(c), 0);
    }
}

/// Ranking is a strict order: nothing ranks before itself, and ranking
/// before is transitive.
pub proof fn lemma_ranks_before_strict(order: ResultOrder, a: SearchResult, b: SearchResult, c: SearchResult)
    ensures
        !ranks_before(order, a, a),
        ranks_before(order, a, b) && ranks_before(order, b, c) ==> ranks_before(order, a, c),
{
    lemma_text_less(a.title@, b.title@, c.title@);
    lemma_text_less(a.subtitle@, b.subtitle@, c.subtitle@);
    lemma_text_less(b.title@, c.title@, a.title@);
}

proof fn lemma_insert_position(order: ResultOrder, s: Seq<SearchResult>, x: SearchResult, from: int)
    requires
        0 <= from <= s.len(),
    ensures
        from <= insert_position(order, s, x, from) <= s.len(),
        forall|i: int|
            from <= i < insert_position(order, s, x, from) ==> !ranks_before(order, x, #[trigger] s[i]),
        insert_position(order, s, x, from) < s.len() ==> ranks_before(
            order,
            x,
            s[insert_position(order, s, x, from)],
        ),
    decreases s.len() - from,
{
    if from < s.len() && !ranks_before(order, x, s[from]) {
        lemma_insert_position(order, s, x, from + 1);
    }
}

/// Sorting lists every result exactly once, and no result after one that it
/// ranks before.
pub proof fn lemma_sorted_results(order: ResultOrder, s: Seq<SearchResult>)
    ensures
        is_ranked(order, sorted_results(order, s)),
        sorted_results(order, s).to_multiset() == s.to_multiset(),
        sorted_results(order, s).len() == s.len(),
    decreases s.len(),
{
    if s.len() > 0 {
        let r = sorted_results(order, s.drop_last());
        lemma_sorted_results(order, s.drop_last());
        let x = s.last();
        let p = insert_position(order, r, x, 0);
        lemma_insert_position(order, r, x, 0);
        let t = r.insert(p, x);
        assert forall|i: int, j: int| 0 <= i < j < t.len() implies !ranks_before(order, #[trigger] t[j], #[trigger] t[i]) by {
            if j < p {
                assert(t[i] == r[i] && t[j] == r[j]);
            } else if j == p {
                assert(t[j] == x && t[i] == r[i]);
            } else if i < p {
                assert(t[i] == r[i] && t[j] == r[j - 1]);
            } else if i == p {
                assert(t[i] == x && t[j] == r[j - 1]);
                lemma_ranks_before_strict(order, r[j - 1], x, r[p]);
                lemma_ranks_before_strict(order, r[p], r[p], r[p]);
                if j - 1 > p {
                    assert(!ranks_before(order, r[j - 1], r[p]));
                }
            } else {
                assert(t[i] == r[i - 1] && t[j] == r[j - 1]);
            }
        }
        vstd::seq_lib::to_multiset_insert(r, p, x);
        vstd::seq_lib::to_multiset_build(s.drop_last(), x);
        assert(s.drop_last().push(x) =~= s);
    }
}

proof fn lemma_insert_position_end(order: ResultOrder, s: Seq<SearchResult>, x: SearchResult, from: int)
    requires
        0 <= from <= s.len(),
        forall|i: int| 0 <= i < s.len() ==> !ranks_before(order, x, #[trigger] s[i]),
    ensures
        insert_position(order, s, x, from) == s.len(),
    decreases s.len() - from,
{
    if from < s.len() {
        lemma_insert_position_end(order, s, x, from + 1);
    }
}

/// Results whose scores fall strictly from first to last are already sorted.
pub proof fn lemma_sorted_when_scores_fall(order: ResultOrder, s: Seq<SearchResult>)
    requires
        forall|i: int, j: int| 0 <= i < j < s.len() ==> #[trigger] s[i].score > #[trigger] s[j].score,
    ensures
        sorted_results(order, s) == s,
    decreases s.len(),
{
    if s.len() > 0 {
        let p = s.drop_last();
        assert forall|i: int, j: int| 0 <= i < j < p.len() implies #[trigger] p[i].score > #[trigger] p[j].score by {
            assert(p[i] == s[i] && p[j] == s[j]);
        }
        lemma_sorted_when_scores_fall(order, p);
        assert forall|i: int| 0 <= i < p.len() implies !ranks_before(order, s.last(), #[trigger] p[i]) by {
            assert(p[i] == s[i]);
            assert(s[i].score > s[s.len() - 1].score);
        }
        lemma_insert_position_end(order, p, s.last(), 0);
        assert(p.insert(p.len() as int, s.last()) =~= s);
    }
}

fn kind_rank_of(k: MatchKind) -> (r: u8)
    ensures
        r as int == kind_rank(k),
{
    match k {
        MatchKind::Application => 0,
        MatchKind::Notification => 1,
        MatchKind::Window => 2,
        MatchKind::Workspace => 3,
    }
}

fn compare_text(a: &String, b: &String) -> (r: i8)
    ensures
        r == -1 <==> text_less(a@, b@),
        r == 0 <==> utf8(a@) == utf8(b@),
        r == 1 <==> text_less(b@, a@),
        r == -1 || r == 0 || r == 1,
{
    compare_bytes(a.as_str().as_bytes(), b.as_str().as_bytes())
}

fn precedes(order: ResultOrder, a: &SearchResult, b: &SearchResult) -> (r: bool)
    ensures
        r == ranks_before(order, *a, *b),
{
    if a.score != b.score {
        return a.score > b.score;
    }
    match order {
        ResultOrder::KindTitle => {
            let ka = kind_rank_of(a.kind);
            let kb = kind_rank_of(b.kind);
            if ka != kb {
                ka < kb
            } else {
                compare_text(&a.title, &b.title) == -1
            }
        },
        ResultOrder::Title => compare_text(&a.title, &b.title) == -1,
        ResultOrder::TitleSubtitle => {
            let c = compare_text(&a.title, &b.title);
            if c != 0 {
                c == -1
            } else {
                compare_text(&a.subtitle, &b.subtitle) == -1
            }
        },
    }
}

/// Kinds are listed applications first, then notifications, windows and
/// workspaces.
pub proof fn lemma_kind_order()
    ensures
        kind_rank(MatchKind::Application) < kind_rank(MatchKind::Notification),
        kind_rank(MatchKind::Notification) < kind_rank(MatchKind::Window),
        kind_rank(MatchKind::Window) < kind_rank(MatchKind::Workspace),
{
}

/// Two results of equal score and kind rank by title alone under the
/// registry order: the byte-wise smaller title first, whatever else differs.
pub proof fn lemma_equal_score_and_kind_rank_by_title(a: SearchResult, b: SearchResult)
    requires
        a.score == b.score,
        a.kind == b.kind,
    ensures
        ranks_before(ResultOrder::KindTitle, a, b) <==> text_less(a.title@, b.title@),
{
}

/// Sorted results come by descending score; among equal scores, under the
/// registry order by kind (applications, notifications, windows, workspaces)
/// and then by title, under `Title` by title, and under `TitleSubtitle` by
/// title and then by subtitle; no result comes after one whose keys are
/// greater.
pub proof fn lemma_sorted_results_order(order: ResultOrder, s: Seq<SearchResult>)
    ensures
        forall|i: int, j: int|
            #![trigger sorted_results(order, s)[i], sorted_results(order, s)[j]]
            0 <= i < j < sorted_results(order, s).len() ==> {
                let a = sorted_results(order, s)[i];
                let b = sorted_results(order, s)[j];
                &&& a.score >= b.score
                &&& a.score == b.score ==> match order {
                    ResultOrder::KindTitle => kind_rank(a.kind) <= kind_rank(b.kind) && (a.kind
                        == b.kind ==> !text_less(b.title@, a.title@)),
                    ResultOrder::Title => !text_less(b.title@, a.title@),
                    ResultOrder::TitleSubtitle => !text_less(b.title@, a.title@) && (utf8(a.title@)
                        == utf8(b.title@) ==> !text_less(b.subtitle@, a.subtitle@)),
                }
            },
{
    lemma_sorted_results(order, s);
    let r = sorted_results(order, s);
    assert forall|i: int, j: int| #![trigger r[i], r[j]] 0 <= i < j < r.len() implies {
        let a = r[i];
        let b = r[j];
        &&& a.score >= b.score
        &&& a.score == b.score ==> match order {
            ResultOrder::KindTitle => kind_rank(a.kind) <= kind_rank(b.kind) && (a.kind == b.kind
                ==> !text_less(b.title@, a.title@)),
            ResultOrder::Title => !text_less(b.title@, a.title@),
            ResultOrder::TitleSubtitle => !text_less(b.title@, a.title@) && (utf8(a.title@) == utf8(
                b.title@,
            ) ==> !text_less(b.subtitle@, a.subtitle@)),
        }
    } by {
        assert(is_ranked(order, r));
        assert(!ranks_before(order, r[j], r[i]));
        if r[i].score == r[j].score && order == ResultOrder::TitleSubtitle && utf8(r[i].title@)
            == utf8(r[j].title@) {
            assert(utf8(r[j].title@) == utf8(r[i].title@));
        }
    }
}

/// Sorts results by descending score, ties broken by `order`; results that tie
/// on every key keep their relative order.
pub fn sort_results(results: Vec<SearchResult>, order: ResultOrder) -> (r: Vec<SearchResult>)
    ensures
        r@ == sorted_results(order, results@),
{
    let ghost orig = results@;
    let mut input = results;
    let mut out: Vec<SearchResult> = Vec::new();
    let n = input.len();
    let mut k: usize = 0;
    while k < n
        invariant
            n == orig.len(),
            k <= n,
            input@ == orig.skip(k as int),
            out@ == sorted_results(order, orig.take(k as int)),
        decreases n - k,
    {
        let x = input.remove(0);
        proof {
            assert(orig.take(k + 1).drop_last() =~= orig.take(k as int));
            assert(orig.take(k + 1).last() == x);
            assert(input@ =~= orig.skip(k + 1));
        }
        let mut p: usize = 0;
        while p < out.len() && !precedes(order, &x, &out[p])
            invariant
                p <= out@.len(),
                insert_position(order, out@, x, 0) == insert_position(order, out@, x, p as int),
            decreases out.len() - p,
        {
            p = p + 1;
        }
        out.insert(p, x);
        k = k + 1;
    }
    proof {
        assert(orig.take(n as int) =~= orig);
    }
    out
}

// ---------------------------------------------------------------------------
// Registry
// ---------------------------------------------------------------------------

/// All result batches joined in order.
pub open spec fn joined(batches: Seq<Seq<SearchResult>>) -> Seq<SearchResult>
    decreases batches.len(),
{
    if batches.len() == 0 {
        Seq::empty()
    } else {
        joined(batches.drop_last()) + batches.last()
    }
}

/// Each of the first `batches.len()` modules, asked `query`, answered with
/// the batch at its position.
pub open spec fn answered_with(
    modules: Seq<Box<dyn Module>>,
    query: Seq<char>,
    batches: Seq<Seq<SearchResult>>,
) -> bool {
    &&& batches.len() <= modules.len()
    &&& forall|i: int|
        0 <= i < batches.len() ==> #[trigger] modules[i].answers_search(query, Ok(batches[i]))
}

/// What searching the modules `before` (which become `after`) for `query`
/// gives: every module is asked in turn; when all answer with results, the
/// results of all of them ranked together (higher score first, then by kind,
/// then by title); else the error of the first module that fails, the modules
/// after it not asked.
pub open spec fn registry_search(
    before: Seq<Box<dyn Module>>,
    after: Seq<Box<dyn Module>>,
    query: Seq<char>,
    r: Result<Seq<SearchResult>, ModuleError>,
) -> bool {
    &&& after.len() == before.len()
    &&& match r {
        Ok(v) => exists|batches: Seq<Seq<SearchResult>>|
            #![trigger answered_with(before, query, batches)]
            batches.len() == before.len() && answered_with(before, query, batches) && v
                == sorted_results(ResultOrder::KindTitle, joined(batches)),
        Err(e) => exists|batches: Seq<Seq<SearchResult>>|
            #![trigger answered_with(before, query, batches)]
            batches.len() < before.len() && answered_with(before, query, batches)
                && before[batches.len() as int].answers_search(query, Err(e)) && forall|j: int|
                batches.len() < j < before.len() ==> after[j] == before[j],
    }
}

/// `ks` are the keys that the modules were asked for, in order, until the
/// first one equal to `key`, and `j` is the position of that module, or the
/// number of modules when none reported `key`.
pub open spec fn routed_to(
    modules: Seq<Box<dyn Module>>,
    key: Seq<char>,
    ks: Seq<Seq<char>>,
    j: int,
) -> bool {
    &&& 0 <= j <= modules.len()
    &&& ks.len() == (if j < modules.len() {
        j + 1
    } else {
        j
    })
    &&& forall|i: int| 0 <= i < ks.len() ==> #[trigger] modules[i].reports_key(ks[i])
    &&& forall|i: int| 0 <= i < j ==> ks[i] != key
    &&& j < modules.len() ==> ks[j] == key
}

/// What activating `result` with `action` among the modules `before` (which
/// become `after`) gives: the first module that reports the result's module
/// key activates the result's item with the action and its answer is the
/// answer; no other module changes. When no module reports that key, the
/// error `Unknown module: ` followed by the key, and nothing changes.
pub open spec fn registry_activation(
    before: Seq<Box<dyn Module>>,
    after: Seq<Box<dyn Module>>,
    result: SearchResult,
    action: Seq<char>,
    r: Result<ActivationOutcome, ModuleError>,
) -> bool {
    &&& after.len() == before.len()
    &&& exists|ks: Seq<Seq<char>>, j: int|
        #![trigger routed_to(before, result.module_key@, ks, j)]
        routed_to(before, result.module_key@, ks, j) && if j == before.len() {
            &&& r matches Err(e)
            &&& e.message@ == "Unknown module: "@ + result.module_key@
            &&& after == before
        } else {
            &&& before[j].answers_activation(result.item_id@, action, r)
            &&& forall|i: int| 0 <= i < before.len() && i != j ==> after[i] == before[i]
        }
}

/// The views of result batches.
pub open spec fn batch_views(batches: Seq<Vec<SearchResult>>) -> Seq<Seq<SearchResult>> {
    batches.map_values(|b: Vec<SearchResult>| b@)
}

/// Joins the batches that the modules answered, in order, and ranks all
/// results together: higher score first, then by kind, then by title.
pub fn rank_answers(batches: Vec<Vec<SearchResult>>) -> (r: Vec<SearchResult>)
    ensures
        r@ == sorted_results(ResultOrder::KindTitle, joined(batch_views(batches@))),
{
    let ghost orig = batch_views(batches@);
    let mut rest = batches;
    let mut results: Vec<SearchResult> = Vec::new();
    let n = rest.len();
    let mut k: usize = 0;
    while k < n
        invariant
            n == orig.len(),
            k <= n,
            rest@.len() == n - k,
            forall|i: int| 0 <= i < n - k ==> (#[trigger] rest@[i])@ == orig[k + i],
            results@ == joined(orig.take(k as int)),
        decreases n - k,
    {
        let mut b = rest.remove(0);
        proof {
            assert(b@ == orig[k as int]);
            assert(orig.take(k + 1).drop_last() =~= orig.take(k as int));
            assert(orig.take(k + 1).last() == orig[k as int]);
        }
        results.append(&mut b);
        k = k + 1;
    }
    proof {
        assert(orig.take(n as int) =~= orig);
    }
    sort_results(results, ResultOrder::KindTitle)
}

/// A registry search that succeeds lists exactly the results that the
/// modules answered, each once, none after a result that it ranks before.
pub proof fn lemma_search_lists_all_answers_ranked(
    before: Seq<Box<dyn Module>>,
    after: Seq<Box<dyn Module>>,
    query: Seq<char>,
    v: Seq<SearchResult>,
)
    requires
        registry_search(before, after, query, Ok(v)),
    ensures
        exists|batches: Seq<Seq<SearchResult>>|
            #![trigger answered_with(before, query, batches)]
            batches.len() == before.len() && answered_with(before, query, batches)
                && v.to_multiset() == joined(batches).to_multiset() && is_ranked(
                ResultOrder::KindTitle,
                v,
            ),
{
    let batches = choose|batches: Seq<Seq<SearchResult>>|
        #![trigger answered_with(before, query, batches)]
        batches.len() == before.len() && answered_with(before, query, batches) && v
            == sorted_results(ResultOrder::KindTitle, joined(batches));
    lemma_sorted_results(ResultOrder::KindTitle, joined(batches));
}

/// A registry without modules finds nothing, and answers every activation
/// with `Unknown module: ` followed by the result's module key.
pub proof fn lemma_empty_registry(
    after: Seq<Box<dyn Module>>,
    query: Seq<char>,
    found: Result<Seq<SearchResult>, ModuleError>,
    result: SearchResult,
    action: Seq<char>,
    activated: Result<ActivationOutcome, ModuleError>,
)
    ensures
        registry_search(Seq::empty(), after, query, found) ==> found == Ok::<
            Seq<SearchResult>,
            ModuleError,
        >(Seq::empty()),
        registry_activation(Seq::empty(), after, result, action, activated) ==> (activated matches Err(
            e,
        ) && e.message@ == "Unknown module: "@ + result.module_key@),
{
    if registry_search(Seq::empty(), after, query, found) {
        if let Ok(v) = found {
            let batches = choose|batches: Seq<Seq<SearchResult>>|
                #![trigger answered_with(Seq::<Box<dyn Module>>::empty(), query, batches)]
                batches.len() == 0 && answered_with(Seq::empty(), query, batches) && v
                    == sorted_results(ResultOrder::KindTitle, joined(batches));
            assert(joined(batches) =~= Seq::<SearchResult>::empty());
            assert(v =~= Seq::<SearchResult>::empty());
        }
    }
}

/// The modules that a picker searches, in the order given.
pub struct ModuleRegistry {
    modules: Vec<Box<dyn Module>>,
}

impl ModuleRegistry {
    /// The modules, in order.
    pub closed spec fn modules(&self) -> Seq<Box<dyn Module>> {
        self.modules@
    }

    /// How many modules there are.
    pub open spec fn count(&self) -> nat {
        self.modules().len()
    }

    pub fn new(modules: Vec<Box<dyn Module>>) -> (r: Self)
        ensures
            r.modules() == modules@,
    {
        ModuleRegistry { modules }
    }

    /// Asks every module in turn and ranks all results together: higher score
    /// first, then by kind, then by title. The first module that fails ends the
    /// search with its error.
    pub fn search(&mut self, query: &str) -> (r: Result<Vec<SearchResult>, ModuleError>)
        ensures
            registry_search(old(self).modules(), final(self).modules(), query@, search_view(r)),
            old(self).count() == 0 ==> (r matches Ok(v) && v@.len() == 0),
    {
        let ghost before = self.modules@;
        let mut answers: Vec<Vec<SearchResult>> = Vec::new();
        let n = self.modules.len();
        let mut i: usize = 0;
        while i < n
            invariant
                n == self.modules@.len(),
                n == before.len(),
                before == old(self).modules@,
                i <= n,
                answers@.len() == i,
                answered_with(before, query@, batch_views(answers@)),
                forall|j: int| i <= j < n ==> self.modules@[j] == before[j],
            decreases n - i,
        {
            let found = match self.modules[i].search(query) {
                Ok(v) => v,
                Err(e) => {
                    proof {
                        let batches = batch_views(answers@);
                        assert(answered_with(before, query@, batches));
                        assert(batches.len() == i);
                    }
                    return Err(e);
                },
            };
            proof {
                let b0 = batch_views(answers@);
                let b1 = batch_views(answers@.push(found));
                assert forall|j: int| 0 <= j < b1.len() implies #[trigger] before[j].answers_search(
                    query@,
                    Ok(b1[j]),
                ) by {
                    if j < i {
                        assert(b1[j] == b0[j]);
                    }
                }
            }
            answers.push(found);
            i = i + 1;
        }
        let ranked = rank_answers(answers);
        proof {
            let batches = batch_views(answers@);
            assert(answered_with(before, query@, batches));
            if n == 0 {
                assert(batches =~= Seq::<Seq<SearchResult>>::empty());
                assert(joined(batches) =~= Seq::<SearchResult>::empty());
            }
        }
        Ok(ranked)
    }

    /// Activates `result` with the default action.
    pub fn activate(&mut self, result: &SearchResult) -> (r: Result<ActivationOutcome, ModuleError>)
        ensures
            registry_activation(
                old(self).modules(),
                final(self).modules(),
                *result,
                DEFAULT_ACTION_ID@,
                r,
            ),
    {
        self.activate_action(result, DEFAULT_ACTION_ID)
    }

    /// Hands `result` and `action_id` to the first module whose key is the
    /// result's module key; fails when there is none.
    pub fn activate_action(&mut self, result: &SearchResult, action_id: &str) -> (r: Result<
        ActivationOutcome,
        ModuleError,
    >)
        ensures
            registry_activation(old(self).modules(), final(self).modules(), *result, action_id@, r),
    {
        let ghost before = self.modules@;
        let ghost mut ks: Seq<Seq<char>> = Seq::empty();
        let n = self.modules.len();
        let mut i: usize = 0;
        while i < n
            invariant
                n == self.modules@.len(),
                self.modules@ == before,
                before == old(self).modules@,
                i <= n,
                ks.len() == i,
                forall|j: int| 0 <= j < i ==> #[trigger] before[j].reports_key(ks[j]),
                forall|j: int| 0 <= j < i ==> ks[j] != result.module_key@,
            decreases n - i,
        {
            let key = self.modules[i].key();
            proof {
                ks = ks.push(key@);
            }
            if str_equal(key, result.module_key) {
                let r = self.modules[i].activate(result.item_id.as_str(), action_id);
                proof {
                    assert(routed_to(before, result.module_key@, ks, i as int));
                }
                return r;
            }
            i = i + 1;
        }
        proof {
            assert(routed_to(before, result.module_key@, ks, n as int));
        }
        Err(ModuleError::with_detail("Unknown module: ", result.module_key))
    }
}

} // verus!
