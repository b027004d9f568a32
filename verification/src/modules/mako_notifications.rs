//! The notifications that mako keeps: searching them by summary, body and
//! application, invoking them and dismissing them.

use vstd::prelude::*;
use crate::fuzzy::{
    absent_from, field_views, holds_every_term, lemma_one_field_holding_every_term_scores,
    lemma_score_from_one_field, query_terms, score_fields_outcome, term_outcome, term_score_sum,
    try_score_fields, TermMatch,
};
use crate::module::{
    ActivationOutcome, DEFAULT_ACTION_ID, MatchKind, Module, ModuleError, ResultAction,
    ResultOrder, SearchResult, search_view, sort_results, sorted_results,
};
use crate::text::{
    chars_of, concat, decimal, decimal_string, in_i64, str_equal, string_from_chars, trim,
    trimmed,
};

verus! {

broadcast use vstd::string::group_string_axioms;

pub const MODULE_KEY: &'static str = "mako-notifications";

/// What an empty query scores for the newest notification; each older one scores one less.
pub const EMPTY_QUERY_BASE_SCORE: i64 = 10_000;

pub const DISMISS_ACTION_ID: &'static str = "dismiss";

/// The error when the score of a notification leaves the `i64` range.
pub const SCORE_RANGE_MESSAGE: &'static str = "fuzzy score out of range";

/// What mako's list of notifications says of one notification: each field
/// as given, or `None` where it is missing or has another type.
#[derive(Clone, Debug, Eq, PartialEq)]
pub struct RawNotification {
    pub id: Option<u64>,
    pub summary: Option<String>,
    pub app_name: Option<String>,
    pub body: Option<String>,
    pub urgency: Option<u64>,
}

/// A notification that can be listed.
#[derive(Clone, Debug, Eq, PartialEq)]
pub struct Notification {
    pub id: u64,
    pub app_name: String,
    pub summary: String,
    pub body: String,
    pub urgency: u8,
}

/// What the module asks of mako.
pub trait MakoBackend: Send {
    /// Asked for the notifications, the backend may answer `answer`.
    closed spec fn lists(&self, answer: Result<Seq<RawNotification>, ModuleError>) -> bool {
        true
    }

    /// Asked to run `makoctl {verb} -n {id}`, the backend may answer `answer`.
    closed spec fn runs(&self, verb: Seq<char>, id: Seq<char>, answer: Result<bool, ModuleError>) -> bool {
        true
    }

    /// The notifications, oldest first.
    fn list_notifications(&self) -> (r: Result<Vec<RawNotification>, ModuleError>)
        ensures
            self.lists(match r {
                Ok(v) => Ok(v@),
                Err(e) => Err(e),
            }),
    ;

    /// Runs `makoctl {verb} -n {id}`: whether it succeeded, or an error when it could not run.
    fn makoctl(&self, verb: &str, id: &str) -> (r: Result<bool, ModuleError>)
        ensures
            self.runs(verb@, id@, r),
    ;
}

/// The notifications module.
pub struct MakoNotificationsModule<B: MakoBackend> {
    backend: B,
}

// ---------------------------------------------------------------------------
// Reading notifications
// ---------------------------------------------------------------------------

pub open spec fn text_or_empty(o: Option<String>) -> Seq<char> {
    match o {
        Some(s) => s@,
        None => seq![],
    }
}

/// A notification as plain values.
pub struct NotificationView {
    pub id: u64,
    pub app_name: Seq<char>,
    pub summary: Seq<char>,
    pub body: Seq<char>,
    pub urgency: u8,
}

pub open spec fn notification_view(n: Notification) -> NotificationView {
    NotificationView { id: n.id, app_name: n.app_name@, summary: n.summary@, body: n.body@, urgency: n.urgency }
}

/// The notification that a raw one gives: none without an id or with a blank
/// summary; missing texts are empty, and an urgency that is missing or does
/// not fit a byte is 0.
pub open spec fn listed(raw: RawNotification) -> Option<NotificationView> {
    match raw.id {
        Some(id) => {
            let summary = text_or_empty(raw.summary);
            if trim(summary).len() == 0 {
                None
            } else {
                Some(
                    NotificationView {
                        id,
                        app_name: text_or_empty(raw.app_name),
                        summary,
                        body: text_or_empty(raw.body),
                        urgency: match raw.urgency {
                            Some(u) => if u <= 255 {
                                u as u8
                            } else {
                                0
                            },
                            None => 0,
                        },
                    },
                )
            }
        },
        None => None,
    }
}

fn text_of(o: Option<String>) -> (r: String)
    ensures
        r@ == text_or_empty(o),
{
    match o {
        Some(s) => s,
        None => String::new(),
    }
}

/// The notification that a raw one gives.
pub fn notification_from(raw: RawNotification) -> (r: Option<Notification>)
    ensures
        match listed(raw) {
            Some(v) => r matches Some(n) && notification_view(n) == v,
            None => r is None,
        },
{
    let id = match raw.id {
        Some(id) => id,
        None => {
            return None;
        },
    };
    let summary = text_of(raw.summary);
    let c = chars_of(summary.as_str());
    if trimmed(c.as_slice()).len() == 0 {
        return None;
    }
    let urgency: u8 = match raw.urgency {
        Some(u) => if u <= 255 {
            u as u8
        } else {
            0
        },
        None => 0,
    };
    Some(Notification { id, app_name: text_of(raw.app_name), summary, body: text_of(raw.body), urgency })
}

/// The notifications that the raw ones give, in order.
pub open spec fn listed_all(raws: Seq<RawNotification>) -> Seq<NotificationView>
    decreases raws.len(),
{
    if raws.len() == 0 {
        seq![]
    } else {
        match listed(raws.last()) {
            Some(v) => listed_all(raws.drop_last()).push(v),
            None => listed_all(raws.drop_last()),
        }
    }
}

pub open spec fn notifications_view(ns: Seq<Notification>) -> Seq<NotificationView> {
    ns.map_values(|n: Notification| notification_view(n))
}

pub fn notifications_from(raws: Vec<RawNotification>) -> (r: Vec<Notification>)
    ensures
        notifications_view(r@) == listed_all(raws@),
{
    let ghost orig = raws@;
    let mut input = raws;
    let mut out: Vec<Notification> = Vec::new();
    let n = input.len();
    let mut k: usize = 0;
    while k < n
        invariant
            n == orig.len(),
            k <= n,
            input@ == orig.skip(k as int),
            notifications_view(out@) == listed_all(orig.take(k as int)),
        decreases n - k,
    {
        let x = input.remove(0);
        proof {
            assert(orig.take(k + 1).drop_last() =~= orig.take(k as int));
            assert(orig.take(k + 1).last() == x);
            assert(input@ =~= orig.skip(k + 1));
        }
        let ghost before = out@;
        match notification_from(x) {
            Some(v) => {
                out.push(v);
                proof {
                    assert(notifications_view(out@) =~= notifications_view(before).push(
                        notification_view(v),
                    ));
                }
            },
            None => {},
        }
        k = k + 1;
    }
    proof {
        assert(orig.take(n as int) =~= orig);
    }
    out
}

// ---------------------------------------------------------------------------
// Searching
// ---------------------------------------------------------------------------

/// The fields a notification is searched by, with their bonuses.
pub open spec fn notification_fields(n: NotificationView) -> Seq<(Seq<char>, int)> {
    seq![(n.summary, 130), (n.body, 70), (n.app_name, 40)]
}

/// A notification is found by a query whose terms all occur in its summary,
/// all in its body, or all in its app name (where nothing leaves the `i64`
/// range).
pub proof fn lemma_notification_found_by_any_text(query: Seq<char>, n: NotificationView, age: int)
    requires
        notification_outcome(query, n, age) is Some,
    ensures
        holds_every_term(trim(query), n.summary) ==> notification_outcome(query, n, age) matches Some(
            Some(_),
        ),
        holds_every_term(trim(query), n.body) ==> notification_outcome(query, n, age) matches Some(
            Some(_),
        ),
        holds_every_term(trim(query), n.app_name) ==> notification_outcome(query, n, age) matches Some(
            Some(_),
        ),
{
    let q = trim(query);
    let fs = notification_fields(n);
    if q.len() > 0 {
        if holds_every_term(q, n.summary) {
            lemma_one_field_holding_every_term_scores(q, fs, 0);
        }
        if holds_every_term(q, n.body) {
            lemma_one_field_holding_every_term_scores(q, fs, 1);
        }
        if holds_every_term(q, n.app_name) {
            lemma_one_field_holding_every_term_scores(q, fs, 2);
        }
    }
}

/// A notification whose body alone holds the terms of a non-blank query
/// (none of them occurs in its summary or app name) scores the body's score
/// for the query plus 70 per term plus its urgency, where nothing leaves the
/// `i64` range.
pub proof fn lemma_notification_score_from_body(query: Seq<char>, n: NotificationView, age: int)
    requires
        trim(query).len() > 0,
        notification_outcome(query, n, age) is Some,
        holds_every_term(trim(query), n.body),
        absent_from(trim(query), n.summary),
        absent_from(trim(query), n.app_name),
    ensures
        notification_outcome(query, n, age) == Some(
            Some(
                term_score_sum(query_terms(trim(query)), n.body, 0) + 70 * query_terms(
                    trim(query),
                ).len() + n.urgency,
            ),
        ),
{
    let q = trim(query);
    let fs = notification_fields(n);
    assert forall|j: int, i: int|
        0 <= j < query_terms(q).len() && 0 <= i < fs.len() && i != 1 implies #[trigger] term_outcome(
        query_terms(q)[j],
        fs[i].0,
    ) == Some(None::<TermMatch>) by {
        assert(term_outcome(query_terms(q)[j], n.summary) == Some(None::<TermMatch>));
        assert(term_outcome(query_terms(q)[j], n.app_name) == Some(None::<TermMatch>));
    }
    lemma_score_from_one_field(q, fs, 1);
}

/// A notification whose summary alone holds the terms of a non-blank query (none of them
/// occurs in its body, app name) scores that text's score for the query plus
/// 130 per term plus its urgency, where nothing leaves the `i64` range.
pub proof fn lemma_notification_score_from_summary(query: Seq<char>, n: NotificationView, age: int)
    requires
        notification_outcome(query, n, age) is Some,
        trim(query).len() > 0,
        holds_every_term(trim(query), n.summary),
        absent_from(trim(query), n.body),
        absent_from(trim(query), n.app_name),
    ensures
        notification_outcome(query, n, age) == Some(
            Some(
                term_score_sum(query_terms(trim(query)), n.summary, 0) + 130 * query_terms(
                    trim(query),
                ).len() + n.urgency,
            ),
        ),
{
    let q = trim(query);
    let fs = notification_fields(n);
    assert forall|j: int, i: int|
        0 <= j < query_terms(q).len() && 0 <= i < fs.len() && i != 0 implies #[trigger] term_outcome(
        query_terms(q)[j],
        fs[i].0,
    ) == Some(None::<TermMatch>) by {
        assert(term_outcome(query_terms(q)[j], n.body) == Some(None::<TermMatch>));
        assert(term_outcome(query_terms(q)[j], n.app_name) == Some(None::<TermMatch>));
    }
    lemma_score_from_one_field(q, fs, 0);
}

/// A notification whose app name alone holds the terms of a non-blank query (none of them
/// occurs in its summary, body) scores that text's score for the query plus
/// 40 per term plus its urgency, where nothing leaves the `i64` range.
pub proof fn lemma_notification_score_from_app_name(query: Seq<char>, n: NotificationView, age: int)
    requires
        notification_outcome(query, n, age) is Some,
        trim(query).len() > 0,
        holds_every_term(trim(query), n.app_name),
        absent_from(trim(query), n.summary),
        absent_from(trim(query), n.body),
    ensures
        notification_outcome(query, n, age) == Some(
            Some(
                term_score_sum(query_terms(trim(query)), n.app_name, 0) + 40 * query_terms(
                    trim(query),
                ).len() + n.urgency,
            ),
        ),
{
    let q = trim(query);
    let fs = notification_fields(n);
    assert forall|j: int, i: int|
        0 <= j < query_terms(q).len() && 0 <= i < fs.len() && i != 2 implies #[trigger] term_outcome(
        query_terms(q)[j],
        fs[i].0,
    ) == Some(None::<TermMatch>) by {
        assert(term_outcome(query_terms(q)[j], n.summary) == Some(None::<TermMatch>));
        assert(term_outcome(query_terms(q)[j], n.body) == Some(None::<TermMatch>));
    }
    lemma_score_from_one_field(q, fs, 2);
}

/// The score of a notification that is `age` places from the newest: an
/// empty query lists every notification, newest first; otherwise the fuzzy
/// score plus the urgency, and no score when the query does not match.
pub open spec fn notification_outcome(query: Seq<char>, n: NotificationView, age: int) -> Option<
    Option<int>,
> {
    if trim(query).len() == 0 {
        if age <= i64::MAX {
            Some(Some(EMPTY_QUERY_BASE_SCORE - age))
        } else {
            None
        }
    } else {
        match score_fields_outcome(trim(query), notification_fields(n)) {
            None => None,
            Some(None) => Some(None),
            Some(Some(s)) => if in_i64(s + n.urgency) {
                Some(Some(s + n.urgency))
            } else {
                None
            },
        }
    }
}

/// The subtitle: the application and the body, each when not blank.
pub open spec fn notification_subtitle(n: NotificationView) -> Seq<char> {
    let no_app = trim(n.app_name).len() == 0;
    let no_body = trim(n.body).len() == 0;
    if no_app && no_body {
        seq![]
    } else if no_body {
        n.app_name
    } else if no_app {
        n.body
    } else {
        n.app_name + "  "@ + n.body
    }
}

pub open spec fn dismiss_action() -> ResultAction {
    ResultAction { id: DISMISS_ACTION_ID, label: "Dismiss", shortcut: 'd' }
}

/// `r` is the result for notification `n` with score `score`.
pub open spec fn describes_notification(r: SearchResult, n: NotificationView, score: int) -> bool {
    &&& r.module_key@ == MODULE_KEY@
    &&& r.item_id@ == decimal(n.id as nat)
    &&& r.title@ == n.summary
    &&& r.subtitle@ == notification_subtitle(n)
    &&& r.icon_name is None
    &&& r.kind == MatchKind::Notification
    &&& r.actions@ == seq![dismiss_action()]
    &&& r.score as int == score
}

/// `c` holds, newest first, the result of every notification of `newest`
/// (newest first) that the query matches.
pub open spec fn notification_candidates(c: Seq<SearchResult>, query: Seq<char>, newest: Seq<NotificationView>) -> bool
    decreases newest.len(),
{
    if newest.len() == 0 {
        c.len() == 0
    } else {
        match notification_outcome(query, newest.last(), newest.len() - 1) {
            Some(Some(s)) => c.len() > 0 && describes_notification(c.last(), newest.last(), s)
                && notification_candidates(c.drop_last(), query, newest.drop_last()),
            _ => notification_candidates(c, query, newest.drop_last()),
        }
    }
}

fn subtitle_of(n: &Notification) -> (r: String)
    ensures
        r@ == notification_subtitle(notification_view(*n)),
{
    let a = chars_of(n.app_name.as_str());
    let b = chars_of(n.body.as_str());
    let no_app = trimmed(a.as_slice()).len() == 0;
    let no_body = trimmed(b.as_slice()).len() == 0;
    if no_app && no_body {
        String::new()
    } else if no_body {
        n.app_name.clone()
    } else if no_app {
        n.body.clone()
    } else {
        concat(concat(n.app_name.as_str(), "  ").as_str(), n.body.as_str())
    }
}

/// The results for `notifications` (oldest first): newest first, each
/// notification the query matches by summary (bonus 130), body (70) or
/// application (40), ranked by score, then by title. Fails when a score
/// leaves the `i64` range.
pub fn notification_results(query: &str, notifications: &[Notification]) -> (r: Result<
    Vec<SearchResult>,
    ModuleError,
>)
    ensures
        r is Err <==> exists|i: int|
            0 <= i < notifications@.len() && #[trigger] notification_outcome(
                query@,
                notifications_view(notifications@).reverse()[i],
                i,
            ) is None,
        r matches Err(e) ==> e.message@ == SCORE_RANGE_MESSAGE@,
        r matches Ok(v) ==> exists|c: Seq<SearchResult>|
            notification_candidates(c, query@, notifications_view(notifications@).reverse())
                && v@ == sorted_results(ResultOrder::Title, c),
{
    let ghost newest = notifications_view(notifications@).reverse();
    let qc = chars_of(query);
    let qt = trimmed(qc.as_slice());
    let empty_query = qt.len() == 0;
    let q = string_from_chars(qt.as_slice());
    let mut out: Vec<SearchResult> = Vec::new();
    let n = notifications.len();
    let mut k: usize = 0;
    while k < n
        invariant
            n == notifications@.len(),
            newest == notifications_view(notifications@).reverse(),
            k <= n,
            q@ == trim(query@),
            empty_query == (q@.len() == 0),
            notification_candidates(out@, query@, newest.take(k as int)),
            forall|i: int| 0 <= i < k ==> #[trigger] notification_outcome(query@, newest[i], i) is Some,
        decreases n - k,
    {
        let note = &notifications[n - 1 - k];
        let ghost nv = notification_view(*note);
        proof {
            assert(newest[k as int] == nv);
            assert(newest.take(k + 1).drop_last() =~= newest.take(k as int));
            assert(newest.take(k + 1).last() == nv);
        }
        let score: Option<i64> = if empty_query {
            if (k as u64) > (i64::MAX as u64) {
                proof {
                    assert(notification_outcome(query@, newest[k as int], k as int) is None);
                }
                return Err(ModuleError::new(String::from_str(SCORE_RANGE_MESSAGE)));
            }
            Some(EMPTY_QUERY_BASE_SCORE - k as i64)
        } else {
            let fields: Vec<(&str, i64)> = vec![
                (note.summary.as_str(), 130),
                (note.body.as_str(), 70),
                (note.app_name.as_str(), 40),
            ];
            proof {
                assert(field_views(fields@) =~= notification_fields(nv));
            }
            match try_score_fields(q.as_str(), fields.as_slice()) {
                None => {
                    proof {
                        assert(notification_outcome(query@, newest[k as int], k as int) is None);
                    }
                    return Err(ModuleError::new(String::from_str(SCORE_RANGE_MESSAGE)));
                },
                Some(None) => None,
                Some(Some(s)) => match s.checked_add(note.urgency as i64) {
                    None => {
                        proof {
                            assert(notification_outcome(query@, newest[k as int], k as int) is None);
                        }
                        return Err(ModuleError::new(String::from_str(SCORE_RANGE_MESSAGE)));
                    },
                    Some(t) => Some(t),
                },
            }
        };
        match score {
            None => {},
            Some(score) => {
                let result = SearchResult {
                    module_key: MODULE_KEY,
                    item_id: decimal_string(note.id),
                    title: note.summary.clone(),
                    subtitle: subtitle_of(note),
                    icon_name: None,
                    kind: MatchKind::Notification,
                    actions: vec![ResultAction { id: DISMISS_ACTION_ID, label: "Dismiss", shortcut: 'd' }],
                    score,
                };
                let ghost before = out@;
                out.push(result);
                proof {
                    assert(out@.drop_last() =~= before);
                    assert(out@.last().actions@ =~= seq![dismiss_action()]);
                }
            },
        }
        k = k + 1;
    }
    proof {
        assert(newest.take(n as int) =~= newest);
    }
    Ok(sort_results(out, ResultOrder::Title))
}

/// With a blank query every notification is listed, newest first, each
/// scoring 10000 less its age, and ranking leaves that order as it is.
pub proof fn lemma_blank_query_lists_newest_first(
    query: Seq<char>,
    newest: Seq<NotificationView>,
    c: Seq<SearchResult>,
)
    requires
        trim(query).len() == 0,
        newest.len() <= i64::MAX,
        notification_candidates(c, query, newest),
    ensures
        c.len() == newest.len(),
        forall|i: int|
            0 <= i < c.len() ==> describes_notification(
                #[trigger] c[i],
                newest[i],
                EMPTY_QUERY_BASE_SCORE - i,
            ),
        sorted_results(ResultOrder::Title, c) == c,
    decreases newest.len(),
{
    if newest.len() > 0 {
        let p = newest.drop_last();
        lemma_blank_query_lists_newest_first(query, p, c.drop_last());
        assert forall|i: int| 0 <= i < c.len() implies describes_notification(
            #[trigger] c[i],
            newest[i],
            EMPTY_QUERY_BASE_SCORE - i,
        ) by {
            if i < c.len() - 1 {
                assert(c.drop_last()[i] == c[i]);
                assert(p[i] == newest[i]);
            }
        }
        assert forall|i: int, j: int| 0 <= i < j < c.len() implies #[trigger] c[i].score
            > #[trigger] c[j].score by {
            assert(describes_notification(c[i], newest[i], EMPTY_QUERY_BASE_SCORE - i));
            assert(describes_notification(c[j], newest[j], EMPTY_QUERY_BASE_SCORE - j));
        }
        crate::module::lemma_sorted_when_scores_fall(ResultOrder::Title, c);
    } else {
        assert(c.len() == 0);
    }
}

// ---------------------------------------------------------------------------
// Invoking and dismissing
// ---------------------------------------------------------------------------

/// What a `makoctl dismiss` that ran as `ran` means.
pub fn dismiss_result(item_id: &str, ran: Result<bool, ModuleError>) -> (r: Result<(), ModuleError>)
    ensures
        match ran {
            Err(_) => r matches Err(e) && e.message@ == "failed to dismiss notification "@ + item_id@,
            Ok(false) => r matches Err(e) && e.message@ == "mako refused to dismiss notification "@
                + item_id@,
            Ok(true) => r is Ok,
        },
{
    match ran {
        Err(_) => Err(ModuleError::with_detail("failed to dismiss notification ", item_id)),
        Ok(false) => Err(ModuleError::with_detail("mako refused to dismiss notification ", item_id)),
        Ok(true) => Ok(()),
    }
}

/// What a default activation comes to once `makoctl invoke` ran with
/// success `invoked` and the dismissal that follows ran as `dismissed`: the
/// picker closes when the dismissal succeeded; otherwise the dismissal's
/// error, or, when the invocation had failed too, that mako refused both.
pub fn invoke_result(item_id: &str, invoked: bool, dismissed: Result<bool, ModuleError>) -> (r: Result<
    ActivationOutcome,
    ModuleError,
>)
    ensures
        dismissed == Ok::<bool, ModuleError>(true) ==> r == Ok::<ActivationOutcome, ModuleError>(
            ActivationOutcome::ClosePicker,
        ),
        dismissed != Ok::<bool, ModuleError>(true) && invoked ==> match dismissed {
            Err(_) => r matches Err(e) && e.message@ == "failed to dismiss notification "@ + item_id@,
            Ok(_) => r matches Err(e) && e.message@ == "mako refused to dismiss notification "@
                + item_id@,
        },
        dismissed != Ok::<bool, ModuleError>(true) && !invoked ==> (r matches Err(e) && e.message@
            == "mako refused to invoke or dismiss notification "@ + item_id@),
{
    match dismiss_result(item_id, dismissed) {
        Ok(()) => Ok(ActivationOutcome::ClosePicker),
        Err(e) => if invoked {
            Err(e)
        } else {
            Err(ModuleError::with_detail("mako refused to invoke or dismiss notification ", item_id))
        },
    }
}

impl<B: MakoBackend> MakoNotificationsModule<B> {
    /// The backend the module reaches mako through.
    pub closed spec fn backend(&self) -> B {
        self.backend
    }

    pub fn new(backend: B) -> (r: Self)
        ensures
            r.backend() == backend,
    {
        MakoNotificationsModule { backend }
    }

    /// The notifications that the backend lists, newest first, as
    /// `notification_results` ranks them; else the backend's error, or the
    /// score error when a notification's score does not fit.
    pub open spec fn search_answer(
        &self,
        query: Seq<char>,
        answer: Result<Seq<SearchResult>, ModuleError>,
    ) -> bool {
        match answer {
            Ok(v) => exists|raws: Seq<RawNotification>, c: Seq<SearchResult>|
                #![trigger notification_candidates(c, query, listed_all(raws).reverse())]
                self.backend().lists(Ok(raws)) && notification_candidates(
                    c,
                    query,
                    listed_all(raws).reverse(),
                ) && v == sorted_results(ResultOrder::Title, c),
            Err(e) => self.backend().lists(Err(e)) || exists|raws: Seq<RawNotification>|
                #![trigger self.backend().lists(Ok(raws))]
                self.backend().lists(Ok(raws)) && e.message@ == SCORE_RANGE_MESSAGE@ && exists|i: int|
                    0 <= i < listed_all(raws).len() && #[trigger] notification_outcome(
                        query,
                        listed_all(raws).reverse()[i],
                        i,
                    ) is None,
        }
    }

    /// The default action runs `makoctl invoke`, then `makoctl dismiss`, as
    /// `invoke_answer` says; `dismiss` runs `makoctl dismiss`, as
    /// `dismiss_answer` says; any other action is unknown.
    pub open spec fn activation_answer(
        &self,
        item_id: Seq<char>,
        action_id: Seq<char>,
        answer: Result<ActivationOutcome, ModuleError>,
    ) -> bool {
        if action_id == DEFAULT_ACTION_ID@ {
            self.invoke_answer(item_id, answer)
        } else if action_id == DISMISS_ACTION_ID@ {
            self.dismiss_answer(item_id, answer)
        } else {
            answer matches Err(e) && e.message@ == "unknown notification action: "@ + action_id
        }
    }

    /// `makoctl invoke` for `item_id` could not run, which fails; or it ran,
    /// and `makoctl dismiss` follows as `after_invoke` says.
    pub open spec fn invoke_answer(&self, item_id: Seq<char>, answer: Result<ActivationOutcome, ModuleError>) -> bool {
        exists|i: Result<bool, ModuleError>|
            #![trigger self.backend().runs("invoke"@, item_id, i)]
            self.backend().runs("invoke"@, item_id, i) && match i {
                Err(_) => answer matches Err(e) && e.message@ == "failed to invoke notification "@
                    + item_id,
                Ok(invoked) => self.after_invoke(item_id, invoked, answer),
            }
    }

    /// After `makoctl invoke` ran with success `invoked`, `makoctl dismiss`
    /// runs: the picker closes when it succeeded; otherwise its error, or,
    /// when the invocation had failed too, that mako refused both.
    pub open spec fn after_invoke(
        &self,
        item_id: Seq<char>,
        invoked: bool,
        answer: Result<ActivationOutcome, ModuleError>,
    ) -> bool {
        exists|d: Result<bool, ModuleError>|
            #![trigger self.backend().runs("dismiss"@, item_id, d)]
            self.backend().runs("dismiss"@, item_id, d) && match d {
                Ok(true) => answer == Ok::<ActivationOutcome, ModuleError>(
                    ActivationOutcome::ClosePicker,
                ),
                Ok(false) => answer matches Err(e) && e.message@ == (if invoked {
                    "mako refused to dismiss notification "@
                } else {
                    "mako refused to invoke or dismiss notification "@
                }) + item_id,
                Err(_) => answer matches Err(e) && e.message@ == (if invoked {
                    "failed to dismiss notification "@
                } else {
                    "mako refused to invoke or dismiss notification "@
                }) + item_id,
            }
    }

    /// `makoctl dismiss` runs: the results are refreshed when it succeeded;
    /// else the error `dismiss_result` makes of its answer.
    pub open spec fn dismiss_answer(&self, item_id: Seq<char>, answer: Result<ActivationOutcome, ModuleError>) -> bool {
        exists|d: Result<bool, ModuleError>|
            #![trigger self.backend().runs("dismiss"@, item_id, d)]
            self.backend().runs("dismiss"@, item_id, d) && match d {
                Ok(true) => answer == Ok::<ActivationOutcome, ModuleError>(
                    ActivationOutcome::RefreshResults,
                ),
                Ok(false) => answer matches Err(e) && e.message@
                    == "mako refused to dismiss notification "@ + item_id,
                Err(_) => answer matches Err(e) && e.message@ == "failed to dismiss notification "@
                    + item_id,
            }
    }
}

impl<B: MakoBackend> Module for MakoNotificationsModule<B> {
    open spec fn reports_key(&self, key: Seq<char>) -> bool {
        key == MODULE_KEY@
    }

    open spec fn answers_search(
        &self,
        query: Seq<char>,
        answer: Result<Seq<SearchResult>, ModuleError>,
    ) -> bool {
        self.search_answer(query, answer)
    }

    open spec fn answers_activation(
        &self,
        item_id: Seq<char>,
        action_id: Seq<char>,
        answer: Result<ActivationOutcome, ModuleError>,
    ) -> bool {
        self.activation_answer(item_id, action_id, answer)
    }

    fn key(&self) -> (k: &'static str) {
        MODULE_KEY
    }

    /// The notifications mako lists, as `notification_results` ranks them.
    fn search(&mut self, query: &str) -> (r: Result<Vec<SearchResult>, ModuleError>)
        ensures
            old(self).search_answer(query@, search_view(r)),
    {
        let listed = self.backend.list_notifications();
        let raws = match listed {
            Ok(v) => v,
            Err(e) => {
                return Err(e);
            },
        };
        let ghost rv = raws@;
        proof {
            assert(self.backend().lists(Ok(rv)));
        }
        let notifications = notifications_from(raws);
        let r = notification_results(query, notifications.as_slice());
        proof {
            if let Ok(v) = &r {
                let c = choose|c: Seq<SearchResult>|
                    notification_candidates(c, query@, notifications_view(notifications@).reverse())
                        && v@ == sorted_results(ResultOrder::Title, c);
                assert(notification_candidates(c, query@, listed_all(rv).reverse()));
            }
        }
        r
    }

    /// Invokes the notification and dismisses it, or only dismisses it.
    fn activate(&mut self, item_id: &str, action_id: &str) -> (r: Result<ActivationOutcome, ModuleError>)
        ensures
            old(self).activation_answer(item_id@, action_id@, r),
    {
        proof {
            reveal_strlit("default");
            reveal_strlit("dismiss");
            assert(DEFAULT_ACTION_ID@.len() == 7);
            assert(DISMISS_ACTION_ID@.len() == 7);
            assert(DEFAULT_ACTION_ID@[1] != DISMISS_ACTION_ID@[1]);
        }
        if str_equal(action_id, DEFAULT_ACTION_ID) {
            let ran = self.backend.makoctl("invoke", item_id);
            proof {
                assert(self.backend().runs("invoke"@, item_id@, ran));
            }
            match ran {
                Err(_) => Err(ModuleError::with_detail("failed to invoke notification ", item_id)),
                Ok(invoked) => {
                    let dismissed = self.backend.makoctl("dismiss", item_id);
                    let r = invoke_result(item_id, invoked, dismissed);
                    proof {
                        assert(self.backend().runs("dismiss"@, item_id@, dismissed));
                        assert(self.after_invoke(item_id@, invoked, r));
                    }
                    r
                },
            }
        } else if str_equal(action_id, DISMISS_ACTION_ID) {
            let ran = self.backend.makoctl("dismiss", item_id);
            let r = match dismiss_result(item_id, ran) {
                Ok(()) => Ok(ActivationOutcome::RefreshResults),
                Err(e) => Err(e),
            };
            proof {
                assert(self.backend().runs("dismiss"@, item_id@, ran));
            }
            r
        } else {
            Err(ModuleError::with_detail("unknown notification action: ", action_id))
        }
    }
}

} // verus!
