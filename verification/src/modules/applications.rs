//! Installed applications: reading desktop entry files, the directories they
//! are looked for in, searching the entries, and launching one.

use vstd::prelude::*;
use crate::fuzzy::{
    absent_from, field_views, holds_every_term, lemma_one_field_holding_every_term_scores,
    lemma_score_from_one_field, query_terms, score_fields_outcome, term_outcome, term_score_sum,
    try_score_fields, TermMatch,
};
use crate::icons::{file_stem, file_stem_of, names_something};
use crate::module::{
    ActivationOutcome, DEFAULT_ACTION_ID, MatchKind, Module, ModuleError, ResultOrder,
    SearchResult, closes_picker, closes_picker_of, search_view, sort_results, sorted_results,
};
use crate::text::{
    chars_equal, chars_of, concat, index_of, lemma_index_of, find_char, copy_range, split_at,
    split_on, str_equal, string_from_chars, trim, trimmed,
};

verus! {

broadcast use vstd::string::group_string_axioms;

pub const MODULE_KEY: &'static str = "applications";

/// The error when the fuzzy score of an entry leaves the `i64` range.
pub const SCORE_RANGE_MESSAGE: &'static str = "fuzzy score out of range";

/// An application as its desktop entry describes it.
#[derive(Clone, Debug, Eq, PartialEq)]
pub struct ApplicationEntry {
    pub id: String,
    pub name: String,
    pub comment: String,
    pub keywords: String,
    pub icon_name: Option<String>,
}

/// Starts an application by its desktop entry id.
pub trait ApplicationLauncher: Send {
    /// Asked to start the application with desktop entry id `desktop_id`,
    /// the launcher may answer `answer`.
    closed spec fn launches(&self, desktop_id: Seq<char>, answer: Result<(), ModuleError>) -> bool {
        true
    }

    fn launch(&self, desktop_id: &str) -> (r: Result<(), ModuleError>)
        ensures
            self.launches(desktop_id@, r),
    ;
}

/// The applications module: the entries found, and how to start one.
pub struct ApplicationsModule<L: ApplicationLauncher> {
    entries: Vec<ApplicationEntry>,
    launcher: L,
}

// ---------------------------------------------------------------------------
// Desktop entry files
// ---------------------------------------------------------------------------

/// What a desktop entry file has said so far.
pub struct DesktopFields {
    pub in_entry: bool,
    pub name: Option<Seq<char>>,
    pub comment: Option<Seq<char>>,
    pub keywords: Option<Seq<char>>,
    pub icon: Option<Seq<char>>,
    pub command: Option<Seq<char>>,
    pub no_display: bool,
    pub hidden: bool,
    pub entry_type: Option<Seq<char>>,
}

pub open spec fn no_fields() -> DesktopFields {
    DesktopFields {
        in_entry: false,
        name: None,
        comment: None,
        keywords: None,
        icon: None,
        command: None,
        no_display: false,
        hidden: false,
        entry_type: None,
    }
}

/// `true`, `True` and `1` (around whitespace) are true; anything else is false.
pub open spec fn desktop_bool(value: Seq<char>) -> bool {
    let t = trim(value);
    t == "true"@ || t == "True"@ || t == "1"@
}

/// `s` with every `;` replaced by a space.
pub open spec fn semicolons_to_spaces(s: Seq<char>) -> Seq<char> {
    s.map_values(|c: char| if c == ';' { ' ' } else { c })
}

/// What one line of a desktop entry file changes. Blank lines and comments
/// change nothing; a `[group]` header says whether the lines that follow
/// belong to `[Desktop Entry]`; there, `key=value` lines set the first name,
/// comment, keywords, icon, command and type, and every `NoDisplay` and
/// `Hidden`.
pub open spec fn desktop_step(f: DesktopFields, raw_line: Seq<char>) -> DesktopFields {
    let line = trim(raw_line);
    if line.len() == 0 || line[0] == '#' {
        f
    } else if line[0] == '[' && line.last() == ']' {
        DesktopFields { in_entry: line == "[Desktop Entry]"@, ..f }
    } else if !f.in_entry {
        f
    } else {
        match index_of(line, '=', 0) {
            None => f,
            Some(i) => {
                let key = line.take(i);
                let value = line.skip(i + 1);
                if key == "Name"@ && f.name is None {
                    DesktopFields { name: Some(trim(value)), ..f }
                } else if key == "Comment"@ && f.comment is None {
                    DesktopFields { comment: Some(trim(value)), ..f }
                } else if key == "Keywords"@ && f.keywords is None {
                    DesktopFields { keywords: Some(semicolons_to_spaces(value)), ..f }
                } else if key == "Icon"@ && f.icon is None {
                    DesktopFields { icon: Some(trim(value)), ..f }
                } else if key == "Exec"@ && f.command is None {
                    DesktopFields { command: Some(trim(value)), ..f }
                } else if key == "NoDisplay"@ {
                    DesktopFields { no_display: desktop_bool(value), ..f }
                } else if key == "Hidden"@ {
                    DesktopFields { hidden: desktop_bool(value), ..f }
                } else if key == "Type"@ && f.entry_type is None {
                    DesktopFields { entry_type: Some(trim(value)), ..f }
                } else {
                    f
                }
            },
        }
    }
}

/// What the first `n` lines say.
pub open spec fn desktop_fields(lines: Seq<Seq<char>>, n: int) -> DesktopFields
    decreases n,
{
    if n <= 0 {
        no_fields()
    } else {
        desktop_step(desktop_fields(lines, n - 1), lines[n - 1])
    }
}

/// An application entry as plain values.
pub struct EntryView {
    pub id: Seq<char>,
    pub name: Seq<char>,
    pub comment: Seq<char>,
    pub keywords: Seq<char>,
    pub icon_name: Option<Seq<char>>,
}

pub open spec fn opt_text(o: Option<String>) -> Option<Seq<char>> {
    match o {
        Some(s) => Some(s@),
        None => None,
    }
}

pub open spec fn entry_view(e: ApplicationEntry) -> EntryView {
    EntryView {
        id: e.id@,
        name: e.name@,
        comment: e.comment@,
        keywords: e.keywords@,
        icon_name: opt_text(e.icon_name),
    }
}

/// The application that a desktop entry file describes: none when it is
/// hidden, not to be displayed, has no command, or has a type other than
/// `Application`. Without a name it is called `default_name`.
pub open spec fn desktop_entry(contents: Seq<char>, id: Seq<char>, default_name: Seq<char>) -> Option<
    EntryView,
> {
    let lines = split_on(contents, '\n');
    let f = desktop_fields(lines, lines.len() as int);
    if f.hidden || f.no_display || f.command is None || (f.entry_type matches Some(t) && t
        != "Application"@) {
        None
    } else {
        Some(
            EntryView {
                id,
                name: match f.name {
                    Some(n) => n,
                    None => default_name,
                },
                comment: match f.comment {
                    Some(c) => c,
                    None => seq![],
                },
                keywords: match f.keywords {
                    Some(k) => k,
                    None => seq![],
                },
                icon_name: f.icon,
            },
        )
    }
}

/// Exec form of the fields read so far.
struct Fields {
    in_entry: bool,
    name: Option<Vec<char>>,
    comment: Option<Vec<char>>,
    keywords: Option<Vec<char>>,
    icon: Option<Vec<char>>,
    command: Option<Vec<char>>,
    no_display: bool,
    hidden: bool,
    entry_type: Option<Vec<char>>,
}

spec fn opt_chars(o: Option<Vec<char>>) -> Option<Seq<char>> {
    match o {
        Some(v) => Some(v@),
        None => None,
    }
}

spec fn fields_view(f: Fields) -> DesktopFields {
    DesktopFields {
        in_entry: f.in_entry,
        name: opt_chars(f.name),
        comment: opt_chars(f.comment),
        keywords: opt_chars(f.keywords),
        icon: opt_chars(f.icon),
        command: opt_chars(f.command),
        no_display: f.no_display,
        hidden: f.hidden,
        entry_type: opt_chars(f.entry_type),
    }
}

fn is_text(v: &[char], lit: &str) -> (r: bool)
    ensures
        r == (v@ == lit@),
{
    let l = chars_of(lit);
    chars_equal(v, l.as_slice())
}

/// Whether a desktop entry value is true.
pub fn parse_bool(value: &[char]) -> (r: bool)
    ensures
        r == desktop_bool(value@),
{
    let t = trimmed(value);
    is_text(t.as_slice(), "true") || is_text(t.as_slice(), "True") || is_text(t.as_slice(), "1")
}

fn keyword_text(value: &[char]) -> (r: Vec<char>)
    ensures
        r@ == semicolons_to_spaces(value@),
{
    let mut r: Vec<char> = Vec::new();
    let n = value.len();
    let mut k: usize = 0;
    while k < n
        invariant
            n == value@.len(),
            k <= n,
            r@ == semicolons_to_spaces(value@.take(k as int)),
        decreases n - k,
    {
        let c = value[k];
        r.push(if c == ';' {
            ' '
        } else {
            c
        });
        proof {
            assert(semicolons_to_spaces(value@.take(k + 1)) =~= semicolons_to_spaces(
                value@.take(k as int),
            ).push(if c == ';' {
                ' '
            } else {
                c
            }));
        }
        k = k + 1;
    }
    proof {
        assert(value@.take(n as int) =~= value@);
    }
    r
}

fn read_line(f: &mut Fields, raw_line: &[char])
    ensures
        fields_view(*final(f)) == desktop_step(fields_view(*old(f)), raw_line@),
{
    let line = trimmed(raw_line);
    let n = line.len();
    if n == 0 || line[0] == '#' {
        return;
    }
    if line[0] == '[' && line[n - 1] == ']' {
        f.in_entry = is_text(line.as_slice(), "[Desktop Entry]");
        return;
    }
    if !f.in_entry {
        return;
    }
    let i = match find_char(line.as_slice(), '=') {
        Some(i) => i,
        None => {
            return;
        },
    };
    proof {
        lemma_index_of(line@, '=', 0);
    }
    let key = copy_range(line.as_slice(), 0, i);
    let value = copy_range(line.as_slice(), i + 1, n);
    proof {
        assert(key@ =~= line@.take(i as int));
        assert(value@ =~= line@.skip(i + 1));
    }
    let key = key.as_slice();
    let value = value.as_slice();
    if is_text(key, "Name") && f.name.is_none() {
        f.name = Some(trimmed(value));
    } else if is_text(key, "Comment") && f.comment.is_none() {
        f.comment = Some(trimmed(value));
    } else if is_text(key, "Keywords") && f.keywords.is_none() {
        f.keywords = Some(keyword_text(value));
    } else if is_text(key, "Icon") && f.icon.is_none() {
        f.icon = Some(trimmed(value));
    } else if is_text(key, "Exec") && f.command.is_none() {
        f.command = Some(trimmed(value));
    } else if is_text(key, "NoDisplay") {
        f.no_display = parse_bool(value);
    } else if is_text(key, "Hidden") {
        f.hidden = parse_bool(value);
    } else if is_text(key, "Type") && f.entry_type.is_none() {
        f.entry_type = Some(trimmed(value));
    }
}

fn text_or(o: Option<Vec<char>>, default: &[char]) -> (r: String)
    ensures
        r@ == match opt_chars(o) {
            Some(v) => v,
            None => default@,
        },
{
    match o {
        Some(v) => string_from_chars(v.as_slice()),
        None => string_from_chars(default),
    }
}

/// The application that the desktop entry file `contents` describes, with
/// entry id `id`, named `default_name` when the file gives no name.
pub fn parse_entry(contents: &str, id: &str, default_name: &str) -> (r: Option<ApplicationEntry>)
    ensures
        match desktop_entry(contents@, id@, default_name@) {
            Some(v) => r matches Some(e) && entry_view(e) == v,
            None => r is None,
        },
{
    let c = chars_of(contents);
    let lines = split_at(c.as_slice(), '\n');
    let ghost lv = split_on(contents@, '\n');
    let mut f = Fields {
        in_entry: false,
        name: None,
        comment: None,
        keywords: None,
        icon: None,
        command: None,
        no_display: false,
        hidden: false,
        entry_type: None,
    };
    let n = lines.len();
    let mut k: usize = 0;
    while k < n
        invariant
            n == lv.len(),
            lines@.len() == n,
            forall|i: int| 0 <= i < n ==> #[trigger] lines@[i]@ == lv[i],
            k <= n,
            fields_view(f) == desktop_fields(lv, k as int),
        decreases n - k,
    {
        read_line(&mut f, lines[k].as_slice());
        k = k + 1;
    }
    let bad_type = match &f.entry_type {
        Some(t) => !is_text(t.as_slice(), "Application"),
        None => false,
    };
    if f.hidden || f.no_display || f.command.is_none() || bad_type {
        return None;
    }
    let empty: Vec<char> = Vec::new();
    let dn = chars_of(default_name);
    let icon_name = match f.icon {
        Some(v) => Some(string_from_chars(v.as_slice())),
        None => None,
    };
    let e = ApplicationEntry {
        id: String::from_str(id),
        name: text_or(f.name, dn.as_slice()),
        comment: text_or(f.comment, empty.as_slice()),
        keywords: text_or(f.keywords, empty.as_slice()),
        icon_name,
    };
    proof {
        assert(empty@ =~= Seq::<char>::empty());
    }
    Some(e)
}

// ---------------------------------------------------------------------------
// Where entries are found
// ---------------------------------------------------------------------------

/// The pieces of a path that name something.
pub open spec fn named_parts(segs: Seq<Seq<char>>) -> Seq<Seq<char>>
    decreases segs.len(),
{
    if segs.len() == 0 {
        seq![]
    } else if names_something(segs.last()) {
        named_parts(segs.drop_last()).push(segs.last())
    } else {
        named_parts(segs.drop_last())
    }
}

/// The pieces joined with `sep` between them.
pub open spec fn joined_with(parts: Seq<Seq<char>>, sep: char) -> Seq<char>
    decreases parts.len(),
{
    if parts.len() == 0 {
        seq![]
    } else if parts.len() == 1 {
        parts[0]
    } else {
        joined_with(parts.drop_last(), sep) + seq![sep] + parts.last()
    }
}

pub open spec fn is_absolute(p: Seq<char>) -> bool {
    p.len() > 0 && p[0] == '/'
}

/// The desktop entry id of a file below an applications directory: the
/// parts of its path below the directory joined with `-`; none when the file
/// is not below the directory.
pub open spec fn entry_id_of(dir: Seq<char>, file: Seq<char>) -> Option<Seq<char>> {
    let d = named_parts(split_on(dir, '/'));
    let f = named_parts(split_on(file, '/'));
    if is_absolute(dir) == is_absolute(file) && d.len() <= f.len() && f.take(d.len() as int) == d {
        Some(joined_with(f.skip(d.len() as int), '-'))
    } else {
        None
    }
}

fn named_parts_of(path: &[char]) -> (r: Vec<Vec<char>>)
    ensures
        r@.len() == named_parts(split_on(path@, '/')).len(),
        forall|i: int| 0 <= i < r@.len() ==> #[trigger] r@[i]@ == named_parts(split_on(path@, '/'))[i],
{
    let segs = split_at(path, '/');
    let ghost sv = split_on(path@, '/');
    let mut r: Vec<Vec<char>> = Vec::new();
    let n = segs.len();
    let mut k: usize = 0;
    while k < n
        invariant
            n == sv.len(),
            segs@.len() == n,
            forall|i: int| 0 <= i < n ==> #[trigger] segs@[i]@ == sv[i],
            k <= n,
            r@.len() == named_parts(sv.take(k as int)).len(),
            forall|i: int| 0 <= i < r@.len() ==> #[trigger] r@[i]@ == named_parts(sv.take(k as int))[i],
        decreases n - k,
    {
        let seg = &segs[k];
        proof {
            assert(sv.take(k + 1).drop_last() =~= sv.take(k as int));
            assert(sv.take(k + 1).last() == segs@[k as int]@);
        }
        if seg.len() > 0 && !(seg.len() == 1 && seg[0] == '.') {
            proof {
                assert(names_something(seg@)) by {
                    if seg@ == seq!['.'] {
                        assert(seg@.len() == 1 && seg@[0] == '.');
                    }
                }
            }
            r.push(copy_range(seg.as_slice(), 0, seg.len()));
            proof {
                assert(seg@.subrange(0, seg@.len() as int) =~= seg@);
            }
        } else {
            proof {
                assert(!names_something(seg@)) by {
                    if seg@.len() == 1 && seg@[0] == '.' {
                        assert(seg@ =~= seq!['.']);
                    }
                }
            }
        }
        k = k + 1;
    }
    proof {
        assert(sv.take(n as int) =~= sv);
    }
    r
}

/// The desktop entry id of `file` below the applications directory `dir`.
pub fn desktop_entry_id(dir: &str, file: &str) -> (r: Option<String>)
    ensures
        match entry_id_of(dir@, file@) {
            Some(id) => r matches Some(s) && s@ == id,
            None => r is None,
        },
{
    let dc = chars_of(dir);
    let fc = chars_of(file);
    let dabs = dc.len() > 0 && dc[0] == '/';
    let fabs = fc.len() > 0 && fc[0] == '/';
    let d = named_parts_of(dc.as_slice());
    let f = named_parts_of(fc.as_slice());
    let ghost dv = named_parts(split_on(dir@, '/'));
    let ghost fv = named_parts(split_on(file@, '/'));
    if dabs != fabs || d.len() > f.len() {
        return None;
    }
    let mut k: usize = 0;
    while k < d.len()
        invariant
            d@.len() == dv.len(),
            f@.len() == fv.len(),
            d@.len() <= f@.len(),
            forall|i: int| 0 <= i < d@.len() ==> #[trigger] d@[i]@ == dv[i],
            forall|i: int| 0 <= i < f@.len() ==> #[trigger] f@[i]@ == fv[i],
            k <= d@.len(),
            forall|i: int| 0 <= i < k ==> fv[i] == dv[i],
            dv == named_parts(split_on(dir@, '/')),
            fv == named_parts(split_on(file@, '/')),
            is_absolute(dir@) == is_absolute(file@),
        decreases d.len() - k,
    {
        if !chars_equal(d[k].as_slice(), f[k].as_slice()) {
            proof {
                assert(fv.take(dv.len() as int)[k as int] == fv[k as int]);
            }
            return None;
        }
        k = k + 1;
    }
    proof {
        assert(fv.take(dv.len() as int) =~= dv);
    }
    let mut id: Vec<char> = Vec::new();
    let m = f.len();
    let start = d.len();
    let mut j: usize = start;
    let ghost rest = fv.skip(dv.len() as int);
    while j < m
        invariant
            m == fv.len(),
            f@.len() == m,
            forall|i: int| 0 <= i < f@.len() ==> #[trigger] f@[i]@ == fv[i],
            start == dv.len(),
            start <= j <= m,
            rest == fv.skip(dv.len() as int),
            id@ == joined_with(rest.take(j - start), '-'),
        decreases m - j,
    {
        proof {
            assert(rest.take(j - start + 1).drop_last() =~= rest.take(j - start));
            assert(rest.take(j - start + 1).last() == f@[j as int]@);
        }
        if j > start {
            id.push('-');
        }
        let mut piece = copy_range(f[j].as_slice(), 0, f[j].len());
        proof {
            assert(piece@ =~= f@[j as int]@);
            if j == start {
                assert(rest.take(1) =~= seq![f@[j as int]@]);
                assert(id@ =~= Seq::<char>::empty());
            }
        }
        let ghost before = id@;
        id.append(&mut piece);
        proof {
            if j == start {
                assert(id@ =~= f@[j as int]@);
            } else {
                assert(id@ =~= before + f@[j as int]@);
            }
        }
        j = j + 1;
    }
    proof {
        assert(rest.take(m - start) =~= rest);
    }
    Some(string_from_chars(id.as_slice()))
}

/// The name of an entry without one: the stem of its file name, else `unknown`.
pub open spec fn default_entry_name(file: Seq<char>) -> Seq<char> {
    match file_stem_of(file) {
        Some(s) => s,
        None => "unknown"@,
    }
}

pub fn default_name_for(file: &str) -> (r: String)
    ensures
        r@ == default_entry_name(file@),
{
    let c = chars_of(file);
    match file_stem(c.as_slice()) {
        Some(s) => string_from_chars(s.as_slice()),
        None => String::from_str("unknown"),
    }
}

/// The application in the desktop entry file `file` below the applications
/// directory `dir`, whose contents are `contents`.
pub fn entry_from_file(dir: &str, file: &str, contents: &str) -> (r: Option<ApplicationEntry>)
    ensures
        match entry_id_of(dir@, file@) {
            Some(id) => match desktop_entry(contents@, id, default_entry_name(file@)) {
                Some(v) => r matches Some(e) && entry_view(e) == v,
                None => r is None,
            },
            None => r is None,
        },
{
    let id = match desktop_entry_id(dir, file) {
        Some(id) => id,
        None => {
            return None;
        },
    };
    let name = default_name_for(file);
    parse_entry(contents, id.as_str(), name.as_str())
}

// ---------------------------------------------------------------------------
// Searching and launching
// ---------------------------------------------------------------------------

/// The fields an entry is searched by, with their bonuses.
pub open spec fn entry_fields(e: ApplicationEntry) -> Seq<(Seq<char>, int)> {
    seq![(e.name@, 110), (e.keywords@, 85), (e.comment@, 45), (e.id@, 30)]
}

pub open spec fn entry_outcome(query: Seq<char>, e: ApplicationEntry) -> Option<Option<int>> {
    score_fields_outcome(trim(query), entry_fields(e))
}

/// An entry is found by a query whose terms all occur in its name, all in its
/// keywords, all in its comment, or all in its id (where nothing leaves the
/// `i64` range).
pub proof fn lemma_entry_found_by_any_text(query: Seq<char>, e: ApplicationEntry)
    requires
        entry_outcome(query, e) is Some,
    ensures
        holds_every_term(trim(query), e.name@) ==> entry_outcome(query, e) matches Some(Some(_)),
        holds_every_term(trim(query), e.keywords@) ==> entry_outcome(query, e) matches Some(Some(_)),
        holds_every_term(trim(query), e.comment@) ==> entry_outcome(query, e) matches Some(Some(_)),
        holds_every_term(trim(query), e.id@) ==> entry_outcome(query, e) matches Some(Some(_)),
{
    let q = trim(query);
    let fs = entry_fields(e);
    if holds_every_term(q, e.name@) {
        lemma_one_field_holding_every_term_scores(q, fs, 0);
    }
    if holds_every_term(q, e.keywords@) {
        lemma_one_field_holding_every_term_scores(q, fs, 1);
    }
    if holds_every_term(q, e.comment@) {
        lemma_one_field_holding_every_term_scores(q, fs, 2);
    }
    if holds_every_term(q, e.id@) {
        lemma_one_field_holding_every_term_scores(q, fs, 3);
    }
}

/// An entry whose keywords alone hold the terms of the query (none of them
/// occurs in its name, comment or id) scores the keywords' score for the
/// query plus 85 per term, where nothing leaves the `i64` range.
pub proof fn lemma_entry_score_from_keywords(query: Seq<char>, e: ApplicationEntry)
    requires
        entry_outcome(query, e) is Some,
        holds_every_term(trim(query), e.keywords@),
        absent_from(trim(query), e.name@),
        absent_from(trim(query), e.comment@),
        absent_from(trim(query), e.id@),
    ensures
        entry_outcome(query, e) == Some(
            Some(
                term_score_sum(query_terms(trim(query)), e.keywords@, 0) + 85 * query_terms(
                    trim(query),
                ).len(),
            ),
        ),
{
    let q = trim(query);
    let fs = entry_fields(e);
    assert forall|j: int, i: int|
        0 <= j < query_terms(q).len() && 0 <= i < fs.len() && i != 1 implies #[trigger] term_outcome(
        query_terms(q)[j],
        fs[i].0,
    ) == Some(None::<TermMatch>) by {
        assert(term_outcome(query_terms(q)[j], e.name@) == Some(None::<TermMatch>));
        assert(term_outcome(query_terms(q)[j], e.comment@) == Some(None::<TermMatch>));
        assert(term_outcome(query_terms(q)[j], e.id@) == Some(None::<TermMatch>));
    }
    lemma_score_from_one_field(q, fs, 1);
}

/// An entry whose name alone holds the terms of the query (none of them
/// occurs in its keywords, comment or id) scores the name's score for the
/// query plus 110 per term, where nothing leaves the `i64` range.
pub proof fn lemma_entry_score_from_name(query: Seq<char>, e: ApplicationEntry)
    requires
        entry_outcome(query, e) is Some,
        holds_every_term(trim(query), e.name@),
        absent_from(trim(query), e.keywords@),
        absent_from(trim(query), e.comment@),
        absent_from(trim(query), e.id@),
    ensures
        entry_outcome(query, e) == Some(
            Some(
                term_score_sum(query_terms(trim(query)), e.name@, 0) + 110 * query_terms(
                    trim(query),
                ).len(),
            ),
        ),
{
    let q = trim(query);
    let fs = entry_fields(e);
    assert forall|j: int, i: int|
        0 <= j < query_terms(q).len() && 0 <= i < fs.len() && i != 0 implies #[trigger] term_outcome(
        query_terms(q)[j],
        fs[i].0,
    ) == Some(None::<TermMatch>) by {
        assert(term_outcome(query_terms(q)[j], e.keywords@) == Some(None::<TermMatch>));
        assert(term_outcome(query_terms(q)[j], e.comment@) == Some(None::<TermMatch>));
        assert(term_outcome(query_terms(q)[j], e.id@) == Some(None::<TermMatch>));
    }
    lemma_score_from_one_field(q, fs, 0);
}

/// An entry whose comment alone holds the terms of the query (none of them
/// occurs in its name, keywords, id) scores that text's score for the query plus
/// 45 per term, where nothing leaves the `i64` range.
pub proof fn lemma_entry_score_from_comment(query: Seq<char>, e: ApplicationEntry)
    requires
        entry_outcome(query, e) is Some,
        holds_every_term(trim(query), e.comment@),
        absent_from(trim(query), e.name@),
        absent_from(trim(query), e.keywords@),
        absent_from(trim(query), e.id@),
    ensures
        entry_outcome(query, e) == Some(
            Some(
                term_score_sum(query_terms(trim(query)), e.comment@, 0) + 45 * query_terms(
                    trim(query),
                ).len(),
            ),
        ),
{
    let q = trim(query);
    let fs = entry_fields(e);
    assert forall|j: int, i: int|
        0 <= j < query_terms(q).len() && 0 <= i < fs.len() && i != 2 implies #[trigger] term_outcome(
        query_terms(q)[j],
        fs[i].0,
    ) == Some(None::<TermMatch>) by {
        assert(term_outcome(query_terms(q)[j], e.name@) == Some(None::<TermMatch>));
        assert(term_outcome(query_terms(q)[j], e.keywords@) == Some(None::<TermMatch>));
        assert(term_outcome(query_terms(q)[j], e.id@) == Some(None::<TermMatch>));
    }
    lemma_score_from_one_field(q, fs, 2);
}

/// An entry whose id alone holds the terms of the query (none of them
/// occurs in its name, keywords, comment) scores that text's score for the query plus
/// 30 per term, where nothing leaves the `i64` range.
pub proof fn lemma_entry_score_from_id(query: Seq<char>, e: ApplicationEntry)
    requires
        entry_outcome(query, e) is Some,
        holds_every_term(trim(query), e.id@),
        absent_from(trim(query), e.name@),
        absent_from(trim(query), e.keywords@),
        absent_from(trim(query), e.comment@),
    ensures
        entry_outcome(query, e) == Some(
            Some(
                term_score_sum(query_terms(trim(query)), e.id@, 0) + 30 * query_terms(
                    trim(query),
                ).len(),
            ),
        ),
{
    let q = trim(query);
    let fs = entry_fields(e);
    assert forall|j: int, i: int|
        0 <= j < query_terms(q).len() && 0 <= i < fs.len() && i != 3 implies #[trigger] term_outcome(
        query_terms(q)[j],
        fs[i].0,
    ) == Some(None::<TermMatch>) by {
        assert(term_outcome(query_terms(q)[j], e.name@) == Some(None::<TermMatch>));
        assert(term_outcome(query_terms(q)[j], e.keywords@) == Some(None::<TermMatch>));
        assert(term_outcome(query_terms(q)[j], e.comment@) == Some(None::<TermMatch>));
    }
    lemma_score_from_one_field(q, fs, 3);
}

/// `r` is the result for entry `e` with score `score`.
pub open spec fn describes_entry(r: SearchResult, e: ApplicationEntry, score: int) -> bool {
    &&& r.module_key@ == MODULE_KEY@
    &&& r.item_id@ == e.id@
    &&& r.title@ == e.name@
    &&& r.subtitle@ == if e.comment@.len() == 0 {
        e.id@
    } else {
        e.comment@
    }
    &&& opt_text(r.icon_name) == opt_text(e.icon_name)
    &&& r.kind == MatchKind::Application
    &&& r.actions@.len() == 0
    &&& r.score as int == score
}

/// `c` holds, in the order of `entries`, the result of every entry that the
/// query matches.
pub open spec fn entry_candidates(c: Seq<SearchResult>, query: Seq<char>, entries: Seq<ApplicationEntry>) -> bool
    decreases entries.len(),
{
    if entries.len() == 0 {
        c.len() == 0
    } else {
        match entry_outcome(query, entries.last()) {
            Some(Some(s)) => c.len() > 0 && describes_entry(c.last(), entries.last(), s)
                && entry_candidates(c.drop_last(), query, entries.drop_last()),
            _ => entry_candidates(c, query, entries.drop_last()),
        }
    }
}

fn opt_string_copy(o: &Option<String>) -> (r: Option<String>)
    ensures
        opt_text(r) == opt_text(*o),
{
    match o {
        Some(s) => Some(s.clone()),
        None => None,
    }
}

/// The results for `entries`: every entry that the trimmed query matches by
/// name (bonus 110), keywords (85), comment (45) or id (30), ranked by score,
/// then by title. Fails when a score leaves the `i64` range.
pub fn application_results(query: &str, entries: &[ApplicationEntry]) -> (r: Result<
    Vec<SearchResult>,
    ModuleError,
>)
    ensures
        r is Err <==> exists|i: int|
            0 <= i < entries@.len() && #[trigger] entry_outcome(query@, entries@[i]) is None,
        r matches Err(e) ==> e.message@ == SCORE_RANGE_MESSAGE@,
        r matches Ok(v) ==> exists|c: Seq<SearchResult>|
            entry_candidates(c, query@, entries@) && v@ == sorted_results(ResultOrder::Title, c),
{
    let qc = chars_of(query);
    let qt = trimmed(qc.as_slice());
    let q = string_from_chars(qt.as_slice());
    let mut out: Vec<SearchResult> = Vec::new();
    let n = entries.len();
    let mut k: usize = 0;
    while k < n
        invariant
            n == entries@.len(),
            k <= n,
            q@ == trim(query@),
            entry_candidates(out@, query@, entries@.take(k as int)),
            forall|i: int| 0 <= i < k ==> #[trigger] entry_outcome(query@, entries@[i]) is Some,
        decreases n - k,
    {
        let e = &entries[k];
        let fields: Vec<(&str, i64)> = vec![
            (e.name.as_str(), 110),
            (e.keywords.as_str(), 85),
            (e.comment.as_str(), 45),
            (e.id.as_str(), 30),
        ];
        proof {
            assert(field_views(fields@) =~= entry_fields(*e));
            assert(entries@.take(k + 1).drop_last() =~= entries@.take(k as int));
            assert(entries@.take(k + 1).last() == entries@[k as int]);
        }
        match try_score_fields(q.as_str(), fields.as_slice()) {
            None => {
                proof {
                    assert(entry_outcome(query@, entries@[k as int]) is None);
                }
                return Err(ModuleError::new(String::from_str(SCORE_RANGE_MESSAGE)));
            },
            Some(None) => {},
            Some(Some(score)) => {
                let subtitle = if e.comment.as_str().is_empty() {
                    e.id.clone()
                } else {
                    e.comment.clone()
                };
                let result = SearchResult {
                    module_key: MODULE_KEY,
                    item_id: e.id.clone(),
                    title: e.name.clone(),
                    subtitle,
                    icon_name: opt_string_copy(&e.icon_name),
                    kind: MatchKind::Application,
                    actions: Vec::new(),
                    score,
                };
                let ghost before = out@;
                out.push(result);
                proof {
                    assert(out@.drop_last() =~= before);
                }
            },
        }
        k = k + 1;
    }
    proof {
        assert(entries@.take(n as int) =~= entries@);
    }
    Ok(sort_results(out, ResultOrder::Title))
}

impl<L: ApplicationLauncher> ApplicationsModule<L> {
    /// The entries the module searches.
    pub closed spec fn entries(&self) -> Seq<ApplicationEntry> {
        self.entries@
    }

    /// The launcher that starts applications.
    pub closed spec fn launcher(&self) -> L {
        self.launcher
    }

    pub fn with_entries(entries: Vec<ApplicationEntry>, launcher: L) -> (r: Self)
        ensures
            r.entries() == entries@,
            r.launcher() == launcher,
    {
        ApplicationsModule { entries, launcher }
    }

    /// The entries, as `application_results` ranks them; an error exactly
    /// when the score of some entry does not fit.
    pub open spec fn search_answer(
        &self,
        query: Seq<char>,
        answer: Result<Seq<SearchResult>, ModuleError>,
    ) -> bool {
        &&& answer matches Ok(v) ==> exists|c: Seq<SearchResult>|
            entry_candidates(c, query, self.entries()) && v == sorted_results(ResultOrder::Title, c)
        &&& answer is Err <==> exists|i: int|
            0 <= i < self.entries().len() && #[trigger] entry_outcome(query, self.entries()[i])
                is None
    }

    /// Only the default action is known; it asks the launcher to start
    /// `item_id`, whose error is the error, else the picker closes.
    pub open spec fn launch_answer(
        &self,
        item_id: Seq<char>,
        action_id: Seq<char>,
        answer: Result<ActivationOutcome, ModuleError>,
    ) -> bool {
        if action_id != DEFAULT_ACTION_ID@ {
            answer matches Err(e) && e.message@ == "unknown application action: "@ + action_id
        } else {
            exists|f: Result<(), ModuleError>|
                #![trigger self.launcher().launches(item_id, f)]
                self.launcher().launches(item_id, f) && answer == closes_picker(f)
        }
    }
}

impl<L: ApplicationLauncher> Module for ApplicationsModule<L> {
    open spec fn reports_key(&self, key: Seq<char>) -> bool {
        key == MODULE_KEY@
    }

    open spec fn answers_search(
        &self,
        query: Seq<char>,
        answer: Result<Seq<SearchResult>, ModuleError>,
    ) -> bool {
        self.search_answer(query, answer)
    }

    open spec fn answers_activation(
        &self,
        item_id: Seq<char>,
        action_id: Seq<char>,
        answer: Result<ActivationOutcome, ModuleError>,
    ) -> bool {
        self.launch_answer(item_id, action_id, answer)
    }

    fn key(&self) -> (k: &'static str) {
        MODULE_KEY
    }

    /// The entries, as `application_results` ranks them.
    fn search(&mut self, query: &str) -> (r: Result<Vec<SearchResult>, ModuleError>)
        ensures
            final(self).entries() == old(self).entries(),
            old(self).search_answer(query@, search_view(r)),
    {
        application_results(query, self.entries.as_slice())
    }

    /// Starts the application; only the default action is known.
    fn activate(&mut self, item_id: &str, action_id: &str) -> (r: Result<ActivationOutcome, ModuleError>)
        ensures
            final(self).entries() == old(self).entries(),
            old(self).launch_answer(item_id@, action_id@, r),
    {
        if !str_equal(action_id, DEFAULT_ACTION_ID) {
            return Err(ModuleError::with_detail("unknown application action: ", action_id));
        }
        let f = self.launcher.launch(item_id);
        proof {
            assert(self.launcher().launches(item_id@, f));
        }
        closes_picker_of(f)
    }
}

// ---------------------------------------------------------------------------
// Directories and duplicates
// ---------------------------------------------------------------------------

/// `rel` appended to `base` as a path (`PathBuf::join` with a relative `rel`).
pub open spec fn path_join(base: Seq<char>, rel: Seq<char>) -> Seq<char> {
    if base.len() == 0 {
        rel
    } else if base.last() == '/' {
        base + rel
    } else {
        base + "/"@ + rel
    }
}

pub fn join_path(base: &str, rel: &str) -> (r: String)
    ensures
        r@ == path_join(base@, rel@),
{
    let b = chars_of(base);
    if b.len() == 0 {
        String::from_str(rel)
    } else if b[b.len() - 1] == '/' {
        concat(base, rel)
    } else {
        concat(concat(base, "/").as_str(), rel)
    }
}

/// The user's data directory: `XDG_DATA_HOME`, else `.local/share` in `HOME`.
pub open spec fn data_home_of(home: Option<Seq<char>>, xdg_data_home: Option<Seq<char>>) -> Option<
    Seq<char>,
> {
    match xdg_data_home {
        Some(d) => Some(d),
        None => match home {
            Some(h) => Some(path_join(h, ".local/share"@)),
            None => None,
        },
    }
}

/// The non-empty pieces of `s` between its `:`s.
pub open spec fn colon_list(segs: Seq<Seq<char>>) -> Seq<Seq<char>>
    decreases segs.len(),
{
    if segs.len() == 0 {
        seq![]
    } else if segs.last().len() > 0 {
        colon_list(segs.drop_last()).push(segs.last())
    } else {
        colon_list(segs.drop_last())
    }
}

/// The system data directories: the non-empty entries of `XDG_DATA_DIRS`, or
/// `/usr/local/share` and `/usr/share` when it is unset or empty.
pub open spec fn data_dirs_of(xdg_data_dirs: Option<Seq<char>>) -> Seq<Seq<char>> {
    let v = match xdg_data_dirs {
        Some(d) => if d.len() > 0 {
            d
        } else {
            "/usr/local/share:/usr/share"@
        },
        None => "/usr/local/share:/usr/share"@,
    };
    colon_list(split_on(v, ':'))
}

pub open spec fn opt_str(o: Option<&str>) -> Option<Seq<char>> {
    match o {
        Some(s) => Some(s@),
        None => None,
    }
}

pub open spec fn strings_view(v: Seq<String>) -> Seq<Seq<char>> {
    v.map_values(|s: String| s@)
}

fn data_dirs(xdg_data_dirs: Option<&str>) -> (r: Vec<String>)
    ensures
        strings_view(r@) == data_dirs_of(opt_str(xdg_data_dirs)),
{
    let v: &str = match xdg_data_dirs {
        Some(d) => if d.is_empty() {
            "/usr/local/share:/usr/share"
        } else {
            d
        },
        None => "/usr/local/share:/usr/share",
    };
    let c = chars_of(v);
    let segs = split_at(c.as_slice(), ':');
    let ghost sv = split_on(v@, ':');
    let mut r: Vec<String> = Vec::new();
    let n = segs.len();
    let mut k: usize = 0;
    while k < n
        invariant
            n == sv.len(),
            segs@.len() == n,
            forall|i: int| 0 <= i < n ==> #[trigger] segs@[i]@ == sv[i],
            k <= n,
            strings_view(r@) == colon_list(sv.take(k as int)),
        decreases n - k,
    {
        proof {
            assert(sv.take(k + 1).drop_last() =~= sv.take(k as int));
            assert(sv.take(k + 1).last() == segs@[k as int]@);
        }
        if segs[k].len() > 0 {
            let ghost before = r@;
            r.push(string_from_chars(segs[k].as_slice()));
            proof {
                assert(strings_view(r@) =~= strings_view(before).push(segs@[k as int]@));
            }
        }
        k = k + 1;
    }
    proof {
        assert(sv.take(n as int) =~= sv);
    }
    r
}

/// Each data directory with `sub` appended, in order.
pub open spec fn joined_all(dirs: Seq<Seq<char>>, sub: Seq<char>) -> Seq<Seq<char>> {
    dirs.map_values(|d: Seq<char>| path_join(d, sub))
}

/// Where desktop entries are looked for: `applications` in the user's data
/// directory, then in each system data directory.
pub open spec fn application_dirs_of(
    home: Option<Seq<char>>,
    xdg_data_home: Option<Seq<char>>,
    xdg_data_dirs: Option<Seq<char>>,
) -> Seq<Seq<char>> {
    let user = match data_home_of(home, xdg_data_home) {
        Some(d) => seq![path_join(d, "applications"@)],
        None => seq![],
    };
    user + joined_all(data_dirs_of(xdg_data_dirs), "applications"@)
}

/// The directories that desktop entries are looked for in, from the values
/// of `HOME`, `XDG_DATA_HOME` and `XDG_DATA_DIRS`.
pub fn application_dirs(home: Option<&str>, xdg_data_home: Option<&str>, xdg_data_dirs: Option<&str>) -> (r:
    Vec<String>)
    ensures
        strings_view(r@) == application_dirs_of(
            opt_str(home),
            opt_str(xdg_data_home),
            opt_str(xdg_data_dirs),
        ),
{
    let mut r: Vec<String> = Vec::new();
    match xdg_data_home {
        Some(d) => r.push(join_path(d, "applications")),
        None => match home {
            Some(h) => {
                let d = join_path(h, ".local/share");
                r.push(join_path(d.as_str(), "applications"));
            },
            None => {},
        },
    }
    let ghost user = strings_view(r@);
    let dirs = data_dirs(xdg_data_dirs);
    let ghost dv = strings_view(dirs@);
    let n = dirs.len();
    let start = r.len();
    let mut k: usize = 0;
    while k < n
        invariant
            n == dirs@.len(),
            dv == strings_view(dirs@),
            k <= n,
            strings_view(r@) == user + joined_all(dv.take(k as int), "applications"@),
        decreases n - k,
    {
        let ghost before = r@;
        r.push(join_path(dirs[k].as_str(), "applications"));
        proof {
            assert(dv.take(k + 1) =~= dv.take(k as int).push(dirs@[k as int]@));
            assert(strings_view(r@) =~= strings_view(before).push(path_join(dirs@[k as int]@, "applications"@)));
            assert(joined_all(dv.take(k + 1), "applications"@) =~= joined_all(dv.take(k as int), "applications"@).push(
                path_join(dirs@[k as int]@, "applications"@),
            ));
        }
        k = k + 1;
    }
    proof {
        assert(dv.take(n as int) =~= dv);
    }
    r
}

/// The icon directories to look in before checking which exist: `.icons` in
/// `HOME`, `icons` and `pixmaps` in the user's data directory, then `icons`
/// and `pixmaps` in each system data directory.
pub open spec fn icon_roots_of(
    home: Option<Seq<char>>,
    xdg_data_home: Option<Seq<char>>,
    xdg_data_dirs: Option<Seq<char>>,
) -> Seq<Seq<char>> {
    let from_home = match home {
        Some(h) => seq![path_join(h, ".icons"@)],
        None => seq![],
    };
    let user = match data_home_of(home, xdg_data_home) {
        Some(d) => seq![path_join(d, "icons"@), path_join(d, "pixmaps"@)],
        None => seq![],
    };
    from_home + user + icon_pairs(data_dirs_of(xdg_data_dirs))
}

/// `icons` and `pixmaps` in each directory, in order.
pub open spec fn icon_pairs(dirs: Seq<Seq<char>>) -> Seq<Seq<char>>
    decreases dirs.len(),
{
    if dirs.len() == 0 {
        seq![]
    } else {
        icon_pairs(dirs.drop_last()) + seq![
            path_join(dirs.last(), "icons"@),
            path_join(dirs.last(), "pixmaps"@),
        ]
    }
}

pub fn icon_search_roots(home: Option<&str>, xdg_data_home: Option<&str>, xdg_data_dirs: Option<&str>) -> (r:
    Vec<String>)
    ensures
        strings_view(r@) == icon_roots_of(opt_str(home), opt_str(xdg_data_home), opt_str(xdg_data_dirs)),
{
    let mut r: Vec<String> = Vec::new();
    match home {
        Some(h) => r.push(join_path(h, ".icons")),
        None => {},
    }
    let data_home: Option<String> = match xdg_data_home {
        Some(d) => Some(String::from_str(d)),
        None => match home {
            Some(h) => Some(join_path(h, ".local/share")),
            None => None,
        },
    };
    match &data_home {
        Some(d) => {
            r.push(join_path(d.as_str(), "icons"));
            r.push(join_path(d.as_str(), "pixmaps"));
        },
        None => {},
    }
    let ghost head = strings_view(r@);
    proof {
        let from_home = match opt_str(home) {
            Some(h) => seq![path_join(h, ".icons"@)],
            None => seq![],
        };
        let user = match data_home_of(opt_str(home), opt_str(xdg_data_home)) {
            Some(d) => seq![path_join(d, "icons"@), path_join(d, "pixmaps"@)],
            None => seq![],
        };
        assert(head =~= from_home + user);
    }
    let dirs = data_dirs(xdg_data_dirs);
    let ghost dv = strings_view(dirs@);
    let n = dirs.len();
    let mut k: usize = 0;
    while k < n
        invariant
            n == dirs@.len(),
            dv == strings_view(dirs@),
            k <= n,
            strings_view(r@) == head + icon_pairs(dv.take(k as int)),
        decreases n - k,
    {
        let ghost before = r@;
        r.push(join_path(dirs[k].as_str(), "icons"));
        r.push(join_path(dirs[k].as_str(), "pixmaps"));
        proof {
            assert(dv.take(k + 1).drop_last() =~= dv.take(k as int));
            assert(dv.take(k + 1).last() == dirs@[k as int]@);
            assert(strings_view(r@) =~= strings_view(before) + seq![
                path_join(dirs@[k as int]@, "icons"@),
                path_join(dirs@[k as int]@, "pixmaps"@),
            ]);
        }
        k = k + 1;
    }
    proof {
        assert(dv.take(n as int) =~= dv);
    }
    r
}

/// Whether an entry with id `id` comes among the first `n` of `es`.
pub open spec fn id_among(es: Seq<ApplicationEntry>, id: Seq<char>, n: int) -> bool {
    exists|j: int| 0 <= j < n && #[trigger] es[j].id@ == id
}

/// The entries of `es` whose id did not come earlier, in order.
pub open spec fn first_of_each_id(es: Seq<ApplicationEntry>) -> Seq<ApplicationEntry>
    decreases es.len(),
{
    if es.len() == 0 {
        seq![]
    } else {
        let k = first_of_each_id(es.drop_last());
        if id_among(es, es.last().id@, es.len() - 1) {
            k
        } else {
            k.push(es.last())
        }
    }
}

proof fn lemma_first_of_each_id_ids(es: Seq<ApplicationEntry>, id: Seq<char>)
    ensures
        id_among(es, id, es.len() as int) <==> exists|j: int|
            0 <= j < first_of_each_id(es).len() && #[trigger] first_of_each_id(es)[j].id@ == id,
    decreases es.len(),
{
    if es.len() > 0 {
        let p = es.drop_last();
        lemma_first_of_each_id_ids(p, id);
        let k = first_of_each_id(p);
        assert(id_among(p, id, p.len() as int) == id_among(es, id, es.len() - 1)) by {
            if id_among(p, id, p.len() as int) {
                let j = choose|j: int| 0 <= j < p.len() && #[trigger] p[j].id@ == id;
                assert(es[j].id@ == id);
            }
            if id_among(es, id, es.len() - 1) {
                let j = choose|j: int| 0 <= j < es.len() - 1 && #[trigger] es[j].id@ == id;
                assert(p[j].id@ == id);
            }
        }
        if id_among(es, id, es.len() as int) && !id_among(es, id, es.len() - 1) {
            assert(es.last().id@ == id) by {
                let j = choose|j: int| 0 <= j < es.len() && #[trigger] es[j].id@ == id;
                assert(j == es.len() - 1);
            }
        }
        if !id_among(es, id, es.len() as int) {
            assert(!id_among(es, id, es.len() - 1)) by {
                if id_among(es, id, es.len() - 1) {
                    let j = choose|j: int| 0 <= j < es.len() - 1 && #[trigger] es[j].id@ == id;
                    assert(es[j].id@ == id);
                }
            }
            assert(es[es.len() - 1].id@ != id);
        }
        if id_among(es, es.last().id@, es.len() - 1) {
        } else {
            let k2 = k.push(es.last());
            assert forall|j: int| 0 <= j < k.len() implies #[trigger] k2[j].id@ == k[j].id@ by {}
            if exists|j: int| 0 <= j < k2.len() && #[trigger] k2[j].id@ == id {
                let j = choose|j: int| 0 <= j < k2.len() && #[trigger] k2[j].id@ == id;
                if j < k.len() {
                    assert(k[j].id@ == id);
                }
            }
            if exists|j: int| 0 <= j < k.len() && #[trigger] k[j].id@ == id {
                let j = choose|j: int| 0 <= j < k.len() && #[trigger] k[j].id@ == id;
                assert(k2[j].id@ == id);
            }
            if es.last().id@ == id {
                assert(k2[k.len() as int].id@ == id);
            }
        }
    }
}

/// The entries in order, dropping each whose id came before (the first
/// directory that has an entry id wins).
pub fn dedupe_entries(entries: Vec<ApplicationEntry>) -> (r: Vec<ApplicationEntry>)
    ensures
        r@ == first_of_each_id(entries@),
{
    let ghost orig = entries@;
    let mut input = entries;
    let mut out: Vec<ApplicationEntry> = Vec::new();
    let n = input.len();
    let mut k: usize = 0;
    while k < n
        invariant
            n == orig.len(),
            k <= n,
            input@ == orig.skip(k as int),
            out@ == first_of_each_id(orig.take(k as int)),
        decreases n - k,
    {
        let x = input.remove(0);
        proof {
            assert(orig.take(k + 1).drop_last() =~= orig.take(k as int));
            assert(orig.take(k + 1).last() == x);
            assert(input@ =~= orig.skip(k + 1));
        }
        let mut seen = false;
        let mut j: usize = 0;
        while j < out.len()
            invariant
                j <= out@.len(),
                seen == exists|i: int| 0 <= i < j && #[trigger] out@[i].id@ == x.id@,
            decreases out.len() - j,
        {
            if str_equal(out[j].id.as_str(), x.id.as_str()) {
                seen = true;
            }
            j = j + 1;
        }
        proof {
            lemma_first_of_each_id_ids(orig.take(k as int), x.id@);
            let t = orig.take(k + 1);
            assert(id_among(t, x.id@, k as int) == id_among(orig.take(k as int), x.id@, k as int)) by {
                if id_among(t, x.id@, k as int) {
                    let i = choose|i: int| 0 <= i < k && #[trigger] t[i].id@ == x.id@;
                    assert(orig.take(k as int)[i].id@ == x.id@);
                }
                if id_among(orig.take(k as int), x.id@, k as int) {
                    let i = choose|i: int| 0 <= i < k && #[trigger] orig.take(k as int)[i].id@ == x.id@;
                    assert(t[i].id@ == x.id@);
                }
            }
        }
        if !seen {
            out.push(x);
        }
        k = k + 1;
    }
    proof {
        assert(orig.take(n as int) =~= orig);
    }
    out
}

} // verus!
