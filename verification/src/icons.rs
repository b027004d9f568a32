//! Icon files: which files are icons, how well a file suits as the icon for
//! its name, the index from lower-case icon names to the best file, and how
//! an icon name from a result is resolved to a file.

use vstd::prelude::*;
use crate::text::{
    ascii_lower_text, ascii_lowercase_chars, chars_equal, chars_of, copy_range, digits_value,
    eq_ignore_ascii_case, is_digit, parse_decimal, parse_unsigned, split_at, split_on,
    string_from_chars, trim, trimmed, unsigned_digits,
};

verus! {

/// The most path components an icon file may have. Its score starts at 90 at
/// most and grows by at most 20 per component, and it is an `i32`: past about
/// 107 million components of `apps` it would overflow. This bound keeps it
/// below `i32::MAX` (90 + 20 × 100,000,000 < 2³¹); real paths, at most
/// `PATH_MAX` bytes long, stay far below it.
pub const MAX_ICON_PATH_COMPONENTS: usize = 100_000_000;

broadcast use vstd::string::group_string_axioms;

// ---------------------------------------------------------------------------
// Paths
// ---------------------------------------------------------------------------

/// Whether a piece of a path names something: not empty and not `.`.
pub open spec fn names_something(seg: Seq<char>) -> bool {
    seg.len() > 0 && seg != seq!['.']
}

/// The last piece among `segs` that names something.
pub open spec fn last_named(segs: Seq<Seq<char>>) -> Option<Seq<char>>
    decreases segs.len(),
{
    if segs.len() == 0 {
        None
    } else if names_something(segs.last()) {
        Some(segs.last())
    } else {
        last_named(segs.drop_last())
    }
}

/// The last component of a path, unless it is `..` or there is none
/// (`Path::file_name`).
pub open spec fn file_name_of(path: Seq<char>) -> Option<Seq<char>> {
    match last_named(split_on(path, '/')) {
        Some(n) => if n == seq!['.', '.'] {
            None
        } else {
            Some(n)
        },
        None => None,
    }
}

/// The position of the last `.` in `s` at or before `i`.
pub open spec fn last_dot(s: Seq<char>, i: int) -> Option<int>
    decreases i + 1,
{
    if i < 0 || i >= s.len() {
        None
    } else if s[i] == '.' {
        Some(i)
    } else {
        last_dot(s, i - 1)
    }
}

/// The position of the dot that starts an extension: the last dot of the
/// file name, when it is not its first character.
pub open spec fn extension_dot(name: Seq<char>) -> Option<int> {
    match last_dot(name, name.len() - 1) {
        Some(d) => if d > 0 {
            Some(d)
        } else {
            None
        },
        None => None,
    }
}

/// The file name without its extension (`Path::file_stem`).
pub open spec fn file_stem_of(path: Seq<char>) -> Option<Seq<char>> {
    match file_name_of(path) {
        Some(n) => match extension_dot(n) {
            Some(d) => Some(n.take(d)),
            None => Some(n),
        },
        None => None,
    }
}

/// The extension of the file name (`Path::extension`).
pub open spec fn extension_of(path: Seq<char>) -> Option<Seq<char>> {
    match file_name_of(path) {
        Some(n) => match extension_dot(n) {
            Some(d) => Some(n.skip(d + 1)),
            None => None,
        },
        None => None,
    }
}

proof fn lemma_last_dot(s: Seq<char>, i: int)
    requires
        i < s.len(),
    ensures
        last_dot(s, i) matches Some(d) ==> 0 <= d <= i && s[d] == '.',
    decreases i + 1,
{
    if i >= 0 && s[i] != '.' {
        lemma_last_dot(s, i - 1);
    }
}

/// The last component of a path that names something, `..` included.
fn last_component(path: &[char]) -> (r: Option<Vec<char>>)
    ensures
        match r {
            Some(v) => last_named(split_on(path@, '/')) == Some(v@),
            None => last_named(split_on(path@, '/')) is None,
        },
{
    let n = path.len();
    let mut cur: Vec<char> = Vec::new();
    let mut last: Option<Vec<char>> = None;
    let mut k: usize = 0;
    proof {
        assert(path@.take(0) =~= Seq::<char>::empty());
        assert(split_on(Seq::<char>::empty(), '/').drop_last() =~= Seq::<Seq<char>>::empty());
    }
    while k < n
        invariant
            n == path@.len(),
            k <= n,
            split_on(path@.take(k as int), '/').len() >= 1,
            cur@ == split_on(path@.take(k as int), '/').last(),
            match last {
                Some(v) => last_named(split_on(path@.take(k as int), '/').drop_last()) == Some(v@),
                None => last_named(split_on(path@.take(k as int), '/').drop_last()) is None,
            },
        decreases n - k,
    {
        let c = path[k];
        let ghost p = split_on(path@.take(k as int), '/');
        proof {
            assert(path@.take(k + 1).drop_last() =~= path@.take(k as int));
            assert(path@.take(k + 1).last() == c);
        }
        if c == '/' {
            proof {
                assert(split_on(path@.take(k + 1), '/') == p.push(seq![]));
                assert(p.push(seq![]).drop_last() =~= p);
            }
            if cur.len() > 0 && !(cur.len() == 1 && cur[0] == '.') {
                proof {
                    assert(names_something(cur@)) by {
                        if cur@ == seq!['.'] {
                            assert(cur@.len() == 1 && cur@[0] == '.');
                        }
                    }
                }
                last = Some(cur);
            } else {
                proof {
                    assert(!names_something(cur@)) by {
                        if cur@.len() == 1 && cur@[0] == '.' {
                            assert(cur@ =~= seq!['.']);
                        }
                    }
                }
            }
            cur = Vec::new();
        } else {
            proof {
                assert(split_on(path@.take(k + 1), '/') == p.update(p.len() - 1, p.last().push(c)));
                assert(p.update(p.len() - 1, p.last().push(c)).drop_last() =~= p.drop_last());
            }
            cur.push(c);
        }
        k = k + 1;
    }
    proof {
        assert(path@.take(n as int) =~= path@);
        let p = split_on(path@, '/');
        assert(p.drop_last().push(p.last()) =~= p);
    }
    if cur.len() > 0 && !(cur.len() == 1 && cur[0] == '.') {
        proof {
            assert(names_something(cur@)) by {
                if cur@ == seq!['.'] {
                    assert(cur@.len() == 1 && cur@[0] == '.');
                }
            }
        }
        Some(cur)
    } else {
        proof {
            assert(!names_something(cur@)) by {
                if cur@.len() == 1 && cur@[0] == '.' {
                    assert(cur@ =~= seq!['.']);
                }
            }
        }
        last
    }
}

/// The file name of a path.
pub fn file_name(path: &[char]) -> (r: Option<Vec<char>>)
    ensures
        match r {
            Some(v) => file_name_of(path@) == Some(v@),
            None => file_name_of(path@) is None,
        },
{
    match last_component(path) {
        Some(v) => {
            if v.len() == 2 && v[0] == '.' && v[1] == '.' {
                proof {
                    assert(v@ =~= seq!['.', '.']);
                }
                None
            } else {
                proof {
                    if v@ == seq!['.', '.'] {
                        assert(v@.len() == 2 && v@[0] == '.' && v@[1] == '.');
                    }
                }
                Some(v)
            }
        },
        None => None,
    }
}

fn find_extension_dot(name: &[char]) -> (r: Option<usize>)
    ensures
        match r {
            Some(d) => extension_dot(name@) == Some(d as int),
            None => extension_dot(name@) is None,
        },
{
    let n = name.len();
    let mut i: usize = n;
    while i > 0
        invariant
            n == name@.len(),
            i <= n,
            last_dot(name@, n - 1) == last_dot(name@, i - 1),
        decreases i,
    {
        if name[i - 1] == '.' {
            if i - 1 > 0 {
                return Some(i - 1);
            } else {
                return None;
            }
        }
        i = i - 1;
    }
    None
}

/// The file stem of a path.
pub fn file_stem(path: &[char]) -> (r: Option<Vec<char>>)
    ensures
        match r {
            Some(v) => file_stem_of(path@) == Some(v@),
            None => file_stem_of(path@) is None,
        },
{
    match file_name(path) {
        Some(n) => match find_extension_dot(n.as_slice()) {
            Some(d) => {
                proof {
                    lemma_last_dot(n@, n@.len() - 1);
                }
                let stem = copy_range(n.as_slice(), 0, d);
                proof {
                    assert(stem@ =~= n@.take(d as int));
                }
                Some(stem)
            },
            None => Some(n),
        },
        None => None,
    }
}

/// The extension of a path.
pub fn extension(path: &[char]) -> (r: Option<Vec<char>>)
    ensures
        match r {
            Some(v) => extension_of(path@) == Some(v@),
            None => extension_of(path@) is None,
        },
{
    match file_name(path) {
        Some(n) => match find_extension_dot(n.as_slice()) {
            Some(d) => {
                proof {
                    lemma_last_dot(n@, n@.len() - 1);
                }
                let ext = copy_range(n.as_slice(), d + 1, n.len());
                proof {
                    assert(ext@ =~= n@.skip(d + 1));
                }
                Some(ext)
            },
            None => None,
        },
        None => None,
    }
}

// ---------------------------------------------------------------------------
// Icon files
// ---------------------------------------------------------------------------

/// How an icon file is drawn.
#[derive(Clone, Copy, Debug, Eq, PartialEq, Structural)]
pub enum IconFormat {
    Raster,
    Svg,
}

/// The format of an icon file by its extension, ignoring ASCII case.
pub open spec fn icon_format_of(path: Seq<char>) -> Option<IconFormat> {
    match extension_of(path) {
        Some(e) => {
            let l = ascii_lower_text(e);
            if l == "png"@ || l == "jpg"@ || l == "jpeg"@ || l == "gif"@ || l == "webp"@ || l
                == "bmp"@ || l == "ico"@ || l == "tif"@ || l == "tiff"@ {
                Some(IconFormat::Raster)
            } else if l == "svg"@ {
                Some(IconFormat::Svg)
            } else {
                None
            }
        },
        None => None,
    }
}

fn is_text(v: &[char], lit: &str) -> (r: bool)
    ensures
        r == (v@ == lit@),
{
    let l = chars_of(lit);
    chars_equal(v, l.as_slice())
}

/// The format of an icon file.
pub fn icon_format(path: &str) -> (r: Option<IconFormat>)
    ensures
        r == icon_format_of(path@),
{
    let p = chars_of(path);
    let e = match extension(p.as_slice()) {
        Some(e) => e,
        None => {
            return None;
        },
    };
    let l = ascii_lowercase_chars(e.as_slice());
    let l = l.as_slice();
    if is_text(l, "png") || is_text(l, "jpg") || is_text(l, "jpeg") || is_text(l, "gif") || is_text(
        l,
        "webp",
    ) || is_text(l, "bmp") || is_text(l, "ico") || is_text(l, "tif") || is_text(l, "tiff") {
        Some(IconFormat::Raster)
    } else if is_text(l, "svg") {
        Some(IconFormat::Svg)
    } else {
        None
    }
}

/// What `str::parse::<i32>` gives: an optional sign, then one or more ASCII
/// digits, in range.
pub open spec fn parse_i32(s: Seq<char>) -> Option<int> {
    if s.len() > 0 && s[0] == '-' {
        let d = s.drop_first();
        if d.len() > 0 && (forall|i: int| 0 <= i < d.len() ==> is_digit(#[trigger] d[i]))
            && digits_value(d) <= 2147483648 {
            Some(-(digits_value(d) as int))
        } else {
            None
        }
    } else {
        match parse_unsigned(s, i32::MAX as nat) {
            Some(v) => Some(v as int),
            None => None,
        }
    }
}

fn parse_i32_chars(s: &[char]) -> (r: Option<i32>)
    ensures
        match r {
            Some(v) => parse_i32(s@) == Some(v as int),
            None => parse_i32(s@) is None,
        },
{
    if s.len() > 0 && s[0] == '-' {
        let d = copy_range(s, 1, s.len());
        proof {
            assert(d@ =~= s@.drop_first());
        }
        if d.len() == 0 || d[0] == '+' {
            proof {
                if d@.len() > 0 {
                    assert(!is_digit(d@[0]));
                }
            }
            return None;
        }
        proof {
            assert(unsigned_digits(d@) == d@);
        }
        match parse_decimal(d.as_slice(), 2147483648u64) {
            Some(v) => Some((0 - (v as i64)) as i32),
            None => None,
        }
    } else {
        match parse_decimal(s, 2147483647u64) {
            Some(v) => Some(v as i32),
            None => None,
        }
    }
}

/// The leading ASCII digits of `s`.
pub open spec fn digit_prefix(s: Seq<char>) -> Seq<char>
    decreases s.len(),
{
    if s.len() > 0 && is_digit(s[0]) {
        seq![s[0]] + digit_prefix(s.drop_first())
    } else {
        seq![]
    }
}

/// The size in the name of an icon theme directory such as `32x32` or
/// `48x48@2`: the width before the first `x`, when the digits after it give
/// the same height.
pub open spec fn directory_size(c: Seq<char>) -> Option<int> {
    match crate::text::index_of(c, 'x', 0) {
        Some(i) => match parse_i32(c.take(i)) {
            Some(w) => match parse_i32(digit_prefix(c.skip(i + 1))) {
                Some(h) => if w == h {
                    Some(w)
                } else {
                    None
                },
                None => None,
            },
            None => None,
        },
        None => None,
    }
}

fn leading_digits(s: &[char]) -> (r: Vec<char>)
    ensures
        r@ == digit_prefix(s@),
{
    let n = s.len();
    let mut k: usize = 0;
    while k < n && '0' <= s[k] && s[k] <= '9'
        invariant
            n == s@.len(),
            k <= n,
            forall|j: int| 0 <= j < k ==> is_digit(#[trigger] s@[j]),
        decreases n - k,
    {
        k = k + 1;
    }
    let r = copy_range(s, 0, k);
    proof {
        lemma_digit_prefix(s@, k as int);
    }
    r
}

proof fn lemma_digit_prefix(s: Seq<char>, k: int)
    requires
        0 <= k <= s.len(),
        forall|j: int| 0 <= j < k ==> is_digit(#[trigger] s[j]),
        k == s.len() || !is_digit(s[k]),
    ensures
        digit_prefix(s) == s.subrange(0, k),
    decreases k,
{
    if k == 0 {
        assert(s.subrange(0, 0) =~= Seq::<char>::empty());
    } else {
        assert forall|j: int| 0 <= j < k - 1 implies is_digit(#[trigger] s.drop_first()[j]) by {
            assert(s.drop_first()[j] == s[j + 1]);
        }
        lemma_digit_prefix(s.drop_first(), k - 1);
        assert(seq![s[0]] + s.drop_first().subrange(0, k - 1) =~= s.subrange(0, k));
    }
}

/// The size named by an icon theme directory.
pub fn icon_directory_size(component: &[char]) -> (r: Option<i32>)
    ensures
        match r {
            Some(v) => directory_size(component@) == Some(v as int),
            None => directory_size(component@) is None,
        },
{
    let i = match crate::text::find_char(component, 'x') {
        Some(i) => i,
        None => {
            return None;
        },
    };
    proof {
        crate::text::lemma_index_of(component@, 'x', 0);
        assert(i < component@.len());
    }
    let width_text = copy_range(component, 0, i);
    let len = component.len();
    assert(i < len);
    let start = i + 1;
    let rest = copy_range(component, start, len);
    proof {
        assert(width_text@ =~= component@.take(i as int));
        assert(rest@ =~= component@.skip(i + 1));
    }
    let width = match parse_i32_chars(width_text.as_slice()) {
        Some(w) => w,
        None => {
            return None;
        },
    };
    let height_text = leading_digits(rest.as_slice());
    let height = match parse_i32_chars(height_text.as_slice()) {
        Some(h) => h,
        None => {
            return None;
        },
    };
    if width == height {
        Some(width)
    } else {
        None
    }
}

/// What one directory of an icon's path adds to its score: 20 for `apps`,
/// 18 for `scalable`, and up to 18 for a size, the more the closer it is to 32.
pub open spec fn segment_bonus(seg: Seq<char>) -> int {
    if eq_ignore_ascii_case(seg, "apps"@) {
        20
    } else if eq_ignore_ascii_case(seg, "scalable"@) {
        18
    } else {
        match directory_size(seg) {
            Some(size) => {
                let d = if size >= 32 {
                    size - 32
                } else {
                    32 - size
                };
                18 - if d < 18 {
                    d
                } else {
                    18
                }
            },
            None => 0,
        }
    }
}

/// The sum of the bonuses of the first `n` pieces.
pub open spec fn bonus_sum(segs: Seq<Seq<char>>, n: int) -> int
    decreases n,
{
    if n <= 0 {
        0
    } else {
        bonus_sum(segs, n - 1) + segment_bonus(segs[n - 1])
    }
}

/// How well an icon file suits: 90 for SVG and 70 for raster images, less
/// the position of its search root (at most 20), plus the bonuses of the
/// pieces of its path.
pub open spec fn icon_score(path: Seq<char>, format: IconFormat, root_index: int) -> int {
    let base = match format {
        IconFormat::Svg => 90int,
        IconFormat::Raster => 70int,
    };
    let penalty = if root_index < 20 {
        root_index
    } else {
        20
    };
    let segs = split_on(path, '/');
    base - penalty + bonus_sum(segs, segs.len() as int)
}

proof fn lemma_segment_bonus_range(seg: Seq<char>)
    ensures
        0 <= segment_bonus(seg) <= 20,
{
}

proof fn lemma_bonus_sum_range(segs: Seq<Seq<char>>, n: int)
    requires
        0 <= n,
    ensures
        0 <= bonus_sum(segs, n) <= 20 * n,
    decreases n,
{
    if n > 0 {
        lemma_bonus_sum_range(segs, n - 1);
        lemma_segment_bonus_range(segs[n - 1]);
    }
}

fn bonus_of(seg: &[char]) -> (r: i32)
    ensures
        r as int == segment_bonus(seg@),
{
    let lower = ascii_lowercase_chars(seg);
    proof {
        assert(ascii_lower_text("apps"@) =~= "apps"@) by {
            reveal_strlit("apps");
        }
        assert(ascii_lower_text("scalable"@) =~= "scalable"@) by {
            reveal_strlit("scalable");
        }
    }
    if is_text(lower.as_slice(), "apps") {
        20
    } else if is_text(lower.as_slice(), "scalable") {
        18
    } else {
        match icon_directory_size(seg) {
            Some(size) => {
                let d: i64 = if size >= 32 {
                    size as i64 - 32
                } else {
                    32 - size as i64
                };
                let capped: i64 = if d < 18 {
                    d
                } else {
                    18
                };
                (18 - capped) as i32
            },
            None => 0,
        }
    }
}

/// How well `path` suits as an icon in the given format, found under the
/// search root at position `root_index`.
pub fn icon_candidate_score(path: &str, format: IconFormat, root_index: usize) -> (r: i32)
    requires
        split_on(path@, '/').len() <= MAX_ICON_PATH_COMPONENTS,
    ensures
        r as int == icon_score(path@, format, root_index as int),
{
    let p = chars_of(path);
    let segs = split_at(p.as_slice(), '/');
    let ghost sv = split_on(path@, '/');
    let base: i32 = match format {
        IconFormat::Svg => 90,
        IconFormat::Raster => 70,
    };
    let penalty: i32 = if root_index < 20 {
        root_index as i32
    } else {
        20
    };
    let mut score: i32 = base - penalty;
    let n = segs.len();
    let mut k: usize = 0;
    while k < n
        invariant
            n == sv.len(),
            n <= MAX_ICON_PATH_COMPONENTS,
            segs@.len() == n,
            forall|i: int| 0 <= i < n ==> #[trigger] segs@[i]@ == sv[i],
            k <= n,
            score as int == base - penalty + bonus_sum(sv, k as int),
            50 <= base - penalty <= 90,
        decreases n - k,
    {
        proof {
            lemma_bonus_sum_range(sv, k + 1);
        }
        let b = bonus_of(segs[k].as_slice());
        score = score + b;
        k = k + 1;
    }
    score
}

/// The format and score of a file that is an icon.
pub fn icon_candidate(path: &str, root_index: usize) -> (r: Option<(IconFormat, i32)>)
    requires
        split_on(path@, '/').len() <= MAX_ICON_PATH_COMPONENTS,
    ensures
        match icon_format_of(path@) {
            Some(f) => r matches Some(c) && c.0 == f && c.1 as int == icon_score(
                path@,
                f,
                root_index as int,
            ),
            None => r is None,
        },
{
    match icon_format(path) {
        Some(f) => Some((f, icon_candidate_score(path, f, root_index))),
        None => None,
    }
}

// ---------------------------------------------------------------------------
// The icon index
// ---------------------------------------------------------------------------

/// The position at or after `from` of the first entry with key `key`.
pub open spec fn key_position(entries: Seq<(Seq<char>, Seq<char>, int)>, key: Seq<char>, from: int) -> Option<
    int,
>
    decreases entries.len() - from,
{
    if from < 0 || from >= entries.len() {
        None
    } else if entries[from].0 == key {
        Some(from)
    } else {
        key_position(entries, key, from + 1)
    }
}

proof fn lemma_key_position(entries: Seq<(Seq<char>, Seq<char>, int)>, key: Seq<char>, from: int)
    requires
        0 <= from,
    ensures
        key_position(entries, key, from) matches Some(k) ==> from <= k < entries.len()
            && entries[k].0 == key,
        key_position(entries, key, from) is None ==> forall|k: int|
            from <= k < entries.len() ==> entries[k].0 != key,
    decreases entries.len() - from,
{
    if from < entries.len() && entries[from].0 != key {
        lemma_key_position(entries, key, from + 1);
    }
}

/// The best icon file for each lower-case icon name, with its score.
#[derive(Clone, Debug)]
pub struct IconIndex {
    entries: Vec<(String, String, i32)>,
}

/// The entries after offering `path` with `score` under `key`: a new key is
/// added, and a known key takes the file only when it scores strictly more.
pub open spec fn offered(
    entries: Seq<(Seq<char>, Seq<char>, int)>,
    key: Seq<char>,
    path: Seq<char>,
    score: int,
) -> Seq<(Seq<char>, Seq<char>, int)> {
    match key_position(entries, key, 0) {
        Some(k) => if score > entries[k].2 {
            entries.update(k, (key, path, score))
        } else {
            entries
        },
        None => entries.push((key, path, score)),
    }
}

/// The entries after adding the icon file `path` found under the search root
/// at `root_index`: an icon file is offered under its lower-case file name
/// and its lower-case file stem.
pub open spec fn with_icon_file(
    entries: Seq<(Seq<char>, Seq<char>, int)>,
    path: Seq<char>,
    root_index: int,
) -> Seq<(Seq<char>, Seq<char>, int)> {
    match icon_format_of(path) {
        Some(f) => {
            let score = icon_score(path, f, root_index);
            let e1 = match file_name_of(path) {
                Some(n) => offered(entries, ascii_lower_text(n), path, score),
                None => entries,
            };
            match file_stem_of(path) {
                Some(st) => offered(e1, ascii_lower_text(st), path, score),
                None => e1,
            }
        },
        None => entries,
    }
}

/// The file for lower-case icon name `key`.
pub open spec fn indexed_path(entries: Seq<(Seq<char>, Seq<char>, int)>, key: Seq<char>) -> Option<Seq<char>> {
    match key_position(entries, key, 0) {
        Some(k) => Some(entries[k].1),
        None => None,
    }
}

/// How an icon name is looked up: trimmed, then by its lower-case file name,
/// then by its lower-case file stem (each the whole name when the name has
/// none); a blank name has no icon.
pub open spec fn resolved(entries: Seq<(Seq<char>, Seq<char>, int)>, icon_name: Seq<char>) -> Option<
    Seq<char>,
> {
    let t = trim(icon_name);
    if t.len() == 0 {
        None
    } else {
        let name = match file_name_of(t) {
            Some(n) => n,
            None => t,
        };
        let stem = match file_stem_of(t) {
            Some(s) => s,
            None => t,
        };
        match indexed_path(entries, ascii_lower_text(name)) {
            Some(p) => Some(p),
            None => indexed_path(entries, ascii_lower_text(stem)),
        }
    }
}

impl IconIndex {
    /// The entries: lower-case name, file, score.
    pub closed spec fn entries(&self) -> Seq<(Seq<char>, Seq<char>, int)> {
        self.entries@.map_values(|e: (String, String, i32)| (e.0@, e.1@, e.2 as int))
    }

    pub fn new() -> (r: Self)
        ensures
            r.entries() == Seq::<(Seq<char>, Seq<char>, int)>::empty(),
    {
        let r = IconIndex { entries: Vec::new() };
        proof {
            assert(r.entries() =~= Seq::<(Seq<char>, Seq<char>, int)>::empty());
        }
        r
    }

    fn position(&self, key: &[char]) -> (r: Option<usize>)
        ensures
            match r {
                Some(k) => key_position(self.entries(), key@, 0) == Some(k as int),
                None => key_position(self.entries(), key@, 0) is None,
            },
    {
        let n = self.entries.len();
        let mut k: usize = 0;
        while k < n
            invariant
                n == self.entries@.len(),
                k <= n,
                key_position(self.entries(), key@, 0) == key_position(self.entries(), key@, k as int),
            decreases n - k,
        {
            let c = chars_of(self.entries[k].0.as_str());
            proof {
                assert(self.entries()[k as int].0 == self.entries@[k as int].0@);
            }
            if chars_equal(c.as_slice(), key) {
                return Some(k);
            }
            k = k + 1;
        }
        None
    }

    /// Offers `path` with `score` for the lower-case name `key`.
    pub fn index_icon_candidate(&mut self, key: &[char], path: &str, score: i32)
        ensures
            final(self).entries() == offered(old(self).entries(), key@, path@, score as int),
    {
        let ghost before = self.entries();
        match self.position(key) {
            Some(k) => {
                proof {
                    lemma_key_position(before, key@, 0);
                }
                if score > self.entries[k].2 {
                    self.entries.set(k, (string_from_chars(key), String::from_str(path), score));
                    proof {
                        assert(self.entries() =~= before.update(k as int, (key@, path@, score as int)));
                    }
                }
            },
            None => {
                self.entries.push((string_from_chars(key), String::from_str(path), score));
                proof {
                    assert(self.entries() =~= before.push((key@, path@, score as int)));
                }
            },
        }
    }

    /// Adds a file found under the search root at `root_index`, when it is an icon.
    pub fn add_icon_file(&mut self, path: &str, root_index: usize)
        requires
            split_on(path@, '/').len() <= MAX_ICON_PATH_COMPONENTS,
        ensures
            final(self).entries() == with_icon_file(old(self).entries(), path@, root_index as int),
    {
        let (format, score) = match icon_candidate(path, root_index) {
            Some(c) => c,
            None => {
                return;
            },
        };
        let p = chars_of(path);
        match file_name(p.as_slice()) {
            Some(n) => {
                let key = ascii_lowercase_chars(n.as_slice());
                self.index_icon_candidate(key.as_slice(), path, score);
            },
            None => {},
        }
        match file_stem(p.as_slice()) {
            Some(st) => {
                let key = ascii_lowercase_chars(st.as_slice());
                self.index_icon_candidate(key.as_slice(), path, score);
            },
            None => {},
        }
    }

    fn lookup(&self, key: &[char]) -> (r: Option<String>)
        ensures
            match r {
                Some(p) => indexed_path(self.entries(), key@) == Some(p@),
                None => indexed_path(self.entries(), key@) is None,
            },
    {
        match self.position(key) {
            Some(k) => {
                proof {
                    lemma_key_position(self.entries(), key@, 0);
                    assert(self.entries()[k as int].1 == self.entries@[k as int].1@);
                }
                Some(self.entries[k].1.clone())
            },
            None => None,
        }
    }

    /// The icon file for `icon_name`.
    pub fn resolve(&self, icon_name: &str) -> (r: Option<String>)
        ensures
            match r {
                Some(p) => resolved(self.entries(), icon_name@) == Some(p@),
                None => resolved(self.entries(), icon_name@) is None,
            },
    {
        let c = chars_of(icon_name);
        let t = trimmed(c.as_slice());
        if t.len() == 0 {
            return None;
        }
        let name = match file_name(t.as_slice()) {
            Some(n) => n,
            None => copy_range(t.as_slice(), 0, t.len()),
        };
        let stem = match file_stem(t.as_slice()) {
            Some(s) => s,
            None => copy_range(t.as_slice(), 0, t.len()),
        };
        proof {
            assert(t@.subrange(0, t@.len() as int) =~= t@);
        }
        let name_key = ascii_lowercase_chars(name.as_slice());
        match self.lookup(name_key.as_slice()) {
            Some(p) => Some(p),
            None => {
                let stem_key = ascii_lowercase_chars(stem.as_slice());
                self.lookup(stem_key.as_slice())
            },
        }
    }
}

/// The entries after offering each of `offers` (name, file, score) in turn.
pub open spec fn offered_all(offers: Seq<(Seq<char>, Seq<char>, int)>) -> Seq<(Seq<char>, Seq<char>, int)>
    decreases offers.len(),
{
    if offers.len() == 0 {
        seq![]
    } else {
        let o = offers.last();
        offered(offered_all(offers.drop_last()), o.0, o.1, o.2)
    }
}

/// Among the first `n` offers for `key`, the first file with the highest score.
pub open spec fn best_offer(offers: Seq<(Seq<char>, Seq<char>, int)>, key: Seq<char>, n: int) -> Option<
    (Seq<char>, int),
>
    decreases n,
{
    if n <= 0 {
        None
    } else {
        let b = best_offer(offers, key, n - 1);
        let o = offers[n - 1];
        if o.0 != key {
            b
        } else {
            match b {
                None => Some((o.1, o.2)),
                Some(c) => if o.2 > c.1 {
                    Some((o.1, o.2))
                } else {
                    b
                },
            }
        }
    }
}

proof fn lemma_key_position_update(
    e: Seq<(Seq<char>, Seq<char>, int)>,
    k: int,
    v: (Seq<char>, Seq<char>, int),
    key: Seq<char>,
    from: int,
)
    requires
        0 <= from,
        0 <= k < e.len(),
        v.0 == e[k].0,
    ensures
        key_position(e.update(k, v), key, from) == key_position(e, key, from),
    decreases e.len() - from,
{
    if from < e.len() && e.update(k, v)[from].0 != key {
        lemma_key_position_update(e, k, v, key, from + 1);
    }
}

proof fn lemma_key_position_push(
    e: Seq<(Seq<char>, Seq<char>, int)>,
    v: (Seq<char>, Seq<char>, int),
    key: Seq<char>,
    from: int,
)
    requires
        0 <= from <= e.len(),
    ensures
        key_position(e.push(v), key, from) == match key_position(e, key, from) {
            Some(k) => Some(k),
            None => if v.0 == key {
                Some(e.len() as int)
            } else {
                None
            },
        },
    decreases e.len() - from,
{
    let f = e.push(v);
    if from < e.len() {
        assert(f[from] == e[from]);
        if e[from].0 != key {
            lemma_key_position_push(e, v, key, from + 1);
        }
    } else {
        assert(f[from] == v);
        assert(key_position(f, key, from + 1) is None);
    }
}

/// The index holds, for each name, the first of the highest-scoring files
/// offered for it, and nothing for a name never offered.
pub proof fn lemma_index_keeps_best(offers: Seq<(Seq<char>, Seq<char>, int)>, key: Seq<char>)
    ensures
        match key_position(offered_all(offers), key, 0) {
            Some(k) => best_offer(offers, key, offers.len() as int) == Some(
                (offered_all(offers)[k].1, offered_all(offers)[k].2),
            ),
            None => best_offer(offers, key, offers.len() as int) is None,
        },
    decreases offers.len(),
{
    if offers.len() > 0 {
        let p = offers.drop_last();
        let o = offers.last();
        let e = offered_all(p);
        lemma_index_keeps_best(p, key);
        assert forall|j: int| 0 <= j < p.len() implies #[trigger] p[j] == offers[j] by {}
        assert(best_offer(p, key, p.len() as int) == best_offer(offers, key, p.len() as int)) by {
            lemma_best_offer_prefix(offers, key, p.len() as int);
        }
        lemma_key_position(e, o.0, 0);
        lemma_key_position(e, key, 0);
        match key_position(e, o.0, 0) {
            Some(k) => {
                if o.2 > e[k].2 {
                    lemma_key_position_update(e, k, (o.0, o.1, o.2), key, 0);
                }
            },
            None => {
                lemma_key_position_push(e, (o.0, o.1, o.2), key, 0);
            },
        }
    }
}

proof fn lemma_best_offer_prefix(offers: Seq<(Seq<char>, Seq<char>, int)>, key: Seq<char>, n: int)
    requires
        0 <= n < offers.len(),
    ensures
        best_offer(offers.drop_last(), key, n) == best_offer(offers, key, n),
    decreases n,
{
    if n > 0 {
        lemma_best_offer_prefix(offers, key, n - 1);
    }
}

/// Whether a path names an existing file (`Path::is_file`). Nothing is
/// claimed of the answer, which depends on the disk.
#[verifier::external_body]
fn path_is_file(path: &str) -> bool {
    std::path::Path::new(path).is_file()
}

/// Whether an icon name is itself the absolute path of an icon file.
pub open spec fn explicit_icon_candidate(name: Seq<char>) -> bool {
    name.len() > 0 && name[0] == '/' && icon_format_of(name) is Some
}

/// Where the trimmed icon name `t` leads once it is known whether a file of
/// that name exists (`is_file`): the name itself when it is the absolute path
/// of an icon file that exists; otherwise the index's file, and none while
/// the index is not loaded yet.
pub open spec fn chosen_icon_path(t: Seq<char>, icon_index: Option<&IconIndex>, is_file: bool) -> Option<
    Seq<char>,
> {
    if explicit_icon_candidate(t) && is_file {
        Some(t)
    } else {
        match icon_index {
            Some(ix) => resolved(ix.entries(), t),
            None => None,
        }
    }
}

/// The icon file for the trimmed icon name `name`, given whether a file of
/// that name exists, as `chosen_icon_path` says.
pub fn choose_icon_path(name: String, icon_index: Option<&IconIndex>, is_file: bool) -> (r: Option<String>)
    requires
        trim(name@) == name@,
    ensures
        match r {
            Some(p) => chosen_icon_path(name@, icon_index, is_file) == Some(p@),
            None => chosen_icon_path(name@, icon_index, is_file) is None,
        },
{
    if is_file && is_explicit_icon_candidate(name.as_str()) {
        return Some(name);
    }
    match icon_index {
        Some(ix) => ix.resolve(name.as_str()),
        None => None,
    }
}

/// Whether `name` is the absolute path of a file with an icon extension.
pub fn is_explicit_icon_candidate(name: &str) -> (r: bool)
    ensures
        r == explicit_icon_candidate(name@),
{
    let c = chars_of(name);
    c.len() > 0 && c[0] == '/' && icon_format(name).is_some()
}

/// The icon file for a result's icon name: none for a blank name; the name
/// itself when it is the absolute path of an existing icon file; otherwise
/// the index's file, and none while the index is not loaded yet.
pub fn resolve_icon_path(icon_name: Option<&str>, icon_index: Option<&IconIndex>) -> (r: Option<String>)
    ensures
        match icon_name {
            None => r is None,
            Some(n) => {
                let t = trim(n@);
                if t.len() == 0 {
                    r is None
                } else {
                    let from_index = match icon_index {
                        Some(ix) => resolved(ix.entries(), t),
                        None => None,
                    };
                    let found = match r {
                        Some(p) => Some(p@),
                        None => None,
                    };
                    ||| found == from_index
                    ||| explicit_icon_candidate(t) && found == Some(t)
                }
            },
        },
{
    let n = match icon_name {
        Some(n) => n,
        None => {
            return None;
        },
    };
    let c = chars_of(n);
    let t = trimmed(c.as_slice());
    if t.len() == 0 {
        return None;
    }
    let name = string_from_chars(t.as_slice());
    proof {
        assert(trim(t@) == t@) by {
            crate::text::lemma_trim_idempotent(n@);
        }
    }
    let is_file = is_explicit_icon_candidate(name.as_str()) && path_is_file(name.as_str());
    choose_icon_path(name, icon_index, is_file)
}

} // verus!
