use vstd::prelude::*;

use crate::markdown::chars::char_is_whitespace;
use crate::markdown::chars::unicode_whitespace;
use crate::markdown::lines::lead_ws;
use crate::markdown::lines::lines_of;
use crate::markdown::lines::lines_view;
use crate::markdown::lines::split_lines;
use crate::text::chars_of;
use crate::text::push_char;
use crate::text::starts_with;

verus! {

/// The environment variable that names the browser executable to use.
pub const CHROME_ENV_VAR: &'static str = "PWR_VIEWGEN_CHROME";

/// Browser executable names looked up in each `PATH` directory, in order.
pub const BARE_NAMES: [&'static str; 4] = [
    "chromium",
    "chromium-browser",
    "google-chrome-stable",
    "google-chrome",
];

/// Well-known browser locations tried after `PATH`, in order.
pub const ABSOLUTE_PATHS: [&'static str; 11] = [
    "/usr/bin/chromium",
    "/usr/bin/chromium-browser",
    "/usr/bin/google-chrome-stable",
    "/usr/bin/google-chrome",
    "/usr/local/bin/chromium",
    "/usr/local/bin/google-chrome-stable",
    "/snap/bin/chromium",
    "/opt/google/chrome/chrome",
    "/Applications/Google Chrome.app/Contents/MacOS/Google Chrome",
    "/Applications/Chromium.app/Contents/MacOS/Chromium",
    "C:\\Program Files\\Google\\Chrome\\Application\\chrome.exe",
];

/// Why a screenshot could not be taken.
#[derive(Debug)]
pub enum ShotError {
    NotFound { tried: Vec<String> },
    Other(String),
}

/// Texts joined by line breaks.
pub open spec fn joined_lines(ts: Seq<String>) -> Seq<char>
    decreases ts.len(),
{
    if ts.len() == 0 {
        Seq::empty()
    } else if ts.len() == 1 {
        ts[0]@
    } else {
        joined_lines(ts.drop_last()) + seq!['\n'] + ts.last()@
    }
}

/// The message a screenshot error reads as; a missing browser names the override
/// variable and every path tried, one per line.
pub open spec fn shot_error_text(e: ShotError) -> Seq<char> {
    match e {
        ShotError::NotFound { tried } => "no Chrome/Chromium executable found (set "@
            + CHROME_ENV_VAR@ + "=/path/to/chrome to override); tried:\n"@ + joined_lines(tried@),
        ShotError::Other(m) => m@,
    }
}

impl ShotError {
    /// The error message.
    pub fn to_string(&self) -> (s: String)
        ensures
            s@ == shot_error_text(*self),
    {
        match self {
            ShotError::NotFound { tried } => {
                let mut s = String::from_str("no Chrome/Chromium executable found (set ");
                s.append(CHROME_ENV_VAR);
                s.append("=/path/to/chrome to override); tried:\n");
                let ghost head = s@;
                let mut k: usize = 0;
                while k < tried.len()
                    invariant
                        k <= tried@.len(),
                        s@ == head + joined_lines(tried@.take(k as int)),
                    decreases tried@.len() - k,
                {
                    assert(tried@.take(k + 1).drop_last() =~= tried@.take(k as int));
                    if k > 0 {
                        push_char(&mut s, '\n');
                    } else {
                        assert(tried@.take(1)[0] == tried@[0]);
                    }
                    s.append(tried[k].as_str());
                    k += 1;
                }
                assert(tried@.take(k as int) =~= tried@);
                s
            },
            ShotError::Other(m) => m.clone(),
        }
    }
}

/// `needle` occurs in `hay` starting at `at`.
pub open spec fn occurs_at(hay: Seq<char>, needle: Seq<char>, at: int) -> bool {
    0 <= at && at + needle.len() <= hay.len() && hay.subrange(at, at + needle.len()) == needle
}

/// `needle` occurs somewhere in `hay`.
pub open spec fn occurs(hay: Seq<char>, needle: Seq<char>) -> bool {
    exists|at: int| occurs_at(hay, needle, at)
}

proof fn lemma_occurs_in_prefix(a: Seq<char>, b: Seq<char>, needle: Seq<char>, at: int)
    requires
        occurs_at(a, needle, at),
    ensures
        occurs_at(a + b, needle, at),
{
    assert((a + b).subrange(at, at + needle.len()) =~= a.subrange(at, at + needle.len()));
}

proof fn lemma_occurs_in_suffix(a: Seq<char>, b: Seq<char>, needle: Seq<char>, at: int)
    requires
        occurs_at(b, needle, at),
    ensures
        occurs_at(a + b, needle, a.len() + at),
{
    assert((a + b).subrange(a.len() + at, a.len() + at + needle.len()) =~= b.subrange(
        at,
        at + needle.len(),
    ));
}

proof fn lemma_joined_lines_hold_each(ts: Seq<String>, k: int)
    requires
        0 <= k < ts.len(),
    ensures
        occurs(joined_lines(ts), ts[k]@),
    decreases ts.len(),
{
    if ts.len() == 1 {
        assert(joined_lines(ts).subrange(0, ts[0]@.len() as int) =~= ts[0]@);
        assert(occurs_at(joined_lines(ts), ts[k]@, 0));
    } else {
        let init = joined_lines(ts.drop_last());
        let tail = seq!['\n'] + ts.last()@;
        assert(joined_lines(ts) =~= init + tail);
        if k < ts.len() - 1 {
            lemma_joined_lines_hold_each(ts.drop_last(), k);
            assert(ts.drop_last()[k] == ts[k]);
            let at = choose|at: int| occurs_at(init, ts[k]@, at);
            lemma_occurs_in_prefix(init, tail, ts[k]@, at);
        } else {
            assert(tail.subrange(1, 1 + ts[k]@.len() as int) =~= ts[k]@);
            assert(occurs_at(tail, ts[k]@, 1));
            lemma_occurs_in_suffix(init, tail, ts[k]@, 1);
        }
    }
}

/// The message of a missing browser names the override variable and every path
/// that was tried.
pub proof fn law_not_found_names_override_and_paths(e: ShotError)
    requires
        e is NotFound,
    ensures
        occurs(shot_error_text(e), CHROME_ENV_VAR@),
        forall|k: int|
            0 <= k < e->tried@.len() ==> occurs(shot_error_text(e), (#[trigger] e->tried@[k])@),
{
    let head = "no Chrome/Chromium executable found (set "@;
    let mid = "=/path/to/chrome to override); tried:\n"@;
    let ts = e->tried@;
    let text = shot_error_text(e);
    assert(text == head + CHROME_ENV_VAR@ + mid + joined_lines(ts));
    assert(text.subrange(head.len() as int, head.len() + CHROME_ENV_VAR@.len() as int) =~= CHROME_ENV_VAR@);
    assert(occurs_at(text, CHROME_ENV_VAR@, head.len() as int));
    assert forall|k: int| 0 <= k < ts.len() implies occurs(text, (#[trigger] ts[k])@) by {
        lemma_joined_lines_hold_each(ts, k);
        let at = choose|at: int| occurs_at(joined_lines(ts), ts[k]@, at);
        lemma_occurs_in_suffix(head + CHROME_ENV_VAR@ + mid, joined_lines(ts), ts[k]@, at);
    }
}

/// Percent-encoding leaves no space in a path, and every `%` it writes begins
/// `%25` or `%20`.
pub proof fn law_encoded_path_has_no_spaces(s: Seq<char>)
    ensures
        !url_path(s).contains(' '),
        forall|i: int|
            0 <= i < url_path(s).len() && #[trigger] url_path(s)[i] == '%' ==> i + 2 < url_path(
                s,
            ).len() && url_path(s)[i + 1] == '2' && (url_path(s)[i + 2] == '0' || url_path(s)[i
                + 2] == '5'),
    decreases s.len(),
{
    reveal_strlit("%25");
    reveal_strlit("%20");
    if s.len() > 0 {
        law_encoded_path_has_no_spaces(s.drop_last());
        let a = url_path(s.drop_last());
        let e = url_path_char(s.last());
        let r = url_path(s);
        assert(r == a + e);
        assert(!r.contains(' ')) by {
            if r.contains(' ') {
                let i = choose|i: int| 0 <= i < r.len() && r[i] == ' ';
                if i < a.len() {
                    assert(a[i] == ' ');
                } else {
                    assert(e[i - a.len()] == ' ');
                }
            }
        }
        assert forall|i: int|
            0 <= i < r.len() && #[trigger] r[i] == '%' implies i + 2 < r.len() && r[i + 1] == '2'
            && (r[i + 2] == '0' || r[i + 2] == '5') by {
            if i < a.len() {
                assert(a[i] == '%');
                assert(r[i + 1] == a[i + 1]);
                assert(r[i + 2] == a[i + 2]);
            } else {
                assert(e[i - a.len()] == '%');
                assert(i == a.len());
            }
        }
    }
}

/// The label a set but unusable override leaves among the tried paths.
pub open spec fn env_tried_label(path: Seq<char>) -> Seq<char> {
    CHROME_ENV_VAR@ + "="@ + path + " (env var set but not executable)"@
}

/// Labels the override path after it proved not executable.
pub fn env_tried(path: &str) -> (s: String)
    ensures
        s@ == env_tried_label(path@),
{
    let mut s = String::from_str(CHROME_ENV_VAR);
    s.append("=");
    s.append(path);
    s.append(" (env var set but not executable)");
    s
}

/// A path character as a `file://` URL writes it: `%` and space percent-encoded.
pub open spec fn url_path_char(c: char) -> Seq<char> {
    if c == '%' {
        "%25"@
    } else if c == ' ' {
        "%20"@
    } else {
        seq![c]
    }
}

/// A path with `%` and spaces percent-encoded.
pub open spec fn url_path(s: Seq<char>) -> Seq<char>
    decreases s.len(),
{
    if s.len() == 0 {
        Seq::empty()
    } else {
        url_path(s.drop_last()) + url_path_char(s.last())
    }
}

/// Percent-encodes `%` and spaces in a path for a `file://` URL.
pub fn encode_path(path: &str) -> (r: String)
    ensures
        r@ == url_path(path@),
{
    let chars = chars_of(path);
    let mut r = String::new();
    let mut k: usize = 0;
    while k < chars.len()
        invariant
            chars@ == path@,
            k <= chars@.len(),
            r@ == url_path(chars@.take(k as int)),
        decreases chars@.len() - k,
    {
        assert(chars@.take(k + 1).drop_last() =~= chars@.take(k as int));
        let c = chars[k];
        if c == '%' {
            r.append("%25");
        } else if c == ' ' {
            r.append("%20");
        } else {
            push_char(&mut r, c);
        }
        k += 1;
    }
    assert(chars@.take(k as int) =~= chars@);
    r
}

/// The count of leading characters that are not whitespace.
pub open spec fn token_len(s: Seq<char>) -> nat
    decreases s.len(),
{
    if s.len() == 0 || unicode_whitespace(s[0]) {
        0
    } else {
        1 + token_len(s.drop_first())
    }
}

/// The first whitespace-separated word of a text.
pub open spec fn first_word(s: Seq<char>) -> Option<Seq<char>> {
    let rest = s.skip(lead_ws(s) as int);
    if rest.len() == 0 {
        None
    } else {
        Some(rest.take(token_len(rest) as int))
    }
}

/// What a `Uid:` line of a process status says: whether its first id is `0`.
pub open spec fn uid_line_root(line: Seq<char>) -> Option<bool> {
    if "Uid:"@.is_prefix_of(line) {
        match first_word(line.skip(4)) {
            Some(w) => Some(w == seq!['0']),
            None => None,
        }
    } else {
        None
    }
}

/// The answer of the first line that gives one, else `false`.
pub open spec fn root_in_lines(ls: Seq<Seq<char>>) -> bool
    decreases ls.len(),
{
    if ls.len() == 0 {
        false
    } else {
        match uid_line_root(ls[0]) {
            Some(b) => b,
            None => root_in_lines(ls.drop_first()),
        }
    }
}

proof fn lemma_token_len_bound(s: Seq<char>)
    ensures
        token_len(s) <= s.len(),
    decreases s.len(),
{
    if s.len() > 0 && !unicode_whitespace(s[0]) {
        lemma_token_len_bound(s.drop_first());
    }
}

proof fn lemma_lead_ws_step(s: Seq<char>, j: int)
    requires
        0 <= j < s.len(),
        unicode_whitespace(s[j]),
    ensures
        lead_ws(s.skip(j)) == 1 + lead_ws(s.skip(j + 1)),
{
    assert(s.skip(j).drop_first() =~= s.skip(j + 1));
}

/// Whether the first word of `line[from..]` is `0`, or `None` when it has no word.
fn word_is_zero(line: &Vec<char>, from: usize) -> (r: Option<bool>)
    requires
        from <= line@.len(),
    ensures
        r == (match first_word(line@.skip(from as int)) {
            Some(w) => Some(w == seq!['0']),
            None => None,
        }),
{
    let ghost s = line@.skip(from as int);
    let mut j = from;
    while j < line.len() && char_is_whitespace(line[j])
        invariant
            from <= j <= line@.len(),
            s == line@.skip(from as int),
            lead_ws(s) == (j - from) + lead_ws(line@.skip(j as int)),
        decreases line@.len() - j,
    {
        proof {
            lemma_lead_ws_step(line@, j as int);
        }
        j += 1;
    }
    let ghost rest = line@.skip(j as int);
    assert(rest.len() == 0 || !unicode_whitespace(rest[0]));
    assert(lead_ws(rest) == 0);
    assert(s.skip(lead_ws(s) as int) =~= rest);
    if j == line.len() {
        return None;
    }
    let ghost tail = rest.drop_first();
    proof {
        lemma_token_len_bound(rest);
        lemma_token_len_bound(tail);
    }
    assert(token_len(rest) == 1 + token_len(tail));
    if line[j] != '0' {
        assert(rest.take(token_len(rest) as int)[0] != '0');
        return Some(false);
    }
    if j + 1 == line.len() || char_is_whitespace(line[j + 1]) {
        assert(token_len(tail) == 0);
        assert(rest.take(1) =~= seq!['0']);
        Some(true)
    } else {
        assert(token_len(tail) == 1 + token_len(tail.drop_first()));
        assert(rest.take(token_len(rest) as int).len() >= 2);
        Some(false)
    }
}

/// Whether a process status text (`/proc/self/status`) shows the real user id 0:
/// the first `Uid:` line with an id decides.
pub fn uid_is_root(status: &str) -> (b: bool)
    ensures
        b == root_in_lines(lines_of(status@)),
{
    let chars = chars_of(status);
    let lines = split_lines(&chars);
    let ghost ls = lines_of(status@);
    let mut k: usize = 0;
    assert(ls.skip(0) =~= ls);
    while k < lines.len()
        invariant
            lines_view(lines@) == ls,
            ls == lines_of(status@),
            k <= lines@.len(),
            root_in_lines(ls) == root_in_lines(ls.skip(k as int)),
        decreases lines@.len() - k,
    {
        let line = &lines[k];
        assert(ls[k as int] == line@);
        assert(ls.skip(k as int).drop_first() =~= ls.skip(k + 1));
        assert(ls.skip(k as int)[0] == ls[k as int]);
        proof {
            reveal_strlit("Uid:");
        }
        if starts_with(line, "Uid:") {
            match word_is_zero(line, 4) {
                Some(b) => {
                    return b;
                },
                None => {},
            }
        }
        k += 1;
    }
    false
}

} // verus!
