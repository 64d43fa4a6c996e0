use vstd::prelude::*;

verus! {

/// `char::is_alphanumeric`: Unicode `Alphabetic` or `Numeric`.
pub uninterp spec fn unicode_alphanumeric(c: char) -> bool;

/// `char::is_whitespace`: the Unicode `White_Space` property, which holds of
/// U+0009 to U+000D, U+0020, U+0085, U+00A0, U+1680, U+2000 to U+200A, U+2028,
/// U+2029, U+202F, U+205F and U+3000.
pub open spec fn unicode_whitespace(c: char) -> bool {
    ('\u{9}' <= c <= '\u{d}') || c == ' ' || c == '\u{85}' || c == '\u{a0}' || c == '\u{1680}'
        || ('\u{2000}' <= c <= '\u{200a}') || c == '\u{2028}' || c == '\u{2029}' || c == '\u{202f}'
        || c == '\u{205f}' || c == '\u{3000}'
}

/// Calls `char::is_alphanumeric`. The contract claims only that the answer is a
/// function of `c`.
#[verifier::external_body]
pub(crate) fn char_is_alphanumeric(c: char) -> (b: bool)
    ensures
        b == unicode_alphanumeric(c),
{
    c.is_alphanumeric()
}

/// Whether `c` has the Unicode `White_Space` property, as `char::is_whitespace`.
pub fn char_is_whitespace(c: char) -> (b: bool)
    ensures
        b == unicode_whitespace(c),
{
    ('\u{9}' <= c && c <= '\u{d}') || c == ' ' || c == '\u{85}' || c == '\u{a0}' || c
        == '\u{1680}' || ('\u{2000}' <= c && c <= '\u{200a}') || c == '\u{2028}' || c
        == '\u{2029}' || c == '\u{202f}' || c == '\u{205f}' || c == '\u{3000}'
}

/// Word characters, as far as `_` emphasis and mentions care.
pub open spec fn word_char(c: char) -> bool {
    unicode_alphanumeric(c) || c == '_'
}

/// Whether `c` is a word character.
pub fn is_word_char(c: char) -> (b: bool)
    ensures
        b == word_char(c),
{
    char_is_alphanumeric(c) || c == '_'
}

/// `0` to `9`.
pub open spec fn ascii_digit(c: char) -> bool {
    '0' <= c <= '9'
}

/// ASCII punctuation: `!"#$%&'()*+,-./:;<=>?@[\]^_`{|}~`.
pub open spec fn ascii_punctuation(c: char) -> bool {
    ('!' <= c <= '/') || (':' <= c <= '@') || ('[' <= c <= '`') || ('{' <= c <= '~')
}

/// Whether `c` is an ASCII digit.
pub fn is_ascii_digit(c: char) -> (b: bool)
    ensures
        b == ascii_digit(c),
{
    '0' <= c && c <= '9'
}

/// Whether `c` is ASCII punctuation.
pub fn is_ascii_punctuation(c: char) -> (b: bool)
    ensures
        b == ascii_punctuation(c),
{
    ('!' <= c && c <= '/') || (':' <= c && c <= '@') || ('[' <= c && c <= '`') || ('{' <= c
        && c <= '~')
}

/// `char::to_ascii_lowercase`.
pub open spec fn ascii_lower(c: char) -> char {
    if 'A' <= c <= 'Z' {
        ((c as u32) + 32) as char
    } else {
        c
    }
}

/// Every character is an ASCII digit.
pub open spec fn all_digits(s: Seq<char>) -> bool {
    forall|i: int| 0 <= i < s.len() ==> ascii_digit(#[trigger] s[i])
}

/// Every character is a word character.
pub open spec fn all_word(s: Seq<char>) -> bool {
    forall|i: int| 0 <= i < s.len() ==> word_char(#[trigger] s[i])
}

/// Every character is whitespace.
pub open spec fn all_whitespace(s: Seq<char>) -> bool {
    forall|i: int| 0 <= i < s.len() ==> unicode_whitespace(#[trigger] s[i])
}

/// The position of the first `c` in `s`.
pub open spec fn find_char(s: Seq<char>, c: char) -> Option<int>
    decreases s.len(),
{
    if s.len() == 0 {
        None
    } else if s[0] == c {
        Some(0)
    } else {
        match find_char(s.drop_first(), c) {
            Some(k) => Some(k + 1),
            None => None,
        }
    }
}

/// The position of the first occurrence of the two characters `a` `b` in `s`.
pub open spec fn find_pair(s: Seq<char>, a: char, b: char) -> Option<int>
    decreases s.len(),
{
    if s.len() < 2 {
        None
    } else if s[0] == a && s[1] == b {
        Some(0)
    } else {
        match find_pair(s.drop_first(), a, b) {
            Some(k) => Some(k + 1),
            None => None,
        }
    }
}

/// The position of the first whitespace character in `s`.
pub open spec fn find_whitespace(s: Seq<char>) -> Option<int>
    decreases s.len(),
{
    if s.len() == 0 {
        None
    } else if unicode_whitespace(s[0]) {
        Some(0)
    } else {
        match find_whitespace(s.drop_first()) {
            Some(k) => Some(k + 1),
            None => None,
        }
    }
}

pub proof fn lemma_find_char(s: Seq<char>, c: char)
    ensures
        match find_char(s, c) {
            Some(k) => 0 <= k < s.len() && s[k] == c && forall|j: int| 0 <= j < k ==> s[j] != c,
            None => forall|j: int| 0 <= j < s.len() ==> s[j] != c,
        },
    decreases s.len(),
{
    if s.len() > 0 && s[0] != c {
        lemma_find_char(s.drop_first(), c);
        assert forall|j: int| 1 <= j < s.len() implies s[j] == s.drop_first()[j - 1] by {}
    }
}

pub proof fn lemma_find_pair(s: Seq<char>, a: char, b: char)
    ensures
        match find_pair(s, a, b) {
            Some(k) => 0 <= k && k + 1 < s.len() && s[k] == a && s[k + 1] == b && forall|j: int|
                0 <= j < k ==> !(#[trigger] s[j] == a && s[j + 1] == b),
            None => forall|j: int| 0 <= j && j + 1 < s.len() ==> !(#[trigger] s[j] == a && s[j + 1] == b),
        },
    decreases s.len(),
{
    if s.len() >= 2 && !(s[0] == a && s[1] == b) {
        lemma_find_pair(s.drop_first(), a, b);
        assert forall|j: int| 1 <= j < s.len() implies s[j] == s.drop_first()[j - 1] by {}
    }
}

pub proof fn lemma_find_whitespace(s: Seq<char>)
    ensures
        match find_whitespace(s) {
            Some(k) => 0 <= k < s.len() && unicode_whitespace(s[k]) && forall|j: int|
                0 <= j < k ==> !unicode_whitespace(s[j]),
            None => forall|j: int| 0 <= j < s.len() ==> !unicode_whitespace(s[j]),
        },
    decreases s.len(),
{
    if s.len() > 0 && !unicode_whitespace(s[0]) {
        lemma_find_whitespace(s.drop_first());
        assert forall|j: int| 1 <= j < s.len() implies s[j] == s.drop_first()[j - 1] by {}
    }
}

/// The first `c` in `text[from..to]`, counted from `from`.
pub fn find_char_in(text: &Vec<char>, from: usize, to: usize, c: char) -> (r: Option<usize>)
    requires
        from <= to <= text@.len(),
    ensures
        match r {
            Some(k) => find_char(text@.subrange(from as int, to as int), c) == Some(k as int),
            None => find_char(text@.subrange(from as int, to as int), c) is None,
        },
{
    let ghost s = text@.subrange(from as int, to as int);
    proof {
        lemma_find_char(s, c);
    }
    let mut i = from;
    while i < to
        invariant
            from <= i <= to <= text@.len(),
            s == text@.subrange(from as int, to as int),
            forall|j: int| from <= j < i ==> text@[j] != c,
            match find_char(s, c) {
                Some(k) => 0 <= k < s.len() && s[k] == c && forall|j: int|
                    0 <= j < k ==> s[j] != c,
                None => forall|j: int| 0 <= j < s.len() ==> s[j] != c,
            },
        decreases to - i,
    {
        if text[i] == c {
            proof {
                let k = (i - from) as int;
                assert(s[k] == c);
                match find_char(s, c) {
                    Some(k2) => {
                        if k2 < k {
                            assert(text@[from + k2] == c);
                        }
                        if k < k2 {
                            assert(s[k] != c);
                        }
                    },
                    None => {
                        assert(s[k] != c);
                    },
                }
            }
            return Some(i - from);
        }
        i += 1;
    }
    proof {
        match find_char(s, c) {
            Some(k2) => {
                assert(text@[from + k2] == c);
            },
            None => {},
        }
    }
    None
}

/// The first `a` `b` in `text[from..to]`, counted from `from`.
pub fn find_pair_in(text: &Vec<char>, from: usize, to: usize, a: char, b: char) -> (r: Option<
    usize,
>)
    requires
        from <= to <= text@.len(),
    ensures
        match r {
            Some(k) => find_pair(text@.subrange(from as int, to as int), a, b) == Some(k as int),
            None => find_pair(text@.subrange(from as int, to as int), a, b) is None,
        },
{
    let ghost s = text@.subrange(from as int, to as int);
    proof {
        lemma_find_pair(s, a, b);
    }
    let mut i = from;
    while to - i >= 2
        invariant
            from <= i <= to <= text@.len(),
            s == text@.subrange(from as int, to as int),
            forall|j: int| from <= j < i && j + 1 < to ==> !(#[trigger] text@[j] == a && text@[j + 1] == b),
            match find_pair(s, a, b) {
                Some(k) => 0 <= k && k + 1 < s.len() && s[k] == a && s[k + 1] == b && forall|
                    j: int,
                | 0 <= j < k ==> !(#[trigger] s[j] == a && s[j + 1] == b),
                None => forall|j: int|
                    0 <= j && j + 1 < s.len() ==> !(#[trigger] s[j] == a && s[j + 1] == b),
            },
        decreases to - i,
    {
        if text[i] == a && text[i + 1] == b {
            proof {
                let k = (i - from) as int;
                assert(s[k] == a && s[k + 1] == b);
                match find_pair(s, a, b) {
                    Some(k2) => {
                        if k2 < k {
                            assert(text@[from + k2] == a && text@[from + k2 + 1] == b);
                        }
                    },
                    None => {},
                }
            }
            return Some(i - from);
        }
        i += 1;
    }
    proof {
        match find_pair(s, a, b) {
            Some(k2) => {
                assert(text@[from + k2] == a && text@[from + k2 + 1] == b);
            },
            None => {},
        }
    }
    None
}

/// The first whitespace character in `text[from..to]`, counted from `from`.
pub fn find_whitespace_in(text: &Vec<char>, from: usize, to: usize) -> (r: Option<usize>)
    requires
        from <= to <= text@.len(),
    ensures
        match r {
            Some(k) => find_whitespace(text@.subrange(from as int, to as int)) == Some(k as int),
            None => find_whitespace(text@.subrange(from as int, to as int)) is None,
        },
{
    let ghost s = text@.subrange(from as int, to as int);
    proof {
        lemma_find_whitespace(s);
    }
    let mut i = from;
    while i < to
        invariant
            from <= i <= to <= text@.len(),
            s == text@.subrange(from as int, to as int),
            forall|j: int| from <= j < i ==> !unicode_whitespace(text@[j]),
            match find_whitespace(s) {
                Some(k) => 0 <= k < s.len() && unicode_whitespace(s[k]) && forall|j: int|
                    0 <= j < k ==> !unicode_whitespace(s[j]),
                None => forall|j: int| 0 <= j < s.len() ==> !unicode_whitespace(s[j]),
            },
        decreases to - i,
    {
        if char_is_whitespace(text[i]) {
            proof {
                let k = (i - from) as int;
                assert(unicode_whitespace(s[k]));
                match find_whitespace(s) {
                    Some(k2) => {
                        if k2 < k {
                            assert(unicode_whitespace(text@[from + k2]));
                        }
                    },
                    None => {},
                }
            }
            return Some(i - from);
        }
        i += 1;
    }
    proof {
        match find_whitespace(s) {
            Some(k2) => {
                assert(unicode_whitespace(text@[from + k2]));
            },
            None => {},
        }
    }
    None
}

/// Whether `text[from..to]` consists of ASCII digits.
pub fn all_digits_in(text: &Vec<char>, from: usize, to: usize) -> (b: bool)
    requires
        from <= to <= text@.len(),
    ensures
        b == all_digits(text@.subrange(from as int, to as int)),
{
    let ghost s = text@.subrange(from as int, to as int);
    let mut i = from;
    while i < to
        invariant
            from <= i <= to <= text@.len(),
            s == text@.subrange(from as int, to as int),
            forall|j: int| from <= j < i ==> ascii_digit(text@[j]),
        decreases to - i,
    {
        if !is_ascii_digit(text[i]) {
            assert(!ascii_digit(s[i - from]));
            return false;
        }
        i += 1;
    }
    assert forall|j: int| 0 <= j < s.len() implies ascii_digit(#[trigger] s[j]) by {
        assert(s[j] == text@[from + j]);
    }
    true
}

/// Whether `text[from..to]` consists of word characters.
pub fn all_word_in(text: &Vec<char>, from: usize, to: usize) -> (b: bool)
    requires
        from <= to <= text@.len(),
    ensures
        b == all_word(text@.subrange(from as int, to as int)),
{
    let ghost s = text@.subrange(from as int, to as int);
    let mut i = from;
    while i < to
        invariant
            from <= i <= to <= text@.len(),
            s == text@.subrange(from as int, to as int),
            forall|j: int| from <= j < i ==> word_char(text@[j]),
        decreases to - i,
    {
        if !is_word_char(text[i]) {
            assert(!word_char(s[i - from]));
            return false;
        }
        i += 1;
    }
    assert forall|j: int| 0 <= j < s.len() implies word_char(#[trigger] s[j]) by {
        assert(s[j] == text@[from + j]);
    }
    true
}

/// Copies `text[from..to]`.
pub fn sub_chars(text: &Vec<char>, from: usize, to: usize) -> (r: Vec<char>)
    requires
        from <= to <= text@.len(),
    ensures
        r@ == text@.subrange(from as int, to as int),
{
    let mut r: Vec<char> = Vec::new();
    let mut i = from;
    while i < to
        invariant
            from <= i <= to <= text@.len(),
            r@ == text@.subrange(from as int, i as int),
        decreases to - i,
    {
        r.push(text[i]);
        assert(text@.subrange(from as int, i + 1) == text@.subrange(from as int, i as int).push(text@[i as int]));
        i += 1;
    }
    r
}

} // verus!
