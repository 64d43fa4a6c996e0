use vstd::prelude::*;

use crate::markdown::chars::find_char;
use crate::markdown::chars::find_char_in;
use crate::markdown::chars::lemma_find_char;
use crate::text::chars_of;

verus! {

/// The shape of a base64 data URI: `data:<type>/<subtype>;base64,<payload>`. The
/// scheme ends at the first `:`, the media type at the next `;`.
pub open spec fn valid_data_uri(s: Seq<char>) -> bool {
    match find_char(s, ':') {
        None => false,
        Some(i) => {
            let tail = s.skip(i + 1);
            s.take(i) == "data"@ && match find_char(tail, ';') {
                None => false,
                Some(j) => find_char(tail.take(j), '/') is Some && "base64,"@.is_prefix_of(
                    tail.skip(j + 1),
                ),
            }
        },
    }
}

/// `text[from..to]` equals `lit`.
fn span_is(text: &Vec<char>, from: usize, to: usize, lit: &str) -> (b: bool)
    requires
        from <= to <= text@.len(),
    ensures
        b == (text@.subrange(from as int, to as int) == lit@),
{
    let l = chars_of(lit);
    if to - from != l.len() {
        return false;
    }
    let mut k: usize = 0;
    while k < l.len()
        invariant
            l@ == lit@,
            from <= to <= text@.len(),
            to - from == l@.len(),
            k <= l@.len(),
            forall|m: int| 0 <= m < k ==> l@[m] == text@[from + m],
        decreases l@.len() - k,
    {
        if l[k] != text[from + k] {
            assert(text@.subrange(from as int, to as int)[k as int] != lit@[k as int]);
            return false;
        }
        k += 1;
    }
    assert(text@.subrange(from as int, to as int) =~= lit@);
    true
}

/// Whether a string is a base64 data URI with a `type/subtype` media type.
pub fn is_valid_data_uri(s: &str) -> (b: bool)
    ensures
        b == valid_data_uri(s@),
{
    let chars = chars_of(s);
    let n = chars.len();
    proof {
        lemma_find_char(s@, ':');
    }
    assert(chars@.subrange(0, n as int) =~= chars@);
    let i = match find_char_in(&chars, 0, n, ':') {
        None => return false,
        Some(i) => i,
    };
    assert(chars@.subrange(0, i as int) =~= s@.take(i as int));
    if !span_is(&chars, 0, i, "data") {
        return false;
    }
    let ghost tail = s@.skip(i + 1);
    proof {
        lemma_find_char(tail, ';');
    }
    assert(chars@.subrange(i + 1, n as int) =~= tail);
    let j = match find_char_in(&chars, i + 1, n, ';') {
        None => return false,
        Some(j) => j,
    };
    proof {
        lemma_find_char(tail.take(j as int), '/');
    }
    assert(chars@.subrange(i + 1, i + 1 + j) =~= tail.take(j as int));
    if find_char_in(&chars, i + 1, i + 1 + j, '/').is_none() {
        return false;
    }
    let rest_from = i + 1 + j + 1;
    proof {
        reveal_strlit("base64,");
    }
    if n - rest_from < 7 {
        assert(tail.skip(j + 1).len() < 7);
        return false;
    }
    let ok = span_is(&chars, rest_from, rest_from + 7, "base64,");
    assert(chars@.subrange(rest_from as int, rest_from + 7) =~= tail.skip(j + 1).take(7));
    ok
}

} // verus!
