//! Text helpers: blank characters, trimming, comparing.

use vstd::prelude::*;
use vstd::string::*;

verus! {

/// Whether `c` is white space in Unicode's sense. It stands for the answer of
/// `char::is_whitespace`.
pub uninterp spec fn is_whitespace(c: char) -> bool;

/// How many white-space characters `text` starts with.
pub open spec fn leading_blanks(text: Seq<char>) -> nat
    decreases text.len(),
{
    if text.len() > 0 && is_whitespace(text[0]) {
        1 + leading_blanks(text.drop_first())
    } else {
        0
    }
}

/// How many white-space characters `text` ends with.
pub open spec fn trailing_blanks(text: Seq<char>) -> nat
    decreases text.len(),
{
    if text.len() > 0 && is_whitespace(text.last()) {
        1 + trailing_blanks(text.drop_last())
    } else {
        0
    }
}

/// `text` without the white space at its two ends.
pub open spec fn trimmed(text: Seq<char>) -> Seq<char> {
    if leading_blanks(text) == text.len() {
        Seq::empty()
    } else {
        text.subrange(leading_blanks(text) as int, text.len() - trailing_blanks(text))
    }
}

/// `char::is_whitespace`: whether `c` has Unicode's property `White_Space`.
/// The contract gives that answer its name and claims nothing else.
#[verifier::external_body]
fn is_blank(c: char) -> (r: bool)
    ensures
        r == is_whitespace(c),
{
    c.is_whitespace()
}

/// The blanks at the front of `text` end where the first other character
/// stands.
proof fn lemma_leading_blanks(text: Seq<char>, n: int)
    requires
        0 <= n <= text.len(),
        forall|i: int| 0 <= i < n ==> is_whitespace(text[i]),
        n == text.len() || !is_whitespace(text[n]),
    ensures
        leading_blanks(text) == n,
    decreases n,
{
    if n > 0 {
        let rest = text.drop_first();
        assert forall|i: int| 0 <= i < n - 1 implies is_whitespace(rest[i]) by {
            assert(rest[i] == text[i + 1]);
        }
        lemma_leading_blanks(rest, n - 1);
    }
}

/// The blanks at the end of `text` begin after the last other character.
proof fn lemma_trailing_blanks(text: Seq<char>, n: int)
    requires
        0 <= n <= text.len(),
        forall|i: int| text.len() - n <= i < text.len() ==> is_whitespace(text[i]),
        n == text.len() || !is_whitespace(text[text.len() - n - 1]),
    ensures
        trailing_blanks(text) == n,
    decreases n,
{
    if n > 0 {
        let rest = text.drop_last();
        assert forall|i: int| rest.len() - (n - 1) <= i < rest.len() implies is_whitespace(
            rest[i],
        ) by {
            assert(rest[i] == text[i]);
        }
        lemma_trailing_blanks(rest, n - 1);
    }
}

/// The characters of `s`, in order.
pub fn chars_of(s: &str) -> (v: Vec<char>)
    ensures
        v@ == s@,
{
    let mut v: Vec<char> = Vec::new();
    for c in it: s.chars()
        invariant
            v@ == it.seq().take(it.index() as int),
            it.seq() == s@,
    {
        v.push(c);
    }
    v
}

/// Whether the two ranges hold the same text.
pub(crate) fn same_text(a: &Vec<char>, ra: (usize, usize), b: &Vec<char>, rb: (usize, usize)) -> (r:
    bool)
    requires
        ra.0 <= ra.1 <= a@.len(),
        rb.0 <= rb.1 <= b@.len(),
    ensures
        r == (a@.subrange(ra.0 as int, ra.1 as int) == b@.subrange(rb.0 as int, rb.1 as int)),
{
    let ghost ta = a@.subrange(ra.0 as int, ra.1 as int);
    let ghost tb = b@.subrange(rb.0 as int, rb.1 as int);
    if ra.1 - ra.0 != rb.1 - rb.0 {
        assert(ta.len() != tb.len());
        return false;
    }
    let n: usize = ra.1 - ra.0;
    let mut k: usize = 0;
    while k < n
        invariant
            k <= n,
            n == ra.1 - ra.0,
            n == rb.1 - rb.0,
            ra.1 <= a@.len(),
            rb.1 <= b@.len(),
            ta == a@.subrange(ra.0 as int, ra.1 as int),
            tb == b@.subrange(rb.0 as int, rb.1 as int),
            forall|j: int| 0 <= j < k ==> ta[j] == tb[j],
        decreases n - k,
    {
        if a[ra.0 + k] != b[rb.0 + k] {
            assert(ta[k as int] != tb[k as int]);
            return false;
        }
        k += 1;
    }
    assert(ta =~= tb);
    true
}

/// Whether the two texts are the same, character for character.
pub fn text_eq(a: &str, b: &str) -> (r: bool)
    ensures
        r == (a@ == b@),
{
    let ac = chars_of(a);
    let bc = chars_of(b);
    let r = same_text(&ac, (0, ac.len()), &bc, (0, bc.len()));
    assert(ac@.subrange(0, ac@.len() as int) =~= ac@);
    assert(bc@.subrange(0, bc@.len() as int) =~= bc@);
    r
}

/// Whether `text` ends with `suffix`.
pub fn ends_with(text: &str, suffix: &str) -> (r: bool)
    ensures
        r == suffix@.is_suffix_of(text@),
{
    let tc = chars_of(text);
    let sc = chars_of(suffix);
    if sc.len() > tc.len() {
        return false;
    }
    let r = same_text(&tc, (tc.len() - sc.len(), tc.len()), &sc, (0, sc.len()));
    assert(sc@.subrange(0, sc@.len() as int) =~= sc@);
    r
}

/// `text` without the white space at its two ends.
pub fn trim(text: &str) -> (r: &str)
    ensures
        r@ == trimmed(text@),
{
    let tc = chars_of(text);
    let n: usize = tc.len();
    let mut from: usize = 0;
    while from < n && is_blank(tc[from])
        invariant
            from <= n,
            n == tc@.len(),
            forall|i: int| 0 <= i < from ==> is_whitespace(tc@[i]),
        decreases n - from,
    {
        from += 1;
    }
    proof {
        lemma_leading_blanks(tc@, from as int);
    }
    if from == n {
        let r = text.substring_char(0, 0);
        assert(r@ =~= Seq::<char>::empty());
        return r;
    }
    let mut to: usize = n;
    while to > from && is_blank(tc[to - 1])
        invariant
            from <= to <= n,
            from < n,
            n == tc@.len(),
            !is_whitespace(tc@[from as int]),
            forall|i: int| to <= i < n ==> is_whitespace(tc@[i]),
        decreases to,
    {
        to -= 1;
    }
    proof {
        lemma_trailing_blanks(tc@, n - to);
    }
    text.substring_char(from, to)
}

} // verus!
