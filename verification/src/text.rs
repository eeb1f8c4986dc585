//! Text primitives: the mathematical model of a string is its sequence of characters.

use vstd::prelude::*;
use vstd::string::*;

use crate::texts::Texts;

verus! {

/// `String::push` appends one character to the end of the string.
pub assume_specification[ std::string::String::push ](s: &mut std::string::String, c: char)
    ensures
        final(s)@ == old(s)@.push(c),
;

/// The Unicode `White_Space` property.
pub open spec fn is_white_space(c: char) -> bool {
    ||| '\u{9}' <= c <= '\u{d}'
    ||| c == '\u{20}'
    ||| c == '\u{85}'
    ||| c == '\u{a0}'
    ||| c == '\u{1680}'
    ||| '\u{2000}' <= c <= '\u{200a}'
    ||| c == '\u{2028}'
    ||| c == '\u{2029}'
    ||| c == '\u{202f}'
    ||| c == '\u{205f}'
    ||| c == '\u{3000}'
}

/// `char::is_whitespace` tests the Unicode `White_Space` property.
pub assume_specification[ char::is_whitespace ](c: char) -> (res: bool)
    ensures
        res == is_white_space(c),
;

pub open spec fn is_digit(c: char) -> bool {
    '0' <= c <= '9'
}

pub open spec fn is_ascii_alnum(c: char) -> bool {
    is_digit(c) || 'a' <= c <= 'z' || 'A' <= c <= 'Z'
}

/// What `char::is_alphanumeric` answers: membership in the Unicode tables of letters and numbers.
pub uninterp spec fn unicode_alphanumeric(c: char) -> bool;

/// A letter or a number in the sense of Unicode; among the ASCII characters these are the letters
/// `a`-`z`, `A`-`Z` and the digits.
pub open spec fn is_alnum(c: char) -> bool {
    if c <= '\u{7f}' {
        is_ascii_alnum(c)
    } else {
        unicode_alphanumeric(c)
    }
}

/// `char::is_alphanumeric` holds of the Unicode letters and numbers, which among the ASCII
/// characters are the letters and the digits.
pub assume_specification[ char::is_alphanumeric ](c: char) -> (res: bool)
    ensures
        res == (if c <= '\u{7f}' {
            is_ascii_alnum(c)
        } else {
            unicode_alphanumeric(c)
        }),
;

/// Whether two texts are equal.
pub fn same_text(a: &str, b: &str) -> (res: bool)
    ensures
        res == (a@ == b@),
{
    a.to_owned() == b.to_owned()
}

pub fn chars_of(s: &str) -> (v: Vec<char>)
    ensures
        v@ == s@,
{
    let mut v: Vec<char> = Vec::new();
    for c in it: s.chars()
        invariant
            v@ == s@.take(it.index()),
            it.seq() == s@,
    {
        v.push(c);
        assert(s@.take(it.index() + 1) =~= s@.take(it.index()).push(c));
    }
    assert(s@.take(s@.len() as int) =~= s@);
    v
}

pub fn text_of(v: &Vec<char>, from: usize, to: usize) -> (s: String)
    requires
        from <= to <= v@.len(),
    ensures
        s@ == v@.subrange(from as int, to as int),
{
    let mut s = String::new();
    for i in from..to
        invariant
            from <= to <= v@.len(),
            s@ == v@.subrange(from as int, i as int),
    {
        s.push(v[i]);
        assert(v@.subrange(from as int, i + 1) =~= v@.subrange(from as int, i as int).push(v@[i as int]));
    }
    s
}

// ---------------------------------------------------------------------------------------------
// Searching and cutting

/// The first position at or after `i` that holds `c`, or the length of the text.
pub open spec fn seek(s: Seq<char>, c: char, i: int) -> int
    decreases s.len() - i,
{
    if i < 0 || i >= s.len() {
        s.len() as int
    } else if s[i] == c {
        i
    } else {
        seek(s, c, i + 1)
    }
}

pub proof fn lemma_seek(s: Seq<char>, c: char, i: int)
    requires
        0 <= i <= s.len(),
    ensures
        i <= seek(s, c, i) <= s.len(),
        seek(s, c, i) < s.len() ==> s[seek(s, c, i)] == c,
        forall|k: int| i <= k < seek(s, c, i) ==> s[k] != c,
    decreases s.len() - i,
{
    if i < s.len() && s[i] != c {
        lemma_seek(s, c, i + 1);
    }
}

/// The first occurrence is found.
pub proof fn lemma_seek_is(s: Seq<char>, c: char, i: int, at: int)
    requires
        0 <= i <= at < s.len(),
        s[at] == c,
        forall|k: int| i <= k < at ==> s[k] != c,
    ensures
        seek(s, c, i) == at,
    decreases at - i,
{
    if i < at {
        lemma_seek_is(s, c, i + 1, at);
    }
}

pub proof fn lemma_seek_none(s: Seq<char>, c: char, i: int)
    requires
        0 <= i <= s.len(),
        !s.contains(c),
    ensures
        seek(s, c, i) == s.len(),
    decreases s.len() - i,
{
    if i < s.len() {
        assert(s.contains(s[i]));
        lemma_seek_none(s, c, i + 1);
    }
}

pub fn seek_char(v: &Vec<char>, c: char, from: usize) -> (at: usize)
    requires
        from <= v@.len(),
    ensures
        at == seek(v@, c, from as int),
        from <= at <= v@.len(),
        at < v@.len() ==> v@[at as int] == c,
{
    let mut i: usize = from;
    while i < v.len() && v[i] != c
        invariant
            from <= i <= v@.len(),
            seek(v@, c, from as int) == seek(v@, c, i as int),
        decreases v@.len() - i,
    {
        i = i + 1;
    }
    i
}

/// Whether `c` occurs in the text.
pub fn has_char(s: &str, c: char) -> (res: bool)
    ensures
        res == s@.contains(c),
{
    let v = chars_of(s);
    let at: usize = seek_char(&v, c, 0);
    proof {
        lemma_seek(s@, c, 0);
        if s@.contains(c) {
            let k = choose|k: int| 0 <= k < s@.len() && s@[k] == c;
            assert(s@[k] == c);
        }
    }
    at < v.len()
}

/// The parts before and after the first `c`, where there is one.
pub open spec fn cut_once(s: Seq<char>, c: char) -> Option<(Seq<char>, Seq<char>)> {
    let at = seek(s, c, 0);
    if at < s.len() {
        Some((s.take(at), s.skip(at + 1)))
    } else {
        None
    }
}

pub open spec fn pair_view(p: Option<(String, String)>) -> Option<(Seq<char>, Seq<char>)> {
    match p {
        Some(p) => Some((p.0@, p.1@)),
        None => None,
    }
}

pub fn split_once(s: &str, c: char) -> (res: Option<(String, String)>)
    ensures
        pair_view(res) == cut_once(s@, c),
{
    let v = chars_of(s);
    let at: usize = seek_char(&v, c, 0);
    if at < v.len() {
        let a = text_of(&v, 0, at);
        let b = text_of(&v, at + 1, v.len());
        assert(a@ =~= s@.take(at as int));
        assert(b@ =~= s@.skip(at + 1));
        Some((a, b))
    } else {
        None
    }
}

/// The pieces of the text from position `i` on, separated by `c`.
pub open spec fn pieces_from(s: Seq<char>, c: char, i: int) -> Seq<Seq<char>>
    decreases s.len() - i,
{
    let at = seek(s, c, i);
    if i < 0 || i > s.len() || at >= s.len() || at < i {
        seq![s.subrange(i, s.len() as int)]
    } else {
        seq![s.subrange(i, at)] + pieces_from(s, c, at + 1)
    }
}

/// The pieces of the text separated by `c`: one more than there are occurrences of `c`.
pub open spec fn pieces(s: Seq<char>, c: char) -> Seq<Seq<char>> {
    pieces_from(s, c, 0)
}

proof fn lemma_seek_shift(s: Seq<char>, b: Seq<char>, c: char, k: int, i: int)
    requires
        0 <= k,
        s.len() == k + b.len(),
        s.skip(k) == b,
        0 <= i <= b.len(),
    ensures
        seek(s, c, k + i) == k + seek(b, c, i),
    decreases b.len() - i,
{
    if i < b.len() {
        assert(s.skip(k)[i] == s[k + i]);
        lemma_seek_shift(s, b, c, k, i + 1);
    }
}

proof fn lemma_pieces_shift(s: Seq<char>, b: Seq<char>, c: char, k: int, i: int)
    requires
        0 <= k,
        s.len() == k + b.len(),
        s.skip(k) == b,
        0 <= i <= b.len(),
    ensures
        pieces_from(s, c, k + i) == pieces_from(b, c, i),
    decreases b.len() - i,
{
    lemma_seek_shift(s, b, c, k, i);
    lemma_seek(b, c, i);
    let at = seek(b, c, i);
    assert(s.subrange(k + i, s.len() as int) =~= b.subrange(i, b.len() as int)) by {
        assert(s.subrange(k + i, s.len() as int) =~= s.skip(k).subrange(i, b.len() as int));
    }
    if at < b.len() {
        assert(s.subrange(k + i, k + at) =~= s.skip(k).subrange(i, at));
        lemma_pieces_shift(s, b, c, k, at + 1);
    }
}

pub proof fn lemma_some_piece(s: Seq<char>, c: char, i: int)
    ensures
        pieces_from(s, c, i).len() >= 1,
    decreases s.len() - i,
{
    let at = seek(s, c, i);
    if !(i < 0 || i > s.len() || at >= s.len() || at < i) {
        lemma_some_piece(s, c, at + 1);
    }
}

/// A text without the separator is one piece, and one that stands before a separator is the first
/// piece: what was joined by a separator is split at it again.
pub proof fn law_pieces(a: Seq<char>, b: Seq<char>, c: char)
    requires
        !a.contains(c),
    ensures
        pieces(a, c) == seq![a],
        pieces(a + seq![c] + b, c) == seq![a] + pieces(b, c),
{
    lemma_seek_none(a, c, 0);
    assert(a.subrange(0, a.len() as int) =~= a);
    let s = a + seq![c] + b;
    let k = a.len() as int;
    assert forall|j: int| 0 <= j < k implies s[j] != c by {
        assert(s[j] == a[j]);
    }
    assert(s[k] == c);
    lemma_seek_is(s, c, 0, k);
    assert(s.subrange(0, k) =~= a);
    assert(s.skip(k + 1) =~= b);
    lemma_pieces_shift(s, b, c, k + 1, 0);
}

pub fn split(s: &str, c: char) -> (res: Texts)
    ensures
        res@ == pieces(s@, c),
        res@.len() >= 1,
{
    let v = chars_of(s);
    let mut out = Texts::new();
    let mut i: usize = 0;
    let mut at: usize = seek_char(&v, c, 0);
    while at < v.len()
        invariant
            v@ == s@,
            0 <= i <= at <= v@.len(),
            at == seek(s@, c, i as int),
            pieces(s@, c) == out@ + pieces_from(s@, c, i as int),
        decreases v@.len() - i,
    {
        let ghost before = out@;
        out.push(text_of(&v, i, at));
        proof {
            assert(before + (seq![s@.subrange(i as int, at as int)] + pieces_from(s@, c, at + 1)) =~= out@ + pieces_from(s@, c, at + 1));
        }
        i = at + 1;
        at = seek_char(&v, c, i);
    }
    out.push(text_of(&v, i, v.len()));
    out
}

/// Whether `pat` stands in the text at position `i`.
pub open spec fn stands_at(s: Seq<char>, pat: Seq<char>, i: int) -> bool {
    0 <= i && i + pat.len() <= s.len() && s.subrange(i, i + pat.len()) == pat
}

pub open spec fn occurs(s: Seq<char>, pat: Seq<char>) -> bool {
    exists|i: int| stands_at(s, pat, i)
}

pub open spec fn begins_with(s: Seq<char>, pat: Seq<char>) -> bool {
    stands_at(s, pat, 0)
}

pub open spec fn finishes_with(s: Seq<char>, pat: Seq<char>) -> bool {
    stands_at(s, pat, s.len() - pat.len())
}

/// The first position at or after `i` where `pat` stands, or the length of the text.
pub open spec fn seek_pat(s: Seq<char>, pat: Seq<char>, i: int) -> int
    decreases s.len() - i,
{
    if i < 0 || i >= s.len() {
        s.len() as int
    } else if stands_at(s, pat, i) {
        i
    } else {
        seek_pat(s, pat, i + 1)
    }
}

pub proof fn lemma_seek_pat(s: Seq<char>, pat: Seq<char>, i: int)
    requires
        0 <= i <= s.len(),
    ensures
        i <= seek_pat(s, pat, i) <= s.len(),
        seek_pat(s, pat, i) < s.len() ==> stands_at(s, pat, seek_pat(s, pat, i)),
        forall|k: int| i <= k < seek_pat(s, pat, i) ==> !stands_at(s, pat, k),
    decreases s.len() - i,
{
    if i < s.len() && !stands_at(s, pat, i) {
        lemma_seek_pat(s, pat, i + 1);
    }
}

pub fn match_at(v: &Vec<char>, pat: &Vec<char>, i: usize) -> (res: bool)
    requires
        i <= v@.len(),
    ensures
        res == stands_at(v@, pat@, i as int),
{
    let n: usize = v.len();
    if pat.len() > n - i {
        return false;
    }
    let mut k: usize = 0;
    while k < pat.len()
        invariant
            n == v@.len(),
            i + pat@.len() <= n,
            k <= pat@.len(),
            forall|j: int| 0 <= j < k ==> v@[i + j] == pat@[j],
        decreases pat@.len() - k,
    {
        if v[i + k] != pat[k] {
            assert(v@.subrange(i as int, i + pat@.len())[k as int] != pat@[k as int]);
            return false;
        }
        k = k + 1;
    }
    assert(v@.subrange(i as int, i + pat@.len()) =~= pat@);
    true
}

pub fn seek_match(v: &Vec<char>, pat: &Vec<char>, from: usize) -> (at: usize)
    requires
        from <= v@.len(),
    ensures
        at == seek_pat(v@, pat@, from as int),
        from <= at <= v@.len(),
        at < v@.len() ==> stands_at(v@, pat@, at as int),
{
    let mut i: usize = from;
    while i < v.len()
        invariant
            from <= i <= v@.len(),
            seek_pat(v@, pat@, from as int) == seek_pat(v@, pat@, i as int),
        decreases v@.len() - i,
    {
        if match_at(v, pat, i) {
            return i;
        }
        i = i + 1;
    }
    i
}

pub fn contains(s: &str, pat: &str) -> (res: bool)
    ensures
        res == occurs(s@, pat@),
{
    let v = chars_of(s);
    let p = chars_of(pat);
    if p.len() == 0 {
        assert(stands_at(s@, pat@, 0)) by {
            assert(s@.subrange(0, 0) =~= pat@);
        }
        return true;
    }
    let at: usize = seek_match(&v, &p, 0);
    proof {
        lemma_seek_pat(s@, pat@, 0);
        if occurs(s@, pat@) {
            let k = choose|k: int| stands_at(s@, pat@, k);
            assert(stands_at(s@, pat@, k));
        }
    }
    at < v.len()
}

pub fn starts_with(s: &str, pat: &str) -> (res: bool)
    ensures
        res == begins_with(s@, pat@),
{
    let v = chars_of(s);
    let p = chars_of(pat);
    match_at(&v, &p, 0)
}

/// The text without the prefix `pat`, where it has one.
pub open spec fn without_prefix(s: Seq<char>, pat: Seq<char>) -> Option<Seq<char>> {
    if begins_with(s, pat) {
        Some(s.skip(pat.len() as int))
    } else {
        None
    }
}

/// The text without the suffix `pat`, where it has one.
pub open spec fn without_suffix(s: Seq<char>, pat: Seq<char>) -> Option<Seq<char>> {
    if finishes_with(s, pat) {
        Some(s.take(s.len() - pat.len()))
    } else {
        None
    }
}

pub open spec fn opt_str(o: Option<&str>) -> Option<Seq<char>> {
    match o {
        Some(s) => Some(s@),
        None => None,
    }
}

pub open spec fn opt_text(o: Option<String>) -> Option<Seq<char>> {
    match o {
        Some(s) => Some(s@),
        None => None,
    }
}

pub fn strip_prefix(s: &str, pat: &str) -> (res: Option<String>)
    ensures
        opt_text(res) == without_prefix(s@, pat@),
{
    let v = chars_of(s);
    let p = chars_of(pat);
    if match_at(&v, &p, 0) {
        let r = text_of(&v, p.len(), v.len());
        assert(r@ =~= s@.skip(pat@.len() as int));
        Some(r)
    } else {
        None
    }
}

pub fn strip_suffix(s: &str, pat: &str) -> (res: Option<String>)
    ensures
        opt_text(res) == without_suffix(s@, pat@),
{
    let v = chars_of(s);
    let p = chars_of(pat);
    if p.len() <= v.len() && match_at(&v, &p, v.len() - p.len()) {
        let r = text_of(&v, 0, v.len() - p.len());
        assert(r@ =~= s@.take(s@.len() - pat@.len()));
        Some(r)
    } else {
        None
    }
}

pub fn ends_with(s: &str, pat: &str) -> (res: bool)
    ensures
        res == finishes_with(s@, pat@),
{
    let v = chars_of(s);
    let p = chars_of(pat);
    p.len() <= v.len() && match_at(&v, &p, v.len() - p.len())
}

/// The text from position `i` on, with every occurrence of `pat` replaced by `by`; occurrences are
/// taken from left to right and do not overlap.
pub open spec fn replaced_from(s: Seq<char>, pat: Seq<char>, by: Seq<char>, i: int) -> Seq<char>
    decreases s.len() - i,
{
    if i < 0 || i >= s.len() {
        Seq::empty()
    } else if pat.len() > 0 && stands_at(s, pat, i) {
        by + replaced_from(s, pat, by, i + pat.len())
    } else {
        seq![s[i]] + replaced_from(s, pat, by, i + 1)
    }
}

pub open spec fn replaced(s: Seq<char>, pat: Seq<char>, by: Seq<char>) -> Seq<char> {
    replaced_from(s, pat, by, 0)
}

pub fn replace(s: &str, pat: &str, by: &str) -> (res: String)
    requires
        pat@.len() > 0,
    ensures
        res@ == replaced(s@, pat@, by@),
{
    let v = chars_of(s);
    let p = chars_of(pat);
    let mut out = String::new();
    let mut i: usize = 0;
    while i < v.len()
        invariant
            v@ == s@,
            p@ == pat@,
            pat@.len() > 0,
            i <= v@.len(),
            replaced(s@, pat@, by@) == out@ + replaced_from(s@, pat@, by@, i as int),
        decreases v@.len() - i,
    {
        let ghost before = out@;
        if match_at(&v, &p, i) {
            out.append(by);
            proof {
                assert(before + (by@ + replaced_from(s@, pat@, by@, i + pat@.len())) =~= out@ + replaced_from(s@, pat@, by@, i + pat@.len()));
            }
            i = i + p.len();
        } else {
            out.push(v[i]);
            proof {
                assert(before + (seq![s@[i as int]] + replaced_from(s@, pat@, by@, i + 1)) =~= out@ + replaced_from(s@, pat@, by@, i + 1));
            }
            i = i + 1;
        }
    }
    assert(out@ + Seq::<char>::empty() =~= out@);
    out
}

// ---------------------------------------------------------------------------------------------
// Trimming

pub open spec fn trimmed_start(s: Seq<char>) -> Seq<char>
    decreases s.len(),
{
    if s.len() > 0 && is_white_space(s[0]) {
        trimmed_start(s.skip(1))
    } else {
        s
    }
}

pub open spec fn trimmed_end(s: Seq<char>) -> Seq<char>
    decreases s.len(),
{
    if s.len() > 0 && is_white_space(s.last()) {
        trimmed_end(s.drop_last())
    } else {
        s
    }
}

/// The text without its leading and trailing white space.
pub open spec fn trimmed(s: Seq<char>) -> Seq<char> {
    trimmed_end(trimmed_start(s))
}

pub open spec fn all_white(s: Seq<char>) -> bool {
    forall|i: int| 0 <= i < s.len() ==> is_white_space(#[trigger] s[i])
}

/// A text that neither begins nor ends in white space is what is left of it with white space around
/// it; of white space alone nothing is left.
pub proof fn law_trimmed(a: Seq<char>, s: Seq<char>, b: Seq<char>)
    requires
        all_white(a),
        all_white(b),
        s.len() > 0 ==> !is_white_space(s[0]) && !is_white_space(s.last()),
    ensures
        trimmed(a + s + b) == s,
{
    if s.len() > 0 {
        lemma_trimmed_start(a, s + b);
        assert(a + (s + b) =~= a + s + b);
        lemma_trimmed_end(s, b);
    } else {
        lemma_trimmed_start(a + s + b, s);
        assert(all_white(a + s + b)) by {
            assert forall|i: int| 0 <= i < (a + s + b).len() implies is_white_space(
                #[trigger] (a + s + b)[i],
            ) by {
                if i < a.len() {
                    assert((a + s + b)[i] == a[i]);
                } else {
                    assert((a + s + b)[i] == b[i - a.len()]);
                }
            }
        }
        assert(a + s + b + s =~= a + s + b);
    }
}

proof fn lemma_trimmed_start(a: Seq<char>, s: Seq<char>)
    requires
        all_white(a),
        s.len() > 0 ==> !is_white_space(s[0]),
    ensures
        trimmed_start(a + s) == s,
    decreases a.len(),
{
    if a.len() == 0 {
        assert(a + s =~= s);
    } else {
        assert((a + s)[0] == a[0]);
        assert((a + s).skip(1) =~= a.skip(1) + s);
        lemma_trimmed_start(a.skip(1), s);
    }
}

proof fn lemma_trimmed_end(s: Seq<char>, b: Seq<char>)
    requires
        all_white(b),
        s.len() > 0,
        !is_white_space(s.last()),
    ensures
        trimmed_end(s + b) == s,
    decreases b.len(),
{
    if b.len() == 0 {
        assert(s + b =~= s);
    } else {
        assert((s + b).last() == b.last());
        assert((s + b).drop_last() =~= s + b.drop_last());
        lemma_trimmed_end(s, b.drop_last());
    }
}

pub fn trim(s: &str) -> (res: String)
    ensures
        res@ == trimmed(s@),
{
    let v = chars_of(s);
    let mut a: usize = 0;
    assert(s@.skip(0) =~= s@);
    while a < v.len() && v[a].is_whitespace()
        invariant
            v@ == s@,
            a <= v@.len(),
            trimmed_start(s@) == trimmed_start(s@.skip(a as int)),
        decreases v@.len() - a,
    {
        assert(s@.skip(a as int).skip(1) =~= s@.skip(a + 1));
        a = a + 1;
    }
    let ghost t = s@.skip(a as int);
    assert(trimmed_start(s@) == t);
    let mut b: usize = v.len();
    assert(t =~= s@.subrange(a as int, b as int));
    while b > a && v[b - 1].is_whitespace()
        invariant
            v@ == s@,
            a <= b <= v@.len(),
            trimmed_end(t) == trimmed_end(s@.subrange(a as int, b as int)),
        decreases b,
    {
        assert(s@.subrange(a as int, b as int).drop_last() =~= s@.subrange(a as int, b - 1));
        b = b - 1;
    }
    text_of(&v, a, b)
}

// ---------------------------------------------------------------------------------------------
// Words

/// The first position at or after `i` that holds white space, or the length of the text.
pub open spec fn word_end(s: Seq<char>, i: int) -> int
    decreases s.len() - i,
{
    if i < 0 || i >= s.len() {
        s.len() as int
    } else if is_white_space(s[i]) {
        i
    } else {
        word_end(s, i + 1)
    }
}

/// The words of the text from position `i` on: what stands between stretches of white space.
pub open spec fn words_from(s: Seq<char>, i: int) -> Seq<Seq<char>>
    decreases s.len() - i,
{
    if i < 0 || i >= s.len() {
        Seq::empty()
    } else if is_white_space(s[i]) {
        words_from(s, i + 1)
    } else if i < word_end(s, i) <= s.len() {
        seq![s.subrange(i, word_end(s, i))] + words_from(s, word_end(s, i))
    } else {
        Seq::empty()
    }
}

pub fn split_words(s: &str) -> (res: Texts)
    ensures
        res@ == words_from(s@, 0),
{
    let v = chars_of(s);
    let n: usize = v.len();
    let mut out = Texts::new();
    let mut i: usize = 0;
    while i < n
        invariant
            v@ == s@,
            n == v@.len(),
            i <= n,
            words_from(s@, 0) == out@ + words_from(s@, i as int),
        decreases n - i,
    {
        if v[i].is_whitespace() {
            i = i + 1;
        } else {
            let mut end: usize = i + 1;
            while end < n && !v[end].is_whitespace()
                invariant
                    v@ == s@,
                    n == v@.len(),
                    i < end <= n,
                    word_end(s@, i as int) == word_end(s@, end as int),
                decreases n - end,
            {
                end = end + 1;
            }
            let ghost before = out@;
            out.push(text_of(&v, i, end));
            proof {
                let tail = words_from(s@, end as int);
                assert(before + (seq![s@.subrange(i as int, end as int)] + tail) =~= out@ + tail);
            }
            i = end;
        }
    }
    assert(out@ + Seq::<Seq<char>>::empty() =~= out@);
    out
}

proof fn lemma_word_end(s: Seq<char>, i: int, end: int)
    requires
        0 <= i <= end <= s.len(),
        forall|k: int| i <= k < end ==> !is_white_space(#[trigger] s[k]),
        end == s.len() || is_white_space(s[end]),
    ensures
        word_end(s, i) == end,
    decreases end - i,
{
    if i < end {
        lemma_word_end(s, i + 1, end);
    }
}

proof fn lemma_word_end_shift(s: Seq<char>, b: Seq<char>, k: int, i: int)
    requires
        0 <= k,
        s.len() == k + b.len(),
        s.skip(k) == b,
        0 <= i <= b.len(),
    ensures
        word_end(s, k + i) == k + word_end(b, i),
    decreases b.len() - i,
{
    if i < b.len() {
        assert(s.skip(k)[i] == s[k + i]);
        lemma_word_end_shift(s, b, k, i + 1);
    }
}

proof fn lemma_words_shift(s: Seq<char>, b: Seq<char>, k: int, i: int)
    requires
        0 <= k,
        s.len() == k + b.len(),
        s.skip(k) == b,
        0 <= i <= b.len(),
    ensures
        words_from(s, k + i) == words_from(b, i),
    decreases b.len() - i,
{
    if i < b.len() {
        assert(s.skip(k)[i] == s[k + i]);
        if is_white_space(b[i]) {
            lemma_words_shift(s, b, k, i + 1);
        } else {
            lemma_word_end_shift(s, b, k, i);
            let end = word_end(b, i);
            if i < end <= b.len() {
                assert(s.subrange(k + i, k + end) =~= s.skip(k).subrange(i, end));
                lemma_words_shift(s, b, k, end);
            }
        }
    }
}

/// A text without white space is a word where white space or nothing follows it; white space before a
/// word does not matter.
pub proof fn law_words(a: Seq<char>, b: Seq<char>, c: char)
    requires
        a.len() > 0,
        forall|k: int| 0 <= k < a.len() ==> !is_white_space(#[trigger] a[k]),
        is_white_space(c),
    ensures
        words_from(a, 0) == seq![a],
        words_from(a + seq![c] + b, 0) == seq![a] + words_from(b, 0),
        words_from(seq![c] + b, 0) == words_from(b, 0),
{
    let n = a.len() as int;
    lemma_word_end(a, 0, n);
    assert(a.subrange(0, n) =~= a);
    assert(words_from(a, n) =~= Seq::empty());
    assert(words_from(a, 0) =~= seq![a]);
    let s = a + seq![c] + b;
    assert forall|k: int| 0 <= k < n implies !is_white_space(#[trigger] s[k]) by {
        assert(s[k] == a[k]);
    }
    lemma_word_end(s, 0, n);
    assert(s.subrange(0, n) =~= a);
    assert(words_from(s, n) == words_from(s, n + 1));
    assert(s.skip(n + 1) =~= b);
    lemma_words_shift(s, b, n + 1, 0);
    assert(!is_white_space(s[0]));
    let u = seq![c] + b;
    assert(u.skip(1) =~= b);
    lemma_words_shift(u, b, 1, 0);
}

} // verus!
