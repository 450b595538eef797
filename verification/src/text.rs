//! Text as sequences of characters: searching, splitting and case folding.
//!
//! Every contract in this crate speaks of a string through its view, a
//! `Seq<char>`. The spec functions here say what it means for a pattern to
//! occur in a text and what the pieces of a split are; the executable
//! functions compute the same on `&str`.

use vstd::prelude::*;
use vstd::std_specs::iter::IteratorSpec;

verus! {

/// The pattern `p` occurs in `s` at index `i`.
pub open spec fn occurs_at(s: Seq<char>, p: Seq<char>, i: int) -> bool {
    &&& 0 <= i
    &&& i + p.len() <= s.len()
    &&& s.subrange(i, i + p.len()) == p
}

/// `i` is the index of the first occurrence of `p` in `s`.
pub open spec fn first_at(s: Seq<char>, p: Seq<char>, i: int) -> bool {
    &&& occurs_at(s, p, i)
    &&& forall|j: int| 0 <= j < i ==> !occurs_at(s, p, j)
}

/// The index of the first occurrence of `p` in `s`, if there is one.
pub open spec fn find(s: Seq<char>, p: Seq<char>) -> Option<int> {
    if exists|i: int| first_at(s, p, i) {
        Some(choose|i: int| first_at(s, p, i))
    } else {
        None
    }
}

/// `s` begins with `p`.
pub open spec fn starts_with(s: Seq<char>, p: Seq<char>) -> bool {
    p.len() <= s.len() && s.take(p.len() as int) == p
}

/// `s` ends with `p`.
pub open spec fn ends_with(s: Seq<char>, p: Seq<char>) -> bool {
    p.len() <= s.len() && s.skip(s.len() - p.len()) == p
}

/// The pieces of `s` between the occurrences of the separator `sep`, found
/// from left to right without overlap. A text without the separator is one
/// piece; a text that ends with the separator has an empty last piece. With
/// an empty separator the text is one piece.
pub open spec fn split(s: Seq<char>, sep: Seq<char>) -> Seq<Seq<char>>
    decreases s.len(),
{
    match find(s, sep) {
        Some(i) if sep.len() > 0 && 0 <= i && i + sep.len() <= s.len() => seq![s.take(i)] + split(
            s.skip(i + sep.len()),
            sep,
        ),
        _ => seq![s],
    }
}

/// The piece of `s` between the first occurrence of `sep` and the second (or
/// the end of the text): the second piece of `split(s, sep)`.
pub open spec fn second_piece(s: Seq<char>, sep: Seq<char>) -> Option<Seq<char>> {
    let pieces = split(s, sep);
    if pieces.len() >= 2 {
        Some(pieces[1])
    } else {
        None
    }
}

/// `s` without its first character, where that character is `c`.
pub open spec fn without_leading(s: Seq<char>, c: char) -> Seq<char> {
    if s.len() > 0 && s[0] == c {
        s.skip(1)
    } else {
        s
    }
}

/// `s` without its last character, where that character is `c`.
pub open spec fn without_trailing(s: Seq<char>, c: char) -> Seq<char> {
    if s.len() > 0 && s.last() == c {
        s.drop_last()
    } else {
        s
    }
}

/// The character that stands for the digit `d`.
pub open spec fn digit(d: nat) -> char
    recommends
        d < 10,
{
    if d == 0 {
        '0'
    } else if d == 1 {
        '1'
    } else if d == 2 {
        '2'
    } else if d == 3 {
        '3'
    } else if d == 4 {
        '4'
    } else if d == 5 {
        '5'
    } else if d == 6 {
        '6'
    } else if d == 7 {
        '7'
    } else if d == 8 {
        '8'
    } else {
        '9'
    }
}

/// The decimal numeral of `n`, without leading zeros.
pub open spec fn decimal(n: nat) -> Seq<char>
    decreases n,
{
    if n < 10 {
        seq![digit(n)]
    } else {
        decimal(n / 10).push(digit(n % 10))
    }
}

/// What `str::to_lowercase` returns for a text.
pub uninterp spec fn lowercase_of(s: Seq<char>) -> Seq<char>;

/// What `str::to_uppercase` returns for a text.
pub uninterp spec fn uppercase_of(s: Seq<char>) -> Seq<char>;

/// The first occurrence is unique, so `find` returns it.
pub proof fn lemma_find_first(s: Seq<char>, p: Seq<char>, i: int)
    requires
        first_at(s, p, i),
    ensures
        find(s, p) == Some(i),
{
    let k = choose|k: int| first_at(s, p, k);
    assert(first_at(s, p, k));
    if k < i {
        assert(!occurs_at(s, p, k));
    }
    if i < k {
        assert(!occurs_at(s, p, i));
    }
}

/// Without an occurrence `find` returns nothing.
pub proof fn lemma_find_none(s: Seq<char>, p: Seq<char>)
    requires
        forall|j: int| !occurs_at(s, p, j),
    ensures
        find(s, p) is None,
{
    assert forall|i: int| !first_at(s, p, i) by {
        assert(!occurs_at(s, p, i));
    }
}

/// A split always gives at least one piece.
pub proof fn lemma_split_has_a_piece(s: Seq<char>, sep: Seq<char>)
    ensures
        split(s, sep).len() >= 1,
{
}

/// An occurrence in a suffix of `s` is an occurrence in `s`, shifted.
pub proof fn lemma_occurs_in_suffix(s: Seq<char>, p: Seq<char>, from: int, j: int)
    requires
        0 <= from <= s.len(),
        0 <= j,
    ensures
        occurs_at(s.skip(from), p, j) == occurs_at(s, p, from + j),
{
    if j + p.len() <= s.len() - from {
        assert(s.skip(from).subrange(j, j + p.len()) =~= s.subrange(from + j, from + j + p.len()));
    }
}

/// The characters of a string, in a vector.
pub fn chars_of(s: &str) -> (v: Vec<char>)
    ensures
        v@ == s@,
{
    let mut v: Vec<char> = Vec::new();
    for c in it: s.chars()
        invariant
            it.seq() == s@,
            v@ == it.seq().take(it.index() as int),
    {
        v.push(c);
    }
    v
}

/// An owned copy of the characters `from..to` of `s`.
pub fn piece(s: &str, from: usize, to: usize) -> (r: String)
    requires
        from <= to <= s@.len(),
    ensures
        r@ == s@.subrange(from as int, to as int),
{
    s.substring_char(from, to).to_owned()
}

/// Whether `pat` occurs in `hay` at index `at`.
fn occurs(hay: &Vec<char>, pat: &Vec<char>, at: usize) -> (r: bool)
    requires
        at + pat.len() <= hay.len(),
    ensures
        r == occurs_at(hay@, pat@, at as int),
{
    let mut k: usize = 0;
    while k < pat.len()
        invariant
            k <= pat.len(),
            at + pat.len() <= hay.len(),
            forall|j: int| 0 <= j < k ==> hay@[at + j] == pat@[j],
        decreases pat.len() - k,
    {
        if hay[at + k] != pat[k] {
            assert(hay@.subrange(at as int, at + pat.len())[k as int] != pat@[k as int]);
            return false;
        }
        k += 1;
    }
    assert(hay@.subrange(at as int, at + pat.len()) =~= pat@);
    true
}

/// The first occurrence of `pat` in `hay` at or after index `from`.
pub fn find_from(hay: &Vec<char>, from: usize, pat: &Vec<char>) -> (r: Option<usize>)
    requires
        from <= hay.len(),
    ensures
        match r {
            Some(i) => from <= i && find(hay@.skip(from as int), pat@) == Some(i - from),
            None => find(hay@.skip(from as int), pat@) is None,
        },
{
    let ghost rest = hay@.skip(from as int);
    let mut i: usize = from;
    while pat.len() <= hay.len() - i
        invariant
            from <= i <= hay.len(),
            rest == hay@.skip(from as int),
            forall|j: int| 0 <= j < i - from ==> !occurs_at(rest, pat@, j),
        decreases hay.len() - i,
    {
        proof {
            lemma_occurs_in_suffix(hay@, pat@, from as int, i - from);
        }
        if occurs(hay, pat, i) {
            proof {
                lemma_find_first(rest, pat@, i - from);
            }
            return Some(i);
        }
        assert(pat@.len() > 0) by {
            if pat@.len() == 0 {
                assert(hay@.subrange(i as int, i + pat@.len()) =~= pat@);
            }
        }
        i += 1;
    }
    proof {
        lemma_find_none(rest, pat@);
    }
    None
}

/// The index of the first occurrence of `pat` in `s`, counted in characters.
pub fn find_text(s: &str, pat: &str) -> (r: Option<usize>)
    ensures
        match r {
            Some(i) => find(s@, pat@) == Some(i as int),
            None => find(s@, pat@) is None,
        },
{
    let hay = chars_of(s);
    let needle = chars_of(pat);
    assert(hay@.skip(0) =~= hay@);
    find_from(&hay, 0, &needle)
}

/// Whether `s` begins with `p`.
pub fn has_prefix(s: &str, p: &str) -> (r: bool)
    ensures
        r == starts_with(s@, p@),
{
    let hay = chars_of(s);
    let pat = chars_of(p);
    if pat.len() > hay.len() {
        return false;
    }
    let r = occurs(&hay, &pat, 0);
    assert(hay@.subrange(0int, 0int + pat@.len()) =~= hay@.take(pat@.len() as int));
    r
}

/// Whether `s` ends with `p`.
pub fn has_suffix(s: &str, p: &str) -> (r: bool)
    ensures
        r == ends_with(s@, p@),
{
    let hay = chars_of(s);
    let pat = chars_of(p);
    if pat.len() > hay.len() {
        return false;
    }
    let at: usize = hay.len() - pat.len();
    let r = occurs(&hay, &pat, at);
    assert(hay@.subrange(at as int, at + pat@.len()) =~= hay@.skip(hay@.len() - pat@.len()));
    r
}

/// Whether two strings hold the same characters.
pub fn same_text(a: &str, b: &str) -> (r: bool)
    ensures
        r == (a@ == b@),
{
    let x = chars_of(a);
    let y = chars_of(b);
    if x.len() != y.len() {
        return false;
    }
    let r = occurs(&x, &y, 0);
    assert(x@.subrange(0int, 0int + y@.len()) =~= x@);
    r
}

/// The pieces of `s` between the occurrences of `sep`.
pub fn split_text(s: &str, sep: &str) -> (r: Vec<String>)
    ensures
        r.deep_view() == split(s@, sep@),
{
    let hay = chars_of(s);
    let pat = chars_of(sep);
    let mut out: Vec<String> = Vec::new();
    if pat.len() == 0 {
        out.push(s.to_owned());
        assert(out.deep_view() =~= seq![s@]);
        return out;
    }
    let mut start: usize = 0;
    assert(s@.skip(0) =~= s@);
    assert(out.deep_view() + split(s@, sep@) =~= split(s@, sep@));
    loop
        invariant_except_break
            split(s@, sep@) == out.deep_view() + split(s@.skip(start as int), sep@),
        invariant
            hay@ == s@,
            pat@ == sep@,
            pat@.len() > 0,
            start <= hay.len(),
        ensures
            out.deep_view() == split(s@, sep@),
        decreases hay.len() - start,
    {
        let ghost before = out.deep_view();
        let ghost rest = s@.skip(start as int);
        match find_from(&hay, start, &pat) {
            Some(i) => {
                assert(first_at(rest, sep@, i - start));
                out.push(piece(s, start, i));
                proof {
                    assert(rest.take(i - start) =~= s@.subrange(start as int, i as int));
                    assert(rest.skip(i - start + pat@.len()) =~= s@.skip(i + pat@.len()));
                    assert(out.deep_view() =~= before + seq![rest.take(i - start)]);
                }
                start = i + pat.len();
            },
            None => {
                out.push(piece(s, start, hay.len()));
                proof {
                    assert(rest =~= s@.subrange(start as int, hay@.len() as int));
                    assert(out.deep_view() =~= before + seq![rest]);
                }
                break ;
            },
        }
    }
    out
}

/// A copy of `s` without its first character, where that character is `c`.
pub fn strip_leading(s: &str, c: char) -> (r: String)
    ensures
        r@ == without_leading(s@, c),
{
    let chars = chars_of(s);
    if chars.len() > 0 && chars[0] == c {
        piece(s, 1, chars.len())
    } else {
        assert(s@.subrange(0, s@.len() as int) =~= s@);
        piece(s, 0, chars.len())
    }
}

/// A copy of `s` without its last character, where that character is `c`.
pub fn strip_trailing(s: &str, c: char) -> (r: String)
    ensures
        r@ == without_trailing(s@, c),
{
    let chars = chars_of(s);
    if chars.len() > 0 && chars[chars.len() - 1] == c {
        piece(s, 0, chars.len() - 1)
    } else {
        assert(s@.subrange(0, s@.len() as int) =~= s@);
        piece(s, 0, chars.len())
    }
}

/// The string of one decimal digit.
fn digit_text(d: u8) -> (r: &'static str)
    requires
        d < 10,
    ensures
        r@ == seq![digit(d as nat)],
{
    proof {
        reveal_strlit("0");
        reveal_strlit("1");
        reveal_strlit("2");
        reveal_strlit("3");
        reveal_strlit("4");
        reveal_strlit("5");
        reveal_strlit("6");
        reveal_strlit("7");
        reveal_strlit("8");
        reveal_strlit("9");
    }
    let r = if d == 0 {
        "0"
    } else if d == 1 {
        "1"
    } else if d == 2 {
        "2"
    } else if d == 3 {
        "3"
    } else if d == 4 {
        "4"
    } else if d == 5 {
        "5"
    } else if d == 6 {
        "6"
    } else if d == 7 {
        "7"
    } else if d == 8 {
        "8"
    } else {
        "9"
    };
    assert(r@ =~= seq![digit(d as nat)]);
    r
}

/// The decimal numeral of `n`.
pub fn decimal_text(n: u128) -> (r: String)
    ensures
        r@ == decimal(n as nat),
    decreases n,
{
    if n < 10 {
        digit_text(n as u8).to_owned()
    } else {
        let mut r = decimal_text(n / 10);
        r.append(digit_text((n % 10) as u8));
        assert(r@ =~= decimal((n / 10) as nat).push(digit((n % 10) as nat)));
        r
    }
}

/// `str::to_lowercase` of the standard library: the lower-case form of a
/// text under Unicode's case mapping. The result is a function of the text
/// alone; the contract gives it the name `lowercase_of` and claims nothing
/// else of it.
#[verifier::external_body]
pub(crate) fn lowercase(s: &str) -> (r: String)
    ensures
        r@ == lowercase_of(s@),
{
    s.to_lowercase()
}

/// `str::to_uppercase` of the standard library: the upper-case form of a
/// text under Unicode's case mapping. The result is a function of the text
/// alone; the contract gives it the name `uppercase_of` and claims nothing
/// else of it.
#[verifier::external_body]
pub(crate) fn uppercase(s: &str) -> (r: String)
    ensures
        r@ == uppercase_of(s@),
{
    s.to_uppercase()
}

} // verus!
