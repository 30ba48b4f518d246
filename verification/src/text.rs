//! Line- and token-level text utilities shared by the manifest parser, the
//! library-set resolver and the blacklist: splitting on separators, substring
//! search, prefix/suffix tests and a decimal counter parser.

use vstd::prelude::*;
use vstd::string::*;

verus! {

/// The predicate "is exactly the character `sep`".
pub open spec fn char_eq(sep: char) -> spec_fn(char) -> bool {
    |c: char| c == sep
}

/// Index of the first character satisfying `sep`, or `s.len()` if none does.
pub open spec fn first_sep(s: Seq<char>, sep: spec_fn(char) -> bool) -> nat
    decreases s.len(),
{
    if s.len() == 0 {
        0
    } else if sep(s[0]) {
        0
    } else {
        1 + first_sep(s.drop_first(), sep)
    }
}

pub proof fn lemma_first_sep_is(s: Seq<char>, sep: spec_fn(char) -> bool, k: int)
    requires
        0 <= k <= s.len(),
        forall|j: int| 0 <= j < k ==> !sep(s[j]),
        k < s.len() ==> sep(s[k]),
    ensures
        first_sep(s, sep) == k,
    decreases s.len(),
{
    if s.len() == 0 {
    } else if k == 0 {
    } else {
        assert(!sep(s[0]));
        assert forall|j: int| 0 <= j < k - 1 implies !sep(s.drop_first()[j]) by {
            assert(s.drop_first()[j] == s[j + 1]);
        }
        if k - 1 < s.drop_first().len() {
            assert(s.drop_first()[k - 1] == s[k]);
        }
        lemma_first_sep_is(s.drop_first(), sep, k - 1);
    }
}

/// Splits `s` at every character satisfying `sep`, keeping empty pieces, as
/// `str::split` does: the empty text yields one empty piece.
pub open spec fn split_when(s: Seq<char>, sep: spec_fn(char) -> bool) -> Seq<Seq<char>>
    decreases s.len(),
{
    let k = first_sep(s, sep);
    if k >= s.len() {
        seq![s]
    } else {
        seq![s.subrange(0, k as int)] + split_when(s.subrange(k as int + 1, s.len() as int), sep)
    }
}

/// One unfolding of `split_when` at a separator position known directly.
pub proof fn lemma_split_when_step(s: Seq<char>, sep: spec_fn(char) -> bool, k: int)
    requires
        0 <= k < s.len(),
        forall|j: int| 0 <= j < k ==> !sep(s[j]),
        sep(s[k]),
    ensures
        split_when(s, sep) == seq![s.subrange(0, k)] + split_when(
            s.subrange(k + 1, s.len() as int),
            sep,
        ),
{
    lemma_first_sep_is(s, sep, k);
}

/// One unfolding of `split_when` when no character separates.
pub proof fn lemma_split_when_whole(s: Seq<char>, sep: spec_fn(char) -> bool)
    requires
        forall|j: int| 0 <= j < s.len() ==> !sep(s[j]),
    ensures
        split_when(s, sep) == seq![s],
{
    lemma_first_sep_is(s, sep, s.len() as int);
}

/// The sequence of the views of a vector of strings.
pub open spec fn views_of(v: Seq<String>) -> Seq<Seq<char>> {
    v.map_values(|t: String| t@)
}

/// Splits a text at every occurrence of the character `sep`, keeping empty
/// pieces, as `str::split(sep)` does.
#[verifier::loop_isolation(false)]
pub fn split_by(s: &str, sep: char) -> (r: Vec<String>)
    ensures
        views_of(r@) == split_when(s@, char_eq(sep)),
{
    let ghost sepf = char_eq(sep);
    let n = s.unicode_len();
    let mut r: Vec<String> = Vec::new();
    let mut start: usize = 0;
    let mut i: usize = 0;
    proof {
        assert(s@.subrange(0, n as int) =~= s@);
        assert(views_of(r@) + split_when(s@, sepf) =~~= split_when(s@, sepf));
    }
    while i < n
        invariant
            0 <= start <= i <= n,
            forall|j: int| start <= j < i ==> !sepf(s@[j]),
            split_when(s@, sepf) == views_of(r@) + split_when(
                s@.subrange(start as int, n as int),
                sepf,
            ),
        decreases n - i,
    {
        let c = s.get_char(i);
        if c == sep {
            let piece = s.substring_char(start, i).to_owned();
            proof {
                let rest = s@.subrange(start as int, n as int);
                assert forall|j: int| 0 <= j < i - start implies !sepf(rest[j]) by {
                    assert(rest[j] == s@[start + j]);
                }
                assert(rest[i - start] == s@[i as int]);
                lemma_split_when_step(rest, sepf, i - start);
                assert(rest.subrange(0, i - start) =~= piece@);
                assert(rest.subrange(i - start + 1, rest.len() as int) =~= s@.subrange(
                    i as int + 1,
                    n as int,
                ));
                assert(split_when(s@, sepf) =~~= views_of(r@.push(piece)) + split_when(
                    s@.subrange(i as int + 1, n as int),
                    sepf,
                ));
            }
            r.push(piece);
            start = i + 1;
        }
        i = i + 1;
    }
    let piece = s.substring_char(start, n).to_owned();
    proof {
        let rest = s@.subrange(start as int, n as int);
        assert forall|j: int| 0 <= j < rest.len() implies !sepf(rest[j]) by {
            assert(rest[j] == s@[start + j]);
        }
        lemma_split_when_whole(rest, sepf);
        assert(split_when(s@, sepf) =~~= views_of(r@.push(piece)));
    }
    r.push(piece);
    r
}

/// The whitespace characters recognised when a line is split into tokens:
/// the ASCII ones (the registry files this crate reads hold no other kind).
pub open spec fn is_space_char(c: char) -> bool {
    c == ' ' || c == '\t' || c == '\n' || c == '\r' || c == '\u{b}' || c == '\u{c}'
}

/// The predicate form of `is_space_char`, for `split_when`.
pub open spec fn space_pred() -> spec_fn(char) -> bool {
    |c: char| is_space_char(c)
}

fn is_space(c: char) -> (r: bool)
    ensures
        r == is_space_char(c),
{
    c == ' ' || c == '\t' || c == '\n' || c == '\r' || c == '\u{b}' || c == '\u{c}'
}

/// Splits a text at every whitespace character, keeping empty pieces.
#[verifier::loop_isolation(false)]
pub fn split_at_spaces(s: &str) -> (r: Vec<String>)
    ensures
        views_of(r@) == split_when(s@, space_pred()),
{
    let ghost sepf = space_pred();
    let n = s.unicode_len();
    let mut r: Vec<String> = Vec::new();
    let mut start: usize = 0;
    let mut i: usize = 0;
    proof {
        assert(s@.subrange(0, n as int) =~= s@);
        assert(views_of(r@) + split_when(s@, sepf) =~~= split_when(s@, sepf));
    }
    while i < n
        invariant
            0 <= start <= i <= n,
            forall|j: int| start <= j < i ==> !sepf(s@[j]),
            split_when(s@, sepf) == views_of(r@) + split_when(
                s@.subrange(start as int, n as int),
                sepf,
            ),
        decreases n - i,
    {
        let c = s.get_char(i);
        if is_space(c) {
            let piece = s.substring_char(start, i).to_owned();
            proof {
                let rest = s@.subrange(start as int, n as int);
                assert forall|j: int| 0 <= j < i - start implies !sepf(rest[j]) by {
                    assert(rest[j] == s@[start + j]);
                }
                assert(rest[i - start] == s@[i as int]);
                lemma_split_when_step(rest, sepf, i - start);
                assert(rest.subrange(0, i - start) =~= piece@);
                assert(rest.subrange(i - start + 1, rest.len() as int) =~= s@.subrange(
                    i as int + 1,
                    n as int,
                ));
                assert(split_when(s@, sepf) =~~= views_of(r@.push(piece)) + split_when(
                    s@.subrange(i as int + 1, n as int),
                    sepf,
                ));
            }
            r.push(piece);
            start = i + 1;
        }
        i = i + 1;
    }
    let piece = s.substring_char(start, n).to_owned();
    proof {
        let rest = s@.subrange(start as int, n as int);
        assert forall|j: int| 0 <= j < rest.len() implies !sepf(rest[j]) by {
            assert(rest[j] == s@[start + j]);
        }
        lemma_split_when_whole(rest, sepf);
        assert(split_when(s@, sepf) =~~= views_of(r@.push(piece)));
    }
    r.push(piece);
    r
}

/// The pieces of `v` that are not empty, in order.
pub open spec fn nonempty_pred() -> spec_fn(Seq<char>) -> bool {
    |t: Seq<char>| t.len() > 0
}

/// Keeps the non-empty strings of `v`, in order.
#[verifier::loop_isolation(false)]
pub fn drop_empty(v: Vec<String>) -> (r: Vec<String>)
    ensures
        views_of(r@) == views_of(v@).filter(nonempty_pred()),
{
    let mut r: Vec<String> = Vec::new();
    let mut i: usize = 0;
    proof {
        reveal(Seq::filter);
        assert(views_of(v@.subrange(0, 0)) =~= Seq::<Seq<char>>::empty());
        assert(views_of(r@) =~= views_of(v@.subrange(0, 0)).filter(nonempty_pred()));
    }
    while i < v.len()
        invariant
            0 <= i <= v.len(),
            views_of(r@) == views_of(v@.subrange(0, i as int)).filter(nonempty_pred()),
        decreases v.len() - i,
    {
        proof {
            reveal(Seq::filter);
            let pref = views_of(v@.subrange(0, i as int + 1));
            assert(pref.drop_last() =~= views_of(v@.subrange(0, i as int)));
            assert(pref.last() == v@[i as int]@);
            if v@[i as int]@.len() > 0 {
                assert(views_of(r@.push(v@[i as int])) =~= views_of(r@).push(v@[i as int]@));
            }
        }
        if v[i].as_str().unicode_len() > 0 {
            let piece = v[i].clone();
            r.push(piece);
        }
        i = i + 1;
    }
    proof {
        assert(v@.subrange(0, v@.len() as int) =~= v@);
    }
    r
}

/// Character-for-character equality of two string slices.
#[verifier::loop_isolation(false)]
pub fn str_eq(a: &str, b: &str) -> (r: bool)
    ensures
        r == (a@ == b@),
{
    let na = a.unicode_len();
    let nb = b.unicode_len();
    if na != nb {
        return false;
    }
    let mut i: usize = 0;
    while i < na
        invariant
            0 <= i <= na,
            forall|j: int| 0 <= j < i ==> a@[j] == b@[j],
        decreases na - i,
    {
        if a.get_char(i) != b.get_char(i) {
            return false;
        }
        i = i + 1;
    }
    proof {
        assert(a@ =~= b@);
    }
    true
}

/// `p` stands at the start of `s`.
pub open spec fn has_prefix(s: Seq<char>, p: Seq<char>) -> bool {
    p.len() <= s.len() && s.subrange(0, p.len() as int) == p
}

/// `p` stands at the end of `s`.
pub open spec fn has_suffix(s: Seq<char>, p: Seq<char>) -> bool {
    p.len() <= s.len() && s.subrange(s.len() - p.len(), s.len() as int) == p
}

/// Whether `s` starts with the prefix `p`, as `str::starts_with` does.
#[verifier::loop_isolation(false)]
pub fn starts_with(s: &str, p: &str) -> (r: bool)
    ensures
        r == has_prefix(s@, p@),
{
    let ns = s.unicode_len();
    let np = p.unicode_len();
    if np > ns {
        return false;
    }
    let mut i: usize = 0;
    while i < np
        invariant
            0 <= i <= np <= ns,
            forall|j: int| 0 <= j < i ==> s@[j] == p@[j],
        decreases np - i,
    {
        if s.get_char(i) != p.get_char(i) {
            proof {
                assert(s@.subrange(0, np as int)[i as int] != p@[i as int]);
            }
            return false;
        }
        i = i + 1;
    }
    proof {
        assert(s@.subrange(0, np as int) =~= p@);
    }
    true
}

/// Whether `s` ends with the suffix `p`, as `str::ends_with` does.
#[verifier::loop_isolation(false)]
pub fn ends_with(s: &str, p: &str) -> (r: bool)
    ensures
        r == has_suffix(s@, p@),
{
    let ns = s.unicode_len();
    let np = p.unicode_len();
    if np > ns {
        return false;
    }
    let off = ns - np;
    let mut i: usize = 0;
    while i < np
        invariant
            0 <= i <= np <= ns,
            off == ns - np,
            forall|j: int| 0 <= j < i ==> s@[off + j] == p@[j],
        decreases np - i,
    {
        if s.get_char(off + i) != p.get_char(i) {
            proof {
                assert(s@.subrange(off as int, ns as int)[i as int] != p@[i as int]);
            }
            return false;
        }
        i = i + 1;
    }
    proof {
        assert(s@.subrange(off as int, ns as int) =~= p@);
    }
    true
}

/// `needle` stands in `hay` at position `i`.
pub open spec fn matches_at(hay: Seq<char>, needle: Seq<char>, i: int) -> bool {
    0 <= i && i + needle.len() <= hay.len() && hay.subrange(i, i + needle.len()) == needle
}

/// `needle` occurs somewhere in `hay`.
pub open spec fn contains_sub(hay: Seq<char>, needle: Seq<char>) -> bool {
    exists|i: int| matches_at(hay, needle, i)
}

/// Whether `needle` occurs in `hay`, as `str::contains` does for string
/// patterns.
#[verifier::loop_isolation(false)]
pub fn contains_str(hay: &str, needle: &str) -> (r: bool)
    ensures
        r == contains_sub(hay@, needle@),
{
    let nh = hay.unicode_len();
    let nn = needle.unicode_len();
    if nn > nh {
        proof {
            assert(forall|k: int| !matches_at(hay@, needle@, k));
        }
        return false;
    }
    let mut i: usize = 0;
    while i <= nh - nn
        invariant
            0 <= i <= nh - nn + 1,
            nn <= nh,
            forall|k: int| k < i ==> !matches_at(hay@, needle@, k),
        decreases nh - nn + 1 - i,
    {
        let mut j: usize = 0;
        let mut all_match = true;
        while j < nn
            invariant
                0 <= j <= nn,
                i + nn <= nh,
                all_match <==> (forall|m: int| 0 <= m < j ==> hay@[i + m] == needle@[m]),
            decreases nn - j,
        {
            if hay.get_char(i + j) != needle.get_char(j) {
                all_match = false;
                proof {
                    assert(hay@[i + j] != needle@[j as int]);
                }
                j = nn;
            } else {
                j = j + 1;
            }
        }
        if all_match {
            proof {
                assert(hay@.subrange(i as int, i + nn) =~= needle@);
                assert(matches_at(hay@, needle@, i as int));
            }
            return true;
        }
        proof {
            let w = choose|m: int| 0 <= m < nn && hay@[i + m] != needle@[m];
            assert(hay@.subrange(i as int, i + nn)[w] != needle@[w]);
            assert(!matches_at(hay@, needle@, i as int));
        }
        i = i + 1;
    }
    proof {
        assert forall|k: int| !matches_at(hay@, needle@, k) by {}
    }
    false
}

/// `s` without one trailing line break, if it has one.
pub open spec fn chop_newline(s: Seq<char>) -> Seq<char> {
    if s.len() > 0 && s[s.len() - 1] == '\n' {
        s.drop_last()
    } else {
        s
    }
}

/// A line without one trailing carriage return, if it has one.
pub open spec fn strip_cr(l: Seq<char>) -> Seq<char> {
    if l.len() > 0 && l[l.len() - 1] == '\r' {
        l.drop_last()
    } else {
        l
    }
}

/// The function form of `strip_cr`, for `map_values`.
pub open spec fn strip_cr_fn() -> spec_fn(Seq<char>) -> Seq<char> {
    |l: Seq<char>| strip_cr(l)
}

/// The lines of a text, as `str::lines` yields them: split at `'\n'`, one
/// trailing `'\r'` removed from each line, a final line break producing no
/// empty last line, and the empty text yielding no lines.
pub open spec fn spec_lines(s: Seq<char>) -> Seq<Seq<char>> {
    if s.len() == 0 {
        Seq::empty()
    } else {
        split_when(chop_newline(s), char_eq('\n')).map_values(strip_cr_fn())
    }
}

/// Splits a text into its lines, as `str::lines` does.
#[verifier::loop_isolation(false)]
pub fn split_lines(s: &str) -> (r: Vec<String>)
    ensures
        views_of(r@) == spec_lines(s@),
{
    let n = s.unicode_len();
    if n == 0 {
        let r: Vec<String> = Vec::new();
        proof {
            assert(views_of(r@) =~= spec_lines(s@));
        }
        return r;
    }
    let body = if s.get_char(n - 1) == '\n' {
        s.substring_char(0, n - 1)
    } else {
        s
    };
    proof {
        assert(body@ =~= chop_newline(s@));
    }
    let parts = split_by(body, '\n');
    let mut r: Vec<String> = Vec::new();
    let mut i: usize = 0;
    proof {
        assert(views_of(r@) =~= views_of(parts@.subrange(0, 0)).map_values(strip_cr_fn()));
    }
    while i < parts.len()
        invariant
            0 <= i <= parts.len(),
            views_of(r@) == views_of(parts@.subrange(0, i as int)).map_values(strip_cr_fn()),
        decreases parts.len() - i,
    {
        let part = &parts[i];
        let m = part.as_str().unicode_len();
        let line = if m > 0 && part.as_str().get_char(m - 1) == '\r' {
            part.as_str().substring_char(0, m - 1).to_owned()
        } else {
            part.clone()
        };
        proof {
            assert(line@ =~= strip_cr(parts@[i as int]@));
            let prev = views_of(parts@.subrange(0, i as int)).map_values(strip_cr_fn());
            let next = views_of(parts@.subrange(0, i as int + 1)).map_values(strip_cr_fn());
            assert(next =~= prev.push(strip_cr(parts@[i as int]@)));
            assert(views_of(r@.push(line)) =~= views_of(r@).push(line@));
        }
        r.push(line);
        i = i + 1;
    }
    proof {
        assert(parts@.subrange(0, parts@.len() as int) =~= parts@);
    }
    r
}

/// A token with one surrounding double-quote character removed from each end,
/// where present.
pub open spec fn spec_strip_quotes(s: Seq<char>) -> Seq<char> {
    let a = if s.len() > 0 && s[0] == '"' {
        s.drop_first()
    } else {
        s
    };
    if a.len() > 0 && a[a.len() - 1] == '"' {
        a.drop_last()
    } else {
        a
    }
}

/// Removes the surrounding double quotes of a token, one from each end.
pub fn strip_quotes(s: &str) -> (r: String)
    ensures
        r@ == spec_strip_quotes(s@),
{
    let n = s.unicode_len();
    let lo: usize = if n > 0 && s.get_char(0) == '"' {
        1
    } else {
        0
    };
    let hi: usize = if n > lo && s.get_char(n - 1) == '"' {
        n - 1
    } else {
        n
    };
    let r = s.substring_char(lo, hi).to_owned();
    proof {
        assert(r@ =~= spec_strip_quotes(s@));
    }
    r
}

/// A decimal digit.
pub open spec fn is_digit_char(c: char) -> bool {
    ('0' as u32) <= (c as u32) && (c as u32) <= ('9' as u32)
}

/// Every character of `s` is a decimal digit.
pub open spec fn all_digits(s: Seq<char>) -> bool {
    forall|i: int| 0 <= i < s.len() ==> is_digit_char(s[i])
}

/// The value of a digit string read in base ten.
pub open spec fn digits_val(s: Seq<char>) -> int
    decreases s.len(),
{
    if s.len() == 0 {
        0
    } else {
        digits_val(s.drop_last()) * 10 + ((s[s.len() - 1] as u32) - ('0' as u32))
    }
}

/// What a digit string parses to as a `u32`: its value, if it is non-empty,
/// all digits, and within range.
pub open spec fn spec_parse_u32(s: Seq<char>) -> Option<u32> {
    if s.len() > 0 && all_digits(s) && digits_val(s) <= u32::MAX {
        Some(digits_val(s) as u32)
    } else {
        None
    }
}

/// Parses a non-empty all-digit string as a `u32`; `None` on an empty string,
/// a non-digit character, or a value out of range.
#[verifier::loop_isolation(false)]
pub fn parse_u32(s: &str) -> (r: Option<u32>)
    ensures
        r == spec_parse_u32(s@),
{
    let n = s.unicode_len();
    if n == 0 {
        return None;
    }
    let mut val: u64 = 0;
    let mut over = false;
    let mut i: usize = 0;
    proof {
        assert(s@.subrange(0, 0) =~= Seq::<char>::empty());
    }
    while i < n
        invariant
            0 <= i <= n,
            forall|j: int| 0 <= j < i ==> is_digit_char(s@[j]),
            !over ==> val == digits_val(s@.subrange(0, i as int)) && val <= u32::MAX,
            over ==> digits_val(s@.subrange(0, i as int)) > u32::MAX,
        decreases n - i,
    {
        let c = s.get_char(i);
        let cu = c as u32;
        if cu < 48 || cu > 57 {
            proof {
                assert(!is_digit_char(s@[i as int]));
            }
            return None;
        }
        proof {
            let pref = s@.subrange(0, i as int + 1);
            assert(pref.drop_last() =~= s@.subrange(0, i as int));
            assert(pref[pref.len() - 1] == s@[i as int]);
            if over {
                assert(all_digits(s@.subrange(0, i as int)));
            }
        }
        let d = (cu - 48) as u64;
        if over {
            proof {
                let prev = digits_val(s@.subrange(0, i as int));
                assert(digits_val(s@.subrange(0, i as int + 1)) == prev * 10 + d);
                assert(prev * 10 + d > u32::MAX) by (nonlinear_arith)
                    requires
                        prev > u32::MAX,
                        d >= 0,
                {}
            }
        } else {
            let next = val * 10 + d;
            if next > 0xffff_ffff {
                over = true;
            } else {
                val = next;
            }
        }
        i = i + 1;
    }
    proof {
        assert(s@.subrange(0, n as int) =~= s@);
    }
    if over {
        None
    } else {
        Some(val as u32)
    }
}

} // verus!


