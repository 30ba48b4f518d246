//! The blacklist: name-based rules that keep non-game entries (runtime
//! redistributables, soundtracks, compatibility-layer tools) out of the
//! launchable catalog.

use vstd::prelude::*;
use crate::manifest::ManifestRecord;
use crate::manifest::rec_views;
use crate::text::{all_digits, char_eq, ends_with, first_sep, has_prefix, has_suffix,
    is_digit_char, lemma_first_sep_is, split_by, split_when, starts_with, str_eq};

verus! {

/// The predicate "is an exponent marker".
pub open spec fn exp_marker() -> spec_fn(char) -> bool {
    |c: char| c == 'e' || c == 'E'
}

/// `s` without one leading sign character, if it has one.
pub open spec fn opt_sign(s: Seq<char>) -> Seq<char> {
    if s.len() > 0 && (s[0] == '+' || s[0] == '-') {
        s.drop_first()
    } else {
        s
    }
}

/// A mantissa: non-empty, made of digits and at most one decimal point, with
/// at least one digit.
pub open spec fn is_mantissa(s: Seq<char>) -> bool {
    &&& s.len() > 0
    &&& forall|i: int| 0 <= i < s.len() ==> is_digit_char(#[trigger] s[i]) || s[i] == '.'
    &&& exists|i: int| 0 <= i < s.len() && is_digit_char(#[trigger] s[i])
    &&& forall|i: int, j: int| 0 <= i < j < s.len() && #[trigger] s[i] == '.' ==> #[trigger] s[j] != '.'
}

/// Some digit of the mantissa is not zero.
pub open spec fn mantissa_nonzero(s: Seq<char>) -> bool {
    exists|i: int| 0 <= i < s.len() && is_digit_char(#[trigger] s[i]) && s[i] != '0'
}

/// An exponent: an optional sign followed by at least one digit.
pub open spec fn is_exponent(s: Seq<char>) -> bool {
    opt_sign(s).len() > 0 && all_digits(opt_sign(s))
}

/// The mantissa part of a token: what stands after the optional sign and
/// before the first exponent marker.
pub open spec fn mantissa_of(s: Seq<char>) -> Seq<char> {
    let b = opt_sign(s);
    let k = first_sep(b, exp_marker());
    if k >= b.len() {
        b
    } else {
        b.subrange(0, k as int)
    }
}

/// The exponent part of a token: what stands after the first exponent marker,
/// or nothing when no marker occurs.
pub open spec fn exponent_of(s: Seq<char>) -> Option<Seq<char>> {
    let b = opt_sign(s);
    let k = first_sep(b, exp_marker());
    if k >= b.len() {
        None
    } else {
        Some(b.subrange(k as int + 1, b.len() as int))
    }
}

/// A decimal number token: an optional sign, a mantissa, and an optional
/// exponent.
pub open spec fn is_number_token(s: Seq<char>) -> bool {
    is_mantissa(mantissa_of(s)) && match exponent_of(s) {
        None => true,
        Some(e) => is_exponent(e),
    }
}

/// A decimal number token whose value is not zero.
pub open spec fn is_nonzero_number(s: Seq<char>) -> bool {
    is_number_token(s) && mantissa_nonzero(mantissa_of(s))
}

/// Whether a token reads as a decimal number other than zero: an optional
/// sign, digits with at most one decimal point and at least one digit, an
/// optional signed integer exponent, and some mantissa digit not `0`.
#[verifier::loop_isolation(false)]
#[verifier::rlimit(50)]
pub fn nonzero_number_token(s: &str) -> (r: bool)
    ensures
        r == is_nonzero_number(s@),
{
    let n = s.unicode_len();
    let mut p: usize = 0;
    if n > 0 {
        let c0 = s.get_char(0);
        if c0 == '+' || c0 == '-' {
            p = 1;
        }
    }
    let ghost b = opt_sign(s@);
    proof {
        assert(b =~= s@.subrange(p as int, n as int));
    }
    // Find the first exponent marker, if any.
    let mut k: usize = n;
    let mut idx: usize = p;
    while idx < n
        invariant
            p <= idx <= n,
            p <= k <= n,
            k == n ==> forall|j: int| p <= j < idx ==> !(exp_marker()(s@[j])),
            k < n ==> k < idx && exp_marker()(s@[k as int]) && forall|j: int|
                p <= j < k ==> !(exp_marker()(s@[j])),
        decreases n - idx,
    {
        if k == n {
            let c = s.get_char(idx);
            if c == 'e' || c == 'E' {
                k = idx;
            }
        }
        idx = idx + 1;
    }
    proof {
        assert forall|j: int| 0 <= j < k - p implies !(exp_marker()(b[j])) by {
            assert(b[j] == s@[p + j]);
        }
        if k < n {
            assert(b[k - p] == s@[k as int]);
        }
        lemma_first_sep_is(b, exp_marker(), k - p);
        if k < n {
            assert(mantissa_of(s@) =~= s@.subrange(p as int, k as int));
            assert(exponent_of(s@) == Some(b.subrange(k - p + 1, b.len() as int)));
            assert(b.subrange(k - p + 1, b.len() as int) =~= s@.subrange(k as int + 1, n as int));
        } else {
            assert(mantissa_of(s@) =~= s@.subrange(p as int, k as int));
            assert(exponent_of(s@) is None);
        }
    }
    let ghost mant = mantissa_of(s@);
    if k == p {
        // Empty mantissa.
        proof {
            assert(!is_mantissa(mant));
        }
        return false;
    }
    // Scan the mantissa.
    let mut i: usize = p;
    let mut saw_digit = false;
    let mut saw_nonzero = false;
    let mut saw_dot = false;
    let ghost mut dot_pos: int = 0;
    while i < k
        invariant
            p <= i <= k <= n,
            mant =~= s@.subrange(p as int, k as int),
            forall|j: int| p <= j < i ==> is_digit_char(#[trigger] s@[j]) || s@[j] == '.',
            saw_digit <==> exists|j: int| p <= j < i && is_digit_char(#[trigger] s@[j]),
            saw_nonzero <==> exists|j: int|
                p <= j < i && is_digit_char(#[trigger] s@[j]) && s@[j] != '0',
            saw_dot <==> exists|j: int| p <= j < i && #[trigger] s@[j] == '.',
            saw_dot ==> p <= dot_pos < i && s@[dot_pos] == '.',
            saw_dot ==> forall|j: int| p <= j < i && #[trigger] s@[j] == '.' ==> j == dot_pos,
        decreases k - i,
    {
        let c = s.get_char(i);
        let cu = c as u32;
        if 48 <= cu && cu <= 57 {
            saw_digit = true;
            if cu != 48 {
                saw_nonzero = true;
            }
        } else if c == '.' {
            if saw_dot {
                // A second decimal point: not a number.
                proof {
                    assert(mant[dot_pos - p] == s@[dot_pos]);
                    assert(mant[i - p] == s@[i as int]);
                    assert(!is_mantissa(mant));
                }
                return false;
            }
            saw_dot = true;
            proof {
                dot_pos = i as int;
            }
        } else {
            // Neither digit nor point: not a number.
            proof {
                assert(mant[i - p] == s@[i as int]);
                assert(!is_mantissa(mant));
            }
            return false;
        }
        i = i + 1;
    }
    if !saw_digit {
        proof {
            assert forall|j: int| 0 <= j < mant.len() implies !is_digit_char(mant[j]) by {
                assert(mant[j] == s@[p + j]);
            }
        }
        return false;
    }
    proof {
        assert forall|j: int| 0 <= j < mant.len() implies is_digit_char(#[trigger] mant[j])
            || mant[j] == '.' by {
            assert(mant[j] == s@[p + j]);
        }
        assert forall|i1: int, j1: int|
            0 <= i1 < j1 < mant.len() && #[trigger] mant[i1] == '.' implies #[trigger] mant[j1]
            != '.' by {
            assert(mant[i1] == s@[p + i1]);
            assert(mant[j1] == s@[p + j1]);
        }
        let w = choose|j: int| p <= j < k && is_digit_char(#[trigger] s@[j]);
        assert(mant[w - p] == s@[w]);
        assert(is_mantissa(mant));
    }
    // Scan the exponent, where a marker was found.
    if k < n {
        let mut q = k + 1;
        if q < n {
            let c = s.get_char(q);
            if c == '+' || c == '-' {
                q = q + 1;
            }
        }
        let ghost e = s@.subrange(k as int + 1, n as int);
        proof {
            assert(opt_sign(e) =~= s@.subrange(q as int, n as int));
        }
        if q == n {
            // Empty exponent.
            proof {
                assert(!is_exponent(e));
            }
            return false;
        }
        let mut j = q;
        while j < n
            invariant
                q <= j <= n,
                forall|m: int| q <= m < j ==> is_digit_char(#[trigger] s@[m]),
            decreases n - j,
        {
            let c = s.get_char(j);
            let cu = c as u32;
            if cu < 48 || cu > 57 {
                proof {
                    assert(opt_sign(e)[j - q] == s@[j as int]);
                    assert(!all_digits(opt_sign(e)));
                }
                return false;
            }
            j = j + 1;
        }
        proof {
            assert forall|m: int| 0 <= m < opt_sign(e).len() implies is_digit_char(
                #[trigger] opt_sign(e)[m],
            ) by {
                assert(opt_sign(e)[m] == s@[q + m]);
            }
            assert(is_exponent(e));
        }
    }
    if saw_nonzero {
        proof {
            let w = choose|j: int| p <= j < i && is_digit_char(#[trigger] s@[j]) && s@[j] != '0';
            assert(mant[w - p] == s@[w]);
            assert(mantissa_nonzero(mant));
        }
        true
    } else {
        proof {
            assert forall|j: int| 0 <= j < mant.len() implies !(is_digit_char(
                #[trigger] mant[j],
            ) && mant[j] != '0') by {
                assert(mant[j] == s@[p + j]);
            }
        }
        false
    }
}

/// A Proton compatibility-layer entry: the name starts with `Proton`, has a
/// second space-separated token, and that token reads as a non-zero decimal
/// number. An unversioned entry, or one whose version token is zero or not
/// numeric, is deliberately not matched by this rule.
pub open spec fn spec_is_proton(s: Seq<char>) -> bool {
    &&& has_prefix(s, "Proton"@)
    &&& split_when(s, char_eq(' ')).len() > 1
    &&& is_nonzero_number(split_when(s, char_eq(' '))[1])
}

/// Detects a versioned Proton runtime entry by its display name.
pub fn is_proton(app_name: &str) -> (r: bool)
    ensures
        r == spec_is_proton(app_name@),
{
    if !starts_with(app_name, "Proton") {
        return false;
    }
    let tokens = split_by(app_name, ' ');
    if tokens.len() > 1 {
        proof {
            assert(tokens@[1]@ == split_when(app_name@, char_eq(' '))[1]);
        }
        nonzero_number_token(tokens[1].as_str())
    } else {
        false
    }
}

/// An entry the catalog must not offer for launching: an exact match against
/// the known non-game names, a name ending in `Soundtrack`, a versioned
/// Proton runtime, or a Steam Linux Runtime entry.
pub open spec fn spec_is_blacklisted(s: Seq<char>) -> bool {
    ||| s == "Steamworks Common Redistributables"@
    ||| s == "SteamVR"@
    ||| s == "Proton Experimental"@
    ||| has_suffix(s, "Soundtrack"@)
    ||| spec_is_proton(s)
    ||| has_prefix(s, "Steam Linux Runtime"@)
}

/// Decides whether a name belongs to a non-game entry that must stay out of
/// the catalog.
pub fn is_blacklisted(app_name: &str) -> (r: bool)
    ensures
        r == spec_is_blacklisted(app_name@),
{
    str_eq(app_name, "Steamworks Common Redistributables") || str_eq(app_name, "SteamVR")
        || str_eq(app_name, "Proton Experimental") || ends_with(app_name, "Soundtrack")
        || is_proton(app_name) || starts_with(app_name, "Steam Linux Runtime")
}

/// The predicate "survives the blacklist", over a record's view.
pub open spec fn keep_pred() -> spec_fn((Seq<char>, Seq<char>)) -> bool {
    |r: (Seq<char>, Seq<char>)| !spec_is_blacklisted(r.0)
}

/// The records of `s` whose names are not blacklisted, in order.
pub open spec fn spec_filter_catalog(s: Seq<(Seq<char>, Seq<char>)>) -> Seq<
    (Seq<char>, Seq<char>),
> {
    s.filter(keep_pred())
}

/// Keeps the catalog entries whose names are not blacklisted.
#[verifier::loop_isolation(false)]
pub fn filter_catalog(v: Vec<ManifestRecord>) -> (r: Vec<ManifestRecord>)
    ensures
        rec_views(r@) == spec_filter_catalog(rec_views(v@)),
{
    let mut r: Vec<ManifestRecord> = Vec::new();
    let mut i: usize = 0;
    proof {
        reveal(Seq::filter);
        assert(rec_views(v@.subrange(0, 0)) =~= Seq::<(Seq<char>, Seq<char>)>::empty());
        assert(rec_views(r@) =~= rec_views(v@.subrange(0, 0)).filter(keep_pred()));
    }
    while i < v.len()
        invariant
            0 <= i <= v.len(),
            rec_views(r@) == rec_views(v@.subrange(0, i as int)).filter(keep_pred()),
        decreases v.len() - i,
    {
        proof {
            reveal(Seq::filter);
            let pref = rec_views(v@.subrange(0, i as int + 1));
            assert(pref.drop_last() =~= rec_views(v@.subrange(0, i as int)));
            assert(pref.last() == v@[i as int]@);
            if !spec_is_blacklisted(v@[i as int].name@) {
                assert(rec_views(r@.push(v@[i as int])) =~= rec_views(r@).push(v@[i as int]@));
            }
        }
        if !is_blacklisted(v[i].name.as_str()) {
            let rec = ManifestRecord { name: v[i].name.clone(), id: v[i].id.clone() };
            proof {
                assert(rec@ == v@[i as int]@);
                assert(rec_views(r@.push(rec)) =~= rec_views(r@).push(rec@));
            }
            r.push(rec);
        }
        i = i + 1;
    }
    proof {
        assert(v@.subrange(0, v@.len() as int) =~= v@);
    }
    r
}

/// The blacklist filter is idempotent: filtering a catalog twice yields the
/// same catalog as filtering it once.
pub proof fn lemma_filter_catalog_idempotent(s: Seq<(Seq<char>, Seq<char>)>)
    ensures
        spec_filter_catalog(spec_filter_catalog(s)) == spec_filter_catalog(s),
    decreases s.len(),
{
    reveal(Seq::filter);
    if s.len() == 0 {
    } else {
        lemma_filter_catalog_idempotent(s.drop_last());
        let d = s.drop_last();
        let fd = d.filter(keep_pred());
        if keep_pred()(s.last()) {
            assert(s.filter(keep_pred()) == fd.push(s.last()));
            assert(fd.push(s.last()).drop_last() =~= fd);
            assert(fd.push(s.last()).last() == s.last());
        }
    }
}

} // verus!
