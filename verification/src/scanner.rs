//! Library Scanner and Game Catalog Builder: selecting the manifest files of
//! one library directory, aggregating their parse results, and composing the
//! catalogs of all discovered libraries.

use vstd::prelude::*;
use crate::blacklist::{is_blacklisted, spec_is_blacklisted};
use crate::manifest::{ManifestRecord, parse_manifest, rec_views, spec_parse_manifest};
use crate::text::{has_prefix, starts_with, views_of};

verus! {

/// A manifest file name: one beginning with the literal prefix `appmanifest`.
pub open spec fn spec_is_manifest_name(n: Seq<char>) -> bool {
    has_prefix(n, "appmanifest"@)
}

/// The predicate form of `spec_is_manifest_name`, for `filter`.
pub open spec fn manifest_name_pred() -> spec_fn(Seq<char>) -> bool {
    |n: Seq<char>| spec_is_manifest_name(n)
}

/// Whether a directory entry's file name is a per-game manifest.
pub fn is_manifest_filename(name: &str) -> (r: bool)
    ensures
        r == spec_is_manifest_name(name@),
{
    starts_with(name, "appmanifest")
}

/// Keeps the file names of a directory listing that are manifest files, in
/// order.
#[verifier::loop_isolation(false)]
pub fn select_manifest_names(names: &Vec<String>) -> (r: Vec<String>)
    ensures
        views_of(r@) == views_of(names@).filter(manifest_name_pred()),
{
    let mut r: Vec<String> = Vec::new();
    let mut i: usize = 0;
    proof {
        reveal(Seq::filter);
        assert(views_of(names@.subrange(0, 0)) =~= Seq::<Seq<char>>::empty());
        assert(views_of(r@) =~= views_of(names@.subrange(0, 0)).filter(manifest_name_pred()));
    }
    while i < names.len()
        invariant
            0 <= i <= names.len(),
            views_of(r@) == views_of(names@.subrange(0, i as int)).filter(manifest_name_pred()),
        decreases names.len() - i,
    {
        proof {
            reveal(Seq::filter);
            let pref = views_of(names@.subrange(0, i as int + 1));
            assert(pref.drop_last() =~= views_of(names@.subrange(0, i as int)));
            assert(pref.last() == names@[i as int]@);
            if spec_is_manifest_name(names@[i as int]@) {
                assert(views_of(r@.push(names@[i as int])) =~= views_of(r@).push(
                    names@[i as int]@,
                ));
            }
        }
        if is_manifest_filename(names[i].as_str()) {
            let piece = names[i].clone();
            r.push(piece);
        }
        i = i + 1;
    }
    proof {
        assert(names@.subrange(0, names@.len() as int) =~= names@);
    }
    r
}

/// What scanning a sequence of manifest texts yields: each text is parsed in
/// turn; a record whose name survives the blacklist is kept; a text that
/// yields no record ends the scan, the records gathered so far standing as
/// the result.
pub open spec fn spec_scan(texts: Seq<Seq<char>>) -> Seq<(Seq<char>, Seq<char>)>
    decreases texts.len(),
{
    if texts.len() == 0 {
        Seq::empty()
    } else {
        match spec_parse_manifest(texts[0]) {
            None => Seq::empty(),
            Some(rec) => {
                let rest = spec_scan(texts.drop_first());
                if !spec_is_blacklisted(rec.0) {
                    seq![rec] + rest
                } else {
                    rest
                }
            },
        }
    }
}

/// Parses a sequence of manifest texts into catalog records, applying the
/// blacklist to each. An empty or truncated text ends the scan of the
/// remaining texts of the same directory, as `spec_scan` states.
#[verifier::loop_isolation(false)]
pub fn scan_manifests(texts: &Vec<String>) -> (r: Vec<ManifestRecord>)
    ensures
        rec_views(r@) == spec_scan(views_of(texts@)),
{
    let n = texts.len();
    let mut r: Vec<ManifestRecord> = Vec::new();
    let mut i: usize = 0;
    proof {
        assert(views_of(texts@).subrange(0, n as int) =~= views_of(texts@));
        assert(rec_views(r@) + spec_scan(views_of(texts@)) =~~= spec_scan(views_of(texts@)));
    }
    while i < n
        invariant
            0 <= i <= n,
            n == texts.len(),
            spec_scan(views_of(texts@)) == rec_views(r@) + spec_scan(
                views_of(texts@).subrange(i as int, n as int),
            ),
        decreases n - i,
    {
        let ghost rest = views_of(texts@).subrange(i as int, n as int);
        proof {
            assert(rest[0] == texts@[i as int]@);
            assert(rest.drop_first() =~= views_of(texts@).subrange(i as int + 1, n as int));
        }
        match parse_manifest(texts[i].as_str()) {
            None => {
                proof {
                    assert(spec_scan(rest) =~= Seq::<(Seq<char>, Seq<char>)>::empty());
                    assert(rec_views(r@) + spec_scan(rest) =~~= rec_views(r@));
                }
                return r;
            },
            Some(rec) => {
                if !is_blacklisted(rec.name.as_str()) {
                    proof {
                        assert(spec_scan(rest) =~~= seq![rec@] + spec_scan(rest.drop_first()));
                        assert(rec_views(r@.push(rec)) =~= rec_views(r@).push(rec@));
                        assert(rec_views(r@.push(rec)) + spec_scan(rest.drop_first())
                            =~~= rec_views(r@) + spec_scan(rest));
                    }
                    r.push(rec);
                }
            },
        }
        i = i + 1;
    }
    proof {
        let tail = views_of(texts@).subrange(n as int, n as int);
        assert(tail =~= Seq::<Seq<char>>::empty());
        assert(rec_views(r@) + spec_scan(tail) =~~= rec_views(r@));
    }
    r
}

/// The catalog one library root contributes: nothing when the directory could
/// not be listed, else the scan of its manifest texts.
pub open spec fn spec_library_catalog(listing: Option<Seq<Seq<char>>>) -> Seq<
    (Seq<char>, Seq<char>),
> {
    match listing {
        None => Seq::empty(),
        Some(texts) => spec_scan(texts),
    }
}

/// Scans one library root. `None` stands for a directory that could not be
/// listed (missing, unreadable, not a directory): such a root contributes an
/// empty catalog rather than an error. `Some` carries the contents of the
/// manifest files found there, in directory order.
pub fn library_catalog(listing: &Option<Vec<String>>) -> (r: Vec<ManifestRecord>)
    ensures
        rec_views(r@) == spec_library_catalog(listing_view(*listing)),
{
    match listing {
        None => Vec::new(),
        Some(texts) => scan_manifests(texts),
    }
}

/// The view of one library root's listing outcome.
pub open spec fn listing_view(listing: Option<Vec<String>>) -> Option<Seq<Seq<char>>> {
    match listing {
        None => None,
        Some(texts) => Some(views_of(texts@)),
    }
}

/// The views of a sequence of listing outcomes.
pub open spec fn listing_views(libs: Seq<Option<Vec<String>>>) -> Seq<Option<Seq<Seq<char>>>> {
    libs.map_values(|l: Option<Vec<String>>| listing_view(l))
}

/// The full catalog: what each library root contributes, in order.
pub open spec fn spec_catalog(libs: Seq<Option<Seq<Seq<char>>>>) -> Seq<(Seq<char>, Seq<char>)>
    decreases libs.len(),
{
    if libs.len() == 0 {
        Seq::empty()
    } else {
        spec_library_catalog(libs[0]) + spec_catalog(libs.drop_first())
    }
}

/// Builds the catalog across all discovered library roots: the contributions
/// of the roots, concatenated in order.
#[verifier::loop_isolation(false)]
pub fn build_catalog(libraries: &Vec<Option<Vec<String>>>) -> (r: Vec<ManifestRecord>)
    ensures
        rec_views(r@) == spec_catalog(listing_views(libraries@)),
{
    let n = libraries.len();
    let mut r: Vec<ManifestRecord> = Vec::new();
    let mut i: usize = 0;
    proof {
        assert(listing_views(libraries@).subrange(0, n as int) =~= listing_views(libraries@));
        assert(rec_views(r@) + spec_catalog(listing_views(libraries@)) =~~= spec_catalog(
            listing_views(libraries@),
        ));
    }
    while i < n
        invariant
            0 <= i <= n,
            n == libraries.len(),
            spec_catalog(listing_views(libraries@)) == rec_views(r@) + spec_catalog(
                listing_views(libraries@).subrange(i as int, n as int),
            ),
        decreases n - i,
    {
        let ghost rest = listing_views(libraries@).subrange(i as int, n as int);
        proof {
            assert(rest[0] == listing_view(libraries@[i as int]));
            assert(rest.drop_first() =~= listing_views(libraries@).subrange(i as int + 1, n as int));
        }
        let mut part = library_catalog(&libraries[i]);
        proof {
            assert(rec_views(r@ + part@) =~= rec_views(r@) + rec_views(part@));
            assert(rec_views(r@ + part@) + spec_catalog(rest.drop_first()) =~~= rec_views(r@)
                + spec_catalog(rest));
        }
        r.append(&mut part);
        i = i + 1;
    }
    proof {
        let tail = listing_views(libraries@).subrange(n as int, n as int);
        assert(tail =~= Seq::<Option<Seq<Seq<char>>>>::empty());
        assert(rec_views(r@) + spec_catalog(tail) =~~= rec_views(r@));
    }
    r
}

} // verus!
