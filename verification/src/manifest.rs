//! Parser for one per-game manifest file: a line-oriented, tab-separated,
//! quote-wrapped key/value text from which a game name and identifier are
//! read.

use vstd::prelude::*;
use crate::text::{char_eq, contains_str, contains_sub, drop_empty, nonempty_pred, spec_lines,
    spec_strip_quotes, split_by, split_lines, split_when, strip_quotes, views_of};

verus! {

/// The raw parse result of one manifest file: a display name and an
/// identifier, each the empty string where the field is absent.
#[derive(Debug, Clone)]
pub struct ManifestRecord {
    pub name: String,
    pub id: String,
}

impl View for ManifestRecord {
    type V = (Seq<char>, Seq<char>);

    open spec fn view(&self) -> Self::V {
        (self.name@, self.id@)
    }
}

/// The views of a sequence of records.
pub open spec fn rec_views(v: Seq<ManifestRecord>) -> Seq<(Seq<char>, Seq<char>)> {
    v.map_values(|r: ManifestRecord| r@)
}

/// The fragments of one manifest line: split at tabs, empty fragments
/// discarded.
pub open spec fn line_fragments(l: Seq<char>) -> Seq<Seq<char>> {
    split_when(l, char_eq('\t')).filter(nonempty_pred())
}

/// Applies one manifest line to the (name, id) fields gathered so far. A line
/// with fewer than two fragments is skipped; otherwise a first fragment
/// containing `name` or `appid` sets that field to the second fragment with
/// its surrounding quotes stripped, the later of repeated occurrences
/// winning.
pub open spec fn apply_line(acc: (Seq<char>, Seq<char>), l: Seq<char>) -> (Seq<char>, Seq<char>) {
    let frags = line_fragments(l);
    if frags.len() >= 2 {
        let name = if contains_sub(frags[0], "name"@) {
            spec_strip_quotes(frags[1])
        } else {
            acc.0
        };
        let id = if contains_sub(frags[0], "appid"@) {
            spec_strip_quotes(frags[1])
        } else {
            acc.1
        };
        (name, id)
    } else {
        acc
    }
}

/// The (name, id) fields read from a sequence of manifest lines, each field
/// the empty string until a line sets it.
pub open spec fn scan_lines(ls: Seq<Seq<char>>) -> (Seq<char>, Seq<char>)
    decreases ls.len(),
{
    if ls.len() == 0 {
        (Seq::<char>::empty(), Seq::<char>::empty())
    } else {
        apply_line(scan_lines(ls.drop_last()), ls.last())
    }
}

/// What parsing a manifest text yields: nothing when fewer than three lines
/// remain (the header skip leaves no content), else the fields read from the
/// lines between the two header lines and the closing-brace line.
pub open spec fn spec_parse_manifest(text: Seq<char>) -> Option<(Seq<char>, Seq<char>)> {
    let ls = spec_lines(text);
    if ls.len() <= 2 {
        None
    } else {
        Some(scan_lines(ls.subrange(2, ls.len() - 1)))
    }
}

/// Parses the contents of one manifest file. The first two lines (the opening
/// declaration and brace) are skipped and the last line (the closing brace)
/// is excluded from field scanning; `None` is returned when no line remains
/// after the skip. A record with empty fields is still produced: inclusion is
/// decided downstream by the blacklist.
#[verifier::loop_isolation(false)]
pub fn parse_manifest(text: &str) -> (r: Option<ManifestRecord>)
    ensures
        match r {
            None => spec_parse_manifest(text@) is None,
            Some(rec) => spec_parse_manifest(text@) == Some(rec@),
        },
{
    let lines = split_lines(text);
    if lines.len() <= 2 {
        return None;
    }
    let end = lines.len() - 1;
    let mut name = String::new();
    let mut id = String::new();
    let mut i: usize = 2;
    let ghost ls = spec_lines(text@);
    let ghost scanned = ls.subrange(2, ls.len() - 1);
    proof {
        assert(scanned.subrange(0, 0) =~= Seq::<Seq<char>>::empty());
        assert(name@ =~= scan_lines(scanned.subrange(0, 0)).0);
        assert(id@ =~= scan_lines(scanned.subrange(0, 0)).1);
    }
    while i < end
        invariant
            2 <= i <= end,
            end == lines.len() - 1,
            lines.len() >= 3,
            views_of(lines@) == ls,
            ls == spec_lines(text@),
            scanned == ls.subrange(2, ls.len() - 1),
            name@ == scan_lines(scanned.subrange(0, i - 2)).0,
            id@ == scan_lines(scanned.subrange(0, i - 2)).1,
        decreases end - i,
    {
        let raw = split_by(lines[i].as_str(), '\t');
        let frags = drop_empty(raw);
        let ghost line = lines@[i as int]@;
        proof {
            assert(views_of(frags@) == line_fragments(line));
            let pref = scanned.subrange(0, i - 2 + 1);
            assert(pref.drop_last() =~= scanned.subrange(0, i - 2));
            assert(pref.last() == line);
            assert(scan_lines(pref) == apply_line(scan_lines(scanned.subrange(0, i - 2)), line));
        }
        if frags.len() >= 2 {
            proof {
                assert(frags@[0]@ == line_fragments(line)[0]);
                assert(frags@[1]@ == line_fragments(line)[1]);
            }
            if contains_str(frags[0].as_str(), "name") {
                name = strip_quotes(frags[1].as_str());
            }
            if contains_str(frags[0].as_str(), "appid") {
                id = strip_quotes(frags[1].as_str());
            }
        }
        i = i + 1;
    }
    proof {
        assert(scanned.subrange(0, i - 2) =~= scanned);
    }
    Some(ManifestRecord { name, id })
}

/// A manifest text of fewer than three lines yields no record: the two
/// header lines are skipped unconditionally, and with nothing left the parse
/// aborts.
pub proof fn lemma_short_manifest_no_record(text: Seq<char>)
    requires
        spec_lines(text).len() < 3,
    ensures
        spec_parse_manifest(text) is None,
{
}

/// A line that sets the name field: at least two fragments, the first
/// containing `name`.
pub open spec fn line_sets_name(l: Seq<char>) -> bool {
    line_fragments(l).len() >= 2 && contains_sub(line_fragments(l)[0], "name"@)
}

/// The name value a line carries.
pub open spec fn line_name_value(l: Seq<char>) -> Seq<char> {
    spec_strip_quotes(line_fragments(l)[1])
}

/// A line that sets the id field: at least two fragments, the first
/// containing `appid`.
pub open spec fn line_sets_id(l: Seq<char>) -> bool {
    line_fragments(l).len() >= 2 && contains_sub(line_fragments(l)[0], "appid"@)
}

/// The id value a line carries.
pub open spec fn line_id_value(l: Seq<char>) -> Seq<char> {
    spec_strip_quotes(line_fragments(l)[1])
}

/// The last occurrence of the name field wins: wherever a line sets the name
/// and no later line does, the scanned name is that line's value, whatever
/// stands before it.
pub proof fn lemma_last_name_wins(ls: Seq<Seq<char>>, i: int)
    requires
        0 <= i < ls.len(),
        line_sets_name(ls[i]),
        forall|j: int| i < j < ls.len() ==> !line_sets_name(#[trigger] ls[j]),
    ensures
        scan_lines(ls).0 == line_name_value(ls[i]),
    decreases ls.len(),
{
    if i == ls.len() - 1 {
    } else {
        assert(ls.drop_last()[i] == ls[i]);
        assert forall|j: int| i < j < ls.drop_last().len() implies !line_sets_name(
            #[trigger] ls.drop_last()[j],
        ) by {
            assert(ls.drop_last()[j] == ls[j]);
        }
        lemma_last_name_wins(ls.drop_last(), i);
        assert(!line_sets_name(ls.last()));
    }
}

/// The last occurrence of the id field wins: wherever a line sets the id and
/// no later line does, the scanned id is that line's value, whatever stands
/// before it.
pub proof fn lemma_last_id_wins(ls: Seq<Seq<char>>, i: int)
    requires
        0 <= i < ls.len(),
        line_sets_id(ls[i]),
        forall|j: int| i < j < ls.len() ==> !line_sets_id(#[trigger] ls[j]),
    ensures
        scan_lines(ls).1 == line_id_value(ls[i]),
    decreases ls.len(),
{
    if i == ls.len() - 1 {
    } else {
        assert(ls.drop_last()[i] == ls[i]);
        assert forall|j: int| i < j < ls.drop_last().len() implies !line_sets_id(
            #[trigger] ls.drop_last()[j],
        ) by {
            assert(ls.drop_last()[j] == ls[j]);
        }
        lemma_last_id_wins(ls.drop_last(), i);
        assert(!line_sets_id(ls.last()));
    }
}

/// A manifest text whose scanned region holds a last name-setting line and a
/// last id-setting line parses to exactly those two values, whatever the
/// order of the two lines and whatever else stands around them.
pub proof fn lemma_parse_manifest_fields(text: Seq<char>, i: int, j: int)
    requires
        spec_lines(text).len() > 2,
        2 <= i < spec_lines(text).len() - 1,
        2 <= j < spec_lines(text).len() - 1,
        line_sets_name(spec_lines(text)[i]),
        line_sets_id(spec_lines(text)[j]),
        forall|m: int|
            i < m < spec_lines(text).len() - 1 ==> !line_sets_name(#[trigger] spec_lines(text)[m]),
        forall|m: int|
            j < m < spec_lines(text).len() - 1 ==> !line_sets_id(#[trigger] spec_lines(text)[m]),
    ensures
        spec_parse_manifest(text) == Some(
            (line_name_value(spec_lines(text)[i]), line_id_value(spec_lines(text)[j])),
        ),
{
    let ls = spec_lines(text);
    let region = ls.subrange(2, ls.len() - 1);
    assert(region[i - 2] == ls[i]);
    assert(region[j - 2] == ls[j]);
    assert forall|m: int| i - 2 < m < region.len() implies !line_sets_name(
        #[trigger] region[m],
    ) by {
        assert(region[m] == ls[m + 2]);
    }
    assert forall|m: int| j - 2 < m < region.len() implies !line_sets_id(#[trigger] region[m]) by {
        assert(region[m] == ls[m + 2]);
    }
    lemma_last_name_wins(region, i - 2);
    lemma_last_id_wins(region, j - 2);
}

} // verus!
