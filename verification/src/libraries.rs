//! Library-Set Resolver: reads the client's registry of additional library
//! locations (the text of `libraryfolders.vdf` in the default root) and
//! yields the library paths declared there.

use vstd::prelude::*;
use vstd::string::StrSliceExecFns;
use crate::text::{contains_str, contains_sub, nonempty_pred, spec_lines, split_at_spaces,
    split_lines, split_when, space_pred, views_of};

verus! {

/// A line that declares a library path: one containing the substring `path`.
pub open spec fn is_path_line(l: Seq<char>) -> bool {
    contains_sub(l, "path"@)
}

/// The whitespace-separated tokens of a line, empty ones discarded.
pub open spec fn ws_tokens(l: Seq<char>) -> Seq<Seq<char>> {
    split_when(l, space_pred()).filter(nonempty_pred())
}

/// A path-declaring line of the expected shape: a second token of at least
/// two characters, whose first and last characters are the surrounding
/// quotes to remove.
pub open spec fn path_line_wf(l: Seq<char>) -> bool {
    is_path_line(l) ==> ws_tokens(l).len() >= 2 && ws_tokens(l)[1].len() >= 2
}

/// Every path-declaring line of the text has the expected shape.
pub open spec fn all_path_lines_wf(ls: Seq<Seq<char>>) -> bool {
    forall|i: int| 0 <= i < ls.len() ==> path_line_wf(#[trigger] ls[i])
}

/// A token with exactly one leading and one trailing character removed: the
/// surrounding quotes of a path value, taken off without further validation.
pub open spec fn trim_ends(t: Seq<char>) -> Seq<char> {
    t.subrange(1, t.len() - 1)
}

/// The library paths declared by a sequence of registry lines, in order.
pub open spec fn paths_of_lines(ls: Seq<Seq<char>>) -> Seq<Seq<char>>
    decreases ls.len(),
{
    if ls.len() == 0 {
        Seq::empty()
    } else {
        let pre = paths_of_lines(ls.drop_last());
        if is_path_line(ls.last()) {
            pre.push(trim_ends(ws_tokens(ls.last())[1]))
        } else {
            pre
        }
    }
}

/// What resolving a registry text yields: the declared paths, or nothing when
/// some path-declaring line lacks the expected shape.
pub open spec fn spec_library_paths(text: Seq<char>) -> Option<Seq<Seq<char>>> {
    if all_path_lines_wf(spec_lines(text)) {
        Some(paths_of_lines(spec_lines(text)))
    } else {
        None
    }
}

/// Resolves the additional library roots from the text of the client's
/// library registry file. Every line containing `path` is taken as a
/// declaration `"path"  "<value>"`: its second whitespace-separated token,
/// with one surrounding character removed from each end, is a library root.
/// `None` is returned when such a line lacks a second token of at least two
/// characters; the caller treats that as the fatal condition it is.
#[verifier::loop_isolation(false)]
pub fn parse_library_folders(text: &str) -> (r: Option<Vec<String>>)
    ensures
        match r {
            None => spec_library_paths(text@) is None,
            Some(v) => spec_library_paths(text@) == Some(views_of(v@)),
        },
{
    let lines = split_lines(text);
    let n = lines.len();
    let mut r: Vec<String> = Vec::new();
    let mut i: usize = 0;
    let ghost ls = spec_lines(text@);
    proof {
        assert(ls.subrange(0, 0) =~= Seq::<Seq<char>>::empty());
        assert(views_of(r@) =~= paths_of_lines(ls.subrange(0, 0)));
    }
    while i < n
        invariant
            0 <= i <= n,
            n == lines.len(),
            views_of(lines@) == ls,
            ls == spec_lines(text@),
            forall|j: int| 0 <= j < i ==> path_line_wf(#[trigger] ls[j]),
            views_of(r@) == paths_of_lines(ls.subrange(0, i as int)),
        decreases n - i,
    {
        let ghost line = ls[i as int];
        proof {
            let pref = ls.subrange(0, i as int + 1);
            assert(pref.drop_last() =~= ls.subrange(0, i as int));
            assert(pref.last() == line);
        }
        if contains_str(lines[i].as_str(), "path") {
            let tokens = crate::text::drop_empty(split_at_spaces(lines[i].as_str()));
            proof {
                assert(views_of(tokens@) == ws_tokens(line));
            }
            if tokens.len() < 2 {
                proof {
                    assert(!path_line_wf(line));
                }
                return None;
            }
            let tok = &tokens[1];
            let m = tok.as_str().unicode_len();
            proof {
                assert(tokens@[1]@ == ws_tokens(line)[1]);
            }
            if m < 2 {
                proof {
                    assert(!path_line_wf(line));
                }
                return None;
            }
            let path = tok.as_str().substring_char(1, m - 1).to_owned();
            proof {
                assert(path@ =~= trim_ends(ws_tokens(line)[1]));
                assert(views_of(r@.push(path)) =~= views_of(r@).push(path@));
            }
            r.push(path);
        }
        i = i + 1;
    }
    proof {
        assert(ls.subrange(0, n as int) =~= ls);
    }
    Some(r)
}

} // verus!
