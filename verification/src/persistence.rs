//! Where plans and price lists are saved, and the order of the saved-plan list.
//!
//! Reading and writing the files is left to the caller; this module names
//! the files and orders what was found.
use vstd::prelude::*;

verus! {

broadcast use Seq::lemma_filter_push;

/// A path separator on one of the platforms the program runs on.
pub open spec fn is_separator(c: char) -> bool {
    c == '/' || c == '\\'
}

/// A relative path that `join` appends as it is on every platform: not
/// empty, not starting with a separator (no root), and without a colon (no
/// drive prefix).
pub open spec fn relative_name(s: Seq<char>) -> bool {
    &&& s.len() > 0
    &&& !is_separator(s[0])
    &&& !s.contains(':')
}

/// A directory given as plain names joined by `/`: not empty, no root, no
/// drive or verbatim prefix (no `:`, `?` or `\`), and no separator at the end.
pub open spec fn plain_dir(s: Seq<char>) -> bool {
    &&& s.len() > 0
    &&& s[0] != '/'
    &&& s.last() != '/'
    &&& !s.contains('\\')
    &&& !s.contains(':')
    &&& !s.contains('?')
}

/// `r` is `dir`, then a separator of the platform, then `file`.
pub open spec fn joined_with_separator(r: Seq<char>, dir: Seq<char>, file: Seq<char>) -> bool {
    exists|sep: char| is_separator(sep) && r == dir + seq![sep] + file
}

/// Calls `std::path::Path::join` on `dir` and `file` and gives back the
/// joined path as text. Claimed: when `dir` is made of plain names joined by
/// `/` (so it has no prefix and no root) and `file` is relative with no drive
/// prefix, `join` appends `file` after the platform's separator (`/` on Unix,
/// `\` on Windows). Which separator, and what `join` makes of other
/// arguments (roots, drive or verbatim prefixes, where it replaces or
/// normalises the path), is left unstated.
#[verifier::external_body]
fn join_path(dir: &str, file: &str) -> (r: String)
    ensures
        plain_dir(dir@) && relative_name(file@) ==> joined_with_separator(r@, dir@, file@),
{
    std::path::Path::new(dir).join(file).to_string_lossy().into_owned()
}

/// The path of the JSON file `{name}.json` in directory `dir`.
fn json_file_in(dir: &str, name: &str) -> (r: String)
    requires
        plain_dir(dir@),
    ensures
        relative_name(name@) ==> joined_with_separator(r@, dir@, name@ + ".json"@),
{
    let mut file = String::from_str(name);
    file.append(".json");
    proof {
        reveal_strlit(".json");
        if relative_name(name@) {
            assert(file@ =~= name@ + ".json"@);
            assert(file@[0] == name@[0]);
            assert(!file@.contains(':')) by {
                assert forall|i: int| 0 <= i < file@.len() implies file@[i] != ':' by {
                    if i < name@.len() {
                        assert(file@[i] == name@[i]);
                    }
                }
            }
        }
    }
    join_path(dir, file.as_str())
}

/// The file a plan called `name` is saved to: `{name}.json` in the
/// directory `saves/projects`.
pub fn project_path(name: &str) -> (r: String)
    ensures
        relative_name(name@) ==> joined_with_separator(r@, "saves/projects"@, name@ + ".json"@),
{
    proof {
        reveal_strlit("saves/projects");
        assert(!"saves/projects"@.contains('\\') && !"saves/projects"@.contains(':') && !"saves/projects"@.contains('?'));
    }
    json_file_in("saves/projects", name)
}

/// The file a price list called `name` is saved to: `{name}.json` in the
/// directory `saves/prices`.
pub fn price_path(name: &str) -> (r: String)
    ensures
        relative_name(name@) ==> joined_with_separator(r@, "saves/prices"@, name@ + ".json"@),
{
    proof {
        reveal_strlit("saves/prices");
        assert(!"saves/prices"@.contains('\\') && !"saves/prices"@.contains(':') && !"saves/prices"@.contains('?'));
    }
    json_file_in("saves/prices", name)
}

/// A saved plan as listed for opening.
#[derive(Debug, Clone)]
pub struct ProjectEntry {
    /// The plan's name (the file name without its extension).
    pub name: String,
    /// The file's path.
    pub path: String,
    /// When the file was last modified: nanoseconds after the Unix epoch
    /// (negative before it; the epoch itself when the time is unknown).
    pub modified: i128,
}

/// The entries go from the most recently modified to the least.
pub open spec fn newest_first(s: Seq<ProjectEntry>) -> bool {
    forall|i: int, j: int| 0 <= i < j < s.len() ==> s[i].modified >= s[j].modified
}

/// The entry was modified at time `t`.
pub open spec fn modified_at(t: i128) -> spec_fn(ProjectEntry) -> bool {
    |e: ProjectEntry| e.modified == t
}

/// Filtering drops every element when none passes.
proof fn lemma_filter_none<A>(s: Seq<A>, pred: spec_fn(A) -> bool)
    requires
        forall|k: int| 0 <= k < s.len() ==> !pred(#[trigger] s[k]),
    ensures
        s.filter(pred) == Seq::<A>::empty(),
    decreases s.len(),
{
    if s.len() > 0 {
        lemma_filter_none(s.drop_last(), pred);
        assert(s =~= s.drop_last().push(s.last()));
    } else {
        assert(s =~= Seq::<A>::empty());
    }
}

/// Inserting `e` before a tail of strictly older entries appends it to the
/// entries of its own time and leaves the entries of other times as they were.
proof fn lemma_insert_before_older(out: Seq<ProjectEntry>, p: int, e: ProjectEntry, t: i128)
    requires
        0 <= p <= out.len(),
        forall|k: int| p <= k < out.len() ==> #[trigger] out[k].modified < e.modified,
    ensures
        out.insert(p, e).filter(modified_at(t)) == (if e.modified == t {
            out.filter(modified_at(t)).push(e)
        } else {
            out.filter(modified_at(t))
        }),
{
    broadcast use Seq::filter_distributes_over_add;

    let head = out.subrange(0, p);
    let tail = out.subrange(p, out.len() as int);
    assert(out =~= head + tail);
    assert(out.insert(p, e) =~= head.push(e) + tail);
    if e.modified == t {
        lemma_filter_none(tail, modified_at(t));
    }
}

/// Orders the saved plans from the most recently modified to the least;
/// plans modified at the same time keep their order.
pub fn sort_newest_first(entries: &mut Vec<ProjectEntry>)
    ensures
        final(entries)@.len() == old(entries)@.len(),
        newest_first(final(entries)@),
        forall|t: i128| #[trigger] final(entries)@.filter(modified_at(t)) == old(entries)@.filter(modified_at(t)),
{
    let mut src: Vec<ProjectEntry> = Vec::new();
    std::mem::swap(&mut src, entries);
    let ghost s = src@;
    let mut out: Vec<ProjectEntry> = Vec::new();
    for e in it: src.into_iter()
        invariant
            it.seq() == s,
            out@.len() == it.index(),
            newest_first(out@),
            forall|t: i128| #[trigger] out@.filter(modified_at(t)) == s.take(it.index() as int).filter(modified_at(t)),
    {
        let ghost k = it.index() as int;
        assert(s.take(k + 1) =~= s.take(k).push(e));
        let mut p: usize = 0;
        while p < out.len() && out[p].modified >= e.modified
            invariant
                p <= out@.len(),
                newest_first(out@),
                forall|q: int| 0 <= q < p ==> #[trigger] out@[q].modified >= e.modified,
            decreases out@.len() - p,
        {
            p = p + 1;
        }
        let ghost before = out@;
        assert forall|q: int| p <= q < before.len() implies #[trigger] before[q].modified < e.modified by {
            assert(before[p as int].modified < e.modified);
        }
        out.insert(p, e);
        assert forall|t: i128| #[trigger] out@.filter(modified_at(t)) == s.take(k + 1).filter(modified_at(t)) by {
            lemma_insert_before_older(before, p as int, e, t);
        }
        assert forall|i: int, j: int| 0 <= i < j < out@.len() implies out@[i].modified >= out@[j].modified by {
            if i < p && j > p {
                assert(out@[j] == before[j - 1]);
            }
        }
    }
    assert(s.take(s.len() as int) =~= s);
    *entries = out;
}

} // verus!
