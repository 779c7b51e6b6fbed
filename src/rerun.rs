use vstd::prelude::*;
use vstd::string::*;

verus! {

/// The text that starts every declaration line.
pub const DECLARATION_PREFIX: &'static str = "cargo:rerun-if-changed=";

/// The declaration line for one path: the prefix, the path, and a line feed.
pub open spec fn rerun_line(path: Seq<char>) -> Seq<char> {
    DECLARATION_PREFIX@ + path + seq!['\n']
}

/// Renders the declaration line of `path`.
pub fn declaration_line(path: &str) -> (r: String)
    ensures
        r@ == rerun_line(path@),
{
    let mut line = String::from_str(DECLARATION_PREFIX);
    line.append(path);
    line.append("\n");
    proof {
        reveal_strlit("\n");
    }
    assert(line@ =~= rerun_line(path@));
    line
}

/// One entry of a directory listing, as the caller hands it over.
pub enum DirEntryPath {
    /// Listing this entry failed.
    Unlisted,
    /// The entry's full path is not valid text.
    NotText,
    /// The entry's full path.
    Text(String),
}

/// What `Path`'s comparison says of two paths written as text.
pub uninterp spec fn path_components_equal(a: Seq<char>, b: Seq<char>) -> bool;

/// Two paths are the same when they are the same text, or when they have
/// the same components (a repeated or trailing separator makes no difference).
pub open spec fn same_path(a: Seq<char>, b: Seq<char>) -> bool {
    a == b || path_components_equal(a, b)
}

/// Relies on `PartialEq for std::path::Path`, which compares two paths
/// component by component; as an `Eq`, it holds of a path and itself.
#[verifier::external_body]
fn paths_equal(a: &str, b: &str) -> (r: bool)
    ensures
        r == (a@ == b@ || path_components_equal(a@, b@)),
{
    std::path::Path::new(a) == std::path::Path::new(b)
}

/// `path` is the same path as one of `except`.
pub open spec fn excluded(path: Seq<char>, except: Seq<String>) -> bool {
    exists|i: int| 0 <= i < except.len() && #[trigger] same_path(except[i]@, path)
}

/// Tells whether `path` is the same path as one of `except`.
pub fn is_excluded(path: &str, except: &Vec<String>) -> (r: bool)
    ensures
        r == excluded(path@, except@),
{
    let mut i: usize = 0;
    while i < except.len()
        invariant
            i <= except.len(),
            forall|j: int| 0 <= j < i ==> !same_path(#[trigger] except@[j]@, path@),
        decreases except.len() - i,
    {
        if paths_equal(except[i].as_str(), path) {
            assert(same_path(except@[i as int]@, path@));
            return true;
        }
        i += 1;
    }
    false
}

/// The paths that get a declaration, in listing order: those of the
/// entries that were listed, are text, and are not excluded.
pub open spec fn kept_paths(entries: Seq<DirEntryPath>, except: Seq<String>) -> Seq<Seq<char>>
    decreases entries.len(),
{
    if entries.len() == 0 {
        seq![]
    } else {
        let rest = kept_paths(entries.drop_last(), except);
        match entries.last() {
            DirEntryPath::Text(p) => if excluded(p@, except) {
                rest
            } else {
                rest.push(p@)
            },
            _ => rest,
        }
    }
}

/// The declaration lines of `paths`, one after the other.
pub open spec fn join_lines(paths: Seq<Seq<char>>) -> Seq<char>
    decreases paths.len(),
{
    if paths.len() == 0 {
        seq![]
    } else {
        join_lines(paths.drop_last()) + rerun_line(paths.last())
    }
}

/// The whole text for a listing: one declaration per kept path.
pub open spec fn declarations(entries: Seq<DirEntryPath>, except: Seq<String>) -> Seq<char> {
    join_lines(kept_paths(entries, except))
}

/// The paths of the text entries of `entries` whose mark in `dropped` is
/// not set, in listing order.
pub open spec fn unmarked_paths(entries: Seq<DirEntryPath>, dropped: Seq<bool>) -> Seq<Seq<char>>
    decreases entries.len(),
{
    if entries.len() == 0 {
        seq![]
    } else {
        let rest = unmarked_paths(entries.drop_last(), dropped.drop_last());
        match entries.last() {
            DirEntryPath::Text(p) => if dropped.last() {
                rest
            } else {
                rest.push(p@)
            },
            _ => rest,
        }
    }
}

/// Marking each text entry by whether it is excluded leaves unmarked
/// exactly the paths that are kept.
proof fn lemma_marks_select_kept(
    entries: Seq<DirEntryPath>,
    dropped: Seq<bool>,
    except: Seq<String>,
)
    requires
        entries.len() == dropped.len(),
        forall|i: int|
            0 <= i < entries.len() && (#[trigger] entries[i]) is Text ==> dropped[i] == excluded(
                entries[i]->Text_0@,
                except,
            ),
    ensures
        unmarked_paths(entries, dropped) == kept_paths(entries, except),
    decreases entries.len(),
{
    if entries.len() > 0 {
        let e = entries.drop_last();
        assert forall|i: int| 0 <= i < e.len() && (#[trigger] e[i]) is Text implies dropped.drop_last()[i]
            == excluded(e[i]->Text_0@, except) by {
            assert(e[i] == entries[i]);
        }
        lemma_marks_select_kept(e, dropped.drop_last(), except);
        if entries.last() is Text {
            assert(entries.last() == entries[entries.len() - 1]);
        }
    }
}

/// Renders one declaration line for each text entry of `entries` whose
/// mark in `dropped` is not set, in listing order.
pub fn rerun_unmarked(entries: &Vec<DirEntryPath>, dropped: &Vec<bool>) -> (r: String)
    requires
        entries.len() == dropped.len(),
    ensures
        r@ == join_lines(unmarked_paths(entries@, dropped@)),
{
    let mut out = String::new();
    let mut i: usize = 0;
    while i < entries.len()
        invariant
            i <= entries.len(),
            entries.len() == dropped.len(),
            out@ == join_lines(unmarked_paths(entries@.take(i as int), dropped@.take(i as int))),
        decreases entries.len() - i,
    {
        let ghost done = unmarked_paths(entries@.take(i as int), dropped@.take(i as int));
        assert(entries@.take(i + 1).drop_last() =~= entries@.take(i as int));
        assert(dropped@.take(i + 1).drop_last() =~= dropped@.take(i as int));
        assert(entries@.take(i + 1).last() == entries@[i as int]);
        assert(dropped@.take(i + 1).last() == dropped@[i as int]);
        match &entries[i] {
            DirEntryPath::Text(p) => {
                if !dropped[i] {
                    let line = declaration_line(p.as_str());
                    out.append(line.as_str());
                    assert(done.push(p@).drop_last() =~= done);
                }
            },
            _ => {},
        }
        i += 1;
    }
    assert(entries@.take(entries.len() as int) =~= entries@);
    assert(dropped@.take(dropped.len() as int) =~= dropped@);
    out
}

/// Renders one declaration line for each entry of `entries` that was listed,
/// whose path is text and is not the same path as any of `except`, in
/// listing order.
pub fn rerun_in_listing(entries: &Vec<DirEntryPath>, except: &Vec<String>) -> (r: String)
    ensures
        r@ == declarations(entries@, except@),
{
    let mut dropped: Vec<bool> = Vec::new();
    let mut i: usize = 0;
    while i < entries.len()
        invariant
            i <= entries.len(),
            dropped.len() == i,
            forall|j: int|
                0 <= j < i && (#[trigger] entries@[j]) is Text ==> dropped@[j] == excluded(
                    entries@[j]->Text_0@,
                    except@,
                ),
        decreases entries.len() - i,
    {
        let mark = match &entries[i] {
            DirEntryPath::Text(p) => is_excluded(p.as_str(), except),
            _ => false,
        };
        dropped.push(mark);
        i += 1;
    }
    proof {
        lemma_marks_select_kept(entries@, dropped@, except@);
    }
    rerun_unmarked(entries, &dropped)
}

} // verus!
