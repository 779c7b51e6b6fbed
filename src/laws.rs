use vstd::prelude::*;
use vstd::seq_lib::*;
use crate::rerun::{
    declarations, excluded, join_lines, kept_paths, rerun_line, same_path, DirEntryPath,
    DECLARATION_PREFIX,
};

verus! {

/// Listing two runs of entries one after the other keeps the paths that
/// each run keeps, in the same order.
pub proof fn lemma_kept_paths_append(a: Seq<DirEntryPath>, b: Seq<DirEntryPath>, except: Seq<String>)
    ensures
        kept_paths(a + b, except) == kept_paths(a, except) + kept_paths(b, except),
    decreases b.len(),
{
    if b.len() == 0 {
        assert(a + b =~= a);
        assert(kept_paths(a, except) + kept_paths(b, except) =~= kept_paths(a, except));
    } else {
        assert((a + b).drop_last() =~= a + b.drop_last());
        assert((a + b).last() == b.last());
        lemma_kept_paths_append(a, b.drop_last(), except);
        let ka = kept_paths(a, except);
        let kb = kept_paths(b.drop_last(), except);
        match b.last() {
            DirEntryPath::Text(p) => {
                if !excluded(p@, except) {
                    assert(ka + kb.push(p@) =~= (ka + kb).push(p@));
                }
            },
            _ => {},
        }
    }
}

/// Every path that gets a declaration is one that no exclusion names.
proof fn lemma_kept_not_excluded(entries: Seq<DirEntryPath>, except: Seq<String>)
    ensures
        forall|k: int|
            0 <= k < kept_paths(entries, except).len() ==> !excluded(
                #[trigger] kept_paths(entries, except)[k],
                except,
            ),
    decreases entries.len(),
{
    if entries.len() > 0 {
        lemma_kept_not_excluded(entries.drop_last(), except);
        let rest = kept_paths(entries.drop_last(), except);
        let kept = kept_paths(entries, except);
        assert forall|k: int| 0 <= k < kept.len() implies !excluded(#[trigger] kept[k], except) by {
            if k < rest.len() {
                assert(kept[k] == rest[k]);
            }
        }
    }
}

/// A listed entry whose path is text and not excluded gets a declaration.
proof fn lemma_not_excluded_kept(entries: Seq<DirEntryPath>, except: Seq<String>, i: int)
    requires
        0 <= i < entries.len(),
        entries[i] is Text,
        !excluded(entries[i]->Text_0@, except),
    ensures
        kept_paths(entries, except).contains(entries[i]->Text_0@),
    decreases entries.len(),
{
    let rest = kept_paths(entries.drop_last(), except);
    if i == entries.len() - 1 {
        assert(kept_paths(entries, except).last() == entries[i]->Text_0@);
    } else {
        lemma_not_excluded_kept(entries.drop_last(), except, i);
        let j = choose|j: int| 0 <= j < rest.len() && rest[j] == entries[i]->Text_0@;
        assert(kept_paths(entries, except)[j] == rest[j]);
    }
}

/// A listed entry whose path is text is declared exactly when no exclusion
/// is the same path; only path equality excludes, so a path that merely
/// starts like an excluded one, or resembles it, is still declared.
pub proof fn lemma_declared_iff_not_excluded(
    entries: Seq<DirEntryPath>,
    except: Seq<String>,
    i: int,
)
    requires
        0 <= i < entries.len(),
        entries[i] is Text,
    ensures
        kept_paths(entries, except).contains(entries[i]->Text_0@) <==> !excluded(
            entries[i]->Text_0@,
            except,
        ),
{
    lemma_kept_not_excluded(entries, except);
    if !excluded(entries[i]->Text_0@, except) {
        lemma_not_excluded_kept(entries, except, i);
    }
}

/// When the exclusions name the exact path of every listed text entry,
/// nothing is declared and the text is empty.
pub proof fn lemma_all_excluded_empty(entries: Seq<DirEntryPath>, except: Seq<String>)
    requires
        forall|k: int|
            0 <= k < entries.len() && (#[trigger] entries[k]) is Text ==> exists|j: int|
                0 <= j < except.len() && except[j]@ == entries[k]->Text_0@,
    ensures
        kept_paths(entries, except).len() == 0,
        declarations(entries, except).len() == 0,
    decreases entries.len(),
{
    if entries.len() > 0 {
        let n = entries.len() - 1;
        assert forall|k: int|
            0 <= k < entries.drop_last().len() && (#[trigger] entries.drop_last()[k]) is Text
                implies exists|j: int|
                0 <= j < except.len() && except[j]@ == entries.drop_last()[k]->Text_0@ by {
            assert(entries.drop_last()[k] == entries[k]);
        }
        lemma_all_excluded_empty(entries.drop_last(), except);
        if entries[n] is Text {
            let j = choose|j: int| 0 <= j < except.len() && except[j]@ == entries[n]->Text_0@;
            assert(same_path(except[j]@, entries[n]->Text_0@));
        }
    }
}

/// Listing the same entries in another order declares the same paths, each
/// as often as before; only the order of the lines may differ. A listing in
/// the same order gives the same text again, as `declarations` depends on the
/// entries and the exclusions alone.
pub proof fn lemma_listing_order_keeps_paths(
    e1: Seq<DirEntryPath>,
    e2: Seq<DirEntryPath>,
    except: Seq<String>,
)
    requires
        e1.to_multiset() == e2.to_multiset(),
    ensures
        kept_paths(e1, except).to_multiset() == kept_paths(e2, except).to_multiset(),
    decreases e1.len(),
{
    broadcast use group_to_multiset_ensures;
    broadcast use vstd::multiset::group_multiset_axioms;

    if e1.len() == 0 {
        to_multiset_len(e1);
        to_multiset_len(e2);
        assert(e2.len() == 0);
        assert(e1 =~= e2);
    } else {
        let x = e1.last();
        let d1 = e1.drop_last();
        assert(d1.push(x) =~= e1);
        assert(e1.contains(x));
        assert(e1.to_multiset().count(x) > 0);
        assert(e2.to_multiset().count(x) > 0);
        assert(e2.contains(x));
        let j = choose|j: int| 0 <= j < e2.len() && e2[j] == x;
        let r2 = e2.remove(j);
        assert(d1.to_multiset() =~= r2.to_multiset());
        lemma_listing_order_keeps_paths(d1, r2, except);

        let one = seq![x];
        let t = e2.take(j);
        let s = e2.skip(j + 1);
        assert(d1 + one =~= e1);
        assert(t + s =~= r2);
        assert(t + (one + s) =~= e2);
        lemma_kept_paths_append(d1, one, except);
        lemma_kept_paths_append(t, s, except);
        lemma_kept_paths_append(one, s, except);
        lemma_kept_paths_append(t, one + s, except);
        let kd = kept_paths(d1, except);
        let kx = kept_paths(one, except);
        let kt = kept_paths(t, except);
        let ks = kept_paths(s, except);
        lemma_multiset_commutative(kd, kx);
        lemma_multiset_commutative(kt, ks);
        lemma_multiset_commutative(kx, ks);
        lemma_multiset_commutative(kt, kx + ks);
        assert(kept_paths(e1, except).to_multiset() =~= kept_paths(e2, except).to_multiset());
    }
}

/// At position `at`, `text` holds the declaration prefix.
pub open spec fn prefix_at(text: Seq<char>, at: int) -> bool {
    &&& 0 <= at
    &&& at + DECLARATION_PREFIX@.len() <= text.len()
    &&& text.subrange(at, at + DECLARATION_PREFIX@.len()) == DECLARATION_PREFIX@
}

/// Every line of `text` starts with the declaration prefix and ends with a
/// line feed.
pub open spec fn lines_well_formed(text: Seq<char>) -> bool {
    &&& text.len() == 0 || (text.last() == '\n' && prefix_at(text, 0))
    &&& forall|k: int| 0 <= k < text.len() - 1 && #[trigger] text[k] == '\n' ==> prefix_at(text, k + 1)
}

proof fn lemma_prefix_has_no_line_feed()
    ensures
        !DECLARATION_PREFIX@.contains('\n'),
{
    reveal_strlit("cargo:rerun-if-changed=");
    assert(DECLARATION_PREFIX@ == "cargo:rerun-if-changed="@);
}

proof fn lemma_join_lines_well_formed(paths: Seq<Seq<char>>)
    requires
        forall|k: int| 0 <= k < paths.len() ==> !(#[trigger] paths[k]).contains('\n'),
    ensures
        lines_well_formed(join_lines(paths)),
    decreases paths.len(),
{
    if paths.len() > 0 {
        let rest = paths.drop_last();
        let p = paths.last();
        assert forall|k: int| 0 <= k < rest.len() implies !(#[trigger] rest[k]).contains('\n') by {
            assert(rest[k] == paths[k]);
        }
        assert(!p.contains('\n')) by {
            assert(p == paths[paths.len() - 1]);
        }
        lemma_join_lines_well_formed(rest);
        lemma_prefix_has_no_line_feed();
        let u = join_lines(rest);
        let line = rerun_line(p);
        let t = join_lines(paths);
        let pre = DECLARATION_PREFIX@;
        let n = u.len() as int;
        let m = pre.len() as int;
        assert(t == u + line);
        assert(line.subrange(0, m) =~= pre);
        assert(t.last() == '\n');
        if n == 0 {
            assert(t =~= line);
        } else {
            assert(t.subrange(0, m) =~= u.subrange(0, m));
        }
        assert forall|k: int| 0 <= k < t.len() - 1 && #[trigger] t[k] == '\n' implies prefix_at(t, k + 1) by {
            if k < n - 1 {
                assert(t[k] == u[k]);
                assert(t.subrange(k + 1, k + 1 + m) =~= u.subrange(k + 1, k + 1 + m));
            } else if k == n - 1 {
                assert(t.subrange(n, n + m) =~= line.subrange(0, m));
            } else {
                let i = k - n;
                assert(t[k] == line[i]);
                if i < m {
                    assert(line[i] == pre[i]);
                } else {
                    assert(line[i] == p[i - m]);
                }
            }
        }
    }
}

/// Every line of the text starts with the declaration prefix and ends with
/// a line feed, as long as no declared path holds a line feed of its own.
pub proof fn lemma_every_line_declares(entries: Seq<DirEntryPath>, except: Seq<String>)
    requires
        forall|k: int|
            0 <= k < kept_paths(entries, except).len() ==> !(#[trigger] kept_paths(
                entries,
                except,
            )[k]).contains('\n'),
    ensures
        lines_well_formed(declarations(entries, except)),
{
    lemma_join_lines_well_formed(kept_paths(entries, except));
}

} // verus!
