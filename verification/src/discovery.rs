//! Which walked files are seam records, and in which order they are read.
use vstd::prelude::*;
use crate::text::{contains_text, ends_with_text, contains_str, ends_with_str};

verus! {

broadcast use vstd::seq_lib::group_to_multiset_ensures;

/// The directory part that every seam record path goes through.
pub open spec fn records_dir_marker() -> Seq<char> {
    "/seams/records/"@
}

/// The file-name ending of a seam record.
pub open spec fn record_suffix() -> Seq<char> {
    ".seam.json"@
}

/// A walked file is a seam record when its path goes through a
/// `seams/records` directory (under the root or under any `targets/**`
/// directory) and its name ends in `.seam.json`.
pub open spec fn is_seam_record_path(p: Seq<char>) -> bool {
    contains_text(p, records_dir_marker()) && ends_with_text(p, record_suffix())
}

/// The seam records among the walked files, in walk order.
pub open spec fn seam_record_paths(walked: Seq<Seq<char>>) -> Seq<Seq<char>> {
    walked.filter(|p: Seq<char>| is_seam_record_path(p))
}

/// Name for the order of `camino::Utf8Path` (`a <= b`): component-wise
/// comparison of the two paths.
pub uninterp spec fn path_le(a: Seq<char>, b: Seq<char>) -> bool;

/// Each path is ordered no later than every path after it.
pub open spec fn sorted_by_path(s: Seq<Seq<char>>) -> bool {
    forall|i: int, j: int| 0 <= i < j < s.len() ==> path_le(#[trigger] s[i], #[trigger] s[j])
}

/// `s` with `x` put in after the last path ordered no later than it, or at
/// the front when there is none.
pub open spec fn insert_back(s: Seq<Seq<char>>, x: Seq<char>) -> Seq<Seq<char>>
    decreases s.len(),
{
    if s.len() == 0 {
        seq![x]
    } else if path_le(s.last(), x) {
        s.push(x)
    } else {
        insert_back(s.drop_last(), x).push(s.last())
    }
}

/// The paths sorted by insertion, in turn, each after the last path
/// before it that is ordered no later (a stable sort).
pub open spec fn sort_paths(s: Seq<Seq<char>>) -> Seq<Seq<char>>
    decreases s.len(),
{
    if s.len() == 0 {
        seq![]
    } else {
        insert_back(sort_paths(s.drop_last()), s.last())
    }
}

/// A walked path is discovered exactly when it goes through a
/// `/seams/records/` directory (under the root or under `targets/`) and its
/// name ends in `.seam.json`, and then as often as it was walked.
pub proof fn lemma_discovery_keeps_exactly_the_records(walked: Seq<Seq<char>>)
    ensures
        forall|p: Seq<char>|
            #[trigger] seam_record_paths(walked).to_multiset().count(p) == if contains_text(p, "/seams/records/"@)
                && ends_with_text(p, ".seam.json"@) {
                walked.to_multiset().count(p)
            } else {
                0
            },
    decreases walked.len(),
{
    reveal(Seq::filter);
    if walked.len() == 0 {
        assert(seam_record_paths(walked) =~= Seq::<Seq<char>>::empty());
    } else {
        let t = walked.drop_last();
        let x = walked.last();
        lemma_discovery_keeps_exactly_the_records(t);
        assert(t.push(x) =~= walked);
        if is_seam_record_path(x) {
            assert(seam_record_paths(walked) == seam_record_paths(t).push(x));
        } else {
            assert(seam_record_paths(walked) == seam_record_paths(t));
        }
        assert forall|p: Seq<char>|
            #[trigger] seam_record_paths(walked).to_multiset().count(p) == if contains_text(p, "/seams/records/"@)
                && ends_with_text(p, ".seam.json"@) {
                walked.to_multiset().count(p)
            } else {
                0
            } by {
            assert(walked.to_multiset() == t.to_multiset().insert(x));
        }
    }
}

/// Compares two paths with `<=` on `camino::Utf8Path`.
///
/// Trusted: the result is `path_le(a, b)`. Since `Utf8Path` implements
/// `Ord` (a total order: component-wise comparison), when `a <= b` fails
/// then `b <= a` holds, and when it holds every path ordered no later than
/// `a` is ordered no later than `b` (transitivity).
#[verifier::external_body]
fn path_le_exec(a: &str, b: &str) -> (r: bool)
    ensures
        r == path_le(a@, b@),
        !r ==> path_le(b@, a@),
        r ==> forall|c: Seq<char>| #[trigger] path_le(c, a@) ==> path_le(c, b@),
{
    camino::Utf8Path::new(a) <= camino::Utf8Path::new(b)
}

/// Whether a walked file path names a seam record.
pub fn is_seam_record_file(p: &str) -> (r: bool)
    ensures
        r == is_seam_record_path(p@),
{
    contains_str(p, "/seams/records/") && ends_with_str(p, ".seam.json")
}

/// Inserts `x` into the sorted `files` after every path that precedes it.
fn insert_sorted(files: &mut Vec<String>, x: String)
    requires
        sorted_by_path(old(files).deep_view()),
    ensures
        sorted_by_path(final(files).deep_view()),
        final(files).deep_view().to_multiset() == old(files).deep_view().to_multiset().insert(x@),
        final(files).deep_view() == insert_back(old(files).deep_view(), x@),
        old(files).deep_view().no_duplicates() && !old(files).deep_view().contains(x@)
            ==> final(files).deep_view().no_duplicates(),
{
    let ghost s = files.deep_view();
    let mut p = files.len();
    assert(s.take(p as int) =~= s);
    assert(insert_back(s, x@) + s.skip(p as int) =~= insert_back(s, x@));
    loop
        invariant
            files.deep_view() == s,
            sorted_by_path(s),
            p <= files.len(),
            forall|j: int| p <= j < s.len() ==> path_le(x@, #[trigger] s[j]),
            insert_back(s, x@) == insert_back(s.take(p as int), x@) + s.skip(p as int),
        ensures
            p <= files.len(),
            forall|j: int| p <= j < s.len() ==> path_le(x@, #[trigger] s[j]),
            forall|i: int| 0 <= i < p ==> path_le(#[trigger] s[i], x@),
            insert_back(s, x@) == s.insert(p as int, x@),
        decreases p,
    {
        if p == 0 {
            assert(s.skip(0) =~= s);
            assert(seq![x@] + s =~= s.insert(0, x@));
            break;
        }
        assert(s.take(p as int).last() == s[p - 1]);
        if path_le_exec(files[p - 1].as_str(), x.as_str()) {
            assert(insert_back(s.take(p as int), x@) == s.take(p as int).push(x@));
            assert(s.take(p as int).push(x@) + s.skip(p as int) =~= s.insert(p as int, x@));
            assert forall|i: int| 0 <= i < p implies path_le(#[trigger] s[i], x@) by {
                if i < p - 1 {
                    assert(path_le(s[i], s[p - 1]));
                }
            }
            break;
        }
        assert(s.take(p as int).drop_last() =~= s.take(p - 1));
        assert(insert_back(s.take(p as int), x@) == insert_back(s.take(p - 1), x@).push(s[p - 1]));
        assert(insert_back(s.take(p - 1), x@).push(s[p - 1]) + s.skip(p as int) =~= insert_back(
            s.take(p - 1),
            x@,
        ) + s.skip(p - 1));
        p = p - 1;
    }
    let ghost xv = x@;
    files.insert(p, x);
    let ghost t = s.insert(p as int, xv);
    assert(files.deep_view() =~= t);
    assert forall|i: int, j: int| 0 <= i < j < t.len() implies path_le(#[trigger] t[i], #[trigger] t[j]) by {
        if j < p {
            assert(t[i] == s[i] && t[j] == s[j]);
        } else if j == p {
            assert(t[i] == s[i]);
        } else if i == p {
            assert(t[j] == s[j - 1]);
        } else if i < p {
            assert(t[i] == s[i] && t[j] == s[j - 1]);
        } else {
            assert(t[i] == s[i - 1] && t[j] == s[j - 1]);
        }
    }
    proof {
        if s.no_duplicates() && !s.contains(xv) {
            s.lemma_multiset_has_no_duplicates();
            vstd::seq_lib::to_multiset_insert(s, p as int, xv);
            assert forall|y: Seq<char>| t.to_multiset().contains(y) implies t.to_multiset().count(y) == 1 by {
                if y == xv {
                    assert(s.to_multiset().count(y) == 0);
                }
            }
            t.lemma_multiset_has_no_duplicates_conv();
        }
    }
}

/// The seam record files among `walked` (the files found under the root,
/// in walk order), sorted by path; paths that compare equal keep their walk
/// order.
pub fn discover_seam_files(walked: &Vec<String>) -> (files: Vec<String>)
    ensures
        files.deep_view() == sort_paths(seam_record_paths(walked.deep_view())),
        files.deep_view().to_multiset() == seam_record_paths(walked.deep_view()).to_multiset(),
        sorted_by_path(files.deep_view()),
        walked.deep_view().no_duplicates() ==> files.deep_view().no_duplicates(),
{
    let ghost w = walked.deep_view();
    let mut files: Vec<String> = Vec::new();
    assert(files.deep_view() =~= Seq::<Seq<char>>::empty());
    let n = walked.len();
    let mut i: usize = 0;
    while i < n
        invariant
            n == walked.len(),
            w == walked.deep_view(),
            i <= n,
            sorted_by_path(files.deep_view()),
            files.deep_view().to_multiset() == seam_record_paths(w.take(i as int)).to_multiset(),
            files.deep_view() == sort_paths(seam_record_paths(w.take(i as int))),
            w.no_duplicates() ==> files.deep_view().no_duplicates(),
        decreases n - i,
    {
        proof {
            reveal(Seq::filter);
            assert(w.take(i + 1).drop_last() =~= w.take(i as int));
        }
        if is_seam_record_file(walked[i].as_str()) {
            let ghost before = files.deep_view();
            proof {
                if w.no_duplicates() && before.contains(w[i as int]) {
                    assert(before.to_multiset().count(w[i as int]) > 0);
                    assert(seam_record_paths(w.take(i as int)).contains(w[i as int]));
                    w.take(i as int).lemma_filter_contains_rev(|p: Seq<char>| is_seam_record_path(p), w[i as int]);
                    let k = choose|k: int| 0 <= k < i && w.take(i as int)[k] == w[i as int];
                    assert(w[k] == w[i as int]);
                }
            }
            insert_sorted(&mut files, walked[i].clone());
            proof {
                assert(seam_record_paths(w.take(i + 1)) == seam_record_paths(w.take(i as int)).push(
                    w[i as int],
                ));
                assert(seam_record_paths(w.take(i + 1)).drop_last() =~= seam_record_paths(w.take(i as int)));
            }
        } else {
            proof {
                assert(seam_record_paths(w.take(i + 1)) == seam_record_paths(w.take(i as int)));
            }
        }
        i = i + 1;
    }
    assert(w.take(n as int) =~= w);
    files
}

} // verus!
