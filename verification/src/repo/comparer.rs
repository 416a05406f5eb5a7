use vstd::prelude::*;

use super::diff_laws::{
    entry_ids, in_history, lemma_commit_diff_classifies, lemma_commit_diff_order, longer_history, not_in_history,
    shorter_history,
};

verus! {

/// How one commit of two histories compares: present only on the left,
/// only on the right, or on both sides.
#[derive(Debug, PartialEq, Eq, Clone)]
pub enum CommitDiff {
    LEFT(String),
    RIGHT(String),
    SAME(String),
}

/// The mathematical value of a [`CommitDiff`]: the side and the commit id as text.
pub enum DiffEntry {
    Left(Seq<char>),
    Right(Seq<char>),
    Same(Seq<char>),
}

impl View for CommitDiff {
    type V = DiffEntry;

    open spec fn view(&self) -> DiffEntry {
        match self {
            CommitDiff::LEFT(id) => DiffEntry::Left(id@),
            CommitDiff::RIGHT(id) => DiffEntry::Right(id@),
            CommitDiff::SAME(id) => DiffEntry::Same(id@),
        }
    }
}

/// The entries of a list of diffs.
pub open spec fn entries_of(diffs: Seq<CommitDiff>) -> Seq<DiffEntry> {
    diffs.map_values(|d: CommitDiff| d@)
}

/// The entry for a commit that only the walked (shorter) history holds.
/// With `flip` the walked history is the right one.
pub open spec fn own_entry(flip: bool, id: Seq<char>) -> DiffEntry {
    if flip {
        DiffEntry::Right(id)
    } else {
        DiffEntry::Left(id)
    }
}

/// The entry for a commit that only the other (longer) history holds.
pub open spec fn other_entry(flip: bool, id: Seq<char>) -> DiffEntry {
    if flip {
        DiffEntry::Left(id)
    } else {
        DiffEntry::Right(id)
    }
}

/// What position `j` of the longer history `r` contributes, walking the
/// shorter history `l` alongside it (oldest commit first).
///
/// Where both histories have a commit at `j`: one `Same` if they agree;
/// otherwise the commit of `r` unless `l` holds it somewhere, followed by the
/// commit of `l`, `Same` if `r` holds it somewhere and one-sided if not.
/// Past the end of `l`: the commit of `r` unless `l` holds it.
pub open spec fn entries_at(l: Seq<Seq<char>>, r: Seq<Seq<char>>, flip: bool, j: int) -> Seq<DiffEntry> {
    if j < l.len() {
        if l[j] == r[j] {
            seq![DiffEntry::Same(l[j])]
        } else {
            (if l.contains(r[j]) { Seq::empty() } else { seq![other_entry(flip, r[j])] })
                + seq![if r.contains(l[j]) { DiffEntry::Same(l[j]) } else { own_entry(flip, l[j]) }]
        }
    } else {
        if l.contains(r[j]) {
            Seq::empty()
        } else {
            seq![other_entry(flip, r[j])]
        }
    }
}

/// The entries of the first `n` positions of `r`, in walking order.
pub open spec fn scan(l: Seq<Seq<char>>, r: Seq<Seq<char>>, flip: bool, n: nat) -> Seq<DiffEntry>
    decreases n,
{
    if n == 0 {
        Seq::empty()
    } else {
        scan(l, r, flip, (n - 1) as nat) + entries_at(l, r, flip, n - 1)
    }
}

/// The diff of two histories given oldest commit first, `l` no longer than `r`:
/// the walk over all of `r`, newest entry first.
pub open spec fn collected(l: Seq<Seq<char>>, r: Seq<Seq<char>>, flip: bool) -> Seq<DiffEntry> {
    scan(l, r, flip, r.len()).reverse()
}

/// The diff of two histories given newest commit first: the shorter one is
/// walked against the longer one, and entries keep their side.
pub open spec fn commit_diff(left: Seq<Seq<char>>, right: Seq<Seq<char>>) -> Seq<DiffEntry> {
    let l = left.reverse();
    let r = right.reverse();
    if l.len() <= r.len() {
        collected(l, r, false)
    } else {
        collected(r, l, true)
    }
}

/// Whether `list` holds a commit with the id `id`.
fn contains_commit(list: &Vec<String>, id: &String) -> (found: bool)
    ensures
        found == list.deep_view().contains(id@),
{
    let mut i: usize = 0;
    while i < list.len()
        invariant
            i <= list@.len(),
            forall|k: int| 0 <= k < i ==> list.deep_view()[k] != id@,
        decreases list@.len() - i,
    {
        if list[i] == *id {
            assert(list.deep_view()[i as int] == id@);
            return true;
        }
        i = i + 1;
    }
    false
}

/// The entry for a commit only the walked history holds.
fn own_diff(flip: bool, id: &String) -> (d: CommitDiff)
    ensures
        d@ == own_entry(flip, id@),
{
    if flip {
        CommitDiff::RIGHT(id.clone())
    } else {
        CommitDiff::LEFT(id.clone())
    }
}

/// The entry for a commit only the other history holds.
fn other_diff(flip: bool, id: &String) -> (d: CommitDiff)
    ensures
        d@ == other_entry(flip, id@),
{
    if flip {
        CommitDiff::LEFT(id.clone())
    } else {
        CommitDiff::RIGHT(id.clone())
    }
}

/// Walks the shorter history `commits_left` against `commits_right` (both
/// oldest commit first) and returns the diff, newest entry first. With
/// `switch_sides` the two histories stand for right and left.
pub fn collect_commits_func(
    commits_left: &mut Vec<String>,
    commits_right: &mut Vec<String>,
    switch_sides: bool,
) -> (diffs: Vec<CommitDiff>)
    requires
        old(commits_left)@.len() <= old(commits_right)@.len(),
    ensures
        final(commits_left)@ == old(commits_left)@,
        final(commits_right)@ == old(commits_right)@,
        entries_of(diffs@) == collected(old(commits_left).deep_view(), old(commits_right).deep_view(), switch_sides),
{
    let commits_left: &Vec<String> = commits_left;
    let commits_right: &Vec<String> = commits_right;
    let ghost l = commits_left.deep_view();
    let ghost r = commits_right.deep_view();
    let mut diffs: Vec<CommitDiff> = Vec::new();
    let common_size = commits_left.len();
    let mut i: usize = 0;
    while i < common_size
        invariant
            l == commits_left.deep_view(),
            r == commits_right.deep_view(),
            common_size == l.len(),
            l.len() <= r.len(),
            i <= common_size,
            entries_of(diffs@) == scan(l, r, switch_sides, i as nat),
        decreases common_size - i,
    {
        let ghost before = entries_of(diffs@);
        let sha_left = &commits_left[i];
        let sha_right = &commits_right[i];
        if *sha_left == *sha_right {
            diffs.push(CommitDiff::SAME(sha_left.clone()));
        } else {
            if !contains_commit(commits_left, sha_right) {
                diffs.push(other_diff(switch_sides, sha_right));
            }
            if contains_commit(commits_right, sha_left) {
                diffs.push(CommitDiff::SAME(sha_left.clone()));
            } else {
                diffs.push(own_diff(switch_sides, sha_left));
            }
        }
        assert(entries_of(diffs@) =~= before + entries_at(l, r, switch_sides, i as int));
        i = i + 1;
    }
    while i < commits_right.len()
        invariant
            l == commits_left.deep_view(),
            r == commits_right.deep_view(),
            common_size == l.len(),
            common_size <= i <= r.len(),
            entries_of(diffs@) == scan(l, r, switch_sides, i as nat),
        decreases r.len() - i,
    {
        let ghost before = entries_of(diffs@);
        let commit_right = &commits_right[i];
        if !contains_commit(commits_left, commit_right) {
            diffs.push(other_diff(switch_sides, commit_right));
        }
        assert(entries_of(diffs@) =~= before + entries_at(l, r, switch_sides, i as int));
        i = i + 1;
    }
    let ghost walked = diffs@;
    reverse_vec(&mut diffs);
    assert(entries_of(diffs@) =~= entries_of(walked).reverse());
    diffs
}

/// Compares two commit histories, each given newest commit first, and
/// returns how every commit stands: `LEFT` when only `commits_left` holds it,
/// `RIGHT` when only `commits_right` holds it, `SAME` when both do.
///
/// Both histories are left reversed (oldest commit first) on return.
pub fn compare_commits(commits_left: &mut Vec<String>, commits_right: &mut Vec<String>) -> (diffs: Vec<
    CommitDiff,
>)
    ensures
        final(commits_left).deep_view() == old(commits_left).deep_view().reverse(),
        final(commits_right).deep_view() == old(commits_right).deep_view().reverse(),
        entries_of(diffs@) == commit_diff(old(commits_left).deep_view(), old(commits_right).deep_view()),
        forall|x: Seq<char>| #[trigger]
            entries_of(diffs@).contains(DiffEntry::Left(x)) <==> old(commits_left).deep_view().contains(x)
                && !old(commits_right).deep_view().contains(x),
        forall|x: Seq<char>| #[trigger]
            entries_of(diffs@).contains(DiffEntry::Right(x)) <==> old(commits_right).deep_view().contains(x)
                && !old(commits_left).deep_view().contains(x),
        forall|x: Seq<char>| #[trigger]
            entries_of(diffs@).contains(DiffEntry::Same(x)) <==> old(commits_left).deep_view().contains(x)
                && old(commits_right).deep_view().contains(x),
        entry_ids(entries_of(diffs@)).filter(
            in_history(shorter_history(old(commits_left).deep_view(), old(commits_right).deep_view())),
        ) == shorter_history(old(commits_left).deep_view(), old(commits_right).deep_view()),
        entry_ids(entries_of(diffs@)).filter(
            not_in_history(shorter_history(old(commits_left).deep_view(), old(commits_right).deep_view())),
        ) == longer_history(old(commits_left).deep_view(), old(commits_right).deep_view()).filter(
            not_in_history(shorter_history(old(commits_left).deep_view(), old(commits_right).deep_view())),
        ),
{
    let ghost left0 = commits_left.deep_view();
    let ghost right0 = commits_right.deep_view();
    reverse_vec(commits_left);
    reverse_vec(commits_right);
    assert(commits_left.deep_view() =~= left0.reverse());
    assert(commits_right.deep_view() =~= right0.reverse());
    let diffs = if commits_left.len() <= commits_right.len() {
        collect_commits_func(commits_left, commits_right, false)
    } else {
        collect_commits_func(commits_right, commits_left, true)
    };
    assert forall|x: Seq<char>|
        #![trigger entries_of(diffs@).contains(DiffEntry::Left(x))]
        #![trigger entries_of(diffs@).contains(DiffEntry::Right(x))]
        #![trigger entries_of(diffs@).contains(DiffEntry::Same(x))]
        true implies {
            &&& entries_of(diffs@).contains(DiffEntry::Left(x)) <==> left0.contains(x) && !right0.contains(x)
            &&& entries_of(diffs@).contains(DiffEntry::Right(x)) <==> right0.contains(x) && !left0.contains(x)
            &&& entries_of(diffs@).contains(DiffEntry::Same(x)) <==> left0.contains(x) && right0.contains(x)
        } by {
        lemma_commit_diff_classifies(left0, right0, x);
    }
    proof {
        lemma_commit_diff_order(left0, right0);
    }
    diffs
}

/// The commit of an entry that only the left history holds.
pub open spec fn left_commit(e: DiffEntry) -> Option<Seq<char>> {
    match e {
        DiffEntry::Left(x) => Some(x),
        _ => None,
    }
}

/// The commit of an entry that only the right history holds.
pub open spec fn right_commit(e: DiffEntry) -> Option<Seq<char>> {
    match e {
        DiffEntry::Right(x) => Some(x),
        _ => None,
    }
}

/// The commits of the entries that only the left history holds, in order.
pub open spec fn left_ids(es: Seq<DiffEntry>) -> Seq<Seq<char>> {
    es.filter_map(|e: DiffEntry| left_commit(e))
}

/// The commits of the entries that only the right history holds, in order.
pub open spec fn right_ids(es: Seq<DiffEntry>) -> Seq<Seq<char>> {
    es.filter_map(|e: DiffEntry| right_commit(e))
}

/// Splits a diff into the commits only the left history holds and those only
/// the right history holds, each in the order of the diff; `SAME` entries
/// are dropped.
pub fn partition_diffs(diffs: &Vec<CommitDiff>) -> (ids: (Vec<String>, Vec<String>))
    ensures
        ids.0.deep_view() == left_ids(entries_of(diffs@)),
        ids.1.deep_view() == right_ids(entries_of(diffs@)),
{
    let ghost es = entries_of(diffs@);
    let mut left_oids: Vec<String> = Vec::new();
    let mut right_oids: Vec<String> = Vec::new();
    let mut i: usize = 0;
    while i < diffs.len()
        invariant
            es == entries_of(diffs@),
            i <= diffs@.len(),
            left_oids.deep_view() == left_ids(es.take(i as int)),
            right_oids.deep_view() == right_ids(es.take(i as int)),
        decreases diffs@.len() - i,
    {
        let ghost lv = left_oids.deep_view();
        let ghost rv = right_oids.deep_view();
        assert(es.take(i + 1).drop_last() =~= es.take(i as int));
        assert(es.take(i + 1).last() == diffs@[i as int]@);
        match &diffs[i] {
            CommitDiff::LEFT(id) => {
                left_oids.push(id.clone());
                assert(left_oids.deep_view() =~= lv + seq![id@]);
                assert(right_oids.deep_view() =~= rv);
            },
            CommitDiff::RIGHT(id) => {
                right_oids.push(id.clone());
                assert(right_oids.deep_view() =~= rv + seq![id@]);
                assert(left_oids.deep_view() =~= lv);
            },
            CommitDiff::SAME(_) => {},
        }
        i = i + 1;
    }
    assert(es.take(diffs@.len() as int) =~= es);
    (left_oids, right_oids)
}

/// Reverses a vector in place.
pub fn reverse_vec<T>(v: &mut Vec<T>)
    ensures
        final(v)@ == old(v)@.reverse(),
{
    let ghost orig = v@;
    let mut out: Vec<T> = Vec::new();
    while v.len() > 0
        invariant
            v@ == orig.subrange(0, v@.len() as int),
            out@ == orig.subrange(v@.len() as int, orig.len() as int).reverse(),
            v@.len() <= orig.len(),
        decreases v@.len(),
    {
        let x = v.pop().unwrap();
        out.push(x);
        assert(out@ =~= orig.subrange(v@.len() as int, orig.len() as int).reverse());
        assert(v@ =~= orig.subrange(0, v@.len() as int));
    }
    assert(out@ =~= orig.reverse());
    *v = out;
}

} // verus!
