use vstd::prelude::*;

use super::comparer::{
    commit_diff, entries_at, left_commit, left_ids, other_entry, own_entry, right_commit, right_ids, scan,
    DiffEntry,
};

verus! {

broadcast use vstd::seq_lib::group_seq_properties;

/// How many positions of the shorter history `l` a walk of `n` positions covers.
pub open spec fn walked(l: Seq<Seq<char>>, n: nat) -> nat {
    if n <= l.len() {
        n
    } else {
        l.len()
    }
}

/// A reversed sequence holds the same elements.
pub proof fn lemma_reverse_contains<A>(s: Seq<A>, e: A)
    ensures
        s.reverse().contains(e) <==> s.contains(e),
{
    if s.contains(e) {
        let i = choose|i: int| 0 <= i < s.len() && s[i] == e;
        assert(s.reverse()[s.len() - 1 - i] == e);
    }
    if s.reverse().contains(e) {
        let i = choose|i: int| 0 <= i < s.reverse().len() && s.reverse()[i] == e;
        assert(s[s.len() - 1 - i] == e);
    }
}

/// Which entries the first `n` positions of a walk produce, commit by commit.
proof fn lemma_scan_members(l: Seq<Seq<char>>, r: Seq<Seq<char>>, flip: bool, n: nat, x: Seq<char>)
    requires
        l.len() <= r.len(),
        n <= r.len(),
    ensures
        scan(l, r, flip, n).contains(DiffEntry::Same(x)) <==> l.take(walked(l, n) as int).contains(x)
            && r.contains(x),
        scan(l, r, flip, n).contains(own_entry(flip, x)) <==> l.take(walked(l, n) as int).contains(x)
            && !r.contains(x),
        scan(l, r, flip, n).contains(other_entry(flip, x)) <==> r.take(n as int).contains(x)
            && !l.contains(x),
    decreases n,
{
    if n == 0 {
        assert(scan(l, r, flip, n) =~= Seq::<DiffEntry>::empty());
        assert(l.take(0) =~= Seq::<Seq<char>>::empty());
        assert(r.take(0) =~= Seq::<Seq<char>>::empty());
    } else {
        let m = (n - 1) as nat;
        lemma_scan_members(l, r, flip, m, x);
        assert(r.take(n as int) =~= r.take(m as int).push(r[m as int]));
        if m < l.len() {
            assert(l.take(n as int) =~= l.take(m as int).push(l[m as int]));
            assert(l.contains(l[m as int]));
            assert(r.contains(r[m as int]));
        } else {
            assert(walked(l, n) == walked(l, m));
        }
        assert(scan(l, r, flip, n) == scan(l, r, flip, m) + entries_at(l, r, flip, m as int));
    }
}

/// Every commit is classified by where it occurs: `Left` exactly when only
/// the left history holds it, `Right` exactly when only the right history
/// holds it, and `Same` exactly when both do.
pub proof fn lemma_commit_diff_classifies(left: Seq<Seq<char>>, right: Seq<Seq<char>>, x: Seq<char>)
    ensures
        commit_diff(left, right).contains(DiffEntry::Left(x)) <==> left.contains(x) && !right.contains(x),
        commit_diff(left, right).contains(DiffEntry::Right(x)) <==> right.contains(x) && !left.contains(x),
        commit_diff(left, right).contains(DiffEntry::Same(x)) <==> left.contains(x) && right.contains(x),
{
    let l = left.reverse();
    let r = right.reverse();
    lemma_reverse_contains(left, x);
    lemma_reverse_contains(right, x);
    if l.len() <= r.len() {
        lemma_scan_members(l, r, false, r.len(), x);
        assert(l.take(l.len() as int) =~= l);
        assert(r.take(r.len() as int) =~= r);
        let s = scan(l, r, false, r.len());
        lemma_reverse_contains(s, DiffEntry::Left(x));
        lemma_reverse_contains(s, DiffEntry::Right(x));
        lemma_reverse_contains(s, DiffEntry::Same(x));
    } else {
        lemma_scan_members(r, l, true, l.len(), x);
        assert(l.take(l.len() as int) =~= l);
        assert(r.take(r.len() as int) =~= r);
        let s = scan(r, l, true, l.len());
        lemma_reverse_contains(s, DiffEntry::Left(x));
        lemma_reverse_contains(s, DiffEntry::Right(x));
        lemma_reverse_contains(s, DiffEntry::Same(x));
    }
}

/// Every commit of a history, marked as present on both sides.
pub open spec fn all_same(h: Seq<Seq<char>>) -> Seq<DiffEntry> {
    h.map_values(|x: Seq<char>| DiffEntry::Same(x))
}

/// An entry with its sides exchanged.
pub open spec fn swap_entry(e: DiffEntry) -> DiffEntry {
    match e {
        DiffEntry::Left(x) => DiffEntry::Right(x),
        DiffEntry::Right(x) => DiffEntry::Left(x),
        DiffEntry::Same(x) => DiffEntry::Same(x),
    }
}

/// Entries with their sides exchanged.
pub open spec fn swap_sides(es: Seq<DiffEntry>) -> Seq<DiffEntry> {
    es.map_values(|e: DiffEntry| swap_entry(e))
}

/// The commit an entry speaks of.
pub open spec fn entry_id(e: DiffEntry) -> Seq<char> {
    match e {
        DiffEntry::Left(x) => x,
        DiffEntry::Right(x) => x,
        DiffEntry::Same(x) => x,
    }
}

/// The commits that a list of entries speaks of, in order.
pub open spec fn entry_ids(es: Seq<DiffEntry>) -> Seq<Seq<char>> {
    es.map_values(|e: DiffEntry| entry_id(e))
}

proof fn lemma_scan_self(l: Seq<Seq<char>>, flip: bool, n: nat)
    requires
        n <= l.len(),
    ensures
        scan(l, l, flip, n) == all_same(l.take(n as int)),
    decreases n,
{
    if n > 0 {
        let m = (n - 1) as nat;
        lemma_scan_self(l, flip, m);
        assert(all_same(l.take(n as int)) =~= all_same(l.take(m as int)) + seq![DiffEntry::Same(l[m as int])]);
    } else {
        assert(all_same(l.take(0)) =~= Seq::<DiffEntry>::empty());
    }
}

/// Comparing a history with itself reports every commit as present on
/// both sides, in the order of the history.
pub proof fn lemma_commit_diff_self(h: Seq<Seq<char>>)
    ensures
        commit_diff(h, h) == all_same(h),
{
    let l = h.reverse();
    lemma_scan_self(l, false, l.len());
    assert(l.take(l.len() as int) =~= l);
    assert(all_same(l).reverse() =~= all_same(h));
}

proof fn lemma_scan_flip(l: Seq<Seq<char>>, r: Seq<Seq<char>>, n: nat)
    requires
        n <= r.len(),
    ensures
        scan(l, r, true, n) == swap_sides(scan(l, r, false, n)),
    decreases n,
{
    if n > 0 {
        let m = (n - 1) as nat;
        lemma_scan_flip(l, r, m);
        assert(entries_at(l, r, true, m as int) =~= swap_sides(entries_at(l, r, false, m as int)));
        assert(swap_sides(scan(l, r, false, n)) =~= swap_sides(scan(l, r, false, m)) + swap_sides(
            entries_at(l, r, false, m as int),
        ));
    } else {
        assert(swap_sides(scan(l, r, false, 0)) =~= Seq::<DiffEntry>::empty());
    }
}

/// Between histories of different lengths, exchanging the two arguments
/// exchanges `Left` and `Right` in the result and changes nothing else.
pub proof fn lemma_commit_diff_symmetric(left: Seq<Seq<char>>, right: Seq<Seq<char>>)
    requires
        left.len() != right.len(),
    ensures
        commit_diff(right, left) == swap_sides(commit_diff(left, right)),
{
    let l = left.reverse();
    let r = right.reverse();
    if l.len() < r.len() {
        lemma_scan_flip(l, r, r.len());
        let s = scan(l, r, false, r.len());
        assert(swap_sides(s).reverse() =~= swap_sides(s.reverse()));
    } else {
        lemma_scan_flip(r, l, l.len());
        let s = scan(r, l, false, l.len());
        assert(swap_sides(s).reverse() =~= swap_sides(s.reverse()));
        assert(swap_sides(swap_sides(s.reverse())) =~= s.reverse());
    }
}

proof fn lemma_id_member(es: Seq<DiffEntry>, x: Seq<char>)
    ensures
        entry_ids(es).contains(x) ==> es.contains(DiffEntry::Same(x)) || es.contains(DiffEntry::Left(x))
            || es.contains(DiffEntry::Right(x)),
{
    if entry_ids(es).contains(x) {
        let i = choose|i: int| 0 <= i < entry_ids(es).len() && entry_ids(es)[i] == x;
        assert(es.contains(es[i]));
    }
}

proof fn lemma_no_dup_concat<A>(a: Seq<A>, b: Seq<A>)
    requires
        a.no_duplicates(),
        b.no_duplicates(),
        forall|x: A| a.contains(x) ==> !b.contains(x),
    ensures
        (a + b).no_duplicates(),
{
    let c = a + b;
    assert forall|i: int, j: int| 0 <= i < c.len() && 0 <= j < c.len() && i != j implies c[i] != c[j] by {
        if i < a.len() && j >= a.len() {
            assert(a.contains(c[i]));
            assert(b.contains(c[j]));
        } else if j < a.len() && i >= a.len() {
            assert(a.contains(c[j]));
            assert(b.contains(c[i]));
        } else if i >= a.len() && j >= a.len() {
            assert(b[i - a.len()] != b[j - a.len()]);
        }
    }
}

proof fn lemma_scan_unique(l: Seq<Seq<char>>, r: Seq<Seq<char>>, flip: bool, n: nat)
    requires
        l.len() <= r.len(),
        n <= r.len(),
        l.no_duplicates(),
        r.no_duplicates(),
    ensures
        entry_ids(scan(l, r, flip, n)).no_duplicates(),
        forall|x: Seq<char>| #[trigger]
            entry_ids(scan(l, r, flip, n)).contains(x) ==> l.take(walked(l, n) as int).contains(x) || (
            r.take(n as int).contains(x) && !l.contains(x)),
    decreases n,
{
    let ids = entry_ids(scan(l, r, flip, n));
    assert forall|x: Seq<char>| #[trigger]
        ids.contains(x) implies l.take(walked(l, n) as int).contains(x) || (r.take(n as int).contains(x)
        && !l.contains(x)) by {
        lemma_id_member(scan(l, r, flip, n), x);
        lemma_scan_members(l, r, flip, n, x);
    }
    if n > 0 {
        let m = (n - 1) as nat;
        lemma_scan_unique(l, r, flip, m);
        let prev = entry_ids(scan(l, r, flip, m));
        let step = entry_ids(entries_at(l, r, flip, m as int));
        assert(ids =~= prev + step);
        let rm = r[m as int];
        assert(!r.take(m as int).contains(rm)) by {
            if r.take(m as int).contains(rm) {
                let k = choose|k: int| 0 <= k < m && r.take(m as int)[k] == rm;
                assert(r[k] == r[m as int]);
            }
        }
        if m < l.len() {
            let lm = l[m as int];
            assert(l.contains(lm));
            assert(!l.take(m as int).contains(lm)) by {
                if l.take(m as int).contains(lm) {
                    let k = choose|k: int| 0 <= k < m && l.take(m as int)[k] == lm;
                    assert(l[k] == l[m as int]);
                }
            }
            assert(walked(l, m) == m);
            if l[m as int] == r[m as int] {
                assert(step =~= seq![lm]);
            } else if l.contains(rm) {
                assert(step =~= seq![lm]);
            } else {
                assert(step =~= seq![rm, lm]);
                assert(step.no_duplicates());
            }
        } else {
            assert(l.take(walked(l, m) as int) =~= l);
            assert forall|x: Seq<char>| l.take(walked(l, m) as int).contains(x) implies l.contains(x) by {}
            if l.contains(rm) {
                assert(step =~= Seq::<Seq<char>>::empty());
            } else {
                assert(step =~= seq![rm]);
            }
        }
        lemma_no_dup_concat(prev, step);
    } else {
        assert(ids =~= Seq::<Seq<char>>::empty());
    }
}

/// When neither history repeats a commit, the result speaks of each commit
/// once.
pub proof fn lemma_commit_diff_unique(left: Seq<Seq<char>>, right: Seq<Seq<char>>)
    requires
        left.no_duplicates(),
        right.no_duplicates(),
    ensures
        entry_ids(commit_diff(left, right)).no_duplicates(),
{
    let l = left.reverse();
    let r = right.reverse();
    assert(l.no_duplicates()) by {
        assert forall|i: int, j: int| 0 <= i < l.len() && 0 <= j < l.len() && i != j implies l[i] != l[j] by {
            assert(left[left.len() - 1 - i] != left[left.len() - 1 - j]);
        }
    }
    assert(r.no_duplicates()) by {
        assert forall|i: int, j: int| 0 <= i < r.len() && 0 <= j < r.len() && i != j implies r[i] != r[j] by {
            assert(right[right.len() - 1 - i] != right[right.len() - 1 - j]);
        }
    }
    let s = if l.len() <= r.len() { scan(l, r, false, r.len()) } else { scan(r, l, true, l.len()) };
    if l.len() <= r.len() {
        lemma_scan_unique(l, r, false, r.len());
    } else {
        lemma_scan_unique(r, l, true, l.len());
    }
    let ids = entry_ids(s);
    assert(entry_ids(s.reverse()) =~= ids.reverse());
    assert forall|i: int, j: int|
        0 <= i < ids.len() && 0 <= j < ids.len() && i != j implies ids.reverse()[i] != ids.reverse()[j] by {
        assert(ids[ids.len() - 1 - i] != ids[ids.len() - 1 - j]);
    }
}

/// The result speaks of exactly the commits that either history holds.
pub proof fn lemma_commit_diff_covers(left: Seq<Seq<char>>, right: Seq<Seq<char>>, x: Seq<char>)
    ensures
        entry_ids(commit_diff(left, right)).contains(x) <==> left.contains(x) || right.contains(x),
{
    let es = commit_diff(left, right);
    lemma_commit_diff_classifies(left, right, x);
    lemma_id_member(es, x);
    let e = if left.contains(x) && right.contains(x) {
        DiffEntry::Same(x)
    } else if left.contains(x) {
        DiffEntry::Left(x)
    } else {
        DiffEntry::Right(x)
    };
    if left.contains(x) || right.contains(x) {
        let i = choose|i: int| 0 <= i < es.len() && es[i] == e;
        assert(entry_ids(es)[i] == x);
    }
}

/// When neither history repeats a commit, the result has one entry per
/// commit that either history holds.
pub proof fn lemma_commit_diff_len(left: Seq<Seq<char>>, right: Seq<Seq<char>>)
    requires
        left.no_duplicates(),
        right.no_duplicates(),
    ensures
        commit_diff(left, right).len() == left.to_set().union(right.to_set()).len(),
{
    let ids = entry_ids(commit_diff(left, right));
    lemma_commit_diff_unique(left, right);
    assert forall|x: Seq<char>| ids.to_set().contains(x) <==> left.to_set().union(right.to_set()).contains(x) by {
        lemma_commit_diff_covers(left, right, x);
    }
    assert(ids.to_set() =~= left.to_set().union(right.to_set()));
    ids.unique_seq_to_set();
}

proof fn lemma_left_ids_member(es: Seq<DiffEntry>, x: Seq<char>)
    ensures
        left_ids(es).contains(x) <==> es.contains(DiffEntry::Left(x)),
    decreases es.len(),
{
    if es.len() > 0 {
        let rest = es.drop_last();
        lemma_left_ids_member(rest, x);
        assert(es =~= rest.push(es.last()));
        if es.contains(DiffEntry::Left(x)) && es.last() != DiffEntry::Left(x) {
            let i = choose|i: int| 0 <= i < es.len() && es[i] == DiffEntry::Left(x);
            assert(rest[i] == DiffEntry::Left(x));
        }
        match left_commit(es.last()) {
            Some(y) => {
                assert(left_ids(es) == left_ids(rest) + seq![y]);
            },
            None => {
                assert(left_ids(es) == left_ids(rest));
            },
        }
    }
}

proof fn lemma_right_ids_member(es: Seq<DiffEntry>, x: Seq<char>)
    ensures
        right_ids(es).contains(x) <==> es.contains(DiffEntry::Right(x)),
    decreases es.len(),
{
    if es.len() > 0 {
        let rest = es.drop_last();
        lemma_right_ids_member(rest, x);
        assert(es =~= rest.push(es.last()));
        if es.contains(DiffEntry::Right(x)) && es.last() != DiffEntry::Right(x) {
            let i = choose|i: int| 0 <= i < es.len() && es[i] == DiffEntry::Right(x);
            assert(rest[i] == DiffEntry::Right(x));
        }
        match right_commit(es.last()) {
            Some(y) => {
                assert(right_ids(es) == right_ids(rest) + seq![y]);
            },
            None => {
                assert(right_ids(es) == right_ids(rest));
            },
        }
    }
}

/// Split into its two one-sided lists, the comparison of two histories
/// names, on the left, exactly the commits that only the left history holds,
/// and on the right exactly those that only the right history holds.
pub proof fn lemma_one_sided_commits(left: Seq<Seq<char>>, right: Seq<Seq<char>>, x: Seq<char>)
    ensures
        left_ids(commit_diff(left, right)).contains(x) <==> left.contains(x) && !right.contains(x),
        right_ids(commit_diff(left, right)).contains(x) <==> right.contains(x) && !left.contains(x),
{
    lemma_commit_diff_classifies(left, right, x);
    lemma_left_ids_member(commit_diff(left, right), x);
    lemma_right_ids_member(commit_diff(left, right), x);
}

/// Whether a commit belongs to history `h`.
pub open spec fn in_history(h: Seq<Seq<char>>) -> spec_fn(Seq<char>) -> bool {
    |x: Seq<char>| h.contains(x)
}

/// Whether a commit lies outside history `h`.
pub open spec fn not_in_history(h: Seq<Seq<char>>) -> spec_fn(Seq<char>) -> bool {
    |x: Seq<char>| !h.contains(x)
}

/// The history that a comparison walks: the shorter one, the left one on a tie.
pub open spec fn shorter_history(left: Seq<Seq<char>>, right: Seq<Seq<char>>) -> Seq<Seq<char>> {
    if left.len() <= right.len() {
        left
    } else {
        right
    }
}

/// The history that a comparison walks against.
pub open spec fn longer_history(left: Seq<Seq<char>>, right: Seq<Seq<char>>) -> Seq<Seq<char>> {
    if left.len() <= right.len() {
        right
    } else {
        left
    }
}

proof fn lemma_filter_single<A>(x: A, p: spec_fn(A) -> bool)
    ensures
        seq![x].filter(p) == (if p(x) { seq![x] } else { Seq::<A>::empty() }),
{
    reveal_with_fuel(Seq::filter, 2);
    assert(seq![x].drop_last() =~= Seq::<A>::empty());
    assert(Seq::<A>::empty().filter(p) =~= Seq::<A>::empty());
    if p(x) {
        assert(Seq::<A>::empty().push(x) =~= seq![x]);
    }
}

proof fn lemma_filter_reverse<A>(s: Seq<A>, p: spec_fn(A) -> bool)
    ensures
        s.reverse().filter(p) == s.filter(p).reverse(),
    decreases s.len(),
{
    broadcast use Seq::filter_distributes_over_add;

    if s.len() == 0 {
        assert(s.reverse() =~= s);
        assert(s =~= Seq::<A>::empty());
        reveal_with_fuel(Seq::filter, 1);
        assert(s.filter(p).reverse() =~= s.filter(p));
    } else {
        let t = s.drop_last();
        let x = s.last();
        lemma_filter_reverse(t, p);
        lemma_filter_single(x, p);
        assert(s =~= t + seq![x]);
        assert(s.reverse() =~= seq![x] + t.reverse());
        assert(s.filter(p) == t.filter(p) + seq![x].filter(p));
        assert(s.reverse().filter(p) == seq![x].filter(p) + t.reverse().filter(p));
        assert((t.filter(p) + seq![x].filter(p)).reverse() =~= seq![x].filter(p).reverse() + t.filter(p).reverse());
        assert(seq![x].filter(p).reverse() =~= seq![x].filter(p));
    }
}

proof fn lemma_scan_order(l: Seq<Seq<char>>, r: Seq<Seq<char>>, flip: bool, n: nat)
    requires
        l.len() <= r.len(),
        n <= r.len(),
    ensures
        entry_ids(scan(l, r, flip, n)).filter(in_history(l)) == l.take(walked(l, n) as int),
        entry_ids(scan(l, r, flip, n)).filter(not_in_history(l)) == r.take(n as int).filter(not_in_history(l)),
    decreases n,
{
    broadcast use Seq::filter_distributes_over_add;

    let inl = in_history(l);
    let outl = not_in_history(l);
    if n == 0 {
        reveal_with_fuel(Seq::filter, 1);
        assert(entry_ids(scan(l, r, flip, 0)) =~= Seq::<Seq<char>>::empty());
        assert(l.take(0) =~= Seq::<Seq<char>>::empty());
        assert(r.take(0) =~= Seq::<Seq<char>>::empty());
    } else {
        let m = (n - 1) as nat;
        lemma_scan_order(l, r, flip, m);
        let prev = entry_ids(scan(l, r, flip, m));
        let step = entry_ids(entries_at(l, r, flip, m as int));
        assert(entry_ids(scan(l, r, flip, n)) =~= prev + step);
        let rm = r[m as int];
        assert(r.take(n as int) =~= r.take(m as int) + seq![rm]);
        lemma_filter_single(rm, outl);
        lemma_filter_single(rm, inl);
        if m < l.len() {
            let lm = l[m as int];
            assert(l.contains(lm));
            assert(l.take(n as int) =~= l.take(m as int) + seq![lm]);
            assert(walked(l, m) == m && walked(l, n) == n);
            lemma_filter_single(lm, outl);
            lemma_filter_single(lm, inl);
            if lm == rm {
                assert(step =~= seq![lm]);
            } else if l.contains(rm) {
                assert(step =~= seq![lm]);
            } else {
                assert(step =~= seq![rm] + seq![lm]);
            }
        } else {
            assert(walked(l, n) == walked(l, m));
            if l.contains(rm) {
                assert(step =~= Seq::<Seq<char>>::empty());
                reveal_with_fuel(Seq::filter, 1);
                assert(step.filter(inl) =~= step);
                assert(step.filter(outl) =~= step);
            } else {
                assert(step =~= seq![rm]);
            }
        }
    }
}

/// The comparison keeps the order of the histories it is given (newest
/// commit first): its entries for the commits of the walked (shorter)
/// history name that history's commits in its own order, and its entries for
/// the other commits name those of the longer history that the shorter one
/// lacks, in the longer history's order.
pub proof fn lemma_commit_diff_order(left: Seq<Seq<char>>, right: Seq<Seq<char>>)
    ensures
        entry_ids(commit_diff(left, right)).filter(in_history(shorter_history(left, right)))
            == shorter_history(left, right),
        entry_ids(commit_diff(left, right)).filter(not_in_history(shorter_history(left, right)))
            == longer_history(left, right).filter(not_in_history(shorter_history(left, right))),
{
    let s = shorter_history(left, right);
    let g = longer_history(left, right);
    let l = s.reverse();
    let r = g.reverse();
    let flip = !(left.len() <= right.len());
    assert(commit_diff(left, right) == scan(l, r, flip, r.len()).reverse());
    lemma_scan_order(l, r, flip, r.len());
    assert(in_history(l) =~= in_history(s)) by {
        assert forall|x: Seq<char>| #[trigger] in_history(l)(x) == in_history(s)(x) by {
            lemma_reverse_contains(s, x);
        }
    }
    assert(not_in_history(l) =~= not_in_history(s)) by {
        assert forall|x: Seq<char>| #[trigger] not_in_history(l)(x) == not_in_history(s)(x) by {
            lemma_reverse_contains(s, x);
        }
    }
    let ids = entry_ids(scan(l, r, flip, r.len()));
    assert(entry_ids(commit_diff(left, right)) =~= ids.reverse());
    lemma_filter_reverse(ids, in_history(s));
    lemma_filter_reverse(ids, not_in_history(s));
    assert(l.take(walked(l, r.len()) as int) =~= l);
    assert(r.take(r.len() as int) =~= r);
    assert(l.reverse() =~= s);
    lemma_filter_reverse(g, not_in_history(s));
    assert(g.filter(not_in_history(s)).reverse().reverse() =~= g.filter(not_in_history(s)));
}

} // verus!
