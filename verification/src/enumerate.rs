//! Candidate file enumeration: given the listing of a dataset directory,
//! rank the entries by filename length (longest first) and keep those whose
//! name starts with the run name and whose extension is not the excluded
//! raw-annotation format.

use vstd::prelude::*;

use crate::ident::Identifier;
use crate::ident::ResolveError;

verus! {

/// ASCII code of `.`, the extension separator.
pub const DOT: u8 = 46;

/// ASCII code of `/`, the path separator.
pub const SLASH: u8 = 47;

/// ASCII lower-casing of a single byte.
pub open spec fn ascii_lower(b: u8) -> u8 {
    if 65 <= b && b <= 90 {
        (b + 32) as u8
    } else {
        b
    }
}

/// Index of the last `.` in `name`, or `-1` when there is none.
pub open spec fn last_dot(name: Seq<u8>) -> int
    decreases name.len(),
{
    if name.len() == 0 {
        -1
    } else if name[name.len() - 1] == DOT {
        name.len() - 1
    } else {
        last_dot(name.drop_last())
    }
}

pub proof fn lemma_last_dot(name: Seq<u8>)
    ensures
        -1 <= last_dot(name) < name.len(),
        last_dot(name) >= 0 ==> name[last_dot(name)] == DOT,
        forall|k: int| last_dot(name) < k < name.len() ==> name[k] != DOT,
    decreases name.len(),
{
    if name.len() == 0 {
    } else if name[name.len() - 1] == DOT {
    } else {
        lemma_last_dot(name.drop_last());
        assert forall|k: int| last_dot(name) < k < name.len() implies name[k] != DOT by {
            if k < name.len() - 1 {
                assert(name.drop_last()[k] == name[k]);
            }
        }
        if last_dot(name) >= 0 {
            assert(name.drop_last()[last_dot(name)] == name[last_dot(name)]);
        }
    }
}

/// Does `name` carry the excluded raw-annotation extension (`mgf`, compared
/// case-insensitively)?  The extension is the part after the last `.` of the
/// name, provided that dot is neither the leading character nor absent, as
/// with a path's extension.
pub open spec fn is_excluded_name(name: Seq<u8>) -> bool {
    let i = last_dot(name);
    &&& i >= 1
    &&& name.len() - i - 1 == 3
    &&& ascii_lower(name[i + 1]) == 109
    &&& ascii_lower(name[i + 2]) == 103
    &&& ascii_lower(name[i + 3]) == 102
}

/// Does `name` start with `run` (case-sensitive)?
pub open spec fn is_run_prefix(run: Seq<u8>, name: Seq<u8>) -> bool {
    run.len() <= name.len() && (forall|k: int| 0 <= k < run.len() ==> run[k] == name[k])
}

/// A directory entry is a candidate exactly when its name starts with the
/// run name and it does not carry the excluded extension.
pub open spec fn is_candidate_name(name: Seq<u8>, run: Seq<u8>) -> bool {
    is_run_prefix(run, name) && !is_excluded_name(name)
}

fn lower_byte(b: u8) -> (r: u8)
    ensures
        r == ascii_lower(b),
{
    if 65 <= b && b <= 90 {
        b + 32
    } else {
        b
    }
}

/// Decide whether a file name carries the excluded extension.
pub fn name_is_excluded(name: &Vec<u8>) -> (r: bool)
    ensures
        r == is_excluded_name(name@),
{
    proof {
        lemma_last_dot(name@);
    }
    let n = name.len();
    let mut i: usize = 0;
    let mut found: bool = false;
    let mut dot_idx: usize = 0;
    while i < n
        invariant
            i <= n,
            n == name@.len(),
            found ==> dot_idx < i && name@[dot_idx as int] == DOT && (forall|k: int|
                dot_idx < k < i ==> name@[k] != DOT),
            !found ==> (forall|k: int| 0 <= k < i ==> name@[k] != DOT),
        decreases n - i,
    {
        if name[i] == DOT {
            found = true;
            dot_idx = i;
        }
        i += 1;
    }
    if !found {
        assert(last_dot(name@) < 0) by {
            if last_dot(name@) >= 0 {
                assert(name@[last_dot(name@)] == DOT);
            }
        }
        return false;
    }
    assert(last_dot(name@) == dot_idx) by {
        if last_dot(name@) > dot_idx {
            assert(name@[last_dot(name@)] == DOT);
        }
        if last_dot(name@) < dot_idx {
            assert(name@[dot_idx as int] != DOT);
        }
    }
    if dot_idx == 0 {
        return false;
    }
    if n - dot_idx - 1 != 3 {
        return false;
    }
    let b1 = lower_byte(name[dot_idx + 1]);
    let b2 = lower_byte(name[dot_idx + 2]);
    let b3 = lower_byte(name[dot_idx + 3]);
    b1 == 109 && b2 == 103 && b3 == 102
}

/// Decide whether a file name starts with the run name.
pub fn name_has_run_prefix(name: &Vec<u8>, run: &Vec<u8>) -> (r: bool)
    ensures
        r == is_run_prefix(run@, name@),
{
    let rl = run.len();
    if rl > name.len() {
        return false;
    }
    let mut k: usize = 0;
    while k < rl
        invariant
            k <= rl,
            rl == run@.len(),
            rl <= name@.len(),
            forall|t: int| 0 <= t < k ==> run@[t] == name@[t],
        decreases rl - k,
    {
        if run[k] != name[k] {
            return false;
        }
        k += 1;
    }
    true
}

/// Decide whether a directory entry is a candidate for the given run.
pub fn is_candidate(name: &Vec<u8>, run: &Vec<u8>) -> (r: bool)
    ensures
        r == is_candidate_name(name@, run@),
{
    name_has_run_prefix(name, run) && !name_is_excluded(name)
}

/// The views of the entries of a sequence of byte vectors.
pub open spec fn views(s: Seq<Vec<u8>>) -> Seq<Seq<u8>> {
    s.map_values(|v: Vec<u8>| v@)
}

/// Insert one name into a ranked sequence: it goes after every name at
/// least as long and before the first strictly shorter one, so names of
/// equal length keep their arrival order.
pub open spec fn insert_ranked(s: Seq<Seq<u8>>, x: Seq<u8>) -> Seq<Seq<u8>>
    decreases s.len(),
{
    if s.len() == 0 {
        seq![x]
    } else if s[0].len() >= x.len() {
        seq![s[0]] + insert_ranked(s.skip(1), x)
    } else {
        seq![x] + s
    }
}

/// Rank a directory listing by name length, longest first: a stable
/// insertion sort, inserting the entries in listing order.
pub open spec fn rank_spec(s: Seq<Seq<u8>>) -> Seq<Seq<u8>>
    decreases s.len(),
{
    if s.len() == 0 {
        Seq::<Seq<u8>>::empty()
    } else {
        insert_ranked(rank_spec(s.drop_last()), s.last())
    }
}

/// The names kept from a ranked listing: those that are candidates for the
/// run, in the ranked order.
pub open spec fn keep_candidates(s: Seq<Seq<u8>>, run: Seq<u8>) -> Seq<Seq<u8>>
    decreases s.len(),
{
    if s.len() == 0 {
        Seq::<Seq<u8>>::empty()
    } else {
        let rest = keep_candidates(s.skip(1), run);
        if is_candidate_name(s[0], run) {
            seq![s[0]] + rest
        } else {
            rest
        }
    }
}

/// What candidate enumeration returns for a successfully listed dataset
/// directory: the listing ranked longest-first, filtered to the candidates.
pub open spec fn candidates_spec(listing: Seq<Seq<u8>>, run: Seq<u8>) -> Seq<Seq<u8>> {
    keep_candidates(rank_spec(listing), run)
}

proof fn lemma_insert_ranked_split(s: Seq<Seq<u8>>, x: Seq<u8>, k: int)
    requires
        0 <= k <= s.len(),
        forall|j: int| 0 <= j < k ==> s[j].len() >= x.len(),
        k < s.len() ==> s[k].len() < x.len(),
    ensures
        insert_ranked(s, x) == s.take(k) + seq![x] + s.skip(k),
    decreases k,
{
    if k == 0 {
        if s.len() == 0 {
            assert(s.take(0) + seq![x] + s.skip(0) =~= seq![x]);
        } else {
            assert(s.take(0) + seq![x] + s.skip(0) =~= seq![x] + s);
        }
    } else {
        assert(s[0].len() >= x.len());
        assert forall|j: int| 0 <= j < k - 1 implies s.skip(1)[j].len() >= x.len() by {
            assert(s.skip(1)[j] == s[j + 1]);
        }
        if k - 1 < s.skip(1).len() {
            assert(s.skip(1)[k - 1] == s[k]);
        }
        lemma_insert_ranked_split(s.skip(1), x, k - 1);
        assert(insert_ranked(s, x) == seq![s[0]] + (s.skip(1).take(k - 1) + seq![x] + s.skip(1).skip(
            k - 1,
        )));
        assert(seq![s[0]] + (s.skip(1).take(k - 1) + seq![x] + s.skip(1).skip(k - 1)) =~= s.take(k)
            + seq![x] + s.skip(k));
    }
}

proof fn lemma_views_insert(t: Seq<Vec<u8>>, x: Vec<u8>, k: int)
    requires
        0 <= k <= t.len(),
    ensures
        views(t.insert(k, x)) == views(t).take(k) + seq![x@] + views(t).skip(k),
{
    t.insert_ensures(k, x);
    assert(views(t.insert(k, x)) =~= views(t).take(k) + seq![x@] + views(t).skip(k)) by {
        assert forall|i: int| 0 <= i < t.len() + 1 implies views(t.insert(k, x))[i] == (views(
            t,
        ).take(k) + seq![x@] + views(t).skip(k))[i] by {
            if i < k {
                assert(t.insert(k, x)[i] == t[i]);
            } else if i == k {
                assert(t.insert(k, x)[i] == x);
            } else {
                assert(t.insert(k, x)[i] == t[i - 1]);
            }
        }
    }
}

/// Insert one entry into a vector already ranked longest-first.
fn insert_by_length(ranked: &mut Vec<Vec<u8>>, x: Vec<u8>)
    ensures
        views(final(ranked)@) == insert_ranked(views(old(ranked)@), x@),
{
    let ghost s0 = views(ranked@);
    let mut k: usize = 0;
    while k < ranked.len() && ranked[k].len() >= x.len()
        invariant
            k <= ranked@.len(),
            ranked@ == old(ranked)@,
            s0 == views(ranked@),
            forall|j: int| 0 <= j < k ==> s0[j].len() >= x@.len(),
        decreases ranked@.len() - k,
    {
        assert(s0[k as int] == ranked@[k as int]@);
        k += 1;
    }
    assert(k < ranked@.len() ==> s0[k as int].len() < x@.len());
    ranked.insert(k, x);
    proof {
        lemma_views_insert(old(ranked)@, x, k as int);
        lemma_insert_ranked_split(s0, x@, k as int);
    }
}

/// Rank a directory listing by name length, longest first.  The sort is
/// stable: names of equal length keep the listing's order, so the ranking
/// is a function of the listing alone.
pub fn rank_by_length(entries: Vec<Vec<u8>>) -> (r: Vec<Vec<u8>>)
    ensures
        views(r@) == rank_spec(views(entries@)),
{
    let ghost all = views(entries@);
    let mut out: Vec<Vec<u8>> = Vec::new();
    let mut rest = entries;
    while rest.len() > 0
        invariant
            rest@.len() <= all.len(),
            views(rest@) == all.skip(all.len() - rest@.len()),
            views(out@) == rank_spec(all.take(all.len() - rest@.len())),
        decreases rest@.len(),
    {
        let ghost c = all.len() - rest@.len();
        let ghost rest0 = rest@;
        let x = rest.remove(0);
        proof {
            assert(x@ == views(rest0)[0]);
            assert(views(rest0)[0] == all[c]);
            assert(views(rest@) =~= all.skip(c + 1)) by {
                assert(rest@ =~= rest0.skip(1));
                assert forall|i: int| 0 <= i < rest@.len() implies views(rest@)[i] == all.skip(
                    c + 1,
                )[i] by {
                    assert(views(rest@)[i] == rest@[i]@);
                    assert(rest@[i] == rest0[i + 1]);
                    assert(views(rest0)[i + 1] == rest0[i + 1]@);
                    assert(views(rest0)[i + 1] == all.skip(c)[i + 1]);
                }
            }
        }
        insert_by_length(&mut out, x);
        proof {
            assert(all.take(c + 1).drop_last() =~= all.take(c));
            assert(all.take(c + 1).last() == all[c]);
            assert(rank_spec(all.take(c + 1)) == insert_ranked(rank_spec(all.take(c)), all[c]));
        }
    }
    proof {
        assert(all.take(all.len() as int) =~= all);
    }
    out
}

/// Keep, in ranked order, the names that are candidates for the run.
fn filter_candidates(ranked: Vec<Vec<u8>>, run: &Vec<u8>) -> (r: Vec<Vec<u8>>)
    ensures
        views(r@) == keep_candidates(views(ranked@), run@),
{
    let ghost all = views(ranked@);
    let mut out: Vec<Vec<u8>> = Vec::new();
    let mut rest = ranked;
    while rest.len() > 0
        invariant
            rest@.len() <= all.len(),
            views(rest@) == all.skip(all.len() - rest@.len()),
            keep_candidates(all, run@) == views(out@) + keep_candidates(views(rest@), run@),
        decreases rest@.len(),
    {
        let ghost c = all.len() - rest@.len();
        let ghost rest0 = rest@;
        let ghost out0 = out@;
        let x = rest.remove(0);
        proof {
            assert(x@ == views(rest0)[0]);
            assert(views(rest@) =~= views(rest0).skip(1)) by {
                assert forall|i: int| 0 <= i < rest@.len() implies views(rest@)[i] == views(
                    rest0,
                ).skip(1)[i] by {
                    assert(rest@[i] == rest0[i + 1]);
                    assert(views(rest0)[i + 1] == rest0[i + 1]@);
                }
            }
            assert(views(rest@) =~= all.skip(c + 1)) by {
                assert(all.skip(c).skip(1) =~= all.skip(c + 1));
            }
        }
        if is_candidate(&x, run) {
            out.push(x);
            proof {
                assert(views(out@) =~= views(out0).push(x@)) by {
                    assert(out@ =~= out0.push(x));
                }
                assert(keep_candidates(views(rest0), run@) == seq![x@] + keep_candidates(
                    views(rest0).skip(1),
                    run@,
                ));
                assert(views(out0).push(x@) =~= views(out0) + seq![x@]);
                assert(views(out0) + (seq![x@] + keep_candidates(views(rest@), run@)) =~= (views(
                    out0,
                ) + seq![x@]) + keep_candidates(views(rest@), run@));
            }
        } else {
            proof {
                assert(keep_candidates(views(rest0), run@) == keep_candidates(
                    views(rest0).skip(1),
                    run@,
                ));
            }
        }
    }
    proof {
        assert(views(rest@).len() == 0);
        assert(views(rest@) =~= Seq::<Seq<u8>>::empty());
        assert(keep_candidates(all, run@) =~= views(out@)) by {
            assert(views(out@) + Seq::<Seq<u8>>::empty() =~= views(out@));
        }
    }
    out
}

/// A sequence of names ordered by length, longest first.
pub open spec fn sorted_desc(s: Seq<Seq<u8>>) -> bool {
    forall|i: int, j: int| 0 <= i < j < s.len() ==> s[i].len() >= s[j].len()
}

proof fn lemma_insert_ranked_bound(s: Seq<Seq<u8>>, x: Seq<u8>, b: nat)
    requires
        forall|i: int| 0 <= i < s.len() ==> s[i].len() <= b,
        x.len() <= b,
    ensures
        insert_ranked(s, x).len() == s.len() + 1,
        forall|i: int| 0 <= i < s.len() + 1 ==> insert_ranked(s, x)[i].len() <= b,
    decreases s.len(),
{
    if s.len() == 0 {
    } else if s[0].len() >= x.len() {
        assert forall|i: int| 0 <= i < s.skip(1).len() implies s.skip(1)[i].len() <= b by {
            assert(s.skip(1)[i] == s[i + 1]);
        }
        lemma_insert_ranked_bound(s.skip(1), x, b);
    } else {
    }
}

proof fn lemma_insert_ranked_sorted(s: Seq<Seq<u8>>, x: Seq<u8>)
    requires
        sorted_desc(s),
    ensures
        sorted_desc(insert_ranked(s, x)),
    decreases s.len(),
{
    if s.len() == 0 {
    } else if s[0].len() >= x.len() {
        assert forall|i: int, j: int| 0 <= i < j < s.skip(1).len() implies s.skip(1)[i].len()
            >= s.skip(1)[j].len() by {
            assert(s.skip(1)[i] == s[i + 1]);
            assert(s.skip(1)[j] == s[j + 1]);
        }
        lemma_insert_ranked_sorted(s.skip(1), x);
        assert forall|i: int| 0 <= i < s.skip(1).len() implies s.skip(1)[i].len() <= s[0].len() by {
            assert(s.skip(1)[i] == s[i + 1]);
        }
        lemma_insert_ranked_bound(s.skip(1), x, s[0].len());
        assert forall|i: int, j: int|
            0 <= i < j < insert_ranked(s, x).len() implies insert_ranked(s, x)[i].len()
            >= insert_ranked(s, x)[j].len() by {
            let t = seq![s[0]] + insert_ranked(s.skip(1), x);
            assert(insert_ranked(s, x) == t);
            if i > 0 {
                assert(t[i] == insert_ranked(s.skip(1), x)[i - 1]);
                assert(t[j] == insert_ranked(s.skip(1), x)[j - 1]);
            } else {
                assert(t[j] == insert_ranked(s.skip(1), x)[j - 1]);
            }
        }
    } else {
    }
}

/// Ranking sorts by name length, longest first.  Together with the exact
/// result stated by `rank_by_length`, the ordering is a function of the
/// directory listing alone, so it is reproducible across runs.
pub proof fn lemma_rank_sorted(s: Seq<Seq<u8>>)
    ensures
        sorted_desc(rank_spec(s)),
    decreases s.len(),
{
    if s.len() > 0 {
        lemma_rank_sorted(s.drop_last());
        lemma_insert_ranked_sorted(rank_spec(s.drop_last()), s.last());
    }
}

proof fn lemma_keep_candidates_sorted(s: Seq<Seq<u8>>, run: Seq<u8>, b: nat)
    requires
        sorted_desc(s),
        forall|i: int| 0 <= i < s.len() ==> s[i].len() <= b,
    ensures
        sorted_desc(keep_candidates(s, run)),
        forall|i: int|
            0 <= i < keep_candidates(s, run).len() ==> keep_candidates(s, run)[i].len() <= b,
    decreases s.len(),
{
    if s.len() > 0 {
        assert forall|i: int, j: int| 0 <= i < j < s.skip(1).len() implies s.skip(1)[i].len()
            >= s.skip(1)[j].len() by {
            assert(s.skip(1)[i] == s[i + 1]);
            assert(s.skip(1)[j] == s[j + 1]);
        }
        assert forall|i: int| 0 <= i < s.skip(1).len() implies s.skip(1)[i].len() <= s[0].len() by {
            assert(s.skip(1)[i] == s[i + 1]);
        }
        lemma_keep_candidates_sorted(s.skip(1), run, s[0].len());
        assert forall|i: int| 0 <= i < s.skip(1).len() implies s.skip(1)[i].len() <= b by {
            assert(s.skip(1)[i] == s[i + 1]);
        }
        lemma_keep_candidates_sorted(s.skip(1), run, b);
    }
}

/// Every name the enumerator returns is a candidate: it starts with the run
/// name and does not carry the excluded extension.  In particular a file of
/// the excluded raw-annotation format is never selected, even when its name
/// matches the run-name prefix.
pub proof fn lemma_keep_candidates_sound(s: Seq<Seq<u8>>, run: Seq<u8>)
    ensures
        forall|i: int|
            0 <= i < keep_candidates(s, run).len() ==> #[trigger] is_candidate_name(
                keep_candidates(s, run)[i],
                run,
            ),
    decreases s.len(),
{
    if s.len() > 0 {
        lemma_keep_candidates_sound(s.skip(1), run);
        let rest = keep_candidates(s.skip(1), run);
        assert forall|i: int|
            0 <= i < keep_candidates(s, run).len() implies #[trigger] is_candidate_name(
            keep_candidates(s, run)[i],
            run,
        ) by {
            if is_candidate_name(s[0], run) {
                assert(keep_candidates(s, run) == seq![s[0]] + rest);
                if i > 0 {
                    assert((seq![s[0]] + rest)[i] == rest[i - 1]);
                }
            } else {
                assert(keep_candidates(s, run) == rest);
            }
        }
    }
}

/// The candidate sequence of a listed dataset directory is ordered by name
/// length, longest first, and holds matching, non-excluded names only.
pub proof fn lemma_candidates_spec_properties(listing: Seq<Seq<u8>>, run: Seq<u8>)
    ensures
        sorted_desc(candidates_spec(listing, run)),
        forall|i: int|
            0 <= i < candidates_spec(listing, run).len() ==> #[trigger] is_candidate_name(
                candidates_spec(listing, run)[i],
                run,
            ),
{
    lemma_rank_sorted(listing);
    let r = rank_spec(listing);
    assert forall|i: int| 0 <= i < r.len() implies r[i].len() <= r.len() + max_len(r) by {
        lemma_max_len(r, i);
    }
    lemma_keep_candidates_sorted(r, run, r.len() + max_len(r));
    lemma_keep_candidates_sound(r, run);
}

proof fn lemma_insert_ranked_multiset(s: Seq<Seq<u8>>, x: Seq<u8>)
    ensures
        insert_ranked(s, x).to_multiset() == s.to_multiset().insert(x),
    decreases s.len(),
{
    broadcast use vstd::seq_lib::group_to_multiset_ensures;

    if s.len() == 0 {
        assert(seq![x] =~= Seq::<Seq<u8>>::empty().push(x));
        assert(seq![x].to_multiset() =~= Seq::<Seq<u8>>::empty().to_multiset().insert(x));
        assert(s.to_multiset() =~= Seq::<Seq<u8>>::empty().to_multiset());
    } else if s[0].len() >= x.len() {
        lemma_insert_ranked_multiset(s.skip(1), x);
        let t = insert_ranked(s, x);
        let u = insert_ranked(s.skip(1), x);
        assert(t == seq![s[0]] + u);
        // removing the head of `t` leaves `u`, so their multisets differ by s[0]
        assert(t.remove(0) =~= u);
        assert(t[0] == s[0]);
        assert(t.remove(0).to_multiset() =~= t.to_multiset().remove(s[0]));
        assert(t.to_multiset().contains(s[0])) by {
            assert(t.contains(s[0]));
        }
        assert(t.to_multiset() =~= u.to_multiset().insert(s[0]));
        // likewise the multiset of `s` differs from its tail's by s[0]
        assert(s.remove(0) =~= s.skip(1));
        assert(s.remove(0).to_multiset() =~= s.to_multiset().remove(s[0]));
        assert(s.to_multiset().contains(s[0])) by {
            assert(s.contains(s[0]));
        }
        assert(s.to_multiset() =~= s.skip(1).to_multiset().insert(s[0]));
        assert(u.to_multiset().insert(s[0]) =~= s.skip(1).to_multiset().insert(x).insert(s[0]));
        assert(s.skip(1).to_multiset().insert(x).insert(s[0]) =~= s.skip(1).to_multiset().insert(
            s[0],
        ).insert(x));
    } else {
        let t = insert_ranked(s, x);
        assert(t == seq![x] + s);
        assert(t.remove(0) =~= s);
        assert(t[0] == x);
        assert(t.remove(0).to_multiset() =~= t.to_multiset().remove(x));
        assert(t.to_multiset().contains(x)) by {
            assert(t.contains(x));
        }
        assert(t.to_multiset() =~= s.to_multiset().insert(x));
    }
}

/// Ranking loses nothing and invents nothing: the ranked sequence is a
/// permutation of the directory listing.
pub proof fn lemma_rank_permutes(s: Seq<Seq<u8>>)
    ensures
        rank_spec(s).to_multiset() == s.to_multiset(),
    decreases s.len(),
{
    broadcast use vstd::seq_lib::group_to_multiset_ensures;

    if s.len() > 0 {
        lemma_rank_permutes(s.drop_last());
        lemma_insert_ranked_multiset(rank_spec(s.drop_last()), s.last());
        assert(s.drop_last().push(s.last()) =~= s);
        assert(s.drop_last().push(s.last()).to_multiset() =~= s.drop_last().to_multiset().insert(
            s.last(),
        ));
    }
}

/// The filter keeps exactly the candidates: a name is among the kept names
/// if and only if it stands in the sequence and is a candidate for the run.
pub proof fn lemma_keep_candidates_complete(s: Seq<Seq<u8>>, run: Seq<u8>)
    ensures
        forall|x: Seq<u8>| #[trigger] keep_candidates(s, run).contains(x) <==> (s.contains(x)
            && is_candidate_name(x, run)),
    decreases s.len(),
{
    if s.len() == 0 {
    } else {
        lemma_keep_candidates_complete(s.skip(1), run);
        let rest = keep_candidates(s.skip(1), run);
        assert forall|x: Seq<u8>| #[trigger] keep_candidates(s, run).contains(x) <==> (s.contains(x)
            && is_candidate_name(x, run)) by {
            // membership in the tail carries over to membership in `s`
            assert(s.skip(1).contains(x) ==> s.contains(x)) by {
                if s.skip(1).contains(x) {
                    let i = choose|i: int| 0 <= i < s.skip(1).len() && s.skip(1)[i] == x;
                    assert(s[i + 1] == x);
                }
            }
            assert(s.contains(x) && x != s[0] ==> s.skip(1).contains(x)) by {
                if s.contains(x) && x != s[0] {
                    let i = choose|i: int| 0 <= i < s.len() && s[i] == x;
                    assert(s.skip(1)[i - 1] == x);
                }
            }
            if is_candidate_name(s[0], run) {
                let t = seq![s[0]] + rest;
                assert(keep_candidates(s, run) == t);
                assert(t.contains(x) <==> (x == s[0] || rest.contains(x))) by {
                    if t.contains(x) {
                        let i = choose|i: int| 0 <= i < t.len() && t[i] == x;
                        if i > 0 {
                            assert(rest[i - 1] == x);
                        }
                    }
                    if rest.contains(x) {
                        let i = choose|i: int| 0 <= i < rest.len() && rest[i] == x;
                        assert(t[i + 1] == x);
                    }
                    assert(t[0] == s[0]);
                }
                assert(s.contains(s[0]));
            } else {
                assert(keep_candidates(s, run) == rest);
            }
        }
    }
}

/// The candidate sequence holds exactly the listing's matching,
/// non-excluded names: none is lost and none is invented.
pub proof fn lemma_candidates_spec_complete(listing: Seq<Seq<u8>>, run: Seq<u8>)
    ensures
        forall|x: Seq<u8>| #[trigger] candidates_spec(listing, run).contains(x) <==> (
        listing.contains(x) && is_candidate_name(x, run)),
{
    broadcast use vstd::seq_lib::group_to_multiset_ensures;

    lemma_rank_permutes(listing);
    lemma_keep_candidates_complete(rank_spec(listing), run);
    assert forall|x: Seq<u8>| #[trigger]
        rank_spec(listing).contains(x) <==> listing.contains(x) by {
        assert(rank_spec(listing).contains(x) <==> rank_spec(listing).to_multiset().count(x) > 0);
        assert(listing.contains(x) <==> listing.to_multiset().count(x) > 0);
    }
}

/// An upper bound on the lengths of the names in a sequence.
spec fn max_len(s: Seq<Seq<u8>>) -> nat
    decreases s.len(),
{
    if s.len() == 0 {
        0
    } else if s[0].len() >= max_len(s.skip(1)) {
        s[0].len()
    } else {
        max_len(s.skip(1))
    }
}

proof fn lemma_max_len(s: Seq<Seq<u8>>, i: int)
    requires
        0 <= i < s.len(),
    ensures
        s[i].len() <= max_len(s),
    decreases s.len(),
{
    if i > 0 {
        lemma_max_len(s.skip(1), i - 1);
        assert(s.skip(1)[i - 1] == s[i]);
    }
}

/// `a/b`: join one path segment onto a directory path.  An empty base
/// yields the segment alone; otherwise a separator is inserted unless `a`
/// already ends with one.
pub open spec fn join_spec(a: Seq<u8>, b: Seq<u8>) -> Seq<u8> {
    if a.len() == 0 {
        b
    } else if a[a.len() - 1] == SLASH {
        a + b
    } else {
        a + seq![SLASH] + b
    }
}

/// Join one path segment onto a directory path.
pub fn join_path(a: &Vec<u8>, b: &Vec<u8>) -> (r: Vec<u8>)
    ensures
        r@ == join_spec(a@, b@),
{
    let mut out: Vec<u8> = Vec::new();
    let mut i: usize = 0;
    while i < a.len()
        invariant
            i <= a@.len(),
            out@ == a@.take(i as int),
        decreases a@.len() - i,
    {
        out.push(a[i]);
        i += 1;
    }
    proof {
        assert(a@.take(a@.len() as int) =~= a@);
    }
    if a.len() > 0 && a[a.len() - 1] != SLASH {
        out.push(SLASH);
    }
    let mut j: usize = 0;
    let ghost head = out@;
    while j < b.len()
        invariant
            j <= b@.len(),
            out@ == head + b@.take(j as int),
        decreases b@.len() - j,
    {
        out.push(b[j]);
        proof {
            assert(head + b@.take(j as int) + seq![b@[j as int]] =~= head + b@.take(j + 1));
        }
        j += 1;
    }
    proof {
        assert(head + b@.take(b@.len() as int) =~= head + b@);
        if a@.len() == 0 {
            assert(head =~= Seq::<u8>::empty());
            assert(Seq::<u8>::empty() + b@ =~= b@);
        } else if a@[a@.len() - 1] == SLASH {
            assert(head == a@);
        } else {
            assert(head =~= a@ + seq![SLASH]);
        }
    }
    out
}

/// One filesystem root under which dataset directories are searched.
/// Stateless beyond its root path; one is made per configured prefix.
#[derive(Debug, Clone, PartialEq, Eq)]
pub struct RepositoryPrefix {
    pub root: Vec<u8>,
}

impl RepositoryPrefix {
    pub fn new(root: Vec<u8>) -> (r: Self)
        ensures
            r.root@ == root@,
    {
        RepositoryPrefix { root }
    }

    /// The dataset subdirectory searched under this prefix: `root/dataset`.
    pub fn dataset_dir(&self, id: &Identifier) -> (r: Vec<u8>)
        ensures
            r@ == join_spec(self.root@, id.dataset@),
    {
        join_path(&self.root, &id.dataset)
    }

    /// The full path of one candidate file: `root/dataset/name`.
    pub fn candidate_path(&self, id: &Identifier, name: &Vec<u8>) -> (r: Vec<u8>)
        ensures
            r@ == join_spec(join_spec(self.root@, id.dataset@), name@),
    {
        let dir = join_path(&self.root, &id.dataset);
        join_path(&dir, name)
    }

    /// Enumerate the candidate files of this prefix's dataset directory.
    ///
    /// `listing` is the outcome of listing `root/dataset`: `None` when the
    /// directory could not be listed, `Some` the entry names.  An absent
    /// directory and an empty one alike are reported as
    /// `DirectoryUnavailable`, so the caller can tell a root that was
    /// unreachable from one that was searched and merely held no matching
    /// file.  For a directory with entries the result holds exactly the
    /// entries that start with the run name and do not carry the excluded
    /// extension, ranked longest name first — possibly none.
    pub fn candidates(&self, listing: Option<Vec<Vec<u8>>>, id: &Identifier) -> (r: Result<
        Vec<Vec<u8>>,
        ResolveError,
    >)
        ensures
            match listing {
                None => r == Err::<Vec<Vec<u8>>, ResolveError>(ResolveError::DirectoryUnavailable),
                Some(l) => {
                    if l@.len() == 0 {
                        r == Err::<Vec<Vec<u8>>, ResolveError>(ResolveError::DirectoryUnavailable)
                    } else {
                        r matches Ok(c) && views(c@) == candidates_spec(views(l@), id.run_name@)
                    }
                },
            },
    {
        match listing {
            None => Err(ResolveError::DirectoryUnavailable),
            Some(l) => {
                if l.len() == 0 {
                    return Err(ResolveError::DirectoryUnavailable);
                }
                let ranked = rank_by_length(l);
                Ok(filter_candidates(ranked, &id.run_name))
            },
        }
    }
}

} // verus!
