//! Ordering and deduplication of import lines.  The assembler's import
//! block is the contributed lines sorted lexicographically with adjacent
//! duplicates removed, so the block is the sorted, duplicate-free set of
//! all contributed lines, whatever order the subsystems came in.

use vstd::prelude::*;
use vstd::relations::{sorted_by, total_ordering};
use vstd::seq_lib::lemma_sorted_unique;
use crate::emit::line_views;

verus! {

/// Lexicographic order on character sequences, by code point; a proper
/// prefix comes first.
pub open spec fn lex_le(a: Seq<char>, b: Seq<char>) -> bool
    decreases a.len(),
{
    if a.len() == 0 {
        true
    } else if b.len() == 0 {
        false
    } else if a[0] != b[0] {
        (a[0] as int) < (b[0] as int)
    } else {
        lex_le(a.drop_first(), b.drop_first())
    }
}

/// The order as a value, for `sort_by` and `sorted_by`.
pub open spec fn lex_le_fn() -> spec_fn(Seq<char>, Seq<char>) -> bool {
    |a: Seq<char>, b: Seq<char>| lex_le(a, b)
}

pub proof fn lemma_lex_le_refl(a: Seq<char>)
    ensures
        lex_le(a, a),
    decreases a.len(),
{
    if a.len() > 0 {
        lemma_lex_le_refl(a.drop_first());
    }
}

pub proof fn lemma_lex_le_total(a: Seq<char>, b: Seq<char>)
    ensures
        lex_le(a, b) || lex_le(b, a),
    decreases a.len(),
{
    if a.len() > 0 && b.len() > 0 && a[0] == b[0] {
        lemma_lex_le_total(a.drop_first(), b.drop_first());
    }
}

pub proof fn lemma_lex_le_antisym(a: Seq<char>, b: Seq<char>)
    requires
        lex_le(a, b),
        lex_le(b, a),
    ensures
        a == b,
    decreases a.len(),
{
    if a.len() == 0 {
        assert(a =~= b);
    } else {
        lemma_lex_le_antisym(a.drop_first(), b.drop_first());
        assert(a =~= b) by {
            assert(a[0] == b[0]);
            assert forall|i: int| 0 <= i < a.len() implies a[i] == b[i] by {
                if i > 0 {
                    assert(a[i] == a.drop_first()[i - 1]);
                    assert(b[i] == b.drop_first()[i - 1]);
                }
            }
        }
    }
}

pub proof fn lemma_lex_le_trans(a: Seq<char>, b: Seq<char>, c: Seq<char>)
    requires
        lex_le(a, b),
        lex_le(b, c),
    ensures
        lex_le(a, c),
    decreases a.len(),
{
    if a.len() > 0 {
        if a[0] == b[0] && b[0] == c[0] {
            lemma_lex_le_trans(a.drop_first(), b.drop_first(), c.drop_first());
        }
    }
}

/// Lexicographic order is a total order on lines.
pub proof fn lemma_lex_le_total_ordering()
    ensures
        total_ordering(lex_le_fn()),
{
    let r = lex_le_fn();
    assert forall|x: Seq<char>| #[trigger] r(x, x) by {
        lemma_lex_le_refl(x);
    }
    assert forall|x: Seq<char>, y: Seq<char>| #[trigger] r(x, y) && #[trigger] r(y, x) implies x
        == y by {
        lemma_lex_le_antisym(x, y);
    }
    assert forall|x: Seq<char>, y: Seq<char>, z: Seq<char>|
        #[trigger] r(x, y) && #[trigger] r(y, z) implies r(x, z) by {
        lemma_lex_le_trans(x, y, z);
    }
    assert forall|x: Seq<char>, y: Seq<char>| #[trigger] r(x, y) || #[trigger] r(y, x) by {
        lemma_lex_le_total(x, y);
    }
}

/// The given lines with runs of equal adjacent lines collapsed to one.
pub open spec fn dedup_adjacent(s: Seq<Seq<char>>) -> Seq<Seq<char>>
    decreases s.len(),
{
    if s.len() == 0 {
        Seq::empty()
    } else if s.len() == 1 {
        s
    } else if s.last() == s[s.len() - 2] {
        dedup_adjacent(s.drop_last())
    } else {
        dedup_adjacent(s.drop_last()).push(s.last())
    }
}

/// The sorted, duplicate-free form of a collection of lines.
pub open spec fn unique_sorted(lines: Seq<Seq<char>>) -> Seq<Seq<char>> {
    dedup_adjacent(lines.sort_by(lex_le_fn()))
}

/// Collapsing adjacent duplicates keeps exactly the lines that were there.
pub proof fn lemma_dedup_adjacent_contains(s: Seq<Seq<char>>, x: Seq<char>)
    ensures
        dedup_adjacent(s).contains(x) <==> s.contains(x),
    decreases s.len(),
{
    if s.len() <= 1 {
    } else {
        lemma_dedup_adjacent_contains(s.drop_last(), x);
        if s.last() == s[s.len() - 2] {
            if s.contains(x) {
                let i = choose|i: int| 0 <= i < s.len() && s[i] == x;
                if i == s.len() - 1 {
                    assert(s.drop_last()[s.len() - 2] == x);
                } else {
                    assert(s.drop_last()[i] == x);
                }
                assert(s.drop_last().contains(x));
            }
            if s.drop_last().contains(x) {
                let i = choose|i: int| 0 <= i < s.len() - 1 && s.drop_last()[i] == x;
                assert(s[i] == x);
            }
        } else {
            let d = dedup_adjacent(s.drop_last());
            if s.contains(x) {
                let i = choose|i: int| 0 <= i < s.len() && s[i] == x;
                if i == s.len() - 1 {
                    assert(d.push(s.last()).last() == x);
                    assert(d.push(s.last()).contains(x));
                } else {
                    assert(s.drop_last()[i] == x);
                    assert(s.drop_last().contains(x));
                    let j = choose|j: int| 0 <= j < d.len() && d[j] == x;
                    assert(d.push(s.last())[j] == x);
                    assert(d.push(s.last()).contains(x));
                }
            }
            if d.push(s.last()).contains(x) {
                let i = choose|i: int| 0 <= i < d.len() + 1 && d.push(s.last())[i] == x;
                if i == d.len() {
                    assert(s.last() == x);
                    assert(s[s.len() - 1] == x);
                } else {
                    assert(d[i] == x);
                    let j = choose|j: int| 0 <= j < s.len() - 1 && s.drop_last()[j] == x;
                    assert(s[j] == x);
                }
                assert(s.contains(x));
            }
        }
    }
}

/// On sorted input, collapsing adjacent duplicates yields a sorted sequence
/// with no duplicates at all.
pub proof fn lemma_dedup_adjacent_sorted(s: Seq<Seq<char>>)
    requires
        sorted_by(s, lex_le_fn()),
    ensures
        sorted_by(dedup_adjacent(s), lex_le_fn()),
        dedup_adjacent(s).no_duplicates(),
    decreases s.len(),
{
    if s.len() <= 1 {
    } else {
        assert(sorted_by(s.drop_last(), lex_le_fn())) by {
            assert forall|i: int, j: int| 0 <= i < j < s.len() - 1 implies #[trigger] lex_le_fn()(
                s.drop_last()[i],
                s.drop_last()[j],
            ) by {
                assert(s.drop_last()[i] == s[i]);
                assert(s.drop_last()[j] == s[j]);
            }
        }
        lemma_dedup_adjacent_sorted(s.drop_last());
        if s.last() == s[s.len() - 2] {
        } else {
            let d = dedup_adjacent(s.drop_last());
            let x = s.last();
            assert forall|i: int| 0 <= i < d.len() implies lex_le(d[i], x) && d[i] != x by {
                lemma_dedup_adjacent_contains(s.drop_last(), d[i]);
                assert(s.drop_last().contains(d[i]));
                let k = choose|k: int| 0 <= k < s.len() - 1 && s.drop_last()[k] == d[i];
                assert(s[k] == d[i]);
                if k < s.len() - 2 {
                    assert(lex_le_fn()(s[k], s[s.len() - 2]));
                }
                assert(lex_le_fn()(s[s.len() - 2], s[s.len() - 1]));
                if k < s.len() - 2 {
                    lemma_lex_le_trans(s[k], s[s.len() - 2], x);
                } else {
                    assert(s[k] == s[s.len() - 2]);
                }
                if d[i] == x {
                    lemma_lex_le_antisym(s[s.len() - 2], x);
                }
            }
            assert(sorted_by(d.push(x), lex_le_fn())) by {
                assert forall|i: int, j: int| 0 <= i < j < d.len() + 1 implies #[trigger] lex_le_fn()(
                    d.push(x)[i],
                    d.push(x)[j],
                ) by {
                    if j < d.len() {
                        assert(d.push(x)[i] == d[i]);
                        assert(d.push(x)[j] == d[j]);
                    } else {
                        assert(d.push(x)[i] == d[i]);
                        assert(d.push(x)[j] == x);
                    }
                }
            }
            assert(d.push(x).no_duplicates()) by {
                assert forall|i: int, j: int|
                    0 <= i < d.len() + 1 && 0 <= j < d.len() + 1 && i != j implies d.push(x)[i]
                    != d.push(x)[j] by {
                    if i < d.len() && j < d.len() {
                        assert(d.push(x)[i] == d[i]);
                        assert(d.push(x)[j] == d[j]);
                    } else if i < d.len() {
                        assert(d.push(x)[i] == d[i]);
                        assert(d.push(x)[j] == x);
                    } else {
                        assert(d.push(x)[i] == x);
                        assert(d.push(x)[j] == d[j]);
                    }
                }
            }
        }
    }
}

/// The sorted, duplicate-free form depends only on which lines occur, with
/// their multiplicities, not on the order they came in.
pub proof fn lemma_unique_sorted_permutation(l1: Seq<Seq<char>>, l2: Seq<Seq<char>>)
    requires
        l1.to_multiset() == l2.to_multiset(),
    ensures
        unique_sorted(l1) == unique_sorted(l2),
{
    lemma_lex_le_total_ordering();
    l1.lemma_sort_by_ensures(lex_le_fn());
    l2.lemma_sort_by_ensures(lex_le_fn());
    lemma_sorted_unique(l1.sort_by(lex_le_fn()), l2.sort_by(lex_le_fn()), lex_le_fn());
}

/// The sorted, duplicate-free form is sorted, has no duplicates, and holds
/// exactly the lines of the input.
pub proof fn lemma_unique_sorted_props(l: Seq<Seq<char>>)
    ensures
        sorted_by(unique_sorted(l), lex_le_fn()),
        unique_sorted(l).no_duplicates(),
        forall|x: Seq<char>| unique_sorted(l).contains(x) <==> l.contains(x),
{
    broadcast use vstd::seq_lib::group_to_multiset_ensures;

    lemma_lex_le_total_ordering();
    l.lemma_sort_by_ensures(lex_le_fn());
    let srt = l.sort_by(lex_le_fn());
    lemma_dedup_adjacent_sorted(srt);
    assert forall|x: Seq<char>| unique_sorted(l).contains(x) <==> l.contains(x) by {
        lemma_dedup_adjacent_contains(srt, x);
        assert(srt.contains(x) <==> srt.to_multiset().count(x) > 0);
        assert(l.contains(x) <==> l.to_multiset().count(x) > 0);
    }
}

/// Whether `a` comes at or before `b` in the lexicographic line order.
pub fn lex_le_str(a: &str, b: &str) -> (r: bool)
    ensures
        r == lex_le(a@, b@),
{
    let na = a.unicode_len();
    let nb = b.unicode_len();
    proof {
        assert(a@.skip(0) =~= a@);
        assert(b@.skip(0) =~= b@);
    }
    let mut i: usize = 0;
    loop
        invariant
            i <= na,
            i <= nb,
            na == a@.len(),
            nb == b@.len(),
            lex_le(a@, b@) == lex_le(a@.skip(i as int), b@.skip(i as int)),
        decreases na - i,
    {
        if i == na {
            return true;
        }
        if i == nb {
            return false;
        }
        let ca = a.get_char(i);
        let cb = b.get_char(i);
        proof {
            assert(a@.skip(i as int)[0] == a@[i as int]);
            assert(b@.skip(i as int)[0] == b@[i as int]);
        }
        if ca != cb {
            return (ca as u32) < (cb as u32);
        }
        proof {
            assert(a@.skip(i as int).drop_first() =~= a@.skip(i as int + 1));
            assert(b@.skip(i as int).drop_first() =~= b@.skip(i as int + 1));
        }
        i = i + 1;
    }
}

/// After inserting `x` between the elements at or before `j` (all at or
/// below it) and those after (all at or above it), the lines stay sorted.
proof fn lemma_sorted_insert(s: Seq<Seq<char>>, j: int, x: Seq<char>)
    requires
        sorted_by(s, lex_le_fn()),
        0 <= j <= s.len(),
        forall|k: int| 0 <= k < j ==> lex_le(#[trigger] s[k], x),
        j < s.len() ==> lex_le(x, s[j]),
    ensures
        sorted_by(s.insert(j, x), lex_le_fn()),
{
    let t = s.insert(j, x);
    assert forall|p: int, q: int| 0 <= p < q < t.len() implies #[trigger] lex_le_fn()(
        t[p],
        t[q],
    ) by {
        if p < j && q < j {
            assert(t[p] == s[p] && t[q] == s[q]);
        } else if p < j && q == j {
            assert(t[p] == s[p] && t[q] == x);
        } else if p < j && q > j {
            assert(t[p] == s[p] && t[q] == s[q - 1]);
            if q - 1 == j {
                if j < s.len() {
                    lemma_lex_le_trans(s[p], x, s[j]);
                }
                assert(q - 1 >= j);
                if q - 1 > j {
                    assert(lex_le_fn()(s[p], s[q - 1]));
                }
            }
        } else if p == j {
            assert(t[p] == x && t[q] == s[q - 1]);
            if q - 1 == j {
                assert(lex_le(x, s[j]));
            } else {
                assert(lex_le_fn()(s[j], s[q - 1]));
                lemma_lex_le_trans(x, s[j], s[q - 1]);
            }
        } else {
            assert(t[p] == s[p - 1] && t[q] == s[q - 1]);
        }
    }
}

/// The given lines sorted in the lexicographic order.
pub fn sort_lines(lines: Vec<String>) -> (r: Vec<String>)
    ensures
        line_views(r@) == line_views(lines@).sort_by(lex_le_fn()),
{
    let mut out: Vec<String> = Vec::new();
    proof {
        assert(line_views(lines@).take(0) =~= Seq::<Seq<char>>::empty());
        assert(line_views(out@) =~= Seq::<Seq<char>>::empty());
        assert(Seq::<Seq<char>>::empty().to_multiset() =~= line_views(out@).to_multiset());
    }
    let mut i: usize = 0;
    while i < lines.len()
        invariant
            i <= lines.len(),
            sorted_by(line_views(out@), lex_le_fn()),
            line_views(out@).to_multiset() == line_views(lines@).take(i as int).to_multiset(),
        decreases lines.len() - i,
    {
        let x = lines[i].clone();
        let mut j: usize = 0;
        while j < out.len() && !lex_le_str(x.as_str(), out[j].as_str())
            invariant
                j <= out.len(),
                i < lines@.len(),
                x == lines@[i as int],
                forall|k: int| 0 <= k < j ==> !lex_le(x@, #[trigger] line_views(out@)[k]),
            decreases out.len() - j,
        {
            j = j + 1;
        }
        let ghost prev = out@;
        out.insert(j, x);
        proof {
            assert forall|k: int| 0 <= k < j implies lex_le(
                #[trigger] line_views(prev)[k],
                lines@[i as int]@,
            ) by {
                lemma_lex_le_total(lines@[i as int]@, line_views(prev)[k]);
            }
            lemma_sorted_insert(line_views(prev), j as int, lines@[i as int]@);
            assert(line_views(out@) =~= line_views(prev).insert(j as int, lines@[i as int]@));
            assert(line_views(lines@).take(i as int + 1) =~= line_views(lines@).take(
                i as int,
            ).push(lines@[i as int]@));
            vstd::seq_lib::to_multiset_insert(line_views(prev), j as int, lines@[i as int]@);
            vstd::seq_lib::to_multiset_build(
                line_views(lines@).take(i as int),
                lines@[i as int]@,
            );
            assert(line_views(out@).to_multiset() == line_views(prev).insert(
                j as int,
                lines@[i as int]@,
            ).to_multiset());
            assert(line_views(lines@).take(i as int + 1).to_multiset() == line_views(
                lines@,
            ).take(i as int).push(lines@[i as int]@).to_multiset());
        }
        i = i + 1;
    }
    proof {
        assert(line_views(lines@).take(lines@.len() as int) =~= line_views(lines@));
        lemma_lex_le_total_ordering();
        line_views(lines@).lemma_sort_by_ensures(lex_le_fn());
        lemma_sorted_unique(
            line_views(out@),
            line_views(lines@).sort_by(lex_le_fn()),
            lex_le_fn(),
        );
    }
    out
}

/// The given lines with runs of equal adjacent lines collapsed to one.
pub fn dedup_lines(lines: Vec<String>) -> (r: Vec<String>)
    ensures
        line_views(r@) == dedup_adjacent(line_views(lines@)),
{
    let mut out: Vec<String> = Vec::new();
    proof {
        assert(line_views(lines@).take(0) =~= Seq::<Seq<char>>::empty());
        assert(line_views(out@) =~= dedup_adjacent(line_views(lines@).take(0)));
    }
    let mut i: usize = 0;
    while i < lines.len()
        invariant
            i <= lines.len(),
            line_views(out@) == dedup_adjacent(line_views(lines@).take(i as int)),
        decreases lines.len() - i,
    {
        let keep = if i == 0 {
            true
        } else {
            !lines[i].eq(&lines[i - 1])
        };
        let ghost prev = out@;
        if keep {
            out.push(lines[i].clone());
        }
        proof {
            let lv = line_views(lines@);
            let t = lv.take(i as int + 1);
            assert(t.drop_last() =~= lv.take(i as int));
            assert(t.last() == lv[i as int]);
            if i == 0 {
                assert(t =~= seq![lv[0]]);
                assert(dedup_adjacent(t) == t);
                assert(line_views(out@) =~= t);
            } else {
                assert(t[t.len() - 2] == lv[i as int - 1]);
                if !keep {
                    assert(lv[i as int] == lv[i as int - 1]);
                    assert(dedup_adjacent(t) == dedup_adjacent(lv.take(i as int)));
                } else {
                    assert(lv[i as int] != lv[i as int - 1]);
                    assert(dedup_adjacent(t) == dedup_adjacent(lv.take(i as int)).push(
                        lv[i as int],
                    ));
                    assert(line_views(out@) =~= line_views(prev).push(lv[i as int]));
                }
            }
        }
        i = i + 1;
    }
    proof {
        assert(line_views(lines@).take(lines@.len() as int) =~= line_views(lines@));
    }
    out
}

/// The sorted, duplicate-free form of the given lines.
pub fn unique_sorted_lines(lines: Vec<String>) -> (r: Vec<String>)
    ensures
        line_views(r@) == unique_sorted(line_views(lines@)),
{
    let sorted = sort_lines(lines);
    dedup_lines(sorted)
}

} // verus!
