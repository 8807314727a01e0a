use vstd::prelude::*;

verus! {

use vstd::string::StringSliceAdditionalSpecFns;

/// The positions of every newline byte in `s`, in ascending order.
pub open spec fn newline_positions(s: Seq<u8>) -> Seq<int>
    decreases s.len(),
{
    if s.len() == 0 {
        Seq::empty()
    } else if s.last() == 10u8 {
        newline_positions(s.drop_last()).push(s.len() - 1)
    } else {
        newline_positions(s.drop_last())
    }
}

/// Every element of `ps` moved right by `d`.
pub open spec fn shift_positions(ps: Seq<int>, d: int) -> Seq<int> {
    ps.map_values(|p: int| p + d)
}

/// `ps` is strictly increasing.
pub open spec fn ascending(ps: Seq<int>) -> bool {
    forall|i: int, j: int| 0 <= i < j < ps.len() ==> ps[i] < ps[j]
}

/// The newline positions of a byte sequence are ascending, lie inside the
/// sequence, point at newline bytes, and miss none.
pub proof fn lemma_newline_positions_props(s: Seq<u8>)
    ensures
        ascending(newline_positions(s)),
        forall|k: int| 0 <= k < newline_positions(s).len() ==> 0 <= #[trigger] newline_positions(
            s,
        )[k] < s.len() && s[newline_positions(s)[k]] == 10u8,
        forall|p: int| 0 <= p < s.len() && s[p] == 10u8 ==> newline_positions(s).contains(p),
    decreases s.len(),
{
    if s.len() > 0 {
        lemma_newline_positions_props(s.drop_last());
        let d = s.drop_last();
        let nl = newline_positions(s);
        let nld = newline_positions(d);
        assert(forall|p: int| 0 <= p < d.len() ==> d[p] == s[p]);
        assert forall|p: int|
            0 <= p < s.len() && s[p] == 10u8 implies newline_positions(s).contains(p) by {
            if p == s.len() - 1 {
                assert(s.last() == 10u8);
                assert(nl[nl.len() - 1] == p);
            } else {
                assert(d[p] == 10u8);
                let k = choose|k: int| 0 <= k < nld.len() && nld[k] == p;
                assert(nl[k] == p);
            }
        }
    }
}

/// Newline positions of a concatenation: those of the left part, then those
/// of the right part shifted by the left part's length.
pub proof fn lemma_newline_positions_concat(a: Seq<u8>, b: Seq<u8>)
    ensures
        newline_positions(a + b) == newline_positions(a) + shift_positions(
            newline_positions(b),
            a.len() as int,
        ),
    decreases b.len(),
{
    if b.len() == 0 {
        assert(a + b =~= a);
        assert(newline_positions(a) + shift_positions(newline_positions(b), a.len() as int)
            =~= newline_positions(a));
    } else {
        lemma_newline_positions_concat(a, b.drop_last());
        assert((a + b).drop_last() =~= a + b.drop_last());
        assert((a + b).last() == b.last());
        if b.last() == 10u8 {
            assert(newline_positions(a + b) =~= newline_positions(a) + shift_positions(
                newline_positions(b),
                a.len() as int,
            ));
        } else {
            assert(newline_positions(a + b) =~= newline_positions(a) + shift_positions(
                newline_positions(b),
                a.len() as int,
            ));
        }
    }
}

/// Deleting a line `i` — removing exactly the byte range
/// `[rowBounds(i).start, rowBounds(i).end)` — keeps every earlier newline in
/// place and moves every newline from row `i` on left by the removed row's
/// width, so every subsequent row's bounds shift accordingly while row `i`
/// itself becomes empty.
pub proof fn lemma_remove_row_shifts_bounds(c: Seq<u8>, i: int)
    requires
        0 <= i < newline_positions(c).len(),
    ensures
        ({
            let nl = newline_positions(c);
            let s = row_bounds_start(nl, i);
            let e = row_bounds_end(nl, i);
            let c2 = c.subrange(0, s) + c.subrange(e, c.len() as int);
            let nl2 = newline_positions(c2);
            &&& nl2 == nl.subrange(0, i) + shift_positions(
                nl.subrange(i, nl.len() as int),
                -(e - s),
            )
            &&& nl2.len() == nl.len()
            &&& forall|j: int|
                i < j < nl.len() ==> row_bounds_start(nl2, j) == row_bounds_start(nl, j) - (e - s)
                    && row_bounds_end(nl2, j) == row_bounds_end(nl, j) - (e - s)
        }),
{
    lemma_newline_positions_props(c);
    let nl = newline_positions(c);
    let n = nl.len() as int;
    let s = row_bounds_start(nl, i);
    let e = row_bounds_end(nl, i);
    assert(e == nl[i]);
    assert(0 <= s <= e < c.len());
    let a = c.subrange(0, s);
    let b = c.subrange(s, e);
    let t = c.subrange(e, c.len() as int);
    let rest = c.subrange(s, c.len() as int);
    assert(c =~= a + rest);
    assert(rest =~= b + t);
    lemma_newline_positions_concat(a, rest);
    lemma_newline_positions_concat(b, t);
    lemma_newline_positions_props(a);
    lemma_newline_positions_props(b);
    lemma_newline_positions_props(t);
    let nla = newline_positions(a);
    let nlb = newline_positions(b);
    let nlt = newline_positions(t);
    assert(nl == nla + shift_positions(newline_positions(rest), s));
    assert(newline_positions(rest) == nlb + shift_positions(nlt, e - s));
    // row i's own bytes hold no newline
    if nlb.len() > 0 {
        assert(nl[nla.len() as int] == shift_positions(newline_positions(rest), s)[0] == nlb[0]
            + s);
        assert(0 <= nlb[0] < b.len());
        // the first newline inside the removed row would sit strictly between
        // the row's bounds, yet every index position at or after `i` is >= e
        assert(forall|k: int| 0 <= k < nla.len() ==> #[trigger] nla[k] < s);
        if nla.len() > i {
            assert(nla[i] == nl[i]);
            assert(nl[i] < s);
            assert(false);
        }
        if nla.len() < i {
            assert(nl[i - 1] == shift_positions(newline_positions(rest), s)[i - 1
                - nla.len()]);
            assert(nl[i - 1] >= s);
            assert(i > 0 && s == nl[i - 1] + 1);
            assert(false);
        }
        assert(nla.len() == i);
        assert(nl[i] == nlb[0] + s);
        assert(nlb[0] + s < e);
        assert(false);
    }
    assert(nlb =~= Seq::<int>::empty());
    // the prefix of the index belongs to `a`
    assert(forall|k: int| 0 <= k < nla.len() ==> #[trigger] nla[k] < s);
    if nla.len() > i {
        assert(nla[i] == nl[i]);
        assert(false);
    }
    if nla.len() < i {
        assert(nl[i - 1] == shift_positions(newline_positions(rest), s)[i - 1 - nla.len()]);
        assert(newline_positions(rest)[i - 1 - nla.len()] >= 0);
        assert(nl[i - 1] >= s);
        assert(i > 0 && s == nl[i - 1] + 1);
        assert(false);
    }
    assert(nla.len() == i);
    assert(nla =~= nl.subrange(0, i));
    // the tail of the index belongs to `t`, shifted by `e`
    assert(newline_positions(rest) =~= shift_positions(nlt, e - s));
    assert(nl =~= nla + shift_positions(shift_positions(nlt, e - s), s));
    assert(shift_positions(shift_positions(nlt, e - s), s) =~= shift_positions(nlt, e));
    assert(nlt =~= shift_positions(nl.subrange(i, n), -e));
    let c2 = a + t;
    lemma_newline_positions_concat(a, t);
    assert(newline_positions(c2) == nla + shift_positions(nlt, s));
    assert(shift_positions(nlt, s) =~= shift_positions(nl.subrange(i, n), -(e - s)));
    let nl2 = newline_positions(c2);
    assert(nl2 =~= nl.subrange(0, i) + shift_positions(nl.subrange(i, n), -(e - s)));
    assert forall|j: int|
        i < j < n implies row_bounds_start(nl2, j) == row_bounds_start(nl, j) - (e - s)
        && row_bounds_end(nl2, j) == row_bounds_end(nl, j) - (e - s) by {
        assert(nl2[j] == nl[j] - (e - s));
        assert(nl2[j - 1] == if j - 1 < i {
            nl[j - 1]
        } else {
            nl[j - 1] - (e - s)
        });
        if j - 1 < i {
            assert(j == i);
        }
    }
}

/// `nl` is a valid line index for content of length `len`: ascending
/// positions, all inside the content.
pub open spec fn positions_wf(nl: Seq<int>, len: int) -> bool {
    &&& ascending(nl)
    &&& forall|k: int| 0 <= k < nl.len() ==> 0 <= #[trigger] nl[k] < len
}

/// First byte offset of row `y`; rows at or past the end of the index have
/// the empty bounds `(0, 0)`.
pub open spec fn row_bounds_start(nl: Seq<int>, y: int) -> int {
    if y < 0 || y >= nl.len() {
        0
    } else if y == 0 {
        0
    } else {
        nl[y - 1] + 1
    }
}

/// One past the last byte offset of row `y` (the position of its newline);
/// rows at or past the end of the index have the empty bounds `(0, 0)`.
pub open spec fn row_bounds_end(nl: Seq<int>, y: int) -> int {
    if y < 0 || y >= nl.len() {
        0
    } else {
        nl[y]
    }
}

/// Number of content bytes in row `y`, newline excluded.
pub open spec fn row_len(nl: Seq<int>, y: int) -> int {
    row_bounds_end(nl, y) - row_bounds_start(nl, y)
}

/// Absolute byte offset where row `y` begins, counting also the unterminated
/// row that follows the final newline.
pub open spec fn row_start_abs(nl: Seq<int>, y: int) -> int {
    if y <= 0 || nl.len() == 0 {
        0
    } else if y <= nl.len() {
        nl[y - 1] + 1
    } else {
        nl[nl.len() - 1] + 1
    }
}

/// The editor's line deletion removes the span `[line_starts[y-1],
/// line_starts[y])` — the newline that introduced row `y` plus the row's
/// bytes.  Afterwards every row before `y` keeps its exact bounds, row `y`
/// is gone, and every row after `y` reappears one row up with both bounds
/// shifted down by exactly the deleted span's width.
pub proof fn lemma_delete_line_span_shifts_bounds(c: Seq<u8>, y: int)
    requires
        1 <= y < newline_positions(c).len(),
    ensures
        ({
            let nl = newline_positions(c);
            let n = nl.len() as int;
            let pre = nl[y - 1];
            let end = nl[y];
            let w = end - pre;
            let c2 = c.subrange(0, pre) + c.subrange(end, c.len() as int);
            let nl2 = newline_positions(c2);
            &&& nl2 == nl.subrange(0, y - 1) + shift_positions(nl.subrange(y, n), -w)
            &&& nl2.len() == nl.len() - 1
            &&& forall|j: int|
                0 <= j < y ==> row_bounds_start(nl2, j) == row_bounds_start(nl, j)
                    && row_bounds_end(nl2, j) == row_bounds_end(nl, j)
            &&& forall|j: int|
                y < j < n ==> row_bounds_start(nl2, j - 1) == row_bounds_start(nl, j) - w
                    && row_bounds_end(nl2, j - 1) == row_bounds_end(nl, j) - w
        }),
{
    lemma_newline_positions_props(c);
    let nl = newline_positions(c);
    let n = nl.len() as int;
    let pre = nl[y - 1];
    let end = nl[y];
    let w = end - pre;
    assert(pre < end);
    let a = c.subrange(0, pre);
    let t = c.subrange(end, c.len() as int);
    let c2 = a + t;
    // split once at the span's left edge and once at its right edge
    lemma_index_split_at(c, y - 1, pre);
    lemma_index_split_at(c, y, end);
    assert(newline_positions(a) == nl.subrange(0, y - 1));
    assert(shift_positions(newline_positions(t), end) == nl.subrange(y, n));
    lemma_newline_positions_concat(a, t);
    let nl2 = newline_positions(c2);
    assert forall|k: int|
        0 <= k < n - y implies #[trigger] shift_positions(newline_positions(t), pre)[k]
        == shift_positions(nl.subrange(y, n), -w)[k] by {
        assert(shift_positions(newline_positions(t), end)[k] == nl.subrange(y, n)[k]);
    }
    assert(shift_positions(newline_positions(t), pre) =~= shift_positions(
        nl.subrange(y, n),
        -w,
    ));
    assert(nl2 =~= nl.subrange(0, y - 1) + shift_positions(nl.subrange(y, n), -w));
    assert forall|j: int|
        0 <= j < y implies row_bounds_start(nl2, j) == row_bounds_start(nl, j)
        && row_bounds_end(nl2, j) == row_bounds_end(nl, j) by {
        if j < y - 1 {
            assert(nl2[j] == nl[j]);
        } else {
            // the row just above the deleted span keeps its newline: the
            // first shifted entry lands exactly on it
            assert(nl2[y - 1] == nl[y] - w);
        }
        if j > 0 {
            assert(nl2[j - 1] == nl[j - 1]);
        }
    }
    assert forall|j: int|
        y < j < n implies row_bounds_start(nl2, j - 1) == row_bounds_start(nl, j) - w
        && row_bounds_end(nl2, j - 1) == row_bounds_end(nl, j) - w by {
        assert(nl2[j - 1] == nl[j] - w);
        assert(nl2[j - 2] == if j - 2 < y - 1 {
            nl[j - 2]
        } else {
            nl[j - 1] - w
        });
        if j - 2 < y - 1 {
            assert(j == y + 1);
            assert(nl2[j - 2] == nl[y - 1]);
            assert(nl[j - 1] - w == nl[y] - w == nl[y - 1]);
        }
    }
}

/// In an ascending sequence of non-negative integers every element is at
/// least its index.
pub proof fn lemma_ascending_ge_index(nl: Seq<int>, k: int)
    requires
        ascending(nl),
        forall|j: int| 0 <= j < nl.len() ==> #[trigger] nl[j] >= 0,
        0 <= k < nl.len(),
    ensures
        nl[k] >= k,
    decreases k,
{
    if k > 0 {
        lemma_ascending_ge_index(nl, k - 1);
        assert(nl[k - 1] < nl[k]);
    }
}

/// A valid line index for content of length `len` holds at most `len`
/// entries.
pub proof fn lemma_position_count(nl: Seq<int>, len: int)
    requires
        positions_wf(nl, len),
        0 <= len,
    ensures
        nl.len() <= len,
{
    if nl.len() > 0 {
        lemma_ascending_ge_index(nl, nl.len() - 1);
        assert(nl[nl.len() - 1] < len);
    }
}

/// Row `y`'s exclusive end as an absolute offset: its newline's position, or
/// the content length for the unterminated final row.
pub open spec fn row_end_abs(nl: Seq<int>, content_len: int, y: int) -> int {
    if 0 <= y < nl.len() {
        nl[y]
    } else {
        content_len
    }
}

/// Splitting the content at an offset inside row `y` splits the line index
/// after exactly `y` entries.
pub proof fn lemma_index_split_at(c: Seq<u8>, y: int, ind: int)
    requires
        0 <= y <= newline_positions(c).len(),
        row_start_abs(newline_positions(c), y) <= ind,
        ind <= row_end_abs(newline_positions(c), c.len() as int, y),
    ensures
        newline_positions(c.subrange(0, ind)) == newline_positions(c).subrange(0, y),
        shift_positions(newline_positions(c.subrange(ind, c.len() as int)), ind)
            == newline_positions(c).subrange(y, newline_positions(c).len() as int),
{
    lemma_newline_positions_props(c);
    let nl = newline_positions(c);
    let n = nl.len() as int;
    let a = c.subrange(0, ind);
    let b = c.subrange(ind, c.len() as int);
    assert(c =~= a + b);
    lemma_newline_positions_concat(a, b);
    lemma_newline_positions_props(a);
    lemma_newline_positions_props(b);
    let nla = newline_positions(a);
    let nlb = newline_positions(b);
    assert(nl == nla + shift_positions(nlb, ind));
    assert(forall|k: int| 0 <= k < nla.len() ==> #[trigger] nla[k] < ind);
    if nla.len() > y {
        assert(nla[y] == nl[y]);
        assert(y < n);
        assert(nl[y] == row_end_abs(nl, c.len() as int, y));
        assert(false);
    }
    if nla.len() < y {
        assert(y >= 1);
        assert(nl[y - 1] < row_start_abs(nl, y));
        assert(nl[y - 1] == shift_positions(nlb, ind)[y - 1 - nla.len()]);
        assert(nlb[y - 1 - nla.len()] >= 0);
        assert(nl[y - 1] >= ind);
        assert(false);
    }
    assert(nla.len() == y);
    assert(nla =~= nl.subrange(0, y));
    assert(shift_positions(nlb, ind) =~= nl.subrange(y, n));
}

/// Inserting a byte at an offset inside row `y` leaves the index entries of
/// earlier rows in place and shifts later ones right; an inserted newline
/// byte becomes index entry `y`.
pub proof fn lemma_insert_index(c: Seq<u8>, y: int, ind: int, ch: u8)
    requires
        0 <= y <= newline_positions(c).len(),
        row_start_abs(newline_positions(c), y) <= ind,
        ind <= row_end_abs(newline_positions(c), c.len() as int, y),
    ensures
        ({
            let nl = newline_positions(c);
            let nl2 = newline_positions(c.insert(ind, ch));
            if ch == 10u8 {
                nl2 == nl.subrange(0, y) + seq![ind] + shift_positions(
                    nl.subrange(y, nl.len() as int),
                    1,
                )
            } else {
                nl2 == nl.subrange(0, y) + shift_positions(nl.subrange(y, nl.len() as int), 1)
            }
        }),
{
    lemma_newline_positions_props(c);
    lemma_index_split_at(c, y, ind);
    let nl = newline_positions(c);
    let n = nl.len() as int;
    assert(0 <= ind <= c.len());
    let a = c.subrange(0, ind);
    let b = c.subrange(ind, c.len() as int);
    let one = seq![ch];
    assert(c.insert(ind, ch) =~= a + (one + b));
    lemma_newline_positions_concat(a, one + b);
    lemma_newline_positions_concat(one, b);
    assert(one.drop_last() =~= Seq::<u8>::empty());
    assert(newline_positions(Seq::<u8>::empty()) =~= Seq::<int>::empty());
    if ch == 10u8 {
        assert(newline_positions(one) =~= seq![0int]);
    } else {
        assert(newline_positions(one) =~= Seq::<int>::empty());
    }
    let nlb = newline_positions(b);
    assert(shift_positions(nlb, ind) == nl.subrange(y, n));
    assert(shift_positions(shift_positions(nlb, 1), ind) =~= shift_positions(
        shift_positions(nlb, ind),
        1,
    ));
    assert(newline_positions(c.insert(ind, ch)) == newline_positions(a) + shift_positions(
        newline_positions(one + b),
        ind,
    ));
    assert(newline_positions(a) == nl.subrange(0, y));
    if ch == 10u8 {
        assert(newline_positions(one + b) =~= seq![0int] + shift_positions(nlb, 1));
        assert forall|k: int|
            0 <= k < newline_positions(one + b).len() implies #[trigger] shift_positions(
            newline_positions(one + b),
            ind,
        )[k] == (seq![ind] + shift_positions(nl.subrange(y, n), 1))[k] by {
            if k > 0 {
                assert(newline_positions(one + b)[k] == shift_positions(nlb, 1)[k - 1]);
                assert(shift_positions(nlb, ind)[k - 1] == nl.subrange(y, n)[k - 1]);
            }
        }
        assert(shift_positions(newline_positions(one + b), ind) =~= seq![ind] + shift_positions(
            nl.subrange(y, n),
            1,
        ));
        assert(newline_positions(c.insert(ind, ch)) =~= nl.subrange(0, y) + seq![ind]
            + shift_positions(nl.subrange(y, n), 1));
    } else {
        assert(newline_positions(one + b) =~= shift_positions(nlb, 1));
        assert forall|k: int|
            0 <= k < newline_positions(one + b).len() implies #[trigger] shift_positions(
            newline_positions(one + b),
            ind,
        )[k] == shift_positions(nl.subrange(y, n), 1)[k] by {
            assert(newline_positions(one + b)[k] == nlb[k] + 1);
            assert(shift_positions(nlb, ind)[k] == nl.subrange(y, n)[k]);
        }
        assert(shift_positions(newline_positions(one + b), ind) =~= shift_positions(
            nl.subrange(y, n),
            1,
        ));
        assert(newline_positions(c.insert(ind, ch)) =~= nl.subrange(0, y) + shift_positions(
            nl.subrange(y, n),
            1,
        ));
    }
}

/// Removing a byte strictly inside row `y` removes no newline: later index
/// entries shift left by one and the row count is kept.
pub proof fn lemma_remove_index(c: Seq<u8>, y: int, ind: int)
    requires
        0 <= y <= newline_positions(c).len(),
        row_start_abs(newline_positions(c), y) <= ind,
        ind < row_end_abs(newline_positions(c), c.len() as int, y),
    ensures
        c[ind] != 10u8,
        newline_positions(c.remove(ind)) == newline_positions(c).subrange(0, y)
            + shift_positions(
            newline_positions(c).subrange(y, newline_positions(c).len() as int),
            -1,
        ),
{
    lemma_newline_positions_props(c);
    let nl = newline_positions(c);
    let n = nl.len() as int;
    if c[ind] == 10u8 {
        assert(nl.contains(ind));
        let k = choose|k: int| 0 <= k < n && nl[k] == ind;
        if k < y {
            assert(nl[k] <= nl[y - 1]);
            assert(nl[y - 1] < row_start_abs(nl, y));
            assert(false);
        } else {
            assert(y < n);
            assert(nl[y] <= nl[k]);
            assert(false);
        }
    }
    lemma_index_split_at(c, y, ind);
    let a = c.subrange(0, ind);
    let b = c.subrange(ind, c.len() as int);
    let rest = c.subrange(ind + 1, c.len() as int);
    assert(b =~= seq![c[ind]] + rest);
    lemma_newline_positions_concat(seq![c[ind]], rest);
    assert(seq![c[ind]].drop_last() =~= Seq::<u8>::empty());
    assert(newline_positions(Seq::<u8>::empty()) =~= Seq::<int>::empty());
    assert(newline_positions(seq![c[ind]]) =~= Seq::<int>::empty());
    let nlb = newline_positions(b);
    assert(nlb =~= shift_positions(newline_positions(rest), 1));
    assert(c.remove(ind) =~= a + rest);
    lemma_newline_positions_concat(a, rest);
    assert(shift_positions(nlb, ind) == nl.subrange(y, n));
    assert(shift_positions(newline_positions(rest), ind) =~= shift_positions(
        nl.subrange(y, n),
        -1,
    ));
    assert(newline_positions(c.remove(ind)) =~= nl.subrange(0, y) + shift_positions(
        nl.subrange(y, n),
        -1,
    ));
}

/// Removing the newline that ends row `y - 1` merges rows `y - 1` and `y`:
/// index entry `y - 1` disappears and later entries shift left by one.
pub proof fn lemma_remove_newline_index(c: Seq<u8>, y: int)
    requires
        1 <= y <= newline_positions(c).len(),
    ensures
        ({
            let nl = newline_positions(c);
            newline_positions(c.remove(nl[y - 1])) == nl.subrange(0, y - 1) + shift_positions(
                nl.subrange(y, nl.len() as int),
                -1,
            )
        }),
{
    lemma_newline_positions_props(c);
    let nl = newline_positions(c);
    let n = nl.len() as int;
    let r = nl[y - 1];
    assert(row_start_abs(nl, y - 1) <= r);
    assert(r == row_end_abs(nl, c.len() as int, y - 1));
    lemma_index_split_at(c, y - 1, r);
    let a = c.subrange(0, r);
    let b = c.subrange(r, c.len() as int);
    let rest = c.subrange(r + 1, c.len() as int);
    assert(b =~= seq![c[r]] + rest);
    assert(c[r] == 10u8);
    lemma_newline_positions_concat(seq![c[r]], rest);
    assert(seq![c[r]].drop_last() =~= Seq::<u8>::empty());
    assert(newline_positions(Seq::<u8>::empty()) =~= Seq::<int>::empty());
    assert(newline_positions(seq![c[r]]) =~= seq![0int]);
    let nlb = newline_positions(b);
    assert(nlb =~= seq![0int] + shift_positions(newline_positions(rest), 1));
    assert(shift_positions(nlb, r) == nl.subrange(y - 1, n));
    assert(shift_positions(nlb, r) =~= seq![r] + shift_positions(
        newline_positions(rest),
        r + 1,
    ));
    assert forall|k: int|
        0 <= k < n - y implies #[trigger] shift_positions(newline_positions(rest), r + 1)[k]
        == nl.subrange(y, n)[k] by {
        assert(shift_positions(nlb, r)[k + 1] == nl.subrange(y - 1, n)[k + 1]);
        assert((seq![r] + shift_positions(newline_positions(rest), r + 1))[k + 1]
            == shift_positions(newline_positions(rest), r + 1)[k]);
    }
    assert(shift_positions(newline_positions(rest), r + 1) =~= nl.subrange(y, n));
    assert(shift_positions(newline_positions(rest), r) =~= shift_positions(
        nl.subrange(y, n),
        -1,
    ));
    assert(c.remove(r) =~= a + rest);
    lemma_newline_positions_concat(a, rest);
    assert(newline_positions(c.remove(r)) =~= nl.subrange(0, y - 1) + shift_positions(
        nl.subrange(y, n),
        -1,
    ));
}

/// True when `q` occurs in `c` starting at offset `x`.
pub open spec fn match_at(c: Seq<u8>, q: Seq<u8>, x: int) -> bool {
    &&& 0 <= x
    &&& x + q.len() <= c.len()
    &&& c.subrange(x, x + q.len() as int) == q
}

/// All offsets at or after `x` where `q` occurs in `c`, ascending.
pub open spec fn matches_from(c: Seq<u8>, q: Seq<u8>, x: int) -> Seq<int>
    decreases c.len() - x + 1,
    when 0 <= x
{
    if x > c.len() - q.len() {
        Seq::empty()
    } else {
        let rest = matches_from(c, q, x + 1);
        if match_at(c, q, x) {
            seq![x] + rest
        } else {
            rest
        }
    }
}

/// All offsets where `q` occurs in `c`, ascending.
pub open spec fn all_matches(c: Seq<u8>, q: Seq<u8>) -> Seq<int> {
    matches_from(c, q, 0)
}

/// The offsets listed from `x0` on are at least `x0`, strictly ascending,
/// every one a true occurrence, and none is missed.
pub proof fn lemma_matches_from_props(c: Seq<u8>, q: Seq<u8>, x0: int)
    requires
        0 <= x0,
    ensures
        forall|k: int|
            0 <= k < matches_from(c, q, x0).len() ==> #[trigger] matches_from(c, q, x0)[k] >= x0
                && match_at(c, q, matches_from(c, q, x0)[k]),
        ascending(matches_from(c, q, x0)),
        forall|x: int| x >= x0 && match_at(c, q, x) ==> matches_from(c, q, x0).contains(x),
    decreases c.len() - x0 + 1,
{
    let ms = matches_from(c, q, x0);
    if x0 > c.len() - q.len() {
        assert forall|x: int| x >= x0 && match_at(c, q, x) implies ms.contains(x) by {
            assert(x + q.len() <= c.len());
            assert(false);
        }
    } else {
        lemma_matches_from_props(c, q, x0 + 1);
        let rest = matches_from(c, q, x0 + 1);
        assert forall|x: int| x >= x0 && match_at(c, q, x) implies ms.contains(x) by {
            if x == x0 {
                assert(match_at(c, q, x0));
                assert(ms[0] == x0);
            } else {
                assert(rest.contains(x));
                let k = choose|k: int| 0 <= k < rest.len() && rest[k] == x;
                if match_at(c, q, x0) {
                    assert(ms[k + 1] == x);
                } else {
                    assert(ms[k] == x);
                }
            }
        }
    }
}

/// The reported match set is exact: ascending offsets, each one a true
/// occurrence of the query, and every true occurrence reported.
pub proof fn lemma_all_matches_exact(c: Seq<u8>, q: Seq<u8>)
    ensures
        ascending(all_matches(c, q)),
        forall|k: int|
            0 <= k < all_matches(c, q).len() ==> match_at(
                c,
                q,
                #[trigger] all_matches(c, q)[k],
            ),
        forall|x: int| match_at(c, q, x) ==> all_matches(c, q).contains(x),
{
    lemma_matches_from_props(c, q, 0);
}

/// The in-memory document: raw bytes plus a derived index of newline
/// positions.  The index is only meaningful after `update_buffers` has run
/// since the last mutation (see `indexed`).
#[derive(Debug)]
pub struct AppendBuffer {
    pub buffer: Vec<u8>,
    pub new_lines: Vec<usize>,
}

impl AppendBuffer {
    /// The line index viewed as mathematical integers.
    pub open spec fn line_starts(&self) -> Seq<int> {
        self.new_lines@.map_values(|p: usize| p as int)
    }

    /// The line index agrees with the content: it holds exactly the newline
    /// positions of `buffer`, in ascending order.
    pub open spec fn indexed(&self) -> bool {
        self.line_starts() == newline_positions(self.buffer@)
    }

    /// An empty document with an empty index.
    pub fn new() -> (r: AppendBuffer)
        ensures
            r.buffer@ == Seq::<u8>::empty(),
            r.new_lines@ == Seq::<usize>::empty(),
            r.indexed(),
    {
        let r = AppendBuffer { buffer: Vec::new(), new_lines: Vec::new() };
        proof {
            assert(r.line_starts() =~= newline_positions(r.buffer@));
        }
        r
    }

    /// Appends raw bytes at the end; the line index is left stale.
    pub fn append(&mut self, input_stream: &[u8])
        ensures
            final(self).buffer@ == old(self).buffer@ + input_stream@,
            final(self).new_lines == old(self).new_lines,
    {
        self.buffer.extend_from_slice(input_stream);
    }

    /// Appends the bytes of a string slice; the line index is left stale.
    pub fn append_str(&mut self, input_stream: &str)
        ensures
            final(self).buffer@ == old(self).buffer@ + input_stream.spec_bytes(),
            final(self).new_lines == old(self).new_lines,
    {
        let s = input_stream.as_bytes();
        self.buffer.extend_from_slice(s);
    }

    /// Inserts one byte at `index` and rebuilds the line index.
    pub fn insert(&mut self, index: usize, input_stream: u8)
        requires
            index <= old(self).buffer@.len(),
            old(self).buffer@.len() < usize::MAX,
        ensures
            final(self).buffer@ == old(self).buffer@.insert(index as int, input_stream),
            final(self).indexed(),
    {
        self.buffer.insert(index, input_stream);
        self.update_buffers();
    }

    /// Removes the byte at `index`; the line index is left stale.
    pub fn remove(&mut self, index: usize)
        requires
            index < old(self).buffer@.len(),
        ensures
            final(self).buffer@ == old(self).buffer@.remove(index as int),
            final(self).new_lines == old(self).new_lines,
    {
        self.buffer.remove(index);
    }

    /// Removes the byte range `[start, end)`; the line index is left stale.
    pub fn remove_range(&mut self, start: usize, end: usize)
        requires
            start <= end,
            end <= old(self).buffer@.len(),
        ensures
            final(self).buffer@ == old(self).buffer@.subrange(0, start as int) + old(
                self,
            ).buffer@.subrange(end as int, old(self).buffer@.len() as int),
            final(self).new_lines == old(self).new_lines,
    {
        let ghost orig = self.buffer@;
        let mut rest: Vec<u8> = Vec::new();
        let mut j = end;
        while j < self.buffer.len()
            invariant
                end <= j <= self.buffer@.len(),
                self.buffer@ == orig,
                rest@ == orig.subrange(end as int, j as int),
            decreases self.buffer@.len() - j,
        {
            rest.push(self.buffer[j]);
            proof {
                assert(rest@ =~= orig.subrange(end as int, j + 1));
            }
            j = j + 1;
        }
        proof {
            assert(rest@ =~= orig.subrange(end as int, orig.len() as int));
        }
        self.buffer.truncate(start);
        self.buffer.append(&mut rest);
    }

    /// Rebuilds the line index by scanning the content for newline bytes.
    pub fn update_buffers(&mut self)
        ensures
            final(self).buffer@ == old(self).buffer@,
            final(self).indexed(),
    {
        self.new_lines = Vec::new();
        let n = self.buffer.len();
        let mut i: usize = 0;
        while i < n
            invariant
                n == self.buffer@.len(),
                i <= n,
                self.buffer@ == old(self).buffer@,
                self.new_lines@.map_values(|p: usize| p as int) == newline_positions(
                    self.buffer@.subrange(0, i as int),
                ),
            decreases n - i,
        {
            let ghost pre = self.new_lines@;
            if self.buffer[i] == 10u8 {
                self.new_lines.push(i);
            }
            proof {
                assert(self.buffer@.subrange(0, i + 1).drop_last() =~= self.buffer@.subrange(
                    0,
                    i as int,
                ));
                assert(self.buffer@.subrange(0, i + 1).last() == self.buffer@[i as int]);
                if self.buffer@[i as int] == 10u8 {
                    assert(self.new_lines@.map_values(|p: usize| p as int) =~= pre.map_values(
                        |p: usize| p as int,
                    ).push(i as int));
                } else {
                    assert(self.new_lines@.map_values(|p: usize| p as int) =~= pre.map_values(
                        |p: usize| p as int,
                    ));
                }
            }
            i = i + 1;
        }
        proof {
            assert(self.buffer@.subrange(0, n as int) =~= self.buffer@);
        }
    }

    /// The content, verbatim.
    pub fn serialize(&self) -> (r: Vec<u8>)
        ensures
            r@ == self.buffer@,
    {
        let mut r: Vec<u8> = Vec::new();
        let mut i: usize = 0;
        while i < self.buffer.len()
            invariant
                i <= self.buffer@.len(),
                r@ == self.buffer@.subrange(0, i as int),
            decreases self.buffer@.len() - i,
        {
            r.push(self.buffer[i]);
            proof {
                assert(r@ =~= self.buffer@.subrange(0, i + 1));
            }
            i = i + 1;
        }
        proof {
            assert(r@ =~= self.buffer@);
        }
        r
    }

    /// Clears the content; the line index is left stale.
    pub fn free(&mut self)
        ensures
            final(self).buffer@ == Seq::<u8>::empty(),
            final(self).new_lines == old(self).new_lines,
    {
        self.buffer.clear();
    }

    /// Every offset where the byte sequence `q` occurs in the content,
    /// paired with the end of the occurrence, left to right; overlapping
    /// occurrences are all reported.
    pub fn find_bytes(&self, q: &[u8]) -> (r: Vec<(usize, usize)>)
        ensures
            r@.map_values(|m: (usize, usize)| m.0 as int) == all_matches(self.buffer@, q@),
            forall|k: int| 0 <= k < r@.len() ==> #[trigger] r@[k].1 == r@[k].0 + q@.len(),
    {
        let w_len = q.len();
        let b_len = self.buffer.len();
        let mut result: Vec<(usize, usize)> = Vec::new();
        if w_len > b_len {
            proof {
                assert(result@.map_values(|m: (usize, usize)| m.0 as int) =~= all_matches(
                    self.buffer@,
                    q@,
                ));
            }
            return result;
        }
        let mut x: usize = 0;
        loop
            invariant_except_break
                result@.map_values(|m: (usize, usize)| m.0 as int) + matches_from(
                    self.buffer@,
                    q@,
                    x as int,
                ) == all_matches(self.buffer@, q@),
            invariant
                w_len == q@.len(),
                b_len == self.buffer@.len(),
                w_len <= b_len,
                x <= b_len - w_len,
                forall|k: int| 0 <= k < result@.len() ==> #[trigger] result@[k].1 == result@[k].0
                    + q@.len(),
            ensures
                result@.map_values(|m: (usize, usize)| m.0 as int) == all_matches(
                    self.buffer@,
                    q@,
                ),
            decreases b_len - w_len - x,
        {
            let ghost pre = result@;
            let mut y: usize = 0;
            let mut found = true;
            while y < w_len
                invariant
                    w_len == q@.len(),
                    b_len == self.buffer@.len(),
                    x + w_len <= b_len,
                    y <= w_len,
                    found == (forall|j: int|
                        0 <= j < y ==> self.buffer@[x + j] == q@[j]),
                decreases w_len - y,
            {
                let ghost found_pre = found;
                found = found && self.buffer[x + y] == q[y];
                proof {
                    if found {
                        assert(forall|j: int| 0 <= j < y + 1 ==> self.buffer@[x + j] == q@[j]);
                    } else {
                        if found_pre {
                            assert(self.buffer@[x + y] != q@[y as int]);
                        } else {
                            let j = choose|j: int|
                                0 <= j < y && self.buffer@[x + j] != q@[j];
                            assert(self.buffer@[x + j] != q@[j]);
                        }
                        assert(!(forall|j: int|
                            0 <= j < y + 1 ==> self.buffer@[x + j] == q@[j]));
                    }
                }
                y = y + 1;
            }
            proof {
                if found {
                    assert(self.buffer@.subrange(x as int, x + w_len) =~= q@);
                    assert(match_at(self.buffer@, q@, x as int));
                } else {
                    if match_at(self.buffer@, q@, x as int) {
                        let j = choose|j: int|
                            0 <= j < w_len && self.buffer@[x + j] != q@[j];
                        assert(self.buffer@.subrange(x as int, x + w_len)[j] == self.buffer@[x
                            + j]);
                    }
                    assert(!match_at(self.buffer@, q@, x as int));
                }
            }
            if found {
                result.push((x, x + w_len));
                proof {
                    assert(result@.map_values(|m: (usize, usize)| m.0 as int) =~= pre.map_values(
                        |m: (usize, usize)| m.0 as int,
                    ).push(x as int));
                    assert(matches_from(self.buffer@, q@, x as int) == seq![x as int]
                        + matches_from(self.buffer@, q@, x + 1));
                    assert(result@.map_values(|m: (usize, usize)| m.0 as int) + matches_from(
                        self.buffer@,
                        q@,
                        x + 1,
                    ) =~= pre.map_values(|m: (usize, usize)| m.0 as int) + matches_from(
                        self.buffer@,
                        q@,
                        x as int,
                    ));
                }
            } else {
                proof {
                    assert(matches_from(self.buffer@, q@, x as int) == matches_from(
                        self.buffer@,
                        q@,
                        x + 1,
                    ));
                }
            }
            if x == b_len - w_len {
                proof {
                    assert(matches_from(self.buffer@, q@, x as int + 1) =~= Seq::<int>::empty());
                }
                break;
            }
            x = x + 1;
        }
        result
    }

    /// Deletes exactly the byte range of row `i`, `[rowBounds(i).start,
    /// rowBounds(i).end)`, and rebuilds the line index; see
    /// `lemma_remove_row_shifts_bounds` for how the bounds of every
    /// subsequent row shift accordingly.
    pub fn remove_row(&mut self, i: usize)
        requires
            old(self).indexed(),
            i < old(self).new_lines@.len(),
        ensures
            final(self).buffer@ == old(self).buffer@.subrange(
                0,
                row_bounds_start(old(self).line_starts(), i as int),
            ) + old(self).buffer@.subrange(
                row_bounds_end(old(self).line_starts(), i as int),
                old(self).buffer@.len() as int,
            ),
            final(self).indexed(),
            final(self).line_starts() == old(self).line_starts().subrange(0, i as int)
                + shift_positions(
                old(self).line_starts().subrange(i as int, old(self).line_starts().len() as int),
                -row_len(old(self).line_starts(), i as int),
            ),
    {
        let blen = self.buffer.len();
        proof {
            lemma_newline_positions_props(self.buffer@);
            if i > 0 {
                assert(self.line_starts()[i - 1] == self.new_lines@[i - 1] as int);
                assert((self.new_lines@[i - 1] as int) < (blen as int));
            }
        }
        let start = if i == 0 {
            0
        } else {
            self.new_lines[i - 1] + 1
        };
        let end = self.new_lines[i];
        proof {
            let nl = self.line_starts();
            assert(nl[i as int] == self.new_lines@[i as int]);
            if i > 0 {
                assert(nl[i - 1] < nl[i as int]);
            }
            lemma_remove_row_shifts_bounds(self.buffer@, i as int);
        }
        self.remove_range(start, end);
        self.update_buffers();
    }

    /// `find_bytes` over the bytes of a string query.
    pub fn find(&self, word: &str) -> (r: Vec<(usize, usize)>)
        ensures
            r@.map_values(|m: (usize, usize)| m.0 as int) == all_matches(
                self.buffer@,
                word.spec_bytes(),
            ),
            forall|k: int| 0 <= k < r@.len() ==> #[trigger] r@[k].1 == r@[k].0
                + word.spec_bytes().len(),
    {
        self.find_bytes(word.as_bytes())
    }
}

} // verus!
