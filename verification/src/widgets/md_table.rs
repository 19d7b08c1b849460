//! Column widths of markdown tables.
//!
//! Each column has a natural width (its widest cell) and a minimum width (its longest word).
//! When the table fits, columns take their natural width (at least the minimum); otherwise
//! every column gets its minimum plus a share of the remaining room proportional to how much
//! it would still grow, and the rounding remainder is handed out one cell at a time.

use vstd::prelude::*;

verus! {

/// Sum of a sequence of integers.
pub open spec fn sum(s: Seq<int>) -> int
    decreases s.len(),
{
    if s.len() == 0 {
        0
    } else {
        sum(s.drop_last()) + s.last()
    }
}

/// The integers of a slice of `usize`.
pub open spec fn ints(s: Seq<usize>) -> Seq<int> {
    s.map_values(|x: usize| x as int)
}

pub open spec fn pos_part(x: int) -> int {
    if x > 0 {
        x
    } else {
        0
    }
}

/// Cells available to the columns once borders and separators (`3 * n + 1`) are taken.
pub open spec fn cell_room(width: int, n: int) -> int {
    pos_part(width - (3 * n + 1))
}

/// `amount` shared out in proportion to the weights `ws`, each share rounded down (nothing
/// when all weights are zero).
pub open spec fn shares(ws: Seq<int>, amount: int) -> Seq<int> {
    Seq::new(
        ws.len(),
        |i: int|
            if sum(ws) > 0 {
                ws[i] * amount / sum(ws)
            } else {
                0
            },
    )
}

/// How much each minimum exceeds one cell.
pub open spec fn weights(mw: Seq<int>) -> Seq<int> {
    mw.map_values(|w: int| pos_part(w - 1))
}

/// Minimums shrunk to fit `room`: one cell each, the rest of the room shared in proportion to
/// each minimum beyond one cell, and the rounding remainder handed to the first columns, one
/// cell each.
pub open spec fn shrunk_minimums(mw: Seq<int>, room: int) -> Seq<int> {
    let remaining = pos_part(room - mw.len());
    if remaining == 0 {
        Seq::new(mw.len(), |_i: int| 1int)
    } else {
        let growth = shares(weights(mw), remaining);
        let leftover = pos_part(remaining - sum(growth));
        Seq::new(
            mw.len(),
            |i: int|
                1 + growth[i] + if i < leftover {
                    1int
                } else {
                    0
                },
        )
    }
}

/// The minimum widths: the longest words, or shrunk minimums when those do not fit.
pub open spec fn minimum_widths(mw: Seq<int>, room: int) -> Seq<int> {
    if sum(mw) > room {
        shrunk_minimums(mw, room)
    } else {
        mw
    }
}

/// How far each column is below its natural width.
pub open spec fn lacks(natural: Seq<int>, mins: Seq<int>) -> Seq<int> {
    Seq::new(natural.len(), |i: int| pos_part(natural[i] - mins[i]))
}

/// Minimums grown towards the natural widths in proportion to what each still lacks.
pub open spec fn grown_widths(natural: Seq<int>, mins: Seq<int>, room: int) -> Seq<int> {
    let g = shares(lacks(natural, mins), pos_part(room - sum(mins)));
    Seq::new(natural.len(), |i: int| mins[i] + g[i])
}

/// One pass from column `i`: every column below its natural width gains a cell while `rem`
/// lasts. Returns the widths and what is left of `rem`.
pub open spec fn pass_from(ws: Seq<int>, natural: Seq<int>, i: int, rem: int) -> (Seq<int>, int)
    decreases ws.len() - i,
{
    if i < 0 || i >= ws.len() || rem <= 0 {
        (ws, rem)
    } else if ws[i] < natural[i] {
        pass_from(ws.update(i, ws[i] + 1), natural, i + 1, rem - 1)
    } else {
        pass_from(ws, natural, i + 1, rem)
    }
}

/// Passes repeated until `rem` is spent or a pass grows nothing.
pub open spec fn round_robin(ws: Seq<int>, natural: Seq<int>, rem: int) -> Seq<int>
    decreases pos_part(rem),
{
    if rem <= 0 {
        ws
    } else {
        let (w2, r2) = pass_from(ws, natural, 0, rem);
        if r2 >= rem || r2 < 0 {
            w2
        } else {
            round_robin(w2, natural, r2)
        }
    }
}

/// The column widths of a table of `width` cells.
pub open spec fn column_widths(natural: Seq<int>, mw: Seq<int>, width: int) -> Seq<int> {
    let n = natural.len() as int;
    let room = cell_room(width, n);
    let mins = minimum_widths(mw, room);
    if sum(natural) + 3 * n + 1 <= width {
        Seq::new(natural.len(), |i: int| if natural[i] >= mins[i] { natural[i] } else { mins[i] })
    } else {
        let base = grown_widths(natural, mins, room);
        round_robin(base, natural, pos_part(room - sum(base)))
    }
}

proof fn lemma_sum_subrange_step(s: Seq<int>, i: int)
    requires
        0 <= i < s.len(),
    ensures
        sum(s.subrange(0, i + 1)) == sum(s.subrange(0, i)) + s[i],
{
    assert(s.subrange(0, i + 1).drop_last() =~= s.subrange(0, i));
}

proof fn lemma_sum_nonneg(s: Seq<int>)
    requires
        forall|k: int| 0 <= k < s.len() ==> #[trigger] s[k] >= 0,
    ensures
        sum(s) >= 0,
    decreases s.len(),
{
    if s.len() > 0 {
        let d = s.drop_last();
        assert forall|k: int| 0 <= k < d.len() implies #[trigger] d[k] >= 0 by {
            assert(d[k] == s[k]);
        }
        lemma_sum_nonneg(d);
        assert(s[s.len() - 1] >= 0);
    }
}

proof fn lemma_sum_nonneg_le(s: Seq<int>, i: int)
    requires
        forall|k: int| 0 <= k < s.len() ==> #[trigger] s[k] >= 0,
        0 <= i < s.len(),
    ensures
        0 <= s[i] <= sum(s),
        sum(s) >= 0,
    decreases s.len(),
{
    let d = s.drop_last();
    assert forall|k: int| 0 <= k < d.len() implies #[trigger] d[k] >= 0 by {
        assert(d[k] == s[k]);
    }
    lemma_sum_nonneg(d);
    assert(s[s.len() - 1] >= 0);
    if i < s.len() - 1 {
        assert(d[i] == s[i]);
        lemma_sum_nonneg_le(d, i);
    }
}

proof fn lemma_sum_bound(s: Seq<int>, m: int)
    requires
        forall|k: int| 0 <= k < s.len() ==> 0 <= #[trigger] s[k] <= m,
    ensures
        0 <= sum(s) <= s.len() * m,
    decreases s.len(),
{
    if s.len() > 0 {
        lemma_sum_bound(s.drop_last(), m);
        assert((s.len() - 1) * m + m == s.len() * m) by (nonlinear_arith);
    }
}

/// Sum of `v`, computed without overflow.
fn sum_wide(v: &[usize]) -> (r: u128)
    ensures
        r == sum(ints(v@)),
        r <= v@.len() * 0xffff_ffff_ffff_ffff,
{
    let mut acc: u128 = 0;
    let mut i: usize = 0;
    proof {
        lemma_sum_bound(ints(v@), 0xffff_ffff_ffff_ffff);
    }
    while i < v.len()
        invariant
            i <= v@.len(),
            acc == sum(ints(v@).subrange(0, i as int)),
            sum(ints(v@)) <= v@.len() * 0xffff_ffff_ffff_ffff,
        decreases v@.len() - i,
    {
        proof {
            lemma_sum_subrange_step(ints(v@), i as int);
            lemma_sum_bound(ints(v@).subrange(0, i + 1), 0xffff_ffff_ffff_ffff);
            assert(v@.len() <= 0xffff_ffff_ffff_ffff);
            assert((i + 1) * 0xffff_ffff_ffff_ffffint <= 0xffff_ffff_ffff_ffffint * 0xffff_ffff_ffff_ffffint) by (nonlinear_arith)
                requires
                    i + 1 <= 0xffff_ffff_ffff_ffffint,
            ;
        }
        acc = acc + v[i] as u128;
        i += 1;
    }
    assert(ints(v@).subrange(0, v@.len() as int) =~= ints(v@));
    acc
}

proof fn lemma_share_le(a: int, r: int, t: int)
    requires
        0 <= a <= t,
        t > 0,
        r >= 0,
    ensures
        0 <= a * r / t <= r,
{
    assert(a * r <= t * r) by (nonlinear_arith)
        requires
            0 <= a <= t,
            r >= 0,
    ;
    assert(a * r >= 0) by (nonlinear_arith)
        requires
            a >= 0,
            r >= 0,
    ;
    vstd::arithmetic::div_mod::lemma_div_is_ordered(a * r, t * r, t);
    vstd::arithmetic::div_mod::lemma_div_multiples_vanish(r, t);
    assert(t * r == r * t) by (nonlinear_arith);
    vstd::arithmetic::div_mod::lemma_div_pos_is_pos(a * r, t);
}

/// `amount` shared out in proportion to `ws` (see `shares`).
fn proportional_shares(ws: &[usize], amount: usize) -> (r: Vec<usize>)
    ensures
        r@.len() == ws@.len(),
        ints(r@) == shares(ints(ws@), amount as int),
        forall|i: int| 0 <= i < r@.len() ==> r@[i] <= amount,
{
    let total = sum_wide(ws);
    let mut out: Vec<usize> = Vec::new();
    let mut i: usize = 0;
    while i < ws.len()
        invariant
            i <= ws@.len(),
            total == sum(ints(ws@)),
            out@.len() == i,
            forall|k: int| 0 <= k < i ==> out@[k] == #[trigger] shares(ints(ws@), amount as int)[k],
            forall|k: int| 0 <= k < i ==> out@[k] <= amount,
        decreases ws@.len() - i,
    {
        let share: usize = if total > 0 {
            proof {
                lemma_sum_nonneg_le(ints(ws@), i as int);
                lemma_share_le(ws@[i as int] as int, amount as int, total as int);
                assert(ws@[i as int] as int * amount as int <= 0xffff_ffff_ffff_ffffint * 0xffff_ffff_ffff_ffffint) by (nonlinear_arith)
                    requires
                        ws@[i as int] <= 0xffff_ffff_ffff_ffffint,
                        amount <= 0xffff_ffff_ffff_ffffint,
                        ws@[i as int] >= 0,
                        amount >= 0,
                ;
            }
            ((ws[i] as u128 * amount as u128) / total) as usize
        } else {
            0
        };
        out.push(share);
        i += 1;
    }
    assert(ints(out@) =~= shares(ints(ws@), amount as int));
    out
}

fn copy_widths(v: &[usize]) -> (r: Vec<usize>)
    ensures
        r@ == v@,
{
    let mut out: Vec<usize> = Vec::new();
    let mut i: usize = 0;
    while i < v.len()
        invariant
            i <= v@.len(),
            out@ == v@.subrange(0, i as int),
        decreases v@.len() - i,
    {
        out.push(v[i]);
        assert(out@ =~= v@.subrange(0, i + 1 as int));
        i += 1;
    }
    assert(v@.subrange(0, v@.len() as int) =~= v@);
    out
}

proof fn lemma_shrunk_at(mw: Seq<int>, room: int, i: int)
    requires
        pos_part(room - mw.len()) != 0,
        0 <= i < mw.len(),
    ensures
        ({
            let remaining = pos_part(room - mw.len());
            let g = shares(weights(mw), remaining);
            shrunk_minimums(mw, room)[i] == 1 + g[i] + if i < pos_part(remaining - sum(g)) {
                1int
            } else {
                0int
            }
        }),
{
}

fn shrink_minimums(mw: &[usize], room: usize) -> (r: Vec<usize>)
    requires
        mw@.len() <= room < usize::MAX,
        forall|i: int| 0 <= i < mw@.len() ==> mw@[i] >= 1,
    ensures
        ints(r@) == shrunk_minimums(ints(mw@), room as int),
{
    let n = mw.len();
    let remaining = room - n;
    let mut out: Vec<usize> = Vec::new();
    if remaining == 0 {
        let mut i: usize = 0;
        while i < n
            invariant
                n == mw@.len(),
                i <= n,
                out@.len() == i,
                forall|k: int| 0 <= k < i ==> out@[k] == 1,
            decreases n - i,
        {
            out.push(1);
            i += 1;
        }
        assert(ints(out@) =~= shrunk_minimums(ints(mw@), room as int));
        return out;
    }
    let mut ws: Vec<usize> = Vec::new();
    let mut j: usize = 0;
    while j < n
        invariant
            n == mw@.len(),
            j <= n,
            ws@.len() == j,
            forall|i: int| 0 <= i < mw@.len() ==> mw@[i] >= 1,
            forall|k: int| 0 <= k < j ==> ws@[k] == mw@[k] - 1,
        decreases n - j,
    {
        ws.push(mw[j] - 1);
        j += 1;
    }
    assert(ints(ws@) =~= weights(ints(mw@)));
    let growth = proportional_shares(ws.as_slice(), remaining);
    let allocated = sum_wide(growth.as_slice());
    let leftover: u128 = if remaining as u128 > allocated {
        remaining as u128 - allocated
    } else {
        0
    };
    let ghost spec_growth = shares(weights(ints(mw@)), remaining as int);
    assert(ints(growth@) == spec_growth);
    let mut i: usize = 0;
    while i < n
        invariant
            n == mw@.len(),
            i <= n,
            growth@.len() == n,
            n <= room < usize::MAX,
            remaining == room - n,
            remaining > 0,
            remaining == pos_part(room - mw@.len()),
            forall|k: int| 0 <= k < growth@.len() ==> growth@[k] <= remaining,
            ints(growth@) == spec_growth,
            spec_growth == shares(weights(ints(mw@)), remaining as int),
            leftover == pos_part(remaining - sum(spec_growth)),
            out@.len() == i,
            forall|k: int| 0 <= k < i ==> out@[k] == #[trigger] shrunk_minimums(ints(mw@), room as int)[k],
        decreases n - i,
    {
        let bonus: usize = if (i as u128) < leftover {
            1
        } else {
            0
        };
        assert(ints(growth@)[i as int] == growth@[i as int]);
        out.push(1 + growth[i] + bonus);
        proof {
            let sm = shrunk_minimums(ints(mw@), room as int);
            assert(ints(mw@).len() == n);
            assert(pos_part(room - ints(mw@).len()) == remaining);
            assert(remaining != 0);
            assert(sm.len() == n);
            lemma_shrunk_at(ints(mw@), room as int, i as int);
            assert(sm[i as int] == 1 + spec_growth[i as int] + (if i < leftover { 1int } else { 0int }));
        }
        i += 1;
    }
    assert(ints(out@) =~= shrunk_minimums(ints(mw@), room as int));
    out
}

fn grow_widths(natural: &[usize], mins: &[usize], room: usize) -> (r: Vec<usize>)
    requires
        natural@.len() == mins@.len(),
    ensures
        ints(r@) == grown_widths(ints(natural@), ints(mins@), room as int),
{
    let n = natural.len();
    let mut lack: Vec<usize> = Vec::new();
    let mut j: usize = 0;
    while j < n
        invariant
            n == natural@.len(),
            n == mins@.len(),
            j <= n,
            lack@.len() == j,
            forall|k: int| 0 <= k < j ==> lack@[k] == pos_part(natural@[k] - mins@[k]),
        decreases n - j,
    {
        lack.push(if natural[j] > mins[j] {
            natural[j] - mins[j]
        } else {
            0
        });
        j += 1;
    }
    assert(ints(lack@) =~= lacks(ints(natural@), ints(mins@)));
    let sm = sum_wide(mins);
    let extra: usize = if room as u128 > sm {
        (room as u128 - sm) as usize
    } else {
        0
    };
    let g = proportional_shares(lack.as_slice(), extra);
    let ghost gs = shares(lacks(ints(natural@), ints(mins@)), extra as int);
    let mut out: Vec<usize> = Vec::new();
    let mut i: usize = 0;
    while i < n
        invariant
            n == natural@.len(),
            n == mins@.len(),
            g@.len() == n,
            i <= n,
            sm == sum(ints(mins@)),
            extra == pos_part(room - sum(ints(mins@))),
            ints(g@) == gs,
            gs == shares(lacks(ints(natural@), ints(mins@)), extra as int),
            forall|k: int| 0 <= k < g@.len() ==> g@[k] <= extra,
            out@.len() == i,
            forall|k: int| 0 <= k < i ==> out@[k] == mins@[k] + g@[k],
        decreases n - i,
    {
        proof {
            lemma_sum_nonneg_le(ints(mins@), i as int);
            assert(ints(mins@)[i as int] == mins@[i as int]);
            assert(ints(g@)[i as int] == g@[i as int]);
            if extra > 0 {
                assert(mins@[i as int] + extra <= room);
            } else {
                assert(g@[i as int] == 0);
            }
        }
        out.push(mins[i] + g[i]);
        i += 1;
    }
    assert(ints(out@) =~= grown_widths(ints(natural@), ints(mins@), room as int));
    out
}

/// Widths of the columns of a table `width` cells wide, from each column's natural width and
/// longest word (at least 1). The caller has checked that each column can get a cell.
pub fn table_column_widths(natural: &[usize], min_word: &[usize], width: usize) -> (r: Vec<usize>)
    requires
        natural@.len() == min_word@.len(),
        natural@.len() >= 1,
        4 * natural@.len() + 1 <= width,
        forall|i: int| 0 <= i < min_word@.len() ==> min_word@[i] >= 1,
    ensures
        ints(r@) == column_widths(ints(natural@), ints(min_word@), width as int),
{
    let n = natural.len();
    let overhead = 3 * n + 1;
    let room = width - overhead;
    let sm = sum_wide(min_word);
    let mins = if sm > room as u128 {
        shrink_minimums(min_word, room)
    } else {
        copy_widths(min_word)
    };
    let ghost spec_mins = minimum_widths(ints(min_word@), room as int);
    assert(ints(mins@) == spec_mins);
    let sn = sum_wide(natural);
    proof {
        assert(n <= 0xffff_ffff_ffff_ffffint);
        assert(sn <= n * 0xffff_ffff_ffff_ffffint);
        assert(n * 0xffff_ffff_ffff_ffffint <= 0xffff_ffff_ffff_ffffint * 0xffff_ffff_ffff_ffffint) by (nonlinear_arith)
            requires
                n <= 0xffff_ffff_ffff_ffffint,
        ;
    }
    if sn + overhead as u128 <= width as u128 {
        let mut out: Vec<usize> = Vec::new();
        let mut i: usize = 0;
        while i < n
            invariant
                n == natural@.len(),
                n == mins@.len(),
                i <= n,
                ints(mins@) == spec_mins,
                out@.len() == i,
                forall|k: int| 0 <= k < i ==> out@[k] == (if natural@[k] >= mins@[k] { natural@[k] } else { mins@[k] }),
            decreases n - i,
        {
            out.push(if natural[i] >= mins[i] {
                natural[i]
            } else {
                mins[i]
            });
            i += 1;
        }
        proof {
            assert forall|k: int| 0 <= k < n implies ints(mins@)[k] == mins@[k] by {}
        }
        assert(ints(out@) =~= column_widths(ints(natural@), ints(min_word@), width as int));
        return out;
    }
    let mut ws = grow_widths(natural, mins.as_slice(), room);
    let ghost base = ints(ws@);
    let sb = sum_wide(ws.as_slice());
    let mut rem: usize = if room as u128 > sb {
        (room as u128 - sb) as usize
    } else {
        0
    };
    let ghost rem0 = rem as int;
    while rem > 0
        invariant
            n == natural@.len(),
            ws@.len() == n,
            round_robin(base, ints(natural@), rem0) == round_robin(ints(ws@), ints(natural@), rem as int),
        ensures
            ints(ws@) == round_robin(base, ints(natural@), rem0),
        decreases rem,
    {
        let ghost start_ws = ints(ws@);
        let ghost start_rem = rem as int;
        let mut grew = false;
        let mut idx: usize = 0;
        while idx < n && rem > 0
            invariant
                n == natural@.len(),
                ws@.len() == n,
                idx <= n,
                rem <= start_rem,
                grew == (rem < start_rem),
                !grew ==> ints(ws@) == start_ws,
                pass_from(start_ws, ints(natural@), 0, start_rem) == pass_from(ints(ws@), ints(natural@), idx as int, rem as int),
            decreases n - idx,
        {
            if ws[idx] < natural[idx] {
                let w = ws[idx];
                proof {
                    assert(ints(ws@).update(idx as int, w + 1) =~= ints(ws@.update(idx as int, (w + 1) as usize)));
                }
                ws.set(idx, w + 1);
                rem -= 1;
                grew = true;
            }
            idx += 1;
        }
        assert(pass_from(ints(ws@), ints(natural@), idx as int, rem as int) == (ints(ws@), rem as int));
        if !grew {
            break;
        }
    }
    ws
}

proof fn lemma_floor_add(a: int, b: int, t: int)
    requires
        a >= 0,
        b >= 0,
        t > 0,
    ensures
        a / t + b / t <= (a + b) / t,
{
    vstd::arithmetic::div_mod::lemma_fundamental_div_mod(a, t);
    vstd::arithmetic::div_mod::lemma_fundamental_div_mod(b, t);
    vstd::arithmetic::div_mod::lemma_fundamental_div_mod(a + b, t);
    vstd::arithmetic::div_mod::lemma_mod_pos_bound(a, t);
    vstd::arithmetic::div_mod::lemma_mod_pos_bound(b, t);
    vstd::arithmetic::div_mod::lemma_mod_pos_bound(a + b, t);
    let qa = a / t;
    let qb = b / t;
    let q = (a + b) / t;
    assert(qa + qb <= q) by (nonlinear_arith)
        requires
            a == t * qa + a % t,
            b == t * qb + b % t,
            a + b == t * q + (a + b) % t,
            0 <= a % t < t,
            0 <= b % t < t,
            0 <= (a + b) % t < t,
            t > 0,
    ;
}

/// Shares never hand out more than the amount, and none is negative.
proof fn lemma_shares_bounded(ws: Seq<int>, amount: int)
    requires
        forall|i: int| 0 <= i < ws.len() ==> #[trigger] ws[i] >= 0,
        amount >= 0,
    ensures
        sum(shares(ws, amount)) <= amount,
        forall|i: int| 0 <= i < ws.len() ==> #[trigger] shares(ws, amount)[i] >= 0,
{
    let t = sum(ws);
    lemma_sum_nonneg(ws);
    if t == 0 {
        assert(shares(ws, amount) =~= Seq::new(ws.len(), |_i: int| 0int));
        lemma_sum_zero(ws.len());
    } else {
        assert forall|i: int| 0 <= i < ws.len() implies #[trigger] shares(ws, amount)[i] >= 0 by {
            assert(ws[i] * amount >= 0) by (nonlinear_arith)
                requires
                    ws[i] >= 0,
                    amount >= 0,
            ;
            vstd::arithmetic::div_mod::lemma_div_pos_is_pos(ws[i] * amount, t);
        }
        lemma_scaled_floor_sum(ws, amount, t, ws.len() as int);
        assert(shares(ws, amount) =~= Seq::new(ws.len(), |i: int| ws[i] * amount / t).subrange(0, ws.len() as int));
        lemma_scaled_sum(ws, amount);
        vstd::arithmetic::div_mod::lemma_div_multiples_vanish(amount, t);
        assert(t * amount == amount * t) by (nonlinear_arith);
    }
}

proof fn lemma_sum_zero(n: nat)
    ensures
        sum(Seq::new(n, |_i: int| 0int)) == 0,
    decreases n,
{
    if n > 0 {
        assert(Seq::new(n, |_i: int| 0int).drop_last() =~= Seq::new((n - 1) as nat, |_i: int| 0int));
        lemma_sum_zero((n - 1) as nat);
    }
}

/// The sum of the first `k` rounded-down shares is at most the rounded-down share of the
/// first `k` weights together.
proof fn lemma_scaled_floor_sum(ws: Seq<int>, amount: int, t: int, k: int)
    requires
        forall|i: int| 0 <= i < ws.len() ==> #[trigger] ws[i] >= 0,
        amount >= 0,
        t > 0,
        0 <= k <= ws.len(),
    ensures
        sum(Seq::new(ws.len(), |i: int| ws[i] * amount / t).subrange(0, k)) <= sum(
            ws.subrange(0, k).map_values(|w: int| w * amount),
        ) / t,
        sum(ws.subrange(0, k).map_values(|w: int| w * amount)) >= 0,
    decreases k,
{
    let sh = Seq::new(ws.len(), |i: int| ws[i] * amount / t);
    let sc = ws.subrange(0, k).map_values(|w: int| w * amount);
    if k == 0 {
        assert(sh.subrange(0, 0) =~= Seq::<int>::empty());
        assert(sc =~= Seq::<int>::empty());
        vstd::arithmetic::div_mod::lemma_div_multiples_vanish(0, t);
        assert(t * 0 == 0);
    } else {
        lemma_scaled_floor_sum(ws, amount, t, k - 1);
        let prev = ws.subrange(0, k - 1).map_values(|w: int| w * amount);
        assert(sh.subrange(0, k).drop_last() =~= sh.subrange(0, k - 1));
        assert(sc.drop_last() =~= prev);
        let w = ws[k - 1];
        vstd::arithmetic::mul::lemma_mul_nonnegative(w, amount);
        lemma_floor_add(sum(prev), w * amount, t);
    }
}

proof fn lemma_scaled_sum(ws: Seq<int>, amount: int)
    ensures
        sum(ws.subrange(0, ws.len() as int).map_values(|w: int| w * amount)) == sum(ws) * amount,
    decreases ws.len(),
{
    assert(ws.subrange(0, ws.len() as int) =~= ws);
    if ws.len() > 0 {
        let init = ws.drop_last();
        lemma_scaled_sum(init, amount);
        assert(init.subrange(0, init.len() as int) =~= init);
        assert(ws.map_values(|w: int| w * amount).drop_last() =~= init.map_values(|w: int| w * amount));
        assert((sum(init) + ws.last()) * amount == sum(init) * amount + ws.last() * amount) by (nonlinear_arith);
    }
}

/// A pass keeps the total of the widths plus what is left to hand out, and only widens.
proof fn lemma_pass_from(ws: Seq<int>, natural: Seq<int>, i: int, rem: int)
    requires
        0 <= i <= ws.len(),
        ws.len() == natural.len(),
        rem >= 0,
    ensures
        ({
            let (w2, r2) = pass_from(ws, natural, i, rem);
            &&& w2.len() == ws.len()
            &&& sum(w2) + r2 == sum(ws) + rem
            &&& 0 <= r2 <= rem
            &&& forall|k: int| 0 <= k < ws.len() ==> #[trigger] w2[k] >= ws[k]
        }),
    decreases ws.len() - i,
{
    if i < ws.len() && rem > 0 && ws[i] < natural[i] {
        let next = ws.update(i, ws[i] + 1);
        lemma_sum_update(ws, i, ws[i] + 1);
        lemma_pass_from(next, natural, i + 1, rem - 1);
        let (w2, r2) = pass_from(next, natural, i + 1, rem - 1);
        assert forall|k: int| 0 <= k < ws.len() implies #[trigger] w2[k] >= ws[k] by {
            assert(w2[k] >= next[k]);
        }
    } else if i < ws.len() && rem > 0 {
        lemma_pass_from(ws, natural, i + 1, rem);
    }
}

proof fn lemma_sum_update(s: Seq<int>, i: int, v: int)
    requires
        0 <= i < s.len(),
    ensures
        sum(s.update(i, v)) == sum(s) - s[i] + v,
    decreases s.len(),
{
    let u = s.update(i, v);
    if i == s.len() - 1 {
        assert(u.drop_last() =~= s.drop_last());
    } else {
        lemma_sum_update(s.drop_last(), i, v);
        assert(u.drop_last() =~= s.drop_last().update(i, v));
    }
}

/// Handing out the remainder adds at most `rem` to the total and only widens.
proof fn lemma_round_robin(ws: Seq<int>, natural: Seq<int>, rem: int)
    requires
        ws.len() == natural.len(),
        rem >= 0,
    ensures
        round_robin(ws, natural, rem).len() == ws.len(),
        sum(round_robin(ws, natural, rem)) <= sum(ws) + rem,
        forall|k: int| 0 <= k < ws.len() ==> #[trigger] round_robin(ws, natural, rem)[k] >= ws[k],
    decreases pos_part(rem),
{
    if rem > 0 {
        lemma_pass_from(ws, natural, 0, rem);
        let (w2, r2) = pass_from(ws, natural, 0, rem);
        if !(r2 >= rem || r2 < 0) {
            lemma_round_robin(w2, natural, r2);
            assert forall|k: int| 0 <= k < ws.len() implies #[trigger] round_robin(ws, natural, rem)[k] >= ws[k] by {
                assert(round_robin(w2, natural, r2)[k] >= w2[k]);
            }
        }
    }
}

/// Minimums are at least one cell and never need more than the room (given one cell per
/// column fits).
proof fn lemma_minimums(mw: Seq<int>, room: int)
    requires
        forall|i: int| 0 <= i < mw.len() ==> #[trigger] mw[i] >= 1,
        room >= mw.len(),
    ensures
        minimum_widths(mw, room).len() == mw.len(),
        sum(minimum_widths(mw, room)) <= room,
        forall|i: int| 0 <= i < mw.len() ==> #[trigger] minimum_widths(mw, room)[i] >= 1,
{
    if sum(mw) > room {
        let n = mw.len() as int;
        let remaining = pos_part(room - n);
        let m = shrunk_minimums(mw, room);
        if remaining == 0 {
            assert(m =~= Seq::new(mw.len(), |_i: int| 1int));
            lemma_sum_const(mw.len(), 1);
        } else {
            let w = weights(mw);
            assert forall|i: int| 0 <= i < w.len() implies #[trigger] w[i] >= 0 by {}
            lemma_shares_bounded(w, remaining);
            let growth = shares(w, remaining);
            let leftover = pos_part(remaining - sum(growth));
            lemma_sum_parts(mw.len(), growth, leftover);
            assert(m =~= Seq::new(
                mw.len(),
                |i: int|
                    1 + growth[i] + if i < leftover {
                        1int
                    } else {
                        0
                    },
            ));
        }
    }
}

proof fn lemma_sum_const(n: nat, c: int)
    ensures
        sum(Seq::new(n, |_i: int| c)) == n * c,
    decreases n,
{
    let s = Seq::new(n, |_i: int| c);
    if n == 0 {
        assert(n * c == 0);
    } else {
        let t = Seq::new((n - 1) as nat, |_i: int| c);
        assert(s.drop_last() =~= t);
        lemma_sum_const((n - 1) as nat, c);
        assert(sum(t) == (n - 1) * c);
        vstd::arithmetic::mul::lemma_mul_is_distributive_add_other_way(c, (n - 1) as int, 1);
        assert(sum(s) == sum(t) + c);
    }
    assert(sum(Seq::new(n, |_i: int| c)) == sum(s));
}

/// Total of one cell each, the shares, and one more cell for each of the first `leftover`
/// columns.
proof fn lemma_sum_parts(n: nat, growth: Seq<int>, leftover: int)
    requires
        growth.len() == n,
        leftover >= 0,
    ensures
        sum(Seq::new(
            n,
            |i: int|
                1 + growth[i] + if i < leftover {
                    1int
                } else {
                    0
                },
        )) <= n + sum(growth) + leftover,
        sum(Seq::new(
            n,
            |i: int|
                1 + growth[i] + if i < leftover {
                    1int
                } else {
                    0
                },
        )) <= n + sum(growth) + n,
    decreases n,
{
    let s = Seq::new(
        n,
        |i: int|
            1 + growth[i] + if i < leftover {
                1int
            } else {
                0
            },
    );
    if n > 0 {
        let g2 = growth.drop_last();
        lemma_sum_parts((n - 1) as nat, g2, leftover);
        assert(s.drop_last() =~= Seq::new(
            (n - 1) as nat,
            |i: int|
                1 + g2[i] + if i < leftover {
                    1int
                } else {
                    0
                },
        ));
        lemma_bonus_count((n - 1) as nat, g2, leftover);
        lemma_bonus_count(n, growth, leftover);
    }
}

/// The exact total: one cell each, the shares, and `min(leftover, n)` extra cells.
proof fn lemma_bonus_count(n: nat, growth: Seq<int>, leftover: int)
    requires
        growth.len() == n,
        leftover >= 0,
    ensures
        sum(Seq::new(
            n,
            |i: int|
                1 + growth[i] + if i < leftover {
                    1int
                } else {
                    0
                },
        )) == n + sum(growth) + (if leftover < n { leftover } else { n as int }),
    decreases n,
{
    let s = Seq::new(
        n,
        |i: int|
            1 + growth[i] + if i < leftover {
                1int
            } else {
                0
            },
    );
    if n > 0 {
        let g2 = growth.drop_last();
        lemma_bonus_count((n - 1) as nat, g2, leftover);
        assert(s.drop_last() =~= Seq::new(
            (n - 1) as nat,
            |i: int|
                1 + g2[i] + if i < leftover {
                    1int
                } else {
                    0
                },
        ));
    }
}

/// Every column of a table gets at least one cell; when the natural widths do not fit in the
/// width, the columns together take no more than the cells left by the borders, so the table
/// fits.
pub proof fn law_table_widths_fit(natural: Seq<int>, mw: Seq<int>, width: int)
    requires
        natural.len() == mw.len(),
        mw.len() >= 1,
        4 * mw.len() + 1 <= width,
        forall|i: int| 0 <= i < mw.len() ==> #[trigger] mw[i] >= 1,
        forall|i: int| 0 <= i < natural.len() ==> #[trigger] natural[i] >= 0,
    ensures
        ({
            let w = column_widths(natural, mw, width);
            let n = natural.len() as int;
            &&& w.len() == natural.len()
            &&& forall|i: int| 0 <= i < w.len() ==> #[trigger] w[i] >= 1
            &&& sum(natural) + 3 * n + 1 > width ==> sum(w) <= cell_room(width, n)
        }),
{
    let n = natural.len() as int;
    let room = cell_room(width, n);
    lemma_minimums(mw, room);
    let mins = minimum_widths(mw, room);
    if !(sum(natural) + 3 * n + 1 <= width) {
        let l = lacks(natural, mins);
        assert forall|i: int| 0 <= i < l.len() implies #[trigger] l[i] >= 0 by {}
        let extra = pos_part(room - sum(mins));
        lemma_shares_bounded(l, extra);
        let g = shares(l, extra);
        let base = grown_widths(natural, mins, room);
        assert(base =~= Seq::new(natural.len(), |i: int| mins[i] + g[i]));
        lemma_sum_add(mins, g);
        lemma_round_robin(base, natural, pos_part(room - sum(base)));
        let w = column_widths(natural, mw, width);
        assert forall|i: int| 0 <= i < w.len() implies #[trigger] w[i] >= 1 by {
            assert(w[i] >= base[i]);
        }
    }
}

/// Sum of element-wise sums.
proof fn lemma_sum_add(a: Seq<int>, b: Seq<int>)
    requires
        a.len() == b.len(),
    ensures
        sum(Seq::new(a.len(), |i: int| a[i] + b[i])) == sum(a) + sum(b),
    decreases a.len(),
{
    if a.len() > 0 {
        let a2 = a.drop_last();
        let b2 = b.drop_last();
        lemma_sum_add(a2, b2);
        assert(Seq::new(a.len(), |i: int| a[i] + b[i]).drop_last() =~= Seq::new(a2.len(), |i: int| a2[i] + b2[i]));
    }
}

} // verus!
