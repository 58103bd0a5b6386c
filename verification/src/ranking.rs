//! Stable ordering of process tables by a chosen column.
use crate::metrics::ProcessInfo;
use crate::tui::ProcessSort;
use vstd::prelude::*;

verus! {

/// Strict lexicographic order on integer sequences (a proper prefix comes
/// first), which is how strings, and single numbers, compare.
pub open spec fn lex_lt(a: Seq<int>, b: Seq<int>) -> bool
    decreases a.len(),
{
    if a.len() == 0 {
        b.len() > 0
    } else if b.len() == 0 {
        false
    } else if a[0] < b[0] {
        true
    } else if a[0] > b[0] {
        false
    } else {
        lex_lt(a.drop_first(), b.drop_first())
    }
}

/// The character codes of a string.
pub open spec fn codes(s: Seq<char>) -> Seq<int> {
    s.map_values(|c: char| (c as u32) as int)
}

/// The numerator of a process's CPU share (0 when its whole is 0).
pub open spec fn cpu_num(p: ProcessInfo) -> int {
    if p.cpu_ticks_total == 0 {
        0
    } else {
        p.cpu_ticks as int
    }
}

/// The denominator of a process's CPU share (1 when its whole is 0).
pub open spec fn cpu_den(p: ProcessInfo) -> int {
    if p.cpu_ticks_total == 0 {
        1
    } else {
        p.cpu_ticks_total as int
    }
}

/// 2 to the 128th.
pub open spec fn scale128() -> int {
    0x1_0000_0000_0000_0000_0000_0000_0000_0000int
}

/// A process's CPU share scaled by 2^128 and rounded down. Shares are
/// fractions with denominators below 2^64, so two different shares differ
/// by more than 2^-128: this number orders processes exactly as their
/// shares do, and is equal exactly when the shares are.
pub open spec fn cpu_key(p: ProcessInfo) -> int {
    cpu_num(p) * scale128() / cpu_den(p)
}

/// The value a process is ordered by in the given column.
pub open spec fn sort_key(p: ProcessInfo, by: ProcessSort) -> Seq<int> {
    match by {
        ProcessSort::Cpu => seq![cpu_key(p)],
        ProcessSort::Memory => seq![p.memory_bytes as int],
        ProcessSort::Pid => seq![p.pid as int],
        ProcessSort::Name => codes(p.name@),
    }
}

/// Whether `a` comes strictly before `b`: by ascending key, or by
/// descending key when `reverse` is set.
pub open spec fn precedes(a: ProcessInfo, b: ProcessInfo, by: ProcessSort, reverse: bool) -> bool {
    if reverse {
        lex_lt(sort_key(b, by), sort_key(a, by))
    } else {
        lex_lt(sort_key(a, by), sort_key(b, by))
    }
}

/// No process comes strictly before one that is listed ahead of it.
pub open spec fn is_ordered(s: Seq<ProcessInfo>, by: ProcessSort, reverse: bool) -> bool {
    forall|i: int, j: int| 0 <= i < j < s.len() ==> !precedes(#[trigger] s[j], #[trigger] s[i], by, reverse)
}

/// The processes of `s` whose key is `k`, in the order of `s`.
pub open spec fn with_key(s: Seq<ProcessInfo>, k: Seq<int>, by: ProcessSort) -> Seq<ProcessInfo>
    decreases s.len(),
{
    if s.len() == 0 {
        seq![]
    } else if sort_key(s.last(), by) == k {
        with_key(s.drop_last(), k, by).push(s.last())
    } else {
        with_key(s.drop_last(), k, by)
    }
}

/// `r` is `input` stably sorted: ordered, and holding for every key the
/// same processes in the same order as `input`.
pub open spec fn stable_sorted(
    r: Seq<ProcessInfo>,
    input: Seq<ProcessInfo>,
    by: ProcessSort,
    reverse: bool,
) -> bool {
    &&& r.len() == input.len()
    &&& is_ordered(r, by, reverse)
    &&& forall|k: Seq<int>| #[trigger] with_key(r, k, by) == with_key(input, k, by)
}

// ---------------------------------------------------------------------------
// Lemmas on the order
// ---------------------------------------------------------------------------

pub proof fn lemma_lex_irreflexive(a: Seq<int>)
    ensures
        !lex_lt(a, a),
    decreases a.len(),
{
    if a.len() > 0 {
        lemma_lex_irreflexive(a.drop_first());
    }
}

pub proof fn lemma_lex_asymmetric(a: Seq<int>, b: Seq<int>)
    ensures
        lex_lt(a, b) ==> !lex_lt(b, a),
    decreases a.len(),
{
    if a.len() > 0 && b.len() > 0 && a[0] == b[0] {
        lemma_lex_asymmetric(a.drop_first(), b.drop_first());
    }
}

pub proof fn lemma_lex_transitive(a: Seq<int>, b: Seq<int>, c: Seq<int>)
    ensures
        lex_lt(a, b) && lex_lt(b, c) ==> lex_lt(a, c),
    decreases a.len(),
{
    if a.len() > 0 && b.len() > 0 && c.len() > 0 && a[0] == b[0] && b[0] == c[0] {
        lemma_lex_transitive(a.drop_first(), b.drop_first(), c.drop_first());
    }
}

proof fn lemma_precedes_props(a: ProcessInfo, b: ProcessInfo, c: ProcessInfo, by: ProcessSort, reverse: bool)
    ensures
        !precedes(a, a, by, reverse),
        precedes(a, b, by, reverse) ==> !precedes(b, a, by, reverse),
        precedes(a, b, by, reverse) && precedes(b, c, by, reverse) ==> precedes(a, c, by, reverse),
        precedes(a, b, by, reverse) ==> sort_key(a, by) != sort_key(b, by),
        sort_key(a, by) == sort_key(b, by) ==> (precedes(a, c, by, reverse) == precedes(b, c, by, reverse)),
{
    lemma_lex_irreflexive(sort_key(a, by));
    lemma_lex_asymmetric(sort_key(a, by), sort_key(b, by));
    lemma_lex_transitive(sort_key(a, by), sort_key(b, by), sort_key(c, by));
    lemma_lex_transitive(sort_key(c, by), sort_key(b, by), sort_key(a, by));
}

proof fn lemma_with_key_concat(a: Seq<ProcessInfo>, b: Seq<ProcessInfo>, k: Seq<int>, by: ProcessSort)
    ensures
        with_key(a + b, k, by) == with_key(a, k, by) + with_key(b, k, by),
    decreases b.len(),
{
    if b.len() == 0 {
        assert(a + b =~= a);
        assert(with_key(a, k, by) + with_key(b, k, by) =~= with_key(a, k, by));
    } else {
        lemma_with_key_concat(a, b.drop_last(), k, by);
        assert((a + b).drop_last() =~= a + b.drop_last());
        assert((a + b).last() == b.last());
        if sort_key(b.last(), by) == k {
            assert(with_key(a, k, by) + with_key(b, k, by) =~= (with_key(a, k, by) + with_key(
                b.drop_last(),
                k,
                by,
            )).push(b.last()));
        }
    }
}

proof fn lemma_with_key_single(x: ProcessInfo, k: Seq<int>, by: ProcessSort)
    ensures
        with_key(seq![x], k, by) == (if sort_key(x, by) == k {
            seq![x]
        } else {
            Seq::<ProcessInfo>::empty()
        }),
{
    let s = seq![x];
    assert(s.len() == 1);
    assert(s.last() == x);
    assert(s.drop_last() =~= Seq::<ProcessInfo>::empty());
    assert(with_key(Seq::<ProcessInfo>::empty(), k, by) == Seq::<ProcessInfo>::empty());
    if sort_key(x, by) == k {
        assert(Seq::<ProcessInfo>::empty().push(x) =~= seq![x]);
    }
}

proof fn lemma_with_key_none(s: Seq<ProcessInfo>, k: Seq<int>, by: ProcessSort)
    requires
        forall|i: int| 0 <= i < s.len() ==> sort_key(#[trigger] s[i], by) != k,
    ensures
        with_key(s, k, by) == Seq::<ProcessInfo>::empty(),
    decreases s.len(),
{
    if s.len() > 0 {
        lemma_with_key_none(s.drop_last(), k, by);
        assert(sort_key(s[s.len() - 1], by) != k);
    }
}

// ---------------------------------------------------------------------------
// Executable functions
// ---------------------------------------------------------------------------

/// A field-by-field copy of a process entry.
pub fn copy_process(p: &ProcessInfo) -> (q: ProcessInfo)
    ensures
        q == *p,
{
    ProcessInfo {
        pid: p.pid,
        name: p.name.clone(),
        state: p.state,
        cpu_ticks: p.cpu_ticks,
        cpu_ticks_total: p.cpu_ticks_total,
        memory_bytes: p.memory_bytes,
        memory_total_bytes: p.memory_total_bytes,
        threads: p.threads,
    }
}

fn chars_lt(a: &[char], b: &[char]) -> (r: bool)
    ensures
        r == lex_lt(codes(a@), codes(b@)),
{
    let ghost ca = codes(a@);
    let ghost cb = codes(b@);
    let mut i: usize = 0;
    assert(ca.skip(0) =~= ca);
    assert(cb.skip(0) =~= cb);
    while i < a.len() && i < b.len() && (a[i] as u32) == (b[i] as u32)
        invariant
            i <= a.len(),
            i <= b.len(),
            ca == codes(a@),
            cb == codes(b@),
            lex_lt(ca, cb) == lex_lt(ca.skip(i as int), cb.skip(i as int)),
        decreases a.len() - i,
    {
        assert(ca.skip(i as int).drop_first() =~= ca.skip(i + 1));
        assert(cb.skip(i as int).drop_first() =~= cb.skip(i + 1));
        i = i + 1;
    }
    assert(ca.len() == a.len());
    assert(cb.len() == b.len());
    if i == a.len() {
        assert(ca.skip(i as int).len() == 0);
        assert(cb.skip(i as int).len() == b.len() - i);
        i < b.len()
    } else if i == b.len() {
        assert(ca.skip(i as int).len() > 0);
        assert(cb.skip(i as int).len() == 0);
        false
    } else {
        assert(ca.skip(i as int).len() > 0);
        assert(cb.skip(i as int).len() > 0);
        assert(ca.skip(i as int)[0] == (a@[i as int] as u32) as int);
        assert(cb.skip(i as int)[0] == (b@[i as int] as u32) as int);
        assert((a@[i as int] as u32) != (b@[i as int] as u32));
        let r = (a[i] as u32) < (b[i] as u32);
        assert(r == (((a@[i as int] as u32) as int) < ((b@[i as int] as u32) as int)));
        assert(r == lex_lt(ca.skip(i as int), cb.skip(i as int)));
        r
    }
}

/// For fractions with denominators below 2^64, a smaller fraction has a
/// smaller rounded-down 2^128 multiple.
proof fn lemma_scaled_order(n1: int, d1: int, n2: int, d2: int)
    requires
        0 <= n1,
        0 <= n2,
        1 <= d1 < 0x1_0000_0000_0000_0000,
        1 <= d2 < 0x1_0000_0000_0000_0000,
    ensures
        n1 * d2 < n2 * d1 ==> n1 * scale128() / d1 < n2 * scale128() / d2,
{
    let k = scale128();
    if n1 * d2 < n2 * d1 {
        let k1 = n1 * k / d1;
        let k2 = n2 * k / d2;
        assert(k1 * d1 <= n1 * k) by (nonlinear_arith)
            requires
                k1 == n1 * k / d1,
                d1 >= 1,
                n1 >= 0,
                k > 0,
        ;
        assert(n2 * k < k2 * d2 + d2) by (nonlinear_arith)
            requires
                k2 == n2 * k / d2,
                d2 >= 1,
                n2 >= 0,
                k > 0,
        ;
        assert(d1 * d2 < k) by (nonlinear_arith)
            requires
                1 <= d1 < 0x1_0000_0000_0000_0000,
                1 <= d2 < 0x1_0000_0000_0000_0000,
                k == 0x1_0000_0000_0000_0000_0000_0000_0000_0000int,
        ;
        if k2 <= k1 {
            assert(n2 * k * d1 < (k1 + 1) * d2 * d1) by (nonlinear_arith)
                requires
                    n2 * k < k2 * d2 + d2,
                    k2 <= k1,
                    d1 >= 1,
                    d2 >= 1,
            ;
            assert(n1 * k * d2 >= k1 * d1 * d2) by (nonlinear_arith)
                requires
                    k1 * d1 <= n1 * k,
                    d2 >= 1,
            ;
            assert(k * (n2 * d1 - n1 * d2) < d1 * d2) by (nonlinear_arith)
                requires
                    n2 * k * d1 < (k1 + 1) * d2 * d1,
                    n1 * k * d2 >= k1 * d1 * d2,
            ;
            assert(k * (n2 * d1 - n1 * d2) >= k) by (nonlinear_arith)
                requires
                    n2 * d1 - n1 * d2 >= 1,
                    k > 0,
            ;
        }
    }
}

/// Equal fractions have equal rounded-down 2^128 multiples.
proof fn lemma_scaled_equal(n1: int, d1: int, n2: int, d2: int)
    requires
        0 <= n1,
        0 <= n2,
        1 <= d1,
        1 <= d2,
    ensures
        n1 * d2 == n2 * d1 ==> n1 * scale128() / d1 == n2 * scale128() / d2,
{
    let k = scale128();
    if n1 * d2 == n2 * d1 {
        let k1 = n1 * k / d1;
        let k2 = n2 * k / d2;
        assert(k1 * d1 <= n1 * k && n1 * k < k1 * d1 + d1) by (nonlinear_arith)
            requires
                k1 == n1 * k / d1,
                d1 >= 1,
        ;
        assert(k2 * d2 <= n2 * k && n2 * k < k2 * d2 + d2) by (nonlinear_arith)
            requires
                k2 == n2 * k / d2,
                d2 >= 1,
        ;
        // k1 * d2 <= k2 * d2 + d2 and symmetrically, so k1 == k2.
        assert(k1 * d1 * d2 <= n2 * k * d1) by (nonlinear_arith)
            requires
                k1 * d1 <= n1 * k,
                n1 * d2 == n2 * d1,
                d2 >= 1,
        ;
        assert(k1 * d2 <= n2 * k) by (nonlinear_arith)
            requires
                k1 * d1 * d2 <= n2 * k * d1,
                d1 >= 1,
        ;
        assert(k1 <= k2) by (nonlinear_arith)
            requires
                k1 * d2 <= n2 * k,
                n2 * k < k2 * d2 + d2,
                d2 >= 1,
        ;
        assert(k2 * d2 * d1 <= n1 * k * d2) by (nonlinear_arith)
            requires
                k2 * d2 <= n2 * k,
                n1 * d2 == n2 * d1,
                d1 >= 1,
        ;
        assert(k2 * d1 <= n1 * k) by (nonlinear_arith)
            requires
                k2 * d2 * d1 <= n1 * k * d2,
                d2 >= 1,
        ;
        assert(k2 <= k1) by (nonlinear_arith)
            requires
                k2 * d1 <= n1 * k,
                n1 * k < k1 * d1 + d1,
                d1 >= 1,
        ;
    }
}

proof fn lemma_lex_single(x: int, y: int)
    ensures
        lex_lt(seq![x], seq![y]) == (x < y),
{
    let sx = seq![x];
    let sy = seq![y];
    assert(sx.len() == 1 && sx[0] == x);
    assert(sy.len() == 1 && sy[0] == y);
    assert(sx.drop_first() =~= Seq::<int>::empty());
    assert(sy.drop_first() =~= Seq::<int>::empty());
    assert(!lex_lt(Seq::<int>::empty(), Seq::<int>::empty()));
}

fn key_lt(a: &ProcessInfo, b: &ProcessInfo, by: ProcessSort) -> (r: bool)
    ensures
        r == lex_lt(sort_key(*a, by), sort_key(*b, by)),
{
    match by {
        ProcessSort::Cpu => {
            let (an, ad): (u64, u64) = if a.cpu_ticks_total == 0 {
                (0, 1)
            } else {
                (a.cpu_ticks, a.cpu_ticks_total)
            };
            let (bn, bd): (u64, u64) = if b.cpu_ticks_total == 0 {
                (0, 1)
            } else {
                (b.cpu_ticks, b.cpu_ticks_total)
            };
            assert((an as int) * (bd as int) <= u128::MAX) by (nonlinear_arith)
                requires
                    an <= u64::MAX,
                    bd <= u64::MAX,
            ;
            assert((bn as int) * (ad as int) <= u128::MAX) by (nonlinear_arith)
                requires
                    bn <= u64::MAX,
                    ad <= u64::MAX,
            ;
            let l: u128 = (an as u128) * (bd as u128);
            let r: u128 = (bn as u128) * (ad as u128);
            proof {
                lemma_lex_single(cpu_key(*a), cpu_key(*b));
                lemma_scaled_order(an as int, ad as int, bn as int, bd as int);
                lemma_scaled_order(bn as int, bd as int, an as int, ad as int);
                lemma_scaled_equal(an as int, ad as int, bn as int, bd as int);
            }
            l < r
        },
        ProcessSort::Memory => {
            proof {
                lemma_lex_single(a.memory_bytes as int, b.memory_bytes as int);
            }
            a.memory_bytes < b.memory_bytes
        },
        ProcessSort::Pid => {
            proof {
                lemma_lex_single(a.pid as int, b.pid as int);
            }
            a.pid < b.pid
        },
        ProcessSort::Name => {
            let an = a.name.as_str();
            let bn = b.name.as_str();
            let ac = crate::text::chars_of(an);
            let bc = crate::text::chars_of(bn);
            chars_lt(ac.as_slice(), bc.as_slice())
        },
    }
}

fn precedes_exec(a: &ProcessInfo, b: &ProcessInfo, by: ProcessSort, reverse: bool) -> (r: bool)
    ensures
        r == precedes(*a, *b, by, reverse),
{
    if reverse {
        key_lt(b, a, by)
    } else {
        key_lt(a, b, by)
    }
}

/// The processes stably sorted by the column `by`, ascending, or descending
/// when `reverse` is set; processes with equal keys keep their order.
pub fn sort_processes(procs: &[ProcessInfo], by: ProcessSort, reverse: bool) -> (r: Vec<ProcessInfo>)
    ensures
        stable_sorted(r@, procs@, by, reverse),
{
    let mut r: Vec<ProcessInfo> = Vec::new();
    let mut i: usize = 0;
    while i < procs.len()
        invariant
            i <= procs.len(),
            r@.len() == i,
            is_ordered(r@, by, reverse),
            forall|k: Seq<int>| #[trigger] with_key(r@, k, by) == with_key(procs@.take(i as int), k, by),
        decreases procs.len() - i,
    {
        let x = copy_process(&procs[i]);
        // The first position whose entry x strictly precedes.
        let mut pos: usize = 0;
        while pos < r.len() && !precedes_exec(&x, &r[pos as usize], by, reverse)
            invariant
                pos <= r.len(),
                forall|j: int| 0 <= j < pos ==> !precedes(x, #[trigger] r@[j], by, reverse),
            decreases r.len() - pos,
        {
            pos = pos + 1;
        }
        let ghost old_r = r@;
        proof {
            // Every entry from `pos` on comes strictly after x, and so has a
            // different key and does not precede it.
            assert forall|m: int| pos <= m < old_r.len() implies precedes(x, #[trigger] old_r[m], by, reverse) by {
                assert(precedes(x, old_r[pos as int], by, reverse));
                if m > pos {
                    lemma_precedes_props(x, old_r[pos as int], old_r[m], by, reverse);
                    lemma_precedes_props(old_r[m], x, old_r[pos as int], by, reverse);
                    lemma_precedes_props(old_r[m], old_r[pos as int], x, by, reverse);
                    lemma_precedes_props(old_r[pos as int], old_r[m], x, by, reverse);
                    lemma_precedes_props(x, old_r[m], old_r[pos as int], by, reverse);
                    assert(!precedes(old_r[m], old_r[pos as int], by, reverse));
                    // total order on keys: either x precedes old_r[m] or not
                    if !precedes(x, old_r[m], by, reverse) {
                        lemma_lex_total(sort_key(x, by), sort_key(old_r[m], by));
                        if sort_key(x, by) == sort_key(old_r[m], by) {
                            lemma_precedes_props(old_r[m], x, old_r[pos as int], by, reverse);
                        }
                    }
                }
            }
        }
        r.insert(pos, x);
        proof {
            let nr = r@;
            assert(nr =~= old_r.take(pos as int) + seq![x] + old_r.skip(pos as int));
            assert forall|a: int, b: int| 0 <= a < b < nr.len() implies !precedes(#[trigger] nr[b], #[trigger] nr[a], by, reverse) by {
                if b < pos {
                    assert(nr[a] == old_r[a] && nr[b] == old_r[b]);
                } else if b == pos {
                    assert(nr[a] == old_r[a]);
                } else if a == pos {
                    assert(nr[b] == old_r[b - 1]);
                    lemma_precedes_props(x, old_r[b - 1], x, by, reverse);
                } else if a < pos {
                    assert(nr[a] == old_r[a] && nr[b] == old_r[b - 1]);
                } else {
                    assert(nr[a] == old_r[a - 1] && nr[b] == old_r[b - 1]);
                }
            }
            let t = procs@.take(i as int);
            assert(procs@.take(i + 1) =~= t.push(procs@[i as int]));
            assert forall|k: Seq<int>| #[trigger] with_key(nr, k, by) == with_key(procs@.take(i + 1), k, by) by {
                let front = old_r.take(pos as int);
                let back = old_r.skip(pos as int);
                assert(old_r =~= front + back);
                lemma_with_key_concat(front, back, k, by);
                lemma_with_key_concat(front + seq![x], back, k, by);
                lemma_with_key_concat(front, seq![x], k, by);
                assert(procs@.take(i + 1).drop_last() =~= t);
                if sort_key(x, by) == k {
                    assert forall|m: int| 0 <= m < back.len() implies sort_key(#[trigger] back[m], by) != k by {
                        assert(back[m] == old_r[pos + m]);
                        lemma_precedes_props(x, old_r[pos + m], x, by, reverse);
                    }
                    lemma_with_key_none(back, k, by);
                    assert(with_key(seq![x], k, by) =~= seq![x]) by {
                        lemma_with_key_single(x, k, by);
                    }
                    assert(with_key(front, k, by) + with_key(back, k, by) =~= with_key(front, k, by));
                    assert(with_key(nr, k, by) =~= with_key(old_r, k, by).push(x));
                } else {
                    assert(with_key(seq![x], k, by) =~= Seq::<ProcessInfo>::empty()) by {
                        lemma_with_key_single(x, k, by);
                    }
                    assert(with_key(front, k, by) + Seq::<ProcessInfo>::empty() =~= with_key(front, k, by));
                    assert(with_key(nr, k, by) =~= with_key(old_r, k, by));
                }
            }
        }
        i = i + 1;
    }
    assert(procs@.take(procs.len() as int) =~= procs@);
    r
}

/// A process is among those of `s` with key `k` exactly when it is in `s`
/// and has that key.
proof fn lemma_with_key_contains(s: Seq<ProcessInfo>, k: Seq<int>, by: ProcessSort, x: ProcessInfo)
    ensures
        with_key(s, k, by).contains(x) <==> (s.contains(x) && sort_key(x, by) == k),
    decreases s.len(),
{
    if s.len() > 0 {
        lemma_with_key_contains(s.drop_last(), k, by, x);
        assert(s =~= s.drop_last().push(s.last()));
        let w = with_key(s.drop_last(), k, by);
        if s.contains(x) && sort_key(x, by) == k {
            if x == s.last() {
                assert(w.push(x)[w.len() as int] == x);
            } else {
                let i = choose|i: int| 0 <= i < s.len() && s[i] == x;
                assert(s.drop_last()[i] == x);
                let j = choose|j: int| 0 <= j < w.len() && w[j] == x;
                if sort_key(s.last(), by) == k {
                    assert(w.push(s.last())[j] == x);
                }
            }
        }
        if with_key(s, k, by).contains(x) {
            let j = choose|j: int| 0 <= j < with_key(s, k, by).len() && with_key(s, k, by)[j] == x;
            if sort_key(s.last(), by) == k && j == w.len() {
                assert(s[s.len() - 1] == x);
            } else {
                assert(w[j] == x);
                let i = choose|i: int| 0 <= i < s.drop_last().len() && s.drop_last()[i] == x;
                assert(s[i] == x);
            }
        }
    }
}

/// The top-N law: in a stable sort by descending CPU share, every process
/// past the first `m` has a CPU share no higher than each of the first `m`,
/// and every process of the input is somewhere in the sorted list, so the
/// first `m` are kept and each one left out is among the rest.
pub proof fn lemma_top_n_keeps_largest(full: Seq<ProcessInfo>, input: Seq<ProcessInfo>, m: int)
    requires
        stable_sorted(full, input, ProcessSort::Cpu, true),
        0 <= m <= full.len(),
    ensures
        forall|i: int, j: int|
            0 <= i < m <= j < full.len() ==> cpu_key(#[trigger] full[j]) <= cpu_key(#[trigger] full[i]),
        forall|x: ProcessInfo| input.contains(x) ==> full.contains(x),
{
    assert forall|i: int, j: int| 0 <= i < m <= j < full.len() implies cpu_key(#[trigger] full[j])
        <= cpu_key(#[trigger] full[i]) by {
        assert(!precedes(full[j], full[i], ProcessSort::Cpu, true));
        let a = seq![cpu_key(full[i])];
        let b = seq![cpu_key(full[j])];
        assert(a.drop_first() =~= Seq::<int>::empty());
        assert(b.drop_first() =~= Seq::<int>::empty());
        assert(!lex_lt(a, b));
    }
    assert forall|x: ProcessInfo| input.contains(x) implies full.contains(x) by {
        let k = sort_key(x, ProcessSort::Cpu);
        lemma_with_key_contains(input, k, ProcessSort::Cpu, x);
        lemma_with_key_contains(full, k, ProcessSort::Cpu, x);
        assert(with_key(full, k, ProcessSort::Cpu) == with_key(input, k, ProcessSort::Cpu));
    }
}

/// Two different keys are ordered one way or the other.
pub proof fn lemma_lex_total(a: Seq<int>, b: Seq<int>)
    ensures
        a == b || lex_lt(a, b) || lex_lt(b, a),
    decreases a.len(),
{
    if a.len() > 0 && b.len() > 0 && a[0] == b[0] {
        lemma_lex_total(a.drop_first(), b.drop_first());
        if a.drop_first() == b.drop_first() {
            assert(a =~= seq![a[0]] + a.drop_first());
            assert(b =~= seq![b[0]] + b.drop_first());
        }
    } else if a.len() == 0 && b.len() == 0 {
        assert(a =~= b);
    }
}

} // verus!
