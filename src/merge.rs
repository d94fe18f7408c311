use vstd::prelude::*;
use vstd::arithmetic::div_mod::{lemma_fundamental_div_mod, lemma_fundamental_div_mod_converse};

verus! {

/// One merged rectangle of equal mask codes: in layer `layer` of the sweep
/// along `axis`, it covers plane cells `u .. u + w` along the first tangent
/// axis and `v .. v + h` along the second.
#[derive(Clone, Copy, Debug, PartialEq, Eq)]
pub struct Quad {
    pub axis: usize,
    pub layer: usize,
    pub u: usize,
    pub v: usize,
    pub w: usize,
    pub h: usize,
    pub code: i64,
}

/// How many cells after the first `h` cells from `n` onward, up to `lim`
/// in all, repeat the code `c`, stopping at the first that differs.
pub open spec fn grow_h(p: Seq<i64>, n: int, c: i64, h: int, lim: int) -> nat
    decreases lim - h,
{
    if h < lim && p[n + h] == c {
        1 + grow_h(p, n, c, h + 1, lim)
    } else {
        0
    }
}

/// The `h` cells from `s` onward all hold code `c`.
pub open spec fn strip_eq(p: Seq<i64>, s: int, c: i64, h: int) -> bool {
    forall|x: int| 0 <= x < h ==> #[trigger] p[s + x] == c
}

/// How many rows after the first `w` rows of width `h` from `n` onward, up to
/// `lim` rows in all, repeat the code `c`, stopping at the first that does not.
pub open spec fn grow_w(p: Seq<i64>, n: int, c: i64, h: int, lv: int, w: int, lim: int) -> nat
    decreases lim - w,
{
    if w < lim && strip_eq(p, n + w * lv, c, h) {
        1 + grow_w(p, n, c, h, lv, w + 1, lim)
    } else {
        0
    }
}

/// Flat index `i` of a plane with rows of length `lv` lies in the rectangle
/// of rows `a .. a + w` and columns `b .. b + h`.
pub open spec fn in_rect(i: int, lv: int, a: int, b: int, w: int, h: int) -> bool {
    a <= i / lv < a + w && b <= i % lv < b + h
}

/// The plane with the rectangle's cells set to zero.
pub open spec fn clear_rect(p: Seq<i64>, lv: int, a: int, b: int, w: int, h: int) -> Seq<i64> {
    Seq::new(p.len(), |i: int| if in_rect(i, lv, a, b, w, h) { 0 } else { p[i] })
}

/// The quads that the greedy merge emits over a plane of `lu` rows of `lv`
/// cells, from row `a`, column `b` on. At each nonzero cell met in row-major
/// order, the run grows along the row while the code repeats, then grows
/// over further rows while each whole strip repeats it; the rectangle is
/// emitted and cleared, and the scan goes on after it.
pub open spec fn scan(p: Seq<i64>, lu: int, lv: int, d: int, k: int, a: int, b: int) -> Seq<Quad>
    decreases lu - a, (if b < lv { lv - b } else { 0 }),
{
    if a >= lu || a < 0 || b < 0 {
        seq![]
    } else if b >= lv {
        scan(p, lu, lv, d, k, a + 1, 0)
    } else {
        let n = a * lv + b;
        let c = p[n];
        if c == 0 {
            scan(p, lu, lv, d, k, a, b + 1)
        } else {
            let h: int = (1 + grow_h(p, n, c, 1, lv - b)) as int;
            let w: int = (1 + grow_w(p, n, c, h, lv, 1, lu - a)) as int;
            let q = Quad {
                axis: d as usize,
                layer: k as usize,
                u: a as usize,
                v: b as usize,
                w: w as usize,
                h: h as usize,
                code: c,
            };
            seq![q] + scan(clear_rect(p, lv, a, b, w, h), lu, lv, d, k, a, b + h)
        }
    }
}

/// A run grows no further than its limit.
pub(crate) proof fn lemma_grow_h_bound(p: Seq<i64>, n: int, c: i64, h: int, lim: int)
    requires
        h <= lim,
    ensures
        h + grow_h(p, n, c, h, lim) <= lim,
    decreases lim - h,
{
    if h < lim && p[n + h] == c {
        lemma_grow_h_bound(p, n, c, h + 1, lim);
    }
}

/// A rectangle grows over no more rows than its limit.
pub(crate) proof fn lemma_grow_w_bound(p: Seq<i64>, n: int, c: i64, h: int, lv: int, w: int, lim: int)
    requires
        w <= lim,
    ensures
        w + grow_w(p, n, c, h, lv, w, lim) <= lim,
    decreases lim - w,
{
    if w < lim && strip_eq(p, n + w * lv, c, h) {
        lemma_grow_w_bound(p, n, c, h, lv, w + 1, lim);
    }
}

/// The height of the run of code `c` that starts at `n`, at most `lim`.
fn run_height(m: &Vec<i64>, n: usize, c: i64, lim: usize) -> (h: usize)
    requires
        1 <= lim,
        n + lim <= m@.len(),
    ensures
        h == 1 + grow_h(m@, n as int, c, 1, lim as int),
        1 <= h <= lim,
{
    let len = m.len();
    let mut h: usize = 1;
    proof {
        lemma_grow_h_bound(m@, n as int, c, 1, lim as int);
    }
    while h < lim && m[n + h] == c
        invariant
            1 <= h <= lim,
            n + lim <= m@.len(),
            len == m@.len(),
            h + grow_h(m@, n as int, c, h as int, lim as int) == 1 + grow_h(m@, n as int, c, 1, lim as int),
        decreases lim - h,
    {
        h += 1;
    }
    h
}

/// The `h` cells from `s` onward all hold code `c`.
fn strip_matches(m: &Vec<i64>, s: usize, c: i64, h: usize) -> (r: bool)
    requires
        s + h <= m@.len(),
    ensures
        r == strip_eq(m@, s as int, c, h as int),
{
    let len = m.len();
    let mut x: usize = 0;
    while x < h
        invariant
            x <= h,
            len == m@.len(),
            s + h <= m@.len(),
            strip_eq(m@, s as int, c, x as int),
        decreases h - x,
    {
        if m[s + x] != c {
            return false;
        }
        x += 1;
    }
    true
}

/// The number of rows, at most `lim`, over which the strip of `h` cells of
/// code `c` at `n` repeats, rows being `lv` cells apart.
fn run_width(m: &Vec<i64>, n: usize, c: i64, h: usize, lv: usize, lim: usize) -> (w: usize)
    requires
        1 <= lim,
        n + (lim - 1) * lv + h <= m@.len(),
    ensures
        w == 1 + grow_w(m@, n as int, c, h as int, lv as int, 1, lim as int),
        1 <= w <= lim,
{
    let len = m.len();
    let mut w: usize = 1;
    proof {
        lemma_grow_w_bound(m@, n as int, c, h as int, lv as int, 1, lim as int);
    }
    while w < lim
        invariant
            1 <= w <= lim,
            n + (lim - 1) * lv + h <= m@.len(),
            len == m@.len(),
            w + grow_w(m@, n as int, c, h as int, lv as int, w as int, lim as int)
                == 1 + grow_w(m@, n as int, c, h as int, lv as int, 1, lim as int),
        ensures
            1 <= w <= lim,
            w == 1 + grow_w(m@, n as int, c, h as int, lv as int, 1, lim as int),
        decreases lim - w,
    {
        proof {
            assert(0 <= w * lv <= (lim - 1) * lv) by (nonlinear_arith)
                requires w <= lim - 1,
            {}
        }
        let nw = n + w * lv;
        if !strip_matches(m, nw, c, h) {
            assert(grow_w(m@, n as int, c, h as int, lv as int, w as int, lim as int) == 0);
            break;
        }
        w += 1;
    }
    w
}

/// The plane with the first `x` rows of the rectangle, and the first `y`
/// cells of row `x`, set to zero.
spec fn clear_part(p: Seq<i64>, lv: int, a: int, b: int, x: int, h: int, y: int) -> Seq<i64> {
    Seq::new(
        p.len(),
        |i: int| if in_rect(i, lv, a, b, x, h) || in_rect(i, lv, a + x, b, 1, y) { 0 } else { p[i] },
    )
}

/// Sets the cells of the rectangle of rows `a .. a + w` and columns
/// `b .. b + h` to zero.
fn clear_run(m: &mut Vec<i64>, lv: usize, a: usize, b: usize, w: usize, h: usize)
    requires
        1 <= h,
        b + h <= lv,
        (a + w) * lv <= old(m)@.len(),
    ensures
        final(m)@ == clear_rect(old(m)@, lv as int, a as int, b as int, w as int, h as int),
{
    let ghost p0 = m@;
    let len = m.len();
    let mut x: usize = 0;
    proof {
        assert(m@ =~= clear_rect(p0, lv as int, a as int, b as int, 0, h as int));
    }
    while x < w
        invariant
            x <= w,
            1 <= h,
            b + h <= lv,
            (a + w) * lv <= p0.len(),
            len == p0.len(),
            m@ == clear_rect(p0, lv as int, a as int, b as int, x as int, h as int),
        decreases w - x,
    {
        proof {
            assert((a + x + 1) * lv <= (a + w) * lv) by (nonlinear_arith)
                requires x + 1 <= w,
            {}
            assert((a + x + 1) * lv == (a + x) * lv + lv) by (nonlinear_arith);
            assert(a + w <= (a + w) * lv) by (nonlinear_arith)
                requires lv >= 1,
            {}
        }
        let row = (a + x) * lv + b;
        let mut y: usize = 0;
        proof {
            assert(m@ =~= clear_part(p0, lv as int, a as int, b as int, x as int, h as int, 0));
        }
        while y < h
            invariant
                x < w,
                y <= h,
                b + h <= lv,
                row == (a + x) * lv + b,
                row + h <= p0.len(),
                len == p0.len(),
                m@ == clear_part(p0, lv as int, a as int, b as int, x as int, h as int, y as int),
            decreases h - y,
        {
            let j = row + y;
            proof {
                lemma_fundamental_div_mod_converse(j as int, lv as int, (a + x) as int, (b + y) as int);
            }
            let ghost before = m@;
            m.set(j, 0);
            proof {
                assert forall|i: int| 0 <= i < p0.len() implies m@[i] == clear_part(
                    p0, lv as int, a as int, b as int, x as int, h as int, (y + 1) as int)[i] by {
                    lemma_fundamental_div_mod(i, lv as int);
                    if i != j {
                        assert(m@[i] == before[i]);
                        if i / (lv as int) == a + x && i % (lv as int) == b + y {
                            assert(i == (lv as int) * (a + x) + (b + y));
                            assert((lv as int) * (a + x) == (a + x) * (lv as int)) by (nonlinear_arith);
                        }
                    }
                }
                assert(m@ =~= clear_part(p0, lv as int, a as int, b as int, x as int, h as int, (y + 1) as int));
            }
            y += 1;
        }
        proof {
            assert(m@ =~= clear_rect(p0, lv as int, a as int, b as int, (x + 1) as int, h as int));
        }
        x += 1;
    }
}

proof fn lemma_grow_h_prefix(p: Seq<i64>, q: Seq<i64>, n: int, c: i64, h: int, lim: int)
    requires
        0 <= n && 0 <= h,
        n + lim <= q.len() <= p.len(),
        forall|i: int| 0 <= i < q.len() ==> p[i] == q[i],
    ensures
        grow_h(p, n, c, h, lim) == grow_h(q, n, c, h, lim),
    decreases lim - h,
{
    if h < lim {
        assert(p[n + h] == q[n + h]);
        lemma_grow_h_prefix(p, q, n, c, h + 1, lim);
    }
}

proof fn lemma_grow_w_prefix(p: Seq<i64>, q: Seq<i64>, n: int, c: i64, h: int, lv: int, w: int, lim: int)
    requires
        0 <= n && 0 <= lv && 1 <= w,
        n + (lim - 1) * lv + h <= q.len() <= p.len(),
        forall|i: int| 0 <= i < q.len() ==> p[i] == q[i],
    ensures
        grow_w(p, n, c, h, lv, w, lim) == grow_w(q, n, c, h, lv, w, lim),
    decreases lim - w,
{
    if w < lim {
        assert(w * lv <= (lim - 1) * lv) by (nonlinear_arith)
            requires w <= lim - 1, lv >= 0;
        assert(0 <= w * lv) by (nonlinear_arith)
            requires w >= 1, lv >= 0;
        assert(strip_eq(p, n + w * lv, c, h) == strip_eq(q, n + w * lv, c, h)) by {
            assert forall|x: int| 0 <= x < h implies #[trigger] p[n + w * lv + x] == q[n + w * lv + x] by {}
        }
        lemma_grow_w_prefix(p, q, n, c, h, lv, w + 1, lim);
    }
}

/// Runs the greedy merge over the first `lu * lv` cells of `m`, a plane of
/// `lu` rows of `lv` mask codes, the layer `k` of the sweep along axis `d`,
/// and appends the quads it emits. Every cell of the plane is zero after
/// it; the cells past the plane are left as they were.
pub fn merge_plane(m: &mut Vec<i64>, lu: usize, lv: usize, d: usize, k: usize, out: &mut Vec<Quad>)
    requires
        old(m)@.len() >= lu * lv,
    ensures
        final(out)@ == old(out)@ + scan(old(m)@.subrange(0, lu * lv), lu as int, lv as int, d as int, k as int, 0, 0),
        final(m)@.len() == old(m)@.len(),
        forall|i: int| 0 <= i < lu * lv ==> final(m)@[i] == 0,
        forall|i: int| lu * lv <= i < old(m)@.len() ==> final(m)@[i] == old(m)@[i],
{
    let ghost p0 = m@;
    let ghost out0 = out@;
    let ghost area = lu * lv;
    let ghost target = out0 + scan(p0.subrange(0, area), lu as int, lv as int, d as int, k as int, 0, 0);
    let len = m.len();
    let mut iu: usize = 0;
    proof {
        assert(iu * lv == 0);
    }
    while iu < lu
        invariant
            iu <= lu,
            area == lu * lv,
            m@.len() == len,
            len == p0.len(),
            len >= area,
            out@ + scan(m@.subrange(0, area), lu as int, lv as int, d as int, k as int, iu as int, 0) == target,
            forall|i: int| 0 <= i < iu * lv ==> m@[i] == 0,
            forall|i: int| area <= i < len ==> m@[i] == p0[i],
        decreases lu - iu,
    {
        let mut iv: usize = 0;
        proof {
            assert(iu * lv + lv <= lu * lv) by (nonlinear_arith)
                requires iu + 1 <= lu,
            {}
            assert(iu * lv + lv == (iu + 1) * lv) by (nonlinear_arith);
            assert(iu * lv >= 0) by (nonlinear_arith);
        }
        while iv < lv
            invariant
                iu < lu,
                iv <= lv,
                area == lu * lv,
                iu * lv + lv <= lu * lv,
                iu * lv + lv == (iu + 1) * lv,
                iu * lv >= 0,
                m@.len() == len,
                len == p0.len(),
                len >= area,
                out@ + scan(m@.subrange(0, area), lu as int, lv as int, d as int, k as int, iu as int, iv as int) == target,
                forall|i: int| 0 <= i < iu * lv + iv ==> m@[i] == 0,
                forall|i: int| area <= i < len ==> m@[i] == p0[i],
            decreases lv - iv,
        {
            let n = iu * lv + iv;
            let c = m[n];
            let ghost mb = m@;
            let ghost sb = m@.subrange(0, area);
            let ghost ob = out@;
            if c == 0 {
                iv += 1;
            } else {
                let h = run_height(m, n, c, lv - iv);
                proof {
                    lemma_grow_h_prefix(mb, sb, n as int, c, 1, (lv - iv) as int);
                    assert(n + (lu - iu - 1) * lv + h <= lu * lv) by (nonlinear_arith)
                        requires n == iu * lv + iv, iv + h <= lv, iu < lu,
                    {}
                }
                let w = run_width(m, n, c, h, lv, lu - iu);
                proof {
                    lemma_grow_w_prefix(mb, sb, n as int, c, h as int, lv as int, 1, (lu - iu) as int);
                    assert((iu + w) * lv <= lu * lv) by (nonlinear_arith)
                        requires iu + w <= lu,
                    {}
                }
                let q = Quad { axis: d, layer: k, u: iu, v: iv, w, h, code: c };
                out.push(q);
                clear_run(m, lv, iu, iv, w, h);
                proof {
                    assert(m@.subrange(0, area) =~= clear_rect(sb, lv as int, iu as int, iv as int, w as int, h as int));
                    let rest = scan(m@.subrange(0, area), lu as int, lv as int, d as int, k as int, iu as int, (iv + h) as int);
                    assert(sb[n as int] == c);
                    assert(scan(sb, lu as int, lv as int, d as int, k as int, iu as int, iv as int)
                        == seq![q] + rest);
                    assert(ob + (seq![q] + rest) == ob.push(q) + rest);
                    assert forall|i: int| 0 <= i < iu * lv + iv + h implies m@[i] == 0 by {
                        if i >= iu * lv + iv {
                            lemma_fundamental_div_mod_converse(i, lv as int, iu as int, i - iu * lv);
                        }
                    }
                    assert forall|i: int| area <= i < len implies m@[i] == p0[i] by {
                        lemma_fundamental_div_mod(i, lv as int);
                        if i / (lv as int) < iu + w {
                            assert((lv as int) * (i / (lv as int)) + i % (lv as int) < lu * lv) by (nonlinear_arith)
                                requires i / (lv as int) < iu + w, iu + w <= lu, i % (lv as int) < lv, lv >= 1;
                        }
                    }
                }
                iv += h;
            }
        }
        iu += 1;
    }
    proof {
        assert(lu * lv == iu * lv);
    }
}

} // verus!
