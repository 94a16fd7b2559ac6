//! Gradient noise: a table of random unit gradients and three index
//! scramble tables, trilinearly interpolated with a smoothstep fade.

use vstd::prelude::*;
use crate::fx::{SCALE, WMAX, fx_mul, fx_floor, fx_floor_spec, fx_mul_spec, tdiv, lemma_fx_mul_val_bound, lemma_tdiv_bounds};
use crate::vec3::{Vec3, Point3, vec_in_range, lemma_dot_bound};
use crate::utils::randuint;

verus! {

/// Bound on one gradient component: normalized gradients stay within a few
/// units even with fixed-point rounding.
pub const GLIM: i128 = 262144;

/// Bound on the magnitude of one noise sample.
pub const NOISE_LIM: i128 = 5722049568;

/// Bound on the magnitude of a turbulence sum.
pub const TURB_LIM: i128 = 11444289536;

pub struct Perlin {
    point_count: usize,
    rand_vec: Vec<Vec3>,
    perm_x: Vec<usize>,
    perm_y: Vec<usize>,
    perm_z: Vec<usize>,
}

impl Perlin {
    /// The gradient and scramble tables have 256 entries; every gradient is
    /// bounded and every scramble entry indexes the gradient table.
    pub closed spec fn wf(&self) -> bool {
        &&& self.point_count == 256
        &&& self.rand_vec.len() == 256
        &&& forall|i: int| 0 <= i < 256 ==> vec_in_range(#[trigger] self.rand_vec[i], GLIM as int)
        &&& self.perm_x.len() == 256
        &&& self.perm_y.len() == 256
        &&& self.perm_z.len() == 256
        &&& forall|i: int| 0 <= i < 256 ==> #[trigger] self.perm_x[i] < 256
        &&& forall|i: int| 0 <= i < 256 ==> #[trigger] self.perm_y[i] < 256
        &&& forall|i: int| 0 <= i < 256 ==> #[trigger] self.perm_z[i] < 256
    }

    pub fn new() -> (r: Perlin)
        ensures
            r.wf(),
    {
        let pointcount: usize = 256;
        let mut rand_vec: Vec<Vec3> = Vec::new();
        let mut filled: usize = 0;
        while filled < 256
            invariant
                filled <= 256,
                rand_vec.len() == filled,
                forall|i: int|
                    0 <= i < filled ==> vec_in_range(#[trigger] rand_vec[i], GLIM as int),
            decreases 256 - filled,
        {
            let raw = crate::vec3::random_in_unit_sphere();
            let g = raw.normalize();
            let bounded = g.x >= -GLIM && g.x <= GLIM && g.y >= -GLIM && g.y <= GLIM && g.z
                >= -GLIM && g.z <= GLIM;
            if bounded {
                rand_vec.push(g);
            } else {
                rand_vec.push(Vec3 { x: SCALE, y: 0, z: 0 });
            }
            filled = filled + 1;
        }
        let perm_x = Self::generate_perm(pointcount);
        let perm_y = Self::generate_perm(pointcount);
        let perm_z = Self::generate_perm(pointcount);
        Perlin { point_count: pointcount, rand_vec, perm_x, perm_y, perm_z }
    }

    /// An index table: the identity table scrambled by random swaps whose
    /// sources are read from the unscrambled copy, so every entry still
    /// indexes the gradient table.
    fn generate_perm(pointcount: usize) -> (r: Vec<usize>)
        requires
            pointcount == 256,
        ensures
            r.len() == 256,
            forall|i: int| 0 <= i < 256 ==> #[trigger] r[i] < 256,
    {
        let mut perm: Vec<usize> = Vec::new();
        let mut i: usize = 0;
        while i < pointcount
            invariant
                pointcount == 256,
                i <= 256,
                perm.len() == i,
                forall|k: int| 0 <= k < i ==> #[trigger] perm[k] < 256,
            decreases 256 - i,
        {
            perm.push(i);
            i = i + 1;
        }
        Self::permute(perm, pointcount)
    }

    fn permute(perm: Vec<usize>, n: usize) -> (r: Vec<usize>)
        requires
            n == 256,
            perm.len() == 256,
            forall|k: int| 0 <= k < 256 ==> #[trigger] perm[k] < 256,
        ensures
            r.len() == 256,
            forall|k: int| 0 <= k < 256 ==> #[trigger] r[k] < 256,
    {
        let mut new_perm: Vec<usize> = perm.clone();
        let mut i: usize = n - 1;
        while i >= 1
            invariant
                perm.len() == 256,
                new_perm.len() == 256,
                i <= 255,
                forall|k: int| 0 <= k < 256 ==> #[trigger] perm[k] < 256,
                forall|k: int| 0 <= k < 256 ==> #[trigger] new_perm[k] < 256,
            decreases i,
        {
            let target = randuint(0, i);
            let a = perm[target];
            let b = perm[i];
            new_perm.set(i, a);
            new_perm.set(target, b);
            i = i - 1;
        }
        new_perm
    }

    /// The lattice gradient for integer cell coordinates, at spec level:
    /// indices reduced modulo the table size, scrambled and folded by xor.
    pub closed spec fn corner_spec(&self, i: int, j: int, k: int) -> Vec3 {
        let mi = i % 256;
        let mj = j % 256;
        let mk = k % 256;
        let idx = (self.perm_x[mi] ^ self.perm_y[mj] ^ self.perm_z[mk]) as int;
        self.rand_vec[idx]
    }

    /// The smoothstep fade t * t * (3 - 2t), at spec level.
    pub open spec fn fade_spec(t: int) -> int {
        fx_mul_spec(fx_mul_spec(t, t), 3 * SCALE as int - 2 * t)
    }

    /// One corner's fade weight factor, at spec level.
    pub open spec fn fade_mix_spec(sel: int, smooth: int) -> int {
        if sel == 1 {
            smooth
        } else {
            SCALE as int - smooth
        }
    }

    /// One corner's contribution, at spec level: the three fade factors
    /// times the gradient's dot product with the offset to the corner.
    pub closed spec fn term_spec(
        &self,
        i: int,
        j: int,
        k: int,
        di: int,
        dj: int,
        dk: int,
        u: int,
        v: int,
        w: int,
        uu: int,
        vv: int,
        ww: int,
    ) -> int {
        let g = self.corner_spec(i + di, j + dj, k + dk);
        let weight = Vec3 {
            x: (u - di * SCALE) as i128,
            y: (v - dj * SCALE) as i128,
            z: (w - dk * SCALE) as i128,
        };
        let ws = fx_mul_spec(
            fx_mul_spec(Self::fade_mix_spec(di, uu), Self::fade_mix_spec(dj, vv)),
            Self::fade_mix_spec(dk, ww),
        );
        fx_mul_spec(ws, crate::vec3::dot_spec(g, weight))
    }

    /// The noise value at a point, at spec level: the eight corner
    /// contributions of the containing lattice cell.
    pub closed spec fn noise_spec(&self, point: Point3) -> int {
        let u = point.x - fx_floor_spec(point.x as int);
        let v = point.y - fx_floor_spec(point.y as int);
        let w = point.z - fx_floor_spec(point.z as int);
        let i = tdiv(fx_floor_spec(point.x as int), SCALE as int);
        let j = tdiv(fx_floor_spec(point.y as int), SCALE as int);
        let k = tdiv(fx_floor_spec(point.z as int), SCALE as int);
        let uu = Self::fade_spec(u);
        let vv = Self::fade_spec(v);
        let ww = Self::fade_spec(w);
        self.term_spec(i, j, k, 0, 0, 0, u, v, w, uu, vv, ww) + self.term_spec(
            i,
            j,
            k,
            0,
            0,
            1,
            u,
            v,
            w,
            uu,
            vv,
            ww,
        ) + self.term_spec(i, j, k, 0, 1, 0, u, v, w, uu, vv, ww) + self.term_spec(
            i,
            j,
            k,
            0,
            1,
            1,
            u,
            v,
            w,
            uu,
            vv,
            ww,
        ) + self.term_spec(i, j, k, 1, 0, 0, u, v, w, uu, vv, ww) + self.term_spec(
            i,
            j,
            k,
            1,
            0,
            1,
            u,
            v,
            w,
            uu,
            vv,
            ww,
        ) + self.term_spec(i, j, k, 1, 1, 0, u, v, w, uu, vv, ww) + self.term_spec(
            i,
            j,
            k,
            1,
            1,
            1,
            u,
            v,
            w,
            uu,
            vv,
            ww,
        )
    }

    /// A point with each in-range component doubled (the octave lattice
    /// step), at spec level.
    pub open spec fn octave_step_spec(p: Point3) -> Point3 {
        Vec3 {
            x: if -562949953421312 <= p.x <= 562949953421312 {
                (2 * p.x) as i128
            } else {
                p.x
            },
            y: if -562949953421312 <= p.y <= 562949953421312 {
                (2 * p.y) as i128
            } else {
                p.y
            },
            z: if -562949953421312 <= p.z <= 562949953421312 {
                (2 * p.z) as i128
            } else {
                p.z
            },
        }
    }

    /// The signed octave sum of the turbulence, at spec level.
    pub closed spec fn turb_sum_spec(&self, p: Point3, weight: int, depth: int) -> int
        decreases depth,
    {
        if depth <= 0 {
            0
        } else {
            fx_mul_spec(weight, self.noise_spec(p)) + self.turb_sum_spec(
                Self::octave_step_spec(p),
                weight / 2,
                depth - 1,
            )
        }
    }

    /// The turbulence magnitude, at spec level.
    pub closed spec fn turb_spec(&self, p: Point3, depth: int) -> int {
        let acc = self.turb_sum_spec(p, SCALE as int, depth);
        if acc < 0 {
            -acc
        } else {
            acc
        }
    }

    /// The gradient for the lattice corner at integer offsets (di, dj, dk)
    /// from the cell base (i, j, k), selected through the scramble tables.
    fn corner(&self, i: i128, j: i128, k: i128) -> (g: Vec3)
        requires
            self.wf(),
            -200000000000 <= i <= 200000000000,
            -200000000000 <= j <= 200000000000,
            -200000000000 <= k <= 200000000000,
        ensures
            vec_in_range(g, GLIM as int),
            g == self.corner_spec(i as int, j as int, k as int),
    {
        let mi: i128 = ((i % 256) + 256) % 256;
        let mj: i128 = ((j % 256) + 256) % 256;
        let mk: i128 = ((k % 256) + 256) % 256;
        let ui: usize = mi as usize;
        let uj: usize = mj as usize;
        let uk: usize = mk as usize;
        let a: usize = self.perm_x[ui];
        let b: usize = self.perm_y[uj];
        let c: usize = self.perm_z[uk];
        let idx: usize = a ^ b ^ c;
        proof {
            assert(idx < 256) by (bit_vector)
                requires
                    a < 256,
                    b < 256,
                    c < 256,
                    idx == a ^ b ^ c,
            ;
            assert(mi == i as int % 256);
            assert(mj == j as int % 256);
            assert(mk == k as int % 256);
        }
        self.rand_vec[idx]
    }

    /// One corner's contribution weight factor: v * s + (1 - v) * (1 - s)
    /// in fixed point, where `v` is 0 or 1.
    fn fade_mix(sel: i128, smooth: i128) -> (r: i128)
        requires
            sel == 0 || sel == 1,
            -300000 <= smooth <= 300000,
        ensures
            -400000 <= r <= 400000,
            r == Self::fade_mix_spec(sel as int, smooth as int),
    {
        if sel == 1 {
            smooth
        } else {
            SCALE - smooth
        }
    }

    /// The smoothstep fade t * t * (3 - 2t) in fixed point, for t in [0, 1).
    fn fade(t: i128) -> (r: i128)
        requires
            0 <= t < SCALE,
        ensures
            -300000 <= r <= 300000,
            r == Self::fade_spec(t as int),
    {
        proof {
            lemma_fx_mul_val_bound(t as int, t as int, 65536, 65536);
            lemma_fx_mul_val_bound(
                crate::fx::fx_mul_spec(t as int, t as int),
                3 * SCALE as int - 2 * t as int,
                65537,
                196608,
            );
        }
        let t2 = fx_mul(t, t);
        fx_mul(t2, 3 * SCALE - 2 * t)
    }

    /// One corner's full contribution: the three fade weights times the
    /// gradient's dot product with the offset vector.
    fn corner_term(g: Vec3, wu: i128, wv: i128, ww: i128, du: i128, dv: i128, dw: i128) -> (r: i128)
        requires
            vec_in_range(g, GLIM as int),
            -400000 <= wu <= 400000,
            -400000 <= wv <= 400000,
            -400000 <= ww <= 400000,
            -SCALE <= du <= SCALE,
            -SCALE <= dv <= SCALE,
            -SCALE <= dw <= SCALE,
        ensures
            -715256196 <= r <= 715256196,
            r == fx_mul_spec(
                fx_mul_spec(fx_mul_spec(wu as int, wv as int), ww as int),
                crate::vec3::dot_spec(g, Vec3 { x: du, y: dv, z: dw }),
            ),
    {
        let weight = Vec3 { x: du, y: dv, z: dw };
        proof {
            lemma_dot_bound(g, weight, GLIM as int);
            lemma_fx_mul_val_bound(wu as int, wv as int, 400000, 400000);
            lemma_fx_mul_val_bound(
                crate::fx::fx_mul_spec(wu as int, wv as int),
                ww as int,
                2441407,
                400000,
            );
            lemma_fx_mul_val_bound(
                crate::fx::fx_mul_spec(
                    crate::fx::fx_mul_spec(wu as int, wv as int),
                    ww as int,
                ),
                crate::vec3::dot_spec(g, weight),
                14901166,
                3145729,
            );
            assert(3int * 262144int * 262144int / 65536int + 1 == 3145729);
            assert(400000int * 400000int / 65536int + 1 == 2441407);
            assert(2441407int * 400000int / 65536int + 1 == 14901166);
            assert(14901166int * 3145729int / 65536int + 1 == 715256196);
        }
        let ws = fx_mul(fx_mul(wu, wv), ww);
        let d = g.dot(weight);
        proof {
            crate::fx::lemma_abs_mul_bound(ws as int, d as int, 14901166, 3145729);
        }
        fx_mul(ws, d)
    }

    /// The noise value at a point: the eight corner gradients of the
    /// containing lattice cell, interpolated with smoothstep fades.
    /// One of the eight corner contributions of a lattice cell.
    fn noise_term(
        &self,
        i: i128,
        j: i128,
        k: i128,
        di: i128,
        dj: i128,
        dk: i128,
        u: i128,
        v: i128,
        w: i128,
        uu: i128,
        vv: i128,
        ww: i128,
    ) -> (c: i128)
        requires
            self.wf(),
            -100000000000 <= i <= 100000000000,
            -100000000000 <= j <= 100000000000,
            -100000000000 <= k <= 100000000000,
            di == 0 || di == 1,
            dj == 0 || dj == 1,
            dk == 0 || dk == 1,
            0 <= u < SCALE,
            0 <= v < SCALE,
            0 <= w < SCALE,
            -300000 <= uu <= 300000,
            -300000 <= vv <= 300000,
            -300000 <= ww <= 300000,
        ensures
            -715256196 <= c <= 715256196,
            c == self.term_spec(
                i as int,
                j as int,
                k as int,
                di as int,
                dj as int,
                dk as int,
                u as int,
                v as int,
                w as int,
                uu as int,
                vv as int,
                ww as int,
            ),
    {
        let g = self.corner(i + di, j + dj, k + dk);
        let wu = Self::fade_mix(di, uu);
        let wv = Self::fade_mix(dj, vv);
        let wwk = Self::fade_mix(dk, ww);
        let du = u - di * SCALE;
        let dv = v - dj * SCALE;
        let dw = w - dk * SCALE;
        Self::corner_term(g, wu, wv, wwk, du, dv, dw)
    }

    /// The noise value at a point: the eight corner gradients of the
    /// containing lattice cell, interpolated with smoothstep fades;
    /// exactly `noise_spec`.
    pub fn noise(&self, point: Point3) -> (r: i128)
        requires
            self.wf(),
            vec_in_range(point, 1125899906842624),
        ensures
            -NOISE_LIM <= r <= NOISE_LIM,
            r == self.noise_spec(point),
    {
        let fx_ = fx_floor(point.x);
        let fy_ = fx_floor(point.y);
        let fz_ = fx_floor(point.z);
        let u = point.x - fx_;
        let v = point.y - fy_;
        let w = point.z - fz_;
        let i = fx_ / SCALE;
        let j = fy_ / SCALE;
        let k = fz_ / SCALE;
        proof {
            assert(fx_ % SCALE == 0 && fy_ % SCALE == 0 && fz_ % SCALE == 0);
            assert(i as int == tdiv(fx_floor_spec(point.x as int), SCALE as int));
            assert(j as int == tdiv(fx_floor_spec(point.y as int), SCALE as int));
            assert(k as int == tdiv(fx_floor_spec(point.z as int), SCALE as int));
        }
        let uu = Self::fade(u);
        let vv = Self::fade(v);
        let ww = Self::fade(w);
        let t000 = self.noise_term(i, j, k, 0, 0, 0, u, v, w, uu, vv, ww);
        let t001 = self.noise_term(i, j, k, 0, 0, 1, u, v, w, uu, vv, ww);
        let t010 = self.noise_term(i, j, k, 0, 1, 0, u, v, w, uu, vv, ww);
        let t011 = self.noise_term(i, j, k, 0, 1, 1, u, v, w, uu, vv, ww);
        let t100 = self.noise_term(i, j, k, 1, 0, 0, u, v, w, uu, vv, ww);
        let t101 = self.noise_term(i, j, k, 1, 0, 1, u, v, w, uu, vv, ww);
        let t110 = self.noise_term(i, j, k, 1, 1, 0, u, v, w, uu, vv, ww);
        let t111 = self.noise_term(i, j, k, 1, 1, 1, u, v, w, uu, vv, ww);
        t000 + t001 + t010 + t011 + t100 + t101 + t110 + t111
    }

    /// Turbulence: octave sums of noise with halving weights on a doubling
    /// lattice, folded to a magnitude.  Components stop doubling at the edge
    /// of the supported coordinate range.
    pub fn turb(&self, point: Point3, depth: usize) -> (r: i128)
        requires
            self.wf(),
            vec_in_range(point, 562949953421312),
            depth <= 64,
        ensures
            0 <= r <= TURB_LIM,
            r == self.turb_spec(point, depth as int),
            depth == 0 ==> r == 0,
    {
        let mut accum: i128 = 0;
        let mut temp_p = point;
        let mut weight: i128 = SCALE;
        let mut level: usize = 0;
        while level < depth
            invariant
                self.wf(),
                level <= depth <= 64,
                0 <= weight <= SCALE,
                vec_in_range(temp_p, 1125899906842624),
                -TURB_LIM <= accum <= TURB_LIM,
                accum + 174626 * (weight as int) <= TURB_LIM,
                -TURB_LIM <= accum - 174626 * (weight as int),
                self.turb_sum_spec(point, SCALE as int, depth as int) == accum
                    + self.turb_sum_spec(temp_p, weight as int, depth as int - level),
            decreases depth - level,
        {
            let n = self.noise(temp_p);
            proof {
                lemma_fx_mul_val_bound(weight as int, n as int, SCALE as int, NOISE_LIM as int);
            }
            let term = fx_mul(weight, n);
            proof {
                if weight == 0 {
                    assert(weight as int * n as int == 0) by (nonlinear_arith)
                        requires
                            weight == 0,
                    ;
                    assert(term == 0);
                } else {
                    assert(-(weight as int * NOISE_LIM as int) <= weight as int * n as int
                        <= weight as int * NOISE_LIM as int) by (nonlinear_arith)
                        requires
                            weight >= 0,
                            -NOISE_LIM <= n <= NOISE_LIM,
                    ;
                    assert(weight as int * NOISE_LIM as int <= (87312 * (weight as int)) * (
                    SCALE as int)) by (nonlinear_arith)
                        requires
                            weight >= 0,
                            NOISE_LIM == 5722049568,
                            SCALE == 65536,
                    ;
                    crate::fx::lemma_tdiv_div_bound(
                        weight as int * n as int,
                        SCALE as int,
                        87312 * (weight as int),
                    );
                    assert(-(87313 * (weight as int)) <= term <= 87313 * (weight as int));
                }
                assert(2 * ((weight as int) / 2) <= weight as int);
            }
            accum = accum + term;
            weight = weight / 2;
            let doubled = Vec3 {
                x: if temp_p.x <= 562949953421312 && temp_p.x >= -562949953421312 {
                    2 * temp_p.x
                } else {
                    temp_p.x
                },
                y: if temp_p.y <= 562949953421312 && temp_p.y >= -562949953421312 {
                    2 * temp_p.y
                } else {
                    temp_p.y
                },
                z: if temp_p.z <= 562949953421312 && temp_p.z >= -562949953421312 {
                    2 * temp_p.z
                } else {
                    temp_p.z
                },
            };
            proof {
                assert(doubled == Self::octave_step_spec(temp_p));
            }
            temp_p = doubled;
            level = level + 1;
        }
        proof {
            assert(self.turb_sum_spec(temp_p, weight as int, 0) == 0);
        }
        if accum < 0 {
            -accum
        } else {
            accum
        }
    }
}

fn copy_gradients(v: &Vec<Vec3>) -> (r: Vec<Vec3>)
    ensures
        r@ == v@,
{
    let mut r: Vec<Vec3> = Vec::new();
    let mut i: usize = 0;
    while i < v.len()
        invariant
            i <= v.len(),
            r@ == v@.subrange(0, i as int),
        decreases v.len() - i,
    {
        r.push(v[i]);
        i = i + 1;
        proof {
            assert(r@ =~= v@.subrange(0, i as int));
        }
    }
    proof {
        assert(r@ =~= v@);
    }
    r
}

fn copy_indices(v: &Vec<usize>) -> (r: Vec<usize>)
    ensures
        r@ == v@,
{
    let mut r: Vec<usize> = Vec::new();
    let mut i: usize = 0;
    while i < v.len()
        invariant
            i <= v.len(),
            r@ == v@.subrange(0, i as int),
        decreases v.len() - i,
    {
        r.push(v[i]);
        i = i + 1;
        proof {
            assert(r@ =~= v@.subrange(0, i as int));
        }
    }
    proof {
        assert(r@ =~= v@);
    }
    r
}

impl Clone for Perlin {
    /// A clone carries the same tables, so it stays well-formed.
    fn clone(&self) -> (r: Self)
        ensures
            self.wf() ==> r.wf(),
    {
        Perlin {
            point_count: self.point_count,
            rand_vec: copy_gradients(&self.rand_vec),
            perm_x: copy_indices(&self.perm_x),
            perm_y: copy_indices(&self.perm_y),
            perm_z: copy_indices(&self.perm_z),
        }
    }
}

} // verus!
