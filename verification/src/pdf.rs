//! Sampling densities over directions: the cosine density about a basis
//! and mixtures of densities.

use vstd::prelude::*;
use crate::fx::{SCALE, PI_FX, tdiv, fx_div_spec, fx_div, fx_mul, lemma_tdiv_bounds, lemma_fx_mul_val_bound};
use crate::vec3::{
    Vec3, vec_in_range, dot_spec, unit_or_default, unit_or_default_spec, lemma_dot_bound, LLIM,
};
use crate::material::{ONB, ONB_LIM, random_cosin_direction};
use crate::utils::random;

verus! {

pub enum PDFType {
    CosinePDF(ONB),
    MixturePDF(Box<PDF>, Box<PDF>),
}

pub struct PDF {
    pub pdf_type: PDFType,
}

/// The size of a density tree, for termination of the evaluators.
pub open spec fn pdf_rank(p: PDF) -> nat
    decreases p,
{
    match p.pdf_type {
        PDFType::CosinePDF(_uvw) => 1,
        PDFType::MixturePDF(a, b) => 1 + pdf_rank(*a) + pdf_rank(*b),
    }
}

proof fn lemma_rank_pos(p: &PDF)
    ensures
        pdf_rank(*p) >= 1,
{
    match p.pdf_type {
        PDFType::CosinePDF(_uvw) => {},
        PDFType::MixturePDF(_a, _b) => {},
    }
}

/// The density a distribution assigns to a direction, at spec level:
/// the clamped cosine over pi about the basis axis, and the average of
/// the two halves of a mixture.
pub open spec fn pdf_value_spec(p: PDF, direction: Vec3) -> int
    decreases p,
{
    match p.pdf_type {
        PDFType::CosinePDF(uvw) => {
            let c = dot_spec(unit_or_default_spec(direction), uvw.w);
            if c <= 0 {
                0
            } else {
                fx_div_spec(c, PI_FX as int)
            }
        },
        PDFType::MixturePDF(a, b) => tdiv(pdf_value_spec(*a, direction), 2) + tdiv(
            pdf_value_spec(*b, direction),
            2,
        ),
    }
}

/// Every basis held by the density tree is bounded.
pub open spec fn pdf_wf(p: PDF) -> bool
    decreases p,
{
    match p.pdf_type {
        PDFType::CosinePDF(uvw) => vec_in_range(uvw.u, ONB_LIM as int) && vec_in_range(
            uvw.v,
            ONB_LIM as int,
        ) && vec_in_range(uvw.w, ONB_LIM as int),
        PDFType::MixturePDF(a, b) => pdf_wf(*a) && pdf_wf(*b),
    }
}

impl PDF {
    /// The cosine-weighted density about a direction.
    pub fn cosine_pdf(w: Vec3) -> (r: PDF)
        requires
            vec_in_range(w, LLIM as int),
        ensures
            pdf_wf(r),
            r.pdf_type matches PDFType::CosinePDF(uvw) && uvw.w == unit_or_default_spec(w),
    {
        PDF { pdf_type: PDFType::CosinePDF(ONB::build_from_w(w)) }
    }

    /// An even mixture of two densities.
    pub fn mixture_pdf(p0: PDF, p1: PDF) -> (r: PDF)
        requires
            pdf_wf(p0),
            pdf_wf(p1),
        ensures
            pdf_wf(r),
            r.pdf_type matches PDFType::MixturePDF(a, b) && *a == p0 && *b == p1,
    {
        PDF { pdf_type: PDFType::MixturePDF(Box::new(p0), Box::new(p1)) }
    }

    /// The cosine density of a direction about a basis: the cosine against
    /// the w axis over pi, zero on the lower hemisphere.
    pub fn value_cosine(&self, direction: Vec3, uvw: &ONB) -> (v: i128)
        requires
            vec_in_range(direction, LLIM as int),
            vec_in_range(uvw.w, ONB_LIM as int),
        ensures
            ({
                let c = dot_spec(unit_or_default_spec(direction), uvw.w);
                v == if c <= 0 {
                    0int
                } else {
                    fx_div_spec(c, PI_FX as int)
                }
            }),
            0 <= v,
    {
        let ud = unit_or_default(direction);
        proof {
            lemma_dot_bound(ud, uvw.w, ONB_LIM as int);
        }
        let cosin = ud.dot(uvw.w);
        if cosin <= 0 {
            0
        } else {
            proof {
                lemma_tdiv_bounds(cosin as int * SCALE as int, PI_FX as int);
                crate::fx::lemma_mul_bound(cosin as int, SCALE as int, 3 * ONB_LIM as int
                    * ONB_LIM as int, SCALE as int);
            }
            let q = fx_div(cosin, PI_FX);
            q
        }
    }

    /// A cosine-weighted sample about the basis.
    pub fn generate_cosine(&self, uvw: &ONB) -> (d: Vec3)
        requires
            vec_in_range(uvw.u, ONB_LIM as int),
            vec_in_range(uvw.v, ONB_LIM as int),
            vec_in_range(uvw.w, ONB_LIM as int),
        ensures
            vec_in_range(d, LLIM as int),
    {
        uvw.local(random_cosin_direction())
    }

    /// An even mixture's density: the average of the two densities.
    pub fn value_mixture(&self, p0: &PDF, p1: &PDF, direction: Vec3) -> (v: i128)
        requires
            pdf_wf(*p0),
            pdf_wf(*p1),
            vec_in_range(direction, LLIM as int),
        ensures
            0 <= v,
            v == tdiv(pdf_value_spec(*p0, direction), 2) + tdiv(pdf_value_spec(*p1, direction), 2),
        decreases pdf_rank(*p0) + pdf_rank(*p1),
    {
        proof {
            lemma_rank_pos(p0);
            lemma_rank_pos(p1);
        }
        let v0 = p0.value(direction);
        let v1 = p1.value(direction);
        proof {
            lemma_tdiv_bounds(v0 as int, 2);
            lemma_tdiv_bounds(v1 as int, 2);
        }
        v0 / 2 + v1 / 2
    }

    /// A sample of an even mixture: a fair coin picks the component.
    pub fn generate_mixture(&self, p0: &PDF, p1: &PDF) -> (d: Vec3)
        requires
            pdf_wf(*p0),
            pdf_wf(*p1),
        ensures
            vec_in_range(d, LLIM as int),
        decreases pdf_rank(*p0) + pdf_rank(*p1),
    {
        proof {
            lemma_rank_pos(p0);
            lemma_rank_pos(p1);
        }
        let coin = random();
        if coin < SCALE / 2 {
            p0.generate()
        } else {
            p1.generate()
        }
    }

    /// The density of a direction under this distribution: exactly
    /// `pdf_value_spec`, and nonnegative.
    pub fn value(&self, direction: Vec3) -> (v: i128)
        requires
            pdf_wf(*self),
            vec_in_range(direction, LLIM as int),
        ensures
            0 <= v,
            v == pdf_value_spec(*self, direction),
        decreases pdf_rank(*self),
    {
        match &self.pdf_type {
            PDFType::CosinePDF(uvw) => self.value_cosine(direction, uvw),
            PDFType::MixturePDF(p0, p1) => self.value_mixture(p0, p1, direction),
        }
    }

    /// A direction sampled from this distribution.
    pub fn generate(&self) -> (d: Vec3)
        requires
            pdf_wf(*self),
        ensures
            vec_in_range(d, LLIM as int),
        decreases pdf_rank(*self),
    {
        match &self.pdf_type {
            PDFType::CosinePDF(uvw) => self.generate_cosine(uvw),
            PDFType::MixturePDF(p0, p1) => self.generate_mixture(p0, p1),
        }
    }
}

} // verus!
