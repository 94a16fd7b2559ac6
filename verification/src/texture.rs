//! Textures: solid colors, checkerboards, gradient noise, and image lookups
//! over an atlas of decoded pixel buffers.

use vstd::prelude::*;
use crate::fx::{SCALE, WMAX, FX_LIM, tdiv, fx_mul_spec, fx_mul, lemma_tdiv_bounds, lemma_tdiv_div_bound};
use crate::vec3::{Vec3, Rgb, Point3, vec_in_range};
use crate::trig::{fx_sin, fx_sin_spec};
use crate::perlin::{Perlin, TURB_LIM};
use crate::utils::clamp;

verus! {

/// A decoded image: row-major 8-bit RGB triples.
pub struct ImageData {
    pub width: usize,
    pub height: usize,
    pub pixels: Vec<u8>,
}

/// The pixel buffer holds exactly width * height RGB triples and the
/// dimensions are positive and small enough for index arithmetic.
pub open spec fn image_wf(d: ImageData) -> bool {
    &&& 1 <= d.width <= 65536
    &&& 1 <= d.height <= 65536
    &&& d.pixels.len() == 3 * d.width * d.height
}

/// The shared store of decoded images, referenced by index from textures.
pub struct ImageTextureAtlas {
    pub images: Vec<ImageData>,
}

impl ImageTextureAtlas {
    pub open spec fn wf(&self) -> bool {
        forall|i: int| 0 <= i < self.images.len() ==> image_wf(#[trigger] self.images[i])
    }

    pub fn new() -> (r: ImageTextureAtlas)
        ensures
            r.wf(),
            r.images.len() == 0,
    {
        ImageTextureAtlas { images: Vec::new() }
    }

    /// Stores a decoded image and returns its index.
    pub fn load(&mut self, img: ImageData) -> (idx: usize)
        requires
            old(self).wf(),
            image_wf(img),
        ensures
            final(self).wf(),
            final(self).images.len() == old(self).images.len() + 1,
            idx == old(self).images.len(),
    {
        let idx = self.images.len();
        self.images.push(img);
        idx
    }
}

pub enum TextureType {
    SolidColor(Rgb),
    Checkered(Rgb, Rgb),
    NoiseTexture(Perlin, i128, usize),
    ImageTexture(u32, u32, u32, usize),
}

pub struct Texture {
    pub texture_type: TextureType,
}

/// The textures agree except possibly in the hidden noise tables, whose
/// well-formedness is preserved.
pub open spec fn same_texture(a: Texture, b: Texture) -> bool {
    match a.texture_type {
        TextureType::NoiseTexture(p, s, t) => match b.texture_type {
            TextureType::NoiseTexture(p2, s2, t2) => s == s2 && t == t2 && (p.wf() ==> p2.wf()),
            _ => false,
        },
        _ => b.texture_type == a.texture_type,
    }
}

impl Clone for Texture {
    fn clone(&self) -> (r: Self)
        ensures
            same_texture(*self, r),
    {
        Texture {
            texture_type: match &self.texture_type {
                TextureType::SolidColor(c) => TextureType::SolidColor(*c),
                TextureType::Checkered(o, e) => TextureType::Checkered(*o, *e),
                TextureType::NoiseTexture(p, s, t) => TextureType::NoiseTexture(p.clone(), *s, *t),
                TextureType::ImageTexture(b, w, h, i) => TextureType::ImageTexture(*b, *w, *h, *i),
            },
        }
    }
}

/// The texture's noise scale and octave count are valid and any image index
/// points into the atlas.
pub open spec fn texture_wf(t: Texture, atlas: ImageTextureAtlas) -> bool {
    match t.texture_type {
        TextureType::NoiseTexture(p, s, turb) => p.wf() && 0 <= s <= SCALE * SCALE && turb <= 64,
        TextureType::ImageTexture(_b, _w, _h, idx) => idx < atlas.images.len(),
        _ => true,
    }
}

/// The product of sines that drives the checkerboard:
/// sin(10 x) * sin(10 y) * sin(10 z) in fixed point.
pub open spec fn checker_sines_spec(p: Point3) -> int {
    fx_mul_spec(
        fx_mul_spec(fx_sin_spec(10 * p.x), fx_sin_spec(10 * p.y)),
        fx_sin_spec(10 * p.z),
    )
}

/// The pixel row/column sampled by an image texture: texture coordinates
/// clamped to [0, 1], v flipped, scaled by the image size, clamped to the
/// last row/column.
pub open spec fn image_axis_spec(coord: int, extent: int) -> int {
    let c = if coord < 0 {
        0
    } else if coord > SCALE {
        SCALE as int
    } else {
        coord
    };
    let i = tdiv(c * extent, SCALE as int);
    if i >= extent {
        extent - 1
    } else {
        i
    }
}

/// An 8-bit channel scaled into fixed point: 255 maps to just under one.
pub open spec fn byte_to_fx_spec(b: int) -> int {
    b * 257
}

/// What `get_color` promises of its result: solid, checkered and image
/// lookups are pinned exactly; noise yields an equal-component gray in
/// [0, 1].
pub open spec fn color_of(t: Texture, u: int, v: int, p: Point3, atlas: ImageTextureAtlas, c: Rgb) -> bool {
    match t.texture_type {
        TextureType::SolidColor(col) => c == col,
        TextureType::Checkered(odd, even) => c == if checker_sines_spec(p) < 0 {
            odd
        } else {
            even
        },
        TextureType::NoiseTexture(_pn, _s, _t) => 0 <= c.x <= SCALE && c.y == c.x && c.z == c.x,
        TextureType::ImageTexture(_b, _w, _h, idx) => {
            let img = atlas.images[idx as int];
            let i = image_axis_spec(u, img.width as int);
            let j = image_axis_spec(
                SCALE - (if v < 0 {
                    0int
                } else if v > SCALE {
                    SCALE as int
                } else {
                    v
                }),
                img.height as int,
            );
            let base = 3 * (j * img.width + i);
            c.x == byte_to_fx_spec(img.pixels[base] as int) && c.y == byte_to_fx_spec(
                img.pixels[base + 1] as int,
            ) && c.z == byte_to_fx_spec(img.pixels[base + 2] as int)
        },
    }
}

impl Texture {
    pub fn solid_color(color: Rgb) -> (r: Texture)
        ensures
            r.texture_type == TextureType::SolidColor(color),
    {
        Texture { texture_type: TextureType::SolidColor(color) }
    }

    pub fn checkered(odd_color: Rgb, even_color: Rgb) -> (r: Texture)
        ensures
            r.texture_type == TextureType::Checkered(odd_color, even_color),
    {
        Texture { texture_type: TextureType::Checkered(odd_color, even_color) }
    }

    /// A gradient-noise texture with fresh tables.
    pub fn noise(scale: i128, turb: usize) -> (r: Texture)
        requires
            0 <= scale <= SCALE * SCALE,
            turb <= 64,
        ensures
            r.texture_type matches TextureType::NoiseTexture(p, s, t) && s == scale && t == turb
                && p.wf(),
    {
        Texture { texture_type: TextureType::NoiseTexture(Perlin::new(), scale, turb) }
    }

    /// A texture sampling the atlas image at the given index.
    pub fn image(atlas: &ImageTextureAtlas, img_data_idx: usize) -> (r: Texture)
        requires
            atlas.wf(),
            img_data_idx < atlas.images.len(),
        ensures
            r.texture_type matches TextureType::ImageTexture(b, w, h, i) && i == img_data_idx,
    {
        let bytes_per_pixel: u32 = 3;
        let width = atlas.images[img_data_idx].width;
        let height = atlas.images[img_data_idx].height;
        let w32: u32 = if width <= 0xffffffff { width as u32 } else { 0xffffffff };
        let h32: u32 = if height <= 0xffffffff { height as u32 } else { 0xffffffff };
        Texture { texture_type: TextureType::ImageTexture(bytes_per_pixel, w32, h32, img_data_idx) }
    }

    /// The texture's color at surface coordinates (u, v) and world point
    /// `point`.  Solid, checkered and image lookups are pinned exactly;
    /// noise yields an equal-component gray in [0, 1].
    pub fn get_color(&self, u: i128, v: i128, point: Point3, atlas: &ImageTextureAtlas) -> (r: Rgb)
        requires
            atlas.wf(),
            texture_wf(*self, *atlas),
            vec_in_range(point, 562949953421312),
            -FX_LIM <= u <= FX_LIM,
            -FX_LIM <= v <= FX_LIM,
        ensures
            self.texture_type matches TextureType::SolidColor(c) ==> r == c,
            self.texture_type matches TextureType::Checkered(odd, even) ==> r == (if checker_sines_spec(point) < 0 {
                odd
            } else {
                even
            }),
            self.texture_type matches TextureType::NoiseTexture(p, s, t) ==> 0 <= r.x <= SCALE
                && r.y == r.x && r.z == r.x && r.x == tdiv(
                SCALE + fx_sin_spec(
                    fx_mul_spec(s as int, point.z as int) + fx_mul_spec(
                        10 * SCALE as int,
                        p.turb_spec(point, t as int),
                    ),
                ),
                2,
            ),
            self.texture_type matches TextureType::ImageTexture(b, w, h, idx) ==> {
                let img = atlas.images[idx as int];
                let i = image_axis_spec(u as int, img.width as int);
                let j = image_axis_spec(SCALE - (if v < 0 {
                    0int
                } else if v > SCALE {
                    SCALE as int
                } else {
                    v as int
                }), img.height as int);
                let base = 3 * (j * img.width + i);
                r.x == byte_to_fx_spec(img.pixels[base] as int) && r.y == byte_to_fx_spec(
                    img.pixels[base + 1] as int,
                ) && r.z == byte_to_fx_spec(img.pixels[base + 2] as int)
            },
            color_of(*self, u as int, v as int, point, *atlas, r),
    {
        match &self.texture_type {
            TextureType::SolidColor(color) => *color,
            TextureType::Checkered(odd_color, even_color) => {
                let sx = fx_sin(10 * point.x);
                let sy = fx_sin(10 * point.y);
                let sz = fx_sin(10 * point.z);
                proof {
                    crate::fx::lemma_fx_mul_val_bound(sx as int, sy as int, 65536, 65536);
                    crate::fx::lemma_fx_mul_val_bound(
                        fx_mul_spec(sx as int, sy as int),
                        sz as int,
                        65537,
                        65536,
                    );
                }
                let sines = fx_mul(fx_mul(sx, sy), sz);
                if sines < 0 {
                    *odd_color
                } else {
                    *even_color
                }
            },
            TextureType::NoiseTexture(noise, scale, turb) => {
                let t = noise.turb(point, *turb);
                proof {
                    crate::fx::lemma_fx_mul_val_bound(
                        scale as int,
                        point.z as int,
                        4294967296,
                        562949953421312,
                    );
                    crate::fx::lemma_fx_mul_val_bound(10 * SCALE as int, t as int, 655360, TURB_LIM as int);
                }
                let sarg = fx_mul(*scale, point.z) + fx_mul(10 * SCALE, t);
                let s = fx_sin(sarg);
                let gray = (SCALE + s) / 2;
                proof {
                    assert(0 <= (SCALE as int + s as int) / 2 <= SCALE as int);
                    assert(gray == tdiv(SCALE as int + s as int, 2));
                }
                Vec3 { x: gray, y: gray, z: gray }
            },
            TextureType::ImageTexture(_bpp, _w, _h, img_data_idx) => {
                let img_w: usize = atlas.images[*img_data_idx].width;
                let img_h: usize = atlas.images[*img_data_idx].height;
                let cu = clamp(u, 0, SCALE);
                let cv = SCALE - clamp(v, 0, SCALE);
                proof {
                    lemma_tdiv_bounds(cu as int * img_w as int, SCALE as int);
                    crate::fx::lemma_mul_bound(cu as int, img_w as int, SCALE as int, 65536);
                    assert(0 <= cu as int * img_w as int <= img_w as int * SCALE as int)
                        by (nonlinear_arith)
                        requires
                            0 <= cu <= SCALE,
                            img_w >= 0,
                    ;
                    lemma_tdiv_div_bound(cu as int * img_w as int, SCALE as int, img_w as int);
                    lemma_tdiv_bounds(cv as int * img_h as int, SCALE as int);
                    crate::fx::lemma_mul_bound(cv as int, img_h as int, SCALE as int, 65536);
                    assert(0 <= cv as int * img_h as int <= img_h as int * SCALE as int)
                        by (nonlinear_arith)
                        requires
                            0 <= cv <= SCALE,
                            img_h >= 0,
                    ;
                    lemma_tdiv_div_bound(cv as int * img_h as int, SCALE as int, img_h as int);
                }
                let iw: i128 = img_w as i128;
                let ih: i128 = img_h as i128;
                let mut i: i128 = crate::fx::tdiv_i(cu * iw, SCALE);
                let mut j: i128 = crate::fx::tdiv_i(cv * ih, SCALE);
                if i >= iw {
                    i = iw - 1;
                }
                if j >= ih {
                    j = ih - 1;
                }
                let ui: usize = i as usize;
                let uj: usize = j as usize;
                proof {
                    assert(3 * (uj * img_w + ui) + 2 < 3 * img_w * img_h) by (nonlinear_arith)
                        requires
                            0 <= ui < img_w,
                            0 <= uj < img_h,
                    ;
                }
                let base: usize = 3 * (uj * img_w + ui);
                let pixels = &atlas.images[*img_data_idx].pixels;
                let rb = pixels[base];
                let gb = pixels[base + 1];
                let bb = pixels[base + 2];
                Vec3 { x: (rb as i128) * 257, y: (gb as i128) * 257, z: (bb as i128) * 257 }
            },
        }
    }
}

} // verus!
