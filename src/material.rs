use vstd::prelude::*;
use crate::texture::{Texture, TextureModel};

verus! {

/// An 8-bit RGB color.
#[derive(Clone, Copy, Debug, PartialEq, Eq)]
pub struct Color {
    pub r: u8,
    pub g: u8,
    pub b: u8,
}

impl Color {
    pub fn new(r: u8, g: u8, b: u8) -> (c: Color)
        ensures
            c.r == r && c.g == g && c.b == b,
    {
        Color { r, g, b }
    }

    pub fn black() -> (c: Color)
        ensures
            c.r == 0 && c.g == 0 && c.b == 0,
    {
        Color { r: 0, g: 0, b: 0 }
    }
}

/// Surface appearance. Weights and the refractive index are in thousandths:
/// `albedo` is `[diffuse, specular, reflectivity, transparency]`.
#[derive(Debug)]
pub struct Material {
    pub diffuse: Color,
    pub specular: u32,
    pub albedo: [u16; 4],
    pub refractive_index: u32,
    pub texture: Option<Texture>,
}

/// What a material means for shading: diffuse color, specular exponent,
/// albedo, refractive index and, if any, the texture's content.
pub type MaterialModel = (Color, u32, [u16; 4], u32, Option<TextureModel>);

impl Clone for Material {
    fn clone(&self) -> (r: Material)
        ensures
            r.model() == self.model(),
    {
        let texture = match &self.texture {
            Some(t) => Some(t.clone()),
            None => None,
        };
        Material {
            diffuse: self.diffuse,
            specular: self.specular,
            albedo: self.albedo,
            refractive_index: self.refractive_index,
            texture,
        }
    }
}

impl Material {
    pub open spec fn model(self) -> MaterialModel {
        (
            self.diffuse,
            self.specular,
            self.albedo,
            self.refractive_index,
            match self.texture {
                Some(t) => Some(t.model()),
                None => None,
            },
        )
    }

    pub fn new(
        diffuse: Color,
        specular: u32,
        albedo: [u16; 4],
        refractive_index: u32,
        texture: Option<Texture>,
    ) -> (m: Material)
        ensures
            m.diffuse == diffuse,
            m.specular == specular,
            m.albedo == albedo,
            m.refractive_index == refractive_index,
            m.texture == texture,
    {
        Material { diffuse, specular, albedo, refractive_index, texture }
    }

    /// The surface color at `(u, v)`: the texture's sample, or the diffuse color.
    pub fn shade(&self, uv: (i64, i64)) -> (c: Color)
        requires
            self.texture matches Some(t) ==> t.wf(),
        ensures
            match self.texture {
                Some(t) => {
                    let p = t.sample(uv.0 as int, uv.1 as int);
                    c == Color { r: p[0], g: p[1], b: p[2] }
                },
                None => c == self.diffuse,
            },
    {
        match &self.texture {
            Some(t) => {
                let p = t.get_color_at(uv);
                Color::new(p[0], p[1], p[2])
            },
            None => self.diffuse,
        }
    }

    /// A black surface that reflects nothing.
    pub fn black() -> (m: Material)
        ensures
            m.diffuse == (Color { r: 0, g: 0, b: 0 }),
            m.specular == 0,
            m.albedo == [0u16, 0, 0, 0],
            m.refractive_index == 0,
            m.texture is None,
    {
        Material {
            diffuse: Color::new(0, 0, 0),
            specular: 0,
            albedo: [0, 0, 0, 0],
            refractive_index: 0,
            texture: None,
        }
    }
}

} // verus!
