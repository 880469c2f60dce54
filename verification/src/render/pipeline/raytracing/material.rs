//! Ray tracing materials. Colors and parameters are `f32` values carried by their IEEE-754
//! bit patterns, since no arithmetic is done on them here.

use crate::data::{
    float32_field, kv_get, lemma_kv_get_at, lemma_kv_put_fresh, limits_view, Data, Limit, LimitView, Value,
    ValueView,
};
use crate::edit::Edit;
use vstd::prelude::*;

verus! {

/// The bit pattern of the `f32` value 1.0.
pub const F32_ONE: u32 = 0x3f80_0000u32;

/// The bit pattern of the `f32` value 0.0.
pub const F32_ZERO: u32 = 0u32;

/// The bit pattern of the largest finite `f32` value.
pub const F32_MAX: u32 = 0x7f7f_ffffu32;

/// Three `f32` values by their bit patterns.
#[derive(Clone, Copy, PartialEq, Eq, Structural, Debug)]
pub struct Vec3Bits {
    pub x: u32,
    pub y: u32,
    pub z: u32,
}

/// Ray tracing material, including lambertian, metal, dielectric and emission.
#[derive(Clone, Copy, PartialEq, Eq, Structural, Debug)]
pub enum Material {
    /// Reflects light uniformly in all directions (chalk, unpolished wood, matte paint).
    Lambertian {
        /// Albedo color.
        color: Vec3Bits,
    },
    /// Reflects most of the light at a sharp angle (gold, silver, iron).
    Metal {
        /// Albedo color.
        color: Vec3Bits,
        /// Fuzziness.
        fuzz: u32,
    },
    /// Either reflects or refracts the incoming light (glass, water, diamonds).
    Dielectric {
        /// Color tint.
        color: Vec3Bits,
        /// Refraction index.
        ri: u32,
    },
    /// Emits light instead of reflecting it (light bulbs, fire).
    Emission {
        /// Emission color.
        color: Vec3Bits,
        /// Emission intensity.
        intensity: u32,
    },
}

/// The white color (1.0, 1.0, 1.0).
pub open spec fn white() -> Vec3Bits {
    Vec3Bits { x: F32_ONE, y: F32_ONE, z: F32_ONE }
}

/// The type number of a material: 0 lambertian, 1 metal, 2 dielectric, 3 emission.
pub open spec fn material_type(m: Material) -> i32 {
    match m {
        Material::Lambertian { .. } => 0,
        Material::Metal { .. } => 1,
        Material::Dielectric { .. } => 2,
        Material::Emission { .. } => 3,
    }
}

/// The color of a material, whatever its kind.
pub open spec fn material_color(m: Material) -> Vec3Bits {
    match m {
        Material::Lambertian { color } => color,
        Material::Metal { color, .. } => color,
        Material::Dielectric { color, .. } => color,
        Material::Emission { color, .. } => color,
    }
}

/// The material that a type number selects: white, with fuzz 0, refraction index 1 or
/// intensity 1; an unknown number selects the default material.
pub open spec fn material_of_type(i: i32) -> Material {
    if i == 1 {
        Material::Metal { color: white(), fuzz: F32_ZERO }
    } else if i == 2 {
        Material::Dielectric { color: white(), ri: F32_ONE }
    } else if i == 3 {
        Material::Emission { color: white(), intensity: F32_ONE }
    } else {
        Material::Lambertian { color: white() }
    }
}

impl Default for Material {
    /// The default material is a white lambertian.
    fn default() -> (r: Material)
        ensures
            r == (Material::Lambertian { color: white() }),
    {
        Material::Lambertian { color: Vec3Bits { x: F32_ONE, y: F32_ONE, z: F32_ONE } }
    }
}

impl Material {
    /// The color of the material with alpha 1.0. The rasterization pipeline uses it to keep
    /// the color of a rendered object consistent with the ray tracing pipeline.
    pub fn color(&self) -> (r: (u32, u32, u32, u32))
        ensures
            r == (material_color(*self).x, material_color(*self).y, material_color(*self).z, F32_ONE),
    {
        let c = match self {
            Material::Lambertian { color } => *color,
            Material::Metal { color, .. } => *color,
            Material::Dielectric { color, .. } => *color,
            Material::Emission { color, .. } => *color,
        };
        (c.x, c.y, c.z, F32_ONE)
    }

    /// The type number of the material, for its enum limit in the editor.
    pub fn to_i32(&self) -> (r: i32)
        ensures
            r == material_type(*self),
    {
        match self {
            Material::Lambertian { .. } => 0,
            Material::Metal { .. } => 1,
            Material::Dielectric { .. } => 2,
            Material::Emission { .. } => 3,
        }
    }

    /// The fresh material of a type number, for its enum limit in the editor.
    pub fn from_i32(i: i32) -> (r: Material)
        ensures
            r == material_of_type(i),
    {
        let white = Vec3Bits { x: F32_ONE, y: F32_ONE, z: F32_ONE };
        if i == 0 {
            Material::Lambertian { color: white }
        } else if i == 1 {
            Material::Metal { color: white, fuzz: F32_ZERO }
        } else if i == 2 {
            Material::Dielectric { color: white, ri: F32_ONE }
        } else if i == 3 {
            Material::Emission { color: white, intensity: F32_ONE }
        } else {
            Material::default()
        }
    }

    /// The type numbers with their names, for the enum limit in the editor.
    pub fn enum_vector() -> (r: Vec<(i32, String)>)
        ensures
            r@.map_values(|p: (i32, String)| (p.0, p.1@)) == seq![
                (0i32, "Lambertian"@),
                (1i32, "Metal"@),
                (2i32, "Dielectric"@),
                (3i32, "Emission"@),
            ],
    {
        let mut v: Vec<(i32, String)> = Vec::new();
        v.push((0, "Lambertian".to_owned()));
        v.push((1, "Metal".to_owned()));
        v.push((2, "Dielectric".to_owned()));
        v.push((3, "Emission".to_owned()));
        assert(v@.map_values(|p: (i32, String)| (p.0, p.1@)) =~= seq![
            (0i32, "Lambertian"@),
            (1i32, "Metal"@),
            (2i32, "Dielectric"@),
            (3i32, "Emission"@),
        ]);
        v
    }
}

/// A color as a three-`f32` value.
pub open spec fn vec3_view(c: Vec3Bits) -> ValueView {
    ValueView::Vec3(c.x, c.y, c.z)
}

/// The enum limit of the material type.
pub open spec fn material_type_limit() -> LimitView {
    LimitView::Int32Enum(
        seq![(0i32, "Lambertian"@), (1i32, "Metal"@), (2i32, "Dielectric"@), (3i32, "Emission"@)],
    )
}

/// The data that a material shows: its type, its color, and the parameter of its kind.
pub open spec fn material_data(m: Material) -> Seq<(Seq<char>, ValueView)> {
    let head = seq![
        ("type"@, ValueView::Int32(material_type(m))),
        ("color"@, vec3_view(material_color(m))),
    ];
    match m {
        Material::Lambertian { .. } => head,
        Material::Metal { fuzz, .. } => head.push(("fuzz"@, ValueView::Float32(fuzz))),
        Material::Dielectric { ri, .. } => head.push(("ri"@, ValueView::Float32(ri))),
        Material::Emission { intensity, .. } => head.push(("intensity"@, ValueView::Float32(intensity))),
    }
}

/// The limits of the data of a material: an enum for the type, a color picker for the
/// color, and a range from 0.0 (1.0 for the refraction index) for the parameter.
pub open spec fn material_limits(m: Material) -> Seq<(Seq<char>, LimitView)> {
    let head = seq![("type"@, material_type_limit()), ("color"@, LimitView::Vec3Color)];
    match m {
        Material::Lambertian { .. } => head,
        Material::Metal { .. } => head.push(("fuzz"@, LimitView::Float32Range(F32_ZERO, F32_MAX))),
        Material::Dielectric { .. } => head.push(("ri"@, LimitView::Float32Range(F32_ONE, F32_MAX))),
        Material::Emission { .. } => head.push(
            ("intensity"@, LimitView::Float32Range(F32_ZERO, F32_MAX)),
        ),
    }
}

/// The material after taking `d`: a type value other than the current type makes a fresh
/// material of that type first; then the color and the parameter of the kind are taken.
pub open spec fn material_set(m: Material, d: Seq<(Seq<char>, ValueView)>) -> Material {
    let m1 = match kv_get(d, "type"@) {
        Some(ValueView::Int32(v)) => if v != material_type(m) {
            material_of_type(v)
        } else {
            m
        },
        _ => m,
    };
    let color = match kv_get(d, "color"@) {
        Some(ValueView::Vec3(x, y, z)) => Vec3Bits { x, y, z },
        _ => material_color(m1),
    };
    match m1 {
        Material::Lambertian { .. } => Material::Lambertian { color },
        Material::Metal { fuzz, .. } => Material::Metal { color, fuzz: float32_field(d, "fuzz"@, fuzz) },
        Material::Dielectric { ri, .. } => Material::Dielectric { color, ri: float32_field(d, "ri"@, ri) },
        Material::Emission { intensity, .. } => Material::Emission {
            color,
            intensity: float32_field(d, "intensity"@, intensity),
        },
    }
}

/// The names of the material data are distinct.
proof fn lemma_material_keys()
    ensures
        "type"@ != "color"@,
        "type"@ != "fuzz"@,
        "type"@ != "ri"@,
        "type"@ != "intensity"@,
        "color"@ != "fuzz"@,
        "color"@ != "ri"@,
        "color"@ != "intensity"@,
{
    reveal_strlit("type");
    reveal_strlit("color");
    reveal_strlit("fuzz");
    reveal_strlit("ri");
    reveal_strlit("intensity");
    assert("type"@.len() == 4 && "color"@.len() == 5 && "fuzz"@.len() == 4);
    assert("ri"@.len() == 2 && "intensity"@.len() == 9);
    assert("type"@[0] != "fuzz"@[0]);
}

impl Edit for Material {
    fn name() -> (r: &'static str)
        ensures
            r@ == "Material"@,
    {
        "Material"
    }

    /// The type, the color and the parameter of the kind, with their limits.
    fn get_data(&self) -> (r: Data)
        ensures
            r@ == material_data(*self),
            limits_view(r.limits@) == material_limits(*self),
    {
        let d0 = Data::new();
        let d1 = d0.insert_with_limit("type", Value::Int32(self.to_i32()), Limit::Int32Enum(Material::enum_vector()));
        let c = match self {
            Material::Lambertian { color } => *color,
            Material::Metal { color, .. } => *color,
            Material::Dielectric { color, .. } => *color,
            Material::Emission { color, .. } => *color,
        };
        let d2 = d1.insert_with_limit("color", Value::Vec3(c.x, c.y, c.z), Limit::Vec3Color);
        proof {
            lemma_material_keys();
            let m = *self;
            lemma_kv_put_fresh(d0@, "type"@, ValueView::Int32(material_type(m)));
            lemma_kv_put_fresh(limits_view(d0.limits@), "type"@, material_type_limit());
            assert(d1@ =~= seq![("type"@, ValueView::Int32(material_type(m)))]);
            assert(limits_view(d1.limits@) =~= seq![("type"@, material_type_limit())]);
            lemma_kv_put_fresh(d1@, "color"@, vec3_view(c));
            lemma_kv_put_fresh(limits_view(d1.limits@), "color"@, LimitView::Vec3Color);
            assert(d2@ =~= seq![("type"@, ValueView::Int32(material_type(m))), ("color"@, vec3_view(c))]);
            assert(limits_view(d2.limits@) =~= seq![("type"@, material_type_limit()), ("color"@, LimitView::Vec3Color)]);
        }
        match self {
            Material::Lambertian { .. } => d2,
            Material::Metal { fuzz, .. } => {
                let r = d2.insert_with_limit("fuzz", Value::Float32(*fuzz), Limit::Float32Range(F32_ZERO, F32_MAX));
                proof {
                    lemma_kv_put_fresh(d2@, "fuzz"@, ValueView::Float32(*fuzz));
                    lemma_kv_put_fresh(limits_view(d2.limits@), "fuzz"@, LimitView::Float32Range(F32_ZERO, F32_MAX));
                }
                r
            },
            Material::Dielectric { ri, .. } => {
                let r = d2.insert_with_limit("ri", Value::Float32(*ri), Limit::Float32Range(F32_ONE, F32_MAX));
                proof {
                    lemma_kv_put_fresh(d2@, "ri"@, ValueView::Float32(*ri));
                    lemma_kv_put_fresh(limits_view(d2.limits@), "ri"@, LimitView::Float32Range(F32_ONE, F32_MAX));
                }
                r
            },
            Material::Emission { intensity, .. } => {
                let r = d2.insert_with_limit(
                    "intensity",
                    Value::Float32(*intensity),
                    Limit::Float32Range(F32_ZERO, F32_MAX),
                );
                proof {
                    lemma_kv_put_fresh(d2@, "intensity"@, ValueView::Float32(*intensity));
                    lemma_kv_put_fresh(limits_view(d2.limits@), "intensity"@, LimitView::Float32Range(F32_ZERO, F32_MAX));
                }
                r
            },
        }
    }

    /// Takes the type first (a new type makes a fresh material of it), then the color and
    /// the parameter of the kind.
    fn set_data(&mut self, data: &Data)
        ensures
            *final(self) == material_set(*old(self), data@),
    {
        let mut m = *self;
        if let Some(Value::Int32(v)) = data.get("type") {
            if *v != m.to_i32() {
                m = Material::from_i32(*v);
            }
        }
        let color = match data.get("color") {
            Some(Value::Vec3(x, y, z)) => Vec3Bits { x: *x, y: *y, z: *z },
            _ => match m {
                Material::Lambertian { color } => color,
                Material::Metal { color, .. } => color,
                Material::Dielectric { color, .. } => color,
                Material::Emission { color, .. } => color,
            },
        };
        *self = match m {
            Material::Lambertian { .. } => Material::Lambertian { color },
            Material::Metal { fuzz, .. } => Material::Metal {
                color,
                fuzz: match data.get("fuzz") {
                    Some(Value::Float32(v)) => *v,
                    _ => fuzz,
                },
            },
            Material::Dielectric { ri, .. } => Material::Dielectric {
                color,
                ri: match data.get("ri") {
                    Some(Value::Float32(v)) => *v,
                    _ => ri,
                },
            },
            Material::Emission { intensity, .. } => Material::Emission {
                color,
                intensity: match data.get("intensity") {
                    Some(Value::Float32(v)) => *v,
                    _ => intensity,
                },
            },
        };
    }
}

/// Law: writing the data that a material shows into any material gives that material back.
pub proof fn lemma_material_edit_roundtrip(m0: Material, m: Material)
    ensures
        material_set(m0, material_data(m)) == m,
{
    lemma_material_keys();
    let d = material_data(m);
    lemma_kv_get_at(d, 0);
    lemma_kv_get_at(d, 1);
    if d.len() == 3 {
        lemma_kv_get_at(d, 2);
    }
}

/// The material data of the ray generation shader: the color in the first three words and
/// the kind's parameter (0.0 for a lambertian) in the fourth, with the type number.
#[derive(Clone, Copy, PartialEq, Eq, Debug)]
pub struct EnumMaterial {
    /// Color and parameter, as `f32` bit patterns.
    pub data: [u32; 4],
    /// The type number.
    pub t: u32,
}

/// The parameter of a material's kind; 0.0 for a lambertian.
pub open spec fn material_param(m: Material) -> u32 {
    match m {
        Material::Lambertian { .. } => F32_ZERO,
        Material::Metal { fuzz, .. } => fuzz,
        Material::Dielectric { ri, .. } => ri,
        Material::Emission { intensity, .. } => intensity,
    }
}

impl EnumMaterial {
    /// The shader material of `material`, whose color the caller has tinted by the color of
    /// the object into `tinted`: the kind and parameter of the material with that color.
    pub fn from_material(material: Material, tinted: Vec3Bits) -> (r: EnumMaterial)
        ensures
            r.t == material_type(material),
            r.data@ == seq![tinted.x, tinted.y, tinted.z, material_param(material)],
    {
        match material {
            Material::Lambertian { .. } => EnumMaterial::new_lambertian(tinted),
            Material::Metal { fuzz, .. } => EnumMaterial::new_metal(tinted, fuzz),
            Material::Dielectric { ri, .. } => EnumMaterial::new_dielectric(tinted, ri),
            Material::Emission { intensity, .. } => EnumMaterial::new_emission(tinted, intensity),
        }
    }

    /// A lambertian of a color.
    pub fn new_lambertian(color: Vec3Bits) -> (r: EnumMaterial)
        ensures
            r.data@ == seq![color.x, color.y, color.z, F32_ZERO],
            r.t == 0,
    {
        let r = EnumMaterial { data: [color.x, color.y, color.z, F32_ZERO], t: 0 };
        assert(r.data@ =~= seq![color.x, color.y, color.z, F32_ZERO]);
        r
    }

    /// A metal of a color and a fuzziness.
    pub fn new_metal(color: Vec3Bits, fuzz: u32) -> (r: EnumMaterial)
        ensures
            r.data@ == seq![color.x, color.y, color.z, fuzz],
            r.t == 1,
    {
        let r = EnumMaterial { data: [color.x, color.y, color.z, fuzz], t: 1 };
        assert(r.data@ =~= seq![color.x, color.y, color.z, fuzz]);
        r
    }

    /// A dielectric of a color and a refraction index.
    pub fn new_dielectric(color: Vec3Bits, ri: u32) -> (r: EnumMaterial)
        ensures
            r.data@ == seq![color.x, color.y, color.z, ri],
            r.t == 2,
    {
        let r = EnumMaterial { data: [color.x, color.y, color.z, ri], t: 2 };
        assert(r.data@ =~= seq![color.x, color.y, color.z, ri]);
        r
    }

    /// An emission of a color and an intensity.
    pub fn new_emission(color: Vec3Bits, intensity: u32) -> (r: EnumMaterial)
        ensures
            r.data@ == seq![color.x, color.y, color.z, intensity],
            r.t == 3,
    {
        let r = EnumMaterial { data: [color.x, color.y, color.z, intensity], t: 3 };
        assert(r.data@ =~= seq![color.x, color.y, color.z, intensity]);
        r
    }
}

} // verus!
