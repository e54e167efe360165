//! Surface materials and point lights.
use vstd::prelude::*;
use crate::color::{hadamard3, Color};
use crate::scalar::{fits, powf_in_range, powf_raw, Scalar, SCALE};
use crate::tuple::{
    add3, div3, dot3, fits3, length3, neg3, reflect3, reflect_in_range, scale3, sub3, Point,
    Triple, Vector,
};

verus! {

/// Reflectance of a surface under the Phong model.
#[derive(Clone, Copy, Debug, PartialEq, Eq, Structural)]
pub struct Material {
    pub color: Color,
    pub ambient: Scalar,
    pub diffuse: Scalar,
    pub specular: Scalar,
    pub shininess: Scalar,
}

impl Material {
    /// White, ambient 0.1, diffuse 0.9, specular 0.9, shininess 200.
    pub open spec fn is_default(&self) -> bool {
        &&& self.color@ == (SCALE as int, SCALE as int, SCALE as int)
        &&& self.ambient@ == 100_000_000
        &&& self.diffuse@ == 900_000_000
        &&& self.specular@ == 900_000_000
        &&& self.shininess@ == 200 * SCALE
    }
}

/// Unit vector from `point` toward the light at `light_pos`.
pub open spec fn light_dir(light_pos: Triple, point: Triple) -> Triple {
    let v = sub3(light_pos, point);
    div3(v, length3(v))
}

/// The Phong color at `point` seen from `eye`, for the surface normal
/// `normal`: ambient, plus diffuse and specular terms when the light and
/// the reflection face the right way. No channel is clamped.
pub open spec fn phong(m: Material, light: PointLight, point: Triple, eye: Triple, normal: Triple) -> Triple {
    let eff = hadamard3(m.color@, light.intensity@);
    let ambient = scale3(eff, m.ambient@);
    let lv = light_dir(light.position@, point);
    let ldn = dot3(lv, normal);
    if ldn <= 0 {
        ambient
    } else {
        let diffuse = scale3(scale3(eff, m.diffuse@), ldn);
        let rde = dot3(reflect3(neg3(lv), normal), eye);
        if rde <= 0 {
            add3(ambient, diffuse)
        } else {
            let factor = powf_raw(rde, m.shininess@);
            add3(add3(ambient, diffuse), scale3(scale3(light.intensity@, m.specular@), factor))
        }
    }
}

/// Every value computed on the way to `phong` is in range, and the light is
/// not at `point`.
pub open spec fn phong_in_range(
    m: Material,
    light: PointLight,
    point: Triple,
    eye: Triple,
    normal: Triple,
) -> bool {
    let eff = hadamard3(m.color@, light.intensity@);
    let ambient = scale3(eff, m.ambient@);
    let to_light = sub3(light.position@, point);
    let lv = light_dir(light.position@, point);
    let ldn = dot3(lv, normal);
    let diffuse = scale3(scale3(eff, m.diffuse@), ldn);
    let rde = dot3(reflect3(neg3(lv), normal), eye);
    let factor = powf_raw(rde, m.shininess@);
    let specular = scale3(scale3(light.intensity@, m.specular@), factor);
    &&& fits3(eff)
    &&& fits3(ambient)
    &&& fits3(to_light)
    &&& to_light != (0int, 0int, 0int)
    &&& fits(ldn)
    &&& ldn > 0 ==> {
        &&& fits3(scale3(eff, m.diffuse@))
        &&& fits3(diffuse)
        &&& reflect_in_range(neg3(lv), normal)
        &&& fits(rde)
        &&& fits3(add3(ambient, diffuse))
        &&& rde > 0 ==> {
            &&& powf_in_range(rde, m.shininess@)
            &&& fits3(scale3(light.intensity@, m.specular@))
            &&& fits3(specular)
            &&& fits3(add3(add3(ambient, diffuse), specular))
        }
    }
}

impl Material {
    /// The Phong color at `point` lit by `light`, seen from `eye`, with
    /// surface normal `normal`; `None` when `phong_in_range` does not hold.
    pub fn try_lighting(&self, light: PointLight, point: Point, eye: Vector, normal: Vector) -> (r:
        Option<Color>)
        ensures
            r is Some <==> phong_in_range(*self, light, point@, eye@, normal@),
            r matches Some(c) ==> c@ == phong(*self, light, point@, eye@, normal@),
    {
        let eff = match self.color.try_mul(light.intensity) {
            Some(c) => c,
            None => return None,
        };
        let ambient = match eff.try_scale(self.ambient) {
            Some(c) => c,
            None => return None,
        };
        let to_light = match light.position.try_sub_point(point) {
            Some(v) => v,
            None => return None,
        };
        if to_light.x.raw == 0 && to_light.y.raw == 0 && to_light.z.raw == 0 {
            return None;
        }
        let lv = to_light.normalize();
        let ldn = match lv.try_dot(normal) {
            Some(d) => d,
            None => return None,
        };
        if ldn.raw <= 0 {
            return Some(ambient);
        }
        let diffuse = match eff.try_scale(self.diffuse) {
            Some(c) => match c.try_scale(ldn) {
                Some(c) => c,
                None => return None,
            },
            None => return None,
        };
        let reflected = match lv.neg().try_reflect(normal) {
            Some(v) => v,
            None => return None,
        };
        let rde = match reflected.try_dot(eye) {
            Some(d) => d,
            None => return None,
        };
        let lit = match ambient.try_add(diffuse) {
            Some(c) => c,
            None => return None,
        };
        if rde.raw <= 0 {
            return Some(lit);
        }
        let factor = match rde.checked_powf(self.shininess) {
            Some(f) => f,
            None => return None,
        };
        let specular = match light.intensity.try_scale(self.specular) {
            Some(c) => match c.try_scale(factor) {
                Some(c) => c,
                None => return None,
            },
            None => return None,
        };
        lit.try_add(specular)
    }

    /// The Phong color at `point` lit by `light`, seen from `eye`, with
    /// surface normal `normal`.
    pub fn lighting(&self, light: PointLight, point: Point, eye: Vector, normal: Vector) -> (r: Color)
        requires
            phong_in_range(*self, light, point@, eye@, normal@),
        ensures
            r@ == phong(*self, light, point@, eye@, normal@),
    {
        match self.try_lighting(light, point, eye, normal) {
            Some(c) => c,
            None => Color::black(),
        }
    }
}

impl Default for Material {
    fn default() -> (r: Material)
        ensures
            r.is_default(),
    {
        Material {
            color: Color::white(),
            ambient: Scalar::from_raw(100_000_000),
            diffuse: Scalar::from_raw(900_000_000),
            specular: Scalar::from_raw(900_000_000),
            shininess: Scalar::from_raw(200 * SCALE),
        }
    }
}

/// A light source at a point, with no falloff.
#[derive(Clone, Copy, Debug, PartialEq, Eq, Structural)]
pub struct PointLight {
    pub position: Point,
    pub intensity: Color,
}

} // verus!
