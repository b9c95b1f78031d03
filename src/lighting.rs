//! Light records kept by an engine and reached through stable handles.
use crate::geometry::Vec2;
use vstd::prelude::*;

verus! {

/// A colour with red, green, blue and alpha in per mille.
#[derive(Clone, Copy, Debug, PartialEq, Eq, Structural)]
pub struct Color4 {
    pub r: i64,
    pub g: i64,
    pub b: i64,
    pub a: i64,
}

#[derive(Clone, Copy, Debug, PartialEq, Eq, Structural)]
pub enum Light {
    Radial { pos: Vec2, color: Color4, radius: i64 },
    Ambient { color: Color4 },
}

/// Key of a light in the engine that spawned it.
#[derive(Clone, Copy, Debug, PartialEq, Eq, Structural)]
pub struct LightHandle(usize);

pub struct LightEngine {
    lights: Vec<Light>,
}

impl Light {
    pub fn default_radial() -> (r: Light)
        ensures
            r == (Light::Radial {
                pos: Vec2 { x: 0, y: 0 },
                color: Color4 { r: 1000, g: 1000, b: 1000, a: 1000 },
                radius: 350,
            }),
    {
        Light::Radial {
            pos: Vec2 { x: 0, y: 0 },
            color: Color4 { r: 1000, g: 1000, b: 1000, a: 1000 },
            radius: 350,
        }
    }

    pub fn color(&self) -> (r: Color4)
        ensures
            r == match *self {
                Light::Radial { color, .. } => color,
                Light::Ambient { color } => color,
            },
    {
        match self {
            Light::Radial { color, .. } => *color,
            Light::Ambient { color } => *color,
        }
    }

    /// Where the light stands; the origin for ambient light.
    pub fn pos(&self) -> (r: Vec2)
        ensures
            r == match *self {
                Light::Radial { pos, .. } => pos,
                Light::Ambient { .. } => Vec2 { x: 0, y: 0 },
            },
    {
        match self {
            Light::Radial { pos, .. } => *pos,
            Light::Ambient { .. } => Vec2 { x: 0, y: 0 },
        }
    }

    /// Reach of the light; zero for ambient light.
    pub fn radius(&self) -> (r: i64)
        ensures
            r == match *self {
                Light::Radial { radius, .. } => radius,
                Light::Ambient { .. } => 0i64,
            },
    {
        match self {
            Light::Radial { radius, .. } => *radius,
            Light::Ambient { .. } => 0,
        }
    }

    /// The kind code the lighting shader reads: radial 0, ambient 1.
    pub fn light_type(&self) -> (r: i32)
        ensures
            r == match *self {
                Light::Radial { .. } => 0i32,
                Light::Ambient { .. } => 1i32,
            },
    {
        match self {
            Light::Radial { .. } => 0,
            Light::Ambient { .. } => 1,
        }
    }
}

impl LightHandle {
    pub closed spec fn id(self) -> int {
        self.0 as int
    }

    pub fn index(&self) -> (r: usize)
        ensures
            r == self.id(),
    {
        self.0
    }
}

impl LightEngine {
    pub closed spec fn view(&self) -> Seq<Light> {
        self.lights@
    }

    pub fn new() -> (r: LightEngine)
        ensures
            r.view() == Seq::<Light>::empty(),
    {
        LightEngine { lights: Vec::new() }
    }

    /// Adds a light and returns its handle, which stays valid for good.
    pub fn spawn_light(&mut self, light: Light) -> (r: LightHandle)
        ensures
            final(self).view() == old(self).view().push(light),
            r.id() == old(self).view().len(),
    {
        let id = self.lights.len();
        self.lights.push(light);
        LightHandle(id)
    }

    /// Replaces the light behind a handle; a handle of no light of this
    /// engine changes nothing.
    pub fn update_light(&mut self, light_handle: &LightHandle, updated_light: Light)
        ensures
            light_handle.id() < old(self).view().len() ==> final(self).view() == old(self).view().update(
                light_handle.id(),
                updated_light,
            ),
            light_handle.id() >= old(self).view().len() ==> final(self).view() == old(self).view(),
    {
        if light_handle.0 < self.lights.len() {
            self.lights.set(light_handle.0, updated_light);
        }
    }

    /// The light behind a handle of this engine.
    pub fn get_light(&self, light_handle: &LightHandle) -> (r: Light)
        requires
            light_handle.id() < self.view().len(),
        ensures
            r == self.view()[light_handle.id()],
    {
        self.lights[light_handle.0]
    }

    pub fn spawned_lights(&self) -> (r: usize)
        ensures
            r == self.view().len(),
    {
        self.lights.len()
    }

    /// All lights, in the order they were spawned.
    pub fn lights(&self) -> (r: &Vec<Light>)
        ensures
            r@ == self.view(),
    {
        &self.lights
    }
}

} // verus!
