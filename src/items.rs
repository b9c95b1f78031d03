//! Guns: magazines, fire modes, the fire interval and reloading.
use crate::lighting::LightHandle;
use vstd::prelude::*;

verus! {

/// Time between shots of the default guns, in microseconds (twelve a second).
pub const DEFAULT_FIRE_RATE: i64 = 83_333;

/// The time since the last shot is counted up to this many microseconds.
pub const SHOT_TIME_CAP: i64 = 3_600_000_000;

/// Longest frame a gun is advanced over, in microseconds.
pub const MAX_GUN_FRAME: i64 = 10_000_000;

#[derive(Clone, Copy, Debug, PartialEq, Eq, Structural)]
pub enum FireMode {
    SemiAutomatic,
    Automatic,
}

#[derive(Clone, Copy, Debug, PartialEq, Eq, Structural)]
pub struct Chamber {
    pub bullet: bool,
}

#[derive(Clone, Copy, Debug, PartialEq, Eq, Structural)]
pub struct Magazine {
    pub bullets: u32,
    pub max_bullets: u32,
}

#[derive(Clone, Copy, Debug, PartialEq, Eq, Structural)]
pub struct GunBody {
    pub mag: Magazine,
    pub fire_mode: FireMode,
    pub chamber: Chamber,
    /// Shortest time between shots, in microseconds.
    pub fire_rate: i64,
    /// Time since the last shot, in microseconds.
    pub time_since_shot: i64,
}

#[derive(Clone, Copy, Debug, PartialEq, Eq, Structural)]
pub enum GunItem {
    AR15 { body: GunBody },
    Pistol { body: GunBody },
}

pub open spec fn body_of(g: GunItem) -> GunBody {
    match g {
        GunItem::AR15 { body } => body,
        GunItem::Pistol { body } => body,
    }
}

pub open spec fn with_body(g: GunItem, body: GunBody) -> GunItem {
    match g {
        GunItem::AR15 { .. } => GunItem::AR15 { body },
        GunItem::Pistol { .. } => GunItem::Pistol { body },
    }
}

/// The time since the last shot after `dt` more microseconds.
pub open spec fn advanced_time(t: int, dt: int) -> int {
    if t + dt > SHOT_TIME_CAP {
        SHOT_TIME_CAP as int
    } else {
        t + dt
    }
}

impl GunBody {
    pub open spec fn wf(&self) -> bool {
        0 <= self.time_since_shot <= SHOT_TIME_CAP
    }

    /// Takes a round from the magazine and restarts the fire interval.
    pub fn fire_bullet(&mut self)
        requires
            old(self).mag.bullets > 0,
        ensures
            final(self).mag.bullets == old(self).mag.bullets - 1,
            final(self).time_since_shot == 0,
            final(self).mag.max_bullets == old(self).mag.max_bullets,
            final(self).fire_mode == old(self).fire_mode,
            final(self).chamber == old(self).chamber,
            final(self).fire_rate == old(self).fire_rate,
    {
        self.mag.bullets -= 1;
        self.time_since_shot = 0;
    }

    /// One frame of trigger handling: the fire interval runs on by `dt`, a
    /// reload refills the magazine, and a shot is fired where the trigger
    /// acts (pressed this frame for semi-automatic fire, held for automatic
    /// fire), a round is left, the interval has passed and the gun is raised.
    /// Says whether a shot was fired.
    pub fn handle_trigger(
        &mut self,
        dt: i64,
        reload: bool,
        trigger_pressed: bool,
        trigger_down: bool,
        raised: bool,
    ) -> (fired: bool)
        requires
            old(self).wf(),
            0 <= dt <= MAX_GUN_FRAME,
        ensures
            final(self).wf(),
            ({
                let bullets = if reload { old(self).mag.max_bullets } else { old(self).mag.bullets };
                let time = advanced_time(old(self).time_since_shot as int, dt as int);
                let trigger = match old(self).fire_mode {
                    FireMode::SemiAutomatic => trigger_pressed,
                    FireMode::Automatic => trigger_down,
                };
                &&& fired == (trigger && bullets > 0 && time > old(self).fire_rate && raised)
                &&& fired ==> final(self).mag.bullets == bullets - 1 && final(self).time_since_shot
                    == 0
                &&& !fired ==> final(self).mag.bullets == bullets && final(self).time_since_shot
                    == time
            }),
            final(self).mag.max_bullets == old(self).mag.max_bullets,
            final(self).fire_mode == old(self).fire_mode,
            final(self).chamber == old(self).chamber,
            final(self).fire_rate == old(self).fire_rate,
    {
        self.time_since_shot = if self.time_since_shot > SHOT_TIME_CAP - dt {
            SHOT_TIME_CAP
        } else {
            self.time_since_shot + dt
        };
        if reload {
            self.mag.bullets = self.mag.max_bullets;
        }
        let trigger = match self.fire_mode {
            FireMode::SemiAutomatic => trigger_pressed,
            FireMode::Automatic => trigger_down,
        };
        if trigger && self.mag.bullets > 0 && self.time_since_shot > self.fire_rate && raised {
            self.fire_bullet();
            true
        } else {
            false
        }
    }
}

/// A full automatic rifle with a thirty-round magazine.
pub open spec fn ar15() -> GunItem {
    GunItem::AR15 {
        body: GunBody {
            mag: Magazine { bullets: 30, max_bullets: 30 },
            fire_mode: FireMode::Automatic,
            chamber: Chamber { bullet: true },
            fire_rate: DEFAULT_FIRE_RATE,
            time_since_shot: 0,
        },
    }
}

/// A full semi-automatic pistol with a seven-round magazine.
pub open spec fn pistol() -> GunItem {
    GunItem::Pistol {
        body: GunBody {
            mag: Magazine { bullets: 7, max_bullets: 7 },
            fire_mode: FireMode::SemiAutomatic,
            chamber: Chamber { bullet: true },
            fire_rate: DEFAULT_FIRE_RATE,
            time_since_shot: 0,
        },
    }
}

impl GunItem {
    pub fn default_ar15() -> (r: GunItem)
        ensures
            r == ar15(),
    {
        GunItem::AR15 {
            body: GunBody {
                mag: Magazine { bullets: 30, max_bullets: 30 },
                fire_mode: FireMode::Automatic,
                chamber: Chamber { bullet: true },
                fire_rate: DEFAULT_FIRE_RATE,
                time_since_shot: 0,
            },
        }
    }

    pub fn default_pistol() -> (r: GunItem)
        ensures
            r == pistol(),
    {
        GunItem::Pistol {
            body: GunBody {
                mag: Magazine { bullets: 7, max_bullets: 7 },
                fire_mode: FireMode::SemiAutomatic,
                chamber: Chamber { bullet: true },
                fire_rate: DEFAULT_FIRE_RATE,
                time_since_shot: 0,
            },
        }
    }

    /// The spread divisor of the gun's aim: a full half-turn divided by this
    /// is the largest deviation of a shot.
    pub fn get_accuarcy(&self) -> (r: i64)
        ensures
            r == match *self {
                GunItem::AR15 { .. } => 120i64,
                GunItem::Pistol { .. } => 95i64,
            },
    {
        match self {
            GunItem::AR15 { .. } => 120,
            GunItem::Pistol { .. } => 95,
        }
    }

    pub fn get_gun_body(&mut self) -> (r: &mut GunBody)
        ensures
            *r == body_of(*old(self)),
            *final(self) == with_body(*old(self), *final(r)),
    {
        match self {
            GunItem::AR15 { body } => body,
            GunItem::Pistol { body } => body,
        }
    }
}

/// A torch: the light it casts and whether it is switched on.
pub struct FlashLight {
    pub light_handle: LightHandle,
    pub active: bool,
}

impl FlashLight {
    /// Switches the torch over when its key is pressed.
    pub fn handle_controls(&mut self, toggle_pressed: bool)
        ensures
            final(self).active == (old(self).active != toggle_pressed),
            final(self).light_handle == old(self).light_handle,
    {
        if toggle_pressed {
            self.active = !self.active;
        }
    }
}

} // verus!
