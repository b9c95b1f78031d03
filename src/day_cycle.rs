//! The day/night cycle: a clock that wraps once a cycle and the ambient
//! light and shadow strength it gives at each moment.
use crate::geometry::trunc_div;
use crate::lighting::{Color4, Light, LightEngine, LightHandle};
use vstd::prelude::*;

verus! {

/// Length of a whole day, in microseconds.
pub const FULL_CYCLE_LENGTH: i64 = 60_000_000;

/// Moments of the cycle, in microseconds from sunrise.
pub const SUNRISE_END: i64 = 5_400_000;

pub const DAY_START: i64 = 9_000_000;

pub const NOON: i64 = 15_000_000;

pub const DUSK_START: i64 = 23_400_000;

pub const DAY_COLOR_END: i64 = 24_600_000;

pub const SUNSET: i64 = 30_000_000;

pub const NIGHT_START: i64 = 36_600_000;

pub const MIDNIGHT: i64 = 45_000_000;

pub const DAWN_START: i64 = 54_600_000;

/// Shadow alpha through the day.
pub const DAY_SHADOW: i64 = 55;

/// Longest frame the clock is advanced over, in microseconds.
pub const MAX_CLOCK_FRAME: i64 = 10_000_000;

pub open spec fn day_color() -> Color4 {
    Color4 { r: 1000, g: 1000, b: 1000, a: 1000 }
}

pub open spec fn sunrise_color() -> Color4 {
    Color4 { r: 500, g: 600, b: 800, a: 1000 }
}

pub open spec fn sunset_color() -> Color4 {
    Color4 { r: 860, g: 520, b: 400, a: 1000 }
}

pub open spec fn night_color() -> Color4 {
    Color4 { r: 0, g: 30, b: 70, a: 1000 }
}

/// `a + (b - a) * num / den`, rounded toward zero.
pub open spec fn lerp(a: int, b: int, num: int, den: int) -> int {
    a + trunc_div((b - a) * num, den)
}

/// Each colour channel moved from `from` toward `to` by `num / den`; full
/// alpha.
pub open spec fn blend(from: Color4, to: Color4, num: int, den: int) -> Color4 {
    Color4 {
        r: lerp(from.r as int, to.r as int, num, den) as i64,
        g: lerp(from.g as int, to.g as int, num, den) as i64,
        b: lerp(from.b as int, to.b as int, num, den) as i64,
        a: 1000,
    }
}

/// The ambient colour at time `t` of the cycle: night brightening toward a
/// half-strength sunrise before the cycle ends, the sunrise colour rising to
/// full strength, then fading to day, day fading to the sunset colour, and
/// the sunset colour fading to night.
pub open spec fn ambient_color(t: int) -> Color4 {
    if DAWN_START <= t <= FULL_CYCLE_LENGTH {
        blend(
            night_color(),
            Color4 { r: 250, g: 300, b: 400, a: 1000 },
            t - DAWN_START,
            FULL_CYCLE_LENGTH - DAWN_START,
        )
    } else if 0 <= t <= SUNRISE_END {
        blend(Color4 { r: 0, g: 0, b: 0, a: 1000 }, sunrise_color(), t + SUNRISE_END, 2 * SUNRISE_END)
    } else if SUNRISE_END <= t <= DAY_START {
        blend(sunrise_color(), day_color(), t - SUNRISE_END, DAY_START - SUNRISE_END)
    } else if DUSK_START <= t <= SUNSET {
        blend(day_color(), sunset_color(), t - DUSK_START, SUNSET - DUSK_START)
    } else if SUNSET <= t <= NIGHT_START {
        blend(sunset_color(), night_color(), t - SUNSET, NIGHT_START - SUNSET)
    } else if SUNRISE_END <= t < DAY_COLOR_END {
        day_color()
    } else {
        night_color()
    }
}

/// Shadow alpha at time `t`: growing through the dawn, full by day, fading
/// after sunset, none at night.
pub open spec fn shadow_alpha(t: int) -> int {
    if t > DAWN_START {
        (t - DAWN_START) * DAY_SHADOW / (FULL_CYCLE_LENGTH - DAWN_START)
    } else if t > SUNSET {
        if t >= NIGHT_START {
            0
        } else {
            DAY_SHADOW * (NIGHT_START - t) / (NIGHT_START - SUNSET)
        }
    } else {
        DAY_SHADOW as int
    }
}

/// The clock time after `dt` more microseconds, wrapped once a cycle.
pub open spec fn advanced(t: int, dt: int) -> int {
    if t + dt > FULL_CYCLE_LENGTH {
        t + dt - FULL_CYCLE_LENGTH
    } else {
        t + dt
    }
}

/// The lights after the one behind `h`, where there is one, is set to the
/// ambient light of time `t`.
pub open spec fn ambient_set(lights: Seq<Light>, h: LightHandle, t: int) -> Seq<Light> {
    if h.id() < lights.len() {
        lights.update(h.id(), Light::Ambient { color: ambient_color(t) })
    } else {
        lights
    }
}

pub struct DayCycle {
    /// Time since sunrise, in microseconds.
    pub time: i64,
    pub ambient_light_handle: LightHandle,
}

fn lerp_channel(a: i64, b: i64, num: i64, den: i64) -> (r: i64)
    requires
        0 <= a <= 1000,
        0 <= b <= 1000,
        0 <= num <= den,
        0 < den <= FULL_CYCLE_LENGTH,
    ensures
        r == lerp(a as int, b as int, num as int, den as int),
        0 <= r <= 1000,
{
    assert(-1000 * den <= (b - a) * num <= 1000 * den) by (nonlinear_arith)
        requires 0 <= a <= 1000, 0 <= b <= 1000, 0 <= num <= den;
    let d = (b - a) * num;
    proof {
        let dd = d as int;
        crate::bullet::lemma_trunc_div_shrinks(b - a, num as int, den as int);
        assert(b >= a ==> dd >= 0) by (nonlinear_arith)
            requires dd == (b - a) * num, num >= 0;
        assert(b < a ==> dd <= 0) by (nonlinear_arith)
            requires dd == (b - a) * num, num >= 0;
        if dd >= 0 {
            vstd::arithmetic::div_mod::lemma_div_is_ordered(0, dd, den as int);
        } else {
            vstd::arithmetic::div_mod::lemma_div_is_ordered(0, -dd, den as int);
        }
    }
    a + d / den
}

pub open spec fn color_ok(c: Color4) -> bool {
    0 <= c.r <= 1000 && 0 <= c.g <= 1000 && 0 <= c.b <= 1000
}

fn blend_colors(from: Color4, to: Color4, num: i64, den: i64) -> (r: Color4)
    requires
        color_ok(from),
        color_ok(to),
        0 <= num <= den,
        0 < den <= FULL_CYCLE_LENGTH,
    ensures
        r == blend(from, to, num as int, den as int),
{
    Color4 {
        r: lerp_channel(from.r, to.r, num, den),
        g: lerp_channel(from.g, to.g, num, den),
        b: lerp_channel(from.b, to.b, num, den),
        a: 1000,
    }
}

impl DayCycle {
    pub open spec fn wf(&self) -> bool {
        0 <= self.time <= FULL_CYCLE_LENGTH
    }

    pub open spec fn handle(&self) -> LightHandle {
        self.ambient_light_handle
    }

    /// A cycle at sunrise, with its ambient light spawned in the engine.
    pub fn new(light_engine: &mut LightEngine) -> (r: DayCycle)
        ensures
            r.wf(),
            r.time == 0,
            final(light_engine).view() == old(light_engine).view().push(
                Light::Ambient { color: day_color() },
            ),
            r.handle().id() == old(light_engine).view().len(),
    {
        let handle = light_engine.spawn_light(
            Light::Ambient { color: Color4 { r: 1000, g: 1000, b: 1000, a: 1000 } },
        );
        DayCycle { time: 0, ambient_light_handle: handle }
    }

    pub fn ambient_light_handle(&self) -> (r: &LightHandle)
        ensures
            *r == self.handle(),
    {
        &self.ambient_light_handle
    }

    /// Share of the cycle gone, in per mille.
    pub fn get_normilized_time(&self) -> (r: i64)
        requires
            self.wf(),
        ensures
            r == self.time * 1000 / FULL_CYCLE_LENGTH as int,
    {
        self.time * 1000 / FULL_CYCLE_LENGTH
    }

    /// Shadow alpha at the current time.
    pub fn get_shadow_alpha(&self) -> (r: u8)
        requires
            self.wf(),
        ensures
            r == shadow_alpha(self.time as int),
    {
        let t = self.time;
        if t > DAWN_START {
            proof {
                vstd::arithmetic::div_mod::lemma_div_is_ordered(
                    (t - DAWN_START) * DAY_SHADOW,
                    (FULL_CYCLE_LENGTH - DAWN_START) * DAY_SHADOW,
                    FULL_CYCLE_LENGTH - DAWN_START,
                );
                vstd::arithmetic::div_mod::lemma_div_multiples_vanish(
                    DAY_SHADOW as int,
                    FULL_CYCLE_LENGTH - DAWN_START,
                );
                vstd::arithmetic::div_mod::lemma_div_is_ordered(
                    0,
                    (t - DAWN_START) * DAY_SHADOW,
                    FULL_CYCLE_LENGTH - DAWN_START,
                );
            }
            ((t - DAWN_START) * DAY_SHADOW / (FULL_CYCLE_LENGTH - DAWN_START)) as u8
        } else if t > SUNSET {
            if t >= NIGHT_START {
                0
            } else {
                proof {
                    vstd::arithmetic::div_mod::lemma_div_is_ordered(
                        DAY_SHADOW * (NIGHT_START - t),
                        DAY_SHADOW * (NIGHT_START - SUNSET),
                        NIGHT_START - SUNSET,
                    );
                    vstd::arithmetic::div_mod::lemma_div_multiples_vanish(
                        DAY_SHADOW as int,
                        NIGHT_START - SUNSET,
                    );
                    assert(DAY_SHADOW * (NIGHT_START - SUNSET) == (NIGHT_START - SUNSET) * DAY_SHADOW);
                    vstd::arithmetic::div_mod::lemma_div_is_ordered(
                        0,
                        DAY_SHADOW * (NIGHT_START - t),
                        NIGHT_START - SUNSET,
                    );
                }
                (DAY_SHADOW * (NIGHT_START - t) / (NIGHT_START - SUNSET)) as u8
            }
        } else {
            DAY_SHADOW as u8
        }
    }

    /// The ambient light at the current time.
    pub fn get_ambient_light(&self) -> (r: Light)
        requires
            self.wf(),
        ensures
            r == (Light::Ambient { color: ambient_color(self.time as int) }),
    {
        let t = self.time;
        let color = if DAWN_START <= t && t <= FULL_CYCLE_LENGTH {
            blend_colors(
                Color4 { r: 0, g: 30, b: 70, a: 1000 },
                Color4 { r: 250, g: 300, b: 400, a: 1000 },
                t - DAWN_START,
                FULL_CYCLE_LENGTH - DAWN_START,
            )
        } else if 0 <= t && t <= SUNRISE_END {
            blend_colors(
                Color4 { r: 0, g: 0, b: 0, a: 1000 },
                Color4 { r: 500, g: 600, b: 800, a: 1000 },
                t + SUNRISE_END,
                2 * SUNRISE_END,
            )
        } else if SUNRISE_END <= t && t <= DAY_START {
            blend_colors(
                Color4 { r: 500, g: 600, b: 800, a: 1000 },
                Color4 { r: 1000, g: 1000, b: 1000, a: 1000 },
                t - SUNRISE_END,
                DAY_START - SUNRISE_END,
            )
        } else if DUSK_START <= t && t <= SUNSET {
            blend_colors(
                Color4 { r: 1000, g: 1000, b: 1000, a: 1000 },
                Color4 { r: 860, g: 520, b: 400, a: 1000 },
                t - DUSK_START,
                SUNSET - DUSK_START,
            )
        } else if SUNSET <= t && t <= NIGHT_START {
            blend_colors(
                Color4 { r: 860, g: 520, b: 400, a: 1000 },
                Color4 { r: 0, g: 30, b: 70, a: 1000 },
                t - SUNSET,
                NIGHT_START - SUNSET,
            )
        } else if SUNRISE_END <= t && t < DAY_COLOR_END {
            Color4 { r: 1000, g: 1000, b: 1000, a: 1000 }
        } else {
            Color4 { r: 0, g: 30, b: 70, a: 1000 }
        };
        Light::Ambient { color }
    }

    /// Advances the clock by `dt`, wrapping once a cycle; a jump key sets the
    /// clock to just before the end of the cycle, to noon, to just before
    /// sunset, or to midnight (the later key wins). The ambient light in the
    /// engine is then set for the new time.
    pub fn update(
        &mut self,
        dt: i64,
        to_dawn: bool,
        to_noon: bool,
        to_dusk: bool,
        to_midnight: bool,
        light_engine: &mut LightEngine,
    )
        requires
            old(self).wf(),
            0 <= dt <= MAX_CLOCK_FRAME,
        ensures
            final(self).wf(),
            final(self).handle() == old(self).handle(),
            final(self).time == if to_midnight {
                MIDNIGHT as int
            } else if to_dusk {
                SUNSET - SUNRISE_END
            } else if to_noon {
                NOON as int
            } else if to_dawn {
                FULL_CYCLE_LENGTH - SUNRISE_END
            } else {
                advanced(old(self).time as int, dt as int)
            },
            final(light_engine).view() == ambient_set(
                old(light_engine).view(),
                old(self).handle(),
                final(self).time as int,
            ),
    {
        self.time = self.time + dt;
        if self.time > FULL_CYCLE_LENGTH {
            self.time = self.time - FULL_CYCLE_LENGTH;
        }
        if to_dawn {
            self.time = FULL_CYCLE_LENGTH - SUNRISE_END;
        }
        if to_noon {
            self.time = NOON;
        }
        if to_dusk {
            self.time = SUNSET - SUNRISE_END;
        }
        if to_midnight {
            self.time = MIDNIGHT;
        }
        let light = self.get_ambient_light();
        light_engine.update_light(&self.ambient_light_handle, light);
    }

    /// The in-game clock: hour on a twelve-hour dial, minute, and whether it
    /// is after midday. Sunrise is six in the morning.
    pub fn clock(&self) -> (r: (i64, i64, bool))
        requires
            self.wf(),
        ensures
            ({
                let hour = (self.time + FULL_CYCLE_LENGTH / 4) * 24 / FULL_CYCLE_LENGTH as int;
                &&& r.0 == if hour % 12 == 0 {
                    12
                } else {
                    hour % 12
                }
                &&& r.1 == (self.time * 1440 / FULL_CYCLE_LENGTH as int) % 60
                &&& r.2 == (hour % 24 >= 12)
            }),
    {
        let hour = (self.time + FULL_CYCLE_LENGTH / 4) * 24 / FULL_CYCLE_LENGTH;
        let minute = (self.time * 1440 / FULL_CYCLE_LENGTH) % 60;
        let dial = if hour % 12 == 0 {
            12
        } else {
            hour % 12
        };
        (dial, minute, hour % 24 >= 12)
    }
}

} // verus!
