use tds_game::day_cycle::{DayCycle, FULL_CYCLE_LENGTH, MIDNIGHT, NOON};
use tds_game::geometry::Vec2;
use tds_game::lighting::{Color4, Light, LightEngine};

fn color(r: i64, g: i64, b: i64) -> Color4 {
    Color4 { r, g, b, a: 1000 }
}

#[test]
fn handles_reach_their_lights() {
    let mut engine = LightEngine::new();
    let a = engine.spawn_light(Light::default_radial());
    let b = engine.spawn_light(Light::Ambient { color: color(1, 2, 3) });
    assert_eq!(engine.spawned_lights(), 2);
    assert_eq!(a.index(), 0);
    assert_eq!(b.index(), 1);
    let moved = Light::Radial { pos: Vec2::new(5, 6), color: color(9, 9, 9), radius: 90 };
    engine.update_light(&a, moved);
    assert_eq!(engine.get_light(&a), moved);
    assert_eq!(engine.get_light(&b), Light::Ambient { color: color(1, 2, 3) });
    assert_eq!(engine.lights().len(), 2);
}

#[test]
fn light_accessors() {
    let radial = Light::default_radial();
    assert_eq!(radial.radius(), 350);
    assert_eq!(radial.light_type(), 0);
    assert_eq!(radial.pos(), Vec2::new(0, 0));
    assert_eq!(radial.color(), color(1000, 1000, 1000));
    let ambient = Light::Ambient { color: color(4, 5, 6) };
    assert_eq!(ambient.radius(), 0);
    assert_eq!(ambient.light_type(), 1);
    assert_eq!(ambient.color(), color(4, 5, 6));
}

#[test]
fn ambient_light_through_the_day() {
    let mut engine = LightEngine::new();
    let mut cycle = DayCycle::new(&mut engine);
    assert_eq!(cycle.get_ambient_light(), Light::Ambient { color: color(250, 300, 400) });
    cycle.time = 5_400_000;
    assert_eq!(cycle.get_ambient_light(), Light::Ambient { color: color(500, 600, 800) });
    cycle.time = 7_200_000;
    assert_eq!(cycle.get_ambient_light(), Light::Ambient { color: color(750, 800, 900) });
    cycle.time = NOON;
    assert_eq!(cycle.get_ambient_light(), Light::Ambient { color: color(1000, 1000, 1000) });
    cycle.time = 30_000_000;
    assert_eq!(cycle.get_ambient_light(), Light::Ambient { color: color(860, 520, 400) });
    cycle.time = MIDNIGHT;
    assert_eq!(cycle.get_ambient_light(), Light::Ambient { color: color(0, 30, 70) });
    cycle.time = FULL_CYCLE_LENGTH;
    assert_eq!(cycle.get_ambient_light(), Light::Ambient { color: color(250, 300, 400) });
}

#[test]
fn shadow_strength_through_the_day() {
    let mut engine = LightEngine::new();
    let mut cycle = DayCycle::new(&mut engine);
    assert_eq!(cycle.get_shadow_alpha(), 55);
    cycle.time = 33_300_000;
    assert_eq!(cycle.get_shadow_alpha(), 27);
    cycle.time = MIDNIGHT;
    assert_eq!(cycle.get_shadow_alpha(), 0);
    cycle.time = 57_300_000;
    assert_eq!(cycle.get_shadow_alpha(), 27);
}

#[test]
fn clock_wraps_and_jumps() {
    let mut engine = LightEngine::new();
    let mut cycle = DayCycle::new(&mut engine);
    assert_eq!(cycle.clock(), (6, 0, false));
    cycle.update(9_000_000, false, false, false, false, &mut engine);
    assert_eq!(cycle.time, 9_000_000);
    assert_eq!(cycle.get_normilized_time(), 150);
    assert_eq!(engine.get_light(cycle.ambient_light_handle()), cycle.get_ambient_light());
    cycle.time = 59_000_000;
    cycle.update(2_000_000, false, false, false, false, &mut engine);
    assert_eq!(cycle.time, 1_000_000);
    cycle.update(0, false, true, false, false, &mut engine);
    assert_eq!(cycle.time, NOON);
    assert_eq!(cycle.clock(), (12, 0, true));
    cycle.update(0, true, false, false, true, &mut engine);
    assert_eq!(cycle.time, MIDNIGHT);
    assert_eq!(cycle.clock(), (12, 0, false));
}
