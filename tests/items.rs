use tds_game::items::{FireMode, GunItem};

#[test]
fn default_guns() {
    let mut rifle = GunItem::default_ar15();
    assert_eq!(rifle.get_accuarcy(), 120);
    let body = rifle.get_gun_body();
    assert_eq!(body.mag.bullets, 30);
    assert_eq!(body.fire_mode, FireMode::Automatic);
    let mut pistol = GunItem::default_pistol();
    assert_eq!(pistol.get_accuarcy(), 95);
    assert_eq!(pistol.get_gun_body().mag.max_bullets, 7);
}

#[test]
fn firing_takes_a_round() {
    let mut rifle = GunItem::default_ar15();
    let body = rifle.get_gun_body();
    body.time_since_shot = 5;
    body.fire_bullet();
    assert_eq!(body.mag.bullets, 29);
    assert_eq!(body.time_since_shot, 0);
    assert!(matches!(rifle, GunItem::AR15 { body } if body.mag.bullets == 29));
}

#[test]
fn automatic_fire_waits_for_the_interval() {
    let mut rifle = GunItem::default_ar15();
    let body = rifle.get_gun_body();
    assert!(!body.handle_trigger(50_000, false, false, true, true));
    assert!(body.handle_trigger(50_000, false, false, true, true));
    assert_eq!(body.mag.bullets, 29);
    assert!(!body.handle_trigger(50_000, false, false, true, true));
    assert_eq!(body.time_since_shot, 50_000);
    assert!(!body.handle_trigger(50_000, false, false, true, false));
    assert!(!body.handle_trigger(50_000, false, true, false, true));
}

#[test]
fn semi_automatic_fire_needs_a_press() {
    let mut pistol = GunItem::default_pistol();
    let body = pistol.get_gun_body();
    assert!(!body.handle_trigger(100_000, false, false, true, true));
    assert!(body.handle_trigger(100_000, false, true, true, true));
    assert_eq!(body.mag.bullets, 6);
}

#[test]
fn empty_magazine_fires_nothing_until_reloaded() {
    let mut pistol = GunItem::default_pistol();
    let body = pistol.get_gun_body();
    body.mag.bullets = 0;
    assert!(!body.handle_trigger(100_000, false, true, true, true));
    assert!(body.handle_trigger(100_000, true, true, true, true));
    assert_eq!(body.mag.bullets, 6);
}

#[test]
fn flashlight_toggles_on_its_key() {
    let mut engine = tds_game::lighting::LightEngine::new();
    let handle = engine.spawn_light(tds_game::lighting::Light::default_radial());
    let mut torch = tds_game::items::FlashLight { light_handle: handle, active: false };
    torch.handle_controls(false);
    assert!(!torch.active);
    torch.handle_controls(true);
    assert!(torch.active);
    torch.handle_controls(true);
    assert!(!torch.active);
    assert_eq!(torch.light_handle, handle);
}
