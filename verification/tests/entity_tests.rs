use planetoid::asteroid::{Asteroid, Fragment};
use planetoid::bullet::Bullet;
use planetoid::clock::SessionClock;
use planetoid::collision::Collided;
use planetoid::ship::{copy_ships, Ship};
use planetoid::vector::Vec2;

fn bits(x: f32) -> u32 {
    x.to_bits()
}

fn vec2(x: f32, y: f32) -> Vec2 {
    Vec2::new(bits(x), bits(y))
}

fn micros(seconds: f64) -> u64 {
    (seconds * 1_000_000.0) as u64
}

fn disc<T: Collided>(body: &T) -> (Vec2, u32) {
    (body.pos(), body.size())
}

#[test]
fn ship_clone_test() {
    let mut bullets: Vec<Bullet> = Vec::new();

    let bullet = Bullet::new(vec2(1., 1.), vec2(2., 2.), micros(5.), false);
    bullets.push(bullet);

    let ship = Ship {
        name: String::from("Uggla"),
        pos: vec2(1., 1.),
        vel: vec2(2., 2.),
        acc: vec2(3., 3.),
        rot: bits(1.),
        size: bits(1.),
        collided: false,
        bullets,
    };

    let ship_clone = ship.clone();

    assert_eq!(ship.name, ship_clone.name);
    assert_eq!(ship.pos, ship_clone.pos);
    assert_eq!(ship.vel, ship_clone.vel);
    assert_eq!(ship.acc, ship_clone.acc);
    assert_eq!(ship.rot, ship_clone.rot);
    assert_eq!(ship.size, ship_clone.size);
    assert_eq!(ship.collided, ship_clone.collided);
    assert_eq!(ship.bullets[0].pos(), ship_clone.bullets[0].pos());
    assert_eq!(ship.bullets[0].vel(), ship_clone.bullets[0].vel());
    assert_eq!(ship.bullets[0].shot_at(), ship_clone.bullets[0].shot_at());
    assert_eq!(ship.bullets[0].size(), ship_clone.bullets[0].size());
}

#[test]
fn new_ship_rests_at_the_center() {
    let mut ship = Ship::new("Uggla".to_string(), vec2(512., 384.));
    assert_eq!(ship.name(), "Uggla");
    assert_eq!(ship.pos(), vec2(512., 384.));
    assert_eq!(ship.vel(), vec2(0., 0.));
    assert_eq!(ship.acc, vec2(0., 0.));
    assert_eq!(ship.rot(), bits(0.));
    assert_eq!(f32::from_bits(ship.size()), 25.0_f32 / 3.0_f32);
    assert!(!ship.collided());
    assert!(ship.bullets.is_empty());
    ship.set_rot(bits(5.));
    ship.set_collided(true);
    assert_eq!(ship.rot(), bits(5.));
    assert!(ship.collided());
    assert_eq!(disc(&ship), (vec2(512., 384.), ship.size));
}

#[test]
fn shooting_adds_a_fresh_bullet_at_the_end() {
    let mut ship = Ship::new("a".to_string(), vec2(0., 0.));
    ship.shoot(vec2(1., 2.), vec2(0., -7.), micros(3.0));
    ship.shoot(vec2(3., 4.), vec2(7., 0.), micros(3.5));
    assert_eq!(ship.bullets.len(), 2);
    let last = ship.bullets[1];
    assert_eq!(last.pos(), vec2(3., 4.));
    assert_eq!(last.vel(), vec2(7., 0.));
    assert_eq!(last.shot_at(), 3_500_000);
    assert_eq!(f32::from_bits(last.size()), 2.0);
    assert!(!last.collided());
    assert_eq!(disc(&last), (vec2(3., 4.), bits(2.)));
}

#[test]
fn bullets_expire_after_their_lifetime() {
    let bullet = Bullet::new(vec2(0., 0.), vec2(0., 0.), 1_000_000, false);
    assert!(bullet.is_in_flight(0));
    assert!(bullet.is_in_flight(2_499_999));
    assert!(!bullet.is_in_flight(2_500_000));
    assert!(!bullet.is_in_flight(u64::MAX));
    let late = Bullet::new(vec2(0., 0.), vec2(0., 0.), u64::MAX, true);
    assert!(late.is_in_flight(u64::MAX));

    let mut ship = Ship::new("a".to_string(), vec2(0., 0.));
    ship.shoot(vec2(1., 0.), vec2(0., 0.), 0);
    ship.shoot(vec2(2., 0.), vec2(0., 0.), 600_000);
    ship.shoot(vec2(3., 0.), vec2(0., 0.), 100_000);
    ship.shoot(vec2(4., 0.), vec2(0., 0.), 2_000_000);
    ship.expire_bullets(1_600_000);
    let left: Vec<Vec2> = ship.bullets.iter().map(|b| b.pos()).collect();
    assert_eq!(left, vec![vec2(2., 0.), vec2(4., 0.)]);
}

#[test]
fn copies_of_ships_keep_order_and_content() {
    let mut a = Ship::new("a".to_string(), vec2(1., 1.));
    a.shoot(vec2(1., 2.), vec2(0., 1.), 5);
    let mut b = Ship::new("b".to_string(), vec2(2., 2.));
    b.set_collided(true);
    let copies = copy_ships(&vec![a, b]);
    assert_eq!(copies.len(), 2);
    assert_eq!(copies[0].name, "a");
    assert_eq!(copies[0].bullets.len(), 1);
    assert_eq!(copies[0].bullets[0].shot_at(), 5);
    assert_eq!(copies[1].name, "b");
    assert!(copies[1].collided);
}

#[test]
fn new_asteroid_has_eight_sides() {
    let mut asteroid = Asteroid::new(vec2(10., 20.), vec2(0.5, -0.5), bits(1.5), bits(76.8));
    assert_eq!(asteroid.pos(), vec2(10., 20.));
    assert_eq!(asteroid.vel, vec2(0.5, -0.5));
    assert_eq!(asteroid.rot, bits(0.));
    assert_eq!(asteroid.rot_speed, bits(1.5));
    assert_eq!(asteroid.size(), bits(76.8));
    assert_eq!(asteroid.sides(), 8);
    assert!(!asteroid.collided());
    assert_eq!(asteroid.last_updated(), 0);
    assert!(asteroid.splits());
    asteroid.set_collided(true);
    asteroid.set_last_updated(9);
    assert!(asteroid.collided());
    assert_eq!(asteroid.last_updated(), 9);
    assert_eq!(asteroid.size(), bits(76.8));
    assert_eq!(disc(&asteroid), (vec2(10., 20.), bits(76.8)));
    let placed = Asteroid::new_pos_and_size(bits(1.), bits(2.), bits(10.), vec2(0., 1.), bits(2.));
    assert_eq!(placed.pos(), vec2(1., 2.));
    assert_eq!(placed.sides(), 8);
}

#[test]
fn split_children_lose_a_side_and_inherit_the_time() {
    let first = Fragment { vel: vec2(1., 0.), rot: bits(90.), rot_speed: bits(1.) };
    let second = Fragment { vel: vec2(-1., 0.), rot: bits(180.), rot_speed: bits(-1.) };
    let children = Asteroid::new_split(vec2(5., 6.), first, second, bits(8.), 8, 1234);
    assert_eq!(children.len(), 2);
    assert_eq!(children[0].vel, vec2(1., 0.));
    assert_eq!(children[0].rot, bits(90.));
    assert_eq!(children[1].vel, vec2(-1., 0.));
    assert_eq!(children[1].rot_speed, bits(-1.));
    for child in &children {
        assert_eq!(child.pos(), vec2(5., 6.));
        assert_eq!(child.size(), bits(8.));
        assert_eq!(child.sides(), 7);
        assert!(!child.collided());
        assert_eq!(child.last_updated(), 1234);
    }
    let squares = Asteroid::new_split(vec2(0., 0.), first, second, bits(1.), 5, 0);
    assert_eq!(squares[0].sides(), 4);
    assert!(!squares[0].splits());
}

#[test]
fn session_clock_counts_from_its_epoch() {
    let mut clock = SessionClock::new();
    assert_eq!(clock.now(5_000_000), 5_000_000);
    clock.rebase(2_000_000);
    assert_eq!(clock.epoch, 2_000_000);
    assert_eq!(clock.now(2_000_000), 0);
    assert_eq!(clock.now(5_000_000), 3_000_000);
    assert_eq!(clock.now(1_000_000), 0);
}
