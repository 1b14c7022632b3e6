use planetoid::asteroid::Asteroid;
use planetoid::clock::SessionClock;
use planetoid::field::Asteroids;
use planetoid::network::{
    apply_game_data, apply_guest_data, apply_hello, classify, deserialize_host_data,
    find_own_ship, hello_message, replace_ships_named, serialize_guest_data, serialize_host_data,
    wait_synchronization_data, Frame, GameData, GuestData, Incoming, WaitStep,
};
use planetoid::ship::Ship;
use planetoid::vector::Vec2;

fn bits(x: f32) -> u32 {
    x.to_bits()
}

fn vec2(x: f32, y: f32) -> Vec2 {
    Vec2::new(bits(x), bits(y))
}

fn rock(size: f32, last_updated: u64) -> Asteroid {
    let mut asteroid = Asteroid::new(vec2(3., 4.), vec2(0., 0.), bits(0.), bits(size));
    asteroid.set_last_updated(last_updated);
    asteroid
}

fn ship(name: &str, x: f32) -> Ship {
    Ship::new(name.to_string(), vec2(x, 0.))
}

fn field(owner: &str, sizes: &[f32]) -> Asteroids {
    let bodies: Vec<Asteroid> = sizes.iter().map(|s| rock(*s, 10)).collect();
    Asteroids::generate_field(owner.to_string(), bodies.len() as u8, &bodies)
}

fn kind(frame: &Frame) -> (&'static str, String) {
    match frame {
        Frame::Hello(name) => ("hello", name.clone()),
        Frame::GuestData(payload) => ("guest", payload.clone()),
        Frame::GameData(payload) => ("game", payload.clone()),
        Frame::Unknown => ("unknown", String::new()),
    }
}

#[test]
fn frames_are_told_by_their_prefix() {
    assert_eq!(kind(&classify("host", "Hello from Bob")), ("hello", "Bob".to_string()));
    assert_eq!(kind(&classify("guest", "Hello from Bob")), ("hello", "Bob".to_string()));
    assert_eq!(kind(&classify("host", "GuestData: {\"a\":1}")), ("guest", "{\"a\":1}".to_string()));
    assert_eq!(kind(&classify("guest", "GameData: {}")), ("game", "{}".to_string()));
    assert_eq!(kind(&classify("spectator", "GameData: {}")), ("game", "{}".to_string()));
    assert_eq!(kind(&classify("host", "Hello from ")), ("hello", String::new()));
}

#[test]
fn frames_for_another_role_are_unknown() {
    assert_eq!(kind(&classify("host", "GameData: {}")).0, "unknown");
    assert_eq!(kind(&classify("guest", "GuestData: {}")).0, "unknown");
    assert_eq!(kind(&classify("spectator", "GuestData: {}")).0, "unknown");
    assert_eq!(kind(&classify("host", "")).0, "unknown");
    assert_eq!(kind(&classify("host", "joined")).0, "unknown");
    assert_eq!(kind(&classify("host", " GuestData: {}")).0, "unknown");
    assert_eq!(kind(&classify("guest", "gamedata: {}")).0, "unknown");
}

#[test]
fn a_marker_inside_a_payload_does_not_change_the_frame() {
    let text = "GameData: {\"players\":[{\"name\":\"Hello from GuestData: \"}]}";
    let (what, payload) = kind(&classify("guest", text));
    assert_eq!(what, "game");
    assert_eq!(payload, "{\"players\":[{\"name\":\"Hello from GuestData: \"}]}");
    assert_eq!(kind(&classify("host", "Hello from GameData: x")), ("hello", "GameData: x".to_string()));
}

#[test]
fn outgoing_messages_carry_their_prefix() {
    assert_eq!(hello_message("Uggla"), "Hello from Uggla");
    assert_eq!(serialize_host_data("{\"gameover\":false}"), "GameData: {\"gameover\":false}");
    assert_eq!(serialize_guest_data("{}"), "GuestData: {}");
    assert_eq!(kind(&classify("host", &hello_message("x y"))), ("hello", "x y".to_string()));
    assert_eq!(kind(&classify("guest", &serialize_host_data("p"))), ("game", "p".to_string()));
    assert_eq!(kind(&classify("host", &serialize_guest_data("q"))), ("guest", "q".to_string()));
}

#[test]
fn hello_adds_a_ship_and_rebases_the_field() {
    let mut players = vec![ship("host", 1.)];
    let mut asteroids = field("host", &[10., 20.]);
    let mut clock = SessionClock::new();
    apply_hello(&mut players, &mut asteroids, &mut clock, "Bob".to_string(), 42_000_000, vec2(5., 6.));
    assert_eq!(players.len(), 2);
    assert_eq!(players[1].name, "Bob");
    assert_eq!(players[1].pos, vec2(5., 6.));
    assert!(players[1].bullets.is_empty());
    assert_eq!(clock.epoch, 42_000_000);
    assert_eq!(asteroids.get("host_000000").unwrap().last_updated(), 0);
    assert_eq!(asteroids.get("host_000001").unwrap().last_updated(), 0);
    assert_eq!(asteroids.get("host_000001").unwrap().size(), bits(20.));
    assert_eq!(asteroids.count(), 2);
}

#[test]
fn guest_data_replaces_the_guest_ship_and_merges() {
    let mut players = vec![ship("host", 1.), ship("Bob", 2.), ship("Eve", 3.)];
    let mut asteroids = field("host", &[10.]);
    let mut guest_ship = ship("Bob", 99.);
    guest_ship.shoot(vec2(1., 1.), vec2(0., 7.), 5);
    guest_ship.set_collided(true);
    let mut theirs = Asteroids::with_count(0);
    theirs.insert("Bob_000000".to_string(), rock(8., 3));
    theirs.insert("host_000000".to_string(), rock(77., 11));
    let data = GuestData { asteroids: theirs, ship: guest_ship };
    apply_guest_data(&mut players, &mut asteroids, data);
    assert_eq!(players.len(), 3);
    assert_eq!(players[1].pos, vec2(99., 0.));
    assert_eq!(players[1].bullets.len(), 1);
    assert!(players[1].collided);
    assert_eq!(players[0].pos, vec2(1., 0.));
    assert_eq!(players[2].pos, vec2(3., 0.));
    assert_eq!(asteroids.get("Bob_000000").unwrap().size(), bits(8.));
    assert_eq!(asteroids.get("host_000000").unwrap().size(), bits(77.));
    assert_eq!(asteroids.count(), 2);
}

#[test]
fn game_data_keeps_the_own_ship() {
    let mut mine = ship("Bob", 50.);
    mine.shoot(vec2(1., 1.), vec2(0., 7.), 5);
    let mut players = vec![ship("old", 0.), mine];
    let mut asteroids = Asteroids::with_count(0);
    let mut gameover = false;
    let mut host_msg_received = false;
    let data = GameData {
        asteroids: field("host", &[10., 20.]),
        players: vec![ship("host", 1.), ship("Bob", 2.), ship("Eve", 3.)],
        gameover: true,
    };
    apply_game_data(
        "Bob",
        &mut players,
        &mut asteroids,
        &mut gameover,
        &mut host_msg_received,
        data,
        vec2(9., 9.),
    );
    assert!(gameover);
    assert!(host_msg_received);
    let names: Vec<&str> = players.iter().map(|s| s.name.as_str()).collect();
    assert_eq!(names, ["host", "Bob", "Eve"]);
    assert_eq!(players[1].pos, vec2(50., 0.));
    assert_eq!(players[1].bullets.len(), 1);
    assert_eq!(players[0].pos, vec2(1., 0.));
    assert_eq!(asteroids.len(), 2);
    assert_eq!(asteroids.count(), 2);
}

#[test]
fn own_ship_is_the_last_of_that_name_or_a_new_one() {
    let players = vec![ship("Bob", 1.), ship("Eve", 2.), ship("Bob", 3.)];
    assert_eq!(find_own_ship(&players, "Bob", vec2(9., 9.)).pos, vec2(3., 0.));
    assert_eq!(find_own_ship(&players, "Eve", vec2(9., 9.)).pos, vec2(2., 0.));
    let fresh = find_own_ship(&players, "Zed", vec2(9., 9.));
    assert_eq!(fresh.name, "Zed");
    assert_eq!(fresh.pos, vec2(9., 9.));
    let mut players = players;
    replace_ships_named(&mut players, "Bob", &ship("Bob", 7.));
    assert_eq!(players[0].pos, vec2(7., 0.));
    assert_eq!(players[1].pos, vec2(2., 0.));
    assert_eq!(players[2].pos, vec2(7., 0.));
}

#[test]
fn messages_are_applied_by_the_role_they_are_for() {
    let center = vec2(0., 0.);
    let mut clock = SessionClock::new();
    let mut gameover = false;
    let mut received = false;

    // The host ignores game data.
    let mut players = vec![ship("host", 1.)];
    let mut asteroids = field("host", &[10.]);
    let game = Incoming::GameData(GameData {
        asteroids: field("x", &[1., 2.]),
        players: vec![],
        gameover: true,
    });
    deserialize_host_data("host", "host", game, &mut asteroids, &mut players, &mut gameover, &mut received, &mut clock, 5, center);
    assert_eq!(asteroids.len(), 1);
    assert_eq!(players.len(), 1);
    assert!(!gameover && !received);

    // A guest ignores guest data.
    let guest = Incoming::GuestData(GuestData { asteroids: field("x", &[1.]), ship: ship("host", 9.) });
    deserialize_host_data("Bob", "guest", guest, &mut asteroids, &mut players, &mut gameover, &mut received, &mut clock, 5, center);
    assert_eq!(asteroids.len(), 1);
    assert_eq!(players[0].pos, vec2(1., 0.));

    // The host applies guest data.
    let guest = Incoming::GuestData(GuestData { asteroids: field("x", &[1.]), ship: ship("host", 9.) });
    deserialize_host_data("host", "host", guest, &mut asteroids, &mut players, &mut gameover, &mut received, &mut clock, 5, center);
    assert_eq!(asteroids.len(), 2);
    assert_eq!(players[0].pos, vec2(9., 0.));
    assert!(!received);

    // A spectator applies game data.
    let game = Incoming::GameData(GameData {
        asteroids: field("y", &[1.]),
        players: vec![ship("host", 4.)],
        gameover: true,
    });
    deserialize_host_data("Eve", "spectator", game, &mut asteroids, &mut players, &mut gameover, &mut received, &mut clock, 5, center);
    assert_eq!(asteroids.len(), 3);
    assert_eq!(players[0].pos, vec2(4., 0.));
    assert!(gameover && received);

    // Everyone applies a hello; unknown messages change nothing.
    deserialize_host_data("Eve", "spectator", Incoming::Hello("Zed".to_string()), &mut asteroids, &mut players, &mut gameover, &mut received, &mut clock, 77, center);
    assert_eq!(players.len(), 2);
    assert_eq!(clock.epoch, 77);
    deserialize_host_data("Eve", "spectator", Incoming::Unknown, &mut asteroids, &mut players, &mut gameover, &mut received, &mut clock, 99, center);
    assert_eq!(players.len(), 2);
    assert_eq!(clock.epoch, 77);
    assert_eq!(asteroids.len(), 3);
}

#[test]
fn a_joining_peer_waits_for_a_field() {
    let empty = Asteroids::with_count(0);
    let filled = field("host", &[10.]);
    assert!(matches!(wait_synchronization_data("h", "host", &empty, false), WaitStep::Done(None)));
    assert!(matches!(wait_synchronization_data("g", "guest", &empty, false), WaitStep::Receive));
    assert!(matches!(wait_synchronization_data("g", "guest", &filled, false), WaitStep::Receive));
    assert!(matches!(wait_synchronization_data("g", "guest", &empty, true), WaitStep::Receive));
    match wait_synchronization_data("g", "guest", &filled, true) {
        WaitStep::Done(Some(hello)) => assert_eq!(hello, "Hello from g"),
        _ => panic!("a synchronized guest announces itself"),
    }
    assert!(matches!(wait_synchronization_data("s", "spectator", &filled, true), WaitStep::Done(None)));
    assert!(matches!(wait_synchronization_data("s", "spectator", &empty, true), WaitStep::Receive));
}
