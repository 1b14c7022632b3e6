use planetoid::asteroid::Asteroid;
use planetoid::field::Asteroids;
use planetoid::gameover::{gameover_text, manage_gameover, MAX_ASTEROIDS};
use planetoid::network::Frame;
use planetoid::session::{
    final_frame, guest_reports, is_game_over, next_tick, outbound, server_url, Outbound,
};
use planetoid::ship::Ship;
use planetoid::transport::{
    accept_address, classify_text, make_endpoint, read_message, session_url, stream_endpoint,
    SessionError,
};
use planetoid::vector::Vec2;

fn bits(x: f32) -> u32 {
    x.to_bits()
}

fn vec2(x: f32, y: f32) -> Vec2 {
    Vec2::new(bits(x), bits(y))
}

fn rock(size: f32) -> Asteroid {
    Asteroid::new(vec2(3., 4.), vec2(0., 0.), bits(0.), bits(size))
}

fn ship(name: &str, x: f32) -> Ship {
    Ship::new(name.to_string(), vec2(x, 0.))
}

#[test]
fn server_address_names_host_port_and_player() {
    assert_eq!(server_url("localhost", 8080, "planetoid"), "ws://localhost:8080/gamedata/planetoid");
    assert_eq!(server_url("10.0.0.1", 0, "a b"), "ws://10.0.0.1:0/gamedata/a b");
    assert_eq!(server_url("h", 65535, ""), "ws://h:65535/gamedata/");
}

#[test]
fn host_broadcasts_after_every_fifth_tick() {
    let mut frame_count = 0;
    let mut received = false;
    let mut sent = Vec::new();
    for tick in 1..=12 {
        if outbound(false, "host", &mut frame_count, &mut received) == Outbound::GameData {
            sent.push(tick);
        }
        frame_count = next_tick(frame_count);
    }
    assert_eq!(sent, vec![6, 11]);
    let mut four = 4;
    assert_eq!(outbound(false, "host", &mut four, &mut received), Outbound::Nothing);
    assert_eq!(four, 4);
    let mut five = 5;
    assert_eq!(outbound(false, "host", &mut five, &mut received), Outbound::GameData);
    assert_eq!(five, 0);
}

#[test]
fn guest_answers_once_per_host_message() {
    let mut frame_count = 100;
    let mut received = true;
    assert_eq!(outbound(false, "guest", &mut frame_count, &mut received), Outbound::GuestData);
    assert!(!received);
    assert_eq!(frame_count, 100);
    assert_eq!(outbound(false, "guest", &mut frame_count, &mut received), Outbound::Nothing);
}

#[test]
fn solo_players_and_spectators_send_nothing() {
    let mut frame_count = 100;
    let mut received = true;
    assert_eq!(outbound(true, "host", &mut frame_count, &mut received), Outbound::Nothing);
    assert_eq!(outbound(true, "guest", &mut frame_count, &mut received), Outbound::Nothing);
    assert_eq!(outbound(false, "spectator", &mut frame_count, &mut received), Outbound::Nothing);
    assert_eq!(frame_count, 100);
    assert!(received);
}

#[test]
fn guest_reports_carry_the_own_ships() {
    let mut field = Asteroids::with_count(3);
    field.insert("g_000002".to_string(), rock(5.));
    field.insert("host_000000".to_string(), rock(6.));
    let players = vec![ship("host", 1.), ship("g", 2.), ship("x", 3.), ship("g", 4.)];
    let reports = guest_reports(&players, "g", &field);
    assert_eq!(reports.len(), 2);
    assert_eq!(reports[0].ship.pos, vec2(2., 0.));
    assert_eq!(reports[1].ship.pos, vec2(4., 0.));
    assert_eq!(reports[1].asteroids.count(), 3);
    assert!(reports[0].asteroids.contains_key("g_000002"));
    assert!(!reports[0].asteroids.contains_key("host_000000"));
    assert_eq!(reports[1].asteroids.len(), 1);
    assert!(guest_reports(&players, "nobody", &field).is_empty());
}

#[test]
fn the_final_frame_goes_out_once() {
    let mut sent = false;
    let mut frame_count = 3;
    assert!(final_frame(false, "host", &mut sent, &mut frame_count));
    assert!(sent);
    assert_eq!(frame_count, 0);
    frame_count = 2;
    assert!(!final_frame(false, "host", &mut sent, &mut frame_count));
    assert_eq!(frame_count, 2);
    let mut sent = false;
    assert!(!final_frame(true, "host", &mut sent, &mut frame_count));
    assert!(!final_frame(false, "guest", &mut sent, &mut frame_count));
    assert!(!sent);
}

#[test]
fn the_game_ends_without_asteroids_or_without_ships() {
    let empty = Asteroids::with_count(0);
    let mut field = Asteroids::with_count(0);
    field.insert("a".to_string(), rock(1.));
    let mut dead = ship("a", 0.);
    dead.set_collided(true);
    assert!(is_game_over(&empty, &vec![ship("a", 0.)]));
    assert!(!is_game_over(&field, &vec![ship("a", 0.)]));
    assert!(!is_game_over(&field, &vec![dead.clone(), ship("b", 0.)]));
    assert!(is_game_over(&field, &vec![dead.clone(), dead.clone()]));
    assert!(is_game_over(&field, &Vec::new()));
}

#[test]
fn gameover_text_depends_on_outcome_and_role() {
    assert_eq!(gameover_text("host", true), "You win ! Press [enter] to play again.");
    assert_eq!(gameover_text("host", false), "Game over. Press [enter] to play again.");
    assert_eq!(gameover_text("guest", true), "You win ! Wait host player to restart game.");
    assert_eq!(gameover_text("spectator", false), "Game over. Wait host player to restart game.");
}

#[test]
fn the_host_restarts_on_enter_with_a_full_field() {
    let bodies: Vec<Asteroid> = (0..MAX_ASTEROIDS).map(|i| rock(i as f32)).collect();
    let mut players = vec![ship("h", 1.), ship("g", 2.)];
    let mut asteroids = Asteroids::with_count(9);
    let mut frame_count = 3;
    let mut gameover = true;
    let mut sent = true;
    let outcome = manage_gameover(
        &mut players, &mut asteroids, "host", "h", &mut frame_count, &mut gameover, &mut sent,
        false, vec2(5., 5.), &bodies,
    );
    assert!(outcome.won);
    assert!(!outcome.restarted);
    assert_eq!(outcome.text, "You win ! Press [enter] to play again.");
    assert_eq!(players.len(), 2);
    assert!(gameover && sent);
    assert_eq!(frame_count, 3);
    assert_eq!(asteroids.count(), 9);

    let outcome = manage_gameover(
        &mut players, &mut asteroids, "host", "h", &mut frame_count, &mut gameover, &mut sent,
        true, vec2(5., 5.), &bodies,
    );
    assert!(outcome.restarted);
    assert_eq!(players.len(), 1);
    assert_eq!(players[0].name, "h");
    assert_eq!(players[0].pos, vec2(5., 5.));
    assert!(!gameover && !sent);
    assert_eq!(frame_count, 0);
    assert_eq!(asteroids.count(), 10);
    assert_eq!(asteroids.len(), 10);
    assert_eq!(asteroids.get("h_000009").unwrap().size(), bits(9.));
}

#[test]
fn other_roles_restart_at_once_with_an_empty_field() {
    let mut players = vec![ship("h", 1.), ship("g", 2.)];
    let mut asteroids = Asteroids::with_count(0);
    asteroids.insert("h_000000".to_string(), rock(1.));
    let mut frame_count = 3;
    let mut gameover = true;
    let mut sent = false;
    let outcome = manage_gameover(
        &mut players, &mut asteroids, "guest", "g", &mut frame_count, &mut gameover, &mut sent,
        false, vec2(5., 5.), &Vec::new(),
    );
    assert!(!outcome.won);
    assert!(outcome.restarted);
    assert_eq!(outcome.text, "Game over. Wait host player to restart game.");
    assert_eq!(players.len(), 1);
    assert_eq!(players[0].name, "g");
    assert!(asteroids.is_empty());
    assert_eq!(asteroids.count(), 0);
    assert!(!gameover);
    assert_eq!(frame_count, 0);
}

#[test]
fn only_text_messages_carry_frames() {
    let text = tungstenite::Message::Text("Hello from Bob".to_string());
    match read_message("host", text) {
        Frame::Hello(name) => assert_eq!(name, "Bob"),
        _ => panic!("a text message is classified by its text"),
    }
    let game = tungstenite::Message::Text("GameData: {}".to_string());
    assert!(matches!(read_message("guest", game), Frame::GameData(_)));
    let binary = tungstenite::Message::Binary(b"Hello from Bob".to_vec());
    assert!(matches!(read_message("host", binary), Frame::Unknown));
    let ping = tungstenite::Message::Ping(Vec::new());
    assert!(matches!(read_message("host", ping), Frame::Unknown));
}

#[test]
fn the_session_address_parses_to_its_endpoint() {
    let address = session_url("localhost", 8080, "planetoid").unwrap();
    assert_eq!(address.as_str(), "ws://localhost:8080/gamedata/planetoid");
    assert_eq!(stream_endpoint(&address), Ok(("localhost".to_string(), 8080)));
    // The parser drops the default port of the scheme, so no port is named.
    let default_port = session_url("example.org", 80, "p").unwrap();
    assert_eq!(stream_endpoint(&default_port), Err(SessionError::NoEndpoint));
    assert_eq!(session_url("", 8080, "p").err(), Some(SessionError::BadAddress));
    assert_eq!(session_url("a b", 8080, "p").err(), Some(SessionError::BadAddress));
}

#[test]
fn a_message_without_text_is_unknown() {
    assert!(matches!(classify_text("host", None), Frame::Unknown));
    match classify_text("host", Some("GuestData: {}".to_string())) {
        Frame::GuestData(payload) => assert_eq!(payload, "{}"),
        _ => panic!("the text decides the frame"),
    }
    assert!(matches!(classify_text("guest", Some("GuestData: {}".to_string())), Frame::Unknown));
}

#[test]
fn every_rejection_of_the_parser_is_a_bad_address() {
    let good = url::Url::parse("ws://localhost:8080/gamedata/p");
    assert_eq!(accept_address(good.clone()), Ok(good.unwrap()));
    assert_eq!(accept_address(url::Url::parse("no scheme")), Err(SessionError::BadAddress));
    assert_eq!(accept_address(url::Url::parse("ws://:8080/")), Err(SessionError::BadAddress));
}

#[test]
fn an_endpoint_needs_host_and_port() {
    assert_eq!(make_endpoint(Some("h".to_string()), Some(1)), Ok(("h".to_string(), 1)));
    assert_eq!(make_endpoint(None, Some(1)), Err(SessionError::NoEndpoint));
    assert_eq!(make_endpoint(Some("h".to_string()), None), Err(SessionError::NoEndpoint));
    assert_eq!(make_endpoint(None, None), Err(SessionError::NoEndpoint));
}
