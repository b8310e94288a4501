use arctic::together::{
    host_port, joining_started, on_share_event, report, stop_together, LanWorld, Notice, Session,
    ShareEvent, Together,
};

#[test]
fn reports_for_the_terminal() {
    let r = report(&ShareEvent::HostReady { code: "abcd-efgh".to_string() });
    assert_eq!(r.json, "{\"code\":\"abcd-efgh\",\"event\":\"host_ready\"}");
    assert_eq!(
        r.human,
        "Hosting. Give your friends this code:\n\n    abcd-efgh\n\nOpen a world to LAN in Minecraft to share it. Ctrl+C stops."
    );
    assert_eq!(r.exit, None);
    let w = report(&ShareEvent::HostWorld(Some(LanWorld { motd: "Base".to_string(), port: 54321 })));
    assert_eq!(w.json, "{\"event\":\"host_world\",\"motd\":\"Base\",\"port\":54321}");
    assert_eq!(w.human, "Sharing \"Base\" (LAN port 54321).");
    let none = report(&ShareEvent::HostWorld(None));
    assert_eq!(none.json, "{\"event\":\"host_world\",\"motd\":null}");
    assert_eq!(report(&ShareEvent::Guests(1)).human, "1 friend connected.");
    assert_eq!(report(&ShareEvent::Guests(3)).human, "3 friends connected.");
    assert_eq!(report(&ShareEvent::Guests(3)).json, "{\"count\":3,\"event\":\"guests\"}");
    let joined = report(&ShareEvent::Joined { motd: "Base".to_string(), port: 25565 });
    assert_eq!(
        joined.human,
        "Joined \"Base\". It's in Multiplayer's LAN list (or connect to localhost:25565). Ctrl+C leaves."
    );
}

#[test]
fn stopped_ends_the_command() {
    let ok = report(&ShareEvent::Stopped { error: None });
    assert_eq!(ok.json, "{\"error\":null,\"event\":\"stopped\"}");
    assert_eq!(ok.human, "Stopped.");
    assert_eq!(ok.exit, Some(0));
    let failed = report(&ShareEvent::Stopped { error: Some("relay down".to_string()) });
    assert_eq!(failed.json, "{\"error\":\"relay down\",\"event\":\"stopped\"}");
    assert_eq!(failed.human, "Stopped: relay down");
    assert_eq!(failed.exit, Some(1));
}

fn state(current: u64) -> Together {
    Together { current, session: Session::Starting, error: None }
}

#[test]
fn hosting_session() {
    let mut t = state(7);
    assert_eq!(on_share_event(&mut t, 7, ShareEvent::HostReady { code: "c".to_string() }), Notice::Nothing);
    assert!(matches!(&t.session, Session::Hosting { code, world: None, guests: 0 } if code == "c"));
    let world = LanWorld { motd: "Base".to_string(), port: 1 };
    on_share_event(&mut t, 7, ShareEvent::HostWorld(Some(world.clone())));
    assert_eq!(on_share_event(&mut t, 7, ShareEvent::Guests(2)), Notice::FriendJoined);
    assert_eq!(on_share_event(&mut t, 7, ShareEvent::Guests(1)), Notice::Nothing);
    assert!(matches!(&t.session, Session::Hosting { world: Some(w), guests: 1, .. } if *w == world));
    on_share_event(&mut t, 7, ShareEvent::Stopped { error: Some("gone".to_string()) });
    assert!(matches!(t.session, Session::Idle));
    assert_eq!(t.error.as_deref(), Some("gone"));
}

#[test]
fn stale_events_change_nothing() {
    let mut t = state(7);
    assert_eq!(on_share_event(&mut t, 6, ShareEvent::Joined { motd: "x".to_string(), port: 2 }), Notice::Nothing);
    assert!(matches!(t.session, Session::Starting));
    assert_eq!(t.current, 7);
    assert!(stop_together(&mut t, true));
    assert_eq!(t.current, 0);
    assert!(matches!(t.session, Session::Idle));
    on_share_event(&mut t, 7, ShareEvent::HostReady { code: "late".to_string() });
    assert!(matches!(t.session, Session::Idle));
    assert!(!stop_together(&mut t, false));
}

#[test]
fn joining() {
    let mut t = state(0);
    joining_started(&mut t, Ok(9));
    assert_eq!(t.current, 9);
    assert!(matches!(t.session, Session::Joining));
    assert_eq!(
        on_share_event(&mut t, 9, ShareEvent::Joined { motd: "Base".to_string(), port: 4 }),
        Notice::Connected
    );
    let mut u = state(3);
    joining_started(&mut u, Err("bad code".to_string()));
    assert_eq!(u.current, 3);
    assert_eq!(u.error.as_deref(), Some("bad code"));
}

#[test]
fn host_port_field() {
    assert_eq!(host_port("").unwrap(), None);
    assert_eq!(host_port("   ").unwrap(), None);
    assert_eq!(host_port(" 25565 ").unwrap(), Some(25565));
    assert_eq!(host_port("+80").unwrap(), Some(80));
    assert_eq!(host_port("65535").unwrap(), Some(65535));
    let bad = "That port isn't a number from 1 to 65535.";
    assert_eq!(host_port("0").unwrap_err(), bad);
    assert_eq!(host_port("65536").unwrap_err(), bad);
    assert_eq!(host_port("12a").unwrap_err(), bad);
    assert_eq!(host_port("+").unwrap_err(), bad);
    assert_eq!(host_port("-1").unwrap_err(), bad);
    assert_eq!(host_port("99999999999999999999").unwrap_err(), bad);
}

use arctic::together::{can_join, can_start_hosting, friends_text, lan_address};

#[test]
fn together_cards() {
    assert_eq!(friends_text(0), "No friends connected yet");
    assert_eq!(friends_text(1), "1 friend connected");
    assert_eq!(friends_text(4), "4 friends connected");
    assert!(can_start_hosting(&Session::Idle));
    assert!(!can_start_hosting(&Session::Joining));
    assert!(can_join(&Session::Idle, " abcd "));
    assert!(!can_join(&Session::Idle, "   "));
    assert!(!can_join(&Session::Starting, "abcd"));
    assert_eq!(lan_address(25565), "localhost:25565");
}

#[test]
fn port_text_round_trip() {
    for port in [1u16, 9, 10, 80, 25565, 65535] {
        assert_eq!(host_port(&port.to_string()).unwrap(), Some(port));
    }
}
