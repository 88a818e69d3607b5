use clipture::catalog::{Executable, Root2};
use clipture::detection::capture_switch_target;
use clipture::detection::{GameDetection, GameEvent, WindowInfo, WindowType};

fn window(pid: u64, full_exe: &str, cmd_line: Option<&str>) -> WindowInfo {
    WindowInfo {
        pid,
        full_exe: full_exe.to_string(),
        cmd_line: cmd_line.map(|c| c.to_string()),
    }
}

fn entry(name: &str, arguments: Option<&str>) -> Root2 {
    Root2 {
        executables: vec![Executable {
            is_launcher: false,
            name: name.to_string(),
            os: "win32".to_string(),
            arguments: arguments.map(|a| a.to_string()),
        }],
        hook: true,
        id: "game-id".to_string(),
        name: "Some Game".to_string(),
        aliases: vec![],
        overlay: None,
        overlay_compatibility_hook: None,
        overlay_methods: None,
    }
}

#[test]
fn snapshot_transition_emits_closed_then_opened() {
    let mut d = GameDetection::initialize(vec![]);
    let a = window(1, "C:\\apps\\a.exe", None);
    let b = window(2, "C:\\apps\\b.exe", None);
    let first = d.poll_tick(vec![a, b]);
    assert_eq!(first.len(), 2);

    let b2 = window(2, "C:\\apps\\b.exe", None);
    let c = window(3, "C:\\apps\\c.exe", None);
    let events = d.poll_tick(vec![b2, c]);
    assert_eq!(
        events,
        vec![
            GameEvent::Closed(window(1, "C:\\apps\\a.exe", None)),
            GameEvent::Opened(WindowType::Window, window(3, "C:\\apps\\c.exe", None)),
        ]
    );
}

#[test]
fn first_tick_reports_every_window_as_opened() {
    let mut d = GameDetection::initialize(vec![entry("game.exe", None)]);
    let events = d.poll_tick(vec![
        window(7, "D:\\Games\\game.exe", None),
        window(8, "D:\\other\\tool.exe", None),
    ]);
    assert_eq!(
        events,
        vec![
            GameEvent::Opened(WindowType::Game, window(7, "D:\\Games\\game.exe", None)),
            GameEvent::Opened(WindowType::Window, window(8, "D:\\other\\tool.exe", None)),
        ]
    );
}

#[test]
fn classification_ignores_case_and_separator_style() {
    let catalog = vec![entry("Game.EXE", None)];
    let backslash = window(1, "C:\\Games\\Best\\GAME.exe", None);
    let forward = window(1, "C:/Games/Best/game.EXE", None);
    assert_eq!(
        clipture::detection::get_window_type(&backslash, &catalog),
        WindowType::Game
    );
    assert_eq!(
        clipture::detection::get_window_type(&forward, &catalog),
        WindowType::Game
    );
    let other = window(1, "C:/Games/Best/games.exe", None);
    assert_eq!(
        clipture::detection::get_window_type(&other, &catalog),
        WindowType::Window
    );
}

#[test]
fn required_argument_must_occur_in_command_line() {
    let catalog = vec![entry("server.exe", Some("--server"))];
    let without = window(1, "C:\\x\\server.exe", Some("server.exe --client"));
    let with = window(1, "C:\\x\\server.exe", Some("server.exe --SERVER map1"));
    let no_cmd = window(1, "C:\\x\\server.exe", None);
    assert_eq!(
        clipture::detection::get_window_type(&without, &catalog),
        WindowType::Window
    );
    assert_eq!(
        clipture::detection::get_window_type(&with, &catalog),
        WindowType::Game
    );
    assert_eq!(
        clipture::detection::get_window_type(&no_cmd, &catalog),
        WindowType::Window
    );
}

#[test]
fn classification_falls_through_to_later_entries() {
    let catalog = vec![
        entry("server.exe", Some("--server")),
        entry("server.exe", None),
    ];
    let w = window(1, "C:\\x\\server.exe", Some("server.exe --client"));
    assert_eq!(
        clipture::detection::get_window_type(&w, &catalog),
        WindowType::Game
    );
}

#[test]
fn only_opened_games_ask_for_a_capture_switch() {
    let game = GameEvent::Opened(WindowType::Game, window(1, "C:\\g\\game.exe", None));
    let plain = GameEvent::Opened(WindowType::Window, window(2, "C:\\t\\tool.exe", None));
    let closed = GameEvent::Closed(window(1, "C:\\g\\game.exe", None));
    assert_eq!(capture_switch_target(&game).map(|w| w.pid), Some(1));
    assert!(capture_switch_target(&plain).is_none());
    assert!(capture_switch_target(&closed).is_none());
}

#[test]
fn listener_keys_are_unique() {
    let mut d = GameDetection::initialize(vec![]);
    let a = d.add_listener();
    let b = d.add_listener();
    let c = d.add_listener();
    assert_ne!(a.key, b.key);
    assert_ne!(a.key, c.key);
    assert_ne!(b.key, c.key);
}

#[test]
fn listener_removal_is_idempotent() {
    let mut d = GameDetection::initialize(vec![]);
    let a = d.add_listener();
    let b = d.add_listener();
    d.remove_listener(a.key);
    let after_first = d.listeners.clone();
    d.remove_listener(a.key);
    assert_eq!(d.listeners, after_first);
    assert_eq!(d.listeners, vec![b.key]);
}

#[test]
fn dropped_guard_removal_is_eventual_and_final() {
    let mut d = GameDetection::initialize(vec![]);
    let a = d.add_listener();
    let b = d.add_listener();
    let guard = a.drop_guard();
    // The drop of the guard schedules the removal; it is carried out later.
    d.schedule_removal(guard.0.key);
    d.schedule_removal(guard.0.key);
    assert!(d.listeners.contains(&a.key));
    d.process_removals();
    assert!(!d.listeners.contains(&a.key));
    assert!(d.listeners.contains(&b.key));

    let events = d.poll_tick(vec![window(1, "C:\\x\\a.exe", None)]);
    let plan = d.delivery_plan(&events);
    assert!(plan.iter().all(|(key, _)| *key != a.key));
    assert_eq!(plan.len(), events.len());
}

#[test]
fn delivery_plan_is_event_major_and_listener_ordered() {
    let mut d = GameDetection::initialize(vec![]);
    let a = d.add_listener();
    let b = d.add_listener();
    let events = d.poll_tick(vec![
        window(1, "C:\\x\\a.exe", None),
        window(2, "C:\\x\\b.exe", None),
    ]);
    assert_eq!(events.len(), 2);
    let plan = d.delivery_plan(&events);
    let keys: Vec<u64> = plan.iter().map(|(key, _)| *key).collect();
    assert_eq!(keys, vec![a.key, b.key, a.key, b.key]);
    assert_eq!(plan[0].1, events[0]);
    assert_eq!(plan[1].1, events[0]);
    assert_eq!(plan[2].1, events[1]);
    assert_eq!(plan[3].1, events[1]);
}

#[test]
fn catalog_replacement_changes_classification() {
    let mut d = GameDetection::initialize(vec![]);
    let first = d.poll_tick(vec![window(1, "C:\\g\\game.exe", None)]);
    assert_eq!(
        first,
        vec![GameEvent::Opened(
            WindowType::Window,
            window(1, "C:\\g\\game.exe", None)
        )]
    );
    d.set_catalog(vec![entry("game.exe", None)]);
    let events = d.poll_tick(vec![
        window(1, "C:\\g\\game.exe", None),
        window(2, "C:\\g\\Game.exe", None),
    ]);
    assert_eq!(
        events,
        vec![GameEvent::Opened(
            WindowType::Game,
            window(2, "C:\\g\\Game.exe", None)
        )]
    );
}
