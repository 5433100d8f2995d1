use window_mover::geometry::Position;
use window_mover::orchestrator::{move_window_position, save_window_position};
use window_mover::store::{Command, Config, WindowPosition};

fn zero() -> Position {
    Position::new(0, 0, 0, 0)
}

#[test]
fn empty_store_lookup_is_zero() {
    let config = Config::get_config(None);
    assert!(config.commands.is_empty());
    assert_eq!(config.get_position("1920x1080", "ide", "code"), zero());
    assert_eq!(config.get_position("", "", ""), zero());
    assert!(config.get_position("1280x720", "term", "kitty").is_zero());
}

#[test]
fn insert_then_lookup_round_trip() {
    let mut config = Config::new();
    let g = Position::new(5, -7, 640, 480);
    config.add_window_position("term", "2560x1440".to_string(), WindowPosition::new("kitty".to_string(), g));
    assert_eq!(config.get_position("2560x1440", "term", "kitty"), g);
}

#[test]
fn scenario_ide_code_and_unset_default() {
    let mut config = Config::new();
    config.add_window_position(
        "ide",
        "1920x1080".to_string(),
        WindowPosition::new("code".to_string(), Position::new(0, 0, 960, 1080)),
    );
    assert_eq!(config.get_position("1920x1080", "ide", "code"), Position::new(0, 0, 960, 1080));
    assert_eq!(config.get_position("1920x1080", "ide", "terminal"), Position::new(0, 0, 0, 0));
}

#[test]
fn first_inserted_slot_wins() {
    let mut config = Config::new();
    let first = Position::new(1, 2, 3, 4);
    let second = Position::new(10, 20, 30, 40);
    config.add_window_position("web", "1920x1080".to_string(), WindowPosition::new("firefox".to_string(), first));
    config.add_window_position("web", "1920x1080".to_string(), WindowPosition::new("firefox".to_string(), second));
    assert_eq!(config.get_position("1920x1080", "web", "firefox"), first);
    assert_eq!(config.commands.len(), 1);
    assert_eq!(config.commands[0].commands.len(), 1);
    assert_eq!(config.commands[0].commands[0].window_positions.len(), 2);
}

#[test]
fn default_fallback_when_no_slot_matches() {
    let mut config = Config::new();
    let mut cmd = Command::new("ide".to_string(), Position::new(100, 100, 800, 600));
    cmd.window_positions.push(WindowPosition::new("code".to_string(), Position::new(0, 0, 960, 1080)));
    config.add_window_position("other", "1920x1080".to_string(), WindowPosition::new("x".to_string(), zero()));
    config.commands[0].commands.push(cmd);
    assert_eq!(config.get_position("1920x1080", "ide", "vim"), Position::new(100, 100, 800, 600));
    assert_eq!(config.get_position("1920x1080", "ide", "code"), Position::new(0, 0, 960, 1080));
}

#[test]
fn resolution_isolation() {
    let mut config = Config::new();
    config.add_window_position(
        "ide",
        "1920x1080".to_string(),
        WindowPosition::new("code".to_string(), Position::new(0, 0, 960, 1080)),
    );
    assert_eq!(config.get_position("1280x720", "ide", "code"), zero());
    config.add_window_position(
        "ide",
        "1280x720".to_string(),
        WindowPosition::new("code".to_string(), Position::new(0, 0, 640, 720)),
    );
    assert_eq!(config.get_position("1280x720", "ide", "code"), Position::new(0, 0, 640, 720));
    assert_eq!(config.get_position("1920x1080", "ide", "code"), Position::new(0, 0, 960, 1080));
    assert_eq!(config.commands.len(), 2);
}

#[test]
fn lookup_matches_by_substring_of_alias() {
    let mut config = Config::new();
    let g = Position::new(0, 0, 1920, 1080);
    config.add_window_position("web", "1920x1080".to_string(), WindowPosition::new("google-chrome".to_string(), g));
    assert_eq!(config.get_position("1920x1080", "web", "chrome"), g);
    assert_eq!(config.get_position("1920x1080", "web", "chromium-browser"), zero());
}

#[test]
fn window_name_is_lowercased_when_recorded() {
    let w = WindowPosition::new("Firefox".to_string(), zero());
    assert_eq!(w.window_names, vec!["firefox".to_string()]);
    assert!(w.matches("fox"));
    assert!(!w.matches("Fox"));
}

#[test]
fn command_new_starts_empty() {
    let c = Command::new("ide".to_string(), zero());
    assert_eq!(c.name, "ide");
    assert!(c.window_positions.is_empty());
    assert_eq!(c.position_for("code"), zero());
}

#[test]
fn default_position_is_zero() {
    assert_eq!(Position::default(), zero());
    assert!(!Position::new(0, 0, 0, 1).is_zero());
}

#[test]
fn get_config_keeps_loaded_store() {
    let mut loaded = Config::new();
    loaded.add_window_position("a", "r".to_string(), WindowPosition::new("w".to_string(), Position::new(1, 1, 1, 1)));
    let config = Config::get_config(Some(loaded));
    assert_eq!(config.get_position("r", "a", "w"), Position::new(1, 1, 1, 1));
}

#[test]
fn save_then_move_flow() {
    let mut config = Config::new();
    save_window_position("ide", &mut config, "Code".to_string(), Position::new(3, 4, 500, 600), "1920x1080".to_string());
    assert_eq!(move_window_position("ide", &config, "code", "1920x1080"), Position::new(3, 4, 500, 600));
    assert_eq!(move_window_position("ide", &config, "code", "1024x768"), zero());
    assert_eq!(move_window_position("", &config, "code", "1920x1080"), zero());
    save_window_position("", &mut config, "code".to_string(), Position::new(9, 9, 9, 9), "1920x1080".to_string());
    assert_eq!(move_window_position("", &config, "code", "1920x1080"), Position::new(9, 9, 9, 9));
}
