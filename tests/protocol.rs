use window_mover::geometry::Position;
use window_mover::mover::{create_mover, find_window_position, parse_listing_row, LinuxMover, MoverError};

const LISTING: &str = "0x03a00003  0 0    27   1920 1053 google-chrome.Google-chrome  host Inbox - Chrome\n\
0x04200004  0 960  0    960  1080 code.Code  host main.rs - Code\n";

fn fields(line: &str) -> Vec<String> {
    line.split_whitespace().map(String::from).collect()
}

#[test]
fn listing_row_extracts_lowercased_class() {
    let r = parse_listing_row(&fields("0x03a00003  0 0 27 1920 1053 google-chrome.Google-chrome host Title"));
    assert_eq!(r, Ok((Position::new(0, 27, 1920, 1053), "google-chrome".to_string())));
}

#[test]
fn listing_row_class_keeps_text_after_first_dot() {
    let r = parse_listing_row(&fields("0x1 -1 -5 +6 7 8 a.B.C host"));
    assert_eq!(r, Ok((Position::new(-5, 6, 7, 8), "b.c".to_string())));
}

#[test]
fn listing_two_lines_finds_chrome() {
    assert_eq!(
        LinuxMover::parse_current_position(LISTING, "google-chrome"),
        Ok(Position::new(0, 27, 1920, 1053))
    );
    assert_eq!(LinuxMover::parse_current_position(LISTING, "code"), Ok(Position::new(960, 0, 960, 1080)));
}

#[test]
fn listing_missing_window_is_not_found() {
    assert_eq!(LinuxMover::parse_current_position(LISTING, "firefox"), Err(MoverError::WindowNotFound));
    assert_eq!(LinuxMover::parse_current_position("", "firefox"), Err(MoverError::WindowNotFound));
}

#[test]
fn listing_short_line_is_parse_error() {
    let listing = "0x03a00003  0 0 27 1920 1053 google-chrome.Google-chrome host Title\n0x04200004 0 960 0 960\n";
    assert_eq!(LinuxMover::parse_current_position(listing, "google-chrome"), Err(MoverError::ProtocolParseError));
    assert_eq!(parse_listing_row(&fields("0x04200004 0 960 0 960 1080")), Err(MoverError::ProtocolParseError));
}

#[test]
fn listing_bad_number_or_class_is_parse_error() {
    assert_eq!(parse_listing_row(&fields("0x1 0 x 0 1 1 a.B host")), Err(MoverError::ProtocolParseError));
    assert_eq!(parse_listing_row(&fields("0x1 0 0 0 1 1 nodot host")), Err(MoverError::ProtocolParseError));
    assert_eq!(parse_listing_row(&fields("0x1 0 - 0 1 1 a.B host")), Err(MoverError::ProtocolParseError));
    assert_eq!(
        parse_listing_row(&fields("0x1 0 99999999999999999999 0 1 1 a.B host")),
        Err(MoverError::ProtocolParseError)
    );
}

#[test]
fn find_window_position_over_rows() {
    let rows = vec![fields("1 0 1 2 3 4 a.Term x"), fields("2 0 5 6 7 8 b.Term x")];
    assert_eq!(find_window_position(&rows, "term"), Ok(Position::new(1, 2, 3, 4)));
    assert_eq!(find_window_position(&rows, "Term"), Err(MoverError::WindowNotFound));
}

#[test]
fn window_name_is_trimmed_and_lowercased() {
    assert_eq!(LinuxMover::parse_window_name("  Google-chrome\n"), Ok("google-chrome".to_string()));
    assert_eq!(LinuxMover::parse_window_name(" \n"), Err(MoverError::NoFocusedWindow));
    assert_eq!(LinuxMover::parse_window_name(""), Err(MoverError::NoFocusedWindow));
}

#[test]
fn screen_resolution_takes_second_field_of_dimensions_line() {
    let out = "name of display:    :0\nscreen #0:\n  dimensions:    1920x1080 pixels (508x285 millimeters)\n  resolution:    96x96 dots per inch\n";
    assert_eq!(LinuxMover::parse_screen_resolution(out), Ok("1920x1080".to_string()));
}

#[test]
fn screen_resolution_skips_keyword_line_without_second_field() {
    let out = "dimensions\n  dimensions:    2560x1440 pixels\n";
    assert_eq!(LinuxMover::parse_screen_resolution(out), Ok("2560x1440".to_string()));
}

#[test]
fn screen_resolution_missing_is_parse_error() {
    assert_eq!(LinuxMover::parse_screen_resolution("screen #0:\n  depth: 24\n"), Err(MoverError::ProtocolParseError));
}

#[test]
fn position_text_for_geometry_command() {
    assert_eq!(LinuxMover::position_to_str(&Position::new(10, -20, 300, 400)), "0,10,-20,300,400");
    assert_eq!(LinuxMover::position_to_str(&Position::new(0, 0, 0, 0)), "0,0,0,0,0");
}

#[test]
fn create_mover_gives_backend() {
    let _m: LinuxMover = create_mover();
}
