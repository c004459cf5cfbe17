//! The texts the terminal front end draws.

use tukituki::app::{App, AppEvent};
use tukituki::rows::Row;
use tukituki::state::Status;
use tukituki::strmap::StrMap;
use tukituki::target::RunTarget;
use tukituki::view::{
    header_message, header_title, overlay_area, pad_to, pane_title, row_text, status_glyph, Area, RowText,
};

fn target(name: &str, group: &str) -> RunTarget {
    RunTarget { name: name.into(), group: group.into(), command: "true".into(), ..Default::default() }
}

fn make_app(targets: Vec<RunTarget>) -> App {
    App::new(targets, StrMap::new(), ".".into(), ".".into())
}

#[test]
fn pad_to_cuts_long_text() {
    assert_eq!(pad_to(3, "abcdef"), "abc");
}

#[test]
fn pad_to_pads_short_text() {
    assert_eq!(pad_to(5, "ab"), "ab   ");
}

#[test]
fn pad_to_counts_characters_not_bytes() {
    assert_eq!(pad_to(3, "▼a"), "▼a ");
    assert_eq!(pad_to(1, "▼a"), "▼");
}

#[test]
fn pad_to_exact_width_is_unchanged() {
    assert_eq!(pad_to(4, "abcd"), "abcd");
    assert_eq!(pad_to(0, ""), "");
}

#[test]
fn header_names_the_selected_target() {
    let app = make_app(vec![target("api", "")]);
    assert_eq!(header_title(&app), " tukituki — api ");
    assert_eq!(pane_title(&app), " api ");
    assert_eq!(header_message(&app), " ? help  q detach  Q stop all & exit ");
}

#[test]
fn header_without_targets() {
    let app = make_app(vec![]);
    assert_eq!(header_title(&app), " tukituki ");
    assert_eq!(pane_title(&app), " (no target selected) ");
}

#[test]
fn header_shows_the_flash_message() {
    let mut app = make_app(vec![target("api", "")]);
    app.status_msg = "restarted api".into();
    assert_eq!(header_message(&app), " restarted api ");
}

#[test]
fn target_rows_show_status_and_padded_label() {
    let mut app = make_app(vec![target("api", ""), target("db", "")]);
    let mut statuses = StrMap::new();
    statuses.insert("api".to_string(), Status::Running);
    app.handle(AppEvent::Tick(statuses));
    match row_text(&app, 0) {
        RowText::Target(s, label) => {
            assert_eq!(s, Status::Running);
            assert_eq!(label, format!("api {}", " ".repeat(16)));
            assert_eq!(label.chars().count(), 20);
        }
        _ => panic!("expected a target row"),
    }
    match row_text(&app, 1) {
        RowText::Target(s, _) => assert_eq!(s, Status::Unknown),
        _ => panic!("expected a target row"),
    }
}

#[test]
fn folder_rows_show_arrow_name_and_size() {
    let app = make_app(vec![target("web-1", "web"), target("web-2", "web"), target("api", "")]);
    let folder = app.rows.iter().position(|r| matches!(r, Row::Folder { .. })).expect("a folder row");
    match row_text(&app, folder) {
        RowText::Folder(text) => {
            assert_eq!(text, format!("▶ web (2){}", " ".repeat(13)));
            assert_eq!(text.chars().count(), 22);
        }
        _ => panic!("expected a folder row"),
    }
}

#[test]
fn status_glyphs() {
    assert_eq!(status_glyph(Status::Running), "●");
    assert_eq!(status_glyph(Status::Stopped), "○");
    assert_eq!(status_glyph(Status::Failed), "✗");
    assert_eq!(status_glyph(Status::Unknown), "?");
}

#[test]
fn overlay_is_centred_and_inset() {
    let a = overlay_area(&Area { x: 0, y: 1, width: 100, height: 40 });
    assert_eq!((a.x, a.y, a.width, a.height), (2, 2, 96, 38));
}

#[test]
fn overlay_has_a_minimum_size() {
    let a = overlay_area(&Area { x: 5, y: 5, width: 10, height: 3 });
    assert_eq!((a.x, a.y, a.width, a.height), (5, 5, 20, 5));
}
