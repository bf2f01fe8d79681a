use session_switcher::renderer::PluginRenderer;
use session_switcher::types::SessionItem;
use std::time::Duration;

#[test]
fn name_column_counts_sessions_only() {
    let items = vec![
        SessionItem::Directory {
            path: "/a/very/long/path/name".to_string(),
            session_name: "very-long-directory-name".to_string(),
        },
        SessionItem::ExistingSession {
            name: "abc".to_string(),
            directory: "/x".to_string(),
            is_current: true,
        },
        SessionItem::ResurrectableSession {
            name: "abcdef".to_string(),
            duration: Duration::from_secs(1),
        },
    ];
    assert_eq!(PluginRenderer::calculate_name_column_width(&items), 8);
    assert_eq!(PluginRenderer::calculate_name_column_width(&items[..1]), 0);
    assert_eq!(PluginRenderer::calculate_name_column_width(&[]), 0);
}

#[test]
fn name_column_counts_bytes() {
    let items = vec![SessionItem::ExistingSession {
        name: "é".to_string(),
        directory: String::new(),
        is_current: false,
    }];
    assert_eq!(PluginRenderer::calculate_name_column_width(&items), 4);
}

#[test]
fn wrap_short_text_stays_whole() {
    assert_eq!(PluginRenderer::wrap_text("a  b", 4), vec!["a  b".to_string()]);
}

#[test]
fn wrap_breaks_at_words() {
    let warning =
        "If this is a resurrectable session, it will be deleted. This action cannot be undone.";
    let lines = PluginRenderer::wrap_text(warning, 20);
    assert_eq!(
        lines,
        vec![
            "If this is a",
            "resurrectable",
            "session, it will be",
            "deleted. This action",
            "cannot be undone.",
        ]
    );
}

#[test]
fn wrap_long_word_gets_own_line() {
    assert_eq!(
        PluginRenderer::wrap_text("ab abcdefgh c", 4),
        vec!["ab", "abcdefgh", "c"]
    );
}

#[test]
fn main_size_is_whole_screen() {
    assert_eq!(PluginRenderer::calculate_main_size(24, 80), (0, 0, 80, 24));
}

#[test]
fn render_range_fits() {
    assert_eq!(PluginRenderer::calculate_render_range(10, 3, Some(2)), (0, 3));
}

#[test]
fn render_range_scrolls_around_selection() {
    assert_eq!(PluginRenderer::calculate_render_range(5, 20, Some(10)), (8, 12));
    assert_eq!(PluginRenderer::calculate_render_range(5, 20, Some(1)), (0, 4));
    assert_eq!(PluginRenderer::calculate_render_range(5, 20, None), (0, 4));
    assert_eq!(PluginRenderer::calculate_render_range(0, 20, None), (0, 0));
}

fn live_item(name: &str, directory: &str, is_current: bool) -> SessionItem {
    SessionItem::ExistingSession {
        name: name.to_string(),
        directory: directory.to_string(),
        is_current,
    }
}

#[test]
fn row_of_live_session_pads_name_column() {
    let row = PluginRenderer::item_row(&live_item("abc", "/home/me/projects", true), 40, 8);
    assert_eq!(row.text, "● abc     /home/me/projects");
    assert_eq!(row.emphasis, Some((2, 2, 5)));
}

#[test]
fn row_of_live_session_cuts_long_directory() {
    let row = PluginRenderer::item_row(
        &live_item("x", "/a/very/long/directory/path/here", false),
        25,
        5,
    );
    assert_eq!(row.text, "○ x    ...ctory/path/here");
    assert_eq!(row.emphasis, Some((1, 2, 3)));
}

#[test]
fn row_of_resurrectable_session_shows_age() {
    let item = SessionItem::ResurrectableSession {
        name: "old".to_string(),
        duration: Duration::from_secs(90),
    };
    let row = PluginRenderer::item_row(&item, 40, 4);
    assert_eq!(row.text, "↺ old  1m 30s ago");
    assert_eq!(row.emphasis, Some((1, 2, 5)));
}

#[test]
fn row_of_directory_is_its_path() {
    let short = SessionItem::Directory {
        path: "/short".to_string(),
        session_name: "short".to_string(),
    };
    let row = PluginRenderer::item_row(&short, 40, 4);
    assert_eq!(row.text, "/short");
    assert_eq!(row.emphasis, None);
    let long = SessionItem::Directory {
        path: "/home/user/code/project".to_string(),
        session_name: "project".to_string(),
    };
    assert_eq!(PluginRenderer::item_row(&long, 12, 4).text, "...e/project");
}

#[test]
fn highlight_moves_directory_matches_to_column() {
    let item = live_item("abc", "/dir", true);
    let got = PluginRenderer::search_highlight_indices(&item, &[0, 2, 4, 5, 6, 7, 10, 11], 40, 8);
    assert_eq!(got, vec![0, 2, 4, 10, 13]);
}

#[test]
fn highlight_drops_name_matches_beyond_column() {
    let item = live_item("abcdef", "", false);
    let got = PluginRenderer::search_highlight_indices(&item, &[3, 5], 40, 4);
    assert_eq!(got, vec![3]);
}

#[test]
fn highlight_follows_cut_path() {
    let item = SessionItem::Directory {
        path: "/home/user/code/project".to_string(),
        session_name: "project".to_string(),
    };
    let got = PluginRenderer::search_highlight_indices(&item, &[0, 14, 20], 12, 0);
    assert_eq!(got, vec![3, 9]);
    let got = PluginRenderer::search_highlight_indices(&item, &[0, 14, 20], 40, 0);
    assert_eq!(got, vec![0, 14, 20]);
}

#[test]
fn highlight_moves_age_matches() {
    let item = SessionItem::ResurrectableSession {
        name: "old".to_string(),
        duration: Duration::from_secs(90),
    };
    let got = PluginRenderer::search_highlight_indices(&item, &[1, 3, 15, 24, 25], 40, 6);
    assert_eq!(got, vec![1, 3, 8, 17]);
}

#[test]
fn deletion_dialog_centres_and_wraps() {
    let (x, y, lines) = PluginRenderer::deletion_dialog("work", 0, 0, 40, 20);
    assert_eq!((x, y), (2, 6));
    assert_eq!(
        lines,
        vec![
            "┌──────────────────────────────────┐",
            "│       Kill session 'work'?       │",
            "│    If this is a resurrectable    │",
            "│   session, it will be deleted.   │",
            "│  This action cannot be undone.   │",
            "│                                  │",
            "│Press 'y' to confirm, 'n' or Esc to cancel│",
            "└──────────────────────────────────┘",
        ]
    );
}

#[test]
fn deletion_dialog_on_narrow_screen() {
    let (x, y, lines) = PluginRenderer::deletion_dialog("x", 3, 1, 10, 5);
    assert_eq!((x, y), (5, 1));
    assert_eq!(lines.len(), 20);
    assert_eq!(lines[0], "┌────┐");
    assert_eq!(lines[2], "│ If │");
    assert_eq!(lines[5], "│ a  │");
    assert_eq!(lines[19], "└────┘");
}

#[test]
fn render_range_fits_with_any_selection() {
    assert_eq!(
        PluginRenderer::calculate_render_range(5, 3, Some(usize::MAX)),
        (0, 3)
    );
    assert_eq!(PluginRenderer::calculate_render_range(5, 10, Some(7)), (5, 9));
}

#[test]
fn directory_row_ignores_name_column() {
    let item = SessionItem::Directory {
        path: "/short".to_string(),
        session_name: "short".to_string(),
    };
    assert_eq!(PluginRenderer::item_row(&item, 40, usize::MAX).text, "/short");
    assert_eq!(
        PluginRenderer::search_highlight_indices(&item, &[1, 2], 40, usize::MAX),
        vec![1, 2]
    );
}

#[test]
fn wrap_splits_at_unicode_white_space() {
    assert_eq!(
        PluginRenderer::wrap_text("aa\u{2003}bb\u{a0}\u{a0}cc", 5),
        vec!["aa bb", "cc"]
    );
}
