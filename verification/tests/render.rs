use logsync::levels::{highlight_line, Level};
use logsync::render::{draw, help_line, timestamp_pane_width};
use logsync::view_state::State;
use logsync::CompareResult;

fn lines_of(text: &str) -> Vec<&str> {
    text.split('\n').collect()
}

#[test]
fn renders_aligned_columns_and_scrolls() {
    let result = CompareResult::new(
        vec![
            vec!["left\ncontinued".into(), "\n".into()],
            vec!["right".into(), "only-right".into()],
        ],
        vec!["2026-09-12 00:00:01 UTC".into(), "2026-09-12 00:00:02 UTC".into()],
    )
    .unwrap();
    // A 100 x 10 terminal: one help line and two border lines leave seven rows.
    let panes = draw(&result, 0, 7);
    let stamps = lines_of(&panes.timestamps);
    let left = lines_of(&panes.columns[0]);
    let right = lines_of(&panes.columns[1]);
    assert!(stamps[0].starts_with('2'));
    assert!(left[0].starts_with('l'));
    assert!(left[1].starts_with('c'));
    assert!(right[0].starts_with('r'));
    assert_eq!(right[1], "");
    assert!(right[2].starts_with('o'));
    assert_eq!(panes.timestamps, "2026-09-12 00:00:01 UTC\n\n2026-09-12 00:00:02 UTC\n");
    assert_eq!(panes.columns[0], "left\ncontinued\n\n");
    assert_eq!(panes.columns[1], "right\n\nonly-right\n");

    let panes = draw(&result, 1, 7);
    let stamps = lines_of(&panes.timestamps);
    assert_eq!(stamps[0].chars().nth(18), Some('2'));
    assert_eq!(lines_of(&panes.columns[0])[0], "");
    assert!(lines_of(&panes.columns[1])[0].starts_with('o'));
}

#[test]
fn renders_empty_results_in_small_terminals() {
    let result = CompareResult::new(vec![], vec![]).unwrap();
    // The panes' widths are laid out by the terminal front end; the height gives
    // the rows that fit.
    for (_width, height) in [(0u16, 0u16), (10, 3), (40, 10)] {
        let rows = usize::from(height.saturating_sub(1).saturating_sub(2));
        let panes = draw(&result, 0, rows);
        assert_eq!(panes.timestamps, "");
        assert!(panes.columns.is_empty());
    }
}

#[test]
fn horizontal_scroll_moves_both_messages_but_not_timestamps() {
    let result = CompareResult::new(
        vec![vec!["abcdef\n123456".into()], vec!["ghijkl".into()]],
        vec!["2026-09-12 00:00:01 UTC".into()],
    )
    .unwrap();
    let mut state = State::default();
    for _ in 0..3 {
        state.scroll_right();
    }
    let panes = draw(&result, state.offset(), 7);
    let shift = usize::from(state.horizontal_offset());
    // The timestamp pane is never shifted; message panes are shown from `shift` on.
    assert!(panes.timestamps.starts_with('2'));
    assert_eq!(lines_of(&panes.timestamps)[0].chars().nth(18), Some('1'));
    let left = lines_of(&panes.columns[0]);
    let right = lines_of(&panes.columns[1]);
    assert_eq!(left[0].chars().nth(shift), Some('d'));
    assert_eq!(left[1].chars().nth(shift), Some('4'));
    assert_eq!(right[0].chars().nth(shift), Some('j'));
    assert_eq!(right[1], "");
}

#[test]
fn only_the_rows_that_fit_are_drawn() {
    let result = CompareResult::new(
        vec![vec!["a".into(), "b".into(), "c".into()]],
        vec!["t1".into(), "t2".into(), "t3".into()],
    )
    .unwrap();
    let panes = draw(&result, 1, 1);
    assert_eq!(panes.timestamps, "t2\n");
    assert_eq!(panes.columns[0], "b\n");
    let panes = draw(&result, 5, 3);
    assert_eq!(panes.timestamps, "");
    assert_eq!(panes.columns[0], "");
}

#[test]
fn level_words_are_found_as_whole_words() {
    let found: Vec<(usize, usize, Level)> = highlight_line("ERROR  x WARNING INFOx DEBUG\tTRACE warn")
        .into_iter()
        .map(|h| (h.start, h.end, h.level))
        .collect();
    assert_eq!(
        found,
        [
            (0, 5, Level::Error),
            (9, 16, Level::Warn),
            (23, 28, Level::Debug),
            (29, 34, Level::Trace),
        ]
    );
    assert!(highlight_line("").is_empty());
    assert_eq!(highlight_line("é FATAL")[0].start, 2);
}

#[test]
fn help_line_and_timestamp_pane_width_follow_the_result() {
    let empty = CompareResult::new(vec![], vec![]).unwrap();
    assert_eq!(help_line(&empty), "No log entries | q / Esc: quit");
    assert_eq!(timestamp_pane_width(&empty), 2);
    let result = CompareResult::new(
        vec![vec!["a".into()]],
        vec!["2026-09-12 00:00:01 UTC".into()],
    )
    .unwrap();
    assert_eq!(help_line(&result), "Up/Down: vertical | Left/Right: horizontal | q / Esc: quit");
    assert_eq!(timestamp_pane_width(&result), 25);
}
