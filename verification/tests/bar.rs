use histop::bar::{
    bar_segments, bar_string, percent_string, render_bars, write_bars, BarConfig, BarItem,
    BarSegments, RenderedBar,
};
use histop::color::{ColorMode, Colorizer};

fn config(size: usize, show_percentage: bool, show_cumulative: bool) -> BarConfig {
    BarConfig { size, show_percentage, show_cumulative }
}

fn text(bytes: &[u8]) -> &str {
    std::str::from_utf8(bytes).unwrap()
}

fn segments(unfilled: usize, semi: usize, filled: usize) -> BarSegments {
    BarSegments { unfilled, semi, filled }
}

#[test]
fn test_render_bars_empty() {
    let items: Vec<BarItem> = vec![];
    let config = BarConfig::default();
    let result = render_bars(&items, &config);
    assert!(result.is_empty());
}

#[test]
fn test_render_bars_single() {
    let items = vec![BarItem::new(b"ls", 10)];
    let config = BarConfig::default();
    let result = render_bars(&items, &config);
    assert_eq!(result.len(), 1);
    assert_eq!(result[0].label, b"ls");
    assert_eq!(result[0].percentage_str, b"100.00%");
}

#[test]
fn test_render_bars_multiple() {
    let items = vec![BarItem::new(b"ls", 50), BarItem::new(b"git", 30), BarItem::new(b"cd", 20)];
    let config = BarConfig::default();
    let result = render_bars(&items, &config);
    assert_eq!(result.len(), 3);
    assert_eq!(result[0].percentage_str, b"50.00%");
}

#[test]
fn test_print_bars_no_crash() {
    let items = vec![BarItem::new(b"test", 5)];
    let config = BarConfig::default();
    let bars = render_bars(&items, &config);
    let colorizer = Colorizer::new(ColorMode::Never, false);
    let mut out = Vec::new();
    write_bars(&mut out, &bars, true, &colorizer);
    assert!(out.ends_with(b"test\n"));
}

#[test]
fn default_bar_config() {
    let config = BarConfig::default();
    assert_eq!(config.size, 25);
    assert!(config.show_percentage);
    assert!(config.show_cumulative);
}

#[test]
fn single_item_fills_the_bar() {
    for width in [0usize, 1, 2, 25, 80, 1000] {
        for total in [1usize, 3, 10, 12345] {
            let s = bar_segments(total, total, total, &config(width, true, true));
            assert_eq!(s, segments(0, 0, width));
        }
    }
}

#[test]
fn single_item_agrees_with_the_floating_formula() {
    let width = 25usize;
    let pct: f32 = 100.0;
    let inv_cumu_pct: f32 = 100.0;
    let filled = (pct / 100.0 * width as f32).round() as usize;
    let semi = ((inv_cumu_pct - pct) / 100.0 * width as f32).round() as usize;
    let s = bar_segments(7, 7, 7, &config(width, true, true));
    assert_eq!((s.filled, s.semi, s.unfilled), (filled, semi, width - filled - semi));
}

#[test]
fn segments_follow_the_formulas() {
    // 50 of 100, all 100 still to come: 12.5 cells each way, both rounded up
    // to 13, so the half-filled run is cut back to 12
    assert_eq!(bar_segments(50, 100, 100, &config(25, true, true)), segments(0, 12, 13));
    // 30 of 100 with 50 left: 7.5 -> 8 filled, (50 - 30) / 100 * 25 = 5
    assert_eq!(bar_segments(30, 50, 100, &config(25, true, true)), segments(12, 5, 8));
    // 20 of 100 with 20 left: 5 filled and nothing below it
    assert_eq!(bar_segments(20, 20, 100, &config(25, true, true)), segments(20, 0, 5));
    // percentage only
    assert_eq!(bar_segments(30, 50, 100, &config(25, true, false)), segments(17, 0, 8));
    // cumulative only: 50 / 100 * 25 = 12.5 -> 13
    assert_eq!(bar_segments(30, 50, 100, &config(25, false, true)), segments(12, 13, 0));
    // neither
    assert_eq!(bar_segments(30, 50, 100, &config(25, false, false)), segments(0, 0, 0));
    // no width
    assert_eq!(bar_segments(30, 50, 100, &config(0, true, true)), segments(0, 0, 0));
    // a share below half a cell is not drawn
    assert_eq!(bar_segments(1, 100, 100, &config(25, true, true)), segments(0, 25, 0));
    assert_eq!(bar_segments(2, 100, 100, &config(25, true, true)), segments(0, 24, 1));
    // nothing counted for this item
    assert_eq!(bar_segments(0, 0, 100, &config(25, true, true)), segments(25, 0, 0));
}

#[test]
fn segments_always_fill_the_width() {
    for width in [1usize, 7, 25, 100] {
        for total in [1usize, 2, 3, 7, 100, 999] {
            for remaining in 0..=total.min(40) {
                for value in 0..=remaining {
                    for (p, c) in [(true, true), (true, false), (false, true)] {
                        let s = bar_segments(value, remaining, total, &config(width, p, c));
                        assert_eq!(s.unfilled + s.semi + s.filled, width);
                    }
                    let s = bar_segments(value, remaining, total, &config(width, false, false));
                    assert_eq!(s, segments(0, 0, 0));
                }
            }
        }
    }
}

#[test]
fn segments_of_huge_counts_do_not_overflow() {
    let max = usize::MAX;
    assert_eq!(bar_segments(max, max, max, &config(max, true, true)), segments(0, 0, max));
    assert_eq!(bar_segments(max / 2, max, max, &config(10, true, false)), segments(5, 0, 5));
}

#[test]
fn bar_text() {
    assert_eq!(text(&bar_string(segments(0, 0, 0))), "");
    assert_eq!(
        text(&bar_string(segments(1, 2, 3))),
        "\u{2502}\u{2591}\u{2593}\u{2593}\u{2588}\u{2588}\u{2588}\u{2502}"
    );
    assert_eq!(text(&bar_string(segments(0, 0, 2))), "\u{2502}\u{2588}\u{2588}\u{2502}");
    assert_eq!(text(&bar_string(segments(2, 0, 0))), "\u{2502}\u{2591}\u{2591}\u{2502}");
}

#[test]
fn percentages_have_two_decimals() {
    assert_eq!(text(&percent_string(1, 1)), "100.00%");
    assert_eq!(text(&percent_string(0, 5)), "0.00%");
    assert_eq!(text(&percent_string(1, 3)), "33.33%");
    assert_eq!(text(&percent_string(2, 3)), "66.67%");
    assert_eq!(text(&percent_string(1, 7)), "14.29%");
    assert_eq!(text(&percent_string(5, 100)), "5.00%");
    assert_eq!(text(&percent_string(3, 2)), "150.00%");
    // a half goes to the even neighbour
    assert_eq!(text(&percent_string(1, 800)), "0.12%");
    assert_eq!(text(&percent_string(3, 800)), "0.38%");
    assert_eq!(text(&percent_string(1, 2000)), "0.05%");
    assert_eq!(text(&percent_string(1, 20000)), "0.00%");
    assert_eq!(text(&percent_string(3, 20000)), "0.02%");
}

#[test]
fn rows_are_rendered_in_full() {
    let items = vec![BarItem::new(b"ls", 50), BarItem::new(b"git", 30), BarItem::new(b"cd", 20)];
    let rows = render_bars(&items, &config(10, true, true));
    let texts: Vec<(&str, &str, &str, &str)> = rows
        .iter()
        .map(|r| (text(&r.count_str), text(&r.bar_str), text(&r.percentage_str), text(&r.label)))
        .collect();
    assert_eq!(
        texts,
        vec![
            ("50", "\u{2502}\u{2593}\u{2593}\u{2593}\u{2593}\u{2593}\u{2588}\u{2588}\u{2588}\u{2588}\u{2588}\u{2502}", "50.00%", "ls"),
            ("30", "\u{2502}\u{2591}\u{2591}\u{2591}\u{2591}\u{2591}\u{2593}\u{2593}\u{2588}\u{2588}\u{2588}\u{2502}", "30.00%", "git"),
            ("20", "\u{2502}\u{2591}\u{2591}\u{2591}\u{2591}\u{2591}\u{2591}\u{2591}\u{2591}\u{2588}\u{2588}\u{2502}", "20.00%", "cd"),
        ]
    );
}

#[test]
fn counts_are_right_aligned() {
    let items = vec![BarItem::new(b"a", 1000), BarItem::new(b"b", 25), BarItem::new(b"c", 0)];
    let rows = render_bars(&items, &config(0, true, true));
    let counts: Vec<&str> = rows.iter().map(|r| text(&r.count_str)).collect();
    assert_eq!(counts, vec!["1000", "  25", "   0"]);
    assert!(rows.iter().all(|r| r.bar_str.is_empty()));
    let percentages: Vec<&str> = rows.iter().map(|r| text(&r.percentage_str)).collect();
    assert_eq!(percentages, vec!["97.56%", "2.44%", "0.00%"]);
}

#[test]
fn nothing_counted_gives_no_rows() {
    let items = vec![BarItem::new(b"a", 0), BarItem::new(b"b", 0)];
    assert!(render_bars(&items, &BarConfig::default()).is_empty());
}

fn row(count: &str, bar: &str, percentage: &str, label: &str) -> RenderedBar {
    RenderedBar {
        count_str: count.as_bytes().to_vec(),
        bar_str: bar.as_bytes().to_vec(),
        percentage_str: percentage.as_bytes().to_vec(),
        label: label.as_bytes().to_vec(),
    }
}

#[test]
fn rows_are_written_aligned() {
    let bars = vec![row("10", "|##|", "100.00%", "ls"), row(" 2", "", "5.00%", "git")];
    let plain = Colorizer::new(ColorMode::Never, true);
    let mut out = b"x".to_vec();
    write_bars(&mut out, &bars, true, &plain);
    assert_eq!(text(&out), "x10   |##| 100.00%   ls\n 2     5.00%   git\n");
    let mut out = Vec::new();
    write_bars(&mut out, &bars, false, &plain);
    assert_eq!(text(&out), "10   100.00%   ls\n 2     5.00%   git\n");
    let mut out = Vec::new();
    write_bars(&mut out, &[], true, &plain);
    assert_eq!(text(&out), "");
}

#[test]
fn rows_are_painted() {
    let bars = vec![row("1", "|#|", "100.00%", "ls")];
    let painter = Colorizer::new(ColorMode::Always, false);
    let mut out = Vec::new();
    write_bars(&mut out, &bars, true, &painter);
    assert_eq!(
        text(&out),
        "\x1b[36m1\x1b[0m   |#| \x1b[33m100.00%\x1b[0m   \x1b[97mls\x1b[0m\n"
    );
}
