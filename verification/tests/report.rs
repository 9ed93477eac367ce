use claude_meter::report::{
    fmt_duration, fmt_num, render_by_model, render_by_session, render_history, short_session_id,
    summary_line, summary_lines, HistoryFigures, ModelFigures, SessionFigures, UsageFigures,
};

#[test]
fn thousands_separators() {
    assert_eq!(fmt_num(0), "0");
    assert_eq!(fmt_num(999), "999");
    assert_eq!(fmt_num(1000), "1,000");
    assert_eq!(fmt_num(12450), "12,450");
    assert_eq!(fmt_num(120000), "120,000");
    assert_eq!(fmt_num(-1234567), "-1,234,567");
    assert_eq!(fmt_num(i64::MIN), "-9,223,372,036,854,775,808");
}

#[test]
fn commas_only_separate_digits() {
    for n in [0i64, 7, 1000, 45000, -987654321, i64::MAX] {
        assert_eq!(fmt_num(n).replace(',', ""), n.to_string());
    }
}

#[test]
fn durations() {
    assert_eq!(fmt_duration(0), "0s");
    assert_eq!(fmt_duration(42), "42s");
    assert_eq!(fmt_duration(1395), "23m 15s");
    assert_eq!(fmt_duration(2700), "45m 0s");
    assert_eq!(fmt_duration(3605), "1h 0m 5s");
    assert_eq!(fmt_duration(90061), "25h 1m 1s");
}

#[test]
fn session_ids_are_cut_after_eight_bytes() {
    assert_eq!(short_session_id("sess-a3f12345"), "sess-a3f..");
    assert_eq!(short_session_id("abcdefgh"), "abcdefgh");
    assert_eq!(short_session_id("abcdefghi"), "abcdefgh..");
    assert_eq!(short_session_id("ééééé"), "éééé..");
    assert_eq!(short_session_id(""), "");
}

#[test]
fn summary_line_alignment() {
    let line = summary_line("Cost", "$0.42");
    assert_eq!(line, format!("{:<28} {:>10}", "Cost", "$0.42"));
    assert_eq!(line.chars().count(), 39);
    let long = summary_line("A name longer than twenty-eight chars", "12345678901");
    assert_eq!(long, "A name longer than twenty-eight chars 12345678901");
}

#[test]
fn summary_block() {
    let figures = UsageFigures {
        input_tokens: 12450,
        output_tokens: 3200,
        cache_read_tokens: 45000,
        cache_creation_tokens: 8100,
        cost: "$0.42".to_string(),
        sessions: 1,
        lines_added: 156,
        lines_removed: 34,
        active_time_secs: 1395,
    };
    let lines = summary_lines("Today", &figures);
    let expected = vec![
        "Today".to_string(),
        "─".repeat(40),
        format!("{:<28} {:>10}", "Tokens (input)", "12,450"),
        format!("{:<28} {:>10}", "Tokens (output)", "3,200"),
        format!("{:<28} {:>10}", "Tokens (cache read)", "45,000"),
        format!("{:<28} {:>10}", "Tokens (cache creation)", "8,100"),
        format!("{:<28} {:>10}", "Cost", "$0.42"),
        format!("{:<28} {:>10}", "Sessions", "1"),
        format!("{:<28} {:>10}", "Lines added", "156"),
        format!("{:<28} {:>10}", "Lines removed", "34"),
        format!("{:<28} {:>10}", "Active time", "23m 15s"),
    ];
    assert_eq!(lines, expected);
}

#[test]
fn empty_tables_give_notices() {
    assert_eq!(render_history(&vec![]), "No data for the selected period.");
    assert_eq!(render_by_model(&vec![]), "No model data recorded.");
    assert_eq!(render_by_session(&vec![]), "No session data recorded.");
}

#[test]
fn history_table_matches_readme() {
    let rows = vec![
        HistoryFigures {
            date: "2026-03-23".to_string(),
            input_tokens: 12450,
            output_tokens: 3200,
            cache_read_tokens: 45000,
            cost: "$0.42".to_string(),
            sessions: 1,
        },
        HistoryFigures {
            date: "2026-03-22".to_string(),
            input_tokens: 79100,
            output_tokens: 20900,
            cache_read_tokens: 120000,
            cost: "$2.35".to_string(),
            sessions: 2,
        },
    ];
    let expected = "\
┌────────────┬────────┬────────┬────────────┬───────┬──────────┐
│ Date       ┆ Input  ┆ Output ┆ Cache Read ┆ Cost  ┆ Sessions │
╞════════════╪════════╪════════╪════════════╪═══════╪══════════╡
│ 2026-03-23 ┆ 12,450 ┆ 3,200  ┆ 45,000     ┆ $0.42 ┆ 1        │
├╌╌╌╌╌╌╌╌╌╌╌╌┼╌╌╌╌╌╌╌╌┼╌╌╌╌╌╌╌╌┼╌╌╌╌╌╌╌╌╌╌╌╌┼╌╌╌╌╌╌╌┼╌╌╌╌╌╌╌╌╌╌┤
│ 2026-03-22 ┆ 79,100 ┆ 20,900 ┆ 120,000    ┆ $2.35 ┆ 2        │
└────────────┴────────┴────────┴────────────┴───────┴──────────┘";
    assert_eq!(render_history(&rows), expected);
}

#[test]
fn model_table_layout() {
    let rows = vec![
        ModelFigures {
            model: "model-large-4-6".to_string(),
            input_tokens: 46550,
            output_tokens: 12100,
            cost: "$1.57".to_string(),
        },
        ModelFigures {
            model: "model-compact-4-6".to_string(),
            input_tokens: 45000,
            output_tokens: 12000,
            cost: "$1.20".to_string(),
        },
    ];
    let expected = "\
┌───────────────────┬────────┬────────┬───────┐
│ Model             ┆ Input  ┆ Output ┆ Cost  │
╞═══════════════════╪════════╪════════╪═══════╡
│ model-large-4-6   ┆ 46,550 ┆ 12,100 ┆ $1.57 │
├╌╌╌╌╌╌╌╌╌╌╌╌╌╌╌╌╌╌╌┼╌╌╌╌╌╌╌╌┼╌╌╌╌╌╌╌╌┼╌╌╌╌╌╌╌┤
│ model-compact-4-6 ┆ 45,000 ┆ 12,000 ┆ $1.20 │
└───────────────────┴────────┴────────┴───────┘";
    assert_eq!(render_by_model(&rows), expected);
}

#[test]
fn session_table_matches_readme() {
    let rows = vec![
        SessionFigures {
            session_id: "sess-a3f9c1".to_string(),
            date: "2026-03-23".to_string(),
            total_tokens: 68750,
            cost: "$0.42".to_string(),
            duration_secs: 1395,
        },
        SessionFigures {
            session_id: "sess-b7c0d2".to_string(),
            date: "2026-03-22".to_string(),
            total_tokens: 163000,
            cost: "$1.15".to_string(),
            duration_secs: 2700,
        },
    ];
    let expected = "\
┌────────────┬────────────┬─────────┬───────┬──────────┐
│ Session    ┆ Date       ┆ Tokens  ┆ Cost  ┆ Duration │
╞════════════╪════════════╪═════════╪═══════╪══════════╡
│ sess-a3f.. ┆ 2026-03-23 ┆ 68,750  ┆ $0.42 ┆ 23m 15s  │
├╌╌╌╌╌╌╌╌╌╌╌╌┼╌╌╌╌╌╌╌╌╌╌╌╌┼╌╌╌╌╌╌╌╌╌┼╌╌╌╌╌╌╌┼╌╌╌╌╌╌╌╌╌╌┤
│ sess-b7c.. ┆ 2026-03-22 ┆ 163,000 ┆ $1.15 ┆ 45m 0s   │
└────────────┴────────────┴─────────┴───────┴──────────┘";
    assert_eq!(render_by_session(&rows), expected);
}
