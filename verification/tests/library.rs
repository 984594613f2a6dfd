use scodex::ansi::{strip_ansi, style_text, AnsiStyle};
use scodex::codex::CodexAdapter;
use scodex::messages::{language_for_locale, messages, Language, Messages};
use scodex::state::{AccountRecord, AccountType, LiveIdentity, State, UsageCache, UsageSnapshot};
use scodex::table::{render_summary_transition_border, render_table, render_transition_border, TableRow};
use scodex::text::{equal_ignoring_ascii_case, parse_i64, push_decimal, push_int, same_text, text_less, trim};
use scodex::timefmt::parse_timestamp_display;
use scodex::width::visible_width;

fn subscription(id: &str, email: &str) -> AccountRecord {
    AccountRecord {
        id: id.into(),
        email: email.into(),
        auth_path: "/tmp/auth.json".into(),
        ..Default::default()
    }
}

fn api(id: &str, email: &str) -> AccountRecord {
    AccountRecord {
        id: id.into(),
        account_type: AccountType::Api,
        email: email.into(),
        auth_path: "/tmp/auth.json".into(),
        ..Default::default()
    }
}

fn is_short_stamp(s: &str) -> bool {
    let c: Vec<char> = s.chars().collect();
    c.len() == 11
        && c[2] == '-'
        && c[5] == ' '
        && c[8] == ':'
        && [0, 1, 3, 4, 6, 7, 9, 10].iter().all(|&i| c[i].is_ascii_digit())
}

#[test]
fn table_renders_exact_lines() {
    let rendered = render_table(
        &["A", "B"],
        &[TableRow::Cells(vec!["1".into(), "22".into()])],
        &["left", "right"],
        None,
    );
    let expected = [
        "┌───┬────┐",
        "│ A │  B │",
        "├───┼────┤",
        "│ 1 │ 22 │",
        "└───┴────┘",
    ]
    .join("\n");
    assert_eq!(rendered, expected);
}

#[test]
fn table_merges_borders_around_a_span() {
    let rendered = render_table(
        &["A", "B", "C"],
        &[
            TableRow::Cells(vec!["x".into(), "y".into(), "z".into()]),
            TableRow::WithSpan {
                leading_cells: vec!["w".into()],
                span_start: 1,
                span_columns: 2,
                span_value: "merged".into(),
                span_align: "center",
            },
        ],
        &["left", "left", "left"],
        None,
    );
    let expected = [
        "┌───┬────────┬───┐",
        "│ A │ B      │ C │",
        "├───┼────────┼───┤",
        "│ x │ y      │ z │",
        "├───┼────────┴───┤",
        "│ w │   merged   │",
        "└───┴────────┴───┘",
    ]
    .join("\n");
    assert_eq!(rendered, expected);
}

#[test]
fn table_summary_footer_spans_all_columns() {
    let rendered = render_table(
        &["A", "B"],
        &[TableRow::Cells(vec!["1".into(), "2".into()])],
        &["center", "center"],
        Some("ok".into()),
    );
    let expected = [
        "┌───┬───┐",
        "│ A │ B │",
        "├───┼───┤",
        "│ 1 │ 2 │",
        "├───┴───┤",
        "│  ok   │",
        "└───────┘",
    ]
    .join("\n");
    assert_eq!(rendered, expected);
}

#[test]
fn table_without_rows_has_plain_footer_border() {
    let rendered = render_table(&["AB"], &[], &["left"], Some("s".into()));
    let expected = ["┌────┐", "│ AB │", "├────┤", "├────┤", "│ s  │", "└────┘"].join("\n");
    assert_eq!(rendered, expected);
}

#[test]
fn table_keeps_unknown_alignment_unpadded() {
    let rendered = render_table(&["Wide"], &[TableRow::Cells(vec!["x".into()])], &["justify"], None);
    assert!(rendered.lines().any(|l| l == "│ x │"));
}

#[test]
fn styled_cells_align_by_visible_width() {
    let red = style_text("7", AnsiStyle::Red, true);
    let rendered = render_table(&["Q"], &[TableRow::Cells(vec![red.clone()])], &["left"], None);
    assert!(rendered.contains(&format!("│ {} │", red)));
    assert_eq!(visible_width(&red), 1);
}

#[test]
fn style_text_wraps_in_escapes_only_when_enabled() {
    assert_eq!(style_text("OK", AnsiStyle::Green, true), "\u{1b}[32mOK\u{1b}[0m");
    assert_eq!(style_text("OK", AnsiStyle::Red, true), "\u{1b}[31mOK\u{1b}[0m");
    assert_eq!(style_text("OK", AnsiStyle::Yellow, true), "\u{1b}[33mOK\u{1b}[0m");
    assert_eq!(style_text("OK", AnsiStyle::Green, false), "OK");
}

#[test]
fn styling_is_invisible_after_stripping() {
    for value in ["", "plain", "a\u{1b}", "x\u{1b}[3", "日本"] {
        for style in [AnsiStyle::Red, AnsiStyle::Yellow, AnsiStyle::Green] {
            let styled = style_text(value, style, true);
            assert_eq!(strip_ansi(&styled), strip_ansi(value));
            assert_eq!(visible_width(&styled), visible_width(value));
        }
    }
}

#[test]
fn strip_ansi_keeps_a_lone_escape() {
    assert_eq!(strip_ansi("a\u{1b}"), "a\u{1b}");
    assert_eq!(strip_ansi("\u{1b}X"), "\u{1b}X");
    assert_eq!(strip_ansi("\u{1b}[1;31mhi\u{1b}[0m!"), "hi!");
}

#[test]
fn visible_width_counts_wide_characters() {
    assert_eq!(visible_width("abc"), 3);
    assert_eq!(visible_width("日本"), 4);
    assert_eq!(visible_width(""), 0);
}

#[test]
fn parse_i64_follows_str_parse() {
    for s in [
        "0", "+5", "-0", "42", "-42", "007", "9223372036854775807", "-9223372036854775808",
        "9223372036854775808", "-9223372036854775809", "", "-", "+", "12a", " 1", "+-1",
        "99999999999999999999999",
    ] {
        assert_eq!(parse_i64(s), s.parse::<i64>().ok(), "input {:?}", s);
    }
}

#[test]
fn decimal_text_matches_display() {
    for v in [0i64, 7, -7, 10, 1234567890, i64::MAX, i64::MIN] {
        let mut s = String::new();
        push_int(&mut s, v);
        assert_eq!(s, v.to_string());
    }
    let mut s = String::from("n=");
    push_decimal(&mut s, u64::MAX);
    assert_eq!(s, format!("n={}", u64::MAX));
}

#[test]
fn trim_removes_unicode_white_space() {
    for s in ["  x  ", "\t\n y\u{3000}", "\u{a0}z\u{2009}", "", "   ", "a b"] {
        assert_eq!(trim(s), s.trim());
    }
}

#[test]
fn text_comparisons() {
    assert!(same_text("abc", "abc"));
    assert!(!same_text("abc", "abd"));
    assert!(equal_ignoring_ascii_case("A@Example.COM", "a@example.com"));
    assert!(!equal_ignoring_ascii_case("É", "é"));
    assert!(text_less("B", "a"));
    assert!(text_less("ab", "abc"));
    assert!(!text_less("abc", "abc"));
    assert!(text_less("z", "é"));
}

#[test]
fn usage_cache_reads_back_what_was_written() {
    let mut cache = UsageCache::new();
    assert!(cache.get("a").is_none());
    cache.insert("a".into(), UsageSnapshot { needs_relogin: true, ..Default::default() });
    cache.insert("b".into(), UsageSnapshot::default());
    assert!(cache.get("a").unwrap().needs_relogin);
    cache.insert("a".into(), UsageSnapshot { weekly_remaining_percent: Some(3), ..Default::default() });
    let a = cache.get("a").unwrap();
    assert!(!a.needs_relogin);
    assert_eq!(a.weekly_remaining_percent, Some(3));
    assert!(cache.contains_key("b"));
    assert!(!cache.contains_key("c"));
}

#[test]
fn timestamp_display_range_and_shape() {
    assert!(parse_timestamp_display("8210266876799").is_some());
    assert!(parse_timestamp_display("8210266876800").is_none());
    assert!(parse_timestamp_display("-8334601228800").is_some());
    assert!(parse_timestamp_display("-8334601228801").is_none());
    let s = parse_timestamp_display("+0").unwrap();
    assert!(is_short_stamp(&s), "{:?}", s);
    let s = parse_timestamp_display("2026-04-20T15:32:00+08:00").unwrap();
    assert!(is_short_stamp(&s), "{:?}", s);
    assert!(parse_timestamp_display("2026-04-20").is_none());
}

fn row_line<'a>(rendered: &'a str, needle: &str) -> &'a str {
    rendered.lines().find(|l| l.contains(needle)).expect("row")
}

#[test]
fn account_table_marks_the_active_account() {
    let adapter = CodexAdapter;
    let mut state = State::default();
    state.accounts.push(subscription("one", "One@Example.com"));
    state.accounts.push(subscription("two", "two@example.com"));
    let live = LiveIdentity { email: "one@example.COM".into(), ..Default::default() };
    let rendered = adapter.render_account_table(&state, Some(&live));
    assert!(row_line(&rendered, "One@Example.com").contains('✓'));
    assert!(!row_line(&rendered, "two@example.com").contains('✓'));

    let by_id = LiveIdentity {
        scodex_account_id: Some("two".into()),
        email: "someone@else".into(),
        ..Default::default()
    };
    let rendered = adapter.render_account_table(&state, Some(&by_id));
    assert!(row_line(&rendered, "two@example.com").contains('✓'));
    assert!(!row_line(&rendered, "One@Example.com").contains('✓'));
}

#[test]
fn account_table_counts_only_usable_subscriptions() {
    let adapter = CodexAdapter;
    let mut state = State::default();
    state.accounts.push(subscription("ok", "ok@example.com"));
    state.accounts.push(subscription("relogin", "relogin@example.com"));
    state.accounts.push(subscription("error", "error@example.com"));
    state.accounts.push(api("api", "api@example.com"));
    state.usage_cache.insert("relogin".into(), UsageSnapshot { needs_relogin: true, ..Default::default() });
    state.usage_cache.insert(
        "error".into(),
        UsageSnapshot { last_sync_error: Some("boom".into()), ..Default::default() },
    );
    let rendered = adapter.render_account_table(&state, None);
    let ui = messages();
    assert!(rendered.contains(&ui.usable_account_summary(1)));
    assert!(row_line(&rendered, "relogin@example.com").contains(ui.status_relogin()));
    assert!(row_line(&rendered, "error@example.com").contains(ui.status_error()));
    assert!(row_line(&rendered, "ok@example.com").contains(ui.status_ok()));
}

#[test]
fn account_table_orders_by_type_then_email() {
    let adapter = CodexAdapter;
    let mut state = State::default();
    state.accounts.push(api("p", "a@x"));
    state.accounts.push(subscription("q", "c@x"));
    state.accounts.push(subscription("r", "B@x"));
    state.accounts.push(subscription("s", "b@x"));
    let rendered = adapter.render_account_table(&state, None);
    let pos = |s: &str| rendered.find(s).unwrap();
    assert!(pos("B@x") < pos("b@x"));
    assert!(pos("b@x") < pos("c@x"));
    assert!(pos("c@x") < pos("a@x"));
}

#[test]
fn account_table_quota_colours_and_plan() {
    let adapter = CodexAdapter;
    let mut state = State::default();
    state.accounts.push(subscription("low", "low@x"));
    state.accounts.push(AccountRecord { plan: Some("Pro".into()), ..subscription("mid", "mid@x") });
    state.accounts.push(subscription("none", "none@x"));
    state.usage_cache.insert(
        "low".into(),
        UsageSnapshot {
            plan: Some("Team".into()),
            five_hour_remaining_percent: Some(19),
            weekly_remaining_percent: Some(-3),
            ..Default::default()
        },
    );
    state.usage_cache.insert(
        "mid".into(),
        UsageSnapshot {
            plan: Some("Team".into()),
            five_hour_remaining_percent: Some(49),
            weekly_remaining_percent: Some(50),
            ..Default::default()
        },
    );
    let ui = messages();
    let rendered = adapter.render_account_table_with(&state, None, &ui, true);
    let low = row_line(&rendered, "low@x");
    assert!(low.contains("\u{1b}[31m19%\u{1b}[0m"));
    assert!(low.contains("\u{1b}[31m-3%\u{1b}[0m"));
    assert!(low.contains("Team"));
    let mid = row_line(&rendered, "mid@x");
    assert!(mid.contains("\u{1b}[33m49%\u{1b}[0m"));
    assert!(mid.contains("\u{1b}[32m50%\u{1b}[0m"));
    assert!(mid.contains("Pro") && !mid.contains("Team"));
    let none = row_line(&rendered, "none@x");
    assert!(none.contains(ui.unknown()));
    assert_eq!(none.matches("N/A").count(), 3);
    assert!(none.contains("\u{1b}[32mOK\u{1b}[0m"));
}

#[test]
fn account_table_reset_column() {
    let adapter = CodexAdapter;
    let mut state = State::default();
    for (id, reset) in [("a", " none "), ("b", "NULL"), ("c", "n/A"), ("d", "   "), ("e", "garbage")] {
        state.accounts.push(subscription(id, &format!("{}@x", id)));
        state.usage_cache.insert(
            id.into(),
            UsageSnapshot { weekly_refresh_at: Some(reset.into()), ..Default::default() },
        );
    }
    state.accounts.push(subscription("f", "f@x"));
    state.usage_cache.insert(
        "f".into(),
        UsageSnapshot { weekly_refresh_at: Some(" 1745161920 ".into()), ..Default::default() },
    );
    let rendered = adapter.render_account_table(&state, None);
    for id in ["a", "b", "c", "d", "e"] {
        let line = row_line(&rendered, &format!("{}@x", id));
        assert_eq!(line.matches("N/A").count(), 3, "{}", line);
    }
    let f = row_line(&rendered, "f@x");
    assert_eq!(f.matches("N/A").count(), 2, "{}", f);
}

#[test]
fn account_table_in_chinese() {
    let adapter = CodexAdapter;
    let mut state = State::default();
    state.accounts.push(subscription("a", "a@x"));
    let ui = Messages::chinese();
    let rendered = adapter.render_account_table_with(&state, None, &ui, false);
    assert!(rendered.contains("类型"));
    assert!(rendered.contains("1 个可用账号"));
    let empty = adapter.render_account_table_with(&State::default(), None, &ui, false);
    assert_eq!(empty, ui.no_usable_account_hint());
}

#[test]
fn account_table_lines_have_equal_width_for_ascii_content() {
    let adapter = CodexAdapter;
    let mut state = State::default();
    state.accounts.push(subscription("s", "someone@example.com"));
    state.accounts.push(api("a", "api@example.com"));
    let rendered = adapter.render_account_table(&state, None);
    let widths: Vec<usize> = rendered.lines().map(|l| l.chars().count()).collect();
    assert!(widths.iter().all(|w| *w == widths[0]), "{:?}", widths);
    assert_eq!(rendered.lines().count(), 3 + 3 + 3);
}

#[test]
fn language_follows_locale_prefix() {
    assert_eq!(language_for_locale("zh_CN.UTF-8"), Language::Chinese);
    assert_eq!(language_for_locale("ZH"), Language::Chinese);
    assert_eq!(language_for_locale("en_US.UTF-8"), Language::English);
    assert_eq!(language_for_locale("z"), Language::English);
    assert_eq!(language_for_locale(""), Language::English);
}

#[test]
fn timestamp_display_shows_the_instant() {
    let epoch = parse_timestamp_display("1776699120").unwrap();
    let rfc = parse_timestamp_display("2026-04-20T15:32:00Z").unwrap();
    let rfc_offset = parse_timestamp_display("2026-04-20T17:32:00+02:00").unwrap();
    assert_eq!(epoch, rfc);
    assert_eq!(rfc, rfc_offset);
    let later = parse_timestamp_display("1776699180").unwrap();
    assert_ne!(epoch, later);
    assert_eq!(&epoch[..9], &later[..9]);
}

#[test]
fn timestamp_display_reads_rfc3339_by_the_calendar() {
    let pairs = [
        ("1970-01-01T00:00:00Z", "0"),
        ("2026-04-20t15:32:00z", "1776699120"),
        ("2026-04-20 15:32:00Z", "1776699120"),
        ("2024-02-29T23:59:00Z", "1709251140"),
        ("2026-04-20T15:32:60Z", "1776699179"),
        ("0000-03-01T00:00:00Z", "-62162035200"),
        ("9999-12-31T23:59:59Z", "253402300799"),
        ("2026-04-20T17:32:00+02:00", "1776699120"),
        ("2026-04-20T10:02:00-05:30", "1776699120"),
        ("2026-04-21T15:31:00+23:59", "1776699120"),
        ("2026-04-20T15:32:00.999999999Z", "1776699120"),
        ("2026-04-20T15:32:00.1234567891234Z", "1776699120"),
        ("2026-04-20T16:32:59.5+01:00", "1776699179"),
    ];
    for (rfc, epoch) in pairs {
        assert_eq!(parse_timestamp_display(rfc), parse_timestamp_display(epoch), "{:?}", rfc);
        assert!(parse_timestamp_display(rfc).is_some(), "{:?}", rfc);
    }
    for s in ["2023-02-29T00:00:00Z", "2026-04-31T00:00:00Z", "2026-13-01T00:00:00Z", "2026-04-20T24:00:00Z", "2026-04-20T15:60:00Z", "2026-04-20T15:32:61Z", "2026-04-20T15:32:00",
        "2026-04-20T15:32:00+24:00", "2026-04-20T15:32:00+08:60", "2026-04-20T15:32:00.Z",
        "2026-04-20T15:32:00+0800", "2026-04-20T15:32:00Z "] {
        assert!(parse_timestamp_display(s).is_none(), "{:?}", s);
    }
}

#[test]
fn timestamp_display_rejects_text_without_rfc3339_layout() {
    for s in ["not-a-date", "N/A", "2026-04-20", "2026/04/20T15:32:00Z", "20260420T153200Z"] {
        assert!(parse_timestamp_display(s).is_none(), "{:?}", s);
    }
}

#[test]
fn padding_and_wide_values() {
    let centred = render_table(&["12345"], &[TableRow::Cells(vec!["ab".into()])], &["center"], None);
    assert!(centred.lines().any(|l| l == "│  ab   │"));
    let wide = render_table(
        &["A", "B"],
        &[TableRow::WithSpan {
            leading_cells: vec![],
            span_start: 0,
            span_columns: 1,
            span_value: "abcdef".into(),
            span_align: "right",
        }],
        &["left", "left"],
        None,
    );
    assert!(wide.lines().any(|l| l == "│ abcdef │"), "{}", wide);
}

#[test]
fn swapping_rows_mirrors_the_border() {
    let widths = vec![1usize, 1, 1];
    let cells = TableRow::Cells(vec!["a".into(), "b".into(), "c".into()]);
    let span = TableRow::WithSpan {
        leading_cells: vec!["a".into()],
        span_start: 1,
        span_columns: 2,
        span_value: "b".into(),
        span_align: "left",
    };
    let down = render_transition_border(&widths, '├', '┤', Some(&cells), Some(&span));
    let up = render_transition_border(&widths, '├', '┤', Some(&span), Some(&cells));
    assert_eq!(down, "├───┼───┴───┤");
    assert_eq!(up, "├───┼───┬───┤");
    let closing = render_summary_transition_border(&widths, '├', '┤', &span);
    assert_eq!(closing, render_transition_border(&widths, '├', '┤', Some(&span), None));
    assert_eq!(closing, "├───┴───────┤");
}

#[test]
fn quota_colour_strips_to_plain_percent() {
    let state_row = style_text("42%", AnsiStyle::Green, true);
    assert_eq!(strip_ansi(&state_row), "42%");
}
