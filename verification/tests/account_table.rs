use scodex::ansi::strip_ansi;
use scodex::codex::CodexAdapter;
use scodex::messages::messages;
use scodex::state::{AccountRecord, AccountType, State, UsageSnapshot};
use scodex::table::{render_table, TableRow};
use scodex::timefmt::parse_timestamp_display;
use scodex::width::visible_width;

#[test]
fn strip_ansi_codes_keeps_visible_width_correct() {
    let styled = "\u{1b}[32m80%\u{1b}[0m";
    assert_eq!(strip_ansi(styled), "80%");
    assert_eq!(visible_width(styled), 3);
}

#[test]
fn table_uses_unicode_borders() {
    let rendered = render_table(
        &["A", "B"],
        &[TableRow::Cells(vec!["1".into(), "2".into()])],
        &["left", "left"],
        Some("1 usable account(s)".into()),
    );
    assert!(rendered.contains('┌'));
    assert!(rendered.contains('┬'));
    assert!(rendered.contains('└'));
    assert!(rendered.contains('│'));
}

#[test]
fn table_can_render_summary_without_rows() {
    let rendered = render_table(&["A", "B"], &[], &["left", "left"], Some("0 usable".into()));
    assert!(rendered.contains("0 usable"));
    assert!(rendered.contains('┌'));
    assert!(rendered.contains('└'));
}

#[test]
fn render_account_table_returns_empty_state_message_without_accounts() {
    let adapter = CodexAdapter;
    let rendered = adapter.render_account_table(&State::default(), None);
    assert_eq!(rendered, messages().no_usable_account_hint());
}

#[test]
fn render_account_table_shows_error_status_when_none_usable() {
    let adapter = CodexAdapter;
    let mut state = State::default();
    state.accounts.push(AccountRecord {
        id: "acct-1".into(),
        email: "a@example.com".into(),
        auth_path: "/tmp/auth.json".into(),
        ..Default::default()
    });
    state.usage_cache.insert(
        "acct-1".into(),
        UsageSnapshot {
            last_sync_error: Some("quota api failed".into()),
            ..Default::default()
        },
    );

    let rendered = adapter.render_account_table(&state, None);
    let messages = messages();

    assert!(
        rendered.contains("a@example.com"),
        "failed account row should still render"
    );
    assert!(
        rendered.contains(messages.status_error()),
        "status column should be marked error"
    );
    assert!(
        rendered.contains(&messages.usable_account_summary(0)),
        "summary should report zero usable accounts"
    );
}

#[test]
fn render_account_table_shows_api_accounts_with_na_quota() {
    let adapter = CodexAdapter;
    let mut state = State::default();
    state.accounts.push(AccountRecord {
        id: "api".into(),
        account_type: AccountType::Api,
        email: "56wxyz@openrouter".into(),
        auth_path: "/tmp/auth.json".into(),
        ..Default::default()
    });

    let rendered = adapter.render_account_table(&state, None);

    let type_header = messages().table_headers()[2];
    assert!(
        rendered.contains(type_header),
        "table header should contain Type/类型 column"
    );
    assert!(rendered.contains("API"));
    assert!(rendered.contains("56wxyz@openrouter"));
    let api_line = rendered
        .lines()
        .find(|line| line.contains("56wxyz@openrouter"))
        .expect("api row");
    assert_eq!(api_line.matches("N/A").count(), 1);
    assert_eq!(api_line.matches('│').count(), 5);
}

#[test]
fn render_account_table_merges_api_row_borders() {
    let adapter = CodexAdapter;
    let mut state = State::default();
    state.accounts.push(AccountRecord {
        id: "subscription".into(),
        email: "a@example.com".into(),
        plan: Some("Plus".into()),
        auth_path: "/tmp/subscription-auth.json".into(),
        ..Default::default()
    });
    state.accounts.push(AccountRecord {
        id: "api".into(),
        account_type: AccountType::Api,
        email: "56wxyz@openrouter".into(),
        auth_path: "/tmp/api-auth.json".into(),
        ..Default::default()
    });
    state.usage_cache.insert(
        "subscription".into(),
        UsageSnapshot {
            five_hour_remaining_percent: Some(100),
            weekly_remaining_percent: Some(100),
            ..Default::default()
        },
    );

    let rendered = adapter.render_account_table(&state, None);
    let lines = rendered.lines().collect::<Vec<_>>();
    let api_index = lines
        .iter()
        .position(|line| line.contains("56wxyz@openrouter"))
        .expect("api row");
    let border_above = lines[api_index - 1];
    let border_below = lines[api_index + 1];

    assert_eq!(border_above.matches('┼').count(), 3);
    assert_eq!(border_above.matches('┴').count(), 4);
    assert_eq!(border_below.matches('┴').count(), 3);
    assert_eq!(border_above.matches('┤').count(), 1);
    assert!(border_above.ends_with('┤'));
    assert!(border_below.starts_with('├'));
    assert!(border_below.ends_with('┤'));
}

#[test]
fn render_account_table_orders_subscription_accounts_before_api_accounts() {
    let adapter = CodexAdapter;
    let mut state = State::default();
    state.accounts.push(AccountRecord {
        id: "api".into(),
        account_type: AccountType::Api,
        email: "a-api@example.com".into(),
        auth_path: "/tmp/api-auth.json".into(),
        ..Default::default()
    });
    state.accounts.push(AccountRecord {
        id: "subscription".into(),
        email: "z-subscription@example.com".into(),
        plan: Some("Plus".into()),
        auth_path: "/tmp/subscription-auth.json".into(),
        ..Default::default()
    });
    state.usage_cache.insert(
        "subscription".into(),
        UsageSnapshot {
            five_hour_remaining_percent: Some(100),
            weekly_remaining_percent: Some(100),
            ..Default::default()
        },
    );

    let rendered = adapter.render_account_table(&state, None);
    let subscription_index = rendered
        .find("z-subscription@example.com")
        .expect("subscription row");
    let api_index = rendered.find("a-api@example.com").expect("api row");

    assert!(subscription_index < api_index);
}

#[test]
fn render_account_table_places_summary_inside_table_footer() {
    let adapter = CodexAdapter;
    let mut state = State::default();
    state.accounts.push(AccountRecord {
        id: "acct-1".into(),
        email: "a@example.com".into(),
        plan: Some("Plus".into()),
        auth_path: "/tmp/auth.json".into(),
        ..Default::default()
    });
    state.usage_cache.insert(
        "acct-1".into(),
        UsageSnapshot {
            five_hour_remaining_percent: Some(100),
            weekly_remaining_percent: Some(47),
            weekly_refresh_at: Some("2026-04-20T15:32:00Z".into()),
            ..Default::default()
        },
    );

    let rendered = adapter.render_account_table(&state, None);
    let lines = rendered.lines().collect::<Vec<_>>();
    let summary = messages().usable_account_summary(1);

    // transition border before summary
    assert_eq!(lines[lines.len() - 3].chars().next(), Some('├'));
    // summary row
    assert_eq!(lines[lines.len() - 2].chars().next(), Some('│'));
    assert!(lines[lines.len() - 2].contains(&summary));
    // clean bottom border (no column dividers)
    assert_eq!(lines.last().and_then(|line| line.chars().next()), Some('└'));
    assert!(!lines.last().unwrap().contains('┴'));
}

#[test]
fn parse_timestamp_display_handles_epoch() {
    // 1745161920 = 2025-04-20T15:32:00Z
    let result = parse_timestamp_display("1745161920");
    assert!(result.is_some(), "should parse i64 epoch");
    let s = result.unwrap();
    // MM-DD HH:MM
    assert_eq!(s.len(), 11);
}

#[test]
fn parse_timestamp_display_handles_rfc3339() {
    let result = parse_timestamp_display("2026-04-20T15:32:00Z");
    assert!(result.is_some(), "should parse RFC3339");
    let s = result.unwrap();
    assert_eq!(s.len(), 11);
}

#[test]
fn parse_timestamp_display_returns_none_for_invalid() {
    assert!(parse_timestamp_display("not-a-date").is_none());
    assert!(parse_timestamp_display("N/A").is_none());
}
