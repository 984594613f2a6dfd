//! The Codex account table: accounts ordered by type and e-mail, their quota
//! and status columns, and a footer that counts the usable ones.
use vstd::prelude::*;
use crate::ansi::{
    esc, law_styling_is_invisible, lemma_strip_without_escapes, strip_ansi_text, style_text,
    styled_text, AnsiStyle,
};
use crate::messages::{english, messages, Messages};
use crate::state::{
    empty_usage, AccountRecord, AccountType, LiveIdentity, State, UsageCache, UsageSnapshot,
};
use crate::table::{
    center_word, count_char, table_widths_hold, law_row_vertical_bars, lemma_count_absent, left_word, option_text, row_line, render_table, row_fits, rows_view, str_texts,
    table_text, table_well_formed, texts, RowShape, TableRow,
};
use crate::text::{
    chars_less, decimal_text, eq_ignoring_ascii_case, lemma_chars_less_irreflexive, lemma_chars_less_total, lemma_chars_less_transitive, equal_ignoring_ascii_case, int_text, push_char, push_int,
    same_text, text_less, trim, trimmed,
};
use crate::timefmt::{
    epoch_seconds, is_short_stamp, parse_timestamp_display, rfc3339_prefix, shows_instant,
    timestamp_instant,
};

verus! {

/// The Codex adapter.
pub struct CodexAdapter;

// ---------------------------------------------------------------------------
// Display order
// ---------------------------------------------------------------------------

/// Subscriptions are listed before API accounts.
pub open spec fn type_rank(t: AccountType) -> int {
    match t {
        AccountType::Subscription => 0,
        AccountType::Api => 1,
    }
}

fn account_type_sort_key(account: &AccountRecord) -> (k: u8)
    ensures
        k as int == type_rank(account.account_type),
{
    match account.account_type {
        AccountType::Subscription => 0,
        AccountType::Api => 1,
    }
}

/// Whether `a` is listed before `b`: by type, then by e-mail.
pub open spec fn sorts_before(a: AccountRecord, b: AccountRecord) -> bool {
    ||| type_rank(a.account_type) < type_rank(b.account_type)
    ||| (type_rank(a.account_type) == type_rank(b.account_type) && chars_less(a.email@, b.email@))
}

fn account_sorts_before(a: &AccountRecord, b: &AccountRecord) -> (r: bool)
    ensures
        r == sorts_before(*a, *b),
{
    let ka = account_type_sort_key(a);
    let kb = account_type_sort_key(b);
    if ka != kb {
        ka < kb
    } else {
        text_less(a.email.as_str(), b.email.as_str())
    }
}

/// Where account `j` goes among the already ordered `order`: after every
/// account that it does not sort before.
pub open spec fn insert_position(order: Seq<int>, accounts: Seq<AccountRecord>, j: int) -> int
    decreases order.len(),
{
    if order.len() == 0 {
        0
    } else if sorts_before(accounts[j], accounts[order[0]]) {
        0
    } else {
        1 + insert_position(order.drop_first(), accounts, j)
    }
}

/// The display order of the first `k` accounts: a stable sort by type, then
/// by e-mail (the order that a stable `sort_by` on that key gives).
pub open spec fn display_order(accounts: Seq<AccountRecord>, k: int) -> Seq<int>
    decreases k,
{
    if k <= 0 {
        Seq::empty()
    } else {
        let order = display_order(accounts, k - 1);
        order.insert(insert_position(order, accounts, k - 1), k - 1)
    }
}

pub open spec fn indices_view(v: Seq<usize>) -> Seq<int> {
    Seq::new(v.len(), |i: int| v[i] as int)
}

proof fn lemma_insert_position_bounds(order: Seq<int>, accounts: Seq<AccountRecord>, j: int)
    ensures
        0 <= insert_position(order, accounts, j) <= order.len(),
    decreases order.len(),
{
    if order.len() > 0 {
        lemma_insert_position_bounds(order.drop_first(), accounts, j);
    }
}

/// The display order of the first `k` accounts holds each of `0..k` once.
pub proof fn lemma_display_order_indices(accounts: Seq<AccountRecord>, k: int)
    requires
        k >= 0,
    ensures
        display_order(accounts, k).len() == k,
        forall|i: int|
            0 <= i < k ==> 0 <= #[trigger] display_order(accounts, k)[i] < k,
        forall|i: int, m: int|
            0 <= i < m < k ==> #[trigger] display_order(accounts, k)[i] != #[trigger] display_order(
                accounts,
                k,
            )[m],
    decreases k,
{
    if k > 0 {
        lemma_display_order_indices(accounts, k - 1);
        let order = display_order(accounts, k - 1);
        lemma_insert_position_bounds(order, accounts, k - 1);
    }
}

/// Account `x` is listed before account `y`: it sorts before it, or the two
/// tie and `x` came first.
pub open spec fn listed_before(accounts: Seq<AccountRecord>, x: int, y: int) -> bool {
    ||| sorts_before(accounts[x], accounts[y])
    ||| (!sorts_before(accounts[y], accounts[x]) && x < y)
}

proof fn lemma_sorts_before_transitive(a: AccountRecord, b: AccountRecord, c: AccountRecord)
    requires
        sorts_before(a, b),
        sorts_before(b, c),
    ensures
        sorts_before(a, c),
{
    if type_rank(a.account_type) == type_rank(b.account_type) && type_rank(b.account_type)
        == type_rank(c.account_type) {
        lemma_chars_less_transitive(a.email@, b.email@, c.email@);
    }
}

proof fn lemma_sorts_before_tie(a: AccountRecord, b: AccountRecord, c: AccountRecord)
    requires
        !sorts_before(a, b),
        !sorts_before(b, a),
    ensures
        sorts_before(c, a) == sorts_before(c, b),
        sorts_before(a, c) == sorts_before(b, c),
{
    lemma_chars_less_total(a.email@, b.email@);
}

proof fn lemma_insert_position_facts(order: Seq<int>, accounts: Seq<AccountRecord>, j: int)
    ensures
        forall|i: int|
            0 <= i < insert_position(order, accounts, j) ==> !sorts_before(
                accounts[j],
                accounts[#[trigger] order[i]],
            ),
        insert_position(order, accounts, j) < order.len() ==> sorts_before(
            accounts[j],
            accounts[order[insert_position(order, accounts, j)]],
        ),
    decreases order.len(),
{
    lemma_insert_position_bounds(order, accounts, j);
    if order.len() > 0 && !sorts_before(accounts[j], accounts[order[0]]) {
        let rest = order.drop_first();
        lemma_insert_position_facts(rest, accounts, j);
        lemma_insert_position_bounds(rest, accounts, j);
        assert forall|i: int|
            0 <= i < insert_position(order, accounts, j) implies !sorts_before(
            accounts[j],
            accounts[#[trigger] order[i]],
        ) by {
            if i > 0 {
                assert(order[i] == rest[i - 1]);
            }
        }
        if insert_position(order, accounts, j) < order.len() {
            assert(order[insert_position(order, accounts, j)] == rest[insert_position(
                rest,
                accounts,
                j,
            )]);
        }
    }
}

/// The display order lists every account exactly once.
pub proof fn law_display_order_is_permutation(accounts: Seq<AccountRecord>)
    ensures
        display_order(accounts, accounts.len() as int).len() == accounts.len(),
        forall|i: int|
            0 <= i < accounts.len() ==> 0 <= #[trigger] display_order(
                accounts,
                accounts.len() as int,
            )[i] < accounts.len(),
        forall|i: int, m: int|
            0 <= i < m < accounts.len() ==> #[trigger] display_order(
                accounts,
                accounts.len() as int,
            )[i] != #[trigger] display_order(accounts, accounts.len() as int)[m],
{
    lemma_display_order_indices(accounts, accounts.len() as int);
}

proof fn lemma_display_order_sorted(accounts: Seq<AccountRecord>, k: int)
    requires
        0 <= k <= accounts.len(),
    ensures
        forall|p: int, q: int|
            0 <= p < q < k ==> listed_before(
                accounts,
                #[trigger] display_order(accounts, k)[p],
                #[trigger] display_order(accounts, k)[q],
            ),
    decreases k,
{
    if k > 0 {
        lemma_display_order_sorted(accounts, k - 1);
        lemma_display_order_indices(accounts, k - 1);
        let o = display_order(accounts, k - 1);
        let pos = insert_position(o, accounts, k - 1);
        lemma_insert_position_bounds(o, accounts, k - 1);
        lemma_insert_position_facts(o, accounts, k - 1);
        let ok = display_order(accounts, k);
        assert(ok == o.insert(pos, k - 1));
        assert forall|p: int, q: int| 0 <= p < q < k implies listed_before(
            accounts,
            #[trigger] ok[p],
            #[trigger] ok[q],
        ) by {
            if q < pos {
                assert(ok[p] == o[p] && ok[q] == o[q]);
            } else if q == pos {
                assert(ok[p] == o[p]);
                assert(!sorts_before(accounts[k - 1], accounts[o[p]]));
            } else if p > pos {
                assert(ok[p] == o[p - 1] && ok[q] == o[q - 1]);
            } else if p == pos {
                assert(ok[q] == o[q - 1]);
                let first = o[pos];
                let later = o[q - 1];
                assert(sorts_before(accounts[k - 1], accounts[first]));
                if q - 1 > pos {
                    assert(listed_before(accounts, o[pos], o[q - 1]));
                    if sorts_before(accounts[first], accounts[later]) {
                        lemma_sorts_before_transitive(
                            accounts[k - 1],
                            accounts[first],
                            accounts[later],
                        );
                    } else {
                        lemma_sorts_before_tie(accounts[first], accounts[later], accounts[k - 1]);
                    }
                }
            } else {
                assert(ok[p] == o[p] && ok[q] == o[q - 1]);
            }
        }
    }
}

/// The display order is sorted: by type, then by e-mail, and accounts that
/// tie keep their stored order.
pub proof fn law_display_order_is_sorted(accounts: Seq<AccountRecord>)
    ensures
        forall|p: int, q: int|
            0 <= p < q < accounts.len() ==> listed_before(
                accounts,
                #[trigger] display_order(accounts, accounts.len() as int)[p],
                #[trigger] display_order(accounts, accounts.len() as int)[q],
            ),
{
    lemma_display_order_sorted(accounts, accounts.len() as int);
}

/// Every subscription is listed before every API account.
pub proof fn law_subscriptions_listed_before_api(accounts: Seq<AccountRecord>, p: int, q: int)
    requires
        0 <= p < q < accounts.len(),
        accounts[display_order(accounts, accounts.len() as int)[p]].account_type
            == AccountType::Api,
    ensures
        accounts[display_order(accounts, accounts.len() as int)[q]].account_type
            == AccountType::Api,
{
    lemma_display_order_sorted(accounts, accounts.len() as int);
    let o = display_order(accounts, accounts.len() as int);
    assert(listed_before(accounts, o[p], o[q]));
}

/// The display order of all accounts.
fn display_order_of(accounts: &Vec<AccountRecord>) -> (order: Vec<usize>)
    ensures
        indices_view(order@) == display_order(accounts@, accounts@.len() as int),
{
    let n = accounts.len();
    let mut order: Vec<usize> = Vec::new();
    for j in 0..n
        invariant
            n == accounts@.len(),
            order@.len() == j,
            indices_view(order@) == display_order(accounts@, j as int),
            forall|k: int| 0 <= k < j ==> #[trigger] order@[k] < j,
    {
        let ghost o = indices_view(order@);
        let mut p: usize = 0;
        assert(o.subrange(0, o.len() as int) =~= o);
        while p < order.len() && !account_sorts_before(&accounts[j], &accounts[order[p]])
            invariant
                n == accounts@.len(),
                j < n,
                order@.len() == j,
                o == indices_view(order@),
                forall|k: int| 0 <= k < j ==> #[trigger] order@[k] < j,
                p <= order@.len(),
                insert_position(o, accounts@, j as int) == p + insert_position(
                    o.subrange(p as int, o.len() as int),
                    accounts@,
                    j as int,
                ),
            decreases order@.len() - p,
        {
            assert(o.subrange(p as int, o.len() as int).drop_first() =~= o.subrange(
                p + 1,
                o.len() as int,
            ));
            p = p + 1;
        }
        order.insert(p, j);
        assert(indices_view(order@) =~= o.insert(p as int, j as int));
        assert forall|k: int| 0 <= k < j + 1 implies #[trigger] order@[k] < j + 1 by {
            if k < p {
                assert(order@[k] == o[k]);
            } else if k > p {
                assert(order@[k] == o[k - 1]);
            }
        }
    }
    order
}

// ---------------------------------------------------------------------------
// Usage
// ---------------------------------------------------------------------------

/// The snapshot of an account, or the empty one when none is cached.
pub open spec fn usage_of(cache: Map<Seq<char>, UsageSnapshot>, a: AccountRecord) -> UsageSnapshot {
    if cache.contains_key(a.id@) {
        cache[a.id@]
    } else {
        empty_usage()
    }
}

pub open spec fn usage_is_usable(u: UsageSnapshot) -> bool {
    !u.needs_relogin && u.last_sync_error is None
}

fn account_is_usable(usage: &UsageSnapshot) -> (b: bool)
    ensures
        b == usage_is_usable(*usage),
{
    !usage.needs_relogin && usage.last_sync_error.is_none()
}

/// A subscription whose last sync worked and that needs no new login.
pub open spec fn counts_as_usable(a: AccountRecord, cache: Map<Seq<char>, UsageSnapshot>) -> bool {
    a.account_type == AccountType::Subscription && usage_is_usable(usage_of(cache, a))
}

/// How many of the first `k` accounts are usable.
pub open spec fn usable_count(
    accounts: Seq<AccountRecord>,
    cache: Map<Seq<char>, UsageSnapshot>,
    k: int,
) -> int
    decreases k,
{
    if k <= 0 {
        0
    } else {
        usable_count(accounts, cache, k - 1) + if counts_as_usable(accounts[k - 1], cache) {
            1int
        } else {
            0int
        }
    }
}

fn usage_for<'a>(cache: &'a UsageCache, account: &AccountRecord, empty: &'a UsageSnapshot) -> (u:
    &'a UsageSnapshot)
    requires
        *empty == empty_usage(),
    ensures
        *u == usage_of(cache@, *account),
{
    match cache.get(account.id.as_str()) {
        Some(u) => u,
        None => empty,
    }
}

fn count_usable(state: &State) -> (c: usize)
    ensures
        c as int == usable_count(
            state.accounts@,
            state.usage_cache@,
            state.accounts@.len() as int,
        ),
{
    let empty = UsageSnapshot::default();
    let mut count: usize = 0;
    for j in 0..state.accounts.len()
        invariant
            empty == empty_usage(),
            count <= j,
            count as int == usable_count(state.accounts@, state.usage_cache@, j as int),
    {
        let account = &state.accounts[j];
        let usage = usage_for(&state.usage_cache, account, &empty);
        if account.is_subscription() && account_is_usable(usage) {
            count = count + 1;
        }
    }
    count
}

// ---------------------------------------------------------------------------
// Cell texts
// ---------------------------------------------------------------------------

/// The live identity is this account: same stored id, same e-mail ignoring
/// ASCII case, or the same upstream account id.
pub open spec fn active_matches_spec(a: AccountRecord, live: LiveIdentity) -> bool {
    ||| (live.scodex_account_id matches Some(id) && id@ == a.id@)
    ||| eq_ignoring_ascii_case(a.email@, live.email@)
    ||| (a.account_id matches Some(x) && live.account_id matches Some(y) && x@ == y@)
}

fn active_matches(account: &AccountRecord, live: &LiveIdentity) -> (b: bool)
    ensures
        b == active_matches_spec(*account, *live),
{
    if let Some(id) = &live.scodex_account_id {
        if same_text(id.as_str(), account.id.as_str()) {
            return true;
        }
    }
    if equal_ignoring_ascii_case(account.email.as_str(), live.email.as_str()) {
        return true;
    }
    match (&account.account_id, &live.account_id) {
        (Some(x), Some(y)) => same_text(x.as_str(), y.as_str()),
        _ => false,
    }
}

pub open spec fn option_live(active: Option<&LiveIdentity>) -> Option<LiveIdentity> {
    match active {
        Some(live) => Some(*live),
        None => None,
    }
}

/// A check mark on the account that is active now.
pub open spec fn marker_text(a: AccountRecord, active: Option<LiveIdentity>) -> Seq<char> {
    if active matches Some(live) && active_matches_spec(a, live) {
        seq!['✓']
    } else {
        Seq::empty()
    }
}

fn active_account_marker() -> (s: String)
    ensures
        s@ == seq!['✓'],
{
    let mut s = String::new();
    push_char(&mut s, '✓');
    s
}

pub open spec fn type_text(a: AccountRecord, ui: Messages) -> Seq<char> {
    match a.account_type {
        AccountType::Subscription => ui.subscription_text(),
        AccountType::Api => ui.api_text(),
    }
}

fn format_account_type(account: &AccountRecord, ui: &Messages) -> (s: String)
    ensures
        s@ == type_text(*account, *ui),
{
    match account.account_type {
        AccountType::Subscription => ui.account_type_subscription().to_owned(),
        AccountType::Api => ui.account_type_api().to_owned(),
    }
}

/// The account's own plan, else the plan seen in its usage, else unknown.
pub open spec fn plan_text(a: AccountRecord, u: UsageSnapshot, ui: Messages) -> Seq<char> {
    match a.plan {
        Some(p) => p@,
        None => match u.plan {
            Some(p) => p@,
            None => ui.unknown_text(),
        },
    }
}

fn format_plan(account: &AccountRecord, usage: &UsageSnapshot, ui: &Messages) -> (s: String)
    ensures
        s@ == plan_text(*account, *usage, *ui),
{
    match &account.plan {
        Some(p) => p.clone(),
        None => match &usage.plan {
            Some(p) => p.clone(),
            None => ui.unknown().to_owned(),
        },
    }
}

/// `42%`, or not available.
pub open spec fn percent_text(value: Option<i64>, ui: Messages) -> Seq<char> {
    match value {
        Some(v) => int_text(v as int).push('%'),
        None => ui.na_text(),
    }
}

fn format_percent(value: Option<i64>, ui: &Messages) -> (s: String)
    ensures
        s@ == percent_text(value, *ui),
{
    match value {
        Some(v) => {
            let mut s = String::new();
            push_int(&mut s, v);
            push_char(&mut s, '%');
            s
        },
        None => ui.na().to_owned(),
    }
}

/// Red under 20%, yellow under 50%, green otherwise.
pub open spec fn quota_style(v: i64) -> AnsiStyle {
    if v < 20 {
        AnsiStyle::Red
    } else if v < 50 {
        AnsiStyle::Yellow
    } else {
        AnsiStyle::Green
    }
}

pub open spec fn quota_text(value: Option<i64>, ui: Messages, styled: bool) -> Seq<char> {
    match value {
        Some(v) => styled_text(percent_text(value, ui), quota_style(v), styled),
        None => percent_text(value, ui),
    }
}

fn format_quota_percent(value: Option<i64>, ui: &Messages, styled: bool) -> (s: String)
    ensures
        s@ == quota_text(value, *ui, styled),
{
    let text = format_percent(value, ui);
    match value {
        Some(v) => {
            if v < 20 {
                style_text(text.as_str(), AnsiStyle::Red, styled)
            } else if v < 50 {
                style_text(text.as_str(), AnsiStyle::Yellow, styled)
            } else {
                style_text(text.as_str(), AnsiStyle::Green, styled)
            }
        },
        None => text,
    }
}

proof fn lemma_decimal_has_no_escape(n: nat)
    ensures
        forall|i: int|
            0 <= i < decimal_text(n).len() ==> #[trigger] decimal_text(n)[i] != esc(),
    decreases n,
{
    if n >= 10 {
        lemma_decimal_has_no_escape(n / 10);
        let d = decimal_text(n);
        let prev = decimal_text(n / 10);
        assert forall|i: int| 0 <= i < d.len() implies #[trigger] d[i] != esc() by {
            if i < prev.len() {
                assert(d[i] == prev[i]);
            }
        }
    }
}

/// Colouring a quota cell never changes what it shows: its visible text is
/// the plain percentage (or the not-available text). `quota_text` is what
/// `format_quota_percent` returns and `percent_text` what `format_percent`
/// returns, so stripping the escapes from the one gives the other, for every
/// value, with or without colour.
pub proof fn law_quota_colour_is_invisible(value: Option<i64>, ui: Messages, styled: bool)
    requires
        forall|i: int| 0 <= i < ui.na_text().len() ==> #[trigger] ui.na_text()[i] != esc(),
    ensures
        strip_ansi_text(quota_text(value, ui, styled)) == percent_text(value, ui),
{
    let p = percent_text(value, ui);
    if let Some(v) = value {
        let magnitude: nat = if v < 0 {
            (-(v as int)) as nat
        } else {
            v as nat
        };
        lemma_decimal_has_no_escape(magnitude);
        let t = int_text(v as int);
        assert forall|i: int| 0 <= i < p.len() implies #[trigger] p[i] != esc() by {
            if i < t.len() {
                assert(p[i] == t[i]);
                if v < 0 && i > 0 {
                    assert(t[i] == decimal_text(magnitude)[i - 1]);
                }
            }
        }
        law_styling_is_invisible(p, quota_style(v), styled);
    }
    lemma_strip_without_escapes(p);
}

/// Re-login (red), error (red) or OK (green).
pub open spec fn status_text(u: UsageSnapshot, ui: Messages, styled: bool) -> Seq<char> {
    if u.needs_relogin {
        styled_text(ui.relogin_text(), AnsiStyle::Red, styled)
    } else if u.last_sync_error is Some {
        styled_text(ui.error_text(), AnsiStyle::Red, styled)
    } else {
        styled_text(ui.ok_text(), AnsiStyle::Green, styled)
    }
}

fn format_account_status(usage: &UsageSnapshot, ui: &Messages, styled: bool) -> (s: String)
    ensures
        s@ == status_text(*usage, *ui, styled),
{
    if usage.needs_relogin {
        style_text(ui.status_relogin(), AnsiStyle::Red, styled)
    } else if usage.last_sync_error.is_some() {
        style_text(ui.status_error(), AnsiStyle::Red, styled)
    } else {
        style_text(ui.status_ok(), AnsiStyle::Green, styled)
    }
}

pub open spec fn none_word() -> Seq<char> {
    seq!['n', 'o', 'n', 'e']
}

pub open spec fn null_word() -> Seq<char> {
    seq!['n', 'u', 'l', 'l']
}

pub open spec fn slash_na_word() -> Seq<char> {
    seq!['n', '/', 'a']
}

/// The reset time worth parsing: trimmed, not empty, and not a word for
/// "no value" (`none`, `null`, `n/a`, in any ASCII case).
pub open spec fn reset_candidate(value: Option<Seq<char>>) -> Option<Seq<char>> {
    match value {
        None => None,
        Some(v) => {
            let t = trimmed(v);
            if t.len() == 0 || eq_ignoring_ascii_case(t, none_word()) || eq_ignoring_ascii_case(
                t,
                null_word(),
            ) || eq_ignoring_ascii_case(t, slash_na_word()) {
                None
            } else {
                Some(t)
            }
        },
    }
}

/// What the reset column shows for a stored reset time: not available when
/// there is nothing to parse or parsing fails; otherwise the instant as a
/// local `MM-DD HH:MM` stamp (at the machine's UTC offset, which is not
/// stated). Only epoch seconds or text laid out as RFC 3339 parse.
pub open spec fn reset_text_ok(value: Option<Seq<char>>, ui: Messages, text: Seq<char>) -> bool {
    match reset_candidate(value) {
        None => text == ui.na_text(),
        Some(c) => match timestamp_instant(c) {
            None => text == ui.na_text(),
            Some(instant) => {
                &&& epoch_seconds(c) is Some || rfc3339_prefix(c)
                &&& is_short_stamp(text)
                &&& shows_instant(text, instant)
            },
        },
    }
}

pub open spec fn option_str_text(value: Option<&str>) -> Option<Seq<char>> {
    match value {
        Some(s) => Some(s@),
        None => None,
    }
}

fn reset_candidate_of(value: Option<&str>) -> (r: Option<String>)
    ensures
        option_text(r) == reset_candidate(option_str_text(value)),
{
    match value {
        None => None,
        Some(v) => {
            let t = trim(v);
            proof {
                reveal_strlit("none");
                reveal_strlit("null");
                reveal_strlit("n/a");
                assert("none"@ =~= none_word());
                assert("null"@ =~= null_word());
                assert("n/a"@ =~= slash_na_word());
            }
            if t.as_str().is_empty() || equal_ignoring_ascii_case(t.as_str(), "none")
                || equal_ignoring_ascii_case(t.as_str(), "null") || equal_ignoring_ascii_case(
                t.as_str(),
                "n/a",
            ) {
                None
            } else {
                Some(t)
            }
        },
    }
}

fn format_reset_on(value: Option<&str>, ui: &Messages) -> (s: String)
    ensures
        reset_text_ok(option_str_text(value), *ui, s@),
{
    match reset_candidate_of(value) {
        None => ui.na().to_owned(),
        Some(candidate) => match parse_timestamp_display(candidate.as_str()) {
            Some(text) => text,
            None => ui.na().to_owned(),
        },
    }
}

// ---------------------------------------------------------------------------
// Rows
// ---------------------------------------------------------------------------

pub open spec fn na_word() -> Seq<char> {
    seq!['N', '/', 'A']
}

/// An account's row. An API account has no quotas: one `N/A` spans the five
/// quota and status columns.
pub open spec fn account_row(
    a: AccountRecord,
    u: UsageSnapshot,
    active: Option<LiveIdentity>,
    ui: Messages,
    styled: bool,
    reset: Seq<char>,
) -> RowShape {
    let leading = seq![marker_text(a, active), a.email@, type_text(a, ui)];
    match a.account_type {
        AccountType::Api => RowShape::Span {
            leading,
            start: 3,
            columns: 5,
            value: na_word(),
            align: center_word(),
        },
        AccountType::Subscription => RowShape::Cells(
            leading + seq![
                plan_text(a, u, ui),
                quota_text(u.five_hour_remaining_percent, ui, styled),
                quota_text(u.weekly_remaining_percent, ui, styled),
                reset,
                status_text(u, ui, styled),
            ],
        ),
    }
}

fn build_account_row(
    account: &AccountRecord,
    usage: &UsageSnapshot,
    active: Option<&LiveIdentity>,
    ui: &Messages,
    styled: bool,
    reset: &String,
) -> (row: TableRow)
    ensures
        row@ == account_row(*account, *usage, option_live(active), *ui, styled, reset@),
{
    let marker = match active {
        Some(live) => if active_matches(account, live) {
            active_account_marker()
        } else {
            String::new()
        },
        None => String::new(),
    };
    let mut leading_cells: Vec<String> = Vec::new();
    leading_cells.push(marker);
    leading_cells.push(account.email.clone());
    leading_cells.push(format_account_type(account, ui));
    let ghost leading = texts(leading_cells@);
    assert(leading =~= seq![
        marker_text(*account, option_live(active)),
        account.email@,
        type_text(*account, *ui),
    ]);
    if account.is_api() {
        proof {
            reveal_strlit("N/A");
            reveal_strlit("center");
            assert("N/A"@ =~= na_word());
            assert("center"@ =~= center_word());
        }
        TableRow::WithSpan {
            leading_cells,
            span_start: 3,
            span_columns: 5,
            span_value: "N/A".to_owned(),
            span_align: "center",
        }
    } else {
        let mut cells = leading_cells;
        cells.push(format_plan(account, usage, ui));
        cells.push(format_quota_percent(usage.five_hour_remaining_percent, ui, styled));
        cells.push(format_quota_percent(usage.weekly_remaining_percent, ui, styled));
        cells.push(reset.clone());
        cells.push(format_account_status(usage, ui, styled));
        let row = TableRow::Cells(cells);
        assert(texts(cells@) =~= leading + seq![
            plan_text(*account, *usage, *ui),
            quota_text(usage.five_hour_remaining_percent, *ui, styled),
            quota_text(usage.weekly_remaining_percent, *ui, styled),
            reset@,
            status_text(*usage, *ui, styled),
        ]);
        row
    }
}

/// The rows in display order; `resets[j]` is the reset text of account `j`.
pub open spec fn account_rows(
    accounts: Seq<AccountRecord>,
    cache: Map<Seq<char>, UsageSnapshot>,
    active: Option<LiveIdentity>,
    ui: Messages,
    styled: bool,
    resets: Seq<Seq<char>>,
) -> Seq<RowShape> {
    let order = display_order(accounts, accounts.len() as int);
    Seq::new(
        accounts.len(),
        |k: int|
            account_row(
                accounts[order[k]],
                usage_of(cache, accounts[order[k]]),
                active,
                ui,
                styled,
                resets[order[k]],
            ),
    )
}

/// The marker column is centred, e-mails are left-aligned, the rest centred.
pub open spec fn account_aligns() -> Seq<Seq<char>> {
    seq![
        center_word(),
        left_word(),
        center_word(),
        center_word(),
        center_word(),
        center_word(),
        center_word(),
        center_word(),
    ]
}

/// The whole output: a hint when there are no accounts, else the table with
/// the count of usable accounts in its footer.
pub open spec fn account_table_text(
    accounts: Seq<AccountRecord>,
    cache: Map<Seq<char>, UsageSnapshot>,
    active: Option<LiveIdentity>,
    ui: Messages,
    styled: bool,
    resets: Seq<Seq<char>>,
) -> Seq<char> {
    if accounts.len() == 0 {
        ui.hint_text()
    } else {
        table_text(
            ui.header_texts(),
            account_rows(accounts, cache, active, ui, styled, resets),
            account_aligns(),
            Some(ui.summary_text(usable_count(accounts, cache, accounts.len() as int) as nat)),
        )
    }
}

/// Every text of a non-empty account table takes one column per character
/// when it is printable ASCII.
pub open spec fn account_widths_hold(
    accounts: Seq<AccountRecord>,
    cache: Map<Seq<char>, UsageSnapshot>,
    active: Option<LiveIdentity>,
    ui: Messages,
    styled: bool,
    resets: Seq<Seq<char>>,
) -> bool {
    accounts.len() > 0 ==> table_widths_hold(
        ui.header_texts(),
        account_rows(accounts, cache, active, ui, styled, resets),
        Some(ui.summary_text(usable_count(accounts, cache, accounts.len() as int) as nat)),
    )
}

/// The reset texts fit what `format_reset_on` may give for each subscription.
pub open spec fn resets_ok(
    accounts: Seq<AccountRecord>,
    cache: Map<Seq<char>, UsageSnapshot>,
    ui: Messages,
    resets: Seq<Seq<char>>,
) -> bool {
    &&& resets.len() == accounts.len()
    &&& forall|j: int|
        0 <= j < accounts.len() && accounts[j].account_type == AccountType::Subscription
            ==> reset_text_ok(
            option_text(usage_of(cache, accounts[j]).weekly_refresh_at),
            ui,
            #[trigger] resets[j],
        )
}

proof fn lemma_account_row_fits(
    a: AccountRecord,
    u: UsageSnapshot,
    active: Option<LiveIdentity>,
    ui: Messages,
    styled: bool,
    reset: Seq<char>,
)
    ensures
        row_fits(account_row(a, u, active, ui, styled, reset), 8),
{
}

/// With no accounts there is no table: the output is the hint.
pub proof fn law_no_accounts_shows_hint(
    accounts: Seq<AccountRecord>,
    cache: Map<Seq<char>, UsageSnapshot>,
    active: Option<LiveIdentity>,
    ui: Messages,
    styled: bool,
    resets: Seq<Seq<char>>,
)
    requires
        accounts.len() == 0,
    ensures
        account_table_text(accounts, cache, active, ui, styled, resets) == ui.hint_text(),
{
}

/// How many of the first `k` accounts are subscriptions.
pub open spec fn subscription_count(accounts: Seq<AccountRecord>, k: int) -> int
    decreases k,
{
    if k <= 0 {
        0
    } else {
        subscription_count(accounts, k - 1) + if accounts[k - 1].account_type
            == AccountType::Subscription {
            1int
        } else {
            0int
        }
    }
}

/// The footer counts usable subscriptions only: never more than there are
/// subscriptions, and zero when no account is usable (API accounts never
/// count).
pub proof fn law_usable_count_bounds(
    accounts: Seq<AccountRecord>,
    cache: Map<Seq<char>, UsageSnapshot>,
    k: int,
)
    requires
        0 <= k <= accounts.len(),
    ensures
        0 <= usable_count(accounts, cache, k) <= subscription_count(accounts, k),
        (forall|j: int| 0 <= j < k ==> !counts_as_usable(#[trigger] accounts[j], cache))
            ==> usable_count(accounts, cache, k) == 0,
    decreases k,
{
    if k > 0 {
        law_usable_count_bounds(accounts, cache, k - 1);
    }
}

/// An API account's quota and status columns merge into one `N/A` cell: when
/// its e-mail and type text hold no `│`, its row line has exactly five
/// vertical bars (four around its three leading cells, one closing the span).
pub proof fn law_api_row_is_merged(
    a: AccountRecord,
    u: UsageSnapshot,
    active: Option<LiveIdentity>,
    ui: Messages,
    styled: bool,
    reset: Seq<char>,
    w: Seq<int>,
    aligns: Seq<Seq<char>>,
)
    requires
        a.account_type == AccountType::Api,
        count_char(a.email@, '│') == 0,
        count_char(type_text(a, ui), '│') == 0,
    ensures
        count_char(row_line(account_row(a, u, active, ui, styled, reset), w, aligns), '│') == 5,
{
    let r = account_row(a, u, active, ui, styled, reset);
    lemma_count_absent(marker_text(a, active), '│');
    lemma_count_absent(na_word(), '│');
    if let RowShape::Span { leading, .. } = r {
        assert forall|i: int| 0 <= i < leading.len() implies count_char(#[trigger] leading[i], '│')
            == 0 by {
            if i == 0 {
                assert(leading[0] == marker_text(a, active));
            } else if i == 1 {
                assert(leading[1] == a.email@);
            } else {
                assert(leading[2] == type_text(a, ui));
            }
        }
    }
    law_row_vertical_bars(r, w, aligns);
}

/// The texts that a status or a missing value shows carry no escape.
proof fn lemma_plain_message_texts(ui: Messages)
    ensures
        forall|i: int| 0 <= i < ui.na_text().len() ==> #[trigger] ui.na_text()[i] != esc(),
        forall|i: int| 0 <= i < ui.relogin_text().len() ==> #[trigger] ui.relogin_text()[i] != esc(),
        forall|i: int| 0 <= i < ui.error_text().len() ==> #[trigger] ui.error_text()[i] != esc(),
        forall|i: int| 0 <= i < ui.ok_text().len() ==> #[trigger] ui.ok_text()[i] != esc(),
{
    reveal_strlit("N/A");
    reveal_strlit("Re-login");
    reveal_strlit("需重新登录");
    reveal_strlit("Error");
    reveal_strlit("错误");
    reveal_strlit("OK");
    reveal_strlit("正常");
}

/// The status column, colour aside: a needed re-login shows the re-login
/// text whatever the last sync error; otherwise a sync error shows the error
/// text; otherwise it shows OK.
pub proof fn law_status_precedence(u: UsageSnapshot, ui: Messages, styled: bool)
    ensures
        u.needs_relogin ==> strip_ansi_text(status_text(u, ui, styled)) == ui.relogin_text(),
        !u.needs_relogin && u.last_sync_error is Some ==> strip_ansi_text(
            status_text(u, ui, styled),
        ) == ui.error_text(),
        !u.needs_relogin && u.last_sync_error is None ==> strip_ansi_text(
            status_text(u, ui, styled),
        ) == ui.ok_text(),
{
    lemma_plain_message_texts(ui);
    if u.needs_relogin {
        law_styling_is_invisible(ui.relogin_text(), AnsiStyle::Red, styled);
        lemma_strip_without_escapes(ui.relogin_text());
    } else if u.last_sync_error is Some {
        law_styling_is_invisible(ui.error_text(), AnsiStyle::Red, styled);
        lemma_strip_without_escapes(ui.error_text());
    } else {
        law_styling_is_invisible(ui.ok_text(), AnsiStyle::Green, styled);
        lemma_strip_without_escapes(ui.ok_text());
    }
}

/// The check mark goes to the account that is logged in: the one whose id
/// the live identity names, one with the same e-mail ignoring ASCII case, or
/// one with the same upstream account id; to no other account, and to none
/// when nobody is logged in.
pub proof fn law_active_account_is_marked(a: AccountRecord, live: LiveIdentity)
    ensures
        (a.account_id matches Some(x) && live.account_id matches Some(y) && x@ == y@)
            ==> marker_text(a, Some(live)) == seq!['✓'],
        eq_ignoring_ascii_case(a.email@, live.email@) ==> marker_text(a, Some(live)) == seq!['✓'],
        (live.scodex_account_id matches Some(id) && id@ == a.id@) ==> marker_text(a, Some(live))
            == seq!['✓'],
        !(a.account_id matches Some(x) && live.account_id matches Some(y) && x@ == y@)
            && !eq_ignoring_ascii_case(a.email@, live.email@) && !(live.scodex_account_id matches Some(
            id,
        ) && id@ == a.id@) ==> marker_text(a, Some(live)) == Seq::<char>::empty(),
        marker_text(a, None) == Seq::<char>::empty(),
{
}

/// A subscription's row lines up with the headers: the marker, the e-mail,
/// the type and the plan, then the five-hour quota under `5h Left`, the
/// weekly quota under `Weekly Left`, the reset text under `Weekly Reset` and
/// the status under `Status`. A quota shows its percentage (colour aside),
/// or the not-available text when it is unknown.
pub proof fn law_subscription_row_columns(
    a: AccountRecord,
    u: UsageSnapshot,
    active: Option<LiveIdentity>,
    ui: Messages,
    styled: bool,
    reset: Seq<char>,
)
    requires
        a.account_type == AccountType::Subscription,
    ensures
        account_row(a, u, active, ui, styled, reset) is Cells,
        ({
            let c = account_row(a, u, active, ui, styled, reset)->0;
            &&& c.len() == 8
            &&& c[0] == marker_text(a, active)
            &&& c[1] == a.email@
            &&& c[2] == ui.subscription_text()
            &&& (a.plan matches Some(p) ==> c[3] == p@)
            &&& (u.plan matches Some(p) ==> (a.plan is None ==> c[3] == p@))
            &&& (a.plan is None && u.plan is None ==> c[3] == ui.unknown_text())
            &&& (u.five_hour_remaining_percent matches Some(v) ==> strip_ansi_text(c[4])
                == int_text(v as int).push('%'))
            &&& (u.five_hour_remaining_percent is None ==> c[4] == ui.na_text())
            &&& (u.weekly_remaining_percent matches Some(v) ==> strip_ansi_text(c[5]) == int_text(
                v as int,
            ).push('%'))
            &&& (u.weekly_remaining_percent is None ==> c[5] == ui.na_text())
            &&& c[6] == reset
            &&& c[7] == status_text(u, ui, styled)
        }),
        english().header_texts()[4] == "5h Left"@,
        english().header_texts()[5] == "Weekly Left"@,
        english().header_texts()[6] == "Weekly Reset"@,
        english().header_texts()[7] == "Status"@,
{
    lemma_plain_message_texts(ui);
    law_quota_colour_is_invisible(u.five_hour_remaining_percent, ui, styled);
    law_quota_colour_is_invisible(u.weekly_remaining_percent, ui, styled);
}

/// An API account's row: the marker, the e-mail and the API type text, then
/// one centred `N/A` spanning the five columns from the plan to the status.
pub proof fn law_api_row_shape(
    a: AccountRecord,
    u: UsageSnapshot,
    active: Option<LiveIdentity>,
    ui: Messages,
    styled: bool,
    reset: Seq<char>,
)
    requires
        a.account_type == AccountType::Api,
    ensures
        account_row(a, u, active, ui, styled, reset) == (RowShape::Span {
            leading: seq![marker_text(a, active), a.email@, ui.api_text()],
            start: 3,
            columns: 5,
            value: "N/A"@,
            align: "center"@,
        }),
{
    reveal_strlit("N/A");
    reveal_strlit("center");
    assert(na_word() =~= "N/A"@);
    assert(center_word() =~= "center"@);
}

/// An account counts toward the footer exactly when it is a subscription
/// whose status column shows OK (colour aside).
pub proof fn law_usable_means_status_ok(
    a: AccountRecord,
    cache: Map<Seq<char>, UsageSnapshot>,
    ui: Messages,
    styled: bool,
)
    ensures
        counts_as_usable(a, cache) <==> (a.account_type == AccountType::Subscription
            && strip_ansi_text(status_text(usage_of(cache, a), ui, styled)) == ui.ok_text()),
{
    law_status_precedence(usage_of(cache, a), ui, styled);
    reveal_strlit("Re-login");
    reveal_strlit("需重新登录");
    reveal_strlit("Error");
    reveal_strlit("错误");
    reveal_strlit("OK");
    reveal_strlit("正常");
    assert(ui.ok_text().len() != ui.relogin_text().len());
    assert(ui.ok_text().len() != ui.error_text().len() || ui.ok_text()[0] != ui.error_text()[0]);
}

/// The footer count grows by one exactly for each usable subscription.
pub proof fn law_usable_count_step(
    accounts: Seq<AccountRecord>,
    cache: Map<Seq<char>, UsageSnapshot>,
    k: int,
)
    requires
        0 <= k < accounts.len(),
    ensures
        usable_count(accounts, cache, k + 1) == usable_count(accounts, cache, k) + if accounts[k].account_type
            == AccountType::Subscription && !usage_of(cache, accounts[k]).needs_relogin
            && usage_of(cache, accounts[k]).last_sync_error is None {
            1int
        } else {
            0int
        },
{
}

/// Two accounts of the same type are listed by e-mail in lexicographic
/// order, and two with the same e-mail keep their stored order.
pub proof fn law_same_type_listed_by_email(accounts: Seq<AccountRecord>, p: int, q: int)
    requires
        0 <= p < q < accounts.len(),
        accounts[display_order(accounts, accounts.len() as int)[p]].account_type
            == accounts[display_order(accounts, accounts.len() as int)[q]].account_type,
    ensures
        !chars_less(
            accounts[display_order(accounts, accounts.len() as int)[q]].email@,
            accounts[display_order(accounts, accounts.len() as int)[p]].email@,
        ),
        accounts[display_order(accounts, accounts.len() as int)[p]].email@
            == accounts[display_order(accounts, accounts.len() as int)[q]].email@
            ==> display_order(accounts, accounts.len() as int)[p] < display_order(
            accounts,
            accounts.len() as int,
        )[q],
{
    lemma_display_order_sorted(accounts, accounts.len() as int);
    let o = display_order(accounts, accounts.len() as int);
    assert(listed_before(accounts, o[p], o[q]));
    let x = accounts[o[p]];
    let y = accounts[o[q]];
    lemma_chars_less_total(x.email@, y.email@);
    lemma_chars_less_irreflexive(x.email@);
}

/// What the reset column shows for a stored weekly reset time: not available
/// when there is none, when it is blank, or when it is `none`, `null` or
/// `n/a` in any ASCII case, or when its trimmed text is no epoch seconds and
/// no RFC 3339 time; otherwise a short local stamp of that instant.
pub proof fn law_reset_text(value: Option<Seq<char>>, ui: Messages, text: Seq<char>)
    requires
        reset_text_ok(value, ui, text),
    ensures
        value is None ==> text == ui.na_text(),
        value matches Some(v) && (trimmed(v).len() == 0 || eq_ignoring_ascii_case(trimmed(v), "none"@)
            || eq_ignoring_ascii_case(trimmed(v), "null"@) || eq_ignoring_ascii_case(
            trimmed(v),
            "n/a"@,
        )) ==> text == ui.na_text(),
        value matches Some(v) && timestamp_instant(trimmed(v)) is None ==> text == ui.na_text(),
        value matches Some(v) ==> (timestamp_instant(trimmed(v)) matches Some(i) ==> (
        trimmed(v).len() > 0 && !eq_ignoring_ascii_case(trimmed(v), "none"@)
            && !eq_ignoring_ascii_case(trimmed(v), "null"@) && !eq_ignoring_ascii_case(
            trimmed(v),
            "n/a"@,
        ) ==> is_short_stamp(text) && shows_instant(text, i))),
{
    reveal_strlit("none");
    reveal_strlit("null");
    reveal_strlit("n/a");
    assert("none"@ =~= none_word());
    assert("null"@ =~= null_word());
    assert("n/a"@ =~= slash_na_word());
}

/// Row `k` of the table shows the account that the display order puts
/// there, `accounts[j]` with `j = display_order[k]`: its e-mail, its own
/// usage and, for a subscription, its own reset text `resets[j]`. When the
/// reset texts are what `format_reset_on` gives for each account, the reset
/// cell of that row shows that account's weekly reset time.
pub proof fn law_rows_show_their_account(
    accounts: Seq<AccountRecord>,
    cache: Map<Seq<char>, UsageSnapshot>,
    active: Option<LiveIdentity>,
    ui: Messages,
    styled: bool,
    resets: Seq<Seq<char>>,
    k: int,
)
    requires
        resets.len() == accounts.len(),
        0 <= k < accounts.len(),
    ensures
        account_rows(accounts, cache, active, ui, styled, resets).len() == accounts.len(),
        ({
            let j = display_order(accounts, accounts.len() as int)[k];
            let r = account_rows(accounts, cache, active, ui, styled, resets)[k];
            &&& 0 <= j < accounts.len()
            &&& r == account_row(accounts[j], usage_of(cache, accounts[j]), active, ui, styled, resets[j])
            &&& accounts[j].account_type == AccountType::Subscription ==> {
                &&& r is Cells
                &&& r->0[1] == accounts[j].email@
                &&& r->0[6] == resets[j]
                &&& resets_ok(accounts, cache, ui, resets) ==> reset_text_ok(
                    option_text(usage_of(cache, accounts[j]).weekly_refresh_at),
                    ui,
                    r->0[6],
                )
            }
        }),
{
    law_display_order_is_permutation(accounts);
    let j = display_order(accounts, accounts.len() as int)[k];
    if accounts[j].account_type == AccountType::Subscription {
        law_subscription_row_columns(
            accounts[j],
            usage_of(cache, accounts[j]),
            active,
            ui,
            styled,
            resets[j],
        );
    }
}

impl CodexAdapter {
    /// The account table, given the reset text of every account (`resets[j]`
    /// for `state.accounts[j]`; it is not shown for API accounts).
    pub fn render_account_table_from_resets(
        &self,
        state: &State,
        active: Option<&LiveIdentity>,
        ui: &Messages,
        styled: bool,
        resets: &Vec<String>,
    ) -> (out: String)
        requires
            resets@.len() == state.accounts@.len(),
        ensures
            out@ == account_table_text(
                state.accounts@,
                state.usage_cache@,
                option_live(active),
                *ui,
                styled,
                texts(resets@),
            ),
            account_widths_hold(
                state.accounts@,
                state.usage_cache@,
                option_live(active),
                *ui,
                styled,
                texts(resets@),
            ),
    {
        if state.accounts.len() == 0 {
            return ui.no_usable_account_hint().to_owned();
        }
        let ghost accounts = state.accounts@;
        let ghost cache = state.usage_cache@;
        let ghost shapes = account_rows(
            accounts,
            cache,
            option_live(active),
            *ui,
            styled,
            texts(resets@),
        );
        let n = state.accounts.len();
        let order = display_order_of(&state.accounts);
        proof {
            lemma_display_order_indices(accounts, n as int);
            assert(indices_view(order@).len() == order@.len());
            assert forall|i: int| 0 <= i < n implies 0 <= #[trigger] order@[i] < n by {
                assert(indices_view(order@)[i] == order@[i] as int);
            }
        }
        let usable_count = count_usable(state);
        let empty = UsageSnapshot::default();
        let mut rows: Vec<TableRow> = Vec::new();
        for k in 0..n
            invariant
                n == accounts.len(),
                accounts == state.accounts@,
                cache == state.usage_cache@,
                resets@.len() == n,
                empty == empty_usage(),
                indices_view(order@) == display_order(accounts, n as int),
                order@.len() == n,
                forall|i: int| 0 <= i < n ==> 0 <= #[trigger] order@[i] < n,
                shapes == account_rows(
                    accounts,
                    cache,
                    option_live(active),
                    *ui,
                    styled,
                    texts(resets@),
                ),
                rows@.len() == k,
                forall|i: int| 0 <= i < k ==> (#[trigger] rows@[i])@ == shapes[i],
        {
            let j = order[k];
            assert(indices_view(order@)[k as int] == order@[k as int] as int);
            let account = &state.accounts[j];
            let usage = usage_for(&state.usage_cache, account, &empty);
            rows.push(build_account_row(account, usage, active, ui, styled, &resets[j]));
        }
        assert(rows_view(rows@) =~= shapes);
        let headers = ui.table_headers();
        proof {
            reveal_strlit("center");
            reveal_strlit("left");
            assert("center"@ =~= center_word());
            assert("left"@ =~= left_word());
        }
        let aligns: [&str; 8] = [
            "center",
            "left",
            "center",
            "center",
            "center",
            "center",
            "center",
            "center",
        ];
        assert(str_texts(aligns@) =~= account_aligns());
        let summary = ui.usable_account_summary(usable_count);
        assert forall|k: int| 0 <= k < rows@.len() implies row_fits(
            #[trigger] rows_view(rows@)[k],
            8,
        ) by {
            let j = display_order(accounts, n as int)[k];
            lemma_account_row_fits(
                accounts[j],
                usage_of(cache, accounts[j]),
                option_live(active),
                *ui,
                styled,
                texts(resets@)[j],
            );
        }
        assert(table_well_formed(8, rows_view(rows@), 8, true));
        render_table(headers.as_slice(), rows.as_slice(), aligns.as_slice(), Some(summary))
    }

    /// The account table in the given language, coloured when `styled`.
    /// Reset times are shown in the machine's local time.
    pub fn render_account_table_with(
        &self,
        state: &State,
        active: Option<&LiveIdentity>,
        ui: &Messages,
        styled: bool,
    ) -> (out: String)
        ensures
            exists|resets: Seq<Seq<char>>|
                {
                    &&& resets_ok(state.accounts@, state.usage_cache@, *ui, resets)
                    &&& out@ == account_table_text(
                        state.accounts@,
                        state.usage_cache@,
                        option_live(active),
                        *ui,
                        styled,
                        resets,
                    )
                    &&& account_widths_hold(
                        state.accounts@,
                        state.usage_cache@,
                        option_live(active),
                        *ui,
                        styled,
                        resets,
                    )
                },
    {
        let empty = UsageSnapshot::default();
        let mut resets: Vec<String> = Vec::new();
        for j in 0..state.accounts.len()
            invariant
                empty == empty_usage(),
                resets@.len() == j,
                forall|i: int|
                    0 <= i < j && state.accounts@[i].account_type == AccountType::Subscription
                        ==> reset_text_ok(
                        option_text(
                            usage_of(state.usage_cache@, state.accounts@[i]).weekly_refresh_at,
                        ),
                        *ui,
                        #[trigger] resets@[i]@,
                    ),
        {
            let account = &state.accounts[j];
            if account.is_api() {
                resets.push(String::new());
            } else {
                let usage = usage_for(&state.usage_cache, account, &empty);
                let refresh: Option<&str> = match &usage.weekly_refresh_at {
                    Some(text) => Some(text.as_str()),
                    None => None,
                };
                assert(option_str_text(refresh) == option_text(usage.weekly_refresh_at));
                resets.push(format_reset_on(refresh, ui));
            }
        }
        let out = self.render_account_table_from_resets(state, active, ui, styled, &resets);
        assert(resets_ok(state.accounts@, state.usage_cache@, *ui, texts(resets@)));
        out
    }

    /// The account table with the default texts and without colours.
    pub fn render_account_table(&self, state: &State, active: Option<&LiveIdentity>) -> (out:
        String)
        ensures
            exists|resets: Seq<Seq<char>>|
                {
                    &&& resets_ok(state.accounts@, state.usage_cache@, english(), resets)
                    &&& out@ == account_table_text(
                        state.accounts@,
                        state.usage_cache@,
                        option_live(active),
                        english(),
                        false,
                        resets,
                    )
                    &&& account_widths_hold(
                        state.accounts@,
                        state.usage_cache@,
                        option_live(active),
                        english(),
                        false,
                        resets,
                    )
                },
    {
        let ui = messages();
        self.render_account_table_with(state, active, &ui, false)
    }
}

} // verus!
