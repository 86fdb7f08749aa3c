use vstd::prelude::*;
use crate::text::lemma_deep_view_push;

verus! {

/// The built-in "Without" rules, used when no other source of rules answers.
pub open spec fn default_without_names() -> Seq<Seq<char>> {
    seq![
        "config"@,
        "config/include"@,
        "config/include/lang"@,
        "config/include/title"@,
        "config/include/title/seo"@,
        "config/include/header"@,
        "config/include/footer"@,
        "config/include/contact_us"@,
        "config/include/landing"@,
        "config/include/slider"@,
        "config/include/page_name"@,
        "config/include/widget"@,
        "config/include/sitemap"@,
        "config/include/robots"@,
        "mod/index"@,
        "mod/register"@,
        "mod/login"@,
        "mod/message"@,
        "mod/games"@,
        "mod/games/lottery"@,
        "mod/games/lottery/submitter"@,
        "mod/games/poker"@,
        "mod/games/hot_games"@,
        "mod/games/hot_games_lobby"@,
        "mod/games/ongdo_lobby"@,
        "mod/games/sports_lobby"@,
        "mod/games/casino_lobby"@,
        "mod/games/slots_lobby"@,
        "mod/games/number_lobby"@,
        "mod/games/lottery_lobby"@,
        "mod/games/poker_lobby"@,
        "mod/games/cockfight"@,
        "mod/games/cock_lobby"@,
        "mod/games/fishing_lobby"@,
        "mod/games/slots"@,
        "mod/gift"@,
        "mod/member"@,
        "mod/member/info"@,
        "mod/member/reports"@,
        "mod/member/vip_bonus"@,
        "mod/member/fix_bank"@,
        "mod/member/deposit"@,
        "mod/member/usdt"@,
        "mod/member/deposit/online"@,
        "mod/member/deposit/qrcode"@,
        "mod/member/deposit/depo_menu"@,
        "mod/member/deposit/submitter"@,
        "mod/register/submitter"@,
        "mod/member/with"@,
        "mod/member/with/with_menu"@,
        "mod/member/bonus"@,
        "mod/member/bonus/bonus_menu"@,
        "mod/member/bonus/submitter"@,
        "mod/member/nav_bar"@,
        "mod/games/slots/slot_ajax"@,
        "mod/member/transfer"@,
        "mod/member/transfer/submitter"@,
        "promotions"@,
        "other"@,
    ]
}

/// The built-in "Except" rules, used when no other source of rules answers.
pub open spec fn default_except_names() -> Seq<Seq<char>> {
    seq![
        "content"@,
        ".git"@,
        ".idea"@,
        "index.php"@,
        "test"@,
        "test_2"@,
        ".gitignore"@,
    ]
}

/// The built-in "Without" rule texts.
pub fn default_without() -> (names: Vec<&'static str>)
    ensures
        names.deep_view() == default_without_names(),
{
    let names = vec![
        "config",
        "config/include",
        "config/include/lang",
        "config/include/title",
        "config/include/title/seo",
        "config/include/header",
        "config/include/footer",
        "config/include/contact_us",
        "config/include/landing",
        "config/include/slider",
        "config/include/page_name",
        "config/include/widget",
        "config/include/sitemap",
        "config/include/robots",
        "mod/index",
        "mod/register",
        "mod/login",
        "mod/message",
        "mod/games",
        "mod/games/lottery",
        "mod/games/lottery/submitter",
        "mod/games/poker",
        "mod/games/hot_games",
        "mod/games/hot_games_lobby",
        "mod/games/ongdo_lobby",
        "mod/games/sports_lobby",
        "mod/games/casino_lobby",
        "mod/games/slots_lobby",
        "mod/games/number_lobby",
        "mod/games/lottery_lobby",
        "mod/games/poker_lobby",
        "mod/games/cockfight",
        "mod/games/cock_lobby",
        "mod/games/fishing_lobby",
        "mod/games/slots",
        "mod/gift",
        "mod/member",
        "mod/member/info",
        "mod/member/reports",
        "mod/member/vip_bonus",
        "mod/member/fix_bank",
        "mod/member/deposit",
        "mod/member/usdt",
        "mod/member/deposit/online",
        "mod/member/deposit/qrcode",
        "mod/member/deposit/depo_menu",
        "mod/member/deposit/submitter",
        "mod/register/submitter",
        "mod/member/with",
        "mod/member/with/with_menu",
        "mod/member/bonus",
        "mod/member/bonus/bonus_menu",
        "mod/member/bonus/submitter",
        "mod/member/nav_bar",
        "mod/games/slots/slot_ajax",
        "mod/member/transfer",
        "mod/member/transfer/submitter",
        "promotions",
        "other",
    ];
    assert(names.deep_view() =~= default_without_names());
    names
}

/// The built-in "Except" rule texts.
pub fn default_except() -> (names: Vec<&'static str>)
    ensures
        names.deep_view() == default_except_names(),
{
    let names = vec![
        "content",
        ".git",
        ".idea",
        "index.php",
        "test",
        "test_2",
        ".gitignore",
    ];
    assert(names.deep_view() =~= default_except_names());
    names
}

/// The number of system columns a rule table gets for `cols` systems (at
/// least one).
pub open spec fn column_count(cols: nat) -> nat {
    if cols == 0 {
        1
    } else {
        cols
    }
}

/// One rule row: `text` in each of the table's columns.
pub open spec fn broadcast_row(text: Seq<char>, cols: nat) -> Seq<Seq<char>> {
    Seq::new(column_count(cols), |c: int| text)
}

/// A rule table with one row per rule, each rule broadcast across the columns.
pub open spec fn rule_table(names: Seq<Seq<char>>, cols: nat) -> Seq<Seq<Seq<char>>> {
    Seq::new(names.len(), |i: int| broadcast_row(names[i], cols))
}

/// `text` repeated once per column (at least once).
pub fn broadcast_text(text: &str, cols: usize) -> (row: Vec<String>)
    ensures
        row.deep_view() == broadcast_row(text@, cols as nat),
{
    let n = if cols == 0 {
        1
    } else {
        cols
    };
    let mut row: Vec<String> = Vec::new();
    let mut k: usize = 0;
    while k < n
        invariant
            n == column_count(cols as nat),
            k <= n,
            row@.len() == k,
            row.deep_view() == Seq::new(k as nat, |c: int| text@),
        decreases n - k,
    {
        let ghost before = row;
        let t = text.to_owned();
        row.push(t);
        proof { lemma_deep_view_push(before, row, t); }
        assert(row.deep_view() =~= Seq::new((k + 1) as nat, |c: int| text@));
        k = k + 1;
    }
    row
}

fn table_from_strs(names: &Vec<&'static str>, cols: usize) -> (table: Vec<Vec<String>>)
    ensures
        table.deep_view() == rule_table(names.deep_view(), cols as nat),
{
    let mut table: Vec<Vec<String>> = Vec::new();
    let mut i: usize = 0;
    while i < names.len()
        invariant
            i <= names@.len(),
            table@.len() == i,
            table.deep_view() == rule_table(names.deep_view().take(i as int), cols as nat),
        decreases names@.len() - i,
    {
        let row = broadcast_text(names[i], cols);
        let ghost before = table;
        table.push(row);
        proof {
            lemma_deep_view_push(before, table, row);
            assert(names.deep_view().take(i as int + 1) =~= names.deep_view().take(i as int).push(names@[i as int].deep_view()));
            assert(table.deep_view() =~= rule_table(names.deep_view().take(i as int + 1), cols as nat));
        }
        i = i + 1;
    }
    assert(names.deep_view().take(names@.len() as int) =~= names.deep_view());
    table
}

/// Default "Without" exclusion rows, broadcast across `cols` system columns.
pub fn build_default_without(cols: usize) -> (table: Vec<Vec<String>>)
    ensures
        table.deep_view() == rule_table(default_without_names(), cols as nat),
{
    table_from_strs(&default_without(), cols)
}

/// Default "Except" exclusion rows, broadcast across `cols` system columns.
pub fn build_default_except(cols: usize) -> (table: Vec<Vec<String>>)
    ensures
        table.deep_view() == rule_table(default_except_names(), cols as nat),
{
    table_from_strs(&default_except(), cols)
}

/// Converts a flat list of rule strings into a rows×cols table.
pub fn rules_from_vec(entries: &[String], cols: usize) -> (table: Vec<Vec<String>>)
    ensures
        table.deep_view() == rule_table(entries.deep_view(), cols as nat),
{
    let mut table: Vec<Vec<String>> = Vec::new();
    let mut i: usize = 0;
    while i < entries.len()
        invariant
            i <= entries@.len(),
            table@.len() == i,
            table.deep_view() == rule_table(entries.deep_view().take(i as int), cols as nat),
        decreases entries@.len() - i,
    {
        let row = broadcast_text(entries[i].as_str(), cols);
        let ghost before = table;
        table.push(row);
        proof {
            lemma_deep_view_push(before, table, row);
            assert(entries.deep_view().take(i as int + 1) =~= entries.deep_view().take(i as int).push(entries@[i as int].deep_view()));
            assert(table.deep_view() =~= rule_table(entries.deep_view().take(i as int + 1), cols as nat));
        }
        i = i + 1;
    }
    assert(entries.deep_view().take(entries@.len() as int) =~= entries.deep_view());
    table
}

/// A new, empty rule row for `cols` system columns.
pub fn empty_row(cols: usize) -> (row: Vec<String>)
    ensures
        row.deep_view() == Seq::new(cols as nat, |c: int| Seq::<char>::empty()),
{
    let mut row: Vec<String> = Vec::new();
    let mut k: usize = 0;
    while k < cols
        invariant
            k <= cols,
            row@.len() == k,
            row.deep_view() == Seq::new(k as nat, |c: int| Seq::<char>::empty()),
        decreases cols - k,
    {
        let ghost before = row;
        let e = String::new();
        row.push(e);
        proof { lemma_deep_view_push(before, row, e); }
        assert(row.deep_view() =~= Seq::new((k + 1) as nat, |c: int| Seq::<char>::empty()));
        k = k + 1;
    }
    row
}

/// `t` with an empty cell appended to every row.
pub open spec fn with_column_added(t: Seq<Seq<Seq<char>>>) -> Seq<Seq<Seq<char>>> {
    Seq::new(t.len(), |i: int| t[i].push(Seq::<char>::empty()))
}

/// `t` with the last cell of every non-empty row dropped.
pub open spec fn with_last_column_removed(t: Seq<Seq<Seq<char>>>) -> Seq<Seq<Seq<char>>> {
    Seq::new(
        t.len(),
        |i: int| if t[i].len() > 0 {
            t[i].drop_last()
        } else {
            t[i]
        },
    )
}

/// Adds an empty cell at the end of every row (a new system column).
pub fn add_column(rows: &mut Vec<Vec<String>>)
    ensures
        final(rows).deep_view() == with_column_added(old(rows).deep_view()),
{
    let ghost start = rows.deep_view();
    let mut i: usize = 0;
    while i < rows.len()
        invariant
            start == old(rows).deep_view(),
            rows@.len() == start.len(),
            i <= rows@.len(),
            forall|k: int| 0 <= k < i ==> #[trigger] rows@[k].deep_view() == start[k].push(Seq::<char>::empty()),
            forall|k: int| i <= k < rows@.len() ==> #[trigger] rows@[k].deep_view() == start[k],
        decreases rows@.len() - i,
    {
        let ghost before = rows@[i as int].deep_view();
        rows[i].push(String::new());
        assert(rows@[i as int].deep_view() =~= before.push(Seq::<char>::empty()));
        i = i + 1;
    }
    assert(rows.deep_view() =~= Seq::new(start.len(), |i: int| start[i].push(Seq::<char>::empty())));
}

/// Drops the last cell of every row (the last system column).
pub fn remove_last_column(rows: &mut Vec<Vec<String>>)
    ensures
        final(rows).deep_view() == with_last_column_removed(old(rows).deep_view()),
{
    let ghost start = rows.deep_view();
    let mut i: usize = 0;
    while i < rows.len()
        invariant
            start == old(rows).deep_view(),
            rows@.len() == start.len(),
            i <= rows@.len(),
            forall|k: int| 0 <= k < i ==> #[trigger] rows@[k].deep_view() == (if start[k].len() > 0 {
                start[k].drop_last()
            } else {
                start[k]
            }),
            forall|k: int| i <= k < rows@.len() ==> #[trigger] rows@[k].deep_view() == start[k],
        decreases rows@.len() - i,
    {
        let ghost before = rows@[i as int].deep_view();
        rows[i].pop();
        assert(rows@[i as int].deep_view() =~= (if before.len() > 0 {
            before.drop_last()
        } else {
            before
        }));
        i = i + 1;
    }
    assert(rows.deep_view() =~= Seq::new(
        start.len(),
        |i: int| if start[i].len() > 0 {
            start[i].drop_last()
        } else {
            start[i]
        },
    ));
}

} // verus!
