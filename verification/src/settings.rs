use vstd::prelude::*;
use vstd::string::*;
use crate::text::{decimal_text, append_decimal, trimmed, trim_str, lemma_deep_view_push};
use crate::rules::{
    build_default_without, build_default_except, rule_table, default_without_names,
    default_except_names, add_column, remove_last_column, with_column_added,
    with_last_column_removed,
};

verus! {

/// The number of systems shown before any has been configured.
pub const DEFAULT_SYSTEMS: usize = 3;

/// Per-system configuration row.
#[derive(PartialEq)]
pub struct SystemConfigData {
    pub name: String,
    pub source: String,
    pub destination: String,
    pub git: String,
    pub backup: String,
    pub assign: String,
}

/// All fields of `c` apart from the name are empty.
pub open spec fn blank_apart_from_name(c: SystemConfigData) -> bool {
    &&& c.source@.len() == 0
    &&& c.destination@.len() == 0
    &&& c.git@.len() == 0
    &&& c.backup@.len() == 0
    &&& c.assign@.len() == 0
}

impl Clone for SystemConfigData {
    fn clone(&self) -> (r: Self)
        ensures
            r == *self,
    {
        SystemConfigData {
            name: self.name.clone(),
            source: self.source.clone(),
            destination: self.destination.clone(),
            git: self.git.clone(),
            backup: self.backup.clone(),
            assign: self.assign.clone(),
        }
    }
}

impl Default for SystemConfigData {
    fn default() -> (r: Self)
        ensures
            r.name@.len() == 0,
            blank_apart_from_name(r),
    {
        SystemConfigData {
            name: String::new(),
            source: String::new(),
            destination: String::new(),
            git: String::new(),
            backup: String::new(),
            assign: String::new(),
        }
    }
}

/// The name a system gets by default: "System <index + 1>".
pub open spec fn default_system_name(index: nat) -> Seq<char> {
    "System "@ + decimal_text(index + 1)
}

impl SystemConfigData {
    /// An empty configuration named "System <index + 1>".
    pub fn with_default_name(index: usize) -> (r: Self)
        requires
            index < usize::MAX,
        ensures
            r.name@ == default_system_name(index as nat),
            blank_apart_from_name(r),
    {
        let mut name = "System ".to_owned();
        append_decimal(&mut name, index + 1);
        SystemConfigData {
            name,
            source: String::new(),
            destination: String::new(),
            git: String::new(),
            backup: String::new(),
            assign: String::new(),
        }
    }
}

/// Everything the parent receives when the user clicks Save.
#[derive(Clone)]
pub struct SettingsData {
    pub username: String,
    pub api_url: String,
    pub telegram_token: String,
    pub telegram_chat_id: String,
    pub notifications_enabled: bool,
    pub systems: Vec<SystemConfigData>,
    /// Rows × columns (one column per system).
    pub without_rows: Vec<Vec<String>>,
    pub except_rows: Vec<Vec<String>>,
    /// Which system tabs are currently shown.
    pub selected_systems: Vec<bool>,
}

impl Default for SettingsData {
    fn default() -> (r: Self)
        ensures
            r.username@.len() == 0,
            r.api_url@.len() == 0,
            r.telegram_token@.len() == 0,
            r.telegram_chat_id@.len() == 0,
            !r.notifications_enabled,
            r.systems@.len() == 0,
            r.without_rows@.len() == 0,
            r.except_rows@.len() == 0,
            r.selected_systems@.len() == 0,
    {
        SettingsData {
            username: String::new(),
            api_url: String::new(),
            telegram_token: String::new(),
            telegram_chat_id: String::new(),
            notifications_enabled: false,
            systems: Vec::new(),
            without_rows: Vec::new(),
            except_rows: Vec::new(),
            selected_systems: Vec::new(),
        }
    }
}

// ---------------------------------------------------------------------------
// Per-system UI metadata
// ---------------------------------------------------------------------------

/// What the toolbar and panels show of one system.
#[derive(Clone)]
pub struct SystemMeta {
    pub name: String,
    pub description: String,
    pub status: String,
    pub selected: bool,
}

/// The name shown for a system whose configured name is `cfg_name`.
pub open spec fn shown_name(cfg_name: Seq<char>) -> Seq<char> {
    if trimmed(cfg_name).len() == 0 {
        "System"@
    } else {
        cfg_name
    }
}

impl SystemMeta {
    /// The metadata of a system as it starts out: its name (or "System" when
    /// the name is blank), no description, status "Idle".
    pub fn from_config(cfg: &SystemConfigData, selected: bool) -> (m: Self)
        ensures
            m.name@ == shown_name(cfg.name@),
            m.description@.len() == 0,
            m.status@ == "Idle"@,
            m.selected == selected,
    {
        let name = if trim_str(cfg.name.as_str()).is_empty() {
            "System".to_owned()
        } else {
            cfg.name.clone()
        };
        SystemMeta { name, description: String::new(), status: "Idle".to_owned(), selected }
    }
}

/// The number of system slots shown for `n` configured systems.
pub open spec fn slot_count(n: nat) -> nat {
    if n >= DEFAULT_SYSTEMS {
        n
    } else {
        DEFAULT_SYSTEMS as nat
    }
}

/// The configured name of slot `i`: the system's name, or the default name
/// for a slot past the configured systems.
pub open spec fn slot_name(systems: Seq<SystemConfigData>, i: int) -> Seq<char> {
    if i < systems.len() {
        systems[i].name@
    } else {
        default_system_name(i as nat)
    }
}

/// Whether slot `i` starts selected: as saved, or selected when nothing was saved.
pub open spec fn slot_selected(selected: Seq<bool>, i: int) -> bool {
    if i < selected.len() {
        selected[i]
    } else {
        true
    }
}

/// The system metadata the main window starts with: one entry per
/// configured system, at least `DEFAULT_SYSTEMS`.
pub fn initial_system_metas(settings: &SettingsData) -> (metas: Vec<SystemMeta>)
    ensures
        metas@.len() == slot_count(settings.systems@.len()),
        forall|i: int|
            0 <= i < metas@.len() ==> {
                &&& (#[trigger] metas@[i]).name@ == shown_name(slot_name(settings.systems@, i))
                &&& metas@[i].description@.len() == 0
                &&& metas@[i].status@ == "Idle"@
                &&& metas@[i].selected == slot_selected(settings.selected_systems@, i)
            },
{
    let len = settings.systems.len();
    let n = if len >= DEFAULT_SYSTEMS {
        len
    } else {
        DEFAULT_SYSTEMS
    };
    let mut metas: Vec<SystemMeta> = Vec::new();
    let mut i: usize = 0;
    while i < n
        invariant
            len == settings.systems@.len(),
            n == slot_count(len as nat),
            i <= n,
            metas@.len() == i,
            forall|k: int|
                0 <= k < i ==> {
                    &&& (#[trigger] metas@[k]).name@ == shown_name(slot_name(settings.systems@, k))
                    &&& metas@[k].description@.len() == 0
                    &&& metas@[k].status@ == "Idle"@
                    &&& metas@[k].selected == slot_selected(settings.selected_systems@, k)
                },
        decreases n - i,
    {
        let cfg = if i < len {
            settings.systems[i].clone()
        } else {
            SystemConfigData::with_default_name(i)
        };
        let sel = if i < settings.selected_systems.len() {
            settings.selected_systems[i]
        } else {
            true
        };
        metas.push(SystemMeta::from_config(&cfg, sel));
        i = i + 1;
    }
    metas
}

/// What a system slot holds after "Save" in the settings dialog, given what
/// it held before (`old`, or a fresh selected "Idle" slot) and its new
/// configured name.
pub open spec fn synced_meta(old: Option<SystemMeta>, cfg_name: Seq<char>, m: SystemMeta) -> bool {
    let base_name = match old {
        Some(o) => o.name@,
        None => Seq::<char>::empty(),
    };
    let base_desc = match old {
        Some(o) => o.description@,
        None => Seq::<char>::empty(),
    };
    let base_status = match old {
        Some(o) => o.status@,
        None => "Idle"@,
    };
    let base_selected = match old {
        Some(o) => o.selected,
        None => true,
    };
    &&& m.name@ == (if trimmed(cfg_name).len() > 0 {
        cfg_name
    } else {
        base_name
    })
    &&& m.description@ == base_desc
    &&& m.status@ == (if base_status.len() == 0 {
        "Idle"@
    } else {
        base_status
    })
    &&& m.selected == (base_selected || base_status.len() == 0)
}

/// Brings the system metadata in line with a saved list of systems: one
/// slot per system, names taken from non-blank configured names, blank
/// statuses reset to "Idle" (and selected). Returns the selection flags.
pub fn sync_system_metas(metas: &mut Vec<SystemMeta>, systems: &[SystemConfigData]) -> (selection: Vec<bool>)
    ensures
        final(metas)@.len() == systems@.len(),
        forall|i: int|
            0 <= i < systems@.len() ==> synced_meta(
                if i < old(metas)@.len() {
                    Some(old(metas)@[i])
                } else {
                    None
                },
                systems@[i].name@,
                #[trigger] final(metas)@[i],
            ),
        selection@.len() == systems@.len(),
        forall|i: int| 0 <= i < systems@.len() ==> #[trigger] selection@[i] == final(metas)@[i].selected,
{
    let n = systems.len();
    metas.truncate(n);
    let ghost kept = metas@;
    while metas.len() < n
        invariant
            n == systems@.len(),
            metas@.len() <= n,
            kept.len() <= metas@.len(),
            kept.len() == if old(metas)@.len() < n { old(metas)@.len() } else { n as nat },
            forall|k: int| 0 <= k < kept.len() ==> #[trigger] metas@[k] == old(metas)@[k],
            forall|k: int|
                kept.len() <= k < metas@.len() ==> (#[trigger] metas@[k]).name@.len() == 0
                    && metas@[k].description@.len() == 0 && metas@[k].status@ == "Idle"@
                    && metas@[k].selected,
        decreases n - metas@.len(),
    {
        metas.push(
            SystemMeta {
                name: String::new(),
                description: String::new(),
                status: "Idle".to_owned(),
                selected: true,
            },
        );
    }
    let ghost filled = metas@;
    let mut selection: Vec<bool> = Vec::new();
    let mut i: usize = 0;
    while i < n
        invariant
            n == systems@.len(),
            metas@.len() == n,
            filled.len() == n,
            kept.len() == if old(metas)@.len() < n { old(metas)@.len() } else { n as nat },
            forall|k: int| 0 <= k < kept.len() ==> #[trigger] filled[k] == old(metas)@[k],
            forall|k: int|
                kept.len() <= k < n ==> (#[trigger] filled[k]).name@.len() == 0
                    && filled[k].description@.len() == 0 && filled[k].status@ == "Idle"@
                    && filled[k].selected,
            i <= n,
            selection@.len() == i,
            forall|k: int|
                0 <= k < i ==> synced_meta(
                    if k < old(metas)@.len() {
                        Some(old(metas)@[k])
                    } else {
                        None
                    },
                    systems@[k].name@,
                    #[trigger] metas@[k],
                ),
            forall|k: int| 0 <= k < i ==> #[trigger] selection@[k] == metas@[k].selected,
            forall|k: int| i <= k < n ==> #[trigger] metas@[k] == filled[k],
        decreases n - i,
    {
        let ghost base = metas@[i as int];
        assert(base == filled[i as int]);
        if !trim_str(systems[i].name.as_str()).is_empty() {
            metas[i].name = systems[i].name.clone();
        }
        if metas[i].status.as_str().is_empty() {
            metas[i].status = "Idle".to_owned();
            metas[i].selected = true;
        }
        selection.push(metas[i].selected);
        proof {
            let k = i as int;
            let o = if k < old(metas)@.len() { Some(old(metas)@[k]) } else { None };
            assert(metas@[k].description == base.description);
            assert(metas@[k].name@ == (if trimmed(systems@[k].name@).len() > 0 { systems@[k].name@ } else { base.name@ }));
            if k < old(metas)@.len() {
                assert(k < kept.len());
                assert(filled[k] == old(metas)@[k]);
            } else {
                assert(k >= kept.len());
                assert(base.name@ =~= Seq::<char>::empty());
                assert(base.description@ =~= Seq::<char>::empty());
            }
            assert(synced_meta(o, systems@[k].name@, metas@[k]));
        }
        i = i + 1;
    }
    selection
}

/// "Stop Watching": every system's status goes back to "Idle"; names,
/// descriptions and selections stay as they were.
pub fn reset_statuses(metas: &mut Vec<SystemMeta>)
    ensures
        final(metas)@.len() == old(metas)@.len(),
        forall|i: int|
            0 <= i < old(metas)@.len() ==> {
                &&& (#[trigger] final(metas)@[i]).status@ == "Idle"@
                &&& final(metas)@[i].name == old(metas)@[i].name
                &&& final(metas)@[i].description == old(metas)@[i].description
                &&& final(metas)@[i].selected == old(metas)@[i].selected
            },
{
    let n = metas.len();
    let mut i: usize = 0;
    while i < n
        invariant
            n == old(metas)@.len(),
            metas@.len() == n,
            i <= n,
            forall|k: int|
                0 <= k < n ==> {
                    &&& (#[trigger] metas@[k]).name == old(metas)@[k].name
                    &&& metas@[k].description == old(metas)@[k].description
                    &&& metas@[k].selected == old(metas)@[k].selected
                },
            forall|k: int| 0 <= k < i ==> (#[trigger] metas@[k]).status@ == "Idle"@,
        decreases n - i,
    {
        metas[i].status = "Idle".to_owned();
        i = i + 1;
    }
}

/// System `i` is watched: its slot is selected and its source folder is set.
pub open spec fn is_watched(systems: Seq<SystemConfigData>, metas: Seq<SystemMeta>, i: int) -> bool {
    &&& 0 <= i < systems.len()
    &&& i < metas.len()
    &&& metas[i].selected
    &&& systems[i].source@.len() > 0
}

/// Whether some selected system has a source folder set (watching can start).
pub fn any_watchable(systems: &[SystemConfigData], metas: &[SystemMeta]) -> (r: bool)
    ensures
        r == exists|i: int| #[trigger] is_watched(systems@, metas@, i),
{
    let mut i: usize = 0;
    while i < systems.len()
        invariant
            i <= systems@.len(),
            forall|k: int|
                0 <= k < i ==> !(k < metas@.len() && (#[trigger] metas@[k]).selected
                    && systems@[k].source@.len() > 0),
        decreases systems@.len() - i,
    {
        if i < metas.len() && metas[i].selected && !systems[i].source.as_str().is_empty() {
            assert(is_watched(systems@, metas@, i as int));
            return true;
        }
        i = i + 1;
    }
    proof {
        if exists|k: int| #[trigger] is_watched(systems@, metas@, k) {
            let k = choose|k: int| #[trigger] is_watched(systems@, metas@, k);
            assert(!(k < metas@.len() && metas@[k].selected && systems@[k].source@.len() > 0));
        }
    }
    false
}

/// For each configured system, the except rules to watch it with, or none
/// when the system is not watched (not selected, or no source folder).
pub fn watch_plan(settings: &SettingsData, metas: &[SystemMeta]) -> (plan: Vec<Option<Vec<String>>>)
    ensures
        plan@.len() == settings.systems@.len(),
        forall|i: int|
            0 <= i < plan@.len() ==> match #[trigger] plan@[i] {
                Some(rules) => is_watched(settings.systems@, metas@, i) && rules.deep_view()
                    == column_rules(settings.except_rows.deep_view(), i),
                None => !is_watched(settings.systems@, metas@, i),
            },
{
    let mut plan: Vec<Option<Vec<String>>> = Vec::new();
    let mut i: usize = 0;
    while i < settings.systems.len()
        invariant
            i <= settings.systems@.len(),
            plan@.len() == i,
            forall|k: int|
                0 <= k < i ==> match #[trigger] plan@[k] {
                    Some(rules) => is_watched(settings.systems@, metas@, k) && rules.deep_view()
                        == column_rules(settings.except_rows.deep_view(), k),
                    None => !is_watched(settings.systems@, metas@, k),
                },
        decreases settings.systems@.len() - i,
    {
        if i < metas.len() && metas[i].selected && !settings.systems[i].source.as_str().is_empty() {
            plan.push(Some(except_rules_for(settings, i)));
        } else {
            plan.push(None);
        }
        i = i + 1;
    }
    plan
}

/// The toolbar status label of a system.
pub fn status_label(meta: &SystemMeta) -> (label: String)
    ensures
        label@ == "\u{2022} "@ + meta.name@ + ": "@ + meta.status@,
{
    let mut s = "\u{2022} ".to_owned();
    s.append(meta.name.as_str());
    s.append(": ");
    s.append(meta.status.as_str());
    s
}

/// The title of a system's group in the settings dialog.
pub fn system_title(index: usize, cfg: &SystemConfigData) -> (title: String)
    requires
        index < usize::MAX,
    ensures
        title@ == if trimmed(cfg.name@).len() == 0 {
            default_system_name(index as nat)
        } else {
            cfg.name@
        },
{
    if trim_str(cfg.name.as_str()).is_empty() {
        let mut s = "System ".to_owned();
        append_decimal(&mut s, index + 1);
        s
    } else {
        cfg.name.clone()
    }
}

/// The column header of a system in the rule tables.
pub fn system_header(index: usize, cfg: &SystemConfigData) -> (header: String)
    requires
        index < usize::MAX,
    ensures
        header@ == if trimmed(cfg.name@).len() == 0 {
            "Sys"@ + decimal_text(index as nat + 1)
        } else {
            trimmed(cfg.name@)
        },
{
    let t = trim_str(cfg.name.as_str());
    if t.is_empty() {
        let mut s = "Sys".to_owned();
        append_decimal(&mut s, index + 1);
        s
    } else {
        t.to_owned()
    }
}

/// The systems the settings dialog opens with: the configured ones, or
/// `DEFAULT_SYSTEMS` blank systems with default names.
pub fn initial_system_list(systems: &Vec<SystemConfigData>) -> (list: Vec<SystemConfigData>)
    ensures
        systems@.len() > 0 ==> list@ == systems@,
        systems@.len() == 0 ==> list@.len() == DEFAULT_SYSTEMS && forall|i: int|
            0 <= i < DEFAULT_SYSTEMS ==> (#[trigger] list@[i]).name@ == default_system_name(i as nat)
                && blank_apart_from_name(list@[i]),
{
    if systems.len() == 0 {
        let mut list: Vec<SystemConfigData> = Vec::new();
        let mut i: usize = 0;
        while i < DEFAULT_SYSTEMS
            invariant
                i <= DEFAULT_SYSTEMS,
                list@.len() == i,
                forall|k: int|
                    0 <= k < i ==> (#[trigger] list@[k]).name@ == default_system_name(k as nat)
                        && blank_apart_from_name(list@[k]),
            decreases DEFAULT_SYSTEMS - i,
        {
            list.push(SystemConfigData::with_default_name(i));
            i = i + 1;
        }
        list
    } else {
        let mut list: Vec<SystemConfigData> = Vec::new();
        let mut i: usize = 0;
        while i < systems.len()
            invariant
                i <= systems@.len(),
                list@ == systems@.take(i as int),
            decreases systems@.len() - i,
        {
            list.push(systems[i].clone());
            i = i + 1;
            assert(list@ =~= systems@.take(i as int));
        }
        assert(systems@.take(systems@.len() as int) =~= systems@);
        list
    }
}

/// A copy of a rule table.
pub fn copy_table(rows: &Vec<Vec<String>>) -> (copy: Vec<Vec<String>>)
    ensures
        copy.deep_view() == rows.deep_view(),
{
    let mut copy: Vec<Vec<String>> = Vec::new();
    let mut i: usize = 0;
    while i < rows.len()
        invariant
            i <= rows@.len(),
            copy@.len() == i,
            copy.deep_view() == rows.deep_view().take(i as int),
        decreases rows@.len() - i,
    {
        let mut row: Vec<String> = Vec::new();
        let mut j: usize = 0;
        while j < rows[i].len()
            invariant
                i < rows@.len(),
                j <= rows@[i as int]@.len(),
                row@.len() == j,
                row.deep_view() == rows@[i as int].deep_view().take(j as int),
            decreases rows@[i as int]@.len() - j,
        {
            let ghost before = row;
            let s = rows[i][j].clone();
            row.push(s);
            proof { lemma_deep_view_push(before, row, s); }
            j = j + 1;
            assert(row.deep_view() =~= rows@[i as int].deep_view().take(j as int));
        }
        assert(rows@[i as int].deep_view().take(j as int) =~= rows@[i as int].deep_view());
        let ghost before = copy;
        copy.push(row);
        proof { lemma_deep_view_push(before, copy, row); }
        i = i + 1;
        assert(copy.deep_view() =~= rows.deep_view().take(i as int));
    }
    assert(rows.deep_view().take(rows@.len() as int) =~= rows.deep_view());
    copy
}

/// The "Without" table the settings dialog opens with: the saved rows, or
/// the built-in rules broadcast across the systems when none are saved.
pub fn initial_without_rows(rows: &Vec<Vec<String>>, system_count: usize) -> (table: Vec<Vec<String>>)
    ensures
        table.deep_view() == if rows@.len() == 0 {
            rule_table(default_without_names(), slot_count(system_count as nat))
        } else {
            rows.deep_view()
        },
{
    if rows.len() == 0 {
        let n = if system_count >= DEFAULT_SYSTEMS {
            system_count
        } else {
            DEFAULT_SYSTEMS
        };
        build_default_without(n)
    } else {
        copy_table(rows)
    }
}

/// The "Except" table the settings dialog opens with: the saved rows, or
/// the built-in rules broadcast across the systems when none are saved.
pub fn initial_except_rows(rows: &Vec<Vec<String>>, system_count: usize) -> (table: Vec<Vec<String>>)
    ensures
        table.deep_view() == if rows@.len() == 0 {
            rule_table(default_except_names(), slot_count(system_count as nat))
        } else {
            rows.deep_view()
        },
{
    if rows.len() == 0 {
        let n = if system_count >= DEFAULT_SYSTEMS {
            system_count
        } else {
            DEFAULT_SYSTEMS
        };
        build_default_except(n)
    } else {
        copy_table(rows)
    }
}

/// The except rules of system column `idx`: each row's cell in that column,
/// trimmed, blank cells left out, in row order.
pub open spec fn column_rules(rows: Seq<Seq<Seq<char>>>, idx: int) -> Seq<Seq<char>>
    decreases rows.len(),
{
    if rows.len() == 0 {
        Seq::empty()
    } else {
        let init = column_rules(rows.drop_last(), idx);
        let row = rows.last();
        if 0 <= idx < row.len() && trimmed(row[idx]).len() > 0 {
            init.push(trimmed(row[idx]))
        } else {
            init
        }
    }
}

/// Extract the except-rule strings for system column `idx`.
pub fn except_rules_for(settings: &SettingsData, idx: usize) -> (rules: Vec<String>)
    ensures
        rules.deep_view() == column_rules(settings.except_rows.deep_view(), idx as int),
{
    let ghost rows = settings.except_rows.deep_view();
    let mut rules: Vec<String> = Vec::new();
    let mut i: usize = 0;
    while i < settings.except_rows.len()
        invariant
            rows == settings.except_rows.deep_view(),
            i <= rows.len(),
            rules.deep_view() == column_rules(rows.take(i as int), idx as int),
        decreases rows.len() - i,
    {
        proof {
            assert(rows.take(i as int + 1).drop_last() =~= rows.take(i as int));
            assert(rows.take(i as int + 1).last() == rows[i as int]);
            assert(rows[i as int] == settings.except_rows@[i as int].deep_view());
        }
        if idx < settings.except_rows[i].len() {
            let t = trim_str(settings.except_rows[i][idx].as_str());
            if !t.is_empty() {
                let ghost before = rules;
                let s = t.to_owned();
                rules.push(s);
                proof { lemma_deep_view_push(before, rules, s); }
            }
        }
        i = i + 1;
    }
    assert(rows.take(rows.len() as int) =~= rows);
    rules
}

/// "Add System": appends a blank system named `name` (trimmed) and an empty
/// column to both rule tables. Nothing changes when the trimmed name is empty.
pub fn add_system(
    systems: &mut Vec<SystemConfigData>,
    without: &mut Vec<Vec<String>>,
    except: &mut Vec<Vec<String>>,
    name: &str,
) -> (added: bool)
    ensures
        added == (trimmed(name@).len() > 0),
        !added ==> final(systems)@ == old(systems)@ && final(without).deep_view() == old(
            without,
        ).deep_view() && final(except).deep_view() == old(except).deep_view(),
        added ==> final(systems)@.len() == old(systems)@.len() + 1,
        added ==> forall|i: int|
            0 <= i < old(systems)@.len() ==> #[trigger] final(systems)@[i] == old(systems)@[i],
        added ==> final(systems)@.last().name@ == trimmed(name@) && blank_apart_from_name(
            final(systems)@.last(),
        ),
        added ==> final(without).deep_view() == with_column_added(old(without).deep_view()),
        added ==> final(except).deep_view() == with_column_added(old(except).deep_view()),
{
    let t = trim_str(name);
    if t.is_empty() {
        return false;
    }
    let mut cfg = SystemConfigData::default();
    cfg.name = t.to_owned();
    systems.push(cfg);
    add_column(without);
    add_column(except);
    true
}

/// "Remove Last System": drops the last system and the last cell of every
/// rule row, as long as more than one system remains.
pub fn remove_last_system(
    systems: &mut Vec<SystemConfigData>,
    without: &mut Vec<Vec<String>>,
    except: &mut Vec<Vec<String>>,
) -> (removed: bool)
    ensures
        removed == (old(systems)@.len() > 1),
        !removed ==> final(systems)@ == old(systems)@ && final(without).deep_view() == old(
            without,
        ).deep_view() && final(except).deep_view() == old(except).deep_view(),
        removed ==> final(systems)@ == old(systems)@.drop_last(),
        removed ==> final(without).deep_view() == with_last_column_removed(old(without).deep_view()),
        removed ==> final(except).deep_view() == with_last_column_removed(old(except).deep_view()),
{
    if systems.len() <= 1 {
        return false;
    }
    systems.pop();
    remove_last_column(without);
    remove_last_column(except);
    true
}

/// "Remove Last System" right after "Add System" gives back the systems and
/// the rule table as they were.
pub proof fn law_remove_last_system_undoes_add(
    systems: Seq<SystemConfigData>,
    added: SystemConfigData,
    table: Seq<Seq<Seq<char>>>,
)
    ensures
        systems.push(added).drop_last() == systems,
        with_last_column_removed(with_column_added(table)) == table,
{
    assert(systems.push(added).drop_last() =~= systems);
    let t1 = with_column_added(table);
    assert forall|i: int| 0 <= i < table.len() implies #[trigger] with_last_column_removed(t1)[i]
        == table[i] by {
        assert(t1[i].len() > 0);
        assert(t1[i].drop_last() =~= table[i]);
    }
    assert(with_last_column_removed(t1) =~= table);
}

} // verus!
