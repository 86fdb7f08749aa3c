use compare_observer::settings::{
    add_system, any_watchable, except_rules_for, initial_except_rows, initial_system_list,
    initial_system_metas, initial_without_rows, remove_last_system, reset_statuses, status_label,
    sync_system_metas, system_header, system_title, watch_plan, SettingsData, SystemConfigData,
    SystemMeta, DEFAULT_SYSTEMS,
};

fn strings(v: &[&str]) -> Vec<String> {
    v.iter().map(|s| s.to_string()).collect()
}

fn named(name: &str) -> SystemConfigData {
    let mut c = SystemConfigData::default();
    c.name = name.to_string();
    c
}

fn meta(name: &str, status: &str, selected: bool) -> SystemMeta {
    SystemMeta {
        name: name.to_string(),
        description: "d".to_string(),
        status: status.to_string(),
        selected,
    }
}

#[test]
fn default_names() {
    let c = SystemConfigData::with_default_name(0);
    assert_eq!(c.name, "System 1");
    assert!(c.source.is_empty() && c.destination.is_empty() && c.assign.is_empty());
    assert_eq!(SystemConfigData::with_default_name(9).name, "System 10");
    assert!(SystemConfigData::default() == SystemConfigData::default());
}

#[test]
fn meta_from_config() {
    let m = SystemMeta::from_config(&named("   "), false);
    assert_eq!(m.name, "System");
    assert_eq!(m.status, "Idle");
    assert!(!m.selected);
    assert!(m.description.is_empty());
    let m = SystemMeta::from_config(&named(" Shop "), true);
    assert_eq!(m.name, " Shop ");
}

#[test]
fn initial_metas_fill_default_slots() {
    let mut s = SettingsData::default();
    s.systems = vec![named("A")];
    s.selected_systems = vec![false];
    let metas = initial_system_metas(&s);
    assert_eq!(metas.len(), DEFAULT_SYSTEMS);
    assert_eq!(metas[0].name, "A");
    assert!(!metas[0].selected);
    assert_eq!(metas[1].name, "System 2");
    assert_eq!(metas[2].name, "System 3");
    assert!(metas[2].selected);
    assert!(metas.iter().all(|m| m.status == "Idle"));
}

#[test]
fn sync_metas_after_save() {
    let mut metas = vec![meta("A", "Watching", false), meta("B", "", false)];
    let systems = vec![named("New A"), named("  "), named("C")];
    let sel = sync_system_metas(&mut metas, &systems);
    assert_eq!(metas.len(), 3);
    assert_eq!(metas[0].name, "New A");
    assert_eq!(metas[0].status, "Watching");
    assert!(!metas[0].selected);
    assert_eq!(metas[1].name, "B");
    assert_eq!(metas[1].status, "Idle");
    assert!(metas[1].selected);
    assert_eq!(metas[2].name, "C");
    assert_eq!(metas[2].status, "Idle");
    assert_eq!(sel, vec![false, true, true]);

    let sel = sync_system_metas(&mut metas, &systems[..1]);
    assert_eq!(metas.len(), 1);
    assert_eq!(sel, vec![false]);
}

#[test]
fn watchable_needs_selected_system_with_source() {
    let mut a = named("A");
    let b = named("B");
    let metas = vec![meta("A", "Idle", false), meta("B", "Idle", true)];
    assert!(!any_watchable(&[a.clone(), b.clone()], &metas));
    a.source = "/src".to_string();
    assert!(!any_watchable(&[a.clone(), b.clone()], &metas));
    let mut b2 = b.clone();
    b2.source = "/b".to_string();
    assert!(any_watchable(&[a, b2], &metas));
    assert!(!any_watchable(&[], &metas));
}

#[test]
fn labels_and_titles() {
    assert_eq!(status_label(&meta("Shop", "Watching", true)), "\u{2022} Shop: Watching");
    assert_eq!(system_title(1, &named(" ")), "System 2");
    assert_eq!(system_title(1, &named(" X ")), " X ");
    assert_eq!(system_header(0, &named("")), "Sys1");
    assert_eq!(system_header(0, &named(" X ")), "X");
}

#[test]
fn dialog_starts_with_defaults() {
    let list = initial_system_list(&vec![]);
    assert_eq!(list.len(), 3);
    assert_eq!(list[2].name, "System 3");
    let list = initial_system_list(&vec![named("Only")]);
    assert_eq!(list.len(), 1);
    assert_eq!(list[0].name, "Only");

    let w = initial_without_rows(&vec![], 5);
    assert_eq!(w.len(), 59);
    assert_eq!(w[0].len(), 5);
    let e = initial_except_rows(&vec![], 1);
    assert_eq!(e[0].len(), 3);
    let saved = vec![strings(&["x", "y"])];
    assert_eq!(initial_except_rows(&saved, 2), saved);
    assert_eq!(initial_without_rows(&saved, 2), saved);
}

#[test]
fn except_rules_of_a_column() {
    let mut s = SettingsData::default();
    s.except_rows = vec![
        strings(&[" .git ", "a"]),
        strings(&["", "b"]),
        strings(&["content"]),
        strings(&["   ", "c"]),
    ];
    assert_eq!(except_rules_for(&s, 0), strings(&[".git", "content"]));
    assert_eq!(except_rules_for(&s, 1), strings(&["a", "b", "c"]));
    assert!(except_rules_for(&s, 5).is_empty());
}

#[test]
fn add_and_remove_systems() {
    let mut systems = vec![named("A")];
    let mut w = vec![strings(&["r"])];
    let mut e = vec![strings(&["s"]), strings(&["t"])];
    assert!(!add_system(&mut systems, &mut w, &mut e, "   "));
    assert_eq!(systems.len(), 1);
    assert!(add_system(&mut systems, &mut w, &mut e, "  B "));
    assert_eq!(systems.len(), 2);
    assert_eq!(systems[1].name, "B");
    assert_eq!(w, vec![strings(&["r", ""])]);
    assert_eq!(e, vec![strings(&["s", ""]), strings(&["t", ""])]);
    assert!(remove_last_system(&mut systems, &mut w, &mut e));
    assert_eq!(systems.len(), 1);
    assert_eq!(w, vec![strings(&["r"])]);
    assert!(!remove_last_system(&mut systems, &mut w, &mut e));
    assert_eq!(systems.len(), 1);
    assert_eq!(w, vec![strings(&["r"])]);
}

#[test]
fn watch_plan_lists_rules_of_watched_systems() {
    let mut s = SettingsData::default();
    let mut a = named("A");
    a.source = "/a".to_string();
    let b = named("B");
    let mut c = named("C");
    c.source = "/c".to_string();
    s.systems = vec![a, b, c];
    s.except_rows = vec![strings(&[".git", "x", " tmp "])];
    let metas = vec![meta("A", "Idle", true), meta("B", "Idle", true), meta("C", "Idle", true)];
    let plan = watch_plan(&s, &metas);
    assert_eq!(plan, vec![Some(strings(&[".git"])), None, Some(strings(&["tmp"]))]);
    let metas = vec![meta("A", "Idle", false)];
    assert_eq!(watch_plan(&s, &metas), vec![None, None, None]);
}

#[test]
fn stop_watching_resets_every_status() {
    let mut metas = vec![meta("A", "Watching", true), meta("B", "Error", false), meta("C", "", true)];
    reset_statuses(&mut metas);
    assert_eq!(metas.len(), 3);
    for m in metas.iter() {
        assert_eq!(m.status, "Idle");
        assert_eq!(m.description, "d");
    }
    assert_eq!(metas[0].name, "A");
    assert!(metas[0].selected);
    assert_eq!(metas[1].name, "B");
    assert!(!metas[1].selected);
    assert_eq!(metas[2].name, "C");
}
