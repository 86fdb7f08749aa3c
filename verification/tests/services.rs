use compare_observer::file_entry::FileEntry;
use compare_observer::panel::{
    assign_check, copy_readiness, progress_percent, AssignProblem, CopyReadiness, CopyTally,
};
use compare_observer::rules_api::{
    apply_remote_rules, build_result, resolve_rules, url_rules, RemoteRules, RulesResponse,
};
use compare_observer::telegram::{build_notification, telegram_send_url};
use compare_observer::watch::{apply_watch_event, reads_baseline_content, WatchEvent};

fn strings(v: &[&str]) -> Vec<String> {
    v.iter().map(|s| s.to_string()).collect()
}

#[test]
fn notification_text() {
    let text = build_notification("Shop", "ann", "", &strings(&["a.php", "b/c.php"]));
    assert_eq!(
        text,
        "🔔 File Update Notification\n📋 Description: Shop\n👤 User: ann\n📁 System: Shop\n📊 Files changed: 2\n  • a.php\n  • b/c.php"
    );
    let text = build_notification("Shop", "ann", "release", &[]);
    assert_eq!(
        text,
        "🔔 File Update Notification\n📋 Description: release\n👤 User: ann\n📁 System: Shop\n📊 Files changed: 0\n"
    );
}

#[test]
fn telegram_url_needs_token_and_chat() {
    assert_eq!(
        telegram_send_url("", "1"),
        Err("Telegram token or chat ID is empty".to_string())
    );
    assert_eq!(
        telegram_send_url("T", ""),
        Err("Telegram token or chat ID is empty".to_string())
    );
    assert_eq!(
        telegram_send_url("123:abc", "42"),
        Ok("https://api.telegram.org/bot123:abc/sendMessage".to_string())
    );
}

#[test]
fn build_result_drops_empty_lists() {
    let r = build_result(
        RulesResponse { without: Some(strings(&["a"])), except: Some(vec![]) },
        2,
        "src".to_string(),
    );
    assert_eq!(r.without, Some(vec![strings(&["a", "a"])]));
    assert_eq!(r.except, None);
    assert_eq!(r.source, "src");
}

#[test]
fn url_response_must_hold_rules() {
    let err = url_rules(RulesResponse { without: None, except: Some(vec![]) }, 1, "http://x");
    assert_eq!(err.err(), Some("empty response".to_string()));
    let ok = url_rules(RulesResponse { without: None, except: Some(strings(&["e"])) }, 1, "http://x")
        .ok()
        .unwrap();
    assert_eq!(ok.source, "URL: http://x");
    assert_eq!(ok.except, Some(vec![strings(&["e"])]));
    assert_eq!(ok.without, None);
}

#[test]
fn rules_fallback_chain() {
    let from_url = RemoteRules { without: None, except: None, source: "URL: u".to_string() };
    let r = resolve_rules(Some(from_url), None, 3);
    assert_eq!(r.source, "URL: u");

    let r = resolve_rules(
        None,
        Some(RulesResponse { without: Some(strings(&["w"])), except: None }),
        1,
    );
    assert_eq!(r.source, "embedded log_sys.json (project file)");
    assert_eq!(r.without, Some(vec![strings(&["w"])]));

    let r = resolve_rules(None, None, 2);
    assert_eq!(r.source, "built-in defaults");
    assert_eq!(r.without.unwrap().len(), 59);
    assert_eq!(r.except.unwrap()[0], strings(&["content", "content"]));
}

#[test]
fn remote_rules_replace_tables() {
    let mut w = vec![strings(&["old"])];
    let mut e = vec![strings(&["old"])];
    let msg = apply_remote_rules(
        RemoteRules { without: Some(vec![strings(&["n"])]), except: None, source: String::new() },
        &mut w,
        &mut e,
    );
    assert_eq!(msg, "Rules loaded from API.");
    assert_eq!(w, vec![strings(&["n"])]);
    assert_eq!(e, vec![strings(&["old"])]);
    let msg = apply_remote_rules(
        RemoteRules { without: None, except: None, source: String::new() },
        &mut w,
        &mut e,
    );
    assert_eq!(msg, "No valid rules in API response.");
}

#[test]
fn copy_checks_and_counts() {
    assert_eq!(copy_readiness(&[], "/d"), CopyReadiness::NoFiles);
    assert_eq!(copy_readiness(&strings(&["a"]), ""), CopyReadiness::NoDestination);
    assert_eq!(copy_readiness(&strings(&["a"]), "/d"), CopyReadiness::Ready);
    let mut t = CopyTally::new();
    t.record(false, false);
    t.record(true, false);
    t.record(true, true);
    t.record(true, true);
    assert_eq!((t.ok, t.fail), (2, 2));
    let mut t = CopyTally::new();
    t.record(true, false);
    assert_eq!((t.ok, t.fail), (0, 1));
}

#[test]
fn progress_percentages() {
    assert_eq!(progress_percent(5, 0), None);
    assert_eq!(progress_percent(1, 3), Some(33));
    assert_eq!(progress_percent(3, 3), Some(100));
    assert_eq!(progress_percent(9, 3), Some(100));
}

#[test]
fn watch_events_update_tables() {
    let mut tables: Vec<Vec<FileEntry>> = vec![Vec::new(), Vec::new()];
    let rules = vec![strings(&[".git"]), strings(&[])];
    let created = WatchEvent::Created { system_index: 0, path: "a/x.txt".to_string() };
    assert!(apply_watch_event(&mut tables, &rules, &created, None));
    assert_eq!(tables[0].len(), 1);
    assert_eq!(tables[0][0].status, "Created");
    let excluded = WatchEvent::Modified { system_index: 0, path: ".git/HEAD".to_string() };
    assert!(!apply_watch_event(&mut tables, &rules, &excluded, Some("b".to_string())));
    assert_eq!(tables[0].len(), 1);
    let modified = WatchEvent::Modified { system_index: 1, path: ".git/HEAD".to_string() };
    assert!(apply_watch_event(&mut tables, &rules, &modified, Some("base".to_string())));
    assert_eq!(tables[1][0].status, "Modified");
    assert_eq!(tables[1][0].content.as_deref(), Some("base"));
    let deleted = WatchEvent::Deleted { system_index: 0, path: "a/x.txt".to_string() };
    assert!(apply_watch_event(&mut tables, &rules, &deleted, None));
    assert!(tables[0].is_empty());
    let elsewhere = WatchEvent::Created { system_index: 7, path: "q".to_string() };
    assert!(apply_watch_event(&mut tables, &rules, &elsewhere, None));
    assert_eq!(tables.len(), 2);
}

#[test]
fn baseline_size_limit() {
    assert!(reads_baseline_content(0));
    assert!(reads_baseline_content(10 * 1024 * 1024));
    assert!(!reads_baseline_content(10 * 1024 * 1024 + 1));
}

#[test]
fn assign_needs_folder_name_and_path() {
    assert_eq!(assign_check("   ", "/assign"), Err(AssignProblem::NoFolderName));
    assert_eq!(assign_check(" rel ", ""), Err(AssignProblem::NoAssignPath));
    assert_eq!(assign_check(" release-v1 ", "/assign"), Ok("release-v1".to_string()));
}
