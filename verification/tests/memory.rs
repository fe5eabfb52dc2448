use fuckace::memory::{
    clean_summary_messages, is_memory_clean_protected_process, is_protected_entry,
    is_protected_lowercase_name, memory_freed_bytes, process_entry_name,
    protected_process_names, WorkingSetCleanStats,
};

#[test]
fn protected_names_compare_in_lower_case() {
    assert!(is_memory_clean_protected_process("Explorer.EXE"));
    assert!(is_memory_clean_protected_process("System"));
    assert!(is_memory_clean_protected_process("League of Legends.exe"));
    assert!(!is_memory_clean_protected_process("notepad.exe"));
    assert!(!is_memory_clean_protected_process("explorer.exe.bak"));
    assert!(is_protected_lowercase_name("dwm.exe"));
    assert!(!is_protected_lowercase_name("DWM.exe"));
    assert_eq!(protected_process_names().len(), 29);
}

#[test]
fn protected_entries() {
    assert!(is_protected_entry(0, 100, "anything"));
    assert!(is_protected_entry(4, 100, "anything"));
    assert!(is_protected_entry(100, 100, "anything"));
    assert!(is_protected_entry(7, 100, "SGuard64.exe"));
    assert!(!is_protected_entry(7, 100, "chrome.exe"));
}

#[test]
fn entry_name_stops_at_nul() {
    assert_eq!(process_entry_name(&[0x41, 0x42, 0, 0x43]), "AB");
    assert_eq!(process_entry_name(&[0x41, 0x42]), "AB");
    assert_eq!(process_entry_name(&[0, 0x41]), "");
    assert_eq!(process_entry_name(&[]), "");
}

#[test]
fn stats_count_every_process_once() {
    let mut s = WorkingSetCleanStats::new();
    s.count_protected();
    s.count_attempt(true);
    s.count_attempt(false);
    s.count_attempt(true);
    assert_eq!(s.processes_total, 4);
    assert_eq!(s.protected_skipped, 1);
    assert_eq!(s.processes_attempted, 3);
    assert_eq!(s.processes_trimmed, 2);
    assert_eq!(s.processes_total, s.protected_skipped + s.processes_attempted);
}

#[test]
fn summary_messages() {
    let mut s = WorkingSetCleanStats::new();
    s.count_attempt(true);
    s.count_protected();
    s.count_protected();
    assert_eq!(
        clean_summary_messages(&s),
        vec![
            "安全清理完成，已修剪 1/1 个普通后台进程工作集".to_string(),
            "已跳过 2 个游戏/ACE/系统/自身保护进程".to_string(),
            "已跳过系统缓存/Standby List清理，避免影响游戏资源缓存".to_string(),
        ]
    );
}

#[test]
fn freed_memory_never_negative() {
    assert_eq!(memory_freed_bytes(1000, 400), 600);
    assert_eq!(memory_freed_bytes(400, 1000), 0);
    assert_eq!(memory_freed_bytes(5, 5), 0);
}
