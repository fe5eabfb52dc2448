use fuckace::restrict::{
    affinity_needs_fallback, fallback_affinity_result, guard_targets, guard_targets_of_lowercase,
    is_performance_target, setting_report, single_process_report, Guard, ProcessSetting,
    RestrictOptions, RestrictResult, SettingOutcome,
};

fn all_on() -> RestrictOptions {
    RestrictOptions {
        cpu_affinity: true,
        process_priority: true,
        efficiency_mode: true,
        io_priority: true,
        memory_priority: true,
    }
}

#[test]
fn setting_reports_for_each_outcome() {
    assert_eq!(
        setting_report(ProcessSetting::Affinity, SettingOutcome::OpenFailed("E1".to_string())),
        (false, Some("打开进程失败: E1".to_string()))
    );
    assert_eq!(
        setting_report(ProcessSetting::IoPriority, SettingOutcome::InvalidHandle),
        (false, Some("进程句柄无效".to_string()))
    );
    assert_eq!(
        setting_report(ProcessSetting::Affinity, SettingOutcome::CallFailed("E2".to_string())),
        (false, Some("设置亲和性失败: E2".to_string()))
    );
    assert_eq!(
        setting_report(ProcessSetting::EfficiencyMode, SettingOutcome::CallFailed("E".to_string())),
        (false, Some("设置效率模式失败: E".to_string()))
    );
    assert_eq!(
        setting_report(ProcessSetting::IoPriority, SettingOutcome::CallFailed("E".to_string())),
        (false, Some("设置I/O优先级失败: E".to_string()))
    );
    assert_eq!(
        setting_report(ProcessSetting::MemoryPriority, SettingOutcome::CallFailed("E".to_string())),
        (false, Some("设置内存优先级失败: E".to_string()))
    );
    assert_eq!(setting_report(ProcessSetting::MemoryPriority, SettingOutcome::Applied), (true, None));
}

#[test]
fn fallback_only_after_failed_efficiency_core_binding() {
    assert!(affinity_needs_fallback(false, true));
    assert!(!affinity_needs_fallback(true, true));
    assert!(!affinity_needs_fallback(false, false));
    assert_eq!(fallback_affinity_result(true, None, 8), (true, None, 8));
    assert_eq!(
        fallback_affinity_result(false, Some("x".to_string()), 8),
        (false, Some("x".to_string()), 8)
    );
}

#[test]
fn single_process_report_all_applied() {
    let (restricted, details) = single_process_report((true, None, 0b1010), true, true, true, true);
    assert!(restricted);
    assert_eq!(
        details,
        vec!["CPU亲和性→核心1,3", "优先级→最低", "效率模式✓", "I/O优先级✓", "内存优先级✓"]
    );
}

#[test]
fn single_process_report_nothing_applied() {
    let (restricted, details) =
        single_process_report((false, Some("打开进程失败: Denied".to_string()), 0), false, false, false, false);
    assert!(!restricted);
    assert_eq!(details, vec!["CPU亲和性✗(打开进程失败: Denied)", "优先级✗"]);
    let (restricted, details) = single_process_report((false, None, 0), false, false, true, false);
    assert!(restricted);
    assert_eq!(details, vec!["CPU亲和性✗", "优先级✗", "I/O优先级✓"]);
}

#[test]
fn restrict_message_for_found_and_missing_guards() {
    let mut r = RestrictResult::begin(all_on(), vec![7], false);
    r.record_process(
        Guard::SGuard64,
        1234,
        true,
        &vec!["CPU亲和性→核心7".to_string(), "优先级→最低".to_string()],
    );
    r.finish();
    assert!(r.sguard64_found && r.sguard64_restricted);
    assert!(!r.sguardsvc64_found && !r.sguardsvc64_restricted);
    assert_eq!(r.target_cores, vec![7]);
    assert_eq!(
        r.message,
        "限制模式: CPU亲和性+进程优先级+效率模式+I/O优先级+内存优先级\n\
         绑定到最后一个逻辑核心 7\n\
         SGuard64.exe (PID: 1234) [CPU亲和性→核心7, 优先级→最低]\n\
         未找到SGuardSvc64.exe进程\n"
    );
}

#[test]
fn restrict_message_with_custom_cores_and_failures() {
    let options = RestrictOptions {
        cpu_affinity: false,
        process_priority: false,
        efficiency_mode: false,
        io_priority: false,
        memory_priority: false,
    };
    let mut r = RestrictResult::begin(options, vec![2, 4], true);
    r.record_process(Guard::SGuardSvc64, 99, false, &vec!["CPU亲和性✗".to_string(), "优先级✗".to_string()]);
    r.finish();
    assert!(!r.sguard64_found);
    assert!(r.sguardsvc64_found && !r.sguardsvc64_restricted);
    assert_eq!(
        r.message,
        "限制模式: 标准模式\n\
         绑定到自定义核心 2,4\n\
         SGuardSvc64.exe (PID: 99) 所有限制均失败 [CPU亲和性✗, 优先级✗]\n\
         未找到SGuard64.exe进程\n"
    );
}

#[test]
fn restricted_guard_is_always_found() {
    let mut r = RestrictResult::begin(all_on(), vec![0], false);
    r.record_process(Guard::SGuard64, 1, false, &vec![]);
    r.record_process(Guard::SGuard64, 2, true, &vec![]);
    r.record_process(Guard::SGuard64, 3, false, &vec![]);
    r.finish();
    assert!(r.sguard64_restricted && r.sguard64_found);
    assert!(!r.sguardsvc64_restricted && !r.sguardsvc64_found);
}

#[test]
fn guard_targets_match_lower_case_names() {
    assert_eq!(guard_targets("SGuard64.exe"), (true, false));
    assert_eq!(guard_targets("SGUARDSVC64.EXE"), (false, true));
    assert_eq!(guard_targets("explorer.exe"), (false, false));
    assert_eq!(guard_targets_of_lowercase("x-sguard64.exe-y"), (true, false));
    assert!(is_performance_target("SGuardSvc64.exe"));
    assert!(!is_performance_target("SGuard.exe"));
}

#[test]
fn custom_binding_with_no_cores_names_none() {
    let mut r = RestrictResult::begin(all_on(), vec![], true);
    r.finish();
    assert_eq!(
        r.message,
        "限制模式: CPU亲和性+进程优先级+效率模式+I/O优先级+内存优先级\n\
         绑定到自定义核心 \n\
         未找到SGuard64.exe进程\n\
         未找到SGuardSvc64.exe进程\n"
    );
}
