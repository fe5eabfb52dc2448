use fuckace::registry::{
    ace_exe_names, exe_options_key_path, game_exe_name, join_lines, monitored_exe_names,
    perf_options_key_path, priority_check_line, priority_reset_line, priority_write_result,
    result_text, Game, PriorityRead, PriorityReset, PriorityWrite, IMAGE_FILE_EXECUTION_OPTIONS,
    LOWERED_PRIORITY, RAISED_PRIORITY,
};

#[test]
fn key_paths() {
    assert_eq!(
        perf_options_key_path("DNF.exe"),
        "SOFTWARE\\Microsoft\\Windows NT\\CurrentVersion\\Image File Execution Options\\DNF.exe\\PerfOptions"
    );
    assert_eq!(
        exe_options_key_path("DNF.exe"),
        format!("{}\\DNF.exe", IMAGE_FILE_EXECUTION_OPTIONS)
    );
}

#[test]
fn priority_write_answers() {
    assert_eq!(
        priority_write_result("SGuard64.exe", LOWERED_PRIORITY, LOWERED_PRIORITY, PriorityWrite::Written),
        Ok("SGuard64.exe:设置成功(CPU:1,I/O:1)".to_string())
    );
    assert_eq!(
        priority_write_result("DNF.exe", RAISED_PRIORITY, RAISED_PRIORITY, PriorityWrite::Written),
        Ok("DNF.exe:设置成功(CPU:3,I/O:3)".to_string())
    );
    assert_eq!(
        priority_write_result("a.exe", 3, 3, PriorityWrite::CreateKeyFailed("denied".to_string())),
        Err("a.exe:创建注册表项失败:denied".to_string())
    );
    assert_eq!(
        priority_write_result("a.exe", 3, 3, PriorityWrite::CpuValueFailed("e".to_string())),
        Err("a.exe:设置CPU优先级失败:e".to_string())
    );
    assert_eq!(
        priority_write_result("a.exe", 3, 3, PriorityWrite::IoValueFailed("e".to_string())),
        Err("a.exe:设置I/O优先级失败:e".to_string())
    );
}

#[test]
fn results_joined_as_lines() {
    let lines = vec![
        result_text(Ok("a:ok".to_string())),
        result_text(Err("b:bad".to_string())),
    ];
    assert_eq!(join_lines(&lines), "a:ok\nb:bad");
    assert_eq!(join_lines(&vec![]), "");
}

#[test]
fn check_lines() {
    assert_eq!(priority_check_line("DNF.exe", PriorityRead::NotConfigured), "DNF.exe:未配置");
    assert_eq!(
        priority_check_line("DNF.exe", PriorityRead::Configured { cpu: Some(3), io: None }),
        "DNF.exe:[CPU:3,I/O:未设置]"
    );
    assert_eq!(
        priority_check_line("x", PriorityRead::Configured { cpu: None, io: Some(1) }),
        "x:[CPU:未设置,I/O:1]"
    );
}

#[test]
fn reset_lines() {
    assert_eq!(priority_reset_line("x", PriorityReset::KeyMissing), "x:未找到配置项");
    assert_eq!(priority_reset_line("x", PriorityReset::Deleted), "x:已恢复默认");
    assert_eq!(
        priority_reset_line("x", PriorityReset::DeleteFailed("busy".to_string())),
        "x:删除失败:busy"
    );
}

#[test]
fn program_lists() {
    let monitored = monitored_exe_names();
    assert_eq!(monitored.len(), 16);
    assert_eq!(monitored[0], "DeltaForceClient-Win64-Shipping.exe");
    assert_eq!(monitored[15], "Calabiyau-Win64-Shipping.exe");
    assert_eq!(ace_exe_names(), vec!["SGuard64.exe", "SGuardSvc64.exe"]);
    let games = [
        Game::DeltaForce, Game::CrossFire, Game::Valorant, Game::LeagueOfLegends,
        Game::ArenaBreakoutInfinite, Game::TheFinals, Game::NzFuture, Game::Dnf, Game::RocoWorld,
        Game::WutheringWaves, Game::PathOfExile2, Game::Division2, Game::Endfield, Game::Calabiyau,
    ];
    for g in games {
        assert!(monitored.contains(&game_exe_name(g)));
    }
    assert_eq!(game_exe_name(Game::TheFinals), "discovery.exe");
    assert_eq!(game_exe_name(Game::RocoWorld), "NRC-Win64-Shipping.exe");
}
