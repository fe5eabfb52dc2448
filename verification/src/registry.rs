use vstd::prelude::*;

use crate::text::{decimal, decimal_string, join, join_strings, owned, views};

verus! {

/// The registry key under which Windows keeps per-program start options.
pub const IMAGE_FILE_EXECUTION_OPTIONS: &'static str =
    "SOFTWARE\\Microsoft\\Windows NT\\CurrentVersion\\Image File Execution Options";

/// The priority class and I/O priority that lower a program.
pub const LOWERED_PRIORITY: u32 = 1;

/// The priority class and I/O priority that raise a program.
pub const RAISED_PRIORITY: u32 = 3;

/// The key of a program's start options.
pub open spec fn exe_key_path_of(exe_name: Seq<char>) -> Seq<char> {
    IMAGE_FILE_EXECUTION_OPTIONS@ + "\\"@ + exe_name
}

/// The key of a program's performance options.
pub open spec fn perf_key_path_of(exe_name: Seq<char>) -> Seq<char> {
    exe_key_path_of(exe_name) + "\\PerfOptions"@
}

/// The key of a program's start options.
pub fn exe_options_key_path(exe_name: &str) -> (r: String)
    ensures
        r@ == exe_key_path_of(exe_name@),
{
    let mut r = owned(IMAGE_FILE_EXECUTION_OPTIONS);
    r.append("\\");
    r.append(exe_name);
    r
}

/// The key of a program's performance options, where its CPU and I/O
/// priorities are preset.
pub fn perf_options_key_path(exe_name: &str) -> (r: String)
    ensures
        r@ == perf_key_path_of(exe_name@),
{
    let mut r = exe_options_key_path(exe_name);
    r.append("\\PerfOptions");
    r
}

/// How writing a program's preset priorities ended; the texts are the
/// operating system's error messages.
#[derive(Debug)]
pub enum PriorityWrite {
    CreateKeyFailed(String),
    CpuValueFailed(String),
    IoValueFailed(String),
    Written,
}

/// The answer to a priority preset: success with the values written, or
/// the step that failed with its error.
pub open spec fn priority_write_answer(exe: Seq<char>, cpu: u32, io: u32, w: PriorityWrite) -> Result<
    Seq<char>,
    Seq<char>,
> {
    match w {
        PriorityWrite::Written => Ok(
            exe + ":设置成功(CPU:"@ + decimal(cpu as nat) + ",I/O:"@ + decimal(io as nat) + ")"@,
        ),
        PriorityWrite::CreateKeyFailed(e) => Err(exe + ":创建注册表项失败:"@ + e@),
        PriorityWrite::CpuValueFailed(e) => Err(exe + ":设置CPU优先级失败:"@ + e@),
        PriorityWrite::IoValueFailed(e) => Err(exe + ":设置I/O优先级失败:"@ + e@),
    }
}

/// The text view of a result of strings.
pub open spec fn result_view(r: Result<String, String>) -> Result<Seq<char>, Seq<char>> {
    match r {
        Ok(s) => Ok(s@),
        Err(e) => Err(e@),
    }
}

/// The answer to presetting a program's CPU and I/O priorities, from how
/// the registry writes went.
pub fn priority_write_result(exe_name: &str, cpu: u32, io: u32, outcome: PriorityWrite) -> (r:
    Result<String, String>)
    ensures
        result_view(r) == priority_write_answer(exe_name@, cpu, io, outcome),
{
    let mut m = owned(exe_name);
    match outcome {
        PriorityWrite::Written => {
            m.append(":设置成功(CPU:");
            let c = decimal_string(cpu as u64);
            m.append(c.as_str());
            m.append(",I/O:");
            let i = decimal_string(io as u64);
            m.append(i.as_str());
            m.append(")");
            Ok(m)
        },
        PriorityWrite::CreateKeyFailed(e) => {
            m.append(":创建注册表项失败:");
            m.append(e.as_str());
            Err(m)
        },
        PriorityWrite::CpuValueFailed(e) => {
            m.append(":设置CPU优先级失败:");
            m.append(e.as_str());
            Err(m)
        },
        PriorityWrite::IoValueFailed(e) => {
            m.append(":设置I/O优先级失败:");
            m.append(e.as_str());
            Err(m)
        },
    }
}

/// The text of a result, success or error alike.
pub fn result_text(r: Result<String, String>) -> (t: String)
    ensures
        t@ == match result_view(r) {
            Ok(s) => s,
            Err(e) => e,
        },
{
    match r {
        Ok(s) => s,
        Err(e) => e,
    }
}

/// Lines joined by line breaks.
pub fn join_lines(lines: &Vec<String>) -> (r: String)
    ensures
        r@ == join(views(lines@), "\n"@),
{
    join_strings(lines, "\n")
}

/// What the registry holds of a program's preset priorities.
#[derive(Debug)]
pub enum PriorityRead {
    /// The program has no performance options.
    NotConfigured,
    /// The program has performance options; each value may be missing.
    Configured { cpu: Option<u32>, io: Option<u32> },
}

/// The line that shows a program's preset priorities.
pub open spec fn priority_check_text(exe: Seq<char>, r: PriorityRead) -> Seq<char> {
    match r {
        PriorityRead::NotConfigured => exe + ":未配置"@,
        PriorityRead::Configured { cpu, io } => exe + ":["@ + (match cpu {
            Some(v) => "CPU:"@ + decimal(v as nat),
            None => "CPU:未设置"@,
        }) + ","@ + (match io {
            Some(v) => "I/O:"@ + decimal(v as nat),
            None => "I/O:未设置"@,
        }) + "]"@,
    }
}

/// The line that shows a program's preset priorities.
pub fn priority_check_line(exe_name: &str, read: PriorityRead) -> (r: String)
    ensures
        r@ == priority_check_text(exe_name@, read),
{
    let mut m = owned(exe_name);
    match read {
        PriorityRead::NotConfigured => {
            m.append(":未配置");
        },
        PriorityRead::Configured { cpu, io } => {
            m.append(":[");
            match cpu {
                Some(v) => {
                    m.append("CPU:");
                    let d = decimal_string(v as u64);
                    m.append(d.as_str());
                },
                None => m.append("CPU:未设置"),
            }
            m.append(",");
            match io {
                Some(v) => {
                    m.append("I/O:");
                    let d = decimal_string(v as u64);
                    m.append(d.as_str());
                },
                None => m.append("I/O:未设置"),
            }
            m.append("]");
        },
    }
    m
}

/// How removing a program's preset priorities went.
#[derive(Debug)]
pub enum PriorityReset {
    /// The program's key could not be opened for writing.
    KeyMissing,
    /// The performance options were removed.
    Deleted,
    /// Removing them failed with this error.
    DeleteFailed(String),
}

/// The line that reports removing a program's preset priorities.
pub open spec fn priority_reset_text(exe: Seq<char>, r: PriorityReset) -> Seq<char> {
    match r {
        PriorityReset::KeyMissing => exe + ":未找到配置项"@,
        PriorityReset::Deleted => exe + ":已恢复默认"@,
        PriorityReset::DeleteFailed(e) => exe + ":删除失败:"@ + e@,
    }
}

/// The line that reports removing a program's preset priorities.
pub fn priority_reset_line(exe_name: &str, reset: PriorityReset) -> (r: String)
    ensures
        r@ == priority_reset_text(exe_name@, reset),
{
    let mut m = owned(exe_name);
    match reset {
        PriorityReset::KeyMissing => m.append(":未找到配置项"),
        PriorityReset::Deleted => m.append(":已恢复默认"),
        PriorityReset::DeleteFailed(e) => {
            m.append(":删除失败:");
            m.append(e.as_str());
        },
    }
    m
}

/// The programs whose preset priorities are shown and reset.
pub open spec fn monitored_names() -> Seq<Seq<char>> {
    seq![
        "DeltaForceClient-Win64-Shipping.exe"@,
        "SGuard64.exe"@,
        "SGuardSvc64.exe"@,
        "VALORANT-Win64-Shipping.exe"@,
        "League of Legends.exe"@,
        "ABInfinite-Win64-Shipping.exe"@,
        "discovery.exe"@,
        "NZFuture-Win64-Shipping.exe"@,
        "crossfire.exe"@,
        "DNF.exe"@,
        "NRC-Win64-Shipping.exe"@,
        "Client-Win64-Shipping.exe"@,
        "PathOfExileSteam.exe"@,
        "TheDivision2.exe"@,
        "Endfield.exe"@,
        "Calabiyau-Win64-Shipping.exe"@,
    ]
}

/// The programs whose preset priorities are shown and reset, in order.
pub fn monitored_exe_names() -> (v: Vec<&'static str>)
    ensures
        v@.map_values(|s: &str| s@) == monitored_names(),
{
    let v: Vec<&'static str> = vec![
        "DeltaForceClient-Win64-Shipping.exe",
        "SGuard64.exe",
        "SGuardSvc64.exe",
        "VALORANT-Win64-Shipping.exe",
        "League of Legends.exe",
        "ABInfinite-Win64-Shipping.exe",
        "discovery.exe",
        "NZFuture-Win64-Shipping.exe",
        "crossfire.exe",
        "DNF.exe",
        "NRC-Win64-Shipping.exe",
        "Client-Win64-Shipping.exe",
        "PathOfExileSteam.exe",
        "TheDivision2.exe",
        "Endfield.exe",
        "Calabiyau-Win64-Shipping.exe",
    ];
    assert(v@.map_values(|s: &str| s@) =~= monitored_names());
    v
}

/// The anti-cheat programs whose priorities are lowered.
pub fn ace_exe_names() -> (v: Vec<&'static str>)
    ensures
        v@.map_values(|s: &str| s@) == seq!["SGuard64.exe"@, "SGuardSvc64.exe"@],
{
    let v: Vec<&'static str> = vec!["SGuard64.exe", "SGuardSvc64.exe"];
    assert(v@.map_values(|s: &str| s@) =~= seq!["SGuard64.exe"@, "SGuardSvc64.exe"@]);
    v
}

/// Both anti-cheat programs whose priorities are lowered are among the
/// monitored programs, so checking and resetting cover what lowering
/// writes; and no monitored program is listed twice.
pub proof fn lemma_ace_programs_monitored()
    ensures
        monitored_names().contains("SGuard64.exe"@),
        monitored_names().contains("SGuardSvc64.exe"@),
        forall|i: int, j: int|
            0 <= i < j < monitored_names().len() ==> #[trigger] monitored_names()[i]
                != #[trigger] monitored_names()[j],
{
    reveal_strlit("DeltaForceClient-Win64-Shipping.exe");
    reveal_strlit("SGuard64.exe");
    reveal_strlit("SGuardSvc64.exe");
    reveal_strlit("VALORANT-Win64-Shipping.exe");
    reveal_strlit("League of Legends.exe");
    reveal_strlit("ABInfinite-Win64-Shipping.exe");
    reveal_strlit("discovery.exe");
    reveal_strlit("NZFuture-Win64-Shipping.exe");
    reveal_strlit("crossfire.exe");
    reveal_strlit("DNF.exe");
    reveal_strlit("NRC-Win64-Shipping.exe");
    reveal_strlit("Client-Win64-Shipping.exe");
    reveal_strlit("PathOfExileSteam.exe");
    reveal_strlit("TheDivision2.exe");
    reveal_strlit("Endfield.exe");
    reveal_strlit("Calabiyau-Win64-Shipping.exe");
    let m = monitored_names();
    assert(m[1] == "SGuard64.exe"@);
    assert(m[2] == "SGuardSvc64.exe"@);
    assert forall|i: int, j: int| 0 <= i < j < m.len() implies #[trigger] m[i] != #[trigger] m[j] by {
        if m[i].len() == m[j].len() {
            assert(m[i][0] != m[j][0] || m[i][1] != m[j][1] || m[i][2] != m[j][2]);
        }
    }
}

/// The games whose priorities can be raised.
#[derive(Clone, Copy, PartialEq, Eq, Structural, Debug)]
pub enum Game {
    DeltaForce,
    CrossFire,
    Valorant,
    LeagueOfLegends,
    ArenaBreakoutInfinite,
    TheFinals,
    NzFuture,
    Dnf,
    RocoWorld,
    WutheringWaves,
    PathOfExile2,
    Division2,
    Endfield,
    Calabiyau,
}

/// The program of a game.
pub open spec fn game_exe(g: Game) -> Seq<char> {
    match g {
        Game::DeltaForce => "DeltaForceClient-Win64-Shipping.exe"@,
        Game::CrossFire => "crossfire.exe"@,
        Game::Valorant => "VALORANT-Win64-Shipping.exe"@,
        Game::LeagueOfLegends => "League of Legends.exe"@,
        Game::ArenaBreakoutInfinite => "ABInfinite-Win64-Shipping.exe"@,
        Game::TheFinals => "discovery.exe"@,
        Game::NzFuture => "NZFuture-Win64-Shipping.exe"@,
        Game::Dnf => "DNF.exe"@,
        Game::RocoWorld => "NRC-Win64-Shipping.exe"@,
        Game::WutheringWaves => "Client-Win64-Shipping.exe"@,
        Game::PathOfExile2 => "PathOfExileSteam.exe"@,
        Game::Division2 => "TheDivision2.exe"@,
        Game::Endfield => "Endfield.exe"@,
        Game::Calabiyau => "Calabiyau-Win64-Shipping.exe"@,
    }
}

/// The program of a game.
pub fn game_exe_name(game: Game) -> (r: &'static str)
    ensures
        r@ == game_exe(game),
{
    match game {
        Game::DeltaForce => "DeltaForceClient-Win64-Shipping.exe",
        Game::CrossFire => "crossfire.exe",
        Game::Valorant => "VALORANT-Win64-Shipping.exe",
        Game::LeagueOfLegends => "League of Legends.exe",
        Game::ArenaBreakoutInfinite => "ABInfinite-Win64-Shipping.exe",
        Game::TheFinals => "discovery.exe",
        Game::NzFuture => "NZFuture-Win64-Shipping.exe",
        Game::Dnf => "DNF.exe",
        Game::RocoWorld => "NRC-Win64-Shipping.exe",
        Game::WutheringWaves => "Client-Win64-Shipping.exe",
        Game::PathOfExile2 => "PathOfExileSteam.exe",
        Game::Division2 => "TheDivision2.exe",
        Game::Endfield => "Endfield.exe",
        Game::Calabiyau => "Calabiyau-Win64-Shipping.exe",
    }
}

/// Every raisable game is among the monitored programs, so the check and
/// the reset cover what raising writes.
pub proof fn lemma_games_are_monitored(game: Game)
    ensures
        monitored_names().contains(game_exe(game)),
{
    let m = monitored_names();
    match game {
        Game::DeltaForce => assert(m[0] == game_exe(game)),
        Game::CrossFire => assert(m[8] == game_exe(game)),
        Game::Valorant => assert(m[3] == game_exe(game)),
        Game::LeagueOfLegends => assert(m[4] == game_exe(game)),
        Game::ArenaBreakoutInfinite => assert(m[5] == game_exe(game)),
        Game::TheFinals => assert(m[6] == game_exe(game)),
        Game::NzFuture => assert(m[7] == game_exe(game)),
        Game::Dnf => assert(m[9] == game_exe(game)),
        Game::RocoWorld => assert(m[10] == game_exe(game)),
        Game::WutheringWaves => assert(m[11] == game_exe(game)),
        Game::PathOfExile2 => assert(m[12] == game_exe(game)),
        Game::Division2 => assert(m[13] == game_exe(game)),
        Game::Endfield => assert(m[14] == game_exe(game)),
        Game::Calabiyau => assert(m[15] == game_exe(game)),
    }
}

} // verus!
