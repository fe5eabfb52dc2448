use vstd::prelude::*;

use crate::text::{decimal, decimal_string, lowercase, owned, str_equal, to_lowercase};
use crate::utf16::{utf16_decode_lossy, utf16_to_string_lossy};

verus! {

// ---------------------------------------------------------------------
// Processes that memory trimming leaves alone
// ---------------------------------------------------------------------

/// The lower-case names of the processes whose working sets are never
/// trimmed: the system's own, the shell, this tool, the guards and the games.
pub open spec fn protected_names() -> Seq<Seq<char>> {
    seq![
        "system"@,
        "registry"@,
        "smss.exe"@,
        "csrss.exe"@,
        "wininit.exe"@,
        "winlogon.exe"@,
        "services.exe"@,
        "lsass.exe"@,
        "svchost.exe"@,
        "fontdrvhost.exe"@,
        "dwm.exe"@,
        "explorer.exe"@,
        "fuckace.exe"@,
        "sguard64.exe"@,
        "sguardsvc64.exe"@,
        "deltaforceclient-win64-shipping.exe"@,
        "valorant-win64-shipping.exe"@,
        "league of legends.exe"@,
        "abinfinite-win64-shipping.exe"@,
        "discovery.exe"@,
        "nzfuture-win64-shipping.exe"@,
        "crossfire.exe"@,
        "dnf.exe"@,
        "nrc-win64-shipping.exe"@,
        "client-win64-shipping.exe"@,
        "pathofexilesteam.exe"@,
        "thedivision2.exe"@,
        "endfield.exe"@,
        "calabiyau-win64-shipping.exe"@,
    ]
}

/// The lower-case names of the processes whose working sets are never
/// trimmed, in order.
pub fn protected_process_names() -> (v: Vec<&'static str>)
    ensures
        v@.map_values(|s: &str| s@) == protected_names(),
{
    let v: Vec<&'static str> = vec![
        "system",
        "registry",
        "smss.exe",
        "csrss.exe",
        "wininit.exe",
        "winlogon.exe",
        "services.exe",
        "lsass.exe",
        "svchost.exe",
        "fontdrvhost.exe",
        "dwm.exe",
        "explorer.exe",
        "fuckace.exe",
        "sguard64.exe",
        "sguardsvc64.exe",
        "deltaforceclient-win64-shipping.exe",
        "valorant-win64-shipping.exe",
        "league of legends.exe",
        "abinfinite-win64-shipping.exe",
        "discovery.exe",
        "nzfuture-win64-shipping.exe",
        "crossfire.exe",
        "dnf.exe",
        "nrc-win64-shipping.exe",
        "client-win64-shipping.exe",
        "pathofexilesteam.exe",
        "thedivision2.exe",
        "endfield.exe",
        "calabiyau-win64-shipping.exe",
    ];
    assert(v@.map_values(|s: &str| s@) =~= protected_names());
    v
}

/// Whether a lower-case process name is one of the protected names.
pub fn is_protected_lowercase_name(lower_name: &str) -> (r: bool)
    ensures
        r == protected_names().contains(lower_name@),
{
    let names = protected_process_names();
    let ghost all = names@.map_values(|s: &str| s@);
    let mut k: usize = 0;
    while k < names.len()
        invariant
            k <= names.len(),
            all == names@.map_values(|s: &str| s@),
            all == protected_names(),
            forall|j: int| 0 <= j < k ==> all[j] != lower_name@,
        decreases names.len() - k,
    {
        if str_equal(lower_name, names[k]) {
            assert(all[k as int] == lower_name@);
            return true;
        }
        k += 1;
    }
    assert(!all.contains(lower_name@));
    false
}

/// Whether a process is protected from working-set trimming: its name, in
/// lower case, is one of the protected names.
pub fn is_memory_clean_protected_process(process_name: &str) -> (r: bool)
    ensures
        r == protected_names().contains(lowercase(process_name@)),
{
    let lower = to_lowercase(process_name);
    is_protected_lowercase_name(lower.as_str())
}

/// A process entry is left alone: the idle process (0), the system
/// process (4), this process, or a protected name.
pub open spec fn entry_protected(pid: u32, current_pid: u32, name: Seq<char>) -> bool {
    pid == 0 || pid == 4 || pid == current_pid || protected_names().contains(lowercase(name))
}

/// Whether a process entry is left alone by working-set trimming.
pub fn is_protected_entry(pid: u32, current_pid: u32, process_name: &str) -> (r: bool)
    ensures
        r == entry_protected(pid, current_pid, process_name@),
{
    pid == 0 || pid == 4 || pid == current_pid || is_memory_clean_protected_process(process_name)
}

// ---------------------------------------------------------------------
// The name in a process entry
// ---------------------------------------------------------------------

/// The index of the first NUL unit at or after `from`, or the length.
pub open spec fn nul_index_from(units: Seq<u16>, from: int) -> int
    decreases units.len() - from,
{
    if from >= units.len() {
        units.len() as int
    } else if units[from] == 0 {
        from
    } else {
        nul_index_from(units, from + 1)
    }
}

/// The units of a NUL-terminated name: those before the first NUL, or all
/// of them when there is none.
pub open spec fn entry_name_units(units: Seq<u16>) -> Seq<u16> {
    units.take(nul_index_from(units, 0))
}

/// The name held in a process entry's UTF-16 buffer: the units before the
/// first NUL (all of them if there is none), decoded lossily.
pub fn process_entry_name(units: &[u16]) -> (r: String)
    ensures
        r@ == utf16_decode_lossy(entry_name_units(units@)),
{
    let mut end: usize = 0;
    while end < units.len() && units[end] != 0
        invariant
            end <= units.len(),
            nul_index_from(units@, 0) == nul_index_from(units@, end as int),
        decreases units.len() - end,
    {
        end += 1;
    }
    let mut name: Vec<u16> = Vec::new();
    let mut k: usize = 0;
    while k < end
        invariant
            k <= end <= units.len(),
            name@ == units@.take(k as int),
        decreases end - k,
    {
        name.push(units[k]);
        k += 1;
        assert(name@ == units@.take(k as int));
    }
    utf16_to_string_lossy(&name)
}

// ---------------------------------------------------------------------
// Counting a trimming pass
// ---------------------------------------------------------------------

/// The counts of one working-set trimming pass.
#[derive(Debug, Clone, Copy)]
pub struct WorkingSetCleanStats {
    pub processes_total: usize,
    pub protected_skipped: usize,
    pub processes_attempted: usize,
    pub processes_trimmed: usize,
}

impl WorkingSetCleanStats {
    /// Every process seen was either skipped or attempted, and only
    /// attempted ones can have been trimmed.
    pub open spec fn wf(&self) -> bool {
        &&& self.processes_total == self.protected_skipped + self.processes_attempted
        &&& self.processes_trimmed <= self.processes_attempted
    }

    /// The counts before any process was seen.
    pub fn new() -> (s: Self)
        ensures
            s.wf(),
            s.processes_total == 0,
            s.protected_skipped == 0,
            s.processes_attempted == 0,
            s.processes_trimmed == 0,
    {
        WorkingSetCleanStats {
            processes_total: 0,
            protected_skipped: 0,
            processes_attempted: 0,
            processes_trimmed: 0,
        }
    }

    /// Counts a process that was left alone.
    pub fn count_protected(&mut self)
        requires
            old(self).wf(),
            old(self).processes_total < usize::MAX,
        ensures
            final(self).wf(),
            final(self).processes_total == old(self).processes_total + 1,
            final(self).protected_skipped == old(self).protected_skipped + 1,
            final(self).processes_attempted == old(self).processes_attempted,
            final(self).processes_trimmed == old(self).processes_trimmed,
    {
        self.processes_total += 1;
        self.protected_skipped += 1;
    }

    /// Counts a process whose working set was to be trimmed, and whether
    /// that succeeded.
    pub fn count_attempt(&mut self, trimmed: bool)
        requires
            old(self).wf(),
            old(self).processes_total < usize::MAX,
        ensures
            final(self).wf(),
            final(self).processes_total == old(self).processes_total + 1,
            final(self).protected_skipped == old(self).protected_skipped,
            final(self).processes_attempted == old(self).processes_attempted + 1,
            final(self).processes_trimmed == old(self).processes_trimmed + (if trimmed {
                1int
            } else {
                0int
            }),
    {
        self.processes_total += 1;
        self.processes_attempted += 1;
        if trimmed {
            self.processes_trimmed += 1;
        }
    }
}

/// The lines that summarise a trimming pass.
pub open spec fn clean_summary(s: WorkingSetCleanStats) -> Seq<Seq<char>> {
    seq![
        "安全清理完成，已修剪 "@ + decimal(s.processes_trimmed as nat) + "/"@ + decimal(
            s.processes_attempted as nat,
        ) + " 个普通后台进程工作集"@,
        "已跳过 "@ + decimal(s.protected_skipped as nat) + " 个游戏/ACE/系统/自身保护进程"@,
        "已跳过系统缓存/Standby List清理，避免影响游戏资源缓存"@,
    ]
}

/// The lines that summarise a trimming pass: processes trimmed out of those
/// attempted, processes skipped, and that the system cache was left alone.
pub fn clean_summary_messages(stats: &WorkingSetCleanStats) -> (v: Vec<String>)
    ensures
        v@.map_values(|s: String| s@) == clean_summary(*stats),
        v.len() == 3,
        v@[0]@ == "安全清理完成，已修剪 "@ + decimal(stats.processes_trimmed as nat) + "/"@
            + decimal(stats.processes_attempted as nat) + " 个普通后台进程工作集"@,
        v@[1]@ == "已跳过 "@ + decimal(stats.protected_skipped as nat) + " 个游戏/ACE/系统/自身保护进程"@,
        v@[2]@ == "已跳过系统缓存/Standby List清理，避免影响游戏资源缓存"@,
{
    let mut first = owned("安全清理完成，已修剪 ");
    let t = decimal_string(stats.processes_trimmed as u64);
    first.append(t.as_str());
    first.append("/");
    let a = decimal_string(stats.processes_attempted as u64);
    first.append(a.as_str());
    first.append(" 个普通后台进程工作集");
    let mut second = owned("已跳过 ");
    let k = decimal_string(stats.protected_skipped as u64);
    second.append(k.as_str());
    second.append(" 个游戏/ACE/系统/自身保护进程");
    let third = owned("已跳过系统缓存/Standby List清理，避免影响游戏资源缓存");
    let mut v: Vec<String> = Vec::new();
    v.push(first);
    v.push(second);
    v.push(third);
    assert(v@.map_values(|s: String| s@) =~= clean_summary(*stats));
    v
}

/// The summary of a pass names, in its first line, the processes trimmed
/// before the slash and those attempted after it; in its second, those
/// skipped; its third says that the system cache was left alone.
pub proof fn lemma_clean_summary_lines(s: WorkingSetCleanStats)
    ensures
        clean_summary(s).len() == 3,
        clean_summary(s)[0] == "安全清理完成，已修剪 "@ + decimal(s.processes_trimmed as nat) + "/"@
            + decimal(s.processes_attempted as nat) + " 个普通后台进程工作集"@,
        clean_summary(s)[1] == "已跳过 "@ + decimal(s.protected_skipped as nat)
            + " 个游戏/ACE/系统/自身保护进程"@,
        clean_summary(s)[2] == "已跳过系统缓存/Standby List清理，避免影响游戏资源缓存"@,
{
}

/// The memory in use that a trimming pass gave back: the drop in use, or
/// zero when use did not drop.
pub fn memory_freed_bytes(used_before: u64, used_after: u64) -> (r: u64)
    ensures
        r == if used_before > used_after {
            used_before - used_after
        } else {
            0
        },
{
    if used_before > used_after {
        used_before - used_after
    } else {
        0
    }
}

} // verus!
