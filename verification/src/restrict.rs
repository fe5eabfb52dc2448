use vstd::prelude::*;

use crate::affinity::{core_list_text, core_mask_text, format_core_mask};
use crate::text::{
    decimal, decimal_string, join, join_strings, lemma_join_chars, lemma_join_has_part, lowercase,
    matches_at, occurs_in, owned, str_contains, to_lowercase, views,
};

verus! {

// ---------------------------------------------------------------------
// One setting of one process
// ---------------------------------------------------------------------

/// A setting that the tool changes on a process through its handle.
#[derive(Clone, Copy, PartialEq, Eq, Structural, Debug)]
pub enum ProcessSetting {
    Affinity,
    EfficiencyMode,
    IoPriority,
    MemoryPriority,
}

/// How an attempt to change a setting ended. The texts are the debug forms
/// of the operating system's errors.
#[derive(Debug)]
pub enum SettingOutcome {
    /// The process could not be opened.
    OpenFailed(String),
    /// The process was opened, but the handle is invalid.
    InvalidHandle,
    /// The call that changes the setting failed.
    CallFailed(String),
    /// The setting was changed.
    Applied,
}

/// The words that begin the report of a failed call for a setting.
pub open spec fn call_failure_prefix(setting: ProcessSetting) -> Seq<char> {
    match setting {
        ProcessSetting::Affinity => "设置亲和性失败: "@,
        ProcessSetting::EfficiencyMode => "设置效率模式失败: "@,
        ProcessSetting::IoPriority => "设置I/O优先级失败: "@,
        ProcessSetting::MemoryPriority => "设置内存优先级失败: "@,
    }
}

/// Whether the setting was changed, and the error to report when it was not.
pub open spec fn setting_report_of(setting: ProcessSetting, outcome: SettingOutcome) -> (
    bool,
    Option<Seq<char>>,
) {
    match outcome {
        SettingOutcome::OpenFailed(e) => (false, Some("打开进程失败: "@ + e@)),
        SettingOutcome::InvalidHandle => (false, Some("进程句柄无效"@)),
        SettingOutcome::CallFailed(e) => (false, Some(call_failure_prefix(setting) + e@)),
        SettingOutcome::Applied => (true, None),
    }
}

/// The text view of an optional string.
pub open spec fn opt_view(o: Option<String>) -> Option<Seq<char>> {
    match o {
        Some(s) => Some(s@),
        None => None,
    }
}

/// Whether the setting was changed, and if not, why: the process could not
/// be opened, its handle was invalid, or the call failed.
pub fn setting_report(setting: ProcessSetting, outcome: SettingOutcome) -> (r: (
    bool,
    Option<String>,
))
    ensures
        (r.0, opt_view(r.1)) == setting_report_of(setting, outcome),
{
    match outcome {
        SettingOutcome::OpenFailed(e) => {
            let mut m = owned("打开进程失败: ");
            m.append(e.as_str());
            (false, Some(m))
        },
        SettingOutcome::InvalidHandle => (false, Some(owned("进程句柄无效"))),
        SettingOutcome::CallFailed(e) => {
            let mut m = match setting {
                ProcessSetting::Affinity => owned("设置亲和性失败: "),
                ProcessSetting::EfficiencyMode => owned("设置效率模式失败: "),
                ProcessSetting::IoPriority => owned("设置I/O优先级失败: "),
                ProcessSetting::MemoryPriority => owned("设置内存优先级失败: "),
            };
            m.append(e.as_str());
            (false, Some(m))
        },
        SettingOutcome::Applied => (true, None),
    }
}

// ---------------------------------------------------------------------
// Falling back from efficiency cores
// ---------------------------------------------------------------------

/// A failed binding to efficiency cores is tried again on the last core;
/// any other outcome stands.
pub fn affinity_needs_fallback(success: bool, is_e_core: bool) -> (r: bool)
    ensures
        r == (!success && is_e_core),
{
    !success && is_e_core
}

/// The affinity outcome once the primary binding was given up: the fallback
/// mask, with no error when the fallback binding succeeded and its error
/// otherwise.
pub fn fallback_affinity_result(success: bool, error: Option<String>, fallback_mask: u64) -> (r: (
    bool,
    Option<String>,
    u64,
))
    ensures
        r.0 == success,
        r.2 == fallback_mask,
        success ==> r.1 is None,
        !success ==> opt_view(r.1) == opt_view(error),
{
    if success {
        (true, None, fallback_mask)
    } else {
        (false, error, fallback_mask)
    }
}

// ---------------------------------------------------------------------
// The report of one process
// ---------------------------------------------------------------------

/// The first detail: the cores bound to, the binding error, or a bare
/// failure mark.
pub open spec fn affinity_detail(ok: bool, err: Option<Seq<char>>, mask: u64) -> Seq<char> {
    if ok {
        "CPU亲和性→核心"@ + core_mask_text(mask)
    } else {
        match err {
            Some(e) => "CPU亲和性✗("@ + e + ")"@,
            None => "CPU亲和性✗"@,
        }
    }
}

/// The details reported for one restricted process, in order: affinity,
/// priority, then a mark for each of efficiency mode, I/O priority and
/// memory priority that was applied.
pub open spec fn process_details(
    affinity_ok: bool,
    affinity_err: Option<Seq<char>>,
    mask: u64,
    priority_ok: bool,
    efficiency_ok: bool,
    io_priority_ok: bool,
    memory_priority_ok: bool,
) -> Seq<Seq<char>> {
    seq![
        affinity_detail(affinity_ok, affinity_err, mask),
        if priority_ok {
            "优先级→最低"@
        } else {
            "优先级✗"@
        },
    ] + (if efficiency_ok {
        seq!["效率模式✓"@]
    } else {
        Seq::empty()
    }) + (if io_priority_ok {
        seq!["I/O优先级✓"@]
    } else {
        Seq::empty()
    }) + (if memory_priority_ok {
        seq!["内存优先级✓"@]
    } else {
        Seq::empty()
    })
}

/// The details of a process hold the efficiency-mode mark exactly when
/// efficiency mode took hold, the I/O-priority mark exactly when the I/O
/// priority did, and the memory-priority mark exactly when the memory
/// priority did; the affinity and priority details never pass for a mark.
pub proof fn lemma_process_details_marks(
    affinity_ok: bool,
    affinity_err: Option<Seq<char>>,
    mask: u64,
    priority_ok: bool,
    efficiency_ok: bool,
    io_priority_ok: bool,
    memory_priority_ok: bool,
)
    ensures
        process_details(
            affinity_ok,
            affinity_err,
            mask,
            priority_ok,
            efficiency_ok,
            io_priority_ok,
            memory_priority_ok,
        ).contains("效率模式✓"@) == efficiency_ok,
        process_details(
            affinity_ok,
            affinity_err,
            mask,
            priority_ok,
            efficiency_ok,
            io_priority_ok,
            memory_priority_ok,
        ).contains("I/O优先级✓"@) == io_priority_ok,
        process_details(
            affinity_ok,
            affinity_err,
            mask,
            priority_ok,
            efficiency_ok,
            io_priority_ok,
            memory_priority_ok,
        ).contains("内存优先级✓"@) == memory_priority_ok,
{
    reveal_strlit("CPU亲和性→核心");
    reveal_strlit("CPU亲和性✗(");
    reveal_strlit("CPU亲和性✗");
    reveal_strlit("优先级→最低");
    reveal_strlit("优先级✗");
    reveal_strlit("效率模式✓");
    reveal_strlit("I/O优先级✓");
    reveal_strlit("内存优先级✓");
    let d = process_details(
        affinity_ok,
        affinity_err,
        mask,
        priority_ok,
        efficiency_ok,
        io_priority_ok,
        memory_priority_ok,
    );
    let a = affinity_detail(affinity_ok, affinity_err, mask);
    assert(a[0] == 'C');
    assert(d[0] == a);
    assert(d[1][0] == '优');
    let marks = seq!["效率模式✓"@, "I/O优先级✓"@, "内存优先级✓"@];
    let flags = seq![efficiency_ok, io_priority_ok, memory_priority_ok];
    assert forall|m: int| 0 <= m < 3 implies d.contains(#[trigger] marks[m]) == flags[m] by {
        let mk = marks[m];
        if flags[m] {
            let e: Seq<Seq<char>> = if efficiency_ok { seq!["效率模式✓"@] } else { Seq::empty() };
            let i: Seq<Seq<char>> = if io_priority_ok { seq!["I/O优先级✓"@] } else { Seq::empty() };
            let k: int = if m == 0 { 2int } else if m == 1 { 2 + e.len() as int } else { 2 + e.len() as int + i.len() as int };
            assert(d[k] == mk);
        } else {
            if d.contains(mk) {
                let k = choose|k: int| 0 <= k < d.len() && d[k] == mk;
                assert(d[k][0] == mk[0]);
            }
        }
    }
    assert(marks[0] == "效率模式✓"@);
    assert(marks[1] == "I/O优先级✓"@);
    assert(marks[2] == "内存优先级✓"@);
}

/// Whether a process counts as restricted (any one setting applied), and
/// the details to report of it. `affinity` is the outcome of the binding:
/// success, error, and the mask bound to.
pub fn single_process_report(
    affinity: (bool, Option<String>, u64),
    priority_ok: bool,
    efficiency_ok: bool,
    io_priority_ok: bool,
    memory_priority_ok: bool,
) -> (r: (bool, Vec<String>))
    ensures
        r.0 == (affinity.0 || priority_ok || efficiency_ok || io_priority_ok
            || memory_priority_ok),
        views(r.1@) == process_details(
            affinity.0,
            opt_view(affinity.1),
            affinity.2,
            priority_ok,
            efficiency_ok,
            io_priority_ok,
            memory_priority_ok,
        ),
        views(r.1@).contains("效率模式✓"@) == efficiency_ok,
        views(r.1@).contains("I/O优先级✓"@) == io_priority_ok,
        views(r.1@).contains("内存优先级✓"@) == memory_priority_ok,
{
    proof {
        lemma_process_details_marks(
            affinity.0,
            opt_view(affinity.1),
            affinity.2,
            priority_ok,
            efficiency_ok,
            io_priority_ok,
            memory_priority_ok,
        );
    }
    let (affinity_ok, affinity_err, actual_mask) = affinity;
    let mut details: Vec<String> = Vec::new();
    if affinity_ok {
        let mut d = owned("CPU亲和性→核心");
        let cores = format_core_mask(actual_mask);
        d.append(cores.as_str());
        details.push(d);
    } else {
        match &affinity_err {
            Some(err) => {
                let mut d = owned("CPU亲和性✗(");
                d.append(err.as_str());
                d.append(")");
                details.push(d);
            },
            None => details.push(owned("CPU亲和性✗")),
        }
    }
    if priority_ok {
        details.push(owned("优先级→最低"));
    } else {
        details.push(owned("优先级✗"));
    }
    let ghost base = views(details@);
    if efficiency_ok {
        details.push(owned("效率模式✓"));
    }
    let ghost with_eff = views(details@);
    if io_priority_ok {
        details.push(owned("I/O优先级✓"));
    }
    let ghost with_io = views(details@);
    if memory_priority_ok {
        details.push(owned("内存优先级✓"));
    }
    let restricted = affinity_ok || priority_ok || efficiency_ok || io_priority_ok
        || memory_priority_ok;
    proof {
        let p = process_details(
            affinity_ok,
            opt_view(affinity_err),
            actual_mask,
            priority_ok,
            efficiency_ok,
            io_priority_ok,
            memory_priority_ok,
        );
        assert(views(details@) =~= p);
    }
    (restricted, details)
}


// ---------------------------------------------------------------------
// Restricting the guard processes
// ---------------------------------------------------------------------

/// Which restrictions are switched on.
#[derive(Clone, Copy, Debug)]
pub struct RestrictOptions {
    pub cpu_affinity: bool,
    pub process_priority: bool,
    pub efficiency_mode: bool,
    pub io_priority: bool,
    pub memory_priority: bool,
}

/// The names of the restrictions switched on, in a fixed order.
pub open spec fn mode_names(o: RestrictOptions) -> Seq<Seq<char>> {
    (if o.cpu_affinity {
        seq!["CPU亲和性"@]
    } else {
        Seq::empty()
    }) + (if o.process_priority {
        seq!["进程优先级"@]
    } else {
        Seq::empty()
    }) + (if o.efficiency_mode {
        seq!["效率模式"@]
    } else {
        Seq::empty()
    }) + (if o.io_priority {
        seq!["I/O优先级"@]
    } else {
        Seq::empty()
    }) + (if o.memory_priority {
        seq!["内存优先级"@]
    } else {
        Seq::empty()
    })
}

/// The name of the mode: the restrictions switched on joined by `+`, or the
/// standard mode when none is.
pub open spec fn mode_text(o: RestrictOptions) -> Seq<char> {
    if mode_names(o).len() == 0 {
        "标准模式"@
    } else {
        join(mode_names(o), "+"@)
    }
}

/// The names of the five restrictions, in order.
pub open spec fn restriction_names() -> Seq<Seq<char>> {
    seq!["CPU亲和性"@, "进程优先级"@, "效率模式"@, "I/O优先级"@, "内存优先级"@]
}

/// The five options, in the order of [`restriction_names`].
pub open spec fn option_flags(o: RestrictOptions) -> Seq<bool> {
    seq![o.cpu_affinity, o.process_priority, o.efficiency_mode, o.io_priority, o.memory_priority]
}

/// The mode names each restriction exactly when its own option is on:
/// `CPU亲和性` occurs in the mode text iff CPU affinity is on, `进程优先级`
/// iff process priority is, `效率模式` iff efficiency mode is, `I/O优先级`
/// iff I/O priority is, and `内存优先级` iff memory priority is.
pub proof fn lemma_mode_text_names_options(o: RestrictOptions)
    ensures
        occurs_in(mode_text(o), "CPU亲和性"@) == o.cpu_affinity,
        occurs_in(mode_text(o), "进程优先级"@) == o.process_priority,
        occurs_in(mode_text(o), "效率模式"@) == o.efficiency_mode,
        occurs_in(mode_text(o), "I/O优先级"@) == o.io_priority,
        occurs_in(mode_text(o), "内存优先级"@) == o.memory_priority,
{
    reveal_strlit("CPU亲和性");
    reveal_strlit("进程优先级");
    reveal_strlit("效率模式");
    reveal_strlit("I/O优先级");
    reveal_strlit("内存优先级");
    reveal_strlit("标准模式");
    reveal_strlit("+");
    let names = mode_names(o);
    let all = restriction_names();
    let flags = option_flags(o);
    let t = mode_text(o);
    // every listed name is the name of an option that is on
    assert forall|i: int| 0 <= i < names.len() implies exists|m: int|
        0 <= m < 5 && flags[m] && #[trigger] names[i] == all[m] by {
        let s0: Seq<Seq<char>> = if o.cpu_affinity { seq![all[0]] } else { Seq::empty() };
        let s1: Seq<Seq<char>> = if o.process_priority { seq![all[1]] } else { Seq::empty() };
        let s2: Seq<Seq<char>> = if o.efficiency_mode { seq![all[2]] } else { Seq::empty() };
        let s3: Seq<Seq<char>> = if o.io_priority { seq![all[3]] } else { Seq::empty() };
        let s4: Seq<Seq<char>> = if o.memory_priority { seq![all[4]] } else { Seq::empty() };
        assert(names == s0 + s1 + s2 + s3 + s4);
        if i < s0.len() {
            assert(names[i] == all[0] && flags[0]);
        } else if i < s0.len() + s1.len() {
            assert(names[i] == all[1] && flags[1]);
        } else if i < s0.len() + s1.len() + s2.len() {
            assert(names[i] == all[2] && flags[2]);
        } else if i < s0.len() + s1.len() + s2.len() + s3.len() {
            assert(names[i] == all[3] && flags[3]);
        } else {
            assert(names[i] == all[4] && flags[4]);
        }
    }
    assert forall|m: int| 0 <= m < 5 implies occurs_in(t, #[trigger] all[m]) == flags[m] by {
        let p = all[m];
        let s0: Seq<Seq<char>> = if o.cpu_affinity { seq![all[0]] } else { Seq::empty() };
        let s1: Seq<Seq<char>> = if o.process_priority { seq![all[1]] } else { Seq::empty() };
        let s2: Seq<Seq<char>> = if o.efficiency_mode { seq![all[2]] } else { Seq::empty() };
        let s3: Seq<Seq<char>> = if o.io_priority { seq![all[3]] } else { Seq::empty() };
        let s4: Seq<Seq<char>> = if o.memory_priority { seq![all[4]] } else { Seq::empty() };
        assert(names == s0 + s1 + s2 + s3 + s4);
        if flags[m] {
            let i: int = if m == 0 {
                0int
            } else if m == 1 {
                s0.len() as int
            } else if m == 2 {
                (s0.len() + s1.len()) as int
            } else if m == 3 {
                (s0.len() + s1.len() + s2.len()) as int
            } else {
                (s0.len() + s1.len() + s2.len() + s3.len()) as int
            };
            assert(names[i] == p);
            lemma_join_has_part(names, "+"@, i);
        } else if occurs_in(t, p) {
            let k = choose|k: int| matches_at(t, p, k);
            assert(t.subrange(k, k + p.len())[0] == t[k]);
            assert(t[k] == p[0]);
            assert(t.contains(p[0]));
            if names.len() == 0 {
                assert(t == "标准模式"@);
            } else {
                lemma_join_chars(names, "+"@, p[0]);
                let i = choose|i: int| 0 <= i < names.len() && #[trigger] names[i].contains(p[0]);
                let m2 = choose|m2: int| 0 <= m2 < 5 && flags[m2] && names[i] == all[m2];
                assert(m2 != m);
                assert(all[m2].contains(p[0]));
            }
        }
    }
    assert(all[0] == "CPU亲和性"@ && flags[0] == o.cpu_affinity);
    assert(all[1] == "进程优先级"@ && flags[1] == o.process_priority);
    assert(all[2] == "效率模式"@ && flags[2] == o.efficiency_mode);
    assert(all[3] == "I/O优先级"@ && flags[3] == o.io_priority);
    assert(all[4] == "内存优先级"@ && flags[4] == o.memory_priority);
}

/// The first lines of the message: the mode, then the cores bound to (the
/// requested ones, or the last logical processor).
pub open spec fn restrict_header(o: RestrictOptions, target_cores: Seq<u32>, is_custom: bool) -> Seq<
    char,
> {
    "限制模式: "@ + mode_text(o) + "\n"@ + if is_custom {
        "绑定到自定义核心 "@ + core_list_text(target_cores) + "\n"@
    } else {
        "绑定到最后一个逻辑核心 "@ + decimal(target_cores[0] as nat) + "\n"@
    }
}

/// The two guard processes.
#[derive(Clone, Copy, PartialEq, Eq, Structural, Debug)]
pub enum Guard {
    SGuard64,
    SGuardSvc64,
}

/// The name under which a guard is reported.
pub open spec fn guard_label(g: Guard) -> Seq<char> {
    match g {
        Guard::SGuard64 => "SGuard64.exe"@,
        Guard::SGuardSvc64 => "SGuardSvc64.exe"@,
    }
}

/// The line reported for one restricted process.
pub open spec fn process_line(g: Guard, pid: u32, restricted: bool, details: Seq<Seq<char>>) -> Seq<
    char,
> {
    guard_label(g) + " (PID: "@ + decimal(pid as nat) + ")"@ + (if restricted {
        " ["@
    } else {
        " 所有限制均失败 ["@
    }) + join(details, ", "@) + "]\n"@
}

/// The outcome of restricting the guard processes, and the message shown.
#[derive(Debug)]
pub struct RestrictResult {
    pub target_cores: Vec<u32>,
    pub sguard64_found: bool,
    pub sguard64_restricted: bool,
    pub sguardsvc64_found: bool,
    pub sguardsvc64_restricted: bool,
    pub message: String,
}

impl RestrictResult {
    /// A guard counts as restricted only once it was found.
    pub open spec fn wf(&self) -> bool {
        &&& self.sguard64_restricted ==> self.sguard64_found
        &&& self.sguardsvc64_restricted ==> self.sguardsvc64_found
    }

    /// The result before any process was looked at: nothing found, and the
    /// message holding the mode and the cores. Without requested cores the
    /// first target core is named, so there must be one.
    pub fn begin(options: RestrictOptions, target_cores: Vec<u32>, is_custom: bool) -> (r: Self)
        requires
            is_custom || target_cores.len() > 0,
        ensures
            r.wf(),
            r.target_cores@ == target_cores@,
            !r.sguard64_found && !r.sguard64_restricted,
            !r.sguardsvc64_found && !r.sguardsvc64_restricted,
            r.message@ == restrict_header(options, target_cores@, is_custom),
    {
        let mut names: Vec<String> = Vec::new();
        let ghost n0 = views(names@);
        if options.cpu_affinity {
            names.push(owned("CPU亲和性"));
        }
        let ghost n1 = views(names@);
        if options.process_priority {
            names.push(owned("进程优先级"));
        }
        let ghost n2 = views(names@);
        if options.efficiency_mode {
            names.push(owned("效率模式"));
        }
        let ghost n3 = views(names@);
        if options.io_priority {
            names.push(owned("I/O优先级"));
        }
        let ghost n4 = views(names@);
        if options.memory_priority {
            names.push(owned("内存优先级"));
        }
        assert(views(names@) =~= mode_names(options));
        let mode_str = if names.len() == 0 {
            owned("标准模式")
        } else {
            join_strings(&names, "+")
        };
        let mut message = owned("限制模式: ");
        message.append(mode_str.as_str());
        message.append("\n");
        if is_custom {
            let mut numerals: Vec<String> = Vec::new();
            let mut k: usize = 0;
            while k < target_cores.len()
                invariant
                    k <= target_cores.len(),
                    views(numerals@) == crate::affinity::core_numerals(
                        target_cores@.take(k as int),
                    ),
                decreases target_cores.len() - k,
            {
                let d = decimal_string(target_cores[k] as u64);
                let ghost before = numerals@;
                numerals.push(d);
                assert(views(before).len() == crate::affinity::core_numerals(
                    target_cores@.take(k as int),
                ).len());
                assert(numerals@ == before.push(d));
                assert(target_cores@.take(k + 1) == target_cores@.take(k as int).push(
                    target_cores@[k as int],
                ));
                let ghost nums = crate::affinity::core_numerals(target_cores@.take(k + 1));
                assert(nums.len() == views(numerals@).len());
                assert forall|j: int| 0 <= j < nums.len() implies views(numerals@)[j] == nums[j] by {
                    if j < nums.len() - 1 {
                        assert(nums[j] == crate::affinity::core_numerals(
                            target_cores@.take(k as int),
                        )[j]);
                    }
                }
                assert(views(numerals@) =~= nums);
                k += 1;
            }
            assert(target_cores@.take(target_cores.len() as int) == target_cores@);
            proof {
                reveal_strlit(",");
            }
            assert(","@ =~= seq![',']);
            let list = join_strings(&numerals, ",");
            message.append("绑定到自定义核心 ");
            message.append(list.as_str());
            message.append("\n");
        } else {
            let d = decimal_string(target_cores[0] as u64);
            message.append("绑定到最后一个逻辑核心 ");
            message.append(d.as_str());
            message.append("\n");
        }
        RestrictResult {
            target_cores,
            sguard64_found: false,
            sguard64_restricted: false,
            sguardsvc64_found: false,
            sguardsvc64_restricted: false,
            message,
        }
    }

    /// Records one guard process: marks the guard found (and restricted when
    /// any restriction took hold) and adds its line to the message.
    pub fn record_process(
        &mut self,
        guard: Guard,
        pid: u32,
        restricted: bool,
        details: &Vec<String>,
    )
        requires
            old(self).wf(),
        ensures
            final(self).wf(),
            final(self).target_cores@ == old(self).target_cores@,
            final(self).message@ == old(self).message@ + process_line(
                guard,
                pid,
                restricted,
                views(details@),
            ),
            guard == Guard::SGuard64 ==> {
                &&& final(self).sguard64_found
                &&& final(self).sguard64_restricted == (old(self).sguard64_restricted
                    || restricted)
                &&& final(self).sguardsvc64_found == old(self).sguardsvc64_found
                &&& final(self).sguardsvc64_restricted == old(self).sguardsvc64_restricted
            },
            guard == Guard::SGuardSvc64 ==> {
                &&& final(self).sguardsvc64_found
                &&& final(self).sguardsvc64_restricted == (old(self).sguardsvc64_restricted
                    || restricted)
                &&& final(self).sguard64_found == old(self).sguard64_found
                &&& final(self).sguard64_restricted == old(self).sguard64_restricted
            },
    {
        let details_str = join_strings(details, ", ");
        let mut line = match guard {
            Guard::SGuard64 => owned("SGuard64.exe"),
            Guard::SGuardSvc64 => owned("SGuardSvc64.exe"),
        };
        line.append(" (PID: ");
        let pid_text = decimal_string(pid as u64);
        line.append(pid_text.as_str());
        line.append(")");
        if restricted {
            line.append(" [");
        } else {
            line.append(" 所有限制均失败 [");
        }
        line.append(details_str.as_str());
        line.append("]\n");
        match guard {
            Guard::SGuard64 => {
                self.sguard64_found = true;
                if restricted {
                    self.sguard64_restricted = true;
                }
            },
            Guard::SGuardSvc64 => {
                self.sguardsvc64_found = true;
                if restricted {
                    self.sguardsvc64_restricted = true;
                }
            },
        }
        self.message.append(line.as_str());
    }

    /// Closes the message: a line for each guard that was not found.
    pub fn finish(&mut self)
        requires
            old(self).wf(),
        ensures
            final(self).wf(),
            final(self).target_cores@ == old(self).target_cores@,
            final(self).sguard64_found == old(self).sguard64_found,
            final(self).sguard64_restricted == old(self).sguard64_restricted,
            final(self).sguardsvc64_found == old(self).sguardsvc64_found,
            final(self).sguardsvc64_restricted == old(self).sguardsvc64_restricted,
            final(self).message@ == old(self).message@ + (if old(self).sguard64_found {
                Seq::empty()
            } else {
                "未找到SGuard64.exe进程\n"@
            }) + (if old(self).sguardsvc64_found {
                Seq::empty()
            } else {
                "未找到SGuardSvc64.exe进程\n"@
            }),
    {
        let ghost m0 = self.message@;
        if !self.sguard64_found {
            self.message.append("未找到SGuard64.exe进程\n");
        }
        let ghost m1 = self.message@;
        if !self.sguardsvc64_found {
            self.message.append("未找到SGuardSvc64.exe进程\n");
        }
        assert(self.message@ =~= m0 + (if self.sguard64_found {
            Seq::empty()
        } else {
            "未找到SGuard64.exe进程\n"@
        }) + (if self.sguardsvc64_found {
            Seq::empty()
        } else {
            "未找到SGuardSvc64.exe进程\n"@
        }));
    }
}

/// Which guards a process is, from its lower-case name: the name holds
/// `sguard64.exe`, `sguardsvc64.exe`, or neither.
pub fn guard_targets_of_lowercase(lower_name: &str) -> (r: (bool, bool))
    ensures
        r.0 == occurs_in(lower_name@, "sguard64.exe"@),
        r.1 == occurs_in(lower_name@, "sguardsvc64.exe"@),
{
    (str_contains(lower_name, "sguard64.exe"), str_contains(lower_name, "sguardsvc64.exe"))
}

/// Which guards a process is, from its name, compared in lower case.
pub fn guard_targets(process_name: &str) -> (r: (bool, bool))
    ensures
        r.0 == occurs_in(lowercase(process_name@), "sguard64.exe"@),
        r.1 == occurs_in(lowercase(process_name@), "sguardsvc64.exe"@),
{
    let lower = to_lowercase(process_name);
    guard_targets_of_lowercase(lower.as_str())
}

/// Whether a process is reported in the performance view: its lower-case
/// name holds either guard's name.
pub fn is_performance_target(process_name: &str) -> (r: bool)
    ensures
        r == (occurs_in(lowercase(process_name@), "sguard64.exe"@) || occurs_in(
            lowercase(process_name@),
            "sguardsvc64.exe"@,
        )),
{
    let (a, b) = guard_targets(process_name);
    a || b
}

} // verus!
