use vstd::prelude::*;

use crate::machine::logical_core_count;
use crate::text::{decimal, decimal_string, join, join_strings, views};

verus! {

// ---------------------------------------------------------------------
// Masks
// ---------------------------------------------------------------------

/// The single-bit mask of core `c` (for `c < 64`).
pub open spec fn bit_of(c: u64) -> u64 {
    1u64 << c
}

/// Core `i` is set in `mask`.
pub open spec fn has_core(mask: u64, i: int) -> bool {
    0 <= i < 64 && mask & bit_of(i as u64) != 0
}

/// The cores set in `mask` below `n`, in increasing order.
pub open spec fn mask_cores_below(mask: u64, n: nat) -> Seq<u32>
    decreases n,
{
    if n == 0 {
        Seq::empty()
    } else {
        let rest = mask_cores_below(mask, (n - 1) as nat);
        if has_core(mask, n - 1) {
            rest.push((n - 1) as u32)
        } else {
            rest
        }
    }
}

/// The cores set in `mask`, in increasing order.
pub open spec fn mask_cores(mask: u64) -> Seq<u32> {
    mask_cores_below(mask, 64)
}

/// Decimal numerals of the cores, in order.
pub open spec fn core_numerals(cores: Seq<u32>) -> Seq<Seq<char>> {
    cores.map_values(|c: u32| decimal(c as nat))
}

/// The comma-separated list of the cores (the text of a core list).
pub open spec fn core_list_text(cores: Seq<u32>) -> Seq<char> {
    join(core_numerals(cores), seq![','])
}

/// The cores of a mask as text: their decimal numerals in increasing order,
/// separated by commas.
pub open spec fn core_mask_text(mask: u64) -> Seq<char> {
    core_list_text(mask_cores(mask))
}

/// The cores that `mask` sets, in increasing order, separated by commas
/// (`"0,3,5"` for `0b101001`, the empty string for `0`).
pub fn format_core_mask(core_mask: u64) -> (r: String)
    ensures
        r@ == core_mask_text(core_mask),
{
    let mut parts: Vec<String> = Vec::new();
    let mut core: u64 = 0;
    while core < 64
        invariant
            core <= 64,
            views(parts@) == core_numerals(mask_cores_below(core_mask, core as nat)),
        decreases 64 - core,
    {
        let ghost before = mask_cores_below(core_mask, core as nat);
        let ghost old_parts = parts@;
        if core_mask & (1u64 << core) != 0 {
            let numeral = decimal_string(core);
            parts.push(numeral);
            assert(views(old_parts).len() == core_numerals(before).len());
            assert(parts@ == old_parts.push(numeral));
            assert(mask_cores_below(core_mask, (core + 1) as nat) == before.push(core as u32));
            let ghost nums = core_numerals(before.push(core as u32));
            assert(nums.len() == views(parts@).len());
            assert forall|j: int| 0 <= j < nums.len() implies views(parts@)[j] == nums[j] by {
                if j < nums.len() - 1 {
                    assert(nums[j] == core_numerals(before)[j]);
                }
            }
            assert(views(parts@) =~= nums);
        } else {
            assert(mask_cores_below(core_mask, (core + 1) as nat) == before);
        }
        core += 1;
    }
    let comma = ",";
    proof {
        reveal_strlit(",");
    }
    assert(comma@ =~= seq![',']);
    join_strings(&parts, comma)
}

// ---------------------------------------------------------------------
// Choosing the cores
// ---------------------------------------------------------------------

/// Core `c` exists on a machine with `total` logical processors and fits
/// a 64-bit affinity mask.
pub open spec fn is_usable_core(c: u32, total: u32) -> bool {
    c < total && c < 64
}

/// Each element is smaller than the next.
pub open spec fn strictly_increasing(s: Seq<u32>) -> bool {
    forall|i: int, j: int| 0 <= i < j < s.len() ==> s[i] < s[j]
}

/// `mask` sets exactly the cores in `cores`.
pub open spec fn mask_sets_exactly(mask: u64, cores: Seq<u32>) -> bool {
    forall|i: int| 0 <= i < 64 ==> (#[trigger] has_core(mask, i) <==> cores.contains(i as u32))
}

/// The core that the tool falls back to: the last logical processor.
pub open spec fn last_core(total: u32) -> u32 {
    if total > 0 {
        (total - 1) as u32
    } else {
        0
    }
}

/// The mask of a single core. The shift amount wraps at 64, as a shift of a
/// `u64` does in a build without overflow checks.
pub open spec fn single_core_mask(core: u32) -> u64 {
    bit_of((core % 64) as u64)
}

/// Some requested core is usable.
pub open spec fn any_usable(requested: Seq<u32>, total: u32) -> bool {
    exists|i: int| 0 <= i < requested.len() && is_usable_core(requested[i], total)
}

/// `r` is the affinity chosen for the request `custom` on a machine with
/// `total` logical processors: the usable requested cores, sorted and without
/// repeats, with their mask, when there is one; otherwise the last core.
/// `r.2` (an efficiency-core binding) is always false; `r.3` says whether the
/// requested cores were used.
pub open spec fn affinity_resolved(
    custom: Option<Vec<u32>>,
    total: u32,
    r: (Seq<u32>, u64, bool, bool),
) -> bool {
    let custom_used = match custom {
        Some(v) => any_usable(v@, total),
        None => false,
    };
    &&& r.2 == false
    &&& r.3 == custom_used
    &&& custom_used ==> {
        &&& strictly_increasing(r.0)
        &&& forall|c: u32| #[trigger]
            r.0.contains(c) <==> (custom->0@.contains(c) && is_usable_core(c, total))
        &&& mask_sets_exactly(r.1, r.0)
    }
    &&& !custom_used ==> {
        &&& r.0 == seq![last_core(total)]
        &&& r.1 == single_core_mask(last_core(total))
    }
}

proof fn lemma_contains_index(s: Seq<u32>, i: int)
    requires
        0 <= i < s.len(),
    ensures
        s.contains(s[i]),
{
}

proof fn lemma_push_contains(s: Seq<u32>, c: u32, x: u32)
    ensures
        s.push(c).contains(x) <==> (s.contains(x) || x == c),
{
    if s.push(c).contains(x) {
        let k = choose|k: int| 0 <= k < s.push(c).len() && s.push(c)[k] == x;
        if k < s.len() {
            assert(s[k] == x);
        }
    }
    if s.contains(x) {
        let k = choose|k: int| 0 <= k < s.len() && s[k] == x;
        assert(s.push(c)[k] == x);
    }
    if x == c {
        assert(s.push(c)[s.len() as int] == c);
    }
}

proof fn lemma_or_bit(m: u64, c: u64, i: u64)
    by (bit_vector)
    requires
        c < 64,
        i < 64,
    ensures
        ((m | (1u64 << c)) & (1u64 << i) != 0) == ((m & (1u64 << i) != 0) || i == c),
{
}

proof fn lemma_zero_has_no_bit(i: u64)
    by (bit_vector)
    requires
        i < 64,
    ensures
        0u64 & (1u64 << i) == 0,
{
}

/// Adds `c` to a strictly increasing vector, keeping it so.
fn insert_sorted(v: &mut Vec<u32>, c: u32)
    requires
        strictly_increasing(old(v)@),
    ensures
        strictly_increasing(final(v)@),
        forall|x: u32| #[trigger] final(v)@.contains(x) <==> (old(v)@.contains(x) || x == c),
{
    let mut i: usize = 0;
    while i < v.len() && v[i] < c
        invariant
            i <= v.len(),
            forall|k: int| 0 <= k < i ==> v@[k] < c,
        decreases v.len() - i,
    {
        i += 1;
    }
    if i < v.len() && v[i] == c {
        return;
    }
    let ghost before = v@;
    v.insert(i, c);
    proof {
        before.insert_ensures(i as int, c);
    }
    assert forall|x: u32| v@.contains(x) <==> (before.contains(x) || x == c) by {
        if v@.contains(x) {
            let k = choose|k: int| 0 <= k < v@.len() && v@[k] == x;
            if k < i {
                assert(before[k] == x);
                lemma_contains_index(before, k);
            } else if k > i {
                assert(before[k - 1] == x);
                lemma_contains_index(before, k - 1);
            }
        }
        if before.contains(x) {
            let k = choose|k: int| 0 <= k < before.len() && before[k] == x;
            if k < i {
                assert(v@[k] == x);
                lemma_contains_index(v@, k);
            } else {
                assert(v@[k + 1] == x);
                lemma_contains_index(v@, k + 1);
            }
        }
        if x == c {
            assert(v@[i as int] == x);
            lemma_contains_index(v@, i as int);
        }
    }
}

/// The usable requested cores, in increasing order without repeats.
fn usable_sorted(cores: &Vec<u32>, total: u32) -> (v: Vec<u32>)
    ensures
        strictly_increasing(v@),
        forall|c: u32| #[trigger] v@.contains(c) <==> (cores@.contains(c) && is_usable_core(c, total)),
{
    let mut v: Vec<u32> = Vec::new();
    let mut k: usize = 0;
    while k < cores.len()
        invariant
            k <= cores.len(),
            strictly_increasing(v@),
            forall|c: u32| #[trigger]
                v@.contains(c) <==> (cores@.take(k as int).contains(c) && is_usable_core(c, total)),
        decreases cores.len() - k,
    {
        let c = cores[k];
        let ghost before = v@;
        if c < total && c < 64 {
            insert_sorted(&mut v, c);
        }
        assert(cores@.take(k + 1) == cores@.take(k as int).push(c));
        assert forall|x: u32|
            v@.contains(x) <==> (cores@.take(k + 1).contains(x) && is_usable_core(x, total)) by {
            lemma_push_contains(cores@.take(k as int), c, x);
            if c < total && c < 64 {
                assert(v@.contains(x) <==> (before.contains(x) || x == c));
            } else {
                assert(v@ == before);
            }
            assert(before.contains(x) <==> (cores@.take(k as int).contains(x) && is_usable_core(
                x,
                total,
            )));
        }
        k += 1;
    }
    assert(cores@.take(cores.len() as int) == cores@);
    v
}

/// The mask that sets exactly the given cores.
fn mask_of(cores: &Vec<u32>) -> (mask: u64)
    requires
        forall|i: int| 0 <= i < cores.len() ==> cores@[i] < 64,
    ensures
        mask_sets_exactly(mask, cores@),
{
    let mut mask: u64 = 0;
    let mut k: usize = 0;
    assert forall|i: int| 0 <= i < 64 implies (has_core(0u64, i) <==> cores@.take(0).contains(
        i as u32,
    )) by {
        lemma_zero_has_no_bit(i as u64);
    }
    while k < cores.len()
        invariant
            k <= cores.len(),
            forall|i: int| 0 <= i < cores.len() ==> cores@[i] < 64,
            mask_sets_exactly(mask, cores@.take(k as int)),
        decreases cores.len() - k,
    {
        let c = cores[k];
        let ghost old_mask = mask;
        mask = mask | (1u64 << (c as u64));
        assert forall|i: int| 0 <= i < 64 implies (has_core(mask, i) <==> cores@.take(
            k + 1,
        ).contains(i as u32)) by {
            assert(has_core(old_mask, i) <==> cores@.take(k as int).contains(i as u32));
            lemma_or_bit(old_mask, c as u64, i as u64);
            assert(cores@.take(k + 1) == cores@.take(k as int).push(c));
            lemma_push_contains(cores@.take(k as int), c, i as u32);
        }
        k += 1;
    }
    assert(cores@.take(cores.len() as int) == cores@);
    mask
}

/// The single-core mask of `core`, the shift amount wrapping at 64.
pub fn single_core_mask_of(core: u32) -> (mask: u64)
    ensures
        mask == single_core_mask(core),
{
    1u64 << ((core % 64) as u64)
}

/// The affinity for a request on a machine with `total_cores` logical
/// processors: the usable requested cores (those below both `total_cores`
/// and 64), sorted, without repeats, with the mask that sets exactly them;
/// when no requested core is usable, or none was requested, the last
/// logical processor alone.
pub fn resolve_affinity_for(custom_cores: Option<Vec<u32>>, total_cores: u32) -> (r: (
    Vec<u32>,
    u64,
    bool,
    bool,
))
    ensures
        affinity_resolved(custom_cores, total_cores, (r.0@, r.1, r.2, r.3)),
{
    let ghost custom = custom_cores;
    if let Some(cores) = custom_cores {
        let valid = usable_sorted(&cores, total_cores);
        if valid.len() > 0 {
            proof {
                lemma_contains_index(valid@, 0);
                let k = choose|k: int| 0 <= k < cores@.len() && cores@[k] == valid@[0];
                assert(is_usable_core(cores@[k], total_cores));
            }
            assert forall|i: int| 0 <= i < valid.len() implies valid@[i] < 64 by {
                lemma_contains_index(valid@, i);
            }
            let core_mask = mask_of(&valid);
            return (valid, core_mask, false, true);
        }
        proof {
            assert forall|i: int| 0 <= i < cores@.len() implies !is_usable_core(
                cores@[i],
                total_cores,
            ) by {
                if is_usable_core(cores@[i], total_cores) {
                    lemma_contains_index(cores@, i);
                    assert(valid@.contains(cores@[i]));
                }
            }
        }
    }
    let target_core = if total_cores > 0 {
        total_cores - 1
    } else {
        0
    };
    let mut cores: Vec<u32> = Vec::new();
    cores.push(target_core);
    (cores, single_core_mask_of(target_core), false, false)
}


/// The affinity for a request, on this machine: the logical processors
/// are counted, then [`resolve_affinity_for`] decides. Whatever the count,
/// the result is the affinity resolved for some count.
pub fn resolve_affinity(custom_cores: Option<Vec<u32>>) -> (r: (Vec<u32>, u64, bool, bool))
    ensures
        exists|total: u32| affinity_resolved(custom_cores, total, (r.0@, r.1, r.2, r.3)),
{
    let total_cores = logical_core_count();
    let r = resolve_affinity_for(custom_cores, total_cores);
    assert(affinity_resolved(custom_cores, total_cores, (r.0@, r.1, r.2, r.3)));
    r
}

/// The mask to fall back on when binding to efficiency cores fails: the
/// last logical processor of this machine.
pub fn fallback_core_mask() -> (mask: u64)
    ensures
        exists|total: u32| mask == single_core_mask(last_core(total)),
{
    let total_cores = logical_core_count();
    let target = if total_cores > 0 {
        total_cores - 1
    } else {
        0
    };
    let mask = single_core_mask_of(target);
    assert(mask == single_core_mask(last_core(total_cores)));
    mask
}

// ---------------------------------------------------------------------
// What a report prints of the chosen cores
// ---------------------------------------------------------------------

proof fn lemma_mask_cores_below(mask: u64, n: nat)
    requires
        n <= 64,
    ensures
        strictly_increasing(mask_cores_below(mask, n)),
        forall|i: int| 0 <= i < mask_cores_below(mask, n).len() ==> mask_cores_below(mask, n)[i] < n,
        forall|x: u32| #[trigger]
            mask_cores_below(mask, n).contains(x) <==> (x < n && has_core(mask, x as int)),
    decreases n,
{
    if n > 0 {
        let m = (n - 1) as nat;
        lemma_mask_cores_below(mask, m);
        let rest = mask_cores_below(mask, m);
        if has_core(mask, m as int) {
            assert forall|x: u32| #[trigger]
                rest.push(m as u32).contains(x) <==> (x < n && has_core(mask, x as int)) by {
                lemma_push_contains(rest, m as u32, x);
            }
        }
    }
}

proof fn lemma_increasing_last_is_max(a: Seq<u32>, x: u32)
    requires
        strictly_increasing(a),
        a.len() > 0,
        a.contains(x),
    ensures
        x <= a.last(),
        x == a.last() || a.drop_last().contains(x),
{
    let k = choose|k: int| 0 <= k < a.len() && a[k] == x;
    if k < a.len() - 1 {
        assert(a.drop_last()[k] == x);
    }
}

/// Two strictly increasing sequences with the same elements are equal.
proof fn lemma_increasing_same_elements(a: Seq<u32>, b: Seq<u32>)
    requires
        strictly_increasing(a),
        strictly_increasing(b),
        forall|x: u32| #[trigger] a.contains(x) <==> b.contains(x),
    ensures
        a == b,
    decreases a.len(),
{
    if a.len() == 0 {
        if b.len() > 0 {
            lemma_contains_index(b, 0);
            assert(a.contains(b[0]));
        }
        assert(a =~= b);
    } else {
        lemma_contains_index(a, a.len() - 1);
        if b.len() == 0 {
            assert(false);
        }
        lemma_contains_index(b, b.len() - 1);
        lemma_increasing_last_is_max(a, b.last());
        lemma_increasing_last_is_max(b, a.last());
        let a2 = a.drop_last();
        let b2 = b.drop_last();
        assert forall|x: u32| #[trigger] a2.contains(x) <==> b2.contains(x) by {
            if a2.contains(x) {
                let k = choose|k: int| 0 <= k < a2.len() && a2[k] == x;
                assert(a[k] == x);
                lemma_contains_index(a, k);
                lemma_increasing_last_is_max(b, x);
            }
            if b2.contains(x) {
                let k = choose|k: int| 0 <= k < b2.len() && b2[k] == x;
                assert(b[k] == x);
                lemma_contains_index(b, k);
                lemma_increasing_last_is_max(a, x);
            }
        }
        lemma_increasing_same_elements(a2, b2);
        assert(a =~= a2.push(a.last()));
        assert(b =~= b2.push(b.last()));
    }
}

/// A mask read back as cores gives exactly the cores that it sets, in
/// increasing order.
proof fn lemma_mask_cores_of(mask: u64, cores: Seq<u32>)
    requires
        strictly_increasing(cores),
        forall|i: int| 0 <= i < cores.len() ==> cores[i] < 64,
        mask_sets_exactly(mask, cores),
    ensures
        mask_cores(mask) == cores,
{
    lemma_mask_cores_below(mask, 64);
    assert forall|x: u32| #[trigger] mask_cores(mask).contains(x) <==> cores.contains(x) by {
        if cores.contains(x) {
            let k = choose|k: int| 0 <= k < cores.len() && cores[k] == x;
            assert(x < 64);
        }
        if x < 64 {
            assert(has_core(mask, x as int) <==> cores.contains((x as int) as u32));
        }
    }
    lemma_increasing_same_elements(mask_cores(mask), cores);
}

proof fn lemma_single_bit(a: u64, i: u64)
    by (bit_vector)
    requires
        a < 64,
        i < 64,
    ensures
        ((1u64 << a) & (1u64 << i) != 0) == (a == i),
{
}

/// The single-core mask of `core` sets exactly core `core % 64`.
pub proof fn lemma_single_core_mask_cores(core: u32)
    ensures
        mask_cores(single_core_mask(core)) == seq![core % 64],
{
    let s: Seq<u32> = seq![core % 64];
    assert forall|i: int| 0 <= i < 64 implies (#[trigger] has_core(single_core_mask(core), i)
        <==> s.contains(i as u32)) by {
        lemma_single_bit((core % 64) as u64, i as u64);
        if s.contains(i as u32) {
            let k = choose|k: int| 0 <= k < s.len() && s[k] == i as u32;
            assert(k == 0);
        }
        if i == core % 64 {
            assert(s[0] == i as u32);
        }
    }
    lemma_mask_cores_of(single_core_mask(core), s);
}

/// The cores that a restriction report prints for a chosen affinity (the
/// text of its mask) are the chosen cores: all of them, in the order in
/// which they are listed, and no other. On a machine with more than 64
/// logical processors the fallback core is printed modulo 64, as its mask
/// holds it.
pub proof fn lemma_mask_text_names_chosen_cores(
    custom: Option<Vec<u32>>,
    total: u32,
    r: (Seq<u32>, u64, bool, bool),
)
    requires
        affinity_resolved(custom, total, r),
    ensures
        r.3 ==> core_mask_text(r.1) == core_list_text(r.0),
        !r.3 ==> core_mask_text(r.1) == core_list_text(seq![r.0[0] % 64]),
        !r.3 && total <= 64 ==> core_mask_text(r.1) == core_list_text(r.0),
{
    if r.3 {
        assert forall|i: int| 0 <= i < r.0.len() implies r.0[i] < 64 by {
            lemma_contains_index(r.0, i);
        }
        lemma_mask_cores_of(r.1, r.0);
    } else {
        lemma_single_core_mask_cores(last_core(total));
        if total <= 64 {
            assert(seq![r.0[0] % 64] == r.0);
        }
    }
}

} // verus!
