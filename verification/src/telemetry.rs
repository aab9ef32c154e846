//! Host snapshot collector: percentage derivation with a divide-by-zero
//! guard, disk usage arithmetic, snapshot assembly with identity
//! fallbacks, and the top-N process list sorted by processor usage.
//!
//! Percentages and processor usage are carried in hundredths of a percent
//! (`2550` is `25.50 %`), a totally ordered integer scale; readings the OS
//! reports as non-comparable are expected to be mapped to `0` by the
//! caller, so that they sort last in the descending process order.
use vstd::multiset::Multiset;
use vstd::prelude::*;
use vstd::string::StringExecFns;

use crate::netinfo::NetworkInterfaceDetails;

verus! {

broadcast use vstd::seq_lib::group_to_multiset_ensures, vstd::multiset::group_multiset_axioms;

/// One complete set of telemetry values captured at a single point in
/// time.
pub struct SystemInfo {
    pub cpu_usage: u64,
    pub memory_usage: u64,
    pub total_memory: u64,
    pub memory_percent: u64,
    pub disk_usage: Vec<DiskInfo>,
    pub network_interfaces: Vec<NetworkInfo>,
    pub network_details: NetworkInterfaceDetails,
    pub process_count: usize,
    pub uptime: u64,
    pub system_name: String,
    pub kernel_version: String,
    pub host_name: String,
}

/// Space accounting for one disk, in bytes.
pub struct DiskInfo {
    pub name: String,
    pub mount_point: String,
    pub total_space: u64,
    pub available_space: u64,
    pub used_space: u64,
    pub usage_percent: u64,
}

/// One process table entry.
pub struct ProcessInfo {
    pub pid: u32,
    pub name: String,
    pub cpu_usage: u64,
    pub memory: u64,
}

/// Cumulative per-interface traffic counters, as the OS reports them at
/// call time.
pub struct NetworkInfo {
    pub interface_name: String,
    pub bytes_received: u64,
    pub bytes_transmitted: u64,
    pub packets_received: u64,
    pub packets_transmitted: u64,
    pub errors_received: u64,
    pub errors_transmitted: u64,
}

/// Mathematical value of a usage percentage expressed in hundredths of a
/// percent: `part / whole * 100` percent, scaled by 100 and floored, `0`
/// when `whole` is `0`, saturated at `u64::MAX`.
pub open spec fn percent_hundredths_spec(part: u64, whole: u64) -> int {
    if whole == 0 {
        0int
    } else {
        let exact = (part as int) * 10000 / (whole as int);
        if exact > u64::MAX as int {
            u64::MAX as int
        } else {
            exact
        }
    }
}

/// Usage percentage in hundredths of a percent, exactly
/// `part * 10000 / whole` floored, and `0` when `whole` is `0`.
pub fn percent_hundredths(part: u64, whole: u64) -> (r: u64)
    ensures
        r as int == percent_hundredths_spec(part, whole),
{
    if whole == 0 {
        0
    } else {
        let wide: u128 = (part as u128) * 10000 / (whole as u128);
        if wide > u64::MAX as u128 {
            u64::MAX
        } else {
            wide as u64
        }
    }
}

/// The string itself when the OS reported one, the literal fallback
/// otherwise.
pub open spec fn name_or_unknown(o: Option<String>) -> Seq<char> {
    match o {
        Some(s) => s@,
        None => "Unknown"@,
    }
}

fn unknown_fallback(o: Option<String>) -> (r: String)
    ensures
        r@ == name_or_unknown(o),
{
    match o {
        Some(s) => s,
        None => String::from_str("Unknown"),
    }
}

impl DiskInfo {
    /// Derive the disk record from the reported totals: used space is
    /// total minus available, and the usage percentage follows the
    /// divide-by-zero guard.
    pub fn new(name: String, mount_point: String, total_space: u64, available_space: u64) -> (r:
        DiskInfo)
        requires
            available_space <= total_space,
        ensures
            r.name@ == name@,
            r.mount_point@ == mount_point@,
            r.total_space == total_space,
            r.available_space == available_space,
            r.used_space == total_space - available_space,
            r.usage_percent as int == percent_hundredths_spec(
                (total_space - available_space) as u64,
                total_space,
            ),
    {
        let used_space = total_space - available_space;
        let usage_percent = percent_hundredths(used_space, total_space);
        DiskInfo { name, mount_point, total_space, available_space, used_space, usage_percent }
    }
}

/// Assemble one snapshot from the values the OS query layer handed over.
/// The memory percentage is derived with the divide-by-zero guard, and
/// each identity field the OS declined to report falls back to the
/// literal fallback.
pub fn get_system_info(
    cpu_usage: u64,
    memory_usage: u64,
    total_memory: u64,
    disk_usage: Vec<DiskInfo>,
    network_interfaces: Vec<NetworkInfo>,
    network_details: NetworkInterfaceDetails,
    process_count: usize,
    uptime: u64,
    system_name: Option<String>,
    kernel_version: Option<String>,
    host_name: Option<String>,
) -> (r: SystemInfo)
    ensures
        r.cpu_usage == cpu_usage,
        r.memory_usage == memory_usage,
        r.total_memory == total_memory,
        r.memory_percent as int == percent_hundredths_spec(memory_usage, total_memory),
        r.disk_usage == disk_usage,
        r.network_interfaces == network_interfaces,
        r.network_details == network_details,
        r.process_count == process_count,
        r.uptime == uptime,
        r.system_name@ == name_or_unknown(system_name),
        r.kernel_version@ == name_or_unknown(kernel_version),
        r.host_name@ == name_or_unknown(host_name),
{
    let memory_percent = percent_hundredths(memory_usage, total_memory);
    SystemInfo {
        cpu_usage,
        memory_usage,
        total_memory,
        memory_percent,
        disk_usage,
        network_interfaces,
        network_details,
        process_count,
        uptime,
        system_name: unknown_fallback(system_name),
        kernel_version: unknown_fallback(kernel_version),
        host_name: unknown_fallback(host_name),
    }
}

/// Non-increasing processor usage.
pub open spec fn sorted_desc(s: Seq<ProcessInfo>) -> bool {
    forall|i: int, j: int| 0 <= i <= j < s.len() ==> s[i].cpu_usage >= s[j].cpu_usage
}

/// Selection sort, descending by processor usage. Tie order among equal
/// readings is left open by design.
fn sort_processes_desc(procs: Vec<ProcessInfo>) -> (r: Vec<ProcessInfo>)
    ensures
        r@.to_multiset() == procs@.to_multiset(),
        sorted_desc(r@),
        r@.len() == procs@.len(),
{
    let mut rest = procs;
    let mut out: Vec<ProcessInfo> = Vec::new();
    proof {
        assert(out@.to_multiset() =~= Multiset::<ProcessInfo>::empty());
        assert(out@.to_multiset().add(rest@.to_multiset()) =~= rest@.to_multiset());
    }
    let ghost whole = rest@;
    while rest.len() > 0
        invariant
            out@.to_multiset().add(rest@.to_multiset()) == whole.to_multiset(),
            out@.len() + rest@.len() == whole.len(),
            sorted_desc(out@),
            forall|a: int, b: int|
                0 <= a < rest@.len() && 0 <= b < out@.len() ==> rest@[a].cpu_usage
                    <= out@[b].cpu_usage,
        decreases rest@.len(),
    {
        let mut m: usize = 0;
        let mut k: usize = 1;
        while k < rest.len()
            invariant
                rest@.len() > 0,
                m < rest@.len(),
                k <= rest@.len(),
                forall|t: int| 0 <= t < k ==> rest@[t].cpu_usage <= rest@[m as int].cpu_usage,
            decreases rest@.len() - k,
        {
            if rest[k].cpu_usage > rest[m].cpu_usage {
                m = k;
            }
            k += 1;
        }
        let ghost before = rest@;
        let x = rest.remove(m);
        proof {
            assert(rest@.to_multiset() =~= before.to_multiset().remove(x));
            assert(before.contains(x));
            assert(before.to_multiset().count(x) > 0);
        }
        let ghost out_before = out@;
        out.push(x);
        proof {
            assert(out@ =~= out_before.push(x));
            assert(out@.to_multiset() =~= out_before.to_multiset().insert(x));
            assert(out@.to_multiset().add(rest@.to_multiset()) =~= out_before.to_multiset().add(
                before.to_multiset(),
            ));
            assert(forall|b: int|
                0 <= b < out_before.len() ==> x.cpu_usage <= #[trigger] out_before[b].cpu_usage);
            assert(forall|a: int|
                0 <= a < rest@.len() ==> #[trigger] rest@[a].cpu_usage <= x.cpu_usage);
        }
    }
    out
}

/// The `limit` highest-usage entries of the process table, in descending
/// processor-usage order: a prefix of some descending reordering of the
/// whole table.
pub fn get_top_processes(processes: Vec<ProcessInfo>, limit: usize) -> (r: Vec<ProcessInfo>)
    ensures
        sorted_desc(r@),
        r@.len() == vstd::math::min(limit as int, processes@.len() as int),
        exists|s: Seq<ProcessInfo>|
            s.to_multiset() == processes@.to_multiset() && sorted_desc(s) && r@ == s.take(
                r@.len() as int,
            ),
{
    let ghost orig = processes@;
    let mut sorted_list = sort_processes_desc(processes);
    let ghost full = sorted_list@;
    sorted_list.truncate(limit);
    proof {
        if limit as int <= full.len() {
            assert(sorted_list@ =~= full.take(vstd::math::min(limit as int, orig.len() as int)));
        } else {
            assert(sorted_list@ =~= full.take(vstd::math::min(limit as int, orig.len() as int)));
        }
        assert(full.to_multiset() == orig.to_multiset() && sorted_desc(full) && sorted_list@
            == full.take(sorted_list@.len() as int));
    }
    sorted_list
}

} // verus!

