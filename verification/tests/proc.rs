use stethoscope::probe_rt::{fold_capabilities, privileged};
use stethoscope::proc::{count_cpus, meminfo_bytes, psi_token, psi_total, stat_btime};
use stethoscope::system_health::{collected_at, loadavg_tasks, memory_bytes, MemoryBytes};

const STAT: &str = "cpu  10132153 290696 3084719 46828483 16683 0 25195 0 0 0\n\
cpu0 1393280 32966 572056 13343292 6130 0 17875 0 0 0\n\
cpu1 1335394 32771 445813 13491036 2970 0 2925 0 0 0\n\
cpu12 1335394 32771 445813 13491036 2970 0 2925 0 0 0\n\
cpufreq 1\n\
intr 199292 42 0\n\
ctxt 12345\n\
btime 1709164800\n\
processes 4242\n";

const MEMINFO: &str = "MemTotal:       16303836 kB\n\
MemFree:          512000 kB\n\
MemAvailable:    8151918 kB\n\
Cached:          4000000 kB\n\
SwapCached:            0 kB\n\
Dirty:               128 kB\n\
SwapTotal:       2097148 kB\n\
SwapFree:        2097000 kB\n\
SUnreclaim:       300000 kB\n";

const PRESSURE: &str = "some avg10=0.12 avg60=0.34 avg300=0.56 total=1714525\n\
full avg10=0.00 avg60=0.00 avg300=0.00 total=98765\n";

#[test]
fn cpus_are_the_numbered_cpu_lines() {
    assert_eq!(count_cpus(STAT), 3);
    assert_eq!(count_cpus("cpu 1 2 3\n"), 0);
    assert_eq!(count_cpus(""), 0);
    assert_eq!(count_cpus("cpu0 1\r\ncpu1 2"), 2);
}

#[test]
fn boot_time_is_the_btime_line() {
    assert_eq!(stat_btime(STAT), Some(1_709_164_800));
    assert_eq!(stat_btime("btime  17\n"), Some(17));
    assert_eq!(stat_btime("btime 17 18\n"), Some(17));
    assert_eq!(stat_btime("xbtime 17\n"), None);
    assert_eq!(stat_btime("btime x\n"), None);
    assert_eq!(stat_btime("ctxt 1\n"), None);
}

#[test]
fn meminfo_is_reported_in_bytes_not_kib() {
    assert_eq!(meminfo_bytes(MEMINFO, "MemTotal"), Some(16_303_836 * 1024));
    assert_eq!(meminfo_bytes(MEMINFO, "Dirty"), Some(128 * 1024));
    assert_eq!(meminfo_bytes(MEMINFO, "Mem"), None);
    assert_eq!(meminfo_bytes(MEMINFO, "Hugepages"), None);
    // A value whose byte count does not fit in 64 bits is no value.
    assert_eq!(meminfo_bytes("Big: 18446744073709551615 kB\n", "Big"), None);
    assert_eq!(meminfo_bytes("Big: 18014398509481983 kB\n", "Big"), Some(18_014_398_509_481_983 * 1024));
}

#[test]
fn pressure_tokens_and_totals() {
    assert_eq!(psi_total(PRESSURE, "some"), Some(1_714_525));
    assert_eq!(psi_total(PRESSURE, "full"), Some(98_765));
    assert_eq!(psi_total("some avg10=0.00\n", "some"), None);
    assert_eq!(psi_total(PRESSURE, "none"), None);
    assert_eq!(psi_token(PRESSURE, "some", "avg60="), Some("0.34".chars().collect()));
    assert_eq!(psi_token(PRESSURE, "full", "avg10="), Some("0.00".chars().collect()));
    assert_eq!(psi_token(PRESSURE, "full", "avg5="), None);
}

#[test]
fn collected_at_is_boot_time_plus_uptime() {
    assert_eq!(collected_at(1_709_164_800, 86_399).unwrap(), "2024-02-29T23:59:59Z");
    assert_eq!(collected_at(0, 0).unwrap(), "1970-01-01T00:00:00Z");
    assert!(collected_at(0, -1).is_none());
    assert!(collected_at(u64::MAX, 0).is_none());
    assert!(collected_at(i64::MAX as u64, 1).is_none());
    assert!(collected_at(253_402_300_799, 1).is_none());
}

#[test]
fn loadavg_tasks_are_runnable_over_total() {
    assert_eq!(loadavg_tasks("0.52 0.58 0.59 3/1024 12345"), Some((3, 1024)));
    assert_eq!(loadavg_tasks("0.52 0.58 0.59"), None);
    assert_eq!(loadavg_tasks("0.52 0.58 0.59 3"), None);
    assert_eq!(loadavg_tasks("0.52 0.58 0.59 3/x 1"), None);
    assert_eq!(loadavg_tasks("0.52 0.58 0.59 +3/7/9 1"), Some((3, 7)));
}

#[test]
fn memory_figures_come_from_meminfo() {
    assert_eq!(
        memory_bytes(MEMINFO),
        Some(MemoryBytes {
            total_bytes: 16_303_836 * 1024,
            available_bytes: 8_151_918 * 1024,
            cached_bytes: 4_000_000 * 1024,
            dirty_bytes: 128 * 1024,
            swap_total_bytes: 2_097_148 * 1024,
            swap_used_bytes: 148 * 1024,
            kernel_unreclaimable_bytes: 300_000 * 1024,
        })
    );
    assert_eq!(memory_bytes("MemTotal: 1 kB\n"), None);
    let odd = "MemTotal: 1 kB\nMemAvailable: 1 kB\nCached: 0 kB\nDirty: 0 kB\n\
SwapTotal: 5 kB\nSwapFree: 9 kB\nSUnreclaim: 0 kB\n";
    assert_eq!(memory_bytes(odd).unwrap().swap_used_bytes, 0);
}

#[test]
fn privilege_is_root_setuid_or_a_capability() {
    assert!(!privileged(1000, 1000, 0));
    assert!(privileged(0, 0, 0));
    assert!(privileged(0, 1000, 0));
    assert!(privileged(1001, 1000, 0));
    assert!(privileged(1000, 1000, 1 << 21));
}

#[test]
fn capability_words_fold_high_over_low() {
    assert_eq!(fold_capabilities(0, 0), 0);
    assert_eq!(fold_capabilities(1, 0), 1);
    assert_eq!(fold_capabilities(0, 1), 1 << 32);
    assert_eq!(fold_capabilities(0xffff_ffff, 0x1ff), 0x1ff_ffff_ffff);
}
