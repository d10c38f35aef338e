use linux_proc::diskstats::{DiskStat, DiskStats};
use linux_proc::lines::LineParser;
use linux_proc::stat::{Stat, StatCpu};
use linux_proc::time::Duration;
use linux_proc::uptime::Uptime;
use linux_proc::{Error, ErrorKind};

const DISKSTATS: &str = "\
   8      16 sdb 213 0 18712 564 0 0 0 0 0 217 794
   8      17 sdb1 48 0 4688 157 0 0 0 0 0 164 227
   8      18 sdb2 44 0 4656 204 0 0 0 0 0 167 254
   8      19 sdb3 44 0 4656 187 0 0 0 0 0 164 234
   8       0 sda 446866 32893 8168064 20164 339296 376515 86758441 4343530 0 250860 4704740
   8       1 sda1 143 30 11462 24 1 0 8 0 0 50 64
   8       2 sda2 46 0 4992 0 0 0 0 0 0 17 17
   8       3 sda3 6 0 36 0 0 0 0 0 0 4 4
   8       5 sda5 446599 32863 8148758 20140 331949 376515 86758433 4337104 0 233207 4686390
   8      32 sdc 7354 0 1580168 91987 7 0 56 0 0 91374 96127
   8      33 sdc1 7279 0 1575472 91310 7 0 56 0 0 90670 95424
  11       0 sr0 0 0 0 0 0 0 0 0 0 0 0
";

const STAT: &str = "\
cpu  17501 2 6293 8212469 20141 1955 805 0 0 0
cpu0 4713 0 1720 2049410 8036 260 255 0 0 0
cpu1 3866 0 1325 2054893 3673 928 307 0 0 0
cpu2 4966 1 1988 2051243 5596 516 141 0 0 0
cpu3 3955 0 1258 2056922 2835 250 100 0 0 0
intr 1015182 8 8252 0 0 0 0 0 0 1 113449 0 0 198907 0 0 0 18494 0 0 1 0 0 0 29 22 7171
ctxt 2238717
btime 1535128607
processes 2453
procs_running 1
procs_blocked 0
softirq 4257581 64 299604 69 2986 36581 0 3497229 283111 0 137937
";

fn ms(n: u64) -> Duration {
    Duration::from_millis(n)
}

#[test]
fn proc_diskstats() {
    let _stat = DiskStats::from_reader(DISKSTATS).unwrap();
}

#[test]
fn proc_uptime() {
    let raw = "\
            1640919.14 2328903.47
";
    let _stat = Uptime::from_reader(raw).unwrap();
}

#[test]
fn test_stat() {
    let _stat = Stat::from_reader(STAT).unwrap();
}

#[test]
fn diskstats_fields() {
    let stats = DiskStats::from_reader(DISKSTATS).unwrap();
    assert_eq!(stats.len(), 12);
    assert_eq!(stats.iter()[0].name, "sdb");
    assert_eq!(stats.iter()[11].name, "sr0");
    let sda = stats.get("sda").unwrap();
    assert_eq!(sda.major, 8);
    assert_eq!(sda.minor, 0);
    assert_eq!(sda.reads_completed, 446866);
    assert_eq!(sda.reads_merged, 32893);
    assert_eq!(sda.sectors_read, 8168064);
    assert_eq!(sda.time_reading, ms(20164));
    assert_eq!(sda.writes_completed, 339296);
    assert_eq!(sda.writes_merged, 376515);
    assert_eq!(sda.sectors_written, 86758441);
    assert_eq!(sda.time_writing, ms(4343530));
    assert_eq!(sda.io_in_progress, 0);
    assert_eq!(sda.time_io, ms(250860));
    assert_eq!(sda.time_io_weighted, ms(4704740));
    assert!(stats.get("sdz").is_none());
}

#[test]
fn diskstats_two_devices_then_duplicate() {
    let two = "8 0 sda 1 2 3 4 5 6 7 8 9 10 11\n8 16 sdb 1 2 3 4 5 6 7 8 9 10 11\n";
    assert_eq!(DiskStats::from_reader(two).unwrap().len(), 2);
    let dup = "8 0 sda 1 2 3 4 5 6 7 8 9 10 11\n8 16 sda 1 2 3 4 5 6 7 8 9 10 11\n";
    let err = DiskStats::from_reader(dup).err().unwrap();
    assert_eq!(err.kind, ErrorKind::Invariant);
}

#[test]
fn diskstats_extra_columns_are_ignored() {
    let line = "259 0 nvme0n1 1 2 3 4 5 6 7 8 9 10 11 12 13 14 15 16 17\n";
    let d = DiskStat::from_str(line).unwrap();
    assert_eq!(d.name, "nvme0n1");
    assert_eq!(d.major, 259);
    assert_eq!(d.time_io_weighted, ms(11));
}

#[test]
fn diskstats_missing_field_names_it() {
    let err = DiskStat::from_str("8 0 sda 1 2 3 4 5 6 7 8 9 10").err().unwrap();
    assert_eq!(err.kind, ErrorKind::Decode);
    assert_eq!(err.message, "weighted time spent doing I/Os (ms)");
    let err = DiskStat::from_str("8 x").err().unwrap();
    assert_eq!(err.message, "minor number");
    let err = DiskStat::from_str("8 0").err().unwrap();
    assert_eq!(err.message, "device name");
    let err = DiskStats::from_reader("8 0 sda 1\n").err().unwrap();
    assert_eq!(err.kind, ErrorKind::Decode);
}

#[test]
fn diskstats_empty_text_is_empty() {
    assert_eq!(DiskStats::from_reader("").unwrap().len(), 0);
}

#[test]
fn uptime_values() {
    let u = Uptime::from_str("1640919.14 2328903.47").unwrap();
    assert_eq!(u.up, Duration::new(1640919, 140_000_000));
    assert_eq!(u.idle, Duration::new(2328903, 470_000_000));
    assert_eq!(u.up.as_secs(), 1640919);
    assert_eq!(u.idle.subsec_nanos(), 470_000_000);
    assert!(u.idle.as_secs() > u.up.as_secs());
}

#[test]
fn uptime_errors() {
    assert_eq!(Uptime::from_str("1640919 2328903.47").err().unwrap().kind, ErrorKind::Decode);
    assert_eq!(Uptime::from_str("a.1 2.3").err().unwrap().kind, ErrorKind::Decode);
    assert_eq!(Uptime::from_str("1.1 2.3 4").err().unwrap().kind, ErrorKind::Decode);
    assert_eq!(Uptime::from_str("1. 2.3").err().unwrap().kind, ErrorKind::Decode);
    assert_eq!(
        Uptime::from_str("1.1234567891 2.3").err().unwrap().kind,
        ErrorKind::Invariant
    );
    assert_eq!(Uptime::from_reader("").err().unwrap().kind, ErrorKind::EndOfStream);
}

#[test]
fn stat_fields() {
    let st = Stat::from_reader(STAT).unwrap();
    assert_eq!(st.cpus.len(), 4);
    assert_eq!(st.cpu_totals.user, 17501);
    assert_eq!(st.cpu_totals.guest, 0);
    assert_eq!(st.cpus[2].nice, 1);
    assert_eq!(st.cpus[3].softirq, 100);
    assert_eq!(st.context_switches, 2238717);
    assert_eq!(st.boot_time, 1535128607);
    assert_eq!(st.processes, 2453);
    assert_eq!(st.procs_running, 1);
    assert_eq!(st.procs_blocked, 0);
}

#[test]
fn stat_truncated_before_procs_blocked() {
    let cut = STAT.find("procs_blocked").unwrap();
    let err = Stat::from_reader(&STAT[..cut]).err().unwrap();
    assert_eq!(err.kind, ErrorKind::EndOfStream);
}

#[test]
fn stat_out_of_order_or_mislabelled() {
    let swapped = "cpu 1 2 3 4 5 6 7 8 9\nctxt 1\nprocesses 3\nbtime 2\nprocs_running 4\nprocs_blocked 5\n";
    assert_eq!(Stat::from_reader(swapped).err().unwrap().kind, ErrorKind::Decode);
    let trailing = "cpu 1 2 3 4 5 6 7 8 9\nctxt 1 x\nbtime 2\nprocesses 3\nprocs_running 4\nprocs_blocked 5\n";
    assert_eq!(Stat::from_reader(trailing).err().unwrap().kind, ErrorKind::Decode);
    let not_cpu = "ctxt 1\nbtime 2\nprocesses 3\nprocs_running 4\nprocs_blocked 5\n";
    assert_eq!(Stat::from_reader(not_cpu).err().unwrap().kind, ErrorKind::Decode);
    assert_eq!(Stat::from_reader("").err().unwrap().kind, ErrorKind::EndOfStream);
}

#[test]
fn stat_without_other_lines() {
    let plain = "cpu 1 2 3 4 5 6 7 8 9\nctxt 1\nbtime 2\nprocesses 3\nprocs_running 4\nprocs_blocked 5";
    let st = Stat::from_reader(plain).unwrap();
    assert_eq!(st.cpus.len(), 0);
    assert_eq!(st.procs_blocked, 5);
}

#[test]
fn cpu_line_total() {
    let c = StatCpu::from_str("cpu3 1 2 3 4 5 6 7 8 9\n").unwrap();
    assert_eq!(c.total(), Some(45));
    assert_eq!(c.guest, 9);
    assert!(StatCpu::from_str("cpx 1 2 3 4 5 6 7 8 9").is_none());
    assert!(StatCpu::from_str("cpu 1 2 3 4 5 6 7 8").is_none());
    let big = StatCpu { user: u64::MAX, nice: 1, ..c };
    assert_eq!(big.total(), None);
}

#[test]
fn line_parser_peeks_and_consumes() {
    let mut lines = LineParser::new("a\nbc\nd");
    assert_eq!(lines.peek_line(), Some("a\n"));
    assert_eq!(lines.peek_line(), Some("a\n"));
    lines.consume_line();
    assert_eq!(lines.read_line(), Some("bc\n"));
    assert_eq!(lines.read_line(), Some("d"));
    assert!(lines.is_at_end());
    assert_eq!(lines.read_line(), None);
}

#[test]
fn durations() {
    let d = Duration::from_millis(1_234);
    assert_eq!(d.as_secs(), 1);
    assert_eq!(d.subsec_nanos(), 234_000_000);
    let e = Error::new(ErrorKind::Decode, "x");
    assert_eq!(e.message, "x");
    assert_eq!(Error::io(String::from("gone")).kind, ErrorKind::Io);
}

#[test]
fn line_parser_keeps_a_line_that_does_not_decode() {
    let mut lines = LineParser::new("cpu0 1 2 3 4 5 6 7 8 9\nctxt 5\n");
    let c = lines.parse_line(|l| StatCpu::from_str(l)).unwrap();
    assert_eq!(c.user, 1);
    let err = lines.parse_line(|l| StatCpu::from_str(l)).err().unwrap();
    assert_eq!(err.kind, ErrorKind::Decode);
    assert_eq!(lines.peek_line(), Some("ctxt 5\n"));
    lines.consume_line();
    let err = lines.parse_line(|l| StatCpu::from_str(l)).err().unwrap();
    assert_eq!(err.kind, ErrorKind::EndOfStream);
}

#[test]
fn stat_malformed_core_line_is_an_error() {
    let text = "cpu 1 2 3 4 5 6 7 8 9\ncpu0 1 2 3 4 5 6 7 8 9\ncpu1 1 2\ncpu2 1 2 3 4 5 6 7 8 9\nintr 5\nctxt 1\nbtime 2\nprocesses 3\nprocs_running 4\nprocs_blocked 5\n";
    let err = Stat::from_reader(text).err().unwrap();
    assert_eq!(err.kind, ErrorKind::Decode);
    assert_eq!(err.message, "cpu");
}

#[test]
fn stat_errors_name_the_field() {
    let cut = STAT.find("procs_blocked").unwrap();
    assert_eq!(Stat::from_reader(&STAT[..cut]).err().unwrap().message, "procs_blocked");
    let swapped = "cpu 1 2 3 4 5 6 7 8 9\nctxt 1\nprocesses 3\nbtime 2\nprocs_running 4\nprocs_blocked 5\n";
    assert_eq!(Stat::from_reader(swapped).err().unwrap().message, "btime");
    let bad_totals = "cpu 1 2\nctxt 1\n";
    let err = Stat::from_reader(bad_totals).err().unwrap();
    assert_eq!(err.kind, ErrorKind::Decode);
    assert_eq!(err.message, "cpu");
}

#[test]
fn diskstats_message_names_first_bad_field() {
    assert_eq!(DiskStat::from_str("").err().unwrap().message, "major number");
    assert_eq!(DiskStat::from_str("8 0\n").err().unwrap().message, "device name");
    assert_eq!(
        DiskStat::from_str("8 0 sda 1 2 x").err().unwrap().message,
        "sectors read"
    );
}

#[test]
fn diskstats_get_finds_the_one_record() {
    let stats = DiskStats::from_reader(DISKSTATS).unwrap();
    assert_eq!(stats.get("sdc1").unwrap().minor, 33);
    let names: Vec<&str> = stats.iter().iter().map(|d| d.name.as_str()).collect();
    for (i, a) in names.iter().enumerate() {
        for b in &names[i + 1..] {
            assert_ne!(a, b);
        }
    }
    assert_eq!(stats.into_vec().len(), 12);
}

#[test]
fn uptime_idle_may_exceed_up() {
    let u = Uptime::from_str("1.0 5.0").unwrap();
    assert_eq!(u.up, Duration::new(1, 0));
    assert_eq!(u.idle, Duration::new(5, 0));
}
