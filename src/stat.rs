//! CPU time counters and process counters, as in `/proc/stat`.

use vstd::prelude::*;

use crate::lines::{after_line, first_line, lemma_line_progress, LineParser};
use crate::util::{
    consume_space, parse_token, parse_u64, parse_u64s, skip_space, str_eq, token_spec, u64_spec,
    u64s_spec,
};
use crate::{Error, ErrorKind};

verus! {

/// Time spent by a CPU, or by all of them together, in each of its states since boot.
/// The unit is the kernel's and only means something as a share of the total.
#[derive(Debug, Copy, Clone, PartialEq, Eq, Structural, Hash)]
pub struct StatCpu {
    pub user: u64,
    pub nice: u64,
    pub system: u64,
    pub idle: u64,
    pub iowait: u64,
    pub irq: u64,
    pub softirq: u64,
    pub steal: u64,
    pub guest: u64,
}

/// The sum of a sequence of counters.
pub open spec fn sum(v: Seq<u64>) -> int
    decreases v.len(),
{
    if v.len() == 0 {
        0
    } else {
        sum(v.drop_last()) + v.last()
    }
}

/// Whether a token names a CPU line: it starts with `cpu`.
pub open spec fn is_cpu_label(tok: Seq<char>) -> bool {
    tok.len() >= 3 && tok.take(3) == "cpu"@
}

/// The nine counters of a CPU line: a token that starts with `cpu`, then nine numbers.
/// Columns after the ninth are ignored.
pub open spec fn cpu_line_spec(s: Seq<char>) -> Option<Seq<u64>> {
    match token_spec(s) {
        None => None,
        Some((r, tok)) => if is_cpu_label(tok) {
            match u64s_spec(r, 9) {
                None => None,
                Some((_, v)) => Some(v),
            }
        } else {
            None
        },
    }
}

impl StatCpu {
    /// The nine counters, in the order of the line.
    pub open spec fn counters(&self) -> Seq<u64> {
        seq![
            self.user,
            self.nice,
            self.system,
            self.idle,
            self.iowait,
            self.irq,
            self.softirq,
            self.steal,
            self.guest,
        ]
    }

    /// The sum of the nine counters.
    pub open spec fn total_spec(&self) -> int {
        self.user + self.nice + self.system + self.idle + self.iowait + self.irq + self.softirq
            + self.steal + self.guest
    }

    /// Decodes a CPU line; `None` if it is not one.
    pub fn from_str(input: &str) -> (r: Option<StatCpu>)
        ensures
            match r {
                Some(c) => cpu_line_spec(input@) == Some(c.counters()),
                None => cpu_line_spec(input@) is None,
            },
    {
        let (rest, tok) = parse_token(input)?;
        if tok.unicode_len() < 3 {
            return None;
        }
        if !str_eq(tok.substring_char(0, 3), "cpu") {
            return None;
        }
        let (_rest, v) = match parse_u64s(rest, 9) {
            Ok(p) => p,
            Err(_) => {
                return None;
            },
        };
        let c = StatCpu {
            user: v[0],
            nice: v[1],
            system: v[2],
            idle: v[3],
            iowait: v[4],
            irq: v[5],
            softirq: v[6],
            steal: v[7],
            guest: v[8],
        };
        assert(c.counters() =~= v@);
        Some(c)
    }

    /// The sum of the nine counters; `None` if it does not fit in a `u64`.
    pub fn total(&self) -> (r: Option<u64>)
        ensures
            r == (if self.total_spec() <= u64::MAX {
                Some(self.total_spec() as u64)
            } else {
                None::<u64>
            }),
    {
        let s: u128 = self.user as u128 + self.nice as u128 + self.system as u128
            + self.idle as u128 + self.iowait as u128 + self.irq as u128 + self.softirq as u128
            + self.steal as u128 + self.guest as u128;
        if s <= u64::MAX as u128 {
            Some(s as u64)
        } else {
            None
        }
    }
}

/// Decoding a CPU line and summing the counters of the record gives the sum of the nine
/// numbers on the line.
pub proof fn lemma_total_of_cpu_line(s: Seq<char>, c: StatCpu)
    requires
        cpu_line_spec(s) == Some(c.counters()),
    ensures
        cpu_line_spec(s)->0.len() == 9,
        c.total_spec() == sum(cpu_line_spec(s)->0),
{
    let v = c.counters();
    reveal_with_fuel(sum, 10);
    assert(v.drop_last().drop_last().drop_last().drop_last().drop_last().drop_last().drop_last().drop_last().drop_last() =~= Seq::<u64>::empty());
}

/// Whether a line is a CPU line by its label: its first token starts with `cpu`. Its
/// counters may still fail to decode.
pub open spec fn is_cpu_line(line: Seq<char>) -> bool {
    match token_spec(line) {
        Some((_, tok)) => is_cpu_label(tok),
        None => false,
    }
}

/// A decoding failure of the stat text: its kind and the name of the field it was reading.
pub open spec fn fail<T>(kind: ErrorKind, field: Seq<char>) -> Result<T, (ErrorKind, Seq<char>)> {
    Err((kind, field))
}

/// The per-core lines at the start of `s`, after those already in `acc`, and the text that
/// follows them. The section ends at the first line whose label does not start with
/// `cpu`; a line whose label does but whose counters do not decode is a decode error.
pub open spec fn cpu_lines_from(s: Seq<char>, acc: Seq<Seq<u64>>) -> Result<
    (Seq<Seq<u64>>, Seq<char>),
    (ErrorKind, Seq<char>),
>
    decreases s.len(),
    via cpu_lines_from_decreases
{
    if s.len() > 0 && is_cpu_line(first_line(s)) {
        match cpu_line_spec(first_line(s)) {
            None => fail(ErrorKind::Decode, "cpu"@),
            Some(v) => cpu_lines_from(after_line(s), acc.push(v)),
        }
    } else {
        Ok((acc, s))
    }
}

#[via_fn]
proof fn cpu_lines_from_decreases(s: Seq<char>, acc: Seq<Seq<u64>>) {
    if s.len() > 0 {
        lemma_line_progress(s);
    }
}

/// The first token of a line, or nothing.
pub open spec fn label_of(line: Seq<char>) -> Seq<char> {
    match token_spec(line) {
        Some((_, tok)) => tok,
        None => Seq::empty(),
    }
}

/// `s` from its first line whose label is `label`, or the empty text if none is.
pub open spec fn skip_to_label(s: Seq<char>, label: Seq<char>) -> Seq<char>
    decreases s.len(),
    via skip_to_label_decreases
{
    if s.len() == 0 || label_of(first_line(s)) == label {
        s
    } else {
        skip_to_label(after_line(s), label)
    }
}

#[via_fn]
proof fn skip_to_label_decreases(s: Seq<char>, label: Seq<char>) {
    if s.len() > 0 {
        lemma_line_progress(s);
    }
}

/// The value of a line that holds `label`, one number, and nothing more.
pub open spec fn scalar_line_spec(line: Seq<char>, label: Seq<char>) -> Option<u64> {
    match token_spec(line) {
        None => None,
        Some((r, tok)) => if tok != label {
            None
        } else {
            match u64_spec(r) {
                None => None,
                Some((t, v)) => if skip_space(t).len() == 0 {
                    Some(v)
                } else {
                    None
                },
            }
        },
    }
}

/// The value of the first line of `s` as a line of `label`, and the text after it. A
/// failure names `label`.
pub open spec fn scalar_at(s: Seq<char>, label: Seq<char>) -> Result<
    (u64, Seq<char>),
    (ErrorKind, Seq<char>),
> {
    if s.len() == 0 {
        fail(ErrorKind::EndOfStream, label)
    } else {
        match scalar_line_spec(first_line(s), label) {
            None => fail(ErrorKind::Decode, label),
            Some(v) => Ok((v, after_line(s))),
        }
    }
}

/// What a [`Stat`] holds, with each CPU as its nine counters.
pub struct StatModel {
    pub cpu_totals: Seq<u64>,
    pub cpus: Seq<Seq<u64>>,
    pub context_switches: u64,
    pub boot_time: u64,
    pub processes: u64,
    pub procs_running: u64,
    pub procs_blocked: u64,
}

/// The decoding of a whole text: the aggregate CPU line, the per-core CPU lines that
/// follow it, any lines after them up to the one labelled `ctxt`, then the lines `ctxt`, `btime`,
/// `processes`, `procs_running` and `procs_blocked`, in that order. Lines after those are
/// ignored. A failure names the field it was reading: `cpu` for a CPU line, or the label
/// of the line it expected.
pub open spec fn stat_spec(s: Seq<char>) -> Result<StatModel, (ErrorKind, Seq<char>)> {
    if s.len() == 0 {
        fail(ErrorKind::EndOfStream, "cpu"@)
    } else {
        match cpu_line_spec(first_line(s)) {
            None => fail(ErrorKind::Decode, "cpu"@),
            Some(totals) => match cpu_lines_from(after_line(s), Seq::empty()) {
                Err(e) => Err(e),
                Ok((cpus, r1)) => {
                    let r2 = skip_to_label(r1, "ctxt"@);
                    match scalar_at(r2, "ctxt"@) {
                        Err(e) => Err(e),
                        Ok((ctxt, r3)) => match scalar_at(r3, "btime"@) {
                            Err(e) => Err(e),
                            Ok((btime, r4)) => match scalar_at(r4, "processes"@) {
                                Err(e) => Err(e),
                                Ok((processes, r5)) => match scalar_at(r5, "procs_running"@) {
                                    Err(e) => Err(e),
                                    Ok((running, r6)) => match scalar_at(r6, "procs_blocked"@) {
                                        Err(e) => Err(e),
                                        Ok((blocked, _)) => Ok(
                                            StatModel {
                                                cpu_totals: totals,
                                                cpus,
                                                context_switches: ctxt,
                                                boot_time: btime,
                                                processes,
                                                procs_running: running,
                                                procs_blocked: blocked,
                                            },
                                        ),
                                    },
                                },
                            },
                        },
                    }
                },
            },
        }
    }
}

/// Whether some line of `s` is labelled `label`.
pub open spec fn has_line_labelled(s: Seq<char>, label: Seq<char>) -> bool
    decreases s.len(),
    via has_line_labelled_decreases
{
    s.len() > 0 && (label_of(first_line(s)) == label || has_line_labelled(after_line(s), label))
}

#[via_fn]
proof fn has_line_labelled_decreases(s: Seq<char>, label: Seq<char>) {
    if s.len() > 0 {
        lemma_line_progress(s);
    }
}

proof fn lemma_cpu_lines_keep_labels(s: Seq<char>, acc: Seq<Seq<u64>>, label: Seq<char>)
    requires
        cpu_lines_from(s, acc) is Ok,
        has_line_labelled(cpu_lines_from(s, acc)->Ok_0.1, label),
    ensures
        has_line_labelled(s, label),
    decreases s.len(),
{
    if s.len() > 0 && is_cpu_line(first_line(s)) {
        lemma_line_progress(s);
        lemma_cpu_lines_keep_labels(after_line(s), acc.push(cpu_line_spec(first_line(s))->0), label);
    }
}

proof fn lemma_skip_keeps_labels(s: Seq<char>, target: Seq<char>, label: Seq<char>)
    requires
        has_line_labelled(skip_to_label(s, target), label),
    ensures
        has_line_labelled(s, label),
    decreases s.len(),
{
    if !(s.len() == 0 || label_of(first_line(s)) == target) {
        lemma_line_progress(s);
        lemma_skip_keeps_labels(after_line(s), target, label);
    }
}

proof fn lemma_scalar_keeps_labels(s: Seq<char>, target: Seq<char>, label: Seq<char>)
    requires
        scalar_at(s, target) is Ok,
        has_line_labelled(scalar_at(s, target)->Ok_0.1, label) || target == label,
    ensures
        has_line_labelled(s, label),
{
}

/// A text with no line labelled `procs_blocked`, such as one cut before that line, does
/// not decode: no partly filled record comes out of it.
pub proof fn lemma_stat_needs_procs_blocked(s: Seq<char>)
    requires
        !has_line_labelled(s, "procs_blocked"@),
    ensures
        stat_spec(s) is Err,
{
    let l = "procs_blocked"@;
    if stat_spec(s) is Ok {
        lemma_line_progress(s);
        let (cpus, r1) = cpu_lines_from(after_line(s), Seq::empty())->Ok_0;
        let r2 = skip_to_label(r1, "ctxt"@);
        let r3 = scalar_at(r2, "ctxt"@)->Ok_0.1;
        let r4 = scalar_at(r3, "btime"@)->Ok_0.1;
        let r5 = scalar_at(r4, "processes"@)->Ok_0.1;
        let r6 = scalar_at(r5, "procs_running"@)->Ok_0.1;
        lemma_scalar_keeps_labels(r6, l, l);
        lemma_scalar_keeps_labels(r5, "procs_running"@, l);
        lemma_scalar_keeps_labels(r4, "processes"@, l);
        lemma_scalar_keeps_labels(r3, "btime"@, l);
        lemma_scalar_keeps_labels(r2, "ctxt"@, l);
        lemma_skip_keeps_labels(r1, "ctxt"@, l);
        lemma_cpu_lines_keep_labels(after_line(s), Seq::empty(), l);
    }
}

/// The stats of `/proc/stat`.
#[derive(Debug, Clone)]
pub struct Stat {
    /// Total stats, sum of all cpus.
    pub cpu_totals: StatCpu,
    /// For each cpu, in the order of the file, the time spent in each state.
    pub cpus: Vec<StatCpu>,
    /// Number of context switches since the system booted.
    pub context_switches: u64,
    /// Timestamp (in seconds since epoch) that system booted.
    pub boot_time: u64,
    /// The total number of processes and threads created since system booted.
    pub processes: u64,
    /// The total number of processes running on the cpu.
    pub procs_running: u64,
    /// The total number of processes waiting to run on the cpu.
    pub procs_blocked: u64,
}

/// The counters of each CPU of a sequence.
pub open spec fn counters_of(cpus: Seq<StatCpu>) -> Seq<Seq<u64>> {
    cpus.map_values(|c: StatCpu| c.counters())
}

impl View for Stat {
    type V = StatModel;

    open spec fn view(&self) -> StatModel {
        StatModel {
            cpu_totals: self.cpu_totals.counters(),
            cpus: counters_of(self.cpus@),
            context_switches: self.context_switches,
            boot_time: self.boot_time,
            processes: self.processes,
            procs_running: self.procs_running,
            procs_blocked: self.procs_blocked,
        }
    }
}

/// Whether the first token of `line` is `label`.
fn has_label(line: &str, label: &str) -> (r: bool)
    ensures
        r == (label_of(line@) == label@),
{
    match parse_token(line) {
        Some((_, tok)) => str_eq(tok, label),
        None => {
            assert(label_of(line@) == Seq::<char>::empty());
            assert(label@.len() == 0 ==> label@ =~= Seq::<char>::empty());
            label.is_empty()
        },
    }
}

/// Whether the first token of `line` starts with `cpu`.
fn is_cpu_line_exec(line: &str) -> (r: bool)
    ensures
        r == is_cpu_line(line@),
{
    match parse_token(line) {
        Some((_, tok)) => tok.unicode_len() >= 3 && str_eq(tok.substring_char(0, 3), "cpu"),
        None => false,
    }
}

/// Reads the next line as `label` followed by one number. A failure names `label`.
fn read_scalar(lines: &mut LineParser, label: &str) -> (r: Result<u64, Error>)
    ensures
        match r {
            Ok(v) => scalar_at(old(lines)@, label@) == Ok::<
                (u64, Seq<char>),
                (ErrorKind, Seq<char>),
            >((v, final(lines)@)),
            Err(e) => scalar_at(old(lines)@, label@) == fail::<(u64, Seq<char>)>(
                e.kind,
                e.message@,
            ),
        },
{
    let line = match lines.read_line() {
        Some(l) => l,
        None => {
            return Err(Error::new(ErrorKind::EndOfStream, label));
        },
    };
    let (rest, tok) = match parse_token(line) {
        Some(p) => p,
        None => {
            return Err(Error::new(ErrorKind::Decode, label));
        },
    };
    if !str_eq(tok, label) {
        return Err(Error::new(ErrorKind::Decode, label));
    }
    let (rest, value) = match parse_u64(rest) {
        Some(p) => p,
        None => {
            return Err(Error::new(ErrorKind::Decode, label));
        },
    };
    if consume_space(rest).unicode_len() != 0 {
        return Err(Error::new(ErrorKind::Decode, label));
    }
    Ok(value)
}

impl Stat {
    /// Decodes a whole text: see [`stat_spec`]. An error's message is the name of the
    /// field that failed.
    pub fn from_reader(input: &str) -> (r: Result<Stat, Error>)
        ensures
            match r {
                Ok(st) => stat_spec(input@) == Ok::<StatModel, (ErrorKind, Seq<char>)>(st@),
                Err(e) => stat_spec(input@) == fail::<StatModel>(e.kind, e.message@),
            },
    {
        let mut lines = LineParser::new(input);
        let first = match lines.read_line() {
            Some(l) => l,
            None => {
                return Err(Error::new(ErrorKind::EndOfStream, "cpu"));
            },
        };
        let cpu_totals = match StatCpu::from_str(first) {
            Some(c) => c,
            None => {
                return Err(Error::new(ErrorKind::Decode, "cpu"));
            },
        };
        let ghost after_totals = lines@;
        let mut cpus: Vec<StatCpu> = Vec::new();
        assert(counters_of(cpus@) =~= Seq::<Seq<u64>>::empty());
        loop
            invariant
                input@.len() > 0,
                cpu_line_spec(first_line(input@)) == Some(cpu_totals.counters()),
                after_line(input@) == after_totals,
                cpu_lines_from(after_totals, Seq::empty()) == cpu_lines_from(
                    lines@,
                    counters_of(cpus@),
                ),
            ensures
                cpu_lines_from(after_totals, Seq::empty()) == Ok::<
                    (Seq<Seq<u64>>, Seq<char>),
                    (ErrorKind, Seq<char>),
                >((counters_of(cpus@), lines@)),
            decreases lines@.len(),
        {
            let ghost before = lines@;
            match lines.peek_line() {
                None => {
                    break;
                },
                Some(line) => match StatCpu::from_str(line) {
                    None => {
                        if is_cpu_line_exec(line) {
                            assert(cpu_lines_from(lines@, counters_of(cpus@)) == fail::<
                                (Seq<Seq<u64>>, Seq<char>),
                            >(ErrorKind::Decode, "cpu"@));
                            return Err(Error::new(ErrorKind::Decode, "cpu"));
                        }
                        break;
                    },
                    Some(c) => {
                        proof {
                            lemma_line_progress(before);
                        }
                        let ghost prev = cpus@;
                        cpus.push(c);
                        assert(counters_of(cpus@) =~= counters_of(prev).push(c.counters()));
                        lines.consume_line();
                    },
                },
            }
        }
        let ghost after_cpus = lines@;
        loop
            invariant
                skip_to_label(after_cpus, "ctxt"@) == skip_to_label(lines@, "ctxt"@),
            ensures
                skip_to_label(after_cpus, "ctxt"@) == lines@,
            decreases lines@.len(),
        {
            let ghost before = lines@;
            match lines.peek_line() {
                None => {
                    break;
                },
                Some(line) => {
                    if has_label(line, "ctxt") {
                        break;
                    }
                    proof {
                        lemma_line_progress(before);
                    }
                    lines.consume_line();
                },
            }
        }
        let context_switches = read_scalar(&mut lines, "ctxt")?;
        let boot_time = read_scalar(&mut lines, "btime")?;
        let processes = read_scalar(&mut lines, "processes")?;
        let procs_running = read_scalar(&mut lines, "procs_running")?;
        let procs_blocked = read_scalar(&mut lines, "procs_blocked")?;
        Ok(Stat {
            cpu_totals,
            cpus,
            context_switches,
            boot_time,
            processes,
            procs_running,
            procs_blocked,
        })
    }
}

} // verus!
