//! Per-device I/O counters, one line per device, as in `/proc/diskstats`.

use vstd::prelude::*;

use crate::lines::{after_line, first_line, lemma_line_progress, LineParser};
use crate::time::{Duration, NANOS_PER_MILLI};
use crate::util::{parse_token, parse_u64s, str_eq, token_spec, u64s_read, u64s_spec};
use crate::{Error, ErrorKind};

verus! {

/// The counters of one device.
#[derive(Debug, Clone)]
pub struct DiskStat {
    pub major: u64,
    pub minor: u64,
    pub name: String,
    pub reads_completed: u64,
    pub reads_merged: u64,
    pub sectors_read: u64,
    pub time_reading: Duration,
    pub writes_completed: u64,
    pub writes_merged: u64,
    pub sectors_written: u64,
    pub time_writing: Duration,
    pub io_in_progress: u64,
    pub time_io: Duration,
    pub time_io_weighted: Duration,
}

/// How many counters follow the device name on a line.
pub const COUNTERS_AFTER_NAME: usize = 11;

/// The device name of a line and its thirteen numbers in order: major, minor, then the
/// eleven counters after the name. Columns after those are ignored.
pub open spec fn disk_line_spec(s: Seq<char>) -> Option<(Seq<char>, Seq<u64>)> {
    match u64s_spec(s, 2) {
        None => None,
        Some((r1, a)) => match token_spec(r1) {
            None => None,
            Some((r2, name)) => match u64s_spec(r2, 11) {
                None => None,
                Some((_, b)) => Some((name, a + b)),
            },
        },
    }
}

/// The name of the field at position `i` of a line: the numbers before the device name,
/// the name, then the counters after it.
pub open spec fn field_label(i: int) -> Seq<char> {
    if i == 0 {
        "major number"@
    } else if i == 1 {
        "minor number"@
    } else if i == 2 {
        "device name"@
    } else if i == 3 {
        "reads completed successfully"@
    } else if i == 4 {
        "reads merged"@
    } else if i == 5 {
        "sectors read"@
    } else if i == 6 {
        "time spent reading (ms)"@
    } else if i == 7 {
        "writes completed successfully"@
    } else if i == 8 {
        "writes merged"@
    } else if i == 9 {
        "sectors written"@
    } else if i == 10 {
        "time spent writing (ms)"@
    } else if i == 11 {
        "I/Os currently in progress"@
    } else if i == 12 {
        "time spent doing I/Os (ms)"@
    } else {
        "weighted time spent doing I/Os (ms)"@
    }
}

/// The position of the first field of a line that is missing or malformed.
pub open spec fn failed_field(s: Seq<char>) -> int {
    match u64s_spec(s, 2) {
        None => u64s_read(s, 2) as int,
        Some((r1, _)) => match token_spec(r1) {
            None => 2,
            Some((r2, _)) => 3 + u64s_read(r2, 11) as int,
        },
    }
}

impl DiskStat {
    /// This record holds `name` and the thirteen numbers `v` of a line, the times read
    /// as milliseconds.
    pub open spec fn models(&self, name: Seq<char>, v: Seq<u64>) -> bool {
        &&& v.len() == 13
        &&& self.name@ == name
        &&& self.major == v[0]
        &&& self.minor == v[1]
        &&& self.reads_completed == v[2]
        &&& self.reads_merged == v[3]
        &&& self.sectors_read == v[4]
        &&& self.time_reading@ == v[5] * NANOS_PER_MILLI
        &&& self.writes_completed == v[6]
        &&& self.writes_merged == v[7]
        &&& self.sectors_written == v[8]
        &&& self.time_writing@ == v[9] * NANOS_PER_MILLI
        &&& self.io_in_progress == v[10]
        &&& self.time_io@ == v[11] * NANOS_PER_MILLI
        &&& self.time_io_weighted@ == v[12] * NANOS_PER_MILLI
    }

    /// Decodes one line: major, minor, device name, then eleven counters. Extra columns
    /// are left unread. A missing or malformed field is a decode error that names it.
    pub fn from_str(input: &str) -> (r: Result<DiskStat, Error>)
        ensures
            match r {
                Ok(d) => match disk_line_spec(input@) {
                    Some((name, v)) => d.models(name, v),
                    None => false,
                },
                Err(e) => {
                    &&& disk_line_spec(input@) is None
                    &&& e.kind == ErrorKind::Decode
                    &&& e.message@ == field_label(failed_field(input@))
                },
            },
    {
        let (rest, head) = match parse_u64s(input, 2) {
            Ok(p) => p,
            Err(i) => {
                return Err(Error::new(ErrorKind::Decode, field_name(i)));
            },
        };
        let (rest, name) = match parse_token(rest) {
            Some(p) => p,
            None => {
                return Err(Error::new(ErrorKind::Decode, field_name(2)));
            },
        };
        let (_rest, v) = match parse_u64s(rest, COUNTERS_AFTER_NAME) {
            Ok(p) => p,
            Err(i) => {
                return Err(Error::new(ErrorKind::Decode, field_name(i + 3)));
            },
        };
        let ghost all = head@ + v@;
        assert(all[5] == v@[3] && all[9] == v@[7] && all[11] == v@[9] && all[12] == v@[10]);
        Ok(DiskStat {
            major: head[0],
            minor: head[1],
            name: name.to_owned(),
            reads_completed: v[0],
            reads_merged: v[1],
            sectors_read: v[2],
            time_reading: Duration::from_millis(v[3]),
            writes_completed: v[4],
            writes_merged: v[5],
            sectors_written: v[6],
            time_writing: Duration::from_millis(v[7]),
            io_in_progress: v[8],
            time_io: Duration::from_millis(v[9]),
            time_io_weighted: Duration::from_millis(v[10]),
        })
    }
}

/// Whether `acc` already holds a device called `name`.
pub open spec fn has_name(acc: Seq<(Seq<char>, Seq<u64>)>, name: Seq<char>) -> bool {
    exists|j: int| 0 <= j < acc.len() && (#[trigger] acc[j]).0 == name
}

/// The devices of the lines of `s`, after those already in `acc`: a line that does not
/// decode is a decode error, and a name seen before is an invariant violation.
pub open spec fn disks_from(
    s: Seq<char>,
    acc: Seq<(Seq<char>, Seq<u64>)>,
) -> Result<Seq<(Seq<char>, Seq<u64>)>, ErrorKind>
    decreases s.len(),
    via disks_from_decreases
{
    if s.len() == 0 {
        Ok(acc)
    } else {
        match disk_line_spec(first_line(s)) {
            None => Err(ErrorKind::Decode),
            Some((name, v)) => if has_name(acc, name) {
                Err(ErrorKind::Invariant)
            } else {
                disks_from(after_line(s), acc.push((name, v)))
            },
        }
    }
}

#[via_fn]
proof fn disks_from_decreases(s: Seq<char>, acc: Seq<(Seq<char>, Seq<u64>)>) {
    if s.len() > 0 {
        lemma_line_progress(s);
    }
}

/// The devices of a whole text, in the order of its lines.
pub open spec fn disks_spec(s: Seq<char>) -> Result<Seq<(Seq<char>, Seq<u64>)>, ErrorKind> {
    disks_from(s, Seq::empty())
}

/// No two devices share a name.
pub open spec fn names_distinct(m: Seq<(Seq<char>, Seq<u64>)>) -> bool {
    forall|i: int, j: int| 0 <= i < j < m.len() ==> (#[trigger] m[i]).0 != (#[trigger] m[j]).0
}

proof fn lemma_disks_from_distinct(s: Seq<char>, acc: Seq<(Seq<char>, Seq<u64>)>)
    requires
        names_distinct(acc),
    ensures
        match disks_from(s, acc) {
            Ok(m) => names_distinct(m),
            Err(_) => true,
        },
    decreases s.len(),
{
    if s.len() > 0 {
        lemma_line_progress(s);
        match disk_line_spec(first_line(s)) {
            Some((name, v)) => {
                if !has_name(acc, name) {
                    let a2 = acc.push((name, v));
                    assert forall|i: int, j: int| 0 <= i < j < a2.len() implies (#[trigger] a2[i]).0
                        != (#[trigger] a2[j]).0 by {
                        if j == acc.len() {
                            assert(acc[i] == a2[i]);
                        } else {
                            assert(acc[i] == a2[i] && acc[j] == a2[j]);
                        }
                    }
                    lemma_disks_from_distinct(after_line(s), a2);
                }
            },
            None => {},
        }
    }
}

/// A text that decodes gives each device name once.
pub proof fn lemma_device_names_unique(s: Seq<char>)
    ensures
        match disks_spec(s) {
            Ok(m) => names_distinct(m),
            Err(_) => true,
        },
{
    lemma_disks_from_distinct(s, Seq::empty());
}

/// Each record holds the name and numbers at its position.
pub open spec fn models_all(ds: Seq<DiskStat>, m: Seq<(Seq<char>, Seq<u64>)>) -> bool {
    &&& ds.len() == m.len()
    &&& forall|j: int| 0 <= j < ds.len() ==> (#[trigger] ds[j]).models(m[j].0, m[j].1)
}

/// The counters of every device, with each device name present once.
pub struct DiskStats {
    inner: Vec<DiskStat>,
}

impl View for DiskStats {
    type V = Seq<DiskStat>;

    closed spec fn view(&self) -> Seq<DiskStat> {
        self.inner@
    }
}

fn contains_name(v: &Vec<DiskStat>, name: &String) -> (r: bool)
    ensures
        r == exists|j: int| 0 <= j < v@.len() && (#[trigger] v@[j]).name@ == name@,
{
    let mut j: usize = 0;
    while j < v.len()
        invariant
            j <= v@.len(),
            forall|k: int| 0 <= k < j ==> (#[trigger] v@[k]).name@ != name@,
        decreases v@.len() - j,
    {
        if v[j].name == *name {
            return true;
        }
        j = j + 1;
    }
    false
}

/// No two records share a device name.
pub open spec fn distinct_names(ds: Seq<DiskStat>) -> bool {
    forall|i: int, j: int|
        0 <= i < j < ds.len() ==> (#[trigger] ds[i]).name@ != (#[trigger] ds[j]).name@
}

impl DiskStats {
    #[verifier::type_invariant]
    spec fn wf(&self) -> bool {
        distinct_names(self.inner@)
    }

    /// Decodes a whole text, one device per line, in the order of the lines. Fails on the
    /// first line that does not decode, and on a device name that comes twice.
    pub fn from_reader(input: &str) -> (r: Result<DiskStats, Error>)
        ensures
            match r {
                Ok(ds) => distinct_names(ds@) && match disks_spec(input@) {
                    Ok(m) => models_all(ds@, m),
                    Err(_) => false,
                },
                Err(e) => disks_spec(input@) == Err::<Seq<(Seq<char>, Seq<u64>)>, ErrorKind>(
                    e.kind,
                ),
            },
    {
        let mut lines = LineParser::new(input);
        let mut inner: Vec<DiskStat> = Vec::new();
        let ghost mut acc: Seq<(Seq<char>, Seq<u64>)> = Seq::empty();
        loop
            invariant
                disks_spec(input@) == disks_from(lines@, acc),
                models_all(inner@, acc),
                distinct_names(inner@),
            decreases lines@.len(),
        {
            let ghost before = lines@;
            match lines.read_line() {
                None => {
                    return Ok(DiskStats { inner });
                },
                Some(line) => {
                    proof {
                        lemma_line_progress(before);
                    }
                    let d = match DiskStat::from_str(line) {
                        Ok(d) => d,
                        Err(e) => {
                            return Err(e);
                        },
                    };
                    let ghost entry = disk_line_spec(line@)->0;
                    if contains_name(&inner, &d.name) {
                        proof {
                            let j = choose|j: int|
                                0 <= j < inner@.len() && (#[trigger] inner@[j]).name@ == d.name@;
                            assert(inner@[j].models(acc[j].0, acc[j].1));
                            assert(has_name(acc, entry.0));
                        }
                        return Err(Error::new(ErrorKind::Invariant, "duplicate device name"));
                    }
                    proof {
                        if has_name(acc, entry.0) {
                            let j = choose|j: int| 0 <= j < acc.len() && (#[trigger] acc[j]).0 == entry.0;
                            assert(inner@[j].models(acc[j].0, acc[j].1));
                        }
                        acc = acc.push(entry);
                    }
                    let ghost prev = inner@;
                    inner.push(d);
                    proof {
                        assert forall|a: int, b: int| 0 <= a < b < inner@.len() implies (#[trigger] inner@[a]).name@
                            != (#[trigger] inner@[b]).name@ by {
                            assert(inner@[a] == prev[a]);
                            if b < prev.len() {
                                assert(inner@[b] == prev[b]);
                            }
                        }
                        assert forall|j: int| 0 <= j < inner@.len() implies (#[trigger] inner@[j]).models(
                            acc[j].0,
                            acc[j].1,
                        ) by {}
                    }
                },
            }
        }
    }

    /// The records, in the order of the lines they came from.
    pub fn iter(&self) -> (r: &[DiskStat])
        ensures
            r@ == self@,
            distinct_names(r@),
    {
        proof {
            use_type_invariant(self);
        }
        self.inner.as_slice()
    }

    /// The records, taken out.
    pub fn into_vec(self) -> (r: Vec<DiskStat>)
        ensures
            r@ == self@,
            distinct_names(r@),
    {
        proof {
            use_type_invariant(&self);
        }
        self.inner
    }

    /// How many devices there are.
    pub fn len(&self) -> (r: usize)
        ensures
            r == self@.len(),
    {
        self.inner.len()
    }

    /// The record of the device called `name`, if there is one.
    pub fn get(&self, name: &str) -> (r: Option<&DiskStat>)
        ensures
            match r {
                Some(d) => {
                    &&& self@.contains(*d)
                    &&& d.name@ == name@
                    &&& forall|j: int|
                        0 <= j < self@.len() && (#[trigger] self@[j]).name@ == name@ ==> self@[j]
                            == *d
                },
                None => forall|j: int| 0 <= j < self@.len() ==> (#[trigger] self@[j]).name@ != name@,
            },
    {
        proof {
            use_type_invariant(self);
        }
        let mut j: usize = 0;
        while j < self.inner.len()
            invariant
                j <= self@.len(),
                self@ == self.inner@,
                distinct_names(self@),
                forall|k: int| 0 <= k < j ==> (#[trigger] self@[k]).name@ != name@,
            decreases self@.len() - j,
        {
            if str_eq(self.inner[j].name.as_str(), name) {
                return Some(&self.inner[j]);
            }
            j = j + 1;
        }
        None
    }
}

/// What the field at position `i` of a line holds, for error messages.
fn field_name(i: usize) -> (r: &'static str)
    ensures
        r@ == field_label(i as int),
{
    match i {
        0 => "major number",
        1 => "minor number",
        2 => "device name",
        3 => "reads completed successfully",
        4 => "reads merged",
        5 => "sectors read",
        6 => "time spent reading (ms)",
        7 => "writes completed successfully",
        8 => "writes merged",
        9 => "sectors written",
        10 => "time spent writing (ms)",
        11 => "I/Os currently in progress",
        12 => "time spent doing I/Os (ms)",
        _ => "weighted time spent doing I/Os (ms)",
    }
}

} // verus!
