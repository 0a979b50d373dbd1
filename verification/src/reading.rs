//! From what the kernel says of its processes to a snapshot.

use vstd::prelude::*;

use crate::clock::{rfc3339_of, Moment};
use crate::process::{ProcessInfo, ProcessView};
use crate::snapshot::{ProcessSnapshot, Processes};
use crate::text::{clean_cmdline, clean_cmdline_of, first_line, first_line_of};

verus! {

/// The counters and the command name of a process.
#[derive(Debug)]
pub struct ProcStat {
    pub utime: u64,
    pub stime: u64,
    pub comm: String,
}

/// What could be read of one process. A process may end while it is being read, so each part may
/// be missing.
#[derive(Debug)]
pub struct ProcReading {
    pub pid: i32,
    pub stat: Option<ProcStat>,
    /// The real user.
    pub ruid: Option<u32>,
    /// The content of the `cmdline` file, empty where it could not be read.
    pub cmdline: String,
    /// The content of the `cgroup` file, empty where it could not be read.
    pub cgroup: String,
}

impl ProcReading {
    /// The process that the reading describes; nothing where its counters or its user are missing.
    pub open spec fn process(self) -> Option<ProcessView> {
        match (self.stat, self.ruid) {
            (Some(stat), Some(ruid)) => Some(
                ProcessView {
                    pid: self.pid as u32,
                    utime: stat.utime,
                    stime: stat.stime,
                    cmdline: clean_cmdline_of(self.cmdline@),
                    comm: stat.comm@,
                    uid: ruid,
                    cgroup: first_line_of(self.cgroup@),
                },
            ),
            _ => None,
        }
    }

    /// The process that the reading describes; nothing where its counters or its user are missing.
    pub fn to_process(&self) -> (res: Option<ProcessInfo>)
        ensures
            match res {
                Some(process) => self.process() == Some(process@),
                None => self.process() is None,
            },
    {
        match (&self.stat, &self.ruid) {
            (Some(stat), Some(ruid)) => Some(
                ProcessInfo::new(
                    self.pid as u32,
                    stat.utime,
                    stat.stime,
                    clean_cmdline(self.cmdline.as_str()),
                    stat.comm.clone(),
                    *ruid,
                    first_line(self.cgroup.as_str()),
                ),
            ),
            _ => None,
        }
    }
}

/// The processes that a row of readings describes. Of two with the same number the later counts.
pub open spec fn readings_processes(readings: Seq<ProcReading>) -> Processes
    decreases readings.len(),
{
    if readings.len() == 0 {
        Map::empty()
    } else {
        let before = readings_processes(readings.drop_last());
        match readings.last().process() {
            Some(process) => before.insert(process.pid, process),
            None => before,
        }
    }
}

impl ProcessSnapshot {
    /// A snapshot with the processes that a row of readings describes. It is dated by the moment at
    /// which the reading began.
    pub fn from_readings(begun: &Moment, readings: &Vec<ProcReading>) -> (res: Self)
        requires
            begun.valid(),
        ensures
            res@ == readings_processes(readings@),
            res.timestamp@.len() > 0,
            res.timestamp@ == rfc3339_of(*begun),
    {
        let mut snapshot: ProcessSnapshot = ProcessSnapshot::taken_at(begun);
        let ghost text = snapshot.timestamp;
        let mut i: usize = 0;
        while i < readings.len()
            invariant
                i <= readings@.len(),
                snapshot.timestamp == text,
                snapshot@ == readings_processes(readings@.take(i as int)),
            decreases readings@.len() - i,
        {
            proof {
                let next = readings@.take(i + 1);
                assert(next.drop_last() =~= readings@.take(i as int));
                assert(next.last() == readings@[i as int]);
            }
            if let Some(process) = readings[i].to_process() {
                snapshot.add_process(process);
            }
            i = i + 1;
        }
        assert(readings@.take(readings@.len() as int) =~= readings@);
        snapshot
    }
}

} // verus!
