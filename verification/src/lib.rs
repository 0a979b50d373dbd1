//! CPU usage accounting for the processes of a host: snapshots of the process table, the CPU time
//! that processes used between two snapshots, and totals of that time by group.

pub mod accounts;
pub mod clock;
pub mod delivery;
pub mod feed;
pub mod groups;
pub mod laws;
pub mod monitor;
pub mod natural;
pub mod outcomes;
pub mod process;
pub mod reading;
pub mod records;
pub mod runs;
pub mod seconds;
pub mod session;
pub mod snapshot;
pub mod steps;
pub mod text;

pub use clock::Moment;
pub use delivery::{check_reply, delivery_form, report_file_name, wants_delivery, DeliveryForm};
pub use feed::{next_request, Feed, RunRequest, RunStage};
pub use groups::GroupTotals;
pub use monitor::{CpuMonitor, MonitorError, MonitorReport, ProcessSnaphotProvider};
pub use process::{classify_proccess, ProcessInfo, ProcessType};
pub use reading::{ProcReading, ProcStat};
pub use seconds::{ticks_to_seconds, CpuSeconds};
pub use session::{MonitorSession, SessionAction, SessionEvent};
pub use snapshot::{ProcessDelta, ProcessSnapshot};
