//! What the monitor does and shows: its state, its log, and when it scans, rests and stops.

use crate::config;
use crate::config::ConfigForm;
use crate::runner::RunReport;
use vstd::prelude::*;
use vstd::string::*;

verus! {

/// How many lines of the log are kept.
pub const MAX_LOG_LINES: usize = 800;

/// The status of a monitor that does not run.
pub const IDLE: &'static str = "空闲";

/// The status of a monitor that rests.
pub const PAUSED: &'static str = "已暂停监控";

/// The status of a monitor that is about to stop.
pub const STOPPING: &'static str = "停止中";

/// The status of a monitor whose last scan failed.
pub const FAILED: &'static str = "失败";

/// How long a monitor that rests waits before it looks again.
pub const REST_MILLIS: u64 = 300;

/// How many seconds lie between two scans.
pub const SECONDS_BETWEEN_SCANS: u32 = 45;

/// The part of a report that is shown.
#[derive(Debug)]
pub struct ReportView {
    pub free_count: usize,
    pub filtered_count: usize,
    pub planned_count: usize,
    pub rough_planned_count: usize,
    pub added_count: usize,
    pub skipped_count: usize,
    pub duplicate_skip_count: usize,
    pub budget_bytes: u64,
    pub free_space_bytes: u64,
    pub downloading_remaining_bytes: u64,
    pub seeding_count: usize,
    pub total_torrents: usize,
    pub queue_saturated: bool,
}

impl ReportView {
    /// The part of a report that is shown.
    pub open spec fn of(report: RunReport) -> ReportView {
        ReportView {
            free_count: report.free_count,
            filtered_count: report.filtered_count,
            planned_count: report.planned_count,
            rough_planned_count: report.rough_planned_count,
            added_count: report.added_count,
            skipped_count: report.skipped_count,
            duplicate_skip_count: report.duplicate_skip_count,
            budget_bytes: report.budget_bytes,
            free_space_bytes: report.free_space_bytes,
            downloading_remaining_bytes: report.downloading_remaining_bytes,
            seeding_count: report.seeding_count,
            total_torrents: report.total_torrents,
            queue_saturated: report.queue_saturated,
        }
    }
}

impl Default for ReportView {
    fn default() -> (r: Self)
        ensures
            r == ReportView::of(RunReport::nothing()),
    {
        let report = RunReport::default();
        ReportView::from(&report)
    }
}

impl From<&RunReport> for ReportView {
    fn from(report: &RunReport) -> (r: Self) {
        ReportView {
            free_count: report.free_count,
            filtered_count: report.filtered_count,
            planned_count: report.planned_count,
            rough_planned_count: report.rough_planned_count,
            added_count: report.added_count,
            skipped_count: report.skipped_count,
            duplicate_skip_count: report.duplicate_skip_count,
            budget_bytes: report.budget_bytes,
            free_space_bytes: report.free_space_bytes,
            downloading_remaining_bytes: report.downloading_remaining_bytes,
            seeding_count: report.seeding_count,
            total_torrents: report.total_torrents,
            queue_saturated: report.queue_saturated,
        }
    }
}

impl vstd::std_specs::convert::FromSpecImpl<&RunReport> for ReportView {
    open spec fn obeys_from_spec() -> bool {
        true
    }

    open spec fn from_spec(report: &RunReport) -> ReportView {
        ReportView::of(*report)
    }
}

impl Clone for ReportView {
    fn clone(&self) -> (r: Self)
        ensures
            r == *self,
    {
        ReportView {
            free_count: self.free_count,
            filtered_count: self.filtered_count,
            planned_count: self.planned_count,
            rough_planned_count: self.rough_planned_count,
            added_count: self.added_count,
            skipped_count: self.skipped_count,
            duplicate_skip_count: self.duplicate_skip_count,
            budget_bytes: self.budget_bytes,
            free_space_bytes: self.free_space_bytes,
            downloading_remaining_bytes: self.downloading_remaining_bytes,
            seeding_count: self.seeding_count,
            total_torrents: self.total_torrents,
            queue_saturated: self.queue_saturated,
        }
    }
}

/// The status of a monitor that runs.
pub open spec fn shown_active(dry_run: bool) -> Seq<char> {
    if dry_run {
        "监控中 / Dry Run"@
    } else {
        "监控中 / 执行"@
    }
}

/// The status of a monitor that runs.
pub fn active_status(dry_run: bool) -> (r: &'static str)
    ensures
        r@ == shown_active(dry_run),
{
    if dry_run {
        "监控中 / Dry Run"
    } else {
        "监控中 / 执行"
    }
}

/// The state of the monitor.
#[derive(Debug)]
pub struct RuntimeState {
    pub running: bool,
    pub paused: bool,
    pub dry_run: bool,
    pub status: String,
    pub report: ReportView,
    pub logs: Vec<String>,
    pub last_error: Option<String>,
}

/// The state of the monitor.
#[verifier::ext_equal]
pub struct RuntimeView {
    pub running: bool,
    pub paused: bool,
    pub dry_run: bool,
    pub status: Seq<char>,
    pub report: ReportView,
    pub logs: Seq<Seq<char>>,
    pub last_error: Option<Seq<char>>,
}

/// The last lines of a log, as many as are kept.
pub open spec fn kept(logs: Seq<Seq<char>>) -> Seq<Seq<char>> {
    if logs.len() > MAX_LOG_LINES {
        logs.skip(logs.len() - MAX_LOG_LINES)
    } else {
        logs
    }
}

impl RuntimeView {
    /// The state before the first run.
    pub open spec fn initial() -> RuntimeView {
        RuntimeView {
            running: false,
            paused: false,
            dry_run: false,
            status: IDLE@,
            report: ReportView::of(RunReport::nothing()),
            logs: Seq::empty(),
            last_error: None,
        }
    }

    pub open spec fn started(self, dry_run: bool) -> RuntimeView {
        RuntimeView {
            running: true,
            paused: false,
            dry_run,
            status: shown_active(dry_run),
            last_error: None,
            ..self
        }
    }

    pub open spec fn paused(self) -> RuntimeView {
        RuntimeView { paused: true, status: PAUSED@, ..self }
    }

    pub open spec fn resumed(self) -> RuntimeView {
        RuntimeView { paused: false, status: shown_active(self.dry_run), ..self }
    }

    pub open spec fn stopping(self) -> RuntimeView {
        RuntimeView { paused: false, status: STOPPING@, ..self }
    }

    pub open spec fn stopped(self) -> RuntimeView {
        RuntimeView { running: false, paused: false, dry_run: false, status: IDLE@, ..self }
    }

    pub open spec fn with_status(self, status: Seq<char>) -> RuntimeView {
        RuntimeView { status, ..self }
    }

    pub open spec fn with_log(self, line: Seq<char>) -> RuntimeView {
        RuntimeView { logs: kept(self.logs.push(line)), ..self }
    }

    /// Only a monitor that runs rests or does a dry run, and the log is not too long.
    pub open spec fn wf(self) -> bool {
        &&& self.paused ==> self.running
        &&& self.dry_run ==> self.running
        &&& self.logs.len() <= MAX_LOG_LINES
    }
}

/// The log holds the last lines, the newest at its end, and never too many.
pub proof fn law_log_keeps_the_latest(state: RuntimeView, line: Seq<char>)
    requires
        state.wf(),
    ensures
        state.with_log(line).logs.last() == line,
        state.with_log(line).wf(),
        state.logs.len() < MAX_LOG_LINES ==> state.with_log(line).logs == state.logs.push(line),
{
}

/// Starting, pausing, resuming, stopping and ending keep the state in order.
pub proof fn law_commands_keep_order(state: RuntimeView, dry_run: bool)
    requires
        state.wf(),
    ensures
        RuntimeView::initial().wf(),
        state.started(dry_run).wf(),
        state.running ==> state.paused().wf(),
        state.resumed().wf(),
        state.stopping().wf(),
        state.stopped().wf(),
{
}

/// A monitor that was paused and resumed is where it was.
pub proof fn law_resume_undoes_pause(state: RuntimeView)
    requires
        state.running,
        !state.paused,
        state.status == shown_active(state.dry_run),
    ensures
        state.paused().resumed() == state,
{
    assert(state.paused().resumed() =~= state);
}

impl View for RuntimeState {
    type V = RuntimeView;

    open spec fn view(&self) -> RuntimeView {
        RuntimeView {
            running: self.running,
            paused: self.paused,
            dry_run: self.dry_run,
            status: self.status@,
            report: self.report,
            logs: config::texts(self.logs@),
            last_error: match self.last_error {
                Some(message) => Some(message@),
                None => None,
            },
        }
    }
}

impl Default for RuntimeState {
    fn default() -> (r: Self)
        ensures
            r@ == RuntimeView::initial(),
    {
        let r = RuntimeState {
            running: false,
            paused: false,
            dry_run: false,
            status: String::from_str(IDLE),
            report: ReportView::default(),
            logs: Vec::new(),
            last_error: None,
        };
        assert(r@ =~= RuntimeView::initial());
        r
    }
}

/// Why the monitor was not started.
#[derive(Debug)]
pub enum StartError {
    /// It runs already.
    Running,
}

impl StartError {
    /// The message of the error.
    pub fn message(&self) -> (r: &'static str)
        ensures
            r@ == "监控已经在运行"@,
    {
        "监控已经在运行"
    }
}

impl RuntimeState {
    /// Starts the monitor, unless it runs, and gives the line to log.
    pub fn start(&mut self, dry_run: bool) -> (r: Result<&'static str, StartError>)
        ensures
            match r {
                Ok(line) => {
                    &&& !old(self)@.running
                    &&& final(self)@ == old(self)@.started(dry_run)
                    &&& line@ == (if dry_run {
                        "开始监控（Dry Run）"@
                    } else {
                        "开始监控（执行模式）"@
                    })
                },
                Err(error) => {
                    &&& old(self)@.running
                    &&& error is Running
                    &&& final(self)@ == old(self)@
                },
            },
    {
        if self.running {
            return Err(StartError::Running);
        }
        self.running = true;
        self.paused = false;
        self.dry_run = dry_run;
        self.status = String::from_str(active_status(dry_run));
        self.last_error = None;
        if dry_run {
            Ok("开始监控（Dry Run）")
        } else {
            Ok("开始监控（执行模式）")
        }
    }

    /// Pauses a monitor that runs, and gives the line to log where it did.
    pub fn pause(&mut self) -> (r: Option<&'static str>)
        ensures
            match r {
                Some(line) => {
                    &&& old(self)@.running
                    &&& !old(self)@.paused
                    &&& final(self)@ == old(self)@.paused()
                    &&& line@ == "暂停监控"@
                },
                None => {
                    &&& !old(self)@.running || old(self)@.paused
                    &&& final(self)@ == old(self)@
                },
            },
    {
        if !self.running || self.paused {
            return None;
        }
        self.paused = true;
        self.status = String::from_str(PAUSED);
        Some("暂停监控")
    }

    /// Resumes a monitor that rests, and gives the line to log where it did.
    pub fn resume(&mut self) -> (r: Option<&'static str>)
        ensures
            match r {
                Some(line) => {
                    &&& old(self)@.running
                    &&& old(self)@.paused
                    &&& final(self)@ == old(self)@.resumed()
                    &&& line@ == (if old(self)@.dry_run {
                        "恢复监控（Dry Run）"@
                    } else {
                        "恢复监控"@
                    })
                },
                None => {
                    &&& !old(self)@.running || !old(self)@.paused
                    &&& final(self)@ == old(self)@
                },
            },
    {
        if !self.running || !self.paused {
            return None;
        }
        self.paused = false;
        self.status = String::from_str(active_status(self.dry_run));
        if self.dry_run {
            Some("恢复监控（Dry Run）")
        } else {
            Some("恢复监控")
        }
    }

    /// Stops a monitor that runs, and gives the line to log where it did.
    pub fn stop(&mut self) -> (r: Option<&'static str>)
        ensures
            match r {
                Some(line) => {
                    &&& old(self)@.running
                    &&& final(self)@ == old(self)@.stopping()
                    &&& line@ == "停止监控"@
                },
                None => !old(self)@.running && final(self)@ == old(self)@,
            },
    {
        if !self.running {
            return None;
        }
        self.status = String::from_str(STOPPING);
        self.paused = false;
        Some("停止监控")
    }

    /// Ends the monitor, and gives the line to log.
    pub fn end(&mut self) -> (r: &'static str)
        ensures
            final(self)@ == old(self)@.stopped(),
            r@ == "监控已停止"@,
    {
        self.running = false;
        self.paused = false;
        self.dry_run = false;
        self.status = String::from_str(IDLE);
        "监控已停止"
    }

    pub fn update_report(&mut self, report: &RunReport)
        ensures
            final(self)@ == (RuntimeView { report: ReportView::of(*report), ..old(self)@ }),
    {
        self.report = ReportView::from(report);
    }

    pub fn set_status(&mut self, status: &str)
        ensures
            final(self)@ == old(self)@.with_status(status@),
    {
        self.status = String::from_str(status);
    }

    pub fn set_running_state(&mut self, status: &str, paused: bool)
        ensures
            final(self)@ == (RuntimeView { paused, ..old(self)@.with_status(status@) }),
    {
        self.status = String::from_str(status);
        self.paused = paused;
    }

    pub fn set_error(&mut self, message: &str)
        ensures
            final(self)@ == (RuntimeView { last_error: Some(message@), ..old(self)@ }),
    {
        self.last_error = Some(String::from_str(message));
    }

    pub fn clear_error(&mut self)
        ensures
            final(self)@ == (RuntimeView { last_error: None, ..old(self)@ }),
    {
        self.last_error = None;
    }

    /// Adds a line to the log, and drops the oldest ones where it gets too long.
    pub fn push_log(&mut self, line: &str)
        ensures
            final(self)@ == old(self)@.with_log(line@),
    {
        let ghost before = config::texts(self.logs@);
        self.logs.push(String::from_str(line));
        assert(config::texts(self.logs@) =~= before.push(line@));
        if self.logs.len() > MAX_LOG_LINES {
            let extra: usize = self.logs.len() - MAX_LOG_LINES;
            let latest = self.logs.split_off(extra);
            assert(config::texts(latest@) =~= kept(before.push(line@)));
            self.logs = latest;
        }
    }

    /// A scan begins; gives the line to log.
    pub fn begin_scan(&mut self, dry_run: bool) -> (r: &'static str)
        ensures
            final(self)@ == (RuntimeView {
                paused: false,
                ..old(self)@.with_status(shown_active(dry_run))
            }),
            r@ == "开始一轮扫描"@,
    {
        self.set_running_state(active_status(dry_run), false);
        "开始一轮扫描"
    }

    /// A scan came to its end.
    pub fn end_scan(&mut self, dry_run: bool, report: &RunReport)
        ensures
            final(self)@ == (RuntimeView {
                report: ReportView::of(*report),
                last_error: None,
                ..old(self)@.with_status(shown_active(dry_run))
            }),
    {
        self.update_report(report);
        self.clear_error();
        self.set_status(active_status(dry_run));
    }

    /// A scan failed; gives the line to log.
    pub fn fail_scan(&mut self, message: &str) -> (r: String)
        ensures
            final(self)@ == (RuntimeView {
                last_error: Some(message@),
                ..old(self)@.with_status(FAILED@)
            }),
            r@ == "运行失败: "@ + message@,
    {
        self.set_error(message);
        self.set_status(FAILED);
        let mut line = String::from_str("运行失败: ");
        line.append(message);
        line
    }
}

/// What the tray's switch asks of the monitor.
#[derive(Debug)]
pub enum Switch {
    Nothing,
    Pause,
    Resume,
}

/// What the tray's switch asks of the monitor: a monitor that rests goes on, one that runs rests.
pub fn toggle(state: &RuntimeState) -> (r: Switch)
    ensures
        r == (if !state@.running {
            Switch::Nothing
        } else if state@.paused {
            Switch::Resume
        } else {
            Switch::Pause
        }),
{
    if !state.running {
        Switch::Nothing
    } else if state.paused {
        Switch::Resume
    } else {
        Switch::Pause
    }
}

/// What the monitor does next.
#[derive(Debug)]
pub enum Beat {
    Stop,
    Rest,
    Scan,
}

/// What the monitor does next, by what it was told; to stop comes before to rest.
pub fn next_beat(stop: bool, pause: bool) -> (r: Beat)
    ensures
        r == (if stop {
            Beat::Stop
        } else if pause {
            Beat::Rest
        } else {
            Beat::Scan
        }),
{
    if stop {
        Beat::Stop
    } else if pause {
        Beat::Rest
    } else {
        Beat::Scan
    }
}

/// Whether the monitor waits another second after a scan.
pub fn waits_on(waited: u32, stop: bool, pause: bool) -> (r: bool)
    ensures
        r == (waited < SECONDS_BETWEEN_SCANS && !stop && !pause),
{
    waited < SECONDS_BETWEEN_SCANS && !stop && !pause
}

/// All that is shown.
#[derive(Debug)]
pub struct Snapshot {
    pub config_path: String,
    pub config: ConfigForm,
    pub running: bool,
    pub paused: bool,
    pub dry_run: bool,
    pub status: String,
    pub report: ReportView,
    pub logs: Vec<String>,
    pub last_error: Option<String>,
}

impl Snapshot {
    /// The state of the monitor that is shown.
    pub open spec fn runtime(self) -> RuntimeView {
        RuntimeView {
            running: self.running,
            paused: self.paused,
            dry_run: self.dry_run,
            status: self.status@,
            report: self.report,
            logs: config::texts(self.logs@),
            last_error: match self.last_error {
                Some(message) => Some(message@),
                None => None,
            },
        }
    }
}

/// All that is shown, of a state as it is.
pub fn snapshot(config_path: &str, form: &ConfigForm, state: &RuntimeState) -> (r: Snapshot)
    ensures
        r.config_path@ == config_path@,
        r.config == *form,
        r.runtime() == state@,
{
    let mut logs: Vec<String> = Vec::new();
    let mut i: usize = 0;
    while i < state.logs.len()
        invariant
            i <= state.logs@.len(),
            logs@.len() == i,
            forall|j: int| 0 <= j < i ==> (#[trigger] logs@[j])@ == state.logs@[j]@,
        decreases state.logs@.len() - i,
    {
        logs.push(state.logs[i].clone());
        i = i + 1;
    }
    assert(config::texts(logs@) =~= config::texts(state.logs@));
    Snapshot {
        config_path: String::from_str(config_path),
        config: form.clone(),
        running: state.running,
        paused: state.paused,
        dry_run: state.dry_run,
        status: state.status.clone(),
        report: state.report.clone(),
        logs,
        last_error: match &state.last_error {
            Some(message) => Some(message.clone()),
            None => None,
        },
    }
}

} // verus!
