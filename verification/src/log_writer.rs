//! A log that moves to a new directory every day and to a new file when one is full.
//!
//! The writer decides what is to be done with the files; its owner does it and reports back.

use vstd::prelude::*;

use crate::log_date::LogDate;

verus! {

/// The size that a log file is held to, in bytes.
pub const LOG_FILE_SIZE_LIMIT_BYTES: u64 = 10_485_760;

/// How many log files a day may have.
pub const LOG_FILES_PER_DAY_LIMIT: u32 = 5;

/// How many days of logs are kept.
pub const LOG_RETENTION_DAYS: i64 = 14;

/// What the writer waits for.
#[derive(Debug, Clone, Copy, PartialEq, Eq, Structural)]
pub enum WriterPhase {
    /// Nothing: no write is under way.
    Idle,
    /// The end of the cleanup that a new day starts with.
    Cleaning { date: LogDate, incoming: usize },
    /// Whether a log file of the new day is there.
    Probing { date: LogDate, part: u32, incoming: usize },
    /// The file of the new day that is opened.
    OpeningDay { date: LogDate, part: u32, incoming: usize },
    /// The removal or the move that makes room; `part` is the next file to move.
    Shifting { date: LogDate, part: u32, incoming: usize },
    /// The file that takes over from a full one.
    OpeningPart { date: LogDate, part: u32, incoming: usize },
    /// The bytes that are written.
    Writing { incoming: usize },
}

/// What the owner is to do.
#[derive(Debug, Clone, Copy, PartialEq, Eq, Structural)]
pub enum WriterAction {
    /// Close the file, and remove the days that are past their retention on `date`.
    CleanUp { date: LogDate, retention_days: i64 },
    /// Look whether a log file is there.
    Probe { date: LogDate, part: u32 },
    /// Open a log file for appending, and create it if need be.
    Open { date: LogDate, part: u32 },
    /// Close the file, and remove a log file. It does not matter if that fails.
    Remove { date: LogDate, part: u32 },
    /// Move a log file to the place of another if it is there. It does not matter if that fails.
    MoveIfPresent { date: LogDate, from: u32, to: u32 },
    /// Append the bytes to the open file.
    Append,
    /// Nothing more: the write is over.
    Finish(WriteOutcome),
}

/// How a write ended.
#[derive(Debug, Clone, Copy, PartialEq, Eq, Structural)]
pub enum WriteOutcome {
    /// The bytes were written.
    Written,
    /// A log file could not be opened.
    OpenFailed,
    /// There was no open file.
    NotOpened,
    /// The bytes could not be written.
    AppendFailed,
}

/// What the owner reports.
#[derive(Debug, Clone, Copy, PartialEq, Eq, Structural)]
pub enum WriterEvent {
    /// What was to be done is done.
    Done,
    /// Whether the log file is there.
    Present(bool),
    /// The log file is open and has this many bytes.
    Opened(u64),
    /// What was to be done failed.
    Failed,
}

/// The state of a log.
#[derive(Debug, Clone, Copy, PartialEq, Eq, Structural)]
pub struct DailyDatedLogWriter {
    /// The size that a file is held to.
    pub max_file_bytes: u64,
    /// How many files a day may have.
    pub max_files_per_day: u32,
    /// How many days are kept.
    pub retention_days: i64,
    /// The day that the log was last opened for.
    pub active_date: Option<LogDate>,
    /// Which of the day's files that was.
    pub active_part: u32,
    /// How many bytes that file has.
    pub active_bytes: u64,
    /// Whether a file is open.
    pub has_file: bool,
    /// What the writer waits for.
    pub phase: WriterPhase,
}

/// The sum of two sizes, held at the largest size.
pub open spec fn size_sum(a: u64, b: usize) -> u64 {
    if a + b > u64::MAX {
        u64::MAX
    } else {
        (a + b) as u64
    }
}

impl DailyDatedLogWriter {
    /// Every limit is at least one, and every part that is named is one that a day may have.
    pub open spec fn wf(self) -> bool {
        &&& self.max_file_bytes >= 1
        &&& self.max_files_per_day >= 1
        &&& self.retention_days >= 1
        &&& self.active_part < self.max_files_per_day
        &&& match self.phase {
            WriterPhase::Probing { part, .. } => part < self.max_files_per_day,
            WriterPhase::OpeningDay { part, .. } => part < self.max_files_per_day,
            WriterPhase::OpeningPart { part, .. } => part < self.max_files_per_day,
            WriterPhase::Shifting { part, .. } => 1 <= part <= self.max_files_per_day,
            _ => true,
        }
    }

    /// Whether an event is an answer to what the writer waits for.
    pub open spec fn accepts(self, event: WriterEvent) -> bool {
        match self.phase {
            WriterPhase::Idle => false,
            WriterPhase::Cleaning { .. } => event is Done,
            WriterPhase::Probing { .. } => event is Present,
            WriterPhase::OpeningDay { .. } => event is Opened || event is Failed,
            WriterPhase::Shifting { .. } => event is Done,
            WriterPhase::OpeningPart { .. } => event is Opened || event is Failed,
            WriterPhase::Writing { .. } => event is Done || event is Failed,
        }
    }

    /// The writer with another thing to wait for.
    pub open spec fn waiting(self, phase: WriterPhase) -> Self {
        DailyDatedLogWriter { phase, ..self }
    }

    /// Whether `incoming` more bytes belong into the file that is open. Any number does where it
    /// is empty.
    pub open spec fn has_room(self, incoming: usize) -> bool {
        self.active_bytes == 0 || size_sum(self.active_bytes, incoming) <= self.max_file_bytes
    }

    /// Writing to the open file comes next.
    pub open spec fn then_append(self, incoming: usize) -> (Self, WriterAction) {
        if self.has_file {
            (self.waiting(WriterPhase::Writing { incoming }), WriterAction::Append)
        } else {
            (
                self.waiting(WriterPhase::Idle),
                WriterAction::Finish(WriteOutcome::NotOpened),
            )
        }
    }

    /// Writing comes next, to the next of the day's files if the present one is full. Where the
    /// day has no more files the oldest one is given up.
    pub open spec fn then_rotate(self, date: LogDate, incoming: usize) -> (Self, WriterAction) {
        if self.has_room(incoming) {
            self.then_append(incoming)
        } else if self.active_part + 1 < self.max_files_per_day {
            let part = (self.active_part + 1) as u32;
            (
                self.waiting(WriterPhase::OpeningPart { date, part, incoming }),
                WriterAction::Open { date, part },
            )
        } else {
            (
                DailyDatedLogWriter { has_file: false, ..self }.waiting(
                    WriterPhase::Shifting { date, part: 1, incoming },
                ),
                WriterAction::Remove { date, part: 0 },
            )
        }
    }

    /// The writer with a file open.
    pub open spec fn with_file(self, date: LogDate, part: u32, bytes: u64) -> Self {
        DailyDatedLogWriter {
            active_date: Some(date),
            active_part: part,
            active_bytes: bytes,
            has_file: true,
            ..self
        }
    }

    /// How a write of `incoming` bytes on `date` begins.
    pub open spec fn begun(self, date: LogDate, incoming: usize) -> (Self, WriterAction) {
        if self.active_date == Some(date) {
            self.then_rotate(date, incoming)
        } else {
            (
                DailyDatedLogWriter { has_file: false, ..self }.waiting(
                    WriterPhase::Cleaning { date, incoming },
                ),
                WriterAction::CleanUp { date, retention_days: self.retention_days },
            )
        }
    }

    /// How a write goes on after an event.
    pub open spec fn continued(self, event: WriterEvent) -> (Self, WriterAction) {
        match (self.phase, event) {
            (WriterPhase::Cleaning { date, incoming }, _) => (
                self.waiting(WriterPhase::Probing { date, part: 0, incoming }),
                WriterAction::Probe { date, part: 0 },
            ),
            (WriterPhase::Probing { date, part, incoming }, WriterEvent::Present(true)) if part + 1
                < self.max_files_per_day => (
                self.waiting(
                    WriterPhase::Probing { date, part: (part + 1) as u32, incoming },
                ),
                WriterAction::Probe { date, part: (part + 1) as u32 },
            ),
            (WriterPhase::Probing { date, part, incoming }, _) => {
                let last = if event == WriterEvent::Present(true) || part == 0 {
                    part
                } else {
                    (part - 1) as u32
                };
                (
                    self.waiting(WriterPhase::OpeningDay { date, part: last, incoming }),
                    WriterAction::Open { date, part: last },
                )
            },
            (
                WriterPhase::OpeningDay { date, part, incoming },
                WriterEvent::Opened(bytes),
            ) => self.with_file(date, part, bytes).then_rotate(date, incoming),
            (WriterPhase::Shifting { date, part, incoming }, _) => {
                if part < self.max_files_per_day {
                    (
                        self.waiting(
                            WriterPhase::Shifting { date, part: (part + 1) as u32, incoming },
                        ),
                        WriterAction::MoveIfPresent { date, from: part, to: (part - 1) as u32 },
                    )
                } else {
                    let last = (self.max_files_per_day - 1) as u32;
                    (
                        self.waiting(WriterPhase::OpeningPart { date, part: last, incoming }),
                        WriterAction::Open { date, part: last },
                    )
                }
            },
            (
                WriterPhase::OpeningPart { date, part, incoming },
                WriterEvent::Opened(bytes),
            ) => self.with_file(date, part, bytes).then_append(incoming),
            (WriterPhase::Writing { incoming }, WriterEvent::Done) => (
                DailyDatedLogWriter {
                    active_bytes: size_sum(self.active_bytes, incoming),
                    ..self
                }.waiting(WriterPhase::Idle),
                WriterAction::Finish(WriteOutcome::Written),
            ),
            (WriterPhase::Writing { .. }, _) => (
                self.waiting(WriterPhase::Idle),
                WriterAction::Finish(WriteOutcome::AppendFailed),
            ),
            _ => (
                self.waiting(WriterPhase::Idle),
                WriterAction::Finish(WriteOutcome::OpenFailed),
            ),
        }
    }

    /// A writer with the standard limits.
    pub fn new() -> (writer: Self)
        ensures
            writer.wf(),
            writer.phase == WriterPhase::Idle,
            writer.max_file_bytes == LOG_FILE_SIZE_LIMIT_BYTES,
            writer.max_files_per_day == LOG_FILES_PER_DAY_LIMIT,
            writer.retention_days == LOG_RETENTION_DAYS,
            writer.active_date is None,
            writer.active_bytes == 0,
            writer.active_part == 0,
            !writer.has_file,
    {
        Self::new_with_policy(
            LOG_FILE_SIZE_LIMIT_BYTES,
            LOG_FILES_PER_DAY_LIMIT,
            LOG_RETENTION_DAYS,
        )
    }

    /// A writer with limits of its own. A limit below one counts as one.
    pub fn new_with_policy(
        max_file_bytes: u64,
        max_files_per_day: u32,
        retention_days: i64,
    ) -> (writer: Self)
        ensures
            writer.wf(),
            writer.phase == WriterPhase::Idle,
            writer.max_file_bytes == if max_file_bytes < 1 {
                1
            } else {
                max_file_bytes
            },
            writer.max_files_per_day == if max_files_per_day < 1 {
                1
            } else {
                max_files_per_day
            },
            writer.retention_days == if retention_days < 1 {
                1
            } else {
                retention_days
            },
            writer.active_date is None,
            writer.active_bytes == 0,
            writer.active_part == 0,
            !writer.has_file,
    {
        DailyDatedLogWriter {
            max_file_bytes: if max_file_bytes < 1 {
                1
            } else {
                max_file_bytes
            },
            max_files_per_day: if max_files_per_day < 1 {
                1
            } else {
                max_files_per_day
            },
            retention_days: if retention_days < 1 {
                1
            } else {
                retention_days
            },
            active_date: None,
            active_part: 0,
            active_bytes: 0,
            has_file: false,
            phase: WriterPhase::Idle,
        }
    }

    fn append_next(&mut self, incoming: usize) -> (action: WriterAction)
        ensures
            (*final(self), action) == old(self).then_append(incoming),
    {
        if self.has_file {
            self.phase = WriterPhase::Writing { incoming };
            WriterAction::Append
        } else {
            self.phase = WriterPhase::Idle;
            WriterAction::Finish(WriteOutcome::NotOpened)
        }
    }

    fn rotate_if_needed(&mut self, date: LogDate, incoming: usize) -> (action: WriterAction)
        requires
            old(self).active_part < old(self).max_files_per_day,
        ensures
            (*final(self), action) == old(self).then_rotate(date, incoming),
    {
        let room: bool = self.active_bytes == 0 || self.active_bytes.saturating_add(incoming as u64)
            <= self.max_file_bytes;
        if room {
            self.append_next(incoming)
        } else if self.active_part + 1 < self.max_files_per_day {
            let part: u32 = self.active_part + 1;
            self.phase = WriterPhase::OpeningPart { date, part, incoming };
            WriterAction::Open { date, part }
        } else {
            self.has_file = false;
            self.phase = WriterPhase::Shifting { date, part: 1, incoming };
            WriterAction::Remove { date, part: 0 }
        }
    }

    fn open_part(&mut self, date: LogDate, part: u32, bytes: u64)
        ensures
            *final(self) == old(self).with_file(date, part, bytes),
    {
        self.active_date = Some(date);
        self.active_part = part;
        self.active_bytes = bytes;
        self.has_file = true;
    }

    /// Begins a write of `incoming` bytes on `date`, and says what to do first.
    pub fn begin_write(&mut self, date: LogDate, incoming: usize) -> (action: WriterAction)
        requires
            old(self).wf(),
        ensures
            final(self).wf(),
            (*final(self), action) == old(self).begun(date, incoming),
    {
        let current: bool = match self.active_date {
            Some(active) => active == date,
            None => false,
        };
        if current {
            self.rotate_if_needed(date, incoming)
        } else {
            self.has_file = false;
            self.phase = WriterPhase::Cleaning { date, incoming };
            WriterAction::CleanUp { date, retention_days: self.retention_days }
        }
    }

    /// Takes what came of the last action, and says what to do next.
    pub fn handle(&mut self, event: WriterEvent) -> (action: WriterAction)
        requires
            old(self).wf(),
            old(self).accepts(event),
        ensures
            final(self).wf(),
            (*final(self), action) == old(self).continued(event),
    {
        match (self.phase, event) {
            (WriterPhase::Cleaning { date, incoming }, _) => {
                self.phase = WriterPhase::Probing { date, part: 0, incoming };
                WriterAction::Probe { date, part: 0 }
            },
            (WriterPhase::Probing { date, part, incoming }, WriterEvent::Present(present)) => {
                if present && part + 1 < self.max_files_per_day {
                    self.phase = WriterPhase::Probing { date, part: part + 1, incoming };
                    WriterAction::Probe { date, part: part + 1 }
                } else {
                    let last: u32 = if present || part == 0 {
                        part
                    } else {
                        part - 1
                    };
                    self.phase = WriterPhase::OpeningDay { date, part: last, incoming };
                    WriterAction::Open { date, part: last }
                }
            },
            (
                WriterPhase::OpeningDay { date, part, incoming },
                WriterEvent::Opened(bytes),
            ) => {
                self.open_part(date, part, bytes);
                self.rotate_if_needed(date, incoming)
            },
            (WriterPhase::Shifting { date, part, incoming }, _) => {
                if part < self.max_files_per_day {
                    self.phase = WriterPhase::Shifting { date, part: part + 1, incoming };
                    WriterAction::MoveIfPresent { date, from: part, to: part - 1 }
                } else {
                    let last: u32 = self.max_files_per_day - 1;
                    self.phase = WriterPhase::OpeningPart { date, part: last, incoming };
                    WriterAction::Open { date, part: last }
                }
            },
            (
                WriterPhase::OpeningPart { date, part, incoming },
                WriterEvent::Opened(bytes),
            ) => {
                self.open_part(date, part, bytes);
                self.append_next(incoming)
            },
            (WriterPhase::Writing { incoming }, WriterEvent::Done) => {
                self.active_bytes = self.active_bytes.saturating_add(incoming as u64);
                self.phase = WriterPhase::Idle;
                WriterAction::Finish(WriteOutcome::Written)
            },
            (WriterPhase::Writing { .. }, _) => {
                self.phase = WriterPhase::Idle;
                WriterAction::Finish(WriteOutcome::AppendFailed)
            },
            _ => {
                self.phase = WriterPhase::Idle;
                WriterAction::Finish(WriteOutcome::OpenFailed)
            },
        }
    }
}

/// What is in the log files of one day.
pub type DayFiles = Map<u32, Seq<u8>>;

/// What an action does to the files of the day and what is reported then, where nothing fails.
/// `open` is the file that is open, and `bytes` is what is to be written.
pub open spec fn performed(
    action: WriterAction,
    open: u32,
    files: DayFiles,
    bytes: Seq<u8>,
) -> (DayFiles, WriterEvent) {
    match action {
        WriterAction::Probe { part, .. } => (
            files,
            WriterEvent::Present(files.dom().contains(part)),
        ),
        WriterAction::Open { part, .. } => {
            let opened = with_part(files, part);
            (opened, WriterEvent::Opened(opened[part].len() as u64))
        },
        WriterAction::Remove { part, .. } => (files.remove(part), WriterEvent::Done),
        WriterAction::MoveIfPresent { from, to, .. } => (
            if files.dom().contains(from) {
                files.insert(to, files[from]).remove(from)
            } else {
                files
            },
            WriterEvent::Done,
        ),
        WriterAction::Append => (files.insert(open, files[open] + bytes), WriterEvent::Done),
        WriterAction::CleanUp { .. } => (files, WriterEvent::Done),
        WriterAction::Finish(_) => (files, WriterEvent::Done),
    }
}

/// The files with `part` among them, as an empty file if it was not there.
pub open spec fn with_part(files: DayFiles, part: u32) -> DayFiles {
    if files.dom().contains(part) {
        files
    } else {
        files.insert(part, Seq::empty())
    }
}

/// A writer, its last action and the files after at most `n` actions have been performed.
pub open spec fn run(
    writer: DailyDatedLogWriter,
    action: WriterAction,
    files: DayFiles,
    bytes: Seq<u8>,
    n: nat,
) -> (DailyDatedLogWriter, WriterAction, DayFiles)
    decreases n,
{
    if n == 0 || action is Finish {
        (writer, action, files)
    } else {
        let (files, event) = performed(action, writer.active_part, files, bytes);
        let (writer, action) = writer.continued(event);
        run(writer, action, files, bytes, (n - 1) as nat)
    }
}

/// A whole write of `bytes` on `date`.
pub open spec fn write_run(
    writer: DailyDatedLogWriter,
    files: DayFiles,
    date: LogDate,
    bytes: Seq<u8>,
) -> (DailyDatedLogWriter, WriterAction, DayFiles) {
    let (begun, action) = writer.begun(date, bytes.len() as usize);
    run(begun, action, files, bytes, (2 * writer.max_files_per_day + 8) as nat)
}

/// The files once every part from `from` on has moved down by one.
pub open spec fn shifted_down(files: DayFiles, from: int, max: int) -> DayFiles {
    Map::new(
        |i: u32|
            if i < from - 1 || i >= max {
                files.dom().contains(i)
            } else {
                i + 1 < max && files.dom().contains((i + 1) as u32)
            },
        |i: u32|
            if i < from - 1 || i >= max {
                files[i]
            } else {
                files[(i + 1) as u32]
            },
    )
}

/// Whether a writer has one of the files open, and knows its size.
pub open spec fn holds_open(writer: DailyDatedLogWriter, files: DayFiles, date: LogDate) -> bool {
    &&& writer.wf()
    &&& writer.active_date == Some(date)
    &&& writer.has_file
    &&& files.dom().contains(writer.active_part)
    &&& files[writer.active_part].len() == writer.active_bytes
}

/// The files after a write: the bytes go to the end of the open file if they belong there, else
/// to the end of the day's next file; where there may be no next file the oldest one goes, the
/// others move down, and the bytes are the last file.
pub open spec fn files_after_write(
    writer: DailyDatedLogWriter,
    files: DayFiles,
    bytes: Seq<u8>,
) -> DayFiles {
    let part = writer.active_part;
    let max = writer.max_files_per_day;
    if writer.has_room(bytes.len() as usize) {
        files.insert(part, files[part] + bytes)
    } else if part + 1 < max {
        let next = (part + 1) as u32;
        files.insert(next, with_part(files, next)[next] + bytes)
    } else {
        shifted_down(files.remove(0), 1, max as int).insert((max - 1) as u32, bytes)
    }
}

/// Which of the day's files is open after a write.
pub open spec fn part_after_write(writer: DailyDatedLogWriter, bytes: Seq<u8>) -> u32 {
    if writer.has_room(bytes.len() as usize) {
        writer.active_part
    } else if writer.active_part + 1 < writer.max_files_per_day {
        (writer.active_part + 1) as u32
    } else {
        (writer.max_files_per_day - 1) as u32
    }
}

/// The writer after a write: the file that the bytes went to is open, its size is known, and the
/// limits are what they were.
pub open spec fn writer_after_write(
    writer: DailyDatedLogWriter,
    files: DayFiles,
    date: LogDate,
    bytes: Seq<u8>,
) -> DailyDatedLogWriter {
    let part = part_after_write(writer, bytes);
    let size = files_after_write(writer, files, bytes)[part].len();
    writer.with_file(date, part, size as u64).waiting(WriterPhase::Idle)
}

/// Whether the size of the file that a write goes to stays within what the machine counts.
pub open spec fn countable(writer: DailyDatedLogWriter, files: DayFiles, bytes: Seq<u8>) -> bool {
    let part = writer.active_part;
    let next = (part + 1) as u32;
    &&& bytes.len() <= usize::MAX
    &&& if writer.has_room(bytes.len() as usize) {
        files[part].len() + bytes.len() <= u64::MAX
    } else if part + 1 < writer.max_files_per_day {
        with_part(files, next)[next].len() + bytes.len() <= u64::MAX
    } else {
        true
    }
}

proof fn lemma_append(writer: DailyDatedLogWriter, files: DayFiles, bytes: Seq<u8>, n: nat)
    requires
        writer.has_file,
        files.dom().contains(writer.active_part),
        files[writer.active_part].len() == writer.active_bytes,
        writer.active_bytes + bytes.len() <= u64::MAX,
        bytes.len() <= usize::MAX,
        n >= 1,
    ensures
        ({
            let (next, action) = writer.then_append(bytes.len() as usize);
            let end = run(next, action, files, bytes, n);
            &&& end.1 == WriterAction::Finish(WriteOutcome::Written)
            &&& end.2 == files.insert(
                writer.active_part,
                files[writer.active_part] + bytes,
            )
            &&& end.0 == (DailyDatedLogWriter {
                active_bytes: (writer.active_bytes + bytes.len()) as u64,
                phase: WriterPhase::Idle,
                ..writer
            })
        }),
{
    reveal_with_fuel(run, 3);
}

proof fn lemma_open_next(
    writer: DailyDatedLogWriter,
    files: DayFiles,
    date: LogDate,
    part: u32,
    bytes: Seq<u8>,
    n: nat,
)
    requires
        writer.wf(),
        part < writer.max_files_per_day,
        bytes.len() <= usize::MAX,
        with_part(files, part)[part].len() + bytes.len() <= u64::MAX,
        n >= 2,
    ensures
        ({
            let waiting = writer.waiting(
                WriterPhase::OpeningPart { date, part, incoming: bytes.len() as usize },
            );
            let end = run(waiting, WriterAction::Open { date, part }, files, bytes, n);
            let grown = with_part(files, part)[part] + bytes;
            &&& end.1 == WriterAction::Finish(WriteOutcome::Written)
            &&& end.2 == files.insert(part, grown)
            &&& end.0 == (DailyDatedLogWriter {
                active_bytes: grown.len() as u64,
                phase: WriterPhase::Idle,
                ..writer.with_file(date, part, 0)
            })
        }),
{
    let waiting = writer.waiting(
        WriterPhase::OpeningPart { date, part, incoming: bytes.len() as usize },
    );
    let opened = with_part(files, part);
    let with_file = waiting.with_file(date, part, opened[part].len() as u64);
    reveal_with_fuel(run, 2);
    lemma_append(with_file, opened, bytes, (n - 1) as nat);
    assert(opened.insert(part, opened[part] + bytes) =~= files.insert(part, opened[part] + bytes));
}

proof fn lemma_shift(
    writer: DailyDatedLogWriter,
    files: DayFiles,
    date: LogDate,
    k: u32,
    bytes: Seq<u8>,
    n: nat,
)
    requires
        writer.wf(),
        1 <= k <= writer.max_files_per_day,
        writer.phase == (WriterPhase::Shifting {
            date,
            part: k,
            incoming: bytes.len() as usize,
        }),
        !files.dom().contains((k - 1) as u32),
        bytes.len() <= usize::MAX,
        n >= writer.max_files_per_day - k + 2,
    ensures
        ({
            let (next, action) = writer.continued(WriterEvent::Done);
            let end = run(next, action, files, bytes, n);
            let last = (writer.max_files_per_day - 1) as u32;
            &&& end.1 == WriterAction::Finish(WriteOutcome::Written)
            &&& end.2 == shifted_down(files, k as int, writer.max_files_per_day as int).insert(
                last,
                bytes,
            )
            &&& end.0 == (DailyDatedLogWriter {
                active_bytes: bytes.len() as u64,
                phase: WriterPhase::Idle,
                ..writer.with_file(date, last, 0)
            })
        }),
    decreases writer.max_files_per_day - k,
{
    let max = writer.max_files_per_day;
    if k == max {
        let last = (max - 1) as u32;
        lemma_open_next(writer, files, date, last, bytes, n);
        assert(with_part(files, last)[last] + bytes =~= bytes);
        assert(shifted_down(files, k as int, max as int) =~= files);
    } else {
        let to = (k - 1) as u32;
        let moved = if files.dom().contains(k) {
            files.insert(to, files[k]).remove(k)
        } else {
            files
        };
        let (next, action) = writer.continued(WriterEvent::Done);
        lemma_shift(next, moved, date, (k + 1) as u32, bytes, (n - 1) as nat);
        reveal_with_fuel(run, 2);
        assert(shifted_down(moved, k + 1, max as int) =~= shifted_down(
            files,
            k as int,
            max as int,
        ));
        assert(next.with_file(date, (max - 1) as u32, 0).waiting(WriterPhase::Idle)
            == writer.with_file(date, (max - 1) as u32, 0).waiting(WriterPhase::Idle));
    }
}

proof fn lemma_rotated_write(
    writer: DailyDatedLogWriter,
    files: DayFiles,
    date: LogDate,
    bytes: Seq<u8>,
    n: nat,
)
    requires
        holds_open(writer, files, date),
        countable(writer, files, bytes),
        n >= writer.max_files_per_day + 4,
    ensures
        ({
            let (next, action) = writer.then_rotate(date, bytes.len() as usize);
            let end = run(next, action, files, bytes, n);
            &&& end.1 == WriterAction::Finish(WriteOutcome::Written)
            &&& end.2 == files_after_write(writer, files, bytes)
            &&& end.0 == writer_after_write(writer, files, date, bytes)
            &&& holds_open(end.0, end.2, date)
        }),
{
    let max = writer.max_files_per_day;
    let incoming = bytes.len() as usize;
    let (next, action) = writer.then_rotate(date, incoming);
    if writer.has_room(incoming) {
        lemma_append(writer, files, bytes, n);
    } else if writer.active_part + 1 < max {
        lemma_open_next(writer, files, date, (writer.active_part + 1) as u32, bytes, n);
    } else {
        let rest = files.remove(0);
        lemma_shift(next, rest, date, 1, bytes, (n - 1) as nat);
        reveal_with_fuel(run, 2);
        assert(run(next, action, files, bytes, n).2 =~= files_after_write(writer, files, bytes));
    }
}

/// A write on the day that the log is open for puts the bytes where [`files_after_write`] says,
/// and leaves the log open, so that the next write can go on from there.
pub proof fn write_on_open_day(
    writer: DailyDatedLogWriter,
    files: DayFiles,
    date: LogDate,
    bytes: Seq<u8>,
)
    requires
        holds_open(writer, files, date),
        countable(writer, files, bytes),
    ensures
        ({
            let end = write_run(writer, files, date, bytes);
            &&& end.1 == WriterAction::Finish(WriteOutcome::Written)
            &&& end.2 == files_after_write(writer, files, bytes)
            &&& end.0 == writer_after_write(writer, files, date, bytes)
            &&& holds_open(end.0, end.2, date)
        }),
{
    lemma_rotated_write(
        writer,
        files,
        date,
        bytes,
        (2 * writer.max_files_per_day + 8) as nat,
    );
}

/// Whether the bytes of a write belong into the day's next file, which is there already if another
/// program has put it there.
pub open spec fn next_file_has_room(
    writer: DailyDatedLogWriter,
    files: DayFiles,
    bytes: Seq<u8>,
) -> bool {
    let next = (writer.active_part + 1) as u32;
    let size = with_part(files, next)[next].len();
    size == 0 || size + bytes.len() <= writer.max_file_bytes
}

/// A file is held to the size limit: it only grows beyond it by a single write that is larger on
/// its own. The one exception is a next file that another program has put there and filled.
pub proof fn file_size_is_limited(
    writer: DailyDatedLogWriter,
    files: DayFiles,
    date: LogDate,
    bytes: Seq<u8>,
)
    requires
        holds_open(writer, files, date),
        countable(writer, files, bytes),
        writer.has_room(bytes.len() as usize) || writer.active_part + 1 == writer.max_files_per_day
            || next_file_has_room(writer, files, bytes),
    ensures
        ({
            let end = write_run(writer, files, date, bytes);
            end.0.active_bytes <= writer.max_file_bytes || end.0.active_bytes == bytes.len()
        }),
{
    write_on_open_day(writer, files, date, bytes);
}

/// A write uses no file beyond those that a day may have.
pub proof fn daily_files_are_limited(
    writer: DailyDatedLogWriter,
    files: DayFiles,
    date: LogDate,
    bytes: Seq<u8>,
)
    requires
        holds_open(writer, files, date),
        countable(writer, files, bytes),
        forall|i: u32| #[trigger] files.dom().contains(i) ==> i < writer.max_files_per_day,
    ensures
        forall|i: u32| #[trigger]
            write_run(writer, files, date, bytes).2.dom().contains(i) ==> i
                < writer.max_files_per_day,
{
    write_on_open_day(writer, files, date, bytes);
}

/// Whether `part` is the last of a day's files, counted from the first one without a gap and up to
/// what a day may have; the first one where there is none.
pub open spec fn is_last_part(files: DayFiles, part: u32, max: u32) -> bool {
    &&& part < max
    &&& forall|i: u32| i < part ==> #[trigger] files.dom().contains(i)
    &&& part > 0 ==> files.dom().contains(part)
    &&& part + 1 < max && files.dom().contains(part) ==> !files.dom().contains((part + 1) as u32)
}

proof fn lemma_probe(
    writer: DailyDatedLogWriter,
    files: DayFiles,
    date: LogDate,
    k: u32,
    bytes: Seq<u8>,
    n: nat,
    last: u32,
)
    requires
        writer.wf(),
        k < writer.max_files_per_day,
        writer.phase == (WriterPhase::Probing { date, part: k, incoming: bytes.len() as usize }),
        k <= last + 1,
        is_last_part(files, last, writer.max_files_per_day),
        k > last ==> files.dom().contains(last),
        with_part(files, last)[last].len() <= u64::MAX,
        countable(
            writer.with_file(date, last, with_part(files, last)[last].len() as u64),
            with_part(files, last),
            bytes,
        ),
        n >= 2 * writer.max_files_per_day - k + 6,
    ensures
        ({
            let end = run(writer, WriterAction::Probe { date, part: k }, files, bytes, n);
            let opened = with_part(files, last);
            let opener = writer.with_file(date, last, opened[last].len() as u64);
            &&& end.1 == WriterAction::Finish(WriteOutcome::Written)
            &&& end.2 == files_after_write(opener, opened, bytes)
            &&& end.0 == writer_after_write(opener, opened, date, bytes)
            &&& holds_open(end.0, end.2, date)
        }),
    decreases writer.max_files_per_day - k,
{
    let max = writer.max_files_per_day;
    let incoming = bytes.len() as usize;
    reveal_with_fuel(run, 2);
    let present = files.dom().contains(k);
    let (next, action) = writer.continued(WriterEvent::Present(present));
    if present && k + 1 < max {
        lemma_probe(next, files, date, (k + 1) as u32, bytes, (n - 1) as nat, last);
        let opened = with_part(files, last);
        let opener = writer.with_file(date, last, opened[last].len() as u64);
        let next_opener = next.with_file(date, last, opened[last].len() as u64);
        assert(files_after_write(opener, opened, bytes) == files_after_write(
            next_opener,
            opened,
            bytes,
        ));
    } else {
        assert(action == (WriterAction::Open { date, part: last }));
        let opened = with_part(files, last);
        let opener = next.with_file(date, last, opened[last].len() as u64);
        assert(opened.dom().contains(last));
        lemma_rotated_write(opener, opened, date, bytes, (n - 2) as nat);
        let first_opener = writer.with_file(date, last, opened[last].len() as u64);
        assert(files_after_write(opener, opened, bytes) == files_after_write(
            first_opener,
            opened,
            bytes,
        ));
    }
}

/// The first write on a new day goes on with the last of the files that the day already has.
pub proof fn write_on_new_day(
    writer: DailyDatedLogWriter,
    files: DayFiles,
    date: LogDate,
    bytes: Seq<u8>,
    last: u32,
)
    requires
        writer.wf(),
        writer.active_date != Some(date),
        is_last_part(files, last, writer.max_files_per_day),
        with_part(files, last)[last].len() <= u64::MAX,
        countable(
            writer.with_file(date, last, with_part(files, last)[last].len() as u64),
            with_part(files, last),
            bytes,
        ),
    ensures
        ({
            let end = write_run(writer, files, date, bytes);
            let opened = with_part(files, last);
            let opener = writer.with_file(date, last, opened[last].len() as u64);
            &&& end.1 == WriterAction::Finish(WriteOutcome::Written)
            &&& end.2 == files_after_write(opener, opened, bytes)
            &&& end.0 == writer_after_write(opener, opened, date, bytes)
            &&& holds_open(end.0, end.2, date)
        }),
{
    let incoming = bytes.len() as usize;
    let n = (2 * writer.max_files_per_day + 8) as nat;
    let (begun, action) = writer.begun(date, incoming);
    let (probing, probe) = begun.continued(WriterEvent::Done);
    reveal_with_fuel(run, 2);
    lemma_probe(probing, files, date, 0, bytes, (n - 1) as nat, last);
    let opened = with_part(files, last);
    let opener = writer.with_file(date, last, opened[last].len() as u64);
    let probing_opener = probing.with_file(date, last, opened[last].len() as u64);
    assert(files_after_write(opener, opened, bytes) == files_after_write(
        probing_opener,
        opened,
        bytes,
    ));
}

} // verus!
