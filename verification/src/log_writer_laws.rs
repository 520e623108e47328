//! What holds of every step of a log, told by what the writer was asked and what it answered.

use vstd::prelude::*;

use crate::log_cleanup;
use crate::log_cleanup::{CleanupStep, YearListing};
use crate::log_date;
use crate::log_date::LogDate;
use crate::log_writer::{
    DailyDatedLogWriter, WriteOutcome, WriterAction, WriterEvent, WriterPhase,
};

verus! {

/// The day that a write under way is for, and how many bytes it has, as far as the writer still
/// has to know them.
pub open spec fn under_way(phase: WriterPhase) -> (Option<LogDate>, Option<usize>) {
    match phase {
        WriterPhase::Idle => (None, None),
        WriterPhase::Cleaning { date, incoming } => (Some(date), Some(incoming)),
        WriterPhase::Probing { date, incoming, .. } => (Some(date), Some(incoming)),
        WriterPhase::OpeningDay { date, incoming, .. } => (Some(date), Some(incoming)),
        WriterPhase::Shifting { date, incoming, .. } => (Some(date), Some(incoming)),
        WriterPhase::OpeningPart { date, incoming, .. } => (Some(date), Some(incoming)),
        WriterPhase::Writing { incoming } => (None, Some(incoming)),
    }
}

/// The day whose files an action touches, if it touches any by name.
pub open spec fn day_of(action: WriterAction) -> Option<LogDate> {
    match action {
        WriterAction::CleanUp { date, .. } => Some(date),
        WriterAction::Probe { date, .. } => Some(date),
        WriterAction::Open { date, .. } => Some(date),
        WriterAction::Remove { date, .. } => Some(date),
        WriterAction::MoveIfPresent { date, .. } => Some(date),
        WriterAction::Append => None,
        WriterAction::Finish(_) => None,
    }
}

/// A writer with the standard limits holds a file to 10 MiB, a day to 5 files and the log to 14
/// days.
pub proof fn standard_limits(writer: DailyDatedLogWriter)
    requires
        call_ensures(DailyDatedLogWriter::new, (), writer),
    ensures
        writer.max_file_bytes == 10 * 1024 * 1024,
        writer.max_files_per_day == 5,
        writer.retention_days == 14,
        writer.active_date is None,
        !writer.has_file,
        writer.phase is Idle,
{
}

/// A writer keeps the limits that it was made with; a limit below one counts as one.
pub proof fn limits_are_those_given(
    max_file_bytes: u64,
    max_files_per_day: u32,
    retention_days: i64,
    writer: DailyDatedLogWriter,
)
    requires
        call_ensures(
            DailyDatedLogWriter::new_with_policy,
            (max_file_bytes, max_files_per_day, retention_days),
            writer,
        ),
    ensures
        max_file_bytes >= 1 ==> writer.max_file_bytes == max_file_bytes,
        max_file_bytes == 0 ==> writer.max_file_bytes == 1,
        max_files_per_day >= 1 ==> writer.max_files_per_day == max_files_per_day,
        max_files_per_day == 0 ==> writer.max_files_per_day == 1,
        retention_days >= 1 ==> writer.retention_days == retention_days,
        retention_days <= 0 ==> writer.retention_days == 1,
        writer.active_date is None,
        !writer.has_file,
        writer.phase is Idle,
{
}

/// No step changes a limit.
pub proof fn limits_never_change(
    writer: &mut DailyDatedLogWriter,
    date: LogDate,
    incoming: usize,
    event: WriterEvent,
    action: WriterAction,
)
    requires
        call_ensures(DailyDatedLogWriter::begin_write, (writer, date, incoming), action)
            || call_ensures(DailyDatedLogWriter::handle, (writer, event), action),
    ensures
        final(writer).max_file_bytes == old(writer).max_file_bytes,
        final(writer).max_files_per_day == old(writer).max_files_per_day,
        final(writer).retention_days == old(writer).retention_days,
{
}

/// A write begins with a cleanup just where the log was last opened for another day or not yet,
/// and the cleanup is for the day of the write and by the writer's own retention. No cleanup comes
/// later in a write.
pub proof fn a_new_day_is_cleaned_up_once(
    writer: &mut DailyDatedLogWriter,
    date: LogDate,
    incoming: usize,
    first: WriterAction,
    waiting: &mut DailyDatedLogWriter,
    event: WriterEvent,
    next: WriterAction,
)
    requires
        call_ensures(DailyDatedLogWriter::begin_write, (writer, date, incoming), first),
        call_ensures(DailyDatedLogWriter::handle, (waiting, event), next),
    ensures
        first is CleanUp <==> old(writer).active_date != Some(date),
        first is CleanUp ==> first == (WriterAction::CleanUp {
            date,
            retention_days: old(writer).retention_days,
        }),
        first is CleanUp ==> *final(writer) == (DailyDatedLogWriter {
            has_file: false,
            phase: WriterPhase::Cleaning { date, incoming },
            ..*old(writer)
        }),
        !(next is CleanUp),
{
}

/// Looking for files and moving them changes nothing but what the writer waits for. Opening a file
/// makes it the one that is open, with the size that it was found to have; where that file is full
/// and the oldest one has to go first, no file is open.
pub proof fn only_opening_changes_what_is_open(
    writer: &mut DailyDatedLogWriter,
    event: WriterEvent,
    action: WriterAction,
)
    requires
        old(writer).accepts(event),
        call_ensures(DailyDatedLogWriter::handle, (writer, event), action),
    ensures
        old(writer).phase is Cleaning || old(writer).phase is Probing || old(writer).phase
            is Shifting ==> *final(writer) == (DailyDatedLogWriter {
            phase: final(writer).phase,
            ..*old(writer)
        }),
        event matches WriterEvent::Opened(bytes) ==> {
            &&& final(writer).active_date == under_way(old(writer).phase).0
            &&& final(writer).active_date is Some
            &&& final(writer).active_bytes == bytes
            &&& old(writer).phase matches WriterPhase::OpeningDay { part, .. } ==> (final(writer).active_part
                == part)
            &&& old(writer).phase matches WriterPhase::OpeningPart { part, .. } ==> (final(writer).active_part
                == part)
            &&& final(writer).has_file <==> !(action is Remove)
        },
{
}

/// Files are looked for from the first one on, one after the other, as long as each is there and
/// the day may have another; then the last that is there is opened, or the first where none is.
pub proof fn files_are_looked_for_in_order(
    writer: &mut DailyDatedLogWriter,
    event: WriterEvent,
    action: WriterAction,
)
    requires
        old(writer).accepts(event),
        call_ensures(DailyDatedLogWriter::handle, (writer, event), action),
    ensures
        old(writer).phase matches WriterPhase::Cleaning { date, .. } ==> action
            == (WriterAction::Probe { date, part: 0 }),
        old(writer).phase matches WriterPhase::Probing { date, part, .. } ==> {
            &&& event == WriterEvent::Present(true) && part + 1 < old(writer).max_files_per_day
                ==> action == (WriterAction::Probe { date, part: (part + 1) as u32 })
            &&& event == WriterEvent::Present(true) && part + 1 >= old(writer).max_files_per_day
                ==> action == (WriterAction::Open { date, part })
            &&& event == WriterEvent::Present(false) && part > 0 ==> action
                == (WriterAction::Open { date, part: (part - 1) as u32 })
            &&& event == WriterEvent::Present(false) && part == 0 ==> action
                == (WriterAction::Open { date, part: 0 })
        },
{
}

/// Once the oldest file is gone the others move down by one, from the lowest on, and the last place
/// is opened when none is left to move.
pub proof fn files_move_down_in_order(
    writer: &mut DailyDatedLogWriter,
    date: LogDate,
    part: u32,
    incoming: usize,
    action: WriterAction,
)
    requires
        old(writer).wf(),
        old(writer).phase == (WriterPhase::Shifting { date, part, incoming }),
        call_ensures(DailyDatedLogWriter::handle, (writer, WriterEvent::Done), action),
    ensures
        part < old(writer).max_files_per_day ==> action == (WriterAction::MoveIfPresent {
            date,
            from: part,
            to: (part - 1) as u32,
        }) && final(writer).phase == (WriterPhase::Shifting {
            date,
            part: (part + 1) as u32,
            incoming,
        }),
        part == old(writer).max_files_per_day ==> action == (WriterAction::Open {
            date,
            part: (part - 1) as u32,
        }),
{
}

/// The cleanup that a write begins with removes the directory of a day just where that day lies at
/// least as many days before the day of the write as the writer keeps: those fewer days back, and
/// the present one, always stay.
pub proof fn retention_is_the_writers(
    writer: &mut DailyDatedLogWriter,
    date: LogDate,
    incoming: usize,
    action: WriterAction,
    on: LogDate,
    kept: i64,
    years: &Vec<YearListing>,
    steps: Vec<CleanupStep>,
    year: usize,
    month: usize,
    day: usize,
    old_day: LogDate,
)
    requires
        old(writer).wf(),
        call_ensures(DailyDatedLogWriter::begin_write, (writer, date, incoming), action),
        action == (WriterAction::CleanUp { date: on, retention_days: kept }),
        call_ensures(
            log_cleanup::cleanup_expired_log_partitions,
            (years, on, kept),
            steps,
        ),
        date.valid(),
        log_cleanup::listed(years@, year as int, month as int, day as int),
        log_date::partition_date(
            years@[year as int].name@,
            years@[year as int].months->0@[month as int].name@,
            years@[year as int].months->0@[month as int].days->0@[day as int]@,
        ) == Some(old_day),
    ensures
        steps@.contains(CleanupStep::RemoveDay { year, month, day }) <==> date.day_number()
            - old_day.day_number() >= old(writer).retention_days,
{
    log_cleanup::days_are_removed_by_their_age(
        years,
        on,
        kept,
        steps,
        year,
        month,
        day,
        old_day,
    );
}

/// Every action of a write is on the files of the day that the write is for, and the writer does
/// not lose count of the bytes that are to be written.
pub proof fn a_write_stays_on_its_day(
    writer: &mut DailyDatedLogWriter,
    date: LogDate,
    incoming: usize,
    first: WriterAction,
    waiting: &mut DailyDatedLogWriter,
    event: WriterEvent,
    next: WriterAction,
)
    requires
        call_ensures(DailyDatedLogWriter::begin_write, (writer, date, incoming), first),
        call_ensures(DailyDatedLogWriter::handle, (waiting, event), next),
        old(waiting).accepts(event),
    ensures
        day_of(first) is Some ==> day_of(first) == Some(date),
        under_way(final(writer).phase).0 is Some ==> under_way(final(writer).phase).0 == Some(date),
        !(first is Finish) ==> under_way(final(writer).phase).1 == Some(incoming),
        first is Finish <==> final(writer).phase is Idle,
        first is Append <==> final(writer).phase is Writing,
        day_of(next) is Some ==> day_of(next) == under_way(old(waiting).phase).0,
        under_way(final(waiting).phase).0 is Some ==> under_way(final(waiting).phase).0
            == under_way(old(waiting).phase).0,
        !(next is Finish) ==> under_way(final(waiting).phase).1 == under_way(old(waiting).phase).1,
        next is Finish <==> final(waiting).phase is Idle,
        next is Append <==> final(waiting).phase is Writing,
{
}

/// What fails is reported as it failed, and changes nothing but that the write is over. The next
/// write on a day that could not be opened therefore begins with a cleanup again.
pub proof fn failures_end_a_write_and_change_nothing(
    writer: &mut DailyDatedLogWriter,
    action: WriterAction,
)
    requires
        old(writer).accepts(WriterEvent::Failed),
        call_ensures(DailyDatedLogWriter::handle, (writer, WriterEvent::Failed), action),
    ensures
        old(writer).phase is Writing ==> action == WriterAction::Finish(
            WriteOutcome::AppendFailed,
        ),
        old(writer).phase is OpeningDay || old(writer).phase is OpeningPart ==> action
            == WriterAction::Finish(WriteOutcome::OpenFailed),
        *final(writer) == (DailyDatedLogWriter { phase: WriterPhase::Idle, ..*old(writer) }),
{
}

/// The bytes of a write are counted once they are written, up to what the machine counts, and the
/// write is over then.
pub proof fn written_bytes_are_counted(
    writer: &mut DailyDatedLogWriter,
    incoming: usize,
    action: WriterAction,
)
    requires
        old(writer).phase == (WriterPhase::Writing { incoming }),
        call_ensures(DailyDatedLogWriter::handle, (writer, WriterEvent::Done), action),
    ensures
        action == WriterAction::Finish(WriteOutcome::Written),
        final(writer).active_bytes == if old(writer).active_bytes + incoming > u64::MAX {
            u64::MAX as int
        } else {
            old(writer).active_bytes + incoming
        },
        final(writer).active_date == old(writer).active_date,
        final(writer).active_part == old(writer).active_part,
        final(writer).has_file == old(writer).has_file,
        final(writer).phase is Idle,
{
}

/// On the day that a file is open for, bytes go to that file as long as it is empty or holds them
/// within the limit. Else they go to the next file of the day, and where the day may have no more
/// the oldest file is given up first. Nothing else about the writer changes, but that no file is
/// open while files are moved.
pub proof fn a_full_file_is_left(
    writer: &mut DailyDatedLogWriter,
    date: LogDate,
    incoming: usize,
    action: WriterAction,
)
    requires
        old(writer).wf(),
        old(writer).active_date == Some(date),
        call_ensures(DailyDatedLogWriter::begin_write, (writer, date, incoming), action),
    ensures
        ({
            let bytes = old(writer).active_bytes;
            let part = old(writer).active_part;
            if bytes == 0 || bytes + incoming <= old(writer).max_file_bytes || bytes + incoming
                > u64::MAX && old(writer).max_file_bytes == u64::MAX {
                &&& old(writer).has_file ==> action == WriterAction::Append
                &&& !old(writer).has_file ==> action == WriterAction::Finish(
                    WriteOutcome::NotOpened,
                )
                &&& final(writer).has_file == old(writer).has_file
            } else if part + 1 < old(writer).max_files_per_day {
                &&& action == (WriterAction::Open { date, part: (part + 1) as u32 })
                &&& final(writer).has_file == old(writer).has_file
            } else {
                &&& action == (WriterAction::Remove { date, part: 0 })
                &&& !final(writer).has_file
            }
        }),
        final(writer).active_date == old(writer).active_date,
        final(writer).active_part == old(writer).active_part,
        final(writer).active_bytes == old(writer).active_bytes,
{
}

} // verus!
