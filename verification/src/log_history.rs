//! What the log files of a day hold after many writes.

use vstd::prelude::*;

use crate::log_date::LogDate;
use crate::log_writer;
use crate::log_writer::{DailyDatedLogWriter, WriteOutcome, WriterAction};

verus! {

/// Writes one after the other.
pub open spec fn flat(buffers: Seq<Seq<u8>>) -> Seq<u8>
    decreases buffers.len(),
{
    if buffers.len() == 0 {
        Seq::empty()
    } else {
        flat(buffers.drop_last()) + buffers.last()
    }
}

/// A writer and the files of the day after writes on that day, from no files at all.
pub open spec fn after_writes(
    writer: DailyDatedLogWriter,
    date: LogDate,
    buffers: Seq<Seq<u8>>,
) -> (DailyDatedLogWriter, log_writer::DayFiles)
    decreases buffers.len(),
{
    if buffers.len() == 0 {
        (writer, Map::empty())
    } else {
        let (writer, files) = after_writes(writer, date, buffers.drop_last());
        let end = log_writer::write_run(writer, files, date, buffers.last());
        (end.0, end.2)
    }
}

/// Whether every one of the writes was made.
pub open spec fn all_written(
    writer: DailyDatedLogWriter,
    date: LogDate,
    buffers: Seq<Seq<u8>>,
) -> bool
    decreases buffers.len(),
{
    buffers.len() > 0 ==> {
        let (before, files) = after_writes(writer, date, buffers.drop_last());
        &&& all_written(writer, date, buffers.drop_last())
        &&& log_writer::write_run(before, files, date, buffers.last()).1 == WriterAction::Finish(
            WriteOutcome::Written,
        )
    }
}

/// The place of the first write after those that a file holds.
pub open spec fn group_end(buffers: Seq<Seq<u8>>, starts: Seq<int>, p: int) -> int {
    if p + 1 < starts.len() {
        starts[p + 1]
    } else {
        buffers.len() as int
    }
}

/// Whether a file holds just the writes from `start` on and before `end`, and is longer than the
/// limit only if all its bytes come from a single write.
pub open spec fn is_group(
    file: Seq<u8>,
    buffers: Seq<Seq<u8>>,
    start: int,
    end: int,
    max_file_bytes: u64,
) -> bool {
    &&& 0 <= start < end <= buffers.len()
    &&& file == flat(buffers.subrange(start, end))
    &&& file.len() > max_file_bytes ==> exists|q: int|
        start <= q < end && #[trigger] buffers[q] == file
}

/// Whether the files of a day are numbered without a gap and hold the writes from the one at
/// `starts[0]` on, none of them split: file `p` begins with the write at `starts[p]` and ends where
/// the next one begins, or with the last write.
pub open spec fn is_layout(
    starts: Seq<int>,
    files: log_writer::DayFiles,
    buffers: Seq<Seq<u8>>,
    max_file_bytes: u64,
) -> bool {
    &&& 0 < starts.len() <= u32::MAX
    &&& forall|i: u32| #[trigger] files.dom().contains(i) <==> i < starts.len()
    &&& forall|p: int|
        0 <= p < starts.len() ==> is_group(
            files[p as u32],
            buffers,
            #[trigger] starts[p],
            group_end(buffers, starts, p),
            max_file_bytes,
        )
}

/// Whether a file holds something, and the first write of the next one would have taken it beyond
/// the limit.
pub open spec fn is_left_full(
    file: Seq<u8>,
    buffers: Seq<Seq<u8>>,
    starts: Seq<int>,
    p: int,
    max_file_bytes: u64,
) -> bool {
    file.len() > 0 && file.len() + buffers[starts[p + 1]].len() > max_file_bytes
}

/// Whether no file was left and no write given up without need: each file but the last holds
/// something, and the first write of the next file would have taken it beyond the limit; and where
/// the first writes are gone, the day has as many files as it may have.
pub open spec fn is_filled(
    starts: Seq<int>,
    files: log_writer::DayFiles,
    buffers: Seq<Seq<u8>>,
    max_file_bytes: u64,
    max_files_per_day: u32,
) -> bool {
    &&& forall|p: int|
        0 <= p < starts.len() - 1 ==> #[trigger] is_left_full(
            files[p as u32],
            buffers,
            starts,
            p,
            max_file_bytes,
        )
    &&& starts[0] == 0 || starts.len() == max_files_per_day
}

/// The first files of a day, one after the other.
pub open spec fn joined_files(files: log_writer::DayFiles, n: nat) -> Seq<u8>
    decreases n,
{
    if n == 0 {
        Seq::empty()
    } else {
        joined_files(files, (n - 1) as nat) + files[(n - 1) as u32]
    }
}

/// Whether writes stay within what the machine counts: each has a size that it can have, and all of
/// them together do, unless files are held to less than the largest size anyway.
pub open spec fn countable_writes(buffers: Seq<Seq<u8>>, max_file_bytes: u64) -> bool {
    &&& max_file_bytes < u64::MAX || flat(buffers).len() <= u64::MAX
    &&& forall|i: int| 0 <= i < buffers.len() ==> (#[trigger] buffers[i]).len() <= usize::MAX
}

/// Whether a writer has not written yet.
pub open spec fn is_unused(writer: DailyDatedLogWriter) -> bool {
    writer.wf() && writer.active_date is None
}

proof fn lemma_flat_concat(a: Seq<Seq<u8>>, b: Seq<Seq<u8>>)
    ensures
        flat(a + b) == flat(a) + flat(b),
    decreases b.len(),
{
    if b.len() == 0 {
        assert(a + b =~= a);
        assert(flat(a) + flat(b) =~= flat(a));
    } else {
        assert((a + b).drop_last() =~= a + b.drop_last());
        lemma_flat_concat(a, b.drop_last());
        assert(flat(a + b) =~= flat(a) + flat(b));
    }
}

proof fn lemma_flat_subrange(buffers: Seq<Seq<u8>>, i: int, j: int)
    requires
        0 <= i <= j <= buffers.len(),
    ensures
        flat(buffers.subrange(i, j)).len() <= flat(buffers).len(),
{
    lemma_flat_concat(buffers.take(i), buffers.subrange(i, j));
    lemma_flat_concat(buffers.take(i) + buffers.subrange(i, j), buffers.skip(j));
    assert(buffers.take(i) + buffers.subrange(i, j) + buffers.skip(j) =~= buffers);
}

proof fn lemma_flat_one(bytes: Seq<u8>)
    ensures
        flat(seq![bytes]) == bytes,
{
    reveal_with_fuel(flat, 2);
    assert(seq![bytes].drop_last() =~= Seq::empty());
    assert(flat(seq![bytes]) =~= bytes);
}

proof fn lemma_group_kept(
    file: Seq<u8>,
    buffers: Seq<Seq<u8>>,
    start: int,
    end: int,
    max_file_bytes: u64,
    bytes: Seq<u8>,
)
    requires
        is_group(file, buffers, start, end, max_file_bytes),
    ensures
        is_group(file, buffers.push(bytes), start, end, max_file_bytes),
{
    assert(buffers.push(bytes).subrange(start, end) =~= buffers.subrange(start, end));
    if file.len() > max_file_bytes {
        let q = choose|q: int| start <= q < end && #[trigger] buffers[q] == file;
        assert(buffers.push(bytes)[q] == file);
    }
}

proof fn lemma_group_grown(
    file: Seq<u8>,
    buffers: Seq<Seq<u8>>,
    start: int,
    max_file_bytes: u64,
    bytes: Seq<u8>,
)
    requires
        is_group(file, buffers, start, buffers.len() as int, max_file_bytes),
        file.len() == 0 || file.len() + bytes.len() <= max_file_bytes,
    ensures
        is_group(
            file + bytes,
            buffers.push(bytes),
            start,
            buffers.len() as int + 1,
            max_file_bytes,
        ),
{
    let all = buffers.push(bytes);
    let n = buffers.len() as int;
    assert(all.subrange(start, n + 1).drop_last() =~= buffers.subrange(start, n));
    if (file + bytes).len() > max_file_bytes {
        assert(all[n] =~= file + bytes);
    }
}

proof fn lemma_group_begun(buffers: Seq<Seq<u8>>, max_file_bytes: u64, bytes: Seq<u8>)
    ensures
        is_group(
            bytes,
            buffers.push(bytes),
            buffers.len() as int,
            buffers.len() as int + 1,
            max_file_bytes,
        ),
{
    let all = buffers.push(bytes);
    let n = buffers.len() as int;
    assert(all.subrange(n, n + 1) =~= seq![bytes]);
    lemma_flat_one(bytes);
    assert(all[n] == bytes);
}

/// A write keeps the layout of a day's files.
proof fn lemma_layout_kept(
    writer: DailyDatedLogWriter,
    files: log_writer::DayFiles,
    date: LogDate,
    buffers: Seq<Seq<u8>>,
    starts: Seq<int>,
    bytes: Seq<u8>,
) -> (next: Seq<int>)
    requires
        log_writer::holds_open(writer, files, date),
        is_layout(starts, files, buffers, writer.max_file_bytes),
        starts.len() == writer.active_part + 1,
        log_writer::countable(writer, files, bytes),
    ensures
        next == if writer.has_room(bytes.len() as usize) {
            starts
        } else if writer.active_part + 1 < writer.max_files_per_day {
            starts.push(buffers.len() as int)
        } else {
            starts.drop_first().push(buffers.len() as int)
        },
        is_layout(
            next,
            log_writer::files_after_write(writer, files, bytes),
            buffers.push(bytes),
            writer.max_file_bytes,
        ),
        next.len() == log_writer::part_after_write(writer, bytes) + 1,
        next[0] >= starts[0],
{
    let max = writer.max_file_bytes;
    let part = writer.active_part as int;
    let all = buffers.push(bytes);
    let n = buffers.len() as int;
    let after = log_writer::files_after_write(writer, files, bytes);
    assert(is_group(files[part as u32], buffers, starts[part], group_end(buffers, starts, part), max));
    if writer.has_room(bytes.len() as usize) {
        lemma_group_grown(files[part as u32], buffers, starts[part], max, bytes);
        assert forall|p: int| 0 <= p < starts.len() implies is_group(
            after[p as u32],
            all,
            #[trigger] starts[p],
            group_end(all, starts, p),
            max,
        ) by {
            if p < part {
                lemma_group_kept(
                    files[p as u32],
                    buffers,
                    starts[p],
                    group_end(buffers, starts, p),
                    max,
                    bytes,
                );
            }
        }
        starts
    } else if part + 1 < writer.max_files_per_day {
        let next = starts.push(n);
        lemma_group_begun(buffers, max, bytes);
        assert(after[(part + 1) as u32] =~= bytes);
        assert forall|p: int| 0 <= p < next.len() implies is_group(
            after[p as u32],
            all,
            #[trigger] next[p],
            group_end(all, next, p),
            max,
        ) by {
            if p <= part {
                assert(next[p] == starts[p]);
                assert(group_end(all, next, p) == group_end(buffers, starts, p));
                lemma_group_kept(
                    files[p as u32],
                    buffers,
                    starts[p],
                    group_end(buffers, starts, p),
                    max,
                    bytes,
                );
            }
        }
        next
    } else {
        let next = starts.drop_first().push(n);
        lemma_group_begun(buffers, max, bytes);
        assert forall|p: int| 0 <= p < next.len() implies is_group(
            after[p as u32],
            all,
            #[trigger] next[p],
            group_end(all, next, p),
            max,
        ) by {
            if p < part {
                assert(next[p] == starts[p + 1]);
                assert(group_end(all, next, p) == group_end(buffers, starts, p + 1));
                assert(after[p as u32] == files[(p + 1) as u32]);
                lemma_group_kept(
                    files[(p + 1) as u32],
                    buffers,
                    starts[p + 1],
                    group_end(buffers, starts, p + 1),
                    max,
                    bytes,
                );
            }
        }
        assert(is_group(files[0u32], buffers, starts[0], group_end(buffers, starts, 0), max));
        next
    }
}

/// A write leaves no file that still had room for it.
#[verifier::spinoff_prover]
proof fn lemma_filled_kept(
    writer: DailyDatedLogWriter,
    files: log_writer::DayFiles,
    date: LogDate,
    buffers: Seq<Seq<u8>>,
    starts: Seq<int>,
    bytes: Seq<u8>,
    next: Seq<int>,
)
    requires
        log_writer::holds_open(writer, files, date),
        is_layout(starts, files, buffers, writer.max_file_bytes),
        starts.len() == writer.active_part + 1,
        is_filled(
            starts,
            files,
            buffers,
            writer.max_file_bytes,
            writer.max_files_per_day,
        ),
        log_writer::countable(writer, files, bytes),
        next == if writer.has_room(bytes.len() as usize) {
            starts
        } else if writer.active_part + 1 < writer.max_files_per_day {
            starts.push(buffers.len() as int)
        } else {
            starts.drop_first().push(buffers.len() as int)
        },
    ensures
        is_filled(
            next,
            log_writer::files_after_write(writer, files, bytes),
            buffers.push(bytes),
            writer.max_file_bytes,
            writer.max_files_per_day,
        ),
{
    let max = writer.max_file_bytes;
    let part = writer.active_part as int;
    let all = buffers.push(bytes);
    let n = buffers.len() as int;
    let after = log_writer::files_after_write(writer, files, bytes);
    let moved = if next.len() == starts.len() && !writer.has_room(bytes.len() as usize) {
        1int
    } else {
        0int
    };
    assert forall|p: int| 0 <= p < next.len() - 1 implies #[trigger] is_left_full(
        after[p as u32],
        all,
        next,
        p,
        max,
    ) by {
        let q = p + moved;
        if q < part {
            assert(is_left_full(files[q as u32], buffers, starts, q, max));
            assert(is_group(
                files[(q + 1) as u32],
                buffers,
                starts[q + 1],
                group_end(buffers, starts, q + 1),
                max,
            ));
            assert(next[p + 1] == starts[q + 1]);
            assert(all[next[p + 1]] == buffers[starts[q + 1]]);
            assert(after[p as u32] == files[q as u32]);
        } else {
            assert(q == part);
            assert(next[p + 1] == n);
            assert(all[n] == bytes);
            assert(after[p as u32] == files[part as u32]);
        }
    }
}

proof fn lemma_after_writes(writer: DailyDatedLogWriter, date: LogDate, buffers: Seq<Seq<u8>>) -> (starts:
    Seq<int>)
    requires
        is_unused(writer),
        buffers.len() > 0,
        countable_writes(buffers, writer.max_file_bytes),
    ensures
        all_written(writer, date, buffers),
        ({
            let (end, files) = after_writes(writer, date, buffers);
            &&& log_writer::holds_open(end, files, date)
            &&& end.max_file_bytes == writer.max_file_bytes
            &&& end.max_files_per_day == writer.max_files_per_day
            &&& end.retention_days == writer.retention_days
            &&& is_layout(starts, files, buffers, writer.max_file_bytes)
            &&& is_filled(
                starts,
                files,
                buffers,
                writer.max_file_bytes,
                writer.max_files_per_day,
            )
            &&& starts.len() == end.active_part + 1
        }),
    decreases buffers.len(),
{
    let before = buffers.drop_last();
    let bytes = buffers.last();
    assert(before.push(bytes) =~= buffers);
    let (held, files) = after_writes(writer, date, before);
    if before.len() == 0 {
        reveal_with_fuel(all_written, 2);
        log_writer::write_on_new_day(writer, files, date, bytes, 0);
        lemma_group_begun(before, writer.max_file_bytes, bytes);
        let (end, after) = after_writes(writer, date, buffers);
        assert(after[0u32] =~= bytes);
        assert(before.len() == 0);
        seq![0int]
    } else {
        assert(flat(before).len() <= flat(buffers).len());
        assert forall|i: int| 0 <= i < before.len() implies (#[trigger] before[i]).len()
            <= usize::MAX by {
            assert(before[i] == buffers[i]);
        }
        let starts = lemma_after_writes(writer, date, before);
        let i = held.active_part as int;
        assert(is_group(
            files[held.active_part],
            before,
            starts[i],
            group_end(before, starts, i),
            writer.max_file_bytes,
        ));
        lemma_flat_subrange(before, starts[i], group_end(before, starts, i));
        assert(!files.dom().contains((held.active_part + 1) as u32) || held.active_part + 1
            == held.max_files_per_day);
        log_writer::write_on_open_day(held, files, date, bytes);
        let next = lemma_layout_kept(held, files, date, before, starts, bytes);
        lemma_filled_kept(held, files, date, before, starts, bytes, next);
        next
    }
}

/// After any number of writes on one day, from no files at all, every write was made. The day's
/// files are no more than it may have and are numbered without a gap. They hold the newest writes,
/// in order and up to the last one; none is split over two files, and a file is longer than the
/// limit only if all its bytes come from a single write.
pub proof fn files_hold_the_newest_writes(
    writer: DailyDatedLogWriter,
    date: LogDate,
    buffers: Seq<Seq<u8>>,
)
    requires
        is_unused(writer),
        buffers.len() > 0,
        countable_writes(buffers, writer.max_file_bytes),
    ensures
        all_written(writer, date, buffers),
        ({
            let files = after_writes(writer, date, buffers).1;
            exists|starts: Seq<int>| #[trigger]
                is_layout(starts, files, buffers, writer.max_file_bytes) && starts.len()
                    <= writer.max_files_per_day && joined_files(files, starts.len()) == flat(
                    buffers.skip(starts[0]),
                )
        }),
{
    let starts = lemma_after_writes(writer, date, buffers);
    let files = after_writes(writer, date, buffers).1;
    lemma_joined_files(files, buffers, starts, writer.max_file_bytes, starts.len());
    assert(buffers.skip(starts[0]) =~= buffers.subrange(starts[0], buffers.len() as int));
}

/// A file is left only when it holds something and the next write would take it beyond the limit,
/// and the oldest file is given up only when the day has as many as it may have. So on a day with
/// room for them all, every write is kept.
pub proof fn files_are_filled(
    writer: DailyDatedLogWriter,
    date: LogDate,
    buffers: Seq<Seq<u8>>,
)
    requires
        is_unused(writer),
        buffers.len() > 0,
        countable_writes(buffers, writer.max_file_bytes),
    ensures
        ({
            let files = after_writes(writer, date, buffers).1;
            exists|starts: Seq<int>| #[trigger]
                is_layout(starts, files, buffers, writer.max_file_bytes) && is_filled(
                    starts,
                    files,
                    buffers,
                    writer.max_file_bytes,
                    writer.max_files_per_day,
                )
        }),
{
    let starts = lemma_after_writes(writer, date, buffers);
}

proof fn lemma_joined_files(
    files: log_writer::DayFiles,
    buffers: Seq<Seq<u8>>,
    starts: Seq<int>,
    max_file_bytes: u64,
    n: nat,
)
    requires
        is_layout(starts, files, buffers, max_file_bytes),
        0 < n <= starts.len(),
    ensures
        starts[0] < group_end(buffers, starts, n - 1) <= buffers.len(),
        joined_files(files, n) == flat(
            buffers.subrange(starts[0], group_end(buffers, starts, n - 1)),
        ),
    decreases n,
{
    let p = n - 1;
    assert(is_group(
        files[p as u32],
        buffers,
        starts[p],
        group_end(buffers, starts, p),
        max_file_bytes,
    ));
    if n == 1 {
        reveal_with_fuel(joined_files, 2);
        assert(joined_files(files, 1) =~= files[0u32]);
    } else {
        lemma_joined_files(files, buffers, starts, max_file_bytes, p as nat);
        let first = buffers.subrange(starts[0], starts[p]);
        let rest = buffers.subrange(starts[p], group_end(buffers, starts, p));
        lemma_flat_concat(first, rest);
        assert(first + rest =~= buffers.subrange(starts[0], group_end(buffers, starts, p)));
    }
}

/// The last write is always kept: it is at the end of the file that is open.
#[verifier::spinoff_prover]
#[verifier::rlimit(50)]
pub proof fn newest_write_is_kept(
    writer: DailyDatedLogWriter,
    date: LogDate,
    buffers: Seq<Seq<u8>>,
)
    requires
        is_unused(writer),
        buffers.len() > 0,
        countable_writes(buffers, writer.max_file_bytes),
    ensures
        ({
            let (end, files) = after_writes(writer, date, buffers);
            let file = files[end.active_part];
            &&& files.dom().contains(end.active_part)
            &&& file.len() >= buffers.last().len()
            &&& file.skip(file.len() - buffers.last().len()) == buffers.last()
        }),
{
    let starts = lemma_after_writes(writer, date, buffers);
    let (end, files) = after_writes(writer, date, buffers);
    let p = end.active_part as int;
    assert(is_group(
        files[end.active_part],
        buffers,
        starts[p],
        group_end(buffers, starts, p),
        writer.max_file_bytes,
    ));
    let group = buffers.subrange(starts[p], buffers.len() as int);
    assert(group.last() == buffers.last());
    let file = files[end.active_part];
    assert(file == flat(group.drop_last()) + buffers.last());
    assert(file.skip(file.len() - buffers.last().len()) =~= buffers.last());
}

} // verus!
