//! What the pushes of a call give, told by what came in and what came back.

use vstd::prelude::*;
use vstd::string::*;

use crate::live_tool_output;
use crate::live_tool_output::{LiveToolOutputBuffer, LiveToolOutputPush, LiveToolOutputStats};
use crate::text;

verus! {

/// One push: what came in, when, and what came back.
pub struct Pushed<'a> {
    /// The name of the call.
    pub call_id: &'a str,
    /// The text that came in.
    pub delta: &'a str,
    /// The time that it came in at.
    pub now: u128,
    /// What the push gave.
    pub push: LiveToolOutputPush,
}

/// Everything that came in, in order.
pub open spec fn sent(calls: Seq<Pushed>) -> Seq<char>
    decreases calls.len(),
{
    if calls.len() == 0 {
        Seq::empty()
    } else {
        sent(calls.drop_last()) + calls.last().delta@
    }
}

/// How many of the pushes gave a frame.
pub open spec fn frames(calls: Seq<Pushed>) -> nat
    decreases calls.len(),
{
    if calls.len() == 0 {
        0
    } else {
        frames(calls.drop_last()) + if calls.last().push.output is Some {
            1nat
        } else {
            0nat
        }
    }
}

/// What came in with the first `n` pushes, and when.
spec fn arrived(calls: Seq<Pushed>, n: int) -> Seq<(Seq<char>, u128)> {
    Seq::new(n as nat, |i: int| (calls[i].delta@, calls[i].now))
}

proof fn lemma_arrived(calls: Seq<Pushed>, n: int)
    requires
        0 <= n <= calls.len(),
    ensures
        live_tool_output::all_output(arrived(calls, n)) == sent(calls.take(n)),
    decreases n,
{
    if n > 0 {
        lemma_arrived(calls, n - 1);
        assert(arrived(calls, n).drop_last() =~= arrived(calls, n - 1));
        assert(calls.take(n).drop_last() =~= calls.take(n - 1));
    }
}

proof fn lemma_received(pushes: Seq<(Seq<char>, u128)>, preview_bytes: nat, interval: u128)
    ensures
        ({
            let entry = live_tool_output::after_pushes(pushes, preview_bytes, interval);
            let total = text::byte_len(live_tool_output::all_output(pushes));
            entry.received_bytes == if total > usize::MAX {
                usize::MAX as nat
            } else {
                total
            }
        }),
    decreases pushes.len(),
{
    if pushes.len() > 0 {
        lemma_received(pushes.drop_last(), preview_bytes, interval);
        text::lemma_encode_concat(
            live_tool_output::all_output(pushes.drop_last()),
            pushes.last().0,
        );
    } else {
        assert(text::byte_len(Seq::<char>::empty()) == 0);
    }
}

/// Where the record of a call stands before push `n`, and that the push gives what the record
/// says.
proof fn lemma_record(
    buffers: Seq<&mut LiveToolOutputBuffer>,
    calls: Seq<Pushed>,
    id: Seq<char>,
    n: int,
)
    requires
        buffers.len() == calls.len(),
        forall|i: int|
            0 <= i < calls.len() ==> call_ensures(
                LiveToolOutputBuffer::push_at,
                (#[trigger] buffers[i], calls[i].call_id, calls[i].delta, calls[i].now),
                calls[i].push,
            ),
        forall|i: int|
            0 <= i < calls.len() - 1 ==> *final(#[trigger] buffers[i]) == *buffers[i + 1],
        forall|i: int| 0 <= i < calls.len() ==> (#[trigger] calls[i]).call_id@ == id,
        calls.len() > 0,
        buffers[0].wf(),
        !buffers[0]@.dom().contains(id),
        0 <= n < calls.len(),
    ensures
        ({
            let size = buffers[0].spec_preview_bytes();
            let interval = buffers[0].spec_emit_interval();
            let before = live_tool_output::after_pushes(arrived(calls, n), size as nat, interval);
            let after = live_tool_output::after_pushes(
                arrived(calls, n + 1),
                size as nat,
                interval,
            );
            &&& size > live_tool_output::marker_bytes()
            &&& final(buffers[n]).wf()
            &&& final(buffers[n]).spec_preview_bytes() == size
            &&& final(buffers[n]).spec_emit_interval() == interval
            &&& final(buffers[n])@.dom().contains(id)
            &&& final(buffers[n])@[id] == after
            &&& after == before.pushed(size as nat, interval, calls[n].delta@, calls[n].now)
            &&& live_tool_output::push_result(
                before,
                after,
                interval,
                calls[n].now,
                calls[n].push,
            )
        }),
    decreases n,
{
    buffers[0].previews_have_room();
    let size = buffers[0].spec_preview_bytes();
    let interval = buffers[0].spec_emit_interval();
    assert(arrived(calls, n + 1).drop_last() =~= arrived(calls, n));
    assert(arrived(calls, n + 1).last() == (calls[n].delta@, calls[n].now));
    assert(calls[n].call_id@ == id);
    if n > 0 {
        lemma_record(buffers, calls, id, n - 1);
        assert(*final(buffers[n - 1]) == *buffers[(n - 1) + 1]);
        assert(*final(buffers[n - 1]) == *buffers[n]);
    }
    assert((*buffers[n]).spec_preview_bytes() == size);
    assert((*buffers[n]).record(id) == live_tool_output::after_pushes(
        arrived(calls, n),
        size as nat,
        interval,
    ));
}

/// The record knows the time of the last frame.
#[verifier::rlimit(50)]
proof fn lemma_last_frame_time(
    buffers: Seq<&mut LiveToolOutputBuffer>,
    calls: Seq<Pushed>,
    id: Seq<char>,
    n: int,
)
    requires
        buffers.len() == calls.len(),
        forall|i: int|
            0 <= i < calls.len() ==> call_ensures(
                LiveToolOutputBuffer::push_at,
                (#[trigger] buffers[i], calls[i].call_id, calls[i].delta, calls[i].now),
                calls[i].push,
            ),
        forall|i: int|
            0 <= i < calls.len() - 1 ==> *final(#[trigger] buffers[i]) == *buffers[i + 1],
        forall|i: int| 0 <= i < calls.len() ==> (#[trigger] calls[i]).call_id@ == id,
        calls.len() > 0,
        buffers[0].wf(),
        !buffers[0]@.dom().contains(id),
        0 <= n <= calls.len(),
    ensures
        ({
            let size = buffers[0].spec_preview_bytes();
            let interval = buffers[0].spec_emit_interval();
            let entry = live_tool_output::after_pushes(arrived(calls, n), size as nat, interval);
            &&& n == 0 ==> entry.last_emit_at is None
            &&& n > 0 ==> exists|j: int|
                0 <= j < n && (#[trigger] calls[j]).push.output is Some && entry.last_emit_at
                    == Some(calls[j].now) && forall|k: int|
                    j < k < n ==> (#[trigger] calls[k]).push.output is None
            &&& n <= usize::MAX ==> entry.emitted_frames == frames(calls.take(n))
                && entry.coalesced_frames == n - frames(calls.take(n))
            &&& frames(calls.take(n)) <= n
        }),
    decreases n,
{
    if n > 0 {
        lemma_last_frame_time(buffers, calls, id, n - 1);
        lemma_record(buffers, calls, id, n - 1);
        assert(calls.take(n).drop_last() =~= calls.take(n - 1));
        let size = buffers[0].spec_preview_bytes();
        let interval = buffers[0].spec_emit_interval();
        let before = live_tool_output::after_pushes(arrived(calls, n - 1), size as nat, interval);
        if calls[n - 1].push.output is None {
            assert(n - 1 > 0);
            let j = choose|j: int|
                0 <= j < n - 1 && (#[trigger] calls[j]).push.output is Some && before.last_emit_at
                    == Some(calls[j].now) && forall|k: int|
                    j < k < n - 1 ==> (#[trigger] calls[k]).push.output is None;
            assert forall|k: int| j < k < n implies (#[trigger] calls[k]).push.output is None by {
                if k < n - 1 {
                }
            }
        }
    }
}

/// What each push of a call gives. The first push gives a frame, and a later one does exactly
/// when it comes at least the interval after the last push that gave one, or before it on the
/// clock. A frame is all that came in so far where that fits; else it is the truncation marker
/// and the longest end of what came in that fits beside it. The first push by which the output
/// does not fit is told apart, and the bytes are counted up to what the machine counts.
#[verifier::rlimit(50)]
pub proof fn pushes_give_what_came_in(
    buffers: Seq<&mut LiveToolOutputBuffer>,
    calls: Seq<Pushed>,
    id: Seq<char>,
    i: int,
)
    requires
        buffers.len() == calls.len(),
        forall|i: int|
            0 <= i < calls.len() ==> call_ensures(
                LiveToolOutputBuffer::push_at,
                (#[trigger] buffers[i], calls[i].call_id, calls[i].delta, calls[i].now),
                calls[i].push,
            ),
        forall|i: int|
            0 <= i < calls.len() - 1 ==> *final(#[trigger] buffers[i]) == *buffers[i + 1],
        forall|i: int| 0 <= i < calls.len() ==> (#[trigger] calls[i]).call_id@ == id,
        calls.len() > 0,
        buffers[0].wf(),
        !buffers[0]@.dom().contains(id),
        0 <= i < calls.len(),
    ensures
        ({
            let size = buffers[0].spec_preview_bytes();
            let interval = buffers[0].spec_emit_interval();
            let push = calls[i].push;
            let earlier = text::byte_len(sent(calls.take(i)));
            let output = sent(calls.take(i + 1));
            let total = text::byte_len(output);
            &&& i == 0 ==> push.output is Some
            &&& forall|j: int|
                0 <= j < i && (#[trigger] calls[j]).push.output is Some && (forall|k: int|
                    j < k < i ==> (#[trigger] calls[k]).push.output is None) ==> (push.output is Some
                    <==> calls[i].now < calls[j].now || calls[i].now >= calls[j].now + interval)
            &&& total <= size ==> (push.output matches Some(frame) ==> frame@ == output)
            &&& total > size ==> (push.output matches Some(frame) ==> exists|from: int|
                0 <= from <= output.len() && frame@ == "…[truncated]\n"@ + #[trigger] output.skip(
                    from,
                ) && text::byte_len(frame@) <= size && forall|longer: int|
                    0 <= longer < from ==> text::byte_len("…[truncated]\n"@) + text::byte_len(
                        #[trigger] output.skip(longer),
                    ) > size)
            &&& push.truncation_started <==> earlier <= size < total
            &&& push.received_bytes == if total > usize::MAX {
                usize::MAX as nat
            } else {
                total
            }
        }),
{
    let size = buffers[0].spec_preview_bytes();
    let interval = buffers[0].spec_emit_interval();
    let output = sent(calls.take(i + 1));
    let max = (size - live_tool_output::marker_bytes()) as nat;
    lemma_record(buffers, calls, id, i);
    lemma_last_frame_time(buffers, calls, id, i);
    lemma_arrived(calls, i);
    lemma_arrived(calls, i + 1);
    lemma_received(arrived(calls, i + 1), size as nat, interval);
    live_tool_output::preview_shows_most_recent_output(arrived(calls, i), size as nat, interval);
    live_tool_output::preview_shows_most_recent_output(
        arrived(calls, i + 1),
        size as nat,
        interval,
    );
    let before = live_tool_output::after_pushes(arrived(calls, i), size as nat, interval);
    assert forall|j: int|
        0 <= j < i && (#[trigger] calls[j]).push.output is Some && (forall|k: int|
            j < k < i ==> (#[trigger] calls[k]).push.output is None) implies (calls[i].push.output is Some
        <==> calls[i].now < calls[j].now || calls[i].now >= calls[j].now + interval) by {
        let last = choose|last: int|
            0 <= last < i && (#[trigger] calls[last]).push.output is Some && before.last_emit_at
                == Some(calls[last].now) && forall|k: int|
                last < k < i ==> (#[trigger] calls[k]).push.output is None;
        assert(last == j) by {
            if last < j {
                assert(calls[j].push.output is None);
            } else if j < last {
                assert(calls[last].push.output is None);
            }
        }
    }
    if calls[i].push.output is Some && text::byte_len(output) > size {
        let frame = calls[i].push.output->0@;
        live_tool_output::recent_is_longest_fitting_end(output, max);
        let tail = live_tool_output::recent(output, max);
        let from = output.len() - tail.len();
        text::lemma_encode_concat("…[truncated]\n"@, tail);
        assert(frame == "…[truncated]\n"@ + output.skip(from));
        assert forall|longer: int| 0 <= longer < from implies text::byte_len("…[truncated]\n"@)
            + text::byte_len(#[trigger] output.skip(longer)) > size by {
            assert(output.skip(longer).len() == output.len() - longer);
        }
    }
}

/// The figures that [`LiveToolOutputBuffer::remove`] gives of a call are those of its pushes.
pub proof fn removal_gives_the_figures(
    buffers: Seq<&mut LiveToolOutputBuffer>,
    calls: Seq<Pushed>,
    id: Seq<char>,
    buffer: &mut LiveToolOutputBuffer,
    call_id: &str,
    stats: Option<LiveToolOutputStats>,
)
    requires
        buffers.len() == calls.len(),
        forall|i: int|
            0 <= i < calls.len() ==> call_ensures(
                LiveToolOutputBuffer::push_at,
                (#[trigger] buffers[i], calls[i].call_id, calls[i].delta, calls[i].now),
                calls[i].push,
            ),
        forall|i: int|
            0 <= i < calls.len() - 1 ==> *final(#[trigger] buffers[i]) == *buffers[i + 1],
        forall|i: int| 0 <= i < calls.len() ==> (#[trigger] calls[i]).call_id@ == id,
        calls.len() > 0,
        buffers[0].wf(),
        !buffers[0]@.dom().contains(id),
        calls.len() <= usize::MAX,
        *old(buffer) == *final(buffers[calls.len() - 1]),
        call_id@ == id,
        call_ensures(LiveToolOutputBuffer::remove, (buffer, call_id), stats),
    ensures
        !final(buffer)@.dom().contains(id),
        ({
            let total = text::byte_len(sent(calls));
            &&& stats matches Some(stats)
            &&& stats.truncated <==> total > buffers[0].spec_preview_bytes()
            &&& stats.received_bytes == if total > usize::MAX {
                usize::MAX as nat
            } else {
                total
            }
            &&& stats.emitted_frames == frames(calls)
            &&& stats.coalesced_frames == calls.len() - frames(calls)
        }),
{
    let n = calls.len() as int;
    let size = buffers[0].spec_preview_bytes();
    let interval = buffers[0].spec_emit_interval();
    lemma_record(buffers, calls, id, n - 1);
    lemma_last_frame_time(buffers, calls, id, n);
    lemma_arrived(calls, n);
    lemma_received(arrived(calls, n), size as nat, interval);
    live_tool_output::preview_shows_most_recent_output(arrived(calls, n), size as nat, interval);
    assert(calls.take(n) =~= calls);
}

/// A buffer with the standard policy keeps 64 KiB and 200 milliseconds.
pub proof fn standard_policy(buffer: LiveToolOutputBuffer)
    requires
        call_ensures(LiveToolOutputBuffer::new, (), buffer),
    ensures
        buffer.wf(),
        buffer.spec_preview_bytes() == 65_536,
        buffer.spec_emit_interval() == 200_000_000,
        forall|id: Seq<char>| !#[trigger] buffer@.dom().contains(id),
{
}

/// A push for one call, and the removal of one, leave the other calls as they are.
pub proof fn calls_do_not_interfere(
    buffer: &mut LiveToolOutputBuffer,
    call_id: &str,
    delta: &str,
    now: u128,
    push: LiveToolOutputPush,
    removing: &mut LiveToolOutputBuffer,
    stats: Option<LiveToolOutputStats>,
    other: Seq<char>,
)
    requires
        call_ensures(LiveToolOutputBuffer::push_at, (buffer, call_id, delta, now), push),
        call_ensures(LiveToolOutputBuffer::remove, (removing, call_id), stats),
        other != call_id@,
    ensures
        final(buffer)@.dom().contains(other) == old(buffer)@.dom().contains(other),
        final(buffer)@[other] == old(buffer)@[other],
        final(removing)@.dom().contains(other) == old(removing)@.dom().contains(other),
        old(removing)@.dom().contains(other) ==> final(removing)@[other] == old(removing)@[other],
{
}

/// A push at the present time is a push at a time that the clock tells: it gives what
/// [`LiveToolOutputBuffer::push_at`] gives for that time.
pub proof fn push_is_push_at_the_time_read(
    buffer: &mut LiveToolOutputBuffer,
    call_id: &str,
    delta: &str,
    push: LiveToolOutputPush,
)
    requires
        call_ensures(LiveToolOutputBuffer::push, (buffer, call_id, delta), push),
    ensures
        final(buffer).spec_origin() == old(buffer).spec_origin(),
        exists|now: u128|
            {
                &&& #[trigger] live_tool_output::is_time_since(old(buffer).spec_origin(), now)
                &&& forall|timed: &mut LiveToolOutputBuffer, given: LiveToolOutputPush|
                    *timed == *old(buffer) && #[trigger] call_ensures(
                        LiveToolOutputBuffer::push_at,
                        (timed, call_id, delta, now),
                        given,
                    ) ==> {
                        &&& final(timed)@ == final(buffer)@
                        &&& given.output is Some <==> push.output is Some
                        &&& push.output matches Some(frame) ==> given.output->0@ == frame@
                        &&& given.truncation_started == push.truncation_started
                        &&& given.received_bytes == push.received_bytes
                    }
            },
{
    let now = choose|now: u128|
        #![trigger old(buffer).record(call_id@).due(old(buffer).spec_emit_interval(), now)]
        {
            let before = old(buffer).record(call_id@);
            let after = before.pushed(
                old(buffer).spec_preview_bytes() as nat,
                old(buffer).spec_emit_interval(),
                delta@,
                now,
            );
            &&& live_tool_output::is_time_since(old(buffer).spec_origin(), now)
            &&& final(buffer)@ == old(buffer)@.insert(call_id@, after)
            &&& live_tool_output::push_result(
                before,
                after,
                old(buffer).spec_emit_interval(),
                now,
                push,
            )
        };
    assert(live_tool_output::is_time_since(old(buffer).spec_origin(), now));
}

} // verus!
