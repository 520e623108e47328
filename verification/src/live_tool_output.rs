//! Bounded, rate-limited previews for live command output.
//!
//! Completed tool results remain authoritative. This module only shapes the
//! ephemeral preview frames sent while a command is still running.

use std::time::Instant;

use vstd::prelude::*;
use vstd::string::*;
use vstd::utf8::*;

use crate::text;

verus! {

/// The size of a preview, in bytes, that [`LiveToolOutputBuffer::new`] allows.
pub const LIVE_TOOL_OUTPUT_PREVIEW_BYTES: usize = 65_536;

/// The pause between two frames, in nanoseconds, that [`LiveToolOutputBuffer::new`] keeps.
pub const LIVE_TOOL_OUTPUT_EMIT_INTERVAL: u128 = 200_000_000;

/// What a preview starts with once older output has been dropped from it.
pub const TRUNCATION_MARKER: &'static str = "…[truncated]\n";

/// `std::time::Instant`, a reading of the monotonic clock.
#[verifier::external_type_specification]
#[verifier::external_body]
pub struct ExInstant(std::time::Instant);

/// `Instant::now`: the present reading of the clock. Nothing is claimed of it.
#[verifier::external_body]
fn read_clock() -> (now: Instant) {
    Instant::now()
}

/// `Instant::elapsed`: the time since `origin`, as a number of nanoseconds. The clock decides
/// it, so nothing is claimed of it.
#[verifier::external_body]
fn nanos_since(origin: &Instant) -> (nanos: u128) {
    origin.elapsed().as_nanos()
}

/// Whether the clock can read `now`.
pub closed spec fn is_clock_reading(now: Instant) -> bool {
    call_ensures(read_clock, (), now)
}

/// Whether the clock can tell that `nanos` nanoseconds have passed since `origin`.
pub closed spec fn is_time_since(origin: Instant, nanos: u128) -> bool {
    call_ensures(nanos_since, (&origin,), nanos)
}

/// The longest end of `s` that takes at most `max` bytes and starts at a whole character.
pub open spec fn recent(s: Seq<char>, max: nat) -> Seq<char>
    decreases s.len(),
{
    if text::byte_len(s) <= max || s.len() == 0 {
        s
    } else {
        recent(s.drop_first(), max)
    }
}

/// `recent` fits, is an end of the text, and no longer end fits.
pub proof fn recent_is_longest_fitting_end(s: Seq<char>, max: nat)
    ensures
        text::byte_len(recent(s, max)) <= max,
        recent(s, max).len() <= s.len(),
        recent(s, max) == s.skip(s.len() - recent(s, max).len()),
        forall|i: int|
            0 <= i <= s.len() && text::byte_len(#[trigger] s.skip(i)) <= max ==> s.skip(i).len()
                <= recent(s, max).len(),
    decreases s.len(),
{
    if text::byte_len(s) <= max || s.len() == 0 {
        assert(s.skip(0) =~= s);
    } else {
        let rest = s.drop_first();
        recent_is_longest_fitting_end(rest, max);
        let n = recent(rest, max).len();
        assert(rest.skip(rest.len() - n) =~= s.skip(s.len() - n));
        assert forall|i: int|
            0 <= i <= s.len() && text::byte_len(#[trigger] s.skip(i)) <= max implies s.skip(i).len()
            <= n by {
            if i == 0 {
                assert(s.skip(0) =~= s);
            } else {
                assert(s.skip(i) =~= rest.skip(i - 1));
            }
        }
    }
}

/// Dropping old output piece by piece keeps the same end as dropping it at once.
pub proof fn recent_of_recent(a: Seq<char>, b: Seq<char>, max: nat)
    ensures
        recent(recent(a, max) + b, max) == recent(a + b, max),
    decreases a.len(),
{
    if text::byte_len(a) > max && a.len() > 0 {
        recent_of_recent(a.drop_first(), b, max);
        text::lemma_encode_concat(a, b);
        assert((a + b).drop_first() =~= a.drop_first() + b);
    }
}

/// The first character boundary at or after `text::byte_len(s) - max` is where `recent` starts.
proof fn lemma_recent_starts_at_boundary(s: Seq<char>, max: nat, k: int)
    requires
        text::byte_len(s) > max,
        text::byte_len(s) - max <= k <= text::byte_len(s),
        is_char_boundary(encode_utf8(s), k),
        forall|j: int|
            text::byte_len(s) - max <= j < k ==> !#[trigger] is_char_boundary(encode_utf8(s), j),
    ensures
        encode_utf8(s).subrange(k, text::byte_len(s) as int) == encode_utf8(recent(s, max)),
    decreases s.len(),
{
    let bytes = encode_utf8(s);
    let rest = s.drop_first();
    let rest_bytes = encode_utf8(rest);
    encode_utf8_valid_utf8(s);
    encode_utf8_valid_utf8(rest);
    encode_utf8_first_scalar(s);
    let width = length_of_first_scalar(bytes);
    assert(pop_first_scalar(bytes) =~= rest_bytes);
    reveal_with_fuel(is_char_boundary, 2);
    if text::byte_len(rest) <= max {
        assert(is_char_boundary(bytes, width));
        assert(k == width);
        reveal_with_fuel(recent, 2);
        assert(bytes.subrange(k, bytes.len() as int) =~= rest_bytes);
    } else {
        assert(is_char_boundary(rest_bytes, k - width));
        assert forall|j: int| text::byte_len(rest) - max <= j < k - width implies !#[trigger] is_char_boundary(
            rest_bytes,
            j,
        ) by {
            assert(!is_char_boundary(bytes, j + width));
        }
        lemma_recent_starts_at_boundary(rest, max, k - width);
        assert(bytes.subrange(k, bytes.len() as int) =~= rest_bytes.subrange(
            k - width,
            rest_bytes.len() as int,
        ));
    }
}

/// Drops the oldest characters of `value` until it takes at most `max_bytes` bytes.
pub fn trim_to_recent_bytes(value: &mut String, max_bytes: usize)
    ensures
        final(value)@ == recent(old(value)@, max_bytes as nat),
{
    let len: usize = text::str_byte_len(value.as_str());
    if len <= max_bytes {
        return;
    }
    let ghost whole = value@;
    proof {
        encode_utf8_valid_utf8(whole);
        is_char_boundary_start_end_of_seq(encode_utf8(whole));
    }
    let mut remove_bytes: usize = len - max_bytes;
    while remove_bytes < len && !value.as_str().is_char_boundary(remove_bytes)
        invariant
            value@ == whole,
            len == text::byte_len(whole),
            len > max_bytes,
            len - max_bytes <= remove_bytes <= len,
            is_char_boundary(encode_utf8(whole), len as int),
            forall|j: int|
                len - max_bytes <= j < remove_bytes ==> !#[trigger] is_char_boundary(
                    encode_utf8(whole),
                    j,
                ),
        decreases len - remove_bytes,
    {
        remove_bytes += 1;
    }
    proof {
        lemma_recent_starts_at_boundary(whole, max_bytes as nat, remove_bytes as int);
    }
    let kept: String = value.as_str().split_at(remove_bytes).1.to_owned();
    proof {
        text::lemma_encode_injective(kept@, recent(whole, max_bytes as nat));
    }
    *value = kept;
}

/// What one call has sent so far, as far as the previews depend on it.
pub struct EntryView {
    /// The output that is still shown.
    pub tail: Seq<char>,
    /// Whether older output has been dropped.
    pub truncated: bool,
    /// When the last frame went out.
    pub last_emit_at: Option<u128>,
    /// How many bytes were received.
    pub received_bytes: usize,
    /// How many pushes gave a frame.
    pub emitted_frames: usize,
    /// How many pushes gave none.
    pub coalesced_frames: usize,
}

/// The sum of two counts, held at the largest count.
pub open spec fn saturating_sum(a: usize, b: nat) -> usize {
    if a + b > usize::MAX {
        usize::MAX
    } else {
        (a + b) as usize
    }
}

impl EntryView {
    /// A call that has sent nothing.
    pub open spec fn fresh() -> EntryView {
        EntryView {
            tail: Seq::empty(),
            truncated: false,
            last_emit_at: None,
            received_bytes: 0,
            emitted_frames: 0,
            coalesced_frames: 0,
        }
    }

    /// Whether a push at `now` gives a frame: the first one does, and so does one that comes at
    /// least `interval` after the last frame, or before it on the clock.
    pub open spec fn due(self, interval: u128, now: u128) -> bool {
        match self.last_emit_at {
            None => true,
            Some(last) => now < last || now - last >= interval,
        }
    }

    /// The call after `delta` arrived at `now`.
    pub open spec fn pushed(
        self,
        preview_bytes: nat,
        interval: u128,
        delta: Seq<char>,
        now: u128,
    ) -> EntryView {
        let whole = self.tail + delta;
        let truncated = self.truncated || text::byte_len(whole) > preview_bytes;
        let emit = self.due(interval, now);
        EntryView {
            tail: if truncated {
                recent(whole, (preview_bytes - marker_bytes()) as nat)
            } else {
                whole
            },
            truncated,
            last_emit_at: if emit {
                Some(now)
            } else {
                self.last_emit_at
            },
            received_bytes: saturating_sum(self.received_bytes, text::byte_len(delta)),
            emitted_frames: saturating_sum(
                self.emitted_frames,
                if emit {
                    1
                } else {
                    0
                },
            ),
            coalesced_frames: saturating_sum(
                self.coalesced_frames,
                if emit {
                    0
                } else {
                    1
                },
            ),
        }
    }

    /// The text of a frame.
    pub open spec fn preview(self) -> Seq<char> {
        if self.truncated {
            TRUNCATION_MARKER@ + self.tail
        } else {
            self.tail
        }
    }

    /// Whether a frame fits the size that previews are held to.
    pub open spec fn fits(self, preview_bytes: nat) -> bool {
        text::byte_len(self.preview()) <= preview_bytes
    }
}

/// The size of the truncation marker, in bytes.
pub open spec fn marker_bytes() -> nat {
    text::byte_len(TRUNCATION_MARKER@)
}

/// A push keeps a call's preview within the size that previews are held to.
pub proof fn pushed_fits(
    entry: EntryView,
    preview_bytes: nat,
    interval: u128,
    delta: Seq<char>,
    now: u128,
)
    requires
        preview_bytes > marker_bytes(),
    ensures
        entry.pushed(preview_bytes, interval, delta, now).fits(preview_bytes),
{
    let max = (preview_bytes - marker_bytes()) as nat;
    recent_is_longest_fitting_end(entry.tail + delta, max);
    text::lemma_encode_concat(TRUNCATION_MARKER@, recent(entry.tail + delta, max));
}

/// A call after each of `pushes` in turn, every one a text and the time it came at.
pub open spec fn after_pushes(
    pushes: Seq<(Seq<char>, u128)>,
    preview_bytes: nat,
    interval: u128,
) -> EntryView
    decreases pushes.len(),
{
    if pushes.len() == 0 {
        EntryView::fresh()
    } else {
        after_pushes(pushes.drop_last(), preview_bytes, interval).pushed(
            preview_bytes,
            interval,
            pushes.last().0,
            pushes.last().1,
        )
    }
}

/// Everything that `pushes` delivered, in order.
pub open spec fn all_output(pushes: Seq<(Seq<char>, u128)>) -> Seq<char>
    decreases pushes.len(),
{
    if pushes.len() == 0 {
        Seq::empty()
    } else {
        all_output(pushes.drop_last()) + pushes.last().0
    }
}

/// The preview shows everything that was received for as long as that fits, and after that the
/// truncation marker with the most recent output, however the output was cut into pushes.
pub proof fn preview_shows_most_recent_output(
    pushes: Seq<(Seq<char>, u128)>,
    preview_bytes: nat,
    interval: u128,
)
    requires
        preview_bytes > marker_bytes(),
    ensures
        ({
            let entry = after_pushes(pushes, preview_bytes, interval);
            let output = all_output(pushes);
            &&& entry.truncated <==> text::byte_len(output) > preview_bytes
            &&& !entry.truncated ==> entry.preview() == output
            &&& entry.truncated ==> entry.preview() == TRUNCATION_MARKER@ + recent(
                output,
                (preview_bytes - marker_bytes()) as nat,
            )
        }),
    decreases pushes.len(),
{
    if pushes.len() > 0 {
        let before = pushes.drop_last();
        let delta = pushes.last().0;
        let max = (preview_bytes - marker_bytes()) as nat;
        preview_shows_most_recent_output(before, preview_bytes, interval);
        let entry = after_pushes(before, preview_bytes, interval);
        let output = all_output(before);
        text::lemma_encode_concat(output, delta);
        if entry.truncated {
            assert(entry.tail == recent(output, max)) by {
                let n = TRUNCATION_MARKER@.len() as int;
                assert(entry.preview().skip(n) =~= entry.tail);
                assert((TRUNCATION_MARKER@ + recent(output, max)).skip(n) =~= recent(output, max));
            }
            recent_of_recent(output, delta, max);
        }
    } else {
        assert(text::byte_len(Seq::<char>::empty()) == 0);
    }
}

/// Every push is counted once: as a frame that went out or as one that was held back.
pub proof fn every_push_is_counted(
    pushes: Seq<(Seq<char>, u128)>,
    preview_bytes: nat,
    interval: u128,
)
    requires
        pushes.len() <= usize::MAX,
    ensures
        ({
            let entry = after_pushes(pushes, preview_bytes, interval);
            entry.emitted_frames + entry.coalesced_frames == pushes.len()
        }),
    decreases pushes.len(),
{
    if pushes.len() > 0 {
        every_push_is_counted(pushes.drop_last(), preview_bytes, interval);
    }
}

/// Whether the push at place `i` gave a frame.
pub open spec fn gave_frame(
    pushes: Seq<(Seq<char>, u128)>,
    preview_bytes: nat,
    interval: u128,
    i: int,
) -> bool {
    after_pushes(pushes.take(i), preview_bytes, interval).due(interval, pushes[i].1)
}

/// Whether no push comes before an earlier one on the clock.
pub open spec fn in_time_order(pushes: Seq<(Seq<char>, u128)>) -> bool {
    forall|i: int, j: int|
        0 <= i <= j < pushes.len() ==> (#[trigger] pushes[i]).1 <= (#[trigger] pushes[j]).1
}

/// The first output of a call is shown at once.
pub proof fn first_push_gives_a_frame(
    pushes: Seq<(Seq<char>, u128)>,
    preview_bytes: nat,
    interval: u128,
)
    requires
        pushes.len() > 0,
    ensures
        gave_frame(pushes, preview_bytes, interval, 0),
{
}

/// Two frames of a call are at least the interval apart.
pub proof fn frames_are_spaced(
    pushes: Seq<(Seq<char>, u128)>,
    preview_bytes: nat,
    interval: u128,
    i: int,
    j: int,
)
    requires
        in_time_order(pushes),
        0 <= i < j < pushes.len(),
        gave_frame(pushes, preview_bytes, interval, i),
        gave_frame(pushes, preview_bytes, interval, j),
    ensures
        pushes[j].1 - pushes[i].1 >= interval,
{
    lemma_last_frame(pushes, preview_bytes, interval, i, j);
}

/// After a frame the time of the last one is known, and lies between that frame and the present.
proof fn lemma_last_frame(
    pushes: Seq<(Seq<char>, u128)>,
    preview_bytes: nat,
    interval: u128,
    i: int,
    n: int,
)
    requires
        in_time_order(pushes),
        0 <= i < n <= pushes.len(),
        gave_frame(pushes, preview_bytes, interval, i),
    ensures
        after_pushes(pushes.take(n), preview_bytes, interval).last_emit_at matches Some(last)
            && pushes[i].1 <= last <= pushes[n - 1].1,
    decreases n,
{
    assert(pushes.take(n).drop_last() =~= pushes.take(n - 1));
    if i < n - 1 {
        lemma_last_frame(pushes, preview_bytes, interval, i, n - 1);
        assert(pushes[n - 2].1 <= pushes[n - 1].1);
    }
}

/// The record of one call.
#[derive(Debug)]
pub struct Entry {
    tail: String,
    truncated: bool,
    last_emit_at: Option<u128>,
    received_bytes: usize,
    emitted_frames: usize,
    coalesced_frames: usize,
}

impl View for Entry {
    type V = EntryView;

    closed spec fn view(&self) -> EntryView {
        EntryView {
            tail: self.tail@,
            truncated: self.truncated,
            last_emit_at: self.last_emit_at,
            received_bytes: self.received_bytes,
            emitted_frames: self.emitted_frames,
            coalesced_frames: self.coalesced_frames,
        }
    }
}

/// What a push gives.
#[derive(Debug)]
pub struct LiveToolOutputPush {
    /// The frame to send, if one is due.
    pub output: Option<String>,
    /// Whether this push was the first to drop older output.
    pub truncation_started: bool,
    /// How many bytes the call has sent so far.
    pub received_bytes: usize,
}

/// The figures of a call, given when it is forgotten.
#[derive(Debug)]
pub struct LiveToolOutputStats {
    /// Whether older output was dropped from the previews.
    pub truncated: bool,
    /// How many bytes the call sent.
    pub received_bytes: usize,
    /// How many pushes gave a frame.
    pub emitted_frames: usize,
    /// How many pushes gave none.
    pub coalesced_frames: usize,
}

/// What a push on a call that stood at `before` gives, when the call stands at `after` then.
pub open spec fn push_result(
    before: EntryView,
    after: EntryView,
    interval: u128,
    now: u128,
    push: LiveToolOutputPush,
) -> bool {
    &&& push.output is Some <==> before.due(interval, now)
    &&& push.output matches Some(frame) ==> frame@ == after.preview()
    &&& push.truncation_started == (!before.truncated && after.truncated)
    &&& push.received_bytes == after.received_bytes
}

impl Entry {
    /// A record of a call that has sent nothing.
    pub fn new() -> (entry: Self)
        ensures
            entry@ == EntryView::fresh(),
    {
        Entry {
            tail: String::new(),
            truncated: false,
            last_emit_at: None,
            received_bytes: 0,
            emitted_frames: 0,
            coalesced_frames: 0,
        }
    }

    fn push_at(
        &mut self,
        preview_bytes: usize,
        emit_interval: u128,
        delta: &str,
        now: u128,
    ) -> (push: LiveToolOutputPush)
        requires
            preview_bytes > marker_bytes(),
        ensures
            final(self)@ == old(self)@.pushed(preview_bytes as nat, emit_interval, delta@, now),
            push_result(old(self)@, final(self)@, emit_interval, now, push),
    {
        let delta_bytes: usize = text::str_byte_len(delta);
        self.received_bytes = self.received_bytes.saturating_add(delta_bytes);
        self.tail.append(delta);

        let was_truncated: bool = self.truncated;
        if self.truncated || text::str_byte_len(self.tail.as_str()) > preview_bytes {
            self.truncated = true;
            let max_tail_bytes: usize = preview_bytes - text::str_byte_len(TRUNCATION_MARKER);
            trim_to_recent_bytes(&mut self.tail, max_tail_bytes);
        }
        let should_emit: bool = match self.last_emit_at {
            None => true,
            Some(last) => now < last || now - last >= emit_interval,
        };
        let output: Option<String> = if should_emit {
            self.last_emit_at = Some(now);
            self.emitted_frames = self.emitted_frames.saturating_add(1);
            let mut preview: String = String::new();
            if self.truncated {
                preview.append(TRUNCATION_MARKER);
            }
            preview.append(self.tail.as_str());
            proof {
                assert(Seq::<char>::empty() + self.tail@ =~= self.tail@);
                assert(Seq::<char>::empty() + TRUNCATION_MARKER@ =~= TRUNCATION_MARKER@);
            }
            Some(preview)
        } else {
            self.coalesced_frames = self.coalesced_frames.saturating_add(1);
            None
        };
        LiveToolOutputPush {
            output,
            truncation_started: !was_truncated && self.truncated,
            received_bytes: self.received_bytes,
        }
    }
}

/// Whether `id` names one of the calls.
spec fn known(calls: Seq<(String, Entry)>, id: Seq<char>) -> bool {
    exists|i: int| 0 <= i < calls.len() && (#[trigger] calls[i]).0@ == id
}

/// The place of the call that `id` names.
spec fn place(calls: Seq<(String, Entry)>, id: Seq<char>) -> int {
    choose|i: int| 0 <= i < calls.len() && (#[trigger] calls[i]).0@ == id
}

/// No call has two records.
spec fn distinct(calls: Seq<(String, Entry)>) -> bool {
    forall|i: int, j: int|
        0 <= i < j < calls.len() ==> (#[trigger] calls[i]).0@ != (#[trigger] calls[j]).0@
}

spec fn records(calls: Seq<(String, Entry)>) -> Map<Seq<char>, EntryView> {
    Map::new(|id: Seq<char>| known(calls, id), |id: Seq<char>| calls[place(calls, id)].1@)
}

/// Keeps live command previews responsive without repeatedly broadcasting an
/// unbounded cumulative string for every output delta.
pub struct LiveToolOutputBuffer {
    entries: Vec<(String, Entry)>,
    preview_bytes: usize,
    emit_interval: u128,
    origin: Instant,
}

impl View for LiveToolOutputBuffer {
    type V = Map<Seq<char>, EntryView>;

    /// The record of each call that output was pushed for.
    closed spec fn view(&self) -> Map<Seq<char>, EntryView> {
        records(self.entries@)
    }
}

impl LiveToolOutputBuffer {
    /// The size that previews are held to, in bytes.
    pub closed spec fn spec_preview_bytes(self) -> usize {
        self.preview_bytes
    }

    /// The pause that is kept between two frames of a call, in nanoseconds.
    pub closed spec fn spec_emit_interval(self) -> u128 {
        self.emit_interval
    }

    /// The clock reading that the buffer counts the time from.
    pub closed spec fn spec_origin(self) -> Instant {
        self.origin
    }

    /// The marker fits into a preview, no call has two records, and every preview fits.
    pub closed spec fn wf(self) -> bool {
        &&& self.preview_bytes > marker_bytes()
        &&& distinct(self.entries@)
        &&& forall|i: int|
            0 <= i < self.entries@.len() ==> (#[trigger] self.entries@[i]).1@.fits(
                self.preview_bytes as nat,
            )
    }

    /// The record of a call, which is a fresh one before the first push.
    pub open spec fn record(self, id: Seq<char>) -> EntryView {
        if self@.dom().contains(id) {
            self@[id]
        } else {
            EntryView::fresh()
        }
    }

    /// In a well-formed buffer there is room for output beside the truncation marker.
    pub proof fn previews_have_room(self)
        requires
            self.wf(),
        ensures
            self.spec_preview_bytes() > marker_bytes(),
    {
    }

    /// In a well-formed buffer the preview of every call fits.
    pub proof fn previews_fit(self, id: Seq<char>)
        requires
            self.wf(),
            self@.dom().contains(id),
        ensures
            self@[id].fits(self.spec_preview_bytes() as nat),
    {
        let i = place(self.entries@, id);
        assert(self.entries@[i].1@.fits(self.preview_bytes as nat));
    }

    /// A buffer with the standard policy.
    pub fn new() -> (buffer: Self)
        ensures
            buffer.wf(),
            buffer@ == Map::<Seq<char>, EntryView>::empty(),
            buffer.spec_preview_bytes() == LIVE_TOOL_OUTPUT_PREVIEW_BYTES,
            buffer.spec_emit_interval() == LIVE_TOOL_OUTPUT_EMIT_INTERVAL,
            is_clock_reading(buffer.spec_origin()),
    {
        proof {
            reveal_strlit("…[truncated]\n");
            text::lemma_byte_len_bounds(TRUNCATION_MARKER@);
        }
        Self::with_policy(LIVE_TOOL_OUTPUT_PREVIEW_BYTES, LIVE_TOOL_OUTPUT_EMIT_INTERVAL)
    }

    /// A buffer that holds previews to `preview_bytes` bytes and sends at most one frame of a
    /// call in every `emit_interval` nanoseconds.
    pub fn with_policy(preview_bytes: usize, emit_interval: u128) -> (buffer: Self)
        requires
            preview_bytes > marker_bytes(),
        ensures
            buffer.wf(),
            buffer@ == Map::<Seq<char>, EntryView>::empty(),
            buffer.spec_preview_bytes() == preview_bytes,
            buffer.spec_emit_interval() == emit_interval,
            is_clock_reading(buffer.spec_origin()),
    {
        let buffer = LiveToolOutputBuffer {
            entries: Vec::new(),
            preview_bytes,
            emit_interval,
            origin: read_clock(),
        };
        assert(buffer@ =~= Map::<Seq<char>, EntryView>::empty());
        buffer
    }

    /// The place of the record of `call_id`, or the number of records where it has none.
    fn find(&self, call_id: &str) -> (at: usize)
        ensures
            at <= self.entries@.len(),
            at < self.entries@.len() ==> self.entries@[at as int].0@ == call_id@,
            at == self.entries@.len() ==> !known(self.entries@, call_id@),
    {
        let mut at: usize = 0;
        while at < self.entries.len()
            invariant
                at <= self.entries@.len(),
                forall|i: int| 0 <= i < at ==> (#[trigger] self.entries@[i]).0@ != call_id@,
            decreases self.entries@.len() - at,
        {
            if text::same(self.entries[at].0.as_str(), call_id) {
                return at;
            }
            at += 1;
        }
        at
    }

    /// Takes `delta`, which the call sent now, and gives the frame to send, if one is due.
    pub fn push(&mut self, call_id: &str, delta: &str) -> (push: LiveToolOutputPush)
        requires
            old(self).wf(),
        ensures
            final(self).wf(),
            final(self).spec_preview_bytes() == old(self).spec_preview_bytes(),
            final(self).spec_emit_interval() == old(self).spec_emit_interval(),
            final(self).spec_origin() == old(self).spec_origin(),
            exists|now: u128|
                #![trigger old(self).record(call_id@).due(old(self).spec_emit_interval(), now)]
                {
                    &&& is_time_since(old(self).spec_origin(), now)
                    &&& ({
                        let before = old(self).record(call_id@);
                        let after = before.pushed(
                            old(self).spec_preview_bytes() as nat,
                            old(self).spec_emit_interval(),
                            delta@,
                            now,
                        );
                        &&& final(self)@ == old(self)@.insert(call_id@, after)
                        &&& push_result(before, after, old(self).spec_emit_interval(), now, push)
                    })
                },
            push.output matches Some(frame) ==> text::byte_len(frame@)
                <= old(self).spec_preview_bytes(),
    {
        let now: u128 = nanos_since(&self.origin);
        let ghost due = self.record(call_id@).due(self.spec_emit_interval(), now);
        self.push_at(call_id, delta, now)
    }

    /// Takes `delta`, which the call sent at `now`, in nanoseconds on the caller's clock, and
    /// gives the frame to send, if one is due. The other calls stay as they are.
    pub fn push_at(&mut self, call_id: &str, delta: &str, now: u128) -> (push: LiveToolOutputPush)
        requires
            old(self).wf(),
        ensures
            final(self).wf(),
            final(self).spec_preview_bytes() == old(self).spec_preview_bytes(),
            final(self).spec_emit_interval() == old(self).spec_emit_interval(),
            final(self).spec_origin() == old(self).spec_origin(),
            ({
                let before = old(self).record(call_id@);
                let after = before.pushed(
                    old(self).spec_preview_bytes() as nat,
                    old(self).spec_emit_interval(),
                    delta@,
                    now,
                );
                &&& final(self)@ == old(self)@.insert(call_id@, after)
                &&& push_result(before, after, old(self).spec_emit_interval(), now, push)
            }),
            push.output matches Some(frame) ==> text::byte_len(frame@)
                <= old(self).spec_preview_bytes(),
    {
        let ghost calls = self.entries@;
        let at: usize = self.find(call_id);
        if at == self.entries.len() {
            self.entries.push((call_id.to_owned(), Entry::new()));
        }
        let ghost before = self.entries@[at as int].1@;
        proof {
            if at < calls.len() {
                assert(known(calls, call_id@));
                assert(place(calls, call_id@) == at);
            }
            assert(before == old(self).record(call_id@));
        }
        let preview_bytes: usize = self.preview_bytes;
        let emit_interval: u128 = self.emit_interval;
        let push = self.entries[at].1.push_at(preview_bytes, emit_interval, delta, now);
        proof {
            let after = before.pushed(preview_bytes as nat, emit_interval, delta@, now);
            pushed_fits(before, preview_bytes as nat, emit_interval, delta@, now);
            assert(distinct(self.entries@));
            assert forall|id: Seq<char>| #[trigger] known(self.entries@, id) == (id == call_id@
                || known(calls, id)) by {
                assert(self.entries@[at as int].0@ == call_id@);
                if known(calls, id) {
                    let i = place(calls, id);
                    assert(self.entries@[i].0@ == id);
                }
                if known(self.entries@, id) && id != call_id@ {
                    let i = place(self.entries@, id);
                    assert(calls[i].0@ == id);
                }
            }
            assert forall|id: Seq<char>| #[trigger] known(self.entries@, id) implies records(
                self.entries@,
            )[id] == old(self)@.insert(call_id@, after)[id] by {
                let i = place(self.entries@, id);
                if id != call_id@ {
                    assert(calls[i].0@ == id);
                    assert(place(calls, id) == i);
                }
            }
            assert(self@ =~= old(self)@.insert(call_id@, after));
        }
        push
    }

    /// Forgets a call and gives its figures, if it was known.
    pub fn remove(&mut self, call_id: &str) -> (stats: Option<LiveToolOutputStats>)
        requires
            old(self).wf(),
        ensures
            final(self).wf(),
            final(self).spec_preview_bytes() == old(self).spec_preview_bytes(),
            final(self).spec_emit_interval() == old(self).spec_emit_interval(),
            final(self).spec_origin() == old(self).spec_origin(),
            final(self)@ == old(self)@.remove(call_id@),
            stats is Some <==> old(self)@.dom().contains(call_id@),
            stats matches Some(stats) ==> {
                let entry = old(self)@[call_id@];
                &&& stats.truncated == entry.truncated
                &&& stats.received_bytes == entry.received_bytes
                &&& stats.emitted_frames == entry.emitted_frames
                &&& stats.coalesced_frames == entry.coalesced_frames
            },
    {
        let ghost calls = self.entries@;
        let at: usize = self.find(call_id);
        if at == self.entries.len() {
            assert(self@.remove(call_id@) =~= self@);
            return None;
        }
        let (_, entry) = self.entries.remove(at);
        proof {
            assert(calls[at as int].0@ == call_id@);
            assert(place(calls, call_id@) == at);
            lemma_records_after_removal(calls, at as int);
        }
        Some(
            LiveToolOutputStats {
                truncated: entry.truncated,
                received_bytes: entry.received_bytes,
                emitted_frames: entry.emitted_frames,
                coalesced_frames: entry.coalesced_frames,
            },
        )
    }

    /// Forgets every call for which `keep` answers no.
    pub fn retain(&mut self, mut keep: impl FnMut(&str) -> bool)
        requires
            old(self).wf(),
            forall|id: &str| keep.requires((id,)),
        ensures
            final(self).wf(),
            final(self).spec_preview_bytes() == old(self).spec_preview_bytes(),
            final(self).spec_emit_interval() == old(self).spec_emit_interval(),
            final(self).spec_origin() == old(self).spec_origin(),
            forall|id: Seq<char>| #[trigger]
                final(self)@.dom().contains(id) ==> old(self)@.dom().contains(id)
                    && final(self)@[id] == old(self)@[id] && exists|name: &str|
                    name@ == id && #[trigger] keep.ensures((name,), true),
            forall|id: Seq<char>| #[trigger]
                old(self)@.dom().contains(id) && !final(self)@.dom().contains(id) ==> exists|
                    name: &str,
                |
                    name@ == id && #[trigger] keep.ensures((name,), false),
    {
        let ghost calls = self.entries@;
        let ghost asked = keep;
        let mut at: usize = 0;
        while at < self.entries.len()
            invariant
                self.wf(),
                keep == asked,
                self.preview_bytes == old(self).preview_bytes,
                self.emit_interval == old(self).emit_interval,
                self.origin == old(self).origin,
                calls == old(self).entries@,
                forall|id: &str| keep.requires((id,)),
                at <= self.entries@.len(),
                forall|id: Seq<char>| #[trigger]
                    records(self.entries@).dom().contains(id) ==> records(calls).dom().contains(id)
                        && records(self.entries@)[id] == records(calls)[id],
                forall|id: Seq<char>| #[trigger]
                    records(calls).dom().contains(id) && !records(self.entries@).dom().contains(id)
                        ==> exists|name: &str|
                        name@ == id && #[trigger] keep.ensures((name,), false),
                forall|i: int|
                    0 <= i < at ==> exists|name: &str|
                        name@ == (#[trigger] self.entries@[i]).0@ && #[trigger] keep.ensures(
                            (name,),
                            true,
                        ),
            decreases self.entries@.len() - at,
        {
            let name: &str = self.entries[at].0.as_str();
            let kept: bool = keep(name);
            if kept {
                at += 1;
            } else {
                let ghost current = self.entries@;
                let ghost gone = name;
                self.entries.remove(at);
                proof {
                    lemma_records_after_removal(current, at as int);
                    assert(gone@ == current[at as int].0@);
                    assert(keep.ensures((gone,), false));
                }
            }
        }
        proof {
            assert forall|id: Seq<char>| #[trigger] self@.dom().contains(id) implies exists|
                name: &str,
            |
                name@ == id && #[trigger] keep.ensures((name,), true) by {
                let i = place(self.entries@, id);
                assert(self.entries@[i].0@ == id);
            }
        }
    }

    /// Forgets every call.
    pub fn clear(&mut self)
        requires
            old(self).wf(),
        ensures
            final(self).wf(),
            final(self).spec_preview_bytes() == old(self).spec_preview_bytes(),
            final(self).spec_emit_interval() == old(self).spec_emit_interval(),
            final(self).spec_origin() == old(self).spec_origin(),
            final(self)@ == Map::<Seq<char>, EntryView>::empty(),
    {
        self.entries.clear();
        assert(self@ =~= Map::<Seq<char>, EntryView>::empty());
    }
}

/// A push works with the time that the clock tells it, just as the clock tells it, counted from
/// the reading that was taken when the buffer was made.
proof fn lemma_push_takes_the_time_as_read(
    buffer: &mut LiveToolOutputBuffer,
    call_id: &str,
    delta: &str,
    push: LiveToolOutputPush,
)
    requires
        call_ensures(LiveToolOutputBuffer::push, (buffer, call_id, delta), push),
    ensures
        final(buffer).origin == old(buffer).origin,
        exists|now: u128|
            {
                &&& #[trigger] call_ensures(nanos_since, (&old(buffer).origin,), now)
                &&& push_result(
                    old(buffer).record(call_id@),
                    final(buffer).record(call_id@),
                    old(buffer).emit_interval,
                    now,
                    push,
                )
            },
{
    let now = choose|now: u128|
        #![trigger old(buffer).record(call_id@).due(old(buffer).spec_emit_interval(), now)]
        {
            let before = old(buffer).record(call_id@);
            let after = before.pushed(
                old(buffer).spec_preview_bytes() as nat,
                old(buffer).spec_emit_interval(),
                delta@,
                now,
            );
            &&& is_time_since(old(buffer).spec_origin(), now)
            &&& final(buffer)@ == old(buffer)@.insert(call_id@, after)
            &&& push_result(before, after, old(buffer).spec_emit_interval(), now, push)
        };
    assert(call_ensures(nanos_since, (&old(buffer).origin,), now));
}

/// Taking one record out of the list takes that call, and no other, out of the map.
proof fn lemma_records_after_removal(calls: Seq<(String, Entry)>, at: int)
    requires
        distinct(calls),
        0 <= at < calls.len(),
    ensures
        distinct(calls.remove(at)),
        records(calls.remove(at)) == records(calls).remove(calls[at].0@),
        records(calls).dom().contains(calls[at].0@),
        records(calls)[calls[at].0@] == calls[at].1@,
{
    let rest = calls.remove(at);
    let gone = calls[at].0@;
    assert(known(calls, gone));
    assert(place(calls, gone) == at);
    assert forall|id: Seq<char>| #[trigger] known(rest, id) == (id != gone && known(
        calls,
        id,
    )) by {
        if known(rest, id) {
            let i = place(rest, id);
            let k = if i < at {
                i
            } else {
                i + 1
            };
            assert(calls[k] == rest[i]);
        }
        if id != gone && known(calls, id) {
            let k = place(calls, id);
            let i = if k < at {
                k
            } else {
                k - 1
            };
            assert(rest[i] == calls[k]);
        }
    }
    assert forall|id: Seq<char>| #[trigger] known(rest, id) implies records(rest)[id] == records(
        calls,
    )[id] by {
        let i = place(rest, id);
        let k = if i < at {
            i
        } else {
            i + 1
        };
        assert(calls[k] == rest[i]);
        assert(place(calls, id) == k);
    }
    assert(records(rest) =~= records(calls).remove(gone));
}

} // verus!
