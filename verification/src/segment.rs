//! A segment of a playback asset, streamed out of the Telegram documents that
//! it lies in.

use vstd::prelude::*;
use vstd::string::*;

use crate::number::{decimal, decimal_u64};
use crate::playback::{
    law_segments_are_counted, law_segments_tile_the_asset, part_ok, playback_segment_bounds,
    segment_bounds, segment_count, sound_asset, total_size, AssetView, PlaybackAsset,
    PlaybackAssetPart, PLAYBACK_SEGMENT_SIZE,
};
use crate::reply::{HeadView, ResponseHead};
use crate::stream::{
    aligned, chunk_index, law_short_download_hands_on_the_front, plan_download, window_after,
    window_bytes, window_closed, window_run, ByteWindow, WindowStep, WindowView,
    DOWNLOAD_CHUNK_SIZE,
};
use crate::text::{join2, join3};

verus! {

/// A stretch of one part.
#[derive(Clone, Copy, Debug, PartialEq, Eq)]
pub struct PartSlice {
    pub part: PlaybackAssetPart,
    pub local_start: u64,
    pub local_length: u64,
}

/// Parts, the first byte of the first having the number `base`, that can be
/// walked as far as the byte `end`: their bytes can be counted, and a part
/// that holds nothing neither comes first of all nor lies inside the stretch
/// from `start` to `end`.
pub open spec fn walkable(
    parts: Seq<PlaybackAssetPart>,
    base: nat,
    start: nat,
    end: nat,
) -> bool
    decreases parts.len(),
{
    parts.len() == 0 || {
        let next = base + parts[0].size_bytes as nat;
        &&& next <= u64::MAX
        &&& parts[0].size_bytes == 0 ==> 0 < base && !(start < base <= end)
        &&& base > end || walkable(parts.drop_first(), next, start, end)
    }
}

/// The stretches of the parts that hold the bytes from `start` to `end` when
/// the first byte of the first part has the number `base`.
pub open spec fn slices_from(
    parts: Seq<PlaybackAssetPart>,
    base: nat,
    start: nat,
    end: nat,
) -> Seq<PartSlice>
    decreases parts.len(),
{
    if parts.len() == 0 {
        Seq::empty()
    } else {
        let part = parts[0];
        let next = base + part.size_bytes as nat;
        let rest = slices_from(parts.drop_first(), next, start, end);
        let low = if start > base {
            start
        } else {
            base
        };
        let high = if end + 1 < next {
            end + 1
        } else {
            next
        };
        if low < high {
            seq![
                PartSlice {
                    part,
                    local_start: (low - base) as u64,
                    local_length: (high - low) as u64,
                },
            ] + rest
        } else {
            rest
        }
    }
}

proof fn lemma_nothing_behind(parts: Seq<PlaybackAssetPart>, base: nat, start: nat, end: nat)
    requires
        base > end,
    ensures
        slices_from(parts, base, start, end) == Seq::<PartSlice>::empty(),
    decreases parts.len(),
{
    if parts.len() > 0 {
        lemma_nothing_behind(
            parts.drop_first(),
            base + parts[0].size_bytes as nat,
            start,
            end,
        );
    }
}

/// The stretches of the parts that hold the bytes from `start` to `end`.
pub fn plan_segment(parts: &Vec<PlaybackAssetPart>, start: u64, end: u64) -> (r: Vec<PartSlice>)
    requires
        walkable(parts@, 0, start as nat, end as nat),
        start <= end,
    ensures
        r@ == slices_from(parts@, 0, start as nat, end as nat),
{
    let mut out: Vec<PartSlice> = Vec::new();
    let mut cursor: u64 = 0;
    let mut i: usize = 0;
    assert(parts@.skip(0) == parts@);
    while i < parts.len()
        invariant
            i <= parts@.len(),
            walkable(parts@.skip(i as int), cursor as nat, start as nat, end as nat),
            start <= end,
            out@ + slices_from(parts@.skip(i as int), cursor as nat, start as nat, end as nat)
                == slices_from(parts@, 0, start as nat, end as nat),
        decreases parts@.len() - i,
    {
        let part = parts[i];
        let part_start = cursor;
        let ghost before = out@;
        let ghost here = parts@.skip(i as int);
        proof {
            assert(here[0] == part);
            assert(here.drop_first() == parts@.skip(i + 1));
        }
        let part_end = part_start + part.size_bytes - 1;
        cursor = cursor + part.size_bytes;
        if part_start > end {
            proof {
                lemma_nothing_behind(here, part_start as nat, start as nat, end as nat);
                assert(out@ + Seq::<PartSlice>::empty() == out@);
            }
            return out;
        }
        if part_end >= start {
            let low = if start > part_start {
                start
            } else {
                part_start
            };
            let high = if end < part_end {
                end
            } else {
                part_end
            };
            let slice = PartSlice {
                part,
                local_start: low - part_start,
                local_length: high - low + 1,
            };
            out.push(slice);
            proof {
                let rest = slices_from(
                    here.drop_first(),
                    cursor as nat,
                    start as nat,
                    end as nat,
                );
                assert(slices_from(here, part_start as nat, start as nat, end as nat) == seq![slice]
                    + rest);
                assert(before + (seq![slice] + rest) =~= out@ + rest);
            }
        }
        i += 1;
    }
    assert(out@ + Seq::<PartSlice>::empty() == out@);
    out
}

/// Whether the parts can be walked for the bytes from `start` to `end`.
pub fn parts_are_walkable(parts: &Vec<PlaybackAssetPart>, start: u64, end: u64) -> (r: bool)
    ensures
        r == walkable(parts@, 0, start as nat, end as nat),
{
    let mut cursor: u64 = 0;
    let mut i: usize = 0;
    assert(parts@.skip(0) == parts@);
    while i < parts.len()
        invariant
            i <= parts@.len(),
            walkable(parts@, 0, start as nat, end as nat) == walkable(
                parts@.skip(i as int),
                cursor as nat,
                start as nat,
                end as nat,
            ),
        decreases parts@.len() - i,
    {
        let size = parts[i].size_bytes;
        proof {
            assert(parts@.skip(i as int)[0] == parts@[i as int]);
            assert(parts@.skip(i as int).drop_first() == parts@.skip(i + 1));
        }
        if size == 0 && (cursor == 0 || (start < cursor && cursor <= end)) {
            return false;
        }
        let next = match cursor.checked_add(size) {
            Some(next) => next,
            None => return false,
        };
        if cursor > end {
            return true;
        }
        cursor = next;
        i += 1;
    }
    true
}

/// What the stored documents hold together, given what each holds.
pub open spec fn logical_bytes(
    parts: Seq<PlaybackAssetPart>,
    store: spec_fn(PlaybackAssetPart) -> Seq<u8>,
) -> Seq<u8>
    decreases parts.len(),
{
    if parts.len() == 0 {
        Seq::empty()
    } else {
        store(parts[0]) + logical_bytes(parts.drop_first(), store)
    }
}

/// Every document holds as many bytes as its part says.
pub open spec fn stored_as_declared(
    parts: Seq<PlaybackAssetPart>,
    store: spec_fn(PlaybackAssetPart) -> Seq<u8>,
) -> bool {
    forall|i: int|
        0 <= i < parts.len() ==> store(#[trigger] parts[i]).len() == parts[i].size_bytes
}

/// The bytes of a stretch.
pub open spec fn slice_bytes(
    slice: PartSlice,
    store: spec_fn(PlaybackAssetPart) -> Seq<u8>,
) -> Seq<u8> {
    store(slice.part).subrange(
        slice.local_start as int,
        slice.local_start + slice.local_length,
    )
}

/// The bytes of a row of stretches.
pub open spec fn slices_bytes(
    slices: Seq<PartSlice>,
    store: spec_fn(PlaybackAssetPart) -> Seq<u8>,
) -> Seq<u8>
    decreases slices.len(),
{
    if slices.len() == 0 {
        Seq::empty()
    } else {
        slice_bytes(slices[0], store) + slices_bytes(slices.drop_first(), store)
    }
}

/// How many bytes a row of stretches has.
pub open spec fn slices_length(slices: Seq<PartSlice>) -> nat
    decreases slices.len(),
{
    if slices.len() == 0 {
        0
    } else {
        slices_length(slices.drop_last()) + slices.last().local_length as nat
    }
}

spec fn clamp(at: int, len: int) -> int {
    if at < 0 {
        0
    } else if at > len {
        len
    } else {
        at
    }
}

spec fn cut(s: Seq<u8>, from: int, to: int) -> Seq<u8> {
    s.subrange(clamp(from, s.len() as int), clamp(to, s.len() as int))
}

proof fn lemma_cut_over_two(a: Seq<u8>, b: Seq<u8>, from: int, to: int)
    requires
        from <= to,
    ensures
        cut(a + b, from, to) == cut(a, from, to) + cut(b, from - a.len(), to - a.len()),
{
    assert(cut(a + b, from, to) =~= cut(a, from, to) + cut(b, from - a.len(), to - a.len()));
}

proof fn lemma_slices_bytes(
    parts: Seq<PlaybackAssetPart>,
    store: spec_fn(PlaybackAssetPart) -> Seq<u8>,
    base: nat,
    start: nat,
    end: nat,
)
    requires
        start <= end,
        stored_as_declared(parts, store),
    ensures
        slices_bytes(slices_from(parts, base, start, end), store) == cut(
            logical_bytes(parts, store),
            start - base,
            end + 1 - base,
        ),
    decreases parts.len(),
{
    if parts.len() == 0 {
        assert(cut(logical_bytes(parts, store), start - base, end + 1 - base) =~= Seq::<
            u8,
        >::empty());
    } else {
        let part = parts[0];
        let size = part.size_bytes as nat;
        let rest = parts.drop_first();
        assert(store(parts[0]).len() == size);
        assert forall|i: int| 0 <= i < rest.len() implies store(#[trigger] rest[i]).len()
            == rest[i].size_bytes by {
            assert(rest[i] == parts[i + 1]);
        }
        lemma_slices_bytes(rest, store, base + size, start, end);
        lemma_cut_over_two(
            store(part),
            logical_bytes(rest, store),
            start - base,
            end + 1 - base,
        );
        let slices = slices_from(parts, base, start, end);
        let behind = slices_from(rest, base + size, start, end);
        if slices != behind {
            let head = cut(store(part), start - base, end + 1 - base);
            assert(slices.drop_first() =~= behind);
            assert(slice_bytes(slices[0], store) =~= head);
        } else {
            let low = if start > base {
                start
            } else {
                base
            };
            let high = if end + 1 < base + size {
                end + 1
            } else {
                base + size
            };
            if low < high {
                assert(slices.len() == behind.len() + 1);
            }
            assert(cut(store(part), start - base, end + 1 - base) =~= Seq::<u8>::empty());
            assert(Seq::<u8>::empty() + slices_bytes(behind, store) =~= slices_bytes(
                behind,
                store,
            ));
        }
    }
}

proof fn lemma_logical_len(
    parts: Seq<PlaybackAssetPart>,
    store: spec_fn(PlaybackAssetPart) -> Seq<u8>,
)
    requires
        stored_as_declared(parts, store),
    ensures
        logical_bytes(parts, store).len() == total_size(parts),
    decreases parts.len(),
{
    if parts.len() > 0 {
        let rest = parts.drop_first();
        assert(store(parts[0]).len() == parts[0].size_bytes);
        assert forall|i: int| 0 <= i < rest.len() implies store(#[trigger] rest[i]).len()
            == rest[i].size_bytes by {
            assert(rest[i] == parts[i + 1]);
        }
        lemma_logical_len(rest, store);
        lemma_total_from_front(parts);
    }
}

proof fn lemma_total_from_front(parts: Seq<PlaybackAssetPart>)
    requires
        parts.len() > 0,
    ensures
        total_size(parts) == parts[0].size_bytes + total_size(parts.drop_first()),
    decreases parts.len(),
{
    let rest = parts.drop_first();
    if parts.len() == 1 {
        assert(parts.drop_last() == Seq::<PlaybackAssetPart>::empty());
        assert(rest == Seq::<PlaybackAssetPart>::empty());
        assert(total_size(parts.drop_last()) == 0);
    } else {
        lemma_total_from_front(parts.drop_last());
        assert(parts.drop_last().drop_first() == rest.drop_last());
        assert(rest.last() == parts.last());
    }
}

/// The planned stretches hold, in order, exactly the bytes of the segment.
pub proof fn law_planned_slices_are_the_segment(
    parts: Seq<PlaybackAssetPart>,
    store: spec_fn(PlaybackAssetPart) -> Seq<u8>,
    start: nat,
    end: nat,
)
    requires
        start <= end < total_size(parts),
        stored_as_declared(parts, store),
    ensures
        slices_bytes(slices_from(parts, 0, start, end), store) == logical_bytes(
            parts,
            store,
        ).subrange(start as int, (end + 1) as int),
{
    lemma_slices_bytes(parts, store, 0, start, end);
    lemma_logical_len(parts, store);
}

/// What the first `count` segments hold together.
pub open spec fn bytes_of_segments(
    asset_parts: Seq<PlaybackAssetPart>,
    store: spec_fn(PlaybackAssetPart) -> Seq<u8>,
    count: nat,
) -> Seq<u8>
    decreases count,
{
    if count == 0 {
        Seq::empty()
    } else {
        let before = bytes_of_segments(asset_parts, store, (count - 1) as nat);
        match segment_bounds(total_size(asset_parts), (count - 1) as nat) {
            Some((start, end)) => before + slices_bytes(
                slices_from(asset_parts, 0, start, end),
                store,
            ),
            None => before,
        }
    }
}

proof fn lemma_first_segments(
    parts: Seq<PlaybackAssetPart>,
    store: spec_fn(PlaybackAssetPart) -> Seq<u8>,
    count: nat,
)
    requires
        stored_as_declared(parts, store),
        count <= segment_count(total_size(parts)),
    ensures
        ({
            let size = total_size(parts);
            let reach = if count * PLAYBACK_SEGMENT_SIZE < size {
                (count * PLAYBACK_SEGMENT_SIZE) as int
            } else {
                size as int
            };
            bytes_of_segments(parts, store, count) == logical_bytes(parts, store).take(reach)
        }),
    decreases count,
{
    lemma_logical_len(parts, store);
    let whole = logical_bytes(parts, store);
    if count == 0 {
        assert(whole.take(0) =~= Seq::<u8>::empty());
    } else {
        let last = (count - 1) as nat;
        lemma_first_segments(parts, store, last);
        law_segments_are_counted(total_size(parts), last);
        law_segments_tile_the_asset(total_size(parts), last);
        let bounds = segment_bounds(total_size(parts), last)->0;
        let (start, end) = bounds;
        law_planned_slices_are_the_segment(parts, store, start, end);
        assert(whole.take(start as int) + whole.subrange(start as int, (end + 1) as int) =~= whole.take(
            (end + 1) as int,
        ));
    }
}

/// All segments of an asset together are the whole video, byte for byte.
pub proof fn law_segments_are_the_whole_video(
    parts: Seq<PlaybackAssetPart>,
    store: spec_fn(PlaybackAssetPart) -> Seq<u8>,
)
    requires
        stored_as_declared(parts, store),
    ensures
        bytes_of_segments(
            parts,
            store,
            segment_count(total_size(parts)),
        ) == logical_bytes(parts, store),
{
    lemma_first_segments(parts, store, segment_count(total_size(parts)));
    lemma_logical_len(parts, store);
    let whole = logical_bytes(parts, store);
    assert(whole.take(whole.len() as int) =~= whole);
}

proof fn lemma_full_parts_are_walkable(
    parts: Seq<PlaybackAssetPart>,
    base: nat,
    start: nat,
    end: nat,
)
    requires
        forall|i: int| 0 <= i < parts.len() ==> (#[trigger] parts[i]).size_bytes > 0,
        base + total_size(parts) <= u64::MAX,
    ensures
        walkable(parts, base, start, end),
    decreases parts.len(),
{
    if parts.len() > 0 {
        let rest = parts.drop_first();
        lemma_total_from_front(parts);
        assert(parts[0].size_bytes > 0);
        assert forall|i: int| 0 <= i < rest.len() implies (#[trigger] rest[i]).size_bytes > 0 by {
            assert(rest[i] == parts[i + 1]);
        }
        lemma_full_parts_are_walkable(rest, base + parts[0].size_bytes as nat, start, end);
    }
}

/// The parts of a sound asset can be walked for every stretch, and all of its
/// segments together are as many bytes as it declares and the whole video.
pub proof fn law_sound_assets_are_served_whole(
    asset: AssetView,
    store: spec_fn(PlaybackAssetPart) -> Seq<u8>,
)
    requires
        sound_asset(asset),
        stored_as_declared(asset.parts, store),
    ensures
        forall|start: nat, end: nat| walkable(asset.parts, 0, start, end),
        logical_bytes(asset.parts, store).len() == asset.size_bytes,
        bytes_of_segments(asset.parts, store, segment_count(asset.size_bytes as nat))
            == logical_bytes(asset.parts, store),
{
    assert forall|i: int| 0 <= i < asset.parts.len() implies (
    #[trigger] asset.parts[i]).size_bytes > 0 by {
        assert(part_ok(asset.parts[i]));
    }
    assert forall|start: nat, end: nat| walkable(asset.parts, 0, start, end) by {
        lemma_full_parts_are_walkable(asset.parts, 0, start, end);
    }
    lemma_logical_len(asset.parts, store);
    law_segments_are_the_whole_video(asset.parts, store);
}

/// What is wrong when a segment breaks off.
#[derive(Clone, Copy, Debug, PartialEq, Eq)]
pub enum StreamFault {
    BadGateway,
    NotFound,
}

/// Why a segment breaks off.
#[derive(Debug)]
pub struct StreamError {
    pub fault: StreamFault,
    pub message: String,
}

impl View for StreamError {
    type V = (StreamFault, Seq<char>);

    open spec fn view(&self) -> (StreamFault, Seq<char>) {
        (self.fault, self.message@)
    }
}

/// What came of the search for the document of a part.
#[derive(Clone, Copy, Debug)]
pub enum PartLookup {
    /// The chat that the part lies in could not be found.
    PeerFailed,
    /// The message could not be asked for.
    FetchFailed,
    /// There is no such message.
    NoMessage,
    /// The message has no document.
    NoMedia,
    /// The message has a document of the given size.
    Media(u64),
}

/// Why a part cannot be streamed, if it cannot.
pub open spec fn lookup_error(lookup: PartLookup, size_bytes: u64) -> Option<
    (StreamFault, Seq<char>),
> {
    match lookup {
        PartLookup::PeerFailed | PartLookup::FetchFailed => Some(
            (StreamFault::BadGateway, "Playback origin unavailable"@),
        ),
        PartLookup::NoMessage => Some((StreamFault::NotFound, "Playback part missing"@)),
        PartLookup::NoMedia => Some((StreamFault::NotFound, "Playback media missing"@)),
        PartLookup::Media(size) => if size != size_bytes {
            Some((StreamFault::BadGateway, "Playback part size mismatch"@))
        } else {
            None
        },
    }
}

/// A part whose document is found with the declared size is streamed,
/// whatever that size is; one whose document has another size is not, nor is
/// one whose document is not found.
pub proof fn law_parts_are_found_as_declared(size: u64, other: u64)
    requires
        other != size,
    ensures
        lookup_error(PartLookup::Media(size), size) is None,
        lookup_error(PartLookup::Media(other), size) == Some(
            (StreamFault::BadGateway, "Playback part size mismatch"@),
        ),
        lookup_error(PartLookup::NoMedia, size) == Some(
            (StreamFault::NotFound, "Playback media missing"@),
        ),
        lookup_error(PartLookup::NoMessage, size) == Some(
            (StreamFault::NotFound, "Playback part missing"@),
        ),
        lookup_error(PartLookup::FetchFailed, size) == Some(
            (StreamFault::BadGateway, "Playback origin unavailable"@),
        ),
        lookup_error(PartLookup::PeerFailed, size) == Some(
            (StreamFault::BadGateway, "Playback origin unavailable"@),
        ),
{
}

fn fail(fault: StreamFault, message: &str) -> (r: StreamError)
    ensures
        r@ == (fault, message@),
{
    StreamError { fault, message: message.to_owned() }
}

/// Why a segment breaks off whose download breaks off.
pub open spec fn stream_failed() -> (StreamFault, Seq<char>) {
    (StreamFault::BadGateway, "Playback Telegram stream failed"@)
}

/// Why a segment breaks off whose download ends before the stretch is done.
pub open spec fn ended_early() -> (StreamFault, Seq<char>) {
    (StreamFault::BadGateway, "Playback segment ended early"@)
}

/// Why a segment breaks off whose stretches are done, but do not hold as many
/// bytes as were promised.
pub open spec fn incomplete() -> (StreamFault, Seq<char>) {
    (StreamFault::BadGateway, "Playback segment is incomplete"@)
}

/// The error for a download that breaks off.
pub fn broken_download() -> (r: StreamError)
    ensures
        r@ == stream_failed(),
{
    fail(StreamFault::BadGateway, "Playback Telegram stream failed")
}

/// The window through which a stretch is cut out of its download.
pub open spec fn slice_window(slice: PartSlice) -> WindowView {
    WindowView {
        skip_left: (slice.local_start - aligned(slice.local_start as nat)) as nat,
        left: slice.local_length as nat,
    }
}

/// How far the streaming of a segment has come.
pub struct SegmentState {
    /// The stretches to stream.
    pub slices: Seq<PartSlice>,
    /// How many of them are done.
    pub at: nat,
    /// The window of the stretch that is being streamed, if one is.
    pub window: Option<WindowView>,
    /// How many bytes have been handed on.
    pub emitted: nat,
    /// How many bytes have been promised.
    pub content_length: nat,
}

impl SegmentState {
    /// The count of bytes is that of the stretches that are done and of the
    /// part that is done of the one that is being streamed.
    pub open spec fn wf(self) -> bool {
        &&& self.at <= self.slices.len()
        &&& slices_length(self.slices) <= u64::MAX
        &&& match self.window {
            Some(w) => {
                &&& self.at < self.slices.len()
                &&& w.left <= self.slices[self.at as int].local_length
                &&& self.emitted == slices_length(self.slices.take(self.at as int))
                    + self.slices[self.at as int].local_length - w.left
            },
            None => self.emitted == slices_length(self.slices.take(self.at as int)),
        }
    }
}

/// A segment of which nothing has been streamed yet.
pub open spec fn segment_start(
    parts: Seq<PlaybackAssetPart>,
    start: nat,
    end: nat,
) -> SegmentState {
    SegmentState {
        slices: slices_from(parts, 0, start, end),
        at: 0,
        window: None,
        emitted: 0,
        content_length: (end - start + 1) as nat,
    }
}

/// A segment whose next stretch has been found, and is about to be streamed.
pub open spec fn looked_up(state: SegmentState) -> SegmentState {
    SegmentState { window: Some(slice_window(state.slices[state.at as int])), ..state }
}

/// A segment that has been handed a chunk of the stretch that is being
/// streamed.
pub open spec fn fed(state: SegmentState, chunk: Seq<u8>) -> SegmentState {
    let w = state.window->0;
    SegmentState {
        window: Some(window_after(w, chunk)),
        emitted: state.emitted + window_bytes(w, chunk).len(),
        ..state
    }
}

/// A segment that is done with the stretch that was being streamed.
pub open spec fn ended(state: SegmentState) -> SegmentState {
    SegmentState { at: state.at + 1, window: None, ..state }
}

/// What to do for a segment next.
pub enum NextPart {
    /// Look up the document of this stretch.
    Fetch(PartSlice),
    /// Nothing: the segment is complete.
    Finished,
    /// Nothing: the segment breaks off.
    Failed(StreamError),
}

/// The streaming of a segment: it names the stretches one by one, cuts each
/// out of its download, and counts what has been handed on.
pub struct SegmentStream {
    slices: Vec<PartSlice>,
    at: usize,
    window: Option<ByteWindow>,
    emitted: u64,
    content_length: u64,
}

impl View for SegmentStream {
    type V = SegmentState;

    closed spec fn view(&self) -> SegmentState {
        SegmentState {
            slices: self.slices@,
            at: self.at as nat,
            window: match self.window {
                Some(w) => Some(w@),
                None => None,
            },
            emitted: self.emitted as nat,
            content_length: self.content_length as nat,
        }
    }
}

proof fn lemma_length_grows(slices: Seq<PartSlice>, i: int, j: int)
    requires
        0 <= i <= j <= slices.len(),
    ensures
        slices_length(slices.take(i)) <= slices_length(slices.take(j)),
    decreases j,
{
    if i < j {
        lemma_length_grows(slices, i, j - 1);
        assert(slices.take(j).drop_last() == slices.take(j - 1));
    }
}

proof fn lemma_one_more(slices: Seq<PartSlice>, i: int)
    requires
        0 <= i < slices.len(),
    ensures
        slices_length(slices.take(i + 1)) == slices_length(slices.take(i))
            + slices[i].local_length,
        slices_length(slices.take(i + 1)) <= slices_length(slices),
{
    assert(slices.take(i + 1).drop_last() == slices.take(i));
    lemma_length_grows(slices, i + 1, slices.len() as int);
    assert(slices.take(slices.len() as int) == slices);
}

proof fn lemma_planned_length(
    parts: Seq<PlaybackAssetPart>,
    base: nat,
    start: nat,
    end: nat,
)
    requires
        start <= end,
    ensures
        ({
            let low = if start > base {
                start
            } else {
                base
            };
            let high = if end + 1 < base + total_size(parts) {
                end + 1
            } else {
                base + total_size(parts)
            };
            slices_length(slices_from(parts, base, start, end)) == (if low < high {
                high - low
            } else {
                0
            })
        }),
    decreases parts.len(),
{
    if parts.len() > 0 {
        let next = base + parts[0].size_bytes as nat;
        let rest = parts.drop_first();
        lemma_planned_length(rest, next, start, end);
        lemma_total_from_front(parts);
        let slices = slices_from(parts, base, start, end);
        let behind = slices_from(rest, next, start, end);
        if slices.len() != behind.len() {
            assert(slices.drop_first() =~= behind);
            lemma_length_from_front(slices);
        }
    }
}

proof fn lemma_length_from_front(slices: Seq<PartSlice>)
    requires
        slices.len() > 0,
    ensures
        slices_length(slices) == slices[0].local_length + slices_length(slices.drop_first()),
    decreases slices.len(),
{
    let rest = slices.drop_first();
    if slices.len() == 1 {
        assert(slices.drop_last() == Seq::<PartSlice>::empty());
        assert(slices_length(slices.drop_last()) == 0);
        assert(rest == Seq::<PartSlice>::empty());
    } else {
        lemma_length_from_front(slices.drop_last());
        assert(slices.drop_last().drop_first() == rest.drop_last());
        assert(rest.last() == slices.last());
    }
}

impl SegmentStream {
    /// The streaming of the bytes from `start` to `end`, with nothing done.
    pub fn new(parts: &Vec<PlaybackAssetPart>, start: u64, end: u64) -> (r: SegmentStream)
        requires
            walkable(parts@, 0, start as nat, end as nat),
            start <= end < u64::MAX,
        ensures
            r@.wf(),
            r@ == segment_start(parts@, start as nat, end as nat),
    {
        let slices = plan_segment(parts, start, end);
        proof {
            lemma_planned_length(parts@, 0, start as nat, end as nat);
            assert(slices@.take(0) == Seq::<PartSlice>::empty());
            assert(slices_length(slices@.take(0)) == 0);
        }
        SegmentStream {
            slices,
            at: 0,
            window: None,
            emitted: 0,
            content_length: end - start + 1,
        }
    }

    /// What to do next when no stretch is being streamed.
    pub fn next_part(&self) -> (r: NextPart)
        requires
            self@.wf(),
            self@.window is None,
        ensures
            match r {
                NextPart::Fetch(slice) => self@.at < self@.slices.len() && slice
                    == self@.slices[self@.at as int],
                NextPart::Finished => self@.at == self@.slices.len() && self@.emitted
                    == self@.content_length,
                NextPart::Failed(e) => self@.at == self@.slices.len() && self@.emitted
                    != self@.content_length && e@ == incomplete(),
            },
    {
        if self.at < self.slices.len() {
            NextPart::Fetch(self.slices[self.at])
        } else if self.emitted != self.content_length {
            NextPart::Failed(fail(StreamFault::BadGateway, "Playback segment is incomplete"))
        } else {
            NextPart::Finished
        }
    }

    /// Takes what came of the search for the document of the next stretch,
    /// and gives the number of chunks to leave out at the front of its
    /// download.
    pub fn on_lookup(&mut self, lookup: PartLookup) -> (r: Result<i32, StreamError>)
        requires
            old(self)@.wf(),
            old(self)@.window is None,
            old(self)@.at < old(self)@.slices.len(),
        ensures
            final(self)@.wf(),
            ({
                let slice = old(self)@.slices[old(self)@.at as int];
                match r {
                    Ok(skip_chunks) => {
                        &&& lookup_error(lookup, slice.part.size_bytes) is None
                        &&& skip_chunks == (if chunk_index(slice.local_start) > 0 {
                            chunk_index(slice.local_start)
                        } else {
                            0
                        })
                        &&& final(self)@ == looked_up(old(self)@)
                    },
                    Err(e) => {
                        &&& lookup_error(lookup, slice.part.size_bytes) == Some(e@)
                        &&& final(self)@ == old(self)@
                    },
                }
            }),
    {
        let slice = self.slices[self.at];
        match lookup {
            PartLookup::PeerFailed | PartLookup::FetchFailed => {
                return Err(fail(StreamFault::BadGateway, "Playback origin unavailable"));
            },
            PartLookup::NoMessage => {
                return Err(fail(StreamFault::NotFound, "Playback part missing"));
            },
            PartLookup::NoMedia => {
                return Err(fail(StreamFault::NotFound, "Playback media missing"));
            },
            PartLookup::Media(size) => {
                if size != slice.part.size_bytes {
                    return Err(fail(StreamFault::BadGateway, "Playback part size mismatch"));
                }
            },
        }
        let plan = plan_download(slice.local_start, slice.local_length);
        self.window = Some(plan.window);
        Ok(plan.skip_chunks)
    }

    /// Takes a chunk of the download of the stretch that is being streamed.
    pub fn on_chunk(&mut self, data: Vec<u8>) -> (r: WindowStep)
        requires
            old(self)@.wf(),
            old(self)@.window is Some,
        ensures
            final(self)@.wf(),
            ({
                let w = old(self)@.window->0;
                &&& r.bytes@ == window_bytes(w, data@)
                &&& r.done == window_closed(window_after(w, data@))
                &&& final(self)@ == fed(old(self)@, data@)
            }),
    {
        proof {
            lemma_one_more(self.slices@, self.at as int);
        }
        let mut taken: Option<ByteWindow> = None;
        std::mem::swap(&mut taken, &mut self.window);
        let mut window = taken.unwrap();
        let step = window.feed(data);
        self.window = Some(window);
        self.emitted = self.emitted + step.bytes.len() as u64;
        step
    }

    /// Takes the end of the download of the stretch that is being streamed,
    /// which is too early where the window has not handed on all that it
    /// has to.
    pub fn on_download_end(&mut self) -> (r: Result<(), StreamError>)
        requires
            old(self)@.wf(),
            old(self)@.window is Some,
        ensures
            final(self)@.wf(),
            match r {
                Ok(_) => old(self)@.window->0.left == 0 && final(self)@ == ended(old(self)@),
                Err(e) => old(self)@.window->0.left != 0 && final(self)@ == old(self)@ && e@
                    == ended_early(),
            },
    {
        proof {
            lemma_one_more(self.slices@, self.at as int);
        }
        let left = match &self.window {
            Some(window) => window.left(),
            None => 0,
        };
        if left != 0 {
            return Err(fail(StreamFault::BadGateway, "Playback segment ended early"));
        }
        assert(self.at < self.slices.len());
        self.window = None;
        self.at = self.at + 1;
        Ok(())
    }
}

/// A segment that lies inside what its parts hold is never incomplete: when
/// every stretch is done, as many bytes have been handed on as were promised.
pub proof fn law_finished_stretches_complete_the_segment(
    parts: Seq<PlaybackAssetPart>,
    start: nat,
    end: nat,
    state: SegmentState,
)
    requires
        start <= end < total_size(parts),
        state.wf(),
        state.slices == slices_from(parts, 0, start, end),
        state.content_length == end - start + 1,
        state.window is None,
        state.at == state.slices.len(),
    ensures
        state.emitted == state.content_length,
{
    lemma_planned_length(parts, 0, start, end);
    assert(state.slices.take(state.at as int) == state.slices);
}

/// What is handed on of the chunks of a download until the stretch is done,
/// and how far the segment has come by then.
pub open spec fn download_run(state: SegmentState, chunks: Seq<Seq<u8>>) -> (
    Seq<u8>,
    SegmentState,
)
    decreases chunks.len(),
{
    if chunks.len() == 0 {
        (Seq::empty(), state)
    } else {
        let bytes = window_bytes(state.window->0, chunks[0]);
        let next = fed(state, chunks[0]);
        if window_closed(next.window->0) {
            (bytes, next)
        } else {
            let (rest, last) = download_run(next, chunks.drop_first());
            (bytes + rest, last)
        }
    }
}

/// What comes of a stretch: what is found of its document, the chunks that
/// its download delivers, and whether the download breaks off behind them.
pub struct Attempt {
    pub lookup: PartLookup,
    pub chunks: Seq<Seq<u8>>,
    pub broken: bool,
}

/// What comes of a segment: the bytes that are handed on, how far it has come
/// in the end, and why it breaks off, if it does.
pub struct SegmentRun {
    pub bytes: Seq<u8>,
    pub last: SegmentState,
    pub failure: Option<(StreamFault, Seq<char>)>,
}

/// What comes of a segment when the given attempts, one for each stretch, come
/// of its stretches.
pub open spec fn segment_run(state: SegmentState, attempts: Seq<Attempt>) -> SegmentRun
    decreases state.slices.len() - state.at,
{
    if state.at >= state.slices.len() {
        SegmentRun {
            bytes: Seq::empty(),
            last: state,
            failure: if state.emitted != state.content_length {
                Some(incomplete())
            } else {
                None
            },
        }
    } else {
        let attempt = attempts[state.at as int];
        let part = state.slices[state.at as int].part;
        match lookup_error(attempt.lookup, part.size_bytes) {
            Some(e) => SegmentRun { bytes: Seq::empty(), last: state, failure: Some(e) },
            None => {
                let (bytes, streamed) = download_run(looked_up(state), attempt.chunks);
                if attempt.broken && !window_closed(streamed.window->0) {
                    SegmentRun { bytes, last: streamed, failure: Some(stream_failed()) }
                } else if streamed.window->0.left != 0 {
                    SegmentRun { bytes, last: streamed, failure: Some(ended_early()) }
                } else {
                    proof {
                        lemma_download_run(looked_up(state), attempt.chunks);
                    }
                    let rest = segment_run(ended(streamed), attempts);
                    SegmentRun { bytes: bytes + rest.bytes, ..rest }
                }
            },
        }
    }
}

/// The chunks of a download are its document from the planned chunk on,
/// however far. (From byte 2^47 on the chunks cannot be counted in 32 bits.)
pub open spec fn faithful(
    slice: PartSlice,
    store: spec_fn(PlaybackAssetPart) -> Seq<u8>,
    chunks: Seq<Seq<u8>>,
) -> bool {
    let first = DOWNLOAD_CHUNK_SIZE * chunk_index(slice.local_start);
    let content = store(slice.part);
    let got = chunks.flatten();
    &&& slice.local_start < 0x8000_0000_0000
    &&& first + got.len() <= content.len()
    &&& got == content.subrange(first, first + got.len())
}

/// The chunks of a download reach at least as far as the stretch does.
pub open spec fn reaches(slice: PartSlice, chunks: Seq<Seq<u8>>) -> bool {
    slice.local_start + slice.local_length <= DOWNLOAD_CHUNK_SIZE * chunk_index(
        slice.local_start,
    ) + chunks.flatten().len()
}

/// The document of a stretch is found, and has the size that its part
/// declares.
pub open spec fn found(slice: PartSlice, attempt: Attempt) -> bool {
    attempt.lookup == PartLookup::Media(slice.part.size_bytes)
}

/// What is handed on of a download is what its window lets through, and it is
/// counted.
pub proof fn lemma_download_run(state: SegmentState, chunks: Seq<Seq<u8>>)
    requires
        state.window is Some,
    ensures
        ({
            let (bytes, last) = download_run(state, chunks);
            &&& bytes == window_run(state.window->0, chunks)
            &&& last == (SegmentState {
                window: last.window,
                emitted: state.emitted + bytes.len(),
                ..state
            })
            &&& last.window is Some
            &&& last.window->0.left == state.window->0.left - bytes.len()
            &&& bytes.len() > 0 || state.window->0.skip_left == 0 ==> last.window->0.skip_left == 0
        }),
    decreases chunks.len(),
{
    if chunks.len() > 0 {
        let next = fed(state, chunks[0]);
        if !window_closed(next.window->0) {
            lemma_download_run(next, chunks.drop_first());
        }
    }
}

/// A stretch of something, inside a document that is stored as declared.
spec fn inside(slice: PartSlice, store: spec_fn(PlaybackAssetPart) -> Seq<u8>) -> bool {
    &&& slice.local_length > 0
    &&& slice.local_start + slice.local_length <= store(slice.part).len()
}

proof fn lemma_slices_are_inside(
    parts: Seq<PlaybackAssetPart>,
    store: spec_fn(PlaybackAssetPart) -> Seq<u8>,
    base: nat,
    start: nat,
    end: nat,
)
    requires
        stored_as_declared(parts, store),
    ensures
        forall|i: int|
            0 <= i < slices_from(parts, base, start, end).len() ==> inside(
                #[trigger] slices_from(parts, base, start, end)[i],
                store,
            ),
    decreases parts.len(),
{
    if parts.len() > 0 {
        let next = base + parts[0].size_bytes as nat;
        let rest = parts.drop_first();
        assert(store(parts[0]).len() == parts[0].size_bytes);
        assert forall|i: int| 0 <= i < rest.len() implies store(#[trigger] rest[i]).len()
            == rest[i].size_bytes by {
            assert(rest[i] == parts[i + 1]);
        }
        lemma_slices_are_inside(rest, store, next, start, end);
        let slices = slices_from(parts, base, start, end);
        let behind = slices_from(rest, next, start, end);
        assert forall|i: int| 0 <= i < slices.len() implies inside(
            #[trigger] slices[i],
            store,
        ) by {
            if slices.len() == behind.len() {
                assert(slices[i] == behind[i]);
            } else if i > 0 {
                assert(slices[i] == behind[i - 1]);
            }
        }
    }
}

proof fn lemma_segment_run(
    state: SegmentState,
    store: spec_fn(PlaybackAssetPart) -> Seq<u8>,
    attempts: Seq<Attempt>,
)
    requires
        state.window is None,
        state.at <= state.slices.len(),
        forall|i: int|
            0 <= i < state.slices.len() ==> inside(#[trigger] state.slices[i], store) && (found(
                state.slices[i],
                attempts[i],
            ) ==> faithful(state.slices[i], store, attempts[i].chunks)),
    ensures
        ({
            let run = segment_run(state, attempts);
            let whole = slices_bytes(state.slices.skip(state.at as int), store);
            let n = run.bytes.len();
            &&& n <= whole.len()
            &&& run.bytes == whole.take(n as int)
            &&& run.last.emitted == state.emitted + n
            &&& run.failure is None <==> n == whole.len() && state.emitted + n
                == state.content_length
            &&& run.failure is None ==> run.last == (SegmentState {
                at: state.slices.len(),
                emitted: state.emitted + n,
                ..state
            })
            &&& (forall|i: int|
                state.at <= i < state.slices.len() ==> found(
                    #[trigger] state.slices[i],
                    attempts[i],
                ) && reaches(state.slices[i], attempts[i].chunks)) ==> n == whole.len()
        }),
    decreases state.slices.len() - state.at,
{
    let left = state.slices.skip(state.at as int);
    let whole = slices_bytes(left, store);
    let run = segment_run(state, attempts);
    if state.at < state.slices.len() {
        let slice = state.slices[state.at as int];
        let attempt = attempts[state.at as int];
        let here = slice_bytes(slice, store);
        let behind = slices_bytes(left.drop_first(), store);
        assert(inside(slice, store));
        assert(left[0] == slice);
        assert(whole == here + behind);
        assert(here.len() == slice.local_length);
        if found(slice, attempt) {
            law_short_download_hands_on_the_front(
                store(slice.part),
                slice.local_start,
                slice.local_length,
                attempt.chunks,
            );
            lemma_download_run(looked_up(state), attempt.chunks);
            let (bytes, streamed) = download_run(looked_up(state), attempt.chunks);
            assert(bytes == here.take(bytes.len() as int));
            if streamed.window->0.left != 0 {
                assert(bytes.len() < here.len());
                assert(run.bytes == bytes);
                assert(whole.take(bytes.len() as int) =~= bytes);
            } else {
                assert(window_closed(streamed.window->0));
                assert(bytes =~= here);
                let next = ended(streamed);
                lemma_segment_run(next, store, attempts);
                let rest = segment_run(next, attempts);
                assert(next.slices.skip(next.at as int) == left.drop_first());
                assert(run.bytes == here + rest.bytes);
                assert(whole.take(run.bytes.len() as int) =~= here + behind.take(
                    rest.bytes.len() as int,
                ));
            }
        } else {
            assert(run.bytes == Seq::<u8>::empty());
            assert(whole.take(0) =~= Seq::<u8>::empty());
        }
    } else {
        assert(left == Seq::<PartSlice>::empty());
        assert(whole.take(0) =~= Seq::<u8>::empty());
    }
}

/// Whatever is found of the documents, and however their downloads are parted
/// into chunks, end too early or break off: what is handed on of a segment is
/// the front of the stretch of the video that the segment stands for, and the
/// segment ends without an error if and only if as many bytes have been handed
/// on as were promised, which is then the whole stretch.
pub proof fn law_streamed_segment_begins_the_stretch(
    parts: Seq<PlaybackAssetPart>,
    store: spec_fn(PlaybackAssetPart) -> Seq<u8>,
    start: nat,
    end: nat,
    attempts: Seq<Attempt>,
)
    requires
        start <= end,
        stored_as_declared(parts, store),
        attempts.len() == slices_from(parts, 0, start, end).len(),
        forall|i: int|
            0 <= i < attempts.len() && found(
                slices_from(parts, 0, start, end)[i],
                #[trigger] attempts[i],
            ) ==> faithful(slices_from(parts, 0, start, end)[i], store, attempts[i].chunks),
    ensures
        ({
            let run = segment_run(segment_start(parts, start, end), attempts);
            let video = logical_bytes(parts, store);
            let n = run.bytes.len() as int;
            &&& run.last.emitted == n
            &&& n <= end - start + 1
            &&& n > 0 ==> start + n <= video.len() && run.bytes == video.subrange(
                start as int,
                start + n,
            )
            &&& end < video.len() ==> run.bytes == video.subrange(
                start as int,
                (end + 1) as int,
            ).take(n)
            &&& run.failure is None <==> n == end - start + 1
        }),
{
    let state = segment_start(parts, start, end);
    let run = segment_run(state, attempts);
    let video = logical_bytes(parts, store);
    let n = run.bytes.len() as int;
    lemma_slices_are_inside(parts, store, 0, start, end);
    assert forall|i: int| 0 <= i < state.slices.len() implies inside(
        #[trigger] state.slices[i],
        store,
    ) && (found(state.slices[i], attempts[i]) ==> faithful(
        state.slices[i],
        store,
        attempts[i].chunks,
    )) by {}
    lemma_segment_run(state, store, attempts);
    assert(state.slices.skip(0) == state.slices);
    lemma_slices_bytes(parts, store, 0, start, end);
    let whole = slices_bytes(state.slices, store);
    assert(whole == cut(video, start as int, (end + 1) as int));
    if n > 0 {
        assert(whole.take(n) =~= video.subrange(start as int, start + n));
    }
    if end < video.len() {
        assert(whole == video.subrange(start as int, (end + 1) as int));
    }
}

/// However the downloads are parted into chunks, a segment whose documents are
/// all found, and whose downloads reach far enough, is the stretch of the
/// video that the segment stands for, and ends without an error.
pub proof fn law_streamed_segment_is_the_stretch(
    parts: Seq<PlaybackAssetPart>,
    store: spec_fn(PlaybackAssetPart) -> Seq<u8>,
    start: nat,
    end: nat,
    attempts: Seq<Attempt>,
)
    requires
        start <= end < total_size(parts),
        stored_as_declared(parts, store),
        attempts.len() == slices_from(parts, 0, start, end).len(),
        forall|i: int|
            0 <= i < attempts.len() ==> {
                let slice = slices_from(parts, 0, start, end)[i];
                &&& found(slice, #[trigger] attempts[i])
                &&& faithful(slice, store, attempts[i].chunks)
                &&& reaches(slice, attempts[i].chunks)
            },
    ensures
        ({
            let run = segment_run(segment_start(parts, start, end), attempts);
            &&& run.failure is None
            &&& run.bytes == logical_bytes(parts, store).subrange(
                start as int,
                (end + 1) as int,
            )
            &&& run.last.at == run.last.slices.len()
            &&& run.last.window is None
            &&& run.last.emitted == run.last.content_length
        }),
{
    let state = segment_start(parts, start, end);
    let run = segment_run(state, attempts);
    lemma_slices_are_inside(parts, store, 0, start, end);
    assert forall|i: int| 0 <= i < state.slices.len() implies inside(
        #[trigger] state.slices[i],
        store,
    ) && found(state.slices[i], attempts[i]) && faithful(
        state.slices[i],
        store,
        attempts[i].chunks,
    ) && reaches(state.slices[i], attempts[i].chunks) by {
        assert(found(state.slices[i], attempts[i]));
    }
    lemma_segment_run(state, store, attempts);
    assert(state.slices.skip(0) == state.slices);
    law_planned_slices_are_the_segment(parts, store, start, end);
    lemma_logical_len(parts, store);
    let whole = slices_bytes(state.slices, store);
    assert(whole.take(whole.len() as int) =~= whole);
}

/// The head of a response that streams a segment.
pub open spec fn segment_head(
    asset: AssetView,
    segment_index: u64,
    content_length: nat,
) -> HeadView {
    HeadView {
        status: 200,
        headers: seq![
            ("Content-Type"@, asset.mime_type),
            ("Content-Length"@, decimal(content_length)),
            ("Accept-Ranges"@, "bytes"@),
            ("Cache-Control"@, "public, max-age=31536000, immutable"@),
            (
                "ETag"@,
                "\""@ + asset.etag + "-"@ + decimal(segment_index as nat) + "\""@,
            ),
            ("X-Content-Type-Options"@, "nosniff"@),
        ],
    }
}

/// The head of a response to a request for bytes that are not there.
pub open spec fn unsatisfiable_head(size_bytes: u64) -> HeadView {
    HeadView {
        status: 416,
        headers: seq![("Content-Range"@, "bytes */"@ + decimal(size_bytes as nat))],
    }
}

/// Answers a request for bytes that are not there.
pub fn not_satisfiable(size_bytes: u64) -> (r: ResponseHead)
    ensures
        r@ == unsatisfiable_head(size_bytes),
{
    let mut head = ResponseHead::new(416);
    head.add("Content-Range", join2("bytes */", decimal_u64(size_bytes).as_str()));
    assert(head@.headers == unsatisfiable_head(size_bytes).headers);
    head
}

/// How a request for a segment is answered.
pub enum SegmentReply {
    /// The asset has no such segment.
    NotSatisfiable(ResponseHead),
    /// The segment is streamed.
    Stream(ResponseHead, SegmentStream),
}

/// Answers a request for a segment of an asset.
pub fn build_playback_segment_response(asset: &PlaybackAsset, segment_index: u64) -> (r:
    SegmentReply)
    requires
        segment_bounds(asset.size_bytes as nat, segment_index as nat) matches Some((start, end))
            ==> walkable(asset.parts@, 0, start, end),
    ensures
        match (r, segment_bounds(asset.size_bytes as nat, segment_index as nat)) {
            (SegmentReply::NotSatisfiable(head), None) => head@ == unsatisfiable_head(
                asset.size_bytes,
            ),
            (SegmentReply::Stream(head, stream), Some((start, end))) => {
                &&& head@ == segment_head(asset@, segment_index, (end - start + 1) as nat)
                &&& stream@.wf()
                &&& stream@ == segment_start(asset.parts@, start, end)
            },
            _ => false,
        },
{
    let (start, end) = match playback_segment_bounds(asset.size_bytes, segment_index) {
        Some(bounds) => bounds,
        None => return SegmentReply::NotSatisfiable(not_satisfiable(asset.size_bytes)),
    };
    proof {
        law_segments_tile_the_asset(asset.size_bytes as nat, segment_index as nat);
    }
    let content_length = end - start + 1;
    let stream = SegmentStream::new(&asset.parts, start, end);
    let mut head = ResponseHead::new(200);
    head.add("Content-Type", asset.mime_type.clone());
    head.add("Content-Length", decimal_u64(content_length));
    head.add("Accept-Ranges", "bytes".to_owned());
    head.add("Cache-Control", "public, max-age=31536000, immutable".to_owned());
    let mut tag = join3("\"", asset.etag.as_str(), "-");
    tag.append(decimal_u64(segment_index).as_str());
    tag.append("\"");
    head.add("ETag", tag);
    head.add("X-Content-Type-Options", "nosniff".to_owned());
    assert(head@.headers == segment_head(asset@, segment_index, content_length as nat).headers);
    SegmentReply::Stream(head, stream)
}

spec fn step_ok(
    parts: Seq<PlaybackAssetPart>,
    base: nat,
    start: nat,
    end: nat,
    k: int,
) -> bool {
    let here = base + total_size(parts.take(k));
    k == 0 || base + total_size(parts.take(k - 1)) <= end ==> {
        &&& here + parts[k].size_bytes <= u64::MAX
        &&& parts[k].size_bytes == 0 ==> 0 < here && !(start < here <= end)
    }
}

proof fn lemma_walk(parts: Seq<PlaybackAssetPart>, base: nat, start: nat, end: nat)
    ensures
        walkable(parts, base, start, end) <==> forall|k: int|
            0 <= k < parts.len() ==> #[trigger] step_ok(parts, base, start, end, k),
    decreases parts.len(),
{
    if parts.len() > 0 {
        let rest = parts.drop_first();
        let next = base + parts[0].size_bytes as nat;
        assert(parts.take(0) == Seq::<PlaybackAssetPart>::empty());
        assert(total_size(parts.take(0)) == 0);
        lemma_walk(rest, next, start, end);
        assert forall|k: int| 0 <= k < rest.len() implies total_size(#[trigger] parts.take(k + 1))
            == parts[0].size_bytes + total_size(rest.take(k)) by {
            lemma_total_from_front(parts.take(k + 1));
            assert(parts.take(k + 1).drop_first() == rest.take(k));
        }
        assert forall|k: int| 0 <= k < rest.len() && base <= end implies #[trigger] step_ok(
            rest,
            next,
            start,
            end,
            k,
        ) == step_ok(parts, base, start, end, k + 1) by {
            assert(rest[k] == parts[k + 1]);
            assert(total_size(parts.take(k + 1)) == parts[0].size_bytes + total_size(rest.take(k)));
            if k > 0 {
                assert(total_size(parts.take(k - 1 + 1)) == parts[0].size_bytes + total_size(
                    rest.take(k - 1),
                ));
            }
        }
        let all = forall|k: int|
            0 <= k < parts.len() ==> #[trigger] step_ok(parts, base, start, end, k);
        if all {
            assert(step_ok(parts, base, start, end, 0));
            if base <= end {
                assert forall|k: int| 0 <= k < rest.len() implies #[trigger] step_ok(
                    rest,
                    next,
                    start,
                    end,
                    k,
                ) by {
                    assert(step_ok(parts, base, start, end, k + 1));
                }
            }
        }
        if walkable(parts, base, start, end) {
            assert forall|k: int| 0 <= k < parts.len() implies #[trigger] step_ok(
                parts,
                base,
                start,
                end,
                k,
            ) by {
                if k > 0 && base <= end {
                    assert(step_ok(rest, next, start, end, k - 1));
                }
            }
        }
    }
}

/// Parts can be walked for a stretch if and only if, for each part that is
/// not behind one that starts behind the stretch, the bytes up to its end can
/// be counted, and it holds something, or comes behind the front of the video
/// and not inside the stretch.
pub proof fn law_parts_can_be_walked(parts: Seq<PlaybackAssetPart>, start: nat, end: nat)
    ensures
        walkable(parts, 0, start, end) <==> forall|k: int|
            0 <= k < parts.len() && (k == 0 || total_size(parts.take(k - 1)) <= end) ==> {
                let here = total_size(parts.take(k));
                &&& here + (#[trigger] parts[k]).size_bytes <= 0xffff_ffff_ffff_ffff
                &&& parts[k].size_bytes == 0 ==> 0 < here && (here <= start || end < here)
            },
{
    lemma_walk(parts, 0, start, end);
    if walkable(parts, 0, start, end) {
        assert forall|k: int|
            0 <= k < parts.len() && (k == 0 || total_size(parts.take(k - 1)) <= end) implies {
            let here = total_size(parts.take(k));
            &&& here + (#[trigger] parts[k]).size_bytes <= 0xffff_ffff_ffff_ffff
            &&& parts[k].size_bytes == 0 ==> 0 < here && (here <= start || end < here)
        } by {
            assert(step_ok(parts, 0, start, end, k));
        }
    } else {
        let k = choose|k: int| 0 <= k < parts.len() && !step_ok(parts, 0, start, end, k);
        assert(!step_ok(parts, 0, start, end, k));
        assert(parts[k].size_bytes >= 0);
    }
}

/// A segment is promised with the type of its asset, as many bytes as it has,
/// and a tag that is made of the tag of its asset and its own number; it may
/// be kept for ever.
pub proof fn law_segments_are_promised_as_they_are(
    asset: AssetView,
    segment_index: u64,
    start: nat,
    end: nat,
)
    requires
        segment_bounds(asset.size_bytes as nat, segment_index as nat) == Some((start, end)),
    ensures
        ({
            let head = segment_head(asset, segment_index, (end - start + 1) as nat);
            &&& head.status == 200
            &&& head.headers.len() == 6
            &&& head.headers.contains(("Content-Type"@, asset.mime_type))
            &&& head.headers.contains(("Content-Length"@, decimal((end + 1 - start) as nat)))
            &&& head.headers.contains(("Accept-Ranges"@, "bytes"@))
            &&& head.headers.contains(
                ("Cache-Control"@, "public, max-age=31536000, immutable"@),
            )
            &&& head.headers.contains(
                (
                    "ETag"@,
                    seq!['"'] + asset.etag + seq!['-'] + decimal(segment_index as nat) + seq!['"'],
                ),
            )
            &&& head.headers.contains(("X-Content-Type-Options"@, "nosniff"@))
            &&& segment_start(asset.parts, start, end).content_length == end + 1 - start
        }),
{
    reveal_strlit("\"");
    reveal_strlit("-");
    assert("\""@ =~= seq!['"']);
    assert("-"@ =~= seq!['-']);
    let headers = segment_head(asset, segment_index, (end - start + 1) as nat).headers;
    assert(headers.len() == 6);
    assert(headers[0] == ("Content-Type"@, asset.mime_type));
    assert(headers[1] == ("Content-Length"@, decimal((end + 1 - start) as nat)));
    assert(headers[2] == ("Accept-Ranges"@, "bytes"@));
    assert(headers[3] == ("Cache-Control"@, "public, max-age=31536000, immutable"@));
    assert(headers[4].0 == "ETag"@);
    assert(headers[4] == (
        "ETag"@,
        seq!['"'] + asset.etag + seq!['-'] + decimal(segment_index as nat) + seq!['"'],
    ));
    assert(headers[5] == ("X-Content-Type-Options"@, "nosniff"@));
}

/// A client that asks for bytes that are not there is told how many there
/// are.
pub proof fn law_missing_bytes_are_answered_with_the_size(size_bytes: u64)
    ensures
        unsatisfiable_head(size_bytes).status == 416,
        unsatisfiable_head(size_bytes).headers == seq![
            (
                "Content-Range"@,
                seq!['b', 'y', 't', 'e', 's', ' ', '*', '/'] + decimal(size_bytes as nat),
            ),
        ],
{
    reveal_strlit("bytes */");
    assert("bytes */"@ =~= seq!['b', 'y', 't', 'e', 's', ' ', '*', '/']);
}

} // verus!
