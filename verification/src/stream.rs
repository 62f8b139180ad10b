//! A stretch of a stored document, cut out of the chunks in which the
//! document is downloaded.

use vstd::prelude::*;
use vstd::slice::slice_subrange;

verus! {

/// Downloads start at a multiple of this many bytes.
pub const CDN_ALIGNMENT: u64 = 524_288;

/// The size of the chunks in which documents are downloaded.
pub const DOWNLOAD_CHUNK_SIZE: i32 = 65_536;

/// What a window has still to do: how many bytes it will drop, and how many
/// it will hand on behind those.
pub struct WindowView {
    pub skip_left: nat,
    pub left: nat,
}

/// What a window hands on of a chunk.
pub open spec fn window_bytes(w: WindowView, chunk: Seq<u8>) -> Seq<u8> {
    if chunk.len() <= w.skip_left {
        Seq::empty()
    } else if chunk.len() <= w.skip_left + w.left {
        chunk.skip(w.skip_left as int)
    } else {
        chunk.subrange(w.skip_left as int, (w.skip_left + w.left) as int)
    }
}

/// What a window has still to do when it has seen a chunk.
pub open spec fn window_after(w: WindowView, chunk: Seq<u8>) -> WindowView {
    if chunk.len() <= w.skip_left {
        WindowView { skip_left: (w.skip_left - chunk.len()) as nat, left: w.left }
    } else {
        WindowView { skip_left: 0, left: (w.left - window_bytes(w, chunk).len()) as nat }
    }
}

/// A window that has handed on all that it has to.
pub open spec fn window_closed(w: WindowView) -> bool {
    w.skip_left == 0 && w.left == 0
}

/// What a window hands on of a row of chunks, until it is closed.
pub open spec fn window_run(w: WindowView, chunks: Seq<Seq<u8>>) -> Seq<u8>
    decreases chunks.len(),
{
    if chunks.len() == 0 {
        Seq::empty()
    } else {
        let after = window_after(w, chunks[0]);
        if window_closed(after) {
            window_bytes(w, chunks[0])
        } else {
            window_bytes(w, chunks[0]) + window_run(after, chunks.drop_first())
        }
    }
}

/// The bytes of a chunk that are handed on, and whether there is more to come.
pub struct WindowStep {
    pub bytes: Vec<u8>,
    pub done: bool,
}

/// Drops the first bytes of a stream and hands on a number of those behind.
pub struct ByteWindow {
    skip_left: usize,
    left: u64,
}

impl View for ByteWindow {
    type V = WindowView;

    closed spec fn view(&self) -> WindowView {
        WindowView { skip_left: self.skip_left as nat, left: self.left as nat }
    }
}

fn copy_bytes(data: &[u8]) -> (r: Vec<u8>)
    ensures
        r@ == data@,
{
    let mut out: Vec<u8> = Vec::new();
    out.extend_from_slice(data);
    assert(out@ == data@);
    out
}

impl ByteWindow {
    /// A window that drops `skip` bytes and hands on the `want` bytes behind.
    pub fn new(skip: usize, want: u64) -> (r: ByteWindow)
        ensures
            r@ == (WindowView { skip_left: skip as nat, left: want as nat }),
    {
        ByteWindow { skip_left: skip, left: want }
    }

    /// How many bytes are still to be handed on.
    pub fn left(&self) -> (r: u64)
        ensures
            r == self@.left,
    {
        self.left
    }

    /// Takes a chunk of the stream and hands on what lies in the window.
    pub fn feed(&mut self, data: Vec<u8>) -> (r: WindowStep)
        ensures
            r.bytes@ == window_bytes(old(self)@, data@),
            final(self)@ == window_after(old(self)@, data@),
            r.done == window_closed(final(self)@),
    {
        if data.len() < self.skip_left || (data.len() == self.skip_left && self.skip_left > 0) {
            self.skip_left = self.skip_left - data.len();
            let done = self.skip_left == 0 && self.left == 0;
            return WindowStep { bytes: Vec::new(), done };
        }
        let rest = slice_subrange(data.as_slice(), self.skip_left, data.len());
        self.skip_left = 0;
        let take: usize = if self.left < rest.len() as u64 {
            self.left as usize
        } else {
            rest.len()
        };
        self.left = self.left - take as u64;
        let bytes = copy_bytes(slice_subrange(rest, 0, take));
        let done = self.left == 0;
        WindowStep { bytes, done }
    }
}

proof fn lemma_window_over_two(w: WindowView, a: Seq<u8>, b: Seq<u8>)
    ensures
        window_bytes(w, a + b) == window_bytes(w, a) + window_bytes(window_after(w, a), b),
{
    let after = window_after(w, a);
    assert(window_bytes(w, a + b) =~= window_bytes(w, a) + window_bytes(after, b));
}

/// However a stream is parted into chunks, a window hands on the same
/// stretch of it.
pub proof fn law_window_is_blind_to_chunks(w: WindowView, chunks: Seq<Seq<u8>>)
    ensures
        window_run(w, chunks) == window_bytes(w, chunks.flatten()),
    decreases chunks.len(),
{
    if chunks.len() > 0 {
        let after = window_after(w, chunks[0]);
        let rest = chunks.drop_first();
        assert(chunks.flatten() == chunks[0] + rest.flatten());
        lemma_window_over_two(w, chunks[0], rest.flatten());
        if window_closed(after) {
            assert(window_bytes(after, rest.flatten()) =~= Seq::<u8>::empty());
            assert(window_run(w, chunks) =~= window_bytes(w, chunks.flatten()));
        } else {
            law_window_is_blind_to_chunks(after, rest);
        }
    }
}

/// The last multiple of the alignment that is not behind `start`.
pub open spec fn aligned(start: nat) -> nat {
    start / CDN_ALIGNMENT as nat * CDN_ALIGNMENT as nat
}

/// How many chunks lie before the aligned start, as the downloader counts
/// them: in 32 bits.
pub open spec fn chunk_index(start: u64) -> i32 {
    (aligned(start as nat) as u64 / DOWNLOAD_CHUNK_SIZE as u64) as i32
}

/// How to download a stretch of a document: how many chunks to leave out at
/// its front (none for 0), and which bytes of the rest to hand on.
pub struct DownloadPlan {
    pub skip_chunks: i32,
    pub window: ByteWindow,
}

/// Plans the download of the `length` bytes of a document from `start` on.
pub fn plan_download(start: u64, length: u64) -> (r: DownloadPlan)
    ensures
        r.skip_chunks == (if chunk_index(start) > 0 {
            chunk_index(start)
        } else {
            0
        }),
        r.window@ == (WindowView {
            skip_left: (start - aligned(start as nat)) as nat,
            left: length as nat,
        }),
{
    let aligned_start = (start / CDN_ALIGNMENT) * CDN_ALIGNMENT;
    let index = #[verifier::truncate]
    ((aligned_start / DOWNLOAD_CHUNK_SIZE as u64) as i32);
    let skip_chunks = if index > 0 {
        index
    } else {
        0
    };
    DownloadPlan {
        skip_chunks,
        window: ByteWindow::new((start - aligned_start) as usize, length),
    }
}

/// A planned download that delivers its document from the planned chunk on,
/// however far, hands on the front of the stretch: as many of its bytes as
/// have come. (From byte 2^47 on the chunks cannot be counted in 32 bits.)
pub proof fn law_short_download_hands_on_the_front(
    content: Seq<u8>,
    start: u64,
    length: u64,
    chunks: Seq<Seq<u8>>,
)
    requires
        start < 0x8000_0000_0000,
        start + length <= content.len(),
        ({
            let first = DOWNLOAD_CHUNK_SIZE * chunk_index(start);
            &&& first + chunks.flatten().len() <= content.len()
            &&& chunks.flatten() == content.subrange(first, first + chunks.flatten().len())
        }),
    ensures
        ({
            let reach = DOWNLOAD_CHUNK_SIZE * chunk_index(start) + chunks.flatten().len();
            let come = if reach <= start {
                0
            } else if reach < start + length {
                reach - start
            } else {
                length as int
            };
            window_run(
                WindowView {
                    skip_left: (start - aligned(start as nat)) as nat,
                    left: length as nat,
                },
                chunks,
            ) == content.subrange(start as int, start + length).take(come)
        }),
{
    let w = WindowView {
        skip_left: (start - aligned(start as nat)) as nat,
        left: length as nat,
    };
    law_window_is_blind_to_chunks(w, chunks);
    let base = aligned(start as nat);
    let steps = start as nat / 524_288;
    assert(base == steps * 524_288);
    assert(steps < 0x1000_0000);
    let from = base as u64;
    let size = DOWNLOAD_CHUNK_SIZE as u64;
    assert(from / size == steps * 8) by (nonlinear_arith)
        requires
            from == steps * 524_288,
            size == 65_536,
    ;
    assert(DOWNLOAD_CHUNK_SIZE * chunk_index(start) == base);
    let reach = base + chunks.flatten().len();
    let come = if reach <= start {
        0
    } else if reach < start + length {
        reach - start
    } else {
        length as int
    };
    assert(window_bytes(w, chunks.flatten()) =~= content.subrange(
        start as int,
        start + length,
    ).take(come));
}

/// A planned download that delivers its document from the planned chunk on,
/// at least as far as the stretch reaches, hands on exactly that stretch.
/// (From byte 2^47 on the chunks cannot be counted in 32 bits.)
pub proof fn law_download_hands_on_the_stretch(
    content: Seq<u8>,
    start: u64,
    length: u64,
    chunks: Seq<Seq<u8>>,
)
    requires
        start < 0x8000_0000_0000,
        start + length <= content.len(),
        ({
            let first = DOWNLOAD_CHUNK_SIZE * chunk_index(start);
            &&& start + length <= first + chunks.flatten().len() <= content.len()
            &&& chunks.flatten() == content.subrange(first, first + chunks.flatten().len())
        }),
    ensures
        window_run(
            WindowView {
                skip_left: (start - aligned(start as nat)) as nat,
                left: length as nat,
            },
            chunks,
        ) == content.subrange(start as int, start + length),
{
    law_short_download_hands_on_the_front(content, start, length, chunks);
    let stretch = content.subrange(start as int, start + length);
    assert(stretch.take(length as int) =~= stretch);
}

/// However a stream is parted into chunks, a window lets through exactly what
/// stands between the bytes that it drops and the end of what it wants, as
/// far as the stream reaches.
pub proof fn law_window_is_a_stretch_of_the_stream(w: WindowView, chunks: Seq<Seq<u8>>)
    ensures
        ({
            let stream = chunks.flatten();
            let from = if w.skip_left < stream.len() {
                w.skip_left as int
            } else {
                stream.len() as int
            };
            let to = if w.skip_left + w.left < stream.len() {
                (w.skip_left + w.left) as int
            } else {
                stream.len() as int
            };
            window_run(w, chunks) == stream.subrange(from, to)
        }),
{
    law_window_is_blind_to_chunks(w, chunks);
    let stream = chunks.flatten();
    if stream.len() <= w.skip_left {
        assert(stream.subrange(stream.len() as int, stream.len() as int) =~= Seq::<u8>::empty());
    } else if stream.len() <= w.skip_left + w.left {
        assert(stream.skip(w.skip_left as int) =~= stream.subrange(
            w.skip_left as int,
            stream.len() as int,
        ));
    }
}

/// A window is closed as soon as all that it drops and wants has come, and
/// not before; what it still wants is what it wanted without what it let
/// through.
pub proof fn law_window_closes_when_all_has_come(w: WindowView, chunk: Seq<u8>)
    ensures
        window_closed(window_after(w, chunk)) <==> w.skip_left + w.left <= chunk.len(),
        window_after(w, chunk).left + window_bytes(w, chunk).len() == w.left,
        chunk.len() <= w.skip_left ==> window_after(w, chunk).skip_left == w.skip_left - chunk.len(),
        chunk.len() > w.skip_left ==> window_after(w, chunk).skip_left == 0,
{
}

/// A download starts at the last multiple of 524,288 bytes that is not behind
/// the wanted byte, which is counted in chunks of 65,536 bytes.
pub proof fn law_downloads_start_close_before_the_stretch(start: u64)
    ensures
        aligned(start as nat) <= start < aligned(start as nat) + 524_288,
        aligned(start as nat) % 524_288 == 0,
        chunk_index(start) == (start / 524_288 * 8) as i32,
        start < 0x8000_0000_0000 ==> chunk_index(start) * 65_536 == aligned(start as nat),
{
    let base = aligned(start as nat);
    let steps = start as nat / 524_288;
    assert(base == steps * 524_288);
    let from = base as u64;
    let size = DOWNLOAD_CHUNK_SIZE as u64;
    assert(from / size == steps * 8) by (nonlinear_arith)
        requires
            from == steps * 524_288,
            size == 65_536,
    ;
}

} // verus!
