//! Playback assets: one logical video kept as an ordered row of Telegram
//! documents, offered to a CDN as segments of a fixed size.

use vstd::prelude::*;
use vstd::string::*;

use crate::text::{
    ascii_lower, byte_len, chars_of, law_trimming_once_is_enough, lemma_small_bytes_are_ascii,
    lemma_stretch_is_shorter, lemma_tight_text, lemma_trimmed_is_inside, same_text, text_of,
    to_ascii_lower, trim_chars, trimmed,
};

verus! {

/// The size of every segment but the last of an asset.
pub const PLAYBACK_SEGMENT_SIZE: u64 = 67_108_864;

/// One Telegram document of an asset.
#[derive(Clone, Copy, Debug, PartialEq, Eq)]
pub struct PlaybackAssetPart {
    pub message_id: i32,
    pub folder_id: Option<i64>,
    pub size_bytes: u64,
}

/// A registered asset.
#[derive(Debug, PartialEq, Eq)]
pub struct PlaybackAsset {
    pub size_bytes: u64,
    pub mime_type: String,
    pub etag: String,
    pub parts: Vec<PlaybackAssetPart>,
}

/// An asset as a client proposes it.
pub struct PlaybackAssetInput {
    pub size_bytes: u64,
    pub mime_type: String,
    pub etag: String,
    pub parts: Vec<PlaybackAssetPart>,
}

/// What an asset holds, as plain values.
pub struct AssetView {
    pub size_bytes: u64,
    pub mime_type: Seq<char>,
    pub etag: Seq<char>,
    pub parts: Seq<PlaybackAssetPart>,
}

impl View for PlaybackAsset {
    type V = AssetView;

    open spec fn view(&self) -> AssetView {
        AssetView {
            size_bytes: self.size_bytes,
            mime_type: self.mime_type@,
            etag: self.etag@,
            parts: self.parts@,
        }
    }
}

impl View for PlaybackAssetInput {
    type V = AssetView;

    open spec fn view(&self) -> AssetView {
        AssetView {
            size_bytes: self.size_bytes,
            mime_type: self.mime_type@,
            etag: self.etag@,
            parts: self.parts@,
        }
    }
}

impl Clone for PlaybackAsset {
    fn clone(&self) -> (r: Self)
        ensures
            r@ == self@,
    {
        let mut parts: Vec<PlaybackAssetPart> = Vec::new();
        let mut i: usize = 0;
        while i < self.parts.len()
            invariant
                i <= self.parts@.len(),
                parts@ == self.parts@.take(i as int),
            decreases self.parts@.len() - i,
        {
            parts.push(self.parts[i]);
            i += 1;
        }
        let r = PlaybackAsset {
            size_bytes: self.size_bytes,
            mime_type: self.mime_type.clone(),
            etag: self.etag.clone(),
            parts,
        };
        assert(r@.parts == self@.parts);
        r
    }
}

/// The characters that an asset id is made of.
pub open spec fn asset_id_char(c: char) -> bool {
    'a' <= c <= 'z' || 'A' <= c <= 'Z' || '0' <= c <= '9' || c == '-' || c == '_'
}

/// An asset id: 1 to 128 letters, digits, hyphens and underscores.
pub open spec fn asset_id(id: Seq<char>) -> bool {
    &&& 1 <= id.len() <= 128
    &&& forall|i: int| 0 <= i < id.len() ==> asset_id_char(#[trigger] id[i])
}

/// Whether a text can be an asset id.
pub fn valid_asset_id(value: &str) -> (r: bool)
    ensures
        r == asset_id(value@),
{
    let bytes = value.as_bytes();
    let ghost text = value@;
    if bytes.len() == 0 {
        assert(text.len() == 0) by {
            if text.len() > 0 {
                vstd::utf8::encode_utf8_first_scalar(text);
            }
        }
        return false;
    }
    if bytes.len() > 128 {
        assert(!asset_id(text)) by {
            if asset_id(text) {
                assert(vstd::utf8::is_ascii_chars(text));
                vstd::utf8::is_ascii_chars_encode_utf8(text);
            }
        }
        return false;
    }
    let mut i: usize = 0;
    while i < bytes.len()
        invariant
            i <= bytes@.len(),
            bytes@ == vstd::utf8::encode_utf8(text),
            text == value@,
            forall|k: int| 0 <= k < i ==> asset_id_char(#[trigger] bytes@[k] as char),
        decreases bytes@.len() - i,
    {
        let b = bytes[i];
        let good = (97 <= b && b <= 122) || (65 <= b && b <= 90) || (48 <= b && b <= 57) || b == 45
            || b == 95;
        if !good {
            assert(!asset_id(text)) by {
                if asset_id(text) {
                    assert(vstd::utf8::is_ascii_chars(text));
                    vstd::utf8::is_ascii_chars_encode_utf8(text);
                    assert(asset_id_char(text[i as int]));
                }
            }
            return false;
        }
        i += 1;
    }
    proof {
        assert forall|k: int| 0 <= k < bytes@.len() implies #[trigger] bytes@[k] < 128 by {
            assert(asset_id_char(bytes@[k] as char));
        }
        lemma_small_bytes_are_ascii(text);
        vstd::utf8::is_ascii_chars_encode_utf8(text);
        assert forall|k: int| 0 <= k < text.len() implies asset_id_char(#[trigger] text[k]) by {
            assert(text[k] as u8 == bytes@[k]);
            assert(asset_id_char(bytes@[k] as char));
        }
    }
    true
}

/// A part that names a message and holds something.
pub open spec fn part_ok(part: PlaybackAssetPart) -> bool {
    part.message_id > 0 && part.size_bytes > 0
}

/// How many bytes the parts hold together.
pub open spec fn total_size(parts: Seq<PlaybackAssetPart>) -> nat
    decreases parts.len(),
{
    if parts.len() == 0 {
        0
    } else {
        total_size(parts.drop_last()) + parts.last().size_bytes as nat
    }
}

/// Part `k` is the first that is not in order, and the sizes before it can
/// still be added up.
pub open spec fn bad_part_at(parts: Seq<PlaybackAssetPart>, k: int) -> bool {
    &&& 0 <= k < parts.len()
    &&& !part_ok(parts[k])
    &&& forall|j: int| 0 <= j < k ==> part_ok(#[trigger] parts[j])
    &&& total_size(parts.take(k)) <= u64::MAX
}

/// The parts up to and including part `k` are in order, but hold more bytes
/// together than can be counted.
pub open spec fn too_much_at(parts: Seq<PlaybackAssetPart>, k: int) -> bool {
    &&& 0 <= k < parts.len()
    &&& forall|j: int| 0 <= j <= k ==> part_ok(#[trigger] parts[j])
    &&& total_size(parts.take(k + 1)) > u64::MAX
}

/// Why a proposed asset is refused, if it is.
pub open spec fn asset_refusal(input: AssetView) -> Option<Seq<char>> {
    if input.size_bytes == 0 {
        Some("Playback asset must be non-empty"@)
    } else if ascii_lower(trimmed(input.mime_type)) != "video/mp4"@ {
        Some("Playback asset must use video/mp4"@)
    } else if trimmed(input.etag).len() == 0 || byte_len(input.etag) > 160 {
        Some("Playback asset ETag is invalid"@)
    } else if input.parts.len() == 0 {
        Some("Playback asset has no Telegram parts"@)
    } else if exists|k: int| bad_part_at(input.parts, k) {
        Some("Playback asset contains an invalid Telegram part"@)
    } else if exists|k: int| too_much_at(input.parts, k) {
        Some("Playback asset size overflows"@)
    } else if total_size(input.parts) != input.size_bytes {
        Some("Playback asset part sizes do not match the declared size"@)
    } else {
        None
    }
}

/// The asset that is registered for an accepted proposal.
pub open spec fn accepted_asset(input: AssetView) -> AssetView {
    AssetView {
        size_bytes: input.size_bytes,
        mime_type: "video/mp4"@,
        etag: trimmed(input.etag),
        parts: input.parts,
    }
}

proof fn lemma_total_grows(parts: Seq<PlaybackAssetPart>, i: int, j: int)
    requires
        0 <= i <= j <= parts.len(),
    ensures
        total_size(parts.take(i)) <= total_size(parts.take(j)),
    decreases j,
{
    if i < j {
        lemma_total_grows(parts, i, j - 1);
        assert(parts.take(j).drop_last() == parts.take(j - 1));
    }
}

/// Checks a proposed asset and gives the asset to register, or the reason
/// for which it is refused.
pub fn validate_playback_asset(input: PlaybackAssetInput) -> (r: Result<PlaybackAsset, String>)
    ensures
        match r {
            Ok(asset) => asset_refusal(input@) is None && asset@ == accepted_asset(input@),
            Err(reason) => asset_refusal(input@) == Some(reason@),
        },
{
    if input.size_bytes == 0 {
        return Err("Playback asset must be non-empty".to_owned());
    }
    let mime_chars = chars_of(input.mime_type.as_str());
    let mime = to_ascii_lower(trim_chars(mime_chars.as_slice()));
    if !same_text(mime.as_str(), "video/mp4") {
        return Err("Playback asset must use video/mp4".to_owned());
    }
    let etag_chars = chars_of(input.etag.as_str());
    let etag = trim_chars(etag_chars.as_slice());
    if etag.len() == 0 || input.etag.as_str().as_bytes().len() > 160 {
        return Err("Playback asset ETag is invalid".to_owned());
    }
    if input.parts.len() == 0 {
        return Err("Playback asset has no Telegram parts".to_owned());
    }
    let ghost parts = input.parts@;
    let mut total: u64 = 0;
    let mut i: usize = 0;
    while i < input.parts.len()
        invariant
            i <= input.parts@.len(),
            parts == input.parts@,
            parts == input@.parts,
            input@.size_bytes != 0,
            ascii_lower(trimmed(input@.mime_type)) == "video/mp4"@,
            trimmed(input@.etag).len() != 0,
            byte_len(input@.etag) <= 160,
            parts.len() != 0,
            forall|j: int| 0 <= j < i ==> part_ok(#[trigger] parts[j]),
            total == total_size(parts.take(i as int)),
        decreases input.parts@.len() - i,
    {
        let part = input.parts[i];
        if part.message_id <= 0 || part.size_bytes == 0 {
            assert(bad_part_at(parts, i as int));
            return Err("Playback asset contains an invalid Telegram part".to_owned());
        }
        assert(parts.take(i + 1).drop_last() == parts.take(i as int));
        total = match total.checked_add(part.size_bytes) {
            Some(sum) => sum,
            None => {
                proof {
                    assert(too_much_at(parts, i as int));
                    assert forall|k: int| !bad_part_at(parts, k) by {
                        if bad_part_at(parts, k) {
                            assert(k > i);
                            lemma_total_grows(parts, i + 1, k);
                        }
                    }
                }
                return Err("Playback asset size overflows".to_owned());
            },
        };
        i += 1;
    }
    proof {
        assert(parts.take(i as int) == parts);
        assert forall|k: int| !too_much_at(parts, k) by {
            if too_much_at(parts, k) {
                lemma_total_grows(parts, k + 1, parts.len() as int);
            }
        }
        assert forall|k: int| !bad_part_at(parts, k) by {}
    }
    if total != input.size_bytes {
        return Err("Playback asset part sizes do not match the declared size".to_owned());
    }
    Ok(
        PlaybackAsset {
            size_bytes: input.size_bytes,
            mime_type: "video/mp4".to_owned(),
            etag: text_of(etag),
            parts: input.parts,
        },
    )
}

/// An asset whose parts are in order and hold exactly the bytes it declares.
pub open spec fn sound_asset(asset: AssetView) -> bool {
    &&& asset.size_bytes > 0
    &&& asset.parts.len() > 0
    &&& forall|j: int| 0 <= j < asset.parts.len() ==> part_ok(#[trigger] asset.parts[j])
    &&& total_size(asset.parts) == asset.size_bytes
}

/// Only sound assets are accepted.
pub proof fn law_accepted_assets_are_sound(input: AssetView)
    requires
        asset_refusal(input) is None,
    ensures
        sound_asset(accepted_asset(input)),
{
    let parts = input.parts;
    assert forall|j: int| 0 <= j < parts.len() implies part_ok(#[trigger] parts[j]) by {
        lemma_first_trouble(parts, j + 1);
    }
}

proof fn lemma_first_trouble(parts: Seq<PlaybackAssetPart>, n: int)
    requires
        0 <= n <= parts.len(),
        forall|k: int| !bad_part_at(parts, k),
        forall|k: int| !too_much_at(parts, k),
    ensures
        forall|j: int| 0 <= j < n ==> part_ok(#[trigger] parts[j]),
        total_size(parts.take(n)) <= u64::MAX,
    decreases n,
{
    if n > 0 {
        lemma_first_trouble(parts, n - 1);
        assert(!bad_part_at(parts, n - 1));
        assert(!too_much_at(parts, n - 1));
    }
}

/// An accepted asset that is proposed again is accepted as it is.
pub proof fn law_accepted_assets_stay_accepted(input: AssetView)
    requires
        asset_refusal(input) is None,
    ensures
        asset_refusal(accepted_asset(input)) is None,
        accepted_asset(accepted_asset(input)) == accepted_asset(input),
{
    let mime = "video/mp4"@;
    reveal_strlit("video/mp4");
    lemma_tight_text(mime);
    assert(ascii_lower(mime) =~= mime);
    law_trimming_once_is_enough(input.etag);
    lemma_trimmed_is_inside(input.etag);
    let (i, j) = choose|i: int, j: int|
        0 <= i <= j <= input.etag.len() && trimmed(input.etag) == #[trigger] input.etag.subrange(
            i,
            j,
        );
    lemma_stretch_is_shorter(input.etag, i, j);
}

/// The first and the last byte of a segment of an asset of the given size.
pub open spec fn segment_bounds(size_bytes: nat, segment_index: nat) -> Option<(nat, nat)> {
    let start = segment_index * PLAYBACK_SEGMENT_SIZE as nat;
    if start >= size_bytes {
        None
    } else if start + PLAYBACK_SEGMENT_SIZE <= size_bytes {
        Some((start, (start + PLAYBACK_SEGMENT_SIZE - 1) as nat))
    } else {
        Some((start, (size_bytes - 1) as nat))
    }
}

/// The first and the last byte of a segment, or nothing where the asset has
/// no such segment.
pub fn playback_segment_bounds(size_bytes: u64, segment_index: u64) -> (r: Option<(u64, u64)>)
    ensures
        match r {
            Some((start, end)) => segment_bounds(size_bytes as nat, segment_index as nat) == Some(
                (start as nat, end as nat),
            ),
            None => segment_bounds(size_bytes as nat, segment_index as nat) is None,
        },
{
    let start = match segment_index.checked_mul(PLAYBACK_SEGMENT_SIZE) {
        Some(start) => start,
        None => return None,
    };
    if start >= size_bytes {
        return None;
    }
    let full = start.saturating_add(PLAYBACK_SEGMENT_SIZE - 1);
    let end = if full < size_bytes - 1 {
        full
    } else {
        size_bytes - 1
    };
    Some((start, end))
}

/// How many segments an asset of the given size has.
pub open spec fn segment_count(size_bytes: nat) -> nat {
    (size_bytes + PLAYBACK_SEGMENT_SIZE - 1) as nat / PLAYBACK_SEGMENT_SIZE as nat
}

/// Counts the segments of an asset of the given size.
pub fn count_segments(size_bytes: u64) -> (r: u64)
    ensures
        r == segment_count(size_bytes as nat),
{
    let whole = size_bytes / PLAYBACK_SEGMENT_SIZE;
    if size_bytes % PLAYBACK_SEGMENT_SIZE == 0 {
        whole
    } else {
        whole + 1
    }
}

/// Exactly the indices below the segment count name a segment.
pub proof fn law_segments_are_counted(size_bytes: nat, segment_index: nat)
    ensures
        segment_bounds(size_bytes, segment_index) is Some <==> segment_index < segment_count(
            size_bytes,
        ),
{
}

/// Segments are not empty, none is longer than the segment size, each starts
/// where the one before it ends, the first starts with the first byte, and
/// the last ends with the last byte of the asset.
pub proof fn law_segments_tile_the_asset(size_bytes: nat, segment_index: nat)
    requires
        segment_bounds(size_bytes, segment_index) is Some,
    ensures
        ({
            let (start, end) = segment_bounds(size_bytes, segment_index)->0;
            &&& start <= end < size_bytes
            &&& end - start + 1 <= PLAYBACK_SEGMENT_SIZE
            &&& segment_index == 0 ==> start == 0
            &&& match segment_bounds(size_bytes, segment_index + 1) {
                Some((next, _)) => next == end + 1 && end - start + 1 == PLAYBACK_SEGMENT_SIZE,
                None => end == size_bytes - 1,
            }
        }),
{
}

/// Every byte of an asset lies in exactly one segment.
pub proof fn law_every_byte_has_one_segment(size_bytes: nat, at: nat, segment_index: nat)
    requires
        at < size_bytes,
    ensures
        (match segment_bounds(size_bytes, segment_index) {
            Some((start, end)) => start <= at <= end,
            None => false,
        }) <==> segment_index == at / PLAYBACK_SEGMENT_SIZE as nat,
{
}

/// A single letter or digit of ASCII, a hyphen and an underscore is an asset
/// id, and no other character; ids make an id together, and nothing else
/// does, as long as it has no more than 128 characters.
pub proof fn law_asset_ids_are_made_of_their_characters(c: char, a: Seq<char>, b: Seq<char>)
    ensures
        asset_id(seq![c]) <==> 97 <= c as int <= 122 || 65 <= c as int <= 90 || 48 <= c as int <= 57
            || c as int == 45 || c as int == 95,
        1 <= a.len() && 1 <= b.len() && a.len() + b.len() <= 128 ==> (asset_id(a + b) <==> asset_id(
            a,
        ) && asset_id(b)),
        a.len() == 0 || a.len() > 128 ==> !asset_id(a),
{
    assert(seq![c][0] == c);
    if asset_id_char(c) {
        assert forall|i: int| 0 <= i < seq![c].len() implies asset_id_char(
            #[trigger] seq![c][i],
        ) by {}
    }
    if 1 <= a.len() && 1 <= b.len() && a.len() + b.len() <= 128 {
        if asset_id(a + b) {
            assert forall|i: int| 0 <= i < a.len() implies asset_id_char(#[trigger] a[i]) by {
                assert((a + b)[i] == a[i]);
            }
            assert forall|i: int| 0 <= i < b.len() implies asset_id_char(#[trigger] b[i]) by {
                assert((a + b)[a.len() + i] == b[i]);
            }
        }
    }
}

/// Parts hold together what each of them holds.
pub proof fn law_sizes_add_up(
    a: Seq<PlaybackAssetPart>,
    b: Seq<PlaybackAssetPart>,
    part: PlaybackAssetPart,
)
    ensures
        total_size(Seq::empty()) == 0,
        total_size(seq![part]) == part.size_bytes,
        total_size(a + b) == total_size(a) + total_size(b),
    decreases b.len(),
{
    assert(seq![part].drop_last() == Seq::<PlaybackAssetPart>::empty());
    assert(total_size(seq![part].drop_last()) == 0);
    if b.len() == 0 {
        assert(a + b == a);
    } else {
        law_sizes_add_up(a, b.drop_last(), part);
        assert((a + b).drop_last() == a + b.drop_last());
        assert((a + b).last() == b.last());
    }
}

/// A proposal is accepted whenever it is for one or more parts that each name
/// a message and hold something, whose sizes add up to the declared one, as a
/// video in MP4, under a tag that is not blank and has no more than 160
/// bytes. The asset then has the declared size and those parts, and its tag
/// has lost only the white space around it.
pub proof fn law_sound_proposals_are_accepted(input: AssetView)
    requires
        ascii_lower(trimmed(input.mime_type)) == "video/mp4"@,
        trimmed(input.etag).len() > 0,
        vstd::utf8::encode_utf8(input.etag).len() <= 160,
        input.parts.len() > 0,
        forall|i: int|
            0 <= i < input.parts.len() ==> (#[trigger] input.parts[i]).message_id > 0
                && input.parts[i].size_bytes > 0,
        total_size(input.parts) == input.size_bytes,
    ensures
        asset_refusal(input) is None,
        accepted_asset(input).size_bytes == input.size_bytes,
        accepted_asset(input).parts == input.parts,
        accepted_asset(input).mime_type == "video/mp4"@,
        accepted_asset(input).etag == trimmed(input.etag),
{
    let parts = input.parts;
    assert(parts.take(parts.len() as int) == parts);
    assert forall|k: int| !bad_part_at(parts, k) by {
        if 0 <= k < parts.len() {
            assert(parts[k].message_id > 0);
        }
    }
    assert forall|k: int| !too_much_at(parts, k) by {
        if too_much_at(parts, k) {
            lemma_total_grows(parts, k + 1, parts.len() as int);
        }
    }
    let last = parts[parts.len() - 1];
    assert(last.size_bytes > 0);
}

/// A proposal that is not for a sound asset is refused, with the first reason
/// that there is: its size, its type, its tag, its want of parts, the first
/// part that is not in order or is too much, or the sum.
pub proof fn law_unsound_proposals_are_refused(input: AssetView, at: int)
    ensures
        input.size_bytes == 0 ==> asset_refusal(input) == Some("Playback asset must be non-empty"@),
        input.size_bytes > 0 ==> {
            &&& ascii_lower(trimmed(input.mime_type)) != "video/mp4"@ ==> asset_refusal(input) == Some(
                "Playback asset must use video/mp4"@,
            )
            &&& ascii_lower(trimmed(input.mime_type)) == "video/mp4"@ ==> {
                &&& trimmed(input.etag).len() == 0 || vstd::utf8::encode_utf8(input.etag).len() > 160
                    ==> asset_refusal(input) == Some("Playback asset ETag is invalid"@)
                &&& trimmed(input.etag).len() > 0 && vstd::utf8::encode_utf8(input.etag).len() <= 160
                    ==> {
                    &&& input.parts.len() == 0 ==> asset_refusal(input) == Some(
                        "Playback asset has no Telegram parts"@,
                    )
                    &&& 0 <= at < input.parts.len() && (forall|j: int|
                        0 <= j < at ==> (#[trigger] input.parts[j]).message_id > 0
                            && input.parts[j].size_bytes > 0) && total_size(input.parts.take(at))
                        <= u64::MAX ==> {
                        let part = input.parts[at];
                        let sum = total_size(input.parts.take(at)) + part.size_bytes;
                        &&& part.message_id <= 0 || part.size_bytes == 0 ==> asset_refusal(input)
                            == Some("Playback asset contains an invalid Telegram part"@)
                        &&& part.message_id > 0 && part.size_bytes > 0 && sum > u64::MAX
                            ==> asset_refusal(input) == Some("Playback asset size overflows"@)
                        &&& part.message_id > 0 && part.size_bytes > 0 && sum <= u64::MAX && at + 1
                            == input.parts.len() && sum != input.size_bytes ==> asset_refusal(input)
                            == Some("Playback asset part sizes do not match the declared size"@)
                    }
                }
            }
        },
{
    let parts = input.parts;
    if 0 <= at < parts.len() && (forall|j: int|
        0 <= j < at ==> (#[trigger] parts[j]).message_id > 0 && parts[j].size_bytes > 0)
        && total_size(parts.take(at)) <= u64::MAX {
        assert(parts.take(at + 1).drop_last() == parts.take(at));
        assert(parts.take(at + 1).last() == parts[at]);
        assert forall|j: int| 0 <= j < at implies part_ok(#[trigger] parts[j]) by {}
        if !part_ok(parts[at]) {
            assert(bad_part_at(parts, at));
        } else {
            assert forall|j: int| 0 <= j <= at implies part_ok(#[trigger] parts[j]) by {}
            if total_size(parts.take(at + 1)) > u64::MAX {
                assert(too_much_at(parts, at));
                assert forall|k: int| !bad_part_at(parts, k) by {
                    if bad_part_at(parts, k) {
                        assert(k > at);
                        lemma_total_grows(parts, at + 1, k);
                    }
                }
            } else if at + 1 == parts.len() {
                assert(parts.take(at + 1) == parts);
                assert forall|k: int| !bad_part_at(parts, k) by {}
                assert forall|k: int| !too_much_at(parts, k) by {
                    if too_much_at(parts, k) {
                        lemma_total_grows(parts, k + 1, parts.len() as int);
                    }
                }
            }
        }
    }
}

/// Segment `i` starts `i` times 64 MiB behind the front of the asset, and
/// has 64 MiB, or what is left of the asset; there is one wherever a byte of
/// the asset lies there.
pub proof fn law_segments_have_64_mebibytes(size_bytes: nat, segment_index: nat)
    ensures
        segment_bounds(size_bytes, segment_index) is Some <==> segment_index * 67_108_864
            < size_bytes,
        segment_bounds(size_bytes, segment_index) matches Some((start, end)) ==> {
            &&& start == segment_index * 67_108_864
            &&& start + 67_108_864 <= size_bytes ==> end == start + 67_108_864 - 1
            &&& start + 67_108_864 > size_bytes ==> end == size_bytes - 1
        },
{
}

/// An asset is seen as it is held, and so is a proposal.
pub proof fn law_assets_are_seen_as_they_are(asset: PlaybackAsset, input: PlaybackAssetInput)
    ensures
        asset@.size_bytes == asset.size_bytes,
        asset@.mime_type == asset.mime_type@,
        asset@.etag == asset.etag@,
        asset@.parts == asset.parts@,
        input@.size_bytes == input.size_bytes,
        input@.mime_type == input.mime_type@,
        input@.etag == input.etag@,
        input@.parts == input.parts@,
{
}

} // verus!
