//! Stored files: how a Telegram message appears as one, and how requests to
//! list, show, download and delete files are answered.

use vstd::prelude::*;
use vstd::string::*;

use crate::auth::{invalid_api_key, require_auth};
use crate::names::{safe_name, sanitise_upload_filename};
use crate::number::{decimal, decimal_u64};
use crate::range::{byte_range, parse_range_header};
use crate::reply::{error, json_error, ErrorReply, ErrorView, HeadView, ResponseHead};
use crate::request::{field_text, presented, read_field, RequestHead};
use crate::segment::{not_satisfiable, unsatisfiable_head};
use crate::stream::{
    aligned, chunk_index, law_download_hands_on_the_stretch,
    law_downloads_start_close_before_the_stretch, law_short_download_hands_on_the_front,
    law_window_is_a_stretch_of_the_stream, plan_download, window_run, DownloadPlan, WindowView,
    DOWNLOAD_CHUNK_SIZE,
};
use crate::text::join3;

verus! {

/// What a message carries.
#[derive(Debug)]
pub enum StoredMedia {
    /// A document, with its size as Telegram states it.
    Document { name: String, mime_type: Option<String>, size: i64 },
    /// A photo, with the size of its largest form.
    Photo { size: i64 },
    /// Anything else.
    Other,
}

/// A message that was found in a chat.
#[derive(Debug)]
pub struct StoredMessage {
    pub id: i32,
    pub date: String,
    pub media: Option<StoredMedia>,
}

/// A stored file as clients see it.
#[derive(Debug)]
pub struct ApiFile {
    pub id: i64,
    pub folder_id: Option<i64>,
    pub name: String,
    pub size: u64,
    pub mime_type: Option<String>,
    pub created_at: String,
}

/// A stored file as plain values.
pub struct FileView {
    pub id: i64,
    pub folder_id: Option<i64>,
    pub name: Seq<char>,
    pub size: u64,
    pub mime_type: Option<Seq<char>>,
    pub created_at: Seq<char>,
}

/// A text that may be missing, as plain values.
pub open spec fn text_view(text: Option<String>) -> Option<Seq<char>> {
    match text {
        Some(t) => Some(t@),
        None => None,
    }
}

fn clone_text(text: &Option<String>) -> (r: Option<String>)
    ensures
        text_view(r) == text_view(*text),
{
    match text {
        Some(t) => Some(t.clone()),
        None => None,
    }
}

impl View for ApiFile {
    type V = FileView;

    open spec fn view(&self) -> FileView {
        FileView {
            id: self.id,
            folder_id: self.folder_id,
            name: self.name@,
            size: self.size,
            mime_type: text_view(self.mime_type),
            created_at: self.created_at@,
        }
    }
}

impl Clone for ApiFile {
    fn clone(&self) -> (r: Self)
        ensures
            r@ == self@,
    {
        ApiFile {
            id: self.id,
            folder_id: self.folder_id,
            name: self.name.clone(),
            size: self.size,
            mime_type: clone_text(&self.mime_type),
            created_at: self.created_at.clone(),
        }
    }
}

/// The size of a document or photo; nothing else has one, and neither has
/// what states one below zero.
pub open spec fn size_of_media(media: StoredMedia) -> u64 {
    let raw = match media {
        StoredMedia::Document { size, .. } => size,
        StoredMedia::Photo { size } => size,
        StoredMedia::Other => 0,
    };
    if raw < 0 {
        0
    } else {
        raw as u64
    }
}

/// The size of what a message carries.
pub fn media_size(media: &StoredMedia) -> (r: u64)
    ensures
        r == size_of_media(*media),
{
    let raw: i64 = match media {
        StoredMedia::Document { size, .. } => *size,
        StoredMedia::Photo { size } => *size,
        StoredMedia::Other => 0,
    };
    if raw < 0 {
        0
    } else {
        raw as u64
    }
}

/// The name that a file is listed under.
pub open spec fn listed_name(media: StoredMedia) -> Seq<char> {
    match media {
        StoredMedia::Document { name, .. } => name@,
        StoredMedia::Photo { .. } => "Photo.jpg"@,
        StoredMedia::Other => "Unknown"@,
    }
}

/// The type that a file is listed with.
pub open spec fn listed_type(media: StoredMedia) -> Option<Seq<char>> {
    match media {
        StoredMedia::Document { mime_type, .. } => text_view(mime_type),
        StoredMedia::Photo { .. } => Some("image/jpeg"@),
        StoredMedia::Other => None,
    }
}

/// The file that a message in a folder appears as, if it carries anything.
pub open spec fn file_of(message: StoredMessage, folder_id: Option<i64>) -> Option<FileView> {
    match message.media {
        Some(media) => Some(
            FileView {
                id: message.id as i64,
                folder_id,
                name: listed_name(media),
                size: size_of_media(media),
                mime_type: listed_type(media),
                created_at: message.date@,
            },
        ),
        None => None,
    }
}

/// The file that a message appears as.
pub fn api_file_from_message(message: &StoredMessage, folder_id: Option<i64>) -> (r: Option<
    ApiFile,
>)
    ensures
        match r {
            Some(file) => file_of(*message, folder_id) == Some(file@),
            None => file_of(*message, folder_id) is None,
        },
{
    let media = match &message.media {
        Some(media) => media,
        None => return None,
    };
    let (name, mime_type) = match media {
        StoredMedia::Document { name, mime_type, .. } => (name.clone(), clone_text(mime_type)),
        StoredMedia::Photo { .. } => ("Photo.jpg".to_owned(), Some("image/jpeg".to_owned())),
        StoredMedia::Other => ("Unknown".to_owned(), None),
    };
    Some(
        ApiFile {
            id: message.id as i64,
            folder_id,
            name,
            size: media_size(media),
            mime_type,
            created_at: message.date.clone(),
        },
    )
}

/// The files of a folder, as a client sees them: under two names, with their
/// number.
#[derive(Debug)]
pub struct FilesResponse {
    pub data: Vec<ApiFile>,
    pub files: Vec<ApiFile>,
    pub total: usize,
}

/// A row of files as plain values.
pub open spec fn files_view(files: Seq<ApiFile>) -> Seq<FileView> {
    Seq::new(files.len(), |i: int| files[i]@)
}

/// The files among the given messages, in order.
pub open spec fn files_among(messages: Seq<StoredMessage>, folder_id: Option<i64>) -> Seq<FileView>
    decreases messages.len(),
{
    if messages.len() == 0 {
        Seq::empty()
    } else {
        let before = files_among(messages.drop_last(), folder_id);
        match file_of(messages.last(), folder_id) {
            Some(file) => before.push(file),
            None => before,
        }
    }
}

/// How many messages a listing looks at: 20 unless the client says otherwise,
/// at least 1 and at most 100.
pub open spec fn listing_limit(limit: Option<usize>) -> usize {
    match limit {
        None => 20,
        Some(n) => if n < 1 {
            1
        } else if n > 100 {
            100
        } else {
            n
        },
    }
}

/// Why a request for a listing is refused before its chat is looked for.
pub open spec fn listing_refusal(req: RequestHead, api_key: Seq<char>) -> Option<ErrorView> {
    if presented(req.api_key) != api_key {
        Some(invalid_api_key())
    } else {
        None
    }
}

/// Starts a listing: refuses a client without the key, and says how many
/// messages to look at.
pub fn begin_listing(req: &RequestHead, api_key: &str, limit: Option<usize>) -> (r: Result<
    usize,
    ErrorReply,
>)
    ensures
        match r {
            Ok(n) => listing_refusal(*req, api_key@) is None && n == listing_limit(limit),
            Err(e) => listing_refusal(*req, api_key@) == Some(e@),
        },
{
    match require_auth(req, api_key) {
        Ok(_) => {},
        Err(e) => return Err(e),
    }
    let n = match limit {
        None => 20,
        Some(n) => if n < 1 {
            1
        } else if n > 100 {
            100
        } else {
            n
        },
    };
    Ok(n)
}

/// Ends a listing with the messages that were found.
pub fn list_files(messages: &Vec<StoredMessage>, folder_id: Option<i64>) -> (r: FilesResponse)
    ensures
        files_view(r.data@) == files_among(messages@, folder_id),
        files_view(r.files@) == files_among(messages@, folder_id),
        r.total == files_among(messages@, folder_id).len(),
{
    let mut data: Vec<ApiFile> = Vec::new();
    let mut files: Vec<ApiFile> = Vec::new();
    let mut i: usize = 0;
    assert(messages@.take(0).len() == 0);
    assert(files_view(data@) == Seq::<FileView>::empty());
    while i < messages.len()
        invariant
            i <= messages@.len(),
            files_view(data@) == files_among(messages@.take(i as int), folder_id),
            files_view(files@) == files_among(messages@.take(i as int), folder_id),
        decreases messages@.len() - i,
    {
        let ghost before = data@;
        let ghost before2 = files@;
        assert(messages@.take(i + 1).drop_last() == messages@.take(i as int));
        match api_file_from_message(&messages[i], folder_id) {
            Some(file) => {
                files.push(file.clone());
                data.push(file);
                assert(files_view(data@) == files_view(before).push(file@));
                assert(files_view(files@) == files_view(before2).push(file@));
            },
            None => {},
        }
        i += 1;
    }
    assert(messages@.take(i as int) == messages@);
    let total = data.len();
    assert(files_view(data@).len() == data@.len());
    FilesResponse { data, files, total }
}

/// A listing shows no more files than it looked at messages.
pub proof fn law_listing_is_no_longer_than_its_messages(
    messages: Seq<StoredMessage>,
    folder_id: Option<i64>,
)
    ensures
        files_among(messages, folder_id).len() <= messages.len(),
    decreases messages.len(),
{
    if messages.len() > 0 {
        law_listing_is_no_longer_than_its_messages(messages.drop_last(), folder_id);
    }
}

/// The answer to a request for a chat that cannot be found.
pub open spec fn peer_error(message: Seq<char>) -> ErrorView {
    error("PEER_ERROR"@, message, 400)
}

/// Answers a request for a chat that cannot be found.
pub fn peer_refusal(message: String) -> (r: ErrorReply)
    ensures
        r@ == peer_error(message@),
{
    json_error("PEER_ERROR", message, 400)
}

/// The number of the message that a request names, if it can be one.
pub open spec fn message_id_of(raw: i64) -> Option<i32> {
    if 0 < raw <= i32::MAX {
        Some(raw as i32)
    } else {
        None
    }
}

/// The answer to a request that names no message.
pub open spec fn invalid_message_id() -> ErrorView {
    error("INVALID_MESSAGE_ID"@, "Invalid message id"@, 400)
}

fn checked_message_id(raw: i64) -> (r: Result<i32, ErrorReply>)
    ensures
        match r {
            Ok(id) => message_id_of(raw) == Some(id),
            Err(e) => message_id_of(raw) is None && e@ == invalid_message_id(),
        },
{
    if 0 < raw && raw <= 0x7fff_ffff {
        Ok(raw as i32)
    } else {
        Err(json_error("INVALID_MESSAGE_ID", "Invalid message id".to_owned(), 400))
    }
}

/// What a client wants done with one file.
#[derive(Clone, Copy, Debug, PartialEq, Eq)]
pub enum FileOp {
    Show,
    Download,
    Delete,
}

/// Why a request for one file is refused before its chat is looked for. (A
/// request to show a file has its number looked at only behind that.)
pub open spec fn early_refusal(
    op: FileOp,
    req: RequestHead,
    api_key: Seq<char>,
    raw_id: i64,
) -> Option<ErrorView> {
    if presented(req.api_key) != api_key {
        Some(invalid_api_key())
    } else if op != FileOp::Show && message_id_of(raw_id) is None {
        Some(invalid_message_id())
    } else {
        None
    }
}

/// Starts a request for one file: refuses it, or lets its chat be looked for.
pub fn begin_file_request(op: FileOp, req: &RequestHead, api_key: &str, raw_id: i64) -> (r: Result<
    (),
    ErrorReply,
>)
    ensures
        match r {
            Ok(_) => early_refusal(op, *req, api_key@, raw_id) is None,
            Err(e) => early_refusal(op, *req, api_key@, raw_id) == Some(e@),
        },
{
    match require_auth(req, api_key) {
        Ok(_) => {},
        Err(e) => return Err(e),
    }
    match op {
        FileOp::Show => Ok(()),
        FileOp::Download | FileOp::Delete => match checked_message_id(raw_id) {
            Ok(_) => Ok(()),
            Err(e) => Err(e),
        },
    }
}

/// Goes on with a request for one file when its chat has been looked for:
/// refuses it, or gives the chat and the number of the message.
pub fn file_request_peer<P>(peer: Result<P, String>, raw_id: i64) -> (r: Result<
    (P, i32),
    ErrorReply,
>)
    ensures
        match (peer, r) {
            (Err(message), Err(e)) => e@ == peer_error(message@),
            (Err(_), Ok(_)) => false,
            (Ok(chat), Ok((c, id))) => c == chat && message_id_of(raw_id) == Some(id),
            (Ok(_), Err(e)) => message_id_of(raw_id) is None && e@ == invalid_message_id(),
        },
{
    match peer {
        Err(message) => Err(peer_refusal(message)),
        Ok(chat) => match checked_message_id(raw_id) {
            Ok(id) => Ok((chat, id)),
            Err(e) => Err(e),
        },
    }
}

/// What came of the search for a message.
#[derive(Debug)]
pub enum MessageLookup {
    /// It could not be asked for.
    Failed(String),
    /// There is no such message.
    Missing,
    /// It was found.
    Found(StoredMessage),
}

/// The answer where the message could not be asked for.
pub open spec fn fetch_error(message: Seq<char>) -> ErrorView {
    error("FETCH_ERROR"@, message, 502)
}

/// The answer where there is no such file.
pub open spec fn file_not_found() -> ErrorView {
    error("NOT_FOUND"@, "File not found"@, 404)
}

/// Ends a request to show a file.
pub fn get_file(lookup: MessageLookup, folder_id: Option<i64>) -> (r: Result<ApiFile, ErrorReply>)
    ensures
        match (lookup, r) {
            (MessageLookup::Failed(message), Err(e)) => e@ == fetch_error(message@),
            (MessageLookup::Missing, Err(e)) => e@ == file_not_found(),
            (MessageLookup::Found(m), Err(e)) => file_of(m, folder_id) is None && e@
                == file_not_found(),
            (MessageLookup::Found(m), Ok(file)) => file_of(m, folder_id) == Some(file@),
            _ => false,
        },
{
    match lookup {
        MessageLookup::Failed(message) => Err(json_error("FETCH_ERROR", message, 502)),
        MessageLookup::Missing => Err(
            json_error("NOT_FOUND", "File not found".to_owned(), 404),
        ),
        MessageLookup::Found(message) => match api_file_from_message(&message, folder_id) {
            Some(file) => Ok(file),
            None => Err(json_error("NOT_FOUND", "File not found".to_owned(), 404)),
        },
    }
}

/// Ends a request to delete a file.
pub fn delete_file(deleted: Result<(), String>) -> (r: Result<(), ErrorReply>)
    ensures
        match (deleted, r) {
            (Ok(_), Ok(_)) => true,
            (Err(message), Err(e)) => e@ == error("DELETE_FAILED"@, message@, 502),
            _ => false,
        },
{
    match deleted {
        Ok(_) => Ok(()),
        Err(message) => Err(json_error("DELETE_FAILED", message, 502)),
    }
}

/// How a request for the bytes of a file is answered.
pub enum MediaReply {
    Refused(ErrorReply),
    /// None of the bytes that are asked for is there.
    NotSatisfiable(ResponseHead),
    /// The bytes are streamed.
    Stream(ResponseHead, DownloadPlan),
}

/// The bytes that a request asks for: all where it has no range header.
pub open spec fn asked_range(range: Option<Vec<u8>>, size: u64) -> Option<(u64, u64)> {
    match range {
        None => Some((0, (size - 1) as u64)),
        Some(_) => match field_text(range) {
            Some(text) => byte_range(text, size),
            None => None,
        },
    }
}

/// The head of a response that streams the bytes from `start` to `end`.
pub open spec fn media_head(
    partial: bool,
    start: u64,
    end: u64,
    size: u64,
    mime: Seq<char>,
    filename: Seq<char>,
) -> HeadView {
    let rest = seq![
        ("Content-Type"@, mime),
        ("Accept-Ranges"@, "bytes"@),
        ("Content-Length"@, decimal((end - start + 1) as nat)),
        ("Content-Disposition"@, "inline; filename=\""@ + safe_name(filename) + "\""@),
    ];
    if partial {
        HeadView {
            status: 206,
            headers: seq![
                (
                    "Content-Range"@,
                    "bytes "@ + decimal(start as nat) + "-"@ + decimal(end as nat) + "/"@ + decimal(
                        size as nat,
                    ),
                ),
            ] + rest,
        }
    } else {
        HeadView { status: 200, headers: rest }
    }
}

/// The answer to a request for the bytes of an empty file.
pub open spec fn empty_media() -> ErrorView {
    error("EMPTY_MEDIA"@, "Telegram media is empty"@, 422)
}

/// Answers a request for the bytes of a file.
pub fn build_media_response(
    media: &StoredMedia,
    req: &RequestHead,
    mime: &str,
    filename: &str,
) -> (r: MediaReply)
    ensures
        ({
            let size = size_of_media(*media);
            match (r, asked_range(req.range, size)) {
                (MediaReply::Refused(e), _) => size == 0 && e@ == empty_media(),
                (MediaReply::NotSatisfiable(head), None) => size != 0 && head@
                    == unsatisfiable_head(size),
                (MediaReply::Stream(head, plan), Some((start, end))) => {
                    &&& size != 0
                    &&& head@ == media_head(
                        req.range is Some,
                        start,
                        end,
                        size,
                        mime@,
                        filename@,
                    )
                    &&& plan.skip_chunks == (if chunk_index(start) > 0 {
                        chunk_index(start)
                    } else {
                        0
                    })
                    &&& plan.window@ == (WindowView {
                        skip_left: (start - aligned(start as nat)) as nat,
                        left: (end - start + 1) as nat,
                    })
                },
                _ => false,
            }
        }),
{
    let size = media_size(media);
    if size == 0 {
        return MediaReply::Refused(
            json_error("EMPTY_MEDIA", "Telegram media is empty".to_owned(), 422),
        );
    }
    let asked = match &req.range {
        None => Some((0, size - 1)),
        Some(_) => match read_field(&req.range) {
            Some(text) => parse_range_header(text.as_str(), size),
            None => None,
        },
    };
    let (start, end) = match asked {
        Some(range) => range,
        None => return MediaReply::NotSatisfiable(not_satisfiable(size)),
    };
    let content_length = end - start + 1;
    let plan = plan_download(start, content_length);
    let partial = req.range.is_some();
    let mut head = ResponseHead::new(
        if partial {
            206
        } else {
            200
        },
    );
    if partial {
        let mut text = join3("bytes ", decimal_u64(start).as_str(), "-");
        text.append(decimal_u64(end).as_str());
        text.append("/");
        text.append(decimal_u64(size).as_str());
        head.add("Content-Range", text);
    }
    head.add("Content-Type", mime.to_owned());
    head.add("Accept-Ranges", "bytes".to_owned());
    head.add("Content-Length", decimal_u64(content_length));
    head.add(
        "Content-Disposition",
        join3("inline; filename=\"", sanitise_upload_filename(filename).as_str(), "\""),
    );
    assert(head@.headers == media_head(partial, start, end, size, mime@, filename@).headers);
    MediaReply::Stream(head, plan)
}

/// The type that a file is downloaded with.
pub open spec fn download_type(media: StoredMedia) -> Seq<char> {
    match listed_type(media) {
        Some(t) => t,
        None => "application/octet-stream"@,
    }
}

/// The name that a file is downloaded under.
pub open spec fn download_name(media: StoredMedia) -> Seq<char> {
    match media {
        StoredMedia::Other => "download"@,
        _ => listed_name(media),
    }
}

/// What there is to download behind a message, or why there is nothing.
fn download_source(lookup: &MessageLookup) -> (r: Result<(&StoredMedia, String, String), ErrorReply>)
    ensures
        match (*lookup, r) {
            (MessageLookup::Failed(message), Err(e)) => e@ == fetch_error(message@),
            (MessageLookup::Missing, Err(e)) => e@ == file_not_found(),
            (MessageLookup::Found(m), Err(e)) => m.media is None && e@ == error(
                "NOT_FOUND"@,
                "Message has no media"@,
                404,
            ),
            (MessageLookup::Found(m), Ok((media, mime, filename))) => {
                &&& m.media == Some(*media)
                &&& mime@ == download_type(*media)
                &&& filename@ == download_name(*media)
            },
            _ => false,
        },
{
    let message = match lookup {
        MessageLookup::Failed(message) => {
            return Err(json_error("FETCH_ERROR", message.clone(), 502));
        },
        MessageLookup::Missing => {
            return Err(json_error("NOT_FOUND", "File not found".to_owned(), 404));
        },
        MessageLookup::Found(message) => message,
    };
    let media = match &message.media {
        Some(media) => media,
        None => {
            return Err(json_error("NOT_FOUND", "Message has no media".to_owned(), 404));
        },
    };
    let (mime, filename) = match media {
        StoredMedia::Document { name, mime_type, .. } => (
            match mime_type {
                Some(mime) => mime.clone(),
                None => "application/octet-stream".to_owned(),
            },
            name.clone(),
        ),
        StoredMedia::Photo { .. } => ("image/jpeg".to_owned(), "Photo.jpg".to_owned()),
        StoredMedia::Other => ("application/octet-stream".to_owned(), "download".to_owned()),
    };
    Ok((media, mime, filename))
}

/// Ends a request to download a file.
pub fn download_file(lookup: &MessageLookup, req: &RequestHead) -> (r: MediaReply)
    ensures
        match (*lookup, r) {
            (MessageLookup::Failed(message), MediaReply::Refused(e)) => e@ == fetch_error(
                message@,
            ),
            (MessageLookup::Missing, MediaReply::Refused(e)) => e@ == file_not_found(),
            (MessageLookup::Found(m), _) => match (m.media, r) {
                (None, MediaReply::Refused(e)) => e@ == error(
                    "NOT_FOUND"@,
                    "Message has no media"@,
                    404,
                ),
                (None, _) => false,
                (Some(media), MediaReply::Refused(e)) => size_of_media(media) == 0 && e@
                    == empty_media(),
                (Some(media), MediaReply::NotSatisfiable(head)) => {
                    &&& size_of_media(media) != 0
                    &&& asked_range(req.range, size_of_media(media)) is None
                    &&& head@ == unsatisfiable_head(size_of_media(media))
                },
                (Some(media), MediaReply::Stream(head, plan)) => {
                    let size = size_of_media(media);
                    &&& size != 0
                    &&& asked_range(req.range, size) matches Some((start, end))
                    &&& head@ == media_head(
                        req.range is Some,
                        start,
                        end,
                        size,
                        download_type(media),
                        download_name(media),
                    )
                    &&& plan.skip_chunks == (if chunk_index(start) > 0 {
                        chunk_index(start)
                    } else {
                        0
                    })
                    &&& plan.window@ == (WindowView {
                        skip_left: (start - aligned(start as nat)) as nat,
                        left: (end - start + 1) as nat,
                    })
                },
            },
            _ => false,
        },
{
    match download_source(lookup) {
        Ok((media, mime, filename)) => build_media_response(
            media,
            req,
            mime.as_str(),
            filename.as_str(),
        ),
        Err(e) => MediaReply::Refused(e),
    }
}

/// The body of a download that breaks off is the front of the range that was
/// asked for, as far as the download reached. (From byte 2^47 on the chunks
/// cannot be counted in 32 bits.)
pub proof fn law_short_download_body_begins_the_asked_range(
    range: Option<Vec<u8>>,
    content: Seq<u8>,
    chunks: Seq<Seq<u8>>,
)
    requires
        0 < content.len() <= u64::MAX,
        asked_range(range, content.len() as u64) matches Some((start, end)) && {
            let first = DOWNLOAD_CHUNK_SIZE * chunk_index(start);
            &&& start < 0x8000_0000_0000
            &&& first + chunks.flatten().len() <= content.len()
            &&& chunks.flatten() == content.subrange(first, first + chunks.flatten().len())
        },
    ensures
        asked_range(range, content.len() as u64) matches Some((start, end)) && {
            let window = WindowView {
                skip_left: (start - aligned(start as nat)) as nat,
                left: (end - start + 1) as nat,
            };
            let body = window_run(window, chunks);
            &&& start <= end < content.len()
            &&& body.len() <= end - start + 1
            &&& body == content.subrange(start as int, end + 1).take(body.len() as int)
        },
{
    let bounds = asked_range(range, content.len() as u64)->0;
    let (start, end) = bounds;
    law_short_download_hands_on_the_front(content, start, (end - start + 1) as u64, chunks);
}

/// The body of a download is the range that was asked for, whole, however it
/// is parted into chunks. (From byte 2^47 on the chunks cannot be counted in
/// 32 bits.)
pub proof fn law_download_body_is_the_asked_range(
    range: Option<Vec<u8>>,
    content: Seq<u8>,
    chunks: Seq<Seq<u8>>,
)
    requires
        0 < content.len() <= u64::MAX,
        asked_range(range, content.len() as u64) matches Some((start, end)) && {
            let first = DOWNLOAD_CHUNK_SIZE * chunk_index(start);
            &&& start < 0x8000_0000_0000
            &&& end < first + chunks.flatten().len() <= content.len()
            &&& chunks.flatten() == content.subrange(first, first + chunks.flatten().len())
        },
    ensures
        asked_range(range, content.len() as u64) matches Some((start, end)) && {
            let window = WindowView {
                skip_left: (start - aligned(start as nat)) as nat,
                left: (end - start + 1) as nat,
            };
            &&& start <= end < content.len()
            &&& window_run(window, chunks) == content.subrange(start as int, end + 1)
        },
{
    let bounds = asked_range(range, content.len() as u64)->0;
    let (start, end) = bounds;
    law_download_hands_on_the_stretch(content, start, (end - start + 1) as u64, chunks);
}

/// A message without media is no file. One with media is the file with the
/// number and the date of the message, in the folder that it was looked for
/// in. A document has the name, the type and the size that Telegram states; a
/// photo and anything else have names of their own. A size below zero counts
/// as none.
pub proof fn law_messages_are_seen_as_files(message: StoredMessage, folder_id: Option<i64>)
    ensures
        message.media is None ==> file_of(message, folder_id) is None,
        message.media matches Some(media) ==> (file_of(message, folder_id) matches Some(file) && {
            &&& file.id == message.id
            &&& file.folder_id == folder_id
            &&& file.created_at == message.date@
            &&& media matches StoredMedia::Document { name, mime_type, size } ==> {
                &&& file.name == name@
                &&& mime_type is None ==> file.mime_type is None
                &&& mime_type matches Some(t) ==> file.mime_type == Some(t@)
                &&& size >= 0 ==> file.size == size
                &&& size < 0 ==> file.size == 0
            }
            &&& media matches StoredMedia::Photo { size } ==> {
                &&& file.name == "Photo.jpg"@
                &&& file.mime_type == Some("image/jpeg"@)
                &&& size >= 0 ==> file.size == size
                &&& size < 0 ==> file.size == 0
            }
            &&& media is Other ==> file.name == "Unknown"@ && file.mime_type is None && file.size
                == 0
            &&& file.size == size_of_media(media)
        }),
{
}

/// A file is seen as it is held, and so is a row of files.
pub proof fn law_files_are_seen_as_they_are(file: ApiFile, files: Seq<ApiFile>)
    ensures
        file@.id == file.id,
        file@.folder_id == file.folder_id,
        file@.name == file.name@,
        file@.size == file.size,
        file.mime_type is None ==> file@.mime_type is None,
        file.mime_type matches Some(t) ==> file@.mime_type == Some(t@),
        file@.created_at == file.created_at@,
        files_view(files).len() == files.len(),
        forall|i: int| 0 <= i < files.len() ==> #[trigger] files_view(files)[i] == files[i]@,
{
}

/// A listing of two rows of messages is the listing of the first and then
/// that of the second; that of a single message is the file that it is seen
/// as, if it is one.
pub proof fn law_listings_go_message_by_message(
    a: Seq<StoredMessage>,
    b: Seq<StoredMessage>,
    message: StoredMessage,
    folder_id: Option<i64>,
)
    ensures
        files_among(a + b, folder_id) == files_among(a, folder_id) + files_among(b, folder_id),
        file_of(message, folder_id) is None ==> files_among(seq![message], folder_id).len() == 0,
        file_of(message, folder_id) matches Some(file) ==> files_among(seq![message], folder_id)
            == seq![file],
    decreases b.len(),
{
    assert(seq![message].drop_last() == Seq::<StoredMessage>::empty());
    assert(files_among(seq![message].drop_last(), folder_id) == Seq::<FileView>::empty());
    if b.len() == 0 {
        assert(a + b == a);
        assert(files_among(a, folder_id) + files_among(b, folder_id) =~= files_among(
            a,
            folder_id,
        ));
    } else {
        law_listings_go_message_by_message(a, b.drop_last(), message, folder_id);
        assert((a + b).drop_last() == a + b.drop_last());
        assert((a + b).last() == b.last());
        assert(files_among(a + b, folder_id) =~= files_among(a, folder_id) + files_among(
            b,
            folder_id,
        ));
    }
}

/// A listing looks at as many messages as the client says, from 1 to 100, at
/// the nearer of these where it says less or more, and at 20 where it does
/// not say.
pub proof fn law_listings_look_at_what_is_asked_for(n: usize)
    ensures
        1 <= n <= 100 ==> listing_limit(Some(n)) == n,
        n < 1 ==> listing_limit(Some(n)) == 1,
        n > 100 ==> listing_limit(Some(n)) == 100,
        listing_limit(None) == 20,
{
}

/// Every number above zero that a message can have names that message, and no
/// other number names one.
pub proof fn law_messages_are_named_by_their_number(raw: i64, id: i32)
    ensures
        message_id_of(raw) == Some(id) <==> id > 0 && id as int == raw as int,
        raw <= 0 || raw > 0x7fff_ffff ==> message_id_of(raw) is None,
        0 < raw <= 0x7fff_ffff ==> message_id_of(raw) is Some,
{
}

/// A client with the key is let through to every message that it names; only
/// where it names none, and wants to download or delete it, it is told so at
/// once.
pub proof fn law_requests_for_files_are_refused_for_cause(
    op: FileOp,
    req: RequestHead,
    api_key: Seq<char>,
    raw_id: i64,
)
    requires
        presented(req.api_key) == api_key,
    ensures
        0 < raw_id <= 0x7fff_ffff ==> early_refusal(op, req, api_key, raw_id) is None,
        early_refusal(FileOp::Show, req, api_key, raw_id) is None,
        op != FileOp::Show && !(0 < raw_id <= 0x7fff_ffff) ==> (early_refusal(
            op,
            req,
            api_key,
            raw_id,
        ) matches Some(e) && e.code == "INVALID_MESSAGE_ID"@ && e.message == "Invalid message id"@
            && e.status == 400),
        listing_refusal(req, api_key) is None,
{
}

/// What failed outside is told in its own words.
pub proof fn law_failures_are_told_as_they_came(message: Seq<char>)
    ensures
        peer_error(message).code == "PEER_ERROR"@,
        peer_error(message).message == message,
        peer_error(message).status == 400,
        fetch_error(message).code == "FETCH_ERROR"@,
        fetch_error(message).message == message,
        fetch_error(message).status == 502,
{
}

/// A request without a range header is for the whole file: all of its bytes
/// are promised, and when they come, all are handed on, however the download
/// is parted into chunks.
pub proof fn law_without_a_range_the_whole_file_comes(
    content: Seq<u8>,
    chunks: Seq<Seq<u8>>,
    mime: Seq<char>,
    filename: Seq<char>,
)
    requires
        0 < content.len() <= u64::MAX,
        chunks.flatten() == content,
    ensures
        asked_range(None, content.len() as u64) == Some((0u64, (content.len() - 1) as u64)),
        ({
            let last = (content.len() - 1) as u64;
            let head = media_head(false, 0, last, content.len() as u64, mime, filename);
            &&& head.status == 200
            &&& head.headers.len() == 4
            &&& head.headers.contains(("Content-Length"@, decimal(content.len())))
        }),
        chunk_index(0) == 0,
        window_run(
            WindowView { skip_left: (0 - aligned(0)) as nat, left: content.len() },
            chunks,
        ) == content,
{
    law_window_is_a_stretch_of_the_stream(
        WindowView { skip_left: (0 - aligned(0)) as nat, left: content.len() },
        chunks,
    );
    law_downloads_start_close_before_the_stretch(0);
    assert(content.subrange(0, content.len() as int) =~= content);
    let last = (content.len() - 1) as u64;
    let headers = media_head(false, 0, last, content.len() as u64, mime, filename).headers;
    assert(headers[2] == ("Content-Length"@, decimal(content.len())));
}

/// A request with a range header is for the range that the header asks for,
/// and for nothing that can be given where the header cannot be read as text
/// or asks for none.
pub proof fn law_with_a_range_the_asked_bytes_come(range: Option<Vec<u8>>, size: u64)
    requires
        range is Some,
    ensures
        field_text(range) is None ==> asked_range(range, size) is None,
        field_text(range) matches Some(text) ==> asked_range(range, size) == byte_range(
            text,
            size,
        ),
{
}

/// Bytes are promised as what they are: a whole file, or a stretch of one
/// with its place and the size of the file; with as many bytes as the stretch
/// has, of the given type, under the stored name of the file between quotes.
pub proof fn law_bytes_are_promised_as_they_are(
    partial: bool,
    start: u64,
    end: u64,
    size: u64,
    mime: Seq<char>,
    filename: Seq<char>,
)
    requires
        start <= end < size,
    ensures
        ({
            let head = media_head(partial, start, end, size, mime, filename);
            &&& partial ==> head.status == 206 && head.headers.len() == 5
                && head.headers.contains(
                (
                    "Content-Range"@,
                    seq!['b', 'y', 't', 'e', 's', ' '] + decimal(start as nat) + seq!['-'] + decimal(
                        end as nat,
                    ) + seq!['/'] + decimal(size as nat),
                ),
            )
            &&& !partial ==> head.status == 200 && head.headers.len() == 4
            &&& head.headers.contains(("Content-Type"@, mime))
            &&& head.headers.contains(("Accept-Ranges"@, "bytes"@))
            &&& head.headers.contains(("Content-Length"@, decimal((end + 1 - start) as nat)))
            &&& head.headers.contains(
                (
                    "Content-Disposition"@,
                    "inline; filename="@ + seq!['"'] + safe_name(filename) + seq!['"'],
                ),
            )
        }),
{
    reveal_strlit("bytes ");
    reveal_strlit("-");
    reveal_strlit("/");
    reveal_strlit("\"");
    reveal_strlit("inline; filename=\"");
    reveal_strlit("inline; filename=");
    assert("bytes "@ =~= seq!['b', 'y', 't', 'e', 's', ' ']);
    assert("-"@ =~= seq!['-']);
    assert("/"@ =~= seq!['/']);
    assert("\""@ =~= seq!['"']);
    assert("inline; filename=\""@ =~= "inline; filename="@ + seq!['"']);
    let headers = media_head(partial, start, end, size, mime, filename).headers;
    let first: int = if partial {
        1
    } else {
        0
    };
    if partial {
        assert(headers[0] == (
            "Content-Range"@,
            seq!['b', 'y', 't', 'e', 's', ' '] + decimal(start as nat) + seq!['-'] + decimal(
                end as nat,
            ) + seq!['/'] + decimal(size as nat),
        ));
    }
    assert(headers[first] == ("Content-Type"@, mime));
    assert(headers[first + 1] == ("Accept-Ranges"@, "bytes"@));
    assert(headers[first + 2] == ("Content-Length"@, decimal((end + 1 - start) as nat)));
    assert(headers[first + 3] == (
        "Content-Disposition"@,
        "inline; filename="@ + seq!['"'] + safe_name(filename) + seq!['"'],
    ));
}

/// A document is downloaded under its name, and with its type where Telegram
/// states one; anything else has a name and a type of its own.
pub proof fn law_files_are_downloaded_as_they_are_called(media: StoredMedia)
    ensures
        media matches StoredMedia::Document { name, mime_type, .. } ==> {
            &&& download_name(media) == name@
            &&& mime_type matches Some(t) ==> download_type(media) == t@
            &&& mime_type is None ==> download_type(media) == "application/octet-stream"@
        },
        media is Photo ==> download_name(media) == "Photo.jpg"@ && download_type(media)
            == "image/jpeg"@,
        media is Other ==> download_name(media) == "download"@ && download_type(media)
            == "application/octet-stream"@,
{
}

} // verus!
