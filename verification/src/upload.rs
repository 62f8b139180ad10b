//! Uploads: a form with one file, or a bare chunk of a video.

use vstd::prelude::*;
use vstd::string::*;
use vstd::utf8::*;

use crate::auth::{invalid_api_key, require_auth};
use crate::files::{api_file_from_message, file_of, ApiFile, StoredMessage};
use crate::names::{safe_name, sanitise_upload_filename};
use crate::number::{
    decimal, decimal_int, decimal_u64, digit, i64_of, law_decimal_reads_back,
    law_other_texts_are_no_numbers, law_written_integers_are_read, lemma_integer_text, parse_i64,
    parse_u64, u64_of,
};
use crate::reply::{error, json_error, ErrorReply, ErrorView};
use crate::request::{
    field_text, law_headers_are_read_as_they_came, presented, read_field, RequestHead,
};
use crate::text::{
    chars_of, join3, law_trimming_takes_what_is_around, lemma_trimmed_keeps, same_text, text_of,
    trim_chars, trimmed, white_space,
};

verus! {

/// The largest file that Telegram takes.
pub const TELEGRAM_MAX_FILE_SIZE: u64 = 2_000_000_000;

/// The longest folder number in a form, in bytes.
pub const MAX_MULTIPART_METADATA_BYTES: usize = 128;

/// The largest chunk of a video.
pub const MAX_DIRECT_CHUNK_BYTES: u64 = 67_108_864;

/// The size that a chunk announces, or why it is refused.
pub open spec fn announced_size(req: RequestHead) -> Result<u64, ErrorView> {
    match field_text(req.content_length) {
        None => Err(
            error("CONTENT_LENGTH_REQUIRED"@, "Content-Length is required"@, 411),
        ),
        Some(text) => match u64_of(text) {
            None => Err(error("INVALID_CONTENT_LENGTH"@, "Content-Length is invalid"@, 400)),
            Some(size) => if size == 0 {
                Err(error("FILE_REQUIRED"@, "A non-empty chunk is required"@, 400))
            } else if size > MAX_DIRECT_CHUNK_BYTES {
                Err(
                    error(
                        "CHUNK_TOO_LARGE"@,
                        "Direct upload chunks must be at most "@ + decimal(
                            MAX_DIRECT_CHUNK_BYTES as nat,
                        ) + " bytes"@,
                        413,
                    ),
                )
            } else {
                Ok(size)
            },
        },
    }
}

/// Reads the size that a chunk announces.
pub fn required_content_length(req: &RequestHead) -> (r: Result<u64, ErrorReply>)
    ensures
        match r {
            Ok(size) => announced_size(*req) == Ok::<u64, ErrorView>(size),
            Err(e) => announced_size(*req) == Err::<u64, ErrorView>(e@),
        },
{
    let raw = match read_field(&req.content_length) {
        Some(text) => text,
        None => {
            return Err(
                json_error(
                    "CONTENT_LENGTH_REQUIRED",
                    "Content-Length is required".to_owned(),
                    411,
                ),
            );
        },
    };
    let chars = chars_of(raw.as_str());
    let size = match parse_u64(chars.as_slice()) {
        Some(size) => size,
        None => {
            return Err(
                json_error("INVALID_CONTENT_LENGTH", "Content-Length is invalid".to_owned(), 400),
            );
        },
    };
    if size == 0 {
        return Err(json_error("FILE_REQUIRED", "A non-empty chunk is required".to_owned(), 400));
    }
    if size > MAX_DIRECT_CHUNK_BYTES {
        let message = join3(
            "Direct upload chunks must be at most ",
            decimal_u64(MAX_DIRECT_CHUNK_BYTES).as_str(),
            " bytes",
        );
        return Err(json_error("CHUNK_TOO_LARGE", message, 413));
    }
    Ok(size)
}

/// The name that a chunk is stored under.
pub open spec fn chunk_name(req: RequestHead) -> Seq<char> {
    match field_text(req.file_name) {
        Some(name) => safe_name(name),
        None => "video.part"@,
    }
}

/// The name that a chunk is stored under.
pub fn direct_chunk_filename(req: &RequestHead) -> (r: String)
    ensures
        r@ == chunk_name(*req),
{
    match read_field(&req.file_name) {
        Some(name) => sanitise_upload_filename(name.as_str()),
        None => "video.part".to_owned(),
    }
}

/// A chunk that may be uploaded.
#[derive(Debug)]
pub struct ChunkUpload {
    pub file_size: u64,
    pub filename: String,
}

/// Why the upload of a chunk is refused before its chat is looked for.
pub open spec fn chunk_refusal(req: RequestHead, api_key: Seq<char>) -> Option<ErrorView> {
    if presented(req.api_key) != api_key {
        Some(invalid_api_key())
    } else {
        match announced_size(req) {
            Ok(_) => None,
            Err(e) => Some(e),
        }
    }
}

/// Starts the upload of a chunk: refuses it, or says how many bytes to take
/// and under which name.
pub fn begin_chunk(req: &RequestHead, api_key: &str) -> (r: Result<ChunkUpload, ErrorReply>)
    ensures
        match r {
            Ok(chunk) => {
                &&& chunk_refusal(*req, api_key@) is None
                &&& announced_size(*req) == Ok::<u64, ErrorView>(chunk.file_size)
                &&& chunk.filename@ == chunk_name(*req)
            },
            Err(e) => chunk_refusal(*req, api_key@) == Some(e@),
        },
{
    match require_auth(req, api_key) {
        Ok(_) => {},
        Err(e) => return Err(e),
    }
    match required_content_length(req) {
        Ok(file_size) => Ok(ChunkUpload { file_size, filename: direct_chunk_filename(req) }),
        Err(e) => Err(e),
    }
}

/// Chunks that are let through hold something, and not too much.
pub proof fn law_chunks_are_bounded(req: RequestHead)
    ensures
        announced_size(req) matches Ok(size) ==> 1 <= size <= MAX_DIRECT_CHUNK_BYTES,
{
}

/// What came of the upload of a chunk.
#[derive(Debug)]
pub enum ChunkOutcome {
    /// It is stored as this file.
    Stored(ApiFile),
    /// It is stored with the wrong size: delete the message, and answer so.
    Discard(i32, ErrorReply),
    /// Nothing is stored.
    Incomplete(ErrorReply),
}

/// The answer where Telegram stored nothing.
pub open spec fn upload_incomplete() -> ErrorView {
    error("UPLOAD_INCOMPLETE"@, "Telegram returned no media message"@, 502)
}

/// The answer where Telegram stored another number of bytes than were sent.
pub open spec fn size_mismatch(stored: u64, expected: u64) -> ErrorView {
    error(
        "SIZE_MISMATCH"@,
        "Telegram stored "@ + decimal(stored as nat) + " bytes, expected "@ + decimal(
            expected as nat,
        ),
        502,
    )
}

/// Ends the upload of a chunk with the message that it was sent as. Only a
/// file of the announced size stays.
pub fn upload_chunk(sent: &StoredMessage, folder_id: Option<i64>, file_size: u64) -> (r:
    ChunkOutcome)
    ensures
        match (r, file_of(*sent, folder_id)) {
            (ChunkOutcome::Stored(file), Some(f)) => f.size == file_size && file@ == f,
            (ChunkOutcome::Discard(id, e), Some(f)) => f.size != file_size && id == sent.id && e@
                == size_mismatch(f.size, file_size),
            (ChunkOutcome::Incomplete(e), None) => e@ == upload_incomplete(),
            _ => false,
        },
{
    match api_file_from_message(sent, folder_id) {
        Some(file) => if file.size == file_size {
            ChunkOutcome::Stored(file)
        } else {
            let mut message = join3(
                "Telegram stored ",
                decimal_u64(file.size).as_str(),
                " bytes, expected ",
            );
            message.append(decimal_u64(file_size).as_str());
            ChunkOutcome::Discard(sent.id, json_error("SIZE_MISMATCH", message, 502))
        },
        None => ChunkOutcome::Incomplete(
            json_error(
                "UPLOAD_INCOMPLETE",
                "Telegram returned no media message".to_owned(),
                502,
            ),
        ),
    }
}

/// What can go wrong around an upload.
#[derive(Clone, Copy, Debug, PartialEq, Eq)]
pub enum UploadStage {
    CreateTemporary,
    OpenTemporary,
    ReadForm,
    ReadField,
    WriteTemporary,
    FindChat,
    ReopenTemporary,
    Upload,
    Send,
}

/// The code that a stage fails with.
pub open spec fn stage_code(stage: UploadStage) -> Seq<char> {
    match stage {
        UploadStage::CreateTemporary => "TEMP_FILE_CREATE_FAILED"@,
        UploadStage::OpenTemporary => "TEMP_FILE_OPEN_FAILED"@,
        UploadStage::ReadForm => "INVALID_MULTIPART"@,
        UploadStage::ReadField => "READ_ERROR"@,
        UploadStage::WriteTemporary => "WRITE_ERROR"@,
        UploadStage::FindChat => "PEER_ERROR"@,
        UploadStage::ReopenTemporary => "OPEN_ERROR"@,
        UploadStage::Upload => "UPLOAD_FAILED"@,
        UploadStage::Send => "SEND_FAILED"@,
    }
}

/// The status that a stage fails with: what the client sent, this service, or
/// Telegram is to blame.
pub open spec fn stage_status(stage: UploadStage) -> u16 {
    match stage {
        UploadStage::ReadForm | UploadStage::ReadField | UploadStage::FindChat => 400,
        UploadStage::CreateTemporary
        | UploadStage::OpenTemporary
        | UploadStage::WriteTemporary
        | UploadStage::ReopenTemporary => 500,
        UploadStage::Upload | UploadStage::Send => 502,
    }
}

/// Answers an upload that fails at a stage.
pub fn upload_failure(stage: UploadStage, message: String) -> (r: ErrorReply)
    ensures
        r@ == error(stage_code(stage), message@, stage_status(stage)),
{
    match stage {
        UploadStage::CreateTemporary => json_error("TEMP_FILE_CREATE_FAILED", message, 500),
        UploadStage::OpenTemporary => json_error("TEMP_FILE_OPEN_FAILED", message, 500),
        UploadStage::ReadForm => json_error("INVALID_MULTIPART", message, 400),
        UploadStage::ReadField => json_error("READ_ERROR", message, 400),
        UploadStage::WriteTemporary => json_error("WRITE_ERROR", message, 500),
        UploadStage::FindChat => json_error("PEER_ERROR", message, 400),
        UploadStage::ReopenTemporary => json_error("OPEN_ERROR", message, 500),
        UploadStage::Upload => json_error("UPLOAD_FAILED", message, 502),
        UploadStage::Send => json_error("SEND_FAILED", message, 502),
    }
}

/// The folder that a form names.
pub enum FolderField {
    /// It leaves the folder open.
    Open,
    /// It names this one.
    Folder(i64),
    /// It names none that there can be.
    Invalid,
}

/// The folder that the bytes of a form field name: nothing, `null` and `none`
/// leave it open.
pub open spec fn folder_field(bytes: Seq<u8>) -> FolderField {
    if !valid_utf8(bytes) {
        FolderField::Invalid
    } else {
        let raw = trimmed(decode_utf8(bytes));
        if raw.len() == 0 || raw == "null"@ || raw == "none"@ {
            FolderField::Open
        } else {
            match i64_of(raw) {
                Some(id) => FolderField::Folder(id),
                None => FolderField::Invalid,
            }
        }
    }
}

/// Reads bytes as text.
///
/// Calls `String::from_utf8_lossy`. Claimed: bytes that are UTF-8 are read as
/// the characters that they encode; of others, a text comes that holds the
/// replacement character.
#[verifier::external_body]
fn lossy_text(bytes: &[u8]) -> (r: String)
    ensures
        valid_utf8(bytes@) ==> r@ == decode_utf8(bytes@),
        !valid_utf8(bytes@) ==> r@.contains('\u{fffd}'),
{
    String::from_utf8_lossy(bytes).into_owned()
}

proof fn lemma_no_number_with(s: Seq<char>, c: char)
    requires
        s.contains(c),
        !digit(c),
        c != '+',
        c != '-',
    ensures
        i64_of(s) is None,
{
    let k = choose|k: int| 0 <= k < s.len() && s[k] == c;
    assert(!digit(s[k]));
    if k > 0 {
        assert(s.skip(1)[k - 1] == c);
    }
}

/// Reads the folder that the bytes of a form field name.
fn read_folder_field(bytes: &[u8]) -> (r: FolderField)
    ensures
        r == folder_field(bytes@),
{
    let text = lossy_text(bytes);
    let chars = chars_of(text.as_str());
    let trimmed_chars = trim_chars(chars.as_slice());
    let raw = text_of(trimmed_chars);
    proof {
        if !valid_utf8(bytes@) {
            lemma_trimmed_keeps(text@, '\u{fffd}');
            lemma_no_number_with(raw@, '\u{fffd}');
            reveal_strlit("null");
            reveal_strlit("none");
        }
    }
    if trimmed_chars.len() == 0 || same_text(raw.as_str(), "null") || same_text(
        raw.as_str(),
        "none",
    ) {
        return FolderField::Open;
    }
    match parse_i64(trimmed_chars) {
        Some(id) => FolderField::Folder(id),
        None => FolderField::Invalid,
    }
}

/// What has come of a form so far.
pub struct FormView {
    pub filename: Seq<char>,
    pub folder_id: Option<i64>,
    pub file_seen: bool,
    pub folder_seen: bool,
    pub file_size: nat,
    pub folder_bytes: Seq<u8>,
}

/// A field of a form whose content follows.
#[derive(Clone, Copy, Debug, PartialEq, Eq)]
pub enum FieldKind {
    File,
    FolderId,
}

/// What a form has come to when the field with the given name starts, or why
/// the form is refused.
pub open spec fn after_field(
    form: FormView,
    name: Option<Seq<char>>,
    filename: Option<Seq<char>>,
) -> Result<(FieldKind, FormView), ErrorView> {
    if name == Some("file"@) {
        if form.file_seen {
            Err(error("MULTIPLE_FILES"@, "Upload exactly one file"@, 400))
        } else {
            Ok(
                (
                    FieldKind::File,
                    FormView {
                        file_seen: true,
                        filename: match filename {
                            Some(f) => safe_name(f),
                            None => form.filename,
                        },
                        ..form
                    },
                ),
            )
        }
    } else if name == Some("folder_id"@) {
        if form.folder_seen {
            Err(error("DUPLICATE_FOLDER_ID"@, "folder_id may be provided once"@, 400))
        } else {
            Ok(
                (
                    FieldKind::FolderId,
                    FormView { folder_seen: true, folder_bytes: Seq::empty(), ..form },
                ),
            )
        }
    } else {
        Err(
            error(
                "UNKNOWN_MULTIPART_FIELD"@,
                "Only file and folder_id fields are accepted"@,
                400,
            ),
        )
    }
}

/// The answer to a file that is too large.
pub open spec fn file_too_large() -> ErrorView {
    error(
        "FILE_TOO_LARGE"@,
        "File exceeds Telegram's 2,000,000,000-byte upload limit"@,
        413,
    )
}

/// The answer to a folder that is no number, or a too long one.
pub open spec fn invalid_folder(message: Seq<char>) -> ErrorView {
    error("INVALID_FOLDER_ID"@, message, 400)
}

/// What happens to a form while it is read.
pub enum FormEvent {
    /// A field starts, with its name and the file name that it gives.
    Field(Option<Seq<char>>, Option<Seq<char>>),
    /// A chunk of the file comes, of the given length.
    FileChunk(nat),
    /// A chunk of the folder number comes.
    FolderChunk(Seq<u8>),
    /// The folder number ends.
    FolderEnd,
}

/// What a form has come to behind an event, or why it is refused.
pub open spec fn form_step(form: FormView, event: FormEvent) -> Result<FormView, ErrorView> {
    match event {
        FormEvent::Field(name, filename) => match after_field(form, name, filename) {
            Ok((_, next)) => Ok(next),
            Err(e) => Err(e),
        },
        FormEvent::FileChunk(length) => if form.file_size + length <= TELEGRAM_MAX_FILE_SIZE {
            Ok(FormView { file_size: form.file_size + length, ..form })
        } else {
            Err(file_too_large())
        },
        FormEvent::FolderChunk(chunk) => if form.folder_bytes.len() + chunk.len()
            <= MAX_MULTIPART_METADATA_BYTES {
            Ok(FormView { folder_bytes: form.folder_bytes + chunk, ..form })
        } else {
            Err(invalid_folder("folder_id is too long"@))
        },
        FormEvent::FolderEnd => match folder_field(form.folder_bytes) {
            FolderField::Open => Ok(form),
            FolderField::Folder(id) => Ok(FormView { folder_id: Some(id), ..form }),
            FolderField::Invalid => Err(invalid_folder("folder_id must be an integer"@)),
        },
    }
}

/// A form of which nothing has come yet.
pub open spec fn empty_form() -> FormView {
    FormView {
        filename: "file"@,
        folder_id: None,
        file_seen: false,
        folder_seen: false,
        file_size: 0,
        folder_bytes: Seq::empty(),
    }
}

/// A text that may be missing, as plain values.
pub open spec fn str_view(text: Option<&str>) -> Option<Seq<char>> {
    match text {
        Some(t) => Some(t@),
        None => None,
    }
}

/// A file that came whole.
#[derive(Debug)]
pub struct ReceivedFile {
    pub filename: String,
    pub folder_id: Option<i64>,
    pub file_size: u64,
}

/// A form that is being read.
pub struct UploadForm {
    filename: String,
    folder_id: Option<i64>,
    file_seen: bool,
    folder_seen: bool,
    file_size: u64,
    folder_bytes: Vec<u8>,
}

impl View for UploadForm {
    type V = FormView;

    closed spec fn view(&self) -> FormView {
        FormView {
            filename: self.filename@,
            folder_id: self.folder_id,
            file_seen: self.file_seen,
            folder_seen: self.folder_seen,
            file_size: self.file_size as nat,
            folder_bytes: self.folder_bytes@,
        }
    }
}

impl UploadForm {
    /// A form of which nothing has come yet.
    pub fn new() -> (r: UploadForm)
        ensures
            r@ == empty_form(),
    {
        UploadForm {
            filename: "file".to_owned(),
            folder_id: None,
            file_seen: false,
            folder_seen: false,
            file_size: 0,
            folder_bytes: Vec::new(),
        }
    }

    /// Takes the start of a field. A refused form is left as it is.
    pub fn begin_field(&mut self, name: Option<&str>, filename: Option<&str>) -> (r: Result<
        FieldKind,
        ErrorReply,
    >)
        ensures
            match (r, after_field(old(self)@, str_view(name), str_view(filename))) {
                (Ok(kind), Ok((k, form))) => kind == k && final(self)@ == form,
                (Err(e), Err(v)) => e@ == v && final(self)@ == old(self)@,
                _ => false,
            },
    {
        let name = match name {
            Some(name) => name,
            None => {
                return Err(
                    json_error(
                        "UNKNOWN_MULTIPART_FIELD",
                        "Only file and folder_id fields are accepted".to_owned(),
                        400,
                    ),
                );
            },
        };
        proof {
            reveal_strlit("file");
            reveal_strlit("folder_id");
        }
        if same_text(name, "file") {
            if self.file_seen {
                return Err(json_error("MULTIPLE_FILES", "Upload exactly one file".to_owned(), 400));
            }
            self.file_seen = true;
            match filename {
                Some(value) => {
                    self.filename = sanitise_upload_filename(value);
                },
                None => {},
            }
            Ok(FieldKind::File)
        } else if same_text(name, "folder_id") {
            if self.folder_seen {
                return Err(
                    json_error(
                        "DUPLICATE_FOLDER_ID",
                        "folder_id may be provided once".to_owned(),
                        400,
                    ),
                );
            }
            self.folder_seen = true;
            self.folder_bytes = Vec::new();
            Ok(FieldKind::FolderId)
        } else {
            Err(
                json_error(
                    "UNKNOWN_MULTIPART_FIELD",
                    "Only file and folder_id fields are accepted".to_owned(),
                    400,
                ),
            )
        }
    }

    /// Counts a chunk of the file, unless the file grows too large by it.
    pub fn file_chunk(&mut self, length: usize) -> (r: Result<(), ErrorReply>)
        ensures
            match (r, form_step(old(self)@, FormEvent::FileChunk(length as nat))) {
                (Ok(_), Ok(form)) => final(self)@ == form,
                (Err(e), Err(v)) => e@ == v && final(self)@ == old(self)@,
                _ => false,
            },
    {
        match self.file_size.checked_add(length as u64) {
            Some(size) => {
                if size <= TELEGRAM_MAX_FILE_SIZE {
                    self.file_size = size;
                    return Ok(());
                }
            },
            None => {},
        }
        Err(
            json_error(
                "FILE_TOO_LARGE",
                "File exceeds Telegram's 2,000,000,000-byte upload limit".to_owned(),
                413,
            ),
        )
    }

    /// Takes a chunk of the folder number, unless it grows too long by it.
    pub fn folder_chunk(&mut self, chunk: &[u8]) -> (r: Result<(), ErrorReply>)
        ensures
            match (r, form_step(old(self)@, FormEvent::FolderChunk(chunk@))) {
                (Ok(_), Ok(form)) => final(self)@ == form,
                (Err(e), Err(v)) => e@ == v && final(self)@ == old(self)@,
                _ => false,
            },
    {
        if self.folder_bytes.len().saturating_add(chunk.len()) > MAX_MULTIPART_METADATA_BYTES {
            return Err(
                json_error("INVALID_FOLDER_ID", "folder_id is too long".to_owned(), 400),
            );
        }
        let ghost before = self.folder_bytes@;
        self.folder_bytes.extend_from_slice(chunk);
        assert(self.folder_bytes@ == before + chunk@);
        Ok(())
    }

    /// Takes the end of the folder number.
    pub fn end_folder(&mut self) -> (r: Result<(), ErrorReply>)
        ensures
            match (r, form_step(old(self)@, FormEvent::FolderEnd)) {
                (Ok(_), Ok(form)) => final(self)@ == form,
                (Err(e), Err(v)) => e@ == v && final(self)@ == old(self)@,
                _ => false,
            },
    {
        match read_folder_field(self.folder_bytes.as_slice()) {
            FolderField::Open => Ok(()),
            FolderField::Folder(id) => {
                self.folder_id = Some(id);
                Ok(())
            },
            FolderField::Invalid => Err(
                json_error("INVALID_FOLDER_ID", "folder_id must be an integer".to_owned(), 400),
            ),
        }
    }

    /// Takes the end of the form: a file that is not empty has to have come.
    pub fn finish(self) -> (r: Result<ReceivedFile, ErrorReply>)
        ensures
            match r {
                Ok(file) => {
                    &&& self@.file_seen && self@.file_size != 0
                    &&& file.filename@ == self@.filename
                    &&& file.folder_id == self@.folder_id
                    &&& file.file_size == self@.file_size
                },
                Err(e) => {
                    &&& !self@.file_seen || self@.file_size == 0
                    &&& e@ == error(
                        "FILE_REQUIRED"@,
                        "A non-empty multipart file is required"@,
                        400,
                    )
                },
            },
    {
        if !self.file_seen || self.file_size == 0 {
            return Err(
                json_error(
                    "FILE_REQUIRED",
                    "A non-empty multipart file is required".to_owned(),
                    400,
                ),
            );
        }
        Ok(
            ReceivedFile {
                filename: self.filename,
                folder_id: self.folder_id,
                file_size: self.file_size,
            },
        )
    }
}

/// Why the upload of a form is refused before it is read.
pub open spec fn upload_refusal(req: RequestHead, api_key: Seq<char>) -> Option<ErrorView> {
    if presented(req.api_key) != api_key {
        Some(invalid_api_key())
    } else {
        None
    }
}

/// Starts the upload of a form: refuses it, or lets it be read.
pub fn begin_upload(req: &RequestHead, api_key: &str) -> (r: Result<UploadForm, ErrorReply>)
    ensures
        match r {
            Ok(form) => upload_refusal(*req, api_key@) is None && form@ == empty_form(),
            Err(e) => upload_refusal(*req, api_key@) == Some(e@),
        },
{
    match require_auth(req, api_key) {
        Ok(_) => Ok(UploadForm::new()),
        Err(e) => Err(e),
    }
}

/// Ends the upload of a form with the message that the file was sent as.
pub fn upload_file(sent: &StoredMessage, folder_id: Option<i64>) -> (r: Result<
    ApiFile,
    ErrorReply,
>)
    ensures
        match r {
            Ok(file) => file_of(*sent, folder_id) == Some(file@),
            Err(e) => file_of(*sent, folder_id) is None && e@ == upload_incomplete(),
        },
{
    match api_file_from_message(sent, folder_id) {
        Some(file) => Ok(file),
        None => Err(
            json_error(
                "UPLOAD_INCOMPLETE",
                "Telegram returned no media message".to_owned(),
                502,
            ),
        ),
    }
}

/// What a form has come to behind a row of events, or why it is refused.
pub open spec fn form_run(events: Seq<FormEvent>) -> Result<FormView, ErrorView>
    decreases events.len(),
{
    if events.len() == 0 {
        Ok(empty_form())
    } else {
        match form_run(events.drop_last()) {
            Ok(form) => form_step(form, events.last()),
            Err(e) => Err(e),
        }
    }
}

/// How many fields with the given name start.
pub open spec fn fields_named(events: Seq<FormEvent>, name: Seq<char>) -> nat
    decreases events.len(),
{
    if events.len() == 0 {
        0
    } else {
        let before = fields_named(events.drop_last(), name);
        match events.last() {
            FormEvent::Field(Some(n), _) => if n == name {
                before + 1
            } else {
                before
            },
            _ => before,
        }
    }
}

/// How many bytes of the file come.
pub open spec fn file_bytes(events: Seq<FormEvent>) -> nat
    decreases events.len(),
{
    if events.len() == 0 {
        0
    } else {
        let before = file_bytes(events.drop_last());
        match events.last() {
            FormEvent::FileChunk(length) => before + length,
            _ => before,
        }
    }
}

/// A form that is not refused has at most one file and at most one folder,
/// its file is exactly as large as what came of it, and Telegram takes it.
pub proof fn law_accepted_forms(events: Seq<FormEvent>)
    ensures
        form_run(events) matches Ok(form) ==> {
            &&& fields_named(events, "file"@) == (if form.file_seen {
                1nat
            } else {
                0
            })
            &&& fields_named(events, "folder_id"@) == (if form.folder_seen {
                1nat
            } else {
                0
            })
            &&& form.file_size == file_bytes(events)
            &&& form.file_size <= TELEGRAM_MAX_FILE_SIZE
            &&& form.folder_bytes.len() <= MAX_MULTIPART_METADATA_BYTES
        },
    decreases events.len(),
{
    reveal_strlit("file");
    reveal_strlit("folder_id");
    assert("file"@.len() != "folder_id"@.len());
    if events.len() > 0 {
        law_accepted_forms(events.drop_last());
    }
}

/// Once a form is refused, nothing that comes behind brings it back.
pub proof fn law_refused_forms_stay_refused(events: Seq<FormEvent>, more: Seq<FormEvent>)
    requires
        form_run(events) is Err,
    ensures
        form_run(events + more) == form_run(events),
    decreases more.len(),
{
    if more.len() == 0 {
        assert(events + more == events);
    } else {
        law_refused_forms_stay_refused(events, more.drop_last());
        assert((events + more).drop_last() == events + more.drop_last());
    }
}

/// A chunk that announces its size in plain decimal digits is taken with just
/// that size, as long as it holds something and no more than 64 MiB.
pub proof fn law_chunks_are_taken_as_announced(req: RequestHead, api_key: Seq<char>, n: u64)
    requires
        req.content_length matches Some(value) && value@ == encode_utf8(decimal(n as nat)),
    ensures
        1 <= n <= 67_108_864 ==> announced_size(req) == Ok::<u64, ErrorView>(n),
        1 <= n <= 67_108_864 && presented(req.api_key) == api_key ==> chunk_refusal(
            req,
            api_key,
        ) is None,
        n == 0 || n > 67_108_864 ==> announced_size(req) is Err,
{
    let text = decimal(n as nat);
    law_decimal_reads_back(n as nat);
    assert forall|i: int| 0 <= i < text.len() implies 32 <= #[trigger] text[i] as int <= 126
        || text[i] as int == 9 by {
        assert(digit(text[i]));
    }
    law_headers_are_read_as_they_came(req.content_length, text);
}

/// A chunk is taken with the size that its header is read as, and refused for
/// cause: without a size that can be read, with one that is no number, that
/// is zero, or that is too large.
pub proof fn law_announced_sizes_are_refused_for_cause(req: RequestHead, api_key: Seq<char>)
    ensures
        field_text(req.content_length) is None ==> (announced_size(req) matches Err(e) && e.code
            == "CONTENT_LENGTH_REQUIRED"@ && e.message == "Content-Length is required"@ && e.status
            == 411),
        field_text(req.content_length) matches Some(text) ==> {
            &&& u64_of(text) is None ==> (announced_size(req) matches Err(e) && e.code
                == "INVALID_CONTENT_LENGTH"@ && e.message == "Content-Length is invalid"@ && e.status
                == 400)
            &&& u64_of(text) matches Some(n) ==> {
                &&& n == 0 ==> (announced_size(req) matches Err(e) && e.code == "FILE_REQUIRED"@
                    && e.message == "A non-empty chunk is required"@ && e.status == 400)
                &&& 1 <= n <= 67_108_864 ==> announced_size(req) == Ok::<u64, ErrorView>(n)
                &&& n > 67_108_864 ==> (announced_size(req) matches Err(e) && e.code
                    == "CHUNK_TOO_LARGE"@ && e.message == "Direct upload chunks must be at most "@
                    + decimal(67_108_864) + " bytes"@ && e.status == 413)
            }
        },
        presented(req.api_key) == api_key ==> (announced_size(req) matches Err(e)
            ==> chunk_refusal(req, api_key) == Some(e)),
        presented(req.api_key) == api_key && announced_size(req) is Ok ==> chunk_refusal(
            req,
            api_key,
        ) is None,
{
}

/// A chunk is stored under the name that its header gives it, made safe, or
/// under a name of its own where no header can be read.
pub proof fn law_chunks_are_stored_under_their_names(req: RequestHead)
    ensures
        field_text(req.file_name) matches Some(name) ==> chunk_name(req) == safe_name(name),
        field_text(req.file_name) is None ==> chunk_name(req) == "video.part"@,
{
}

/// A client whose chunk was stored with the wrong size is told both sizes.
pub proof fn law_wrong_sizes_are_told(stored: u64, expected: u64)
    ensures
        size_mismatch(stored, expected).code == "SIZE_MISMATCH"@,
        size_mismatch(stored, expected).status == 502,
        size_mismatch(stored, expected).message == "Telegram stored "@ + decimal(stored as nat)
            + " bytes, expected "@ + decimal(expected as nat),
{
}

/// The folder that a form names in plain decimal digits, with a minus sign or
/// not and with white space around it or not, is that folder, whatever its
/// number is.
pub proof fn law_folder_numbers_are_read(
    front: Seq<char>,
    id: i64,
    back: Seq<char>,
    bytes: Seq<u8>,
)
    requires
        forall|i: int| 0 <= i < front.len() ==> white_space(#[trigger] front[i]),
        forall|i: int| 0 <= i < back.len() ==> white_space(#[trigger] back[i]),
        bytes == encode_utf8(front + decimal_int(id as int) + back),
    ensures
        folder_field(bytes) == FolderField::Folder(id),
{
    let number = decimal_int(id as int);
    let text = front + number + back;
    encode_utf8_valid_utf8(text);
    encode_utf8_decode_utf8(text);
    lemma_integer_text(id as int);
    law_trimming_takes_what_is_around(front, number, back);
    law_written_integers_are_read(id as int);
    reveal_strlit("null");
    reveal_strlit("none");
    assert("null"@[0] == 'n');
    assert("none"@[0] == 'n');
    assert(number[0] != 'n');
}

/// A form leaves the folder open with nothing, `null` or `none`; with any
/// other text that is no number, and with bytes that are no text, it names no
/// folder that there can be.
pub proof fn law_other_folders_are_open_or_invalid(
    front: Seq<char>,
    inner: Seq<char>,
    back: Seq<char>,
    bytes: Seq<u8>,
)
    requires
        forall|i: int| 0 <= i < front.len() ==> white_space(#[trigger] front[i]),
        forall|i: int| 0 <= i < back.len() ==> white_space(#[trigger] back[i]),
        inner.len() > 0 ==> !white_space(inner[0]) && !white_space(inner[inner.len() - 1]),
    ensures
        bytes == encode_utf8(front + inner + back) ==> {
            &&& inner.len() == 0 || inner == seq!['n', 'u', 'l', 'l'] || inner == seq![
                'n',
                'o',
                'n',
                'e',
            ] ==> folder_field(bytes) is Open
            &&& inner.len() > 0 && inner != seq!['n', 'u', 'l', 'l'] && inner != seq![
                'n',
                'o',
                'n',
                'e',
            ] && i64_of(inner) is None ==> folder_field(bytes) is Invalid
            &&& i64_of(inner) matches Some(id) ==> folder_field(bytes) == FolderField::Folder(id)
        },
        !valid_utf8(bytes) ==> folder_field(bytes) is Invalid,
{
    let text = front + inner + back;
    encode_utf8_valid_utf8(text);
    encode_utf8_decode_utf8(text);
    law_trimming_takes_what_is_around(front, inner, back);
    reveal_strlit("null");
    reveal_strlit("none");
    assert("null"@ =~= seq!['n', 'u', 'l', 'l']);
    assert("none"@ =~= seq!['n', 'o', 'n', 'e']);
    if i64_of(inner) is Some {
        if inner.len() == 0 {
            law_other_texts_are_no_numbers(seq!['n'], 0);
            assert(inner =~= Seq::empty());
        } else if inner[0] == 'n' {
            law_other_texts_are_no_numbers(inner, 0);
        }
    }
}

/// A form starts without a file, without a folder and with the name `file`.
/// The first file that it brings is taken, under its own name made safe where
/// it has one, and the first folder; a second of either is refused, and so is
/// any other field. What a field does not speak of stays.
pub proof fn law_forms_have_a_file_and_a_folder(
    form: FormView,
    name: Option<Seq<char>>,
    filename: Option<Seq<char>>,
)
    ensures
        empty_form().filename == "file"@,
        empty_form().folder_id is None,
        !empty_form().file_seen && !empty_form().folder_seen,
        empty_form().file_size == 0,
        empty_form().folder_bytes.len() == 0,
        name == Some("file"@) && !form.file_seen ==> (after_field(form, name, filename) matches Ok(
            (kind, next),
        ) && {
            &&& kind == FieldKind::File
            &&& next.file_seen && next.folder_seen == form.folder_seen
            &&& next.folder_id == form.folder_id && next.folder_bytes == form.folder_bytes
            &&& next.file_size == form.file_size
            &&& filename matches Some(f) ==> next.filename == safe_name(f)
            &&& filename is None ==> next.filename == form.filename
        }),
        name == Some("file"@) && form.file_seen ==> (after_field(form, name, filename) matches Err(
            e,
        ) && e.code == "MULTIPLE_FILES"@ && e.message == "Upload exactly one file"@ && e.status
            == 400),
        name == Some("folder_id"@) && !form.folder_seen ==> (after_field(form, name, filename)
            matches Ok((kind, next)) && {
            &&& kind == FieldKind::FolderId
            &&& next.folder_seen && next.file_seen == form.file_seen
            &&& next.folder_id == form.folder_id && next.folder_bytes.len() == 0
            &&& next.file_size == form.file_size && next.filename == form.filename
        }),
        name == Some("folder_id"@) && form.folder_seen ==> (after_field(form, name, filename)
            matches Err(e) && e.code == "DUPLICATE_FOLDER_ID"@ && e.message
            == "folder_id may be provided once"@ && e.status == 400),
        name != Some("file"@) && name != Some("folder_id"@) ==> (after_field(form, name, filename)
            matches Err(e) && e.code == "UNKNOWN_MULTIPART_FIELD"@ && e.message
            == "Only file and folder_id fields are accepted"@ && e.status == 400),
        form_step(form, FormEvent::Field(name, filename)) == (match after_field(
            form,
            name,
            filename,
        ) {
            Ok((_, next)) => Ok::<FormView, ErrorView>(next),
            Err(e) => Err(e),
        }),
{
    reveal_strlit("file");
    reveal_strlit("folder_id");
    assert("file"@.len() != "folder_id"@.len());
}

/// A file grows by what comes of it, up to 2,000,000,000 bytes, and the text
/// of a folder by what comes of it, up to 128 bytes; what would be more is
/// refused. The end of the text decides on the folder. Nothing else changes.
pub proof fn law_forms_grow_by_what_comes(form: FormView, length: nat, chunk: Seq<u8>)
    ensures
        form.file_size + length <= 2_000_000_000 ==> form_step(form, FormEvent::FileChunk(length))
            == Ok::<FormView, ErrorView>(
            FormView {
                filename: form.filename,
                folder_id: form.folder_id,
                file_seen: form.file_seen,
                folder_seen: form.folder_seen,
                file_size: form.file_size + length,
                folder_bytes: form.folder_bytes,
            },
        ),
        form.file_size + length > 2_000_000_000 ==> (form_step(form, FormEvent::FileChunk(length))
            matches Err(e) && e.code == "FILE_TOO_LARGE"@ && e.message
            == "File exceeds Telegram's 2,000,000,000-byte upload limit"@ && e.status == 413),
        form.folder_bytes.len() + chunk.len() <= 128 ==> form_step(
            form,
            FormEvent::FolderChunk(chunk),
        ) == Ok::<FormView, ErrorView>(
            FormView {
                filename: form.filename,
                folder_id: form.folder_id,
                file_seen: form.file_seen,
                folder_seen: form.folder_seen,
                file_size: form.file_size,
                folder_bytes: form.folder_bytes + chunk,
            },
        ),
        form.folder_bytes.len() + chunk.len() > 128 ==> (form_step(
            form,
            FormEvent::FolderChunk(chunk),
        ) matches Err(e) && e.code == "INVALID_FOLDER_ID"@ && e.message == "folder_id is too long"@
            && e.status == 400),
        ({
            let ended = form_step(form, FormEvent::FolderEnd);
            match folder_field(form.folder_bytes) {
                FolderField::Open => ended == Ok::<FormView, ErrorView>(form),
                FolderField::Folder(id) => ended matches Ok(next) && {
                    &&& next.folder_id == Some(id)
                    &&& next.filename == form.filename && next.file_size == form.file_size
                    &&& next.file_seen == form.file_seen && next.folder_seen == form.folder_seen
                    &&& next.folder_bytes == form.folder_bytes
                },
                FolderField::Invalid => ended matches Err(e) && e.code == "INVALID_FOLDER_ID"@
                    && e.message == "folder_id must be an integer"@ && e.status == 400,
            }
        }),
{
}

proof fn lemma_name_stays(events: Seq<FormEvent>, more: Seq<FormEvent>)
    ensures
        form_run(events) is Ok && form_run(events)->Ok_0.file_seen && form_run(events + more) is Ok
            ==> {
            &&& form_run(events + more)->Ok_0.file_seen
            &&& form_run(events + more)->Ok_0.filename == form_run(events)->Ok_0.filename
        },
    decreases more.len(),
{
    reveal_strlit("file");
    reveal_strlit("folder_id");
    assert("file"@.len() != "folder_id"@.len());
    if more.len() == 0 {
        assert(events + more == events);
    } else {
        lemma_name_stays(events, more.drop_last());
        assert((events + more).drop_last() == events + more.drop_last());
        assert((events + more).last() == more.last());
    }
}

proof fn lemma_first_name(events: Seq<FormEvent>)
    ensures
        form_run(events) is Ok && !form_run(events)->Ok_0.file_seen ==> form_run(
            events,
        )->Ok_0.filename == "file"@,
    decreases events.len(),
{
    if events.len() > 0 {
        lemma_first_name(events.drop_last());
    }
}

/// The file of an accepted form has the name that its field gives it, made
/// safe, whatever comes before and behind; without a name it is called
/// `file`.
pub proof fn law_the_file_has_the_name_of_its_field(
    before: Seq<FormEvent>,
    filename: Option<Seq<char>>,
    behind: Seq<FormEvent>,
)
    ensures
        form_run(before.push(FormEvent::Field(Some("file"@), filename)) + behind) matches Ok(form)
            ==> {
            &&& form.file_seen
            &&& filename matches Some(f) ==> form.filename == safe_name(f)
            &&& filename is None ==> form.filename == "file"@
        },
{
    reveal_strlit("file");
    reveal_strlit("folder_id");
    let events = before.push(FormEvent::Field(Some("file"@), filename));
    assert(events.drop_last() == before);
    lemma_first_name(before);
    lemma_name_stays(events, behind);
    if form_run(events + behind) is Ok && form_run(events) is Err {
        law_refused_forms_stay_refused(events, behind);
    }
}

/// The events of a folder number that comes in the given chunks.
pub open spec fn folder_events(chunks: Seq<Seq<u8>>) -> Seq<FormEvent> {
    chunks.map_values(|chunk: Seq<u8>| FormEvent::FolderChunk(chunk))
}

proof fn lemma_folder_bytes(events: Seq<FormEvent>, chunks: Seq<Seq<u8>>)
    ensures
        form_run(events) is Ok && form_run(events + folder_events(chunks)) is Ok ==> form_run(
            events + folder_events(chunks),
        )->Ok_0 == (FormView {
            folder_bytes: form_run(events)->Ok_0.folder_bytes + chunks.flatten(),
            ..form_run(events)->Ok_0
        }),
    decreases chunks.len(),
{
    let more = folder_events(chunks);
    if chunks.len() == 0 {
        assert(events + more =~= events);
        if form_run(events) is Ok {
            let bytes = form_run(events)->Ok_0.folder_bytes;
            assert(bytes + chunks.flatten() =~= bytes);
        }
    } else {
        let fewer = chunks.drop_last();
        lemma_folder_bytes(events, fewer);
        assert(more.drop_last() =~= folder_events(fewer));
        assert((events + more).drop_last() =~= events + folder_events(fewer));
        assert((events + more).last() == FormEvent::FolderChunk(chunks.last()));
        fewer.lemma_flatten_push(chunks.last());
        assert(fewer.push(chunks.last()) =~= chunks);
        if form_run(events) is Ok {
            let bytes = form_run(events)->Ok_0.folder_bytes;
            assert(bytes + fewer.flatten() + chunks.last() =~= bytes + chunks.flatten());
        }
    }
}

proof fn lemma_folder_stays(events: Seq<FormEvent>, more: Seq<FormEvent>)
    requires
        forall|i: int| 0 <= i < more.len() ==> !(#[trigger] more[i] is FolderEnd),
    ensures
        form_run(events) is Ok && form_run(events + more) is Ok ==> form_run(
            events + more,
        )->Ok_0.folder_id == form_run(events)->Ok_0.folder_id,
    decreases more.len(),
{
    if more.len() == 0 {
        assert(events + more == events);
    } else {
        assert forall|i: int| 0 <= i < more.drop_last().len() implies !(
        #[trigger] more.drop_last()[i] is FolderEnd) by {
            assert(!(more[i] is FolderEnd));
        }
        assert(!(more[more.len() - 1] is FolderEnd));
        lemma_folder_stays(events, more.drop_last());
        assert((events + more).drop_last() == events + more.drop_last());
        assert((events + more).last() == more.last());
    }
}

/// The folder of an accepted form is the one whose number its field gives,
/// in whatever chunks the number comes, with white space around it or not,
/// and whatever comes before and behind; a form without such a field leaves
/// the folder open.
pub proof fn law_the_folder_is_the_one_that_is_named(
    before: Seq<FormEvent>,
    filename: Option<Seq<char>>,
    chunks: Seq<Seq<u8>>,
    behind: Seq<FormEvent>,
    front: Seq<char>,
    id: i64,
    back: Seq<char>,
)
    requires
        forall|i: int| 0 <= i < front.len() ==> white_space(#[trigger] front[i]),
        forall|i: int| 0 <= i < back.len() ==> white_space(#[trigger] back[i]),
        chunks.flatten() == encode_utf8(front + decimal_int(id as int) + back),
        forall|i: int| 0 <= i < behind.len() ==> !(#[trigger] behind[i] is FolderEnd),
    ensures
        form_run(
            (before.push(FormEvent::Field(Some("folder_id"@), filename)) + folder_events(
                chunks,
            )).push(FormEvent::FolderEnd) + behind,
        ) matches Ok(form) ==> form.folder_id == Some(id),
        form_run(behind) matches Ok(form) ==> form.folder_id is None,
{
    reveal_strlit("file");
    reveal_strlit("folder_id");
    assert("file"@.len() != "folder_id"@.len());
    let opened = before.push(FormEvent::Field(Some("folder_id"@), filename));
    let filled = opened + folder_events(chunks);
    let ended = filled.push(FormEvent::FolderEnd);
    assert(opened.drop_last() == before);
    assert(ended.drop_last() == filled);
    law_folder_numbers_are_read(front, id, back, chunks.flatten());
    lemma_folder_bytes(opened, chunks);
    lemma_folder_stays(ended, behind);
    if form_run(opened) is Err {
        law_refused_forms_stay_refused(opened, folder_events(chunks));
    }
    if form_run(ended) is Err {
        law_refused_forms_stay_refused(ended, behind);
    }
    if form_run(opened) is Ok {
        assert(form_run(opened)->Ok_0.folder_bytes + chunks.flatten() =~= chunks.flatten());
    }
    let none = Seq::<FormEvent>::empty();
    lemma_folder_stays(none, behind);
    assert(none + behind == behind);
}

/// A text that may be missing is seen as it is.
pub proof fn law_given_texts_are_seen_as_they_are(text: Option<&str>)
    ensures
        text is None ==> str_view(text) is None,
        text matches Some(t) ==> str_view(text) == Some(t@),
{
}

/// A stage that fails is answered with the fault of the client where its form
/// cannot be read or its chat not found, of Telegram where that did not take
/// the file, and else of this service.
pub proof fn law_failed_uploads_blame_whom_they_should(stage: UploadStage)
    ensures
        stage is ReadForm || stage is ReadField || stage is FindChat <==> stage_status(stage) == 400,
        stage is Upload || stage is Send <==> stage_status(stage) == 502,
        stage_status(stage) == 400 || stage_status(stage) == 500 || stage_status(stage) == 502,
{
}

} // verus!
