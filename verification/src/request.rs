//! The headers of a request that decisions rest on, as the bytes that came.

use vstd::prelude::*;
use vstd::string::*;
use vstd::utf8::*;

use crate::text::{
    header_text, law_header_values_are_read_as_they_came, lemma_char_range, read_header_text,
};

verus! {

/// The headers that decisions rest on. A header that did not come is `None`.
pub struct RequestHead {
    /// `X-API-Key`
    pub api_key: Option<Vec<u8>>,
    /// `X-Playback-Origin-Key`
    pub playback_origin_key: Option<Vec<u8>>,
    /// `Content-Length`
    pub content_length: Option<Vec<u8>>,
    /// `X-File-Name`
    pub file_name: Option<Vec<u8>>,
    /// `Range`
    pub range: Option<Vec<u8>>,
}

/// The text of a header that came and can be read as text.
pub open spec fn field_text(field: Option<Vec<u8>>) -> Option<Seq<char>> {
    match field {
        Some(value) => header_text(value@),
        None => None,
    }
}

/// The text of a header, or nothing where it did not come or cannot be read.
pub open spec fn presented(field: Option<Vec<u8>>) -> Seq<char> {
    match field_text(field) {
        Some(text) => text,
        None => Seq::empty(),
    }
}

/// Reads a header as text.
pub fn read_field(field: &Option<Vec<u8>>) -> (r: Option<String>)
    ensures
        match r {
            Some(text) => field_text(*field) == Some(text@),
            None => field_text(*field) is None,
        },
{
    match field {
        Some(value) => read_header_text(value.as_slice()),
        None => None,
    }
}

/// A header of visible ASCII, blanks and tabs is read as the text that came;
/// one that did not come, or cannot be read, counts as an empty text.
pub proof fn law_headers_are_read_as_they_came(field: Option<Vec<u8>>, text: Seq<char>)
    requires
        forall|i: int|
            0 <= i < text.len() ==> 32 <= #[trigger] text[i] as int <= 126 || text[i] as int == 9,
    ensures
        (field matches Some(value) && value@ == encode_utf8(text)) ==> field_text(field) == Some(
            text,
        ) && presented(field) == text,
        field is None ==> field_text(field) is None,
        field_text(field) is None ==> presented(field).len() == 0,
        field matches Some(value) ==> ((exists|i: int|
            0 <= i < value@.len() && !(32 <= #[trigger] value@[i] <= 126) && value@[i] != 9)
            ==> field_text(field) is None),
{
    match field {
        Some(value) => {
            law_header_values_are_read_as_they_came(value@);
            if value@ == encode_utf8(text) {
                assert forall|i: int| 0 <= i < text.len() implies '\0' <= #[trigger] text[i]
                    <= '\u{7f}' by {
                    lemma_char_range(text[i]);
                }
                assert(is_ascii_chars(text));
                is_ascii_chars_encode_utf8(text);
                assert forall|i: int| 0 <= i < value@.len() implies 32 <= #[trigger] value@[i]
                    <= 126 || value@[i] == 9 by {
                    assert(text[i] as u8 == value@[i]);
                }
                assert(field_text(field)->0 =~= text) by {
                    assert forall|i: int| 0 <= i < text.len() implies field_text(field)->0[i]
                        == text[i] by {
                        assert(text[i] as u8 == value@[i]);
                    }
                }
            }
        },
        None => {},
    }
}

} // verus!
