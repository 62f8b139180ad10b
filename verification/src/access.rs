//! Who is let in where.

use vstd::prelude::*;
use vstd::string::*;
use vstd::utf8::*;

use crate::auth::{invalid_api_key, invalid_playback_origin_key, playback_origin_key};
use crate::files::{early_refusal, listing_refusal, FileOp};
use crate::playback::AssetView;
use crate::registry::{change_refusal, playback_lookup, put_refusal};
use crate::reply::ErrorView;
use crate::request::{law_headers_are_read_as_they_came, presented, RequestHead};
use crate::upload::{chunk_refusal, upload_refusal};

verus! {

/// A client that does not present the key is told so and nothing else,
/// whatever it asks for: to list, show, download, delete or upload files, or
/// to register playback assets or take them away.
pub proof fn law_clients_need_the_key(
    req: RequestHead,
    api_key: Seq<char>,
    op: FileOp,
    message_id: i64,
    id: Seq<char>,
    input: AssetView,
)
    requires
        presented(req.api_key) != api_key,
    ensures
        listing_refusal(req, api_key) == Some(invalid_api_key()),
        early_refusal(op, req, api_key, message_id) == Some(invalid_api_key()),
        upload_refusal(req, api_key) == Some(invalid_api_key()),
        chunk_refusal(req, api_key) == Some(invalid_api_key()),
        change_refusal(req, api_key, id) == Some(invalid_api_key()),
        put_refusal(req, api_key, id, input) == Some(invalid_api_key()),
{
}

/// A client that presents the key is not refused for the want of it.
pub proof fn law_the_key_lets_clients_in(
    req: RequestHead,
    api_key: Seq<char>,
    op: FileOp,
    message_id: i64,
    id: Seq<char>,
    input: AssetView,
)
    requires
        presented(req.api_key) == api_key,
    ensures
        listing_refusal(req, api_key) is None,
        upload_refusal(req, api_key) is None,
        early_refusal(op, req, api_key, message_id) matches Some(e) ==> e.status != 401,
        chunk_refusal(req, api_key) matches Some(e) ==> e.status != 401,
        change_refusal(req, api_key, id) matches Some(e) ==> e.status != 401,
        put_refusal(req, api_key, id, input) matches Some(e) ==> e.status != 401,
{
}

/// Segments are handed out to whoever presents the key that is derived from
/// the clients' key, and to nobody else.
pub proof fn law_playback_needs_the_derived_key(
    req: RequestHead,
    api_key: Seq<char>,
    id: Seq<char>,
    registry: Map<Seq<char>, AssetView>,
)
    ensures
        presented(req.playback_origin_key) != playback_origin_key(api_key) <==> playback_lookup(
            req,
            playback_origin_key(api_key),
            id,
            registry,
        ) == Err::<AssetView, ErrorView>(invalid_playback_origin_key()),
{
}

/// A client is let in if and only if the key that it presents, as it came in
/// its header, is the key that is asked for, whatever that key is.
pub proof fn law_the_presented_key_decides(
    req: RequestHead,
    key: Seq<char>,
    api_key: Seq<char>,
)
    requires
        forall|i: int|
            0 <= i < key.len() ==> 32 <= #[trigger] key[i] as int <= 126 || key[i] as int == 9,
        req.api_key matches Some(value) && value@ == encode_utf8(key),
    ensures
        upload_refusal(req, api_key) is None <==> key == api_key,
        listing_refusal(req, api_key) is None <==> key == api_key,
        key != api_key ==> (listing_refusal(req, api_key) matches Some(e) && e.code
            == "UNAUTHORIZED"@ && e.message == "Invalid API key"@ && e.status == 401),
{
    law_headers_are_read_as_they_came(req.api_key, key);
}

} // verus!
