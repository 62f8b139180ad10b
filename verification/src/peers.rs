//! Finding the chat that a folder number stands for.

use vstd::prelude::*;
use vstd::std_specs::hash::*;
use vstd::string::*;

use std::collections::HashMap;

use crate::number::{decimal_i64, decimal_int};
use crate::text::join3;

verus! {

broadcast use group_hash_axioms;

/// What the other side of a conversation is, with its number.
#[derive(Clone, Copy, Debug, PartialEq, Eq)]
pub enum DialogPeer {
    /// A channel in which only its administrators write.
    Channel(i64),
    /// A group, small or large.
    Group(i64),
    /// A private conversation.
    User(i64),
    /// One without a number.
    Other,
}

/// The folder number that a conversation can be found under.
pub open spec fn dialog_id(peer: DialogPeer) -> Option<i64> {
    match peer {
        DialogPeer::Channel(id) => Some(id),
        DialogPeer::Group(id) => Some(id),
        DialogPeer::User(id) => Some(id),
        DialogPeer::Other => None,
    }
}

/// The numbers that are remembered when a search has seen a conversation.
pub open spec fn after_dialog(known: Set<i64>, dialog: DialogPeer) -> Set<i64> {
    match dialog_id(dialog) {
        Some(id) => known.insert(id),
        None => known,
    }
}

/// Where to find a chat.
#[derive(Debug)]
pub enum PeerStep<P> {
    /// It is the account's own.
    AskSelf,
    /// It is this one.
    Use(P),
    /// It has to be searched for among the conversations.
    Search(i64),
}

/// The chats that were found before, each under its folder number.
pub struct PeerCache<P> {
    peers: HashMap<i64, P>,
}

impl<P> View for PeerCache<P> {
    type V = Map<i64, P>;

    closed spec fn view(&self) -> Map<i64, P> {
        self.peers@
    }
}

impl<P: Clone> PeerCache<P> {
    /// A cache without chats.
    pub fn new() -> (r: PeerCache<P>)
        ensures
            r@ == Map::<i64, P>::empty(),
    {
        PeerCache { peers: HashMap::new() }
    }

    /// Where to find the chat of a folder: no number stands for the account's
    /// own chat.
    pub fn resolve_peer(&self, folder_id: Option<i64>) -> (r: PeerStep<P>)
        ensures
            match (folder_id, r) {
                (None, PeerStep::AskSelf) => true,
                (Some(id), PeerStep::Use(peer)) => self@.contains_key(id) && cloned(
                    self@[id],
                    peer,
                ),
                (Some(id), PeerStep::Search(wanted)) => !self@.contains_key(id) && wanted == id,
                _ => false,
            },
    {
        let id = match folder_id {
            Some(id) => id,
            None => return PeerStep::AskSelf,
        };
        match self.peers.get(&id) {
            Some(peer) => PeerStep::Use(peer.clone()),
            None => PeerStep::Search(id),
        }
    }

    /// Takes the next conversation of a search. Every conversation with a
    /// number is remembered, and the wanted one ends the search.
    pub fn on_dialog(&mut self, wanted: i64, dialog: DialogPeer, peer: P) -> (r: Option<P>)
        ensures
            final(self)@.dom() == after_dialog(old(self)@.dom(), dialog),
            match dialog_id(dialog) {
                Some(id) => {
                    &&& final(self)@ == old(self)@.insert(id, final(self)@[id])
                    &&& cloned(peer, final(self)@[id])
                },
                None => final(self)@ == old(self)@,
            },
            r == (if dialog_id(dialog) == Some(wanted) {
                Some(peer)
            } else {
                None
            }),
    {
        let id = match dialog {
            DialogPeer::Channel(id) => id,
            DialogPeer::Group(id) => id,
            DialogPeer::User(id) => id,
            DialogPeer::Other => return None,
        };
        let kept = peer.clone();
        self.peers.insert(id, kept);
        assert(self@[id] == kept);
        assert(self@ == old(self)@.insert(id, self@[id]));
        if id == wanted {
            Some(peer)
        } else {
            None
        }
    }
}

/// The end of a search that found nothing.
pub fn peer_not_found(folder_id: i64) -> (r: String)
    ensures
        r@ == "Folder/Chat "@ + decimal_int(folder_id as int) + " not found"@,
{
    join3("Folder/Chat ", decimal_i64(folder_id).as_str(), " not found")
}

/// Which of the given conversations ends a search, if one does.
pub open spec fn search_ends_at(dialogs: Seq<DialogPeer>, wanted: i64) -> Option<nat>
    decreases dialogs.len(),
{
    if dialogs.len() == 0 {
        None
    } else if dialog_id(dialogs[0]) == Some(wanted) {
        Some(0)
    } else {
        match search_ends_at(dialogs.drop_first(), wanted) {
            Some(i) => Some(i + 1),
            None => None,
        }
    }
}

/// The numbers that are remembered when a search has gone through the given
/// conversations.
pub open spec fn remembered(known: Set<i64>, dialogs: Seq<DialogPeer>) -> Set<i64>
    decreases dialogs.len(),
{
    if dialogs.len() == 0 {
        known
    } else {
        remembered(after_dialog(known, dialogs[0]), dialogs.drop_first())
    }
}

proof fn lemma_remembered_grows(known: Set<i64>, dialogs: Seq<DialogPeer>, id: i64)
    requires
        known.contains(id),
    ensures
        remembered(known, dialogs).contains(id),
    decreases dialogs.len(),
{
    if dialogs.len() > 0 {
        lemma_remembered_grows(after_dialog(known, dialogs[0]), dialogs.drop_first(), id);
    }
}

/// A search ends with the first conversation that has the wanted number, and
/// finds it if and only if there is one; the number is then remembered, so
/// that the next search is not needed.
pub proof fn law_search_finds_the_first(
    known: Set<i64>,
    dialogs: Seq<DialogPeer>,
    wanted: i64,
)
    ensures
        search_ends_at(dialogs, wanted) is Some <==> exists|i: int|
            0 <= i < dialogs.len() && dialog_id(#[trigger] dialogs[i]) == Some(wanted),
        search_ends_at(dialogs, wanted) matches Some(n) ==> {
            &&& n < dialogs.len()
            &&& dialog_id(dialogs[n as int]) == Some(wanted)
            &&& forall|i: int|
                0 <= i < n ==> dialog_id(#[trigger] dialogs[i]) != Some(wanted)
            &&& remembered(known, dialogs.take((n + 1) as int)).contains(wanted)
        },
    decreases dialogs.len(),
{
    if dialogs.len() > 0 {
        let rest = dialogs.drop_first();
        let first = dialog_id(dialogs[0]);
        let later = after_dialog(known, dialogs[0]);
        law_search_finds_the_first(later, rest, wanted);
        if first == Some(wanted) {
            let head = dialogs.take(1);
            assert(head[0] == dialogs[0]);
            assert(head.drop_first() == Seq::<DialogPeer>::empty());
            lemma_remembered_grows(later, head.drop_first(), wanted);
        } else {
            assert forall|i: int|
                0 <= i < dialogs.len() && dialog_id(#[trigger] dialogs[i]) == Some(
                    wanted,
                ) implies search_ends_at(dialogs, wanted) is Some by {
                assert(rest[i - 1] == dialogs[i]);
            }
            match search_ends_at(rest, wanted) {
                Some(n) => {
                    assert(rest[n as int] == dialogs[(n + 1) as int]);
                    assert(dialogs.take((n + 2) as int).drop_first() == rest.take((n + 1) as int));
                    assert(dialogs.take((n + 2) as int)[0] == dialogs[0]);
                    assert forall|i: int| 0 <= i < n + 1 implies dialog_id(
                        #[trigger] dialogs[i],
                    ) != Some(wanted) by {
                        if i > 0 {
                            assert(rest[i - 1] == dialogs[i]);
                        }
                    }
                },
                None => {},
            }
        }
    }
}

/// A channel, a group and a person are each found under their own number,
/// whatever it is, and nothing else is found; a search remembers that number
/// of what it sees, and forgets none.
pub proof fn law_conversations_are_found_by_their_number(
    id: i64,
    known: Set<i64>,
    dialog: DialogPeer,
    other: i64,
)
    ensures
        dialog_id(DialogPeer::Channel(id)) == Some(id),
        dialog_id(DialogPeer::Group(id)) == Some(id),
        dialog_id(DialogPeer::User(id)) == Some(id),
        dialog_id(DialogPeer::Other) is None,
        after_dialog(known, dialog).contains(other) <==> known.contains(other) || dialog_id(dialog)
            == Some(other),
{
}

} // verus!
