//! Chat: a bounded history of the most recent messages, in arrival order.

use vstd::prelude::*;
use std::collections::VecDeque;
use crate::common::Id;

verus! {

/// How many messages the history keeps.
pub const CHAT_HISTORY_LEN: usize = 10;

/// Longest chat message accepted, in bytes.
pub const MAX_CHAT_MESSAGE_LENGTH: usize = 50;

/// One chat line, carried as UTF-8 bytes.
#[derive(Clone, Debug, PartialEq, Eq)]
pub struct ChatMessage {
    pub message: Vec<u8>,
}

impl ChatMessage {
    /// Encodable on the wire: the length fits the count field.
    pub open spec fn wf(self) -> bool {
        self.message@.len() < 65536
    }
}

/// The chat window's backing state: the kept messages in arrival order,
/// oldest kept entry at the front.
pub struct Chat {
    pub chat_history: VecDeque<(Id, ChatMessage)>,
}

impl Chat {
    /// The history never outgrows its bound.
    pub open spec fn wf(self) -> bool {
        self.chat_history@.len() <= CHAT_HISTORY_LEN
    }

    /// An empty history.
    pub fn new() -> (r: Chat)
        ensures
            r.wf(),
            r.chat_history@ == Seq::<(Id, ChatMessage)>::empty(),
    {
        Chat { chat_history: VecDeque::new() }
    }
}

/// Replace the history with the arriving lines, draining the supply:
/// the lines that fit the window survive, in their arriving order,
/// the overflow of newer lines falling out as each older one arrives.
pub fn add_chat_message(messages: &mut Vec<(Id, ChatMessage)>, chat: &mut Chat)
    ensures
        final(messages)@ == Seq::<(Id, ChatMessage)>::empty(),
        final(chat).chat_history@ == old(messages)@.take(
            spec_taken(old(messages)@.len() as nat) as int,
        ),
        final(chat).wf(),
{
    let ghost ms = old(messages)@;
    chat.chat_history.clear();
    proof {
        assert(ms.take(ms.len() as int) =~= ms);
        assert(ms.subrange(ms.len() as int, ms.len() as int) =~= Seq::<(
            Id,
            ChatMessage,
        )>::empty());
    }
    while messages.len() > 0
        invariant
            messages@.len() <= ms.len(),
            messages@ == ms.take(messages@.len() as int),
            chat.chat_history@ == ms.subrange(
                messages@.len() as int,
                messages@.len() + spec_taken((ms.len() - messages@.len()) as nat) as int,
            ),
            chat.chat_history@.len() == spec_taken((ms.len() - messages@.len()) as nat),
        decreases messages@.len(),
    {
        let ghost lbefore = messages@.len() as int;
        let ghost kept = spec_taken((ms.len() - lbefore) as nat) as int;
        proof {
            assert(1 <= lbefore <= ms.len());
            assert(0 <= kept <= ms.len() - lbefore);
        }
        if chat.chat_history.len() >= CHAT_HISTORY_LEN {
            let _evicted = chat.chat_history.pop_back();
            proof {
                assert(chat.chat_history@ =~= ms.subrange(lbefore, lbefore + kept - 1));
            }
        }
        let m = messages.pop().unwrap();
        proof {
            assert(m == ms.take(lbefore)[lbefore - 1]);
            assert(m == ms[lbefore - 1]);
            assert(messages@ =~= ms.take(lbefore - 1));
        }
        chat.chat_history.push_front(m);
        proof {
            if kept >= CHAT_HISTORY_LEN {
                assert(chat.chat_history@ =~= ms.subrange(lbefore - 1, lbefore + kept - 1));
            } else {
                assert(chat.chat_history@ =~= ms.subrange(lbefore - 1, lbefore + kept));
            }
            assert(chat.chat_history@ =~= ms.subrange(
                messages@.len() as int,
                messages@.len() + spec_taken((ms.len() - messages@.len()) as nat) as int,
            ));
        }
    }
    proof {
        assert(chat.chat_history@ =~= ms.take(spec_taken(ms.len() as nat) as int));
    }
}

/// How many lines a supply of `n` leaves in the refilled history.
pub open spec fn spec_taken(n: nat) -> nat {
    if n <= CHAT_HISTORY_LEN {
        n
    } else {
        CHAT_HISTORY_LEN as nat
    }
}


/// A history with one entry appended, the oldest entry leaving when
/// the bound is passed.
pub open spec fn spec_history_append(
    h: Seq<(Id, ChatMessage)>,
    entry: (Id, ChatMessage),
) -> Seq<(Id, ChatMessage)> {
    let grown = h.push(entry);
    if grown.len() > CHAT_HISTORY_LEN {
        grown.drop_first()
    } else {
        grown
    }
}

/// Append one arriving line to the history, evicting the oldest once
/// the bound is reached.
pub fn server_add_chat_message(entry: (Id, ChatMessage), chat: &mut Chat)
    requires
        old(chat).wf(),
    ensures
        final(chat).wf(),
        final(chat).chat_history@ == spec_history_append(old(chat).chat_history@, entry),
{
    chat.chat_history.push_back(entry);
    if chat.chat_history.len() > CHAT_HISTORY_LEN {
        let _dropped = chat.chat_history.pop_front();
        proof {
            assert(chat.chat_history@ =~= old(chat).chat_history@.push(entry).drop_first());
        }
    }
}

} // verus!
