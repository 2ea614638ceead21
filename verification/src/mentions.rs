//! What the bot answers when a message mentions it.

use rand::seq::SliceRandom;
use vstd::prelude::*;
use vstd::string::*;
use crate::emoji::{message_counted, EmojiUsage};
use crate::text::str_eq;

verus! {

/// The bot's answer when it is mentioned with nothing after the mention.
pub open spec fn pardon() -> Seq<char> {
    "parduuun?"@
}

/// The bot's answer to a proposal.
pub open spec fn refusal() -> Seq<char> {
    "AH↓HA↑HA↑HA↑HA↑ no peko"@
}

/// Whether the words after the mention propose to the bot.
pub open spec fn is_proposal(s: Seq<char>) -> bool {
    s == "marry me"@ || s == "will you be my wife?"@ || s == "will you be my waifu?"@
}

/// One of `options`, picked at random; `None` when there is none.
///
/// Calls `rand::seq::SliceRandom::choose` on the slice with the thread's
/// generator; its source returns `None` for an empty slice and otherwise an
/// element at an index drawn below the length. Which element comes back is
/// left unsaid: it rests on chance.
#[verifier::external_body]
fn choose_one(options: &[&'static str]) -> (r: Option<&'static str>)
    ensures
        r is None <==> options@.len() == 0,
        r matches Some(x) ==> options@.contains(x),
{
    options.choose(&mut rand::thread_rng()).copied()
}

pub open spec fn opt_str_view(o: Option<&str>) -> Option<Seq<char>> {
    match o {
        Some(s) => Some(s@),
        None => None,
    }
}

pub open spec fn opt_string_view(o: Option<String>) -> Option<Seq<char>> {
    match o {
        Some(s) => Some(s@),
        None => None,
    }
}

/// What the bot answers to a mention followed by `rest`.
pub open spec fn mention_answer(rest: Option<Seq<char>>, replying_to_own: Option<bool>) -> Option<
    Seq<char>,
> {
    match rest {
        None => if replying_to_own == Some(true) {
            None
        } else {
            Some(pardon())
        },
        Some(t) => if is_proposal(t) {
            Some(refusal())
        } else {
            None
        },
    }
}

/// The answer to a message that mentions the bot. `rest` is what follows the
/// mention (`None` when nothing does); `replying_to_own` tells, for a message
/// that answers another, whether that one is the bot's own. With nothing
/// after the mention the bot asks to be pardoned, unless the message answers
/// one of the bot's own; a proposal is refused; anything else gets no answer.
pub fn mention_reply(rest: Option<&str>, replying_to_own: Option<bool>) -> (r: Option<String>)
    ensures
        opt_string_view(r) == mention_answer(opt_str_view(rest), replying_to_own),
{
    match rest {
        None => {
            if replying_to_own == Some(true) {
                None
            } else {
                Some(String::from_str("parduuun?"))
            }
        },
        Some(t) => {
            if str_eq(t, "marry me") || str_eq(t, "will you be my wife?") || str_eq(
                t,
                "will you be my waifu?",
            ) {
                let options: Vec<&'static str> = vec!["AH↓HA↑HA↑HA↑HA↑ no peko"];
                assert(options@.len() == 1);
                match choose_one(options.as_slice()) {
                    Some(x) => {
                        assert(options@.contains(x));
                        Some(String::from_str(x))
                    },
                    None => None,
                }
            } else {
                None
            }
        },
    }
}

/// What the bot does with a message it sees. A bot's message is ignored
/// (`None`): nothing is counted and nothing answered. Another's emojis are
/// counted as `message_counted` says and, when it mentions the bot (with
/// the words after the mention and whether it answers one of the bot's own
/// messages), it is answered as `mention_answer` says.
pub fn handle_message(
    usage: &mut EmojiUsage,
    author_bot: bool,
    content: &str,
    mention: Option<(Option<&str>, Option<bool>)>,
) -> (r: Option<(Option<bool>, Option<String>)>)
    requires
        old(usage).wf(),
    ensures
        final(usage).wf(),
        author_bot ==> r is None && final(usage)@ == old(usage)@,
        !author_bot ==> (r matches Some((c, reply)) && (final(usage)@, c) == message_counted(
            old(usage)@,
            content@,
        ) && opt_string_view(reply) == match mention {
            None => None,
            Some((rest, own)) => mention_answer(opt_str_view(rest), own),
        }),
{
    if author_bot {
        return None;
    }
    let counted = usage.try_count_message(content);
    let reply = match mention {
        None => None,
        Some((rest, own)) => mention_reply(rest, own),
    };
    Some((counted, reply))
}

} // verus!
