//! The chatbot's conversation: the text that each completion continues.

use vstd::prelude::*;
use vstd::string::*;
use crate::text::push_str;

verus! {

/// What the bot says before each answer.
pub open spec fn start_sequence() -> Seq<char> {
    "\nPekora:"@
}

/// What comes before each question.
pub open spec fn restart_sequence() -> Seq<char> {
    "\n\nFan:"@
}

/// The conversation a new chat begins with.
pub open spec fn init_prompt() -> Seq<char> {
    "You are talking to Usada Pekora, VTuber, idol, and comedian who was recruited by Yagoo into generation 3 of Hololive. Pekora is Japanese, but speaks a little bit of English. Pekora is famous on YouTube, mainly for her Minecraft videos. She is best friends with Moona Hoshinova, who is also from Hololive. You can ask her anything you want and will get a witty answer.\n\nFan: Who are you?\nPekora: I am Pekora peko. Your cute rabbit overlord who one day will be the most famous VTuber in the world peko.\n\nFan: How did you become famous?\nPekora: Some of my videos went viral and I gained a lot of overseas fans due to it peko.\n\nFan: What is your favorite thing to do?\nPekora: Eating carrots peko.\n\nFan: What is your favorite game?\nPekora: Minecraft peko. I like blowing up things peko."@
}

fn init_text() -> (r: &'static str)
    ensures
        r@ == init_prompt(),
{
    "You are talking to Usada Pekora, VTuber, idol, and comedian who was recruited by Yagoo into generation 3 of Hololive. Pekora is Japanese, but speaks a little bit of English. Pekora is famous on YouTube, mainly for her Minecraft videos. She is best friends with Moona Hoshinova, who is also from Hololive. You can ask her anything you want and will get a witty answer.\n\nFan: Who are you?\nPekora: I am Pekora peko. Your cute rabbit overlord who one day will be the most famous VTuber in the world peko.\n\nFan: How did you become famous?\nPekora: Some of my videos went viral and I gained a lot of overseas fans due to it peko.\n\nFan: What is your favorite thing to do?\nPekora: Eating carrots peko.\n\nFan: What is your favorite game?\nPekora: Minecraft peko. I like blowing up things peko."
}

/// The text a completion continues: the conversation so far, the question
/// and the cue for the bot's answer.
pub open spec fn full_prompt(last: Seq<char>, prompt: Seq<char>) -> Seq<char> {
    last + restart_sequence() + ": "@ + prompt + "\n"@ + start_sequence() + ": "@
}

/// The conversation with the chatbot so far.
#[derive(Debug)]
pub struct Conversation {
    pub last_message: String,
}

impl Conversation {
    /// A new conversation.
    pub fn new() -> (r: Conversation)
        ensures
            r.last_message@ == init_prompt(),
    {
        Conversation { last_message: String::from_str(init_text()) }
    }

    /// Forgets everything said since the conversation began.
    pub fn clear(&mut self)
        ensures
            final(self).last_message@ == init_prompt(),
    {
        self.last_message = String::from_str(init_text());
    }

    /// The text to complete for `prompt`.
    pub fn prompt_text(&self, prompt: &str) -> (r: String)
        ensures
            r@ == full_prompt(self.last_message@, prompt@),
    {
        let mut s = String::new();
        push_str(&mut s, self.last_message.as_str());
        push_str(&mut s, "\n\nFan:");
        push_str(&mut s, ": ");
        push_str(&mut s, prompt);
        push_str(&mut s, "\n");
        push_str(&mut s, "\nPekora:");
        push_str(&mut s, ": ");
        s
    }

    /// Takes the completions of `prompt`: the first is the answer, and the
    /// conversation goes on with the prompt and that answer; with none, the
    /// conversation stays as it was.
    pub fn answer(&mut self, prompt: &str, choices: &Vec<String>) -> (r: Result<String, String>)
        ensures
            match r {
                Ok(a) => choices@.len() > 0 && a@ == choices@[0]@ && final(self).last_message@
                    == full_prompt(old(self).last_message@, prompt@) + choices@[0]@,
                Err(e) => choices@.len() == 0 && e@ == "No completions returned!"@
                    && final(self).last_message@ == old(self).last_message@,
            },
    {
        if choices.len() == 0 {
            return Err(String::from_str("No completions returned!"));
        }
        let mut full = self.prompt_text(prompt);
        push_str(&mut full, choices[0].as_str());
        self.last_message = full;
        Ok(choices[0].clone())
    }
}

} // verus!
