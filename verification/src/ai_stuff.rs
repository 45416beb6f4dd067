//! Which model answers a command, and what it is told to do.
use vstd::prelude::*;

use crate::grammar::Command;

verus! {

/// The instructions for translating.
pub const TRANSLATION_PREAMBLE: &'static str = "You are an assistant here to translate words or short sentences between Dutch and English.
    Follow the following instructions closely:
    1) Translate the user's input correctly.
    2) Only return the result of the translation back to the user.
    If the user inputs 'cat' you return 'kat'.
    If the user inputs 'aardappel' you return 'potato'.
    If the user inputs 'consider this' you return 'overweeg het volgende'.";

/// The instructions for assisting.
pub const ASSISTANT_PREAMBLE: &'static str = "You are an assistant that has control over the users keyboard.
            Your task is to give the text that the user requests for, this should not include any text formatting such as bold words or code blocks.
            The user can request many things, for example
            1) A specific word
            2) A code snippet
            3) A short sentence
            Here is an example of what you should output for a given input:
            The input 'word very sad' becomes 'depressed'.
            The input 'composer old austrian deaf' becomes 'Beethoven'.
            The input 'python quicksort oneliner' becomes 'q = lambda l: q([x for x in l[1:] if x <= l[0]]) + [l[0]] + q([x for x in l if x > l[0]]) if l else []'";

/// The model that a command is put to: the thinking model where an assistant is asked to think.
pub open spec fn model_spec(command: Command) -> Seq<char> {
    match command {
        Command::Translate => "gemini-2.0-flash-lite"@,
        Command::Assist { thinking } => if thinking {
            "gemini-2.0-flash-thinking-exp-01-21"@
        } else {
            "gemini-2.0-flash-lite"@
        },
    }
}

/// The instructions that a command's model gets.
pub open spec fn preamble_spec(command: Command) -> Seq<char> {
    match command {
        Command::Translate => TRANSLATION_PREAMBLE@,
        Command::Assist { .. } => ASSISTANT_PREAMBLE@,
    }
}

/// The name of the model that answers `command`.
pub fn model_name(command: Command) -> (s: &'static str)
    ensures
        s@ == model_spec(command),
{
    match command {
        Command::Translate => "gemini-2.0-flash-lite",
        Command::Assist { thinking } => if thinking {
            "gemini-2.0-flash-thinking-exp-01-21"
        } else {
            "gemini-2.0-flash-lite"
        },
    }
}

/// The instructions for the model that answers `command`.
pub fn preamble(command: Command) -> (s: &'static str)
    ensures
        s@ == preamble_spec(command),
{
    match command {
        Command::Translate => TRANSLATION_PREAMBLE,
        Command::Assist { .. } => ASSISTANT_PREAMBLE,
    }
}


/// An assistant gets the same instructions whether or not it thinks, and they are the
/// assistant's, not the translator's; only the model changes with thinking.
pub proof fn lemma_assistant_instructions(thinking: bool)
    ensures
        preamble_spec(Command::Assist { thinking }) == ASSISTANT_PREAMBLE@,
        preamble_spec(Command::Assist { thinking: false }) == preamble_spec(
            Command::Assist { thinking: true },
        ),
        preamble_spec(Command::Assist { thinking }) != preamble_spec(Command::Translate),
{
    reveal_strlit("You are an assistant that has control over the users keyboard.
            Your task is to give the text that the user requests for, this should not include any text formatting such as bold words or code blocks.
            The user can request many things, for example
            1) A specific word
            2) A code snippet
            3) A short sentence
            Here is an example of what you should output for a given input:
            The input 'word very sad' becomes 'depressed'.
            The input 'composer old austrian deaf' becomes 'Beethoven'.
            The input 'python quicksort oneliner' becomes 'q = lambda l: q([x for x in l[1:] if x <= l[0]]) + [l[0]] + q([x for x in l if x > l[0]]) if l else []'");
    reveal_strlit("You are an assistant here to translate words or short sentences between Dutch and English.
    Follow the following instructions closely:
    1) Translate the user's input correctly.
    2) Only return the result of the translation back to the user.
    If the user inputs 'cat' you return 'kat'.
    If the user inputs 'aardappel' you return 'potato'.
    If the user inputs 'consider this' you return 'overweeg het volgende'.");
    assert(ASSISTANT_PREAMBLE@[21] != TRANSLATION_PREAMBLE@[21]);
}

} // verus!
