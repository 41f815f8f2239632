//! What the user can say in a dialog.

use vstd::prelude::*;
use crate::agent::message::{fresh_conversation, Conversation, MessageView, SYSTEM_PROMPT};
use crate::text::{
    ascii_lowered, is_white_space, join, join_texts, same_ignoring_case, texts, trim_text, trimmed,
    trimming_what_is_trim, what_trimming_leaves,
};

verus! {

pub const OPENROUTER_CHAT_COMPLETIONS_URL: &'static str = "https://openrouter.ai/api/v1/chat/completions";

pub const DEFAULT_MODEL: &'static str = "openrouter/auto";

pub const DEFAULT_MAX_TOOL_ROUNDS: usize = 8;

/// The commands of a dialog.
pub const DIALOG_HELP: &'static str = "Commands:\n  /help   Show this help\n  /clear  Clear conversation context\n  /exit   Quit";

/// What the user wants.
#[derive(Debug)]
pub enum DialogCommand {
    Exit,
    Help,
    Clear,
    Nothing,
    Prompt(String),
}

/// The contents of a `DialogCommand`.
pub enum CommandView {
    Exit,
    Help,
    Clear,
    Nothing,
    Prompt(Seq<char>),
}

impl View for DialogCommand {
    type V = CommandView;

    open spec fn view(&self) -> CommandView {
        match *self {
            DialogCommand::Exit => CommandView::Exit,
            DialogCommand::Help => CommandView::Help,
            DialogCommand::Clear => CommandView::Clear,
            DialogCommand::Nothing => CommandView::Nothing,
            DialogCommand::Prompt(text) => CommandView::Prompt(text@),
        }
    }
}

/// Whether two texts are the same but for the case of ASCII letters.
pub open spec fn same_word(a: Seq<char>, b: Seq<char>) -> bool {
    ascii_lowered(a) == ascii_lowered(b)
}

/// What a line of the user means, white space around it aside.
pub open spec fn command_of(line: Seq<char>) -> CommandView {
    let said = trimmed(line);
    if same_word(said, "exit"@) || same_word(said, "quit"@) || same_word(said, "/exit"@)
        || same_word(said, "/quit"@) {
        CommandView::Exit
    } else if same_word(said, "/help"@) || same_word(said, "help"@) {
        CommandView::Help
    } else if same_word(said, "/clear"@) {
        CommandView::Clear
    } else if said.len() == 0 {
        CommandView::Nothing
    } else {
        CommandView::Prompt(said)
    }
}

/// What a line of the user means.
pub fn read_command(line: &str) -> (r: DialogCommand)
    ensures
        r@ == command_of(line@),
{
    let text = trim_text(line);
    let said = text.as_str();
    if same_ignoring_case(said, "exit") || same_ignoring_case(said, "quit") || same_ignoring_case(
        said,
        "/exit",
    ) || same_ignoring_case(said, "/quit") {
        return DialogCommand::Exit;
    }
    if same_ignoring_case(said, "/help") || same_ignoring_case(said, "help") {
        return DialogCommand::Help;
    }
    if same_ignoring_case(said, "/clear") {
        return DialogCommand::Clear;
    }
    if said.is_empty() {
        return DialogCommand::Nothing;
    }
    DialogCommand::Prompt(text)
}

/// What to do after a line of the user.
#[derive(Debug)]
pub enum DialogAction {
    Quit,
    ShowHelp,
    /// The conversation was forgotten.
    TellCleared,
    Ignore,
    /// Run the turn that was opened; the number of messages before it.
    RunTurn(usize),
}

/// The conversation after a line of the user, or after the end of the input.
pub open spec fn heard(messages: Seq<MessageView>, line: Option<Seq<char>>) -> Seq<MessageView> {
    match line {
        None => messages,
        Some(text) => match command_of(text) {
            CommandView::Clear => fresh_conversation(),
            CommandView::Prompt(prompt) => messages.push(MessageView::User(prompt)),
            _ => messages,
        },
    }
}

/// Takes a line of the user in, or the end of the input, which ends the dialog.
pub fn hear(conversation: &mut Conversation, line: Option<&str>) -> (r: DialogAction)
    ensures
        match line {
            None => r is Quit && final(conversation)@ == heard(old(conversation)@, None),
            Some(text) => {
                &&& final(conversation)@ == heard(old(conversation)@, Some(text@))
                &&& match command_of(text@) {
                    CommandView::Exit => r is Quit,
                    CommandView::Help => r is ShowHelp,
                    CommandView::Clear => r is TellCleared,
                    CommandView::Nothing => r is Ignore,
                    CommandView::Prompt(_) => r == DialogAction::RunTurn(
                        old(conversation)@.len() as usize,
                    ) && old(conversation)@.len() <= usize::MAX,
                }
            },
        },
{
    let text = match line {
        Some(text) => text,
        None => return DialogAction::Quit,
    };
    match read_command(text) {
        DialogCommand::Exit => DialogAction::Quit,
        DialogCommand::Help => DialogAction::ShowHelp,
        DialogCommand::Clear => {
            conversation.reset_conversation();
            DialogAction::TellCleared
        },
        DialogCommand::Nothing => DialogAction::Ignore,
        DialogCommand::Prompt(prompt) => {
            DialogAction::RunTurn(conversation.open_turn(prompt.as_str()))
        },
    }
}

/// How the agent is used.
#[derive(Debug)]
pub enum Mode {
    /// A dialog, with a first prompt where one is given.
    Dialog(Option<String>),
    /// One prompt and its answer.
    OneShot(String),
}

/// How the agent is used, by whether a dialog is asked for and the words of the prompt.
pub fn choose_mode(chat: bool, prompt: &Vec<String>) -> (r: Mode)
    ensures
        match r {
            Mode::Dialog(None) => prompt@.len() == 0,
            Mode::Dialog(Some(first)) => chat && prompt@.len() > 0 && first@ == join(
                texts(prompt@),
                seq![' '],
            ),
            Mode::OneShot(text) => !chat && prompt@.len() > 0 && text@ == join(
                texts(prompt@),
                seq![' '],
            ),
        },
{
    if prompt.len() == 0 {
        return Mode::Dialog(None);
    }
    proof {
        reveal_strlit(" ");
        assert(" "@ == seq![' ']);
    }
    let text = join_texts(prompt, " ");
    if chat {
        Mode::Dialog(Some(text))
    } else {
        Mode::OneShot(text)
    }
}

/// A line is a command by its words alone: neither their case nor white space around them
/// counts. A line of white space says nothing, and any other line is a prompt, in the user's
/// own words.
pub proof fn what_is_a_command(line: Seq<char>)
    ensures
        ({
            let said = ascii_lowered(trimmed(line));
            let exit = said == "exit"@ || said == "quit"@ || said == "/exit"@ || said == "/quit"@;
            let help = said == "help"@ || said == "/help"@;
            let clear = said == "/clear"@;
            &&& exit <==> command_of(line) is Exit
            &&& help <==> command_of(line) is Help
            &&& clear <==> command_of(line) is Clear
            &&& said.len() == 0 <==> command_of(line) is Nothing
            &&& !exit && !help && !clear && said.len() > 0 ==> command_of(line)
                == CommandView::Prompt(trimmed(line))
        }),
{
    reveal_strlit("exit");
    reveal_strlit("quit");
    reveal_strlit("/exit");
    reveal_strlit("/quit");
    reveal_strlit("help");
    reveal_strlit("/help");
    reveal_strlit("/clear");
    assert(ascii_lowered("exit"@) == "exit"@);
    assert(ascii_lowered("quit"@) == "quit"@);
    assert(ascii_lowered("/exit"@) == "/exit"@);
    assert(ascii_lowered("/quit"@) == "/quit"@);
    assert(ascii_lowered("help"@) == "help"@);
    assert(ascii_lowered("/help"@) == "/help"@);
    assert(ascii_lowered("/clear"@) == "/clear"@);
    assert("exit"@[0] == 'e' && "quit"@[0] == 'q' && "help"@[0] == 'h');
    assert("/exit"@[1] == 'e' && "/quit"@[1] == 'q' && "/help"@[1] == 'h' && "/clear"@[1] == 'c');
    assert("/exit"@[0] == '/' && "/quit"@[0] == '/' && "/help"@[0] == '/' && "/clear"@[0] == '/');
}

/// White space around a line changes nothing of what it means.
pub proof fn white_space_says_nothing(lead: Seq<char>, said: Seq<char>, trail: Seq<char>)
    requires
        forall|i: int| 0 <= i < lead.len() ==> is_white_space(#[trigger] lead[i]),
        forall|i: int| 0 <= i < trail.len() ==> is_white_space(#[trigger] trail[i]),
        said.len() > 0 ==> !is_white_space(said[0]) && !is_white_space(said.last()),
    ensures
        command_of(lead + said + trail) == command_of(said),
        command_of(said) matches CommandView::Prompt(prompt) ==> prompt == said,
{
    what_trimming_leaves(lead, said, trail);
    trimming_what_is_trim(said);
}

/// A prompt is added to what was said before; clearing leaves only what the model is told
/// about its task; nothing else changes the conversation.
pub proof fn what_a_line_changes(messages: Seq<MessageView>, line: Seq<char>)
    ensures
        heard(messages, None) == messages,
        command_of(line) matches CommandView::Prompt(prompt) ==> {
            let after = heard(messages, Some(line));
            &&& after.len() == messages.len() + 1
            &&& after.drop_last() == messages
            &&& after.last() == MessageView::User(prompt)
        },
        command_of(line) is Clear ==> heard(messages, Some(line)) == seq![
            MessageView::System(SYSTEM_PROMPT@),
        ],
        command_of(line) is Exit || command_of(line) is Help || command_of(line) is Nothing
            ==> heard(messages, Some(line)) == messages,
{
    if let CommandView::Prompt(prompt) = command_of(line) {
        assert(messages.push(MessageView::User(prompt)).drop_last() == messages);
    }
}

} // verus!
