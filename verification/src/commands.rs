//! The commands of the user.

use vstd::prelude::*;

use crate::text::{
    blank, chars_of, law_trimming, lemma_trimmed, same_text, text_of, trim_text, trimmed, trimmed_end, trimmed_start,
    white_space,
};

verus! {

/// A command.
#[derive(Debug)]
pub enum Command {
    /// List the files of other peers.
    Uploads,
    /// Start to share files.
    Share,
    /// Fetch the file with the given identifier.
    Get { hash: String },
    /// Fetch a file, without saying which.
    GetNothing,
    /// Leave the application.
    Quit,
    /// None of these.
    Unknown { text: String },
}

/// A `Command` as mathematical values.
pub enum CommandView {
    Uploads,
    Share,
    Get { hash: Seq<char> },
    GetNothing,
    Quit,
    Unknown { text: Seq<char> },
}

impl View for Command {
    type V = CommandView;

    open spec fn view(&self) -> CommandView {
        match self {
            Command::Uploads => CommandView::Uploads,
            Command::Share => CommandView::Share,
            Command::Get { hash } => CommandView::Get { hash: hash@ },
            Command::GetNothing => CommandView::GetNothing,
            Command::Quit => CommandView::Quit,
            Command::Unknown { text } => CommandView::Unknown { text: text@ },
        }
    }
}

/// The command that a text without white space around it stands for. Capital letters matter.
pub open spec fn command_of(text: Seq<char>) -> CommandView {
    if text == "!uploads"@ {
        CommandView::Uploads
    } else if text == "!share"@ {
        CommandView::Share
    } else if "!get "@.is_prefix_of(text) {
        let hash = trimmed(text.skip(5));
        if hash.len() == 0 {
            CommandView::GetNothing
        } else {
            CommandView::Get { hash }
        }
    } else if text == "exit"@ || text == "quit"@ {
        CommandView::Quit
    } else {
        CommandView::Unknown { text }
    }
}

/// Reads a command out of a text without white space around it.
pub fn parse_command(text: &str) -> (command: Command)
    ensures
        command@ == command_of(text@),
{
    if same_text(text, "!uploads") {
        return Command::Uploads;
    }
    if same_text(text, "!share") {
        return Command::Share;
    }
    let chars: Vec<char> = chars_of(text);
    proof {
        reveal_strlit("!get ");
    }
    if chars.len() >= 5 && chars[0] == '!' && chars[1] == 'g' && chars[2] == 'e' && chars[3] == 't'
        && chars[4] == ' ' {
        assert("!get "@.is_prefix_of(text@)) by {
            assert("!get "@ =~= text@.subrange(0, 5));
        }
        let rest: String = text_of(&chars, 5, chars.len());
        assert(rest@ == text@.skip(5));
        let hash: String = trim_text(rest.as_str());
        if hash.as_str().is_empty() {
            return Command::GetNothing;
        }
        return Command::Get { hash };
    }
    assert(!"!get "@.is_prefix_of(text@)) by {
        if "!get "@.is_prefix_of(text@) {
            assert("!get "@[0] == text@[0] && "!get "@[1] == text@[1] && "!get "@[2] == text@[2]
                && "!get "@[3] == text@[3] && "!get "@[4] == text@[4]);
        }
    }
    if same_text(text, "exit") || same_text(text, "quit") {
        return Command::Quit;
    }
    Command::Unknown { text: text.to_string() }
}

/// Reads a command out of a line that the user typed.
pub fn read_command(line: &str) -> (command: Command)
    ensures
        command@ == command_of(trimmed(line@)),
{
    let text: String = trim_text(line);
    parse_command(text.as_str())
}

proof fn lemma_trimmed_not_empty(s: Seq<char>)
    requires
        s.len() > 0,
        !white_space(s.last()),
    ensures
        trimmed(s).len() > 0,
{
    lemma_trimmed_start_keeps_last(s);
    let rest = trimmed_start(s);
    assert(trimmed_end(rest) == rest);
}

proof fn lemma_trimmed_start_keeps_last(s: Seq<char>)
    requires
        s.len() > 0,
        !white_space(s.last()),
    ensures
        trimmed_start(s).len() > 0,
        trimmed_start(s).last() == s.last(),
    decreases s.len(),
{
    if white_space(s[0]) {
        lemma_trimmed_start_keeps_last(s.drop_first());
    }
}

/// A typed line never comes out as a request for a file without an identifier: `!get` with
/// nothing but white space behind it is trimmed to `!get`, which is no command.
pub proof fn law_get_always_names_a_file(line: Seq<char>)
    ensures
        !(command_of(trimmed(line)) is GetNothing),
{
    let text = trimmed(line);
    reveal_strlit("!get ");
    reveal_strlit("!uploads");
    reveal_strlit("!share");
    if command_of(text) is GetNothing {
        lemma_trimmed(line);
        assert("!get "@[4] == text[4]);
        assert(white_space(text[4]));
        assert(text.len() > 5);
        let rest = text.skip(5);
        assert(rest.last() == text.last());
        lemma_trimmed_not_empty(rest);
    }
}

/// The identifier in a command has no white space around it and is not empty.
pub proof fn law_hash_is_trimmed(text: Seq<char>)
    ensures
        command_of(text) matches CommandView::Get { hash } ==> hash.len() > 0 && !white_space(
            hash[0],
        ) && !white_space(hash.last()),
{
    lemma_trimmed(text.skip(5));
}

/// What the application does about a command.
#[derive(Debug)]
pub enum SessionAction {
    /// List the files of other peers.
    ListUploads,
    /// Start to share files.
    StartSharing,
    /// Say that files are shared already.
    RefuseSharing,
    /// Fetch the file with the given identifier.
    Download { hash: String },
    /// Say how to ask for a file.
    ShowUsage,
    /// Leave the application.
    Leave,
    /// Say that the command is not known.
    Complain { text: String },
    /// Wait for the next command.
    Prompt,
}

/// A `SessionAction` as mathematical values.
pub enum SessionActionView {
    ListUploads,
    StartSharing,
    RefuseSharing,
    Download { hash: Seq<char> },
    ShowUsage,
    Leave,
    Complain { text: Seq<char> },
    Prompt,
}

impl View for SessionAction {
    type V = SessionActionView;

    open spec fn view(&self) -> SessionActionView {
        match self {
            SessionAction::ListUploads => SessionActionView::ListUploads,
            SessionAction::StartSharing => SessionActionView::StartSharing,
            SessionAction::RefuseSharing => SessionActionView::RefuseSharing,
            SessionAction::Download { hash } => SessionActionView::Download { hash: hash@ },
            SessionAction::ShowUsage => SessionActionView::ShowUsage,
            SessionAction::Leave => SessionActionView::Leave,
            SessionAction::Complain { text } => SessionActionView::Complain { text: text@ },
            SessionAction::Prompt => SessionActionView::Prompt,
        }
    }
}

/// What happens in a session.
#[derive(Debug)]
pub enum SessionEvent {
    /// The user typed a line.
    Typed { line: String },
    /// The attempt to share files is over.
    ShareAttempted { done: bool },
}

/// A `SessionEvent` as mathematical values.
pub enum SessionEventView {
    Typed { line: Seq<char> },
    ShareAttempted { done: bool },
}

impl View for SessionEvent {
    type V = SessionEventView;

    open spec fn view(&self) -> SessionEventView {
        match self {
            SessionEvent::Typed { line } => SessionEventView::Typed { line: line@ },
            SessionEvent::ShareAttempted { done } => SessionEventView::ShareAttempted {
                done: *done,
            },
        }
    }
}

/// What is said about a command that is not known.
pub open spec fn unknown_command_text(text: Seq<char>) -> Seq<char> {
    "Unknown command: "@ + text
}

/// One step of a session in which files are shared, or not.
pub open spec fn session_step(sharing: bool, event: SessionEventView) -> (bool, SessionActionView) {
    match event {
        SessionEventView::Typed { line } => (
            sharing,
            match command_of(trimmed(line)) {
                CommandView::Uploads => SessionActionView::ListUploads,
                CommandView::Share => if sharing {
                    SessionActionView::RefuseSharing
                } else {
                    SessionActionView::StartSharing
                },
                CommandView::Get { hash } => SessionActionView::Download { hash },
                CommandView::GetNothing => SessionActionView::ShowUsage,
                CommandView::Quit => SessionActionView::Leave,
                CommandView::Unknown { text } => SessionActionView::Complain {
                    text: unknown_command_text(text),
                },
            },
        ),
        SessionEventView::ShareAttempted { done } => (sharing || done, SessionActionView::Prompt),
    }
}

/// A session.
#[derive(Debug)]
pub struct Session {
    sharing: bool,
}

impl View for Session {
    type V = bool;

    /// Whether files are shared.
    closed spec fn view(&self) -> bool {
        self.sharing
    }
}

impl Session {
    /// A session in which no files are shared yet.
    pub fn new() -> (session: Self)
        ensures
            !session@,
    {
        Session { sharing: false }
    }

    /// Takes one step.
    pub fn step(&mut self, event: SessionEvent) -> (action: SessionAction)
        ensures
            (final(self)@, action@) == session_step(old(self)@, event@),
    {
        match event {
            SessionEvent::Typed { line } => match read_command(line.as_str()) {
                Command::Uploads => SessionAction::ListUploads,
                Command::Share => {
                    if self.sharing {
                        SessionAction::RefuseSharing
                    } else {
                        SessionAction::StartSharing
                    }
                },
                Command::Get { hash } => SessionAction::Download { hash },
                Command::GetNothing => SessionAction::ShowUsage,
                Command::Quit => SessionAction::Leave,
                Command::Unknown { text } => {
                    let mut complaint: String = "Unknown command: ".to_string();
                    complaint.append(text.as_str());
                    SessionAction::Complain { text: complaint }
                },
            },
            SessionEvent::ShareAttempted { done } => {
                if done {
                    self.sharing = true;
                }
                SessionAction::Prompt
            },
        }
    }
}

/// A session after `events`.
pub open spec fn session_run(sharing: bool, events: Seq<SessionEventView>) -> bool
    decreases events.len(),
{
    if events.len() == 0 {
        sharing
    } else {
        session_step(session_run(sharing, events.drop_last()), events.last()).0
    }
}

/// Sharing needs to be started only once: after it has been, whatever else happens, no command
/// starts it again.
pub proof fn law_sharing_starts_once(events: Seq<SessionEventView>, event: SessionEventView)
    ensures
        session_run(true, events),
        !(session_step(session_run(true, events), event).1 is StartSharing),
    decreases events.len(),
{
    if events.len() > 0 {
        law_sharing_starts_once(events.drop_last(), event);
    }
}

/// As long as no attempt to share has succeeded, the command to share starts another.
pub proof fn law_failed_sharing_can_be_retried(events: Seq<SessionEventView>, line: Seq<char>)
    requires
        forall|i: int|
            0 <= i < events.len() ==> #[trigger] events[i]
                != (SessionEventView::ShareAttempted { done: true }),
        command_of(trimmed(line)) is Share,
    ensures
        session_step(session_run(false, events), SessionEventView::Typed { line }).1
            is StartSharing,
    decreases events.len(),
{
    if events.len() > 0 {
        let before = events.drop_last();
        assert forall|i: int| 0 <= i < before.len() implies #[trigger] before[i]
            != (SessionEventView::ShareAttempted { done: true }) by {
            assert(before[i] == events[i]);
        }
        assert(events[events.len() - 1] == events.last());
        law_failed_sharing_can_be_retried(before, line);
    }
}

/// What a typed line does, except for `!share`, does not depend on whether files are shared; and
/// no line changes whether they are.
pub proof fn law_sharing_matters_only_for_share(line: Seq<char>)
    ensures
        trimmed(line) != "!share"@ ==> session_step(true, SessionEventView::Typed { line }).1
            == session_step(false, SessionEventView::Typed { line }).1,
        session_step(true, SessionEventView::Typed { line }).0,
        !session_step(false, SessionEventView::Typed { line }).0,
{
}

/// `!get` and an identifier, with white space around them or not, fetches the file with exactly
/// that identifier, whether files are shared or not.
pub proof fn law_get_fetches(
    sharing: bool,
    before: Seq<char>,
    gap: Seq<char>,
    hash: Seq<char>,
    after: Seq<char>,
)
    requires
        blank(before),
        blank(gap),
        blank(after),
        hash.len() > 0,
        !white_space(hash[0]),
        !white_space(hash.last()),
    ensures
        session_step(
            sharing,
            SessionEventView::Typed { line: before + ("!get "@ + gap + hash) + after },
        ) == (sharing, SessionActionView::Download { hash }),
{
    reveal_strlit("!get ");
    reveal_strlit("!uploads");
    reveal_strlit("!share");
    let core = "!get "@ + gap + hash;
    assert(core[0] == '!' && core[1] == 'g');
    assert(core.last() == hash.last());
    law_trimming(before, core, after);
    assert("!get "@.is_prefix_of(core)) by {
        assert("!get "@ =~= core.subrange(0, 5));
    }
    assert(core != "!uploads"@ && core != "!share"@) by {
        assert("!uploads"@[1] == 'u' && "!share"@[1] == 's');
    }
    let rest = core.skip(5);
    assert(rest =~= gap + hash + Seq::<char>::empty());
    law_trimming(gap, hash, Seq::empty());
}

/// Every command does its work wherever it is typed, with white space around it or not: the list,
/// the start of sharing once, and the two words for leaving.
pub proof fn law_commands_act(sharing: bool, before: Seq<char>, after: Seq<char>)
    requires
        blank(before),
        blank(after),
    ensures
        session_step(
            sharing,
            SessionEventView::Typed { line: before + "!uploads"@ + after },
        ).1 is ListUploads,
        session_step(sharing, SessionEventView::Typed { line: before + "!share"@ + after }).1
            == if sharing {
            SessionActionView::RefuseSharing
        } else {
            SessionActionView::StartSharing
        },
        session_step(sharing, SessionEventView::Typed { line: before + "exit"@ + after }).1
            is Leave,
        session_step(sharing, SessionEventView::Typed { line: before + "quit"@ + after }).1
            is Leave,
{
    reveal_strlit("!uploads");
    reveal_strlit("!share");
    reveal_strlit("!get ");
    reveal_strlit("exit");
    reveal_strlit("quit");
    law_trimming(before, "!uploads"@, after);
    law_trimming(before, "!share"@, after);
    law_trimming(before, "exit"@, after);
    law_trimming(before, "quit"@, after);
    assert("!uploads"@[1] != "!share"@[1]);
    assert("exit"@[0] != "!get "@[0] && "quit"@[0] != "!get "@[0]);
    assert("exit"@.len() == 4 && "quit"@.len() == 4 && "!share"@.len() == 6);
}

/// A line that is no command is named in the complaint, as it was typed but for the white space
/// around it.
pub proof fn law_other_lines_are_refused(sharing: bool, line: Seq<char>)
    requires
        trimmed(line) != "!uploads"@,
        trimmed(line) != "!share"@,
        trimmed(line) != "exit"@,
        trimmed(line) != "quit"@,
        !"!get "@.is_prefix_of(trimmed(line)),
    ensures
        session_step(sharing, SessionEventView::Typed { line }) == (
            sharing,
            SessionActionView::Complain { text: "Unknown command: "@ + trimmed(line) },
        ),
{
}

/// Files are shared from the first attempt on that succeeds, and not before.
pub proof fn law_sharing_follows_attempts(sharing: bool, done: bool)
    ensures
        session_step(sharing, SessionEventView::ShareAttempted { done }) == (
            sharing || done,
            SessionActionView::Prompt,
        ),
{
}

/// Commands, events and actions stand for all the text that they carry.
pub proof fn law_session_values_are_their_fields(text: String, done: bool)
    ensures
        (SessionEvent::Typed { line: text })@ == (SessionEventView::Typed { line: text@ }),
        (SessionEvent::ShareAttempted { done })@ == (SessionEventView::ShareAttempted { done }),
        (Command::Get { hash: text })@ == (CommandView::Get { hash: text@ }),
        (Command::Unknown { text })@ == (CommandView::Unknown { text: text@ }),
        (SessionAction::Download { hash: text })@ == (SessionActionView::Download { hash: text@ }),
        (SessionAction::Complain { text })@ == (SessionActionView::Complain { text: text@ }),
        Command::Uploads@ is Uploads && Command::Share@ is Share && Command::GetNothing@
            is GetNothing && Command::Quit@ is Quit,
        SessionAction::ListUploads@ is ListUploads && SessionAction::StartSharing@ is StartSharing
            && SessionAction::RefuseSharing@ is RefuseSharing && SessionAction::ShowUsage@
            is ShowUsage && SessionAction::Leave@ is Leave && SessionAction::Prompt@ is Prompt,
{
}

/// `!get` names the file by all that stands behind it but for white space around that; with
/// nothing but white space behind it, it names none.
pub proof fn law_get_reads_the_hash(gap: Seq<char>, hash: Seq<char>, after: Seq<char>)
    requires
        blank(gap),
        blank(after),
        hash.len() > 0,
        !white_space(hash[0]),
        !white_space(hash.last()),
    ensures
        command_of("!get "@ + (gap + hash + after)) == (CommandView::Get { hash }),
        command_of("!get "@ + gap) is GetNothing,
{
    reveal_strlit("!get ");
    reveal_strlit("!uploads");
    reveal_strlit("!share");
    let full = "!get "@ + (gap + hash + after);
    let short = "!get "@ + gap;
    assert(full[1] == 'g' && short[1] == 'g' && "!uploads"@[1] == 'u' && "!share"@[1] == 's');
    assert("!get "@ =~= full.subrange(0, 5));
    assert("!get "@ =~= short.subrange(0, 5));
    assert(full.skip(5) =~= gap + hash + after);
    law_trimming(gap, hash, after);
    assert(short.skip(5) =~= gap + Seq::<char>::empty() + Seq::<char>::empty());
    law_trimming(gap, Seq::empty(), Seq::empty());
}

} // verus!
