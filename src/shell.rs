//! The command shell's decisions: what a line of input means, and what the
//! shell does about it given the selected room and the directory.
use vstd::prelude::*;
use vstd::string::{StrSliceExecFns, StringExecFns};
use crate::content::{Content, normalized};
use crate::directory::{RoomDirectory, RoomHandle};
use crate::history::{MessageEvent, history_of, lemma_history_keeps_represented};

verus! {

/// The character that starts a command line.
pub const ROOM_PREFIX: char = '/';

/// One line of input, parsed.
pub enum Command {
    /// `/name`: select the room of that name.
    SelectRoom { name: String },
    /// Any line that does not start with the prefix: send it.
    SendMessage { body: String },
    /// The prefix alone: show the selected room's history.
    RequestHistory,
}

/// What the shell asks to be done after a line.
pub enum ShellAction {
    Nothing,
    /// Send `body` as a text message into `room`.
    Send { room: RoomHandle, body: String },
    /// Fetch the history of `room` older than the cursor token `before`.
    FetchHistory { room: RoomHandle, before: String },
}

/// The shell's state: the name of the selected room, if one was selected.
pub struct Shell {
    pub selected: Option<String>,
}

/// Whether a line selects a room.
pub open spec fn is_select(line: Seq<char>) -> bool {
    line.len() > 1 && line[0] == ROOM_PREFIX
}

/// Whether a line asks for history.
pub open spec fn is_history(line: Seq<char>) -> bool {
    line == seq![ROOM_PREFIX]
}

/// Whether a line is a message to send.
pub open spec fn is_send(line: Seq<char>) -> bool {
    !(line.len() > 0 && line[0] == ROOM_PREFIX)
}

/// The selected name after a line.
pub open spec fn selected_after(sel: Option<Seq<char>>, line: Seq<char>) -> Option<Seq<char>> {
    if is_select(line) {
        Some(line.subrange(1, line.len() as int))
    } else {
        sel
    }
}

/// The room that the selected name stands for in a directory, if any.
pub open spec fn target(sel: Option<Seq<char>>, dir: Map<Seq<char>, RoomHandle>) -> Option<RoomHandle> {
    match sel {
        Some(n) => if dir.contains_key(n) {
            Some(dir[n])
        } else {
            None
        },
        None => None,
    }
}

/// Reads one line of input as a command.
pub fn parse_command(line: &String) -> (r: Command)
    ensures
        is_select(line@) ==> r is SelectRoom && r->SelectRoom_name@ == line@.subrange(
            1,
            line@.len() as int,
        ),
        is_history(line@) ==> r is RequestHistory,
        is_send(line@) ==> r is SendMessage && r->SendMessage_body@ == line@,
        r is SelectRoom == is_select(line@),
        r is RequestHistory == is_history(line@),
        r is SendMessage == is_send(line@),
{
    let s = line.as_str();
    let n = s.unicode_len();
    if n > 0 && s.get_char(0) == ROOM_PREFIX {
        if n == 1 {
            assert(line@ =~= seq![ROOM_PREFIX]);
            Command::RequestHistory
        } else {
            Command::SelectRoom { name: String::from_str(s.substring_char(1, n)) }
        }
    } else {
        Command::SendMessage { body: line.clone() }
    }
}

impl Shell {
    /// A shell with no room selected.
    pub fn new() -> (r: Shell)
        ensures
            r.selected is None,
    {
        Shell { selected: None }
    }

    /// The selected name, as a value.
    pub open spec fn selected_view(&self) -> Option<Seq<char>> {
        match self.selected {
            Some(n) => Some(n@),
            None => None,
        }
    }

    /// Takes one line of input. A selection changes the selected name and
    /// does nothing else, whether or not the name is known. A message is
    /// sent, verbatim, into the selected room, and the prefix alone asks for
    /// that room's history before `cursor`; either is a silent no-op when no
    /// room is selected or the name does not resolve.
    pub fn handle_line(&mut self, dir: &RoomDirectory, line: &String, cursor: &String) -> (r:
        ShellAction)
        requires
            dir.wf(),
        ensures
            final(self).selected_view() == selected_after(old(self).selected_view(), line@),
            is_select(line@) ==> r is Nothing,
            is_send(line@) ==> match target(old(self).selected_view(), dir@) {
                Some(h) => r is Send && r->Send_room == h && r->Send_body@ == line@,
                None => r is Nothing,
            },
            is_history(line@) ==> match target(old(self).selected_view(), dir@) {
                Some(h) => r is FetchHistory && r->FetchHistory_room == h
                    && r->FetchHistory_before@ == cursor@,
                None => r is Nothing,
            },
    {
        match parse_command(line) {
            Command::SelectRoom { name } => {
                self.selected = Some(name);
                ShellAction::Nothing
            },
            Command::SendMessage { body } => match &self.selected {
                Some(n) => match dir.resolve(n) {
                    Some(h) => ShellAction::Send { room: h, body },
                    None => ShellAction::Nothing,
                },
                None => ShellAction::Nothing,
            },
            Command::RequestHistory => match &self.selected {
                Some(n) => match dir.resolve(n) {
                    Some(h) => ShellAction::FetchHistory { room: h, before: cursor.clone() },
                    None => ShellAction::Nothing,
                },
                None => ShellAction::Nothing,
            },
        }
    }
}

/// A message line sent into a room, followed by the prefix alone, asks for
/// the history of that same room; and any history chunk that holds the text
/// event the send made shows the message's body verbatim.
pub proof fn lemma_send_then_history(
    sel: Option<Seq<char>>,
    dir: Map<Seq<char>, RoomHandle>,
    body: Seq<char>,
    chunk: Seq<MessageEvent>,
    j: int,
)
    requires
        is_send(body),
        target(sel, dir) is Some,
        0 <= j < chunk.len(),
        chunk[j].content is Text,
        chunk[j].content->Text_body@ == body,
    ensures
        selected_after(sel, body) == sel,
        target(selected_after(sel, body), dir) == target(sel, dir),
        !is_select(seq![ROOM_PREFIX]) && !is_send(seq![ROOM_PREFIX]) && is_history(
            seq![ROOM_PREFIX],
        ),
        exists|i: int|
            0 <= i < history_of(chunk).len() && (#[trigger] history_of(chunk)[i]).2 == body,
{
    lemma_history_keeps_represented(chunk, j);
    let i = choose|i: int|
        0 <= i < history_of(chunk).len() && #[trigger] history_of(chunk)[i]
            == crate::history::normalized_event(chunk[j]);
    assert(normalized(chunk[j].content) == body);
    assert(history_of(chunk)[i].2 == body);
}

} // verus!
