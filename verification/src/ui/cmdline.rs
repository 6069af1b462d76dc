//! The command line of the viewer: what it holds and what its messages do.

use vstd::prelude::*;

use crate::ui::app::{Message, Task};
use crate::ui::viewer::DocumentMessage;

verus! {

/// What a command asks for.
#[derive(Debug, PartialEq)]
pub enum Action {
    Quit,
    /// Open the document at this path.
    Open(String),
    ShowErrors,
    ShowInfo,
    /// Show the page with this number, counted from 1.
    SetPage(usize),
}

/// What the command line is told.
#[derive(Debug, PartialEq)]
pub enum CmdlineMessage {
    /// A command was understood: carry it out.
    Action(Action),
    /// The command was entered.
    OnCommandSubmit,
    /// The text of the command line changed.
    OnCommandInput(String),
    /// The command line takes the keyboard focus.
    FocusInput,
}

/// The text typed on the command line.
#[derive(Debug, PartialEq)]
pub struct Cmdline {
    cmd: String,
}

impl View for Cmdline {
    type V = Seq<char>;

    closed spec fn view(&self) -> Seq<char> {
        self.cmd@
    }
}

impl Default for Cmdline {
    /// An empty command line.
    fn default() -> (r: Cmdline)
        ensures
            r@ == Seq::<char>::empty(),
    {
        Cmdline { cmd: String::new() }
    }
}

/// The message that carries out `action`.
pub open spec fn action_message(action: Action) -> Message {
    match action {
        Action::Quit => Message::Quit,
        Action::Open(path) => Message::OpenFile(Some(path)),
        Action::ShowErrors => Message::ShowErrors,
        Action::ShowInfo => Message::ShowInfo,
        Action::SetPage(n) => Message::Document(DocumentMessage::SetPageNumber(n)),
    }
}

/// The command line holding `old` is told `msg`: it then holds `new`, and
/// `task` is what is to be done.
pub open spec fn cmdline_step(old: Seq<char>, msg: CmdlineMessage, new: Seq<char>, task: Task) -> bool {
    match msg {
        CmdlineMessage::Action(action) => new == old && task == Task::Send(action_message(action)),
        CmdlineMessage::OnCommandInput(cmd) => if cmd@.len() == 0 {
            new == old && task == Task::Send(Message::CleanScreen)
        } else {
            new == cmd@ && task == Task::Nothing
        },
        CmdlineMessage::OnCommandSubmit => new == old && (task matches Task::Batch(ts) && ts@.len()
            == 2 && (ts@[0] matches Task::ParseCommand(c) && c@ == old) && ts@[1] == Task::Send(
            Message::CleanScreen,
        )),
        CmdlineMessage::FocusInput => new == ":"@ && task == Task::FocusCommandInput,
    }
}

impl Cmdline {
    /// Applies `message`: an understood command becomes the message that
    /// carries it out; an emptied command line cleans the screen, other
    /// text is kept; an entered command is parsed, and the screen cleaned;
    /// taking the focus starts the line with `:`.
    pub fn update(&mut self, message: CmdlineMessage) -> (r: Task)
        ensures
            cmdline_step(old(self)@, message, final(self)@, r),
    {
        match message {
            CmdlineMessage::Action(action) => match action {
                Action::Quit => Task::Send(Message::Quit),
                Action::Open(filepath) => Task::Send(Message::OpenFile(Some(filepath))),
                Action::ShowErrors => Task::Send(Message::ShowErrors),
                Action::ShowInfo => Task::Send(Message::ShowInfo),
                Action::SetPage(number) => Task::Send(
                    Message::Document(DocumentMessage::SetPageNumber(number)),
                ),
            },
            CmdlineMessage::OnCommandInput(cmd) => {
                if cmd.as_str().is_empty() {
                    return Task::Send(Message::CleanScreen);
                }
                self.cmd = cmd;
                Task::Nothing
            },
            CmdlineMessage::OnCommandSubmit => {
                let parse = Task::ParseCommand(self.cmd.clone());
                let tasks = vec![parse, Task::Send(Message::CleanScreen)];
                Task::Batch(tasks)
            },
            CmdlineMessage::FocusInput => {
                self.cmd = ":".to_owned();
                Task::FocusCommandInput
            },
        }
    }

    /// The task that gives the command line the keyboard focus.
    pub fn focus(&self) -> (r: Task)
        ensures
            r == Task::Send(Message::CmdLine(CmdlineMessage::FocusInput)),
    {
        Task::Send(Message::CmdLine(CmdlineMessage::FocusInput))
    }
}

} // verus!
