//! The viewer as a whole: the open document, the command line, the popup,
//! the line of messages and the errors met, and what each message does to
//! them.

use vstd::prelude::*;

use crate::ui::cmdline::{cmdline_step, Cmdline, CmdlineMessage};
use crate::ui::viewer::{next_index, Document, DocumentMessage, DocumentModel, Key};

verus! {

/// What the viewer is told.
#[derive(Debug, PartialEq)]
pub enum Message {
    CmdLine(CmdlineMessage),
    Document(DocumentMessage),
    /// Open the document at this path, or ask the user for one.
    OpenFile(Option<String>),
    /// A document was read.
    DocumentReady(Document),
    /// Use the colour theme of this name.
    SetTheme(String),
    Quit,
    ShowErrors,
    ShowInfo,
    ShowCmdline,
    CleanScreen,
    /// Something failed, as this text says.
    ErrorOccurred(String),
}

/// What the viewer is to do after a message.
#[derive(Debug, PartialEq)]
pub enum Task {
    Nothing,
    /// Handle this message next.
    Send(Message),
    /// Do these tasks.
    Batch(Vec<Task>),
    /// Parse this command; handle the action it names, or report the error.
    ParseCommand(String),
    /// Give the command line the keyboard focus.
    FocusCommandInput,
    /// Give the keyboard focus back to what had it before.
    FocusPrevious,
    /// Read the document at this path; it arrives as `DocumentReady`, or
    /// the failure as `ErrorOccurred`.
    ReadDocument(String),
    /// Ask the user for a document and read it.
    ChooseDocument,
    /// Close the viewer.
    Exit,
}

/// The window shown over the document, if any.
#[derive(Debug, Clone, Copy, PartialEq, Eq, Structural)]
pub enum Popup {
    Hidden,
    Info,
    Errors,
}

/// The line under the document.
#[derive(Debug, PartialEq)]
pub enum ActionArea {
    Empty,
    /// A notice.
    Info(String),
    /// The text of the last error.
    Error(String),
    /// The command line.
    Cmdline,
}

/// The state of the viewer.
#[derive(Debug, PartialEq)]
pub struct App {
    pub document: Option<Document>,
    pub cmdline: Cmdline,
    pub popup: Popup,
    pub action_area: ActionArea,
    pub theme: Option<String>,
    /// The errors met since the document was opened, oldest first.
    pub errors: Vec<String>,
}

/// The viewer in state `old` is told `msg`: it is then in state `new`, and
/// `task` is what is to be done.
pub open spec fn app_step(old: App, msg: Message, new: App, task: Task) -> bool {
    match msg {
        Message::CmdLine(m) => cmdline_step(old.cmdline@, m, new.cmdline@, task) && new == (App {
            cmdline: new.cmdline,
            ..old
        }),
        Message::Document(m) => task == Task::Nothing && match old.document {
            Some(d) => (new.document matches Some(e) && e@ == (DocumentModel {
                index: next_index(d@, m),
                mode: match m {
                    DocumentMessage::ChangeView(v) => v,
                    _ => d@.mode,
                },
                ..d@
            })) && new == (App {
                document: new.document,
                ..old
            }),
            None => new == old,
        },
        Message::OpenFile(Some(path)) => new == old && task == Task::ReadDocument(path),
        Message::OpenFile(None) => new == old && task == Task::ChooseDocument,
        Message::DocumentReady(doc) => task == Task::Nothing && new.errors@.len() == 0 && new == (
        App { document: Some(doc), errors: new.errors, ..old }),
        Message::Quit => new == old && task == Task::Exit,
        Message::ShowErrors => task == Task::FocusPrevious && if old.errors@.len() > 0 {
            new == (App { popup: Popup::Errors, ..old })
        } else {
            (new.action_area matches ActionArea::Info(t) && t@ == "No errors"@) && new == (App {
                action_area: new.action_area,
                ..old
            })
        },
        Message::ShowInfo => task == Task::FocusPrevious && new == (App { popup: Popup::Info, ..old }),
        Message::ShowCmdline => task == Task::Send(Message::CmdLine(CmdlineMessage::FocusInput))
            && new == (App { action_area: ActionArea::Cmdline, ..old }),
        Message::ErrorOccurred(e) => task == Task::Nothing && (new.action_area matches ActionArea::Error(
            t,
        ) && t@ == e@) && new.errors@ == old.errors@.push(e) && new == (App {
            action_area: new.action_area,
            errors: new.errors,
            ..old
        }),
        Message::CleanScreen => task == Task::FocusPrevious && new == (App {
            popup: Popup::Hidden,
            action_area: ActionArea::Empty,
            ..old
        }),
        Message::SetTheme(t) => task == Task::Nothing && new == (App { theme: Some(t), ..old }),
    }
}

/// A document may be moved to its next page only when it has pages.
pub open spec fn can_apply(app: App, msg: Message) -> bool {
    msg matches Message::Document(DocumentMessage::NextPage) ==> match app.document {
        Some(d) => d@.page_count > 0,
        None => true,
    }
}

impl App {
    /// The viewer when it starts: the document that was read, if any, or
    /// no document and the error that reading it gave, to be reported.
    pub fn boot(file: Result<Option<Document>, String>) -> (r: (App, Task))
        ensures
            r.0.cmdline@ == Seq::<char>::empty(),
            r.0.popup == Popup::Hidden,
            r.0.action_area == ActionArea::Empty,
            r.0.errors@.len() == 0,
            r.0.theme matches Some(t) && t@ == "Nord"@,
            match file {
                Ok(d) => r.0.document == d && r.1 == Task::Nothing,
                Err(e) => r.0.document is None && r.1 == Task::Send(Message::ErrorOccurred(e)),
            },
    {
        let (document, task) = match file {
            Ok(d) => (d, Task::Nothing),
            Err(e) => (None, Task::Send(Message::ErrorOccurred(e))),
        };
        (
            App {
                document,
                cmdline: Cmdline::default(),
                popup: Popup::Hidden,
                action_area: ActionArea::Empty,
                theme: Some("Nord".to_owned()),
                errors: Vec::new(),
            },
            task,
        )
    }

    /// The window title: that of the document, or `DocV` when none is open.
    pub fn title(&self) -> (r: String)
        ensures
            match self.document {
                Some(d) => r@ == d@.title,
                None => r@ == "DocV"@,
            },
    {
        match &self.document {
            Some(doc) => doc.title().to_owned(),
            None => "DocV".to_owned(),
        }
    }

    /// The colour theme.
    pub fn theme(&self) -> (r: Option<String>)
        ensures
            r == self.theme,
    {
        match &self.theme {
            Some(t) => Some(t.clone()),
            None => None,
        }
    }

    /// Applies `msg` and says what is to be done: command-line and document
    /// messages go to them; opening reads the named document or asks for
    /// one; a new document replaces the old and clears the errors; an error
    /// is shown and kept; the screen is cleaned of the popup and the line
    /// of messages.
    pub fn update(&mut self, msg: Message) -> (r: Task)
        requires
            can_apply(*old(self), msg),
        ensures
            app_step(*old(self), msg, *final(self), r),
    {
        match msg {
            Message::CmdLine(m) => self.cmdline.update(m),
            Message::Document(m) => match &mut self.document {
                Some(doc) => {
                    doc.update(m);
                    Task::Nothing
                },
                None => Task::Nothing,
            },
            Message::OpenFile(filepath) => match filepath {
                Some(path) => Task::ReadDocument(path),
                None => Task::ChooseDocument,
            },
            Message::DocumentReady(doc) => {
                self.errors.clear();
                self.document = Some(doc);
                Task::Nothing
            },
            Message::Quit => Task::Exit,
            Message::ShowErrors => {
                if self.errors.len() != 0 {
                    self.popup = Popup::Errors;
                } else {
                    self.action_area = ActionArea::Info("No errors".to_owned());
                }
                Task::FocusPrevious
            },
            Message::ShowInfo => {
                self.popup = Popup::Info;
                Task::FocusPrevious
            },
            Message::ShowCmdline => {
                self.action_area = ActionArea::Cmdline;
                self.cmdline.focus()
            },
            Message::ErrorOccurred(error) => {
                self.action_area = ActionArea::Error(error.clone());
                self.errors.push(error);
                Task::Nothing
            },
            Message::CleanScreen => {
                self.popup = Popup::Hidden;
                self.action_area = ActionArea::Empty;
                Task::FocusPrevious
            },
            Message::SetTheme(theme) => {
                self.theme = Some(theme);
                Task::Nothing
            },
        }
    }
}

/// What the viewer listens to.
#[derive(Debug, Clone, Copy, PartialEq, Eq, Structural)]
pub enum Subscription {
    /// Keys pressed anywhere, read by [`App::key_message`].
    Keys,
    /// Keys pressed over the document, read by [`Document::key_message`].
    DocumentKeys,
    /// A `CleanScreen` message every so many seconds.
    CleanScreenEvery(u64),
}

impl App {
    /// The message that a key pressed anywhere gives: `:` opens the command
    /// line and Escape cleans the screen.
    pub fn key_message(key: &Key) -> (r: Option<Message>)
        ensures
            r == match key {
                Key::Character(c) => if c@ == ":"@ {
                    Some(Message::ShowCmdline)
                } else {
                    None
                },
                Key::Escape => Some(Message::CleanScreen),
                Key::Other => None::<Message>,
            },
    {
        match key {
            Key::Character(c) => {
                if crate::text::same_text(c.as_str(), ":") {
                    Some(Message::ShowCmdline)
                } else {
                    None
                }
            },
            Key::Escape => Some(Message::CleanScreen),
            Key::Other => None,
        }
    }

    /// What the viewer listens to: keys, always; the document's keys while
    /// one is open; and, while an error is shown, a clean of the screen
    /// every five seconds.
    pub fn subscription(&self) -> (r: Vec<Subscription>)
        ensures
            r@ == seq![Subscription::Keys] + (if self.document is Some {
                seq![Subscription::DocumentKeys]
            } else {
                Seq::empty()
            }) + (if self.action_area is Error {
                seq![Subscription::CleanScreenEvery(5)]
            } else {
                Seq::empty()
            }),
    {
        let mut subscriptions = vec![Subscription::Keys];
        if self.document.is_some() {
            subscriptions.push(Subscription::DocumentKeys);
        }
        if let ActionArea::Error(_) = self.action_area {
            subscriptions.push(Subscription::CleanScreenEvery(5));
        }
        assert(subscriptions@ =~= seq![Subscription::Keys] + (if self.document is Some {
            seq![Subscription::DocumentKeys]
        } else {
            Seq::empty()
        }) + (if self.action_area is Error {
            seq![Subscription::CleanScreenEvery(5)]
        } else {
            Seq::empty()
        }));
        subscriptions
    }
}

} // verus!
