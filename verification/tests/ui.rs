use docv_pdf::ui::app::{ActionArea, App, Message, Popup, Subscription, Task};
use docv_pdf::ui::cmdline::{Action, Cmdline, CmdlineMessage};
use docv_pdf::ui::viewer::{Document, DocumentMessage, Key, View};

#[test]
fn viewer_moves_between_pages() {
    let mut doc = Document::new("a.pdf".to_string(), 3);
    assert_eq!(doc.title(), "a.pdf");
    assert_eq!(doc.current_page(), 1);
    doc.update(DocumentMessage::PrevPage);
    assert_eq!(doc.current_page(), 1);
    doc.update(DocumentMessage::NextPage);
    doc.update(DocumentMessage::NextPage);
    assert_eq!(doc.current_page(), 3);
    doc.update(DocumentMessage::NextPage);
    assert_eq!(doc.current_page(), 3);
    doc.update(DocumentMessage::PrevPage);
    assert_eq!(doc.current_page(), 2);
    doc.update(DocumentMessage::SetPageNumber(5));
    assert_eq!(doc.current_page(), 2);
    doc.update(DocumentMessage::SetPageNumber(3));
    assert_eq!(doc.current_page(), 3);
    doc.update(DocumentMessage::SetPageNumber(0));
    assert_eq!(doc.current_page(), 1);
    doc.update(DocumentMessage::ChangeView(View::RawData));
    assert_eq!(doc.current_page(), 1);
}

#[test]
fn viewer_of_an_empty_document() {
    let mut doc = Document::new("empty.pdf".to_string(), 0);
    assert_eq!(doc.current_page(), 1);
    doc.update(DocumentMessage::PrevPage);
    doc.update(DocumentMessage::SetPageNumber(1));
    assert_eq!(doc.current_page(), 1);
}

#[test]
fn cmdline_messages() {
    let mut cmdline = Cmdline::default();
    assert_eq!(
        cmdline.update(CmdlineMessage::OnCommandInput(String::new())),
        Task::Send(Message::CleanScreen)
    );
    assert_eq!(cmdline.update(CmdlineMessage::OnCommandInput(":q".to_string())), Task::Nothing);
    assert_eq!(
        cmdline.update(CmdlineMessage::OnCommandSubmit),
        Task::Batch(vec![Task::ParseCommand(":q".to_string()), Task::Send(Message::CleanScreen)])
    );
    assert_eq!(cmdline.update(CmdlineMessage::FocusInput), Task::FocusCommandInput);
    assert_eq!(
        cmdline.update(CmdlineMessage::OnCommandSubmit),
        Task::Batch(vec![Task::ParseCommand(":".to_string()), Task::Send(Message::CleanScreen)])
    );
    assert_eq!(
        cmdline.update(CmdlineMessage::Action(Action::Open("x.pdf".to_string()))),
        Task::Send(Message::OpenFile(Some("x.pdf".to_string())))
    );
    assert_eq!(
        cmdline.update(CmdlineMessage::Action(Action::SetPage(4))),
        Task::Send(Message::Document(DocumentMessage::SetPageNumber(4)))
    );
    assert_eq!(cmdline.update(CmdlineMessage::Action(Action::Quit)), Task::Send(Message::Quit));
    assert_eq!(
        cmdline.update(CmdlineMessage::Action(Action::ShowInfo)),
        Task::Send(Message::ShowInfo)
    );
    assert_eq!(
        cmdline.focus(),
        Task::Send(Message::CmdLine(CmdlineMessage::FocusInput))
    );
}

#[test]
fn app_keeps_and_shows_errors() {
    let (mut app, task) = App::boot(Err("cannot read".to_string()));
    assert_eq!(task, Task::Send(Message::ErrorOccurred("cannot read".to_string())));
    assert!(app.document.is_none());
    assert_eq!(app.title(), "DocV");
    assert_eq!(app.theme(), Some("Nord".to_string()));

    assert_eq!(app.update(Message::ShowErrors), Task::FocusPrevious);
    assert_eq!(app.action_area, ActionArea::Info("No errors".to_string()));
    assert_eq!(app.popup, Popup::Hidden);

    assert_eq!(app.update(Message::ErrorOccurred("cannot read".to_string())), Task::Nothing);
    assert_eq!(app.errors, vec!["cannot read".to_string()]);
    assert_eq!(app.action_area, ActionArea::Error("cannot read".to_string()));

    assert_eq!(app.update(Message::ShowErrors), Task::FocusPrevious);
    assert_eq!(app.popup, Popup::Errors);

    assert_eq!(app.update(Message::CleanScreen), Task::FocusPrevious);
    assert_eq!(app.popup, Popup::Hidden);
    assert_eq!(app.action_area, ActionArea::Empty);

    let doc = Document::new("a.pdf".to_string(), 2);
    assert_eq!(app.update(Message::DocumentReady(doc)), Task::Nothing);
    assert!(app.errors.is_empty());
    assert_eq!(app.title(), "a.pdf");
}

#[test]
fn app_routes_messages() {
    let (mut app, task) = App::boot(Ok(Some(Document::new("b.pdf".to_string(), 2))));
    assert_eq!(task, Task::Nothing);
    assert_eq!(app.title(), "b.pdf");

    assert_eq!(app.update(Message::Document(DocumentMessage::NextPage)), Task::Nothing);
    assert_eq!(app.document.as_ref().map(|d| d.current_page()), Some(2));

    assert_eq!(
        app.update(Message::CmdLine(CmdlineMessage::Action(Action::SetPage(1)))),
        Task::Send(Message::Document(DocumentMessage::SetPageNumber(1)))
    );
    assert_eq!(
        app.update(Message::ShowCmdline),
        Task::Send(Message::CmdLine(CmdlineMessage::FocusInput))
    );
    assert_eq!(app.action_area, ActionArea::Cmdline);

    assert_eq!(app.update(Message::ShowInfo), Task::FocusPrevious);
    assert_eq!(app.popup, Popup::Info);

    assert_eq!(
        app.update(Message::OpenFile(Some("c.pdf".to_string()))),
        Task::ReadDocument("c.pdf".to_string())
    );
    assert_eq!(app.update(Message::OpenFile(None)), Task::ChooseDocument);
    assert_eq!(app.update(Message::SetTheme("Dark".to_string())), Task::Nothing);
    assert_eq!(app.theme(), Some("Dark".to_string()));
    assert_eq!(app.update(Message::Quit), Task::Exit);
}

#[test]
fn keys_give_messages() {
    assert_eq!(App::key_message(&Key::Character(":".to_string())), Some(Message::ShowCmdline));
    assert_eq!(App::key_message(&Key::Escape), Some(Message::CleanScreen));
    assert_eq!(App::key_message(&Key::Character("j".to_string())), None);
    assert_eq!(App::key_message(&Key::Other), None);
    assert_eq!(
        Document::key_message(&Key::Character("j".to_string())),
        Some(DocumentMessage::NextPage)
    );
    assert_eq!(
        Document::key_message(&Key::Character("k".to_string())),
        Some(DocumentMessage::PrevPage)
    );
    assert_eq!(Document::key_message(&Key::Character(":".to_string())), None);
    assert_eq!(Document::key_message(&Key::Escape), None);
}

#[test]
fn subscriptions_follow_the_state() {
    let (mut app, _) = App::boot(Ok(None));
    assert_eq!(app.subscription(), vec![Subscription::Keys]);
    app.update(Message::ErrorOccurred("oops".to_string()));
    assert_eq!(app.subscription(), vec![Subscription::Keys, Subscription::CleanScreenEvery(5)]);
    app.update(Message::DocumentReady(Document::new("d.pdf".to_string(), 1)));
    assert_eq!(
        app.subscription(),
        vec![Subscription::Keys, Subscription::DocumentKeys, Subscription::CleanScreenEvery(5)]
    );
    app.update(Message::CleanScreen);
    assert_eq!(app.subscription(), vec![Subscription::Keys, Subscription::DocumentKeys]);
}
