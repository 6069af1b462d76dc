//! The open document in the viewer: its page count and the page shown.

use vstd::prelude::*;
use vstd::view::View as _;

verus! {

/// How the document is shown.
#[derive(Debug, Clone, Copy, PartialEq, Eq, Structural)]
pub enum View {
    /// The objects of the page, as they were read.
    RawData,
}

/// What the document view is asked to do.
#[derive(Debug, Clone, Copy, PartialEq, Eq, Structural)]
pub enum DocumentMessage {
    ChangeView(View),
    NextPage,
    PrevPage,
    /// Show the page with this number, counted from 1.
    SetPageNumber(usize),
}

/// The open document: its title, its number of pages and the page shown.
#[derive(Debug, PartialEq)]
pub struct Document {
    pub title: String,
    pub page_count: usize,
    current_page_index: usize,
    view: View,
}

/// The value of a [`Document`]: its title, the number of pages, the index,
/// from 0, of the page shown, and how it is shown.
pub struct DocumentModel {
    pub title: Seq<char>,
    pub page_count: nat,
    pub index: nat,
    pub mode: View,
}

impl vstd::view::View for Document {
    type V = DocumentModel;

    closed spec fn view(&self) -> DocumentModel {
        DocumentModel {
            title: self.title@,
            page_count: self.page_count as nat,
            index: self.current_page_index as nat,
            mode: self.view,
        }
    }
}

/// The page shown is one of the document's, or the first when it has none.
pub open spec fn index_valid(m: DocumentModel) -> bool {
    m.index == 0 || m.index < m.page_count
}

/// The index of the page shown after `msg`.
pub open spec fn next_index(m: DocumentModel, msg: DocumentMessage) -> nat {
    match msg {
        DocumentMessage::ChangeView(_) => m.index,
        DocumentMessage::NextPage => if m.index + 1 >= m.page_count {
            (m.page_count - 1) as nat
        } else {
            m.index + 1
        },
        DocumentMessage::PrevPage => if m.index == 0 {
            0
        } else {
            (m.index - 1) as nat
        },
        DocumentMessage::SetPageNumber(n) => if n > m.page_count {
            m.index
        } else if n == 0 {
            0
        } else {
            (n - 1) as nat
        },
    }
}

impl Document {
    /// A document of `page_count` pages, showing the first.
    pub fn new(title: String, page_count: usize) -> (r: Document)
        ensures
            r@ == (DocumentModel { title: title@, page_count: page_count as nat, index: 0, mode: View::RawData }),
            index_valid(r@),
    {
        Document { title, page_count, current_page_index: 0, view: View::RawData }
    }

    /// The title.
    pub fn title(&self) -> (r: &str)
        ensures
            r@ == self@.title,
    {
        self.title.as_str()
    }

    /// The number, from 1, of the page shown.
    pub fn current_page(&self) -> (r: usize)
        requires
            index_valid(self@),
        ensures
            r == self@.index + 1,
    {
        match self.view {
            View::RawData => self.current_page_index + 1,
        }
    }

    /// Applies `msg`: changes the view; moves to the next page, staying on
    /// the last; moves to the previous page, staying on the first; or shows
    /// the page numbered `n` when the document has that many pages (0
    /// shows the first), and otherwise stays.
    pub fn update(&mut self, msg: DocumentMessage)
        requires
            msg is NextPage ==> old(self)@.page_count > 0,
        ensures
            final(self)@ == (DocumentModel {
                index: next_index(old(self)@, msg),
                mode: match msg {
                    DocumentMessage::ChangeView(v) => v,
                    _ => old(self)@.mode,
                },
                ..old(self)@
            }),
            index_valid(old(self)@) ==> index_valid(final(self)@),
    {
        match msg {
            DocumentMessage::ChangeView(view) => {
                self.view = view;
            },
            DocumentMessage::NextPage => match self.view {
                View::RawData => {
                    if self.current_page_index >= self.page_count - 1 {
                        self.current_page_index = self.page_count - 1;
                        return ;
                    }
                    self.current_page_index = self.current_page_index.saturating_add(1);
                },
            },
            DocumentMessage::PrevPage => match self.view {
                View::RawData => {
                    self.current_page_index = self.current_page_index.saturating_sub(1);
                },
            },
            DocumentMessage::SetPageNumber(number) => match self.view {
                View::RawData => {
                    if number > self.page_count {
                        return ;
                    }
                    self.current_page_index = number.saturating_sub(1);
                },
            },
        }
    }
}

/// A key that was pressed.
#[derive(Debug, PartialEq)]
pub enum Key {
    /// A key that types this text.
    Character(String),
    Escape,
    /// Any other key.
    Other,
}

impl Document {
    /// The message that a key pressed over the document gives: `j` moves
    /// to the next page, `k` to the previous one.
    pub fn key_message(key: &Key) -> (r: Option<DocumentMessage>)
        ensures
            r == match key {
                Key::Character(c) => if c@ == "j"@ {
                    Some(DocumentMessage::NextPage)
                } else if c@ == "k"@ {
                    Some(DocumentMessage::PrevPage)
                } else {
                    None
                },
                _ => None::<DocumentMessage>,
            },
    {
        match key {
            Key::Character(c) => {
                if crate::text::same_text(c.as_str(), "j") {
                    Some(DocumentMessage::NextPage)
                } else if crate::text::same_text(c.as_str(), "k") {
                    Some(DocumentMessage::PrevPage)
                } else {
                    None
                }
            },
            _ => None,
        }
    }
}

/// Moving to the next page and back returns to the page shown, unless it
/// was the last; moving back from the first page stays there.
pub proof fn lemma_next_then_prev(m: DocumentModel)
    requires
        index_valid(m),
        m.page_count > 0,
    ensures
        m.index + 1 < m.page_count ==> next_index(
            DocumentModel { index: next_index(m, DocumentMessage::NextPage), ..m },
            DocumentMessage::PrevPage,
        ) == m.index,
        m.index == 0 ==> next_index(m, DocumentMessage::PrevPage) == 0,
        next_index(m, DocumentMessage::NextPage) < m.page_count,
{
}

/// Asking for a page that the document has shows it.
pub proof fn lemma_set_page_shows_it(m: DocumentModel, n: usize)
    requires
        1 <= n <= m.page_count,
    ensures
        next_index(m, DocumentMessage::SetPageNumber(n)) + 1 == n,
{
}

} // verus!
