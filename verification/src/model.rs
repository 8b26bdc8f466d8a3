use vstd::prelude::*;

verus! {

/// One browser tab: a title, a URL, and the tab's position within its
/// window at capture time. The index orders tabs during normalization
/// and is left out of the encoded output.
pub struct Tab {
    pub title: String,
    pub url: String,
    pub index: u64,
}

/// The mathematical value of a `Tab`.
#[verifier::ext_equal]
pub struct TabV {
    pub title: Seq<char>,
    pub url: Seq<char>,
    pub index: u64,
}

impl View for Tab {
    type V = TabV;

    open spec fn view(&self) -> TabV {
        TabV { title: self.title@, url: self.url@, index: self.index }
    }
}

/// One browser window: an ordered sequence of tabs.
pub struct Window {
    pub tabs: Vec<Tab>,
}

/// The mathematical value of a `Window`.
#[verifier::ext_equal]
pub struct WindowV {
    pub tabs: Seq<TabV>,
}

impl View for Window {
    type V = WindowV;

    open spec fn view(&self) -> WindowV {
        WindowV { tabs: self.tabs@.map_values(|t: Tab| t@) }
    }
}

/// One browsing session: a name, a rendered capture date, and the
/// session's windows. After decoding, `date` always holds the rendered
/// date-time text, never the raw millisecond timestamp.
pub struct Session {
    pub name: String,
    pub date: String,
    pub windows: Vec<Window>,
}

/// The mathematical value of a `Session`.
#[verifier::ext_equal]
pub struct SessionV {
    pub name: Seq<char>,
    pub date: Seq<char>,
    pub windows: Seq<WindowV>,
}

impl View for Session {
    type V = SessionV;

    open spec fn view(&self) -> SessionV {
        SessionV {
            name: self.name@,
            date: self.date@,
            windows: self.windows@.map_values(|w: Window| w@),
        }
    }
}

/// The document root: all sessions of one export.
pub struct Export {
    pub sessions: Vec<Session>,
}

/// The mathematical value of an `Export`.
#[verifier::ext_equal]
pub struct ExportV {
    pub sessions: Seq<SessionV>,
}

impl View for Export {
    type V = ExportV;

    open spec fn view(&self) -> ExportV {
        ExportV { sessions: self.sessions@.map_values(|s: Session| s@) }
    }
}

/// Why the pipeline rejected an input document.
#[derive(Clone, Copy, Debug, PartialEq, Eq, Structural)]
pub enum DecodeError {
    /// The input is not well-formed JSON, or a required field is
    /// missing or of the wrong type.
    MalformedDocument,
    /// A date value is a number but lies outside the range that can be
    /// converted to a calendar instant.
    InvalidTimestamp,
}

} // verus!
