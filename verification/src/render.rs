//! Response rendering for human mode: an ordered "most specific known
//! shape wins" inspection of the reply's data payload.

use vstd::prelude::*;
use crate::strutil::opt_str_view;

verus! {

/// What the renderer reads out of a reply's data payload, as plain values:
/// the optional string fields it knows, the pretty-encoded generic result,
/// and whether a closed-browser signal is present.
#[derive(Debug, Clone, PartialEq, Eq)]
pub struct ResponseData {
    pub url: Option<String>,
    pub title: Option<String>,
    pub snapshot: Option<String>,
    pub text: Option<String>,
    pub result_pretty: Option<String>,
    pub closed: bool,
}

/// One structured reply: success flag, optional data payload, optional
/// error string.
#[derive(Debug, Clone, PartialEq, Eq)]
pub struct Response {
    pub success: bool,
    pub data: Option<ResponseData>,
    pub error: Option<String>,
}

/// The human-mode rendering decision: which branch of the priority order
/// fires, with the strings it prints.
#[derive(Debug, Clone, PartialEq, Eq)]
pub enum Rendering {
    /// Failure: the error string (or the fixed fallback) goes to the error
    /// stream and the exit status is non-zero.
    Error { message: String },
    TitleUrl { title: String, url: String },
    UrlOnly { url: String },
    SnapshotText { snapshot: String },
    TitleOnly { title: String },
    TextOnly { text: String },
    ResultPretty { pretty: String },
    /// The fixed closed-browser confirmation line.
    ClosedNote,
    /// The fixed generic success line.
    DoneNote,
    /// Success with no data payload prints nothing.
    Silent,
}

/// The mathematical shape of a rendering decision.
pub enum RenderModel {
    Error { message: Seq<char> },
    TitleUrl { title: Seq<char>, url: Seq<char> },
    UrlOnly { url: Seq<char> },
    SnapshotText { snapshot: Seq<char> },
    TitleOnly { title: Seq<char> },
    TextOnly { text: Seq<char> },
    ResultPretty { pretty: Seq<char> },
    ClosedNote,
    DoneNote,
    Silent,
}

impl View for Rendering {
    type V = RenderModel;

    open spec fn view(&self) -> RenderModel {
        match self {
            Rendering::Error { message } => RenderModel::Error { message: message@ },
            Rendering::TitleUrl { title, url } => RenderModel::TitleUrl {
                title: title@,
                url: url@,
            },
            Rendering::UrlOnly { url } => RenderModel::UrlOnly { url: url@ },
            Rendering::SnapshotText { snapshot } => RenderModel::SnapshotText {
                snapshot: snapshot@,
            },
            Rendering::TitleOnly { title } => RenderModel::TitleOnly { title: title@ },
            Rendering::TextOnly { text } => RenderModel::TextOnly { text: text@ },
            Rendering::ResultPretty { pretty } => RenderModel::ResultPretty { pretty: pretty@ },
            Rendering::ClosedNote => RenderModel::ClosedNote,
            Rendering::DoneNote => RenderModel::DoneNote,
            Rendering::Silent => RenderModel::Silent,
        }
    }
}

/// The fixed priority order over the reply: failure first (error string or
/// the fallback), then url+title, url, snapshot, title, text, generic
/// result, the closed signal, and last the generic success line.
pub open spec fn spec_render(resp: Response) -> RenderModel {
    if !resp.success {
        RenderModel::Error {
            message: match resp.error {
                Some(e) => e@,
                None => "Unknown error"@,
            },
        }
    } else {
        match resp.data {
            None => RenderModel::Silent,
            Some(d) => {
                if d.url is Some && d.title is Some {
                    RenderModel::TitleUrl {
                        title: opt_str_view(d.title).unwrap(),
                        url: opt_str_view(d.url).unwrap(),
                    }
                } else if d.url is Some {
                    RenderModel::UrlOnly { url: opt_str_view(d.url).unwrap() }
                } else if d.snapshot is Some {
                    RenderModel::SnapshotText { snapshot: opt_str_view(d.snapshot).unwrap() }
                } else if d.title is Some {
                    RenderModel::TitleOnly { title: opt_str_view(d.title).unwrap() }
                } else if d.text is Some {
                    RenderModel::TextOnly { text: opt_str_view(d.text).unwrap() }
                } else if d.result_pretty is Some {
                    RenderModel::ResultPretty { pretty: opt_str_view(d.result_pretty).unwrap() }
                } else if d.closed {
                    RenderModel::ClosedNote
                } else {
                    RenderModel::DoneNote
                }
            },
        }
    }
}

/// Renders a reply for a human, stopping at the first matching shape of
/// the fixed priority order.
pub fn render_human(resp: Response) -> (r: Rendering)
    ensures
        r@ == spec_render(resp),
{
    if !resp.success {
        let message = match resp.error {
            Some(e) => e,
            None => {
                let m = String::from_str("Unknown error");
                m
            },
        };
        return Rendering::Error { message };
    }
    match resp.data {
        None => Rendering::Silent,
        Some(d) => {
            let has_title = d.title.is_some();
            match d.url {
                Some(url) => {
                    if has_title {
                        match d.title {
                            Some(title) => Rendering::TitleUrl { title, url },
                            None => Rendering::UrlOnly { url },  // unreachable: has_title holds
                        }
                    } else {
                        Rendering::UrlOnly { url }
                    }
                },
                None => {
                    match d.snapshot {
                        Some(snapshot) => Rendering::SnapshotText { snapshot },
                        None => {
                            match d.title {
                                Some(title) => Rendering::TitleOnly { title },
                                None => {
                                    match d.text {
                                        Some(text) => Rendering::TextOnly { text },
                                        None => {
                                            match d.result_pretty {
                                                Some(pretty) => Rendering::ResultPretty { pretty },
                                                None => {
                                                    if d.closed {
                                                        Rendering::ClosedNote
                                                    } else {
                                                        Rendering::DoneNote
                                                    }
                                                },
                                            }
                                        },
                                    }
                                },
                            }
                        },
                    }
                },
            }
        },
    }
}

/// Renderer priority: a data payload carrying both a URL and a title
/// always renders as title-then-URL, whatever other fields it also
/// carries.
pub proof fn lemma_title_url_priority(resp: Response)
    requires
        resp.success,
        resp.data is Some,
        resp.data.unwrap().url is Some,
        resp.data.unwrap().title is Some,
    ensures
        spec_render(resp) == (RenderModel::TitleUrl {
            title: opt_str_view(resp.data.unwrap().title).unwrap(),
            url: opt_str_view(resp.data.unwrap().url).unwrap(),
        }),
{
}

} // verus!
