//! The vocabulary of the probing client: what it is told to probe, and what
//! it reports of a probe.
use crate::text::{position, same, split_once};
use vstd::prelude::*;
use vstd::string::*;

verus! {

/// What a probe found: whether the service is up, and a message for humans.
#[derive(Debug, PartialEq, Eq)]
pub struct Status {
    /// Whether the service is up or down
    pub is_up: bool,
    /// Human readable information about the status
    pub message: String,
}

impl Clone for Status {
    fn clone(&self) -> (res: Self)
        ensures
            res == *self,
    {
        Status { is_up: self.is_up, message: self.message.clone() }
    }
}

/// A probe status as the values that it holds.
pub struct StatusView {
    pub is_up: bool,
    pub message: Seq<char>,
}

impl View for Status {
    type V = StatusView;

    open spec fn view(&self) -> StatusView {
        StatusView { is_up: self.is_up, message: self.message@ }
    }
}

/// What is answered for a text that cannot be read as a probe status.
pub open spec fn status_text_error(s: Seq<char>) -> Seq<char> {
    "Invalid status: "@ + s + ". Expected format: <up|down>#<message>"@
}

/// The probe status that `s` is read as, in the format
/// `<up|down>#<message>`: the word before the first `#` says whether the
/// service is up, all that follows that `#` is the message.
pub open spec fn parsed_status(s: Seq<char>) -> Result<StatusView, Seq<char>> {
    let p = position(s, '#');
    if p < s.len() && s.take(p) == "up"@ {
        Ok(StatusView { is_up: true, message: s.skip(p + 1) })
    } else if p < s.len() && s.take(p) == "down"@ {
        Ok(StatusView { is_up: false, message: s.skip(p + 1) })
    } else {
        Err(status_text_error(s))
    }
}

/// A probe status in words.
pub open spec fn status_text(status: StatusView) -> Seq<char> {
    (if status.is_up {
        "Up"@
    } else {
        "Down"@
    }) + ": "@ + status.message
}

/// A result as the texts that it holds.
pub open spec fn result_view<T: View>(r: Result<T, String>) -> Result<T::V, Seq<char>> {
    match r {
        Ok(value) => Ok(value@),
        Err(e) => Err(e@),
    }
}

impl Status {
    /// Reads a probe status from a string in the format
    /// `<up|down>#<message>`.
    pub fn from_str(s: &str) -> (r: Result<Status, String>)
        ensures
            result_view(r) == parsed_status(s@),
    {
        match split_once(s, '#') {
            Some((head, message)) => {
                if same(head, "up") {
                    return Ok(Self { is_up: true, message: String::from_str(message) });
                }
                if same(head, "down") {
                    return Ok(Self { is_up: false, message: String::from_str(message) });
                }
            },
            None => {},
        }
        let mut e = String::from_str("Invalid status: ");
        e.append(s);
        e.append(". Expected format: <up|down>#<message>");
        Err(e)
    }

    /// The probe status as an observation of the service: up with the
    /// latency that the probe measured, in milliseconds, or down with the
    /// message as the reason.
    pub fn into_observation(self, latency: u32) -> (observed: crate::status::Status)
        ensures
            observed == if self.is_up {
                crate::status::Status::Up(latency)
            } else {
                crate::status::Status::Down(self.message)
            },
    {
        if self.is_up {
            crate::status::Status::Up(latency)
        } else {
            crate::status::Status::Down(self.message)
        }
    }

    /// The probe status in words.
    pub fn to_string(&self) -> (s: String)
        ensures
            s@ == status_text(self@),
    {
        let mut s = String::from_str(if self.is_up { "Up" } else { "Down" });
        s.append(": ");
        s.append(self.message.as_str());
        s
    }
}

/// What came of one probe over HTTP.
#[derive(Debug, PartialEq, Eq)]
pub enum ProbeOutcome {
    /// The service answered, with this status code, which reads as `status`.
    Answered { code: u16, status: String },
    /// No answer came; `error` says why.
    Failed { error: String },
}

/// Whether an HTTP status code reports success.
pub open spec fn is_success(code: u16) -> bool {
    200 <= code < 300
}

/// The probe status that stands for the outcome of a probe: up for an
/// answer that reports success, down for any other answer and for none.
pub open spec fn outcome_status(outcome: ProbeOutcome) -> StatusView {
    match outcome {
        ProbeOutcome::Answered { code, status } => if is_success(code) {
            StatusView { is_up: true, message: "Success"@ }
        } else {
            StatusView { is_up: false, message: "HTTP error: "@ + status@ }
        },
        ProbeOutcome::Failed { error } => StatusView { is_up: false, message: "Error: "@ + error@ },
    }
}

/// A URL as its parser gave it: its scheme and its text.
#[derive(Debug, PartialEq, Eq)]
pub struct ParsedUrl {
    pub scheme: String,
    pub text: String,
}

/// A parsed URL as the texts that it holds.
pub struct ParsedUrlView {
    pub scheme: Seq<char>,
    pub text: Seq<char>,
}

impl View for ParsedUrl {
    type V = ParsedUrlView;

    open spec fn view(&self) -> ParsedUrlView {
        ParsedUrlView { scheme: self.scheme@, text: self.text@ }
    }
}

/// What the URL parser makes of the text `s`: the URL's scheme and the
/// URL written out, or the parser's complaint.
pub uninterp spec fn url_parse(s: Seq<char>) -> Result<ParsedUrlView, Seq<char>>;

/// Parses `s` as an absolute URL with `reqwest::Url::parse`, and reads the
/// scheme and the text off the URL with its `scheme` and `as_str`. A
/// failure is given as the parser's error in words.
///
/// Nothing is claimed of the outcome but that it depends on `s` alone.
#[verifier::external_body]
fn parse_url(s: &str) -> (r: Result<ParsedUrl, String>)
    ensures
        result_view(r) == url_parse(s@),
{
    match reqwest::Url::parse(s) {
        Ok(url) => Ok(
            ParsedUrl { scheme: url.scheme().to_string(), text: url.as_str().to_string() },
        ),
        Err(e) => Err(e.to_string()),
    }
}

/// What a probing client is told to probe.
#[derive(Debug, PartialEq, Eq)]
pub enum Checker {
    /// A service that answers HTTP requests at `url`.
    Http { url: String },
}

/// A checker as the texts that it holds.
pub enum CheckerView {
    Http { url: Seq<char> },
}

impl View for Checker {
    type V = CheckerView;

    open spec fn view(&self) -> CheckerView {
        match *self {
            Checker::Http { url } => CheckerView::Http { url: url@ },
        }
    }
}

impl Clone for Checker {
    fn clone(&self) -> (res: Self)
        ensures
            res == *self,
    {
        match self {
            Checker::Http { url } => Checker::Http { url: url.clone() },
        }
    }
}

/// The HTTP checker for a URL as its parser gave it: the URL must have
/// parsed, and its scheme must be `http` or `https`.
pub open spec fn http_checker(parsed: Result<ParsedUrlView, Seq<char>>) -> Result<
    CheckerView,
    Seq<char>,
> {
    match parsed {
        Ok(url) => if url.scheme == "http"@ || url.scheme == "https"@ {
            Ok(CheckerView::Http { url: url.text })
        } else {
            Err("Invalid scheme: "@ + url.scheme)
        },
        Err(e) => Err("Invalid URL: "@ + e),
    }
}

/// The checker that `s` is read as, in the format `http#<url>`.
pub open spec fn parsed_checker(s: Seq<char>) -> Result<CheckerView, Seq<char>> {
    let p = position(s, '#');
    if p < s.len() && s.take(p) == "http"@ {
        http_checker(url_parse(s.skip(p + 1)))
    } else {
        Err("Invalid checker: "@ + s)
    }
}

impl Checker {
    /// Reads a checker from a string in the format `http#<url>`.
    ///
    /// The URL is read by the URL parser; what comes of it is decided by
    /// [`Checker::from_parsed_url`].
    pub fn from_str(s: &str) -> (r: Result<Checker, String>)
        ensures
            result_view(r) == parsed_checker(s@),
    {
        match split_once(s, '#') {
            Some((head, url)) => {
                if same(head, "http") {
                    return Self::from_parsed_url(parse_url(url));
                }
            },
            None => {},
        }
        let mut e = String::from_str("Invalid checker: ");
        e.append(s);
        Err(e)
    }

    /// The HTTP checker for a URL as its parser gave it.
    pub fn from_parsed_url(parsed: Result<ParsedUrl, String>) -> (r: Result<Checker, String>)
        ensures
            result_view(r) == http_checker(result_view(parsed)),
    {
        match parsed {
            Ok(url) => {
                if same(url.scheme.as_str(), "http") || same(url.scheme.as_str(), "https") {
                    Ok(Self::Http { url: url.text })
                } else {
                    let mut e = String::from_str("Invalid scheme: ");
                    e.append(url.scheme.as_str());
                    Err(e)
                }
            },
            Err(error) => {
                let mut e = String::from_str("Invalid URL: ");
                e.append(error.as_str());
                Err(e)
            },
        }
    }

}

impl ProbeOutcome {
    /// The probe status that stands for the outcome.
    pub fn into_status(self) -> (status: Status)
        ensures
            status@ == outcome_status(self),
    {
        match self {
            ProbeOutcome::Answered { code, status } => {
                if 200 <= code && code < 300 {
                    Status { is_up: true, message: String::from_str("Success") }
                } else {
                    let mut message = String::from_str("HTTP error: ");
                    message.append(status.as_str());
                    Status { is_up: false, message }
                }
            },
            ProbeOutcome::Failed { error } => {
                let mut message = String::from_str("Error: ");
                message.append(error.as_str());
                Status { is_up: false, message }
            },
        }
    }
}

} // verus!
