//! The answers to requests.

use crate::config::{authorized, law_only_known_keys_are_served, Config};
use crate::download::DownloadInfo;
use crate::handles::{report, report_text, TaskEnd};
use vstd::prelude::*;
use vstd::string::*;

verus! {

/// What an answer carries.
#[derive(Debug)]
pub enum Body {
    Text(String),
    Json(String),
    /// A file to be saved under this name.
    File(String, Vec<u8>),
}

/// An answer: its status and what it carries.
#[derive(Debug)]
pub struct Reply {
    pub status: u16,
    pub body: Body,
}

/// What an answer carries.
pub enum Content {
    Text(Seq<char>),
    Json(Seq<char>),
    File(Seq<char>, Seq<u8>),
}

/// An answer.
pub struct Answer {
    pub status: u16,
    pub body: Content,
}

impl View for Reply {
    type V = Answer;

    open spec fn view(&self) -> Answer {
        Answer {
            status: self.status,
            body: match self.body {
                Body::Text(t) => Content::Text(t@),
                Body::Json(t) => Content::Json(t@),
                Body::File(n, b) => Content::File(n@, b@),
            },
        }
    }
}

/// An answer in words.
pub open spec fn words(status: u16, text: Seq<char>) -> Answer {
    Answer { status, body: Content::Text(text) }
}

/// The answer to a request that may not be served.
pub open spec fn refusal() -> Answer {
    words(401, "Invalid auth key"@)
}

/// Answers in words.
fn say(status: u16, text: String) -> (r: Reply)
    ensures
        r@ == words(status, text@),
{
    Reply { status, body: Body::Text(text) }
}

/// Refuses a request for a download that may not be served; one that may be served is let
/// through.
pub fn refuse_unauthorized(config: &Config, info: &DownloadInfo) -> (r: Option<Reply>)
    ensures
        match r {
            Some(reply) => !authorized(config@.auth_keys, info@.auth_key) && reply@ == refusal(),
            None => authorized(config@.auth_keys, info@.auth_key),
        },
        r matches Some(reply) ==> {
            &&& reply.status == 401
            &&& reply.body matches Body::Text(t) && t@ == "Invalid auth key"@
        },
        r is None <==> (info.auth_key matches Some(k) && exists|i: int|
            0 <= i < config.auth_keys@.len() && (#[trigger] config.auth_keys@[i]).key@ == k@),
{
    proof {
        law_only_known_keys_are_served(config@.auth_keys, info@.auth_key);
        if let Some(k) = &info.auth_key {
            assert forall|i: int| 0 <= i < config.auth_keys@.len() implies (
            #[trigger] config.auth_keys@[i]).key@ == config@.auth_keys[i].key by {}
            if exists|i: int|
                0 <= i < config.auth_keys@.len() && (#[trigger] config.auth_keys@[i]).key@ == k@ {
                let i = choose|i: int|
                    0 <= i < config.auth_keys@.len() && (#[trigger] config.auth_keys@[i]).key@
                        == k@;
                assert(config@.auth_keys[i].key == k@);
            }
        }
    }
    if config.is_authorized(&info.auth_key) {
        None
    } else {
        Some(say(401, "Invalid auth key".to_owned()))
    }
}

/// What came of a download that is handed out at once.
#[derive(Debug)]
pub enum NowOutcome {
    /// The download failed with this message.
    Failed(String),
    /// The file could not be read, with this message.
    Unreadable(String),
    /// The name of the file, where it has one, and what it holds.
    File(Option<String>, Vec<u8>),
}

/// The answer to a request for a download that is handed out at once.
pub open spec fn now_answer(outcome: NowOutcome) -> Answer {
    match outcome {
        NowOutcome::Failed(m) => words(500, m@),
        NowOutcome::Unreadable(m) => words(500, m@),
        NowOutcome::File(name, bytes) => Answer {
            status: 200,
            body: Content::File(
                match name {
                    Some(n) => n@,
                    None => "file"@,
                },
                bytes@,
            ),
        },
    }
}

/// Answers a request for a download that is handed out at once.
pub fn get_now(outcome: NowOutcome) -> (r: Reply)
    ensures
        r@ == now_answer(outcome),
        outcome matches NowOutcome::File(name, bytes) ==> {
            &&& r.status == 200
            &&& r.body matches Body::File(n, b) && b@ == bytes@ && (match name {
                Some(t) => n@ == t@,
                None => n@ == "file"@,
            })
        },
        outcome matches NowOutcome::Failed(m) ==> {
            &&& r.status == 500
            &&& r.body matches Body::Text(t) && t@ == m@
        },
        outcome matches NowOutcome::Unreadable(m) ==> {
            &&& r.status == 500
            &&& r.body matches Body::Text(t) && t@ == m@
        },
{
    match outcome {
        NowOutcome::Failed(m) => say(500, m),
        NowOutcome::Unreadable(m) => say(500, m),
        NowOutcome::File(name, bytes) => {
            let name = match name {
                Some(n) => n,
                None => "file".to_owned(),
            };
            Reply { status: 200, body: Body::File(name, bytes) }
        },
    }
}

/// A file is handed out whole: the answer has the status 200 and carries exactly the bytes of the
/// file, as many of them and each at its place, under the name of the file. Only what failed or
/// could not be read is answered with 500, in its own words.
pub proof fn law_files_are_handed_out_whole(name: Option<String>, bytes: Vec<u8>, m: String)
    ensures
        ({
            let answer = now_answer(NowOutcome::File(name, bytes));
            &&& answer.status == 200
            &&& answer.body matches Content::File(n, b) && {
                &&& b.len() == bytes@.len()
                &&& forall|i: int| 0 <= i < bytes@.len() ==> b[i] == #[trigger] bytes@[i]
                &&& name matches Some(t) ==> n == t@
                &&& name is None ==> n == "file"@
            }
        }),
        now_answer(NowOutcome::Failed(m)) == (Answer { status: 500, body: Content::Text(m@) }),
        now_answer(NowOutcome::Unreadable(m)) == (Answer { status: 500, body: Content::Text(m@) }),
{
}

/// Different files are answered differently: an answer tells the bytes that it was made of.
pub proof fn law_answers_tell_files_apart(
    name: Option<String>,
    bytes: Vec<u8>,
    other_name: Option<String>,
    other: Vec<u8>,
)
    requires
        now_answer(NowOutcome::File(name, bytes)) == now_answer(
            NowOutcome::File(other_name, other),
        ),
    ensures
        bytes@ == other@,
{
}

/// An answer is seen whole.
pub proof fn law_answers_are_seen_whole(status: u16, t: String, b: Vec<u8>)
    ensures
        (Reply { status, body: Body::Text(t) })@ == (Answer { status, body: Content::Text(t@) }),
        (Reply { status, body: Body::Json(t) })@ == (Answer { status, body: Content::Json(t@) }),
        (Reply { status, body: Body::File(t, b) })@ == (Answer {
            status,
            body: Content::File(t@, b@),
        }),
{
}

/// Whoever asks after a download is told that it is unknown, that it is under way, or how it
/// ended; a request that may not be served is told that its key is invalid.
pub proof fn law_answers_in_words(id: Seq<char>, info: DownloadInfo, end: TaskEnd)
    ensures
        check_answer(id, Known::NotFound) == (Answer {
            status: 200,
            body: Content::Text("not found"@),
        }),
        check_answer(id, Known::NotFinished) == (Answer {
            status: 200,
            body: Content::Text("not finished"@),
        }),
        check_answer(id, Known::Over(info, end)) == (Answer {
            status: 200,
            body: Content::Text(report_text(id, info@, end@)),
        }),
        refusal() == (Answer { status: 401, body: Content::Text("Invalid auth key"@) }),
{
}

/// A file goes out as a video to be saved under its name, JSON as JSON, and words without a header
/// of their own. The headers do not depend on what the file holds.
pub proof fn law_headers_of_answers(name: Seq<char>, bytes: Seq<u8>, text: Seq<char>)
    ensures
        ({
            let h = headers_for(Content::File(name, bytes));
            &&& h.len() == 2
            &&& h[0] == ("Content-Disposition"@, "attachment; filename="@ + name)
            &&& h[1] == ("Content-Type"@, "video/mp4"@)
        }),
        ({
            let h = headers_for(Content::Json(text));
            h.len() == 1 && h[0] == ("Content-Type"@, "application/json"@)
        }),
        headers_for(Content::Text(text)).len() == 0,
{
}

/// The headers that an answer needs besides the usual ones: a file is marked as a video that is
/// to be saved under its name.
pub open spec fn headers_for(body: Content) -> Seq<(Seq<char>, Seq<char>)> {
    match body {
        Content::Text(_) => Seq::empty(),
        Content::Json(_) => seq![("Content-Type"@, "application/json"@)],
        Content::File(name, _) => seq![
            ("Content-Disposition"@, "attachment; filename="@ + name),
            ("Content-Type"@, "video/mp4"@),
        ],
    }
}

impl Reply {
    /// The headers that the answer needs besides the usual ones.
    pub fn headers(&self) -> (r: Vec<(String, String)>)
        ensures
            r@.map_values(|h: (String, String)| (h.0@, h.1@)) == headers_for(self@.body),
    {
        let mut r: Vec<(String, String)> = Vec::new();
        match &self.body {
            Body::Text(_) => {},
            Body::Json(_) => {
                r.push(("Content-Type".to_owned(), "application/json".to_owned()));
            },
            Body::File(name, _) => {
                r.push(
                    (
                        "Content-Disposition".to_owned(),
                        "attachment; filename=".to_owned().concat(name.as_str()),
                    ),
                );
                r.push(("Content-Type".to_owned(), "video/mp4".to_owned()));
            },
        }
        assert(r@.map_values(|h: (String, String)| (h.0@, h.1@)) =~= headers_for(self@.body));
        r
    }
}

/// Answers a request for a download that goes on in the background: with the id under which it
/// can be asked after.
pub fn get(id: String) -> (r: Reply)
    ensures
        r@ == words(200, id@),
        r.status == 200,
        r.body matches Body::Text(t) && t@ == id@,
{
    say(200, id)
}

/// Answers a query for formats, given the offers in JSON or a message.
pub fn get_info_route(offers: Result<String, String>) -> (r: Reply)
    ensures
        r@ == (match offers {
            Ok(json) => Answer { status: 200, body: Content::Json(json@) },
            Err(m) => words(400, m@),
        }),
        offers matches Ok(json) ==> {
            &&& r.status == 200
            &&& r.body matches Body::Json(t) && t@ == json@
        },
        offers matches Err(m) ==> {
            &&& r.status == 400
            &&& r.body matches Body::Text(t) && t@ == m@
        },
{
    match offers {
        Ok(json) => Reply { status: 200, body: Body::Json(json) },
        Err(m) => say(400, m),
    }
}

/// What is known of the download that someone asks after.
#[derive(Debug)]
pub enum Known {
    /// No download has this id.
    NotFound,
    /// The download is still under way.
    NotFinished,
    /// The download is over: what was asked for, and how it ended.
    Over(DownloadInfo, TaskEnd),
}

/// The answer to whoever asks after a download.
pub open spec fn check_answer(id: Seq<char>, known: Known) -> Answer {
    match known {
        Known::NotFound => words(200, "not found"@),
        Known::NotFinished => words(200, "not finished"@),
        Known::Over(info, end) => words(200, report_text(id, info@, end@)),
    }
}

/// Answers whoever asks after a download.
pub fn check(id: &str, known: Known) -> (r: Reply)
    ensures
        r@ == check_answer(id@, known),
        r.status == 200,
        r.body matches Body::Text(t) && match known {
            Known::NotFound => t@ == "not found"@,
            Known::NotFinished => t@ == "not finished"@,
            Known::Over(info, end) => t@ == report_text(id@, info@, end@),
        },
{
    match known {
        Known::NotFound => say(200, "not found".to_owned()),
        Known::NotFinished => say(200, "not finished".to_owned()),
        Known::Over(info, end) => say(200, report(id, &info, &end)),
    }
}

} // verus!
