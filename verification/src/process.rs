//! The programs that the server runs besides downloads, and what their output means; and the
//! arguments that the server itself is started with.

use crate::text::{
    contains, law_trimming_takes_padding_off, occurs, opt_text, same_text, trim, trimmed,
    white_space,
};
use vstd::prelude::*;
use vstd::string::*;
use vstd::utf8::*;

verus! {

/// What is said of bytes that are no UTF-8 text.
pub uninterp spec fn utf8_complaint(bytes: Seq<u8>) -> Seq<char>;

/// `std::str::from_utf8`: the text that the bytes encode, exactly where they are valid UTF-8.
/// Otherwise the error is handed back as its text; of that only that it depends on the bytes
/// alone is claimed.
#[verifier::external_body]
fn read_utf8(bytes: &[u8]) -> (r: Result<&str, String>)
    ensures
        match r {
            Ok(s) => valid_utf8(bytes@) && encode_utf8(s@) == bytes@,
            Err(m) => !valid_utf8(bytes@) && m@ == utf8_complaint(bytes@),
        },
{
    match std::str::from_utf8(bytes) {
        Ok(s) => Ok(s),
        Err(e) => Err(e.to_string()),
    }
}

/// The text of a program's output, or what is said of output that is no text.
pub open spec fn text_of_output(bytes: Seq<u8>) -> Result<Seq<char>, Seq<char>> {
    if valid_utf8(bytes) {
        Ok(decode_utf8(bytes))
    } else {
        Err(utf8_complaint(bytes))
    }
}

/// Reads a program's output as text.
pub fn output_text(bytes: &[u8]) -> (r: Result<String, String>)
    ensures
        match (r, text_of_output(bytes@)) {
            (Ok(a), Ok(b)) => a@ == b,
            (Err(a), Err(b)) => a@ == b,
            _ => false,
        },
{
    match read_utf8(bytes) {
        Ok(s) => {
            proof {
                encode_utf8_decode_utf8(s@);
            }
            Ok(s.to_owned())
        },
        Err(m) => Err(m),
    }
}

/// The output that encodes a text is read as that text, whatever the text is; output that encodes
/// none is not read.
pub proof fn law_output_is_read_as_it_was_written(text: Seq<char>, bytes: Seq<u8>)
    ensures
        text_of_output(encode_utf8(text)) == Ok::<Seq<char>, Seq<char>>(text),
        text_of_output(bytes) matches Ok(t) ==> encode_utf8(t) == bytes,
        text_of_output(bytes) is Err <==> !valid_utf8(bytes),
        text_of_output(bytes) matches Err(m) ==> m == utf8_complaint(bytes),
{
    encode_utf8_valid_utf8(text);
    encode_utf8_decode_utf8(text);
    if valid_utf8(bytes) {
        decode_utf8_encode_utf8(bytes);
    }
}

/// The bytes of an output that may be absent.
pub open spec fn opt_bytes(b: Option<&[u8]>) -> Option<Seq<u8>> {
    match b {
        Some(b) => Some(b@),
        None => None,
    }
}

/// The version that yt-dlp states in its output, without white space around it. There is none
/// where yt-dlp could not be run, or where what it states is no text.
pub open spec fn version_in(stdout: Option<Seq<u8>>) -> Option<Seq<char>> {
    match stdout {
        Some(bytes) => match text_of_output(bytes) {
            Ok(t) => Some(trimmed(t)),
            Err(_) => None,
        },
        None => None,
    }
}

/// The version is what yt-dlp states, without the white space around it; there is none where
/// yt-dlp could not be run or stated no text.
pub proof fn law_versions_are_stated(a: Seq<char>, version: Seq<char>, b: Seq<char>, bytes: Seq<u8>)
    requires
        forall|i: int| 0 <= i < a.len() ==> white_space(#[trigger] a[i]),
        forall|i: int| 0 <= i < b.len() ==> white_space(#[trigger] b[i]),
        version.len() > 0 ==> !white_space(version[0]) && !white_space(version.last()),
    ensures
        version_in(Some(encode_utf8(a + version + b))) == Some(version),
        version_in(None) is None,
        !valid_utf8(bytes) ==> version_in(Some(bytes)) is None,
{
    law_output_is_read_as_it_was_written(a + version + b, bytes);
    law_trimming_takes_padding_off(a, version, b);
}

/// Reads the version from the output of yt-dlp, where it could be run.
pub fn stated_version(stdout: Option<&[u8]>) -> (r: Option<String>)
    ensures
        opt_text(r) == version_in(opt_bytes(stdout)),
{
    match stdout {
        Some(bytes) => match output_text(bytes) {
            Ok(t) => Some(trim(t.as_str())),
            Err(_) => None,
        },
        None => None,
    }
}

/// What the error output of the package installer means, given the version of yt-dlp where it is
/// installed afterwards: bringing it up to date failed where it is not installed or `ERROR`
/// stands in the output, and then the output is the message. Otherwise the version is returned.
pub fn update_result(output: &str, version: Option<String>) -> (r: Result<String, String>)
    ensures
        match r {
            Ok(v) => version == Some(v) && !occurs(output@, "ERROR"@),
            Err(m) => (version is None || occurs(output@, "ERROR"@)) && m@ == output@,
        },
{
    match version {
        Some(v) => if contains(output, "ERROR") {
            Err(output.to_owned())
        } else {
            Ok(v)
        },
        None => Err(output.to_owned()),
    }
}

/// The version of yt-dlp once it was brought up to date, given the error output of the package
/// installer and what yt-dlp states as its version afterwards. Where yt-dlp is not installed,
/// that is an error, whatever the package installer says.
pub fn install_and_update_ytdlp(stderr: &[u8], version: Option<&[u8]>) -> (r: Result<String, String>)
    ensures
        match (r, text_of_output(stderr@)) {
            (Ok(v), Ok(t)) => {
                &&& version_in(opt_bytes(version)) == Some(v@)
                &&& !occurs(t, "ERROR"@)
            },
            (Err(m), Ok(t)) => {
                &&& version_in(opt_bytes(version)) is None || occurs(t, "ERROR"@)
                &&& m@ == t
            },
            (Err(m), Err(c)) => m@ == c,
            _ => false,
        },
{
    match output_text(stderr) {
        Ok(t) => update_result(t.as_str(), stated_version(version)),
        Err(m) => Err(m),
    }
}

/// A program and its arguments.
#[derive(Debug)]
pub struct CommandLine {
    pub program: String,
    pub args: Vec<String>,
}

/// The texts of a list, in order.
pub open spec fn texts(list: Seq<String>) -> Seq<Seq<char>> {
    list.map_values(|s: String| s@)
}

/// The command that brings yt-dlp up to date.
pub fn update_command() -> (r: CommandLine)
    ensures
        r.program@ == "python"@,
        texts(r.args@) == seq!["-m"@, "pip"@, "install"@, "--upgrade"@, "yt-dlp"@],
{
    let mut args: Vec<String> = Vec::new();
    args.push("-m".to_owned());
    args.push("pip".to_owned());
    args.push("install".to_owned());
    args.push("--upgrade".to_owned());
    args.push("yt-dlp".to_owned());
    assert(texts(args@) =~= seq!["-m"@, "pip"@, "install"@, "--upgrade"@, "yt-dlp"@]);
    CommandLine { program: "python".to_owned(), args }
}

/// The command that has yt-dlp state its version; it can be run exactly where yt-dlp is installed.
pub fn version_command() -> (r: CommandLine)
    ensures
        r.program@ == "yt-dlp"@,
        texts(r.args@) == seq!["--version"@],
{
    let mut args: Vec<String> = Vec::new();
    args.push("--version".to_owned());
    assert(texts(args@) =~= seq!["--version"@]);
    CommandLine { program: "yt-dlp".to_owned(), args }
}

/// The command that lists the formats for a URL.
pub fn formats_command(url: &str) -> (r: CommandLine)
    ensures
        r.program@ == "yt-dlp"@,
        texts(r.args@) == seq![
            "--dump-json"@,
            "--skip-download"@,
            "--no-playlist"@,
            "--force-ipv4"@,
            url@,
        ],
{
    let mut args: Vec<String> = Vec::new();
    args.push("--dump-json".to_owned());
    args.push("--skip-download".to_owned());
    args.push("--no-playlist".to_owned());
    args.push("--force-ipv4".to_owned());
    args.push(url.to_owned());
    assert(texts(args@) =~= seq![
        "--dump-json"@,
        "--skip-download"@,
        "--no-playlist"@,
        "--force-ipv4"@,
        url@,
    ]);
    CommandLine { program: "yt-dlp".to_owned(), args }
}

/// What the server was started for.
#[derive(Debug, Clone, Copy, PartialEq, Eq, Structural)]
pub enum Invocation {
    /// The arguments make no sense.
    Invalid,
    /// Add a user and print an invitation.
    AddUser,
    /// Remove a user.
    RemoveUser,
    /// List the users.
    ListUsers,
    /// Serve requests.
    Serve,
}

/// What the arguments ask for, the name of the program being the first of them. At most one
/// more is accepted; one that is unknown is ignored.
pub open spec fn invocation(args: Seq<Seq<char>>) -> Invocation {
    if args.len() > 2 {
        Invocation::Invalid
    } else if args.len() == 2 && args[1] == "-a"@ {
        Invocation::AddUser
    } else if args.len() == 2 && args[1] == "-r"@ {
        Invocation::RemoveUser
    } else if args.len() == 2 && args[1] == "-l"@ {
        Invocation::ListUsers
    } else {
        Invocation::Serve
    }
}

/// The server is started for something else than serving exactly by one argument behind its own
/// name: `-a`, `-r` or `-l`. Two arguments or more make no sense, whatever they are.
pub proof fn law_what_the_arguments_ask_for(args: Seq<Seq<char>>)
    ensures
        invocation(args) is Invalid <==> args.len() > 2,
        invocation(args) is AddUser <==> args.len() == 2 && args[1] == "-a"@,
        invocation(args) is RemoveUser <==> args.len() == 2 && args[1] == "-r"@,
        invocation(args) is ListUsers <==> args.len() == 2 && args[1] == "-l"@,
{
    reveal_strlit("-a");
    reveal_strlit("-r");
    reveal_strlit("-l");
    assert("-a"@[1] == 'a' && "-r"@[1] == 'r' && "-l"@[1] == 'l');
}

/// Lists of texts are seen text by text, and outputs byte by byte.
pub proof fn law_texts_are_seen_whole(list: Seq<String>, bytes: &[u8])
    ensures
        texts(list).len() == list.len(),
        forall|i: int| 0 <= i < list.len() ==> #[trigger] texts(list)[i] == list[i]@,
        opt_bytes(Some(bytes)) == Some(bytes@),
        opt_bytes(None) is None,
{
}

/// Decides what the server was started for.
pub fn parse_args(args: &Vec<String>) -> (r: Invocation)
    ensures
        r == invocation(texts(args@)),
{
    if args.len() > 2 {
        return Invocation::Invalid;
    }
    if args.len() == 2 {
        let arg = args[1].as_str();
        assert(texts(args@)[1] == arg@);
        if same_text(arg, "-a") {
            return Invocation::AddUser;
        }
        if same_text(arg, "-r") {
            return Invocation::RemoveUser;
        }
        if same_text(arg, "-l") {
            return Invocation::ListUsers;
        }
    }
    Invocation::Serve
}

} // verus!
