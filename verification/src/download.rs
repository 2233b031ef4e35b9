//! A download: what was asked for, the arguments for yt-dlp, and the file that it makes.

use crate::number::{decimal, decimal_text};
use crate::text::{contains, occurs, opt_text, same_text};
use vstd::prelude::*;
use vstd::string::*;

verus! {

/// How good the picture should be.
#[derive(Debug, Clone, Copy, PartialEq, Eq, Structural)]
pub enum Quality {
    High,
    Medium,
    Low,
}

impl Default for Quality {
    fn default() -> (r: Self)
        ensures
            r == Quality::High,
    {
        Quality::High
    }
}

/// The quality with this name.
pub open spec fn quality_named(name: Seq<char>) -> Option<Quality> {
    if name == "high"@ {
        Some(Quality::High)
    } else if name == "medium"@ {
        Some(Quality::Medium)
    } else if name == "low"@ {
        Some(Quality::Low)
    } else {
        None
    }
}

impl Quality {
    /// The quality with this name, or a message that says which names there are.
    pub fn from_name(name: &str) -> (r: Result<Quality, String>)
        ensures
            match (r, quality_named(name@)) {
                (Ok(q), Some(p)) => q == p,
                (Err(m), None) => m@ == "unknown variant `"@ + name@
                    + "`, expected one of `high`, `medium`, `low`"@,
                _ => false,
            },
    {
        if same_text(name, "high") {
            Ok(Quality::High)
        } else if same_text(name, "medium") {
            Ok(Quality::Medium)
        } else if same_text(name, "low") {
            Ok(Quality::Low)
        } else {
            Err(
                "unknown variant `".to_owned().concat(name).concat(
                    "`, expected one of `high`, `medium`, `low`",
                ),
            )
        }
    }
}

/// What a request asks for.
#[derive(Debug)]
pub struct DownloadInfo {
    pub url: String,
    pub audio: Option<bool>,
    pub auth_key: Option<String>,
    pub quality: Quality,
}

/// What a request asks for.
pub struct Request {
    pub url: Seq<char>,
    pub audio: Option<bool>,
    pub auth_key: Option<Seq<char>>,
    pub quality: Quality,
}

impl View for DownloadInfo {
    type V = Request;

    open spec fn view(&self) -> Request {
        Request {
            url: self.url@,
            audio: self.audio,
            auth_key: opt_text(self.auth_key),
            quality: self.quality,
        }
    }
}

impl Clone for DownloadInfo {
    fn clone(&self) -> (r: Self)
        ensures
            r@ == self@,
    {
        DownloadInfo {
            url: self.url.clone(),
            audio: self.audio,
            auth_key: match &self.auth_key {
                Some(k) => Some(k.clone()),
                None => None,
            },
            quality: self.quality,
        }
    }
}

impl Request {
    /// Only the sound is wanted; where nothing is said, the picture too.
    pub open spec fn sound_only(self) -> bool {
        self.audio == Some(true)
    }

    /// The request as it is shown to users and in the log.
    pub open spec fn description(self) -> Seq<char> {
        "###FAILED DOWNLOAD INFO###\nurl: "@ + self.url + "\naudio: "@ + (if self.sound_only() {
            "true"@
        } else {
            "false"@
        }) + "\nauth_key: #REDACTED#"@
    }
}

impl DownloadInfo {
    /// Whether only the sound is wanted.
    pub fn wants_audio(&self) -> (r: bool)
        ensures
            r == self@.sound_only(),
            r == (self.audio == Some(true)),
    {
        match self.audio {
            Some(b) => b,
            None => false,
        }
    }

    /// The request as it is shown to users and in the log.
    pub fn describe(&self) -> (r: String)
        ensures
            r@ == self@.description(),
    {
        let audio = if self.wants_audio() {
            "true"
        } else {
            "false"
        };
        "###FAILED DOWNLOAD INFO###\nurl: ".to_owned().concat(self.url.as_str()).concat(
            "\naudio: ",
        ).concat(audio).concat("\nauth_key: #REDACTED#")
    }
}

/// The description of a request says nothing of the key: requests that differ in the key alone
/// are described alike.
pub proof fn law_description_hides_the_key(r: Request, key: Option<Seq<char>>)
    ensures
        (Request { auth_key: key, ..r }).description() == r.description(),
{
}

/// Exactly the names `high`, `medium` and `low` stand for qualities.
pub proof fn law_names_of_qualities(name: Seq<char>)
    ensures
        quality_named(name) == Some(Quality::High) <==> name == "high"@,
        quality_named(name) == Some(Quality::Medium) <==> name == "medium"@,
        quality_named(name) == Some(Quality::Low) <==> name == "low"@,
        quality_named(name) is None <==> name != "high"@ && name != "medium"@ && name != "low"@,
{
    reveal_strlit("high");
    reveal_strlit("medium");
    reveal_strlit("low");
    assert("high"@[0] == 'h' && "medium"@[0] == 'm' && "low"@[0] == 'l');
}

/// A request is described by its URL and by whether only the sound is wanted, which it is exactly
/// where the request says so; the rest of the description is the same for all requests.
pub proof fn law_descriptions_name_url_and_sound(info: DownloadInfo)
    ensures
        info.audio == Some(true) ==> info@.description() == "###FAILED DOWNLOAD INFO###\nurl: "@
            + info.url@ + "\naudio: true\nauth_key: #REDACTED#"@,
        info.audio != Some(true) ==> info@.description() == "###FAILED DOWNLOAD INFO###\nurl: "@
            + info.url@ + "\naudio: false\nauth_key: #REDACTED#"@,
        info@.sound_only() <==> info.audio == Some(true),
{
    reveal_strlit("\naudio: ");
    reveal_strlit("true");
    reveal_strlit("false");
    reveal_strlit("\nauth_key: #REDACTED#");
    reveal_strlit("\naudio: true\nauth_key: #REDACTED#");
    reveal_strlit("\naudio: false\nauth_key: #REDACTED#");
    assert("\naudio: "@ + "true"@ + "\nauth_key: #REDACTED#"@
        =~= "\naudio: true\nauth_key: #REDACTED#"@);
    assert("\naudio: "@ + "false"@ + "\nauth_key: #REDACTED#"@
        =~= "\naudio: false\nauth_key: #REDACTED#"@);
    let head = "###FAILED DOWNLOAD INFO###\nurl: "@ + info.url@;
    let sound = if info.audio == Some(true) {
        "true"@
    } else {
        "false"@
    };
    assert(info@.description() =~= head + ("\naudio: "@ + sound + "\nauth_key: #REDACTED#"@));
}

/// A request is seen whole.
pub proof fn law_requests_are_seen_whole(info: DownloadInfo)
    ensures
        info@.url == info.url@,
        info@.audio == info.audio,
        info@.quality == info.quality,
        info.auth_key matches Some(k) ==> info@.auth_key == Some(k@),
        info.auth_key is None ==> info@.auth_key is None,
{
}

/// The ending of the file that a download makes.
pub open spec fn extension(audio: bool) -> Seq<char> {
    if audio {
        "mp3"@
    } else {
        "mp4"@
    }
}

/// The name of the file that a download makes.
pub open spec fn name_of_file(id: Seq<char>, audio: bool) -> Seq<char> {
    id + "."@ + extension(audio)
}

/// The name of the file that a download makes.
pub fn file_name(id: &str, audio: bool) -> (r: String)
    ensures
        r@ == name_of_file(id@, audio),
{
    id.to_owned().concat(".").concat(
        if audio {
            "mp3"
        } else {
            "mp4"
        },
    )
}

/// The file of a download is named after its id, with `.mp3` behind it for sound alone and `.mp4`
/// otherwise.
pub proof fn law_files_are_named_after_their_ids(id: Seq<char>)
    ensures
        name_of_file(id, true) == id + ".mp3"@,
        name_of_file(id, false) == id + ".mp4"@,
{
    reveal_strlit(".");
    reveal_strlit("mp3");
    reveal_strlit("mp4");
    reveal_strlit(".mp3");
    reveal_strlit(".mp4");
    assert(name_of_file(id, true) =~= id + ".mp3"@);
    assert(name_of_file(id, false) =~= id + ".mp4"@);
}

/// An argument for yt-dlp: an option, with its input where it takes one.
#[derive(Debug)]
pub struct Arg {
    pub arg: String,
    pub input: Option<String>,
}

/// An argument for yt-dlp.
pub struct Argument {
    pub arg: Seq<char>,
    pub input: Option<Seq<char>>,
}

impl View for Arg {
    type V = Argument;

    open spec fn view(&self) -> Argument {
        Argument { arg: self.arg@, input: opt_text(self.input) }
    }
}

impl Argument {
    /// The argument as one text.
    pub open spec fn text(self) -> Seq<char> {
        match self.input {
            Some(input) => self.arg + " "@ + input,
            None => self.arg,
        }
    }
}

/// An option without input.
pub open spec fn option(arg: Seq<char>) -> Argument {
    Argument { arg, input: None }
}

/// An option with its input.
pub open spec fn option_with(arg: Seq<char>, input: Seq<char>) -> Argument {
    Argument { arg, input: Some(input) }
}

/// The arguments of a list, in order.
pub open spec fn arguments(args: Seq<Arg>) -> Seq<Argument> {
    args.map_values(|a: Arg| a@)
}

/// `ytd_rs::Arg::new` and its `Display`: an option without input is shown as it is.
#[verifier::external_body]
fn show_option(arg: &str) -> (r: String)
    ensures
        r@ == arg@,
{
    ytd_rs::Arg::new(arg).to_string()
}

/// `ytd_rs::Arg::new_with_arg` and its `Display`: an option with input is shown as the option,
/// a space and the input.
#[verifier::external_body]
fn show_option_with(arg: &str, input: &str) -> (r: String)
    ensures
        r@ == arg@ + " "@ + input@,
{
    ytd_rs::Arg::new_with_arg(arg, input).to_string()
}

impl Arg {
    /// An option without input.
    pub fn new(arg: &str) -> (r: Arg)
        ensures
            r@ == option(arg@),
            r.arg@ == arg@,
            r.input is None,
    {
        Arg { arg: arg.to_owned(), input: None }
    }

    /// An option with its input.
    pub fn new_with_arg(arg: &str, input: &str) -> (r: Arg)
        ensures
            r@ == option_with(arg@, input@),
            r.arg@ == arg@,
            r.input matches Some(t) && t@ == input@,
    {
        Arg { arg: arg.to_owned(), input: Some(input.to_owned()) }
    }

    /// The argument as one text.
    pub fn show(&self) -> (r: String)
        ensures
            r@ == self@.text(),
    {
        match &self.input {
            Some(input) => show_option_with(self.arg.as_str(), input.as_str()),
            None => show_option(self.arg.as_str()),
        }
    }
}

impl Clone for Arg {
    fn clone(&self) -> (r: Self)
        ensures
            r@ == self@,
    {
        Arg {
            arg: self.arg.clone(),
            input: match &self.input {
                Some(t) => Some(t.clone()),
                None => None,
            },
        }
    }
}

/// What yt-dlp is asked to prefer for a picture of this quality.
pub open spec fn preference(quality: Quality) -> Seq<char> {
    (match quality {
        Quality::High => ""@,
        Quality::Medium => "height:480,"@,
        Quality::Low => "height:240,"@,
    }) + "res,ext:mp4:m4a"@
}

/// The arguments for a download.
pub open spec fn download_arguments(
    id: Seq<char>,
    audio: bool,
    quality: Quality,
    max_file_size: nat,
) -> Seq<Argument> {
    seq![
        option_with("--output"@, id + ".%(ext)s"@),
        option("--verbose"@),
        option("--embed-metadata"@),
        option("--embed-thumbnail"@),
        option("--no-playlist"@),
        option("--force-ipv4"@),
        option_with("--max-filesize"@, decimal_text(max_file_size / 1024 / 1024) + "M"@),
    ] + (if audio {
        seq![option("-x"@), option_with("--audio-format"@, "mp3"@)]
    } else {
        seq![option_with("-S"@, preference(quality)), option_with("--recode"@, "mp4"@)]
    })
}

/// Builds the arguments for a download.
pub fn download_args(id: &str, audio: bool, quality: Quality, max_file_size: u64) -> (r: Vec<Arg>)
    ensures
        arguments(r@) == download_arguments(id@, audio, quality, max_file_size as nat),
{
    let mut args: Vec<Arg> = Vec::new();
    args.push(Arg::new_with_arg("--output", id.to_owned().concat(".%(ext)s").as_str()));
    args.push(Arg::new("--verbose"));
    args.push(Arg::new("--embed-metadata"));
    args.push(Arg::new("--embed-thumbnail"));
    args.push(Arg::new("--no-playlist"));
    args.push(Arg::new("--force-ipv4"));
    args.push(
        Arg::new_with_arg(
            "--max-filesize",
            decimal(max_file_size / 1024 / 1024).concat("M").as_str(),
        ),
    );
    if audio {
        args.push(Arg::new("-x"));
        args.push(Arg::new_with_arg("--audio-format", "mp3"));
    } else {
        let height = match quality {
            Quality::High => "",
            Quality::Medium => "height:480,",
            Quality::Low => "height:240,",
        };
        args.push(
            Arg::new_with_arg("-S", height.to_owned().concat("res,ext:mp4:m4a").as_str()),
        );
        args.push(Arg::new_with_arg("--recode", "mp4"));
    }
    assert(arguments(args@) =~= download_arguments(id@, audio, quality, max_file_size as nat));
    args
}

/// What yt-dlp is told: where the file goes, what goes into it, that one video is wanted and no
/// list, the limit in mebibytes, and then either that only the sound is wanted, as MP3, or which
/// height to prefer for the quality that is asked for, and MP4. The height is 480 for a medium
/// quality and 240 for a low one; for a high one there is none.
pub proof fn law_arguments_say_what_is_asked_for(
    id: Seq<char>,
    audio: bool,
    quality: Quality,
    max_file_size: nat,
)
    ensures
        ({
            let args = download_arguments(id, audio, quality, max_file_size);
            let with = |i: int, arg: Seq<char>, input: Seq<char>|
                args[i].arg == arg && args[i].input == Some(input);
            let alone = |i: int, arg: Seq<char>| args[i].arg == arg && args[i].input is None;
            &&& args.len() == 9
            &&& with(0, "--output"@, id + ".%(ext)s"@)
            &&& alone(1, "--verbose"@)
            &&& alone(2, "--embed-metadata"@)
            &&& alone(3, "--embed-thumbnail"@)
            &&& alone(4, "--no-playlist"@)
            &&& alone(5, "--force-ipv4"@)
            &&& with(6, "--max-filesize"@, decimal_text(max_file_size / 1048576) + "M"@)
            &&& audio ==> alone(7, "-x"@) && with(8, "--audio-format"@, "mp3"@)
            &&& !audio ==> with(
                7,
                "-S"@,
                match quality {
                    Quality::High => "res,ext:mp4:m4a"@,
                    Quality::Medium => "height:480,res,ext:mp4:m4a"@,
                    Quality::Low => "height:240,res,ext:mp4:m4a"@,
                },
            ) && with(8, "--recode"@, "mp4"@)
        }),
{
    reveal_strlit("");
    reveal_strlit("height:480,");
    reveal_strlit("height:240,");
    reveal_strlit("res,ext:mp4:m4a");
    reveal_strlit("height:480,res,ext:mp4:m4a");
    reveal_strlit("height:240,res,ext:mp4:m4a");
    assert(preference(Quality::High) =~= "res,ext:mp4:m4a"@);
    assert(preference(Quality::Medium) =~= "height:480,res,ext:mp4:m4a"@);
    assert(preference(Quality::Low) =~= "height:240,res,ext:mp4:m4a"@);
    assert(max_file_size / 1024 / 1024 == max_file_size / 1048576);
}

/// An argument is shown as the option, with a space and the input behind it where it has one.
pub proof fn law_arguments_are_shown_whole(a: Arg, args: Seq<Arg>)
    ensures
        a@.arg == a.arg@,
        a.input matches Some(t) ==> a@.input == Some(t@) && a@.text() == a.arg@ + " "@ + t@,
        a.input is None ==> a@.input is None && a@.text() == a.arg@,
        arguments(args).len() == args.len(),
        forall|i: int| 0 <= i < args.len() ==> #[trigger] arguments(args)[i] == args[i]@,
{
}

/// The argument says nothing of thumbnails.
pub open spec fn no_thumbnail(a: Argument) -> bool {
    !occurs(a.text(), "--embed-thumbnail"@)
}

/// The arguments without those that speak of thumbnails, in order.
pub open spec fn plain_arguments(args: Seq<Argument>) -> Seq<Argument> {
    args.filter(|a: Argument| no_thumbnail(a))
}

/// Each argument is judged by itself: it is left out exactly where `--embed-thumbnail` stands in
/// it, and the others keep their order.
pub proof fn law_only_thumbnails_are_left_out(a: Seq<Argument>, b: Seq<Argument>, one: Argument)
    ensures
        plain_arguments(a + b) == plain_arguments(a) + plain_arguments(b),
        plain_arguments(seq![one]) == (if occurs(one.text(), "--embed-thumbnail"@) {
            Seq::empty()
        } else {
            seq![one]
        }),
{
    Seq::filter_distributes_over_add(a, b, |a: Argument| no_thumbnail(a));
    assert(seq![one].drop_last() =~= Seq::<Argument>::empty());
    reveal(Seq::filter);
    assert(plain_arguments(seq![one].drop_last()) =~= Seq::<Argument>::empty());
    if no_thumbnail(one) {
        assert(plain_arguments(seq![one]) =~= seq![one]);
    } else {
        assert(plain_arguments(seq![one]) =~= Seq::<Argument>::empty());
    }
}

/// Leaves out the arguments that speak of thumbnails.
pub fn without_thumbnail(args: &Vec<Arg>) -> (r: Vec<Arg>)
    ensures
        arguments(r@) == plain_arguments(arguments(args@)),
{
    let ghost all = arguments(args@);
    let ghost pred = |a: Argument| no_thumbnail(a);
    let mut r: Vec<Arg> = Vec::new();
    let mut i: usize = 0;
    proof {
        reveal(Seq::filter);
    }
    assert(arguments(r@) =~= all.take(0).filter(pred));
    while i < args.len()
        invariant
            i <= args@.len(),
            all == arguments(args@),
            pred == (|a: Argument| no_thumbnail(a)),
            arguments(r@) == all.take(i as int).filter(pred),
        decreases args@.len() - i,
    {
        let ghost done = arguments(r@);
        proof {
            reveal(Seq::filter);
            assert(all.take(i + 1).drop_last() =~= all.take(i as int));
            assert(all.take(i + 1).last() == args@[i as int]@);
        }
        let text = args[i].show();
        if !contains(text.as_str(), "--embed-thumbnail") {
            let copy = args[i].clone();
            r.push(copy);
            assert(arguments(r@) =~= done.push(copy@));
        }
        i += 1;
    }
    assert(all.take(all.len() as int) =~= all);
    r
}

} // verus!
