//! The steps of a download, from the request to the file in its place.

use crate::config::{Config, Settings};
use crate::download::{
    arguments, download_args, download_arguments, file_name, law_arguments_say_what_is_asked_for,
    name_of_file, no_thumbnail, option,
    option_with, plain_arguments, preference, without_thumbnail, Arg, Argument, DownloadInfo,
    Quality, Request,
};
use crate::ids::is_id;
use crate::lists::lemma_filter_drops_one;
use crate::number::{decimal_text, is_digit, law_decimal_text_is_digits};
use crate::text::{occurs, occurs_at};
use crate::url_test::{is_test, test_plan, url_tests, TestPlan, UrlTest};
use vstd::prelude::*;
use vstd::string::*;

verus! {

/// A download that was asked for.
#[derive(Debug)]
pub struct Job {
    pub id: String,
    pub url: String,
    pub audio: bool,
    pub quality: Quality,
    /// The file stays in the directory for downloads that are under way.
    pub tmp: bool,
    pub tmp_dir: String,
    pub output_dir: String,
    pub max_file_size: u64,
}

/// A download that was asked for.
pub struct Task {
    pub id: Seq<char>,
    pub url: Seq<char>,
    pub audio: bool,
    pub quality: Quality,
    pub tmp: bool,
    pub tmp_dir: Seq<char>,
    pub output_dir: Seq<char>,
    pub max_file_size: u64,
}

impl View for Job {
    type V = Task;

    open spec fn view(&self) -> Task {
        Task {
            id: self.id@,
            url: self.url@,
            audio: self.audio,
            quality: self.quality,
            tmp: self.tmp,
            tmp_dir: self.tmp_dir@,
            output_dir: self.output_dir@,
            max_file_size: self.max_file_size,
        }
    }
}

/// The download that a request asks for under these settings.
pub open spec fn task_of(id: Seq<char>, r: Request, tmp: bool, s: Settings) -> Task {
    Task {
        id,
        url: r.url,
        audio: r.sound_only(),
        quality: r.quality,
        tmp,
        tmp_dir: s.tmp_dir,
        output_dir: if r.sound_only() {
            s.audio_dir
        } else {
            s.video_dir
        },
        max_file_size: s.max_file_size,
    }
}

impl Task {
    /// The arguments for yt-dlp.
    pub open spec fn arguments(self) -> Seq<Argument> {
        download_arguments(self.id, self.audio, self.quality, self.max_file_size as nat)
    }
}

impl Job {
    /// The download that a request asks for under these settings.
    pub fn new(id: String, info: &DownloadInfo, tmp: bool, config: &Config) -> (r: Job)
        ensures
            r@ == task_of(id@, info@, tmp, config@),
    {
        let audio = info.wants_audio();
        Job {
            id,
            url: info.url.clone(),
            audio,
            quality: info.quality,
            tmp,
            tmp_dir: config.get_tmp_dir(),
            output_dir: if audio {
                config.get_audio_dir()
            } else {
                config.get_video_dir()
            },
            max_file_size: config.max_file_size,
        }
    }

    /// The arguments for the first run of yt-dlp.
    pub fn args(&self) -> (r: Vec<Arg>)
        ensures
            arguments(r@) == self@.arguments(),
    {
        download_args(self.id.as_str(), self.audio, self.quality, self.max_file_size)
    }

    /// The arguments for the second run of yt-dlp, which leaves thumbnails out.
    pub fn plain_args(&self) -> (r: Vec<Arg>)
        ensures
            arguments(r@) == plain_arguments(self@.arguments()),
    {
        without_thumbnail(&self.args())
    }

    /// The name of the file that yt-dlp makes.
    pub fn file_name(&self) -> (r: String)
        ensures
            r@ == name_of_file(self@.id, self@.audio),
    {
        file_name(self.id.as_str(), self.audio)
    }
}

/// What to do next for a download.
#[derive(Debug)]
pub enum Step {
    /// Wait for so many seconds, then fail with this message.
    Delay(u64, String),
    /// Find out whether the directory for downloads under way exists.
    AskTmpDir,
    /// Create that directory.
    CreateTmpDir,
    /// Set up both runs of yt-dlp, the one without thumbnails first.
    Prepare,
    /// Run yt-dlp with all arguments.
    Run,
    /// Run yt-dlp without thumbnails, after the first run failed with this message.
    RunPlain(String),
    /// Find out whether yt-dlp made the file.
    AskFile,
    /// Copy the file to its place.
    Copy,
    /// Remove the file from the directory for downloads under way.
    Remove,
    /// The download is over.
    Done(Result<(), String>),
}

/// What came of a step.
#[derive(Debug)]
pub enum Event {
    DelayOver,
    TmpDirExists(bool),
    TmpDirCreated(Result<(), String>),
    Prepared(Result<(), String>),
    /// yt-dlp ended, well or with a message.
    Ran(Result<(), String>),
    /// The thread that ran yt-dlp broke down.
    Crashed(String),
    FileExists(bool),
    Copied(Result<(), String>),
    Removed(Result<(), String>),
}

/// What to do next for a download.
pub enum Phase {
    Delay(nat, Seq<char>),
    AskTmpDir,
    CreateTmpDir,
    Prepare,
    Run,
    RunPlain(Seq<char>),
    AskFile,
    Copy,
    Remove,
    Failed(Seq<char>),
    Succeeded,
}

impl View for Step {
    type V = Phase;

    open spec fn view(&self) -> Phase {
        match self {
            Step::Delay(n, m) => Phase::Delay(*n as nat, m@),
            Step::AskTmpDir => Phase::AskTmpDir,
            Step::CreateTmpDir => Phase::CreateTmpDir,
            Step::Prepare => Phase::Prepare,
            Step::Run => Phase::Run,
            Step::RunPlain(e) => Phase::RunPlain(e@),
            Step::AskFile => Phase::AskFile,
            Step::Copy => Phase::Copy,
            Step::Remove => Phase::Remove,
            Step::Done(Ok(_)) => Phase::Succeeded,
            Step::Done(Err(e)) => Phase::Failed(e@),
        }
    }
}

/// The event can come of the step.
pub open spec fn fits(phase: Phase, event: Event) -> bool {
    match event {
        Event::DelayOver => phase is Delay,
        Event::TmpDirExists(_) => phase is AskTmpDir,
        Event::TmpDirCreated(_) => phase is CreateTmpDir,
        Event::Prepared(_) => phase is Prepare,
        Event::Ran(_) => phase is Run || phase is RunPlain,
        Event::Crashed(_) => phase is Run || phase is RunPlain,
        Event::FileExists(_) => phase is AskFile,
        Event::Copied(_) => phase is Copy,
        Event::Removed(_) => phase is Remove,
    }
}

/// The first step: a URL that is a test never gets to yt-dlp.
pub open spec fn first_phase(task: Task) -> Phase {
    match test_plan(task.url) {
        TestPlan::Proceed => Phase::AskTmpDir,
        TestPlan::Fail(m) => Phase::Failed(m),
        TestPlan::DelayThenFail(n, m) => Phase::Delay(n, m),
    }
}

/// Goes on where the work was done, and fails with the message where it was not.
pub open spec fn on_success(done: Result<(), String>, next: Phase) -> Phase {
    match done {
        Ok(_) => next,
        Err(e) => Phase::Failed(e@),
    }
}

/// The step after this one, given what came of it.
pub open spec fn next_phase(task: Task, phase: Phase, event: Event) -> Phase {
    match event {
        Event::DelayOver => Phase::Failed(phase->Delay_1),
        Event::TmpDirExists(there) => if there {
            Phase::Prepare
        } else {
            Phase::CreateTmpDir
        },
        Event::TmpDirCreated(done) => on_success(done, Phase::Prepare),
        Event::Prepared(done) => on_success(done, Phase::Run),
        Event::Ran(Ok(_)) => Phase::AskFile,
        Event::Ran(Err(e)) => match phase {
            Phase::RunPlain(first) => Phase::Failed(first),
            _ => Phase::RunPlain(e@),
        },
        Event::Crashed(e) => Phase::Failed(e@),
        Event::FileExists(there) => if !there {
            Phase::Failed("File does not exist"@)
        } else if task.tmp {
            Phase::Succeeded
        } else {
            Phase::Copy
        },
        Event::Copied(done) => on_success(done, Phase::Remove),
        Event::Removed(done) => on_success(done, Phase::Succeeded),
    }
}

/// Goes on where the work was done, and fails with the message where it was not.
fn go_on(done: Result<(), String>, next: Step) -> (r: Step)
    ensures
        r@ == on_success(done, next@),
{
    match done {
        Ok(_) => next,
        Err(e) => Step::Done(Err(e)),
    }
}

impl Job {
    /// The first step of the download.
    pub fn start(&self) -> (r: Step)
        ensures
            r@ == first_phase(self@),
    {
        match url_tests(self.url.as_str()) {
            UrlTest::Proceed => Step::AskTmpDir,
            UrlTest::Fail(m) => Step::Done(Err(m)),
            UrlTest::DelayThenFail(n, m) => Step::Delay(n, m),
        }
    }

    /// The step after this one, given what came of it.
    pub fn download(&self, step: Step, event: Event) -> (r: Step)
        requires
            fits(step@, event),
        ensures
            r@ == next_phase(self@, step@, event),
    {
        match event {
            Event::DelayOver => match step {
                Step::Delay(_, m) => Step::Done(Err(m)),
                other => other,
            },
            Event::TmpDirExists(there) => if there {
                Step::Prepare
            } else {
                Step::CreateTmpDir
            },
            Event::TmpDirCreated(done) => go_on(done, Step::Prepare),
            Event::Prepared(done) => go_on(done, Step::Run),
            Event::Ran(Ok(_)) => Step::AskFile,
            Event::Ran(Err(e)) => match step {
                Step::RunPlain(first) => Step::Done(Err(first)),
                _ => Step::RunPlain(e),
            },
            Event::Crashed(e) => Step::Done(Err(e)),
            Event::FileExists(there) => if !there {
                Step::Done(Err("File does not exist".to_owned()))
            } else if self.tmp {
                Step::Done(Ok(()))
            } else {
                Step::Copy
            },
            Event::Copied(done) => go_on(done, Step::Remove),
            Event::Removed(done) => go_on(done, Step::Done(Ok(()))),
        }
    }
}

/// The step that a download has come to after these events.
pub open spec fn phase_after(task: Task, events: Seq<Event>) -> Phase
    decreases events.len(),
{
    if events.len() == 0 {
        first_phase(task)
    } else {
        next_phase(task, phase_after(task, events.drop_last()), events.last())
    }
}

/// Each event can come of the step that the download had come to.
pub open spec fn possible(task: Task, events: Seq<Event>) -> bool
    decreases events.len(),
{
    events.len() > 0 ==> {
        &&& possible(task, events.drop_last())
        &&& fits(phase_after(task, events.drop_last()), events.last())
    }
}

/// How many events a download can still take from this step on.
pub open spec fn events_left(phase: Phase) -> nat {
    match phase {
        Phase::AskTmpDir => 8,
        Phase::CreateTmpDir => 7,
        Phase::Prepare => 6,
        Phase::Run => 5,
        Phase::RunPlain(_) => 4,
        Phase::AskFile => 3,
        Phase::Copy => 2,
        Phase::Remove => 1,
        Phase::Delay(_, _) => 1,
        Phase::Failed(_) => 0,
        Phase::Succeeded => 0,
    }
}

/// Every download ends: each event brings it closer to its end, after eight events at the
/// latest, and only a download that is over takes no event.
pub proof fn law_downloads_end(task: Task, events: Seq<Event>)
    requires
        possible(task, events),
    ensures
        events.len() + events_left(phase_after(task, events)) <= 8,
        events_left(phase_after(task, events)) == 0 <==> phase_after(task, events) is Failed
            || phase_after(task, events) is Succeeded,
        events_left(phase_after(task, events)) == 0 <==> forall|e: Event| !#[trigger] fits(
            phase_after(task, events),
            e,
        ),
    decreases events.len(),
{
    if events.len() > 0 {
        law_downloads_end(task, events.drop_last());
    }
    let phase = phase_after(task, events);
    let example = match phase {
        Phase::Delay(_, _) => Event::DelayOver,
        Phase::AskTmpDir => Event::TmpDirExists(true),
        Phase::CreateTmpDir => Event::TmpDirCreated(Ok(())),
        Phase::Prepare => Event::Prepared(Ok(())),
        Phase::AskFile => Event::FileExists(true),
        Phase::Copy => Event::Copied(Ok(())),
        Phase::Remove => Event::Removed(Ok(())),
        _ => Event::Ran(Ok(())),
    };
    assert(events_left(phase) > 0 ==> fits(phase, example));
}

/// A test fails in the end and does nothing else but wait: no directory is made, yt-dlp is not
/// run and no file is touched.
pub proof fn law_tests_do_nothing(task: Task, events: Seq<Event>)
    requires
        is_test(task.url),
        possible(task, events),
    ensures
        phase_after(task, events) is Delay || phase_after(task, events) is Failed,
    decreases events.len(),
{
    if events.len() > 0 {
        law_tests_do_nothing(task, events.drop_last());
    }
}

/// What a download has behind it when it comes to a step.
pub open spec fn behind(task: Task, phase: Phase, events: Seq<Event>) -> bool {
    &&& phase is AskFile || phase is Copy || phase is Remove || phase is Succeeded
        ==> events.contains(Event::Ran(Ok(())))
    &&& phase is Copy || phase is Remove || phase is Succeeded ==> events.contains(
        Event::FileExists(true),
    )
    &&& phase is Copy || phase is Remove ==> !task.tmp
    &&& phase is Remove || (phase is Succeeded && !task.tmp) ==> events.contains(
        Event::Copied(Ok(())),
    )
    &&& phase is Succeeded && !task.tmp ==> events.contains(Event::Removed(Ok(())))
}

/// A download succeeds only after yt-dlp ran well and the file was there; a file that does not
/// stay in the directory for downloads under way was also copied to its place and removed from
/// there. It is removed only once the copy is made, and a file that stays is neither copied
/// nor removed.
pub proof fn law_success_is_earned(task: Task, events: Seq<Event>)
    requires
        possible(task, events),
    ensures
        behind(task, phase_after(task, events), events),
    decreases events.len(),
{
    if events.len() > 0 {
        let before = events.drop_last();
        law_success_is_earned(task, before);
        assert forall|e: Event| before.contains(e) implies #[trigger] events.contains(e) by {
            let i = choose|i: int| 0 <= i < before.len() && before[i] == e;
            assert(events[i] == e);
        }
        assert(events[events.len() - 1] == events.last());
        assert(events.contains(events.last()));
        match events.last() {
            Event::Ran(Ok(u)) => {
                assert(u == ());
            },
            Event::Copied(Ok(u)) => {
                assert(u == ());
            },
            Event::Removed(Ok(u)) => {
                assert(u == ());
            },
            _ => {},
        }
    }
}

/// yt-dlp is run without thumbnails only after the run with them failed, and where that fails
/// too the failure of the first run is the one that is reported.
pub proof fn law_first_failure_is_reported(task: Task, first: String, second: String)
    ensures
        next_phase(task, Phase::Run, Event::Ran(Err(first))) == Phase::RunPlain(first@),
        next_phase(task, Phase::RunPlain(first@), Event::Ran(Err(second))) == Phase::Failed(first@),
        next_phase(task, Phase::RunPlain(first@), Event::Ran(Ok(()))) == next_phase(
            task,
            Phase::Run,
            Event::Ran(Ok(())),
        ),
{
}

/// A download follows its request and the settings: it has the URL and the quality of the request,
/// is for sound alone exactly where the request says so, keeps to the limit and the directory for
/// downloads under way of the settings, and goes to the directory for sound or for pictures. Its
/// arguments for yt-dlp ask for the sound as MP3, or for a picture of the height that the quality
/// of the request stands for.
pub proof fn law_downloads_follow_their_requests(
    id: Seq<char>,
    r: Request,
    tmp: bool,
    s: Settings,
)
    ensures
        ({
            let task = task_of(id, r, tmp, s);
            let args = task.arguments();
            &&& task.id == id
            &&& task.url == r.url
            &&& task.quality == r.quality
            &&& task.audio <==> r.audio == Some(true)
            &&& task.tmp == tmp
            &&& task.tmp_dir == s.tmp_dir
            &&& task.max_file_size == s.max_file_size
            &&& r.audio == Some(true) ==> {
                &&& task.output_dir == s.audio_dir
                &&& args[7].arg == "-x"@ && args[7].input is None
                &&& args[8].arg == "--audio-format"@ && args[8].input == Some("mp3"@)
            }
            &&& r.audio != Some(true) ==> {
                &&& task.output_dir == s.video_dir
                &&& args[7].arg == "-S"@ && args[7].input == Some(
                    match r.quality {
                        Quality::High => "res,ext:mp4:m4a"@,
                        Quality::Medium => "height:480,res,ext:mp4:m4a"@,
                        Quality::Low => "height:240,res,ext:mp4:m4a"@,
                    },
                )
                &&& args[8].arg == "--recode"@ && args[8].input == Some("mp4"@)
            }
            &&& args.len() == 9
            &&& args[0].arg == "--output"@ && args[0].input == Some(id + ".%(ext)s"@)
            &&& args[6].arg == "--max-filesize"@ && args[6].input == Some(
                decimal_text((s.max_file_size / 1048576) as nat) + "M"@,
            )
        }),
{
    let task = task_of(id, r, tmp, s);
    law_arguments_say_what_is_asked_for(
        id,
        task.audio,
        task.quality,
        task.max_file_size as nat,
    );
}

/// The arguments do not depend on the URL, the directories or where the file stays, and not on the
/// quality where only the sound is wanted.
pub proof fn law_arguments_depend_on_what_they_say(a: Task, b: Task)
    requires
        a.id == b.id,
        a.audio == b.audio,
        a.max_file_size == b.max_file_size,
        !a.audio ==> a.quality == b.quality,
    ensures
        a.arguments() == b.arguments(),
{
    assert(a.arguments() =~= b.arguments());
}

/// What can come of each step.
pub proof fn law_events_belong_to_their_steps(phase: Phase, b: bool, done: Result<(), String>, e: String)
    ensures
        fits(phase, Event::DelayOver) <==> phase is Delay,
        fits(phase, Event::TmpDirExists(b)) <==> phase is AskTmpDir,
        fits(phase, Event::TmpDirCreated(done)) <==> phase is CreateTmpDir,
        fits(phase, Event::Prepared(done)) <==> phase is Prepare,
        fits(phase, Event::Ran(done)) <==> phase is Run || phase is RunPlain,
        fits(phase, Event::Crashed(e)) <==> phase is Run || phase is RunPlain,
        fits(phase, Event::FileExists(b)) <==> phase is AskFile,
        fits(phase, Event::Copied(done)) <==> phase is Copy,
        fits(phase, Event::Removed(done)) <==> phase is Remove,
{
}

/// Each step is taken for one reason: the directory for downloads under way is created exactly
/// where it was found missing; yt-dlp is set up once the directory is there; it is run once that
/// succeeded, and run again without thumbnails exactly where the first run failed; the file is
/// looked for once a run succeeded; it is copied exactly where it was found and does not stay, and
/// removed exactly where it was copied. A download succeeds exactly where a file that stays was
/// found, or one that does not stay was removed.
pub proof fn law_each_step_has_its_reason(task: Task, phase: Phase, event: Event)
    requires
        fits(phase, event),
    ensures
        ({
            let next = next_phase(task, phase, event);
            &&& next is CreateTmpDir <==> event == Event::TmpDirExists(false)
            &&& next is Prepare <==> event == Event::TmpDirExists(true) || (event matches Event::TmpDirCreated(Ok(_)))
            &&& next is Run <==> (event matches Event::Prepared(Ok(_)))
            &&& next is RunPlain <==> phase is Run && (event matches Event::Ran(Err(_)))
            &&& next is AskFile <==> (event matches Event::Ran(Ok(_)))
            &&& next is Copy <==> event == Event::FileExists(true) && !task.tmp
            &&& next is Remove <==> (event matches Event::Copied(Ok(_)))
            &&& next is Succeeded <==> (event == Event::FileExists(true) && task.tmp) || (event matches Event::Removed(Ok(_)))
            &&& !(next is AskTmpDir) && !(next is Delay)
        }),
{
}

/// Whatever fails ends the download with its own message, but for the first run of yt-dlp, whose
/// message is kept for the case that the second run fails too. A missing file is an error of its
/// own.
pub proof fn law_failures_keep_their_messages(
    task: Task,
    n: nat,
    m: Seq<char>,
    first: Seq<char>,
    e: String,
)
    ensures
        next_phase(task, Phase::Delay(n, m), Event::DelayOver) == Phase::Failed(m),
        next_phase(task, Phase::CreateTmpDir, Event::TmpDirCreated(Err(e))) == Phase::Failed(e@),
        next_phase(task, Phase::Prepare, Event::Prepared(Err(e))) == Phase::Failed(e@),
        next_phase(task, Phase::Run, Event::Ran(Err(e))) == Phase::RunPlain(e@),
        next_phase(task, Phase::RunPlain(first), Event::Ran(Err(e))) == Phase::Failed(first),
        next_phase(task, Phase::Run, Event::Crashed(e)) == Phase::Failed(e@),
        next_phase(task, Phase::RunPlain(first), Event::Crashed(e)) == Phase::Failed(e@),
        next_phase(task, Phase::AskFile, Event::FileExists(false)) == Phase::Failed(
            "File does not exist"@,
        ),
        next_phase(task, Phase::Copy, Event::Copied(Err(e))) == Phase::Failed(e@),
        next_phase(task, Phase::Remove, Event::Removed(Err(e))) == Phase::Failed(e@),
{
}

/// The steps are the same for all downloads, but for what is done with a file that was found: only
/// whether it stays makes a difference.
pub proof fn law_steps_are_the_same_for_all(a: Task, b: Task, phase: Phase, event: Event)
    requires
        fits(phase, event),
        a.tmp == b.tmp || event != Event::FileExists(true),
    ensures
        next_phase(a, phase, event) == next_phase(b, phase, event),
{
}

/// The first step depends on the URL alone: a URL that is no test begins with the question for the
/// directory, a test that fails at once is over, and one that waits begins with waiting.
pub proof fn law_first_steps(task: Task)
    ensures
        first_phase(task) is AskTmpDir <==> !is_test(task.url),
        test_plan(task.url) matches TestPlan::Fail(m) ==> first_phase(task) == Phase::Failed(m),
        test_plan(task.url) matches TestPlan::DelayThenFail(n, m) ==> first_phase(task)
            == Phase::Delay(n, m),
{
}

/// One more event.
proof fn lemma_one_more(task: Task, events: Seq<Event>, event: Event)
    ensures
        possible(task, events.push(event)) <==> possible(task, events) && fits(
            phase_after(task, events),
            event,
        ),
        phase_after(task, events.push(event)) == next_phase(
            task,
            phase_after(task, events),
            event,
        ),
{
    assert(events.push(event).drop_last() =~= events);
}

/// The events of a download in which everything goes well in the end: the directory is there or
/// is created, yt-dlp runs well at once or after a first failure, the file is found and, unless it
/// stays, copied and removed.
pub open spec fn good_events(there: bool, failure: Option<String>, tmp: bool) -> Seq<Event> {
    (if there {
        seq![Event::TmpDirExists(true)]
    } else {
        seq![Event::TmpDirExists(false), Event::TmpDirCreated(Ok(()))]
    }) + seq![Event::Prepared(Ok(()))] + (match failure {
        None => seq![Event::Ran(Ok(()))],
        Some(e) => seq![Event::Ran(Err(e)), Event::Ran(Ok(()))],
    }) + seq![Event::FileExists(true)] + (if tmp {
        seq![]
    } else {
        seq![Event::Copied(Ok(())), Event::Removed(Ok(()))]
    })
}

/// Success is reached: every download of a URL that is no test can take the events of a download
/// in which everything goes well, and has then succeeded.
pub proof fn law_success_is_reached(task: Task, there: bool, failure: Option<String>)
    requires
        !is_test(task.url),
    ensures
        possible(task, good_events(there, failure, task.tmp)),
        phase_after(task, good_events(there, failure, task.tmp)) is Succeeded,
{
    let e0 = Seq::<Event>::empty();
    let e1 = e0.push(Event::TmpDirExists(there));
    lemma_one_more(task, e0, Event::TmpDirExists(there));
    let e2 = if there {
        e1
    } else {
        e1.push(Event::TmpDirCreated(Ok(())))
    };
    lemma_one_more(task, e1, Event::TmpDirCreated(Ok(())));
    let e3 = e2.push(Event::Prepared(Ok(())));
    lemma_one_more(task, e2, Event::Prepared(Ok(())));
    let e4 = match failure {
        None => e3,
        Some(e) => {
            lemma_one_more(task, e3, Event::Ran(Err(e)));
            e3.push(Event::Ran(Err(e)))
        },
    };
    let e5 = e4.push(Event::Ran(Ok(())));
    lemma_one_more(task, e4, Event::Ran(Ok(())));
    let e6 = e5.push(Event::FileExists(true));
    lemma_one_more(task, e5, Event::FileExists(true));
    let e7 = e6.push(Event::Copied(Ok(())));
    lemma_one_more(task, e6, Event::Copied(Ok(())));
    let e8 = e7.push(Event::Removed(Ok(())));
    lemma_one_more(task, e7, Event::Removed(Ok(())));
    let end = if task.tmp {
        e6
    } else {
        e8
    };
    assert(good_events(there, failure, task.tmp) =~= end);
}

/// Where the directory is there and nothing fails, a download takes four events for a file that
/// stays and six for one that does not, and succeeds.
pub proof fn law_plain_success(task: Task)
    requires
        !is_test(task.url),
    ensures
        task.tmp ==> {
            let events = seq![
                Event::TmpDirExists(true),
                Event::Prepared(Ok(())),
                Event::Ran(Ok(())),
                Event::FileExists(true),
            ];
            possible(task, events) && phase_after(task, events) is Succeeded
        },
        !task.tmp ==> {
            let events = seq![
                Event::TmpDirExists(true),
                Event::Prepared(Ok(())),
                Event::Ran(Ok(())),
                Event::FileExists(true),
                Event::Copied(Ok(())),
                Event::Removed(Ok(())),
            ];
            possible(task, events) && phase_after(task, events) is Succeeded
        },
{
    law_success_is_reached(task, true, None);
    let stays = seq![
        Event::TmpDirExists(true),
        Event::Prepared(Ok(())),
        Event::Ran(Ok(())),
        Event::FileExists(true),
    ];
    let moves = stays.push(Event::Copied(Ok(()))).push(Event::Removed(Ok(())));
    assert(task.tmp ==> good_events(true, None, true) =~= stays);
    assert(!task.tmp ==> good_events(true, None, false) =~= moves);
    assert(moves =~= seq![
        Event::TmpDirExists(true),
        Event::Prepared(Ok(())),
        Event::Ran(Ok(())),
        Event::FileExists(true),
        Event::Copied(Ok(())),
        Event::Removed(Ok(())),
    ]);
}

/// A download and its steps are seen whole.
pub proof fn law_downloads_are_seen_whole(job: Job, n: u64, m: String)
    ensures
        job@.id == job.id@,
        job@.url == job.url@,
        job@.audio == job.audio,
        job@.quality == job.quality,
        job@.tmp == job.tmp,
        job@.tmp_dir == job.tmp_dir@,
        job@.output_dir == job.output_dir@,
        job@.max_file_size == job.max_file_size,
        Step::Delay(n, m)@ == Phase::Delay(n as nat, m@),
        Step::AskTmpDir@ == Phase::AskTmpDir,
        Step::CreateTmpDir@ == Phase::CreateTmpDir,
        Step::Prepare@ == Phase::Prepare,
        Step::Run@ == Phase::Run,
        Step::RunPlain(m)@ == Phase::RunPlain(m@),
        Step::AskFile@ == Phase::AskFile,
        Step::Copy@ == Phase::Copy,
        Step::Remove@ == Phase::Remove,
        Step::Done(Ok(()))@ == Phase::Succeeded,
        Step::Done(Err(m))@ == Phase::Failed(m@),
{
}

/// Two hyphens stand in a row nowhere from position `from` on.
pub open spec fn no_double_hyphen(s: Seq<char>, from: int) -> bool {
    forall|i: int| from <= i && i + 1 < s.len() && #[trigger] s[i] == '-' ==> s[i + 1] != '-'
}

/// A text in which two hyphens stand in a row at most at its beginning, and not before an `e`,
/// says nothing of thumbnails.
proof fn lemma_no_thumbnail(s: Seq<char>)
    requires
        no_double_hyphen(s, 1),
        s.len() > 2 ==> s[2] != 'e',
    ensures
        !occurs(s, "--embed-thumbnail"@),
{
    reveal_strlit("--embed-thumbnail");
    let n = "--embed-thumbnail"@;
    assert forall|at: int| !occurs_at(s, n, at) by {
        if occurs_at(s, n, at) {
            let part = s.subrange(at, at + n.len());
            assert(part[0] == s[at] && part[1] == s[at + 1] && part[2] == s[at + 2]);
        }
    }
}

/// An option with input says nothing of thumbnails where neither of the two does.
proof fn lemma_no_thumbnail_with(arg: Seq<char>, input: Seq<char>)
    requires
        arg.len() > 2 ==> arg[2] != 'e',
        arg.len() > 1,
        no_double_hyphen(arg, 1),
        no_double_hyphen(input, 0),
    ensures
        no_thumbnail(option_with(arg, input)),
{
    reveal_strlit(" ");
    let s = arg + " "@ + input;
    let n = arg.len() as int;
    assert(s[n] == ' ');
    assert forall|i: int| 1 <= i && i + 1 < s.len() && #[trigger] s[i] == '-' implies s[i + 1]
        != '-' by {
        if i + 1 < n {
            assert(s[i] == arg[i] && s[i + 1] == arg[i + 1]);
        } else if i > n {
            assert(s[i] == input[i - n - 1] && s[i + 1] == input[i - n]);
        }
    }
    assert(s[2] == if n > 2 {
        arg[2]
    } else {
        ' '
    });
    lemma_no_thumbnail(s);
}

/// A text that is too short says nothing of thumbnails.
proof fn lemma_short(s: Seq<char>)
    requires
        s.len() < 17,
    ensures
        !occurs(s, "--embed-thumbnail"@),
{
    reveal_strlit("--embed-thumbnail");
}

proof fn lemma_output(id: Seq<char>)
    requires
        is_id(id),
    ensures
        no_thumbnail(option_with("--output"@, id + ".%(ext)s"@)),
{
    reveal_strlit("--output");
    reveal_strlit(".%(ext)s");
    let input = id + ".%(ext)s"@;
    assert forall|i: int| 0 <= i && i + 1 < input.len() && #[trigger] input[i] == '-' implies input[i
        + 1] != '-' by {
        if i < 36 {
            assert(input[i] == id[i]);
            if i + 1 < 36 {
                assert(input[i + 1] == id[i + 1]);
            }
        }
    }
    lemma_no_thumbnail_with("--output"@, input);
}

proof fn lemma_max_filesize(n: nat)
    ensures
        no_thumbnail(option_with("--max-filesize"@, decimal_text(n) + "M"@)),
{
    reveal_strlit("--max-filesize");
    reveal_strlit("M");
    law_decimal_text_is_digits(n);
    let input = decimal_text(n) + "M"@;
    assert forall|i: int| 0 <= i && i + 1 < input.len() implies #[trigger] input[i] != '-' by {
        assert(input[i] == decimal_text(n)[i]);
        assert(is_digit(decimal_text(n)[i]));
    }
    lemma_no_thumbnail_with("--max-filesize"@, input);
}

proof fn lemma_preference(quality: Quality)
    ensures
        no_thumbnail(option_with("-S"@, preference(quality))),
{
    reveal_strlit("-S");
    reveal_strlit("");
    reveal_strlit("height:480,");
    reveal_strlit("height:240,");
    reveal_strlit("res,ext:mp4:m4a");
    lemma_no_thumbnail_with("-S"@, preference(quality));
}

proof fn lemma_audio_format()
    ensures
        no_thumbnail(option_with("--audio-format"@, "mp3"@)),
{
    reveal_strlit("--audio-format");
    reveal_strlit("mp3");
    lemma_no_thumbnail_with("--audio-format"@, "mp3"@);
}

proof fn lemma_short_options()
    ensures
        no_thumbnail(option("--verbose"@)),
        no_thumbnail(option("--embed-metadata"@)),
        no_thumbnail(option("--no-playlist"@)),
        no_thumbnail(option("--force-ipv4"@)),
        no_thumbnail(option("-x"@)),
        no_thumbnail(option_with("--recode"@, "mp4"@)),
        !no_thumbnail(option("--embed-thumbnail"@)),
{
    reveal_strlit("--verbose");
    reveal_strlit("--embed-metadata");
    reveal_strlit("--no-playlist");
    reveal_strlit("--force-ipv4");
    reveal_strlit("-x");
    reveal_strlit("--recode");
    reveal_strlit("mp4");
    reveal_strlit(" ");
    lemma_short("--verbose"@);
    lemma_short("--embed-metadata"@);
    lemma_short("--no-playlist"@);
    lemma_short("--force-ipv4"@);
    lemma_short("-x"@);
    lemma_short("--recode"@ + " "@ + "mp4"@);
    let n = "--embed-thumbnail"@;
    assert(n.subrange(0, n.len() as int) =~= n);
    assert(occurs_at(n, n, 0));
}

/// The second run of yt-dlp differs from the first by one argument, the one that asks for
/// thumbnails.
pub proof fn law_second_run_only_drops_thumbnails(task: Task)
    requires
        is_id(task.id),
    ensures
        task.arguments()[3] == option("--embed-thumbnail"@),
        plain_arguments(task.arguments()) == task.arguments().remove(3),
{
    let args = task.arguments();
    lemma_output(task.id);
    lemma_max_filesize((task.max_file_size / 1024 / 1024) as nat);
    lemma_preference(task.quality);
    lemma_audio_format();
    lemma_short_options();
    let pred = |a: Argument| no_thumbnail(a);
    assert(args.len() == 9);
    assert forall|i: int| 0 <= i < args.len() && i != 3 implies pred(#[trigger] args[i]) by {
        assert(i == 0 || i == 1 || i == 2 || i == 4 || i == 5 || i == 6 || i == 7 || i == 8);
    }
    lemma_filter_drops_one(args, pred, 3);
}

/// The limit that yt-dlp is told is the largest whole number of mebibytes within the limit of
/// the settings.
pub proof fn law_size_limit_is_kept(task: Task)
    ensures
        ({
            let m = (task.max_file_size / 1024 / 1024) as nat;
            &&& task.arguments()[6] == option_with("--max-filesize"@, decimal_text(m) + "M"@)
            &&& m * 1048576 <= task.max_file_size < (m + 1) * 1048576
        }),
{
}

/// The file of a download lies in the directory itself: its name leads nowhere else.
pub proof fn law_file_names_stay_in_their_directory(id: Seq<char>, audio: bool)
    requires
        is_id(id),
    ensures
        !name_of_file(id, audio).contains('/'),
        !name_of_file(id, audio).contains('\\'),
{
    reveal_strlit(".");
    reveal_strlit("mp3");
    reveal_strlit("mp4");
    let name = name_of_file(id, audio);
    assert forall|i: int| 0 <= i < name.len() implies name[i] != '/' && name[i] != '\\' by {
        if i < 36 {
            assert(name[i] == id[i]);
        }
    }
}

/// The files of two downloads have different names.
pub proof fn law_files_do_not_clash(a: Seq<char>, b: Seq<char>, audio: bool, other: bool)
    requires
        is_id(a),
        is_id(b),
        name_of_file(a, audio) == name_of_file(b, other),
    ensures
        a == b,
        audio == other,
{
    reveal_strlit(".");
    reveal_strlit("mp3");
    reveal_strlit("mp4");
    let name = name_of_file(a, audio);
    assert(name.take(36) =~= a);
    assert(name.take(36) =~= b);
    assert(name[39] == if audio {
        '3'
    } else {
        '4'
    });
    assert(name[39] == if other {
        '3'
    } else {
        '4'
    });
}

} // verus!
