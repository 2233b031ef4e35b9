use ytdl::config::Config;
use ytdl::download::{
    download_args, file_name, without_thumbnail, Arg, DownloadInfo, Quality,
};
use ytdl::job::{Event, Job, Step};
use ytdl::url_test::{url_tests, UrlTest};

fn config() -> Config {
    Config {
        host: "h".to_string(),
        port: 1,
        auth_keys: vec![],
        video_dir: "/video".to_string(),
        audio_dir: "/audio".to_string(),
        tmp_dir: "/tmp".to_string(),
        expire_time: 60,
        max_file_size: 50 * 1024 * 1024 + 5,
    }
}

fn info(url: &str, audio: Option<bool>) -> DownloadInfo {
    DownloadInfo {
        url: url.to_string(),
        audio,
        auth_key: Some("secret".to_string()),
        quality: Quality::default(),
    }
}

fn job(url: &str, audio: Option<bool>, tmp: bool) -> Job {
    Job::new("id1".to_string(), &info(url, audio), tmp, &config())
}

fn shown(args: &Vec<Arg>) -> Vec<String> {
    args.iter().map(|a| a.show()).collect()
}

fn failed() -> Result<(), String> {
    Err("no".to_string())
}

fn failure(step: Step) -> String {
    match step {
        Step::Done(Err(m)) => m,
        other => panic!("{:?}", other),
    }
}

#[test]
fn urls_that_are_no_tests() {
    for url in ["", "https://x/TEST ERROR", "TEST", "TESTERROR", "test ERROR", " TEST ERROR",
        "TEST TEST ERROR", "TEST ERROR TEST x"] {
        assert!(matches!(url_tests(url), UrlTest::Proceed), "{}", url);
    }
}

#[test]
fn url_test_commands() {
    assert!(matches!(url_tests("TEST ERROR"), UrlTest::Fail(m) if m == "Test error"));
    assert!(matches!(url_tests("TEST ERROR now"), UrlTest::Fail(m) if m == "Test error"));
    assert!(matches!(url_tests("TEST DELAY 15"),
        UrlTest::DelayThenFail(15, m) if m == "Test delay finished"));
    assert!(matches!(url_tests("TEST DELAY 15 x"), UrlTest::DelayThenFail(15, _)));
    assert!(matches!(url_tests("TEST DELAY x"),
        UrlTest::Fail(m) if m == "invalid digit found in string"));
    assert!(matches!(url_tests("TEST DELAY "),
        UrlTest::Fail(m) if m == "cannot parse integer from empty string"));
    assert!(matches!(url_tests("TEST DELAY 18446744073709551616"),
        UrlTest::Fail(m) if m == "number too large to fit in target type"));
    assert!(matches!(url_tests("TEST DELAY"),
        UrlTest::Fail(m) if m == "Invalid test command: DELAY "));
    assert!(matches!(url_tests("TEST "), UrlTest::Fail(m) if m == "Invalid test command:  "));
    assert!(matches!(url_tests("TEST a b c"),
        UrlTest::Fail(m) if m == "Invalid test command: a b"));
}

#[test]
fn quality_names() {
    assert_eq!(Quality::from_name("high"), Ok(Quality::High));
    assert_eq!(Quality::from_name("medium"), Ok(Quality::Medium));
    assert_eq!(Quality::from_name("low"), Ok(Quality::Low));
    assert_eq!(Quality::default(), Quality::High);
    assert_eq!(
        Quality::from_name("best").unwrap_err(),
        "unknown variant `best`, expected one of `high`, `medium`, `low`"
    );
}

#[test]
fn descriptions_hide_the_key() {
    let d = info("https://x", Some(true));
    assert_eq!(
        d.describe(),
        "###FAILED DOWNLOAD INFO###\nurl: https://x\naudio: true\nauth_key: #REDACTED#"
    );
    let mut e = d.clone();
    e.auth_key = None;
    assert_eq!(d.describe(), e.describe());
    assert!(!d.describe().contains("secret"));
    assert!(info("u", None).describe().contains("\naudio: false\n"));
    assert!(!info("u", None).wants_audio());
    assert!(!info("u", Some(false)).wants_audio());
}

#[test]
fn arguments_are_shown() {
    assert_eq!(Arg::new("--verbose").show(), "--verbose");
    assert_eq!(Arg::new_with_arg("--recode", "mp4").show(), "--recode mp4");
}

#[test]
fn arguments_for_sound() {
    let args = download_args("id1", true, Quality::Low, 1024 * 1024 - 1);
    assert_eq!(
        shown(&args),
        vec![
            "--output id1.%(ext)s",
            "--verbose",
            "--embed-metadata",
            "--embed-thumbnail",
            "--no-playlist",
            "--force-ipv4",
            "--max-filesize 0M",
            "-x",
            "--audio-format mp3",
        ]
    );
}

#[test]
fn arguments_for_pictures() {
    for (quality, wish) in [
        (Quality::High, "-S res,ext:mp4:m4a"),
        (Quality::Medium, "-S height:480,res,ext:mp4:m4a"),
        (Quality::Low, "-S height:240,res,ext:mp4:m4a"),
    ] {
        let args = shown(&download_args("id1", false, quality, 7 * 1024 * 1024));
        assert_eq!(args[6], "--max-filesize 7M");
        assert_eq!(args[7], wish);
        assert_eq!(args[8], "--recode mp4");
        assert_eq!(args.len(), 9);
    }
}

#[test]
fn second_run_leaves_thumbnails_out() {
    let id = "0a1b2c3d-0123-4567-89ab-0123456789ab";
    for audio in [true, false] {
        let args = download_args(id, audio, Quality::Medium, u64::MAX);
        let mut wanted = shown(&args);
        assert_eq!(wanted.remove(3), "--embed-thumbnail");
        assert_eq!(shown(&without_thumbnail(&args)), wanted);
    }
    let odd = vec![Arg::new_with_arg("--x", "a--embed-thumbnailb"), Arg::new("--y")];
    assert_eq!(shown(&without_thumbnail(&odd)), vec!["--y"]);
}

#[test]
fn file_names() {
    assert_eq!(file_name("id1", true), "id1.mp3");
    assert_eq!(file_name("id1", false), "id1.mp4");
}

#[test]
fn jobs_follow_request_and_settings() {
    let j = job("u", Some(true), false);
    assert_eq!(j.output_dir, "/audio");
    assert_eq!(j.tmp_dir, "/tmp");
    assert_eq!(j.file_name(), "id1.mp3");
    assert_eq!(shown(&j.args())[6], "--max-filesize 50M");
    assert_eq!(j.plain_args().len(), 8);
    let j = job("u", None, true);
    assert_eq!(j.output_dir, "/video");
    assert_eq!(j.file_name(), "id1.mp4");
    assert!(j.tmp);
}

#[test]
fn a_download_that_goes_well() {
    let j = job("https://x", None, false);
    let s = j.start();
    assert!(matches!(s, Step::AskTmpDir));
    let s = j.download(s, Event::TmpDirExists(false));
    assert!(matches!(s, Step::CreateTmpDir));
    let s = j.download(s, Event::TmpDirCreated(Ok(())));
    assert!(matches!(s, Step::Prepare));
    let s = j.download(s, Event::Prepared(Ok(())));
    assert!(matches!(s, Step::Run));
    let s = j.download(s, Event::Ran(Ok(())));
    assert!(matches!(s, Step::AskFile));
    let s = j.download(s, Event::FileExists(true));
    assert!(matches!(s, Step::Copy));
    let s = j.download(s, Event::Copied(Ok(())));
    assert!(matches!(s, Step::Remove));
    let s = j.download(s, Event::Removed(Ok(())));
    assert!(matches!(s, Step::Done(Ok(()))));
}

#[test]
fn a_download_that_stays_is_not_copied() {
    let j = job("https://x", None, true);
    let s = j.download(j.start(), Event::TmpDirExists(true));
    assert!(matches!(s, Step::Prepare));
    assert!(matches!(j.download(Step::AskFile, Event::FileExists(true)), Step::Done(Ok(()))));
}

#[test]
fn the_first_failure_is_reported() {
    let j = job("https://x", None, false);
    let s = j.download(Step::Run, Event::Ran(Err("first".to_string())));
    assert!(matches!(&s, Step::RunPlain(m) if m == "first"));
    let s = j.download(s, Event::Ran(Err("second".to_string())));
    assert_eq!(failure(s), "first");
    let s = j.download(Step::RunPlain("first".to_string()), Event::Ran(Ok(())));
    assert!(matches!(s, Step::AskFile));
}

#[test]
fn failures_end_a_download() {
    let j = job("https://x", None, false);
    assert_eq!(failure(j.download(Step::CreateTmpDir, Event::TmpDirCreated(failed()))), "no");
    assert_eq!(failure(j.download(Step::Prepare, Event::Prepared(failed()))), "no");
    assert_eq!(failure(j.download(Step::Run, Event::Crashed("boom".to_string()))), "boom");
    assert_eq!(
        failure(j.download(Step::AskFile, Event::FileExists(false))),
        "File does not exist"
    );
    assert_eq!(failure(j.download(Step::Copy, Event::Copied(failed()))), "no");
    assert_eq!(failure(j.download(Step::Remove, Event::Removed(failed()))), "no");
}

#[test]
fn tests_never_reach_a_download() {
    assert_eq!(failure(job("TEST ERROR", None, false).start()), "Test error");
    let j = job("TEST DELAY 3", None, false);
    let s = j.start();
    assert!(matches!(&s, Step::Delay(3, _)));
    assert_eq!(failure(j.download(s, Event::DelayOver)), "Test delay finished");
}
