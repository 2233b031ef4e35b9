use ytdl::config::{AuthInfo, Config};
use ytdl::download::{DownloadInfo, Quality};
use ytdl::handles::TaskEnd;
use ytdl::process::{
    formats_command, install_and_update_ytdlp, output_text, parse_args, stated_version,
    update_command, update_result, version_command, Invocation,
};
use ytdl::routes::{
    check, get, get_info_route, get_now, refuse_unauthorized, Body, Known, NowOutcome, Reply,
};

fn config() -> Config {
    Config {
        host: "h".to_string(),
        port: 1,
        auth_keys: vec![AuthInfo { user: "u".to_string(), key: "k".to_string() }],
        video_dir: String::new(),
        audio_dir: String::new(),
        tmp_dir: String::new(),
        expire_time: 0,
        max_file_size: 0,
    }
}

fn info(key: Option<&str>) -> DownloadInfo {
    DownloadInfo {
        url: "https://x".to_string(),
        audio: None,
        auth_key: key.map(|k| k.to_string()),
        quality: Quality::High,
    }
}

fn assert_text(r: &Reply, status: u16, text: &str) {
    assert_eq!(r.status, status);
    match &r.body {
        Body::Text(t) => assert_eq!(t, text),
        other => panic!("{:?}", other),
    }
    assert!(r.headers().is_empty());
}

#[test]
fn requests_without_a_known_key_are_refused() {
    assert!(refuse_unauthorized(&config(), &info(Some("k"))).is_none());
    for key in [None, Some(""), Some("K"), Some("kk")] {
        let r = refuse_unauthorized(&config(), &info(key)).unwrap();
        assert_text(&r, 401, "Invalid auth key");
    }
}

#[test]
fn answers_with_a_file() {
    let r = get_now(NowOutcome::File(Some("id.mp3".to_string()), vec![1, 2]));
    assert_eq!(r.status, 200);
    assert_eq!(
        r.headers(),
        vec![
            ("Content-Disposition".to_string(), "attachment; filename=id.mp3".to_string()),
            ("Content-Type".to_string(), "video/mp4".to_string()),
        ]
    );
    match r.body {
        Body::File(name, bytes) => {
            assert_eq!(name, "id.mp3");
            assert_eq!(bytes, vec![1, 2]);
        }
        other => panic!("{:?}", other),
    }
    let r = get_now(NowOutcome::File(None, vec![]));
    assert_eq!(r.headers()[0].1, "attachment; filename=file");
}

#[test]
fn answers_without_a_file() {
    assert_text(&get_now(NowOutcome::Failed("f".to_string())), 500, "f");
    assert_text(&get_now(NowOutcome::Unreadable("u".to_string())), 500, "u");
}

#[test]
fn answers_with_an_id() {
    assert_text(&get("id".to_string()), 200, "id");
}

#[test]
fn answers_to_format_queries() {
    let r = get_info_route(Ok("{}".to_string()));
    assert_eq!(r.status, 200);
    assert!(matches!(&r.body, Body::Json(t) if t == "{}"));
    assert_eq!(r.headers(), vec![("Content-Type".to_string(), "application/json".to_string())]);
    assert_text(&get_info_route(Err("bad".to_string())), 400, "bad");
}

#[test]
fn answers_about_downloads() {
    assert_text(&check("id", Known::NotFound), 200, "not found");
    assert_text(&check("id", Known::NotFinished), 200, "not finished");
    assert_text(
        &check("id", Known::Over(info(None), TaskEnd::Finished)),
        200,
        "id finished successfully",
    );
    assert_text(
        &check("id", Known::Over(info(Some("k")), TaskEnd::Failed("e".to_string()))),
        200,
        "id failed: e\n\nInfo: ###FAILED DOWNLOAD INFO###\nurl: https://x\naudio: false\nauth_key: #REDACTED#\n",
    );
}

#[test]
fn output_as_text() {
    assert_eq!(output_text("häh".as_bytes()), Ok("häh".to_string()));
    assert_eq!(output_text(&[]), Ok(String::new()));
    let bad = [b'a', 0xff, b'b'];
    assert_eq!(output_text(&bad), Err(std::str::from_utf8(&bad).unwrap_err().to_string()));
    let cut = [b'a', 0xc3];
    assert_eq!(output_text(&cut), Err(std::str::from_utf8(&cut).unwrap_err().to_string()));
}

#[test]
fn updates() {
    let v = || Some("2024.08.06".to_string());
    assert_eq!(update_result("", v()), Ok("2024.08.06".to_string()));
    assert_eq!(update_result("WARNING: old", v()), Ok("2024.08.06".to_string()));
    assert_eq!(update_result("WARNING: old", None), Err("WARNING: old".to_string()));
    assert_eq!(update_result("x\nERROR: y", v()), Err("x\nERROR: y".to_string()));
    let v = Some(&b"2024.08.06\n"[..]);
    assert_eq!(install_and_update_ytdlp(b"notice", v), Ok("2024.08.06".to_string()));
    assert_eq!(install_and_update_ytdlp(b"an ERROR", v), Err("an ERROR".to_string()));
    let bad = std::str::from_utf8(&[0xff]).unwrap_err().to_string();
    assert_eq!(install_and_update_ytdlp(&[0xff], v), Err(bad.clone()));
    assert_eq!(install_and_update_ytdlp(&[0xff], None), Err(bad));
}

#[test]
fn an_update_without_a_program_failed() {
    let pip = b"python: No module named pip";
    assert_eq!(
        install_and_update_ytdlp(pip, None),
        Err("python: No module named pip".to_string())
    );
    assert_eq!(install_and_update_ytdlp(pip, Some(b"1\n")), Ok("1".to_string()));
    assert_eq!(install_and_update_ytdlp(b"", None), Err(String::new()));
}

#[test]
fn versions() {
    assert_eq!(stated_version(None), None);
    assert_eq!(stated_version(Some(b" 2024.08.06\r\n")), Some("2024.08.06".to_string()));
    assert_eq!(stated_version(Some(b"")), Some(String::new()));
    assert_eq!(stated_version(Some(&[0xff])), None);
}

#[test]
fn command_lines() {
    let c = update_command();
    assert_eq!(c.program, "python");
    assert_eq!(c.args, vec!["-m", "pip", "install", "--upgrade", "yt-dlp"]);
    let c = version_command();
    assert_eq!(c.program, "yt-dlp");
    assert_eq!(c.args, vec!["--version"]);
    let c = formats_command("https://x");
    assert_eq!(c.program, "yt-dlp");
    assert_eq!(
        c.args,
        vec!["--dump-json", "--skip-download", "--no-playlist", "--force-ipv4", "https://x"]
    );
}

#[test]
fn invocations() {
    let args = |list: &[&str]| list.iter().map(|s| s.to_string()).collect::<Vec<String>>();
    assert_eq!(parse_args(&args(&[])), Invocation::Serve);
    assert_eq!(parse_args(&args(&["p"])), Invocation::Serve);
    assert_eq!(parse_args(&args(&["p", "-x"])), Invocation::Serve);
    assert_eq!(parse_args(&args(&["p", "-a"])), Invocation::AddUser);
    assert_eq!(parse_args(&args(&["p", "-r"])), Invocation::RemoveUser);
    assert_eq!(parse_args(&args(&["p", "-l"])), Invocation::ListUsers);
    assert_eq!(parse_args(&args(&["p", "-a", "x"])), Invocation::Invalid);
    assert_eq!(parse_args(&args(&["p", "x", "-a"])), Invocation::Invalid);
}
