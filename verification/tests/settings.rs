use ytdl::config::{AuthInfo, Config};
use ytdl::keys::{generate_api_key, invite_link, key_of};
use ytdl::setup::{
    safe_get, safe_get_dir, validate_dir, wants_reload, ConfigLoader, DirEvent, DirStep, Field,
    MaybeConfig, WatchKind,
};

fn account(user: &str, key: &str) -> AuthInfo {
    AuthInfo { user: user.to_string(), key: key.to_string() }
}

fn config() -> Config {
    Config {
        host: "127.0.0.1".to_string(),
        port: 8080,
        auth_keys: vec![account("ann", "k1"), account("bob", "k2"), account("ann", "k3")],
        video_dir: "/srv/video".to_string(),
        audio_dir: "/srv/audio".to_string(),
        tmp_dir: "/srv/tmp".to_string(),
        expire_time: 3600,
        max_file_size: 1 << 30,
    }
}

fn key(k: &str) -> Option<String> {
    Some(k.to_string())
}

#[test]
fn directories_and_address() {
    let c = config();
    assert_eq!(c.get_video_dir(), "/srv/video");
    assert_eq!(c.get_audio_dir(), "/srv/audio");
    assert_eq!(c.get_tmp_dir(), "/srv/tmp");
    assert_eq!(c.bind_address(), "127.0.0.1:8080");
    assert_eq!(c.dirs_to_check(), vec!["/srv/video", "/srv/audio"]);
}

#[test]
fn only_known_keys_are_served() {
    let c = config();
    assert!(c.is_authorized(&key("k1")));
    assert!(c.is_authorized(&key("k3")));
    assert!(!c.is_authorized(&key("k4")));
    assert!(!c.is_authorized(&key("")));
    assert!(!c.is_authorized(&None));
}

#[test]
fn adding_and_removing_users() {
    let mut c = config();
    c.add_user("cat".to_string(), "k4".to_string());
    assert!(c.is_authorized(&key("k4")));
    assert_eq!(c.user_names(), vec!["ann", "bob", "ann", "cat"]);
    assert!(c.remove_user("cat"));
    assert!(!c.is_authorized(&key("k4")));
    assert_eq!(c.user_names(), vec!["ann", "bob", "ann"]);
    assert!(!c.remove_user("cat"));
    assert_eq!(c.user_names(), vec!["ann", "bob", "ann"]);
}

#[test]
fn removing_takes_the_first_account_of_the_name() {
    let mut c = config();
    assert!(c.remove_user("ann"));
    assert!(!c.is_authorized(&key("k1")));
    assert!(c.is_authorized(&key("k2")));
    assert!(c.is_authorized(&key("k3")));
    assert_eq!(c.user_names(), vec!["bob", "ann"]);
}

#[test]
fn copies_of_settings() {
    let c = config().clone();
    assert_eq!(c.user_names(), vec!["ann", "bob", "ann"]);
    assert_eq!(c.bind_address(), "127.0.0.1:8080");
    assert_eq!(c.expire_time, 3600);
    assert_eq!(c.max_file_size, 1 << 30);
}

#[test]
fn keys_are_made_of_the_alphabet() {
    let alphabet = "0123456789abcdefghijklmnopqrstuvwxyzABCDEFGHIJKLMNOPQRSTUVWXYZ!@#$%&*?";
    let a = generate_api_key();
    let b = generate_api_key();
    assert_eq!(a.chars().count(), 128);
    assert!(a.chars().all(|c| alphabet.contains(c)));
    assert_ne!(a, b);
}

#[test]
fn invite_links() {
    assert_eq!(
        invite_link("aZ09-._~"),
        "https://ytdlp.deadlyneurotox.in/invite.html?key=aZ09-._~"
    );
    assert_eq!(
        invite_link("!@#$%&*? /+ä"),
        "https://ytdlp.deadlyneurotox.in/invite.html?key=%21%40%23%24%25%26%2A%3F%20%2F%2B%C3%A4"
    );
    assert_ne!(invite_link("a%20"), invite_link("a "));
}

#[test]
fn invite_links_hand_the_key_over() {
    for _ in 0..20 {
        let key = generate_api_key();
        let link = invite_link(&key);
        let tail = link.strip_prefix("https://ytdlp.deadlyneurotox.in/invite.html?key=").unwrap();
        assert_eq!(urlencoding::decode(tail).unwrap(), key);
        assert!(!tail.contains('&') && !tail.contains('#') && !tail.contains('?'));
    }
}

#[test]
fn invited_users_get_the_key_that_is_stored() {
    let mut c = config();
    let link = c.invite_user("dan".to_string());
    let stored = c.auth_keys.last().unwrap();
    assert_eq!(stored.user, "dan");
    assert_eq!(link, invite_link(&stored.key));
    assert!(c.is_authorized(&Some(stored.key.clone())));
    assert_eq!(c.auth_keys.len(), 4);
}

#[test]
fn answers() {
    assert_eq!(safe_get::<String>("  x y \n"), Some("x y".to_string()));
    assert_eq!(safe_get::<String>("\n"), Some(String::new()));
    assert_eq!(safe_get::<u16>(" 8080\n"), Some(8080));
    assert_eq!(safe_get::<u16>("65536"), None);
    assert_eq!(safe_get::<u64>("18446744073709551615"), Some(u64::MAX));
    assert_eq!(safe_get::<u64>("-1"), None);
    assert_eq!(safe_get::<i64>("-1\r\n"), Some(-1));
    assert_eq!(safe_get::<i64>("1 2"), None);
}

#[test]
fn questions_for_everything() {
    let mut found = MaybeConfig::default();
    let answers = [
        (Field::Host, " localhost \n"),
        (Field::Port, "80\n"),
        (Field::ExpireTime, "-60\n"),
        (Field::VideoDir, "/v\n"),
        (Field::AudioDir, "/a\n"),
        (Field::TmpDir, "/t\n"),
        (Field::MaxFileSize, "1048576\n"),
    ];
    for (field, line) in answers {
        assert_eq!(found.next_question(), Some(field));
        if field.is_dir() {
            assert_eq!(found.answer_dir(field, line, Ok(line.trim().to_string())), Ok(()));
        } else {
            assert!(found.answer(field, line));
        }
    }
    assert_eq!(found.next_question(), None);
    let c = Config::new(found).unwrap();
    assert_eq!(c.host, "localhost");
    assert_eq!(c.port, 80);
    assert_eq!(c.expire_time, -60);
    assert_eq!(c.video_dir, "/v");
    assert_eq!(c.audio_dir, "/a");
    assert_eq!(c.tmp_dir, "/t");
    assert_eq!(c.max_file_size, 1048576);
    assert!(c.auth_keys.is_empty());
}

#[test]
fn bad_answers_change_nothing() {
    let mut found = MaybeConfig::default();
    assert!(found.answer(Field::Host, "h"));
    for line in ["", "x", "70000", "-1"] {
        assert!(!found.answer(Field::Port, line));
        assert_eq!(found.next_question(), Some(Field::Port));
    }
    assert!(!found.answer(Field::ExpireTime, "soon"));
    assert!(!found.answer(Field::MaxFileSize, "1.5"));
    assert_eq!(Config::new(found).unwrap_err(), Field::Port);
}

#[test]
fn saved_settings_need_no_questions() {
    let c = config();
    let found = MaybeConfig {
        host: Some(c.host.clone()),
        port: Some(c.port),
        auth_keys: Some(c.auth_keys.clone()),
        video_dir: Some(c.video_dir.clone()),
        audio_dir: Some(c.audio_dir.clone()),
        tmp_dir: Some(c.tmp_dir.clone()),
        expire_time: Some(c.expire_time),
        max_file_size: Some(c.max_file_size),
    };
    assert_eq!(found.next_question(), None);
    let back = Config::new(found).unwrap();
    assert_eq!(back.user_names(), c.user_names());
    assert_eq!(back.bind_address(), c.bind_address());
}

#[test]
fn prompts() {
    assert_eq!(Field::Host.prompt(), "Host");
    assert_eq!(Field::Port.prompt(), "Port");
    assert_eq!(Field::ExpireTime.prompt(), "Join handle expire time (seconds)");
    assert_eq!(
        Field::TmpDir.prompt(),
        "Temporary directory (absolute path) DIRECTORIES WILL BE CREATED IF THEY DO NOT EXIST"
    );
    assert_eq!(
        Field::VideoDir.prompt(),
        "Video directory (absolute path) DIRECTORIES WILL BE CREATED IF THEY DO NOT EXIST"
    );
    assert_eq!(
        Field::AudioDir.prompt(),
        "Audio directory (absolute path) DIRECTORIES WILL BE CREATED IF THEY DO NOT EXIST"
    );
    assert_eq!(Field::MaxFileSize.prompt(), "Max file size");
    assert!(Field::TmpDir.is_dir() && Field::VideoDir.is_dir() && Field::AudioDir.is_dir());
    assert!(!Field::Host.is_dir());
}

#[test]
fn loaded_settings_stay_until_reload() {
    let mut loader = ConfigLoader::new();
    assert!(loader.needs_load());
    assert!(loader.get(None).is_none());
    assert!(loader.needs_load());
    assert_eq!(loader.get(Some(config())).unwrap().port, 8080);
    assert!(!loader.needs_load());
    let mut other = config();
    other.port = 9090;
    assert_eq!(loader.get(Some(other.clone())).unwrap().port, 8080);
    loader.reload(other);
    assert_eq!(loader.get(None).unwrap().port, 9090);
}

#[test]
fn checking_directories() {
    assert!(matches!(validate_dir("/d", DirEvent::Exists(true)), DirStep::AskIsDir));
    assert!(matches!(validate_dir("/d", DirEvent::Exists(false)), DirStep::Create));
    assert!(matches!(validate_dir("/d", DirEvent::Created(Ok(()))), DirStep::AskIsDir));
    match validate_dir("/d", DirEvent::Created(Err("denied".to_string()))) {
        DirStep::Done(Err(m)) => assert_eq!(m, "denied"),
        other => panic!("{:?}", other),
    }
    match validate_dir("/d", DirEvent::IsDir(true)) {
        DirStep::Done(Ok(p)) => assert_eq!(p, "/d"),
        other => panic!("{:?}", other),
    }
    match validate_dir("/d", DirEvent::IsDir(false)) {
        DirStep::Done(Err(m)) => assert_eq!(m, "/d is not a directory"),
        other => panic!("{:?}", other),
    }
}

#[test]
fn directories_that_are_typed_in() {
    assert_eq!(
        safe_get_dir(" /srv/a b \n", Ok("/srv/a b".to_string())),
        Ok("/srv/a b".to_string())
    );
    assert_eq!(
        safe_get_dir("/etc/passwd\n", Err("/etc/passwd is not a directory".to_string())),
        Err("/etc/passwd is not a directory".to_string())
    );
}

#[test]
fn keys_are_what_was_drawn() {
    let mut drawn = vec!['a'; 128];
    drawn[0] = '?';
    drawn[1] = 'Z';
    drawn[127] = '0';
    let key = key_of(&drawn);
    assert_eq!(key.chars().collect::<Vec<char>>(), drawn);
    let made_up = generate_api_key();
    assert!(made_up.chars().any(|c| Some(c) != made_up.chars().next()));
}

#[test]
fn settings_are_read_again_once_they_were_written() {
    assert!(wants_reload(&WatchKind::ClosedAfterWrite));
    for kind in [
        WatchKind::Read,
        WatchKind::Opened,
        WatchKind::ClosedOtherwise,
        WatchKind::AccessedOtherwise,
        WatchKind::Created,
        WatchKind::Modified,
        WatchKind::Removed,
        WatchKind::Unknown,
    ] {
        assert!(!wants_reload(&kind), "{:?}", kind);
    }
}

#[test]
fn directories_become_settings_once_they_were_checked() {
    let mut found = MaybeConfig::default();
    assert!(!found.answer(Field::VideoDir, "/v"));
    assert!(found.video_dir.is_none());
    assert_eq!(
        found.answer_dir(Field::VideoDir, "/v", Err("/v is not a directory".to_string())),
        Err("/v is not a directory".to_string())
    );
    assert!(found.video_dir.is_none());
    for (field, line, path) in [
        (Field::VideoDir, " /v\n", "/v"),
        (Field::AudioDir, "/a\r\n", "/a"),
        (Field::TmpDir, "\t/t", "/t"),
    ] {
        assert_eq!(found.answer_dir(field, line, Ok(path.to_string())), Ok(()));
    }
    assert_eq!(found.video_dir.as_deref(), Some("/v"));
    assert_eq!(found.audio_dir.as_deref(), Some("/a"));
    assert_eq!(found.tmp_dir.as_deref(), Some("/t"));
    assert!(found.host.is_none());
}
