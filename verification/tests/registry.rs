use ytdl::clock::{EARLIEST, LATEST};
use ytdl::download::{DownloadInfo, Quality};
use ytdl::handles::{
    clean_up_tmp_file, report, CheckOutcome, Handle, Handles, TaskEnd, TmpEvent, TmpStep,
};

fn info(url: &str) -> DownloadInfo {
    DownloadInfo {
        url: url.to_string(),
        audio: None,
        auth_key: Some("secret".to_string()),
        quality: Quality::High,
    }
}

fn handle(task: u32, expires: i64) -> Handle<u32> {
    Handle { info: info("u"), joinhandle: task, expires }
}

fn registry() -> Handles<u32, String> {
    let mut h: Handles<u32, String> = Handles::new();
    h.deferred_download("a".to_string(), handle(1, 10));
    h.deferred_download("b".to_string(), handle(2, 20));
    h.deferred_download("c".to_string(), handle(3, 30));
    h
}

#[test]
fn started_downloads_are_found() {
    let h = registry();
    assert_eq!(h.len(), 3);
    assert!(h.contains("b"));
    assert!(!h.contains("d"));
    assert_eq!(h.get("c").unwrap().joinhandle, 3);
    assert!(h.get("d").is_none());
    assert_eq!(*h.task(0), 1);
}

#[test]
fn one_download_per_id() {
    let mut h = registry();
    h.deferred_download("a".to_string(), handle(9, 90));
    assert_eq!(h.len(), 3);
    assert_eq!(h.get("a").unwrap().joinhandle, 9);
    assert_eq!(h.get("b").unwrap().joinhandle, 2);
}

#[test]
fn ids_that_are_taken_do_not_pass() {
    let h = registry();
    assert_eq!(h.admit_id("a".to_string()), None);
    assert_eq!(h.admit_id("x".to_string()), Some("x".to_string()));
}

#[test]
fn fresh_ids_have_the_form_of_ids() {
    let h = registry();
    let a = h.fresh_id().unwrap();
    let b = h.fresh_id().unwrap();
    assert_ne!(a, b);
    for id in [a, b] {
        assert_eq!(id.len(), 36);
        for (i, c) in id.chars().enumerate() {
            if i == 8 || i == 13 || i == 18 || i == 23 {
                assert_eq!(c, '-');
            } else {
                assert!(c.is_ascii_digit() || ('a'..='f').contains(&c));
            }
        }
        assert_eq!(id.chars().nth(14), Some('4'));
        assert!("89ab".contains(id.chars().nth(19).unwrap()));
    }
}

#[test]
fn asking_after_downloads() {
    let mut h = registry();
    assert!(matches!(h.check("d", true), CheckOutcome::NotFound));
    assert!(matches!(h.check("b", false), CheckOutcome::NotFinished));
    assert!(h.contains("b"));
    match h.check("b", true) {
        CheckOutcome::Finished(handle) => assert_eq!(handle.joinhandle, 2),
        other => panic!("{:?}", other),
    }
    assert!(matches!(h.check("b", true), CheckOutcome::NotFound));
    assert_eq!(h.len(), 2);
    assert!(h.contains("a") && h.contains("c"));
}

#[test]
fn clearing_away_at_given_seconds() {
    let mut h = registry();
    let gone = h.clean_up_at(&vec![true, false, true], &vec![11, 100, 30]);
    assert_eq!(gone.len(), 1);
    assert_eq!(gone[0].id, "a");
    assert_eq!(gone[0].handle.joinhandle, 1);
    assert!(!h.contains("a") && h.contains("b") && h.contains("c"));
    let gone = h.clean_up_at(&vec![true, true], &vec![21, 31]);
    let ids: Vec<&str> = gone.iter().map(|e| e.id.as_str()).collect();
    assert_eq!(ids, vec!["b", "c"]);
    assert_eq!(h.len(), 0);
}

#[test]
fn clearing_away_now() {
    let mut h: Handles<u32, String> = Handles::new();
    h.deferred_download("old".to_string(), handle(1, 10));
    h.deferred_download("running".to_string(), handle(2, 10));
    h.deferred_download("new".to_string(), handle(3, i64::MAX));
    let gone = h.clean_up_finished(&vec![true, false, true]);
    assert_eq!(gone.len(), 1);
    assert_eq!(gone[0].id, "old");
    assert!(h.contains("running") && h.contains("new"));
}

#[test]
fn draining() {
    let mut h = registry();
    let all = h.drain();
    let ids: Vec<&str> = all.iter().map(|e| e.id.as_str()).collect();
    assert_eq!(ids, vec!["a", "b", "c"]);
    assert_eq!(h.len(), 0);
    assert!(!h.contains("a"));
}

#[test]
fn expiry() {
    let h = Handle::started_at(info("u"), 1u32, 1000, 60);
    assert_eq!(h.expires, 1060);
    let h = Handle::started_at(info("u"), 1u32, 1000, -60);
    assert_eq!(h.expires, 940);
}

#[test]
fn expiry_from_the_clock() {
    let before = std::time::SystemTime::now()
        .duration_since(std::time::UNIX_EPOCH)
        .unwrap()
        .as_secs() as i64;
    let h = Handle::new(info("v"), 7u32, 100).unwrap();
    assert!(before + 100 <= h.expires && h.expires <= before + 160);
    assert_eq!(h.joinhandle, 7);
    assert_eq!(h.info.url, "v");
    assert!(Handle::new(info("v"), 7u32, i64::MAX).is_none());
    assert!(Handle::new(info("v"), 7u32, i64::MAX - LATEST).is_some());
    assert!(Handle::new(info("v"), 7u32, i64::MIN).is_some());
}

#[test]
fn range_of_the_clock() {
    assert_eq!(chrono::DateTime::<chrono::Utc>::MIN_UTC.timestamp(), EARLIEST);
    assert_eq!(chrono::DateTime::<chrono::Utc>::MAX_UTC.timestamp(), LATEST);
}

#[test]
fn reports() {
    let i = info("https://x");
    assert_eq!(report("a", &i, &TaskEnd::Finished), "a finished successfully");
    assert_eq!(
        report("a", &i, &TaskEnd::Failed("no".to_string())),
        "a failed: no\n\nInfo: ###FAILED DOWNLOAD INFO###\nurl: https://x\naudio: false\nauth_key: #REDACTED#\n"
    );
    assert_eq!(
        report("a", &i, &TaskEnd::Panicked("boom".to_string())),
        "a panicked: boom\n\nInfo: ###FAILED DOWNLOAD INFO###\nurl: https://x\naudio: false\nauth_key: #REDACTED#\n"
    );
}

#[test]
fn downloads_that_are_handed_out_at_once() {
    let mut h = registry();
    assert_eq!(h.direct_download("/t/x.mp4".to_string(), TaskEnd::Finished), Ok(()));
    assert_eq!(
        h.direct_download("/t/y.mp4".to_string(), TaskEnd::Failed("no".to_string())),
        Err("Download failed: no".to_string())
    );
    assert_eq!(
        h.direct_download("/t/z.mp4".to_string(), TaskEnd::Panicked("boom".to_string())),
        Err("Download panicked: boom".to_string())
    );
    assert_eq!(h.pending_direct_downloads(), &vec!["/t/x.mp4".to_string()]);
    assert_eq!(h.len(), 3);
}

#[test]
fn pending_files_are_kept_as_marked() {
    let mut h = registry();
    for p in ["1", "2", "3", "4"] {
        h.direct_download(p.to_string(), TaskEnd::Finished).unwrap();
    }
    h.retain_pending(&vec![true, false, false, true]);
    assert_eq!(h.pending_direct_downloads(), &vec!["1".to_string(), "4".to_string()]);
    assert_eq!(h.len(), 3);
}

#[test]
fn steps_for_pending_files() {
    assert!(matches!(clean_up_tmp_file(TmpEvent::Free(false)), TmpStep::Keep));
    assert!(matches!(clean_up_tmp_file(TmpEvent::Free(true)), TmpStep::AskExists));
    assert!(matches!(clean_up_tmp_file(TmpEvent::Exists(false)), TmpStep::Forget));
    assert!(matches!(clean_up_tmp_file(TmpEvent::Exists(true)), TmpStep::Remove));
    assert!(matches!(clean_up_tmp_file(TmpEvent::Removed(Ok(()))), TmpStep::Forget));
    let s = clean_up_tmp_file(TmpEvent::Removed(Err("busy".to_string())));
    assert!(matches!(&s, TmpStep::KeepAndLog(m) if m == "Failed to remove file: busy"));
    assert_eq!(s.keep(), Some(true));
    assert_eq!(TmpStep::Keep.keep(), Some(true));
    assert_eq!(TmpStep::Forget.keep(), Some(false));
    assert_eq!(TmpStep::Remove.keep(), None);
    assert_eq!(TmpStep::AskExists.keep(), None);
}

#[test]
fn pending_files_stay_until_they_are_gone() {
    let round = |free: bool, exists: bool, removed: Result<(), String>| {
        let mut event = TmpEvent::Free(free);
        loop {
            let step = clean_up_tmp_file(event);
            if let Some(keep) = step.keep() {
                return keep;
            }
            event = match step {
                TmpStep::AskExists => TmpEvent::Exists(exists),
                _ => TmpEvent::Removed(removed.clone()),
            };
        }
    };
    for exists in [true, false] {
        assert!(round(false, exists, Ok(())));
        assert!(round(false, exists, Err("busy".to_string())));
    }
    assert!(round(true, true, Err("busy".to_string())));
    assert!(!round(true, true, Ok(())));
    assert!(!round(true, false, Err("busy".to_string())));
}

#[test]
fn new_downloads_replace_none() {
    let mut h = registry();
    let id = h.fresh_id().unwrap();
    h.deferred_download(id.clone(), handle(4, 40));
    assert_eq!(h.len(), 4);
    for (known, task) in [("a", 1), ("b", 2), ("c", 3), (id.as_str(), 4)] {
        assert_eq!(h.get(known).unwrap().joinhandle, task);
    }
}
