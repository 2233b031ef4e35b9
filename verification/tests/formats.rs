use ytdl::formats::{
    get_formats, refused_formats, Codec, FormatError, FormatKind, RawDump, RawFormat, Resolution,
    YtdlDump, YtdlFormat,
};

fn format(id: &str, acodec: Option<&str>, vcodec: Option<&str>, res: &str, size: Option<u64>) -> RawFormat {
    RawFormat {
        format_id: id.to_string(),
        acodec: acodec.map(|c| Codec::from_name(c.to_string())),
        vcodec: vcodec.map(|c| Codec::from_name(c.to_string())),
        resolution: Resolution::from_name(res.to_string()),
        filesize_approx: size,
    }
}

fn dump(formats: Vec<RawFormat>) -> RawDump {
    RawDump { title: "t".to_string(), formats, thumbnail: Some("u".to_string()) }
}

#[test]
fn codec_and_resolution_names() {
    assert_eq!(Codec::from_name("none".to_string()).as_option(), None);
    assert_eq!(Codec::from_name("avc1".to_string()).as_option(), Some("avc1"));
    assert_eq!(Codec::from_name("None".to_string()).as_option(), Some("None"));
    assert_eq!(Resolution::from_name("audio only".to_string()).as_option(), None);
    assert_eq!(Resolution::from_name("1x1".to_string()).as_option(), Some("1x1"));
}

#[test]
fn facts_of_a_format() {
    let f = format("18", Some("mp4a"), Some("none"), "640x360", Some(2048));
    assert_eq!(f.acodec(), Some("mp4a"));
    assert_eq!(f.vcodec(), None);
    assert_eq!(f.resolution(), Some("640x360"));
    assert_eq!(f.filesize_approx(), Some(2048));
    assert_eq!(f.filesize_approx_human(), Some("2.00 KB".to_string()));
    let g = format("x", None, None, "audio only", None);
    assert_eq!(g.acodec(), None);
    assert_eq!(g.resolution(), None);
    assert_eq!(g.filesize_approx_human(), None);
}

#[test]
fn useless_formats_are_dropped_in_order() {
    let mut d = dump(vec![
        format("a", Some("mp4a"), Some("none"), "audio only", Some(1)),
        format("b", Some("none"), Some("none"), "48x27", Some(1)),
        format("c", None, None, "48x27", Some(1)),
        format("d", Some("mp4a"), Some("avc1"), "1x1", None),
        format("e", None, Some("avc1"), "1x1", Some(0)),
    ]);
    d.strip_useless_formats();
    let ids: Vec<&str> = d.formats.iter().map(|f| f.format_id.as_str()).collect();
    assert_eq!(ids, vec!["a", "e"]);
    assert_eq!(d.title, "t");
    d.strip_useless_formats();
    assert_eq!(d.formats.len(), 2);
}

#[test]
fn kinds_of_formats() {
    let y = YtdlFormat::try_from(format("1", Some("m"), Some("v"), "1x1", Some(5))).unwrap();
    match &y.kind {
        FormatKind::Both { video, audio } => {
            assert_eq!(video.codec, "v");
            assert_eq!(video.resolution, "1x1");
            assert_eq!(audio, "m");
        }
        other => panic!("{:?}", other),
    }
    assert_eq!(y.format_id, "1");
    assert_eq!(y.filesize_approx.bytes, 5);
    assert_eq!(y.filesize_approx.human_readable, "5.00 B");
    let y = YtdlFormat::try_from(format("2", Some("m"), None, "audio only", None)).unwrap();
    assert!(matches!(&y.kind, FormatKind::Audio(a) if a == "m"));
    assert_eq!(y.filesize_approx.bytes, 0);
    assert_eq!(y.filesize_approx.human_readable, "");
    let y = YtdlFormat::try_from(format("3", None, Some("v"), "2x2", Some(1))).unwrap();
    assert!(matches!(&y.kind, FormatKind::Video(v) if v.codec == "v" && v.resolution == "2x2"));
}

#[test]
fn formats_that_cannot_be_offered() {
    let e = YtdlFormat::try_from(format("1", None, Some("v"), "audio only", Some(1))).unwrap_err();
    assert_eq!(e, FormatError::NoResolution);
    assert_eq!(e.message(), "No resolution for video");
    let e = YtdlFormat::try_from(format("1", Some("m"), Some("v"), "audio only", Some(1))).unwrap_err();
    assert_eq!(e, FormatError::NoResolution);
    let e = YtdlFormat::try_from(format("1", None, Some("none"), "1x1", Some(1))).unwrap_err();
    assert_eq!(e, FormatError::NoCodec);
    assert_eq!(e.message(), "No audio or video codec");
}

#[test]
fn offers_leave_out_what_cannot_be_offered() {
    let y = YtdlDump::from(dump(vec![
        format("a", Some("m"), None, "audio only", None),
        format("b", None, None, "1x1", Some(1)),
        format("c", None, Some("v"), "audio only", Some(1)),
        format("d", None, Some("v"), "1x1", Some(1)),
    ]));
    let ids: Vec<&str> = y.formats.iter().map(|f| f.format_id.as_str()).collect();
    assert_eq!(ids, vec!["a", "d"]);
    assert_eq!(y.title, "t");
    assert_eq!(y.thumbnail.as_deref(), Some("u"));
}

#[test]
fn answers_to_queries() {
    let y = get_formats(
        "{}",
        Some(dump(vec![
            format("a", Some("m"), None, "audio only", None),
            format("d", None, Some("v"), "1x1", Some(1024)),
        ])),
    )
    .unwrap();
    assert_eq!(y.formats.len(), 1);
    assert_eq!(y.formats[0].format_id, "d");
    assert_eq!(y.formats[0].filesize_approx.human_readable, "1.00 KB");
    assert_eq!(get_formats("no json", None).unwrap_err(), "no json");
}

#[test]
fn formats_that_are_refused() {
    let d = dump(vec![
        format("a", Some("mp4a"), None, "audio only", Some(1)),
        format("b", None, Some("avc1"), "audio only", Some(1)),
        format("c", None, None, "1x1", Some(1)),
        format("d", Some("mp4a"), Some("avc1"), "audio only", None),
        format("e", Some("mp4a"), Some("avc1"), "audio only", Some(1)),
    ]);
    let refused = refused_formats(&d);
    assert_eq!(refused, vec![FormatError::NoResolution, FormatError::NoResolution]);
    assert_eq!(refused[0].message(), "No resolution for video");
    assert_eq!(refused_formats(&dump(vec![])), vec![]);
    let offered = get_formats("", Some(d)).unwrap();
    assert_eq!(offered.formats.len(), 1);
    assert_eq!(offered.formats[0].format_id, "a");
}
