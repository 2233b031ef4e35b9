//! Completing the settings: the questions for what the settings file leaves out, the answers
//! that are accepted, the settings that are kept once they were read, and when to read them
//! again.

use crate::config::{accounts, Account, AuthInfo, Config, Settings};
use crate::number::{
    decimal_text, is_digit, law_decimal_text_is_digits, law_digits_are_read, law_signs,
    parse_signed, parse_unsigned, parsed_signed, parsed_unsigned, NumberError,
};
use crate::text::{law_trimming_takes_padding_off, opt_text, trim, trimmed, white_space};
use vstd::prelude::*;
use vstd::string::*;

verus! {

/// A value that is typed in as a line of text.
pub trait FromAnswer: Sized {
    /// The text stands for a value of this type.
    spec fn accepts(text: Seq<char>) -> bool;

    /// This is the value that the text stands for.
    spec fn is_meant_by(self, text: Seq<char>) -> bool;

    /// Reads the value.
    fn from_text(text: &str) -> (r: Option<Self>)
        ensures
            r is Some <==> Self::accepts(text@),
            r matches Some(v) ==> v.is_meant_by(text@),
    ;
}

impl FromAnswer for String {
    open spec fn accepts(text: Seq<char>) -> bool {
        true
    }

    open spec fn is_meant_by(self, text: Seq<char>) -> bool {
        self@ == text
    }

    fn from_text(text: &str) -> (r: Option<Self>) {
        Some(text.to_owned())
    }
}

impl FromAnswer for u16 {
    open spec fn accepts(text: Seq<char>) -> bool {
        parsed_unsigned(text, u16::MAX as nat) is Ok
    }

    open spec fn is_meant_by(self, text: Seq<char>) -> bool {
        parsed_unsigned(text, u16::MAX as nat) matches Ok(n) && n == self
    }

    fn from_text(text: &str) -> (r: Option<Self>) {
        match parse_unsigned(text, u16::MAX as u64) {
            Ok(n) => Some(n as u16),
            Err(_) => None,
        }
    }
}

impl FromAnswer for u64 {
    open spec fn accepts(text: Seq<char>) -> bool {
        parsed_unsigned(text, u64::MAX as nat) is Ok
    }

    open spec fn is_meant_by(self, text: Seq<char>) -> bool {
        parsed_unsigned(text, u64::MAX as nat) matches Ok(n) && n == self
    }

    fn from_text(text: &str) -> (r: Option<Self>) {
        match parse_unsigned(text, u64::MAX) {
            Ok(n) => Some(n),
            Err(_) => None,
        }
    }
}

impl FromAnswer for i64 {
    open spec fn accepts(text: Seq<char>) -> bool {
        parsed_signed(text, i64::MAX as nat) is Ok
    }

    open spec fn is_meant_by(self, text: Seq<char>) -> bool {
        parsed_signed(text, i64::MAX as nat) matches Ok(n) && n == self
    }

    fn from_text(text: &str) -> (r: Option<Self>) {
        match parse_signed(text) {
            Ok(n) => Some(n),
            Err(_) => None,
        }
    }
}

/// Reads the value from a line that was typed in: white space around it does not count.
/// Where there is no value the question has to be asked again.
pub fn safe_get<T: FromAnswer>(input: &str) -> (r: Option<T>)
    ensures
        r is Some <==> T::accepts(trimmed(input@)),
        r matches Some(v) ==> v.is_meant_by(trimmed(input@)),
{
    let text = trim(input);
    T::from_text(text.as_str())
}

/// The settings that a settings file holds.
#[derive(Debug)]
pub struct MaybeConfig {
    pub host: Option<String>,
    pub port: Option<u16>,
    pub auth_keys: Option<Vec<AuthInfo>>,
    pub video_dir: Option<String>,
    pub audio_dir: Option<String>,
    pub tmp_dir: Option<String>,
    pub expire_time: Option<i64>,
    pub max_file_size: Option<u64>,
}

/// The settings that a settings file holds.
#[verifier::ext_equal]
pub struct Found {
    pub host: Option<Seq<char>>,
    pub port: Option<u16>,
    pub auth_keys: Option<Seq<Account>>,
    pub video_dir: Option<Seq<char>>,
    pub audio_dir: Option<Seq<char>>,
    pub tmp_dir: Option<Seq<char>>,
    pub expire_time: Option<i64>,
    pub max_file_size: Option<u64>,
}

impl View for MaybeConfig {
    type V = Found;

    open spec fn view(&self) -> Found {
        Found {
            host: opt_text(self.host),
            port: self.port,
            auth_keys: match self.auth_keys {
                Some(keys) => Some(accounts(keys@)),
                None => None,
            },
            video_dir: opt_text(self.video_dir),
            audio_dir: opt_text(self.audio_dir),
            tmp_dir: opt_text(self.tmp_dir),
            expire_time: self.expire_time,
            max_file_size: self.max_file_size,
        }
    }
}

/// A file without settings, or one that cannot be read.
pub open spec fn nothing_found() -> Found {
    Found {
        host: None,
        port: None,
        auth_keys: None,
        video_dir: None,
        audio_dir: None,
        tmp_dir: None,
        expire_time: None,
        max_file_size: None,
    }
}

impl Default for MaybeConfig {
    fn default() -> (r: Self)
        ensures
            r@ == nothing_found(),
    {
        MaybeConfig {
            host: None,
            port: None,
            auth_keys: None,
            video_dir: None,
            audio_dir: None,
            tmp_dir: None,
            expire_time: None,
            max_file_size: None,
        }
    }
}

/// A setting that has to be asked for where the file leaves it out.
#[derive(Debug, Clone, Copy, PartialEq, Eq, Structural)]
pub enum Field {
    Host,
    Port,
    ExpireTime,
    VideoDir,
    AudioDir,
    TmpDir,
    MaxFileSize,
}

impl Field {
    /// The question for this setting.
    pub open spec fn question(self) -> Seq<char> {
        match self {
            Field::Host => "Host"@,
            Field::Port => "Port"@,
            Field::ExpireTime => "Join handle expire time (seconds)"@,
            Field::VideoDir => "Video directory (absolute path) DIRECTORIES WILL BE CREATED IF THEY DO NOT EXIST"@,
            Field::AudioDir => "Audio directory (absolute path) DIRECTORIES WILL BE CREATED IF THEY DO NOT EXIST"@,
            Field::TmpDir => "Temporary directory (absolute path) DIRECTORIES WILL BE CREATED IF THEY DO NOT EXIST"@,
            Field::MaxFileSize => "Max file size"@,
        }
    }

    /// The answer has to name a directory.
    pub open spec fn names_a_dir(self) -> bool {
        self is VideoDir || self is AudioDir || self is TmpDir
    }

    /// The question for this setting.
    pub fn prompt(&self) -> (r: String)
        ensures
            r@ == self.question(),
    {
        match self {
            Field::Host => "Host".to_owned(),
            Field::Port => "Port".to_owned(),
            Field::ExpireTime => "Join handle expire time (seconds)".to_owned(),
            Field::VideoDir => "Video directory (absolute path) DIRECTORIES WILL BE CREATED IF THEY DO NOT EXIST".to_owned(),
            Field::AudioDir => "Audio directory (absolute path) DIRECTORIES WILL BE CREATED IF THEY DO NOT EXIST".to_owned(),
            Field::TmpDir => "Temporary directory (absolute path) DIRECTORIES WILL BE CREATED IF THEY DO NOT EXIST".to_owned(),
            Field::MaxFileSize => "Max file size".to_owned(),
        }
    }

    /// Whether the answer has to name a directory.
    pub fn is_dir(&self) -> (r: bool)
        ensures
            r == self.names_a_dir(),
    {
        match self {
            Field::VideoDir => true,
            Field::AudioDir => true,
            Field::TmpDir => true,
            _ => false,
        }
    }
}

impl Found {
    /// The setting is there.
    pub open spec fn holds(self, field: Field) -> bool {
        match field {
            Field::Host => self.host is Some,
            Field::Port => self.port is Some,
            Field::ExpireTime => self.expire_time is Some,
            Field::VideoDir => self.video_dir is Some,
            Field::AudioDir => self.audio_dir is Some,
            Field::TmpDir => self.tmp_dir is Some,
            Field::MaxFileSize => self.max_file_size is Some,
        }
    }

    /// The first setting that is missing, in the order in which they are asked for.
    pub open spec fn first_missing(self) -> Option<Field> {
        if self.host is None {
            Some(Field::Host)
        } else if self.port is None {
            Some(Field::Port)
        } else if self.expire_time is None {
            Some(Field::ExpireTime)
        } else if self.video_dir is None {
            Some(Field::VideoDir)
        } else if self.audio_dir is None {
            Some(Field::AudioDir)
        } else if self.tmp_dir is None {
            Some(Field::TmpDir)
        } else if self.max_file_size is None {
            Some(Field::MaxFileSize)
        } else {
            None
        }
    }

    /// What is found once the question for `field` was answered with `line`; nothing where
    /// the answer is not accepted. A line alone is no answer for a directory.
    pub open spec fn answered(self, field: Field, line: Seq<char>) -> Option<Found> {
        let text = trimmed(line);
        match field {
            Field::Host => Some(Found { host: Some(text), ..self }),
            Field::Port => match parsed_unsigned(text, u16::MAX as nat) {
                Ok(n) => Some(Found { port: Some(n as u16), ..self }),
                Err(_) => None,
            },
            Field::ExpireTime => match parsed_signed(text, i64::MAX as nat) {
                Ok(n) => Some(Found { expire_time: Some(n as i64), ..self }),
                Err(_) => None,
            },
            Field::MaxFileSize => match parsed_unsigned(text, u64::MAX as nat) {
                Ok(n) => Some(Found { max_file_size: Some(n as u64), ..self }),
                Err(_) => None,
            },
            _ => None,
        }
    }

    /// What is found once the question for a directory was answered with `line` and the path was
    /// checked; nothing where the path was refused.
    pub open spec fn answered_dir(self, field: Field, line: Seq<char>, accepted: bool) -> Option<
        Found,
    > {
        let path = Some(trimmed(line));
        if !accepted {
            None
        } else {
            match field {
                Field::VideoDir => Some(Found { video_dir: path, ..self }),
                Field::AudioDir => Some(Found { audio_dir: path, ..self }),
                Field::TmpDir => Some(Found { tmp_dir: path, ..self }),
                _ => None,
            }
        }
    }

    /// The directory in this setting.
    pub open spec fn dir(self, field: Field) -> Option<Seq<char>> {
        match field {
            Field::VideoDir => self.video_dir,
            Field::AudioDir => self.audio_dir,
            Field::TmpDir => self.tmp_dir,
            _ => None,
        }
    }

    /// The settings, once none is missing. Without accounts there are no users.
    pub open spec fn complete(self) -> Settings {
        Settings {
            host: self.host->0,
            port: self.port->0,
            auth_keys: match self.auth_keys {
                Some(keys) => keys,
                None => Seq::empty(),
            },
            video_dir: self.video_dir->0,
            audio_dir: self.audio_dir->0,
            tmp_dir: self.tmp_dir->0,
            expire_time: self.expire_time->0,
            max_file_size: self.max_file_size->0,
        }
    }

    /// How many settings are missing.
    pub open spec fn missing(self) -> nat {
        (if self.host is None { 1nat } else { 0 }) + (if self.port is None { 1nat } else { 0 })
            + (if self.expire_time is None { 1nat } else { 0 })
            + (if self.video_dir is None { 1nat } else { 0 })
            + (if self.audio_dir is None { 1nat } else { 0 })
            + (if self.tmp_dir is None { 1nat } else { 0 })
            + (if self.max_file_size is None { 1nat } else { 0 })
    }
}

/// What a settings file holds after these settings were saved in it.
pub open spec fn saved(s: Settings) -> Found {
    Found {
        host: Some(s.host),
        port: Some(s.port),
        auth_keys: Some(s.auth_keys),
        video_dir: Some(s.video_dir),
        audio_dir: Some(s.audio_dir),
        tmp_dir: Some(s.tmp_dir),
        expire_time: Some(s.expire_time),
        max_file_size: Some(s.max_file_size),
    }
}

impl MaybeConfig {
    /// The setting to ask for next, where one is missing.
    pub fn next_question(&self) -> (r: Option<Field>)
        ensures
            r == self@.first_missing(),
    {
        if self.host.is_none() {
            Some(Field::Host)
        } else if self.port.is_none() {
            Some(Field::Port)
        } else if self.expire_time.is_none() {
            Some(Field::ExpireTime)
        } else if self.video_dir.is_none() {
            Some(Field::VideoDir)
        } else if self.audio_dir.is_none() {
            Some(Field::AudioDir)
        } else if self.tmp_dir.is_none() {
            Some(Field::TmpDir)
        } else if self.max_file_size.is_none() {
            Some(Field::MaxFileSize)
        } else {
            None
        }
    }

    /// Takes the line that was typed in as the answer for a setting that is no directory; tells
    /// whether it was accepted.
    pub fn answer(&mut self, field: Field, line: &str) -> (accepted: bool)
        ensures
            accepted == old(self)@.answered(field, line@) is Some,
            final(self)@ == (match old(self)@.answered(field, line@) {
                Some(found) => found,
                None => old(self)@,
            }),
    {
        match field {
            Field::Host => {
                self.host = safe_get::<String>(line);
                true
            },
            Field::Port => match safe_get::<u16>(line) {
                Some(n) => {
                    self.port = Some(n);
                    true
                },
                None => false,
            },
            Field::ExpireTime => match safe_get::<i64>(line) {
                Some(n) => {
                    self.expire_time = Some(n);
                    true
                },
                None => false,
            },
            Field::MaxFileSize => match safe_get::<u64>(line) {
                Some(n) => {
                    self.max_file_size = Some(n);
                    true
                },
                None => false,
            },
            _ => false,
        }
    }

    /// Takes the line that was typed in for a directory, and what came of checking the path that
    /// it names: the path becomes the setting where it was accepted. Where it was refused, nothing
    /// changes and the message is handed on.
    pub fn answer_dir(&mut self, field: Field, line: &str, checked: Result<String, String>) -> (r:
        Result<(), String>)
        requires
            field.names_a_dir(),
        ensures
            match (r, checked) {
                (Ok(_), Ok(_)) => Some(final(self)@) == old(self)@.answered_dir(field, line@, true),
                (Err(m), Err(e)) => m == e && final(self)@ == old(self)@,
                _ => false,
            },
    {
        match safe_get_dir(line, checked) {
            Ok(path) => {
                match field {
                    Field::VideoDir => {
                        self.video_dir = Some(path);
                    },
                    Field::AudioDir => {
                        self.audio_dir = Some(path);
                    },
                    _ => {
                        self.tmp_dir = Some(path);
                    },
                }
                Ok(())
            },
            Err(e) => Err(e),
        }
    }
}

impl Config {
    /// The settings from what was found and answered; the first setting that is missing where
    /// there is one.
    pub fn new(found: MaybeConfig) -> (r: Result<Config, Field>)
        ensures
            match (r, found@.first_missing()) {
                (Ok(c), None) => c@ == found@.complete(),
                (Err(f), Some(g)) => f == g,
                _ => false,
            },
    {
        if let Some(field) = found.next_question() {
            return Err(field);
        }
        let auth_keys: Vec<AuthInfo> = match found.auth_keys {
            Some(keys) => keys,
            None => Vec::new(),
        };
        let c = Config {
            host: found.host.unwrap(),
            port: found.port.unwrap(),
            auth_keys,
            video_dir: found.video_dir.unwrap(),
            audio_dir: found.audio_dir.unwrap(),
            tmp_dir: found.tmp_dir.unwrap(),
            expire_time: found.expire_time.unwrap(),
            max_file_size: found.max_file_size.unwrap(),
        };
        assert(c@ =~= found@.complete());
        Ok(c)
    }
}

/// Settings that were saved are complete: nothing is asked for, and they come back as they
/// were.
pub proof fn law_saved_settings_come_back(s: Settings)
    ensures
        saved(s).first_missing() is None,
        saved(s).complete() == s,
{
}

/// Only what is missing is asked for, and an accepted answer settles that one question and
/// changes no other setting: after as many accepted answers as settings were missing, the
/// settings are complete.
pub proof fn law_questions_end(found: Found, line: Seq<char>, accepted: bool)
    ensures
        found.first_missing() is None <==> found.missing() == 0,
        found.first_missing() matches Some(field) ==> {
            let answered = if field.names_a_dir() {
                found.answered_dir(field, line, accepted)
            } else {
                found.answered(field, line)
            };
            &&& !found.holds(field)
            &&& answered matches Some(next) ==> {
                &&& next.holds(field)
                &&& next.missing() == found.missing() - 1
                &&& next.auth_keys == found.auth_keys
                &&& forall|other: Field| other != field ==> #[trigger] next.holds(other)
                    == found.holds(other)
            }
        },
{
}

/// The questions come in one order: host, port, expiry, the directories for pictures, for sound and
/// for downloads under way, and the limit. A question is asked exactly where its own setting is
/// missing and none before it is.
pub proof fn law_order_of_questions(found: Found)
    ensures
        found.first_missing() == Some(Field::Host) <==> found.host is None,
        found.first_missing() == Some(Field::Port) <==> found.host is Some && found.port is None,
        found.first_missing() == Some(Field::ExpireTime) <==> found.host is Some
            && found.port is Some && found.expire_time is None,
        found.first_missing() == Some(Field::VideoDir) <==> found.host is Some && found.port is Some
            && found.expire_time is Some && found.video_dir is None,
        found.first_missing() == Some(Field::AudioDir) <==> found.host is Some && found.port is Some
            && found.expire_time is Some && found.video_dir is Some && found.audio_dir is None,
        found.first_missing() == Some(Field::TmpDir) <==> found.host is Some && found.port is Some
            && found.expire_time is Some && found.video_dir is Some && found.audio_dir is Some
            && found.tmp_dir is None,
        found.first_missing() == Some(Field::MaxFileSize) <==> found.host is Some
            && found.port is Some && found.expire_time is Some && found.video_dir is Some
            && found.audio_dir is Some && found.tmp_dir is Some && found.max_file_size is None,
{
}

/// An answer settles its own setting and leaves every other one as it was. A host is taken as it
/// was typed in, without the white space around it; a number is taken as the number that was typed
/// in.
pub proof fn law_answers_settle_one_setting(found: Found, field: Field, line: Seq<char>)
    ensures
        found.answered(field, line) matches Some(next) ==> {
            &&& field != Field::Host ==> next.host == found.host
            &&& field != Field::Port ==> next.port == found.port
            &&& field != Field::ExpireTime ==> next.expire_time == found.expire_time
            &&& field != Field::MaxFileSize ==> next.max_file_size == found.max_file_size
            &&& next.auth_keys == found.auth_keys
            &&& next.video_dir == found.video_dir
            &&& next.audio_dir == found.audio_dir
            &&& next.tmp_dir == found.tmp_dir
        },
        found.answered(Field::Host, line) matches Some(next) && next.host == Some(trimmed(line)),
        field.names_a_dir() <==> field == Field::VideoDir || field == Field::AudioDir || field
            == Field::TmpDir,
        field.names_a_dir() ==> found.answered(field, line) is None,
        field.names_a_dir() ==> found.answered_dir(field, line, false) is None,
        field.names_a_dir() ==> (found.answered_dir(field, line, true) matches Some(next) && {
            &&& next.host == found.host
            &&& next.port == found.port
            &&& next.auth_keys == found.auth_keys
            &&& next.expire_time == found.expire_time
            &&& next.max_file_size == found.max_file_size
            &&& next.video_dir == if field == Field::VideoDir {
                Some(trimmed(line))
            } else {
                found.video_dir
            }
            &&& next.audio_dir == if field == Field::AudioDir {
                Some(trimmed(line))
            } else {
                found.audio_dir
            }
            &&& next.tmp_dir == if field == Field::TmpDir {
                Some(trimmed(line))
            } else {
                found.tmp_dir
            }
        }),
{
}

/// A number that is typed in, with white space around it or without, becomes the setting exactly
/// where it is in range: below 65536 for the port, within 64 bits for the limit, and with a sign
/// for the expiry. What is no number is not accepted.
pub proof fn law_numbers_are_taken_as_typed(
    found: Found,
    a: Seq<char>,
    n: nat,
    b: Seq<char>,
    line: Seq<char>,
)
    requires
        forall|i: int| 0 <= i < a.len() ==> white_space(#[trigger] a[i]),
        forall|i: int| 0 <= i < b.len() ==> white_space(#[trigger] b[i]),
    ensures
        ({
            let typed = a + decimal_text(n) + b;
            let port = found.answered(Field::Port, typed);
            let limit = found.answered(Field::MaxFileSize, typed);
            let expiry = found.answered(Field::ExpireTime, typed);
            &&& n <= 65535 ==> (port matches Some(next) && next.port == Some(n as u16))
            &&& n > 65535 ==> port is None
            &&& n <= 0xffff_ffff_ffff_ffff ==> (limit matches Some(next) && next.max_file_size
                == Some(n as u64))
            &&& n > 0xffff_ffff_ffff_ffff ==> limit is None
            &&& n <= 0x7fff_ffff_ffff_ffff ==> (expiry matches Some(next) && next.expire_time
                == Some(n as i64))
            &&& n > 0x7fff_ffff_ffff_ffff ==> expiry is None
        }),
        ({
            let typed = a + (seq!['-'] + decimal_text(n)) + b;
            let expiry = found.answered(Field::ExpireTime, typed);
            &&& n <= 0x8000_0000_0000_0000 ==> (expiry matches Some(next) && next.expire_time
                == Some((-n) as i64))
            &&& n > 0x8000_0000_0000_0000 ==> expiry is None
            &&& found.answered(Field::Port, typed) is None
            &&& found.answered(Field::MaxFileSize, typed) is None
        }),
        found.answered(Field::Port, line) is Some <==> parsed_unsigned(trimmed(line), 65535) is Ok,
        found.answered(Field::MaxFileSize, line) is Some <==> parsed_unsigned(
            trimmed(line),
            0xffff_ffff_ffff_ffff,
        ) is Ok,
        found.answered(Field::ExpireTime, line) is Some <==> parsed_signed(
            trimmed(line),
            0x7fff_ffff_ffff_ffff,
        ) is Ok,
{
    let s = decimal_text(n);
    law_decimal_text_is_digits(n);
    assert forall|i: int| 0 <= i < s.len() implies '0' <= #[trigger] s[i] <= '9' by {
        assert(is_digit(s[i]));
    }
    assert('0' <= s[0] <= '9' && '0' <= s[s.len() - 1] <= '9');
    law_trimming_takes_padding_off(a, s, b);
    let m = seq!['-'] + s;
    assert(m[0] == '-' && m.last() == s.last());
    law_trimming_takes_padding_off(a, m, b);
    law_digits_are_read(s, 65535);
    law_digits_are_read(s, 0xffff_ffff_ffff_ffff);
    law_digits_are_read(s, 0x7fff_ffff_ffff_ffff);
    law_signs(s, 65535);
    law_signs(s, 0xffff_ffff_ffff_ffff);
}

/// Every text is an answer where a text is asked for, and is taken as it stands; where a number is
/// asked for, the answer is the number that was typed in, and there is none out of range.
pub proof fn law_answers_mean_what_was_typed(text: String, t: Seq<char>, n: nat, v: u16, w: u64, x: i64)
    ensures
        <String as FromAnswer>::accepts(t),
        text.is_meant_by(t) <==> text@ == t,
        <u16 as FromAnswer>::accepts(decimal_text(n)) <==> n <= 65535,
        n <= 65535 ==> (v.is_meant_by(decimal_text(n)) <==> v == n),
        <u64 as FromAnswer>::accepts(decimal_text(n)) <==> n <= 0xffff_ffff_ffff_ffff,
        n <= 0xffff_ffff_ffff_ffff ==> (w.is_meant_by(decimal_text(n)) <==> w == n),
        <i64 as FromAnswer>::accepts(decimal_text(n)) <==> n <= 0x7fff_ffff_ffff_ffff,
        n <= 0x7fff_ffff_ffff_ffff ==> (x.is_meant_by(decimal_text(n)) <==> x == n),
        <u16 as FromAnswer>::accepts(t) <==> parsed_unsigned(t, 65535) is Ok,
        <u64 as FromAnswer>::accepts(t) <==> parsed_unsigned(t, 0xffff_ffff_ffff_ffff) is Ok,
        <i64 as FromAnswer>::accepts(t) <==> parsed_signed(t, 0x7fff_ffff_ffff_ffff) is Ok,
        v.is_meant_by(t) <==> parsed_unsigned(t, 65535) == Ok::<nat, NumberError>(v as nat),
        w.is_meant_by(t) <==> parsed_unsigned(t, 0xffff_ffff_ffff_ffff) == Ok::<nat, NumberError>(
            w as nat,
        ),
        x.is_meant_by(t) <==> parsed_signed(t, 0x7fff_ffff_ffff_ffff) == Ok::<int, NumberError>(
            x as int,
        ),
{
    let s = decimal_text(n);
    law_decimal_text_is_digits(n);
    assert forall|i: int| 0 <= i < s.len() implies '0' <= #[trigger] s[i] <= '9' by {
        assert(is_digit(s[i]));
    }
    law_digits_are_read(s, 65535);
    law_digits_are_read(s, 0xffff_ffff_ffff_ffff);
    law_digits_are_read(s, 0x7fff_ffff_ffff_ffff);
}

/// Complete settings are what was found and answered, setting by setting; where there are no
/// accounts in the file there are none.
pub proof fn law_settings_are_what_was_found(found: Found)
    ensures
        found.host matches Some(v) ==> found.complete().host == v,
        found.port matches Some(v) ==> found.complete().port == v,
        found.video_dir matches Some(v) ==> found.complete().video_dir == v,
        found.audio_dir matches Some(v) ==> found.complete().audio_dir == v,
        found.tmp_dir matches Some(v) ==> found.complete().tmp_dir == v,
        found.expire_time matches Some(v) ==> found.complete().expire_time == v,
        found.max_file_size matches Some(v) ==> found.complete().max_file_size == v,
        found.auth_keys matches Some(v) ==> found.complete().auth_keys == v,
        found.auth_keys is None ==> found.complete().auth_keys.len() == 0,
{
}

/// What a settings file holds is seen whole.
pub proof fn law_found_settings_are_seen_whole(m: MaybeConfig)
    ensures
        m.host matches Some(v) ==> m@.host == Some(v@),
        m.host is None ==> m@.host is None,
        m@.port == m.port,
        m.video_dir matches Some(v) ==> m@.video_dir == Some(v@),
        m.video_dir is None ==> m@.video_dir is None,
        m.audio_dir matches Some(v) ==> m@.audio_dir == Some(v@),
        m.audio_dir is None ==> m@.audio_dir is None,
        m.tmp_dir matches Some(v) ==> m@.tmp_dir == Some(v@),
        m.tmp_dir is None ==> m@.tmp_dir is None,
        m@.expire_time == m.expire_time,
        m@.max_file_size == m.max_file_size,
        m.auth_keys is None ==> m@.auth_keys is None,
        m.auth_keys matches Some(keys) ==> (m@.auth_keys matches Some(found) && {
            &&& found.len() == keys@.len()
            &&& forall|i: int|
                0 <= i < keys@.len() ==> (#[trigger] found[i]).user == keys@[i].user@
                    && found[i].key == keys@[i].key@
        }),
{
}

/// A file without settings leaves every question open, and no user.
pub proof fn law_nothing_found()
    ensures
        nothing_found().missing() == 7,
        nothing_found().complete().auth_keys == Seq::<Account>::empty(),
{
}

/// The settings that may be there.
pub open spec fn settings_of(c: Option<Config>) -> Option<Settings> {
    match c {
        Some(c) => Some(c@),
        None => None,
    }
}

/// The settings in use after they were asked for, given newly read ones.
pub open spec fn after_get(current: Option<Settings>, fresh: Option<Settings>) -> Option<Settings> {
    match current {
        Some(s) => Some(s),
        None => fresh,
    }
}

/// The settings in use are those that were taken into use.
pub proof fn law_settings_in_use(c: Config)
    ensures
        (ConfigLoader { current: Some(c) }).settings() == Some(c@),
        (ConfigLoader { current: None }).settings() is None,
        settings_of(Some(c)) == Some(c@),
        settings_of(None) is None,
{
}

/// The settings in use stay the same, however often they are asked for and whatever is read
/// meanwhile, until others are taken into use. The settings file has to be read only where
/// none are in use.
pub proof fn law_settings_stay(
    current: Option<Settings>,
    fresh: Option<Settings>,
    later: Option<Settings>,
)
    ensures
        current is Some ==> after_get(current, fresh) == current,
        after_get(current, fresh) is Some ==> after_get(after_get(current, fresh), later)
            == after_get(current, fresh),
        fresh is Some ==> after_get(current, fresh) is Some,
        current is None ==> after_get(current, fresh) == fresh,
{
}

/// The settings in use, once they were read.
#[derive(Debug)]
pub struct ConfigLoader {
    pub current: Option<Config>,
}

impl ConfigLoader {
    /// The settings in use.
    pub open spec fn settings(self) -> Option<Settings> {
        settings_of(self.current)
    }

    /// Nothing was read yet.
    pub fn new() -> (r: ConfigLoader)
        ensures
            r.settings() is None,
    {
        ConfigLoader { current: None }
    }

    /// Whether the settings have to be read before they can be used.
    pub fn needs_load(&self) -> (r: bool)
        ensures
            r == self.settings() is None,
    {
        self.current.is_none()
    }

    /// Takes newly read settings into use, whatever was in use before.
    pub fn reload(&mut self, fresh: Config)
        ensures
            final(self).settings() == Some(fresh@),
    {
        self.current = Some(fresh);
    }

    /// The settings in use. Where none are, newly read ones are taken into use; settings in
    /// use are never replaced.
    pub fn get(&mut self, fresh: Option<Config>) -> (r: Option<Config>)
        ensures
            final(self).settings() == after_get(old(self).settings(), settings_of(fresh)),
            settings_of(r) == final(self).settings(),
    {
        if self.current.is_none() {
            self.current = fresh;
        }
        match &self.current {
            Some(c) => Some(c.clone()),
            None => None,
        }
    }
}

/// What to do next to make sure that a path is a directory.
#[derive(Debug)]
pub enum DirStep {
    /// Find out whether the path exists.
    AskExists,
    /// Create the directory.
    Create,
    /// Find out whether the path can be accessed and is a directory.
    AskIsDir,
    /// The path is accepted, or it is refused with this message.
    Done(Result<String, String>),
}

/// What was found out.
#[derive(Debug)]
pub enum DirEvent {
    Exists(bool),
    Created(Result<(), String>),
    /// Whether the path can be accessed and is a directory.
    IsDir(bool),
}

/// What to do next to make sure that a path is a directory.
pub enum DirPlan {
    AskExists,
    Create,
    AskIsDir,
    Accept(Seq<char>),
    Refuse(Seq<char>),
}

impl View for DirStep {
    type V = DirPlan;

    open spec fn view(&self) -> DirPlan {
        match self {
            DirStep::AskExists => DirPlan::AskExists,
            DirStep::Create => DirPlan::Create,
            DirStep::AskIsDir => DirPlan::AskIsDir,
            DirStep::Done(Ok(p)) => DirPlan::Accept(p@),
            DirStep::Done(Err(m)) => DirPlan::Refuse(m@),
        }
    }
}

/// A path that is missing is created; what then can be accessed and is a directory is accepted.
pub open spec fn dir_plan(path: Seq<char>, event: DirEvent) -> DirPlan {
    match event {
        DirEvent::Exists(true) => DirPlan::AskIsDir,
        DirEvent::Exists(false) => DirPlan::Create,
        DirEvent::Created(Ok(_)) => DirPlan::AskIsDir,
        DirEvent::Created(Err(m)) => DirPlan::Refuse(m@),
        DirEvent::IsDir(true) => DirPlan::Accept(path),
        DirEvent::IsDir(false) => DirPlan::Refuse(path + " is not a directory"@),
    }
}

/// Decides what to do next to make sure that a path is a directory that exists and can be
/// accessed. The first step is `DirStep::AskExists`.
pub fn validate_dir(path: &str, event: DirEvent) -> (r: DirStep)
    ensures
        r@ == dir_plan(path@, event),
{
    match event {
        DirEvent::Exists(true) => DirStep::AskIsDir,
        DirEvent::Exists(false) => DirStep::Create,
        DirEvent::Created(Ok(_)) => DirStep::AskIsDir,
        DirEvent::Created(Err(m)) => DirStep::Done(Err(m)),
        DirEvent::IsDir(true) => DirStep::Done(Ok(path.to_owned())),
        DirEvent::IsDir(false) => DirStep::Done(
            Err(path.to_owned().concat(" is not a directory")),
        ),
    }
}

/// Takes a line that was typed in for a directory, and what came of making sure that it names
/// one: white space around the path does not count. Where the path was refused, the message is
/// to be shown and the question asked again.
pub fn safe_get_dir(input: &str, checked: Result<String, String>) -> (r: Result<String, String>)
    ensures
        match (r, checked) {
            (Ok(path), Ok(_)) => path@ == trimmed(input@),
            (Err(m), Err(e)) => m == e,
            _ => false,
        },
{
    match checked {
        Ok(_) => Ok(trim(input)),
        Err(e) => Err(e),
    }
}

/// A path is accepted exactly where it was found to be a directory that can be accessed, and
/// only what does not exist is created.
pub proof fn law_only_directories_are_accepted(path: Seq<char>, event: DirEvent)
    ensures
        dir_plan(path, event) is Accept <==> event == DirEvent::IsDir(true),
        dir_plan(path, event) matches DirPlan::Accept(p) ==> p == path,
        dir_plan(path, event) is Create <==> event == DirEvent::Exists(false),
        dir_plan(path, event) is AskIsDir <==> event == DirEvent::Exists(true) || (
        event matches DirEvent::Created(Ok(_))),
        !(dir_plan(path, event) is AskExists),
        event matches DirEvent::Created(Err(m)) ==> dir_plan(path, event) == DirPlan::Refuse(m@),
        event == DirEvent::IsDir(false) ==> dir_plan(path, event) == DirPlan::Refuse(
            path + " is not a directory"@,
        ),
{
}

/// The steps of checking a path are seen as they are.
pub proof fn law_checks_are_seen_whole(m: String)
    ensures
        DirStep::AskExists@ == DirPlan::AskExists,
        DirStep::Create@ == DirPlan::Create,
        DirStep::AskIsDir@ == DirPlan::AskIsDir,
        DirStep::Done(Ok(m))@ == DirPlan::Accept(m@),
        DirStep::Done(Err(m))@ == DirPlan::Refuse(m@),
{
}

/// The event can come of the step.
pub open spec fn dir_fits(plan: DirPlan, event: DirEvent) -> bool {
    match event {
        DirEvent::Exists(_) => plan is AskExists,
        DirEvent::Created(_) => plan is Create,
        DirEvent::IsDir(_) => plan is AskIsDir,
    }
}

/// The step that checking a path has come to after these events.
pub open spec fn dir_plan_after(path: Seq<char>, events: Seq<DirEvent>) -> DirPlan {
    if events.len() == 0 {
        DirPlan::AskExists
    } else {
        dir_plan(path, events.last())
    }
}

/// Each event can come of the step that checking the path had come to.
pub open spec fn dir_possible(path: Seq<char>, events: Seq<DirEvent>) -> bool
    decreases events.len(),
{
    events.len() > 0 ==> {
        &&& dir_possible(path, events.drop_last())
        &&& dir_fits(dir_plan_after(path, events.drop_last()), events.last())
    }
}

/// How many events checking a path can still take from this step on.
pub open spec fn dir_events_left(plan: DirPlan) -> nat {
    match plan {
        DirPlan::AskExists => 3,
        DirPlan::Create => 2,
        DirPlan::AskIsDir => 1,
        DirPlan::Accept(_) => 0,
        DirPlan::Refuse(_) => 0,
    }
}

/// Checking a path ends after three events at the latest.
pub proof fn law_checking_a_path_ends(path: Seq<char>, events: Seq<DirEvent>)
    requires
        dir_possible(path, events),
    ensures
        events.len() + dir_events_left(dir_plan_after(path, events)) <= 3,
        dir_events_left(dir_plan_after(path, events)) == 0 <==> dir_plan_after(path, events) is Accept
            || dir_plan_after(path, events) is Refuse,
    decreases events.len(),
{
    if events.len() > 0 {
        law_checking_a_path_ends(path, events.drop_last());
    }
}

/// What is typed in for a directory becomes the setting, without the white space around it,
/// exactly where checking that path came to find a directory that can be accessed; no other path
/// is accepted for it. Otherwise nothing is settled.
pub proof fn law_only_directories_become_settings(
    found: Found,
    field: Field,
    line: Seq<char>,
    events: Seq<DirEvent>,
)
    requires
        field.names_a_dir(),
        dir_possible(trimmed(line), events),
        dir_events_left(dir_plan_after(trimmed(line), events)) == 0,
    ensures
        ({
            let plan = dir_plan_after(trimmed(line), events);
            let next = found.answered_dir(field, line, plan is Accept);
            &&& next is Some <==> events.contains(DirEvent::IsDir(true))
            &&& next is Some ==> plan == DirPlan::Accept(trimmed(line)) && next->0.dir(field)
                == Some(trimmed(line))
        }),
{
    let plan = dir_plan_after(trimmed(line), events);
    assert(events.len() > 0);
    if plan is Accept {
        assert(events[events.len() - 1] == DirEvent::IsDir(true));
    }
    if events.contains(DirEvent::IsDir(true)) {
        let i = choose|i: int| 0 <= i < events.len() && events[i] == DirEvent::IsDir(true);
        lemma_a_directory_is_found_last(trimmed(line), events, i);
    }
}

/// Nothing comes after a path was found to be a directory.
proof fn lemma_a_directory_is_found_last(path: Seq<char>, events: Seq<DirEvent>, i: int)
    requires
        dir_possible(path, events),
        0 <= i < events.len(),
        events[i] == DirEvent::IsDir(true),
    ensures
        i == events.len() - 1,
    decreases events.len(),
{
    if i < events.len() - 1 {
        lemma_a_directory_is_found_last(path, events.drop_last(), i);
    }
}

/// What happened to the settings file.
#[derive(Debug, Clone, Copy, PartialEq, Eq, Structural)]
pub enum WatchKind {
    /// The file was read.
    Read,
    /// The file was opened.
    Opened,
    /// The file was closed by someone who could write to it.
    ClosedAfterWrite,
    /// The file was closed by someone else.
    ClosedOtherwise,
    /// The file was accessed in another way.
    AccessedOtherwise,
    /// The file was created.
    Created,
    /// The file was changed.
    Modified,
    /// The file was removed.
    Removed,
    /// Anything else.
    Unknown,
}

/// Whether the settings have to be read again: only once someone is done with writing them.
pub fn wants_reload(kind: &WatchKind) -> (r: bool)
    ensures
        r == (kind is ClosedAfterWrite),
{
    match kind {
        WatchKind::ClosedAfterWrite => true,
        _ => false,
    }
}

} // verus!
