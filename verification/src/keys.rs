//! Keys for new users and the links that invite them.

use crate::config::{Account, Config, Settings};
use crate::text::{chars_of, text_of};
use rand::seq::SliceRandom;
use vstd::prelude::*;
use vstd::string::*;
use vstd::utf8::*;

verus! {

/// The characters that keys are made of.
pub open spec fn key_alphabet() -> Seq<char> {
    "0123456789abcdefghijklmnopqrstuvwxyzABCDEFGHIJKLMNOPQRSTUVWXYZ!@#$%&*?"@
}

/// A key has 128 characters of the alphabet.
pub open spec fn is_key(key: Seq<char>) -> bool {
    key.len() == 128 && forall|i: int|
        0 <= i < key.len() ==> key_alphabet().contains(#[trigger] key[i])
}

/// `SliceRandom::choose` of the crate rand, with `rand::thread_rng` as the source: one of the
/// items, at random. Claimed is that there is an item exactly where the list is not empty, and
/// that it stands in the list; which one it is, is left to chance.
#[verifier::external_body]
fn pick(items: &Vec<char>) -> (r: Option<char>)
    ensures
        r is Some <==> items@.len() > 0,
        r matches Some(c) ==> items@.contains(c),
{
    items.choose(&mut rand::thread_rng()).copied()
}

/// Keys are made of 128 characters out of the digits, the small and the capital letters and eight
/// marks, each of which stands in the alphabet once.
pub proof fn law_alphabet_of_keys(c: char, key: Seq<char>)
    ensures
        key_alphabet().contains(c) <==> '0' <= c <= '9' || 'a' <= c <= 'z' || 'A' <= c <= 'Z' || c
            == '!' || c == '@' || c == '#' || c == '$' || c == '%' || c == '&' || c == '*' || c
            == '?',
        key_alphabet().len() == 70,
        key_alphabet().no_duplicates(),
        is_key(key) <==> key.len() == 128 && forall|i: int|
            0 <= i < 128 ==> key_alphabet().contains(#[trigger] key[i]),
{
    reveal_strlit("0123456789abcdefghijklmnopqrstuvwxyzABCDEFGHIJKLMNOPQRSTUVWXYZ!@#$%&*?");
    let s = key_alphabet();
    assert forall|i: int| 0 <= i < 70 implies #[trigger] s[i] as int == (if i < 10 {
        48 + i
    } else if i < 36 {
        87 + i
    } else if i < 62 {
        29 + i
    } else {
        s[i] as int
    }) by {}
    if '0' <= c <= '9' {
        assert(s[c as int - 48] == c);
    } else if 'a' <= c <= 'z' {
        assert(s[c as int - 87] == c);
    } else if 'A' <= c <= 'Z' {
        assert(s[c as int - 29] == c);
    }
    assert(s[62] == '!' && s[63] == '@' && s[64] == '#' && s[65] == '$' && s[66] == '%' && s[67]
        == '&' && s[68] == '*' && s[69] == '?');
}

/// The character was drawn at random from the alphabet.
pub closed spec fn drawn_at_random(c: char) -> bool {
    exists|items: Vec<char>|
        items@ == key_alphabet() && #[trigger] call_ensures(pick, (&items,), Some(c))
}

/// Only what a random choice from the alphabet has returned was drawn at random.
proof fn law_draws_are_choices(c: char)
    ensures
        drawn_at_random(c) <==> exists|items: Vec<char>|
            items@ == key_alphabet() && #[trigger] call_ensures(pick, (&items,), Some(c)),
        drawn_at_random(c) ==> key_alphabet().contains(c),
{
}

/// The key that is made of the characters that were drawn, in the order in which they were.
pub fn key_of(drawn: &Vec<char>) -> (r: String)
    requires
        drawn@.len() == 128,
        forall|i: int| 0 <= i < 128 ==> key_alphabet().contains(#[trigger] drawn@[i]),
    ensures
        r@ == drawn@,
        is_key(r@),
{
    let key = text_of(drawn, 0, drawn.len());
    assert(key@ =~= drawn@);
    key
}

/// Makes up a key for a new user: 128 characters are drawn at random.
pub fn generate_api_key() -> (r: String)
    ensures
        is_key(r@),
        forall|i: int| 0 <= i < r@.len() ==> drawn_at_random(#[trigger] r@[i]),
{
    let alphabet = chars_of(
        "0123456789abcdefghijklmnopqrstuvwxyzABCDEFGHIJKLMNOPQRSTUVWXYZ!@#$%&*?",
    );
    proof {
        reveal_strlit("0123456789abcdefghijklmnopqrstuvwxyzABCDEFGHIJKLMNOPQRSTUVWXYZ!@#$%&*?");
    }
    let mut drawn: Vec<char> = Vec::new();
    while drawn.len() < 128
        invariant
            drawn@.len() <= 128,
            alphabet@ == key_alphabet(),
            alphabet@.len() > 0,
            forall|i: int|
                0 <= i < drawn@.len() ==> key_alphabet().contains(#[trigger] drawn@[i]),
            forall|i: int| 0 <= i < drawn@.len() ==> drawn_at_random(#[trigger] drawn@[i]),
        decreases 128 - drawn@.len(),
    {
        if let Some(c) = pick(&alphabet) {
            drawn.push(c);
        }
    }
    key_of(&drawn)
}

/// The bytes that stand for themselves in a URL.
pub open spec fn unreserved(b: u8) -> bool {
    '0' as u8 <= b <= '9' as u8 || 'A' as u8 <= b <= 'Z' as u8 || 'a' as u8 <= b <= 'z' as u8
        || b == '-' as u8 || b == '.' as u8 || b == '_' as u8 || b == '~' as u8
}

/// The upper-case hexadecimal digit for a number below sixteen.
pub open spec fn hex_digit(n: int) -> char {
    if n < 10 {
        (48 + n) as char
    } else {
        (55 + n) as char
    }
}

/// A byte in a URL: itself, or `%` and two hexadecimal digits.
pub open spec fn escaped(b: u8) -> Seq<char> {
    if unreserved(b) {
        seq![b as char]
    } else {
        seq!['%', hex_digit(b as int / 16), hex_digit(b as int % 16)]
    }
}

/// Bytes in a URL.
pub open spec fn percent_encoded(bytes: Seq<u8>) -> Seq<char>
    decreases bytes.len(),
{
    if bytes.len() == 0 {
        Seq::empty()
    } else {
        escaped(bytes[0]) + percent_encoded(bytes.drop_first())
    }
}

/// `urlencoding::encode`: percent-encodes the UTF-8 bytes of a text. Letters and digits of
/// ASCII, `-`, `.`, `_` and `~` stay as they are; every other byte becomes `%` and two
/// upper-case hexadecimal digits.
#[verifier::external_body]
fn percent_encode(text: &str) -> (r: String)
    ensures
        r@ == percent_encoded(encode_utf8(text@)),
{
    urlencoding::encode(text).into_owned()
}

/// The link that hands a key to a new user.
pub open spec fn link_for(key: Seq<char>) -> Seq<char> {
    "https://ytdlp.deadlyneurotox.in/invite.html?key="@ + percent_encoded(encode_utf8(key))
}

/// The link that hands a key to a new user.
pub fn invite_link(key: &str) -> (r: String)
    ensures
        r@ == link_for(key@),
{
    let encoded = percent_encode(key);
    "https://ytdlp.deadlyneurotox.in/invite.html?key=".to_owned().concat(encoded.as_str())
}

impl Config {
    /// Makes up a key for a new user, adds the account and returns the link that hands the key
    /// over.
    pub fn invite_user(&mut self, user: String) -> (r: String)
        ensures
            exists|key: Seq<char>|
                {
                    &&& is_key(key)
                    &&& forall|i: int| 0 <= i < key.len() ==> drawn_at_random(#[trigger] key[i])
                    &&& r@ == #[trigger] link_for(key)
                    &&& final(self)@ == (Settings {
                        auth_keys: old(self)@.auth_keys.push(Account { user: user@, key }),
                        ..old(self)@
                    })
                },
    {
        let key = generate_api_key();
        let link = invite_link(key.as_str());
        self.add_user(user, key);
        link
    }
}

/// What a byte becomes tells the byte, and how many characters it takes.
proof fn lemma_escaped(a: u8, b: u8, x: Seq<char>, y: Seq<char>)
    requires
        escaped(a) + x == escaped(b) + y,
    ensures
        a == b,
        x == y,
{
    let s = escaped(a) + x;
    let t = escaped(b) + y;
    assert(s[0] == escaped(a)[0] && t[0] == escaped(b)[0]);
    if unreserved(a) {
        assert(escaped(a)[0] == a as char);
    }
    if unreserved(b) {
        assert(escaped(b)[0] == b as char);
    }
    assert(unreserved(a) == unreserved(b));
    if !unreserved(a) {
        assert(s[1] == escaped(a)[1] && t[1] == escaped(b)[1]);
        assert(s[2] == escaped(a)[2] && t[2] == escaped(b)[2]);
    }
    assert(escaped(a).len() == escaped(b).len());
    let n = escaped(a).len() as int;
    assert(s.skip(n) =~= x);
    assert(t.skip(n) =~= y);
}

proof fn lemma_percent_encoded(a: Seq<u8>, b: Seq<u8>)
    requires
        percent_encoded(a) == percent_encoded(b),
    ensures
        a == b,
    decreases a.len(),
{
    if a.len() > 0 && b.len() > 0 {
        lemma_escaped(
            a[0],
            b[0],
            percent_encoded(a.drop_first()),
            percent_encoded(b.drop_first()),
        );
        lemma_percent_encoded(a.drop_first(), b.drop_first());
        assert(a =~= seq![a[0]] + a.drop_first());
        assert(b =~= seq![b[0]] + b.drop_first());
    } else if a.len() > 0 {
        assert(percent_encoded(a).len() > 0);
    } else if b.len() > 0 {
        assert(percent_encoded(b).len() > 0);
    } else {
        assert(a =~= b);
    }
}

/// A link is the address of the page for invitations with the key behind it, percent-encoded: each
/// byte of the key stands there for itself or as `%` and its two hexadecimal digits, in order.
pub proof fn law_links_hold_the_key(key: Seq<char>, a: Seq<u8>, b: Seq<u8>, c: u8)
    ensures
        link_for(key) == "https://ytdlp.deadlyneurotox.in/invite.html?key="@ + percent_encoded(
            encode_utf8(key),
        ),
        percent_encoded(a + b) == percent_encoded(a) + percent_encoded(b),
        percent_encoded(seq![c]) == escaped(c),
    decreases a.len(),
{
    assert(seq![c].drop_first() =~= Seq::<u8>::empty());
    assert(percent_encoded(seq![c].drop_first()) =~= Seq::<char>::empty());
    assert(percent_encoded(seq![c]) =~= escaped(c));
    if a.len() == 0 {
        assert(a + b =~= b);
        assert(percent_encoded(a) + percent_encoded(b) =~= percent_encoded(b));
    } else {
        law_links_hold_the_key(key, a.drop_first(), b, c);
        assert((a + b).drop_first() =~= a.drop_first() + b);
        assert(percent_encoded(a + b) =~= percent_encoded(a) + percent_encoded(b));
    }
}

/// A link hands over exactly one key: different keys have different links.
pub proof fn law_links_tell_keys_apart(key: Seq<char>, other: Seq<char>)
    requires
        link_for(key) == link_for(other),
    ensures
        key == other,
{
    let head = "https://ytdlp.deadlyneurotox.in/invite.html?key="@;
    let a = percent_encoded(encode_utf8(key));
    let b = percent_encoded(encode_utf8(other));
    assert((head + a).skip(head.len() as int) =~= a);
    assert((head + b).skip(head.len() as int) =~= b);
    lemma_percent_encoded(encode_utf8(key), encode_utf8(other));
    encode_utf8_decode_utf8(key);
    encode_utf8_decode_utf8(other);
}

/// The characters that may stand behind `key=` in a link: none of them ends the value, begins
/// another one or is read as something else.
pub open spec fn safe_in_link(c: char) -> bool {
    '0' <= c <= '9' || 'A' <= c <= 'Z' || 'a' <= c <= 'z' || c == '-' || c == '.' || c == '_' || c
        == '~' || c == '%'
}

/// Whatever the key holds, only safe characters stand behind `key=`.
pub proof fn law_links_are_safe(key: Seq<char>, i: int)
    requires
        0 <= i < percent_encoded(encode_utf8(key)).len(),
    ensures
        safe_in_link(percent_encoded(encode_utf8(key))[i]),
{
    lemma_encoded_is_safe(encode_utf8(key), i);
}

proof fn lemma_encoded_is_safe(bytes: Seq<u8>, i: int)
    requires
        0 <= i < percent_encoded(bytes).len(),
    ensures
        safe_in_link(percent_encoded(bytes)[i]),
    decreases bytes.len(),
{
    let n = escaped(bytes[0]).len() as int;
    if i >= n {
        lemma_encoded_is_safe(bytes.drop_first(), i - n);
        assert(percent_encoded(bytes)[i] == percent_encoded(bytes.drop_first())[i - n]);
    } else {
        assert(percent_encoded(bytes)[i] == escaped(bytes[0])[i]);
    }
}

} // verus!
