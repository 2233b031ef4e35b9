//! The server's settings, and who may use the server.

use crate::number::{decimal, decimal_text};
use crate::text::{opt_text, same_text};
use vstd::prelude::*;
use vstd::string::*;

verus! {

/// A user and the key that the user's requests carry.
#[derive(Debug)]
pub struct AuthInfo {
    pub user: String,
    pub key: String,
}

/// A user and the key that the user's requests carry.
pub struct Account {
    pub user: Seq<char>,
    pub key: Seq<char>,
}

impl View for AuthInfo {
    type V = Account;

    open spec fn view(&self) -> Account {
        Account { user: self.user@, key: self.key@ }
    }
}

impl Clone for AuthInfo {
    fn clone(&self) -> (r: Self)
        ensures
            r@ == self@,
    {
        AuthInfo { user: self.user.clone(), key: self.key.clone() }
    }
}

/// The accounts of a list, in order.
pub open spec fn accounts(keys: Seq<AuthInfo>) -> Seq<Account> {
    keys.map_values(|a: AuthInfo| a@)
}

/// Copies a list of accounts.
fn clone_accounts(keys: &Vec<AuthInfo>) -> (r: Vec<AuthInfo>)
    ensures
        accounts(r@) == accounts(keys@),
{
    let mut r: Vec<AuthInfo> = Vec::new();
    let mut i: usize = 0;
    while i < keys.len()
        invariant
            i <= keys@.len(),
            r@.len() == i,
            forall|j: int| 0 <= j < i ==> (#[trigger] r@[j])@ == keys@[j]@,
        decreases keys@.len() - i,
    {
        r.push(keys[i].clone());
        i += 1;
    }
    assert(accounts(r@) =~= accounts(keys@));
    r
}

/// The settings of the server.
#[derive(Debug)]
pub struct Config {
    pub host: String,
    pub port: u16,
    pub auth_keys: Vec<AuthInfo>,
    pub video_dir: String,
    pub audio_dir: String,
    pub tmp_dir: String,
    pub expire_time: i64,
    pub max_file_size: u64,
}

/// The settings of the server.
#[verifier::ext_equal]
pub struct Settings {
    pub host: Seq<char>,
    pub port: u16,
    pub auth_keys: Seq<Account>,
    pub video_dir: Seq<char>,
    pub audio_dir: Seq<char>,
    pub tmp_dir: Seq<char>,
    pub expire_time: i64,
    pub max_file_size: u64,
}

impl View for Config {
    type V = Settings;

    open spec fn view(&self) -> Settings {
        Settings {
            host: self.host@,
            port: self.port,
            auth_keys: accounts(self.auth_keys@),
            video_dir: self.video_dir@,
            audio_dir: self.audio_dir@,
            tmp_dir: self.tmp_dir@,
            expire_time: self.expire_time,
            max_file_size: self.max_file_size,
        }
    }
}

impl Clone for Config {
    fn clone(&self) -> (r: Self)
        ensures
            r@ == self@,
    {
        Config {
            host: self.host.clone(),
            port: self.port,
            auth_keys: clone_accounts(&self.auth_keys),
            video_dir: self.video_dir.clone(),
            audio_dir: self.audio_dir.clone(),
            tmp_dir: self.tmp_dir.clone(),
            expire_time: self.expire_time,
            max_file_size: self.max_file_size,
        }
    }
}

/// How many accounts stand before the first one of this user; all of them where there is none.
pub open spec fn first_of_user(keys: Seq<Account>, user: Seq<char>) -> int
    decreases keys.len(),
{
    if keys.len() == 0 || keys[0].user == user {
        0
    } else {
        1 + first_of_user(keys.drop_first(), user)
    }
}

/// Some account has this user name.
pub open spec fn has_user(keys: Seq<Account>, user: Seq<char>) -> bool {
    exists|i: int| 0 <= i < keys.len() && (#[trigger] keys[i]).user == user
}

/// Some account has this key.
pub open spec fn has_key(keys: Seq<Account>, key: Seq<char>) -> bool {
    exists|i: int| 0 <= i < keys.len() && (#[trigger] keys[i]).key == key
}

/// A request may be served where it carries the key of some account.
pub open spec fn authorized(keys: Seq<Account>, key: Option<Seq<char>>) -> bool {
    match key {
        Some(k) => has_key(keys, k),
        None => false,
    }
}

proof fn lemma_first_of_user(keys: Seq<Account>, user: Seq<char>, at: int)
    requires
        0 <= at <= keys.len(),
        forall|i: int| 0 <= i < at ==> keys[i].user != user,
        at < keys.len() ==> keys[at].user == user,
    ensures
        first_of_user(keys, user) == at,
        has_user(keys, user) <==> at < keys.len(),
    decreases keys.len(),
{
    if at > 0 {
        lemma_first_of_user(keys.drop_first(), user, at - 1);
    }
}

impl Config {
    /// The directory for pictures with sound.
    pub fn get_video_dir(&self) -> (r: String)
        ensures
            r@ == self@.video_dir,
    {
        self.video_dir.clone()
    }

    /// The directory for sound alone.
    pub fn get_audio_dir(&self) -> (r: String)
        ensures
            r@ == self@.audio_dir,
    {
        self.audio_dir.clone()
    }

    /// The directory for downloads that are under way.
    pub fn get_tmp_dir(&self) -> (r: String)
        ensures
            r@ == self@.tmp_dir,
    {
        self.tmp_dir.clone()
    }

    /// Adds an account behind the others.
    pub fn add_user(&mut self, user: String, key: String)
        ensures
            final(self)@ == (Settings {
                auth_keys: old(self)@.auth_keys.push(Account { user: user@, key: key@ }),
                ..old(self)@
            }),
    {
        self.auth_keys.push(AuthInfo { user, key });
        assert(accounts(self.auth_keys@) =~= accounts(old(self).auth_keys@).push(
            Account { user: user@, key: key@ },
        ));
    }

    /// Removes the first account of a user; tells whether there was one.
    pub fn remove_user(&mut self, user: &str) -> (found: bool)
        ensures
            found == has_user(old(self)@.auth_keys, user@),
            final(self)@ == (if found {
                Settings {
                    auth_keys: old(self)@.auth_keys.remove(
                        first_of_user(old(self)@.auth_keys, user@),
                    ),
                    ..old(self)@
                }
            } else {
                old(self)@
            }),
    {
        let ghost keys = self@.auth_keys;
        let mut i: usize = 0;
        while i < self.auth_keys.len() && !same_text(self.auth_keys[i].user.as_str(), user)
            invariant
                i <= self.auth_keys@.len(),
                self@ == old(self)@,
                keys == self@.auth_keys,
                forall|j: int| 0 <= j < i ==> keys[j].user != user@,
            decreases self.auth_keys@.len() - i,
        {
            i += 1;
        }
        proof {
            lemma_first_of_user(keys, user@, i as int);
        }
        if i < self.auth_keys.len() {
            self.auth_keys.remove(i);
            assert(accounts(self.auth_keys@) =~= keys.remove(i as int));
            true
        } else {
            false
        }
    }

    /// The names of the users, in order.
    pub fn user_names(&self) -> (r: Vec<String>)
        ensures
            r@.map_values(|s: String| s@) == self@.auth_keys.map_values(|a: Account| a.user),
    {
        let mut r: Vec<String> = Vec::new();
        let mut i: usize = 0;
        while i < self.auth_keys.len()
            invariant
                i <= self.auth_keys@.len(),
                r@.len() == i,
                forall|j: int| 0 <= j < i ==> (#[trigger] r@[j])@ == self@.auth_keys[j].user,
            decreases self.auth_keys@.len() - i,
        {
            r.push(self.auth_keys[i].user.clone());
            i += 1;
        }
        assert(r@.map_values(|s: String| s@) =~= self@.auth_keys.map_values(|a: Account| a.user));
        r
    }

    /// Whether a request with this key may be served.
    pub fn is_authorized(&self, key: &Option<String>) -> (r: bool)
        ensures
            r == authorized(self@.auth_keys, opt_text(*key)),
    {
        match key {
            Some(k) => {
                let mut i: usize = 0;
                while i < self.auth_keys.len()
                    invariant
                        i <= self.auth_keys@.len(),
                        opt_text(*key) == Some(k@),
                        forall|j: int| 0 <= j < i ==> self@.auth_keys[j].key != k@,
                    decreases self.auth_keys@.len() - i,
                {
                    if same_text(self.auth_keys[i].key.as_str(), k.as_str()) {
                        assert(self@.auth_keys[i as int].key == k@);
                        return true;
                    }
                    i += 1;
                }
                false
            },
            None => false,
        }
    }

    /// The address that the server listens on.
    pub fn bind_address(&self) -> (r: String)
        ensures
            r@ == self@.host + ":"@ + decimal_text(self@.port as nat),
    {
        self.host.clone().concat(":").concat(decimal(self.port as u64).as_str())
    }

    /// The directories that have to be there before the server starts.
    pub fn dirs_to_check(&self) -> (r: Vec<String>)
        ensures
            r@.map_values(|s: String| s@) == seq![self@.video_dir, self@.audio_dir],
    {
        let mut r: Vec<String> = Vec::new();
        r.push(self.get_video_dir());
        r.push(self.get_audio_dir());
        assert(r@.map_values(|s: String| s@) =~= seq![self@.video_dir, self@.audio_dir]);
        r
    }
}

/// A request is served exactly where it carries a key and some account has that very key.
pub proof fn law_only_known_keys_are_served(keys: Seq<Account>, key: Option<Seq<char>>)
    ensures
        authorized(keys, key) <==> (key matches Some(k) && exists|i: int|
            0 <= i < keys.len() && (#[trigger] keys[i]).key == k),
{
}

/// Without accounts nobody is served, and the order of the accounts does not matter.
pub proof fn law_accounts_serve_together(a: Seq<Account>, b: Seq<Account>, key: Option<Seq<char>>)
    ensures
        !authorized(Seq::<Account>::empty(), key),
        authorized(a + b, key) <==> authorized(a, key) || authorized(b, key),
{
    if let Some(k) = key {
        let both = a + b;
        if has_key(a, k) {
            let i = choose|i: int| 0 <= i < a.len() && (#[trigger] a[i]).key == k;
            assert(both[i].key == k);
        }
        if has_key(b, k) {
            let i = choose|i: int| 0 <= i < b.len() && (#[trigger] b[i]).key == k;
            assert(both[a.len() + i].key == k);
        }
        if has_key(both, k) {
            let i = choose|i: int| 0 <= i < both.len() && (#[trigger] both[i]).key == k;
            if i < a.len() {
                assert(a[i].key == k);
            } else {
                assert(b[i - a.len()].key == k);
            }
        }
    }
}

/// A user has an account exactly where some account bears the name, and the first of them comes
/// before all others of that name.
pub proof fn law_first_account_of_a_user(keys: Seq<Account>, user: Seq<char>)
    ensures
        has_user(keys, user) <==> exists|i: int|
            0 <= i < keys.len() && (#[trigger] keys[i]).user == user,
        has_user(keys, user) ==> {
            let at = first_of_user(keys, user);
            &&& 0 <= at < keys.len()
            &&& keys[at].user == user
            &&& forall|i: int| 0 <= i < at ==> (#[trigger] keys[i]).user != user
        },
    decreases keys.len(),
{
    if has_user(keys, user) {
        let i = choose|i: int| 0 <= i < keys.len() && (#[trigger] keys[i]).user == user;
        if keys[0].user != user {
            let rest = keys.drop_first();
            assert(rest[i - 1].user == user);
            law_first_account_of_a_user(rest, user);
            let at = first_of_user(keys, user);
            assert forall|j: int| 0 <= j < at implies (#[trigger] keys[j]).user != user by {
                if j > 0 {
                    assert(rest[j - 1].user != user);
                }
            }
        }
    }
}

/// The settings are seen whole, and accounts one by one.
pub proof fn law_settings_are_seen_whole(c: Config)
    ensures
        c@.host == c.host@,
        c@.port == c.port,
        c@.video_dir == c.video_dir@,
        c@.audio_dir == c.audio_dir@,
        c@.tmp_dir == c.tmp_dir@,
        c@.expire_time == c.expire_time,
        c@.max_file_size == c.max_file_size,
        c@.auth_keys.len() == c.auth_keys@.len(),
        forall|i: int|
            0 <= i < c.auth_keys@.len() ==> (#[trigger] c@.auth_keys[i]).user
                == c.auth_keys@[i].user@ && c@.auth_keys[i].key == c.auth_keys@[i].key@,
{
}

/// Once an account was added, requests with its key may be served, and whoever was served
/// before still is.
pub proof fn law_added_user_is_served(keys: Seq<Account>, added: Account, other: Option<Seq<char>>)
    ensures
        authorized(keys.push(added), Some(added.key)),
        authorized(keys.push(added), other) <==> authorized(keys, other) || other == Some(
            added.key,
        ),
{
    let more = keys.push(added);
    assert(more[keys.len() as int] == added);
    if let Some(k) = other {
        if has_key(keys, k) {
            let i = choose|i: int| 0 <= i < keys.len() && (#[trigger] keys[i]).key == k;
            assert(more[i].key == k);
        }
        if has_key(more, k) {
            let i = choose|i: int| 0 <= i < more.len() && (#[trigger] more[i]).key == k;
            assert(i < keys.len() ==> keys[i].key == k);
        }
    }
}

/// Adding a user of a new name and removing that user again leaves the accounts as they were.
pub proof fn law_remove_undoes_add(keys: Seq<Account>, added: Account)
    requires
        !has_user(keys, added.user),
    ensures
        has_user(keys.push(added), added.user),
        keys.push(added).remove(first_of_user(keys.push(added), added.user)) == keys,
{
    let more = keys.push(added);
    assert forall|i: int| 0 <= i < keys.len() implies more[i].user != added.user by {
        assert(more[i] == keys[i]);
    }
    lemma_first_of_user(more, added.user, keys.len() as int);
    assert(more.remove(keys.len() as int) =~= keys);
}

/// The first account of a user bears that user's name, and none before it does.
proof fn lemma_first_of_user_bounds(keys: Seq<Account>, user: Seq<char>)
    requires
        has_user(keys, user),
    ensures
        0 <= first_of_user(keys, user) < keys.len(),
        keys[first_of_user(keys, user)].user == user,
    decreases keys.len(),
{
    let i = choose|i: int| 0 <= i < keys.len() && (#[trigger] keys[i]).user == user;
    if keys[0].user != user {
        assert(keys.drop_first()[i - 1].user == user);
        lemma_first_of_user_bounds(keys.drop_first(), user);
    }
}

/// Removing a user takes away one account of that name, so that its key is refused from then
/// on unless another account has the same key. No other account is touched.
pub proof fn law_removed_user_is_refused(keys: Seq<Account>, user: Seq<char>)
    requires
        has_user(keys, user),
    ensures
        ({
            let at = first_of_user(keys, user);
            let left = keys.remove(at);
            &&& keys[at].user == user
            &&& left.len() == keys.len() - 1
            &&& forall|i: int|
                0 <= i < keys.len() && i != at ==> #[trigger] keys[i] == left[if i < at {
                    i
                } else {
                    i - 1
                }]
            &&& (forall|i: int|
                0 <= i < keys.len() && i != at ==> (#[trigger] keys[i]).key != keys[at].key)
                ==> !authorized(left, Some(keys[at].key))
        }),
{
    lemma_first_of_user_bounds(keys, user);
    let at = first_of_user(keys, user);
    let left = keys.remove(at);
    if authorized(left, Some(keys[at].key)) {
        let j = choose|j: int| 0 <= j < left.len() && (#[trigger] left[j]).key == keys[at].key;
        let i = if j < at {
            j
        } else {
            j + 1
        };
        assert(left[j] == keys[i]);
    }
}

/// Without a key no request is served.
pub proof fn law_no_key_no_service(keys: Seq<Account>)
    ensures
        !authorized(keys, None),
{
}

} // verus!
