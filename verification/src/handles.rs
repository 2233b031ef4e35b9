//! The downloads that were started: finding them, asking after them, and clearing them away.

use crate::clock::{read_clock, read_from_clock, EARLIEST, LATEST};
use crate::download::{DownloadInfo, Request};
use crate::ids::{is_id, made_up, make_up_id};
use crate::text::same_text;
use vstd::prelude::*;
use vstd::string::*;

verus! {

/// A download that was started: what was asked for, the task that does the work, and the
/// second after which it may be forgotten.
#[derive(Debug)]
pub struct Handle<J> {
    pub info: DownloadInfo,
    pub joinhandle: J,
    pub expires: i64,
}

impl<J> Handle<J> {
    /// A download that was started in the second `now`.
    pub fn started_at(info: DownloadInfo, joinhandle: J, now: i64, expire_time: i64) -> (r: Handle<J>)
        requires
            i64::MIN <= now + expire_time <= i64::MAX,
        ensures
            r.info == info,
            r.joinhandle == joinhandle,
            r.expires == now + expire_time,
    {
        Handle { info, joinhandle, expires: now + expire_time }
    }

    /// A download that was started just now. There is none where the second of its expiry is
    /// beyond all numbers.
    pub fn new(info: DownloadInfo, joinhandle: J, expire_time: i64) -> (r: Option<Handle<J>>)
        ensures
            r matches Some(h) ==> {
                &&& h.info == info
                &&& h.joinhandle == joinhandle
                &&& EARLIEST <= h.expires - expire_time <= LATEST
                &&& read_from_clock((h.expires - expire_time) as i64)
            },
            r is None ==> exists|second: i64| #[trigger]
                read_from_clock(second) && !(i64::MIN <= second + expire_time <= i64::MAX),
            i64::MIN - EARLIEST <= expire_time <= i64::MAX - LATEST ==> r is Some,
    {
        let second: i64 = read_clock();
        match second.checked_add(expire_time) {
            Some(_) => Some(Self::started_at(info, joinhandle, second, expire_time)),
            None => None,
        }
    }
}

/// A download under its id.
#[derive(Debug)]
pub struct Entry<J> {
    pub id: String,
    pub handle: Handle<J>,
}

/// The downloads that were started and are not forgotten, each under an id of its own, and
/// what was downloaded to be handed out at once and is still to be cleared away.
#[derive(Debug)]
pub struct Handles<J, P> {
    entries: Vec<Entry<J>>,
    pending_direct_downloads: Vec<P>,
}

/// No id occurs twice.
pub open spec fn distinct<J>(entries: Seq<Entry<J>>) -> bool {
    forall|i: int, j: int|
        0 <= i < j < entries.len() ==> (#[trigger] entries[i]).id@ != (#[trigger] entries[j]).id@
}

/// The downloads by their ids.
pub open spec fn by_id<J>(entries: Seq<Entry<J>>) -> Map<Seq<char>, Handle<J>>
    decreases entries.len(),
{
    if entries.len() == 0 {
        Map::empty()
    } else {
        by_id(entries.drop_last()).insert(entries.last().id@, entries.last().handle)
    }
}

/// An id stands for the download of its entry.
proof fn lemma_by_id<J>(entries: Seq<Entry<J>>)
    requires
        distinct(entries),
    ensures
        forall|i: int|
            0 <= i < entries.len() ==> by_id(entries).contains_key((#[trigger] entries[i]).id@)
                && by_id(entries)[entries[i].id@] == entries[i].handle,
        forall|id: Seq<char>| #[trigger] by_id(entries).contains_key(id) ==> exists|i: int|
            0 <= i < entries.len() && (#[trigger] entries[i]).id@ == id,
    decreases entries.len(),
{
    if entries.len() > 0 {
        let rest = entries.drop_last();
        lemma_by_id(rest);
        assert forall|i: int| 0 <= i < entries.len() implies by_id(entries).contains_key(
            (#[trigger] entries[i]).id@,
        ) && by_id(entries)[entries[i].id@] == entries[i].handle by {
            if i < rest.len() {
                assert(rest[i] == entries[i]);
                assert(entries[i].id@ != entries[entries.len() - 1].id@);
            }
        }
        assert forall|id: Seq<char>| #[trigger] by_id(entries).contains_key(id) implies exists|
            i: int,
        | 0 <= i < entries.len() && (#[trigger] entries[i]).id@ == id by {
            if id == entries.last().id@ {
                assert(entries[entries.len() - 1].id@ == id);
            } else {
                assert(by_id(rest).contains_key(id));
                let i = choose|i: int| 0 <= i < rest.len() && (#[trigger] rest[i]).id@ == id;
                assert(entries[i].id@ == id);
            }
        }
    }
}

/// Taking out an entry takes its id out.
proof fn lemma_remove<J>(entries: Seq<Entry<J>>, at: int)
    requires
        distinct(entries),
        0 <= at < entries.len(),
    ensures
        distinct(entries.remove(at)),
        by_id(entries.remove(at)) == by_id(entries).remove(entries[at].id@),
{
    let left = entries.remove(at);
    assert forall|i: int, j: int| 0 <= i < j < left.len() implies (#[trigger] left[i]).id@ != (
    #[trigger] left[j]).id@ by {
        let a = if i < at {
            i
        } else {
            i + 1
        };
        let b = if j < at {
            j
        } else {
            j + 1
        };
        assert(left[i] == entries[a] && left[j] == entries[b]);
    }
    lemma_by_id(entries);
    lemma_by_id(left);
    let m = by_id(entries).remove(entries[at].id@);
    assert forall|id: Seq<char>| #[trigger] by_id(left).contains_key(id) <==> m.contains_key(
        id,
    ) by {
        if by_id(left).contains_key(id) {
            let i = choose|i: int| 0 <= i < left.len() && (#[trigger] left[i]).id@ == id;
            let a = if i < at {
                i
            } else {
                i + 1
            };
            assert(left[i] == entries[a]);
            assert(entries[a].id@ != entries[at].id@);
        }
        if m.contains_key(id) {
            let a = choose|a: int| 0 <= a < entries.len() && (#[trigger] entries[a]).id@ == id;
            let i = if a < at {
                a
            } else {
                a - 1
            };
            assert(left[i] == entries[a]);
        }
    }
    assert forall|id: Seq<char>| #[trigger] by_id(left).contains_key(id) implies by_id(left)[id]
        == m[id] by {
        let i = choose|i: int| 0 <= i < left.len() && (#[trigger] left[i]).id@ == id;
        let a = if i < at {
            i
        } else {
            i + 1
        };
        assert(left[i] == entries[a]);
        assert(by_id(entries)[entries[a].id@] == entries[a].handle);
    }
    assert(by_id(left) =~= m);
}

/// What came of asking after a download.
#[derive(Debug)]
pub enum CheckOutcome<J> {
    /// No download has this id.
    NotFound,
    /// The download is still under way.
    NotFinished,
    /// The download is over and forgotten.
    Finished(Handle<J>),
}

/// The downloads after someone asked after one of them: it is forgotten where its task is over.
pub open spec fn after_check<J>(
    handles: Map<Seq<char>, Handle<J>>,
    id: Seq<char>,
    finished: bool,
) -> Map<Seq<char>, Handle<J>> {
    if finished {
        handles.remove(id)
    } else {
        handles
    }
}

impl<J, P> Handles<J, P> {
    /// The downloads in the order in which they are walked through.
    pub closed spec fn listing(self) -> Seq<Entry<J>> {
        self.entries@
    }

    /// The downloads by their ids.
    pub open spec fn handles(self) -> Map<Seq<char>, Handle<J>> {
        by_id(self.listing())
    }

    /// What was handed out at once and is still to be cleared away.
    pub closed spec fn pending(self) -> Seq<P> {
        self.pending_direct_downloads@
    }

    /// Each download has an id of its own.
    pub open spec fn wf(self) -> bool {
        distinct(self.listing())
    }

    /// No download was started yet.
    pub fn new() -> (r: Handles<J, P>)
        ensures
            r.wf(),
            r.handles() == Map::<Seq<char>, Handle<J>>::empty(),
            r.listing().len() == 0,
            r.pending() == Seq::<P>::empty(),
    {
        Handles { entries: Vec::new(), pending_direct_downloads: Vec::new() }
    }

    /// The position of an id; the number of downloads where it is unknown.
    fn position(&self, id: &str) -> (r: usize)
        requires
            self.wf(),
        ensures
            r <= self.listing().len(),
            r < self.listing().len() ==> self.listing()[r as int].id@ == id@,
            r < self.listing().len() <==> self.handles().contains_key(id@),
            r < self.listing().len() ==> self.handles()[id@] == self.listing()[r as int].handle,
    {
        let mut i: usize = 0;
        while i < self.entries.len() && !same_text(self.entries[i].id.as_str(), id)
            invariant
                i <= self.entries@.len(),
                forall|j: int| 0 <= j < i ==> (#[trigger] self.entries@[j]).id@ != id@,
            decreases self.entries@.len() - i,
        {
            i += 1;
        }
        proof {
            lemma_by_id(self.listing());
        }
        i
    }

    /// Whether a download has this id.
    pub fn contains(&self, id: &str) -> (r: bool)
        requires
            self.wf(),
        ensures
            r == self.handles().contains_key(id@),
    {
        self.position(id) < self.entries.len()
    }

    /// The download with this id.
    pub fn get(&self, id: &str) -> (r: Option<&Handle<J>>)
        requires
            self.wf(),
        ensures
            match r {
                Some(h) => self.handles().contains_key(id@) && *h == self.handles()[id@],
                None => !self.handles().contains_key(id@),
            },
    {
        let i = self.position(id);
        if i < self.entries.len() {
            Some(&self.entries[i].handle)
        } else {
            None
        }
    }

    /// Lets an id pass where no download has it.
    pub fn admit_id(&self, id: String) -> (r: Option<String>)
        requires
            self.wf(),
        ensures
            r == (if self.handles().contains_key(id@) {
                None
            } else {
                Some(id)
            }),
    {
        if self.contains(id.as_str()) {
            None
        } else {
            Some(id)
        }
    }

    /// Makes up an id for a new download. There is none where the one that was made up is
    /// taken; another can then be made up.
    pub fn fresh_id(&self) -> (r: Option<String>)
        requires
            self.wf(),
        ensures
            r matches Some(id) ==> is_id(id@) && made_up(id@) && !self.handles().contains_key(id@),
            r is None ==> exists|id: Seq<char>| #[trigger]
                made_up(id) && self.handles().contains_key(id),
            (forall|id: Seq<char>| #[trigger] self.handles().contains_key(id) ==> !is_id(id))
                ==> r is Some,
    {
        self.admit_id(make_up_id())
    }

    /// Takes up a download that was started under this id, in place of one that may have had
    /// the id before.
    pub fn deferred_download(&mut self, id: String, handle: Handle<J>)
        requires
            old(self).wf(),
        ensures
            final(self).wf(),
            final(self).handles() == old(self).handles().insert(id@, handle),
            final(self).pending() == old(self).pending(),
    {
        let i = self.position(id.as_str());
        let ghost before = self.entries@;
        if i < self.entries.len() {
            proof {
                lemma_remove(before, i as int);
            }
            self.entries.remove(i);
        }
        let ghost left = self.entries@;
        proof {
            lemma_by_id(left);
            assert(!by_id(left).contains_key(id@));
        }
        self.entries.push(Entry { id, handle });
        proof {
            let now = self.entries@;
            assert(now.drop_last() =~= left);
            assert forall|a: int, b: int| 0 <= a < b < now.len() implies (#[trigger] now[a]).id@ != (
            #[trigger] now[b]).id@ by {
                assert(now[a] == left[a]);
                assert(by_id(left).contains_key(left[a].id@));
            }
            assert(by_id(left).insert(id@, handle) =~= by_id(before).insert(id@, handle));
        }
    }

    /// Answers whoever asks after a download, given whether its task is over. A download that
    /// is over is forgotten; one that is still under way stays.
    pub fn check(&mut self, id: &str, finished: bool) -> (r: CheckOutcome<J>)
        requires
            old(self).wf(),
        ensures
            final(self).wf(),
            final(self).pending() == old(self).pending(),
            final(self).handles() == after_check(old(self).handles(), id@, finished),
            match r {
                CheckOutcome::NotFound => !old(self).handles().contains_key(id@),
                CheckOutcome::NotFinished => {
                    &&& old(self).handles().contains_key(id@)
                    &&& !finished
                },
                CheckOutcome::Finished(h) => {
                    &&& old(self).handles().contains_key(id@)
                    &&& finished
                    &&& h == old(self).handles()[id@]
                },
            },
    {
        let i = self.position(id);
        if i == self.entries.len() {
            assert(self.handles().remove(id@) =~= self.handles());
            return CheckOutcome::NotFound;
        }
        if !finished {
            return CheckOutcome::NotFinished;
        }
        proof {
            lemma_remove(self.entries@, i as int);
        }
        let entry = self.entries.remove(i);
        CheckOutcome::Finished(entry.handle)
    }

    /// How many downloads there are.
    pub fn len(&self) -> (r: usize)
        ensures
            r == self.listing().len(),
    {
        self.entries.len()
    }

    /// The task of the download at this place.
    pub fn task(&self, i: usize) -> (r: &J)
        requires
            i < self.listing().len(),
        ensures
            *r == self.listing()[i as int].handle.joinhandle,
    {
        &self.entries[i].handle.joinhandle
    }
}

/// A download may be forgotten where its task is over and the second of its expiry is past.
pub open spec fn expired<J>(entry: Entry<J>, finished: bool, second: i64) -> bool {
    finished && entry.handle.expires < second
}

/// The downloads that stay when those are cleared away that may be forgotten, in order. For
/// each download it is known whether its task is over, and which second it was then.
pub open spec fn staying<J>(
    entries: Seq<Entry<J>>,
    finished: Seq<bool>,
    seconds: Seq<i64>,
) -> Seq<Entry<J>>
    decreases entries.len(),
{
    if entries.len() == 0 {
        Seq::empty()
    } else {
        let rest = staying(entries.drop_last(), finished, seconds);
        let i = entries.len() - 1;
        if expired(entries[i], finished[i], seconds[i]) {
            rest
        } else {
            rest.push(entries[i])
        }
    }
}

/// The downloads that are cleared away, in order.
pub open spec fn leaving<J>(
    entries: Seq<Entry<J>>,
    finished: Seq<bool>,
    seconds: Seq<i64>,
) -> Seq<Entry<J>>
    decreases entries.len(),
{
    if entries.len() == 0 {
        Seq::empty()
    } else {
        let rest = leaving(entries.drop_last(), finished, seconds);
        let i = entries.len() - 1;
        if expired(entries[i], finished[i], seconds[i]) {
            rest.push(entries[i])
        } else {
            rest
        }
    }
}

/// The items that are marked to be kept, in order.
pub open spec fn marked<P>(items: Seq<P>, keep: Seq<bool>) -> Seq<P>
    decreases items.len(),
{
    if items.len() == 0 {
        Seq::empty()
    } else {
        let rest = marked(items.drop_last(), keep);
        if keep[items.len() - 1] {
            rest.push(items.last())
        } else {
            rest
        }
    }
}

/// What stays was there before, and whatever may not be forgotten stays.
proof fn lemma_staying<J>(entries: Seq<Entry<J>>, finished: Seq<bool>, seconds: Seq<i64>)
    requires
        distinct(entries),
    ensures
        distinct(staying(entries, finished, seconds)),
        forall|k: int|
            0 <= k < staying(entries, finished, seconds).len() ==> exists|i: int|
                0 <= i < entries.len() && #[trigger] entries[i] == (#[trigger] staying(
                    entries,
                    finished,
                    seconds,
                )[k]) && !expired(entries[i], finished[i], seconds[i]),
        forall|i: int|
            0 <= i < entries.len() && !expired(#[trigger] entries[i], finished[i], seconds[i])
                ==> staying(entries, finished, seconds).contains(entries[i]),
    decreases entries.len(),
{
    if entries.len() > 0 {
        let part = entries.drop_last();
        lemma_staying(part, finished, seconds);
        let before = staying(part, finished, seconds);
        let after = staying(entries, finished, seconds);
        let n = entries.len() - 1;
        assert forall|k: int| 0 <= k < before.len() implies exists|i: int|
            0 <= i < n && #[trigger] entries[i] == (#[trigger] before[k]) && !expired(
                entries[i],
                finished[i],
                seconds[i],
            ) by {
            let i = choose|i: int|
                0 <= i < part.len() && #[trigger] part[i] == before[k] && !expired(
                    part[i],
                    finished[i],
                    seconds[i],
                );
            assert(entries[i] == part[i]);
        }
        assert forall|i: int|
            0 <= i < entries.len() && !expired(
                #[trigger] entries[i],
                finished[i],
                seconds[i],
            ) implies after.contains(entries[i]) by {
            if i < n {
                assert(part[i] == entries[i]);
                let k = choose|k: int| 0 <= k < before.len() && before[k] == entries[i];
                assert(after[k] == entries[i]);
            } else {
                assert(after[before.len() as int] == entries[n]);
            }
        }
        assert forall|k: int| 0 <= k < after.len() implies exists|i: int|
            0 <= i < entries.len() && #[trigger] entries[i] == (#[trigger] after[k]) && !expired(
                entries[i],
                finished[i],
                seconds[i],
            ) by {
            if k < before.len() {
                assert(after[k] == before[k]);
            } else {
                assert(after[k] == entries[n]);
            }
        }
        assert forall|a: int, b: int| 0 <= a < b < after.len() implies (#[trigger] after[a]).id@ != (
        #[trigger] after[b]).id@ by {
            assert(after[a] == before[a]);
            if b < before.len() {
                assert(after[b] == before[b]);
            } else {
                let i = choose|i: int| 0 <= i < n && #[trigger] entries[i] == before[a];
                assert(after[b] == entries[n]);
                assert(entries[i].id@ != entries[n].id@);
            }
        }
    }
}

impl<J, P> Handles<J, P> {
    /// Clears away the downloads that may be forgotten, given for each download whether its
    /// task is over and which second it is; hands them over in order.
    pub fn clean_up_at(&mut self, finished: &Vec<bool>, seconds: &Vec<i64>) -> (r: Vec<Entry<J>>)
        requires
            old(self).wf(),
            finished@.len() == old(self).listing().len(),
            seconds@.len() == old(self).listing().len(),
        ensures
            final(self).wf(),
            final(self).listing() == staying(old(self).listing(), finished@, seconds@),
            r@ == leaving(old(self).listing(), finished@, seconds@),
            final(self).pending() == old(self).pending(),
    {
        let mut all: Vec<Entry<J>> = Vec::new();
        std::mem::swap(&mut all, &mut self.entries);
        let ghost whole = all@;
        let mut kept: Vec<Entry<J>> = Vec::new();
        let mut gone: Vec<Entry<J>> = Vec::new();
        let mut i: usize = 0;
        for entry in iter: all
            invariant
                iter.seq() == whole,
                i == iter.index(),
                finished.len() == whole.len(),
                seconds@.len() == whole.len(),
                kept@ == staying(whole.take(iter.index()), finished@, seconds@),
                gone@ == leaving(whole.take(iter.index()), finished@, seconds@),
        {
            proof {
                let part = whole.take(i + 1);
                assert(part.drop_last() =~= whole.take(i as int));
                assert(part[i as int] == entry);
            }
            if finished[i] && entry.handle.expires < seconds[i] {
                gone.push(entry);
            } else {
                kept.push(entry);
            }
            i += 1;
        }
        proof {
            assert(whole.take(whole.len() as int) =~= whole);
            lemma_staying(whole, finished@, seconds@);
        }
        self.entries = kept;
        gone
    }

    /// Clears away the downloads that may be forgotten by now, given for each download whether
    /// its task is over; hands them over in order. The clock is read for each download.
    pub fn clean_up_finished(&mut self, finished: &Vec<bool>) -> (r: Vec<Entry<J>>)
        requires
            old(self).wf(),
            finished@.len() == old(self).listing().len(),
        ensures
            final(self).wf(),
            final(self).pending() == old(self).pending(),
            exists|seconds: Seq<i64>|
                {
                    &&& seconds.len() == old(self).listing().len()
                    &&& forall|i: int|
                        0 <= i < seconds.len() ==> EARLIEST <= #[trigger] seconds[i] <= LATEST
                            && read_from_clock(seconds[i])
                    &&& final(self).listing() == #[trigger] staying(
                        old(self).listing(),
                        finished@,
                        seconds,
                    )
                    &&& r@ == leaving(old(self).listing(), finished@, seconds)
                },
    {
        let mut seconds: Vec<i64> = Vec::new();
        while seconds.len() < finished.len()
            invariant
                seconds@.len() <= finished@.len(),
                forall|i: int|
                    0 <= i < seconds@.len() ==> EARLIEST <= #[trigger] seconds@[i] <= LATEST
                        && read_from_clock(seconds@[i]),
            decreases finished@.len() - seconds@.len(),
        {
            seconds.push(read_clock());
        }
        self.clean_up_at(finished, &seconds)
    }

    /// Hands over all downloads and forgets them.
    pub fn drain(&mut self) -> (r: Vec<Entry<J>>)
        ensures
            r@ == old(self).listing(),
            final(self).wf(),
            final(self).listing().len() == 0,
            final(self).pending() == old(self).pending(),
    {
        let mut all: Vec<Entry<J>> = Vec::new();
        std::mem::swap(&mut all, &mut self.entries);
        all
    }

    /// What was handed out at once and is still to be cleared away.
    pub fn pending_direct_downloads(&self) -> (r: &Vec<P>)
        ensures
            r@ == self.pending(),
    {
        &self.pending_direct_downloads
    }

    /// Keeps what is marked of the things that are still to be cleared away.
    pub fn retain_pending(&mut self, keep: &Vec<bool>)
        requires
            keep@.len() == old(self).pending().len(),
        ensures
            final(self).listing() == old(self).listing(),
            final(self).pending() == marked(old(self).pending(), keep@),
    {
        let mut all: Vec<P> = Vec::new();
        std::mem::swap(&mut all, &mut self.pending_direct_downloads);
        let ghost whole = all@;
        let mut kept: Vec<P> = Vec::new();
        let mut i: usize = 0;
        for p in iter: all
            invariant
                iter.seq() == whole,
                i == iter.index(),
                keep.len() == whole.len(),
                kept@ == marked(whole.take(iter.index()), keep@),
        {
            proof {
                let part = whole.take(i + 1);
                assert(part.drop_last() =~= whole.take(i as int));
                assert(part.last() == p);
            }
            if keep[i] {
                kept.push(p);
            }
            i += 1;
        }
        assert(whole.take(whole.len() as int) =~= whole);
        self.pending_direct_downloads = kept;
    }

    /// Takes the end of a download that is handed out at once: its file is to be cleared away
    /// later, or there is a message for whoever asked.
    pub fn direct_download(&mut self, path: P, end: TaskEnd) -> (r: Result<(), String>)
        ensures
            final(self).listing() == old(self).listing(),
            match (r, direct_failure(end@)) {
                (Ok(_), None) => final(self).pending() == old(self).pending().push(path),
                (Err(m), Some(t)) => m@ == t && final(self).pending() == old(self).pending(),
                _ => false,
            },
    {
        match end {
            TaskEnd::Finished => {
                self.pending_direct_downloads.push(path);
                Ok(())
            },
            TaskEnd::Failed(e) => Err("Download failed: ".to_owned().concat(e.as_str())),
            TaskEnd::Panicked(e) => Err("Download panicked: ".to_owned().concat(e.as_str())),
        }
    }
}

/// How the task of a download ended.
#[derive(Debug)]
pub enum TaskEnd {
    Finished,
    /// The download failed with this message.
    Failed(String),
    /// The task broke down; this is what is known of it.
    Panicked(String),
}

/// How the task of a download ended.
pub enum End {
    Finished,
    Failed(Seq<char>),
    Panicked(Seq<char>),
}

impl View for TaskEnd {
    type V = End;

    open spec fn view(&self) -> End {
        match self {
            TaskEnd::Finished => End::Finished,
            TaskEnd::Failed(e) => End::Failed(e@),
            TaskEnd::Panicked(e) => End::Panicked(e@),
        }
    }
}

/// The message for whoever asked for a download that was to be handed out at once and failed.
pub open spec fn direct_failure(end: End) -> Option<Seq<char>> {
    match end {
        End::Finished => None,
        End::Failed(e) => Some("Download failed: "@ + e),
        End::Panicked(e) => Some("Download panicked: "@ + e),
    }
}

/// What is said of a download that is over.
pub open spec fn report_text(id: Seq<char>, r: Request, end: End) -> Seq<char> {
    match end {
        End::Finished => id + " finished successfully"@,
        End::Failed(e) => id + " failed: "@ + e + "\n\nInfo: "@ + r.description() + "\n"@,
        End::Panicked(e) => id + " panicked: "@ + e + "\n\nInfo: "@ + r.description() + "\n"@,
    }
}

/// Says how a download ended.
pub fn report(id: &str, info: &DownloadInfo, end: &TaskEnd) -> (r: String)
    ensures
        r@ == report_text(id@, info@, end@),
{
    match end {
        TaskEnd::Finished => id.to_owned().concat(" finished successfully"),
        TaskEnd::Failed(e) => id.to_owned().concat(" failed: ").concat(e.as_str()).concat(
            "\n\nInfo: ",
        ).concat(info.describe().as_str()).concat("\n"),
        TaskEnd::Panicked(e) => id.to_owned().concat(" panicked: ").concat(e.as_str()).concat(
            "\n\nInfo: ",
        ).concat(info.describe().as_str()).concat("\n"),
    }
}

/// What to do next with a file that was handed out at once.
#[derive(Debug)]
pub enum TmpStep {
    /// Find out whether the file exists.
    AskExists,
    /// Remove the file.
    Remove,
    /// Try again another time.
    Keep,
    /// Try again another time, and put this into the log.
    KeepAndLog(String),
    /// The file is gone.
    Forget,
}

/// What was found out about such a file.
#[derive(Debug)]
pub enum TmpEvent {
    /// Whether nobody is using the file.
    Free(bool),
    Exists(bool),
    Removed(Result<(), String>),
}

/// What to do next with a file that was handed out at once.
pub enum TmpPlan {
    AskExists,
    Remove,
    Keep,
    KeepAndLog(Seq<char>),
    Forget,
}

impl TmpPlan {
    /// Whether the file is still to be cleared away another time; nothing while there is more to
    /// do now.
    pub open spec fn keeps(self) -> Option<bool> {
        match self {
            TmpPlan::AskExists => None,
            TmpPlan::Remove => None,
            TmpPlan::Keep => Some(true),
            TmpPlan::KeepAndLog(_) => Some(true),
            TmpPlan::Forget => Some(false),
        }
    }
}

impl View for TmpStep {
    type V = TmpPlan;

    open spec fn view(&self) -> TmpPlan {
        match self {
            TmpStep::AskExists => TmpPlan::AskExists,
            TmpStep::Remove => TmpPlan::Remove,
            TmpStep::Keep => TmpPlan::Keep,
            TmpStep::KeepAndLog(m) => TmpPlan::KeepAndLog(m@),
            TmpStep::Forget => TmpPlan::Forget,
        }
    }
}

/// A file that is in use stays; one that exists is removed; one that is gone is forgotten.
pub open spec fn tmp_plan(event: TmpEvent) -> TmpPlan {
    match event {
        TmpEvent::Free(false) => TmpPlan::Keep,
        TmpEvent::Free(true) => TmpPlan::AskExists,
        TmpEvent::Exists(false) => TmpPlan::Forget,
        TmpEvent::Exists(true) => TmpPlan::Remove,
        TmpEvent::Removed(Ok(_)) => TmpPlan::Forget,
        TmpEvent::Removed(Err(e)) => TmpPlan::KeepAndLog("Failed to remove file: "@ + e@),
    }
}

/// Decides what to do next with a file that was handed out at once.
pub fn clean_up_tmp_file(event: TmpEvent) -> (r: TmpStep)
    ensures
        r@ == tmp_plan(event),
{
    match event {
        TmpEvent::Free(false) => TmpStep::Keep,
        TmpEvent::Free(true) => TmpStep::AskExists,
        TmpEvent::Exists(false) => TmpStep::Forget,
        TmpEvent::Exists(true) => TmpStep::Remove,
        TmpEvent::Removed(Ok(_)) => TmpStep::Forget,
        TmpEvent::Removed(Err(e)) => TmpStep::KeepAndLog(
            "Failed to remove file: ".to_owned().concat(e.as_str()),
        ),
    }
}

impl TmpStep {
    /// Whether the file is still to be cleared away another time; nothing while there is more to
    /// do now.
    pub fn keep(&self) -> (r: Option<bool>)
        ensures
            r == self@.keeps(),
    {
        match self {
            TmpStep::AskExists => None,
            TmpStep::Remove => None,
            TmpStep::Keep => Some(true),
            TmpStep::KeepAndLog(_) => Some(true),
            TmpStep::Forget => Some(false),
        }
    }
}

/// A file is removed only where nobody is using it and it exists, and forgotten only once it is
/// gone.
pub proof fn law_files_in_use_stay(event: TmpEvent)
    ensures
        tmp_plan(event) is Remove <==> event == TmpEvent::Exists(true),
        tmp_plan(event) is AskExists <==> event == TmpEvent::Free(true),
        tmp_plan(event) is Keep <==> event == TmpEvent::Free(false),
        tmp_plan(event) is KeepAndLog <==> (event matches TmpEvent::Removed(Err(_))),
        tmp_plan(event) is Forget <==> event == TmpEvent::Exists(false) || event
            == TmpEvent::Removed(Ok(())),
{
    match event {
        TmpEvent::Removed(Ok(u)) => {
            assert(u == ());
        },
        _ => {},
    }
}

/// A file stays to be cleared away where its last step says so, and nothing is decided before the
/// last step. The steps are seen as they are.
pub proof fn law_last_steps_decide(m: String)
    ensures
        TmpStep::Keep@.keeps() == Some(true),
        TmpStep::KeepAndLog(m)@.keeps() == Some(true),
        TmpStep::Forget@.keeps() == Some(false),
        TmpStep::AskExists@.keeps() is None,
        TmpStep::Remove@.keeps() is None,
        TmpStep::KeepAndLog(m)@ == TmpPlan::KeepAndLog(m@),
        TmpStep::AskExists@ == TmpPlan::AskExists,
        TmpStep::Remove@ == TmpPlan::Remove,
{
}

/// What a file comes to when its steps are taken one after the other, given whether nobody is
/// using it, whether it exists, and what comes of removing it.
pub open spec fn tmp_round(free: bool, exists: bool, removed: Result<(), String>) -> TmpPlan {
    match tmp_plan(TmpEvent::Free(free)) {
        TmpPlan::AskExists => match tmp_plan(TmpEvent::Exists(exists)) {
            TmpPlan::Remove => tmp_plan(TmpEvent::Removed(removed)),
            plan => plan,
        },
        plan => plan,
    }
}

/// A file that was handed out at once is kept to be cleared away another time exactly where it is
/// in use, or exists and could not be removed; the failure to remove it is put into the log, and
/// nothing else is. In every other case it is gone and forgotten.
pub proof fn law_files_stay_until_they_are_gone(
    free: bool,
    exists: bool,
    removed: Result<(), String>,
)
    ensures
        tmp_round(free, exists, removed).keeps() == Some(!free || (exists && removed is Err)),
        tmp_round(free, exists, removed) is KeepAndLog <==> free && exists && removed is Err,
        tmp_round(free, exists, removed) matches TmpPlan::KeepAndLog(m) ==> m
            == "Failed to remove file: "@ + removed->Err_0@,
{
}

/// A download that is taken up under a new id replaces none: every download that was there is
/// found under its id as before, and the new one is added to them.
pub proof fn law_new_downloads_replace_none<J>(
    handles: Map<Seq<char>, Handle<J>>,
    id: Seq<char>,
    handle: Handle<J>,
)
    requires
        !handles.contains_key(id),
    ensures
        handles.insert(id, handle).dom() == handles.dom().insert(id),
        handles.insert(id, handle)[id] == handle,
        forall|other: Seq<char>| #[trigger]
            handles.contains_key(other) ==> {
                &&& handles.insert(id, handle).contains_key(other)
                &&& handles.insert(id, handle)[other] == handles[other]
            },
{
}

/// The item stands at a place that is marked to be kept.
pub open spec fn is_marked<P>(items: Seq<P>, keep: Seq<bool>, item: P) -> bool {
    exists|i: int| 0 <= i < items.len() && #[trigger] items[i] == item && keep[i]
}

/// What is marked to be kept stays to be cleared away later, and nothing else does.
pub proof fn law_marked_files_stay<P>(items: Seq<P>, keep: Seq<bool>, item: P)
    ensures
        marked(items, keep).contains(item) <==> is_marked(items, keep, item),
    decreases items.len(),
{
    if items.len() > 0 {
        let part = items.drop_last();
        let n = items.len() - 1;
        law_marked_files_stay(part, keep, item);
        let before = marked(part, keep);
        let after = marked(items, keep);
        if after.contains(item) {
            let k = choose|k: int| 0 <= k < after.len() && after[k] == item;
            if k < before.len() {
                assert(before[k] == item);
                let i = choose|i: int|
                    0 <= i < part.len() && #[trigger] part[i] == item && keep[i];
                assert(items[i] == item);
            } else {
                assert(items[n] == item);
            }
        }
        if is_marked(items, keep, item) {
            let i = choose|i: int| 0 <= i < items.len() && #[trigger] items[i] == item && keep[i];
            if i < n {
                assert(part[i] == item);
                let k = choose|k: int| 0 <= k < before.len() && before[k] == item;
                assert(after[k] == item);
            } else {
                assert(after[before.len() as int] == item);
            }
        }
    }
}

/// Clearing away forgets a download exactly where its task is over and it has expired; every
/// other download is found under its id as before, and none is added.
pub proof fn law_clean_up_keeps_the_rest<J>(
    entries: Seq<Entry<J>>,
    finished: Seq<bool>,
    seconds: Seq<i64>,
)
    requires
        forall|i: int, j: int|
            0 <= i < j < entries.len() ==> (#[trigger] entries[i]).id@ != (
            #[trigger] entries[j]).id@,
    ensures
        forall|i: int|
            0 <= i < entries.len() ==> {
                let left = by_id(staying(entries, finished, seconds));
                let id = (#[trigger] entries[i]).id@;
                &&& left.contains_key(id) <==> !(finished[i] && entries[i].handle.expires
                    < seconds[i])
                &&& left.contains_key(id) ==> left[id] == entries[i].handle
            },
        forall|id: Seq<char>| #[trigger]
            by_id(staying(entries, finished, seconds)).contains_key(id) ==> by_id(
                entries,
            ).contains_key(id),
{
    let left = staying(entries, finished, seconds);
    lemma_staying(entries, finished, seconds);
    lemma_by_id(entries);
    lemma_by_id(left);
    assert forall|id: Seq<char>| #[trigger] by_id(left).contains_key(id) implies by_id(
        entries,
    ).contains_key(id) by {
        let k = choose|k: int| 0 <= k < left.len() && (#[trigger] left[k]).id@ == id;
        let i = choose|i: int| 0 <= i < entries.len() && #[trigger] entries[i] == left[k];
        assert(entries[i].id@ == id);
    }
    assert forall|i: int| 0 <= i < entries.len() implies {
        let id = (#[trigger] entries[i]).id@;
        &&& by_id(left).contains_key(id) <==> !(finished[i] && entries[i].handle.expires
            < seconds[i])
        &&& by_id(left).contains_key(id) ==> by_id(left)[id] == entries[i].handle
    } by {
        let id = entries[i].id@;
        if !expired(entries[i], finished[i], seconds[i]) {
            let k = choose|k: int| 0 <= k < left.len() && left[k] == entries[i];
            assert(left[k].id@ == id);
        }
        if by_id(left).contains_key(id) {
            let k = choose|k: int| 0 <= k < left.len() && (#[trigger] left[k]).id@ == id;
            let j = choose|j: int|
                0 <= j < entries.len() && #[trigger] entries[j] == left[k] && !expired(
                    entries[j],
                    finished[j],
                    seconds[j],
                );
            if j < i {
                assert(entries[j].id@ != entries[i].id@);
            } else if i < j {
                assert(entries[i].id@ != entries[j].id@);
            }
            assert(i == j);
        }
    }
}

proof fn lemma_clean_up_of_a_part<J>(
    entries: Seq<Entry<J>>,
    finished: Seq<bool>,
    seconds: Seq<i64>,
    more: Seq<bool>,
    later: Seq<i64>,
)
    requires
        entries.len() <= finished.len(),
        entries.len() <= seconds.len(),
    ensures
        staying(entries, finished + more, seconds + later) == staying(entries, finished, seconds),
        leaving(entries, finished + more, seconds + later) == leaving(entries, finished, seconds),
    decreases entries.len(),
{
    if entries.len() > 0 {
        lemma_clean_up_of_a_part(entries.drop_last(), finished, seconds, more, later);
    }
}

/// Each download is judged by itself, by its own task, its own expiry and the second that was read
/// for it: it is handed over where its task is over and its expiry is before that second, and stays
/// otherwise. What stays and what is handed over keeps its order.
pub proof fn law_downloads_are_judged_one_by_one<J>(
    a: Seq<Entry<J>>,
    finished_a: Seq<bool>,
    seconds_a: Seq<i64>,
    b: Seq<Entry<J>>,
    finished_b: Seq<bool>,
    seconds_b: Seq<i64>,
    one: Entry<J>,
    over: bool,
    second: i64,
)
    requires
        finished_a.len() == a.len(),
        seconds_a.len() == a.len(),
        finished_b.len() == b.len(),
        seconds_b.len() == b.len(),
    ensures
        staying(a + b, finished_a + finished_b, seconds_a + seconds_b) == staying(
            a,
            finished_a,
            seconds_a,
        ) + staying(b, finished_b, seconds_b),
        leaving(a + b, finished_a + finished_b, seconds_a + seconds_b) == leaving(
            a,
            finished_a,
            seconds_a,
        ) + leaving(b, finished_b, seconds_b),
        over && one.handle.expires < second ==> {
            &&& staying(seq![one], seq![over], seq![second]).len() == 0
            &&& leaving(seq![one], seq![over], seq![second]) == seq![one]
        },
        !over || one.handle.expires >= second ==> {
            &&& staying(seq![one], seq![over], seq![second]) == seq![one]
            &&& leaving(seq![one], seq![over], seq![second]).len() == 0
        },
    decreases b.len(),
{
    let empty = Seq::<Entry<J>>::empty();
    assert(seq![one].drop_last() =~= empty);
    assert(staying(seq![one].drop_last(), seq![over], seq![second]) =~= empty);
    assert(leaving(seq![one].drop_last(), seq![over], seq![second]) =~= empty);
    if over && one.handle.expires < second {
        assert(leaving(seq![one], seq![over], seq![second]) =~= seq![one]);
    } else {
        assert(staying(seq![one], seq![over], seq![second]) =~= seq![one]);
    }
    let f = finished_a + finished_b;
    let s = seconds_a + seconds_b;
    if b.len() == 0 {
        assert(a + b =~= a);
        lemma_clean_up_of_a_part(a, finished_a, seconds_a, finished_b, seconds_b);
        assert(staying(a, finished_a, seconds_a) + staying(b, finished_b, seconds_b) =~= staying(
            a,
            finished_a,
            seconds_a,
        ));
        assert(leaving(a, finished_a, seconds_a) + leaving(b, finished_b, seconds_b) =~= leaving(
            a,
            finished_a,
            seconds_a,
        ));
    } else {
        let part = b.drop_last();
        let n = part.len() as int;
        let fb = finished_b.take(n);
        let sb = seconds_b.take(n);
        law_downloads_are_judged_one_by_one(
            a,
            finished_a,
            seconds_a,
            part,
            fb,
            sb,
            one,
            over,
            second,
        );
        assert(finished_b =~= fb + finished_b.skip(n));
        assert(seconds_b =~= sb + seconds_b.skip(n));
        lemma_clean_up_of_a_part(part, fb, sb, finished_b.skip(n), seconds_b.skip(n));
        assert(f =~= (finished_a + fb) + finished_b.skip(n));
        assert(s =~= (seconds_a + sb) + seconds_b.skip(n));
        lemma_clean_up_of_a_part(
            a + part,
            finished_a + fb,
            seconds_a + sb,
            finished_b.skip(n),
            seconds_b.skip(n),
        );
        assert((a + b).drop_last() =~= a + part);
        let i = a.len() + n;
        assert((a + b)[i] == b[n]);
        assert(f[i] == finished_b[n] && s[i] == seconds_b[n]);
        assert(staying(a + b, f, s) =~= staying(a, finished_a, seconds_a) + staying(
            b,
            finished_b,
            seconds_b,
        ));
        assert(leaving(a + b, f, s) =~= leaving(a, finished_a, seconds_a) + leaving(
            b,
            finished_b,
            seconds_b,
        ));
    }
}

/// A download is forgotten by the clock alone: where every second was read from the clock, a
/// download that is still under way stays, and so does one that no reading of the clock has passed
/// yet; one that is over and that every reading has passed is handed over.
pub proof fn law_downloads_stay_until_the_clock_has_passed_them<J>(
    entries: Seq<Entry<J>>,
    finished: Seq<bool>,
    seconds: Seq<i64>,
    i: int,
)
    requires
        forall|i: int, j: int|
            0 <= i < j < entries.len() ==> (#[trigger] entries[i]).id@ != (
            #[trigger] entries[j]).id@,
        seconds.len() == entries.len(),
        forall|k: int| 0 <= k < seconds.len() ==> read_from_clock(#[trigger] seconds[k]),
        0 <= i < entries.len(),
    ensures
        ({
            let left = by_id(staying(entries, finished, seconds));
            let id = entries[i].id@;
            &&& (!finished[i] || forall|s: i64| #[trigger]
                read_from_clock(s) ==> s <= entries[i].handle.expires) ==> left.contains_key(id)
                && left[id] == entries[i].handle
            &&& (finished[i] && forall|s: i64| #[trigger]
                read_from_clock(s) ==> entries[i].handle.expires < s) ==> !left.contains_key(id)
        }),
{
    law_clean_up_keeps_the_rest(entries, finished, seconds);
    assert(entries[i] == entries[i]);
    assert(read_from_clock(seconds[i]));
}

/// Each download is found under its own id, and nothing is found under any other.
pub proof fn law_downloads_are_found_under_their_ids<J>(entries: Seq<Entry<J>>, id: Seq<char>, i: int)
    requires
        distinct(entries),
        0 <= i < entries.len(),
    ensures
        by_id(entries).contains_key(entries[i].id@),
        by_id(entries)[entries[i].id@] == entries[i].handle,
        by_id(entries).contains_key(id) <==> exists|j: int|
            0 <= j < entries.len() && (#[trigger] entries[j]).id@ == id,
{
    lemma_by_id(entries);
}

/// Every download having an id of its own means that no two of them share one.
pub proof fn law_no_two_downloads_share_an_id<J>(entries: Seq<Entry<J>>)
    ensures
        distinct(entries) <==> forall|i: int, j: int|
            0 <= i < entries.len() && 0 <= j < entries.len() && (#[trigger] entries[i]).id@ == (
            #[trigger] entries[j]).id@ ==> i == j,
{
    if distinct(entries) {
        assert forall|i: int, j: int|
            0 <= i < entries.len() && 0 <= j < entries.len() && (#[trigger] entries[i]).id@ == (
            #[trigger] entries[j]).id@ implies i == j by {
            if i < j {
                assert(entries[i].id@ != entries[j].id@);
            } else if j < i {
                assert(entries[j].id@ != entries[i].id@);
            }
        }
    }
}

/// Asking after a download forgets it exactly where its task is over, and touches no other.
pub proof fn law_asking_forgets_what_is_over<J>(
    handles: Map<Seq<char>, Handle<J>>,
    id: Seq<char>,
    finished: bool,
    other: Seq<char>,
)
    ensures
        after_check(handles, id, finished).contains_key(other) <==> handles.contains_key(other) && !(
        finished && other == id),
        after_check(handles, id, finished).contains_key(other) ==> after_check(
            handles,
            id,
            finished,
        )[other] == handles[other],
{
}

proof fn lemma_marked_of_a_part<P>(items: Seq<P>, keep: Seq<bool>, more: Seq<bool>)
    requires
        items.len() <= keep.len(),
    ensures
        marked(items, keep + more) == marked(items, keep),
    decreases items.len(),
{
    if items.len() > 0 {
        lemma_marked_of_a_part(items.drop_last(), keep, more);
    }
}

/// Each thing that is still to be cleared away is kept by its own mark, and what is kept keeps its
/// order.
pub proof fn law_each_mark_counts_for_itself<P>(
    a: Seq<P>,
    keep_a: Seq<bool>,
    b: Seq<P>,
    keep_b: Seq<bool>,
    one: P,
)
    requires
        keep_a.len() == a.len(),
        keep_b.len() == b.len(),
    ensures
        marked(a + b, keep_a + keep_b) == marked(a, keep_a) + marked(b, keep_b),
        marked(seq![one], seq![true]) == seq![one],
        marked(seq![one], seq![false]).len() == 0,
    decreases b.len(),
{
    let empty = Seq::<P>::empty();
    assert(seq![one].drop_last() =~= empty);
    assert(marked(seq![one].drop_last(), seq![true]) =~= empty);
    assert(marked(seq![one].drop_last(), seq![false]) =~= empty);
    assert(marked(seq![one], seq![true]) =~= seq![one]);
    if b.len() == 0 {
        assert(a + b =~= a);
        lemma_marked_of_a_part(a, keep_a, keep_b);
        assert(marked(a, keep_a) + marked(b, keep_b) =~= marked(a, keep_a));
    } else {
        let part = b.drop_last();
        let n = part.len() as int;
        let kb = keep_b.take(n);
        law_each_mark_counts_for_itself(a, keep_a, part, kb, one);
        assert(keep_b =~= kb + keep_b.skip(n));
        lemma_marked_of_a_part(part, kb, keep_b.skip(n));
        assert(keep_a + keep_b =~= (keep_a + kb) + keep_b.skip(n));
        lemma_marked_of_a_part(a + part, keep_a + kb, keep_b.skip(n));
        assert((a + b).drop_last() =~= a + part);
        assert((a + b).last() == b.last());
        assert((keep_a + keep_b)[(a + b).len() - 1] == keep_b[n]);
        assert(marked(a + b, keep_a + keep_b) =~= marked(a, keep_a) + marked(b, keep_b));
    }
}

/// What is said of a download that is over names its id and how it ended: that it finished, or what
/// it failed or broke down with and what had been asked for. Whoever waits for a file that is handed
/// out at once is told what it failed or broke down with, and nothing where it finished.
pub proof fn law_reports_say_how_it_ended(id: Seq<char>, r: Request, e: String)
    ensures
        report_text(id, r, TaskEnd::Finished@) == id + " finished successfully"@,
        report_text(id, r, TaskEnd::Failed(e)@) == id + " failed: "@ + e@ + "\n\nInfo: "@
            + r.description() + "\n"@,
        report_text(id, r, TaskEnd::Panicked(e)@) == id + " panicked: "@ + e@ + "\n\nInfo: "@
            + r.description() + "\n"@,
        direct_failure(TaskEnd::Finished@) is None,
        direct_failure(TaskEnd::Failed(e)@) == Some("Download failed: "@ + e@),
        direct_failure(TaskEnd::Panicked(e)@) == Some("Download panicked: "@ + e@),
{
}

/// Every download is either kept or handed over when those are cleared away that may be
/// forgotten; none is lost.
pub proof fn law_clean_up_loses_nothing<J>(
    entries: Seq<Entry<J>>,
    finished: Seq<bool>,
    seconds: Seq<i64>,
)
    ensures
        (staying(entries, finished, seconds) + leaving(
            entries,
            finished,
            seconds,
        )).to_multiset() == entries.to_multiset(),
    decreases entries.len(),
{
    broadcast use vstd::seq_lib::group_to_multiset_ensures;

    let s = staying(entries, finished, seconds);
    let l = leaving(entries, finished, seconds);
    vstd::seq_lib::lemma_multiset_commutative(s, l);
    if entries.len() > 0 {
        let part = entries.drop_last();
        law_clean_up_loses_nothing(part, finished, seconds);
        let s0 = staying(part, finished, seconds);
        let l0 = leaving(part, finished, seconds);
        vstd::seq_lib::lemma_multiset_commutative(s0, l0);
        assert(entries =~= part.push(entries.last()));
        assert((s + l).to_multiset() =~= entries.to_multiset());
    } else {
        assert(s + l =~= entries);
    }
}

/// A download that was taken up is found under its id, and is reported as over once: asking
/// while it is under way changes nothing, and once it was reported as over it is unknown.
/// Whatever is asked, a download under another id is what it was.
pub proof fn law_a_download_is_reported_once<J>(
    handles: Map<Seq<char>, Handle<J>>,
    id: Seq<char>,
    handle: Handle<J>,
    other: Seq<char>,
    finished: bool,
)
    requires
        other != id,
    ensures
        ({
            let started = handles.insert(id, handle);
            let asked = after_check(started, id, finished);
            &&& started.contains_key(id) && started[id] == handle
            &&& !finished ==> asked == started
            &&& finished ==> !asked.contains_key(id)
            &&& asked.contains_key(other) == handles.contains_key(other)
            &&& handles.contains_key(other) ==> asked[other] == handles[other]
        }),
{
}

/// What is said of a download that is over does not depend on the key of the request.
pub proof fn law_reports_hide_the_key(
    id: Seq<char>,
    r: Request,
    end: End,
    key: Option<Seq<char>>,
)
    ensures
        report_text(id, Request { auth_key: key, ..r }, end) == report_text(id, r, end),
{
}

} // verus!
