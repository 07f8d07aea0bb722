//! Choosing the log file to follow: the newest file that a scan of the
//! directory finds, and after it every file that a notification reports and
//! that is newer than all chosen before.

use crate::calendar::{lemma_earlier_is_strict, lemma_earlier_is_total, Timestamp};
use crate::file_name::{log_file_timestamp, parse_log_file_name};
use vstd::prelude::*;

verus! {

/// A log file: where it is, and the timestamp that its name carries.
#[derive(Clone, Debug, PartialEq, Eq)]
pub struct LogFile<P> {
    pub path: P,
    pub timestamp: Timestamp,
}

/// The timestamp that a file name carries, where there is a name and it is a
/// log file's.
pub open spec fn named_timestamp(name: Option<String>) -> Option<Timestamp> {
    match name {
        Some(name) => log_file_timestamp(name@),
        None => None,
    }
}

/// Reads the timestamp out of a file name, where there is one.
pub fn timestamp_of_name(name: &Option<String>) -> (stamp: Option<Timestamp>)
    ensures
        stamp == named_timestamp(*name),
{
    match name {
        Some(name) => parse_log_file_name(name.as_str()),
        None => None,
    }
}

/// One entry of the directory, as a scan found it. `name` is the entry's file
/// name where that is text; `is_file` is false where the entry is no regular
/// file, where its kind could not be read, and where it was not asked for
/// because the name is no log file's.
#[derive(Clone, Debug, PartialEq, Eq)]
pub struct ScanEntry<P> {
    pub path: P,
    pub name: Option<String>,
    pub is_file: bool,
}

impl<P> ScanEntry<P> {
    /// The timestamp of this entry, if it is a regular file named as a log
    /// file.
    pub open spec fn stamp(self) -> Option<Timestamp> {
        if self.is_file {
            named_timestamp(self.name)
        } else {
            None
        }
    }

    /// The timestamp of this entry, if it is a regular file named as a log
    /// file.
    pub fn timestamp(&self) -> (stamp: Option<Timestamp>)
        ensures
            stamp == self.stamp(),
    {
        if self.is_file {
            timestamp_of_name(&self.name)
        } else {
            None
        }
    }
}

/// Entry `i` is a log file, none of the entries is a newer one, and all log
/// files before it are older.
pub open spec fn is_latest<P>(entries: Seq<ScanEntry<P>>, i: int) -> bool {
    &&& 0 <= i < entries.len()
    &&& entries[i].stamp() is Some
    &&& forall|j: int|
        0 <= j < entries.len() && (#[trigger] entries[j]).stamp() is Some
            ==> !entries[i].stamp()->0.earlier(entries[j].stamp()->0)
    &&& forall|j: int|
        0 <= j < i && (#[trigger] entries[j]).stamp() is Some ==> entries[j].stamp()->0.earlier(
            entries[i].stamp()->0,
        )
}

/// None of the entries is a log file.
pub open spec fn no_log_file<P>(entries: Seq<ScanEntry<P>>) -> bool {
    forall|j: int| 0 <= j < entries.len() ==> (#[trigger] entries[j]).stamp() is None
}

/// A position among the entries of a scan, and the timestamp of the log file
/// there.
#[derive(Clone, Copy, Debug)]
pub struct Newest {
    pub at: usize,
    pub timestamp: Timestamp,
}

/// The position of the newest log file among `entries`, the first of them
/// where several are equally new.
pub fn latest_entry<P>(entries: &Vec<ScanEntry<P>>) -> (found: Option<Newest>)
    ensures
        found is None <==> no_log_file(entries@),
        found is Some ==> is_latest(entries@, found->0.at as int) && entries@[found->0.at as int].stamp()
            == Some(found->0.timestamp),
{
    let mut best: Option<Newest> = None;
    let mut i: usize = 0;
    while i < entries.len()
        invariant
            i <= entries.len(),
            best is None <==> no_log_file(entries@.take(i as int)),
            best is Some ==> is_latest(entries@.take(i as int), best->0.at as int)
                && entries@[best->0.at as int].stamp() == Some(best->0.timestamp),
        decreases entries.len() - i,
    {
        let ghost seen = entries@.take(i as int);
        let ghost next = entries@.take(i + 1);
        assert(forall|j: int| 0 <= j < i ==> next[j] == seen[j]);
        assert(next[i as int] == entries@[i as int]);
        match entries[i].timestamp() {
            Some(stamp) => {
                let newer = match best {
                    Some(newest) => newest.timestamp.is_earlier_than(&stamp),
                    None => true,
                };
                if newer {
                    proof {
                        if best is Some {
                            let b = best->0.at as int;
                            assert forall|j: int|
                                0 <= j < i && (#[trigger] next[j]).stamp() is Some implies next[j].stamp()->0.earlier(
                                stamp,
                            ) by {
                                assert(seen[j].stamp() is Some);
                                assert(!seen[b].stamp()->0.earlier(seen[j].stamp()->0));
                            }
                        } else {
                            assert forall|j: int| 0 <= j < i implies (#[trigger] next[j]).stamp() is None by {
                                assert(seen[j].stamp() is None);
                            }
                        }
                    }
                    best = Some(Newest { at: i, timestamp: stamp });
                    assert(is_latest(next, i as int));
                } else {
                    assert(is_latest(next, best->0.at as int));
                }
            },
            None => {
                proof {
                    if best is Some {
                        assert(is_latest(next, best->0.at as int));
                    } else {
                        assert forall|j: int| 0 <= j < next.len() implies (#[trigger] next[j]).stamp() is None by {
                            if j < i {
                                assert(seen[j].stamp() is None);
                            }
                        }
                    }
                }
            },
        }
        i = i + 1;
    }
    assert(entries@.take(i as int) =~= entries@);
    best
}

/// The newest log file among the entries of a scan, the first of them where
/// several are equally new; `None` where no entry is a log file.
pub fn latest_log_file<P>(entries: Vec<ScanEntry<P>>) -> (found: Option<LogFile<P>>)
    ensures
        found is None <==> no_log_file(entries@),
        found is Some ==> exists|i: int|
            is_latest(entries@, i) && found->0.path == (#[trigger] entries@[i]).path
                && entries@[i].stamp() == Some(found->0.timestamp),
{
    let mut entries = entries;
    match latest_entry(&entries) {
        Some(newest) => {
            let entry = entries.swap_remove(newest.at);
            Some(LogFile { path: entry.path, timestamp: newest.timestamp })
        },
        None => None,
    }
}

/// What a notification says was created.
#[derive(Clone, Copy, Debug, PartialEq, Eq, Structural)]
pub enum Created {
    Any,
    File,
    Folder,
    Other,
}

/// What kind of change a notification reports.
#[derive(Clone, Copy, Debug, PartialEq, Eq, Structural)]
pub enum ChangeKind {
    Any,
    Access,
    Create(Created),
    Modify,
    Remove,
    Other,
}

impl ChangeKind {
    /// The change may be the creation of a file: it is a creation of a file or
    /// of something unknown, or a change of unknown kind.
    pub open spec fn may_create_file(self) -> bool {
        self == ChangeKind::Any || self == ChangeKind::Create(Created::Any) || self
            == ChangeKind::Create(Created::File)
    }

    /// Whether the change may be the creation of a file.
    pub fn is_creation(&self) -> (creation: bool)
        ensures
            creation == self.may_create_file(),
    {
        match self {
            ChangeKind::Any => true,
            ChangeKind::Create(Created::Any) => true,
            ChangeKind::Create(Created::File) => true,
            _ => false,
        }
    }
}

/// A path, and its last component where it has one that is text.
#[derive(Clone, Debug, PartialEq, Eq)]
pub struct Located<P> {
    pub path: P,
    pub name: Option<String>,
}

/// A change in the directory, as the operating system reported it.
#[derive(Clone, Debug, PartialEq, Eq)]
pub struct Notification<P> {
    pub kind: ChangeKind,
    pub paths: Vec<Located<P>>,
}

impl<P> Notification<P> {
    /// The log file that this notification reports: the last of its paths,
    /// if the change may be the creation of a file and the path is named as a
    /// log file.
    pub open spec fn reported(self) -> Option<LogFile<P>> {
        if self.kind.may_create_file() && self.paths@.len() > 0 {
            let last = self.paths@.last();
            match named_timestamp(last.name) {
                Some(timestamp) => Some(LogFile { path: last.path, timestamp }),
                None => None,
            }
        } else {
            None
        }
    }
}

/// The log file that a notification reports, if it reports one. Changes of
/// another kind, without a path, or to a path that is not named as a log
/// file, report none.
pub fn notified_log_file<P>(notification: Notification<P>) -> (found: Option<LogFile<P>>)
    ensures
        found == notification.reported(),
{
    if !notification.kind.is_creation() {
        return None;
    }
    let mut paths = notification.paths;
    match paths.pop() {
        Some(last) => {
            match timestamp_of_name(&last.name) {
                Some(timestamp) => Some(LogFile { path: last.path, timestamp }),
                None => None,
            }
        },
        None => None,
    }
}

/// The state of the watch on a directory: the timestamp of the log file
/// chosen last, if one was chosen yet.
#[derive(Clone, Copy, Debug)]
pub struct DirectoryWatcher {
    latest: Option<Timestamp>,
}

impl DirectoryWatcher {
    /// The timestamp of the log file chosen last.
    pub closed spec fn current(self) -> Option<Timestamp> {
        self.latest
    }

    /// A file with this timestamp would be chosen: no file was chosen yet, or
    /// the one chosen last is older.
    pub open spec fn accepts(self, timestamp: Timestamp) -> bool {
        match self.current() {
            Some(latest) => latest.earlier(timestamp),
            None => true,
        }
    }

    /// The timestamp of the file chosen last, once a file with this
    /// timestamp was offered.
    pub open spec fn current_after(self, timestamp: Timestamp) -> Option<Timestamp> {
        if self.accepts(timestamp) {
            Some(timestamp)
        } else {
            self.current()
        }
    }

    /// A watch that has chosen no file yet.
    pub fn new() -> (watcher: DirectoryWatcher)
        ensures
            watcher.current() is None,
    {
        DirectoryWatcher { latest: None }
    }

    /// The timestamp of the log file chosen last.
    pub fn latest(&self) -> (latest: Option<Timestamp>)
        ensures
            latest == self.current(),
    {
        self.latest
    }

    /// Starts the watch from a scan of the directory: the newest log file
    /// among the entries is chosen, if there is one.
    pub fn begin<P>(entries: Vec<ScanEntry<P>>) -> (started: (DirectoryWatcher, Option<LogFile<P>>))
        ensures
            started.1 is None <==> no_log_file(entries@),
            started.1 is Some ==> exists|i: int|
                is_latest(entries@, i) && started.1->0.path == (#[trigger] entries@[i]).path
                    && entries@[i].stamp() == Some(started.1->0.timestamp),
            started.1 is None ==> started.0.current() is None,
            started.1 is Some ==> started.0.current() == Some(started.1->0.timestamp),
    {
        let found = latest_log_file(entries);
        let latest = match &found {
            Some(file) => Some(file.timestamp),
            None => None,
        };
        (DirectoryWatcher { latest }, found)
    }

    /// Offers a log file to the watch. It is chosen, and handed back, exactly
    /// if it is newer than the one chosen last or none was chosen yet;
    /// otherwise nothing changes.
    pub fn offer<P>(&mut self, file: LogFile<P>) -> (chosen: Option<LogFile<P>>)
        ensures
            chosen == if old(self).accepts(file.timestamp) {
                Some(file)
            } else {
                None
            },
            final(self).current() == old(self).current_after(file.timestamp),
    {
        let newer = match &self.latest {
            Some(latest) => latest.is_earlier_than(&file.timestamp),
            None => true,
        };
        if newer {
            self.latest = Some(file.timestamp);
            Some(file)
        } else {
            None
        }
    }

    /// Takes what the notification channel delivered: a failure of the
    /// channel is handed on and ends the watch, a log file is offered.
    pub fn receive<P, E>(&mut self, delivered: Result<LogFile<P>, E>) -> (step: Result<
        Option<LogFile<P>>,
        E,
    >)
        ensures
            match delivered {
                Ok(file) => {
                    &&& step == Ok::<Option<LogFile<P>>, E>(
                        if old(self).accepts(file.timestamp) {
                            Some(file)
                        } else {
                            None
                        },
                    )
                    &&& final(self).current() == old(self).current_after(file.timestamp)
                },
                Err(failure) => {
                    &&& step == Err::<Option<LogFile<P>>, E>(failure)
                    &&& final(self).current() == old(self).current()
                },
            },
    {
        match delivered {
            Ok(file) => Ok(self.offer(file)),
            Err(failure) => Err(failure),
        }
    }
}

/// The log file that a scan chooses is the newest: every log file among the
/// entries has the same timestamp or an earlier one. Entries that are no log
/// files have no part in the choice.
pub proof fn lemma_scan_chooses_the_newest<P>(entries: Seq<ScanEntry<P>>, chosen: int, other: int)
    requires
        is_latest(entries, chosen),
        0 <= other < entries.len(),
        entries[other].stamp() is Some,
    ensures
        entries[other].stamp() == entries[chosen].stamp() || entries[other].stamp()->0.earlier(
            entries[chosen].stamp()->0,
        ),
{
    lemma_earlier_is_total(entries[other].stamp()->0, entries[chosen].stamp()->0);
}

/// A file that is not newer than the one chosen last, be it older or of the
/// same timestamp, is not chosen, and the watch stays as it is.
pub proof fn lemma_not_newer_is_ignored(
    watcher: DirectoryWatcher,
    latest: Timestamp,
    offered: Timestamp,
)
    requires
        watcher.current() == Some(latest),
        offered == latest || offered.earlier(latest),
    ensures
        !watcher.accepts(offered),
        watcher.current_after(offered) == watcher.current(),
{
    lemma_earlier_is_strict(offered, latest);
}

/// A file that is newer than the one chosen last is chosen, and once only:
/// offered again, it is not newer than itself.
pub proof fn lemma_newer_is_chosen_once(
    watcher: DirectoryWatcher,
    after: DirectoryWatcher,
    offered: Timestamp,
)
    requires
        watcher.current() is Some ==> watcher.current()->0.earlier(offered),
        after.current() == watcher.current_after(offered),
    ensures
        watcher.accepts(offered),
        after.current() == Some(offered),
        !after.accepts(offered),
{
    lemma_earlier_is_strict(offered, offered);
}

/// The files that are chosen come in the order of their timestamps: one
/// chosen after another is newer than it.
pub proof fn lemma_choices_grow_newer(
    watcher: DirectoryWatcher,
    after: DirectoryWatcher,
    first: Timestamp,
    second: Timestamp,
)
    requires
        watcher.accepts(first),
        after.current() == watcher.current_after(first),
        after.accepts(second),
    ensures
        first.earlier(second),
{
}

/// The timestamp of the file chosen last never moves back: after an offer it
/// is the one before or a newer one, and the offered file is not newer than
/// it.
pub proof fn lemma_current_never_moves_back(watcher: DirectoryWatcher, offered: Timestamp)
    ensures
        watcher.current_after(offered) is Some,
        watcher.current() is Some ==> watcher.current_after(offered) == watcher.current()
            || watcher.current()->0.earlier(watcher.current_after(offered)->0),
        !watcher.current_after(offered)->0.earlier(offered),
{
    lemma_earlier_is_strict(offered, offered);
}

} // verus!
