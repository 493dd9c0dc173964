//! Library entries that wait for review.

use vstd::prelude::*;

use crate::board::Id;
use crate::event::Event;
use crate::library;
use crate::library::{Attachment, LibraryEntry, ViewTransform};
use crate::project::Project;
use crate::text::str_eq;

verus! {

/// A file that came with a pending entry.
#[derive(Debug)]
pub struct PendingAttachment {
    pub kind: String,
    pub filename: String,
    pub mime: String,
    pub data: Vec<u8>,
}

/// An entry that waits for review, with its files.
#[derive(Debug)]
pub struct PendingLibraryEntry {
    pub entry: LibraryEntry,
    pub attachments: Vec<PendingAttachment>,
}

/// A file to be stored with the library.
#[derive(Debug)]
pub struct StoredFile {
    pub name: String,
    pub data: Vec<u8>,
}

/// The index of the first pending entry from `i` on with that key; the
/// length where there is none.
pub open spec fn pending_from(v: Seq<PendingLibraryEntry>, key: Seq<char>, i: int) -> int
    decreases v.len() - i,
{
    if i < 0 || i >= v.len() {
        v.len() as int
    } else if v[i].entry.key@ == key {
        i
    } else {
        pending_from(v, key, i + 1)
    }
}

proof fn pending_is_first(v: Seq<PendingLibraryEntry>, key: Seq<char>, i: int)
    requires
        0 <= i <= v.len(),
    ensures
        i <= pending_from(v, key, i) <= v.len(),
        pending_from(v, key, i) < v.len() ==> v[pending_from(v, key, i)].entry.key@ == key,
        forall|k: int| i <= k < pending_from(v, key, i) ==> (#[trigger] v[k]).entry.key@ != key,
    decreases v.len() - i,
{
    if i < v.len() && v[i].entry.key@ != key {
        pending_is_first(v, key, i + 1);
    }
}

proof fn pending_is_only(v: Seq<PendingLibraryEntry>, key: Seq<char>, i: int, at: int)
    requires
        0 <= i <= at <= v.len(),
        at < v.len() ==> v[at].entry.key@ == key,
        forall|k: int| i <= k < at ==> (#[trigger] v[k]).entry.key@ != key,
    ensures
        pending_from(v, key, i) == at,
    decreases at - i,
{
    if i < at {
        pending_is_only(v, key, i + 1, at);
    }
}

/// The pending entries after one was queued: in place of the one of its
/// key, else behind the others.
pub open spec fn with_pending(
    v: Seq<PendingLibraryEntry>,
    p: PendingLibraryEntry,
) -> Seq<PendingLibraryEntry> {
    let k = pending_from(v, p.entry.key@, 0);
    if k < v.len() {
        v.update(k, p)
    } else {
        v.push(p)
    }
}

/// An entry that was queued is the one that is found under its key, and
/// queueing it again changes nothing.
pub proof fn queueing_is_idempotent(v: Seq<PendingLibraryEntry>, p: PendingLibraryEntry)
    ensures
        ({
            let q = with_pending(v, p);
            let k = pending_from(q, p.entry.key@, 0);
            &&& k < q.len()
            &&& q[k] == p
            &&& with_pending(q, p) == q
        }),
{
    let k = pending_from(v, p.entry.key@, 0);
    pending_is_first(v, p.entry.key@, 0);
    let q = with_pending(v, p);
    pending_is_only(q, p.entry.key@, 0, k);
    assert(with_pending(q, p) =~= q);
}

/// The attachment that is recorded for a file under a new id.
pub open spec fn is_record(a: Attachment, p: PendingAttachment, now: u64) -> bool {
    &&& a.kind == p.kind
    &&& a.filename == p.filename
    &&& a.mime == p.mime
    &&& a.added_at == now
    &&& a.view_transform.plain()
    &&& a.calibration is None
}

/// The file that is stored for an attachment.
pub open spec fn is_stored(f: StoredFile, a: Attachment, p: PendingAttachment) -> bool {
    &&& f.name@ == a.id@ + "."@ + library::extension(a.mime@)
    &&& f.data == p.data
}

/// The file at `i` is recorded behind the first `from` attachments, and
/// stored.
pub open spec fn is_filed(
    list: Seq<Attachment>,
    from: int,
    files: Seq<StoredFile>,
    pending: Seq<PendingAttachment>,
    now: u64,
    i: int,
) -> bool {
    is_record(list[from + i], pending[i], now) && is_stored(files[i], list[from + i], pending[i])
}

impl Project {
    /// The entries that wait for review.
    pub fn pending_library_entries(&self) -> (r: &Vec<PendingLibraryEntry>)
        ensures
            r@ == self.pending_library@,
    {
        &self.pending_library
    }

    /// The pending entry with that key.
    pub fn find_pending_library_entry(&self, key: &str) -> (r: Option<&PendingLibraryEntry>)
        ensures
            ({
                let k = pending_from(self.pending_library@, key@, 0);
                &&& r is Some <==> k < self.pending_library@.len()
                &&& r matches Some(p) ==> *p == self.pending_library@[k]
            }),
    {
        let k: usize = self.find_pending(key);
        if k < self.pending_library.len() {
            Some(&self.pending_library[k])
        } else {
            None
        }
    }

    fn find_pending(&self, key: &str) -> (r: usize)
        ensures
            r == pending_from(self.pending_library@, key@, 0),
            r <= self.pending_library@.len(),
    {
        let v = &self.pending_library;
        let mut i: usize = 0;
        while i < v.len()
            invariant
                i <= v@.len(),
                v@ == self.pending_library@,
                pending_from(v@, key@, 0) == pending_from(v@, key@, i as int),
            decreases v@.len() - i,
        {
            if str_eq(v[i].entry.key.as_str(), key) {
                return i;
            }
            i += 1;
        }
        i
    }

    fn publish_pending(&mut self)
        ensures
            final(self).events@ == old(self).events@.push(
                Event::PendingLibraryChanged { count: old(self).pending_library@.len() as usize },
            ),
            *final(self) == (Project { events: final(self).events, ..*old(self) }),
    {
        let count: usize = self.pending_library.len();
        self.publish(Event::PendingLibraryChanged { count });
    }

    /// Queues an entry for review, in place of one with the same key.
    /// Returns the number of pending entries.
    pub fn queue_pending_library_entry(&mut self, pending: PendingLibraryEntry) -> (r: usize)
        requires
            old(self).wf(),
        ensures
            final(self).wf(),
            final(self).pending_library@ == with_pending(old(self).pending_library@, pending),
            r == final(self).pending_library@.len(),
            final(self).events@ == old(self).events@.push(
                Event::PendingLibraryChanged { count: r },
            ),
            *final(self) == (Project {
                pending_library: final(self).pending_library,
                events: final(self).events,
                ..*old(self)
            }),
    {
        let ghost v = self.pending_library@;
        proof {
            pending_is_first(v, pending.entry.key@, 0);
        }
        let k: usize = self.find_pending(pending.entry.key.as_str());
        if k < self.pending_library.len() {
            self.pending_library.set(k, pending);
        } else {
            self.pending_library.push(pending);
        }
        let count: usize = self.pending_library.len();
        self.publish_pending();
        count
    }

    /// Drops a pending entry; true if there was one.
    pub fn discard_pending_library_entry(&mut self, key: &str) -> (r: bool)
        requires
            old(self).wf(),
        ensures
            final(self).wf(),
            ({
                let v = old(self).pending_library@;
                let k = pending_from(v, key@, 0);
                &&& r == (k < v.len())
                &&& !r ==> *final(self) == *old(self)
                &&& r ==> final(self).pending_library@ == v.remove(k) && final(self).events@
                    == old(self).events@.push(
                    Event::PendingLibraryChanged {
                        count: final(self).pending_library@.len() as usize,
                    },
                )
            }),
            *final(self) == (Project {
                pending_library: final(self).pending_library,
                events: final(self).events,
                ..*old(self)
            }),
    {
        let k: usize = self.find_pending(key);
        if k >= self.pending_library.len() {
            return false;
        }
        let _gone = self.pending_library.remove(k);
        self.publish_pending();
        true
    }

    /// Moves a pending entry into the library, and records its files there.
    /// Returns the files to be stored; nothing where the key is not
    /// pending. An entry without a key is dropped with an error.
    pub fn confirm_pending_library_entry(&mut self, key: &str, now: u64) -> (r: Result<
        Option<Vec<StoredFile>>,
        String,
    >)
        requires
            old(self).wf(),
        ensures
            final(self).wf(),
            ({
                let v = old(self).pending_library@;
                let k = pending_from(v, key@, 0);
                &&& (k >= v.len()) == (r is Ok && r->Ok_0 is None)
                &&& k >= v.len() ==> *final(self) == *old(self)
                &&& k < v.len() ==> {
                    let p = v[k];
                    let at = old(self).library.at(key@);
                    &&& final(self).pending_library@ == v.remove(k)
                    &&& r is Err <==> key@.len() == 0
                    &&& r matches Err(e) ==> e@ == "library: key must not be empty"@ && final(
                        self).library == old(self).library && final(self).events == old(self).events
                    &&& r matches Ok(Some(files)) ==> {
                        let n = p.attachments@.len();
                        let lib = final(self).library;
                        let entry = lib.entries@[at];
                        &&& lib.has(key@) && lib.at(key@) == at
                        &&& lib.entries@ == if old(self).library.has(key@) {
                            old(self).library.entries@.update(at, entry)
                        } else {
                            old(self).library.entries@.push(entry)
                        }
                        &&& entry.attachments@.len() >= n && files@.len() == n
                        &&& exists|base: LibraryEntry| #[trigger]
                            library::stored(old(self).library.entries@, p.entry, now, base)
                                && entry.same(
                                LibraryEntry { attachments: entry.attachments, ..base },
                            ) && entry.attachments@.take(entry.attachments@.len() - n)
                                == base.attachments@
                        &&& forall|i: int|
                            0 <= i < n ==> #[trigger] is_filed(
                                entry.attachments@,
                                entry.attachments@.len() - n,
                                files@,
                                p.attachments@,
                                now,
                                i,
                            )
                        &&& final(self).events@ == old(self).events@.push(
                            Event::LibraryChanged { count: lib.entries@.len() as usize },
                        ).push(
                            Event::PendingLibraryChanged {
                                count: final(self).pending_library@.len() as usize,
                            },
                        )
                    }
                }
            }),
            *final(self) == (Project {
                pending_library: final(self).pending_library,
                library: final(self).library,
                events: final(self).events,
                ..*old(self)
            }),
    {
        let ghost v = self.pending_library@;
        let ghost lib0 = self.library;
        proof {
            pending_is_first(v, key@, 0);
        }
        let k: usize = self.find_pending(key);
        if k >= self.pending_library.len() {
            return Ok(None);
        }
        let pending = self.pending_library.remove(k);
        let ghost p = pending;
        let PendingLibraryEntry { entry, attachments } = pending;
        let stored = match self.library.upsert(entry, now) {
            Ok(e) => e,
            Err(e) => {
                return Err(e);
            },
        };
        let ghost at = lib0.at(key@);
        proof {
            library::entry_is_first(lib0.entries@, key@, 0);
        }
        let ghost base = self.library.entries@[at];
        let ghost lib1 = self.library;
        assert(library::stored(lib0.entries@, p.entry, now, base));
        let mut rest = attachments;
        let mut files: Vec<StoredFile> = Vec::new();
        let ghost n = p.attachments@.len() as int;
        assert(base.attachments@.take(base.attachments@.len() as int) =~= base.attachments@);
        assert(self.library.entries@.update(at, self.library.entries@[at])
            =~= self.library.entries@);
        assert(rest@ =~= p.attachments@.skip(0));
        while rest.len() > 0
            invariant
                self.wf(),
                files@.len() <= n,
                n == p.attachments@.len(),
                rest@ == p.attachments@.skip(files@.len() as int),
                0 <= at < lib1.entries@.len(),
                lib1.entries@[at] == base,
                lib1.at(key@) == at,
                k < v.len(),
                self.library.has(key@),
                self.library.at(key@) == at,
                self.library.entries@ == lib1.entries@.update(at, self.library.entries@[at]),
                self.library.entries@[at] == (LibraryEntry {
                    attachments: self.library.entries@[at].attachments,
                    ..base
                }),
                self.library.entries@[at].attachments@.len() == base.attachments@.len()
                    + files@.len(),
                self.library.entries@[at].attachments@.take(base.attachments@.len() as int)
                    == base.attachments@,
                forall|i: int|
                    0 <= i < files@.len() ==> #[trigger] is_filed(
                        self.library.entries@[at].attachments@,
                        base.attachments@.len() as int,
                        files@,
                        p.attachments@,
                        now,
                        i,
                    ),
                *self == (Project {
                    pending_library: self.pending_library,
                    library: self.library,
                    ..*old(self)
                }),
                self.pending_library@ == v.remove(k as int),
            decreases rest@.len(),
        {
            let ghost done = files@.len() as int;
            let ghost list = self.library.entries@[at].attachments@;
            assert(rest@[0] == p.attachments@[done]);
            let PendingAttachment { kind, filename, mime, data } = rest.remove(0);
            assert(rest@ =~= p.attachments@.skip(done + 1));
            let a = Attachment {
                id: Id::new().text(),
                kind,
                filename,
                mime,
                added_at: now,
                view_transform: ViewTransform::default(),
                calibration: None,
            };
            let name = a.file_name();
            let ghost record = a;
            match self.library.attach(key, a) {
                Ok(()) => {},
                Err(e) => {
                    return Err(e);
                },
            }
            let ghost earlier = files@;
            files.push(StoredFile { name, data });
            let ghost now_list = self.library.entries@[at].attachments@;
            assert(now_list == list.push(record));
            assert(now_list.take(base.attachments@.len() as int) =~= list.take(
                base.attachments@.len() as int,
            ));
            assert(is_record(record, p.attachments@[done], now));
            assert(is_stored(files@[done], record, p.attachments@[done]));
            let ghost from = base.attachments@.len() as int;
            assert forall|i: int| 0 <= i < files@.len() implies #[trigger] is_filed(
                now_list,
                from,
                files@,
                p.attachments@,
                now,
                i,
            ) by {
                if i < done {
                    assert(is_filed(list, from, earlier, p.attachments@, now, i));
                }
            }
            proof {
                library::same_keys_same_place(lib1, self.library, key@);
            }
        }
        assert(files@.len() == n);
        let ghost entry = self.library.entries@[at];
        assert(entry.same(LibraryEntry { attachments: entry.attachments, ..base }));
        self.notify_library_changed();
        self.publish_pending();
        Ok(Some(files))
    }
}

} // verus!
