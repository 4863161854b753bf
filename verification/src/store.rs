//! The persistence engine and the backup/restore protocol, over an
//! explicit store abstraction: the store is a single optional text
//! file (the serialized task list) and a family of named backup
//! files beside it. `MemStore` is the in-memory form of that state;
//! the command-line front end mirrors the same protocol onto the
//! file system, using the same codec and the same decisions.
//!
//! Loading tolerates a missing or malformed store and yields the
//! empty list; saving always rewrites the whole document. No locking
//! is performed anywhere: concurrent invocations against one store
//! race, and the last writer wins. That limitation is accepted and
//! documented rather than engineered away.
use vstd::prelude::*;

use crate::codec::{decode_tasks, encode_tasks, lemma_decode_encode, spec_decode, spec_encode};
use crate::errors::{BackupError, PersistenceError, RestoreError};
use crate::locator::{backup_file_name, spec_backup_name};
use crate::task::{all_wf, views_of, Task, TaskView};

verus! {

/// The mathematical state of a store: the text of the store file, if
/// it exists, and the backups written so far, newest last, each a name
/// with the copied text.
#[verifier::ext_equal]
pub ghost struct StoreModel {
    pub file: Option<Seq<char>>,
    pub backups: Seq<(Seq<char>, Seq<char>)>,
}

/// The text a named backup holds: the newest entry under that name
/// wins, as the last writer does on a file system.
pub open spec fn spec_lookup(backups: Seq<(Seq<char>, Seq<char>)>, name: Seq<char>) -> Option<
    Seq<char>,
>
    decreases backups.len(),
{
    if backups.len() == 0 {
        None
    } else if backups.last().0 == name {
        Some(backups.last().1)
    } else {
        spec_lookup(backups.drop_last(), name)
    }
}

/// What loading yields from an optional store text: the decoded list
/// where the text is present and well formed, the empty list where the
/// store is missing or malformed.
pub open spec fn spec_load_text(file: Option<Seq<char>>) -> Seq<TaskView> {
    match file {
        None => Seq::empty(),
        Some(text) => match spec_decode(text) {
            Some(ts) => ts,
            None => Seq::empty(),
        },
    }
}

/// What loading yields from a store.
pub open spec fn spec_load(m: StoreModel) -> Seq<TaskView> {
    spec_load_text(m.file)
}

/// The store after saving a task list: the file holds exactly the
/// encoded document; backups are untouched.
pub open spec fn spec_save(m: StoreModel, ts: Seq<TaskView>) -> StoreModel {
    StoreModel { file: Some(spec_encode(ts)), backups: m.backups }
}

/// The store and the result after a backup under `stamp`: with no
/// store file there is nothing to copy and nothing changes; otherwise
/// a backup named for the stamp holds a copy of the file's text.
pub open spec fn spec_backup(m: StoreModel, stamp: Seq<char>) -> (StoreModel, Result<
    Seq<char>,
    BackupError,
>) {
    match m.file {
        None => (m, Err(BackupError::SourceMissing)),
        Some(text) => (
            StoreModel {
                file: m.file,
                backups: m.backups.push((spec_backup_name(stamp), text)),
            },
            Ok(spec_backup_name(stamp)),
        ),
    }
}

/// The store and the result after restoring from the backup `name`:
/// an unknown name changes nothing; otherwise the store file becomes a
/// copy of the backup, which itself stays untouched. The text is
/// copied as it is, with no check that it is well formed.
pub open spec fn spec_restore(m: StoreModel, name: Seq<char>) -> (StoreModel, Result<
    (),
    RestoreError,
>) {
    match spec_lookup(m.backups, name) {
        None => (m, Err(RestoreError::SourceMissing)),
        Some(text) => (
            StoreModel { file: Some(text), backups: m.backups },
            Ok(()),
        ),
    }
}

/// One backup file: its name and the text it holds.
pub struct BackupFile {
    pub name: String,
    pub content: String,
}

/// An in-memory store: the same state and the same protocol as the
/// store on disk, with nothing that can fail for external reasons.
pub struct MemStore {
    pub file: Option<String>,
    pub backups: Vec<BackupFile>,
}

impl View for MemStore {
    type V = StoreModel;

    open spec fn view(&self) -> StoreModel {
        StoreModel {
            file: match self.file {
                None => None,
                Some(text) => Some(text@),
            },
            backups: self.backups@.map_values(|b: BackupFile| (b.name@, b.content@)),
        }
    }
}

impl MemStore {
    /// A store in which nothing has ever been saved.
    pub fn new() -> (r: MemStore)
        ensures
            r@.file is None,
            r@.backups.len() == 0,
    {
        let r = MemStore { file: None, backups: Vec::new() };
        assert(r@.backups =~= Seq::<(Seq<char>, Seq<char>)>::empty());
        r
    }

    /// Loads the task list: the decoded store text, or the empty list
    /// where the store is missing or malformed. Never an error, and
    /// the store itself is left exactly as it was.
    pub fn load(&self) -> (r: Vec<Task>)
        ensures
            views_of(r@) == spec_load(self@),
            all_wf(views_of(r@)),
    {
        match &self.file {
            None => tasks_from_store_text(None),
            Some(text) => tasks_from_store_text(Some(text.as_str())),
        }
    }

    /// Saves the task list: the store file now holds exactly the
    /// encoded document, and the backups are untouched. In memory
    /// nothing external can fail, so the result is always success;
    /// the file-system front end surfaces its write failures through
    /// the same `PersistenceError`.
    pub fn save(&mut self, tasks: &Vec<Task>) -> (r: Result<(), PersistenceError>)
        requires
            all_wf(views_of(tasks@)),
        ensures
            final(self)@ == spec_save(old(self)@, views_of(tasks@)),
            r is Ok,
    {
        let text = encode_tasks(tasks);
        self.file = Some(text);
        assert(self@ =~= spec_save(old(self)@, views_of(tasks@)));
        Ok(())
    }

    /// Backs the store up under the given timestamp text: fails with
    /// `SourceMissing`, changing nothing, when no store file exists;
    /// otherwise adds a backup holding a copy of the store text and
    /// returns the backup's name.
    pub fn backup(&mut self, stamp: &str) -> (r: Result<String, BackupError>)
        ensures
            final(self)@ == spec_backup(old(self)@, stamp@).0,
            match r {
                Ok(name) => spec_backup(old(self)@, stamp@).1 == Ok::<Seq<char>, BackupError>(
                    name@,
                ),
                Err(e) => spec_backup(old(self)@, stamp@).1 == Err::<Seq<char>, BackupError>(e),
            },
    {
        if self.file.is_none() {
            return Err(BackupError::SourceMissing);
        }
        let content = self.file.as_ref().unwrap().clone();
        let name = backup_file_name(stamp);
        let stored = name.clone();
        self.backups.push(BackupFile { name: stored, content });
        assert(self@.backups =~= spec_backup(old(self)@, stamp@).0.backups);
        Ok(name)
    }

    /// Restores the store from the backup of the given name: fails
    /// with `SourceMissing`, changing nothing, when no such backup
    /// exists; otherwise the store file becomes a copy of the backup's
    /// text, unvalidated, and the backup itself stays untouched.
    pub fn restore(&mut self, name: &str) -> (r: Result<(), RestoreError>)
        ensures
            final(self)@ == spec_restore(old(self)@, name@).0,
            match r {
                Ok(()) => spec_restore(old(self)@, name@).1 is Ok,
                Err(e) => spec_restore(old(self)@, name@).1 == Err::<(), RestoreError>(e),
            },
    {
        let mut i: usize = self.backups.len();
        proof {
            assert(self@.backups.take(i as int) =~= self@.backups);
        }
        while i > 0
            invariant
                *self == *old(self),
                i <= self.backups.len(),
                spec_lookup(self@.backups, name@) == spec_lookup(
                    self@.backups.take(i as int),
                    name@,
                ),
            decreases i,
        {
            let found = crate::text::text_eq(self.backups[i - 1].name.as_str(), name);
            if found {
                let text = self.backups[i - 1].content.clone();
                proof {
                    assert(self@.backups.take(i as int).last() == self@.backups[i - 1]);
                    assert(self@.backups[i - 1] == (
                        self.backups@[i - 1].name@,
                        self.backups@[i - 1].content@,
                    ));
                    assert(spec_lookup(self@.backups.take(i as int), name@) == Some(text@));
                }
                self.file = Some(text);
                assert(self@ =~= spec_restore(old(self)@, name@).0);
                return Ok(());
            }
            proof {
                assert(self@.backups.take(i as int).last() == self@.backups[i - 1]);
                assert(self@.backups[i - 1] == (
                    self.backups@[i - 1].name@,
                    self.backups@[i - 1].content@,
                ));
                assert(self@.backups.take(i as int).drop_last() =~= self@.backups.take(i - 1));
            }
            i = i - 1;
        }
        assert(self@.backups.take(0) =~= Seq::<(Seq<char>, Seq<char>)>::empty());
        assert(spec_lookup(self@.backups, name@) is None);
        Err(RestoreError::SourceMissing)
    }
}

/// The tolerant load policy over raw store text: the decoded list
/// where the text decodes, the empty list where the store is missing
/// or malformed. This is the visible wrapper around the strict
/// decoder.
pub fn tasks_from_store_text(content: Option<&str>) -> (r: Vec<Task>)
    ensures
        views_of(r@) == spec_load_text(
            match content {
                None => None,
                Some(text) => Some(text@),
            },
        ),
        all_wf(views_of(r@)),
{
    match content {
        None => {
            let r: Vec<Task> = Vec::new();
            assert(views_of(r@) =~= Seq::<TaskView>::empty());
            r
        },
        Some(text) => match decode_tasks(text) {
            Ok(ts) => ts,
            Err(_) => {
                let r: Vec<Task> = Vec::new();
                assert(views_of(r@) =~= Seq::<TaskView>::empty());
                r
            },
        },
    }
}

/// Round trip of the persistence engine: loading after saving yields
/// the saved list again, field for field, whatever the store held
/// before.
pub proof fn lemma_save_load_round_trip(m: StoreModel, ts: Seq<TaskView>)
    requires
        all_wf(ts),
    ensures
        spec_load(spec_save(m, ts)) == ts,
{
    lemma_decode_encode(ts);
}

/// Loading from a store whose file does not exist yields the empty
/// list, every time; the load itself never creates the file.
pub proof fn lemma_load_missing_empty(m: StoreModel)
    requires
        m.file is None,
    ensures
        spec_load(m) == Seq::<TaskView>::empty(),
{
}

/// Loading from a store whose text is malformed yields the empty
/// list rather than an error.
pub proof fn lemma_load_corrupt_empty(m: StoreModel, text: Seq<char>)
    requires
        m.file == Some(text),
        spec_decode(text) is None,
    ensures
        spec_load(m) == Seq::<TaskView>::empty(),
{
}

/// Backing up a store that has no file fails with the missing-source
/// error and creates nothing: the store is exactly as before.
pub proof fn lemma_backup_missing(m: StoreModel, stamp: Seq<char>)
    requires
        m.file is None,
    ensures
        spec_backup(m, stamp).0 == m,
        spec_backup(m, stamp).1 == Err::<Seq<char>, BackupError>(BackupError::SourceMissing),
{
}

/// Round trip of the backup protocol: back a store up, overwrite the
/// store with any other list, restore from that backup: the store file
/// holds exactly the text it held when the backup was taken, and the
/// backup itself is untouched. In particular, when the store held a
/// saved list, loading now yields that list again.
pub proof fn lemma_backup_restore_round_trip(
    m: StoreModel,
    stamp: Seq<char>,
    other: Seq<TaskView>,
)
    requires
        m.file is Some,
    ensures
        ({
            let (m1, r1) = spec_backup(m, stamp);
            let m2 = spec_save(m1, other);
            let (m3, r3) = spec_restore(m2, spec_backup_name(stamp));
            r1 == Ok::<Seq<char>, BackupError>(spec_backup_name(stamp)) && r3 is Ok && m3.file
                == m.file && m3.backups == m2.backups
        }),
{
    let (m1, r1) = spec_backup(m, stamp);
    let m2 = spec_save(m1, other);
    assert(m2.backups.last() == (spec_backup_name(stamp), m.file->0));
    assert(spec_lookup(m2.backups, spec_backup_name(stamp)) == Some(m.file->0));
}

/// The full statement of the backup/restore round trip over saved
/// lists: save `ts`, back up, save `other`, restore: loading yields
/// `ts` again.
pub proof fn lemma_backup_restore_yields_saved(
    m: StoreModel,
    ts: Seq<TaskView>,
    stamp: Seq<char>,
    other: Seq<TaskView>,
)
    requires
        all_wf(ts),
    ensures
        ({
            let saved = spec_save(m, ts);
            let (m1, r1) = spec_backup(saved, stamp);
            let m2 = spec_save(m1, other);
            let (m3, r3) = spec_restore(m2, spec_backup_name(stamp));
            r1 is Ok && r3 is Ok && spec_load(m3) == ts
        }),
{
    let saved = spec_save(m, ts);
    lemma_backup_restore_round_trip(saved, stamp, other);
    lemma_decode_encode(ts);
}

} // verus!
