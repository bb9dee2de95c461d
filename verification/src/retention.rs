//! The retention sweep: which stored artifacts have outlived the retention
//! period and are to be removed.
//!
//! The sweep is advisory cleanup. It looks at the direct entries of one
//! storage root, treats envelopes, chunks and manifests alike, and removes
//! what was last modified strictly before the cutoff. The same rule serves
//! every storage root.

use crate::names::{
    is_chunk_file, is_chunk_name, is_envelope_file, is_envelope_name, is_manifest_file,
    is_manifest_name,
};
use crate::text::names_view;
use vstd::prelude::*;

verus! {

/// The number of nanoseconds in a day.
pub const NANOS_PER_DAY: u64 = 86_400_000_000_000;

/// The number of nanoseconds in a second.
pub const NANOS_PER_SECOND: u64 = 1_000_000_000;

/// A point in time: seconds since the Unix epoch, and nanoseconds beyond
/// them.
#[derive(Debug, Clone, Copy, PartialEq, Eq)]
pub struct Timestamp {
    pub secs: i64,
    pub nanos: u32,
}

impl Timestamp {
    /// The point in time as nanoseconds since the Unix epoch.
    pub open spec fn nanos_since_epoch(self) -> int {
        self.secs * NANOS_PER_SECOND + self.nanos
    }

    /// Whether this point in time lies strictly before `other`.
    pub fn is_before(&self, other: &Timestamp) -> (before: bool)
        ensures
            before == (self.nanos_since_epoch() < other.nanos_since_epoch()),
    {
        let this: i128 = self.secs as i128 * 1_000_000_000 + self.nanos as i128;
        let that: i128 = other.secs as i128 * 1_000_000_000 + other.nanos as i128;
        this < that
    }
}

/// One entry of a storage root: its name, and when it was last modified,
/// where that is known.
#[derive(Debug, PartialEq, Eq)]
pub struct StoredFile {
    pub name: String,
    pub modified: Option<Timestamp>,
}

/// An entry as contracts speak of it.
pub struct StoredFileView {
    pub name: Seq<char>,
    pub modified: Option<Timestamp>,
}

impl View for StoredFile {
    type V = StoredFileView;

    open spec fn view(&self) -> StoredFileView {
        StoredFileView { name: self.name@, modified: self.modified }
    }
}

/// The entries of a storage root, each by its view.
pub open spec fn files_view(files: Seq<StoredFile>) -> Seq<StoredFileView> {
    Seq::new(files.len(), |i: int| files[i]@)
}

/// Whether a name is that of a backup artifact: an envelope, a chunk or a
/// manifest.
pub open spec fn is_backup_name(name: Seq<char>) -> bool {
    is_envelope_name(name) || is_chunk_name(name) || is_manifest_name(name)
}

/// The cutoff of a sweep, in nanoseconds since the Unix epoch: the present
/// moment less the retention period.
pub open spec fn cutoff_nanos(now: Timestamp, retention_days: nat) -> int {
    now.nanos_since_epoch() - retention_days * NANOS_PER_DAY
}

/// Whether a moment lies strictly before the cutoff.
pub open spec fn is_before_cutoff(modified: Timestamp, now: Timestamp, retention_days: nat) -> bool {
    modified.nanos_since_epoch() < cutoff_nanos(now, retention_days)
}

/// Whether the sweep removes an entry: it is a backup artifact, its time of
/// modification is known, and that time lies strictly before the cutoff.
pub open spec fn is_swept(file: StoredFileView, now: Timestamp, retention_days: nat) -> bool {
    &&& is_backup_name(file.name)
    &&& file.modified matches Some(modified)
    &&& is_before_cutoff(modified, now, retention_days)
}

/// The names of the entries that the sweep removes, in the order of the
/// entries.
pub open spec fn swept_names(files: Seq<StoredFileView>, now: Timestamp, retention_days: nat) -> Seq<
    Seq<char>,
>
    decreases files.len(),
{
    if files.len() == 0 {
        Seq::empty()
    } else if is_swept(files.last(), now, retention_days) {
        swept_names(files.drop_last(), now, retention_days).push(files.last().name)
    } else {
        swept_names(files.drop_last(), now, retention_days)
    }
}

/// An artifact modified exactly at the cutoff or after it stays; one
/// modified before it, by however little, goes.
pub proof fn lemma_retention_boundary(file: StoredFileView, now: Timestamp, retention_days: nat)
    requires
        is_backup_name(file.name),
        file.modified is Some,
    ensures
        file.modified->0.nanos_since_epoch() == cutoff_nanos(now, retention_days) ==> !is_swept(
            file,
            now,
            retention_days,
        ),
        file.modified->0.nanos_since_epoch() > cutoff_nanos(now, retention_days) ==> !is_swept(
            file,
            now,
            retention_days,
        ),
        file.modified->0.nanos_since_epoch() < cutoff_nanos(now, retention_days) ==> is_swept(
            file,
            now,
            retention_days,
        ),
{
}

/// The sweep removes the entries that are swept and no others: a name is
/// among those removed exactly where an entry of that name is swept.
pub proof fn lemma_swept_names_exact(
    files: Seq<StoredFileView>,
    now: Timestamp,
    retention_days: nat,
    name: Seq<char>,
)
    ensures
        swept_names(files, now, retention_days).contains(name) <==> exists|i: int|
            0 <= i < files.len() && (#[trigger] files[i]).name == name && is_swept(
                files[i],
                now,
                retention_days,
            ),
    decreases files.len(),
{
    let names = swept_names(files, now, retention_days);
    if files.len() > 0 {
        let rest = files.drop_last();
        let rest_names = swept_names(rest, now, retention_days);
        lemma_swept_names_exact(rest, now, retention_days, name);
        let last = files.len() - 1;
        if names.contains(name) {
            let k = choose|k: int| 0 <= k < names.len() && names[k] == name;
            if is_swept(files.last(), now, retention_days) && k == names.len() - 1 {
                assert(files[last].name == name);
            } else {
                assert(rest_names[k] == name);
                assert(rest_names.contains(name));
                let i = choose|i: int|
                    0 <= i < rest.len() && (#[trigger] rest[i]).name == name && is_swept(
                        rest[i],
                        now,
                        retention_days,
                    );
                assert(files[i] == rest[i]);
            }
        }
        if exists|i: int|
            0 <= i < files.len() && (#[trigger] files[i]).name == name && is_swept(
                files[i],
                now,
                retention_days,
            ) {
            let i = choose|i: int|
                0 <= i < files.len() && (#[trigger] files[i]).name == name && is_swept(
                    files[i],
                    now,
                    retention_days,
                );
            if i == last {
                assert(names[names.len() - 1] == name);
            } else {
                assert(rest[i] == files[i]);
                assert(rest_names.contains(name));
                let k = choose|k: int| 0 <= k < rest_names.len() && rest_names[k] == name;
                assert(names[k] == name);
            }
        }
    }
}

/// Whether a name is that of a backup artifact.
pub fn is_backup_file(name: &str) -> (found: bool)
    ensures
        found == is_backup_name(name@),
{
    is_envelope_file(name) || is_chunk_file(name) || is_manifest_file(name)
}

/// Whether something last modified at `modified` has outlived a retention
/// period of `retention_days` days at the moment `now`.
pub fn is_expired(modified: &Timestamp, now: &Timestamp, retention_days: u32) -> (expired: bool)
    ensures
        expired == is_before_cutoff(*modified, *now, retention_days as nat),
{
    let then: i128 = modified.secs as i128 * 1_000_000_000 + modified.nanos as i128;
    let present: i128 = now.secs as i128 * 1_000_000_000 + now.nanos as i128;
    let period: i128 = retention_days as i128 * 86_400_000_000_000;
    then < present - period
}

/// Picks the entries of a storage root that the sweep removes: the backup
/// artifacts last modified strictly before `now` less `retention_days` days.
/// Entries of other names, and entries whose time of modification is not
/// known, stay.
pub fn cleanup_old_backups(files: &Vec<StoredFile>, now: &Timestamp, retention_days: u32) -> (removed:
    Vec<String>)
    ensures
        names_view(removed@) == swept_names(files_view(files@), *now, retention_days as nat),
{
    let ghost all = files_view(files@);
    let mut removed: Vec<String> = Vec::new();
    let mut i: usize = 0;
    while i < files.len()
        invariant
            i <= files@.len(),
            all == files_view(files@),
            names_view(removed@) == swept_names(all.take(i as int), *now, retention_days as nat),
        decreases files@.len() - i,
    {
        let file = &files[i];
        proof {
            assert(all.take(i + 1).drop_last() =~= all.take(i as int));
            assert(all.take(i + 1).last() == file@);
        }
        let ghost before = names_view(removed@);
        if is_backup_file(file.name.as_str()) {
            if let Some(modified) = &file.modified {
                if is_expired(modified, now, retention_days) {
                    removed.push(file.name.clone());
                    assert(names_view(removed@) =~= before.push(file.name@));
                }
            }
        }
        i += 1;
    }
    assert(all.take(i as int) =~= all);
    removed
}

} // verus!
