//! The list of the backups in a storage root: one line for each session,
//! the newest first.
//!
//! A session shows as its manifest where it was split, with the size of the
//! whole envelope, and as its envelope where it was not. Chunks are never
//! listed by themselves.

use crate::backup::{Manifest, ManifestView};
use crate::retention::Timestamp;
use crate::text::{
    chars_of, contains, ends_with, has_substring, has_suffix, matches_at, names_view,
};
use vstd::prelude::*;

verus! {

/// One entry of the storage root: its name and size, when it was last
/// modified, where that could be read, and for a manifest what it holds,
/// where that could be read.
#[derive(Debug, PartialEq, Eq)]
pub struct ListedFile {
    pub name: String,
    pub size: u64,
    pub modified: Option<Timestamp>,
    pub manifest: Option<Manifest>,
}

/// An entry as contracts speak of it.
pub struct ListedFileView {
    pub name: Seq<char>,
    pub size: nat,
    pub modified: Option<Timestamp>,
    pub manifest: Option<ManifestView>,
}

impl View for ListedFile {
    type V = ListedFileView;

    open spec fn view(&self) -> ListedFileView {
        ListedFileView {
            name: self.name@,
            size: self.size as nat,
            modified: self.modified,
            manifest: match self.manifest {
                Some(manifest) => Some(manifest@),
                None => None,
            },
        }
    }
}

/// The entries of a storage root, each by its view.
pub open spec fn listed_view(files: Seq<ListedFile>) -> Seq<ListedFileView> {
    Seq::new(files.len(), |i: int| files[i]@)
}

/// One line of the list: the name of the file that stands for the backup,
/// the size of its envelope, and when the file was last modified.
#[derive(Debug, PartialEq, Eq)]
pub struct BackupEntry {
    pub name: String,
    pub size: u64,
    pub modified: Timestamp,
}

/// A line of the list as contracts speak of it.
pub struct BackupEntryView {
    pub name: Seq<char>,
    pub size: nat,
    pub modified: Timestamp,
}

impl View for BackupEntry {
    type V = BackupEntryView;

    open spec fn view(&self) -> BackupEntryView {
        BackupEntryView { name: self.name@, size: self.size as nat, modified: self.modified }
    }
}

/// The lines of a list, each by its view.
pub open spec fn entries_view(entries: Seq<BackupEntry>) -> Seq<BackupEntryView> {
    Seq::new(entries.len(), |i: int| entries[i]@)
}

/// A name without `.enc` at its end, however often it stands there.
pub open spec fn without_enc(name: Seq<char>) -> Seq<char>
    decreases name.len(),
{
    if name.len() >= 4 && name.subrange(name.len() - 4, name.len() as int) == seq![
        '.',
        'e',
        'n',
        'c',
    ] {
        without_enc(name.subrange(0, name.len() - 4))
    } else {
        name
    }
}

/// The session that an entry stands for: the timestamp in a manifest that
/// could be read, and the name of an envelope without its `.enc`. Chunks and
/// all other files stand for none.
pub open spec fn session_of(file: ListedFileView) -> Option<Seq<char>> {
    if has_suffix(file.name, ".manifest"@) {
        match file.manifest {
            Some(manifest) => Some(manifest.timestamp),
            None => None,
        }
    } else if has_suffix(file.name, ".enc"@) && !has_substring(file.name, ".enc."@) {
        Some(without_enc(file.name))
    } else {
        None
    }
}

/// The size that an entry is listed with: that of the whole envelope.
pub open spec fn listed_size(file: ListedFileView) -> nat {
    if has_suffix(file.name, ".manifest"@) && file.manifest is Some {
        file.manifest->0.original_size
    } else {
        file.size
    }
}

/// Whether the entry at `index` gets a line: it stands for a session that
/// no entry before it stands for, and its time of modification is known.
pub open spec fn is_listed(files: Seq<ListedFileView>, index: int) -> bool {
    &&& session_of(files[index]) is Some
    &&& forall|j: int| 0 <= j < index ==> session_of(#[trigger] files[j]) != session_of(files[index])
    &&& files[index].modified is Some
}

/// The lines in the order of the entries.
pub open spec fn lines_in_order(files: Seq<ListedFileView>) -> Seq<BackupEntryView>
    decreases files.len(),
{
    if files.len() == 0 {
        Seq::empty()
    } else if is_listed(files, files.len() - 1) {
        lines_in_order(files.drop_last()).push(
            BackupEntryView {
                name: files.last().name,
                size: listed_size(files.last()),
                modified: files.last().modified->0,
            },
        )
    } else {
        lines_in_order(files.drop_last())
    }
}

/// Where a line goes among lines that stand newest first: behind all that
/// are as new or newer.
pub open spec fn insert_position(sorted: Seq<BackupEntryView>, line: BackupEntryView) -> int
    decreases sorted.len(),
{
    if sorted.len() > 0 && sorted.last().modified.nanos_since_epoch()
        < line.modified.nanos_since_epoch() {
        insert_position(sorted.drop_last(), line)
    } else {
        sorted.len() as int
    }
}

/// The lines with the newest first; lines of the same time keep their order.
pub open spec fn newest_first(lines: Seq<BackupEntryView>) -> Seq<BackupEntryView>
    decreases lines.len(),
{
    if lines.len() == 0 {
        lines
    } else {
        let sorted = newest_first(lines.drop_last());
        sorted.insert(insert_position(sorted, lines.last()), lines.last())
    }
}

/// No line stands before a newer one.
pub open spec fn is_newest_first(lines: Seq<BackupEntryView>) -> bool {
    forall|i: int, j: int|
        0 <= i < j < lines.len() ==> lines[i].modified.nanos_since_epoch()
            >= lines[j].modified.nanos_since_epoch()
}

/// The list of the backups among the entries of a storage root.
pub open spec fn list_spec(files: Seq<ListedFileView>) -> Seq<BackupEntryView> {
    newest_first(lines_in_order(files))
}

/// The place where a line goes: all lines from there on are older, and the
/// line before it, if there is one, is as new or newer.
pub proof fn lemma_insert_position(sorted: Seq<BackupEntryView>, line: BackupEntryView)
    ensures
        0 <= insert_position(sorted, line) <= sorted.len(),
        forall|k: int|
            insert_position(sorted, line) <= k < sorted.len() ==> (#[trigger] sorted[k]).modified.nanos_since_epoch()
                < line.modified.nanos_since_epoch(),
        insert_position(sorted, line) > 0 ==> sorted[insert_position(sorted, line)
            - 1].modified.nanos_since_epoch() >= line.modified.nanos_since_epoch(),
    decreases sorted.len(),
{
    if sorted.len() > 0 && sorted.last().modified.nanos_since_epoch()
        < line.modified.nanos_since_epoch() {
        lemma_insert_position(sorted.drop_last(), line);
        let p = insert_position(sorted.drop_last(), line);
        assert forall|k: int| p <= k < sorted.len() implies (#[trigger] sorted[k]).modified.nanos_since_epoch()
            < line.modified.nanos_since_epoch() by {
            if k < sorted.len() - 1 {
                assert(sorted[k] == sorted.drop_last()[k]);
            }
        }
    }
}

/// The list holds the newest line first.
pub proof fn lemma_newest_first_sorted(lines: Seq<BackupEntryView>)
    ensures
        is_newest_first(newest_first(lines)),
        newest_first(lines).len() == lines.len(),
    decreases lines.len(),
{
    if lines.len() > 0 {
        let sorted = newest_first(lines.drop_last());
        let line = lines.last();
        lemma_newest_first_sorted(lines.drop_last());
        lemma_insert_position(sorted, line);
        let p = insert_position(sorted, line);
        let result = sorted.insert(p, line);
        assert forall|i: int, j: int| 0 <= i < j < result.len() implies result[i].modified.nanos_since_epoch()
            >= result[j].modified.nanos_since_epoch() by {
            if j < p {
                assert(result[i] == sorted[i]);
                assert(result[j] == sorted[j]);
            } else if j == p {
                assert(result[j] == line);
                assert(result[i] == sorted[i]);
                assert(sorted[i].modified.nanos_since_epoch() >= sorted[p
                    - 1].modified.nanos_since_epoch());
            } else {
                assert(result[j] == sorted[j - 1]);
                if i < p {
                    assert(result[i] == sorted[i]);
                } else if i == p {
                    assert(result[i] == line);
                } else {
                    assert(result[i] == sorted[i - 1]);
                }
            }
        }
    }
}

/// Putting the newest first neither drops a line nor adds one.
pub proof fn lemma_newest_first_permutes(lines: Seq<BackupEntryView>)
    ensures
        newest_first(lines).to_multiset() == lines.to_multiset(),
    decreases lines.len(),
{
    if lines.len() > 0 {
        let sorted = newest_first(lines.drop_last());
        let line = lines.last();
        lemma_newest_first_permutes(lines.drop_last());
        lemma_insert_position(sorted, line);
        vstd::seq_lib::to_multiset_insert(sorted, insert_position(sorted, line), line);
        vstd::seq_lib::to_multiset_build(lines.drop_last(), line);
        assert(lines.drop_last().push(line) =~= lines);
    }
}

/// Removes `.enc` from the end of a name, however often it stands there.
pub fn strip_enc(name: &str) -> (stripped: String)
    ensures
        stripped@ == without_enc(name@),
{
    let chars = chars_of(name);
    let suffix = chars_of(".enc");
    proof {
        reveal_strlit(".enc");
        assert(suffix@ =~= seq!['.', 'e', 'n', 'c']);
    }
    let mut end: usize = chars.len();
    assert(chars@.subrange(0, end as int) =~= chars@);
    while end >= 4 && matches_at(&chars, &suffix, end - 4)
        invariant
            end <= chars@.len(),
            chars@ == name@,
            suffix@ == seq!['.', 'e', 'n', 'c'],
            without_enc(name@) == without_enc(chars@.subrange(0, end as int)),
        decreases end,
    {
        proof {
            let head = chars@.subrange(0, end as int);
            assert(head.subrange(head.len() - 4, head.len() as int) =~= chars@.subrange(
                end - 4,
                end as int,
            ));
            assert(head.subrange(0, head.len() - 4) =~= chars@.subrange(0, end - 4));
        }
        end -= 4;
    }
    proof {
        let head = chars@.subrange(0, end as int);
        if end >= 4 {
            assert(head.subrange(head.len() - 4, head.len() as int) =~= chars@.subrange(
                end - 4,
                end as int,
            ));
        }
    }
    String::from_str(name.substring_char(0, end))
}

/// The session that an entry stands for, if it stands for one.
pub fn session_key(file: &ListedFile) -> (session: Option<String>)
    ensures
        match session {
            Some(key) => session_of(file@) == Some(key@),
            None => session_of(file@) is None,
        },
{
    if ends_with(file.name.as_str(), ".manifest") {
        match &file.manifest {
            Some(manifest) => Some(manifest.timestamp.clone()),
            None => None,
        }
    } else if ends_with(file.name.as_str(), ".enc") && !contains(file.name.as_str(), ".enc.") {
        Some(strip_enc(file.name.as_str()))
    } else {
        None
    }
}

/// Whether a text is among the texts of a list.
pub fn is_among(texts: &Vec<String>, text: &String) -> (found: bool)
    ensures
        found == names_view(texts@).contains(text@),
{
    let mut i: usize = 0;
    while i < texts.len()
        invariant
            i <= texts@.len(),
            forall|k: int| 0 <= k < i ==> names_view(texts@)[k] != text@,
        decreases texts@.len() - i,
    {
        if texts[i] == *text {
            assert(names_view(texts@)[i as int] == text@);
            return true;
        }
        i += 1;
    }
    false
}

/// Puts the lines in order, the newest first. Lines of the same time keep
/// their order.
pub fn sort_newest_first(lines: &Vec<BackupEntry>) -> (sorted: Vec<BackupEntry>)
    ensures
        entries_view(sorted@) == newest_first(entries_view(lines@)),
        is_newest_first(entries_view(sorted@)),
        entries_view(sorted@).to_multiset() == entries_view(lines@).to_multiset(),
{
    let ghost all = entries_view(lines@);
    let mut sorted: Vec<BackupEntry> = Vec::new();
    let mut i: usize = 0;
    assert(all.take(0) =~= Seq::<BackupEntryView>::empty());
    while i < lines.len()
        invariant
            i <= lines@.len(),
            all == entries_view(lines@),
            entries_view(sorted@) == newest_first(all.take(i as int)),
        decreases lines@.len() - i,
    {
        let line = BackupEntry {
            name: lines[i].name.clone(),
            size: lines[i].size,
            modified: lines[i].modified,
        };
        let ghost before = entries_view(sorted@);
        let mut at: usize = sorted.len();
        assert(before.take(at as int) =~= before);
        while at > 0 && sorted[at - 1].modified.is_before(&line.modified)
            invariant
                at <= sorted@.len(),
                before == entries_view(sorted@),
                insert_position(before, line@) == insert_position(before.take(at as int), line@),
            decreases at,
        {
            proof {
                assert(before.take(at as int).last() == sorted@[at - 1]@);
                assert(before.take(at as int).drop_last() =~= before.take(at - 1));
            }
            at -= 1;
        }
        proof {
            if at > 0 {
                assert(before.take(at as int).last() == sorted@[at - 1]@);
            }
            assert(insert_position(before, line@) == at);
            assert(all.take(i + 1).drop_last() =~= all.take(i as int));
            assert(all.take(i + 1).last() == line@);
        }
        sorted.insert(at, line);
        assert(entries_view(sorted@) =~= before.insert(at as int, line@));
        i += 1;
    }
    assert(all.take(i as int) =~= all);
    proof {
        lemma_newest_first_sorted(all);
        lemma_newest_first_permutes(all);
    }
    sorted
}

/// Lists the backups among the entries of a storage root, the newest first:
/// one line for each session, which is the first entry that stands for it.
/// An entry whose time of modification is not known gets no line, and neither
/// does a later entry of its session.
pub fn list_backups(files: &Vec<ListedFile>) -> (list: Vec<BackupEntry>)
    ensures
        entries_view(list@) == list_spec(listed_view(files@)),
        is_newest_first(entries_view(list@)),
{
    let ghost all = listed_view(files@);
    let mut lines: Vec<BackupEntry> = Vec::new();
    let mut seen: Vec<String> = Vec::new();
    let mut i: usize = 0;
    assert(all.take(0) =~= Seq::<ListedFileView>::empty());
    while i < files.len()
        invariant
            i <= files@.len(),
            all == listed_view(files@),
            entries_view(lines@) == lines_in_order(all.take(i as int)),
            forall|key: Seq<char>|
                names_view(seen@).contains(key) <==> exists|j: int|
                    0 <= j < i && session_of(#[trigger] all[j]) == Some(key),
        decreases files@.len() - i,
    {
        let file = &files[i];
        let ghost before = entries_view(lines@);
        let ghost seen_before = names_view(seen@);
        proof {
            assert(all.take(i + 1).drop_last() =~= all.take(i as int));
            assert(all.take(i + 1).last() == file@);
            assert(all.take(i + 1)[i as int] == all[i as int]);
            assert forall|j: int| 0 <= j < i implies all.take(i + 1)[j] == all[j] by {}
        }
        match session_key(file) {
            Some(key) => {
                let known = is_among(&seen, &key);
                proof {
                    if known {
                        let j = choose|j: int|
                            0 <= j < i && session_of(#[trigger] all[j]) == Some(key@);
                        assert(all.take(i + 1)[j] == all[j]);
                        assert(!is_listed(all.take(i + 1), i as int));
                    } else {
                        assert forall|j: int| 0 <= j < i implies session_of(
                            #[trigger] all.take(i + 1)[j],
                        ) != session_of(all.take(i + 1)[i as int]) by {
                            assert(all.take(i + 1)[j] == all[j]);
                        }
                    }
                }
                if !known {
                    let ghost key_text = key@;
                    seen.push(key);
                    proof {
                        assert(names_view(seen@) =~= seen_before.push(key_text));
                        assert forall|other: Seq<char>|
                            names_view(seen@).contains(other) <==> exists|j: int|
                                0 <= j < i + 1 && session_of(#[trigger] all[j]) == Some(other) by {
                            if names_view(seen@).contains(other) {
                                let k = choose|k: int|
                                    0 <= k < names_view(seen@).len() && names_view(seen@)[k]
                                        == other;
                                if k < seen_before.len() {
                                    assert(seen_before[k] == other);
                                    assert(seen_before.contains(other));
                                } else {
                                    assert(session_of(all[i as int]) == Some(other));
                                }
                            }
                            if exists|j: int|
                                0 <= j < i + 1 && session_of(#[trigger] all[j]) == Some(other) {
                                let j = choose|j: int|
                                    0 <= j < i + 1 && session_of(#[trigger] all[j]) == Some(other);
                                if j < i {
                                    assert(seen_before.contains(other));
                                    let k = choose|k: int|
                                        0 <= k < seen_before.len() && seen_before[k] == other;
                                    assert(names_view(seen@)[k] == other);
                                } else {
                                    assert(names_view(seen@)[seen_before.len() as int] == other);
                                }
                            }
                        }
                    }
                    if let Some(modified) = file.modified {
                        let size = match &file.manifest {
                            Some(manifest) => if ends_with(file.name.as_str(), ".manifest") {
                                manifest.original_size
                            } else {
                                file.size
                            },
                            None => file.size,
                        };
                        lines.push(BackupEntry { name: file.name.clone(), size, modified });
                        proof {
                            assert(is_listed(all.take(i + 1), i as int));
                            assert(entries_view(lines@) =~= before.push(
                                BackupEntryView {
                                    name: file@.name,
                                    size: listed_size(file@),
                                    modified,
                                },
                            ));
                        }
                    }
                } else {
                    proof {
                        assert forall|other: Seq<char>|
                            names_view(seen@).contains(other) <==> exists|j: int|
                                0 <= j < i + 1 && session_of(#[trigger] all[j]) == Some(other) by {
                            if exists|j: int|
                                0 <= j < i + 1 && session_of(#[trigger] all[j]) == Some(other) {
                                let j = choose|j: int|
                                    0 <= j < i + 1 && session_of(#[trigger] all[j]) == Some(other);
                                if j == i {
                                    assert(other == key@);
                                }
                            }
                        }
                    }
                }
            },
            None => {
                proof {
                    assert(!is_listed(all.take(i + 1), i as int));
                    assert forall|other: Seq<char>|
                        names_view(seen@).contains(other) <==> exists|j: int|
                            0 <= j < i + 1 && session_of(#[trigger] all[j]) == Some(other) by {
                        if exists|j: int|
                            0 <= j < i + 1 && session_of(#[trigger] all[j]) == Some(other) {
                            let j = choose|j: int|
                                0 <= j < i + 1 && session_of(#[trigger] all[j]) == Some(other);
                            assert(j < i);
                        }
                    }
                }
            },
        }
        i += 1;
    }
    assert(all.take(i as int) =~= all);
    sort_newest_first(&lines)
}

} // verus!
