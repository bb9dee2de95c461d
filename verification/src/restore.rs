//! The reassembler: joining the chunks that a manifest lists, in the
//! manifest's order, and verifying the digest of what was joined.

use crate::backup::{
    chunk_infos, chunks_view, concat_chunks, infos_view, lemma_split_covers, split_chunks,
    split_manifest, Chunk, ChunkInfoView, ChunkView, Manifest, ManifestView,
};
use crate::crypto::{
    append_bytes, decrypt, decrypt_spec, encrypt_spec, lemma_decrypt_inverts_encrypt, NONCE_SIZE,
    SALT_SIZE,
};
use crate::error::{bytes_outcome, BackupError, Failure};
use crate::hash::{sha256, sha256_digest};
use crate::hex::{hex_lower, lemma_hex_injective, to_hex};
use crate::names::lemma_chunk_names_distinct;
use vstd::prelude::*;
use vstd::string::StringSliceAdditionalSpecFns;

verus! {

/// The bytes stored under `name`: those of the first chunk of that name among
/// the chunks at hand, `None` where there is none.
pub open spec fn find_chunk(store: Seq<ChunkView>, name: Seq<char>) -> Option<Seq<u8>>
    decreases store.len(),
{
    if store.len() == 0 {
        None
    } else if store.first().name == name {
        Some(store.first().data)
    } else {
        find_chunk(store.drop_first(), name)
    }
}

/// The bytes of the listed chunks, joined in the order of the list; where one
/// of them is missing, the name of the first that is.
pub open spec fn gather(entries: Seq<ChunkInfoView>, store: Seq<ChunkView>) -> Result<
    Seq<u8>,
    Seq<char>,
>
    decreases entries.len(),
{
    if entries.len() == 0 {
        Ok(Seq::empty())
    } else {
        match gather(entries.drop_last(), store) {
            Err(name) => Err(name),
            Ok(joined) => match find_chunk(store, entries.last().name) {
                None => Err(entries.last().name),
                Some(data) => Ok(joined + data),
            },
        }
    }
}

/// What reassembling gives: the joined bytes where every listed chunk is at
/// hand and the digest of the whole is the one that the manifest records.
pub open spec fn reassemble_spec(manifest: ManifestView, store: Seq<ChunkView>) -> Result<
    Seq<u8>,
    Failure,
> {
    match gather(manifest.chunks, store) {
        Err(name) => Err(Failure::MissingChunk { name }),
        Ok(joined) => {
            let actual = hex_lower(sha256(joined));
            if actual == manifest.sha256 {
                Ok(joined)
            } else {
                Err(Failure::IntegrityMismatch { expected: manifest.sha256, actual })
            }
        },
    }
}

/// No two of the chunks have the same name.
pub open spec fn names_distinct(store: Seq<ChunkView>) -> bool {
    forall|i: int, j: int| 0 <= i < j < store.len() ==> store[i].name != store[j].name
}

/// Once a listed chunk is missing, a longer list does not change which one is
/// reported.
pub proof fn lemma_gather_stops(entries: Seq<ChunkInfoView>, store: Seq<ChunkView>, count: int)
    requires
        0 <= count <= entries.len(),
        gather(entries.take(count), store) is Err,
    ensures
        gather(entries, store) == gather(entries.take(count), store),
    decreases entries.len() - count,
{
    if count < entries.len() {
        assert(entries.take(count + 1).drop_last() =~= entries.take(count));
        lemma_gather_stops(entries, store, count + 1);
    } else {
        assert(entries.take(count) =~= entries);
    }
}

/// Where the chunks before a listed one are all at hand and that one is
/// missing, it is the one reported.
pub proof fn lemma_gather_reports_first_missing(
    entries: Seq<ChunkInfoView>,
    store: Seq<ChunkView>,
    index: int,
)
    requires
        0 <= index < entries.len(),
        forall|j: int| 0 <= j < index ==> find_chunk(store, #[trigger] entries[j].name) is Some,
        find_chunk(store, entries[index].name) is None,
    ensures
        gather(entries, store) == Err::<Seq<u8>, Seq<char>>(entries[index].name),
{
    lemma_gather_present(entries, store, index);
    assert(entries.take(index + 1).drop_last() =~= entries.take(index));
    assert(entries.take(index + 1).last() == entries[index]);
    lemma_gather_stops(entries, store, index + 1);
}

/// Where the first `count` listed chunks are all at hand, they are gathered.
pub proof fn lemma_gather_present(entries: Seq<ChunkInfoView>, store: Seq<ChunkView>, count: int)
    requires
        0 <= count <= entries.len(),
        forall|j: int| 0 <= j < count ==> find_chunk(store, #[trigger] entries[j].name) is Some,
    ensures
        gather(entries.take(count), store) is Ok,
    decreases count,
{
    if count > 0 {
        lemma_gather_present(entries, store, count - 1);
        assert(entries.take(count).drop_last() =~= entries.take(count - 1));
        assert(entries.take(count).last() == entries[count - 1]);
    }
}

/// Among chunks with distinct names, each is found under its own name.
pub proof fn lemma_find_own(store: Seq<ChunkView>, index: int)
    requires
        0 <= index < store.len(),
        names_distinct(store),
    ensures
        find_chunk(store, store[index].name) == Some(store[index].data),
    decreases store.len(),
{
    if index > 0 {
        let rest = store.drop_first();
        assert(store[0].name != store[index].name);
        assert forall|i: int, j: int| 0 <= i < j < rest.len() implies rest[i].name
            != rest[j].name by {
            assert(rest[i] == store[i + 1]);
            assert(rest[j] == store[j + 1]);
        }
        lemma_find_own(rest, index - 1);
    }
}

/// A name that none of the chunks has is not found.
pub proof fn lemma_find_none(store: Seq<ChunkView>, name: Seq<char>)
    requires
        forall|i: int| 0 <= i < store.len() ==> (#[trigger] store[i]).name != name,
    ensures
        find_chunk(store, name) is None,
    decreases store.len(),
{
    if store.len() > 0 {
        let rest = store.drop_first();
        assert(store[0].name != name);
        assert forall|i: int| 0 <= i < rest.len() implies (#[trigger] rest[i]).name != name by {
            assert(rest[i] == store[i + 1]);
        }
        lemma_find_none(rest, name);
    }
}

/// Where the list names the chunks at hand one by one, in their order, and
/// no two have the same name, gathering joins them all.
pub proof fn lemma_gather_in_order(
    entries: Seq<ChunkInfoView>,
    store: Seq<ChunkView>,
    count: int,
)
    requires
        entries.len() == store.len(),
        0 <= count <= store.len(),
        forall|i: int| 0 <= i < store.len() ==> (#[trigger] entries[i]).name == store[i].name,
        names_distinct(store),
    ensures
        gather(entries.take(count), store) == Ok::<Seq<u8>, Seq<char>>(
            concat_chunks(store.take(count)),
        ),
    decreases count,
{
    if count == 0 {
        assert(entries.take(0) =~= Seq::<ChunkInfoView>::empty());
        assert(store.take(0) =~= Seq::<ChunkView>::empty());
    } else {
        lemma_gather_in_order(entries, store, count - 1);
        lemma_find_own(store, count - 1);
        assert(entries.take(count).drop_last() =~= entries.take(count - 1));
        assert(entries.take(count).last() == entries[count - 1]);
        assert(store.take(count).drop_last() =~= store.take(count - 1));
        assert(store.take(count).last() == store[count - 1]);
    }
}

/// The chunks of one split have distinct names.
pub proof fn lemma_split_names_distinct(data: Seq<u8>, timestamp: Seq<char>, bound: nat)
    ensures
        names_distinct(split_chunks(data, timestamp, bound)),
{
    let chunks = split_chunks(data, timestamp, bound);
    assert forall|i: int, j: int| 0 <= i < j < chunks.len() implies chunks[i].name
        != chunks[j].name by {
        if chunks[i].name == chunks[j].name {
            lemma_chunk_names_distinct(timestamp, (i + 1) as nat, (j + 1) as nat);
        }
    }
}

/// Splitting an envelope and reassembling its chunks by the manifest gives
/// the envelope back, whatever its length and the bound.
pub proof fn lemma_split_then_reassemble(data: Seq<u8>, timestamp: Seq<char>, bound: nat)
    requires
        bound > 0,
    ensures
        reassemble_spec(
            split_manifest(data, timestamp, bound),
            split_chunks(data, timestamp, bound),
        ) == Ok::<Seq<u8>, Failure>(data),
{
    let chunks = split_chunks(data, timestamp, bound);
    let entries = chunk_infos(chunks);
    lemma_split_names_distinct(data, timestamp, bound);
    lemma_gather_in_order(entries, chunks, chunks.len() as int);
    assert(entries.take(chunks.len() as int) =~= entries);
    assert(chunks.take(chunks.len() as int) =~= chunks);
    lemma_split_covers(data, timestamp, bound);
}

/// Where a chunk that the manifest lists is missing, reassembling fails with
/// `MissingChunk`, and the chunk it names is one that is listed and missing:
/// no bytes are returned.
pub proof fn lemma_missing_chunk_aborts(manifest: ManifestView, store: Seq<ChunkView>, index: int)
    requires
        0 <= index < manifest.chunks.len(),
        find_chunk(store, manifest.chunks[index].name) is None,
    ensures
        reassemble_spec(manifest, store) matches Err(Failure::MissingChunk { name }) && find_chunk(
            store,
            name,
        ) is None && exists|j: int|
            0 <= j <= index && #[trigger] manifest.chunks[j].name == name,
    decreases index,
{
    let entries = manifest.chunks;
    if exists|j: int| 0 <= j < index && find_chunk(store, #[trigger] entries[j].name) is None {
        let j = choose|j: int| 0 <= j < index && find_chunk(store, #[trigger] entries[j].name) is None;
        lemma_missing_chunk_aborts(manifest, store, j);
    } else {
        lemma_gather_reports_first_missing(entries, store, index);
    }
}

/// After a split, taking any one chunk away makes reassembling fail with
/// `MissingChunk`, which names that chunk.
pub proof fn lemma_deleted_chunk_is_missed(
    data: Seq<u8>,
    timestamp: Seq<char>,
    bound: nat,
    index: int,
)
    requires
        bound > 0,
        0 <= index < split_chunks(data, timestamp, bound).len(),
    ensures
        reassemble_spec(
            split_manifest(data, timestamp, bound),
            split_chunks(data, timestamp, bound).remove(index),
        ) == Err::<Seq<u8>, Failure>(
            Failure::MissingChunk { name: split_chunks(data, timestamp, bound)[index].name },
        ),
{
    let chunks = split_chunks(data, timestamp, bound);
    let entries = chunk_infos(chunks);
    let store = chunks.remove(index);
    lemma_split_names_distinct(data, timestamp, bound);
    assert forall|i: int, j: int| 0 <= i < j < store.len() implies store[i].name
        != store[j].name by {
        let a = if i < index { i } else { i + 1 };
        let b = if j < index { j } else { j + 1 };
        assert(store[i] == chunks[a]);
        assert(store[j] == chunks[b]);
    }
    assert forall|j: int| 0 <= j < index implies find_chunk(store, #[trigger] entries[j].name)
        is Some by {
        assert(store[j] == chunks[j]);
        lemma_find_own(store, j);
    }
    assert forall|i: int| 0 <= i < store.len() implies (#[trigger] store[i]).name
        != entries[index].name by {
        let a = if i < index { i } else { i + 1 };
        assert(store[i] == chunks[a]);
        if a < index {
            assert(chunks[a].name != chunks[index].name);
        } else {
            assert(chunks[index].name != chunks[a].name);
        }
    }
    lemma_find_none(store, entries[index].name);
    lemma_gather_reports_first_missing(entries, store, index);
}

/// Where every listed chunk is at hand but the joined bytes do not have the
/// digest that the manifest records, reassembling fails with
/// `IntegrityMismatch`, which carries both digests: no bytes are returned.
pub proof fn lemma_digest_mismatch_aborts(manifest: ManifestView, store: Seq<ChunkView>)
    requires
        gather(manifest.chunks, store) is Ok,
        hex_lower(sha256(gather(manifest.chunks, store)->Ok_0)) != manifest.sha256,
    ensures
        reassemble_spec(manifest, store) == Err::<Seq<u8>, Failure>(
            Failure::IntegrityMismatch {
                expected: manifest.sha256,
                actual: hex_lower(sha256(gather(manifest.chunks, store)->Ok_0)),
            },
        ),
{
}

/// After a split, putting other bytes in the place of any one chunk makes
/// reassembling fail with `IntegrityMismatch`, unless the bytes so joined
/// have the very SHA-256 digest of the envelope.
pub proof fn lemma_changed_chunk_is_detected(
    data: Seq<u8>,
    timestamp: Seq<char>,
    bound: nat,
    index: int,
    changed: Seq<u8>,
)
    requires
        bound > 0,
        0 <= index < split_chunks(data, timestamp, bound).len(),
        sha256(
            concat_chunks(
                split_chunks(data, timestamp, bound).update(
                    index,
                    ChunkView {
                        name: split_chunks(data, timestamp, bound)[index].name,
                        data: changed,
                    },
                ),
            ),
        ) != sha256(data),
    ensures
        reassemble_spec(
            split_manifest(data, timestamp, bound),
            split_chunks(data, timestamp, bound).update(
                index,
                ChunkView { name: split_chunks(data, timestamp, bound)[index].name, data: changed },
            ),
        ) matches Err(Failure::IntegrityMismatch { expected, actual }) && expected == hex_lower(
            sha256(data),
        ) && actual != expected,
{
    let chunks = split_chunks(data, timestamp, bound);
    let entries = chunk_infos(chunks);
    let store = chunks.update(index, ChunkView { name: chunks[index].name, data: changed });
    lemma_split_names_distinct(data, timestamp, bound);
    assert forall|i: int, j: int| 0 <= i < j < store.len() implies store[i].name
        != store[j].name by {
        assert(store[i].name == chunks[i].name);
        assert(store[j].name == chunks[j].name);
    }
    assert forall|i: int| 0 <= i < store.len() implies (#[trigger] entries[i]).name
        == store[i].name by {
        assert(store[i].name == chunks[i].name);
    }
    lemma_gather_in_order(entries, store, store.len() as int);
    assert(entries.take(store.len() as int) =~= entries);
    assert(store.take(store.len() as int) =~= store);
    let joined = concat_chunks(store);
    if hex_lower(sha256(joined)) == hex_lower(sha256(data)) {
        lemma_hex_injective(sha256(joined), sha256(data));
    }
}

/// A chunk of another name, wherever it stands among the chunks at hand,
/// does not change what is found under a name.
pub proof fn lemma_find_skips_other_names(
    store: Seq<ChunkView>,
    at: int,
    other: ChunkView,
    name: Seq<char>,
)
    requires
        0 <= at <= store.len(),
        other.name != name,
    ensures
        find_chunk(store.insert(at, other), name) == find_chunk(store, name),
    decreases store.len(),
{
    let with_other = store.insert(at, other);
    if at == 0 {
        assert(with_other.first() == other);
        assert(with_other.drop_first() =~= store);
    } else {
        assert(with_other.first() == store.first());
        assert(with_other.drop_first() =~= store.drop_first().insert(at - 1, other));
        lemma_find_skips_other_names(store.drop_first(), at - 1, other, name);
    }
}

/// A chunk that the manifest does not list is an orphan: wherever it stands
/// among the chunks at hand, reassembling gives what it gives without it.
pub proof fn lemma_orphans_are_ignored(
    manifest: ManifestView,
    store: Seq<ChunkView>,
    at: int,
    orphan: ChunkView,
)
    requires
        0 <= at <= store.len(),
        forall|i: int| 0 <= i < manifest.chunks.len() ==> (#[trigger] manifest.chunks[i]).name
            != orphan.name,
    ensures
        reassemble_spec(manifest, store.insert(at, orphan)) == reassemble_spec(manifest, store),
{
    lemma_gather_skips_orphan(manifest.chunks, store, at, orphan);
}

/// Gathering the listed chunks does not look at a chunk that is not listed.
pub proof fn lemma_gather_skips_orphan(
    entries: Seq<ChunkInfoView>,
    store: Seq<ChunkView>,
    at: int,
    orphan: ChunkView,
)
    requires
        0 <= at <= store.len(),
        forall|i: int| 0 <= i < entries.len() ==> (#[trigger] entries[i]).name != orphan.name,
    ensures
        gather(entries, store.insert(at, orphan)) == gather(entries, store),
    decreases entries.len(),
{
    if entries.len() > 0 {
        let rest = entries.drop_last();
        assert forall|i: int| 0 <= i < rest.len() implies (#[trigger] rest[i]).name
            != orphan.name by {
            assert(rest[i] == entries[i]);
        }
        lemma_gather_skips_orphan(rest, store, at, orphan);
        assert(entries.last() == entries[entries.len() - 1]);
        lemma_find_skips_other_names(store, at, orphan, entries.last().name);
    }
}

/// Looks a chunk up by its name among the chunks at hand.
pub fn locate<'a>(store: &'a Vec<Chunk>, name: &String) -> (found: Option<&'a Chunk>)
    ensures
        match found {
            Some(chunk) => find_chunk(chunks_view(store@), name@) == Some(chunk.data@),
            None => find_chunk(chunks_view(store@), name@) is None,
        },
{
    let ghost all = chunks_view(store@);
    let mut i: usize = 0;
    assert(all.skip(0) =~= all);
    while i < store.len()
        invariant
            i <= store@.len(),
            all == chunks_view(store@),
            find_chunk(all, name@) == find_chunk(all.skip(i as int), name@),
        decreases store@.len() - i,
    {
        proof {
            assert(all.skip(i as int).first() == store@[i as int]@);
            assert(all.skip(i as int).drop_first() =~= all.skip(i + 1));
        }
        if store[i].name == *name {
            return Some(&store[i]);
        }
        i += 1;
    }
    assert(all.skip(i as int) =~= Seq::<ChunkView>::empty());
    None
}

/// Holds the digest of the joined chunks against the one that the manifest
/// records, letter for letter.
pub fn check_digest(expected: &String, digest: &[u8]) -> (res: Result<(), BackupError>)
    ensures
        match res {
            Ok(_) => hex_lower(digest@) == expected@,
            Err(e) => hex_lower(digest@) != expected@ && e@ == (Failure::IntegrityMismatch {
                expected: expected@,
                actual: hex_lower(digest@),
            }),
        },
{
    let actual = to_hex(digest);
    if actual == *expected {
        Ok(())
    } else {
        Err(BackupError::IntegrityMismatch { expected: expected.clone(), actual })
    }
}

/// Joins the chunks that the manifest lists, in the manifest's order, and
/// verifies the digest of the whole against the one that the manifest
/// records. Chunks that the manifest does not list are not looked at. The
/// first listed chunk that is missing ends the work with `MissingChunk`; a
/// digest other than the recorded one, with `IntegrityMismatch`.
pub fn reassemble_chunks(manifest: &Manifest, store: &Vec<Chunk>) -> (res: Result<
    Vec<u8>,
    BackupError,
>)
    ensures
        bytes_outcome(res) == reassemble_spec(manifest@, chunks_view(store@)),
{
    let ghost entries = manifest@.chunks;
    let ghost all = chunks_view(store@);
    let mut joined: Vec<u8> = Vec::new();
    let mut i: usize = 0;
    while i < manifest.chunks.len()
        invariant
            i <= manifest.chunks@.len(),
            entries == manifest@.chunks,
            all == chunks_view(store@),
            gather(entries.take(i as int), all) == Ok::<Seq<u8>, Seq<char>>(joined@),
        decreases manifest.chunks@.len() - i,
    {
        let entry = &manifest.chunks[i];
        proof {
            assert(entries.take(i + 1).drop_last() =~= entries.take(i as int));
            assert(entries.take(i + 1).last() == entry@);
        }
        match locate(store, &entry.name) {
            Some(chunk) => {
                append_bytes(&mut joined, chunk.data.as_slice());
            },
            None => {
                proof {
                    lemma_gather_stops(entries, all, i + 1);
                }
                return Err(BackupError::MissingChunk { name: entry.name.clone() });
            },
        }
        i += 1;
    }
    assert(entries.take(i as int) =~= entries);
    let digest = sha256_digest(joined.as_slice());
    match check_digest(&manifest.sha256, digest.as_slice()) {
        Ok(_) => Ok(joined),
        Err(e) => Err(e),
    }
}

/// What a backup is restored from: the envelope itself, or the manifest of
/// its chunks with the chunks at hand.
#[derive(Debug, PartialEq, Eq)]
pub enum BackupSource {
    Whole { envelope: Vec<u8> },
    Chunked { manifest: Manifest, chunks: Vec<Chunk> },
}

/// The source of a restore as contracts speak of it.
pub enum BackupSourceView {
    Whole { envelope: Seq<u8> },
    Chunked { manifest: ManifestView, chunks: Seq<ChunkView> },
}

impl View for BackupSource {
    type V = BackupSourceView;

    open spec fn view(&self) -> BackupSourceView {
        match self {
            BackupSource::Whole { envelope } => BackupSourceView::Whole { envelope: envelope@ },
            BackupSource::Chunked { manifest, chunks } => BackupSourceView::Chunked {
                manifest: manifest@,
                chunks: chunks_view(chunks@),
            },
        }
    }
}

/// What restoring gives: chunks are reassembled and verified first, and only
/// an envelope that passed is decrypted.
pub open spec fn restore_spec(source: BackupSourceView, passphrase: Seq<u8>) -> Result<
    Seq<u8>,
    Failure,
> {
    match source {
        BackupSourceView::Whole { envelope } => decrypt_spec(envelope, passphrase),
        BackupSourceView::Chunked { manifest, chunks } => match reassemble_spec(manifest, chunks) {
            Ok(envelope) => decrypt_spec(envelope, passphrase),
            Err(e) => Err(e),
        },
    }
}

/// Restores the archive of a backup: reassembles and verifies the chunks
/// where the backup is chunked, then decrypts the envelope. Any failure ends
/// the work, and no bytes are returned beside it.
pub fn restore_backup(source: &BackupSource, passphrase: &str) -> (res: Result<
    Vec<u8>,
    BackupError,
>)
    ensures
        bytes_outcome(res) == restore_spec(source@, passphrase.spec_bytes()),
{
    match source {
        BackupSource::Whole { envelope } => decrypt(envelope.as_slice(), passphrase),
        BackupSource::Chunked { manifest, chunks } => match reassemble_chunks(manifest, chunks) {
            Ok(envelope) => decrypt(envelope.as_slice(), passphrase),
            Err(e) => Err(e),
        },
    }
}

/// An archive that was encrypted, whether its envelope was then kept whole
/// or split with any bound, is restored with the same passphrase. With any
/// other passphrase the chunks of a split envelope still reassemble, and the
/// outcome is that of decrypting the envelope.
pub proof fn lemma_backup_then_restore(
    archive: Seq<u8>,
    passphrase: Seq<u8>,
    salt: Seq<u8>,
    nonce: Seq<u8>,
    timestamp: Seq<char>,
    bound: nat,
    other: Seq<u8>,
)
    requires
        bound > 0,
        salt.len() == SALT_SIZE,
        nonce.len() == NONCE_SIZE,
        encrypt_spec(archive, passphrase, salt, nonce) is Ok,
    ensures
        ({
            let envelope = encrypt_spec(archive, passphrase, salt, nonce)->Ok_0;
            let chunked = BackupSourceView::Chunked {
                manifest: split_manifest(envelope, timestamp, bound),
                chunks: split_chunks(envelope, timestamp, bound),
            };
            &&& restore_spec(BackupSourceView::Whole { envelope }, passphrase) == Ok::<
                Seq<u8>,
                Failure,
            >(archive)
            &&& restore_spec(chunked, passphrase) == Ok::<Seq<u8>, Failure>(archive)
            &&& restore_spec(chunked, other) == decrypt_spec(envelope, other)
        }),
{
    let envelope = encrypt_spec(archive, passphrase, salt, nonce)->Ok_0;
    lemma_decrypt_inverts_encrypt(archive, passphrase, salt, nonce);
    lemma_split_then_reassemble(envelope, timestamp, bound);
}

} // verus!
