//! Making a backup: the envelope of an archive, and the chunker, which
//! splits an envelope into pieces of bounded size and writes the manifest
//! that records their order and the digest of the whole.

use crate::config::Config;
use crate::crypto::{decrypt_spec, encrypt, encrypt_spec, NONCE_SIZE, SALT_SIZE};
use crate::error::{BackupError, Failure};
use crate::hash::{sha256, sha256_digest};
use crate::hex::{hex_lower, to_hex};
use crate::names::{chunk_name, chunk_name_text, envelope_name, envelope_name_text};
use vstd::prelude::*;
use vstd::string::StringSliceAdditionalSpecFns;

verus! {

/// The bound on a chunk's size that backups are split with, in bytes.
pub const CHUNK_SIZE: u64 = 90_000_000;

/// The version that manifests are written with.
pub const MANIFEST_VERSION: u8 = 1;

/// One chunk as a manifest lists it.
#[derive(Debug, PartialEq, Eq)]
pub struct ChunkInfo {
    /// The name under which the chunk is stored.
    pub name: String,
    /// The number of bytes in the chunk.
    pub size: u64,
}

/// A manifest entry as contracts speak of it.
pub struct ChunkInfoView {
    pub name: Seq<char>,
    pub size: nat,
}

impl View for ChunkInfo {
    type V = ChunkInfoView;

    open spec fn view(&self) -> ChunkInfoView {
        ChunkInfoView { name: self.name@, size: self.size as nat }
    }
}

/// The record of one split: which chunks make up the envelope, in which
/// order, and the digest of the envelope before it was split.
#[derive(Debug, PartialEq, Eq)]
pub struct Manifest {
    pub version: u8,
    /// The timestamp of the session, which also names the chunks.
    pub timestamp: String,
    /// The length of the envelope.
    pub original_size: u64,
    /// The bound that the envelope was split with.
    pub chunk_size: u64,
    /// The chunks in the order in which their bytes follow each other.
    pub chunks: Vec<ChunkInfo>,
    /// The SHA-256 digest of the envelope, in lower-case hexadecimal.
    pub sha256: String,
}

/// A manifest as contracts speak of it.
pub struct ManifestView {
    pub version: nat,
    pub timestamp: Seq<char>,
    pub original_size: nat,
    pub chunk_size: nat,
    pub chunks: Seq<ChunkInfoView>,
    pub sha256: Seq<char>,
}

impl ManifestView {
    /// A manifest is consistent where the sizes that it lists add up to the
    /// length of the envelope that it records.
    pub open spec fn is_consistent(self) -> bool {
        total_size(self.chunks) == self.original_size
    }
}

/// The entries of a manifest, each by its view.
pub open spec fn infos_view(infos: Seq<ChunkInfo>) -> Seq<ChunkInfoView> {
    Seq::new(infos.len(), |i: int| infos[i]@)
}

impl View for Manifest {
    type V = ManifestView;

    open spec fn view(&self) -> ManifestView {
        ManifestView {
            version: self.version as nat,
            timestamp: self.timestamp@,
            original_size: self.original_size as nat,
            chunk_size: self.chunk_size as nat,
            chunks: infos_view(self.chunks@),
            sha256: self.sha256@,
        }
    }
}

/// One chunk: its name and its bytes.
#[derive(Debug, PartialEq, Eq)]
pub struct Chunk {
    pub name: String,
    pub data: Vec<u8>,
}

/// A chunk as contracts speak of it.
pub struct ChunkView {
    pub name: Seq<char>,
    pub data: Seq<u8>,
}

impl View for Chunk {
    type V = ChunkView;

    open spec fn view(&self) -> ChunkView {
        ChunkView { name: self.name@, data: self.data@ }
    }
}

/// A list of chunks, each by its view.
pub open spec fn chunks_view(chunks: Seq<Chunk>) -> Seq<ChunkView> {
    Seq::new(chunks.len(), |i: int| chunks[i]@)
}

/// The number of chunks that `total` bytes are split into with the bound
/// `bound`: `total / bound`, rounded up.
pub open spec fn chunk_count(total: nat, bound: nat) -> nat {
    ((total + bound - 1) / (bound as int)) as nat
}

/// Where the chunk with the given index ends in the envelope: a bound further
/// than it starts, or at the end of the envelope where fewer bytes are left.
pub open spec fn chunk_end(total: nat, bound: nat, index: nat) -> nat {
    if (index + 1) * bound <= total {
        (index + 1) * bound
    } else {
        total
    }
}

/// The bytes of the chunk with the given index, counted from zero.
pub open spec fn chunk_data(data: Seq<u8>, bound: nat, index: nat) -> Seq<u8> {
    data.subrange((index * bound) as int, chunk_end(data.len(), bound, index) as int)
}

/// The chunks that an envelope is split into: pieces of `bound` bytes in the
/// order of the envelope, the last one with what is left, each under the name
/// of the session and its ordinal, counted from one.
pub open spec fn split_chunks(data: Seq<u8>, timestamp: Seq<char>, bound: nat) -> Seq<ChunkView> {
    Seq::new(
        chunk_count(data.len(), bound),
        |i: int|
            ChunkView {
                name: chunk_name_text(timestamp, (i + 1) as nat),
                data: chunk_data(data, bound, i as nat),
            },
    )
}

/// The manifest entries for a list of chunks, in the same order.
pub open spec fn chunk_infos(chunks: Seq<ChunkView>) -> Seq<ChunkInfoView> {
    Seq::new(
        chunks.len(),
        |i: int| ChunkInfoView { name: chunks[i].name, size: chunks[i].data.len() },
    )
}

/// The manifest of a split: the digest is that of the whole envelope.
pub open spec fn split_manifest(data: Seq<u8>, timestamp: Seq<char>, bound: nat) -> ManifestView {
    ManifestView {
        version: MANIFEST_VERSION as nat,
        timestamp,
        original_size: data.len(),
        chunk_size: bound,
        chunks: chunk_infos(split_chunks(data, timestamp, bound)),
        sha256: hex_lower(sha256(data)),
    }
}

/// The sizes that a manifest lists, added up.
pub open spec fn total_size(infos: Seq<ChunkInfoView>) -> nat
    decreases infos.len(),
{
    if infos.len() == 0 {
        0
    } else {
        total_size(infos.drop_last()) + infos.last().size
    }
}

/// The bytes of a list of chunks, one chunk after the other.
pub open spec fn concat_chunks(chunks: Seq<ChunkView>) -> Seq<u8>
    decreases chunks.len(),
{
    if chunks.len() == 0 {
        Seq::empty()
    } else {
        concat_chunks(chunks.drop_last()) + chunks.last().data
    }
}

/// An index is that of a chunk exactly where the chunk starts before the end
/// of the envelope.
pub proof fn lemma_chunk_index(total: nat, bound: nat, index: nat)
    requires
        bound > 0,
    ensures
        index < chunk_count(total, bound) <==> index * bound < total,
{
    let x = (total + bound - 1) as int;
    let d = bound as int;
    let q = x / d;
    vstd::arithmetic::div_mod::lemma_fundamental_div_mod(x, d);
    vstd::arithmetic::div_mod::lemma_mod_pos_bound(x, d);
    assert(x == d * q + x % d);
    if (index as int) < q {
        assert(index * d <= (q - 1) * d) by (nonlinear_arith)
            requires
                index <= q - 1,
                d > 0,
        ;
        assert((q - 1) * d == d * q - d) by (nonlinear_arith);
    } else {
        assert(index * d >= q * d) by (nonlinear_arith)
            requires
                index >= q,
                d > 0,
        ;
        assert(q * d == d * q) by (nonlinear_arith);
    }
}

/// The number of chunks is the length of the envelope divided by the bound,
/// rounded up: that many chunks of `bound` bytes hold the envelope, and one
/// fewer do not.
pub proof fn lemma_chunk_count_is_ceiling(total: nat, bound: nat)
    requires
        bound > 0,
    ensures
        chunk_count(total, bound) * bound >= total,
        total > 0 ==> (chunk_count(total, bound) - 1) * bound < total,
        total == 0 ==> chunk_count(total, bound) == 0,
{
    let count = chunk_count(total, bound);
    lemma_chunk_index(total, bound, count);
    if total > 0 {
        lemma_chunk_index(total, bound, 0);
        assert(0 * bound == 0) by (nonlinear_arith);
        lemma_chunk_index(total, bound, (count - 1) as nat);
    } else {
        lemma_chunk_index(total, bound, 0);
        assert(0 * bound == 0) by (nonlinear_arith);
    }
}

/// Every chunk of a split but the last holds exactly `bound` bytes; the last
/// one holds what is left, at least one byte and at most `bound`. The
/// manifest lists each chunk with its size.
pub proof fn lemma_chunk_sizes(data: Seq<u8>, timestamp: Seq<char>, bound: nat, index: int)
    requires
        bound > 0,
        0 <= index < split_chunks(data, timestamp, bound).len(),
    ensures
        split_chunks(data, timestamp, bound).len() == chunk_count(data.len(), bound),
        split_manifest(data, timestamp, bound).chunks.len() == chunk_count(data.len(), bound),
        split_manifest(data, timestamp, bound).chunks[index].size == split_chunks(
            data,
            timestamp,
            bound,
        )[index].data.len(),
        index + 1 < chunk_count(data.len(), bound) ==> split_chunks(
            data,
            timestamp,
            bound,
        )[index].data.len() == bound,
        index + 1 == chunk_count(data.len(), bound) ==> 0 < split_chunks(
            data,
            timestamp,
            bound,
        )[index].data.len() <= bound,
        index + 1 == chunk_count(data.len(), bound) ==> split_chunks(
            data,
            timestamp,
            bound,
        )[index].data.len() == data.len() - index * bound,
{
    let total = data.len();
    lemma_chunk_index(total, bound, index as nat);
    lemma_chunk_index(total, bound, (index + 1) as nat);
    assert((index + 1) * bound == index * bound + bound) by (nonlinear_arith);
}

/// The first `count` chunks of a split hold the envelope up to where the
/// last of them ends, and their sizes add up to that length.
pub proof fn lemma_split_prefix(data: Seq<u8>, timestamp: Seq<char>, bound: nat, count: nat)
    requires
        bound > 0,
        count <= chunk_count(data.len(), bound),
    ensures
        concat_chunks(split_chunks(data, timestamp, bound).take(count as int)) == data.subrange(
            0,
            if count * bound <= data.len() {
                (count * bound) as int
            } else {
                data.len() as int
            },
        ),
        total_size(chunk_infos(split_chunks(data, timestamp, bound)).take(count as int)) == if count
            * bound <= data.len() {
            count * bound
        } else {
            data.len()
        },
    decreases count,
{
    let all = split_chunks(data, timestamp, bound);
    let infos = chunk_infos(all);
    let head = all.take(count as int);
    let head_infos = infos.take(count as int);
    if count == 0 {
        assert(head =~= Seq::<ChunkView>::empty());
        assert(head_infos =~= Seq::<ChunkInfoView>::empty());
        assert(0 * bound == 0) by (nonlinear_arith);
        assert(concat_chunks(head) =~= data.subrange(0, 0));
    } else {
        let before = (count - 1) as nat;
        lemma_split_prefix(data, timestamp, bound, before);
        lemma_chunk_index(data.len(), bound, before);
        assert(count * bound == before * bound + bound) by (nonlinear_arith)
            requires
                count == before + 1,
        ;
        assert(head.drop_last() =~= all.take(before as int));
        assert(head_infos.drop_last() =~= infos.take(before as int));
        assert(head.last().data == chunk_data(data, bound, before));
        assert(head_infos.last().size == chunk_data(data, bound, before).len());
        let end = chunk_end(data.len(), bound, before);
        assert(concat_chunks(head) =~= data.subrange(0, end as int));
    }
}

/// Joined in their order, the chunks of a split are the envelope again.
pub proof fn lemma_split_covers(data: Seq<u8>, timestamp: Seq<char>, bound: nat)
    requires
        bound > 0,
    ensures
        concat_chunks(split_chunks(data, timestamp, bound)) == data,
{
    let count = chunk_count(data.len(), bound);
    let all = split_chunks(data, timestamp, bound);
    lemma_split_prefix(data, timestamp, bound, count);
    lemma_chunk_index(data.len(), bound, count);
    assert(all.take(count as int) =~= all);
    assert(data.subrange(0, data.len() as int) =~= data);
}

/// The sizes that the manifest of a split lists add up to the length of the
/// envelope.
pub proof fn lemma_manifest_sizes_add_up(data: Seq<u8>, timestamp: Seq<char>, bound: nat)
    requires
        bound > 0,
    ensures
        split_manifest(data, timestamp, bound).is_consistent(),
{
    let count = chunk_count(data.len(), bound);
    let infos = chunk_infos(split_chunks(data, timestamp, bound));
    lemma_split_prefix(data, timestamp, bound, count);
    lemma_chunk_index(data.len(), bound, count);
    assert(infos.take(count as int) =~= infos);
}

/// The SHA-256 digest of `data`, in lower-case hexadecimal.
pub fn compute_sha256(data: &[u8]) -> (text: String)
    ensures
        text@ == hex_lower(sha256(data@)),
{
    let digest = sha256_digest(data);
    to_hex(digest.as_slice())
}

/// Splits an envelope into chunks of at most `bound` bytes and writes their
/// manifest. The digest is taken of the whole envelope. Every chunk but the
/// last holds exactly `bound` bytes; an empty envelope has no chunks.
pub fn split_into_chunks(data: &[u8], timestamp: &str, bound: u64) -> (res: (Vec<Chunk>, Manifest))
    requires
        bound > 0,
    ensures
        chunks_view(res.0@) == split_chunks(data@, timestamp@, bound as nat),
        res.1@ == split_manifest(data@, timestamp@, bound as nat),
        res.1@.is_consistent(),
{
    let total: usize = data.len();
    let sha256 = compute_sha256(data);
    let mut chunks: Vec<Chunk> = Vec::new();
    let mut infos: Vec<ChunkInfo> = Vec::new();
    let mut offset: usize = 0;
    let mut index: u64 = 0;
    let ghost target = split_chunks(data@, timestamp@, bound as nat);
    while offset < total
        invariant
            bound > 0,
            total == data@.len(),
            target == split_chunks(data@, timestamp@, bound as nat),
            offset <= total,
            index <= chunk_count(total as nat, bound as nat),
            offset < total ==> offset == index * bound,
            offset == total ==> index * bound >= total,
            chunks@.len() == index,
            infos@.len() == index,
            forall|k: int| 0 <= k < index ==> (#[trigger] chunks@[k])@ == target[k],
            forall|k: int| 0 <= k < index ==> (#[trigger] infos@[k])@ == chunk_infos(target)[k],
        decreases total - offset,
    {
        let remaining: usize = total - offset;
        let len: usize = if bound >= remaining as u64 {
            remaining
        } else {
            bound as usize
        };
        proof {
            lemma_chunk_index(total as nat, bound as nat, index as nat);
            lemma_chunk_index(total as nat, bound as nat, (index + 1) as nat);
            assert((index + 1) * bound == index * bound + bound) by (nonlinear_arith);
            assert(index <= index * bound) by (nonlinear_arith)
                requires
                    bound >= 1,
            ;
        }
        let piece = vstd::slice::slice_to_vec(
            vstd::slice::slice_subrange(data, offset, offset + len),
        );
        assert(piece@ == chunk_data(data@, bound as nat, index as nat));
        let name = chunk_name(timestamp, index + 1);
        infos.push(ChunkInfo { name: name.clone(), size: len as u64 });
        chunks.push(Chunk { name, data: piece });
        offset += len;
        index += 1;
    }
    proof {
        lemma_chunk_index(total as nat, bound as nat, index as nat);
        assert(chunks_view(chunks@) =~= target);
        assert(infos_view(infos@) =~= chunk_infos(target));
        lemma_manifest_sizes_add_up(data@, timestamp@, bound as nat);
    }
    let manifest = Manifest {
        version: MANIFEST_VERSION,
        timestamp: String::from_str(timestamp),
        original_size: total as u64,
        chunk_size: bound,
        chunks: infos,
        sha256,
    };
    (chunks, manifest)
}

/// The form in which an envelope goes to the remote store, which takes no
/// file above a size of its own.
#[derive(Debug, PartialEq, Eq)]
pub enum Upload {
    /// The envelope as it is.
    Whole,
    /// The chunks of the envelope and their manifest.
    Chunked { chunks: Vec<Chunk>, manifest: Manifest },
}

/// The form of an upload as contracts speak of it.
pub enum UploadView {
    Whole,
    Chunked { chunks: Seq<ChunkView>, manifest: ManifestView },
}

impl View for Upload {
    type V = UploadView;

    open spec fn view(&self) -> UploadView {
        match self {
            Upload::Whole => UploadView::Whole,
            Upload::Chunked { chunks, manifest } => UploadView::Chunked {
                chunks: chunks_view(chunks@),
                manifest: manifest@,
            },
        }
    }
}

/// An envelope goes out whole where it is not longer than the bound, and
/// split with that bound where it is.
pub open spec fn upload_spec(envelope: Seq<u8>, timestamp: Seq<char>, bound: nat) -> UploadView {
    if envelope.len() > bound {
        UploadView::Chunked {
            chunks: split_chunks(envelope, timestamp, bound),
            manifest: split_manifest(envelope, timestamp, bound),
        }
    } else {
        UploadView::Whole
    }
}

/// The message of the commit that publishes the backup of a session.
pub open spec fn commit_message_text(timestamp: Seq<char>) -> Seq<char> {
    "Backup "@ + timestamp
}

/// Decides in which form an envelope goes to the remote store.
pub fn plan_upload(envelope: &[u8], timestamp: &str, bound: u64) -> (upload: Upload)
    requires
        bound > 0,
    ensures
        upload@ == upload_spec(envelope@, timestamp@, bound as nat),
{
    if envelope.len() as u64 > bound {
        let (chunks, manifest) = split_into_chunks(envelope, timestamp, bound);
        Upload::Chunked { chunks, manifest }
    } else {
        Upload::Whole
    }
}

/// One backup, ready to be stored: the envelope under its name, the form in
/// which it goes to the remote store, where there is one, and the message of
/// its commit.
#[derive(Debug, PartialEq, Eq)]
pub struct Backup {
    pub name: String,
    pub envelope: Vec<u8>,
    pub upload: Option<Upload>,
    pub commit_message: String,
}

/// The form in which an envelope goes to the remote store, where there is
/// one.
pub open spec fn remote_form(
    envelope: Seq<u8>,
    timestamp: Seq<char>,
    bound: nat,
    publish: bool,
) -> Option<UploadView> {
    if publish {
        Some(upload_spec(envelope, timestamp, bound))
    } else {
        None
    }
}

/// What an optional upload says, in the terms of contracts.
pub open spec fn upload_view(upload: Option<Upload>) -> Option<UploadView> {
    match upload {
        Some(form) => Some(form@),
        None => None,
    }
}

/// Makes the backup of an archive: encrypts it under the passphrase and,
/// where the backup is to be published, decides in which form the envelope
/// goes to the remote store. Nothing is made before the tool is set up. The
/// envelope decrypts to the archive.
pub fn run_backup(
    config: &Config,
    archive: &[u8],
    passphrase: &str,
    timestamp: &str,
    bound: u64,
    publish: bool,
) -> (res: Result<Backup, BackupError>)
    requires
        bound > 0,
    ensures
        !config.initialized ==> res == Err::<Backup, BackupError>(BackupError::NotInitialized),
        config.initialized ==> exists|salt: Seq<u8>, nonce: Seq<u8>|
            salt.len() == SALT_SIZE && nonce.len() == NONCE_SIZE && match res {
                Ok(backup) => #[trigger] encrypt_spec(
                    archive@,
                    passphrase.spec_bytes(),
                    salt,
                    nonce,
                ) == Ok::<Seq<u8>, Failure>(backup.envelope@),
                Err(e) => encrypt_spec(archive@, passphrase.spec_bytes(), salt, nonce) == Err::<
                    Seq<u8>,
                    Failure,
                >(e@),
            },
        res matches Ok(backup) ==> {
            &&& decrypt_spec(backup.envelope@, passphrase.spec_bytes()) == Ok::<Seq<u8>, Failure>(
                archive@,
            )
            &&& backup.name@ == envelope_name_text(timestamp@)
            &&& upload_view(backup.upload) == remote_form(
                backup.envelope@,
                timestamp@,
                bound as nat,
                publish,
            )
            &&& backup.commit_message@ == commit_message_text(timestamp@)
        },
{
    if let Err(e) = config.require_initialized() {
        return Err(e);
    }
    match encrypt(archive, passphrase) {
        Ok(envelope) => {
            let upload = if publish {
                Some(plan_upload(envelope.as_slice(), timestamp, bound))
            } else {
                None
            };
            let mut commit_message = String::from_str("Backup ");
            commit_message.append(timestamp);
            Ok(Backup { name: envelope_name(timestamp), envelope, upload, commit_message })
        },
        Err(e) => Err(e),
    }
}

} // verus!
