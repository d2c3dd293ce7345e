//! The memory-filling workers, key derivation and the hashing entry point.
use crate::digest::{append_bytes, le_bytes, le_bytes_u64, sha256, sha256_of};
use crate::encryption::{encrypt_phrase, opens_to_phrase, sealed_phrase};
use crate::storage::{RecordModel, SinkproofHash};
use rand::RngCore;
use rayon::iter::{IntoParallelIterator, ParallelIterator};
use vstd::prelude::*;
use vstd::string::StringSliceAdditionalSpecFns;

verus! {

/// Bytes in one digest produced by a worker.
pub const THREAD_DIGEST_LEN: usize = 512;

/// The first chained value of a worker: the digest of the password, the
/// salt and the worker's index.
pub open spec fn seed_digest(password: Seq<u8>, salt: Seq<u8>, index: nat) -> Seq<u8> {
    sha256_of(password + salt + le_bytes(index, 8))
}

/// `h` with each byte XOR-ed with the byte of `prev` at the same position
/// modulo 32.
pub open spec fn mix_with(h: Seq<u8>, prev: Seq<u8>) -> Seq<u8> {
    Seq::new(h.len(), |j: int| h[j] ^ prev[j % 32])
}

/// `s` rotated left by `k` positions.
pub open spec fn rotate_left(s: Seq<u8>, k: int) -> Seq<u8> {
    s.subrange(k, s.len() as int) + s.subrange(0, k)
}

/// One round of the fill: from the chained value and the table before round
/// `i`, the chained value and the table after it.
pub open spec fn fill_step(current: Seq<u8>, table: Seq<Seq<u8>>, i: nat) -> (Seq<u8>, Seq<Seq<u8>>) {
    let chained = sha256_of(current + le_bytes(i, 8));
    let mixed = if table.len() > 0 {
        mix_with(chained, table[(i % table.len()) as int])
    } else {
        chained
    };
    let rotated = if i % 100 == 0 {
        rotate_left(mixed, (i % 16 + 1) as int)
    } else {
        mixed
    };
    let grown = table.push(rotated);
    let next = if i > 1000 && i % 500 == 0 {
        sha256_of(rotated + grown[((i / 2) % grown.len()) as int])
    } else {
        rotated
    };
    (next, grown)
}

/// The chained value and the table after `rounds` rounds from `seed`.
pub open spec fn fill(seed: Seq<u8>, rounds: nat) -> (Seq<u8>, Seq<Seq<u8>>)
    decreases rounds,
{
    if rounds == 0 {
        (seed, Seq::empty())
    } else {
        let prev = fill(seed, (rounds - 1) as nat);
        fill_step(prev.0, prev.1, (rounds - 1) as nat)
    }
}

/// The concatenation of the byte sequences in `parts`, in order.
pub open spec fn concat_all(parts: Seq<Seq<u8>>) -> Seq<u8>
    decreases parts.len(),
{
    if parts.len() == 0 {
        Seq::empty()
    } else {
        concat_all(parts.drop_last()) + parts.last()
    }
}

/// At most the last sixteen entries of `table`.
pub open spec fn last_entries(table: Seq<Seq<u8>>) -> Seq<Seq<u8>> {
    if table.len() > 16 {
        table.subrange(table.len() - 16, table.len() as int)
    } else {
        table
    }
}

/// `out` extended by copies of `h` until it holds at least 512 bytes.
pub open spec fn pad_with(out: Seq<u8>, h: Seq<u8>) -> Seq<u8>
    decreases 512 - out.len(),
{
    if out.len() >= 512 || h.len() == 0 {
        out
    } else if out.len() + h.len() >= 512 {
        out + h
    } else {
        pad_with(out + h, h)
    }
}

/// The 512-byte digest of the worker with index `index` filling
/// `memory_size` bytes.
pub open spec fn thread_digest(password: Seq<u8>, salt: Seq<u8>, index: nat, memory_size: nat) -> Seq<u8> {
    let end = fill(seed_digest(password, salt, index), memory_size / 32);
    pad_with(concat_all(last_entries(end.1)), end.0).take(512)
}

/// After `rounds` rounds the table holds `rounds` entries.
proof fn lemma_fill_len(seed: Seq<u8>, rounds: nat)
    ensures
        fill(seed, rounds).1.len() == rounds,
    decreases rounds,
{
    if rounds > 0 {
        lemma_fill_len(seed, (rounds - 1) as nat);
    }
}

/// `h` with its bytes XOR-ed in place with those of `prev`.
fn mix_in(h: &mut Vec<u8>, prev: &Vec<u8>)
    requires
        prev@.len() == 32,
    ensures
        final(h)@ == mix_with(old(h)@, prev@),
{
    let ghost orig = h@;
    let mut j: usize = 0;
    while j < h.len()
        invariant
            j <= h@.len(),
            h@.len() == orig.len(),
            prev@.len() == 32,
            forall|t: int| 0 <= t < j ==> h@[t] == orig[t] ^ prev@[t % 32],
            forall|t: int| j <= t < h@.len() ==> h@[t] == orig[t],
        decreases h@.len() - j,
    {
        let x = h[j] ^ prev[j % 32];
        h.set(j, x);
        j = j + 1;
    }
    assert(h@ =~= mix_with(orig, prev@));
}

/// `s` rotated left by `k` positions.
fn rotated_left(s: &Vec<u8>, k: usize) -> (r: Vec<u8>)
    requires
        k <= s@.len(),
    ensures
        r@ == rotate_left(s@, k as int),
{
    let mut out: Vec<u8> = Vec::new();
    let mut j: usize = k;
    while j < s.len()
        invariant
            k <= j <= s@.len(),
            out@ == s@.subrange(k as int, j as int),
        decreases s@.len() - j,
    {
        out.push(s[j]);
        assert(s@.subrange(k as int, j + 1) =~= s@.subrange(k as int, j as int).push(s@[j as int]));
        j = j + 1;
    }
    let ghost front = out@;
    let mut j: usize = 0;
    while j < k
        invariant
            j <= k <= s@.len(),
            out@ == front + s@.subrange(0, j as int),
        decreases k - j,
    {
        out.push(s[j]);
        assert(s@.subrange(0, j + 1) =~= s@.subrange(0, j as int).push(s@[j as int]));
        j = j + 1;
    }
    out
}

/// A fresh copy of `s`.
fn copy_of(s: &Vec<u8>) -> (r: Vec<u8>)
    ensures
        r@ == s@,
{
    let mut out: Vec<u8> = Vec::new();
    append_bytes(&mut out, s.as_slice());
    assert(out@ =~= s@);
    out
}

/// The digest of one worker: the password and salt are hashed with the
/// worker's index, then chained through `memory_size / 32` rounds that fill
/// a table of 32-byte digests; the result is the last sixteen entries of the
/// table, padded with the final chained value to 512 bytes.
pub fn thread_worker(password: &str, salt: &[u8], thread_index: usize, memory_size: usize) -> (r: Vec<u8>)
    ensures
        r@ == thread_digest(password.spec_bytes(), salt@, thread_index as nat, memory_size as nat),
        r@.len() == THREAD_DIGEST_LEN,
{
    let ghost pw = password.spec_bytes();
    let mut seed_input: Vec<u8> = Vec::new();
    append_bytes(&mut seed_input, password.as_bytes());
    append_bytes(&mut seed_input, salt);
    let index_bytes = le_bytes_u64(thread_index as u64);
    append_bytes(&mut seed_input, index_bytes.as_slice());
    let mut current = sha256(seed_input.as_slice());
    let ghost seed = current@;
    assert(seed == seed_digest(pw, salt@, thread_index as nat));

    let iterations = memory_size / 32;
    let mut memory: Vec<Vec<u8>> = Vec::new();
    let mut i: usize = 0;
    while i < iterations
        invariant
            i <= iterations,
            current@ == fill(seed, i as nat).0,
            current@.len() == 32,
            memory@.len() == i,
            fill(seed, i as nat).1.len() == i,
            forall|k: int| 0 <= k < i ==> #[trigger] memory@[k]@ == fill(seed, i as nat).1[k],
            forall|k: int| 0 <= k < i ==> (#[trigger] memory@[k])@.len() == 32,
        decreases iterations - i,
    {
        let ghost table = fill(seed, i as nat).1;
        let mut input = copy_of(&current);
        let round_bytes = le_bytes_u64(i as u64);
        append_bytes(&mut input, round_bytes.as_slice());
        let mut h = sha256(input.as_slice());
        if memory.len() > 0 {
            let prev = i % memory.len();
            mix_in(&mut h, &memory[prev]);
        }
        if i % 100 == 0 {
            h = rotated_left(&h, i % 16 + 1);
        }
        let ghost rotated = h@;
        memory.push(copy_of(&h));
        let ghost grown = table.push(rotated);
        assert forall|k: int| 0 <= k < i + 1 implies #[trigger] memory@[k]@ == grown[k] by {}
        if i > 1000 && i % 500 == 0 {
            let distant = (i / 2) % memory.len();
            let mut remix = copy_of(&h);
            append_bytes(&mut remix, memory[distant].as_slice());
            h = sha256(remix.as_slice());
        }
        current = h;
        proof {
            lemma_fill_len(seed, (i + 1) as nat);
            assert(fill(seed, (i + 1) as nat) == fill_step(fill(seed, i as nat).0, table, i as nat));
        }
        i = i + 1;
    }
    let ghost end = fill(seed, iterations as nat);

    let start: usize = if memory.len() > 16 { memory.len() - 16 } else { 0 };
    let mut result: Vec<u8> = Vec::new();
    let mut k: usize = start;
    while k < memory.len()
        invariant
            start <= k <= memory@.len(),
            memory@.len() == end.1.len(),
            forall|t: int| 0 <= t < memory@.len() ==> #[trigger] memory@[t]@ == end.1[t],
            forall|t: int| 0 <= t < memory@.len() ==> (#[trigger] memory@[t])@.len() == 32,
            result@ == concat_all(end.1.subrange(start as int, k as int)),
            result@.len() == 32 * (k - start),
        decreases memory@.len() - k,
    {
        append_bytes(&mut result, memory[k].as_slice());
        assert(end.1.subrange(start as int, k + 1).drop_last() =~= end.1.subrange(start as int, k as int));
        k = k + 1;
    }
    assert(end.1.subrange(start as int, end.1.len() as int) =~= last_entries(end.1));
    let ghost base = result@;
    while result.len() < THREAD_DIGEST_LEN
        invariant
            current@ == end.0,
            current@.len() == 32,
            result@.len() <= 544,
            pad_with(result@, end.0) == pad_with(base, end.0),
        decreases 544 - result@.len(),
    {
        append_bytes(&mut result, current.as_slice());
    }
    result.truncate(THREAD_DIGEST_LEN);
    result
}

/// Bytes in one megabyte of worker memory.
pub const BYTES_PER_MB: usize = 1048576;

/// Bytes of salt in every record.
pub const SALT_LEN: usize = 32;

/// Why a hash could not be made with the given parameters.
#[derive(Debug, Clone, Copy, PartialEq, Eq, Structural)]
pub enum ConfigError {
    /// The thread count is zero.
    ZeroThreads,
    /// The memory size is zero.
    ZeroMemory,
}

/// The views of a sequence of byte vectors.
pub open spec fn byte_views(v: Seq<Vec<u8>>) -> Seq<Seq<u8>> {
    Seq::new(v.len(), |i: int| v[i]@)
}

/// The key derived from worker digests: the SHA-256 digest of their
/// concatenation, in order.
pub open spec fn key_of_digests(digests: Seq<Seq<u8>>) -> Seq<u8> {
    sha256_of(concat_all(digests))
}

/// The digests of workers `0 .. threads`, each filling `memory_size` bytes.
pub open spec fn thread_digests(password: Seq<u8>, salt: Seq<u8>, threads: nat, memory_size: nat) -> Seq<Seq<u8>> {
    Seq::new(threads, |i: int| thread_digest(password, salt, i as nat, memory_size))
}

/// The key that `password` gives with the parameters and salt of `record`.
pub open spec fn record_key(password: Seq<u8>, record: RecordModel) -> Seq<u8> {
    key_of_digests(
        thread_digests(password, record.salt, record.threads, record.memory_mb * (BYTES_PER_MB as nat)),
    )
}

/// Whether the key that `password` gives opens the phrase sealed in `record`.
pub open spec fn unlocks(password: Seq<u8>, record: RecordModel) -> bool {
    opens_to_phrase(record_key(password, record), record.encrypted_phrase)
}

/// Relies on rand's `thread_rng().fill_bytes`: it overwrites the buffer with
/// random bytes and keeps its length.
#[verifier::external_body]
fn fill_random(buf: &mut Vec<u8>)
    ensures
        final(buf)@.len() == old(buf)@.len(),
{
    rand::thread_rng().fill_bytes(buf.as_mut_slice())
}

/// A fresh random salt of 32 bytes.
pub fn generate_salt() -> (r: Vec<u8>)
    ensures
        r@.len() == SALT_LEN,
{
    let mut salt: Vec<u8> = Vec::new();
    let mut k: usize = 0;
    while k < SALT_LEN
        invariant
            k <= SALT_LEN,
            salt@.len() == k,
        decreases SALT_LEN - k,
    {
        salt.push(0);
        k = k + 1;
    }
    fill_random(&mut salt);
    salt
}

/// The key derived from the worker digests, taken in order.
pub fn derive_key(thread_outputs: &[Vec<u8>]) -> (r: Vec<u8>)
    ensures
        r@ == key_of_digests(byte_views(thread_outputs@)),
        r@.len() == 32,
{
    let mut all: Vec<u8> = Vec::new();
    let mut k: usize = 0;
    while k < thread_outputs.len()
        invariant
            k <= thread_outputs@.len(),
            all@ == concat_all(byte_views(thread_outputs@).take(k as int)),
        decreases thread_outputs@.len() - k,
    {
        append_bytes(&mut all, thread_outputs[k].as_slice());
        assert(byte_views(thread_outputs@).take(k + 1).drop_last() =~= byte_views(thread_outputs@).take(k as int));
        k = k + 1;
    }
    assert(byte_views(thread_outputs@).take(thread_outputs@.len() as int) =~= byte_views(thread_outputs@));
    sha256(all.as_slice())
}

/// Relies on rayon's `into_par_iter().map(..).collect()` over `0..threads`:
/// each index is mapped by `thread_worker` on its own task, and the indexed
/// parallel iterator collects the digests into a `Vec` in index order.
#[verifier::external_body]
pub(crate) fn run_workers(password: &str, salt: &[u8], threads: usize, memory_size: usize) -> (r: Vec<Vec<u8>>)
    ensures
        byte_views(r@) == thread_digests(password.spec_bytes(), salt@, threads as nat, memory_size as nat),
{
    (0..threads).into_par_iter().map(|i| thread_worker(password, salt, i, memory_size)).collect()
}

/// Hashes `password` with `threads` workers of `memory_mb` megabytes each:
/// a fresh salt, the workers' digests, the key derived from them, and the
/// phrase sealed under that key with a fresh nonce.
///
/// The workers are proved not to panic; should one still fail (the process
/// running out of memory), the failure unwinds out of this call and no
/// record is returned. There is no error value for it.
pub fn hash_password(password: &str, threads: usize, memory_mb: usize) -> (r: Result<SinkproofHash, ConfigError>)
    requires
        threads > 0 && memory_mb > 0 ==> memory_mb * BYTES_PER_MB <= usize::MAX,
    ensures
        threads == 0 ==> r == Err::<SinkproofHash, ConfigError>(ConfigError::ZeroThreads),
        threads > 0 && memory_mb == 0 ==> r == Err::<SinkproofHash, ConfigError>(ConfigError::ZeroMemory),
        threads > 0 && memory_mb > 0 ==> (r matches Ok(h) && h.version@ == seq!['v', '1']
            && h.threads == threads && h.memory_mb == memory_mb && h.salt@.len() == SALT_LEN
            && h.encrypted_phrase@.len() == 53
            && h.encrypted_phrase@ == sealed_phrase(
            record_key(password.spec_bytes(), h@),
            h.encrypted_phrase@.take(12),
        ) && unlocks(password.spec_bytes(), h@)),
{
    if threads == 0 {
        return Err(ConfigError::ZeroThreads);
    }
    if memory_mb == 0 {
        return Err(ConfigError::ZeroMemory);
    }
    let salt = generate_salt();
    let memory_size = memory_mb * BYTES_PER_MB;
    let digests = run_workers(password, salt.as_slice(), threads, memory_size);
    let key = derive_key(digests.as_slice());
    let encrypted_phrase = encrypt_phrase(key.as_slice()).unwrap();
    proof {
        reveal_strlit("v1");
    }
    let version = "v1".to_owned();
    assert(version@ =~= seq!['v', '1']);
    Ok(SinkproofHash { version, threads, memory_mb, salt, encrypted_phrase })
}

} // verus!
