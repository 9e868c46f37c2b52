use vstd::prelude::*;

verus! {

/// Bytes stream through the hash-copy loop in chunks of this size (1 MiB).
pub const CHUNK_SIZE: usize = 1024 * 1024;

/// A hash progress event is due at least every this many bytes (5 MiB).
pub const PROGRESS_INTERVAL: u64 = 5 * 1024 * 1024;

/// The SHA-256 digest of a byte sequence, as the hashing crate computes it:
/// a function of the input bytes alone.
pub uninterp spec fn sha256_of(bytes: Seq<u8>) -> Seq<u8>;

/// Relies on sha2's `Sha256` through the `Digest` trait: the digest depends
/// on the input bytes alone and is 32 bytes long.
#[verifier::external_body]
fn sha256_digest(data: &[u8]) -> (r: Vec<u8>)
    ensures
        r@ == sha256_of(data@),
        r@.len() == 32,
{
    let out = <sha2::Sha256 as sha2::Digest>::digest(data);
    out.as_slice().to_vec()
}

/// The lowercase hex digit for a value below 16.
pub open spec fn hex_digit(n: int) -> char {
    if n == 0 {
        '0'
    } else if n == 1 {
        '1'
    } else if n == 2 {
        '2'
    } else if n == 3 {
        '3'
    } else if n == 4 {
        '4'
    } else if n == 5 {
        '5'
    } else if n == 6 {
        '6'
    } else if n == 7 {
        '7'
    } else if n == 8 {
        '8'
    } else if n == 9 {
        '9'
    } else if n == 10 {
        'a'
    } else if n == 11 {
        'b'
    } else if n == 12 {
        'c'
    } else if n == 13 {
        'd'
    } else if n == 14 {
        'e'
    } else {
        'f'
    }
}

/// Lowercase hex encoding: two digits for every byte, high nibble first.
pub open spec fn hex_of(bytes: Seq<u8>) -> Seq<char> {
    Seq::new(
        bytes.len() * 2,
        |i: int|
            if i % 2 == 0 {
                hex_digit(bytes[i / 2] as int / 16)
            } else {
                hex_digit(bytes[i / 2] as int % 16)
            },
    )
}

/// Encodes bytes as lowercase hex.
pub fn to_hex(bytes: &Vec<u8>) -> (r: String)
    ensures
        r@ == hex_of(bytes@),
        r@.len() == 2 * bytes@.len(),
{
    let table = "0123456789abcdef";
    proof {
        reveal_strlit("0123456789abcdef");
        assert(table@.len() == 16);
        assert(table.is_ascii());
        assert(forall|d: int| 0 <= d < 16 ==> #[trigger] table@[d] == hex_digit(d));
    }
    let mut s = String::new();
    let mut i: usize = 0;
    while i < bytes.len()
        invariant
            i <= bytes.len(),
            table@.len() == 16,
            vstd::string::is_ascii(table),
            forall|d: int| 0 <= d < 16 ==> #[trigger] table@[d] == hex_digit(d),
            s@.len() == 2 * i,
            forall|j: int| 0 <= j < s@.len() ==> #[trigger] s@[j] == hex_of(bytes@)[j],
        decreases bytes.len() - i,
    {
        let b = bytes[i];
        let hi = (b / 16) as usize;
        let lo = (b % 16) as usize;
        s.append(table.substring_ascii(hi, hi + 1));
        s.append(table.substring_ascii(lo, lo + 1));
        proof {
            assert(s@[2 * i as int] == table@[hi as int]);
            assert(s@[2 * i as int + 1] == table@[lo as int]);
            assert(hex_of(bytes@)[2 * i as int] == hex_digit(b as int / 16));
            assert(hex_of(bytes@)[2 * i as int + 1] == hex_digit(b as int % 16));
        }
        i = i + 1;
    }
    proof {
        assert(s@ =~= hex_of(bytes@));
    }
    s
}

/// The concatenation of a sequence of chunks, in order.
pub open spec fn concat_chunks(chunks: Seq<Seq<u8>>) -> Seq<u8>
    decreases chunks.len(),
{
    if chunks.len() == 0 {
        Seq::<u8>::empty()
    } else {
        concat_chunks(chunks.drop_last()) + chunks.last()
    }
}

/// Accumulates the exact bytes that stream through a hash or hash-copy
/// loop, one chunk at a time.
pub struct ChunkAccumulator {
    data: Vec<u8>,
}

impl ChunkAccumulator {
    /// The bytes consumed so far.
    pub closed spec fn bytes(&self) -> Seq<u8> {
        self.data@
    }

    /// An accumulator that has consumed nothing.
    pub fn new() -> (r: ChunkAccumulator)
        ensures
            r.bytes() == Seq::<u8>::empty(),
    {
        let r = ChunkAccumulator { data: Vec::new() };
        proof {
            assert(r.bytes() =~= Seq::<u8>::empty());
        }
        r
    }

    /// Consumes one chunk.
    pub fn update(&mut self, chunk: &[u8])
        requires
            old(self).bytes().len() + chunk@.len() <= usize::MAX,
        ensures
            final(self).bytes() == old(self).bytes() + chunk@,
    {
        self.data.extend_from_slice(chunk);
        proof {
            assert(self.bytes() =~= old(self).bytes() + chunk@);
        }
    }

    /// The number of bytes consumed so far.
    pub fn len(&self) -> (r: usize)
        ensures
            r == self.bytes().len(),
    {
        self.data.len()
    }

    /// The lowercase hex SHA-256 digest of exactly the bytes consumed.
    pub fn hex_digest(&self) -> (r: String)
        ensures
            r@ == hex_of(sha256_of(self.bytes())),
            r@.len() == 64,
    {
        let d = sha256_digest(self.data.as_slice());
        to_hex(&d)
    }
}

/// The digest of data given as chunks: the lowercase hex SHA-256 of their
/// concatenation. The hash-copy loop stages exactly these chunks, so the
/// digest it returns is the digest of the staged bytes.
pub fn hash_chunks(chunks: &Vec<Vec<u8>>) -> (r: String)
    requires
        concat_chunks(chunks@.map_values(|c: Vec<u8>| c@)).len() <= usize::MAX,
    ensures
        r@ == hex_of(sha256_of(concat_chunks(chunks@.map_values(|c: Vec<u8>| c@)))),
        r@.len() == 64,
{
    let ghost all = chunks@.map_values(|c: Vec<u8>| c@);
    let mut acc = ChunkAccumulator::new();
    let mut i: usize = 0;
    proof {
        assert(acc.bytes() =~= concat_chunks(all.subrange(0, 0)));
    }
    while i < chunks.len()
        invariant
            i <= chunks.len(),
            all == chunks@.map_values(|c: Vec<u8>| c@),
            concat_chunks(all).len() <= usize::MAX,
            acc.bytes() == concat_chunks(all.subrange(0, i as int)),
        decreases chunks.len() - i,
    {
        proof {
            assert(all.subrange(0, i + 1).drop_last() =~= all.subrange(0, i as int));
            assert(all.subrange(0, i + 1).last() == all[i as int]);
            assert(all[i as int] == chunks@[i as int]@);
            lemma_concat_prefix_len(all, i + 1);
        }
        acc.update(chunks[i].as_slice());
        i = i + 1;
    }
    proof {
        assert(all.subrange(0, all.len() as int) =~= all);
    }
    acc.hex_digest()
}

/// A prefix of the chunks concatenates to a prefix of the whole: its length
/// never exceeds the whole's length.
proof fn lemma_concat_prefix_len(chunks: Seq<Seq<u8>>, n: int)
    requires
        0 <= n <= chunks.len(),
    ensures
        concat_chunks(chunks.subrange(0, n)).len() <= concat_chunks(chunks).len(),
    decreases chunks.len() - n,
{
    if n == chunks.len() {
        assert(chunks.subrange(0, n) =~= chunks);
    } else {
        lemma_concat_prefix_len(chunks, n + 1);
        assert(chunks.subrange(0, n + 1).drop_last() =~= chunks.subrange(0, n));
        assert(concat_chunks(chunks.subrange(0, n + 1)) == concat_chunks(chunks.subrange(0, n))
            + chunks.subrange(0, n + 1).last());
    }
}

/// True when a progress event is due: at least the progress interval has
/// streamed since the last emission.
pub fn progress_due(bytes_done: u64, last_emitted: u64) -> (r: bool)
    requires
        last_emitted <= bytes_done,
    ensures
        r == (bytes_done - last_emitted >= PROGRESS_INTERVAL),
{
    bytes_done - last_emitted >= PROGRESS_INTERVAL
}

} // verus!
