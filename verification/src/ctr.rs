use vstd::prelude::*;
use crate::block::{encrypt_block_spec, key_schedule, AES};

verus! {

// ---------------------------------------------------------------------------
// Specification model of the counter-mode keystream.
// ---------------------------------------------------------------------------

/// Big-endian increment of a byte sequence by one: starting from the last
/// byte, a 0xff byte becomes 0x00 and carries into its more significant
/// neighbour; the first byte that does not overflow is incremented and the
/// carry stops. A sequence of all 0xff bytes wraps around to all zeroes.
pub open spec fn inc_bytes(b: Seq<u8>) -> Seq<u8>
    decreases b.len(),
{
    if b.len() == 0 {
        b
    } else if b.last() == 0xff {
        inc_bytes(b.drop_last()).push(0)
    } else {
        b.update(b.len() - 1, (b.last() + 1) as u8)
    }
}

/// The general form of the increment: if position i holds the last byte that
/// is not 0xff and only 0xff bytes follow it, the increment bumps position i
/// by one, zeroes everything after it, and leaves everything before it alone.
pub proof fn lemma_inc_bytes_carry_run(b: Seq<u8>, i: int)
    requires
        0 <= i < b.len(),
        b[i] != 0xff,
        forall|j: int| i < j < b.len() ==> b[j] == 0xff,
    ensures
        inc_bytes(b).len() == b.len(),
        forall|j: int| 0 <= j < i ==> inc_bytes(b)[j] == b[j],
        inc_bytes(b)[i] == (b[i] + 1) as u8,
        forall|j: int| i < j < b.len() ==> inc_bytes(b)[j] == 0,
    decreases b.len(),
{
    if i == b.len() - 1 {
        assert(inc_bytes(b) == b.update(b.len() - 1, (b.last() + 1) as u8));
    } else {
        let dl = b.drop_last();
        assert(b[b.len() - 1] == 0xff);
        assert(inc_bytes(b) == inc_bytes(dl).push(0));
        lemma_inc_bytes_carry_run(dl, i);
        assert forall|j: int| 0 <= j < i implies inc_bytes(b)[j] == b[j] by {
            assert(inc_bytes(b)[j] == inc_bytes(dl)[j]);
            assert(dl[j] == b[j]);
        }
        assert(inc_bytes(b)[i] == inc_bytes(dl)[i]);
        assert forall|j: int| i < j < b.len() implies inc_bytes(b)[j] == 0 by {
            if j < b.len() - 1 {
                assert(inc_bytes(b)[j] == inc_bytes(dl)[j]);
            }
        }
    }
}

/// Incrementing a sequence of all 0xff bytes wraps it around to all zeroes.
pub proof fn lemma_inc_bytes_wraparound(b: Seq<u8>)
    requires
        forall|j: int| 0 <= j < b.len() ==> b[j] == 0xff,
    ensures
        inc_bytes(b).len() == b.len(),
        forall|j: int| 0 <= j < b.len() ==> inc_bytes(b)[j] == 0,
    decreases b.len(),
{
    if b.len() > 0 {
        lemma_inc_bytes_wraparound(b.drop_last());
    }
}

/// The mathematical state of a counter-mode byte stream: the expanded key
/// schedule it encrypts with, the current counter block, the encrypted image
/// of that block, the index of the next keystream byte to consume, and the
/// number of counter increments performed so far.
pub struct StreamModel {
    pub key_schedule: Seq<u8>,
    pub counter_block: Seq<u8>,
    pub keystream_block: Seq<u8>,
    pub next_byte: nat,
    pub blocks_used: nat,
}

/// A well-formed stream state: sizes are right and the keystream block is
/// the encryption of the current counter block.
pub open spec fn stream_wf(m: StreamModel) -> bool {
    &&& m.key_schedule.len() == 176
    &&& m.counter_block.len() == 16
    &&& m.next_byte <= 16
    &&& m.blocks_used <= usize::MAX
    &&& m.keystream_block == encrypt_block_spec(m.key_schedule, m.counter_block)
}

/// The state with a usable keystream byte available: if the current block is
/// exhausted, the counter is incremented and re-encrypted; otherwise the
/// state is unchanged.
pub open spec fn stream_refreshed(m: StreamModel) -> StreamModel {
    if m.next_byte >= 16 {
        let c = inc_bytes(m.counter_block);
        StreamModel {
            counter_block: c,
            keystream_block: encrypt_block_spec(m.key_schedule, c),
            next_byte: 0,
            blocks_used: if m.blocks_used == usize::MAX { 0nat } else { m.blocks_used + 1 },
            ..m
        }
    } else {
        m
    }
}

/// The byte produced for input `byte`: the next keystream byte XORed with it.
pub open spec fn stream_output(m: StreamModel, byte: u8) -> u8 {
    let t = stream_refreshed(m);
    t.keystream_block[t.next_byte as int] ^ byte
}

/// The stream state after one byte has been transformed.
pub open spec fn stream_step(m: StreamModel) -> StreamModel {
    let t = stream_refreshed(m);
    StreamModel { next_byte: t.next_byte + 1, ..t }
}

/// The stream state after n bytes have been transformed.
pub open spec fn stream_after(m: StreamModel, n: nat) -> StreamModel
    decreases n,
{
    if n == 0 {
        m
    } else {
        stream_after(stream_step(m), (n - 1) as nat)
    }
}

/// The bytes produced when a whole sequence is transformed, byte by byte.
pub open spec fn stream_outputs(m: StreamModel, data: Seq<u8>) -> Seq<u8>
    decreases data.len(),
{
    if data.len() == 0 {
        Seq::empty()
    } else {
        seq![stream_output(m, data[0])] + stream_outputs(stream_step(m), data.drop_first())
    }
}

/// The counter block a nonce seeds: the nonce bytes in the leading positions
/// and zeroes in the remaining trailing positions.
pub open spec fn counter_block_of(nonce: Seq<u8>) -> Seq<u8> {
    nonce + Seq::new((16 - nonce.len()) as nat, |i: int| 0u8)
}

/// The state of a freshly derived stream: the nonce-seeded counter block,
/// already encrypted once, with no bytes consumed yet.
pub open spec fn initial_stream(ks: Seq<u8>, nonce: Seq<u8>) -> StreamModel {
    let c = counter_block_of(nonce);
    StreamModel {
        key_schedule: ks,
        counter_block: c,
        keystream_block: encrypt_block_spec(ks, c),
        next_byte: 0,
        blocks_used: 0,
    }
}

// ---------------------------------------------------------------------------
// Laws of the keystream.
// ---------------------------------------------------------------------------

proof fn lemma_xor_cancel(k: u8, b: u8)
    ensures
        k ^ (k ^ b) == b,
{
    assert(k ^ (k ^ b) == b) by (bit_vector);
}

/// Counter-mode transformation is self-inverse: transforming the transformed
/// bytes with a second stream in the same starting state (same key schedule
/// and nonce) recovers the original bytes exactly.
pub proof fn lemma_ctr_round_trip(m: StreamModel, data: Seq<u8>)
    ensures
        stream_outputs(m, stream_outputs(m, data)) == data,
    decreases data.len(),
{
    let enc = stream_outputs(m, data);
    if data.len() == 0 {
        assert(stream_outputs(m, enc) =~= data);
    } else {
        let t = stream_refreshed(m);
        let k = t.keystream_block[t.next_byte as int];
        lemma_xor_cancel(k, data[0]);
        lemma_ctr_round_trip(stream_step(m), data.drop_first());
        assert(enc.drop_first() =~= stream_outputs(stream_step(m), data.drop_first()));
        assert(stream_outputs(m, enc) =~= data);
    }
}

/// The stream does not depend on call granularity: transforming the
/// concatenation of two sequences yields the same bytes as transforming the
/// first and then the second with the stream state carried over.
pub proof fn lemma_ctr_chunking(m: StreamModel, d1: Seq<u8>, d2: Seq<u8>)
    ensures
        stream_outputs(m, d1 + d2) == stream_outputs(m, d1) + stream_outputs(
            stream_after(m, d1.len()),
            d2,
        ),
    decreases d1.len(),
{
    if d1.len() == 0 {
        assert(d1 + d2 =~= d2);
        assert(stream_outputs(m, d1 + d2) =~= stream_outputs(m, d1) + stream_outputs(
            stream_after(m, d1.len()),
            d2,
        ));
    } else {
        lemma_ctr_chunking(stream_step(m), d1.drop_first(), d2);
        assert((d1 + d2).drop_first() =~= d1.drop_first() + d2);
        assert((d1 + d2)[0] == d1[0]);
        assert(stream_outputs(m, d1 + d2) =~= stream_outputs(m, d1) + stream_outputs(
            stream_after(m, d1.len()),
            d2,
        ));
    }
}

/// As long as the current encrypted block lasts, the stream XORs the data
/// against its successive bytes, starting at the cursor, and the counter
/// block does not move: only the cursor advances.
pub proof fn lemma_ctr_within_block(m: StreamModel, data: Seq<u8>)
    requires
        m.next_byte + data.len() <= 16,
    ensures
        stream_outputs(m, data) == Seq::new(
            data.len(),
            (|i: int| m.keystream_block[m.next_byte + i] ^ data[i]),
        ),
        stream_after(m, data.len()) == (StreamModel {
            next_byte: m.next_byte + data.len(),
            ..m
        }),
    decreases data.len(),
{
    if data.len() == 0 {
        assert(stream_outputs(m, data) =~= Seq::new(
            data.len(),
            |i: int| m.keystream_block[m.next_byte + i] ^ data[i],
        ));
    } else {
        assert(stream_refreshed(m) == m);
        lemma_ctr_within_block(stream_step(m), data.drop_first());
        assert(stream_after(m, data.len()) == stream_after(
            stream_step(m),
            data.drop_first().len(),
        ));
        assert(stream_outputs(m, data) =~= Seq::new(
            data.len(),
            |i: int| m.keystream_block[m.next_byte + i] ^ data[i],
        ));
    }
}

/// Stepping n + 1 times is stepping n times and then once more.
proof fn lemma_stream_after_snoc(m: StreamModel, n: nat)
    ensures
        stream_after(m, n + 1) == stream_step(stream_after(m, n)),
    decreases n,
{
    assert(stream_after(m, n + 1) == stream_after(stream_step(m), n));
    if n == 0 {
        assert(stream_after(stream_step(m), 0) == stream_step(m));
        assert(stream_after(m, 0) == m);
    } else {
        lemma_stream_after_snoc(stream_step(m), (n - 1) as nat);
        assert(stream_after(m, n) == stream_after(stream_step(m), (n - 1) as nat));
    }
}

/// Appending one byte to the input appends one byte to the output.
proof fn lemma_stream_outputs_snoc(m: StreamModel, d: Seq<u8>, x: u8)
    ensures
        stream_outputs(m, d.push(x)) == stream_outputs(m, d).push(
            stream_output(stream_after(m, d.len()), x),
        ),
    decreases d.len(),
{
    if d.len() == 0 {
        assert(d.push(x)[0] == x);
        assert(d.push(x).drop_first() =~= Seq::<u8>::empty());
        assert(stream_after(m, d.len()) == m);
        assert(stream_outputs(m, d) == Seq::<u8>::empty());
        assert(stream_outputs(stream_step(m), d.push(x).drop_first()) == Seq::<u8>::empty());
        assert(stream_outputs(m, d.push(x)) == seq![stream_output(m, x)] + Seq::<u8>::empty());
        assert(stream_outputs(m, d.push(x)) =~= stream_outputs(m, d).push(
            stream_output(stream_after(m, d.len()), x),
        ));
    } else {
        lemma_stream_outputs_snoc(stream_step(m), d.drop_first(), x);
        assert(d.push(x).drop_first() =~= d.drop_first().push(x));
        assert(d.push(x)[0] == d[0]);
        assert(stream_outputs(m, d.push(x)) == seq![stream_output(m, d[0])] + stream_outputs(
            stream_step(m),
            d.drop_first().push(x),
        ));
        assert(stream_after(m, d.len()) == stream_after(stream_step(m), d.drop_first().len()));
        assert(stream_outputs(m, d) == seq![stream_output(m, d[0])] + stream_outputs(
            stream_step(m),
            d.drop_first(),
        ));
        assert(stream_output(stream_after(stream_step(m), d.drop_first().len()), x)
            == stream_output(stream_after(m, d.len()), x));
        assert(stream_outputs(stream_step(m), d.drop_first().push(x)) == stream_outputs(
            stream_step(m),
            d.drop_first(),
        ).push(stream_output(stream_after(m, d.len()), x)));
        assert(stream_outputs(m, d.push(x)) =~= stream_outputs(m, d).push(
            stream_output(stream_after(m, d.len()), x),
        ));
    }
}

// ---------------------------------------------------------------------------
// Executable counter mode.
// ---------------------------------------------------------------------------

/// Big-endian increment of a byte array by one, with wraparound to all
/// zeroes when every byte is 0xff.
pub fn increment_byte_array<const N: usize>(byte_array: &mut [u8; N])
    ensures
        final(byte_array)@ == inc_bytes(old(byte_array)@),
{
    let mut i: usize = N;
    let mut carry = true;
    while carry && i > 0
        invariant
            i <= N,
            carry ==> forall|j: int| i <= j < N ==> old(byte_array)@[j] == 0xff,
            carry ==> forall|j: int| i <= j < N ==> byte_array@[j] == 0,
            carry ==> forall|j: int| 0 <= j < i ==> byte_array@[j] == old(byte_array)@[j],
            !carry ==> byte_array@ == inc_bytes(old(byte_array)@),
        decreases i,
    {
        i -= 1;
        let v = byte_array[i];
        if v == 0xff {
            byte_array[i] = 0;
        } else {
            byte_array[i] = v + 1;
            carry = false;
            proof {
                lemma_inc_bytes_carry_run(old(byte_array)@, i as int);
                assert(byte_array@ =~= inc_bytes(old(byte_array)@));
            }
        }
    }
    proof {
        if carry {
            lemma_inc_bytes_wraparound(old(byte_array)@);
            assert(byte_array@ =~= inc_bytes(old(byte_array)@));
        }
    }
}

/// A counter-mode cipher: an AES-128 instance whose key schedule every
/// derived stream shares.
pub struct CTR {
    pub aes: AES,
}

/// A counter-mode byte stream: a counter block seeded from a nonce, the most
/// recent AES encryption of that block, and a cursor marking the next
/// keystream byte to consume. Transforming a byte XORs it against the
/// keystream; the same operation encrypts and decrypts.
pub struct CtrByteStream {
    /// The block cipher, with its expanded key schedule.
    pub aes: AES,
    /// The counter block encrypted for the current keystream image.
    pub nonce_block: [u8; 16],
    /// The counter block after being run through the block cipher.
    pub encrypted_nonce: [u8; 16],
    /// Which byte of the encrypted block to use next for the stream.
    pub next_block_byte: usize,
    /// How many times the counter block has been incremented (diagnostic;
    /// wraps around rather than failing).
    pub block_counter: usize,
}

impl View for CtrByteStream {
    type V = StreamModel;

    open spec fn view(&self) -> StreamModel {
        StreamModel {
            key_schedule: self.aes.round_keys@,
            counter_block: self.nonce_block@,
            keystream_block: self.encrypted_nonce@,
            next_byte: self.next_block_byte as nat,
            blocks_used: self.block_counter as nat,
        }
    }
}

impl CTR {
    /// Build a cipher from a 16-byte key by running the key schedule once.
    /// The schedule is a function of the key bytes alone, so two ciphers
    /// built from equal keys are identical.
    pub fn new(key: &[u8; 16]) -> (r: CTR)
        ensures
            r.aes.round_keys@ == key_schedule(key@),
    {
        CTR { aes: AES::new(&key) }
    }

    /// Derive a fresh byte stream from a nonce of at most 16 bytes. The
    /// resulting state is a function of the key schedule and the nonce bytes
    /// alone, so equal nonces yield byte-identical streams. For that very
    /// reason, reusing a nonce under the same key reveals the XOR of the two
    /// plaintexts: the caller must never reuse one.
    pub fn get_stream(&self, nonce: &[u8]) -> (r: CtrByteStream)
        requires
            nonce@.len() <= 16,
        ensures
            r@ == initial_stream(self.aes.round_keys@, nonce@),
            stream_wf(r@),
    {
        CtrByteStream::new(&self.aes, &nonce)
    }
}

impl CtrByteStream {
    /// Seed a counter block with the nonce bytes (zero-filling the tail),
    /// encrypt it once, and start the cursor at the first keystream byte.
    fn new(aes: &AES, nonce: &[u8]) -> (r: CtrByteStream)
        requires
            nonce@.len() <= 16,
        ensures
            r@ == initial_stream(aes.round_keys@, nonce@),
            stream_wf(r@),
    {
        let mut nonce_block = [0u8; 16];
        let mut i: usize = 0;
        while i < nonce.len()
            invariant
                nonce@.len() <= 16,
                i <= nonce@.len(),
                forall|j: int| 0 <= j < i ==> nonce_block@[j] == nonce@[j],
                forall|j: int| i <= j < 16 ==> nonce_block@[j] == 0,
            decreases nonce@.len() - i,
        {
            nonce_block[i] = nonce[i];
            i += 1;
        }
        proof {
            assert(nonce_block@ =~= counter_block_of(nonce@));
        }
        let encrypted_nonce = aes.encrypt_block(&nonce_block);
        CtrByteStream {
            aes: AES { round_keys: aes.round_keys },
            nonce_block,
            encrypted_nonce,
            next_block_byte: 0,
            block_counter: 0,
        }
    }

    /// Transform one byte: XOR it against the next keystream byte. When the
    /// current encrypted block is exhausted, the counter block is first
    /// incremented and re-encrypted. Used identically for encryption and
    /// decryption, since XOR is self-inverse.
    pub fn encrypt_byte(&mut self, byte: u8) -> (r: u8)
        requires
            stream_wf(old(self)@),
        ensures
            final(self)@ == stream_step(old(self)@),
            stream_wf(final(self)@),
            r == stream_output(old(self)@, byte),
    {
        if self.next_block_byte >= 16 {
            increment_byte_array(&mut self.nonce_block);
            self.encrypted_nonce = self.aes.encrypt_block(&self.nonce_block);
            self.next_block_byte = 0;
            self.block_counter = if self.block_counter == usize::MAX {
                0
            } else {
                self.block_counter + 1
            };
        }
        let res = self.encrypted_nonce[self.next_block_byte] ^ byte;
        self.next_block_byte += 1;
        res
    }

    /// Transform a whole sequence of bytes in order, as if `encrypt_byte`
    /// had been called once per byte. Splitting the input across any number
    /// of calls yields the same bytes.
    pub fn encrypt_bytes(&mut self, data: &[u8]) -> (r: Vec<u8>)
        requires
            stream_wf(old(self)@),
        ensures
            r@ == stream_outputs(old(self)@, data@),
            final(self)@ == stream_after(old(self)@, data@.len()),
            stream_wf(final(self)@),
    {
        let mut out: Vec<u8> = Vec::new();
        let mut i: usize = 0;
        while i < data.len()
            invariant
                i <= data@.len(),
                stream_wf(self@),
                self@ == stream_after(old(self)@, i as nat),
                out@ == stream_outputs(old(self)@, data@.subrange(0, i as int)),
            decreases data@.len() - i,
        {
            proof {
                lemma_stream_after_snoc(old(self)@, i as nat);
                lemma_stream_outputs_snoc(old(self)@, data@.subrange(0, i as int), data@[i as int]);
                assert(data@.subrange(0, i as int).push(data@[i as int]) =~= data@.subrange(
                    0,
                    i as int + 1,
                ));
            }
            let b = self.encrypt_byte(data[i]);
            out.push(b);
            i += 1;
        }
        proof {
            assert(data@.subrange(0, data@.len() as int) =~= data@);
        }
        out
    }
}

} // verus!
