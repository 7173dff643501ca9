//! The sample codec: 8-bit encoded samples are widened to signed 16-bit PCM
//! and attenuated by a per-block scale exponent.

use vstd::prelude::*;
use vstd::arithmetic::div_mod::{lemma_div_denominator, lemma_div_is_ordered_by_denominator};
use vstd::arithmetic::power2::{
    lemma2_to64, lemma_pow2_pos, lemma_pow2_strictly_increases, lemma_pow2_unfold, pow2,
};
use vstd::slice::slice_subrange;
use crate::bytes::{le_u32, read_u32_le};
use crate::error::FormatError;

verus! {

/// Division that rounds toward zero, as machine division of signed integers does.
pub open spec fn trunc_div(a: int, d: int) -> int {
    if a >= 0 {
        a / d
    } else {
        -((-a) / d)
    }
}

/// The 16-bit sample that the encoded byte `b` stands for in a block with
/// scale exponent `scale`: the byte is recentred around 128, widened by 256,
/// and divided by `2^(scale + 1)`, rounding toward zero.
pub open spec fn upscale(b: u8, scale: u8) -> int {
    trunc_div((b as int - 128) * 256, pow2((scale as nat) + 1) as int)
}

/// A widened sample is at most 32768 in magnitude, so every exponent from 15
/// on attenuates it to silence.
pub proof fn lemma_upscale_silent(b: u8, scale: u8)
    requires
        scale >= 15,
    ensures
        upscale(b, scale) == 0,
{
    let x = (b as int - 128) * 256;
    let d = pow2((scale as nat) + 1) as int;
    lemma2_to64();
    if scale > 15 {
        lemma_pow2_strictly_increases(16, (scale as nat) + 1);
    }
    assert(d >= 65536);
    assert(-32768 <= x <= 32512);
    if x >= 0 {
        assert(x / d == 0) by (nonlinear_arith)
            requires
                0 <= x < d,
        ;
    } else {
        assert((-x) / d == 0) by (nonlinear_arith)
            requires
                0 <= -x < d,
        ;
    }
}

/// The magnitude of a number.
pub open spec fn magnitude(v: int) -> int {
    if v >= 0 {
        v
    } else {
        -v
    }
}

/// A higher exponent never gives the louder sample.
pub proof fn lemma_upscale_quieter(b: u8, low: u8, high: u8)
    requires
        low <= high,
    ensures
        magnitude(upscale(b, high)) <= magnitude(upscale(b, low)),
{
    let x = magnitude((b as int - 128) * 256);
    let near = pow2((low as nat) + 1) as int;
    let far = pow2((high as nat) + 1) as int;
    lemma_pow2_pos((low as nat) + 1);
    if low < high {
        lemma_pow2_strictly_increases((low as nat) + 1, (high as nat) + 1);
    }
    lemma_div_is_ordered_by_denominator(x, near, far);
    assert(0 <= x / far) by (nonlinear_arith)
        requires
            0 <= x,
            0 < far,
    ;
}

/// Halving after the division by `2^scale` gives the same sample as the one
/// division by `2^(scale + 1)`.
pub proof fn lemma_upscale_in_two_steps(b: u8, scale: u8)
    ensures
        upscale(b, scale) == trunc_div(
            trunc_div((b as int - 128) * 256, pow2(scale as nat) as int),
            2,
        ),
{
    let v = (b as int - 128) * 256;
    let x = magnitude(v);
    let d = pow2(scale as nat) as int;
    lemma_pow2_pos(scale as nat);
    lemma_pow2_unfold((scale as nat) + 1);
    lemma_div_denominator(x, d, 2);
    assert(0 <= x / d) by (nonlinear_arith)
        requires
            0 <= x,
            0 < d,
    ;
    assert(d * 2 == pow2((scale as nat) + 1));
}

/// The attenuation of an exponent: `2^(scale + 1)`.
fn scale_divisor(scale: u8) -> (d: i32)
    requires
        scale <= 15,
    ensures
        d as int == pow2((scale as nat) + 1),
        2 <= d <= 65536,
{
    let mut d: i32 = 2;
    let mut i: u8 = 0;
    proof {
        lemma2_to64();
    }
    while i < scale
        invariant
            i <= scale <= 15,
            d as int == pow2((i as nat) + 1),
            2 <= d,
            pow2(16) == 65536,
        decreases scale - i,
    {
        proof {
            lemma_pow2_unfold((i as nat) + 2);
            if i + 2 < 16 {
                lemma_pow2_strictly_increases((i as nat) + 2, 16);
            }
        }
        d = d * 2;
        i = i + 1;
    }
    d
}

/// Decodes one encoded byte of a block whose scale exponent is `scale`.
pub fn upscale_pcm(b: u8, scale: u8) -> (r: i16)
    ensures
        r as int == upscale(b, scale),
{
    let centered: i32 = (b as i32 - 128) * 256;
    if scale >= 15 {
        proof {
            lemma_upscale_silent(b, scale);
        }
        return 0;
    }
    let d: i32 = scale_divisor(scale);
    let r: i32 = centered / d;
    proof {
        let x = centered as int;
        let dd = d as int;
        if x >= 0 {
            assert(0 <= x / dd <= x) by (nonlinear_arith)
                requires
                    0 <= x,
                    2 <= dd,
            ;
        } else {
            assert(0 <= (-x) / dd <= -x) by (nonlinear_arith)
                requires
                    0 <= -x,
                    2 <= dd,
            ;
        }
    }
    r as i16
}

/// Number of encoded bytes that a block can hold.
pub const BLOCK_PAYLOAD_SIZE: usize = 4096;

/// Size of a block with its 8-byte header.
pub const BLOCK_BYTES: usize = 4104;

/// One payload block: the declared number of encoded samples, the scale
/// exponent (stored twice), two unused bytes, and the encoded bytes, of which
/// only the first `size` are meaningful.
#[derive(Debug, Clone, Copy)]
pub struct SBFChunkData {
    pub size: u32,
    pub scale1: u8,
    pub scale2: u8,
    pub two_fifty: u8,
    pub zero: u8,
    pub content: [u8; 4096],
}

/// The number of encoded samples that a block declares.
pub open spec fn block_count(block: Seq<u8>) -> int {
    le_u32(block, 0)
}

/// The samples that a block decodes to: one for each of its first
/// `block_count` encoded bytes.
pub open spec fn block_samples(block: Seq<u8>) -> Seq<i16> {
    Seq::new(block_count(block) as nat, |i: int| upscale(block[8 + i], block[4]) as i16)
}

/// The `k`-th block of a payload.
pub open spec fn payload_block(payload: Seq<u8>, k: int) -> Seq<u8> {
    payload.subrange(k * 4104, (k + 1) * 4104)
}

/// The samples of the first `upto` blocks of a payload, in block order.
pub open spec fn blocks_samples(payload: Seq<u8>, upto: int) -> Seq<i16>
    decreases upto,
{
    if upto <= 0 {
        Seq::empty()
    } else {
        blocks_samples(payload, upto - 1) + block_samples(payload_block(payload, upto - 1))
    }
}

/// Why a payload cannot be decoded, if it cannot: its length is no multiple
/// of the block size, or one of its blocks declares more samples than it holds.
pub open spec fn payload_error(payload: Seq<u8>) -> Option<FormatError> {
    if payload.len() % 4104 != 0 {
        Some(FormatError::SizeNotBlockMultiple)
    } else if exists|k: int|
        0 <= k < payload.len() / 4104 && block_count(#[trigger] payload_block(payload, k)) > 4096 {
        Some(FormatError::SampleCountTooLarge)
    } else {
        None
    }
}

/// The samples that a payload decodes to.
pub open spec fn decoded(payload: Seq<u8>) -> Seq<i16> {
    blocks_samples(payload, payload.len() as int / 4104)
}

impl SBFChunkData {
    /// Whether this is the block that `block` holds.
    pub open spec fn is_block(&self, block: Seq<u8>) -> bool {
        &&& self.size as int == le_u32(block, 0)
        &&& self.scale1 == block[4]
        &&& self.scale2 == block[5]
        &&& self.two_fifty == block[6]
        &&& self.zero == block[7]
        &&& self.content@ == block.subrange(8, 4104)
    }

    /// The samples that this block decodes to.
    pub open spec fn samples(&self) -> Seq<i16> {
        Seq::new(self.size as nat, |i: int| upscale(self.content@[i], self.scale1) as i16)
    }

    /// Reads a block, or nothing where `block` is not 4104 bytes long.
    pub fn parse(block: &[u8]) -> (r: Option<SBFChunkData>)
        ensures
            r is Some <==> block@.len() == 4104,
            r is Some ==> r.unwrap().is_block(block@),
    {
        if block.len() != BLOCK_BYTES {
            return None;
        }
        let mut content: [u8; 4096] = [0u8; 4096];
        let mut i: usize = 0;
        while i < BLOCK_PAYLOAD_SIZE
            invariant
                i <= 4096,
                block@.len() == 4104,
                forall|j: int| 0 <= j < i ==> content@[j] == block@[8 + j],
            decreases 4096 - i,
        {
            content[i] = block[8 + i];
            i = i + 1;
        }
        assert(content@ =~= block@.subrange(8, 4104));
        Some(
            SBFChunkData {
                size: read_u32_le(block, 0).unwrap(),
                scale1: block[4],
                scale2: block[5],
                two_fifty: block[6],
                zero: block[7],
                content,
            },
        )
    }

    /// Appends the samples of this block to `out`. A block that declares more
    /// samples than it holds is an error, and `out` stays as it is.
    pub fn decode_into(&self, out: &mut Vec<i16>) -> (r: Result<(), FormatError>)
        ensures
            self.size <= 4096 ==> r is Ok && final(out)@ == old(out)@ + self.samples(),
            self.size > 4096 ==> r == Err::<(), FormatError>(FormatError::SampleCountTooLarge)
                && final(out)@ == old(out)@,
    {
        if self.size > BLOCK_PAYLOAD_SIZE as u32 {
            return Err(FormatError::SampleCountTooLarge);
        }
        let n: usize = self.size as usize;
        let mut i: usize = 0;
        while i < n
            invariant
                i <= n == self.size <= 4096,
                out@ == old(out)@ + self.samples().take(i as int),
            decreases n - i,
        {
            let sample = upscale_pcm(self.content[i], self.scale1);
            out.push(sample);
            assert(self.samples().take(i + 1) =~= self.samples().take(i as int).push(
                self.samples()[i as int],
            ));
            i = i + 1;
        }
        assert(self.samples().take(n as int) =~= self.samples());
        Ok(())
    }
}

/// A block read from bytes decodes to the samples of those bytes.
pub proof fn lemma_block_samples(data: SBFChunkData, block: Seq<u8>)
    requires
        block.len() == 4104,
        data.is_block(block),
        data.size <= 4096,
    ensures
        data.samples() == block_samples(block),
{
    assert(data.samples() =~= block_samples(block));
}

/// Whether `outcome` is what decoding of `payload` gives: the samples of a
/// sound payload, or the error of a malformed one.
pub open spec fn is_decoding_of(outcome: Result<Vec<i16>, FormatError>, payload: Seq<u8>) -> bool {
    match outcome {
        Ok(pcm) => payload_error(payload) is None && pcm@ == decoded(payload),
        Err(e) => payload_error(payload) == Some(e),
    }
}

/// Decoding has no hidden state: whenever the same payload is decoded, the
/// outcome is the same, sample for sample.
pub proof fn lemma_decode_deterministic(
    payload: Seq<u8>,
    first: Result<Vec<i16>, FormatError>,
    second: Result<Vec<i16>, FormatError>,
)
    requires
        is_decoding_of(first, payload),
        is_decoding_of(second, payload),
    ensures
        first is Ok <==> second is Ok,
        first is Ok ==> first->Ok_0@ == second->Ok_0@,
        first is Err ==> first->Err_0 == second->Err_0,
{
}

/// Every sample lies between -16384 and 16256.
pub proof fn lemma_upscale_range(b: u8, scale: u8)
    ensures
        -16384 <= upscale(b, scale) <= 16256,
{
    let x = (b as int - 128) * 256;
    let d = pow2((scale as nat) + 1) as int;
    assert(d >= 2) by {
        lemma2_to64();
        if scale > 0 {
            lemma_pow2_strictly_increases(1, (scale as nat) + 1);
        }
    }
    if x >= 0 {
        assert(0 <= x / d <= x / 2) by (nonlinear_arith)
            requires
                0 <= x,
                2 <= d,
        ;
    } else {
        assert(0 <= (-x) / d <= (-x) / 2) by (nonlinear_arith)
            requires
                0 <= -x,
                2 <= d,
        ;
    }
}

/// Decodes the payload of one chunk into 16-bit PCM samples.
pub fn decode_chunk(payload: &[u8]) -> (r: Result<Vec<i16>, FormatError>)
    ensures
        is_decoding_of(r, payload@),
{
    let len = payload.len();
    if len % BLOCK_BYTES != 0 {
        return Err(FormatError::SizeNotBlockMultiple);
    }
    let blocks: usize = len / BLOCK_BYTES;
    let mut pcm: Vec<i16> = Vec::new();
    let mut k: usize = 0;
    while k < blocks
        invariant
            k <= blocks,
            len == payload@.len(),
            len == blocks * 4104,
            pcm@ == blocks_samples(payload@, k as int),
            forall|j: int|
                0 <= j < k ==> block_count(#[trigger] payload_block(payload@, j)) <= 4096,
        decreases blocks - k,
    {
        let block = slice_subrange(payload, k * BLOCK_BYTES, (k + 1) * BLOCK_BYTES);
        let data = SBFChunkData::parse(block).unwrap();
        assert(block@ == payload_block(payload@, k as int));
        match data.decode_into(&mut pcm) {
            Ok(_) => {
                proof {
                    lemma_block_samples(data, block@);
                }
            },
            Err(e) => {
                return Err(e);
            },
        }
        k = k + 1;
    }
    Ok(pcm)
}

/// Counts the samples that a payload decodes to, from the block headers
/// alone.
pub fn count_samples(payload: &[u8]) -> (r: Result<usize, FormatError>)
    ensures
        match r {
            Ok(n) => payload_error(payload@) is None && n == decoded(payload@).len(),
            Err(e) => payload_error(payload@) == Some(e),
        },
{
    let len = payload.len();
    if len % BLOCK_BYTES != 0 {
        return Err(FormatError::SizeNotBlockMultiple);
    }
    let blocks: usize = len / BLOCK_BYTES;
    let mut n: usize = 0;
    let mut k: usize = 0;
    while k < blocks
        invariant
            k <= blocks,
            len == payload@.len(),
            len == blocks * 4104,
            n == blocks_samples(payload@, k as int).len(),
            n <= k * 4096,
            forall|j: int|
                0 <= j < k ==> block_count(#[trigger] payload_block(payload@, j)) <= 4096,
        decreases blocks - k,
    {
        let count = read_u32_le(payload, k * BLOCK_BYTES).unwrap();
        proof {
            let block = payload_block(payload@, k as int);
            assert(block[0] == payload@[k * 4104]);
            assert(block[1] == payload@[k * 4104 + 1]);
            assert(block[2] == payload@[k * 4104 + 2]);
            assert(block[3] == payload@[k * 4104 + 3]);
            assert(block_count(block) == count);
        }
        if count > BLOCK_PAYLOAD_SIZE as u32 {
            return Err(FormatError::SampleCountTooLarge);
        }
        n = n + count as usize;
        k = k + 1;
    }
    Ok(n)
}

} // verus!
