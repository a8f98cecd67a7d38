//! Variable-length integers: seven payload bits per byte, least significant
//! group first, the top bit of a byte set while more bytes follow.

use vstd::prelude::*;
use crate::error::ProtocolError;

verus! {

/// The most continuation bytes that may precede the terminating byte.
pub const MAX_CONTINUATION_BYTES: usize = 5;

/// The encoding of `v`.
pub open spec fn varint_bytes(v: u32) -> Seq<u8>
    decreases v,
{
    if v < 128 {
        seq![v as u8]
    } else {
        seq![(v % 128 + 128) as u8] + varint_bytes(v / 128)
    }
}

/// The number of bytes in the encoding of `v`.
pub open spec fn varint_len(v: u32) -> nat {
    if v < 0x80 {
        1
    } else if v < 0x4000 {
        2
    } else if v < 0x20_0000 {
        3
    } else if v < 0x1000_0000 {
        4
    } else {
        5
    }
}

/// The encoding of `v` has `varint_len(v)` bytes.
pub proof fn lemma_varint_len(v: u32)
    ensures
        varint_bytes(v).len() == varint_len(v),
    decreases v,
{
    if v >= 128 {
        lemma_varint_len(v / 128);
    }
}

/// Encodes `v`: the low seven bits with the continuation flag while more
/// than seven significant bits remain, then the last seven bits alone.
pub fn encode_varint(v: u32) -> (out: Vec<u8>)
    ensures
        out@ == varint_bytes(v),
        out@.len() == varint_len(v),
{
    let mut out: Vec<u8> = Vec::new();
    let mut rest: u32 = v;
    while rest >= 128
        invariant
            varint_bytes(v) == out@ + varint_bytes(rest),
        decreases rest,
    {
        let byte: u8 = ((rest & 0x7f) | 0x80) as u8;
        assert(((rest & 0x7f) | 0x80) == rest % 128 + 128 && rest >> 7 == rest / 128)
            by (bit_vector);
        assert(out@.push(byte) + varint_bytes(rest / 128) == out@ + varint_bytes(rest));
        out.push(byte);
        rest = rest >> 7;
    }
    assert(out@.push(rest as u8) == out@ + varint_bytes(rest));
    out.push(rest as u8);
    proof {
        lemma_varint_len(v);
    }
    out
}

/// 128 to the power `n`: the weight of the `n`-th seven-bit group.
pub open spec fn pow128(n: nat) -> nat
    decreases n,
{
    if n == 0 {
        1
    } else {
        128 * pow128((n - 1) as nat)
    }
}

/// How many bytes from `start` on carry the continuation flag, up to the
/// first one that does not, or to the end of `data`.
pub open spec fn continuation_run(data: Seq<u8>, start: int) -> nat
    decreases data.len() - start,
{
    if 0 <= start < data.len() && data[start] >= 128 {
        1 + continuation_run(data, start + 1)
    } else {
        0
    }
}

/// The payloads of the `n` bytes from `start` on, read as one number with
/// the first byte's seven bits the least significant.
pub open spec fn group_value(data: Seq<u8>, start: int, n: nat) -> nat
    decreases n,
{
    if n == 0 {
        0
    } else {
        group_value(data, start, (n - 1) as nat) + (data[start + n - 1] % 128) as nat * pow128(
            (n - 1) as nat,
        )
    }
}

/// The low 32 bits of `u`, read as a two's-complement number.
pub open spec fn as_signed(u: nat) -> i32 {
    let low = u % 0x1_0000_0000;
    if low < 0x8000_0000 {
        low as i32
    } else {
        (low - 0x1_0000_0000) as i32
    }
}

/// The bits of `v`, read as an unsigned number.
pub open spec fn as_unsigned(v: i32) -> u32 {
    if v >= 0 {
        v as u32
    } else {
        (v + 0x1_0000_0000) as u32
    }
}

/// What decoding a variable-length integer at `start` gives: the value and
/// the position after its last byte. A run of more than five continuation
/// bytes is malformed; a buffer that ends before the terminating byte is
/// truncated.
pub open spec fn varint_parse(data: Seq<u8>, start: int) -> Result<(i32, int), ProtocolError> {
    let run = continuation_run(data, start);
    if run > MAX_CONTINUATION_BYTES {
        Err(ProtocolError::Malformed)
    } else if start + run >= data.len() {
        Err(ProtocolError::TruncatedInput)
    } else {
        Ok((as_signed(group_value(data, start, run + 1)), start + run + 1))
    }
}

/// What one byte does to a decoder that has taken in `groups` continuation
/// bytes so far.
#[derive(Clone, Copy, Debug, PartialEq, Eq)]
pub enum VarIntStep {
    /// The byte carried the continuation flag: more bytes are needed.
    NeedMore,
    /// The byte ended the integer, which has this value.
    Complete(i32),
    /// The byte was one continuation byte too many.
    Malformed,
}

/// A decoder that takes the bytes of one variable-length integer one at a
/// time, for sources that hand out a byte at a time.
pub struct VarIntReader {
    acc: u64,
    weight: u64,
    groups: u8,
}

proof fn lemma_pow128_values()
    ensures
        pow128(0) == 1,
        pow128(1) == 0x80,
        pow128(2) == 0x4000,
        pow128(3) == 0x20_0000,
        pow128(4) == 0x1000_0000,
        pow128(5) == 0x8_0000_0000,
        pow128(6) == 0x400_0000_0000,
{
    reveal_with_fuel(pow128, 7);
}

/// The machine's casts between the signed and the unsigned 32-bit type
/// keep the bits.
proof fn lemma_casts_keep_bits(v: i32, u: u32)
    by (bit_vector)
    ensures
        v >= 0 ==> v as u32 == v,
        v < 0 ==> v as u32 == v + 0x1_0000_0000,
        u < 0x8000_0000 ==> u as i32 == u,
        u >= 0x8000_0000 ==> u as i32 == u - 0x1_0000_0000,
{
}

/// The machine's cast from `i32` to `u32` computes `as_unsigned`.
pub proof fn lemma_cast_unsigned(v: i32)
    ensures
        v as u32 == as_unsigned(v),
{
    lemma_casts_keep_bits(v, 0);
}

/// The machine's cast from `u32` to `i32` computes `as_signed`.
pub proof fn lemma_cast_signed(u: u32)
    ensures
        u as i32 == as_signed(u as nat),
{
    lemma_casts_keep_bits(0, u);
}

/// The machine's cast from 64 to 32 bits keeps the low 32 bits.
pub proof fn lemma_cast_low_bits(n: u64)
    by (bit_vector)
    ensures
        n as u32 == n % 0x1_0000_0000,
{
}

impl VarIntReader {
    /// How many continuation bytes the reader has taken in.
    pub closed spec fn groups(&self) -> nat {
        self.groups as nat
    }

    /// The value of the payloads taken in so far.
    pub closed spec fn partial(&self) -> nat {
        self.acc as nat
    }

    #[verifier::type_invariant]
    spec fn well_formed(&self) -> bool {
        &&& self.groups <= 5
        &&& self.weight == pow128(self.groups as nat)
        &&& self.acc < self.weight
    }

    /// A reader that has taken in nothing.
    pub fn new() -> (reader: Self)
        ensures
            reader.groups() == 0,
            reader.partial() == 0,
    {
        VarIntReader { acc: 0, weight: 1, groups: 0 }
    }

    /// Takes in the next byte. A byte without the continuation flag completes
    /// the integer; a sixth continuation byte in a row is malformed. Either
    /// way the reader starts afresh. Any other byte adds its payload above
    /// those already taken.
    pub fn feed(&mut self, byte: u8) -> (step: VarIntStep)
        ensures
            match step {
                VarIntStep::Complete(value) => {
                    &&& byte < 128
                    &&& value == as_signed(
                        old(self).partial() + byte as nat * pow128(old(self).groups()),
                    )
                    &&& final(self).groups() == 0
                    &&& final(self).partial() == 0
                },
                VarIntStep::Malformed => {
                    &&& byte >= 128
                    &&& old(self).groups() == MAX_CONTINUATION_BYTES
                    &&& final(self).groups() == 0
                    &&& final(self).partial() == 0
                },
                VarIntStep::NeedMore => {
                    &&& byte >= 128
                    &&& old(self).groups() < MAX_CONTINUATION_BYTES
                    &&& final(self).groups() == old(self).groups() + 1
                    &&& final(self).partial() == old(self).partial() + (byte % 128) as nat * pow128(
                        old(self).groups(),
                    )
                },
            },
    {
        proof {
            use_type_invariant(&*self);
            lemma_pow128_values();
        }
        let payload: u64 = (byte % 128) as u64;
        let weight: u64 = self.weight;
        assert(payload * weight <= 127 * weight) by (nonlinear_arith)
            requires
                payload <= 127,
        ;
        let sum: u64 = self.acc + payload * weight;
        if byte < 128 {
            let low: u32 = #[verifier::truncate] (sum as u32);
            let value: i32 = #[verifier::truncate] (low as i32);
            proof {
                lemma_cast_low_bits(sum);
                lemma_cast_signed(low);
            }
            *self = VarIntReader { acc: 0, weight: 1, groups: 0 };
            VarIntStep::Complete(value)
        } else if self.groups as usize == MAX_CONTINUATION_BYTES {
            *self = VarIntReader { acc: 0, weight: 1, groups: 0 };
            VarIntStep::Malformed
        } else {
            *self = VarIntReader { acc: sum, weight: weight * 128, groups: self.groups + 1 };
            VarIntStep::NeedMore
        }
    }
}

/// A run of `k` continuation bytes at `start` counts `k`, plus whatever
/// the run counts from there on.
proof fn lemma_run_split(data: Seq<u8>, start: int, k: nat)
    requires
        0 <= start,
        start + k <= data.len(),
        forall|j: int| start <= j < start + k ==> data[j] >= 128,
    ensures
        continuation_run(data, start) == k + continuation_run(data, start + k),
    decreases k,
{
    if k > 0 {
        lemma_run_split(data, start + 1, (k - 1) as nat);
    }
}

/// Decodes the variable-length integer that begins at `start`: reads bytes
/// up to the first without the continuation flag and returns the value with
/// the position after it.
pub fn decode_varint(data: &[u8], start: usize) -> (r: Result<(i32, usize), ProtocolError>)
    ensures
        match r {
            Ok((value, next)) => varint_parse(data@, start as int) == Ok::<
                (i32, int),
                ProtocolError,
            >((value, next as int)),
            Err(e) => varint_parse(data@, start as int) == Err::<(i32, int), ProtocolError>(e),
        },
{
    if start >= data.len() {
        return Err(ProtocolError::TruncatedInput);
    }
    let mut reader = VarIntReader::new();
    let mut i: usize = start;
    while i < data.len()
        invariant
            start <= i <= data.len(),
            i - start <= MAX_CONTINUATION_BYTES,
            reader.groups() == i - start,
            reader.partial() == group_value(data@, start as int, (i - start) as nat),
            forall|j: int| start <= j < i ==> data@[j] >= 128,
        decreases data.len() - i,
    {
        let byte: u8 = data[i];
        proof {
            lemma_run_split(data@, start as int, (i - start) as nat);
        }
        match reader.feed(byte) {
            VarIntStep::Complete(value) => {
                return Ok((value, i + 1));
            },
            VarIntStep::Malformed => {
                return Err(ProtocolError::Malformed);
            },
            VarIntStep::NeedMore => {},
        }
        i += 1;
    }
    proof {
        lemma_run_split(data@, start as int, (i - start) as nat);
    }
    Err(ProtocolError::TruncatedInput)
}

/// The first group is the least significant: the value of `n` groups is the
/// first payload plus 128 times the value of the other `n - 1`.
proof fn lemma_group_value_head(data: Seq<u8>, start: int, n: nat)
    requires
        n >= 1,
    ensures
        group_value(data, start, n) == (data[start] % 128) as nat + 128 * group_value(
            data,
            start + 1,
            (n - 1) as nat,
        ),
    decreases n,
{
    if n == 1 {
        assert(group_value(data, start, 0) == 0);
        assert(group_value(data, start + 1, 0) == 0);
        assert(pow128(0) == 1);
    } else {
        lemma_group_value_head(data, start, (n - 1) as nat);
        let payload = (data[start + n - 1] % 128) as nat;
        let weight = pow128((n - 2) as nat);
        assert(pow128((n - 1) as nat) == 128 * weight);
        assert(group_value(data, start, n) == group_value(data, start, (n - 1) as nat) + payload
            * pow128((n - 1) as nat));
        assert(group_value(data, start + 1, (n - 1) as nat) == group_value(
            data,
            start + 1,
            (n - 2) as nat,
        ) + payload * weight);
        assert(payload * (128 * weight) == 128 * (payload * weight)) by (nonlinear_arith);
    }
}

/// Within any buffer, the encoding of `v` is a run of `varint_len(v) - 1`
/// continuation bytes whose groups, with the terminating byte's, make `v`.
proof fn lemma_encoded_shape(pre: Seq<u8>, v: u32, post: Seq<u8>)
    ensures
        continuation_run(pre + varint_bytes(v) + post, pre.len() as int) == varint_len(v) - 1,
        group_value(pre + varint_bytes(v) + post, pre.len() as int, varint_len(v)) == v,
    decreases v,
{
    let data = pre + varint_bytes(v) + post;
    let start = pre.len() as int;
    lemma_varint_len(v);
    lemma_group_value_head(data, start, varint_len(v));
    if v >= 128 {
        let first = (v % 128 + 128) as u8;
        lemma_encoded_shape(pre.push(first), v / 128, post);
        lemma_varint_len(v / 128);
        assert(pre.push(first) + varint_bytes(v / 128) + post =~= data);
        assert(data[start] == first);
    } else {
        assert(data[start] == v);
        assert(group_value(data, start + 1, 0) == 0);
    }
}

/// Decoding finds the encoding of `v` wherever it stands in a buffer, and
/// stops right after it.
pub proof fn lemma_varint_parse_encoded(pre: Seq<u8>, v: u32, post: Seq<u8>)
    ensures
        varint_parse(pre + varint_bytes(v) + post, pre.len() as int) == Ok::<
            (i32, int),
            ProtocolError,
        >((as_signed(v as nat), (pre.len() + varint_len(v)) as int)),
{
    lemma_encoded_shape(pre, v, post);
    lemma_varint_len(v);
}

/// Reading a number's bits as signed and back as unsigned changes nothing.
pub proof fn lemma_signed_unsigned(v: u32)
    ensures
        as_unsigned(as_signed(v as nat)) == v,
{
}

/// Reading a number's bits as unsigned and back as signed changes nothing.
pub proof fn lemma_unsigned_signed(v: i32)
    ensures
        as_signed(as_unsigned(v) as nat) == v,
{
}

/// Round trip: decoding the encoding of any `v` gives the bits of `v` and
/// the length of the encoding.
pub proof fn lemma_varint_round_trip(v: u32)
    ensures
        varint_parse(varint_bytes(v), 0) matches Ok((value, next)) && as_unsigned(value) == v
            && next == varint_bytes(v).len(),
{
    lemma_varint_parse_encoded(Seq::empty(), v, Seq::empty());
    lemma_varint_len(v);
    assert(Seq::<u8>::empty() + varint_bytes(v) + Seq::<u8>::empty() =~= varint_bytes(v));
}

} // verus!
