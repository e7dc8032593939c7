//! The variable-length byte layout of instructions: an opcode byte whose two
//! high bits tell the operand's width, followed by the operand in big-endian
//! order.

use vstd::prelude::*;
use crate::bin::{Instruction, ICJMP, IJMP, IKONST};

verus! {

/// How an instruction's operand is laid out behind its opcode byte.
#[derive(Clone, Copy, Debug, PartialEq, Eq, Structural)]
pub enum Encoding {
    /// Always this many bytes (1, 2, 4 or 8).
    Fixed(u8),
    /// The fewest of 1, 2, 4 or 8 bytes that hold the operand.
    Variadic,
    /// No operand bytes at all.
    Bare,
}

/// The encoded form of one instruction: the first `len` bytes of `bytes`.
/// The encoder leaves the bytes behind them zero.
pub struct Bytecode {
    pub bytes: [u8; 9],
    pub len: u8,
}

impl Default for Bytecode {
    fn default() -> (r: Bytecode)
        ensures
            r.len == 0,
            forall|i: int| 0 <= i < 9 ==> r.bytes[i] == 0,
    {
        Bytecode { bytes: [0u8; 9], len: 0 }
    }
}

impl View for Bytecode {
    type V = Seq<u8>;

    /// The bytes that make up the encoded instruction.
    open spec fn view(&self) -> Seq<u8> {
        self.bytes@.take(self.len as int)
    }
}

/// The low `size` bytes of `operand`, most significant first.
pub open spec fn be_bytes(operand: nat, size: nat) -> Seq<u8>
    decreases size,
{
    if size == 0 {
        Seq::empty()
    } else {
        be_bytes(operand / 256, (size - 1) as nat).push((operand % 256) as u8)
    }
}

/// The number that `bytes` spell in big-endian order.
pub open spec fn be_value(bytes: Seq<u8>) -> nat
    decreases bytes.len(),
{
    if bytes.len() == 0 {
        0
    } else {
        be_value(bytes.drop_last()) * 256 + bytes.last() as nat
    }
}

/// The size tag that stands for an operand of `size` bytes.
pub open spec fn size_tag(size: u8) -> u8 {
    if size == 8 {
        3
    } else if size == 4 {
        2
    } else if size == 2 {
        1
    } else {
        0
    }
}

/// The opcode byte followed by `size` operand bytes.
pub open spec fn encoded(opcode: u8, operand: usize, size: u8) -> Seq<u8> {
    seq![opcode | (size_tag(size) << 6)] + be_bytes(operand as nat, size as nat)
}

/// Encodes `opcode` with an operand of exactly `size` bytes. An operand too
/// large for `size` bytes loses its high bytes; the size tag is laid over
/// the two high bits of `opcode`, which are clear in every canonical opcode.
pub fn encode_with_size(opcode: u8, operand: usize, size: u8) -> (bytecode: Bytecode)
    requires
        size == 1 || size == 2 || size == 4 || size == 8,
    ensures
        bytecode.len == size + 1,
        bytecode@ == encoded(opcode, operand, size),
        forall|j: int| bytecode.len <= j < 9 ==> bytecode.bytes[j] == 0,
{
    let x: u8 = if size == 8 {
        3
    } else if size == 4 {
        2
    } else if size == 2 {
        1
    } else {
        0
    };
    let mut rest: usize = operand;
    let mut bytecode = Bytecode::default();
    bytecode.len = size + 1;
    bytecode.bytes[0] = opcode | (x << 6);
    let mut i: u8 = size;
    while i > 0
        invariant
            i <= size <= 8,
            bytecode.len == size + 1,
            bytecode.bytes[0] == opcode | (size_tag(size) << 6),
            forall|j: int| size < j < 9 ==> bytecode.bytes[j] == 0,
            be_bytes(operand as nat, size as nat) == be_bytes(rest as nat, i as nat)
                + bytecode.bytes@.subrange(i as int + 1, size as int + 1),
        decreases i,
    {
        let low: u8 = (rest & 0xff) as u8;
        assert(rest & 0xff == rest % 256) by (bit_vector);
        assert(rest >> 8 == rest / 256) by (bit_vector);
        bytecode.bytes[i as usize] = low;
        rest = rest >> 8;
        i = i - 1;
    }
    bytecode
}

/// The fewest bytes, of 1, 2, 4 or 8, that hold `operand`.
pub open spec fn minimal_size(operand: usize) -> u8 {
    if operand > 0xffff_ffff {
        8
    } else if operand > 0xffff {
        4
    } else if operand > 0xff {
        2
    } else {
        1
    }
}

/// The encoded form of an instruction.
pub open spec fn encode_spec(instruction: Instruction) -> Seq<u8> {
    match instruction.encoding() {
        Encoding::Fixed(size) => encoded(instruction.opcode(), instruction.operand(), size),
        Encoding::Variadic => encoded(
            instruction.opcode(),
            instruction.operand(),
            minimal_size(instruction.operand()),
        ),
        Encoding::Bare => seq![instruction.opcode()],
    }
}

/// Encodes one instruction: the opcode byte, and behind it the operand where
/// the instruction has one.
pub fn encode(instruction: Instruction) -> (bytecode: Bytecode)
    ensures
        bytecode@ == encode_spec(instruction),
        bytecode.len == encode_spec(instruction).len(),
        1 <= bytecode.len <= 9,
        forall|j: int| bytecode.len <= j < 9 ==> bytecode.bytes[j] == 0,
{
    let (opcode, operand, encoding) = instruction.encode_params();
    match encoding {
        Encoding::Fixed(size) => encode_with_size(opcode, operand, size),
        Encoding::Variadic => {
            if operand > 0xffff_ffff {
                encode_with_size(opcode, operand, 8)
            } else if operand > 0xffff {
                encode_with_size(opcode, operand, 4)
            } else if operand > 0xff {
                encode_with_size(opcode, operand, 2)
            } else {
                encode_with_size(opcode, operand, 1)
            }
        },
        Encoding::Bare => {
            let mut bytecode = Bytecode::default();
            bytecode.len = 1;
            bytecode.bytes[0] = opcode;
            bytecode
        },
    }
}

/// What the decoder reads at one position: the canonical opcode, the operand
/// (zero where there is none) and the position of the next instruction.
#[derive(Clone, Copy, Debug, PartialEq, Eq, Structural)]
pub struct Decoded {
    pub opcode: u8,
    pub operand: u64,
    pub next: usize,
}

/// The number of operand bytes that follow the opcode byte `first`. Bit 5 of
/// the opcode tells whether there is an operand, the two high bits its width.
pub open spec fn operand_width(first: u8) -> nat {
    if first & 0x20 == 0 {
        0
    } else if first >> 6 == 0 {
        1
    } else if first >> 6 == 1 {
        2
    } else if first >> 6 == 2 {
        4
    } else {
        8
    }
}

/// The instruction that starts at `ip`, if `code` holds all of it: the opcode
/// with the size tag masked off, the operand, and the position behind it.
pub open spec fn decode_spec(code: Seq<u8>, ip: int) -> Option<(u8, nat, int)> {
    if ip < 0 || ip >= code.len() {
        None
    } else {
        let width = operand_width(code[ip]);
        if ip + 1 + width > code.len() {
            None
        } else {
            Some(
                (
                    code[ip] & 0x3f,
                    be_value(code.subrange(ip + 1, ip + 1 + width)),
                    ip + 1 + width,
                ),
            )
        }
    }
}

/// 256 to the power `size`.
pub open spec fn byte_limit(size: nat) -> nat
    decreases size,
{
    if size == 0 {
        1
    } else {
        256 * byte_limit((size - 1) as nat)
    }
}

/// A big-endian number of `bytes.len()` bytes is below 256 to that power.
pub proof fn lemma_be_value_bound(bytes: Seq<u8>)
    ensures
        be_value(bytes) < byte_limit(bytes.len()),
    decreases bytes.len(),
{
    if bytes.len() > 0 {
        lemma_be_value_bound(bytes.drop_last());
    }
}

/// Reading back the bytes written for a number that fits gives that number.
pub proof fn lemma_be_round_trip(operand: nat, size: nat)
    requires
        operand < byte_limit(size),
    ensures
        be_bytes(operand, size).len() == size,
        be_value(be_bytes(operand, size)) == operand,
    decreases size,
{
    if size > 0 {
        lemma_be_round_trip(operand / 256, (size - 1) as nat);
        let head = be_bytes(operand / 256, (size - 1) as nat);
        assert(be_bytes(operand, size).drop_last() =~= head);
    }
}

/// Decodes the instruction that starts at `ip`. Gives `None` where `ip` is
/// outside `code` or the operand's bytes run past its end.
pub fn decode(code: &Vec<u8>, ip: usize) -> (r: Option<Decoded>)
    ensures
        match r {
            Some(d) => decode_spec(code@, ip as int) == Some(
                (d.opcode, d.operand as nat, d.next as int),
            ),
            None => decode_spec(code@, ip as int) is None,
        },
{
    if ip >= code.len() {
        return None;
    }
    let first: u8 = code[ip];
    let opcode: u8 = first & 0x3f;
    if first & 0x20 == 0 {
        return Some(Decoded { opcode, operand: 0, next: ip + 1 });
    }
    let tag: u8 = first >> 6;
    let width: usize = if tag == 0 {
        1
    } else if tag == 1 {
        2
    } else if tag == 2 {
        4
    } else {
        8
    };
    if code.len() - ip - 1 < width {
        return None;
    }
    let mut operand: u64 = 0;
    let mut k: usize = 0;
    while k < width
        invariant
            k <= width <= 8,
            ip + 1 + width <= code.len(),
            operand as nat == be_value(code@.subrange(ip + 1, ip + 1 + k)),
        decreases width - k,
    {
        let ghost read = code@.subrange(ip + 1, ip + 1 + k);
        let ghost more = code@.subrange(ip + 1, ip + 1 + k + 1);
        proof {
            lemma_be_value_bound(read);
            reveal_with_fuel(byte_limit, 9);
            assert(more.drop_last() =~= read);
        }
        operand = operand * 256 + code[ip + 1 + k] as u64;
        k = k + 1;
    }
    Some(Decoded { opcode, operand, next: ip + 1 + width })
}

impl Instruction {
    /// The number of bytes that the encoded instruction takes.
    pub open spec fn encoded_len(self) -> nat {
        match self.encoding() {
            Encoding::Fixed(size) => 1 + size as nat,
            Encoding::Variadic => 1 + minimal_size(self.operand()) as nat,
            Encoding::Bare => 1,
        }
    }
}

/// Decoding what the encoder wrote gives back the opcode and the operand, and
/// ends exactly behind the encoded bytes; these are 1 byte for an instruction
/// without operand and 2, 3, 5 or 9 bytes for operand widths 1, 2, 4 and 8.
pub proof fn lemma_decode_encode(instruction: Instruction)
    ensures
        encode_spec(instruction).len() == instruction.encoded_len(),
        decode_spec(encode_spec(instruction), 0) == Some(
            (instruction.opcode(), instruction.operand() as nat, instruction.encoded_len() as int),
        ),
{
    let opcode = instruction.opcode();
    let operand = instruction.operand();
    let bytes = encode_spec(instruction);
    reveal_with_fuel(byte_limit, 9);
    match instruction.encoding() {
        Encoding::Bare => {
            assert(opcode & 0x20 == 0 && opcode & 0x3f == opcode) by (bit_vector)
                requires
                    opcode <= 23,
            ;
        },
        _ => {
            let size: u8 = if instruction.encoding() == Encoding::Variadic {
                minimal_size(operand)
            } else {
                2
            };
            let first = opcode | (size_tag(size) << 6);
            let tag = size_tag(size);
            assert(first & 0x20 != 0 && first & 0x3f == opcode && first >> 6 == tag) by (bit_vector)
                requires
                    32 <= opcode <= 63,
                    tag <= 3,
                    first == opcode | (tag << 6),
            ;
            lemma_be_round_trip(operand as nat, size as nat);
            assert(bytes.subrange(1, 1 + size as int) =~= be_bytes(operand as nat, size as nat));
        },
    }
}

/// Wherever the bytes of an encoded instruction stand in a code, the decoder
/// reads there its opcode and operand, and ends behind them.
pub proof fn lemma_decode_at(code: Seq<u8>, ip: int, instruction: Instruction)
    requires
        0 <= ip,
        ip + instruction.encoded_len() <= code.len(),
        code.subrange(ip, ip + instruction.encoded_len()) == encode_spec(instruction),
    ensures
        decode_spec(code, ip) == Some(
            (
                instruction.opcode(),
                instruction.operand() as nat,
                ip + instruction.encoded_len(),
            ),
        ),
{
    lemma_decode_encode(instruction);
    let bytes = encode_spec(instruction);
    let width = operand_width(code[ip]) as int;
    assert(code.subrange(ip + 1, ip + 1 + width) =~= bytes.subrange(1, 1 + width));
}

/// An instruction without operand is encoded as the one byte of its canonical
/// opcode, which is at most 63.
pub proof fn lemma_encode_bare(instruction: Instruction)
    requires
        !instruction.has_operand(),
    ensures
        encode_spec(instruction) == seq![instruction.opcode()],
        instruction.opcode() <= 63,
{
}

/// Whether `code`, read from `ip` to its end, is made of whole instructions,
/// each `konst` of which names one of the first `pool` constants.
#[verifier::opaque]
pub open spec fn konsts_below(code: Seq<u8>, ip: int, pool: nat) -> bool
    decreases code.len() - ip,
{
    if ip < 0 {
        false
    } else if ip >= code.len() {
        ip == code.len()
    } else {
        match decode_spec(code, ip) {
            Some((opcode, operand, next)) => (opcode == IKONST ==> operand < pool) && konsts_below(
                code,
                next,
                pool,
            ),
            None => false,
        }
    }
}

/// Where the instruction behind the one at `ip` begins.
pub open spec fn following(code: Seq<u8>, ip: int) -> int {
    match decode_spec(code, ip) {
        Some((_, _, next)) => next,
        None => ip,
    }
}

/// Whether `first` is the opcode byte of a branch: `jmp` or `cjmp` with the
/// tag of a two-byte operand.
pub open spec fn is_branch(first: u8) -> bool {
    first == IJMP | 0x40 || first == ICJMP | 0x40
}

/// Code behind an instruction does not change what the decoder reads of it.
pub proof fn lemma_decode_prefix(code: Seq<u8>, more: Seq<u8>, ip: int)
    requires
        decode_spec(code, ip) is Some,
    ensures
        decode_spec(code + more, ip) == decode_spec(code, ip),
{
    let width = operand_width(code[ip]);
    assert((code + more)[ip] == code[ip]);
    assert((code + more).subrange(ip + 1, ip + 1 + width) =~= code.subrange(
        ip + 1,
        ip + 1 + width,
    ));
}

/// One more instruction leaves the code made of whole instructions; if it
/// is a `konst`, then of a constant of the pool.
pub proof fn lemma_konsts_append(code: Seq<u8>, ip: int, pool: nat, instruction: Instruction)
    requires
        0 <= ip <= code.len(),
        konsts_below(code, ip, pool),
        instruction.opcode() == IKONST ==> instruction.operand() < pool,
    ensures
        konsts_below(code + encode_spec(instruction), ip, pool),
    decreases code.len() - ip,
{
    reveal_with_fuel(konsts_below, 2);
    let all = code + encode_spec(instruction);
    lemma_decode_encode(instruction);
    if ip < code.len() {
        lemma_decode_prefix(code, encode_spec(instruction), ip);
        lemma_konsts_append(code, following(code, ip), pool, instruction);
    } else {
        assert(all.subrange(ip, ip + instruction.encoded_len()) =~= encode_spec(instruction));
        lemma_decode_at(all, ip, instruction);
    }
}

/// What holds with a pool holds with a larger one.
pub proof fn lemma_konsts_pool(code: Seq<u8>, ip: int, pool: nat, larger: nat)
    requires
        konsts_below(code, ip, pool),
        pool <= larger,
    ensures
        konsts_below(code, ip, larger),
    decreases code.len() - ip,
{
    reveal(konsts_below);
    if 0 <= ip < code.len() {
        lemma_konsts_pool(code, following(code, ip), pool, larger);
    }
}

/// What holds of the code from `ip` on holds of any code of that length with
/// the same bytes from `ip` on.
pub proof fn lemma_konsts_tail(code: Seq<u8>, other: Seq<u8>, ip: int, pool: nat)
    requires
        konsts_below(code, ip, pool),
        other.len() == code.len(),
        forall|j: int| ip <= j < code.len() ==> other[j] == code[j],
    ensures
        konsts_below(other, ip, pool),
    decreases code.len() - ip,
{
    reveal(konsts_below);
    if 0 <= ip < code.len() {
        let width = operand_width(code[ip]);
        assert(other.subrange(ip + 1, ip + 1 + width) =~= code.subrange(ip + 1, ip + 1 + width));
        lemma_konsts_tail(code, other, following(code, ip), pool);
    }
}

/// Other operand bytes for the branch at `at`, up to which the code is made
/// of whole instructions, leave the code made of whole instructions.
pub proof fn lemma_konsts_patch(code: Seq<u8>, at: int, hi: u8, lo: u8, ip: int, pool: nat)
    requires
        0 <= ip <= at,
        at + 3 <= code.len(),
        konsts_below(code.take(at), ip, pool),
        konsts_below(code, ip, pool),
        is_branch(code[at]),
    ensures
        konsts_below(code.update(at + 1, hi).update(at + 2, lo), ip, pool),
    decreases at - ip,
{
    reveal(konsts_below);
    let patched = code.update(at + 1, hi).update(at + 2, lo);
    let first = code[at];
    if ip == at {
        assert(first & 0x20 != 0 && first >> 6 == 1 && first & 0x3f != 50) by (bit_vector)
            requires
                first == 56u8 | 0x40 || first == 57u8 | 0x40,
        ;
        assert(following(code, at) == at + 3);
        assert(following(patched, at) == at + 3);
        lemma_konsts_tail(code, patched, at + 3, pool);
    } else {
        let head = code.take(at);
        assert(code =~= head + code.skip(at));
        lemma_decode_prefix(head, code.skip(at), ip);
        assert(patched =~= head + patched.skip(at));
        lemma_decode_prefix(head, patched.skip(at), ip);
        let next = following(head, ip);
        assert(next <= at) by {
            if next > at {
                assert(!konsts_below(head, next, pool));
            }
        }
        lemma_konsts_patch(code, at, hi, lo, next, pool);
    }
}

/// No code is made of whole instructions.
pub proof fn lemma_konsts_empty(pool: nat)
    ensures
        konsts_below(Seq::<u8>::empty(), 0, pool),
{
    reveal(konsts_below);
}

} // verus!
