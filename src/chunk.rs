use vstd::prelude::*;
use vstd::string::*;

verus! {

/// An instruction mnemonic of the virtual machine.
#[derive(Clone, Copy, Debug, PartialEq, Eq, Structural)]
pub enum OpCode {
    OpReturn,
    OpConstant,
}

/// The opcode that a byte stands for, if any.
pub open spec fn opcode_of(byte: u8) -> Option<OpCode> {
    if byte == 0 {
        Some(OpCode::OpReturn)
    } else {
        None
    }
}

impl OpCode {
    /// The mnemonic shown for the opcode.
    pub open spec fn mnemonic(self) -> Seq<char> {
        match self {
            OpCode::OpReturn => "OP_RETURN"@,
            OpCode::OpConstant => "OP_CONSTANT"@,
        }
    }

    /// The mnemonic of the opcode.
    pub fn name(&self) -> (r: &'static str)
        ensures
            r@ == self.mnemonic(),
    {
        match self {
            OpCode::OpReturn => "OP_RETURN",
            OpCode::OpConstant => "OP_CONSTANT",
        }
    }

    /// The opcode that a byte stands for, or `None` for an unknown byte.
    pub fn from_u8(val: u8) -> (r: Option<Self>)
        ensures
            r == opcode_of(val),
    {
        match val {
            0 => Some(OpCode::OpReturn),
            _ => None,
        }
    }
}


/// What the disassembler reads at one offset of a chunk.
#[derive(Clone, Copy, Debug, PartialEq, Eq, Structural)]
pub enum Decoded {
    /// A recognised instruction without operands.
    Simple(OpCode),
    /// A byte that names no opcode; disassembly goes on after it.
    Unknown(u8),
    /// The offset lies at or past the end of the chunk.
    OutOfBounds,
}

/// One decoded instruction and the offset it was read at.
#[derive(Clone, Copy, Debug, PartialEq, Eq, Structural)]
pub struct Instruction {
    pub offset: usize,
    pub decoded: Decoded,
}

/// The instruction read at `offset` of `code`.
pub open spec fn decode_at(code: Seq<u8>, offset: int) -> Instruction {
    Instruction {
        offset: offset as usize,
        decoded: if offset < 0 || offset >= code.len() {
            Decoded::OutOfBounds
        } else {
            match opcode_of(code[offset]) {
                Some(op) => Decoded::Simple(op),
                None => Decoded::Unknown(code[offset]),
            }
        },
    }
}

/// The number of bytes that an instruction takes, operands included.
pub open spec fn width(d: Decoded) -> nat {
    match d {
        Decoded::Simple(_) => 1,
        Decoded::Unknown(_) => 1,
        Decoded::OutOfBounds => 1,
    }
}

/// The offset where decoding goes on after the instruction at `offset`.
pub open spec fn next_offset(code: Seq<u8>, offset: int) -> int {
    offset + width(decode_at(code, offset).decoded)
}

/// The instructions decoded from `offset` to the end of `code`, in order.
pub open spec fn decode_from(code: Seq<u8>, offset: int) -> Seq<Instruction>
    decreases code.len() - offset,
{
    if 0 <= offset < code.len() {
        seq![decode_at(code, offset)] + decode_from(code, next_offset(code, offset))
    } else {
        Seq::empty()
    }
}

proof fn lemma_decode_from_steps(code: Seq<u8>, k: int)
    requires
        0 <= k <= code.len(),
        code.len() <= usize::MAX,
    ensures
        decode_from(code, k).len() == code.len() - k,
        forall|i: int|
            0 <= i < code.len() - k ==> #[trigger] decode_from(code, k)[i] == decode_at(code, k + i),
    decreases code.len() - k,
{
    if k < code.len() {
        lemma_decode_from_steps(code, k + 1);
        let rest = decode_from(code, k + 1);
        assert forall|i: int| 0 <= i < code.len() - k implies #[trigger] decode_from(code, k)[i]
            == decode_at(code, k + i) by {
            if i > 0 {
                assert(decode_from(code, k)[i] == rest[i - 1]);
            }
        }
    }
}

/// Disassembling a chunk whose bytes are all instructions without operands
/// takes one decode step per byte: the `i`-th step reads offset `i` and names
/// the opcode of byte `i`.
pub proof fn lemma_simple_chunk_steps(code: Seq<u8>)
    requires
        code.len() <= usize::MAX,
        forall|i: int| 0 <= i < code.len() ==> (#[trigger] opcode_of(code[i])) is Some,
    ensures
        decode_from(code, 0).len() == code.len(),
        forall|i: int|
            0 <= i < code.len() ==> #[trigger] decode_from(code, 0)[i] == (Instruction {
                offset: i as usize,
                decoded: Decoded::Simple(opcode_of(code[i])->Some_0),
            }),
{
    lemma_decode_from_steps(code, 0);
    assert forall|i: int| 0 <= i < code.len() implies #[trigger] decode_from(code, 0)[i] == (
    Instruction { offset: i as usize, decoded: Decoded::Simple(opcode_of(code[i])->Some_0) }) by {
        assert(decode_from(code, 0)[i] == decode_at(code, 0 + i));
    }
}

/// A byte that names no opcode is reported as unknown at its own offset, and
/// disassembly still takes one step for every byte of the chunk.
pub proof fn lemma_unknown_byte_reported(code: Seq<u8>, i: int)
    requires
        code.len() <= usize::MAX,
        0 <= i < code.len(),
        opcode_of(code[i]) is None,
    ensures
        decode_from(code, 0).len() == code.len(),
        decode_from(code, 0)[i] == (Instruction { offset: i as usize, decoded: Decoded::Unknown(code[i]) }),
{
    lemma_decode_from_steps(code, 0);
    assert(decode_from(code, 0)[i] == decode_at(code, 0 + i));
}

/// The decimal digit `d` as a character.
pub open spec fn digit_char(d: int) -> char {
    seq!['0', '1', '2', '3', '4', '5', '6', '7', '8', '9'][d]
}

/// The decimal numeral of `n`, without leading zeros.
pub open spec fn decimal(n: nat) -> Seq<char>
    decreases n,
{
    if n < 10 {
        seq![digit_char(n as int)]
    } else {
        decimal(n / 10).push(digit_char((n % 10) as int))
    }
}

/// The decimal numeral of `n`, padded with zeros on the left to four digits.
pub open spec fn offset_text(n: nat) -> Seq<char> {
    let d = decimal(n);
    if d.len() < 4 {
        Seq::new((4 - d.len()) as nat, |_i: int| '0') + d
    } else {
        d
    }
}

/// The listing line of one decoded instruction.
pub open spec fn instruction_text(ins: Instruction) -> Seq<char> {
    offset_text(ins.offset as nat) + seq![' '] + match ins.decoded {
        Decoded::Simple(op) => op.mnemonic(),
        Decoded::Unknown(b) => "Unknown opcode "@ + decimal(b as nat),
        Decoded::OutOfBounds => "Attempt to disassemble beyond chunk end"@,
    }
}

/// The first line of the listing of a chunk called `name`.
pub open spec fn header_text(name: Seq<char>) -> Seq<char> {
    "== "@ + name + " =="@
}

/// The decimal digit `d` as a one-character string.
fn digit(d: usize) -> (r: &'static str)
    requires
        d < 10,
    ensures
        r@ == seq![digit_char(d as int)],
{
    match d {
        0 => {
            proof { reveal_strlit("0"); }
            "0"
        },
        1 => {
            proof { reveal_strlit("1"); }
            "1"
        },
        2 => {
            proof { reveal_strlit("2"); }
            "2"
        },
        3 => {
            proof { reveal_strlit("3"); }
            "3"
        },
        4 => {
            proof { reveal_strlit("4"); }
            "4"
        },
        5 => {
            proof { reveal_strlit("5"); }
            "5"
        },
        6 => {
            proof { reveal_strlit("6"); }
            "6"
        },
        7 => {
            proof { reveal_strlit("7"); }
            "7"
        },
        8 => {
            proof { reveal_strlit("8"); }
            "8"
        },
        _ => {
            proof { reveal_strlit("9"); }
            "9"
        },
    }
}

/// Adds the decimal numeral of `n` at the end of `out`.
fn push_decimal(out: &mut String, n: usize)
    ensures
        final(out)@ == old(out)@ + decimal(n as nat),
    decreases n,
{
    if n >= 10 {
        push_decimal(out, n / 10);
    }
    out.append(digit(n % 10));
    assert(out@ =~= old(out)@ + decimal(n as nat));
}

impl Instruction {
    /// The listing line of the instruction: its offset in four digits, then
    /// the mnemonic or a diagnostic.
    pub fn text(&self) -> (r: String)
        ensures
            r@ == instruction_text(*self),
    {
        let mut digits = String::new();
        push_decimal(&mut digits, self.offset);
        let n = digits.as_str().unicode_len();
        let mut out = String::new();
        let mut i: usize = n;
        while i < 4
            invariant
                n <= i <= 4 || (n > 4 && i == n),
                n == digits@.len(),
                out@ == Seq::new((i - n) as nat, |_i: int| '0'),
            decreases 4 - i,
        {
            proof {
                reveal_strlit("0");
            }
            out.append("0");
            assert(out@ =~= Seq::new((i + 1 - n) as nat, |_i: int| '0'));
            i = i + 1;
        }
        out.append(digits.as_str());
        assert(out@ =~= offset_text(self.offset as nat));
        proof {
            reveal_strlit(" ");
        }
        out.append(" ");
        match self.decoded {
            Decoded::Simple(op) => out.append(op.name()),
            Decoded::Unknown(b) => {
                out.append("Unknown opcode ");
                push_decimal(&mut out, b as usize);
            },
            Decoded::OutOfBounds => out.append("Attempt to disassemble beyond chunk end"),
        }
        assert(out@ =~= instruction_text(*self));
        out
    }
}

/// A sequence of instruction bytes with the source line of each byte.
pub struct Chunk {
    pub code: Vec<u8>,
    pub lines: Vec<usize>,
}

impl Chunk {
    /// Each byte has exactly one line entry.
    pub open spec fn wf(&self) -> bool {
        self.code@.len() == self.lines@.len()
    }

    /// The full disassembly of the chunk, from offset zero.
    pub open spec fn disassembly(&self) -> Seq<Instruction> {
        decode_from(self.code@, 0)
    }

    /// An empty chunk.
    pub fn new() -> (c: Chunk)
        ensures
            c.code@ == Seq::<u8>::empty(),
            c.lines@ == Seq::<usize>::empty(),
            c.wf(),
    {
        Chunk { code: Vec::new(), lines: Vec::new() }
    }

    /// Appends a byte and its line together.
    pub fn write(&mut self, byte: u8, line: usize)
        ensures
            final(self).code@ == old(self).code@.push(byte),
            final(self).lines@ == old(self).lines@.push(line),
            old(self).wf() ==> final(self).wf(),
    {
        self.code.push(byte);
        self.lines.push(line);
    }

    /// Decodes the single instruction at `offset` and gives the offset where
    /// decoding goes on. At or past the end, it reports the offset as out of
    /// bounds and gives the offset one past it, so a loop that drives it stops.
    pub fn disassemble_instruction(&self, offset: usize) -> (r: (Instruction, usize))
        requires
            offset < usize::MAX,
        ensures
            r.0 == decode_at(self.code@, offset as int),
            r.1 as int == next_offset(self.code@, offset as int),
    {
        if offset >= self.code.len() {
            return (Instruction { offset, decoded: Decoded::OutOfBounds }, offset + 1);
        }
        let byte = self.code[offset];
        let decoded = match OpCode::from_u8(byte) {
            Some(op) => Decoded::Simple(op),
            None => Decoded::Unknown(byte),
        };
        (Instruction { offset, decoded }, offset + 1)
    }

    /// Decodes the whole chunk, one instruction after another.
    pub fn instructions(&self) -> (r: Vec<Instruction>)
        ensures
            r@ == self.disassembly(),
    {
        let mut out: Vec<Instruction> = Vec::new();
        let mut offset: usize = 0;
        while offset < self.code.len()
            invariant
                offset <= self.code@.len(),
                out@ + decode_from(self.code@, offset as int) == self.disassembly(),
            decreases self.code@.len() - offset,
        {
            let (ins, next) = self.disassemble_instruction(offset);
            proof {
                let rest = decode_from(self.code@, next as int);
                assert(decode_from(self.code@, offset as int) == seq![ins] + rest);
                assert(out@.push(ins) + rest =~= out@ + (seq![ins] + rest));
            }
            out.push(ins);
            offset = next;
        }
        assert(decode_from(self.code@, offset as int) =~= Seq::<Instruction>::empty());
        assert(out@ + Seq::<Instruction>::empty() =~= out@);
        out
    }

    /// The listing of the chunk: a header naming it, then one line for each
    /// decoded instruction.
    pub fn disassemble(&self, name: &str) -> (r: Vec<String>)
        ensures
            r@.len() == self.disassembly().len() + 1,
            r@[0]@ == header_text(name@),
            forall|i: int|
                0 <= i < self.disassembly().len() ==> #[trigger] r@[i + 1]@ == instruction_text(
                    self.disassembly()[i],
                ),
    {
        let ins = self.instructions();
        let mut header = String::from_str("== ");
        header.append(name);
        header.append(" ==");
        let mut out: Vec<String> = Vec::new();
        out.push(header);
        let mut i: usize = 0;
        while i < ins.len()
            invariant
                i <= ins@.len(),
                ins@ == self.disassembly(),
                out@.len() == i + 1,
                out@[0]@ == header_text(name@),
                forall|j: int| 0 <= j < i ==> #[trigger] out@[j + 1]@ == instruction_text(ins@[j]),
            decreases ins@.len() - i,
        {
            let line = ins[i].text();
            out.push(line);
            i = i + 1;
        }
        out
    }
}

} // verus!
