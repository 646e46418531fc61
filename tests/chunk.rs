use lox::chunk::{Chunk, Decoded, Instruction, OpCode};

#[test]
fn writes_keep_code_and_lines_aligned() {
    let mut chunk = Chunk::new();
    assert!(chunk.code.is_empty() && chunk.lines.is_empty());
    let bytes = [0u8, 7, 0, 255, 0];
    let lines = [1usize, 1, 9, 3, 100];
    for (n, (b, l)) in bytes.iter().zip(lines.iter()).enumerate() {
        chunk.write(*b, *l);
        assert_eq!(chunk.code.len(), n + 1);
        assert_eq!(chunk.lines.len(), n + 1);
    }
    assert_eq!(chunk.code, bytes.to_vec());
    assert_eq!(chunk.lines, lines.to_vec());
}

#[test]
fn simple_chunk_takes_one_step_per_byte() {
    let mut chunk = Chunk::new();
    for line in 0..6 {
        chunk.write(OpCode::OpReturn as u8, line);
    }
    let ins = chunk.instructions();
    assert_eq!(ins.len(), 6);
    for (i, x) in ins.iter().enumerate() {
        assert_eq!(
            *x,
            Instruction {
                offset: i,
                decoded: Decoded::Simple(OpCode::OpReturn)
            }
        );
    }
    let listing = chunk.disassemble("simple");
    assert_eq!(listing.len(), 7);
    assert_eq!(listing[0], "== simple ==");
    assert_eq!(listing[6], "0005 OP_RETURN");
}

#[test]
fn unknown_byte_is_reported_and_listing_goes_on() {
    let mut chunk = Chunk::new();
    chunk.write(0, 1);
    chunk.write(OpCode::OpConstant as u8, 1);
    chunk.write(200, 2);
    chunk.write(0, 2);
    let listing = chunk.disassemble("test chunk");
    assert_eq!(
        listing,
        vec![
            "== test chunk ==".to_string(),
            "0000 OP_RETURN".to_string(),
            "0001 Unknown opcode 1".to_string(),
            "0002 Unknown opcode 200".to_string(),
            "0003 OP_RETURN".to_string(),
        ]
    );
}

#[test]
fn empty_chunk_lists_only_its_header() {
    let chunk = Chunk::new();
    assert!(chunk.instructions().is_empty());
    assert_eq!(chunk.disassemble(""), vec!["==  ==".to_string()]);
}

#[test]
fn decoding_past_the_end_is_out_of_bounds() {
    let mut chunk = Chunk::new();
    chunk.write(0, 1);
    let (ins, next) = chunk.disassemble_instruction(1);
    assert_eq!(ins.decoded, Decoded::OutOfBounds);
    assert_eq!(next, 2);
    assert_eq!(ins.text(), "0001 Attempt to disassemble beyond chunk end");
    let (ins, next) = chunk.disassemble_instruction(5);
    assert_eq!(ins.decoded, Decoded::OutOfBounds);
    assert_eq!(next, 6);
    assert_eq!(ins.text(), "0005 Attempt to disassemble beyond chunk end");
    let (ins, next) = chunk.disassemble_instruction(0);
    assert_eq!(ins.decoded, Decoded::Simple(OpCode::OpReturn));
    assert_eq!(next, 1);
}

#[test]
fn offsets_are_padded_to_four_digits() {
    let at = |offset: usize| Instruction {
        offset,
        decoded: Decoded::Simple(OpCode::OpReturn),
    };
    assert_eq!(at(0).text(), "0000 OP_RETURN");
    assert_eq!(at(42).text(), "0042 OP_RETURN");
    assert_eq!(at(9999).text(), "9999 OP_RETURN");
    assert_eq!(at(123456).text(), "123456 OP_RETURN");
    let unknown = Instruction {
        offset: 7,
        decoded: Decoded::Unknown(9),
    };
    assert_eq!(unknown.text(), "0007 Unknown opcode 9");
}

#[test]
fn opcode_bytes_and_names() {
    assert_eq!(OpCode::from_u8(0), Some(OpCode::OpReturn));
    assert_eq!(OpCode::from_u8(1), None);
    assert_eq!(OpCode::from_u8(255), None);
    assert_eq!(OpCode::OpReturn.name(), "OP_RETURN");
    assert_eq!(OpCode::OpConstant.name(), "OP_CONSTANT");
}
