use roxty::chunk::Chunk;
use roxty::compiler::compile;
use roxty::debug::{disassemble_chunk, disassemble_instruction};

fn compiled(src: &str) -> Chunk {
    let mut chunk = Chunk::init_chunk();
    assert!(compile(src.as_bytes().to_vec(), &mut chunk));
    chunk
}

#[test]
fn disassembling_twice_yields_identical_text() {
    let chunk = compiled("1+2*3");
    let a = disassemble_chunk(&chunk, "code");
    let b = disassemble_chunk(&chunk, "code");
    assert_eq!(a, b);
    assert!(a.starts_with("== code ==\n"));
    assert!(a.contains("OP_CONSTANT"));
    assert!(a.contains("OP_MULTIPLY"));
    assert!(a.contains("OP_ADD"));
    assert!(a.contains("OP_RETURN"));
}

#[test]
fn instruction_widths_follow_the_encoding() {
    let chunk = compiled("1+2");
    assert_eq!(disassemble_instruction(&chunk, 0).1, 2);
    assert_eq!(disassemble_instruction(&chunk, 2).1, 4);
    assert_eq!(disassemble_instruction(&chunk, 4).1, 5);
    assert_eq!(disassemble_instruction(&chunk, 5).1, 6);
}

#[test]
fn unknown_byte_is_reported_with_width_one() {
    let mut chunk = Chunk::init_chunk();
    chunk.write_chunk(42, 1);
    let (text, next) = disassemble_instruction(&chunk, 0);
    assert!(text.contains("Unknown opcode"));
    assert_eq!(next, 1);
    let whole = disassemble_chunk(&chunk, "bad");
    assert!(whole.contains("Unknown opcode"));
}

#[test]
fn repeated_lines_are_shown_as_a_placeholder() {
    let chunk = compiled("1+2");
    let text = disassemble_chunk(&chunk, "code");
    assert!(text.contains("   |"));
}

#[test]
fn distinct_constants_render_distinctly() {
    let one = compiled("1");
    let two = compiled("2");
    assert_ne!(disassemble_chunk(&one, "code"), disassemble_chunk(&two, "code"));
}
