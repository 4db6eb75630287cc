use roxty::chunk::{Chunk, OpCode};
use roxty::compiler::{compile, compile_and_report, Diagnostic};
use roxty::value::ValueArray;

fn compile_src(src: &str) -> (bool, Chunk, Vec<Diagnostic>) {
    let mut chunk = Chunk::init_chunk();
    let (ok, diags) = compile_and_report(src.as_bytes().to_vec(), &mut chunk);
    (ok, chunk, diags)
}

#[test]
fn bytecode_layout_of_a_sum() {
    let (ok, chunk, _) = compile_src("1+2");
    assert!(ok);
    assert_eq!(chunk.code, vec![0, 0, 0, 1, 1, 6]);
    assert_eq!(chunk.constants.values, vec![1f64.to_bits(), 2f64.to_bits()]);
    assert_eq!(chunk.lines, vec![1, 1, 1, 1, 1, 1]);
}

#[test]
fn line_table_has_one_entry_per_byte() {
    let (ok, chunk, _) = compile_src("1+\n2");
    assert!(ok);
    assert_eq!(chunk.lines.len(), chunk.code.len());
    assert_eq!(chunk.lines, vec![1, 1, 2, 2, 2, 2]);
}

#[test]
fn constant_pool_round_trip() {
    let (ok, chunk, _) = compile_src("1+2*3");
    assert!(ok);
    let expected = [1.0f64, 2.0, 3.0];
    for (slot, literal) in [(0usize, 0usize), (2, 1), (4, 2)] {
        assert_eq!(chunk.code[slot], OpCode::OP_CONSTANT.byte());
        let index = chunk.code[slot + 1] as usize;
        assert_eq!(f64::from_bits(chunk.constants.values[index]), expected[literal]);
    }
}

#[test]
fn compiling_identical_source_twice_is_byte_identical() {
    let (ok1, c1, _) = compile_src("(-1 + 2) * 3 - 4");
    let (ok2, c2, _) = compile_src("(-1 + 2) * 3 - 4");
    assert!(ok1 && ok2);
    assert_eq!(c1.code, c2.code);
    assert_eq!(c1.constants.values, c2.constants.values);
    assert_eq!(c1.lines, c2.lines);
}

#[test]
fn differing_sources_compile_differently() {
    let (_, c1, _) = compile_src("1+2");
    let (_, c2, _) = compile_src("1-2");
    assert_ne!(c1.code, c2.code);
}

#[test]
fn compile_returns_success_flag() {
    let mut chunk = Chunk::init_chunk();
    assert!(compile("1+1".as_bytes().to_vec(), &mut chunk));
    let mut chunk2 = Chunk::init_chunk();
    assert!(!compile("1+".as_bytes().to_vec(), &mut chunk2));
}

#[test]
fn opcode_bytes_round_trip() {
    let all = [
        OpCode::OP_CONSTANT,
        OpCode::OP_ADD,
        OpCode::OP_SUBTRACT,
        OpCode::OP_MULTIPLY,
        OpCode::OP_DIVIDE,
        OpCode::OP_NEGATE,
        OpCode::OP_RETURN,
    ];
    for op in all {
        assert_eq!(OpCode::try_from(op.byte()), Ok(op));
    }
    assert_eq!(OpCode::try_from(7), Err(()));
    assert_eq!(OpCode::try_from(255), Err(()));
}

#[test]
fn write_chunk_appends_byte_and_line() {
    let mut chunk = Chunk::init_chunk();
    chunk.write_chunk(6, 3);
    chunk.write_chunk(1, 4);
    assert_eq!(chunk.code, vec![6, 1]);
    assert_eq!(chunk.lines, vec![3, 4]);
}

#[test]
fn add_constant_returns_successive_indices() {
    let mut chunk = Chunk::init_chunk();
    assert_eq!(chunk.add_constant(5), 0);
    assert_eq!(chunk.add_constant(9), 1);
    assert_eq!(chunk.constants.values, vec![5, 9]);
}

#[test]
fn value_array_appends_in_order() {
    let mut va = ValueArray::init_value_array();
    va.write_value_array(7);
    va.write_value_array(8);
    assert_eq!(va.values, vec![7, 8]);
}
