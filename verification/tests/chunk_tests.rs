use rlox::chunk::{Chunk, LineEncoding, OpCode};

#[test]
fn new_chunk() {
    assert_eq!(Chunk::new_chunk().code.len(), 0);
}

#[test]
fn line_encoder() {
    let mut le = LineEncoding::new();
    le.put(0);
    le.put(0);
    le.put(0);
    le.put(1);
    le.put(1);
    le.put(2);
    le.put(3);
    le.put(3);
    le.put(3);
    le.put(3);
    assert_eq!(le.get(0), 0);
    assert_eq!(le.get(1), 0);
    assert_eq!(le.get(2), 0);
    assert_eq!(le.get(3), 1);
    assert_eq!(le.get(4), 1);
    assert_eq!(le.get(5), 2);
    assert_eq!(le.get(6), 3);
    assert_eq!(le.len(), 4);
}

#[test]
fn disassemble() {
    let mut chunk = Chunk::new_chunk();
    chunk.write_op_code(OpCode::Return, 0);
    for n in 0..260 {
        chunk.write_constant(
            (n as f64 * 2.0).to_bits(),
            (n as f64).sqrt().floor() as usize,
        );
    }
    assert!(chunk.lines.len() < 20);
}

#[test]
fn line_index_round_trip_for_puts_in_order() {
    // Non-decreasing puts; every offset answers the line of its own put.
    let puts: [usize; 9] = [0, 0, 2, 2, 2, 5, 5, 7, 7];
    let mut le = LineEncoding::new();
    for &line in puts.iter() {
        le.put(line);
    }
    for (offset, &line) in puts.iter().enumerate() {
        assert_eq!(le.get(offset), line);
    }
}

#[test]
fn opcode_bytes_round_trip() {
    let all = [
        OpCode::Constant,
        OpCode::Negate,
        OpCode::Multiply,
        OpCode::Divide,
        OpCode::Add,
        OpCode::Subtract,
        OpCode::ConstantLong,
        OpCode::Return,
    ];
    for op in all {
        assert_eq!(OpCode::from_byte(op.to_byte()), Some(op));
    }
    assert_eq!(OpCode::from_byte(8), None);
    assert_eq!(OpCode::from_byte(255), None);
}

#[test]
fn constant_round_trips_bit_for_bit() {
    let mut chunk = Chunk::new_chunk();
    chunk.write_constant(3.25f64.to_bits(), 1);
    let d = chunk.decode_at(0);
    assert_eq!(d.op, OpCode::Constant);
    assert_eq!(d.width, 2);
    assert_eq!(d.constant, Some((0, 3.25f64.to_bits())));
    assert_eq!(f64::from_bits(d.constant.unwrap().1), 3.25);
}

#[test]
fn constant_encoding_switches_to_long_form_past_255() {
    let mut chunk = Chunk::new_chunk();
    let mut offsets = Vec::new();
    for n in 0..300u32 {
        offsets.push(chunk.code.len());
        chunk.write_constant((n as f64 + 0.5).to_bits(), 1);
    }
    for n in 0..300usize {
        let d = chunk.decode_at(offsets[n]);
        if n < 255 {
            assert_eq!(d.op, OpCode::Constant);
            assert_eq!(d.width, 2);
        } else {
            // The 256th constant (pool index 255) must use the long form.
            assert_eq!(d.op, OpCode::ConstantLong);
            assert_eq!(d.width, 4);
        }
        assert_eq!(d.constant, Some((n, (n as f64 + 0.5).to_bits())));
    }
}

#[test]
fn get_line_walks_the_counts() {
    let mut chunk = Chunk::new_chunk();
    chunk.write_op_code(OpCode::Return, 3);
    chunk.write_op_code(OpCode::Return, 3);
    chunk.write_op_code(OpCode::Return, 7);
    assert_eq!(chunk.get_line(0), 3);
    assert_eq!(chunk.get_line(1), 3);
    assert_eq!(chunk.get_line(2), 7);
}

#[test]
fn clear_empties_everything() {
    let mut chunk = Chunk::new_chunk();
    chunk.write_constant(1.0f64.to_bits(), 1);
    chunk.write_op_code(OpCode::Return, 1);
    chunk.clear();
    assert_eq!(chunk.code.len(), 0);
    assert_eq!(chunk.constants.len(), 0);
    assert_eq!(chunk.lines.len(), 0);
}
