//! The disassembler: a deterministic textual trace of a chunk.
//!
//! Rendering a constant's double value is floating-point work and happens
//! outside this library: the caller hands in one rendered text per
//! constant-pool entry, and everything else — offsets, line markers,
//! mnemonics, pool indices, layout — is built and specified here.

use vstd::prelude::*;

use crate::chunk::{
    spec_instr_valid, spec_line_of, spec_mnemonic, spec_opcode_of_byte, spec_width, Chunk, OpCode,
};

verus! {

pub open spec fn spec_dec_digit(d: int) -> char {
    if d == 0 {
        '0'
    } else if d == 1 {
        '1'
    } else if d == 2 {
        '2'
    } else if d == 3 {
        '3'
    } else if d == 4 {
        '4'
    } else if d == 5 {
        '5'
    } else if d == 6 {
        '6'
    } else if d == 7 {
        '7'
    } else if d == 8 {
        '8'
    } else {
        '9'
    }
}

/// The decimal numeral of a non-negative number.
pub open spec fn spec_dec(n: int) -> Seq<char>
    recommends
        n >= 0,
    decreases n,
{
    if n < 10 {
        seq![spec_dec_digit(n)]
    } else {
        spec_dec(n / 10).push(spec_dec_digit(n % 10))
    }
}

/// `s` padded on the left with `fill` up to `width` characters.
pub open spec fn spec_pad_left(s: Seq<char>, width: int, fill: char) -> Seq<char> {
    if s.len() >= width {
        s
    } else {
        Seq::new((width - s.len()) as nat, |i: int| fill) + s
    }
}

/// `s` padded on the right with spaces up to `width` characters.
pub open spec fn spec_pad_right(s: Seq<char>, width: int) -> Seq<char> {
    if s.len() >= width {
        s
    } else {
        s + Seq::new((width - s.len()) as nat, |i: int| ' ')
    }
}

fn digit_str(d: usize) -> (r: &'static str)
    requires
        d < 10,
    ensures
        r@ == seq![spec_dec_digit(d as int)],
{
    proof {
        reveal_strlit("0");
        reveal_strlit("1");
        reveal_strlit("2");
        reveal_strlit("3");
        reveal_strlit("4");
        reveal_strlit("5");
        reveal_strlit("6");
        reveal_strlit("7");
        reveal_strlit("8");
        reveal_strlit("9");
    }
    let r = if d == 0 {
        "0"
    } else if d == 1 {
        "1"
    } else if d == 2 {
        "2"
    } else if d == 3 {
        "3"
    } else if d == 4 {
        "4"
    } else if d == 5 {
        "5"
    } else if d == 6 {
        "6"
    } else if d == 7 {
        "7"
    } else if d == 8 {
        "8"
    } else {
        "9"
    };
    proof {
        assert(r@ =~= seq![spec_dec_digit(d as int)]);
    }
    r
}

/// The decimal numeral of `n`, as text.
pub fn usize_to_dec(n: usize) -> (r: String)
    ensures
        r@ == spec_dec(n as int),
    decreases n,
{
    if n < 10 {
        String::from_str(digit_str(n))
    } else {
        let mut s = usize_to_dec(n / 10);
        s.append(digit_str(n % 10));
        s
    }
}

fn pad_left(s: String, width: usize, zero: bool) -> (r: String)
    ensures
        r@ == spec_pad_left(s@, width as int, if zero { '0' } else { ' ' }),
{
    let ghost fill = if zero { '0' } else { ' ' };
    proof {
        reveal_strlit("0");
        reveal_strlit(" ");
    }
    let n = s.as_str().unicode_len();
    if n >= width {
        return s;
    }
    let mut prefix = String::new();
    let mut count: usize = 0;
    while count < width - n
        invariant
            n == s@.len() < width,
            count <= width - n,
            prefix@ =~= Seq::new(count as nat, |i: int| fill),
            fill == if zero { '0' } else { ' ' },
            "0"@ =~= seq!['0'],
            " "@ =~= seq![' '],
        decreases width - n - count,
    {
        if zero {
            prefix.append("0");
        } else {
            prefix.append(" ");
        }
        count = count + 1;
        proof {
            assert(prefix@ =~= Seq::new(count as nat, |i: int| fill));
        }
    }
    prefix.append(s.as_str());
    proof {
        assert(prefix@ =~= spec_pad_left(s@, width as int, fill));
    }
    prefix
}

fn pad_right(s: String, width: usize) -> (r: String)
    ensures
        r@ == spec_pad_right(s@, width as int),
{
    proof {
        reveal_strlit(" ");
    }
    let n = s.as_str().unicode_len();
    let mut out = s;
    let mut count: usize = n;
    while count < width
        invariant
            n <= count,
            count == out@.len(),
            out@ =~= s@ + Seq::new((count - n) as nat, |i: int| ' '),
            " "@ =~= seq![' '],
            n == s@.len(),
            n < width ==> count <= width,
            n >= width ==> count == n,
        decreases width - count,
    {
        out.append(" ");
        count = count + 1;
        proof {
            assert(out@ =~= s@ + Seq::new((count - n) as nat, |i: int| ' '));
        }
    }
    proof {
        assert(out@ =~= spec_pad_right(s@, width as int));
    }
    out
}

/// The line column of an instruction: the source line right-aligned to four
/// characters, or `   | ` when the line is unchanged from the previous code
/// byte.
pub open spec fn spec_line_column(lines: Seq<usize>, o: int) -> Seq<char> {
    if o > 0 && spec_line_of(lines, o - 1) == spec_line_of(lines, o) {
        "   | "@
    } else {
        spec_pad_left(spec_dec(spec_line_of(lines, o)), 4, ' ') + " "@
    }
}

/// One disassembled instruction line: the zero-padded offset, the line
/// column, the mnemonic, and, for constant loads, the pool index and the
/// constant's rendered value in single quotes.
pub open spec fn spec_instr_text(
    code: Seq<u8>,
    lines: Seq<usize>,
    o: int,
    texts: Seq<Seq<char>>,
) -> Seq<char>
    recommends
        spec_instr_valid(code, texts.len() as int, o),
{
    let head = spec_pad_left(spec_dec(o), 4, '0') + " "@ + spec_line_column(lines, o);
    let op = spec_opcode_of_byte(code[o]).unwrap();
    if op == OpCode::Constant {
        let idx = code[o + 1] as int;
        head + spec_pad_right(spec_mnemonic(op), 16) + " "@ + spec_pad_left(
            spec_dec(idx),
            4,
            ' ',
        ) + " '"@ + texts[idx] + "'\n"@
    } else if op == OpCode::ConstantLong {
        let idx = crate::chunk::spec_long_index(code, o);
        head + spec_pad_right(spec_mnemonic(op), 16) + " "@ + spec_pad_left(
            spec_dec(idx),
            12,
            ' ',
        ) + " '"@ + texts[idx] + "'\n"@
    } else {
        head + spec_mnemonic(op) + "\n"@
    }
}

/// The whole code is a well-formed concatenation of complete, decodable
/// instructions from offset `o` to the end.
pub open spec fn spec_decodable_from(code: Seq<u8>, pool_len: int, o: int) -> bool
    decreases code.len() - o,
{
    if o == code.len() {
        true
    } else if spec_instr_valid(code, pool_len, o) {
        spec_decodable_from(
            code,
            pool_len,
            o + spec_width(spec_opcode_of_byte(code[o]).unwrap()),
        )
    } else {
        false
    }
}

/// The instruction lines from offset `o` to the end of the code.
pub open spec fn spec_trace_from(
    code: Seq<u8>,
    lines: Seq<usize>,
    o: int,
    texts: Seq<Seq<char>>,
) -> Seq<char>
    decreases code.len() - o,
{
    if 0 <= o < code.len() && spec_instr_valid(code, texts.len() as int, o) {
        spec_instr_text(code, lines, o, texts) + spec_trace_from(
            code,
            lines,
            o + spec_width(spec_opcode_of_byte(code[o]).unwrap()),
            texts,
        )
    } else {
        Seq::empty()
    }
}

/// The full trace of a chunk: a header line naming the description, then one
/// line per instruction.
pub open spec fn spec_trace(
    code: Seq<u8>,
    lines: Seq<usize>,
    description: Seq<char>,
    texts: Seq<Seq<char>>,
) -> Seq<char> {
    "== "@ + description + " ==\n"@ + spec_trace_from(code, lines, 0, texts)
}

/// The views of the rendered constant texts.
pub open spec fn spec_texts(value_texts: Seq<String>) -> Seq<Seq<char>> {
    value_texts.map_values(|s: String| s@)
}

/// Disassemble the one instruction starting at `offset`: its text line and
/// the offset of the next instruction. `value_texts` holds one rendered
/// value per constant-pool entry.
pub fn disassemble_instruction(chunk: &Chunk, offset: usize, value_texts: &Vec<String>) -> (r: (
    String,
    usize,
))
    requires
        chunk.wf(),
        spec_instr_valid(chunk.code@, chunk.constants@.len() as int, offset as int),
        value_texts@.len() == chunk.constants@.len(),
    ensures
        r.0@ == spec_instr_text(chunk.code@, chunk.lines@, offset as int, spec_texts(value_texts@)),
        r.1 == offset + spec_width(spec_opcode_of_byte(chunk.code@[offset as int]).unwrap()),
{
    let n = chunk.code.len();
    let mut out = pad_left(usize_to_dec(offset), 4, true);
    out.append(" ");
    let line = chunk.get_line(offset);
    if offset > 0 && chunk.get_line(offset - 1) == line {
        out.append("   | ");
    } else {
        let padded = pad_left(usize_to_dec(line), 4, false);
        out.append(padded.as_str());
        out.append(" ");
    }
    let d = chunk.decode_at(offset);
    match d.constant {
        Some((index, _value)) => {
            let mnemonic = pad_right(String::from_str(d.op.name()), 16);
            out.append(mnemonic.as_str());
            out.append(" ");
            let idx_width: usize = if d.width == 2 {
                4
            } else {
                12
            };
            let padded_idx = pad_left(usize_to_dec(index), idx_width, false);
            out.append(padded_idx.as_str());
            out.append(" '");
            out.append(value_texts[index].as_str());
            out.append("'\n");
        },
        None => {
            out.append(d.op.name());
            out.append("\n");
        },
    }
    (out, offset + d.width)
}

/// Disassemble a whole chunk into its deterministic textual trace: the
/// header `== <description> ==`, then one line per instruction.
pub fn disassemble(chunk: &Chunk, description: &str, value_texts: &Vec<String>) -> (r: String)
    requires
        chunk.wf(),
        spec_decodable_from(chunk.code@, chunk.constants@.len() as int, 0),
        value_texts@.len() == chunk.constants@.len(),
    ensures
        r@ == spec_trace(chunk.code@, chunk.lines@, description@, spec_texts(value_texts@)),
{
    let mut out = String::from_str("== ");
    out.append(description);
    out.append(" ==\n");
    let n = chunk.code.len();
    let mut offset: usize = 0;
    while offset < n
        invariant
            chunk.wf(),
            n == chunk.code@.len(),
            0 <= offset <= n,
            value_texts@.len() == chunk.constants@.len(),
            spec_decodable_from(chunk.code@, chunk.constants@.len() as int, offset as int),
            out@ + spec_trace_from(chunk.code@, chunk.lines@, offset as int, spec_texts(
                value_texts@,
            )) == spec_trace(chunk.code@, chunk.lines@, description@, spec_texts(value_texts@)),
        decreases n - offset,
    {
        let ghost pre = out@;
        let (text, next) = disassemble_instruction(chunk, offset, value_texts);
        out.append(text.as_str());
        offset = next;
        proof {
            let rest = spec_trace_from(
                chunk.code@,
                chunk.lines@,
                offset as int,
                spec_texts(value_texts@),
            );
            assert(out@ + rest =~= pre + (text@ + rest));
        }
    }
    proof {
        assert(out@ + Seq::<char>::empty() =~= out@);
    }
    out
}

/// The trace is deterministic: two traces of the same chunk, description and
/// value renderings are byte-identical.
pub proof fn lemma_trace_deterministic(
    code: Seq<u8>,
    lines: Seq<usize>,
    description: Seq<char>,
    texts: Seq<Seq<char>>,
    t1: Seq<char>,
    t2: Seq<char>,
)
    requires
        t1 == spec_trace(code, lines, description, texts),
        t2 == spec_trace(code, lines, description, texts),
    ensures
        t1 == t2,
{
}

} // verus!
