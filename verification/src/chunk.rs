//! The bytecode container: opcodes, the constant pool, and the line index.

use vstd::prelude::*;

verus! {

/// A single-byte instruction tag identifying an operation the VM can perform.
#[derive(Clone, Copy, PartialEq, Eq, Structural, Debug)]
pub enum OpCode {
    Constant,
    Negate,
    Multiply,
    Divide,
    Add,
    Subtract,
    ConstantLong,
    Return,
}

/// A runtime value: the 64-bit pattern of an IEEE-754 double. The library
/// never performs floating-point arithmetic itself; callers convert between
/// `f64` and this pattern at the boundary.
pub type Value = u64;

pub type Line = usize;

/// The numeric tag encoding an opcode as a byte.
pub open spec fn spec_opcode_byte(op: OpCode) -> u8 {
    match op {
        OpCode::Constant => 0,
        OpCode::Negate => 1,
        OpCode::Multiply => 2,
        OpCode::Divide => 3,
        OpCode::Add => 4,
        OpCode::Subtract => 5,
        OpCode::ConstantLong => 6,
        OpCode::Return => 7,
    }
}

/// The opcode a byte stands for, if any.
pub open spec fn spec_opcode_of_byte(b: u8) -> Option<OpCode> {
    if b == 0 {
        Some(OpCode::Constant)
    } else if b == 1 {
        Some(OpCode::Negate)
    } else if b == 2 {
        Some(OpCode::Multiply)
    } else if b == 3 {
        Some(OpCode::Divide)
    } else if b == 4 {
        Some(OpCode::Add)
    } else if b == 5 {
        Some(OpCode::Subtract)
    } else if b == 6 {
        Some(OpCode::ConstantLong)
    } else if b == 7 {
        Some(OpCode::Return)
    } else {
        None
    }
}

impl OpCode {
    /// Encode this opcode as its numeric tag.
    pub fn to_byte(self) -> (b: u8)
        ensures
            b == spec_opcode_byte(self),
    {
        match self {
            OpCode::Constant => 0,
            OpCode::Negate => 1,
            OpCode::Multiply => 2,
            OpCode::Divide => 3,
            OpCode::Add => 4,
            OpCode::Subtract => 5,
            OpCode::ConstantLong => 6,
            OpCode::Return => 7,
        }
    }

    /// Decode a numeric tag back into an opcode; `None` for an invalid tag.
    pub fn from_byte(b: u8) -> (op: Option<OpCode>)
        ensures
            op == spec_opcode_of_byte(b),
    {
        if b == 0 {
            Some(OpCode::Constant)
        } else if b == 1 {
            Some(OpCode::Negate)
        } else if b == 2 {
            Some(OpCode::Multiply)
        } else if b == 3 {
            Some(OpCode::Divide)
        } else if b == 4 {
            Some(OpCode::Add)
        } else if b == 5 {
            Some(OpCode::Subtract)
        } else if b == 6 {
            Some(OpCode::ConstantLong)
        } else if b == 7 {
            Some(OpCode::Return)
        } else {
            None
        }
    }
}

/// The opcode's mnemonic, as the disassembler spells it.
pub open spec fn spec_mnemonic(op: OpCode) -> Seq<char> {
    match op {
        OpCode::Constant => "Constant"@,
        OpCode::Negate => "Negate"@,
        OpCode::Multiply => "Multiply"@,
        OpCode::Divide => "Divide"@,
        OpCode::Add => "Add"@,
        OpCode::Subtract => "Subtract"@,
        OpCode::ConstantLong => "ConstantLong"@,
        OpCode::Return => "Return"@,
    }
}

impl OpCode {
    /// The opcode's mnemonic, as text.
    pub fn name(&self) -> (r: &'static str)
        ensures
            r@ == spec_mnemonic(*self),
    {
        match self {
            OpCode::Constant => "Constant",
            OpCode::Negate => "Negate",
            OpCode::Multiply => "Multiply",
            OpCode::Divide => "Divide",
            OpCode::Add => "Add",
            OpCode::Subtract => "Subtract",
            OpCode::ConstantLong => "ConstantLong",
            OpCode::Return => "Return",
        }
    }
}

/// Round-trip of the opcode tag encoding: every opcode decodes back to itself.
pub proof fn lemma_opcode_byte_round_trip(op: OpCode)
    ensures
        spec_opcode_of_byte(spec_opcode_byte(op)) == Some(op),
{
}

/// The counts after growing the index so that position `line` exists,
/// filling new positions with zero.
pub open spec fn spec_zero_extend(counts: Seq<usize>, line: int) -> Seq<usize> {
    if line < counts.len() {
        counts
    } else {
        counts + Seq::new((line + 1 - counts.len()) as nat, |i: int| 0usize)
    }
}

/// The counts after recording one more code byte at `line`.
pub open spec fn spec_put(counts: Seq<usize>, line: int) -> Seq<usize>
    recommends
        0 <= line,
{
    let ext = spec_zero_extend(counts, line);
    ext.update(line, (ext[line] + 1) as usize)
}

/// The total number of code bytes the counts record.
pub open spec fn spec_count_sum(counts: Seq<usize>) -> int
    decreases counts.len(),
{
    if counts.len() == 0 {
        0
    } else {
        counts[0] + spec_count_sum(counts.skip(1))
    }
}

/// The source line owning code byte `offset`: the first position at which
/// the running total of counts exceeds `offset`.
pub open spec fn spec_line_of(counts: Seq<usize>, offset: int) -> int
    recommends
        0 <= offset < spec_count_sum(counts),
    decreases counts.len(),
{
    if counts.len() == 0 {
        0
    } else if offset < counts[0] {
        0
    } else {
        1 + spec_line_of(counts.skip(1), offset - counts[0])
    }
}

pub proof fn lemma_count_sum_nonneg(counts: Seq<usize>)
    ensures
        spec_count_sum(counts) >= 0,
    decreases counts.len(),
{
    if counts.len() > 0 {
        lemma_count_sum_nonneg(counts.skip(1));
    }
}

pub proof fn lemma_count_elem_le_sum(counts: Seq<usize>, k: int)
    requires
        0 <= k < counts.len(),
    ensures
        counts[k] <= spec_count_sum(counts),
    decreases counts.len(),
{
    lemma_count_sum_nonneg(counts.skip(1));
    if k > 0 {
        lemma_count_elem_le_sum(counts.skip(1), k - 1);
    }
}

/// Recording one more byte raises the total by exactly one.
pub proof fn lemma_put_sum(counts: Seq<usize>, line: int)
    requires
        0 <= line,
        line < counts.len() ==> counts[line] < usize::MAX,
    ensures
        spec_count_sum(spec_put(counts, line)) == spec_count_sum(counts) + 1,
{
    lemma_zero_extend_sum(counts, line);
    lemma_update_sum(spec_zero_extend(counts, line), line);
}

proof fn lemma_zero_extend_sum(counts: Seq<usize>, line: int)
    requires
        0 <= line,
    ensures
        spec_count_sum(spec_zero_extend(counts, line)) == spec_count_sum(counts),
        spec_zero_extend(counts, line).len() > line,
        line < counts.len() ==> spec_zero_extend(counts, line)[line] == counts[line],
        line >= counts.len() ==> spec_zero_extend(counts, line)[line] == 0,
    decreases counts.len() + line,
{
    let ext = spec_zero_extend(counts, line);
    assert(spec_count_sum(Seq::<usize>::empty()) == 0);
    if line < counts.len() {
    } else if counts.len() == 0 {
        if line == 0 {
            assert(ext =~= seq![0usize]);
            assert(ext.skip(1) =~= Seq::<usize>::empty());
        } else {
            let sub = spec_zero_extend(Seq::<usize>::empty(), line - 1);
            assert(ext[0] == 0);
            assert(ext.skip(1) =~= sub);
            lemma_zero_extend_sum(Seq::<usize>::empty(), line - 1);
            assert(spec_count_sum(ext) == ext[0] + spec_count_sum(ext.skip(1)));
        }
    } else {
        let sub = spec_zero_extend(counts.skip(1), line - 1);
        assert(ext[0] == counts[0]);
        assert(ext.skip(1) =~= sub);
        lemma_zero_extend_sum(counts.skip(1), line - 1);
        assert(spec_count_sum(ext) == ext[0] + spec_count_sum(ext.skip(1)));
        assert(spec_count_sum(counts) == counts[0] + spec_count_sum(counts.skip(1)));
    }
}

proof fn lemma_update_sum(counts: Seq<usize>, line: int)
    requires
        0 <= line < counts.len(),
        counts[line] < usize::MAX,
    ensures
        spec_count_sum(counts.update(line, (counts[line] + 1) as usize)) == spec_count_sum(counts)
            + 1,
    decreases counts.len(),
{
    let upd = counts.update(line, (counts[line] + 1) as usize);
    if line == 0 {
        assert(upd.skip(1) =~= counts.skip(1));
    } else {
        assert(upd.skip(1) =~= counts.skip(1).update(line - 1, (counts[line] + 1) as usize));
        lemma_update_sum(counts.skip(1), line - 1);
    }
}

/// The counts that result from a whole history of `put` calls, one per
/// recorded line value.
pub open spec fn spec_puts(lines: Seq<usize>) -> Seq<usize>
    decreases lines.len(),
{
    if lines.len() == 0 {
        Seq::empty()
    } else {
        spec_put(spec_puts(lines.drop_last()), lines.last() as int)
    }
}

/// A history of `n` puts records `n` code bytes in total.
pub proof fn lemma_puts_sum(lines: Seq<usize>)
    requires
        lines.len() <= usize::MAX,
    ensures
        spec_count_sum(spec_puts(lines)) == lines.len(),
    decreases lines.len(),
{
    if lines.len() > 0 {
        lemma_puts_sum(lines.drop_last());
        let c = spec_puts(lines.drop_last());
        let l = lines.last() as int;
        if l < c.len() {
            lemma_count_elem_le_sum(c, l);
        }
        lemma_put_sum(c, l);
    }
}

proof fn lemma_puts_len(lines: Seq<usize>, m: int)
    requires
        0 <= m,
        forall|k: int| 0 <= k < lines.len() ==> lines[k] <= m,
    ensures
        spec_puts(lines).len() <= m + 1,
    decreases lines.len(),
{
    if lines.len() > 0 {
        assert(lines.last() == lines[lines.len() - 1]);
        assert(forall|k: int|
            0 <= k < lines.drop_last().len() ==> lines.drop_last()[k] == lines[k]);
        lemma_puts_len(lines.drop_last(), m);
        let c = spec_puts(lines.drop_last());
        let l = lines.last() as int;
        let ext = spec_zero_extend(c, l);
        assert(spec_puts(lines).len() == ext.len());
        assert(ext.len() <= m + 1);
    }
}

pub proof fn lemma_line_of_nonneg(counts: Seq<usize>, offset: int)
    ensures
        spec_line_of(counts, offset) >= 0,
    decreases counts.len(),
{
    if counts.len() > 0 && offset >= counts[0] {
        lemma_line_of_nonneg(counts.skip(1), offset - counts[0]);
    }
}

proof fn lemma_put_skip(c: Seq<usize>, l: int)
    requires
        c.len() >= 1,
        1 <= l,
    ensures
        spec_put(c, l)[0] == c[0],
        spec_put(c, l).skip(1) =~= spec_put(c.skip(1), l - 1),
{
    let ext = spec_zero_extend(c, l);
    assert(ext.skip(1) =~= spec_zero_extend(c.skip(1), l - 1));
    assert(spec_put(c, l).skip(1) =~= ext.skip(1).update(l - 1, (ext[l] + 1) as usize));
}

/// Recording one more byte at a line no earlier than the line owning
/// `offset` leaves the lookup at `offset` unchanged.
pub proof fn lemma_put_preserves_lookup(c: Seq<usize>, l: int, offset: int)
    requires
        0 <= offset < spec_count_sum(c),
        spec_line_of(c, offset) <= l,
        l < c.len() ==> c[l] < usize::MAX,
    ensures
        spec_line_of(spec_put(c, l), offset) == spec_line_of(c, offset),
    decreases c.len(),
{
    let new = spec_put(c, l);
    assert(c.len() > 0);
    if offset < c[0] {
        if l == 0 {
            assert(new[0] == c[0] + 1);
        } else {
            lemma_put_skip(c, l);
        }
        assert(new.len() > 0);
    } else {
        lemma_line_of_nonneg(c.skip(1), offset - c[0]);
        assert(l >= 1);
        lemma_put_skip(c, l);
        if l - 1 < c.skip(1).len() {
            assert(c.skip(1)[l - 1] == c[l]);
        }
        lemma_put_preserves_lookup(c.skip(1), l - 1, offset - c[0]);
    }
}

proof fn lemma_put_empty_lookup(l: int)
    requires
        0 <= l,
    ensures
        spec_line_of(spec_put(Seq::<usize>::empty(), l), 0) == l,
    decreases l,
{
    let new = spec_put(Seq::<usize>::empty(), l);
    if l == 0 {
        assert(new =~= seq![1usize]);
    } else {
        lemma_put_empty_lookup(l - 1);
        let sub = spec_put(Seq::<usize>::empty(), l - 1);
        assert(new[0] == 0);
        assert(new.skip(1) =~= sub);
    }
}

/// When every byte so far was recorded at a line no later than `l`,
/// recording one more byte at `l` makes the lookup at the new offset
/// answer `l`.
pub proof fn lemma_put_lookup_new(c: Seq<usize>, l: int)
    requires
        0 <= l,
        c.len() <= l + 1,
        l < c.len() ==> c[l] < usize::MAX,
        spec_count_sum(c) < usize::MAX,
    ensures
        spec_line_of(spec_put(c, l), spec_count_sum(c)) == l,
    decreases c.len(), l,
{
    let new = spec_put(c, l);
    lemma_count_sum_nonneg(c);
    if c.len() == 0 {
        lemma_put_empty_lookup(l);
    } else if l == 0 {
        assert(c.len() == 1);
        assert(new =~= seq![(c[0] + 1) as usize]);
        assert(spec_count_sum(c) == c[0] + spec_count_sum(c.skip(1)));
        assert(c.skip(1) =~= Seq::<usize>::empty());
    } else {
        lemma_put_skip(c, l);
        lemma_count_sum_nonneg(c.skip(1));
        if l - 1 < c.skip(1).len() {
            assert(c.skip(1)[l - 1] == c[l]);
        }
        lemma_put_lookup_new(c.skip(1), l - 1);
    }
}

/// Round-trip of the line index: after any history of `put(line)` calls made
/// with non-decreasing line values, looking up offset `i` answers the line
/// that was current for the `i`-th put.
pub proof fn lemma_line_index_round_trip(lines: Seq<usize>, i: int)
    requires
        lines.len() <= usize::MAX,
        forall|p: int, q: int| 0 <= p <= q < lines.len() ==> lines[p] <= lines[q],
        0 <= i < lines.len(),
    ensures
        spec_count_sum(spec_puts(lines)) == lines.len(),
        spec_line_of(spec_puts(lines), i) == lines[i],
    decreases lines.len(),
{
    let pre = lines.drop_last();
    let c = spec_puts(pre);
    let l = lines.last() as int;
    lemma_puts_sum(pre);
    lemma_puts_sum(lines);
    if l < c.len() {
        lemma_count_elem_le_sum(c, l);
    }
    if i == lines.len() - 1 {
        lemma_puts_len(pre, l);
        lemma_put_lookup_new(c, l);
    } else {
        lemma_line_index_round_trip(pre, i);
        lemma_put_preserves_lookup(c, l, i);
    }
}

/// A compact mapping from bytecode offset to source line: position `L` holds
/// the count of code bytes emitted while the current source line was `L`.
/// Offset lookup is correct as long as bytes are recorded in non-decreasing
/// line order (see [`lemma_line_index_round_trip`]).
pub struct LineEncoding {
    counts: Vec<usize>,
}

impl View for LineEncoding {
    type V = Seq<usize>;

    closed spec fn view(&self) -> Seq<usize> {
        self.counts@
    }
}

impl LineEncoding {
    pub fn new() -> (r: LineEncoding)
        ensures
            r@ == Seq::<usize>::empty(),
    {
        LineEncoding { counts: Vec::new() }
    }

    pub fn len(&self) -> (r: usize)
        ensures
            r == self@.len(),
    {
        self.counts.len()
    }

    /// Record one more code byte at `line`, growing the index with zero-fill
    /// if `line` is beyond the current length.
    pub fn put(&mut self, line: Line)
        requires
            line < usize::MAX,
            line < old(self)@.len() ==> old(self)@[line as int] < usize::MAX,
        ensures
            final(self)@ == spec_put(old(self)@, line as int),
    {
        proof {
            lemma_zero_extend_sum(self@, line as int);
        }
        if line >= self.counts.len() {
            let ghost pre = self.counts@;
            let mut fill = self.counts.len();
            while fill < 1 + line
                invariant
                    line < usize::MAX,
                    pre.len() <= fill == self.counts@.len() <= 1 + line,
                    self.counts@ =~= pre + Seq::new((fill - pre.len()) as nat, |i: int| 0usize),
                decreases 1 + line - fill,
            {
                self.counts.push(0);
                fill = fill + 1;
            }
            assert(self.counts@ =~= spec_zero_extend(pre, line as int));
        }
        let c = self.counts[line];
        self.counts[line] = c + 1;
    }

    /// Return the source line owning code byte `offset`: walk the counts from
    /// line 0 accumulating until the running total exceeds `offset`.
    pub fn get(&self, offset: Line) -> (r: Line)
        requires
            spec_count_sum(self@) <= usize::MAX,
            offset < spec_count_sum(self@),
        ensures
            r == spec_line_of(self@, offset as int),
    {
        let mut tracker: usize = 0;
        let mut index: usize = 0;
        let n = self.counts.len();
        proof {
            assert(self@.skip(0) =~= self@);
        }
        while tracker <= offset
            invariant
                index <= n == self@.len(),
                spec_count_sum(self@) <= usize::MAX,
                offset < spec_count_sum(self@),
                tracker + spec_count_sum(self@.skip(index as int)) == spec_count_sum(self@),
                index == 0 ==> tracker == 0,
                spec_line_of(self@, offset as int) == if tracker <= offset {
                    index + spec_line_of(self@.skip(index as int), offset - tracker)
                } else {
                    index - 1
                },
            decreases self@.len() - index,
        {
            proof {
                if index == self@.len() {
                    assert(self@.skip(index as int) =~= Seq::<usize>::empty());
                }
                assert(index < self@.len());
                assert(self@.skip(index as int).skip(1) =~= self@.skip(index as int + 1));
                lemma_count_sum_nonneg(self@.skip(index as int + 1));
                assert(self@.skip(index as int)[0] == self@[index as int]);
            }
            tracker = tracker + self.counts[index];
            index = index + 1;
        }
        index - 1
    }

    /// Truncate the index to empty.
    pub fn clear(&mut self)
        ensures
            final(self)@ == Seq::<usize>::empty(),
    {
        self.counts.truncate(0);
    }
}

/// How many code bytes an instruction with this opcode occupies, operand
/// bytes included.
pub open spec fn spec_width(op: OpCode) -> int {
    match op {
        OpCode::Constant => 2,
        OpCode::ConstantLong => 4,
        _ => 1,
    }
}

/// The big-endian 24-bit pool index held in the three operand bytes of a
/// `ConstantLong` instruction starting at `o`.
pub open spec fn spec_long_index(code: Seq<u8>, o: int) -> int {
    code[o + 1] * 0x10000 + code[o + 2] * 0x100 + code[o + 3]
}

/// The bytes that load the constant-pool entry at `idx`: the short form for
/// an index below 255, the long form otherwise.
pub open spec fn spec_constant_encoding(idx: int) -> Seq<u8> {
    if idx < 255 {
        seq![spec_opcode_byte(OpCode::Constant), idx as u8]
    } else {
        seq![
            spec_opcode_byte(OpCode::ConstantLong),
            (idx / 0x10000) as u8,
            (idx / 0x100) as u8,
            idx as u8,
        ]
    }
}

/// A complete, decodable instruction starts at offset `o`: the byte there is
/// a defined opcode tag, its operand bytes are all present, and a constant
/// load refers into the pool.
pub open spec fn spec_instr_valid(code: Seq<u8>, pool_len: int, o: int) -> bool {
    &&& 0 <= o < code.len()
    &&& spec_opcode_of_byte(code[o]) is Some
    &&& {
        let op = spec_opcode_of_byte(code[o]).unwrap();
        &&& o + spec_width(op) <= code.len()
        &&& (op == OpCode::Constant ==> code[o + 1] < pool_len)
        &&& (op == OpCode::ConstantLong ==> spec_long_index(code, o) < pool_len)
    }
}

/// What one instruction decodes to: its opcode, the width it occupies, and,
/// for a constant load, the pool index and the value there.
#[derive(Clone, Copy, Debug, PartialEq)]
pub struct Decoded {
    pub op: OpCode,
    pub width: usize,
    pub constant: Option<(usize, Value)>,
}

/// The decoding of the instruction starting at offset `o`.
pub open spec fn spec_decode(code: Seq<u8>, constants: Seq<Value>, o: int) -> Decoded
    recommends
        spec_instr_valid(code, constants.len() as int, o),
{
    let op = spec_opcode_of_byte(code[o]).unwrap();
    Decoded {
        op,
        width: spec_width(op) as usize,
        constant: if op == OpCode::Constant {
            Some((code[o + 1] as usize, constants[code[o + 1] as int]))
        } else if op == OpCode::ConstantLong {
            Some((spec_long_index(code, o) as usize, constants[spec_long_index(code, o)]))
        } else {
            None
        },
    }
}

/// The compiled-code artifact: instruction bytes, the constant pool, and the
/// line index.
pub struct Chunk {
    pub code: Vec<u8>,
    pub constants: Vec<Value>,
    pub lines: LineEncoding,
}

impl Chunk {
    /// The line index records exactly one count per code byte.
    pub open spec fn wf(&self) -> bool {
        spec_count_sum(self.lines@) == self.code@.len()
    }

    pub fn new_chunk() -> (r: Chunk)
        ensures
            r.code@ == Seq::<u8>::empty(),
            r.constants@ == Seq::<Value>::empty(),
            r.lines@ == Seq::<usize>::empty(),
            r.wf(),
    {
        Chunk { code: Vec::new(), constants: Vec::new(), lines: LineEncoding::new() }
    }

    fn write_code(&mut self, code: u8, line: Line)
        requires
            old(self).wf(),
            old(self).code@.len() < usize::MAX,
            line < usize::MAX,
        ensures
            final(self).wf(),
            final(self).code@ == old(self).code@.push(code),
            final(self).constants@ == old(self).constants@,
            final(self).lines@ == spec_put(old(self).lines@, line as int),
    {
        proof {
            if (line as int) < self.lines@.len() {
                lemma_count_elem_le_sum(self.lines@, line as int);
            }
            lemma_put_sum(self.lines@, line as int);
        }
        self.code.push(code);
        self.lines.put(line);
    }

    /// Append one opcode's numeric tag and record its source line.
    pub fn write_op_code(&mut self, op_code: OpCode, line: Line)
        requires
            old(self).wf(),
            old(self).code@.len() < usize::MAX,
            line < usize::MAX,
        ensures
            final(self).wf(),
            final(self).code@ == old(self).code@.push(spec_opcode_byte(op_code)),
            final(self).constants@ == old(self).constants@,
            final(self).lines@ == spec_put(old(self).lines@, line as int),
    {
        self.write_code(op_code.to_byte(), line);
    }

    fn put_constant(&mut self, value: Value) -> (idx: usize)
        ensures
            final(self).constants@ == old(self).constants@.push(value),
            idx == old(self).constants@.len(),
            final(self).code@ == old(self).code@,
            final(self).lines@ == old(self).lines@,
    {
        self.constants.push(value);
        self.constants.len() - 1
    }

    /// Add `value` to the constant pool (without deduplication) and append
    /// the instruction that loads it, in the short or the long form
    /// depending on the new entry's index.
    pub fn write_constant(&mut self, value: Value, line: Line)
        requires
            old(self).wf(),
            old(self).constants@.len() < 0x1000000,
            old(self).code@.len() + 4 <= usize::MAX,
            line < usize::MAX,
        ensures
            final(self).wf(),
            final(self).constants@ == old(self).constants@.push(value),
            final(self).code@ == old(self).code@ + spec_constant_encoding(
                old(self).constants@.len() as int,
            ),
            final(self).lines@ == if old(self).constants@.len() < 255 {
                spec_put(spec_put(old(self).lines@, line as int), line as int)
            } else {
                spec_put(
                    spec_put(
                        spec_put(spec_put(old(self).lines@, line as int), line as int),
                        line as int,
                    ),
                    line as int,
                )
            },
    {
        let ghost pre = self.code@;
        let constant_offset = self.put_constant(value);
        if constant_offset < 255 {
            self.write_op_code(OpCode::Constant, line);
            self.write_code(constant_offset as u8, line);
            proof {
                assert(self.code@ =~= pre + spec_constant_encoding(constant_offset as int));
            }
        } else {
            self.write_op_code(OpCode::ConstantLong, line);
            self.write_code((constant_offset / 0x10000) as u8, line);
            self.write_code((constant_offset / 0x100) as u8, line);
            self.write_code(constant_offset as u8, line);
            proof {
                assert(self.code@ =~= pre + spec_constant_encoding(constant_offset as int));
            }
        }
    }

    /// The source line owning the code byte at `offset`.
    pub fn get_line(&self, offset: Line) -> (r: Line)
        requires
            self.wf(),
            offset < self.code@.len(),
        ensures
            r == spec_line_of(self.lines@, offset as int),
    {
        let n = self.code.len();
        self.lines.get(offset)
    }

    /// Decode the instruction starting at `offset`, which must be an
    /// instruction boundary with a defined opcode, complete operands, and an
    /// in-range pool index; callers only ever walk offsets obtained from
    /// successive widths, starting at zero.
    pub fn decode_at(&self, offset: usize) -> (d: Decoded)
        requires
            spec_instr_valid(self.code@, self.constants@.len() as int, offset as int),
        ensures
            d == spec_decode(self.code@, self.constants@, offset as int),
    {
        let n = self.code.len();
        let op = OpCode::from_byte(self.code[offset]).unwrap();
        match op {
            OpCode::Constant => {
                let index = self.code[offset + 1] as usize;
                Decoded { op, width: 2, constant: Some((index, self.constants[index])) }
            },
            OpCode::ConstantLong => {
                let index = (self.code[offset + 1] as usize) * 0x10000 + (self.code[offset
                    + 2] as usize) * 0x100 + (self.code[offset + 3] as usize);
                Decoded { op, width: 4, constant: Some((index, self.constants[index])) }
            },
            _ => Decoded { op, width: 1, constant: None },
        }
    }

    /// Truncate code, constants, and line data to empty, for reuse.
    pub fn clear(&mut self)
        ensures
            final(self).code@ == Seq::<u8>::empty(),
            final(self).constants@ == Seq::<Value>::empty(),
            final(self).lines@ == Seq::<usize>::empty(),
            final(self).wf(),
    {
        self.lines.clear();
        self.code.truncate(0);
        self.constants.truncate(0);
    }
}

/// Round-trip of the constant-load encoding: appending the bytes that load a
/// new pool entry yields a valid instruction at the old end of the code, and
/// decoding it returns the entry's index and the value unchanged; the short
/// form is used exactly below pool index 255.
pub proof fn lemma_constant_round_trip(code: Seq<u8>, constants: Seq<Value>, value: Value)
    requires
        constants.len() < 0x1000000,
    ensures
        ({
            let idx = constants.len() as int;
            let code2 = code + spec_constant_encoding(idx);
            let constants2 = constants.push(value);
            let d = spec_decode(code2, constants2, code.len() as int);
            &&& spec_instr_valid(code2, constants2.len() as int, code.len() as int)
            &&& d.constant == Some((idx as usize, value))
            &&& d.op == (if idx < 255 {
                OpCode::Constant
            } else {
                OpCode::ConstantLong
            })
            &&& code.len() + d.width == code2.len()
        }),
{
    let idx = constants.len() as int;
    let code2 = code + spec_constant_encoding(idx);
    let constants2 = constants.push(value);
    let o = code.len() as int;
    if idx < 255 {
        assert(code2[o] == spec_opcode_byte(OpCode::Constant));
        assert(code2[o + 1] == idx as u8);
    } else {
        assert(code2[o] == spec_opcode_byte(OpCode::ConstantLong));
        lemma_long_bytes_value(idx);
        assert(code2[o + 1] == (idx / 0x10000) as u8 && code2[o + 2] == (idx / 0x100) as u8 && code2[
        o + 3] == idx as u8);
        assert(spec_long_index(code2, o) == idx);
    }
}

/// The three big-endian bytes of a 24-bit pool index reassemble to the index.
pub proof fn lemma_long_bytes_value(idx: int)
    requires
        0 <= idx < 0x1000000,
    ensures
        ((idx / 0x10000) as u8) * 0x10000 + ((idx / 0x100) as u8) * 0x100 + (idx as u8) == idx,
{
    let b1 = (idx / 0x10000) as u8;
    let b2 = (idx / 0x100) as u8;
    let b3 = idx as u8;
    let x = idx as u64;
    assert(((x / 0x10000) as u8) as u64 * 0x10000 + ((x / 0x100) as u8) as u64 * 0x100 + ((
    x as u8) as u64) == x) by (bit_vector)
        requires
            x < 0x1000000,
    ;
    assert(b1 == (x / 0x10000) as u8 && b2 == (x / 0x100) as u8 && b3 == x as u8);
}

} // verus!
