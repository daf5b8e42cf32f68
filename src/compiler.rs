//! Single-pass lowering of a syntax tree into a chunk, with jump patching for structured
//! control flow. The compiler keeps a ghost list of instruction starts to show that every
//! jump, and every function entry, lands on an instruction.
use vstd::prelude::*;
use vstd::string::StringExecFns;
use crate::bytecode::{
    byte_of, decode_at, encoding, lemma_decode_encoding, opcode_of, patched, takes_operand,
    BytecodeChunk, Instruction, OpCode,
};
use crate::json::{member, Json};
use crate::lowering;
use crate::lowering::CState;
use crate::text::text_eq;
use crate::value::{texts_view, vals, Val, Value};

verus! {

broadcast use vstd::std_specs::vec::group_vec_axioms, vstd::seq::group_seq_axioms;

/// The operation code of the instruction starting at `s`.
pub open spec fn op_at(code: Seq<u8>, s: int) -> OpCode {
    opcode_of(code[s])
}

pub open spec fn is_jump(op: OpCode) -> bool {
    op == OpCode::Jump || op == OpCode::JumpIfTrue || op == OpCode::JumpIfFalse
}

/// Where the instruction after the `k`-th one starts (the end of the code after the last).
pub open spec fn next_start(code: Seq<u8>, starts: Seq<int>, k: int) -> int {
    if k + 1 < starts.len() {
        starts[k + 1]
    } else {
        code.len() as int
    }
}

/// A jump target is the start of an instruction, or the end of the code emitted so far
/// (where the next instruction will start).
pub open spec fn valid_target(starts: Seq<int>, len: int, t: int) -> bool {
    t == len || starts.contains(t)
}

/// The jump operand of the instruction at `s`.
pub open spec fn target_at(code: Seq<u8>, s: int) -> int {
    decode_at(code, s).0.operand->Some_0 as int
}

/// The `k`-th instruction is laid out correctly: it lies inside the code, ends where the
/// next begins, has its operand fully present, and, if it is a jump, points at an
/// instruction start or at the end.
pub open spec fn inst_ok(code: Seq<u8>, starts: Seq<int>, k: int) -> bool {
    &&& 0 <= starts[k] < code.len()
    &&& next_start(code, starts, k) == starts[k] + decode_at(code, starts[k]).1
    &&& takes_operand(op_at(code, starts[k])) ==> starts[k] + 4 < code.len()
    &&& is_jump(op_at(code, starts[k])) ==> valid_target(
        starts,
        code.len() as int,
        target_at(code, starts[k]),
    )
}

/// `starts` lists, in increasing order, where each instruction of `code` begins.
pub open spec fn well_formed(code: Seq<u8>, starts: Seq<int>) -> bool {
    &&& (starts.len() == 0 <==> code.len() == 0)
    &&& starts.len() > 0 ==> starts[0] == 0
    &&& forall|i: int, j: int| 0 <= i < j < starts.len() ==> starts[i] < starts[j]
    &&& forall|k: int| 0 <= k < starts.len() ==> #[trigger] inst_ok(code, starts, k)
}

/// Every jump of the code, and the entry of every function in the constant pool, lands on
/// the start of an instruction of the same code.
pub open spec fn lands_on_instructions(code: Seq<u8>, consts: Seq<Val>) -> bool {
    exists|starts: Seq<int>|
        well_formed(code, starts) && (forall|k: int|
            0 <= k < starts.len() && is_jump(op_at(code, #[trigger] starts[k])) ==> starts.contains(
                target_at(code, starts[k]),
            )) && (forall|k: int|
            0 <= k < consts.len() && (#[trigger] consts[k]) is Function ==> starts.contains(
                consts[k]->Function_2 as int,
            ))
}

/// `(c1, s1)` continues `(c0, s0)`: the instructions already laid out keep their place and
/// their operation codes, and new ones start at the old end.
pub open spec fn kept(c0: Seq<u8>, s0: Seq<int>, c1: Seq<u8>, s1: Seq<int>, k: int) -> bool {
    s1[k] == s0[k] && op_at(c1, s0[k]) == op_at(c0, s0[k])
}

pub open spec fn extends(c0: Seq<u8>, s0: Seq<int>, c1: Seq<u8>, s1: Seq<int>) -> bool {
    &&& s0.len() <= s1.len()
    &&& c0.len() <= c1.len()
    &&& forall|k: int| 0 <= k < s0.len() ==> #[trigger] kept(c0, s0, c1, s1, k)
    &&& s1.len() > s0.len() ==> s1[s0.len() as int] == c0.len()
    &&& s1.len() == s0.len() ==> c1.len() == c0.len()
}

pub proof fn lemma_extends_trans(
    c0: Seq<u8>,
    s0: Seq<int>,
    c1: Seq<u8>,
    s1: Seq<int>,
    c2: Seq<u8>,
    s2: Seq<int>,
)
    requires
        extends(c0, s0, c1, s1),
        extends(c1, s1, c2, s2),
        well_formed(c1, s1),
    ensures
        extends(c0, s0, c2, s2),
{
    assert forall|k: int| 0 <= k < s0.len() implies #[trigger] kept(c0, s0, c2, s2, k) by {
        assert(kept(c0, s0, c1, s1, k));
        assert(kept(c1, s1, c2, s2, k));
    }
    if s2.len() > s0.len() {
        if s1.len() == s0.len() {
            assert(s2[s0.len() as int] == c1.len());
        } else {
            assert(kept(c1, s1, c2, s2, s0.len() as int));
        }
    }
}

/// Targets stay valid as the code grows.
pub proof fn lemma_target_kept(
    c0: Seq<u8>,
    s0: Seq<int>,
    c1: Seq<u8>,
    s1: Seq<int>,
    t: int,
)
    requires
        extends(c0, s0, c1, s1),
        valid_target(s0, c0.len() as int, t),
    ensures
        valid_target(s1, c1.len() as int, t),
{
    if t == c0.len() {
        if s1.len() > s0.len() {
            assert(s1[s0.len() as int] == t);
        }
    } else {
        let k = choose|k: int| 0 <= k < s0.len() && s0[k] == t;
        assert(kept(c0, s0, c1, s1, k));
        assert(s1[k] == t);
    }
}

/// Offset 0 is always a valid target.
pub proof fn lemma_zero_target(code: Seq<u8>, starts: Seq<int>)
    requires
        well_formed(code, starts),
    ensures
        valid_target(starts, code.len() as int, 0),
{
    if starts.len() > 0 {
        assert(starts[0] == 0);
    }
}

/// Decoding at `s` reads only the bytes of that instruction.
proof fn lemma_decode_local(c0: Seq<u8>, c1: Seq<u8>, s: int)
    requires
        0 <= s < c0.len(),
        s < c1.len(),
        c1[s] == c0[s],
        takes_operand(opcode_of(c0[s])) ==> s + 4 < c0.len() && s + 4 < c1.len() && c1[s + 1]
            == c0[s + 1] && c1[s + 2] == c0[s + 2] && c1[s + 3] == c0[s + 3] && c1[s + 4] == c0[s
            + 4],
    ensures
        decode_at(c1, s) == decode_at(c0, s),
{
}

/// Appending an instruction keeps the layout well formed.
pub proof fn lemma_emit(code: Seq<u8>, starts: Seq<int>, i: Instruction)
    requires
        well_formed(code, starts),
        i.operand is Some <==> takes_operand(i.opcode),
        is_jump(i.opcode) ==> valid_target(
            starts.push(code.len() as int),
            (code.len() + encoding(i).len()) as int,
            i.operand->Some_0 as int,
        ),
    ensures
        well_formed(code + encoding(i), starts.push(code.len() as int)),
        extends(code, starts, code + encoding(i), starts.push(code.len() as int)),
        op_at(code + encoding(i), code.len() as int) == i.opcode,
{
    let c1 = code + encoding(i);
    let s1 = starts.push(code.len() as int);
    let n = code.len() as int;
    assert(c1.subrange(n, n + encoding(i).len()) =~= encoding(i));
    lemma_decode_encoding(c1, n, i);
    crate::bytecode::lemma_opcode_byte_round_trip(i.opcode);
    assert(c1[n] == byte_of(i.opcode));
    assert forall|k: int| 0 <= k < s1.len() implies #[trigger] inst_ok(c1, s1, k) by {
        if k < starts.len() {
            assert(inst_ok(code, starts, k));
            assert(s1[k] == starts[k]);
            lemma_decode_local(code, c1, starts[k]);
            if is_jump(op_at(code, starts[k])) {
                let t = target_at(code, starts[k]);
                if t == n {
                    assert(s1[starts.len() as int] == t);
                } else {
                    let q = choose|q: int| 0 <= q < starts.len() && starts[q] == t;
                    assert(s1[q] == t);
                }
            }
        }
    }
    assert forall|a: int, b: int| 0 <= a < b < s1.len() implies s1[a] < s1[b] by {
        if b == starts.len() {
            assert(inst_ok(code, starts, a));
        }
    }
    assert forall|k: int| 0 <= k < starts.len() implies #[trigger] kept(code, starts, c1, s1, k) by {
        assert(inst_ok(code, starts, k));
        assert(c1[starts[k]] == code[starts[k]]);
    }
    assert(extends(code, starts, c1, s1));
}

/// Rewriting the operand of a jump keeps the layout well formed when the new target is
/// valid.
pub proof fn lemma_patch(code: Seq<u8>, starts: Seq<int>, k: int, t: u32)
    requires
        well_formed(code, starts),
        0 <= k < starts.len(),
        is_jump(op_at(code, starts[k])),
        valid_target(starts, code.len() as int, t as int),
    ensures
        well_formed(patched(code, starts[k], t), starts),
        extends(code, starts, patched(code, starts[k], t), starts),
        target_at(patched(code, starts[k], t), starts[k]) == t,
{
    let s = starts[k];
    let c1 = patched(code, s, t);
    assert(inst_ok(code, starts, k));
    assert(s + 4 < code.len());
    assert(c1.len() == code.len());
    assert forall|j: int| 0 <= j < c1.len() && !(s + 1 <= j < s + 5) implies c1[j] == code[j] by {
        if j <= s {
            assert(c1[j] == code.subrange(0, s + 1)[j]);
        } else {
            assert(c1[j] == code.subrange(s + 5, code.len() as int)[j - s - 5]);
        }
    }
    assert(c1[s + 1] == crate::bytecode::le_bytes(t)[0]);
    assert(c1[s + 2] == crate::bytecode::le_bytes(t)[1]);
    assert(c1[s + 3] == crate::bytecode::le_bytes(t)[2]);
    assert(c1[s + 4] == crate::bytecode::le_bytes(t)[3]);
    crate::bytecode::lemma_le_round_trip(t);
    assert(op_at(c1, s) == op_at(code, s));
    assert forall|j: int| 0 <= j < starts.len() implies #[trigger] inst_ok(c1, starts, j) && op_at(
        c1,
        starts[j],
    ) == op_at(code, starts[j]) by {
        assert(inst_ok(code, starts, j));
        if j < k {
            assert(next_start(code, starts, j) <= s) by {
                if j + 1 < k {
                    assert(starts[j + 1] < starts[k]);
                }
            }
            lemma_decode_local(code, c1, starts[j]);
        } else if j > k {
            assert(next_start(code, starts, k) <= starts[j]) by {
                if k + 1 < j {
                    assert(starts[k + 1] < starts[j]);
                }
            }
            lemma_decode_local(code, c1, starts[j]);
        }
    }
    assert forall|j: int| 0 <= j < starts.len() implies #[trigger] kept(code, starts, c1, starts, j) by {
        assert(inst_ok(c1, starts, j));
    }
}


pub proof fn lemma_extends_refl(c: Seq<u8>, s: Seq<int>)
    ensures
        extends(c, s, c, s),
{
    assert forall|k: int| 0 <= k < s.len() implies #[trigger] kept(c, s, c, s, k) by {}
}

/// The instruction at `off` is a jump of this layout.
pub open spec fn is_jump_at(code: Seq<u8>, starts: Seq<int>, off: int) -> bool {
    starts.contains(off) && is_jump(op_at(code, off))
}

/// Upper bound on the code size, so that every offset fits a 32-bit operand.
const CODE_LIMIT: usize = 0xffff_fff0;

/// Single-pass compiler from a syntax tree to a bytecode chunk.
pub struct BytecodeCompiler {
    chunk: BytecodeChunk,
    loop_starts: Vec<usize>,
    loop_ends: Vec<Vec<usize>>,
    starts: Ghost<Seq<int>>,
}

impl BytecodeCompiler {
    /// The code emitted so far.
    pub closed spec fn code(&self) -> Seq<u8> {
        self.chunk.code@
    }

    /// The compiler's state is consistent: the code is a well-formed sequence of
    /// instructions whose jumps land on instructions, every open loop's start is a valid
    /// target, and every pending `break` is a jump.
    pub closed spec fn inv(&self) -> bool {
        &&& well_formed(self.chunk.code@, self.starts@)
        &&& self.chunk.code@.len() <= CODE_LIMIT + 5
        &&& forall|i: int|
            0 <= i < self.loop_starts@.len() ==> valid_target(
                self.starts@,
                self.chunk.code@.len() as int,
                #[trigger] self.loop_starts@[i] as int,
            )
        &&& forall|i: int, j: int|
            0 <= i < self.loop_ends@.len() && 0 <= j < self.loop_ends@[i]@.len() ==> is_jump_at(
                self.chunk.code@,
                self.starts@,
                #[trigger] self.loop_ends@[i]@[j] as int,
            )
        &&& forall|k: int|
            0 <= k < self.chunk.constants@.len() && (#[trigger] self.chunk.constants@[k])@ is Function
                ==> valid_target(
                self.starts@,
                self.chunk.code@.len() as int,
                self.chunk.constants@[k]@->Function_2 as int,
            )
    }

    /// The model of the compiler's state.
    pub closed spec fn cstate(&self) -> CState {
        CState {
            code: self.chunk.code@,
            consts: vals(self.chunk.constants@),
            names: texts_view(self.chunk.names@),
            loop_starts: self.loop_starts@,
            loop_ends: self.loop_ends@.map_values(|v: Vec<usize>| v@),
        }
    }

    /// A size limit is reached: the code is too long for 32-bit offsets, or a pool is full.
    pub closed spec fn at_limit(&self) -> bool {
        self.chunk.code@.len() > CODE_LIMIT || self.chunk.constants@.len() >= 0xffff_ffff
            || self.chunk.names@.len() >= 0xffff_ffff
    }

    /// The constant pool so far.
    pub closed spec fn consts(&self) -> Seq<Val> {
        vals(self.chunk.constants@)
    }

    /// The name pool so far.
    pub closed spec fn names(&self) -> Seq<Seq<char>> {
        texts_view(self.chunk.names@)
    }

    closed spec fn jump_at(&self, off: int) -> bool {
        is_jump_at(self.chunk.code@, self.starts@, off)
    }

    closed spec fn target_ok(&self, t: int) -> bool {
        valid_target(self.starts@, self.chunk.code@.len() as int, t)
    }
}

/// `b` continues the code of `a`, both consistent.
spec fn advanced(a: BytecodeCompiler, b: BytecodeCompiler) -> bool {
    &&& b.inv()
    &&& a.inv()
    &&& extends(a.chunk.code@, a.starts@, b.chunk.code@, b.starts@)
    &&& a.chunk.names@.len() <= b.chunk.names@.len()
    &&& forall|j: int| 0 <= j < a.chunk.names@.len() ==> #[trigger] b.chunk.names@[j] == a.chunk.names@[j]
}

/// `b` continues `a` with the same open loops.
spec fn grew(a: BytecodeCompiler, b: BytecodeCompiler) -> bool {
    &&& advanced(a, b)
    &&& b.loop_starts@ == a.loop_starts@
    &&& b.loop_ends@.len() == a.loop_ends@.len()
}

broadcast proof fn lemma_grew_trans(a: BytecodeCompiler, b: BytecodeCompiler, c: BytecodeCompiler)
    requires
        #[trigger] advanced(a, b),
        #[trigger] advanced(b, c),
    ensures
        advanced(a, c),
{
    assert forall|j: int| 0 <= j < a.chunk.names@.len() implies #[trigger] c.chunk.names@[j] == a.chunk.names@[j] by {
        assert(b.chunk.names@[j] == a.chunk.names@[j]);
    }
    lemma_extends_trans(
        a.chunk.code@,
        a.starts@,
        b.chunk.code@,
        b.starts@,
        c.chunk.code@,
        c.starts@,
    );
}

broadcast proof fn lemma_grew_jump(a: BytecodeCompiler, b: BytecodeCompiler, off: int)
    requires
        #[trigger] advanced(a, b),
        #[trigger] a.jump_at(off),
    ensures
        b.jump_at(off),
{
    let k = choose|k: int| 0 <= k < a.starts@.len() && a.starts@[k] == off;
    assert(kept(a.chunk.code@, a.starts@, b.chunk.code@, b.starts@, k));
    assert(b.starts@[k] == off);
}

broadcast proof fn lemma_grew_target(a: BytecodeCompiler, b: BytecodeCompiler, t: int)
    requires
        #[trigger] advanced(a, b),
        #[trigger] a.target_ok(t),
    ensures
        b.target_ok(t),
{
    lemma_target_kept(a.chunk.code@, a.starts@, b.chunk.code@, b.starts@, t);
}

broadcast group group_growth {
    lemma_grew_trans,
    lemma_grew_jump,
    lemma_grew_target,
}

proof fn lemma_grew_refl(a: BytecodeCompiler)
    requires
        a.inv(),
    ensures
        grew(a, a),
{
    lemma_extends_refl(a.chunk.code@, a.starts@);
}

/// A valid target never lies past the end of the code.
proof fn lemma_target_bound(code: Seq<u8>, starts: Seq<int>, t: int)
    requires
        well_formed(code, starts),
        valid_target(starts, code.len() as int, t),
    ensures
        0 <= t <= code.len(),
{
    if t != code.len() {
        let k = choose|k: int| 0 <= k < starts.len() && starts[k] == t;
        assert(inst_ok(code, starts, k));
    }
}

fn too_large() -> (r: Result<(), String>)
    ensures
        r is Err,
{
    Err(String::from_str("Program too large"))
}

impl BytecodeCompiler {
    pub fn new() -> (r: BytecodeCompiler)
        ensures
            r.inv(),
            r.code().len() == 0,
    {
        BytecodeCompiler {
            chunk: BytecodeChunk::new(),
            loop_starts: Vec::new(),
            loop_ends: Vec::new(),
            starts: Ghost(Seq::empty()),
        }
    }

    /// The chunk compiled so far.
    pub fn chunk(&self) -> (r: &BytecodeChunk)
        ensures
            r.code@ == self.code(),
    {
        &self.chunk
    }

    fn emit_checked(&mut self, instruction: Instruction) -> (r: Result<(), String>)
        requires
            old(self).inv(),
            instruction.operand is Some <==> takes_operand(instruction.opcode),
            is_jump(instruction.opcode) ==> valid_target(
                old(self).starts@,
                old(self).chunk.code@.len() as int,
                instruction.operand->Some_0 as int,
            ),
        ensures
            r is Err ==> final(self).at_limit(),
            r is Ok ==> final(self).cstate() == (CState { code: old(self).cstate().code + encoding(instruction), ..old(self).cstate() }),
            r is Ok ==> grew(*old(self), *final(self)),
            final(self).inv(),
            r is Ok ==> final(self).starts@ == old(self).starts@.push(
                old(self).chunk.code@.len() as int,
            ),
            r is Ok ==> op_at(final(self).chunk.code@, old(self).chunk.code@.len() as int)
                == instruction.opcode,
            r is Ok ==> final(self).chunk.constants == old(self).chunk.constants,
            r is Ok ==> final(self).chunk.names == old(self).chunk.names,
            r is Ok ==> final(self).chunk.code@ == old(self).chunk.code@ + encoding(instruction),
            r is Ok ==> final(self).loop_ends == old(self).loop_ends,
    {
        if self.chunk.code.len() > CODE_LIMIT {
            return too_large();
        }
        let ghost before = *self;
        let ghost n = self.chunk.code@.len() as int;
        proof {
            if is_jump(instruction.opcode) {
                let t = instruction.operand->Some_0 as int;
                let s0 = self.starts@;
                if t == n {
                    assert(s0.push(n)[s0.len() as int] == t);
                } else {
                    let k = choose|k: int| 0 <= k < s0.len() && s0[k] == t;
                    assert(s0.push(n)[k] == t);
                }
            }
            lemma_emit(self.chunk.code@, self.starts@, instruction);
        }
        self.chunk.emit(instruction);
        self.starts = Ghost(self.starts@.push(n));
        proof {
            let c1 = self.chunk.code@;
            let s1 = self.starts@;
            assert(extends(before.chunk.code@, before.starts@, c1, s1));
            assert forall|i: int| 0 <= i < self.loop_starts@.len() implies valid_target(
                s1,
                c1.len() as int,
                #[trigger] self.loop_starts@[i] as int,
            ) by {
                lemma_target_kept(before.chunk.code@, before.starts@, c1, s1, self.loop_starts@[i] as int);
            }
            assert forall|i: int, j: int|
                0 <= i < self.loop_ends@.len() && 0 <= j < self.loop_ends@[i]@.len() implies is_jump_at(
                c1,
                s1,
                #[trigger] self.loop_ends@[i]@[j] as int,
            ) by {
                let off = self.loop_ends@[i]@[j] as int;
                assert(is_jump_at(before.chunk.code@, before.starts@, off));
                let k = choose|k: int| 0 <= k < before.starts@.len() && before.starts@[k] == off;
                assert(kept(before.chunk.code@, before.starts@, c1, s1, k));
                assert(s1[k] == off);
            }
            assert forall|k: int|
                0 <= k < self.chunk.constants@.len() && (#[trigger] self.chunk.constants@[k])@ is Function
                    implies valid_target(s1, c1.len() as int, self.chunk.constants@[k]@->Function_2 as int) by {
                lemma_target_kept(before.chunk.code@, before.starts@, c1, s1, self.chunk.constants@[k]@->Function_2 as int);
            }
        }
        Ok(())
    }

    fn emit_plain(&mut self, opcode: OpCode) -> (r: Result<(), String>)
        requires
            old(self).inv(),
            !takes_operand(opcode),
        ensures
            r is Err ==> final(self).at_limit(),
            r is Ok ==> final(self).cstate() == lowering::put_op(old(self).cstate(), opcode),
            r is Ok ==> grew(*old(self), *final(self)),
            final(self).inv(),
            r is Ok ==> final(self).starts@ == old(self).starts@.push(
                old(self).chunk.code@.len() as int,
            ),
            r is Ok ==> final(self).chunk.code@ == old(self).chunk.code@ + seq![byte_of(opcode)],
            r is Ok ==> final(self).chunk.constants == old(self).chunk.constants,
            r is Ok ==> ends_with(final(self).chunk.code@, seq![byte_of(opcode)]),
    {
        assert(encoding(Instruction { opcode, operand: None }) =~= seq![byte_of(opcode)]);
        proof {
            lemma_ends_with_append(self.chunk.code@, seq![byte_of(opcode)]);
        }
        self.emit_checked(Instruction::new(opcode))
    }

    fn emit_arg(&mut self, opcode: OpCode, operand: u32) -> (r: Result<(), String>)
        requires
            old(self).inv(),
            takes_operand(opcode),
            !is_jump(opcode),
        ensures
            r is Err ==> final(self).at_limit(),
            r is Ok ==> final(self).cstate() == lowering::put_arg(old(self).cstate(), opcode, operand),
            r is Ok ==> grew(*old(self), *final(self)),
            final(self).inv(),
            r is Ok ==> final(self).chunk.code@ == old(self).chunk.code@ + encoding(
                Instruction { opcode, operand: Some(operand) },
            ),
            r is Ok ==> final(self).chunk.constants == old(self).chunk.constants,
            r is Ok ==> final(self).chunk.names == old(self).chunk.names,
            r is Ok ==> ends_with(
                final(self).chunk.code@,
                encoding(Instruction { opcode, operand: Some(operand) }),
            ),
    {
        proof {
            lemma_ends_with_append(
                self.chunk.code@,
                encoding(Instruction { opcode, operand: Some(operand) }),
            );
        }
        self.emit_checked(Instruction::with_operand(opcode, operand))
    }

    /// Emits a jump to `target` and returns where the jump starts.
    fn emit_jump(&mut self, opcode: OpCode, target: usize) -> (r: Result<usize, String>)
        requires
            old(self).inv(),
            is_jump(opcode),
            old(self).target_ok(target as int),
        ensures
            r is Err ==> final(self).at_limit(),
            r is Ok ==> final(self).cstate() == lowering::put_arg(old(self).cstate(), opcode, target as u32),
            r is Ok ==> grew(*old(self), *final(self)),
            final(self).inv(),
            r is Ok ==> final(self).jump_at(r->Ok_0 as int),
            r is Ok ==> r->Ok_0 == old(self).code().len(),
            r is Ok ==> final(self).loop_ends == old(self).loop_ends,
            r is Ok ==> final(self).code() == old(self).code() + encoding(
                Instruction { opcode, operand: Some(target as u32) },
            ),
    {
        proof {
            lemma_target_bound(self.chunk.code@, self.starts@, target as int);
        }
        let at = self.chunk.code.len();
        match self.emit_checked(Instruction::with_operand(opcode, target as u32)) {
            Ok(()) => {
                assert(self.starts@[self.starts@.len() - 1] == at as int);
                Ok(at)
            },
            Err(e) => Err(e),
        }
    }

    /// Points the jump at `at` to `target`.
    fn patch(&mut self, at: usize, target: usize)
        requires
            old(self).inv(),
            old(self).jump_at(at as int),
            old(self).target_ok(target as int),
        ensures
            final(self).cstate() == lowering::patch_at(old(self).cstate(), at as int, target as int),
            grew(*old(self), *final(self)),
            final(self).code().len() == old(self).code().len(),
            final(self).starts@ == old(self).starts@,
            final(self).loop_ends == old(self).loop_ends,
            forall|p: int|
                0 <= p < old(self).code().len() && !(at + 1 <= p < at + 5) ==> #[trigger] final(self).code()[p]
                    == old(self).code()[p],
            final(self).code().subrange(at + 1, at + 5) == crate::bytecode::le_bytes(target as u32),
    {
        let ghost before = *self;
        let ghost k = choose|k: int| 0 <= k < self.starts@.len() && self.starts@[k] == at as int;
        proof {
            lemma_target_bound(self.chunk.code@, self.starts@, target as int);
            assert(inst_ok(self.chunk.code@, self.starts@, k));
            lemma_patch(self.chunk.code@, self.starts@, k, target as u32);
        }
        self.chunk.patch_jump(at, target as u32);
        proof {
            let c0 = before.chunk.code@;
            assert(self.chunk.code@.subrange(at + 1, at + 5) =~= crate::bytecode::le_bytes(target as u32));
            assert forall|p: int|
                0 <= p < c0.len() && !(at + 1 <= p < at + 5) implies #[trigger] self.chunk.code@[p] == c0[p] by {
                if p <= at {
                    assert(self.chunk.code@[p] == c0.subrange(0, at + 1)[p]);
                } else {
                    assert(self.chunk.code@[p] == c0.subrange(at + 5, c0.len() as int)[p - at - 5]);
                }
            }
        }
        proof {
            let c1 = self.chunk.code@;
            let s1 = self.starts@;
            assert forall|i: int| 0 <= i < self.loop_starts@.len() implies valid_target(
                s1,
                c1.len() as int,
                #[trigger] self.loop_starts@[i] as int,
            ) by {
                lemma_target_kept(before.chunk.code@, before.starts@, c1, s1, self.loop_starts@[i] as int);
            }
            assert forall|i: int, j: int|
                0 <= i < self.loop_ends@.len() && 0 <= j < self.loop_ends@[i]@.len() implies is_jump_at(
                c1,
                s1,
                #[trigger] self.loop_ends@[i]@[j] as int,
            ) by {
                let off = self.loop_ends@[i]@[j] as int;
                assert(is_jump_at(before.chunk.code@, before.starts@, off));
                let q = choose|q: int| 0 <= q < before.starts@.len() && before.starts@[q] == off;
                assert(kept(before.chunk.code@, before.starts@, c1, s1, q));
            }
            assert forall|k: int|
                0 <= k < self.chunk.constants@.len() && (#[trigger] self.chunk.constants@[k])@ is Function
                    implies valid_target(s1, c1.len() as int, self.chunk.constants@[k]@->Function_2 as int) by {
                lemma_target_kept(before.chunk.code@, before.starts@, c1, s1, self.chunk.constants@[k]@->Function_2 as int);
            }
        }
    }

    fn constant(&mut self, v: Value) -> (r: Result<u32, String>)
        requires
            old(self).inv(),
            v@ is Function ==> old(self).target_ok(v@->Function_2 as int),
        ensures
            r is Err ==> final(self).at_limit(),
            r is Ok ==> final(self).cstate() == (CState { consts: old(self).cstate().consts.push(v@), ..old(self).cstate() }),
            r is Ok ==> grew(*old(self), *final(self)),
            final(self).inv(),
            r is Ok ==> final(self).chunk.constants@ == old(self).chunk.constants@.push(v),
            r is Ok ==> r->Ok_0 == old(self).chunk.constants@.len(),
            r is Ok ==> final(self).chunk.code == old(self).chunk.code,
            r is Ok ==> final(self).consts() == old(self).consts().push(v@),
            r is Ok ==> final(self).chunk.names == old(self).chunk.names,
    {
        if self.chunk.constants.len() >= 0xffff_ffff {
            return Err(String::from_str("Too many constants"));
        }
        let ghost vv = v@;
        let k = self.chunk.add_constant(v);
        proof {
            lemma_extends_refl(self.chunk.code@, self.starts@);
            assert(vals(self.chunk.constants@) =~= vals(old(self).chunk.constants@).push(vv));
            assert forall|q: int|
                0 <= q < self.chunk.constants@.len() && (#[trigger] self.chunk.constants@[q])@ is Function
                    implies valid_target(self.starts@, self.chunk.code@.len() as int, self.chunk.constants@[q]@->Function_2 as int) by {
                if q < old(self).chunk.constants@.len() {
                    assert(self.chunk.constants@[q] == old(self).chunk.constants@[q]);
                }
            }
        }
        Ok(k)
    }

    #[verifier::rlimit(50)]
    fn name(&mut self, n: String) -> (r: Result<u32, String>)
        requires
            old(self).inv(),
        ensures
            r is Err ==> final(self).at_limit(),
            r is Ok ==> final(self).cstate() == lowering::intern(old(self).cstate(), n@),
            r is Ok ==> r->Ok_0 as int == lowering::intern_pos(old(self).cstate().names, n@),
            r is Ok ==> grew(*old(self), *final(self)),
            final(self).inv(),
            r is Ok ==> (r->Ok_0 as int) < final(self).names().len() && final(self).names()[r->Ok_0 as int] == n@,
            r is Ok ==> final(self).chunk.code == old(self).chunk.code,
            r is Ok ==> final(self).chunk.constants == old(self).chunk.constants,
    {
        if self.chunk.names.len() >= 0xffff_ffff {
            return Err(String::from_str("Too many names"));
        }
        let ghost nv = n@;
        let k = self.chunk.add_name(n);
        proof {
            lemma_extends_refl(self.chunk.code@, self.starts@);
            assert(texts_view(self.chunk.names@)[k as int] == nv);
            assert forall|j: int| 0 <= j < old(self).chunk.names@.len() implies #[trigger] self.chunk.names@[j]
                == old(self).chunk.names@[j] by {}
            let m0 = texts_view(old(self).chunk.names@);
            if crate::bytecode::name_pos(m0, nv) is None {
                assert(texts_view(self.chunk.names@) =~= m0.push(nv));
            }
        }
        Ok(k)
    }

    /// Loads `v` from a fresh constant slot.
    fn load_constant(&mut self, v: Value) -> (r: Result<(), String>)
        requires
            old(self).inv(),
            !(v@ is Function),
        ensures
            r is Err ==> final(self).at_limit(),
            r is Ok ==> final(self).cstate() == lowering::load_val(old(self).cstate(), v@),
            r is Ok ==> grew(*old(self), *final(self)),
            final(self).inv(),
            r is Ok ==> final(self).consts() == old(self).consts().push(v@),
            r is Ok ==> final(self).code() == old(self).code() + encoding(
                load_const(old(self).consts().len()),
            ),
    {
        broadcast use group_growth;

        let ghost vv = v@;
        let k = self.constant(v)?;
        self.emit_arg(OpCode::LoadConst, k)
    }

    fn compile_none(&mut self) -> (r: Result<(), String>)
        requires
            old(self).inv(),
        ensures
            r is Err ==> final(self).at_limit(),
            r is Ok ==> final(self).cstate() == lowering::load_val(old(self).cstate(), Val::Nil),
            r is Ok ==> grew(*old(self), *final(self)),
            final(self).inv(),
            r is Ok ==> final(self).chunk.constants@ == old(self).chunk.constants@.push(Value::Nil),
            r is Ok ==> final(self).chunk.code@ == old(self).chunk.code@ + encoding(
                Instruction {
                    opcode: OpCode::LoadConst,
                    operand: Some(old(self).chunk.constants@.len() as u32),
                },
            ),
    {
        broadcast use group_growth;

        let idx = self.constant(Value::Nil)?;
        let ghost mid = *self;
        let r = self.emit_arg(OpCode::LoadConst, idx);
        proof {
            if r is Ok {
                assert(self.chunk.code@ == mid.chunk.code@ + encoding(
                    Instruction { opcode: OpCode::LoadConst, operand: Some(idx) },
                ));
            }
        }
        r
    }
}

/// The text member `key` of a node, or `default` when it is missing or not a text.
pub open spec fn text_or(node: Json, key: Seq<char>, default: Seq<char>) -> Seq<char> {
    match member(node, key) {
        Some(Json::Str(t)) => t@,
        _ => default,
    }
}

/// The `type` tag of a node (empty when it has none).
pub open spec fn tag_of(node: Json) -> Seq<char> {
    text_or(node, "type"@, ""@)
}

/// The token of a node's operator: the `type` of its `op` member.
pub open spec fn op_tag_of(node: Json) -> Seq<char> {
    match member(node, "op"@) {
        Some(op) => text_or(op, "type"@, ""@),
        None => ""@,
    }
}

/// The number of items of the array member `key`, or zero.
pub open spec fn count_of(node: Json, key: Seq<char>) -> u32 {
    match member(node, key) {
        Some(Json::Array(v)) => v@.len() as u32,
        _ => 0,
    }
}

/// The constant a `Num` node loads.
pub open spec fn num_of(node: Json) -> Val {
    match member(node, "value"@) {
        Some(Json::Int(i)) => Val::Int(i),
        Some(Json::Float(f)) => Val::Float(f),
        _ => Val::Int(0),
    }
}

/// The constant a `Boolean` node loads.
pub open spec fn bool_of(node: Json) -> bool {
    match member(node, "value"@) {
        Some(Json::Bool(b)) => b,
        _ => false,
    }
}

/// The variable a compound assignment updates.
pub open spec fn target_name_of(node: Json) -> Seq<char> {
    match member(node, "var"@) {
        Some(v) => text_or(v, "name"@, "_"@),
        None => "_"@,
    }
}

/// Loading constant slot `k`.
pub open spec fn load_const(k: nat) -> Instruction {
    Instruction { opcode: OpCode::LoadConst, operand: Some(k as u32) }
}

/// An instruction on name slot `j`.
pub open spec fn on_name(op: OpCode, j: int) -> Instruction {
    Instruction { opcode: op, operand: Some(j as u32) }
}

/// The variable an assignment stores to: `var.name`, or `var` itself when it is a text.
pub open spec fn assign_name_of(node: Json) -> Seq<char> {
    match member(node, "var"@) {
        Some(v) => match member(v, "name"@) {
            Some(Json::Str(t)) => t@,
            _ => match v {
                Json::Str(t) => t@,
                _ => "_"@,
            },
        },
        None => "_"@,
    }
}

/// An unconditional jump to `t`.
pub open spec fn jump_to(t: int) -> Instruction {
    Instruction { opcode: OpCode::Jump, operand: Some(t as u32) }
}

/// `code` ends with `tail`.
pub open spec fn ends_with(code: Seq<u8>, tail: Seq<u8>) -> bool {
    code.len() >= tail.len() && code.subrange(code.len() - tail.len(), code.len() as int) == tail
}

pub proof fn lemma_ends_with_append(c: Seq<u8>, tail: Seq<u8>)
    ensures
        ends_with(c + tail, tail),
{
    assert((c + tail).subrange(c.len() as int, (c + tail).len() as int) =~= tail);
}

pub proof fn lemma_ends_with_two(c: Seq<u8>, a: Seq<u8>, b: Seq<u8>)
    ensures
        ends_with(c + a + b, a + b),
{
    assert((c + a + b).subrange(c.len() as int, (c + a + b).len() as int) =~= a + b);
}

/// Operation of a binary operator token; unknown tokens give `Nop`.
pub open spec fn binary_op_of(t: Seq<char>) -> OpCode {
    if t == "TAMBAH"@ {
        OpCode::Add
    } else if t == "KURANG"@ {
        OpCode::Sub
    } else if t == "KALI"@ || t == "KALI_OP"@ {
        OpCode::Mul
    } else if t == "BAGI"@ {
        OpCode::Div
    } else if t == "PEMBAGIAN_BULAT"@ {
        OpCode::FloorDiv
    } else if t == "SISA_BAGI"@ {
        OpCode::Mod
    } else if t == "PANGKAT"@ {
        OpCode::Pow
    } else if t == "SAMA_DENGAN"@ {
        OpCode::Eq
    } else if t == "TIDAK_SAMA"@ {
        OpCode::Ne
    } else if t == "KURANG_DARI"@ {
        OpCode::Lt
    } else if t == "KURANG_SAMA"@ {
        OpCode::Le
    } else if t == "LEBIH_DARI"@ {
        OpCode::Gt
    } else if t == "LEBIH_SAMA"@ {
        OpCode::Ge
    } else if t == "DAN"@ {
        OpCode::And
    } else if t == "ATAU"@ {
        OpCode::Or
    } else if t == "BIT_DAN"@ || t == "BITWISE_AND"@ {
        OpCode::BitAnd
    } else if t == "BIT_ATAU"@ || t == "BITWISE_OR"@ {
        OpCode::BitOr
    } else if t == "BIT_XOR"@ || t == "BITWISE_XOR"@ {
        OpCode::BitXor
    } else if t == "GESER_KIRI"@ {
        OpCode::Shl
    } else if t == "GESER_KANAN"@ {
        OpCode::Shr
    } else if t == "DALAM"@ {
        OpCode::Contains
    } else if t == "TIDAK_DALAM"@ {
        OpCode::NotContains
    } else {
        OpCode::Nop
    }
}

/// Operation of a unary operator token; unknown tokens give `Nop`.
pub open spec fn unary_op_of(t: Seq<char>) -> OpCode {
    if t == "KURANG"@ {
        OpCode::Neg
    } else if t == "TIDAK"@ || t == "NOT"@ || t == "BUKAN"@ {
        OpCode::Not
    } else if t == "BIT_NOT"@ || t == "BITWISE_NOT"@ {
        OpCode::BitNot
    } else {
        OpCode::Nop
    }
}

/// Operation of a compound-assignment token; anything else adds.
pub open spec fn compound_op_of(t: Seq<char>) -> OpCode {
    if t == "KURANG_SAMA_DENGAN"@ {
        OpCode::Sub
    } else if t == "KALI_SAMA_DENGAN"@ {
        OpCode::Mul
    } else if t == "BAGI_SAMA_DENGAN"@ {
        OpCode::Div
    } else if t == "PEMBAGIAN_BULAT_SAMA_DENGAN"@ {
        OpCode::FloorDiv
    } else if t == "SISA_SAMA_DENGAN"@ {
        OpCode::Mod
    } else if t == "PANGKAT_SAMA_DENGAN"@ {
        OpCode::Pow
    } else {
        OpCode::Add
    }
}

/// The kinds of syntax-tree nodes, by `type` tag. A node without a tag is a bare literal;
/// an unknown tag compiles to nothing.
#[derive(Clone, Copy, PartialEq, Eq, Structural)]
pub enum NodeKind {
    Program,
    Block,
    VarDecl,
    Assign,
    BinOp,
    UnaryOp,
    Num,
    Text,
    Boolean,
    NoneValue,
    Var,
    List,
    Dict,
    If,
    While,
    For,
    ForEach,
    FuncDecl,
    FuncCall,
    Return,
    Print,
    Break,
    Continue,
    IndexAccess,
    CompoundAssign,
    Ternary,
    Lambda,
    ListComp,
    Literal,
    Unknown,
}

#[verifier::opaque]
pub open spec fn kind_of(t: Seq<char>) -> NodeKind {
    if t == "Program"@ {
        NodeKind::Program
    } else if t == "Block"@ {
        NodeKind::Block
    } else if t == "VarDecl"@ {
        NodeKind::VarDecl
    } else if t == "Assign"@ {
        NodeKind::Assign
    } else if t == "BinOp"@ {
        NodeKind::BinOp
    } else if t == "UnaryOp"@ {
        NodeKind::UnaryOp
    } else if t == "Num"@ {
        NodeKind::Num
    } else if t == "String"@ {
        NodeKind::Text
    } else if t == "Boolean"@ {
        NodeKind::Boolean
    } else if t == "NoneValue"@ {
        NodeKind::NoneValue
    } else if t == "Var"@ {
        NodeKind::Var
    } else if t == "List"@ {
        NodeKind::List
    } else if t == "Dict"@ {
        NodeKind::Dict
    } else if t == "If"@ {
        NodeKind::If
    } else if t == "While"@ {
        NodeKind::While
    } else if t == "For"@ {
        NodeKind::For
    } else if t == "ForEach"@ {
        NodeKind::ForEach
    } else if t == "FuncDecl"@ {
        NodeKind::FuncDecl
    } else if t == "FuncCall"@ {
        NodeKind::FuncCall
    } else if t == "Return"@ {
        NodeKind::Return
    } else if t == "Print"@ {
        NodeKind::Print
    } else if t == "Break"@ {
        NodeKind::Break
    } else if t == "Continue"@ {
        NodeKind::Continue
    } else if t == "IndexAccess"@ {
        NodeKind::IndexAccess
    } else if t == "CompoundAssign"@ {
        NodeKind::CompoundAssign
    } else if t == "Ternary"@ {
        NodeKind::Ternary
    } else if t == "Lambda"@ {
        NodeKind::Lambda
    } else if t == "ListComp"@ {
        NodeKind::ListComp
    } else if t.len() == 0 {
        NodeKind::Literal
    } else {
        NodeKind::Unknown
    }
}

fn node_kind(t: &str) -> (r: NodeKind)
    ensures
        r == kind_of(t@),
{
    reveal(kind_of);
    if text_eq(t, "Program") {
        NodeKind::Program
    } else if text_eq(t, "Block") {
        NodeKind::Block
    } else if text_eq(t, "VarDecl") {
        NodeKind::VarDecl
    } else if text_eq(t, "Assign") {
        NodeKind::Assign
    } else if text_eq(t, "BinOp") {
        NodeKind::BinOp
    } else if text_eq(t, "UnaryOp") {
        NodeKind::UnaryOp
    } else if text_eq(t, "Num") {
        NodeKind::Num
    } else if text_eq(t, "String") {
        NodeKind::Text
    } else if text_eq(t, "Boolean") {
        NodeKind::Boolean
    } else if text_eq(t, "NoneValue") {
        NodeKind::NoneValue
    } else if text_eq(t, "Var") {
        NodeKind::Var
    } else if text_eq(t, "List") {
        NodeKind::List
    } else if text_eq(t, "Dict") {
        NodeKind::Dict
    } else if text_eq(t, "If") {
        NodeKind::If
    } else if text_eq(t, "While") {
        NodeKind::While
    } else if text_eq(t, "For") {
        NodeKind::For
    } else if text_eq(t, "ForEach") {
        NodeKind::ForEach
    } else if text_eq(t, "FuncDecl") {
        NodeKind::FuncDecl
    } else if text_eq(t, "FuncCall") {
        NodeKind::FuncCall
    } else if text_eq(t, "Return") {
        NodeKind::Return
    } else if text_eq(t, "Print") {
        NodeKind::Print
    } else if text_eq(t, "Break") {
        NodeKind::Break
    } else if text_eq(t, "Continue") {
        NodeKind::Continue
    } else if text_eq(t, "IndexAccess") {
        NodeKind::IndexAccess
    } else if text_eq(t, "CompoundAssign") {
        NodeKind::CompoundAssign
    } else if text_eq(t, "Ternary") {
        NodeKind::Ternary
    } else if text_eq(t, "Lambda") {
        NodeKind::Lambda
    } else if text_eq(t, "ListComp") {
        NodeKind::ListComp
    } else if t.is_empty() {
        NodeKind::Literal
    } else {
        NodeKind::Unknown
    }
}

/// The constant a bare literal node loads, if it is a scalar.
pub open spec fn literal_of(node: Json) -> Option<Val> {
    match node {
        Json::Int(i) => Some(Val::Int(i)),
        Json::Float(f) => Some(Val::Float(f)),
        Json::Str(t) => Some(Val::Str(t@)),
        Json::Bool(b) => Some(Val::Bool(b)),
        Json::Null => Some(Val::Nil),
        _ => None,
    }
}


/// The text member `key` of a node, or `default` when it is missing or not a text.
fn text_field(node: &Json, key: &str, default: &str) -> (r: String)
    ensures
        r@ == text_or(*node, key@, default@),
{
    match node.get(key) {
        Some(v) => match v.as_str() {
            Some(t) => t.clone(),
            None => default.to_owned(),
        },
        None => default.to_owned(),
    }
}

/// The array member `key` of a node, if it is one.
fn array_field<'a>(node: &'a Json, key: &str) -> (r: Option<&'a Vec<Json>>)
    ensures
        r is Some ==> member(*node, key@) == Some(Json::Array(*r->Some_0)),
        r is None ==> !(member(*node, key@) is Some && member(*node, key@)->Some_0 is Array),
        r is Some ==> forall|i: int|
            0 <= i < r->Some_0@.len() ==> decreases_to!(*node => #[trigger] r->Some_0@[i]),
{
    match node.get(key) {
        Some(v) => {
            let a = v.as_array();
            proof {
                if a is Some {
                    assert forall|i: int| 0 <= i < a->Some_0@.len() implies decreases_to!(*node => #[trigger] a->Some_0@[i]) by {
                        assert(decreases_to!(*v => a->Some_0@[i]));
                    }
                }
            }
            a
        },
        None => None,
    }
}

/// The tag `type` of the member `op` of a node, or the empty text.
fn op_tag(node: &Json) -> (r: String)
    ensures
        r@ == op_tag_of(*node),
{
    match node.get("op") {
        Some(op) => text_field(op, "type", ""),
        None => "".to_owned(),
    }
}

/// Operation of a binary operator token; unknown tokens give `Nop`.
fn binary_opcode(t: &str) -> (r: OpCode)
    ensures
        !takes_operand(r),
        r == binary_op_of(t@),
{
    if text_eq(t, "TAMBAH") {
        OpCode::Add
    } else if text_eq(t, "KURANG") {
        OpCode::Sub
    } else if text_eq(t, "KALI") || text_eq(t, "KALI_OP") {
        OpCode::Mul
    } else if text_eq(t, "BAGI") {
        OpCode::Div
    } else if text_eq(t, "PEMBAGIAN_BULAT") {
        OpCode::FloorDiv
    } else if text_eq(t, "SISA_BAGI") {
        OpCode::Mod
    } else if text_eq(t, "PANGKAT") {
        OpCode::Pow
    } else if text_eq(t, "SAMA_DENGAN") {
        OpCode::Eq
    } else if text_eq(t, "TIDAK_SAMA") {
        OpCode::Ne
    } else if text_eq(t, "KURANG_DARI") {
        OpCode::Lt
    } else if text_eq(t, "KURANG_SAMA") {
        OpCode::Le
    } else if text_eq(t, "LEBIH_DARI") {
        OpCode::Gt
    } else if text_eq(t, "LEBIH_SAMA") {
        OpCode::Ge
    } else if text_eq(t, "DAN") {
        OpCode::And
    } else if text_eq(t, "ATAU") {
        OpCode::Or
    } else if text_eq(t, "BIT_DAN") || text_eq(t, "BITWISE_AND") {
        OpCode::BitAnd
    } else if text_eq(t, "BIT_ATAU") || text_eq(t, "BITWISE_OR") {
        OpCode::BitOr
    } else if text_eq(t, "BIT_XOR") || text_eq(t, "BITWISE_XOR") {
        OpCode::BitXor
    } else if text_eq(t, "GESER_KIRI") {
        OpCode::Shl
    } else if text_eq(t, "GESER_KANAN") {
        OpCode::Shr
    } else if text_eq(t, "DALAM") {
        OpCode::Contains
    } else if text_eq(t, "TIDAK_DALAM") {
        OpCode::NotContains
    } else {
        OpCode::Nop
    }
}

/// Operation of a unary operator token; unknown tokens give `Nop`.
fn unary_opcode(t: &str) -> (r: OpCode)
    ensures
        !takes_operand(r),
        r == unary_op_of(t@),
{
    if text_eq(t, "KURANG") {
        OpCode::Neg
    } else if text_eq(t, "TIDAK") || text_eq(t, "NOT") || text_eq(t, "BUKAN") {
        OpCode::Not
    } else if text_eq(t, "BIT_NOT") || text_eq(t, "BITWISE_NOT") {
        OpCode::BitNot
    } else {
        OpCode::Nop
    }
}

/// Operation of a compound-assignment token; anything else adds.
fn compound_opcode(t: &str) -> (r: OpCode)
    ensures
        !takes_operand(r),
        r == compound_op_of(t@),
{
    if text_eq(t, "KURANG_SAMA_DENGAN") {
        OpCode::Sub
    } else if text_eq(t, "KALI_SAMA_DENGAN") {
        OpCode::Mul
    } else if text_eq(t, "BAGI_SAMA_DENGAN") {
        OpCode::Div
    } else if text_eq(t, "PEMBAGIAN_BULAT_SAMA_DENGAN") {
        OpCode::FloorDiv
    } else if text_eq(t, "SISA_SAMA_DENGAN") {
        OpCode::Mod
    } else if text_eq(t, "PANGKAT_SAMA_DENGAN") {
        OpCode::Pow
    } else {
        OpCode::Add
    }
}

/// The text members of an array node, in order (other members are skipped).
fn text_items(node: &Json, key: &str) -> (r: Vec<String>)
    ensures
        texts_view(r@) == match member(*node, key@) {
            Some(Json::Array(v)) => lowering::strings_in(v@, v@.len()),
            _ => Seq::empty(),
        },
{
    let mut out: Vec<String> = Vec::new();
    assert(texts_view(out@) =~= Seq::empty());
    if let Some(items) = node.get(key) {
        if let Some(arr) = items.as_array() {
            let mut i: usize = 0;
            while i < arr.len()
                invariant
                    i <= arr@.len(),
                    texts_view(out@) == lowering::strings_in(arr@, i as nat),
                decreases arr.len() - i,
            {
                let ghost prev = out@;
                if let Some(t) = arr[i].as_str() {
                    out.push(t.clone());
                    assert(texts_view(out@) =~= texts_view(prev).push(t@));
                }
                i = i + 1;
            }
        }
    }
    out
}

impl BytecodeCompiler {
    /// Opens a loop whose `continue` target is the current end of the code.
    fn open_loop(&mut self) -> (r: usize)
        requires
            old(self).inv(),
        ensures
            final(self).cstate() == lowering::open_loop(old(self).cstate()),
            advanced(*old(self), *final(self)),
            r == old(self).code().len(),
            final(self).loop_starts@ == old(self).loop_starts@.push(r),
            final(self).loop_ends@.len() == old(self).loop_ends@.len() + 1,
            final(self).loop_ends@.last()@.len() == 0,
    {
        let start = self.chunk.code.len();
        self.loop_starts.push(start);
        self.loop_ends.push(Vec::new());
        proof {
            lemma_extends_refl(self.chunk.code@, self.starts@);
            assert forall|i: int| 0 <= i < self.loop_starts@.len() implies valid_target(
                self.starts@,
                self.chunk.code@.len() as int,
                #[trigger] self.loop_starts@[i] as int,
            ) by {
                if i < self.loop_starts@.len() - 1 {
                    assert(old(self).loop_starts@[i] == self.loop_starts@[i]);
                }
            }
            assert forall|i: int, j: int|
                0 <= i < self.loop_ends@.len() && 0 <= j < self.loop_ends@[i]@.len() implies is_jump_at(
                self.chunk.code@,
                self.starts@,
                #[trigger] self.loop_ends@[i]@[j] as int,
            ) by {
                assert(old(self).loop_ends@[i] == self.loop_ends@[i]);
            }
        }
        assert(self.loop_ends@.map_values(|v: Vec<usize>| v@) =~= old(self).loop_ends@.map_values(
            |v: Vec<usize>| v@,
        ).push(Seq::empty()));
        start
    }

    /// Closes the innermost loop: its pending `break` jumps are pointed at `end`.
    fn close_loop(&mut self, end: usize)
        requires
            old(self).inv(),
            old(self).loop_starts@.len() > 0,
            old(self).loop_ends@.len() > 0,
            old(self).target_ok(end as int),
        ensures
            final(self).cstate() == lowering::close_loop(old(self).cstate(), end as int),
            advanced(*old(self), *final(self)),
            final(self).loop_starts@ == old(self).loop_starts@.drop_last(),
            final(self).loop_ends@.len() == old(self).loop_ends@.len() - 1,
            final(self).code().len() == old(self).code().len(),
            forall|p: int|
                0 <= p < old(self).code().len() && (forall|j: int|
                    0 <= j < old(self).loop_ends@.last()@.len() ==> old(self).loop_ends@.last()@[j] + 5
                        <= p) ==> #[trigger] final(self).code()[p] == old(self).code()[p],
    {
        let ghost before = *self;
        self.loop_starts.pop();
        let breaks = match self.loop_ends.pop() {
            Some(b) => b,
            None => Vec::new(),
        };
        proof {
            let last = before.loop_ends@.len() - 1;
            assert(breaks == before.loop_ends@[last]);
            assert forall|j: int| 0 <= j < breaks@.len() implies #[trigger] self.jump_at(breaks@[j] as int) by {
                assert(is_jump_at(before.chunk.code@, before.starts@, before.loop_ends@[last]@[j] as int));
            }
            assert forall|i: int| 0 <= i < self.loop_starts@.len() implies valid_target(
                self.starts@,
                self.chunk.code@.len() as int,
                #[trigger] self.loop_starts@[i] as int,
            ) by {
                assert(before.loop_starts@[i] == self.loop_starts@[i]);
            }
            assert forall|i: int, j: int|
                0 <= i < self.loop_ends@.len() && 0 <= j < self.loop_ends@[i]@.len() implies is_jump_at(
                self.chunk.code@,
                self.starts@,
                #[trigger] self.loop_ends@[i]@[j] as int,
            ) by {
                assert(before.loop_ends@[i] == self.loop_ends@[i]);
            }
            lemma_extends_refl(self.chunk.code@, self.starts@);
            assert(self.target_ok(end as int));
            let bc = before.cstate();
            assert(self.loop_ends@.map_values(|v: Vec<usize>| v@) =~= bc.loop_ends.drop_last());
            assert(bc.loop_ends.last() == breaks@);
            assert(self.cstate() == lowering::patch_all(
                CState { loop_starts: bc.loop_starts.drop_last(), loop_ends: bc.loop_ends.drop_last(), ..bc },
                breaks@,
                0,
                end as int,
            ));
        }
        let ghost opened = *self;
        let ghost st1 = opened.cstate();
        let mut k: usize = 0;
        while k < breaks.len()
            invariant
                k <= breaks@.len(),
                self.inv(),
                advanced(opened, *self),
                self.loop_starts@ == opened.loop_starts@,
                self.loop_ends@.len() == opened.loop_ends@.len(),
                self.target_ok(end as int),
                forall|j: int| 0 <= j < breaks@.len() ==> #[trigger] self.jump_at(breaks@[j] as int),
                breaks == before.loop_ends@.last(),
                self.cstate() == lowering::patch_all(st1, breaks@, k as nat, end as int),
                self.code().len() == before.code().len(),
                forall|p: int|
                    0 <= p < before.code().len() && (forall|j: int|
                        0 <= j < breaks@.len() ==> breaks@[j] + 5 <= p) ==> #[trigger] self.code()[p]
                        == before.code()[p],
            decreases breaks.len() - k,
        {
            broadcast use group_growth;

            let ghost prev = *self;
            self.patch(breaks[k], end);
            assert forall|p: int|
                0 <= p < before.code().len() && (forall|j: int|
                    0 <= j < breaks@.len() ==> breaks@[j] + 5 <= p) implies #[trigger] self.code()[p]
                    == before.code()[p] by {
                assert(breaks@[k as int] + 5 <= p);
                assert(self.code()[p] == prev.code()[p]);
            }
            assert forall|j: int| 0 <= j < breaks@.len() implies #[trigger] self.jump_at(breaks@[j] as int) by {
                assert(prev.jump_at(breaks@[j] as int));
            }
            k = k + 1;
        }
        proof {
            broadcast use group_growth;

            assert(advanced(before, opened));
        }
    }

    /// Compiles each node of `items` in order.
    fn compile_items(&mut self, node: &Json, items: &Vec<Json>) -> (r: Result<(), String>)
        requires
            old(self).inv(),
            forall|i: int| 0 <= i < items@.len() ==> decreases_to!(*node => #[trigger] items@[i]),
        ensures
            r is Err ==> final(self).at_limit(),
            r is Ok ==> final(self).cstate() == lowering::lowered_items(items@, items@.len(), old(self).cstate()),
            r is Ok ==> grew(*old(self), *final(self)),
            final(self).inv(),
        decreases node, 0nat,
    {
        broadcast use group_growth;

        proof {
            lemma_grew_refl(*self);
        }
        let mut i: usize = 0;
        while i < items.len()
            invariant
                i <= items@.len(),
                grew(*old(self), *self),
                self.cstate() == lowering::lowered_items(items@, i as nat, old(self).cstate()),
                forall|i: int| 0 <= i < items@.len() ==> decreases_to!(*node => #[trigger] items@[i]),
            decreases items.len() - i,
        {
            assert(decreases_to!(*node => items@[i as int]));
            let ghost prev = *self;
            self.compile_node(&items[i])?;
            proof {
                lemma_grew_trans(*old(self), prev, *self);
            }
            i = i + 1;
        }
        Ok(())
    }

    /// Compiles the array member `key` of a node, if there is one.
    fn compile_block_of(&mut self, node: &Json, key: &str) -> (r: Result<(), String>)
        requires
            old(self).inv(),
        ensures
            r is Err ==> final(self).at_limit(),
            r is Ok ==> final(self).cstate() == lowering::lowered_block(*node, key@, old(self).cstate()),
            r is Ok ==> grew(*old(self), *final(self)),
            final(self).inv(),
        decreases node, 1nat,
    {
        match array_field(node, key) {
            Some(items) => self.compile_items(node, items),
            None => {
                proof {
                    lemma_grew_refl(*self);
                }
                Ok(())
            },
        }
    }

    /// Compiles the member `key` of a node, if there is one.
    fn compile_member(&mut self, node: &Json, key: &str) -> (r: Result<(), String>)
        requires
            old(self).inv(),
        ensures
            r is Err ==> final(self).at_limit(),
            r is Ok ==> final(self).cstate() == lowering::lowered_member(*node, key@, old(self).cstate()),
            r is Ok ==> grew(*old(self), *final(self)),
            final(self).inv(),
        decreases node, 0nat,
    {
        match node.get(key) {
            Some(child) => self.compile_node(child),
            None => {
                proof {
                    lemma_grew_refl(*self);
                }
                Ok(())
            },
        }
    }

    /// Compiles one node by its `type` tag. Unknown tags compile to nothing; a bare number,
    /// text, boolean or null becomes a constant load, and a bare array compiles its items.
    #[verifier::rlimit(80)]
    fn compile_node(&mut self, node: &Json) -> (r: Result<(), String>)
        requires
            old(self).inv(),
        ensures
            r is Err ==> final(self).at_limit(),
            r is Ok ==> final(self).cstate() == lowering::lowered(*node, old(self).cstate()),
            kind_of(tag_of(*node)) == NodeKind::Unknown ==> r is Ok && *final(self) == *old(self),
            r is Ok ==> grew(*old(self), *final(self)),
            final(self).inv(),
        decreases node, 4nat,
    {
        broadcast use group_growth;

        let tag = text_field(node, "type", "");
        match node_kind(tag.as_str()) {
            NodeKind::Program | NodeKind::Block => self.compile_block_of(node, "statements"),
            NodeKind::VarDecl => self.compile_var_decl(node),
            NodeKind::Assign => self.compile_assign(node),
            NodeKind::BinOp => self.compile_binop(node),
            NodeKind::UnaryOp => self.compile_unary(node),
            NodeKind::Num => self.compile_num(node),
            NodeKind::Text => {
                let v = text_field(node, "value", "");
                self.load_constant(Value::String(v))
            },
            NodeKind::Boolean => {
                let b = match node.get("value") {
                    Some(v) => match v.as_bool() {
                        Some(b) => b,
                        None => false,
                    },
                    None => false,
                };
                self.load_constant(Value::Bool(b))
            },
            NodeKind::NoneValue => self.load_constant(Value::Nil),
            NodeKind::Var => {
                let n = text_field(node, "name", "_");
                let idx = self.name(n)?;
                let r = self.emit_arg(OpCode::LoadName, idx);
                assert(r is Ok ==> self.names()[idx as int] == text_or(*node, "name"@, "_"@));
                r
            },
            NodeKind::List => self.compile_list(node),
            NodeKind::Dict => self.compile_dict(node),
            NodeKind::If => self.compile_if(node),
            NodeKind::While => self.compile_while(node),
            NodeKind::For => self.compile_for(node),
            NodeKind::ForEach => self.compile_foreach(node),
            NodeKind::FuncDecl => self.compile_func_decl(node),
            NodeKind::FuncCall => self.compile_func_call(node),
            NodeKind::Return => self.compile_return(node),
            NodeKind::Print => {
                self.compile_member(node, "expr")?;
                let r = self.emit_plain(OpCode::Print);
                proof {
                    if r is Ok {
                        assert(self.code().subrange(self.code().len() - 1, self.code().len() as int) =~= seq![byte_of(OpCode::Print)]);
                    }
                }
                r
            },
            NodeKind::Break => self.compile_break(),
            NodeKind::Continue => self.compile_continue(),
            NodeKind::IndexAccess => {
                self.compile_member(node, "obj")?;
                self.compile_member(node, "index")?;
                let r = self.emit_plain(OpCode::GetIndex);
                proof {
                    if r is Ok {
                        assert(self.code().subrange(self.code().len() - 1, self.code().len() as int) =~= seq![byte_of(OpCode::GetIndex)]);
                    }
                }
                r
            },
            NodeKind::CompoundAssign => self.compile_compound_assign(node),
            NodeKind::Ternary => self.compile_ternary(node),
            NodeKind::Lambda => self.compile_lambda(node),
            NodeKind::ListComp => self.compile_list_comp(node),
            NodeKind::Literal => self.compile_literal(node),
            NodeKind::Unknown => {
                proof {
                    lemma_grew_refl(*self);
                }
                Ok(())
            },
        }
    }

    fn compile_literal(&mut self, node: &Json) -> (r: Result<(), String>)
        requires
            old(self).inv(),
        ensures
            r is Err ==> final(self).at_limit(),
            r is Ok ==> final(self).cstate() == lowering::lowered_literal(*node, old(self).cstate()),
            r is Ok ==> grew(*old(self), *final(self)),
            final(self).inv(),
            r is Ok ==> match literal_of(*node) {
                Some(v) => final(self).consts() == old(self).consts().push(v) && final(self).code()
                    == old(self).code() + encoding(load_const(old(self).consts().len())),
                None => *node is Object ==> final(self).code() == old(self).code()
                    && final(self).consts() == old(self).consts(),
            },
        decreases node, 2nat,
    {
        match node {
            Json::Int(i) => self.load_constant(Value::Int(*i)),
            Json::Float(f) => self.load_constant(Value::Float(*f)),
            Json::Str(s) => self.load_constant(Value::String(s.clone())),
            Json::Bool(b) => self.load_constant(Value::Bool(*b)),
            Json::Null => self.load_constant(Value::Nil),
            Json::Array(_) => {
                let items = node.as_array();
                match items {
                    Some(a) => self.compile_items(node, a),
                    None => {
                        proof {
                            lemma_grew_refl(*self);
                        }
                        Ok(())
                    },
                }
            },
            Json::Object(_) => {
                proof {
                    lemma_grew_refl(*self);
                }
                Ok(())
            },
        }
    }

    fn compile_var_decl(&mut self, node: &Json) -> (r: Result<(), String>)
        requires
            old(self).inv(),
        ensures
            r is Err ==> final(self).at_limit(),
            r is Ok ==> final(self).cstate() == lowering::lowered_var_decl(*node, old(self).cstate()),
            r is Ok ==> grew(*old(self), *final(self)),
            final(self).inv(),
            r is Ok ==> exists|j: int|
                0 <= j < final(self).names().len() && final(self).names()[j] == text_or(
                    *node,
                    "var_name"@,
                    "_"@,
                ) && ends_with(final(self).code(), encoding(on_name(OpCode::StoreName, j))),
        decreases node, 2nat,
    {
        broadcast use group_growth;

        match node.get("value") {
            Some(v) => self.compile_node(v)?,
            None => self.compile_none()?,
        }
        let n = text_field(node, "var_name", "_");
        let idx = self.name(n)?;
        let r = self.emit_arg(OpCode::StoreName, idx);
        proof {
            if r is Ok {
                assert(self.names()[idx as int] == text_or(*node, "var_name"@, "_"@));
                assert(on_name(OpCode::StoreName, idx as int) == Instruction {
                    opcode: OpCode::StoreName,
                    operand: Some(idx),
                });
            }
        }
        r
    }

    fn compile_assign(&mut self, node: &Json) -> (r: Result<(), String>)
        requires
            old(self).inv(),
        ensures
            r is Err ==> final(self).at_limit(),
            r is Ok ==> final(self).cstate() == lowering::lowered_assign(*node, old(self).cstate()),
            r is Ok ==> grew(*old(self), *final(self)),
            final(self).inv(),
            r is Ok ==> exists|j: int|
                0 <= j < final(self).names().len() && final(self).names()[j] == assign_name_of(*node)
                    && ends_with(final(self).code(), encoding(on_name(OpCode::StoreName, j))),
        decreases node, 2nat,
    {
        broadcast use group_growth;

        self.compile_member(node, "value")?;
        let n = match node.get("var") {
            Some(var) => match var.get("name") {
                Some(nm) => match nm.as_str() {
                    Some(t) => t.clone(),
                    None => match var.as_str() {
                        Some(t) => t.clone(),
                        None => String::from_str("_"),
                    },
                },
                None => match var.as_str() {
                    Some(t) => t.clone(),
                    None => String::from_str("_"),
                },
            },
            None => String::from_str("_"),
        };
        let ghost nv = n@;
        let idx = self.name(n)?;
        let r = self.emit_arg(OpCode::StoreName, idx);
        proof {
            if r is Ok {
                assert(self.names()[idx as int] == nv);
                assert(on_name(OpCode::StoreName, idx as int) == Instruction {
                    opcode: OpCode::StoreName,
                    operand: Some(idx),
                });
            }
        }
        r
    }

    fn compile_binop(&mut self, node: &Json) -> (r: Result<(), String>)
        requires
            old(self).inv(),
        ensures
            r is Err ==> final(self).at_limit(),
            r is Ok ==> final(self).cstate() == lowering::lowered_bin_op(*node, old(self).cstate()),
            r is Ok ==> grew(*old(self), *final(self)),
            final(self).inv(),
            r is Ok ==> ends_with(final(self).code(), seq![byte_of(binary_op_of(op_tag_of(*node)))]),
        decreases node, 2nat,
    {
        broadcast use group_growth;

        self.compile_member(node, "left")?;
        self.compile_member(node, "right")?;
        let op = op_tag(node);
        self.emit_plain(binary_opcode(op.as_str()))
    }

    fn compile_unary(&mut self, node: &Json) -> (r: Result<(), String>)
        requires
            old(self).inv(),
        ensures
            r is Err ==> final(self).at_limit(),
            r is Ok ==> final(self).cstate() == lowering::lowered_unary_op(*node, old(self).cstate()),
            r is Ok ==> grew(*old(self), *final(self)),
            final(self).inv(),
            r is Ok ==> ends_with(final(self).code(), seq![byte_of(unary_op_of(op_tag_of(*node)))]),
        decreases node, 2nat,
    {
        broadcast use group_growth;

        self.compile_member(node, "expr")?;
        let op = op_tag(node);
        self.emit_plain(unary_opcode(op.as_str()))
    }

    fn compile_num(&mut self, node: &Json) -> (r: Result<(), String>)
        requires
            old(self).inv(),
        ensures
            r is Err ==> final(self).at_limit(),
            r is Ok ==> final(self).cstate() == lowering::lowered_num(*node, old(self).cstate()),
            r is Ok ==> grew(*old(self), *final(self)),
            final(self).inv(),
            r is Ok ==> final(self).consts() == old(self).consts().push(num_of(*node)),
            r is Ok ==> final(self).code() == old(self).code() + encoding(
                load_const(old(self).consts().len()),
            ),
        decreases node, 2nat,
    {
        let v = match node.get("value") {
            Some(Json::Int(i)) => Value::Int(*i),
            Some(Json::Float(f)) => Value::Float(*f),
            _ => Value::Int(0),
        };
        self.load_constant(v)
    }

    fn compile_list(&mut self, node: &Json) -> (r: Result<(), String>)
        requires
            old(self).inv(),
        ensures
            r is Err ==> final(self).at_limit(),
            r is Ok ==> final(self).cstate() == lowering::lowered_list(*node, old(self).cstate()),
            r is Ok ==> grew(*old(self), *final(self)),
            final(self).inv(),
            r is Ok ==> ends_with(
                final(self).code(),
                encoding(
                    Instruction { opcode: OpCode::BuildList, operand: Some(count_of(*node, "elements"@)) },
                ),
            ),
        decreases node, 2nat,
    {
        broadcast use group_growth;

        let count: u32 = match array_field(node, "elements") {
            Some(elems) => {
                self.compile_items(node, elems)?;
                elems.len() as u32
            },
            None => {
                proof {
                    lemma_grew_refl(*self);
                }
                0
            },
        };
        self.emit_arg(OpCode::BuildList, count)
    }

    /// A dictionary entry `[key, value]`: the key, then the value.
    fn compile_pair(&mut self, node: &Json, pair: &Json) -> (r: Result<(), String>)
        requires
            old(self).inv(),
            decreases_to!(*node => *pair),
        ensures
            r is Err ==> final(self).at_limit(),
            r is Ok ==> final(self).cstate() == lowering::lowered_pair(*pair, old(self).cstate()),
            r is Ok ==> grew(*old(self), *final(self)),
            final(self).inv(),
        decreases node, 0nat,
    {
        broadcast use group_growth;

        proof {
            lemma_grew_refl(*self);
        }
        if let Some(parts) = pair.as_array() {
            if parts.len() > 0 {
                assert(decreases_to!(*pair => parts@[0]));
                self.compile_node(&parts[0])?;
            }
            if parts.len() > 1 {
                assert(decreases_to!(*pair => parts@[1]));
                self.compile_node(&parts[1])?;
            }
        }
        Ok(())
    }

    #[verifier::rlimit(60)]
    fn compile_dict(&mut self, node: &Json) -> (r: Result<(), String>)
        requires
            old(self).inv(),
        ensures
            r is Err ==> final(self).at_limit(),
            r is Ok ==> final(self).cstate() == lowering::lowered_dict(*node, old(self).cstate()),
            r is Ok ==> grew(*old(self), *final(self)),
            final(self).inv(),
            r is Ok ==> ends_with(
                final(self).code(),
                encoding(
                    Instruction { opcode: OpCode::BuildDict, operand: Some(count_of(*node, "pairs"@)) },
                ),
            ),
        decreases node, 2nat,
    {
        broadcast use group_growth;

        proof {
            lemma_grew_refl(*self);
        }
        let count: u32 = match array_field(node, "pairs") {
            Some(ps) => {
                let mut i: usize = 0;
                while i < ps.len()
                    invariant
                        i <= ps@.len(),
                        grew(*old(self), *self),
                        self.cstate() == lowering::lowered_pairs(ps@, i as nat, old(self).cstate()),
                        forall|i: int| 0 <= i < ps@.len() ==> decreases_to!(*node => #[trigger] ps@[i]),
                    decreases ps.len() - i,
                {
                    let ghost prev = *self;
                    assert(decreases_to!(*node => ps@[i as int]));
                    self.compile_pair(node, &ps[i])?;
                    proof {
                        lemma_grew_trans(*old(self), prev, *self);
                    }
                    i = i + 1;
                }
                ps.len() as u32
            },
            None => 0,
        };
        self.emit_arg(OpCode::BuildDict, count)
    }

    /// `cond; JumpIfFalse else; then; Jump end; else: else-part; end:`.
    #[verifier::rlimit(100)]
    fn compile_branches(&mut self, node: &Json, then_key: &str, else_key: &str, blocks: bool) -> (r:
        Result<(), String>)
        requires
            old(self).inv(),
        ensures
            r is Err ==> final(self).at_limit(),
            r is Ok ==> final(self).cstate() == lowering::lowered_branches(*node, then_key@, else_key@, blocks, old(self).cstate()),
            r is Ok ==> grew(*old(self), *final(self)),
            final(self).inv(),
        decreases node, 2nat,
    {
        broadcast use group_growth;

        self.compile_member(node, "condition")?;
        proof {
            lemma_zero_target(self.chunk.code@, self.starts@);
        }
        let jump_if_false = self.emit_jump(OpCode::JumpIfFalse, 0)?;
        if blocks {
            self.compile_block_of(node, then_key)?;
        } else {
            self.compile_member(node, then_key)?;
        }
        proof {
            lemma_zero_target(self.chunk.code@, self.starts@);
        }
        let jump_end = self.emit_jump(OpCode::Jump, 0)?;
        let else_start = self.chunk.code.len();
        self.patch(jump_if_false, else_start);
        if blocks {
            self.compile_block_of(node, else_key)?;
        } else {
            self.compile_member(node, else_key)?;
        }
        let end = self.chunk.code.len();
        self.patch(jump_end, end);
        Ok(())
    }

    fn compile_if(&mut self, node: &Json) -> (r: Result<(), String>)
        requires
            old(self).inv(),
        ensures
            r is Err ==> final(self).at_limit(),
            r is Ok ==> final(self).cstate() == lowering::lowered_branches(*node, "if_body"@, "else_body"@, true, old(self).cstate()),
            r is Ok ==> grew(*old(self), *final(self)),
            final(self).inv(),
        decreases node, 3nat,
    {
        self.compile_branches(node, "if_body", "else_body", true)
    }

    fn compile_ternary(&mut self, node: &Json) -> (r: Result<(), String>)
        requires
            old(self).inv(),
        ensures
            r is Err ==> final(self).at_limit(),
            r is Ok ==> final(self).cstate() == lowering::lowered_branches(*node, "if_expr"@, "else_expr"@, false, old(self).cstate()),
            r is Ok ==> grew(*old(self), *final(self)),
            final(self).inv(),
        decreases node, 3nat,
    {
        self.compile_branches(node, "if_expr", "else_expr", false)
    }
}

impl BytecodeCompiler {
    /// The back edge to the innermost loop's start.
    fn jump_back(&mut self, start: usize) -> (r: Result<(), String>)
        requires
            old(self).inv(),
            old(self).loop_starts@.len() > 0,
            old(self).loop_starts@.last() == start,
        ensures
            r is Err ==> final(self).at_limit(),
            r is Ok ==> final(self).cstate() == lowering::put_arg(old(self).cstate(), OpCode::Jump, start as u32),
            r is Ok ==> grew(*old(self), *final(self)),
            final(self).inv(),
            r is Ok ==> final(self).code() == old(self).code() + encoding(
                Instruction { opcode: OpCode::Jump, operand: Some(start as u32) },
            ),
            r is Ok ==> final(self).loop_ends == old(self).loop_ends,
    {
        broadcast use group_growth;

        assert(valid_target(
            self.starts@,
            self.chunk.code@.len() as int,
            self.loop_starts@[self.loop_starts@.len() - 1] as int,
        ));
        self.emit_jump(OpCode::Jump, start)?;
        Ok(())
    }

    /// Ends a loop: the back edge to `start`, then the loop's exit jump and its pending
    /// `break` jumps pointed just past the back edge.
    fn finish_loop(&mut self, start: usize, exit_jump: usize) -> (r: Result<(), String>)
        requires
            old(self).inv(),
            old(self).loop_starts@.len() > 0,
            old(self).loop_starts@.last() == start,
            old(self).loop_ends@.len() > 0,
            old(self).jump_at(exit_jump as int),
        ensures
            r is Err ==> final(self).at_limit(),
            r is Ok ==> final(self).cstate() == lowering::finish_loop(old(self).cstate(), start as int, exit_jump as int),
            r is Ok ==> advanced(*old(self), *final(self)),
            final(self).inv(),
            r is Ok ==> final(self).loop_starts@ == old(self).loop_starts@.drop_last(),
            r is Ok ==> final(self).loop_ends@.len() == old(self).loop_ends@.len() - 1,
            r is Ok ==> ends_with(
                final(self).code(),
                encoding(Instruction { opcode: OpCode::Jump, operand: Some(start as u32) }),
            ),
    {
        broadcast use group_growth;

        let ghost s0 = *self;
        let ghost tail = encoding(Instruction { opcode: OpCode::Jump, operand: Some(start as u32) });
        let ghost l = s0.code().len() as int;
        proof {
            let last = s0.loop_ends@.len() - 1;
            assert forall|j: int| 0 <= j < s0.loop_ends@.last()@.len() implies s0.loop_ends@.last()@[j] + 5
                <= l by {
                let off = s0.loop_ends@[last]@[j] as int;
                assert(is_jump_at(s0.chunk.code@, s0.starts@, off));
                let q = choose|q: int| 0 <= q < s0.starts@.len() && s0.starts@[q] == off;
                assert(inst_ok(s0.chunk.code@, s0.starts@, q));
            }
            let q = choose|q: int| 0 <= q < s0.starts@.len() && s0.starts@[q] == exit_jump as int;
            assert(inst_ok(s0.chunk.code@, s0.starts@, q));
        }
        self.jump_back(start)?;
        let ghost s1 = *self;
        let loop_end = self.chunk.code.len();
        self.patch(exit_jump, loop_end);
        let ghost s2 = *self;
        self.close_loop(loop_end);
        proof {
            assert forall|p: int| l <= p < l + 5 implies #[trigger] self.code()[p] == s1.code()[p] by {
                assert(s2.code()[p] == s1.code()[p]);
                assert(self.code()[p] == s2.code()[p]);
            }
            assert(self.code().subrange(l, l + 5) =~= tail);
            assert(advanced(s0, s2));
        }
        Ok(())
    }

    fn compile_while(&mut self, node: &Json) -> (r: Result<(), String>)
        requires
            old(self).inv(),
        ensures
            r is Err ==> final(self).at_limit(),
            r is Ok ==> final(self).cstate() == lowering::lowered_while(*node, old(self).cstate()),
            r is Ok ==> grew(*old(self), *final(self)),
            final(self).inv(),
            r is Ok ==> ends_with(
                final(self).code(),
                encoding(
                    Instruction { opcode: OpCode::Jump, operand: Some(old(self).code().len() as u32) },
                ),
            ),
        decreases node, 2nat,
    {
        broadcast use group_growth;

        let loop_start = self.open_loop();
        let ghost opened = *self;
        self.compile_member(node, "condition")?;
        proof {
            lemma_zero_target(self.chunk.code@, self.starts@);
        }
        let jump_if_false = self.emit_jump(OpCode::JumpIfFalse, 0)?;
        self.compile_block_of(node, "body")?;
        self.finish_loop(loop_start, jump_if_false)?;
        assert(jump_to(loop_start as int) == Instruction { opcode: OpCode::Jump, operand: Some(loop_start as u32) });
        assert(self.loop_starts@ =~= old(self).loop_starts@);
        Ok(())
    }

    #[verifier::rlimit(100)]
    fn compile_for(&mut self, node: &Json) -> (r: Result<(), String>)
        requires
            old(self).inv(),
        ensures
            r is Err ==> final(self).at_limit(),
            r is Ok ==> final(self).cstate() == lowering::lowered_for(*node, old(self).cstate()),
            r is Ok ==> grew(*old(self), *final(self)),
            final(self).inv(),
            r is Ok ==> exists|start: int|
                old(self).code().len() <= start < final(self).code().len() && ends_with(
                    final(self).code(),
                    encoding(#[trigger] jump_to(start)),
                ),
        decreases node, 2nat,
    {
        broadcast use group_growth;

        let var_name = text_field(node, "var_name", "i");
        self.compile_member(node, "start")?;
        let var_idx = self.name(var_name)?;
        self.emit_arg(OpCode::StoreName, var_idx)?;
        let loop_start = self.open_loop();
        self.emit_arg(OpCode::LoadName, var_idx)?;
        self.compile_member(node, "end")?;
        self.emit_plain(OpCode::Le)?;
        proof {
            lemma_zero_target(self.chunk.code@, self.starts@);
        }
        let jump_if_false = self.emit_jump(OpCode::JumpIfFalse, 0)?;
        self.compile_block_of(node, "body")?;
        self.emit_arg(OpCode::LoadName, var_idx)?;
        let one = self.constant(Value::Int(1))?;
        self.emit_arg(OpCode::LoadConst, one)?;
        self.emit_plain(OpCode::Add)?;
        self.emit_arg(OpCode::StoreName, var_idx)?;
        self.finish_loop(loop_start, jump_if_false)?;
        assert(jump_to(loop_start as int) == Instruction { opcode: OpCode::Jump, operand: Some(loop_start as u32) });
        assert(self.loop_starts@ =~= old(self).loop_starts@);
        Ok(())
    }

    fn compile_foreach(&mut self, node: &Json) -> (r: Result<(), String>)
        requires
            old(self).inv(),
        ensures
            r is Err ==> final(self).at_limit(),
            r is Ok ==> final(self).cstate() == lowering::lowered_for_each(*node, old(self).cstate()),
            r is Ok ==> grew(*old(self), *final(self)),
            final(self).inv(),
            r is Ok ==> exists|start: int|
                old(self).code().len() <= start < final(self).code().len() && ends_with(
                    final(self).code(),
                    encoding(#[trigger] jump_to(start)),
                ),
        decreases node, 2nat,
    {
        broadcast use group_growth;

        let var_name = text_field(node, "var_name", "item");
        self.compile_member(node, "iterable")?;
        self.emit_plain(OpCode::GetIter)?;
        let loop_start = self.open_loop();
        self.emit_plain(OpCode::ForIter)?;
        proof {
            lemma_zero_target(self.chunk.code@, self.starts@);
        }
        let jump_if_false = self.emit_jump(OpCode::JumpIfFalse, 0)?;
        let var_idx = self.name(var_name)?;
        self.emit_arg(OpCode::StoreName, var_idx)?;
        self.compile_block_of(node, "body")?;
        self.finish_loop(loop_start, jump_if_false)?;
        assert(jump_to(loop_start as int) == Instruction { opcode: OpCode::Jump, operand: Some(loop_start as u32) });
        assert(self.loop_starts@ =~= old(self).loop_starts@);
        Ok(())
    }

    /// `Jump over; body...; LoadConst none; Return; over:` then loads the function value and
    /// stores it under its name.
    #[verifier::rlimit(100)]
    fn compile_func_decl(&mut self, node: &Json) -> (r: Result<(), String>)
        requires
            old(self).inv(),
        ensures
            r is Err ==> final(self).at_limit(),
            r is Ok ==> final(self).cstate() == lowering::lowered_func_decl(*node, old(self).cstate()),
            r is Ok ==> grew(*old(self), *final(self)),
            final(self).inv(),
            r is Ok ==> exists|k: int, j: int|
                0 <= k < final(self).consts().len() && final(self).consts()[k] is Function
                    && final(self).consts()[k]->Function_0 == text_or(*node, "name"@, "anonymous"@)
                    && 0 <= j < final(self).names().len() && final(self).names()[j] == text_or(
                    *node,
                    "name"@,
                    "anonymous"@,
                ) && ends_with(
                    final(self).code(),
                    encoding(load_const(k as nat)) + encoding(on_name(OpCode::StoreName, j)),
                ),
        decreases node, 2nat,
    {
        broadcast use group_growth;

        let name = text_field(node, "name", "anonymous");
        let params = text_items(node, "params");
        proof {
            lemma_zero_target(self.chunk.code@, self.starts@);
        }
        let jump_over = self.emit_jump(OpCode::Jump, 0)?;
        let body_start = self.chunk.code.len();
        self.compile_block_of(node, "body")?;
        self.compile_none()?;
        self.emit_plain(OpCode::Return)?;
        let after = self.chunk.code.len();
        self.patch(jump_over, after);
        let ghost nv = name@;
        let f = Value::Function { name: name.clone(), params, bytecode_offset: body_start };
        let k = self.constant(f)?;
        let ghost before_load = self.chunk.code@;
        self.emit_arg(OpCode::LoadConst, k)?;
        let idx = self.name(name)?;
        let r = self.emit_arg(OpCode::StoreName, idx);
        proof {
            if r is Ok {
                assert(load_const(k as nat) == Instruction { opcode: OpCode::LoadConst, operand: Some(k) });
                assert(on_name(OpCode::StoreName, idx as int) == Instruction {
                    opcode: OpCode::StoreName,
                    operand: Some(idx),
                });
                lemma_ends_with_two(before_load, encoding(load_const(k as nat)), encoding(on_name(OpCode::StoreName, idx as int)));
                assert(self.consts()[k as int]->Function_0 == nv);
                assert(self.names()[idx as int] == nv);
            }
        }
        r
    }

    #[verifier::rlimit(100)]
    fn compile_lambda(&mut self, node: &Json) -> (r: Result<(), String>)
        requires
            old(self).inv(),
        ensures
            r is Err ==> final(self).at_limit(),
            r is Ok ==> final(self).cstate() == lowering::lowered_lambda(*node, old(self).cstate()),
            r is Ok ==> grew(*old(self), *final(self)),
            final(self).inv(),
            r is Ok ==> exists|k: int|
                0 <= k < final(self).consts().len() && final(self).consts()[k] is Function
                    && final(self).consts()[k]->Function_0 == "<lambda>"@ && ends_with(
                    final(self).code(),
                    encoding(load_const(k as nat)),
                ),
        decreases node, 2nat,
    {
        broadcast use group_growth;

        let params = text_items(node, "params");
        proof {
            lemma_zero_target(self.chunk.code@, self.starts@);
        }
        let jump_over = self.emit_jump(OpCode::Jump, 0)?;
        let start = self.chunk.code.len();
        self.compile_member(node, "body")?;
        self.emit_plain(OpCode::Return)?;
        let after = self.chunk.code.len();
        self.patch(jump_over, after);
        let f = Value::Function {
            name: String::from_str("<lambda>"),
            params,
            bytecode_offset: start,
        };
        let k = self.constant(f)?;
        let r = self.emit_arg(OpCode::LoadConst, k);
        proof {
            if r is Ok {
                assert(load_const(k as nat) == Instruction { opcode: OpCode::LoadConst, operand: Some(k) });
                assert(self.consts()[k as int]->Function_0 == "<lambda>"@);
            }
        }
        r
    }

    /// Arguments in order, then the callee (by name, or an expression), then `Call argc`.
    /// Without an argument list nothing is emitted.
    fn compile_func_call(&mut self, node: &Json) -> (r: Result<(), String>)
        requires
            old(self).inv(),
        ensures
            r is Err ==> final(self).at_limit(),
            r is Ok ==> final(self).cstate() == lowering::lowered_func_call(*node, old(self).cstate()),
            r is Ok ==> grew(*old(self), *final(self)),
            final(self).inv(),
            r is Ok ==> match member(*node, "args"@) {
                Some(Json::Array(a)) => ends_with(
                    final(self).code(),
                    encoding(Instruction { opcode: OpCode::Call, operand: Some(a@.len() as u32) }),
                ),
                _ => final(self).code() == old(self).code() && final(self).consts() == old(self).consts(),
            },
        decreases node, 2nat,
    {
        broadcast use group_growth;

        let func_name = text_field(node, "name", "");
        match array_field(node, "args") {
            Some(args) => {
                self.compile_items(node, args)?;
                if !func_name.as_str().is_empty() {
                    let idx = self.name(func_name)?;
                    self.emit_arg(OpCode::LoadName, idx)?;
                } else {
                    self.compile_member(node, "func_expr")?;
                }
                self.emit_arg(OpCode::Call, args.len() as u32)
            },
            None => {
                proof {
                    lemma_grew_refl(*self);
                }
                Ok(())
            },
        }
    }

    fn compile_return(&mut self, node: &Json) -> (r: Result<(), String>)
        requires
            old(self).inv(),
        ensures
            r is Err ==> final(self).at_limit(),
            r is Ok ==> final(self).cstate() == lowering::lowered_return(*node, old(self).cstate()),
            r is Ok ==> grew(*old(self), *final(self)),
            final(self).inv(),
            r is Ok ==> ends_with(final(self).code(), seq![byte_of(OpCode::Return)]),
        decreases node, 2nat,
    {
        broadcast use group_growth;

        match node.get("expr") {
            Some(e) => self.compile_node(e)?,
            None => self.compile_none()?,
        }
        self.emit_plain(OpCode::Return)
    }

    /// A placeholder jump, recorded in the innermost loop for patching when it closes.
    fn compile_break(&mut self) -> (r: Result<(), String>)
        requires
            old(self).inv(),
        ensures
            r is Err ==> final(self).at_limit(),
            r is Ok ==> final(self).cstate() == lowering::lowered_break(old(self).cstate()),
            r is Ok ==> grew(*old(self), *final(self)),
            final(self).inv(),
            r is Ok && old(self).loop_ends@.len() > 0 ==> final(self).loop_ends@.last()@
                == old(self).loop_ends@.last()@.push(old(self).code().len() as usize),
    {
        proof {
            lemma_zero_target(self.chunk.code@, self.starts@);
        }
        let offset = self.emit_jump(OpCode::Jump, 0)?;
        let ghost mid = *self;
        if let Some(mut breaks) = self.loop_ends.pop() {
            breaks.push(offset);
            self.loop_ends.push(breaks);
            assert(self.loop_ends@.last() == breaks);
            proof {
                let last = mid.loop_ends@.len() - 1;
                assert forall|i: int, j: int|
                    0 <= i < self.loop_ends@.len() && 0 <= j < self.loop_ends@[i]@.len() implies is_jump_at(
                    self.chunk.code@,
                    self.starts@,
                    #[trigger] self.loop_ends@[i]@[j] as int,
                ) by {
                    if i < last {
                        assert(self.loop_ends@[i] == mid.loop_ends@[i]);
                    } else if j < mid.loop_ends@[last]@.len() {
                        assert(self.loop_ends@[i]@[j] == mid.loop_ends@[last]@[j]);
                    } else {
                        assert(mid.jump_at(offset as int));
                    }
                }
                lemma_extends_refl(self.chunk.code@, self.starts@);
                let ms = mid.cstate();
                assert(self.loop_ends@.map_values(|v: Vec<usize>| v@) =~= ms.loop_ends.update(
                    ms.loop_ends.len() - 1,
                    ms.loop_ends.last().push(offset),
                ));
            }
        }
        Ok(())
    }

    /// A jump to the innermost loop's start; nothing outside a loop.
    fn compile_continue(&mut self) -> (r: Result<(), String>)
        requires
            old(self).inv(),
        ensures
            r is Err ==> final(self).at_limit(),
            r is Ok ==> final(self).cstate() == lowering::lowered_continue(old(self).cstate()),
            r is Ok ==> grew(*old(self), *final(self)),
            final(self).inv(),
            old(self).loop_starts@.len() == 0 ==> *final(self) == *old(self) && r is Ok,
    {
        let n = self.loop_starts.len();
        if n > 0 {
            let start = self.loop_starts[n - 1];
            self.jump_back(start)
        } else {
            proof {
                lemma_grew_refl(*self);
            }
            Ok(())
        }
    }

    fn compile_compound_assign(&mut self, node: &Json) -> (r: Result<(), String>)
        requires
            old(self).inv(),
        ensures
            r is Err ==> final(self).at_limit(),
            r is Ok ==> final(self).cstate() == lowering::lowered_compound_assign(*node, old(self).cstate()),
            r is Ok ==> grew(*old(self), *final(self)),
            final(self).inv(),
            r is Ok ==> exists|j: int|
                0 <= j < final(self).names().len() && final(self).names()[j] == target_name_of(*node)
                    && ends_with(
                    final(self).code(),
                    seq![byte_of(compound_op_of(op_tag_of(*node)))] + encoding(
                        on_name(OpCode::StoreName, j),
                    ),
                ),
        decreases node, 2nat,
    {
        broadcast use group_growth;

        let var_name = match node.get("var") {
            Some(var) => text_field(var, "name", "_"),
            None => String::from_str("_"),
        };
        let idx = self.name(var_name)?;
        self.emit_arg(OpCode::LoadName, idx)?;
        self.compile_member(node, "value")?;
        let op = op_tag(node);
        let opc = compound_opcode(op.as_str());
        let ghost before_op = self.chunk.code@;
        self.emit_plain(opc)?;
        let r = self.emit_arg(OpCode::StoreName, idx);
        proof {
            if r is Ok {
                lemma_ends_with_two(
                    before_op,
                    seq![byte_of(opc)],
                    encoding(on_name(OpCode::StoreName, idx as int)),
                );
                assert(self.names()[idx as int] == target_name_of(*node));
            }
        }
        r
    }

    /// `BuildList 0; iterable; GetIter; start: ForIter; JumpIfFalse end; StoreName var;
    /// [condition; JumpIfFalse skip;] expr; Jump start; [skip: Jump start;] end:`.
    fn compile_list_comp(&mut self, node: &Json) -> (r: Result<(), String>)
        requires
            old(self).inv(),
        ensures
            r is Err ==> final(self).at_limit(),
            r is Ok ==> final(self).cstate() == lowering::lowered_list_comp(*node, old(self).cstate()),
            r is Ok ==> grew(*old(self), *final(self)),
            final(self).inv(),
        decreases node, 2nat,
    {
        broadcast use group_growth;

        self.emit_arg(OpCode::BuildList, 0)?;
        self.compile_member(node, "iterable")?;
        self.emit_plain(OpCode::GetIter)?;
        let loop_start = self.chunk.code.len();
        self.emit_plain(OpCode::ForIter)?;
        assert(self.starts@.last() == loop_start);
        assert(self.target_ok(loop_start as int));
        proof {
            lemma_zero_target(self.chunk.code@, self.starts@);
        }
        let jump_if_false = self.emit_jump(OpCode::JumpIfFalse, 0)?;
        let var_name = text_field(node, "var_name", "item");
        let var_idx = self.name(var_name)?;
        self.emit_arg(OpCode::StoreName, var_idx)?;
        match node.get("condition") {
            Some(cond) => {
                self.compile_node(cond)?;
                proof {
                    lemma_zero_target(self.chunk.code@, self.starts@);
                }
                let skip = self.emit_jump(OpCode::JumpIfFalse, 0)?;
                self.compile_member(node, "expr")?;
                self.emit_jump(OpCode::Jump, loop_start)?;
                let skip_target = self.chunk.code.len();
                self.patch(skip, skip_target);
            },
            None => {
                self.compile_member(node, "expr")?;
            },
        }
        self.emit_jump(OpCode::Jump, loop_start)?;
        let loop_end = self.chunk.code.len();
        self.patch(jump_if_false, loop_end);
        Ok(())
    }
}

/// Once a `Halt` closes a well-formed layout, every jump lands on an instruction start.
proof fn lemma_halt_closes(code: Seq<u8>, starts: Seq<int>, consts: Seq<Val>)
    requires
        well_formed(code, starts),
        forall|k: int|
            0 <= k < consts.len() && (#[trigger] consts[k]) is Function ==> valid_target(
                starts,
                code.len() as int,
                consts[k]->Function_2 as int,
            ),
    ensures
        lands_on_instructions(
            code + encoding(Instruction { opcode: OpCode::Halt, operand: None }),
            consts,
        ),
{
    let i = Instruction { opcode: OpCode::Halt, operand: None };
    let c1 = code + encoding(i);
    let s1 = starts.push(code.len() as int);
    lemma_emit(code, starts, i);
    assert forall|k: int|
        0 <= k < s1.len() && is_jump(op_at(c1, #[trigger] s1[k])) implies s1.contains(
        target_at(c1, s1[k]),
    ) by {
        if k < starts.len() {
            assert(inst_ok(code, starts, k));
            assert(s1[k] == starts[k]);
            lemma_decode_local(code, c1, starts[k]);
            assert(kept(code, starts, c1, s1, k));
            let t = target_at(code, starts[k]);
            if t == code.len() {
                assert(s1[starts.len() as int] == t);
            } else {
                let q = choose|q: int| 0 <= q < starts.len() && starts[q] == t;
                assert(s1[q] == t);
            }
        }
    }
    assert forall|k: int| 0 <= k < consts.len() && (#[trigger] consts[k]) is Function implies s1.contains(
        consts[k]->Function_2 as int,
    ) by {
        let t = consts[k]->Function_2 as int;
        if t == code.len() {
            assert(s1[starts.len() as int] == t);
        } else {
            let q = choose|q: int| 0 <= q < starts.len() && starts[q] == t;
            assert(s1[q] == t);
        }
    }
    assert(well_formed(c1, s1));
}

impl BytecodeCompiler {
    /// Ends the program with `Halt` and hands out a copy of the chunk.
    fn finish(&mut self) -> (r: Result<BytecodeChunk, String>)
        requires
            old(self).inv(),
        ensures
            r is Err ==> final(self).at_limit(),
            r is Ok ==> lands_on_instructions(r->Ok_0.code@, vals(r->Ok_0.constants@)),
            final(self).inv(),
            r is Ok ==> r->Ok_0.code@ == final(self).code(),
            r is Ok ==> r->Ok_0.code@ == old(self).code() + seq![byte_of(OpCode::Halt)],
            r is Ok ==> vals(r->Ok_0.constants@) == old(self).consts(),
            r is Ok ==> final(self).names() == old(self).names(),
    {
        proof {
            assert forall|k: int|
                0 <= k < self.consts().len() && (#[trigger] self.consts()[k]) is Function implies valid_target(
                self.starts@,
                self.chunk.code@.len() as int,
                self.consts()[k]->Function_2 as int,
            ) by {
                assert(self.consts()[k] == self.chunk.constants@[k]@);
            }
            lemma_halt_closes(self.chunk.code@, self.starts@, self.consts());
        }
        self.emit_checked(Instruction::new(OpCode::Halt))?;
        assert(encoding(Instruction { opcode: OpCode::Halt, operand: None }) =~= seq![byte_of(OpCode::Halt)]);
        let out = self.chunk.duplicate();
        assert(vals(out.constants@) =~= self.consts());
        Ok(out)
    }

    /// Compiles a program tree, appends `Halt`, and returns the chunk. Every jump of the
    /// result lands on an instruction of it.
    pub fn compile_from_json(&mut self, ast: &Json) -> (r: Result<BytecodeChunk, String>)
        requires
            old(self).inv(),
        ensures
            r is Ok ==> r->Ok_0.code@ == lowering::lowered(*ast, old(self).cstate()).code + seq![byte_of(OpCode::Halt)],
            r is Ok ==> vals(r->Ok_0.constants@) == lowering::lowered(*ast, old(self).cstate()).consts,
            r is Err ==> final(self).at_limit(),
            r is Ok ==> lands_on_instructions(r->Ok_0.code@, vals(r->Ok_0.constants@)),
            final(self).inv(),
            r is Ok ==> r->Ok_0.code@ == final(self).code(),
            r is Ok ==> r->Ok_0.code@.last() == byte_of(OpCode::Halt),
    {
        self.compile_node(ast)?;
        let ghost mid = *self;
        let r = self.finish();
        proof {
            if r is Ok {
                assert(r->Ok_0.code@.drop_last() =~= mid.code());
            }
        }
        r
    }

    /// Compiles a standalone function body and stores the function value under `name`
    /// (entry offset 0), then appends `Halt`.
    #[verifier::rlimit(40)]
    pub fn compile_function(&mut self, name: &String, params: &Vec<String>, body: &Json) -> (r:
        Result<BytecodeChunk, String>)
        requires
            old(self).inv(),
        ensures
            r is Ok ==> r->Ok_0.code@ == lowering::lowered_function(name@, texts_view(params@), *body, old(self).cstate()).code,
            r is Ok ==> vals(r->Ok_0.constants@) == lowering::lowered_function(name@, texts_view(params@), *body, old(self).cstate()).consts,
            r is Err ==> final(self).at_limit(),
            r is Ok ==> lands_on_instructions(r->Ok_0.code@, vals(r->Ok_0.constants@)),
            final(self).inv(),
            r is Ok ==> r->Ok_0.code@ == final(self).code(),
            r is Ok ==> r->Ok_0.code@.last() == byte_of(OpCode::Halt),
            r is Ok ==> exists|k: int, j: int|
                0 <= k < r->Ok_0.constants@.len() && vals(r->Ok_0.constants@)[k] == Val::Function(
                    name@,
                    texts_view(params@),
                    0,
                ) && 0 <= j < final(self).names().len() && final(self).names()[j] == name@
                    && ends_with(
                    r->Ok_0.code@,
                    encoding(load_const(k as nat)) + encoding(on_name(OpCode::StoreName, j)) + seq![
                        byte_of(OpCode::Halt),
                    ],
                ),
    {
        broadcast use group_growth;

        let mut i: usize = 0;
        while i < params.len()
            invariant
                i <= params@.len(),
                self.inv(),
                self.cstate() == lowering::intern_all(old(self).cstate(), texts_view(params@), i as nat),
            decreases params.len() - i,
        {
            self.name(params[i].clone())?;
            i = i + 1;
        }
        let name_idx = self.name(name.clone())?;
        match body.as_array() {
            Some(stmts) => {
                self.compile_items(body, stmts)?;
            },
            None => {
                self.compile_node(body)?;
            },
        }
        let f = Value::Function {
            name: name.clone(),
            params: crate::value::copy_texts(params),
            bytecode_offset: 0,
        };
        let ghost named = *self;
        let k = self.constant(f)?;
        let ghost after_const = self.consts();
        assert(after_const.len() == k + 1);
        let ghost before_load = self.chunk.code@;
        self.emit_arg(OpCode::LoadConst, k)?;
        self.emit_arg(OpCode::StoreName, name_idx)?;
        assert(self.consts() == after_const);
        assert(encoding(Instruction { opcode: OpCode::Halt, operand: None }) =~= seq![byte_of(OpCode::Halt)]);
        let r = self.finish();
        proof {
            if r is Ok {
                assert(vals(r->Ok_0.constants@) == after_const);
                assert(r->Ok_0.constants@.len() == vals(r->Ok_0.constants@).len());
            }
        }
        proof {
            if r is Ok {
                let tail = encoding(load_const(k as nat)) + encoding(on_name(OpCode::StoreName, name_idx as int)) + seq![byte_of(OpCode::Halt)];
                assert(load_const(k as nat) == Instruction { opcode: OpCode::LoadConst, operand: Some(k) });
                assert(on_name(OpCode::StoreName, name_idx as int) == Instruction {
                    opcode: OpCode::StoreName,
                    operand: Some(name_idx),
                });
                let c = r->Ok_0.code@;
                assert(c =~= before_load + tail);
                assert(c.subrange(c.len() - tail.len(), c.len() as int) =~= tail);
                assert(vals(r->Ok_0.constants@)[k as int] == Val::Function(name@, texts_view(params@), 0));
                assert(self.names()[name_idx as int] == name@);
                let kk = k as int;
                let jj = name_idx as int;
                assert(0 <= kk < r->Ok_0.constants@.len());
                assert(0 <= jj < self.names().len());
                assert(ends_with(r->Ok_0.code@, tail));
                assert(0 <= kk < r->Ok_0.constants@.len() && vals(r->Ok_0.constants@)[kk] == Val::Function(
                    name@,
                    texts_view(params@),
                    0,
                ) && 0 <= jj < self.names().len() && self.names()[jj] == name@ && ends_with(
                    r->Ok_0.code@,
                    encoding(load_const(kk as nat)) + encoding(on_name(OpCode::StoreName, jj)) + seq![
                        byte_of(OpCode::Halt),
                    ],
                ));
            }
        }
        r
    }
}
impl Default for BytecodeCompiler {
    fn default() -> (r: BytecodeCompiler)
        ensures
            r.inv(),
            r.code().len() == 0,
    {
        BytecodeCompiler::new()
    }
}

} // verus!
