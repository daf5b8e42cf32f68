//! The compiler's lowering, stated as spec functions on a model of the compiler's state:
//! the code, the constant and name pools, and the stacks of open loops.
use vstd::prelude::*;
use crate::bytecode::{encoding, name_pos, patched, Instruction, OpCode};
use crate::compiler::{
    assign_name_of, binary_op_of, bool_of, compound_op_of, kind_of, literal_of, num_of, op_tag_of,
    tag_of, target_name_of, text_or, unary_op_of, NodeKind,
};
use crate::json::{items_of, member, Json};
use crate::value::Val;

verus! {

broadcast use vstd::std_specs::vec::group_vec_axioms, vstd::seq::group_seq_axioms;

/// Model of the compiler's state: code, constants, names, the start of each open loop and
/// the pending `break` jumps of each open loop.
pub struct CState {
    pub code: Seq<u8>,
    pub consts: Seq<Val>,
    pub names: Seq<Seq<char>>,
    pub loop_starts: Seq<usize>,
    pub loop_ends: Seq<Seq<usize>>,
}

/// Appends an instruction without operand.
pub open spec fn put_op(st: CState, op: OpCode) -> CState {
    CState { code: st.code + encoding(Instruction { opcode: op, operand: None }), ..st }
}

/// Appends an instruction with an operand.
pub open spec fn put_arg(st: CState, op: OpCode, x: u32) -> CState {
    CState { code: st.code + encoding(Instruction { opcode: op, operand: Some(x) }), ..st }
}

/// Loads `v` from a fresh constant slot.
pub open spec fn load_val(st: CState, v: Val) -> CState {
    put_arg(CState { consts: st.consts.push(v), ..st }, OpCode::LoadConst, st.consts.len() as u32)
}

/// Where `n` is interned: its first position, or the end where it is appended.
pub open spec fn intern_pos(names: Seq<Seq<char>>, n: Seq<char>) -> int {
    match name_pos(names, n) {
        Some(p) => p,
        None => names.len() as int,
    }
}

pub open spec fn intern(st: CState, n: Seq<char>) -> CState {
    match name_pos(st.names, n) {
        Some(_) => st,
        None => CState { names: st.names.push(n), ..st },
    }
}

/// An instruction on the interned slot of name `n`.
pub open spec fn on_name_op(st: CState, op: OpCode, n: Seq<char>) -> CState {
    put_arg(intern(st, n), op, intern_pos(st.names, n) as u32)
}

/// Points the jump at `at` to `t`.
pub open spec fn patch_at(st: CState, at: int, t: int) -> CState {
    CState { code: patched(st.code, at, t as u32), ..st }
}

/// Points the first `n` of `offs` to `t`, in order.
pub open spec fn patch_all(st: CState, offs: Seq<usize>, n: nat, t: int) -> CState
    decreases n,
{
    if n == 0 || n > offs.len() {
        st
    } else {
        patch_at(patch_all(st, offs, (n - 1) as nat, t), offs[n - 1] as int, t)
    }
}

/// Opens a loop whose start is the current end of the code.
pub open spec fn open_loop(st: CState) -> CState {
    CState {
        loop_starts: st.loop_starts.push(st.code.len() as usize),
        loop_ends: st.loop_ends.push(Seq::empty()),
        ..st
    }
}

/// Closes the innermost loop: its pending breaks jump to `end`.
pub open spec fn close_loop(st: CState, end: int) -> CState {
    let breaks = st.loop_ends.last();
    let st1 = CState {
        loop_starts: st.loop_starts.drop_last(),
        loop_ends: st.loop_ends.drop_last(),
        ..st
    };
    patch_all(st1, breaks, breaks.len(), end)
}

/// The back edge to `start`, then the loop's exit jump and breaks pointed just past it.
pub open spec fn finish_loop(st: CState, start: int, exit: int) -> CState {
    let s1 = put_arg(st, OpCode::Jump, start as u32);
    close_loop(patch_at(s1, exit, s1.code.len() as int), s1.code.len() as int)
}

/// The text items of an array, in order.
pub open spec fn strings_in(v: Seq<Json>, n: nat) -> Seq<Seq<char>>
    decreases n,
{
    if n == 0 || n > v.len() {
        Seq::empty()
    } else {
        let r = strings_in(v, (n - 1) as nat);
        match v[n - 1] {
            Json::Str(t) => r.push(t@),
            _ => r,
        }
    }
}

/// The parameter names of a function node (its text items).
pub open spec fn params_of(node: Json) -> Seq<Seq<char>> {
    match member(node, "params"@) {
        Some(Json::Array(v)) => strings_in(v@, v@.len()),
        _ => Seq::empty(),
    }
}

/// Lowers a node (dispatch by kind).
pub open spec fn lowered(node: Json, st: CState) -> CState
    decreases node, 4nat,
{
    match kind_of(tag_of(node)) {
        NodeKind::Program | NodeKind::Block => lowered_block(node, "statements"@, st),
        NodeKind::If => lowered_branches(node, "if_body"@, "else_body"@, true, st),
        NodeKind::Ternary => lowered_branches(node, "if_expr"@, "else_expr"@, false, st),
        NodeKind::Unknown => st,
        NodeKind::VarDecl => lowered_var_decl(node, st),
        NodeKind::Assign => lowered_assign(node, st),
        NodeKind::BinOp => lowered_bin_op(node, st),
        NodeKind::UnaryOp => lowered_unary_op(node, st),
        NodeKind::Num => lowered_num(node, st),
        NodeKind::Text => lowered_text(node, st),
        NodeKind::Boolean => lowered_boolean(node, st),
        NodeKind::NoneValue => lowered_none_value(node, st),
        NodeKind::Var => lowered_var(node, st),
        NodeKind::List => lowered_list(node, st),
        NodeKind::Dict => lowered_dict(node, st),
        NodeKind::While => lowered_while(node, st),
        NodeKind::For => lowered_for(node, st),
        NodeKind::ForEach => lowered_for_each(node, st),
        NodeKind::FuncDecl => lowered_func_decl(node, st),
        NodeKind::FuncCall => lowered_func_call(node, st),
        NodeKind::Return => lowered_return(node, st),
        NodeKind::Print => lowered_print(node, st),
        NodeKind::Break => lowered_break(st),
        NodeKind::Continue => lowered_continue(st),
        NodeKind::IndexAccess => lowered_index_access(node, st),
        NodeKind::CompoundAssign => lowered_compound_assign(node, st),
        NodeKind::Lambda => lowered_lambda(node, st),
        NodeKind::ListComp => lowered_list_comp(node, st),
        NodeKind::Literal => lowered_literal(node, st),
    }
}

/// The value (none when absent), then a store to the declared name.
pub open spec fn lowered_var_decl(node: Json, st: CState) -> CState
    decreases node, 2nat,
{
    {
        let s1 = match member(node, "value"@) {
            Some(v) => lowered(v, st),
            None => load_val(st, Val::Nil),
        };
        on_name_op(s1, OpCode::StoreName, text_or(node, "var_name"@, "_"@))
    }
}

/// The value, then a store to the assigned name.
pub open spec fn lowered_assign(node: Json, st: CState) -> CState
    decreases node, 2nat,
{
    on_name_op(
        lowered_member(node, "value"@, st),
        OpCode::StoreName,
        assign_name_of(node),
    )
}

/// Left operand, right operand, then the operator's operation (post-order).
pub open spec fn lowered_bin_op(node: Json, st: CState) -> CState
    decreases node, 2nat,
{
    put_op(
        lowered_member(node, "right"@, lowered_member(node, "left"@, st)),
        binary_op_of(op_tag_of(node)),
    )
}

/// The operand, then the operator's operation.
pub open spec fn lowered_unary_op(node: Json, st: CState) -> CState
    decreases node, 2nat,
{
    put_op(lowered_member(node, "expr"@, st), unary_op_of(op_tag_of(node)))
}

/// A load of the number from a fresh constant slot.
pub open spec fn lowered_num(node: Json, st: CState) -> CState
    decreases node, 2nat,
{
    load_val(st, num_of(node))
}

/// A load of the text from a fresh constant slot.
pub open spec fn lowered_text(node: Json, st: CState) -> CState
    decreases node, 2nat,
{
    load_val(st, Val::Str(text_or(node, "value"@, ""@)))
}

/// A load of the boolean from a fresh constant slot.
pub open spec fn lowered_boolean(node: Json, st: CState) -> CState
    decreases node, 2nat,
{
    load_val(st, Val::Bool(bool_of(node)))
}

/// A load of none from a fresh constant slot.
pub open spec fn lowered_none_value(node: Json, st: CState) -> CState
    decreases node, 2nat,
{
    load_val(st, Val::Nil)
}

/// A load of the interned name.
pub open spec fn lowered_var(node: Json, st: CState) -> CState
    decreases node, 2nat,
{
    on_name_op(st, OpCode::LoadName, text_or(node, "name"@, "_"@))
}

/// The elements in order, then `BuildList` with their count.
pub open spec fn lowered_list(node: Json, st: CState) -> CState
    decreases node, 2nat,
{
    match member(node, "elements"@) {
        Some(Json::Array(v)) => put_arg(
            lowered_items(v@, v@.len(), st),
            OpCode::BuildList,
            v@.len() as u32,
        ),
        _ => put_arg(st, OpCode::BuildList, 0),
    }
}

/// Each entry's key and value in order, then `BuildDict` with the entry count.
pub open spec fn lowered_dict(node: Json, st: CState) -> CState
    decreases node, 2nat,
{
    match member(node, "pairs"@) {
        Some(Json::Array(v)) => put_arg(
            lowered_pairs(v@, v@.len(), st),
            OpCode::BuildDict,
            v@.len() as u32,
        ),
        _ => put_arg(st, OpCode::BuildDict, 0),
    }
}

/// `start: cond; JumpIfFalse end; body; Jump start; end:`, with breaks patched to `end`.
pub open spec fn lowered_while(node: Json, st: CState) -> CState
    decreases node, 2nat,
{
    {
        let start = st.code.len() as int;
        let s1 = lowered_member(node, "condition"@, open_loop(st));
        let exit = s1.code.len() as int;
        let s2 = lowered_block(node, "body"@, put_arg(s1, OpCode::JumpIfFalse, 0));
        finish_loop(s2, start, exit)
    }
}

/// `start; StoreName i; loop: LoadName i; end; Le; JumpIfFalse exit; body; LoadName i;
/// LoadConst 1; Add; StoreName i; Jump loop; exit:` (inclusive bound), breaks patched to `exit`.
pub open spec fn lowered_for(node: Json, st: CState) -> CState
    decreases node, 2nat,
{
    {
        let var = text_or(node, "var_name"@, "i"@);
        let s1 = lowered_member(node, "start"@, st);
        let k = intern_pos(s1.names, var) as u32;
        let s2 = on_name_op(s1, OpCode::StoreName, var);
        let start = s2.code.len() as int;
        let s3 = lowered_member(node, "end"@, put_arg(open_loop(s2), OpCode::LoadName, k));
        let s4 = put_op(s3, OpCode::Le);
        let exit = s4.code.len() as int;
        let s5 = lowered_block(node, "body"@, put_arg(s4, OpCode::JumpIfFalse, 0));
        let s6 = put_op(load_val(put_arg(s5, OpCode::LoadName, k), Val::Int(1)), OpCode::Add);
        let s7 = put_arg(s6, OpCode::StoreName, k);
        finish_loop(s7, start, exit)
    }
}

/// `iterable; GetIter; loop: ForIter; JumpIfFalse exit; StoreName x; body; Jump loop; exit:`,
/// breaks patched to `exit`.
pub open spec fn lowered_for_each(node: Json, st: CState) -> CState
    decreases node, 2nat,
{
    {
        let var = text_or(node, "var_name"@, "item"@);
        let s1 = put_op(lowered_member(node, "iterable"@, st), OpCode::GetIter);
        let start = s1.code.len() as int;
        let s2 = put_op(open_loop(s1), OpCode::ForIter);
        let exit = s2.code.len() as int;
        let s3 = on_name_op(put_arg(s2, OpCode::JumpIfFalse, 0), OpCode::StoreName, var);
        finish_loop(lowered_block(node, "body"@, s3), start, exit)
    }
}

/// `Jump over; body; LoadConst none; Return; over:`, then the function value (entry just after
/// the first jump, with the declared parameters) is loaded and stored under its name.
pub open spec fn lowered_func_decl(node: Json, st: CState) -> CState
    decreases node, 2nat,
{
    {
        let name = text_or(node, "name"@, "anonymous"@);
        let over = st.code.len() as int;
        let s1 = put_arg(st, OpCode::Jump, 0);
        let entry = s1.code.len();
        let s2 = put_op(load_val(lowered_block(node, "body"@, s1), Val::Nil), OpCode::Return);
        let s3 = patch_at(s2, over, s2.code.len() as int);
        let s4 = load_val(s3, Val::Function(name, params_of(node), entry));
        on_name_op(s4, OpCode::StoreName, name)
    }
}

/// The arguments in order, the callee (by name, else the callee expression), then
/// `Call argc`; nothing without an argument list.
pub open spec fn lowered_func_call(node: Json, st: CState) -> CState
    decreases node, 2nat,
{
    {
        let name = text_or(node, "name"@, ""@);
        match member(node, "args"@) {
            Some(Json::Array(v)) => {
                let s1 = lowered_block(node, "args"@, st);
                let s2 = if name.len() > 0 {
                    on_name_op(s1, OpCode::LoadName, name)
                } else {
                    lowered_member(node, "func_expr"@, s1)
                };
                put_arg(s2, OpCode::Call, v@.len() as u32)
            },
            _ => st,
        }
    }
}

/// The value (none when absent), then `Return`.
pub open spec fn lowered_return(node: Json, st: CState) -> CState
    decreases node, 2nat,
{
    {
        let s1 = match member(node, "expr"@) {
            Some(e) => lowered(e, st),
            None => load_val(st, Val::Nil),
        };
        put_op(s1, OpCode::Return)
    }
}

/// The value, then `Print`.
pub open spec fn lowered_print(node: Json, st: CState) -> CState
    decreases node, 2nat,
{
    put_op(lowered_member(node, "expr"@, st), OpCode::Print)
}

/// A placeholder `Jump 0`, recorded in the innermost loop for patching when it closes.
pub open spec fn lowered_break(st: CState) -> CState
{
    {
        let s1 = put_arg(st, OpCode::Jump, 0);
        if s1.loop_ends.len() > 0 {
            CState {
                loop_ends: s1.loop_ends.update(
                    s1.loop_ends.len() - 1,
                    s1.loop_ends.last().push(st.code.len() as usize),
                ),
                ..s1
            }
        } else {
            s1
        }
    }
}

/// A jump to the innermost loop's start; nothing outside a loop.
pub open spec fn lowered_continue(st: CState) -> CState
{
    if st.loop_starts.len() > 0 {
        put_arg(st, OpCode::Jump, st.loop_starts.last() as u32)
    } else {
        st
    }
}

/// The receiver, the index, then `GetIndex`.
pub open spec fn lowered_index_access(node: Json, st: CState) -> CState
    decreases node, 2nat,
{
    put_op(
        lowered_member(node, "index"@, lowered_member(node, "obj"@, st)),
        OpCode::GetIndex,
    )
}

/// A load of the target, the value, the operation, then a store to the target.
pub open spec fn lowered_compound_assign(node: Json, st: CState) -> CState
    decreases node, 2nat,
{
    {
        let var = target_name_of(node);
        let k = intern_pos(st.names, var) as u32;
        let s1 = lowered_member(node, "value"@, on_name_op(st, OpCode::LoadName, var));
        put_arg(put_op(s1, compound_op_of(op_tag_of(node))), OpCode::StoreName, k)
    }
}

/// `Jump over; body; Return; over:`, then a load of the function value `<lambda>`.
pub open spec fn lowered_lambda(node: Json, st: CState) -> CState
    decreases node, 2nat,
{
    {
        let over = st.code.len() as int;
        let s1 = put_arg(st, OpCode::Jump, 0);
        let entry = s1.code.len();
        let s2 = put_op(lowered_member(node, "body"@, s1), OpCode::Return);
        let s3 = patch_at(s2, over, s2.code.len() as int);
        load_val(s3, Val::Function("<lambda>"@, params_of(node), entry))
    }
}

/// `BuildList 0; iterable; GetIter; loop: ForIter; JumpIfFalse exit; StoreName x; body;
/// Jump loop; exit:`.
pub open spec fn lowered_list_comp(node: Json, st: CState) -> CState
    decreases node, 2nat,
{
    {
        let s1 = put_op(
            lowered_member(node, "iterable"@, put_arg(st, OpCode::BuildList, 0)),
            OpCode::GetIter,
        );
        let start = s1.code.len() as int;
        let s2 = put_op(s1, OpCode::ForIter);
        let exit = s2.code.len() as int;
        let s3 = on_name_op(
            put_arg(s2, OpCode::JumpIfFalse, 0),
            OpCode::StoreName,
            text_or(node, "var_name"@, "item"@),
        );
        let s4 = lowered_comp_body(node, start, s3);
    let s5 = put_arg(s4, OpCode::Jump, start as u32);
        patch_at(s5, exit, s5.code.len() as int)
    }
}

/// A bare scalar loads itself from a fresh constant slot; a bare array lowers its items; an
/// object emits nothing.
pub open spec fn lowered_literal(node: Json, st: CState) -> CState
    decreases node, 2nat,
{
    match literal_of(node) {
        Some(v) => load_val(st, v),
        None => match items_of(node) {
            Some(v) => lowered_items(v, v.len(), st),
            None => st,
        },
    }
}

/// The body of a comprehension's loop: with a condition, the expression only when it holds
/// (a false condition skips to the next round); without one, the expression.
pub open spec fn lowered_comp_body(node: Json, start: int, s3: CState) -> CState
    decreases node, 1nat,
{
    match member(node, "condition"@) {
            Some(c) => {
                let c1 = lowered(c, s3);
                let skip = c1.code.len() as int;
                let c2 = put_arg(
                    lowered_member(node, "expr"@, put_arg(c1, OpCode::JumpIfFalse, 0)),
                    OpCode::Jump,
                    start as u32,
                );
                patch_at(c2, skip, c2.code.len() as int)
            },
            None => lowered_member(node, "expr"@, s3),
        }
}

/// `cond; JumpIfFalse else; then; Jump end; else: else-part; end:`.
pub open spec fn lowered_branches(
    node: Json,
    then_key: Seq<char>,
    else_key: Seq<char>,
    blocks: bool,
    st: CState,
) -> CState
    decreases node, 2nat,
{
    let s1 = lowered_member(node, "condition"@, st);
    let jif = s1.code.len() as int;
    let s2 = put_arg(s1, OpCode::JumpIfFalse, 0);
    let s3 = if blocks {
        lowered_block(node, then_key, s2)
    } else {
        lowered_member(node, then_key, s2)
    };
    let jend = s3.code.len() as int;
    let s4 = put_arg(s3, OpCode::Jump, 0);
    let s5 = patch_at(s4, jif, s4.code.len() as int);
    let s6 = if blocks {
        lowered_block(node, else_key, s5)
    } else {
        lowered_member(node, else_key, s5)
    };
    patch_at(s6, jend, s6.code.len() as int)
}

/// Lowers the member `key`, if there is one.
pub open spec fn lowered_member(node: Json, key: Seq<char>, st: CState) -> CState
    decreases node, 0nat,
{
    match member(node, key) {
        Some(c) => lowered(c, st),
        None => st,
    }
}

/// Lowers the items of the array member `key`, if it is one.
pub open spec fn lowered_block(node: Json, key: Seq<char>, st: CState) -> CState
    decreases node, 1nat,
{
    match member(node, key) {
        Some(Json::Array(v)) => lowered_items(v@, v@.len(), st),
        _ => st,
    }
}

/// Lowers the first `n` items in order.
pub open spec fn lowered_items(items: Seq<Json>, n: nat, st: CState) -> CState
    decreases items, n,
{
    if n == 0 || n > items.len() {
        st
    } else {
        lowered(items[n - 1], lowered_items(items, (n - 1) as nat, st))
    }
}

/// Lowers the first `n` dictionary entries in order.
pub open spec fn lowered_pairs(pairs: Seq<Json>, n: nat, st: CState) -> CState
    decreases pairs, n,
{
    if n == 0 || n > pairs.len() {
        st
    } else {
        lowered_pair(pairs[n - 1], lowered_pairs(pairs, (n - 1) as nat, st))
    }
}

/// Lowers one dictionary entry `[key, value]`: the key, then the value.
pub open spec fn lowered_pair(pair: Json, st: CState) -> CState
    decreases pair, 0nat,
{
    match pair {
        Json::Array(parts) => {
            let s1 = if parts@.len() > 0 {
                lowered(parts@[0], st)
            } else {
                st
            };
            if parts@.len() > 1 {
                lowered(parts@[1], s1)
            } else {
                s1
            }
        },
        _ => st,
    }
}

/// Interns the first `n` names in order.
pub open spec fn intern_all(st: CState, ns: Seq<Seq<char>>, n: nat) -> CState
    decreases n,
{
    if n == 0 || n > ns.len() {
        st
    } else {
        intern(intern_all(st, ns, (n - 1) as nat), ns[n - 1])
    }
}

/// A standalone function: its parameters and name interned, its body (the items of an array,
/// else the node itself), the function value with entry 0 stored under its name, then `Halt`.
pub open spec fn lowered_function(name: Seq<char>, params: Seq<Seq<char>>, body: Json, st: CState) -> CState {
    let s1 = intern_all(st, params, params.len());
    let k = intern_pos(s1.names, name) as u32;
    let s2 = intern(s1, name);
    let s3 = match items_of(body) {
        Some(v) => lowered_items(v, v.len(), s2),
        None => lowered(body, s2),
    };
    let s4 = load_val(s3, Val::Function(name, params, 0));
    put_op(put_arg(s4, OpCode::StoreName, k), OpCode::Halt)
}

} // verus!
