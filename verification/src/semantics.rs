//! What running a program does, as mathematics.  Every evaluation and every statement
//! either completes, fails (where the program meets an error: an unknown name, a signed
//! overflow, a division by zero, a construct this interpreter does not evaluate), or runs
//! out of fuel; fuel bounds the number of loop tests and of calls.

use vstd::prelude::*;
use crate::ast::{ASTData, ASTDataType, ASTBinaryType, ASTUnaryType, ExprView, NodeView, ParamView};
use crate::memory::{StorableValue, stored, loaded, type_size, value_bits, decode, value_matches_type};
use crate::environment::{DeclView, FrameView};

verus! {

/// The result of a step that may fail or run out of fuel.
pub enum Run<T> {
    Done(T),
    Fail,
    OutOfFuel,
}

/// How a statement ends: it goes on to the next one, or it returns from the function.
pub enum Flow {
    Next,
    Return(Option<StorableValue>),
}

/// The state of the interpreter: memory, the global declarations and the next free
/// global address, and the frames of the functions being run, the innermost last.
pub struct Machine {
    pub mem: Seq<u8>,
    pub globals: Map<Seq<char>, DeclView>,
    pub gptr: u16,
    pub frames: Seq<FrameView>,
}

pub open spec fn initial_machine() -> Machine {
    Machine { mem: Seq::new(65536, |i: int| 0u8), globals: Map::empty(), gptr: 0, frames: Seq::empty() }
}

/// A failure or lack of fuel, carried over to a result of another kind.
pub open spec fn carry<A, B>(r: Run<A>) -> Run<B> {
    match r {
        Run::OutOfFuel => Run::OutOfFuel,
        _ => Run::Fail,
    }
}

/// The declarations of the current scope: the innermost frame's, else the globals.
pub open spec fn cur_decls(m: Machine) -> Map<Seq<char>, DeclView> {
    if m.frames.len() == 0 {
        m.globals
    } else {
        m.frames.last().decls
    }
}

/// The next free address of the current scope.
pub open spec fn cur_ptr(m: Machine) -> u16 {
    if m.frames.len() == 0 {
        m.gptr
    } else {
        m.frames.last().ptr
    }
}

/// The machine with `name` declared as `d` in the current scope, whose next free
/// address becomes `ptr`.
pub open spec fn declare(m: Machine, name: Seq<char>, d: DeclView, ptr: u16) -> Machine {
    if m.frames.len() == 0 {
        Machine { globals: m.globals.insert(name, d), gptr: ptr, ..m }
    } else {
        let f = m.frames.last();
        Machine {
            frames: m.frames.update(m.frames.len() - 1, FrameView { decls: f.decls.insert(name, d), ptr, ..f }),
            ..m
        }
    }
}

/// What `name` stands for: a declaration of the innermost frame, else a global one.
pub open spec fn lookup(m: Machine, name: Seq<char>) -> Option<DeclView> {
    if m.frames.len() > 0 && m.frames.last().decls.dom().contains(name) {
        Some(m.frames.last().decls[name])
    } else if m.globals.dom().contains(name) {
        Some(m.globals[name])
    } else {
        None
    }
}

/// The address and type of the variable `name`, if `name` stands for a variable.
pub open spec fn var_of(m: Machine, name: Seq<char>) -> Option<(u16, ASTData)> {
    match lookup(m, name) {
        Some(DeclView::Var(a, t)) => Some((a, t)),
        _ => None,
    }
}

/// The return type, parameters and body of the function `name`, if `name` stands for one.
pub open spec fn func_of(m: Machine, name: Seq<char>) -> Option<(ASTData, Seq<ParamView>, Seq<NodeView>)> {
    match lookup(m, name) {
        Some(DeclView::Func(r, ps, b)) => Some((r, ps, b)),
        _ => None,
    }
}

/// The value of type `ty` at `a`, if there is one.
pub open spec fn read_var(m: Machine, a: u16, ty: ASTData) -> Option<StorableValue> {
    if ty.ty == ASTDataType::Void || a + type_size(ty.ty) > 65536 {
        None
    } else {
        Some(loaded(m.mem, a as int, ty))
    }
}

pub open spec fn is_digit(c: char) -> bool {
    '0' <= c && c <= '9'
}

pub open spec fn digit_value(c: char) -> int {
    (c as int) - 48
}

pub open spec fn all_digits(s: Seq<char>) -> bool {
    forall|i: int| 0 <= i < s.len() ==> is_digit(#[trigger] s[i])
}

/// The number written by the decimal digits `s`.
pub open spec fn digits_value(s: Seq<char>) -> int
    decreases s.len(),
{
    if s.len() == 0 {
        0
    } else {
        10 * digits_value(s.drop_last()) + digit_value(s.last())
    }
}

/// The value of a decimal numeral: an `int` where it fits, else a `long`, else 0 as a
/// `char`.  A numeral with something other than a decimal digit, or beyond 64 bits, has no
/// value: `None`.
pub open spec fn numeral_value(s: Seq<char>) -> Option<StorableValue> {
    if !all_digits(s) || digits_value(s) > u64::MAX {
        None
    } else if digits_value(s) <= i32::MAX {
        Some(StorableValue::I32(digits_value(s) as i32))
    } else if digits_value(s) <= i64::MAX {
        Some(StorableValue::I64(digits_value(s) as i64))
    } else {
        Some(StorableValue::I8(0))
    }
}

/// The conversion rank of a value; operands are converted to the higher rank.
pub open spec fn rank(v: StorableValue) -> u8 {
    match v {
        StorableValue::I8(_) => 1,
        StorableValue::U8(_) => 2,
        StorableValue::I16(_) => 3,
        StorableValue::U16(_) => 4,
        StorableValue::I32(_) => 5,
        StorableValue::U32(_) => 6,
        StorableValue::I64(_) => 7,
        StorableValue::U64(_) => 8,
        StorableValue::F32(_) => 9,
        StorableValue::F64(_) => 10,
    }
}

/// `v` converted to a higher integer rank, with the casts of the host language;
/// `None` for a conversion to or between floating-point ranks, which this library
/// does not compute.
pub open spec fn convert_to_rank(v: StorableValue, r: u8) -> Option<StorableValue> {
    match v {
        StorableValue::I8(x) => if r == 2 {
            Some(StorableValue::U8(x as u8))
        } else if r == 3 {
            Some(StorableValue::I16(x as i16))
        } else if r == 4 {
            Some(StorableValue::U16(x as u16))
        } else if r == 5 {
            Some(StorableValue::I32(x as i32))
        } else if r == 6 {
            Some(StorableValue::U32(x as u32))
        } else if r == 7 {
            Some(StorableValue::I64(x as i64))
        } else if r == 8 {
            Some(StorableValue::U64(x as u64))
        } else {
            None
        },
        StorableValue::U8(x) => if r == 3 {
            Some(StorableValue::I16(x as i16))
        } else if r == 4 {
            Some(StorableValue::U16(x as u16))
        } else if r == 5 {
            Some(StorableValue::I32(x as i32))
        } else if r == 6 {
            Some(StorableValue::U32(x as u32))
        } else if r == 7 {
            Some(StorableValue::I64(x as i64))
        } else if r == 8 {
            Some(StorableValue::U64(x as u64))
        } else {
            None
        },
        StorableValue::I16(x) => if r == 4 {
            Some(StorableValue::U16(x as u16))
        } else if r == 5 {
            Some(StorableValue::I32(x as i32))
        } else if r == 6 {
            Some(StorableValue::U32(x as u32))
        } else if r == 7 {
            Some(StorableValue::I64(x as i64))
        } else if r == 8 {
            Some(StorableValue::U64(x as u64))
        } else {
            None
        },
        StorableValue::U16(x) => if r == 5 {
            Some(StorableValue::I32(x as i32))
        } else if r == 6 {
            Some(StorableValue::U32(x as u32))
        } else if r == 7 {
            Some(StorableValue::I64(x as i64))
        } else if r == 8 {
            Some(StorableValue::U64(x as u64))
        } else {
            None
        },
        StorableValue::I32(x) => if r == 6 {
            Some(StorableValue::U32(x as u32))
        } else if r == 7 {
            Some(StorableValue::I64(x as i64))
        } else if r == 8 {
            Some(StorableValue::U64(x as u64))
        } else {
            None
        },
        StorableValue::U32(x) => if r == 7 {
            Some(StorableValue::I64(x as i64))
        } else if r == 8 {
            Some(StorableValue::U64(x as u64))
        } else {
            None
        },
        StorableValue::I64(x) => if r == 8 {
            Some(StorableValue::U64(x as u64))
        } else {
            None
        },
        _ => None,
    }
}

/// The operands converted to the higher of their ranks.
pub open spec fn convert(l: StorableValue, r: StorableValue) -> Option<(StorableValue, StorableValue)> {
    if rank(l) == rank(r) {
        Some((l, r))
    } else if rank(l) < rank(r) {
        match convert_to_rank(l, rank(r)) {
            Some(cl) => Some((cl, r)),
            None => None,
        }
    } else {
        match convert_to_rank(r, rank(l)) {
            Some(cr) => Some((l, cr)),
            None => None,
        }
    }
}

/// An integer operand promoted as C promotes it: a type narrower than `int` becomes `int`.
pub open spec fn promote(v: StorableValue) -> StorableValue {
    match v {
        StorableValue::I8(x) => StorableValue::I32(x as i32),
        StorableValue::U8(x) => StorableValue::I32(x as i32),
        StorableValue::I16(x) => StorableValue::I32(x as i32),
        StorableValue::U16(x) => StorableValue::I32(x as i32),
        _ => v,
    }
}

pub open spec fn unsigned_op_u8(op: ASTBinaryType, a: u8, b: u8) -> Option<u8> {
    match op {
        ASTBinaryType::Add => Some(a.wrapping_add(b)),
        ASTBinaryType::Sub => Some(a.wrapping_sub(b)),
        ASTBinaryType::Mult => Some(a.wrapping_mul(b)),
        _ => a.checked_div(b),
    }
}

pub open spec fn unsigned_op_u16(op: ASTBinaryType, a: u16, b: u16) -> Option<u16> {
    match op {
        ASTBinaryType::Add => Some(a.wrapping_add(b)),
        ASTBinaryType::Sub => Some(a.wrapping_sub(b)),
        ASTBinaryType::Mult => Some(a.wrapping_mul(b)),
        _ => a.checked_div(b),
    }
}

pub open spec fn unsigned_op_u32(op: ASTBinaryType, a: u32, b: u32) -> Option<u32> {
    match op {
        ASTBinaryType::Add => Some(a.wrapping_add(b)),
        ASTBinaryType::Sub => Some(a.wrapping_sub(b)),
        ASTBinaryType::Mult => Some(a.wrapping_mul(b)),
        _ => a.checked_div(b),
    }
}

pub open spec fn unsigned_op_u64(op: ASTBinaryType, a: u64, b: u64) -> Option<u64> {
    match op {
        ASTBinaryType::Add => Some(a.wrapping_add(b)),
        ASTBinaryType::Sub => Some(a.wrapping_sub(b)),
        ASTBinaryType::Mult => Some(a.wrapping_mul(b)),
        _ => a.checked_div(b),
    }
}

pub open spec fn checked_op_i8(op: ASTBinaryType, a: i8, b: i8) -> Option<i8> {
    match op {
        ASTBinaryType::Add => a.checked_add(b),
        ASTBinaryType::Sub => a.checked_sub(b),
        ASTBinaryType::Mult => a.checked_mul(b),
        _ => a.checked_div(b),
    }
}

pub open spec fn checked_op_i16(op: ASTBinaryType, a: i16, b: i16) -> Option<i16> {
    match op {
        ASTBinaryType::Add => a.checked_add(b),
        ASTBinaryType::Sub => a.checked_sub(b),
        ASTBinaryType::Mult => a.checked_mul(b),
        _ => a.checked_div(b),
    }
}

pub open spec fn checked_op_i32(op: ASTBinaryType, a: i32, b: i32) -> Option<i32> {
    match op {
        ASTBinaryType::Add => a.checked_add(b),
        ASTBinaryType::Sub => a.checked_sub(b),
        ASTBinaryType::Mult => a.checked_mul(b),
        _ => a.checked_div(b),
    }
}

pub open spec fn checked_op_i64(op: ASTBinaryType, a: i64, b: i64) -> Option<i64> {
    match op {
        ASTBinaryType::Add => a.checked_add(b),
        ASTBinaryType::Sub => a.checked_sub(b),
        ASTBinaryType::Mult => a.checked_mul(b),
        _ => a.checked_div(b),
    }
}

/// `+`, `-`, `*` or `/` on two integers of one type: unsigned arithmetic wraps around,
/// signed arithmetic fails on overflow; both fail on a division by zero.  `None` for
/// floating-point operands.
pub open spec fn arith(op: ASTBinaryType, l: StorableValue, r: StorableValue) -> Option<StorableValue> {
    match (l, r) {
        (StorableValue::U8(a), StorableValue::U8(b)) => match unsigned_op_u8(op, a, b) {
            Some(x) => Some(StorableValue::U8(x)),
            None => None,
        },
        (StorableValue::U16(a), StorableValue::U16(b)) => match unsigned_op_u16(op, a, b) {
            Some(x) => Some(StorableValue::U16(x)),
            None => None,
        },
        (StorableValue::U32(a), StorableValue::U32(b)) => match unsigned_op_u32(op, a, b) {
            Some(x) => Some(StorableValue::U32(x)),
            None => None,
        },
        (StorableValue::U64(a), StorableValue::U64(b)) => match unsigned_op_u64(op, a, b) {
            Some(x) => Some(StorableValue::U64(x)),
            None => None,
        },
        (StorableValue::I8(a), StorableValue::I8(b)) => match checked_op_i8(op, a, b) {
            Some(x) => Some(StorableValue::I8(x)),
            None => None,
        },
        (StorableValue::I16(a), StorableValue::I16(b)) => match checked_op_i16(op, a, b) {
            Some(x) => Some(StorableValue::I16(x)),
            None => None,
        },
        (StorableValue::I32(a), StorableValue::I32(b)) => match checked_op_i32(op, a, b) {
            Some(x) => Some(StorableValue::I32(x)),
            None => None,
        },
        (StorableValue::I64(a), StorableValue::I64(b)) => match checked_op_i64(op, a, b) {
            Some(x) => Some(StorableValue::I64(x)),
            None => None,
        },
        _ => None,
    }
}

pub open spec fn is_comparison(op: ASTBinaryType) -> bool {
    match op {
        ASTBinaryType::LessThan | ASTBinaryType::BiggerThan | ASTBinaryType::LessEqual => true,
        _ => false,
    }
}

/// What a comparison operator says of two numbers.
pub open spec fn compare_numbers(op: ASTBinaryType, a: int, b: int) -> bool {
    match op {
        ASTBinaryType::LessThan => a < b,
        ASTBinaryType::BiggerThan => a > b,
        _ => a <= b,
    }
}

/// The value of a binary operation other than assignment on converted operands: an
/// arithmetic result, or 1 or 0 (as an `int`) for a comparison of two integers.
pub open spec fn binary_value(op: ASTBinaryType, l: StorableValue, r: StorableValue) -> Option<StorableValue> {
    match op {
        ASTBinaryType::Add | ASTBinaryType::Sub | ASTBinaryType::Mult | ASTBinaryType::Div => arith(op, l, r),
        _ => if is_comparison(op) && same_int_type(l, r) {
            Some(StorableValue::I32(if compare_numbers(op, int_value(l), int_value(r)) { 1 } else { 0 }))
        } else {
            None
        },
    }
}

/// The value of a unary operation other than increment and decrement: `+` and `-` on
/// a promoted integer, and `!`, which gives 1 for zero and 0 otherwise.
pub open spec fn unary_value(op: ASTUnaryType, v: StorableValue) -> Option<StorableValue> {
    if rank(v) > 8 {
        None
    } else {
        let p = promote(v);
        match op {
            ASTUnaryType::Plus => Some(p),
            ASTUnaryType::Minus => match p {
                StorableValue::I32(x) => match 0i32.checked_sub(x) {
                    Some(y) => Some(StorableValue::I32(y)),
                    None => None,
                },
                StorableValue::I64(x) => match 0i64.checked_sub(x) {
                    Some(y) => Some(StorableValue::I64(y)),
                    None => None,
                },
                StorableValue::U32(x) => Some(StorableValue::U32(0u32.wrapping_sub(x))),
                StorableValue::U64(x) => Some(StorableValue::U64(0u64.wrapping_sub(x))),
                _ => None,
            },
            ASTUnaryType::Negation => Some(StorableValue::I32(if int_value(v) == 0 { 1 } else { 0 })),
            _ => None,
        }
    }
}

/// Whether a data type is an integer type.
pub open spec fn is_int_type(ty: ASTDataType) -> bool {
    match ty {
        ASTDataType::Char | ASTDataType::Short | ASTDataType::Int | ASTDataType::Long | ASTDataType::LongLong => true,
        _ => false,
    }
}

/// `v` converted to the type `ty` as by assignment: an integer to an integer type
/// keeps the number modulo the type's size (its two's-complement bits, cut or
/// sign-extended); a floating-point value stays in its own type.  `None` for a
/// conversion between integer and floating-point types and for `void`.
pub open spec fn coerce(v: StorableValue, ty: ASTData) -> Option<StorableValue> {
    if is_int_type(ty.ty) && rank(v) <= 8 {
        Some(decode(ty, value_bits(v)))
    } else if ty.ty == ASTDataType::Float && v is F32 {
        Some(v)
    } else if ty.ty == ASTDataType::Double && v is F64 {
        Some(v)
    } else {
        None
    }
}

/// The machine after storing `v`, converted to `ty`, into a variable of type `ty` at `a`.
pub open spec fn store(m: Machine, a: u16, ty: ASTData, v: StorableValue) -> Option<Machine> {
    match coerce(v, ty) {
        None => None,
        Some(w) => if a + type_size(ty.ty) > 65536 {
            None
        } else {
            Some(Machine { mem: stored(m.mem, a as int, w, type_size(ty.ty) as int), ..m })
        },
    }
}

/// Declaring a variable of type `ty` in the current scope: it takes the next free
/// address and, when a value is given, receives it.
pub open spec fn declare_slot(m: Machine, ty: ASTData, name: Seq<char>, val: Option<StorableValue>) -> Option<Machine> {
    if ty.ty == ASTDataType::Void || cur_ptr(m) + type_size(ty.ty) > u16::MAX {
        None
    } else {
        let a = cur_ptr(m);
        let m2 = declare(m, name, DeclView::Var(a, ty), (a + type_size(ty.ty)) as u16);
        match val {
            None => Some(m2),
            Some(v) => store(m2, a, ty, v),
        }
    }
}

/// The parameters declared, in order, with the argument values.
pub open spec fn bind_params(m: Machine, ps: Seq<ParamView>, vs: Seq<StorableValue>) -> Option<Machine>
    decreases ps.len(),
{
    if ps.len() == 0 || vs.len() == 0 {
        Some(m)
    } else {
        match declare_slot(m, ps[0].ty, ps[0].name, Some(vs[0])) {
            None => None,
            Some(m1) => bind_params(m1, ps.drop_first(), vs.drop_first()),
        }
    }
}

/// The machine with a new innermost frame whose slots begin at the current free address.
pub open spec fn enter_frame(m: Machine) -> Machine {
    Machine { frames: m.frames.push(FrameView { base: cur_ptr(m), decls: Map::empty(), ptr: cur_ptr(m) }), ..m }
}

pub open spec fn truthy(v: StorableValue) -> Option<bool> {
    if rank(v) <= 8 {
        Some(int_value(v) != 0)
    } else {
        None
    }
}

/// Evaluating an expression: the machine after it and its value.
pub open spec fn eval(m: Machine, e: ExprView, fuel: nat) -> Run<(Machine, StorableValue)>
    decreases fuel, 0nat, e, 2nat,
{
    match e {
        ExprView::Identifier(name) => match var_of(m, name) {
            None => Run::Fail,
            Some((a, ty)) => match read_var(m, a, ty) {
                None => Run::Fail,
                Some(v) => Run::Done((m, v)),
            },
        },
        ExprView::Numeral(lit) => match numeral_value(lit) {
            None => Run::Fail,
            Some(v) => Run::Done((m, v)),
        },
        ExprView::Unary(op, x) => match eval(m, *x, fuel) {
            Run::Done((m1, v)) => match unary_value(op, v) {
                None => Run::Fail,
                Some(w) => Run::Done((m1, w)),
            },
            r => carry(r),
        },
        ExprView::Binary(op, l, r) => if op == ASTBinaryType::Assignment {
            match *l {
                ExprView::Identifier(name) => match eval(m, *r, fuel) {
                    Run::Done((m1, v)) => match var_of(m1, name) {
                        None => Run::Fail,
                        Some((a, ty)) => match store(m1, a, ty, v) {
                            None => Run::Fail,
                            Some(m2) => Run::Done((m2, v)),
                        },
                    },
                    res => carry(res),
                },
                _ => Run::Fail,
            }
        } else {
            match eval(m, *l, fuel) {
                Run::Done((m1, lv)) => match eval(m1, *r, fuel) {
                    Run::Done((m2, rv)) => match convert(promote(lv), promote(rv)) {
                        None => Run::Fail,
                        Some((cl, cr)) => match binary_value(op, cl, cr) {
                            None => Run::Fail,
                            Some(v) => Run::Done((m2, v)),
                        },
                    },
                    res => carry(res),
                },
                res => carry(res),
            }
        },
        ExprView::Conditional(c, a, b) => match eval(m, *c, fuel) {
            Run::Done((m1, v)) => match truthy(v) {
                None => Run::Fail,
                Some(t) => if t {
                    eval(m1, *a, fuel)
                } else {
                    eval(m1, *b, fuel)
                },
            },
            res => carry(res),
        },
        ExprView::Invocation(f, args) => match *f {
            ExprView::Identifier(name) => match call(m, name, args, fuel) {
                Run::Done((m1, Some(v))) => Run::Done((m1, v)),
                Run::Done((_, None)) => Run::Fail,
                res => carry(res),
            },
            _ => Run::Fail,
        },
        ExprView::Null => Run::Fail,
    }
}

/// Evaluating arguments from left to right.
pub open spec fn eval_args(m: Machine, args: Seq<ExprView>, fuel: nat) -> Run<(Machine, Seq<StorableValue>)>
    decreases fuel, 0nat, args, 0nat,
{
    if args.len() == 0 {
        Run::Done((m, Seq::empty()))
    } else {
        match eval(m, args[0], fuel) {
            Run::Done((m1, v)) => match eval_args(m1, args.drop_first(), fuel) {
                Run::Done((m2, vs)) => Run::Done((m2, seq![v] + vs)),
                res => carry(res),
            },
            res => carry(res),
        }
    }
}

/// The machine after a call's innermost frame is left.
pub open spec fn leave_frame(m: Machine) -> Machine {
    Machine { frames: m.frames.drop_last(), ..m }
}

/// The value a function gives back: none for a `void` function or where the body ends
/// without a value; else the returned value converted to the return type.
pub open spec fn return_value(ret: ASTData, flow: Flow) -> Option<Option<StorableValue>> {
    if ret.ty == ASTDataType::Void {
        Some(None)
    } else {
        match flow {
            Flow::Return(Some(v)) => match coerce(v, ret) {
                Some(w) => Some(Some(w)),
                None => None,
            },
            _ => Some(None),
        }
    }
}

/// Calling the function `name`: its arguments are evaluated, a frame is entered whose
/// slots begin at the caller's free address, the parameters are declared there with the
/// arguments, the body runs, and the frame is left.  A call takes one unit of fuel.
pub open spec fn call(m: Machine, name: Seq<char>, args: Seq<ExprView>, fuel: nat) -> Run<(Machine, Option<StorableValue>)>
    decreases fuel, 0nat, args, 1nat,
{
    if fuel == 0 {
        Run::OutOfFuel
    } else {
        match func_of(m, name) {
            None => Run::Fail,
            Some((ret, params, body)) => if params.len() != args.len() {
                Run::Fail
            } else {
                match eval_args(m, args, fuel) {
                    Run::Done((m1, vs)) => match bind_params(enter_frame(m1), params, vs) {
                        None => Run::Fail,
                        Some(m2) => match exec_nodes(m2, body, (fuel - 1) as nat) {
                            Run::Done((m3, flow)) => if m3.frames.len() == 0 {
                                Run::Fail
                            } else {
                                match return_value(ret, flow) {
                                    None => Run::Fail,
                                    Some(rv) => Run::Done((leave_frame(m3), rv)),
                                }
                            },
                            res => carry(res),
                        },
                    },
                    res => carry(res),
                }
            },
        }
    }
}

/// Declaring a variable: its initializer is evaluated, then it takes the next free
/// address of the current scope and, when initialized, receives the value.
pub open spec fn declare_var(m: Machine, ty: ASTData, name: Seq<char>, init: Option<ExprView>, fuel: nat) -> Run<Machine>
    decreases fuel, 0nat, init, 3nat,
{
    match init {
        None => match declare_slot(m, ty, name, None) {
            None => Run::Fail,
            Some(m1) => Run::Done(m1),
        },
        Some(e) => match eval(m, e, fuel) {
            Run::Done((m1, v)) => match declare_slot(m1, ty, name, Some(v)) {
                None => Run::Fail,
                Some(m2) => Run::Done(m2),
            },
            res => carry(res),
        },
    }
}

pub open spec fn exec_node(m: Machine, n: NodeView, fuel: nat) -> Run<(Machine, Flow)>
    decreases fuel, 1nat, n, 0nat,
{
    match n {
        NodeView::Root(ns) => exec_nodes(m, ns, fuel),
        NodeView::Func(ret, name, params, body) => Run::Done(
            (declare(m, name, DeclView::Func(ret, params, body), cur_ptr(m)), Flow::Next),
        ),
        NodeView::Var(ty, name, init) => match declare_var(m, ty, name, init, fuel) {
            Run::Done(m1) => Run::Done((m1, Flow::Next)),
            res => carry(res),
        },
        NodeView::Expression(e) => match e {
            ExprView::Invocation(f, args) => match *f {
                ExprView::Identifier(name) => match call(m, name, args, fuel) {
                    Run::Done((m1, _)) => Run::Done((m1, Flow::Next)),
                    res => carry(res),
                },
                _ => Run::Fail,
            },
            _ => match eval(m, e, fuel) {
                Run::Done((m1, _)) => Run::Done((m1, Flow::Next)),
                res => carry(res),
            },
        },
        NodeView::While(c, body) => exec_while(m, c, body, fuel),
        NodeView::If(c, then_body, else_body) => match eval(m, c, fuel) {
            Run::Done((m1, v)) => match truthy(v) {
                None => Run::Fail,
                Some(t) => if t {
                    exec_nodes(m1, then_body, fuel)
                } else {
                    exec_nodes(m1, else_body, fuel)
                },
            },
            res => carry(res),
        },
        NodeView::Return(value) => match value {
            None => Run::Done((m, Flow::Return(None))),
            Some(e) => match eval(m, e, fuel) {
                Run::Done((m1, v)) => Run::Done((m1, Flow::Return(Some(v)))),
                res => carry(res),
            },
        },
        NodeView::EOF => Run::Done((m, Flow::Next)),
    }
}

/// Statements in order, up to the first that returns.
pub open spec fn exec_nodes(m: Machine, ns: Seq<NodeView>, fuel: nat) -> Run<(Machine, Flow)>
    decreases fuel, 1nat, ns, 0nat,
{
    if ns.len() == 0 {
        Run::Done((m, Flow::Next))
    } else {
        match exec_node(m, ns[0], fuel) {
            Run::Done((m1, Flow::Next)) => exec_nodes(m1, ns.drop_first(), fuel),
            r => r,
        }
    }
}

/// A loop: each test of the condition takes one unit of fuel.
pub open spec fn exec_while(m: Machine, c: ExprView, body: Seq<NodeView>, fuel: nat) -> Run<(Machine, Flow)>
    decreases fuel, 1nat, body, 0nat,
{
    if fuel == 0 {
        Run::OutOfFuel
    } else {
        match eval(m, c, (fuel - 1) as nat) {
            Run::Done((m1, v)) => match truthy(v) {
                None => Run::Fail,
                Some(false) => Run::Done((m1, Flow::Next)),
                Some(true) => match exec_nodes(m1, body, (fuel - 1) as nat) {
                    Run::Done((m2, Flow::Next)) => exec_while(m2, c, body, (fuel - 1) as nat),
                    r => r,
                },
            },
            res => carry(res),
        }
    }
}

/// Whether running `n` from `m` ends, with some amount of fuel.
pub open spec fn settles(m: Machine, n: NodeView) -> bool {
    exists|f: nat| !(#[trigger] exec_node(m, n, f) is OutOfFuel)
}

/// The result of running `n` from `m`, where it ends.
pub open spec fn run(m: Machine, n: NodeView) -> Run<(Machine, Flow)> {
    exec_node(m, n, choose|f: nat| !(#[trigger] exec_node(m, n, f) is OutOfFuel))
}

// ---------------------------------------------------------------------------
// More fuel does not change a step that ends.
// ---------------------------------------------------------------------------

pub proof fn lemma_eval_fuel_mono(m: Machine, e: ExprView, f1: nat, f2: nat)
    requires
        f1 <= f2,
        !(eval(m, e, f1) is OutOfFuel),
    ensures
        eval(m, e, f2) == eval(m, e, f1),
    decreases f1, 0nat, e, 2nat,
{
    match e {
        ExprView::Unary(op, x) => {
            assert(!(eval(m, *x, f1) is OutOfFuel));
            lemma_eval_fuel_mono(m, *x, f1, f2);
        },
        ExprView::Binary(op, l, r) => lemma_binary_fuel_mono(m, op, *l, *r, f1, f2),
        ExprView::Conditional(c, a, b) => lemma_conditional_fuel_mono(m, *c, *a, *b, f1, f2),
        ExprView::Invocation(f, args) => match *f {
            ExprView::Identifier(name) => {
                assert(!(call(m, name, args, f1) is OutOfFuel));
                lemma_call_fuel_mono(m, name, args, f1, f2);
            },
            _ => {},
        },
        _ => {},
    }
}

proof fn lemma_binary_fuel_mono(m: Machine, op: ASTBinaryType, l: ExprView, r: ExprView, f1: nat, f2: nat)
    requires
        f1 <= f2,
        !(eval(m, ExprView::Binary(op, Box::new(l), Box::new(r)), f1) is OutOfFuel),
    ensures
        eval(m, ExprView::Binary(op, Box::new(l), Box::new(r)), f2) == eval(
            m,
            ExprView::Binary(op, Box::new(l), Box::new(r)),
            f1,
        ),
    decreases f1, 0nat, ExprView::Binary(op, Box::new(l), Box::new(r)), 1nat,
{
    if op == ASTBinaryType::Assignment {
        match l {
            ExprView::Identifier(_) => lemma_eval_fuel_mono(m, r, f1, f2),
            _ => {},
        }
    } else {
        lemma_eval_fuel_mono(m, l, f1, f2);
        match eval(m, l, f1) {
            Run::Done((m1, _)) => lemma_eval_fuel_mono(m1, r, f1, f2),
            _ => {},
        }
    }
}

proof fn lemma_conditional_fuel_mono(m: Machine, c: ExprView, a: ExprView, b: ExprView, f1: nat, f2: nat)
    requires
        f1 <= f2,
        !(eval(m, ExprView::Conditional(Box::new(c), Box::new(a), Box::new(b)), f1) is OutOfFuel),
    ensures
        eval(m, ExprView::Conditional(Box::new(c), Box::new(a), Box::new(b)), f2) == eval(
            m,
            ExprView::Conditional(Box::new(c), Box::new(a), Box::new(b)),
            f1,
        ),
    decreases f1, 0nat, ExprView::Conditional(Box::new(c), Box::new(a), Box::new(b)), 1nat,
{
    lemma_eval_fuel_mono(m, c, f1, f2);
    match eval(m, c, f1) {
        Run::Done((m1, v)) => match truthy(v) {
            Some(t) => if t {
                lemma_eval_fuel_mono(m1, a, f1, f2);
            } else {
                lemma_eval_fuel_mono(m1, b, f1, f2);
            },
            None => {},
        },
        _ => {},
    }
}

pub proof fn lemma_eval_args_fuel_mono(m: Machine, args: Seq<ExprView>, f1: nat, f2: nat)
    requires
        f1 <= f2,
        !(eval_args(m, args, f1) is OutOfFuel),
    ensures
        eval_args(m, args, f2) == eval_args(m, args, f1),
    decreases f1, 0nat, args, 0nat,
{
    if args.len() > 0 {
        lemma_eval_fuel_mono(m, args[0], f1, f2);
        match eval(m, args[0], f1) {
            Run::Done((m1, _)) => lemma_eval_args_fuel_mono(m1, args.drop_first(), f1, f2),
            _ => {},
        }
    }
}

pub proof fn lemma_call_fuel_mono(m: Machine, name: Seq<char>, args: Seq<ExprView>, f1: nat, f2: nat)
    requires
        f1 <= f2,
        !(call(m, name, args, f1) is OutOfFuel),
    ensures
        call(m, name, args, f2) == call(m, name, args, f1),
    decreases f1, 0nat, args, 1nat,
{
    match func_of(m, name) {
        Some((ret, params, body)) => if params.len() == args.len() {
            lemma_eval_args_fuel_mono(m, args, f1, f2);
            match eval_args(m, args, f1) {
                Run::Done((m1, vs)) => match bind_params(enter_frame(m1), params, vs) {
                    Some(m2) => lemma_nodes_fuel_mono(m2, body, (f1 - 1) as nat, (f2 - 1) as nat),
                    None => {},
                },
                _ => {},
            }
        },
        None => {},
    }
}

pub proof fn lemma_declare_fuel_mono(m: Machine, ty: ASTData, name: Seq<char>, init: Option<ExprView>, f1: nat, f2: nat)
    requires
        f1 <= f2,
        !(declare_var(m, ty, name, init, f1) is OutOfFuel),
    ensures
        declare_var(m, ty, name, init, f2) == declare_var(m, ty, name, init, f1),
    decreases f1, 0nat, init, 3nat,
{
    match init {
        Some(e) => lemma_eval_fuel_mono(m, e, f1, f2),
        None => {},
    }
}

/// More fuel does not change a run that ends.
pub proof fn lemma_fuel_mono(m: Machine, n: NodeView, f1: nat, f2: nat)
    requires
        f1 <= f2,
        !(exec_node(m, n, f1) is OutOfFuel),
    ensures
        exec_node(m, n, f2) == exec_node(m, n, f1),
    decreases f1, 1nat, n, 1nat,
{
    match n {
        NodeView::Root(ns) => lemma_root_fuel_mono(m, ns, f1, f2),
        NodeView::Var(ty, name, init) => lemma_var_fuel_mono(m, ty, name, init, f1, f2),
        NodeView::Expression(e) => lemma_statement_fuel_mono(m, e, f1, f2),
        NodeView::While(c, body) => lemma_while_node_fuel_mono(m, c, body, f1, f2),
        NodeView::If(c, tb, eb) => lemma_if_fuel_mono(m, c, tb, eb, f1, f2),
        NodeView::Return(value) => lemma_return_fuel_mono(m, value, f1, f2),
        NodeView::Func(..) => {},
        NodeView::EOF => {},
    }
}

proof fn lemma_root_fuel_mono(m: Machine, ns: Seq<NodeView>, f1: nat, f2: nat)
    requires
        f1 <= f2,
        !(exec_node(m, NodeView::Root(ns), f1) is OutOfFuel),
    ensures
        exec_node(m, NodeView::Root(ns), f2) == exec_node(m, NodeView::Root(ns), f1),
    decreases f1, 1nat, NodeView::Root(ns), 0nat,
{
    lemma_nodes_fuel_mono(m, ns, f1, f2);
}

proof fn lemma_var_fuel_mono(m: Machine, ty: ASTData, name: Seq<char>, init: Option<ExprView>, f1: nat, f2: nat)
    requires
        f1 <= f2,
        !(exec_node(m, NodeView::Var(ty, name, init), f1) is OutOfFuel),
    ensures
        exec_node(m, NodeView::Var(ty, name, init), f2) == exec_node(m, NodeView::Var(ty, name, init), f1),
    decreases f1, 0nat, init, 4nat,
{
    lemma_declare_fuel_mono(m, ty, name, init, f1, f2);
}

proof fn lemma_while_node_fuel_mono(m: Machine, c: ExprView, body: Seq<NodeView>, f1: nat, f2: nat)
    requires
        f1 <= f2,
        !(exec_node(m, NodeView::While(c, body), f1) is OutOfFuel),
    ensures
        exec_node(m, NodeView::While(c, body), f2) == exec_node(m, NodeView::While(c, body), f1),
    decreases f1, 1nat, NodeView::While(c, body), 0nat,
{
    lemma_while_fuel_mono(m, c, body, f1, f2);
}

proof fn lemma_return_fuel_mono(m: Machine, value: Option<ExprView>, f1: nat, f2: nat)
    requires
        f1 <= f2,
        !(exec_node(m, NodeView::Return(value), f1) is OutOfFuel),
    ensures
        exec_node(m, NodeView::Return(value), f2) == exec_node(m, NodeView::Return(value), f1),
    decreases f1, 0nat, value, 4nat,
{
    match value {
        Some(e) => lemma_eval_fuel_mono(m, e, f1, f2),
        None => {},
    }
}

proof fn lemma_statement_fuel_mono(m: Machine, e: ExprView, f1: nat, f2: nat)
    requires
        f1 <= f2,
        !(exec_node(m, NodeView::Expression(e), f1) is OutOfFuel),
    ensures
        exec_node(m, NodeView::Expression(e), f2) == exec_node(m, NodeView::Expression(e), f1),
    decreases f1, 0nat, e, 3nat,
{
    match e {
        ExprView::Invocation(f, args) => match *f {
            ExprView::Identifier(name) => lemma_call_fuel_mono(m, name, args, f1, f2),
            _ => {},
        },
        _ => lemma_eval_fuel_mono(m, e, f1, f2),
    }
}

proof fn lemma_if_fuel_mono(m: Machine, c: ExprView, tb: Seq<NodeView>, eb: Seq<NodeView>, f1: nat, f2: nat)
    requires
        f1 <= f2,
        !(exec_node(m, NodeView::If(c, tb, eb), f1) is OutOfFuel),
    ensures
        exec_node(m, NodeView::If(c, tb, eb), f2) == exec_node(m, NodeView::If(c, tb, eb), f1),
    decreases f1, 1nat, NodeView::If(c, tb, eb), 0nat,
{
    lemma_eval_fuel_mono(m, c, f1, f2);
    match eval(m, c, f1) {
        Run::Done((m1, v)) => match truthy(v) {
            Some(t) => if t {
                lemma_nodes_fuel_mono(m1, tb, f1, f2);
            } else {
                lemma_nodes_fuel_mono(m1, eb, f1, f2);
            },
            None => {},
        },
        _ => {},
    }
}

pub proof fn lemma_nodes_fuel_mono(m: Machine, ns: Seq<NodeView>, f1: nat, f2: nat)
    requires
        f1 <= f2,
        !(exec_nodes(m, ns, f1) is OutOfFuel),
    ensures
        exec_nodes(m, ns, f2) == exec_nodes(m, ns, f1),
    decreases f1, 1nat, ns, 0nat,
{
    if ns.len() > 0 {
        lemma_fuel_mono(m, ns[0], f1, f2);
        match exec_node(m, ns[0], f1) {
            Run::Done((m1, Flow::Next)) => lemma_nodes_fuel_mono(m1, ns.drop_first(), f1, f2),
            _ => {},
        }
    }
}

pub proof fn lemma_while_fuel_mono(m: Machine, c: ExprView, body: Seq<NodeView>, f1: nat, f2: nat)
    requires
        f1 <= f2,
        !(exec_while(m, c, body, f1) is OutOfFuel),
    ensures
        exec_while(m, c, body, f2) == exec_while(m, c, body, f1),
    decreases f1, 1nat, body, 0nat,
{
    if f1 > 0 {
        lemma_eval_fuel_mono(m, c, (f1 - 1) as nat, (f2 - 1) as nat);
        match eval(m, c, (f1 - 1) as nat) {
            Run::Done((m1, v)) => match truthy(v) {
                Some(true) => {
                    lemma_nodes_fuel_mono(m1, body, (f1 - 1) as nat, (f2 - 1) as nat);
                    match exec_nodes(m1, body, (f1 - 1) as nat) {
                        Run::Done((m2, Flow::Next)) => lemma_while_fuel_mono(m2, c, body, (f1 - 1) as nat, (f2 - 1) as nat),
                        _ => {},
                    }
                },
                _ => {},
            },
            _ => {},
        }
    }
}

/// A run that ends has one result: the one it reaches with any amount of fuel that
/// suffices.
pub proof fn lemma_run_any_fuel(m: Machine, n: NodeView, f: nat)
    requires
        !(exec_node(m, n, f) is OutOfFuel),
    ensures
        settles(m, n),
        run(m, n) == exec_node(m, n, f),
{
    let g = choose|g: nat| !(#[trigger] exec_node(m, n, g) is OutOfFuel);
    assert(!(exec_node(m, n, f) is OutOfFuel));
    if g <= f {
        lemma_fuel_mono(m, n, g, f);
    } else {
        lemma_fuel_mono(m, n, f, g);
    }
}

// ---------------------------------------------------------------------------
// Every step keeps the size of memory.
// ---------------------------------------------------------------------------

pub open spec fn keeps_size<T>(m: Machine, r: Run<(Machine, T)>) -> bool {
    r is Done ==> r->Done_0.0.mem.len() == m.mem.len()
}

proof fn lemma_declare_slot_size(m: Machine, ty: ASTData, name: Seq<char>, val: Option<StorableValue>)
    ensures
        declare_slot(m, ty, name, val) is Some ==> declare_slot(m, ty, name, val).unwrap().mem.len() == m.mem.len(),
{
}

proof fn lemma_bind_size(m: Machine, ps: Seq<ParamView>, vs: Seq<StorableValue>)
    ensures
        bind_params(m, ps, vs) is Some ==> bind_params(m, ps, vs).unwrap().mem.len() == m.mem.len(),
    decreases ps.len(),
{
    if ps.len() > 0 && vs.len() > 0 {
        lemma_declare_slot_size(m, ps[0].ty, ps[0].name, Some(vs[0]));
        match declare_slot(m, ps[0].ty, ps[0].name, Some(vs[0])) {
            Some(m1) => lemma_bind_size(m1, ps.drop_first(), vs.drop_first()),
            None => {},
        }
    }
}

pub proof fn lemma_eval_keeps_memory_size(m: Machine, e: ExprView, fuel: nat)
    ensures
        keeps_size(m, eval(m, e, fuel)),
    decreases fuel, 0nat, e, 2nat,
{
    match e {
        ExprView::Unary(_, x) => lemma_eval_keeps_memory_size(m, *x, fuel),
        ExprView::Binary(op, l, r) => lemma_binary_size(m, op, *l, *r, fuel),
        ExprView::Conditional(c, a, b) => {
            lemma_eval_keeps_memory_size(m, *c, fuel);
            match eval(m, *c, fuel) {
                Run::Done((m1, _)) => {
                    lemma_eval_keeps_memory_size(m1, *a, fuel);
                    lemma_eval_keeps_memory_size(m1, *b, fuel);
                },
                _ => {},
            }
        },
        ExprView::Invocation(f, args) => match *f {
            ExprView::Identifier(name) => lemma_call_size(m, name, args, fuel),
            _ => {},
        },
        _ => {},
    }
}

proof fn lemma_binary_size(m: Machine, op: ASTBinaryType, l: ExprView, r: ExprView, fuel: nat)
    ensures
        keeps_size(m, eval(m, ExprView::Binary(op, Box::new(l), Box::new(r)), fuel)),
    decreases fuel, 0nat, ExprView::Binary(op, Box::new(l), Box::new(r)), 1nat,
{
    lemma_eval_keeps_memory_size(m, l, fuel);
    lemma_eval_keeps_memory_size(m, r, fuel);
    match eval(m, l, fuel) {
        Run::Done((m1, _)) => lemma_eval_keeps_memory_size(m1, r, fuel),
        _ => {},
    }
}

proof fn lemma_args_size(m: Machine, args: Seq<ExprView>, fuel: nat)
    ensures
        keeps_size(m, eval_args(m, args, fuel)),
    decreases fuel, 0nat, args, 0nat,
{
    if args.len() > 0 {
        lemma_eval_keeps_memory_size(m, args[0], fuel);
        match eval(m, args[0], fuel) {
            Run::Done((m1, _)) => lemma_args_size(m1, args.drop_first(), fuel),
            _ => {},
        }
    }
}

proof fn lemma_call_size(m: Machine, name: Seq<char>, args: Seq<ExprView>, fuel: nat)
    ensures
        keeps_size(m, call(m, name, args, fuel)),
    decreases fuel, 0nat, args, 1nat,
{
    if fuel > 0 {
        match func_of(m, name) {
            Some((ret, params, body)) => if params.len() == args.len() {
                lemma_args_size(m, args, fuel);
                match eval_args(m, args, fuel) {
                    Run::Done((m1, vs)) => {
                        lemma_bind_size(enter_frame(m1), params, vs);
                        match bind_params(enter_frame(m1), params, vs) {
                            Some(m2) => lemma_nodes_size(m2, body, (fuel - 1) as nat),
                            None => {},
                        }
                    },
                    _ => {},
                }
            },
            None => {},
        }
    }
}

proof fn lemma_node_size(m: Machine, n: NodeView, fuel: nat)
    ensures
        keeps_size(m, exec_node(m, n, fuel)),
    decreases fuel, 1nat, n, 1nat,
{
    match n {
        NodeView::Root(ns) => lemma_root_size(m, ns, fuel),
        NodeView::Var(ty, name, init) => lemma_var_size(m, ty, name, init, fuel),
        NodeView::Expression(e) => lemma_statement_size(m, e, fuel),
        NodeView::While(c, body) => lemma_while_node_size(m, c, body, fuel),
        NodeView::If(c, tb, eb) => lemma_if_size(m, c, tb, eb, fuel),
        NodeView::Return(value) => lemma_return_size(m, value, fuel),
        NodeView::Func(..) => {},
        NodeView::EOF => {},
    }
}

proof fn lemma_root_size(m: Machine, ns: Seq<NodeView>, fuel: nat)
    ensures
        keeps_size(m, exec_node(m, NodeView::Root(ns), fuel)),
    decreases fuel, 1nat, NodeView::Root(ns), 0nat,
{
    lemma_nodes_size(m, ns, fuel);
}

proof fn lemma_var_size(m: Machine, ty: ASTData, name: Seq<char>, init: Option<ExprView>, fuel: nat)
    ensures
        keeps_size(m, exec_node(m, NodeView::Var(ty, name, init), fuel)),
    decreases fuel, 0nat, init, 4nat,
{
    match init {
        Some(e) => {
            lemma_eval_keeps_memory_size(m, e, fuel);
            match eval(m, e, fuel) {
                Run::Done((m1, v)) => lemma_declare_slot_size(m1, ty, name, Some(v)),
                _ => {},
            }
        },
        None => lemma_declare_slot_size(m, ty, name, None),
    }
}

proof fn lemma_statement_size(m: Machine, e: ExprView, fuel: nat)
    ensures
        keeps_size(m, exec_node(m, NodeView::Expression(e), fuel)),
    decreases fuel, 0nat, e, 3nat,
{
    match e {
        ExprView::Invocation(f, args) => match *f {
            ExprView::Identifier(name) => lemma_call_size(m, name, args, fuel),
            _ => {},
        },
        _ => lemma_eval_keeps_memory_size(m, e, fuel),
    }
}

proof fn lemma_while_node_size(m: Machine, c: ExprView, body: Seq<NodeView>, fuel: nat)
    ensures
        keeps_size(m, exec_node(m, NodeView::While(c, body), fuel)),
    decreases fuel, 1nat, NodeView::While(c, body), 0nat,
{
    lemma_while_size(m, c, body, fuel);
}

proof fn lemma_if_size(m: Machine, c: ExprView, tb: Seq<NodeView>, eb: Seq<NodeView>, fuel: nat)
    ensures
        keeps_size(m, exec_node(m, NodeView::If(c, tb, eb), fuel)),
    decreases fuel, 1nat, NodeView::If(c, tb, eb), 0nat,
{
    lemma_eval_keeps_memory_size(m, c, fuel);
    match eval(m, c, fuel) {
        Run::Done((m1, _)) => {
            lemma_nodes_size(m1, tb, fuel);
            lemma_nodes_size(m1, eb, fuel);
        },
        _ => {},
    }
}

proof fn lemma_return_size(m: Machine, value: Option<ExprView>, fuel: nat)
    ensures
        keeps_size(m, exec_node(m, NodeView::Return(value), fuel)),
    decreases fuel, 0nat, value, 4nat,
{
    match value {
        Some(e) => lemma_eval_keeps_memory_size(m, e, fuel),
        None => {},
    }
}

proof fn lemma_nodes_size(m: Machine, ns: Seq<NodeView>, fuel: nat)
    ensures
        keeps_size(m, exec_nodes(m, ns, fuel)),
    decreases fuel, 1nat, ns, 0nat,
{
    if ns.len() > 0 {
        lemma_node_size(m, ns[0], fuel);
        match exec_node(m, ns[0], fuel) {
            Run::Done((m1, Flow::Next)) => lemma_nodes_size(m1, ns.drop_first(), fuel),
            _ => {},
        }
    }
}

proof fn lemma_while_size(m: Machine, c: ExprView, body: Seq<NodeView>, fuel: nat)
    ensures
        keeps_size(m, exec_while(m, c, body, fuel)),
    decreases fuel, 1nat, body, 0nat,
{
    if fuel > 0 {
        lemma_eval_keeps_memory_size(m, c, (fuel - 1) as nat);
        match eval(m, c, (fuel - 1) as nat) {
            Run::Done((m1, v)) => {
                lemma_nodes_size(m1, body, (fuel - 1) as nat);
                match exec_nodes(m1, body, (fuel - 1) as nat) {
                    Run::Done((m2, Flow::Next)) => lemma_while_size(m2, c, body, (fuel - 1) as nat),
                    _ => {},
                }
            },
            _ => {},
        }
    }
}

// ---------------------------------------------------------------------------
// Every step keeps the frames of the callers.
// ---------------------------------------------------------------------------

/// An expression's step leaves the scopes and frames as they were.
pub open spec fn keeps_scope<T>(m: Machine, r: Run<(Machine, T)>) -> bool {
    r is Done ==> {
        let m2 = r->Done_0.0;
        m2.frames == m.frames && m2.globals == m.globals && m2.gptr == m.gptr
    }
}

/// A statement's step keeps the number of frames and changes only the innermost scope:
/// within a call, no outer frame and no global declaration.
pub open spec fn keeps_outer(m: Machine, m2: Machine) -> bool {
    &&& m2.frames.len() == m.frames.len()
    &&& m.frames.len() > 0 ==> m2.frames.drop_last() == m.frames.drop_last() && m2.globals == m.globals
        && m2.gptr == m.gptr
}

pub open spec fn keeps_depth<T>(m: Machine, r: Run<(Machine, T)>) -> bool {
    r is Done ==> keeps_outer(m, r->Done_0.0)
}

proof fn lemma_declare_slot_scope(m: Machine, ty: ASTData, name: Seq<char>, val: Option<StorableValue>)
    ensures
        declare_slot(m, ty, name, val) is Some ==> keeps_outer(m, declare_slot(m, ty, name, val).unwrap()),
{
    if m.frames.len() > 0 {
        let a = cur_ptr(m);
        let m1 = declare(m, name, DeclView::Var(a, ty), (a + type_size(ty.ty)) as u16);
        assert(m1.frames.drop_last() =~= m.frames.drop_last());
    }
}

proof fn lemma_bind_scope(m: Machine, ps: Seq<ParamView>, vs: Seq<StorableValue>)
    ensures
        bind_params(m, ps, vs) is Some ==> keeps_outer(m, bind_params(m, ps, vs).unwrap()),
    decreases ps.len(),
{
    if ps.len() > 0 && vs.len() > 0 {
        lemma_declare_slot_scope(m, ps[0].ty, ps[0].name, Some(vs[0]));
        match declare_slot(m, ps[0].ty, ps[0].name, Some(vs[0])) {
            Some(m1) => lemma_bind_scope(m1, ps.drop_first(), vs.drop_first()),
            None => {},
        }
    }
}

/// Evaluating an expression, calls included, leaves the scopes and frames as they were.
pub proof fn lemma_eval_keeps_scope(m: Machine, e: ExprView, fuel: nat)
    ensures
        keeps_scope(m, eval(m, e, fuel)),
    decreases fuel, 0nat, e, 2nat,
{
    match e {
        ExprView::Unary(_, x) => lemma_eval_keeps_scope(m, *x, fuel),
        ExprView::Binary(op, l, r) => lemma_binary_scope(m, op, *l, *r, fuel),
        ExprView::Conditional(c, a, b) => {
            lemma_eval_keeps_scope(m, *c, fuel);
            match eval(m, *c, fuel) {
                Run::Done((m1, _)) => {
                    lemma_eval_keeps_scope(m1, *a, fuel);
                    lemma_eval_keeps_scope(m1, *b, fuel);
                },
                _ => {},
            }
        },
        ExprView::Invocation(f, args) => match *f {
            ExprView::Identifier(name) => lemma_call_scope(m, name, args, fuel),
            _ => {},
        },
        _ => {},
    }
}

proof fn lemma_binary_scope(m: Machine, op: ASTBinaryType, l: ExprView, r: ExprView, fuel: nat)
    ensures
        keeps_scope(m, eval(m, ExprView::Binary(op, Box::new(l), Box::new(r)), fuel)),
    decreases fuel, 0nat, ExprView::Binary(op, Box::new(l), Box::new(r)), 1nat,
{
    lemma_eval_keeps_scope(m, l, fuel);
    lemma_eval_keeps_scope(m, r, fuel);
    match eval(m, l, fuel) {
        Run::Done((m1, _)) => lemma_eval_keeps_scope(m1, r, fuel),
        _ => {},
    }
}

proof fn lemma_args_scope(m: Machine, args: Seq<ExprView>, fuel: nat)
    ensures
        keeps_scope(m, eval_args(m, args, fuel)),
    decreases fuel, 0nat, args, 0nat,
{
    if args.len() > 0 {
        lemma_eval_keeps_scope(m, args[0], fuel);
        match eval(m, args[0], fuel) {
            Run::Done((m1, _)) => lemma_args_scope(m1, args.drop_first(), fuel),
            _ => {},
        }
    }
}

proof fn lemma_call_scope(m: Machine, name: Seq<char>, args: Seq<ExprView>, fuel: nat)
    ensures
        keeps_scope(m, call(m, name, args, fuel)),
    decreases fuel, 0nat, args, 1nat,
{
    if fuel > 0 {
        match func_of(m, name) {
            Some((ret, params, body)) => if params.len() == args.len() {
                lemma_args_scope(m, args, fuel);
                match eval_args(m, args, fuel) {
                    Run::Done((m1, vs)) => {
                        lemma_bind_scope(enter_frame(m1), params, vs);
                        match bind_params(enter_frame(m1), params, vs) {
                            Some(m2) => {
                                lemma_nodes_scope(m2, body, (fuel - 1) as nat);
                                assert(enter_frame(m1).frames.drop_last() =~= m1.frames);
                            },
                            None => {},
                        }
                    },
                    _ => {},
                }
            },
            None => {},
        }
    }
}

/// A statement keeps the number of frames and, within a call, changes only the innermost.
pub proof fn lemma_node_scope(m: Machine, n: NodeView, fuel: nat)
    ensures
        keeps_depth(m, exec_node(m, n, fuel)),
    decreases fuel, 1nat, n, 1nat,
{
    match n {
        NodeView::Root(ns) => lemma_root_scope(m, ns, fuel),
        NodeView::Var(ty, name, init) => lemma_var_scope(m, ty, name, init, fuel),
        NodeView::Expression(e) => lemma_statement_scope(m, e, fuel),
        NodeView::While(c, body) => lemma_while_node_scope(m, c, body, fuel),
        NodeView::If(c, tb, eb) => lemma_if_scope(m, c, tb, eb, fuel),
        NodeView::Return(value) => lemma_return_scope(m, value, fuel),
        NodeView::Func(ret, name, params, body) => {
            let m1 = declare(m, name, DeclView::Func(ret, params, body), cur_ptr(m));
            if m.frames.len() > 0 {
                assert(m1.frames.drop_last() =~= m.frames.drop_last());
            }
        },
        NodeView::EOF => {},
    }
}

proof fn lemma_root_scope(m: Machine, ns: Seq<NodeView>, fuel: nat)
    ensures
        keeps_depth(m, exec_node(m, NodeView::Root(ns), fuel)),
    decreases fuel, 1nat, NodeView::Root(ns), 0nat,
{
    lemma_nodes_scope(m, ns, fuel);
}

proof fn lemma_var_scope(m: Machine, ty: ASTData, name: Seq<char>, init: Option<ExprView>, fuel: nat)
    ensures
        keeps_depth(m, exec_node(m, NodeView::Var(ty, name, init), fuel)),
    decreases fuel, 0nat, init, 4nat,
{
    match init {
        Some(e) => {
            lemma_eval_keeps_scope(m, e, fuel);
            match eval(m, e, fuel) {
                Run::Done((m1, v)) => lemma_declare_slot_scope(m1, ty, name, Some(v)),
                _ => {},
            }
        },
        None => lemma_declare_slot_scope(m, ty, name, None),
    }
}

proof fn lemma_statement_scope(m: Machine, e: ExprView, fuel: nat)
    ensures
        keeps_depth(m, exec_node(m, NodeView::Expression(e), fuel)),
    decreases fuel, 0nat, e, 3nat,
{
    match e {
        ExprView::Invocation(f, args) => match *f {
            ExprView::Identifier(name) => lemma_call_scope(m, name, args, fuel),
            _ => {},
        },
        _ => lemma_eval_keeps_scope(m, e, fuel),
    }
}

proof fn lemma_while_node_scope(m: Machine, c: ExprView, body: Seq<NodeView>, fuel: nat)
    ensures
        keeps_depth(m, exec_node(m, NodeView::While(c, body), fuel)),
    decreases fuel, 1nat, NodeView::While(c, body), 0nat,
{
    lemma_while_scope(m, c, body, fuel);
}

proof fn lemma_if_scope(m: Machine, c: ExprView, tb: Seq<NodeView>, eb: Seq<NodeView>, fuel: nat)
    ensures
        keeps_depth(m, exec_node(m, NodeView::If(c, tb, eb), fuel)),
    decreases fuel, 1nat, NodeView::If(c, tb, eb), 0nat,
{
    lemma_eval_keeps_scope(m, c, fuel);
    match eval(m, c, fuel) {
        Run::Done((m1, _)) => {
            lemma_nodes_scope(m1, tb, fuel);
            lemma_nodes_scope(m1, eb, fuel);
        },
        _ => {},
    }
}

proof fn lemma_return_scope(m: Machine, value: Option<ExprView>, fuel: nat)
    ensures
        keeps_depth(m, exec_node(m, NodeView::Return(value), fuel)),
    decreases fuel, 0nat, value, 4nat,
{
    match value {
        Some(e) => lemma_eval_keeps_scope(m, e, fuel),
        None => {},
    }
}

proof fn lemma_nodes_scope(m: Machine, ns: Seq<NodeView>, fuel: nat)
    ensures
        keeps_depth(m, exec_nodes(m, ns, fuel)),
    decreases fuel, 1nat, ns, 0nat,
{
    if ns.len() > 0 {
        lemma_node_scope(m, ns[0], fuel);
        match exec_node(m, ns[0], fuel) {
            Run::Done((m1, Flow::Next)) => lemma_nodes_scope(m1, ns.drop_first(), fuel),
            _ => {},
        }
    }
}

proof fn lemma_while_scope(m: Machine, c: ExprView, body: Seq<NodeView>, fuel: nat)
    ensures
        keeps_depth(m, exec_while(m, c, body, fuel)),
    decreases fuel, 1nat, body, 0nat,
{
    if fuel > 0 {
        lemma_eval_keeps_scope(m, c, (fuel - 1) as nat);
        match eval(m, c, (fuel - 1) as nat) {
            Run::Done((m1, v)) => {
                lemma_nodes_scope(m1, body, (fuel - 1) as nat);
                match exec_nodes(m1, body, (fuel - 1) as nat) {
                    Run::Done((m2, Flow::Next)) => lemma_while_scope(m2, c, body, (fuel - 1) as nat),
                    _ => {},
                }
            },
            _ => {},
        }
    }
}

/// A run from a machine without frames ends without frames: every call's frame is left.
pub proof fn lemma_run_leaves_no_frames(m: Machine, n: NodeView)
    requires
        m.frames.len() == 0,
        settles(m, n),
    ensures
        run(m, n) is Done ==> run(m, n)->Done_0.0.frames.len() == 0,
{
    let f = choose|f: nat| !(#[trigger] exec_node(m, n, f) is OutOfFuel);
    lemma_node_scope(m, n, f);
}

// ---------------------------------------------------------------------------
// Declarations and assignments.
// ---------------------------------------------------------------------------

/// The value that `coerce` gives is of the kind a read of type `ty` yields.
proof fn lemma_coerce_matches_type(v: StorableValue, ty: ASTData)
    requires
        coerce(v, ty) is Some,
    ensures
        value_matches_type(coerce(v, ty).unwrap(), ty),
        crate::memory::value_size(coerce(v, ty).unwrap()) == type_size(ty.ty),
{
}

/// A declaration puts the variable at the next free address of the current scope, moves
/// that address past it by the size of its type, leaves every other name and the number
/// of frames as they were, and writes no byte outside the variable's own slot.
pub proof fn lemma_declare_allocates(
    m: Machine,
    ty: ASTData,
    name: Seq<char>,
    val: Option<StorableValue>,
    other: Seq<char>,
    i: int,
)
    requires
        declare_slot(m, ty, name, val) is Some,
    ensures
        ({
            let m2 = declare_slot(m, ty, name, val).unwrap();
            &&& var_of(m2, name) == Some((cur_ptr(m), ty))
            &&& cur_ptr(m2) == cur_ptr(m) + type_size(ty.ty)
            &&& other != name ==> lookup(m2, other) == lookup(m, other)
            &&& m2.frames.len() == m.frames.len()
            &&& m2.mem.len() == m.mem.len()
            &&& (0 <= i < m.mem.len() && (i < cur_ptr(m) || cur_ptr(m) + type_size(ty.ty) <= i)) ==> m2.mem[i]
                == m.mem[i]
        }),
{
    let a = cur_ptr(m);
    let m1 = declare(m, name, DeclView::Var(a, ty), (a + type_size(ty.ty)) as u16);
    if m.frames.len() > 0 {
        assert(m1.frames.last() == m1.frames[m1.frames.len() - 1]);
    }
    match val {
        Some(v) => {
            lemma_coerce_matches_type(v, ty);
            let w = coerce(v, ty).unwrap();
            if 0 <= i < m.mem.len() && (i < a || a + type_size(ty.ty) <= i) {
                crate::memory::lemma_write_frame(m1.mem, a as int, w, type_size(ty.ty) as int, i);
            }
        },
        None => {},
    }
}

/// A variable declared with a value reads back that value converted to its type.
pub proof fn lemma_declared_var_reads_back(m: Machine, ty: ASTData, name: Seq<char>, v: StorableValue, fuel: nat)
    requires
        m.mem.len() == 65536,
        declare_slot(m, ty, name, Some(v)) is Some,
    ensures
        ({
            let m2 = declare_slot(m, ty, name, Some(v)).unwrap();
            eval(m2, ExprView::Identifier(name), fuel) == Run::Done((m2, coerce(v, ty).unwrap()))
        }),
{
    let a = cur_ptr(m);
    let m1 = declare(m, name, DeclView::Var(a, ty), (a + type_size(ty.ty)) as u16);
    if m.frames.len() > 0 {
        assert(m1.frames.last() == m1.frames[m1.frames.len() - 1]);
    }
    lemma_coerce_matches_type(v, ty);
    crate::memory::lemma_read_after_write_same_type(m1.mem, a as int, coerce(v, ty).unwrap(), ty);
}

/// An assignment to a variable yields the assigned value, and the variable then reads
/// back that value converted to its type.
pub proof fn lemma_assignment_reads_back(m: Machine, name: Seq<char>, e: ExprView, fuel: nat)
    requires
        m.mem.len() == 65536,
        eval(m, ExprView::Binary(ASTBinaryType::Assignment, Box::new(ExprView::Identifier(name)), Box::new(e)), fuel) is Done,
    ensures
        ({
            let (m2, w) = eval(
                m,
                ExprView::Binary(ASTBinaryType::Assignment, Box::new(ExprView::Identifier(name)), Box::new(e)),
                fuel,
            )->Done_0;
            let (m1, v) = eval(m, e, fuel)->Done_0;
            &&& w == v
            &&& eval(m2, ExprView::Identifier(name), fuel) == Run::Done((m2, coerce(v, var_of(m1, name).unwrap().1).unwrap()))
        }),
{
    let (m1, v) = eval(m, e, fuel)->Done_0;
    lemma_eval_keeps_memory_size(m, e, fuel);
    let (a, ty) = var_of(m1, name).unwrap();
    lemma_coerce_matches_type(v, ty);
    crate::memory::lemma_read_after_write_same_type(m1.mem, a as int, coerce(v, ty).unwrap(), ty);
}

/// The number held by an integer value (0 for the floating-point variants).
pub open spec fn int_value(v: StorableValue) -> int {
    match v {
        StorableValue::U8(x) => x as int,
        StorableValue::U16(x) => x as int,
        StorableValue::U32(x) => x as int,
        StorableValue::U64(x) => x as int,
        StorableValue::I8(x) => x as int,
        StorableValue::I16(x) => x as int,
        StorableValue::I32(x) => x as int,
        StorableValue::I64(x) => x as int,
        _ => 0,
    }
}

/// How many numbers an unsigned integer type holds; 0 for every other type.
pub open spec fn unsigned_range(v: StorableValue) -> int {
    match v {
        StorableValue::U8(_) => 0x100,
        StorableValue::U16(_) => 0x1_0000,
        StorableValue::U32(_) => 0x1_0000_0000,
        StorableValue::U64(_) => 0x1_0000_0000_0000_0000,
        _ => 0,
    }
}

/// Converting an integer to a higher rank keeps its number, but for a negative number
/// that becomes unsigned, which wraps around by the size of the unsigned type.
pub proof fn lemma_convert_to_rank_value(v: StorableValue, r: u8)
    requires
        convert_to_rank(v, r) is Some,
    ensures
        ({
            let w = convert_to_rank(v, r).unwrap();
            int_value(w) == int_value(v) + if int_value(v) < 0 {
                unsigned_range(w)
            } else {
                0
            }
        }),
{
    match v {
        StorableValue::I8(x) => {
            assert(x < 0 ==> (x as u8) as int == x + 0x100) by (bit_vector);
            assert(x < 0 ==> (x as u16) as int == x + 0x1_0000) by (bit_vector);
            assert(x < 0 ==> (x as u32) as int == x + 0x1_0000_0000) by (bit_vector);
            assert(x < 0 ==> (x as u64) as int == x + 0x1_0000_0000_0000_0000) by (bit_vector);
        },
        StorableValue::I16(x) => {
            assert(x < 0 ==> (x as u16) as int == x + 0x1_0000) by (bit_vector);
            assert(x < 0 ==> (x as u32) as int == x + 0x1_0000_0000) by (bit_vector);
            assert(x < 0 ==> (x as u64) as int == x + 0x1_0000_0000_0000_0000) by (bit_vector);
        },
        StorableValue::I32(x) => {
            assert(x < 0 ==> (x as u32) as int == x + 0x1_0000_0000) by (bit_vector);
            assert(x < 0 ==> (x as u64) as int == x + 0x1_0000_0000_0000_0000) by (bit_vector);
        },
        StorableValue::I64(x) => {
            assert(x < 0 ==> (x as u64) as int == x + 0x1_0000_0000_0000_0000) by (bit_vector);
        },
        _ => {},
    }
}

/// The least number of an integer value's type.
pub open spec fn int_min(v: StorableValue) -> int {
    match v {
        StorableValue::I8(_) => i8::MIN as int,
        StorableValue::I16(_) => i16::MIN as int,
        StorableValue::I32(_) => i32::MIN as int,
        StorableValue::I64(_) => i64::MIN as int,
        _ => 0,
    }
}

/// The greatest number of an integer value's type.
pub open spec fn int_max(v: StorableValue) -> int {
    match v {
        StorableValue::U8(_) => u8::MAX as int,
        StorableValue::U16(_) => u16::MAX as int,
        StorableValue::U32(_) => u32::MAX as int,
        StorableValue::U64(_) => u64::MAX as int,
        StorableValue::I8(_) => i8::MAX as int,
        StorableValue::I16(_) => i16::MAX as int,
        StorableValue::I32(_) => i32::MAX as int,
        StorableValue::I64(_) => i64::MAX as int,
        _ => 0,
    }
}

/// Whether both values are integers of one type.
pub open spec fn same_int_type(l: StorableValue, r: StorableValue) -> bool {
    rank(l) == rank(r) && rank(l) <= 8
}

/// The quotient of `a` by `b`, rounded toward zero.
pub open spec fn trunc_div(a: int, b: int) -> int {
    if a == 0 {
        0
    } else if a > 0 && b > 0 {
        a / b
    } else if a < 0 && b < 0 {
        (-a) / (-b)
    } else if a < 0 {
        -((-a) / b)
    } else {
        -(a / (-b))
    }
}

/// Division rounds toward zero: the remainder `a - q * b` is smaller than the divisor in
/// size and is zero or has the sign of the dividend.
pub proof fn lemma_trunc_div_rounds_toward_zero(a: int, b: int)
    requires
        b != 0,
    ensures
        ({
            let r = a - trunc_div(a, b) * b;
            &&& (if r < 0 { -r } else { r }) < (if b < 0 { -b } else { b })
            &&& r == 0 || (r > 0) == (a > 0)
        }),
{
    let q = trunc_div(a, b);
    if a > 0 && b > 0 {
        vstd::arithmetic::div_mod::lemma_fundamental_div_mod(a, b);
        vstd::arithmetic::div_mod::lemma_mod_pos_bound(a, b);
        assert(a - q * b == a % b) by (nonlinear_arith)
            requires
                q == a / b,
                a == b * (a / b) + a % b,
        ;
    } else if a < 0 && b < 0 {
        vstd::arithmetic::div_mod::lemma_fundamental_div_mod(-a, -b);
        vstd::arithmetic::div_mod::lemma_mod_pos_bound(-a, -b);
        assert(a - q * b == -((-a) % (-b))) by (nonlinear_arith)
            requires
                q == (-a) / (-b),
                -a == (-b) * ((-a) / (-b)) + (-a) % (-b),
        ;
    } else if a < 0 {
        vstd::arithmetic::div_mod::lemma_fundamental_div_mod(-a, b);
        vstd::arithmetic::div_mod::lemma_mod_pos_bound(-a, b);
        assert(a - q * b == -((-a) % b)) by (nonlinear_arith)
            requires
                q == -((-a) / b),
                -a == b * ((-a) / b) + (-a) % b,
        ;
    } else if a > 0 {
        vstd::arithmetic::div_mod::lemma_fundamental_div_mod(a, -b);
        vstd::arithmetic::div_mod::lemma_mod_pos_bound(a, -b);
        assert(a - q * b == a % (-b)) by (nonlinear_arith)
            requires
                q == -(a / (-b)),
                a == (-b) * (a / (-b)) + a % (-b),
        ;
    }
}

/// The exact result of `+`, `-`, `*` or `/` on two numbers.
pub open spec fn exact_result(op: ASTBinaryType, a: int, b: int) -> int {
    match op {
        ASTBinaryType::Add => a + b,
        ASTBinaryType::Sub => a - b,
        ASTBinaryType::Mult => a * b,
        _ => trunc_div(a, b),
    }
}

/// `+`, `-`, `*` and `/` on two signed integers of one type give the exact result in that
/// type; they fail exactly where the divisor is zero or the result leaves the type's range.
pub proof fn lemma_arith_exact(op: ASTBinaryType, l: StorableValue, r: StorableValue)
    requires
        op == ASTBinaryType::Add || op == ASTBinaryType::Sub || op == ASTBinaryType::Mult || op
            == ASTBinaryType::Div,
        same_int_type(l, r),
        unsigned_range(l) == 0,
    ensures
        arith(op, l, r) is Some <==> !(op == ASTBinaryType::Div && int_value(r) == 0) && int_min(l)
            <= exact_result(op, int_value(l), int_value(r)) <= int_max(l),
        arith(op, l, r) is Some ==> rank(arith(op, l, r).unwrap()) == rank(l) && int_value(
            arith(op, l, r).unwrap(),
        ) == exact_result(op, int_value(l), int_value(r)),
{
    let a = int_value(l);
    let b = int_value(r);
    if op == ASTBinaryType::Div && b != 0 && a >= 0 && b > 0 {
        assert(0 <= a / b <= a) by (nonlinear_arith)
            requires
                a >= 0,
                b > 0,
        ;
    }
}

/// `+`, `-` and `*` on two unsigned integers of one type give the exact result modulo the
/// size of the type; `/` gives the exact quotient and fails exactly on a zero divisor.
pub proof fn lemma_unsigned_arith_wraps(op: ASTBinaryType, l: StorableValue, r: StorableValue)
    requires
        op == ASTBinaryType::Add || op == ASTBinaryType::Sub || op == ASTBinaryType::Mult || op
            == ASTBinaryType::Div,
        same_int_type(l, r),
        unsigned_range(l) > 0,
    ensures
        arith(op, l, r) is Some <==> !(op == ASTBinaryType::Div && int_value(r) == 0),
        arith(op, l, r) is Some ==> rank(arith(op, l, r).unwrap()) == rank(l) && int_value(
            arith(op, l, r).unwrap(),
        ) == exact_result(op, int_value(l), int_value(r)) % unsigned_range(l),
{
    let a = int_value(l);
    let b = int_value(r);
    let n = unsigned_range(l);
    if op == ASTBinaryType::Div && b != 0 {
        assert(0 <= a / b <= a) by (nonlinear_arith)
            requires
                a >= 0,
                b > 0,
        ;
    }
    if op == ASTBinaryType::Add || op == ASTBinaryType::Sub {
        lemma_mod_once(exact_result(op, a, b), n);
    }
    if op == ASTBinaryType::Mult {
        assert(0 <= (a * b) % n < n) by (nonlinear_arith)
            requires
                n > 0,
        ;
    }
}

/// A number less than one modulus away from `[0, n)` is brought back by one step.
proof fn lemma_mod_once(x: int, n: int)
    requires
        n > 0,
        -n <= x < 2 * n,
    ensures
        x % n == if x < 0 {
            x + n
        } else if x >= n {
            x - n
        } else {
            x
        },
{
    assert(x % n == if x < 0 {
        x + n
    } else if x >= n {
        x - n
    } else {
        x
    }) by (nonlinear_arith)
        requires
            n > 0,
            -n <= x < 2 * n,
    ;
}

/// Promotion keeps an integer's number and gives it at least the rank of `int`.
pub proof fn lemma_promote(v: StorableValue)
    requires
        rank(v) <= 8,
    ensures
        int_value(promote(v)) == int_value(v),
        5 <= rank(promote(v)) <= 8,
{
}

/// How many numbers an integer type holds.
pub open spec fn type_modulus(ty: ASTDataType) -> int {
    match ty {
        ASTDataType::Char => 0x100,
        ASTDataType::Short => 0x1_0000,
        ASTDataType::Int => 0x1_0000_0000,
        _ => 0x1_0000_0000_0000_0000,
    }
}

/// The number of type `ty` that C's conversion gives for `x`: `x` modulo the size of
/// the type, taken in the type's range.
pub open spec fn wrap_to(x: int, ty: ASTData) -> int {
    let n = type_modulus(ty.ty);
    let r = x % n;
    if ty.signed && r >= n / 2 {
        r - n
    } else {
        r
    }
}

proof fn lemma_bits_number(v: StorableValue)
    requires
        rank(v) <= 8,
    ensures
        value_bits(v) as int == int_value(v) % 0x1_0000_0000_0000_0000,
{
    match v {
        StorableValue::I8(x) => {
            assert(x < 0 ==> ((x as i64) as u64) as int == x + 0x1_0000_0000_0000_0000) by (bit_vector);
            assert(x >= 0 ==> ((x as i64) as u64) as int == x) by (bit_vector);
        },
        StorableValue::I16(x) => {
            assert(x < 0 ==> ((x as i64) as u64) as int == x + 0x1_0000_0000_0000_0000) by (bit_vector);
            assert(x >= 0 ==> ((x as i64) as u64) as int == x) by (bit_vector);
        },
        StorableValue::I32(x) => {
            assert(x < 0 ==> ((x as i64) as u64) as int == x + 0x1_0000_0000_0000_0000) by (bit_vector);
            assert(x >= 0 ==> ((x as i64) as u64) as int == x) by (bit_vector);
        },
        StorableValue::I64(x) => {
            assert(x < 0 ==> (x as u64) as int == x + 0x1_0000_0000_0000_0000) by (bit_vector);
        },
        _ => {},
    }
}

proof fn lemma_decode_number(ty: ASTData, b: u64)
    requires
        is_int_type(ty.ty),
    ensures
        int_value(decode(ty, b)) == wrap_to(b as int, ty),
{
    assert((b as u8) as int == b % 0x100) by (bit_vector);
    assert((b as u16) as int == b % 0x1_0000) by (bit_vector);
    assert((b as u32) as int == b % 0x1_0000_0000) by (bit_vector);
    assert(((b as u8) as i8) as int == if (b as u8) >= 0x80 { (b as u8) - 0x100 } else { (b as u8) as int })
        by (bit_vector);
    assert(((b as u16) as i16) as int == if (b as u16) >= 0x8000 { (b as u16) - 0x1_0000 } else { (b as u16) as int })
        by (bit_vector);
    assert(((b as u32) as i32) as int == if (b as u32) >= 0x8000_0000 { (b as u32) - 0x1_0000_0000 } else {
        (b as u32) as int
    }) by (bit_vector);
    assert((b as i64) as int == if b >= 0x8000_0000_0000_0000 { b - 0x1_0000_0000_0000_0000 } else { b as int })
        by (bit_vector);
}

/// Storing an integer into an integer variable converts it as C does: the stored number
/// is the value modulo the size of the variable's type, taken in the type's range; so a
/// number that fits the type is kept.
pub proof fn lemma_coerce_wraps(v: StorableValue, ty: ASTData)
    requires
        rank(v) <= 8,
        is_int_type(ty.ty),
    ensures
        coerce(v, ty) is Some,
        int_value(coerce(v, ty).unwrap()) == wrap_to(int_value(v), ty),
        (if ty.signed { -(type_modulus(ty.ty) / 2) } else { 0 }) <= int_value(v) < (if ty.signed {
            type_modulus(ty.ty) / 2
        } else {
            type_modulus(ty.ty)
        }) ==> int_value(coerce(v, ty).unwrap()) == int_value(v),
{
    let x = int_value(v);
    let n = type_modulus(ty.ty);
    lemma_bits_number(v);
    lemma_decode_number(ty, value_bits(v));
    let big: int = 0x1_0000_0000_0000_0000;
    assert(big == n * (big / n));
    vstd::arithmetic::div_mod::lemma_mod_mod(x, n, big / n);
    assert((x % big) % n == x % n);
    if (if ty.signed { -(n / 2) } else { 0 }) <= x < (if ty.signed { n / 2 } else { n }) {
        if x >= 0 {
            vstd::arithmetic::div_mod::lemma_small_mod(x as nat, n as nat);
        } else {
            vstd::arithmetic::div_mod::lemma_mod_add_multiples_vanish(x, n);
            vstd::arithmetic::div_mod::lemma_small_mod((x + n) as nat, n as nat);
        }
    }
}

/// A condition holds exactly when its integer is nonzero, negative numbers included;
/// a floating-point condition has no truth value here.
pub proof fn lemma_truthy_nonzero(v: StorableValue)
    ensures
        rank(v) <= 8 ==> truthy(v) == Some(int_value(v) != 0),
        rank(v) > 8 ==> truthy(v) is None,
        forall|x: i8| #[trigger] truthy(StorableValue::I8(x)) == Some(x != 0),
        forall|x: u8| #[trigger] truthy(StorableValue::U8(x)) == Some(x != 0),
        forall|x: i16| #[trigger] truthy(StorableValue::I16(x)) == Some(x != 0),
        forall|x: u16| #[trigger] truthy(StorableValue::U16(x)) == Some(x != 0),
        forall|x: i32| #[trigger] truthy(StorableValue::I32(x)) == Some(x != 0),
        forall|x: u32| #[trigger] truthy(StorableValue::U32(x)) == Some(x != 0),
        forall|x: i64| #[trigger] truthy(StorableValue::I64(x)) == Some(x != 0),
        forall|x: u64| #[trigger] truthy(StorableValue::U64(x)) == Some(x != 0),
{
}

/// A loop test whose integer is zero ends the loop with the state after the test; one
/// whose integer is nonzero, negative included, runs the body and then tests again.
pub proof fn lemma_while_test(m: Machine, c: ExprView, body: Seq<NodeView>, fuel: nat, m1: Machine, v: StorableValue)
    requires
        fuel > 0,
        eval(m, c, (fuel - 1) as nat) == Run::Done((m1, v)),
        rank(v) <= 8,
    ensures
        int_value(v) == 0 ==> exec_while(m, c, body, fuel) == Run::Done((m1, Flow::Next)),
        int_value(v) != 0 ==> exec_while(m, c, body, fuel) == match exec_nodes(m1, body, (fuel - 1) as nat) {
            Run::Done((m2, Flow::Next)) => exec_while(m2, c, body, (fuel - 1) as nat),
            r => r,
        },
{
}

/// A conditional expression takes its second operand where the condition's integer is
/// nonzero, negative included, and its third where it is zero.
pub proof fn lemma_conditional_chooses(m: Machine, c: ExprView, a: ExprView, b: ExprView, fuel: nat, m1: Machine, v: StorableValue)
    requires
        eval(m, c, fuel) == Run::Done((m1, v)),
        rank(v) <= 8,
    ensures
        eval(m, ExprView::Conditional(Box::new(c), Box::new(a), Box::new(b)), fuel) == if int_value(v) != 0 {
            eval(m1, a, fuel)
        } else {
            eval(m1, b, fuel)
        },
{
}

/// Integers narrower than `int`, signed or unsigned, are promoted to a signed `int` with
/// the same number; wider values are left as they are.
pub proof fn lemma_promotion_to_int(v: StorableValue)
    ensures
        forall|x: i8| #[trigger] promote(StorableValue::I8(x)) == StorableValue::I32(x as i32),
        forall|x: u8| #[trigger] promote(StorableValue::U8(x)) == StorableValue::I32(x as i32),
        forall|x: i16| #[trigger] promote(StorableValue::I16(x)) == StorableValue::I32(x as i32),
        forall|x: u16| #[trigger] promote(StorableValue::U16(x)) == StorableValue::I32(x as i32),
        rank(v) >= 5 ==> promote(v) == v,
        rank(v) <= 8 ==> int_value(promote(v)) == int_value(v),
{
}

/// An operation between an `unsigned short` (or any narrower integer) and an `int` is
/// carried out in `int` on the operands' own numbers.
pub proof fn lemma_narrow_with_int_is_int(l: StorableValue, r: StorableValue)
    requires
        rank(l) <= 4,
        r is I32,
    ensures
        convert(promote(l), promote(r)) == Some((StorableValue::I32(int_value(l) as i32), r)),
        convert(promote(r), promote(l)) == Some((r, StorableValue::I32(int_value(l) as i32))),
{
}

/// A decimal numeral is an `int` up to `i32::MAX`, a signed `long` above that up to
/// `i64::MAX`, each holding the numeral's number; one that fits only an unsigned `long`
/// reads as the `char` 0, and a longer one is refused.
pub proof fn lemma_numeral_types(s: Seq<char>)
    requires
        all_digits(s),
    ensures
        digits_value(s) <= i32::MAX ==> numeral_value(s) == Some(StorableValue::I32(digits_value(s) as i32)),
        i32::MAX < digits_value(s) <= i64::MAX ==> numeral_value(s) == Some(StorableValue::I64(digits_value(s) as i64)),
        i64::MAX < digits_value(s) <= u64::MAX ==> numeral_value(s) == Some(StorableValue::I8(0)),
        digits_value(s) > u64::MAX ==> numeral_value(s) is None,
{
}

/// The usual arithmetic conversions keep each operand in its place with its number (a
/// negative number that becomes unsigned wraps around by the size of the unsigned type),
/// and give both the higher of the two ranks.
pub proof fn lemma_convert_keeps_operands(l: StorableValue, r: StorableValue)
    requires
        rank(l) <= 8,
        rank(r) <= 8,
    ensures
        convert(l, r) is Some,
        ({
            let (cl, cr) = convert(l, r).unwrap();
            &&& int_value(cl) == int_value(l) + if int_value(l) < 0 { unsigned_range(cl) } else { 0 }
            &&& int_value(cr) == int_value(r) + if int_value(r) < 0 { unsigned_range(cr) } else { 0 }
            &&& rank(cl) == rank(cr)
            &&& rank(cl) == if rank(l) < rank(r) { rank(r) } else { rank(l) }
        }),
{
    if rank(l) < rank(r) {
        lemma_convert_to_rank_value(l, rank(r));
    } else if rank(l) > rank(r) {
        lemma_convert_to_rank_value(r, rank(l));
    }
}

/// A comparison of two integers of one type gives the `int` 1 where it holds of their
/// numbers and 0 where it does not.
pub proof fn lemma_comparison_values(l: StorableValue, r: StorableValue)
    requires
        same_int_type(l, r),
    ensures
        binary_value(ASTBinaryType::LessThan, l, r) == Some(StorableValue::I32(if int_value(l) < int_value(r) { 1 } else { 0 })),
        binary_value(ASTBinaryType::BiggerThan, l, r) == Some(StorableValue::I32(if int_value(l) > int_value(r) { 1 } else { 0 })),
        binary_value(ASTBinaryType::LessEqual, l, r) == Some(StorableValue::I32(if int_value(l) <= int_value(r) { 1 } else { 0 })),
{
}

/// Unary operators on integers: `!` gives 1 for zero and 0 otherwise; `-` negates an `int`
/// and fails only on its least value; `+` promotes.
pub proof fn lemma_unary_values(v: StorableValue)
    requires
        rank(v) <= 8,
    ensures
        unary_value(ASTUnaryType::Negation, v) == Some(StorableValue::I32(if int_value(v) == 0 { 1 } else { 0 })),
        unary_value(ASTUnaryType::Plus, v) == Some(promote(v)),
        forall|x: i32| #[trigger] unary_value(ASTUnaryType::Minus, StorableValue::I32(x)) == if x == i32::MIN {
            None
        } else {
            Some(StorableValue::I32(-x as i32))
        },
{
}

/// Converted operands have one rank, the higher of the two.
pub proof fn lemma_convert_rank(l: StorableValue, r: StorableValue)
    requires
        convert(l, r) is Some,
    ensures
        rank(convert(l, r).unwrap().0) == rank(convert(l, r).unwrap().1),
        rank(convert(l, r).unwrap().0) == if rank(l) < rank(r) {
            rank(r)
        } else {
            rank(l)
        },
{
}

/// An integer conversion to a higher rank fails only for floating-point ranks.
pub proof fn lemma_convert_integers(l: StorableValue, r: StorableValue)
    requires
        rank(l) <= 8,
        rank(r) <= 8,
    ensures
        convert(l, r) is Some,
{
}

} // verus!
