use vstd::prelude::*;
use vstd::string::*;
use crate::ast::{
    ASTNode, ASTNodeType, ASTRoot, ASTExpression, ASTIdentifier, ASTNumeral, ASTBinary, ASTBinaryType,
    ASTUnaryType, ASTData, ASTDataType, ASTVar, ASTFunc, ASTWhile, ASTIf, ASTReturn, ASTFuncParam, ExprView,
    NodeView, ParamView, nodes_view, exprs_view, params_view, clone_params, clone_nodes, lemma_nodes_view_index,
    lemma_nodes_view_len, lemma_exprs_view_index, lemma_exprs_view_len,
};
use crate::parser::Parser;
use crate::grammar::parse_source;
use crate::memory::{Memory, value_bits, decode};
pub use crate::memory::StorableValue;
pub use crate::environment::{Environment, EnvVar, EnvFunc, EnvDecl, StackFrame, CallStack};
use crate::environment::FrameView;
pub use crate::semantics::{Run, Flow};
use crate::semantics::{
    Machine, initial_machine, cur_ptr, declare, lookup, var_of, func_of, read_var, is_digit, digit_value,
    all_digits, digits_value, numeral_value, rank, convert_to_rank, convert, promote, binary_value,
    unary_value, is_int_type, coerce, store, declare_slot, bind_params, enter_frame, leave_frame,
    return_value, truthy, eval, eval_args, call, exec_node, exec_nodes, exec_while, run, int_value,
    compare_numbers, lemma_run_any_fuel,
};

verus! {

/// The memory after a run.
pub struct Exec {
    pub memory: [u8; 65536],
}

pub struct Interpreter {
    root: ASTNode,
    memory: Memory,
    env: Environment,
}

/// The executable result `r` is the mathematical result `s`, the machine being `m` after
/// the step.
pub open spec fn agrees<T>(s: Run<(Machine, T)>, r: Run<T>, m: Machine) -> bool {
    match r {
        Run::Done(x) => s == Run::Done((m, x)),
        Run::Fail => s is Fail,
        Run::OutOfFuel => s is OutOfFuel,
    }
}

/// Values evaluated so far put in front of the values of the remaining arguments.
pub open spec fn prepend(vs: Seq<StorableValue>, r: Run<(Machine, Seq<StorableValue>)>) -> Run<(Machine, Seq<StorableValue>)> {
    match r {
        Run::Done((m, ws)) => Run::Done((m, vs + ws)),
        other => other,
    }
}

pub open spec fn opt_expr_view(o: Option<ASTExpression>) -> Option<ExprView> {
    match o {
        Some(e) => Some(e@),
        None => None,
    }
}

proof fn lemma_digits_prefix(s: Seq<char>, k: int)
    requires
        all_digits(s),
        0 <= k <= s.len(),
    ensures
        0 <= digits_value(s.take(k)) <= digits_value(s),
    decreases s.len(),
{
    if s.len() > 0 {
        let d = s.drop_last();
        assert(all_digits(d)) by {
            assert forall|i: int| 0 <= i < d.len() implies is_digit(#[trigger] d[i]) by {
                assert(d[i] == s[i]);
            }
        }
        assert(is_digit(s[s.len() - 1]));
        if k == s.len() {
            assert(s.take(k) =~= s);
            lemma_digits_prefix(d, d.len() as int);
            assert(d.take(d.len() as int) =~= d);
        } else {
            lemma_digits_prefix(d, k);
            lemma_digits_prefix(d, d.len() as int);
            assert(d.take(k) =~= s.take(k));
            assert(d.take(d.len() as int) =~= d);
        }
    }
}

impl Interpreter {
    /// The state of memory, declarations and frames.
    pub closed spec fn machine(&self) -> Machine {
        Machine {
            mem: self.memory.bytes(),
            globals: self.env.decls(),
            gptr: self.env.next_address(),
            frames: self.memory.frames(),
        }
    }

    /// The program that `execute` runs.
    pub closed spec fn program(&self) -> NodeView {
        self.root@
    }

    /// An interpreter for the program in `s`; `None` where `s` does not tokenize or its
    /// parse does not complete.
    pub fn try_new(s: &str) -> (i: Option<Self>)
        requires
            s@.len() < usize::MAX / 4,
        ensures
            i is None <==> parse_source(s@) is None,
            i is Some ==> i.unwrap().program() == parse_source(s@).unwrap() && i.unwrap().machine()
                == initial_machine(),
    {
        let mut parser = Parser::try_new(s)?;
        let root = parser.try_parse()?;

        let i = Self { root, memory: Memory::new(), env: Environment::new() };
        assert(i.machine().mem =~= initial_machine().mem);
        Some(i)
    }

    /// An interpreter for the program in `s`: the same program and the same start as
    /// `new_with_node` on what `Parser::new(s).parse()` gives (`lemma_parse_source_is_parse`),
    /// so that the two run alike.
    pub fn new(s: &str) -> (i: Self)
        requires
            s@.len() < usize::MAX / 4,
            parse_source(s@) is Some,
        ensures
            i.program() == parse_source(s@).unwrap(),
            i.machine() == initial_machine(),
    {
        Self::try_new(s).unwrap()
    }

    /// An interpreter for a program given as a syntax tree.
    pub fn new_with_node(root: ASTNode) -> (i: Self)
        ensures
            i.program() == root@,
            i.machine() == initial_machine(),
    {
        let i = Self { root, memory: Memory::new(), env: Environment::new() };
        assert(i.machine().mem =~= initial_machine().mem);
        i
    }

    /// The next free address of the current scope.
    fn cur_ptr(&self) -> (p: u16)
        ensures
            p == cur_ptr(self.machine()),
    {
        match self.memory.top_frame() {
            Some(f) => f.env.ptr(),
            None => self.env.ptr(),
        }
    }

    /// What `name` stands for in the current scope.
    fn lookup(&self, name: &str) -> (d: Option<&EnvDecl>)
        ensures
            match d {
                Some(d) => lookup(self.machine(), name@) == Some(d@),
                None => lookup(self.machine(), name@) is None,
            },
    {
        match self.memory.top_frame() {
            Some(f) => match f.env.lookup(name) {
                Some(d) => {
                    return Some(d);
                },
                None => {},
            },
            None => {},
        }
        self.env.lookup(name)
    }

    fn lookup_var(&self, name: &str) -> (v: Option<(u16, ASTData)>)
        ensures
            v == var_of(self.machine(), name@),
    {
        match self.lookup(name) {
            Some(EnvDecl::Var(var)) => Some((var.address, var.ty)),
            _ => None,
        }
    }

    fn lookup_func(&self, name: &str) -> (f: Option<(ASTData, Vec<ASTFuncParam>, Vec<ASTNode>)>)
        ensures
            match f {
                Some((r, ps, b)) => func_of(self.machine(), name@) == Some((r, params_view(ps@), nodes_view(b@))),
                None => func_of(self.machine(), name@) is None,
            },
    {
        match self.lookup(name) {
            Some(EnvDecl::Func(func)) => Some((func.ret_ty, clone_params(&func.params), clone_nodes(&func.body))),
            _ => None,
        }
    }

    /// Declares `name` in the current scope as `decl`, moving the next free address by `size`.
    fn declare_here(&mut self, name: String, decl: EnvDecl, size: u16)
        requires
            cur_ptr(old(self).machine()) + size <= u16::MAX,
            decl is Func ==> size == 0,
        ensures
            final(self).root == old(self).root,
            final(self).machine() == declare(
                old(self).machine(),
                name@,
                decl@,
                (cur_ptr(old(self).machine()) + size) as u16,
            ),
    {
        let ghost m = self.machine();
        let ghost d = decl@;
        let ghost n = name@;
        match self.memory.pop_frame() {
            Some(mut f) => {
                match decl {
                    EnvDecl::Var(v) => f.env.add_var(name, v, size),
                    EnvDecl::Func(func) => f.env.add_func(name, func),
                }
                self.memory.push_frame(f);
                assert(self.machine().frames =~= m.frames.update(
                    m.frames.len() - 1,
                    FrameView { decls: m.frames.last().decls.insert(n, d), ptr: (cur_ptr(m) + size) as u16, ..m.frames.last() },
                ));
            },
            None => {
                match decl {
                    EnvDecl::Var(v) => self.env.add_var(name, v, size),
                    EnvDecl::Func(func) => self.env.add_func(name, func),
                }
            },
        }
    }

    fn exec_identifier(&self, identifier: &ASTIdentifier) -> (v: Option<StorableValue>)
        ensures
            v == match var_of(self.machine(), identifier.literal@) {
                None => None,
                Some((a, ty)) => read_var(self.machine(), a, ty),
            },
    {
        let (address, ty) = self.lookup_var(identifier.literal.as_str())?;
        if ty.ty == ASTDataType::Void {
            return None;
        }
        let size = self.memory.get_size(&ty);
        if address as usize + size as usize > 65536 {
            return None;
        }
        proof {
            self.memory.lemma_len();
        }
        Some(self.memory.read(address, &ty))
    }

    fn get_digit(&self, c: char) -> (d: Option<u64>)
        ensures
            match d {
                Some(d) => is_digit(c) && d == digit_value(c),
                None => !is_digit(c),
            },
    {
        if '0' <= c && c <= '9' {
            Some(((c as u32) - 48) as u64)
        } else {
            None
        }
    }

    fn exec_numeral(&self, numeral: &ASTNumeral) -> (v: Option<StorableValue>)
        ensures
            v == numeral_value(numeral.literal@),
    {
        let literal = numeral.literal.as_str();
        let ghost s = literal@;
        let len = literal.unicode_len();
        let mut acc: u64 = 0;
        let mut i: usize = 0;
        assert(s.take(0) =~= Seq::<char>::empty());

        while i < len
            invariant
                len == s.len(),
                literal@ == s,
                s == numeral.literal@,
                i <= len,
                all_digits(s.take(i as int)),
                acc == digits_value(s.take(i as int)),
            decreases len - i,
        {
            let c = literal.get_char(i);
            let ghost next = s.take(i + 1);
            assert(next.drop_last() =~= s.take(i as int));
            let d = match self.get_digit(c) {
                Some(d) => d,
                None => {
                    assert(!all_digits(s)) by {
                        assert(!is_digit(s[i as int]));
                    }
                    return None;
                },
            };
            assert(all_digits(next)) by {
                assert forall|k: int| 0 <= k < next.len() implies is_digit(#[trigger] next[k]) by {
                    if k < i {
                        assert(next[k] == s.take(i as int)[k]);
                    }
                }
            }
            if acc > u64::MAX / 10 {
                proof {
                    if all_digits(s) {
                        lemma_digits_prefix(s, i + 1);
                    }
                }
                return None;
            }
            acc *= 10;

            if acc > u64::MAX - d {
                proof {
                    if all_digits(s) {
                        lemma_digits_prefix(s, i + 1);
                    }
                }
                return None;
            }
            acc += d;
            i += 1;
        }
        assert(s.take(len as int) =~= s);

        if acc <= i32::MAX as u64 {
            Some(StorableValue::I32(acc as i32))
        } else if acc <= i64::MAX as u64 {
            Some(StorableValue::I64(acc as i64))
        } else {
            Some(StorableValue::I8(0))
        }
    }

    fn rank(&self, value: &StorableValue) -> (r: u8)
        ensures
            r == rank(*value),
    {
        match value {
            StorableValue::I8(_) => 1,
            StorableValue::U8(_) => 2,
            StorableValue::I16(_) => 3,
            StorableValue::U16(_) => 4,
            StorableValue::I32(_) => 5,
            StorableValue::U32(_) => 6,
            StorableValue::I64(_) => 7,
            StorableValue::U64(_) => 8,
            StorableValue::F32(_) => 9,
            StorableValue::F64(_) => 10,
        }
    }

    fn convert_to_rank(&self, value: StorableValue, rank: u8) -> (v: Option<StorableValue>)
        ensures
            v == convert_to_rank(value, rank),
    {
        match (value, rank) {
            (StorableValue::I8(v), 2) => Some(StorableValue::U8(v as u8)),
            (StorableValue::I8(v), 3) => Some(StorableValue::I16(v as i16)),
            (StorableValue::I8(v), 4) => Some(StorableValue::U16(v as u16)),
            (StorableValue::I8(v), 5) => Some(StorableValue::I32(v as i32)),
            (StorableValue::I8(v), 6) => Some(StorableValue::U32(v as u32)),
            (StorableValue::I8(v), 7) => Some(StorableValue::I64(v as i64)),
            (StorableValue::I8(v), 8) => Some(StorableValue::U64(v as u64)),
            (StorableValue::U8(v), 3) => Some(StorableValue::I16(v as i16)),
            (StorableValue::U8(v), 4) => Some(StorableValue::U16(v as u16)),
            (StorableValue::U8(v), 5) => Some(StorableValue::I32(v as i32)),
            (StorableValue::U8(v), 6) => Some(StorableValue::U32(v as u32)),
            (StorableValue::U8(v), 7) => Some(StorableValue::I64(v as i64)),
            (StorableValue::U8(v), 8) => Some(StorableValue::U64(v as u64)),
            (StorableValue::I16(v), 4) => Some(StorableValue::U16(v as u16)),
            (StorableValue::I16(v), 5) => Some(StorableValue::I32(v as i32)),
            (StorableValue::I16(v), 6) => Some(StorableValue::U32(v as u32)),
            (StorableValue::I16(v), 7) => Some(StorableValue::I64(v as i64)),
            (StorableValue::I16(v), 8) => Some(StorableValue::U64(v as u64)),
            (StorableValue::U16(v), 5) => Some(StorableValue::I32(v as i32)),
            (StorableValue::U16(v), 6) => Some(StorableValue::U32(v as u32)),
            (StorableValue::U16(v), 7) => Some(StorableValue::I64(v as i64)),
            (StorableValue::U16(v), 8) => Some(StorableValue::U64(v as u64)),
            (StorableValue::I32(v), 6) => Some(StorableValue::U32(v as u32)),
            (StorableValue::I32(v), 7) => Some(StorableValue::I64(v as i64)),
            (StorableValue::I32(v), 8) => Some(StorableValue::U64(v as u64)),
            (StorableValue::U32(v), 7) => Some(StorableValue::I64(v as i64)),
            (StorableValue::U32(v), 8) => Some(StorableValue::U64(v as u64)),
            (StorableValue::I64(v), 8) => Some(StorableValue::U64(v as u64)),
            _ => None,
        }
    }

    fn convert(&self, left: StorableValue, right: StorableValue) -> (c: Option<(StorableValue, StorableValue)>)
        ensures
            c == convert(left, right),
    {
        let (lrank, rrank) = (self.rank(&left), self.rank(&right));

        if lrank == rrank {
            Some((left, right))
        } else if lrank < rrank {
            let l = self.convert_to_rank(left, rrank)?;
            Some((l, right))
        } else {
            let r = self.convert_to_rank(right, lrank)?;
            Some((left, r))
        }
    }


    fn promote(&self, v: StorableValue) -> (p: StorableValue)
        ensures
            p == promote(v),
    {
        match v {
            StorableValue::I8(x) => StorableValue::I32(x as i32),
            StorableValue::U8(x) => StorableValue::I32(x as i32),
            StorableValue::I16(x) => StorableValue::I32(x as i32),
            StorableValue::U16(x) => StorableValue::I32(x as i32),
            _ => v,
        }
    }

    /// The number an integer value holds; `None` for a floating-point value.
    fn int_of(v: &StorableValue) -> (n: Option<i128>)
        ensures
            match n {
                Some(n) => rank(*v) <= 8 && n == int_value(*v),
                None => rank(*v) > 8,
            },
    {
        match v {
            StorableValue::U8(x) => Some(*x as i128),
            StorableValue::U16(x) => Some(*x as i128),
            StorableValue::U32(x) => Some(*x as i128),
            StorableValue::U64(x) => Some(*x as i128),
            StorableValue::I8(x) => Some(*x as i128),
            StorableValue::I16(x) => Some(*x as i128),
            StorableValue::I32(x) => Some(*x as i128),
            StorableValue::I64(x) => Some(*x as i128),
            _ => None,
        }
    }

    fn compare_numbers(op: ASTBinaryType, a: i128, b: i128) -> (c: bool)
        ensures
            c == compare_numbers(op, a as int, b as int),
    {
        match op {
            ASTBinaryType::LessThan => a < b,
            ASTBinaryType::BiggerThan => a > b,
            _ => a <= b,
        }
    }

    fn apply_binary_op(&self, op: ASTBinaryType, left: StorableValue, right: StorableValue) -> (v: Option<StorableValue>)
        ensures
            v == binary_value(op, left, right),
    {
        match op {
            ASTBinaryType::Add | ASTBinaryType::Sub | ASTBinaryType::Mult | ASTBinaryType::Div => {
                match (left, right) {
                    (StorableValue::U8(a), StorableValue::U8(b)) => match op {
                        ASTBinaryType::Add => Some(StorableValue::U8(a.wrapping_add(b))),
                        ASTBinaryType::Sub => Some(StorableValue::U8(a.wrapping_sub(b))),
                        ASTBinaryType::Mult => Some(StorableValue::U8(a.wrapping_mul(b))),
                        _ => match a.checked_div(b) {
                            Some(x) => Some(StorableValue::U8(x)),
                            None => None,
                        },
                    },
                    (StorableValue::U16(a), StorableValue::U16(b)) => match op {
                        ASTBinaryType::Add => Some(StorableValue::U16(a.wrapping_add(b))),
                        ASTBinaryType::Sub => Some(StorableValue::U16(a.wrapping_sub(b))),
                        ASTBinaryType::Mult => Some(StorableValue::U16(a.wrapping_mul(b))),
                        _ => match a.checked_div(b) {
                            Some(x) => Some(StorableValue::U16(x)),
                            None => None,
                        },
                    },
                    (StorableValue::U32(a), StorableValue::U32(b)) => match op {
                        ASTBinaryType::Add => Some(StorableValue::U32(a.wrapping_add(b))),
                        ASTBinaryType::Sub => Some(StorableValue::U32(a.wrapping_sub(b))),
                        ASTBinaryType::Mult => Some(StorableValue::U32(a.wrapping_mul(b))),
                        _ => match a.checked_div(b) {
                            Some(x) => Some(StorableValue::U32(x)),
                            None => None,
                        },
                    },
                    (StorableValue::U64(a), StorableValue::U64(b)) => match op {
                        ASTBinaryType::Add => Some(StorableValue::U64(a.wrapping_add(b))),
                        ASTBinaryType::Sub => Some(StorableValue::U64(a.wrapping_sub(b))),
                        ASTBinaryType::Mult => Some(StorableValue::U64(a.wrapping_mul(b))),
                        _ => match a.checked_div(b) {
                            Some(x) => Some(StorableValue::U64(x)),
                            None => None,
                        },
                    },
                    (StorableValue::I8(a), StorableValue::I8(b)) => {
                        let r = match op {
                            ASTBinaryType::Add => a.checked_add(b),
                            ASTBinaryType::Sub => a.checked_sub(b),
                            ASTBinaryType::Mult => a.checked_mul(b),
                            _ => a.checked_div(b),
                        };
                        match r {
                            Some(x) => Some(StorableValue::I8(x)),
                            None => None,
                        }
                    },
                    (StorableValue::I16(a), StorableValue::I16(b)) => {
                        let r = match op {
                            ASTBinaryType::Add => a.checked_add(b),
                            ASTBinaryType::Sub => a.checked_sub(b),
                            ASTBinaryType::Mult => a.checked_mul(b),
                            _ => a.checked_div(b),
                        };
                        match r {
                            Some(x) => Some(StorableValue::I16(x)),
                            None => None,
                        }
                    },
                    (StorableValue::I32(a), StorableValue::I32(b)) => {
                        let r = match op {
                            ASTBinaryType::Add => a.checked_add(b),
                            ASTBinaryType::Sub => a.checked_sub(b),
                            ASTBinaryType::Mult => a.checked_mul(b),
                            _ => a.checked_div(b),
                        };
                        match r {
                            Some(x) => Some(StorableValue::I32(x)),
                            None => None,
                        }
                    },
                    (StorableValue::I64(a), StorableValue::I64(b)) => {
                        let r = match op {
                            ASTBinaryType::Add => a.checked_add(b),
                            ASTBinaryType::Sub => a.checked_sub(b),
                            ASTBinaryType::Mult => a.checked_mul(b),
                            _ => a.checked_div(b),
                        };
                        match r {
                            Some(x) => Some(StorableValue::I64(x)),
                            None => None,
                        }
                    },
                    _ => None,
                }
            },
            ASTBinaryType::LessThan | ASTBinaryType::BiggerThan | ASTBinaryType::LessEqual => {
                if self.rank(&left) != self.rank(&right) {
                    return None;
                }
                let a = Self::int_of(&left)?;
                let b = Self::int_of(&right)?;
                Some(StorableValue::I32(if Self::compare_numbers(op, a, b) { 1 } else { 0 }))
            },
            _ => None,
        }
    }

    fn unary_value(&self, op: ASTUnaryType, v: StorableValue) -> (r: Option<StorableValue>)
        ensures
            r == unary_value(op, v),
    {
        let n = Self::int_of(&v)?;
        let p = self.promote(v);
        match op {
            ASTUnaryType::Plus => Some(p),
            ASTUnaryType::Minus => match p {
                StorableValue::I32(x) => match 0i32.checked_sub(x) {
                    Some(y) => Some(StorableValue::I32(y)),
                    None => None,
                },
                StorableValue::I64(x) => match 0i64.checked_sub(x) {
                    Some(y) => Some(StorableValue::I64(y)),
                    None => None,
                },
                StorableValue::U32(x) => Some(StorableValue::U32(0u32.wrapping_sub(x))),
                StorableValue::U64(x) => Some(StorableValue::U64(0u64.wrapping_sub(x))),
                _ => None,
            },
            ASTUnaryType::Negation => Some(StorableValue::I32(if n == 0 { 1 } else { 0 })),
            _ => None,
        }
    }

    fn is_int_type(ty: ASTDataType) -> (b: bool)
        ensures
            b == is_int_type(ty),
    {
        match ty {
            ASTDataType::Char | ASTDataType::Short | ASTDataType::Int | ASTDataType::Long
            | ASTDataType::LongLong => true,
            _ => false,
        }
    }

    /// `v` converted to `ty` as by assignment.
    fn coerce(&self, v: StorableValue, ty: &ASTData) -> (w: Option<StorableValue>)
        ensures
            w == coerce(v, *ty),
    {
        if Self::is_int_type(ty.ty) && self.rank(&v) <= 8 {
            Some(Memory::decode(ty, Memory::value_bits(&v)))
        } else if ty.ty == ASTDataType::Float && matches!(v, StorableValue::F32(_)) {
            Some(v)
        } else if ty.ty == ASTDataType::Double && matches!(v, StorableValue::F64(_)) {
            Some(v)
        } else {
            None
        }
    }

    /// Stores `v`, converted to `ty`, at `a`.
    fn store_at(&mut self, a: u16, ty: ASTData, v: StorableValue) -> (ok: bool)
        ensures
            final(self).root == old(self).root,
            ok == store(old(self).machine(), a, ty, v) is Some,
            ok ==> final(self).machine() == store(old(self).machine(), a, ty, v).unwrap(),
    {
        let w = match self.coerce(v, &ty) {
            Some(w) => w,
            None => return false,
        };
        let size = self.memory.get_size(&ty);
        if a as usize + size as usize > 65536 {
            return false;
        }
        self.memory.write_truncated(a, &w, size);
        true
    }

    /// Declares a variable in the current scope and, when a value is given, stores it.
    fn declare_slot(&mut self, ty: ASTData, name: String, val: Option<StorableValue>) -> (ok: bool)
        ensures
            final(self).root == old(self).root,
            ok == declare_slot(old(self).machine(), ty, name@, val) is Some,
            ok ==> final(self).machine() == declare_slot(old(self).machine(), ty, name@, val).unwrap(),
    {
        if ty.ty == ASTDataType::Void {
            return false;
        }
        let size = self.memory.get_size(&ty);
        let a = self.cur_ptr();
        if a as u32 + size as u32 > u16::MAX as u32 {
            return false;
        }
        self.declare_here(name, EnvDecl::Var(EnvVar::new(a, ty)), size);
        match val {
            None => true,
            Some(v) => self.store_at(a, ty, v),
        }
    }

    fn exec_expr(&mut self, expr: &ASTExpression, fuel: u64) -> (v: Run<StorableValue>)
        ensures
            final(self).root == old(self).root,
            agrees(eval(old(self).machine(), expr@, fuel as nat), v, final(self).machine()),
        decreases fuel, 0nat, expr, 2nat,
    {
        match expr {
            ASTExpression::Identifier(id) => match self.exec_identifier(id) {
                Some(v) => Run::Done(v),
                None => Run::Fail,
            },
            ASTExpression::Numeral(numeral) => match self.exec_numeral(numeral) {
                Some(v) => Run::Done(v),
                None => Run::Fail,
            },
            ASTExpression::Unary(u) => match self.exec_expr(&u.expr, fuel) {
                Run::Done(v) => match self.unary_value(u.ty, v) {
                    Some(w) => Run::Done(w),
                    None => Run::Fail,
                },
                Run::Fail => Run::Fail,
                Run::OutOfFuel => Run::OutOfFuel,
            },
            ASTExpression::Binary(binary) => self.exec_binary(binary, fuel),
            ASTExpression::Conditional(c) => match self.exec_expr(&c.cond, fuel) {
                Run::Done(v) => match Self::int_of(&v) {
                    Some(n) => if n != 0 {
                        self.exec_expr(&c.then_expr, fuel)
                    } else {
                        self.exec_expr(&c.or, fuel)
                    },
                    None => Run::Fail,
                },
                Run::Fail => Run::Fail,
                Run::OutOfFuel => Run::OutOfFuel,
            },
            ASTExpression::Invocation(inv) => match &*inv.left {
                ASTExpression::Identifier(id) => match {
                    assert((*inv.left)@ == ExprView::Identifier(id.literal@));
                    self.exec_call(id, &inv.params, fuel)
                } {
                    Run::Done(Some(v)) => Run::Done(v),
                    Run::Done(None) => Run::Fail,
                    Run::Fail => Run::Fail,
                    Run::OutOfFuel => Run::OutOfFuel,
                },
                _ => Run::Fail,
            },
            ASTExpression::Null => Run::Fail,
        }
    }

    fn exec_binary(&mut self, binary: &ASTBinary, fuel: u64) -> (v: Run<StorableValue>)
        ensures
            final(self).root == old(self).root,
            agrees(
                eval(old(self).machine(), ExprView::Binary(binary.ty, Box::new((*binary.left)@), Box::new((*binary.right)@)), fuel as nat),
                v,
                final(self).machine(),
            ),
        decreases fuel, 0nat, binary, 1nat,
    {
        match binary.ty {
            ASTBinaryType::Assignment => self.exec_assignment(binary, fuel),
            _ => self.exec_binary_arith_logic(binary, fuel),
        }
    }

    fn extract_lvalue<'a>(&self, expr: &'a ASTExpression) -> (id: Option<&'a ASTIdentifier>)
        ensures
            match id {
                Some(id) => expr@ == ExprView::Identifier(id.literal@),
                None => !(expr@ is Identifier),
            },
    {
        match expr {
            ASTExpression::Identifier(ident) => Some(ident),
            _ => None,
        }
    }

    fn exec_assignment(&mut self, binary: &ASTBinary, fuel: u64) -> (v: Run<StorableValue>)
        requires
            binary.ty == ASTBinaryType::Assignment,
        ensures
            final(self).root == old(self).root,
            agrees(
                eval(old(self).machine(), ExprView::Binary(binary.ty, Box::new((*binary.left)@), Box::new((*binary.right)@)), fuel as nat),
                v,
                final(self).machine(),
            ),
        decreases fuel, 0nat, binary, 0nat,
    {
        let ident = match self.extract_lvalue(&binary.left) {
            Some(id) => id,
            None => return Run::Fail,
        };
        let res = match self.exec_expr(&binary.right, fuel) {
            Run::Done(v) => v,
            Run::Fail => return Run::Fail,
            Run::OutOfFuel => return Run::OutOfFuel,
        };
        let (address, ty) = match self.lookup_var(ident.literal.as_str()) {
            Some(x) => x,
            None => return Run::Fail,
        };
        if !self.store_at(address, ty, res) {
            return Run::Fail;
        }
        Run::Done(res)
    }

    fn exec_binary_arith_logic(&mut self, binary: &ASTBinary, fuel: u64) -> (v: Run<StorableValue>)
        requires
            binary.ty != ASTBinaryType::Assignment,
        ensures
            final(self).root == old(self).root,
            agrees(
                eval(old(self).machine(), ExprView::Binary(binary.ty, Box::new((*binary.left)@), Box::new((*binary.right)@)), fuel as nat),
                v,
                final(self).machine(),
            ),
        decreases fuel, 0nat, binary, 0nat,
    {
        let left = match self.exec_expr(&binary.left, fuel) {
            Run::Done(v) => v,
            Run::Fail => return Run::Fail,
            Run::OutOfFuel => return Run::OutOfFuel,
        };
        let right = match self.exec_expr(&binary.right, fuel) {
            Run::Done(v) => v,
            Run::Fail => return Run::Fail,
            Run::OutOfFuel => return Run::OutOfFuel,
        };
        let left = self.promote(left);
        let right = self.promote(right);
        let (left, right) = match self.convert(left, right) {
            Some(p) => p,
            None => return Run::Fail,
        };
        match self.apply_binary_op(binary.ty, left, right) {
            Some(v) => Run::Done(v),
            None => Run::Fail,
        }
    }

    /// Evaluates arguments from left to right.
    fn exec_args(&mut self, args: &Vec<ASTExpression>, fuel: u64) -> (vs: Run<Vec<StorableValue>>)
        ensures
            final(self).root == old(self).root,
            match vs {
                Run::Done(vs) => eval_args(old(self).machine(), exprs_view(args@), fuel as nat) == Run::Done(
                    (final(self).machine(), vs@),
                ),
                Run::Fail => eval_args(old(self).machine(), exprs_view(args@), fuel as nat) is Fail,
                Run::OutOfFuel => eval_args(old(self).machine(), exprs_view(args@), fuel as nat) is OutOfFuel,
            },
        decreases fuel, 0nat, args, 0nat,
    {
        let ghost all = exprs_view(args@);
        let ghost target = eval_args(self.machine(), all, fuel as nat);
        proof {
            lemma_exprs_view_len(args@);
        }
        let mut vals: Vec<StorableValue> = Vec::new();
        let mut i: usize = 0;
        assert(all.skip(0) =~= all);
        assert(vals@ + Seq::<StorableValue>::empty() =~= vals@);
        while i < args.len()
            invariant
                i <= args.len(),
                all == exprs_view(args@),
                all.len() == args@.len(),
                self.root == old(self).root,
                target == eval_args(old(self).machine(), exprs_view(args@), fuel as nat),
                target == prepend(vals@, eval_args(self.machine(), all.skip(i as int), fuel as nat)),
            decreases args.len() - i,
        {
            proof {
                lemma_exprs_view_index(args@, i as int);
                assert(all.skip(i as int)[0] == all[i as int]);
                assert(all.skip(i as int).drop_first() =~= all.skip(i + 1));
                assert(decreases_to!(args => args@[i as int]));
            }
            let ghost m = self.machine();
            match self.exec_expr(&args[i], fuel) {
                Run::Done(v) => {
                    proof {
                        let rest = eval_args(self.machine(), all.skip(i + 1), fuel as nat);
                        match rest {
                            Run::Done((m2, ws)) => {
                                assert(vals@.push(v) + ws =~= vals@ + (seq![v] + ws));
                            },
                            _ => {},
                        }
                    }
                    vals.push(v);
                },
                Run::Fail => {
                    return Run::Fail;
                },
                Run::OutOfFuel => {
                    return Run::OutOfFuel;
                },
            }
            i += 1;
        }
        assert(all.skip(i as int) =~= Seq::<ExprView>::empty());
        assert(vals@ + Seq::<StorableValue>::empty() =~= vals@);
        Run::Done(vals)
    }

    /// Calls the function `name` with the arguments `args`.
    fn exec_call(&mut self, name: &ASTIdentifier, args: &Vec<ASTExpression>, fuel: u64) -> (r: Run<Option<StorableValue>>)
        ensures
            final(self).root == old(self).root,
            agrees(call(old(self).machine(), name.literal@, exprs_view(args@), fuel as nat), r, final(self).machine()),
        decreases fuel, 0nat, args, 1nat,
    {
        if fuel == 0 {
            return Run::OutOfFuel;
        }
        let (ret, params, body) = match self.lookup_func(name.literal.as_str()) {
            Some(f) => f,
            None => return Run::Fail,
        };
        proof {
            lemma_exprs_view_len(args@);
        }
        if params.len() != args.len() {
            return Run::Fail;
        }
        let vals = match self.exec_args(args, fuel) {
            Run::Done(vs) => vs,
            Run::Fail => return Run::Fail,
            Run::OutOfFuel => return Run::OutOfFuel,
        };
        let ghost m1 = self.machine();
        let base = self.cur_ptr();
        self.memory.push_frame(StackFrame { base, env: Environment::starting_at(base) });
        assert(self.machine() == enter_frame(m1));
        let ghost ps = params_view(params@);
        let ghost entry = self.machine();
        let mut i: usize = 0;
        assert(ps.skip(0) =~= ps);
        assert(vals@.skip(0) =~= vals@);
        while i < params.len() && i < vals.len()
            invariant
                i <= params.len(),
                i <= vals.len(),
                ps == params_view(params@),
                ps.len() == params@.len(),
                self.root == old(self).root,
                fuel > 0,
                exprs_view(args@).len() == params.len(),
                func_of(old(self).machine(), name.literal@) == Some((ret, ps, nodes_view(body@))),
                eval_args(old(self).machine(), exprs_view(args@), fuel as nat) == Run::Done((m1, vals@)),
                entry == enter_frame(m1),
                bind_params(entry, ps, vals@) == bind_params(self.machine(), ps.skip(i as int), vals@.skip(i as int)),
            decreases params.len() - i,
        {
            let p = &params[i];
            proof {
                assert(ps.skip(i as int)[0] == p@);
                assert(vals@.skip(i as int)[0] == vals@[i as int]);
                assert(ps.skip(i as int).drop_first() =~= ps.skip(i + 1));
                assert(vals@.skip(i as int).drop_first() =~= vals@.skip(i + 1));
            }
            if !self.declare_slot(p.ty, p.name.literal.clone(), Some(vals[i])) {
                return Run::Fail;
            }
            i += 1;
        }
        assert(ps.skip(i as int) =~= Seq::<ParamView>::empty() || vals@.skip(i as int) =~= Seq::<StorableValue>::empty());
        let flow = match self.exec_block(&body, fuel - 1) {
            Run::Done(f) => f,
            Run::Fail => return Run::Fail,
            Run::OutOfFuel => return Run::OutOfFuel,
        };
        let ghost m3 = self.machine();
        match self.memory.pop_frame() {
            None => return Run::Fail,
            Some(_) => {},
        }
        assert(self.machine() == leave_frame(m3));
        match Self::return_value(ret, flow) {
            Some(rv) => Run::Done(rv),
            None => Run::Fail,
        }
    }

    fn return_value(ret: ASTData, flow: Flow) -> (r: Option<Option<StorableValue>>)
        ensures
            r == return_value(ret, flow),
    {
        if ret.ty == ASTDataType::Void {
            return Some(None);
        }
        match flow {
            Flow::Return(Some(v)) => {
                if Self::is_int_type(ret.ty) && Self::int_of(&v).is_some() {
                    Some(Some(Memory::decode(&ret, Memory::value_bits(&v))))
                } else if ret.ty == ASTDataType::Float && matches!(v, StorableValue::F32(_)) {
                    Some(Some(v))
                } else if ret.ty == ASTDataType::Double && matches!(v, StorableValue::F64(_)) {
                    Some(Some(v))
                } else {
                    None
                }
            },
            _ => Some(None),
        }
    }

    fn exec_block(&mut self, nodes: &Vec<ASTNode>, fuel: u64) -> (r: Run<Flow>)
        ensures
            final(self).root == old(self).root,
            agrees(exec_nodes(old(self).machine(), nodes_view(nodes@), fuel as nat), r, final(self).machine()),
        decreases fuel, 1nat, nodes, 0nat,
    {
        let ghost all = nodes_view(nodes@);
        let ghost target = exec_nodes(self.machine(), all, fuel as nat);
        proof {
            lemma_nodes_view_len(nodes@);
        }
        assert(all.skip(0) =~= all);
        let mut i: usize = 0;
        while i < nodes.len()
            invariant
                i <= nodes.len(),
                all == nodes_view(nodes@),
                all.len() == nodes@.len(),
                self.root == old(self).root,
                target == exec_nodes(old(self).machine(), nodes_view(nodes@), fuel as nat),
                target == exec_nodes(self.machine(), all.skip(i as int), fuel as nat),
            decreases nodes.len() - i,
        {
            proof {
                lemma_nodes_view_index(nodes@, i as int);
                assert(all.skip(i as int)[0] == all[i as int]);
                assert(all.skip(i as int).drop_first() =~= all.skip(i + 1));
                assert(decreases_to!(nodes => nodes@[i as int]));
            }
            match self.exec_node(&nodes[i], fuel) {
                Run::Done(Flow::Next) => {},
                Run::Done(Flow::Return(v)) => {
                    return Run::Done(Flow::Return(v));
                },
                Run::Fail => {
                    return Run::Fail;
                },
                Run::OutOfFuel => {
                    return Run::OutOfFuel;
                },
            }
            i += 1;
        }
        assert(all.skip(i as int) =~= Seq::<NodeView>::empty());
        Run::Done(Flow::Next)
    }

    fn exec_root(&mut self, root: &ASTRoot, fuel: u64) -> (r: Run<Flow>)
        ensures
            final(self).root == old(self).root,
            agrees(exec_node(old(self).machine(), NodeView::Root(nodes_view(root.statements@)), fuel as nat), r, final(self).machine()),
        decreases fuel, 1nat, root, 1nat,
    {
        self.exec_block(&root.statements, fuel)
    }

    fn exec_func(&mut self, func: &ASTFunc) -> (r: Run<Flow>)
        ensures
            final(self).root == old(self).root,
            agrees(
                exec_node(
                    old(self).machine(),
                    NodeView::Func(func.ty, func.name.literal@, params_view(func.params@), nodes_view(func.body@)),
                    0,
                ),
                r,
                final(self).machine(),
            ),
    {
        let name = func.name.literal.clone();
        let ty = func.ty;
        let params = clone_params(&func.params);
        let body = clone_nodes(&func.body);

        self.declare_here(name, EnvDecl::Func(EnvFunc::new(ty, params, body)), 0);
        Run::Done(Flow::Next)
    }

    fn exec_var(&mut self, var: &ASTVar, fuel: u64) -> (r: Run<Flow>)
        ensures
            final(self).root == old(self).root,
            agrees(
                exec_node(old(self).machine(), NodeView::Var(var.ty, var.name.literal@, opt_expr_view(var.initializer)), fuel as nat),
                r,
                final(self).machine(),
            ),
        decreases fuel, 0nat, var.initializer, 4nat,
    {
        let val = match &var.initializer {
            Some(expr) => match self.exec_expr(expr, fuel) {
                Run::Done(v) => Some(v),
                Run::Fail => return Run::Fail,
                Run::OutOfFuel => return Run::OutOfFuel,
            },
            None => None,
        };
        if self.declare_slot(var.ty, var.name.literal.clone(), val) {
            Run::Done(Flow::Next)
        } else {
            Run::Fail
        }
    }

    fn exec_expr_statement(&mut self, expr: &ASTExpression, fuel: u64) -> (r: Run<Flow>)
        ensures
            final(self).root == old(self).root,
            agrees(exec_node(old(self).machine(), NodeView::Expression(expr@), fuel as nat), r, final(self).machine()),
        decreases fuel, 0nat, expr, 3nat,
    {
        match expr {
            ASTExpression::Invocation(inv) => match &*inv.left {
                ASTExpression::Identifier(id) => match {
                    assert((*inv.left)@ == ExprView::Identifier(id.literal@));
                    self.exec_call(id, &inv.params, fuel)
                } {
                    Run::Done(_) => Run::Done(Flow::Next),
                    Run::Fail => Run::Fail,
                    Run::OutOfFuel => Run::OutOfFuel,
                },
                _ => Run::Fail,
            },
            _ => match self.exec_expr(expr, fuel) {
                Run::Done(_) => Run::Done(Flow::Next),
                Run::Fail => Run::Fail,
                Run::OutOfFuel => Run::OutOfFuel,
            },
        }
    }

    fn is_truthy(&self, value: StorableValue) -> (b: Option<bool>)
        ensures
            b == truthy(value),
    {
        match Self::int_of(&value) {
            Some(n) => Some(n != 0),
            None => None,
        }
    }

    fn exec_while(&mut self, wh: &ASTWhile, fuel: u64) -> (r: Run<Flow>)
        ensures
            final(self).root == old(self).root,
            agrees(exec_while(old(self).machine(), wh.cond@, nodes_view(wh.body@), fuel as nat), r, final(self).machine()),
        decreases fuel, 1nat, wh, 0nat,
    {
        let ghost c = wh.cond@;
        let ghost body = nodes_view(wh.body@);
        let ghost target = exec_while(self.machine(), c, body, fuel as nat);
        let mut f: u64 = fuel;

        loop
            invariant
                self.root == old(self).root,
                c == wh.cond@,
                body == nodes_view(wh.body@),
                f <= fuel,
                target == exec_while(old(self).machine(), wh.cond@, nodes_view(wh.body@), fuel as nat),
                target == exec_while(self.machine(), c, body, f as nat),
            decreases f,
        {
            if f == 0 {
                return Run::OutOfFuel;
            }
            let cond = match self.exec_expr(&wh.cond, f - 1) {
                Run::Done(v) => v,
                Run::Fail => return Run::Fail,
                Run::OutOfFuel => return Run::OutOfFuel,
            };
            match self.is_truthy(cond) {
                Some(true) => {},
                Some(false) => return Run::Done(Flow::Next),
                None => return Run::Fail,
            }
            match self.exec_block(&wh.body, f - 1) {
                Run::Done(Flow::Next) => {},
                Run::Done(Flow::Return(v)) => return Run::Done(Flow::Return(v)),
                Run::Fail => return Run::Fail,
                Run::OutOfFuel => return Run::OutOfFuel,
            }
            f = f - 1;
        }
    }

    fn exec_if(&mut self, stmt: &ASTIf, fuel: u64) -> (r: Run<Flow>)
        ensures
            final(self).root == old(self).root,
            agrees(
                exec_node(old(self).machine(), NodeView::If(stmt.cond@, nodes_view(stmt.then_body@), nodes_view(stmt.else_body@)), fuel as nat),
                r,
                final(self).machine(),
            ),
        decreases fuel, 1nat, stmt, 0nat,
    {
        let cond = match self.exec_expr(&stmt.cond, fuel) {
            Run::Done(v) => v,
            Run::Fail => return Run::Fail,
            Run::OutOfFuel => return Run::OutOfFuel,
        };
        match self.is_truthy(cond) {
            Some(true) => self.exec_block(&stmt.then_body, fuel),
            Some(false) => self.exec_block(&stmt.else_body, fuel),
            None => Run::Fail,
        }
    }

    fn exec_return(&mut self, stmt: &ASTReturn, fuel: u64) -> (r: Run<Flow>)
        ensures
            final(self).root == old(self).root,
            agrees(exec_node(old(self).machine(), NodeView::Return(opt_expr_view(stmt.value)), fuel as nat), r, final(self).machine()),
        decreases fuel, 0nat, stmt.value, 4nat,
    {
        match &stmt.value {
            None => Run::Done(Flow::Return(None)),
            Some(e) => match self.exec_expr(e, fuel) {
                Run::Done(v) => Run::Done(Flow::Return(Some(v))),
                Run::Fail => Run::Fail,
                Run::OutOfFuel => Run::OutOfFuel,
            },
        }
    }

    fn exec_node(&mut self, node: &ASTNode, fuel: u64) -> (r: Run<Flow>)
        ensures
            final(self).root == old(self).root,
            agrees(exec_node(old(self).machine(), node@, fuel as nat), r, final(self).machine()),
        decreases fuel, 1nat, node, 2nat,
    {
        match &node.ty {
            ASTNodeType::Root(root) => self.exec_root(root, fuel),
            ASTNodeType::Func(func) => self.exec_func(func),
            ASTNodeType::Var(var) => self.exec_var(var, fuel),
            ASTNodeType::Expression(expr) => self.exec_expr_statement(expr, fuel),
            ASTNodeType::While(wh) => self.exec_while(wh, fuel),
            ASTNodeType::If(stmt) => self.exec_if(stmt, fuel),
            ASTNodeType::Return(stmt) => self.exec_return(stmt, fuel),
            ASTNodeType::EOF => Run::Done(Flow::Next),
        }
    }

    /// Whether the program, run from the current state, completes within the largest amount
    /// of fuel that `execute_with_fuel` takes: it ends, and meets no error of the program
    /// (an unknown name, a signed overflow, a division by zero, a numeral without a value,
    /// a construct this interpreter does not evaluate).
    pub open spec fn completes(&self) -> bool {
        exec_node(self.machine(), self.program(), u64::MAX as nat) is Done
    }

    /// Runs the program with `fuel` units of fuel (one per loop test and per call):
    /// the memory where the run completes, a failure, or running out of fuel.
    pub fn execute_with_fuel(&mut self, fuel: u64) -> (res: Run<Exec>)
        ensures
            final(self).program() == old(self).program(),
            match exec_node(old(self).machine(), old(self).program(), fuel as nat) {
                Run::Done((m, _)) => res matches Run::Done(e) && e.memory@ == m.mem && final(self).machine() == m,
                Run::Fail => res is Fail,
                Run::OutOfFuel => res is OutOfFuel,
            },
    {
        let root = self.root.clone();
        match self.exec_node(&root, fuel) {
            Run::Done(_) => Run::Done(Exec { memory: self.memory.snapshot() }),
            Run::Fail => Run::Fail,
            Run::OutOfFuel => Run::OutOfFuel,
        }
    }

    /// Runs the program to its end; `execute_with_fuel` is the form that reports errors
    /// and running out of fuel.
    pub fn execute(&mut self) -> (res: Option<Exec>)
        requires
            old(self).completes(),
        ensures
            final(self).program() == old(self).program(),
            run(old(self).machine(), old(self).program()) is Done,
            res matches Some(e) && e.memory@ == run(old(self).machine(), old(self).program())->Done_0.0.mem,
            final(self).machine() == run(old(self).machine(), old(self).program())->Done_0.0,
    {
        proof {
            lemma_run_any_fuel(self.machine(), self.program(), u64::MAX as nat);
        }
        match self.execute_with_fuel(u64::MAX) {
            Run::Done(e) => Some(e),
            _ => None,
        }
    }
}

} // verus!
