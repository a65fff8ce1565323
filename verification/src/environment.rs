use vstd::prelude::*;
use crate::ast::{ASTData, ASTFuncParam, ASTNode, ParamView, NodeView, params_view, nodes_view};
use crate::lexer::str_eq;

verus! {

pub struct EnvVar {
    pub address: u16,
    pub ty: ASTData,
}

impl EnvVar {
    pub fn new(address: u16, ty: ASTData) -> (v: Self)
        ensures
            v.address == address,
            v.ty == ty,
    {
        Self { address, ty }
    }
}

pub struct EnvFunc {
    pub ret_ty: ASTData,
    pub params: Vec<ASTFuncParam>,
    pub body: Vec<ASTNode>,
}

impl EnvFunc {
    pub fn new(ret_ty: ASTData, params: Vec<ASTFuncParam>, body: Vec<ASTNode>) -> (f: Self)
        ensures
            f.ret_ty == ret_ty,
            f.params == params,
            f.body == body,
    {
        Self { ret_ty, params, body }
    }
}

pub enum EnvDecl {
    Var(EnvVar),
    Func(EnvFunc),
}

/// The mathematical content of a declaration.
pub enum DeclView {
    Var(u16, ASTData),
    Func(ASTData, Seq<ParamView>, Seq<NodeView>),
}

impl View for EnvDecl {
    type V = DeclView;

    open spec fn view(&self) -> DeclView {
        match self {
            EnvDecl::Var(v) => DeclView::Var(v.address, v.ty),
            EnvDecl::Func(f) => DeclView::Func(f.ret_ty, params_view(f.params@), nodes_view(f.body@)),
        }
    }
}

/// A function's activation: the address where its slots begin and its own declarations.
pub struct StackFrame {
    pub base: u16,
    pub env: Environment,
}

/// The mathematical content of a frame.
pub struct FrameView {
    pub base: u16,
    pub decls: Map<Seq<char>, DeclView>,
    pub ptr: u16,
}

impl View for StackFrame {
    type V = FrameView;

    open spec fn view(&self) -> FrameView {
        FrameView { base: self.base, decls: self.env.decls(), ptr: self.env.next_address() }
    }
}

/// The views of a list of frames.
pub open spec fn frames_view(fs: Seq<StackFrame>) -> Seq<FrameView> {
    fs.map_values(|f: StackFrame| f@)
}

pub struct CallStack {
    frames: Vec<StackFrame>,
}

impl CallStack {
    pub fn new() -> (s: Self)
        ensures
            s.frames() == Seq::<FrameView>::empty(),
    {
        let s = Self { frames: Vec::new() };
        assert(s.frames() =~= Seq::<FrameView>::empty());
        s
    }

    /// The frames, the innermost last.
    pub closed spec fn frames(&self) -> Seq<FrameView> {
        frames_view(self.frames@)
    }

    /// The number of frames.
    pub open spec fn depth(&self) -> nat {
        self.frames().len()
    }

    pub fn len(&self) -> (n: usize)
        ensures
            n == self.frames().len(),
    {
        self.frames.len()
    }

    pub fn push(&mut self, f: StackFrame)
        ensures
            final(self).frames() == old(self).frames().push(f@),
    {
        self.frames.push(f);
        assert(self.frames() =~= old(self).frames().push(f@));
    }

    pub fn pop(&mut self) -> (f: Option<StackFrame>)
        ensures
            old(self).frames().len() == 0 ==> f is None && final(self).frames() == old(self).frames(),
            old(self).frames().len() > 0 ==> f is Some && f.unwrap()@ == old(self).frames().last()
                && final(self).frames() == old(self).frames().drop_last(),
    {
        let f = self.frames.pop();
        proof {
            if old(self).frames@.len() > 0 {
                assert(self.frames() =~= old(self).frames().drop_last());
            } else {
                assert(self.frames() =~= old(self).frames());
            }
        }
        f
    }

    /// The innermost frame, if any.
    pub fn top(&self) -> (f: Option<&StackFrame>)
        ensures
            self.frames().len() == 0 ==> f is None,
            self.frames().len() > 0 ==> f is Some && f.unwrap()@ == self.frames().last(),
    {
        if self.frames.len() == 0 {
            None
        } else {
            Some(&self.frames[self.frames.len() - 1])
        }
    }
}

/// The declarations that a list of entries holds: a later entry for a name hides
/// an earlier one.
pub open spec fn entries_map(es: Seq<(String, EnvDecl)>) -> Map<Seq<char>, DeclView>
    decreases es.len(),
{
    if es.len() == 0 {
        Map::empty()
    } else {
        entries_map(es.drop_last()).insert(es.last().0@, es.last().1@)
    }
}

proof fn lemma_entries_suffix(es: Seq<(String, EnvDecl)>, i: int, k: Seq<char>)
    requires
        0 <= i <= es.len(),
        forall|j: int| i <= j < es.len() ==> (#[trigger] es[j]).0@ != k,
    ensures
        entries_map(es).dom().contains(k) == entries_map(es.take(i)).dom().contains(k),
        entries_map(es).dom().contains(k) ==> entries_map(es)[k] == entries_map(es.take(i))[k],
    decreases es.len(),
{
    if i == es.len() {
        assert(es.take(i) =~= es);
    } else {
        let d = es.drop_last();
        assert(es[es.len() - 1].0@ != k);
        assert forall|j: int| i <= j < d.len() implies (#[trigger] d[j]).0@ != k by {
            assert(d[j] == es[j]);
        }
        lemma_entries_suffix(d, i, k);
        assert(d.take(i) =~= es.take(i));
    }
}

pub struct Environment {
    decls: Vec<(String, EnvDecl)>,
    ptr: u16,
}

impl Environment {
    /// The declarations by name.
    pub closed spec fn decls(&self) -> Map<Seq<char>, DeclView> {
        entries_map(self.decls@)
    }

    /// The address where the next variable goes.
    pub closed spec fn next_address(&self) -> u16 {
        self.ptr
    }

    pub fn new() -> (e: Self)
        ensures
            e.decls() == Map::<Seq<char>, DeclView>::empty(),
            e.next_address() == 0,
    {
        Environment { decls: Vec::new(), ptr: 0 }
    }

    /// An environment without declarations whose slots begin at `ptr`.
    pub fn starting_at(ptr: u16) -> (e: Self)
        ensures
            e.decls() == Map::<Seq<char>, DeclView>::empty(),
            e.next_address() == ptr,
    {
        Environment { decls: Vec::new(), ptr }
    }

    pub fn ptr(&self) -> (p: u16)
        ensures
            p == self.next_address(),
    {
        self.ptr
    }

    /// Declares a variable of `size` bytes at the next address.
    pub fn add_var(&mut self, name: String, var: EnvVar, size: u16)
        requires
            old(self).next_address() + size <= u16::MAX,
        ensures
            final(self).decls() == old(self).decls().insert(name@, DeclView::Var(var.address, var.ty)),
            final(self).next_address() == old(self).next_address() + size,
    {
        let ghost before = self.decls@;
        let ghost n = name@;
        self.decls.push((name, EnvDecl::Var(var)));
        assert(self.decls@.drop_last() =~= before);
        self.ptr += size;
    }

    /// The declaration of `name`, if there is one.
    pub fn lookup(&self, name: &str) -> (d: Option<&EnvDecl>)
        ensures
            match d {
                Some(d) => self.decls().dom().contains(name@) && self.decls()[name@] == d@,
                None => !self.decls().dom().contains(name@),
            },
    {
        let mut i = self.decls.len();
        while i > 0
            invariant
                i <= self.decls@.len(),
                forall|j: int| i <= j < self.decls@.len() ==> (#[trigger] self.decls@[j]).0@ != name@,
            decreases i,
        {
            i -= 1;
            if str_eq(self.decls[i].0.as_str(), name) {
                proof {
                    let es = self.decls@;
                    lemma_entries_suffix(es, i + 1, name@);
                    assert(es.take(i + 1).drop_last() =~= es.take(i as int));
                }
                return Some(&self.decls[i].1);
            }
        }
        proof {
            lemma_entries_suffix(self.decls@, 0, name@);
            assert(self.decls@.take(0) =~= Seq::<(String, EnvDecl)>::empty());
        }
        None
    }

    /// The variable declared under `name`, if the name declares a variable.
    pub fn get_var(&self, name: &str) -> (v: Option<&EnvVar>)
        ensures
            match v {
                Some(v) => self.decls().dom().contains(name@) && self.decls()[name@] == DeclView::Var(v.address, v.ty),
                None => !(self.decls().dom().contains(name@) && self.decls()[name@] is Var),
            },
    {
        match self.lookup(name) {
            Some(EnvDecl::Var(var)) => Some(var),
            _ => None,
        }
    }

    /// Declares a function.
    pub fn add_func(&mut self, name: String, func: EnvFunc)
        ensures
            final(self).decls() == old(self).decls().insert(name@, EnvDecl::Func(func)@),
            final(self).next_address() == old(self).next_address(),
    {
        let ghost before = self.decls@;
        let ghost d = EnvDecl::Func(func)@;
        self.decls.push((name, EnvDecl::Func(func)));
        assert(self.decls@.drop_last() =~= before);
    }

    /// The function declared under `name`, if the name declares a function.
    pub fn get_func(&self, name: &str) -> (f: Option<&EnvFunc>)
        ensures
            match f {
                Some(f) => self.decls().dom().contains(name@) && self.decls()[name@] == DeclView::Func(
                    f.ret_ty,
                    params_view(f.params@),
                    nodes_view(f.body@),
                ),
                None => !(self.decls().dom().contains(name@) && self.decls()[name@] is Func),
            },
    {
        match self.lookup(name) {
            Some(EnvDecl::Func(func)) => Some(func),
            _ => None,
        }
    }
}

} // verus!
