use vstd::prelude::*;
use crate::ast::{ASTData, ASTDataType};
use crate::environment::{CallStack, StackFrame, FrameView};

verus! {

/// A value of the interpreted language.  The floating-point variants hold the
/// IEEE-754 bit pattern of the number.
#[derive(Debug, Clone, Copy, PartialEq, Eq, Structural)]
pub enum StorableValue {
    U8(u8),
    U16(u16),
    U32(u32),
    U64(u64),
    I8(i8),
    I16(i16),
    I32(i32),
    I64(i64),
    F32(u32),
    F64(u64),
}

/// The number of bytes a value occupies.
pub open spec fn value_size(v: StorableValue) -> nat {
    match v {
        StorableValue::U8(_) | StorableValue::I8(_) => 1,
        StorableValue::U16(_) | StorableValue::I16(_) => 2,
        StorableValue::U32(_) | StorableValue::I32(_) | StorableValue::F32(_) => 4,
        StorableValue::U64(_) | StorableValue::I64(_) | StorableValue::F64(_) => 8,
    }
}

/// The bits of a value as a 64-bit two's-complement number: a signed value is extended
/// by its sign; the low bytes are the value's own little-endian bytes.
pub open spec fn value_bits(v: StorableValue) -> u64 {
    match v {
        StorableValue::U8(x) => x as u64,
        StorableValue::U16(x) => x as u64,
        StorableValue::U32(x) => x as u64,
        StorableValue::U64(x) => x,
        StorableValue::I8(x) => (x as i64) as u64,
        StorableValue::I16(x) => (x as i64) as u64,
        StorableValue::I32(x) => (x as i64) as u64,
        StorableValue::I64(x) => x as u64,
        StorableValue::F32(b) => b as u64,
        StorableValue::F64(b) => b,
    }
}

/// Byte `i` (least significant first) of `bits`.
pub open spec fn byte_of(bits: u64, i: int) -> u8 {
    ((bits >> ((8 * i) as u64)) & 0xff) as u8
}

/// The number of bytes a data type occupies (none for `void`).
pub open spec fn type_size(ty: ASTDataType) -> nat {
    match ty {
        ASTDataType::Void => 0,
        ASTDataType::Char => 1,
        ASTDataType::Short => 2,
        ASTDataType::Int | ASTDataType::Float => 4,
        ASTDataType::Long | ASTDataType::LongLong | ASTDataType::Double => 8,
    }
}

/// How many bytes a write of `v` limited to `limit` bytes stores.
pub open spec fn stored_len(v: StorableValue, limit: int) -> int {
    if limit < value_size(v) {
        limit
    } else {
        value_size(v) as int
    }
}

/// Memory after storing the first `stored_len(v, limit)` little-endian bytes of `v` at `addr`.
pub open spec fn stored(mem: Seq<u8>, addr: int, v: StorableValue, limit: int) -> Seq<u8> {
    let n = stored_len(v, limit);
    Seq::new(
        mem.len(),
        |i: int|
            if addr <= i < addr + n {
                byte_of(value_bits(v), i - addr)
            } else {
                mem[i]
            },
    )
}

/// The little-endian number held by the `n` bytes at `a` (`n` is 1, 2, 4 or 8).
pub open spec fn le_bits(mem: Seq<u8>, a: int, n: nat) -> u64 {
    if n == 1 {
        mem[a] as u64
    } else if n == 2 {
        (mem[a] as u64) | ((mem[a + 1] as u64) << 8u64)
    } else if n == 4 {
        (mem[a] as u64) | ((mem[a + 1] as u64) << 8u64) | ((mem[a + 2] as u64) << 16u64) | ((mem[a + 3]
            as u64) << 24u64)
    } else {
        (mem[a] as u64) | ((mem[a + 1] as u64) << 8u64) | ((mem[a + 2] as u64) << 16u64) | ((mem[a + 3]
            as u64) << 24u64) | ((mem[a + 4] as u64) << 32u64) | ((mem[a + 5] as u64) << 40u64) | ((mem[a
            + 6] as u64) << 48u64) | ((mem[a + 7] as u64) << 56u64)
    }
}

/// The value of data type `ty` whose bits are `bits`, cut to the type's width.
pub open spec fn decode(ty: ASTData, bits: u64) -> StorableValue {
    match (ty.ty, ty.signed) {
        (ASTDataType::Char, false) => StorableValue::U8(bits as u8),
        (ASTDataType::Short, false) => StorableValue::U16(bits as u16),
        (ASTDataType::Int, false) => StorableValue::U32(bits as u32),
        (ASTDataType::Long, false) | (ASTDataType::LongLong, false) => StorableValue::U64(bits),
        (ASTDataType::Char, true) => StorableValue::I8((bits as u8) as i8),
        (ASTDataType::Short, true) => StorableValue::I16((bits as u16) as i16),
        (ASTDataType::Int, true) => StorableValue::I32((bits as u32) as i32),
        (ASTDataType::Long, true) | (ASTDataType::LongLong, true) => StorableValue::I64(bits as i64),
        (ASTDataType::Float, _) => StorableValue::F32(bits as u32),
        (ASTDataType::Double, _) => StorableValue::F64(bits),
        (ASTDataType::Void, _) => StorableValue::I32(0),
    }
}

/// The value of data type `ty` held at `addr`.
pub open spec fn loaded(mem: Seq<u8>, addr: int, ty: ASTData) -> StorableValue {
    decode(ty, le_bits(mem, addr, type_size(ty.ty)))
}

/// Whether `v` is the kind of value that a read of type `ty` yields.
pub open spec fn value_matches_type(v: StorableValue, ty: ASTData) -> bool {
    match v {
        StorableValue::U8(_) => ty.ty == ASTDataType::Char && !ty.signed,
        StorableValue::U16(_) => ty.ty == ASTDataType::Short && !ty.signed,
        StorableValue::U32(_) => ty.ty == ASTDataType::Int && !ty.signed,
        StorableValue::U64(_) => (ty.ty == ASTDataType::Long || ty.ty == ASTDataType::LongLong) && !ty.signed,
        StorableValue::I8(_) => ty.ty == ASTDataType::Char && ty.signed,
        StorableValue::I16(_) => ty.ty == ASTDataType::Short && ty.signed,
        StorableValue::I32(_) => ty.ty == ASTDataType::Int && ty.signed,
        StorableValue::I64(_) => (ty.ty == ASTDataType::Long || ty.ty == ASTDataType::LongLong) && ty.signed,
        StorableValue::F32(_) => ty.ty == ASTDataType::Float,
        StorableValue::F64(_) => ty.ty == ASTDataType::Double,
    }
}

proof fn lemma_le_bytes(x: u64)
    ensures
        (((x >> 0u64) & 0xff) as u8) as u64 == (x as u8) as u64,
        (((x >> 0u64) & 0xff) as u8 as u64) | ((((x >> 8u64) & 0xff) as u8 as u64) << 8u64) == (x as u16) as u64,
        (((x >> 0u64) & 0xff) as u8 as u64) | ((((x >> 8u64) & 0xff) as u8 as u64) << 8u64)
            | ((((x >> 16u64) & 0xff) as u8 as u64) << 16u64) | ((((x >> 24u64) & 0xff) as u8 as u64) << 24u64)
            == (x as u32) as u64,
        (((x >> 0u64) & 0xff) as u8 as u64) | ((((x >> 8u64) & 0xff) as u8 as u64) << 8u64)
            | ((((x >> 16u64) & 0xff) as u8 as u64) << 16u64) | ((((x >> 24u64) & 0xff) as u8 as u64) << 24u64)
            | ((((x >> 32u64) & 0xff) as u8 as u64) << 32u64) | ((((x >> 40u64) & 0xff) as u8 as u64) << 40u64)
            | ((((x >> 48u64) & 0xff) as u8 as u64) << 48u64) | ((((x >> 56u64) & 0xff) as u8 as u64) << 56u64)
            == x,
{
    assert((((x >> 0u64) & 0xff) as u8) as u64 == (x as u8) as u64) by (bit_vector);
    assert((((x >> 0u64) & 0xff) as u8 as u64) | ((((x >> 8u64) & 0xff) as u8 as u64) << 8u64) == (x as u16)
        as u64) by (bit_vector);
    assert((((x >> 0u64) & 0xff) as u8 as u64) | ((((x >> 8u64) & 0xff) as u8 as u64) << 8u64) | ((((x
        >> 16u64) & 0xff) as u8 as u64) << 16u64) | ((((x >> 24u64) & 0xff) as u8 as u64) << 24u64) == (x
        as u32) as u64) by (bit_vector);
    assert((((x >> 0u64) & 0xff) as u8 as u64) | ((((x >> 8u64) & 0xff) as u8 as u64) << 8u64) | ((((x
        >> 16u64) & 0xff) as u8 as u64) << 16u64) | ((((x >> 24u64) & 0xff) as u8 as u64) << 24u64) | ((((x
        >> 32u64) & 0xff) as u8 as u64) << 32u64) | ((((x >> 40u64) & 0xff) as u8 as u64) << 40u64) | ((((x
        >> 48u64) & 0xff) as u8 as u64) << 48u64) | ((((x >> 56u64) & 0xff) as u8 as u64) << 56u64) == x)
        by (bit_vector);
}

proof fn lemma_decode_truncated(ty: ASTData, x: u64)
    ensures
        type_size(ty.ty) == 1 ==> decode(ty, (x as u8) as u64) == decode(ty, x),
        type_size(ty.ty) == 2 ==> decode(ty, (x as u16) as u64) == decode(ty, x),
        type_size(ty.ty) == 4 ==> decode(ty, (x as u32) as u64) == decode(ty, x),
{
    assert(((x as u8) as u64) as u8 == x as u8) by (bit_vector);
    assert(((x as u16) as u64) as u16 == x as u16) by (bit_vector);
    assert(((x as u32) as u64) as u32 == x as u32) by (bit_vector);
}

/// A read of type `ty` right after a write of `v` limited to the size of `ty`, at the
/// same address, gives `v` cut to the width of `ty`, where `v` is at least that wide.
pub proof fn lemma_read_after_write(mem: Seq<u8>, addr: int, v: StorableValue, ty: ASTData)
    requires
        mem.len() == 65536,
        ty.ty != ASTDataType::Void,
        0 <= addr,
        addr + type_size(ty.ty) <= 65536,
        type_size(ty.ty) <= value_size(v),
    ensures
        loaded(stored(mem, addr, v, type_size(ty.ty) as int), addr, ty) == decode(ty, value_bits(v)),
{
    let n = type_size(ty.ty);
    let x = value_bits(v);
    let m2 = stored(mem, addr, v, n as int);
    assert(stored_len(v, n as int) == n);
    lemma_le_bytes(x);
    lemma_decode_truncated(ty, x);
    assert forall|i: int| 0 <= i < n implies #[trigger] m2[addr + i] == byte_of(x, i) by {
    }
    assert(byte_of(x, 0) == ((x >> 0u64) & 0xff) as u8);
    if n >= 2 {
        assert(byte_of(x, 1) == ((x >> 8u64) & 0xff) as u8);
    }
    if n >= 4 {
        assert(byte_of(x, 2) == ((x >> 16u64) & 0xff) as u8);
        assert(byte_of(x, 3) == ((x >> 24u64) & 0xff) as u8);
    }
    if n == 8 {
        assert(byte_of(x, 4) == ((x >> 32u64) & 0xff) as u8);
        assert(byte_of(x, 5) == ((x >> 40u64) & 0xff) as u8);
        assert(byte_of(x, 6) == ((x >> 48u64) & 0xff) as u8);
        assert(byte_of(x, 7) == ((x >> 56u64) & 0xff) as u8);
    }
    assert(m2[addr] == byte_of(x, 0));
}

/// A value read back with the type it was written as is the value written.
pub proof fn lemma_read_after_write_same_type(mem: Seq<u8>, addr: int, v: StorableValue, ty: ASTData)
    requires
        mem.len() == 65536,
        value_matches_type(v, ty),
        0 <= addr,
        addr + type_size(ty.ty) <= 65536,
    ensures
        loaded(stored(mem, addr, v, type_size(ty.ty) as int), addr, ty) == v,
{
    lemma_read_after_write(mem, addr, v, ty);
    match v {
        StorableValue::I8(x) => {
            assert(((((x as i64) as u64) as u8) as i8) == x) by (bit_vector);
        },
        StorableValue::I16(x) => {
            assert(((((x as i64) as u64) as u16) as i16) == x) by (bit_vector);
        },
        StorableValue::I32(x) => {
            assert(((((x as i64) as u64) as u32) as i32) == x) by (bit_vector);
        },
        StorableValue::I64(x) => {
            assert(((x as u64) as i64) == x) by (bit_vector);
        },
        _ => {},
    }
}

/// A write changes no byte outside the ones it stores.
pub proof fn lemma_write_frame(mem: Seq<u8>, addr: int, v: StorableValue, limit: int, i: int)
    requires
        0 <= i < mem.len(),
        i < addr || addr + stored_len(v, limit) <= i,
    ensures
        stored(mem, addr, v, limit)[i] == mem[i],
{
}

pub struct Memory {
    data: [u8; 65536],
    stack: CallStack,
}

impl Memory {
    /// The bytes of memory.
    pub closed spec fn bytes(&self) -> Seq<u8> {
        self.data@
    }

    /// The call stack's frames, the innermost last.
    pub closed spec fn frames(&self) -> Seq<FrameView> {
        self.stack.frames()
    }

    pub fn new() -> (m: Self)
        ensures
            m.bytes() == Seq::new(65536, |i: int| 0u8),
            m.frames() == Seq::<FrameView>::empty(),
    {
        let m = Self { data: [0u8; 65536], stack: CallStack::new() };
        assert(m.bytes() =~= Seq::new(65536, |i: int| 0u8));
        m
    }

    pub proof fn lemma_len(&self)
        ensures
            self.bytes().len() == 65536,
    {
    }

    fn write_bytes(&mut self, addr: u16, bits: u64, n: usize)
        requires
            n <= 8,
            addr + n <= 65536,
        ensures
            final(self).frames() == old(self).frames(),
            final(self).bytes() == Seq::new(
                old(self).bytes().len(),
                |i: int|
                    if addr <= i < addr + n {
                        byte_of(bits, i - addr)
                    } else {
                        old(self).bytes()[i]
                    },
            ),
    {
        let a = addr as usize;
        let ghost before = self.data@;
        let mut i: usize = 0;
        while i < n
            invariant
                i <= n <= 8,
                a == addr,
                a + n <= 65536,
                self.data@.len() == 65536,
                self.stack == old(self).stack,
                forall|k: int|
                    0 <= k < 65536 ==> #[trigger] self.data@[k] == if a <= k < a + i {
                        byte_of(bits, k - a)
                    } else {
                        before[k]
                    },
            decreases n - i,
        {
            self.data[a + i] = ((bits >> ((8 * i) as u64)) & 0xff) as u8;
            i += 1;
        }
        assert(self.data@ =~= Seq::new(
            before.len(),
            |k: int|
                if addr <= k < addr + n {
                    byte_of(bits, k - addr)
                } else {
                    before[k]
                },
        ));
    }

    pub(crate) fn value_bits(value: &StorableValue) -> (bits: u64)
        ensures
            bits == value_bits(*value),
    {
        match value {
            StorableValue::U8(v) => *v as u64,
            StorableValue::U16(v) => *v as u64,
            StorableValue::U32(v) => *v as u64,
            StorableValue::U64(v) => *v,
            StorableValue::I8(v) => (*v as i64) as u64,
            StorableValue::I16(v) => (*v as i64) as u64,
            StorableValue::I32(v) => (*v as i64) as u64,
            StorableValue::I64(v) => *v as u64,
            StorableValue::F32(v) => *v as u64,
            StorableValue::F64(v) => *v,
        }
    }

    fn write(&mut self, addr: u16, value: &StorableValue, limit: Option<u16>)
        requires
            addr + stored_len(
                *value,
                match limit {
                    Some(l) => l as int,
                    None => 8,
                },
            ) <= 65536,
        ensures
            final(self).frames() == old(self).frames(),
            final(self).bytes() == stored(
                old(self).bytes(),
                addr as int,
                *value,
                match limit {
                    Some(l) => l as int,
                    None => 8,
                },
            ),
    {
        let size = self.extract_size(value) as usize;
        let n = match limit {
            Some(l) => if (l as usize) < size {
                l as usize
            } else {
                size
            },
            None => size,
        };
        let bits = Self::value_bits(value);
        self.write_bytes(addr, bits, n);
        assert(self.bytes() =~= stored(
            old(self).bytes(),
            addr as int,
            *value,
            match limit {
                Some(l) => l as int,
                None => 8,
            },
        ));
    }

    /// Stores the little-endian bytes of `value` at `addr`, at most `size` of them.
    pub fn write_truncated(&mut self, addr: u16, value: &StorableValue, size: u16)
        requires
            addr + stored_len(*value, size as int) <= 65536,
        ensures
            final(self).bytes() == stored(old(self).bytes(), addr as int, *value, size as int),
            final(self).frames() == old(self).frames(),
    {
        self.write(addr, value, Some(size));
    }

    /// Enters a function: `frame` becomes the innermost frame.
    pub fn push_frame(&mut self, frame: StackFrame)
        ensures
            final(self).bytes() == old(self).bytes(),
            final(self).frames() == old(self).frames().push(frame@),
    {
        self.stack.push(frame);
    }

    /// Leaves the innermost frame and hands it back.
    pub fn pop_frame(&mut self) -> (frame: Option<StackFrame>)
        ensures
            final(self).bytes() == old(self).bytes(),
            old(self).frames().len() == 0 ==> frame is None && final(self).frames() == old(self).frames(),
            old(self).frames().len() > 0 ==> frame is Some && frame.unwrap()@ == old(self).frames().last()
                && final(self).frames() == old(self).frames().drop_last(),
    {
        self.stack.pop()
    }

    /// The innermost frame, if any.
    pub fn top_frame(&self) -> (frame: Option<&StackFrame>)
        ensures
            self.frames().len() == 0 ==> frame is None,
            self.frames().len() > 0 ==> frame is Some && frame.unwrap()@ == self.frames().last(),
    {
        self.stack.top()
    }

    fn get_bytes(&self, addr: u16, n: usize) -> (bits: u64)
        requires
            n == 1 || n == 2 || n == 4 || n == 8,
            addr + n <= 65536,
        ensures
            bits == le_bits(self.bytes(), addr as int, n as nat),
    {
        let a = addr as usize;
        if n == 1 {
            self.data[a] as u64
        } else if n == 2 {
            (self.data[a] as u64) | ((self.data[a + 1] as u64) << 8u64)
        } else if n == 4 {
            (self.data[a] as u64) | ((self.data[a + 1] as u64) << 8u64) | ((self.data[a + 2] as u64)
                << 16u64) | ((self.data[a + 3] as u64) << 24u64)
        } else {
            (self.data[a] as u64) | ((self.data[a + 1] as u64) << 8u64) | ((self.data[a + 2] as u64)
                << 16u64) | ((self.data[a + 3] as u64) << 24u64) | ((self.data[a + 4] as u64) << 32u64)
                | ((self.data[a + 5] as u64) << 40u64) | ((self.data[a + 6] as u64) << 48u64) | ((self.data[a
                + 7] as u64) << 56u64)
        }
    }

    /// The value of type `ty` whose bits are `bits`.
    pub(crate) fn decode(ty: &ASTData, bits: u64) -> (value: StorableValue)
        ensures
            value == decode(*ty, bits),
    {
        match (ty.ty, ty.signed) {
            (ASTDataType::Char, false) => StorableValue::U8(bits as u8),
            (ASTDataType::Short, false) => StorableValue::U16(bits as u16),
            (ASTDataType::Int, false) => StorableValue::U32(bits as u32),
            (ASTDataType::Long, false) | (ASTDataType::LongLong, false) => StorableValue::U64(bits),
            (ASTDataType::Char, true) => StorableValue::I8((bits as u8) as i8),
            (ASTDataType::Short, true) => StorableValue::I16((bits as u16) as i16),
            (ASTDataType::Int, true) => StorableValue::I32((bits as u32) as i32),
            (ASTDataType::Long, true) | (ASTDataType::LongLong, true) => StorableValue::I64(bits as i64),
            (ASTDataType::Float, _) => StorableValue::F32(bits as u32),
            (ASTDataType::Double, _) => StorableValue::F64(bits),
            (ASTDataType::Void, _) => StorableValue::I32(0),
        }
    }

    /// The value of type `ty` stored at `addr`.
    pub fn read(&self, addr: u16, ty: &ASTData) -> (value: StorableValue)
        requires
            ty.ty != ASTDataType::Void,
            addr + type_size(ty.ty) <= 65536,
        ensures
            value == loaded(self.bytes(), addr as int, *ty),
    {
        match (ty.ty, ty.signed) {
            (ASTDataType::Char, false) => StorableValue::U8(self.get_bytes(addr, 1) as u8),
            (ASTDataType::Short, false) => StorableValue::U16(self.get_bytes(addr, 2) as u16),
            (ASTDataType::Int, false) => StorableValue::U32(self.get_bytes(addr, 4) as u32),
            (ASTDataType::Long, false) | (ASTDataType::LongLong, false) => StorableValue::U64(self.get_bytes(addr, 8)),
            (ASTDataType::Char, true) => StorableValue::I8((self.get_bytes(addr, 1) as u8) as i8),
            (ASTDataType::Short, true) => StorableValue::I16((self.get_bytes(addr, 2) as u16) as i16),
            (ASTDataType::Int, true) => StorableValue::I32((self.get_bytes(addr, 4) as u32) as i32),
            (ASTDataType::Long, true) | (ASTDataType::LongLong, true) => StorableValue::I64(self.get_bytes(addr, 8) as i64),
            (ASTDataType::Float, _) => StorableValue::F32(self.get_bytes(addr, 4) as u32),
            (ASTDataType::Double, _) => StorableValue::F64(self.get_bytes(addr, 8)),
            (ASTDataType::Void, _) => StorableValue::I32(0),
        }
    }

    pub fn extract_size(&self, value: &StorableValue) -> (size: u16)
        ensures
            size == value_size(*value),
    {
        match value {
            StorableValue::U8(_) | StorableValue::I8(_) => 1,
            StorableValue::U16(_) | StorableValue::I16(_) => 2,
            StorableValue::U32(_) | StorableValue::I32(_) | StorableValue::F32(_) => 4,
            StorableValue::U64(_) | StorableValue::I64(_) | StorableValue::F64(_) => 8,
        }
    }

    /// The number of bytes that a value of type `ty` occupies.
    pub fn get_size(&self, ty: &ASTData) -> (size: u16)
        requires
            ty.ty != ASTDataType::Void,
        ensures
            size == type_size(ty.ty),
    {
        let value = self.read(0, ty);

        self.extract_size(&value)
    }

    /// A copy of all bytes of memory.
    pub fn snapshot(&self) -> (data: [u8; 65536])
        ensures
            data@ == self.bytes(),
    {
        self.data
    }
}

} // verus!
