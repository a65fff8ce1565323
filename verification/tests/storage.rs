use c_wasm_interpreter::environment::{CallStack, EnvFunc, EnvVar, Environment, StackFrame};
use c_wasm_interpreter::memory::{Memory, StorableValue};
use c_wasm_interpreter::parser::{ASTData, ASTDataType};

fn ty(signed: bool, ty: ASTDataType) -> ASTData {
    ASTData { signed, ty }
}

#[test]
fn fresh_memory_is_zero() {
    let m = Memory::new();
    assert_eq!(m.read(0, &ty(true, ASTDataType::Int)), StorableValue::I32(0));
    assert_eq!(m.read(65528, &ty(false, ASTDataType::Long)), StorableValue::U64(0));
    let _ = CallStack::new();
}

#[test]
fn write_then_read_gives_the_value_back() {
    let mut m = Memory::new();
    m.write_truncated(10, &StorableValue::I32(-2), 4);
    assert_eq!(m.read(10, &ty(true, ASTDataType::Int)), StorableValue::I32(-2));
    assert_eq!(m.read(10, &ty(false, ASTDataType::Int)), StorableValue::U32(0xFFFF_FFFE));
    assert_eq!(m.read(10, &ty(true, ASTDataType::Char)), StorableValue::I8(-2));
    m.write_truncated(20, &StorableValue::U64(0x0102_0304_0506_0708), 8);
    assert_eq!(m.read(20, &ty(false, ASTDataType::LongLong)), StorableValue::U64(0x0102_0304_0506_0708));
    assert_eq!(m.read(20, &ty(true, ASTDataType::Short)), StorableValue::I16(0x0708));
}

#[test]
fn truncated_write_keeps_the_low_bytes() {
    let mut m = Memory::new();
    m.write_truncated(0, &StorableValue::I32(0x0102_0304), 2);
    assert_eq!(m.read(0, &ty(true, ASTDataType::Int)), StorableValue::I32(0x0304));
    m.write_truncated(4, &StorableValue::U8(7), 8);
    assert_eq!(m.read(4, &ty(false, ASTDataType::Long)), StorableValue::U64(7));
}

#[test]
fn write_leaves_other_bytes() {
    let mut m = Memory::new();
    m.write_truncated(0, &StorableValue::I64(-1), 8);
    m.write_truncated(2, &StorableValue::U16(0), 2);
    assert_eq!(m.read(0, &ty(false, ASTDataType::Char)), StorableValue::U8(255));
    assert_eq!(m.read(1, &ty(false, ASTDataType::Char)), StorableValue::U8(255));
    assert_eq!(m.read(2, &ty(false, ASTDataType::Short)), StorableValue::U16(0));
    assert_eq!(m.read(4, &ty(false, ASTDataType::Int)), StorableValue::U32(0xFFFF_FFFF));
}

#[test]
fn floating_point_values_keep_their_bits() {
    let mut m = Memory::new();
    let bits = 1.5f32.to_bits();
    m.write_truncated(8, &StorableValue::F32(bits), 4);
    assert_eq!(m.read(8, &ty(true, ASTDataType::Float)), StorableValue::F32(bits));
    let bits = (-0.25f64).to_bits();
    m.write_truncated(16, &StorableValue::F64(bits), 8);
    assert_eq!(m.read(16, &ty(true, ASTDataType::Double)), StorableValue::F64(bits));
}

#[test]
fn sizes_of_types_and_values() {
    let m = Memory::new();
    let sizes: Vec<u16> = [
        ASTDataType::Char,
        ASTDataType::Short,
        ASTDataType::Int,
        ASTDataType::Long,
        ASTDataType::LongLong,
        ASTDataType::Float,
        ASTDataType::Double,
    ]
    .iter()
    .map(|t| m.get_size(&ty(true, *t)))
    .collect();
    assert_eq!(sizes, vec![1, 2, 4, 8, 8, 4, 8]);
    assert_eq!(m.get_size(&ty(false, ASTDataType::Short)), 2);
    assert_eq!(m.extract_size(&StorableValue::I8(0)), 1);
    assert_eq!(m.extract_size(&StorableValue::U16(0)), 2);
    assert_eq!(m.extract_size(&StorableValue::F32(0)), 4);
    assert_eq!(m.extract_size(&StorableValue::I64(0)), 8);
}

#[test]
fn environment_declarations() {
    let mut env = Environment::new();
    assert_eq!(env.ptr(), 0);
    env.add_var("a".to_string(), EnvVar::new(0, ty(true, ASTDataType::Int)), 4);
    env.add_var("b".to_string(), EnvVar::new(4, ty(true, ASTDataType::Char)), 1);
    assert_eq!(env.ptr(), 5);
    assert_eq!(env.get_var("a").unwrap().address, 0);
    assert_eq!(env.get_var("b").unwrap().address, 4);
    assert_eq!(env.get_var("b").unwrap().ty.ty, ASTDataType::Char);
    assert!(env.get_var("c").is_none());
    assert!(env.get_func("a").is_none());
}

#[test]
fn later_declaration_hides_earlier() {
    let mut env = Environment::new();
    env.add_var("a".to_string(), EnvVar::new(0, ty(true, ASTDataType::Int)), 4);
    env.add_func("a".to_string(), EnvFunc::new(ty(true, ASTDataType::Void), vec![], vec![]));
    assert!(env.get_var("a").is_none());
    assert_eq!(env.get_func("a").unwrap().ret_ty.ty, ASTDataType::Void);
    assert_eq!(env.ptr(), 4);
    env.add_var("a".to_string(), EnvVar::new(4, ty(false, ASTDataType::Short)), 2);
    assert_eq!(env.get_var("a").unwrap().address, 4);
    assert!(env.get_func("a").is_none());
}

#[test]
fn frames_of_the_call_stack() {
    let mut m = Memory::new();
    assert!(m.top_frame().is_none());
    m.push_frame(StackFrame { base: 8, env: Environment::starting_at(8) });
    assert_eq!(m.top_frame().unwrap().base, 8);
    assert_eq!(m.top_frame().unwrap().env.ptr(), 8);
    m.write_truncated(0, &StorableValue::U8(1), 1);
    assert_eq!(m.top_frame().unwrap().base, 8);
    let f = m.pop_frame().unwrap();
    assert_eq!(f.base, 8);
    assert!(m.pop_frame().is_none());
    let mut s = CallStack::new();
    assert_eq!(s.len(), 0);
    s.push(StackFrame { base: 2, env: Environment::new() });
    assert_eq!(s.len(), 1);
    assert_eq!(s.top().unwrap().base, 2);
    assert!(s.pop().is_some());
    assert_eq!(s.len(), 0);
}
