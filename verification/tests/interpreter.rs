use c_wasm_interpreter::interpreter::Interpreter;

#[test]
fn simple_assignment() {
    let mut i = Interpreter::new("int a = 1;");
    let exec = i.execute().unwrap();
    println!("{:?}", &exec.memory[0..50]);
    assert_eq!(exec.memory[0], 1);
    assert_eq!(exec.memory[1], 0);
}

#[test]
fn simple_expressions() {
    let mut i = Interpreter::new("int a = 1; int b = a + 1; int c = a + b * 2;");
    let exec = i.execute().unwrap();
    println!("{:?}", &exec.memory[0..50]);
    assert_eq!(exec.memory[0], 1);
    assert_eq!(exec.memory[1], 0);
    assert_eq!(exec.memory[4], 2);
    assert_eq!(exec.memory[5], 0);
    assert_eq!(exec.memory[8], 5);
    assert_eq!(exec.memory[9], 0);
}

#[test]
fn simple_conversions() {
    let mut i = Interpreter::new("short int a = 3; long int b = a + 4; int c = a + b * 4 / 2; int d = b;");
    let exec = i.execute().unwrap();
    println!("{:?}", &exec.memory[0..50]);
    assert_eq!(exec.memory[0], 3);
    assert_eq!(exec.memory[1], 0);
    assert_eq!(exec.memory[2], 7);
    assert_eq!(exec.memory[3], 0);
    assert_eq!(exec.memory[10], 17);
    assert_eq!(exec.memory[11], 0);
    assert_eq!(exec.memory[14], 7);
    assert_eq!(exec.memory[15], 0);
}

#[test]
fn conversion_test() {
    let mut i = Interpreter::new("short int a = 752235;");
    let exec = i.execute().unwrap();
    println!("{:?}", &exec.memory[0..50]);
    assert_eq!(exec.memory[2], 0);
    assert_eq!(exec.memory[3], 0);
}

#[test]
fn simple_unsigned() {
    let mut i = Interpreter::new("short int a = 3; unsigned long int b = a + 4; int c = a + b * 4 / 2; int d = b;");
    let exec = i.execute().unwrap();
    println!("{:?}", &exec.memory[0..50]);
    assert_eq!(exec.memory[2], 7);
    assert_eq!(exec.memory[3], 0);
}

#[test]
fn simple_while() {
    let mut i = Interpreter::new("int a = 1; while (a < 5) a = a + 1;");
    let exec = i.execute().unwrap();
    println!("{:?}", &exec.memory[0..50]);
    assert_eq!(exec.memory[0], 5);
    assert_eq!(exec.memory[1], 0);
}

#[test]
fn simple_func() {
    let mut i = Interpreter::new("int a = 1; void b() { a = a + 1; } b(); b();");
    let exec = i.execute().unwrap();
    println!("{:?}", &exec.memory[0..50]);
    assert_eq!(&exec.memory[0..4], &[3, 0, 0, 0]);
}
