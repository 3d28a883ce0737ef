use savelang::assembly::{
    get_assembly_header, get_data_section_header, render_assembly, AssemblyInstruction,
    AssemblySysCalls, Stack, StaticAssemblyData,
};
use savelang::generator::parse_to_assembly;
use savelang::lexer::tokennize_source;
use savelang::parser::parse_tokens;

fn compile(src: &str) -> Result<String, String> {
    let tokens = tokennize_source(src, &"test.sv".to_string());
    let nodes = parse_tokens(tokens)?;
    let instructions = parse_to_assembly(&nodes)?;
    Ok(render_assembly(&instructions))
}

#[test]
fn headers_are_fixed() {
    assert_eq!(get_assembly_header(), "global _start\n_start:");
    assert_eq!(get_data_section_header(), "section .data");
}

#[test]
fn exit_lowered_to_three_lines() {
    let instr = AssemblyInstruction::Syscall(AssemblySysCalls::Exit("5".to_string()));
    let lines = instr.to_assembly();
    assert_eq!(lines.len(), 3);
    assert_eq!(lines[0].as_str(), "mov rax, 60");
    assert_eq!(lines[1].as_str(), "mov rdi, 5");
    assert_eq!(lines[2].as_str(), "syscall");
}

#[test]
fn register_instructions_lowered_to_one_line() {
    let add = AssemblyInstruction::Add("rax".to_string(), "rbx".to_string());
    assert_eq!(add.to_assembly()[0].as_str(), "add rax, rbx");
    let sub = AssemblyInstruction::Sub("rax".to_string(), "rbx".to_string());
    assert_eq!(sub.to_assembly()[0].as_str(), "sub rax, rbx");
    let mov = AssemblyInstruction::Mov("rax".to_string(), "rbx".to_string());
    assert_eq!(mov.to_assembly()[0].as_str(), "mov rax, rbx");
    let push = AssemblyInstruction::Push("rax".to_string());
    assert_eq!(push.to_assembly()[0].as_str(), "push rax");
    let pop = AssemblyInstruction::Pop("rax".to_string());
    assert_eq!(pop.to_assembly()[0].as_str(), "pop rax");
}

#[test]
fn data_items_lowered_by_size() {
    let db = StaticAssemblyData::MakeDB("1".to_string());
    assert_eq!(db.to_assembly()[0].as_str(), "var DB 1");
    let dw = StaticAssemblyData::MakeDW("2".to_string());
    assert_eq!(dw.to_assembly()[0].as_str(), "var DW 2");
    let dd = StaticAssemblyData::MakeDD("3".to_string());
    assert_eq!(dd.to_assembly()[0].as_str(), "var DD 3");
    let dq = StaticAssemblyData::MakeDQ("4".to_string());
    assert_eq!(dq.to_assembly()[0].as_str(), "var DQ 4");
}

#[test]
fn render_starts_with_header_whatever_the_program() {
    let empty: Vec<AssemblyInstruction> = Vec::new();
    assert_eq!(render_assembly(&empty).as_str(), "global _start\n_start:");
    let one = vec![AssemblyInstruction::Push("rax".to_string())];
    assert_eq!(render_assembly(&one).as_str(), "global _start\n_start:\npush rax");
}

#[test]
fn exit_program_compiles_to_exact_text() {
    let text = compile("exit 5;").unwrap();
    assert_eq!(text.as_str(), "global _start\n_start:\nmov rax, 60\nmov rdi, 5\nsyscall");
}

#[test]
fn exit_status_text_is_verbatim() {
    let text = compile("exit 0042;").unwrap();
    assert_eq!(text.as_str(), "global _start\n_start:\nmov rax, 60\nmov rdi, 0042\nsyscall");
}

#[test]
fn default_exit_equals_explicit_zero() {
    let a = compile("exit;").unwrap();
    let b = compile("exit 0;").unwrap();
    assert_eq!(a, b);
    assert_eq!(a.as_str(), "global _start\n_start:\nmov rax, 60\nmov rdi, 0\nsyscall");
}

#[test]
fn two_exits_emit_two_blocks_in_order() {
    let text = compile("exit 1;\nexit 2;").unwrap();
    assert_eq!(
        text.as_str(),
        "global _start\n_start:\nmov rax, 60\nmov rdi, 1\nsyscall\nmov rax, 60\nmov rdi, 2\nsyscall"
    );
}

#[test]
fn variable_statement_has_no_lowering_rule() {
    let err = compile("save a = 5; exit a;").unwrap_err();
    assert_eq!(err.as_str(), "Unsupported construct");
}

#[test]
fn stack_is_last_in_first_out() {
    let mut stack: Stack<u64> = Stack::new();
    assert_eq!(stack.pop(), None);
    stack.push(1);
    stack.push(2);
    assert_eq!(stack.pop(), Some(2));
    assert_eq!(stack.pop(), Some(1));
    assert_eq!(stack.pop(), None);
}
