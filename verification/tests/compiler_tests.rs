use numerus::compiler::{compile, compile_expr, FnTable, VariableCounter};
use numerus::error::CompileError;
use numerus::ir::{Function, Instruction, IrType, Operation};
use numerus::parser::parse;
use numerus::token::ParseToken;

fn num(s: &str) -> ParseToken {
    ParseToken::Number(s.to_string())
}

fn ident(s: &str) -> ParseToken {
    ParseToken::Identifier(s.to_string())
}

const PREAMBLE: &str =
    "data $fmt = { b \"%2.4f\n\", b 0 }\nexport function $pow(d $x, d $y) d\n\n";

#[test]
fn compile_adds_two_literals_in_one_instruction() {
    let mut counter = VariableCounter::new();
    let table = FnTable::new();
    let expr = vec![num("1"), num("2"), ParseToken::Add];
    let (instrs, result) = compile_expr(expr, &mut counter, &table).unwrap();
    assert_eq!(instrs.len(), 1);
    assert_eq!(instrs[0].dest, "%_1");
    match &instrs[0].op {
        Operation::Add(x, y) => {
            assert_eq!(x, "1");
            assert_eq!(y, "2");
        }
        _ => assert!(false),
    }
    assert_eq!(result, "%_1");
}

#[test]
fn compile_entry_program_text() {
    let statements = parse("1+2").unwrap();
    let text = compile(statements).unwrap();
    let expected = format!(
        "{}export function w $main() {{\n@start\n\t%_1 =d add 1, 2\n\tret 0\n}}\n\n",
        PREAMBLE
    );
    assert_eq!(text, expected);
}

#[test]
fn compile_undeclared_identifier_is_name_error() {
    let statements = parse("x+1").unwrap();
    match compile(statements) {
        Err(CompileError::NameError(name)) => assert_eq!(name, "x"),
        _ => assert!(false),
    }
}

#[test]
fn compile_declaration_emits_function() {
    let statements = parse("f(x) = x").unwrap();
    let text = compile(statements).unwrap();
    let expected = format!(
        "{}export function w $main() {{\n@start\n\tret 0\n}}\n\nfunction d $f(d %x) {{\n@start\n\tret %x_0\n}}\n",
        PREAMBLE
    );
    assert_eq!(text, expected);
}

#[test]
fn compile_call_uses_declared_arity() {
    let statements = parse("f(x, y) = x + y\nf(1, 2)").unwrap();
    let text = compile(statements).unwrap();
    let expected = format!(
        "{}export function w $main() {{\n@start\n\t%_1 =d call $f(d 1, d 2)\n\tret 0\n}}\n\nfunction d $f(d %x, d %y) {{\n@start\n\t%_1 =d add %x_0, %y_0\n\tret %_1\n}}\n",
        PREAMBLE
    );
    assert_eq!(text, expected);
}

#[test]
fn compile_exponent_lowers_to_pow_call() {
    let statements = parse("2^3").unwrap();
    let text = compile(statements).unwrap();
    let expected = format!(
        "{}export function w $main() {{\n@start\n\t%_1 =d call $pow(d 2, d 3)\n\tret 0\n}}\n\n",
        PREAMBLE
    );
    assert_eq!(text, expected);
}

#[test]
fn compile_expr_operand_error_on_missing_operands() {
    let mut counter = VariableCounter::new();
    let table = FnTable::new();
    match compile_expr(vec![ParseToken::Add], &mut counter, &table) {
        Err(CompileError::OperandError) => {}
        _ => assert!(false),
    }
}

#[test]
fn compile_expr_invalid_token_on_structural_token() {
    let mut counter = VariableCounter::new();
    let table = FnTable::new();
    match compile_expr(vec![ParseToken::OpenParen], &mut counter, &table) {
        Err(CompileError::InvalidToken(ParseToken::OpenParen)) => {}
        _ => assert!(false),
    }
}

#[test]
fn compile_expr_empty_body_is_operand_error() {
    let mut counter = VariableCounter::new();
    let table = FnTable::new();
    match compile_expr(Vec::new(), &mut counter, &table) {
        Err(CompileError::OperandError) => {}
        _ => assert!(false),
    }
}

#[test]
fn compile_expr_call_with_too_few_operands() {
    let mut counter = VariableCounter::new();
    let mut table = FnTable::new();
    table.register("f".to_string(), 2);
    match compile_expr(vec![num("1"), ident("f")], &mut counter, &table) {
        Err(CompileError::OperandError) => {}
        _ => assert!(false),
    }
}

#[test]
fn variable_counter_versions_and_temps() {
    let mut counter = VariableCounter::new();
    assert_eq!(counter.current_temp(), "%_0");
    assert_eq!(counter.next_var("x".to_string()), "%x_0");
    assert_eq!(counter.next_var("x".to_string()), "%x_0");
    assert_eq!(counter.get("x".to_string()).unwrap(), "%x_0");
    match counter.get("y".to_string()) {
        Err(CompileError::NameError(name)) => assert_eq!(name, "y"),
        _ => assert!(false),
    }
    assert_eq!(counter.next_temp(), "%_1");
    assert_eq!(counter.next_temp(), "%_2");
    assert_eq!(counter.current_temp(), "%_2");
}

#[test]
fn variable_counter_renders_multi_digit_temps() {
    let mut counter = VariableCounter::new();
    let mut last = String::new();
    for _ in 0..12 {
        last = counter.next_temp();
    }
    assert_eq!(last, "%_12");
    assert_eq!(counter.current_temp(), "%_12");
}

#[test]
fn fn_table_lookup_and_redeclaration() {
    let mut table = FnTable::new();
    assert!(table.lookup(&"f".to_string()).is_none());
    table.register("f".to_string(), 2);
    assert_eq!(table.lookup(&"f".to_string()), Some(2));
    table.register("f".to_string(), 3);
    assert_eq!(table.lookup(&"f".to_string()), Some(3));
    assert!(table.lookup(&"g".to_string()).is_none());
}

#[test]
fn render_function_twice_is_byte_identical() {
    let mut f = Function::new("f".to_string(), vec!["x".to_string(), "y".to_string()]);
    f.body.push(Instruction {
        dest: "%_1".to_string(),
        assign_type: IrType::Double,
        op: Operation::Add("%x_0".to_string(), "%y_0".to_string()),
    });
    f.return_val = "%_1".to_string();
    let first = f.render();
    let second = f.render();
    assert_eq!(first.as_bytes(), second.as_bytes());
    assert_eq!(
        first,
        "function d $f(d %x, d %y) {\n@start\n\t%_1 =d add %x_0, %y_0\n\tret %_1\n}\n"
    );
}

#[test]
fn render_main_function() {
    let f = Function::new_main();
    assert_eq!(f.render(), "export function w $main() {\n@start\n\tret 0\n}\n");
}

#[test]
fn compile_whole_pipeline_multi_line() {
    let source = "scale(x, y) = x * y\nscale(1.5, 3) + 2";
    let statements = parse(source).unwrap();
    let text = compile(statements).unwrap();
    let expected = format!(
        "{}export function w $main() {{\n@start\n\t%_1 =d call $scale(d 1.5, d 3)\n\t%_2 =d add %_1, 2\n\tret 0\n}}\n\nfunction d $scale(d %x, d %y) {{\n@start\n\t%_1 =d mul %x_0, %y_0\n\tret %_1\n}}\n",
        PREAMBLE
    );
    assert_eq!(text, expected);
}

#[test]
fn compile_sub_and_div_mnemonics() {
    let statements = parse("1-2\n8/4").unwrap();
    let text = compile(statements).unwrap();
    let expected = format!(
        "{}export function w $main() {{\n@start\n\t%_1 =d sub 1, 2\n\t%_2 =d div 8, 4\n\tret 0\n}}\n\n",
        PREAMBLE
    );
    assert_eq!(text, expected);
}

#[test]
fn compile_declared_parameters_bind_at_version_zero() {
    let statements = parse("f(a, b) = b - a").unwrap();
    let text = compile(statements).unwrap();
    let expected = format!(
        "{}export function w $main() {{\n@start\n\tret 0\n}}\n\nfunction d $f(d %a, d %b) {{\n@start\n\t%_1 =d sub %b_0, %a_0\n\tret %_1\n}}\n",
        PREAMBLE
    );
    assert_eq!(text, expected);
}
