use mvp_parser::ast::{
    BinaryOperator, Expression, Label, Number, NumberWidth, Opcode, OpcodeMode, Statement,
    VariableName,
};
use mvp_parser::parser::{self, IResult};

fn num(value: u32) -> Expression {
    Expression::Number(Number {
        value,
        width: NumberWidth::Unspecified,
    })
}

fn byte(value: u32) -> Expression {
    Expression::Number(Number {
        value,
        width: NumberWidth::OneByte,
    })
}

fn var(name: &str) -> Expression {
    Expression::Variable(Label::Named(VariableName(String::from(name))))
}

fn op(name: &str, width: Option<u32>, mode: OpcodeMode, value: Expression) -> Statement {
    Statement::Opcode(Opcode {
        name: String::from(name),
        width,
        mode,
        value,
    })
}

#[test]
fn address_mode() {
    let expected = op("LDA", None, OpcodeMode::Address, byte(0x19));
    assert_eq!(parser::statement("LDA $19"), IResult::Done("", expected));
}

#[test]
fn parenthesized_sum_is_an_address() {
    let value = Expression::Binary(BinaryOperator::Add, Box::new(byte(0x19)), Box::new(num(2)));
    let expected = op("LDA", None, OpcodeMode::Address, value);
    assert_eq!(parser::statement("LDA ($19)+2"), IResult::Done("", expected));
}

#[test]
fn indirect_mode() {
    let expected = op("JMP", None, OpcodeMode::Indirect, byte(0x19));
    assert_eq!(parser::statement("JMP ($19)"), IResult::Done("", expected));
}

#[test]
fn indirect_y_mode() {
    let expected = op("LDA", None, OpcodeMode::IndirectY, byte(0x19));
    assert_eq!(parser::statement("LDA ($19),y"), IResult::Done("", expected));
    let expected = op("LDA", None, OpcodeMode::IndirectY, byte(0x19));
    assert_eq!(parser::statement(" LDA ( $19 ) , Y "), IResult::Done("", expected));
}

#[test]
fn x_indirect_mode() {
    let expected = op("LDA", None, OpcodeMode::XIndirect, byte(0x19));
    assert_eq!(parser::statement("LDA ($19,X)"), IResult::Done("", expected));
}

#[test]
fn stack_indirect_y_mode() {
    let expected = op("LDA", None, OpcodeMode::StackIndirectY, byte(0x03));
    assert_eq!(parser::statement("LDA ($03,s),y"), IResult::Done("", expected));
}

#[test]
fn long_indirect_modes() {
    let expected = op("LDA", None, OpcodeMode::LongIndirect, byte(0x19));
    assert_eq!(parser::statement("LDA [$19]"), IResult::Done("", expected));
    let expected = op("LDA", None, OpcodeMode::LongIndirectY, byte(0x19));
    assert_eq!(parser::statement("LDA [$19],Y"), IResult::Done("", expected));
}

#[test]
fn immediate_mode() {
    let value = Expression::Number(Number {
        value: 0x1000,
        width: NumberWidth::TwoBytes,
    });
    let expected = op("LDA", None, OpcodeMode::Immediate, value);
    assert_eq!(parser::statement("LDA #$1000"), IResult::Done("", expected));
}

#[test]
fn move_mode() {
    let expected = op("MVN", None, OpcodeMode::Move { second: byte(0x7f) }, byte(0x7e));
    assert_eq!(parser::statement("MVN $7E, $7F"), IResult::Done("", expected));
}

#[test]
fn width_suffixes() {
    let expected = op("LDA", Some(1), OpcodeMode::Address, num(1));
    assert_eq!(parser::statement("LDA.b 1"), IResult::Done("", expected));
    let expected = op("LDA", Some(2), OpcodeMode::Address, num(1));
    assert_eq!(parser::statement("LDA.W 1"), IResult::Done("", expected));
    let expected = op("JML", Some(3), OpcodeMode::Address, var("there"));
    assert_eq!(parser::statement("JML . l there"), IResult::Done("", expected));
}

#[test]
fn statement_without_operand_fails() {
    assert!(parser::statement("NOP").is_err());
    assert!(parser::statement("").is_err());
    assert!(parser::statement("123").is_err());
}

#[test]
fn assignment_statement() {
    let expected = Statement::Assignment(VariableName(String::from("hello")), num(44));
    assert_eq!(parser::assignment("hello = 44"), IResult::Done("", expected));
    assert!(parser::assignment("hello 44").is_err());
}

#[test]
fn identifiers() {
    assert_eq!(
        parser::identifier("世界"),
        IResult::Done("", String::from("世界"))
    );
    assert_eq!(
        parser::identifier("_a1 b"),
        IResult::Done(" b", String::from("_a1"))
    );
    assert_eq!(
        parser::identifier("!label+1"),
        IResult::Done("+1", String::from("!label"))
    );
    assert_eq!(
        parser::identifier("aé+"),
        IResult::Done("+", String::from("aé"))
    );
    assert!(parser::identifier("€x").is_err());
    assert!(parser::identifier("1abc").is_err());
    assert!(parser::identifier(" abc").is_err());
    assert!(parser::identifier("").is_err());
}
