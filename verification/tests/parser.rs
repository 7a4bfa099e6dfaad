use mzdbg::debugger::{Ast, Command, ParseErrorKind, PrintTarget};
use mzdbg::engine::Reg;

#[test]
fn address_bare_hex() {
    assert_eq!(Ast::parse_addr(b"10"), Some(0x10));
    assert_eq!(Ast::parse_addr(b"ff"), Some(0xff));
    assert_eq!(Ast::parse_addr(b"DEADbeef"), Some(0xDEADBEEF));
}

#[test]
fn address_segment_offset() {
    // segment 0x10, offset 0x20: linear 0x10 * 16 + 0x20 = 0x120
    assert_eq!(Ast::parse_addr(b"10:20"), Some(0x120));
    assert_eq!(Ast::parse_addr(b"0:0"), Some(0));
}

#[test]
fn address_rejects_garbage() {
    assert_eq!(Ast::parse_addr(b""), None);
    assert_eq!(Ast::parse_addr(b"xyz"), None);
    assert_eq!(Ast::parse_addr(b"10:"), None);
    assert_eq!(Ast::parse_addr(b":20"), None);
    assert_eq!(Ast::parse_addr(b"1g"), None);
}

#[test]
fn simple_script_parses() {
    let ast = Ast::new("r\nn\nc\nlogon\nlogoff\nb 10\nq\n").unwrap();
    assert_eq!(ast.commands.len(), 7);
    assert!(matches!(ast.commands[0], Command::Run));
    assert!(matches!(ast.commands[1], Command::Step));
    assert!(matches!(ast.commands[2], Command::Continue));
    assert!(matches!(ast.commands[3], Command::SetVerbose(true)));
    assert!(matches!(ast.commands[4], Command::SetVerbose(false)));
    assert!(matches!(ast.commands[5], Command::SetBreak(0x10)));
    assert!(matches!(ast.commands[6], Command::Quit));
}

#[test]
fn long_forms_parse() {
    let ast = Ast::new("run\nnext\ncontinue\nbreak 1:2\nquit\nexit\n").unwrap();
    assert_eq!(ast.commands.len(), 6);
    assert!(matches!(ast.commands[0], Command::Run));
    assert!(matches!(ast.commands[1], Command::Step));
    assert!(matches!(ast.commands[2], Command::Continue));
    assert!(matches!(ast.commands[3], Command::SetBreak(0x12)));
    assert!(matches!(ast.commands[4], Command::Quit));
    assert!(matches!(ast.commands[5], Command::Quit));
}

#[test]
fn comments_and_blank_lines_are_ignored() {
    let ast = Ast::new("# a comment\n\n   \nr\n# another\n").unwrap();
    assert_eq!(ast.commands.len(), 1);
    assert!(matches!(ast.commands[0], Command::Run));
}

#[test]
fn print_forms() {
    let ast = Ast::new("p\nprint\np 10\np 10:20\np ds:dx\n").unwrap();
    assert_eq!(ast.commands.len(), 5);
    assert!(matches!(ast.commands[0], Command::Print(None)));
    assert!(matches!(ast.commands[1], Command::Print(None)));
    assert!(matches!(ast.commands[2], Command::Print(Some(PrintTarget::Linear(0x10)))));
    assert!(matches!(ast.commands[3], Command::Print(Some(PrintTarget::Linear(0x120)))));
    assert!(matches!(
        ast.commands[4],
        Command::Print(Some(PrintTarget::Registers(Reg::Ds, Reg::Dx)))
    ));
}

#[test]
fn print_bad_target_is_address_error() {
    let err = Ast::new("p zz:qq\n").unwrap_err();
    assert_eq!(err.kind, ParseErrorKind::BadAddress);
    assert_eq!(err.line, 1);
}

#[test]
fn while_block_parses() {
    let ast = Ast::new("while break 100 {\nn\np\n}\nr\n").unwrap();
    assert_eq!(ast.commands.len(), 2);
    match &ast.commands[0] {
        Command::LoopUntilBreak { addr, body } => {
            assert_eq!(*addr, 0x100);
            assert_eq!(body.len(), 2);
            assert!(matches!(body[0], Command::Step));
            assert!(matches!(body[1], Command::Print(None)));
        }
        other => panic!("expected a loop block, got {:?}", other),
    }
    assert!(matches!(ast.commands[1], Command::Run));
}

#[test]
fn nested_while_blocks_parse() {
    let ast = Ast::new("while break 100 {\nwhile break 200 {\nn\n}\n}\n").unwrap();
    assert_eq!(ast.commands.len(), 1);
    match &ast.commands[0] {
        Command::LoopUntilBreak { addr, body } => {
            assert_eq!(*addr, 0x100);
            assert_eq!(body.len(), 1);
            match &body[0] {
                Command::LoopUntilBreak { addr, body } => {
                    assert_eq!(*addr, 0x200);
                    assert_eq!(body.len(), 1);
                    assert!(matches!(body[0], Command::Step));
                }
                other => panic!("expected a nested loop block, got {:?}", other),
            }
        }
        other => panic!("expected a loop block, got {:?}", other),
    }
}

#[test]
fn unterminated_block_is_a_block_termination_error() {
    let err = Ast::new("while break 100 { \n").unwrap_err();
    assert_eq!(err.kind, ParseErrorKind::UnterminatedBlock);
    assert_eq!(err.line, 1);
}

#[test]
fn unterminated_block_reports_its_header_line() {
    let err = Ast::new("r\nn\nwhile break 100 {\nn\n").unwrap_err();
    assert_eq!(err.kind, ParseErrorKind::UnterminatedBlock);
    assert_eq!(err.line, 3);
}

#[test]
fn unknown_command_reports_its_line() {
    let err = Ast::new("r\nfrobnicate\n").unwrap_err();
    assert_eq!(err.kind, ParseErrorKind::UnknownCommand);
    assert_eq!(err.line, 2);
}

#[test]
fn stray_block_end_is_unknown() {
    let err = Ast::new("}\n").unwrap_err();
    assert_eq!(err.kind, ParseErrorKind::UnknownCommand);
    assert_eq!(err.line, 1);
}

#[test]
fn while_requires_four_parts() {
    let err = Ast::new("while break 100\n").unwrap_err();
    assert_eq!(err.kind, ParseErrorKind::BadWhile);
}

#[test]
fn while_requires_break_keyword() {
    let err = Ast::new("while step 100 {\nn\n}\n").unwrap_err();
    assert_eq!(err.kind, ParseErrorKind::BadWhile);
}

#[test]
fn while_requires_hex_address() {
    let err = Ast::new("while break zz {\nn\n}\n").unwrap_err();
    assert_eq!(err.kind, ParseErrorKind::BadAddress);
}

#[test]
fn break_requires_hex_address() {
    let err = Ast::new("b zz\n").unwrap_err();
    assert_eq!(err.kind, ParseErrorKind::BadAddress);
}

#[test]
fn empty_script_parses_to_nothing() {
    let ast = Ast::new("").unwrap();
    assert_eq!(ast.commands.len(), 0);
}
