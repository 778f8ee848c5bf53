use bfjit::ir::{parse, BrainfuckIR, ParseError};

#[test]
fn blank_source_parses_empty() {
    let src = b" \n\t  hello this is a comment! \n".to_vec();
    let ir = parse(&src).unwrap();
    assert_eq!(ir, Vec::<BrainfuckIR>::new());
}

#[test]
fn empty_source_parses_empty() {
    let ir = parse(&Vec::new()).unwrap();
    assert!(ir.is_empty());
}

#[test]
fn plus_run_folds() {
    let ir = parse(&b"+++++".to_vec()).unwrap();
    assert_eq!(ir, vec![BrainfuckIR::AddVal(5)]);
}

#[test]
fn minus_run_folds() {
    let ir = parse(&b"---".to_vec()).unwrap();
    assert_eq!(ir, vec![BrainfuckIR::SubVal(3)]);
}

#[test]
fn right_run_folds() {
    let ir = parse(&b">>>>".to_vec()).unwrap();
    assert_eq!(ir, vec![BrainfuckIR::PtrMovRight(4)]);
}

#[test]
fn left_run_folds() {
    let ir = parse(&b"<<".to_vec()).unwrap();
    assert_eq!(ir, vec![BrainfuckIR::PtrMovLeft(2)]);
}

#[test]
fn run_of_256_truncates_to_zero() {
    let src = vec![b'+'; 256];
    let ir = parse(&src).unwrap();
    assert_eq!(ir, vec![BrainfuckIR::AddVal(0)]);
}

#[test]
fn run_interrupted_by_comment_still_folds() {
    let ir = parse(&b"++ comment ++".to_vec()).unwrap();
    assert_eq!(ir, vec![BrainfuckIR::AddVal(4)]);
}

#[test]
fn alternating_ops_do_not_fuse() {
    let ir = parse(&b"+-+".to_vec()).unwrap();
    assert_eq!(
        ir,
        vec![
            BrainfuckIR::AddVal(1),
            BrainfuckIR::SubVal(1),
            BrainfuckIR::AddVal(1)
        ]
    );
}

#[test]
fn io_ops_parse() {
    let ir = parse(&b".,".to_vec()).unwrap();
    assert_eq!(ir, vec![BrainfuckIR::PutByte, BrainfuckIR::GetByte]);
}

#[test]
fn loops_nest() {
    let ir = parse(&b"+[>[-]<]".to_vec()).unwrap();
    assert_eq!(
        ir,
        vec![
            BrainfuckIR::AddVal(1),
            BrainfuckIR::Loop(vec![
                BrainfuckIR::PtrMovRight(1),
                BrainfuckIR::Loop(vec![BrainfuckIR::SubVal(1)]),
                BrainfuckIR::PtrMovLeft(1),
            ]),
        ]
    );
}

#[test]
fn empty_loop_parses() {
    let ir = parse(&b"[]".to_vec()).unwrap();
    assert_eq!(ir, vec![BrainfuckIR::Loop(Vec::new())]);
}

#[test]
fn unmatched_open_is_error() {
    assert_eq!(parse(&b"+[".to_vec()), Err(ParseError::UnmatchedOpen));
}

#[test]
fn unmatched_close_is_error() {
    assert_eq!(parse(&b"+]".to_vec()), Err(ParseError::UnmatchedClose));
}

#[test]
fn close_before_open_is_error() {
    assert_eq!(parse(&b"][".to_vec()), Err(ParseError::UnmatchedClose));
}

#[test]
fn hello_world_parses() {
    let src = b"++++++++[>++++[>++>+++>+++>+<<<<-]>+>+>->>+[<]<-]>>.>---.+++++++..+++.>>.<-.<.+++.------.--------.>>+.>++.".to_vec();
    let ir = parse(&src).unwrap();
    assert_eq!(ir[0], BrainfuckIR::AddVal(8));
    assert!(matches!(ir[1], BrainfuckIR::Loop(_)));
}
