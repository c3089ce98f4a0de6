use stackscript::engine::drive;
use stackscript::registry::create_root_vm;
use stackscript::vm::Effect;
use stackscript::vm::Failure;
use stackscript::vm::Vm;
use std::rc::Rc;

const FUEL: u64 = 1_000_000;

fn run(program: &str) -> Vm {
    let mut vm = create_root_vm(Vec::new());
    vm.push_source(program.as_bytes().to_vec());
    let r = drive(&mut vm, FUEL);
    assert!(r.is_ok(), "program failed: {:?}", program);
    vm
}

fn run_err(program: &str) -> (Vm, Failure) {
    let mut vm = create_root_vm(Vec::new());
    vm.push_source(program.as_bytes().to_vec());
    let r = drive(&mut vm, FUEL);
    match r {
        Ok(()) => panic!("program unexpectedly succeeded: {:?}", program),
        Err(f) => (vm, f),
    }
}

fn printed(vm: &Vm) -> Vec<u8> {
    let mut out = Vec::new();
    for e in vm.effects.iter() {
        if let Effect::Print(bytes) = e {
            out.extend_from_slice(bytes);
        }
    }
    out
}

fn top_int(vm: &Vm) -> num::BigInt {
    (**vm.ints.last().expect("integer stack is empty")).clone()
}

#[test]
fn prints_sum_in_decimal() {
    let vm = run("1 2 + String decimal Window print");
    assert_eq!(printed(&vm), b"3\n".to_vec());
}

#[test]
fn compiled_square() {
    let vm = run(": sq #dup * ; 7 sq String decimal Window print");
    assert_eq!(printed(&vm), b"49\n".to_vec());
}

#[test]
fn conditional_absolute_value() {
    let vm = run(": abs #dup 0 < if then 0 #swap - else end ; -5 abs String decimal Window print");
    assert_eq!(printed(&vm), b"5\n".to_vec());
}

#[test]
fn integer_variable_counts() {
    let vm = run("Var integer n 0 set:n : inc n 1 + set:n ; inc inc inc n String decimal Window print");
    assert_eq!(printed(&vm), b"3\n".to_vec());
}

#[test]
fn split_picks_first_piece() {
    let vm = run("\"hello,world\" ',' String split 0 @refs Window print");
    assert_eq!(printed(&vm), b"hello\n".to_vec());
}

#[test]
fn radix_literals_and_bit_and() {
    let vm = run("0b1010 0x0F #bit:and String decimal Window print");
    assert_eq!(printed(&vm), b"10\n".to_vec());
}

#[test]
fn loop_counts_down() {
    let vm = run(": loop:down #dup 0 > if then #dup String decimal Window print 1 - repeat end ; 3 loop:down");
    assert_eq!(printed(&vm), b"3\n2\n1\n".to_vec());
    assert_eq!(top_int(&vm), num::BigInt::from(0));
}

#[test]
fn arithmetic_on_big_operands() {
    let vm = run("123456789012345678901234567890 987654321098765432109876543210 * String decimal Window print");
    let a: num::BigInt = "123456789012345678901234567890".parse().unwrap();
    let b: num::BigInt = "987654321098765432109876543210".parse().unwrap();
    let mut expected = (a * b).to_string().into_bytes();
    expected.push(b'\n');
    assert_eq!(printed(&vm), expected);
}

#[test]
fn subtraction_can_go_negative() {
    let vm = run("3 5 - String decimal Window print");
    assert_eq!(printed(&vm), b"-2\n".to_vec());
}

#[test]
fn comparisons_yield_zero_or_one() {
    let vm = run("1 2 < 2 1 < 4 4 =");
    let ints: Vec<num::BigInt> = vm.ints.iter().map(|r| (**r).clone()).collect();
    assert_eq!(
        ints,
        vec![num::BigInt::from(1), num::BigInt::from(0), num::BigInt::from(1)]
    );
}

#[test]
fn dup_eq_is_one() {
    let vm = run("42 #dup =");
    assert_eq!(top_int(&vm), num::BigInt::from(1));
}

#[test]
fn swap_twice_is_identity() {
    let vm = run("1 2 #swap #swap");
    let ints: Vec<num::BigInt> = vm.ints.iter().map(|r| (**r).clone()).collect();
    assert_eq!(ints, vec![num::BigInt::from(1), num::BigInt::from(2)]);
}

#[test]
fn min_max_and_shifts() {
    let vm = run("3 5 #min 3 5 #max 1 4 #bit:shl -8 2 #bit:shr 6 3 #bit:or 6 3 #bit:xor");
    let ints: Vec<num::BigInt> = vm.ints.iter().map(|r| (**r).clone()).collect();
    assert_eq!(
        ints,
        vec![
            num::BigInt::from(3),
            num::BigInt::from(5),
            num::BigInt::from(16),
            num::BigInt::from(-2),
            num::BigInt::from(7),
            num::BigInt::from(5),
        ]
    );
}

#[test]
fn decimal_roundtrip_through_source() {
    // printing a number and feeding the text back as a token parses to the
    // same number
    let vm = run("-9876543210123456789 String decimal");
    let text = String::from_utf8(vm.objs.last().unwrap().data().clone()).unwrap();
    let vm2 = run(&text);
    assert_eq!(top_int(&vm2), "-9876543210123456789".parse().unwrap());
}

#[test]
fn char_and_string_literals() {
    let vm = run("'a' '\\n' '\\t' '\\r'");
    let ints: Vec<num::BigInt> = vm.ints.iter().map(|r| (**r).clone()).collect();
    assert_eq!(
        ints,
        vec![
            num::BigInt::from(97),
            num::BigInt::from(10),
            num::BigInt::from(9),
            num::BigInt::from(13),
        ]
    );
    let vm = run("\"abc\" @bytecount String decimal Window print");
    assert_eq!(printed(&vm), b"3\n".to_vec());
}

#[test]
fn underscores_and_signs_in_numbers() {
    let vm = run("1_000_000 +5 0o17 0x-0A");
    let ints: Vec<num::BigInt> = vm.ints.iter().map(|r| (**r).clone()).collect();
    assert_eq!(
        ints,
        vec![
            num::BigInt::from(1000000),
            num::BigInt::from(5),
            num::BigInt::from(15),
            num::BigInt::from(-10),
        ]
    );
}

#[test]
fn split_counts_pieces() {
    let vm = run("\"a,b,,c\" ',' String split @refcount String decimal Window print");
    assert_eq!(printed(&vm), b"4\n".to_vec());
}

#[test]
fn object_concat_and_slice() {
    let vm = run("\"ab\" \"cd\" @concat Window print");
    assert_eq!(printed(&vm), b"abcd\n".to_vec());
    let vm = run("\"abcdef\" 1 4 0 0 @slice Window print");
    assert_eq!(printed(&vm), b"bcd\n".to_vec());
}

#[test]
fn intoref_roundtrip() {
    let vm = run("\"x\" @intoref 0 @refs Window print");
    assert_eq!(printed(&vm), b"x\n".to_vec());
}

#[test]
fn byte_at_index() {
    let vm = run("\"abc\" 1 @byte String decimal Window print");
    assert_eq!(printed(&vm), b"98\n".to_vec());
}

#[test]
fn redefinition_shadows() {
    let vm = run(": f 1 ; : f 2 ; f String decimal Window print");
    assert_eq!(printed(&vm), b"2\n".to_vec());
}

#[test]
fn captured_body_stays_valid() {
    // g captures the first f at compile time; redefining f later does not
    // change g
    let vm = run(": f 1 ; : g f ; : f 2 ; g f + String decimal Window print");
    assert_eq!(printed(&vm), b"3\n".to_vec());
}

#[test]
fn else_branch_runs_on_zero() {
    let vm = run(": sign #dup 0 < if then \"neg\" Window print else \"pos\" Window print end ; 4 sign #drop -4 sign");
    assert_eq!(printed(&vm), b"pos\nneg\n".to_vec());
}

#[test]
fn top_level_conditional_is_anonymous() {
    let vm = run("1 if then \"yes\" Window print else end");
    assert_eq!(printed(&vm), b"yes\n".to_vec());
}

#[test]
fn deferred_word_splices_bodies() {
    // `?` splices the named word's body into the open definition, whatever
    // its immediate flag says
    let vm = run(": two 2 ; : four ? two ? two + ; four String decimal Window print");
    assert_eq!(printed(&vm), b"4\n".to_vec());
}

#[test]
fn reflective_definition_words() {
    let vm = run("\"five\" !begin 2 3 + ; five String decimal Window print");
    assert_eq!(printed(&vm), b"5\n".to_vec());
    let vm = run(": six 6 ; \"six\" !call String decimal Window print");
    assert_eq!(printed(&vm), b"6\n".to_vec());
}

#[test]
fn immediate_definition_runs_while_compiling() {
    // `:! hi` defines an immediate word; inside the later definition it runs
    // at compile time and its push is deferred into the body being built
    let vm = run(":! hi 7 !integer ; : seven hi ; seven String decimal Window print");
    assert_eq!(printed(&vm), b"7\n".to_vec());
}

#[test]
fn object_variable_holds_object() {
    let vm = run("Var object o \"hi\" set:o o Window print");
    assert_eq!(printed(&vm), b"hi\n".to_vec());
}

#[test]
fn runtime_source_extends_input() {
    // the program builds the text `8` and cannot push it itself, but the
    // host can: here we emulate it by two drives
    let mut vm = create_root_vm(Vec::new());
    vm.push_source(b"1".to_vec());
    drive(&mut vm, FUEL).unwrap();
    vm.push_source(b"2 +".to_vec());
    drive(&mut vm, FUEL).unwrap();
    assert_eq!(top_int(&vm), num::BigInt::from(3));
}

#[test]
fn arguments_arrive_as_objects() {
    let mut vm = create_root_vm(vec!["alpha".to_owned(), "beta".to_owned()]);
    vm.push_source(b"Window print Window print".to_vec());
    drive(&mut vm, FUEL).unwrap();
    assert_eq!(printed(&vm), b"beta\nalpha\n".to_vec());
}

#[test]
fn staged_event_and_size() {
    let mut vm = create_root_vm(Vec::new());
    vm.events.push(Rc::new(num::BigInt::from(134217825)));
    vm.term_size = Some((80, 24));
    vm.push_source(b"Sys Terminal wait String decimal Window print Sys Terminal size".to_vec());
    drive(&mut vm, FUEL).unwrap();
    assert_eq!(printed(&vm), b"134217825\n".to_vec());
    let ints: Vec<num::BigInt> = vm.ints.iter().map(|r| (**r).clone()).collect();
    assert_eq!(ints, vec![num::BigInt::from(80), num::BigInt::from(24)]);
}

#[test]
fn staged_file_read() {
    let mut vm = create_root_vm(Vec::new());
    vm.files.push((b"greeting.txt".to_vec(), b"hello".to_vec()));
    vm.push_source(b"\"greeting.txt\" Sys Fs read Window print".to_vec());
    drive(&mut vm, FUEL).unwrap();
    assert_eq!(printed(&vm), b"hello\n".to_vec());
}

#[test]
fn terminal_effects_queue_in_order() {
    let vm = run("Sys Terminal clear 3 4 Sys Terminal set-cursor \"x\" Sys Terminal print Sys Terminal flush");
    let kinds: Vec<String> = vm
        .effects
        .iter()
        .map(|e| match e {
            Effect::Print(v) => format!("print:{:?}", v),
            Effect::Clear => "clear".to_owned(),
            Effect::ClearLine => "clear-line".to_owned(),
            Effect::SetCursor(x, y) => format!("cursor:{},{}", x, y),
            Effect::Flush => "flush".to_owned(),
        })
        .collect();
    assert_eq!(
        kinds,
        vec![
            "clear".to_owned(),
            "cursor:3,4".to_owned(),
            format!("print:{:?}", b"x".to_vec()),
            "flush".to_owned(),
        ]
    );
}

#[test]
fn unknown_word_fails() {
    let (_, f) = run_err("definitely:not:a:word");
    assert!(matches!(f, Failure::Unknown(s) if s == "definitely:not:a:word"));
}

#[test]
fn underflow_fails() {
    let (_, f) = run_err("+");
    assert!(matches!(f, Failure::Underflow));
}

#[test]
fn negative_shift_fails() {
    let (_, f) = run_err("1 -1 #bit:shl");
    assert!(matches!(f, Failure::Convert));
}

#[test]
fn stray_semicolon_fails() {
    let (_, f) = run_err(";");
    assert!(matches!(f, Failure::CompileState));
}

#[test]
fn nested_conditional_fails() {
    let (_, f) = run_err(": bad if if");
    assert!(matches!(f, Failure::CompileState));
}

#[test]
fn colon_at_end_of_input_fails() {
    let (_, f) = run_err(":");
    assert!(matches!(f, Failure::Eoi));
}

#[test]
fn user_panic_carries_message() {
    let (_, f) = run_err("\"boom\" Sys panic");
    assert!(matches!(f, Failure::User(m) if m == b"boom".to_vec()));
}

#[test]
fn wait_without_staged_event_fails() {
    let (_, f) = run_err("Sys Terminal wait");
    assert!(matches!(f, Failure::NeedEvent));
}

#[test]
fn size_without_staged_size_fails() {
    let (_, f) = run_err("Window size");
    assert!(matches!(f, Failure::NeedSize));
}

#[test]
fn file_read_without_staged_file_fails() {
    let (_, f) = run_err("\"nothing.txt\" Sys Fs read");
    assert!(matches!(f, Failure::NeedFile(p) if p == b"nothing.txt".to_vec()));
}

#[test]
fn invalid_utf8_word_fails() {
    let mut vm = create_root_vm(Vec::new());
    vm.push_source(vec![0xFF, 0xFE]);
    let r = drive(&mut vm, FUEL);
    assert!(matches!(r, Err(Failure::Lex)));
}

#[test]
fn fuel_exhaustion_is_reported() {
    let mut vm = create_root_vm(Vec::new());
    vm.push_source(b"1 2 +".to_vec());
    let r = drive(&mut vm, 0);
    assert!(matches!(r, Err(Failure::Depth)));
}

#[test]
fn whitespace_variants_separate_words() {
    let vm = run("1\t2\n3\r4");
    assert_eq!(vm.ints.len(), 4);
    assert_eq!(top_int(&vm), num::BigInt::from(4));
}

#[test]
fn hand_built_cell_word_reports_missing_cell() {
    let mut vm = create_root_vm(Vec::new());
    let w = stackscript::words::Word {
        body: Rc::new(stackscript::words::Body::Prim(stackscript::words::Prim::VarGetInt(3))),
        immediate: false,
    };
    let r = stackscript::engine::exec_word(&mut vm, &w, FUEL);
    assert!(matches!(r, Err(Failure::BadCell)));
}

#[test]
fn wait_resumes_the_asking_word() {
    let mut vm = create_root_vm(Vec::new());
    vm.push_source(b"Sys Terminal wait 1 + String decimal Window print".to_vec());
    let r = drive(&mut vm, FUEL);
    assert!(matches!(r, Err(Failure::NeedEvent)));
    vm.events.push(Rc::new(num::BigInt::from(41)));
    drive(&mut vm, FUEL).unwrap();
    assert_eq!(printed(&vm), b"42\n".to_vec());
}

#[test]
fn wait_inside_compiled_body_resumes() {
    // the request winds the machine back to the start of the word that
    // asked, so the whole body re-runs once the event is staged, and the
    // printed output is not duplicated
    let mut vm = create_root_vm(Vec::new());
    vm.push_source(
        b"\"go\" Window print : ask Sys Terminal wait 1 + String decimal Window print ; ask"
            .to_vec(),
    );
    let r = drive(&mut vm, FUEL);
    assert!(matches!(r, Err(Failure::NeedEvent)));
    vm.events.push(Rc::new(num::BigInt::from(9)));
    drive(&mut vm, FUEL).unwrap();
    assert_eq!(printed(&vm), b"go\n10\n".to_vec());
}

#[test]
fn file_read_resumes() {
    let mut vm = create_root_vm(Vec::new());
    vm.push_source(b"\"data.txt\" Sys Fs read Window print".to_vec());
    let r = drive(&mut vm, FUEL);
    assert!(matches!(r, Err(Failure::NeedFile(p)) if p == b"data.txt".to_vec()));
    vm.files.push((b"data.txt".to_vec(), b"contents".to_vec()));
    drive(&mut vm, FUEL).unwrap();
    assert_eq!(printed(&vm), b"contents\n".to_vec());
}

#[test]
fn size_query_resumes() {
    let mut vm = create_root_vm(Vec::new());
    vm.push_source(b"Window size + String decimal Window print".to_vec());
    let r = drive(&mut vm, FUEL);
    assert!(matches!(r, Err(Failure::NeedSize)));
    vm.term_size = Some((80, 24));
    drive(&mut vm, FUEL).unwrap();
    assert_eq!(printed(&vm), b"104\n".to_vec());
}

#[test]
fn host_registers_namespaced_words() {
    let mut vm = create_root_vm(Vec::new());
    let hello = stackscript::words::Word {
        body: Rc::new(stackscript::words::Body::Block(Rc::new(vec![
            stackscript::registry::prim_word(
                stackscript::words::Prim::PushObj(Rc::new(
                    stackscript::Object::from_bytes(b"hi".to_vec()),
                )),
                true,
            ),
            stackscript::registry::prim_word(stackscript::words::Prim::EmitPrintLn, true),
        ]))),
        immediate: false,
    };
    let table = vec![("greet".to_owned(), hello)];
    vm.dict
        .define("App".to_owned(), stackscript::registry::named_word(table));
    vm.push_source(b"App greet".to_vec());
    drive(&mut vm, FUEL).unwrap();
    assert_eq!(printed(&vm), b"hi\n".to_vec());
}
