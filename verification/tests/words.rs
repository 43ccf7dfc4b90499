use brilift::args::{convert_argument, convert_main_args, parse_char, parse_int, ArgError, MainArg};
use brilift::c_runtime;
use brilift::model::{BrilType, Param};
use brilift::native::{Literal, NativeType, RuntimeFn};
use brilift::opt_level::OptLevel;
use brilift::lower::DeclKind;
use brilift::runtime::{all_routines, signature, symbol, symbol_name};
use brilift::wrapper::record_of;
use brilift::target::{host_pointer_bytes, target_pointer_bytes};
use brilift::text::str_equal;
use brilift::translator::{first_type_mismatch, literal_type_of, Translator};
use std::str::FromStr;

fn params(types: Vec<BrilType>) -> Vec<Param> {
    types.into_iter().enumerate().map(|(i, ty)| Param { name: format!("p{}", i), ty }).collect()
}

fn words(texts: &[&str]) -> Vec<MainArg> {
    texts.iter().map(|t| MainArg { text: String::from(*t), float_bits: None }).collect()
}

#[test]
fn integer_and_boolean_words_are_converted() {
    let declared = params(vec![BrilType::Int, BrilType::Bool]);
    assert_eq!(
        convert_main_args(&declared, &words(&["42", "true"])),
        Ok(vec![Literal::Int(42), Literal::Bool(true)])
    );
    assert_eq!(
        convert_main_args(&declared, &words(&["42", "nope"])),
        Ok(vec![Literal::Int(42), Literal::Bool(false)])
    );
}

#[test]
fn anything_but_true_is_false() {
    for word in ["false", "True", "TRUE", "1", "", " true", "true "] {
        assert_eq!(
            convert_argument(&BrilType::Bool, &words(&[word])[0], 0),
            Ok(Literal::Bool(false))
        );
    }
}

#[test]
fn wrong_number_of_words_is_rejected() {
    let declared = params(vec![BrilType::Int, BrilType::Bool]);
    assert_eq!(
        convert_main_args(&declared, &words(&["42"])),
        Err(ArgError::CountMismatch { expected: 2, got: 1 })
    );
    assert_eq!(
        convert_main_args(&declared, &words(&["1", "true", "extra"])),
        Err(ArgError::CountMismatch { expected: 2, got: 3 })
    );
    assert_eq!(convert_main_args(&vec![], &vec![]), Ok(vec![]));
}

#[test]
fn integers_are_read_like_the_standard_library_reads_them() {
    let cases = [
        "0", "7", "42", "-42", "+42", "007", "-0", "+0", "9223372036854775807",
        "9223372036854775808", "-9223372036854775808", "-9223372036854775809",
        "99999999999999999999999999", "-99999999999999999999999999", "", "+", "-", "--1", "+-1",
        "1_000", " 1", "1 ", "0x10", "1e3", "1.0", "١٢", "12a", "a12",
    ];
    for word in cases {
        assert_eq!(parse_int(word), i64::from_str(word).ok(), "{:?}", word);
    }
    assert_eq!(parse_int("-9223372036854775808"), Some(i64::MIN));
    assert_eq!(parse_int("9223372036854775807"), Some(i64::MAX));
    assert_eq!(parse_int("9223372036854775808"), None);
}

#[test]
fn characters_are_exactly_one_code_point() {
    assert_eq!(parse_char("a"), Some('a'));
    assert_eq!(parse_char("é"), Some('é'));
    assert_eq!(parse_char("😀"), Some('😀'));
    assert_eq!(parse_char(""), None);
    assert_eq!(parse_char("ab"), None);
    assert_eq!(parse_char("e\u{301}"), None);
    for word in ["a", "é", "", "ab"] {
        assert_eq!(parse_char(word), char::from_str(word).ok());
    }
}

#[test]
fn every_kind_of_word_failure_is_told_apart() {
    let declared = params(vec![
        BrilType::Int,
        BrilType::Float,
        BrilType::Char,
        BrilType::Pointer(Box::new(BrilType::Int)),
    ]);
    let mut given = words(&["1", "1.5", "c", "0"]);
    assert_eq!(convert_main_args(&declared, &given), Err(ArgError::InvalidFloat { index: 1 }));
    given[1].float_bits = Some(0x3ff8_0000_0000_0000);
    assert_eq!(convert_main_args(&declared, &given), Err(ArgError::UnsupportedType { index: 3 }));
    given[2].text = String::from("cc");
    assert_eq!(convert_main_args(&declared, &given), Err(ArgError::InvalidChar { index: 2 }));
    given[0].text = String::from("one");
    assert_eq!(convert_main_args(&declared, &given), Err(ArgError::InvalidInt { index: 0 }));
    assert_eq!(
        convert_argument(&BrilType::Float, &MainArg { text: String::from("1.5"), float_bits: Some(7) }, 0),
        Ok(Literal::Float(7))
    );
    assert_eq!(convert_argument(&BrilType::Char, &words(&["x"])[0], 4), Ok(Literal::Char('x')));
}

#[test]
fn literals_have_the_type_of_their_kind() {
    assert_eq!(literal_type_of(&Literal::Int(0)), NativeType::I64);
    assert_eq!(literal_type_of(&Literal::Bool(true)), NativeType::I8);
    assert_eq!(literal_type_of(&Literal::Float(0)), NativeType::F64);
    assert_eq!(literal_type_of(&Literal::Char('a')), NativeType::I32);
    assert_eq!(
        first_type_mismatch(
            &vec![NativeType::I64, NativeType::I8, NativeType::I32],
            &vec![Literal::Int(1), Literal::Bool(true), Literal::Float(1)]
        ),
        Some(2)
    );
    assert_eq!(first_type_mismatch(&vec![NativeType::F64], &vec![Literal::Float(1)]), None);
}

#[test]
fn optimization_levels_have_names() {
    assert_eq!(OptLevel::Off.to_str(), "none");
    assert_eq!(OptLevel::Speed.to_str(), "speed");
    assert_eq!(OptLevel::SpeedAndSize.to_str(), "speed_and_size");
    for level in [OptLevel::Off, OptLevel::Speed, OptLevel::SpeedAndSize] {
        assert_eq!(OptLevel::parse(level.to_str()), Ok(level));
        assert_eq!(OptLevel::from_str(level.to_str()), Ok(level));
    }
    assert_eq!(OptLevel::parse("fast"), Err(String::from("unknown optimization level fast")));
    assert_eq!("".parse::<OptLevel>(), Err(String::from("unknown optimization level ")));
    assert_eq!(OptLevel::parse("Speed"), Err(String::from("unknown optimization level Speed")));
}

#[test]
fn strings_are_compared_by_their_characters() {
    assert!(str_equal("", ""));
    assert!(str_equal("héllo", "héllo"));
    assert!(!str_equal("hello", "hellp"));
    assert!(!str_equal("hello", "hell"));
    assert!(!str_equal("é", "e"));
}

#[test]
fn runtime_source_defines_every_routine() {
    let source = c_runtime();
    let routines = all_routines();
    assert_eq!(routines.len(), 14);
    for routine in routines {
        let name = symbol(routine);
        assert!(name.starts_with("_bril_"));
        assert!(source.contains(&format!("{}(", name)), "{} is missing", name);
    }
    assert!(!source.contains('#'));
}

#[test]
fn runtime_routines_have_fixed_signatures() {
    assert_eq!(symbol(RuntimeFn::PrintInt), "_bril_print_int");
    assert_eq!(symbol(RuntimeFn::Release), "_bril_free");
    assert_eq!(symbol(RuntimeFn::CheckArgumentCount), "_bril_check_args");
    let allocate = signature(RuntimeFn::Allocate);
    assert_eq!(allocate.params, vec![NativeType::I64, NativeType::I64]);
    assert_eq!(allocate.ret, Some(NativeType::Ptr));
    let check = signature(RuntimeFn::CheckArgumentCount);
    assert_eq!(check.params, vec![NativeType::I32, NativeType::I64]);
    assert_eq!(check.ret, None);
    let parse = signature(RuntimeFn::ParseChar);
    assert_eq!(parse.params, vec![NativeType::Ptr, NativeType::I64]);
    assert_eq!(parse.ret, Some(NativeType::I32));
    assert_eq!(signature(RuntimeFn::ParseFloat).ret, Some(NativeType::F64));
    assert_eq!(signature(RuntimeFn::ParseBool).ret, Some(NativeType::I8));
    assert_eq!(signature(RuntimeFn::ParseInt).ret, Some(NativeType::I64));
    assert_eq!(signature(RuntimeFn::PrintFloat).params, vec![NativeType::F64]);
    assert_eq!(signature(RuntimeFn::PrintBool).params, vec![NativeType::I8]);
    assert_eq!(signature(RuntimeFn::PrintChar).params, vec![NativeType::I32]);
    assert_eq!(signature(RuntimeFn::PrintPointer).params, vec![NativeType::Ptr]);
    assert!(signature(RuntimeFn::PrintSeparator).params.is_empty());
    assert!(signature(RuntimeFn::PrintEnd).params.is_empty());
    assert_eq!(signature(RuntimeFn::Release).params, vec![NativeType::Ptr]);
}

#[test]
fn targets_are_looked_up_in_the_code_generator() {
    let width = std::mem::size_of::<usize>();
    assert_eq!(target_pointer_bytes(&None).map(|b| b as usize), Some(width));
    assert_eq!(target_pointer_bytes(&Some(String::from("not a triple"))), None);
    assert_eq!(target_pointer_bytes(&Some(String::from(""))), None);
    assert_eq!(target_pointer_bytes(&Some(String::from("unknown-unknown-unknown"))), None);
    assert_eq!(target_pointer_bytes(&Some(String::from("x86_64-unknown-linux-gnu"))), Some(8));
    assert_eq!(target_pointer_bytes(&Some(String::from("aarch64-apple-darwin"))), Some(8));
    assert_eq!(target_pointer_bytes(&Some(String::from("riscv64gc-unknown-linux-gnu"))), Some(8));
    assert_eq!(target_pointer_bytes(&Some(String::from("x86_64-unknown-linux-gnux32"))), Some(4));
    assert_eq!(target_pointer_bytes(&Some(String::from("i686-unknown-linux-gnu"))), Some(4));
    assert_eq!(target_pointer_bytes(&Some(String::from("wasm32-unknown-unknown"))), Some(4));
    assert_eq!(target_pointer_bytes(&Some(String::from("avr-unknown-unknown"))), Some(2));
    let host = Translator::for_target(&None, OptLevel::SpeedAndSize).unwrap();
    assert_eq!(host.pointer_bytes as usize, width);
    assert_eq!(host.opt_level, OptLevel::SpeedAndSize);
    assert!(host.table.is_empty() && host.actions.is_empty());
    assert!(Translator::for_target(&Some(String::from("???")), OptLevel::Off).is_none());
}

#[test]
fn symbols_keep_functions_entries_and_routines_apart() {
    let main = String::from("main");
    assert_eq!(symbol_name(DeclKind::Function, &main), "_bril_fn_main");
    assert_eq!(symbol_name(DeclKind::MemoryEntry, &main), "_bril_mem_main");
    assert_eq!(symbol_name(DeclKind::ProcessEntry, &main), "main");
    assert_eq!(symbol_name(DeclKind::Function, &String::new()), "_bril_fn_");
    let tricky = ["main", "mem_main", "fn_main", "print_int", "free", "_bril_fn_main"];
    let mut seen: Vec<String> = all_routines().into_iter().map(|r| String::from(symbol(r))).collect();
    seen.push(String::from("main"));
    for word in tricky {
        for kind in [DeclKind::Function, DeclKind::MemoryEntry] {
            let name = symbol_name(kind, &String::from(word));
            assert!(!seen.contains(&name), "{} is taken twice", name);
            seen.push(name);
        }
    }
}

#[test]
fn argument_records_hold_a_tag_and_a_value() {
    assert_eq!(record_of(&Literal::Int(42)), (0, 42));
    assert_eq!(record_of(&Literal::Int(-1)), (0, u64::MAX));
    assert_eq!(record_of(&Literal::Int(i64::MIN)), (0, 1 << 63));
    assert_eq!(record_of(&Literal::Bool(true)), (1, 1));
    assert_eq!(record_of(&Literal::Bool(false)), (1, 0));
    assert_eq!(record_of(&Literal::Float(0x4045_0000_0000_0000)), (2, 0x4045_0000_0000_0000));
    assert_eq!(record_of(&Literal::Char('A')), (3, 65));
    assert_eq!(record_of(&Literal::Char('\u{10FFFF}')), (3, 0x10FFFF));
}

#[test]
fn host_width_needs_a_backend() {
    assert_eq!(host_pointer_bytes(true, Some(8)), Some(8));
    assert_eq!(host_pointer_bytes(true, Some(4)), Some(4));
    assert_eq!(host_pointer_bytes(true, None), None);
    assert_eq!(host_pointer_bytes(false, Some(8)), None);
    assert_eq!(host_pointer_bytes(false, None), None);
}

#[test]
fn sessions_are_made_for_a_known_width_only() {
    let narrow = Translator::for_width(Some(4), OptLevel::Speed).unwrap();
    assert_eq!(narrow.pointer_bytes, 4);
    assert_eq!(narrow.opt_level, OptLevel::Speed);
    assert!(narrow.table.is_empty() && narrow.actions.is_empty() && narrow.arguments.is_empty());
    assert!(Translator::for_width(None, OptLevel::Speed).is_none());
    let named = Some(String::from("i686-unknown-linux-gnu"));
    assert_eq!(Translator::for_target(&named, OptLevel::Off).unwrap().pointer_bytes, 4);
    let wide = Some(String::from("s390x-unknown-linux-gnu"));
    assert_eq!(Translator::for_target(&wide, OptLevel::Off).unwrap().pointer_bytes, 8);
    assert_eq!("speed".parse::<OptLevel>(), Ok(OptLevel::Speed));
    assert_eq!(
        "Speed ".parse::<OptLevel>(),
        Err(String::from("unknown optimization level Speed "))
    );
}
