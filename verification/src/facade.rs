//! The compilation facade: what has to happen, from start to end, to compile
//! a program ahead of time or to run it just in time.

use crate::args::{arg_views, convert_main_args, main_args_of, MainArg, MainArgView};
use crate::laws::{fits, lemma_compile_onto, lemma_settings_change_no_code, program_fits};
use crate::lower::DeclKind;
use crate::model::{first_index, Program, ProgramView};
use crate::opt_level::OptLevel;
use crate::target::triple_pointer_bytes;
use crate::translator::{aborts, agrees, find_func, function_names};
use crate::translator::{lemma_entry_resolves, Outcome, TranslateError};
use crate::translator::{Translator, TranslatorView};
use vstd::prelude::*;

verus! {

/// The position of `main` among the functions of a program.
pub open spec fn main_index(program: ProgramView) -> Option<int> {
    first_index(function_names(program), "main"@)
}

/// Compiling a program ahead of time in a session: the program is compiled,
/// `main` gets a process entry if the program has a `main`, and everything is
/// finalized and written out. A program without `main` is written out
/// without any entry.
pub open spec fn compile_onto(session: TranslatorView, program: ProgramView, dump_ir: bool) -> Outcome {
    let compiled = session.compile_prog(program, dump_ir);
    if compiled.error is Some {
        compiled
    } else if main_index(program) is None {
        compiled.session.emit().ok()
    } else {
        let entered = compiled.session.add_entry(DeclKind::ProcessEntry, "main"@, dump_ir);
        if entered.error is Some {
            entered
        } else {
            entered.session.emit().ok()
        }
    }
}

/// Compiling a program ahead of time in a session of its own, for a target
/// whose addresses take `pointer_bytes` bytes.
pub open spec fn compile_spec(
    program: ProgramView,
    pointer_bytes: u8,
    opt_level: OptLevel,
    dump_ir: bool,
) -> Outcome {
    compile_onto(TranslatorView::new(pointer_bytes, opt_level), program, dump_ir)
}

/// Compiling and running a program in a session. With `swap`, every function
/// of the program is first made redefinable. The program is compiled and
/// finalized; if it has a `main`, `main` gets a memory entry, which is
/// finalized, the words of the command line are converted, and the entry is
/// invoked by name.
pub open spec fn jit_run_spec(
    session: TranslatorView,
    program: ProgramView,
    args: Seq<MainArgView>,
    dump_ir: bool,
    swap: bool,
) -> Outcome {
    let prepared = if swap {
        session.redefine_all(program.functions, program.functions.len() as int)
    } else {
        session.ok()
    };
    if prepared.error is Some {
        prepared
    } else {
        let compiled = prepared.session.compile_prog(program, dump_ir);
        if compiled.error is Some {
            compiled
        } else {
            let ready = compiled.session.finalize();
            match main_index(program) {
                None => ready.ok(),
                Some(m) => {
                    let entered = ready.add_entry(DeclKind::MemoryEntry, "main"@, dump_ir);
                    if entered.error is Some {
                        entered
                    } else {
                        let linked = entered.session.finalize();
                        match main_args_of(program.functions[m].params, args) {
                            Err(e) => linked.fail(TranslateError::Arguments(e)),
                            Ok(literals) => linked.run_func_by_name("main"@, literals),
                        }
                    }
                },
            }
        }
    }
}

/// Why a program was not compiled ahead of time.
#[derive(Clone, Copy, Debug, PartialEq, Eq, Structural)]
pub enum CompileError {
    /// The optimization level is none of `none`, `speed`, `speed_and_size`.
    UnknownOptLevel,
    /// The target triple cannot be read, or the width of its addresses is
    /// not known, or the host is none that code can be generated for.
    UnknownTarget,
    /// The program cannot be translated.
    Translate(TranslateError),
}

/// Whether a number of bytes is the width of an address on some target.
pub open spec fn is_pointer_width(bytes: u8) -> bool {
    bytes == 2 || bytes == 4 || bytes == 8
}

/// Whether a program can be translated: compiled ahead of time in a fresh
/// session, for whatever width of addresses, it does not stop for a reason
/// that ends the process.
pub open spec fn translatable(program: ProgramView) -> bool {
    forall|bytes: u8|
        is_pointer_width(bytes) ==> !aborts(
            (#[trigger] compile_spec(program, bytes, OptLevel::Off, false)).error,
        )
}

/// Compiles a program ahead of time in a session, whatever the program is.
fn attempt_compile(trans: Translator, program: &Program, dump_ir: bool) -> (r: Result<
    Translator,
    TranslateError,
>)
    ensures
        match compile_onto(trans@, program@, dump_ir).error {
            None => r is Ok && r.unwrap()@ == compile_onto(trans@, program@, dump_ir).session,
            Some(e) => r is Err && r.unwrap_err() == e,
        },
{
    let mut trans = trans;
    match trans.compile_prog(program, dump_ir) {
        Ok(()) => {},
        Err(e) => {
            return Err(e);
        },
    }
    let name = String::from_str("main");
    assert(Seq::new(program.functions@.len(), |i: int| program.functions@[i]@.name)
        =~= function_names(program@));
    if find_func(&program.functions, &name).is_some() {
        match trans.add_c_main(dump_ir) {
            Ok(_) => {},
            Err(e) => {
                return Err(e);
            },
        }
    }
    trans.emit();
    Ok(trans)
}

/// Why compiling a program ahead of time in a session would stop, if it
/// would. The session is left as it is: the compilation is tried on a copy.
pub fn compile_failure(trans: &Translator, program: &Program, dump_ir: bool) -> (r: Option<
    TranslateError,
>)
    ensures
        r == compile_onto(trans@, program@, dump_ir).error,
{
    match attempt_compile(trans.duplicate(), program, dump_ir) {
        Ok(_) => None,
        Err(e) => Some(e),
    }
}

/// Tells whether a program can be translated, and if not, the failure that
/// ends the process: the first function that cannot be lowered, with the
/// instruction that is at fault, or a `main` that takes a pointer.
pub fn check_program(program: &Program) -> (r: Option<TranslateError>)
    ensures
        r is None <==> translatable(program@),
        r matches Some(e) ==> e.is_fatal() && exists|bytes: u8|
            is_pointer_width(bytes) && (#[trigger] compile_spec(
                program@,
                bytes,
                OptLevel::Off,
                false,
            )).error == Some(e),
{
    let narrow = compile_failure(&Translator::new(2, OptLevel::Off), program, false);
    assert(compile_spec(program@, 2u8, OptLevel::Off, false).error == narrow);
    match narrow {
        Some(e) => {
            if e.fatal() {
                assert(is_pointer_width(2u8));
                return Some(e);
            }
        },
        None => {},
    }
    let middle = compile_failure(&Translator::new(4, OptLevel::Off), program, false);
    assert(compile_spec(program@, 4u8, OptLevel::Off, false).error == middle);
    match middle {
        Some(e) => {
            if e.fatal() {
                assert(is_pointer_width(4u8));
                return Some(e);
            }
        },
        None => {},
    }
    let wide = compile_failure(&Translator::new(8, OptLevel::Off), program, false);
    assert(compile_spec(program@, 8u8, OptLevel::Off, false).error == wide);
    match wide {
        Some(e) => {
            if e.fatal() {
                assert(is_pointer_width(8u8));
                return Some(e);
            }
        },
        None => {},
    }
    assert forall|bytes: u8| is_pointer_width(bytes) implies !aborts(
        (#[trigger] compile_spec(program@, bytes, OptLevel::Off, false)).error,
    ) by {
        assert(bytes == 2 || bytes == 4 || bytes == 8);
    }
    None
}

/// Compiles a program ahead of time in the session `trans` and gives the
/// session back. It then holds the plans of all functions of the program and
/// the log of what the backend has to do.
///
/// A program that cannot be translated is no input: `compile_failure` tells
/// beforehand. What is left to fail is the session itself, where it already
/// holds what the program brings.
pub fn compile_in(trans: Translator, program: &Program, dump_ir: bool) -> (r: Result<
    Translator,
    TranslateError,
>)
    requires
        !aborts(compile_onto(trans@, program@, dump_ir).error),
    ensures
        match compile_onto(trans@, program@, dump_ir).error {
            None => r is Ok && r.unwrap()@ == compile_onto(trans@, program@, dump_ir).session,
            Some(e) => r is Err && r.unwrap_err() == e && !e.is_fatal(),
        },
{
    attempt_compile(trans, program, dump_ir)
}

/// Compiles a program ahead of time.
///
/// * `program` - the program to compile
/// * `target` - the target triple, or `None` to target the host
/// * `opt_level` - the name of an optimization level
/// * `dump_ir` - whether the backend renders each function it defines
///
/// A program that cannot be translated is no input: `check_program` tells
/// beforehand. An optimization level that has no name is rejected before
/// anything else. A named target gives the width of its addresses by its
/// name; what the host is, is for the machine to say. Where the width is
/// known, the outcome is that of compiling the program in a fresh session
/// for that width.
pub fn compile(program: &Program, target: Option<String>, opt_level: &str, dump_ir: bool) -> (r:
    Result<Translator, CompileError>)
    requires
        translatable(program@),
    ensures
        OptLevel::named(opt_level@) is None ==> r is Err && r.unwrap_err()
            == CompileError::UnknownOptLevel,
        match (target, OptLevel::named(opt_level@)) {
            (Some(name), Some(level)) => match triple_pointer_bytes(name@) {
                None => r is Err && r.unwrap_err() == CompileError::UnknownTarget,
                Some(bytes) => match compile_spec(program@, bytes, level, dump_ir).error {
                    None => r is Ok && r.unwrap()@ == compile_spec(
                        program@,
                        bytes,
                        level,
                        dump_ir,
                    ).session,
                    Some(e) => r is Err && r.unwrap_err() == CompileError::Translate(e),
                },
            },
            _ => true,
        },
        match r {
            Ok(t) => is_pointer_width(t@.pointer_bytes) && OptLevel::named(opt_level@) == Some(
                t@.opt_level,
            ) && compile_spec(program@, t@.pointer_bytes, t@.opt_level, dump_ir) == t@.ok(),
            Err(CompileError::UnknownOptLevel) => OptLevel::named(opt_level@) is None,
            Err(CompileError::UnknownTarget) => OptLevel::named(opt_level@) is Some,
            Err(CompileError::Translate(e)) => !e.is_fatal() && exists|bytes: u8|
                is_pointer_width(bytes) && (#[trigger] compile_spec(
                    program@,
                    bytes,
                    OptLevel::named(opt_level@).unwrap(),
                    dump_ir,
                )).error == Some(e),
        },
{
    let level = match OptLevel::parse(opt_level) {
        Ok(level) => level,
        Err(_) => {
            return Err(CompileError::UnknownOptLevel);
        },
    };
    let trans = match Translator::for_target(&target, level) {
        Some(trans) => trans,
        None => {
            return Err(CompileError::UnknownTarget);
        },
    };
    let ghost bytes = trans@.pointer_bytes;
    proof {
        assert(!aborts(compile_spec(program@, bytes, OptLevel::Off, false).error));
        lemma_settings_change_no_code(program@, bytes, OptLevel::Off, level, false, dump_ir);
        lemma_compile_onto(TranslatorView::new(bytes, level), program@, dump_ir);
    }
    match attempt_compile(trans, program, dump_ir) {
        Ok(done) => Ok(done),
        Err(e) => {
            assert(is_pointer_width(bytes) && compile_spec(
                program@,
                bytes,
                OptLevel::named(opt_level@).unwrap(),
                dump_ir,
            ).error == Some(e));
            Err(CompileError::Translate(e))
        },
    }
}

/// Compiles a program just in time and records the invocation of its
/// `main`, whatever the program and the words are.
fn attempt_run(
    trans: &mut Translator,
    program: &Program,
    args: &Vec<MainArg>,
    dump_ir: bool,
    swap: bool,
) -> (r: Result<(), TranslateError>)
    ensures
        agrees(
            r,
            final(trans)@,
            jit_run_spec(old(trans)@, program@, arg_views(args@), dump_ir, swap),
        ),
        r is Ok ==> program_fits(program@) && fits(final(trans)@),
{
    if swap {
        match trans.prepare_for_function_redefine(program) {
            Ok(()) => {},
            Err(e) => {
                return Err(e);
            },
        }
    }
    match trans.compile_prog(program, dump_ir) {
        Ok(()) => {},
        Err(e) => {
            return Err(e);
        },
    }
    trans.finalize_definitions();
    let name = String::from_str("main");
    assert(Seq::new(program.functions@.len(), |i: int| program.functions@[i]@.name)
        =~= function_names(program@));
    let m: usize = match find_func(&program.functions, &name) {
        Some(m) => m,
        None => {
            let slots: usize = trans.table.len();
            assert(trans@.table.len() == slots);
            return Ok(());
        },
    };
    let ghost ready = trans@;
    let declared: usize = trans.table.len();
    assert(ready.table.len() == declared);
    let entry = match trans.add_mem_wrapper(&name, dump_ir) {
        Ok(entry) => entry,
        Err(e) => {
            return Err(e);
        },
    };
    trans.finalize_definitions();
    assert(program.functions@[m as int]@ == program@.functions[m as int]);
    let literals = match convert_main_args(&program.functions[m].params, args) {
        Ok(literals) => literals,
        Err(e) => {
            return Err(TranslateError::Arguments(e));
        },
    };
    let done = if swap {
        trans.run_func_by_name(&name, literals)
    } else {
        proof {
            lemma_entry_resolves(ready, DeclKind::MemoryEntry, "main"@, dump_ir);
        }
        trans.run(entry, literals)
    };
    let slots: usize = trans.table.len();
    assert(trans@.table.len() == slots);
    done
}

/// Why a run just in time would stop, if it would. The session is left as it
/// is: the run is tried on a copy, and nothing is invoked.
pub fn run_failure(
    trans: &Translator,
    program: &Program,
    args: &Vec<MainArg>,
    dump_ir: bool,
    swap: bool,
) -> (r: Option<TranslateError>)
    ensures
        r == jit_run_spec(trans@, program@, arg_views(args@), dump_ir, swap).error,
{
    let mut copy = trans.duplicate();
    match attempt_run(&mut copy, program, args, dump_ir, swap) {
        Ok(()) => None,
        Err(e) => Some(e),
    }
}

/// Compiles a program just in time and records the invocation of its `main`
/// with the words of the command line as arguments.
///
/// A program that cannot be lowered, words that are not the arguments of
/// `main`, and a `main` that takes a pointer are no input: `run_failure`
/// tells beforehand, and the caller ends the process before anything runs.
///
/// Without `swap` the session must not hold bodies for the program's
/// functions yet. With `swap` the functions of the program replace those of
/// the same names in the session, and `main` is looked up by name once
/// everything is finalized. The invocation is recorded last, and only if
/// nothing failed before. What is left to fail is the session itself: a body
/// that is there already, a signature that has changed, an epoch that has
/// run out.
pub fn jit_run(
    trans: &mut Translator,
    program: &Program,
    args: &Vec<MainArg>,
    dump_ir: bool,
    swap: bool,
) -> (r: Result<(), TranslateError>)
    requires
        !aborts(jit_run_spec(old(trans)@, program@, arg_views(args@), dump_ir, swap).error),
    ensures
        agrees(
            r,
            final(trans)@,
            jit_run_spec(old(trans)@, program@, arg_views(args@), dump_ir, swap),
        ),
        r matches Err(e) ==> !e.is_fatal(),
        r is Ok ==> program_fits(program@) && fits(final(trans)@),
{
    attempt_run(trans, program, args, dump_ir, swap)
}

} // verus!
