//! The runtime support library: the routines that compiled code calls, by
//! symbol and signature, and their source in C.
//!
//! The library is compiled and linked separately. The translator assumes
//! that every routine exists at link time and never checks it.

use crate::lower::DeclKind;
use crate::native::{NativeType, RuntimeFn, Signature, SignatureView};
use vstd::prelude::*;

verus! {

/// The C source of the runtime support library.
pub const RUNTIME_SOURCE: &'static str = "/* Runtime support for compiled Bril programs. */

int printf(const char *format, ...);
int dprintf(int fd, const char *format, ...);
int putchar(int c);
int strcmp(const char *a, const char *b);
double strtod(const char *text, char **end);
void *malloc(unsigned long size);
void free(void *ptr);
void exit(int status);

static void fatal(const char *what, const char *word) {
    dprintf(2, \"error: %s: %s\\n\", what, word);
    exit(2);
}

void _bril_print_int(long long value) {
    printf(\"%lld\", value);
}

void _bril_print_bool(char value) {
    printf(value ? \"true\" : \"false\");
}

void _bril_print_float(double value) {
    if (value != value) {
        printf(\"NaN\");
    } else if (value - value != 0) {
        printf(value < 0 ? \"-Infinity\" : \"Infinity\");
    } else {
        printf(\"%.17lf\", value);
    }
}

void _bril_print_char(unsigned int c) {
    if (c < 0x80) {
        putchar(c);
    } else if (c < 0x800) {
        putchar(0xC0 | (c >> 6));
        putchar(0x80 | (c & 0x3F));
    } else if (c < 0x10000) {
        putchar(0xE0 | (c >> 12));
        putchar(0x80 | ((c >> 6) & 0x3F));
        putchar(0x80 | (c & 0x3F));
    } else {
        putchar(0xF0 | (c >> 18));
        putchar(0x80 | ((c >> 12) & 0x3F));
        putchar(0x80 | ((c >> 6) & 0x3F));
        putchar(0x80 | (c & 0x3F));
    }
}

void _bril_print_ptr(void *value) {
    printf(\"%p\", value);
}

void _bril_print_sep(void) {
    putchar(' ');
}

void _bril_print_end(void) {
    putchar('\\n');
}

void *_bril_alloc(long long count, long long bytes) {
    return malloc((unsigned long) (count * bytes));
}

void _bril_free(void *ptr) {
    free(ptr);
}

void _bril_check_args(int argc, long long expected) {
    if ((long long) argc - 1 != expected) {
        dprintf(2, \"error: @main expects %lld arguments; got %d\\n\", expected, argc - 1);
        exit(2);
    }
}

long long _bril_parse_int(char **argv, long long index) {
    const char *word = argv[index];
    const char *digits = (word[0] == '-' || word[0] == '+') ? word + 1 : word;
    unsigned long long limit = 9223372036854775807ULL;
    unsigned long long magnitude = 0;
    if (word[0] == '-') {
        limit = limit + 1;
    }
    if (digits[0] == 0) {
        fatal(\"not an integer\", word);
    }
    for (; digits[0] != 0; digits++) {
        unsigned long long digit = (unsigned long long) (digits[0] - '0');
        if (digits[0] < '0' || digits[0] > '9') {
            fatal(\"not an integer\", word);
        }
        if (magnitude > (limit - digit) / 10) {
            fatal(\"integer out of range\", word);
        }
        magnitude = magnitude * 10 + digit;
    }
    return word[0] == '-' ? (long long) (0 - magnitude) : (long long) magnitude;
}

char _bril_parse_bool(char **argv, long long index) {
    return strcmp(argv[index], \"true\") == 0;
}

double _bril_parse_float(char **argv, long long index) {
    const char *word = argv[index];
    char *end;
    double value = strtod(word, &end);
    if (end == word || *end != 0) {
        fatal(\"not a number\", word);
    }
    return value;
}

unsigned int _bril_parse_char(char **argv, long long index) {
    const unsigned char *word = (const unsigned char *) argv[index];
    unsigned int c = word[0];
    int more = c < 0x80 ? 0 : (c >> 5) == 0x6 ? 1 : (c >> 4) == 0xE ? 2 : (c >> 3) == 0x1E ? 3 : -1;
    int i;
    if (c == 0 || more < 0) {
        fatal(\"not one character\", argv[index]);
    }
    if (more > 0) {
        c &= 0x3F >> more;
    }
    for (i = 1; i <= more; i++) {
        if ((word[i] & 0xC0) != 0x80) {
            fatal(\"not one character\", argv[index]);
        }
        c = (c << 6) | (word[i] & 0x3F);
    }
    if (word[more + 1] != 0) {
        fatal(\"not one character\", argv[index]);
    }
    return c;
}
";

/// The C source of the runtime support library, for those who build and link
/// it themselves.
pub fn c_runtime() -> (r: &'static str)
    ensures
        r@ == RUNTIME_SOURCE@,
{
    RUNTIME_SOURCE
}

/// The symbol under which a routine is linked.
pub open spec fn symbol_of(routine: RuntimeFn) -> Seq<char> {
    match routine {
        RuntimeFn::PrintInt => "_bril_print_int"@,
        RuntimeFn::PrintBool => "_bril_print_bool"@,
        RuntimeFn::PrintFloat => "_bril_print_float"@,
        RuntimeFn::PrintChar => "_bril_print_char"@,
        RuntimeFn::PrintPointer => "_bril_print_ptr"@,
        RuntimeFn::PrintSeparator => "_bril_print_sep"@,
        RuntimeFn::PrintEnd => "_bril_print_end"@,
        RuntimeFn::Allocate => "_bril_alloc"@,
        RuntimeFn::Release => "_bril_free"@,
        RuntimeFn::CheckArgumentCount => "_bril_check_args"@,
        RuntimeFn::ParseInt => "_bril_parse_int"@,
        RuntimeFn::ParseBool => "_bril_parse_bool"@,
        RuntimeFn::ParseFloat => "_bril_parse_float"@,
        RuntimeFn::ParseChar => "_bril_parse_char"@,
    }
}

/// The symbol under which a routine is linked.
pub fn symbol(routine: RuntimeFn) -> (r: &'static str)
    ensures
        r@ == symbol_of(routine),
{
    match routine {
        RuntimeFn::PrintInt => "_bril_print_int",
        RuntimeFn::PrintBool => "_bril_print_bool",
        RuntimeFn::PrintFloat => "_bril_print_float",
        RuntimeFn::PrintChar => "_bril_print_char",
        RuntimeFn::PrintPointer => "_bril_print_ptr",
        RuntimeFn::PrintSeparator => "_bril_print_sep",
        RuntimeFn::PrintEnd => "_bril_print_end",
        RuntimeFn::Allocate => "_bril_alloc",
        RuntimeFn::Release => "_bril_free",
        RuntimeFn::CheckArgumentCount => "_bril_check_args",
        RuntimeFn::ParseInt => "_bril_parse_int",
        RuntimeFn::ParseBool => "_bril_parse_bool",
        RuntimeFn::ParseFloat => "_bril_parse_float",
        RuntimeFn::ParseChar => "_bril_parse_char",
    }
}

/// The machine types of the parameters of a routine.
pub open spec fn params_of(routine: RuntimeFn) -> Seq<NativeType> {
    match routine {
        RuntimeFn::PrintInt => seq![NativeType::I64],
        RuntimeFn::PrintBool => seq![NativeType::I8],
        RuntimeFn::PrintFloat => seq![NativeType::F64],
        RuntimeFn::PrintChar => seq![NativeType::I32],
        RuntimeFn::PrintPointer => seq![NativeType::Ptr],
        RuntimeFn::PrintSeparator => Seq::empty(),
        RuntimeFn::PrintEnd => Seq::empty(),
        RuntimeFn::Allocate => seq![NativeType::I64, NativeType::I64],
        RuntimeFn::Release => seq![NativeType::Ptr],
        RuntimeFn::CheckArgumentCount => seq![NativeType::I32, NativeType::I64],
        RuntimeFn::ParseInt => seq![NativeType::Ptr, NativeType::I64],
        RuntimeFn::ParseBool => seq![NativeType::Ptr, NativeType::I64],
        RuntimeFn::ParseFloat => seq![NativeType::Ptr, NativeType::I64],
        RuntimeFn::ParseChar => seq![NativeType::Ptr, NativeType::I64],
    }
}

/// The machine type of what a routine returns, if it returns a value.
pub open spec fn result_of(routine: RuntimeFn) -> Option<NativeType> {
    match routine {
        RuntimeFn::Allocate => Some(NativeType::Ptr),
        RuntimeFn::ParseInt => Some(NativeType::I64),
        RuntimeFn::ParseBool => Some(NativeType::I8),
        RuntimeFn::ParseFloat => Some(NativeType::F64),
        RuntimeFn::ParseChar => Some(NativeType::I32),
        _ => None,
    }
}

/// The signature of a routine.
pub open spec fn signature_of_routine(routine: RuntimeFn) -> SignatureView {
    SignatureView { params: params_of(routine), ret: result_of(routine) }
}

/// The signature with which a routine is declared to the backend.
pub fn signature(routine: RuntimeFn) -> (r: Signature)
    ensures
        r@ == signature_of_routine(routine),
{
    let mut params: Vec<NativeType> = Vec::new();
    match routine {
        RuntimeFn::PrintInt => {
            params.push(NativeType::I64);
        },
        RuntimeFn::PrintBool => {
            params.push(NativeType::I8);
        },
        RuntimeFn::PrintFloat => {
            params.push(NativeType::F64);
        },
        RuntimeFn::PrintChar => {
            params.push(NativeType::I32);
        },
        RuntimeFn::PrintPointer => {
            params.push(NativeType::Ptr);
        },
        RuntimeFn::PrintSeparator => {},
        RuntimeFn::PrintEnd => {},
        RuntimeFn::Allocate => {
            params.push(NativeType::I64);
            params.push(NativeType::I64);
        },
        RuntimeFn::Release => {
            params.push(NativeType::Ptr);
        },
        RuntimeFn::CheckArgumentCount => {
            params.push(NativeType::I32);
            params.push(NativeType::I64);
        },
        _ => {
            params.push(NativeType::Ptr);
            params.push(NativeType::I64);
        },
    }
    let ret: Option<NativeType> = match routine {
        RuntimeFn::Allocate => Some(NativeType::Ptr),
        RuntimeFn::ParseInt => Some(NativeType::I64),
        RuntimeFn::ParseBool => Some(NativeType::I8),
        RuntimeFn::ParseFloat => Some(NativeType::F64),
        RuntimeFn::ParseChar => Some(NativeType::I32),
        _ => None,
    };
    let r = Signature { params, ret };
    assert(r@.params =~= params_of(routine));
    r
}

/// Every routine of the runtime support library, once.
pub open spec fn routines() -> Seq<RuntimeFn> {
    seq![
        RuntimeFn::PrintInt,
        RuntimeFn::PrintBool,
        RuntimeFn::PrintFloat,
        RuntimeFn::PrintChar,
        RuntimeFn::PrintPointer,
        RuntimeFn::PrintSeparator,
        RuntimeFn::PrintEnd,
        RuntimeFn::Allocate,
        RuntimeFn::Release,
        RuntimeFn::CheckArgumentCount,
        RuntimeFn::ParseInt,
        RuntimeFn::ParseBool,
        RuntimeFn::ParseFloat,
        RuntimeFn::ParseChar,
    ]
}

/// Every routine that compiled code may call, for a backend to declare.
pub fn all_routines() -> (r: Vec<RuntimeFn>)
    ensures
        r@ == routines(),
{
    let mut r: Vec<RuntimeFn> = Vec::new();
    r.push(RuntimeFn::PrintInt);
    r.push(RuntimeFn::PrintBool);
    r.push(RuntimeFn::PrintFloat);
    r.push(RuntimeFn::PrintChar);
    r.push(RuntimeFn::PrintPointer);
    r.push(RuntimeFn::PrintSeparator);
    r.push(RuntimeFn::PrintEnd);
    r.push(RuntimeFn::Allocate);
    r.push(RuntimeFn::Release);
    r.push(RuntimeFn::CheckArgumentCount);
    r.push(RuntimeFn::ParseInt);
    r.push(RuntimeFn::ParseBool);
    r.push(RuntimeFn::ParseFloat);
    r.push(RuntimeFn::ParseChar);
    assert(r@ =~= routines());
    r
}

/// No routine is missing from the list of all routines.
pub proof fn lemma_routines_complete(routine: RuntimeFn)
    ensures
        routines().contains(routine),
{
    let all = routines();
    assert(all[0] == RuntimeFn::PrintInt && all[1] == RuntimeFn::PrintBool && all[2]
        == RuntimeFn::PrintFloat && all[3] == RuntimeFn::PrintChar && all[4]
        == RuntimeFn::PrintPointer && all[5] == RuntimeFn::PrintSeparator && all[6]
        == RuntimeFn::PrintEnd && all[7] == RuntimeFn::Allocate && all[8] == RuntimeFn::Release
        && all[9] == RuntimeFn::CheckArgumentCount && all[10] == RuntimeFn::ParseInt && all[11]
        == RuntimeFn::ParseBool && all[12] == RuntimeFn::ParseFloat && all[13]
        == RuntimeFn::ParseChar);
}

/// The symbol under which a declaration of a kind and a name is known to the
/// backend and to the linker. A process entry is always `main`; functions and
/// memory entries carry a prefix each, so that no function of a program can
/// take the symbol of an entry or of a runtime routine.
pub open spec fn symbol_for(kind: DeclKind, name: Seq<char>) -> Seq<char> {
    match kind {
        DeclKind::Function => "_bril_fn_"@ + name,
        DeclKind::ProcessEntry => "main"@,
        DeclKind::MemoryEntry => "_bril_mem_"@ + name,
    }
}

/// The symbol of a declaration.
pub fn symbol_name(kind: DeclKind, name: &String) -> (r: String)
    ensures
        r@ == symbol_for(kind, name@),
{
    match kind {
        DeclKind::Function => String::from_str("_bril_fn_").concat(name.as_str()),
        DeclKind::ProcessEntry => String::from_str("main"),
        DeclKind::MemoryEntry => String::from_str("_bril_mem_").concat(name.as_str()),
    }
}

/// Two functions, or two memory entries, have the same symbol only if they
/// have the same name.
pub proof fn lemma_symbols_differ(kind: DeclKind, a: Seq<char>, b: Seq<char>)
    requires
        kind != DeclKind::ProcessEntry,
        symbol_for(kind, a) == symbol_for(kind, b),
    ensures
        a == b,
{
    let prefix = if kind == DeclKind::Function {
        "_bril_fn_"@
    } else {
        "_bril_mem_"@
    };
    assert((prefix + a).subrange(prefix.len() as int, (prefix + a).len() as int) =~= a);
    assert((prefix + b).subrange(prefix.len() as int, (prefix + b).len() as int) =~= b);
}

} // verus!
