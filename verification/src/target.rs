//! Targets: which machine code is generated for, and how wide its addresses
//! are.

use vstd::prelude::*;

verus! {

/// The width in bytes of an address on the target that a triple names, as
/// `target-lexicon` tells it: what `Triple::from_str` reads from the name,
/// asked for its `pointer_width`. There is none where the name is no triple
/// or the width of its addresses is not known. The grammar of triples and the
/// list of architectures are those of `target-lexicon`; the same name gives
/// the same width everywhere.
pub uninterp spec fn triple_pointer_bytes(name: Seq<char>) -> Option<u8>;

/// Calls `Triple::from_str` of `target-lexicon` on the name and, on the
/// triple it gives, `Triple::pointer_width` and `PointerWidth::bytes`. The
/// result depends on the name alone and is what `triple_pointer_bytes`
/// names. A pointer width is one of 16, 32 and 64 bits, so a result is 2, 4
/// or 8.
#[verifier::external_body]
fn named_pointer_bytes(name: &str) -> (r: Option<u8>)
    ensures
        r == triple_pointer_bytes(name@),
        r matches Some(bytes) ==> bytes == 2 || bytes == 4 || bytes == 8,
{
    let triple = <target_lexicon::Triple as core::str::FromStr>::from_str(name).ok()?;
    triple.pointer_width().ok().map(|width| width.bytes())
}

/// Calls `Triple::host` of `target-lexicon`, the triple of the machine that
/// the library was built for, and on it `Triple::pointer_width` and
/// `PointerWidth::bytes`. Which machine that is depends on the build, so the
/// result has no name. A pointer width is one of 16, 32 and 64 bits, so a
/// result is 2, 4 or 8.
#[verifier::external_body]
fn host_width_bytes() -> (r: Option<u8>)
    ensures
        r matches Some(bytes) ==> bytes == 2 || bytes == 4 || bytes == 8,
{
    target_lexicon::Triple::host().pointer_width().ok().map(|width| width.bytes())
}

/// Calls `builder` of `cranelift-native` and tells whether it gave a
/// builder: whether the code generator can generate code for the machine it
/// runs on. That depends on the machine and on how the code generator was
/// built, so nothing is claimed of the result.
#[verifier::external_body]
fn host_has_backend() -> (r: bool) {
    cranelift_native::builder().is_ok()
}

/// The width of an address on the host, given whether the code generator
/// has a backend for the host and what the width of the host's triple is.
pub open spec fn host_width(backend: bool, width: Option<u8>) -> Option<u8> {
    if backend {
        width
    } else {
        None
    }
}

/// The width of an address on the host: that of the host's triple, but none
/// for a host that code cannot be generated for.
pub fn host_pointer_bytes(backend: bool, width: Option<u8>) -> (r: Option<u8>)
    ensures
        r == host_width(backend, width),
{
    if backend {
        width
    } else {
        None
    }
}

/// The width in bytes of an address on a target, given by its triple, or on
/// the host where no triple is given.
///
/// For a named target it is the width that the triple has; there is none
/// where the name cannot be read as a triple or the width of its addresses
/// is unknown. For the host it is the width of the host's triple, and there
/// is none for a host that the code generator cannot generate code for; what
/// the host is, is for the machine to say.
pub fn target_pointer_bytes(target: &Option<String>) -> (r: Option<u8>)
    ensures
        r matches Some(bytes) ==> bytes == 2 || bytes == 4 || bytes == 8,
        target matches Some(name) ==> r == triple_pointer_bytes(name@),
{
    match target {
        Some(name) => named_pointer_bytes(name.as_str()),
        None => {
            let backend = host_has_backend();
            host_pointer_bytes(backend, host_width_bytes())
        },
    }
}

} // verus!
