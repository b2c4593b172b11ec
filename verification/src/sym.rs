//! Symbol name operations.
//!
//! Decoding a mangled symbol is the work of a foreign decoder.  This module
//! holds what happens around it: the error for a name the decoder does not
//! recognise, and the placement of the decoded text in a caller's buffer.

use vstd::prelude::*;
use vstd::string::StringSliceAdditionalSpecFns;

verus! {

/// An error returned when attempting to demangle a non-mangled symbol.
#[derive(Debug, PartialEq, Eq, Hash)]
pub struct DemangleError(());

impl DemangleError {
    /// The text shown for this error.
    pub fn message(&self) -> (text: String)
        ensures
            text@ == "Failed to demangle symbol"@,
    {
        "Failed to demangle symbol".to_owned()
    }
}

/// `Vec::capacity`: how many bytes `buffer` can hold before it has to
/// reallocate.  Assumed of it: the capacity is never below the length.
#[verifier::external_body]
fn capacity(buffer: &Vec<u8>) -> (cap: usize)
    ensures
        cap >= buffer@.len(),
{
    buffer.capacity()
}

/// What a buffer holds after `text` has been demangled into it.
pub open spec fn demangled_into(before: Seq<u8>, text: &str) -> Seq<u8> {
    before + text.spec_bytes()
}

/// Turns the decoder's answer for a symbol into an owned string, or into an
/// error if the decoder did not recognise a mangled name.
pub fn demangle(demangled: Option<&str>) -> (result: Result<String, DemangleError>)
    ensures
        demangled is None <==> result is Err,
        demangled matches Some(text) ==> result matches Ok(name) && name@ == text@,
{
    match demangled {
        Some(text) => Ok(text.to_owned()),
        None => Err(DemangleError(())),
    }
}

/// Places the decoder's answer for a symbol behind what `buffer` already
/// holds, and returns the offset at which the demangled text starts.
///
/// Spare capacity is used where it suffices and requested where it does not.
/// Nothing that was in the buffer before is touched, and on an error the
/// buffer is left as it was.
pub fn demangle_into(demangled: Option<&str>, buffer: &mut Vec<u8>) -> (result: Result<
    usize,
    DemangleError,
>)
    ensures
        demangled is None <==> result is Err,
        demangled is None ==> final(buffer)@ == old(buffer)@,
        demangled matches Some(text) ==> result == Ok::<usize, DemangleError>(
            old(buffer)@.len() as usize,
        ) && final(buffer)@ == demangled_into(old(buffer)@, text),
{
    let old_len = buffer.len();
    let text = match demangled {
        Some(text) => text.as_bytes(),
        None => {
            return Err(DemangleError(()));
        },
    };
    let rem_capacity = capacity(buffer) - old_len;
    let demangled_len = text.len();
    if rem_capacity < demangled_len {
        buffer.reserve(demangled_len - rem_capacity);
    }
    let mut i: usize = 0;
    while i < demangled_len
        invariant
            i <= demangled_len,
            demangled_len == text@.len(),
            buffer@ == old(buffer)@ + text@.subrange(0, i as int),
        decreases demangled_len - i,
    {
        buffer.push(text[i]);
        i += 1;
    }
    assert(text@.subrange(0, demangled_len as int) == text@);
    Ok(old_len)
}

/// The part of a buffer from `start` to its end: after a successful
/// `demangle_into` that returned `start`, the demangled text.
pub open spec fn written_region(buffer: Seq<u8>, start: int) -> Seq<u8> {
    buffer.subrange(start, buffer.len() as int)
}

/// Demangling does not depend on what room or contents the buffer had: the
/// written region is the encoding of the text whatever came before it, so it
/// is the same in any two buffers, and what came before it is kept.
pub proof fn lemma_demangle_ignores_buffer(first: Seq<u8>, second: Seq<u8>, text: &str)
    ensures
        written_region(demangled_into(first, text), first.len() as int) == text.spec_bytes(),
        written_region(demangled_into(first, text), first.len() as int) == written_region(
            demangled_into(second, text),
            second.len() as int,
        ),
        demangled_into(first, text).subrange(0, first.len() as int) == first,
{
}

} // verus!
