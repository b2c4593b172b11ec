//! Text that is known at compile time.

use core::cmp::Ordering;
use vstd::prelude::*;
use vstd::slice::slice_subrange;
use vstd::std_specs::cmp::{PartialEqSpecImpl, PartialOrdSpecImpl};
use vstd::string::{StringExecFns, StringSliceAdditionalSpecFns};
use vstd::utf8::{
    encode_utf8, encode_utf8_decode_utf8, encode_utf8_valid_utf8, is_ascii_chars,
    is_ascii_chars_encode_utf8, valid_utf8,
};

verus! {

/// Whether `bytes` end with a zero byte and hold no other.
pub open spec fn nul_terminated(bytes: Seq<u8>) -> bool {
    &&& bytes.len() > 0
    &&& bytes[bytes.len() - 1] == 0
    &&& forall|i: int| 0 <= i < bytes.len() - 1 ==> bytes[i] != 0
}

/// Whether every byte of `bytes` is an ASCII code.
pub open spec fn all_ascii(bytes: Seq<u8>) -> bool {
    forall|i: int| 0 <= i < bytes.len() ==> bytes[i] < 128
}

/// The UTF-8 code units of one scalar.
pub open spec fn scalar_bytes(ch: char) -> Seq<u8> {
    encode_utf8(seq![ch])
}

/// The number of a scalar.
pub open spec fn scalar_value(ch: char) -> u32 {
    ch as u32
}

/// The order of two byte strings as a dictionary has it: the first byte
/// that differs decides, and a string comes before those that it begins.
pub open spec fn lexicographic(a: Seq<u8>, b: Seq<u8>) -> Ordering
    decreases a.len(),
{
    if a.len() == 0 {
        if b.len() == 0 {
            Ordering::Equal
        } else {
            Ordering::Less
        }
    } else if b.len() == 0 {
        Ordering::Greater
    } else if a[0] < b[0] {
        Ordering::Less
    } else if a[0] > b[0] {
        Ordering::Greater
    } else {
        lexicographic(a.skip(1), b.skip(1))
    }
}

/// ASCII bytes are UTF-8.
pub proof fn lemma_ascii_is_utf8(bytes: Seq<u8>)
    requires
        all_ascii(bytes),
    ensures
        valid_utf8(bytes),
        exists|chars: Seq<char>| is_ascii_chars(chars) && encode_utf8(chars) == bytes,
{
    let chars = Seq::new(bytes.len(), |i: int| bytes[i] as char);
    assert(is_ascii_chars(chars));
    is_ascii_chars_encode_utf8(chars);
    assert(encode_utf8(chars) =~= bytes);
    encode_utf8_valid_utf8(chars);
}

/// A text is ASCII exactly if its code units are.
pub proof fn lemma_ascii_text(chars: Seq<char>)
    ensures
        is_ascii_chars(chars) <==> all_ascii(encode_utf8(chars)),
{
    let bytes = encode_utf8(chars);
    if is_ascii_chars(chars) {
        is_ascii_chars_encode_utf8(chars);
        assert forall|i: int| 0 <= i < bytes.len() implies bytes[i] < 128 by {
            assert(chars[i] as u8 == bytes[i]);
        }
    }
    if all_ascii(bytes) {
        let plain = Seq::new(bytes.len(), |i: int| bytes[i] as char);
        assert(is_ascii_chars(plain));
        is_ascii_chars_encode_utf8(plain);
        assert(encode_utf8(plain) =~= bytes);
        encode_utf8_decode_utf8(plain);
        encode_utf8_decode_utf8(chars);
    }
}

/// Two scalars with the same code units are the same scalar.
pub proof fn lemma_scalar_bytes_injective(a: char, b: char)
    requires
        scalar_bytes(a) == scalar_bytes(b),
    ensures
        a == b,
{
    encode_utf8_decode_utf8(seq![a]);
    encode_utf8_decode_utf8(seq![b]);
    assert(seq![a][0] == seq![b][0]);
}

/// `core::str::from_utf8`: the bytes as a string slice, if they are valid
/// UTF-8, and nothing if they are not.
#[verifier::external_body]
pub(crate) fn str_from_utf8<'a>(bytes: &'a [u8]) -> (text: Option<&'a str>)
    ensures
        text is Some <==> valid_utf8(bytes@),
        text matches Some(s) ==> s.spec_bytes() == bytes@,
{
    core::str::from_utf8(bytes).ok()
}

/// `String::from` for a `char`: the string of that one scalar.
#[verifier::external_body]
fn string_from_char(ch: char) -> (text: String)
    ensures
        text@ == seq![ch],
{
    String::from(ch)
}

/// Whether `bytes` end with a zero byte and hold no other.
pub fn is_nul_terminated(bytes: &[u8]) -> (b: bool)
    ensures
        b == nul_terminated(bytes@),
{
    let len = bytes.len();
    if len == 0 {
        return false;
    }
    if bytes[len - 1] != 0 {
        return false;
    }
    let mut i: usize = 0;
    while i < len - 1
        invariant
            len == bytes@.len(),
            len > 0,
            i <= len - 1,
            forall|j: int| 0 <= j < i ==> bytes@[j] != 0,
        decreases len - i,
    {
        if bytes[i] == 0 {
            return false;
        }
        i += 1;
    }
    true
}

/// Whether every byte of `bytes` is an ASCII code.
pub fn is_all_ascii(bytes: &[u8]) -> (b: bool)
    ensures
        b == all_ascii(bytes@),
{
    let mut i: usize = 0;
    while i < bytes.len()
        invariant
            i <= bytes@.len(),
            forall|j: int| 0 <= j < i ==> bytes@[j] < 128,
        decreases bytes@.len() - i,
    {
        if bytes[i] >= 128 {
            return false;
        }
        i += 1;
    }
    true
}

/// Whether two byte strings are the same.
pub fn bytes_equal(a: &[u8], b: &[u8]) -> (same: bool)
    ensures
        same == (a@ == b@),
{
    if a.len() != b.len() {
        return false;
    }
    let mut i: usize = 0;
    while i < a.len()
        invariant
            a@.len() == b@.len(),
            i <= a@.len(),
            forall|j: int| 0 <= j < i ==> a@[j] == b@[j],
        decreases a@.len() - i,
    {
        if a[i] != b[i] {
            return false;
        }
        i += 1;
    }
    assert(a@ =~= b@);
    true
}

/// The number of bytes that two byte strings have in common at their
/// start.
pub open spec fn common_prefix_len(a: Seq<u8>, b: Seq<u8>) -> nat
    decreases a.len(),
{
    if a.len() == 0 || b.len() == 0 || a[0] != b[0] {
        0
    } else {
        1 + common_prefix_len(a.skip(1), b.skip(1))
    }
}

/// The byte at place `n` of `s`.
pub open spec fn byte_at(s: Seq<u8>, n: nat) -> u8 {
    s[n as int]
}

/// The order of two byte strings is decided behind what they have in
/// common: by the first bytes that differ, or by which of them ends there.
pub proof fn lemma_lexicographic_decided(a: Seq<u8>, b: Seq<u8>)
    ensures
        common_prefix_len(a, b) <= a.len(),
        common_prefix_len(a, b) <= b.len(),
        forall|j: int| 0 <= j < common_prefix_len(a, b) ==> a[j] == b[j],
        lexicographic(a, b) == ({
            let n = common_prefix_len(a, b);
            if n == a.len() {
                if n == b.len() {
                    Ordering::Equal
                } else {
                    Ordering::Less
                }
            } else if n == b.len() {
                Ordering::Greater
            } else if byte_at(a, n) < byte_at(b, n) {
                Ordering::Less
            } else {
                Ordering::Greater
            }
        }),
        common_prefix_len(a, b) < a.len() && common_prefix_len(a, b) < b.len() ==> byte_at(
            a,
            common_prefix_len(a, b),
        ) != byte_at(b, common_prefix_len(a, b)),
    decreases a.len(),
{
    if a.len() != 0 && b.len() != 0 && a[0] == b[0] {
        lemma_lexicographic_decided(a.skip(1), b.skip(1));
        let n = common_prefix_len(a.skip(1), b.skip(1));
        assert forall|j: int| 0 <= j < n + 1 implies a[j] == b[j] by {
            if j > 0 {
                assert(a.skip(1)[j - 1] == a[j]);
                assert(b.skip(1)[j - 1] == b[j]);
            }
        }
        if n < a.len() - 1 {
            assert(byte_at(a.skip(1), n) == byte_at(a, n + 1));
        }
        if n < b.len() - 1 {
            assert(byte_at(b.skip(1), n) == byte_at(b, n + 1));
        }
    }
}

/// The first place at which two byte strings differ or one of them ends.
pub proof fn lemma_common_prefix(a: Seq<u8>, b: Seq<u8>, n: int)
    requires
        0 <= n <= a.len(),
        n <= b.len(),
        forall|j: int| 0 <= j < n ==> a[j] == b[j],
        n < a.len() && n < b.len() ==> a[n] != b[n],
    ensures
        common_prefix_len(a, b) == n,
    decreases a.len(),
{
    if n > 0 {
        assert forall|j: int| 0 <= j < n - 1 implies a.skip(1)[j] == b.skip(1)[j] by {
            assert(a.skip(1)[j] == a[j + 1]);
            assert(b.skip(1)[j] == b[j + 1]);
        }
        if n < a.len() && n < b.len() {
            assert(a.skip(1)[n - 1] == a[n]);
            assert(b.skip(1)[n - 1] == b[n]);
        }
        lemma_common_prefix(a.skip(1), b.skip(1), n - 1);
    }
}

/// Counts the bytes that two byte strings have in common at their start.
pub fn common_prefix(a: &[u8], b: &[u8]) -> (n: usize)
    ensures
        n == common_prefix_len(a@, b@),
        n <= a@.len(),
        n <= b@.len(),
{
    let mut i: usize = 0;
    while i < a.len() && i < b.len() && a[i] == b[i]
        invariant
            i <= a@.len(),
            i <= b@.len(),
            forall|j: int| 0 <= j < i ==> a@[j] == b@[j],
        decreases a@.len() - i,
    {
        i += 1;
    }
    proof {
        lemma_common_prefix(a@, b@, i as int);
    }
    i
}

/// Orders two byte strings as a dictionary does.
pub fn compare_bytes(a: &[u8], b: &[u8]) -> (order: Ordering)
    ensures
        order == lexicographic(a@, b@),
{
    let n = common_prefix(a, b);
    proof {
        lemma_lexicographic_decided(a@, b@);
    }
    if n == a.len() {
        if n == b.len() {
            Ordering::Equal
        } else {
            Ordering::Less
        }
    } else if n == b.len() {
        Ordering::Greater
    } else if a[n] < b[n] {
        Ordering::Less
    } else {
        Ordering::Greater
    }
}

/// What a static string stores: the place of its code units, or one scalar.
#[derive(Clone, Copy, Debug)]
pub enum StaticData {
    /// The bytes at the place that the string points to.
    Pointer(&'static [u8]),
    /// A single Unicode scalar value.
    Scalar(char),
}

/// A string type designed to represent text that is known at compile time.
#[derive(Clone, Copy, Debug)]
pub struct StaticString {
    start_ptr_or_data: StaticData,
    utf8_code_unit_count: usize,
    flags: i8,
}

impl StaticString {
    #[verifier::type_invariant]
    spec fn inv(self) -> bool {
        match self.start_ptr_or_data {
            StaticData::Pointer(data) => {
                &&& self.flags == 0 || self.flags == 2
                &&& self.utf8_code_unit_count <= data@.len()
                &&& valid_utf8(data@.subrange(0, self.utf8_code_unit_count as int))
                &&& self.flags == 2 <==> all_ascii(
                    data@.subrange(0, self.utf8_code_unit_count as int),
                )
            },
            StaticData::Scalar(ch) => {
                &&& self.flags == 1 || self.flags == 3
                &&& self.flags == 3 <==> scalar_value(ch) < 128
            },
        }
    }

    /// Whether a static string can be made of these parts: the flags say
    /// which way the string is stored and whether it is ASCII, and a
    /// string that stores a pointer counts no more code units than lie
    /// there, which are UTF-8.
    pub open spec fn parts_valid(start: StaticData, count: usize, flags: i8) -> bool {
        match start {
            StaticData::Pointer(data) => {
                &&& flags == 0 || flags == 2
                &&& count <= data@.len()
                &&& valid_utf8(data@.subrange(0, count as int))
                &&& flags == 2 <==> all_ascii(data@.subrange(0, count as int))
            },
            StaticData::Scalar(ch) => {
                &&& flags == 1 || flags == 3
                &&& flags == 3 <==> scalar_value(ch) < 128
            },
        }
    }

    /// What the string stores.
    pub closed spec fn data(self) -> StaticData {
        self.start_ptr_or_data
    }

    /// How many code units the string counts at the place it points to.
    pub closed spec fn count(self) -> usize {
        self.utf8_code_unit_count
    }

    /// Whether the string stores the place of its code units.
    pub closed spec fn pointer(self) -> bool {
        self.start_ptr_or_data is Pointer
    }

    /// The scalar that the string stores, if it stores one.
    pub closed spec fn scalar(self) -> char {
        self.start_ptr_or_data->Scalar_0
    }

    /// Whether the string is marked as holding only ASCII.
    pub closed spec fn ascii(self) -> bool {
        self.flags == 2 || self.flags == 3
    }

    /// A string is marked as ASCII exactly if its code units are.
    pub proof fn lemma_ascii_mark(self)
        requires
            Self::parts_valid(self.data(), self.count(), self.flag_bits()),
        ensures
            self.ascii() <==> all_ascii(self.utf8()),
    {
        match self.start_ptr_or_data {
            StaticData::Pointer(_) => {},
            StaticData::Scalar(ch) => {
                lemma_ascii_text(seq![ch]);
                if scalar_value(ch) < 128 {
                    assert(is_ascii_chars(seq![ch]));
                }
                if is_ascii_chars(seq![ch]) {
                    assert(seq![ch][0] == ch);
                }
            },
        }
    }

    /// The flags of the string.
    pub closed spec fn flag_bits(self) -> i8 {
        self.flags
    }

    /// The string's UTF-8 code units.
    pub closed spec fn utf8(self) -> Seq<u8> {
        match self.start_ptr_or_data {
            StaticData::Pointer(data) => data@.subrange(0, self.utf8_code_unit_count as int),
            StaticData::Scalar(ch) => scalar_bytes(ch),
        }
    }

    /// The string's code units and the byte behind them, where the string
    /// stores their place and a byte is known to lie behind them.
    pub closed spec fn utf8_with_nul(self) -> Option<Seq<u8>> {
        match self.start_ptr_or_data {
            StaticData::Pointer(data) => if self.utf8_code_unit_count < data@.len() {
                Some(data@.subrange(0, self.utf8_code_unit_count + 1))
            } else {
                None
            },
            StaticData::Scalar(ch) => None,
        }
    }

    /// How `self` stands to `other`: two scalars by their numbers, and
    /// else the code units as a dictionary orders them.
    pub closed spec fn ordering(self, other: Self) -> Ordering {
        if !self.pointer() && !other.pointer() {
            if scalar_value(self.scalar()) < scalar_value(other.scalar()) {
                Ordering::Less
            } else if scalar_value(self.scalar()) > scalar_value(other.scalar()) {
                Ordering::Greater
            } else {
                Ordering::Equal
            }
        } else {
            lexicographic(self.utf8(), other.utf8())
        }
    }

    /// Creates an instance from what a static string stores, the number of
    /// code units that it counts and its flags, or nothing if the parts
    /// contradict each other.
    pub fn from_parts(start: StaticData, utf8_code_unit_count: usize, flags: i8) -> (made: Option<
        Self,
    >)
        ensures
            made is Some <==> Self::parts_valid(start, utf8_code_unit_count, flags),
            made matches Some(string) ==> string.data() == start && string.count()
                == utf8_code_unit_count && string.flag_bits() == flags,
    {
        match start {
            StaticData::Pointer(data) => {
                if (flags != 0 && flags != 2) || utf8_code_unit_count > data.len() {
                    return None;
                }
                let units = slice_subrange(data, 0, utf8_code_unit_count);
                if str_from_utf8(units).is_none() || is_all_ascii(units) != (flags == 2) {
                    return None;
                }
                Some(StaticString { start_ptr_or_data: start, utf8_code_unit_count, flags })
            },
            StaticData::Scalar(ch) => {
                if (flags != 1 && flags != 3) || ((ch as u32) < 128) != (flags == 3) {
                    return None;
                }
                Some(StaticString { start_ptr_or_data: start, utf8_code_unit_count, flags })
            },
        }
    }

    /// Creates an instance from a static null-terminated string slice, or
    /// nothing if the slice does not end with its only zero byte.
    pub fn from_str(s: &'static str) -> (made: Option<Self>)
        ensures
            made is Some <==> nul_terminated(s.spec_bytes()),
            made matches Some(string) ==> string.pointer() && string.utf8() == s.spec_bytes()
                && string.ascii() == is_ascii_chars(s@),
    {
        let bytes = s.as_bytes();
        if !is_nul_terminated(bytes) {
            return None;
        }
        proof {
            encode_utf8_valid_utf8(s@);
            lemma_ascii_text(s@);
            assert(bytes@.subrange(0, bytes@.len() as int) == bytes@);
        }
        if s.is_ascii() {
            Some(
                StaticString {
                    start_ptr_or_data: StaticData::Pointer(bytes),
                    utf8_code_unit_count: bytes.len(),
                    flags: 2,
                },
            )
        } else {
            Some(
                StaticString {
                    start_ptr_or_data: StaticData::Pointer(bytes),
                    utf8_code_unit_count: bytes.len(),
                    flags: 0,
                },
            )
        }
    }

    /// Creates an instance from a static string slice without checking for
    /// a null terminator.  The string must end with its only zero byte and
    /// must hold more than ASCII.
    pub fn from_str_unchecked(s: &'static str) -> (string: Self)
        requires
            nul_terminated(s.spec_bytes()),
            !is_ascii_chars(s@),
        ensures
            string.pointer(),
            string.utf8() == s.spec_bytes(),
            !string.ascii(),
    {
        let bytes = s.as_bytes();
        proof {
            encode_utf8_valid_utf8(s@);
            lemma_ascii_text(s@);
            assert(bytes@.subrange(0, bytes@.len() as int) == bytes@);
        }
        StaticString {
            start_ptr_or_data: StaticData::Pointer(bytes),
            utf8_code_unit_count: bytes.len(),
            flags: 0,
        }
    }

    /// Creates an instance from a static null-terminated ASCII byte slice,
    /// or nothing if the slice does not end with its only zero byte or
    /// holds a byte that is not ASCII.
    pub fn from_ascii(s: &'static [u8]) -> (made: Option<Self>)
        ensures
            made is Some <==> nul_terminated(s@) && all_ascii(s@),
            made matches Some(string) ==> string.pointer() && string.utf8() == s@
                && string.ascii(),
    {
        if !is_nul_terminated(s) {
            return None;
        }
        if is_all_ascii(s) {
            proof {
                lemma_ascii_is_utf8(s@);
                assert(s@.subrange(0, s@.len() as int) == s@);
            }
            Some(
                StaticString {
                    start_ptr_or_data: StaticData::Pointer(s),
                    utf8_code_unit_count: s.len(),
                    flags: 2,
                },
            )
        } else {
            None
        }
    }

    /// Creates an instance from a static byte slice without checking for a
    /// null terminator or ASCII-only characters.  The slice must end with
    /// its only zero byte and must hold only ASCII.
    pub fn from_ascii_unchecked(s: &'static [u8]) -> (string: Self)
        requires
            nul_terminated(s@),
            all_ascii(s@),
        ensures
            string.pointer(),
            string.utf8() == s@,
            string.ascii(),
    {
        proof {
            lemma_ascii_is_utf8(s@);
            assert(s@.subrange(0, s@.len() as int) == s@);
        }
        StaticString {
            start_ptr_or_data: StaticData::Pointer(s),
            utf8_code_unit_count: s.len(),
            flags: 2,
        }
    }

    /// Creates an instance that stores a single Unicode scalar value.
    pub fn from_scalar(ch: char) -> (string: Self)
        ensures
            !string.pointer(),
            string.scalar() == ch,
            string.utf8() == scalar_bytes(ch),
            string.ascii() == (scalar_value(ch) < 128),
    {
        if (ch as u32) < 128 {
            StaticString {
                start_ptr_or_data: StaticData::Scalar(ch),
                utf8_code_unit_count: 0,
                flags: 3,
            }
        } else {
            StaticString {
                start_ptr_or_data: StaticData::Scalar(ch),
                utf8_code_unit_count: 0,
                flags: 1,
            }
        }
    }

    /// A Boolean value that indicates whether the static string stores a
    /// pointer to a null-terminated sequence of UTF-8 code units.
    ///
    /// If `false`, the static string stores a single Unicode scalar value.
    pub fn has_ptr_repr(&self) -> (b: bool)
        ensures
            b == self.pointer(),
    {
        let flags = self.flags;
        proof {
            use_type_invariant(self);
            assert(flags == 0 || flags == 2 ==> flags & 1 == 0) by (bit_vector);
            assert(flags == 1 || flags == 3 ==> flags & 1 != 0) by (bit_vector);
        }
        flags & 1 == 0
    }

    /// A Boolean value that indicates whether the static string represents
    /// only ASCII code units (or an ASCII scalar value).
    pub fn is_ascii(&self) -> (b: bool)
        ensures
            b == self.ascii(),
            b == all_ascii(self.utf8()),
    {
        let flags = self.flags;
        proof {
            use_type_invariant(self);
            self.lemma_ascii_mark();
            assert(flags == 2 || flags == 3 ==> flags & 2 != 0) by (bit_vector);
            assert(flags == 0 || flags == 1 ==> flags & 2 == 0) by (bit_vector);
        }
        flags & 2 != 0
    }

    /// Returns a string slice if the string stores a pointer.
    pub fn to_str(&self) -> (text: Option<&'static str>)
        ensures
            text is Some <==> self.pointer(),
            text matches Some(s) ==> s.spec_bytes() == self.utf8(),
    {
        proof {
            use_type_invariant(self);
        }
        match self.start_ptr_or_data {
            StaticData::Pointer(data) => str_from_utf8(
                slice_subrange(data, 0, self.utf8_code_unit_count),
            ),
            StaticData::Scalar(_) => None,
        }
    }

    /// Returns a string slice of a string that stores a pointer.
    pub fn to_str_unchecked(&self) -> (text: &'static str)
        requires
            self.pointer(),
        ensures
            text.spec_bytes() == self.utf8(),
    {
        match self.to_str() {
            Some(text) => text,
            None => "",
        }
    }

    /// Returns a string slice with the byte behind the code units, if the
    /// string stores a pointer, a byte is known to lie there, and the whole
    /// is UTF-8.
    pub fn to_str_with_nul(&self) -> (text: Option<&'static str>)
        ensures
            text is Some <==> (self.utf8_with_nul() matches Some(bytes) && valid_utf8(bytes)),
            text matches Some(s) ==> Some(s.spec_bytes()) == self.utf8_with_nul(),
    {
        proof {
            use_type_invariant(self);
        }
        match self.start_ptr_or_data {
            StaticData::Pointer(data) => {
                if self.utf8_code_unit_count < data.len() {
                    str_from_utf8(slice_subrange(data, 0, self.utf8_code_unit_count + 1))
                } else {
                    None
                }
            },
            StaticData::Scalar(_) => None,
        }
    }

    /// Returns a string slice with the byte behind the code units, of a
    /// string that stores a pointer behind whose code units a byte is known
    /// to lie that leaves the whole UTF-8.
    pub fn to_str_with_nul_unchecked(&self) -> (text: &'static str)
        requires
            self.utf8_with_nul() matches Some(bytes) && valid_utf8(bytes),
        ensures
            Some(text.spec_bytes()) == self.utf8_with_nul(),
    {
        match self.to_str_with_nul() {
            Some(text) => text,
            None => "",
        }
    }

    /// Whether `s` is the text of `self` with a null terminator: for a
    /// string that stores a pointer, the code units and the byte behind
    /// them, and for one that stores a scalar, the scalar and a null.
    pub closed spec fn terminated_by_nul(self, s: &str) -> bool {
        match self.start_ptr_or_data {
            StaticData::Pointer(_) => Some(s.spec_bytes()) == self.utf8_with_nul(),
            StaticData::Scalar(ch) => s@ == seq![ch, '\0'],
        }
    }

    /// Invokes the given closure with a string slice containing the static
    /// string's UTF-8 code unit sequence and the null terminator.
    ///
    /// This method works regardless of whether the static string stores a
    /// pointer or a single Unicode scalar value.
    pub fn with_str_with_nul<F, T>(&self, f: F) -> (result: T) where F: FnOnce(&str) -> T
        requires
            self.pointer() ==> (self.utf8_with_nul() matches Some(bytes) && valid_utf8(bytes)),
            forall|s: &str| self.terminated_by_nul(s) ==> call_requires(f, (s,)),
        ensures
            exists|s: &str| self.terminated_by_nul(s) && call_ensures(f, (s,), result),
    {
        match self.start_ptr_or_data {
            StaticData::Pointer(_) => {
                let text = self.to_str_with_nul_unchecked();
                assert(self.terminated_by_nul(text));
                let result = f(text);
                assert(self.terminated_by_nul(text) && call_ensures(f, (text,), result));
                result
            },
            StaticData::Scalar(ch) => {
                let mut owned = string_from_char(ch);
                owned.append("\0");
                proof {
                    reveal_strlit("\0");
                }
                let text = owned.as_str();
                assert(text@ =~= seq![ch, '\0']);
                assert(self.terminated_by_nul(text));
                let result = f(text);
                assert(self.terminated_by_nul(text) && call_ensures(f, (text,), result));
                result
            },
        }
    }

    /// Returns the string as an owned string.
    pub fn to_string(&self) -> (text: String)
        ensures
            encode_utf8(text@) == self.utf8(),
    {
        match self.start_ptr_or_data {
            StaticData::Pointer(_) => self.to_str_unchecked().to_owned(),
            StaticData::Scalar(ch) => string_from_char(ch),
        }
    }

    /// Invokes the given closure with a string slice containing the static
    /// string's UTF-8 code unit sequence.
    ///
    /// This method works regardless of whether the static string stores a
    /// pointer or a single Unicode scalar value.
    pub fn with_str<F, T>(&self, f: F) -> (result: T) where F: FnOnce(&str) -> T
        requires
            forall|s: &str| s.spec_bytes() == self.utf8() ==> call_requires(f, (s,)),
        ensures
            exists|s: &str| s.spec_bytes() == self.utf8() && call_ensures(f, (s,), result),
    {
        match self.to_str() {
            Some(text) => {
                let result = f(text);
                assert(text.spec_bytes() == self.utf8() && call_ensures(f, (text,), result));
                result
            },
            None => {
                let owned = self.to_string();
                let text = owned.as_str();
                assert(text.spec_bytes() == self.utf8());
                let result = f(text);
                assert(text.spec_bytes() == self.utf8() && call_ensures(f, (text,), result));
                result
            },
        }
    }

    /// Orders `self` and `other`: two scalars by their numbers, and else
    /// the code units as a dictionary orders them.
    pub fn cmp(&self, other: &Self) -> (order: Ordering)
        ensures
            order == self.ordering(*other),
    {
        match (self.start_ptr_or_data, other.start_ptr_or_data) {
            (StaticData::Scalar(a), StaticData::Scalar(b)) => {
                if a < b {
                    Ordering::Less
                } else if a > b {
                    Ordering::Greater
                } else {
                    Ordering::Equal
                }
            },
            _ => {
                let a = self.to_string();
                let b = other.to_string();
                compare_bytes(a.as_str().as_bytes(), b.as_str().as_bytes())
            },
        }
    }
}

impl PartialEq for StaticString {
    fn eq(&self, other: &Self) -> (same: bool) {
        match (self.start_ptr_or_data, other.start_ptr_or_data) {
            (StaticData::Scalar(a), StaticData::Scalar(b)) => {
                proof {
                    if scalar_bytes(a) == scalar_bytes(b) {
                        lemma_scalar_bytes_injective(a, b);
                    }
                }
                a == b
            },
            _ => {
                let a = self.to_string();
                let b = other.to_string();
                bytes_equal(a.as_str().as_bytes(), b.as_str().as_bytes())
            },
        }
    }
}

impl PartialEqSpecImpl for StaticString {
    open spec fn obeys_eq_spec() -> bool {
        true
    }

    open spec fn eq_spec(&self, other: &Self) -> bool {
        self.utf8() == other.utf8()
    }
}

impl PartialOrd for StaticString {
    fn partial_cmp(&self, other: &Self) -> (order: Option<Ordering>) {
        Some(self.cmp(other))
    }
}

impl PartialOrdSpecImpl for StaticString {
    open spec fn obeys_partial_cmp_spec() -> bool {
        true
    }

    open spec fn partial_cmp_spec(&self, other: &Self) -> Option<Ordering> {
        Some(self.ordering(*other))
    }
}

} // verus!
