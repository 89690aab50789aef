//! Interned symbols
//!
//! This uses a fixed 8 byte representation for interned symbols. They are associated with a
//! particular `Interner` instance which can return the name of the symbol. Interned
//! symbols from the same `Interner` can be compared directly without a reference to the
//! `Interner` instance.
//!
//! Symbol names of 8 bytes or less are encoded directly in the `InternedSym` instance without
//! storing the name in the `Interner`. They are padded with a byte that never occurs in UTF-8 so
//! the length of the inline name can be recovered.
//!
//! The encoding for names larger than 8 bytes uses an index in to a `Vec` stored in the
//! `Interner`. The indexed representation starts with a byte that cannot start a UTF-8 sequence
//! so it cannot collide with a valid symbol name.

use vstd::prelude::*;
use vstd::string::*;
use vstd::utf8::*;

use crate::text::{fmt_lower_hex, lower_hex_text};

verus! {

/// Pads inline names to their full size. No UTF-8 sequence contains this byte.
pub const INLINE_FILL_BYTE: u8 = 0xff;

/// First byte of a symbol indexed in its interner's own names. Valid UTF-8 never starts with a
/// continuation byte so this cannot be the start of an inline name.
pub const LOCAL_INDEXED_FLAG: u8 = 0x81;

/// First byte of a symbol indexed in the global names
pub const GLOBAL_INDEXED_FLAG: u8 = 0x82;

/// Number of bytes in an interned symbol
pub const INLINE_SIZE: usize = 8;

/// Decoded form of an interned symbol
#[derive(Debug, PartialEq, Eq, Clone, Copy, Structural)]
pub enum InternedRepr {
    /// The name is stored in the symbol itself
    Inline,
    /// The name is stored in the interner at the given index
    LocalIndexed(u32),
    /// The name is stored in the global names at the given index
    GlobalIndexed(u32),
}

/// Number of bytes before the first fill byte
pub open spec fn inline_len(bytes: Seq<u8>) -> int
    decreases bytes.len(),
{
    if bytes.len() == 0 || bytes[0] == INLINE_FILL_BYTE {
        0
    } else {
        1 + inline_len(bytes.drop_first())
    }
}

/// Index stored in the last four bytes of an indexed symbol, lowest byte first
pub open spec fn indexed_value(bytes: Seq<u8>) -> int {
    bytes[4] + bytes[5] * 0x100 + bytes[6] * 0x1_0000 + bytes[7] * 0x100_0000
}

/// The eight bytes of an indexed symbol
pub open spec fn indexed_bytes(flag_byte: u8, index: u32) -> Seq<u8> {
    seq![
        flag_byte,
        0u8,
        0u8,
        0u8,
        (index % 0x100) as u8,
        (index / 0x100 % 0x100) as u8,
        (index / 0x1_0000 % 0x100) as u8,
        (index / 0x100_0000) as u8,
    ]
}

/// The eight bytes of an inline symbol: the name followed by fill bytes
pub open spec fn inline_bytes(name_bytes: Seq<u8>) -> Seq<u8> {
    Seq::new(
        8,
        |i: int|
            if i < name_bytes.len() {
                name_bytes[i]
            } else {
                INLINE_FILL_BYTE
            },
    )
}

/// Tells if `bytes` contains the fill byte
pub open spec fn has_fill_byte(bytes: Seq<u8>) -> bool {
    exists|i: int| 0 <= i < bytes.len() && #[trigger] bytes[i] == INLINE_FILL_BYTE
}

proof fn lemma_scalar_bytes(scalar: u32)
    by (bit_vector)
    ensures
        (scalar & 0x7F) as u8 <= 0x7f,
        0xc0 <= (0xC0u8 | ((scalar >> 6) & 0x1F) as u8) <= 0xdf,
        0xe0 <= (0xE0u8 | ((scalar >> 12) & 0x0F) as u8) <= 0xef,
        0xf0 <= (0xF0u8 | ((scalar >> 18) & 0x7) as u8) <= 0xf7,
        0x80 <= (0x80u8 | (scalar & 0x3F) as u8) <= 0xbf,
        0x80 <= (0x80u8 | ((scalar >> 6) & 0x3F) as u8) <= 0xbf,
        0x80 <= (0x80u8 | ((scalar >> 12) & 0x3F) as u8) <= 0xbf,
{
}

/// The UTF-8 encoding of text never contains the fill byte and never starts with a
/// continuation byte
pub proof fn lemma_encode_utf8_bytes(chars: Seq<char>)
    ensures
        !has_fill_byte(encode_utf8(chars)),
        chars.len() > 0 ==> encode_utf8(chars).len() > 0 && !is_continuation_byte(
            encode_utf8(chars)[0],
        ),
        chars.len() == 0 ==> encode_utf8(chars).len() == 0,
    decreases chars.len(),
{
    if chars.len() > 0 {
        let first = encode_scalar(chars[0] as u32);
        let rest = encode_utf8(chars.drop_first());
        lemma_scalar_bytes(chars[0] as u32);
        lemma_encode_utf8_bytes(chars.drop_first());
        assert(encode_utf8(chars) == first + rest);
        assert(forall|i: int| 0 <= i < first.len() ==> first[i] != INLINE_FILL_BYTE);
        if has_fill_byte(first + rest) {
            let i = choose|i: int|
                0 <= i < (first + rest).len() && #[trigger] (first + rest)[i] == INLINE_FILL_BYTE;
            if i >= first.len() {
                assert(rest[i - first.len()] == INLINE_FILL_BYTE);
            }
        }
    }
}

/// An inline symbol holding a name without fill bytes gives the length of the name back
pub proof fn lemma_inline_len(name_bytes: Seq<u8>)
    requires
        name_bytes.len() <= 8,
        !has_fill_byte(name_bytes),
    ensures
        inline_len(inline_bytes(name_bytes)) == name_bytes.len(),
        inline_bytes(name_bytes).subrange(0, name_bytes.len() as int) == name_bytes,
{
    let bytes = inline_bytes(name_bytes);
    lemma_inline_len_from(bytes, name_bytes.len() as int, 0);
    assert(bytes.subrange(0, 8) == bytes);
}

proof fn lemma_inline_len_from(bytes: Seq<u8>, len: int, from: int)
    requires
        0 <= from <= len <= bytes.len(),
        forall|i: int| 0 <= i < len ==> #[trigger] bytes[i] != INLINE_FILL_BYTE,
        forall|i: int| len <= i < bytes.len() ==> #[trigger] bytes[i] == INLINE_FILL_BYTE,
    ensures
        inline_len(bytes.subrange(from, bytes.len() as int)) == len - from,
    decreases bytes.len() - from,
{
    let tail = bytes.subrange(from, bytes.len() as int);
    if from < bytes.len() {
        assert(tail[0] == bytes[from]);
        if from < len {
            lemma_inline_len_from(bytes, len, from + 1);
            assert(tail.drop_first() == bytes.subrange(from + 1, bytes.len() as int));
        }
    }
}

/// Interned symbol name
///
/// This is either the name itself or an index in to the names of an `Interner` or the global
/// names.
#[derive(Debug, Clone, Copy, Hash)]
pub struct InternedSym {
    name_bytes: [u8; 8],
}

impl View for InternedSym {
    type V = Seq<u8>;

    /// The eight bytes of the symbol
    closed spec fn view(&self) -> Seq<u8> {
        self.name_bytes@
    }
}

impl InternedSym {
    /// Decoded form of the symbol
    pub open spec fn spec_repr(&self) -> InternedRepr {
        if self@[0] == LOCAL_INDEXED_FLAG {
            InternedRepr::LocalIndexed(indexed_value(self@) as u32)
        } else if self@[0] == GLOBAL_INDEXED_FLAG {
            InternedRepr::GlobalIndexed(indexed_value(self@) as u32)
        } else {
            InternedRepr::Inline
        }
    }

    /// The bytes of the name of an inline symbol
    pub open spec fn inline_name_bytes(&self) -> Seq<u8> {
        self@.subrange(0, inline_len(self@))
    }

    /// The name of an inline symbol
    pub open spec fn inline_name(&self) -> Seq<char> {
        decode_utf8(self.inline_name_bytes())
    }

    /// Tells if the symbol is one that the functions of this module build
    ///
    /// An inline symbol holds the UTF-8 encoding of its name followed by nothing but fill bytes.
    /// An indexed symbol holds its flag, three zero bytes and its index.
    pub open spec fn wf(&self) -> bool {
        &&& self@.len() == 8
        &&& match self.spec_repr() {
            InternedRepr::Inline => {
                &&& self@ == inline_bytes(self.inline_name_bytes())
                &&& self.inline_name_bytes() == encode_utf8(self.inline_name())
            },
            InternedRepr::LocalIndexed(index) => self@ == indexed_bytes(LOCAL_INDEXED_FLAG, index),
            InternedRepr::GlobalIndexed(index) => self@ == indexed_bytes(
                GLOBAL_INDEXED_FLAG,
                index,
            ),
        }
    }

    /// Tries to return an inline interned symbol
    ///
    /// This can be accomplished without an `Interner` as we don't need to add a name to the
    /// `Interner`'s index. Names longer than eight bytes cannot be inline.
    pub fn try_from_inline_name(name: &str) -> (interned: Option<InternedSym>)
        ensures
            interned is Some <==> encode_utf8(name@).len() <= INLINE_SIZE,
            interned matches Some(interned) ==> {
                &&& interned.wf()
                &&& interned.spec_repr() == InternedRepr::Inline
                &&& interned@ == inline_bytes(encode_utf8(name@))
                &&& interned.inline_name() == name@
            },
    {
        let bytes = name.as_bytes();
        if bytes.len() <= INLINE_SIZE {
            let mut name_bytes = [INLINE_FILL_BYTE;8];
            let mut i: usize = 0;
            while i < bytes.len()
                invariant
                    i <= bytes@.len() <= 8,
                    forall|j: int| 0 <= j < i ==> name_bytes@[j] == bytes@[j],
                    forall|j: int| i <= j < 8 ==> name_bytes@[j] == INLINE_FILL_BYTE,
                decreases bytes@.len() - i,
            {
                name_bytes[i] = bytes[i];
                i = i + 1;
            }
            let interned = InternedSym { name_bytes };
            proof {
                lemma_encode_utf8_bytes(name@);
                assert(interned@ == inline_bytes(bytes@));
                lemma_inline_len(bytes@);
                encode_utf8_decode_utf8(name@);
                if bytes@.len() > 0 {
                    assert(interned@[0] == bytes@[0]);
                }
            }
            Some(interned)
        } else {
            None
        }
    }

    /// Returns the symbol for the global name at `index`
    pub fn from_global_index(index: u32) -> (interned: InternedSym)
        ensures
            interned.wf(),
            interned.spec_repr() == InternedRepr::GlobalIndexed(index),
    {
        Self::from_index(GLOBAL_INDEXED_FLAG, index)
    }

    fn from_index(flag_byte: u8, index: u32) -> (interned: InternedSym)
        ensures
            interned@ == indexed_bytes(flag_byte, index),
            indexed_value(interned@) == index,
    {
        let mut name_bytes = [0u8;8];
        name_bytes[0] = flag_byte;
        name_bytes[4] = (index % 0x100) as u8;
        name_bytes[5] = (index / 0x100 % 0x100) as u8;
        name_bytes[6] = (index / 0x1_0000 % 0x100) as u8;
        name_bytes[7] = (index / 0x100_0000) as u8;
        let interned = InternedSym { name_bytes };
        assert(interned@ == indexed_bytes(flag_byte, index));
        interned
    }

    /// The bytes of the symbol read as one number, lowest byte first
    pub open spec fn spec_to_raw_u64(self) -> u64 {
        bytes_to_raw(
            self@[0],
            self@[1],
            self@[2],
            self@[3],
            self@[4],
            self@[5],
            self@[6],
            self@[7],
        ) as u64
    }

    /// Returns the bytes of the symbol as one number, lowest byte first
    ///
    /// Symbols are equal exactly if their numbers are.
    #[verifier::when_used_as_spec(spec_to_raw_u64)]
    pub fn to_raw_u64(self) -> (raw: u64)
        ensures
            raw == self.spec_to_raw_u64(),
    {
        let b0 = self.name_bytes[0] as u64;
        let b1 = self.name_bytes[1] as u64;
        let b2 = self.name_bytes[2] as u64;
        let b3 = self.name_bytes[3] as u64;
        let b4 = self.name_bytes[4] as u64;
        let b5 = self.name_bytes[5] as u64;
        let b6 = self.name_bytes[6] as u64;
        let b7 = self.name_bytes[7] as u64;
        b0 + b1 * 0x100 + b2 * 0x1_0000 + b3 * 0x100_0000 + b4 * 0x1_0000_0000 + b5
            * 0x100_0000_0000 + b6 * 0x1_0000_0000_0000 + b7 * 0x100_0000_0000_0000
    }

    /// Returns the decoded form of the symbol
    #[verifier::when_used_as_spec(spec_repr)]
    pub fn repr(&self) -> (repr: InternedRepr)
        ensures
            repr == self.spec_repr(),
    {
        let flag_byte = self.name_bytes[0];
        if flag_byte == LOCAL_INDEXED_FLAG {
            InternedRepr::LocalIndexed(self.name_index())
        } else if flag_byte == GLOBAL_INDEXED_FLAG {
            InternedRepr::GlobalIndexed(self.name_index())
        } else {
            InternedRepr::Inline
        }
    }

    /// Returns the name of an inline symbol
    pub fn inline_string(&self) -> (name: String)
        requires
            self.wf(),
            self.spec_repr() is Inline,
        ensures
            name@ == self.inline_name(),
    {
        let mut bytes: Vec<u8> = Vec::new();
        let mut i: usize = 0;
        proof {
            lemma_inline_len_bounds(self@);
            lemma_encode_utf8_bytes(self.inline_name());
        }
        while i < INLINE_SIZE && self.name_bytes[i] != INLINE_FILL_BYTE
            invariant
                self@.len() == 8,
                i <= 8,
                bytes@ == self@.subrange(0, i as int),
                forall|j: int| 0 <= j < i ==> self@[j] != INLINE_FILL_BYTE,
            decreases 8 - i,
        {
            bytes.push(self.name_bytes[i]);
            i = i + 1;
            assert(bytes@ == self@.subrange(0, i as int));
        }
        proof {
            let len = self.inline_name_bytes().len() as int;
            lemma_first_fill(self@, len, i as int);
            encode_utf8_valid_utf8(self.inline_name());
        }
        let name = string_from_utf8(bytes);
        proof {
            encode_utf8_decode_utf8(name@);
        }
        name
    }

    /// What `fmt_debug` gives
    ///
    /// Inline symbols show their name after a quote. Indexed symbols show their index in
    /// hexadecimal after a backquote, as their name cannot be told without their interner.
    pub open spec fn spec_debug_text(&self) -> Seq<char> {
        match self.spec_repr() {
            InternedRepr::Inline => "'"@ + self.inline_name(),
            InternedRepr::LocalIndexed(index) | InternedRepr::GlobalIndexed(index) => "`"@
                + lower_hex_text(index as nat),
        }
    }

    /// Returns the symbol as text for debugging
    pub fn fmt_debug(&self) -> (text: String)
        requires
            self.wf(),
        ensures
            text@ == self.spec_debug_text(),
    {
        match self.repr() {
            InternedRepr::Inline => {
                let name = self.inline_string();
                String::from_str("'").concat(name.as_str())
            },
            InternedRepr::LocalIndexed(index) | InternedRepr::GlobalIndexed(index) => {
                let digits = fmt_lower_hex(index as u64);
                String::from_str("`").concat(digits.as_str())
            },
        }
    }

    fn name_index(&self) -> (index: u32)
        ensures
            index == indexed_value(self@),
    {
        let b4 = self.name_bytes[4] as u32;
        let b5 = self.name_bytes[5] as u32;
        let b6 = self.name_bytes[6] as u32;
        let b7 = self.name_bytes[7] as u32;
        b4 + b5 * 0x100 + b6 * 0x1_0000 + b7 * 0x100_0000
    }
}

impl PartialEq for InternedSym {
    fn eq(&self, other: &InternedSym) -> (equal: bool) {
        let mut i: usize = 0;
        while i < INLINE_SIZE
            invariant
                i <= 8,
                forall|j: int| 0 <= j < i ==> self.name_bytes@[j] == other.name_bytes@[j],
            decreases 8 - i,
        {
            if self.name_bytes[i] != other.name_bytes[i] {
                return false;
            }
            i = i + 1;
        }
        assert(self.name_bytes@ =~= other.name_bytes@);
        true
    }
}

impl Eq for InternedSym {

}

impl vstd::std_specs::cmp::PartialEqSpecImpl for InternedSym {
    open spec fn obeys_eq_spec() -> bool {
        true
    }

    /// Interned symbols are equal if their bytes are
    open spec fn eq_spec(&self, other: &InternedSym) -> bool {
        self@ == other@
    }
}

/// Builds a `String` from its UTF-8 encoding
///
/// This hands `bytes` to `String::from_utf8` of the standard library, which takes any valid
/// UTF-8 as the content of the new `String` without changing it. The contract claims that the
/// result is the text `bytes` encodes.
#[verifier::external_body]
fn string_from_utf8(bytes: Vec<u8>) -> (text: String)
    requires
        valid_utf8(bytes@),
    ensures
        encode_utf8(text@) == bytes@,
{
    match String::from_utf8(bytes) {
        Ok(text) => text,
        Err(_) => String::new(),
    }
}

/// Name known to every interner of a program
///
/// Generated code refers to these by their position in a table that is handed to the runtime
/// when a task is launched.
#[derive(Debug, Clone)]
pub struct GlobalName {
    name: String,
}

impl View for GlobalName {
    type V = Seq<char>;

    closed spec fn view(&self) -> Seq<char> {
        self.name@
    }
}

impl GlobalName {
    pub fn new(name: String) -> (global_name: GlobalName)
        ensures
            global_name@ == name@,
    {
        GlobalName { name }
    }

    pub fn as_str(&self) -> (name: &str)
        ensures
            name@ == self@,
    {
        self.name.as_str()
    }
}

/// Table of symbol names too long to be stored inline
pub struct Interner {
    names: Vec<String>,
    /// Contains the highest static index + 1
    static_index_watermark: u32,
    global_names: Option<Vec<GlobalName>>,
}

impl Interner {
    /// The names indexed by this interner, by index
    pub closed spec fn names(&self) -> Seq<Seq<char>> {
        self.names@.map_values(|name: String| name@)
    }

    /// Every index below the watermark survives `clone_for_collect_garbage`
    pub closed spec fn static_index_watermark(&self) -> nat {
        self.static_index_watermark as nat
    }

    /// The global names, by index, if the interner was built with any
    pub closed spec fn global_names(&self) -> Option<Seq<Seq<char>>> {
        match self.global_names {
            Some(global_names) => Some(global_names@.map_values(|name: GlobalName| name@)),
            None => None,
        }
    }

    /// Tells if the interner is consistent
    ///
    /// Only names that do not fit inline are indexed, no name is indexed twice and every index
    /// fits in an interned symbol. An interner built with global names indexes no names of its
    /// own.
    pub open spec fn wf(&self) -> bool {
        &&& self.names().len() <= u32::MAX
        &&& self.static_index_watermark() <= self.names().len()
        &&& self.global_names() is Some ==> self.names().len() == 0
        &&& forall|i: int|
            0 <= i < self.names().len() ==> encode_utf8(#[trigger] self.names()[i]).len()
                > INLINE_SIZE
        &&& forall|i: int, j: int|
            0 <= i < j < self.names().len() ==> #[trigger] self.names()[i]
                != #[trigger] self.names()[j]
    }

    /// Tells if this interner can give the name of `interned`
    pub open spec fn knows(&self, interned: InternedSym) -> bool {
        &&& interned.wf()
        &&& match interned.spec_repr() {
            InternedRepr::Inline => true,
            InternedRepr::LocalIndexed(index) => index < self.names().len(),
            InternedRepr::GlobalIndexed(index) => self.global_names() is Some && index
                < self.global_names()->0.len(),
        }
    }

    /// The name of `interned`
    pub open spec fn spec_unintern(&self, interned: InternedSym) -> Seq<char> {
        match interned.spec_repr() {
            InternedRepr::Inline => interned.inline_name(),
            InternedRepr::LocalIndexed(index) => self.names()[index as int],
            InternedRepr::GlobalIndexed(index) => self.global_names()->0[index as int],
        }
    }

    /// Returns an interner without names
    pub fn new() -> (interner: Interner)
        ensures
            interner.wf(),
            interner.names() == Seq::<Seq<char>>::empty(),
            interner.static_index_watermark() == 0,
            interner.global_names() is None,
    {
        Self::with_global_names(None)
    }

    /// Returns an interner without names of its own that can give the name of symbols indexed
    /// in `global_names`
    pub fn with_global_names(global_names: Option<Vec<GlobalName>>) -> (interner: Interner)
        ensures
            interner.wf(),
            interner.names() == Seq::<Seq<char>>::empty(),
            interner.static_index_watermark() == 0,
            interner.global_names() == match global_names {
                Some(global_names) => Some(global_names@.map_values(|name: GlobalName| name@)),
                None => None,
            },
    {
        Interner { names: Vec::new(), static_index_watermark: 0, global_names }
    }

    /// Number of names indexed by this interner
    pub fn names_len(&self) -> (len: usize)
        ensures
            len == self.names().len(),
    {
        self.names.len()
    }

    /// Returns the index of `name` if it is indexed by this interner
    pub fn index_of_name(&self, name: &str) -> (index: Option<u32>)
        requires
            self.wf(),
        ensures
            index matches Some(index) ==> index < self.names().len() && self.names()[index as int]
                == name@,
            index is None ==> !self.names().contains(name@),
    {
        let owned = name.to_owned();
        let mut i: usize = 0;
        while i < self.names.len()
            invariant
                self.wf(),
                owned@ == name@,
                i <= self.names@.len(),
                forall|j: int| 0 <= j < i ==> self.names()[j] != name@,
            decreases self.names@.len() - i,
        {
            if self.names[i] == owned {
                assert(self.names()[i as int] == self.names@[i as int]@);
                return Some(i as u32);
            }
            assert(self.names()[i as int] == self.names@[i as int]@);
            i = i + 1;
        }
        None
    }

    /// Interns a symbol with the given name
    ///
    /// The result is inline if `name` takes eight bytes or fewer. Longer names are looked up in
    /// the names of the interner and added to them if they are new.
    ///
    /// Interning a long name with an interner built with global names is not supported.
    pub fn intern(&mut self, name: &str) -> (interned: InternedSym)
        requires
            old(self).wf(),
            encode_utf8(name@).len() > INLINE_SIZE ==> old(self).global_names() is None && (old(self).names().len() < u32::MAX || old(self).names().contains(name@)),
        ensures
            final(self).wf(),
            final(self).knows(interned),
            final(self).spec_unintern(interned) == name@,
            interned.spec_repr() is Inline <==> encode_utf8(name@).len() <= INLINE_SIZE,
            !(interned.spec_repr() is GlobalIndexed),
            final(self).names() == if encode_utf8(name@).len() <= INLINE_SIZE || old(self).names().contains(name@) {
                old(self).names()
            } else {
                old(self).names().push(name@)
            },
            final(self).static_index_watermark() == old(self).static_index_watermark(),
            final(self).global_names() == old(self).global_names(),
            forall|other: InternedSym| #[trigger]
                old(self).knows(other) ==> final(self).knows(other) && final(self).spec_unintern(
                    other,
                ) == old(self).spec_unintern(other),
    {
        if let Some(inline_interned) = InternedSym::try_from_inline_name(name) {
            return inline_interned;
        }
        let index = match self.index_of_name(name) {
            Some(index) => index,
            None => {
                let index = self.names.len() as u32;
                let ghost old_names = self.names();
                self.names.push(name.to_owned());
                proof {
                    assert(self.names() == old_names.push(name@));
                    assert forall|i: int, j: int| 0 <= i < j < self.names().len() implies #[trigger] self.names()[i]
                        != #[trigger] self.names()[j] by {
                        if j < old_names.len() {
                            assert(self.names()[i] == old_names[i]);
                            assert(self.names()[j] == old_names[j]);
                        } else {
                            assert(old_names.contains(old_names[i]));
                        }
                    }
                }
                index
            },
        };
        let interned = InternedSym::from_index(LOCAL_INDEXED_FLAG, index);
        interned
    }

    /// Interns a static symbol with the given name
    ///
    /// This should only be used where it's not possible to GC root the `InternedSym`. The
    /// symbol keeps its index when the interner is cloned for a collection, as does every
    /// symbol with a lower index.
    pub fn intern_static(&mut self, name: &str) -> (interned: InternedSym)
        requires
            old(self).wf(),
            encode_utf8(name@).len() > INLINE_SIZE ==> old(self).global_names() is None && (old(self).names().len() < u32::MAX || old(self).names().contains(name@)),
        ensures
            final(self).wf(),
            final(self).knows(interned),
            final(self).spec_unintern(interned) == name@,
            interned.spec_repr() is Inline <==> encode_utf8(name@).len() <= INLINE_SIZE,
            !(interned.spec_repr() is GlobalIndexed),
            final(self).names() == if encode_utf8(name@).len() <= INLINE_SIZE || old(self).names().contains(name@) {
                old(self).names()
            } else {
                old(self).names().push(name@)
            },
            final(self).static_index_watermark() == match interned.spec_repr() {
                InternedRepr::LocalIndexed(index) if index >= old(self).static_index_watermark() => (
                index + 1) as nat,
                _ => old(self).static_index_watermark(),
            },
            final(self).global_names() == old(self).global_names(),
            forall|other: InternedSym| #[trigger]
                old(self).knows(other) ==> final(self).knows(other) && final(self).spec_unintern(
                    other,
                ) == old(self).spec_unintern(other),
    {
        let interned_sym = self.intern(name);

        if let InternedRepr::LocalIndexed(name_index) = interned_sym.repr() {
            if name_index >= self.static_index_watermark {
                self.static_index_watermark = name_index + 1;
            }
        }
        interned_sym
    }

    /// Returns the name of `interned`
    pub fn unintern(&self, interned: &InternedSym) -> (name: String)
        requires
            self.knows(*interned),
        ensures
            name@ == self.spec_unintern(*interned),
    {
        match interned.repr() {
            InternedRepr::LocalIndexed(index) => {
                assert(self.names()[index as int] == self.names@[index as int]@);
                self.names[index as usize].clone()
            },
            InternedRepr::GlobalIndexed(index) => {
                match &self.global_names {
                    Some(global_names) => {
                        global_names[index as usize].as_str().to_owned()
                    },
                    None => String::new(),
                }
            },
            InternedRepr::Inline => interned.inline_string(),
        }
    }

    /// Returns a clone of this interner usable for garbage collection
    ///
    /// This preserves the index of all static `InternedSym`s. Every other indexed name is
    /// dropped; symbols referring to them have to be interned again.
    pub fn clone_for_collect_garbage(&self) -> (cloned: Interner)
        requires
            self.wf(),
        ensures
            cloned.wf(),
            cloned.names() == self.names().subrange(0, self.static_index_watermark() as int),
            cloned.static_index_watermark() == self.static_index_watermark(),
            cloned.global_names() == self.global_names(),
    {
        let mut names: Vec<String> = Vec::new();
        let mut i: usize = 0;
        while i < self.static_index_watermark as usize
            invariant
                self.wf(),
                i <= self.static_index_watermark <= self.names@.len(),
                names@.map_values(|name: String| name@) == self.names().subrange(0, i as int),
            decreases self.static_index_watermark - i,
        {
            let ghost prev = names@.map_values(|name: String| name@);
            names.push(self.names[i].clone());
            proof {
                assert(self.names()[i as int] == self.names@[i as int]@);
                assert(names@.map_values(|name: String| name@) == prev.push(self.names()[i as int]));
                assert(self.names().subrange(0, i as int + 1) == self.names().subrange(
                    0,
                    i as int,
                ).push(self.names()[i as int]));
            }
            i = i + 1;
        }
        let global_names = match &self.global_names {
            Some(global_names) => {
                let mut cloned_names: Vec<GlobalName> = Vec::new();
                let mut i: usize = 0;
                while i < global_names.len()
                    invariant
                        i <= global_names@.len(),
                        cloned_names@.len() == i,
                        forall|j: int| 0 <= j < i ==> cloned_names@[j]@ == global_names@[j]@,
                    decreases global_names@.len() - i,
                {
                    cloned_names.push(GlobalName { name: global_names[i].name.clone() });
                    i = i + 1;
                }
                assert(cloned_names@.map_values(|name: GlobalName| name@)
                    == global_names@.map_values(|name: GlobalName| name@));
                Some(cloned_names)
            },
            None => None,
        };
        Interner { names, static_index_watermark: self.static_index_watermark, global_names }
    }
}

impl Default for Interner {
    fn default() -> (interner: Interner)
        ensures
            interner.wf(),
            interner.names() == Seq::<Seq<char>>::empty(),
            interner.static_index_watermark() == 0,
            interner.global_names() is None,
    {
        Self::new()
    }
}

/// The first fill byte of an inline symbol stands where its name ends
proof fn lemma_first_fill(bytes: Seq<u8>, len: int, i: int)
    requires
        bytes.len() == 8,
        0 <= len <= 8,
        0 <= i <= 8,
        forall|j: int| 0 <= j < len ==> #[trigger] bytes[j] != INLINE_FILL_BYTE,
        forall|j: int| len <= j < 8 ==> #[trigger] bytes[j] == INLINE_FILL_BYTE,
        forall|j: int| 0 <= j < i ==> #[trigger] bytes[j] != INLINE_FILL_BYTE,
        i < 8 ==> bytes[i] == INLINE_FILL_BYTE,
    ensures
        i == len,
{
    if i < len {
        assert(bytes[i] != INLINE_FILL_BYTE);
    }
    if len < i {
        assert(bytes[len] == INLINE_FILL_BYTE);
    }
}

/// The length of an inline name never exceeds the number of bytes it was found in
pub proof fn lemma_inline_len_bounds(bytes: Seq<u8>)
    ensures
        0 <= inline_len(bytes) <= bytes.len(),
    decreases bytes.len(),
{
    if bytes.len() > 0 && bytes[0] != INLINE_FILL_BYTE {
        lemma_inline_len_bounds(bytes.drop_first());
    }
}

/// An indexed symbol gives back the index it was built from
pub proof fn lemma_indexed_value(flag_byte: u8, index: u32)
    ensures
        indexed_value(indexed_bytes(flag_byte, index)) == index,
{
}

/// Two symbols of one interner are equal exactly if they have the same name
///
/// This holds for the symbols an interner hands out: inline symbols and symbols indexed in its
/// own names.
pub proof fn lemma_equal_iff_same_name(interner: &Interner, a: InternedSym, b: InternedSym)
    requires
        interner.wf(),
        interner.knows(a),
        interner.knows(b),
        !(a.spec_repr() is GlobalIndexed),
        !(b.spec_repr() is GlobalIndexed),
    ensures
        a@ == b@ <==> interner.spec_unintern(a) == interner.spec_unintern(b),
        a == b <==> a@ == b@,
{
    assert(a == b <==> a@ == b@) by {
        if a@ == b@ {
            assert(a.name_bytes =~= b.name_bytes);
        }
    }
    lemma_inline_len_bounds(a@);
    lemma_inline_len_bounds(b@);
    match (a.spec_repr(), b.spec_repr()) {
        (InternedRepr::LocalIndexed(index_a), InternedRepr::LocalIndexed(index_b)) => {
            lemma_indexed_value(LOCAL_INDEXED_FLAG, index_a);
            lemma_indexed_value(LOCAL_INDEXED_FLAG, index_b);
            if index_a < index_b {
                assert(interner.names()[index_a as int] != interner.names()[index_b as int]);
            }
            if index_b < index_a {
                assert(interner.names()[index_b as int] != interner.names()[index_a as int]);
            }
        },
        (InternedRepr::LocalIndexed(index), InternedRepr::Inline) => {
            assert(a@[0] != b@[0]);
            assert(encode_utf8(interner.names()[index as int]).len() > INLINE_SIZE);
        },
        (InternedRepr::Inline, InternedRepr::LocalIndexed(index)) => {
            assert(a@[0] != b@[0]);
            assert(encode_utf8(interner.names()[index as int]).len() > INLINE_SIZE);
        },
        _ => {},
    }
}

/// Cloning an interner for a collection keeps every symbol that needs no index above the
/// static watermark: inline symbols, symbols interned as static and symbols with global names
pub proof fn lemma_static_syms_survive(before: &Interner, cloned: &Interner, interned: InternedSym)
    requires
        before.wf(),
        cloned.names() == before.names().subrange(0, before.static_index_watermark() as int),
        cloned.global_names() == before.global_names(),
        before.knows(interned),
        interned.spec_repr() matches InternedRepr::LocalIndexed(index) ==> index
            < before.static_index_watermark(),
    ensures
        cloned.knows(interned),
        cloned.spec_unintern(interned) == before.spec_unintern(interned),
{
}

/// The number made of eight bytes, lowest byte first
pub open spec fn bytes_to_raw(
    b0: u8,
    b1: u8,
    b2: u8,
    b3: u8,
    b4: u8,
    b5: u8,
    b6: u8,
    b7: u8,
) -> int {
    b0 + 0x100 * (b1 + 0x100 * (b2 + 0x100 * (b3 + 0x100 * (b4 + 0x100 * (b5 + 0x100 * (b6 + 0x100
        * b7))))))
}

/// Numbers made of eight bytes are equal only if their bytes are
proof fn lemma_bytes_to_raw_injective(a: Seq<u8>, b: Seq<u8>)
    requires
        a.len() == 8,
        b.len() == 8,
        bytes_to_raw(a[0], a[1], a[2], a[3], a[4], a[5], a[6], a[7]) == bytes_to_raw(
            b[0],
            b[1],
            b[2],
            b[3],
            b[4],
            b[5],
            b[6],
            b[7],
        ),
    ensures
        a =~= b,
{
    let a1 = a[1] + 0x100 * (a[2] + 0x100 * (a[3] + 0x100 * (a[4] + 0x100 * (a[5] + 0x100 * (a[6]
        + 0x100 * a[7])))));
    let b1 = b[1] + 0x100 * (b[2] + 0x100 * (b[3] + 0x100 * (b[4] + 0x100 * (b[5] + 0x100 * (b[6]
        + 0x100 * b[7])))));
    assert(a[0] == b[0] && a1 == b1) by {
        assert((a[0] + 0x100 * a1) % 0x100 == a[0] as int);
        assert((b[0] + 0x100 * b1) % 0x100 == b[0] as int);
    }
    let a2 = a[2] + 0x100 * (a[3] + 0x100 * (a[4] + 0x100 * (a[5] + 0x100 * (a[6] + 0x100
        * a[7]))));
    let b2 = b[2] + 0x100 * (b[3] + 0x100 * (b[4] + 0x100 * (b[5] + 0x100 * (b[6] + 0x100
        * b[7]))));
    assert(a[1] == b[1] && a2 == b2) by {
        assert((a[1] + 0x100 * a2) % 0x100 == a[1] as int);
        assert((b[1] + 0x100 * b2) % 0x100 == b[1] as int);
    }
    let a3 = a[3] + 0x100 * (a[4] + 0x100 * (a[5] + 0x100 * (a[6] + 0x100 * a[7])));
    let b3 = b[3] + 0x100 * (b[4] + 0x100 * (b[5] + 0x100 * (b[6] + 0x100 * b[7])));
    assert(a[2] == b[2] && a3 == b3) by {
        assert((a[2] + 0x100 * a3) % 0x100 == a[2] as int);
        assert((b[2] + 0x100 * b3) % 0x100 == b[2] as int);
    }
    let a4 = a[4] + 0x100 * (a[5] + 0x100 * (a[6] + 0x100 * a[7]));
    let b4 = b[4] + 0x100 * (b[5] + 0x100 * (b[6] + 0x100 * b[7]));
    assert(a[3] == b[3] && a4 == b4) by {
        assert((a[3] + 0x100 * a4) % 0x100 == a[3] as int);
        assert((b[3] + 0x100 * b4) % 0x100 == b[3] as int);
    }
    let a5 = a[5] + 0x100 * (a[6] + 0x100 * a[7]);
    let b5 = b[5] + 0x100 * (b[6] + 0x100 * b[7]);
    assert(a[4] == b[4] && a5 == b5) by {
        assert((a[4] + 0x100 * a5) % 0x100 == a[4] as int);
        assert((b[4] + 0x100 * b5) % 0x100 == b[4] as int);
    }
    let a6 = a[6] + 0x100 * a[7];
    let b6 = b[6] + 0x100 * b[7];
    assert(a[5] == b[5] && a6 == b6) by {
        assert((a[5] + 0x100 * a6) % 0x100 == a[5] as int);
        assert((b[5] + 0x100 * b6) % 0x100 == b[5] as int);
    }
    assert(a[6] == b[6] && a[7] == b[7]) by {
        assert((a[6] + 0x100 * a[7]) % 0x100 == a[6] as int);
        assert((b[6] + 0x100 * b[7]) % 0x100 == b[6] as int);
    }
}

/// Symbols with the same number have the same bytes
pub proof fn lemma_raw_u64_is_injective(a: InternedSym, b: InternedSym)
    requires
        a@.len() == 8,
        b@.len() == 8,
    ensures
        a.spec_to_raw_u64() == b.spec_to_raw_u64() <==> a@ == b@,
{
    if a.spec_to_raw_u64() == b.spec_to_raw_u64() {
        lemma_bytes_to_raw_injective(a@, b@);
    }
}

} // verus!
