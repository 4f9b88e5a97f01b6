//! 8.3 names: splitting a query at its dots, padding it into the two stored
//! fields, and comparing a query against stored fields.

use crate::fat32::entry::DirectoryEntry;
use crate::fat32::error::FsError;
use vstd::prelude::*;
use vstd::string::StringSliceAdditionalSpecFns;

verus! {

/// The byte that separates base and extension.
pub const DOT: u8 = 0x2E;

/// The byte that pads a stored field.
pub const SPACE: u8 = 0x20;

/// Position of the first `sep` in `s`, or the length of `s` if there is none.
pub open spec fn first_index(s: Seq<u8>, sep: u8) -> nat
    decreases s.len(),
{
    if s.len() == 0 || s[0] == sep {
        0
    } else {
        1 + first_index(s.subrange(1, s.len() as int), sep)
    }
}

/// The part of `s` before its first `sep`.
pub open spec fn head_part(s: Seq<u8>, sep: u8) -> Seq<u8> {
    s.subrange(0, first_index(s, sep) as int)
}

/// Whether `s` holds a `sep`.
pub open spec fn has_tail(s: Seq<u8>, sep: u8) -> bool {
    first_index(s, sep) < s.len()
}

/// The part of `s` after its first `sep`.
pub open spec fn tail_part(s: Seq<u8>, sep: u8) -> Seq<u8> {
    s.subrange(first_index(s, sep) as int + 1, s.len() as int)
}

/// The base of a query name: what stands before its first dot.
pub open spec fn base_of(query: Seq<u8>) -> Seq<u8> {
    head_part(query, DOT)
}

/// The extension of a query name: what stands between its first and its
/// second dot; empty where it has no dot.
pub open spec fn ext_of(query: Seq<u8>) -> Seq<u8> {
    if has_tail(query, DOT) {
        head_part(tail_part(query, DOT), DOT)
    } else {
        Seq::empty()
    }
}

/// Whether a query name has more than two dot-separated parts.
pub open spec fn too_many_parts(query: Seq<u8>) -> bool {
    has_tail(query, DOT) && has_tail(tail_part(query, DOT), DOT)
}

/// `s` followed by spaces up to `width` bytes.
pub open spec fn padded(s: Seq<u8>, width: nat) -> Seq<u8> {
    Seq::new(
        width,
        |i: int|
            if i < s.len() {
                s[i]
            } else {
                SPACE
            },
    )
}

/// What parsing a query name gives: the padded name and extension fields, or
/// the reason for which the name is refused.
pub open spec fn parse_outcome(query: Seq<u8>) -> Result<(Seq<u8>, Seq<u8>), FsError> {
    if base_of(query).len() > 8 {
        Err(FsError::NameTooLong)
    } else if ext_of(query).len() > 3 {
        Err(FsError::NameTooLong)
    } else if too_many_parts(query) {
        Err(FsError::InvalidName)
    } else {
        Ok((padded(base_of(query), 8), padded(ext_of(query), 3)))
    }
}

/// Number of bytes of `field` before the spaces at its end.
pub open spec fn trimmed_len(field: Seq<u8>) -> nat
    decreases field.len(),
{
    if field.len() == 0 || field.last() != SPACE {
        field.len()
    } else {
        trimmed_len(field.drop_last())
    }
}

/// The text of `bytes`: each byte taken as the character of that code and
/// kept, in UTF-8, as long as it still fits into `capacity` bytes.
pub open spec fn text_of(bytes: Seq<u8>, capacity: nat) -> Seq<u8>
    decreases bytes.len(),
{
    if bytes.len() == 0 {
        Seq::empty()
    } else {
        let before = text_of(bytes.drop_last(), capacity);
        let encoded = vstd::utf8::encode_utf8(seq![bytes.last() as char]);
        if before.len() + encoded.len() <= capacity {
            before + encoded
        } else {
            before
        }
    }
}

/// The text that a stored field stands for: the text of its bytes without
/// the spaces that pad it at its end. Spaces before another byte stay.
pub open spec fn held_text(field: Seq<u8>, capacity: nat) -> Seq<u8> {
    text_of(field.subrange(0, trimmed_len(field) as int), capacity)
}

/// Whether stored name and extension fields stand for the query name; a
/// query without extension matches only an empty stored extension.
pub open spec fn fields_match(name: Seq<u8>, ext: Seq<u8>, query: Seq<u8>) -> bool {
    held_text(name, 8) == base_of(query) && held_text(ext, 3) == ext_of(query)
}

/// What comparing stored fields against a query name gives.
pub open spec fn compare_outcome(name: Seq<u8>, ext: Seq<u8>, query: Seq<u8>) -> Result<
    bool,
    FsError,
> {
    if too_many_parts(query) {
        Err(FsError::InvalidName)
    } else {
        Ok(fields_match(name, ext, query))
    }
}

/// The string of fixed capacity of the crate heapless, in which the text of
/// a stored field is put together. Nothing of what it holds is known but
/// through the functions below, whose contracts are taken on trust.
#[verifier::external_type_specification]
#[verifier::external_body]
pub struct ExHeaplessString<const N: usize>(heapless::String<N>);

/// The UTF-8 bytes held by a buffer of capacity eight.
pub uninterp spec fn base_buffer_bytes(s: heapless::String<8>) -> Seq<u8>;

/// The UTF-8 bytes held by a buffer of capacity three.
pub uninterp spec fn ext_buffer_bytes(s: heapless::String<3>) -> Seq<u8>;

/// `heapless::String::<8>::new`: a fresh buffer holds no bytes.
#[verifier::external_body]
fn base_buffer_new() -> (s: heapless::String<8>)
    ensures
        base_buffer_bytes(s) == Seq::<u8>::empty(),
{
    heapless::String::new()
}

/// `heapless::String::<8>::push`: appends the UTF-8 encoding of `c` when the
/// whole encoding still fits into the eight bytes, and otherwise changes
/// nothing and reports failure.
#[verifier::external_body]
fn base_buffer_push(s: &mut heapless::String<8>, c: char) -> (pushed: bool)
    ensures
        pushed == (base_buffer_bytes(*old(s)).len() + vstd::utf8::encode_utf8(seq![c]).len() <= 8),
        pushed ==> base_buffer_bytes(*final(s)) == base_buffer_bytes(*old(s))
            + vstd::utf8::encode_utf8(seq![c]),
        !pushed ==> base_buffer_bytes(*final(s)) == base_buffer_bytes(*old(s)),
{
    s.push(c).is_ok()
}

/// `heapless::String::<8>::as_str`: the text whose UTF-8 encoding is what the
/// buffer holds.
#[verifier::external_body]
fn base_buffer_as_str(s: &heapless::String<8>) -> (text: &str)
    ensures
        text.spec_bytes() == base_buffer_bytes(*s),
{
    s.as_str()
}

/// `heapless::String::<3>::new`: a fresh buffer holds no bytes.
#[verifier::external_body]
fn ext_buffer_new() -> (s: heapless::String<3>)
    ensures
        ext_buffer_bytes(s) == Seq::<u8>::empty(),
{
    heapless::String::new()
}

/// `heapless::String::<3>::push`: appends the UTF-8 encoding of `c` when the
/// whole encoding still fits into the three bytes, and otherwise changes
/// nothing and reports failure.
#[verifier::external_body]
fn ext_buffer_push(s: &mut heapless::String<3>, c: char) -> (pushed: bool)
    ensures
        pushed == (ext_buffer_bytes(*old(s)).len() + vstd::utf8::encode_utf8(seq![c]).len() <= 3),
        pushed ==> ext_buffer_bytes(*final(s)) == ext_buffer_bytes(*old(s))
            + vstd::utf8::encode_utf8(seq![c]),
        !pushed ==> ext_buffer_bytes(*final(s)) == ext_buffer_bytes(*old(s)),
{
    s.push(c).is_ok()
}

/// `heapless::String::<3>::as_str`: the text whose UTF-8 encoding is what the
/// buffer holds.
#[verifier::external_body]
fn ext_buffer_as_str(s: &heapless::String<3>) -> (text: &str)
    ensures
        text.spec_bytes() == ext_buffer_bytes(*s),
{
    s.as_str()
}

/// `first_index` is the one position before which no `sep` stands and at
/// which one stands, unless it is the end.
pub proof fn lemma_first_index(s: Seq<u8>, sep: u8, i: int)
    requires
        0 <= i <= s.len(),
        forall|j: int| 0 <= j < i ==> s[j] != sep,
        i == s.len() || s[i] == sep,
    ensures
        first_index(s, sep) == i,
    decreases s.len(),
{
    if s.len() == 0 || s[0] == sep {
    } else {
        let rest = s.subrange(1, s.len() as int);
        assert forall|j: int| 0 <= j < i - 1 implies rest[j] != sep by {
            assert(rest[j] == s[j + 1]);
        }
        lemma_first_index(rest, sep, i - 1);
    }
}

/// `first_index` lies within the sequence, no `sep` stands before it, and
/// one stands at it unless it is the end.
pub proof fn lemma_first_index_bounds(s: Seq<u8>, sep: u8)
    ensures
        0 <= first_index(s, sep) <= s.len(),
        forall|j: int| 0 <= j < first_index(s, sep) ==> s[j] != sep,
        first_index(s, sep) < s.len() ==> s[first_index(s, sep) as int] == sep,
    decreases s.len(),
{
    if s.len() == 0 || s[0] == sep {
    } else {
        let rest = s.subrange(1, s.len() as int);
        lemma_first_index_bounds(rest, sep);
        assert forall|j: int| 0 <= j < first_index(s, sep) implies s[j] != sep by {
            if j > 0 {
                assert(rest[j - 1] == s[j]);
            }
        }
        if first_index(s, sep) < s.len() {
            assert(rest[first_index(rest, sep) as int] == s[first_index(s, sep) as int]);
        }
    }
}

/// Position of the first `sep` at or after `from`, or the length of `bytes`.
pub fn find_byte(bytes: &[u8], from: usize, sep: u8) -> (at: usize)
    requires
        from <= bytes@.len(),
    ensures
        from <= at <= bytes@.len(),
        at - from == first_index(bytes@.subrange(from as int, bytes@.len() as int), sep),
{
    let n: usize = bytes.len();
    let mut i: usize = from;
    while i < n && bytes[i] != sep
        invariant
            from <= i <= n,
            n == bytes@.len(),
            forall|j: int| from <= j < i ==> bytes@[j] != sep,
        decreases n - i,
    {
        i += 1;
    }
    proof {
        lemma_first_index(bytes@.subrange(from as int, n as int), sep, i - from);
    }
    i
}

/// Whether two byte strings are equal.
pub fn bytes_equal(a: &[u8], b: &[u8]) -> (equal: bool)
    ensures
        equal == (a@ == b@),
{
    if a.len() != b.len() {
        return false;
    }
    let n: usize = a.len();
    let mut i: usize = 0;
    while i < n
        invariant
            i <= n,
            n == a@.len(),
            n == b@.len(),
            forall|j: int| 0 <= j < i ==> a@[j] == b@[j],
        decreases n - i,
    {
        if a[i] != b[i] {
            return false;
        }
        i += 1;
    }
    assert(a@ =~= b@);
    true
}

/// The trimmed length lies within the field.
pub proof fn lemma_trimmed_len_bound(field: Seq<u8>)
    ensures
        trimmed_len(field) <= field.len(),
    decreases field.len(),
{
    if field.len() > 0 && field.last() == SPACE {
        lemma_trimmed_len_bound(field.drop_last());
    }
}

/// Number of bytes of `field` before the spaces at its end.
pub fn trimmed_width<const N: usize>(field: &[u8; N]) -> (width: usize)
    ensures
        width == trimmed_len(field@),
        width <= N,
{
    let mut width: usize = N;
    assert(field@.subrange(0, N as int) =~= field@);
    while width > 0 && field[width - 1] == SPACE
        invariant
            width <= N,
            N == field@.len(),
            trimmed_len(field@) == trimmed_len(field@.subrange(0, width as int)),
        decreases width,
    {
        assert(field@.subrange(0, width as int).drop_last() =~= field@.subrange(0, width - 1));
        width -= 1;
    }
    width
}

/// The text that a stored name field stands for, in a buffer of its width.
fn name_field_text(field: &[u8; 8]) -> (s: heapless::String<8>)
    ensures
        base_buffer_bytes(s) == held_text(field@, 8),
{
    let width: usize = trimmed_width(field);
    let mut s = base_buffer_new();
    let mut i: usize = 0;
    while i < width
        invariant
            i <= width <= 8,
            base_buffer_bytes(s) == text_of(field@.subrange(0, i as int), 8),
        decreases width - i,
    {
        let c: u8 = field[i];
        proof {
            let upto = field@.subrange(0, i + 1);
            assert(upto.drop_last() =~= field@.subrange(0, i as int));
            assert(upto.last() == c);
        }
        let _ = base_buffer_push(&mut s, c as char);
        i += 1;
    }
    s
}

/// The text that a stored extension field stands for, in a buffer of its width.
fn ext_field_text(field: &[u8; 3]) -> (s: heapless::String<3>)
    ensures
        ext_buffer_bytes(s) == held_text(field@, 3),
{
    let width: usize = trimmed_width(field);
    let mut s = ext_buffer_new();
    let mut i: usize = 0;
    while i < width
        invariant
            i <= width <= 3,
            ext_buffer_bytes(s) == text_of(field@.subrange(0, i as int), 3),
        decreases width - i,
    {
        let c: u8 = field[i];
        proof {
            let upto = field@.subrange(0, i + 1);
            assert(upto.drop_last() =~= field@.subrange(0, i as int));
            assert(upto.last() == c);
        }
        let _ = ext_buffer_push(&mut s, c as char);
        i += 1;
    }
    s
}

/// The query name's parts: where its base ends, where its extension starts
/// and ends, and whether more parts follow.
pub struct NameParts {
    pub base_end: usize,
    pub ext_start: usize,
    pub ext_end: usize,
    pub more: bool,
}

/// Splits a query name at its first two dots.
pub fn split_name(query: &[u8]) -> (parts: NameParts)
    ensures
        parts.base_end <= parts.ext_start <= parts.ext_end <= query@.len(),
        query@.subrange(0, parts.base_end as int) == base_of(query@),
        query@.subrange(parts.ext_start as int, parts.ext_end as int) == ext_of(query@),
        parts.more == too_many_parts(query@),
{
    let n: usize = query.len();
    let base_end: usize = find_byte(query, 0, DOT);
    assert(query@.subrange(0, n as int) =~= query@);
    if base_end == n {
        assert(query@.subrange(n as int, n as int) =~= Seq::<u8>::empty());
        return NameParts { base_end, ext_start: n, ext_end: n, more: false };
    }
    let ext_start: usize = base_end + 1;
    let ext_end: usize = find_byte(query, ext_start, DOT);
    proof {
        let tail = tail_part(query@, DOT);
        assert(tail =~= query@.subrange(ext_start as int, n as int));
        assert(head_part(tail, DOT) =~= query@.subrange(ext_start as int, ext_end as int));
    }
    NameParts { base_end, ext_start, ext_end, more: ext_end < n }
}

impl DirectoryEntry {
    /// Whether this entry's stored name stands for the query name `filename`,
    /// given with its extension after a dot. Fails with `InvalidName` where
    /// the query has more than two dot-separated parts.
    pub fn compare_filename(&self, filename: &str) -> (result: Result<bool, FsError>)
        ensures
            result == compare_outcome(self@.name, self@.ext, filename.spec_bytes()),
    {
        self.matches_name(filename.as_bytes())
    }

    /// As [`DirectoryEntry::compare_filename`], for a query given in bytes.
    pub fn matches_name(&self, query: &[u8]) -> (result: Result<bool, FsError>)
        ensures
            result == compare_outcome(self@.name, self@.ext, query@),
    {
        let parts = split_name(query);
        if parts.more {
            return Err(FsError::InvalidName);
        }
        let base = name_field_text(&self.file_name);
        let base_text = base_buffer_as_str(&base);
        if !bytes_equal(
            base_text.as_bytes(),
            vstd::slice::slice_subrange(query, 0, parts.base_end),
        ) {
            return Ok(false);
        }
        let ext = ext_field_text(&self.file_ext);
        let ext_text = ext_buffer_as_str(&ext);
        Ok(
            bytes_equal(
                ext_text.as_bytes(),
                vstd::slice::slice_subrange(query, parts.ext_start, parts.ext_end),
            ),
        )
    }

    /// The padded name and extension fields for the name `filename`, given
    /// with its extension after a dot. Fails with `NameTooLong` where the base
    /// is longer than 8 bytes or the extension longer than 3, and with
    /// `InvalidName` where the name has more than two dot-separated parts.
    pub fn parse_filename(filename: &str) -> (result: Result<([u8; 8], [u8; 3]), FsError>)
        ensures
            match parse_outcome(filename.spec_bytes()) {
                Ok((name, ext)) => result is Ok && result->Ok_0.0@ == name && result->Ok_0.1@ == ext,
                Err(e) => result == Err::<([u8; 8], [u8; 3]), FsError>(e),
            },
    {
        DirectoryEntry::parse_name(filename.as_bytes())
    }

    /// As [`DirectoryEntry::parse_filename`], for a name given in bytes.
    pub fn parse_name(query: &[u8]) -> (result: Result<([u8; 8], [u8; 3]), FsError>)
        ensures
            match parse_outcome(query@) {
                Ok((name, ext)) => result is Ok && result->Ok_0.0@ == name && result->Ok_0.1@ == ext,
                Err(e) => result == Err::<([u8; 8], [u8; 3]), FsError>(e),
            },
    {
        let parts = split_name(query);
        if parts.base_end > 8 {
            return Err(FsError::NameTooLong);
        }
        if parts.ext_end - parts.ext_start > 3 {
            return Err(FsError::NameTooLong);
        }
        if parts.more {
            return Err(FsError::InvalidName);
        }
        let mut name: [u8; 8] = [SPACE; 8];
        let mut ext: [u8; 3] = [SPACE; 3];
        let total: usize = query.len();
        let mut i: usize = 0;
        while i < parts.base_end
            invariant
                i <= parts.base_end <= 8,
                parts.base_end <= query@.len(),
                forall|j: int| 0 <= j < i ==> name@[j] == query@[j],
                forall|j: int| i <= j < 8 ==> name@[j] == SPACE,
            decreases parts.base_end - i,
        {
            name[i] = query[i];
            i += 1;
        }
        let width: usize = parts.ext_end - parts.ext_start;
        let mut k: usize = 0;
        while k < width
            invariant
                k <= width <= 3,
                total == query@.len(),
                width == parts.ext_end - parts.ext_start,
                parts.ext_end <= query@.len(),
                forall|j: int| 0 <= j < k ==> ext@[j] == query@[parts.ext_start + j],
                forall|j: int| k <= j < 3 ==> ext@[j] == SPACE,
            decreases width - k,
        {
            ext[k] = query[parts.ext_start + k];
            k += 1;
        }
        assert(name@ =~= padded(base_of(query@), 8));
        assert(ext@ =~= padded(ext_of(query@), 3));
        Ok((name, ext))
    }
}

/// Whether `part` does not end in a space.
pub open spec fn ends_plain(part: Seq<u8>) -> bool {
    part.len() == 0 || part.last() != SPACE
}

/// A valid 8.3 name: a base of at most 8 bytes, an extension of at most 3,
/// not more than one dot, a dot only before a non-empty extension, only
/// ASCII bytes, and no space at the end of the base or of the extension.
pub open spec fn valid_short_name(query: Seq<u8>) -> bool {
    &&& base_of(query).len() <= 8
    &&& ext_of(query).len() <= 3
    &&& !too_many_parts(query)
    &&& (has_tail(query, DOT) ==> ext_of(query).len() > 0)
    &&& forall|i: int| 0 <= i < query.len() ==> query[i] < 0x80
    &&& ends_plain(base_of(query))
    &&& ends_plain(ext_of(query))
}

/// The name that a base text and an extension text render to: the base
/// alone where the extension is empty, else base, dot and extension.
pub open spec fn rendered(base: Seq<u8>, ext: Seq<u8>) -> Seq<u8> {
    if ext.len() == 0 {
        base
    } else {
        base + seq![DOT] + ext
    }
}

/// An ASCII byte, taken as a character, encodes to itself.
pub proof fn lemma_ascii_byte_text(b: u8)
    requires
        b < 0x80,
    ensures
        vstd::utf8::encode_utf8(seq![b as char]) == seq![b],
{
    let chars = seq![b as char];
    assert(vstd::utf8::is_ascii_chars(chars));
    vstd::utf8::is_ascii_chars_encode_utf8(chars);
    assert(vstd::utf8::encode_utf8(chars) =~= seq![b]);
}

/// ASCII bytes that fit the capacity are their own text.
pub proof fn lemma_text_of_plain(text: Seq<u8>, capacity: nat)
    requires
        text.len() <= capacity,
        forall|i: int| 0 <= i < text.len() ==> text[i] < 0x80,
    ensures
        text_of(text, capacity) == text,
    decreases text.len(),
{
    if text.len() > 0 {
        lemma_text_of_plain(text.drop_last(), capacity);
        lemma_ascii_byte_text(text.last());
        assert(text.drop_last() + seq![text.last()] =~= text);
    }
}

/// A text that does not end in a space, padded with spaces, is trimmed to
/// itself.
pub proof fn lemma_trimmed_padded(text: Seq<u8>, width: nat)
    requires
        text.len() <= width,
        ends_plain(text),
    ensures
        trimmed_len(padded(text, width)) == text.len(),
        padded(text, width).subrange(0, text.len() as int) == text,
    decreases width,
{
    assert(padded(text, width).subrange(0, text.len() as int) =~= text);
    if width == text.len() {
        assert(padded(text, width) =~= text);
    } else {
        assert(padded(text, width).drop_last() =~= padded(text, (width - 1) as nat));
        assert(padded(text, width).last() == SPACE);
        lemma_trimmed_padded(text, (width - 1) as nat);
    }
}

/// A padded field of ASCII bytes that fit the capacity stands for the text
/// that was padded, where that does not end in a space.
pub proof fn lemma_held_text_padded(text: Seq<u8>, width: nat, capacity: nat)
    requires
        text.len() <= width,
        text.len() <= capacity,
        ends_plain(text),
        forall|i: int| 0 <= i < text.len() ==> text[i] < 0x80,
    ensures
        held_text(padded(text, width), capacity) == text,
{
    lemma_trimmed_padded(text, width);
    lemma_text_of_plain(text, capacity);
}

/// Round trip: parsing a valid 8.3 name, reading the two padded fields back
/// as text and rendering them as `NAME.EXT`, or as `NAME` where the
/// extension is empty, gives the name back; and the parsed fields match the
/// name.
pub proof fn lemma_name_round_trip(query: Seq<u8>)
    requires
        valid_short_name(query),
    ensures
        parse_outcome(query) is Ok,
        rendered(
            held_text(parse_outcome(query)->Ok_0.0, 8),
            held_text(parse_outcome(query)->Ok_0.1, 3),
        ) == query,
        compare_outcome(parse_outcome(query)->Ok_0.0, parse_outcome(query)->Ok_0.1, query) == Ok::<
            bool,
            FsError,
        >(true),
{
    let base = base_of(query);
    let ext = ext_of(query);
    lemma_first_index_bounds(query, DOT);
    lemma_held_text_padded(base, 8, 8);
    if has_tail(query, DOT) {
        let tail = tail_part(query, DOT);
        lemma_first_index_bounds(tail, DOT);
        lemma_held_text_padded(ext, 3, 3);
        assert(ext =~= tail);
        assert(base + seq![DOT] + ext =~= query);
    } else {
        lemma_held_text_padded(ext, 3, 3);
        assert(base =~= query);
    }
}

} // verus!
