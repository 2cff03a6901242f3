//! The binary layout of accounts and instruction arguments.
//!
//! A record is the concatenation of its fields in declaration order.
//! Integers are little-endian, signed ones in two's complement. A `bool` is
//! one byte, `0` or `1`. A fixed array of bytes stands inline. A list is
//! preceded by its length as a `u32`.
use vstd::prelude::*;

use crate::text;

verus! {

/// Why a byte string is not the layout of a record.
#[derive(Debug, Clone, Copy, PartialEq, Eq, Structural)]
pub enum WireError {
    /// The bytes end inside a field.
    UnexpectedLength,
    /// A `bool` byte is neither `0` nor `1`.
    InvalidBool(u8),
    /// Bytes are left over after the last field.
    NotAllBytesRead,
    /// A list is too long for its `u32` length prefix.
    ListTooLong,
}

impl WireError {
    /// The text of the error.
    pub open spec fn text(self) -> Seq<char> {
        match self {
            WireError::UnexpectedLength => "Unexpected length of input"@,
            WireError::InvalidBool(b) => "Invalid bool representation: "@ + text::decimal(b as nat),
            WireError::NotAllBytesRead => "Not all bytes read"@,
            WireError::ListTooLong => "invalid data"@,
        }
    }

    /// Renders the error.
    pub fn to_string(&self) -> (r: String)
        ensures
            r@ == self.text(),
    {
        match self {
            WireError::UnexpectedLength => String::from_str("Unexpected length of input"),
            WireError::InvalidBool(b) => {
                let mut out = String::from_str("Invalid bool representation: ");
                text::push_decimal(&mut out, *b as u128);
                out
            },
            WireError::NotAllBytesRead => String::from_str("Not all bytes read"),
            WireError::ListTooLong => String::from_str("invalid data"),
        }
    }
}

/// The `n` low bytes of `x`, least significant first.
pub open spec fn le_bytes(x: nat, n: nat) -> Seq<u8>
    decreases n,
{
    if n == 0 {
        Seq::empty()
    } else {
        seq![(x % 256) as u8] + le_bytes(x / 256, (n - 1) as nat)
    }
}

/// The number whose bytes are `s`, least significant first.
pub open spec fn le_value(s: Seq<u8>) -> nat
    decreases s.len(),
{
    if s.len() == 0 {
        0
    } else {
        s[0] as nat + 256 * le_value(s.drop_first())
    }
}

/// `256^n`.
pub open spec fn byte_range(n: nat) -> nat
    decreases n,
{
    if n == 0 {
        1
    } else {
        256 * byte_range((n - 1) as nat)
    }
}

/// The layout of a `u8`.
pub open spec fn u8_wire(x: u8) -> Seq<u8> {
    seq![x]
}

/// The layout of a `bool`.
pub open spec fn bool_wire(x: bool) -> Seq<u8> {
    seq![if x { 1u8 } else { 0u8 }]
}

/// The layout of a `u16`.
pub open spec fn u16_wire(x: u16) -> Seq<u8> {
    le_bytes(x as nat, 2)
}

/// The layout of a `u32`.
pub open spec fn u32_wire(x: u32) -> Seq<u8> {
    le_bytes(x as nat, 4)
}

/// The layout of a `u64`.
pub open spec fn u64_wire(x: u64) -> Seq<u8> {
    le_bytes(x as nat, 8)
}

/// The layout of a `u128`.
pub open spec fn u128_wire(x: u128) -> Seq<u8> {
    le_bytes(x as nat, 16)
}

/// The two's complement of an `i64`, as a number below `2^64`.
pub open spec fn i64_pattern(x: i64) -> nat {
    if x < 0 {
        (x + 0x1_0000_0000_0000_0000) as nat
    } else {
        x as nat
    }
}

/// The layout of an `i64`.
pub open spec fn i64_wire(x: i64) -> Seq<u8> {
    le_bytes(i64_pattern(x), 8)
}

/// The concatenation of a list of fields.
pub open spec fn concat(fields: Seq<Seq<u8>>) -> Seq<u8>
    decreases fields.len(),
{
    if fields.len() == 0 {
        Seq::empty()
    } else {
        concat(fields.drop_last()) + fields.last()
    }
}

/// Appending a field appends its bytes.
pub broadcast proof fn lemma_concat_push(fields: Seq<Seq<u8>>, f: Seq<u8>)
    ensures
        #[trigger] concat(fields.push(f)) == concat(fields) + f,
{
    assert(fields.push(f).drop_last() =~= fields);
}

/// No field, no bytes.
pub broadcast proof fn lemma_concat_empty()
    ensures
        #[trigger] concat(Seq::<Seq<u8>>::empty()) == Seq::<u8>::empty(),
{
}

/// The layout of an integer has the width of its type.
pub broadcast proof fn lemma_le_bytes_len(x: nat, n: nat)
    ensures
        #[trigger] le_bytes(x, n).len() == n,
    decreases n,
{
    if n > 0 {
        lemma_le_bytes_len(x / 256, (n - 1) as nat);
    }
}

/// Facts about lengths that a reader of layouts needs.
pub broadcast group group_wire {
    lemma_concat_push,
    lemma_concat_empty,
    lemma_le_bytes_len,
}

/// Reading back the bytes of a number gives the number.
pub proof fn lemma_le_value_of_le_bytes(x: nat, n: nat)
    requires
        x < byte_range(n),
    ensures
        le_value(le_bytes(x, n)) == x,
    decreases n,
{
    if n > 0 {
        lemma_le_value_of_le_bytes(x / 256, (n - 1) as nat);
        assert(le_bytes(x, n).drop_first() =~= le_bytes(x / 256, (n - 1) as nat));
    }
}

/// Every byte string is the layout of its number, which fits the width.
pub proof fn lemma_le_bytes_of_le_value(s: Seq<u8>)
    ensures
        le_bytes(le_value(s), s.len()) == s,
        le_value(s) < byte_range(s.len()),
    decreases s.len(),
{
    if s.len() > 0 {
        let t = s.drop_first();
        lemma_le_bytes_of_le_value(t);
        assert((s[0] as nat + 256 * le_value(t)) / 256 == le_value(t));
        assert((s[0] as nat + 256 * le_value(t)) % 256 == s[0] as nat);
        assert(le_bytes(le_value(s), s.len()) =~= s);
    }
}

/// Distinct numbers of one width have distinct layouts.
pub proof fn lemma_le_bytes_injective(x: nat, y: nat, n: nat)
    requires
        x < byte_range(n),
        y < byte_range(n),
        le_bytes(x, n) == le_bytes(y, n),
    ensures
        x == y,
{
    lemma_le_value_of_le_bytes(x, n);
    lemma_le_value_of_le_bytes(y, n);
}

/// The number of values of each integer width.
pub proof fn lemma_byte_ranges()
    ensures
        byte_range(1) == 0x100,
        byte_range(2) == 0x1_0000,
        byte_range(4) == 0x1_0000_0000,
        byte_range(8) == 0x1_0000_0000_0000_0000,
        byte_range(16) == 0x1_0000_0000_0000_0000_0000_0000_0000_0000int,
{
    reveal_with_fuel(byte_range, 17);
}

/// Two records with equal layouts and equally long fields have equal fields.
pub proof fn lemma_concat_injective(a: Seq<Seq<u8>>, b: Seq<Seq<u8>>)
    requires
        a.len() == b.len(),
        forall|k: int| 0 <= k < a.len() ==> a[k].len() == b[k].len(),
        concat(a) == concat(b),
    ensures
        a == b,
    decreases a.len(),
{
    if a.len() > 0 {
        let n = a.len() - 1;
        let pa = concat(a.drop_last());
        let pb = concat(b.drop_last());
        assert(a[n].len() == b[n].len());
        assert(a.last() == a[n] && b.last() == b[n]);
        assert(concat(a) == pa + a.last());
        assert(concat(b) == pb + b.last());
        assert(concat(a).len() == pa.len() + a.last().len());
        assert(concat(b).len() == pb.len() + b.last().len());
        assert(pa.len() == pb.len());
        assert(pa =~= concat(a).take(pa.len() as int));
        assert(pb =~= concat(b).take(pb.len() as int));
        assert(a.last() =~= concat(a).skip(pa.len() as int));
        assert(b.last() =~= concat(b).skip(pb.len() as int));
        assert forall|k: int| 0 <= k < a.drop_last().len() implies a.drop_last()[k].len()
            == b.drop_last()[k].len() by {
            assert(a[k].len() == b[k].len());
        }
        lemma_concat_injective(a.drop_last(), b.drop_last());
        assert(a =~= a.drop_last().push(a.last()));
        assert(b =~= b.drop_last().push(b.last()));
    } else {
        assert(a =~= b);
    }
}

/// Equal layouts mean equal numbers.
pub proof fn lemma_u16_injective(x: u16, y: u16)
    requires
        u16_wire(x) == u16_wire(y),
    ensures
        x == y,
{
    lemma_byte_ranges();
    lemma_le_bytes_injective(x as nat, y as nat, 2);
}

/// Equal layouts mean equal numbers.
pub proof fn lemma_u32_injective(x: u32, y: u32)
    requires
        u32_wire(x) == u32_wire(y),
    ensures
        x == y,
{
    lemma_byte_ranges();
    lemma_le_bytes_injective(x as nat, y as nat, 4);
}

/// Equal layouts mean equal numbers.
pub proof fn lemma_u64_injective(x: u64, y: u64)
    requires
        u64_wire(x) == u64_wire(y),
    ensures
        x == y,
{
    lemma_byte_ranges();
    lemma_le_bytes_injective(x as nat, y as nat, 8);
}

/// Equal layouts mean equal numbers.
pub proof fn lemma_u128_injective(x: u128, y: u128)
    requires
        u128_wire(x) == u128_wire(y),
    ensures
        x == y,
{
    lemma_byte_ranges();
    lemma_le_bytes_injective(x as nat, y as nat, 16);
}

/// Equal layouts mean equal numbers.
pub proof fn lemma_i64_injective(x: i64, y: i64)
    requires
        i64_wire(x) == i64_wire(y),
    ensures
        x == y,
{
    lemma_byte_ranges();
    lemma_le_bytes_injective(i64_pattern(x), i64_pattern(y), 8);
}

/// Equal layouts mean equal bytes.
pub proof fn lemma_u8_injective(x: u8, y: u8)
    requires
        u8_wire(x) == u8_wire(y),
    ensures
        x == y,
{
    assert(u8_wire(x)[0] == x && u8_wire(y)[0] == y);
}

/// Equal layouts mean equal flags.
pub proof fn lemma_bool_injective(x: bool, y: bool)
    requires
        bool_wire(x) == bool_wire(y),
    ensures
        x == y,
{
    assert(bool_wire(x)[0] == if x { 1u8 } else { 0u8 });
    assert(bool_wire(y)[0] == if y { 1u8 } else { 0u8 });
}

/// Arrays with equal contents are equal.
pub proof fn lemma_array_injective<const N: usize>(x: [u8; N], y: [u8; N])
    requires
        x@ == y@,
    ensures
        x == y,
{
    assert forall|i: int| 0 <= i < N implies x[i] == y[i] by {
        assert(x@[i] == y@[i]);
    }
    assert(x =~= y);
}

/// Records that agree in their layouts agree in the u16 field at a position.
pub proof fn lemma_u16_at(a: Seq<Seq<u8>>, b: Seq<Seq<u8>>, i: int, x: u16, y: u16)
    requires
        a == b,
        a[i] == u16_wire(x),
        b[i] == u16_wire(y),
    ensures
        x == y,
{
    lemma_u16_injective(x, y);
}

/// Records that agree in their layouts agree in the u32 field at a position.
pub proof fn lemma_u32_at(a: Seq<Seq<u8>>, b: Seq<Seq<u8>>, i: int, x: u32, y: u32)
    requires
        a == b,
        a[i] == u32_wire(x),
        b[i] == u32_wire(y),
    ensures
        x == y,
{
    lemma_u32_injective(x, y);
}

/// Records that agree in their layouts agree in the u64 field at a position.
pub proof fn lemma_u64_at(a: Seq<Seq<u8>>, b: Seq<Seq<u8>>, i: int, x: u64, y: u64)
    requires
        a == b,
        a[i] == u64_wire(x),
        b[i] == u64_wire(y),
    ensures
        x == y,
{
    lemma_u64_injective(x, y);
}

/// Records that agree in their layouts agree in the u128 field at a position.
pub proof fn lemma_u128_at(a: Seq<Seq<u8>>, b: Seq<Seq<u8>>, i: int, x: u128, y: u128)
    requires
        a == b,
        a[i] == u128_wire(x),
        b[i] == u128_wire(y),
    ensures
        x == y,
{
    lemma_u128_injective(x, y);
}

/// Records that agree in their layouts agree in the i64 field at a position.
pub proof fn lemma_i64_at(a: Seq<Seq<u8>>, b: Seq<Seq<u8>>, i: int, x: i64, y: i64)
    requires
        a == b,
        a[i] == i64_wire(x),
        b[i] == i64_wire(y),
    ensures
        x == y,
{
    lemma_i64_injective(x, y);
}

/// Records that agree in their layouts agree in the u8 field at a position.
pub proof fn lemma_u8_at(a: Seq<Seq<u8>>, b: Seq<Seq<u8>>, i: int, x: u8, y: u8)
    requires
        a == b,
        a[i] == u8_wire(x),
        b[i] == u8_wire(y),
    ensures
        x == y,
{
    lemma_u8_injective(x, y);
}

/// Records that agree in their layouts agree in the bool field at a position.
pub proof fn lemma_bool_at(a: Seq<Seq<u8>>, b: Seq<Seq<u8>>, i: int, x: bool, y: bool)
    requires
        a == b,
        a[i] == bool_wire(x),
        b[i] == bool_wire(y),
    ensures
        x == y,
{
    lemma_bool_injective(x, y);
}

/// Records that agree in their layouts agree in the byte array at a position.
pub proof fn lemma_array_at<const N: usize>(
    a: Seq<Seq<u8>>,
    b: Seq<Seq<u8>>,
    i: int,
    x: [u8; N],
    y: [u8; N],
)
    requires
        a == b,
        a[i] == x@,
        b[i] == y@,
    ensures
        x == y,
{
    lemma_array_injective(x, y);
}

/// A record with a binary layout.
pub trait WireEncode: Sized {
    /// The layout of the record.
    spec fn wire(&self) -> Seq<u8>;

    /// Whether the record has a layout: its lists fit their length prefix.
    spec fn fits(&self) -> bool;

    /// Appends the layout of the record.
    fn serialize(&self, out: &mut Vec<u8>) -> (r: Result<(), WireError>)
        ensures
            self.fits() ==> r is Ok && final(out)@ == old(out)@ + self.wire(),
            !self.fits() ==> r == Err::<(), WireError>(WireError::ListTooLong) && final(out)@
                == old(out)@,
    ;
}

/// A record that can be read back from its layout.
pub trait WireDecode: WireEncode {
    /// What is wrong with a byte string as the layout of such a record, if anything.
    spec fn fault(bytes: Seq<u8>) -> Option<WireError>;

    /// Whether two records agree in every field.
    spec fn same(&self, other: &Self) -> bool;

    /// Reads a record from exactly its layout.
    fn try_from_slice(bytes: &[u8]) -> (r: Result<Self, WireError>)
        ensures
            match r {
                Ok(v) => v.fits() && v.wire() == bytes@ && Self::fault(bytes@) is None,
                Err(e) => Self::fault(bytes@) == Some(e),
            },
    ;

    /// The layout of a record is free of faults.
    proof fn lemma_wire_is_faultless(&self)
        requires
            self.fits(),
        ensures
            Self::fault(self.wire()) is None,
    ;

    /// Records with equal layouts agree in every field.
    proof fn lemma_wire_is_injective(&self, other: &Self)
        requires
            self.fits(),
            other.fits(),
            self.wire() == other.wire(),
        ensures
            self.same(other),
    ;
}

/// Reads fields from the front of a byte string.
pub struct Reader<'a> {
    data: &'a [u8],
    pos: usize,
    fields: Ghost<Seq<Seq<u8>>>,
}

impl<'a> Reader<'a> {
    /// The bytes read from.
    pub closed spec fn data(&self) -> Seq<u8> {
        self.data@
    }

    /// How many bytes have been read.
    pub closed spec fn pos(&self) -> nat {
        self.pos as nat
    }

    /// The fields read so far.
    pub closed spec fn fields(&self) -> Seq<Seq<u8>> {
        self.fields@
    }

    /// The bytes read so far are the fields read so far.
    pub open spec fn wf(&self) -> bool {
        &&& self.pos() <= self.data().len()
        &&& self.data().take(self.pos() as int) == concat(self.fields())
    }

    /// The reader has moved on from `before` by the field `f`.
    pub open spec fn advanced(&self, before: &Self, f: Seq<u8>) -> bool {
        &&& self.wf()
        &&& self.data() == before.data()
        &&& self.pos() == before.pos() + f.len()
        &&& self.fields() == before.fields().push(f)
    }

    /// The reader stands where it stood, too close to the end for `n` bytes.
    pub open spec fn exhausted(&self, n: nat) -> bool {
        self.pos() + n > self.data().len()
    }

    /// A reader at the start of `data`.
    pub fn new(data: &'a [u8]) -> (r: Self)
        ensures
            r.wf(),
            r.data() == data@,
            r.pos() == 0,
            r.fields() == Seq::<Seq<u8>>::empty(),
    {
        let r = Reader { data, pos: 0, fields: Ghost(Seq::empty()) };
        proof {
            assert(data@.take(0) =~= Seq::<u8>::empty());
        }
        r
    }

    /// Reads an unsigned integer of `n` bytes.
    fn read_uint(&mut self, n: usize) -> (r: Result<u128, WireError>)
        requires
            old(self).wf(),
            n <= 16,
        ensures
            match r {
                Ok(v) => {
                    &&& v < byte_range(n as nat)
                    &&& final(self).advanced(old(self), le_bytes(v as nat, n as nat))
                },
                Err(e) => {
                    &&& e == WireError::UnexpectedLength
                    &&& old(self).exhausted(n as nat)
                },
            },
    {
        broadcast use group_wire;

        if self.data.len() - self.pos < n {
            return Err(WireError::UnexpectedLength);
        }
        let ghost field = self.data@.subrange(self.pos as int, self.pos + n);
        proof {
            lemma_le_bytes_of_le_value(field);
            lemma_byte_ranges();
            lemma_byte_range_monotone(n as nat, 16);
        }
        let mut v: u128 = 0;
        let mut i: usize = n;
        while i > 0
            invariant
                i <= n <= 16,
                self.pos + n <= self.data.len(),
                field == self.data@.subrange(self.pos as int, self.pos + n),
                v == le_value(field.skip(i as int)),
                le_value(field) < byte_range(n as nat),
                byte_range(n as nat) <= byte_range(16),
                byte_range(16) == 0x1_0000_0000_0000_0000_0000_0000_0000_0000int,
            decreases i,
        {
            i = i - 1;
            proof {
                let s = field.skip(i as int);
                assert(s.drop_first() =~= field.skip(i + 1));
                assert(s[0] == field[i as int]);
                lemma_le_bytes_of_le_value(s);
                lemma_byte_range_monotone(s.len(), 16);
            }
            v = v * 256 + self.data[self.pos + i] as u128;
        }
        proof {
            assert(field.skip(0) =~= field);
            assert(self.data@.take(self.pos + n) =~= self.data@.take(self.pos as int) + field);
        }
        self.pos = self.pos + n;
        self.fields = Ghost(self.fields@.push(field));
        Ok(v)
    }

    /// Reads a `u8`.
    pub fn read_u8(&mut self) -> (r: Result<u8, WireError>)
        requires
            old(self).wf(),
        ensures
            match r {
                Ok(v) => final(self).advanced(old(self), u8_wire(v)) && v == old(
                    self,
                ).data()[old(self).pos() as int],
                Err(e) => e == WireError::UnexpectedLength && old(self).exhausted(1),
            },
    {
        broadcast use group_wire;

        if self.pos >= self.data.len() {
            return Err(WireError::UnexpectedLength);
        }
        let v: u8 = self.data[self.pos];
        proof {
            assert(self.data@.take(self.pos + 1) =~= self.data@.take(self.pos as int) + u8_wire(v));
        }
        self.pos = self.pos + 1;
        self.fields = Ghost(self.fields@.push(u8_wire(v)));
        Ok(v)
    }

    /// Reads a `bool`.
    pub fn read_bool(&mut self) -> (r: Result<bool, WireError>)
        requires
            old(self).wf(),
        ensures
            match r {
                Ok(v) => {
                    &&& final(self).advanced(old(self), bool_wire(v))
                    &&& old(self).data()[old(self).pos() as int] <= 1
                },
                Err(WireError::InvalidBool(b)) => {
                    &&& !old(self).exhausted(1)
                    &&& b == old(self).data()[old(self).pos() as int]
                    &&& b > 1
                },
                Err(e) => e == WireError::UnexpectedLength && old(self).exhausted(1),
            },
    {
        let v: u8 = self.read_u8()?;
        if v == 0 {
            Ok(false)
        } else if v == 1 {
            Ok(true)
        } else {
            Err(WireError::InvalidBool(v))
        }
    }

    /// Reads a `u16`.
    pub fn read_u16(&mut self) -> (r: Result<u16, WireError>)
        requires
            old(self).wf(),
        ensures
            match r {
                Ok(v) => final(self).advanced(old(self), u16_wire(v)),
                Err(e) => e == WireError::UnexpectedLength && old(self).exhausted(2),
            },
    {
        let v: u128 = self.read_uint(2)?;
        proof {
            lemma_byte_ranges();
        }
        Ok(v as u16)
    }

    /// Reads a `u32`.
    pub fn read_u32(&mut self) -> (r: Result<u32, WireError>)
        requires
            old(self).wf(),
        ensures
            match r {
                Ok(v) => final(self).advanced(old(self), u32_wire(v)),
                Err(e) => e == WireError::UnexpectedLength && old(self).exhausted(4),
            },
    {
        let v: u128 = self.read_uint(4)?;
        proof {
            lemma_byte_ranges();
        }
        Ok(v as u32)
    }

    /// Reads a `u64`.
    pub fn read_u64(&mut self) -> (r: Result<u64, WireError>)
        requires
            old(self).wf(),
        ensures
            match r {
                Ok(v) => final(self).advanced(old(self), u64_wire(v)),
                Err(e) => e == WireError::UnexpectedLength && old(self).exhausted(8),
            },
    {
        let v: u128 = self.read_uint(8)?;
        proof {
            lemma_byte_ranges();
        }
        Ok(v as u64)
    }

    /// Reads a `u128`.
    pub fn read_u128(&mut self) -> (r: Result<u128, WireError>)
        requires
            old(self).wf(),
        ensures
            match r {
                Ok(v) => final(self).advanced(old(self), u128_wire(v)),
                Err(e) => e == WireError::UnexpectedLength && old(self).exhausted(16),
            },
    {
        self.read_uint(16)
    }

    /// Reads an `i64`.
    pub fn read_i64(&mut self) -> (r: Result<i64, WireError>)
        requires
            old(self).wf(),
        ensures
            match r {
                Ok(v) => final(self).advanced(old(self), i64_wire(v)),
                Err(e) => e == WireError::UnexpectedLength && old(self).exhausted(8),
            },
    {
        let v: u128 = self.read_uint(8)?;
        proof {
            lemma_byte_ranges();
        }
        if v <= i64::MAX as u128 {
            Ok(v as i64)
        } else {
            Ok((v as i128 - 0x1_0000_0000_0000_0000i128) as i64)
        }
    }

    /// Reads `N` inline bytes.
    pub fn read_array<const N: usize>(&mut self) -> (r: Result<[u8; N], WireError>)
        requires
            old(self).wf(),
        ensures
            match r {
                Ok(v) => final(self).advanced(old(self), v@),
                Err(e) => e == WireError::UnexpectedLength && old(self).exhausted(N as nat),
            },
    {
        broadcast use group_wire;

        if self.data.len() - self.pos < N {
            return Err(WireError::UnexpectedLength);
        }
        let mut v: [u8; N] = [0u8; N];
        let mut i: usize = 0;
        while i < N
            invariant
                i <= N,
                self.pos + N <= self.data.len(),
                forall|j: int| 0 <= j < i ==> v[j] == self.data@[self.pos + j],
            decreases N - i,
        {
            v[i] = self.data[self.pos + i];
            i = i + 1;
        }
        proof {
            assert(v@ =~= self.data@.subrange(self.pos as int, self.pos + N));
            assert(self.data@.take(self.pos + N) =~= self.data@.take(self.pos as int) + v@);
        }
        self.pos = self.pos + N;
        self.fields = Ghost(self.fields@.push(v@));
        Ok(v)
    }

    /// Reads `n` inline bytes without copying them.
    pub fn read_slice(&mut self, n: u64) -> (r: Result<&'a [u8], WireError>)
        requires
            old(self).wf(),
        ensures
            match r {
                Ok(v) => final(self).advanced(old(self), v@) && v@.len() == n,
                Err(e) => e == WireError::UnexpectedLength && old(self).exhausted(n as nat),
            },
    {
        broadcast use group_wire;

        if ((self.data.len() - self.pos) as u64) < n {
            return Err(WireError::UnexpectedLength);
        }
        let end: usize = self.pos + n as usize;
        let v: &'a [u8] = vstd::slice::slice_subrange(self.data, self.pos, end);
        proof {
            assert(self.data@.take(end as int) =~= self.data@.take(self.pos as int) + v@);
        }
        self.pos = end;
        self.fields = Ghost(self.fields@.push(v@));
        Ok(v)
    }

    /// Checks that nothing is left to read.
    pub fn finish(&self) -> (r: Result<(), WireError>)
        requires
            self.wf(),
        ensures
            match r {
                Ok(_) => self.pos() == self.data().len() && self.data() == concat(self.fields()),
                Err(e) => e == WireError::NotAllBytesRead && self.pos() < self.data().len(),
            },
    {
        if self.pos < self.data.len() {
            return Err(WireError::NotAllBytesRead);
        }
        proof {
            assert(self.data@.take(self.pos as int) =~= self.data@);
        }
        Ok(())
    }
}

/// Wider integers have more values.
pub proof fn lemma_byte_range_monotone(m: nat, n: nat)
    requires
        m <= n,
    ensures
        0 < byte_range(m) <= byte_range(n),
    decreases n,
{
    if m == n {
        if n > 0 {
            lemma_byte_range_monotone((n - 1) as nat, (n - 1) as nat);
        }
    } else {
        lemma_byte_range_monotone(m, (n - 1) as nat);
    }
}

/// Appends the `n` low bytes of `x`.
fn push_le(out: &mut Vec<u8>, x: u128, n: usize)
    ensures
        final(out)@ == old(out)@ + le_bytes(x as nat, n as nat),
{
    let mut rest: u128 = x;
    let mut i: usize = 0;
    proof {
        assert(out@ + le_bytes(x as nat, n as nat) =~= old(out)@ + le_bytes(x as nat, n as nat));
    }
    while i < n
        invariant
            i <= n,
            out@ + le_bytes(rest as nat, (n - i) as nat) == old(out)@ + le_bytes(
                x as nat,
                n as nat,
            ),
        decreases n - i,
    {
        let ghost before = out@;
        out.push((rest % 256) as u8);
        proof {
            assert(before + le_bytes(rest as nat, (n - i) as nat) =~= out@ + le_bytes(
                rest as nat / 256,
                (n - i - 1) as nat,
            ));
        }
        rest = rest / 256;
        i = i + 1;
    }
    proof {
        assert(out@ + le_bytes(rest as nat, 0) =~= out@);
    }
}

/// Appends a `u8`.
pub fn put_u8(out: &mut Vec<u8>, x: u8)
    ensures
        final(out)@ == old(out)@ + u8_wire(x),
{
    out.push(x);
    proof {
        assert(out@ =~= old(out)@ + u8_wire(x));
    }
}

/// Appends a `bool`.
pub fn put_bool(out: &mut Vec<u8>, x: bool)
    ensures
        final(out)@ == old(out)@ + bool_wire(x),
{
    out.push(if x { 1u8 } else { 0u8 });
    proof {
        assert(out@ =~= old(out)@ + bool_wire(x));
    }
}

/// Appends a `u16`.
pub fn put_u16(out: &mut Vec<u8>, x: u16)
    ensures
        final(out)@ == old(out)@ + u16_wire(x),
{
    push_le(out, x as u128, 2);
}

/// Appends a `u32`.
pub fn put_u32(out: &mut Vec<u8>, x: u32)
    ensures
        final(out)@ == old(out)@ + u32_wire(x),
{
    push_le(out, x as u128, 4);
}

/// Appends a `u64`.
pub fn put_u64(out: &mut Vec<u8>, x: u64)
    ensures
        final(out)@ == old(out)@ + u64_wire(x),
{
    push_le(out, x as u128, 8);
}

/// Appends a `u128`.
pub fn put_u128(out: &mut Vec<u8>, x: u128)
    ensures
        final(out)@ == old(out)@ + u128_wire(x),
{
    push_le(out, x, 16);
}

/// Appends an `i64`.
pub fn put_i64(out: &mut Vec<u8>, x: i64)
    ensures
        final(out)@ == old(out)@ + i64_wire(x),
{
    if x < 0 {
        push_le(out, (x as i128 + 0x1_0000_0000_0000_0000i128) as u128, 8);
    } else {
        push_le(out, x as u128, 8);
    }
}

/// Appends inline bytes.
pub fn put_bytes(out: &mut Vec<u8>, bytes: &[u8])
    ensures
        final(out)@ == old(out)@ + bytes@,
{
    let mut i: usize = 0;
    while i < bytes.len()
        invariant
            i <= bytes.len(),
            out@ == old(out)@ + bytes@.take(i as int),
        decreases bytes.len() - i,
    {
        out.push(bytes[i]);
        i = i + 1;
        proof {
            assert(bytes@.take(i as int) =~= bytes@.take(i - 1).push(bytes@[i - 1]));
            assert(out@ =~= old(out)@ + bytes@.take(i as int));
        }
    }
    proof {
        assert(bytes@.take(bytes@.len() as int) =~= bytes@);
    }
}

} // verus!
