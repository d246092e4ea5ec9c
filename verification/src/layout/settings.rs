use vstd::prelude::*;

verus! {

/// Byte order in which multi-byte values are written.
#[derive(Debug, Clone, Copy, PartialEq, Eq, Structural)]
pub enum Endianness {
    Little,
    Big,
}

/// The bytes a CRC covers.
#[derive(Debug, Clone, Copy, PartialEq, Eq, Structural)]
pub enum CrcArea {
    /// The payload up to the CRC location.
    Data,
    /// The whole block, with the four CRC bytes set to zero.
    BlockZeroCrc,
    /// The whole block, with the four CRC bytes holding the padding byte.
    BlockPadCrc,
    /// The whole block without the four CRC bytes.
    BlockOmitCrc,
}

impl Default for CrcArea {
    fn default() -> (r: Self)
        ensures
            r == CrcArea::Data,
    {
        CrcArea::Data
    }
}

/// Where a block's CRC is placed: a keyword (`"end_data"`, `"end_block"`,
/// `"none"`) or an absolute address inside the block.
#[derive(Debug)]
pub enum CrcLocation {
    Keyword(String),
    Address(u32),
}

impl Clone for CrcLocation {
    fn clone(&self) -> (r: Self)
        ensures
            r == *self,
    {
        match self {
            CrcLocation::Keyword(k) => CrcLocation::Keyword(k.clone()),
            CrcLocation::Address(a) => CrcLocation::Address(*a),
        }
    }
}

/// CRC parameters as they may be given for a whole layout or for one block.
/// Every field is optional; a block's value takes precedence over the layout's.
#[derive(Debug)]
pub struct CrcConfig {
    pub location: Option<CrcLocation>,
    pub polynomial: Option<u32>,
    pub start: Option<u32>,
    pub xor_out: Option<u32>,
    pub ref_in: Option<bool>,
    pub ref_out: Option<bool>,
    pub area: Option<CrcArea>,
}

/// The first of two optional values that is present.
pub open spec fn first_of<T>(own: Option<T>, fallback: Option<T>) -> Option<T> {
    if own is Some {
        own
    } else {
        fallback
    }
}

impl Clone for CrcConfig {
    fn clone(&self) -> (r: Self)
        ensures
            r == *self,
    {
        CrcConfig {
            location: match &self.location {
                Some(l) => Some(l.clone()),
                None => None,
            },
            polynomial: self.polynomial,
            start: self.start,
            xor_out: self.xor_out,
            ref_in: self.ref_in,
            ref_out: self.ref_out,
            area: self.area,
        }
    }
}

impl Default for CrcConfig {
    fn default() -> (r: Self)
        ensures
            r == CrcConfig::spec_empty(),
    {
        CrcConfig {
            location: None,
            polynomial: None,
            start: None,
            xor_out: None,
            ref_in: None,
            ref_out: None,
            area: None,
        }
    }
}

impl CrcConfig {
    /// The configuration in which nothing is set.
    pub open spec fn spec_empty() -> CrcConfig {
        CrcConfig {
            location: None,
            polynomial: None,
            start: None,
            xor_out: None,
            ref_in: None,
            ref_out: None,
            area: None,
        }
    }

    /// Field by field, this configuration's value where it has one, else the
    /// base's.
    pub open spec fn spec_resolve(self, base: Option<CrcConfig>) -> CrcConfig {
        match base {
            None => self,
            Some(b) => CrcConfig {
                location: first_of(self.location, b.location),
                polynomial: first_of(self.polynomial, b.polynomial),
                start: first_of(self.start, b.start),
                xor_out: first_of(self.xor_out, b.xor_out),
                ref_in: first_of(self.ref_in, b.ref_in),
                ref_out: first_of(self.ref_out, b.ref_out),
                area: first_of(self.area, b.area),
            },
        }
    }

    pub open spec fn spec_is_disabled(self) -> bool {
        self.location is None
    }

    pub open spec fn spec_is_complete(self) -> bool {
        &&& self.polynomial is Some
        &&& self.start is Some
        &&& self.xor_out is Some
        &&& self.ref_in is Some
        &&& self.ref_out is Some
        &&& self.area is Some
    }

    /// Merge this config with a base config. Self takes precedence.
    pub fn resolve(&self, base: Option<&CrcConfig>) -> (r: CrcConfig)
        ensures
            r == self.spec_resolve(
                match base {
                    Some(b) => Some(*b),
                    None => None,
                },
            ),
    {
        match base {
            None => self.clone(),
            Some(b) => CrcConfig {
                location: match &self.location {
                    Some(l) => Some(l.clone()),
                    None => match &b.location {
                        Some(l) => Some(l.clone()),
                        None => None,
                    },
                },
                polynomial: if self.polynomial.is_some() {
                    self.polynomial
                } else {
                    b.polynomial
                },
                start: if self.start.is_some() {
                    self.start
                } else {
                    b.start
                },
                xor_out: if self.xor_out.is_some() {
                    self.xor_out
                } else {
                    b.xor_out
                },
                ref_in: if self.ref_in.is_some() {
                    self.ref_in
                } else {
                    b.ref_in
                },
                ref_out: if self.ref_out.is_some() {
                    self.ref_out
                } else {
                    b.ref_out
                },
                area: if self.area.is_some() {
                    self.area
                } else {
                    b.area
                },
            },
        }
    }

    /// Check if CRC is disabled (location not set).
    pub fn is_disabled(&self) -> (r: bool)
        ensures
            r == self.spec_is_disabled(),
    {
        self.location.is_none()
    }

    /// Returns true if all required CRC parameters are present.
    pub fn is_complete(&self) -> (r: bool)
        ensures
            r == self.spec_is_complete(),
    {
        self.polynomial.is_some() && self.start.is_some() && self.xor_out.is_some()
            && self.ref_in.is_some() && self.ref_out.is_some() && self.area.is_some()
    }
}

/// Settings shared by all blocks of one layout.
#[derive(Debug)]
pub struct Settings {
    pub endianness: Endianness,
    /// Added to every address after all other address arithmetic.
    pub virtual_offset: u32,
    /// Swap each pair of adjacent bytes.
    pub byte_swap: bool,
    /// Addresses count 16-bit words: they are doubled, byte pairs are
    /// swapped, and one-byte types are refused.
    pub word_addressing: bool,
    /// Pad every block to its declared length.
    pub pad_to_end: bool,
    /// Layout-wide CRC defaults.
    pub crc: Option<CrcConfig>,
}

/// 256 to the power `count`: the number of values that `count` bytes hold.
pub open spec fn radix(count: nat) -> nat
    decreases count,
{
    if count == 0 {
        1
    } else {
        256 * radix((count - 1) as nat)
    }
}

/// The `count` low bytes of `value`, least significant first.
pub open spec fn le_bytes(value: nat, count: nat) -> Seq<u8>
    decreases count,
{
    if count == 0 {
        Seq::empty()
    } else {
        seq![(value % 256) as u8] + le_bytes(value / 256, (count - 1) as nat)
    }
}

/// The number that `bytes` spell, least significant byte first.
pub open spec fn le_value(bytes: Seq<u8>) -> nat
    decreases bytes.len(),
{
    if bytes.len() == 0 {
        0
    } else {
        bytes[0] as nat + 256 * le_value(bytes.drop_first())
    }
}

/// The `count` low bytes of `value` in the given byte order.
pub open spec fn endian_bytes(value: nat, count: nat, endianness: Endianness) -> Seq<u8> {
    match endianness {
        Endianness::Little => le_bytes(value, count),
        Endianness::Big => le_bytes(value, count).reverse(),
    }
}

/// The number that `bytes` spell in the given byte order.
pub open spec fn endian_value(bytes: Seq<u8>, endianness: Endianness) -> nat {
    match endianness {
        Endianness::Little => le_value(bytes),
        Endianness::Big => le_value(bytes.reverse()),
    }
}

/// The bit pattern that stands for `value` in `count` bytes of two's
/// complement: `value` modulo 256 to the power `count`.
pub open spec fn twos_complement(value: int, count: nat) -> nat {
    (value % (radix(count) as int)) as nat
}

pub proof fn lemma_radix_positive(count: nat)
    ensures
        radix(count) > 0,
    decreases count,
{
    if count > 0 {
        lemma_radix_positive((count - 1) as nat);
    }
}

/// The values of `radix` for the widths that scalar types have.
pub proof fn lemma_radix_values()
    ensures
        radix(0) == 1,
        radix(1) == 0x100,
        radix(2) == 0x1_0000,
        radix(4) == 0x1_0000_0000,
        radix(8) == 0x1_0000_0000_0000_0000,
{
    reveal_with_fuel(radix, 9);
}

pub proof fn lemma_le_bytes_len(value: nat, count: nat)
    ensures
        le_bytes(value, count).len() == count,
    decreases count,
{
    if count > 0 {
        lemma_le_bytes_len(value / 256, (count - 1) as nat);
    }
}

/// Only the value modulo `radix(count)` reaches the bytes.
pub proof fn lemma_le_bytes_low_part(value: nat, count: nat)
    ensures
        le_bytes(value, count) == le_bytes(value % radix(count), count),
    decreases count,
{
    if count > 0 {
        let rest = radix((count - 1) as nat);
        lemma_radix_positive((count - 1) as nat);
        lemma_le_bytes_low_part(value / 256, (count - 1) as nat);
        let low = value % radix(count);
        lemma_le_bytes_low_part(low / 256, (count - 1) as nat);
        assert(low % 256 == value % 256 && (low / 256) % rest == (value / 256) % rest) by {
            lemma_mod_of_product(value, rest);
        }
    }
}

/// For `m = value % (256 * rest)`: `m` and `value` agree modulo 256, and
/// their quotients by 256 agree modulo `rest`.
pub proof fn lemma_mod_of_product(value: nat, rest: nat)
    requires
        rest > 0,
    ensures
        (value % (256 * rest)) % 256 == value % 256,
        ((value % (256 * rest)) / 256) % rest == (value / 256) % rest,
        (value % (256 * rest)) / 256 == (value / 256) % rest,
{
    let q = value / 256;
    let r = value % 256;
    let qq = q / rest;
    let qr = q % rest;
    assert(value == 256 * q + r && q == rest * qq + qr && 0 <= r < 256 && 0 <= qr < rest) by {
        vstd::arithmetic::div_mod::lemma_fundamental_div_mod(value as int, 256);
        vstd::arithmetic::div_mod::lemma_fundamental_div_mod(q as int, rest as int);
        vstd::arithmetic::div_mod::lemma_mod_pos_bound(q as int, rest as int);
    }
    let low = 256 * qr + r;
    assert(value == (256 * rest) * qq + low) by (nonlinear_arith)
        requires
            value == 256 * q + r,
            q == rest * qq + qr,
            low == 256 * qr + r,
    ;
    assert(0 <= low < 256 * rest) by (nonlinear_arith)
        requires
            low == 256 * qr + r,
            0 <= r < 256,
            0 <= qr < rest,
    ;
    vstd::arithmetic::div_mod::lemma_fundamental_div_mod_converse(
        value as int,
        (256 * rest) as int,
        qq as int,
        low as int,
    );
    assert(value % (256 * rest) == low);
    vstd::arithmetic::div_mod::lemma_fundamental_div_mod_converse(low as int, 256, qr as int, r as int);
    vstd::arithmetic::div_mod::lemma_small_mod(qr, rest);
}

/// Reading back the bytes of a value gives the value modulo `radix(count)`.
pub proof fn lemma_le_round_trip(value: nat, count: nat)
    ensures
        le_value(le_bytes(value, count)) == value % radix(count),
    decreases count,
{
    if count > 0 {
        let rest = radix((count - 1) as nat);
        lemma_radix_positive((count - 1) as nat);
        let bytes = le_bytes(value, count);
        let tail = le_bytes(value / 256, (count - 1) as nat);
        assert(bytes.drop_first() =~= tail);
        lemma_le_round_trip(value / 256, (count - 1) as nat);
        lemma_mod_of_product(value, rest);
        vstd::arithmetic::div_mod::lemma_fundamental_div_mod((value % (256 * rest)) as int, 256);
    }
}

/// Reading back bytes in the order they were written gives the value modulo
/// `radix(count)`, whichever the byte order.
pub proof fn lemma_endian_round_trip(value: nat, count: nat, endianness: Endianness)
    ensures
        endian_bytes(value, count, endianness).len() == count,
        endian_value(endian_bytes(value, count, endianness), endianness) == value % radix(count),
{
    lemma_le_bytes_len(value, count);
    lemma_le_round_trip(value, count);
    assert(le_bytes(value, count).reverse().reverse() =~= le_bytes(value, count));
}

/// The `count` low bytes of `pattern` in the given byte order.
pub fn encode_pattern(pattern: u64, count: usize, endianness: Endianness) -> (r: Vec<u8>)
    requires
        count <= 8,
    ensures
        r@ == endian_bytes(pattern as nat, count as nat, endianness),
{
    let mut low_first: Vec<u8> = Vec::new();
    let mut rest: u64 = pattern;
    let mut i: usize = 0;
    while i < count
        invariant
            i <= count,
            low_first@ + le_bytes(rest as nat, (count - i) as nat) == le_bytes(
                pattern as nat,
                count as nat,
            ),
        decreases count - i,
    {
        let byte: u8 = (rest & 0xFF) as u8;
        let next: u64 = rest >> 8;
        proof {
            assert(rest & 0xFF == rest % 256 && rest >> 8 == rest / 256) by (bit_vector);
            assert(low_first@.push(byte) + le_bytes(next as nat, (count - i - 1) as nat) =~= low_first@
                + le_bytes(rest as nat, (count - i) as nat));
        }
        low_first.push(byte);
        rest = next;
        i = i + 1;
    }
    proof {
        assert(low_first@ + le_bytes(rest as nat, 0) =~= low_first@);
    }
    match endianness {
        Endianness::Little => low_first,
        Endianness::Big => {
            let mut high_first: Vec<u8> = Vec::new();
            let mut j: usize = low_first.len();
            while j > 0
                invariant
                    j <= low_first.len(),
                    high_first@.len() == low_first.len() - j,
                    forall|k: int|
                        0 <= k < high_first@.len() ==> high_first@[k] == low_first@[low_first.len() - 1
                            - k],
                decreases j,
            {
                j = j - 1;
                high_first.push(low_first[j]);
            }
            proof {
                assert(high_first@ =~= low_first@.reverse());
            }
            high_first
        },
    }
}

/// Values that can be written as bytes in a chosen byte order.
pub trait EndianBytes: Sized {
    /// The bytes of the value in the given byte order.
    spec fn spec_endian_bytes(self, endianness: Endianness) -> Seq<u8>;

    fn to_endian_bytes(self, endianness: &Endianness) -> (r: Vec<u8>)
        ensures
            r@ == self.spec_endian_bytes(*endianness),
    ;
}

impl EndianBytes for u8 {
    open spec fn spec_endian_bytes(self, endianness: Endianness) -> Seq<u8> {
        endian_bytes(self as nat, 1, endianness)
    }

    fn to_endian_bytes(self, endianness: &Endianness) -> (r: Vec<u8>) {
        encode_pattern(self as u64, 1, *endianness)
    }
}

impl EndianBytes for u16 {
    open spec fn spec_endian_bytes(self, endianness: Endianness) -> Seq<u8> {
        endian_bytes(self as nat, 2, endianness)
    }

    fn to_endian_bytes(self, endianness: &Endianness) -> (r: Vec<u8>) {
        encode_pattern(self as u64, 2, *endianness)
    }
}

impl EndianBytes for u32 {
    open spec fn spec_endian_bytes(self, endianness: Endianness) -> Seq<u8> {
        endian_bytes(self as nat, 4, endianness)
    }

    fn to_endian_bytes(self, endianness: &Endianness) -> (r: Vec<u8>) {
        encode_pattern(self as u64, 4, *endianness)
    }
}

impl EndianBytes for u64 {
    open spec fn spec_endian_bytes(self, endianness: Endianness) -> Seq<u8> {
        endian_bytes(self as nat, 8, endianness)
    }

    fn to_endian_bytes(self, endianness: &Endianness) -> (r: Vec<u8>) {
        encode_pattern(self, 8, *endianness)
    }
}

/// The 64-bit two's complement pattern of `value`.
pub fn signed_pattern(value: i128) -> (r: u64)
    requires
        -0x8000_0000_0000_0000 <= value < 0x1_0000_0000_0000_0000,
    ensures
        r as int == value as int % 0x1_0000_0000_0000_0000,
{
    if value >= 0 {
        value as u64
    } else {
        let lifted: i128 = value + 0x1_0000_0000_0000_0000i128;
        lifted as u64
    }
}

/// The two's complement bytes of `value` in a field of `count` bytes.
pub fn encode_integer(value: i128, count: usize, endianness: Endianness) -> (r: Vec<u8>)
    requires
        count == 1 || count == 2 || count == 4 || count == 8,
        -0x8000_0000_0000_0000 <= value < 0x1_0000_0000_0000_0000,
    ensures
        r@ == endian_bytes(twos_complement(value as int, count as nat), count as nat, endianness),
{
    let pattern = signed_pattern(value);
    proof {
        lemma_radix_values();
        lemma_le_bytes_low_part(pattern as nat, count as nat);
        let m = radix(count as nat) as int;
        let big = 0x1_0000_0000_0000_0000int;
        assert((value as int % big) % m == value as int % m) by {
            assert(big == m * (big / m)) by {
                if count == 1 {
                    assert(big == 0x100 * 0x100_0000_0000_0000int);
                } else if count == 2 {
                    assert(big == 0x1_0000 * 0x1_0000_0000_0000int);
                } else if count == 4 {
                    assert(big == 0x1_0000_0000 * 0x1_0000_0000int);
                } else {
                    assert(big == big * 1);
                }
            }
            vstd::arithmetic::div_mod::lemma_mod_mod(value as int, m, big / m);
        }
    }
    encode_pattern(pattern, count, endianness)
}

impl EndianBytes for i8 {
    open spec fn spec_endian_bytes(self, endianness: Endianness) -> Seq<u8> {
        endian_bytes(twos_complement(self as int, 1), 1, endianness)
    }

    fn to_endian_bytes(self, endianness: &Endianness) -> (r: Vec<u8>) {
        encode_integer(self as i128, 1, *endianness)
    }
}

impl EndianBytes for i16 {
    open spec fn spec_endian_bytes(self, endianness: Endianness) -> Seq<u8> {
        endian_bytes(twos_complement(self as int, 2), 2, endianness)
    }

    fn to_endian_bytes(self, endianness: &Endianness) -> (r: Vec<u8>) {
        encode_integer(self as i128, 2, *endianness)
    }
}

impl EndianBytes for i32 {
    open spec fn spec_endian_bytes(self, endianness: Endianness) -> Seq<u8> {
        endian_bytes(twos_complement(self as int, 4), 4, endianness)
    }

    fn to_endian_bytes(self, endianness: &Endianness) -> (r: Vec<u8>) {
        encode_integer(self as i128, 4, *endianness)
    }
}

impl EndianBytes for i64 {
    open spec fn spec_endian_bytes(self, endianness: Endianness) -> Seq<u8> {
        endian_bytes(twos_complement(self as int, 8), 8, endianness)
    }

    fn to_endian_bytes(self, endianness: &Endianness) -> (r: Vec<u8>) {
        encode_integer(self as i128, 8, *endianness)
    }
}

/// The virtual offset used where a layout gives none.
pub fn default_offset() -> (r: u32)
    ensures
        r == 0,
{
    0
}

} // verus!
