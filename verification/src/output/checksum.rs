use vstd::prelude::*;
use crate::layout::settings::CrcConfig;

verus! {

/// Bit `index` of `x`.
pub open spec fn bit_of(x: u32, index: u32) -> bool {
    (x >> index) & 1 == 1
}

/// `x` with the order of its 32 bits reversed.
pub open spec fn reflect32(x: u32) -> u32 {
    let a = ((x >> 1) & 0x5555_5555) | ((x & 0x5555_5555) << 1);
    let b = ((a >> 2) & 0x3333_3333) | ((a & 0x3333_3333) << 2);
    let c = ((b >> 4) & 0x0F0F_0F0F) | ((b & 0x0F0F_0F0F) << 4);
    let d = ((c >> 8) & 0x00FF_00FF) | ((c & 0x00FF_00FF) << 8);
    (d >> 16) | (d << 16)
}

/// Bit `i` of `reflect32(x)` is bit `31 - i` of `x`.
pub proof fn lemma_reflect32_bits(x: u32, i: u32)
    requires
        i < 32,
    ensures
        bit_of(reflect32(x), i) == bit_of(x, (31 - i) as u32),
{
    let a = ((x >> 1) & 0x5555_5555) | ((x & 0x5555_5555) << 1);
    let b = ((a >> 2) & 0x3333_3333) | ((a & 0x3333_3333) << 2);
    let c = ((b >> 4) & 0x0F0F_0F0F) | ((b & 0x0F0F_0F0F) << 4);
    let d = ((c >> 8) & 0x00FF_00FF) | ((c & 0x00FF_00FF) << 8);
    let r = (d >> 16) | (d << 16);
    let j: u32 = (31 - i) as u32;
    assert(((r >> i) & 1 == 1) == ((x >> j) & 1 == 1)) by (bit_vector)
        requires
            i < 32,
            j == 31 - i,
            a == ((x >> 1) & 0x5555_5555) | ((x & 0x5555_5555) << 1),
            b == ((a >> 2) & 0x3333_3333) | ((a & 0x3333_3333) << 2),
            c == ((b >> 4) & 0x0F0F_0F0F) | ((b & 0x0F0F_0F0F) << 4),
            d == ((c >> 8) & 0x00FF_00FF) | ((c & 0x00FF_00FF) << 8),
            r == (d >> 16) | (d << 16),
    ;
}

/// One single-bit round of the division: shift by one bit and, where the bit
/// shifted out is set, XOR the polynomial in. The reflected form shifts right
/// and looks at the lowest bit, the other shifts left and looks at the highest.
pub open spec fn crc_round(step: u32, poly: u32, reflected: bool) -> u32 {
    if reflected {
        (step >> 1) ^ (if step & 1 == 1 {
            poly
        } else {
            0
        })
    } else {
        (step << 1) ^ (if (step >> 31) & 1 == 1 {
            poly
        } else {
            0
        })
    }
}

/// `count` rounds, one after the other.
pub open spec fn crc_rounds(step: u32, poly: u32, reflected: bool, count: nat) -> u32
    decreases count,
{
    if count == 0 {
        step
    } else {
        crc_rounds(crc_round(step, poly, reflected), poly, reflected, (count - 1) as nat)
    }
}

/// The accumulator after one more byte.
pub open spec fn crc_update(crc: u32, byte: u8, poly: u32, reflected: bool) -> u32 {
    if reflected {
        crc_rounds((crc ^ (byte as u32)) & 0xFF, poly, true, 8) ^ (crc >> 8)
    } else {
        crc_rounds((((crc >> 24) ^ (byte as u32)) & 0xFF) << 24, poly, false, 8) ^ (crc << 8)
    }
}

/// The accumulator after all of `bytes`, starting from `crc`.
pub open spec fn crc_accumulate(crc: u32, bytes: Seq<u8>, poly: u32, reflected: bool) -> u32
    decreases bytes.len(),
{
    if bytes.len() == 0 {
        crc
    } else {
        crc_update(crc_accumulate(crc, bytes.drop_last(), poly, reflected), bytes.last(), poly, reflected)
    }
}

/// The CRC-32 of `bytes` under the given parameters: the accumulator starts
/// from `start` and the polynomial is used as given, both bit-reversed when
/// the input is reflected; each byte goes through eight single-bit rounds; the
/// result is bit-reversed when input and output reflection differ, then XORed
/// with `xor_out`.
pub open spec fn crc32(
    bytes: Seq<u8>,
    polynomial: u32,
    start: u32,
    xor_out: u32,
    ref_in: bool,
    ref_out: bool,
) -> u32 {
    let init = if ref_in {
        reflect32(start)
    } else {
        start
    };
    let poly = if ref_in {
        reflect32(polynomial)
    } else {
        polynomial
    };
    let acc = crc_accumulate(init, bytes, poly, ref_in);
    let out = if ref_in != ref_out {
        reflect32(acc)
    } else {
        acc
    };
    out ^ xor_out
}

/// The CRC-32 of `bytes` under a complete configuration.
pub open spec fn crc32_with(bytes: Seq<u8>, config: CrcConfig) -> u32
    recommends
        config.spec_is_complete(),
{
    crc32(
        bytes,
        config.polynomial->Some_0,
        config.start->Some_0,
        config.xor_out->Some_0,
        config.ref_in->Some_0,
        config.ref_out->Some_0,
    )
}

/// Reverses the order of the bits of `x`.
pub fn reverse_bits(x: u32) -> (r: u32)
    ensures
        r == reflect32(x),
{
    let a: u32 = ((x >> 1) & 0x5555_5555) | ((x & 0x5555_5555) << 1);
    let b: u32 = ((a >> 2) & 0x3333_3333) | ((a & 0x3333_3333) << 2);
    let c: u32 = ((b >> 4) & 0x0F0F_0F0F) | ((b & 0x0F0F_0F0F) << 4);
    let d: u32 = ((c >> 8) & 0x00FF_00FF) | ((c & 0x00FF_00FF) << 8);
    (d >> 16) | (d << 16)
}

fn update_byte(crc: u32, byte: u8, poly: u32, reflected: bool) -> (r: u32)
    ensures
        r == crc_update(crc, byte, poly, reflected),
{
    let start: u32 = if reflected {
        (crc ^ (byte as u32)) & 0xFF
    } else {
        (((crc >> 24) ^ (byte as u32)) & 0xFF) << 24
    };
    let mut step: u32 = start;
    let mut done: u8 = 0;
    while done < 8
        invariant
            done <= 8,
            crc_rounds(step, poly, reflected, (8 - done) as nat) == crc_rounds(
                start,
                poly,
                reflected,
                8,
            ),
        decreases 8 - done,
    {
        step = if reflected {
            (step >> 1) ^ (if step & 1 == 1 {
                poly
            } else {
                0
            })
        } else {
            (step << 1) ^ (if (step >> 31) & 1 == 1 {
                poly
            } else {
                0
            })
        };
        done = done + 1;
    }
    if reflected {
        step ^ (crc >> 8)
    } else {
        step ^ (crc << 8)
    }
}

/// Bit-serial CRC-32 of `data` under `crc_settings`, in which every
/// parameter must be set.
pub fn calculate_crc(data: &[u8], crc_settings: &CrcConfig) -> (r: u32)
    requires
        crc_settings.spec_is_complete(),
    ensures
        r == crc32_with(data@, *crc_settings),
{
    let polynomial: u32 = crc_settings.polynomial.unwrap();
    let start: u32 = crc_settings.start.unwrap();
    let xor_out: u32 = crc_settings.xor_out.unwrap();
    let ref_in = crc_settings.ref_in.unwrap();
    let ref_out = crc_settings.ref_out.unwrap();

    let init: u32 = if ref_in {
        reverse_bits(start)
    } else {
        start
    };
    let poly: u32 = if ref_in {
        reverse_bits(polynomial)
    } else {
        polynomial
    };

    let mut crc: u32 = init;
    let mut i: usize = 0;
    while i < data.len()
        invariant
            i <= data.len(),
            crc == crc_accumulate(init, data@.take(i as int), poly, ref_in),
        decreases data.len() - i,
    {
        proof {
            assert(data@.take(i + 1).drop_last() =~= data@.take(i as int));
        }
        crc = update_byte(crc, data[i], poly, ref_in);
        i = i + 1;
    }
    proof {
        assert(data@.take(i as int) =~= data@);
    }
    if ref_in != ref_out {
        crc = reverse_bits(crc);
    }
    crc ^ xor_out
}

} // verus!
