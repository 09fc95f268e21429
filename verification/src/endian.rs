//! 32-bit words as four bytes, in either byte order.

use vstd::prelude::*;

verus! {

/// The order in which the four bytes of a word are laid out.
#[derive(Debug, Clone, Copy, PartialEq, Eq, Structural)]
pub enum ByteOrder {
    /// Least significant byte first.
    Little,
    /// Most significant byte first.
    Big,
}

/// The four bytes of `x`, least significant first.
pub open spec fn low_first(x: u32) -> Seq<u8> {
    seq![
        (x % 256) as u8,
        (x / 256 % 256) as u8,
        (x / 65536 % 256) as u8,
        (x / 16777216) as u8,
    ]
}

/// The four bytes of `x` in the given order.
pub open spec fn word_bytes(x: u32, order: ByteOrder) -> Seq<u8> {
    match order {
        ByteOrder::Little => low_first(x),
        ByteOrder::Big => low_first(x).reverse(),
    }
}

/// The number that four bytes, least significant first, stand for.
pub open spec fn low_first_value(b: Seq<u8>) -> int {
    b[0] + 256 * b[1] + 65536 * b[2] + 16777216 * b[3]
}

/// The word that the first four bytes of `b` hold in the given order.
pub open spec fn word_value(b: Seq<u8>, order: ByteOrder) -> u32
    recommends
        b.len() >= 4,
{
    match order {
        ByteOrder::Little => low_first_value(b.take(4)) as u32,
        ByteOrder::Big => low_first_value(b.take(4).reverse()) as u32,
    }
}

/// The bit pattern of a signed word, read as an unsigned one.
pub open spec fn unsigned_of(x: i32) -> u32 {
    if x >= 0 {
        x as u32
    } else {
        (x + 0x1_0000_0000) as u32
    }
}

/// The bit pattern of an unsigned word, read as a signed one.
pub open spec fn signed_of(u: u32) -> i32 {
    if u <= 0x7fff_ffff {
        u as i32
    } else {
        (u - 0x1_0000_0000) as i32
    }
}

/// Reading the bytes of a word gives the word back.
pub proof fn lemma_word_round_trip(x: u32, order: ByteOrder)
    ensures
        word_bytes(x, order).len() == 4,
        word_value(word_bytes(x, order), order) == x,
{
    let b = low_first(x);
    assert(b.take(4) =~= b);
    assert(b.reverse().take(4) =~= b.reverse());
    assert(b.reverse().reverse() =~= b);
    assert(low_first_value(b) == x);
}

/// Reading the bit pattern of a signed word as signed gives the word back.
pub proof fn lemma_sign_round_trip(x: i32)
    ensures
        signed_of(unsigned_of(x)) == x,
{
}

/// The word 1 as this machine lays it out in memory.
///
/// Calls `u32::to_ne_bytes`. The claim is that the result is the word in one
/// of the two byte orders: every target stores integers either least or most
/// significant byte first.
#[verifier::external_body]
fn one_in_memory() -> (bytes: [u8; 4])
    ensures
        bytes@ == word_bytes(1u32, ByteOrder::Little) || bytes@ == word_bytes(1u32, ByteOrder::Big),
{
    1u32.to_ne_bytes()
}

impl ByteOrder {
    /// The byte order of the machine that runs the program.
    pub fn native() -> (order: ByteOrder) {
        ByteOrder::of_one(one_in_memory())
    }

    /// The byte order of a machine on which the word 1 lies in memory as
    /// `layout`: least significant byte first if the first byte is the 1,
    /// most significant byte first if it is not.
    pub open spec fn of_layout(layout: Seq<u8>) -> ByteOrder {
        if layout[0] == 1 {
            ByteOrder::Little
        } else {
            ByteOrder::Big
        }
    }

    /// Tells the byte order of a machine from how the word 1 lies in its
    /// memory. Where `layout` is the word 1 in one of the two byte orders,
    /// that order is returned.
    pub fn of_one(layout: [u8; 4]) -> (order: ByteOrder)
        ensures
            order == Self::of_layout(layout@),
            layout@ == word_bytes(1u32, ByteOrder::Little) ==> order == ByteOrder::Little,
            layout@ == word_bytes(1u32, ByteOrder::Big) ==> order == ByteOrder::Big,
    {
        assert(low_first(1u32)[0] == 1 && low_first(1u32).reverse()[0] == 0);
        if layout[0] == 1 {
            ByteOrder::Little
        } else {
            ByteOrder::Big
        }
    }
}

/// Appends the four bytes of `x` to `out`.
pub fn put_word(out: &mut Vec<u8>, x: u32, order: ByteOrder)
    ensures
        final(out)@ == old(out)@ + word_bytes(x, order),
{
    let b0: u8 = (x % 256) as u8;
    let b1: u8 = (x / 256 % 256) as u8;
    let b2: u8 = (x / 65536 % 256) as u8;
    let b3: u8 = (x / 16777216) as u8;
    let ghost before = out@;
    match order {
        ByteOrder::Little => {
            out.push(b0);
            out.push(b1);
            out.push(b2);
            out.push(b3);
        },
        ByteOrder::Big => {
            out.push(b3);
            out.push(b2);
            out.push(b1);
            out.push(b0);
        },
    }
    assert(out@ =~= before + word_bytes(x, order));
}

/// Reads the word that starts at `at`.
pub fn get_word(bytes: &[u8], at: usize, order: ByteOrder) -> (x: u32)
    requires
        at + 4 <= bytes@.len(),
    ensures
        x == word_value(bytes@.subrange(at as int, at + 4), order),
{
    let b0: u32 = bytes[at] as u32;
    let b1: u32 = bytes[at + 1] as u32;
    let b2: u32 = bytes[at + 2] as u32;
    let b3: u32 = bytes[at + 3] as u32;
    let ghost s = bytes@.subrange(at as int, at + 4);
    assert(s.take(4) =~= s);
    match order {
        ByteOrder::Little => b0 + 256 * b1 + 65536 * b2 + 16777216 * b3,
        ByteOrder::Big => b3 + 256 * b2 + 65536 * b1 + 16777216 * b0,
    }
}

/// Reads a signed word as the unsigned word with the same bits.
pub fn to_unsigned(x: i32) -> (u: u32)
    ensures
        u == unsigned_of(x),
{
    if x >= 0 {
        x as u32
    } else {
        (x as i64 + 0x1_0000_0000i64) as u32
    }
}

/// Reads an unsigned word as the signed word with the same bits.
pub fn to_signed(u: u32) -> (x: i32)
    ensures
        x == signed_of(u),
{
    if u <= 0x7fff_ffff {
        u as i32
    } else {
        (u as i64 - 0x1_0000_0000i64) as i32
    }
}

} // verus!
