//! Turning index and draw-record words into the bytes that GPU buffers hold.
use vstd::prelude::*;

use crate::indirect::IndirectDraw;

verus! {

/// The order in which the bytes of a multi-byte integer are stored.
pub enum ByteOrder {
    Little,
    Big,
}

pub open spec fn u16_bytes(x: u16, order: ByteOrder) -> Seq<u8> {
    let lo = (x % 256) as u8;
    let hi = (x / 256) as u8;
    match order {
        ByteOrder::Little => seq![lo, hi],
        ByteOrder::Big => seq![hi, lo],
    }
}

pub open spec fn u32_bytes(x: u32, order: ByteOrder) -> Seq<u8> {
    let b0 = (x % 256) as u8;
    let b1 = ((x / 256) % 256) as u8;
    let b2 = ((x / 65536) % 256) as u8;
    let b3 = (x / 16777216) as u8;
    match order {
        ByteOrder::Little => seq![b0, b1, b2, b3],
        ByteOrder::Big => seq![b3, b2, b1, b0],
    }
}

/// The bytes of a sequence of 16-bit words, one after the other.
pub open spec fn u16s_bytes(words: Seq<u16>, order: ByteOrder) -> Seq<u8>
    decreases words.len(),
{
    if words.len() == 0 {
        Seq::empty()
    } else {
        u16s_bytes(words.drop_last(), order) + u16_bytes(words.last(), order)
    }
}

/// The bytes of a sequence of 32-bit words, one after the other.
pub open spec fn u32s_bytes(words: Seq<u32>, order: ByteOrder) -> Seq<u8>
    decreases words.len(),
{
    if words.len() == 0 {
        Seq::empty()
    } else {
        u32s_bytes(words.drop_last(), order) + u32_bytes(words.last(), order)
    }
}

/// Relies on bytemuck::cast_slice from `u16` to `u8`: it reinterprets the words
/// in place, so each word's two bytes appear in the machine's byte order.
#[verifier::external_body]
pub(crate) fn u16s_to_bytes(words: &[u16]) -> (r: Vec<u8>)
    ensures
        r@ == u16s_bytes(words@, ByteOrder::Little) || r@ == u16s_bytes(words@, ByteOrder::Big),
{
    bytemuck::cast_slice::<u16, u8>(words).to_vec()
}

/// Relies on bytemuck::cast_slice from `u32` to `u8`: it reinterprets the words
/// in place, so each word's four bytes appear in the machine's byte order.
#[verifier::external_body]
pub(crate) fn u32s_to_bytes(words: &[u32]) -> (r: Vec<u8>)
    ensures
        r@ == u32s_bytes(words@, ByteOrder::Little) || r@ == u32s_bytes(words@, ByteOrder::Big),
{
    bytemuck::cast_slice::<u32, u8>(words).to_vec()
}

/// The words of one draw record, in the field order the GPU reads.
pub open spec fn draw_words(d: IndirectDraw) -> Seq<u32> {
    match d {
        IndirectDraw::NonIndexed(d) => seq![
            d.vertex_count,
            d.instance_count,
            d.base_vertex,
            d.base_instance,
        ],
        IndirectDraw::Indexed(d) => seq![
            d.vertex_count,
            d.instance_count,
            d.base_index,
            d.vertex_offset as u32,
            d.base_instance,
        ],
    }
}

/// The words of a list of draw records, one record after the other.
pub open spec fn draws_words(ds: Seq<IndirectDraw>) -> Seq<u32>
    decreases ds.len(),
{
    if ds.len() == 0 {
        Seq::empty()
    } else {
        draws_words(ds.drop_last()) + draw_words(ds.last())
    }
}

/// Lays out draw records as consecutive 32-bit words.
pub fn indirect_words(draws: &Vec<IndirectDraw>) -> (r: Vec<u32>)
    ensures
        r@ == draws_words(draws@),
{
    let mut out: Vec<u32> = Vec::new();
    let mut i: usize = 0;
    while i < draws.len()
        invariant
            i <= draws@.len(),
            out@ == draws_words(draws@.take(i as int)),
        decreases draws@.len() - i,
    {
        let ghost before = out@;
        match draws[i] {
            IndirectDraw::NonIndexed(d) => {
                out.push(d.vertex_count);
                out.push(d.instance_count);
                out.push(d.base_vertex);
                out.push(d.base_instance);
            },
            IndirectDraw::Indexed(d) => {
                out.push(d.vertex_count);
                out.push(d.instance_count);
                out.push(d.base_index);
                out.push(d.vertex_offset as u32);
                out.push(d.base_instance);
            },
        }
        proof {
            let next = draws@.take(i + 1);
            assert(next.drop_last() =~= draws@.take(i as int));
            assert(out@ =~= before + draw_words(draws@[i as int]));
        }
        i += 1;
    }
    proof {
        assert(draws@.take(i as int) =~= draws@);
    }
    out
}

/// The bytes of an indirect buffer holding the given draw records.
pub fn indirect_bytes(draws: &Vec<IndirectDraw>) -> (r: Vec<u8>)
    ensures
        r@ == u32s_bytes(draws_words(draws@), ByteOrder::Little) || r@ == u32s_bytes(
            draws_words(draws@),
            ByteOrder::Big,
        ),
{
    let words = indirect_words(draws);
    u32s_to_bytes(words.as_slice())
}

} // verus!
