use vstd::prelude::*;

verus! {

/// Decimal text of the IEEE 754 single-precision value with the given bit
/// pattern, as Rust's default formatting renders it (shortest round-trip
/// decimal). The rendering takes pages to state, so it is left abstract.
pub uninterp spec fn float_text(bits: u32) -> Seq<u8>;

/// Relies on the `Display` formatting of an `f32` component of a
/// `glam::Vec3`: the rendered decimal text is a function of the bit pattern
/// alone. The bit pattern reaches the float value by a plain `bytemuck`
/// reinterpretation cast.
#[verifier::external_body]
pub(crate) fn format_float_bits(bits: u32) -> (r: Vec<u8>)
    ensures
        r@ == float_text(bits),
{
    let v: glam::Vec3 = bytemuck::cast(glam::UVec3::new(bits, bits, bits));
    format!("{}", v.x).into_bytes()
}

} // verus!
