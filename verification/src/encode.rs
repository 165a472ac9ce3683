use vstd::prelude::*;

use vstd::arithmetic::div_mod::{
    lemma_div_denominator, lemma_fundamental_div_mod, lemma_small_mod,
};

use crate::decode::{
    rd_i16, rd_pose, rd_str, rd_transform, rd_u32, sp_animation_at, sp_decode_animation,
    sp_decode_skeleton, sp_read_many, sp_read_pose, sp_read_transform, sp_skeleton_at,
    ANIMATION_VERSION,
};
use crate::error::DumpError;
use crate::model::{AnimationV, PoseV, SkeletonV, Transform};
use crate::reader::{
    find_term, le16_at, le32_at, sp_read_i16, sp_read_i32, sp_read_string, sp_read_u32, utf8_valid,
};

verus! {

/// The byte of `x` at the scale `d`, which is a power of 256.
#[verifier::opaque]
pub open spec fn enc_byte(x: int, d: int) -> u8 {
    ((x / d) % 0x100) as u8
}

/// A 16-bit word as its two little-endian bytes.
pub open spec fn enc_u16(v: u16) -> Seq<u8> {
    seq![enc_byte(v as int, 1), enc_byte(v as int, 0x100)]
}

/// A signed 16-bit word as its two little-endian bytes.
pub open spec fn enc_i16(v: i16) -> Seq<u8> {
    enc_u16(v as u16)
}

/// A 32-bit word as its four little-endian bytes.
pub open spec fn enc_u32(v: u32) -> Seq<u8> {
    seq![
        enc_byte(v as int, 1),
        enc_byte(v as int, 0x100),
        enc_byte(v as int, 0x10000),
        enc_byte(v as int, 0x1000000),
    ]
}

/// A signed 32-bit word as its four little-endian bytes.
pub open spec fn enc_i32(v: i32) -> Seq<u8> {
    enc_u32(v as u32)
}

/// A field string on the wire: its bytes followed by the terminator.
pub open spec fn enc_str(sb: Seq<u8>) -> Seq<u8> {
    sb + seq![0u8]
}

/// The header line on the wire: its bytes followed by a newline.
pub open spec fn enc_header(sb: Seq<u8>) -> Seq<u8> {
    sb + seq![10u8]
}

/// A transform on the wire: the location group with a zeroed padding slot,
/// the rotation group, and the scale group with the scale in the z-slot and
/// zeroes in the discarded slots.
pub open spec fn enc_transform(t: Transform) -> Seq<u8> {
    enc_u32(t.location.0) + (enc_u32(t.location.1) + (enc_u32(t.location.2) + (enc_u32(0u32) + (
    enc_u32(t.rotation.0) + (enc_u32(t.rotation.1) + (enc_u32(t.rotation.2) + (enc_u32(
        t.rotation.3,
    ) + (enc_u32(0u32) + (enc_u32(0u32) + (enc_u32(t.scale) + enc_u32(0u32)))))))))))
}

/// A parent-index array on the wire.
pub open spec fn enc_i16s(l: Seq<i16>) -> Seq<u8>
    decreases l.len(),
{
    if l.len() == 0 {
        Seq::empty()
    } else {
        enc_i16(l[0]) + enc_i16s(l.drop_first())
    }
}

/// A float-value array on the wire.
pub open spec fn enc_u32s(l: Seq<u32>) -> Seq<u8>
    decreases l.len(),
{
    if l.len() == 0 {
        Seq::empty()
    } else {
        enc_u32(l[0]) + enc_u32s(l.drop_first())
    }
}

/// A string array on the wire, each string null-terminated.
pub open spec fn enc_strs(l: Seq<Seq<u8>>) -> Seq<u8>
    decreases l.len(),
{
    if l.len() == 0 {
        Seq::empty()
    } else {
        enc_str(l[0]) + enc_strs(l.drop_first())
    }
}

/// A transform array on the wire.
pub open spec fn enc_transforms(l: Seq<Transform>) -> Seq<u8>
    decreases l.len(),
{
    if l.len() == 0 {
        Seq::empty()
    } else {
        enc_transform(l[0]) + enc_transforms(l.drop_first())
    }
}

/// A whole skeleton dump assembled by the skeleton wire grammar: header
/// line, version, skeleton count, name, then each array led by its own
/// count, and the trailing animation-record count.
pub open spec fn enc_skeleton(
    header: Seq<u8>,
    version: u32,
    n_skeletons: i32,
    name: Seq<u8>,
    parents: Seq<i16>,
    transform_names: Seq<Seq<u8>>,
    transforms: Seq<Transform>,
    floats: Seq<u32>,
    float_names: Seq<Seq<u8>>,
    n_animations: i32,
) -> Seq<u8> {
    enc_header(header) + (enc_u32(version) + (enc_i32(n_skeletons) + (enc_str(name) + (enc_i32(
        parents.len() as i32,
    ) + (enc_i16s(parents) + (enc_i32(transform_names.len() as i32) + (enc_strs(transform_names)
        + (enc_i32(transforms.len() as i32) + (enc_transforms(transforms) + (enc_i32(
        floats.len() as i32,
    ) + (enc_u32s(floats) + (enc_i32(float_names.len() as i32) + (enc_strs(float_names) + enc_i32(
        n_animations,
    ))))))))))))))
}

/// A string with no terminator byte in it, so that the wire encoding is
/// unambiguous.
pub open spec fn str_clean(sb: Seq<u8>, term: u8) -> bool {
    forall|i: int| 0 <= i < sb.len() ==> sb[i] != term
}

/// Every string of the array is terminator-free.
pub open spec fn strs_clean(l: Seq<Seq<u8>>) -> bool {
    forall|k: int| 0 <= k < l.len() ==> str_clean(#[trigger] l[k], 0)
}

/// Every string of the array is valid UTF-8.
pub open spec fn strs_utf8(l: Seq<Seq<u8>>) -> bool {
    forall|k: int| 0 <= k < l.len() ==> utf8_valid(#[trigger] l[k])
}

proof fn lemma_split(s: Seq<u8>, p: int, a: Seq<u8>, b: Seq<u8>)
    requires
        0 <= p,
        p + a.len() + b.len() <= s.len(),
        s.subrange(p, p + a.len() + b.len()) == a + b,
    ensures
        s.subrange(p, p + a.len()) == a,
        s.subrange(p + a.len(), p + a.len() + b.len()) == b,
{
    let ab = a + b;
    assert forall|i: int| 0 <= i < a.len() + b.len() implies s[p + i] == #[trigger] ab[i] by {
        assert(s.subrange(p, p + a.len() + b.len())[i] == s[p + i]);
    }
    assert(s.subrange(p, p + a.len()) =~= a) by {
        assert forall|i: int| 0 <= i < a.len() implies s.subrange(p, p + a.len())[i] == a[i] by {
            assert(s[p + i] == ab[i]);
        }
    }
    assert(s.subrange(p + a.len(), p + a.len() + b.len()) =~= b) by {
        assert forall|i: int|
            0 <= i < b.len() implies s.subrange(p + a.len(), p + a.len() + b.len())[i] == b[i] by {
            assert(s[p + a.len() + i] == ab[a.len() + i]);
        }
    }
}

proof fn lemma_u32_bytes(v: u32)
    ensures
        ((v as int) % 0x100) + (((v as int) / 0x100) % 0x100) * 0x100 + (((v as int) / 0x10000)
            % 0x100) * 0x10000 + (((v as int) / 0x1000000) % 0x100) * 0x1000000 == v as int,
{
    let x = v as int;
    lemma_fundamental_div_mod(x, 0x100);
    lemma_fundamental_div_mod(x / 0x100, 0x100);
    lemma_fundamental_div_mod(x / 0x10000, 0x100);
    lemma_div_denominator(x, 0x100, 0x100);
    lemma_div_denominator(x, 0x10000, 0x100);
    lemma_fundamental_div_mod(x, 0x1000000);
    assert(0x1000000 * (x / 0x1000000) <= x);
    assert(x / 0x1000000 < 0x100);
    assert(x / 0x1000000 >= 0);
    lemma_small_mod((x / 0x1000000) as nat, 0x100);
}

proof fn lemma_u16_bytes(v: u16)
    ensures
        ((v as int) % 0x100) + (((v as int) / 0x100) % 0x100) * 0x100 == v as int,
{
    let x = v as int;
    lemma_fundamental_div_mod(x, 0x100);
    assert(0x100 * (x / 0x100) <= x);
    assert(x / 0x100 < 0x100);
    assert(x / 0x100 >= 0);
    lemma_small_mod((x / 0x100) as nat, 0x100);
}

proof fn lemma_read_u32_enc(s: Seq<u8>, p: int, v: u32)
    requires
        0 <= p,
        p + 4 <= s.len(),
        s.subrange(p, p + 4) == enc_u32(v),
    ensures
        sp_read_u32(s, p) == Ok::<(u32, int), DumpError>((v, p + 4)),
{
    let x = v as int;
    assert(s[p] == enc_u32(v)[0] && s[p + 1] == enc_u32(v)[1] && s[p + 2] == enc_u32(v)[2] && s[p
        + 3] == enc_u32(v)[3]) by {
        assert(s.subrange(p, p + 4)[0] == s[p]);
        assert(s.subrange(p, p + 4)[1] == s[p + 1]);
        assert(s.subrange(p, p + 4)[2] == s[p + 2]);
        assert(s.subrange(p, p + 4)[3] == s[p + 3]);
    }
    lemma_u32_bytes(v);
    reveal(enc_byte);
    assert(x / 1 == x);
    assert(le32_at(s, p) == v);
}

proof fn lemma_read_i32_enc(s: Seq<u8>, p: int, v: i32)
    requires
        0 <= p,
        p + 4 <= s.len(),
        s.subrange(p, p + 4) == enc_i32(v),
    ensures
        sp_read_i32(s, p) == Ok::<(i32, int), DumpError>((v, p + 4)),
{
    lemma_read_u32_enc(s, p, v as u32);
    assert(le32_at(s, p) == v as u32);
    assert((v as u32) as i32 == v) by (bit_vector);
}

proof fn lemma_read_i16_enc(s: Seq<u8>, p: int, v: i16)
    requires
        0 <= p,
        p + 2 <= s.len(),
        s.subrange(p, p + 2) == enc_i16(v),
    ensures
        sp_read_i16(s, p) == Ok::<(i16, int), DumpError>((v, p + 2)),
{
    assert(s[p] == enc_i16(v)[0] && s[p + 1] == enc_i16(v)[1]) by {
        assert(s.subrange(p, p + 2)[0] == s[p]);
        assert(s.subrange(p, p + 2)[1] == s[p + 1]);
    }
    lemma_u16_bytes(v as u16);
    reveal(enc_byte);
    assert((v as u16) as int / 1 == (v as u16) as int);
    assert(le16_at(s, p) == v as u16);
    assert((v as u16) as i16 == v) by (bit_vector);
}

proof fn lemma_find_term_enc(s: Seq<u8>, p: int, sb: Seq<u8>, term: u8)
    requires
        0 <= p,
        p + sb.len() + 1 <= s.len(),
        s.subrange(p, p + sb.len() + 1) == sb + seq![term],
        str_clean(sb, term),
    ensures
        find_term(s, p, term) == Some(p + sb.len() as int),
    decreases sb.len(),
{
    assert(s[p + sb.len()] == (sb + seq![term])[sb.len() as int]) by {
        assert(s.subrange(p, p + sb.len() + 1)[sb.len() as int] == s[p + sb.len()]);
    }
    if sb.len() == 0 {
        assert(s[p] == term);
    } else {
        assert(s[p] == (sb + seq![term])[0]) by {
            assert(s.subrange(p, p + sb.len() + 1)[0] == s[p]);
        }
        assert(s[p] == sb[0]);
        assert(sb[0] != term);
        assert(s.subrange(p + 1, p + sb.len() + 1) =~= sb.drop_first() + seq![term]) by {
            assert forall|i: int|
                0 <= i < sb.len() implies s.subrange(p + 1, p + sb.len() + 1)[i] == (
            sb.drop_first() + seq![term])[i] by {
                assert(s.subrange(p, p + sb.len() + 1)[1 + i] == s[p + 1 + i]);
                assert((sb + seq![term])[1 + i] == (sb.drop_first() + seq![term])[i]);
            }
        }
        assert(str_clean(sb.drop_first(), term)) by {
            assert(forall|i: int|
                0 <= i < sb.drop_first().len() ==> #[trigger] sb.drop_first()[i] == sb[i + 1]);
        }
        lemma_find_term_enc(s, p + 1, sb.drop_first(), term);
    }
}

proof fn lemma_read_string_enc(s: Seq<u8>, p: int, sb: Seq<u8>, term: u8)
    requires
        0 <= p,
        p + sb.len() + 1 <= s.len(),
        s.subrange(p, p + sb.len() + 1) == sb + seq![term],
        str_clean(sb, term),
        utf8_valid(sb),
    ensures
        sp_read_string(s, p, term) == Ok::<(Seq<u8>, int), DumpError>((sb, p + sb.len() + 1)),
{
    lemma_find_term_enc(s, p, sb, term);
    assert(s.subrange(p, p + sb.len()) =~= sb);
}

proof fn lemma_enc_i16s_len(l: Seq<i16>)
    ensures
        enc_i16s(l).len() == 2 * l.len(),
    decreases l.len(),
{
    if l.len() > 0 {
        lemma_enc_i16s_len(l.drop_first());
    }
}

proof fn lemma_enc_u32s_len(l: Seq<u32>)
    ensures
        enc_u32s(l).len() == 4 * l.len(),
    decreases l.len(),
{
    if l.len() > 0 {
        lemma_enc_u32s_len(l.drop_first());
    }
}

proof fn lemma_enc_transforms_len(l: Seq<Transform>)
    ensures
        enc_transforms(l).len() == 48 * l.len(),
    decreases l.len(),
{
    if l.len() > 0 {
        lemma_enc_transforms_len(l.drop_first());
    }
}

proof fn lemma_read_i16s_enc(s: Seq<u8>, p: int, l: Seq<i16>)
    requires
        0 <= p,
        p + enc_i16s(l).len() <= s.len(),
        s.subrange(p, p + enc_i16s(l).len()) == enc_i16s(l),
    ensures
        sp_read_many(s, p, l.len() as int, rd_i16()) == Ok::<(Seq<i16>, int), DumpError>(
            (l, p + enc_i16s(l).len()),
        ),
    decreases l.len(),
{
    if l.len() == 0 {
        assert(l =~= Seq::<i16>::empty());
    } else {
        lemma_enc_i16s_len(l);
        lemma_enc_i16s_len(l.drop_first());
        lemma_split(s, p, enc_i16(l[0]), enc_i16s(l.drop_first()));
        lemma_read_i16_enc(s, p, l[0]);
        lemma_read_i16s_enc(s, p + 2, l.drop_first());
        assert(seq![l[0]] + l.drop_first() =~= l);
    }
}

proof fn lemma_read_u32s_enc(s: Seq<u8>, p: int, l: Seq<u32>)
    requires
        0 <= p,
        p + enc_u32s(l).len() <= s.len(),
        s.subrange(p, p + enc_u32s(l).len()) == enc_u32s(l),
    ensures
        sp_read_many(s, p, l.len() as int, rd_u32()) == Ok::<(Seq<u32>, int), DumpError>(
            (l, p + enc_u32s(l).len()),
        ),
    decreases l.len(),
{
    if l.len() == 0 {
        assert(l =~= Seq::<u32>::empty());
    } else {
        lemma_enc_u32s_len(l);
        lemma_enc_u32s_len(l.drop_first());
        lemma_split(s, p, enc_u32(l[0]), enc_u32s(l.drop_first()));
        lemma_read_u32_enc(s, p, l[0]);
        lemma_read_u32s_enc(s, p + 4, l.drop_first());
        assert(seq![l[0]] + l.drop_first() =~= l);
    }
}

proof fn lemma_read_strs_enc(s: Seq<u8>, p: int, l: Seq<Seq<u8>>)
    requires
        0 <= p,
        p + enc_strs(l).len() <= s.len(),
        s.subrange(p, p + enc_strs(l).len()) == enc_strs(l),
        strs_clean(l),
        strs_utf8(l),
    ensures
        sp_read_many(s, p, l.len() as int, rd_str()) == Ok::<(Seq<Seq<u8>>, int), DumpError>(
            (l, p + enc_strs(l).len()),
        ),
    decreases l.len(),
{
    if l.len() == 0 {
        assert(l =~= Seq::<Seq<u8>>::empty());
    } else {
        lemma_split(s, p, enc_str(l[0]), enc_strs(l.drop_first()));
        assert(str_clean(l[0], 0) && utf8_valid(l[0]));
        lemma_read_string_enc(s, p, l[0], 0);
        assert(strs_clean(l.drop_first()) && strs_utf8(l.drop_first())) by {
            assert(forall|k: int|
                0 <= k < l.drop_first().len() ==> #[trigger] l.drop_first()[k] == l[k + 1]);
        }
        lemma_read_strs_enc(s, p + l[0].len() + 1, l.drop_first());
        assert(seq![l[0]] + l.drop_first() =~= l);
    }
}

proof fn lemma_read_transform_enc(s: Seq<u8>, p: int, t: Transform)
    requires
        0 <= p,
        p + 48 <= s.len(),
        s.subrange(p, p + 48) == enc_transform(t),
    ensures
        sp_read_transform(s, p) == Ok::<(Transform, int), DumpError>((t, p + 48)),
{
    let e = enc_transform(t);
    assert(forall|i: int| 0 <= i < 48 ==> s[p + i] == #[trigger] e[i]) by {
        assert(forall|i: int| 0 <= i < 48 ==> #[trigger] s.subrange(p, p + 48)[i] == s[p + i]);
    }
    assert(s.subrange(p, p + 4) =~= enc_u32(t.location.0)) by {
        assert forall|i: int| 0 <= i < 4 implies s.subrange(p, p + 4)[i] == enc_u32(t.location.0)[i] by {
            assert(s[p + i] == e[i]);
        }
    }
    lemma_read_u32_enc(s, p, t.location.0);
    assert(s.subrange(p + 4, p + 8) =~= enc_u32(t.location.1)) by {
        assert forall|i: int|
            0 <= i < 4 implies s.subrange(p + 4, p + 8)[i] == enc_u32(t.location.1)[i] by {
            assert(s[p + 4 + i] == e[4 + i]);
        }
    }
    lemma_read_u32_enc(s, p + 4, t.location.1);
    assert(s.subrange(p + 8, p + 12) =~= enc_u32(t.location.2)) by {
        assert forall|i: int|
            0 <= i < 4 implies s.subrange(p + 8, p + 12)[i] == enc_u32(t.location.2)[i] by {
            assert(s[p + 8 + i] == e[8 + i]);
        }
    }
    lemma_read_u32_enc(s, p + 8, t.location.2);
    assert(s.subrange(p + 16, p + 20) =~= enc_u32(t.rotation.0)) by {
        assert forall|i: int|
            0 <= i < 4 implies s.subrange(p + 16, p + 20)[i] == enc_u32(t.rotation.0)[i] by {
            assert(s[p + 16 + i] == e[16 + i]);
        }
    }
    lemma_read_u32_enc(s, p + 16, t.rotation.0);
    assert(s.subrange(p + 20, p + 24) =~= enc_u32(t.rotation.1)) by {
        assert forall|i: int|
            0 <= i < 4 implies s.subrange(p + 20, p + 24)[i] == enc_u32(t.rotation.1)[i] by {
            assert(s[p + 20 + i] == e[20 + i]);
        }
    }
    lemma_read_u32_enc(s, p + 20, t.rotation.1);
    assert(s.subrange(p + 24, p + 28) =~= enc_u32(t.rotation.2)) by {
        assert forall|i: int|
            0 <= i < 4 implies s.subrange(p + 24, p + 28)[i] == enc_u32(t.rotation.2)[i] by {
            assert(s[p + 24 + i] == e[24 + i]);
        }
    }
    lemma_read_u32_enc(s, p + 24, t.rotation.2);
    assert(s.subrange(p + 28, p + 32) =~= enc_u32(t.rotation.3)) by {
        assert forall|i: int|
            0 <= i < 4 implies s.subrange(p + 28, p + 32)[i] == enc_u32(t.rotation.3)[i] by {
            assert(s[p + 28 + i] == e[28 + i]);
        }
    }
    lemma_read_u32_enc(s, p + 28, t.rotation.3);
    assert(s.subrange(p + 40, p + 44) =~= enc_u32(t.scale)) by {
        assert forall|i: int|
            0 <= i < 4 implies s.subrange(p + 40, p + 44)[i] == enc_u32(t.scale)[i] by {
            assert(s[p + 40 + i] == e[40 + i]);
        }
    }
    lemma_read_u32_enc(s, p + 40, t.scale);
}

proof fn lemma_read_transforms_enc(s: Seq<u8>, p: int, l: Seq<Transform>)
    requires
        0 <= p,
        p + enc_transforms(l).len() <= s.len(),
        s.subrange(p, p + enc_transforms(l).len()) == enc_transforms(l),
    ensures
        sp_read_many(s, p, l.len() as int, rd_transform()) == Ok::<(Seq<Transform>, int),
            DumpError>((l, p + enc_transforms(l).len())),
    decreases l.len(),
{
    if l.len() == 0 {
        assert(l =~= Seq::<Transform>::empty());
    } else {
        lemma_enc_transforms_len(l);
        lemma_enc_transforms_len(l.drop_first());
        lemma_split(s, p, enc_transform(l[0]), enc_transforms(l.drop_first()));
        lemma_read_transform_enc(s, p, l[0]);
        lemma_read_transforms_enc(s, p + 48, l.drop_first());
        assert(seq![l[0]] + l.drop_first() =~= l);
    }
}


#[verifier::rlimit(100)]
proof fn lemma_rt_quarter1(
    s: Seq<u8>,
    header: Seq<u8>,
    version: u32,
    n_skeletons: i32,
    name: Seq<u8>,
    rest5: Seq<u8>,
)
    requires
        str_clean(header, 10),
        utf8_valid(header),
        str_clean(name, 0),
        utf8_valid(name),
        s == enc_header(header) + (enc_u32(version) + (enc_i32(n_skeletons) + (enc_str(name)
            + rest5))),
    ensures
        ({
            let p2 = header.len() as int + 1;
            let p4 = p2 + 8;
            let p5 = p4 + name.len() as int + 1;
            &&& sp_read_string(s, 0, 10) == Ok::<(Seq<u8>, int), DumpError>((header, p2))
            &&& sp_read_u32(s, p2) == Ok::<(u32, int), DumpError>((version, p2 + 4))
            &&& sp_read_i32(s, p2 + 4) == Ok::<(i32, int), DumpError>((n_skeletons, p4))
            &&& sp_read_string(s, p4, 0) == Ok::<(Seq<u8>, int), DumpError>((name, p5))
            &&& s.subrange(p5, s.len() as int) == rest5
        }),
{
    let e1 = enc_header(header);
    let e2 = enc_u32(version);
    let e3 = enc_i32(n_skeletons);
    let e4 = enc_str(name);
    let r5 = rest5;
    let r4 = e4 + r5;
    let r3 = e3 + r4;
    let r2 = e2 + r3;
    assert(s.subrange(0, s.len() as int) =~= s);
    lemma_split(s, 0, e1, r2);
    lemma_read_string_enc(s, 0, header, 10);
    let p2 = e1.len() as int;
    lemma_split(s, p2, e2, r3);
    lemma_read_u32_enc(s, p2, version);
    lemma_split(s, p2 + 4, e3, r4);
    lemma_read_i32_enc(s, p2 + 4, n_skeletons);
    let p4 = p2 + 8;
    lemma_split(s, p4, e4, r5);
    lemma_read_string_enc(s, p4, name, 0);
}

#[verifier::rlimit(100)]
proof fn lemma_rt_quarter2(
    s: Seq<u8>,
    p: int,
    parents: Seq<i16>,
    transform_names: Seq<Seq<u8>>,
    rest9: Seq<u8>,
)
    requires
        0 <= p <= s.len(),
        strs_clean(transform_names),
        strs_utf8(transform_names),
        parents.len() <= i32::MAX,
        transform_names.len() <= i32::MAX,
        s.subrange(p, s.len() as int) == enc_i32(parents.len() as i32) + (enc_i16s(parents) + (
        enc_i32(transform_names.len() as i32) + (enc_strs(transform_names) + rest9))),
    ensures
        ({
            let p6 = p + 4;
            let p7 = p6 + 2 * parents.len() as int;
            let p8 = p7 + 4;
            let p9 = p8 + enc_strs(transform_names).len() as int;
            &&& sp_read_i32(s, p) == Ok::<(i32, int), DumpError>((parents.len() as i32, p6))
            &&& sp_read_many(s, p6, parents.len() as int, rd_i16()) == Ok::<(Seq<i16>, int),
                DumpError>((parents, p7))
            &&& sp_read_i32(s, p7) == Ok::<(i32, int), DumpError>(
                (transform_names.len() as i32, p8),
            )
            &&& sp_read_many(s, p8, transform_names.len() as int, rd_str()) == Ok::<
                (Seq<Seq<u8>>, int),
                DumpError,
            >((transform_names, p9))
            &&& s.subrange(p9, s.len() as int) == rest9
        }),
{
    assert(s.subrange(p, s.len() as int).len() == s.len() - p);
    let e5 = enc_i32(parents.len() as i32);
    let e6 = enc_i16s(parents);
    let e7 = enc_i32(transform_names.len() as i32);
    let e8 = enc_strs(transform_names);
    let r9 = rest9;
    let r8 = e8 + r9;
    let r7 = e7 + r8;
    let r6 = e6 + r7;
    lemma_enc_i16s_len(parents);
    lemma_split(s, p, e5, r6);
    lemma_read_i32_enc(s, p, parents.len() as i32);
    let p6 = p + 4;
    lemma_split(s, p6, e6, r7);
    lemma_read_i16s_enc(s, p6, parents);
    let p7 = p6 + e6.len() as int;
    lemma_split(s, p7, e7, r8);
    lemma_read_i32_enc(s, p7, transform_names.len() as i32);
    let p8 = p7 + 4;
    lemma_split(s, p8, e8, r9);
    lemma_read_strs_enc(s, p8, transform_names);
}

#[verifier::rlimit(100)]
proof fn lemma_rt_quarter3(
    s: Seq<u8>,
    p: int,
    transforms: Seq<Transform>,
    floats: Seq<u32>,
    rest13: Seq<u8>,
)
    requires
        0 <= p <= s.len(),
        transforms.len() <= i32::MAX,
        floats.len() <= i32::MAX,
        s.subrange(p, s.len() as int) == enc_i32(transforms.len() as i32) + (enc_transforms(
            transforms,
        ) + (enc_i32(floats.len() as i32) + (enc_u32s(floats) + rest13))),
    ensures
        ({
            let p10 = p + 4;
            let p11 = p10 + 48 * transforms.len() as int;
            let p12 = p11 + 4;
            let p13 = p12 + 4 * floats.len() as int;
            &&& sp_read_i32(s, p) == Ok::<(i32, int), DumpError>((transforms.len() as i32, p10))
            &&& sp_read_many(s, p10, transforms.len() as int, rd_transform()) == Ok::<
                (Seq<Transform>, int),
                DumpError,
            >((transforms, p11))
            &&& sp_read_i32(s, p11) == Ok::<(i32, int), DumpError>((floats.len() as i32, p12))
            &&& sp_read_many(s, p12, floats.len() as int, rd_u32()) == Ok::<(Seq<u32>, int),
                DumpError>((floats, p13))
            &&& s.subrange(p13, s.len() as int) == rest13
        }),
{
    assert(s.subrange(p, s.len() as int).len() == s.len() - p);
    let e9 = enc_i32(transforms.len() as i32);
    let e10 = enc_transforms(transforms);
    let e11 = enc_i32(floats.len() as i32);
    let e12 = enc_u32s(floats);
    let r13 = rest13;
    let r12 = e12 + r13;
    let r11 = e11 + r12;
    let r10 = e10 + r11;
    lemma_enc_transforms_len(transforms);
    lemma_enc_u32s_len(floats);
    lemma_split(s, p, e9, r10);
    lemma_read_i32_enc(s, p, transforms.len() as i32);
    let p10 = p + 4;
    lemma_split(s, p10, e10, r11);
    lemma_read_transforms_enc(s, p10, transforms);
    let p11 = p10 + e10.len() as int;
    lemma_split(s, p11, e11, r12);
    lemma_read_i32_enc(s, p11, floats.len() as i32);
    let p12 = p11 + 4;
    lemma_split(s, p12, e12, r13);
    lemma_read_u32s_enc(s, p12, floats);
}

#[verifier::rlimit(100)]
proof fn lemma_rt_quarter4(
    s: Seq<u8>,
    p: int,
    float_names: Seq<Seq<u8>>,
    n_animations: i32,
)
    requires
        0 <= p <= s.len(),
        strs_clean(float_names),
        strs_utf8(float_names),
        float_names.len() <= i32::MAX,
        s.subrange(p, s.len() as int) == enc_i32(float_names.len() as i32) + (enc_strs(
            float_names,
        ) + enc_i32(n_animations)),
    ensures
        ({
            let p14 = p + 4;
            let p15 = p14 + enc_strs(float_names).len() as int;
            &&& sp_read_i32(s, p) == Ok::<(i32, int), DumpError>((float_names.len() as i32, p14))
            &&& sp_read_many(s, p14, float_names.len() as int, rd_str()) == Ok::<
                (Seq<Seq<u8>>, int),
                DumpError,
            >((float_names, p15))
            &&& sp_read_i32(s, p15) == Ok::<(i32, int), DumpError>((n_animations, p15 + 4))
        }),
{
    assert(s.subrange(p, s.len() as int).len() == s.len() - p);
    let e13 = enc_i32(float_names.len() as i32);
    let e14 = enc_strs(float_names);
    let e15 = enc_i32(n_animations);
    let r15 = e15;
    let r14 = e14 + r15;
    lemma_split(s, p, e13, r14);
    lemma_read_i32_enc(s, p, float_names.len() as i32);
    let p14 = p + 4;
    lemma_split(s, p14, e14, r15);
    lemma_read_strs_enc(s, p14, float_names);
    let p15 = p14 + e14.len() as int;
    lemma_read_i32_enc(s, p15, n_animations);
}

#[verifier::rlimit(100)]
proof fn lemma_rt_assemble(
    s: Seq<u8>,
    header: Seq<u8>,
    version: u32,
    n_skeletons: i32,
    name: Seq<u8>,
    parents: Seq<i16>,
    transform_names: Seq<Seq<u8>>,
    transforms: Seq<Transform>,
    floats: Seq<u32>,
    float_names: Seq<Seq<u8>>,
    n_animations: i32,
    p2: int,
    p4: int,
    p5: int,
    p6: int,
    p7: int,
    p8: int,
    p9: int,
    p10: int,
    p11: int,
    p12: int,
    p13: int,
    p14: int,
    p15: int,
)
    requires
        n_skeletons != 0,
        parents.len() <= i32::MAX,
        transform_names.len() <= i32::MAX,
        transforms.len() <= i32::MAX,
        floats.len() <= i32::MAX,
        float_names.len() <= i32::MAX,
        sp_read_string(s, 0, 10) == Ok::<(Seq<u8>, int), DumpError>((header, p2)),
        sp_read_u32(s, p2) == Ok::<(u32, int), DumpError>((version, p2 + 4)),
        sp_read_i32(s, p2 + 4) == Ok::<(i32, int), DumpError>((n_skeletons, p4)),
        sp_read_string(s, p4, 0) == Ok::<(Seq<u8>, int), DumpError>((name, p5)),
        sp_read_i32(s, p5) == Ok::<(i32, int), DumpError>((parents.len() as i32, p6)),
        sp_read_many(s, p6, parents.len() as int, rd_i16()) == Ok::<(Seq<i16>, int), DumpError>(
            (parents, p7),
        ),
        sp_read_i32(s, p7) == Ok::<(i32, int), DumpError>((transform_names.len() as i32, p8)),
        sp_read_many(s, p8, transform_names.len() as int, rd_str()) == Ok::<(Seq<Seq<u8>>, int),
            DumpError>((transform_names, p9)),
        sp_read_i32(s, p9) == Ok::<(i32, int), DumpError>((transforms.len() as i32, p10)),
        sp_read_many(s, p10, transforms.len() as int, rd_transform()) == Ok::<
            (Seq<Transform>, int),
            DumpError,
        >((transforms, p11)),
        sp_read_i32(s, p11) == Ok::<(i32, int), DumpError>((floats.len() as i32, p12)),
        sp_read_many(s, p12, floats.len() as int, rd_u32()) == Ok::<(Seq<u32>, int), DumpError>(
            (floats, p13),
        ),
        sp_read_i32(s, p13) == Ok::<(i32, int), DumpError>((float_names.len() as i32, p14)),
        sp_read_many(s, p14, float_names.len() as int, rd_str()) == Ok::<(Seq<Seq<u8>>, int),
            DumpError>((float_names, p15)),
        sp_read_i32(s, p15) == Ok::<(i32, int), DumpError>((n_animations, p15 + 4)),
    ensures
        sp_skeleton_at(s, 0) == Ok::<(SkeletonV, int), DumpError>(
            (
                SkeletonV {
                    name,
                    n_transforms: transforms.len() as i32,
                    parents,
                    transform_names,
                    transforms,
                    n_floats: float_names.len() as i32,
                    float_names,
                    floats,
                },
                p15 + 4,
            ),
        ),
{
}

#[verifier::rlimit(100)]
proof fn lemma_rt_front(
    s: Seq<u8>,
    header: Seq<u8>,
    version: u32,
    n_skeletons: i32,
    name: Seq<u8>,
    parents: Seq<i16>,
    transform_names: Seq<Seq<u8>>,
    rest9: Seq<u8>,
)
    requires
        str_clean(header, 10),
        utf8_valid(header),
        str_clean(name, 0),
        utf8_valid(name),
        strs_clean(transform_names),
        strs_utf8(transform_names),
        parents.len() <= i32::MAX,
        transform_names.len() <= i32::MAX,
        s == enc_header(header) + (enc_u32(version) + (enc_i32(n_skeletons) + (enc_str(name) + (
        enc_i32(parents.len() as i32) + (enc_i16s(parents) + (enc_i32(
            transform_names.len() as i32,
        ) + (enc_strs(transform_names) + rest9))))))),
    ensures
        ({
            let p2 = header.len() as int + 1;
            let p4 = p2 + 8;
            let p5 = p4 + name.len() as int + 1;
            let p6 = p5 + 4;
            let p7 = p6 + 2 * parents.len() as int;
            let p8 = p7 + 4;
            let p9 = p8 + enc_strs(transform_names).len() as int;
            &&& sp_read_string(s, 0, 10) == Ok::<(Seq<u8>, int), DumpError>((header, p2))
            &&& sp_read_u32(s, p2) == Ok::<(u32, int), DumpError>((version, p2 + 4))
            &&& sp_read_i32(s, p2 + 4) == Ok::<(i32, int), DumpError>((n_skeletons, p4))
            &&& sp_read_string(s, p4, 0) == Ok::<(Seq<u8>, int), DumpError>((name, p5))
            &&& sp_read_i32(s, p5) == Ok::<(i32, int), DumpError>((parents.len() as i32, p6))
            &&& sp_read_many(s, p6, parents.len() as int, rd_i16()) == Ok::<(Seq<i16>, int),
                DumpError>((parents, p7))
            &&& sp_read_i32(s, p7) == Ok::<(i32, int), DumpError>(
                (transform_names.len() as i32, p8),
            )
            &&& sp_read_many(s, p8, transform_names.len() as int, rd_str()) == Ok::<
                (Seq<Seq<u8>>, int),
                DumpError,
            >((transform_names, p9))
            &&& s.subrange(p9, s.len() as int) == rest9
        }),
{
    let rest5 = enc_i32(parents.len() as i32) + (enc_i16s(parents) + (enc_i32(
        transform_names.len() as i32,
    ) + (enc_strs(transform_names) + rest9)));
    lemma_enc_i16s_len(parents);
    assert(s.len() == header.len() + 1 + 8 + name.len() + 1 + rest5.len());
    lemma_rt_quarter1(s, header, version, n_skeletons, name, rest5);
    let p5 = header.len() as int + 9 + name.len() as int + 1;
    lemma_rt_quarter2(s, p5, parents, transform_names, rest9);
}

#[verifier::rlimit(100)]
proof fn lemma_rt_back(
    s: Seq<u8>,
    p: int,
    transforms: Seq<Transform>,
    floats: Seq<u32>,
    float_names: Seq<Seq<u8>>,
    n_animations: i32,
)
    requires
        0 <= p <= s.len(),
        strs_clean(float_names),
        strs_utf8(float_names),
        transforms.len() <= i32::MAX,
        floats.len() <= i32::MAX,
        float_names.len() <= i32::MAX,
        s.subrange(p, s.len() as int) == enc_i32(transforms.len() as i32) + (enc_transforms(
            transforms,
        ) + (enc_i32(floats.len() as i32) + (enc_u32s(floats) + (enc_i32(float_names.len() as i32)
            + (enc_strs(float_names) + enc_i32(n_animations)))))),
    ensures
        ({
            let p10 = p + 4;
            let p11 = p10 + 48 * transforms.len() as int;
            let p12 = p11 + 4;
            let p13 = p12 + 4 * floats.len() as int;
            let p14 = p13 + 4;
            let p15 = p14 + enc_strs(float_names).len() as int;
            &&& sp_read_i32(s, p) == Ok::<(i32, int), DumpError>((transforms.len() as i32, p10))
            &&& sp_read_many(s, p10, transforms.len() as int, rd_transform()) == Ok::<
                (Seq<Transform>, int),
                DumpError,
            >((transforms, p11))
            &&& sp_read_i32(s, p11) == Ok::<(i32, int), DumpError>((floats.len() as i32, p12))
            &&& sp_read_many(s, p12, floats.len() as int, rd_u32()) == Ok::<(Seq<u32>, int),
                DumpError>((floats, p13))
            &&& sp_read_i32(s, p13) == Ok::<(i32, int), DumpError>(
                (float_names.len() as i32, p14),
            )
            &&& sp_read_many(s, p14, float_names.len() as int, rd_str()) == Ok::<
                (Seq<Seq<u8>>, int),
                DumpError,
            >((float_names, p15))
            &&& sp_read_i32(s, p15) == Ok::<(i32, int), DumpError>((n_animations, p15 + 4))
        }),
{
    let rest13 = enc_i32(float_names.len() as i32) + (enc_strs(float_names) + enc_i32(
        n_animations,
    ));
    lemma_enc_transforms_len(transforms);
    lemma_enc_u32s_len(floats);
    assert(s.subrange(p, s.len() as int).len() == s.len() - p);
    assert(s.len() - p == 8 + 48 * transforms.len() + 4 * floats.len() + rest13.len());
    lemma_rt_quarter3(s, p, transforms, floats, rest13);
    let p13 = p + 8 + 48 * transforms.len() as int + 4 * floats.len() as int;
    lemma_rt_quarter4(s, p13, float_names, n_animations);
}

#[verifier::rlimit(100)]
#[verifier::spinoff_prover]
proof fn lemma_rt_chain(
    s: Seq<u8>,
    header: Seq<u8>,
    version: u32,
    n_skeletons: i32,
    name: Seq<u8>,
    parents: Seq<i16>,
    transform_names: Seq<Seq<u8>>,
    transforms: Seq<Transform>,
    floats: Seq<u32>,
    float_names: Seq<Seq<u8>>,
    n_animations: i32,
)
    requires
        str_clean(header, 10),
        utf8_valid(header),
        n_skeletons != 0,
        str_clean(name, 0),
        utf8_valid(name),
        strs_clean(transform_names),
        strs_utf8(transform_names),
        strs_clean(float_names),
        strs_utf8(float_names),
        parents.len() <= i32::MAX,
        transform_names.len() <= i32::MAX,
        transforms.len() <= i32::MAX,
        floats.len() <= i32::MAX,
        float_names.len() <= i32::MAX,
        s == enc_skeleton(
            header,
            version,
            n_skeletons,
            name,
            parents,
            transform_names,
            transforms,
            floats,
            float_names,
            n_animations,
        ),
    ensures
        sp_skeleton_at(s, 0) matches Ok(vp) && vp.0 == (SkeletonV {
            name,
            n_transforms: transforms.len() as i32,
            parents,
            transform_names,
            transforms,
            n_floats: float_names.len() as i32,
            float_names,
            floats,
        }),
{
    let rest9 = enc_i32(transforms.len() as i32) + (enc_transforms(transforms) + (enc_i32(
        floats.len() as i32,
    ) + (enc_u32s(floats) + (enc_i32(float_names.len() as i32) + (enc_strs(float_names) + enc_i32(
        n_animations,
    ))))));
    lemma_enc_i16s_len(parents);
    assert(s.len() == header.len() + 18 + name.len() + 2 * parents.len() + enc_strs(
        transform_names,
    ).len() + rest9.len());
    lemma_rt_front(s, header, version, n_skeletons, name, parents, transform_names, rest9);
    let p2 = header.len() as int + 1;
    let p5 = p2 + 8 + name.len() as int + 1;
    let p9 = p5 + 8 + 2 * parents.len() as int + enc_strs(transform_names).len() as int;
    lemma_rt_back(s, p9, transforms, floats, float_names, n_animations);
    let p13 = p9 + 8 + 48 * transforms.len() as int + 4 * floats.len() as int;
    let p15 = p13 + 4 + enc_strs(float_names).len() as int;
    lemma_rt_assemble(
        s,
        header,
        version,
        n_skeletons,
        name,
        parents,
        transform_names,
        transforms,
        floats,
        float_names,
        n_animations,
        p2,
        p2 + 8,
        p5,
        p5 + 4,
        p9 - 4 - enc_strs(transform_names).len() as int,
        p9 - enc_strs(transform_names).len() as int,
        p9,
        p9 + 4,
        p13 - 4 - 4 * floats.len() as int,
        p13 - 4 * floats.len() as int,
        p13,
        p13 + 4,
        p15,
    );
}

#[verifier::rlimit(100)]
/// Round trip: a skeleton dump assembled by the grammar — with any header
/// text, version word, non-zero skeleton count and trailing animation count —
/// decodes to exactly the records it was assembled from, with the bone count
/// taken from the transform array and the float count from the
/// float-channel-name array, as the decoder's last-read counts. The strings
/// must carry no terminator byte, and the conclusion holds whenever they are
/// valid UTF-8 (always the case for ASCII names).
pub proof fn lemma_skeleton_round_trip(
    header: Seq<u8>,
    version: u32,
    n_skeletons: i32,
    name: Seq<u8>,
    parents: Seq<i16>,
    transform_names: Seq<Seq<u8>>,
    transforms: Seq<Transform>,
    floats: Seq<u32>,
    float_names: Seq<Seq<u8>>,
    n_animations: i32,
)
    requires
        str_clean(header, 10),
        n_skeletons != 0,
        str_clean(name, 0),
        strs_clean(transform_names),
        strs_clean(float_names),
        parents.len() <= i32::MAX,
        transform_names.len() <= i32::MAX,
        transforms.len() <= i32::MAX,
        floats.len() <= i32::MAX,
        float_names.len() <= i32::MAX,
    ensures
        utf8_valid(header) && utf8_valid(name) && strs_utf8(transform_names) && strs_utf8(
            float_names,
        ) ==> sp_decode_skeleton(
            enc_skeleton(
                header,
                version,
                n_skeletons,
                name,
                parents,
                transform_names,
                transforms,
                floats,
                float_names,
                n_animations,
            ),
        ) == Ok::<SkeletonV, DumpError>(
            SkeletonV {
                name,
                n_transforms: transforms.len() as i32,
                parents,
                transform_names,
                transforms,
                n_floats: float_names.len() as i32,
                float_names,
                floats,
            },
        ),
{
    if utf8_valid(header) && utf8_valid(name) && strs_utf8(transform_names) && strs_utf8(
        float_names,
    ) {
        lemma_rt_chain(
            enc_skeleton(
                header,
                version,
                n_skeletons,
                name,
                parents,
                transform_names,
                transforms,
                floats,
                float_names,
                n_animations,
            ),
            header,
            version,
            n_skeletons,
            name,
            parents,
            transform_names,
            transforms,
            floats,
            float_names,
            n_animations,
        );
    }
}


/// A pose on the wire: the frame time, the transforms, the float values.
pub open spec fn enc_pose(pv: PoseV) -> Seq<u8> {
    enc_u32(pv.time) + (enc_transforms(pv.transforms) + enc_u32s(pv.floats))
}

/// A pose array on the wire.
pub open spec fn enc_poses(l: Seq<PoseV>) -> Seq<u8>
    decreases l.len(),
{
    if l.len() == 0 {
        Seq::empty()
    } else {
        enc_pose(l[0]) + enc_poses(l.drop_first())
    }
}

/// A whole animation dump assembled by the animation wire grammar: header
/// line, the expected version, a zero embedded-skeleton count, the animation
/// count, frame count, duration, transform and float counts, then the poses.
pub open spec fn enc_animation(
    header: Seq<u8>,
    n_animations: i32,
    duration: u32,
    nt: i32,
    nf: i32,
    poses: Seq<PoseV>,
) -> Seq<u8> {
    enc_header(header) + (enc_u32(ANIMATION_VERSION) + (enc_i32(0) + (enc_i32(n_animations) + (
    enc_i32(poses.len() as i32) + (enc_u32(duration) + (enc_i32(nt) + (enc_i32(nf) + enc_poses(
        poses,
    ))))))))
}

/// Every pose of the array is index-aligned with the declared counts.
pub open spec fn poses_aligned(l: Seq<PoseV>, nt: i32, nf: i32) -> bool {
    forall|j: int|
        0 <= j < l.len() ==> (#[trigger] l[j]).transforms.len() == nt as int && l[j].floats.len()
            == nf as int
}

proof fn lemma_read_pose_enc(s: Seq<u8>, p: int, pv: PoseV, nt: i32, nf: i32)
    requires
        0 <= p,
        0 <= nt,
        0 <= nf,
        pv.transforms.len() == nt as int,
        pv.floats.len() == nf as int,
        p + enc_pose(pv).len() <= s.len(),
        s.subrange(p, p + enc_pose(pv).len()) == enc_pose(pv),
    ensures
        sp_read_pose(s, p, nt, nf) == Ok::<(PoseV, int), DumpError>((pv, p + enc_pose(pv).len())),
{
    lemma_enc_transforms_len(pv.transforms);
    lemma_enc_u32s_len(pv.floats);
    lemma_split(s, p, enc_u32(pv.time), enc_transforms(pv.transforms) + enc_u32s(pv.floats));
    lemma_read_u32_enc(s, p, pv.time);
    lemma_split(s, p + 4, enc_transforms(pv.transforms), enc_u32s(pv.floats));
    lemma_read_transforms_enc(s, p + 4, pv.transforms);
    lemma_read_u32s_enc(s, p + 4 + 48 * pv.transforms.len() as int, pv.floats);
}

proof fn lemma_read_poses_enc(s: Seq<u8>, p: int, l: Seq<PoseV>, nt: i32, nf: i32)
    requires
        0 <= p,
        0 <= nt,
        0 <= nf,
        poses_aligned(l, nt, nf),
        p + enc_poses(l).len() <= s.len(),
        s.subrange(p, p + enc_poses(l).len()) == enc_poses(l),
    ensures
        sp_read_many(s, p, l.len() as int, rd_pose(nt, nf)) == Ok::<(Seq<PoseV>, int), DumpError>(
            (l, p + enc_poses(l).len()),
        ),
    decreases l.len(),
{
    if l.len() == 0 {
        assert(l =~= Seq::<PoseV>::empty());
    } else {
        lemma_split(s, p, enc_pose(l[0]), enc_poses(l.drop_first()));
        lemma_read_pose_enc(s, p, l[0], nt, nf);
        assert(poses_aligned(l.drop_first(), nt, nf)) by {
            assert(forall|j: int|
                0 <= j < l.drop_first().len() ==> #[trigger] l.drop_first()[j] == l[j + 1]);
        }
        lemma_read_poses_enc(s, p + enc_pose(l[0]).len() as int, l.drop_first(), nt, nf);
        assert(seq![l[0]] + l.drop_first() =~= l);
    }
}

#[verifier::rlimit(100)]
proof fn lemma_anim_front(
    s: Seq<u8>,
    header: Seq<u8>,
    n_animations: i32,
    n_frames: i32,
    duration: u32,
    nt: i32,
    nf: i32,
    rest: Seq<u8>,
)
    requires
        str_clean(header, 10),
        utf8_valid(header),
        s == enc_header(header) + (enc_u32(ANIMATION_VERSION) + (enc_i32(0) + (enc_i32(
            n_animations,
        ) + (enc_i32(n_frames) + (enc_u32(duration) + (enc_i32(nt) + (enc_i32(nf) + rest))))))),
    ensures
        ({
            let p2 = header.len() as int + 1;
            &&& sp_read_string(s, 0, 10) == Ok::<(Seq<u8>, int), DumpError>((header, p2))
            &&& sp_read_u32(s, p2) == Ok::<(u32, int), DumpError>((ANIMATION_VERSION, p2 + 4))
            &&& sp_read_i32(s, p2 + 4) == Ok::<(i32, int), DumpError>((0i32, p2 + 8))
            &&& sp_read_i32(s, p2 + 8) == Ok::<(i32, int), DumpError>((n_animations, p2 + 12))
            &&& sp_read_i32(s, p2 + 12) == Ok::<(i32, int), DumpError>((n_frames, p2 + 16))
            &&& sp_read_u32(s, p2 + 16) == Ok::<(u32, int), DumpError>((duration, p2 + 20))
            &&& sp_read_i32(s, p2 + 20) == Ok::<(i32, int), DumpError>((nt, p2 + 24))
            &&& sp_read_i32(s, p2 + 24) == Ok::<(i32, int), DumpError>((nf, p2 + 28))
            &&& s.subrange(p2 + 28, s.len() as int) == rest
        }),
{
    let e1 = enc_header(header);
    let e2 = enc_u32(ANIMATION_VERSION);
    let e3 = enc_i32(0);
    let e4 = enc_i32(n_animations);
    let e5 = enc_i32(n_frames);
    let e6 = enc_u32(duration);
    let e7 = enc_i32(nt);
    let e8 = enc_i32(nf);
    let r9 = rest;
    let r8 = e8 + r9;
    let r7 = e7 + r8;
    let r6 = e6 + r7;
    let r5 = e5 + r6;
    let r4 = e4 + r5;
    let r3 = e3 + r4;
    let r2 = e2 + r3;
    assert(s.subrange(0, s.len() as int) =~= s);
    lemma_split(s, 0, e1, r2);
    lemma_read_string_enc(s, 0, header, 10);
    let p2 = e1.len() as int;
    lemma_split(s, p2, e2, r3);
    lemma_read_u32_enc(s, p2, ANIMATION_VERSION);
    lemma_split(s, p2 + 4, e3, r4);
    lemma_read_i32_enc(s, p2 + 4, 0);
    lemma_split(s, p2 + 8, e4, r5);
    lemma_read_i32_enc(s, p2 + 8, n_animations);
    lemma_split(s, p2 + 12, e5, r6);
    lemma_read_i32_enc(s, p2 + 12, n_frames);
    lemma_split(s, p2 + 16, e6, r7);
    lemma_read_u32_enc(s, p2 + 16, duration);
    lemma_split(s, p2 + 20, e7, r8);
    lemma_read_i32_enc(s, p2 + 20, nt);
    lemma_split(s, p2 + 24, e8, r9);
    lemma_read_i32_enc(s, p2 + 24, nf);
}

#[verifier::rlimit(100)]
proof fn lemma_anim_assemble(
    s: Seq<u8>,
    header: Seq<u8>,
    n_animations: i32,
    n_frames: i32,
    duration: u32,
    nt: i32,
    nf: i32,
    poses: Seq<PoseV>,
    p2: int,
    p9: int,
    p10: int,
)
    requires
        n_animations != 0,
        n_frames as int == poses.len(),
        sp_read_string(s, 0, 10) == Ok::<(Seq<u8>, int), DumpError>((header, p2)),
        sp_read_u32(s, p2) == Ok::<(u32, int), DumpError>((ANIMATION_VERSION, p2 + 4)),
        sp_read_i32(s, p2 + 4) == Ok::<(i32, int), DumpError>((0i32, p2 + 8)),
        sp_read_i32(s, p2 + 8) == Ok::<(i32, int), DumpError>((n_animations, p2 + 12)),
        sp_read_i32(s, p2 + 12) == Ok::<(i32, int), DumpError>((n_frames, p2 + 16)),
        sp_read_u32(s, p2 + 16) == Ok::<(u32, int), DumpError>((duration, p2 + 20)),
        sp_read_i32(s, p2 + 20) == Ok::<(i32, int), DumpError>((nt, p2 + 24)),
        sp_read_i32(s, p2 + 24) == Ok::<(i32, int), DumpError>((nf, p2 + 28)),
        p9 == p2 + 28,
        sp_read_many(s, p9, poses.len() as int, rd_pose(nt, nf)) == Ok::<(Seq<PoseV>, int),
            DumpError>((poses, p10)),
    ensures
        sp_animation_at(s, 0) == Ok::<(AnimationV, int), DumpError>(
            (
                AnimationV {
                    n_frames,
                    duration,
                    n_transforms: nt,
                    n_floats: nf,
                    poses,
                },
                p10,
            ),
        ),
{
}

#[verifier::rlimit(100)]
#[verifier::spinoff_prover]
proof fn lemma_anim_chain(
    s: Seq<u8>,
    header: Seq<u8>,
    n_animations: i32,
    duration: u32,
    nt: i32,
    nf: i32,
    poses: Seq<PoseV>,
)
    requires
        str_clean(header, 10),
        utf8_valid(header),
        n_animations != 0,
        0 <= nt,
        0 <= nf,
        poses.len() <= i32::MAX,
        poses_aligned(poses, nt, nf),
        s == enc_animation(header, n_animations, duration, nt, nf, poses),
    ensures
        sp_animation_at(s, 0) matches Ok(vp) && vp.0 == (AnimationV {
            n_frames: poses.len() as i32,
            duration,
            n_transforms: nt,
            n_floats: nf,
            poses,
        }),
{
    let eposes = enc_poses(poses);
    lemma_anim_front(s, header, n_animations, poses.len() as i32, duration, nt, nf, eposes);
    let p2 = header.len() as int + 1;
    let p9 = p2 + 28;
    assert(s.len() == header.len() + 29 + eposes.len());
    assert(s.subrange(p9, s.len() as int).len() == s.len() - p9);
    assert(s.subrange(p9, p9 + eposes.len() as int) == eposes);
    lemma_read_poses_enc(s, p9, poses, nt, nf);
    lemma_anim_assemble(
        s,
        header,
        n_animations,
        poses.len() as i32,
        duration,
        nt,
        nf,
        poses,
        p2,
        p9,
        p9 + enc_poses(poses).len() as int,
    );
}

/// Round trip: an animation dump assembled by the grammar — with any header
/// text, a non-zero animation count and counts matching the pose arrays —
/// decodes to exactly the records it was assembled from. The header must
/// carry no newline byte, and the conclusion holds whenever it is valid
/// UTF-8 (always the case for ASCII text).
#[verifier::rlimit(100)]
#[verifier::spinoff_prover]
pub proof fn lemma_animation_round_trip(
    header: Seq<u8>,
    n_animations: i32,
    duration: u32,
    nt: i32,
    nf: i32,
    poses: Seq<PoseV>,
)
    requires
        str_clean(header, 10),
        n_animations != 0,
        0 <= nt,
        0 <= nf,
        poses.len() <= i32::MAX,
        poses_aligned(poses, nt, nf),
    ensures
        utf8_valid(header) ==> sp_decode_animation(
            enc_animation(header, n_animations, duration, nt, nf, poses),
        ) == Ok::<AnimationV, DumpError>(
            AnimationV {
                n_frames: poses.len() as i32,
                duration,
                n_transforms: nt,
                n_floats: nf,
                poses,
            },
        ),
{
    if utf8_valid(header) {
        lemma_anim_chain(
            enc_animation(header, n_animations, duration, nt, nf, poses),
            header,
            n_animations,
            duration,
            nt,
            nf,
            poses,
        );
    }
}

} // verus!
