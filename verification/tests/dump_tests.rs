use hkdump_csv::csv::{csv_join, encode_animation_csv, encode_skeleton_csv, u32_to_decimal};
use hkdump_csv::decode::{decode_animation, decode_skeleton, read_skeleton};
use hkdump_csv::error::DumpError;
use hkdump_csv::model::{Animation, Pose, Skeleton, Transform};
use hkdump_csv::reader::{read_header, read_i16, read_i32, read_string, read_u32, Reader};
use hkdump_csv::xform::{mul_transform, world_transform};

fn bits(x: f32) -> u32 {
    x.to_bits()
}

fn put_u32(v: &mut Vec<u8>, x: u32) {
    v.extend_from_slice(&x.to_le_bytes());
}

fn put_i32(v: &mut Vec<u8>, x: i32) {
    v.extend_from_slice(&x.to_le_bytes());
}

fn put_i16(v: &mut Vec<u8>, x: i16) {
    v.extend_from_slice(&x.to_le_bytes());
}

fn put_f32(v: &mut Vec<u8>, x: f32) {
    v.extend_from_slice(&x.to_bits().to_le_bytes());
}

fn put_str(v: &mut Vec<u8>, s: &str) {
    v.extend_from_slice(s.as_bytes());
    v.push(0);
}

fn put_transform(v: &mut Vec<u8>, loc: (f32, f32, f32), rot: (f32, f32, f32, f32), scale: f32) {
    put_f32(v, loc.0);
    put_f32(v, loc.1);
    put_f32(v, loc.2);
    put_f32(v, 9.25);
    put_f32(v, rot.0);
    put_f32(v, rot.1);
    put_f32(v, rot.2);
    put_f32(v, rot.3);
    put_f32(v, 7.5);
    put_f32(v, 7.5);
    put_f32(v, scale);
    put_f32(v, 7.5);
}

fn tf(loc: (f32, f32, f32), rot: (f32, f32, f32, f32), scale: f32) -> Transform {
    Transform {
        location: (bits(loc.0), bits(loc.1), bits(loc.2)),
        rotation: (bits(rot.0), bits(rot.1), bits(rot.2), bits(rot.3)),
        scale: bits(scale),
    }
}

const IDENT: (f32, f32, f32, f32) = (0.0, 0.0, 0.0, 1.0);

fn skeleton_buffer() -> Vec<u8> {
    let mut v = Vec::new();
    v.extend_from_slice(b"header line");
    v.push(10);
    put_u32(&mut v, 0x1000200);
    put_i32(&mut v, 1);
    put_str(&mut v, "skel");
    put_i32(&mut v, 2);
    put_i16(&mut v, -1);
    put_i16(&mut v, 0);
    put_i32(&mut v, 2);
    put_str(&mut v, "root");
    put_str(&mut v, "child");
    put_i32(&mut v, 2);
    put_transform(&mut v, (1.0, 0.0, 0.0), IDENT, 2.0);
    put_transform(&mut v, (0.0, 1.0, 0.0), IDENT, 1.0);
    put_i32(&mut v, 1);
    put_f32(&mut v, 0.25);
    put_i32(&mut v, 1);
    put_str(&mut v, "blink");
    put_i32(&mut v, 0);
    v
}

fn two_bone_skeleton() -> Skeleton {
    Skeleton {
        name: b"skel".to_vec(),
        n_transforms: 2,
        parents: vec![-1, 0],
        transform_names: vec![b"root".to_vec(), b"child".to_vec()],
        transforms: vec![tf((1.0, 0.0, 0.0), IDENT, 2.0), tf((0.0, 1.0, 0.0), IDENT, 1.0)],
        n_floats: 0,
        float_names: vec![],
        floats: vec![],
    }
}

#[test]
fn skeleton_buffer_decodes_to_constructed_fields() {
    let sk = decode_skeleton(skeleton_buffer()).unwrap();
    assert_eq!(sk.name, b"skel".to_vec());
    assert_eq!(sk.n_transforms, 2);
    assert_eq!(sk.parents, vec![-1, 0]);
    assert_eq!(sk.transform_names, vec![b"root".to_vec(), b"child".to_vec()]);
    assert_eq!(sk.transforms.len(), 2);
    assert_eq!(sk.transforms[0], tf((1.0, 0.0, 0.0), IDENT, 2.0));
    assert_eq!(sk.transforms[1], tf((0.0, 1.0, 0.0), IDENT, 1.0));
    assert_eq!(sk.n_floats, 1);
    assert_eq!(sk.floats, vec![bits(0.25)]);
    assert_eq!(sk.float_names, vec![b"blink".to_vec()]);
    assert!(sk.well_formed());
}

#[test]
fn decoding_is_deterministic() {
    let a = decode_skeleton(skeleton_buffer()).unwrap();
    let b = decode_skeleton(skeleton_buffer()).unwrap();
    assert_eq!(a, b);
}

#[test]
fn truncating_any_byte_yields_truncation() {
    let buf = skeleton_buffer();
    for k in 0..buf.len() {
        let cut = buf[..k].to_vec();
        assert_eq!(decode_skeleton(cut), Err(DumpError::Truncation), "prefix {}", k);
    }
    assert!(decode_skeleton(buf).is_ok());
}

#[test]
fn zero_skeleton_count_is_format_violation() {
    let mut v = Vec::new();
    v.extend_from_slice(b"hdr");
    v.push(10);
    put_u32(&mut v, 0x1000200);
    put_i32(&mut v, 0);
    assert_eq!(decode_skeleton(v), Err(DumpError::FormatViolation));
}

#[test]
fn invalid_utf8_name_is_encoding_error() {
    let mut v = Vec::new();
    v.extend_from_slice(b"hdr");
    v.push(10);
    put_u32(&mut v, 0x1000200);
    put_i32(&mut v, 1);
    v.push(0xFF);
    v.push(0);
    assert_eq!(decode_skeleton(v), Err(DumpError::Encoding));
}

#[test]
fn root_bone_world_transform_is_its_local_transform() {
    let sk = two_bone_skeleton();
    let w = world_transform(&sk, 0).unwrap();
    assert_eq!(w, sk.transforms[0]);
}

#[test]
fn two_level_chain_composes_location_and_scale() {
    let sk = two_bone_skeleton();
    let w = world_transform(&sk, 1).unwrap();
    assert_eq!(f32::from_bits(w.location.0), 1.0);
    assert_eq!(f32::from_bits(w.location.1), 2.0);
    assert_eq!(f32::from_bits(w.location.2), 0.0);
    assert_eq!(f32::from_bits(w.scale), 2.0);
}

#[test]
fn parent_cycle_is_detected() {
    let mut sk = two_bone_skeleton();
    sk.parents = vec![1, 0];
    assert_eq!(world_transform(&sk, 0), Err(DumpError::CycleDetected));
    assert_eq!(world_transform(&sk, 1), Err(DumpError::CycleDetected));
    assert_eq!(encode_skeleton_csv(&sk), Err(DumpError::CycleDetected));
}

#[test]
fn bind_pose_rows_match_bone_count_and_content() {
    let sk = two_bone_skeleton();
    let rows = encode_skeleton_csv(&sk).unwrap();
    assert_eq!(rows.len() as i32, sk.n_transforms);
    assert_eq!(rows[0], b"root,NULL,1,0,0,1,0,0,0,2".to_vec());
    assert_eq!(rows[1], b"child,root,1,2,0,1,0,0,0,2".to_vec());
}

#[test]
fn mul_transform_matches_direct_float_composition() {
    let a = tf((1.0, 0.0, 0.0), IDENT, 2.0);
    let b = tf((0.0, 1.0, 0.0), (0.5, 0.5, 0.5, 0.5), 3.0);
    let r = mul_transform(a, b);
    let qa = glam::Quat::from_xyzw(0.0, 0.0, 0.0, 1.0);
    let loc = glam::Vec3::new(1.0, 0.0, 0.0) + qa * glam::Vec3::new(0.0, 1.0, 0.0) * 2.0f32;
    let rot = qa * glam::Quat::from_xyzw(0.5, 0.5, 0.5, 0.5);
    assert_eq!(f32::from_bits(r.location.0), loc.x);
    assert_eq!(f32::from_bits(r.location.1), loc.y);
    assert_eq!(f32::from_bits(r.location.2), loc.z);
    assert_eq!(f32::from_bits(r.rotation.0), rot.x);
    assert_eq!(f32::from_bits(r.rotation.3), rot.w);
    assert_eq!(f32::from_bits(r.scale), 6.0);
}

fn animation_buffer(n_frames: i32, nt: i32) -> Vec<u8> {
    let mut v = Vec::new();
    v.extend_from_slice(b"anim header");
    v.push(10);
    put_u32(&mut v, 0x1000200);
    put_i32(&mut v, 0);
    put_i32(&mut v, 1);
    put_i32(&mut v, n_frames);
    put_f32(&mut v, 1.5);
    put_i32(&mut v, nt);
    put_i32(&mut v, 0);
    for frame in 0..n_frames {
        put_f32(&mut v, frame as f32 * 0.5);
        for b in 0..nt {
            put_transform(&mut v, (b as f32, frame as f32, 0.0), IDENT, 1.0);
        }
    }
    v
}

#[test]
fn animation_buffer_decodes_to_constructed_fields() {
    let a = decode_animation(animation_buffer(2, 1)).unwrap();
    assert_eq!(a.n_frames, 2);
    assert_eq!(a.duration, bits(1.5));
    assert_eq!(a.n_transforms, 1);
    assert_eq!(a.n_floats, 0);
    assert_eq!(a.poses.len(), 2);
    assert_eq!(a.poses[0].time, bits(0.0));
    assert_eq!(a.poses[1].time, bits(0.5));
    assert_eq!(a.poses[1].transforms[0], tf((0.0, 1.0, 0.0), IDENT, 1.0));
    assert!(a.well_formed());
}

#[test]
fn truncating_animation_buffer_yields_truncation() {
    let buf = animation_buffer(1, 1);
    for k in 0..buf.len() {
        let cut = buf[..k].to_vec();
        assert_eq!(decode_animation(cut), Err(DumpError::Truncation), "prefix {}", k);
    }
    assert!(decode_animation(buf).is_ok());
}

#[test]
fn wrong_animation_version_is_format_violation() {
    let mut v = Vec::new();
    v.extend_from_slice(b"hdr");
    v.push(10);
    put_u32(&mut v, 0x1000300);
    assert_eq!(decode_animation(v), Err(DumpError::FormatViolation));
}

#[test]
fn embedded_skeleton_in_animation_is_format_violation() {
    let mut v = Vec::new();
    v.extend_from_slice(b"hdr");
    v.push(10);
    put_u32(&mut v, 0x1000200);
    put_i32(&mut v, 1);
    assert_eq!(decode_animation(v), Err(DumpError::FormatViolation));
}

#[test]
fn zero_animation_count_is_format_violation() {
    let mut v = Vec::new();
    v.extend_from_slice(b"hdr");
    v.push(10);
    put_u32(&mut v, 0x1000200);
    put_i32(&mut v, 0);
    put_i32(&mut v, 0);
    assert_eq!(decode_animation(v), Err(DumpError::FormatViolation));
}

#[test]
fn animated_rows_count_frames_times_overwritten_bones() {
    let sk = two_bone_skeleton();
    let anim = decode_animation(animation_buffer(3, 1)).unwrap();
    let rows = encode_animation_csv(&sk, &anim).unwrap();
    assert_eq!(rows.len(), 3 * 1);
    let anim2 = decode_animation(animation_buffer(2, 5)).unwrap();
    let rows2 = encode_animation_csv(&sk, &anim2).unwrap();
    assert_eq!(rows2.len(), 2 * 2);
}

#[test]
fn animated_rows_use_pose_transforms_and_bind_tail() {
    let sk = two_bone_skeleton();
    let mut anim = Animation {
        n_frames: 1,
        duration: bits(1.0),
        n_transforms: 1,
        n_floats: 0,
        poses: vec![Pose {
            time: bits(0.0),
            transforms: vec![tf((5.0, 0.0, 0.0), IDENT, 1.0)],
            floats: vec![],
        }],
    };
    let rows = encode_animation_csv(&sk, &anim).unwrap();
    assert_eq!(rows, vec![b"0,root,5,0,0,1,0,0,0,1".to_vec()]);
    anim.n_frames = 0;
    anim.poses.clear();
    assert_eq!(encode_animation_csv(&sk, &anim).unwrap(), Vec::<Vec<u8>>::new());
}

#[test]
fn csv_join_terminates_every_row_with_newline() {
    let rows = vec![b"a,b".to_vec(), b"c".to_vec()];
    assert_eq!(csv_join(&rows), b"a,b\nc\n".to_vec());
    assert_eq!(csv_join(&Vec::new()), Vec::<u8>::new());
}

#[test]
fn decimal_rendering_is_plain_base_ten() {
    assert_eq!(u32_to_decimal(0), b"0".to_vec());
    assert_eq!(u32_to_decimal(7), b"7".to_vec());
    assert_eq!(u32_to_decimal(12034), b"12034".to_vec());
    assert_eq!(u32_to_decimal(u32::MAX), b"4294967295".to_vec());
}

#[test]
fn reader_primitives_read_little_endian_and_terminators() {
    let mut v = Vec::new();
    put_i16(&mut v, -2);
    put_u32(&mut v, 0xDEAD_BEEF);
    put_i32(&mut v, -7);
    v.extend_from_slice(b"line one");
    v.push(10);
    put_str(&mut v, "field");
    let mut r = Reader::new(v);
    assert_eq!(read_i16(&mut r), Ok(-2));
    assert_eq!(read_u32(&mut r), Ok(0xDEAD_BEEF));
    assert_eq!(read_i32(&mut r), Ok(-7));
    assert_eq!(read_header(&mut r), Ok(b"line one".to_vec()));
    assert_eq!(read_string(&mut r), Ok(b"field".to_vec()));
    assert_eq!(read_i16(&mut r), Err(DumpError::Truncation));
}

#[test]
fn skeleton_reader_leaves_cursor_after_record() {
    let mut buf = skeleton_buffer();
    let extra = b"tail";
    buf.extend_from_slice(extra);
    let mut r = Reader::new(buf);
    let sk = read_skeleton(&mut r).unwrap();
    assert_eq!(sk.n_transforms, 2);
    let mut rest = Vec::new();
    while let Ok(b) = hkdump_csv::reader::read_i16(&mut r) {
        rest.extend_from_slice(&b.to_le_bytes());
    }
    assert_eq!(rest, b"tail".to_vec());
}

#[test]
fn well_formed_rejects_mismatched_counts() {
    let mut sk = two_bone_skeleton();
    assert!(sk.well_formed());
    sk.parents.push(0);
    assert!(!sk.well_formed());
    let mut sk2 = two_bone_skeleton();
    sk2.parents[1] = 2;
    assert!(!sk2.well_formed());
    let mut anim = Animation {
        n_frames: 1,
        duration: bits(0.0),
        n_transforms: 1,
        n_floats: 0,
        poses: vec![Pose { time: bits(0.0), transforms: vec![], floats: vec![] }],
    };
    assert!(!anim.well_formed());
    anim.poses[0].transforms.push(tf((0.0, 0.0, 0.0), IDENT, 1.0));
    assert!(anim.well_formed());
}

#[test]
fn float_fields_are_rendered_as_decimal_text() {
    let mut sk = two_bone_skeleton();
    sk.transforms[0] = tf((1.5, -0.25, 0.0), IDENT, 1.0);
    sk.n_transforms = 1;
    sk.parents = vec![-1];
    sk.transform_names = vec![b"root".to_vec()];
    sk.transforms.truncate(1);
    let rows = encode_skeleton_csv(&sk).unwrap();
    assert_eq!(rows[0], b"root,NULL,1.5,-0.25,0,1,0,0,0,1".to_vec());
}
