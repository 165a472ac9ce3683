use vstd::prelude::*;

use crate::decode::{
    rd_i16, rd_pose, rd_str, rd_transform, rd_u32, sp_animation_at, sp_read_many, sp_read_pose,
    sp_read_transform, sp_skeleton_at,
};
use crate::error::DumpError;
use crate::model::{AnimationV, PoseV, SkeletonV, Transform};
use crate::reader::{
    find_term, le32_at, sp_read_i16, sp_read_i32, sp_read_string, sp_read_u32,
};

verus! {

proof fn lemma_take_i16(s: Seq<u8>, k: int, p: int)
    requires
        0 <= p,
        0 <= k <= s.len(),
        sp_read_i16(s, p) is Ok,
    ensures
        p < sp_read_i16(s, p)->Ok_0.1,
        sp_read_i16(s, p)->Ok_0.1 <= k ==> sp_read_i16(s.take(k), p) == sp_read_i16(s, p),
        sp_read_i16(s, p)->Ok_0.1 > k ==> sp_read_i16(s.take(k), p) == Err::<(i16, int),
            DumpError>(DumpError::Truncation),
{
    if p + 2 <= k {
        assert(s.take(k)[p] == s[p] && s.take(k)[p + 1] == s[p + 1]);
    }
}

proof fn lemma_take_u32(s: Seq<u8>, k: int, p: int)
    requires
        0 <= p,
        0 <= k <= s.len(),
        sp_read_u32(s, p) is Ok,
    ensures
        p < sp_read_u32(s, p)->Ok_0.1,
        sp_read_u32(s, p)->Ok_0.1 <= k ==> sp_read_u32(s.take(k), p) == sp_read_u32(s, p),
        sp_read_u32(s, p)->Ok_0.1 > k ==> sp_read_u32(s.take(k), p) == Err::<(u32, int),
            DumpError>(DumpError::Truncation),
{
    if p + 4 <= k {
        assert(s.take(k)[p] == s[p] && s.take(k)[p + 1] == s[p + 1] && s.take(k)[p + 2] == s[p + 2]
            && s.take(k)[p + 3] == s[p + 3]);
        assert(le32_at(s.take(k), p) == le32_at(s, p));
    }
}

proof fn lemma_take_i32(s: Seq<u8>, k: int, p: int)
    requires
        0 <= p,
        0 <= k <= s.len(),
        sp_read_i32(s, p) is Ok,
    ensures
        p < sp_read_i32(s, p)->Ok_0.1,
        sp_read_i32(s, p)->Ok_0.1 <= k ==> sp_read_i32(s.take(k), p) == sp_read_i32(s, p),
        sp_read_i32(s, p)->Ok_0.1 > k ==> sp_read_i32(s.take(k), p) == Err::<(i32, int),
            DumpError>(DumpError::Truncation),
{
    if p + 4 <= k {
        assert(s.take(k)[p] == s[p] && s.take(k)[p + 1] == s[p + 1] && s.take(k)[p + 2] == s[p + 2]
            && s.take(k)[p + 3] == s[p + 3]);
        assert(le32_at(s.take(k), p) == le32_at(s, p));
    }
}

proof fn lemma_take_find_term(s: Seq<u8>, k: int, p: int, term: u8)
    requires
        0 <= p,
        0 <= k <= s.len(),
    ensures
        match find_term(s, p, term) {
            Some(e) => if e < k {
                find_term(s.take(k), p, term) == Some(e)
            } else {
                find_term(s.take(k), p, term) is None
            },
            None => find_term(s.take(k), p, term) is None,
        },
    decreases s.len() - p,
{
    if p >= k {
        assert(find_term(s.take(k), p, term) is None);
        if find_term(s, p, term) is Some {
            lemma_find_term_lower(s, p, term);
        }
    } else {
        assert(s.take(k)[p] == s[p]);
        if s[p] == term {
        } else {
            lemma_take_find_term(s, k, p + 1, term);
        }
    }
}

proof fn lemma_find_term_lower(s: Seq<u8>, p: int, term: u8)
    requires
        find_term(s, p, term) is Some,
    ensures
        find_term(s, p, term)->0 >= p,
    decreases s.len() - p,
{
    if 0 <= p < s.len() && s[p] != term {
        lemma_find_term_lower(s, p + 1, term);
    }
}

proof fn lemma_take_string(s: Seq<u8>, k: int, p: int, term: u8)
    requires
        0 <= p,
        0 <= k <= s.len(),
        sp_read_string(s, p, term) is Ok,
    ensures
        p < sp_read_string(s, p, term)->Ok_0.1,
        sp_read_string(s, p, term)->Ok_0.1 <= k ==> sp_read_string(s.take(k), p, term)
            == sp_read_string(s, p, term),
        sp_read_string(s, p, term)->Ok_0.1 > k ==> sp_read_string(s.take(k), p, term) == Err::<
            (Seq<u8>, int),
            DumpError,
        >(DumpError::Truncation),
{
    let e = find_term(s, p, term)->0;
    lemma_find_term_lower(s, p, term);
    lemma_take_find_term(s, k, p, term);
    if e + 1 <= k {
        assert(s.take(k).subrange(p, e) =~= s.subrange(p, e));
    }
}

proof fn lemma_take_transform(s: Seq<u8>, k: int, p: int)
    requires
        0 <= p,
        0 <= k <= s.len(),
        sp_read_transform(s, p) is Ok,
    ensures
        p < sp_read_transform(s, p)->Ok_0.1,
        sp_read_transform(s, p)->Ok_0.1 <= k ==> sp_read_transform(s.take(k), p)
            == sp_read_transform(s, p),
        sp_read_transform(s, p)->Ok_0.1 > k ==> sp_read_transform(s.take(k), p) == Err::<
            (Transform, int),
            DumpError,
        >(DumpError::Truncation),
{
    if p + 48 <= k {
        assert(forall|i: int| 0 <= i < 48 ==> s.take(k)[p + i] == #[trigger] s[p + i]);
        assert(le32_at(s.take(k), p) == le32_at(s, p));
        assert(le32_at(s.take(k), p + 4) == le32_at(s, p + 4));
        assert(le32_at(s.take(k), p + 8) == le32_at(s, p + 8));
        assert(le32_at(s.take(k), p + 16) == le32_at(s, p + 16));
        assert(le32_at(s.take(k), p + 20) == le32_at(s, p + 20));
        assert(le32_at(s.take(k), p + 24) == le32_at(s, p + 24));
        assert(le32_at(s.take(k), p + 28) == le32_at(s, p + 28));
        assert(le32_at(s.take(k), p + 40) == le32_at(s, p + 40));
    }
}

proof fn lemma_take_many_i16(s: Seq<u8>, k: int, p: int, n: int)
    requires
        0 <= p,
        0 <= k <= s.len(),
        sp_read_many(s, p, n, rd_i16()) is Ok,
    ensures
        p <= sp_read_many(s, p, n, rd_i16())->Ok_0.1,
        sp_read_many(s, p, n, rd_i16())->Ok_0.1 <= k || n <= 0 ==> sp_read_many(
            s.take(k),
            p,
            n,
            rd_i16(),
        ) == sp_read_many(s, p, n, rd_i16()),
        n > 0 && sp_read_many(s, p, n, rd_i16())->Ok_0.1 > k ==> sp_read_many(
            s.take(k),
            p,
            n,
            rd_i16(),
        ) == Err::<(Seq<i16>, int), DumpError>(DumpError::Truncation),
    decreases n,
{
    if n > 0 {
        let q1 = sp_read_i16(s, p)->Ok_0.1;
        lemma_take_i16(s, k, p);
        lemma_take_many_i16(s, k, q1, n - 1);
    }
}

proof fn lemma_take_many_u32(s: Seq<u8>, k: int, p: int, n: int)
    requires
        0 <= p,
        0 <= k <= s.len(),
        sp_read_many(s, p, n, rd_u32()) is Ok,
    ensures
        p <= sp_read_many(s, p, n, rd_u32())->Ok_0.1,
        sp_read_many(s, p, n, rd_u32())->Ok_0.1 <= k || n <= 0 ==> sp_read_many(
            s.take(k),
            p,
            n,
            rd_u32(),
        ) == sp_read_many(s, p, n, rd_u32()),
        n > 0 && sp_read_many(s, p, n, rd_u32())->Ok_0.1 > k ==> sp_read_many(
            s.take(k),
            p,
            n,
            rd_u32(),
        ) == Err::<(Seq<u32>, int), DumpError>(DumpError::Truncation),
    decreases n,
{
    if n > 0 {
        let q1 = sp_read_u32(s, p)->Ok_0.1;
        lemma_take_u32(s, k, p);
        lemma_take_many_u32(s, k, q1, n - 1);
    }
}

proof fn lemma_take_many_str(s: Seq<u8>, k: int, p: int, n: int)
    requires
        0 <= p,
        0 <= k <= s.len(),
        sp_read_many(s, p, n, rd_str()) is Ok,
    ensures
        p <= sp_read_many(s, p, n, rd_str())->Ok_0.1,
        sp_read_many(s, p, n, rd_str())->Ok_0.1 <= k || n <= 0 ==> sp_read_many(
            s.take(k),
            p,
            n,
            rd_str(),
        ) == sp_read_many(s, p, n, rd_str()),
        n > 0 && sp_read_many(s, p, n, rd_str())->Ok_0.1 > k ==> sp_read_many(
            s.take(k),
            p,
            n,
            rd_str(),
        ) == Err::<(Seq<Seq<u8>>, int), DumpError>(DumpError::Truncation),
    decreases n,
{
    if n > 0 {
        let q1 = sp_read_string(s, p, 0)->Ok_0.1;
        lemma_take_string(s, k, p, 0);
        lemma_take_many_str(s, k, q1, n - 1);
    }
}

proof fn lemma_take_many_transform(s: Seq<u8>, k: int, p: int, n: int)
    requires
        0 <= p,
        0 <= k <= s.len(),
        sp_read_many(s, p, n, rd_transform()) is Ok,
    ensures
        p <= sp_read_many(s, p, n, rd_transform())->Ok_0.1,
        sp_read_many(s, p, n, rd_transform())->Ok_0.1 <= k || n <= 0 ==> sp_read_many(
            s.take(k),
            p,
            n,
            rd_transform(),
        ) == sp_read_many(s, p, n, rd_transform()),
        n > 0 && sp_read_many(s, p, n, rd_transform())->Ok_0.1 > k ==> sp_read_many(
            s.take(k),
            p,
            n,
            rd_transform(),
        ) == Err::<(Seq<Transform>, int), DumpError>(DumpError::Truncation),
    decreases n,
{
    if n > 0 {
        let q1 = sp_read_transform(s, p)->Ok_0.1;
        lemma_take_transform(s, k, p);
        lemma_take_many_transform(s, k, q1, n - 1);
    }
}


proof fn lemma_take_pose(s: Seq<u8>, k: int, p: int, nt: i32, nf: i32)
    requires
        0 <= p,
        0 <= k <= s.len(),
        sp_read_pose(s, p, nt, nf) is Ok,
    ensures
        p < sp_read_pose(s, p, nt, nf)->Ok_0.1,
        sp_read_pose(s, p, nt, nf)->Ok_0.1 <= k ==> sp_read_pose(s.take(k), p, nt, nf)
            == sp_read_pose(s, p, nt, nf),
        sp_read_pose(s, p, nt, nf)->Ok_0.1 > k ==> sp_read_pose(s.take(k), p, nt, nf) == Err::<
            (PoseV, int),
            DumpError,
        >(DumpError::Truncation),
{
    let q1 = sp_read_u32(s, p)->Ok_0.1;
    lemma_take_u32(s, k, p);
    let q2 = sp_read_many(s, q1, nt as int, rd_transform())->Ok_0.1;
    lemma_take_many_transform(s, k, q1, nt as int);
    lemma_take_many_u32(s, k, q2, nf as int);
    let e = sp_read_pose(s, p, nt, nf)->Ok_0.1;
    if e <= k {
    } else {
        if q1 > k {
        } else if q2 > k {
        } else {
        }
    }
}

proof fn lemma_take_many_pose(s: Seq<u8>, k: int, p: int, n: int, nt: i32, nf: i32)
    requires
        0 <= p,
        0 <= k <= s.len(),
        sp_read_many(s, p, n, rd_pose(nt, nf)) is Ok,
    ensures
        p <= sp_read_many(s, p, n, rd_pose(nt, nf))->Ok_0.1,
        sp_read_many(s, p, n, rd_pose(nt, nf))->Ok_0.1 <= k || n <= 0 ==> sp_read_many(
            s.take(k),
            p,
            n,
            rd_pose(nt, nf),
        ) == sp_read_many(s, p, n, rd_pose(nt, nf)),
        n > 0 && sp_read_many(s, p, n, rd_pose(nt, nf))->Ok_0.1 > k ==> sp_read_many(
            s.take(k),
            p,
            n,
            rd_pose(nt, nf),
        ) == Err::<(Seq<PoseV>, int), DumpError>(DumpError::Truncation),
    decreases n,
{
    if n > 0 {
        let q1 = sp_read_pose(s, p, nt, nf)->Ok_0.1;
        lemma_take_pose(s, k, p, nt, nf);
        lemma_take_many_pose(s, k, q1, n - 1, nt, nf);
    }
}


/// Truncating a well-formed skeleton dump anywhere before its end makes the
/// decode fail with `Truncation` — never succeed on a silent default and
/// never fail with another error.
#[verifier::rlimit(100)]
#[verifier::spinoff_prover]
pub proof fn lemma_skeleton_truncation(s: Seq<u8>, k: int)
    requires
        0 <= k <= s.len(),
        sp_skeleton_at(s, 0) is Ok,
        k < sp_skeleton_at(s, 0)->Ok_0.1,
    ensures
        sp_skeleton_at(s.take(k), 0) == Err::<(SkeletonV, int), DumpError>(DumpError::Truncation),
{
    let p2 = sp_read_string(s, 0, 10)->Ok_0.1;
    lemma_take_string(s, k, 0, 10);
    if p2 <= k {
        let p3 = sp_read_u32(s, p2)->Ok_0.1;
        lemma_take_u32(s, k, p2);
        if p3 <= k {
            let p4 = sp_read_i32(s, p3)->Ok_0.1;
            lemma_take_i32(s, k, p3);
            if p4 <= k {
                let p5 = sp_read_string(s, p4, 0)->Ok_0.1;
                lemma_take_string(s, k, p4, 0);
                if p5 <= k {
                    let n1 = sp_read_i32(s, p5)->Ok_0.0;
                    let p6 = sp_read_i32(s, p5)->Ok_0.1;
                    lemma_take_i32(s, k, p5);
                    if p6 <= k {
                        let p7 = sp_read_many(s, p6, n1 as int, rd_i16())->Ok_0.1;
                        lemma_take_many_i16(s, k, p6, n1 as int);
                        if p7 <= k {
                            let n2 = sp_read_i32(s, p7)->Ok_0.0;
                            let p8 = sp_read_i32(s, p7)->Ok_0.1;
                            lemma_take_i32(s, k, p7);
                            if p8 <= k {
                                let p9 = sp_read_many(s, p8, n2 as int, rd_str())->Ok_0.1;
                                lemma_take_many_str(s, k, p8, n2 as int);
                                if p9 <= k {
                                    let n3 = sp_read_i32(s, p9)->Ok_0.0;
                                    let p10 = sp_read_i32(s, p9)->Ok_0.1;
                                    lemma_take_i32(s, k, p9);
                                    if p10 <= k {
                                        let p11 = sp_read_many(
                                            s,
                                            p10,
                                            n3 as int,
                                            rd_transform(),
                                        )->Ok_0.1;
                                        lemma_take_many_transform(s, k, p10, n3 as int);
                                        if p11 <= k {
                                            let f1 = sp_read_i32(s, p11)->Ok_0.0;
                                            let p12 = sp_read_i32(s, p11)->Ok_0.1;
                                            lemma_take_i32(s, k, p11);
                                            if p12 <= k {
                                                let p13 = sp_read_many(
                                                    s,
                                                    p12,
                                                    f1 as int,
                                                    rd_u32(),
                                                )->Ok_0.1;
                                                lemma_take_many_u32(s, k, p12, f1 as int);
                                                if p13 <= k {
                                                    let f2 = sp_read_i32(s, p13)->Ok_0.0;
                                                    let p14 = sp_read_i32(s, p13)->Ok_0.1;
                                                    lemma_take_i32(s, k, p13);
                                                    if p14 <= k {
                                                        let p15 = sp_read_many(
                                                            s,
                                                            p14,
                                                            f2 as int,
                                                            rd_str(),
                                                        )->Ok_0.1;
                                                        lemma_take_many_str(s, k, p14, f2 as int);
                                                        if p15 <= k {
                                                            lemma_take_i32(s, k, p15);
                                                        }
                                                    }
                                                }
                                            }
                                        }
                                    }
                                }
                            }
                        }
                    }
                }
            }
        }
    }
}


/// Truncating a well-formed animation dump anywhere before its end makes the
/// decode fail with `Truncation` — never succeed on a silent default and
/// never fail with another error.
#[verifier::rlimit(100)]
#[verifier::spinoff_prover]
pub proof fn lemma_animation_truncation(s: Seq<u8>, k: int)
    requires
        0 <= k <= s.len(),
        sp_animation_at(s, 0) is Ok,
        k < sp_animation_at(s, 0)->Ok_0.1,
    ensures
        sp_animation_at(s.take(k), 0) == Err::<(AnimationV, int), DumpError>(
            DumpError::Truncation,
        ),
{
    let p2 = sp_read_string(s, 0, 10)->Ok_0.1;
    lemma_take_string(s, k, 0, 10);
    if p2 <= k {
        let p3 = sp_read_u32(s, p2)->Ok_0.1;
        lemma_take_u32(s, k, p2);
        if p3 <= k {
            let p4 = sp_read_i32(s, p3)->Ok_0.1;
            lemma_take_i32(s, k, p3);
            if p4 <= k {
                let p5 = sp_read_i32(s, p4)->Ok_0.1;
                lemma_take_i32(s, k, p4);
                if p5 <= k {
                    let nframes = sp_read_i32(s, p5)->Ok_0.0;
                    let p6 = sp_read_i32(s, p5)->Ok_0.1;
                    lemma_take_i32(s, k, p5);
                    if p6 <= k {
                        let p7 = sp_read_u32(s, p6)->Ok_0.1;
                        lemma_take_u32(s, k, p6);
                        if p7 <= k {
                            let nt = sp_read_i32(s, p7)->Ok_0.0;
                            let p8 = sp_read_i32(s, p7)->Ok_0.1;
                            lemma_take_i32(s, k, p7);
                            if p8 <= k {
                                let nf = sp_read_i32(s, p8)->Ok_0.0;
                                let p9 = sp_read_i32(s, p8)->Ok_0.1;
                                lemma_take_i32(s, k, p8);
                                if p9 <= k {
                                    lemma_take_many_pose(s, k, p9, nframes as int, nt, nf);
                                }
                            }
                        }
                    }
                }
            }
        }
    }
}

} // verus!
