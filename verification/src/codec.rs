//! The canonical byte encoding of a job record, its maximum size bound, and
//! the proof that decoding inverts encoding.
//!
//! Layout, all integers little-endian:
//! - 8 bytes `id`, 8 bytes `created_at`;
//! - title and description, each as a 4-byte byte-length followed by the
//!   UTF-8 bytes of the text;
//! - a 4-byte applicant count followed by each applicant name in application
//!   order, encoded like the other text fields;
//! - one tag byte for the accepted applicant (0 absent, 1 present), followed
//!   by the name when present.
//!
//! Records are variable-length; an encoding longer than [`MAX_JOB_BYTES`] is
//! never produced (the write is rejected instead) and never accepted by the
//! decoder.

use vstd::prelude::*;
use vstd::bytes::{
    spec_u32_to_le_bytes, spec_u32_from_le_bytes, spec_u64_to_le_bytes, spec_u64_from_le_bytes,
    lemma_auto_spec_u32_to_from_le_bytes, lemma_auto_spec_u64_to_from_le_bytes, u32_to_le_bytes,
    u32_from_le_bytes, u64_to_le_bytes, u64_from_le_bytes,
};
use vstd::utf8::{
    encode_utf8, decode_utf8, valid_utf8, encode_utf8_valid_utf8, encode_utf8_decode_utf8,
};
use vstd::string::StringSliceAdditionalSpecFns;
use vstd::string::StrSliceExecFns;
use vstd::slice::{slice_subrange, slice_to_vec, slice_index_get};
use crate::job::{Job, JobView, JobError};

verus! {

/// The most bytes any stored record encoding may occupy.
pub const MAX_JOB_BYTES: usize = 1024;

/// A text field: its UTF-8 byte length as 4 little-endian bytes, then the
/// UTF-8 bytes themselves.
pub open spec fn spec_encode_str(s: Seq<char>) -> Seq<u8> {
    spec_u32_to_le_bytes(encode_utf8(s).len() as u32) + encode_utf8(s)
}

/// The applicant names, in order, each encoded as a text field.
pub open spec fn spec_encode_names(names: Seq<Seq<char>>) -> Seq<u8>
    decreases names.len(),
{
    if names.len() == 0 {
        Seq::empty()
    } else {
        spec_encode_str(names.first()) + spec_encode_names(names.drop_first())
    }
}

/// The accepted applicant: a tag byte, then the name when present.
pub open spec fn spec_encode_accepted(accepted: Option<Seq<char>>) -> Seq<u8> {
    match accepted {
        Option::None => seq![0u8],
        Option::Some(s) => seq![1u8] + spec_encode_str(s),
    }
}

/// The canonical encoding of a whole record.
pub open spec fn spec_encode_job(j: JobView) -> Seq<u8> {
    spec_u64_to_le_bytes(j.id) + spec_u64_to_le_bytes(j.created_at) + spec_encode_str(j.title)
        + spec_encode_str(j.description) + spec_u32_to_le_bytes(j.applicant_name.len() as u32)
        + spec_encode_names(j.applicant_name) + spec_encode_accepted(j.accepted_applicants)
}

/// Reads a u64 at offset `i`, returning it with the next offset.
pub open spec fn spec_decode_u64_at(b: Seq<u8>, i: int) -> Option<(u64, int)> {
    if 0 <= i && i + 8 <= b.len() {
        Option::Some((spec_u64_from_le_bytes(b.subrange(i, i + 8)), i + 8))
    } else {
        Option::None
    }
}

/// Reads a u32 at offset `i`, returning it with the next offset.
pub open spec fn spec_decode_u32_at(b: Seq<u8>, i: int) -> Option<(u32, int)> {
    if 0 <= i && i + 4 <= b.len() {
        Option::Some((spec_u32_from_le_bytes(b.subrange(i, i + 4)), i + 4))
    } else {
        Option::None
    }
}

/// Reads a text field at offset `i`: a byte length, then that many bytes,
/// which must be valid UTF-8.
pub open spec fn spec_decode_str_at(b: Seq<u8>, i: int) -> Option<(Seq<char>, int)> {
    match spec_decode_u32_at(b, i) {
        Option::None => Option::None,
        Option::Some((n, j)) => {
            if j + n <= b.len() {
                let bytes = b.subrange(j, j + n);
                if valid_utf8(bytes) {
                    Option::Some((decode_utf8(bytes), j + n))
                } else {
                    Option::None
                }
            } else {
                Option::None
            }
        },
    }
}

/// Reads `count` text fields starting at offset `i`.
pub open spec fn spec_decode_names_at(b: Seq<u8>, i: int, count: nat) -> Option<
    (Seq<Seq<char>>, int),
>
    decreases count,
{
    if count == 0 {
        Option::Some((Seq::empty(), i))
    } else {
        match spec_decode_str_at(b, i) {
            Option::None => Option::None,
            Option::Some((s, j)) => match spec_decode_names_at(b, j, (count - 1) as nat) {
                Option::None => Option::None,
                Option::Some((rest, k)) => Option::Some((seq![s] + rest, k)),
            },
        }
    }
}

/// Reads the accepted applicant at offset `i`: a tag byte, then a text field
/// when the tag says one is present.
pub open spec fn spec_decode_accepted_at(b: Seq<u8>, i: int) -> Option<(Option<Seq<char>>, int)> {
    if 0 <= i && i + 1 <= b.len() {
        if b[i] == 0u8 {
            Option::Some((Option::None, i + 1))
        } else if b[i] == 1u8 {
            match spec_decode_str_at(b, i + 1) {
                Option::None => Option::None,
                Option::Some((s, j)) => Option::Some((Option::Some(s), j)),
            }
        } else {
            Option::None
        }
    } else {
        Option::None
    }
}

/// The record encoded in `b`, when `b` is exactly one well-formed encoding of
/// admissible size; `None` otherwise.
pub open spec fn spec_decode_job(b: Seq<u8>) -> Option<JobView> {
    if b.len() > MAX_JOB_BYTES {
        Option::None
    } else {
        match spec_decode_u64_at(b, 0) {
            Option::None => Option::None,
            Option::Some((id, i1)) => match spec_decode_u64_at(b, i1) {
                Option::None => Option::None,
                Option::Some((created_at, i2)) => match spec_decode_str_at(b, i2) {
                    Option::None => Option::None,
                    Option::Some((title, i3)) => match spec_decode_str_at(b, i3) {
                        Option::None => Option::None,
                        Option::Some((description, i4)) => match spec_decode_u32_at(b, i4) {
                            Option::None => Option::None,
                            Option::Some((count, i5)) => match spec_decode_names_at(
                                b,
                                i5,
                                count as nat,
                            ) {
                                Option::None => Option::None,
                                Option::Some((names, i6)) => match spec_decode_accepted_at(b, i6) {
                                    Option::None => Option::None,
                                    Option::Some((accepted, i7)) => if i7 == b.len() {
                                        Option::Some(
                                            JobView {
                                                id,
                                                title,
                                                description,
                                                created_at,
                                                applicant_name: names,
                                                accepted_applicants: accepted,
                                            },
                                        )
                                    } else {
                                        Option::None
                                    },
                                },
                            },
                        },
                    },
                },
            },
        }
    }
}

proof fn lemma_encode_str_len(s: Seq<char>)
    ensures
        spec_encode_str(s).len() == 4 + encode_utf8(s).len(),
{
    lemma_auto_spec_u32_to_from_le_bytes();
}

proof fn lemma_decode_u64_at_encoded(b: Seq<u8>, i: int, x: u64)
    requires
        0 <= i,
        i + 8 <= b.len(),
        b.subrange(i, i + 8) == spec_u64_to_le_bytes(x),
    ensures
        spec_decode_u64_at(b, i) == Option::Some((x, i + 8)),
{
    lemma_auto_spec_u64_to_from_le_bytes();
}

proof fn lemma_subrange_shift(b: Seq<u8>, i: int, lo: int, hi: int, whole: Seq<u8>)
    requires
        0 <= i,
        i + whole.len() <= b.len(),
        b.subrange(i, i + whole.len() as int) == whole,
        0 <= lo <= hi <= whole.len(),
    ensures
        b.subrange(i + lo, i + hi) =~= whole.subrange(lo, hi),
{
    assert forall|k: int| 0 <= k < hi - lo implies b.subrange(i + lo, i + hi)[k]
        == whole.subrange(lo, hi)[k] by {
        assert(b.subrange(i + lo, i + hi)[k] == b[i + lo + k]);
        assert(whole.subrange(lo, hi)[k] == whole[lo + k]);
        assert(whole[lo + k] == b.subrange(i, i + whole.len() as int)[lo + k]);
        assert(b.subrange(i, i + whole.len() as int)[lo + k] == b[i + (lo + k)]);
        assert(b[i + lo + k] == b[i + (lo + k)]);
    }
}

proof fn lemma_decode_str_at_encoded(b: Seq<u8>, i: int, s: Seq<char>)
    requires
        0 <= i,
        i + spec_encode_str(s).len() <= b.len(),
        b.subrange(i, i + spec_encode_str(s).len() as int) == spec_encode_str(s),
        encode_utf8(s).len() < 0x1_0000_0000,
    ensures
        spec_decode_str_at(b, i) == Option::Some((s, i + spec_encode_str(s).len() as int)),
{
    lemma_auto_spec_u32_to_from_le_bytes();
    broadcast use encode_utf8_valid_utf8, encode_utf8_decode_utf8;

    let n = encode_utf8(s).len() as int;
    let enc = spec_encode_str(s);
    assert(enc.len() == 4 + n);
    lemma_subrange_shift(b, i, 0, 4, enc);
    assert(enc.subrange(0, 4) =~= spec_u32_to_le_bytes(encode_utf8(s).len() as u32));
    assert(spec_decode_u32_at(b, i) == Option::Some((encode_utf8(s).len() as u32, i + 4)));
    assert((encode_utf8(s).len() as u32) as int == n);
    lemma_subrange_shift(b, i, 4, 4 + n, enc);
    assert(enc.subrange(4, 4 + n) =~= encode_utf8(s));
    assert(valid_utf8(encode_utf8(s)));
    assert(decode_utf8(encode_utf8(s)) == s);
}

proof fn lemma_encode_names_len_lb(names: Seq<Seq<char>>)
    ensures
        spec_encode_names(names).len() >= 4 * names.len(),
    decreases names.len(),
{
    if names.len() != 0 {
        lemma_encode_names_len_lb(names.drop_first());
        lemma_encode_str_len(names.first());
    }
}

proof fn lemma_decode_names_at_encoded(b: Seq<u8>, i: int, names: Seq<Seq<char>>)
    requires
        0 <= i,
        i + spec_encode_names(names).len() <= b.len(),
        b.subrange(i, i + spec_encode_names(names).len() as int) == spec_encode_names(names),
        spec_encode_names(names).len() <= MAX_JOB_BYTES,
    ensures
        spec_decode_names_at(b, i, names.len()) == Option::Some(
            (names, i + spec_encode_names(names).len() as int),
        ),
    decreases names.len(),
{
    if names.len() == 0 {
        assert(names =~= Seq::<Seq<char>>::empty());
    } else {
        let s0 = names.first();
        let rest = names.drop_first();
        let e0 = spec_encode_str(s0);
        let erest = spec_encode_names(rest);
        let etotal = spec_encode_names(names);
        assert(etotal == e0 + erest);
        lemma_encode_str_len(s0);
        assert(encode_utf8(s0).len() < 0x1_0000_0000);
        lemma_subrange_shift(b, i, 0, e0.len() as int, etotal);
        assert(etotal.subrange(0, e0.len() as int) =~= e0);
        lemma_decode_str_at_encoded(b, i, s0);
        let j = i + e0.len() as int;
        lemma_subrange_shift(b, i, e0.len() as int, etotal.len() as int, etotal);
        assert(etotal.subrange(e0.len() as int, etotal.len() as int) =~= erest);
        lemma_decode_names_at_encoded(b, j, rest);
        assert(seq![s0] + rest =~= names);
        assert(rest.len() == (names.len() - 1) as nat);
    }
}

proof fn lemma_decode_accepted_at_encoded(b: Seq<u8>, i: int, accepted: Option<Seq<char>>)
    requires
        0 <= i,
        i + spec_encode_accepted(accepted).len() <= b.len(),
        b.subrange(i, i + spec_encode_accepted(accepted).len() as int) == spec_encode_accepted(
            accepted,
        ),
        spec_encode_accepted(accepted).len() <= MAX_JOB_BYTES,
    ensures
        spec_decode_accepted_at(b, i) == Option::Some(
            (accepted, i + spec_encode_accepted(accepted).len() as int),
        ),
{
    let enc = spec_encode_accepted(accepted);
    match accepted {
        Option::None => {
            assert(b[i] == enc[0]);
        },
        Option::Some(s) => {
            let es = spec_encode_str(s);
            assert(enc == seq![1u8] + es);
            assert(b[i] == enc[0]);
            lemma_encode_str_len(s);
            lemma_subrange_shift(b, i, 1, enc.len() as int, enc);
            assert(enc.subrange(1, enc.len() as int) =~= es);
            lemma_decode_str_at_encoded(b, i + 1, s);
        },
    }
}

/// Round-trip identity of the codec: decoding an encoding of admissible size
/// yields exactly the record that was encoded.
pub proof fn lemma_job_codec_roundtrip(j: JobView)
    requires
        spec_encode_job(j).len() <= MAX_JOB_BYTES,
    ensures
        spec_decode_job(spec_encode_job(j)) == Option::Some(j),
{
    let b = spec_encode_job(j);
    lemma_auto_spec_u64_to_from_le_bytes();
    lemma_auto_spec_u32_to_from_le_bytes();
    lemma_encode_str_len(j.title);
    lemma_encode_str_len(j.description);
    lemma_encode_names_len_lb(j.applicant_name);

    let e_id = spec_u64_to_le_bytes(j.id);
    let e_ts = spec_u64_to_le_bytes(j.created_at);
    let e_title = spec_encode_str(j.title);
    let e_desc = spec_encode_str(j.description);
    let e_count = spec_u32_to_le_bytes(j.applicant_name.len() as u32);
    let e_names = spec_encode_names(j.applicant_name);
    let e_acc = spec_encode_accepted(j.accepted_applicants);
    assert(b == e_id + e_ts + e_title + e_desc + e_count + e_names + e_acc);

    let i1 = 8int;
    let i2 = i1 + 8;
    let i3 = i2 + e_title.len() as int;
    let i4 = i3 + e_desc.len() as int;
    let i5 = i4 + 4;
    let i6 = i5 + e_names.len() as int;
    let i7 = i6 + e_acc.len() as int;
    assert(b.len() == i7);

    assert(b.subrange(0, i1) =~= e_id);
    lemma_decode_u64_at_encoded(b, 0, j.id);
    assert(b.subrange(i1, i2) =~= e_ts);
    lemma_decode_u64_at_encoded(b, i1, j.created_at);
    assert(b.subrange(i2, i3) =~= e_title);
    lemma_decode_str_at_encoded(b, i2, j.title);
    assert(b.subrange(i3, i4) =~= e_desc);
    lemma_decode_str_at_encoded(b, i3, j.description);
    assert(b.subrange(i4, i5) =~= e_count);
    assert(spec_decode_u32_at(b, i4) == Option::Some((j.applicant_name.len() as u32, i5)));
    assert((j.applicant_name.len() as u32) as nat == j.applicant_name.len()) by {
        assert(4 * j.applicant_name.len() <= MAX_JOB_BYTES);
    }
    assert(b.subrange(i5, i6) =~= e_names);
    lemma_decode_names_at_encoded(b, i5, j.applicant_name);
    assert(b.subrange(i6, i7) =~= e_acc);
    lemma_decode_accepted_at_encoded(b, i6, j.accepted_applicants);
}

proof fn lemma_encode_names_take_succ(s: Seq<Seq<char>>, k: int)
    requires
        0 <= k < s.len(),
    ensures
        spec_encode_names(s.take(k + 1)) == spec_encode_names(s.take(k)) + spec_encode_str(s[k]),
    decreases k,
{
    if k == 0 {
        assert(s.take(0) =~= Seq::<Seq<char>>::empty());
        assert(s.take(1).first() == s[0]);
        assert(s.take(1).drop_first() =~= Seq::<Seq<char>>::empty());
        assert(spec_encode_str(s[0]) + Seq::<u8>::empty() =~= spec_encode_str(s[0]));
        assert(Seq::<u8>::empty() + spec_encode_str(s[0]) =~= spec_encode_str(s[0]));
    } else {
        lemma_encode_names_take_succ(s.drop_first(), k - 1);
        assert(s.take(k + 1).drop_first() =~= s.drop_first().take(k));
        assert(s.take(k).drop_first() =~= s.drop_first().take(k - 1));
        assert(s.take(k + 1).first() == s[0]);
        assert(s.take(k).first() == s[0]);
        assert(s.drop_first()[k - 1] == s[k]);
        assert((spec_encode_str(s[0]) + spec_encode_names(s.drop_first().take(k - 1)))
            + spec_encode_str(s[k]) =~= spec_encode_str(s[0]) + (spec_encode_names(
            s.drop_first().take(k - 1),
        ) + spec_encode_str(s[k])));
    }
}

proof fn lemma_encode_names_elem_lb(names: Seq<Seq<char>>, k: int)
    requires
        0 <= k < names.len(),
    ensures
        spec_encode_names(names).len() >= spec_encode_str(names[k]).len(),
    decreases names.len(),
{
    if k == 0 {
    } else {
        lemma_encode_names_elem_lb(names.drop_first(), k - 1);
        assert(names.drop_first()[k - 1] == names[k]);
    }
}

/// Relies on String::from_utf8: it succeeds exactly on byte sequences that
/// are valid UTF-8 and yields the characters those bytes encode.
#[verifier::external_body]
fn string_from_utf8(bytes: Vec<u8>) -> (r: Option<String>)
    ensures
        match r {
            Option::Some(s) => valid_utf8(bytes@) && s@ == decode_utf8(bytes@),
            Option::None => !valid_utf8(bytes@),
        },
{
    String::from_utf8(bytes).ok()
}

fn push_u64(out: &mut Vec<u8>, x: u64)
    ensures
        final(out)@ == old(out)@ + spec_u64_to_le_bytes(x),
{
    let mut b = u64_to_le_bytes(x);
    out.append(&mut b);
}

fn push_u32(out: &mut Vec<u8>, x: u32)
    ensures
        final(out)@ == old(out)@ + spec_u32_to_le_bytes(x),
{
    let mut b = u32_to_le_bytes(x);
    out.append(&mut b);
}

/// Appends one text field, unless its byte length alone already exceeds the
/// record bound (in which case nothing is appended).
fn try_push_str(out: &mut Vec<u8>, s: &String) -> (ok: bool)
    ensures
        ok ==> final(out)@ == old(out)@ + spec_encode_str(s@) && encode_utf8(s@).len() <= MAX_JOB_BYTES,
        !ok ==> final(out)@ == old(out)@ && encode_utf8(s@).len() > MAX_JOB_BYTES,
{
    let mut bv = s.as_str().as_bytes_vec();
    if bv.len() > MAX_JOB_BYTES {
        return false;
    }
    let n = bv.len();
    push_u32(out, n as u32);
    out.append(&mut bv);
    proof {
        assert(out@ =~= old(out)@ + spec_encode_str(s@));
    }
    true
}

impl Job {
    /// Encodes this record canonically: equal records give identical bytes.
    /// Rejects, leaving nothing behind, exactly the records whose encoding
    /// would exceed [`MAX_JOB_BYTES`].
    pub fn to_bytes(&self) -> (r: Result<Vec<u8>, JobError>)
        ensures
            match r {
                Result::Ok(b) => b@ == spec_encode_job(self@) && b@.len() <= MAX_JOB_BYTES,
                Result::Err(e) => e == JobError::CapacityExceeded && spec_encode_job(self@).len()
                    > MAX_JOB_BYTES,
            },
    {
        let ghost jv = self@;
        let mut out: Vec<u8> = Vec::new();
        push_u64(&mut out, self.id);
        push_u64(&mut out, self.created_at);
        proof {
            lemma_encode_str_len(jv.title);
            lemma_encode_str_len(jv.description);
        }
        if !try_push_str(&mut out, &self.title) {
            return Result::Err(JobError::CapacityExceeded);
        }
        if !try_push_str(&mut out, &self.description) {
            return Result::Err(JobError::CapacityExceeded);
        }
        let count = self.applicant_name.len();
        if count > MAX_JOB_BYTES {
            proof {
                lemma_encode_names_len_lb(jv.applicant_name);
            }
            return Result::Err(JobError::CapacityExceeded);
        }
        push_u32(&mut out, count as u32);
        let ghost head = out@;
        let mut k: usize = 0;
        while k < count
            invariant
                count == jv.applicant_name.len(),
                k <= count,
                self@ == jv,
                out@ == head + spec_encode_names(jv.applicant_name.take(k as int)),
            decreases count - k,
        {
            let ok = try_push_str(&mut out, &self.applicant_name[k]);
            proof {
                assert(self.applicant_name[k as int]@ == jv.applicant_name[k as int]);
                lemma_encode_names_take_succ(jv.applicant_name, k as int);
            }
            if !ok {
                proof {
                    lemma_encode_names_elem_lb(jv.applicant_name, k as int);
                    lemma_encode_str_len(jv.applicant_name[k as int]);
                }
                return Result::Err(JobError::CapacityExceeded);
            }
            k = k + 1;
        }
        proof {
            assert(jv.applicant_name.take(count as int) =~= jv.applicant_name);
        }
        match &self.accepted_applicants {
            Option::None => {
                out.push(0u8);
                proof {
                    assert(out@ =~= head + spec_encode_names(jv.applicant_name) + seq![0u8]);
                }
            },
            Option::Some(accepted) => {
                out.push(1u8);
                proof {
                    lemma_encode_str_len(accepted@);
                }
                if !try_push_str(&mut out, accepted) {
                    return Result::Err(JobError::CapacityExceeded);
                }
                proof {
                    assert(out@ =~= head + spec_encode_names(jv.applicant_name) + (seq![1u8]
                        + spec_encode_str(accepted@)));
                }
            },
        }
        proof {
            assert(out@ =~= spec_encode_job(jv));
        }
        if out.len() > MAX_JOB_BYTES {
            Result::Err(JobError::CapacityExceeded)
        } else {
            Result::Ok(out)
        }
    }
}

fn read_u64_at(b: &[u8], i: usize) -> (r: Option<(u64, usize)>)
    ensures
        match r {
            Option::Some((x, j)) => spec_decode_u64_at(b@, i as int) == Option::Some((x, j as int)),
            Option::None => spec_decode_u64_at(b@, i as int) is None,
        },
{
    if b.len() >= 8 && i <= b.len() - 8 {
        let s = slice_subrange(b, i, i + 8);
        let x = u64_from_le_bytes(s);
        Option::Some((x, i + 8))
    } else {
        Option::None
    }
}

fn read_u32_at(b: &[u8], i: usize) -> (r: Option<(u32, usize)>)
    ensures
        match r {
            Option::Some((x, j)) => spec_decode_u32_at(b@, i as int) == Option::Some((x, j as int)),
            Option::None => spec_decode_u32_at(b@, i as int) is None,
        },
{
    if b.len() >= 4 && i <= b.len() - 4 {
        let s = slice_subrange(b, i, i + 4);
        let x = u32_from_le_bytes(s);
        Option::Some((x, i + 4))
    } else {
        Option::None
    }
}

fn read_str_at(b: &[u8], i: usize) -> (r: Option<(String, usize)>)
    ensures
        match r {
            Option::Some((s, j)) => spec_decode_str_at(b@, i as int) == Option::Some(
                (s@, j as int),
            ),
            Option::None => spec_decode_str_at(b@, i as int) is None,
        },
{
    match read_u32_at(b, i) {
        Option::None => Option::None,
        Option::Some((n, j)) => {
            let nn = n as usize;
            if nn <= b.len() && j <= b.len() - nn {
                let sub = slice_subrange(b, j, j + nn);
                let v = slice_to_vec(sub);
                match string_from_utf8(v) {
                    Option::Some(s) => Option::Some((s, j + nn)),
                    Option::None => Option::None,
                }
            } else {
                Option::None
            }
        },
    }
}

fn read_names_at(b: &[u8], i: usize, count: u32) -> (r: Option<(Vec<String>, usize)>)
    ensures
        match r {
            Option::Some((v, j)) => spec_decode_names_at(b@, i as int, count as nat)
                == Option::Some((v.deep_view(), j as int)),
            Option::None => spec_decode_names_at(b@, i as int, count as nat) is None,
        },
    decreases count,
{
    if count == 0 {
        let v: Vec<String> = Vec::new();
        proof {
            assert(v.deep_view() =~= Seq::<Seq<char>>::empty());
        }
        Option::Some((v, i))
    } else {
        match read_str_at(b, i) {
            Option::None => Option::None,
            Option::Some((s, j)) => match read_names_at(b, j, count - 1) {
                Option::None => Option::None,
                Option::Some((rest, k)) => {
                    let ghost pre = rest.deep_view();
                    let mut rest = rest;
                    rest.insert(0, s);
                    proof {
                        assert(rest.deep_view() =~= seq![s@] + pre);
                    }
                    Option::Some((rest, k))
                },
            },
        }
    }
}

fn read_accepted_at(b: &[u8], i: usize) -> (r: Option<(Option<String>, usize)>)
    ensures
        match r {
            Option::Some((a, j)) => spec_decode_accepted_at(b@, i as int) == Option::Some(
                (
                    match a {
                        Option::None => Option::None,
                        Option::Some(s) => Option::Some(s@),
                    },
                    j as int,
                ),
            ),
            Option::None => spec_decode_accepted_at(b@, i as int) is None,
        },
{
    if i < b.len() {
        let tag = *slice_index_get(b, i);
        if tag == 0 {
            Option::Some((Option::None, i + 1))
        } else if tag == 1 {
            match read_str_at(b, i + 1) {
                Option::None => Option::None,
                Option::Some((s, j)) => Option::Some((Option::Some(s), j)),
            }
        } else {
            Option::None
        }
    } else {
        Option::None
    }
}

impl Job {
    /// Decodes a canonical encoding, restoring exactly the record it was made
    /// from; any byte sequence that no well-formed record encodes to is
    /// rejected as corruption.
    pub fn from_bytes(bytes: &Vec<u8>) -> (r: Result<Job, JobError>)
        ensures
            match r {
                Result::Ok(j) => spec_decode_job(bytes@) == Option::Some(j@),
                Result::Err(e) => e == JobError::CorruptionDetected && spec_decode_job(
                    bytes@,
                ) is None,
            },
    {
        if bytes.len() > MAX_JOB_BYTES {
            return Result::Err(JobError::CorruptionDetected);
        }
        let b = bytes.as_slice();
        let (id, i1) = match read_u64_at(b, 0) {
            Option::None => {
                return Result::Err(JobError::CorruptionDetected);
            },
            Option::Some(p) => p,
        };
        let (created_at, i2) = match read_u64_at(b, i1) {
            Option::None => {
                return Result::Err(JobError::CorruptionDetected);
            },
            Option::Some(p) => p,
        };
        let (title, i3) = match read_str_at(b, i2) {
            Option::None => {
                return Result::Err(JobError::CorruptionDetected);
            },
            Option::Some(p) => p,
        };
        let (description, i4) = match read_str_at(b, i3) {
            Option::None => {
                return Result::Err(JobError::CorruptionDetected);
            },
            Option::Some(p) => p,
        };
        let (count, i5) = match read_u32_at(b, i4) {
            Option::None => {
                return Result::Err(JobError::CorruptionDetected);
            },
            Option::Some(p) => p,
        };
        let (applicant_name, i6) = match read_names_at(b, i5, count) {
            Option::None => {
                return Result::Err(JobError::CorruptionDetected);
            },
            Option::Some(p) => p,
        };
        let (accepted_applicants, i7) = match read_accepted_at(b, i6) {
            Option::None => {
                return Result::Err(JobError::CorruptionDetected);
            },
            Option::Some(p) => p,
        };
        if i7 != bytes.len() {
            return Result::Err(JobError::CorruptionDetected);
        }
        Result::Ok(
            Job { id, title, description, created_at, applicant_name, accepted_applicants },
        )
    }
}


/// The codec is injective on admissible records: distinct records never
/// share an encoding, so equal encodings mean structurally equal records.
pub proof fn lemma_encode_injective(a: JobView, b: JobView)
    requires
        spec_encode_job(a).len() <= MAX_JOB_BYTES,
        spec_encode_job(a) == spec_encode_job(b),
    ensures
        a == b,
{
    lemma_job_codec_roundtrip(a);
    lemma_job_codec_roundtrip(b);
}

} // verus!
