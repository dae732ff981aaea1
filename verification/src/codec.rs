//! The bounded byte encoding of a record, as persisted in the record table.
//!
//! A record is laid out as a fixed-width prefix (id, the two lifecycle
//! flags, the creation time, the two optional timestamps with a tag byte
//! each, and the three string lengths) followed by the UTF-8 bytes of the
//! owner, the title and the body. The whole encoding of a well-formed
//! record fits in [`MAX_RECORD_BYTES`] bytes; the service rejects payloads
//! that would not fit before anything is persisted.

use crate::record::{Record, RecordView};
use vstd::bytes::*;
use vstd::prelude::*;
use vstd::slice::{slice_index_get, slice_subrange, slice_to_vec};
use vstd::string::StrSliceExecFns;
use vstd::utf8::*;

verus! {

/// Bytes of an encoded record before the three variable-length strings.
pub const RECORD_FIXED_LEN: usize = 42;

/// Upper bound on the persisted encoding of one record.
pub const MAX_RECORD_BYTES: usize = 1024;

/// The byte standing for a boolean field.
pub open spec fn bool_byte(b: bool) -> u8 {
    if b {
        1
    } else {
        0
    }
}

/// The tag byte of an optional timestamp.
pub open spec fn opt_tag(v: Option<u64>) -> u8 {
    if v is Some {
        1
    } else {
        0
    }
}

/// The value bytes of an optional timestamp; an absent timestamp is padded
/// with zero so that every field sits at a fixed offset.
pub open spec fn opt_bytes(v: Option<u64>) -> Seq<u8> {
    spec_u64_to_le_bytes(
        match v {
            Some(t) => t,
            None => 0,
        },
    )
}

/// Length in bytes of the encoding of a record.
pub open spec fn spec_encoded_len(m: RecordView) -> int {
    RECORD_FIXED_LEN + encode_utf8(m.owner).len() + encode_utf8(m.title).len() + encode_utf8(
        m.body,
    ).len()
}

/// A record is small enough to persist when its encoding fits the bounded
/// slot of the record table.
pub open spec fn rec_fits(m: RecordView) -> bool {
    spec_encoded_len(m) <= MAX_RECORD_BYTES
}

/// Whether a record whose owner, title and body are these strings fits the
/// bounded encoding: only the three strings vary in length.
pub open spec fn strings_fit(owner: Seq<char>, title: Seq<char>, body: Seq<char>) -> bool {
    RECORD_FIXED_LEN + encode_utf8(owner).len() + encode_utf8(title).len() + encode_utf8(
        body,
    ).len() <= MAX_RECORD_BYTES
}

/// Decides whether a record built from these strings fits the bounded slot.
pub fn strings_fit_check(owner: &String, title: &String, body: &String) -> (r: bool)
    ensures
        r == strings_fit(owner@, title@, body@),
{
    let ol = owner.as_str().as_bytes().len();
    let tl = title.as_str().as_bytes().len();
    let bl = body.as_str().as_bytes().len();
    ol <= MAX_RECORD_BYTES - RECORD_FIXED_LEN && tl <= MAX_RECORD_BYTES - RECORD_FIXED_LEN - ol
        && bl <= MAX_RECORD_BYTES - RECORD_FIXED_LEN - ol - tl
}

/// The persisted encoding of a record.
pub open spec fn spec_encode(m: RecordView) -> Seq<u8> {
    let ob = encode_utf8(m.owner);
    let tb = encode_utf8(m.title);
    let bb = encode_utf8(m.body);
    spec_u64_to_le_bytes(m.id) + seq![bool_byte(m.completed), bool_byte(m.completed_late)]
        + spec_u64_to_le_bytes(m.created_at) + seq![opt_tag(m.updated_at)] + opt_bytes(
        m.updated_at,
    ) + seq![opt_tag(m.deadline)] + opt_bytes(m.deadline) + spec_u16_to_le_bytes(ob.len() as u16)
        + spec_u16_to_le_bytes(tb.len() as u16) + spec_u16_to_le_bytes(bb.len() as u16) + ob + tb
        + bb
}

/// The record a byte string encodes, if it is a well-formed encoding.
#[verifier::opaque]
pub open spec fn spec_decode(b: Seq<u8>) -> Option<RecordView> {
    if b.len() < RECORD_FIXED_LEN {
        None
    } else {
        let ol = spec_u16_from_le_bytes(b.subrange(36, 38)) as int;
        let tl = spec_u16_from_le_bytes(b.subrange(38, 40)) as int;
        let bl = spec_u16_from_le_bytes(b.subrange(40, 42)) as int;
        if b.len() != RECORD_FIXED_LEN + ol + tl + bl {
            None
        } else if b[8] > 1 || b[9] > 1 || b[18] > 1 || b[27] > 1 {
            None
        } else {
            let ob = b.subrange(42, 42 + ol);
            let tb = b.subrange(42 + ol, 42 + ol + tl);
            let bb = b.subrange(42 + ol + tl, 42 + ol + tl + bl);
            if !valid_utf8(ob) || !valid_utf8(tb) || !valid_utf8(bb) {
                None
            } else {
                Some(
                    RecordView {
                        owner: decode_utf8(ob),
                        id: spec_u64_from_le_bytes(b.subrange(0, 8)),
                        title: decode_utf8(tb),
                        body: decode_utf8(bb),
                        completed: b[8] == 1,
                        created_at: spec_u64_from_le_bytes(b.subrange(10, 18)),
                        updated_at: if b[18] == 1 {
                            Some(spec_u64_from_le_bytes(b.subrange(19, 27)))
                        } else {
                            None
                        },
                        deadline: if b[27] == 1 {
                            Some(spec_u64_from_le_bytes(b.subrange(28, 36)))
                        } else {
                            None
                        },
                        completed_late: b[9] == 1,
                    },
                )
            }
        }
    }
}

/// Decoding inverts encoding: every record that fits the bounded slot comes
/// back unchanged from its persisted byte form.
#[verifier::rlimit(60)]
pub proof fn lemma_decode_encode(m: RecordView)
    requires
        rec_fits(m),
    ensures
        spec_encode(m).len() == spec_encoded_len(m),
        spec_decode(spec_encode(m)) == Some(m),
{
    reveal(spec_decode);
    lemma_auto_spec_u64_to_from_le_bytes();
    lemma_auto_spec_u16_to_from_le_bytes();
    broadcast use encode_utf8_valid_utf8, encode_utf8_decode_utf8;

    let ob = encode_utf8(m.owner);
    let tb = encode_utf8(m.title);
    let bb = encode_utf8(m.body);
    let b = spec_encode(m);
    assert(b.len() == RECORD_FIXED_LEN + ob.len() + tb.len() + bb.len());
    let ol = ob.len() as int;
    let tl = tb.len() as int;
    let bl = bb.len() as int;
    assert(b.subrange(0, 8) =~= spec_u64_to_le_bytes(m.id));
    assert(b[8] == bool_byte(m.completed));
    assert(b[9] == bool_byte(m.completed_late));
    assert(b.subrange(10, 18) =~= spec_u64_to_le_bytes(m.created_at));
    assert(b[18] == opt_tag(m.updated_at));
    assert(b.subrange(19, 27) =~= opt_bytes(m.updated_at));
    assert(b[27] == opt_tag(m.deadline));
    assert(b.subrange(28, 36) =~= opt_bytes(m.deadline));
    assert(b.subrange(36, 38) =~= spec_u16_to_le_bytes(ob.len() as u16));
    assert(b.subrange(38, 40) =~= spec_u16_to_le_bytes(tb.len() as u16));
    assert(b.subrange(40, 42) =~= spec_u16_to_le_bytes(bb.len() as u16));
    assert(b.subrange(42, 42 + ol) =~= ob);
    assert(b.subrange(42 + ol, 42 + ol + tl) =~= tb);
    assert(b.subrange(42 + ol + tl, 42 + ol + tl + bl) =~= bb);
    assert(spec_decode(b) matches Some(d) && d =~= m);
}

/// Relies on `String::from_utf8`: it returns `Ok` exactly on input that is
/// valid UTF-8, and the characters of the resulting string are the decoding
/// of the input bytes.
#[verifier::external_body]
fn string_from_utf8(bytes: Vec<u8>) -> (r: Option<String>)
    ensures
        r is Some <==> valid_utf8(bytes@),
        r matches Some(s) ==> s@ == decode_utf8(bytes@),
{
    String::from_utf8(bytes).ok()
}

/// Serializes a record into its persisted byte form.
#[verifier::rlimit(60)]
pub fn encode_record(r: &Record) -> (out: Vec<u8>)
    requires
        rec_fits(r@),
    ensures
        out@ == spec_encode(r@),
        out@.len() == spec_encoded_len(r@),
{
    proof {
        lemma_auto_spec_u64_to_from_le_bytes();
        lemma_auto_spec_u16_to_from_le_bytes();
    }
    let mut out: Vec<u8> = Vec::new();
    let mut idb = u64_to_le_bytes(r.id);
    out.append(&mut idb);
    out.push(if r.completed { 1 } else { 0 });
    out.push(if r.completed_late { 1 } else { 0 });
    let mut cab = u64_to_le_bytes(r.created_at);
    out.append(&mut cab);
    match r.updated_at {
        Some(t) => {
            out.push(1);
            let mut vb = u64_to_le_bytes(t);
            out.append(&mut vb);
        },
        None => {
            out.push(0);
            let mut vb = u64_to_le_bytes(0);
            out.append(&mut vb);
        },
    }
    match r.deadline {
        Some(t) => {
            out.push(1);
            let mut vb = u64_to_le_bytes(t);
            out.append(&mut vb);
        },
        None => {
            out.push(0);
            let mut vb = u64_to_le_bytes(0);
            out.append(&mut vb);
        },
    }
    let mut ob = r.owner.as_str().as_bytes_vec();
    let mut tb = r.title.as_str().as_bytes_vec();
    let mut bb = r.body.as_str().as_bytes_vec();
    let mut olb = u16_to_le_bytes(ob.len() as u16);
    out.append(&mut olb);
    let mut tlb = u16_to_le_bytes(tb.len() as u16);
    out.append(&mut tlb);
    let mut blb = u16_to_le_bytes(bb.len() as u16);
    out.append(&mut blb);
    out.append(&mut ob);
    out.append(&mut tb);
    out.append(&mut bb);
    proof {
        assert(out@ =~= spec_encode(r@));
    }
    out
}

/// Parses the persisted byte form of a record, rejecting anything that is
/// not a well-formed encoding.
#[verifier::rlimit(60)]
pub fn decode_record(bytes: &Vec<u8>) -> (r: Option<Record>)
    ensures
        r is Some <==> spec_decode(bytes@) is Some,
        r matches Some(rec) ==> Some(rec@) == spec_decode(bytes@),
{
    proof {
        reveal(spec_decode);
        lemma_auto_spec_u64_to_from_le_bytes();
        lemma_auto_spec_u16_to_from_le_bytes();
    }
    if bytes.len() < RECORD_FIXED_LEN {
        return None;
    }
    let s = bytes.as_slice();
    let ol = u16_from_le_bytes(slice_subrange(s, 36, 38)) as usize;
    let tl = u16_from_le_bytes(slice_subrange(s, 38, 40)) as usize;
    let bl = u16_from_le_bytes(slice_subrange(s, 40, 42)) as usize;
    if bytes.len() != RECORD_FIXED_LEN + ol + tl + bl {
        return None;
    }
    let completed_b = *slice_index_get(s, 8);
    let late_b = *slice_index_get(s, 9);
    let upd_tag = *slice_index_get(s, 18);
    let dl_tag = *slice_index_get(s, 27);
    if completed_b > 1 || late_b > 1 || upd_tag > 1 || dl_tag > 1 {
        return None;
    }
    let id = u64_from_le_bytes(slice_subrange(s, 0, 8));
    let created_at = u64_from_le_bytes(slice_subrange(s, 10, 18));
    let updated_at = if upd_tag == 1 {
        Some(u64_from_le_bytes(slice_subrange(s, 19, 27)))
    } else {
        None
    };
    let deadline = if dl_tag == 1 {
        Some(u64_from_le_bytes(slice_subrange(s, 28, 36)))
    } else {
        None
    };
    let owner_bytes = slice_to_vec(slice_subrange(s, 42, 42 + ol));
    let title_bytes = slice_to_vec(slice_subrange(s, 42 + ol, 42 + ol + tl));
    let body_bytes = slice_to_vec(slice_subrange(s, 42 + ol + tl, 42 + ol + tl + bl));
    let owner = match string_from_utf8(owner_bytes) {
        Some(v) => v,
        None => {
            return None;
        },
    };
    let title = match string_from_utf8(title_bytes) {
        Some(v) => v,
        None => {
            return None;
        },
    };
    let body = match string_from_utf8(body_bytes) {
        Some(v) => v,
        None => {
            return None;
        },
    };
    let rec = Record {
        owner,
        id,
        title,
        body,
        completed: completed_b == 1,
        created_at,
        updated_at,
        deadline,
        completed_late: late_b == 1,
    };
    proof {
        assert(spec_decode(bytes@) matches Some(d) && d =~= rec@);
    }
    Some(rec)
}

} // verus!
