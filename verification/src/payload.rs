//! The webhook payload: the bounce event serialized as a JSON object.
//!
//! The object is framed byte by byte here — escaping, quoting and field
//! layout are all verified; only the RFC 3339 rendering of the event
//! timestamp comes from an outside crate, behind a named result.

use vstd::prelude::*;
use vstd::string::StringSliceAdditionalSpecFns;
use crate::dsn::{BounceInfo, BounceView, HeaderField, HeaderFieldView, MessageInfo, MessageInfoView};

verus! {

/// Lowercase hexadecimal digit for a value below 16.
pub open spec fn hex_digit(n: u8) -> u8 {
    if n < 10 {
        (48 + n) as u8
    } else {
        (87 + n) as u8
    }
}

/// How one byte appears inside a JSON string: quote and backslash get a
/// backslash escape, the named control characters their short forms, other
/// control bytes a `\u00..` escape, everything else stands as itself.
pub open spec fn esc_byte(b: u8) -> Seq<u8> {
    if b == 34 {
        seq![92u8, 34u8]
    } else if b == 92 {
        seq![92u8, 92u8]
    } else if b == 8 {
        seq![92u8, 98u8]
    } else if b == 9 {
        seq![92u8, 116u8]
    } else if b == 10 {
        seq![92u8, 110u8]
    } else if b == 12 {
        seq![92u8, 102u8]
    } else if b == 13 {
        seq![92u8, 114u8]
    } else if b < 32 {
        seq![92u8, 117u8, 48u8, 48u8, hex_digit(b / 16), hex_digit(b % 16)]
    } else {
        seq![b]
    }
}

/// A byte sequence with every byte escaped for a JSON string.
pub open spec fn json_escaped(s: Seq<u8>) -> Seq<u8>
    decreases s.len(),
{
    if s.len() == 0 {
        Seq::empty()
    } else {
        json_escaped(s.drop_last()) + esc_byte(s.last())
    }
}

/// A quoted JSON string: the escaped bytes between two quotes.
pub open spec fn json_string(s: Seq<u8>) -> Seq<u8> {
    seq![34u8] + json_escaped(s) + seq![34u8]
}

/// An optional string: a quoted JSON string, or the JSON `null`.
pub open spec fn json_opt_string(o: Option<Seq<u8>>) -> Seq<u8> {
    match o {
        Some(s) => json_string(s),
        None => "null".spec_bytes(),
    }
}

/// One metadata member: quoted name, colon, quoted value.
pub open spec fn meta_pair(h: HeaderFieldView) -> Seq<u8> {
    json_string(h.name) + seq![58u8] + json_string(h.value)
}

/// The members of the metadata object, comma-separated, in order.
pub open spec fn meta_members(ms: Seq<HeaderFieldView>) -> Seq<u8>
    decreases ms.len(),
{
    if ms.len() == 0 {
        Seq::empty()
    } else if ms.len() == 1 {
        meta_pair(ms[0])
    } else {
        meta_members(ms.drop_last()) + seq![44u8] + meta_pair(ms.last())
    }
}

/// The bounce is permanent: its enhanced status code begins with `5`.
pub open spec fn is_permanent_status(status: Seq<u8>) -> bool {
    status.len() > 0 && status[0] == 53
}

/// The payload of one webhook call: a JSON object with the event kind, the
/// formatted timestamp, the original message's metadata, and the bounce
/// facts, `is_permanent` derived from the status code.
pub open spec fn payload_spec(info: MessageInfoView, bounce: BounceView, ts: Seq<u8>) -> Seq<u8> {
    "{\"event\":\"bounce\",\"timestamp\":".spec_bytes() + json_string(ts)
        + ",\"message_id\":".spec_bytes() + json_opt_string(info.message_id)
        + ",\"from\":".spec_bytes() + json_string(info.from) + ",\"subject\":".spec_bytes()
        + json_string(info.subject) + ",\"metadata\":{".spec_bytes() + meta_members(info.metadata)
        + "},\"email\":".spec_bytes() + json_string(bounce.recipient)
        + ",\"reason\":".spec_bytes() + json_string(bounce.reason) + ",\"status\":".spec_bytes()
        + json_string(bounce.status) + ",\"action\":".spec_bytes() + json_string(bounce.action)
        + ",\"is_permanent\":".spec_bytes() + (if is_permanent_status(bounce.status) {
        "true".spec_bytes()
    } else {
        "false".spec_bytes()
    }) + "}".spec_bytes()
}

/// The RFC 3339 rendering of a seconds-since-epoch timestamp, e.g.
/// `2024-05-01T12:00:00Z`.
pub uninterp spec fn rfc3339_of(ts: i64) -> Seq<u8>;

/// Relies on time's `OffsetDateTime::from_unix_timestamp` and the
/// `Rfc3339` well-known format: the rendering depends on the timestamp
/// alone, and a whole-second UTC timestamp up to year 9999 formats as the
/// twenty-character `YYYY-MM-DDThh:mm:ssZ`.
#[verifier::external_body]
pub fn format_rfc3339(ts: i64) -> (r: Vec<u8>)
    requires
        0 <= ts <= 253402300799,
    ensures
        r@ == rfc3339_of(ts),
        r@.len() == 20,
{
    let t = time::OffsetDateTime::from_unix_timestamp(ts).unwrap();
    t.format(&time::format_description::well_known::Rfc3339).unwrap().into_bytes()
}

fn hex_digit_exec(n: u8) -> (r: u8)
    requires
        n < 16,
    ensures
        r == hex_digit(n),
{
    if n < 10 {
        48 + n
    } else {
        87 + n
    }
}

/// Append `s` escaped and quoted, as [`json_string`] describes.
fn push_json_string(out: &mut Vec<u8>, s: &[u8])
    ensures
        final(out)@ == old(out)@ + json_string(s@),
{
    let ghost base = out@;
    out.push(34);
    let mut i: usize = 0;
    proof {
        assert(s@.take(0) =~= Seq::<u8>::empty());
        assert(out@ =~= base + seq![34u8] + json_escaped(s@.take(0)));
    }
    while i < s.len()
        invariant
            i <= s@.len(),
            out@ == base + seq![34u8] + json_escaped(s@.take(i as int)),
        decreases s@.len() - i,
    {
        let b = s[i];
        proof {
            assert(s@.take(i + 1).drop_last() =~= s@.take(i as int));
            assert(s@.take(i + 1).last() == s@[i as int]);
        }
        let ghost pre = out@;
        if b == 34 {
            out.push(92);
            out.push(34);
        } else if b == 92 {
            out.push(92);
            out.push(92);
        } else if b == 8 {
            out.push(92);
            out.push(98);
        } else if b == 9 {
            out.push(92);
            out.push(116);
        } else if b == 10 {
            out.push(92);
            out.push(110);
        } else if b == 12 {
            out.push(92);
            out.push(102);
        } else if b == 13 {
            out.push(92);
            out.push(114);
        } else if b < 32 {
            out.push(92);
            out.push(117);
            out.push(48);
            out.push(48);
            out.push(hex_digit_exec(b / 16));
            out.push(hex_digit_exec(b % 16));
        } else {
            out.push(b);
        }
        proof {
            assert(out@ =~= pre + esc_byte(s@[i as int]));
            assert(out@ =~= base + seq![34u8] + json_escaped(s@.take(i + 1)));
        }
        i += 1;
    }
    proof {
        assert(s@.take(s@.len() as int) =~= s@);
    }
    out.push(34);
    proof {
        assert(out@ =~= base + json_string(s@));
    }
}

fn push_lit(out: &mut Vec<u8>, s: &str)
    ensures
        final(out)@ == old(out)@ + s.spec_bytes(),
{
    out.extend_from_slice(s.as_bytes());
    proof {
        assert(out@ =~= old(out)@ + s.spec_bytes());
    }
}

/// Append the metadata members, as [`meta_members`] describes.
fn push_meta_members(out: &mut Vec<u8>, ms: &Vec<HeaderField>)
    ensures
        final(out)@ == old(out)@ + meta_members(ms@.map_values(|h: HeaderField| h@)),
{
    let ghost base = out@;
    let ghost mv = ms@.map_values(|h: HeaderField| h@);
    let mut i: usize = 0;
    proof {
        assert(mv.take(0) =~= Seq::<HeaderFieldView>::empty());
        assert(out@ =~= base + meta_members(mv.take(0)));
    }
    while i < ms.len()
        invariant
            i <= mv.len(),
            ms@.map_values(|h: HeaderField| h@) == mv,
            out@ == base + meta_members(mv.take(i as int)),
        decreases mv.len() - i,
    {
        proof {
            assert(ms@[i as int]@ == mv[i as int]);
            assert(mv.take(i + 1).drop_last() =~= mv.take(i as int));
            assert(mv.take(i + 1).last() == mv[i as int]);
        }
        let ghost pre = out@;
        if i > 0 {
            out.push(44);
        }
        push_json_string(out, ms[i].name.as_slice());
        out.push(58);
        push_json_string(out, ms[i].value.as_slice());
        proof {
            if i > 0 {
                assert(out@ =~= pre + seq![44u8] + meta_pair(mv[i as int]));
                assert(out@ =~= base + meta_members(mv.take(i + 1)));
            } else {
                assert(out@ =~= pre + meta_pair(mv[i as int]));
                assert(out@ =~= base + meta_members(mv.take(i + 1)));
            }
        }
        i += 1;
    }
    proof {
        assert(mv.take(mv.len() as int) =~= mv);
    }
}

/// Serialize the bounce event, as [`payload_spec`] describes.
pub fn build_payload(info: &MessageInfo, bounce: &BounceInfo, ts: &[u8]) -> (r: Vec<u8>)
    ensures
        r@ == payload_spec(info@, bounce@, ts@),
{
    let mut out: Vec<u8> = Vec::new();
    push_lit(&mut out, "{\"event\":\"bounce\",\"timestamp\":");
    push_json_string(&mut out, ts);
    push_lit(&mut out, ",\"message_id\":");
    match &info.message_id {
        Some(v) => push_json_string(&mut out, v.as_slice()),
        None => push_lit(&mut out, "null"),
    }
    push_lit(&mut out, ",\"from\":");
    push_json_string(&mut out, info.from.as_slice());
    push_lit(&mut out, ",\"subject\":");
    push_json_string(&mut out, info.subject.as_slice());
    push_lit(&mut out, ",\"metadata\":{");
    push_meta_members(&mut out, &info.metadata);
    push_lit(&mut out, "},\"email\":");
    push_json_string(&mut out, bounce.recipient.as_slice());
    push_lit(&mut out, ",\"reason\":");
    push_json_string(&mut out, bounce.reason.as_slice());
    push_lit(&mut out, ",\"status\":");
    push_json_string(&mut out, bounce.status.as_slice());
    push_lit(&mut out, ",\"action\":");
    push_json_string(&mut out, bounce.action.as_slice());
    push_lit(&mut out, ",\"is_permanent\":");
    let status = bounce.status.as_slice();
    if status.len() > 0 && status[0] == 53 {
        push_lit(&mut out, "true");
    } else {
        push_lit(&mut out, "false");
    }
    push_lit(&mut out, "}");
    proof {
        assert(out@ =~= payload_spec(info@, bounce@, ts@));
    }
    out
}

} // verus!
