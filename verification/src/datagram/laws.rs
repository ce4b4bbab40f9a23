//! What headers and datagrams are taken for.

use crate::datagram::{
    capsule_conflict, decimal, decimal_value, digits_of, flow_id, flow_id_of, h3_dgram, is_digit,
    is_enough, is_relevant_count, last_value, lemma_relevant, relevant, HeaderView,
    CAPSULE_PROTOCOL_HEADER_NAME, CAPSULE_PROTOCOL_HEADER_VALUE, CONNECT_METHOD,
    CONNECT_UDP_METHOD, CONNECT_UDP_PROTOCOL, CONTENT_LENGTH, CONTENT_TYPE, DATAGRAM_FLOW_ID,
    METHOD, PROTOCOL, TRANSFER_ENCODING,
};
use crate::error::Error;
use crate::varint::varint_at;
use vstd::prelude::*;

verus! {

/// Whether bytes are those of a text.
pub open spec fn spells(b: Seq<u8>, text: Seq<char>) -> bool {
    &&& b.len() == text.len()
    &&& forall|i: int| 0 <= i < b.len() ==> #[trigger] b[i] as int == text[i] as int
}

/// The names and values that are looked for in headers are these texts.
pub proof fn law_header_texts()
    ensures
        spells(CAPSULE_PROTOCOL_HEADER_NAME@, "capsule-protocol"@),
        spells(CAPSULE_PROTOCOL_HEADER_VALUE@, "?1"@),
        spells(CONTENT_LENGTH@, "content-length"@),
        spells(CONTENT_TYPE@, "content-type"@),
        spells(TRANSFER_ENCODING@, "transfer-encoding"@),
        spells(METHOD@, ":method"@),
        spells(PROTOCOL@, ":protocol"@),
        spells(DATAGRAM_FLOW_ID@, "datagram-flow-id"@),
        spells(CONNECT_UDP_METHOD@, "CONNECT-UDP"@),
        spells(CONNECT_METHOD@, "CONNECT"@),
        spells(CONNECT_UDP_PROTOCOL@, "connect-udp"@),
{
    reveal_strlit("capsule-protocol");
    reveal_strlit("?1");
    reveal_strlit("content-length");
    reveal_strlit("content-type");
    reveal_strlit("transfer-encoding");
    reveal_strlit(":method");
    reveal_strlit(":protocol");
    reveal_strlit("datagram-flow-id");
    reveal_strlit("CONNECT-UDP");
    reveal_strlit("CONNECT");
    reveal_strlit("connect-udp");
}

/// Whether the header at `i` is the last one with its name.
pub open spec fn is_last(hs: Seq<HeaderView>, i: int) -> bool {
    &&& 0 <= i < hs.len()
    &&& forall|j: int| i < j < hs.len() ==> (#[trigger] hs[j]).name != hs[i].name
}

/// Whether the header at `i` is the only one with its name.
pub open spec fn is_only(hs: Seq<HeaderView>, i: int) -> bool {
    &&& 0 <= i < hs.len()
    &&& forall|j: int| 0 <= j < hs.len() && j != i ==> (#[trigger] hs[j]).name != hs[i].name
}

/// Whether no header has a name.
pub open spec fn is_absent(hs: Seq<HeaderView>, name: Seq<u8>) -> bool {
    forall|j: int| 0 <= j < hs.len() ==> (#[trigger] hs[j]).name != name
}

/// Of several headers with one name the last one counts.
pub proof fn law_last_header_counts(hs: Seq<HeaderView>, i: int)
    requires
        is_last(hs, i),
    ensures
        last_value(hs, hs[i].name) == Some(hs[i].value),
    decreases hs.len(),
{
    if i < hs.len() - 1 {
        let front = hs.drop_last();
        assert(hs[hs.len() - 1].name != hs[i].name);
        assert(is_last(front, i));
        law_last_header_counts(front, i);
    }
}

/// A header that is not there has no value.
pub proof fn law_absent_header_has_no_value(hs: Seq<HeaderView>, name: Seq<u8>)
    requires
        is_absent(hs, name),
    ensures
        last_value(hs, name) is None,
    decreases hs.len(),
{
    if hs.len() > 0 {
        assert(hs[hs.len() - 1].name != name);
        assert(is_absent(hs.drop_last(), name)) by {
            assert forall|j: int| 0 <= j < hs.drop_last().len() implies (
            #[trigger] hs.drop_last()[j]).name != name by {
                assert(hs.drop_last()[j] == hs[j]);
            }
        }
        law_absent_header_has_no_value(hs.drop_last(), name);
    }
}

/// What has a value is among the headers.
proof fn lemma_present(hs: Seq<HeaderView>, name: Seq<u8>) -> (i: int)
    requires
        last_value(hs, name) is Some,
    ensures
        is_last(hs, i),
        hs[i].name == name,
        last_value(hs, name) == Some(hs[i].value),
    decreases hs.len(),
{
    if hs.last().name == name {
        hs.len() - 1
    } else {
        let i = lemma_present(hs.drop_last(), name);
        assert forall|j: int| i < j < hs.len() implies (#[trigger] hs[j]).name != hs[i].name by {
            if j < hs.len() - 1 {
                assert(hs.drop_last()[j] == hs[j]);
            }
        }
        i
    }
}

/// A header that describes content may not come together with the use of the Capsule
/// Protocol, in whatever order they come.
pub proof fn law_content_conflicts_with_capsules(hs: Seq<HeaderView>, i: int, j: int)
    requires
        is_last(hs, i),
        hs[i].name == CAPSULE_PROTOCOL_HEADER_NAME@,
        hs[i].value == CAPSULE_PROTOCOL_HEADER_VALUE@,
        0 <= j < hs.len(),
        hs[j].name == CONTENT_LENGTH@ || hs[j].name == CONTENT_TYPE@ || hs[j].name
            == TRANSFER_ENCODING@,
    ensures
        capsule_conflict(hs),
{
    law_last_header_counts(hs, i);
    assert(crate::datagram::is_forbidden(hs[j].name));
}

/// There is no conflict where no header describes content, nor where the Capsule Protocol
/// is not mentioned, nor where the last header for it has another value.
pub proof fn law_no_conflict(hs: Seq<HeaderView>, i: int)
    ensures
        is_absent(hs, CONTENT_LENGTH@) && is_absent(hs, CONTENT_TYPE@) && is_absent(
            hs,
            TRANSFER_ENCODING@,
        ) ==> !capsule_conflict(hs),
        is_absent(hs, CAPSULE_PROTOCOL_HEADER_NAME@) ==> !capsule_conflict(hs),
        is_last(hs, i) && hs[i].name == CAPSULE_PROTOCOL_HEADER_NAME@ && hs[i].value
            != CAPSULE_PROTOCOL_HEADER_VALUE@ ==> !capsule_conflict(hs),
{
    if is_absent(hs, CAPSULE_PROTOCOL_HEADER_NAME@) {
        law_absent_header_has_no_value(hs, CAPSULE_PROTOCOL_HEADER_NAME@);
    }
    if is_last(hs, i) {
        law_last_header_counts(hs, i);
    }
}

/// One digit is its value, and none or a plus sign alone is no number.
pub proof fn law_decimal_digit(d: u8)
    ensures
        decimal(Seq::empty()) is None,
        decimal(seq![43u8]) is None,
        48 <= d <= 57 ==> decimal(seq![d]) == Some((d - 48) as u64),
        !(48 <= d <= 57) ==> decimal(seq![d]) is None,
{
    let s = seq![d];
    assert(seq![43u8].skip(1) =~= Seq::empty());
    assert(s.drop_last() =~= Seq::empty());
    assert(digits_of(s).len() > 0 ==> digits_of(s) == s);
    reveal_with_fuel(decimal_value, 2);
    if !(48 <= d <= 57) && digits_of(s).len() > 0 {
        assert(!is_digit(digits_of(s)[0]));
    }
}

/// A digit more is ten times the number and the digit, where that is still a 64-bit number;
/// anything else after a number makes it none.
pub proof fn law_decimal_grows(s: Seq<u8>, d: u8, v: u64)
    requires
        decimal(s) == Some(v),
    ensures
        48 <= d <= 57 && v * 10 + (d - 48) <= u64::MAX ==> decimal(s.push(d)) == Some(
            (v * 10 + (d - 48)) as u64,
        ),
        48 <= d <= 57 && v * 10 + (d - 48) > u64::MAX ==> decimal(s.push(d)) is None,
        !(48 <= d <= 57) ==> decimal(s.push(d)) is None,
{
    let ds = digits_of(s);
    let t = digits_of(s.push(d));
    assert(t =~= ds.push(d));
    assert(t.drop_last() =~= ds);
    assert(t.last() == d);
    if 48 <= d <= 57 {
        assert forall|i: int| 0 <= i < t.len() implies is_digit(#[trigger] t[i]) by {
            if i < ds.len() {
                assert(t[i] == ds[i]);
            }
        }
    } else {
        assert(!is_digit(t[ds.len() as int]));
    }
}

/// What is no number is none with more after it, but for nothing and for a plus sign.
pub proof fn law_no_number_stays_none(s: Seq<u8>, d: u8)
    requires
        s.len() > 0,
        s != seq![43u8],
        decimal(s) is None,
    ensures
        decimal(s.push(d)) is None,
{
    let ds = digits_of(s);
    let t = digits_of(s.push(d));
    if s[0] == 43 && ds.len() == 0 {
        assert(s =~= seq![43u8]);
    }
    assert(ds.len() > 0);
    assert(t =~= ds.push(d));
    assert(t.drop_last() =~= ds);
    if exists|i: int| 0 <= i < ds.len() && !is_digit(#[trigger] ds[i]) {
        let i = choose|i: int| 0 <= i < ds.len() && !is_digit(#[trigger] ds[i]);
        assert(!is_digit(t[i]));
    } else {
        assert(decimal_value(ds) > u64::MAX);
        if is_digit(d) {
            assert(decimal_value(t) >= decimal_value(ds) * 10);
        } else {
            assert(!is_digit(t[ds.len() as int]));
        }
    }
}

/// A plus sign in front of a number changes nothing.
pub proof fn law_plus_sign_changes_nothing(s: Seq<u8>)
    requires
        s.len() > 0,
        s[0] != 43,
    ensures
        decimal(seq![43u8] + s) == decimal(s),
{
    assert((seq![43u8] + s).skip(1) =~= s);
}

/// The headers that are looked at.
proof fn lemma_looked_at(hs: Seq<HeaderView>) -> (n: int)
    ensures
        0 <= n <= hs.len(),
        relevant(hs) == hs.take(n),
        n < hs.len() ==> is_enough(hs.take(n)),
{
    let n = lemma_first_enough(hs, 0);
    lemma_relevant(hs, n);
    n
}

/// The shortest start from `k` on that tells enough.
proof fn lemma_first_enough(hs: Seq<HeaderView>, k: int) -> (n: int)
    requires
        0 <= k <= hs.len(),
        forall|j: int| 0 <= j < k ==> !#[trigger] is_enough(hs.take(j)),
    ensures
        is_relevant_count(hs, n),
    decreases hs.len() - k,
{
    if k == hs.len() || is_enough(hs.take(k)) {
        k
    } else {
        lemma_first_enough(hs, k + 1)
    }
}

/// The only header with a name has its value wherever it is looked at.
proof fn lemma_only(hs: Seq<HeaderView>, i: int, n: int)
    requires
        is_only(hs, i),
        0 <= n <= hs.len(),
    ensures
        i < n ==> last_value(hs.take(n), hs[i].name) == Some(hs[i].value),
        i >= n ==> last_value(hs.take(n), hs[i].name) is None,
{
    let t = hs.take(n);
    if i < n {
        assert(is_last(t, i));
        law_last_header_counts(t, i);
    } else {
        assert forall|j: int| 0 <= j < t.len() implies (#[trigger] t[j]).name != hs[i].name by {
            assert(t[j] == hs[j]);
        }
        law_absent_header_has_no_value(t, hs[i].name);
    }
}

/// The flow ID of a CONNECT-UDP request is the number in its header for it.
pub proof fn law_connect_udp_names_its_flow(
    stream_id: u64,
    hs: Seq<HeaderView>,
    i: int,
    j: int,
    v: u64,
)
    requires
        is_only(hs, i),
        hs[i].name == METHOD@,
        hs[i].value == CONNECT_UDP_METHOD@,
        is_only(hs, j),
        hs[j].name == DATAGRAM_FLOW_ID@,
        decimal(hs[j].value) == Some(v),
        is_absent(hs, PROTOCOL@),
    ensures
        flow_id(stream_id, hs) == Some(v),
{
    let n = lemma_looked_at(hs);
    let rs = hs.take(n);
    lemma_only(hs, i, n);
    lemma_only(hs, j, n);
    assert forall|k: int| 0 <= k < rs.len() implies (#[trigger] rs[k]).name != PROTOCOL@ by {
        assert(rs[k] == hs[k]);
    }
    law_absent_header_has_no_value(rs, PROTOCOL@);
    assert(i < n && j < n);
}

/// The flow ID of an extended CONNECT request for UDP is a quarter of its stream ID.
pub proof fn law_extended_connect_uses_its_stream(
    stream_id: u64,
    hs: Seq<HeaderView>,
    i: int,
    j: int,
)
    requires
        is_only(hs, i),
        hs[i].name == METHOD@,
        hs[i].value == CONNECT_METHOD@,
        is_only(hs, j),
        hs[j].name == PROTOCOL@,
        hs[j].value == CONNECT_UDP_PROTOCOL@,
        is_absent(hs, DATAGRAM_FLOW_ID@),
    ensures
        flow_id(stream_id, hs) == Some((stream_id / 4) as u64),
{
    let n = lemma_looked_at(hs);
    let rs = hs.take(n);
    lemma_only(hs, i, n);
    lemma_only(hs, j, n);
    assert forall|k: int| 0 <= k < rs.len() implies (#[trigger] rs[k]).name
        != DATAGRAM_FLOW_ID@ by {
        assert(rs[k] == hs[k]);
    }
    law_absent_header_has_no_value(rs, DATAGRAM_FLOW_ID@);
    assert(i < n && j < n);
    assert(CONNECT_METHOD@.len() == 7 && CONNECT_UDP_METHOD@.len() == 11);
}

/// Whether a header with a name and a value is there.
pub open spec fn is_there(hs: Seq<HeaderView>, name: Seq<u8>, value: Seq<u8>) -> bool {
    exists|i: int| 0 <= i < hs.len() && (#[trigger] hs[i]).name == name && hs[i].value == value
}

/// Whether a header for the flow ID spells a number.
pub open spec fn tells_flow(hs: Seq<HeaderView>, id: u64) -> bool {
    exists|i: int|
        0 <= i < hs.len() && (#[trigger] hs[i]).name == DATAGRAM_FLOW_ID@ && decimal(hs[i].value)
            == Some(id)
}

/// A flow ID comes from nowhere else: it is a quarter of the stream ID of a CONNECT request
/// for UDP, or the number that a header of a CONNECT-UDP request spells.
pub proof fn law_flow_ids_belong_to_requests(stream_id: u64, hs: Seq<HeaderView>)
    ensures
        flow_id(stream_id, hs) matches Some(id) ==> {
            ||| is_there(hs, METHOD@, CONNECT_UDP_METHOD@) && tells_flow(hs, id)
            ||| is_there(hs, METHOD@, CONNECT_METHOD@) && is_there(
                hs,
                PROTOCOL@,
                CONNECT_UDP_PROTOCOL@,
            ) && id == stream_id / 4
        },
{
    if let Some(id) = flow_id(stream_id, hs) {
        let n = lemma_looked_at(hs);
        let rs = hs.take(n);
        let m = lemma_present(rs, METHOD@);
        assert(rs[m] == hs[m]);
        if last_value(rs, METHOD@) == Some(CONNECT_UDP_METHOD@) && flow_id_of(rs) is Some {
            let k = lemma_present(rs, DATAGRAM_FLOW_ID@);
            assert(rs[k] == hs[k]);
            assert(is_there(hs, METHOD@, CONNECT_UDP_METHOD@));
            assert(tells_flow(hs, id));
        } else {
            let k = lemma_present(rs, PROTOCOL@);
            assert(rs[k] == hs[k]);
            assert(is_there(hs, METHOD@, CONNECT_METHOD@));
        }
    }
}

/// A received datagram starts with its flow ID, which is below 2^60; one that ends before
/// its flow ID does, or whose flow ID is larger, is invalid.
pub proof fn law_received_datagram(s: Seq<u8>)
    ensures
        varint_at(s) is None ==> h3_dgram(s) == Err::<(u64, Seq<u8>), Error>(Error::InvalidFrame),
        varint_at(s) matches Some((v, n)) ==> {
            &&& v >= 0x1000_0000_0000_0000 ==> h3_dgram(s) == Err::<(u64, Seq<u8>), Error>(
                Error::InvalidFrame,
            )
            &&& v < 0x1000_0000_0000_0000 ==> h3_dgram(s) == Ok::<(u64, Seq<u8>), Error>(
                (v, s.skip(n as int)),
            )
        },
{
}

} // verus!
