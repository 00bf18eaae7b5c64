//! Messages as they are built and judged: laws of the operations themselves.
use vstd::prelude::*;

use crate::bytes::{be_value, lemma_be_len};
use crate::config::{Config, Peer};
use crate::net::IpNet;
use crate::wire::decode::{announced_in, unpacked, update_prefixes};
use crate::wire::encode::{batch_ok, next_hop_known, update, update_body};
use crate::wire::error::{Error, Fault, ProtocolError};
use crate::wire::frame::{
    check_header, end_of_rib, end_of_rib_body, frame, header, law_fragments_are_put_together,
    length_fits, message, notification, notification_body, read_frame, Frame,
};
use crate::wire::open::Negotiated;
use crate::wire::parts::{packed_octets, parts_fit, parts_octets, Packed, Part};
use crate::wire::received::{
    is_fatal, is_lacking, is_left_out, is_reachable, is_spoiled,
    law_announced_prefixes_are_gathered, law_update_is_judged_by_its_attributes, update_fits,
    update_octets,
};
use crate::wire::sent::{
    attributes_in, carried, law_announcement_carries_the_local_asn, law_header_is_checked,
    law_message_is_framed, law_notification_holds_its_data, law_refresh_names_an_exchanged_family,
};
use crate::wire::validate::{refresh_family, validate_update, UpdateAction};

verus! {

/// What is built is a whole message of its kind: a frame of any, a NOTIFICATION, the mark
/// for the end of the announcements.
pub proof fn law_messages_are_built(
    kind: u8,
    body: &[u8],
    framed: Vec<u8>,
    code: u8,
    subcode: u8,
    data: &[u8],
    told: Vec<u8>,
    v6: bool,
    mark: Vec<u8>,
)
    requires
        body@.len() + 19 <= 4096,
        call_ensures(frame, (kind, body), framed),
        call_ensures(notification, (code, subcode, data), told),
        call_ensures(end_of_rib, (v6,), mark),
    ensures
        framed@.len() == body@.len() + 19 && framed@[18] == kind && framed@.skip(19) == body@,
        framed@[16] * 256 + framed@[17] == body@.len() + 19,
        told@[18] == 3 && told@[19] == code && told@[20] == subcode,
        told@.len() <= 4096,
        data@.len() <= 4075 ==> told@.skip(21) == data@,
        data@.len() > 4075 ==> told@.skip(21) == data@.take(4075),
        !v6 ==> mark@.skip(18) == seq![2u8, 0, 0, 0, 0],
        v6 ==> mark@.skip(18) == seq![2u8, 0, 0, 0, 6, 0x80, 15, 3, 0, 2, 1],
{
    law_message_is_framed(kind, body@, 0);
    let b = notification_body(code, subcode, data@);
    law_notification_holds_its_data(code, subcode, data@, 0);
    law_message_is_framed(3, b, 0);
    assert(told@.skip(19) =~= b);
    assert(told@[19] == told@.skip(19)[0] && told@[20] == told@.skip(19)[1]);
    let kept = if data@.len() <= 4075 {
        data@
    } else {
        data@.take(4075)
    };
    assert forall|k: int| 0 <= k < kept.len() implies told@.skip(21)[k] == kept[k] by {
        law_notification_holds_its_data(code, subcode, data@, k);
        assert(told@.skip(21)[k] == told@.skip(19)[2 + k]);
    }
    assert(told@.skip(21) =~= kept);
    let body = end_of_rib_body(v6);
    law_message_is_framed(2, body, 0);
    assert(mark@.skip(19) =~= body);
    if v6 {
        assert(mark@.skip(18) =~= seq![2u8, 0, 0, 0, 6, 0x80, 15, 3, 0, 2, 1]);
    } else {
        assert(mark@.skip(18) =~= seq![2u8, 0, 0, 0, 0]);
    }
}

/// An UPDATE is one message that holds the prefixes of its batch.
pub proof fn law_update_is_one_message(
    cfg: &Config,
    p: &Peer,
    n: &Negotiated,
    prefixes: &[IpNet],
    withdraw: bool,
    r: Vec<u8>,
)
    requires
        call_ensures(update, (cfg, p, n, prefixes, withdraw), r),
    ensures
        r@.len() <= 4096 && r@[18] == 2,
        r@.skip(19) == update_body(*cfg, *p, *n, prefixes@, withdraw),
{
    let b = update_body(*cfg, *p, *n, prefixes@, withdraw);
    lemma_be_len(19 + b.len(), 2);
    assert(r@.skip(19) =~= b);
}

/// A header is taken for the type and length that it gives, or refused.
pub proof fn law_header_is_read(h: &[u8], r: Result<(u8, usize), ProtocolError>)
    requires
        h@.len() == 19,
        call_ensures(check_header, (h,), r),
    ensures
        r matches Ok((kind, len)) ==> kind == h@[18] && len + 19 == h@[16] * 256 + h@[17]
            && len + 19 <= 4096 && 1 <= kind <= 5 && forall|i: int| 0 <= i < 16 ==> #[trigger] h@[i] == 255,
        r matches Err(e) ==> e.code == 1 && header(h@) == Err::<(u8, nat), Fault>(e@),
        r is Ok <==> header(h@) is Ok,
{
    law_header_is_checked(h@);
}

/// Every announcement towards another AS carries a path of one ASN, the local one, and
/// every announcement inside the AS carries none and a local preference of 100.
pub proof fn law_update_carries_the_local_asn(
    cfg: &Config,
    p: &Peer,
    n: &Negotiated,
    prefixes: &[IpNet],
    r: Vec<u8>,
)
    requires
        call_ensures(update, (cfg, p, n, prefixes, false), r),
        batch_ok(prefixes@),
        next_hop_known(*p, prefixes@[0].addr is V6, false),
    ensures
        ({
            let a = attributes_in(r@.skip(19));
            &&& cfg.asn == p.remote_asn ==> carried(a, 2) == Some((0x40u8, Seq::<u8>::empty()))
                && carried(a, 5) == Some((0x40u8, seq![0u8, 0, 0, 100]))
            &&& cfg.asn != p.remote_asn ==> carried(a, 5) is None && (carried(a, 2) matches Some(
                (flags, path),
            ) && flags == 0x40 && path[0] == 2 && path[1] == 1 && (if n.asn4 {
                path.len() == 6 && be_value(path.skip(2)) == cfg.asn
            } else {
                path.len() == 4 && be_value(path.skip(2)) == if cfg.asn <= 65535 {
                    cfg.asn as int
                } else {
                    23456
                }
            }))
        }),
{
    law_update_is_one_message(cfg, p, n, prefixes, false, r);
    law_announcement_carries_the_local_asn(*cfg, *p, *n, prefixes@);
}

/// A whole UPDATE is judged by its attributes: it is valid where none is fatal, wrong,
/// lacking or left out, whatever else it holds.
pub proof fn law_update_is_validated(
    b: &[u8],
    n: &Negotiated,
    r: Result<UpdateAction, ProtocolError>,
    gone: Seq<Packed>,
    s: Seq<Part>,
    told: Seq<Packed>,
)
    requires
        call_ensures(validate_update, (b, n), r),
        parts_fit(s),
        update_fits(gone, parts_octets(s), told),
        b@ == update_octets(gone, parts_octets(s), told),
    ensures
        ({
            let fatal = exists|i: int| 0 <= i < s.len() && #[trigger] is_fatal(*n, s, i);
            let spoiled = exists|i: int| 0 <= i < s.len() && #[trigger] is_spoiled(*n, s, i);
            let left_out = exists|i: int| 0 <= i < s.len() && #[trigger] is_left_out(*n, s, i);
            let lost = spoiled || is_lacking(*n, s, told);
            &&& r is Err <==> fatal || (lost && !is_reachable(s, told))
            &&& r matches Err(e) ==> e.code == 3
            &&& r is Ok ==> (r == Ok::<UpdateAction, ProtocolError>(UpdateAction::TreatAsWithdraw)
                <==> lost)
            &&& r == Ok::<UpdateAction, ProtocolError>(UpdateAction::AttributeDiscard) <==> !fatal
                && !lost && left_out
            &&& r == Ok::<UpdateAction, ProtocolError>(UpdateAction::Valid) <==> !fatal && !lost
                && !left_out
        }),
{
    law_update_is_judged_by_its_attributes(*n, gone, s, told);
}

/// A refresh is understood where it names unicast of a family that is exchanged, and is
/// no refresh at all where it is not of four octets.
pub proof fn law_refresh_is_understood(b: &[u8], n: &Negotiated, r: Result<Option<bool>, Error>)
    requires
        call_ensures(refresh_family, (b, n), r),
    ensures
        r is Ok <==> b@.len() == 4,
        r matches Err(e) ==> e is Other,
        b@.len() == 4 ==> {
            &&& r == Ok::<Option<bool>, Error>(Some(false)) <==> b@ == seq![0u8, 1, 0, 1] && n.ipv4
            &&& r == Ok::<Option<bool>, Error>(Some(true)) <==> b@ == seq![0u8, 2, 0, 1] && n.ipv6
        },
{
    if b@.len() == 4 {
        law_refresh_names_an_exchanged_family(b@, *n);
    }
}

/// A message is read back from its octets, however many of them have come: what is
/// missing is asked for, the header first, and the whole gives its type and its body.
pub proof fn law_message_is_read_back(
    b: &[u8],
    r: Result<Frame, ProtocolError>,
    kind: u8,
    body: Seq<u8>,
)
    requires
        call_ensures(read_frame, (b,), r),
        body.len() + 19 <= 4096,
        1 <= kind <= 5,
        length_fits(kind, body.len() + 19),
        b@.len() <= body.len() + 19,
        b@ == message(kind, body).take(b@.len() as int),
    ensures
        b@.len() < 19 ==> (r matches Ok(Frame::Needs(n)) && n == 19 - b@.len()),
        19 <= b@.len() < body.len() + 19 ==> (r matches Ok(Frame::Needs(n)) && n + b@.len()
            == body.len() + 19),
        b@.len() == body.len() + 19 ==> (r matches Ok(Frame::Complete(k, v)) && k == kind && v@
            == body),
{
    law_message_is_framed(kind, body, 0);
    law_fragments_are_put_together(kind, body, b@.len() as int);
}

/// The prefixes that an UPDATE announces are those after its attributes, and then those
/// that its attributes announce. What it withdraws is not among them.
pub proof fn law_prefixes_of_an_update(
    b: &[u8],
    r: Vec<IpNet>,
    gone: Seq<Packed>,
    s: Seq<Part>,
    told: Seq<Packed>,
)
    requires
        call_ensures(update_prefixes, (b,), r),
        parts_fit(s),
        update_fits(gone, parts_octets(s), told),
        b@ == update_octets(gone, parts_octets(s), told),
    ensures
        r@ == unpacked(packed_octets(told), false) + announced_in(parts_octets(s)),
        s.len() == 0 ==> r@ == unpacked(packed_octets(told), false),
{
    law_announced_prefixes_are_gathered(gone, s, told);
    if s.len() == 0 {
        assert(parts_octets(s) =~= Seq::<u8>::empty());
        assert(announced_in(parts_octets(s)) =~= Seq::<IpNet>::empty());
        assert(unpacked(packed_octets(told), false) + Seq::<IpNet>::empty() =~= unpacked(
            packed_octets(told),
            false,
        ));
    }
}

} // verus!
