use vstd::prelude::*;
use vstd::string::StrSliceExecFns;
use crate::envelope::{Envelope, EnvelopeModel, EnvelopeType, type_of_code};

verus! {

/// The value of the UUID written in `s`, or `None` when `s` is not a UUID.
pub uninterp spec fn uuid_of_text(s: Seq<char>) -> Option<u128>;

/// Relies on `uuid::Uuid::parse_str` and `Uuid::as_u128`: the UUID that the
/// text spells, as a number; an empty text is rejected by its length check.
#[verifier::external_body]
fn parse_uuid(s: &str) -> (r: Option<u128>)
    ensures
        r == uuid_of_text(s@),
        s@.len() == 0 ==> r is None,
{
    match uuid::Uuid::parse_str(s) {
        Ok(u) => Some(u.as_u128()),
        Err(_) => None,
    }
}

/// The identity of an account: its ACI, or its phone-number identity (PNI).
#[derive(Clone, Copy, Debug, PartialEq, Eq, Structural)]
pub enum ServiceId {
    Aci(u128),
    Pni(u128),
}

pub open spec fn pni_prefix() -> Seq<char> {
    seq!['P', 'N', 'I', ':']
}

/// The service id that `t` spells: `PNI:` and a UUID for a PNI, a bare UUID
/// for an ACI; `None` when it spells neither.
pub open spec fn service_id_of(t: Seq<char>) -> Option<ServiceId> {
    if t.len() >= 4 && t.subrange(0, 4) == pni_prefix() {
        match uuid_of_text(t.subrange(4, t.len() as int)) {
            Some(u) => Some(ServiceId::Pni(u)),
            None => None,
        }
    } else {
        match uuid_of_text(t) {
            Some(u) => Some(ServiceId::Aci(u)),
            None => None,
        }
    }
}

/// The text of an optional field, empty when absent.
pub open spec fn field_text(t: Option<Seq<char>>) -> Seq<char> {
    match t {
        Some(s) => s,
        None => Seq::empty(),
    }
}

/// Reads the service id in an optional text field.
pub fn parse_service_id(t: &Option<String>) -> (r: Option<ServiceId>)
    ensures
        r == service_id_of(field_text(crate::envelope::opt_text(*t))),
{
    let s = match t {
        Some(s) => s.clone(),
        None => String::new(),
    };
    let text = s.as_str();
    let n = text.unicode_len();
    if n >= 4 && text.get_char(0) == 'P' && text.get_char(1) == 'N' && text.get_char(2) == 'I'
        && text.get_char(3) == ':' {
        assert(text@.subrange(0, 4) =~= pni_prefix());
        let rest = text.substring_char(4, n);
        match parse_uuid(rest) {
            Some(u) => Some(ServiceId::Pni(u)),
            None => None,
        }
    } else {
        proof {
            if text@.len() >= 4 && text@.subrange(0, 4) == pni_prefix() {
                assert(text@[0] == text@.subrange(0, 4)[0]);
                assert(text@[1] == text@.subrange(0, 4)[1]);
                assert(text@[2] == text@.subrange(0, 4)[2]);
                assert(text@[3] == text@.subrange(0, 4)[3]);
            }
        }
        match parse_uuid(text) {
            Some(u) => Some(ServiceId::Aci(u)),
            None => None,
        }
    }
}

/// What is reported of a message once it has left its queue.
pub struct RemovedMessage {
    pub src_service_id: Option<ServiceId>,
    pub dst_service_id: Option<ServiceId>,
    /// The guid read as a UUID (0 when it is not one).
    pub server_guid: u128,
    /// The guid as the envelope carries it.
    pub server_guid_text: String,
    pub server_time_stamp: u64,
    pub client_time_stamp: u64,
    pub envelope_type: EnvelopeType,
}

pub ghost struct RemovedModel {
    pub src_service_id: Option<ServiceId>,
    pub dst_service_id: Option<ServiceId>,
    pub server_guid: u128,
    pub server_guid_text: Seq<char>,
    pub server_time_stamp: u64,
    pub client_time_stamp: u64,
    pub envelope_type: EnvelopeType,
}

impl View for RemovedMessage {
    type V = RemovedModel;

    open spec fn view(&self) -> RemovedModel {
        RemovedModel {
            src_service_id: self.src_service_id,
            dst_service_id: self.dst_service_id,
            server_guid: self.server_guid,
            server_guid_text: self.server_guid_text@,
            server_time_stamp: self.server_time_stamp,
            client_time_stamp: self.client_time_stamp,
            envelope_type: self.envelope_type,
        }
    }
}

/// The report on envelope `e`, given what its source and destination ids and
/// its guid read as (a guid that is no UUID reads as nil, 0).
pub open spec fn removed_of(
    e: EnvelopeModel,
    src: Option<ServiceId>,
    dst: Option<ServiceId>,
    guid: Option<u128>,
) -> RemovedModel {
    RemovedModel {
        src_service_id: src,
        dst_service_id: dst,
        server_guid: match guid {
            Some(g) => g,
            None => 0,
        },
        server_guid_text: e.guid(),
        server_time_stamp: e.stamp(),
        client_time_stamp: match e.client_timestamp {
            Some(t) => t,
            None => 0,
        },
        envelope_type: type_of_code(e.envelope_type),
    }
}

/// The report on envelope `e`, its ids read as service ids and its guid as a UUID.
pub open spec fn report_of(e: EnvelopeModel) -> RemovedModel {
    removed_of(
        e,
        service_id_of(field_text(e.source_service_id)),
        service_id_of(field_text(e.destination_service_id)),
        uuid_of_text(e.guid()),
    )
}

impl PartialEq for RemovedMessage {
    fn eq(&self, o: &RemovedMessage) -> (r: bool) {
        self.src_service_id == o.src_service_id && self.dst_service_id == o.dst_service_id
            && self.server_guid == o.server_guid && self.server_guid_text == o.server_guid_text && self.server_time_stamp
            == o.server_time_stamp && self.client_time_stamp == o.client_time_stamp
            && self.envelope_type == o.envelope_type
    }
}

impl vstd::std_specs::cmp::PartialEqSpecImpl for RemovedMessage {
    open spec fn obeys_eq_spec() -> bool {
        true
    }

    open spec fn eq_spec(&self, o: &RemovedMessage) -> bool {
        self@ == o@
    }
}

impl RemovedMessage {
    /// The report on `envelope`, given what its source and destination ids and
    /// its guid read as.
    pub fn from_parts(
        envelope: &Envelope,
        src: Option<ServiceId>,
        dst: Option<ServiceId>,
        guid: Option<u128>,
    ) -> (r: RemovedMessage)
        ensures
            r@ == removed_of(envelope@, src, dst, guid),
    {
        RemovedMessage {
            src_service_id: src,
            dst_service_id: dst,
            server_guid: match guid {
                Some(g) => g,
                None => 0,
            },
            server_guid_text: envelope.guid(),
            server_time_stamp: match envelope.server_timestamp {
                Some(t) => t,
                None => 0,
            },
            client_time_stamp: match envelope.client_timestamp {
                Some(t) => t,
                None => 0,
            },
            envelope_type: EnvelopeType::from_code(envelope.envelope_type),
        }
    }

    /// The report on `envelope`: its ids read as service ids, its guid as a UUID.
    pub fn from_envelope(envelope: Envelope) -> (r: RemovedMessage)
        ensures
            r@ == report_of(envelope@),
    {
        let src = parse_service_id(&envelope.source_service_id);
        let dst = parse_service_id(&envelope.destination_service_id);
        let g = envelope.guid();
        let guid = parse_uuid(g.as_str());
        RemovedMessage::from_parts(&envelope, src, dst, guid)
    }
}

} // verus!
