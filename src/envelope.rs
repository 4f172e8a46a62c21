use vstd::prelude::*;

verus! {

/// The kind of an envelope, as carried in its numeric type code.
#[derive(Clone, Copy, Debug, PartialEq, Eq, Structural)]
pub enum EnvelopeType {
    Unknown,
    Ciphertext,
    KeyExchange,
    PrekeyBundle,
    Receipt,
    UnidentifiedSender,
    PlaintextContent,
}

pub open spec fn type_of_code(code: Option<i32>) -> EnvelopeType {
    match code {
        Some(1) => EnvelopeType::Ciphertext,
        Some(2) => EnvelopeType::KeyExchange,
        Some(3) => EnvelopeType::PrekeyBundle,
        Some(5) => EnvelopeType::Receipt,
        Some(6) => EnvelopeType::UnidentifiedSender,
        Some(8) => EnvelopeType::PlaintextContent,
        _ => EnvelopeType::Unknown,
    }
}

impl EnvelopeType {
    /// The type named by a code; an absent or unknown code is `Unknown`.
    pub fn from_code(code: Option<i32>) -> (r: EnvelopeType)
        ensures
            r == type_of_code(code),
    {
        match code {
            Some(1) => EnvelopeType::Ciphertext,
            Some(2) => EnvelopeType::KeyExchange,
            Some(3) => EnvelopeType::PrekeyBundle,
            Some(5) => EnvelopeType::Receipt,
            Some(6) => EnvelopeType::UnidentifiedSender,
            Some(8) => EnvelopeType::PlaintextContent,
            _ => EnvelopeType::Unknown,
        }
    }
}

/// An opaque encrypted message with its routing metadata.
pub struct Envelope {
    pub envelope_type: Option<i32>,
    pub source_service_id: Option<String>,
    pub source_device: Option<u32>,
    pub client_timestamp: Option<u64>,
    pub content: Option<Vec<u8>>,
    pub server_guid: Option<String>,
    pub server_timestamp: Option<u64>,
    pub ephemeral: Option<bool>,
    pub destination_service_id: Option<String>,
    pub urgent: Option<bool>,
    pub updated_pni: Option<String>,
    pub story: Option<bool>,
    pub report_spam_token: Option<Vec<u8>>,
    pub shared_mrm_key: Option<Vec<u8>>,
}

/// The mathematical value of an envelope: every field, with text and bytes as sequences.
pub ghost struct EnvelopeModel {
    pub envelope_type: Option<i32>,
    pub source_service_id: Option<Seq<char>>,
    pub source_device: Option<u32>,
    pub client_timestamp: Option<u64>,
    pub content: Option<Seq<u8>>,
    pub server_guid: Option<Seq<char>>,
    pub server_timestamp: Option<u64>,
    pub ephemeral: Option<bool>,
    pub destination_service_id: Option<Seq<char>>,
    pub urgent: Option<bool>,
    pub updated_pni: Option<Seq<char>>,
    pub story: Option<bool>,
    pub report_spam_token: Option<Seq<u8>>,
    pub shared_mrm_key: Option<Seq<u8>>,
}

impl EnvelopeModel {
    /// The guid that identifies the envelope in a queue; an absent guid is empty.
    pub open spec fn guid(self) -> Seq<char> {
        match self.server_guid {
            Some(g) => g,
            None => Seq::empty(),
        }
    }
}

impl EnvelopeModel {
    /// The server timestamp, 0 when absent.
    pub open spec fn stamp(self) -> u64 {
        match self.server_timestamp {
            Some(t) => t,
            None => 0,
        }
    }
}

impl View for Envelope {
    type V = EnvelopeModel;

    open spec fn view(&self) -> EnvelopeModel {
        EnvelopeModel {
            envelope_type: self.envelope_type,
            source_service_id: opt_text(self.source_service_id),
            source_device: self.source_device,
            client_timestamp: self.client_timestamp,
            content: opt_bytes(self.content),
            server_guid: opt_text(self.server_guid),
            server_timestamp: self.server_timestamp,
            ephemeral: self.ephemeral,
            destination_service_id: opt_text(self.destination_service_id),
            urgent: self.urgent,
            updated_pni: opt_text(self.updated_pni),
            story: self.story,
            report_spam_token: opt_bytes(self.report_spam_token),
            shared_mrm_key: opt_bytes(self.shared_mrm_key),
        }
    }
}

impl Envelope {
    /// A copy with the same value.
    pub fn duplicate(&self) -> (r: Envelope)
        ensures
            r@ == self@,
    {
        Envelope {
            envelope_type: self.envelope_type,
            source_service_id: copy_opt_text(&self.source_service_id),
            source_device: self.source_device,
            client_timestamp: self.client_timestamp,
            content: copy_opt_bytes(&self.content),
            server_guid: copy_opt_text(&self.server_guid),
            server_timestamp: self.server_timestamp,
            ephemeral: self.ephemeral,
            destination_service_id: copy_opt_text(&self.destination_service_id),
            urgent: self.urgent,
            updated_pni: copy_opt_text(&self.updated_pni),
            story: self.story,
            report_spam_token: copy_opt_bytes(&self.report_spam_token),
            shared_mrm_key: copy_opt_bytes(&self.shared_mrm_key),
        }
    }

    /// The guid that identifies this envelope in a queue (empty when absent).
    pub fn guid(&self) -> (r: String)
        ensures
            r@ == self@.guid(),
    {
        match &self.server_guid {
            Some(g) => g.clone(),
            None => String::new(),
        }
    }
}

/// Copies a byte buffer element by element.
pub fn copy_bytes(b: &Vec<u8>) -> (r: Vec<u8>)
    ensures
        r@ == b@,
{
    let mut r: Vec<u8> = Vec::new();
    let mut i: usize = 0;
    while i < b.len()
        invariant
            i <= b@.len(),
            r@ == b@.subrange(0, i as int),
        decreases b@.len() - i,
    {
        r.push(b[i]);
        i = i + 1;
    }
    assert(r@ =~= b@);
    r
}

pub fn copy_opt_bytes(b: &Option<Vec<u8>>) -> (r: Option<Vec<u8>>)
    ensures
        opt_bytes(r) == opt_bytes(*b),
{
    match b {
        Some(v) => Some(copy_bytes(v)),
        None => None,
    }
}

pub fn copy_opt_text(s: &Option<String>) -> (r: Option<String>)
    ensures
        opt_text(r) == opt_text(*s),
{
    match s {
        Some(v) => Some(v.clone()),
        None => None,
    }
}

pub open spec fn opt_bytes(b: Option<Vec<u8>>) -> Option<Seq<u8>> {
    match b {
        Some(v) => Some(v@),
        None => None,
    }
}

pub open spec fn opt_text(s: Option<String>) -> Option<Seq<char>> {
    match s {
        Some(v) => Some(v@),
        None => None,
    }
}

} // verus!
