use vstd::prelude::*;
use vstd::string::StringExecFns;
use vstd::utf8::encode_utf8;
use crate::timestamp::{
    UtcDateTime,
    rfc3339_text,
    format_rfc3339,
    lemma_rfc3339_text_injective,
};

verus! {

/// The line that opens every stored record: `Received from <peer> at <time>`
/// followed by a line break.
pub open spec fn header_text(peer: Seq<char>, received_at: Seq<char>) -> Seq<char> {
    "Received from "@ + peer + " at "@ + received_at + "\n"@
}

/// The output file's name: the receipt time's RFC 3339 text followed by `.log`.
pub open spec fn log_file_name(received_at: Seq<char>) -> Seq<char> {
    received_at + ".log"@
}

/// The bytes of a stored record: the header line, a blank line, the payload
/// unchanged, and a closing line break.
pub open spec fn record_bytes(header: Seq<char>, payload: Seq<u8>) -> Seq<u8> {
    encode_utf8(header) + seq![10u8] + payload + seq![10u8]
}

/// What one accepted connection produced: who sent it, when it was accepted,
/// and the bytes it carried.
pub struct LogRecord {
    pub peer_address: String,
    pub received: UtcDateTime,
    pub received_at: String,
    pub payload: Vec<u8>,
}

impl LogRecord {
    /// The receipt time is valid and `received_at` is its RFC 3339 text.
    pub open spec fn wf(&self) -> bool {
        &&& self.received.wf()
        &&& self.received_at@ == rfc3339_text(self.received)
    }

    /// The header line of this record.
    pub open spec fn header_spec(&self) -> Seq<char> {
        header_text(self.peer_address@, self.received_at@)
    }

    /// The name of the file this record is written to.
    pub open spec fn file_name_spec(&self) -> Seq<char> {
        log_file_name(self.received_at@)
    }

    /// The bytes this record's file holds.
    pub open spec fn contents_spec(&self) -> Seq<u8> {
        record_bytes(self.header_spec(), self.payload@)
    }

    /// Starts the record of a connection from `peer_address` accepted at
    /// `received`; no payload has been read yet.
    pub fn begin(peer_address: String, received: UtcDateTime) -> (r: Self)
        requires
            received.wf(),
        ensures
            r.wf(),
            r.peer_address@ == peer_address@,
            r.received == received,
            r.payload@ == Seq::<u8>::empty(),
    {
        let received_at = format_rfc3339(&received);
        LogRecord { peer_address, received, received_at, payload: Vec::new() }
    }

    /// Starts the record of a connection from `peer_address` accepted now;
    /// `None` where the system clock gives no valid date and time.
    pub fn accept(peer_address: String) -> (r: Option<Self>)
        ensures
            r.is_some() ==> r.unwrap().wf(),
            r.is_some() ==> r.unwrap().peer_address@ == peer_address@,
            r.is_some() ==> r.unwrap().payload@ == Seq::<u8>::empty(),
    {
        match UtcDateTime::now() {
            Some(received) => Some(Self::begin(peer_address, received)),
            None => None,
        }
    }

    /// Adds bytes read from the connection to the payload.
    pub fn extend_payload(&mut self, bytes: &[u8])
        ensures
            final(self).payload@ == old(self).payload@ + bytes@,
            final(self).peer_address == old(self).peer_address,
            final(self).received == old(self).received,
            final(self).received_at == old(self).received_at,
    {
        append_bytes(&mut self.payload, bytes);
    }

    /// The header line, as stored in the file and shown on the console.
    pub fn header(&self) -> (r: String)
        ensures
            r@ == self.header_spec(),
    {
        let mut h = "Received from ".to_owned();
        h.append(self.peer_address.as_str());
        h.append(" at ");
        h.append(self.received_at.as_str());
        h.append("\n");
        proof {
            assert(h@ =~= self.header_spec());
        }
        h
    }

    /// The name of the file that receives this record.
    pub fn file_name(&self) -> (r: String)
        ensures
            r@ == self.file_name_spec(),
    {
        let mut name = self.received_at.clone();
        name.append(".log");
        name
    }

    /// The bytes written to the record's file.
    pub fn contents(&self) -> (r: Vec<u8>)
        ensures
            r@ == self.contents_spec(),
    {
        let header = self.header();
        let mut out: Vec<u8> = Vec::new();
        append_bytes(&mut out, header.as_str().as_bytes());
        out.push(10u8);
        append_bytes(&mut out, self.payload.as_slice());
        out.push(10u8);
        proof {
            assert(out@ =~= self.contents_spec());
        }
        out
    }
}

fn append_bytes(out: &mut Vec<u8>, bytes: &[u8])
    ensures
        final(out)@ == old(out)@ + bytes@,
{
    let mut i: usize = 0;
    while i < bytes.len()
        invariant
            i <= bytes@.len(),
            out@ == old(out)@ + bytes@.subrange(0, i as int),
        decreases bytes@.len() - i,
    {
        out.push(bytes[i]);
        i += 1;
        proof {
            assert(bytes@.subrange(0, i as int) =~= bytes@.subrange(0, i - 1) + seq![bytes@[i - 1]]);
        }
    }
    proof {
        assert(bytes@.subrange(0, bytes@.len() as int) =~= bytes@);
    }
}

/// A stored record holds the header's bytes, a line break, the payload byte
/// for byte, and a closing line break, and nothing else.
pub proof fn lemma_record_keeps_payload(header: Seq<char>, payload: Seq<u8>)
    ensures
        ({
            let c = record_bytes(header, payload);
            let n = encode_utf8(header).len() as int;
            &&& c.len() == n + payload.len() + 2
            &&& c.subrange(0, n) == encode_utf8(header)
            &&& c[n] == 10u8
            &&& c.subrange(n + 1, n + 1 + payload.len()) == payload
            &&& c[c.len() - 1] == 10u8
        }),
{
    let c = record_bytes(header, payload);
    let n = encode_utf8(header).len() as int;
    assert(c.subrange(0, n) =~= encode_utf8(header));
    assert(c.subrange(n + 1, n + 1 + payload.len()) =~= payload);
}

/// A connection that sent nothing still yields a record: the header, a blank
/// line and the closing line break.
pub proof fn lemma_empty_payload_record(header: Seq<char>)
    ensures
        record_bytes(header, Seq::<u8>::empty()) == encode_utf8(header) + seq![10u8, 10u8],
{
    assert(record_bytes(header, Seq::<u8>::empty()) =~= encode_utf8(header) + seq![10u8, 10u8]);
}

/// Two connections accepted at least a second apart are stored under
/// different file names.
pub proof fn lemma_distinct_seconds_distinct_files(a: LogRecord, b: LogRecord)
    requires
        a.wf(),
        b.wf(),
        a.received.instant_nanos() - b.received.instant_nanos() >= 1_000_000_000
            || b.received.instant_nanos() - a.received.instant_nanos() >= 1_000_000_000,
    ensures
        a.file_name_spec() != b.file_name_spec(),
{
    if a.file_name_spec() == b.file_name_spec() {
        let na = a.file_name_spec();
        let nb = b.file_name_spec();
        assert(a.received_at@ =~= na.subrange(0, na.len() - ".log"@.len()));
        assert(b.received_at@ =~= nb.subrange(0, nb.len() - ".log"@.len()));
        lemma_rfc3339_text_injective(a.received, b.received);
    }
}

} // verus!
