//! The recorded network flows of an app run, the cryptographic operations
//! recovered from its events, and how the two are put together.
use crate::db::NetworkConnection;
use crate::events::{Events, InitIntCertificate, InitIntKey};
use crate::external::{base64_decoded, base64_no_pad_encode, base64_no_pad_encoded, base64_standard_decode};
use crate::leak::{is_sub, is_sub_spec};
use crate::text::{ends_with, parse_u64, rsplit_once_char, rsplit_once_spec, split_once_char, split_once_spec, starts_with, unsigned_in_range};
use std::collections::HashMap;
use std::sync::Arc;
use vstd::prelude::*;

verus! {

/// A header of a request or response.
#[derive(Debug, Clone, PartialEq)]
pub struct Header {
    pub key: String,
    pub value: String,
}

#[derive(Debug, Clone, PartialEq)]
pub struct Request {
    pub method: String,
    pub path: String,
    pub headers: Vec<Header>,
    pub trailers: Vec<Header>,
    pub body: Vec<u8>,
}

#[derive(Debug, Clone, PartialEq)]
pub struct Response {
    pub status_code: u32,
    pub headers: Vec<Header>,
    pub trailers: Vec<Header>,
    pub body: Vec<u8>,
}

/// A message of a websocket, in either direction.
#[derive(Debug, Clone, PartialEq)]
pub struct WebSocketMessage {
    pub from_client: bool,
    pub content: Vec<u8>,
}

/// The endpoints of a connection and when it was opened.
#[derive(Debug, Clone, PartialEq)]
pub struct ConnectionInfo {
    pub source_address: String,
    pub destination_address: String,
    pub tls: bool,
    pub timestamp: u64,
}

impl Default for ConnectionInfo {
    fn default() -> (r: Self)
        ensures
            r.source_address@ == Seq::<char>::empty(),
            r.destination_address@ == Seq::<char>::empty(),
            !r.tls,
            r.timestamp == 0,
    {
        ConnectionInfo {
            source_address: String::new(),
            destination_address: String::new(),
            tls: false,
            timestamp: 0,
        }
    }
}

/// One recorded flow: a request, its response and websocket messages.
#[derive(Debug, Clone, PartialEq)]
pub struct Record {
    pub request: Option<Request>,
    pub response: Option<Response>,
    pub websocket: Vec<WebSocketMessage>,
    pub connection_info: Option<ConnectionInfo>,
}

/// All flows recorded for an app.
#[derive(Debug, Clone, PartialEq)]
pub struct NetworkData {
    pub pkg_name: String,
    pub records: Vec<Record>,
    pub timestamp: u64,
}

/// The data of one app in one session.
pub struct AppData {
    pub data: NetworkData,
    pub events: Vec<Events>,
    pub cryptographic: Arc<Vec<CryptographicRecord>>,
    pub device_id: Option<String>,
    pub session: u64,
}

/// The recorded sessions of every app found under a directory.
pub struct DataProvider {
    pub path: String,
    pub apps: HashMap<(String, u64), AppData>,
}

impl DataProvider {
    pub fn new(path: String) -> (r: Self)
        ensures
            r.path@ == path@,
            r.apps@ == Map::<(String, u64), AppData>::empty(),
    {
        Self { path, apps: HashMap::new() }
    }
}

/// The session number in the name of a dump file `dump-<...>-<session>.mitm`:
/// the text after the last `-`, up to its first `.`.
pub open spec fn session_of_dump_name(name: Seq<char>) -> Option<int> {
    if "dump-"@.is_prefix_of(name) && ".mitm"@.is_suffix_of(name) {
        let tail = match rsplit_once_spec(name, '-') {
            Some((_, b)) => b,
            None => name,
        };
        let head = match split_once_spec(tail, '.') {
            Some((a, _)) => a,
            None => tail,
        };
        unsigned_in_range(head, u64::MAX as int)
    } else {
        None
    }
}

/// The session number that a dump file's name carries, if any.
pub fn session_from_dump_name(name: &str) -> (r: Option<u64>)
    ensures
        match r {
            Some(s) => session_of_dump_name(name@) == Some(s as int),
            None => session_of_dump_name(name@) is None,
        },
{
    if !(starts_with(name, "dump-") && ends_with(name, ".mitm")) {
        return None;
    }
    let tail = match rsplit_once_char(name, '-') {
        Some((_, b)) => b,
        None => name,
    };
    let head = match split_once_char(tail, '.') {
        Some((a, _)) => a,
        None => tail,
    };
    parse_u64(head)
}

/// The state of one cipher object of the app: how it was initialised and the
/// data that went through it.
#[derive(Debug)]
pub struct CryptographicRecord {
    pub is_encryption: bool,
    pub plaintext: Vec<u8>,
    pub ciphertext: Vec<u8>,
    pub key: Vec<u8>,
    pub hashcode: i64,
    pub timestamp: u128,
    pub algorithm: String,
    pub importance: u64,
}

/// The mathematical value of a `CryptographicRecord`.
#[verifier::ext_equal]
pub struct CryptRecordModel {
    pub is_encryption: bool,
    pub plaintext: Seq<u8>,
    pub ciphertext: Seq<u8>,
    pub key: Seq<u8>,
    pub hashcode: i64,
    pub timestamp: u128,
    pub algorithm: Seq<char>,
    pub importance: u64,
}

impl View for CryptographicRecord {
    type V = CryptRecordModel;

    open spec fn view(&self) -> CryptRecordModel {
        CryptRecordModel {
            is_encryption: self.is_encryption,
            plaintext: self.plaintext@,
            ciphertext: self.ciphertext@,
            key: self.key@,
            hashcode: self.hashcode,
            timestamp: self.timestamp,
            algorithm: self.algorithm@,
            importance: self.importance,
        }
    }
}

/// The bytes that base64 text decodes to, or none where it is not valid.
pub open spec fn decoded_or_empty(text: Seq<char>) -> Seq<u8> {
    match base64_decoded(text) {
        Some(b) => b,
        None => seq![],
    }
}

/// A record for a cipher object that has just been initialised.
pub open spec fn init_record(
    ts: u128,
    algorithm: Seq<char>,
    hashcode: i64,
    key_text: Seq<char>,
    opcode: i64,
    importance: u64,
) -> CryptRecordModel {
    CryptRecordModel {
        is_encryption: opcode == 1,
        plaintext: seq![],
        ciphertext: seq![],
        key: decoded_or_empty(key_text),
        hashcode,
        timestamp: ts,
        algorithm,
        importance,
    }
}

/// The bytes of base64 text, or none where it is not valid.
fn decode_or_empty(text: &str) -> (r: Vec<u8>)
    ensures
        r@ == decoded_or_empty(text@),
{
    match base64_standard_decode(text) {
        Some(v) => v,
        None => Vec::new(),
    }
}

/// Whether two byte sequences are equal.
pub(crate) fn bytes_equal(a: &[u8], b: &[u8]) -> (r: bool)
    ensures
        r == (a@ == b@),
{
    if a.len() != b.len() {
        return false;
    }
    let mut i: usize = 0;
    while i < a.len()
        invariant
            a.len() == b.len(),
            i <= a.len(),
            forall|j: int| 0 <= j < i ==> a@[j] == b@[j],
        decreases a.len() - i,
    {
        if a[i] != b[i] {
            return false;
        }
        i = i + 1;
    }
    assert(a@ =~= b@);
    true
}

/// The 16 bytes of `ct` from `16 * k` on.
pub open spec fn block(ct: Seq<u8>, k: int) -> Seq<u8> {
    ct.subrange(16 * k, 16 * k + 16)
}

/// Some byte of `s` is not zero.
pub open spec fn has_nonzero(s: Seq<u8>) -> bool {
    exists|i: int| 0 <= i < s.len() && s[i] != 0
}

/// The block is not all zero and occurs in `data`, as it is or base64
/// encoded without padding.
pub open spec fn block_found(data: Seq<u8>, blk: Seq<u8>) -> bool {
    has_nonzero(blk) && (is_sub_spec(data, blk) || is_sub_spec(data, base64_no_pad_encoded(blk)))
}

/// Some whole 16-byte block of the record's ciphertext is found in `data`;
/// records whose texts are equal or empty, and data shorter than a block,
/// match nothing.
pub open spec fn record_matches(r: CryptRecordModel, data: Seq<u8>) -> bool {
    &&& r.plaintext != r.ciphertext
    &&& data.len() >= 16
    &&& r.ciphertext.len() > 0
    &&& r.plaintext.len() > 0
    &&& exists|k: int| 0 <= k && 16 * k + 16 <= r.ciphertext.len() && #[trigger] block_found(data, block(r.ciphertext, k))
}

/// Whether some byte of `s` is not zero.
fn any_nonzero(s: &[u8]) -> (r: bool)
    ensures
        r == has_nonzero(s@),
{
    let mut i: usize = 0;
    while i < s.len()
        invariant
            i <= s.len(),
            forall|j: int| 0 <= j < i ==> s@[j] == 0,
        decreases s.len() - i,
    {
        if s[i] != 0 {
            return true;
        }
        i = i + 1;
    }
    false
}

/// A copy of `s[from..to]`.
fn copy_range(s: &Vec<u8>, from: usize, to: usize) -> (r: Vec<u8>)
    requires
        from <= to <= s.len(),
    ensures
        r@ == s@.subrange(from as int, to as int),
{
    let mut r: Vec<u8> = Vec::new();
    let mut i = from;
    while i < to
        invariant
            from <= i <= to <= s.len(),
            r@ == s@.subrange(from as int, i as int),
        decreases to - i,
    {
        r.push(s[i]);
        i = i + 1;
    }
    r
}

impl CryptographicRecord {
    /// Whether data seen on the network holds output of this cipher object.
    pub fn contains(&self, data: &[u8]) -> (r: bool)
        ensures
            r == record_matches(self@, data@),
    {
        if bytes_equal(self.plaintext.as_slice(), self.ciphertext.as_slice()) || data.len() < 16
            || self.ciphertext.len() == 0 || self.plaintext.len() == 0 {
            return false;
        }
        let mut i: usize = 0;
        while i <= self.ciphertext.len() && self.ciphertext.len() - i >= 16
            invariant
                i % 16 == 0,
                i <= self.ciphertext.len() + 16,
                self.plaintext@ != self.ciphertext@,
                data@.len() >= 16,
                self.ciphertext@.len() > 0,
                self.plaintext@.len() > 0,
                forall|k: int|
                    0 <= k && 16 * k + 16 <= i ==> !#[trigger] block_found(
                        data@,
                        block(self.ciphertext@, k),
                    ),
            decreases self.ciphertext.len() + 16 - i,
        {
            let chunk = copy_range(&self.ciphertext, i, i + 16);
            assert(16 * ((i / 16) as int) == i) by (nonlinear_arith)
                requires
                    i % 16 == 0,
            ;
            assert(chunk@ == block(self.ciphertext@, (i / 16) as int));
            let nonzero = any_nonzero(chunk.as_slice());
            if nonzero && is_sub(data, chunk.as_slice()) {
                assert(block_found(data@, block(self.ciphertext@, (i / 16) as int)));
                return true;
            }
            if nonzero && is_sub(data, base64_no_pad_encode(chunk.as_slice()).as_slice()) {
                assert(block_found(data@, block(self.ciphertext@, (i / 16) as int)));
                return true;
            }
            i = i + 16;
        }
        false
    }

    /// The record of a cipher object initialised with a key.
    pub fn from_init_int_key(init: &InitIntKey) -> (r: Self)
        ensures
            r@ == init_record(
                init.ts,
                init.algorithm@,
                init.hashcode,
                init.arg_key@,
                init.arg_opcode,
                init.importance,
            ),
    {
        let key = decode_or_empty(init.arg_key.as_str());
        Self {
            timestamp: init.ts,
            algorithm: init.algorithm.clone(),
            hashcode: init.hashcode,
            key,
            is_encryption: init.arg_opcode == 1,
            plaintext: Vec::new(),
            ciphertext: Vec::new(),
            importance: init.importance,
        }
    }

    /// The record of a cipher object initialised with a certificate.
    pub fn from_init_int_certificate(init: &InitIntCertificate) -> (r: Self)
        ensures
            r@ == init_record(
                init.ts,
                init.algorithm@,
                init.hashcode,
                init.arg_certificate@,
                init.arg_opcode,
                init.importance,
            ),
    {
        let key = decode_or_empty(init.arg_certificate.as_str());
        Self {
            timestamp: init.ts,
            algorithm: init.algorithm.clone(),
            hashcode: init.hashcode,
            key,
            is_encryption: init.arg_opcode == 1,
            plaintext: Vec::new(),
            ciphertext: Vec::new(),
            importance: init.importance,
        }
    }
}

/// `i` is the first position whose timestamp is the latest one not after `ts`.
pub open spec fn is_first_latest(tss: Seq<u128>, ts: u128, i: int) -> bool {
    &&& 0 <= i < tss.len()
    &&& tss[i] <= ts
    &&& forall|j: int| 0 <= j < tss.len() && tss[j] <= ts ==> tss[j] <= tss[i]
    &&& forall|j: int| 0 <= j < i && tss[j] <= ts ==> tss[j] < tss[i]
}

/// The timestamps of a sequence of records.
pub open spec fn record_timestamps(s: Seq<&CryptographicRecord>) -> Seq<u128> {
    s.map_values(|c: &CryptographicRecord| c.timestamp)
}

/// The record that was last initialised or used at or before `ts` (the first
/// such one when several share that time), if any.
pub fn find_closest<'a>(ts: u128, crypt: Vec<&'a CryptographicRecord>) -> (r: Option<
    &'a CryptographicRecord,
>)
    ensures
        match r {
            None => forall|j: int| 0 <= j < crypt@.len() ==> crypt@[j].timestamp > ts,
            Some(c) => exists|i: int|
                is_first_latest(record_timestamps(crypt@), ts, i) && c == crypt@[i],
        },
{
    let ghost tss = record_timestamps(crypt@);
    let mut smallest_diff: Option<u128> = None;
    let mut pkg: Option<&'a CryptographicRecord> = None;
    let mut best: usize = 0;
    let mut i: usize = 0;
    while i < crypt.len()
        invariant
            tss == record_timestamps(crypt@),
            i <= crypt.len(),
            match smallest_diff {
                None => pkg is None && forall|j: int| 0 <= j < i ==> tss[j] > ts,
                Some(d) => {
                    &&& best < i
                    &&& pkg == Some(crypt@[best as int])
                    &&& d == ts - tss[best as int]
                    &&& is_first_latest(tss.take(i as int), ts, best as int)
                },
            },
        decreases crypt.len() - i,
    {
        let c = crypt[i];
        if c.timestamp <= ts {
            let diff = ts - c.timestamp;
            let better = match smallest_diff {
                None => true,
                Some(s) => diff < s,
            };
            if better {
                smallest_diff = Some(diff);
                pkg = Some(c);
                best = i;
            }
        }
        assert(tss.take(i + 1).take(i as int) =~= tss.take(i as int));
        i = i + 1;
    }
    assert(tss.take(crypt.len() as int) =~= tss);
    if pkg.is_none() {
        assert forall|j: int| 0 <= j < crypt@.len() implies crypt@[j].timestamp > ts by {
            assert(tss[j] == crypt@[j].timestamp);
        }
    }
    pkg
}

/// `i` is the first position whose connection timestamp is the latest one not
/// after `ts`.
pub open spec fn connection_timestamps(s: Seq<NetworkConnection>) -> Seq<u128> {
    s.map_values(|c: NetworkConnection| c.ts)
}

/// The connection that was opened last at or before `ts` (the first such one
/// when several share that time); a single candidate is taken whatever its
/// time.
pub fn find_closest_network_connection(
    ts: u128,
    network_connection: Vec<NetworkConnection>,
) -> (r: Option<NetworkConnection>)
    ensures
        network_connection@.len() == 0 ==> r is None,
        network_connection@.len() == 1 ==> r == Some(network_connection@[0]),
        network_connection@.len() > 1 ==> match r {
            None => forall|j: int|
                0 <= j < network_connection@.len() ==> network_connection@[j].ts > ts,
            Some(c) => exists|i: int|
                is_first_latest(connection_timestamps(network_connection@), ts, i) && c
                    == network_connection@[i],
        },
{
    let mut network_connection = network_connection;
    if network_connection.len() == 0 {
        return None;
    }
    if network_connection.len() == 1 {
        return Some(network_connection.remove(0));
    }
    let ghost tss = connection_timestamps(network_connection@);
    let mut smallest_diff: Option<u128> = None;
    let mut best: usize = 0;
    let mut i: usize = 0;
    while i < network_connection.len()
        invariant
            tss == connection_timestamps(network_connection@),
            i <= network_connection.len(),
            match smallest_diff {
                None => forall|j: int| 0 <= j < i ==> tss[j] > ts,
                Some(d) => {
                    &&& best < i
                    &&& d == ts - tss[best as int]
                    &&& is_first_latest(tss.take(i as int), ts, best as int)
                },
            },
        decreases network_connection.len() - i,
    {
        let c_ts = network_connection[i].ts;
        if c_ts <= ts {
            let diff = ts - c_ts;
            let better = match smallest_diff {
                None => true,
                Some(s) => diff < s,
            };
            if better {
                smallest_diff = Some(diff);
                best = i;
            }
        }
        assert(tss.take(i + 1).take(i as int) =~= tss.take(i as int));
        i = i + 1;
    }
    assert(tss.take(network_connection.len() as int) =~= tss);
    match smallest_diff {
        None => {
            assert forall|j: int| 0 <= j < network_connection@.len() implies network_connection@[j].ts > ts by {
                assert(tss[j] == network_connection@[j].ts);
            }
            None
        },
        Some(_) => Some(network_connection.swap_remove(best)),
    }
}


/// A call of a cipher object's `update` or `doFinal`: its input and output.
pub struct UnifiedCrypt {
    pub timestamp: u128,
    pub hashcode: i64,
    pub input: Vec<u8>,
    pub output: Vec<u8>,
}

/// The mathematical value of a `UnifiedCrypt`.
#[verifier::ext_equal]
pub struct CryptCallModel {
    pub timestamp: u128,
    pub hashcode: i64,
    pub input: Seq<u8>,
    pub output: Seq<u8>,
}

impl View for UnifiedCrypt {
    type V = CryptCallModel;

    open spec fn view(&self) -> CryptCallModel {
        CryptCallModel {
            timestamp: self.timestamp,
            hashcode: self.hashcode,
            input: self.input@,
            output: self.output@,
        }
    }
}

/// A call whose input and output are given as base64 text (absent ones are empty).
pub open spec fn call_model(
    ts: u128,
    hashcode: i64,
    input: Option<Seq<char>>,
    output: Option<Seq<char>>,
) -> CryptCallModel {
    CryptCallModel {
        timestamp: ts,
        hashcode,
        input: match input {
            Some(t) => decoded_or_empty(t),
            None => seq![],
        },
        output: match output {
            Some(t) => decoded_or_empty(t),
            None => seq![],
        },
    }
}

/// The `doFinal` call that an event records, if it records one.
pub open spec fn final_call_of(e: Events) -> Option<CryptCallModel> {
    match e {
        Events::DoFinal(x) => Some(call_model(x.ts, x.hashcode, None, Some(x.ret@))),
        Events::DoFinalByte(x) => Some(call_model(x.ts, x.hashcode, Some(x.arg_input@), Some(x.ret@))),
        Events::DoFinalByteInt(x) => Some(call_model(x.ts, x.hashcode, None, Some(x.arg_output@))),
        Events::DoFinalByteIntInt(x) => Some(
            call_model(x.ts, x.hashcode, Some(x.arg_input@), Some(x.ret@)),
        ),
        Events::DoFinalByteIntIntByte(x) => Some(
            call_model(x.ts, x.hashcode, Some(x.arg_input@), Some(x.arg_output@)),
        ),
        Events::DoFinalByteIntIntByteInt(x) => Some(
            call_model(x.ts, x.hashcode, Some(x.arg_input@), Some(x.arg_output@)),
        ),
        Events::DoFinalByteBufferByteBuffer(x) => Some(
            call_model(x.ts, x.hashcode, Some(x.arg_input@), Some(x.arg_output@)),
        ),
        _ => None,
    }
}

/// The `update` call that an event records, if it records one.
pub open spec fn update_call_of(e: Events) -> Option<CryptCallModel> {
    match e {
        Events::UpdateByte(x) => Some(call_model(x.ts, x.hashcode, Some(x.arg_input@), Some(x.ret@))),
        Events::UpdateByteIntInt(x) => Some(
            call_model(x.ts, x.hashcode, Some(x.arg_input@), Some(x.ret@)),
        ),
        Events::UpdateByteIntIntByte(x) => Some(
            call_model(x.ts, x.hashcode, Some(x.arg_input@), Some(x.arg_output@)),
        ),
        Events::UpdateByteIntIntByteInt(x) => Some(
            call_model(x.ts, x.hashcode, Some(x.arg_input@), Some(x.arg_output@)),
        ),
        Events::UpdateByteBufferByteBuffer(x) => Some(
            call_model(x.ts, x.hashcode, Some(x.arg_input@), Some(x.arg_output@)),
        ),
        Events::UpdateAADByte(x) => Some(call_model(x.ts, x.hashcode, Some(x.arg_input@), Some(x.ret@))),
        Events::UpdateAADByteIntInt(x) => Some(
            call_model(x.ts, x.hashcode, Some(x.arg_input@), Some(x.ret@)),
        ),
        Events::UpdateAADByteBuffer(x) => Some(call_model(x.ts, x.hashcode, Some(x.arg_src@), None)),
        _ => None,
    }
}

/// The record that an initialisation event starts, if the event is one.
pub open spec fn init_record_of(e: Events) -> Option<CryptRecordModel> {
    match e {
        Events::InitIntCertificate(x) => Some(
            init_record(x.ts, x.algorithm@, x.hashcode, x.arg_certificate@, x.arg_opcode, x.importance),
        ),
        Events::InitIntKey(x) => Some(
            init_record(x.ts, x.algorithm@, x.hashcode, x.arg_key@, x.arg_opcode, x.importance),
        ),
        _ => None,
    }
}

/// The event is one of the cipher events that the analysis consumes.
pub open spec fn is_crypto_event(e: Events) -> bool {
    final_call_of(e) is Some || update_call_of(e) is Some || init_record_of(e) is Some
}

/// The order in which the events are examined: from the last one down to the
/// second one (the first event is never examined).
pub open spec fn visit_order(events: Seq<Events>) -> Seq<Events> {
    if events.len() == 0 {
        seq![]
    } else {
        Seq::new((events.len() - 1) as nat, |k: int| events[events.len() - 1 - k])
    }
}

/// The `doFinal` calls that the events record, in order.
pub open spec fn final_calls(events: Seq<Events>) -> Seq<CryptCallModel>
    decreases events.len(),
{
    if events.len() == 0 {
        seq![]
    } else {
        let rest = final_calls(events.drop_last());
        match final_call_of(events.last()) {
            Some(c) => rest.push(c),
            None => rest,
        }
    }
}

/// The `update` calls that the events record, in order.
pub open spec fn update_calls(events: Seq<Events>) -> Seq<CryptCallModel>
    decreases events.len(),
{
    if events.len() == 0 {
        seq![]
    } else {
        let rest = update_calls(events.drop_last());
        match update_call_of(events.last()) {
            Some(c) => rest.push(c),
            None => rest,
        }
    }
}

/// The records that the events start, in order.
pub open spec fn init_records(events: Seq<Events>) -> Seq<CryptRecordModel>
    decreases events.len(),
{
    if events.len() == 0 {
        seq![]
    } else {
        let rest = init_records(events.drop_last());
        match init_record_of(events.last()) {
            Some(c) => rest.push(c),
            None => rest,
        }
    }
}

/// `Vec::swap_remove` on a sequence.
pub open spec fn swap_removed<T>(s: Seq<T>, i: int) -> Seq<T> {
    s.update(i, s.last()).drop_last()
}

/// The events left when the cipher events at positions `i` down to 1 are
/// taken out one by one, each replaced by the last event.
pub open spec fn strip_crypto_events(s: Seq<Events>, i: int) -> Seq<Events>
    decreases i,
{
    if i <= 0 || i >= s.len() {
        s
    } else {
        let next = if is_crypto_event(s[i]) {
            swap_removed(s, i)
        } else {
            s
        };
        strip_crypto_events(next, i - 1)
    }
}

/// The events that remain after the cipher events are taken out.
pub open spec fn remaining_events(events: Seq<Events>) -> Seq<Events> {
    if events.len() == 0 {
        events
    } else {
        strip_crypto_events(events, events.len() - 1)
    }
}

/// Inserts a call after every call of a sorted sequence that is not later.
pub open spec fn insert_by_timestamp(sorted: Seq<CryptCallModel>, x: CryptCallModel) -> Seq<
    CryptCallModel,
>
    decreases sorted.len(),
{
    if sorted.len() == 0 {
        seq![x]
    } else if sorted.last().timestamp <= x.timestamp {
        sorted.push(x)
    } else {
        insert_by_timestamp(sorted.drop_last(), x).push(sorted.last())
    }
}

/// The calls ordered by timestamp; calls with equal timestamps keep their order.
pub open spec fn sort_by_timestamp(s: Seq<CryptCallModel>) -> Seq<CryptCallModel>
    decreases s.len(),
{
    if s.len() == 0 {
        s
    } else {
        insert_by_timestamp(sort_by_timestamp(s.drop_last()), s.last())
    }
}

/// The timestamps of the records of one cipher object.
pub open spec fn candidate_timestamps(records: Seq<CryptRecordModel>, hashcode: i64) -> Seq<u128> {
    records.filter(|r: CryptRecordModel| r.hashcode == hashcode).map_values(
        |r: CryptRecordModel| r.timestamp,
    )
}

/// `t` is the latest of the timestamps that are not after `ts`.
pub open spec fn is_latest_not_after(tss: Seq<u128>, ts: u128, t: u128) -> bool {
    &&& tss.contains(t)
    &&& t <= ts
    &&& forall|j: int| 0 <= j < tss.len() && tss[j] <= ts ==> tss[j] <= t
}

/// The latest of the timestamps that are not after `ts`, if any.
pub open spec fn latest_not_after(tss: Seq<u128>, ts: u128) -> Option<u128> {
    if exists|j: int| 0 <= j < tss.len() && tss[j] <= ts {
        Some(choose|t: u128| is_latest_not_after(tss, ts, t))
    } else {
        None
    }
}

/// A record after a call's data went through it; the record's texts grow by
/// the call's input and output, on the side that fits its direction.
pub open spec fn absorb(r: CryptRecordModel, u: CryptCallModel, set_ts: bool) -> CryptRecordModel {
    CryptRecordModel {
        is_encryption: r.is_encryption,
        plaintext: if r.is_encryption {
            r.plaintext + u.input
        } else {
            r.plaintext + u.output
        },
        ciphertext: if r.is_encryption {
            r.ciphertext + u.output
        } else {
            r.ciphertext + u.input
        },
        key: r.key,
        hashcode: r.hashcode,
        timestamp: if set_ts {
            u.timestamp
        } else {
            r.timestamp
        },
        algorithm: r.algorithm,
        importance: r.importance,
    }
}

/// The records after one call: the call goes to every record of its cipher
/// object whose timestamp is the latest one not after the call's.
pub open spec fn apply_call(records: Seq<CryptRecordModel>, u: CryptCallModel, set_ts: bool) -> Seq<
    CryptRecordModel,
> {
    match latest_not_after(candidate_timestamps(records, u.hashcode), u.timestamp) {
        None => records,
        Some(t) => records.map_values(
            |r: CryptRecordModel|
                if r.timestamp == t && r.hashcode == u.hashcode {
                    absorb(r, u, set_ts)
                } else {
                    r
                },
        ),
    }
}

/// The records after each of the calls, in order.
pub open spec fn apply_calls(records: Seq<CryptRecordModel>, calls: Seq<CryptCallModel>, set_ts: bool) -> Seq<
    CryptRecordModel,
>
    decreases calls.len(),
{
    if calls.len() == 0 {
        records
    } else {
        apply_call(apply_calls(records, calls.drop_last(), set_ts), calls.last(), set_ts)
    }
}

/// The cipher records recovered from the events: the records that the
/// initialisations start, fed with the `update` calls in time order (each
/// moving its record's time forward), then with the `doFinal` calls in time order.
pub open spec fn crypto_records_of(events: Seq<Events>) -> Seq<CryptRecordModel> {
    let visited = visit_order(events);
    let updated = apply_calls(init_records(visited), sort_by_timestamp(update_calls(visited)), true);
    apply_calls(updated, sort_by_timestamp(final_calls(visited)), false)
}

pub open spec fn record_models(s: Seq<CryptographicRecord>) -> Seq<CryptRecordModel> {
    s.map_values(|r: CryptographicRecord| r@)
}

pub open spec fn call_models(s: Seq<UnifiedCrypt>) -> Seq<CryptCallModel> {
    s.map_values(|u: UnifiedCrypt| u@)
}

/// What the analysis makes of one event.
pub enum CryptEvent {
    Final(UnifiedCrypt),
    Update(UnifiedCrypt),
    Init(CryptographicRecord),
    Unrelated,
}

fn unified(ts: u128, hashcode: i64, input: Option<&str>, output: Option<&str>) -> (r: UnifiedCrypt)
    ensures
        r@ == call_model(
            ts,
            hashcode,
            match input {
                Some(t) => Some(t@),
                None => None,
            },
            match output {
                Some(t) => Some(t@),
                None => None,
            },
        ),
{
    let input = match input {
        Some(t) => decode_or_empty(t),
        None => Vec::new(),
    };
    let output = match output {
        Some(t) => decode_or_empty(t),
        None => Vec::new(),
    };
    UnifiedCrypt { timestamp: ts, hashcode, input, output }
}

/// Sorts out a cipher event.
fn classify(e: &Events) -> (r: CryptEvent)
    ensures
        match r {
            CryptEvent::Final(u) => final_call_of(*e) == Some(u@),
            CryptEvent::Update(u) => update_call_of(*e) == Some(u@),
            CryptEvent::Init(c) => init_record_of(*e) == Some(c@),
            CryptEvent::Unrelated => !is_crypto_event(*e),
        },
{
    match e {
        Events::DoFinal(x) => CryptEvent::Final(unified(x.ts, x.hashcode, None, Some(x.ret.as_str()))),
        Events::DoFinalByte(x) => CryptEvent::Final(
            unified(x.ts, x.hashcode, Some(x.arg_input.as_str()), Some(x.ret.as_str())),
        ),
        Events::DoFinalByteInt(x) => CryptEvent::Final(
            unified(x.ts, x.hashcode, None, Some(x.arg_output.as_str())),
        ),
        Events::DoFinalByteIntInt(x) => CryptEvent::Final(
            unified(x.ts, x.hashcode, Some(x.arg_input.as_str()), Some(x.ret.as_str())),
        ),
        Events::DoFinalByteIntIntByte(x) => CryptEvent::Final(
            unified(x.ts, x.hashcode, Some(x.arg_input.as_str()), Some(x.arg_output.as_str())),
        ),
        Events::DoFinalByteIntIntByteInt(x) => CryptEvent::Final(
            unified(x.ts, x.hashcode, Some(x.arg_input.as_str()), Some(x.arg_output.as_str())),
        ),
        Events::DoFinalByteBufferByteBuffer(x) => CryptEvent::Final(
            unified(x.ts, x.hashcode, Some(x.arg_input.as_str()), Some(x.arg_output.as_str())),
        ),
        Events::InitIntCertificate(x) => CryptEvent::Init(
            CryptographicRecord::from_init_int_certificate(x),
        ),
        Events::InitIntKey(x) => CryptEvent::Init(CryptographicRecord::from_init_int_key(x)),
        Events::UpdateByte(x) => CryptEvent::Update(
            unified(x.ts, x.hashcode, Some(x.arg_input.as_str()), Some(x.ret.as_str())),
        ),
        Events::UpdateByteIntInt(x) => CryptEvent::Update(
            unified(x.ts, x.hashcode, Some(x.arg_input.as_str()), Some(x.ret.as_str())),
        ),
        Events::UpdateByteIntIntByte(x) => CryptEvent::Update(
            unified(x.ts, x.hashcode, Some(x.arg_input.as_str()), Some(x.arg_output.as_str())),
        ),
        Events::UpdateByteIntIntByteInt(x) => CryptEvent::Update(
            unified(x.ts, x.hashcode, Some(x.arg_input.as_str()), Some(x.arg_output.as_str())),
        ),
        Events::UpdateByteBufferByteBuffer(x) => CryptEvent::Update(
            unified(x.ts, x.hashcode, Some(x.arg_input.as_str()), Some(x.arg_output.as_str())),
        ),
        Events::UpdateAADByte(x) => CryptEvent::Update(
            unified(x.ts, x.hashcode, Some(x.arg_input.as_str()), Some(x.ret.as_str())),
        ),
        Events::UpdateAADByteIntInt(x) => CryptEvent::Update(
            unified(x.ts, x.hashcode, Some(x.arg_input.as_str()), Some(x.ret.as_str())),
        ),
        Events::UpdateAADByteBuffer(x) => CryptEvent::Update(
            unified(x.ts, x.hashcode, Some(x.arg_src.as_str()), None),
        ),
        _ => CryptEvent::Unrelated,
    }
}


/// Inserts a call into calls sorted by timestamp, after every call that is
/// not later.
fn insert_call_sorted(out: &mut Vec<UnifiedCrypt>, x: UnifiedCrypt)
    ensures
        call_models(final(out)@) == insert_by_timestamp(call_models(old(out)@), x@),
{
    let ghost t = call_models(out@);
    let mut j = out.len();
    assert(t.take(j as int) =~= t);
    assert(t.skip(j as int) =~= Seq::<CryptCallModel>::empty());
    while j > 0 && out[j - 1].timestamp > x.timestamp
        invariant
            t == call_models(out@),
            j <= out.len(),
            insert_by_timestamp(t, x@) == insert_by_timestamp(t.take(j as int), x@) + t.skip(
                j as int,
            ),
        decreases j,
    {
        proof {
            let tj = t.take(j as int);
            assert(tj.drop_last() =~= t.take(j - 1));
            assert(tj.last() == t[j - 1]);
            assert(t.skip(j - 1) =~= seq![t[j - 1]] + t.skip(j as int));
            assert(insert_by_timestamp(t.take(j - 1), x@).push(t[j - 1]) + t.skip(j as int)
                =~= insert_by_timestamp(t.take(j - 1), x@) + t.skip(j - 1));
        }
        j = j - 1;
    }
    proof {
        if j > 0 {
            assert(t.take(j as int).last() == t[j - 1]);
        }
    }
    let ghost before = out@;
    out.insert(j, x);
    assert(call_models(out@) =~= insert_by_timestamp(t, x@));
}

/// The calls ordered by timestamp, keeping the order of calls at equal times.
fn sort_calls(v: Vec<UnifiedCrypt>) -> (r: Vec<UnifiedCrypt>)
    ensures
        call_models(r@) == sort_by_timestamp(call_models(v@)),
{
    let ghost orig = call_models(v@);
    let n = v.len();
    let mut src = v;
    let mut out: Vec<UnifiedCrypt> = Vec::new();
    let mut k: usize = 0;
    assert(orig.skip(0) =~= orig);
    assert(orig.take(0) =~= Seq::<CryptCallModel>::empty());
    while src.len() > 0
        invariant
            call_models(out@) == sort_by_timestamp(orig.take(k as int)),
            call_models(src@) == orig.skip(k as int),
            k + src.len() == orig.len(),
            n == orig.len(),
        decreases src.len(),
    {
        let ghost old_src = src@;
        let x = src.remove(0);
        proof {
            assert(src@ =~= old_src.subrange(1, old_src.len() as int));
            assert(orig.skip(k as int)[0] == x@);
            assert(orig.take(k + 1).drop_last() =~= orig.take(k as int));
            assert(orig.take(k + 1).last() == x@);
            assert forall|j: int| 0 <= j < src@.len() implies call_models(src@)[j] == orig.skip(
                k + 1,
            )[j] by {
                assert(call_models(old_src)[j + 1] == orig.skip(k as int)[j + 1]);
            }
            assert(call_models(src@) =~= orig.skip(k + 1));
        }
        insert_call_sorted(&mut out, x);
        k = k + 1;
    }
    assert(orig.take(k as int) =~= orig);
    out
}

/// Appends the bytes of `src` to `dst`.
fn append_bytes(dst: &mut Vec<u8>, src: &Vec<u8>)
    ensures
        final(dst)@ == old(dst)@ + src@,
{
    let mut i: usize = 0;
    while i < src.len()
        invariant
            i <= src.len(),
            dst@ == old(dst)@ + src@.take(i as int),
        decreases src.len() - i,
    {
        dst.push(src[i]);
        i = i + 1;
        assert(dst@ =~= old(dst)@ + src@.take(i as int));
    }
    assert(src@.take(src.len() as int) =~= src@);
}

/// The records after one call (see `apply_call`).
fn apply_call_exec(records: Vec<CryptographicRecord>, u: &UnifiedCrypt, set_ts: bool) -> (r: Vec<
    CryptographicRecord,
>)
    ensures
        record_models(r@) == apply_call(record_models(records@), u@, set_ts),
{
    let ghost models = record_models(records@);
    let ghost pred = |r: CryptRecordModel| r.hashcode == u.hashcode;
    let mut cands: Vec<&CryptographicRecord> = Vec::new();
    let mut j: usize = 0;
    while j < records.len()
        invariant
            models == record_models(records@),
            pred == (|r: CryptRecordModel| r.hashcode == u.hashcode),
            j <= records.len(),
            cands@.map_values(|c: &CryptographicRecord| c@) == models.take(j as int).filter(pred),
        decreases records.len() - j,
    {
        proof {
            assert(models.take(j + 1) =~= models.take(j as int).push(models[j as int]));
            models.take(j as int).lemma_filter_push(models[j as int], pred);
        }
        if records[j].hashcode == u.hashcode {
            let ghost before = cands@;
            cands.push(&records[j]);
            assert(cands@.map_values(|c: &CryptographicRecord| c@) =~= before.map_values(
                |c: &CryptographicRecord| c@,
            ).push(models[j as int]));
        }
        j = j + 1;
    }
    assert(models.take(records.len() as int) =~= models);
    let ghost cand_models = cands@.map_values(|c: &CryptographicRecord| c@);
    let ghost tss = candidate_timestamps(models, u.hashcode);
    assert(record_timestamps(cands@) =~= tss);
    let closest = match find_closest(u.timestamp, cands) {
        Some(c) => Some((c.hashcode, c.timestamp)),
        None => None,
    };
    match closest {
        None => {
            assert(!(exists|j: int| 0 <= j < tss.len() && tss[j] <= u.timestamp));
            records
        },
        Some((hashcode, timestamp)) => {
            proof {
                let i = choose|i: int|
                    is_first_latest(tss, u.timestamp, i) && tss[i] == timestamp && cand_models[i].hashcode
                        == hashcode;
                assert(is_latest_not_after(tss, u.timestamp, timestamp));
                let t = choose|t: u128| is_latest_not_after(tss, u.timestamp, t);
                assert(t == timestamp);
                models.lemma_filter_pred(pred, i);
            }
            let ghost f = |r: CryptRecordModel|
                if r.timestamp == timestamp && r.hashcode == u.hashcode {
                    absorb(r, u@, set_ts)
                } else {
                    r
                };
            let n = records.len();
            let mut src = records;
            let mut out: Vec<CryptographicRecord> = Vec::new();
            let mut k: usize = 0;
            assert(models.skip(0) =~= models);
            while src.len() > 0
                invariant
                    hashcode == u.hashcode,
                    f == (|r: CryptRecordModel|
                        if r.timestamp == timestamp && r.hashcode == u.hashcode {
                            absorb(r, u@, set_ts)
                        } else {
                            r
                        }),
                    record_models(out@) == models.take(k as int).map_values(f),
                    record_models(src@) == models.skip(k as int),
                    k + src.len() == models.len(),
                    n == models.len(),
                decreases src.len(),
            {
                let ghost old_src = src@;
                let mut r = src.remove(0);
                assert(src@ =~= old_src.subrange(1, old_src.len() as int));
                assert(models.skip(k as int)[0] == r@);
                if r.timestamp == timestamp && r.hashcode == hashcode {
                    if r.is_encryption {
                        append_bytes(&mut r.plaintext, &u.input);
                        append_bytes(&mut r.ciphertext, &u.output);
                    } else {
                        append_bytes(&mut r.plaintext, &u.output);
                        append_bytes(&mut r.ciphertext, &u.input);
                    }
                    if set_ts {
                        r.timestamp = u.timestamp;
                    }
                }
                let ghost before = out@;
                out.push(r);
                proof {
                    assert(models.take(k + 1) =~= models.take(k as int).push(models[k as int]));
                    assert(record_models(out@) =~= record_models(before).push(r@));
                    assert forall|j: int| 0 <= j < src@.len() implies record_models(src@)[j]
                        == models.skip(k + 1)[j] by {
                        assert(record_models(old_src)[j + 1] == models.skip(k as int)[j + 1]);
                    }
                    assert(record_models(src@) =~= models.skip(k + 1));
                }
                k = k + 1;
            }
            assert(models.take(k as int) =~= models);
            out
        },
    }
}

/// The records after each of the calls, in order (see `apply_calls`).
fn apply_calls_exec(records: Vec<CryptographicRecord>, calls: &Vec<UnifiedCrypt>, set_ts: bool) -> (r: Vec<
    CryptographicRecord,
>)
    ensures
        record_models(r@) == apply_calls(record_models(records@), call_models(calls@), set_ts),
{
    let ghost start = record_models(records@);
    let ghost cs = call_models(calls@);
    let mut records = records;
    let mut i: usize = 0;
    assert(cs.take(0) =~= Seq::<CryptCallModel>::empty());
    while i < calls.len()
        invariant
            cs == call_models(calls@),
            i <= calls.len(),
            record_models(records@) == apply_calls(start, cs.take(i as int), set_ts),
        decreases calls.len() - i,
    {
        proof {
            assert(cs.take(i + 1).drop_last() =~= cs.take(i as int));
            assert(cs.take(i + 1).last() == calls@[i as int]@);
        }
        records = apply_call_exec(records, &calls[i], set_ts);
        i = i + 1;
    }
    assert(cs.take(calls.len() as int) =~= cs);
    records
}

impl AppData {
    /// Recovers the app's cipher records from its events: the cipher events
    /// (all but the first event are examined) are taken out of `events`, the
    /// initialisations start records, and the `update` and then the `doFinal`
    /// calls are fed to them in time order. Nothing changes when there are no
    /// events.
    pub fn load_cryptographic(&mut self)
        ensures
            old(self).events@.len() == 0 ==> final(self).events@ == old(self).events@
                && final(self).cryptographic == old(self).cryptographic,
            old(self).events@.len() > 0 ==> {
                &&& final(self).events@ == remaining_events(old(self).events@)
                &&& record_models(final(self).cryptographic@) == crypto_records_of(old(self).events@)
            },
            final(self).data == old(self).data,
            final(self).device_id == old(self).device_id,
            final(self).session == old(self).session,
    {
        let event_len = self.events.len();
        if event_len == 0 {
            return;
        }
        let ghost ev = self.events@;
        let ghost visited = visit_order(ev);
        let mut do_finals: Vec<UnifiedCrypt> = Vec::new();
        let mut records: Vec<CryptographicRecord> = Vec::new();
        let mut updates: Vec<UnifiedCrypt> = Vec::new();
        let mut i = event_len - 1;
        assert(visited.take(0) =~= Seq::<Events>::empty());
        while i != 0
            invariant
                ev.len() == event_len,
                visited == visit_order(ev),
                self.data == old(self).data,
                self.device_id == old(self).device_id,
                self.session == old(self).session,
                i < self.events@.len(),
                i < event_len,
                self.events@.take(i + 1) == ev.take(i + 1),
                remaining_events(ev) == strip_crypto_events(self.events@, i as int),
                call_models(do_finals@) == final_calls(visited.take(event_len - 1 - i)),
                call_models(updates@) == update_calls(visited.take(event_len - 1 - i)),
                record_models(records@) == init_records(visited.take(event_len - 1 - i)),
            decreases i,
        {
            let ghost k = event_len - 1 - i;
            let ghost cur = self.events@;
            proof {
                assert(visited[k] == ev[i as int]);
                assert(cur[i as int] == cur.take(i + 1)[i as int]);
                assert(visited.take(k + 1).drop_last() =~= visited.take(k));
                assert(visited.take(k + 1).last() == ev[i as int]);
            }
            let c = classify(&self.events[i]);
            match c {
                CryptEvent::Final(u) => {
                    let ghost before = do_finals@;
                    do_finals.push(u);
                    assert(call_models(do_finals@) =~= call_models(before).push(u@));
                    self.events.swap_remove(i);
                },
                CryptEvent::Update(u) => {
                    let ghost before = updates@;
                    updates.push(u);
                    assert(call_models(updates@) =~= call_models(before).push(u@));
                    self.events.swap_remove(i);
                },
                CryptEvent::Init(r) => {
                    let ghost before = records@;
                    records.push(r);
                    assert(record_models(records@) =~= record_models(before).push(r@));
                    self.events.swap_remove(i);
                },
                CryptEvent::Unrelated => {},
            }
            proof {
                assert(self.events@.take(i as int) =~= ev.take(i as int)) by {
                    assert(cur.take(i as int) =~= cur.take(i + 1).take(i as int));
                    assert(ev.take(i as int) =~= ev.take(i + 1).take(i as int));
                }
            }
            i = i - 1;
        }
        assert(visited.len() == event_len - 1);
        assert(visited.take(event_len - 1) =~= visited);
        let updates = sort_calls(updates);
        let do_finals = sort_calls(do_finals);
        let records = apply_calls_exec(records, &updates, true);
        let records = apply_calls_exec(records, &do_finals, false);
        self.cryptographic = Arc::new(records);
    }
}

} // verus!
