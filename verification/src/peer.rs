use vstd::prelude::*;
use std::collections::HashSet;
use std::sync::Arc;
use sha1::{Sha1, Digest};
use crate::bitfield::{decode_availability, unpacks, packs, lemma_availability_roundtrip};
use crate::bytes::{be_bytes, push_be_bytes};
use crate::networking::{HELLO_RESPONSE, CHUNK_RESPONSE, ERROR_MESSAGE};

verus! {

broadcast use vstd::std_specs::hash::group_hash_axioms;

/// The value of a hexadecimal digit (either case).
pub open spec fn hex_digit_value(c: char) -> Option<nat> {
    if '0' <= c <= '9' {
        Some((c as int - '0' as int) as nat)
    } else if 'a' <= c <= 'f' {
        Some((c as int - 'a' as int + 10) as nat)
    } else if 'A' <= c <= 'F' {
        Some((c as int - 'A' as int + 10) as nat)
    } else {
        None
    }
}

/// What `hex::decode` makes of a text: where it has an even number of
/// characters, all hexadecimal digits, the bytes that each pair of digits
/// spells (high digit first); `None` otherwise.
pub open spec fn hex_decoded(text: Seq<char>) -> Option<Seq<u8>> {
    if text.len() % 2 == 0 && forall|i: int| 0 <= i < text.len() ==> #[trigger] hex_digit_value(text[i]) is Some {
        Some(Seq::new(
            text.len() / 2,
            |k: int| (hex_digit_value(text[2 * k])->0 * 16 + hex_digit_value(text[2 * k + 1])->0) as u8,
        ))
    } else {
        None
    }
}

/// The error that `hex::decode` reports for `text`.
pub uninterp spec fn hex_decode_error(text: Seq<char>) -> hex::FromHexError;

/// `hex::decode`: fails on an odd number of characters or a character that
/// is not a hexadecimal digit, and otherwise turns each pair of digits into
/// a byte, as `hex_decoded` states; its error is `hex_decode_error(text)`.
#[verifier::external_body]
fn decode_hex(text: &str) -> (r: Result<Vec<u8>, hex::FromHexError>)
    ensures
        r is Ok <==> hex_decoded(text@) is Some,
        r matches Ok(v) ==> hex_decoded(text@) == Some(v@),
        r matches Err(e) ==> e == hex_decode_error(text@),
{
    hex::decode(text)
}

/// The payload of the request that asks a peer which chunks it has: the
/// torrent's id, decoded from hexadecimal.
pub fn hello_request_payload(torrent_id: &str) -> (r: Result<Vec<u8>, hex::FromHexError>)
    ensures
        r is Ok <==> hex_decoded(torrent_id@) is Some,
        r matches Ok(v) ==> hex_decoded(torrent_id@) == Some(v@),
        r matches Err(e) ==> e == hex_decode_error(torrent_id@),
{
    decode_hex(torrent_id)
}

/// What is wrong with a peer's reply.
pub enum ReplyError {
    /// The peer answered with an error message; this is its payload.
    PeerError(Vec<u8>),
    /// The peer answered with a message of an unexpected type.
    UnexpectedMethod(u8),
    /// The requested chunk index has no expected hash.
    InvalidChunkIndex,
    /// The chunk's SHA-1 hash is not the expected one.
    HashMismatch { expected: [u8; 20], received: [u8; 20] },
}

/// The chunks a peer has, from its reply to a hello request: the bitfield
/// of a hello response, unpacked; an error for an error message or any
/// other message type.
pub fn availability_from_reply(method: u8, data: &Vec<u8>) -> (r: Result<Vec<bool>, ReplyError>)
    ensures
        method == HELLO_RESPONSE ==> (r matches Ok(a) && unpacks(a@, data@)),
        method == ERROR_MESSAGE ==> (r matches Err(ReplyError::PeerError(d)) && d@ == data@),
        method != HELLO_RESPONSE && method != ERROR_MESSAGE ==> r == Err::<Vec<bool>, ReplyError>(ReplyError::UnexpectedMethod(method)),
{
    if method == HELLO_RESPONSE {
        Ok(decode_availability(data.as_slice()))
    } else if method == ERROR_MESSAGE {
        Err(ReplyError::PeerError(data.clone()))
    } else {
        Err(ReplyError::UnexpectedMethod(method))
    }
}

/// The indices, in increasing order, of the chunks that the peer has
/// (`available`) and that are still needed.
pub open spec fn download_indices(available: Seq<bool>, needed: Set<u64>) -> Seq<usize>
    decreases available.len(),
{
    if available.len() == 0 {
        Seq::empty()
    } else {
        let i = available.len() - 1;
        let rest = download_indices(available.drop_last(), needed);
        if available[i] && needed.contains(i as u64) {
            rest.push(i as usize)
        } else {
            rest
        }
    }
}

/// The chunks to ask a peer for: those it has that are still needed.
pub fn chunks_to_download(available: &Vec<bool>, needed: &HashSet<u64>) -> (r: Vec<usize>)
    ensures
        r@ == download_indices(available@, needed@),
{
    let mut r: Vec<usize> = Vec::new();
    let mut i: usize = 0;
    assert(available@.take(0) =~= Seq::<bool>::empty());
    while i < available.len()
        invariant
            i <= available@.len(),
            r@ == download_indices(available@.take(i as int), needed@),
        decreases available@.len() - i,
    {
        let idx = i as u64;
        assert(available@.take(i + 1).drop_last() =~= available@.take(i as int));
        if available[i] && needed.contains(&idx) {
            r.push(i);
        }
        i = i + 1;
    }
    assert(available@.take(available@.len() as int) =~= available@);
    r
}

/// The payload of a request for chunk `chunk`: its index as eight
/// big-endian bytes.
pub fn chunk_request_payload(chunk: usize) -> (r: Vec<u8>)
    ensures
        r@ == be_bytes(chunk as nat, 8),
{
    let mut r: Vec<u8> = Vec::new();
    push_be_bytes(&mut r, chunk as u64, 8);
    assert(r@ =~= be_bytes(chunk as nat, 8));
    r
}

/// The SHA-1 digest of `data`, as computed by the `sha1` crate.
pub uninterp spec fn sha1_digest(data: Seq<u8>) -> Seq<u8>;

/// Calculates the SHA-1 hash of `data` with `sha1::Sha1`; the result is
/// `sha1_digest(data)`.
#[verifier::external_body]
fn calculate_hash(data: &Vec<u8>) -> (r: [u8; 20])
    ensures
        r@ == sha1_digest(data@),
{
    let mut hasher = Sha1::new();
    hasher.update(data);
    let result = hasher.finalize();
    result.as_slice().try_into().unwrap()
}

fn same_hash(a: &[u8; 20], b: &[u8; 20]) -> (r: bool)
    ensures
        r == (a@ == b@),
{
    let mut i: usize = 0;
    while i < 20
        invariant
            i <= 20,
            a@.len() == 20,
            b@.len() == 20,
            forall|j: int| 0 <= j < i ==> a@[j] == b@[j],
        decreases 20 - i,
    {
        if a[i] != b[i] {
            return false;
        }
        i = i + 1;
    }
    assert(a@ =~= b@);
    true
}

/// Checks a peer's reply to a request for chunk `chunk`: it must be a chunk
/// response whose SHA-1 hash is the one that `chunk_hashes` expects for
/// that chunk.
pub fn check_chunk_reply(method: u8, data: &Vec<u8>, chunk: usize, chunk_hashes: &Vec<[u8; 20]>) -> (r: Result<(), ReplyError>)
    ensures
        method == ERROR_MESSAGE ==> (r matches Err(ReplyError::PeerError(d)) && d@ == data@),
        method != CHUNK_RESPONSE && method != ERROR_MESSAGE
            ==> r == Err::<(), ReplyError>(ReplyError::UnexpectedMethod(method)),
        method == CHUNK_RESPONSE && chunk >= chunk_hashes@.len()
            ==> r == Err::<(), ReplyError>(ReplyError::InvalidChunkIndex),
        method == CHUNK_RESPONSE && chunk < chunk_hashes@.len() ==> {
            if sha1_digest(data@) == chunk_hashes@[chunk as int]@ {
                r is Ok
            } else {
                r matches Err(ReplyError::HashMismatch { expected, received })
                    && expected == chunk_hashes@[chunk as int] && received@ == sha1_digest(data@)
            }
        },
{
    if method == ERROR_MESSAGE {
        return Err(ReplyError::PeerError(data.clone()));
    }
    if method != CHUNK_RESPONSE {
        return Err(ReplyError::UnexpectedMethod(method));
    }
    if chunk >= chunk_hashes.len() {
        return Err(ReplyError::InvalidChunkIndex);
    }
    let expected = chunk_hashes[chunk];
    let received = calculate_hash(data);
    compare_chunk_hash(expected, received)
}

/// Accepts a chunk whose hash is `received` where `expected` is its
/// expected hash: equal hashes pass, and different ones are a mismatch
/// that carries both.
pub fn compare_chunk_hash(expected: [u8; 20], received: [u8; 20]) -> (r: Result<(), ReplyError>)
    ensures
        expected@ == received@ ==> r is Ok,
        expected@ != received@ ==> r == Err::<(), ReplyError>(ReplyError::HashMismatch { expected, received }),
{
    if same_hash(&received, &expected) {
        Ok(())
    } else {
        Err(ReplyError::HashMismatch { expected, received })
    }
}

/// Tells the polling of all peers to stop.
pub enum PMControl {
    Stop,
}

/// Why polling a peer failed.
pub enum PollError {
    /// The peer with this id is to be dropped.
    DropPeer(String),
    /// Any other failure, described.
    Other(String),
}

/// `tokio::sync::Semaphore::new`: a semaphore with `permits` permits. It
/// panics above `Semaphore::MAX_PERMITS` (`usize::MAX >> 3`), which
/// `requires` leaves out. Nothing is stated of the semaphore.
#[verifier::external_body]
fn new_semaphore(permits: usize) -> tokio::sync::Semaphore
    requires
        permits <= usize::MAX / 8,
{
    tokio::sync::Semaphore::new(permits)
}

/// The number of requests that may be in flight to one peer at once.
pub const PEER_REQUEST_LIMIT: usize = 3;

/// A peer the client downloads from.
pub struct PeerState {
    pub id: String,
    pub addr: String,
    pub timeout_counter: u8,
    pub limit: Arc<tokio::sync::Semaphore>,
}

impl PeerState {
    /// A peer with this id and address that has not timed out yet.
    pub fn new(id: String, addr: String) -> (r: Arc<Self>)
        ensures
            r.id@ == id@,
            r.addr@ == addr@,
            r.timeout_counter == 0,
    {
        Arc::new(PeerState {
            id,
            addr,
            timeout_counter: 0,
            limit: Arc::new(new_semaphore(PEER_REQUEST_LIMIT)),
        })
    }

    /// Counts one more timeout; true once the peer has timed out three
    /// times. The counter must not be at its maximum.
    pub fn record_timeout(&mut self) -> (give_up: bool)
        requires
            old(self).timeout_counter < 255,
        ensures
            final(self).timeout_counter == old(self).timeout_counter + 1,
            final(self).id == old(self).id,
            final(self).addr == old(self).addr,
            final(self).limit == old(self).limit,
            give_up == (final(self).timeout_counter >= 3),
    {
        self.timeout_counter = self.timeout_counter + 1;
        self.timeout_counter >= 3
    }
}

/// The texts of a list of strings.
pub open spec fn texts(v: Seq<String>) -> Seq<Seq<char>> {
    v.map_values(|s: String| s@)
}

/// Whether the peer `id` is kept: it is not the client itself and no
/// filter is set, or the filter names it.
pub open spec fn peer_selected(id: Seq<char>, own_id: Seq<char>, filter: Seq<Seq<char>>) -> bool {
    (id != own_id && filter.len() == 0) || filter.contains(id)
}

/// The `[id, ip]` entries of a tracker's peer list that are kept, as
/// `(id, ip)` pairs, in order.
pub open spec fn selected_peers(list: Seq<[String; 2]>, own_id: Seq<char>, filter: Seq<Seq<char>>) -> Seq<(Seq<char>, Seq<char>)>
    decreases list.len(),
{
    if list.len() == 0 {
        Seq::empty()
    } else {
        let rest = selected_peers(list.drop_last(), own_id, filter);
        let entry = list.last();
        if peer_selected(entry[0]@, own_id, filter) {
            rest.push((entry[0]@, entry[1]@))
        } else {
            rest
        }
    }
}

/// The peers whose id is not `id`, in order.
pub open spec fn without_peer(peers: Seq<Arc<PeerState>>, id: Seq<char>) -> Seq<Arc<PeerState>>
    decreases peers.len(),
{
    if peers.len() == 0 {
        Seq::empty()
    } else {
        let rest = without_peer(peers.drop_first(), id);
        if peers[0].id@ != id {
            seq![peers[0]] + rest
        } else {
            rest
        }
    }
}

/// The chunk indices below `n` that are still needed, in increasing order.
pub open spec fn needed_below(n: nat, needed: Set<u64>) -> Seq<u64>
    decreases n,
{
    if n == 0 {
        Seq::empty()
    } else {
        let rest = needed_below((n - 1) as nat, needed);
        if needed.contains((n - 1) as u64) {
            rest.push((n - 1) as u64)
        } else {
            rest
        }
    }
}

fn contains_string(v: &Vec<String>, s: &String) -> (r: bool)
    ensures
        r == texts(v@).contains(s@),
{
    let mut i: usize = 0;
    while i < v.len()
        invariant
            i <= v@.len(),
            forall|j: int| 0 <= j < i ==> v@[j]@ != s@,
        decreases v@.len() - i,
    {
        if v[i] == *s {
            assert(texts(v@)[i as int] == s@);
            return true;
        }
        i = i + 1;
    }
    assert forall|j: int| 0 <= j < texts(v@).len() implies texts(v@)[j] != s@ by {
        assert(texts(v@)[j] == v@[j]@);
    }
    false
}

/// The chunks that a disk check found: `checked[i]` for each `i` where
/// `on_disk[i]`.
pub open spec fn found_chunks(checked: Seq<u64>, on_disk: Seq<bool>) -> Set<u64> {
    Set::new(|c: u64| exists|i: int| 0 <= i < checked.len() && #[trigger] checked[i] == c && on_disk[i])
}

/// What happens to the peer manager.
pub enum ManagerEvent {
    /// The tracker sent a new list of `[id, ip]` entries.
    PeerList(Vec<[String; 2]>),
    /// The timer ticked and every peer was polled; `stop` tells whether a
    /// poll asked to stop.
    Polled { stop: bool },
    /// The files of the chunks `checked` were looked up: `on_disk[i]` tells
    /// whether the file of `checked[i]` exists.
    DiskChecked { checked: Vec<u64>, on_disk: Vec<bool> },
}

/// What the peer manager does next.
pub enum ManagerAction {
    /// Wait for the next event.
    Wait,
    /// Look up the files of these chunks.
    CheckDisk(Vec<u64>),
    /// End without building the file.
    Exit,
    /// Build the file from its chunks, then end.
    Assemble,
}

/// The state of the task that downloads from peers.
pub struct PeerManagerState {
    pub peers: Vec<Arc<PeerState>>,
    pub needed_chunks: HashSet<u64>,
    pub chunk_hashes: Vec<[u8; 20]>,
    pub output_file_folder: std::path::PathBuf,
    pub torrent_id: String,
    pub filter: Vec<String>,
    pub output_file: std::path::PathBuf,
}

impl PeerManagerState {
    /// Everything but the peers is as in `other`.
    pub open spec fn same_but_peers(&self, other: &PeerManagerState) -> bool {
        &&& self.needed_chunks@ == other.needed_chunks@
        &&& self.chunk_hashes@ == other.chunk_hashes@
        &&& self.output_file_folder == other.output_file_folder
        &&& self.torrent_id@ == other.torrent_id@
        &&& self.filter@ == other.filter@
        &&& self.output_file == other.output_file
    }

    /// Everything but the needed chunks is as in `other`.
    pub open spec fn same_but_needed(&self, other: &PeerManagerState) -> bool {
        &&& self.peers@ == other.peers@
        &&& self.chunk_hashes@ == other.chunk_hashes@
        &&& self.output_file_folder == other.output_file_folder
        &&& self.torrent_id@ == other.torrent_id@
        &&& self.filter@ == other.filter@
        &&& self.output_file == other.output_file
    }

    /// Replaces the peers with those of a tracker's new list that are kept
    /// (see `peer_selected`). Each `[id, ip]` entry becomes a peer whose
    /// `id` is the entry's `ip` and whose `addr` is the entry's `id`.
    pub fn update_peer_list(&mut self, list: Vec<[String; 2]>, own_id: &str)
        ensures
            final(self).same_but_peers(old(self)),
            final(self).peers@.len() == selected_peers(list@, own_id@, texts(old(self).filter@)).len(),
            forall|i: int| 0 <= i < final(self).peers@.len() ==> {
                let e = #[trigger] selected_peers(list@, own_id@, texts(old(self).filter@))[i];
                &&& final(self).peers@[i].id@ == e.1
                &&& final(self).peers@[i].addr@ == e.0
                &&& final(self).peers@[i].timeout_counter == 0
            },
    {
        let own = String::from_str(own_id);
        let ghost filter = texts(self.filter@);
        let mut peers: Vec<Arc<PeerState>> = Vec::new();
        let mut i: usize = 0;
        assert(list@.take(0) =~= Seq::<[String; 2]>::empty());
        while i < list.len()
            invariant
                i <= list@.len(),
                own@ == own_id@,
                filter == texts(self.filter@),
                peers@.len() == selected_peers(list@.take(i as int), own_id@, filter).len(),
                forall|k: int| 0 <= k < peers@.len() ==> {
                    let e = #[trigger] selected_peers(list@.take(i as int), own_id@, filter)[k];
                    &&& peers@[k].id@ == e.1
                    &&& peers@[k].addr@ == e.0
                    &&& peers@[k].timeout_counter == 0
                },
            decreases list@.len() - i,
        {
            assert(list@.take(i + 1).drop_last() =~= list@.take(i as int));
            let entry = &list[i];
            let id = &entry[0];
            let ip = &entry[1];
            let not_self = !(*id == own);
            let keep = (not_self && self.filter.len() == 0) || contains_string(&self.filter, id);
            if keep {
                peers.push(PeerState::new(ip.clone(), id.clone()));
            }
            i = i + 1;
        }
        assert(list@.take(list@.len() as int) =~= list@);
        self.peers = peers;
    }

    /// Takes the outcome of polling one peer: a stop request ends the
    /// polling (true), a request to drop a peer removes every peer with that
    /// id, and anything else changes nothing.
    pub fn apply_poll_result(&mut self, result: Result<Option<PMControl>, PollError>) -> (stop: bool)
        ensures
            stop == (result matches Ok(Some(PMControl::Stop))),
            final(self).same_but_peers(old(self)),
            match result {
                Err(PollError::DropPeer(id)) => final(self).peers@ == without_peer(old(self).peers@, id@),
                _ => final(self).peers@ == old(self).peers@,
            },
    {
        match result {
            Ok(Some(PMControl::Stop)) => true,
            Err(PollError::DropPeer(id)) => {
                self.drop_peer(&id);
                false
            },
            _ => false,
        }
    }

    fn drop_peer(&mut self, id: &String)
        ensures
            final(self).same_but_peers(old(self)),
            final(self).peers@ == without_peer(old(self).peers@, id@),
    {
        let mut rest: Vec<Arc<PeerState>> = Vec::new();
        std::mem::swap(&mut rest, &mut self.peers);
        let ghost all = rest@;
        let mut kept: Vec<Arc<PeerState>> = Vec::new();
        assert(all.skip(0) =~= all);
        while rest.len() > 0
            invariant
                without_peer(all, id@) == kept@ + without_peer(rest@, id@),
            decreases rest@.len(),
        {
            let ghost before = rest@;
            let p = rest.remove(0);
            assert(before.drop_first() =~= rest@);
            if !(p.id == *id) {
                kept.push(p);
                assert(without_peer(before, id@) == seq![before[0]] + without_peer(rest@, id@));
            }
            assert(without_peer(all, id@) =~= kept@ + without_peer(rest@, id@));
        }
        assert(kept@ + without_peer(rest@, id@) =~= kept@);
        self.peers = kept;
    }

    /// The indices of the chunks still needed, in increasing order, among
    /// the torrent's chunks.
    pub fn chunks_to_check(&self) -> (r: Vec<u64>)
        ensures
            r@ == needed_below(self.chunk_hashes@.len(), self.needed_chunks@),
    {
        let mut r: Vec<u64> = Vec::new();
        let mut i: usize = 0;
        while i < self.chunk_hashes.len()
            invariant
                i <= self.chunk_hashes@.len(),
                r@ == needed_below(i as nat, self.needed_chunks@),
            decreases self.chunk_hashes@.len() - i,
        {
            let idx = i as u64;
            if self.needed_chunks.contains(&idx) {
                r.push(idx);
            }
            i = i + 1;
        }
        r
    }

    /// Takes the result of a disk check: `checked` are the chunks looked for
    /// (as `chunks_to_check` gives them) and `on_disk[i]` tells whether the
    /// file of `checked[i]` exists. The chunks found are no longer needed;
    /// the result tells whether no chunk is needed any more.
    pub fn record_disk_check(&mut self, checked: &Vec<u64>, on_disk: &Vec<bool>) -> (finished: bool)
        requires
            checked@.len() == on_disk@.len(),
        ensures
            final(self).same_but_needed(old(self)),
            final(self).needed_chunks@ == old(self).needed_chunks@.difference(found_chunks(checked@, on_disk@)),
            finished == final(self).needed_chunks@.is_empty(),
            forall|i: int| 0 <= i < checked@.len() && on_disk@[i] ==> !final(self).needed_chunks@.contains(#[trigger] checked@[i]),
            forall|c: u64| #[trigger] final(self).needed_chunks@.contains(c) ==> old(self).needed_chunks@.contains(c),
            forall|c: u64| old(self).needed_chunks@.contains(c) && !final(self).needed_chunks@.contains(c) ==>
                exists|i: int| 0 <= i < checked@.len() && #[trigger] checked@[i] == c && on_disk@[i],
    {
        let ghost start = self.needed_chunks@;
        let mut i: usize = 0;
        while i < checked.len()
            invariant
                checked@.len() == on_disk@.len(),
                i <= checked@.len(),
                self.same_but_needed(old(self)),
                start == old(self).needed_chunks@,
                self.needed_chunks@ == start.difference(found_chunks(checked@.take(i as int), on_disk@.take(i as int))),
            decreases checked@.len() - i,
        {
            if on_disk[i] {
                self.needed_chunks.remove(&checked[i]);
            }
            proof {
                let a = found_chunks(checked@.take(i as int), on_disk@.take(i as int));
                let b = found_chunks(checked@.take(i + 1), on_disk@.take(i + 1));
                assert forall|c: u64| b.contains(c) <==> (a.contains(c) || (on_disk@[i as int] && c == checked@[i as int])) by {
                    if a.contains(c) {
                        let j = choose|j: int| 0 <= j < i && #[trigger] checked@.take(i as int)[j] == c && on_disk@.take(i as int)[j];
                        assert(checked@.take(i + 1)[j] == c && on_disk@.take(i + 1)[j]);
                    }
                    if b.contains(c) {
                        let j = choose|j: int| 0 <= j < i + 1 && #[trigger] checked@.take(i + 1)[j] == c && on_disk@.take(i + 1)[j];
                        if j < i {
                            assert(checked@.take(i as int)[j] == c && on_disk@.take(i as int)[j]);
                        }
                    }
                    if on_disk@[i as int] && c == checked@[i as int] {
                        assert(checked@.take(i + 1)[i as int] == c && on_disk@.take(i + 1)[i as int]);
                    }
                }
                assert(self.needed_chunks@ =~= start.difference(b));
            }
            i = i + 1;
        }
        assert(checked@.take(checked@.len() as int) =~= checked@);
        assert(on_disk@.take(on_disk@.len() as int) =~= on_disk@);
        proof {
            lemma_found_chunks(checked@, on_disk@);
        }
        self.needed_chunks.is_empty()
    }

    /// The peer manager's decision on an event: a new peer list replaces the
    /// peers (as `update_peer_list` does) and it waits; after polling, it
    /// exits if a poll asked to stop and otherwise looks up the files of the
    /// chunks `chunks_to_check` gives; after the look-up, the chunks found are
    /// no longer needed (as `record_disk_check` does), and it builds the file
    /// once no chunk is needed, waiting otherwise. It exits on a stop request
    /// and on nothing else, and builds the file only when every chunk it
    /// needed was found on disk.
    pub fn step(&mut self, event: ManagerEvent, own_id: &str) -> (action: ManagerAction)
        requires
            event matches ManagerEvent::DiskChecked { checked, on_disk } ==> checked@.len() == on_disk@.len(),
        ensures
            action is Exit <==> event matches ManagerEvent::Polled { stop: true },
            match event {
                ManagerEvent::PeerList(list) => {
                    &&& action is Wait
                    &&& final(self).same_but_peers(old(self))
                    &&& final(self).peers@.len() == selected_peers(list@, own_id@, texts(old(self).filter@)).len()
                    &&& forall|i: int| 0 <= i < final(self).peers@.len() ==> {
                        let e = #[trigger] selected_peers(list@, own_id@, texts(old(self).filter@))[i];
                        &&& final(self).peers@[i].id@ == e.1
                        &&& final(self).peers@[i].addr@ == e.0
                        &&& final(self).peers@[i].timeout_counter == 0
                    }
                },
                ManagerEvent::Polled { stop } => {
                    &&& final(self).same_but_needed(old(self))
                    &&& final(self).needed_chunks@ == old(self).needed_chunks@
                    &&& !stop ==> (action matches ManagerAction::CheckDisk(c)
                        && c@ == needed_below(old(self).chunk_hashes@.len(), old(self).needed_chunks@))
                },
                ManagerEvent::DiskChecked { checked, on_disk } => {
                    &&& final(self).same_but_needed(old(self))
                    &&& final(self).needed_chunks@ == old(self).needed_chunks@.difference(found_chunks(checked@, on_disk@))
                    &&& forall|i: int| 0 <= i < checked@.len() && on_disk@[i] ==> !final(self).needed_chunks@.contains(#[trigger] checked@[i])
                    &&& (action is Assemble <==> final(self).needed_chunks@.is_empty())
                    &&& (action is Assemble || action is Wait)
                    &&& action is Assemble ==> forall|c: u64| old(self).needed_chunks@.contains(c)
                        ==> #[trigger] found_chunks(checked@, on_disk@).contains(c)
                },
            },
    {
        match event {
            ManagerEvent::PeerList(list) => {
                self.update_peer_list(list, own_id);
                ManagerAction::Wait
            },
            ManagerEvent::Polled { stop } => {
                if stop {
                    ManagerAction::Exit
                } else {
                    ManagerAction::CheckDisk(self.chunks_to_check())
                }
            },
            ManagerEvent::DiskChecked { checked, on_disk } => {
                let ghost before = self.needed_chunks@;
                if self.record_disk_check(&checked, &on_disk) {
                    assert forall|c: u64| before.contains(c) implies #[trigger] found_chunks(checked@, on_disk@).contains(c) by {
                        assert(!self.needed_chunks@.contains(c));
                    }
                    ManagerAction::Assemble
                } else {
                    ManagerAction::Wait
                }
            },
        }
    }
}

/// The chunks asked of a peer are exactly those it has that are still
/// needed, each once, in increasing order.
pub proof fn lemma_download_indices(available: Seq<bool>, needed: Set<u64>)
    requires
        available.len() <= usize::MAX,
    ensures
        forall|i: int| 0 <= i < available.len() ==>
            (download_indices(available, needed).contains(i as usize) <==> (available[i] && needed.contains(i as u64))),
        forall|k: int| 0 <= k < download_indices(available, needed).len() ==>
            #[trigger] download_indices(available, needed)[k] < available.len(),
        forall|j: int, k: int| 0 <= j < k < download_indices(available, needed).len() ==>
            download_indices(available, needed)[j] < download_indices(available, needed)[k],
    decreases available.len(),
{
    if available.len() > 0 {
        let init = available.drop_last();
        lemma_download_indices(init, needed);
        let rest = download_indices(init, needed);
        let n = available.len() - 1;
        assert forall|i: int| 0 <= i < available.len() implies
            (download_indices(available, needed).contains(i as usize) <==> (available[i] && needed.contains(i as u64))) by {
            if i < n {
                assert(init[i] == available[i]);
                if download_indices(available, needed).contains(i as usize) {
                    let k = choose|k: int| 0 <= k < download_indices(available, needed).len()
                        && download_indices(available, needed)[k] == i as usize;
                    if k < rest.len() {
                        assert(rest[k] == i as usize);
                    }
                }
                if rest.contains(i as usize) {
                    let k = choose|k: int| 0 <= k < rest.len() && rest[k] == i as usize;
                    assert(download_indices(available, needed)[k] == i as usize);
                }
            } else {
                if available[i] && needed.contains(i as u64) {
                    assert(download_indices(available, needed)[rest.len() as int] == i as usize);
                } else {
                    if rest.contains(i as usize) {
                        let k = choose|k: int| 0 <= k < rest.len() && rest[k] == i as usize;
                        assert(rest[k] < init.len());
                    }
                }
            }
        }
    }
}

/// The chunks checked on disk are exactly the needed ones among the
/// torrent's chunks, each once, in increasing order.
pub proof fn lemma_needed_below(n: nat, needed: Set<u64>)
    requires
        n <= u64::MAX + 1,
    ensures
        forall|x: u64| #[trigger] needed_below(n, needed).contains(x) <==> (x < n && needed.contains(x)),
        forall|j: int, k: int| 0 <= j < k < needed_below(n, needed).len() ==>
            needed_below(n, needed)[j] < needed_below(n, needed)[k],
        forall|k: int| 0 <= k < needed_below(n, needed).len() ==> #[trigger] needed_below(n, needed)[k] < n,
    decreases n,
{
    if n > 0 {
        let m = (n - 1) as nat;
        lemma_needed_below(m, needed);
        let rest = needed_below(m, needed);
        assert forall|x: u64| #[trigger] needed_below(n, needed).contains(x) <==> (x < n && needed.contains(x)) by {
            if needed_below(n, needed).contains(x) {
                let k = choose|k: int| 0 <= k < needed_below(n, needed).len() && needed_below(n, needed)[k] == x;
                if k < rest.len() {
                    assert(rest[k] == x);
                    assert(rest.contains(x));
                }
            }
            if x < n && needed.contains(x) {
                if x < m {
                    assert(rest.contains(x));
                    let k = choose|k: int| 0 <= k < rest.len() && rest[k] == x;
                    assert(needed_below(n, needed)[k] == x);
                } else {
                    assert(needed_below(n, needed)[rest.len() as int] == x);
                }
            }
        }
    }
}

/// Every kept peer passes the selection, and every entry that passes is
/// kept.
pub proof fn lemma_selected_peers(list: Seq<[String; 2]>, own_id: Seq<char>, filter: Seq<Seq<char>>)
    ensures
        selected_peers(list, own_id, filter).len() <= list.len(),
        forall|k: int| 0 <= k < selected_peers(list, own_id, filter).len() ==>
            peer_selected(#[trigger] selected_peers(list, own_id, filter)[k].0, own_id, filter),
        forall|i: int| 0 <= i < list.len() && peer_selected(list[i][0]@, own_id, filter) ==>
            selected_peers(list, own_id, filter).contains((list[i][0]@, list[i][1]@)),
    decreases list.len(),
{
    if list.len() > 0 {
        let init = list.drop_last();
        lemma_selected_peers(init, own_id, filter);
        let rest = selected_peers(init, own_id, filter);
        let all = selected_peers(list, own_id, filter);
        assert forall|i: int| 0 <= i < list.len() && peer_selected(list[i][0]@, own_id, filter) implies
            all.contains((list[i][0]@, list[i][1]@)) by {
            if i < list.len() - 1 {
                assert(init[i] == list[i]);
                let k = choose|k: int| 0 <= k < rest.len() && rest[k] == (init[i][0]@, init[i][1]@);
                assert(all[k] == rest[k]);
            } else {
                assert(all[rest.len() as int] == (list[i][0]@, list[i][1]@));
            }
        }
        assert forall|k: int| 0 <= k < all.len() implies peer_selected(#[trigger] all[k].0, own_id, filter) by {
            if k < rest.len() {
                assert(all[k] == rest[k]);
            }
        }
    }
}

/// Dropping a peer removes every peer with its id and keeps every other
/// peer, in order.
pub proof fn lemma_without_peer(peers: Seq<Arc<PeerState>>, id: Seq<char>)
    ensures
        forall|k: int| 0 <= k < without_peer(peers, id).len() ==> #[trigger] without_peer(peers, id)[k].id@ != id,
        forall|i: int| 0 <= i < peers.len() && peers[i].id@ != id ==> without_peer(peers, id).contains(peers[i]),
        forall|k: int| 0 <= k < without_peer(peers, id).len() ==> peers.contains(#[trigger] without_peer(peers, id)[k]),
    decreases peers.len(),
{
    if peers.len() > 0 {
        let tail = peers.drop_first();
        lemma_without_peer(tail, id);
        let rest = without_peer(tail, id);
        let all = without_peer(peers, id);
        let off: int = if peers[0].id@ != id { 1 } else { 0 };
        assert forall|k: int| 0 <= k < all.len() implies #[trigger] all[k].id@ != id && peers.contains(all[k]) by {
            if k >= off {
                assert(all[k] == rest[k - off]);
                let j = choose|j: int| 0 <= j < tail.len() && tail[j] == rest[k - off];
                assert(peers[j + 1] == tail[j]);
            } else {
                assert(all[k] == peers[0]);
            }
        }
        assert forall|i: int| 0 <= i < peers.len() && peers[i].id@ != id implies all.contains(peers[i]) by {
            if i == 0 {
                assert(all[0] == peers[0]);
            } else {
                assert(tail[i - 1] == peers[i]);
                let k = choose|k: int| 0 <= k < rest.len() && rest[k] == tail[i - 1];
                assert(all[k + off] == rest[k]);
            }
        }
    }
}

/// When a server packs which chunks it holds and the client unpacks that
/// bitfield, the client asks for exactly the chunks that the server holds
/// and the client still needs.
pub proof fn lemma_requests_follow_availability(held: Seq<bool>, bits: Seq<u8>, decoded: Seq<bool>, needed: Set<u64>)
    requires
        packs(bits, held),
        unpacks(decoded, bits),
        decoded.len() <= usize::MAX,
    ensures
        forall|i: int| 0 <= i < decoded.len() ==>
            (#[trigger] download_indices(decoded, needed).contains(i as usize)
                <==> (i < held.len() && held[i] && needed.contains(i as u64))),
{
    lemma_availability_roundtrip(held, bits, decoded);
    lemma_download_indices(decoded, needed);
    assert forall|i: int| 0 <= i < decoded.len() implies
        (#[trigger] download_indices(decoded, needed).contains(i as usize)
            <==> (i < held.len() && held[i] && needed.contains(i as u64))) by {
        if i < held.len() {
            assert(decoded.take(held.len() as int)[i] == decoded[i]);
        } else {
            assert(!decoded[i]);
        }
    }
}

/// The peer manager finishes only when every chunk it needed has been
/// found on disk, and a needed chunk outside the torrent's chunks keeps it
/// from ever finishing: if the chunks checked are those of
/// `chunks_to_check` and no needed chunk is left, then each needed chunk is
/// below the number of chunks and its file was found.
pub proof fn lemma_finishes_only_when_all_found(n: nat, needed: Set<u64>, on_disk: Seq<bool>)
    requires
        n <= u64::MAX + 1,
        on_disk.len() == needed_below(n, needed).len(),
        needed.difference(found_chunks(needed_below(n, needed), on_disk)).is_empty(),
    ensures
        forall|c: u64| needed.contains(c) ==> c < n && exists|i: int|
            0 <= i < on_disk.len() && #[trigger] needed_below(n, needed)[i] == c && on_disk[i],
{
    lemma_needed_below(n, needed);
    assert forall|c: u64| needed.contains(c) implies c < n && exists|i: int|
        0 <= i < on_disk.len() && #[trigger] needed_below(n, needed)[i] == c && on_disk[i] by {
        assert(!needed.difference(found_chunks(needed_below(n, needed), on_disk)).contains(c));
        assert(found_chunks(needed_below(n, needed), on_disk).contains(c));
        let i = choose|i: int| 0 <= i < needed_below(n, needed).len() && #[trigger] needed_below(n, needed)[i] == c && on_disk[i];
        assert(needed_below(n, needed)[i] < n);
    }
}

/// The chunks a disk check found are exactly the checked chunks whose file
/// exists: every chunk `checked[i]` with `on_disk[i]`, whatever its index,
/// and no other.
pub proof fn lemma_found_chunks(checked: Seq<u64>, on_disk: Seq<bool>)
    requires
        checked.len() == on_disk.len(),
    ensures
        forall|i: int| 0 <= i < checked.len() && on_disk[i] ==> found_chunks(checked, on_disk).contains(#[trigger] checked[i]),
        forall|c: u64| #[trigger] found_chunks(checked, on_disk).contains(c) ==>
            exists|i: int| 0 <= i < checked.len() && checked[i] == c && on_disk[i],
{
    assert forall|i: int| 0 <= i < checked.len() && on_disk[i] implies found_chunks(checked, on_disk).contains(#[trigger] checked[i]) by {
        assert(checked[i] == checked[i] && on_disk[i]);
    }
}

/// Every kept peer comes from an entry of the list, as its `(id, ip)`.
proof fn lemma_selected_from_list(list: Seq<[String; 2]>, own_id: Seq<char>, filter: Seq<Seq<char>>)
    ensures
        forall|k: int| 0 <= k < selected_peers(list, own_id, filter).len() ==> exists|i: int|
            0 <= i < list.len() && #[trigger] selected_peers(list, own_id, filter)[k] == (list[i][0]@, list[i][1]@),
    decreases list.len(),
{
    if list.len() > 0 {
        let init = list.drop_last();
        lemma_selected_from_list(init, own_id, filter);
        let rest = selected_peers(init, own_id, filter);
        let all = selected_peers(list, own_id, filter);
        assert forall|k: int| 0 <= k < all.len() implies exists|i: int|
            0 <= i < list.len() && #[trigger] all[k] == (list[i][0]@, list[i][1]@) by {
            if k < rest.len() {
                assert(all[k] == rest[k]);
                let i = choose|i: int| 0 <= i < init.len() && #[trigger] rest[k] == (init[i][0]@, init[i][1]@);
                assert(init[i] == list[i]);
            } else {
                assert(all[k] == (list[list.len() - 1][0]@, list[list.len() - 1][1]@));
            }
        }
    }
}

/// Peer selection honours the filter: with a filter, every kept peer is one
/// the filter names, and every entry it names is kept (the client itself
/// too); without one, every entry but the client itself is kept. Kept peers
/// come from the list's entries.
pub proof fn lemma_peer_filter(list: Seq<[String; 2]>, own_id: Seq<char>, filter: Seq<Seq<char>>)
    ensures
        filter.len() > 0 ==> forall|k: int| 0 <= k < selected_peers(list, own_id, filter).len() ==>
            filter.contains(#[trigger] selected_peers(list, own_id, filter)[k].0),
        filter.len() == 0 ==> forall|k: int| 0 <= k < selected_peers(list, own_id, filter).len() ==>
            #[trigger] selected_peers(list, own_id, filter)[k].0 != own_id,
        forall|i: int| 0 <= i < list.len() && (filter.contains(#[trigger] list[i][0]@) || (filter.len() == 0 && list[i][0]@ != own_id)) ==>
            selected_peers(list, own_id, filter).contains((list[i][0]@, list[i][1]@)),
        forall|k: int| 0 <= k < selected_peers(list, own_id, filter).len() ==> exists|i: int|
            0 <= i < list.len() && #[trigger] selected_peers(list, own_id, filter)[k] == (list[i][0]@, list[i][1]@),
{
    lemma_selected_peers(list, own_id, filter);
    lemma_selected_from_list(list, own_id, filter);
    let sel = selected_peers(list, own_id, filter);
    assert forall|k: int| 0 <= k < sel.len() implies (filter.len() > 0 ==> filter.contains(#[trigger] sel[k].0))
        && (filter.len() == 0 ==> sel[k].0 != own_id) by {
        assert(peer_selected(sel[k].0, own_id, filter));
        if filter.len() == 0 {
            assert(!filter.contains(sel[k].0));
        }
    }
    assert forall|i: int| 0 <= i < list.len() && (filter.contains(#[trigger] list[i][0]@) || (filter.len() == 0 && list[i][0]@ != own_id))
        implies sel.contains((list[i][0]@, list[i][1]@)) by {
        assert(peer_selected(list[i][0]@, own_id, filter));
    }
}

} // verus!
