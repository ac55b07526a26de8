//! The encrypted peer mesh: key derivation from the shared cluster secret,
//! the sealed datagram format (`nonce || ciphertext`), and the bookkeeping
//! of the remote nodes heard from.
use vstd::prelude::*;
use vstd::utf8::encode_utf8;
use std::collections::hash_map::DefaultHasher;
use std::hash::Hasher;
use vstd::std_specs::hash::DefaultHasherAdditionalSpecFns;
use chacha20poly1305::aead::{Aead, KeyInit};
use crate::text::{chars_of, contains_char, decimal, lemma_filter_step, str_eq, string_of, u64_to_decimal};
use vstd::string::StringExecFns;
use chacha20poly1305::{ChaCha20Poly1305, Key, Nonce};

verus! {

/// Size in bytes of the derived cluster key.
pub const KEY_LEN: usize = 32;

/// Size in bytes of the ChaCha20-Poly1305 nonce that prefixes every datagram.
pub const NONCE_LEN: usize = 12;

/// Size in bytes of the Poly1305 tag that ends every ciphertext.
pub const TAG_LEN: usize = 16;

/// Seconds after which a silent node is dropped from the cluster view.
pub const NODE_TIMEOUT_SECS: u64 = 30;

/// The 32-byte key after XOR-folding `bytes` into it, byte `i` landing on
/// position `i % 32`.
pub open spec fn xor_fold(bytes: Seq<u8>) -> Seq<u8>
    decreases bytes.len(),
{
    if bytes.len() == 0 {
        Seq::new(32, |j: int| 0u8)
    } else {
        let k = xor_fold(bytes.drop_last());
        let j = (bytes.len() - 1) % 32;
        k.update(j, k[j] ^ bytes.last())
    }
}

/// What `str::hash` feeds a `DefaultHasher` for `s`: its UTF-8 bytes, then
/// the terminator byte `0xff`, and the hash that results.
pub open spec fn secret_hash(s: Seq<char>) -> u64 {
    DefaultHasher::spec_finish(seq![encode_utf8(s), seq![0xffu8]])
}

/// Byte `i` (little-endian) of `h`.
pub open spec fn le_byte(h: u64, i: int) -> u8 {
    ((h >> (8 * i) as u64) & 0xff) as u8
}

/// The cluster key derived from a secret: the UTF-8 bytes of the secret
/// XOR-folded over 32 positions, then the 8 little-endian bytes of the
/// secret's hash XOR-ed onto positions 16..24.
pub open spec fn derived_key(s: Seq<char>) -> Seq<u8> {
    let k = xor_fold(encode_utf8(s));
    let h = secret_hash(s);
    Seq::new(32, |j: int| if 16 <= j < 24 { k[j] ^ le_byte(h, j - 16) } else { k[j] })
}

/// Derives the 256-bit ChaCha20 key from the textual cluster secret.
pub fn derive_256bit_key(secret: &str) -> (key: [u8; 32])
    ensures
        key@ == derived_key(secret@),
{
    let mut key = [0u8; 32];
    let secret_bytes = secret.as_bytes();
    let ghost bytes = secret_bytes@;
    assert(key@ =~= xor_fold(bytes.take(0)));
    let n = secret_bytes.len();
    let mut i: usize = 0;
    while i < n
        invariant
            n == bytes.len(),
            bytes == secret_bytes@,
            i <= n,
            key@ == xor_fold(bytes.take(i as int)),
        decreases n - i,
    {
        let j = i % 32;
        key[j] = key[j] ^ secret_bytes[i];
        assert(bytes.take(i + 1).drop_last() =~= bytes.take(i as int));
        i += 1;
    }
    assert(bytes.take(n as int) =~= bytes);
    let ghost folded = key@;

    let terminator: [u8; 1] = [0xffu8];
    assert(terminator@ =~= seq![0xffu8]);
    let mut hasher = DefaultHasher::new();
    hasher.write(secret_bytes);
    hasher.write(terminator.as_slice());
    assert(hasher@ =~= seq![encode_utf8(secret@), seq![0xffu8]]);
    let h = hasher.finish();

    let mut b: usize = 0;
    while b < 8
        invariant
            b <= 8,
            h == secret_hash(secret@),
            folded == xor_fold(encode_utf8(secret@)),
            forall|j: int| 0 <= j < 32 && !(16 <= j < 16 + b) ==> key@[j] == folded[j],
            forall|j: int| 16 <= j < 16 + b ==> key@[j] == folded[j] ^ le_byte(h, j - 16),
        decreases 8 - b,
    {
        let byte = ((h >> (8 * b as u64)) & 0xff) as u8;
        key[b + 16] = key[b + 16] ^ byte;
        b += 1;
    }
    assert(key@ =~= derived_key(secret@));
    key
}


/// Name for the ciphertext (with its 16-byte tag appended) that
/// ChaCha20-Poly1305 produces for `plaintext` under `key` and `nonce`,
/// with empty associated data.
pub uninterp spec fn chacha_seal(key: Seq<u8>, nonce: Seq<u8>, plaintext: Seq<u8>) -> Seq<u8>;

/// Name for what ChaCha20-Poly1305 decryption of `ciphertext` under `key`
/// and `nonce` yields: the plaintext when the tag authenticates, else `None`.
pub uninterp spec fn chacha_open(key: Seq<u8>, nonce: Seq<u8>, ciphertext: Seq<u8>) -> Option<Seq<u8>>;

/// The largest plaintext length (exclusive) that the cipher accepts: the
/// ChaCha20 block counter must not wrap.
pub open spec fn seal_limit() -> int {
    64int * 0xffff_ffffint
}

/// Calls `Aead::encrypt` of `chacha20poly1305::ChaCha20Poly1305`.
/// Claimed, as its source shows: it fails only when the plaintext spans
/// `u32::MAX` ChaCha20 blocks or more; the result is the plaintext's
/// encryption followed by a 16-byte tag, and decryption of it under the same
/// key and nonce gives the plaintext back.
#[verifier::external_body]
fn aead_encrypt(key: &[u8; 32], nonce: &[u8; 12], plaintext: &[u8]) -> (res: Option<Vec<u8>>)
    ensures
        res is Some <==> plaintext@.len() < seal_limit(),
        res matches Some(c) ==> {
            &&& c@ == chacha_seal(key@, nonce@, plaintext@)
            &&& c@.len() == plaintext@.len() + TAG_LEN
            &&& chacha_open(key@, nonce@, c@) == Some(plaintext@)
        },
{
    let cipher = ChaCha20Poly1305::new(&Key::from(*key));
    cipher.encrypt(&Nonce::from(*nonce), plaintext).ok()
}

/// Calls `Aead::decrypt` of `chacha20poly1305::ChaCha20Poly1305`.
/// Claimed: the result is what the name `chacha_open` gives for these
/// arguments, and a ciphertext shorter than the tag is refused (the
/// default `decrypt_in_place` of the `aead` crate checks that first).
#[verifier::external_body]
fn aead_decrypt(key: &[u8; 32], nonce: &[u8], ciphertext: &[u8]) -> (res: Option<Vec<u8>>)
    requires
        nonce@.len() == NONCE_LEN,
    ensures
        match res {
            Some(p) => chacha_open(key@, nonce@, ciphertext@) == Some(p@),
            None => chacha_open(key@, nonce@, ciphertext@) is None,
        },
        ciphertext@.len() < TAG_LEN ==> res is None,
{
    let cipher = ChaCha20Poly1305::new(&Key::from(*key));
    cipher.decrypt(Nonce::from_slice(nonce), ciphertext).ok()
}

/// The datagram that carries `payload`: the nonce, then the sealed payload.
pub open spec fn sealed_datagram(key: Seq<u8>, nonce: Seq<u8>, payload: Seq<u8>) -> Seq<u8> {
    nonce + chacha_seal(key, nonce, payload)
}

/// What a received datagram opens to: nothing unless it is longer than the
/// nonce; otherwise the decryption of the bytes after the nonce.
pub open spec fn opened_datagram(key: Seq<u8>, datagram: Seq<u8>) -> Option<Seq<u8>> {
    if datagram.len() > NONCE_LEN {
        chacha_open(key, datagram.take(NONCE_LEN as int), datagram.skip(NONCE_LEN as int))
    } else {
        None
    }
}

/// Seals `payload` into a datagram: `nonce || ciphertext || tag`.
/// Whatever it returns opens again, under the same key, to `payload`.
pub fn seal_datagram(key: &[u8; 32], nonce: &[u8; 12], payload: &[u8]) -> (res: Option<Vec<u8>>)
    ensures
        res is Some <==> payload@.len() < seal_limit(),
        res matches Some(d) ==> d@ == sealed_datagram(key@, nonce@, payload@),
        res matches Some(d) ==> opened_datagram(key@, d@) == Some(payload@),
        res matches Some(d) ==> d@.len() == NONCE_LEN + payload@.len() + TAG_LEN,
{
    match aead_encrypt(key, nonce, payload) {
        Some(ciphertext) => {
            let mut datagram: Vec<u8> = Vec::new();
            let mut i: usize = 0;
            while i < NONCE_LEN
                invariant
                    i <= NONCE_LEN,
                    datagram@ == nonce@.take(i as int),
                decreases NONCE_LEN - i,
            {
                datagram.push(nonce[i]);
                assert(nonce@.take(i + 1) =~= nonce@.take(i as int).push(nonce@[i as int]));
                i += 1;
            }
            let mut k: usize = 0;
            while k < ciphertext.len()
                invariant
                    k <= ciphertext.len(),
                    datagram@ == nonce@ + ciphertext@.take(k as int),
                decreases ciphertext.len() - k,
            {
                datagram.push(ciphertext[k]);
                assert(ciphertext@.take(k + 1) =~= ciphertext@.take(k as int).push(ciphertext@[k as int]));
                k += 1;
            }
            assert(ciphertext@.take(ciphertext.len() as int) =~= ciphertext@);
            assert(datagram@.take(NONCE_LEN as int) =~= nonce@);
            assert(datagram@.skip(NONCE_LEN as int) =~= ciphertext@);
            Some(datagram)
        },
        None => None,
    }
}

/// Opens a received datagram: refuses one no longer than the nonce, and
/// otherwise decrypts the bytes after the nonce, which must authenticate.
pub fn open_datagram(key: &[u8; 32], datagram: &[u8]) -> (res: Option<Vec<u8>>)
    ensures
        match res {
            Some(p) => opened_datagram(key@, datagram@) == Some(p@),
            None => opened_datagram(key@, datagram@) is None,
        },
{
    if datagram.len() <= NONCE_LEN {
        return None;
    }
    let (nonce, ciphertext) = datagram.split_at(NONCE_LEN);
    assert(nonce@ =~= datagram@.take(NONCE_LEN as int));
    assert(ciphertext@ =~= datagram@.skip(NONCE_LEN as int));
    aead_decrypt(key, nonce, ciphertext)
}


/// What the mesh remembers of a remote node: its host label, the telemetry
/// it last sent, and when (seconds since the epoch) that arrived.
pub struct RemoteNodeState<T> {
    pub host: String,
    pub telemetry: T,
    pub last_seen: u64,
}

/// Whether a node last heard from at `last_seen` still counts as active at
/// `now_ts`.
pub open spec fn is_active(now_ts: u64, last_seen: u64) -> bool {
    now_ts - last_seen <= NODE_TIMEOUT_SECS
}

/// The hosts of a sequence of node records, in order.
pub open spec fn hosts_of<T>(nodes: Seq<RemoteNodeState<T>>) -> Seq<Seq<char>> {
    nodes.map_values(|n: RemoteNodeState<T>| n.host@)
}

/// No two records share a host.
pub open spec fn distinct_hosts<T>(s: Seq<RemoteNodeState<T>>) -> bool {
    forall|i: int, j: int| 0 <= i < j < s.len() ==> s[i].host@ != s[j].host@
}

/// Replacing a record by one with the same host keeps hosts distinct.
proof fn lemma_update_keeps_distinct<T>(s: Seq<RemoteNodeState<T>>, i: int, x: RemoteNodeState<T>)
    requires
        distinct_hosts(s),
        0 <= i < s.len(),
        x.host@ == s[i].host@,
    ensures
        distinct_hosts(s.update(i, x)),
{
    let t = s.update(i, x);
    assert forall|a: int, b: int| 0 <= a < b < t.len() implies t[a].host@ != t[b].host@ by {
        assert(t[a].host@ == s[a].host@);
        assert(t[b].host@ == s[b].host@);
    }
}

/// Appending a record whose host has none keeps hosts distinct.
proof fn lemma_push_keeps_distinct<T>(s: Seq<RemoteNodeState<T>>, x: RemoteNodeState<T>)
    requires
        distinct_hosts(s),
        forall|k: int| 0 <= k < s.len() ==> s[k].host@ != x.host@,
    ensures
        distinct_hosts(s.push(x)),
{
    let t = s.push(x);
    assert forall|a: int, b: int| 0 <= a < b < t.len() implies t[a].host@ != t[b].host@ by {
        if b < s.len() {
            assert(t[a] == s[a]);
            assert(t[b] == s[b]);
        } else {
            assert(t[a] == s[a]);
        }
    }
}

/// Whether some record of `s` has host `h`.
pub open spec fn seq_has_host<T>(s: Seq<RemoteNodeState<T>>, h: Seq<char>) -> bool {
    exists|i: int| 0 <= i < s.len() && s[i].host@ == h
}

/// The records after a report `x`: the record with `x`'s host replaced in
/// place, or `x` appended when its host had none.
pub open spec fn upserted<T>(s: Seq<RemoteNodeState<T>>, x: RemoteNodeState<T>) -> Seq<RemoteNodeState<T>> {
    if seq_has_host(s, x.host@) {
        s.update(choose|i: int| 0 <= i < s.len() && s[i].host@ == x.host@, x)
    } else {
        s.push(x)
    }
}

/// With distinct hosts, the record replaced is the one at the host's index.
proof fn lemma_upserted_at<T>(s: Seq<RemoteNodeState<T>>, i: int, x: RemoteNodeState<T>)
    requires
        distinct_hosts(s),
        0 <= i < s.len(),
        s[i].host@ == x.host@,
    ensures
        upserted(s, x) == s.update(i, x),
{
    let k = choose|k: int| 0 <= k < s.len() && s[k].host@ == x.host@;
    if k != i {
        if k < i {
            assert(s[k].host@ != s[i].host@);
        } else {
            assert(s[i].host@ != s[k].host@);
        }
    }
}

/// The state of the whole cluster as this node sees it: one record per
/// remote host, no host twice.
pub struct FleetClusterState<T> {
    nodes: Vec<RemoteNodeState<T>>,
}

impl<T> FleetClusterState<T> {
    /// The records, in the order in which their hosts were first heard.
    pub closed spec fn view_nodes(&self) -> Seq<RemoteNodeState<T>> {
        self.nodes@
    }

    /// No host occurs twice.
    pub open spec fn wf(&self) -> bool {
        distinct_hosts(self.view_nodes())
    }

    /// Whether `host` has a record.
    pub open spec fn has_host(&self, host: Seq<char>) -> bool {
        exists|i: int| 0 <= i < self.view_nodes().len() && self.view_nodes()[i].host@ == host
    }

    /// An empty cluster view.
    pub fn new() -> (s: Self)
        ensures
            s.wf(),
            s.view_nodes() == Seq::<RemoteNodeState<T>>::empty(),
    {
        FleetClusterState { nodes: Vec::new() }
    }

    /// Number of remote nodes on record.
    pub fn len(&self) -> (n: usize)
        ensures
            n == self.view_nodes().len(),
    {
        self.nodes.len()
    }

    /// The record of the `i`-th node.
    pub fn node(&self, i: usize) -> (r: &RemoteNodeState<T>)
        requires
            i < self.view_nodes().len(),
        ensures
            *r == self.view_nodes()[i as int],
    {
        &self.nodes[i]
    }

    /// Position of the record of `host`, if any.
    pub fn find_host(&self, host: &str) -> (res: Option<usize>)
        ensures
            match res {
                Some(i) => i < self.view_nodes().len() && self.view_nodes()[i as int].host@ == host@,
                None => !self.has_host(host@),
            },
    {
        let mut i: usize = 0;
        while i < self.nodes.len()
            invariant
                i <= self.nodes@.len(),
                forall|j: int| 0 <= j < i ==> self.nodes@[j].host@ != host@,
            decreases self.nodes@.len() - i,
        {
            if str_eq(self.nodes[i].host.as_str(), host) {
                return Some(i);
            }
            i += 1;
        }
        None
    }

    /// Whether `host` has a record.
    pub fn contains_host(&self, host: &str) -> (b: bool)
        ensures
            b == self.has_host(host@),
    {
        self.find_host(host).is_some()
    }

    /// Records a report from `host`: replaces its record if it has one (in
    /// place), else appends a new record.
    pub fn insert(&mut self, host: String, telemetry: T, last_seen: u64)
        requires
            old(self).wf(),
        ensures
            final(self).wf(),
            final(self).view_nodes() == upserted(
                old(self).view_nodes(),
                (RemoteNodeState { host, telemetry, last_seen }),
            ),
    {
        match self.find_host(host.as_str()) {
            Some(i) => {
                let ghost prev = self.nodes@;
                let ghost item = RemoteNodeState { host, telemetry, last_seen };
                self.nodes.set(i, RemoteNodeState { host, telemetry, last_seen });
                proof {
                    lemma_update_keeps_distinct(prev, i as int, item);
                    lemma_upserted_at(prev, i as int, item);
                }
            },
            None => {
                let ghost prev = self.nodes@;
                let ghost item = RemoteNodeState { host, telemetry, last_seen };
                self.nodes.push(RemoteNodeState { host, telemetry, last_seen });
                proof {
                    lemma_push_keeps_distinct(prev, item);
                }
            },
        }
    }

    /// Takes in a telemetry report that arrived at `now_ts`: a report from
    /// `local_host` itself is ignored; any other is recorded (replacing the
    /// sender's earlier record) and then the silent nodes are pruned.
    pub fn observe_report(&mut self, local_host: &str, host: String, telemetry: T, now_ts: u64)
        requires
            old(self).wf(),
        ensures
            final(self).wf(),
            host@ == local_host@ ==> final(self).view_nodes() == old(self).view_nodes(),
            host@ != local_host@ ==> final(self).view_nodes() == upserted(
                old(self).view_nodes(),
                (RemoteNodeState { host, telemetry, last_seen: now_ts }),
            ).filter(|n: RemoteNodeState<T>| is_active(now_ts, n.last_seen)),
    {
        if str_eq(host.as_str(), local_host) {
            return;
        }
        self.insert(host, telemetry, now_ts);
        self.prune_inactive_nodes(now_ts);
    }

    /// Drops every node silent for more than `NODE_TIMEOUT_SECS` at
    /// `now_ts`; the others keep their order.
    pub fn prune_inactive_nodes(&mut self, now_ts: u64)
        requires
            old(self).wf(),
        ensures
            final(self).wf(),
            final(self).view_nodes() == old(self).view_nodes().filter(
                |n: RemoteNodeState<T>| is_active(now_ts, n.last_seen),
            ),
    {
        let ghost pred = |n: RemoteNodeState<T>| is_active(now_ts, n.last_seen);
        let ghost orig = self.nodes@;
        proof {
            lemma_filter_keeps_distinct_hosts(orig, pred);
        }
        let mut i: usize = 0;
        let ghost mut j: int = 0;
        while i < self.nodes.len()
            invariant
                0 <= i <= j <= orig.len(),
                i <= self.nodes@.len(),
                self.nodes@.take(i as int) == orig.take(j).filter(pred),
                self.nodes@.skip(i as int) == orig.skip(j),
                self.nodes@.len() - i == orig.len() - j,
                pred == (|n: RemoteNodeState<T>| is_active(now_ts, n.last_seen)),
            decreases orig.len() - j,
        {
            let keep = now_ts.saturating_sub(self.nodes[i].last_seen) <= NODE_TIMEOUT_SECS;
            assert(orig[j] == self.nodes@[i as int]) by {
                assert(self.nodes@.skip(i as int)[0] == orig.skip(j)[0]);
            }
            proof {
                lemma_filter_step(orig, pred, j);
            }
            assert(keep == pred(orig[j]));
            if keep {
                i += 1;
                proof {
                    j = j + 1;
                }
                assert(self.nodes@.take(i as int) =~= self.nodes@.take(i - 1).push(self.nodes@[i - 1]));
                assert(self.nodes@.skip(i as int) =~= self.nodes@.skip(i - 1).drop_first());
                assert(orig.skip(j) =~= orig.skip(j - 1).drop_first());
            } else {
                let ghost before = self.nodes@;
                self.nodes.remove(i);
                proof {
                    j = j + 1;
                }
                assert(self.nodes@.take(i as int) =~= before.take(i as int));
                assert(self.nodes@.skip(i as int) =~= before.skip(i as int).drop_first());
                assert(orig.skip(j) =~= orig.skip(j - 1).drop_first());
            }
        }
        assert(orig.skip(j).len() == 0);
        assert(j == orig.len());
        assert(orig.take(j) =~= orig);
        assert(self.nodes@ =~= self.nodes@.take(i as int));
    }

    /// The remote nodes that count toward the cluster totals (every record
    /// whose host is not `local_host`), and the number of active nodes
    /// including the local one.
    pub fn compute_cluster_totals(&self, local_host: &str) -> (res: (Vec<&RemoteNodeState<T>>, usize))
        requires
            self.view_nodes().len() < usize::MAX,
        ensures
            res.0@.len() + 1 == res.1,
            res.0@.map_values(|r: &RemoteNodeState<T>| *r) == self.view_nodes().filter(
                |n: RemoteNodeState<T>| n.host@ != local_host@,
            ),
    {
        let ghost pred = |n: RemoteNodeState<T>| n.host@ != local_host@;
        let mut members: Vec<&RemoteNodeState<T>> = Vec::new();
        let mut active_count: usize = 1;
        let mut i: usize = 0;
        while i < self.nodes.len()
            invariant
                i <= self.nodes@.len(),
                self.nodes@.len() < usize::MAX,
                members@.map_values(|r: &RemoteNodeState<T>| *r) == self.nodes@.take(i as int).filter(pred),
                active_count == members@.len() + 1,
                members@.len() <= i,
                pred == (|n: RemoteNodeState<T>| n.host@ != local_host@),
            decreases self.nodes@.len() - i,
        {
            let node = &self.nodes[i];
            let ghost before = members@;
            proof {
                lemma_filter_step(self.nodes@, pred, i as int);
            }
            assert(pred(*node) == (node.host@ != local_host@));
            if !str_eq(node.host.as_str(), local_host) {
                members.push(node);
                active_count += 1;
                assert(members@.map_values(|r: &RemoteNodeState<T>| *r) =~= before.map_values(
                    |r: &RemoteNodeState<T>| *r).push(*node));
            }
            i += 1;
        }
        assert(self.nodes@.take(i as int) =~= self.nodes@);
        (members, active_count)
    }
}

/// The predicate by which pruning at `now_ts` keeps a record.
pub open spec fn active_at<T>(now_ts: u64) -> spec_fn(RemoteNodeState<T>) -> bool {
    |n: RemoteNodeState<T>| is_active(now_ts, n.last_seen)
}

/// A report from a host other than the local one leaves that host on
/// record with exactly the reported telemetry and arrival time, whatever
/// else the pruning removes.
pub proof fn lemma_reported_node_is_kept<T>(s: Seq<RemoteNodeState<T>>, x: RemoteNodeState<T>, now_ts: u64)
    requires
        distinct_hosts(s),
        x.last_seen == now_ts,
    ensures
        upserted(s, x).filter(active_at::<T>(now_ts)).contains(x),
{
    let u = upserted(s, x);
    let k: int = if seq_has_host(s, x.host@) {
        choose|i: int| 0 <= i < s.len() && s[i].host@ == x.host@
    } else {
        s.len() as int
    };
    assert(u[k] == x);
    assert(active_at::<T>(now_ts)(u[k]));
    u.lemma_filter_contains(active_at::<T>(now_ts), k);
}

/// After pruning at `now_ts` every record left is active, and pruning again
/// at the same time changes nothing.
pub proof fn lemma_prune_is_idempotent<T>(s: Seq<RemoteNodeState<T>>, now_ts: u64)
    ensures
        forall|i: int|
            0 <= i < s.filter(active_at::<T>(now_ts)).len() ==> is_active(
                now_ts,
                #[trigger] s.filter(active_at::<T>(now_ts))[i].last_seen,
            ),
        s.filter(active_at::<T>(now_ts)).filter(active_at::<T>(now_ts)) == s.filter(
            active_at::<T>(now_ts),
        ),
{
    let p = active_at::<T>(now_ts);
    let f = s.filter(p);
    assert forall|i: int| 0 <= i < f.len() implies is_active(now_ts, #[trigger] f[i].last_seen) by {
        s.lemma_filter_pred(p, i);
    }
    lemma_filter_all_true(f, p);
}

/// Filtering a sequence whose every element passes changes nothing.
pub proof fn lemma_filter_all_true<A>(s: Seq<A>, pred: spec_fn(A) -> bool)
    requires
        forall|i: int| 0 <= i < s.len() ==> pred(#[trigger] s[i]),
    ensures
        s.filter(pred) == s,
    decreases s.len(),
{
    reveal_with_fuel(Seq::filter, 1);
    if s.len() > 0 {
        let rest = s.drop_last();
        assert forall|i: int| 0 <= i < rest.len() implies pred(#[trigger] rest[i]) by {
            assert(rest[i] == s[i]);
        }
        lemma_filter_all_true(rest, pred);
        assert(pred(s[s.len() - 1]));
        assert(s =~= rest.push(s.last()));
    }
}

/// Filtering a sequence of records keeps their hosts distinct.
proof fn lemma_filter_keeps_distinct_hosts<T>(s: Seq<RemoteNodeState<T>>, pred: spec_fn(RemoteNodeState<T>) -> bool)
    requires
        distinct_hosts(s),
    ensures
        distinct_hosts(s.filter(pred)),
    decreases s.len(),
{
    reveal_with_fuel(Seq::filter, 1);
    if s.len() > 0 {
        let rest = s.drop_last();
        lemma_filter_keeps_distinct_hosts(rest, pred);
        if pred(s.last()) {
            let f = rest.filter(pred);
            assert forall|i: int| 0 <= i < f.len() implies f[i].host@ != s.last().host@ by {
                assert(rest.contains(f[i])) by {
                    lemma_filter_subset(rest, pred, i);
                }
            }
        }
    }
}

/// Every element of a filtered sequence comes from the sequence.
proof fn lemma_filter_subset<A>(s: Seq<A>, pred: spec_fn(A) -> bool, i: int)
    requires
        0 <= i < s.filter(pred).len(),
    ensures
        s.contains(s.filter(pred)[i]),
    decreases s.len(),
{
    reveal_with_fuel(Seq::filter, 1);
    if s.len() > 0 {
        let rest = s.drop_last();
        let f = rest.filter(pred);
        if i < f.len() {
            lemma_filter_subset(rest, pred, i);
            let k = choose|k: int| 0 <= k < rest.len() && rest[k] == f[i];
            assert(s[k] == rest[k]);
        } else {
            assert(s[s.len() - 1] == s.filter(pred)[i]);
        }
    }
}


/// The peer mesh service: its key, addresses and datagram handling.
pub struct P2PService;

/// The address a configured peer is sent to: as written when it names a
/// port (contains `:`), else at the mesh port.
pub open spec fn peer_target_of(peer: Seq<char>, port: u16) -> Seq<char> {
    if peer.contains(':') {
        peer
    } else {
        peer + ":"@ + decimal(port as nat)
    }
}

/// `host:port` as a `String`.
fn host_port(host: &str, port: u16) -> (s: String)
    ensures
        s@ == host@ + ":"@ + decimal(port as nat),
{
    let mut s = String::from_str(host);
    s.append(":");
    let digits = string_of(u64_to_decimal(port as u64).as_slice());
    s.append(digits.as_str());
    s
}

impl P2PService {
    /// The cluster key for a configured secret; there is none without a
    /// secret, and the mesh does not start.
    pub fn cluster_key(secret: &str) -> (key: Option<[u8; 32]>)
        ensures
            secret@.len() == 0 ==> key is None,
            secret@.len() > 0 ==> (key matches Some(k) && k@ == derived_key(secret@)),
    {
        if secret.is_empty() {
            None
        } else {
            Some(derive_256bit_key(secret))
        }
    }

    /// The address the mesh socket binds: every interface, at the mesh port.
    pub fn bind_address(port: u16) -> (a: String)
        ensures
            a@ == "0.0.0.0"@ + ":"@ + decimal(port as nat),
    {
        host_port("0.0.0.0", port)
    }

    /// The subnet broadcast address at the mesh port.
    pub fn broadcast_target(port: u16) -> (a: String)
        ensures
            a@ == "255.255.255.255"@ + ":"@ + decimal(port as nat),
    {
        host_port("255.255.255.255", port)
    }

    /// The address a configured peer is sent to.
    pub fn peer_target(peer: &str, port: u16) -> (a: String)
        ensures
            a@ == peer_target_of(peer@, port),
    {
        if contains_char(chars_of(peer).as_slice(), ':') {
            String::from_str(peer)
        } else {
            host_port(peer, port)
        }
    }
}

} // verus!
