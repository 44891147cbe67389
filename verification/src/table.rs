//! The pattern-database table: a map from phase key to a packed move-code
//! sequence, with minimum-length insertion, serialization into the bit
//! stream format, and replay of a stored sequence onto a cube.

use std::collections::HashMap;

use vstd::prelude::*;

use vstd::arithmetic::power2::pow2;

use crate::compressor::{bits_of, bytes_bits, pad_len, value_of, zero_pad, Compressor, Decompressor};
use crate::cube::{apply_moves, spec_rotate, wf, Cube, CubeView};
use crate::utils::{decode_move, face_from_index, move_text, moves_text, Face, Move, Rotation, RotType};

verus! {

/// The parameters of one phase table: its number, the key width in bits,
/// how many of the canonical moves its search may use, the search depth,
/// and the expected number of entries.
pub struct TableInfos {
    pub id: usize,
    pub key_sz: usize,
    pub set_sz: usize,
    pub rank: usize,
    pub cap: usize,
}

/// The moves a code sequence decodes to, in order.
pub open spec fn decoded_moves(codes: Seq<u8>) -> Seq<Move> {
    Seq::new(codes.len(), |i: int| decode_move(codes[i]))
}

/// The cube state after replaying a stored code sequence.
pub open spec fn apply_codes(c: CubeView, codes: Seq<u8>) -> CubeView {
    apply_moves(c, decoded_moves(codes))
}

/// The bits of one stored entry: the key, a 4-bit sequence length, then
/// five bits per move code.
pub open spec fn pack_entry(key: u64, codes: Seq<u8>, key_sz: nat) -> Seq<bool> {
    bits_of(key, key_sz) + bits_of(codes.len() as u64, 4) + pack_codes(codes)
}

/// Five bits per move code, in order.
pub open spec fn pack_codes(codes: Seq<u8>) -> Seq<bool>
    decreases codes.len(),
{
    if codes.len() == 0 {
        Seq::empty()
    } else {
        pack_codes(codes.drop_last()) + bits_of(codes.last() as u64, 5)
    }
}

/// The bits of a whole table: its entries in the order its keys were first
/// inserted.
pub open spec fn pack_table(keys: Seq<u64>, m: Map<u64, Vec<u8>>, key_sz: nat) -> Seq<bool>
    decreases keys.len(),
{
    if keys.len() == 0 {
        Seq::empty()
    } else {
        pack_table(keys.drop_last(), m, key_sz) + pack_entry(keys.last(), m[keys.last()]@, key_sz)
    }
}

/// The move codes read from the front of a bit stream, five bits each.
pub open spec fn parse_codes(bits: Seq<bool>, n: nat) -> Seq<u8> {
    Seq::new(n, |i: int| value_of(bits.subrange(5 * i, 5 * i + 5)) as u8)
}

/// The table a bit stream parses to, reading entries until fewer than
/// `key_sz` bits remain; a stream that ends inside an entry parses to
/// nothing.
pub open spec fn parse_table(bits: Seq<bool>, key_sz: nat, acc: Map<u64, Seq<u8>>) -> Option<
    Map<u64, Seq<u8>>,
>
    decreases bits.len(),
    when key_sz >= 8
{
    if bits.len() < key_sz {
        Some(acc)
    } else {
        let key = value_of(bits.take(key_sz as int)) as u64;
        let rest = bits.skip(key_sz as int);
        if rest.len() < 4 {
            None
        } else {
            let n = value_of(rest.take(4));
            let body = rest.skip(4);
            if body.len() < 5 * n {
                None
            } else {
                parse_table(
                    body.skip(5 * n as int),
                    key_sz,
                    acc.insert(key, parse_codes(body, n)),
                )
            }
        }
    }
}

/// The map of byte-string entries after inserting, in order, each listed
/// key with its stored sequence.
pub open spec fn insert_all(
    acc: Map<u64, Seq<u8>>,
    keys: Seq<u64>,
    m: Map<u64, Vec<u8>>,
) -> Map<u64, Seq<u8>>
    decreases keys.len(),
{
    if keys.len() == 0 {
        acc
    } else {
        insert_all(acc.insert(keys[0], m[keys[0]]@), keys.skip(1), m)
    }
}

/// Packed move codes take five bits each.
proof fn lemma_pack_codes_len(v: Seq<u8>)
    ensures
        pack_codes(v).len() == 5 * v.len(),
    decreases v.len(),
{
    if v.len() > 0 {
        lemma_pack_codes_len(v.drop_last());
        crate::compressor::lemma_bits_of_len(v.last() as nat, 5);
    }
}

/// The `x`-th five-bit field of a packed code sequence is the `x`-th code.
proof fn lemma_pack_codes_at(v: Seq<u8>, x: int)
    requires
        0 <= x < v.len(),
    ensures
        pack_codes(v).subrange(5 * x, 5 * x + 5) =~= bits_of(v[x] as u64, 5),
    decreases v.len(),
{
    lemma_pack_codes_len(v);
    lemma_pack_codes_len(v.drop_last());
    crate::compressor::lemma_bits_of_len(v.last() as nat, 5);
    if x < v.len() - 1 {
        lemma_pack_codes_at(v.drop_last(), x);
        assert(pack_codes(v).subrange(5 * x, 5 * x + 5) =~= pack_codes(v.drop_last()).subrange(
            5 * x,
            5 * x + 5,
        ));
    } else {
        assert(pack_codes(v).subrange(5 * x, 5 * x + 5) =~= bits_of(v.last() as u64, 5));
    }
}

/// A packed table decomposes from the front, first listed entry first.
proof fn lemma_pack_table_front(keys: Seq<u64>, m: Map<u64, Vec<u8>>, key_sz: nat)
    requires
        keys.len() >= 1,
    ensures
        pack_table(keys, m, key_sz) == pack_entry(keys[0], m[keys[0]]@, key_sz) + pack_table(
            keys.skip(1),
            m,
            key_sz,
        ),
    decreases keys.len(),
{
    let dl = keys.drop_last();
    if keys.len() == 1 {
        assert(dl =~= Seq::<u64>::empty());
        assert(keys.skip(1) =~= Seq::<u64>::empty());
        assert(pack_table(keys, m, key_sz) =~= pack_entry(keys[0], m[keys[0]]@, key_sz)
            + pack_table(keys.skip(1), m, key_sz));
    } else {
        lemma_pack_table_front(dl, m, key_sz);
        assert(dl[0] == keys[0]);
        assert(keys.skip(1).drop_last() =~= dl.skip(1));
        assert(keys.skip(1).last() == keys.last());
        assert(pack_table(keys.skip(1), m, key_sz) == pack_table(dl.skip(1), m, key_sz)
            + pack_entry(keys.last(), m[keys.last()]@, key_sz));
        assert((pack_entry(keys[0], m[keys[0]]@, key_sz) + pack_table(dl.skip(1), m, key_sz))
            + pack_entry(keys.last(), m[keys.last()]@, key_sz) =~= pack_entry(
            keys[0],
            m[keys[0]]@,
            key_sz,
        ) + pack_table(keys.skip(1), m, key_sz));
    }
}

/// Parsing consumes one packed entry and records it, whatever bits follow.
#[verifier::rlimit(100)]
#[verifier::spinoff_prover]
proof fn lemma_parse_entry_step(
    k: u64,
    v: Seq<u8>,
    key_sz: nat,
    rest: Seq<bool>,
    acc: Map<u64, Seq<u8>>,
)
    requires
        8 <= key_sz <= 64,
        (k as nat) < pow2(key_sz),
        entry_ok(v),
    ensures
        parse_table(pack_entry(k, v, key_sz) + rest, key_sz, acc) == parse_table(
            rest,
            key_sz,
            acc.insert(k, v),
        ),
{
    vstd::arithmetic::power2::lemma2_to64();
    let bits = pack_entry(k, v, key_sz) + rest;
    crate::compressor::lemma_bits_of_len(k as nat, key_sz);
    crate::compressor::lemma_bits_of_len(v.len() as nat, 4);
    lemma_pack_codes_len(v);
    assert(bits.len() >= key_sz);
    assert(bits.take(key_sz as int) =~= bits_of(k, key_sz));
    crate::compressor::lemma_bits_of_value_exact(k as nat, key_sz);
    let rest1 = bits.skip(key_sz as int);
    assert(rest1 =~= bits_of(v.len() as u64, 4) + pack_codes(v) + rest);
    assert(rest1.len() >= 4);
    assert(rest1.take(4) =~= bits_of(v.len() as u64, 4));
    crate::compressor::lemma_bits_of_value_exact(v.len() as nat, 4);
    let n = v.len() as nat;
    let body = rest1.skip(4);
    assert(body =~= pack_codes(v) + rest);
    assert(body.len() >= 5 * n);
    assert forall|x: int| 0 <= x < v.len() implies #[trigger] parse_codes(body, n)[x] == v[x] by {
        lemma_pack_codes_at(v, x);
        assert(body.subrange(5 * x, 5 * x + 5) =~= pack_codes(v).subrange(5 * x, 5 * x + 5));
        assert(body.subrange(5 * x, 5 * x + 5) =~= bits_of(v[x] as u64, 5));
        crate::compressor::lemma_bits_of_value_exact(v[x] as nat, 5);
        assert(v[x] < 32);
    }
    assert(parse_codes(body, n) =~= v);
    assert(body.skip(5 * n as int) =~= rest);
}

/// What inserting a key list holds: exactly the accumulated and listed keys,
/// listed keys mapping to their stored sequences.
proof fn lemma_insert_all(acc: Map<u64, Seq<u8>>, keys: Seq<u64>, m: Map<u64, Vec<u8>>)
    ensures
        forall|k: u64|
            #[trigger] insert_all(acc, keys, m).contains_key(k) <==> (acc.contains_key(k)
                || keys.contains(k)),
        forall|k: u64| keys.contains(k) ==> #[trigger] insert_all(acc, keys, m)[k] == m[k]@,
        forall|k: u64|
            !keys.contains(k) && acc.contains_key(k) ==> #[trigger] insert_all(acc, keys, m)[k]
                == acc[k],
    decreases keys.len(),
{
    if keys.len() > 0 {
        let acc1 = acc.insert(keys[0], m[keys[0]]@);
        lemma_insert_all(acc1, keys.skip(1), m);
        let r = insert_all(acc, keys, m);
        assert(r == insert_all(acc1, keys.skip(1), m));
        assert forall|k: u64| keys.contains(k) <==> (keys[0] == k || keys.skip(1).contains(
            k,
        )) by {
            if keys.contains(k) {
                let j = choose|j: int| 0 <= j < keys.len() && keys[j] == k;
                if j > 0 {
                    assert(keys.skip(1)[j - 1] == k);
                }
            }
            if keys.skip(1).contains(k) {
                let j = choose|j: int| 0 <= j < keys.skip(1).len() && keys.skip(1)[j] == k;
                assert(keys[j + 1] == k);
            }
            if keys[0] == k {
                assert(keys.contains(k));
            }
        }
        assert forall|k: u64|
            #[trigger] r.contains_key(k) <==> (acc.contains_key(k) || keys.contains(k)) by {
            assert(r.contains_key(k) <==> (acc1.contains_key(k) || keys.skip(1).contains(k)));
        }
        assert forall|k: u64| keys.contains(k) implies #[trigger] r[k] == m[k]@ by {
            if keys.skip(1).contains(k) {
                assert(r[k] == m[k]@);
            } else {
                assert(k == keys[0]);
                assert(acc1.contains_key(k) && acc1[k] == m[k]@);
                assert(r[k] == acc1[k]);
            }
        }
        assert forall|k: u64|
            !keys.contains(k) && acc.contains_key(k) implies #[trigger] r[k] == acc[k] by {
            assert(!keys.skip(1).contains(k));
            assert(k != keys[0]);
            assert(acc1.contains_key(k) && acc1[k] == acc[k]);
            assert(r[k] == acc1[k]);
        }
    }
}

/// The table save/load round trip: parsing the zero-padded serialization of
/// a table whose key list names exactly its keys, with well-formed entries
/// and keys inside the field width, yields exactly the table's entries.
pub proof fn lemma_save_load_round_trip(keys: Seq<u64>, m: Map<u64, Vec<u8>>, key_sz: nat)
    requires
        8 <= key_sz <= 64,
        forall|k: u64| m.contains_key(k) <==> keys.contains(k),
        forall|k: u64| m.contains_key(k) ==> entry_ok(#[trigger] m[k]@),
        forall|k: u64| #[trigger] m.contains_key(k) ==> (k as nat) < pow2(key_sz),
    ensures
        parse_table(zero_pad(pack_table(keys, m, key_sz)), key_sz, Map::empty()) == Some(
            m.map_values(|v: Vec<u8>| v@),
        ),
{
    let packed = pack_table(keys, m, key_sz);
    let pad = Seq::new(pad_len(packed.len() as int) as nat, |i: int| false);
    assert(zero_pad(packed) =~= packed + pad);
    assert(pad.len() < 8);
    assert forall|i: int| 0 <= i < keys.len() implies m.contains_key(#[trigger] keys[i])
        && entry_ok(m[keys[i]]@) && ((keys[i]) as nat) < pow2(key_sz) by {
        assert(keys.contains(keys[i]));
    }
    lemma_parse_pack(keys, m, key_sz, Map::empty(), pad);
    assert(parse_table(pad, key_sz, insert_all(Map::empty(), keys, m)) == Some(
        insert_all(Map::empty(), keys, m),
    ));
    lemma_insert_all(Map::empty(), keys, m);
    assert(insert_all(Map::empty(), keys, m) =~= m.map_values(|v: Vec<u8>| v@));
}

/// Parsing a packed key list in front of any tail records the listed
/// entries and goes on with the tail.
proof fn lemma_parse_pack(
    keys: Seq<u64>,
    m: Map<u64, Vec<u8>>,
    key_sz: nat,
    acc: Map<u64, Seq<u8>>,
    tail: Seq<bool>,
)
    requires
        8 <= key_sz <= 64,
        forall|i: int|
            0 <= i < keys.len() ==> m.contains_key(#[trigger] keys[i]) && entry_ok(m[keys[i]]@)
                && ((keys[i]) as nat) < pow2(key_sz),
    ensures
        parse_table(pack_table(keys, m, key_sz) + tail, key_sz, acc) == parse_table(
            tail,
            key_sz,
            insert_all(acc, keys, m),
        ),
    decreases keys.len(),
{
    if keys.len() == 0 {
        assert(pack_table(keys, m, key_sz) + tail =~= tail);
    } else {
        lemma_pack_table_front(keys, m, key_sz);
        let e0 = pack_entry(keys[0], m[keys[0]]@, key_sz);
        let rest = pack_table(keys.skip(1), m, key_sz) + tail;
        assert(pack_table(keys, m, key_sz) + tail =~= e0 + rest);
        lemma_parse_entry_step(keys[0], m[keys[0]]@, key_sz, rest, acc);
        assert forall|i: int|
            0 <= i < keys.skip(1).len() implies m.contains_key(#[trigger] keys.skip(1)[i])
            && entry_ok(m[keys.skip(1)[i]]@) && ((keys.skip(1)[i]) as nat) < pow2(key_sz) by {
            assert(keys.skip(1)[i] == keys[i + 1]);
        }
        lemma_parse_pack(keys.skip(1), m, key_sz, acc.insert(keys[0], m[keys[0]]@), tail);
    }
}

/// The mapping after one minimum-keeping insertion: a fresh key is added,
/// a shorter sequence replaces the stored one, anything else changes nothing.
pub open spec fn ins_min_spec(m: Map<u64, Vec<u8>>, key: u64, movs: Vec<u8>) -> Map<u64, Vec<u8>> {
    if !m.contains_key(key) || movs@.len() < m[key]@.len() {
        m.insert(key, movs)
    } else {
        m
    }
}

/// The mapping after a whole sequence of minimum-keeping insertions.
pub open spec fn fold_ins_min(m: Map<u64, Vec<u8>>, offers: Seq<(u64, Vec<u8>)>) -> Map<u64, Vec<u8>>
    decreases offers.len(),
{
    if offers.len() == 0 {
        m
    } else {
        fold_ins_min(ins_min_spec(m, offers[0].0, offers[0].1), offers.skip(1))
    }
}

/// Minimum-keeping insertions never lengthen an entry, whatever is offered.
pub proof fn lemma_ins_min_never_grows(m: Map<u64, Vec<u8>>, offers: Seq<(u64, Vec<u8>)>, k: u64)
    requires
        m.contains_key(k),
    ensures
        fold_ins_min(m, offers).contains_key(k),
        fold_ins_min(m, offers)[k]@.len() <= m[k]@.len(),
    decreases offers.len(),
{
    if offers.len() > 0 {
        let m1 = ins_min_spec(m, offers[0].0, offers[0].1);
        lemma_ins_min_never_grows(m1, offers.skip(1), k);
    }
}

/// A sequence of minimum-keeping insertions yields, per key, a sequence no
/// longer than the shortest ever offered for that key.
pub proof fn lemma_ins_min_is_minimal(m: Map<u64, Vec<u8>>, offers: Seq<(u64, Vec<u8>)>, i: int)
    requires
        0 <= i < offers.len(),
    ensures
        fold_ins_min(m, offers).contains_key(offers[i].0),
        fold_ins_min(m, offers)[offers[i].0]@.len() <= offers[i].1@.len(),
    decreases offers.len(),
{
    let first = offers[0];
    let m1 = ins_min_spec(m, first.0, first.1);
    if i == 0 {
        assert(m1.contains_key(first.0) && m1[first.0]@.len() <= first.1@.len());
        lemma_ins_min_never_grows(m1, offers.skip(1), first.0);
    } else {
        assert(offers.skip(1)[i - 1] == offers[i]);
        lemma_ins_min_is_minimal(m1, offers.skip(1), i - 1);
    }
}

/// What a sequence of minimum-keeping insertions stores for a key is either
/// what the starting map stored or one of the sequences offered for that key.
pub proof fn lemma_ins_min_from_offers(m: Map<u64, Vec<u8>>, offers: Seq<(u64, Vec<u8>)>, k: u64)
    requires
        fold_ins_min(m, offers).contains_key(k),
    ensures
        (m.contains_key(k) && fold_ins_min(m, offers)[k] == m[k]) || exists|j: int|
            0 <= j < offers.len() && offers[j].0 == k && offers[j].1 == fold_ins_min(m, offers)[k],
    decreases offers.len(),
{
    if offers.len() > 0 {
        let first = offers[0];
        let m1 = ins_min_spec(m, first.0, first.1);
        lemma_ins_min_from_offers(m1, offers.skip(1), k);
        let r = fold_ins_min(m, offers);
        if m1.contains_key(k) && r[k] == m1[k] {
            if first.0 == k && m1[k] == first.1 {
                assert(offers[0].0 == k && offers[0].1 == r[k]);
            }
        } else {
            let j = choose|j: int|
                0 <= j < offers.skip(1).len() && offers.skip(1)[j].0 == k && offers.skip(1)[j].1
                    == r[k];
            assert(offers[j + 1].0 == k && offers[j + 1].1 == r[k]);
        }
    }
}

/// A table entry holds at most fifteen moves, each a 5-bit code.
pub open spec fn entry_ok(codes: Seq<u8>) -> bool {
    codes.len() <= 15 && forall|i: int| 0 <= i < codes.len() ==> #[trigger] codes[i] < 32
}

/// An in-memory phase table: per key, the shortest move-code sequence seen
/// so far, with the keys also listed in first-insertion order.
pub struct Table {
    map: HashMap<u64, Vec<u8>>,
    keys: Vec<u64>,
}

impl Table {
    /// The mapping the table holds.
    pub closed spec fn map_view(&self) -> Map<u64, Vec<u8>> {
        self.map@
    }

    /// The keys in first-insertion order.
    pub closed spec fn keys_view(&self) -> Seq<u64> {
        self.keys@
    }

    /// The mapping with each stored sequence viewed as a byte string.
    pub open spec fn entries(&self) -> Map<u64, Seq<u8>> {
        self.map_view().map_values(|v: Vec<u8>| v@)
    }

    /// The key list names each key once, exactly the keys of the map, and
    /// every stored sequence is a well-formed entry.
    pub closed spec fn wf(&self) -> bool {
        &&& self.keys@.no_duplicates()
        &&& forall|i: int|
            0 <= i < self.keys@.len() ==> self.map@.contains_key(#[trigger] self.keys@[i])
        &&& forall|k: u64| self.map@.contains_key(k) ==> self.keys@.contains(k)
        &&& forall|k: u64| self.map@.contains_key(k) ==> entry_ok(#[trigger] self.map@[k]@)
    }

    /// A well-formed table's key list names each key of its map exactly
    /// once: the serialization walks the whole table, every entry once.
    pub proof fn lemma_wf_keys(&self)
        requires
            self.wf(),
        ensures
            self.keys_view().no_duplicates(),
            forall|k: u64| self.map_view().contains_key(k) <==> self.keys_view().contains(k),
    {
        assert forall|k: u64|
            self.map_view().contains_key(k) <==> self.keys_view().contains(k) by {
            if self.keys_view().contains(k) {
                let j = choose|j: int|
                    0 <= j < self.keys_view().len() && self.keys_view()[j] == k;
                assert(self.map@.contains_key(self.keys@[j]));
            }
        }
    }

    /// An empty table.
    pub fn new() -> (t: Table)
        ensures
            t.wf(),
            t.map_view() == Map::<u64, Vec<u8>>::empty(),
            t.keys_view() == Seq::<u64>::empty(),
    {
        let t = Table { map: HashMap::new(), keys: Vec::new() };
        proof {
            broadcast use vstd::std_specs::hash::group_hash_axioms;
        }
        t
    }

    /// How many keys the table holds.
    pub fn len(&self) -> (n: usize)
        requires
            self.wf(),
        ensures
            n == self.keys_view().len(),
    {
        self.keys.len()
    }

    /// Insert a sequence for a key, keeping the shorter one when the key is
    /// already present: after the call the key maps to the shortest sequence
    /// ever offered for it.
    pub fn ins_min(&mut self, key: u64, movs: Vec<u8>)
        requires
            old(self).wf(),
            entry_ok(movs@),
        ensures
            final(self).wf(),
            final(self).map_view() == ins_min_spec(old(self).map_view(), key, movs),
            final(self).keys_view() == if old(self).map_view().contains_key(key) {
                old(self).keys_view()
            } else {
                old(self).keys_view().push(key)
            },
    {
        proof {
            broadcast use vstd::std_specs::hash::group_hash_axioms;
        }
        let present = match self.map.get(&key) {
            Some(val) => {
                if val.len() > movs.len() {
                    self.map.insert(key, movs);
                }
                true
            },
            None => {
                self.map.insert(key, movs);
                false
            },
        };
        if !present {
            proof {
                assert(!old(self).keys@.contains(key));
            }
            self.keys.push(key);
            proof {
                lemma_push_fresh_no_duplicates(old(self).keys@, key);
            }
        }
        proof {
            assert forall|k2: u64| self.map@.contains_key(k2) implies self.keys@.contains(k2) by {
                if k2 == key {
                    if old(self).map@.contains_key(key) {
                        assert(old(self).keys@.contains(key));
                        let w = choose|w: int|
                            0 <= w < old(self).keys@.len() && old(self).keys@[w] == key;
                        assert(self.keys@[w] == key);
                    } else {
                        assert(self.keys@[self.keys@.len() - 1] == key);
                    }
                } else {
                    assert(old(self).map@.contains_key(k2));
                    assert(old(self).keys@.contains(k2));
                    let w = choose|w: int|
                        0 <= w < old(self).keys@.len() && old(self).keys@[w] == k2;
                    assert(self.keys@[w] == k2);
                }
            }
        }
    }

    /// Serialize the table: per entry the key (`key_sz` bits), the sequence
    /// length (4 bits) and each move code (5 bits), padded to whole bytes and
    /// saved in reverse byte order.
    pub fn save(&self, key_sz: usize) -> (out: Vec<u8>)
        requires
            self.wf(),
            8 <= key_sz <= 64,
        ensures
            bytes_bits(out@.reverse()) == zero_pad(
                pack_table(self.keys_view(), self.map_view(), key_sz as nat),
            ),
    {
        let mut comp = Compressor::new();
        let n = self.keys.len();
        let mut i: usize = 0;
        proof {
            assert(pack_table(self.keys@.take(0), self.map@, key_sz as nat) =~= Seq::<
                bool,
            >::empty());
            broadcast use vstd::std_specs::hash::group_hash_axioms;
        }
        while i < n
            invariant
                self.wf(),
                8 <= key_sz <= 64,
                n == self.keys@.len(),
                i <= n,
                comp.stream() == pack_table(self.keys@.take(i as int), self.map@, key_sz as nat),
                vstd::std_specs::hash::obeys_key_model::<u64>(),
                vstd::std_specs::hash::builds_valid_hashers::<std::hash::RandomState>(),
            decreases n - i,
        {
            let k = self.keys[i];
            proof {
                assert(self.map@.contains_key(k));
            }
            match self.map.get(&k) {
                Some(v) => {
                    let ghost prefix = pack_table(self.keys@.take(i as int), self.map@, key_sz as nat);
                    comp.push(k, key_sz);
                    comp.push(v.len() as u64, 4);
                    let m = v.len();
                    let mut j: usize = 0;
                    proof {
                        assert(pack_codes(v@.take(0)) =~= Seq::<bool>::empty());
                        assert(comp.stream() =~= prefix + bits_of(k, key_sz as nat) + bits_of(
                            v@.len() as u64,
                            4,
                        ) + pack_codes(v@.take(0)));
                    }
                    while j < m
                        invariant
                            8 <= key_sz <= 64,
                            m == v@.len(),
                            j <= m,
                            entry_ok(v@),
                            comp.stream() == prefix + bits_of(k, key_sz as nat) + bits_of(
                                v@.len() as u64,
                                4,
                            ) + pack_codes(v@.take(j as int)),
                        decreases m - j,
                    {
                        comp.push(v[j] as u64, 5);
                        proof {
                            assert(v@.take(j + 1).drop_last() =~= v@.take(j as int));
                            assert(pack_codes(v@.take(j + 1)) == pack_codes(v@.take(j as int))
                                + bits_of(v@[j as int] as u64, 5));
                            assert(comp.stream() =~= prefix + bits_of(k, key_sz as nat) + bits_of(
                                v@.len() as u64,
                                4,
                            ) + pack_codes(v@.take(j + 1)));
                        }
                        j = j + 1;
                    }
                    proof {
                        assert(v@.take(m as int) =~= v@);
                        assert(self.keys@.take(i + 1).drop_last() =~= self.keys@.take(i as int));
                        assert(self.keys@.take(i + 1).last() == k);
                        assert(pack_table(self.keys@.take(i + 1), self.map@, key_sz as nat)
                            == pack_table(self.keys@.take(i as int), self.map@, key_sz as nat)
                            + pack_entry(k, self.map@[k]@, key_sz as nat));
                        assert(comp.stream() =~= pack_table(
                            self.keys@.take(i + 1),
                            self.map@,
                            key_sz as nat,
                        ));
                    }
                },
                None => {
                    proof {
                        assert(false);
                    }
                },
            }
            i = i + 1;
        }
        proof {
            assert(self.keys@.take(n as int) =~= self.keys@);
        }
        comp.save()
    }

    /// Rebuild a table from saved bytes, popping entries until fewer than
    /// `key_sz` bits remain; bytes that end inside an entry yield nothing.
    pub fn load(bytes: &Vec<u8>, key_sz: usize) -> (r: Option<Table>)
        requires
            8 <= key_sz <= 64,
        ensures
            match r {
                Some(t) => {
                    &&& t.wf()
                    &&& Some(t.entries()) == parse_table(
                        bytes_bits(bytes@.reverse()),
                        key_sz as nat,
                        Map::empty(),
                    )
                },
                None => parse_table(bytes_bits(bytes@.reverse()), key_sz as nat, Map::empty())
                    is None,
            },
    {
        let mut dec = Decompressor::new(bytes);
        let mut t = Table::new();
        proof {
            assert(t.entries() =~= Map::<u64, Seq<u8>>::empty());
        }
        loop
            invariant
                8 <= key_sz <= 64,
                dec.wf(),
                t.wf(),
                parse_table(bytes_bits(bytes@.reverse()), key_sz as nat, Map::empty())
                    == parse_table(dec.remaining(), key_sz as nat, t.entries()),
            decreases dec.remaining().len(),
        {
            let ghost rem0 = dec.remaining();
            let key = match dec.pop(key_sz) {
                Some(k) => k,
                None => {
                    return Some(t);
                },
            };
            let n = match dec.pop(4) {
                Some(n) => n,
                None => {
                    return None;
                },
            };
            proof {
                vstd::arithmetic::power2::lemma2_to64();
                assert(n < 16);
                assert(rem0.skip(key_sz as int).skip(4) =~= dec.remaining());
            }
            let ghost body = dec.remaining();
            let mut codes: Vec<u8> = Vec::new();
            let mut j: u64 = 0;
            while j < n
                invariant
                    8 <= key_sz <= 64,
                    dec.wf(),
                    t.wf(),
                    j <= n,
                    n < 16,
                    codes@.len() == j,
                    body.len() >= 5 * j,
                    dec.remaining() == body.skip(5 * j as int),
                    parse_table(bytes_bits(bytes@.reverse()), key_sz as nat, Map::empty())
                        == parse_table(rem0, key_sz as nat, t.entries()),
                    rem0.len() >= key_sz,
                    key as nat == value_of(rem0.take(key_sz as int)),
                    rem0.skip(key_sz as int).len() >= 4,
                    n as nat == value_of(rem0.skip(key_sz as int).take(4)),
                    body == rem0.skip(key_sz as int).skip(4),
                    forall|x: int|
                        0 <= x < j ==> #[trigger] codes@[x] as nat == value_of(
                            body.subrange(5 * x, 5 * x + 5),
                        ) && codes@[x] < 32,
                decreases n - j,
            {
                let c = match dec.pop(5) {
                    Some(c) => c,
                    None => {
                        proof {
                            assert(body.skip(5 * j as int).len() < 5);
                            assert(body.len() < 5 * (j + 1));
                            assert(parse_table(rem0, key_sz as nat, t.entries()) is None);
                        }
                        return None;
                    },
                };
                proof {
                    vstd::arithmetic::power2::lemma2_to64();
                    assert(c < 32);
                    assert(body.skip(5 * j as int).take(5) =~= body.subrange(
                        5 * j as int,
                        5 * j + 5,
                    ));
                    assert(body.skip(5 * j as int).skip(5) =~= body.skip(5 * (j + 1)));
                }
                codes.push(c as u8);
                j = j + 1;
            }
            proof {
                assert(codes@ =~= parse_codes(body, n as nat));
                assert(entry_ok(codes@));
            }
            let ghost entries0 = t.entries();
            let ghost keys0 = t.keys@;
            let present = t.map.contains_key(&key);
            if !present {
                proof {
                    assert(!keys0.contains(key));
                }
                t.keys.push(key);
                proof {
                    lemma_push_fresh_no_duplicates(keys0, key);
                }
            }
            t.map.insert(key, codes);
            proof {
                assert forall|k2: u64| t.map@.contains_key(k2) implies t.keys@.contains(k2) by {
                    if k2 == key {
                        if present {
                            assert(keys0.contains(k2));
                        } else {
                            assert(t.keys@[t.keys@.len() - 1] == key);
                        }
                    } else {
                        assert(keys0.contains(k2));
                        let w = choose|w: int| 0 <= w < keys0.len() && keys0[w] == k2;
                        assert(t.keys@[w] == k2);
                    }
                }
                assert(t.entries() =~= entries0.insert(key, parse_codes(body, n as nat)));
                assert(rem0.len() >= key_sz);
                assert(key as nat == value_of(rem0.take(key_sz as int)));
                assert(n as nat == value_of(rem0.skip(key_sz as int).take(4)));
                assert(parse_table(rem0, key_sz as nat, entries0) == parse_table(
                    dec.remaining(),
                    key_sz as nat,
                    t.entries(),
                ));
            }
        }
    }

    /// The sequence stored for a key, if any.
    pub fn get_codes(&self, key: u64) -> (r: Option<&Vec<u8>>)
        requires
            self.wf(),
        ensures
            match r {
                Some(v) => self.map_view().contains_key(key) && v@ == self.map_view()[key]@,
                None => !self.map_view().contains_key(key),
            },
    {
        proof {
            broadcast use vstd::std_specs::hash::group_hash_axioms;
        }
        self.map.get(&key)
    }

    /// Offer every entry of this table to another table, so that the other
    /// keeps the shortest sequence per key; none of its entries can grow.
    pub fn merge_into(&self, dst: &mut Table)
        requires
            self.wf(),
            old(dst).wf(),
        ensures
            final(dst).wf(),
            forall|k: u64|
                old(dst).map_view().contains_key(k) ==> final(dst).map_view().contains_key(k)
                    && final(dst).map_view()[k]@.len() <= old(dst).map_view()[k]@.len(),
            // every offered entry lands, possibly beaten by a shorter one
            forall|k: u64|
                self.map_view().contains_key(k) ==> final(dst).map_view().contains_key(k)
                    && final(dst).map_view()[k]@.len() <= self.map_view()[k]@.len(),
            // nothing else appears: every entry comes from one side
            forall|k: u64|
                final(dst).map_view().contains_key(k) ==> (old(dst).map_view().contains_key(k)
                    && final(dst).map_view()[k]@ == old(dst).map_view()[k]@) || (
                self.map_view().contains_key(k) && final(dst).map_view()[k]@
                    == self.map_view()[k]@),
    {
        proof {
            broadcast use vstd::std_specs::hash::group_hash_axioms;
        }
        let n = self.keys.len();
        let mut i: usize = 0;
        while i < n
            invariant
                self.wf(),
                dst.wf(),
                n == self.keys@.len(),
                i <= n,
                vstd::std_specs::hash::obeys_key_model::<u64>(),
                vstd::std_specs::hash::builds_valid_hashers::<std::hash::RandomState>(),
                forall|k: u64|
                    old(dst).map_view().contains_key(k) ==> dst.map_view().contains_key(k)
                        && dst.map_view()[k]@.len() <= old(dst).map_view()[k]@.len(),
                forall|j: int|
                    0 <= j < i ==> dst.map_view().contains_key(#[trigger] self.keys_view()[j])
                        && dst.map_view()[self.keys_view()[j]]@.len()
                        <= self.map_view()[self.keys_view()[j]]@.len(),
                forall|k: u64|
                    dst.map_view().contains_key(k) ==> (old(dst).map_view().contains_key(k)
                        && dst.map_view()[k]@ == old(dst).map_view()[k]@) || (
                    self.map_view().contains_key(k) && dst.map_view()[k]@
                        == self.map_view()[k]@),
            decreases n - i,
        {
            let k = self.keys[i];
            proof {
                assert(self.map@.contains_key(k));
            }
            match self.map.get(&k) {
                Some(v) => {
                    let m = v.len();
                    let mut copy: Vec<u8> = Vec::new();
                    let mut j: usize = 0;
                    while j < m
                        invariant
                            m == v@.len(),
                            j <= m,
                            copy@ == v@.take(j as int),
                        decreases m - j,
                    {
                        copy.push(v[j]);
                        proof {
                            assert(copy@ =~= v@.take(j + 1));
                        }
                        j = j + 1;
                    }
                    proof {
                        assert(copy@ =~= v@);
                    }
                    dst.ins_min(k, copy);
                },
                None => {
                    proof {
                        assert(false);
                    }
                },
            }
            i = i + 1;
        }
        proof {
            assert forall|k: u64| self.map_view().contains_key(k) implies dst.map_view().contains_key(
                k,
            ) && dst.map_view()[k]@.len() <= self.map_view()[k]@.len() by {
                assert(self.keys_view().contains(k));
                let j = choose|j: int|
                    0 <= j < self.keys_view().len() && self.keys_view()[j] == k;
                assert(dst.map_view().contains_key(self.keys_view()[j]));
            }
        }
    }

    /// Decode one 5-bit move code.
    pub fn u8_2_mov(mov: u8) -> (m: Move)
        ensures
            m == decode_move(mov),
    {
        let fi = (mov / 4) as usize;
        let f: Face = if fi < 6 {
            crate::utils::face_of_idx(fi)
        } else {
            Face::Right
        };
        proof {
            assert(f == face_from_index(mov as int / 4));
        }
        Move(
            f,
            if (mov / 2) % 2 == 0 {
                Rotation::Cw
            } else {
                Rotation::Ccw
            },
            if mov % 2 == 0 {
                RotType::Single
            } else {
                RotType::Dual
            },
        )
    }

    /// Replay the sequence stored for `key` on the cube and return the
    /// conventional names of the moves applied; a missing key changes
    /// nothing and yields nothing.
    pub fn exec(&self, key: u64, cube: &mut Cube) -> (r: Option<String>)
        requires
            self.wf(),
            wf(old(cube)@),
        ensures
            self.map_view().contains_key(key) ==> {
                let entry = self.map_view()[key]@;
                &&& r matches Some(text) && text@ == moves_text(decoded_moves(entry))
                &&& final(cube)@ == apply_codes(old(cube)@, entry)
                &&& wf(final(cube)@)
                &&& final(cube).movs@ == old(cube).movs@ + decoded_moves(entry)
            },
            !self.map_view().contains_key(key) ==> r is None && *final(cube) == *old(cube),
    {
        proof {
            broadcast use vstd::std_specs::hash::group_hash_axioms;
        }
        let v = match self.map.get(&key) {
            Some(v) => v,
            None => {
                return None;
            },
        };
        let mut text = String::new();
        let n = v.len();
        let mut j: usize = 0;
        proof {
            assert(decoded_moves(v@.take(0)) =~= Seq::<Move>::empty());
            assert(apply_codes(old(cube)@, v@.take(0)) == old(cube)@);
            assert(cube.movs@ =~= old(cube).movs@ + decoded_moves(v@.take(0)));
        }
        while j < n
            invariant
                n == v@.len(),
                j <= n,
                cube@ == apply_codes(old(cube)@, v@.take(j as int)),
                wf(cube@),
                text@ == moves_text(decoded_moves(v@.take(j as int))),
                cube.movs@ == old(cube).movs@ + decoded_moves(v@.take(j as int)),
            decreases n - j,
        {
            let ghost text0 = text@;
            let m = Self::u8_2_mov(v[j]);
            let t = m.to_text();
            text.append(t.as_str());
            text.append(" ");
            cube.rotate(m, true);
            proof {
                assert(decoded_moves(v@.take(j + 1)).drop_last() =~= decoded_moves(
                    v@.take(j as int),
                ));
                assert(decoded_moves(v@.take(j + 1)).last() == m);
                assert(apply_moves(old(cube)@, decoded_moves(v@.take(j + 1))) == spec_rotate(
                    apply_moves(old(cube)@, decoded_moves(v@.take(j as int))),
                    m,
                ));
                assert(text@ =~= text0 + move_text(m) + " "@);
                assert(text@ =~= moves_text(decoded_moves(v@.take(j + 1))));
                assert(cube.movs@ =~= old(cube).movs@ + decoded_moves(v@.take(j + 1)));
            }
            j = j + 1;
        }
        proof {
            assert(v@.take(n as int) =~= v@);
        }
        Some(text)
    }
}

/// Appending a key that a duplicate-free list lacks keeps it duplicate-free.
proof fn lemma_push_fresh_no_duplicates(keys: Seq<u64>, key: u64)
    requires
        keys.no_duplicates(),
        !keys.contains(key),
    ensures
        keys.push(key).no_duplicates(),
{
    let s = keys.push(key);
    assert forall|i: int, j: int|
        0 <= i < s.len() && 0 <= j < s.len() && i != j implies s[i] != s[j] by {
        if i < keys.len() && j < keys.len() {
            assert(keys[i] == s[i] && keys[j] == s[j]);
        } else if j == keys.len() {
            assert(s[j] == key && s[i] == keys[i]);
        } else {
            assert(s[i] == key && s[j] == keys[j]);
        }
    }
}

} // verus!
