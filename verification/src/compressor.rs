//! Variable-width bit packing. The compressor appends the low `k` bits of
//! each value, most significant bit first, and flushes whole bytes into a
//! buffer; saving pads the tail with zero bits and emits the bytes in
//! reverse order. The decompressor reads the same convention back.

use vstd::arithmetic::power2::{lemma2_to64, lemma_pow2_adds, pow2};
use vstd::prelude::*;

verus! {

/// The low `k` bits of `v`, most significant first.
pub open spec fn bits_of_nat(v: nat, k: nat) -> Seq<bool>
    decreases k,
{
    if k == 0 {
        Seq::empty()
    } else {
        bits_of_nat(v / 2, (k - 1) as nat).push(v % 2 == 1)
    }
}

/// The low `k` bits of a machine word, most significant first.
pub open spec fn bits_of(v: u64, k: nat) -> Seq<bool> {
    bits_of_nat(v as nat, k)
}

/// The value a bit string denotes, most significant bit first.
pub open spec fn value_of(s: Seq<bool>) -> nat
    decreases s.len(),
{
    if s.len() == 0 {
        0
    } else {
        value_of(s.drop_last()) * 2 + (if s.last() {
            1nat
        } else {
            0nat
        })
    }
}

/// The eight bits of one byte, most significant first.
pub open spec fn byte_bits(b: u8) -> Seq<bool> {
    bits_of_nat(b as nat, 8)
}

/// The bits of a byte string, in byte order.
pub open spec fn bytes_bits(s: Seq<u8>) -> Seq<bool>
    decreases s.len(),
{
    if s.len() == 0 {
        Seq::empty()
    } else {
        bytes_bits(s.drop_last()) + byte_bits(s.last())
    }
}

/// How many zero bits pad a stream of length `n` to a whole byte.
pub open spec fn pad_len(n: int) -> int {
    (8 - n % 8) % 8
}

/// A bit stream padded with zero bits to a whole byte.
pub open spec fn zero_pad(s: Seq<bool>) -> Seq<bool> {
    s + Seq::new(pad_len(s.len() as int) as nat, |i: int| false)
}

/// A bit string denotes a value below two to its length.
pub proof fn lemma_value_of_bound(s: Seq<bool>)
    ensures
        value_of(s) < pow2(s.len()),
    decreases s.len(),
{
    if s.len() == 0 {
        lemma2_to64();
    } else {
        lemma_value_of_bound(s.drop_last());
        lemma_pow2_adds((s.len() - 1) as nat, 1);
        lemma2_to64();
    }
}

/// Reading back the bits of `v` yields `v` reduced to the field width.
pub proof fn lemma_value_of_bits_of(v: nat, k: nat)
    ensures
        value_of(bits_of_nat(v, k)) == v % pow2(k),
    decreases k,
{
    if k == 0 {
        lemma2_to64();
        assert(pow2(0) == 1);
    } else {
        let rest = bits_of_nat(v / 2, (k - 1) as nat);
        assert(rest.push(v % 2 == 1).drop_last() =~= rest);
        lemma_value_of_bits_of(v / 2, (k - 1) as nat);
        lemma_pow2_adds(1, (k - 1) as nat);
        lemma2_to64();
        let p = pow2((k - 1) as nat);
        assert(p > 0) by {
            vstd::arithmetic::power2::lemma_pow2_pos((k - 1) as nat);
        }
        vstd::arithmetic::div_mod::lemma_mod_breakdown(v as int, 2, p as int);
        assert(pow2(k) == 2 * p);
        assert(v % (2 * p) == 2 * ((v / 2) % p) + v % 2);
    }
}

/// A bit expansion over `k` places holds `k` bits.
pub proof fn lemma_bits_of_len(v: nat, k: nat)
    ensures
        bits_of_nat(v, k).len() == k,
    decreases k,
{
    if k > 0 {
        lemma_bits_of_len(v / 2, (k - 1) as nat);
    }
}

/// The bits of a value below two to `k` read back to that very value.
pub proof fn lemma_bits_of_value_exact(v: nat, k: nat)
    requires
        v < pow2(k),
    ensures
        value_of(bits_of_nat(v, k)) == v,
{
    lemma_value_of_bits_of(v, k);
    vstd::arithmetic::div_mod::lemma_small_mod(v, pow2(k));
}

/// A bit string of length `k` is the bit expansion of its own value.
pub proof fn lemma_bits_of_value_of(s: Seq<bool>)
    ensures
        bits_of_nat(value_of(s), s.len()) =~= s,
    decreases s.len(),
{
    if s.len() > 0 {
        let v = value_of(s);
        let b: nat = if s.last() {
            1
        } else {
            0
        };
        assert(v == value_of(s.drop_last()) * 2 + b);
        assert(v / 2 == value_of(s.drop_last()) && v % 2 == b) by {
            vstd::arithmetic::div_mod::lemma_fundamental_div_mod_converse(
                v as int,
                2,
                value_of(s.drop_last()) as int,
                b as int,
            );
        }
        lemma_bits_of_value_of(s.drop_last());
    }
}

/// A byte string holds eight bits per byte.
pub proof fn lemma_bytes_bits_len(s: Seq<u8>)
    ensures
        bytes_bits(s).len() == 8 * s.len(),
    decreases s.len(),
{
    if s.len() > 0 {
        lemma_bytes_bits_len(s.drop_last());
        lemma_bits_of_len(s.last() as nat, 8);
    }
}

/// The bit stream a list of (value, width) items packs into, first item
/// first, each item most significant bit first.
pub open spec fn pack_items(items: Seq<(u64, usize)>) -> Seq<bool>
    decreases items.len(),
{
    if items.len() == 0 {
        Seq::empty()
    } else {
        bits_of(items[0].0, items[0].1 as nat) + pack_items(items.skip(1))
    }
}

/// Every item fits its width: the width is at most 64 bits and the value
/// is below two to the width.
pub open spec fn items_fit(items: Seq<(u64, usize)>) -> bool {
    forall|i: int|
        0 <= i < items.len() ==> (#[trigger] items[i]).1 <= 64 && (items[i].0 as nat) < pow2(
            items[i].1 as nat,
        )
}

/// The values read back from a bit stream, taking each item's width of bits
/// in turn.
pub open spec fn read_back(bits: Seq<bool>, items: Seq<(u64, usize)>) -> Seq<nat>
    decreases items.len(),
{
    if items.len() == 0 {
        Seq::empty()
    } else {
        seq![value_of(bits.take(items[0].1 as int))] + read_back(
            bits.skip(items[0].1 as int),
            items.skip(1),
        )
    }
}

/// The values of a list of items.
pub open spec fn item_values(items: Seq<(u64, usize)>) -> Seq<nat>
    decreases items.len(),
{
    if items.len() == 0 {
        Seq::empty()
    } else {
        seq![items[0].0 as nat] + item_values(items.skip(1))
    }
}

/// The stream round trip: pushing any sequence of (value, width) items and
/// then popping the same widths in order yields the original values, whatever
/// bits (such as byte padding) follow the packed stream.
pub proof fn lemma_stream_round_trip(items: Seq<(u64, usize)>, rest: Seq<bool>)
    requires
        items_fit(items),
    ensures
        read_back(pack_items(items) + rest, items) == item_values(items),
    decreases items.len(),
{
    if items.len() == 0 {
        assert(read_back(pack_items(items) + rest, items) =~= item_values(items));
    } else {
        let w = items[0].1 as int;
        let field = bits_of(items[0].0, items[0].1 as nat);
        let bits = pack_items(items) + rest;
        lemma_bits_of_len(items[0].0 as nat, items[0].1 as nat);
        assert(bits.take(w) =~= field);
        assert(bits.skip(w) =~= pack_items(items.skip(1)) + rest);
        lemma_bits_of_value_exact(items[0].0 as nat, items[0].1 as nat);
        assert(items_fit(items.skip(1))) by {
            assert forall|i: int|
                0 <= i < items.skip(1).len() implies (#[trigger] items.skip(1)[i]).1 <= 64 && (
            items.skip(1)[i].0 as nat) < pow2(items.skip(1)[i].1 as nat) by {
                assert(items.skip(1)[i] == items[i + 1]);
            }
        }
        lemma_stream_round_trip(items.skip(1), rest);
        assert(read_back(bits, items) =~= item_values(items));
    }
}

/// Append the low `size` bits of `data`, most significant first.
fn push_bits(pending: &mut Vec<bool>, data: u64, size: usize)
    requires
        size <= 64,
    ensures
        final(pending)@ == old(pending)@ + bits_of(data, size as nat),
    decreases size,
{
    if size == 0 {
        proof {
            assert(old(pending)@ + bits_of(data, 0) =~= old(pending)@);
        }
    } else {
        push_bits(pending, data / 2, size - 1);
        pending.push(data % 2 == 1);
        proof {
            assert(final(pending)@ =~= old(pending)@ + bits_of(data, size as nat));
        }
    }
}

/// The value of the `n` bits starting at `start`, most significant first.
fn read_value(bits: &Vec<bool>, start: usize, n: usize) -> (r: u64)
    requires
        start + n <= bits@.len(),
        n <= 64,
    ensures
        r as nat == value_of(bits@.subrange(start as int, start + n)),
        (r as nat) < pow2(n as nat),
    decreases n,
{
    proof {
        lemma_value_of_bound(bits@.subrange(start as int, start + n));
    }
    let total = bits.len();
    proof {
        assert(start + n <= total);
    }
    if n == 0 {
        0
    } else {
        let head = read_value(bits, start, n - 1);
        let b: u64 = if bits[start + (n - 1)] {
            1
        } else {
            0
        };
        proof {
            assert(bits@.subrange(start as int, start + n).drop_last() =~= bits@.subrange(
                start as int,
                start + n - 1,
            ));
            lemma_value_of_bound(bits@.subrange(start as int, start + n - 1));
            lemma_pow2_adds((n - 1) as nat, 1);
            lemma2_to64();
            vstd::arithmetic::power2::lemma2_to64_rest();
            if n - 1 < 63 {
                vstd::arithmetic::power2::lemma_pow2_strictly_increases((n - 1) as nat, 63);
            }
        }
        head * 2 + b
    }
}

/// Packs (value, width) items into a byte buffer, most significant bit first
/// within each item.
pub struct Compressor {
    pending: Vec<bool>,
    bin: Vec<u8>,
}

impl Compressor {
    /// The bits pushed so far: the flushed bytes followed by the pending tail.
    pub closed spec fn stream(&self) -> Seq<bool> {
        bytes_bits(self.bin@) + self.pending@
    }

    /// How many bits wait for the next whole byte.
    pub closed spec fn pending_bits(&self) -> nat {
        self.pending@.len()
    }

    /// An empty compressor.
    pub fn new() -> (c: Compressor)
        ensures
            c.stream() == Seq::<bool>::empty(),
            c.pending_bits() == 0,
    {
        let c = Compressor { pending: Vec::new(), bin: Vec::new() };
        proof {
            assert(c.stream() =~= Seq::<bool>::empty());
        }
        c
    }

    /// Move the first (up to) eight pending bits into the byte buffer,
    /// padding with zero bits when fewer remain.
    fn flush_byte(&mut self)
        requires
            old(self).pending@.len() >= 1,
        ensures
            final(self).stream() == old(self).stream() + Seq::new(
                (8 - min8(old(self).pending@.len() as int)) as nat,
                |i: int| false,
            ),
            final(self).pending@ == old(self).pending@.skip(min8(old(self).pending@.len() as int)),
    {
        let len = self.pending.len();
        let h: usize = if len < 8 {
            len
        } else {
            8
        };
        let head_val = read_value(&self.pending, 0, h);
        let mut v: u64 = head_val;
        let mut pad: usize = 0;
        let ghost head = self.pending@.subrange(0, h as int);
        proof {
            assert(head + Seq::new(0nat, |i: int| false) =~= head);
        }
        while pad < 8 - h
            invariant
                h <= 8,
                pad <= 8 - h,
                head.len() == h,
                v as nat == value_of(head + Seq::new(pad as nat, |i: int| false)),
                (v as nat) < pow2((h + pad) as nat),
            decreases 8 - h - pad,
        {
            proof {
                let padded = head + Seq::new(pad as nat, |i: int| false);
                assert(head + Seq::new((pad + 1) as nat, |i: int| false) =~= padded.push(false));
                assert(padded.push(false).drop_last() =~= padded);
                assert(value_of(padded.push(false)) == value_of(padded) * 2);
                lemma_pow2_adds((h + pad) as nat, 1);
                lemma2_to64();
                assert(pow2((h + pad) as nat) <= pow2(7)) by {
                    if h + pad < 7 {
                        vstd::arithmetic::power2::lemma_pow2_strictly_increases((h + pad) as nat, 7);
                    }
                }
            }
            v = v * 2;
            pad = pad + 1;
        }
        proof {
            lemma_value_of_bound(head + Seq::new((8 - h) as nat, |i: int| false));
            lemma2_to64();
            assert(v < 256);
        }
        let byte = v as u8;
        let ghost padded = head + Seq::new((8 - h) as nat, |i: int| false);
        proof {
            assert(padded.len() == 8);
            assert(byte as nat == value_of(padded));
        }
        self.bin.push(byte);
        let rest = self.pending.split_off(h);
        self.pending = rest;
        proof {
            let ob = old(self).bin@;
            let op = old(self).pending@;
            assert(self.bin@.drop_last() =~= ob);
            assert(bytes_bits(self.bin@) == bytes_bits(ob) + byte_bits(byte));
            lemma_bits_of_value_of(padded);
            assert(byte_bits(byte) =~= padded);
            assert(self.pending@ == op.skip(h as int));
            assert(head =~= op.take(h as int));
            if h < 8 {
                assert(h == op.len());
                assert(op.skip(h as int) =~= Seq::<bool>::empty());
                assert(head =~= op);
            } else {
                assert(padded =~= head);
                assert(head + op.skip(8) =~= op);
            }
            assert(final(self).stream() =~= old(self).stream() + Seq::new(
                (8 - min8(old(self).pending@.len() as int)) as nat,
                |i: int| false,
            ));
        }
    }

    /// Pack pending bits into bytes: all full bytes, and with `all` also a
    /// final zero-padded byte so that nothing stays pending.
    pub fn flush(&mut self, all: bool)
        ensures
            !all ==> final(self).stream() == old(self).stream() && final(self).pending_bits()
                <= 7,
            all ==> final(self).stream() == zero_pad(old(self).stream())
                && final(self).pending_bits() == 0,
    {
        proof {
            lemma_bytes_bits_len(self.bin@);
        }
        let limit: usize = if all {
            0
        } else {
            7
        };
        while self.pending.len() > limit
            invariant
                limit == if all {
                    0int
                } else {
                    7int
                },
                !all ==> self.stream() == old(self).stream(),
                all ==> zero_pad(self.stream()) == zero_pad(old(self).stream()) && self.stream()
                    == old(self).stream() + Seq::new(
                    (self.stream().len() - old(self).stream().len()) as nat,
                    |i: int| false,
                ),
                self.stream().len() >= old(self).stream().len(),
                self.stream().len() % 8 == self.pending@.len() % 8,
            decreases self.pending@.len(),
        {
            let ghost before = self.stream();
            let ghost pend_before = self.pending@.len() as int;
            self.flush_byte();
            proof {
                lemma_bytes_bits_len(self.bin@);
                if pend_before >= 8 {
                    assert(self.stream() =~= before);
                } else {
                    assert(all);
                    let added = (8 - pend_before) as nat;
                    assert(self.stream() == before + Seq::new(added, |i: int| false));
                    assert(self.stream() =~= old(self).stream() + Seq::new(
                        (self.stream().len() - old(self).stream().len()) as nat,
                        |i: int| false,
                    ));
                    assert(self.stream().len() % 8 == 0);
                    assert(zero_pad(self.stream()) =~= self.stream());
                    assert(zero_pad(before) =~= self.stream());
                }
            }
        }
        proof {
            if all {
                assert(self.stream().len() % 8 == 0);
                assert(zero_pad(self.stream()) =~= self.stream());
            }
        }
    }

    /// Flush everything (padding the tail with zero bits) and return the
    /// packed bytes in reverse order, last flushed byte first.
    pub fn save(&mut self) -> (out: Vec<u8>)
        ensures
            bytes_bits(out@.reverse()) == zero_pad(old(self).stream()),
            final(self).pending_bits() == 0,
            final(self).stream() == zero_pad(old(self).stream()),
    {
        self.flush(true);
        let mut out: Vec<u8> = Vec::new();
        let n = self.bin.len();
        let mut i: usize = 0;
        while i < n
            invariant
                n == self.bin@.len(),
                i <= n,
                out@.len() == i,
                forall|j: int| 0 <= j < i ==> #[trigger] out@[j] == self.bin@[n - 1 - j],
            decreases n - i,
        {
            out.push(self.bin[n - 1 - i]);
            i = i + 1;
        }
        proof {
            assert(out@.reverse() =~= self.bin@);
            assert(self.stream() =~= bytes_bits(self.bin@));
        }
        out
    }

    /// Append the low `size` bits of `data` to the stream, most significant
    /// bit first, and flush any completed bytes.
    pub fn push(&mut self, data: u64, size: usize)
        requires
            size <= 64,
        ensures
            final(self).stream() == old(self).stream() + bits_of(data, size as nat),
            final(self).pending_bits() <= 7,
    {
        push_bits(&mut self.pending, data, size);
        proof {
            assert(self.stream() =~= old(self).stream() + bits_of(data, size as nat));
        }
        self.flush(false);
    }
}

/// The smaller of a length and eight.
pub open spec fn min8(n: int) -> int {
    if n < 8 {
        n
    } else {
        8
    }
}

/// Unpacks values from the byte format the compressor saves.
pub struct Decompressor {
    bits: Vec<bool>,
    pos: usize,
}

impl Decompressor {
    /// The bits not yet popped.
    pub closed spec fn remaining(&self) -> Seq<bool> {
        self.bits@.skip(self.pos as int)
    }

    /// The reading position never passes the end.
    pub closed spec fn wf(&self) -> bool {
        self.pos <= self.bits@.len()
    }

    /// A decompressor over saved bytes: the bytes are read back in reverse
    /// order, matching the order the compressor wrote them.
    pub fn new(bytes: &Vec<u8>) -> (d: Decompressor)
        ensures
            d.wf(),
            d.remaining() == bytes_bits(bytes@.reverse()),
    {
        let mut bits: Vec<bool> = Vec::new();
        let n = bytes.len();
        let mut i: usize = n;
        while i > 0
            invariant
                n == bytes@.len(),
                i <= n,
                bits@ == bytes_bits(bytes@.reverse().take(n - i)),
            decreases i,
        {
            let ghost done = bytes@.reverse().take(n - i);
            i = i - 1;
            push_bits(&mut bits, bytes[i] as u64, 8);
            proof {
                assert(bytes@.reverse()[n - 1 - i] == bytes@[i as int]);
                assert(bytes@.reverse().take(n - i) =~= done.push(bytes@[i as int]));
                assert(done.push(bytes@[i as int]).drop_last() =~= done);
                assert(bytes_bits(done.push(bytes@[i as int])) == bytes_bits(done) + byte_bits(
                    bytes@[i as int],
                ));
                assert(byte_bits(bytes@[i as int]) == bits_of(bytes@[i as int] as u64, 8));
            }
        }
        let d = Decompressor { bits, pos: 0 };
        proof {
            assert(bytes@.reverse().take(n as int) =~= bytes@.reverse());
            assert(d.remaining() =~= d.bits@);
        }
        d
    }

    /// Read the next `size` bits as one value, or nothing when fewer than
    /// `size` bits remain; exhaustion is silent.
    pub fn pop(&mut self, size: usize) -> (r: Option<u64>)
        requires
            old(self).wf(),
            size <= 64,
        ensures
            final(self).wf(),
            old(self).remaining().len() < size ==> r is None && *final(self) == *old(self),
            old(self).remaining().len() >= size ==> {
                &&& r is Some
                &&& r->0 as nat == value_of(old(self).remaining().take(size as int))
                &&& (r->0 as nat) < pow2(size as nat)
                &&& final(self).remaining() == old(self).remaining().skip(size as int)
            },
    {
        if size > self.bits.len() - self.pos {
            return None;
        }
        let v = read_value(&self.bits, self.pos, size);
        proof {
            assert(self.bits@.subrange(self.pos as int, self.pos + size) =~= self.remaining().take(
                size as int,
            ));
        }
        self.pos = self.pos + size;
        proof {
            assert(final(self).remaining() =~= old(self).remaining().skip(size as int));
        }
        Some(v)
    }
}

} // verus!
