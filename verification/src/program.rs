//! The soldering program: from the bytes of its input to those of its output.
//!
//! Integers are written lowest byte first, with all of their bytes, and a list
//! after its length in eight bytes.

use crate::bytes::{
    from_le, lemma_from_to_le, lemma_pow256_16, lemma_pow256_mono, lemma_to_from_le,
    lemma_to_le_len, pow256, to_le,
};
use crate::soldering::{solder, solderable, solders, SolderedLabelsData, WiresInput};
use vstd::prelude::*;

verus! {

/// The bytes of a wire's labels.
pub open spec fn wire_bytes(w: (u128, u128)) -> Seq<u8> {
    to_le(w.0 as nat, 16) + to_le(w.1 as nat, 16)
}

pub open spec fn wires_bytes(w: Seq<(u128, u128)>) -> Seq<u8>
    decreases w.len(),
{
    if w.len() == 0 {
        Seq::empty()
    } else {
        wires_bytes(w.drop_last()) + wire_bytes(w.last())
    }
}

/// The bytes of an instance: the number of its wires, and they.
pub open spec fn instance_bytes(w: Seq<(u128, u128)>) -> Seq<u8> {
    to_le(w.len(), 8) + wires_bytes(w)
}

pub open spec fn instances_bytes(w: Seq<Seq<(u128, u128)>>) -> Seq<u8>
    decreases w.len(),
{
    if w.len() == 0 {
        Seq::empty()
    } else {
        instances_bytes(w.drop_last()) + instance_bytes(w.last())
    }
}

/// The bytes of an input: the number of instances, they, and the nonce.
pub open spec fn input_bytes(w: Seq<Seq<(u128, u128)>>, nonce: u128) -> Seq<u8> {
    to_le(w.len(), 8) + instances_bytes(w) + to_le(nonce as nat, 16)
}

/// The bytes of a wire's digests.
pub open spec fn digest_bytes(c: ([u8; 32], [u8; 32])) -> Seq<u8> {
    c.0@ + c.1@
}

pub open spec fn digests_bytes(c: Seq<([u8; 32], [u8; 32])>) -> Seq<u8>
    decreases c.len(),
{
    if c.len() == 0 {
        Seq::empty()
    } else {
        digests_bytes(c.drop_last()) + digest_bytes(c.last())
    }
}

/// The bytes of a list of digests, after their number.
pub open spec fn commitment_bytes(c: Seq<([u8; 32], [u8; 32])>) -> Seq<u8> {
    to_le(c.len(), 8) + digests_bytes(c)
}

pub open spec fn commitments_bytes(c: Seq<Seq<([u8; 32], [u8; 32])>>) -> Seq<u8>
    decreases c.len(),
{
    if c.len() == 0 {
        Seq::empty()
    } else {
        commitments_bytes(c.drop_last()) + commitment_bytes(c.last())
    }
}

/// The lists by their elements.
pub open spec fn rows<T>(v: Seq<Vec<T>>) -> Seq<Seq<T>> {
    Seq::new(v.len(), |i: int| v[i]@)
}

/// The bytes of the output.
pub open spec fn output_bytes(d: SolderedLabelsData) -> Seq<u8> {
    to_le(d.deltas@.len(), 8) + instances_bytes(rows(d.deltas@)) + commitment_bytes(
        d.base_commitment@,
    ) + commitment_bytes(d.base_nonce_commitment@) + to_le(d.nonce as nat, 16) + to_le(
        d.commitments@.len(),
        8,
    ) + commitments_bytes(rows(d.commitments@))
}

/// The length that eight bytes give.
pub open spec fn length_at(b: Seq<u8>, pos: int) -> nat {
    from_le(b.subrange(pos, pos + 8))
}

/// Where `n` instances end that start at `pos`, where they are there in full.
pub open spec fn instances_end(b: Seq<u8>, pos: int, n: nat) -> Option<int>
    decreases n,
{
    if n == 0 {
        Some(pos)
    } else if pos + 8 > b.len() {
        None
    } else {
        let next = pos + 8 + 32 * length_at(b, pos);
        if next > b.len() {
            None
        } else {
            instances_end(b, next, (n - 1) as nat)
        }
    }
}

/// Where the input ends that the bytes start with, where it is there in full.
pub open spec fn input_end(b: Seq<u8>) -> Option<int> {
    if b.len() < 8 {
        None
    } else {
        match instances_end(b, 8, length_at(b, 0)) {
            Some(e) => if e + 16 > b.len() {
                None
            } else {
                Some(e + 16)
            },
            None => None,
        }
    }
}

fn read_length(b: &[u8], pos: usize) -> (r: u64)
    requires
        pos + 8 <= b@.len(),
    ensures
        r == length_at(b@, pos as int),
{
    let ghost s = b@.subrange(pos as int, pos + 8);
    let len: usize = b.len();
    let mut r: u64 = 0;
    let mut i: usize = 0;
    assert(s.skip(8) =~= Seq::<u8>::empty());
    while i < 8
        invariant
            i <= 8,
            pos + 8 <= len,
            len == b@.len(),
            s == b@.subrange(pos as int, pos + 8),
            r == from_le(s.skip(8 - i)),
            r < pow256(i as nat),
        decreases 8 - i,
    {
        let x = b[pos + (7 - i)];
        proof {
            let k = 7 - i;
            assert(s.skip(k)[0] == s[k]);
            assert(s.skip(k).skip(1) =~= s.skip(k + 1));
            lemma_pow256_16();
            lemma_pow256_mono(i as nat, 7);
        }
        r = r * 256 + x as u64;
        i = i + 1;
    }
    assert(s.skip(0) =~= s);
    r
}

/// Whether the bytes start with an input.
fn holds_input(b: &[u8]) -> (r: bool)
    ensures
        r == (input_end(b@) is Some),
{
    let len: usize = b.len();
    if len < 8 {
        return false;
    }
    let mut left: u64 = read_length(b, 0);
    let mut pos: usize = 8;
    while left > 0
        invariant
            len == b@.len(),
            8 <= pos <= len,
            instances_end(b@, 8, length_at(b@, 0)) == instances_end(b@, pos as int, left as nat),
        decreases left,
    {
        if len - pos < 8 {
            return false;
        }
        let m = read_length(b, pos);
        let rest: usize = (len - pos - 8) / 32;
        if m > rest as u64 {
            return false;
        }
        pos = pos + 8 + 32 * (m as usize);
        left = left - 1;
    }
    len - pos >= 16
}

/// `bincode::decode_from_slice` with integers of fixed size, on lists of pairs
/// and a number: it gives what the bytes up to the end of the input are the
/// bytes of. It makes room for a list before it reads it, so that the input has
/// to be there in full.
#[verifier::external_body]
fn bincode_decode(b: &[u8]) -> (r: (Vec<Vec<(u128, u128)>>, u128))
    requires
        input_end(b@) is Some,
        3 * b@.len() <= isize::MAX,
    ensures
        input_bytes(rows(r.0@), r.1) == b@.take(input_end(b@)->0),
{
    let config = bincode::config::standard().with_fixed_int_encoding();
    bincode::decode_from_slice(b, config).unwrap().0
}

/// `bincode::encode_to_vec` with integers of fixed size, on the fields of the
/// data in order: the bytes of each, one after the other.
#[verifier::external_body]
fn bincode_encode(d: &SolderedLabelsData) -> (r: Vec<u8>)
    ensures
        r@ == output_bytes(*d),
{
    let config = bincode::config::standard().with_fixed_int_encoding();
    let nonces = &d.base_nonce_commitment;
    let fields = (&d.deltas, &d.base_commitment, nonces, d.nonce, &d.commitments);
    bincode::encode_to_vec(fields, config).unwrap()
}

/// Reads an input. What follows it is left aside.
pub fn decode_input(b: &[u8]) -> (r: Option<WiresInput>)
    requires
        3 * b@.len() <= isize::MAX,
    ensures
        r is Some <==> input_end(b@) is Some,
        r matches Some(v) ==> input_bytes(rows(v.instances_wires@), v.nonce) == b@.take(
            input_end(b@)->0,
        ),
{
    if holds_input(b) {
        let (instances_wires, nonce) = bincode_decode(b);
        Some(WiresInput { instances_wires, nonce })
    } else {
        None
    }
}

/// The bytes of the output.
pub fn encode_output(d: &SolderedLabelsData) -> (r: Vec<u8>)
    ensures
        r@ == output_bytes(*d),
{
    bincode_encode(d)
}

fn can_solder(input: &WiresInput) -> (r: bool)
    ensures
        r == solderable(*input),
{
    if input.instances_wires.len() == 0 {
        return false;
    }
    let n: usize = input.instances_wires[0].len();
    let mut k: usize = 0;
    while k < input.instances_wires.len()
        invariant
            k <= input.instances_wires@.len(),
            input.instances_wires@.len() >= 1,
            n == input.instances_wires@[0]@.len(),
            forall|j: int| 0 <= j < k ==> (#[trigger] input.instances_wires@[j])@.len() >= n,
        decreases input.instances_wires@.len() - k,
    {
        if input.instances_wires[k].len() < n {
            assert(input.instances_wires@[k as int]@.len() < n);
            return false;
        }
        k = k + 1;
    }
    true
}

/// Whether the bytes are the input that some bytes start with.
pub open spec fn is_input_of(input: WiresInput, b: Seq<u8>) -> bool {
    input_end(b) is Some && input_bytes(rows(input.instances_wires@), input.nonce) == b.take(
        input_end(b)->0,
    )
}

/// Reads the labels, solders them and gives the bytes of the result; nothing
/// where there is no input or it cannot be soldered.
pub fn run(b: &[u8]) -> (r: Option<Vec<u8>>)
    requires
        3 * b@.len() <= isize::MAX,
    ensures
        r is Some <==> exists|input: WiresInput| #[trigger]
            is_input_of(input, b@) && solderable(input),
        r matches Some(out) ==> exists|input: WiresInput, data: SolderedLabelsData|
            #![trigger is_input_of(input, b@), output_bytes(data)]
            is_input_of(input, b@) && solders(data, input) && out@ == output_bytes(data),
{
    match decode_input(b) {
        Some(input) => {
            assert(is_input_of(input, b@));
            proof {
                assert forall|other: WiresInput| #[trigger] is_input_of(other, b@) implies
                    solderable(other) == solderable(input) by {
                    lemma_countable(other.instances_wires);
                    lemma_countable(input.instances_wires);
                    lemma_input_unique(
                        rows(other.instances_wires@),
                        other.nonce,
                        rows(input.instances_wires@),
                        input.nonce,
                    );
                    lemma_solderable_rows(other, input);
                }
            }
            if can_solder(&input) {
                let data = solder(&input);
                Some(encode_output(&data))
            } else {
                None
            }
        },
        None => None,
    }
}

/// Whether input can be soldered is a matter of its rows.
proof fn lemma_solderable_rows(a: WiresInput, b: WiresInput)
    requires
        rows(a.instances_wires@) == rows(b.instances_wires@),
    ensures
        solderable(a) == solderable(b),
{
    let (v, w) = (a.instances_wires@, b.instances_wires@);
    assert(rows(v).len() == rows(w).len());
    assert forall|i: int| 0 <= i < v.len() implies (#[trigger] v[i])@ == w[i]@ by {
        assert(rows(v)[i] == rows(w)[i]);
    }
    assert forall|i: int| 0 <= i < w.len() implies v[i]@ == (#[trigger] w[i])@ by {
        assert(rows(v)[i] == rows(w)[i]);
    }
}

proof fn lemma_wires_len(w: Seq<(u128, u128)>)
    ensures
        wires_bytes(w).len() == 32 * w.len(),
    decreases w.len(),
{
    if w.len() > 0 {
        lemma_wires_len(w.drop_last());
        lemma_to_le_len(w.last().0 as nat, 16);
        lemma_to_le_len(w.last().1 as nat, 16);
    }
}

proof fn lemma_label_unique(a: u128, b: u128)
    requires
        to_le(a as nat, 16) == to_le(b as nat, 16),
    ensures
        a == b,
{
    lemma_pow256_16();
    lemma_from_to_le(a as nat, 16);
    lemma_from_to_le(b as nat, 16);
}

/// As many wires with the same bytes are the same.
proof fn lemma_wires_unique(v: Seq<(u128, u128)>, w: Seq<(u128, u128)>)
    requires
        v.len() == w.len(),
        wires_bytes(v) == wires_bytes(w),
    ensures
        v == w,
    decreases v.len(),
{
    if v.len() > 0 {
        let (a, b) = (v.last(), w.last());
        let (x, y) = (wires_bytes(v.drop_last()), wires_bytes(w.drop_last()));
        lemma_wires_len(v.drop_last());
        lemma_wires_len(w.drop_last());
        lemma_to_le_len(a.0 as nat, 16);
        lemma_to_le_len(a.1 as nat, 16);
        lemma_to_le_len(b.0 as nat, 16);
        lemma_to_le_len(b.1 as nat, 16);
        let n = x.len() as int;
        let all = wires_bytes(v);
        assert(all.subrange(0, n) =~= x);
        assert(all.subrange(0, n) =~= y);
        assert(all.subrange(n, n + 16) =~= to_le(a.0 as nat, 16));
        assert(all.subrange(n, n + 16) =~= to_le(b.0 as nat, 16));
        assert(all.subrange(n + 16, n + 32) =~= to_le(a.1 as nat, 16));
        assert(all.subrange(n + 16, n + 32) =~= to_le(b.1 as nat, 16));
        lemma_label_unique(a.0, b.0);
        lemma_label_unique(a.1, b.1);
        lemma_wires_unique(v.drop_last(), w.drop_last());
        assert(v =~= v.drop_last().push(a));
        assert(w =~= w.drop_last().push(b));
    }
}

/// The bytes of the first instances come first.
proof fn lemma_instances_head(w: Seq<Seq<(u128, u128)>>, i: int)
    requires
        0 <= i <= w.len(),
    ensures
        instances_bytes(w.take(i)).len() <= instances_bytes(w).len(),
        instances_bytes(w).take(instances_bytes(w.take(i)).len() as int) == instances_bytes(
            w.take(i),
        ),
    decreases w.len() - i,
{
    if i == w.len() {
        assert(w.take(i) =~= w);
        assert(instances_bytes(w).take(instances_bytes(w).len() as int) =~= instances_bytes(w));
    } else {
        lemma_instances_head(w, i + 1);
        let head = instances_bytes(w.take(i));
        let more = instances_bytes(w.take(i + 1));
        assert(w.take(i + 1).drop_last() =~= w.take(i));
        assert(more == head + instance_bytes(w[i]));
        assert(instances_bytes(w).take(head.len() as int) =~= more.take(head.len() as int));
        assert(more.take(head.len() as int) =~= head);
    }
}

/// The number of instances, and of the wires of each, fits into eight bytes.
pub open spec fn countable(w: Seq<Seq<(u128, u128)>>) -> bool {
    &&& w.len() < pow256(8)
    &&& forall|i: int| 0 <= i < w.len() ==> (#[trigger] w[i]).len() < pow256(8)
}

/// Lists in memory can be counted.
pub proof fn lemma_countable(w: Vec<Vec<(u128, u128)>>)
    ensures
        countable(rows(w@)),
{
    lemma_pow256_16();
    assert(w@.len() == w.len());
    assert forall|i: int| 0 <= i < w@.len() implies (#[trigger] rows(w@)[i]).len() < pow256(8) by {
        assert(w@[i]@.len() == w@[i].len());
    }
}

/// What bytes that start with an input hold at its `i`-th instance.
proof fn lemma_at_instance(b: Seq<u8>, w: Seq<Seq<(u128, u128)>>, nonce: u128, i: int)
    requires
        countable(w),
        input_bytes(w, nonce).len() <= b.len(),
        b.take(input_bytes(w, nonce).len() as int) == input_bytes(w, nonce),
    ensures
        length_at(b, 0) == w.len(),
        0 <= i < w.len() ==> ({
            let pos = 8 + instances_bytes(w.take(i)).len() as int;
            let next = 8 + instances_bytes(w.take(i + 1)).len() as int;
            &&& next == pos + 8 + 32 * w[i].len()
            &&& next + 16 <= input_bytes(w, nonce).len()
            &&& length_at(b, pos) == w[i].len()
            &&& b.subrange(pos + 8, next) == wires_bytes(w[i])
        }),
{
    let all = input_bytes(w, nonce);
    lemma_to_le_len(w.len(), 8);
    lemma_to_le_len(nonce as nat, 16);
    lemma_from_to_le(w.len(), 8);
    assert(b.subrange(0, 8) =~= all.subrange(0, 8));
    assert(all.subrange(0, 8) =~= to_le(w.len(), 8));
    if 0 <= i < w.len() {
        let head = instances_bytes(w.take(i));
        let more = instances_bytes(w.take(i + 1));
        let (h, m) = (head.len() as int, more.len() as int);
        let (pos, next) = (8 + h, 8 + m);
        lemma_instances_head(w, i + 1);
        assert(w.take(i + 1).drop_last() =~= w.take(i));
        assert(more == head + instance_bytes(w[i]));
        lemma_to_le_len(w[i].len(), 8);
        lemma_wires_len(w[i]);
        lemma_from_to_le(w[i].len(), 8);
        let body = instances_bytes(w);
        assert(all.subrange(8, all.len() - 16) =~= body);
        assert(b.subrange(8, next) =~= body.take(m));
        assert(b.subrange(pos, pos + 8) =~= more.subrange(h, h + 8));
        assert(more.subrange(h, h + 8) =~= to_le(w[i].len(), 8));
        assert(b.subrange(pos + 8, next) =~= more.subrange(h + 8, m));
        assert(more.subrange(h + 8, m) =~= wires_bytes(w[i]));
    }
}

proof fn lemma_walk(b: Seq<u8>, w: Seq<Seq<(u128, u128)>>, nonce: u128, i: int)
    requires
        countable(w),
        input_bytes(w, nonce).len() <= b.len(),
        b.take(input_bytes(w, nonce).len() as int) == input_bytes(w, nonce),
        0 <= i <= w.len(),
    ensures
        instances_end(
            b,
            8 + instances_bytes(w.take(i)).len() as int,
            (w.len() - i) as nat,
        ) == Some(8 + instances_bytes(w).len() as int),
    decreases w.len() - i,
{
    if i < w.len() {
        lemma_at_instance(b, w, nonce, i);
        lemma_walk(b, w, nonce, i + 1);
    } else {
        assert(w.take(i) =~= w);
    }
}

/// The end of an input is found, whatever follows it.
pub proof fn lemma_input_end(w: Seq<Seq<(u128, u128)>>, nonce: u128, rest: Seq<u8>)
    requires
        countable(w),
    ensures
        input_end(input_bytes(w, nonce) + rest) == Some(input_bytes(w, nonce).len() as int),
{
    let all = input_bytes(w, nonce);
    let b = all + rest;
    assert(b.take(all.len() as int) =~= all);
    lemma_to_le_len(w.len(), 8);
    lemma_to_le_len(nonce as nat, 16);
    lemma_at_instance(b, w, nonce, 0);
    lemma_walk(b, w, nonce, 0);
    assert(w.take(0) =~= Seq::<Seq<(u128, u128)>>::empty());
}

/// Inputs with the same bytes are the same.
pub proof fn lemma_input_unique(
    v: Seq<Seq<(u128, u128)>>,
    m: u128,
    w: Seq<Seq<(u128, u128)>>,
    n: u128,
)
    requires
        countable(v),
        countable(w),
        input_bytes(v, m) == input_bytes(w, n),
    ensures
        v == w,
        m == n,
{
    let b = input_bytes(v, m);
    assert(b.take(b.len() as int) =~= b);
    lemma_at_instance(b, v, m, 0);
    lemma_at_instance(b, w, n, 0);
    lemma_same_instances(b, v, m, w, n, v.len() as int);
    assert(v.take(v.len() as int) =~= v);
    assert(w.take(w.len() as int) =~= w);
    assert(v == w);
    let head = to_le(v.len(), 8) + instances_bytes(v);
    lemma_tails(head, to_le(m as nat, 16), to_le(n as nat, 16));
    lemma_label_unique(m, n);
}

proof fn lemma_tails(head: Seq<u8>, s: Seq<u8>, t: Seq<u8>)
    requires
        head + s == head + t,
    ensures
        s == t,
{
    let n = head.len() as int;
    assert((head + s).skip(n) =~= s);
    assert((head + t).skip(n) =~= t);
}

proof fn lemma_same_instances(
    b: Seq<u8>,
    v: Seq<Seq<(u128, u128)>>,
    m: u128,
    w: Seq<Seq<(u128, u128)>>,
    n: u128,
    i: int,
)
    requires
        countable(v),
        countable(w),
        b == input_bytes(v, m),
        b == input_bytes(w, n),
        v.len() == w.len(),
        0 <= i <= v.len(),
    ensures
        v.take(i) == w.take(i),
    decreases i,
{
    if i > 0 {
        let j = i - 1;
        assert(b.take(b.len() as int) =~= b);
        lemma_same_instances(b, v, m, w, n, j);
        lemma_at_instance(b, v, m, j);
        lemma_at_instance(b, w, n, j);
        lemma_wires_unique(v[j], w[j]);
        assert(v.take(i) =~= v.take(j).push(v[j]));
        assert(w.take(i) =~= w.take(j).push(w[j]));
    } else {
        assert(v.take(0) =~= w.take(0));
    }
}

/// Reading gives back what was written, whatever follows it.
pub proof fn lemma_read_back(
    w: Seq<Seq<(u128, u128)>>,
    nonce: u128,
    rest: Seq<u8>,
    input: WiresInput,
)
    requires
        countable(w),
        is_input_of(input, input_bytes(w, nonce) + rest),
    ensures
        rows(input.instances_wires@) == w,
        input.nonce == nonce,
{
    let all = input_bytes(w, nonce);
    lemma_input_end(w, nonce, rest);
    lemma_countable(input.instances_wires);
    assert((all + rest).take(all.len() as int) =~= all);
    lemma_input_unique(rows(input.instances_wires@), input.nonce, w, nonce);
}

/// The bytes of wires: sixteen for each label, lowest first, the label of `false`
/// before that of `true`, one wire after the other.
pub proof fn lemma_wire_layout(w: Seq<(u128, u128)>, i: int)
    requires
        0 <= i < w.len(),
    ensures
        wires_bytes(w).len() == 32 * w.len(),
        from_le(wires_bytes(w).subrange(32 * i, 32 * i + 16)) == w[i].0,
        from_le(wires_bytes(w).subrange(32 * i + 16, 32 * i + 32)) == w[i].1,
    decreases w.len(),
{
    let before = w.drop_last();
    let x = wires_bytes(before);
    lemma_wires_len(w);
    lemma_wires_len(before);
    if i < before.len() {
        lemma_wire_layout(before, i);
        assert(wires_bytes(w).subrange(32 * i, 32 * i + 16) =~= x.subrange(32 * i, 32 * i + 16));
        assert(wires_bytes(w).subrange(32 * i + 16, 32 * i + 32) =~= x.subrange(
            32 * i + 16,
            32 * i + 32,
        ));
    } else {
        let (a, b) = w.last();
        lemma_to_le_len(a as nat, 16);
        lemma_to_le_len(b as nat, 16);
        lemma_pow256_16();
        lemma_from_to_le(a as nat, 16);
        lemma_from_to_le(b as nat, 16);
        assert(wires_bytes(w).subrange(32 * i, 32 * i + 16) =~= to_le(a as nat, 16));
        assert(wires_bytes(w).subrange(32 * i + 16, 32 * i + 32) =~= to_le(b as nat, 16));
    }
}

/// The bytes of digests: those of each, the first before the second, one wire after
/// the other.
pub proof fn lemma_digest_layout(c: Seq<([u8; 32], [u8; 32])>, i: int)
    ensures
        digests_bytes(c).len() == 64 * c.len(),
        0 <= i < c.len() ==> {
            &&& digests_bytes(c).subrange(64 * i, 64 * i + 32) == c[i].0@
            &&& digests_bytes(c).subrange(64 * i + 32, 64 * i + 64) == c[i].1@
        },
    decreases c.len(),
{
    if c.len() > 0 {
        let before = c.drop_last();
        let x = digests_bytes(before);
        lemma_digest_layout(before, i);
        assert(c.last().0@.len() == 32 && c.last().1@.len() == 32);
        if 0 <= i < before.len() {
            assert(digests_bytes(c).subrange(64 * i, 64 * i + 32) =~= x.subrange(
                64 * i,
                64 * i + 32,
            ));
            assert(digests_bytes(c).subrange(64 * i + 32, 64 * i + 64) =~= x.subrange(
                64 * i + 32,
                64 * i + 64,
            ));
        } else if i == before.len() {
            assert(digests_bytes(c).subrange(64 * i, 64 * i + 32) =~= c[i].0@);
            assert(digests_bytes(c).subrange(64 * i + 32, 64 * i + 64) =~= c[i].1@);
        }
    }
}

/// The bytes of a list of digests: its length in eight bytes, and the digests.
pub proof fn lemma_commitment_layout(c: Seq<([u8; 32], [u8; 32])>, i: int)
    requires
        c.len() < pow256(8),
    ensures
        commitment_bytes(c).len() == 8 + 64 * c.len(),
        from_le(commitment_bytes(c).subrange(0, 8)) == c.len(),
        0 <= i < c.len() ==> {
            &&& commitment_bytes(c).subrange(8 + 64 * i, 40 + 64 * i) == c[i].0@
            &&& commitment_bytes(c).subrange(40 + 64 * i, 72 + 64 * i) == c[i].1@
        },
{
    lemma_to_le_len(c.len(), 8);
    lemma_from_to_le(c.len(), 8);
    lemma_digest_layout(c, i);
    let all = commitment_bytes(c);
    assert(all.subrange(0, 8) =~= to_le(c.len(), 8));
    if 0 <= i < c.len() {
        let d = digests_bytes(c);
        assert(all.subrange(8 + 64 * i, 40 + 64 * i) =~= d.subrange(64 * i, 64 * i + 32));
        assert(all.subrange(40 + 64 * i, 72 + 64 * i) =~= d.subrange(64 * i + 32, 64 * i + 64));
    }
}

/// Lists of wires and of digests are written one after the other: from where those
/// before the `k`-th end, the `k`-th is there in full.
pub proof fn lemma_list_layout(
    w: Seq<Seq<(u128, u128)>>,
    c: Seq<Seq<([u8; 32], [u8; 32])>>,
    k: int,
)
    ensures
        0 <= k < w.len() ==> ({
            let at = instances_bytes(w.take(k)).len() as int;
            let end = at + instance_bytes(w[k]).len();
            &&& end == instances_bytes(w.take(k + 1)).len()
            &&& end <= instances_bytes(w).len()
            &&& instances_bytes(w).subrange(at, end) == instance_bytes(w[k])
        }),
        0 <= k < c.len() ==> ({
            let at = commitments_bytes(c.take(k)).len() as int;
            let end = at + commitment_bytes(c[k]).len();
            &&& end == commitments_bytes(c.take(k + 1)).len()
            &&& end <= commitments_bytes(c).len()
            &&& commitments_bytes(c).subrange(at, end) == commitment_bytes(c[k])
        }),
{
    if 0 <= k < w.len() {
        let at = instances_bytes(w.take(k)).len() as int;
        let more = instances_bytes(w.take(k + 1));
        lemma_instances_head(w, k + 1);
        assert(w.take(k + 1).drop_last() =~= w.take(k));
        let part = instances_bytes(w).take(more.len() as int);
        assert(instances_bytes(w).subrange(at, more.len() as int) =~= part.skip(at));
        assert(more.skip(at) =~= instance_bytes(w[k]));
    }
    if 0 <= k < c.len() {
        let at = commitments_bytes(c.take(k)).len() as int;
        let more = commitments_bytes(c.take(k + 1));
        lemma_commitments_head(c, k + 1);
        assert(c.take(k + 1).drop_last() =~= c.take(k));
        let part = commitments_bytes(c).take(more.len() as int);
        assert(commitments_bytes(c).subrange(at, more.len() as int) =~= part.skip(at));
        assert(more.skip(at) =~= commitment_bytes(c[k]));
    }
}

/// The bytes of the first lists of digests come first.
proof fn lemma_commitments_head(c: Seq<Seq<([u8; 32], [u8; 32])>>, i: int)
    requires
        0 <= i <= c.len(),
    ensures
        commitments_bytes(c.take(i)).len() <= commitments_bytes(c).len(),
        commitments_bytes(c).take(commitments_bytes(c.take(i)).len() as int) == commitments_bytes(
            c.take(i),
        ),
    decreases c.len() - i,
{
    if i == c.len() {
        assert(c.take(i) =~= c);
        assert(commitments_bytes(c).take(commitments_bytes(c).len() as int) =~= commitments_bytes(
            c,
        ));
    } else {
        lemma_commitments_head(c, i + 1);
        let head = commitments_bytes(c.take(i));
        let more = commitments_bytes(c.take(i + 1));
        assert(c.take(i + 1).drop_last() =~= c.take(i));
        assert(commitments_bytes(c).take(head.len() as int) =~= more.take(head.len() as int));
        assert(more.take(head.len() as int) =~= head);
    }
}

/// The bytes of an instance: the number of its wires in eight bytes, and the wires.
pub proof fn lemma_instance_layout(w: Seq<(u128, u128)>)
    requires
        w.len() < pow256(8),
    ensures
        instance_bytes(w).len() == 8 + 32 * w.len(),
        from_le(instance_bytes(w).subrange(0, 8)) == w.len(),
        instance_bytes(w).skip(8) == wires_bytes(w),
{
    lemma_to_le_len(w.len(), 8);
    lemma_from_to_le(w.len(), 8);
    lemma_wires_len(w);
    assert(instance_bytes(w).subrange(0, 8) =~= to_le(w.len(), 8));
    assert(instance_bytes(w).skip(8) =~= wires_bytes(w));
}

/// The bytes of an input: the number of instances in eight bytes, the instances,
/// and the nonce in sixteen.
pub proof fn lemma_input_layout(w: Seq<Seq<(u128, u128)>>, nonce: u128)
    requires
        countable(w),
    ensures
        ({
            let b = input_bytes(w, nonce);
            let n = instances_bytes(w).len() as int;
            &&& b.len() == n + 24
            &&& from_le(b.subrange(0, 8)) == w.len()
            &&& b.subrange(8, 8 + n) == instances_bytes(w)
            &&& from_le(b.subrange(8 + n, 24 + n)) == nonce
        }),
{
    let b = input_bytes(w, nonce);
    let n = instances_bytes(w).len() as int;
    lemma_to_le_len(w.len(), 8);
    lemma_to_le_len(nonce as nat, 16);
    lemma_pow256_16();
    lemma_from_to_le(w.len(), 8);
    lemma_from_to_le(nonce as nat, 16);
    assert(b.subrange(0, 8) =~= to_le(w.len(), 8));
    assert(b.subrange(8, 8 + n) =~= instances_bytes(w));
    assert(b.subrange(8 + n, 24 + n) =~= to_le(nonce as nat, 16));
}

/// The bytes of an output: the differences after the number of instances, the
/// base's commitments, those under the nonce, the nonce, and the commitments after
/// the number of instances.
pub proof fn lemma_output_layout(d: SolderedLabelsData)
    ensures
        ({
            let b = output_bytes(d);
            let deltas = instances_bytes(rows(d.deltas@));
            let base = commitment_bytes(d.base_commitment@);
            let nonces = commitment_bytes(d.base_nonce_commitment@);
            let others = commitments_bytes(rows(d.commitments@));
            let p1 = 8 + deltas.len() as int;
            let p2 = p1 + base.len() as int;
            let p3 = p2 + nonces.len() as int;
            &&& b.len() == p3 + 24 + others.len()
            &&& from_le(b.subrange(0, 8)) == d.deltas@.len()
            &&& b.subrange(8, p1) == deltas
            &&& b.subrange(p1, p2) == base
            &&& b.subrange(p2, p3) == nonces
            &&& from_le(b.subrange(p3, p3 + 16)) == d.nonce
            &&& from_le(b.subrange(p3 + 16, p3 + 24)) == d.commitments@.len()
            &&& b.skip(p3 + 24) == others
        }),
{
    let b = output_bytes(d);
    let deltas = instances_bytes(rows(d.deltas@));
    let base = commitment_bytes(d.base_commitment@);
    let nonces = commitment_bytes(d.base_nonce_commitment@);
    let others = commitments_bytes(rows(d.commitments@));
    let (n, m) = (d.deltas@.len(), d.commitments@.len());
    let p1 = 8 + deltas.len() as int;
    let p2 = p1 + base.len() as int;
    let p3 = p2 + nonces.len() as int;
    lemma_pow256_16();
    assert(d.deltas.len() == n && d.commitments.len() == m);
    lemma_to_le_len(n, 8);
    lemma_to_le_len(m, 8);
    lemma_to_le_len(d.nonce as nat, 16);
    lemma_from_to_le(n, 8);
    lemma_from_to_le(m, 8);
    lemma_from_to_le(d.nonce as nat, 16);
    assert(b.subrange(0, 8) =~= to_le(n, 8));
    assert(b.subrange(8, p1) =~= deltas);
    assert(b.subrange(p1, p2) =~= base);
    assert(b.subrange(p2, p3) =~= nonces);
    assert(b.subrange(p3, p3 + 16) =~= to_le(d.nonce as nat, 16));
    assert(b.subrange(p3 + 16, p3 + 24) =~= to_le(m, 8));
    assert(b.skip(p3 + 24) =~= others);
}

/// Lists are taken with their elements, in their order.
pub proof fn lemma_rows<T>(v: Seq<Vec<T>>, i: int)
    requires
        0 <= i < v.len(),
    ensures
        rows(v).len() == v.len(),
        rows(v)[i] == v[i]@,
{
}

proof fn lemma_instances_cons(x: Seq<(u128, u128)>, t: Seq<Seq<(u128, u128)>>)
    ensures
        instances_bytes(seq![x] + t) == instance_bytes(x) + instances_bytes(t),
    decreases t.len(),
{
    let all = seq![x] + t;
    if t.len() == 0 {
        assert(all.drop_last() =~= Seq::<Seq<(u128, u128)>>::empty());
        assert(all.last() == x);
        assert(instances_bytes(all.drop_last()).len() == 0);
        assert(instances_bytes(all) =~= instance_bytes(x) + instances_bytes(t));
    } else {
        lemma_instances_cons(x, t.drop_last());
        assert(all.drop_last() =~= seq![x] + t.drop_last());
        assert(all.last() == t.last());
        assert(instances_bytes(all) =~= instance_bytes(x) + instances_bytes(t));
    }
}

/// The word that sixteen bytes spell.
proof fn lemma_word_found(b: Seq<u8>) -> (x: u128)
    requires
        b.len() == 16,
    ensures
        to_le(x as nat, 16) == b,
{
    lemma_to_from_le(b);
    lemma_pow256_16();
    from_le(b) as u128
}

/// Wires whose bytes are given bytes.
proof fn lemma_wires_found(b: Seq<u8>, n: nat) -> (w: Seq<(u128, u128)>)
    requires
        b.len() == 32 * n,
    ensures
        w.len() == n,
        wires_bytes(w) == b,
    decreases n,
{
    if n == 0 {
        let w = Seq::<(u128, u128)>::empty();
        assert(wires_bytes(w) =~= b);
        w
    } else {
        let m = b.len() - 32;
        let before = lemma_wires_found(b.take(m), (n - 1) as nat);
        let x = lemma_word_found(b.subrange(m, m + 16));
        let y = lemma_word_found(b.subrange(m + 16, m + 32));
        let w = before.push((x, y));
        assert(w.drop_last() =~= before);
        assert(wires_bytes(w) =~= b);
        w
    }
}

/// Instances whose bytes lead to a given end.
proof fn lemma_instances_found(b: Seq<u8>, pos: int, n: nat) -> (w: Seq<Seq<(u128, u128)>>)
    requires
        0 <= pos <= b.len(),
        instances_end(b, pos, n) is Some,
    ensures
        w.len() == n,
        pos <= instances_end(b, pos, n)->0 <= b.len(),
        instances_bytes(w) == b.subrange(pos, instances_end(b, pos, n)->0),
    decreases n,
{
    let end = instances_end(b, pos, n)->0;
    if n == 0 {
        let w = Seq::<Seq<(u128, u128)>>::empty();
        assert(instances_bytes(w) =~= b.subrange(pos, end));
        w
    } else {
        let len = length_at(b, pos);
        let next = pos + 8 + 32 * len;
        let x = lemma_wires_found(b.subrange(pos + 8, next), len);
        let t = lemma_instances_found(b, next, (n - 1) as nat);
        lemma_instances_cons(x, t);
        lemma_to_from_le(b.subrange(pos, pos + 8));
        assert(instance_bytes(x) =~= b.subrange(pos, next));
        assert(instance_bytes(x) + instances_bytes(t) =~= b.subrange(pos, end));
        seq![x] + t
    }
}

/// Where an end is found, the bytes up to it are those of an input.
pub proof fn lemma_input_found(b: Seq<u8>) -> (r: (Seq<Seq<(u128, u128)>>, u128))
    requires
        input_end(b) is Some,
    ensures
        0 <= input_end(b)->0 <= b.len(),
        input_bytes(r.0, r.1) == b.take(input_end(b)->0),
{
    let end = input_end(b)->0;
    let w = lemma_instances_found(b, 8, length_at(b, 0));
    let nonce = lemma_word_found(b.subrange(end - 16, end));
    lemma_to_from_le(b.subrange(0, 8));
    assert(input_bytes(w, nonce) =~= b.take(end));
    (w, nonce)
}

/// Bytes that start with those of an input are an input, whatever follows them.
pub proof fn lemma_is_input(input: WiresInput, rest: Seq<u8>)
    ensures
        is_input_of(
            input,
            input_bytes(rows(input.instances_wires@), input.nonce) + rest,
        ),
{
    let all = input_bytes(rows(input.instances_wires@), input.nonce);
    lemma_countable(input.instances_wires);
    lemma_input_end(rows(input.instances_wires@), input.nonce, rest);
    assert((all + rest).take(all.len() as int) =~= all);
}

} // verus!
