//! The compact binary encoding: the persisted item sequence as a
//! length-prefixed byte stream, fixed layout, little-endian.

use vstd::prelude::*;
use vstd::utf8::{is_scalar, char_is_scalar, char_u32_cast};
use crate::items::{Item, IModel, items_views};

verus! {

/// The `k` little-endian bytes of `n`.
pub open spec fn le_bytes(n: int, k: nat) -> Seq<u8>
    decreases k,
{
    if k == 0 {
        Seq::empty()
    } else {
        seq![(n % 256) as u8] + le_bytes(n / 256, (k - 1) as nat)
    }
}

/// The value of a little-endian byte sequence.
pub open spec fn le_val(b: Seq<u8>) -> int
    decreases b.len(),
{
    if b.len() == 0 {
        0
    } else {
        b[0] + 256 * le_val(b.drop_first())
    }
}

/// Powers of 256.
pub open spec fn pow256(k: nat) -> int
    decreases k,
{
    if k == 0 {
        1
    } else {
        256 * pow256((k - 1) as nat)
    }
}

pub proof fn lemma_le_bytes_len(n: int, k: nat)
    ensures
        le_bytes(n, k).len() == k,
    decreases k,
{
    if k > 0 {
        lemma_le_bytes_len(n / 256, (k - 1) as nat);
    }
}

pub proof fn lemma_le_val_bound(b: Seq<u8>)
    ensures
        0 <= le_val(b) < pow256(b.len()),
    decreases b.len(),
{
    if b.len() == 0 {
    } else {
        lemma_le_val_bound(b.drop_first());
        let r = le_val(b.drop_first());
        assert(b[0] + 256 * r < 256 * pow256((b.len() - 1) as nat)) by (nonlinear_arith)
            requires b[0] < 256, 0 <= r, r < pow256((b.len() - 1) as nat);
        assert(0 <= 256 * r) by (nonlinear_arith)
            requires 0 <= r;
    }
}

pub proof fn lemma_le_round_trip(n: int, k: nat)
    requires
        0 <= n < pow256(k),
    ensures
        le_val(le_bytes(n, k)) == n,
    decreases k,
{
    if k == 0 {
    } else {
        assert(0 <= n / 256 < pow256((k - 1) as nat)) by (nonlinear_arith)
            requires 0 <= n, n < 256 * pow256((k - 1) as nat);
        lemma_le_round_trip(n / 256, (k - 1) as nat);
        let b = le_bytes(n, k);
        assert(b.drop_first() =~= le_bytes(n / 256, (k - 1) as nat));
        assert(b[0] == n % 256);
        assert(n % 256 + 256 * (n / 256) == n);
    }
}

/// `pow256(16)` exceeds every `u128`, `pow256(8)` every `u64`, `pow256(4)`
/// every `u32`.
pub proof fn lemma_pow256_widths()
    ensures
        pow256(16) == 0x1_0000_0000_0000_0000_0000_0000_0000_0000,
        pow256(8) == 0x1_0000_0000_0000_0000,
        pow256(4) == 0x1_0000_0000,
{
    reveal_with_fuel(pow256, 17);
}

/// The four bytes of one character's scalar value.
pub open spec fn char_bytes(c: char) -> Seq<u8> {
    le_bytes(c as u32 as int, 4)
}

/// The bytes of a character sequence.
pub open spec fn chars_bytes(s: Seq<char>) -> Seq<u8>
    decreases s.len(),
{
    if s.len() == 0 {
        Seq::empty()
    } else {
        char_bytes(s[0]) + chars_bytes(s.drop_first())
    }
}

/// The bytes of one item: a tag byte, then the number or the
/// length-prefixed characters.
pub open spec fn item_bytes(it: IModel) -> Seq<u8> {
    match it {
        IModel::Num(n) => seq![0u8] + le_bytes(n as int, 16),
        IModel::Str(s) => seq![1u8] + le_bytes(s.len() as int, 8) + chars_bytes(s),
    }
}

/// The bytes of an item sequence.
pub open spec fn items_bytes(items: Seq<IModel>) -> Seq<u8>
    decreases items.len(),
{
    if items.len() == 0 {
        Seq::empty()
    } else {
        item_bytes(items[0]) + items_bytes(items.drop_first())
    }
}

/// The whole binary blob: the item count, then the items.
pub open spec fn blob_bytes(items: Seq<IModel>) -> Seq<u8> {
    le_bytes(items.len() as int, 8) + items_bytes(items)
}

// ---- byte-level parsing ----

/// Read `k` characters of four bytes each.
pub open spec fn pb_chars(b: Seq<u8>, pos: int, k: nat) -> Option<(Seq<char>, int)>
    decreases k,
{
    if k == 0 {
        Some((Seq::empty(), pos))
    } else if pos + 4 <= b.len() && 0 <= pos {
        let code = le_val(b.subrange(pos, pos + 4));
        if is_scalar(code as u32) {
            match pb_chars(b, pos + 4, (k - 1) as nat) {
                Some((rest, p)) => Some((seq![code as u32 as char] + rest, p)),
                None => None,
            }
        } else {
            None
        }
    } else {
        None
    }
}

/// Read one item.
pub open spec fn pb_item(b: Seq<u8>, pos: int) -> Option<(IModel, int)> {
    if 0 <= pos < b.len() {
        if b[pos] == 0u8 {
            if pos + 17 <= b.len() {
                Some((IModel::Num(le_val(b.subrange(pos + 1, pos + 17)) as u128), pos + 17))
            } else {
                None
            }
        } else if b[pos] == 1u8 {
            if pos + 9 <= b.len() {
                let n = le_val(b.subrange(pos + 1, pos + 9));
                match pb_chars(b, pos + 9, n as nat) {
                    Some((s, p)) => Some((IModel::Str(s), p)),
                    None => None,
                }
            } else {
                None
            }
        } else {
            None
        }
    } else {
        None
    }
}

/// Read `k` items.
pub open spec fn pb_items(b: Seq<u8>, pos: int, k: nat) -> Option<(Seq<IModel>, int)>
    decreases k,
{
    if k == 0 {
        Some((Seq::empty(), pos))
    } else {
        match pb_item(b, pos) {
            Some((it, p)) => match pb_items(b, p, (k - 1) as nat) {
                Some((rest, p2)) => Some((seq![it] + rest, p2)),
                None => None,
            },
            None => None,
        }
    }
}

/// Parse a whole blob back to its item sequence: `None` on anything
/// malformed or trailing.
pub open spec fn parse_blob(b: Seq<u8>) -> Option<Seq<IModel>> {
    if b.len() < 8 {
        None
    } else {
        let k = le_val(b.subrange(0, 8));
        match pb_items(b, 8, k as nat) {
            Some((items, p)) => if p == b.len() {
                Some(items)
            } else {
                None
            },
            None => None,
        }
    }
}

// ---- parsing inverts encoding ----

proof fn lemma_pb_chars_at(b: Seq<u8>, pos: int, s: Seq<char>)
    requires
        0 <= pos <= b.len(),
        chars_bytes(s).is_prefix_of(b.skip(pos)),
    ensures
        pb_chars(b, pos, s.len()) == Some((s, pos + 4 * s.len())),
        chars_bytes(s).len() == 4 * s.len(),
    decreases s.len(),
{
    if s.len() == 0 {
        assert(s =~= Seq::<char>::empty());
    } else {
        let c = s[0];
        char_is_scalar(c);
        assert(char_bytes(c).len() == 4) by {
            lemma_le_bytes_len(c as u32 as int, 4);
        }
        assert(b.subrange(pos, pos + 4) =~= char_bytes(c)) by {
            assert forall|i: int| 0 <= i < 4 implies b[pos + i] == char_bytes(c)[i] by {
                assert(chars_bytes(s)[i] == char_bytes(c)[i]);
                assert(b.skip(pos)[i] == chars_bytes(s)[i]);
            }
        }
        assert((c as u32) < 0x1_0000_0000) by {
            char_is_scalar(c);
        }
        lemma_pow256_widths();
        lemma_le_round_trip(c as u32 as int, 4);
        let code = le_val(b.subrange(pos, pos + 4));
        assert(code == c as u32 as int);
        char_u32_cast(c, c as u32);
        assert(code as u32 as char == c);
        let tail = s.drop_first();
        assert(chars_bytes(tail).is_prefix_of(b.skip(pos + 4))) by {
            assert forall|i: int| 0 <= i < chars_bytes(tail).len() implies
                b.skip(pos + 4)[i] == chars_bytes(tail)[i] by {
                assert(chars_bytes(s)[4 + i] == chars_bytes(tail)[i]);
                assert(b.skip(pos)[4 + i] == chars_bytes(s)[4 + i]);
            }
        }
        lemma_pb_chars_at(b, pos + 4, tail);
        assert(seq![c] + tail =~= s);
    }
}

proof fn lemma_pb_items_at(b: Seq<u8>, pos: int, items: Seq<IModel>)
    requires
        0 <= pos <= b.len(),
        items_bytes(items).is_prefix_of(b.skip(pos)),
        forall|i: int|
            0 <= i < items.len() ==> ((#[trigger] items[i]) is Str
                ==> items[i]->Str_0.len() < pow256(8)),
    ensures
        pb_items(b, pos, items.len()) == Some((items, pos + items_bytes(items).len())),
    decreases items.len(),
{
    if items.len() == 0 {
        assert(items =~= Seq::<IModel>::empty());
    } else {
        let it = items[0];
        let ib = item_bytes(it);
        assert forall|i: int| 0 <= i < ib.len() implies b[pos + i] == ib[i] by {
            assert(items_bytes(items)[i] == ib[i]);
            assert(b.skip(pos)[i] == items_bytes(items)[i]);
        }
        lemma_pow256_widths();
        let p: int = match it {
            IModel::Num(n) => {
                assert(b[pos + 0] == ib[0]);
                assert(ib[0] == 0u8);
                lemma_le_bytes_len(n as int, 16);
                assert(b.subrange(pos + 1, pos + 17) =~= le_bytes(n as int, 16)) by {
                    assert forall|i: int| 0 <= i < 16 implies
                        b[pos + 1 + i] == le_bytes(n as int, 16)[i] by {
                        assert(b[pos + (1 + i)] == ib[1 + i]);
                        assert(ib[1 + i] == le_bytes(n as int, 16)[i]);
                    }
                }
                lemma_le_round_trip(n as int, 16);
                assert(pb_item(b, pos) == Some((it, pos + 17)));
                pos + 17
            },
            IModel::Str(s) => {
                assert(b[pos + 0] == ib[0]);
                assert(ib[0] == 1u8);
                lemma_le_bytes_len(s.len() as int, 8);
                assert(b.subrange(pos + 1, pos + 9) =~= le_bytes(s.len() as int, 8)) by {
                    assert forall|i: int| 0 <= i < 8 implies
                        b[pos + 1 + i] == le_bytes(s.len() as int, 8)[i] by {
                        assert(b[pos + (1 + i)] == ib[1 + i]);
                        assert(ib[1 + i] == le_bytes(s.len() as int, 8)[i]);
                    }
                }
                lemma_le_round_trip(s.len() as int, 8);
                assert(chars_bytes(s).is_prefix_of(b.skip(pos + 9))) by {
                    assert forall|i: int| 0 <= i < chars_bytes(s).len() implies
                        b.skip(pos + 9)[i] == chars_bytes(s)[i] by {
                        assert(ib[9 + i] == chars_bytes(s)[i]);
                        assert(b[pos + (9 + i)] == ib[9 + i]);
                    }
                }
                lemma_pb_chars_at(b, pos + 9, s);
                assert(pb_item(b, pos) == Some((it, pos + 9 + 4 * s.len())));
                assert(ib.len() == 9 + 4 * s.len());
                pos + 9 + 4 * s.len()
            },
        };
        assert(pb_item(b, pos) == Some((it, p)));
        assert(p == pos + ib.len());
        let tail = items.drop_first();
        assert(items_bytes(tail).is_prefix_of(b.skip(p))) by {
            assert forall|i: int| 0 <= i < items_bytes(tail).len() implies
                b.skip(p)[i] == items_bytes(tail)[i] by {
                assert(items_bytes(items)[ib.len() + i] == items_bytes(tail)[i]);
                assert(b.skip(pos)[ib.len() + i] == items_bytes(items)[ib.len() + i]);
            }
        }
        lemma_pb_items_at(b, p, tail);
        assert(seq![it] + tail =~= items);
    }
}

/// `pow256` grows with its exponent.
pub proof fn lemma_pow256_mono(a: nat, b: nat)
    requires
        a <= b,
    ensures
        pow256(a) <= pow256(b),
        pow256(a) >= 1,
    decreases b,
{
    if b > 0 {
        if a == b {
            lemma_pow256_mono((a - 1) as nat, (b - 1) as nat);
            assert(256 * pow256((a - 1) as nat) == pow256(a));
        } else {
            lemma_pow256_mono(a, (b - 1) as nat);
            assert(pow256((b - 1) as nat) <= 256 * pow256((b - 1) as nat)) by (nonlinear_arith)
                requires pow256((b - 1) as nat) >= 0;
        }
    }
}

// ---- executable encoding ----

/// Append the `k` little-endian bytes of `n`.
fn push_le(out: &mut Vec<u8>, n: u128, k: usize)
    ensures
        final(out)@ == old(out)@ + le_bytes(n as int, k as nat),
    decreases k,
{
    if k == 0 {
        assert(final(out)@ =~= old(out)@ + le_bytes(n as int, 0));
    } else {
        out.push((n % 256) as u8);
        push_le(out, n / 256, k - 1);
        proof {
            assert(final(out)@ =~= old(out)@ + le_bytes(n as int, k as nat));
        }
    }
}

/// Append the four-byte encodings of the characters from index `i` on.
fn push_chars(out: &mut Vec<u8>, cs: &Vec<char>, i: usize)
    requires
        i <= cs@.len(),
    ensures
        final(out)@ == old(out)@ + chars_bytes(cs@.skip(i as int)),
    decreases cs@.len() - i,
{
    if i == cs.len() {
        assert(final(out)@ =~= old(out)@ + chars_bytes(cs@.skip(i as int)));
    } else {
        let c: char = cs[i];
        push_le(out, (c as u32) as u128, 4);
        push_chars(out, cs, i + 1);
        proof {
            let s = cs@.skip(i as int);
            assert(s.drop_first() =~= cs@.skip(i + 1));
            assert(s[0] == c);
            assert(final(out)@ =~= old(out)@ + chars_bytes(s));
        }
    }
}

/// Append the byte encodings of the items from index `i` on.
fn push_items_bytes(out: &mut Vec<u8>, items: &Vec<Item>, i: usize)
    requires
        i <= items@.len(),
    ensures
        final(out)@ == old(out)@ + items_bytes(items_views(items@).skip(i as int)),
    decreases items@.len() - i,
{
    if i == items.len() {
        assert(final(out)@ =~= old(out)@
            + items_bytes(items_views(items@).skip(i as int)));
    } else {
        match &items[i] {
            Item::Num(n) => {
                out.push(0u8);
                push_le(out, *n, 16);
                proof {
                    assert(items_views(items@)[i as int] == IModel::Num(*n));
                    assert(out@ =~= old(out)@
                        + item_bytes(items_views(items@)[i as int]));
                }
            },
            Item::Str(s) => {
                let cs: Vec<char> = crate::trusted::string_to_chars(s.as_str());
                out.push(1u8);
                push_le(out, cs.len() as u128, 8);
                push_chars(out, &cs, 0);
                proof {
                    assert(cs@.skip(0) =~= cs@);
                    assert(items_views(items@)[i as int] == IModel::Str(s@));
                    assert(out@ =~= old(out)@
                        + item_bytes(items_views(items@)[i as int]));
                }
            },
        }
        push_items_bytes(out, items, i + 1);
        proof {
            let sq = items_views(items@).skip(i as int);
            assert(sq.drop_first() =~= items_views(items@).skip(i + 1));
            assert(sq[0] == items_views(items@)[i as int]);
            assert(final(out)@ =~= old(out)@ + items_bytes(sq));
        }
    }
}

/// Encode an item sequence as its binary blob.
pub fn items_to_bytes(items: &Vec<Item>) -> (r: Vec<u8>)
    ensures
        r@ == blob_bytes(items_views(items@)),
{
    let mut out: Vec<u8> = Vec::new();
    push_le(&mut out, items.len() as u128, 8);
    push_items_bytes(&mut out, items, 0);
    proof {
        assert(items_views(items@).skip(0) =~= items_views(items@));
        assert(out@ =~= blob_bytes(items_views(items@)));
    }
    out
}

// ---- executable decoding ----

/// Read the `k`-byte little-endian value at `pos`.
fn read_le(b: &Vec<u8>, pos: usize, k: usize) -> (r: u128)
    requires
        pos + k <= b@.len(),
        k <= 16,
    ensures
        r as int == le_val(b@.subrange(pos as int, pos + k)),
    decreases k,
{
    let total_len: usize = b.len();
    assert(b@.len() <= usize::MAX);
    if k == 0 {
        assert(b@.subrange(pos as int, pos as int) =~= Seq::<u8>::empty());
        0
    } else {
        let rest: u128 = read_le(b, pos + 1, k - 1);
        proof {
            let sub = b@.subrange(pos as int, pos + k);
            assert(sub.drop_first() =~= b@.subrange(pos + 1, pos + 1 + (k - 1)));
            assert(sub[0] == b@[pos as int]);
            lemma_le_val_bound(sub.drop_first());
            lemma_pow256_mono((k - 1) as nat, 15);
            lemma_pow256_widths();
            assert(256 * rest <= 256 * (pow256(15) - 1)) by (nonlinear_arith)
                requires rest <= pow256(15) - 1;
        }
        (b[pos] as u128) + 256 * rest
    }
}

/// Read `k` four-byte characters at `pos`, mirroring `pb_chars`.
fn read_chars(b: &Vec<u8>, pos: usize, k: u128) -> (r: Option<(Vec<char>, usize)>)
    requires
        pos <= b@.len(),
    ensures
        match pb_chars(b@, pos as int, k as nat) {
            Some((s, p)) => r is Some && r->Some_0.0@ == s && r->Some_0.1 == p
                && pos <= p <= b@.len(),
            None => r is None,
        },
    decreases k,
{
    let total_len: usize = b.len();
    assert(b@.len() <= usize::MAX);
    if k == 0 {
        let v: Vec<char> = Vec::new();
        assert(v@ =~= Seq::<char>::empty());
        return Some((v, pos));
    }
    if total_len - pos < 4 {
        return None;
    }
    let code: u128 = read_le(b, pos, 4);
    proof {
        lemma_le_val_bound(b@.subrange(pos as int, pos + 4));
        lemma_pow256_widths();
    }
    let code32: u32 = code as u32;
    match crate::trusted::char_from_u32(code32) {
        Some(c) => {
            proof {
                char_is_scalar(c);
                char_u32_cast(c, c as u32);
                assert(is_scalar(code32));
            }
            match read_chars(b, pos + 4, k - 1) {
                Some((mut rest, p)) => {
                    rest.insert(0, c);
                    proof {
                        let spec = pb_chars(b@, pos as int, k as nat);
                        assert(rest@ =~= spec->Some_0.0);
                    }
                    Some((rest, p))
                },
                None => None,
            }
        },
        None => {
            proof {
                assert(!is_scalar(code32));
            }
            None
        },
    }
}

/// Read one item at `pos`, mirroring `pb_item`.
fn read_item(b: &Vec<u8>, pos: usize) -> (r: Option<(Item, usize)>)
    requires
        pos <= b@.len(),
    ensures
        match pb_item(b@, pos as int) {
            Some((it, p)) => r is Some && r->Some_0.0@ == it && r->Some_0.1 == p
                && pos <= p <= b@.len(),
            None => r is None,
        },
{
    let total_len: usize = b.len();
    assert(b@.len() <= usize::MAX);
    if pos == total_len {
        return None;
    }
    let tag: u8 = b[pos];
    if tag == 0 {
        if total_len - pos < 17 {
            return None;
        }
        let n: u128 = read_le(b, pos + 1, 16);
        proof {
            assert(b@.subrange(pos as int + 1, pos as int + 17)
                =~= b@.subrange((pos + 1) as int, (pos + 1) + 16));
            lemma_le_val_bound(b@.subrange(pos as int + 1, pos as int + 17));
            lemma_pow256_widths();
        }
        Some((Item::Num(n), pos + 17))
    } else if tag == 1 {
        if total_len - pos < 9 {
            return None;
        }
        let n: u128 = read_le(b, pos + 1, 8);
        proof {
            assert(b@.subrange(pos as int + 1, pos as int + 9)
                =~= b@.subrange((pos + 1) as int, (pos + 1) + 8));
        }
        match read_chars(b, pos + 9, n) {
            Some((cs, p)) => {
                let s: String = crate::trusted::chars_to_string(&cs);
                Some((Item::Str(s), p))
            },
            None => None,
        }
    } else {
        None
    }
}

/// Read `k` items at `pos`, mirroring `pb_items`.
fn read_items(b: &Vec<u8>, pos: usize, k: u128) -> (r: Option<(Vec<Item>, usize)>)
    requires
        pos <= b@.len(),
    ensures
        match pb_items(b@, pos as int, k as nat) {
            Some((its, p)) => r is Some && items_views(r->Some_0.0@) == its
                && r->Some_0.1 == p && pos <= p <= b@.len(),
            None => r is None,
        },
    decreases k,
{
    if k == 0 {
        let v: Vec<Item> = Vec::new();
        assert(items_views(v@) =~= Seq::<IModel>::empty());
        return Some((v, pos));
    }
    match read_item(b, pos) {
        Some((it, p)) => {
            match read_items(b, p, k - 1) {
                Some((mut rest, p2)) => {
                    rest.insert(0, it);
                    proof {
                        let spec = pb_items(b@, pos as int, k as nat);
                        assert(items_views(rest@) =~= spec->Some_0.0);
                    }
                    Some((rest, p2))
                },
                None => None,
            }
        },
        None => None,
    }
}

/// Decode a binary blob back to its item sequence, mirroring
/// `parse_blob`.
pub fn bytes_to_items(b: &Vec<u8>) -> (r: Option<Vec<Item>>)
    ensures
        match parse_blob(b@) {
            Some(its) => r is Some && items_views(r->Some_0@) == its,
            None => r is None,
        },
{
    let total_len: usize = b.len();
    assert(b@.len() <= usize::MAX);
    if total_len < 8 {
        return None;
    }
    let k: u128 = read_le(b, 0, 8);
    proof {
        assert(b@.subrange(0, 8) =~= b@.subrange(0int, 0int + 8));
    }
    match read_items(b, 8, k) {
        Some((items, p)) => {
            if p == total_len {
                Some(items)
            } else {
                None
            }
        },
        None => None,
    }
}

/// Parsing inverts the blob encoding for any item sequence whose lengths
/// fit the fixed-width fields.
pub proof fn lemma_parse_blob(items: Seq<IModel>)
    requires
        items.len() < pow256(8),
        forall|i: int|
            0 <= i < items.len() ==> ((#[trigger] items[i]) is Str
                ==> items[i]->Str_0.len() < pow256(8)),
    ensures
        parse_blob(blob_bytes(items)) == Some(items),
{
    let b = blob_bytes(items);
    lemma_le_bytes_len(items.len() as int, 8);
    assert(b.subrange(0, 8) =~= le_bytes(items.len() as int, 8));
    lemma_le_round_trip(items.len() as int, 8);
    assert(items_bytes(items).is_prefix_of(b.skip(8))) by {
        assert forall|i: int| 0 <= i < items_bytes(items).len() implies
            b.skip(8)[i] == items_bytes(items)[i] by {
            assert(b[8 + i] == items_bytes(items)[i]);
        }
    }
    lemma_pb_items_at(b, 8, items);
}

} // verus!
