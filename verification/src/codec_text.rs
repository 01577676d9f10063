//! The textual encoding: the persisted item sequence as lines of text,
//! numbers in decimal, strings length-prefixed so that any character is
//! carried verbatim.

use vstd::prelude::*;
use crate::items::IModel;

verus! {

/// The decimal digit character of `d`.
pub open spec fn dig_char(d: int) -> char {
    if d == 0 {
        '0'
    } else if d == 1 {
        '1'
    } else if d == 2 {
        '2'
    } else if d == 3 {
        '3'
    } else if d == 4 {
        '4'
    } else if d == 5 {
        '5'
    } else if d == 6 {
        '6'
    } else if d == 7 {
        '7'
    } else if d == 8 {
        '8'
    } else {
        '9'
    }
}

/// The digit value of a character, `-1` for a non-digit.
pub open spec fn char_digit(c: char) -> int {
    if c == '0' {
        0
    } else if c == '1' {
        1
    } else if c == '2' {
        2
    } else if c == '3' {
        3
    } else if c == '4' {
        4
    } else if c == '5' {
        5
    } else if c == '6' {
        6
    } else if c == '7' {
        7
    } else if c == '8' {
        8
    } else if c == '9' {
        9
    } else {
        -1
    }
}

/// The decimal digits of `n`, most significant first.
pub open spec fn dec_chars(n: int) -> Seq<char>
    decreases n,
{
    if n < 10 {
        seq![dig_char(n)]
    } else {
        dec_chars(n / 10) + seq![dig_char(n % 10)]
    }
}

/// The value of a digit run, most significant first.
pub open spec fn digits_val(ds: Seq<char>) -> int
    decreases ds.len(),
{
    if ds.len() == 0 {
        0
    } else {
        char_digit(ds[0]) * pow10((ds.len() - 1) as nat) + digits_val(ds.drop_first())
    }
}

/// Powers of ten.
pub open spec fn pow10(k: nat) -> int
    decreases k,
{
    if k == 0 {
        1
    } else {
        10 * pow10((k - 1) as nat)
    }
}

/// All characters of the run are digits.
pub open spec fn all_digits(ds: Seq<char>) -> bool {
    forall|i: int| 0 <= i < ds.len() ==> char_digit(#[trigger] ds[i]) >= 0
}

proof fn lemma_pow10_pos(k: nat)
    ensures
        pow10(k) >= 1,
    decreases k,
{
    if k > 0 {
        lemma_pow10_pos((k - 1) as nat);
    }
}

/// Appending one digit multiplies the run's value by ten.
proof fn lemma_digits_val_push(ds: Seq<char>, c: char)
    ensures
        digits_val(ds.push(c)) == digits_val(ds) * 10 + char_digit(c),
    decreases ds.len(),
{
    if ds.len() == 0 {
        assert(ds.push(c) =~= seq![c]);
        assert(seq![c].drop_first() =~= Seq::<char>::empty());
        assert(digits_val(Seq::<char>::empty()) == 0);
        assert(pow10(0) == 1);
        assert(seq![c].len() == 1);
        assert(seq![c][0] == c);
        assert(digits_val(seq![c]) == char_digit(c) * pow10(0) + digits_val(seq![c].drop_first()));
        assert(char_digit(c) * 1 == char_digit(c)) by (nonlinear_arith);
    } else {
        lemma_digits_val_push(ds.drop_first(), c);
        let p = ds.push(c);
        assert(p.drop_first() =~= ds.drop_first().push(c));
        assert(p[0] == ds[0]);
        assert(p.len() - 1 == ds.len());
        let k = (ds.len() - 1) as nat;
        assert(pow10((p.len() - 1) as nat) == 10 * pow10(k));
        assert(char_digit(ds[0]) * (10 * pow10(k))
            == (char_digit(ds[0]) * pow10(k)) * 10) by (nonlinear_arith);
    }
}

/// The decimal digits of `n` are digits and carry the value `n`.
proof fn lemma_dec_chars_val(n: int)
    requires
        0 <= n,
    ensures
        all_digits(dec_chars(n)),
        digits_val(dec_chars(n)) == n,
        dec_chars(n).len() >= 1,
    decreases n,
{
    if n < 10 {
        assert(dec_chars(n) =~= seq![dig_char(n)]);
        assert(char_digit(dig_char(n)) == n);
        assert(seq![dig_char(n)].drop_first() =~= Seq::<char>::empty());
        assert(digits_val(Seq::<char>::empty()) == 0);
        assert(pow10(0) == 1);
        assert(digits_val(seq![dig_char(n)]) == char_digit(dig_char(n)) * pow10(0)
            + digits_val(seq![dig_char(n)].drop_first()));
        assert(n * 1 == n) by (nonlinear_arith);
    } else {
        lemma_dec_chars_val(n / 10);
        let ds = dec_chars(n / 10);
        assert(dec_chars(n) =~= ds.push(dig_char(n % 10)));
        lemma_digits_val_push(ds, dig_char(n % 10));
        assert(char_digit(dig_char(n % 10)) == n % 10);
        assert((n / 10) * 10 + n % 10 == n);
        assert forall|i: int| 0 <= i < dec_chars(n).len() implies
            char_digit(#[trigger] dec_chars(n)[i]) >= 0 by {
            if i < ds.len() {
                assert(dec_chars(n)[i] == ds[i]);
            } else {
                assert(dec_chars(n)[i] == dig_char(n % 10));
            }
        }
    }
}

// ---- text of items ----

/// The text of one item: a tag, the number (and for a string its
/// characters after a colon), a newline.
pub open spec fn item_chars(it: IModel) -> Seq<char> {
    match it {
        IModel::Num(n) => seq!['n', ' '] + dec_chars(n as int) + seq!['\n'],
        IModel::Str(s) => seq!['s', ' '] + dec_chars(s.len() as int) + seq![':'] + s
            + seq!['\n'],
    }
}

/// The text of an item sequence.
pub open spec fn items_chars(items: Seq<IModel>) -> Seq<char>
    decreases items.len(),
{
    if items.len() == 0 {
        Seq::empty()
    } else {
        item_chars(items[0]) + items_chars(items.drop_first())
    }
}

/// The whole textual blob: the item count on its own line, then the
/// items.
pub open spec fn text_chars(items: Seq<IModel>) -> Seq<char> {
    dec_chars(items.len() as int) + seq!['\n'] + items_chars(items)
}

// ---- text parsing ----

/// Accumulate decimal digits from `pos` until the first non-digit, which
/// is left unconsumed; `None` past the end or on overflow.
pub open spec fn pt_digits(s: Seq<char>, pos: int, acc: int) -> Option<(int, int)>
    decreases s.len() - pos,
{
    if 0 <= pos < s.len() {
        let d = char_digit(s[pos]);
        if d >= 0 {
            if acc <= (u128::MAX - d) / 10 {
                pt_digits(s, pos + 1, acc * 10 + d)
            } else {
                None
            }
        } else {
            Some((acc, pos))
        }
    } else {
        None
    }
}

/// Read a decimal number: at least one digit, then an unconsumed
/// non-digit.
pub open spec fn pt_num(s: Seq<char>, pos: int) -> Option<(int, int)> {
    if 0 <= pos < s.len() && char_digit(s[pos]) >= 0 {
        pt_digits(s, pos, 0)
    } else {
        None
    }
}

/// Read one item.
pub open spec fn pt_item(s: Seq<char>, pos: int) -> Option<(IModel, int)> {
    if 0 <= pos && pos + 2 <= s.len() && s[pos + 1] == ' ' {
        if s[pos] == 'n' {
            match pt_num(s, pos + 2) {
                Some((v, p)) => if p < s.len() && s[p] == '\n' {
                    Some((IModel::Num(v as u128), p + 1))
                } else {
                    None
                },
                None => None,
            }
        } else if s[pos] == 's' {
            match pt_num(s, pos + 2) {
                Some((v, p)) => if p < s.len() && s[p] == ':' && p + 2 + v <= s.len()
                    && s[p + 1 + v] == '\n' {
                    Some((IModel::Str(s.subrange(p + 1, p + 1 + v)), p + 2 + v))
                } else {
                    None
                },
                None => None,
            }
        } else {
            None
        }
    } else {
        None
    }
}

/// Read `k` items.
pub open spec fn pt_items(s: Seq<char>, pos: int, k: nat) -> Option<(Seq<IModel>, int)>
    decreases k,
{
    if k == 0 {
        Some((Seq::empty(), pos))
    } else {
        match pt_item(s, pos) {
            Some((it, p)) => match pt_items(s, p, (k - 1) as nat) {
                Some((rest, p2)) => Some((seq![it] + rest, p2)),
                None => None,
            },
            None => None,
        }
    }
}

/// Parse a whole textual blob back to its item sequence: `None` on
/// anything malformed or trailing.
pub open spec fn parse_text(s: Seq<char>) -> Option<Seq<IModel>> {
    match pt_num(s, 0) {
        Some((k, p)) => if p < s.len() && s[p] == '\n' {
            match pt_items(s, p + 1, k as nat) {
                Some((items, p2)) => if p2 == s.len() {
                    Some(items)
                } else {
                    None
                },
                None => None,
            }
        } else {
            None
        },
        None => None,
    }
}

// ---- parsing inverts encoding ----

/// Consuming a digit run folds its value onto the accumulator.
proof fn lemma_pt_digits_run(s: Seq<char>, pos: int, ds: Seq<char>, acc: int)
    requires
        0 <= pos,
        pos + ds.len() < s.len(),
        all_digits(ds),
        forall|i: int| 0 <= i < ds.len() ==> s[pos + i] == ds[i],
        char_digit(s[pos + ds.len()]) < 0,
        0 <= acc,
        acc * pow10(ds.len()) + digits_val(ds) <= u128::MAX,
    ensures
        pt_digits(s, pos, acc) == Some(
            (acc * pow10(ds.len()) + digits_val(ds), pos + ds.len()),
        ),
    decreases ds.len(),
{
    lemma_pow10_pos(ds.len());
    if ds.len() == 0 {
        assert(acc * 1 + 0 == acc);
        assert(char_digit(s[pos]) < 0);
    } else {
        let d0 = char_digit(ds[0]);
        assert(s[pos + 0] == ds[0]);
        assert(d0 >= 0);
        let acc2 = acc * 10 + d0;
        let tail = ds.drop_first();
        lemma_pow10_pos(tail.len());
        assert(digits_val(tail) >= 0) by {
            lemma_digits_val_nonneg(tail);
        }
        assert(acc * pow10(ds.len()) + digits_val(ds)
            == acc2 * pow10(tail.len()) + digits_val(tail)) by {
            assert(pow10(ds.len()) == 10 * pow10(tail.len()));
            assert(acc * (10 * pow10(tail.len()))
                == (acc * 10) * pow10(tail.len())) by (nonlinear_arith);
            assert(digits_val(ds) == d0 * pow10(tail.len()) + digits_val(tail));
            assert((acc * 10) * pow10(tail.len()) + d0 * pow10(tail.len())
                == (acc * 10 + d0) * pow10(tail.len())) by (nonlinear_arith);
        }
        assert(acc2 <= acc2 * pow10(tail.len()) + digits_val(tail)) by (nonlinear_arith)
            requires acc2 >= 0, pow10(tail.len()) >= 1, digits_val(tail) >= 0;
        assert(acc <= (u128::MAX - d0) / 10) by {
            assert(10 * acc <= u128::MAX - d0);
            vstd::arithmetic::div_mod::lemma_div_is_ordered(
                10 * acc,
                u128::MAX - d0,
                10,
            );
            vstd::arithmetic::div_mod::lemma_div_by_multiple(acc, 10);
            assert(10 * acc == acc * 10) by (nonlinear_arith);
        }
        assert forall|i: int| 0 <= i < tail.len() implies s[pos + 1 + i] == tail[i] by {
            assert(s[pos + (1 + i)] == ds[1 + i]);
        }
        assert(char_digit(s[pos + 1 + tail.len()]) < 0);
        lemma_pt_digits_run(s, pos + 1, tail, acc2);
    }
}

proof fn lemma_digits_val_nonneg(ds: Seq<char>)
    requires
        all_digits(ds),
    ensures
        digits_val(ds) >= 0,
    decreases ds.len(),
{
    if ds.len() > 0 {
        lemma_digits_val_nonneg(ds.drop_first());
        lemma_pow10_pos((ds.len() - 1) as nat);
        assert(char_digit(ds[0]) * pow10((ds.len() - 1) as nat) >= 0) by (nonlinear_arith)
            requires char_digit(ds[0]) >= 0, pow10((ds.len() - 1) as nat) >= 1;
    }
}

/// Reading the printed decimal of `n`, terminated by a non-digit, yields
/// `n`.
proof fn lemma_pt_num_at(s: Seq<char>, pos: int, n: int)
    requires
        0 <= n <= u128::MAX,
        0 <= pos,
        pos + dec_chars(n).len() < s.len(),
        forall|i: int| 0 <= i < dec_chars(n).len() ==> s[pos + i] == dec_chars(n)[i],
        char_digit(s[pos + dec_chars(n).len()]) < 0,
    ensures
        pt_num(s, pos) == Some((n, pos + dec_chars(n).len())),
{
    lemma_dec_chars_val(n);
    assert(s[pos + 0] == dec_chars(n)[0]);
    lemma_pt_digits_run(s, pos, dec_chars(n), 0);
}

proof fn lemma_pt_items_at(s: Seq<char>, pos: int, items: Seq<IModel>)
    requires
        0 <= pos <= s.len(),
        items_chars(items).is_prefix_of(s.skip(pos)),
        forall|i: int|
            0 <= i < items.len() ==> ((#[trigger] items[i]) is Str
                ==> items[i]->Str_0.len() <= u64::MAX) && (items[i] is Num
                ==> items[i]->Num_0 <= u128::MAX),
    ensures
        pt_items(s, pos, items.len()) == Some((items, pos + items_chars(items).len())),
    decreases items.len(),
{
    if items.len() == 0 {
        assert(items =~= Seq::<IModel>::empty());
    } else {
        let it = items[0];
        let ic = item_chars(it);
        assert forall|i: int| 0 <= i < ic.len() implies s[pos + i] == ic[i] by {
            assert(items_chars(items)[i] == ic[i]);
            assert(s.skip(pos)[i] == items_chars(items)[i]);
        }
        let p: int = match it {
            IModel::Num(n) => {
                assert(ic[0] == 'n');
                assert(ic[1] == ' ');
                assert(s[pos + 0] == ic[0]);
                assert(s[pos + 1] == ic[1]);
                let nd = dec_chars(n as int).len() as int;
                assert forall|i: int| 0 <= i < nd implies
                    s[pos + 2 + i] == dec_chars(n as int)[i] by {
                    assert(s[pos + (2 + i)] == ic[2 + i]);
                    assert(ic[2 + i] == dec_chars(n as int)[i]);
                }
                assert(s[pos + 2 + nd] == '\n') by {
                    assert(s[pos + (2 + nd)] == ic[2 + nd]);
                }
                assert(char_digit('\n') < 0);
                lemma_pt_num_at(s, pos + 2, n as int);
                assert(pt_item(s, pos) == Some((it, pos + 2 + nd + 1)));
                assert(ic.len() == 2 + nd + 1);
                pos + ic.len()
            },
            IModel::Str(st) => {
                assert(ic[0] == 's');
                assert(ic[1] == ' ');
                assert(s[pos + 0] == ic[0]);
                assert(s[pos + 1] == ic[1]);
                let l = st.len() as int;
                let nd = dec_chars(l).len() as int;
                assert forall|i: int| 0 <= i < nd implies
                    s[pos + 2 + i] == dec_chars(l)[i] by {
                    assert(s[pos + (2 + i)] == ic[2 + i]);
                    assert(ic[2 + i] == dec_chars(l)[i]);
                }
                assert(s[pos + 2 + nd] == ':') by {
                    assert(s[pos + (2 + nd)] == ic[2 + nd]);
                }
                assert(char_digit(':') < 0);
                lemma_pt_num_at(s, pos + 2, l);
                let p0 = pos + 2 + nd;
                assert(s.subrange(p0 + 1, p0 + 1 + l) =~= st) by {
                    assert forall|i: int| 0 <= i < l implies s[p0 + 1 + i] == st[i] by {
                        assert(s[pos + (2 + nd + 1 + i)] == ic[2 + nd + 1 + i]);
                        assert(ic[2 + nd + 1 + i] == st[i]);
                    }
                }
                assert(s[p0 + 1 + l] == '\n') by {
                    assert(s[pos + (2 + nd + 1 + l)] == ic[2 + nd + 1 + l]);
                }
                assert(pt_item(s, pos) == Some((it, p0 + 2 + l)));
                assert(ic.len() == 2 + nd + 1 + l + 1);
                pos + ic.len()
            },
        };
        assert(pt_item(s, pos) == Some((it, p)));
        let tail = items.drop_first();
        assert(items_chars(tail).is_prefix_of(s.skip(p))) by {
            assert forall|i: int| 0 <= i < items_chars(tail).len() implies
                s.skip(p)[i] == items_chars(tail)[i] by {
                assert(items_chars(items)[ic.len() + i] == items_chars(tail)[i]);
                assert(s.skip(pos)[ic.len() + i] == items_chars(items)[ic.len() + i]);
            }
        }
        lemma_pt_items_at(s, p, tail);
        assert(seq![it] + tail =~= items);
    }
}

// ---- executable encoding ----

/// Append one digit character.
fn push_dig(out: &mut Vec<char>, d: u128)
    requires
        d < 10,
    ensures
        final(out)@ == old(out)@ + seq![dig_char(d as int)],
{
    let c: char = if d == 0 {
        '0'
    } else if d == 1 {
        '1'
    } else if d == 2 {
        '2'
    } else if d == 3 {
        '3'
    } else if d == 4 {
        '4'
    } else if d == 5 {
        '5'
    } else if d == 6 {
        '6'
    } else if d == 7 {
        '7'
    } else if d == 8 {
        '8'
    } else {
        '9'
    };
    out.push(c);
    proof {
        assert(final(out)@ =~= old(out)@ + seq![dig_char(d as int)]);
    }
}

/// Append the decimal digits of `n`.
fn push_dec(out: &mut Vec<char>, n: u128)
    ensures
        final(out)@ == old(out)@ + dec_chars(n as int),
    decreases n,
{
    if n < 10 {
        push_dig(out, n);
    } else {
        push_dec(out, n / 10);
        push_dig(out, n % 10);
        proof {
            assert(final(out)@ =~= old(out)@ + dec_chars(n as int));
        }
    }
}

/// Append the text of the items from index `i` on.
fn push_items_chars(out: &mut Vec<char>, items: &Vec<crate::items::Item>, i: usize)
    requires
        i <= items@.len(),
    ensures
        final(out)@ == old(out)@
            + items_chars(crate::items::items_views(items@).skip(i as int)),
    decreases items@.len() - i,
{
    if i == items.len() {
        assert(final(out)@ =~= old(out)@
            + items_chars(crate::items::items_views(items@).skip(i as int)));
    } else {
        match &items[i] {
            crate::items::Item::Num(n) => {
                out.push('n');
                out.push(' ');
                push_dec(out, *n);
                out.push('\n');
                proof {
                    assert(crate::items::items_views(items@)[i as int] == IModel::Num(*n));
                    assert(out@ =~= old(out)@
                        + item_chars(crate::items::items_views(items@)[i as int]));
                }
            },
            crate::items::Item::Str(st) => {
                let cs: Vec<char> = crate::trusted::string_to_chars(st.as_str());
                out.push('s');
                out.push(' ');
                push_dec(out, cs.len() as u128);
                out.push(':');
                let m: usize = cs.len();
                let mut j: usize = 0;
                let ghost mid = out@;
                while j < m
                    invariant
                        0 <= j <= m,
                        m == cs@.len(),
                        out@ == mid + cs@.take(j as int),
                    decreases m - j,
                {
                    out.push(cs[j]);
                    proof {
                        assert(cs@.take(j + 1) =~= cs@.take(j as int).push(cs@[j as int]));
                        assert(out@ =~= mid + cs@.take(j + 1));
                    }
                    j = j + 1;
                }
                out.push('\n');
                proof {
                    assert(cs@.take(m as int) =~= cs@);
                    assert(crate::items::items_views(items@)[i as int] == IModel::Str(st@));
                    assert(out@ =~= old(out)@
                        + item_chars(crate::items::items_views(items@)[i as int]));
                }
            },
        }
        push_items_chars(out, items, i + 1);
        proof {
            let sq = crate::items::items_views(items@).skip(i as int);
            assert(sq.drop_first() =~= crate::items::items_views(items@).skip(i + 1));
            assert(sq[0] == crate::items::items_views(items@)[i as int]);
            assert(final(out)@ =~= old(out)@ + items_chars(sq));
        }
    }
}

/// Encode an item sequence as its textual blob.
pub fn items_to_text(items: &Vec<crate::items::Item>) -> (r: Vec<char>)
    ensures
        r@ == text_chars(crate::items::items_views(items@)),
{
    let mut out: Vec<char> = Vec::new();
    push_dec(&mut out, items.len() as u128);
    out.push('\n');
    push_items_chars(&mut out, items, 0);
    proof {
        assert(crate::items::items_views(items@).skip(0)
            =~= crate::items::items_views(items@));
        assert(out@ =~= text_chars(crate::items::items_views(items@)));
    }
    out
}

// ---- executable decoding ----

/// The digit value of a character, mirroring `char_digit`.
fn digit_of(c: char) -> (r: Option<u128>)
    ensures
        r is Some <==> char_digit(c) >= 0,
        r is Some ==> r->Some_0 == char_digit(c),
{
    if c == '0' {
        Some(0)
    } else if c == '1' {
        Some(1)
    } else if c == '2' {
        Some(2)
    } else if c == '3' {
        Some(3)
    } else if c == '4' {
        Some(4)
    } else if c == '5' {
        Some(5)
    } else if c == '6' {
        Some(6)
    } else if c == '7' {
        Some(7)
    } else if c == '8' {
        Some(8)
    } else if c == '9' {
        Some(9)
    } else {
        None
    }
}

/// Accumulate digits, mirroring `pt_digits`.
fn read_digits(s: &Vec<char>, pos: usize, acc: u128) -> (r: Option<(u128, usize)>)
    requires
        pos <= s@.len(),
    ensures
        match pt_digits(s@, pos as int, acc as int) {
            Some((v, p)) => r is Some && r->Some_0.0 == v && r->Some_0.1 == p
                && pos <= p <= s@.len(),
            None => r is None,
        },
    decreases s@.len() - pos,
{
    let total_len: usize = s.len();
    assert(s@.len() <= usize::MAX);
    if pos == total_len {
        return None;
    }
    match digit_of(s[pos]) {
        Some(d) => {
            if acc <= (u128::MAX - d) / 10 {
                read_digits(s, pos + 1, acc * 10 + d)
            } else {
                None
            }
        },
        None => Some((acc, pos)),
    }
}

/// Read a decimal number, mirroring `pt_num`.
fn read_num(s: &Vec<char>, pos: usize) -> (r: Option<(u128, usize)>)
    requires
        pos <= s@.len(),
    ensures
        match pt_num(s@, pos as int) {
            Some((v, p)) => r is Some && r->Some_0.0 == v && r->Some_0.1 == p
                && pos <= p <= s@.len(),
            None => r is None,
        },
{
    let total_len: usize = s.len();
    assert(s@.len() <= usize::MAX);
    if pos == total_len {
        return None;
    }
    match digit_of(s[pos]) {
        Some(_) => read_digits(s, pos, 0),
        None => None,
    }
}

/// Read one item, mirroring `pt_item`.
fn read_text_item(s: &Vec<char>, pos: usize) -> (r: Option<(crate::items::Item, usize)>)
    requires
        pos <= s@.len(),
    ensures
        match pt_item(s@, pos as int) {
            Some((it, p)) => r is Some && r->Some_0.0@ == it && r->Some_0.1 == p
                && pos <= p <= s@.len(),
            None => r is None,
        },
{
    let total_len: usize = s.len();
    assert(s@.len() <= usize::MAX);
    if total_len - pos < 2 {
        return None;
    }
    if s[pos + 1] != ' ' {
        return None;
    }
    let tag: char = s[pos];
    if tag == 'n' {
        match read_num(s, pos + 2) {
            Some((v, p)) => {
                if p < total_len && s[p] == '\n' {
                    Some((crate::items::Item::Num(v), p + 1))
                } else {
                    None
                }
            },
            None => None,
        }
    } else if tag == 's' {
        match read_num(s, pos + 2) {
            Some((v, p)) => {
                if p >= total_len || s[p] != ':' {
                    return None;
                }
                if ((total_len - p) as u128) < 2 || v > ((total_len - p) as u128) - 2 {
                    proof {
                        assert(!(p + 2 + v <= s@.len()));
                    }
                    return None;
                }
                let vlen: usize = v as usize;
                let mut cs: Vec<char> = Vec::new();
                let mut j: usize = 0;
                while j < vlen
                    invariant
                        0 <= j <= vlen,
                        p + 2 + vlen <= total_len,
                        total_len == s@.len(),
                        cs@ == s@.subrange(p + 1, p + 1 + j),
                    decreases vlen - j,
                {
                    cs.push(s[p + 1 + j]);
                    proof {
                        assert(cs@ =~= s@.subrange(p + 1, p + 1 + j + 1));
                    }
                    j = j + 1;
                }
                if s[p + 1 + vlen] != '\n' {
                    return None;
                }
                let st: String = crate::trusted::chars_to_string(&cs);
                Some((crate::items::Item::Str(st), p + 2 + vlen))
            },
            None => None,
        }
    } else {
        None
    }
}

/// Read `k` items, mirroring `pt_items`.
fn read_text_items(s: &Vec<char>, pos: usize, k: u128) -> (r: Option<
    (Vec<crate::items::Item>, usize),
>)
    requires
        pos <= s@.len(),
    ensures
        match pt_items(s@, pos as int, k as nat) {
            Some((its, p)) => r is Some && crate::items::items_views(r->Some_0.0@) == its
                && r->Some_0.1 == p && pos <= p <= s@.len(),
            None => r is None,
        },
    decreases k,
{
    if k == 0 {
        let v: Vec<crate::items::Item> = Vec::new();
        assert(crate::items::items_views(v@) =~= Seq::<IModel>::empty());
        return Some((v, pos));
    }
    match read_text_item(s, pos) {
        Some((it, p)) => {
            match read_text_items(s, p, k - 1) {
                Some((mut rest, p2)) => {
                    rest.insert(0, it);
                    proof {
                        let spec = pt_items(s@, pos as int, k as nat);
                        assert(crate::items::items_views(rest@) =~= spec->Some_0.0);
                    }
                    Some((rest, p2))
                },
                None => None,
            }
        },
        None => None,
    }
}

/// Decode a textual blob back to its item sequence, mirroring
/// `parse_text`.
pub fn text_to_items(s: &Vec<char>) -> (r: Option<Vec<crate::items::Item>>)
    ensures
        match parse_text(s@) {
            Some(its) => r is Some && crate::items::items_views(r->Some_0@) == its,
            None => r is None,
        },
{
    let total_len: usize = s.len();
    assert(s@.len() <= usize::MAX);
    match read_num(s, 0) {
        Some((k, p)) => {
            if p < total_len && s[p] == '\n' {
                match read_text_items(s, p + 1, k) {
                    Some((items, p2)) => {
                        if p2 == total_len {
                            Some(items)
                        } else {
                            None
                        }
                    },
                    None => None,
                }
            } else {
                None
            }
        },
        None => None,
    }
}

/// Parsing inverts the textual encoding for any item sequence whose
/// lengths fit the machine.
pub proof fn lemma_parse_text(items: Seq<IModel>)
    requires
        items.len() <= u64::MAX,
        forall|i: int|
            0 <= i < items.len() ==> ((#[trigger] items[i]) is Str
                ==> items[i]->Str_0.len() <= u64::MAX),
    ensures
        parse_text(text_chars(items)) == Some(items),
{
    let s = text_chars(items);
    let nd = dec_chars(items.len() as int).len() as int;
    lemma_dec_chars_val(items.len() as int);
    assert forall|i: int| 0 <= i < nd implies s[0 + i] == dec_chars(items.len() as int)[i]
        by {
        assert(s[i] == (dec_chars(items.len() as int) + seq!['\n'])[i]);
    }
    assert(s[0 + nd] == '\n');
    assert(char_digit('\n') < 0);
    lemma_pt_num_at(s, 0, items.len() as int);
    assert(items_chars(items).is_prefix_of(s.skip(nd + 1))) by {
        assert forall|i: int| 0 <= i < items_chars(items).len() implies
            s.skip(nd + 1)[i] == items_chars(items)[i] by {
            assert(s[nd + 1 + i] == items_chars(items)[i]);
        }
    }
    assert forall|i: int| 0 <= i < items.len() implies
        ((#[trigger] items[i]) is Str ==> items[i]->Str_0.len() <= u64::MAX)
            && (items[i] is Num ==> items[i]->Num_0 <= u128::MAX) by {}
    lemma_pt_items_at(s, nd + 1, items);
}

} // verus!
