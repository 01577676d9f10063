//! The context-key codec: a canonical string for each tuple of dimension
//! values, collision-free across distinct valid tuples.

use vstd::prelude::*;
use crate::dims::{SEP, sep_free, DimModel, dim_has, evocore_context_dimension_t};
use crate::trusted::string_to_chars;

verus! {

/// The canonical key of a value tuple: the values joined by the separator.
pub open spec fn key_of(vals: Seq<Seq<char>>) -> Seq<char>
    decreases vals.len(),
{
    if vals.len() == 0 {
        Seq::empty()
    } else if vals.len() == 1 {
        vals[0]
    } else {
        vals[0] + seq![SEP] + key_of(vals.drop_first())
    }
}

/// `vals` is a valid tuple for `dims`: one allowed value per dimension.
pub open spec fn tuple_valid(dims: Seq<DimModel>, vals: Seq<Seq<char>>) -> bool {
    &&& vals.len() == dims.len()
    &&& forall|i: int| 0 <= i < dims.len() ==> dim_has(dims[i], #[trigger] vals[i])
}

/// Appending one value extends the key by a separator and that value.
pub proof fn lemma_key_of_push(vals: Seq<Seq<char>>, v: Seq<char>)
    ensures
        vals.len() == 0 ==> key_of(vals.push(v)) == v,
        vals.len() > 0 ==> key_of(vals.push(v)) == key_of(vals) + seq![SEP] + v,
    decreases vals.len(),
{
    let p = vals.push(v);
    if vals.len() == 0 {
        assert(p.len() == 1);
        assert(p[0] == v);
    } else if vals.len() == 1 {
        assert(p.len() == 2);
        assert(p[0] == vals[0]);
        assert(p.drop_first() =~= seq![v]);
        assert(key_of(p.drop_first()) == v);
        assert(key_of(p) == vals[0] + seq![SEP] + v);
        assert(key_of(vals) == vals[0]);
    } else {
        lemma_key_of_push(vals.drop_first(), v);
        assert(p.drop_first() =~= vals.drop_first().push(v));
        assert(key_of(p) == p[0] + seq![SEP] + key_of(p.drop_first()));
        assert(p[0] == vals[0]);
        assert(key_of(p.drop_first()) == key_of(vals.drop_first()) + seq![SEP] + v);
        assert(key_of(vals) + seq![SEP] + v
            =~= vals[0] + seq![SEP] + (key_of(vals.drop_first()) + seq![SEP] + v));
    }
}

/// Two separator-joins with separator-free heads agree only if head and
/// tail both agree.
proof fn lemma_sep_split(x: Seq<char>, u: Seq<char>, y: Seq<char>, w: Seq<char>)
    requires
        sep_free(x),
        sep_free(y),
        x + seq![SEP] + u == y + seq![SEP] + w,
    ensures
        x == y,
        u == w,
{
    let lhs = x + seq![SEP] + u;
    let rhs = y + seq![SEP] + w;
    assert(lhs.len() == rhs.len());
    if x.len() < y.len() {
        assert(lhs[x.len() as int] == SEP);
        assert(rhs[x.len() as int] == y[x.len() as int]);
        assert(false);
    }
    if y.len() < x.len() {
        assert(rhs[y.len() as int] == SEP);
        assert(lhs[y.len() as int] == x[y.len() as int]);
        assert(false);
    }
    assert(x.len() == y.len());
    assert forall|i: int| 0 <= i < x.len() implies x[i] == y[i] by {
        assert(lhs[i] == x[i]);
        assert(rhs[i] == y[i]);
    }
    assert(x =~= y);
    assert(u.len() == w.len());
    assert forall|i: int| 0 <= i < u.len() implies u[i] == w[i] by {
        assert(lhs[x.len() + 1 + i] == u[i]);
        assert(rhs[y.len() + 1 + i] == w[i]);
    }
    assert(u =~= w);
}

/// The key codec is collision-free: two equally long tuples of
/// separator-free values with the same key are the same tuple.
pub proof fn lemma_key_of_injective(a: Seq<Seq<char>>, b: Seq<Seq<char>>)
    requires
        a.len() == b.len(),
        forall|i: int| 0 <= i < a.len() ==> sep_free(#[trigger] a[i]),
        forall|i: int| 0 <= i < b.len() ==> sep_free(#[trigger] b[i]),
        key_of(a) == key_of(b),
    ensures
        a == b,
    decreases a.len(),
{
    if a.len() == 0 {
        assert(a =~= b);
    } else if a.len() == 1 {
        assert(a[0] == key_of(a));
        assert(b[0] == key_of(b));
        assert(a =~= b);
    } else {
        lemma_sep_split(a[0], key_of(a.drop_first()), b[0], key_of(b.drop_first()));
        assert(forall|i: int|
            0 <= i < a.drop_first().len() ==> sep_free(#[trigger] a.drop_first()[i]));
        assert(forall|i: int|
            0 <= i < b.drop_first().len() ==> sep_free(#[trigger] b.drop_first()[i]));
        lemma_key_of_injective(a.drop_first(), b.drop_first());
        assert forall|i: int| 0 <= i < a.len() implies a[i] == b[i] by {
            if i > 0 {
                assert(a.drop_first()[i - 1] == a[i]);
                assert(b.drop_first()[i - 1] == b[i]);
            }
        }
        assert(a =~= b);
    }
}

/// Join a tuple of values into its canonical key.  Validation against the
/// dimensions is the caller's (the store's) business; this is the pure
/// codec.
pub fn join_key(values: &Vec<String>) -> (r: String)
    ensures
        r@ == key_of(values.deep_view()),
{
    let n: usize = values.len();
    let mut key: String = String::new();
    if n == 0 {
        assert(key@ =~= key_of(values.deep_view()));
        return key;
    }
    key.append(values[0].as_str());
    assert(values.deep_view().take(1) =~= seq![values@[0]@]);
    assert(key@ =~= key_of(values.deep_view().take(1)));
    let mut i: usize = 1;
    while i < n
        invariant
            1 <= i <= n,
            n == values@.len(),
            key@ == key_of(values.deep_view().take(i as int)),
        decreases n - i,
    {
        key.append("\x1f");
        key.append(values[i].as_str());
        proof {
            reveal_strlit("\x1f");
            assert("\x1f"@ =~= seq![SEP]);
            let pre = values.deep_view().take(i as int);
            lemma_key_of_push(pre, values@[i as int]@);
            assert(pre.push(values@[i as int]@) =~= values.deep_view().take(i + 1));
            assert(key@ =~= key_of(values.deep_view().take(i + 1)));
        }
        i = i + 1;
    }
    assert(values.deep_view().take(n as int) =~= values.deep_view());
    key
}

/// Validate a value tuple against the dimensions: report the first failure
/// as the spec's error cases, else hand back nothing.
pub fn check_tuple(
    dims: &Vec<evocore_context_dimension_t>,
    values: &Vec<String>,
) -> (r: Result<(), crate::EvoError>)
    ensures
        values@.len() != dims@.len() <==> r == Err::<(), crate::EvoError>(
            crate::EvoError::DimensionCountMismatch,
        ),
        r is Ok <==> tuple_valid(crate::dims::dims_views(dims@), values.deep_view()),
        r is Err ==> (r->Err_0 == crate::EvoError::DimensionCountMismatch
            || r->Err_0 == crate::EvoError::InvalidValue),
{
    let n: usize = dims.len();
    if values.len() != n {
        return Err(crate::EvoError::DimensionCountMismatch);
    }
    let mut i: usize = 0;
    while i < n
        invariant
            0 <= i <= n,
            n == dims@.len(),
            n == values@.len(),
            forall|j: int|
                0 <= j < i ==> dim_has(
                    crate::dims::dims_views(dims@)[j],
                    #[trigger] values.deep_view()[j],
                ),
        decreases n - i,
    {
        if !crate::dims::dim_contains(&dims[i], &values[i]) {
            assert(!dim_has(
                crate::dims::dims_views(dims@)[i as int],
                values.deep_view()[i as int],
            ));
            return Err(crate::EvoError::InvalidValue);
        }
        i = i + 1;
    }
    Ok(())
}

} // verus!
