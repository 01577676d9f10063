//! Dimension specifications and their validity.

use vstd::prelude::*;
use crate::trusted::string_to_chars;

verus! {

/// Separator between dimension values inside a context key.  Allowed
/// values may not contain it; construction enforces that, which makes the
/// key codec collision-free.
pub const SEP: char = '\x1f';

/// The mathematical content of a dimension: its name and its ordered
/// allowed values, as character sequences.
pub struct DimModel {
    pub name: Seq<char>,
    pub values: Seq<Seq<char>>,
}

/// One context dimension: a name and the ordered set of allowed values.
#[allow(non_camel_case_types)]
#[derive(Clone, Debug)]
pub struct evocore_context_dimension_t {
    pub name: String,
    pub values: Vec<String>,
}

impl View for evocore_context_dimension_t {
    type V = DimModel;

    open spec fn view(&self) -> DimModel {
        DimModel { name: self.name@, values: self.values.deep_view() }
    }
}

/// The models of a sequence of dimensions.
pub open spec fn dims_views(s: Seq<evocore_context_dimension_t>) -> Seq<DimModel> {
    s.map_values(|d: evocore_context_dimension_t| d@)
}

/// No character of `s` is the key separator.
pub open spec fn sep_free(s: Seq<char>) -> bool {
    forall|i: int| 0 <= i < s.len() ==> s[i] != SEP
}

/// A well-formed dimension: non-empty name, at least one allowed value,
/// every value non-empty, separator-free and unique within the dimension.
pub open spec fn dim_wf(d: DimModel) -> bool {
    &&& d.name.len() > 0
    &&& d.values.len() > 0
    &&& forall|i: int|
        0 <= i < d.values.len() ==> d.values[i].len() > 0 && sep_free(#[trigger] d.values[i])
    &&& forall|i: int, j: int|
        0 <= i < j < d.values.len() ==> d.values[i] != d.values[j]
}

/// A well-formed dimension list: every dimension well-formed and no two
/// sharing a name.
pub open spec fn dims_wf(dims: Seq<DimModel>) -> bool {
    &&& forall|i: int| 0 <= i < dims.len() ==> dim_wf(#[trigger] dims[i])
    &&& forall|i: int, j: int|
        0 <= i < j < dims.len() ==> dims[i].name != dims[j].name
}

/// `v` is one of the allowed values of dimension `d`.
pub open spec fn dim_has(d: DimModel, v: Seq<char>) -> bool {
    exists|j: int| 0 <= j < d.values.len() && d.values[j] == v
}

/// Whether any character of the string is the key separator.
pub fn contains_sep(s: &String) -> (r: bool)
    ensures
        r == !sep_free(s@),
{
    let cs: Vec<char> = string_to_chars(s.as_str());
    let n: usize = cs.len();
    let mut i: usize = 0;
    while i < n
        invariant
            0 <= i <= n,
            n == cs@.len(),
            cs@ == s@,
            forall|j: int| 0 <= j < i ==> cs@[j] != SEP,
        decreases n - i,
    {
        if cs[i] == SEP {
            return true;
        }
        i = i + 1;
    }
    false
}

/// Whether `v` is one of the allowed values of `d`.
pub fn dim_contains(d: &evocore_context_dimension_t, v: &String) -> (r: bool)
    ensures
        r == dim_has(d@, v@),
{
    let n: usize = d.values.len();
    let mut i: usize = 0;
    while i < n
        invariant
            0 <= i <= n,
            n == d.values@.len(),
            forall|j: int| 0 <= j < i ==> d.values@[j]@ != v@,
        decreases n - i,
    {
        if d.values[i] == *v {
            assert(d@.values[i as int] == v@);
            return true;
        }
        i = i + 1;
    }
    assert(forall|j: int| 0 <= j < d@.values.len() ==> d@.values[j] != v@);
    false
}

/// Whether one dimension is well-formed.
pub fn check_dim(d: &evocore_context_dimension_t) -> (r: bool)
    ensures
        r == dim_wf(d@),
{
    let name_chars: Vec<char> = string_to_chars(d.name.as_str());
    if name_chars.len() == 0 {
        return false;
    }
    let n: usize = d.values.len();
    if n == 0 {
        return false;
    }
    let mut i: usize = 0;
    while i < n
        invariant
            0 <= i <= n,
            n == d.values@.len(),
            forall|j: int|
                0 <= j < i ==> d@.values[j].len() > 0 && sep_free(#[trigger] d@.values[j]),
            forall|j: int, k: int| 0 <= j < k < i ==> d@.values[j] != d@.values[k],
        decreases n - i,
    {
        let v_chars: Vec<char> = string_to_chars(d.values[i].as_str());
        assert(d@.values[i as int] == d.values@[i as int]@);
        if v_chars.len() == 0 {
            assert(d@.values[i as int].len() == 0);
            return false;
        }
        if contains_sep(&d.values[i]) {
            assert(!sep_free(d@.values[i as int]));
            return false;
        }
        let mut j: usize = 0;
        while j < i
            invariant
                0 <= j <= i < n,
                n == d.values@.len(),
                forall|k: int| 0 <= k < j ==> d@.values[k] != d@.values[i as int],
            decreases i - j,
        {
            if d.values[j] == d.values[i] {
                assert(d@.values[j as int] == d@.values[i as int]);
                return false;
            }
            j = j + 1;
        }
        i = i + 1;
    }
    true
}

/// Whether a dimension list is well-formed.
pub fn check_dims(dims: &Vec<evocore_context_dimension_t>) -> (r: bool)
    ensures
        r == dims_wf(dims_views(dims@)),
{
    let n: usize = dims.len();
    let mut i: usize = 0;
    while i < n
        invariant
            0 <= i <= n,
            n == dims@.len(),
            forall|j: int| 0 <= j < i ==> dim_wf(#[trigger] dims_views(dims@)[j]),
            forall|j: int, k: int|
                0 <= j < k < i ==> dims_views(dims@)[j].name != dims_views(dims@)[k].name,
        decreases n - i,
    {
        if !check_dim(&dims[i]) {
            assert(dims_views(dims@)[i as int] == dims@[i as int]@);
            return false;
        }
        let mut j: usize = 0;
        while j < i
            invariant
                0 <= j <= i < n,
                n == dims@.len(),
                forall|k: int|
                    0 <= k < j ==> dims_views(dims@)[k].name != dims_views(dims@)[i as int].name,
            decreases i - j,
        {
            if dims[j].name == dims[i].name {
                assert(dims_views(dims@)[j as int].name == dims_views(dims@)[i as int].name);
                return false;
            }
            j = j + 1;
        }
        i = i + 1;
    }
    true
}

} // verus!
