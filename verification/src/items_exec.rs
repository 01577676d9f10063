//! Flattening a store to items and rebuilding (with full validation) a
//! store from items.

use vstd::prelude::*;
use crate::{OBS_MAX, F_MAX, P_MAX};
use crate::dims::{dims_views, evocore_context_dimension_t};
use crate::items::{
    Item, IModel, items_views, strs_items, dim_items, dims_items, stat_items, stats_items,
    rec_items, recs_items, store_items, p_num, p_u64, p_str, p_strs, p_dims, p_stats, p_recs,
    parse_store, FORMAT_VERSION,
};
use crate::stats::ParamStats;
use crate::store::{EvoCoreContextSystem, evocore_weighted_array_t, rec_wf, store_wf, RecModel};

verus! {

/// Append the `Str` items of the value list from index `i` on.
fn push_strs(out: &mut Vec<Item>, vs: &Vec<String>, i: usize)
    requires
        i <= vs@.len(),
    ensures
        items_views(final(out)@) == items_views(old(out)@)
            + strs_items(vs.deep_view().skip(i as int)),
    decreases vs@.len() - i,
{
    if i == vs.len() {
        assert(strs_items(vs.deep_view().skip(i as int)) =~~= Seq::<IModel>::empty());
        assert(items_views(final(out)@) =~~= items_views(old(out)@)
            + strs_items(vs.deep_view().skip(i as int)));
    } else {
        out.push(Item::Str(vs[i].clone()));
        proof {
            assert(items_views(out@) =~~= items_views(old(out)@)
                + seq![IModel::Str(vs.deep_view()[i as int])]);
        }
        push_strs(out, vs, i + 1);
        proof {
            let s = vs.deep_view().skip(i as int);
            assert(s.drop_first() =~~= vs.deep_view().skip(i + 1));
            assert(s[0] == vs.deep_view()[i as int]);
            assert(items_views(final(out)@) =~~= items_views(old(out)@) + strs_items(s));
        }
    }
}

/// Append the items of the dimensions from index `i` on.
fn push_dims(out: &mut Vec<Item>, dims: &Vec<evocore_context_dimension_t>, i: usize)
    requires
        i <= dims@.len(),
    ensures
        items_views(final(out)@) == items_views(old(out)@)
            + dims_items(dims_views(dims@).skip(i as int)),
    decreases dims@.len() - i,
{
    if i == dims.len() {
        assert(dims_items(dims_views(dims@).skip(i as int)) =~~= Seq::<IModel>::empty());
        assert(items_views(final(out)@) =~~= items_views(old(out)@)
            + dims_items(dims_views(dims@).skip(i as int)));
    } else {
        let d = &dims[i];
        out.push(Item::Str(d.name.clone()));
        out.push(Item::Num(d.values.len() as u128));
        let ghost mid1 = items_views(out@);
        proof {
            assert(mid1 =~~= items_views(old(out)@) + seq![
                IModel::Str(d@.name),
                IModel::Num(d@.values.len() as u128),
            ]);
        }
        push_strs(out, &d.values, 0);
        let ghost mid2 = items_views(out@);
        proof {
            assert(d.values.deep_view().skip(0) =~~= d@.values);
            assert(mid2 =~~= items_views(old(out)@) + dim_items(dims_views(dims@)[i as int]));
        }
        push_dims(out, dims, i + 1);
        proof {
            let s = dims_views(dims@).skip(i as int);
            assert(s.drop_first() =~~= dims_views(dims@).skip(i + 1));
            assert(s[0] == dims_views(dims@)[i as int]);
            assert(items_views(final(out)@) =~~= items_views(old(out)@) + dims_items(s));
        }
    }
}

/// Append the items of the statistics from index `i` on.
fn push_stats(out: &mut Vec<Item>, ss: &Vec<ParamStats>, i: usize)
    requires
        i <= ss@.len(),
    ensures
        items_views(final(out)@) == items_views(old(out)@)
            + stats_items(ss@.skip(i as int)),
    decreases ss@.len() - i,
{
    if i == ss.len() {
        assert(stats_items(ss@.skip(i as int)) =~~= Seq::<IModel>::empty());
        assert(items_views(final(out)@) =~~= items_views(old(out)@)
            + stats_items(ss@.skip(i as int)));
    } else {
        let s = &ss[i];
        out.push(Item::Num(s.weight_sum as u128));
        out.push(Item::Num(s.weighted_sum));
        out.push(Item::Num(s.weighted_sq_sum));
        out.push(Item::Num(s.observation_count as u128));
        proof {
            assert(items_views(out@) =~~= items_views(old(out)@)
                + stat_items(ss@[i as int]));
        }
        push_stats(out, ss, i + 1);
        proof {
            let sq = ss@.skip(i as int);
            assert(sq.drop_first() =~~= ss@.skip(i + 1));
            assert(sq[0] == ss@[i as int]);
            assert(items_views(final(out)@) =~~= items_views(old(out)@) + stats_items(sq));
        }
    }
}

/// Append the items of the records from index `i` on.
fn push_recs(out: &mut Vec<Item>, rs: &Vec<evocore_weighted_array_t>, i: usize)
    requires
        i <= rs@.len(),
    ensures
        items_views(final(out)@) == items_views(old(out)@)
            + recs_items(rs@.map_values(|r: evocore_weighted_array_t| r@).skip(i as int)),
    decreases rs@.len() - i,
{
    let ghost model = rs@.map_values(|r: evocore_weighted_array_t| r@);
    if i == rs.len() {
        assert(recs_items(model.skip(i as int)) =~~= Seq::<IModel>::empty());
        assert(items_views(final(out)@) =~~= items_views(old(out)@)
            + recs_items(model.skip(i as int)));
    } else {
        let r = &rs[i];
        out.push(Item::Str(r.key.clone()));
        out.push(Item::Num(r.total_observations as u128));
        let ghost mid1 = items_views(out@);
        proof {
            assert(mid1 =~~= items_views(old(out)@) + seq![
                IModel::Str(r@.key),
                IModel::Num(r@.total_observations as u128),
            ]);
        }
        push_stats(out, &r.stats, 0);
        proof {
            assert(r.stats@.skip(0) =~~= r@.stats);
            assert(items_views(out@) =~~= items_views(old(out)@)
                + rec_items(model[i as int]));
        }
        push_recs(out, rs, i + 1);
        proof {
            let sq = model.skip(i as int);
            assert(sq.drop_first() =~~= model.skip(i + 1));
            assert(sq[0] == model[i as int]);
            assert(items_views(final(out)@) =~~= items_views(old(out)@) + recs_items(sq));
        }
    }
}

impl EvoCoreContextSystem {
    /// Flatten the store into its persisted item sequence.
    pub fn to_items(&self) -> (r: Vec<Item>)
        ensures
            items_views(r@) == store_items(self@),
    {
        let mut out: Vec<Item> = Vec::new();
        out.push(Item::Num(FORMAT_VERSION as u128));
        out.push(Item::Num(self.dimensions.len() as u128));
        proof {
            assert(items_views(out@) =~~= seq![
                IModel::Num(FORMAT_VERSION as u128),
                IModel::Num(self@.dims.len() as u128),
            ]);
        }
        push_dims(&mut out, &self.dimensions, 0);
        proof {
            assert(dims_views(self.dimensions@).skip(0) =~~= self@.dims);
        }
        out.push(Item::Num(self.param_count as u128));
        out.push(Item::Num(self.records.len() as u128));
        push_recs(&mut out, &self.records, 0);
        proof {
            assert(self.records@.map_values(|r: evocore_weighted_array_t| r@).skip(0)
                =~~= self@.records);
            assert(items_views(out@) =~~= store_items(self@));
        }
        out
    }
}

/// Read `k` strings from `pos` on, mirroring `p_strs`.
fn parse_strs(items: &Vec<Item>, pos: usize, k: u128) -> (r: Option<(Vec<String>, usize)>)
    requires
        pos <= items@.len(),
    ensures
        match p_strs(items_views(items@), pos as int, k as nat) {
            Some((vs, p)) => r is Some && r->Some_0.0.deep_view() == vs
                && r->Some_0.1 == p && pos <= p <= items@.len(),
            None => r is None,
        },
    decreases k,
{
    if k == 0 {
        let v: Vec<String> = Vec::new();
        assert(v.deep_view() =~~= Seq::<Seq<char>>::empty());
        return Some((v, pos));
    }
    if pos == items.len() {
        return None;
    }
    match &items[pos] {
        Item::Str(s) => {
            let head: String = s.clone();
            match parse_strs(items, pos + 1, k - 1) {
                Some((mut rest, p)) => {
                    rest.insert(0, head);
                    proof {
                        let spec = p_strs(items_views(items@), pos as int, k as nat);
                        assert(rest.deep_view() =~~= spec->Some_0.0);
                    }
                    Some((rest, p))
                },
                None => None,
            }
        },
        Item::Num(_) => {
            assert(items_views(items@)[pos as int] is Num);
            None
        },
    }
}

/// Read `k` dimensions from `pos` on, mirroring `p_dims`.
fn parse_dims(items: &Vec<Item>, pos: usize, k: u128) -> (r: Option<
    (Vec<evocore_context_dimension_t>, usize),
>)
    requires
        pos <= items@.len(),
    ensures
        match p_dims(items_views(items@), pos as int, k as nat) {
            Some((ds, p)) => r is Some && dims_views(r->Some_0.0@) == ds
                && r->Some_0.1 == p && pos <= p <= items@.len(),
            None => r is None,
        },
    decreases k,
{
    let total_len: usize = items.len();
    assert(items@.len() <= usize::MAX);
    if k == 0 {
        let v: Vec<evocore_context_dimension_t> = Vec::new();
        assert(dims_views(v@) =~~= Seq::<crate::dims::DimModel>::empty());
        return Some((v, pos));
    }
    if pos == items.len() {
        return None;
    }
    match &items[pos] {
        Item::Str(s) => {
            let name: String = s.clone();
            if pos + 1 == items.len() {
                return None;
            }
            match &items[pos + 1] {
                Item::Num(vc) => {
                    let count: u128 = *vc;
                    match parse_strs(items, pos + 2, count) {
                        Some((vals, p3)) => {
                            match parse_dims(items, p3, k - 1) {
                                Some((mut rest, p4)) => {
                                    let head = evocore_context_dimension_t {
                                        name,
                                        values: vals,
                                    };
                                    rest.insert(0, head);
                                    proof {
                                        let spec = p_dims(
                                            items_views(items@),
                                            pos as int,
                                            k as nat,
                                        );
                                        assert(dims_views(rest@) =~~= spec->Some_0.0);
                                    }
                                    Some((rest, p4))
                                },
                                None => None,
                            }
                        },
                        None => None,
                    }
                },
                Item::Str(_) => {
                    assert(items_views(items@)[pos as int + 1] is Str);
                    None
                },
            }
        },
        Item::Num(_) => {
            assert(items_views(items@)[pos as int] is Num);
            None
        },
    }
}

/// Read one number that must fit `u64`, mirroring `p_u64`.
fn parse_u64(items: &Vec<Item>, pos: usize) -> (r: Option<(u64, usize)>)
    requires
        pos <= items@.len(),
    ensures
        match p_u64(items_views(items@), pos as int) {
            Some((n, p)) => r == Some((n, p as usize)) && pos < p <= items@.len(),
            None => r is None,
        },
{
    if pos == items.len() {
        return None;
    }
    match &items[pos] {
        Item::Num(n) => {
            if *n <= u64::MAX as u128 {
                Some((*n as u64, pos + 1))
            } else {
                None
            }
        },
        Item::Str(_) => {
            assert(items_views(items@)[pos as int] is Str);
            None
        },
    }
}

/// Read `k` parameter statistics from `pos` on, mirroring `p_stats`.
fn parse_stats(items: &Vec<Item>, pos: usize, k: u128) -> (r: Option<(Vec<ParamStats>, usize)>)
    requires
        pos <= items@.len(),
    ensures
        match p_stats(items_views(items@), pos as int, k as nat) {
            Some((ss, p)) => r is Some && r->Some_0.0@ == ss
                && r->Some_0.1 == p && pos <= p <= items@.len(),
            None => r is None,
        },
    decreases k,
{
    let total_len: usize = items.len();
    assert(items@.len() <= usize::MAX);
    if k == 0 {
        let v: Vec<ParamStats> = Vec::new();
        assert(v@ =~~= Seq::<ParamStats>::empty());
        return Some((v, pos));
    }
    let (w, p1) = match parse_u64(items, pos) {
        Some(x) => x,
        None => {
            return None;
        },
    };
    let (wp, p2) = match parse_num(items, p1) {
        Some(x) => x,
        None => {
            return None;
        },
    };
    let (wpp, p3) = match parse_num(items, p2) {
        Some(x) => x,
        None => {
            return None;
        },
    };
    let (cnt, p4) = match parse_u64(items, p3) {
        Some(x) => x,
        None => {
            return None;
        },
    };
    match parse_stats(items, p4, k - 1) {
        Some((mut rest, p5)) => {
            let head = ParamStats {
                weight_sum: w,
                weighted_sum: wp,
                weighted_sq_sum: wpp,
                observation_count: cnt,
            };
            rest.insert(0, head);
            proof {
                let spec = p_stats(items_views(items@), pos as int, k as nat);
                assert(rest@ =~~= spec->Some_0.0);
            }
            Some((rest, p5))
        },
        None => None,
    }
}

/// Read one number, mirroring `p_num`.
fn parse_num(items: &Vec<Item>, pos: usize) -> (r: Option<(u128, usize)>)
    requires
        pos <= items@.len(),
    ensures
        match p_num(items_views(items@), pos as int) {
            Some((n, p)) => r == Some((n, p as usize)) && pos < p <= items@.len(),
            None => r is None,
        },
{
    if pos == items.len() {
        return None;
    }
    match &items[pos] {
        Item::Num(n) => Some((*n, pos + 1)),
        Item::Str(_) => {
            assert(items_views(items@)[pos as int] is Str);
            None
        },
    }
}

/// Read `k` records of `pc` parameters each, mirroring `p_recs`.
fn parse_recs(items: &Vec<Item>, pos: usize, k: u128, pc: u128) -> (r: Option<
    (Vec<evocore_weighted_array_t>, usize),
>)
    requires
        pos <= items@.len(),
    ensures
        match p_recs(items_views(items@), pos as int, k as nat, pc as nat) {
            Some((rs, p)) => r is Some
                && r->Some_0.0@.map_values(|x: evocore_weighted_array_t| x@) == rs
                && r->Some_0.1 == p && pos <= p <= items@.len(),
            None => r is None,
        },
    decreases k,
{
    let total_len: usize = items.len();
    assert(items@.len() <= usize::MAX);
    if k == 0 {
        let v: Vec<evocore_weighted_array_t> = Vec::new();
        assert(v@.map_values(|x: evocore_weighted_array_t| x@)
            =~~= Seq::<RecModel>::empty());
        return Some((v, pos));
    }
    if pos == items.len() {
        return None;
    }
    match &items[pos] {
        Item::Str(s) => {
            let key: String = s.clone();
            let (total, p2) = match parse_u64(items, pos + 1) {
                Some(x) => x,
                None => {
                    return None;
                },
            };
            let (stats, p3) = match parse_stats(items, p2, pc) {
                Some(x) => x,
                None => {
                    return None;
                },
            };
            match parse_recs(items, p3, k - 1, pc) {
                Some((mut rest, p4)) => {
                    let head = evocore_weighted_array_t {
                        key,
                        stats,
                        total_observations: total,
                    };
                    rest.insert(0, head);
                    proof {
                        let spec = p_recs(items_views(items@), pos as int, k as nat, pc as nat);
                        assert(rest@.map_values(|x: evocore_weighted_array_t| x@)
                            =~~= spec->Some_0.0);
                    }
                    Some((rest, p4))
                },
                None => None,
            }
        },
        Item::Num(_) => {
            assert(items_views(items@)[pos as int] is Num);
            None
        },
    }
}

/// Whether a rebuilt store satisfies the store invariant.
fn check_store(s: &EvoCoreContextSystem) -> (r: bool)
    ensures
        r == store_wf(s@),
{
    if s.param_count == 0 {
        return false;
    }
    if !crate::dims::check_dims(&s.dimensions) {
        return false;
    }
    let n: usize = s.records.len();
    let mut i: usize = 0;
    while i < n
        invariant
            0 <= i <= n,
            n == s.records@.len(),
            s@.param_count > 0,
            forall|j: int| 0 <= j < i ==> rec_wf(#[trigger] s@.records[j], s@.param_count),
            forall|j: int, l: int| 0 <= j < l < i ==> s@.records[j].key != s@.records[l].key,
        decreases n - i,
    {
        let rec = &s.records[i];
        assert(rec@ == s@.records[i as int]);
        if rec.stats.len() != s.param_count {
            assert(!rec_wf(s@.records[i as int], s@.param_count));
            return false;
        }
        if rec.total_observations > OBS_MAX {
            assert(!rec_wf(s@.records[i as int], s@.param_count));
            return false;
        }
        let m: usize = rec.stats.len();
        let mut j: usize = 0;
        while j < m
            invariant
                0 <= j <= m,
                0 <= i < s@.records.len(),
                m == rec.stats@.len(),
                rec.stats@ == s@.records[i as int].stats,
                rec.total_observations == s@.records[i as int].total_observations,
                forall|l: int|
                    0 <= l < j ==> crate::stats::stats_wf(#[trigger] rec.stats@[l])
                        && rec.stats@[l].observation_count == rec.total_observations,
            decreases m - j,
        {
            assert(rec.stats@[j as int] == s@.records[i as int].stats[j as int]);
            let st = &rec.stats[j];
            assert(*st == s@.records[i as int].stats[j as int]);
            if st.observation_count > OBS_MAX {
                assert(!crate::stats::stats_wf(s@.records[i as int].stats[j as int]));
                assert(!rec_wf(s@.records[i as int], s@.param_count));
                return false;
            }
            if st.observation_count != rec.total_observations {
                assert(!rec_wf(s@.records[i as int], s@.param_count));
                return false;
            }
            if (st.weight_sum as u128) > (st.observation_count as u128) * (F_MAX as u128) {
                assert(!crate::stats::stats_wf(s@.records[i as int].stats[j as int]));
                assert(!rec_wf(s@.records[i as int], s@.param_count));
                return false;
            }
            if st.weighted_sum > (st.weight_sum as u128) * (P_MAX as u128) {
                assert(!crate::stats::stats_wf(s@.records[i as int].stats[j as int]));
                assert(!rec_wf(s@.records[i as int], s@.param_count));
                return false;
            }
            proof {
                assert((st.weight_sum as u128) * (P_MAX as u128) * (P_MAX as u128)
                    <= u128::MAX) by (nonlinear_arith)
                    requires st.weight_sum <= u64::MAX, P_MAX == 1_000_000_000u64;
            }
            if st.weighted_sq_sum > (st.weight_sum as u128) * (P_MAX as u128) * (P_MAX as u128) {
                assert(!crate::stats::stats_wf(s@.records[i as int].stats[j as int]));
                assert(!rec_wf(s@.records[i as int], s@.param_count));
                return false;
            }
            j = j + 1;
        }
        let mut l: usize = 0;
        while l < i
            invariant
                0 <= l <= i < n,
                n == s.records@.len(),
                forall|x: int| 0 <= x < l ==> s@.records[x].key != s@.records[i as int].key,
            decreases i - l,
        {
            if s.records[l].key == s.records[i].key {
                assert(s@.records[l as int].key == s@.records[i as int].key);
                return false;
            }
            l = l + 1;
        }
        assert(rec_wf(s@.records[i as int], s@.param_count));
        i = i + 1;
    }
    true
}

/// Rebuild a store from its persisted item sequence.  `None` exactly when
/// the items do not parse as a current-version store, or parse to one that
/// breaks the store invariant or whose parameter count exceeds the
/// machine.
pub fn items_to_store(items: &Vec<Item>) -> (r: Option<EvoCoreContextSystem>)
    ensures
        match parse_store(items_views(items@)) {
            Some(m) => {
                &&& (r is Some <==> (store_wf(m) && m.param_count <= usize::MAX))
                &&& r is Some ==> r->Some_0@ == m
            },
            None => r is None,
        },
{
    let total_len: usize = items.len();
    assert(items@.len() <= usize::MAX);
    let (ver, p0) = match parse_num(items, 0) {
        Some(x) => x,
        None => {
            return None;
        },
    };
    if ver != FORMAT_VERSION as u128 {
        return None;
    }
    let (dc, p1) = match parse_num(items, p0) {
        Some(x) => x,
        None => {
            return None;
        },
    };
    let (dims, p2) = match parse_dims(items, p1, dc) {
        Some(x) => x,
        None => {
            return None;
        },
    };
    let (pc, p3) = match parse_u64(items, p2) {
        Some(x) => x,
        None => {
            return None;
        },
    };
    let (rc, p4) = match parse_num(items, p3) {
        Some(x) => x,
        None => {
            return None;
        },
    };
    let (recs, p5) = match parse_recs(items, p4, rc, pc as u128) {
        Some(x) => x,
        None => {
            return None;
        },
    };
    if p5 != items.len() {
        return None;
    }
    if pc > usize::MAX as u64 {
        return None;
    }
    let sys = EvoCoreContextSystem {
        dimensions: dims,
        param_count: pc as usize,
        records: recs,
    };
    if check_store(&sys) {
        Some(sys)
    } else {
        None
    }
}

} // verus!
