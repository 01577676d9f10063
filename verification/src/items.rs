//! The persistence model: a store flattened to a sequence of items, each
//! a number or a string.  Both persisted encodings (binary and textual)
//! write this one item sequence; parsing it back is proved to invert the
//! flattening.

use vstd::prelude::*;
use crate::dims::DimModel;
use crate::stats::ParamStats;
use crate::store::{RecModel, StoreModel};

verus! {

/// Version tag embedded as the first item of every persisted store.
pub const FORMAT_VERSION: u64 = 1;

/// One persisted item, as carried by both encodings.
#[derive(Debug)]
pub enum Item {
    Num(u128),
    Str(String),
}

/// The mathematical content of an item.
pub enum IModel {
    Num(u128),
    Str(Seq<char>),
}

impl View for Item {
    type V = IModel;

    open spec fn view(&self) -> IModel {
        match self {
            Item::Num(n) => IModel::Num(*n),
            Item::Str(s) => IModel::Str(s@),
        }
    }
}

/// The models of an item list.
pub open spec fn items_views(s: Seq<Item>) -> Seq<IModel> {
    s.map_values(|it: Item| it@)
}

// ---- flattening ----

/// The items of a string list, one `Str` per entry.
pub open spec fn strs_items(vs: Seq<Seq<char>>) -> Seq<IModel>
    decreases vs.len(),
{
    if vs.len() == 0 {
        Seq::empty()
    } else {
        seq![IModel::Str(vs[0])] + strs_items(vs.drop_first())
    }
}

/// The items of one dimension: name, value count, values.
pub open spec fn dim_items(d: DimModel) -> Seq<IModel> {
    seq![IModel::Str(d.name), IModel::Num(d.values.len() as u128)] + strs_items(d.values)
}

/// The items of the dimension list.
pub open spec fn dims_items(ds: Seq<DimModel>) -> Seq<IModel>
    decreases ds.len(),
{
    if ds.len() == 0 {
        Seq::empty()
    } else {
        dim_items(ds[0]) + dims_items(ds.drop_first())
    }
}

/// The items of one parameter's statistics.
pub open spec fn stat_items(s: ParamStats) -> Seq<IModel> {
    seq![
        IModel::Num(s.weight_sum as u128),
        IModel::Num(s.weighted_sum),
        IModel::Num(s.weighted_sq_sum),
        IModel::Num(s.observation_count as u128),
    ]
}

/// The items of a statistics list.
pub open spec fn stats_items(ss: Seq<ParamStats>) -> Seq<IModel>
    decreases ss.len(),
{
    if ss.len() == 0 {
        Seq::empty()
    } else {
        stat_items(ss[0]) + stats_items(ss.drop_first())
    }
}

/// The items of one context record: key, total, statistics.
pub open spec fn rec_items(r: RecModel) -> Seq<IModel> {
    seq![IModel::Str(r.key), IModel::Num(r.total_observations as u128)] + stats_items(r.stats)
}

/// The items of the record list.
pub open spec fn recs_items(rs: Seq<RecModel>) -> Seq<IModel>
    decreases rs.len(),
{
    if rs.len() == 0 {
        Seq::empty()
    } else {
        rec_items(rs[0]) + recs_items(rs.drop_first())
    }
}

/// The whole store, flattened: version, dimension count, dimensions,
/// parameter count, record count, records.
pub open spec fn store_items(m: StoreModel) -> Seq<IModel> {
    seq![IModel::Num(FORMAT_VERSION as u128), IModel::Num(m.dims.len() as u128)]
        + dims_items(m.dims) + seq![
        IModel::Num(m.param_count as u128),
        IModel::Num(m.records.len() as u128),
    ] + recs_items(m.records)
}

// ---- parsing ----

/// Read one number.
pub open spec fn p_num(items: Seq<IModel>, pos: int) -> Option<(u128, int)> {
    if 0 <= pos < items.len() && items[pos] is Num {
        Some((items[pos]->Num_0, pos + 1))
    } else {
        None
    }
}

/// Read one number that must fit `u64`.
pub open spec fn p_u64(items: Seq<IModel>, pos: int) -> Option<(u64, int)> {
    match p_num(items, pos) {
        Some((n, p)) => if n <= u64::MAX as u128 {
            Some((n as u64, p))
        } else {
            None
        },
        None => None,
    }
}

/// Read one string.
pub open spec fn p_str(items: Seq<IModel>, pos: int) -> Option<(Seq<char>, int)> {
    if 0 <= pos < items.len() && items[pos] is Str {
        Some((items[pos]->Str_0, pos + 1))
    } else {
        None
    }
}

/// Read `k` strings.
pub open spec fn p_strs(items: Seq<IModel>, pos: int, k: nat) -> Option<(Seq<Seq<char>>, int)>
    decreases k,
{
    if k == 0 {
        Some((Seq::empty(), pos))
    } else {
        match p_str(items, pos) {
            Some((v, p1)) => match p_strs(items, p1, (k - 1) as nat) {
                Some((rest, p2)) => Some((seq![v] + rest, p2)),
                None => None,
            },
            None => None,
        }
    }
}

/// Read `k` dimensions.
pub open spec fn p_dims(items: Seq<IModel>, pos: int, k: nat) -> Option<(Seq<DimModel>, int)>
    decreases k,
{
    if k == 0 {
        Some((Seq::empty(), pos))
    } else {
        match p_str(items, pos) {
            Some((name, p1)) => match p_num(items, p1) {
                Some((vc, p2)) => match p_strs(items, p2, vc as nat) {
                    Some((vals, p3)) => match p_dims(items, p3, (k - 1) as nat) {
                        Some((rest, p4)) => Some(
                            (seq![DimModel { name, values: vals }] + rest, p4),
                        ),
                        None => None,
                    },
                    None => None,
                },
                None => None,
            },
            None => None,
        }
    }
}

/// Read `k` parameter statistics.
pub open spec fn p_stats(items: Seq<IModel>, pos: int, k: nat) -> Option<(Seq<ParamStats>, int)>
    decreases k,
{
    if k == 0 {
        Some((Seq::empty(), pos))
    } else {
        match p_u64(items, pos) {
            Some((w, p1)) => match p_num(items, p1) {
                Some((wp, p2)) => match p_num(items, p2) {
                    Some((wpp, p3)) => match p_u64(items, p3) {
                        Some((cnt, p4)) => match p_stats(items, p4, (k - 1) as nat) {
                            Some((rest, p5)) => Some(
                                (
                                    seq![
                                        ParamStats {
                                            weight_sum: w,
                                            weighted_sum: wp,
                                            weighted_sq_sum: wpp,
                                            observation_count: cnt,
                                        },
                                    ] + rest,
                                    p5,
                                ),
                            ),
                            None => None,
                        },
                        None => None,
                    },
                    None => None,
                },
                None => None,
            },
            None => None,
        }
    }
}

/// Read `k` context records of `pc` parameters each.
pub open spec fn p_recs(items: Seq<IModel>, pos: int, k: nat, pc: nat) -> Option<
    (Seq<RecModel>, int),
>
    decreases k,
{
    if k == 0 {
        Some((Seq::empty(), pos))
    } else {
        match p_str(items, pos) {
            Some((key, p1)) => match p_u64(items, p1) {
                Some((total, p2)) => match p_stats(items, p2, pc) {
                    Some((ss, p3)) => match p_recs(items, p3, (k - 1) as nat, pc) {
                        Some((rest, p4)) => Some(
                            (
                                seq![
                                    RecModel { key, stats: ss, total_observations: total },
                                ] + rest,
                                p4,
                            ),
                        ),
                        None => None,
                    },
                    None => None,
                },
                None => None,
            },
            None => None,
        }
    }
}

/// Parse a whole flattened store: the exact inverse of `store_items` on
/// well-formed input, `None` on anything structurally off, a wrong
/// version tag, or trailing items.
pub open spec fn parse_store(items: Seq<IModel>) -> Option<StoreModel> {
    match p_num(items, 0) {
        Some((ver, p0)) => if ver != FORMAT_VERSION as u128 {
            None
        } else {
            match p_num(items, p0) {
                Some((dc, p1)) => match p_dims(items, p1, dc as nat) {
                    Some((dims, p2)) => match p_u64(items, p2) {
                        Some((pc, p3)) => match p_num(items, p3) {
                            Some((rc, p4)) => match p_recs(items, p4, rc as nat, pc as nat) {
                                Some((recs, p5)) => if p5 == items.len() {
                                    Some(
                                        StoreModel {
                                            dims,
                                            param_count: pc as int,
                                            records: recs,
                                        },
                                    )
                                } else {
                                    None
                                },
                                None => None,
                            },
                            None => None,
                        },
                        None => None,
                    },
                    None => None,
                },
                None => None,
            }
        },
        None => None,
    }
}

// ---- parsing inverts flattening ----

/// Skipping one more element commutes with skipping into the suffix.
proof fn lemma_skip_one(items: Seq<IModel>, pos: int)
    requires
        0 <= pos < items.len(),
    ensures
        items.skip(pos).drop_first() =~= items.skip(pos + 1),
{
}

proof fn lemma_p_strs_at(items: Seq<IModel>, pos: int, vs: Seq<Seq<char>>)
    requires
        0 <= pos <= items.len(),
        strs_items(vs).is_prefix_of(items.skip(pos)),
    ensures
        p_strs(items, pos, vs.len()) == Some((vs, pos + strs_items(vs).len())),
    decreases vs.len(),
{
    if vs.len() == 0 {
        assert(vs =~= Seq::<Seq<char>>::empty());
    } else {
        assert(items.skip(pos)[0] == strs_items(vs)[0]);
        assert(items[pos] == IModel::Str(vs[0]));
        let tail = vs.drop_first();
        assert(strs_items(tail).is_prefix_of(items.skip(pos + 1))) by {
            lemma_skip_one(items, pos);
            assert forall|i: int| 0 <= i < strs_items(tail).len() implies
                items.skip(pos + 1)[i] == strs_items(tail)[i] by {
                assert(strs_items(vs)[i + 1] == strs_items(tail)[i]);
                assert(items.skip(pos)[i + 1] == strs_items(vs)[i + 1]);
            }
        }
        lemma_p_strs_at(items, pos + 1, tail);
        assert(seq![vs[0]] + tail =~= vs);
    }
}

proof fn lemma_p_dims_at(items: Seq<IModel>, pos: int, ds: Seq<DimModel>)
    requires
        0 <= pos <= items.len(),
        dims_items(ds).is_prefix_of(items.skip(pos)),
        forall|i: int| 0 <= i < ds.len() ==> (#[trigger] ds[i].values).len() <= u64::MAX,
    ensures
        p_dims(items, pos, ds.len()) == Some((ds, pos + dims_items(ds).len())),
    decreases ds.len(),
{
    if ds.len() == 0 {
        assert(ds =~= Seq::<DimModel>::empty());
    } else {
        let d = ds[0];
        let di = dim_items(d);
        assert(items[pos] == IModel::Str(d.name)) by {
            assert(items.skip(pos)[0] == dims_items(ds)[0]);
            assert(dims_items(ds)[0] == di[0]);
        }
        assert(items[pos + 1] == IModel::Num(d.values.len() as u128)) by {
            assert(items.skip(pos)[1] == dims_items(ds)[1]);
            assert(dims_items(ds)[1] == di[1]);
        }
        assert(strs_items(d.values).is_prefix_of(items.skip(pos + 2))) by {
            assert forall|i: int| 0 <= i < strs_items(d.values).len() implies
                items.skip(pos + 2)[i] == strs_items(d.values)[i] by {
                assert(di[i + 2] == strs_items(d.values)[i]);
                assert(dims_items(ds)[i + 2] == di[i + 2]);
                assert(items.skip(pos)[i + 2] == dims_items(ds)[i + 2]);
            }
        }
        lemma_p_strs_at(items, pos + 2, d.values);
        let p3 = pos + 2 + strs_items(d.values).len();
        assert(p3 == pos + di.len());
        let tail = ds.drop_first();
        assert(dims_items(tail).is_prefix_of(items.skip(p3))) by {
            assert forall|i: int| 0 <= i < dims_items(tail).len() implies
                items.skip(p3)[i] == dims_items(tail)[i] by {
                assert(dims_items(ds)[di.len() + i] == dims_items(tail)[i]);
                assert(items.skip(pos)[di.len() + i] == dims_items(ds)[di.len() + i]);
            }
        }
        lemma_p_dims_at(items, p3, tail);
        assert(seq![d] + tail =~= ds);
        assert(ds =~= seq![DimModel { name: d.name, values: d.values }] + tail);
        assert(seq![DimModel { name: d.name, values: d.values }] + tail =~= ds);
    }
}

proof fn lemma_p_stats_at(items: Seq<IModel>, pos: int, ss: Seq<ParamStats>)
    requires
        0 <= pos <= items.len(),
        stats_items(ss).is_prefix_of(items.skip(pos)),
    ensures
        p_stats(items, pos, ss.len()) == Some((ss, pos + 4 * ss.len())),
    decreases ss.len(),
{
    if ss.len() == 0 {
        assert(ss =~= Seq::<ParamStats>::empty());
    } else {
        let s = ss[0];
        let si = stat_items(s);
        assert forall|i: int| 0 <= i < 4 implies items[pos + i] == si[i] by {
            assert(stats_items(ss)[i] == si[i]);
            assert(items.skip(pos)[i] == stats_items(ss)[i]);
        }
        assert(items[pos] == IModel::Num(s.weight_sum as u128));
        assert(items[pos + 1] == IModel::Num(s.weighted_sum));
        assert(items[pos + 2] == IModel::Num(s.weighted_sq_sum));
        assert(items[pos + 3] == IModel::Num(s.observation_count as u128));
        let tail = ss.drop_first();
        assert(stats_items(tail).is_prefix_of(items.skip(pos + 4))) by {
            assert forall|i: int| 0 <= i < stats_items(tail).len() implies
                items.skip(pos + 4)[i] == stats_items(tail)[i] by {
                assert(stats_items(ss)[i + 4] == stats_items(tail)[i]);
                assert(items.skip(pos)[i + 4] == stats_items(ss)[i + 4]);
            }
        }
        lemma_p_stats_at(items, pos + 4, tail);
        assert(seq![s] + tail =~= ss);
        assert(seq![
            ParamStats {
                weight_sum: s.weight_sum,
                weighted_sum: s.weighted_sum,
                weighted_sq_sum: s.weighted_sq_sum,
                observation_count: s.observation_count,
            },
        ] + tail =~= ss);
    }
}

proof fn lemma_p_recs_at(items: Seq<IModel>, pos: int, rs: Seq<RecModel>, pc: nat)
    requires
        0 <= pos <= items.len(),
        recs_items(rs).is_prefix_of(items.skip(pos)),
        forall|i: int| 0 <= i < rs.len() ==> (#[trigger] rs[i].stats).len() == pc,
    ensures
        p_recs(items, pos, rs.len(), pc) == Some((rs, pos + recs_items(rs).len())),
    decreases rs.len(),
{
    if rs.len() == 0 {
        assert(rs =~= Seq::<RecModel>::empty());
    } else {
        let r = rs[0];
        let ri = rec_items(r);
        assert(items[pos] == IModel::Str(r.key)) by {
            assert(recs_items(rs)[0] == ri[0]);
            assert(items.skip(pos)[0] == recs_items(rs)[0]);
        }
        assert(items[pos + 1] == IModel::Num(r.total_observations as u128)) by {
            assert(recs_items(rs)[1] == ri[1]);
            assert(items.skip(pos)[1] == recs_items(rs)[1]);
        }
        assert(stats_items(r.stats).is_prefix_of(items.skip(pos + 2))) by {
            assert forall|i: int| 0 <= i < stats_items(r.stats).len() implies
                items.skip(pos + 2)[i] == stats_items(r.stats)[i] by {
                assert(ri[i + 2] == stats_items(r.stats)[i]);
                assert(recs_items(rs)[i + 2] == ri[i + 2]);
                assert(items.skip(pos)[i + 2] == recs_items(rs)[i + 2]);
            }
        }
        lemma_p_stats_at(items, pos + 2, r.stats);
        assert(r.stats.len() == pc);
        let p3 = pos + 2 + 4 * r.stats.len();
        assert(stats_items(r.stats).len() == 4 * r.stats.len()) by {
            lemma_stats_items_len(r.stats);
        }
        assert(p3 == pos + ri.len());
        let tail = rs.drop_first();
        assert(recs_items(tail).is_prefix_of(items.skip(p3))) by {
            assert forall|i: int| 0 <= i < recs_items(tail).len() implies
                items.skip(p3)[i] == recs_items(tail)[i] by {
                assert(recs_items(rs)[ri.len() + i] == recs_items(tail)[i]);
                assert(items.skip(pos)[ri.len() + i] == recs_items(rs)[ri.len() + i]);
            }
        }
        lemma_p_recs_at(items, p3, tail, pc);
        assert(seq![r] + tail =~= rs);
        assert(seq![
            RecModel { key: r.key, stats: r.stats, total_observations: r.total_observations },
        ] + tail =~= rs);
    }
}

/// The statistics items are four per parameter.
proof fn lemma_stats_items_len(ss: Seq<ParamStats>)
    ensures
        stats_items(ss).len() == 4 * ss.len(),
    decreases ss.len(),
{
    if ss.len() > 0 {
        lemma_stats_items_len(ss.drop_first());
    }
}

/// Parsing inverts flattening: any store whose parameter count fits the
/// machine and whose records all carry that many statistics comes back
/// from its own item sequence unchanged.
pub proof fn lemma_parse_store_items(m: StoreModel)
    requires
        0 <= m.param_count <= u64::MAX,
        m.dims.len() <= u64::MAX,
        m.records.len() <= u64::MAX,
        forall|i: int| 0 <= i < m.dims.len() ==> (#[trigger] m.dims[i].values).len() <= u64::MAX,
        forall|i: int|
            0 <= i < m.records.len() ==> (#[trigger] m.records[i].stats).len() == m.param_count,
    ensures
        parse_store(store_items(m)) == Some(m),
{
    let items = store_items(m);
    assert(items[0] == IModel::Num(FORMAT_VERSION as u128));
    assert(items[1] == IModel::Num(m.dims.len() as u128));
    assert(dims_items(m.dims).is_prefix_of(items.skip(2))) by {
        assert forall|i: int| 0 <= i < dims_items(m.dims).len() implies
            items.skip(2)[i] == dims_items(m.dims)[i] by {
            assert(items[2 + i] == dims_items(m.dims)[i]);
        }
    }
    lemma_p_dims_at(items, 2, m.dims);
    let p2: int = 2 + dims_items(m.dims).len() as int;
    assert(items[p2] == IModel::Num(m.param_count as u128));
    assert(items[p2 + 1] == IModel::Num(m.records.len() as u128));
    assert(recs_items(m.records).is_prefix_of(items.skip(p2 + 2))) by {
        assert forall|i: int| 0 <= i < recs_items(m.records).len() implies
            items.skip(p2 + 2)[i] == recs_items(m.records)[i] by {
            assert(items[p2 + 2 + i] == recs_items(m.records)[i]);
        }
    }
    lemma_p_recs_at(items, p2 + 2, m.records, m.param_count as nat);
    let p5 = p2 + 2 + recs_items(m.records).len();
    assert(p5 == items.len());
    assert(parse_store(items) == Some(StoreModel {
        dims: m.dims,
        param_count: m.param_count as u64 as int,
        records: m.records,
    }));
    assert(StoreModel {
        dims: m.dims,
        param_count: m.param_count as u64 as int,
        records: m.records,
    } == m);
}

} // verus!
