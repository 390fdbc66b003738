//! The computational core: the dense output table over every name the index
//! holds, each cell the multiplicative composition of the sparse rules over
//! both sides' lookup keys, followed by the pass that resets every
//! category-addressed cell to the neutral value.
use vstd::prelude::*;

use crate::categories::{category_name, keys_of, spec_category_name, spec_keys_of, CAT_COUNT};
use crate::bytes::views_of;
use crate::modifier::{apply_modifier, spec_step, Cell, Modifier};
use crate::omap::{
    lemma_om_deep_upsert, lemma_om_get_member, lemma_om_upsert_vals, om_deep, om_get, om_upsert,
    OMap,
};

verus! {

/// The rule the sparse table states for one attacker key and one defender
/// key, if any.
pub open spec fn spec_rule(
    table: Seq<(Seq<u8>, Seq<(Seq<u8>, Modifier)>)>,
    ak: Seq<u8>,
    dk: Seq<u8>,
) -> Option<Modifier> {
    match om_get(table, ak) {
        None => None,
        Some(entry) => om_get(entry, dk),
    }
}

/// The factor one key pair contributes: the stated rule, or the neutral
/// modifier where none is stated.
pub open spec fn spec_factor(
    table: Seq<(Seq<u8>, Seq<(Seq<u8>, Modifier)>)>,
    ak: Seq<u8>,
    dk: Seq<u8>,
) -> Modifier {
    match spec_rule(table, ak, dk) {
        None => Modifier::spec_neutral(),
        Some(m) => m,
    }
}

/// Composing one attacker key against the first `n` defender keys.
pub open spec fn fold_dkeys(
    bal: Cell,
    table: Seq<(Seq<u8>, Seq<(Seq<u8>, Modifier)>)>,
    ak: Seq<u8>,
    dkeys: Seq<Seq<u8>>,
    n: int,
) -> Cell
    decreases n,
{
    if n <= 0 {
        bal
    } else {
        spec_step(fold_dkeys(bal, table, ak, dkeys, n - 1), spec_factor(table, ak, dkeys[n - 1]))
    }
}

/// Composing the first `n` attacker keys, each against every defender key.
pub open spec fn fold_akeys(
    bal: Cell,
    table: Seq<(Seq<u8>, Seq<(Seq<u8>, Modifier)>)>,
    akeys: Seq<Seq<u8>>,
    dkeys: Seq<Seq<u8>>,
    n: int,
) -> Cell
    decreases n,
{
    if n <= 0 {
        bal
    } else {
        fold_dkeys(
            fold_akeys(bal, table, akeys, dkeys, n - 1),
            table,
            akeys[n - 1],
            dkeys,
            dkeys.len() as int,
        )
    }
}

/// One cell of the matrix: the neutral balance composed with every factor of
/// the pair's keys.
pub open spec fn spec_pair_cell(
    table: Seq<(Seq<u8>, Seq<(Seq<u8>, Modifier)>)>,
    akeys: Seq<Seq<u8>>,
    dkeys: Seq<Seq<u8>>,
) -> Cell {
    fold_akeys(Cell::spec_neutral(), table, akeys, dkeys, akeys.len() as int)
}

/// One attacker's row over the first `n` index names.
pub open spec fn spec_row(
    index: Seq<(Seq<u8>, u32)>,
    table: Seq<(Seq<u8>, Seq<(Seq<u8>, Modifier)>)>,
    akeys: Seq<Seq<u8>>,
    n: int,
) -> Seq<(Seq<u8>, Cell)>
    decreases n,
{
    if n <= 0 {
        Seq::empty()
    } else {
        om_upsert(
            spec_row(index, table, akeys, n - 1),
            index[n - 1].0,
            spec_pair_cell(table, akeys, spec_keys_of(index[n - 1].0, index[n - 1].1)),
        )
    }
}

/// The rows of the first `n` index names.
pub open spec fn spec_unit_rows(
    index: Seq<(Seq<u8>, u32)>,
    table: Seq<(Seq<u8>, Seq<(Seq<u8>, Modifier)>)>,
    n: int,
) -> Seq<(Seq<u8>, Seq<(Seq<u8>, Cell)>)>
    decreases n,
{
    if n <= 0 {
        Seq::empty()
    } else {
        om_upsert(
            spec_unit_rows(index, table, n - 1),
            index[n - 1].0,
            spec_row(
                index,
                table,
                spec_keys_of(index[n - 1].0, index[n - 1].1),
                index.len() as int,
            ),
        )
    }
}

/// A row that holds the neutral value for the first `n` index names.
pub open spec fn spec_neutral_row(index: Seq<(Seq<u8>, u32)>, n: int) -> Seq<(Seq<u8>, Cell)>
    decreases n,
{
    if n <= 0 {
        Seq::empty()
    } else {
        om_upsert(spec_neutral_row(index, n - 1), index[n - 1].0, Cell::spec_neutral())
    }
}

/// Overwriting the rows of the first `n` category names with neutral rows.
pub open spec fn spec_add_cat_rows(
    rows: Seq<(Seq<u8>, Seq<(Seq<u8>, Cell)>)>,
    index: Seq<(Seq<u8>, u32)>,
    n: int,
) -> Seq<(Seq<u8>, Seq<(Seq<u8>, Cell)>)>
    decreases n,
{
    if n <= 0 {
        rows
    } else {
        om_upsert(
            spec_add_cat_rows(rows, index, n - 1),
            spec_category_name(n - 1),
            spec_neutral_row(index, index.len() as int),
        )
    }
}

/// Resetting a row's cells for the first `n` category names to neutral.
pub open spec fn spec_sweep_row(row: Seq<(Seq<u8>, Cell)>, n: int) -> Seq<(Seq<u8>, Cell)>
    decreases n,
{
    if n <= 0 {
        row
    } else {
        om_upsert(spec_sweep_row(row, n - 1), spec_category_name(n - 1), Cell::spec_neutral())
    }
}

/// Sweeping the first `k` rows.
pub open spec fn spec_sweep_upto(
    rows: Seq<(Seq<u8>, Seq<(Seq<u8>, Cell)>)>,
    k: int,
) -> Seq<(Seq<u8>, Seq<(Seq<u8>, Cell)>)> {
    Seq::new(
        rows.len(),
        |i: int|
            if i < k {
                (rows[i].0, spec_sweep_row(rows[i].1, CAT_COUNT as int))
            } else {
                rows[i]
            },
    )
}

/// The whole output table: the composed matrix, the appended category rows,
/// and the category-column sweep.
pub open spec fn spec_calculate(
    index: Seq<(Seq<u8>, u32)>,
    table: Seq<(Seq<u8>, Seq<(Seq<u8>, Modifier)>)>,
) -> Seq<(Seq<u8>, Seq<(Seq<u8>, Cell)>)> {
    let rows = spec_add_cat_rows(
        spec_unit_rows(index, table, index.len() as int),
        index,
        CAT_COUNT as int,
    );
    spec_sweep_upto(rows, rows.len() as int)
}

/// Every modifier the sparse table holds is well-formed.
pub open spec fn spec_table_wf(t: Seq<(Seq<u8>, Seq<(Seq<u8>, Modifier)>)>) -> bool {
    forall|i: int, j: int|
        0 <= i < t.len() && 0 <= j < t[i].1.len() ==> (#[trigger] t[i].1[j].1).wf()
}

/// Every cell the output table holds is well-formed.
pub open spec fn spec_out_wf(t: Seq<(Seq<u8>, Seq<(Seq<u8>, Cell)>)>) -> bool {
    forall|i: int, j: int|
        0 <= i < t.len() && 0 <= j < t[i].1.len() ==> (#[trigger] t[i].1[j].1).wf()
}

/// The factor of any key pair under a well-formed table is well-formed.
proof fn lemma_factor_wf(table: Seq<(Seq<u8>, Seq<(Seq<u8>, Modifier)>)>, ak: Seq<u8>, dk: Seq<u8>)
    requires
        spec_table_wf(table),
    ensures
        spec_factor(table, ak, dk).wf(),
{
    match om_get(table, ak) {
        None => {},
        Some(entry) => {
            lemma_om_get_member(table, ak);
            match om_get(entry, dk) {
                None => {},
                Some(m) => {
                    lemma_om_get_member(entry, dk);
                },
            }
        },
    }
}

/// Computes one cell of the matrix.
fn pair_cell(
    table: &OMap<OMap<Modifier>>,
    akeys: &Vec<Vec<u8>>,
    dkeys: &Vec<Vec<u8>>,
) -> (r: Cell)
    requires
        spec_table_wf(om_deep(table@)),
    ensures
        r == spec_pair_cell(om_deep(table@), views_of(akeys@), views_of(dkeys@)),
        r.wf(),
{
    let ghost tdeep = om_deep(table@);
    let ghost akv = views_of(akeys@);
    let ghost dkv = views_of(dkeys@);
    let mut bal = Cell::neutral();
    let mut a: usize = 0;
    while a < akeys.len()
        invariant
            a <= akeys@.len(),
            spec_table_wf(tdeep),
            tdeep == om_deep(table@),
            akv == views_of(akeys@),
            dkv == views_of(dkeys@),
            akv.len() == akeys@.len(),
            dkv.len() == dkeys@.len(),
            bal == fold_akeys(Cell::spec_neutral(), tdeep, akv, dkv, a as int),
            bal.wf(),
        decreases akeys@.len() - a,
    {
        let ak = &akeys[a];
        proof {
            assert(akv[a as int] == akeys@[a as int]@);
        }
        let entry: Option<&OMap<Modifier>> = table.get(ak.as_slice());
        proof {
            crate::omap::lemma_om_deep_get(table@, ak@);
        }
        let mut d: usize = 0;
        while d < dkeys.len()
            invariant
                d <= dkeys@.len(),
                a < akeys@.len(),
                spec_table_wf(tdeep),
                tdeep == om_deep(table@),
                akv == views_of(akeys@),
                dkv == views_of(dkeys@),
                akv.len() == akeys@.len(),
                dkv.len() == dkeys@.len(),
                akv[a as int] == akeys@[a as int]@,
                match entry {
                    Some(e) => om_get(tdeep, akv[a as int]) == Some(e@),
                    None => om_get(tdeep, akv[a as int]) is None,
                },
                bal == fold_dkeys(
                    fold_akeys(Cell::spec_neutral(), tdeep, akv, dkv, a as int),
                    tdeep,
                    akv[a as int],
                    dkv,
                    d as int,
                ),
                bal.wf(),
            decreases dkeys@.len() - d,
        {
            let dk = &dkeys[d];
            proof {
                assert(dkv[d as int] == dkeys@[d as int]@);
            }
            let m: Modifier = match entry {
                Some(e) => match e.get(dk.as_slice()) {
                    Some(found) => *found,
                    None => Modifier::neutral(),
                },
                None => Modifier::neutral(),
            };
            proof {
                assert(m == spec_factor(tdeep, akv[a as int], dkv[d as int]));
                lemma_factor_wf(tdeep, akv[a as int], dkv[d as int]);
            }
            bal = apply_modifier(&bal, &m);
            d += 1;
        }
        a += 1;
    }
    bal
}

/// Builds the dense output table: every index name against every index name,
/// then the neutral category rows, then the category-column sweep. This also
/// carries the normalization pass: after it, every cell addressed by a
/// category name holds exactly the neutral value.
pub fn calculate_new_balance(index: &OMap<u32>, table: &OMap<OMap<Modifier>>) -> (r: OMap<
    OMap<Cell>,
>)
    requires
        spec_table_wf(om_deep(table@)),
    ensures
        om_deep(r@) == spec_calculate(index@, om_deep(table@)),
        spec_out_wf(om_deep(r@)),
{
    let ghost tdeep = om_deep(table@);
    let mut out: OMap<OMap<Cell>> = OMap::new();
    proof {
        assert(om_deep(out@) =~= Seq::<(Seq<u8>, Seq<(Seq<u8>, Cell)>)>::empty());
    }

    // The composed matrix, row by row.
    let mut i: usize = 0;
    while i < index.len()
        invariant
            i <= index@.len(),
            spec_table_wf(tdeep),
            tdeep == om_deep(table@),
            om_deep(out@) == spec_unit_rows(index@, tdeep, i as int),
            spec_out_wf(om_deep(out@)),
        decreases index@.len() - i,
    {
        let akeys = keys_of(index.key_at(i), *index.val_at(i));
        let mut row: OMap<Cell> = OMap::new();
        let mut j: usize = 0;
        while j < index.len()
            invariant
                j <= index@.len(),
                i < index@.len(),
                spec_table_wf(tdeep),
                tdeep == om_deep(table@),
                views_of(akeys@) == spec_keys_of(index@[i as int].0, index@[i as int].1),
                row@ == spec_row(index@, tdeep, views_of(akeys@), j as int),
                forall|k: int| 0 <= k < row@.len() ==> (#[trigger] row@[k].1).wf(),
            decreases index@.len() - j,
        {
            let dkeys = keys_of(index.key_at(j), *index.val_at(j));
            let cell = pair_cell(table, &akeys, &dkeys);
            proof {
                lemma_om_upsert_vals(row@, index@[j as int].0, cell, |c: Cell| c.wf());
            }
            row.upsert(index.key_at(j).clone(), cell);
            j += 1;
        }
        let ghost old_raw = out@;
        let ghost rowv = row;
        proof {
            lemma_om_upsert_vals(
                om_deep(out@),
                index@[i as int].0,
                rowv@,
                |rw: Seq<(Seq<u8>, Cell)>| forall|k: int| 0 <= k < rw.len() ==> (#[trigger] rw[k].1).wf(),
            );
        }
        out.upsert(index.key_at(i).clone(), row);
        proof {
            lemma_om_deep_upsert(old_raw, index@[i as int].0, rowv);
            assert(om_deep(out@) == om_upsert(om_deep(old_raw), index@[i as int].0, rowv@));
        }
        i += 1;
    }

    // The neutral rows of the fixed category names.
    let ghost urows = om_deep(out@);
    let mut c: usize = 0;
    while c < CAT_COUNT
        invariant
            c <= CAT_COUNT,
            om_deep(out@) == spec_add_cat_rows(urows, index@, c as int),
            spec_out_wf(om_deep(out@)),
        decreases CAT_COUNT - c,
    {
        let mut nrow: OMap<Cell> = OMap::new();
        let mut j: usize = 0;
        while j < index.len()
            invariant
                j <= index@.len(),
                nrow@ == spec_neutral_row(index@, j as int),
                forall|k: int| 0 <= k < nrow@.len() ==> (#[trigger] nrow@[k].1).wf(),
            decreases index@.len() - j,
        {
            proof {
                lemma_om_upsert_vals(
                    nrow@,
                    index@[j as int].0,
                    Cell::spec_neutral(),
                    |cl: Cell| cl.wf(),
                );
            }
            nrow.upsert(index.key_at(j).clone(), Cell::neutral());
            j += 1;
        }
        let ghost old_raw = out@;
        let ghost rowv = nrow;
        proof {
            lemma_om_upsert_vals(
                om_deep(out@),
                spec_category_name(c as int),
                rowv@,
                |rw: Seq<(Seq<u8>, Cell)>| forall|k: int| 0 <= k < rw.len() ==> (#[trigger] rw[k].1).wf(),
            );
        }
        out.upsert(category_name(c), nrow);
        proof {
            lemma_om_deep_upsert(old_raw, spec_category_name(c as int), rowv);
        }
        c += 1;
    }

    // The sweep: every row's category columns go back to neutral.
    let ghost base = om_deep(out@);
    proof {
        assert(spec_sweep_upto(base, 0) =~= base);
    }
    let mut r: usize = 0;
    let n_rows = out.len();
    while r < n_rows
        invariant
            r <= n_rows,
            n_rows == out@.len(),
            base.len() == out@.len(),
            om_deep(out@) == spec_sweep_upto(base, r as int),
            spec_out_wf(om_deep(out@)),
        decreases n_rows - r,
    {
        let ghost pre_raw = out@;
        let ghost pre_row = out@[r as int].1;
        proof {
            assert(om_deep(pre_raw)[r as int].1 == pre_row@);
            assert forall|k: int| 0 <= k < pre_row@.len() implies (#[trigger] pre_row@[k].1).wf() by {
                assert(pre_row@[k].1 == om_deep(pre_raw)[r as int].1[k].1);
            }
        }
        let row = out.val_mut(r);
        let mut c: usize = 0;
        while c < CAT_COUNT
            invariant
                c <= CAT_COUNT,
                row@ == spec_sweep_row(pre_row@, c as int),
                forall|k: int| 0 <= k < row@.len() ==> (#[trigger] row@[k].1).wf(),
            decreases CAT_COUNT - c,
        {
            proof {
                lemma_om_upsert_vals(
                    row@,
                    spec_category_name(c as int),
                    Cell::spec_neutral(),
                    |cl: Cell| cl.wf(),
                );
            }
            row.upsert(category_name(c), Cell::neutral());
            c += 1;
        }
        proof {
            let post = om_deep(out@);
            let target = spec_sweep_upto(base, r + 1);
            assert(post.len() == target.len());
            assert forall|q: int| 0 <= q < post.len() implies post[q] == target[q] by {
                assert(om_deep(pre_raw)[q] == spec_sweep_upto(base, r as int)[q]);
                if q == r {
                    assert(pre_raw[q].1@ == base[q].1);
                    assert(pre_raw[q].0 == base[q].0);
                    assert(out@[q].1@ == spec_sweep_row(pre_row@, CAT_COUNT as int));
                    assert(out@[q].0 == pre_raw[q].0);
                } else {
                    assert(out@[q] == pre_raw[q]);
                }
            }
            assert(post =~= target);
            assert forall|q: int, k: int|
                0 <= q < post.len() && 0 <= k < post[q].1.len() implies (#[trigger] post[q].1[k].1).wf() by {
                if q != r {
                    assert(post[q] == om_deep(pre_raw)[q]);
                }
            }
        }
        r += 1;
    }
    proof {
        assert(spec_sweep_upto(base, base.len() as int) == om_deep(out@));
    }
    out
}

} // verus!
