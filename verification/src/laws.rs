//! The laws the pipeline obeys, stated over the specification functions the
//! executable contracts use.
use vstd::prelude::*;
use vstd::string::StringSliceAdditionalSpecFns;
use vstd::utf8::is_ascii_chars;

use crate::categories::{spec_category_name, spec_flags_fold, spec_ignored_name, spec_is_ignored, spec_meta_name, CAT_COUNT, IGNORE_COUNT, META_COUNT};
use crate::diag::Warning;
use crate::events::EventView;
use crate::matrix::{
    fold_akeys, fold_dkeys, spec_add_cat_rows, spec_calculate, spec_factor, spec_neutral_row,
    spec_pair_cell, spec_row, spec_rule, spec_sweep_row, spec_sweep_upto, spec_unit_rows,
};
use crate::modifier::{lemma_step_neutral, spec_cell_rounded, Cell, Modifier, SCALE};
use crate::omap::{
    lemma_om_get_member, lemma_om_get_none, lemma_om_get_upsert, lemma_om_upsert_vals, om_get,
    om_wf,
};
use crate::rules::{rules_run, spec_add_meta, spec_finish_unit, spec_unit_index, RulesState};

verus! {

/// The neutral balance rounds to exactly one hundred.
pub proof fn lemma_neutral_rounds_to_100()
    ensures
        spec_cell_rounded(Cell::spec_neutral()) == 100,
{
    assert((100 * SCALE) as u64 / SCALE == 100);
    assert((100 * SCALE) as u64 % SCALE == 0);
}

/// No rule between any attacker key and any defender key.
pub open spec fn no_rule_between(
    table: Seq<(Seq<u8>, Seq<(Seq<u8>, Modifier)>)>,
    akeys: Seq<Seq<u8>>,
    dkeys: Seq<Seq<u8>>,
) -> bool {
    forall|x: int, y: int|
        0 <= x < akeys.len() && 0 <= y < dkeys.len() ==> #[trigger] spec_rule(
            table,
            akeys[x],
            dkeys[y],
        ) is None
}

proof fn lemma_fold_dkeys_norule(
    bal: Cell,
    table: Seq<(Seq<u8>, Seq<(Seq<u8>, Modifier)>)>,
    ak: Seq<u8>,
    akx: int,
    akeys: Seq<Seq<u8>>,
    dkeys: Seq<Seq<u8>>,
    n: int,
)
    requires
        bal.wf(),
        n <= dkeys.len(),
        0 <= akx < akeys.len(),
        akeys[akx] == ak,
        no_rule_between(table, akeys, dkeys),
    ensures
        fold_dkeys(bal, table, ak, dkeys, n) == bal,
    decreases n,
{
    if n > 0 {
        lemma_fold_dkeys_norule(bal, table, ak, akx, akeys, dkeys, n - 1);
        assert(spec_rule(table, akeys[akx], dkeys[n - 1]) is None);
        assert(spec_factor(table, ak, dkeys[n - 1]) == Modifier::spec_neutral());
        lemma_step_neutral(bal);
    }
}

proof fn lemma_fold_akeys_norule(
    bal: Cell,
    table: Seq<(Seq<u8>, Seq<(Seq<u8>, Modifier)>)>,
    akeys: Seq<Seq<u8>>,
    dkeys: Seq<Seq<u8>>,
    n: int,
)
    requires
        bal.wf(),
        n <= akeys.len(),
        no_rule_between(table, akeys, dkeys),
    ensures
        fold_akeys(bal, table, akeys, dkeys, n) == bal,
    decreases n,
{
    if n > 0 {
        lemma_fold_akeys_norule(bal, table, akeys, dkeys, n - 1);
        lemma_fold_dkeys_norule(
            bal,
            table,
            akeys[n - 1],
            n - 1,
            akeys,
            dkeys,
            dkeys.len() as int,
        );
    }
}

/// Where the sparse table states nothing for a pair, directly or through any
/// category membership, the composed cell is exactly the neutral balance.
pub proof fn lemma_pair_cell_neutral(
    table: Seq<(Seq<u8>, Seq<(Seq<u8>, Modifier)>)>,
    akeys: Seq<Seq<u8>>,
    dkeys: Seq<Seq<u8>>,
)
    requires
        no_rule_between(table, akeys, dkeys),
    ensures
        spec_pair_cell(table, akeys, dkeys) == Cell::spec_neutral(),
{
    lemma_fold_akeys_norule(Cell::spec_neutral(), table, akeys, dkeys, akeys.len() as int);
}

/// Looking a row up after the sweep: a category column is neutral.
proof fn lemma_sweep_row_get_cat(row: Seq<(Seq<u8>, Cell)>, n: int, c: int)
    requires
        0 <= c < n,
    ensures
        om_get(spec_sweep_row(row, n), spec_category_name(c)) == Some(Cell::spec_neutral()),
    decreases n,
{
    lemma_om_get_upsert(
        spec_sweep_row(row, n - 1),
        spec_category_name(n - 1),
        Cell::spec_neutral(),
        spec_category_name(c),
    );
    if spec_category_name(c) != spec_category_name(n - 1) {
        lemma_sweep_row_get_cat(row, n - 1, c);
    }
}

/// Looking a row up after the sweep: a column that no category name matches
/// is untouched.
proof fn lemma_sweep_row_get_other(row: Seq<(Seq<u8>, Cell)>, n: int, k: Seq<u8>)
    requires
        forall|c: int| 0 <= c < n ==> k != spec_category_name(c),
    ensures
        om_get(spec_sweep_row(row, n), k) == om_get(row, k),
    decreases n,
{
    if n > 0 {
        lemma_sweep_row_get_other(row, n - 1, k);
        lemma_om_get_upsert(
            spec_sweep_row(row, n - 1),
            spec_category_name(n - 1),
            Cell::spec_neutral(),
            k,
        );
    }
}

/// Looking the swept table up: each row is its unswept self, swept.
proof fn lemma_sweep_all_get(rows: Seq<(Seq<u8>, Seq<(Seq<u8>, Cell)>)>, k: Seq<u8>)
    ensures
        om_get(spec_sweep_upto(rows, rows.len() as int), k) == match om_get(rows, k) {
            None => None::<Seq<(Seq<u8>, Cell)>>,
            Some(r) => Some(spec_sweep_row(r, CAT_COUNT as int)),
        },
    decreases rows.len(),
{
    let swept = spec_sweep_upto(rows, rows.len() as int);
    if rows.len() == 0 {
    } else if rows[0].0 == k {
    } else {
        lemma_sweep_all_get(rows.drop_first(), k);
        assert(swept.drop_first() =~= spec_sweep_upto(
            rows.drop_first(),
            rows.drop_first().len() as int,
        ));
    }
}

/// Looking the table up after the category rows went in: a category name
/// finds the neutral row.
proof fn lemma_addcats_get_cat(
    rows: Seq<(Seq<u8>, Seq<(Seq<u8>, Cell)>)>,
    index: Seq<(Seq<u8>, u32)>,
    n: int,
    c: int,
)
    requires
        0 <= c < n,
    ensures
        om_get(spec_add_cat_rows(rows, index, n), spec_category_name(c)) == Some(
            spec_neutral_row(index, index.len() as int),
        ),
    decreases n,
{
    lemma_om_get_upsert(
        spec_add_cat_rows(rows, index, n - 1),
        spec_category_name(n - 1),
        spec_neutral_row(index, index.len() as int),
        spec_category_name(c),
    );
    if spec_category_name(c) != spec_category_name(n - 1) {
        lemma_addcats_get_cat(rows, index, n - 1, c);
    }
}

/// Looking the table up after the category rows went in: a name that no
/// category name matches finds its old row.
proof fn lemma_addcats_get_other(
    rows: Seq<(Seq<u8>, Seq<(Seq<u8>, Cell)>)>,
    index: Seq<(Seq<u8>, u32)>,
    n: int,
    k: Seq<u8>,
)
    requires
        forall|c: int| 0 <= c < n ==> k != spec_category_name(c),
    ensures
        om_get(spec_add_cat_rows(rows, index, n), k) == om_get(rows, k),
    decreases n,
{
    if n > 0 {
        lemma_addcats_get_other(rows, index, n - 1, k);
        lemma_om_get_upsert(
            spec_add_cat_rows(rows, index, n - 1),
            spec_category_name(n - 1),
            spec_neutral_row(index, index.len() as int),
            k,
        );
    }
}

/// Every value the neutral row holds is the neutral balance.
proof fn lemma_neutral_row_vals(index: Seq<(Seq<u8>, u32)>, n: int)
    ensures
        forall|i: int|
            0 <= i < spec_neutral_row(index, n).len() ==> #[trigger] spec_neutral_row(
                index,
                n,
            )[i].1 == Cell::spec_neutral(),
    decreases n,
{
    if n > 0 {
        lemma_neutral_row_vals(index, n - 1);
        lemma_om_upsert_vals(
            spec_neutral_row(index, n - 1),
            index[n - 1].0,
            Cell::spec_neutral(),
            |c: Cell| c == Cell::spec_neutral(),
        );
    }
}

/// Sweeping keeps a row all-neutral.
proof fn lemma_sweep_row_vals_neutral(row: Seq<(Seq<u8>, Cell)>, n: int)
    requires
        forall|i: int| 0 <= i < row.len() ==> #[trigger] row[i].1 == Cell::spec_neutral(),
    ensures
        forall|i: int|
            0 <= i < spec_sweep_row(row, n).len() ==> #[trigger] spec_sweep_row(row, n)[i].1
                == Cell::spec_neutral(),
    decreases n,
{
    if n > 0 {
        lemma_sweep_row_vals_neutral(row, n - 1);
        lemma_om_upsert_vals(
            spec_sweep_row(row, n - 1),
            spec_category_name(n - 1),
            Cell::spec_neutral(),
            |c: Cell| c == Cell::spec_neutral(),
        );
    }
}

/// Category neutrality, attacker side: the output row of a fixed category
/// name holds the neutral balance in every cell, whatever the sparse table
/// said for that name.
pub proof fn lemma_category_attacker(
    index: Seq<(Seq<u8>, u32)>,
    table: Seq<(Seq<u8>, Seq<(Seq<u8>, Modifier)>)>,
    c: int,
)
    requires
        0 <= c < CAT_COUNT,
    ensures
        om_get(spec_calculate(index, table), spec_category_name(c)) matches Some(row)
            && (forall|b: Seq<u8>|
            #[trigger] om_get(row, b) matches Some(v) ==> v == Cell::spec_neutral()),
{
    let base = spec_add_cat_rows(
        spec_unit_rows(index, table, index.len() as int),
        index,
        CAT_COUNT as int,
    );
    lemma_addcats_get_cat(spec_unit_rows(index, table, index.len() as int), index, CAT_COUNT as int, c);
    lemma_sweep_all_get(base, spec_category_name(c));
    let nrow = spec_neutral_row(index, index.len() as int);
    let row = spec_sweep_row(nrow, CAT_COUNT as int);
    assert(om_get(spec_calculate(index, table), spec_category_name(c)) == Some(row));
    lemma_neutral_row_vals(index, index.len() as int);
    lemma_sweep_row_vals_neutral(nrow, CAT_COUNT as int);
    assert forall|b: Seq<u8>| #[trigger] om_get(row, b) is Some implies om_get(row, b)->0
        == Cell::spec_neutral() by {
        lemma_om_get_member(row, b);
    }
}

/// Category neutrality, defender side: in every output row, the column of a
/// fixed category name holds the neutral balance.
pub proof fn lemma_category_defender(
    index: Seq<(Seq<u8>, u32)>,
    table: Seq<(Seq<u8>, Seq<(Seq<u8>, Modifier)>)>,
    a: Seq<u8>,
    c: int,
)
    requires
        0 <= c < CAT_COUNT,
    ensures
        om_get(spec_calculate(index, table), a) matches Some(row) ==> om_get(
            row,
            spec_category_name(c),
        ) == Some(Cell::spec_neutral()),
{
    let base = spec_add_cat_rows(
        spec_unit_rows(index, table, index.len() as int),
        index,
        CAT_COUNT as int,
    );
    lemma_sweep_all_get(base, a);
    match om_get(base, a) {
        None => {},
        Some(r) => {
            lemma_sweep_row_get_cat(r, CAT_COUNT as int, c);
        },
    }
}

/// Looking up a unit's row among the composed rows.
proof fn lemma_unit_rows_get(
    index: Seq<(Seq<u8>, u32)>,
    table: Seq<(Seq<u8>, Seq<(Seq<u8>, Modifier)>)>,
    n: int,
    i: int,
)
    requires
        om_wf(index),
        0 <= i < n <= index.len(),
    ensures
        om_get(spec_unit_rows(index, table, n), index[i].0) == Some(
            spec_row(
                index,
                table,
                crate::categories::spec_keys_of(index[i].0, index[i].1),
                index.len() as int,
            ),
        ),
    decreases n,
{
    lemma_om_get_upsert(
        spec_unit_rows(index, table, n - 1),
        index[n - 1].0,
        spec_row(
            index,
            table,
            crate::categories::spec_keys_of(index[n - 1].0, index[n - 1].1),
            index.len() as int,
        ),
        index[i].0,
    );
    if i < n - 1 {
        assert(index[i].0 != index[n - 1].0);
        lemma_unit_rows_get(index, table, n - 1, i);
    }
}

/// Looking up one cell in a composed row.
proof fn lemma_row_get(
    index: Seq<(Seq<u8>, u32)>,
    table: Seq<(Seq<u8>, Seq<(Seq<u8>, Modifier)>)>,
    akeys: Seq<Seq<u8>>,
    n: int,
    j: int,
)
    requires
        om_wf(index),
        0 <= j < n <= index.len(),
    ensures
        om_get(spec_row(index, table, akeys, n), index[j].0) == Some(
            spec_pair_cell(
                table,
                akeys,
                crate::categories::spec_keys_of(index[j].0, index[j].1),
            ),
        ),
    decreases n,
{
    lemma_om_get_upsert(
        spec_row(index, table, akeys, n - 1),
        index[n - 1].0,
        spec_pair_cell(
            table,
            akeys,
            crate::categories::spec_keys_of(index[n - 1].0, index[n - 1].1),
        ),
        index[j].0,
    );
    if j < n - 1 {
        assert(index[j].0 != index[n - 1].0);
        lemma_row_get(index, table, akeys, n - 1, j);
    }
}

/// Neutral fallback: for a pair of index names, neither a fixed category
/// name, with no rule stated between them directly or through any category
/// membership, the output cell is exactly the neutral balance, which rounds
/// to one hundred.
pub proof fn lemma_neutral_fallback(
    index: Seq<(Seq<u8>, u32)>,
    table: Seq<(Seq<u8>, Seq<(Seq<u8>, Modifier)>)>,
    i: int,
    j: int,
)
    requires
        om_wf(index),
        0 <= i < index.len(),
        0 <= j < index.len(),
        forall|c: int| 0 <= c < CAT_COUNT ==> index[i].0 != spec_category_name(c),
        forall|c: int| 0 <= c < CAT_COUNT ==> index[j].0 != spec_category_name(c),
        no_rule_between(
            table,
            crate::categories::spec_keys_of(index[i].0, index[i].1),
            crate::categories::spec_keys_of(index[j].0, index[j].1),
        ),
    ensures
        om_get(spec_calculate(index, table), index[i].0) matches Some(row) && om_get(
            row,
            index[j].0,
        ) == Some(Cell::spec_neutral()),
        spec_cell_rounded(Cell::spec_neutral()) == 100,
{
    let akeys = crate::categories::spec_keys_of(index[i].0, index[i].1);
    let dkeys = crate::categories::spec_keys_of(index[j].0, index[j].1);
    let urows = spec_unit_rows(index, table, index.len() as int);
    let base = spec_add_cat_rows(urows, index, CAT_COUNT as int);
    lemma_addcats_get_other(urows, index, CAT_COUNT as int, index[i].0);
    lemma_unit_rows_get(index, table, index.len() as int, i);
    lemma_sweep_all_get(base, index[i].0);
    let urow = spec_row(index, table, akeys, index.len() as int);
    let row = spec_sweep_row(urow, CAT_COUNT as int);
    assert(om_get(spec_calculate(index, table), index[i].0) == Some(row));
    lemma_sweep_row_get_other(urow, CAT_COUNT as int, index[j].0);
    lemma_row_get(index, table, akeys, index.len() as int, j);
    lemma_pair_cell_neutral(table, akeys, dkeys);
    lemma_neutral_rounds_to_100();
}

/// Merge on duplicate: closing a unit record whose name is already indexed
/// with a different category set unions the two sets in place and logs one
/// warning, after any unknown-flag warnings of the record itself.
pub proof fn lemma_merge_on_duplicate(st: RulesState, prev_bits: u32)
    requires
        !spec_is_ignored(st.cur_name),
        om_get(st.index, st.cur_name) == Some(prev_bits),
        prev_bits != spec_flags_fold(st.cur_mask).0,
    ensures
        om_get(spec_finish_unit(st).index, st.cur_name) == Some(
            prev_bits | spec_flags_fold(st.cur_mask).0,
        ),
        spec_finish_unit(st).warns == (st.warns + spec_flags_fold(st.cur_mask).1).push(
            Warning::DuplicateUnit,
        ),
{
    let bits = spec_flags_fold(st.cur_mask).0;
    lemma_om_get_upsert(st.index, st.cur_name, prev_bits | bits, st.cur_name);
}

/// Round-trip determinism: two runs over identical source bytes denote
/// identical output bytes and warnings. `rebuild_balance` returns exactly
/// `spec_rebuild` of its inputs, so two runs on equal inputs agree
/// byte for byte.
pub proof fn lemma_rebuild_deterministic(r1: Seq<u8>, b1: Seq<u8>, r2: Seq<u8>, b2: Seq<u8>)
    requires
        r1 == r2,
        b1 == b2,
    ensures
        crate::pipeline::spec_rebuild(r1, b1) == crate::pipeline::spec_rebuild(r2, b2),
{
}

/// No record ever puts an ignore-listed name into the index.
proof fn lemma_run_no_ignored(evs: Seq<EventView>, n: int, k: Seq<u8>)
    requires
        spec_is_ignored(k),
    ensures
        rules_run(evs, n) matches Ok(st) ==> om_get(st.index, k) is None,
    decreases n,
{
    if n <= 0 {
    } else {
        lemma_run_no_ignored(evs, n - 1, k);
        match rules_run(evs, n - 1) {
            Err(_) => {},
            Ok(st) => {
                match evs[n - 1] {
                    EventView::Close(nm) => {
                        if nm == "UNIT".spec_bytes() && !(nm == "NAME".spec_bytes() && st.in_unit)
                            && !(nm == "OBJ_MASK".spec_bytes() && st.in_unit) {
                            if !spec_is_ignored(st.cur_name) {
                                let bits = spec_flags_fold(st.cur_mask).0;
                                let merged = match om_get(st.index, st.cur_name) {
                                    None => bits,
                                    Some(p) => p | bits,
                                };
                                lemma_om_get_upsert(st.index, st.cur_name, bits, k);
                                match om_get(st.index, st.cur_name) {
                                    Some(p) => {
                                        lemma_om_get_upsert(st.index, st.cur_name, p | bits, k);
                                    },
                                    None => {},
                                }
                            }
                        }
                    },
                    _ => {},
                }
            },
        }
    }
}

/// Appending meta names cannot introduce an ignore-listed key.
proof fn lemma_add_meta_no_k(index: Seq<(Seq<u8>, u32)>, n: int, k: Seq<u8>)
    requires
        om_get(index, k) is None,
        forall|m: int| 0 <= m < n ==> k != spec_meta_name(m),
    ensures
        om_get(spec_add_meta(index, n), k) is None,
    decreases n,
{
    if n > 0 {
        lemma_add_meta_no_k(index, n - 1, k);
        match om_get(spec_add_meta(index, n - 1), spec_meta_name(n - 1)) {
            Some(_) => {},
            None => {
                lemma_om_get_upsert(spec_add_meta(index, n - 1), spec_meta_name(n - 1), 0u32, k);
            },
        }
    }
}

/// A key the index does not hold heads no composed row.
proof fn lemma_unit_rows_get_absent(
    index: Seq<(Seq<u8>, u32)>,
    table: Seq<(Seq<u8>, Seq<(Seq<u8>, Modifier)>)>,
    n: int,
    k: Seq<u8>,
)
    requires
        n <= index.len(),
        forall|m: int| 0 <= m < index.len() ==> index[m].0 != k,
    ensures
        om_get(spec_unit_rows(index, table, n), k) is None,
    decreases n,
{
    if n > 0 {
        lemma_unit_rows_get_absent(index, table, n - 1, k);
        lemma_om_get_upsert(
            spec_unit_rows(index, table, n - 1),
            index[n - 1].0,
            spec_row(
                index,
                table,
                crate::categories::spec_keys_of(index[n - 1].0, index[n - 1].1),
                index.len() as int,
            ),
            k,
        );
    }
}

/// A key the index does not hold names no column of a composed row.
proof fn lemma_row_get_absent(
    index: Seq<(Seq<u8>, u32)>,
    table: Seq<(Seq<u8>, Seq<(Seq<u8>, Modifier)>)>,
    akeys: Seq<Seq<u8>>,
    n: int,
    k: Seq<u8>,
)
    requires
        n <= index.len(),
        forall|m: int| 0 <= m < index.len() ==> index[m].0 != k,
    ensures
        om_get(spec_row(index, table, akeys, n), k) is None,
    decreases n,
{
    if n > 0 {
        lemma_row_get_absent(index, table, akeys, n - 1, k);
        lemma_om_get_upsert(
            spec_row(index, table, akeys, n - 1),
            index[n - 1].0,
            spec_pair_cell(
                table,
                akeys,
                crate::categories::spec_keys_of(index[n - 1].0, index[n - 1].1),
            ),
            k,
        );
    }
}

/// Nor any column of the neutral row.
proof fn lemma_neutral_row_get_absent(index: Seq<(Seq<u8>, u32)>, n: int, k: Seq<u8>)
    requires
        n <= index.len(),
        forall|m: int| 0 <= m < index.len() ==> index[m].0 != k,
    ensures
        om_get(spec_neutral_row(index, n), k) is None,
    decreases n,
{
    if n > 0 {
        lemma_neutral_row_get_absent(index, n - 1, k);
        lemma_om_get_upsert(
            spec_neutral_row(index, n - 1),
            index[n - 1].0,
            Cell::spec_neutral(),
            k,
        );
    }
}

/// Ignore-list exclusion: an ignore-listed name is neither in the unit index
/// nor a row or column of the output table.
pub proof fn lemma_ignored_excluded(
    evs: Seq<EventView>,
    table: Seq<(Seq<u8>, Seq<(Seq<u8>, Modifier)>)>,
    k: Seq<u8>,
)
    requires
        spec_is_ignored(k),
        spec_unit_index(evs) is Ok,
    ensures
        ({
            let idx = spec_unit_index(evs)->Ok_0.0;
            let out = spec_calculate(idx, table);
            om_get(idx, k) is None && om_get(out, k) is None && (forall|a: Seq<u8>|
                #[trigger] om_get(out, a) matches Some(row) ==> om_get(row, k) is None)
        }),
{
    let idx = spec_unit_index(evs)->Ok_0.0;
    lemma_ignored_is_no_meta_or_category(k);
    lemma_run_no_ignored(evs, evs.len() as int, k);
    let st = rules_run(evs, evs.len() as int)->Ok_0;
    lemma_add_meta_no_k(st.index, META_COUNT as int, k);
    assert(om_get(idx, k) is None);
    lemma_om_get_none(idx, k);

    let urows = spec_unit_rows(idx, table, idx.len() as int);
    let base = spec_add_cat_rows(urows, idx, CAT_COUNT as int);
    let out = spec_calculate(idx, table);

    // Not a row.
    lemma_addcats_get_other(urows, idx, CAT_COUNT as int, k);
    lemma_unit_rows_get_absent(idx, table, idx.len() as int, k);
    lemma_sweep_all_get(base, k);
    assert(om_get(out, k) is None);

    // Not a column of any row.
    assert forall|a: Seq<u8>| #[trigger] om_get(out, a) is Some implies om_get(
        om_get(out, a)->0,
        k,
    ) is None by {
        {
            lemma_sweep_all_get(base, a);
            let r0 = om_get(base, a)->0;
            lemma_sweep_row_get_other(r0, CAT_COUNT as int, k);
            lemma_addcats_get_other_or_cat(urows, idx, CAT_COUNT as int, a);
            if om_get(urows, a) is Some && om_get(base, a) == om_get(urows, a) {
                lemma_urows_rows_absent_col(idx, table, idx.len() as int, a, k);
            } else {
                lemma_neutral_row_get_absent(idx, idx.len() as int, k);
            }
        }
    }
}

/// After the category rows go in, a found row is either a row that was
/// already there or the neutral row.
proof fn lemma_addcats_get_other_or_cat(
    rows: Seq<(Seq<u8>, Seq<(Seq<u8>, Cell)>)>,
    index: Seq<(Seq<u8>, u32)>,
    n: int,
    a: Seq<u8>,
)
    ensures
        om_get(spec_add_cat_rows(rows, index, n), a) == om_get(rows, a) || om_get(
            spec_add_cat_rows(rows, index, n),
            a,
        ) == Some(spec_neutral_row(index, index.len() as int)),
    decreases n,
{
    if n > 0 {
        lemma_addcats_get_other_or_cat(rows, index, n - 1, a);
        lemma_om_get_upsert(
            spec_add_cat_rows(rows, index, n - 1),
            spec_category_name(n - 1),
            spec_neutral_row(index, index.len() as int),
            a,
        );
    }
}

/// Every row among the composed rows is a composed row over the index, so a
/// key absent from the index is absent from each.
proof fn lemma_urows_rows_absent_col(
    index: Seq<(Seq<u8>, u32)>,
    table: Seq<(Seq<u8>, Seq<(Seq<u8>, Modifier)>)>,
    n: int,
    a: Seq<u8>,
    k: Seq<u8>,
)
    requires
        n <= index.len(),
        forall|m: int| 0 <= m < index.len() ==> index[m].0 != k,
        om_get(spec_unit_rows(index, table, n), a) is Some,
    ensures
        om_get(om_get(spec_unit_rows(index, table, n), a)->0, k) is None,
    decreases n,
{
    if n > 0 {
        lemma_om_get_upsert(
            spec_unit_rows(index, table, n - 1),
            index[n - 1].0,
            spec_row(
                index,
                table,
                crate::categories::spec_keys_of(index[n - 1].0, index[n - 1].1),
                index.len() as int,
            ),
            a,
        );
        if a == index[n - 1].0 {
            lemma_row_get_absent(
                index,
                table,
                crate::categories::spec_keys_of(index[n - 1].0, index[n - 1].1),
                index.len() as int,
                k,
            );
        } else {
            lemma_urows_rows_absent_col(index, table, n - 1, a, k);
        }
    }
}

/// The literal shape of each meta name: at most nine bytes, and the one
/// nine-byte name starts with `B`.
proof fn lemma_meta_fact(m: int)
    requires
        0 <= m < META_COUNT,
    ensures
        spec_meta_name(m).len() <= 7 || spec_meta_name(m).len() == 9,
        spec_meta_name(m).len() == 9 ==> spec_meta_name(m)[0] == 66u8,
{
    if m == 0 {
        reveal_strlit("SIEGE");
        assert(is_ascii_chars("SIEGE"@)) by {
            assert forall|q: int| 0 <= q < "SIEGE"@.len() implies '\0' <= #[trigger] "SIEGE"@[q]
                <= '\u{7f}' by {}
        }
        vstd::string::is_ascii_spec_bytes("SIEGE");
        assert("SIEGE".spec_bytes().len() == 5);
    } else if m == 1 {
        reveal_strlit("FORTS");
        assert(is_ascii_chars("FORTS"@)) by {
            assert forall|q: int| 0 <= q < "FORTS"@.len() implies '\0' <= #[trigger] "FORTS"@[q]
                <= '\u{7f}' by {}
        }
        vstd::string::is_ascii_spec_bytes("FORTS");
        assert("FORTS".spec_bytes().len() == 5);
    } else if m == 2 {
        reveal_strlit("TOWERS");
        assert(is_ascii_chars("TOWERS"@)) by {
            assert forall|q: int| 0 <= q < "TOWERS"@.len() implies '\0' <= #[trigger] "TOWERS"@[q]
                <= '\u{7f}' by {}
        }
        vstd::string::is_ascii_spec_bytes("TOWERS");
        assert("TOWERS".spec_bytes().len() == 6);
    } else if m == 3 {
        reveal_strlit("CITIES");
        assert(is_ascii_chars("CITIES"@)) by {
            assert forall|q: int| 0 <= q < "CITIES"@.len() implies '\0' <= #[trigger] "CITIES"@[q]
                <= '\u{7f}' by {}
        }
        vstd::string::is_ascii_spec_bytes("CITIES");
        assert("CITIES".spec_bytes().len() == 6);
    } else if m == 4 {
        reveal_strlit("OBSPOST");
        assert(is_ascii_chars("OBSPOST"@)) by {
            assert forall|q: int| 0 <= q < "OBSPOST"@.len() implies '\0' <= #[trigger] "OBSPOST"@[q]
                <= '\u{7f}' by {}
        }
        vstd::string::is_ascii_spec_bytes("OBSPOST");
        assert("OBSPOST".spec_bytes().len() == 7);
    } else if m == 5 {
        reveal_strlit("BUILDINGS");
        assert(is_ascii_chars("BUILDINGS"@)) by {
            assert forall|q: int| 0 <= q < "BUILDINGS"@.len() implies '\0' <= #[trigger] "BUILDINGS"@[q]
                <= '\u{7f}' by {}
        }
        vstd::string::is_ascii_spec_bytes("BUILDINGS");
        assert("BUILDINGS".spec_bytes().len() == 9);
        assert("BUILDINGS".spec_bytes()[0] == 66u8);
    } else if m == 6 {
        reveal_strlit("UNITS");
        assert(is_ascii_chars("UNITS"@)) by {
            assert forall|q: int| 0 <= q < "UNITS"@.len() implies '\0' <= #[trigger] "UNITS"@[q]
                <= '\u{7f}' by {}
        }
        vstd::string::is_ascii_spec_bytes("UNITS");
        assert("UNITS".spec_bytes().len() == 5);
    } else if m == 7 {
        reveal_strlit("AGE_0");
        assert(is_ascii_chars("AGE_0"@)) by {
            assert forall|q: int| 0 <= q < "AGE_0"@.len() implies '\0' <= #[trigger] "AGE_0"@[q]
                <= '\u{7f}' by {}
        }
        vstd::string::is_ascii_spec_bytes("AGE_0");
        assert("AGE_0".spec_bytes().len() == 5);
    } else if m == 8 {
        reveal_strlit("AGE_1");
        assert(is_ascii_chars("AGE_1"@)) by {
            assert forall|q: int| 0 <= q < "AGE_1"@.len() implies '\0' <= #[trigger] "AGE_1"@[q]
                <= '\u{7f}' by {}
        }
        vstd::string::is_ascii_spec_bytes("AGE_1");
        assert("AGE_1".spec_bytes().len() == 5);
    } else if m == 9 {
        reveal_strlit("AGE_2");
        assert(is_ascii_chars("AGE_2"@)) by {
            assert forall|q: int| 0 <= q < "AGE_2"@.len() implies '\0' <= #[trigger] "AGE_2"@[q]
                <= '\u{7f}' by {}
        }
        vstd::string::is_ascii_spec_bytes("AGE_2");
        assert("AGE_2".spec_bytes().len() == 5);
    } else if m == 10 {
        reveal_strlit("AGE_3");
        assert(is_ascii_chars("AGE_3"@)) by {
            assert forall|q: int| 0 <= q < "AGE_3"@.len() implies '\0' <= #[trigger] "AGE_3"@[q]
                <= '\u{7f}' by {}
        }
        vstd::string::is_ascii_spec_bytes("AGE_3");
        assert("AGE_3".spec_bytes().len() == 5);
    } else if m == 11 {
        reveal_strlit("AGE_4");
        assert(is_ascii_chars("AGE_4"@)) by {
            assert forall|q: int| 0 <= q < "AGE_4"@.len() implies '\0' <= #[trigger] "AGE_4"@[q]
                <= '\u{7f}' by {}
        }
        vstd::string::is_ascii_spec_bytes("AGE_4");
        assert("AGE_4".spec_bytes().len() == 5);
    } else if m == 12 {
        reveal_strlit("AGE_5");
        assert(is_ascii_chars("AGE_5"@)) by {
            assert forall|q: int| 0 <= q < "AGE_5"@.len() implies '\0' <= #[trigger] "AGE_5"@[q]
                <= '\u{7f}' by {}
        }
        vstd::string::is_ascii_spec_bytes("AGE_5");
        assert("AGE_5".spec_bytes().len() == 5);
    } else if m == 13 {
        reveal_strlit("AGE_6");
        assert(is_ascii_chars("AGE_6"@)) by {
            assert forall|q: int| 0 <= q < "AGE_6"@.len() implies '\0' <= #[trigger] "AGE_6"@[q]
                <= '\u{7f}' by {}
        }
        vstd::string::is_ascii_spec_bytes("AGE_6");
        assert("AGE_6".spec_bytes().len() == 5);
    } else {
        reveal_strlit("AGE_7");
        assert(is_ascii_chars("AGE_7"@)) by {
            assert forall|q: int| 0 <= q < "AGE_7"@.len() implies '\0' <= #[trigger] "AGE_7"@[q]
                <= '\u{7f}' by {}
        }
        vstd::string::is_ascii_spec_bytes("AGE_7");
        assert("AGE_7".spec_bytes().len() == 5);
    }
}

/// The literal shape of each ignore-list name: eight to twelve bytes, never
/// starting with `B`.
proof fn lemma_ignored_fact(m: int)
    requires
        0 <= m < IGNORE_COUNT,
    ensures
        8 <= spec_ignored_name(m).len() <= 12,
        spec_ignored_name(m)[0] != 66u8,
{
    if m == 0 {
        reveal_strlit("Fur_Trapper");
        assert(is_ascii_chars("Fur_Trapper"@)) by {
            assert forall|q: int| 0 <= q < "Fur_Trapper"@.len() implies '\0' <= #[trigger] "Fur_Trapper"@[q]
                <= '\u{7f}' by {}
        }
        vstd::string::is_ascii_spec_bytes("Fur_Trapper");
        assert("Fur_Trapper".spec_bytes().len() == 11);
        assert("Fur_Trapper".spec_bytes()[0] == 70u8);
    } else if m == 1 {
        reveal_strlit("Wild_Bird");
        assert(is_ascii_chars("Wild_Bird"@)) by {
            assert forall|q: int| 0 <= q < "Wild_Bird"@.len() implies '\0' <= #[trigger] "Wild_Bird"@[q]
                <= '\u{7f}' by {}
        }
        vstd::string::is_ascii_spec_bytes("Wild_Bird");
        assert("Wild_Bird".spec_bytes().len() == 9);
        assert("Wild_Bird".spec_bytes()[0] == 87u8);
    } else if m == 2 {
        reveal_strlit("Flock_Bird");
        assert(is_ascii_chars("Flock_Bird"@)) by {
            assert forall|q: int| 0 <= q < "Flock_Bird"@.len() implies '\0' <= #[trigger] "Flock_Bird"@[q]
                <= '\u{7f}' by {}
        }
        vstd::string::is_ascii_spec_bytes("Flock_Bird");
        assert("Flock_Bird".spec_bytes().len() == 10);
        assert("Flock_Bird".spec_bytes()[0] == 70u8);
    } else if m == 3 {
        reveal_strlit("Gull_Bird");
        assert(is_ascii_chars("Gull_Bird"@)) by {
            assert forall|q: int| 0 <= q < "Gull_Bird"@.len() implies '\0' <= #[trigger] "Gull_Bird"@[q]
                <= '\u{7f}' by {}
        }
        vstd::string::is_ascii_spec_bytes("Gull_Bird");
        assert("Gull_Bird".spec_bytes().len() == 9);
        assert("Gull_Bird".spec_bytes()[0] == 71u8);
    } else if m == 4 {
        reveal_strlit("Farm_Pig");
        assert(is_ascii_chars("Farm_Pig"@)) by {
            assert forall|q: int| 0 <= q < "Farm_Pig"@.len() implies '\0' <= #[trigger] "Farm_Pig"@[q]
                <= '\u{7f}' by {}
        }
        vstd::string::is_ascii_spec_bytes("Farm_Pig");
        assert("Farm_Pig".spec_bytes().len() == 8);
        assert("Farm_Pig".spec_bytes()[0] == 70u8);
    } else if m == 5 {
        reveal_strlit("Farm_Chicken");
        assert(is_ascii_chars("Farm_Chicken"@)) by {
            assert forall|q: int| 0 <= q < "Farm_Chicken"@.len() implies '\0' <= #[trigger] "Farm_Chicken"@[q]
                <= '\u{7f}' by {}
        }
        vstd::string::is_ascii_spec_bytes("Farm_Chicken");
        assert("Farm_Chicken".spec_bytes().len() == 12);
        assert("Farm_Chicken".spec_bytes()[0] == 70u8);
    } else if m == 6 {
        reveal_strlit("Herd_Horse");
        assert(is_ascii_chars("Herd_Horse"@)) by {
            assert forall|q: int| 0 <= q < "Herd_Horse"@.len() implies '\0' <= #[trigger] "Herd_Horse"@[q]
                <= '\u{7f}' by {}
        }
        vstd::string::is_ascii_spec_bytes("Herd_Horse");
        assert("Herd_Horse".spec_bytes().len() == 10);
        assert("Herd_Horse".spec_bytes()[0] == 72u8);
    } else if m == 7 {
        reveal_strlit("Herd_Sheep");
        assert(is_ascii_chars("Herd_Sheep"@)) by {
            assert forall|q: int| 0 <= q < "Herd_Sheep"@.len() implies '\0' <= #[trigger] "Herd_Sheep"@[q]
                <= '\u{7f}' by {}
        }
        vstd::string::is_ascii_spec_bytes("Herd_Sheep");
        assert("Herd_Sheep".spec_bytes().len() == 10);
        assert("Herd_Sheep".spec_bytes()[0] == 72u8);
    } else if m == 8 {
        reveal_strlit("Herd_Bison");
        assert(is_ascii_chars("Herd_Bison"@)) by {
            assert forall|q: int| 0 <= q < "Herd_Bison"@.len() implies '\0' <= #[trigger] "Herd_Bison"@[q]
                <= '\u{7f}' by {}
        }
        vstd::string::is_ascii_spec_bytes("Herd_Bison");
        assert("Herd_Bison".spec_bytes().len() == 10);
        assert("Herd_Bison".spec_bytes()[0] == 72u8);
    } else if m == 9 {
        reveal_strlit("Herd_Bear");
        assert(is_ascii_chars("Herd_Bear"@)) by {
            assert forall|q: int| 0 <= q < "Herd_Bear"@.len() implies '\0' <= #[trigger] "Herd_Bear"@[q]
                <= '\u{7f}' by {}
        }
        vstd::string::is_ascii_spec_bytes("Herd_Bear");
        assert("Herd_Bear".spec_bytes().len() == 9);
        assert("Herd_Bear".spec_bytes()[0] == 72u8);
    } else if m == 10 {
        reveal_strlit("Herd_Fish");
        assert(is_ascii_chars("Herd_Fish"@)) by {
            assert forall|q: int| 0 <= q < "Herd_Fish"@.len() implies '\0' <= #[trigger] "Herd_Fish"@[q]
                <= '\u{7f}' by {}
        }
        vstd::string::is_ascii_spec_bytes("Herd_Fish");
        assert("Herd_Fish".spec_bytes().len() == 9);
        assert("Herd_Fish".spec_bytes()[0] == 72u8);
    } else if m == 11 {
        reveal_strlit("Herd_Whales");
        assert(is_ascii_chars("Herd_Whales"@)) by {
            assert forall|q: int| 0 <= q < "Herd_Whales"@.len() implies '\0' <= #[trigger] "Herd_Whales"@[q]
                <= '\u{7f}' by {}
        }
        vstd::string::is_ascii_spec_bytes("Herd_Whales");
        assert("Herd_Whales".spec_bytes().len() == 11);
        assert("Herd_Whales".spec_bytes()[0] == 72u8);
    } else {
        reveal_strlit("Herd_Peacock");
        assert(is_ascii_chars("Herd_Peacock"@)) by {
            assert forall|q: int| 0 <= q < "Herd_Peacock"@.len() implies '\0' <= #[trigger] "Herd_Peacock"@[q]
                <= '\u{7f}' by {}
        }
        vstd::string::is_ascii_spec_bytes("Herd_Peacock");
        assert("Herd_Peacock".spec_bytes().len() == 12);
        assert("Herd_Peacock".spec_bytes()[0] == 72u8);
    }
}

/// The literal shape of each category name: at least eighteen bytes.
#[verifier::rlimit(50)]
proof fn lemma_cat_fact(m: int)
    requires
        0 <= m < CAT_COUNT,
    ensures
        spec_category_name(m).len() >= 18,
{
    if m == 0 {
        reveal_strlit("Flag_A_OBJMASK_ARMORED");
        assert(is_ascii_chars("Flag_A_OBJMASK_ARMORED"@)) by {
            assert forall|q: int| 0 <= q < "Flag_A_OBJMASK_ARMORED"@.len() implies '\0' <= #[trigger] "Flag_A_OBJMASK_ARMORED"@[q]
                <= '\u{7f}' by {}
        }
        vstd::string::is_ascii_spec_bytes("Flag_A_OBJMASK_ARMORED");
        assert("Flag_A_OBJMASK_ARMORED".spec_bytes().len() == 22);
    } else if m == 1 {
        reveal_strlit("Flag_B_OBJMASK_BOMBARD");
        assert(is_ascii_chars("Flag_B_OBJMASK_BOMBARD"@)) by {
            assert forall|q: int| 0 <= q < "Flag_B_OBJMASK_BOMBARD"@.len() implies '\0' <= #[trigger] "Flag_B_OBJMASK_BOMBARD"@[q]
                <= '\u{7f}' by {}
        }
        vstd::string::is_ascii_spec_bytes("Flag_B_OBJMASK_BOMBARD");
        assert("Flag_B_OBJMASK_BOMBARD".spec_bytes().len() == 22);
    } else if m == 2 {
        reveal_strlit("Flag_C_OBJMASK_CIVILIAN");
        assert(is_ascii_chars("Flag_C_OBJMASK_CIVILIAN"@)) by {
            assert forall|q: int| 0 <= q < "Flag_C_OBJMASK_CIVILIAN"@.len() implies '\0' <= #[trigger] "Flag_C_OBJMASK_CIVILIAN"@[q]
                <= '\u{7f}' by {}
        }
        vstd::string::is_ascii_spec_bytes("Flag_C_OBJMASK_CIVILIAN");
        assert("Flag_C_OBJMASK_CIVILIAN".spec_bytes().len() == 23);
    } else if m == 3 {
        reveal_strlit("Flag_D_OBJMASK_MUSKET_INF");
        assert(is_ascii_chars("Flag_D_OBJMASK_MUSKET_INF"@)) by {
            assert forall|q: int| 0 <= q < "Flag_D_OBJMASK_MUSKET_INF"@.len() implies '\0' <= #[trigger] "Flag_D_OBJMASK_MUSKET_INF"@[q]
                <= '\u{7f}' by {}
        }
        vstd::string::is_ascii_spec_bytes("Flag_D_OBJMASK_MUSKET_INF");
        assert("Flag_D_OBJMASK_MUSKET_INF".spec_bytes().len() == 25);
    } else if m == 4 {
        reveal_strlit("Flag_E_OBJMASK_ELEPHANT");
        assert(is_ascii_chars("Flag_E_OBJMASK_ELEPHANT"@)) by {
            assert forall|q: int| 0 <= q < "Flag_E_OBJMASK_ELEPHANT"@.len() implies '\0' <= #[trigger] "Flag_E_OBJMASK_ELEPHANT"@[q]
                <= '\u{7f}' by {}
        }
        vstd::string::is_ascii_spec_bytes("Flag_E_OBJMASK_ELEPHANT");
        assert("Flag_E_OBJMASK_ELEPHANT".spec_bytes().len() == 23);
    } else if m == 5 {
        reveal_strlit("Flag_F_OBJMASK_FOOT");
        assert(is_ascii_chars("Flag_F_OBJMASK_FOOT"@)) by {
            assert forall|q: int| 0 <= q < "Flag_F_OBJMASK_FOOT"@.len() implies '\0' <= #[trigger] "Flag_F_OBJMASK_FOOT"@[q]
                <= '\u{7f}' by {}
        }
        vstd::string::is_ascii_spec_bytes("Flag_F_OBJMASK_FOOT");
        assert("Flag_F_OBJMASK_FOOT".spec_bytes().len() == 19);
    } else if m == 6 {
        reveal_strlit("Flag_G_OBJMASK_GUN");
        assert(is_ascii_chars("Flag_G_OBJMASK_GUN"@)) by {
            assert forall|q: int| 0 <= q < "Flag_G_OBJMASK_GUN"@.len() implies '\0' <= #[trigger] "Flag_G_OBJMASK_GUN"@[q]
                <= '\u{7f}' by {}
        }
        vstd::string::is_ascii_spec_bytes("Flag_G_OBJMASK_GUN");
        assert("Flag_G_OBJMASK_GUN".spec_bytes().len() == 18);
    } else if m == 7 {
        reveal_strlit("Flag_H_OBJMASK_HEAVY_INF");
        assert(is_ascii_chars("Flag_H_OBJMASK_HEAVY_INF"@)) by {
            assert forall|q: int| 0 <= q < "Flag_H_OBJMASK_HEAVY_INF"@.len() implies '\0' <= #[trigger] "Flag_H_OBJMASK_HEAVY_INF"@[q]
                <= '\u{7f}' by {}
        }
        vstd::string::is_ascii_spec_bytes("Flag_H_OBJMASK_HEAVY_INF");
        assert("Flag_H_OBJMASK_HEAVY_INF".spec_bytes().len() == 24);
    } else if m == 8 {
        reveal_strlit("Flag_I_OBJMASK_MODERN_INF");
        assert(is_ascii_chars("Flag_I_OBJMASK_MODERN_INF"@)) by {
            assert forall|q: int| 0 <= q < "Flag_I_OBJMASK_MODERN_INF"@.len() implies '\0' <= #[trigger] "Flag_I_OBJMASK_MODERN_INF"@[q]
                <= '\u{7f}' by {}
        }
        vstd::string::is_ascii_spec_bytes("Flag_I_OBJMASK_MODERN_INF");
        assert("Flag_I_OBJMASK_MODERN_INF".spec_bytes().len() == 25);
    } else if m == 9 {
        reveal_strlit("Flag_J_OBJMASK_CARRY_AIR");
        assert(is_ascii_chars("Flag_J_OBJMASK_CARRY_AIR"@)) by {
            assert forall|q: int| 0 <= q < "Flag_J_OBJMASK_CARRY_AIR"@.len() implies '\0' <= #[trigger] "Flag_J_OBJMASK_CARRY_AIR"@[q]
                <= '\u{7f}' by {}
        }
        vstd::string::is_ascii_spec_bytes("Flag_J_OBJMASK_CARRY_AIR");
        assert("Flag_J_OBJMASK_CARRY_AIR".spec_bytes().len() == 24);
    } else if m == 10 {
        reveal_strlit("Flag_K_OBJMASK_FOOT_ARCHER");
        assert(is_ascii_chars("Flag_K_OBJMASK_FOOT_ARCHER"@)) by {
            assert forall|q: int| 0 <= q < "Flag_K_OBJMASK_FOOT_ARCHER"@.len() implies '\0' <= #[trigger] "Flag_K_OBJMASK_FOOT_ARCHER"@[q]
                <= '\u{7f}' by {}
        }
        vstd::string::is_ascii_spec_bytes("Flag_K_OBJMASK_FOOT_ARCHER");
        assert("Flag_K_OBJMASK_FOOT_ARCHER".spec_bytes().len() == 26);
    } else if m == 11 {
        reveal_strlit("Flag_L_OBJMASK_LARGE");
        assert(is_ascii_chars("Flag_L_OBJMASK_LARGE"@)) by {
            assert forall|q: int| 0 <= q < "Flag_L_OBJMASK_LARGE"@.len() implies '\0' <= #[trigger] "Flag_L_OBJMASK_LARGE"@[q]
                <= '\u{7f}' by {}
        }
        vstd::string::is_ascii_spec_bytes("Flag_L_OBJMASK_LARGE");
        assert("Flag_L_OBJMASK_LARGE".spec_bytes().len() == 20);
    } else if m == 12 {
        reveal_strlit("Flag_M_OBJMASK_MOUNTED");
        assert(is_ascii_chars("Flag_M_OBJMASK_MOUNTED"@)) by {
            assert forall|q: int| 0 <= q < "Flag_M_OBJMASK_MOUNTED"@.len() implies '\0' <= #[trigger] "Flag_M_OBJMASK_MOUNTED"@[q]
                <= '\u{7f}' by {}
        }
        vstd::string::is_ascii_spec_bytes("Flag_M_OBJMASK_MOUNTED");
        assert("Flag_M_OBJMASK_MOUNTED".spec_bytes().len() == 22);
    } else if m == 13 {
        reveal_strlit("Flag_N_OBJMASK_NAVAL");
        assert(is_ascii_chars("Flag_N_OBJMASK_NAVAL"@)) by {
            assert forall|q: int| 0 <= q < "Flag_N_OBJMASK_NAVAL"@.len() implies '\0' <= #[trigger] "Flag_N_OBJMASK_NAVAL"@[q]
                <= '\u{7f}' by {}
        }
        vstd::string::is_ascii_spec_bytes("Flag_N_OBJMASK_NAVAL");
        assert("Flag_N_OBJMASK_NAVAL".spec_bytes().len() == 20);
    } else if m == 14 {
        reveal_strlit("Flag_O_OBJMASK_HORSE_ARCHER");
        assert(is_ascii_chars("Flag_O_OBJMASK_HORSE_ARCHER"@)) by {
            assert forall|q: int| 0 <= q < "Flag_O_OBJMASK_HORSE_ARCHER"@.len() implies '\0' <= #[trigger] "Flag_O_OBJMASK_HORSE_ARCHER"@[q]
                <= '\u{7f}' by {}
        }
        vstd::string::is_ascii_spec_bytes("Flag_O_OBJMASK_HORSE_ARCHER");
        assert("Flag_O_OBJMASK_HORSE_ARCHER".spec_bytes().len() == 27);
    } else if m == 15 {
        reveal_strlit("Flag_P_OBJMASK_SPARSE");
        assert(is_ascii_chars("Flag_P_OBJMASK_SPARSE"@)) by {
            assert forall|q: int| 0 <= q < "Flag_P_OBJMASK_SPARSE"@.len() implies '\0' <= #[trigger] "Flag_P_OBJMASK_SPARSE"@[q]
                <= '\u{7f}' by {}
        }
        vstd::string::is_ascii_spec_bytes("Flag_P_OBJMASK_SPARSE");
        assert("Flag_P_OBJMASK_SPARSE".spec_bytes().len() == 21);
    } else if m == 16 {
        reveal_strlit("Flag_Q_OBJMASK_LIGHT_INF");
        assert(is_ascii_chars("Flag_Q_OBJMASK_LIGHT_INF"@)) by {
            assert forall|q: int| 0 <= q < "Flag_Q_OBJMASK_LIGHT_INF"@.len() implies '\0' <= #[trigger] "Flag_Q_OBJMASK_LIGHT_INF"@[q]
                <= '\u{7f}' by {}
        }
        vstd::string::is_ascii_spec_bytes("Flag_Q_OBJMASK_LIGHT_INF");
        assert("Flag_Q_OBJMASK_LIGHT_INF".spec_bytes().len() == 24);
    } else if m == 17 {
        reveal_strlit("Flag_R_OBJMASK_ARCHERY");
        assert(is_ascii_chars("Flag_R_OBJMASK_ARCHERY"@)) by {
            assert forall|q: int| 0 <= q < "Flag_R_OBJMASK_ARCHERY"@.len() implies '\0' <= #[trigger] "Flag_R_OBJMASK_ARCHERY"@[q]
                <= '\u{7f}' by {}
        }
        vstd::string::is_ascii_spec_bytes("Flag_R_OBJMASK_ARCHERY");
        assert("Flag_R_OBJMASK_ARCHERY".spec_bytes().len() == 22);
    } else if m == 18 {
        reveal_strlit("Flag_S_OBJMASK_SIEGE");
        assert(is_ascii_chars("Flag_S_OBJMASK_SIEGE"@)) by {
            assert forall|q: int| 0 <= q < "Flag_S_OBJMASK_SIEGE"@.len() implies '\0' <= #[trigger] "Flag_S_OBJMASK_SIEGE"@[q]
                <= '\u{7f}' by {}
        }
        vstd::string::is_ascii_spec_bytes("Flag_S_OBJMASK_SIEGE");
        assert("Flag_S_OBJMASK_SIEGE".spec_bytes().len() == 20);
    } else if m == 19 {
        reveal_strlit("Flag_T_OBJMASK_WAR_MACHINE");
        assert(is_ascii_chars("Flag_T_OBJMASK_WAR_MACHINE"@)) by {
            assert forall|q: int| 0 <= q < "Flag_T_OBJMASK_WAR_MACHINE"@.len() implies '\0' <= #[trigger] "Flag_T_OBJMASK_WAR_MACHINE"@[q]
                <= '\u{7f}' by {}
        }
        vstd::string::is_ascii_spec_bytes("Flag_T_OBJMASK_WAR_MACHINE");
        assert("Flag_T_OBJMASK_WAR_MACHINE".spec_bytes().len() == 26);
    } else if m == 20 {
        reveal_strlit("Flag_U_OBJMASK_ARMORPIERCE");
        assert(is_ascii_chars("Flag_U_OBJMASK_ARMORPIERCE"@)) by {
            assert forall|q: int| 0 <= q < "Flag_U_OBJMASK_ARMORPIERCE"@.len() implies '\0' <= #[trigger] "Flag_U_OBJMASK_ARMORPIERCE"@[q]
                <= '\u{7f}' by {}
        }
        vstd::string::is_ascii_spec_bytes("Flag_U_OBJMASK_ARMORPIERCE");
        assert("Flag_U_OBJMASK_ARMORPIERCE".spec_bytes().len() == 26);
    } else if m == 21 {
        reveal_strlit("Flag_V_OBJMASK_VEHICLE");
        assert(is_ascii_chars("Flag_V_OBJMASK_VEHICLE"@)) by {
            assert forall|q: int| 0 <= q < "Flag_V_OBJMASK_VEHICLE"@.len() implies '\0' <= #[trigger] "Flag_V_OBJMASK_VEHICLE"@[q]
                <= '\u{7f}' by {}
        }
        vstd::string::is_ascii_spec_bytes("Flag_V_OBJMASK_VEHICLE");
        assert("Flag_V_OBJMASK_VEHICLE".spec_bytes().len() == 22);
    } else if m == 22 {
        reveal_strlit("Flag_W_OBJMASK_MELEE");
        assert(is_ascii_chars("Flag_W_OBJMASK_MELEE"@)) by {
            assert forall|q: int| 0 <= q < "Flag_W_OBJMASK_MELEE"@.len() implies '\0' <= #[trigger] "Flag_W_OBJMASK_MELEE"@[q]
                <= '\u{7f}' by {}
        }
        vstd::string::is_ascii_spec_bytes("Flag_W_OBJMASK_MELEE");
        assert("Flag_W_OBJMASK_MELEE".spec_bytes().len() == 20);
    } else if m == 23 {
        reveal_strlit("Flag_X_OBJMASK_EXPLOSIVE");
        assert(is_ascii_chars("Flag_X_OBJMASK_EXPLOSIVE"@)) by {
            assert forall|q: int| 0 <= q < "Flag_X_OBJMASK_EXPLOSIVE"@.len() implies '\0' <= #[trigger] "Flag_X_OBJMASK_EXPLOSIVE"@[q]
                <= '\u{7f}' by {}
        }
        vstd::string::is_ascii_spec_bytes("Flag_X_OBJMASK_EXPLOSIVE");
        assert("Flag_X_OBJMASK_EXPLOSIVE".spec_bytes().len() == 24);
    } else if m == 24 {
        reveal_strlit("Flag_Y_OBJMASK_HEAVY_CAV");
        assert(is_ascii_chars("Flag_Y_OBJMASK_HEAVY_CAV"@)) by {
            assert forall|q: int| 0 <= q < "Flag_Y_OBJMASK_HEAVY_CAV"@.len() implies '\0' <= #[trigger] "Flag_Y_OBJMASK_HEAVY_CAV"@[q]
                <= '\u{7f}' by {}
        }
        vstd::string::is_ascii_spec_bytes("Flag_Y_OBJMASK_HEAVY_CAV");
        assert("Flag_Y_OBJMASK_HEAVY_CAV".spec_bytes().len() == 24);
    } else if m == 25 {
        reveal_strlit("Flag_Z_OBJMASK_DETECT");
        assert(is_ascii_chars("Flag_Z_OBJMASK_DETECT"@)) by {
            assert forall|q: int| 0 <= q < "Flag_Z_OBJMASK_DETECT"@.len() implies '\0' <= #[trigger] "Flag_Z_OBJMASK_DETECT"@[q]
                <= '\u{7f}' by {}
        }
        vstd::string::is_ascii_spec_bytes("Flag_Z_OBJMASK_DETECT");
        assert("Flag_Z_OBJMASK_DETECT".spec_bytes().len() == 21);
    } else if m == 26 {
        reveal_strlit("Flag_1_OBJMASK_UNUSED");
        assert(is_ascii_chars("Flag_1_OBJMASK_UNUSED"@)) by {
            assert forall|q: int| 0 <= q < "Flag_1_OBJMASK_UNUSED"@.len() implies '\0' <= #[trigger] "Flag_1_OBJMASK_UNUSED"@[q]
                <= '\u{7f}' by {}
        }
        vstd::string::is_ascii_spec_bytes("Flag_1_OBJMASK_UNUSED");
        assert("Flag_1_OBJMASK_UNUSED".spec_bytes().len() == 21);
    } else if m == 27 {
        reveal_strlit("Flag_2_OBJMASK_MISSILE");
        assert(is_ascii_chars("Flag_2_OBJMASK_MISSILE"@)) by {
            assert forall|q: int| 0 <= q < "Flag_2_OBJMASK_MISSILE"@.len() implies '\0' <= #[trigger] "Flag_2_OBJMASK_MISSILE"@[q]
                <= '\u{7f}' by {}
        }
        vstd::string::is_ascii_spec_bytes("Flag_2_OBJMASK_MISSILE");
        assert("Flag_2_OBJMASK_MISSILE".spec_bytes().len() == 22);
    } else if m == 28 {
        reveal_strlit("Flag_3_OBJMASK_AIR");
        assert(is_ascii_chars("Flag_3_OBJMASK_AIR"@)) by {
            assert forall|q: int| 0 <= q < "Flag_3_OBJMASK_AIR"@.len() implies '\0' <= #[trigger] "Flag_3_OBJMASK_AIR"@[q]
                <= '\u{7f}' by {}
        }
        vstd::string::is_ascii_spec_bytes("Flag_3_OBJMASK_AIR");
        assert("Flag_3_OBJMASK_AIR".spec_bytes().len() == 18);
    } else if m == 29 {
        reveal_strlit("Flag_4_OBJMASK_LIGHT_CAV");
        assert(is_ascii_chars("Flag_4_OBJMASK_LIGHT_CAV"@)) by {
            assert forall|q: int| 0 <= q < "Flag_4_OBJMASK_LIGHT_CAV"@.len() implies '\0' <= #[trigger] "Flag_4_OBJMASK_LIGHT_CAV"@[q]
                <= '\u{7f}' by {}
        }
        vstd::string::is_ascii_spec_bytes("Flag_4_OBJMASK_LIGHT_CAV");
        assert("Flag_4_OBJMASK_LIGHT_CAV".spec_bytes().len() == 24);
    } else if m == 30 {
        reveal_strlit("Flag_5_OBJMASK_PIKE");
        assert(is_ascii_chars("Flag_5_OBJMASK_PIKE"@)) by {
            assert forall|q: int| 0 <= q < "Flag_5_OBJMASK_PIKE"@.len() implies '\0' <= #[trigger] "Flag_5_OBJMASK_PIKE"@[q]
                <= '\u{7f}' by {}
        }
        vstd::string::is_ascii_spec_bytes("Flag_5_OBJMASK_PIKE");
        assert("Flag_5_OBJMASK_PIKE".spec_bytes().len() == 19);
    } else {
        reveal_strlit("Flag_6_OBJMASK_ANTI_AIR");
        assert(is_ascii_chars("Flag_6_OBJMASK_ANTI_AIR"@)) by {
            assert forall|q: int| 0 <= q < "Flag_6_OBJMASK_ANTI_AIR"@.len() implies '\0' <= #[trigger] "Flag_6_OBJMASK_ANTI_AIR"@[q]
                <= '\u{7f}' by {}
        }
        vstd::string::is_ascii_spec_bytes("Flag_6_OBJMASK_ANTI_AIR");
        assert("Flag_6_OBJMASK_ANTI_AIR".spec_bytes().len() == 23);
    }
}

/// An ignore-list name is never a synthetic meta name nor a fixed category
/// name.
pub proof fn lemma_ignored_is_no_meta_or_category(k: Seq<u8>)
    requires
        spec_is_ignored(k),
    ensures
        forall|m: int| 0 <= m < META_COUNT ==> k != spec_meta_name(m),
        forall|c: int| 0 <= c < CAT_COUNT ==> k != spec_category_name(c),
{
    let i = choose|i: int| 0 <= i < IGNORE_COUNT && k == spec_ignored_name(i);
    lemma_ignored_fact(i);
    assert forall|m: int| 0 <= m < META_COUNT implies k != spec_meta_name(m) by {
        lemma_meta_fact(m);
    }
    assert forall|c: int| 0 <= c < CAT_COUNT implies k != spec_category_name(c) by {
        lemma_cat_fact(c);
    }
}

} // verus!
