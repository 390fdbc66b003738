//! The fixed category table: thirty-two single-character flag codes, each
//! with a canonical category name; the ignore-list of unit names excluded
//! from the index; and the synthetic meta names appended after every run.
use vstd::prelude::*;
use vstd::string::StringSliceAdditionalSpecFns;

use crate::bytes::{bytes_eq, views_of};
use crate::diag::Warning;

verus! {

pub const CAT_COUNT: usize = 32;

pub const META_COUNT: usize = 15;

pub const IGNORE_COUNT: usize = 13;

/// The canonical name of category `i`.
pub open spec fn spec_category_name(i: int) -> Seq<u8> {
    if i == 0 {
        "Flag_A_OBJMASK_ARMORED".spec_bytes()
    } else if i == 1 {
        "Flag_B_OBJMASK_BOMBARD".spec_bytes()
    } else if i == 2 {
        "Flag_C_OBJMASK_CIVILIAN".spec_bytes()
    } else if i == 3 {
        "Flag_D_OBJMASK_MUSKET_INF".spec_bytes()
    } else if i == 4 {
        "Flag_E_OBJMASK_ELEPHANT".spec_bytes()
    } else if i == 5 {
        "Flag_F_OBJMASK_FOOT".spec_bytes()
    } else if i == 6 {
        "Flag_G_OBJMASK_GUN".spec_bytes()
    } else if i == 7 {
        "Flag_H_OBJMASK_HEAVY_INF".spec_bytes()
    } else if i == 8 {
        "Flag_I_OBJMASK_MODERN_INF".spec_bytes()
    } else if i == 9 {
        "Flag_J_OBJMASK_CARRY_AIR".spec_bytes()
    } else if i == 10 {
        "Flag_K_OBJMASK_FOOT_ARCHER".spec_bytes()
    } else if i == 11 {
        "Flag_L_OBJMASK_LARGE".spec_bytes()
    } else if i == 12 {
        "Flag_M_OBJMASK_MOUNTED".spec_bytes()
    } else if i == 13 {
        "Flag_N_OBJMASK_NAVAL".spec_bytes()
    } else if i == 14 {
        "Flag_O_OBJMASK_HORSE_ARCHER".spec_bytes()
    } else if i == 15 {
        "Flag_P_OBJMASK_SPARSE".spec_bytes()
    } else if i == 16 {
        "Flag_Q_OBJMASK_LIGHT_INF".spec_bytes()
    } else if i == 17 {
        "Flag_R_OBJMASK_ARCHERY".spec_bytes()
    } else if i == 18 {
        "Flag_S_OBJMASK_SIEGE".spec_bytes()
    } else if i == 19 {
        "Flag_T_OBJMASK_WAR_MACHINE".spec_bytes()
    } else if i == 20 {
        "Flag_U_OBJMASK_ARMORPIERCE".spec_bytes()
    } else if i == 21 {
        "Flag_V_OBJMASK_VEHICLE".spec_bytes()
    } else if i == 22 {
        "Flag_W_OBJMASK_MELEE".spec_bytes()
    } else if i == 23 {
        "Flag_X_OBJMASK_EXPLOSIVE".spec_bytes()
    } else if i == 24 {
        "Flag_Y_OBJMASK_HEAVY_CAV".spec_bytes()
    } else if i == 25 {
        "Flag_Z_OBJMASK_DETECT".spec_bytes()
    } else if i == 26 {
        "Flag_1_OBJMASK_UNUSED".spec_bytes()
    } else if i == 27 {
        "Flag_2_OBJMASK_MISSILE".spec_bytes()
    } else if i == 28 {
        "Flag_3_OBJMASK_AIR".spec_bytes()
    } else if i == 29 {
        "Flag_4_OBJMASK_LIGHT_CAV".spec_bytes()
    } else if i == 30 {
        "Flag_5_OBJMASK_PIKE".spec_bytes()
    } else {
        "Flag_6_OBJMASK_ANTI_AIR".spec_bytes()
    }
}

pub fn category_name(i: usize) -> (r: Vec<u8>)
    requires
        i < CAT_COUNT,
    ensures
        r@ == spec_category_name(i as int),
{
    match i {
        0 => "Flag_A_OBJMASK_ARMORED".as_bytes_vec(),
        1 => "Flag_B_OBJMASK_BOMBARD".as_bytes_vec(),
        2 => "Flag_C_OBJMASK_CIVILIAN".as_bytes_vec(),
        3 => "Flag_D_OBJMASK_MUSKET_INF".as_bytes_vec(),
        4 => "Flag_E_OBJMASK_ELEPHANT".as_bytes_vec(),
        5 => "Flag_F_OBJMASK_FOOT".as_bytes_vec(),
        6 => "Flag_G_OBJMASK_GUN".as_bytes_vec(),
        7 => "Flag_H_OBJMASK_HEAVY_INF".as_bytes_vec(),
        8 => "Flag_I_OBJMASK_MODERN_INF".as_bytes_vec(),
        9 => "Flag_J_OBJMASK_CARRY_AIR".as_bytes_vec(),
        10 => "Flag_K_OBJMASK_FOOT_ARCHER".as_bytes_vec(),
        11 => "Flag_L_OBJMASK_LARGE".as_bytes_vec(),
        12 => "Flag_M_OBJMASK_MOUNTED".as_bytes_vec(),
        13 => "Flag_N_OBJMASK_NAVAL".as_bytes_vec(),
        14 => "Flag_O_OBJMASK_HORSE_ARCHER".as_bytes_vec(),
        15 => "Flag_P_OBJMASK_SPARSE".as_bytes_vec(),
        16 => "Flag_Q_OBJMASK_LIGHT_INF".as_bytes_vec(),
        17 => "Flag_R_OBJMASK_ARCHERY".as_bytes_vec(),
        18 => "Flag_S_OBJMASK_SIEGE".as_bytes_vec(),
        19 => "Flag_T_OBJMASK_WAR_MACHINE".as_bytes_vec(),
        20 => "Flag_U_OBJMASK_ARMORPIERCE".as_bytes_vec(),
        21 => "Flag_V_OBJMASK_VEHICLE".as_bytes_vec(),
        22 => "Flag_W_OBJMASK_MELEE".as_bytes_vec(),
        23 => "Flag_X_OBJMASK_EXPLOSIVE".as_bytes_vec(),
        24 => "Flag_Y_OBJMASK_HEAVY_CAV".as_bytes_vec(),
        25 => "Flag_Z_OBJMASK_DETECT".as_bytes_vec(),
        26 => "Flag_1_OBJMASK_UNUSED".as_bytes_vec(),
        27 => "Flag_2_OBJMASK_MISSILE".as_bytes_vec(),
        28 => "Flag_3_OBJMASK_AIR".as_bytes_vec(),
        29 => "Flag_4_OBJMASK_LIGHT_CAV".as_bytes_vec(),
        30 => "Flag_5_OBJMASK_PIKE".as_bytes_vec(),
        _ => "Flag_6_OBJMASK_ANTI_AIR".as_bytes_vec(),
    }
}

/// The category a flag code stands for, if any.
pub open spec fn spec_category_index(b: u8) -> Option<int> {
    if 65 <= b <= 90 {
        Some((b - 65) as int)
    } else if 49 <= b <= 54 {
        Some(26 + (b - 49) as int)
    } else {
        None
    }
}

pub fn category_index(b: u8) -> (r: Option<usize>)
    ensures
        match r {
            Some(i) => i < CAT_COUNT && spec_category_index(b) == Some(i as int),
            None => spec_category_index(b) is None,
        },
{
    if 65 <= b && b <= 90 {
        Some((b - 65) as usize)
    } else if 49 <= b && b <= 54 {
        Some(26 + (b - 49) as usize)
    } else {
        None
    }
}

/// The canonical name a flag code maps to, if the code is known: the category
/// table's whole contract.
pub fn category_for(b: u8) -> (r: Option<Vec<u8>>)
    ensures
        match r {
            Some(v) => spec_category_index(b) matches Some(i) && v@ == spec_category_name(i),
            None => spec_category_index(b) is None,
        },
{
    match category_index(b) {
        Some(i) => Some(category_name(i)),
        None => None,
    }
}

/// The synthetic meta names appended to the index, in their fixed order.
pub open spec fn spec_meta_name(i: int) -> Seq<u8> {
    if i == 0 {
        "SIEGE".spec_bytes()
    } else if i == 1 {
        "FORTS".spec_bytes()
    } else if i == 2 {
        "TOWERS".spec_bytes()
    } else if i == 3 {
        "CITIES".spec_bytes()
    } else if i == 4 {
        "OBSPOST".spec_bytes()
    } else if i == 5 {
        "BUILDINGS".spec_bytes()
    } else if i == 6 {
        "UNITS".spec_bytes()
    } else if i == 7 {
        "AGE_0".spec_bytes()
    } else if i == 8 {
        "AGE_1".spec_bytes()
    } else if i == 9 {
        "AGE_2".spec_bytes()
    } else if i == 10 {
        "AGE_3".spec_bytes()
    } else if i == 11 {
        "AGE_4".spec_bytes()
    } else if i == 12 {
        "AGE_5".spec_bytes()
    } else if i == 13 {
        "AGE_6".spec_bytes()
    } else {
        "AGE_7".spec_bytes()
    }
}

pub fn meta_name(i: usize) -> (r: Vec<u8>)
    requires
        i < META_COUNT,
    ensures
        r@ == spec_meta_name(i as int),
{
    match i {
        0 => "SIEGE".as_bytes_vec(),
        1 => "FORTS".as_bytes_vec(),
        2 => "TOWERS".as_bytes_vec(),
        3 => "CITIES".as_bytes_vec(),
        4 => "OBSPOST".as_bytes_vec(),
        5 => "BUILDINGS".as_bytes_vec(),
        6 => "UNITS".as_bytes_vec(),
        7 => "AGE_0".as_bytes_vec(),
        8 => "AGE_1".as_bytes_vec(),
        9 => "AGE_2".as_bytes_vec(),
        10 => "AGE_3".as_bytes_vec(),
        11 => "AGE_4".as_bytes_vec(),
        12 => "AGE_5".as_bytes_vec(),
        13 => "AGE_6".as_bytes_vec(),
        _ => "AGE_7".as_bytes_vec(),
    }
}

/// The unit names excluded from the index.
pub open spec fn spec_ignored_name(i: int) -> Seq<u8> {
    if i == 0 {
        "Fur_Trapper".spec_bytes()
    } else if i == 1 {
        "Wild_Bird".spec_bytes()
    } else if i == 2 {
        "Flock_Bird".spec_bytes()
    } else if i == 3 {
        "Gull_Bird".spec_bytes()
    } else if i == 4 {
        "Farm_Pig".spec_bytes()
    } else if i == 5 {
        "Farm_Chicken".spec_bytes()
    } else if i == 6 {
        "Herd_Horse".spec_bytes()
    } else if i == 7 {
        "Herd_Sheep".spec_bytes()
    } else if i == 8 {
        "Herd_Bison".spec_bytes()
    } else if i == 9 {
        "Herd_Bear".spec_bytes()
    } else if i == 10 {
        "Herd_Fish".spec_bytes()
    } else if i == 11 {
        "Herd_Whales".spec_bytes()
    } else {
        "Herd_Peacock".spec_bytes()
    }
}

pub open spec fn spec_is_ignored(n: Seq<u8>) -> bool {
    exists|i: int| 0 <= i < IGNORE_COUNT && n == spec_ignored_name(i)
}

fn ignored_name(i: usize) -> (r: Vec<u8>)
    requires
        i < IGNORE_COUNT,
    ensures
        r@ == spec_ignored_name(i as int),
{
    match i {
        0 => "Fur_Trapper".as_bytes_vec(),
        1 => "Wild_Bird".as_bytes_vec(),
        2 => "Flock_Bird".as_bytes_vec(),
        3 => "Gull_Bird".as_bytes_vec(),
        4 => "Farm_Pig".as_bytes_vec(),
        5 => "Farm_Chicken".as_bytes_vec(),
        6 => "Herd_Horse".as_bytes_vec(),
        7 => "Herd_Sheep".as_bytes_vec(),
        8 => "Herd_Bison".as_bytes_vec(),
        9 => "Herd_Bear".as_bytes_vec(),
        10 => "Herd_Fish".as_bytes_vec(),
        11 => "Herd_Whales".as_bytes_vec(),
        _ => "Herd_Peacock".as_bytes_vec(),
    }
}

/// Whether a normalized unit name is on the ignore-list.
pub fn is_ignored(name: &[u8]) -> (r: bool)
    ensures
        r == spec_is_ignored(name@),
{
    let mut i: usize = 0;
    while i < IGNORE_COUNT
        invariant
            i <= IGNORE_COUNT,
            forall|j: int| 0 <= j < i ==> name@ != spec_ignored_name(j),
        decreases IGNORE_COUNT - i,
    {
        let cand = ignored_name(i);
        if bytes_eq(name, cand.as_slice()) {
            assert(spec_is_ignored(name@));
            return true;
        }
        i += 1;
    }
    false
}

/// A UTF-8 continuation byte: part of a character whose leading byte already
/// drew a warning.
pub open spec fn is_continuation_byte(b: u8) -> bool {
    128 <= b < 192
}

/// Folding a flag string into a category bitmask, warning once on each
/// unknown flag character (continuation bytes of a multi-byte character draw
/// no warning of their own).
pub open spec fn spec_flags_fold(s: Seq<u8>) -> (u32, Seq<Warning>)
    decreases s.len(),
{
    if s.len() == 0 {
        (0u32, Seq::empty())
    } else {
        let (m, w) = spec_flags_fold(s.drop_last());
        match spec_category_index(s.last()) {
            Some(i) => ((m | (1u32 << (i as u32))), w),
            None => if is_continuation_byte(s.last()) {
                (m, w)
            } else {
                (m, w.push(Warning::UnknownFlag(s.last())))
            },
        }
    }
}

/// Translates a flag string into a category bitmask, appending a warning for
/// every unknown flag character.
pub fn flags_to_mask(s: &[u8], warns: &mut Vec<Warning>) -> (r: u32)
    ensures
        ({
            let (m, w) = spec_flags_fold(s@);
            r == m && final(warns)@ == old(warns)@ + w
        }),
{
    let mut mask: u32 = 0;
    let mut i: usize = 0;
    while i < s.len()
        invariant
            i <= s@.len(),
            ({
                let (m, w) = spec_flags_fold(s@.take(i as int));
                mask == m && warns@ == old(warns)@ + w
            }),
        decreases s@.len() - i,
    {
        proof {
            assert(s@.take(i + 1).drop_last() =~= s@.take(i as int));
            assert(s@.take(i + 1).last() == s@[i as int]);
        }
        let b = s[i];
        match category_index(b) {
            Some(c) => {
                mask = mask | (1u32 << (c as u32));
            },
            None => {
                if !(128 <= b && b < 192) {
                    warns.push(Warning::UnknownFlag(b));
                }
                proof {
                    assert(warns@ =~= old(warns)@ + spec_flags_fold(s@.take(i + 1)).1);
                }
            },
        }
        i += 1;
    }
    proof {
        assert(s@.take(s@.len() as int) =~= s@);
    }
    mask
}

/// The category names a membership mask holds, by ascending category index,
/// considering the first `n` categories.
pub open spec fn spec_cat_names(mask: u32, n: int) -> Seq<Seq<u8>>
    decreases n,
{
    if n <= 0 {
        Seq::empty()
    } else {
        let rest = spec_cat_names(mask, n - 1);
        if mask & (1u32 << ((n - 1) as u32)) != 0 {
            rest.push(spec_category_name(n - 1))
        } else {
            rest
        }
    }
}

/// The lookup keys a name with a membership mask contributes to a pair: the
/// name itself, then its category names.
pub open spec fn spec_keys_of(name: Seq<u8>, mask: u32) -> Seq<Seq<u8>> {
    seq![name] + spec_cat_names(mask, CAT_COUNT as int)
}

pub fn keys_of(name: &Vec<u8>, mask: u32) -> (r: Vec<Vec<u8>>)
    ensures
        views_of(r@) == spec_keys_of(name@, mask),
{
    let mut out: Vec<Vec<u8>> = Vec::new();
    out.push(name.clone());
    proof {
        assert(views_of(out@) =~~= seq![name@] + spec_cat_names(mask, 0));
    }
    let mut c: usize = 0;
    while c < CAT_COUNT
        invariant
            c <= CAT_COUNT,
            views_of(out@) == seq![name@] + spec_cat_names(mask, c as int),
        decreases CAT_COUNT - c,
    {
        if mask & (1u32 << (c as u32)) != 0 {
            let cn = category_name(c);
            let ghost cnv = cn@;
            let ghost pre = out@;
            out.push(cn);
            proof {
                assert(spec_cat_names(mask, c + 1) == spec_cat_names(mask, c as int).push(
                    spec_category_name(c as int),
                ));
                let target = seq![name@] + spec_cat_names(mask, c + 1);
                assert(views_of(pre).len() == pre.len());
                assert(pre.len() == 1 + spec_cat_names(mask, c as int).len());
                assert(out@.len() == pre.len() + 1);
                assert(target.len() == out@.len());
                assert forall|k: int| 0 <= k < out@.len() implies views_of(out@)[k] == target[k] by {
                    if k < pre.len() {
                        assert(out@[k] == pre[k]);
                        assert(views_of(pre)[k] == pre[k]@);
                        assert(views_of(pre)[k] == (seq![name@] + spec_cat_names(
                            mask,
                            c as int,
                        ))[k]);
                    } else {
                        assert(out@[k]@ == cnv);
                    }
                }
                assert(views_of(out@) =~= target);
            }
        } else {
            proof {
                assert(spec_cat_names(mask, c + 1) == spec_cat_names(mask, c as int));
                assert(views_of(out@) =~= seq![name@] + spec_cat_names(mask, c + 1));
            }
        }
        c += 1;
    }
    out
}

} // verus!
