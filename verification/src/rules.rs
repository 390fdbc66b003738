//! Interpreting the rules source: a unit record gives a name and a flag
//! string; the index maps each normalized unit name to its category bitmask,
//! merging duplicates, dropping ignore-listed names, and appending the
//! synthetic meta names at the end.
use vstd::prelude::*;
use vstd::string::StringSliceAdditionalSpecFns;

use crate::bytes::{bytes_eq, normalize_name, spec_normalize};
use crate::categories::{
    is_ignored, meta_name, spec_flags_fold, spec_is_ignored, spec_meta_name, flags_to_mask,
    META_COUNT,
};
use crate::diag::{Error, ErrorView, Warning};
use crate::events::{events_view, EventView, RawEvent};
use crate::omap::{om_get, om_upsert, OMap};

verus! {

/// The interpreter's state between two events.
pub struct RulesState {
    /// Inside a `UNIT` element.
    pub in_unit: bool,
    /// Inside a `NAME` element of a unit.
    pub in_name: bool,
    /// Inside an `OBJ_MASK` element of a unit.
    pub in_mask: bool,
    /// The last event continued a run of character data for the name.
    pub name_run: bool,
    /// The last event continued a run of character data for the flag string.
    pub mask_run: bool,
    /// The unit name gathered so far, already normalized.
    pub cur_name: Seq<u8>,
    /// The flag string gathered so far.
    pub cur_mask: Seq<u8>,
    /// The index built so far.
    pub index: Seq<(Seq<u8>, u32)>,
    /// The warnings logged so far.
    pub warns: Seq<Warning>,
}

pub open spec fn rules_init() -> RulesState {
    RulesState {
        in_unit: false,
        in_name: false,
        in_mask: false,
        name_run: false,
        mask_run: false,
        cur_name: Seq::empty(),
        cur_mask: Seq::empty(),
        index: Seq::empty(),
        warns: Seq::empty(),
    }
}

/// Closing a unit record: drop it if its name is ignored, else translate its
/// flags (warning on unknown codes) and merge it into the index, unioning the
/// category sets of duplicate names and warning when they differ.
pub open spec fn spec_finish_unit(st: RulesState) -> RulesState {
    if spec_is_ignored(st.cur_name) {
        RulesState {
            in_unit: false,
            name_run: false,
            mask_run: false,
            cur_name: Seq::empty(),
            cur_mask: Seq::empty(),
            ..st
        }
    } else {
        let (bits, fw) = spec_flags_fold(st.cur_mask);
        let (index2, warns2) = match om_get(st.index, st.cur_name) {
            None => (om_upsert(st.index, st.cur_name, bits), st.warns + fw),
            Some(prev) => (
                om_upsert(st.index, st.cur_name, prev | bits),
                if prev != bits {
                    (st.warns + fw).push(Warning::DuplicateUnit)
                } else {
                    st.warns + fw
                },
            ),
        };
        RulesState {
            in_unit: false,
            name_run: false,
            mask_run: false,
            cur_name: Seq::empty(),
            cur_mask: Seq::empty(),
            index: index2,
            warns: warns2,
            ..st
        }
    }
}

/// One event's effect on the state.
pub open spec fn rules_step(st: RulesState, ev: EventView) -> Result<RulesState, ErrorView> {
    match ev {
        EventView::Open(n, _attrs) => Ok(
            if n == "UNIT".spec_bytes() {
                RulesState { in_unit: true, name_run: false, mask_run: false, ..st }
            } else if n == "NAME".spec_bytes() && st.in_unit {
                RulesState { in_name: true, name_run: false, mask_run: false, ..st }
            } else if n == "OBJ_MASK".spec_bytes() && st.in_unit {
                RulesState { in_mask: true, name_run: false, mask_run: false, ..st }
            } else {
                RulesState { name_run: false, mask_run: false, ..st }
            },
        ),
        EventView::Close(n) => Ok(
            if n == "NAME".spec_bytes() && st.in_unit {
                RulesState { in_name: false, name_run: false, mask_run: false, ..st }
            } else if n == "OBJ_MASK".spec_bytes() && st.in_unit {
                RulesState { in_mask: false, name_run: false, mask_run: false, ..st }
            } else if n == "UNIT".spec_bytes() {
                spec_finish_unit(st)
            } else {
                RulesState { name_run: false, mask_run: false, ..st }
            },
        ),
        EventView::Text(t) => Ok(
            if st.in_name {
                RulesState {
                    cur_name: if st.name_run {
                        st.cur_name + spec_normalize(t)
                    } else {
                        spec_normalize(t)
                    },
                    name_run: true,
                    ..st
                }
            } else if st.in_mask {
                RulesState {
                    cur_mask: if st.mask_run {
                        st.cur_mask + t
                    } else {
                        t
                    },
                    mask_run: true,
                    ..st
                }
            } else {
                RulesState { name_run: false, mask_run: false, ..st }
            },
        ),
        EventView::EntityRef(nm) => if st.in_name {
            match crate::events::spec_entity(nm) {
                None => Err(ErrorView::BadUnitName(nm)),
                Some(t) => Ok(
                    RulesState {
                        cur_name: if st.name_run {
                            st.cur_name + spec_normalize(t)
                        } else {
                            spec_normalize(t)
                        },
                        name_run: true,
                        ..st
                    },
                ),
            }
        } else if st.in_mask {
            match crate::events::spec_entity(nm) {
                None => Err(ErrorView::BadUnitMask(nm)),
                Some(t) => Ok(
                    RulesState {
                        cur_mask: if st.mask_run {
                            st.cur_mask + t
                        } else {
                            t
                        },
                        mask_run: true,
                        ..st
                    },
                ),
            }
        } else {
            Ok(RulesState { name_run: false, mask_run: false, ..st })
        },
        EventView::SelfClosed(_n, _attrs) => Ok(
            RulesState { name_run: false, mask_run: false, ..st },
        ),
        EventView::Other => Ok(RulesState { name_run: false, mask_run: false, ..st }),
    }
}

/// The state after the first `n` events.
pub open spec fn rules_run(evs: Seq<EventView>, n: int) -> Result<RulesState, ErrorView>
    decreases n,
{
    if n <= 0 {
        Ok(rules_init())
    } else {
        match rules_run(evs, n - 1) {
            Ok(st) => rules_step(st, evs[n - 1]),
            Err(e) => Err(e),
        }
    }
}

/// Appending the first `n` synthetic meta names, skipping those already
/// present.
pub open spec fn spec_add_meta(index: Seq<(Seq<u8>, u32)>, n: int) -> Seq<(Seq<u8>, u32)>
    decreases n,
{
    if n <= 0 {
        index
    } else {
        let prev = spec_add_meta(index, n - 1);
        match om_get(prev, spec_meta_name(n - 1)) {
            Some(_) => prev,
            None => om_upsert(prev, spec_meta_name(n - 1), 0u32),
        }
    }
}

/// The whole unit index a sequence of rules-source events denotes, with the
/// warnings the run logs.
pub open spec fn spec_unit_index(evs: Seq<EventView>) -> Result<
    (Seq<(Seq<u8>, u32)>, Seq<Warning>),
    ErrorView,
> {
    match rules_run(evs, evs.len() as int) {
        Ok(st) => Ok((spec_add_meta(st.index, META_COUNT as int), st.warns)),
        Err(e) => Err(e),
    }
}

/// An error, once hit, stands for the whole run.
proof fn lemma_rules_run_err(evs: Seq<EventView>, n: int, m: int)
    requires
        0 <= n <= m,
        rules_run(evs, n) is Err,
    ensures
        rules_run(evs, m) == rules_run(evs, n),
    decreases m - n,
{
    if m > n {
        lemma_rules_run_err(evs, n, m - 1);
    }
}

/// Builds the unit index from the rules source's events.
pub fn build_unit_index(events: &Vec<RawEvent>) -> (r: Result<(OMap<u32>, Vec<Warning>), Error>)
    ensures
        match spec_unit_index(events_view(events@)) {
            Ok((idx, ws)) => r matches Ok(p) && p.0@ == idx && p.1@ == ws,
            Err(e) => r matches Err(err) && err@ == e,
        },
{
    let unit_tag = "UNIT".as_bytes_vec();
    let name_tag = "NAME".as_bytes_vec();
    let mask_tag = "OBJ_MASK".as_bytes_vec();
    let ghost evv = events_view(events@);

    let mut in_unit = false;
    let mut in_name = false;
    let mut in_mask = false;
    let mut name_run = false;
    let mut mask_run = false;
    let mut cur_name: Vec<u8> = Vec::new();
    let mut cur_mask: Vec<u8> = Vec::new();
    let mut index: OMap<u32> = OMap::new();
    let mut warns: Vec<Warning> = Vec::new();

    let mut i: usize = 0;
    while i < events.len()
        invariant
            i <= events@.len(),
            unit_tag@ == "UNIT".spec_bytes(),
            name_tag@ == "NAME".spec_bytes(),
            mask_tag@ == "OBJ_MASK".spec_bytes(),
            evv == events_view(events@),
            evv.len() == events@.len(),
            rules_run(evv, i as int) == Ok::<RulesState, ErrorView>(
                RulesState {
                    in_unit,
                    in_name,
                    in_mask,
                    name_run,
                    mask_run,
                    cur_name: cur_name@,
                    cur_mask: cur_mask@,
                    index: index@,
                    warns: warns@,
                },
            ),
        decreases events@.len() - i,
    {
        let ghost prev = RulesState {
            in_unit,
            in_name,
            in_mask,
            name_run,
            mask_run,
            cur_name: cur_name@,
            cur_mask: cur_mask@,
            index: index@,
            warns: warns@,
        };
        let ev = &events[i];
        proof {
            assert(*ev == events@[i as int]);
            assert(evv[i as int] == events@[i as int]@);
        }
        match ev {
            RawEvent::Open(n, _attrs) => {
                if bytes_eq(n.as_slice(), unit_tag.as_slice()) {
                    in_unit = true;
                } else if in_unit && bytes_eq(n.as_slice(), name_tag.as_slice()) {
                    in_name = true;
                } else if in_unit && bytes_eq(n.as_slice(), mask_tag.as_slice()) {
                    in_mask = true;
                }
                name_run = false;
                mask_run = false;
            },
            RawEvent::Close(n) => {
                if in_unit && bytes_eq(n.as_slice(), name_tag.as_slice()) {
                    in_name = false;
                    name_run = false;
                    mask_run = false;
                } else if in_unit && bytes_eq(n.as_slice(), mask_tag.as_slice()) {
                    in_mask = false;
                    name_run = false;
                    mask_run = false;
                } else if bytes_eq(n.as_slice(), unit_tag.as_slice()) {
                    if is_ignored(cur_name.as_slice()) {
                        cur_name = Vec::new();
                        cur_mask = Vec::new();
                    } else {
                        let bits = flags_to_mask(cur_mask.as_slice(), &mut warns);
                        let existing: Option<u32> = match index.get(cur_name.as_slice()) {
                            Some(v) => Some(*v),
                            None => None,
                        };
                        match existing {
                            None => {
                                index.upsert(cur_name, bits);
                            },
                            Some(prev_bits) => {
                                if prev_bits != bits {
                                    warns.push(Warning::DuplicateUnit);
                                }
                                index.upsert(cur_name, prev_bits | bits);
                            },
                        }
                        cur_name = Vec::new();
                        cur_mask = Vec::new();
                    }
                    in_unit = false;
                    name_run = false;
                    mask_run = false;
                } else {
                    name_run = false;
                    mask_run = false;
                }
            },
            RawEvent::Text(t) => {
                if in_name {
                    let mut piece = normalize_name(t.as_slice());
                    if name_run {
                        cur_name.append(&mut piece);
                    } else {
                        cur_name = piece;
                    }
                    name_run = true;
                } else if in_mask {
                    let mut piece = t.clone();
                    if mask_run {
                        cur_mask.append(&mut piece);
                    } else {
                        cur_mask = piece;
                    }
                    mask_run = true;
                } else {
                    name_run = false;
                    mask_run = false;
                }
            },
            RawEvent::EntityRef(nm) => {
                if in_name {
                    match crate::events::resolve_entity(nm.as_slice()) {
                        None => {
                            proof {
                                lemma_rules_run_err(evv, i + 1, evv.len() as int);
                            }
                            return Err(Error::BadUnitName(nm.clone()));
                        },
                        Some(t) => {
                            let mut piece = normalize_name(t.as_slice());
                            if name_run {
                                cur_name.append(&mut piece);
                            } else {
                                cur_name = piece;
                            }
                            name_run = true;
                        },
                    }
                } else if in_mask {
                    match crate::events::resolve_entity(nm.as_slice()) {
                        None => {
                            proof {
                                lemma_rules_run_err(evv, i + 1, evv.len() as int);
                            }
                            return Err(Error::BadUnitMask(nm.clone()));
                        },
                        Some(t) => {
                            let mut piece = t;
                            if mask_run {
                                cur_mask.append(&mut piece);
                            } else {
                                cur_mask = piece;
                            }
                            mask_run = true;
                        },
                    }
                } else {
                    name_run = false;
                    mask_run = false;
                }
            },
            RawEvent::SelfClosed(_n, _attrs) => {
                name_run = false;
                mask_run = false;
            },
            RawEvent::Other => {
                name_run = false;
                mask_run = false;
            },
        }
        proof {
            let cur = RulesState {
                in_unit,
                in_name,
                in_mask,
                name_run,
                mask_run,
                cur_name: cur_name@,
                cur_mask: cur_mask@,
                index: index@,
                warns: warns@,
            };
            assert(rules_step(prev, evv[i as int]) == Ok::<RulesState, ErrorView>(cur));
        }
        i += 1;
    }

    // Append the synthetic meta names that are not already present.
    let ghost run_index = index@;
    let mut mi: usize = 0;
    while mi < META_COUNT
        invariant
            mi <= META_COUNT,
            index@ == spec_add_meta(run_index, mi as int),
        decreases META_COUNT - mi,
    {
        let mn = meta_name(mi);
        let present = match index.get(mn.as_slice()) {
            Some(_) => true,
            None => false,
        };
        if !present {
            index.upsert(mn, 0);
        }
        mi += 1;
    }
    Ok((index, warns))
}



} // verus!
