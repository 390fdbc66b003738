//! Interpreting the balance source: every `ENTRY` record carries a reserved
//! `name` attribute and an open set of target-name/modifier attributes; a
//! record overwrites any earlier record with the same name. A missing name or
//! an unparseable number is fatal.
use vstd::prelude::*;
use vstd::string::StringSliceAdditionalSpecFns;

use crate::bytes::bytes_eq;
use crate::diag::{Error, ErrorView};
use crate::events::{attrs_view, events_view, spec_unescaped, unescape_value, EventView, RawAttr, RawEvent};
use crate::modifier::{parse_decimal, spec_parse_decimal, Modifier};
use crate::omap::{om_deep, om_upsert, lemma_om_deep_upsert, OMap};

verus! {

/// One entry's name and target mapping, read off its first `n` attributes.
pub open spec fn entry_fold(attrs: Seq<(Seq<u8>, Seq<u8>)>, n: int) -> Result<
    (Seq<u8>, Seq<(Seq<u8>, Modifier)>),
    ErrorView,
>
    decreases n,
{
    if n <= 0 {
        Ok((Seq::empty(), Seq::empty()))
    } else {
        match entry_fold(attrs, n - 1) {
            Err(e) => Err(e),
            Ok((name, mods)) => {
                let k = attrs[n - 1].0;
                let vraw = attrs[n - 1].1;
                match spec_unescaped(vraw) {
                    None => Err(ErrorView::BadAttrValue(vraw)),
                    Some(v) => if k == "name".spec_bytes() {
                        Ok((v, mods))
                    } else {
                        match spec_parse_decimal(v) {
                            None => Err(ErrorView::BadNumber(k, v)),
                            Some(m) => Ok((name, om_upsert(mods, k, m))),
                        }
                    },
                }
            },
        }
    }
}

/// One event's effect on the sparse table.
pub open spec fn balance_step(
    table: Seq<(Seq<u8>, Seq<(Seq<u8>, Modifier)>)>,
    ev: EventView,
) -> Result<Seq<(Seq<u8>, Seq<(Seq<u8>, Modifier)>)>, ErrorView> {
    match ev {
        EventView::Open(n, attrs) => balance_entry(table, n, attrs),
        EventView::SelfClosed(n, attrs) => balance_entry(table, n, attrs),
        _ => Ok(table),
    }
}

/// An element's effect: only `ENTRY` elements matter.
pub open spec fn balance_entry(
    table: Seq<(Seq<u8>, Seq<(Seq<u8>, Modifier)>)>,
    n: Seq<u8>,
    attrs: Seq<(Seq<u8>, Seq<u8>)>,
) -> Result<Seq<(Seq<u8>, Seq<(Seq<u8>, Modifier)>)>, ErrorView> {
    if n != "ENTRY".spec_bytes() {
        Ok(table)
    } else {
        match entry_fold(attrs, attrs.len() as int) {
            Err(e) => Err(e),
            Ok((name, mods)) => if name.len() == 0 {
                Err(ErrorView::MissingEntryName)
            } else {
                Ok(om_upsert(table, name, mods))
            },
        }
    }
}

/// The table after the first `n` events.
pub open spec fn balance_run(evs: Seq<EventView>, n: int) -> Result<
    Seq<(Seq<u8>, Seq<(Seq<u8>, Modifier)>)>,
    ErrorView,
>
    decreases n,
{
    if n <= 0 {
        Ok(Seq::empty())
    } else {
        match balance_run(evs, n - 1) {
            Ok(t) => balance_step(t, evs[n - 1]),
            Err(e) => Err(e),
        }
    }
}

/// The sparse modifier table a sequence of balance-source events denotes.
pub open spec fn spec_balance_table(evs: Seq<EventView>) -> Result<
    Seq<(Seq<u8>, Seq<(Seq<u8>, Modifier)>)>,
    ErrorView,
> {
    balance_run(evs, evs.len() as int)
}

proof fn lemma_balance_run_err(evs: Seq<EventView>, n: int, m: int)
    requires
        0 <= n <= m,
        balance_run(evs, n) is Err,
    ensures
        balance_run(evs, m) == balance_run(evs, n),
    decreases m - n,
{
    if m > n {
        lemma_balance_run_err(evs, n, m - 1);
    }
}

/// Every modifier an entry's attributes yield is well-formed.
proof fn lemma_entry_fold_wf(attrs: Seq<(Seq<u8>, Seq<u8>)>, n: int)
    ensures
        entry_fold(attrs, n) matches Ok(p) ==> forall|j: int|
            0 <= j < p.1.len() ==> (#[trigger] p.1[j].1).wf(),
    decreases n,
{
    if n <= 0 {
    } else {
        lemma_entry_fold_wf(attrs, n - 1);
        match entry_fold(attrs, n - 1) {
            Err(_) => {},
            Ok((name, mods)) => {
                let k = attrs[n - 1].0;
                let vraw = attrs[n - 1].1;
                match crate::events::spec_unescaped(vraw) {
                    None => {},
                    Some(v) => {
                        if k == "name".spec_bytes() {
                        } else {
                            match spec_parse_decimal(v) {
                                None => {},
                                Some(m) => {
                                    crate::modifier::lemma_parse_wf(v);
                                    crate::omap::lemma_om_upsert_vals(
                                        mods,
                                        k,
                                        m,
                                        |mm: Modifier| mm.wf(),
                                    );
                                },
                            }
                        }
                    },
                }
            },
        }
    }
}

/// Every modifier a well-parsed table holds is well-formed.
pub proof fn lemma_balance_table_wf(evs: Seq<EventView>, n: int)
    ensures
        balance_run(evs, n) matches Ok(t) ==> crate::matrix::spec_table_wf(t),
    decreases n,
{
    if n <= 0 {
        assert(balance_run(evs, n) matches Ok(t) ==> crate::matrix::spec_table_wf(t));
    } else {
        lemma_balance_table_wf(evs, n - 1);
        match balance_run(evs, n - 1) {
            Err(_) => {},
            Ok(t) => {
                let rowp = |rw: Seq<(Seq<u8>, Modifier)>|
                    forall|j: int| 0 <= j < rw.len() ==> (#[trigger] rw[j].1).wf();
                match evs[n - 1] {
                    EventView::Open(nm, attrs) => {
                        lemma_balance_entry_wf(t, nm, attrs, rowp);
                    },
                    EventView::SelfClosed(nm, attrs) => {
                        lemma_balance_entry_wf(t, nm, attrs, rowp);
                    },
                    _ => {},
                }
            },
        }
    }
}

proof fn lemma_balance_entry_wf(
    t: Seq<(Seq<u8>, Seq<(Seq<u8>, Modifier)>)>,
    nm: Seq<u8>,
    attrs: Seq<(Seq<u8>, Seq<u8>)>,
    rowp: spec_fn(Seq<(Seq<u8>, Modifier)>) -> bool,
)
    requires
        crate::matrix::spec_table_wf(t),
        rowp == (|rw: Seq<(Seq<u8>, Modifier)>|
            forall|j: int| 0 <= j < rw.len() ==> (#[trigger] rw[j].1).wf()),
    ensures
        balance_entry(t, nm, attrs) matches Ok(t2) ==> crate::matrix::spec_table_wf(t2),
{
    if nm == "ENTRY".spec_bytes() {
        match entry_fold(attrs, attrs.len() as int) {
            Err(_) => {},
            Ok((name, mods)) => {
                if name.len() == 0 {
                } else {
                    lemma_entry_fold_wf(attrs, attrs.len() as int);
                    assert(forall|i: int| 0 <= i < t.len() ==> rowp(#[trigger] t[i].1));
                    crate::omap::lemma_om_upsert_vals(t, name, mods, rowp);
                    let t2 = om_upsert(t, name, mods);
                    assert forall|i: int, j: int|
                        0 <= i < t2.len() && 0 <= j < t2[i].1.len() implies (#[trigger] t2[i].1[j].1).wf() by {
                        assert(rowp(t2[i].1));
                    }
                }
            },
        }
    }
}

/// Reads one entry element's attributes: the reserved `name` attribute and
/// the target modifiers, in document order.
fn read_entry_attrs(attrs: &Vec<RawAttr>) -> (r: Result<(Vec<u8>, OMap<Modifier>), Error>)
    ensures
        match entry_fold(attrs_view(attrs@), attrs@.len() as int) {
            Ok(p) => r matches Ok(q) && q.0@ == p.0 && q.1@ == p.1,
            Err(e) => r matches Err(err) && err@ == e,
        },
{
    let name_key = "name".as_bytes_vec();
    let ghost av = attrs_view(attrs@);
    let mut name: Vec<u8> = Vec::new();
    let mut mods: OMap<Modifier> = OMap::new();
    let mut a: usize = 0;
    while a < attrs.len()
        invariant
            a <= attrs@.len(),
            name_key@ == "name".spec_bytes(),
            av == attrs_view(attrs@),
            av.len() == attrs@.len(),
            entry_fold(av, a as int) == Ok::<(Seq<u8>, Seq<(Seq<u8>, Modifier)>), ErrorView>(
                (name@, mods@),
            ),
        decreases attrs@.len() - a,
    {
        let attr = &attrs[a];
        proof {
            assert(av[a as int] == attrs@[a as int]@);
        }
        match unescape_value(attr.value.as_slice()) {
            None => {
                proof {
                    lemma_entry_fold_err(av, a + 1, av.len() as int);
                }
                return Err(Error::BadAttrValue(attr.value.clone()));
            },
            Some(v) => {
                if bytes_eq(attr.key.as_slice(), name_key.as_slice()) {
                    name = v;
                } else {
                    match parse_decimal(v.as_slice()) {
                        None => {
                            proof {
                                lemma_entry_fold_err(av, a + 1, av.len() as int);
                            }
                            return Err(Error::BadNumber(attr.key.clone(), v));
                        },
                        Some(m) => {
                            mods.upsert(attr.key.clone(), m);
                        },
                    }
                }
            },
        }
        a += 1;
    }
    Ok((name, mods))
}

/// Builds the sparse modifier table from the balance source's events.
pub fn build_balance_table(events: &Vec<RawEvent>) -> (r: Result<OMap<OMap<Modifier>>, Error>)
    ensures
        match spec_balance_table(events_view(events@)) {
            Ok(t) => r matches Ok(m) && om_deep(m@) == t,
            Err(e) => r matches Err(err) && err@ == e,
        },
{
    let entry_tag = "ENTRY".as_bytes_vec();
    let ghost evv = events_view(events@);

    let mut table: OMap<OMap<Modifier>> = OMap::new();
    proof {
        assert(om_deep(table@) =~= Seq::<(Seq<u8>, Seq<(Seq<u8>, Modifier)>)>::empty());
    }
    let mut i: usize = 0;
    while i < events.len()
        invariant
            i <= events@.len(),
            entry_tag@ == "ENTRY".spec_bytes(),
            evv == events_view(events@),
            evv.len() == events@.len(),
            balance_run(evv, i as int) == Ok::<Seq<(Seq<u8>, Seq<(Seq<u8>, Modifier)>)>, ErrorView>(
                om_deep(table@),
            ),
        decreases events@.len() - i,
    {
        let ghost prev_table = om_deep(table@);
        let ev = &events[i];
        proof {
            assert(*ev == events@[i as int]);
            assert(evv[i as int] == events@[i as int]@);
        }
        let element: Option<(&Vec<u8>, &Vec<RawAttr>)> = match ev {
            RawEvent::Open(n, attrs) => Some((n, attrs)),
            RawEvent::SelfClosed(n, attrs) => Some((n, attrs)),
            _ => None,
        };
        match element {
            None => {
                proof {
                    assert(balance_step(prev_table, evv[i as int]) == Ok::<
                        Seq<(Seq<u8>, Seq<(Seq<u8>, Modifier)>)>,
                        ErrorView,
                    >(prev_table));
                }
            },
            Some((n, attrs)) => {
                if bytes_eq(n.as_slice(), entry_tag.as_slice()) {
                    match read_entry_attrs(attrs) {
                        Err(e) => {
                            proof {
                                assert(balance_run(evv, i + 1) is Err);
                                lemma_balance_run_err(evv, i + 1, evv.len() as int);
                            }
                            return Err(e);
                        },
                        Ok((name, mods)) => {
                            if name.len() == 0 {
                                proof {
                                    assert(balance_run(evv, i + 1) is Err);
                                    lemma_balance_run_err(evv, i + 1, evv.len() as int);
                                }
                                return Err(Error::MissingEntryName);
                            }
                            let ghost old_raw = table@;
                            let ghost namev = name@;
                            let ghost mval = mods;
                            table.upsert(name, mods);
                            proof {
                                lemma_om_deep_upsert(old_raw, namev, mval);
                                assert(om_deep(table@) =~= om_upsert(prev_table, namev, mval@));
                            }
                        },
                    }
                } else {
                    proof {
                        assert(balance_step(prev_table, evv[i as int]) == Ok::<
                            Seq<(Seq<u8>, Seq<(Seq<u8>, Modifier)>)>,
                            ErrorView,
                        >(prev_table));
                    }
                }
            },
        }
        i += 1;
    }
    Ok(table)
}

/// An error in an attribute prefix is an error of the whole attribute list.
proof fn lemma_entry_fold_err(attrs: Seq<(Seq<u8>, Seq<u8>)>, n: int, m: int)
    requires
        0 <= n <= m,
        entry_fold(attrs, n) is Err,
    ensures
        entry_fold(attrs, m) == entry_fold(attrs, n),
    decreases m - n,
{
    if m > n {
        lemma_entry_fold_err(attrs, n, m - 1);
    }
}

} // verus!
