//! The whole run as a pure function of the two source documents: build the
//! unit index, build the sparse modifier table, compose the dense matrix,
//! neutralize the category cells, and serialize.
use vstd::prelude::*;

use crate::balance::{build_balance_table, lemma_balance_table_wf, spec_balance_table};
use crate::diag::{Error, ErrorView, Warning};
use crate::events::{collect_events, events_view, spec_tokens};
use crate::matrix::{calculate_new_balance, spec_calculate, spec_table_wf};
use crate::modifier::Modifier;
use crate::omap::{om_deep, OMap};
use crate::rules::{build_unit_index, spec_unit_index};
use crate::writer::{spec_rendered, spec_table_log, write_new_balance};

verus! {

/// What reading the rules source yields: a tokenizer error aborts with the
/// rules-source diagnostic; otherwise the events' denotation, index and
/// warnings or the first record error.
pub open spec fn spec_parse_unitrules(xml: Seq<u8>) -> Result<
    (Seq<(Seq<u8>, u32)>, Seq<Warning>),
    ErrorView,
> {
    let (evs, fail) = spec_tokens(xml);
    match fail {
        Some(m) => Err(ErrorView::ReadRules(m)),
        None => spec_unit_index(evs),
    }
}

/// What reading the balance source yields.
pub open spec fn spec_parse_balance(xml: Seq<u8>) -> Result<
    Seq<(Seq<u8>, Seq<(Seq<u8>, Modifier)>)>,
    ErrorView,
> {
    let (evs, fail) = spec_tokens(xml);
    match fail {
        Some(m) => Err(ErrorView::ReadBalance(m)),
        None => spec_balance_table(evs),
    }
}

/// What one whole run yields: the rules source read fully, then the balance
/// source, then the serialized dense table beside the warnings.
pub open spec fn spec_rebuild(rules_xml: Seq<u8>, balance_xml: Seq<u8>) -> Result<
    (Seq<u8>, Seq<Warning>),
    ErrorView,
> {
    match spec_parse_unitrules(rules_xml) {
        Err(e) => Err(e),
        Ok((idx, ws)) => match spec_parse_balance(balance_xml) {
            Err(e) => Err(e),
            Ok(t) => Ok((spec_rendered(spec_table_log(spec_calculate(idx, t))), ws)),
        },
    }
}

/// Builds the unit-to-categories index from the rules source: fails exactly
/// when tokenization fails or a reference inside a name or flag string cannot
/// be resolved; record contents alone never fail.
pub fn parse_unitrules(xml: &[u8]) -> (r: Result<(OMap<u32>, Vec<Warning>), Error>)
    ensures
        match r {
            Ok(p) => spec_parse_unitrules(xml@) == Ok::<
                (Seq<(Seq<u8>, u32)>, Seq<Warning>),
                ErrorView,
            >((p.0@, p.1@)),
            Err(e) => spec_parse_unitrules(xml@) == Err::<
                (Seq<(Seq<u8>, u32)>, Seq<Warning>),
                ErrorView,
            >(e@),
        },
{
    let events = match collect_events(xml) {
        Ok(v) => v,
        Err(m) => {
            return Err(Error::ReadRules(m));
        },
    };
    match build_unit_index(&events) {
        Ok(p) => Ok(p),
        Err(e) => Err(e),
    }
}

/// Builds the sparse modifier table from the balance source: fails exactly
/// when tokenization fails, an attribute value cannot be unescaped or parsed
/// as a number, or an entry record lacks a non-empty name.
pub fn parse_balance(xml: &[u8]) -> (r: Result<OMap<OMap<Modifier>>, Error>)
    ensures
        match r {
            Ok(t) => spec_parse_balance(xml@) == Ok::<
                Seq<(Seq<u8>, Seq<(Seq<u8>, Modifier)>)>,
                ErrorView,
            >(om_deep(t@)) && spec_table_wf(om_deep(t@)),
            Err(e) => spec_parse_balance(xml@) == Err::<
                Seq<(Seq<u8>, Seq<(Seq<u8>, Modifier)>)>,
                ErrorView,
            >(e@),
        },
{
    let events = match collect_events(xml) {
        Ok(v) => v,
        Err(m) => {
            return Err(Error::ReadBalance(m));
        },
    };
    match build_balance_table(&events) {
        Ok(t) => {
            proof {
                let evs = events_view(events@);
                lemma_balance_table_wf(evs, evs.len() as int);
            }
            Ok(t)
        },
        Err(e) => Err(e),
    }
}

/// Composes the dense table and serializes it: the computation after both
/// sources are read, exact down to the serializer's events, and total.
pub fn emit_new_balance(index: &OMap<u32>, table: &OMap<OMap<Modifier>>) -> (r: Vec<u8>)
    requires
        spec_table_wf(om_deep(table@)),
    ensures
        r@ == spec_rendered(spec_table_log(spec_calculate(index@, om_deep(table@)))),
{
    let out = calculate_new_balance(index, table);
    write_new_balance(&out)
}

/// One whole run: rules source and balance source in, output document and
/// warnings out, exactly as `spec_rebuild` denotes for these bytes. A parse
/// error of either stage is returned as that stage's error, and nothing is
/// produced on error.
pub fn rebuild_balance(rules_xml: &[u8], balance_xml: &[u8]) -> (r: Result<
    (Vec<u8>, Vec<Warning>),
    Error,
>)
    ensures
        match r {
            Ok(p) => spec_rebuild(rules_xml@, balance_xml@) == Ok::<
                (Seq<u8>, Seq<Warning>),
                ErrorView,
            >((p.0@, p.1@)),
            Err(e) => spec_rebuild(rules_xml@, balance_xml@) == Err::<
                (Seq<u8>, Seq<Warning>),
                ErrorView,
            >(e@),
        },
{
    let (index, warns) = match parse_unitrules(rules_xml) {
        Ok(p) => p,
        Err(e) => {
            return Err(e);
        },
    };
    let table = match parse_balance(balance_xml) {
        Ok(t) => t,
        Err(e) => {
            return Err(e);
        },
    };
    let bytes = emit_new_balance(&index, &table);
    Ok((bytes, warns))
}

} // verus!
