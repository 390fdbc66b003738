//! Serializing the final table. The character-level encoding, escaping and
//! indentation belong to the external serializer; this module states exactly
//! which events are fed to it and in what order.
use quick_xml::Writer;
use quick_xml::events::{BytesDecl, BytesEnd, BytesStart, Event};
use vstd::prelude::*;
use vstd::string::StringSliceAdditionalSpecFns;

use crate::bytes::pairs_view;
use crate::modifier::{cell_attr, spec_cell_attr, Cell};
use crate::matrix::spec_out_wf;
use crate::omap::{om_deep, OMap};

verus! {

/// One event of the output document, as handed to the external serializer.
pub enum OutEvent {
    /// The XML declaration.
    Decl,
    /// `<name>`.
    Open(Seq<u8>),
    /// `</name>`.
    Close(Seq<u8>),
    /// `<name k1="v1" .../>`, values escaped by the serializer.
    EmptyElem(Seq<u8>, Seq<(Seq<u8>, Seq<u8>)>),
}

#[verifier::external_type_specification]
#[verifier::external_body]
#[verifier::reject_recursive_types(W)]
pub struct ExWriter<W>(Writer<W>);

/// The events fed to a writer so far.
pub uninterp spec fn writer_log(w: Writer<Vec<u8>>) -> Seq<OutEvent>;

/// The bytes the serializer renders for a sequence of events, a function of
/// the events alone.
pub uninterp spec fn spec_rendered(log: Seq<OutEvent>) -> Seq<u8>;

/// Relies on quick_xml's `Writer::new_with_indent`: a fresh writer over an
/// empty sink, indenting with two spaces.
#[verifier::external_body]
fn new_writer() -> (w: Writer<Vec<u8>>)
    ensures
        writer_log(w) == Seq::<OutEvent>::empty(),
{
    Writer::new_with_indent(Vec::new(), 32u8, 2)
}

/// Relies on quick_xml's `Writer::write_event` with `BytesDecl::new`: appends
/// the XML declaration. The only failure `write_event` reports is its sink's,
/// and writing into a byte vector always succeeds.
#[verifier::external_body]
fn write_decl(w: &mut Writer<Vec<u8>>) -> (r: Result<(), String>)
    ensures
        r is Ok,
        writer_log(*final(w)) == writer_log(*old(w)).push(OutEvent::Decl),
{
    w.write_event(Event::Decl(BytesDecl::new("1.0", None, None))).map_err(|e| format!("{}", e))
}

/// Relies on quick_xml's `Writer::write_event` with `BytesStart::new`:
/// appends a start tag. Writing into a byte vector always succeeds.
#[verifier::external_body]
fn write_open(w: &mut Writer<Vec<u8>>, name: &[u8]) -> (r: Result<(), String>)
    ensures
        r is Ok,
        writer_log(*final(w)) == writer_log(*old(w)).push(OutEvent::Open(name@)),
{
    let n = String::from_utf8_lossy(name).into_owned();
    w.write_event(Event::Start(BytesStart::new(n))).map_err(|e| format!("{}", e))
}

/// Relies on quick_xml's `Writer::write_event` with `BytesEnd::new`: appends
/// an end tag. Writing into a byte vector always succeeds.
#[verifier::external_body]
fn write_close(w: &mut Writer<Vec<u8>>, name: &[u8]) -> (r: Result<(), String>)
    ensures
        r is Ok,
        writer_log(*final(w)) == writer_log(*old(w)).push(OutEvent::Close(name@)),
{
    let n = String::from_utf8_lossy(name).into_owned();
    w.write_event(Event::End(BytesEnd::new(n))).map_err(|e| format!("{}", e))
}

/// Relies on quick_xml's `Writer::write_event` with `BytesStart::new` and
/// `push_attribute`: appends an empty element whose attribute values the
/// serializer escapes. Writing into a byte vector always succeeds.
#[verifier::external_body]
fn write_empty(w: &mut Writer<Vec<u8>>, name: &[u8], attrs: &Vec<(Vec<u8>, Vec<u8>)>) -> (r: Result<
    (),
    String,
>)
    ensures
        r is Ok,
        writer_log(*final(w)) == writer_log(*old(w)).push(
            OutEvent::EmptyElem(name@, pairs_view(attrs@)),
        ),
{
    let mut e = BytesStart::new(String::from_utf8_lossy(name).into_owned());
    for (k, v) in attrs.iter() {
        let ks = String::from_utf8_lossy(k).into_owned();
        let vs = String::from_utf8_lossy(v).into_owned();
        e.push_attribute((ks.as_str(), vs.as_str()));
    }
    w.write_event(Event::Empty(e)).map_err(|e| format!("{}", e))
}

/// Relies on quick_xml's `Writer::into_inner`: the rendered bytes of
/// everything written.
#[verifier::external_body]
fn writer_output(w: Writer<Vec<u8>>) -> (r: Vec<u8>)
    ensures
        r@ == spec_rendered(writer_log(w)),
{
    w.into_inner()
}

/// The attributes of one output entry: the entry's name, then every target
/// and its rounded modifier, in column order (first `n` columns).
pub open spec fn spec_row_attrs(name: Seq<u8>, row: Seq<(Seq<u8>, Cell)>, n: int) -> Seq<
    (Seq<u8>, Seq<u8>),
>
    decreases n,
{
    if n <= 0 {
        seq![("name".spec_bytes(), name)]
    } else {
        spec_row_attrs(name, row, n - 1).push((row[n - 1].0, spec_cell_attr(row[n - 1].1)))
    }
}

/// The events of the whole output document for the first `n` rows.
pub open spec fn spec_out_log(t: Seq<(Seq<u8>, Seq<(Seq<u8>, Cell)>)>, n: int) -> Seq<OutEvent>
    decreases n,
{
    if n <= 0 {
        seq![
            OutEvent::Decl,
            OutEvent::Open("ROOT".spec_bytes()),
            OutEvent::Open("TABLE".spec_bytes()),
        ]
    } else {
        spec_out_log(t, n - 1).push(
            OutEvent::EmptyElem(
                "ENTRY".spec_bytes(),
                spec_row_attrs(t[n - 1].0, t[n - 1].1, t[n - 1].1.len() as int),
            ),
        )
    }
}

/// Every event of the output document, in order.
pub open spec fn spec_table_log(t: Seq<(Seq<u8>, Seq<(Seq<u8>, Cell)>)>) -> Seq<OutEvent> {
    spec_out_log(t, t.len() as int).push(OutEvent::Close("TABLE".spec_bytes())).push(
        OutEvent::Close("ROOT".spec_bytes()),
    )
}

/// Serializes the final table: one entry per row, in table order, each
/// carrying its name and every rounded modifier. The sink is an in-memory
/// byte vector, which accepts every write, so the whole document always comes
/// back.
pub fn write_new_balance(table: &OMap<OMap<Cell>>) -> (r: Vec<u8>)
    requires
        spec_out_wf(om_deep(table@)),
    ensures
        r@ == spec_rendered(spec_table_log(om_deep(table@))),
{
    let ghost tdeep = om_deep(table@);
    let root_tag = "ROOT".as_bytes_vec();
    let table_tag = "TABLE".as_bytes_vec();
    let entry_tag = "ENTRY".as_bytes_vec();
    let name_key = "name".as_bytes_vec();
    let mut w = new_writer();
    let _ = write_decl(&mut w);
    let _ = write_open(&mut w, root_tag.as_slice());
    let _ = write_open(&mut w, table_tag.as_slice());
    proof {
        assert(writer_log(w) =~= spec_out_log(tdeep, 0));
    }
    let mut i: usize = 0;
    while i < table.len()
        invariant
            i <= table@.len(),
            entry_tag@ == "ENTRY".spec_bytes(),
            name_key@ == "name".spec_bytes(),
            tdeep == om_deep(table@),
            tdeep.len() == table@.len(),
            spec_out_wf(tdeep),
            writer_log(w) == spec_out_log(tdeep, i as int),
        decreases table@.len() - i,
    {
        let rname = table.key_at(i);
        let row = table.val_at(i);
        let ghost rowd = tdeep[i as int].1;
        proof {
            assert(rowd == row@);
            assert(tdeep[i as int].0 == table@[i as int].0);
        }
        let mut attrs: Vec<(Vec<u8>, Vec<u8>)> = Vec::new();
        attrs.push((name_key.clone(), rname.clone()));
        proof {
            assert(pairs_view(attrs@) =~= spec_row_attrs(rname@, rowd, 0));
        }
        let mut j: usize = 0;
        while j < row.len()
            invariant
                j <= row@.len(),
                rowd == row@,
                i < tdeep.len(),
                spec_out_wf(tdeep),
                rowd == tdeep[i as int].1,
                pairs_view(attrs@) == spec_row_attrs(rname@, rowd, j as int),
            decreases row@.len() - j,
        {
            let cname = row.key_at(j);
            let cval = row.val_at(j);
            proof {
                assert(rowd[j as int].1 == tdeep[i as int].1[j as int].1);
                assert(rowd[j as int].1.wf());
            }
            let ghost pre_attrs = attrs@;
            attrs.push((cname.clone(), cell_attr(cval)));
            proof {
                assert(pairs_view(attrs@).len() == pairs_view(pre_attrs).len() + 1);
                assert(spec_row_attrs(rname@, rowd, j + 1) == spec_row_attrs(
                    rname@,
                    rowd,
                    j as int,
                ).push((rowd[j as int].0, spec_cell_attr(rowd[j as int].1))));
                assert forall|q: int| 0 <= q < pairs_view(attrs@).len() implies pairs_view(
                    attrs@,
                )[q] == spec_row_attrs(rname@, rowd, j + 1)[q] by {
                    if q < pre_attrs.len() {
                        assert(attrs@[q] == pre_attrs[q]);
                        assert(pairs_view(pre_attrs)[q] == spec_row_attrs(
                            rname@,
                            rowd,
                            j as int,
                        )[q]);
                    } else {
                        assert(attrs@[q].0@ == rowd[j as int].0);
                        assert(attrs@[q].1@ == spec_cell_attr(rowd[j as int].1));
                    }
                }
                assert(pairs_view(attrs@) =~= spec_row_attrs(rname@, rowd, j + 1));
            }
            j += 1;
        }
        let _ = write_empty(&mut w, entry_tag.as_slice(), &attrs);
        i += 1;
    }
    let _ = write_close(&mut w, table_tag.as_slice());
    let _ = write_close(&mut w, root_tag.as_slice());
    proof {
        assert(writer_log(w) == spec_table_log(tdeep));
    }
    writer_output(w)
}

} // verus!
