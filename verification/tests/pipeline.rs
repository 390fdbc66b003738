use objmask_balance::diag::{Error, Warning};
use objmask_balance::matrix::calculate_new_balance;
use objmask_balance::modifier::{cell_rounded, Cell};
use objmask_balance::omap::OMap;
use objmask_balance::pipeline::{parse_balance, parse_unitrules, rebuild_balance};

fn unit(name: &str, mask: &str) -> String {
    format!("<UNIT><NAME>{}</NAME><OBJ_MASK>{}</OBJ_MASK></UNIT>", name, mask)
}

fn rules_doc(body: &str) -> Vec<u8> {
    format!("<ROOT><TABLE>{}</TABLE></ROOT>", body).into_bytes()
}

fn balance_doc(body: &str) -> Vec<u8> {
    format!("<ROOT><TABLE>{}</TABLE></ROOT>", body).into_bytes()
}

fn rounded(out: &OMap<OMap<Cell>>, a: &[u8], b: &[u8]) -> i64 {
    let row = out.get(a).expect("row missing");
    let cell = row.get(b).expect("column missing");
    cell_rounded(cell)
}

#[test]
fn neutral_fallback_is_100() {
    let rules = rules_doc(&(unit("Alpha", "A") + &unit("Beta", "B")));
    let balance = balance_doc("");
    let (index, _w) = parse_unitrules(&rules).unwrap();
    let table = parse_balance(&balance).unwrap();
    let out = calculate_new_balance(&index, &table);
    assert_eq!(rounded(&out, b"Alpha", b"Beta"), 100);
    assert_eq!(rounded(&out, b"Beta", b"Alpha"), 100);
    assert_eq!(rounded(&out, b"Alpha", b"Alpha"), 100);
    assert_eq!(rounded(&out, b"SIEGE", b"Alpha"), 100);
}

#[test]
fn category_rows_and_columns_are_neutralized() {
    let rules = rules_doc(&unit("Alpha", "A"));
    // The sparse table even states rules for the category name itself; the
    // output must still neutralize every category-addressed cell.
    let balance = balance_doc(
        "<ENTRY name=\"Flag_A_OBJMASK_ARMORED\" Alpha=\"700\" Flag_A_OBJMASK_ARMORED=\"700\"/>",
    );
    let (index, _w) = parse_unitrules(&rules).unwrap();
    let table = parse_balance(&balance).unwrap();
    let out = calculate_new_balance(&index, &table);
    assert_eq!(rounded(&out, b"Flag_A_OBJMASK_ARMORED", b"Alpha"), 100);
    assert_eq!(rounded(&out, b"Alpha", b"Flag_A_OBJMASK_ARMORED"), 100);
    assert_eq!(
        rounded(&out, b"Flag_A_OBJMASK_ARMORED", b"Flag_A_OBJMASK_ARMORED"),
        100
    );
    assert_eq!(
        rounded(&out, b"Flag_B_OBJMASK_BOMBARD", b"Flag_C_OBJMASK_CIVILIAN"),
        100
    );
    // The unit pays for its membership: Alpha is armored, and the armored
    // category was told to hit Alpha at 700.
    assert_eq!(rounded(&out, b"Alpha", b"Alpha"), 4900);
}

#[test]
fn multiplicative_composition_rounds_half_up() {
    // Alpha carries category armored, Beta carries category bombard.
    // Rules: Alpha vs bombard 50, armored vs Beta 50, armored vs bombard 50.
    // 100 * 0.5 * 0.5 * 0.5 = 12.5, which rounds to 13 on output.
    let rules = rules_doc(&(unit("Alpha", "A") + &unit("Beta", "B")));
    let balance = balance_doc(
        "<ENTRY name=\"Alpha\" Flag_B_OBJMASK_BOMBARD=\"50\"/>\
         <ENTRY name=\"Flag_A_OBJMASK_ARMORED\" Beta=\"50\" Flag_B_OBJMASK_BOMBARD=\"50\"/>",
    );
    let (index, _w) = parse_unitrules(&rules).unwrap();
    let table = parse_balance(&balance).unwrap();
    let out = calculate_new_balance(&index, &table);
    assert_eq!(rounded(&out, b"Alpha", b"Beta"), 13);
    // Beta attacking Alpha sees no rule at all.
    assert_eq!(rounded(&out, b"Beta", b"Alpha"), 100);
}

#[test]
fn merge_on_duplicate_unions_and_warns() {
    // Pike is flag 5; Foot is flag F.
    let rules = rules_doc(&(unit("Pikeman", "5") + &unit("Pikeman", "5F")));
    let (index, warns) = parse_unitrules(&rules).unwrap();
    assert!(warns.contains(&Warning::DuplicateUnit));
    let mask = *index.get(b"Pikeman").expect("Pikeman missing");
    let pike = 1u32 << 30;
    let foot = 1u32 << 5;
    assert_eq!(mask, pike | foot);
}

#[test]
fn equal_duplicate_does_not_warn() {
    let rules = rules_doc(&(unit("Pikeman", "5") + &unit("Pikeman", "5")));
    let (_index, warns) = parse_unitrules(&rules).unwrap();
    assert!(!warns.contains(&Warning::DuplicateUnit));
}

#[test]
fn ignore_list_excludes_unit_entirely() {
    let rules = rules_doc(&(unit("Fur Trapper", "C") + &unit("Alpha", "A")));
    let balance = balance_doc("");
    let (index, _w) = parse_unitrules(&rules).unwrap();
    assert!(index.get(b"Fur_Trapper").is_none());
    let table = parse_balance(&balance).unwrap();
    let out = calculate_new_balance(&index, &table);
    assert!(out.get(b"Fur_Trapper").is_none());
    let row = out.get(b"Alpha").expect("Alpha row missing");
    assert!(row.get(b"Fur_Trapper").is_none());
}

#[test]
fn round_trip_is_deterministic() {
    let rules = rules_doc(&(unit("Alpha", "AB") + &unit("King's Guard", "F")));
    let balance = balance_doc("<ENTRY name=\"Alpha\" Kings_Guard=\"150\"/>");
    let one = rebuild_balance(&rules, &balance).unwrap();
    let two = rebuild_balance(&rules, &balance).unwrap();
    assert_eq!(one.0, two.0);
    assert_eq!(one.1, two.1);
}

#[test]
fn name_normalization_strips_apostrophes_and_spaces() {
    let rules = rules_doc(&unit("King's Guard", "F"));
    let (index, _w) = parse_unitrules(&rules).unwrap();
    assert!(index.get(b"Kings_Guard").is_some());
    assert!(index.get(b"King's Guard").is_none());
    let balance = balance_doc("");
    let (bytes, _warns) = rebuild_balance(&rules, &balance).unwrap();
    let text = String::from_utf8(bytes).unwrap();
    assert!(text.contains("<ENTRY name=\"Kings_Guard\""));
}

#[test]
fn entity_reference_in_name_resolves() {
    let rules = rules_doc(&unit("King&apos;s Guard", "F"));
    let (index, _w) = parse_unitrules(&rules).unwrap();
    assert!(index.get(b"Kings_Guard").is_some());
}

#[test]
fn unknown_entity_in_name_is_fatal() {
    let rules = rules_doc(&unit("King&blorp;s Guard", "F"));
    match parse_unitrules(&rules) {
        Err(Error::BadUnitName(n)) => assert_eq!(n, b"blorp".to_vec()),
        other => panic!("expected a bad-name error, got {:?}", other.map(|_| ())),
    }
}

#[test]
fn unknown_flag_warns_and_is_skipped() {
    let rules = rules_doc(&unit("Alpha", "A9"));
    let (index, warns) = parse_unitrules(&rules).unwrap();
    assert!(warns.contains(&Warning::UnknownFlag(b'9')));
    assert_eq!(*index.get(b"Alpha").unwrap(), 1u32 << 0);
}

#[test]
fn meta_names_participate_as_rows_and_columns() {
    let rules = rules_doc(&unit("Alpha", ""));
    let balance = balance_doc("<ENTRY name=\"SIEGE\" Alpha=\"200\"/>");
    let (index, _w) = parse_unitrules(&rules).unwrap();
    assert!(index.get(b"SIEGE").is_some());
    assert!(index.get(b"AGE_7").is_some());
    let table = parse_balance(&balance).unwrap();
    let out = calculate_new_balance(&index, &table);
    // SIEGE is a direct rule source: its own row applies it.
    assert_eq!(rounded(&out, b"SIEGE", b"Alpha"), 200);
    assert_eq!(rounded(&out, b"Alpha", b"SIEGE"), 100);
}

#[test]
fn unit_named_like_meta_name_keeps_its_flags() {
    let rules = rules_doc(&(unit("SIEGE", "A") + &unit("Alpha", "")));
    let balance = balance_doc("<ENTRY name=\"Flag_A_OBJMASK_ARMORED\" Alpha=\"50\"/>");
    let (index, _w) = parse_unitrules(&rules).unwrap();
    assert_eq!(*index.get(b"SIEGE").unwrap(), 1u32 << 0);
    let table = parse_balance(&balance).unwrap();
    let out = calculate_new_balance(&index, &table);
    // SIEGE carries the armored flag, so the armored-vs-Alpha rule applies.
    assert_eq!(rounded(&out, b"SIEGE", b"Alpha"), 50);
}

#[test]
fn missing_entry_name_is_fatal() {
    let rules = rules_doc(&unit("Alpha", ""));
    let balance = balance_doc("<ENTRY Alpha=\"50\"/>");
    let (_index, _w) = parse_unitrules(&rules).unwrap();
    match parse_balance(&balance) {
        Err(Error::MissingEntryName) => {},
        other => panic!("expected a missing-name error, got {:?}", other.map(|_| ())),
    }
}

#[test]
fn non_numeric_modifier_is_fatal() {
    let balance = balance_doc("<ENTRY name=\"Alpha\" Beta=\"fast\"/>");
    match parse_balance(&balance) {
        Err(Error::BadNumber(k, v)) => {
            assert_eq!(k, b"Beta".to_vec());
            assert_eq!(v, b"fast".to_vec());
        },
        other => panic!("expected a bad-number error, got {:?}", other.map(|_| ())),
    }
}

#[test]
fn malformed_rules_document_is_fatal() {
    let rules = b"<ROOT><UNIT><NAME>Alpha</BADCLOSE></UNIT></ROOT>".to_vec();
    match parse_unitrules(&rules) {
        Err(Error::ReadRules(_)) => {},
        other => panic!("expected a read error, got {:?}", other.map(|_| ())),
    }
}

#[test]
fn escaped_attribute_values_are_unescaped_then_reescaped() {
    let rules = rules_doc(&(unit("A&amp;B", "") + &unit("C", "")));
    // The balance source names the unit through an entity reference, and
    // states the modifier in exponent notation.
    let balance = balance_doc("<ENTRY name=\"A&amp;B\" C=\"5e1\"/>");
    let (index0, _w0) = parse_unitrules(&rules).unwrap();
    let table0 = parse_balance(&balance).unwrap();
    let out0 = calculate_new_balance(&index0, &table0);
    assert_eq!(rounded(&out0, b"A&B", b"C"), 50);
    let balance2 = balance_doc("<ENTRY name=\"A&amp;B\" C=\"50\"/>");
    let (index, _w) = parse_unitrules(&rules).unwrap();
    let table = parse_balance(&balance2).unwrap();
    let out = calculate_new_balance(&index, &table);
    assert_eq!(rounded(&out, b"A&B", b"C"), 50);
    let (bytes, _warns) = rebuild_balance(&rules, &balance2).unwrap();
    let text = String::from_utf8(bytes).unwrap();
    assert!(text.contains("<ENTRY name=\"A&amp;B\""));
}

#[test]
fn later_entry_overwrites_earlier_entry() {
    let rules = rules_doc(&(unit("Alpha", "") + &unit("Beta", "")));
    let balance = balance_doc(
        "<ENTRY name=\"Alpha\" Beta=\"50\"/><ENTRY name=\"Alpha\" Beta=\"200\"/>",
    );
    let (index, _w) = parse_unitrules(&rules).unwrap();
    let table = parse_balance(&balance).unwrap();
    let out = calculate_new_balance(&index, &table);
    assert_eq!(rounded(&out, b"Alpha", b"Beta"), 200);
}

#[test]
fn output_shape_is_square_and_ordered() {
    let rules = rules_doc(&(unit("Alpha", "A") + &unit("Beta", "")));
    let balance = balance_doc("");
    let (index, _w) = parse_unitrules(&rules).unwrap();
    let table = parse_balance(&balance).unwrap();
    let out = calculate_new_balance(&index, &table);
    // Rows: the two units, the fifteen meta names, then the thirty-two
    // category names.
    assert_eq!(out.len(), 2 + 15 + 32);
    assert_eq!(out.key_at(0).as_slice(), b"Alpha");
    assert_eq!(out.key_at(1).as_slice(), b"Beta");
    assert_eq!(out.key_at(2).as_slice(), b"SIEGE");
    // Every row carries every index name plus every category name.
    for r in 0..out.len() {
        assert_eq!(out.val_at(r).len(), 2 + 15 + 32);
    }
}

#[test]
fn output_document_structure() {
    let rules = rules_doc(&unit("Alpha", ""));
    let balance = balance_doc("");
    let (bytes, _warns) = rebuild_balance(&rules, &balance).unwrap();
    let text = String::from_utf8(bytes).unwrap();
    assert!(text.starts_with("<?xml version=\"1.0\"?>"));
    assert!(text.contains("<ROOT>"));
    assert!(text.contains("<TABLE>"));
    assert!(text.contains("</TABLE>"));
    assert!(text.contains("</ROOT>"));
    assert!(text.contains("<ENTRY name=\"Alpha\""));
    assert!(text.contains("Alpha=\"100\""));
}

#[test]
fn empty_sources_still_yield_the_synthetic_matrix() {
    let rules = rules_doc("");
    let balance = balance_doc("");
    let (index, warns) = parse_unitrules(&rules).unwrap();
    assert!(warns.is_empty());
    assert_eq!(index.len(), 15);
    let table = parse_balance(&balance).unwrap();
    let out = calculate_new_balance(&index, &table);
    assert_eq!(out.len(), 15 + 32);
    assert_eq!(rounded(&out, b"FORTS", b"TOWERS"), 100);
}

#[test]
fn negative_modifiers_flow_to_the_output() {
    let rules = rules_doc(&(unit("Alpha", "") + &unit("Beta", "")));
    let balance = balance_doc("<ENTRY name=\"Alpha\" Beta=\"-50\"/>");
    let (bytes, _warns) = rebuild_balance(&rules, &balance).unwrap();
    let text = String::from_utf8(bytes).unwrap();
    assert!(text.contains("Beta=\"-50\""));
}

#[test]
fn self_closing_unit_records_are_not_records() {
    let rules = rules_doc("<UNIT/>");
    let (index, warns) = parse_unitrules(&rules).unwrap();
    assert!(warns.is_empty());
    // Only the synthetic meta names are present.
    assert_eq!(index.len(), 15);
}

#[test]
fn multi_byte_flag_character_warns_once() {
    // A two-byte character in the flag string draws one warning, for its
    // leading byte; the continuation byte draws none.
    let rules = rules_doc(&unit("Alpha", "A\u{e9}"));
    let (index, warns) = parse_unitrules(&rules).unwrap();
    assert_eq!(warns, vec![Warning::UnknownFlag(0xC3)]);
    assert_eq!(*index.get(b"Alpha").unwrap(), 1u32 << 0);
}
