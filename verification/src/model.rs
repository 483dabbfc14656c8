//! The report's structure: the workforce grid, the work-in-progress rows and
//! the on-site checklist, with the names of their fields and the sheet cells
//! that their values are drawn into.

use vstd::prelude::*;
use crate::names::{digit_char, indexed_name, indexed_name2, spec_indexed_name, spec_indexed_name2};

verus! {

/// Number of contractor columns in the workforce grid (Prime + 4 Sub).
pub const WF_COLS: usize = 5;
/// Rows in the workforce grid.
pub const WF_ROWS: usize = 8;
/// Work-in-progress description rows.
pub const WIP_ROWS: usize = 8;

/// The key to the work-in-progress codes.
pub const WIP_LEGEND: &'static str =
    "1) Excavation   2) Drainage   3) Subbase/Subgrade   4) Concrete   5) Asphalt   6) Utilities   7) Other";

/// The default heading of each workforce column.
pub fn wf_default_names() -> (v: Vec<&'static str>)
    ensures
        v@.len() == WF_COLS,
        v@[0]@ == "Prime Contractor"@,
        forall|i: int| 1 <= i < WF_COLS ==> #[trigger] v@[i]@ == "Sub Contractor"@,
{
    vec!["Prime Contractor", "Sub Contractor", "Sub Contractor", "Sub Contractor", "Sub Contractor"]
}

/// A checklist group: a heading and its (field name, label) items.
pub struct CkGroup {
    pub head: &'static str,
    pub items: &'static [(&'static str, &'static str)],
}

/// A checklist group as text: its heading, and its (field name, label) items.
pub type GroupText = (Seq<char>, Seq<(Seq<char>, Seq<char>)>);

/// A group's heading and items, as text.
pub open spec fn group_view(g: CkGroup) -> GroupText {
    (g.head@, g.items@.map_values(|it: (&'static str, &'static str)| (it.0@, it.1@)))
}

/// Groups as text.
pub open spec fn groups_view(v: Seq<CkGroup>) -> Seq<GroupText> {
    v.map_values(|g: CkGroup| group_view(g))
}

/// The left column of the on-site checklist.
pub open spec fn ck_left_spec() -> Seq<GroupText> {
    seq![
        ("Barricading:"@, seq![("barr_arrival"@, "Check Site Arrival"@), ("barr_departure"@, "Check Site Departure"@), ("barr_secure"@, "Contractor Advised to Secure"@)]),
        ("Excavation:"@, seq![("exc_truckbox"@, "Truck Box Measured"@)]),
        ("Fill:"@, seq![("fill_lift"@, "Lift Thickness Checked"@)]),
        ("Subgrade:"@, seq![("sub_elev"@, "Elevation Checked"@)]),
        ("Con. Base:"@, seq![("cb_grade"@, "Check Grade"@), ("cb_elev"@, "Elevation Checked (10mm)"@), ("cb_thick"@, "Thickness Tolerances Check"@)]),
        ("Concrete:"@, seq![("conc_straight"@, "Straight Edge Tolerance (6mm)"@), ("conc_elev"@, "Elevation Tolerance (15mm)"@), ("conc_cross"@, "Crossfall Tolerance (10mm)"@), ("conc_forms"@, "Check Forms"@)]),
        ("Soil Cement:"@, seq![("sc_grade"@, "Check Grade"@), ("sc_lift"@, "Lift Thickness Check"@)]),
    ]
}

/// The right column of the on-site checklist.
pub open spec fn ck_right_spec() -> Seq<GroupText> {
    seq![
        ("Drainage:"@, seq![("dr_pipe"@, "Pipe Stamped"@), ("dr_grade"@, "Check Grade"@), ("dr_elev"@, "Elevation Checked"@)]),
        ("Landscaping:"@, seq![("ls_topsoil"@, "Topsoil Depth"@)]),
        ("Pavers:"@, seq![("pv_grade"@, "Check Grade"@), ("pv_straight"@, "Straight Edge Tolerance (8mm)"@), ("pv_joints"@, "Joints Between Paves (3mm)"@)]),
        ("Asphalt:"@, seq![("as_notify"@, "Notify Lab"@), ("as_lift"@, "Lift Checked"@), ("as_spread"@, "Spreading Temp"@)]),
        ("FDR:"@, seq![("fdr_grade"@, "Check Grade"@), ("fdr_cement"@, "Cement Spread"@), ("fdr_visual"@, "Visual Inspection"@)]),
    ]
}

/// The left column of the on-site checklist.
pub fn ck_left() -> (v: Vec<CkGroup>)
    ensures
        groups_view(v@) == ck_left_spec(),
{
    let v = vec![
        CkGroup { head: "Barricading:", items: &[("barr_arrival", "Check Site Arrival"), ("barr_departure", "Check Site Departure"), ("barr_secure", "Contractor Advised to Secure")] },
        CkGroup { head: "Excavation:", items: &[("exc_truckbox", "Truck Box Measured")] },
        CkGroup { head: "Fill:", items: &[("fill_lift", "Lift Thickness Checked")] },
        CkGroup { head: "Subgrade:", items: &[("sub_elev", "Elevation Checked")] },
        CkGroup { head: "Con. Base:", items: &[("cb_grade", "Check Grade"), ("cb_elev", "Elevation Checked (10mm)"), ("cb_thick", "Thickness Tolerances Check")] },
        CkGroup { head: "Concrete:", items: &[("conc_straight", "Straight Edge Tolerance (6mm)"), ("conc_elev", "Elevation Tolerance (15mm)"), ("conc_cross", "Crossfall Tolerance (10mm)"), ("conc_forms", "Check Forms")] },
        CkGroup { head: "Soil Cement:", items: &[("sc_grade", "Check Grade"), ("sc_lift", "Lift Thickness Check")] },
    ];
    proof {
        assert(group_view(v@[0]).1 =~= ck_left_spec()[0].1);
        assert(group_view(v@[1]).1 =~= ck_left_spec()[1].1);
        assert(group_view(v@[2]).1 =~= ck_left_spec()[2].1);
        assert(group_view(v@[3]).1 =~= ck_left_spec()[3].1);
        assert(group_view(v@[4]).1 =~= ck_left_spec()[4].1);
        assert(group_view(v@[5]).1 =~= ck_left_spec()[5].1);
        assert(group_view(v@[6]).1 =~= ck_left_spec()[6].1);
        assert(groups_view(v@) =~= ck_left_spec());
    }
    v
}

/// The right column of the on-site checklist.
pub fn ck_right() -> (v: Vec<CkGroup>)
    ensures
        groups_view(v@) == ck_right_spec(),
{
    let v = vec![
        CkGroup { head: "Drainage:", items: &[("dr_pipe", "Pipe Stamped"), ("dr_grade", "Check Grade"), ("dr_elev", "Elevation Checked")] },
        CkGroup { head: "Landscaping:", items: &[("ls_topsoil", "Topsoil Depth")] },
        CkGroup { head: "Pavers:", items: &[("pv_grade", "Check Grade"), ("pv_straight", "Straight Edge Tolerance (8mm)"), ("pv_joints", "Joints Between Paves (3mm)")] },
        CkGroup { head: "Asphalt:", items: &[("as_notify", "Notify Lab"), ("as_lift", "Lift Checked"), ("as_spread", "Spreading Temp")] },
        CkGroup { head: "FDR:", items: &[("fdr_grade", "Check Grade"), ("fdr_cement", "Cement Spread"), ("fdr_visual", "Visual Inspection")] },
    ];
    proof {
        assert(group_view(v@[0]).1 =~= ck_right_spec()[0].1);
        assert(group_view(v@[1]).1 =~= ck_right_spec()[1].1);
        assert(group_view(v@[2]).1 =~= ck_right_spec()[2].1);
        assert(group_view(v@[3]).1 =~= ck_right_spec()[3].1);
        assert(group_view(v@[4]).1 =~= ck_right_spec()[4].1);
        assert(groups_view(v@) =~= ck_right_spec());
    }
    v
}

/// The field names of the items of some checklist groups, group after group.
pub open spec fn group_names(gs: Seq<GroupText>) -> Seq<Seq<char>>
    decreases gs.len(),
{
    if gs.len() == 0 {
        Seq::empty()
    } else {
        group_names(gs.drop_last()) + gs.last().1.map_values(|it: (Seq<char>, Seq<char>)| it.0)
    }
}

/// The field names of the left checklist column, top to bottom.
pub open spec fn left_names() -> Seq<Seq<char>> {
    seq!["barr_arrival"@, "barr_departure"@, "barr_secure"@, "exc_truckbox"@, "fill_lift"@, "sub_elev"@, "cb_grade"@, "cb_elev"@, "cb_thick"@, "conc_straight"@, "conc_elev"@, "conc_cross"@, "conc_forms"@, "sc_grade"@, "sc_lift"@]
}

/// The field names of the right checklist column, top to bottom.
pub open spec fn right_names() -> Seq<Seq<char>> {
    seq!["dr_pipe"@, "dr_grade"@, "dr_elev"@, "ls_topsoil"@, "pv_grade"@, "pv_straight"@, "pv_joints"@, "as_notify"@, "as_lift"@, "as_spread"@, "fdr_grade"@, "fdr_cement"@, "fdr_visual"@]
}

/// The lab-sample box of each work-in-progress row: `wip_0_lab` .. `wip_7_lab`.
pub open spec fn wip_lab_names() -> Seq<Seq<char>> {
    Seq::new(WIP_ROWS as nat, |i: int| spec_indexed_name("wip_"@, i, "_lab"@))
}

/// Every checkbox field name: the work-in-progress lab boxes, then the
/// checklist items of the left column and of the right column.
pub open spec fn checkbox_names() -> Seq<Seq<char>> {
    wip_lab_names() + group_names(ck_left_spec()) + group_names(ck_right_spec())
}

/// The checklist columns' field names, group after group, are the item lists
/// that the sheet's checkbox cells are laid out from.
pub proof fn lemma_group_names()
    ensures
        group_names(ck_left_spec()) == left_names(),
        group_names(ck_right_spec()) == right_names(),
{
    reveal_with_fuel(group_names, 8);
    assert(group_names(ck_left_spec()) =~= left_names());
    assert(group_names(ck_right_spec()) =~= right_names());
}

/// The text of some strings.
pub open spec fn strings_view(v: Seq<String>) -> Seq<Seq<char>> {
    v.map_values(|s: String| s@)
}

proof fn lemma_strings_view_push(v: Seq<String>, x: String)
    ensures
        strings_view(v.push(x)) == strings_view(v).push(x@),
{
    assert(strings_view(v.push(x)) =~= strings_view(v).push(x@));
}

/// Appends the field names of the items of `groups`, group after group.
fn push_group_names(v: &mut Vec<String>, groups: &Vec<CkGroup>)
    ensures
        strings_view(final(v)@) == strings_view(old(v)@) + group_names(groups_view(groups@)),
{
    let ghost gv = groups_view(groups@);
    let mut i: usize = 0;
    while i < groups.len()
        invariant
            i <= groups@.len(),
            gv == groups_view(groups@),
            strings_view(v@) == strings_view(old(v)@) + group_names(gv.take(i as int)),
        decreases groups@.len() - i,
    {
        let items = groups[i].items;
        let ghost before = strings_view(v@);
        let mut j: usize = 0;
        while j < items.len()
            invariant
                j <= items@.len(),
                items@ == groups@[i as int].items@,
                strings_view(v@) == before + items@.take(j as int).map_values(|it: (&'static str, &'static str)| it.0@),
            decreases items@.len() - j,
        {
            let ghost prev = v@;
            v.push(items[j].0.to_owned());
            proof {
                lemma_strings_view_push(prev, v@.last());
                assert(items@.take(j + 1) =~= items@.take(j as int).push(items@[j as int]));
                assert(strings_view(v@) =~= before + items@.take(j + 1).map_values(|it: (&'static str, &'static str)| it.0@));
            }
            j = j + 1;
        }
        proof {
            assert(gv.take(i + 1).drop_last() =~= gv.take(i as int));
            assert(items@.take(items@.len() as int) =~= items@);
            assert(gv.take(i + 1).last().1.map_values(|it: (Seq<char>, Seq<char>)| it.0) =~= items@.map_values(|it: (&'static str, &'static str)| it.0@));
            assert(strings_view(v@) =~= strings_view(old(v)@) + group_names(gv.take(i + 1)));
        }
        i = i + 1;
    }
    proof {
        assert(gv.take(groups@.len() as int) =~= gv);
    }
}

/// Every checkbox field name (work-in-progress lab flags + checklist items).
pub fn all_checkbox_names() -> (v: Vec<String>)
    ensures
        strings_view(v@) == checkbox_names(),
{
    let mut v: Vec<String> = Vec::new();
    let mut i: usize = 0;
    while i < WIP_ROWS
        invariant
            i <= WIP_ROWS,
            strings_view(v@) == wip_lab_names().take(i as int),
        decreases WIP_ROWS - i,
    {
        let ghost prev = v@;
        v.push(indexed_name("wip_", i, "_lab"));
        proof {
            lemma_strings_view_push(prev, v@.last());
            assert(wip_lab_names().take(i + 1) =~= wip_lab_names().take(i as int).push(wip_lab_names()[i as int]));
        }
        i = i + 1;
    }
    proof {
        assert(wip_lab_names().take(WIP_ROWS as int) =~= wip_lab_names());
    }
    let left = ck_left();
    push_group_names(&mut v, &left);
    let right = ck_right();
    push_group_names(&mut v, &right);
    proof {
        assert(strings_view(v@) =~= checkbox_names());
    }
    v
}

/// A sheet cell range that a text field is drawn into: (field name, row,
/// first column, last column), rows and columns counted from 1.
pub type FieldCell = (String, i64, i64, i64);

/// A field cell's text.
pub open spec fn field_cell_view(c: FieldCell) -> (Seq<char>, i64, i64, i64) {
    (c.0@, c.1, c.2, c.3)
}

/// Field cells as text.
pub open spec fn field_cells_view(v: Seq<FieldCell>) -> Seq<(Seq<char>, i64, i64, i64)> {
    v.map_values(|c: FieldCell| field_cell_view(c))
}

proof fn lemma_field_cells_view_push(v: Seq<FieldCell>, x: FieldCell)
    ensures
        field_cells_view(v.push(x)) == field_cells_view(v).push(field_cell_view(x)),
{
    assert(field_cells_view(v.push(x)) =~= field_cells_view(v).push(field_cell_view(x)));
}

/// The single-value fields of the report and their cells.
pub open spec fn fixed_field_cells() -> Seq<(Seq<char>, i64, i64, i64)> {
    seq![
        ("date"@, 6i64, 2i64, 3i64),
        ("contractNo"@, 6i64, 5i64, 6i64),
        ("networkActivityNo"@, 6i64, 9i64, 11i64),
        ("location"@, 8i64, 3i64, 11i64),
        ("inspStart"@, 10i64, 3i64, 3i64),
        ("inspEnd"@, 10i64, 5i64, 5i64),
        ("inspector"@, 11i64, 1i64, 11i64),
        ("contrStart"@, 14i64, 3i64, 3i64),
        ("contrEnd"@, 14i64, 5i64, 5i64),
        ("contractor"@, 15i64, 1i64, 11i64),
        ("weather"@, 16i64, 3i64, 4i64),
        ("tempHigh"@, 16i64, 8i64, 8i64),
        ("tempLow"@, 16i64, 11i64, 11i64),
        ("inspectorSig"@, 72i64, 4i64, 7i64),
        ("inspectorSigDate"@, 72i64, 10i64, 11i64),
        ("pmSig"@, 74i64, 4i64, 7i64),
        ("pmSigDate"@, 74i64, 10i64, 11i64)
    ]
}

/// The workforce grid cell `k`: column `k / 16`, row `(k % 16) / 2`, the
/// crew count where `k` is even and the equipment where it is odd. Each
/// contractor column spans two sheet columns; the grid starts on sheet row 23.
pub open spec fn wf_cell(k: int) -> (Seq<char>, i64, i64, i64) {
    let col = k / 16;
    let row = (k % 16) / 2;
    let equip = k % 2 == 1;
    let name = spec_indexed_name2("wf_"@, col, "_"@, row, if equip { "_equip"@ } else { "_crew"@ });
    let c = (1 + col * 2 + if equip { 1int } else { 0int }) as i64;
    (name, (23 + row) as i64, c, c)
}

/// The work-in-progress description of row `i`: sheet row `33 + i`, columns 1 to 9.
pub open spec fn wip_text_cell(i: int) -> (Seq<char>, i64, i64, i64) {
    (spec_indexed_name("wip_"@, i, "_text"@), (33 + i) as i64, 1i64, 9i64)
}

/// Every text field drawn into a single row of cells: the fixed fields, the
/// workforce grid column by column, then the work-in-progress descriptions.
pub open spec fn field_cells_spec() -> Seq<(Seq<char>, i64, i64, i64)> {
    fixed_field_cells()
        + Seq::new((WF_COLS * WF_ROWS * 2) as nat, |k: int| wf_cell(k))
        + Seq::new(WIP_ROWS as nat, |i: int| wip_text_cell(i))
}

/// The cells of the fields the report draws into a single row.
pub fn field_cells() -> (v: Vec<FieldCell>)
    ensures
        field_cells_view(v@) == field_cells_spec(),
{
    let mut v: Vec<FieldCell> = Vec::new();
    v.push(("date".to_owned(), 6i64, 2i64, 3i64));
    v.push(("contractNo".to_owned(), 6i64, 5i64, 6i64));
    v.push(("networkActivityNo".to_owned(), 6i64, 9i64, 11i64));
    v.push(("location".to_owned(), 8i64, 3i64, 11i64));
    v.push(("inspStart".to_owned(), 10i64, 3i64, 3i64));
    v.push(("inspEnd".to_owned(), 10i64, 5i64, 5i64));
    v.push(("inspector".to_owned(), 11i64, 1i64, 11i64));
    v.push(("contrStart".to_owned(), 14i64, 3i64, 3i64));
    v.push(("contrEnd".to_owned(), 14i64, 5i64, 5i64));
    v.push(("contractor".to_owned(), 15i64, 1i64, 11i64));
    v.push(("weather".to_owned(), 16i64, 3i64, 4i64));
    v.push(("tempHigh".to_owned(), 16i64, 8i64, 8i64));
    v.push(("tempLow".to_owned(), 16i64, 11i64, 11i64));
    v.push(("inspectorSig".to_owned(), 72i64, 4i64, 7i64));
    v.push(("inspectorSigDate".to_owned(), 72i64, 10i64, 11i64));
    v.push(("pmSig".to_owned(), 74i64, 4i64, 7i64));
    v.push(("pmSigDate".to_owned(), 74i64, 10i64, 11i64));
    proof {
        assert(field_cells_view(v@) =~= fixed_field_cells());
    }
    let ghost wf = Seq::new((WF_COLS * WF_ROWS * 2) as nat, |k: int| wf_cell(k));
    let mut col: usize = 0;
    while col < WF_COLS
        invariant
            col <= WF_COLS,
            wf == Seq::new((WF_COLS * WF_ROWS * 2) as nat, |k: int| wf_cell(k)),
            field_cells_view(v@) == fixed_field_cells() + wf.take((col * 16) as int),
        decreases WF_COLS - col,
    {
        let mut row: usize = 0;
        while row < WF_ROWS
            invariant
                col < WF_COLS,
                row <= WF_ROWS,
                wf == Seq::new((WF_COLS * WF_ROWS * 2) as nat, |k: int| wf_cell(k)),
                field_cells_view(v@) == fixed_field_cells() + wf.take((col * 16 + row * 2) as int),
            decreases WF_ROWS - row,
        {
            let base = 1 + (col as i64) * 2;
            let r = 23 + row as i64;
            let k = col * 16 + row * 2;
            let ghost prev = v@;
            v.push((indexed_name2("wf_", col, "_", row, "_crew"), r, base, base));
            proof {
                lemma_field_cells_view_push(prev, v@.last());
                assert(wf.take(k + 1) =~= wf.take(k as int).push(wf[k as int]));
                assert(k / 16 == col && (k % 16) / 2 == row && k % 2 == 0);
                assert(field_cells_view(v@) =~= fixed_field_cells() + wf.take(k + 1));
            }
            let ghost prev2 = v@;
            v.push((indexed_name2("wf_", col, "_", row, "_equip"), r, base + 1, base + 1));
            proof {
                lemma_field_cells_view_push(prev2, v@.last());
                assert(wf.take(k + 2) =~= wf.take(k + 1).push(wf[k + 1]));
                assert((k + 1) / 16 == col && ((k + 1) % 16) / 2 == row && (k + 1) % 2 == 1);
                assert(field_cells_view(v@) =~= fixed_field_cells() + wf.take(k + 2));
            }
            row = row + 1;
        }
        col = col + 1;
    }
    let ghost wip = Seq::new(WIP_ROWS as nat, |i: int| wip_text_cell(i));
    proof {
        assert(wf.take(80) =~= wf);
    }
    let mut i: usize = 0;
    while i < WIP_ROWS
        invariant
            i <= WIP_ROWS,
            wf == Seq::new((WF_COLS * WF_ROWS * 2) as nat, |k: int| wf_cell(k)),
            wip == Seq::new(WIP_ROWS as nat, |i: int| wip_text_cell(i)),
            field_cells_view(v@) == fixed_field_cells() + wf + wip.take(i as int),
        decreases WIP_ROWS - i,
    {
        let ghost prev = v@;
        v.push((indexed_name("wip_", i, "_text"), 33 + i as i64, 1, 9));
        proof {
            lemma_field_cells_view_push(prev, v@.last());
            assert(wip.take(i + 1) =~= wip.take(i as int).push(wip[i as int]));
            assert(field_cells_view(v@) =~= fixed_field_cells() + wf + wip.take(i + 1));
        }
        i = i + 1;
    }
    proof {
        assert(wip.take(WIP_ROWS as int) =~= wip);
    }
    v
}

/// A checkbox cell: (field name, row, column), counted from 1.
pub type CheckboxCell = (String, i64, i64);

/// A checkbox cell's text.
pub open spec fn checkbox_cell_view(c: CheckboxCell) -> (Seq<char>, i64, i64) {
    (c.0@, c.1, c.2)
}

/// Checkbox cells as text.
pub open spec fn checkbox_cells_view(v: Seq<CheckboxCell>) -> Seq<(Seq<char>, i64, i64)> {
    v.map_values(|c: CheckboxCell| checkbox_cell_view(c))
}

proof fn lemma_checkbox_cells_view_push(v: Seq<CheckboxCell>, x: CheckboxCell)
    ensures
        checkbox_cells_view(v.push(x)) == checkbox_cells_view(v).push(checkbox_cell_view(x)),
{
    assert(checkbox_cells_view(v.push(x)) =~= checkbox_cells_view(v).push(checkbox_cell_view(x)));
}

/// Every checkbox and its cell: the work-in-progress lab boxes in column 10
/// (rows 33 on), the left checklist column in column 5 and the right one in
/// column 9 (both from row 55).
pub open spec fn checkbox_cells_spec() -> Seq<(Seq<char>, i64, i64)> {
    Seq::new(WIP_ROWS as nat, |i: int| (wip_lab_names()[i], (33 + i) as i64, 10i64))
        + Seq::new(left_names().len(), |i: int| (left_names()[i], (55 + i) as i64, 5i64))
        + Seq::new(right_names().len(), |i: int| (right_names()[i], (55 + i) as i64, 9i64))
}

/// Appends cells for `names`, in `col`, from row `row0` down.
fn push_column(v: &mut Vec<CheckboxCell>, names: &[&'static str], row0: i64, col: i64)
    requires
        names@.len() < 1000,
        0 <= row0 < 1000,
    ensures
        final(v)@.map_values(|c: CheckboxCell| checkbox_cell_view(c)) == checkbox_cells_view(old(v)@)
            + Seq::new(names@.len(), |i: int| (names@[i]@, (row0 + i) as i64, col)),
{
    let mut i: usize = 0;
    while i < names.len()
        invariant
            i <= names@.len(),
            names@.len() < 1000,
            0 <= row0 < 1000,
            checkbox_cells_view(v@) == checkbox_cells_view(old(v)@)
                + Seq::new(i as nat, |j: int| (names@[j]@, (row0 + j) as i64, col)),
        decreases names@.len() - i,
    {
        let ghost prev = v@;
        v.push((names[i].to_owned(), row0 + i as i64, col));
        proof {
            lemma_checkbox_cells_view_push(prev, v@.last());
            assert(checkbox_cells_view(v@) =~= checkbox_cells_view(old(v)@)
                + Seq::new((i + 1) as nat, |j: int| (names@[j]@, (row0 + j) as i64, col)));
        }
        i = i + 1;
    }
}

/// The cells of the report's checkboxes.
pub fn checkbox_cells() -> (v: Vec<CheckboxCell>)
    ensures
        checkbox_cells_view(v@) == checkbox_cells_spec(),
{
    let mut v: Vec<CheckboxCell> = Vec::new();
    let mut i: usize = 0;
    while i < WIP_ROWS
        invariant
            i <= WIP_ROWS,
            checkbox_cells_view(v@) == Seq::new(i as nat, |j: int| (wip_lab_names()[j], (33 + j) as i64, 10i64)),
        decreases WIP_ROWS - i,
    {
        let ghost prev = v@;
        v.push((indexed_name("wip_", i, "_lab"), 33 + i as i64, 10));
        proof {
            lemma_checkbox_cells_view_push(prev, v@.last());
            assert(checkbox_cells_view(v@) =~= Seq::new((i + 1) as nat, |j: int| (wip_lab_names()[j], (33 + j) as i64, 10i64)));
        }
        i = i + 1;
    }
    let left: [&'static str; 15] = ["barr_arrival", "barr_departure", "barr_secure", "exc_truckbox", "fill_lift", "sub_elev", "cb_grade", "cb_elev", "cb_thick", "conc_straight", "conc_elev", "conc_cross", "conc_forms", "sc_grade", "sc_lift"];
    let right: [&'static str; 13] = ["dr_pipe", "dr_grade", "dr_elev", "ls_topsoil", "pv_grade", "pv_straight", "pv_joints", "as_notify", "as_lift", "as_spread", "fdr_grade", "fdr_cement", "fdr_visual"];
    proof {
        assert(left@.map_values(|s: &'static str| s@) =~= left_names());
        assert(right@.map_values(|s: &'static str| s@) =~= right_names());
    }
    push_column(&mut v, left.as_slice(), 55, 5);
    push_column(&mut v, right.as_slice(), 55, 9);
    proof {
        assert(checkbox_cells_view(v@) =~= checkbox_cells_spec());
    }
    v
}

/// Columns of the sheet grid.
pub const SHEET_COLS: i64 = 12;
/// Rows of the sheet, signatures included.
pub const SHEET_ROWS: i64 = 74;

/// The checkbox cells are laid out for exactly the checkbox fields, in the
/// same order: the work-in-progress lab boxes, then the checklist columns.
pub proof fn lemma_checkbox_cells_names()
    ensures
        checkbox_cells_spec().map_values(|c: (Seq<char>, i64, i64)| c.0) == checkbox_names(),
{
    lemma_group_names();
    assert(checkbox_cells_spec().map_values(|c: (Seq<char>, i64, i64)| c.0) =~= checkbox_names());
}

/// Every field cell range lies on the sheet: its row in `1..=SHEET_ROWS`, its
/// columns `c0 <= c1` in `1..=SHEET_COLS`.
pub proof fn lemma_field_cells_on_sheet()
    ensures
        forall|i: int| 0 <= i < field_cells_spec().len() ==> {
            let c = #[trigger] field_cells_spec()[i];
            &&& 1 <= c.1 <= SHEET_ROWS
            &&& 1 <= c.2 <= c.3 <= SHEET_COLS
        },
{
    let f = fixed_field_cells();
    assert forall|i: int| 0 <= i < field_cells_spec().len() implies {
        let c = #[trigger] field_cells_spec()[i];
        &&& 1 <= c.1 <= SHEET_ROWS
        &&& 1 <= c.2 <= c.3 <= SHEET_COLS
    } by {
        if i < f.len() {
            assert(field_cells_spec()[i] == f[i]);
        } else if i < f.len() + 80 {
            let k = i - f.len();
            assert(field_cells_spec()[i] == wf_cell(k));
            assert(0 <= k / 16 < 5 && 0 <= (k % 16) / 2 < 8);
        } else {
            assert(field_cells_spec()[i] == wip_text_cell(i - f.len() - 80));
        }
    }
}

/// Every checkbox cell lies on the sheet.
pub proof fn lemma_checkbox_cells_on_sheet()
    ensures
        forall|i: int| 0 <= i < checkbox_cells_spec().len() ==> {
            let c = #[trigger] checkbox_cells_spec()[i];
            &&& 1 <= c.1 <= SHEET_ROWS
            &&& 1 <= c.2 <= SHEET_COLS
        },
{
}


/// The position of a fixed field name in the list of fixed fields, read
/// off its length and its last character.
spec fn fixed_index(s: Seq<char>) -> int {
    if s.len() == 4 && s.last() == 'e' { 0 } else
    if s.len() == 10 && s.last() == 'o' { 1 } else
    if s.len() == 17 && s.last() == 'o' { 2 } else
    if s.len() == 8 && s.last() == 'n' { 3 } else
    if s.len() == 9 && s.last() == 't' { 4 } else
    if s.len() == 7 && s.last() == 'd' { 5 } else
    if s.len() == 9 && s.last() == 'r' { 6 } else
    if s.len() == 10 && s.last() == 't' { 7 } else
    if s.len() == 8 && s.last() == 'd' { 8 } else
    if s.len() == 10 && s.last() == 'r' { 9 } else
    if s.len() == 7 && s.last() == 'r' { 10 } else
    if s.len() == 8 && s.last() == 'h' { 11 } else
    if s.len() == 7 && s.last() == 'w' { 12 } else
    if s.len() == 12 && s.last() == 'g' { 13 } else
    if s.len() == 16 && s.last() == 'e' { 14 } else
    if s.len() == 5 && s.last() == 'g' { 15 } else
    if s.len() == 9 && s.last() == 'e' { 16 } else { -1 }
}

/// The fixed field names are pairwise different, and none starts like a
/// generated name (`wf_`, `wip_`).
proof fn lemma_fixed_names_distinct()
    ensures
        forall|i: int, j: int| 0 <= i < j < 17 ==> #[trigger] fixed_field_cells()[i].0 != #[trigger] fixed_field_cells()[j].0,
        forall|i: int| 0 <= i < 17 ==> #[trigger] fixed_field_cells()[i].0.len() >= 2
            && !(fixed_field_cells()[i].0[0] == 'w' && (fixed_field_cells()[i].0[1] == 'f' || fixed_field_cells()[i].0[1] == 'i')),
{
    let f = fixed_field_cells();
    assert forall|i: int| 0 <= i < 17 implies fixed_index(#[trigger] f[i].0) == i && f[i].0.len() >= 2
        && !(f[i].0[0] == 'w' && (f[i].0[1] == 'f' || f[i].0[1] == 'i')) by {
        if i == 0 {
            reveal_strlit("date");
        } else if i == 1 {
            reveal_strlit("contractNo");
        } else if i == 2 {
            reveal_strlit("networkActivityNo");
        } else if i == 3 {
            reveal_strlit("location");
        } else if i == 4 {
            reveal_strlit("inspStart");
        } else if i == 5 {
            reveal_strlit("inspEnd");
        } else if i == 6 {
            reveal_strlit("inspector");
        } else if i == 7 {
            reveal_strlit("contrStart");
        } else if i == 8 {
            reveal_strlit("contrEnd");
        } else if i == 9 {
            reveal_strlit("contractor");
        } else if i == 10 {
            reveal_strlit("weather");
        } else if i == 11 {
            reveal_strlit("tempHigh");
        } else if i == 12 {
            reveal_strlit("tempLow");
        } else if i == 13 {
            reveal_strlit("inspectorSig");
        } else if i == 14 {
            reveal_strlit("inspectorSigDate");
        } else if i == 15 {
            reveal_strlit("pmSig");
        } else if i == 16 {
            reveal_strlit("pmSigDate");
        }
    }
    assert forall|i: int, j: int| 0 <= i < j < 17 implies #[trigger] f[i].0 != #[trigger] f[j].0 by {
        assert(fixed_index(f[i].0) == i && fixed_index(f[j].0) == j);
    }
}


/// Different digits are different characters.
proof fn lemma_digit_injective(a: int, b: int)
    requires
        0 <= a < 10,
        0 <= b < 10,
        digit_char(a) == digit_char(b),
    ensures
        a == b,
{
}

/// The characters of a workforce cell's name that tell it apart.
proof fn lemma_wf_name(k: int)
    requires
        0 <= k < 80,
    ensures
        wf_cell(k).0.len() == (if k % 2 == 1 { 12int } else { 11int }),
        wf_cell(k).0[0] == 'w',
        wf_cell(k).0[1] == 'f',
        wf_cell(k).0[3] == digit_char(k / 16),
        wf_cell(k).0[5] == digit_char((k % 16) / 2),
{
    reveal_strlit("wf_");
    reveal_strlit("_");
    reveal_strlit("_crew");
    reveal_strlit("_equip");
}

/// The characters of a work-in-progress description's name that tell it apart.
proof fn lemma_wip_text_name(i: int)
    requires
        0 <= i < 8,
    ensures
        wip_text_cell(i).0[0] == 'w',
        wip_text_cell(i).0[1] == 'i',
        wip_text_cell(i).0[4] == digit_char(i),
        wip_text_cell(i).0.len() == 10,
{
    reveal_strlit("wip_");
    reveal_strlit("_text");
}

/// No two field cells share a field name: every text field is drawn in one place.
pub proof fn lemma_field_names_distinct()
    ensures
        forall|i: int, j: int| 0 <= i < j < field_cells_spec().len()
            ==> #[trigger] field_cells_spec()[i].0 != #[trigger] field_cells_spec()[j].0,
{
    let all = field_cells_spec();
    let f = fixed_field_cells();
    lemma_fixed_names_distinct();
    assert forall|i: int, j: int| 0 <= i < j < all.len() implies #[trigger] all[i].0 != #[trigger] all[j].0 by {
        if j < 17 {
            assert(all[i] == f[i] && all[j] == f[j]);
        } else {
            if j < 97 {
                assert(all[j] == wf_cell(j - 17));
                lemma_wf_name(j - 17);
            } else {
                assert(all[j] == wip_text_cell(j - 97));
                lemma_wip_text_name(j - 97);
            }
            if i < 17 {
                assert(all[i] == f[i]);
                if all[i].0 == all[j].0 {
                    assert(all[i].0[0] == all[j].0[0] && all[i].0[1] == all[j].0[1]);
                }
            } else if i < 97 {
                assert(all[i] == wf_cell(i - 17));
                lemma_wf_name(i - 17);
                if j < 97 && all[i].0 == all[j].0 {
                    let a = i - 17;
                    let b = j - 17;
                    assert(all[i].0[3] == all[j].0[3] && all[i].0[5] == all[j].0[5]);
                    lemma_digit_injective(a / 16, b / 16);
                    lemma_digit_injective((a % 16) / 2, (b % 16) / 2);
                    assert(a % 2 == b % 2);
                    assert(a == b);
                } else if all[i].0 == all[j].0 {
                    assert(all[i].0[1] == all[j].0[1]);
                }
            } else {
                assert(all[i] == wip_text_cell(i - 97));
                lemma_wip_text_name(i - 97);
                if all[i].0 == all[j].0 {
                    assert(all[i].0[4] == all[j].0[4]);
                    lemma_digit_injective(i - 97, j - 97);
                }
            }
        }
    }
}


/// The position of a checklist field name among the checklist items (left
/// column, then right), read off its length and its characters 0 and 5.
spec fn checklist_index(s: Seq<char>) -> int {
    if s.len() == 12 && s[0] == 'b' && s[5] == 'a' { 0 } else
    if s.len() == 14 && s[0] == 'b' && s[5] == 'd' { 1 } else
    if s.len() == 11 && s[0] == 'b' && s[5] == 's' { 2 } else
    if s.len() == 12 && s[0] == 'e' && s[5] == 'r' { 3 } else
    if s.len() == 9 && s[0] == 'f' && s[5] == 'l' { 4 } else
    if s.len() == 8 && s[0] == 's' && s[5] == 'l' { 5 } else
    if s.len() == 8 && s[0] == 'c' && s[5] == 'a' { 6 } else
    if s.len() == 7 && s[0] == 'c' && s[5] == 'e' { 7 } else
    if s.len() == 8 && s[0] == 'c' && s[5] == 'i' { 8 } else
    if s.len() == 13 && s[0] == 'c' && s[5] == 's' { 9 } else
    if s.len() == 9 && s[0] == 'c' && s[5] == 'e' { 10 } else
    if s.len() == 10 && s[0] == 'c' && s[5] == 'c' { 11 } else
    if s.len() == 10 && s[0] == 'c' && s[5] == 'f' { 12 } else
    if s.len() == 8 && s[0] == 's' && s[5] == 'a' { 13 } else
    if s.len() == 7 && s[0] == 's' && s[5] == 'f' { 14 } else
    if s.len() == 7 && s[0] == 'd' && s[5] == 'p' { 15 } else
    if s.len() == 8 && s[0] == 'd' && s[5] == 'a' { 16 } else
    if s.len() == 7 && s[0] == 'd' && s[5] == 'e' { 17 } else
    if s.len() == 10 && s[0] == 'l' && s[5] == 'p' { 18 } else
    if s.len() == 8 && s[0] == 'p' && s[5] == 'a' { 19 } else
    if s.len() == 11 && s[0] == 'p' && s[5] == 'r' { 20 } else
    if s.len() == 9 && s[0] == 'p' && s[5] == 'i' { 21 } else
    if s.len() == 9 && s[0] == 'a' && s[5] == 't' { 22 } else
    if s.len() == 7 && s[0] == 'a' && s[5] == 'f' { 23 } else
    if s.len() == 9 && s[0] == 'a' && s[5] == 'r' { 24 } else
    if s.len() == 9 && s[0] == 'f' && s[5] == 'r' { 25 } else
    if s.len() == 10 && s[0] == 'f' && s[5] == 'e' { 26 } else
    if s.len() == 10 && s[0] == 'f' && s[5] == 'i' { 27 } else { -1 }
}

/// Each checklist item's name gives back its position.
proof fn lemma_checklist_index()
    ensures
        forall|i: int| 0 <= i < 28 ==> checklist_index(#[trigger] (left_names() + right_names())[i]) == i
            && (left_names() + right_names())[i][0] != 'w',
{
    assert forall|i: int| 0 <= i < 28 implies checklist_index(#[trigger] (left_names() + right_names())[i]) == i
        && (left_names() + right_names())[i][0] != 'w' by {
        if i == 0 {
            reveal_strlit("barr_arrival");
        } else if i == 1 {
            reveal_strlit("barr_departure");
        } else if i == 2 {
            reveal_strlit("barr_secure");
        } else if i == 3 {
            reveal_strlit("exc_truckbox");
        } else if i == 4 {
            reveal_strlit("fill_lift");
        } else if i == 5 {
            reveal_strlit("sub_elev");
        } else if i == 6 {
            reveal_strlit("cb_grade");
        } else if i == 7 {
            reveal_strlit("cb_elev");
        } else if i == 8 {
            reveal_strlit("cb_thick");
        } else if i == 9 {
            reveal_strlit("conc_straight");
        } else if i == 10 {
            reveal_strlit("conc_elev");
        } else if i == 11 {
            reveal_strlit("conc_cross");
        } else if i == 12 {
            reveal_strlit("conc_forms");
        } else if i == 13 {
            reveal_strlit("sc_grade");
        } else if i == 14 {
            reveal_strlit("sc_lift");
        } else if i == 15 {
            reveal_strlit("dr_pipe");
        } else if i == 16 {
            reveal_strlit("dr_grade");
        } else if i == 17 {
            reveal_strlit("dr_elev");
        } else if i == 18 {
            reveal_strlit("ls_topsoil");
        } else if i == 19 {
            reveal_strlit("pv_grade");
        } else if i == 20 {
            reveal_strlit("pv_straight");
        } else if i == 21 {
            reveal_strlit("pv_joints");
        } else if i == 22 {
            reveal_strlit("as_notify");
        } else if i == 23 {
            reveal_strlit("as_lift");
        } else if i == 24 {
            reveal_strlit("as_spread");
        } else if i == 25 {
            reveal_strlit("fdr_grade");
        } else if i == 26 {
            reveal_strlit("fdr_cement");
        } else if i == 27 {
            reveal_strlit("fdr_visual");
        }
    }
}

/// The characters of a work-in-progress lab box's name that tell it apart.
proof fn lemma_wip_lab_name(i: int)
    requires
        0 <= i < 8,
    ensures
        wip_lab_names()[i][0] == 'w',
        wip_lab_names()[i][4] == digit_char(i),
        wip_lab_names()[i].len() == 9,
{
    reveal_strlit("wip_");
    reveal_strlit("_lab");
}

/// No two checkboxes share a field name: every box is drawn in one place.
pub proof fn lemma_checkbox_names_distinct()
    ensures
        forall|i: int, j: int| 0 <= i < j < checkbox_names().len()
            ==> #[trigger] checkbox_names()[i] != #[trigger] checkbox_names()[j],
{
    lemma_group_names();
    lemma_checklist_index();
    let all = checkbox_names();
    let items = left_names() + right_names();
    assert(all =~= wip_lab_names() + items);
    assert forall|i: int, j: int| 0 <= i < j < all.len() implies #[trigger] all[i] != #[trigger] all[j] by {
        if j >= 8 {
            assert(all[j] == items[j - 8]);
            if i >= 8 {
                assert(all[i] == items[i - 8]);
                assert(checklist_index(all[i]) == i - 8 && checklist_index(all[j]) == j - 8);
            } else {
                lemma_wip_lab_name(i);
                assert(all[i][0] == 'w');
            }
        } else {
            lemma_wip_lab_name(i);
            lemma_wip_lab_name(j);
            if all[i] == all[j] {
                assert(all[i][4] == all[j][4]);
                lemma_digit_injective(i, j);
            }
        }
    }
}


/// No fixed field name is a checklist item's name.
proof fn lemma_fixed_not_checklist()
    ensures
        forall|i: int| 0 <= i < 17 ==> checklist_index(#[trigger] fixed_field_cells()[i].0) == -1,
{
    assert forall|i: int| 0 <= i < 17 implies checklist_index(#[trigger] fixed_field_cells()[i].0) == -1 by {
        if i == 0 {
            reveal_strlit("date");
        } else if i == 1 {
            reveal_strlit("contractNo");
        } else if i == 2 {
            reveal_strlit("networkActivityNo");
        } else if i == 3 {
            reveal_strlit("location");
        } else if i == 4 {
            reveal_strlit("inspStart");
        } else if i == 5 {
            reveal_strlit("inspEnd");
        } else if i == 6 {
            reveal_strlit("inspector");
        } else if i == 7 {
            reveal_strlit("contrStart");
        } else if i == 8 {
            reveal_strlit("contrEnd");
        } else if i == 9 {
            reveal_strlit("contractor");
        } else if i == 10 {
            reveal_strlit("weather");
        } else if i == 11 {
            reveal_strlit("tempHigh");
        } else if i == 12 {
            reveal_strlit("tempLow");
        } else if i == 13 {
            reveal_strlit("inspectorSig");
        } else if i == 14 {
            reveal_strlit("inspectorSigDate");
        } else if i == 15 {
            reveal_strlit("pmSig");
        } else if i == 16 {
            reveal_strlit("pmSigDate");
        }
    }
}

/// No name is both a text field and a checkbox.
pub proof fn lemma_field_and_checkbox_names_disjoint()
    ensures
        forall|i: int, j: int| 0 <= i < field_cells_spec().len() && 0 <= j < checkbox_names().len()
            ==> #[trigger] field_cells_spec()[i].0 != #[trigger] checkbox_names()[j],
{
    lemma_group_names();
    lemma_checklist_index();
    lemma_fixed_not_checklist();
    lemma_fixed_names_distinct();
    let fields = field_cells_spec();
    let f = fixed_field_cells();
    let boxes = checkbox_names();
    let items = left_names() + right_names();
    assert(boxes =~= wip_lab_names() + items);
    assert forall|i: int, j: int| 0 <= i < fields.len() && 0 <= j < boxes.len() implies #[trigger] fields[i].0 != #[trigger] boxes[j] by {
        if fields[i].0 == boxes[j] {
            if j >= 8 {
                assert(boxes[j] == items[j - 8]);
                if i < 17 {
                    assert(fields[i] == f[i]);
                    assert(checklist_index(items[j - 8]) == j - 8);
                } else if i < 97 {
                    assert(fields[i] == wf_cell(i - 17));
                    lemma_wf_name(i - 17);
                    assert(fields[i].0[0] == boxes[j][0]);
                } else {
                    assert(fields[i] == wip_text_cell(i - 97));
                    lemma_wip_text_name(i - 97);
                    assert(fields[i].0[0] == boxes[j][0]);
                }
            } else {
                lemma_wip_lab_name(j);
                reveal_strlit("wip_");
                assert(boxes[j][1] == 'i');
                if i < 17 {
                    assert(fields[i] == f[i]);
                    assert(fields[i].0[0] == boxes[j][0] && fields[i].0[1] == boxes[j][1]);
                } else if i < 97 {
                    assert(fields[i] == wf_cell(i - 17));
                    lemma_wf_name(i - 17);
                    assert(fields[i].0[1] == boxes[j][1]);
                } else {
                    assert(fields[i] == wip_text_cell(i - 97));
                    lemma_wip_text_name(i - 97);
                    assert(fields[i].0.len() == boxes[j].len());
                }
            }
        }
    }
}


/// The multi-row text areas: (field name, first row, last row, first
/// column, last column). Their text is wrapped into lines, one line per row.
pub open spec fn text_areas_spec() -> Seq<(Seq<char>, i64, i64, i64, i64)> {
    seq![("overtime"@, 12i64, 13i64, 2i64, 11i64), ("workOutside"@, 44i64, 51i64, 1i64, 10i64)]
}

/// The multi-row text areas.
pub fn text_areas() -> (v: Vec<(String, i64, i64, i64, i64)>)
    ensures
        v@.len() == 2,
        forall|i: int| 0 <= i < 2 ==> {
            let a = #[trigger] v@[i];
            let b = text_areas_spec()[i];
            a.0@ == b.0 && a.1 == b.1 && a.2 == b.2 && a.3 == b.3 && a.4 == b.4
        },
{
    let v = vec![("overtime".to_owned(), 12i64, 13i64, 2i64, 11i64), ("workOutside".to_owned(), 44i64, 51i64, 1i64, 10i64)];
    proof {
        assert(v@[0].0@ == "overtime"@ && v@[1].0@ == "workOutside"@);
    }
    v
}

/// The field cell that covers sheet cell (`r`, `c`), by its position in
/// [`field_cells_spec`], or -1 where no field cell covers it.
spec fn field_slot(r: int, c: int) -> int {
    if r == 6 && 2 <= c <= 3 { 0 } else
    if r == 6 && 5 <= c <= 6 { 1 } else
    if r == 6 && 9 <= c <= 11 { 2 } else
    if r == 8 && 3 <= c <= 11 { 3 } else
    if r == 10 && 3 <= c <= 3 { 4 } else
    if r == 10 && 5 <= c <= 5 { 5 } else
    if r == 11 && 1 <= c <= 11 { 6 } else
    if r == 14 && 3 <= c <= 3 { 7 } else
    if r == 14 && 5 <= c <= 5 { 8 } else
    if r == 15 && 1 <= c <= 11 { 9 } else
    if r == 16 && 3 <= c <= 4 { 10 } else
    if r == 16 && 8 <= c <= 8 { 11 } else
    if r == 16 && 11 <= c <= 11 { 12 } else
    if r == 72 && 4 <= c <= 7 { 13 } else
    if r == 72 && 10 <= c <= 11 { 14 } else
    if r == 74 && 4 <= c <= 7 { 15 } else
    if r == 74 && 10 <= c <= 11 { 16 } else
    if 23 <= r <= 30 && 1 <= c <= 10 { 17 + ((c - 1) / 2) * 16 + (r - 23) * 2 + (c - 1) % 2 } else
    if 33 <= r <= 40 && 1 <= c <= 9 { 97 + r - 33 } else
    { -1 }
}

/// Every sheet cell that a field cell covers maps back to that field cell.
proof fn lemma_field_slot()
    ensures
        forall|i: int, c: int| 0 <= i < field_cells_spec().len() && field_cells_spec()[i].2 <= c <= field_cells_spec()[i].3
            ==> #[trigger] field_slot(field_cells_spec()[i].1 as int, c) == i,
{
    let all = field_cells_spec();
    let f = fixed_field_cells();
    assert forall|i: int, c: int| 0 <= i < all.len() && all[i].2 <= c <= all[i].3
        implies #[trigger] field_slot(all[i].1 as int, c) == i by {
        if i < 17 {
            assert(all[i] == f[i]);
        } else if i < 97 {
            let k = i - 17;
            assert(all[i] == wf_cell(k));
            assert(c == 1 + 2 * (k / 16) + k % 2);
            assert((c - 1) / 2 == k / 16 && (c - 1) % 2 == k % 2);
        } else {
            assert(all[i] == wip_text_cell(i - 97));
        }
    }
}

/// The field cells lie apart: two on one row never share a column; none
/// covers a checkbox cell; none lies in a multi-row text area.
pub proof fn lemma_field_cells_apart()
    ensures
        forall|i: int, j: int| 0 <= i < j < field_cells_spec().len()
            && #[trigger] field_cells_spec()[i].1 == #[trigger] field_cells_spec()[j].1
            ==> field_cells_spec()[i].3 < field_cells_spec()[j].2 || field_cells_spec()[j].3 < field_cells_spec()[i].2,
        forall|i: int, j: int| 0 <= i < field_cells_spec().len() && 0 <= j < checkbox_cells_spec().len()
            && #[trigger] field_cells_spec()[i].1 == #[trigger] checkbox_cells_spec()[j].1
            ==> !(field_cells_spec()[i].2 <= checkbox_cells_spec()[j].2 <= field_cells_spec()[i].3),
        forall|i: int, a: int| 0 <= i < field_cells_spec().len() && 0 <= a < text_areas_spec().len()
            ==> !(text_areas_spec()[a].1 <= #[trigger] field_cells_spec()[i].1 <= #[trigger] text_areas_spec()[a].2),
{
    lemma_field_slot();
    lemma_field_cells_on_sheet();
    let all = field_cells_spec();
    let boxes = checkbox_cells_spec();
    assert forall|i: int, j: int| 0 <= i < j < all.len() && #[trigger] all[i].1 == #[trigger] all[j].1
        implies all[i].3 < all[j].2 || all[j].3 < all[i].2 by {
        if !(all[i].3 < all[j].2 || all[j].3 < all[i].2) {
            let c = if all[i].2 <= all[j].2 { all[j].2 as int } else { all[i].2 as int };
            assert(field_slot(all[i].1 as int, c) == i);
            assert(field_slot(all[j].1 as int, c) == j);
        }
    }
    assert forall|i: int, j: int| 0 <= i < all.len() && 0 <= j < boxes.len() && #[trigger] all[i].1 == #[trigger] boxes[j].1
        implies !(all[i].2 <= boxes[j].2 <= all[i].3) by {
        if all[i].2 <= boxes[j].2 <= all[i].3 {
            assert(field_slot(all[i].1 as int, boxes[j].2 as int) == i);
        }
    }
    assert forall|i: int, a: int| 0 <= i < all.len() && 0 <= a < text_areas_spec().len()
        implies !(text_areas_spec()[a].1 <= #[trigger] all[i].1 <= #[trigger] text_areas_spec()[a].2) by {
        assert(field_slot(all[i].1 as int, all[i].2 as int) == i);
    }
}

/// Field `name` is drawn into row `r`, columns `c0` to `c1`: some field
/// cell says so, and every field cell of that name says so.
pub open spec fn field_drawn_at(name: Seq<char>, r: i64, c0: i64, c1: i64) -> bool {
    let cells = field_cells_spec();
    &&& exists|i: int| 0 <= i < cells.len() && cells[i] == (name, r, c0, c1)
    &&& forall|i: int| 0 <= i < cells.len() && #[trigger] cells[i].0 == name ==> cells[i] == (name, r, c0, c1)
}

/// Field cell `k` is where its field is drawn, and no other cell has its name.
proof fn lemma_cell_pins_field(k: int)
    requires
        0 <= k < field_cells_spec().len(),
    ensures
        field_drawn_at(field_cells_spec()[k].0, field_cells_spec()[k].1, field_cells_spec()[k].2, field_cells_spec()[k].3),
{
    lemma_field_names_distinct();
    let cells = field_cells_spec();
    assert forall|i: int| 0 <= i < cells.len() && #[trigger] cells[i].0 == cells[k].0 implies cells[i] == cells[k] by {
        if i < k {
            assert(cells[i].0 != cells[k].0);
        } else if k < i {
            assert(cells[k].0 != cells[i].0);
        }
    }
}

/// The sheet's layout of the text fields, field by field, as the original
/// sheet has it: the header fields (date, contract and network numbers,
/// location) on rows 6 and 8, inspection and contractor hours on rows 10 to
/// 15, weather with the high then the low temperature on row 16, the
/// signatures on rows 72 and 74; the workforce grid from row 23, one pair of
/// columns per contractor with the crew count left of the equipment; the
/// work-in-progress descriptions from row 33 across columns 1 to 9. There
/// are no other single-row fields.
pub proof fn lemma_field_layout()
    ensures
        field_cells_spec().len() == 105,
        field_drawn_at("date"@, 6, 2, 3),
        field_drawn_at("contractNo"@, 6, 5, 6),
        field_drawn_at("networkActivityNo"@, 6, 9, 11),
        field_drawn_at("location"@, 8, 3, 11),
        field_drawn_at("inspStart"@, 10, 3, 3),
        field_drawn_at("inspEnd"@, 10, 5, 5),
        field_drawn_at("inspector"@, 11, 1, 11),
        field_drawn_at("contrStart"@, 14, 3, 3),
        field_drawn_at("contrEnd"@, 14, 5, 5),
        field_drawn_at("contractor"@, 15, 1, 11),
        field_drawn_at("weather"@, 16, 3, 4),
        field_drawn_at("tempHigh"@, 16, 8, 8),
        field_drawn_at("tempLow"@, 16, 11, 11),
        field_drawn_at("inspectorSig"@, 72, 4, 7),
        field_drawn_at("inspectorSigDate"@, 72, 10, 11),
        field_drawn_at("pmSig"@, 74, 4, 7),
        field_drawn_at("pmSigDate"@, 74, 10, 11),
        forall|col: int, row: int| 0 <= col < 5 && 0 <= row < 8 ==>
            field_drawn_at(#[trigger] spec_indexed_name2("wf_"@, col, "_"@, row, "_crew"@),
                (23 + row) as i64, (1 + 2 * col) as i64, (1 + 2 * col) as i64),
        forall|col: int, row: int| 0 <= col < 5 && 0 <= row < 8 ==>
            field_drawn_at(#[trigger] spec_indexed_name2("wf_"@, col, "_"@, row, "_equip"@),
                (23 + row) as i64, (2 + 2 * col) as i64, (2 + 2 * col) as i64),
        forall|i: int| 0 <= i < 8 ==>
            field_drawn_at(#[trigger] spec_indexed_name("wip_"@, i, "_text"@), (33 + i) as i64, 1, 9),
{
    let cells = field_cells_spec();
    let f = fixed_field_cells();
    assert(cells.len() == 105);
    assert forall|k: int| 0 <= k < 17 implies #[trigger] cells[k] == f[k] by {}
    lemma_cell_pins_field(0);
    lemma_cell_pins_field(1);
    lemma_cell_pins_field(2);
    lemma_cell_pins_field(3);
    lemma_cell_pins_field(4);
    lemma_cell_pins_field(5);
    lemma_cell_pins_field(6);
    lemma_cell_pins_field(7);
    lemma_cell_pins_field(8);
    lemma_cell_pins_field(9);
    lemma_cell_pins_field(10);
    lemma_cell_pins_field(11);
    lemma_cell_pins_field(12);
    lemma_cell_pins_field(13);
    lemma_cell_pins_field(14);
    lemma_cell_pins_field(15);
    lemma_cell_pins_field(16);
    assert forall|col: int, row: int| 0 <= col < 5 && 0 <= row < 8 implies
        field_drawn_at(#[trigger] spec_indexed_name2("wf_"@, col, "_"@, row, "_crew"@),
            (23 + row) as i64, (1 + 2 * col) as i64, (1 + 2 * col) as i64) by {
        let k = 16 * col + 2 * row;
        assert(k / 16 == col && (k % 16) / 2 == row && k % 2 == 0);
        assert(cells[17 + k] == wf_cell(k));
        lemma_cell_pins_field(17 + k);
    }
    assert forall|col: int, row: int| 0 <= col < 5 && 0 <= row < 8 implies
        field_drawn_at(#[trigger] spec_indexed_name2("wf_"@, col, "_"@, row, "_equip"@),
            (23 + row) as i64, (2 + 2 * col) as i64, (2 + 2 * col) as i64) by {
        let k = 16 * col + 2 * row + 1;
        assert(k / 16 == col && (k % 16) / 2 == row && k % 2 == 1);
        assert(cells[17 + k] == wf_cell(k));
        lemma_cell_pins_field(17 + k);
    }
    assert forall|i: int| 0 <= i < 8 implies
        field_drawn_at(#[trigger] spec_indexed_name("wip_"@, i, "_text"@), (33 + i) as i64, 1, 9) by {
        assert(cells[97 + i] == wip_text_cell(i));
        lemma_cell_pins_field(97 + i);
    }
}

/// Box `name` is drawn in row `r`, column `c`: some checkbox cell says so,
/// and every checkbox cell of that name says so.
pub open spec fn checkbox_drawn_at(name: Seq<char>, r: i64, c: i64) -> bool {
    let cells = checkbox_cells_spec();
    &&& exists|i: int| 0 <= i < cells.len() && cells[i] == (name, r, c)
    &&& forall|i: int| 0 <= i < cells.len() && #[trigger] cells[i].0 == name ==> cells[i] == (name, r, c)
}

/// Checkbox cell `k` is where its box is drawn, and no other cell has its name.
proof fn lemma_box_pins(k: int)
    requires
        0 <= k < checkbox_cells_spec().len(),
    ensures
        checkbox_drawn_at(checkbox_cells_spec()[k].0, checkbox_cells_spec()[k].1, checkbox_cells_spec()[k].2),
{
    lemma_checkbox_names_distinct();
    lemma_checkbox_cells_names();
    let cells = checkbox_cells_spec();
    assert forall|i: int| 0 <= i < cells.len() && #[trigger] cells[i].0 == cells[k].0 implies cells[i] == cells[k] by {
        assert(checkbox_names()[i] == cells[i].0);
        assert(checkbox_names()[k] == cells[k].0);
    }
}

/// The sheet's layout of the checkboxes, box by box, as the original sheet
/// has it: the lab box of each work-in-progress row in column 10 from row 33;
/// the left checklist column in column 5 and the right one in column 9, both
/// from row 55, item by item. There are no other boxes.
pub proof fn lemma_checkbox_layout()
    ensures
        checkbox_cells_spec().len() == 36,
        forall|i: int| 0 <= i < 8 ==> checkbox_drawn_at(#[trigger] spec_indexed_name("wip_"@, i, "_lab"@), (33 + i) as i64, 10),
        checkbox_drawn_at("barr_arrival"@, 55, 5),
        checkbox_drawn_at("barr_departure"@, 56, 5),
        checkbox_drawn_at("barr_secure"@, 57, 5),
        checkbox_drawn_at("exc_truckbox"@, 58, 5),
        checkbox_drawn_at("fill_lift"@, 59, 5),
        checkbox_drawn_at("sub_elev"@, 60, 5),
        checkbox_drawn_at("cb_grade"@, 61, 5),
        checkbox_drawn_at("cb_elev"@, 62, 5),
        checkbox_drawn_at("cb_thick"@, 63, 5),
        checkbox_drawn_at("conc_straight"@, 64, 5),
        checkbox_drawn_at("conc_elev"@, 65, 5),
        checkbox_drawn_at("conc_cross"@, 66, 5),
        checkbox_drawn_at("conc_forms"@, 67, 5),
        checkbox_drawn_at("sc_grade"@, 68, 5),
        checkbox_drawn_at("sc_lift"@, 69, 5),
        checkbox_drawn_at("dr_pipe"@, 55, 9),
        checkbox_drawn_at("dr_grade"@, 56, 9),
        checkbox_drawn_at("dr_elev"@, 57, 9),
        checkbox_drawn_at("ls_topsoil"@, 58, 9),
        checkbox_drawn_at("pv_grade"@, 59, 9),
        checkbox_drawn_at("pv_straight"@, 60, 9),
        checkbox_drawn_at("pv_joints"@, 61, 9),
        checkbox_drawn_at("as_notify"@, 62, 9),
        checkbox_drawn_at("as_lift"@, 63, 9),
        checkbox_drawn_at("as_spread"@, 64, 9),
        checkbox_drawn_at("fdr_grade"@, 65, 9),
        checkbox_drawn_at("fdr_cement"@, 66, 9),
        checkbox_drawn_at("fdr_visual"@, 67, 9),
{
    let cells = checkbox_cells_spec();
    assert(cells.len() == 36);
    assert forall|i: int| 0 <= i < 8 implies checkbox_drawn_at(#[trigger] spec_indexed_name("wip_"@, i, "_lab"@), (33 + i) as i64, 10) by {
        assert(cells[i] == (wip_lab_names()[i], (33 + i) as i64, 10i64));
        lemma_box_pins(i);
    }
    assert forall|i: int| 0 <= i < 15 implies #[trigger] cells[8 + i] == (left_names()[i], (55 + i) as i64, 5i64) by {}
    assert forall|i: int| 0 <= i < 13 implies #[trigger] cells[23 + i] == (right_names()[i], (55 + i) as i64, 9i64) by {}
    lemma_box_pins(8);
    lemma_box_pins(9);
    lemma_box_pins(10);
    lemma_box_pins(11);
    lemma_box_pins(12);
    lemma_box_pins(13);
    lemma_box_pins(14);
    lemma_box_pins(15);
    lemma_box_pins(16);
    lemma_box_pins(17);
    lemma_box_pins(18);
    lemma_box_pins(19);
    lemma_box_pins(20);
    lemma_box_pins(21);
    lemma_box_pins(22);
    lemma_box_pins(23);
    lemma_box_pins(24);
    lemma_box_pins(25);
    lemma_box_pins(26);
    lemma_box_pins(27);
    lemma_box_pins(28);
    lemma_box_pins(29);
    lemma_box_pins(30);
    lemma_box_pins(31);
    lemma_box_pins(32);
    lemma_box_pins(33);
    lemma_box_pins(34);
    lemma_box_pins(35);
}

/// Some group of `gs` has heading `head` and an item `name` labelled `label`.
pub open spec fn checklist_item(gs: Seq<GroupText>, head: Seq<char>, name: Seq<char>, label: Seq<char>) -> bool {
    exists|g: int, i: int| 0 <= g < gs.len() && 0 <= i < gs[g].1.len() && #[trigger] gs[g].1[i] == (name, label)
        && gs[g].0 == head
}

/// The on-site checklist as the original form prints it: each item's field
/// name, the label printed beside its box, and the heading it stands under,
/// in the left and the right column. The columns hold these 15 and 13 items.
pub proof fn lemma_checklist_text()
    ensures
        group_names(ck_left_spec()).len() == 15,
        group_names(ck_right_spec()).len() == 13,
        checklist_item(ck_left_spec(), "Barricading:"@, "barr_arrival"@, "Check Site Arrival"@),
        checklist_item(ck_left_spec(), "Barricading:"@, "barr_departure"@, "Check Site Departure"@),
        checklist_item(ck_left_spec(), "Barricading:"@, "barr_secure"@, "Contractor Advised to Secure"@),
        checklist_item(ck_left_spec(), "Excavation:"@, "exc_truckbox"@, "Truck Box Measured"@),
        checklist_item(ck_left_spec(), "Fill:"@, "fill_lift"@, "Lift Thickness Checked"@),
        checklist_item(ck_left_spec(), "Subgrade:"@, "sub_elev"@, "Elevation Checked"@),
        checklist_item(ck_left_spec(), "Con. Base:"@, "cb_grade"@, "Check Grade"@),
        checklist_item(ck_left_spec(), "Con. Base:"@, "cb_elev"@, "Elevation Checked (10mm)"@),
        checklist_item(ck_left_spec(), "Con. Base:"@, "cb_thick"@, "Thickness Tolerances Check"@),
        checklist_item(ck_left_spec(), "Concrete:"@, "conc_straight"@, "Straight Edge Tolerance (6mm)"@),
        checklist_item(ck_left_spec(), "Concrete:"@, "conc_elev"@, "Elevation Tolerance (15mm)"@),
        checklist_item(ck_left_spec(), "Concrete:"@, "conc_cross"@, "Crossfall Tolerance (10mm)"@),
        checklist_item(ck_left_spec(), "Concrete:"@, "conc_forms"@, "Check Forms"@),
        checklist_item(ck_left_spec(), "Soil Cement:"@, "sc_grade"@, "Check Grade"@),
        checklist_item(ck_left_spec(), "Soil Cement:"@, "sc_lift"@, "Lift Thickness Check"@),
        checklist_item(ck_right_spec(), "Drainage:"@, "dr_pipe"@, "Pipe Stamped"@),
        checklist_item(ck_right_spec(), "Drainage:"@, "dr_grade"@, "Check Grade"@),
        checklist_item(ck_right_spec(), "Drainage:"@, "dr_elev"@, "Elevation Checked"@),
        checklist_item(ck_right_spec(), "Landscaping:"@, "ls_topsoil"@, "Topsoil Depth"@),
        checklist_item(ck_right_spec(), "Pavers:"@, "pv_grade"@, "Check Grade"@),
        checklist_item(ck_right_spec(), "Pavers:"@, "pv_straight"@, "Straight Edge Tolerance (8mm)"@),
        checklist_item(ck_right_spec(), "Pavers:"@, "pv_joints"@, "Joints Between Paves (3mm)"@),
        checklist_item(ck_right_spec(), "Asphalt:"@, "as_notify"@, "Notify Lab"@),
        checklist_item(ck_right_spec(), "Asphalt:"@, "as_lift"@, "Lift Checked"@),
        checklist_item(ck_right_spec(), "Asphalt:"@, "as_spread"@, "Spreading Temp"@),
        checklist_item(ck_right_spec(), "FDR:"@, "fdr_grade"@, "Check Grade"@),
        checklist_item(ck_right_spec(), "FDR:"@, "fdr_cement"@, "Cement Spread"@),
        checklist_item(ck_right_spec(), "FDR:"@, "fdr_visual"@, "Visual Inspection"@),
{
    lemma_group_names();
    assert(ck_left_spec()[0].1[0] == ("barr_arrival"@, "Check Site Arrival"@));
    assert(ck_left_spec()[0].1[1] == ("barr_departure"@, "Check Site Departure"@));
    assert(ck_left_spec()[0].1[2] == ("barr_secure"@, "Contractor Advised to Secure"@));
    assert(ck_left_spec()[1].1[0] == ("exc_truckbox"@, "Truck Box Measured"@));
    assert(ck_left_spec()[2].1[0] == ("fill_lift"@, "Lift Thickness Checked"@));
    assert(ck_left_spec()[3].1[0] == ("sub_elev"@, "Elevation Checked"@));
    assert(ck_left_spec()[4].1[0] == ("cb_grade"@, "Check Grade"@));
    assert(ck_left_spec()[4].1[1] == ("cb_elev"@, "Elevation Checked (10mm)"@));
    assert(ck_left_spec()[4].1[2] == ("cb_thick"@, "Thickness Tolerances Check"@));
    assert(ck_left_spec()[5].1[0] == ("conc_straight"@, "Straight Edge Tolerance (6mm)"@));
    assert(ck_left_spec()[5].1[1] == ("conc_elev"@, "Elevation Tolerance (15mm)"@));
    assert(ck_left_spec()[5].1[2] == ("conc_cross"@, "Crossfall Tolerance (10mm)"@));
    assert(ck_left_spec()[5].1[3] == ("conc_forms"@, "Check Forms"@));
    assert(ck_left_spec()[6].1[0] == ("sc_grade"@, "Check Grade"@));
    assert(ck_left_spec()[6].1[1] == ("sc_lift"@, "Lift Thickness Check"@));
    assert(ck_right_spec()[0].1[0] == ("dr_pipe"@, "Pipe Stamped"@));
    assert(ck_right_spec()[0].1[1] == ("dr_grade"@, "Check Grade"@));
    assert(ck_right_spec()[0].1[2] == ("dr_elev"@, "Elevation Checked"@));
    assert(ck_right_spec()[1].1[0] == ("ls_topsoil"@, "Topsoil Depth"@));
    assert(ck_right_spec()[2].1[0] == ("pv_grade"@, "Check Grade"@));
    assert(ck_right_spec()[2].1[1] == ("pv_straight"@, "Straight Edge Tolerance (8mm)"@));
    assert(ck_right_spec()[2].1[2] == ("pv_joints"@, "Joints Between Paves (3mm)"@));
    assert(ck_right_spec()[3].1[0] == ("as_notify"@, "Notify Lab"@));
    assert(ck_right_spec()[3].1[1] == ("as_lift"@, "Lift Checked"@));
    assert(ck_right_spec()[3].1[2] == ("as_spread"@, "Spreading Temp"@));
    assert(ck_right_spec()[4].1[0] == ("fdr_grade"@, "Check Grade"@));
    assert(ck_right_spec()[4].1[1] == ("fdr_cement"@, "Cement Spread"@));
    assert(ck_right_spec()[4].1[2] == ("fdr_visual"@, "Visual Inspection"@));
}

/// The multi-row text areas as the original sheet has them: the overtime
/// justification on rows 12 to 13 across columns 2 to 11, and the work
/// outside the contract on rows 44 to 51 across columns 1 to 10; no others.
pub proof fn lemma_text_area_layout()
    ensures
        text_areas_spec().len() == 2,
        exists|i: int| 0 <= i < 2 && text_areas_spec()[i] == ("overtime"@, 12i64, 13i64, 2i64, 11i64),
        exists|i: int| 0 <= i < 2 && text_areas_spec()[i] == ("workOutside"@, 44i64, 51i64, 1i64, 10i64),
{
    assert(text_areas_spec()[0] == ("overtime"@, 12i64, 13i64, 2i64, 11i64));
    assert(text_areas_spec()[1] == ("workOutside"@, 44i64, 51i64, 1i64, 10i64));
}

} // verus!
