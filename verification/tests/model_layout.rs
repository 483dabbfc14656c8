use daily_report::layout::{
    bool_literal, halign_code, line_rows, page_count, label_cells, label_last_column, merge_span, object_numbers, row_page, str_eq_ignore_ascii_case,
    winansi,
};
use daily_report::model::{
    all_checkbox_names, checkbox_cells, ck_left, ck_right, field_cells, text_areas, wf_default_names, SHEET_COLS, SHEET_ROWS,
    WF_COLS, WF_ROWS, WIP_ROWS,
};

#[test]
fn checkbox_names_in_order() {
    let names = all_checkbox_names();
    assert_eq!(names.len(), 8 + 15 + 13);
    assert_eq!(names[0], "wip_0_lab");
    assert_eq!(names[7], "wip_7_lab");
    assert_eq!(names[8], "barr_arrival");
    assert_eq!(names[22], "sc_lift");
    assert_eq!(names[23], "dr_pipe");
    assert_eq!(names[35], "fdr_visual");
}

#[test]
fn checkbox_cells_match_checkbox_names() {
    let names = all_checkbox_names();
    let cells = checkbox_cells();
    assert_eq!(cells.len(), names.len());
    for (cell, name) in cells.iter().zip(names.iter()) {
        assert_eq!(&cell.0, name);
    }
    assert_eq!(cells[0], ("wip_0_lab".to_string(), 33, 10));
    assert_eq!(cells[8], ("barr_arrival".to_string(), 55, 5));
    assert_eq!(cells[22], ("sc_lift".to_string(), 69, 5));
    assert_eq!(cells[23], ("dr_pipe".to_string(), 55, 9));
    assert_eq!(cells[35], ("fdr_visual".to_string(), 67, 9));
}

#[test]
fn field_cells_layout() {
    let cells = field_cells();
    assert_eq!(cells.len(), 17 + WF_COLS * WF_ROWS * 2 + WIP_ROWS);
    assert_eq!(cells[0], ("date".to_string(), 6, 2, 3));
    assert_eq!(cells[16], ("pmSigDate".to_string(), 74, 10, 11));
    assert_eq!(cells[17], ("wf_0_0_crew".to_string(), 23, 1, 1));
    assert_eq!(cells[18], ("wf_0_0_equip".to_string(), 23, 2, 2));
    assert_eq!(cells[17 + 79], ("wf_4_7_equip".to_string(), 30, 10, 10));
    assert_eq!(cells[97], ("wip_0_text".to_string(), 33, 1, 9));
    assert_eq!(cells[104], ("wip_7_text".to_string(), 40, 1, 9));
    for c in &cells {
        assert!(1 <= c.1 && c.1 <= SHEET_ROWS);
        assert!(1 <= c.2 && c.2 <= c.3 && c.3 <= SHEET_COLS);
    }
}

#[test]
fn checklist_groups() {
    let left = ck_left();
    let right = ck_right();
    assert_eq!(left.len(), 7);
    assert_eq!(right.len(), 5);
    assert_eq!(left[0].head, "Barricading:");
    assert_eq!(left[5].items[1], ("conc_elev", "Elevation Tolerance (15mm)"));
    assert_eq!(right[4].head, "FDR:");
    assert_eq!(right[2].items[2].1, "Joints Between Paves (3mm)");
    let names = wf_default_names();
    assert_eq!(names[0], "Prime Contractor");
    assert_eq!(names[4], "Sub Contractor");
}

#[test]
fn winansi_encoding() {
    assert_eq!(winansi("Aé€z"), vec![65, 233, 63, 122]);
    assert_eq!(winansi(""), Vec::<u8>::new());
}

#[test]
fn checkbox_values_are_not_labels() {
    assert!(bool_literal("FALSE"));
    assert!(bool_literal("True"));
    assert!(!bool_literal("Falsey"));
    assert!(!bool_literal("Date:"));
    assert!(str_eq_ignore_ascii_case("AbC", "aBc"));
    assert!(!str_eq_ignore_ascii_case("[", "{"));
    let texts = vec![
        (1, 1, "Date:".to_string()),
        (1, 4, "TRUE".to_string()),
        (2, 3, "Location:".to_string()),
    ];
    assert_eq!(label_cells(&texts), vec![(1, 1), (2, 3)]);
}

#[test]
fn merges_and_label_overflow() {
    let merges = vec![(5, 2, 6, 4), (5, 2, 5, 3), (8, 1, 8, 12)];
    assert_eq!(merge_span(&merges, 5, 2), (5, 3));
    assert_eq!(merge_span(&merges, 7, 7), (7, 7));
    let labels = vec![(3, 1), (3, 5), (8, 1)];
    assert_eq!(label_last_column(&merges, &labels, 3, 1, 0), 4);
    assert_eq!(label_last_column(&merges, &labels, 3, 5, 0), 12);
    assert_eq!(label_last_column(&merges, &labels, 3, 1, 1), 1);
    assert_eq!(label_last_column(&merges, &labels, 8, 1, 0), 12);
    assert_eq!(label_last_column(&merges, &labels, 5, 2, 0), 3);
    assert_eq!(label_last_column(&merges, &labels, 4, 12, 0), 12);
}

#[test]
fn rows_to_pages() {
    assert_eq!(row_page(1), (0, 0));
    assert_eq!(row_page(67), (0, 66));
    assert_eq!(row_page(68), (1, 0));
    assert_eq!(row_page(74), (1, 6));
    assert_eq!(row_page(0), (0, -1));
    assert_eq!(row_page(-67), (-1, -1));
}

#[test]
fn pdf_object_numbers() {
    let (pages, contents) = object_numbers(2);
    assert_eq!(pages, vec![6, 7]);
    assert_eq!(contents, vec![8, 9]);
    let (p0, c0) = object_numbers(0);
    assert!(p0.is_empty() && c0.is_empty());
}

#[test]
fn every_name_is_laid_out_once() {
    let fields: Vec<String> = field_cells().into_iter().map(|c| c.0).collect();
    let boxes = all_checkbox_names();
    let field_set: std::collections::BTreeSet<&String> = fields.iter().collect();
    let box_set: std::collections::BTreeSet<&String> = boxes.iter().collect();
    assert_eq!(field_set.len(), fields.len());
    assert_eq!(box_set.len(), boxes.len());
    assert!(field_set.is_disjoint(&box_set));
}

#[test]
fn alignment_codes() {
    assert_eq!(halign_code("center"), 1);
    assert_eq!(halign_code("right"), 2);
    assert_eq!(halign_code("left"), 0);
    assert_eq!(halign_code(""), 0);
    assert_eq!(halign_code("Center"), 0);
}

#[test]
fn sheet_takes_two_pages() {
    assert_eq!(page_count(), 2);
    for r in 1..=SHEET_ROWS {
        let (p, local) = row_page(r);
        assert!(0 <= p && (p as usize) < page_count());
        assert!((0..67).contains(&local));
    }
}

#[test]
fn text_area_rows() {
    let areas = text_areas();
    assert_eq!(areas[0], ("overtime".to_string(), 12, 13, 2, 11));
    assert_eq!(areas[1], ("workOutside".to_string(), 44, 51, 1, 10));
    assert_eq!(line_rows(5, 12, 13), vec![12, 13]);
    assert_eq!(line_rows(1, 44, 51), vec![44]);
    assert_eq!(line_rows(0, 44, 51), Vec::<i64>::new());
}

#[test]
fn field_cells_lie_apart() {
    let cells = field_cells();
    let boxes = checkbox_cells();
    for (i, a) in cells.iter().enumerate() {
        for b in &cells[i + 1..] {
            if a.1 == b.1 {
                assert!(a.3 < b.2 || b.3 < a.2);
            }
        }
        for bx in &boxes {
            assert!(!(a.1 == bx.1 && a.2 <= bx.2 && bx.2 <= a.3));
        }
        assert!(!(12..=13).contains(&a.1) && !(44..=51).contains(&a.1));
    }
}
