use daily_report::order::str_lt;
use daily_report::filename::report_filename;
use daily_report::report::ReportData;

fn sample() -> ReportData {
    let mut d = ReportData::new();
    d.insert_text("location".to_string(), "102 Ave & 97 St".to_string());
    d.insert_text("date".to_string(), "2024-06-03".to_string());
    d.insert_text("inspector".to_string(), "J. Smith".to_string());
    d.insert_check("barr_arrival".to_string());
    d.insert_check("wip_2_lab".to_string());
    d
}

#[test]
fn text_lookup_and_default() {
    let d = sample();
    assert_eq!(d.t("location"), "102 Ave & 97 St");
    assert_eq!(d.t("inspector"), "J. Smith");
    assert_eq!(d.t("weather"), "");
    let e = ReportData::default();
    assert_eq!(e.t("location"), "");
    assert!(!e.c("barr_arrival"));
}

#[test]
fn check_lookup() {
    let d = sample();
    assert!(d.c("barr_arrival"));
    assert!(d.c("wip_2_lab"));
    assert!(!d.c("barr_departure"));
}

#[test]
fn insert_text_replaces_value() {
    let mut d = sample();
    d.insert_text("location".to_string(), "Whyte Ave".to_string());
    assert_eq!(d.t("location"), "Whyte Ave");
    assert_eq!(d.text_pairs().len(), 3);
}

#[test]
fn insert_check_twice_keeps_one() {
    let mut d = sample();
    d.insert_check("barr_arrival".to_string());
    assert_eq!(d.check_names().len(), 2);
    assert!(d.c("barr_arrival"));
}

#[test]
fn record_input_follows_form_rules() {
    let mut d = ReportData::new();
    d.record_input("barr_secure".to_string(), true, true, String::new());
    d.record_input("sc_lift".to_string(), true, false, String::new());
    d.record_input("weather".to_string(), false, false, "Sunny".to_string());
    d.record_input("tempLow".to_string(), false, false, String::new());
    assert!(d.c("barr_secure"));
    assert!(!d.c("sc_lift"));
    assert_eq!(d.t("weather"), "Sunny");
    assert_eq!(d.text_pairs().len(), 1);
    assert_eq!(d.check_names().len(), 1);
}

#[test]
fn filename_with_date_and_location() {
    let d = sample();
    assert_eq!(report_filename(&d, "pdf"), "DailyReport_2024-06-03_102_Ave___97_St.pdf");
}

#[test]
fn filename_trims_underscores_and_keeps_unicode_letters() {
    let mut d = ReportData::new();
    d.insert_text("location".to_string(), "  Café #5!!".to_string());
    assert_eq!(report_filename(&d, "json"), "DailyReport_Café__5.json");
}

#[test]
fn filename_without_date_or_location() {
    let mut d = ReportData::new();
    assert_eq!(report_filename(&d, "pdf"), "DailyReport.pdf");
    d.insert_text("location".to_string(), "---".to_string());
    assert_eq!(report_filename(&d, "pdf"), "DailyReport.pdf");
}

#[test]
fn filename_location_cut_at_forty_chars() {
    let mut d = ReportData::new();
    d.insert_text("location".to_string(), "a".repeat(45));
    d.insert_text("date".to_string(), "d".to_string());
    let expected = format!("DailyReport_d_{}.pdf", "a".repeat(40));
    assert_eq!(report_filename(&d, "pdf"), expected);
}

#[test]
fn fields_and_boxes_are_kept_in_name_order() {
    let mut d = ReportData::new();
    d.insert_text("weather".to_string(), "Sunny".to_string());
    d.insert_text("date".to_string(), "2024-05-01".to_string());
    d.insert_text("Zone".to_string(), "B".to_string());
    d.insert_text("date".to_string(), "2024-05-02".to_string());
    let names: Vec<&str> = d.text_pairs().iter().map(|(k, _)| k.as_str()).collect();
    assert_eq!(names, vec!["Zone", "date", "weather"]);
    assert_eq!(d.t("date"), "2024-05-02");
    d.insert_check("wip_2_lab".to_string());
    d.insert_check("ck_a".to_string());
    d.insert_check("wip_10_lab".to_string());
    d.insert_check("ck_a".to_string());
    let checks: Vec<&str> = d.check_names().iter().map(|k| k.as_str()).collect();
    assert_eq!(checks, vec!["ck_a", "wip_10_lab", "wip_2_lab"]);
}

#[test]
fn string_order_is_by_character() {
    assert!(str_lt("ab", "abc"));
    assert!(!str_lt("abc", "ab"));
    assert!(str_lt("Zeta", "alpha"));
    assert!(!str_lt("same", "same"));
    assert!(str_lt("", "a"));
    assert!(str_lt("é", "ö"));
    assert!(str_lt("z", "é"));
}
