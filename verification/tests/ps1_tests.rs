use boom_catalogs::ps1::{parse_line, strm_apply_row, StrmRecord};

fn strm_line(fields: &[&str]) -> String {
    fields.join(",")
}

#[test]
fn strm_lines_parse() {
    let mut f = vec!["0"; 19];
    f[0] = "123456789";
    f[1] = " 42 ";
    f[6] = " GALAXY ";
    f[7] = "0.9";
    f[8] = "-999";
    f[9] = "abc";
    f[13] = "0.25";
    f[14] = "";
    let r = parse_line(&(strm_line(&f) + "  \r")).unwrap();
    assert_eq!(r.obj_id, 123456789);
    assert_eq!(r.unique_psps_obid, 42);
    assert_eq!(r.class, "GALAXY");
    assert_eq!(r.prob_galaxy.as_ref().unwrap().as_str(), "0.9");
    assert_eq!(r.prob_star.as_ref().unwrap().as_str(), "-999");
    assert!(r.prob_qso.is_none());
    assert_eq!(r.z_phot.as_ref().unwrap().as_str(), "0.25");
    assert!(r.z_phot_err.is_none());
}

#[test]
fn strm_lines_that_hold_no_row() {
    let f = vec!["1"; 18];
    assert!(parse_line(&strm_line(&f)).is_none());
    let f = vec!["1"; 20];
    assert!(parse_line(&strm_line(&f)).is_none());
    let mut f = vec!["1"; 19];
    f[0] = "x";
    assert!(parse_line(&strm_line(&f)).is_none());
    let mut f = vec!["1"; 19];
    f[1] = "";
    assert!(parse_line(&strm_line(&f)).is_none());
}

fn strm_row(obj_id: &str, uid: &str, class: &str) -> StrmRecord {
    let mut f = vec!["0"; 19];
    f[0] = obj_id;
    f[1] = uid;
    f[6] = class;
    parse_line(&strm_line(&f)).unwrap()
}

fn apply_in_order(order: &[usize]) -> Option<(i64, String)> {
    let rows = [("7", "10", "STAR"), ("7", "30", "GALAXY"), ("7", "20", "QSO")];
    let mut stored: Option<StrmRecord> = None;
    for &i in order {
        let (o, u, c) = rows[i];
        stored = strm_apply_row(stored, strm_row(o, u, c));
    }
    stored.map(|r| (r.unique_psps_obid, r.class))
}

#[test]
fn strm_highest_tie_break_id_wins_in_any_order() {
    let expected = Some((30, "GALAXY".to_string()));
    for order in [[0, 1, 2], [0, 2, 1], [1, 0, 2], [1, 2, 0], [2, 0, 1], [2, 1, 0]] {
        assert_eq!(apply_in_order(&order), expected);
    }
    // an interrupted run followed by a full rerun
    assert_eq!(apply_in_order(&[2, 0, 2, 0, 1]), expected);
    assert_eq!(apply_in_order(&[]), None);
}

#[test]
fn strm_equal_tie_break_id_keeps_the_stored_row() {
    let first = strm_apply_row(None, strm_row("7", "5", "STAR"));
    let second = strm_apply_row(first, strm_row("7", "5", "GALAXY")).unwrap();
    assert_eq!(second.class, "STAR");
}
