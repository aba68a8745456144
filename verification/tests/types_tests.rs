use boom_catalogs::ascii::{FromAsciiRow, TableReader};
use boom_catalogs::types::{
    clean_iauname, clean_string_column, first_unreadable_cell, missing_value_report, primary_science_rows,
    ColumnCheck, HasCoordinates, TwoMass, VSX,
};

/// A VSX line with each field placed at its byte column.
fn vsx_line(fields: &[(usize, &str)]) -> String {
    let mut line = vec![b' '; 204];
    for (start, text) in fields {
        line[*start..*start + text.len()].copy_from_slice(text.as_bytes());
    }
    String::from_utf8(line).unwrap()
}

fn good_vsx() -> String {
    vsx_line(&[
        (0, "12345"),
        (8, "V0001 And"),
        (40, "0"),
        (42, "12.3456"),
        (52, "-45.6789"),
        (62, "EA|RRAB"),
        (96, "11.2"),
        (105, "V"),
        (110, "1"),
        (118, "0.35"),
        (127, "V"),
        (137, "2451234.567"),
        (156, "0.5670123"),
        (174, "A0V"),
    ])
}

#[test]
fn vsx_reads_fixed_columns() {
    let line = good_vsx();
    assert!(VSX::layout_fits(&line));
    let v = VSX::from_line(&line).unwrap();
    assert_eq!(v.oid, 12345);
    assert_eq!(v.name, "V0001 And");
    assert_eq!(v.var_flag, 0);
    assert_eq!(v.ra.as_str(), "12.3456");
    assert_eq!(v.dec.as_str(), "-45.6789");
    assert_eq!(v.types, vec!["EA".to_string(), "RRAB".to_string()]);
    assert_eq!(v.max.as_ref().unwrap().as_str(), "11.2");
    assert_eq!(v.max_band, Some("V".to_string()));
    assert!(v.min_is_amplitude);
    assert_eq!(v.min.as_ref().unwrap().as_str(), "0.35");
    assert_eq!(v.epoch.as_ref().unwrap().as_str(), "2451234.567");
    assert_eq!(v.period.as_ref().unwrap().as_str(), "0.5670123");
    assert_eq!(v.spectral_type, Some("A0V".to_string()));
    assert!(VSX::has_coordinates());
}

#[test]
fn vsx_optional_fields_may_be_blank() {
    let line = vsx_line(&[(0, "7"), (8, "X"), (40, "2"), (42, "1"), (52, "2")]);
    let v = VSX::from_line(&line).unwrap();
    assert!(v.types.is_empty());
    assert!(v.max.is_none() && v.min.is_none() && v.epoch.is_none() && v.period.is_none());
    assert!(v.max_band.is_none() && v.min_band.is_none() && v.spectral_type.is_none());
    assert!(!v.min_is_amplitude);
}

#[test]
fn vsx_reports_the_first_bad_field() {
    let line = vsx_line(&[(0, "12a"), (8, "X"), (40, "0"), (42, "1"), (52, "2")]);
    assert_eq!(
        VSX::from_line(&line).err().unwrap(),
        "Field 'oid' at [0:8]: failed to parse '12a' - invalid digit found in string"
    );
    let line = vsx_line(&[(0, "1"), (40, "0"), (42, "1"), (52, "2")]);
    assert_eq!(VSX::from_line(&line).err().unwrap(), "Field 'name' at [8:40]: cannot be empty");
    let line = vsx_line(&[(0, "1"), (8, "X"), (40, "x"), (42, "1"), (52, "2")]);
    assert_eq!(
        VSX::from_line(&line).err().unwrap(),
        "Field 'var_flag' at [40:44]: failed to parse 'x' - invalid digit found in string"
    );
    let line = vsx_line(&[(0, "1"), (8, "X"), (40, "0"), (52, "2")]);
    assert_eq!(
        VSX::from_line(&line).err().unwrap(),
        "Field 'ra' at [44:54]: failed to parse '' - cannot parse float from empty string"
    );
    let line = vsx_line(&[(0, "1"), (8, "X"), (40, "0"), (42, "1"), (52, "2.2.2")]);
    assert_eq!(
        VSX::from_line(&line).err().unwrap(),
        "Field 'dec' at [54:64]: failed to parse '2.2.2' - invalid float literal"
    );
}

#[test]
fn vsx_short_lines_have_empty_fields() {
    assert_eq!(
        VSX::from_line("42").err().unwrap(),
        "Field 'name' at [8:40]: cannot be empty"
    );
    assert!(VSX::layout_fits("42"));
    assert!(!VSX::layout_fits("1234567é12"));
}

fn two_mass_line(ra: &str, dec: &str, n: usize) -> String {
    let mut fields: Vec<String> = (0..n).map(|_| "\\N".to_string()).collect();
    fields[0] = ra.to_string();
    fields[1] = dec.to_string();
    if n > 5 {
        fields[5] = " 00000000+0000000 ".to_string();
        fields[6] = "15.2".to_string();
        fields[9] = "  ".to_string();
        fields[18] = "AAA".to_string();
        fields[22] = "123".to_string();
    }
    fields.join("|")
}

#[test]
fn two_mass_reads_fields() {
    let line = two_mass_line("10.5", " -3.25 ", 60);
    let t = TwoMass::from_line(&line).unwrap();
    assert_eq!(t.designation, "00000000+0000000");
    assert_eq!(t.ra.as_str(), "10.5");
    assert_eq!(t.dec.as_str(), "-3.25");
    assert_eq!(t.j_m.as_ref().unwrap().as_str(), "15.2");
    assert!(t.j_cmsig.is_none());
    assert!(t.j_snr.is_none());
    assert_eq!(t.ph_qual, Some("AAA".to_string()));
    assert_eq!(t.rd_flg, Some("\\N".to_string()));
    assert_eq!(t.ndet, Some(123));
    assert!(TwoMass::has_coordinates());
}

#[test]
fn two_mass_rejections() {
    assert_eq!(
        TwoMass::from_line(&two_mass_line("1", "2", 59)).err().unwrap(),
        "Expected at least 60 fields, found 59"
    );
    assert_eq!(
        TwoMass::from_line(&two_mass_line(" x ", "2", 60)).err().unwrap(),
        "Failed to parse ra ' x ': invalid float literal"
    );
    assert_eq!(
        TwoMass::from_line(&two_mass_line("1", "  ", 61)).err().unwrap(),
        "Failed to parse dec '  ': cannot parse float from empty string"
    );
}

#[test]
fn table_rows_skip_blank_lines_and_number_the_rest() {
    let lines = vec![
        Ok(two_mass_line("1", "2", 60)),
        Ok("   ".to_string()),
        Err("stream broke".to_string()),
        Ok("a|b".to_string()),
    ];
    let rows = TableReader::new(0, lines).rows::<TwoMass>();
    assert_eq!(rows.len(), 3);
    assert!(rows[0].is_ok());
    assert_eq!(rows[1].as_ref().err().unwrap(), "Line 3: IO error - stream broke");
    assert_eq!(
        rows[2].as_ref().err().unwrap(),
        "Line 4: Expected at least 60 fields, found 2 (\"a|b\")"
    );
    let rows = TableReader::new(99, vec![Ok("x".to_string())]).rows::<TwoMass>();
    assert_eq!(rows[0].as_ref().err().unwrap(), "Line 100: Expected at least 60 fields, found 1 (\"x\")");
}

#[test]
fn milliquas_text_columns_are_cleaned() {
    let col = vec![" a ".to_string(), "".to_string(), " - ".to_string(), "--".to_string(), "  ".to_string()];
    assert_eq!(
        clean_string_column(col),
        vec![Some("a".to_string()), None, None, Some("--".to_string()), None]
    );
}

#[test]
fn erosita_names_lose_padding() {
    assert_eq!(clean_iauname("\0\0 1eRASS J000000.0+000000 \0"), "1eRASS J000000.0+000000");
    assert_eq!(clean_iauname("\0\0"), "");
    assert_eq!(clean_iauname(" \0x\0 "), "\0x\0");
}

#[test]
fn desi_keeps_primary_science_rows() {
    let targetid = [5i64, -1, 7, 8, 0];
    let primary = [true, true, false, true, true];
    assert_eq!(primary_science_rows(&targetid, &primary), vec![0, 3, 4]);
    assert_eq!(primary_science_rows(&[], &[]), Vec::<usize>::new());
}

#[test]
fn first_unreadable_cell_goes_row_by_row() {
    let cols = vec![
        ColumnCheck { typed: true, required: true, present: vec![true, true, false] },
        ColumnCheck { typed: true, required: false, present: vec![false, false, false] },
        ColumnCheck { typed: true, required: true, present: vec![true, false, true] },
    ];
    assert_eq!(first_unreadable_cell(&cols, 3), Some((1, 2)));
    assert_eq!(first_unreadable_cell(&cols, 1), None);
    let untyped = vec![
        ColumnCheck { typed: true, required: true, present: vec![true] },
        ColumnCheck { typed: false, required: false, present: vec![true] },
    ];
    assert_eq!(first_unreadable_cell(&untyped, 1), Some((0, 1)));
    assert_eq!(first_unreadable_cell(&untyped, 0), None);
    assert_eq!(missing_value_report("source_id", 12), "Missing source_id at row 12");
}
