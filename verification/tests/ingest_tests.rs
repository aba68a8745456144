use boom_catalogs::ingest::{
    ascii_line_estimate, check_csv_path, check_fits_path, check_parquet_path, chunk_ranges, csv_line_estimate,
    select_ascii_files,
};

#[test]
fn ascii_files_from_a_directory() {
    let entries = vec![
        "d/a.dat".to_string(),
        "d/b.txt".to_string(),
        "d/c.ascii.gz".to_string(),
        "d/e.gz".to_string(),
        "d/f.ascii".to_string(),
    ];
    assert_eq!(
        select_ascii_files("d", true, true, entries),
        Ok(vec!["d/a.dat".to_string(), "d/c.ascii.gz".to_string(), "d/e.gz".to_string(), "d/f.ascii".to_string()])
    );
    assert_eq!(
        select_ascii_files("d", true, true, vec!["d/x.csv".to_string()]),
        Err("No valid files found in: d".to_string())
    );
}

#[test]
fn ascii_single_file() {
    assert_eq!(select_ascii_files("vsx.dat", true, false, vec![]), Ok(vec!["vsx.dat".to_string()]));
    assert_eq!(
        select_ascii_files("vsx.csv", true, false, vec![]),
        Err("ASCII file must have .dat, .ascii, .gz extension: vsx.csv".to_string())
    );
    assert_eq!(
        select_ascii_files("none.dat", false, false, vec![]),
        Err("ASCII file does not exist: none.dat".to_string())
    );
}

#[test]
fn path_checks() {
    assert_eq!(check_csv_path("a.csv", true), Ok(()));
    assert_eq!(check_csv_path("a.csv.gz", true), Ok(()));
    assert_eq!(check_csv_path("a.csv", false), Err("CSV file does not exist: a.csv".to_string()));
    assert_eq!(
        check_csv_path("a.tsv", true),
        Err("CSV file must have .csv or .csv.gz extension: a.tsv".to_string())
    );
    assert_eq!(check_fits_path("t.fit", true), Ok(()));
    assert_eq!(check_fits_path("t.fits", true), Ok(()));
    assert_eq!(
        check_fits_path("t.fz", true),
        Err("FITS file must have .fits or .fit extension: t.fz".to_string())
    );
    assert_eq!(check_fits_path("t.fits", false), Err("FITS file does not exist: t.fits".to_string()));
    assert_eq!(check_parquet_path("p.parquet", true), Ok(()));
    assert_eq!(check_parquet_path("p.pq", true), Err("File must have .parquet extension: p.pq".to_string()));
    assert_eq!(
        check_parquet_path("p.parquet", false),
        Err("Parquet file does not exist: p.parquet".to_string())
    );
}

#[test]
fn line_estimates() {
    assert_eq!(ascii_line_estimate("t.dat", 1000, 9), 100);
    assert_eq!(ascii_line_estimate("t.dat.gz", 1000, 9), 400);
    assert_eq!(csv_line_estimate("c.csv", 5000, 0, 0), 0);
    assert_eq!(csv_line_estimate("c.csv", 5000, 120, 12), 12);
    assert_eq!(csv_line_estimate("c.csv", 5000000, 1000000, 100000), 500000);
    assert_eq!(csv_line_estimate("c.csv.gz", 5000000, 1000000, 100000), 1500000);
}

#[test]
fn chunks_cover_the_table() {
    assert_eq!(chunk_ranges(0, 10), vec![]);
    assert_eq!(chunk_ranges(25, 10), vec![(0, 10), (10, 20), (20, 25)]);
    assert_eq!(chunk_ranges(20, 10), vec![(0, 10), (10, 20)]);
    assert_eq!(chunk_ranges(3, 100000), vec![(0, 3)]);
}

#[test]
fn every_row_lies_in_exactly_one_chunk() {
    for (total, size) in [(1usize, 1usize), (7, 3), (30, 10), (31, 10), (5, 100)] {
        let ranges = chunk_ranges(total, size);
        for row in 0..total {
            let holders = ranges.iter().filter(|(a, b)| *a <= row && row < *b).count();
            assert_eq!(holders, 1, "row {} of {} in chunks of {}", row, total, size);
        }
    }
}
