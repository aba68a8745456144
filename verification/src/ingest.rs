//! Decisions of the ingestion runs: which files to load, how many rows to
//! expect, and how to cut a table into chunks.
use vstd::prelude::*;
use crate::text::{chars_of, string_of, string_views};

verus! {

/// Whether `s` ends with `suffix` (comparing characters, which for UTF-8
/// text decides as comparing bytes does).
pub open spec fn ends_with(s: Seq<char>, suffix: Seq<char>) -> bool {
    suffix.len() <= s.len() && s.skip(s.len() - suffix.len()) == suffix
}

/// Whether `s` ends with `suffix`.
pub fn ends_with_text(s: &[char], suffix: &[char]) -> (b: bool)
    ensures
        b == ends_with(s@, suffix@),
{
    let n = s.len();
    let m = suffix.len();
    if m > n {
        return false;
    }
    let mut i: usize = 0;
    while i < m
        invariant
            m <= n,
            n == s@.len(),
            m == suffix@.len(),
            i <= m,
            forall|k: int| 0 <= k < i ==> s@[n - m + k] == suffix@[k],
        decreases m - i,
    {
        if s[n - m + i] != suffix[i] {
            assert(s@.skip(n - m)[i as int] != suffix@[i as int]);
            return false;
        }
        i = i + 1;
    }
    assert(s@.skip(n - m) =~= suffix@);
    true
}

/// Whether the text `s` ends with the text `suffix`.
pub fn has_suffix(s: &str, suffix: &str) -> (b: bool)
    ensures
        b == ends_with(s@, suffix@),
{
    let cs = chars_of(s);
    let sc = chars_of(suffix);
    ends_with_text(&cs, &sc)
}

/// `prefix` followed by `path`, as a new string.
fn report(prefix: &str, path: &str) -> (m: String)
    ensures
        m@ == prefix@ + path@,
{
    let mut m = String::new();
    m.append(prefix);
    m.append(path);
    m
}

/// Whether a file name is one of an ASCII table: `.dat`, `.ascii`,
/// `.dat.gz`, `.ascii.gz`, or any other `.gz`.
pub open spec fn is_ascii_table_name(p: Seq<char>) -> bool {
    ||| ends_with(p, ".dat"@)
    ||| ends_with(p, ".ascii"@)
    ||| ends_with(p, ".dat.gz"@)
    ||| ends_with(p, ".ascii.gz"@)
    ||| ends_with(p, ".gz"@)
}

/// Whether a file name is one of an ASCII table.
pub fn ascii_table_name(p: &str) -> (b: bool)
    ensures
        b == is_ascii_table_name(p@),
{
    has_suffix(p, ".dat") || has_suffix(p, ".ascii") || has_suffix(p, ".dat.gz") || has_suffix(
        p,
        ".ascii.gz",
    ) || has_suffix(p, ".gz")
}

/// The names among `names` that are ASCII tables, in order.
pub open spec fn ascii_tables_among(names: Seq<Seq<char>>) -> Seq<Seq<char>>
    decreases names.len(),
{
    if names.len() == 0 {
        Seq::empty()
    } else {
        ascii_tables_among(names.drop_last()) + if is_ascii_table_name(names.last()) {
            seq![names.last()]
        } else {
            Seq::empty()
        }
    }
}

/// The files to load for an ASCII path: every ASCII table among the files of
/// a directory, or the path itself when it is a file with an ASCII table's
/// name. `present` and `is_dir` say what the path is, and `dir_files` lists
/// the files of the directory (ignored for a file).
pub fn select_ascii_files(path: &str, present: bool, is_dir: bool, dir_files: Vec<String>) -> (r: Result<Vec<String>, String>)
    ensures
        !present ==> (r matches Err(e) && e@ == "ASCII file does not exist: "@ + path@),
        present && is_dir ==> {
            let found = ascii_tables_among(string_views(dir_files@));
            if found.len() == 0 {
                r matches Err(e) && e@ == "No valid files found in: "@ + path@
            } else {
                r matches Ok(files) && string_views(files@) == found
            }
        },
        present && !is_dir ==> if is_ascii_table_name(path@) {
            r matches Ok(files) && string_views(files@) == seq![path@]
        } else {
            r matches Err(e) && e@ == "ASCII file must have .dat, .ascii, .gz extension: "@ + path@
        },
{
    if !present {
        return Err(report("ASCII file does not exist: ", path));
    }
    if is_dir {
        let ghost names = string_views(dir_files@);
        let mut files: Vec<String> = Vec::new();
        let mut i: usize = 0;
        while i < dir_files.len()
            invariant
                i <= dir_files@.len(),
                names == string_views(dir_files@),
                string_views(files@) == ascii_tables_among(names.take(i as int)),
            decreases dir_files@.len() - i,
        {
            let ghost before = string_views(files@);
            assert(names.take(i + 1).drop_last() =~= names.take(i as int));
            assert(names.take(i + 1).last() == dir_files@[i as int]@);
            if ascii_table_name(dir_files[i].as_str()) {
                let name = string_of(&chars_of(dir_files[i].as_str()));
                files.push(name);
                assert(string_views(files@) =~= before.push(dir_files@[i as int]@));
            }
            i = i + 1;
            assert(string_views(files@) =~= ascii_tables_among(names.take(i as int)));
        }
        assert(names.take(i as int) =~= names);
        if files.len() == 0 {
            return Err(report("No valid files found in: ", path));
        }
        Ok(files)
    } else {
        if !ascii_table_name(path) {
            return Err(report("ASCII file must have .dat, .ascii, .gz extension: ", path));
        }
        let mut files: Vec<String> = Vec::new();
        files.push(string_of(&chars_of(path)));
        assert(string_views(files@) =~= seq![path@]);
        Ok(files)
    }
}

/// Checks a CSV path: it must exist and be named `.csv` or `.csv.gz`.
pub fn check_csv_path(path: &str, present: bool) -> (r: Result<(), String>)
    ensures
        r is Ok <==> present && (ends_with(path@, ".csv"@) || ends_with(path@, ".csv.gz"@)),
        r matches Err(e) ==> e@ == if !present {
            "CSV file does not exist: "@ + path@
        } else {
            "CSV file must have .csv or .csv.gz extension: "@ + path@
        },
{
    if !present {
        return Err(report("CSV file does not exist: ", path));
    }
    if !(has_suffix(path, ".csv") || has_suffix(path, ".csv.gz")) {
        return Err(report("CSV file must have .csv or .csv.gz extension: ", path));
    }
    Ok(())
}

/// Checks a FITS path: it must exist and be named `.fits` or `.fit`.
pub fn check_fits_path(path: &str, present: bool) -> (r: Result<(), String>)
    ensures
        r is Ok <==> present && (ends_with(path@, ".fits"@) || ends_with(path@, ".fit"@)),
        r matches Err(e) ==> e@ == if !present {
            "FITS file does not exist: "@ + path@
        } else {
            "FITS file must have .fits or .fit extension: "@ + path@
        },
{
    if !present {
        return Err(report("FITS file does not exist: ", path));
    }
    if !has_suffix(path, ".fits") && !has_suffix(path, ".fit") {
        return Err(report("FITS file must have .fits or .fit extension: ", path));
    }
    Ok(())
}

/// Checks a Parquet path: it must exist and be named `.parquet`.
pub fn check_parquet_path(path: &str, present: bool) -> (r: Result<(), String>)
    ensures
        r is Ok <==> present && ends_with(path@, ".parquet"@),
        r matches Err(e) ==> e@ == if !present {
            "Parquet file does not exist: "@ + path@
        } else {
            "File must have .parquet extension: "@ + path@
        },
{
    if !present {
        return Err(report("Parquet file does not exist: ", path));
    }
    if !has_suffix(path, ".parquet") {
        return Err(report("File must have .parquet extension: ", path));
    }
    Ok(())
}

/// The expected number of lines of an ASCII table of `file_size` bytes (on
/// disk) whose first line is `first_line_len` bytes long: a gzipped table is
/// taken to hold four times its size, and every line to be as long as the
/// first plus its newline.
pub open spec fn ascii_lines_expected(gzipped: bool, file_size: int, first_line_len: int) -> int {
    (if gzipped { file_size * 4 } else { file_size }) / (first_line_len + 1)
}

/// The expected number of lines of the ASCII table at `path`.
pub fn ascii_line_estimate(path: &str, file_size: usize, first_line_len: usize) -> (n: usize)
    requires
        ends_with(path@, ".gz"@) ==> file_size * 4 <= usize::MAX,
        first_line_len < usize::MAX,
    ensures
        n == ascii_lines_expected(ends_with(path@, ".gz"@), file_size as int, first_line_len as int),
{
    let size = if has_suffix(path, ".gz") { file_size * 4 } else { file_size };
    size / (first_line_len + 1)
}

/// How many records the CSV sample reads at most.
pub const CSV_SAMPLE_RECORDS: usize = 100000;

/// The expected number of records of a CSV file of `file_size` bytes (on
/// disk), from a sample of its first records: none for an empty sample, the
/// sample's count when the sample read the whole file (fewer than 100000
/// records), otherwise the (three times larger, if gzipped) size over the
/// sample's average record length.
pub open spec fn csv_records_expected(gzipped: bool, file_size: int, sample_total: int, sample_count: int) -> int {
    let size = if gzipped { file_size * 3 } else { file_size };
    if sample_count == 0 {
        0
    } else if sample_count < CSV_SAMPLE_RECORDS {
        sample_count
    } else {
        size / (sample_total / sample_count)
    }
}

/// The expected number of records of the CSV file at `path`, given the
/// summed lengths and the count of its sampled records.
pub fn csv_line_estimate(path: &str, file_size: usize, sample_total: usize, sample_count: usize) -> (n: usize)
    requires
        ends_with(path@, ".gz"@) ==> file_size * 3 <= usize::MAX,
        sample_count >= CSV_SAMPLE_RECORDS ==> sample_total / sample_count > 0,
    ensures
        n == csv_records_expected(ends_with(path@, ".gz"@), file_size as int, sample_total as int, sample_count as int),
{
    let size = if has_suffix(path, ".gz") { file_size * 3 } else { file_size };
    if sample_count == 0 {
        return 0;
    }
    if sample_count < CSV_SAMPLE_RECORDS {
        return sample_count;
    }
    let average = sample_total / sample_count;
    size / average
}

/// The row ranges `[start, end)` that cover a table of `total` rows in
/// order, each `size` rows long but the last, which may be shorter.
pub fn chunk_ranges(total: usize, size: usize) -> (r: Vec<(usize, usize)>)
    requires
        size > 0,
        total + size <= usize::MAX,
    ensures
        back_to_back(r@, total as int),
        forall|k: int| 0 <= k < r@.len() ==> {
            &&& (#[trigger] r@[k]).1 <= r@[k].0 + size
            &&& k < r@.len() - 1 ==> r@[k].1 == r@[k].0 + size
        },
{
    let mut r: Vec<(usize, usize)> = Vec::new();
    let mut start: usize = 0;
    while start < total
        invariant
            size > 0,
            total + size <= usize::MAX,
            start <= total,
            r@.len() == 0 <==> start == 0,
            r@.len() > 0 ==> r@[0].0 == 0 && r@.last().1 == start,
            forall|k: int| 0 <= k < r@.len() - 1 ==> #[trigger] r@[k].1 == r@[k + 1].0,
            forall|k: int| 0 <= k < r@.len() ==> {
                &&& (#[trigger] r@[k]).0 < r@[k].1
                &&& r@[k].1 <= r@[k].0 + size
                &&& (k < r@.len() - 1 ==> r@[k].1 == r@[k].0 + size)
            },
            r@.len() > 0 && r@.last().1 < total ==> r@.last().1 == r@.last().0 + size,
        decreases total - start,
    {
        let end = if start + size < total { start + size } else { total };
        let ghost before = r@;
        r.push((start, end));
        assert(r@[r@.len() - 1] == (start, end));
        assert forall|k: int| 0 <= k < r@.len() - 1 implies #[trigger] r@[k].1 == r@[k + 1].0 by {
            if k < r@.len() - 2 {
                assert(r@[k] == before[k] && r@[k + 1] == before[k + 1]);
            } else {
                assert(r@[k] == before.last());
            }
        }
        start = end;
    }
    r
}

/// Whether `r` is a run of non-empty ranges placed back to back from row 0
/// to row `total`, as `chunk_ranges` hands them out.
pub open spec fn back_to_back(r: Seq<(usize, usize)>, total: int) -> bool {
    &&& (r.len() == 0 <==> total == 0)
    &&& r.len() > 0 ==> r[0].0 == 0 && r.last().1 == total
    &&& forall|k: int| 0 <= k < r.len() - 1 ==> #[trigger] r[k].1 == r[k + 1].0
    &&& forall|k: int| 0 <= k < r.len() ==> (#[trigger] r[k]).0 < r[k].1
}

/// Ranges placed back to back are ordered: an earlier one ends where a later
/// one starts, or before.
proof fn lemma_back_to_back_ordered(r: Seq<(usize, usize)>, total: int, k1: int, k2: int)
    requires
        back_to_back(r, total),
        0 <= k1 < k2 < r.len(),
    ensures
        r[k1].1 <= r[k2].0,
    decreases k2 - k1,
{
    if k1 + 1 < k2 {
        lemma_back_to_back_ordered(r, total, k1 + 1, k2);
        assert(r[k1].1 == r[k1 + 1].0);
        assert(r[k1 + 1].0 < r[k1 + 1].1);
    }
}

/// Every row of a table is read once and only once when its rows are read
/// range by range, as the FITS and Parquet loaders do with the ranges of
/// `chunk_ranges`: each row lies in exactly one of the ranges.
pub proof fn lemma_each_row_in_one_range(r: Seq<(usize, usize)>, total: int, row: int)
    requires
        back_to_back(r, total),
        0 <= row < total,
    ensures
        exists|k: int| 0 <= k < r.len() && r[k].0 <= row < #[trigger] r[k].1,
        forall|k1: int, k2: int|
            0 <= k1 < r.len() && 0 <= k2 < r.len() && r[k1].0 <= row < #[trigger] r[k1].1
                && r[k2].0 <= row < #[trigger] r[k2].1 ==> k1 == k2,
    decreases r.len(),
{
    let last = r.len() - 1;
    if row < r[last].0 {
        let p = r.drop_last();
        assert(p.len() > 0) by {
            if last == 0 {
                assert(r[0].0 == 0);
            }
        }
        assert forall|k: int| 0 <= k < p.len() - 1 implies #[trigger] p[k].1 == p[k + 1].0 by {
            assert(p[k] == r[k] && p[k + 1] == r[k + 1]);
        }
        assert forall|k: int| 0 <= k < p.len() implies (#[trigger] p[k]).0 < p[k].1 by {
            assert(p[k] == r[k]);
        }
        assert(p.last() == r[last - 1]);
        assert(back_to_back(p, r[last].0 as int));
        lemma_each_row_in_one_range(p, r[last].0 as int, row);
        let k = choose|k: int| 0 <= k < p.len() && p[k].0 <= row < #[trigger] p[k].1;
        assert(r[k] == p[k]);
    } else {
        assert(r[last].0 <= row < r[last].1);
    }
    assert forall|k1: int, k2: int|
        0 <= k1 < r.len() && 0 <= k2 < r.len() && r[k1].0 <= row < #[trigger] r[k1].1
            && r[k2].0 <= row < #[trigger] r[k2].1 implies k1 == k2 by {
        if k1 < k2 {
            lemma_back_to_back_ordered(r, total, k1, k2);
        } else if k2 < k1 {
            lemma_back_to_back_ordered(r, total, k2, k1);
        }
    }
}


/// The last position of `c` in `s[..end]`, or -1 if it does not occur there.
pub open spec fn last_index_before(s: Seq<char>, c: char, end: int) -> int
    decreases end,
{
    if end <= 0 {
        -1
    } else if s[end - 1] == c {
        end - 1
    } else {
        last_index_before(s, c, end - 1)
    }
}

/// The extension of a file name, as `std::path::Path::extension` gives it:
/// the text after the last `.`, provided something comes before that dot;
/// `..` has none.
pub open spec fn extension_of(name: Seq<char>) -> Option<Seq<char>> {
    let i = last_index_before(name, '.', name.len() as int);
    if name == seq!['.', '.'] || i <= 0 {
        None
    } else {
        Some(name.skip(i + 1))
    }
}

/// Where the last `c` before `end` lies: nowhere (-1), or at a position that
/// holds `c` with no `c` after it.
proof fn lemma_last_index_before_facts(s: Seq<char>, c: char, end: int)
    requires
        end <= s.len(),
    ensures
        -1 <= last_index_before(s, c, end) < end || (end <= 0 && last_index_before(s, c, end) == -1),
        last_index_before(s, c, end) >= 0 ==> s[last_index_before(s, c, end)] == c,
        forall|m: int| last_index_before(s, c, end) < m < end && 0 <= m ==> #[trigger] s[m] != c,
    decreases end,
{
    if end > 0 && s[end - 1] != c {
        lemma_last_index_before_facts(s, c, end - 1);
    }
}

/// A file name has an extension exactly when a `.` that is not its first
/// character occurs in it (and it is not `..`); the extension is then the
/// text after the last `.`, holds no `.`, and the name is a non-empty stem,
/// a `.` and the extension.
pub proof fn lemma_extension_shape(name: Seq<char>)
    ensures
        extension_of(name) matches Some(e) ==> {
            &&& name.len() >= e.len() + 2
            &&& name[name.len() - e.len() - 1] == '.'
            &&& name.skip(name.len() - e.len()) == e
            &&& forall|m: int| 0 <= m < e.len() ==> #[trigger] e[m] != '.'
        },
        extension_of(name) is None ==> name == seq!['.', '.'] || forall|m: int| 1 <= m < name.len() ==> #[trigger] name[m] != '.',
{
    let n = name.len() as int;
    lemma_last_index_before_facts(name, '.', n);
    let i = last_index_before(name, '.', n);
    if let Some(e) = extension_of(name) {
        assert(e == name.skip(i + 1));
        assert forall|m: int| 0 <= m < e.len() implies #[trigger] e[m] != '.' by {
            assert(e[m] == name[i + 1 + m]);
        }
    }
}

/// Whether the file name `name` has the extension `ext`.
pub fn has_extension(name: &str, ext: &str) -> (b: bool)
    ensures
        b == (extension_of(name@) == Some(ext@)),
{
    let cs = chars_of(name);
    let es = chars_of(ext);
    let n = cs.len();
    let mut end: usize = n;
    while end > 0 && cs[end - 1] != '.'
        invariant
            end <= n == cs@.len(),
            last_index_before(cs@, '.', n as int) == last_index_before(cs@, '.', end as int),
        decreases end,
    {
        end = end - 1;
    }
    let dots = ['.', '.'];
    assert(dots@ =~= seq!['.', '.']);
    if crate::fields::same_chars(&cs, &dots) || end <= 1 {
        return false;
    }
    let after = crate::text::copy_range(&cs, end, n);
    assert(after@ =~= cs@.skip(end as int));
    let same = crate::fields::same_chars(&after, &es);
    proof {
        if same {
            assert(extension_of(name@) == Some(ext@));
        } else {
            assert(extension_of(name@) != Some(ext@));
        }
    }
    same
}

} // verus!
