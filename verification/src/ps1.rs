//! Rows of the Pan-STARRS1 side catalogs that are attached to existing
//! PanSTARRS documents.
use vstd::prelude::*;
use crate::fields::FloatText;
use crate::number::{int_reading, is_float_literal, parse_i64};
use crate::text::{chars_of, copy_range, piece_views, split_on, split_pieces, string_of, trim, trim_chars, trim_end, trim_end_len};

verus! {

/// Column of the PS1 object id in a PS1-STRM line.
pub const COL_OBJID: usize = 0;
/// Column of `uniquePspsOBid`, which breaks ties between rows of one object.
pub const COL_UNIQUE_PSPS_OBID: usize = 1;
/// Column of the classification.
pub const COL_CLASS: usize = 6;
/// Column of the galaxy probability.
pub const COL_PROB_GALAXY: usize = 7;
/// Column of the star probability.
pub const COL_PROB_STAR: usize = 8;
/// Column of the quasar probability.
pub const COL_PROB_QSO: usize = 9;
/// Column of the photometric redshift.
pub const COL_Z_PHOT: usize = 13;
/// Column of the photometric redshift's error.
pub const COL_Z_PHOT_ERR: usize = 14;
/// Number of columns of a PS1-STRM line.
pub const NUM_COLS: usize = 19;

/// A row of a PS1-STRM catalog file. Floating-point columns are kept as the
/// literal they hold, or nothing when they hold no number.
pub struct StrmRecord {
    pub obj_id: i64,
    pub unique_psps_obid: i64,
    pub class: String,
    pub prob_galaxy: Option<FloatText>,
    pub prob_star: Option<FloatText>,
    pub prob_qso: Option<FloatText>,
    pub z_phot: Option<FloatText>,
    pub z_phot_err: Option<FloatText>,
}

/// The number a floating-point column holds, as a literal: its trimmed text
/// if that is a number, nothing otherwise.
pub open spec fn float_cell(field: Seq<char>, r: Option<FloatText>) -> bool {
    if is_float_literal(trim(field)) {
        r matches Some(v) && v@ == trim(field)
    } else {
        r is None
    }
}

/// The literal in a floating-point column, if it holds a number.
fn float_cell_of(field: &[char]) -> (r: Option<FloatText>)
    ensures
        float_cell(field@, r),
{
    let t = trim_chars(field);
    FloatText::from_chars(&t)
}

/// The columns of a PS1-STRM line: the line without trailing white space,
/// split at commas.
pub open spec fn strm_columns(line: Seq<char>) -> Seq<Seq<char>> {
    split_on(trim_end(line), ',')
}

/// Whether a PS1-STRM line holds a row: it has exactly 19 columns and its
/// object id and tie-break id are integers.
pub open spec fn strm_line_holds_row(line: Seq<char>) -> bool {
    let f = strm_columns(line);
    &&& f.len() == NUM_COLS
    &&& int_reading(trim(f[COL_OBJID as int]), i64::MIN as int, i64::MAX as int) is Ok
    &&& int_reading(trim(f[COL_UNIQUE_PSPS_OBID as int]), i64::MIN as int, i64::MAX as int) is Ok
}

/// Whether `r` is the row that a PS1-STRM line holds.
pub open spec fn strm_reads_as(line: Seq<char>, r: StrmRecord) -> bool {
    let f = strm_columns(line);
    &&& f.len() == NUM_COLS
    &&& int_reading(trim(f[COL_OBJID as int]), i64::MIN as int, i64::MAX as int) == Ok::<int, crate::number::IntErrorKind>(r.obj_id as int)
    &&& int_reading(trim(f[COL_UNIQUE_PSPS_OBID as int]), i64::MIN as int, i64::MAX as int) == Ok::<int, crate::number::IntErrorKind>(r.unique_psps_obid as int)
    &&& r.class@ == trim(f[COL_CLASS as int])
    &&& float_cell(f[COL_PROB_GALAXY as int], r.prob_galaxy)
    &&& float_cell(f[COL_PROB_STAR as int], r.prob_star)
    &&& float_cell(f[COL_PROB_QSO as int], r.prob_qso)
    &&& float_cell(f[COL_Z_PHOT as int], r.z_phot)
    &&& float_cell(f[COL_Z_PHOT_ERR as int], r.z_phot_err)
}

/// The columns of a PS1-STRM catalog file, as its documentation names them.
pub enum StrmColumn {
    ObjId,
    UniquePspsObid,
    RaMean,
    DecMean,
    L,
    B,
    Class,
    ProbGalaxy,
    ProbStar,
    ProbQso,
    ExtrapolationClass,
    CellDistanceClass,
    CellIdClass,
    ZPhot,
    ZPhotErr,
    ZPhot0,
    ExtrapolationPhotoz,
    CellDistancePhotoz,
    CellIdPhotoz,
}

/// The column order of a PS1-STRM catalog file (`objID`, `uniquePspsOBid`,
/// `raMean`, `decMean`, `l`, `b`, `class`, `prob_Galaxy`, `prob_Star`,
/// `prob_QSO`, three class-network columns, `z_phot`, `z_photErr`, `z_phot0`,
/// three photo-z-network columns).
pub open spec fn strm_catalog_columns() -> Seq<StrmColumn> {
    seq![
        StrmColumn::ObjId,
        StrmColumn::UniquePspsObid,
        StrmColumn::RaMean,
        StrmColumn::DecMean,
        StrmColumn::L,
        StrmColumn::B,
        StrmColumn::Class,
        StrmColumn::ProbGalaxy,
        StrmColumn::ProbStar,
        StrmColumn::ProbQso,
        StrmColumn::ExtrapolationClass,
        StrmColumn::CellDistanceClass,
        StrmColumn::CellIdClass,
        StrmColumn::ZPhot,
        StrmColumn::ZPhotErr,
        StrmColumn::ZPhot0,
        StrmColumn::ExtrapolationPhotoz,
        StrmColumn::CellDistancePhotoz,
        StrmColumn::CellIdPhotoz,
    ]
}

/// Whether the member of `r` named by `column` holds what the column text
/// `field` says (columns the row does not keep say nothing).
pub open spec fn strm_field_holds(column: StrmColumn, field: Seq<char>, r: StrmRecord) -> bool {
    match column {
        StrmColumn::ObjId => int_reading(trim(field), i64::MIN as int, i64::MAX as int) == Ok::<int, crate::number::IntErrorKind>(r.obj_id as int),
        StrmColumn::UniquePspsObid => int_reading(trim(field), i64::MIN as int, i64::MAX as int) == Ok::<int, crate::number::IntErrorKind>(r.unique_psps_obid as int),
        StrmColumn::Class => r.class@ == trim(field),
        StrmColumn::ProbGalaxy => float_cell(field, r.prob_galaxy),
        StrmColumn::ProbStar => float_cell(field, r.prob_star),
        StrmColumn::ProbQso => float_cell(field, r.prob_qso),
        StrmColumn::ZPhot => float_cell(field, r.z_phot),
        StrmColumn::ZPhotErr => float_cell(field, r.z_phot_err),
        _ => true,
    }
}

/// A PS1-STRM row read from a line has one line column per catalog column,
/// and each of its members holds what the column in that member's place of
/// the catalog's column order says.
pub proof fn lemma_strm_fields_read_their_columns(line: Seq<char>, r: StrmRecord)
    requires
        strm_reads_as(line, r),
    ensures
        strm_columns(line).len() == strm_catalog_columns().len(),
        forall|i: int| #![trigger strm_catalog_columns()[i]] 0 <= i < strm_catalog_columns().len()
            ==> strm_field_holds(strm_catalog_columns()[i], strm_columns(line)[i], r),
{
    let t = strm_catalog_columns();
    let f = strm_columns(line);
    assert forall|i: int| #![trigger strm_catalog_columns()[i]] 0 <= i < t.len()
        implies strm_field_holds(t[i], f[i], r) by {
        if i == 0 { assert(t[0] == StrmColumn::ObjId); }
        else if i == 1 { assert(t[1] == StrmColumn::UniquePspsObid); }
        else if i == 2 { assert(t[2] == StrmColumn::RaMean); }
        else if i == 3 { assert(t[3] == StrmColumn::DecMean); }
        else if i == 4 { assert(t[4] == StrmColumn::L); }
        else if i == 5 { assert(t[5] == StrmColumn::B); }
        else if i == 6 { assert(t[6] == StrmColumn::Class); }
        else if i == 7 { assert(t[7] == StrmColumn::ProbGalaxy); }
        else if i == 8 { assert(t[8] == StrmColumn::ProbStar); }
        else if i == 9 { assert(t[9] == StrmColumn::ProbQso); }
        else if i == 10 { assert(t[10] == StrmColumn::ExtrapolationClass); }
        else if i == 11 { assert(t[11] == StrmColumn::CellDistanceClass); }
        else if i == 12 { assert(t[12] == StrmColumn::CellIdClass); }
        else if i == 13 { assert(t[13] == StrmColumn::ZPhot); }
        else if i == 14 { assert(t[14] == StrmColumn::ZPhotErr); }
        else if i == 15 { assert(t[15] == StrmColumn::ZPhot0); }
        else if i == 16 { assert(t[16] == StrmColumn::ExtrapolationPhotoz); }
        else if i == 17 { assert(t[17] == StrmColumn::CellDistancePhotoz); }
        else { assert(t[18] == StrmColumn::CellIdPhotoz); }
    }
}

/// The row that a PS1-STRM line holds, if it holds one.
pub fn parse_line(line: &str) -> (r: Option<StrmRecord>)
    ensures
        r is Some <==> strm_line_holds_row(line@),
        r matches Some(rec) ==> strm_reads_as(line@, rec),
{
    let cs = chars_of(line);
    let kept = trim_end_len(&cs);
    proof {
        crate::text::lemma_trim_end_is_prefix(cs@);
    }
    let body = copy_range(&cs, 0, kept);
    let fields = split_pieces(&body, ',');
    let ghost f = strm_columns(line@);
    assert(body@ == trim_end(line@));
    assert(forall|k: int| 0 <= k < fields@.len() ==> #[trigger] fields@[k]@ == f[k]) by {
        assert forall|k: int| 0 <= k < fields@.len() implies #[trigger] fields@[k]@ == f[k] by {
            assert(piece_views(fields@)[k] == fields@[k]@);
        }
    }
    if fields.len() != NUM_COLS {
        return None;
    }
    let obj_id = match parse_i64(&trim_chars(fields[COL_OBJID].as_slice())) {
        Ok(v) => v,
        Err(_) => {
            return None;
        },
    };
    let unique_psps_obid = match parse_i64(&trim_chars(fields[COL_UNIQUE_PSPS_OBID].as_slice())) {
        Ok(v) => v,
        Err(_) => {
            return None;
        },
    };
    Some(StrmRecord {
        obj_id,
        unique_psps_obid,
        class: string_of(&trim_chars(fields[COL_CLASS].as_slice())),
        prob_galaxy: float_cell_of(fields[COL_PROB_GALAXY].as_slice()),
        prob_star: float_cell_of(fields[COL_PROB_STAR].as_slice()),
        prob_qso: float_cell_of(fields[COL_PROB_QSO].as_slice()),
        z_phot: float_cell_of(fields[COL_Z_PHOT].as_slice()),
        z_phot_err: float_cell_of(fields[COL_Z_PHOT_ERR].as_slice()),
    })
}

/// Whether `row` overwrites the PS1-STRM values that a document holds: the
/// document holds none yet, or holds those of a row with a lower
/// `uniquePspsOBid`. This is the rule of the update filter, so that among the
/// rows for one object the one with the highest `uniquePspsOBid` wins.
pub open spec fn strm_overwrites(stored: Option<StrmRecord>, row: StrmRecord) -> bool {
    match stored {
        None => true,
        Some(s) => s.unique_psps_obid < row.unique_psps_obid,
    }
}

/// What a document holds after `row` is applied to it.
pub open spec fn strm_update(stored: Option<StrmRecord>, row: StrmRecord) -> Option<StrmRecord> {
    if strm_overwrites(stored, row) {
        Some(row)
    } else {
        stored
    }
}

/// Applies `row` to what one document holds.
pub fn strm_apply_row(stored: Option<StrmRecord>, row: StrmRecord) -> (r: Option<StrmRecord>)
    ensures
        r == strm_update(stored, row),
{
    match stored {
        None => Some(row),
        Some(s) => {
            if s.unique_psps_obid < row.unique_psps_obid {
                Some(row)
            } else {
                Some(s)
            }
        },
    }
}

/// The documents, keyed by object id, after `row` arrives: the document
/// whose id is the row's object id is updated; a row whose object id no
/// document has changes nothing.
pub open spec fn strm_apply(docs: Map<i64, Option<StrmRecord>>, row: StrmRecord) -> Map<i64, Option<StrmRecord>> {
    if docs.dom().contains(row.obj_id) {
        docs.insert(row.obj_id, strm_update(docs[row.obj_id], row))
    } else {
        docs
    }
}

/// The documents after `rows` arrive, in order.
pub open spec fn strm_apply_all(docs: Map<i64, Option<StrmRecord>>, rows: Seq<StrmRecord>) -> Map<i64, Option<StrmRecord>>
    decreases rows.len(),
{
    if rows.len() == 0 {
        docs
    } else {
        strm_apply_all(strm_apply(docs, rows[0]), rows.drop_first())
    }
}

/// Whether `w` may end up in the document `k`: the document holds it, or it
/// is one of the rows for that object.
pub open spec fn strm_candidate(docs: Map<i64, Option<StrmRecord>>, rows: Seq<StrmRecord>, k: i64, w: StrmRecord) -> bool {
    ||| docs[k] == Some(w)
    ||| exists|i: int| 0 <= i < rows.len() && (#[trigger] rows[i]).obj_id == k && rows[i] == w
}

/// Whether `w` has a `uniquePspsOBid` no lower than that of any candidate for
/// the document `k`.
pub open spec fn strm_tops(docs: Map<i64, Option<StrmRecord>>, rows: Seq<StrmRecord>, k: i64, w: StrmRecord) -> bool {
    &&& (docs[k] matches Some(s) ==> s.unique_psps_obid <= w.unique_psps_obid)
    &&& forall|i: int| 0 <= i < rows.len() && (#[trigger] rows[i]).obj_id == k
        ==> rows[i].unique_psps_obid <= w.unique_psps_obid
}

/// Whether two candidates for one document that share a `uniquePspsOBid` are
/// the same row (the id is unique to a row, which may arrive more than once).
pub open spec fn strm_ties_agree(docs: Map<i64, Option<StrmRecord>>, rows: Seq<StrmRecord>) -> bool {
    forall|k: i64, a: StrmRecord, b: StrmRecord|
        #![trigger strm_candidate(docs, rows, k, a), strm_candidate(docs, rows, k, b)]
        docs.dom().contains(k) && strm_candidate(docs, rows, k, a) && strm_candidate(docs, rows, k, b)
            && a.unique_psps_obid == b.unique_psps_obid ==> a == b
}

/// Whether `rows1` and `rows2` hold the same rows, in whatever order and
/// however often each occurs.
pub open spec fn same_rows(rows1: Seq<StrmRecord>, rows2: Seq<StrmRecord>) -> bool {
    &&& forall|i: int| 0 <= i < rows1.len() ==> rows2.contains(#[trigger] rows1[i])
    &&& forall|j: int| 0 <= j < rows2.len() ==> rows1.contains(#[trigger] rows2[j])
}

/// Rows change what documents hold, never which documents there are.
pub proof fn lemma_strm_keeps_documents(docs: Map<i64, Option<StrmRecord>>, rows: Seq<StrmRecord>)
    ensures
        strm_apply_all(docs, rows).dom() == docs.dom(),
    decreases rows.len(),
{
    if rows.len() > 0 {
        let d1 = strm_apply(docs, rows[0]);
        assert(d1.dom() =~= docs.dom());
        lemma_strm_keeps_documents(d1, rows.drop_first());
    }
}

/// After any rows arrive, a document holds
/// PS1-STRM values exactly when it held some or a row for it arrived; those
/// values are a candidate with the highest `uniquePspsOBid`.
pub proof fn lemma_strm_winner(docs: Map<i64, Option<StrmRecord>>, rows: Seq<StrmRecord>, k: i64)
    requires
        docs.dom().contains(k),
    ensures
        strm_apply_all(docs, rows).dom() == docs.dom(),
        match strm_apply_all(docs, rows)[k] {
            None => docs[k] is None && forall|i: int| 0 <= i < rows.len() ==> (#[trigger] rows[i]).obj_id != k,
            Some(w) => strm_candidate(docs, rows, k, w) && strm_tops(docs, rows, k, w),
        },
    decreases rows.len(),
{
    if rows.len() == 0 {
        return;
    }
    let d1 = strm_apply(docs, rows[0]);
    let rest = rows.drop_first();
    assert(d1.dom() =~= docs.dom());
    lemma_strm_winner(d1, rest, k);
    assert(strm_apply_all(docs, rows) == strm_apply_all(d1, rest));
    assert forall|i: int| 0 <= i < rest.len() implies #[trigger] rest[i] == rows[i + 1] by {}
    match strm_apply_all(d1, rest)[k] {
        None => {
            assert forall|i: int| 0 <= i < rows.len() implies (#[trigger] rows[i]).obj_id != k by {
                if i > 0 {
                    assert(rest[i - 1] == rows[i]);
                }
            }
        },
        Some(w) => {
            if d1[k] == Some(w) {
                if rows[0].obj_id == k && docs[k] != Some(w) {
                    assert(rows[0] == w);
                    assert(0 <= 0 < rows.len() && rows[0].obj_id == k && rows[0] == w);
                }
            } else {
                let j = choose|j: int| 0 <= j < rest.len() && (#[trigger] rest[j]).obj_id == k && rest[j] == w;
                assert(rows[j + 1] == rest[j]);
                assert(0 <= j + 1 < rows.len() && rows[j + 1].obj_id == k && rows[j + 1] == w);
            }
            assert forall|i: int| 0 <= i < rows.len() && (#[trigger] rows[i]).obj_id == k
                implies rows[i].unique_psps_obid <= w.unique_psps_obid by {
                if i > 0 {
                    assert(rest[i - 1] == rows[i]);
                }
            }
        },
    }
}

/// Under the same tie-break ids, the candidates for a document are the same
/// for two arrivals of the same rows, and so is the top.
proof fn lemma_same_candidates(docs: Map<i64, Option<StrmRecord>>, rows1: Seq<StrmRecord>, rows2: Seq<StrmRecord>, k: i64, w: StrmRecord)
    requires
        same_rows(rows1, rows2),
    ensures
        strm_candidate(docs, rows1, k, w) ==> strm_candidate(docs, rows2, k, w),
        strm_tops(docs, rows2, k, w) ==> strm_tops(docs, rows1, k, w),
{
    if strm_candidate(docs, rows1, k, w) && docs[k] != Some(w) {
        let i = choose|i: int| 0 <= i < rows1.len() && (#[trigger] rows1[i]).obj_id == k && rows1[i] == w;
        assert(rows2.contains(rows1[i]));
        let j = choose|j: int| 0 <= j < rows2.len() && rows2[j] == rows1[i];
        assert(0 <= j < rows2.len() && (#[trigger] rows2[j]).obj_id == k && rows2[j] == w);
    }
    if strm_tops(docs, rows2, k, w) {
        assert forall|i: int| 0 <= i < rows1.len() && (#[trigger] rows1[i]).obj_id == k
            implies rows1[i].unique_psps_obid <= w.unique_psps_obid by {
            assert(rows2.contains(rows1[i]));
            let j = choose|j: int| 0 <= j < rows2.len() && rows2[j] == rows1[i];
            assert(rows2[j].obj_id == k);
        }
    }
}

/// The PS1-STRM values that the documents end up with do not depend on the
/// order in which the rows arrive, nor on how often each arrives: two
/// arrivals of the same rows leave the same documents, provided rows for one
/// object that share a `uniquePspsOBid` are the same row.
pub proof fn lemma_strm_order_independent(docs: Map<i64, Option<StrmRecord>>, rows1: Seq<StrmRecord>, rows2: Seq<StrmRecord>)
    requires
        same_rows(rows1, rows2),
        strm_ties_agree(docs, rows1),
    ensures
        strm_apply_all(docs, rows1) == strm_apply_all(docs, rows2),
{
    let r1 = strm_apply_all(docs, rows1);
    let r2 = strm_apply_all(docs, rows2);
    lemma_strm_keeps_documents(docs, rows1);
    lemma_strm_keeps_documents(docs, rows2);
    assert(same_rows(rows2, rows1));
    assert forall|k: i64| #[trigger] docs.dom().contains(k) implies r1[k] == r2[k] by {
        lemma_strm_winner(docs, rows1, k);
        lemma_strm_winner(docs, rows2, k);
        match (r1[k], r2[k]) {
            (None, None) => {},
            (None, Some(w2)) => {
                lemma_same_candidates(docs, rows2, rows1, k, w2);
                let i = choose|i: int| 0 <= i < rows1.len() && (#[trigger] rows1[i]).obj_id == k && rows1[i] == w2;
            },
            (Some(w1), None) => {
                lemma_same_candidates(docs, rows1, rows2, k, w1);
                let j = choose|j: int| 0 <= j < rows2.len() && (#[trigger] rows2[j]).obj_id == k && rows2[j] == w1;
            },
            (Some(w1), Some(w2)) => {
                lemma_same_candidates(docs, rows1, rows2, k, w1);
                lemma_same_candidates(docs, rows2, rows1, k, w2);
                lemma_same_candidates(docs, rows1, rows2, k, w2);
                if strm_candidate(docs, rows2, k, w1) && docs[k] != Some(w1) {
                    let j = choose|j: int| 0 <= j < rows2.len() && (#[trigger] rows2[j]).obj_id == k && rows2[j] == w1;
                    assert(rows2[j].unique_psps_obid <= w2.unique_psps_obid);
                }
                if strm_candidate(docs, rows1, k, w2) && docs[k] != Some(w2) {
                    let i = choose|i: int| 0 <= i < rows1.len() && (#[trigger] rows1[i]).obj_id == k && rows1[i] == w2;
                    assert(rows1[i].unique_psps_obid <= w1.unique_psps_obid);
                }
                assert(w1.unique_psps_obid == w2.unique_psps_obid);
                assert(strm_candidate(docs, rows1, k, w1) && strm_candidate(docs, rows1, k, w2));
            },
        }
    }
    assert(r1 =~= r2);
}

/// Rows that arrive in two goes leave the documents as the same rows
/// arriving in one go do.
pub proof fn lemma_strm_apply_all_append(docs: Map<i64, Option<StrmRecord>>, a: Seq<StrmRecord>, b: Seq<StrmRecord>)
    ensures
        strm_apply_all(strm_apply_all(docs, a), b) == strm_apply_all(docs, a + b),
    decreases a.len(),
{
    if a.len() == 0 {
        assert(a + b =~= b);
    } else {
        lemma_strm_apply_all_append(strm_apply(docs, a[0]), a.drop_first(), b);
        assert((a + b).drop_first() =~= a.drop_first() + b);
        assert((a + b)[0] == a[0]);
    }
}

/// A run that was interrupted after some of the rows arrived (in any order),
/// followed by a full rerun, leaves the documents as a single full run does.
pub proof fn lemma_strm_rerun_converges(docs: Map<i64, Option<StrmRecord>>, done: Seq<StrmRecord>, rows: Seq<StrmRecord>)
    requires
        forall|i: int| 0 <= i < done.len() ==> rows.contains(#[trigger] done[i]),
        strm_ties_agree(docs, rows),
    ensures
        strm_apply_all(strm_apply_all(docs, done), rows) == strm_apply_all(docs, rows),
{
    lemma_strm_apply_all_append(docs, done, rows);
    let all = done + rows;
    assert forall|i: int| 0 <= i < all.len() implies rows.contains(#[trigger] all[i]) by {
        if i < done.len() {
            assert(all[i] == done[i]);
        } else {
            assert(all[i] == rows[i - done.len()]);
        }
    }
    assert forall|j: int| 0 <= j < rows.len() implies all.contains(#[trigger] rows[j]) by {
        assert(all[done.len() + j] == rows[j]);
    }
    assert(same_rows(all, rows));
    assert forall|k: i64, a: StrmRecord, b: StrmRecord|
        #![trigger strm_candidate(docs, all, k, a), strm_candidate(docs, all, k, b)]
        docs.dom().contains(k) && strm_candidate(docs, all, k, a) && strm_candidate(docs, all, k, b)
            && a.unique_psps_obid == b.unique_psps_obid implies a == b by {
        lemma_same_candidates(docs, all, rows, k, a);
        lemma_same_candidates(docs, all, rows, k, b);
    }
    lemma_strm_order_independent(docs, all, rows);
}

} // verus!
