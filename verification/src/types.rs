//! Catalog row types and the rules by which their fields are read.
use vstd::prelude::*;
use crate::ascii::FromAsciiRow;
use crate::fields::{
    can_cut, cut_field, cut_ok, cut_trimmed, float_error_str, optional_reading, parse_boolean_chars,
    parse_failure, parse_failure_text, parse_optional_chars, parse_optional_string_chars,
    says_yes, text_reading, FloatText,
};
use crate::number::{decimal, decimal_string, float_error_text, int_error_text, int_reading, is_float_literal, parse_i32, parse_i64, IntErrorKind};
use crate::text::{chars_of, string_of, trim_chars, copy_range, piece_views, split_on, split_pieces, string_views, strings_of, trim};
use vstd::utf8::encode_utf8;
pub use crate::fields::{extract_range, nullable_field, parse_boolean, parse_optional, parse_optional_string, trimmed};

verus! {

/// Whether a catalog's rows carry sky coordinates (`ra`, `dec`) that get a
/// GeoJSON point and a spherical index.
pub trait HasCoordinates {
    /// Whether rows of this type carry coordinates: they do, unless the
    /// type says otherwise.
    fn has_coordinates() -> (b: bool)
        default_ensures
            b,
    {
        true
    }
}

/// A row of the VSX catalog of variable stars, read from its fixed-width
/// text format. Floating-point fields are kept as validated literals.
pub struct VSX {
    pub oid: i64,
    pub name: String,
    pub var_flag: i32,
    pub ra: FloatText,
    pub dec: FloatText,
    pub types: Vec<String>,
    pub max: Option<FloatText>,
    pub max_band: Option<String>,
    pub min_is_amplitude: bool,
    pub min: Option<FloatText>,
    pub min_band: Option<String>,
    pub epoch: Option<FloatText>,
    pub period: Option<FloatText>,
    pub spectral_type: Option<String>,
}

impl HasCoordinates for VSX {
    /// Rows of this catalog carry coordinates.
    fn has_coordinates() -> (b: bool)
        ensures
            b,
    {
        true
    }
}

/// The byte columns of the VSX fields, in line order.
pub open spec fn vsx_layout(bytes: Seq<u8>) -> bool {
    &&& can_cut(bytes, 0, 8)
    &&& can_cut(bytes, 8, 40)
    &&& can_cut(bytes, 40, 42)
    &&& can_cut(bytes, 42, 52)
    &&& can_cut(bytes, 52, 62)
    &&& can_cut(bytes, 62, 96)
    &&& can_cut(bytes, 96, 105)
    &&& can_cut(bytes, 105, 110)
    &&& can_cut(bytes, 110, 118)
    &&& can_cut(bytes, 118, 127)
    &&& can_cut(bytes, 127, 137)
    &&& can_cut(bytes, 137, 156)
    &&& can_cut(bytes, 156, 174)
    &&& can_cut(bytes, 174, 204)
}

/// Why a VSX line holds no row: the first field, in the order `oid`, `name`,
/// `var_flag`, `ra`, `dec`, that is missing or not a value.
pub open spec fn vsx_rejection(line: Seq<char>) -> Option<Seq<char>> {
    let oid = cut_field(line, 0, 8);
    let name = cut_field(line, 8, 40);
    let var_flag = cut_field(line, 40, 42);
    let ra = cut_field(line, 42, 52);
    let dec = cut_field(line, 52, 62);
    match int_reading(oid, i64::MIN as int, i64::MAX as int) {
        Err(e) => Some(parse_failure("Field 'oid' at [0:8]: failed to parse '"@, oid, int_error_text(e))),
        Ok(_) => if name.len() == 0 {
            Some("Field 'name' at [8:40]: cannot be empty"@)
        } else {
            match int_reading(var_flag, i32::MIN as int, i32::MAX as int) {
                Err(e) => Some(
                    parse_failure("Field 'var_flag' at [40:44]: failed to parse '"@, var_flag, int_error_text(e)),
                ),
                Ok(_) => if !is_float_literal(ra) {
                    Some(parse_failure("Field 'ra' at [44:54]: failed to parse '"@, ra, float_error_text(ra)))
                } else if !is_float_literal(dec) {
                    Some(parse_failure("Field 'dec' at [54:64]: failed to parse '"@, dec, float_error_text(dec)))
                } else {
                    None
                },
            }
        },
    }
}

/// The variability types of a VSX row: none for a blank field, otherwise
/// the field's pieces between `|` separators.
pub open spec fn vsx_types(field: Seq<char>) -> Seq<Seq<char>> {
    if trim(field).len() == 0 {
        Seq::empty()
    } else {
        split_on(trim(field), '|')
    }
}

/// Whether `row` is what a VSX line says, field by field.
pub open spec fn vsx_reads_as(line: Seq<char>, row: VSX) -> bool {
    &&& int_reading(cut_field(line, 0, 8), i64::MIN as int, i64::MAX as int) == Ok::<int, IntErrorKind>(row.oid as int)
    &&& row.name@ == cut_field(line, 8, 40)
    &&& int_reading(cut_field(line, 40, 42), i32::MIN as int, i32::MAX as int) == Ok::<int, IntErrorKind>(row.var_flag as int)
    &&& row.ra@ == cut_field(line, 42, 52)
    &&& row.dec@ == cut_field(line, 52, 62)
    &&& string_views(row.types@) == vsx_types(cut_field(line, 62, 96))
    &&& optional_reading(cut_field(line, 96, 105), row.max)
    &&& text_reading(cut_field(line, 105, 110), row.max_band)
    &&& row.min_is_amplitude == says_yes(cut_field(line, 110, 118))
    &&& optional_reading(cut_field(line, 118, 127), row.min)
    &&& text_reading(cut_field(line, 127, 137), row.min_band)
    &&& optional_reading(cut_field(line, 137, 156), row.epoch)
    &&& optional_reading(cut_field(line, 156, 174), row.period)
    &&& text_reading(cut_field(line, 174, 204), row.spectral_type)
}

/// The fields of a VSX line, as the catalog's fixed-width format names them.
pub enum VsxColumn {
    Oid,
    Name,
    VarFlag,
    Ra,
    Dec,
    Types,
    Max,
    MaxBand,
    MinIsAmplitude,
    Min,
    MinBand,
    Epoch,
    Period,
    SpectralType,
}

/// The layout of a VSX line: each field with its byte columns
/// `[start, end)`, in line order.
pub open spec fn vsx_columns() -> Seq<(VsxColumn, int, int)> {
    seq![
        (VsxColumn::Oid, 0int, 8int),
        (VsxColumn::Name, 8int, 40int),
        (VsxColumn::VarFlag, 40int, 42int),
        (VsxColumn::Ra, 42int, 52int),
        (VsxColumn::Dec, 52int, 62int),
        (VsxColumn::Types, 62int, 96int),
        (VsxColumn::Max, 96int, 105int),
        (VsxColumn::MaxBand, 105int, 110int),
        (VsxColumn::MinIsAmplitude, 110int, 118int),
        (VsxColumn::Min, 118int, 127int),
        (VsxColumn::MinBand, 127int, 137int),
        (VsxColumn::Epoch, 137int, 156int),
        (VsxColumn::Period, 156int, 174int),
        (VsxColumn::SpectralType, 174int, 204int),
    ]
}

/// Whether the member of `row` that holds the field `column` holds what the
/// field's trimmed text `text` says.
pub open spec fn vsx_field_holds(column: VsxColumn, text: Seq<char>, row: VSX) -> bool {
    match column {
        VsxColumn::Oid => int_reading(text, i64::MIN as int, i64::MAX as int) == Ok::<int, IntErrorKind>(row.oid as int),
        VsxColumn::Name => row.name@ == text,
        VsxColumn::VarFlag => int_reading(text, i32::MIN as int, i32::MAX as int) == Ok::<int, IntErrorKind>(row.var_flag as int),
        VsxColumn::Ra => row.ra@ == text,
        VsxColumn::Dec => row.dec@ == text,
        VsxColumn::Types => string_views(row.types@) == vsx_types(text),
        VsxColumn::Max => optional_reading(text, row.max),
        VsxColumn::MaxBand => text_reading(text, row.max_band),
        VsxColumn::MinIsAmplitude => row.min_is_amplitude == says_yes(text),
        VsxColumn::Min => optional_reading(text, row.min),
        VsxColumn::MinBand => text_reading(text, row.min_band),
        VsxColumn::Epoch => optional_reading(text, row.epoch),
        VsxColumn::Period => optional_reading(text, row.period),
        VsxColumn::SpectralType => text_reading(text, row.spectral_type),
    }
}

/// Every member of a VSX row read from a line holds what its own field's
/// byte columns say, as the layout table places them; the fields lie side
/// by side from byte 0 to byte 204.
pub proof fn lemma_vsx_fields_read_their_columns(line: Seq<char>, row: VSX)
    requires
        vsx_reads_as(line, row),
    ensures
        forall|i: int| #![trigger vsx_columns()[i]] 0 <= i < vsx_columns().len() ==> vsx_field_holds(
            vsx_columns()[i].0,
            cut_field(line, vsx_columns()[i].1, vsx_columns()[i].2),
            row,
        ),
        vsx_columns().len() == 14,
        vsx_columns()[0].1 == 0,
        vsx_columns()[13].2 == 204,
        forall|i: int| #![trigger vsx_columns()[i]] 0 <= i < 13 ==> vsx_columns()[i].2 == vsx_columns()[i + 1].1,
{
    let t = vsx_columns();
    assert forall|i: int| #![trigger vsx_columns()[i]] 0 <= i < t.len() implies vsx_field_holds(
        t[i].0,
        cut_field(line, t[i].1, t[i].2),
        row,
    ) by {
        if i == 0 { assert(t[0] == (VsxColumn::Oid, 0int, 8int)); }
        else if i == 1 { assert(t[1] == (VsxColumn::Name, 8int, 40int)); }
        else if i == 2 { assert(t[2] == (VsxColumn::VarFlag, 40int, 42int)); }
        else if i == 3 { assert(t[3] == (VsxColumn::Ra, 42int, 52int)); }
        else if i == 4 { assert(t[4] == (VsxColumn::Dec, 52int, 62int)); }
        else if i == 5 { assert(t[5] == (VsxColumn::Types, 62int, 96int)); }
        else if i == 6 { assert(t[6] == (VsxColumn::Max, 96int, 105int)); }
        else if i == 7 { assert(t[7] == (VsxColumn::MaxBand, 105int, 110int)); }
        else if i == 8 { assert(t[8] == (VsxColumn::MinIsAmplitude, 110int, 118int)); }
        else if i == 9 { assert(t[9] == (VsxColumn::Min, 118int, 127int)); }
        else if i == 10 { assert(t[10] == (VsxColumn::MinBand, 127int, 137int)); }
        else if i == 11 { assert(t[11] == (VsxColumn::Epoch, 137int, 156int)); }
        else if i == 12 { assert(t[12] == (VsxColumn::Period, 156int, 174int)); }
        else { assert(t[13] == (VsxColumn::SpectralType, 174int, 204int)); }
    }
}

/// The variability types of a VSX row.
fn vsx_type_list(field: &[char]) -> (types: Vec<String>)
    ensures
        string_views(types@) == vsx_types(field@),
{
    match parse_optional_string_chars(field) {
        Some(t) => {
            let cs = chars_of(t.as_str());
            let pieces = split_pieces(&cs, '|');
            strings_of(&pieces)
        },
        None => {
            let v: Vec<String> = Vec::new();
            assert(string_views(v@) =~= Seq::<Seq<char>>::empty());
            v
        },
    }
}

impl FromAsciiRow for VSX {
    open spec fn fits_layout(line: Seq<char>) -> bool {
        vsx_layout(encode_utf8(line))
    }

    open spec fn rejection(line: Seq<char>) -> Option<Seq<char>> {
        vsx_rejection(line)
    }

    open spec fn reads_as(line: Seq<char>, row: VSX) -> bool {
        vsx_reads_as(line, row)
    }

    fn layout_fits(line: &str) -> (b: bool) {
        cut_ok(line, 0, 8) && cut_ok(line, 8, 40) && cut_ok(line, 40, 42) && cut_ok(line, 42, 52)
            && cut_ok(line, 52, 62) && cut_ok(line, 62, 96) && cut_ok(line, 96, 105) && cut_ok(
            line,
            105,
            110,
        ) && cut_ok(line, 110, 118) && cut_ok(line, 118, 127) && cut_ok(line, 127, 137) && cut_ok(
            line,
            137,
            156,
        ) && cut_ok(line, 156, 174) && cut_ok(line, 174, 204)
    }

    #[verifier::rlimit(50)]
    fn from_line(line: &str) -> (r: Result<VSX, String>) {
        let oid_str = cut_trimmed(line, 0, 8);
        let name_str = cut_trimmed(line, 8, 40);
        let var_flag_str = cut_trimmed(line, 40, 42);
        let ra_str = cut_trimmed(line, 42, 52);
        let dec_str = cut_trimmed(line, 52, 62);
        let type_str = cut_trimmed(line, 62, 96);
        let max_str = cut_trimmed(line, 96, 105);
        let max_band_str = cut_trimmed(line, 105, 110);
        let min_is_amplitude_str = cut_trimmed(line, 110, 118);
        let min_str = cut_trimmed(line, 118, 127);
        let min_band_str = cut_trimmed(line, 127, 137);
        let epoch_str = cut_trimmed(line, 137, 156);
        let period_str = cut_trimmed(line, 156, 174);
        let spectral_type_str = cut_trimmed(line, 174, 204);

        let oid = match parse_i64(&oid_str) {
            Ok(v) => v,
            Err(e) => {
                return Err(parse_failure_text("Field 'oid' at [0:8]: failed to parse '", &oid_str, e.text()));
            },
        };
        if name_str.len() == 0 {
            let mut m = String::new();
            m.append("Field 'name' at [8:40]: cannot be empty");
            return Err(m);
        }
        let name = string_of(&name_str);
        let var_flag = match parse_i32(&var_flag_str) {
            Ok(v) => v,
            Err(e) => {
                return Err(
                    parse_failure_text("Field 'var_flag' at [40:44]: failed to parse '", &var_flag_str, e.text()),
                );
            },
        };
        let ra = match FloatText::from_chars(&ra_str) {
            Some(v) => v,
            None => {
                return Err(
                    parse_failure_text("Field 'ra' at [44:54]: failed to parse '", &ra_str, float_error_str(&ra_str)),
                );
            },
        };
        let dec = match FloatText::from_chars(&dec_str) {
            Some(v) => v,
            None => {
                return Err(
                    parse_failure_text("Field 'dec' at [54:64]: failed to parse '", &dec_str, float_error_str(&dec_str)),
                );
            },
        };
        let types = vsx_type_list(&type_str);
        let max = parse_optional_chars(&max_str);
        let max_band = parse_optional_string_chars(&max_band_str);
        let min_is_amplitude = parse_boolean_chars(&min_is_amplitude_str);
        let min = parse_optional_chars(&min_str);
        let min_band = parse_optional_string_chars(&min_band_str);
        let epoch = parse_optional_chars(&epoch_str);
        let period = parse_optional_chars(&period_str);
        let spectral_type = parse_optional_string_chars(&spectral_type_str);
        Ok(VSX {
            oid,
            name,
            var_flag,
            ra,
            dec,
            types,
            max,
            max_band,
            min_is_amplitude,
            min,
            min_band,
            epoch,
            period,
            spectral_type,
        })
    }
}


/// A row of the 2MASS point source catalog, read from its `|`-separated
/// text format. Floating-point fields are kept as validated literals.
pub struct TwoMass {
    pub designation: String,
    pub ra: FloatText,
    pub dec: FloatText,
    pub j_m: Option<FloatText>,
    pub j_cmsig: Option<FloatText>,
    pub j_msigcom: Option<FloatText>,
    pub j_snr: Option<FloatText>,
    pub h_m: Option<FloatText>,
    pub h_cmsig: Option<FloatText>,
    pub h_msigcom: Option<FloatText>,
    pub h_snr: Option<FloatText>,
    pub k_m: Option<FloatText>,
    pub k_cmsig: Option<FloatText>,
    pub k_msigcom: Option<FloatText>,
    pub k_snr: Option<FloatText>,
    pub ph_qual: Option<String>,
    pub rd_flg: Option<String>,
    pub bl_flg: Option<String>,
    pub cc_flg: Option<String>,
    pub ndet: Option<i32>,
}

impl HasCoordinates for TwoMass {
    /// Rows of this catalog carry coordinates.
    fn has_coordinates() -> (b: bool)
        ensures
            b,
    {
        true
    }
}

/// Why a 2MASS line holds no row: it has fewer than 60 fields, or its `ra`
/// (field 0) or `dec` (field 1) is not a number; the report quotes the field
/// as it stands in the line.
pub open spec fn two_mass_rejection(line: Seq<char>) -> Option<Seq<char>> {
    let f = split_on(line, '|');
    if f.len() < 60 {
        Some("Expected at least 60 fields, found "@ + decimal(f.len()))
    } else if !is_float_literal(trim(f[0])) {
        Some("Failed to parse ra '"@ + f[0] + "': "@ + float_error_text(trim(f[0])))
    } else if !is_float_literal(trim(f[1])) {
        Some("Failed to parse dec '"@ + f[1] + "': "@ + float_error_text(trim(f[1])))
    } else {
        None
    }
}

/// Whether `row` is what a 2MASS line says, field by field.
pub open spec fn two_mass_reads_as(line: Seq<char>, row: TwoMass) -> bool {
    let f = split_on(line, '|');
    &&& f.len() >= 60
    &&& row.designation@ == trim(f[5])
    &&& row.ra@ == trim(f[0])
    &&& row.dec@ == trim(f[1])
    &&& optional_reading(f[6], row.j_m)
    &&& optional_reading(f[7], row.j_cmsig)
    &&& optional_reading(f[8], row.j_msigcom)
    &&& optional_reading(f[9], row.j_snr)
    &&& optional_reading(f[10], row.h_m)
    &&& optional_reading(f[11], row.h_cmsig)
    &&& optional_reading(f[12], row.h_msigcom)
    &&& optional_reading(f[13], row.h_snr)
    &&& optional_reading(f[14], row.k_m)
    &&& optional_reading(f[15], row.k_cmsig)
    &&& optional_reading(f[16], row.k_msigcom)
    &&& optional_reading(f[17], row.k_snr)
    &&& text_reading(f[18], row.ph_qual)
    &&& text_reading(f[19], row.rd_flg)
    &&& text_reading(f[20], row.bl_flg)
    &&& text_reading(f[21], row.cc_flg)
    &&& optional_reading(f[22], row.ndet)
}

/// The leading columns of the 2MASS point source catalog, in the order in
/// which its `|`-separated files hold them (60 columns in all).
pub enum TwoMassColumn {
    Ra,
    Dec,
    ErrMaj,
    ErrMin,
    ErrAng,
    Designation,
    JM,
    JCmsig,
    JMsigcom,
    JSnr,
    HM,
    HCmsig,
    HMsigcom,
    HSnr,
    KM,
    KCmsig,
    KMsigcom,
    KSnr,
    PhQual,
    RdFlg,
    BlFlg,
    CcFlg,
    Ndet,
}

/// The column order of the 2MASS point source catalog, up to `ndet`.
pub open spec fn two_mass_psc_columns() -> Seq<TwoMassColumn> {
    seq![
        TwoMassColumn::Ra,
        TwoMassColumn::Dec,
        TwoMassColumn::ErrMaj,
        TwoMassColumn::ErrMin,
        TwoMassColumn::ErrAng,
        TwoMassColumn::Designation,
        TwoMassColumn::JM,
        TwoMassColumn::JCmsig,
        TwoMassColumn::JMsigcom,
        TwoMassColumn::JSnr,
        TwoMassColumn::HM,
        TwoMassColumn::HCmsig,
        TwoMassColumn::HMsigcom,
        TwoMassColumn::HSnr,
        TwoMassColumn::KM,
        TwoMassColumn::KCmsig,
        TwoMassColumn::KMsigcom,
        TwoMassColumn::KSnr,
        TwoMassColumn::PhQual,
        TwoMassColumn::RdFlg,
        TwoMassColumn::BlFlg,
        TwoMassColumn::CcFlg,
        TwoMassColumn::Ndet,
    ]
}

/// Whether the member of `row` named by `column` holds what the field text
/// `field` says (the error-ellipse columns are not kept).
pub open spec fn two_mass_field_holds(column: TwoMassColumn, field: Seq<char>, row: TwoMass) -> bool {
    match column {
        TwoMassColumn::Ra => row.ra@ == trim(field),
        TwoMassColumn::Dec => row.dec@ == trim(field),
        TwoMassColumn::ErrMaj => true,
        TwoMassColumn::ErrMin => true,
        TwoMassColumn::ErrAng => true,
        TwoMassColumn::Designation => row.designation@ == trim(field),
        TwoMassColumn::JM => optional_reading(field, row.j_m),
        TwoMassColumn::JCmsig => optional_reading(field, row.j_cmsig),
        TwoMassColumn::JMsigcom => optional_reading(field, row.j_msigcom),
        TwoMassColumn::JSnr => optional_reading(field, row.j_snr),
        TwoMassColumn::HM => optional_reading(field, row.h_m),
        TwoMassColumn::HCmsig => optional_reading(field, row.h_cmsig),
        TwoMassColumn::HMsigcom => optional_reading(field, row.h_msigcom),
        TwoMassColumn::HSnr => optional_reading(field, row.h_snr),
        TwoMassColumn::KM => optional_reading(field, row.k_m),
        TwoMassColumn::KCmsig => optional_reading(field, row.k_cmsig),
        TwoMassColumn::KMsigcom => optional_reading(field, row.k_msigcom),
        TwoMassColumn::KSnr => optional_reading(field, row.k_snr),
        TwoMassColumn::PhQual => text_reading(field, row.ph_qual),
        TwoMassColumn::RdFlg => text_reading(field, row.rd_flg),
        TwoMassColumn::BlFlg => text_reading(field, row.bl_flg),
        TwoMassColumn::CcFlg => text_reading(field, row.cc_flg),
        TwoMassColumn::Ndet => optional_reading(field, row.ndet),
    }
}

/// Every member of a 2MASS row read from a line holds what the line's field
/// in that column's place of the catalog's column order says.
pub proof fn lemma_two_mass_fields_read_their_columns(line: Seq<char>, row: TwoMass)
    requires
        two_mass_reads_as(line, row),
    ensures
        split_on(line, '|').len() >= 60,
        forall|i: int| #![trigger two_mass_psc_columns()[i]] 0 <= i < two_mass_psc_columns().len()
            ==> two_mass_field_holds(two_mass_psc_columns()[i], split_on(line, '|')[i], row),
{
    let t = two_mass_psc_columns();
    let f = split_on(line, '|');
    assert forall|i: int| #![trigger two_mass_psc_columns()[i]] 0 <= i < t.len()
        implies two_mass_field_holds(t[i], f[i], row) by {
        if i == 0 { assert(t[0] == TwoMassColumn::Ra); }
        else if i == 1 { assert(t[1] == TwoMassColumn::Dec); }
        else if i == 2 { assert(t[2] == TwoMassColumn::ErrMaj); }
        else if i == 3 { assert(t[3] == TwoMassColumn::ErrMin); }
        else if i == 4 { assert(t[4] == TwoMassColumn::ErrAng); }
        else if i == 5 { assert(t[5] == TwoMassColumn::Designation); }
        else if i == 6 { assert(t[6] == TwoMassColumn::JM); }
        else if i == 7 { assert(t[7] == TwoMassColumn::JCmsig); }
        else if i == 8 { assert(t[8] == TwoMassColumn::JMsigcom); }
        else if i == 9 { assert(t[9] == TwoMassColumn::JSnr); }
        else if i == 10 { assert(t[10] == TwoMassColumn::HM); }
        else if i == 11 { assert(t[11] == TwoMassColumn::HCmsig); }
        else if i == 12 { assert(t[12] == TwoMassColumn::HMsigcom); }
        else if i == 13 { assert(t[13] == TwoMassColumn::HSnr); }
        else if i == 14 { assert(t[14] == TwoMassColumn::KM); }
        else if i == 15 { assert(t[15] == TwoMassColumn::KCmsig); }
        else if i == 16 { assert(t[16] == TwoMassColumn::KMsigcom); }
        else if i == 17 { assert(t[17] == TwoMassColumn::KSnr); }
        else if i == 18 { assert(t[18] == TwoMassColumn::PhQual); }
        else if i == 19 { assert(t[19] == TwoMassColumn::RdFlg); }
        else if i == 20 { assert(t[20] == TwoMassColumn::BlFlg); }
        else if i == 21 { assert(t[21] == TwoMassColumn::CcFlg); }
        else { assert(t[22] == TwoMassColumn::Ndet); }
    }
}

/// The report for a coordinate field of a 2MASS line that is not a number.
fn coordinate_failure(label: &str, field: &[char], trimmed: &[char]) -> (m: String)
    ensures
        m@ == label@ + field@ + "': "@ + float_error_text(trimmed@),
{
    let mut m = String::new();
    m.append(label);
    let f = string_of(field);
    m.append(f.as_str());
    m.append("': ");
    m.append(float_error_str(trimmed));
    m
}

impl FromAsciiRow for TwoMass {
    open spec fn fits_layout(line: Seq<char>) -> bool {
        true
    }

    open spec fn rejection(line: Seq<char>) -> Option<Seq<char>> {
        two_mass_rejection(line)
    }

    open spec fn reads_as(line: Seq<char>, row: TwoMass) -> bool {
        two_mass_reads_as(line, row)
    }

    fn layout_fits(line: &str) -> (b: bool) {
        true
    }

    #[verifier::rlimit(50)]
    fn from_line(line: &str) -> (r: Result<TwoMass, String>) {
        let cs = chars_of(line);
        let fields = split_pieces(&cs, '|');
        let ghost f = split_on(line@, '|');
        assert(forall|k: int| 0 <= k < fields@.len() ==> #[trigger] fields@[k]@ == f[k]) by {
            assert forall|k: int| 0 <= k < fields@.len() implies #[trigger] fields@[k]@ == f[k] by {
                assert(piece_views(fields@)[k] == fields@[k]@);
            }
        }
        if fields.len() < 60 {
            let mut m = String::new();
            m.append("Expected at least 60 fields, found ");
            let n = decimal_string(fields.len() as u64);
            m.append(n.as_str());
            return Err(m);
        }
        let designation = string_of(&trim_chars(fields[5].as_slice()));
        let ra_str = trim_chars(fields[0].as_slice());
        let ra = match FloatText::from_chars(&ra_str) {
            Some(v) => v,
            None => {
                return Err(coordinate_failure("Failed to parse ra '", fields[0].as_slice(), &ra_str));
            },
        };
        let dec_str = trim_chars(fields[1].as_slice());
        let dec = match FloatText::from_chars(&dec_str) {
            Some(v) => v,
            None => {
                return Err(coordinate_failure("Failed to parse dec '", fields[1].as_slice(), &dec_str));
            },
        };
        Ok(TwoMass {
            designation,
            ra,
            dec,
            j_m: parse_optional_chars(fields[6].as_slice()),
            j_cmsig: parse_optional_chars(fields[7].as_slice()),
            j_msigcom: parse_optional_chars(fields[8].as_slice()),
            j_snr: parse_optional_chars(fields[9].as_slice()),
            h_m: parse_optional_chars(fields[10].as_slice()),
            h_cmsig: parse_optional_chars(fields[11].as_slice()),
            h_msigcom: parse_optional_chars(fields[12].as_slice()),
            h_snr: parse_optional_chars(fields[13].as_slice()),
            k_m: parse_optional_chars(fields[14].as_slice()),
            k_cmsig: parse_optional_chars(fields[15].as_slice()),
            k_msigcom: parse_optional_chars(fields[16].as_slice()),
            k_snr: parse_optional_chars(fields[17].as_slice()),
            ph_qual: parse_optional_string_chars(fields[18].as_slice()),
            rd_flg: parse_optional_string_chars(fields[19].as_slice()),
            bl_flg: parse_optional_string_chars(fields[20].as_slice()),
            cc_flg: parse_optional_string_chars(fields[21].as_slice()),
            ndet: parse_optional_chars(fields[22].as_slice()),
        })
    }
}


/// What a cleaned text column keeps of a cell: nothing when its trimmed
/// text is empty or a lone `-`, the trimmed text otherwise.
pub open spec fn cleaned_cell(s: Seq<char>) -> Option<Seq<char>> {
    let t = trim(s);
    if t.len() == 0 || t == seq!['-'] {
        None
    } else {
        Some(t)
    }
}

/// Whether `r` is the cleaned form of the cell `s`.
pub open spec fn cleans_to(s: Seq<char>, r: Option<String>) -> bool {
    match r {
        None => cleaned_cell(s) is None,
        Some(v) => cleaned_cell(s) == Some(v@),
    }
}

/// Cleans a text column of a Milliquas table: cells are trimmed, and blank
/// cells and lone dashes become absent values.
pub fn clean_string_column(col: Vec<String>) -> (r: Vec<Option<String>>)
    ensures
        r@.len() == col@.len(),
        forall|k: int| 0 <= k < col@.len() ==> cleans_to(col@[k]@, #[trigger] r@[k]),
{
    let mut r: Vec<Option<String>> = Vec::new();
    let mut i: usize = 0;
    while i < col.len()
        invariant
            i <= col@.len(),
            r@.len() == i,
            forall|k: int| 0 <= k < i ==> cleans_to(col@[k]@, #[trigger] r@[k]),
        decreases col@.len() - i,
    {
        let cs = chars_of(col[i].as_str());
        let t = trim_chars(&cs);
        let dash = ['-'];
        assert(dash@ =~= seq!['-']);
        if t.len() == 0 || crate::fields::same_chars(&t, &dash) {
            r.push(None);
        } else {
            r.push(Some(string_of(&t)));
        }
        i = i + 1;
    }
    r
}

/// `s` without leading and trailing NUL characters, as `trim_matches('\0')`
/// leaves it.
pub open spec fn strip_nul(s: Seq<char>) -> Seq<char>
    decreases s.len(),
{
    if s.len() > 0 && s[0] == '\0' {
        strip_nul(s.drop_first())
    } else if s.len() > 0 && s.last() == '\0' {
        strip_nul(s.drop_last())
    } else {
        s
    }
}

/// `strip_nul` leaves the part between the NUL runs at both ends.
proof fn lemma_strip_nul_bounds(s: Seq<char>, a: int, b: int)
    requires
        0 <= a <= b <= s.len(),
        forall|j: int| 0 <= j < a ==> #[trigger] s[j] == '\0',
        forall|j: int| b <= j < s.len() ==> #[trigger] s[j] == '\0',
        a < b ==> s[a] != '\0' && s[b - 1] != '\0',
        a == b ==> b == s.len(),
    ensures
        strip_nul(s) == s.subrange(a, b),
    decreases s.len(),
{
    if s.len() > 0 && s[0] == '\0' {
        let t = s.drop_first();
        if a > 0 {
            assert forall|j: int| 0 <= j < a - 1 implies #[trigger] t[j] == '\0' by {
                assert(t[j] == s[j + 1]);
            }
            assert forall|j: int| b - 1 <= j < t.len() implies #[trigger] t[j] == '\0' by {
                assert(t[j] == s[j + 1]);
            }
            lemma_strip_nul_bounds(t, a - 1, b - 1);
            assert(t.subrange(a - 1, b - 1) =~= s.subrange(a, b));
        } else {
            assert(a == b);
            assert(b == s.len());
            assert(false);
        }
    } else if s.len() > 0 && s.last() == '\0' {
        let t = s.drop_last();
        if b < s.len() {
            assert forall|j: int| 0 <= j < a implies #[trigger] t[j] == '\0' by {
                assert(t[j] == s[j]);
            }
            assert forall|j: int| b <= j < t.len() implies #[trigger] t[j] == '\0' by {
                assert(t[j] == s[j]);
            }
            if a == b {
                assert(a < s.len());
                assert(false);
            }
            lemma_strip_nul_bounds(t, a, b);
            assert(t.subrange(a, b) =~= s.subrange(a, b));
        } else {
            assert(a < b);
            assert(false);
        }
    } else {
        if a == b {
            assert(s.len() == 0);
        }
        assert(s.subrange(a, b) =~= s);
    }
}

/// The name of an eROSITA source: the `IAUNAME` cell without NUL padding at
/// either end, then without white space around it.
pub fn clean_iauname(raw: &str) -> (name: String)
    ensures
        name@ == trim(strip_nul(raw@)),
{
    let cs = chars_of(raw);
    let n = cs.len();
    let mut a: usize = 0;
    while a < n && cs[a] == '\0'
        invariant
            a <= n == cs@.len(),
            forall|j: int| 0 <= j < a ==> #[trigger] cs@[j] == '\0',
        decreases n - a,
    {
        a = a + 1;
    }
    let mut b: usize = n;
    while b > a && cs[b - 1] == '\0'
        invariant
            a <= b <= n == cs@.len(),
            forall|j: int| b <= j < n ==> #[trigger] cs@[j] == '\0',
        decreases b,
    {
        b = b - 1;
    }
    proof {
        if a == b && b < n {
            assert(cs@[a as int] == '\0');
            assert(false);
        }
        lemma_strip_nul_bounds(cs@, a as int, b as int);
    }
    let inner = copy_range(&cs, a, b);
    string_of(&trim_chars(&inner))
}

/// Whether a row of the DESI redshift catalog is kept: it is the primary
/// spectrum of its target, and the target is a science target (sky and other
/// non-science fibers carry negative target ids).
pub open spec fn desi_keeps(targetid: i64, zcat_primary: bool) -> bool {
    zcat_primary && targetid >= 0
}

/// A DESI row is kept exactly when it is the primary spectrum of its target
/// and its target id is not negative: every negative id (sky and other
/// non-science fibers) is dropped, whatever its value.
pub proof fn lemma_desi_keeps_primary_science(targetid: i64, zcat_primary: bool)
    ensures
        desi_keeps(targetid, zcat_primary) <==> (zcat_primary && 0 <= targetid),
        targetid < 0 ==> !desi_keeps(targetid, zcat_primary),
        !zcat_primary ==> !desi_keeps(targetid, zcat_primary),
{
}

/// The positions of the DESI rows to keep, in increasing order.
pub fn primary_science_rows(targetid: &[i64], zcat_primary: &[bool]) -> (rows: Vec<usize>)
    requires
        targetid@.len() <= zcat_primary@.len(),
    ensures
        forall|k: int| 0 <= k < rows@.len() ==> {
            &&& #[trigger] rows@[k] < targetid@.len()
            &&& desi_keeps(targetid@[rows@[k] as int], zcat_primary@[rows@[k] as int])
        },
        forall|k: int, m: int| 0 <= k < m < rows@.len() ==> rows@[k] < rows@[m],
        forall|i: int| 0 <= i < targetid@.len() && desi_keeps(targetid@[i], zcat_primary@[i])
            ==> rows@.contains(i as usize),
        forall|k: int| 0 <= k < rows@.len() ==> {
            &&& targetid@[#[trigger] rows@[k] as int] >= 0
            &&& zcat_primary@[rows@[k] as int]
        },
        forall|i: int| 0 <= i < targetid@.len() && zcat_primary@[i] && targetid@[i] >= 0
            ==> #[trigger] rows@.contains(i as usize),
{
    let mut rows: Vec<usize> = Vec::new();
    let mut i: usize = 0;
    while i < targetid.len()
        invariant
            i <= targetid@.len() <= zcat_primary@.len(),
            forall|k: int| 0 <= k < rows@.len() ==> {
                &&& #[trigger] rows@[k] < i
                &&& desi_keeps(targetid@[rows@[k] as int], zcat_primary@[rows@[k] as int])
            },
            forall|k: int, m: int| 0 <= k < m < rows@.len() ==> rows@[k] < rows@[m],
            forall|j: int| 0 <= j < i && desi_keeps(targetid@[j], zcat_primary@[j])
                ==> rows@.contains(j as usize),
        decreases targetid@.len() - i,
    {
        if zcat_primary[i] && targetid[i] >= 0 {
            let ghost before = rows@;
            rows.push(i);
            assert forall|j: int| 0 <= j < i + 1 && desi_keeps(targetid@[j], zcat_primary@[j])
                implies rows@.contains(j as usize) by {
                if j < i {
                    let k = choose|k: int| 0 <= k < before.len() && before[k] == j as usize;
                    assert(rows@[k] == j as usize);
                } else {
                    assert(rows@[rows@.len() - 1] == j as usize);
                }
            }
        }
        i = i + 1;
    }
    rows
}

/// What is known of one column of a Parquet batch before its rows are read:
/// whether it has the type the row type reads, whether every row must have a
/// value in it, and which rows do.
pub struct ColumnCheck {
    pub typed: bool,
    pub required: bool,
    pub present: Vec<bool>,
}

/// Whether the cell in `row` of a column cannot be read: the column has the
/// wrong type, or the value is required and missing.
pub open spec fn cell_fault(c: ColumnCheck, row: int) -> bool {
    !c.typed || (c.required && !c.present@[row])
}

/// The first cell, row by row and within a row column by column, that cannot
/// be read; `None` when every cell of the `height` rows can be.
pub fn first_unreadable_cell(columns: &[ColumnCheck], height: usize) -> (r: Option<(usize, usize)>)
    requires
        forall|c: int| 0 <= c < columns@.len() ==> (#[trigger] columns@[c]).present@.len() >= height,
    ensures
        r is None <==> (forall|i: int, c: int| #![trigger cell_fault(columns@[c], i)] 0 <= i < height && 0 <= c < columns@.len()
            ==> !cell_fault(columns@[c], i)),
        r matches Some(p) ==> {
            &&& p.0 < height && p.1 < columns@.len()
            &&& cell_fault(columns@[p.1 as int], p.0 as int)
            &&& forall|i: int, c: int| #![trigger cell_fault(columns@[c], i)] 0 <= i < height && 0 <= c < columns@.len()
                && (i < p.0 || (i == p.0 && c < p.1)) ==> !cell_fault(columns@[c], i)
        },
{
    let mut i: usize = 0;
    while i < height
        invariant
            i <= height,
            forall|c: int| 0 <= c < columns@.len() ==> (#[trigger] columns@[c]).present@.len() >= height,
            forall|i2: int, c: int| #![trigger cell_fault(columns@[c], i2)] 0 <= i2 < i && 0 <= c < columns@.len()
                ==> !cell_fault(columns@[c], i2),
        decreases height - i,
    {
        let mut c: usize = 0;
        while c < columns.len()
            invariant
                i < height,
                c <= columns@.len(),
                forall|c2: int| 0 <= c2 < columns@.len() ==> (#[trigger] columns@[c2]).present@.len() >= height,
                forall|i2: int, c2: int| #![trigger cell_fault(columns@[c2], i2)] 0 <= i2 < i && 0 <= c2 < columns@.len()
                    ==> !cell_fault(columns@[c2], i2),
                forall|c2: int| #![trigger cell_fault(columns@[c2], i as int)] 0 <= c2 < c ==> !cell_fault(columns@[c2], i as int),
            decreases columns@.len() - c,
        {
            let col = &columns[c];
            if !col.typed || (col.required && !col.present[i]) {
                assert(cell_fault(columns@[c as int], i as int));
                return Some((i, c));
            }
            c = c + 1;
        }
        i = i + 1;
    }
    None
}

/// The report for a required value that is missing.
pub fn missing_value_report(name: &str, row: usize) -> (m: String)
    ensures
        m@ == "Missing "@ + name@ + " at row "@ + decimal(row as nat),
{
    let mut m = String::new();
    m.append("Missing ");
    m.append(name);
    m.append(" at row ");
    let n = decimal_string(row as u64);
    m.append(n.as_str());
    m
}


/// The catalogs read from FITS tables.
#[derive(Clone, Copy, Debug, PartialEq, Eq, Structural)]
pub enum FitsCatalogs {
    Ned,
    Milliquas,
    ERosita,
    UVGapsXGaia,
    DesiDr1,
}

/// The catalogs read from CSV files.
#[derive(Clone, Copy, Debug, PartialEq, Eq, Structural)]
pub enum CsvCatalogs {
    LSSG,
    Ned,
    Gaia,
    Galex,
}

/// The catalogs read from Parquet files.
#[derive(Clone, Copy, Debug, PartialEq, Eq, Structural)]
pub enum ParquetCatalogs {
    GaiaPS1Xmatch,
    CatWISE2020,
    AllWISE,
    LsDr10photoz,
}

/// The catalogs read from fixed-layout text tables.
#[derive(Clone, Copy, Debug, PartialEq, Eq, Structural)]
pub enum AsciiCatalogs {
    VSX,
    TwoMass,
}

} // verus!
