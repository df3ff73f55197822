use vstd::prelude::*;

use crate::models::{LogbookExt, LogbookExtV};
use crate::store::{bound_ok, bound_ts, export_filter, export_join, ext_views, sort_entries, Store, StoreV};
use crate::timestamp::digit;
use crate::LogbookError;

verus! {

/// One interchange-format field: a tag name and its text value.
pub struct AdifField {
    pub name: String,
    pub value: String,
}

impl View for AdifField {
    type V = (Seq<char>, Seq<char>);

    open spec fn view(&self) -> (Seq<char>, Seq<char>) {
        (self.name@, self.value@)
    }
}

/// Mathematical models of a sequence of fields.
pub open spec fn field_views(s: Seq<AdifField>) -> Seq<(Seq<char>, Seq<char>)> {
    s.map_values(|f: AdifField| f@)
}

/// The mode split rule: `USB` and `LSB` are sidebands of `SSB`, so they are
/// emitted as `MODE=SSB` with the original value as `SUBMODE`; any other
/// mode is emitted unchanged and alone.
pub open spec fn mode_fields_spec(mode: Seq<char>) -> Seq<(Seq<char>, Seq<char>)> {
    if mode == "USB"@ || mode == "LSB"@ {
        seq![("MODE"@, "SSB"@), ("SUBMODE"@, mode)]
    } else {
        seq![("MODE"@, mode)]
    }
}

/// The fields one enriched entry is exported as, in their fixed order.
pub open spec fn record_fields_spec(e: LogbookExtV) -> Seq<(Seq<char>, Seq<char>)> {
    seq![
        ("CALL"@, e.call),
        ("QSO_DATE"@, e.timestamp.date_digits_spec()),
        ("TIME_ON"@, e.timestamp.time_digits_spec()),
        ("FREQ"@, e.frequency),
        ("BAND"@, e.band),
        ("FREQ_RX"@, e.frequency),
        ("BAND_RX"@, e.band),
        ("COMMENT"@, e.comments),
    ] + mode_fields_spec(e.mode) + seq![
        ("MY_GRIDSQUARE"@, e.operator.grid),
        ("STATION_CALLSIGN"@, e.operator.call),
        ("CQZ"@, e.operator.cqz),
        ("ITUZ"@, e.operator.ituz),
        ("DXCC"@, e.operator.dxcc),
        ("CONT"@, e.operator.cont),
        ("OPERATOR"@, e.operator.call),
        ("RST_SENT"@, e.rsttx),
        ("RST_RCVD"@, e.rstrx),
        ("TX_PWR"@, e.power),
    ]
}

/// The fixed file-level header fields: the program version and name.
pub open spec fn header_fields_spec() -> Seq<(Seq<char>, Seq<char>)> {
    seq![("PROGRAMVERSION"@, "1.0.0"@), ("PROGRAMID"@, "TUILOG"@)]
}

/// Whether two pieces of text are the same, decided executably.
pub fn str_eq(a: &str, b: &str) -> (r: bool)
    ensures
        r == (a@ == b@),
{
    let n = a.unicode_len();
    if n != b.unicode_len() {
        return false;
    }
    for i in 0..n
        invariant
            n == a@.len(),
            n == b@.len(),
            forall|j: int| 0 <= j < i ==> a@[j] == b@[j],
    {
        if a.get_char(i) != b.get_char(i) {
            return false;
        }
    }
    proof {
        assert(a@ =~= b@);
    }
    true
}

/// Make one field from a tag name and an owned value.
fn field(name: &str, value: String) -> (r: AdifField)
    ensures
        r@ == (name@, value@),
{
    AdifField { name: name.to_owned(), value }
}

impl LogbookExt {
    /// Derive the export fields of this enriched entry, in their fixed
    /// order: the contact, its moment, the paired TX/RX frequency and band,
    /// the split mode, the station identity, and the signal reports.
    pub fn record_fields(&self) -> (r: Vec<AdifField>)
        requires
            self.timestamp.valid(),
        ensures
            field_views(r@) == record_fields_spec(self@),
    {
        let mut out: Vec<AdifField> = Vec::new();
        out.push(field("CALL", self.call.clone()));
        out.push(field("QSO_DATE", self.timestamp.date_digits()));
        out.push(field("TIME_ON", self.timestamp.time_digits()));
        out.push(field("FREQ", self.frequency.clone()));
        out.push(field("BAND", self.band.clone()));
        out.push(field("FREQ_RX", self.frequency.clone()));
        out.push(field("BAND_RX", self.band.clone()));
        out.push(field("COMMENT", self.comments.clone()));
        if str_eq(self.mode.as_str(), "USB") || str_eq(self.mode.as_str(), "LSB") {
            out.push(field("MODE", String::from_str("SSB")));
            out.push(field("SUBMODE", self.mode.clone()));
        } else {
            out.push(field("MODE", self.mode.clone()));
        }
        out.push(field("MY_GRIDSQUARE", self.operator.grid.clone()));
        out.push(field("STATION_CALLSIGN", self.operator.call.clone()));
        out.push(field("CQZ", self.operator.cqz.clone()));
        out.push(field("ITUZ", self.operator.ituz.clone()));
        out.push(field("DXCC", self.operator.dxcc.clone()));
        out.push(field("CONT", self.operator.cont.clone()));
        out.push(field("OPERATOR", self.operator.call.clone()));
        out.push(field("RST_SENT", self.rsttx.clone()));
        out.push(field("RST_RCVD", self.rstrx.clone()));
        out.push(field("TX_PWR", self.power.clone()));
        proof {
            assert(field_views(out@) =~= record_fields_spec(self@));
        }
        out
    }
}

/// The fixed header fields as built values.
pub fn header_fields() -> (r: Vec<AdifField>)
    ensures
        field_views(r@) == header_fields_spec(),
{
    let mut out: Vec<AdifField> = Vec::new();
    out.push(field("PROGRAMVERSION", String::from_str("1.0.0")));
    out.push(field("PROGRAMID", String::from_str("TUILOG")));
    proof {
        assert(field_views(out@) =~= header_fields_spec());
    }
    out
}

/// The mode round trip: a `USB` or `LSB` entry is exported as `MODE=SSB`
/// with its own value as `SUBMODE`; any other mode value is exported as
/// `MODE` alone, and no `SUBMODE` field appears at all.
pub proof fn lemma_mode_round_trip(e: LogbookExtV)
    ensures
        e.mode == "USB"@ || e.mode == "LSB"@ ==> record_fields_spec(e).contains(
            ("MODE"@, "SSB"@),
        ) && record_fields_spec(e).contains(("SUBMODE"@, e.mode)),
        !(e.mode == "USB"@ || e.mode == "LSB"@) ==> record_fields_spec(e).contains(
            ("MODE"@, e.mode),
        ) && forall|i: int|
            0 <= i < record_fields_spec(e).len() ==> (#[trigger] record_fields_spec(e)[i]).0
                != "SUBMODE"@,
{
    let fs = record_fields_spec(e);
    if e.mode == "USB"@ || e.mode == "LSB"@ {
        assert(fs[8] == ("MODE"@, "SSB"@));
        assert(fs[9] == ("SUBMODE"@, e.mode));
    } else {
        assert(fs[8] == ("MODE"@, e.mode));
        reveal_strlit("SUBMODE");
        reveal_strlit("CALL");
        reveal_strlit("QSO_DATE");
        reveal_strlit("TIME_ON");
        reveal_strlit("FREQ");
        reveal_strlit("BAND");
        reveal_strlit("FREQ_RX");
        reveal_strlit("BAND_RX");
        reveal_strlit("COMMENT");
        reveal_strlit("MODE");
        reveal_strlit("MY_GRIDSQUARE");
        reveal_strlit("STATION_CALLSIGN");
        reveal_strlit("CQZ");
        reveal_strlit("ITUZ");
        reveal_strlit("DXCC");
        reveal_strlit("CONT");
        reveal_strlit("OPERATOR");
        reveal_strlit("RST_SENT");
        reveal_strlit("RST_RCVD");
        reveal_strlit("TX_PWR");
        assert(fs =~= seq![
            ("CALL"@, e.call),
            ("QSO_DATE"@, e.timestamp.date_digits_spec()),
            ("TIME_ON"@, e.timestamp.time_digits_spec()),
            ("FREQ"@, e.frequency),
            ("BAND"@, e.band),
            ("FREQ_RX"@, e.frequency),
            ("BAND_RX"@, e.band),
            ("COMMENT"@, e.comments),
            ("MODE"@, e.mode),
            ("MY_GRIDSQUARE"@, e.operator.grid),
            ("STATION_CALLSIGN"@, e.operator.call),
            ("CQZ"@, e.operator.cqz),
            ("ITUZ"@, e.operator.ituz),
            ("DXCC"@, e.operator.dxcc),
            ("CONT"@, e.operator.cont),
            ("OPERATOR"@, e.operator.call),
            ("RST_SENT"@, e.rsttx),
            ("RST_RCVD"@, e.rstrx),
            ("TX_PWR"@, e.power),
        ]);
        assert forall|i: int| 0 <= i < fs.len() implies (#[trigger] fs[i]).0 != "SUBMODE"@ by {
            assert("CALL"@.len() == 4 && "SUBMODE"@.len() == 7);
            assert("TIME_ON"@[0] == 'T' && "FREQ_RX"@[0] == 'F' && "BAND_RX"@[0] == 'B'
                && "COMMENT"@[0] == 'C' && "SUBMODE"@[0] == 'S');
        };
    }
}

/// The receive-side duplication: every exported record carries `FREQ_RX`
/// equal to `FREQ` and `BAND_RX` equal to `BAND`.
pub proof fn lemma_rx_duplication(e: LogbookExtV)
    ensures
        record_fields_spec(e)[3].0 == "FREQ"@,
        record_fields_spec(e)[5].0 == "FREQ_RX"@,
        record_fields_spec(e)[5].1 == record_fields_spec(e)[3].1,
        record_fields_spec(e)[4].0 == "BAND"@,
        record_fields_spec(e)[6].0 == "BAND_RX"@,
        record_fields_spec(e)[6].1 == record_fields_spec(e)[4].1,
{
}

/// A value the interchange format can carry verbatim: ASCII and free of
/// line breaks.
pub open spec fn clean_value(v: Seq<char>) -> bool {
    forall|i: int| 0 <= i < v.len() ==> (#[trigger] v[i]) != '\n' && (v[i] as u32) < 128
}

/// A tag name the format emits unchanged: capitals, digits and underscores.
pub open spec fn tag_name_ok(n: Seq<char>) -> bool {
    forall|i: int|
        0 <= i < n.len() ==> 65 <= ((#[trigger] n[i]) as u32) <= 90 || 48 <= (n[i] as u32) <= 57 || (
        n[i] as u32) == 95
}

/// Every value of a field sequence is clean.
pub open spec fn fields_clean(fs: Seq<(Seq<char>, Seq<char>)>) -> bool {
    forall|i: int| 0 <= i < fs.len() ==> clean_value((#[trigger] fs[i]).1)
}

/// Every name of a field sequence is a plain tag, and no two are the same.
pub open spec fn fields_named_ok(fs: Seq<(Seq<char>, Seq<char>)>) -> bool {
    &&& forall|i: int| 0 <= i < fs.len() ==> tag_name_ok((#[trigger] fs[i]).0)
    &&& forall|i: int, j: int|
        0 <= i < j < fs.len() ==> (#[trigger] fs[i]).0 != (#[trigger] fs[j]).0
}

/// Every value of every record is clean.
pub open spec fn records_clean(rs: Seq<Seq<(Seq<char>, Seq<char>)>>) -> bool {
    forall|k: int| 0 <= k < rs.len() ==> fields_clean(#[trigger] rs[k])
}

/// The plain decimal digits of a non-negative number.
pub open spec fn dec_digits(n: int) -> Seq<char>
    decreases n,
{
    if n < 10 {
        seq![digit(n)]
    } else {
        dec_digits(n / 10).push(digit(n % 10))
    }
}

/// One emitted field: the tag, the value's length, then the value.
pub open spec fn field_text(f: (Seq<char>, Seq<char>)) -> Seq<char> {
    seq!['<'] + f.0 + seq![':'] + dec_digits(f.1.len() as int) + seq!['>'] + f.1
}

/// The fields of one record, emitted back to back.
pub open spec fn fields_text(fs: Seq<(Seq<char>, Seq<char>)>) -> Seq<char>
    decreases fs.len(),
{
    if fs.len() == 0 {
        Seq::empty()
    } else {
        field_text(fs[0]) + fields_text(fs.drop_first())
    }
}

/// One emitted record: its fields and the end-of-record mark.
pub open spec fn record_text(fs: Seq<(Seq<char>, Seq<char>)>) -> Seq<char> {
    fields_text(fs) + "<eor>"@
}

/// All records, one per line.
pub open spec fn records_joined(rs: Seq<Seq<(Seq<char>, Seq<char>)>>) -> Seq<char>
    decreases rs.len(),
{
    if rs.len() == 0 {
        Seq::empty()
    } else if rs.len() == 1 {
        record_text(rs[0])
    } else {
        record_text(rs[0]) + "\n"@ + records_joined(rs.drop_first())
    }
}

/// The header fields, one per line.
pub open spec fn header_lines(fs: Seq<(Seq<char>, Seq<char>)>) -> Seq<char>
    decreases fs.len(),
{
    if fs.len() == 0 {
        Seq::empty()
    } else if fs.len() == 1 {
        field_text(fs[0])
    } else {
        field_text(fs[0]) + "\n"@ + header_lines(fs.drop_first())
    }
}

/// The emitted header: a generation line whose timestamp only the wall
/// clock knows, the header fields, and the end-of-header mark.
pub open spec fn header_text(gen: Seq<char>, fs: Seq<(Seq<char>, Seq<char>)>) -> Seq<char> {
    "Generated "@ + gen + " (UTC)\n\n"@ + header_lines(fs) + "\n<EOH>"@
}

/// The whole emitted artifact: header, then every record on its own line.
pub open spec fn file_text(
    gen: Seq<char>,
    header: Seq<(Seq<char>, Seq<char>)>,
    records: Seq<Seq<(Seq<char>, Seq<char>)>>,
) -> Seq<char> {
    header_text(gen, header) + "\n"@ + records_joined(records)
}

/// Mathematical models of a sequence of built records.
pub open spec fn built_record_views(s: Seq<Vec<AdifField>>) -> Seq<Seq<(Seq<char>, Seq<char>)>> {
    s.map_values(|v: Vec<AdifField>| field_views(v@))
}

/// Relies on the adif crate's `AdifFile::serialize`, over an `AdifHeader`
/// and `AdifRecord`s built from string fields: each field is emitted as
/// `<NAME:length>value` in insertion order, each record ends with `<eor>`
/// on its own line, the header opens with a generation line holding the
/// wall-clock time and closes with `<EOH>`, and serialization fails exactly
/// on a value with a line break or a non-ASCII character. Names of the kind
/// `tag_name_ok` admits pass through its case folding unchanged, and
/// distinct names keep their entries apart in the maps it builds from.
#[verifier::external_body]
fn serialize_adif(header: &Vec<AdifField>, records: &Vec<Vec<AdifField>>) -> (r: Option<String>)
    requires
        fields_named_ok(field_views(header@)),
        forall|k: int|
            0 <= k < built_record_views(records@).len() ==> fields_named_ok(
                #[trigger] built_record_views(records@)[k],
            ),
    ensures
        r is Some <==> (fields_clean(field_views(header@)) && records_clean(
            built_record_views(records@),
        )),
        r matches Some(s) ==> exists|gen: Seq<char>|
            s@ == file_text(gen, field_views(header@), #[trigger] built_record_views(records@)),
{
    let h: indexmap::IndexMap<String, adif::AdifType> = header.iter().map(
        |f| (f.name.clone(), adif::AdifType::Str(f.value.clone())),
    ).collect();
    let body: Vec<adif::AdifRecord> = records.iter().map(
        |rec|
            rec.iter().map(|f| (f.name.clone(), adif::AdifType::Str(f.value.clone()))).collect::<
                indexmap::IndexMap<String, adif::AdifType>,
            >().into(),
    ).collect();
    let file = adif::AdifFile { header: h.into(), body };
    file.serialize().ok()
}

/// The header field names are plain distinct tags and their values clean.
proof fn lemma_header_fields_wf()
    ensures
        fields_named_ok(header_fields_spec()),
        fields_clean(header_fields_spec()),
{
    reveal_strlit("PROGRAMVERSION");
    reveal_strlit("PROGRAMID");
    reveal_strlit("1.0.0");
    reveal_strlit("TUILOG");
    let fs = header_fields_spec();
    assert(tag_name_ok(fs[0].0));
    assert(tag_name_ok(fs[1].0));
    assert(fs[0].0.len() != fs[1].0.len());
    assert(clean_value(fs[0].1));
    assert(clean_value(fs[1].1));
}

/// The names a record is exported under are plain distinct tags, whatever
/// the entry holds.
#[verifier::rlimit(100)]
proof fn lemma_record_fields_names(e: LogbookExtV)
    ensures
        fields_named_ok(record_fields_spec(e)),
{
    reveal_strlit("CALL");
    reveal_strlit("QSO_DATE");
    reveal_strlit("TIME_ON");
    reveal_strlit("FREQ");
    reveal_strlit("BAND");
    reveal_strlit("FREQ_RX");
    reveal_strlit("BAND_RX");
    reveal_strlit("COMMENT");
    reveal_strlit("MODE");
    reveal_strlit("SUBMODE");
    reveal_strlit("MY_GRIDSQUARE");
    reveal_strlit("STATION_CALLSIGN");
    reveal_strlit("CQZ");
    reveal_strlit("ITUZ");
    reveal_strlit("DXCC");
    reveal_strlit("CONT");
    reveal_strlit("OPERATOR");
    reveal_strlit("RST_SENT");
    reveal_strlit("RST_RCVD");
    reveal_strlit("TX_PWR");
    let fs = record_fields_spec(e);
    let head = seq![
        ("CALL"@, e.call),
        ("QSO_DATE"@, e.timestamp.date_digits_spec()),
        ("TIME_ON"@, e.timestamp.time_digits_spec()),
        ("FREQ"@, e.frequency),
        ("BAND"@, e.band),
        ("FREQ_RX"@, e.frequency),
        ("BAND_RX"@, e.band),
        ("COMMENT"@, e.comments),
    ];
    let tail = seq![
        ("MY_GRIDSQUARE"@, e.operator.grid),
        ("STATION_CALLSIGN"@, e.operator.call),
        ("CQZ"@, e.operator.cqz),
        ("ITUZ"@, e.operator.ituz),
        ("DXCC"@, e.operator.dxcc),
        ("CONT"@, e.operator.cont),
        ("OPERATOR"@, e.operator.call),
        ("RST_SENT"@, e.rsttx),
        ("RST_RCVD"@, e.rstrx),
        ("TX_PWR"@, e.power),
    ];
    assert("CALL"@.len() == 4 && "CALL"@[0] == 'C' && "CALL"@[1] == 'A');
    assert("QSO_DATE"@.len() == 8 && "QSO_DATE"@[0] == 'Q');
    assert("TIME_ON"@.len() == 7 && "TIME_ON"@[0] == 'T');
    assert("FREQ"@.len() == 4 && "FREQ"@[0] == 'F');
    assert("BAND"@.len() == 4 && "BAND"@[0] == 'B');
    assert("FREQ_RX"@.len() == 7 && "FREQ_RX"@[0] == 'F');
    assert("BAND_RX"@.len() == 7 && "BAND_RX"@[0] == 'B');
    assert("COMMENT"@.len() == 7 && "COMMENT"@[0] == 'C');
    assert("MODE"@.len() == 4 && "MODE"@[0] == 'M');
    assert("SUBMODE"@.len() == 7 && "SUBMODE"@[0] == 'S');
    assert("MY_GRIDSQUARE"@.len() == 13 && "MY_GRIDSQUARE"@[0] == 'M');
    assert("STATION_CALLSIGN"@.len() == 16 && "STATION_CALLSIGN"@[0] == 'S');
    assert("CQZ"@.len() == 3 && "CQZ"@[0] == 'C');
    assert("ITUZ"@.len() == 4 && "ITUZ"@[0] == 'I');
    assert("DXCC"@.len() == 4 && "DXCC"@[0] == 'D');
    assert("CONT"@.len() == 4 && "CONT"@[0] == 'C' && "CONT"@[1] == 'O');
    assert("OPERATOR"@.len() == 8 && "OPERATOR"@[0] == 'O');
    assert("RST_SENT"@.len() == 8 && "RST_SENT"@[0] == 'R' && "RST_SENT"@[4] == 'S');
    assert("RST_RCVD"@.len() == 8 && "RST_RCVD"@[0] == 'R' && "RST_RCVD"@[4] == 'R');
    assert("TX_PWR"@.len() == 6 && "TX_PWR"@[0] == 'T');
    if e.mode == "USB"@ || e.mode == "LSB"@ {
        assert(fs =~= head + seq![("MODE"@, "SSB"@), ("SUBMODE"@, e.mode)] + tail);
    } else {
        assert(fs =~= head + seq![("MODE"@, e.mode)] + tail);
    }
    assert forall|i: int| 0 <= i < fs.len() implies tag_name_ok((#[trigger] fs[i]).0) by {
        assert(tag_name_ok("CALL"@));
        assert(tag_name_ok("QSO_DATE"@));
        assert(tag_name_ok("TIME_ON"@));
        assert(tag_name_ok("FREQ"@));
        assert(tag_name_ok("BAND"@));
        assert(tag_name_ok("FREQ_RX"@));
        assert(tag_name_ok("BAND_RX"@));
        assert(tag_name_ok("COMMENT"@));
        assert(tag_name_ok("MODE"@));
        assert(tag_name_ok("SUBMODE"@));
        assert(tag_name_ok("MY_GRIDSQUARE"@));
        assert(tag_name_ok("STATION_CALLSIGN"@));
        assert(tag_name_ok("CQZ"@));
        assert(tag_name_ok("ITUZ"@));
        assert(tag_name_ok("DXCC"@));
        assert(tag_name_ok("CONT"@));
        assert(tag_name_ok("OPERATOR"@));
        assert(tag_name_ok("RST_SENT"@));
        assert(tag_name_ok("RST_RCVD"@));
        assert(tag_name_ok("TX_PWR"@));
    };
    assert forall|i: int, j: int| 0 <= i < j < fs.len() implies (#[trigger] fs[i]).0 != (
    #[trigger] fs[j]).0 by {};
}

/// The record sequence the export emits for a store and a pair of bounds.
pub open spec fn exported_records(st: StoreV, start: Option<&str>, end: Option<&str>) -> Seq<
    Seq<(Seq<char>, Seq<char>)>,
> {
    sort_entries(st.logs).filter(export_filter(st.profiles, bound_ts(start), bound_ts(end)))
        .map_values(export_join(st.profiles)).map_values(
        |x: LogbookExtV| record_fields_spec(x),
    )
}

impl Store {
    /// The full export artifact: the fixed header and every entry within the
    /// bounds whose profile still exists, in listing order. A malformed
    /// bound fails with `InvalidTimestamp` before anything is read; a stored
    /// text the format cannot carry fails with `NotSerializable`.
    pub fn export_text(&self, start: Option<&str>, end: Option<&str>) -> (r: Result<
        String,
        LogbookError,
    >)
        requires
            self.wf(),
        ensures
            r == Err::<String, LogbookError>(LogbookError::InvalidTimestamp) <==> !(bound_ok(start)
                && bound_ok(end)),
            bound_ok(start) && bound_ok(end) ==> (r is Ok <==> records_clean(
                exported_records(self@, start, end),
            )),
            r is Err ==> r == Err::<String, LogbookError>(LogbookError::InvalidTimestamp) || r
                == Err::<String, LogbookError>(LogbookError::NotSerializable),
            r matches Ok(s) ==> exists|gen: Seq<char>|
                s@ == file_text(gen, header_fields_spec(), exported_records(self@, start, end)),
    {
        let rows = match self.export_range(start, end) {
            Ok(v) => v,
            Err(e) => {
                return Err(e);
            },
        };
        let ghost target = exported_records(self@, start, end);
        let mut records: Vec<Vec<AdifField>> = Vec::new();
        proof {
            assert(ext_views(rows@).map_values(
                |x: LogbookExtV| record_fields_spec(x),
            ) =~= target);
            assert(built_record_views(records@) =~= target.subrange(0, 0));
        }
        let n = rows.len();
        for i in 0..n
            invariant
                n == rows@.len(),
                target.len() == n,
                ext_views(rows@).map_values(|x: LogbookExtV| record_fields_spec(x))
                    == target,
                forall|j: int| 0 <= j < rows@.len() ==> (#[trigger] rows@[j])@.timestamp.valid(),
                records@.len() == i,
                built_record_views(records@) == target.subrange(0, i as int),
        {
            let rec = rows[i].record_fields();
            proof {
                assert(ext_views(rows@)[i as int] == rows@[i as int]@);
                assert(field_views(rec@) == target[i as int]);
                let stepped = records@.push(rec);
                assert forall|j: int| 0 <= j < stepped.len() implies built_record_views(stepped)[j]
                    == target.subrange(0, i + 1)[j] by {
                    if j < i {
                        assert(built_record_views(records@)[j] == target.subrange(0, i as int)[j]);
                    } else {
                        assert(stepped[j] == rec);
                    }
                };
                assert(built_record_views(stepped) =~= target.subrange(0, i + 1));
            }
            records.push(rec);
        }
        proof {
            assert(target.subrange(0, target.len() as int) =~= target);
        }
        let header = header_fields();
        proof {
            lemma_header_fields_wf();
            let joined = sort_entries(self@.logs).filter(
                export_filter(self@.profiles, bound_ts(start), bound_ts(end)),
            ).map_values(export_join(self@.profiles));
            assert forall|k: int| 0 <= k < built_record_views(records@).len() implies
                fields_named_ok(#[trigger] built_record_views(records@)[k]) by {
                lemma_record_fields_names(joined[k]);
                assert(built_record_views(records@)[k] == record_fields_spec(joined[k]));
            };
        }
        match serialize_adif(&header, &records) {
            Some(s) => Ok(s),
            None => Err(LogbookError::NotSerializable),
        }
    }
}

} // verus!
