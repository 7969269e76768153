//! Content negotiation and response body encoding: Accept and Prefer
//! parsing, JSON row arrays, and CSV via the `csv` crate.

use vstd::prelude::*;
use crate::error::Error;
use crate::jsonval::{JsonVal, JsonV, json_view, jsons_view, obj_view, json_to_string, obj_get, spec_json_str, spec_obj_get, spec_json_items, lemma_jsons_view_index};
use crate::query::{join_strings, spec_join, strs_view};
use crate::text;

verus! {

/// The negotiated response representation.
#[derive(Debug, Clone, Copy, PartialEq, Eq, Structural)]
pub enum ResponseFormat {
    Json,
    SingleObjectJson,
    Csv,
    ArrowIpcStream,
    ArrowJson,
}

/// Model of `parse_accept`: substring matching, in fixed priority.
pub open spec fn spec_parse_accept(accept: Option<Seq<char>>) -> ResponseFormat {
    match accept {
        None => ResponseFormat::Json,
        Some(a) => {
            if text::contains_seq(a, "application/vnd.pgrst.object+json"@) {
                ResponseFormat::SingleObjectJson
            } else if text::contains_seq(a, "text/csv"@) {
                ResponseFormat::Csv
            } else if text::contains_seq(a, "application/vnd.apache.arrow.stream"@) {
                ResponseFormat::ArrowIpcStream
            } else if text::contains_seq(a, "application/vnd.apache.arrow+json"@) {
                ResponseFormat::ArrowJson
            } else {
                ResponseFormat::Json
            }
        },
    }
}

/// Chooses the response representation from the Accept header.
pub fn parse_accept(accept: Option<&str>) -> (r: ResponseFormat)
    ensures
        r == spec_parse_accept(match accept {
            Some(a) => Some(a@),
            None => None,
        }),
{
    let a = match accept {
        Some(a) => a,
        None => {
            return ResponseFormat::Json;
        },
    };
    if text::contains_str(a, "application/vnd.pgrst.object+json") {
        ResponseFormat::SingleObjectJson
    } else if text::contains_str(a, "text/csv") {
        ResponseFormat::Csv
    } else if text::contains_str(a, "application/vnd.apache.arrow.stream") {
        ResponseFormat::ArrowIpcStream
    } else if text::contains_str(a, "application/vnd.apache.arrow+json") {
        ResponseFormat::ArrowJson
    } else {
        ResponseFormat::Json
    }
}

/// What the response body carries after a mutation.
#[derive(Debug, Clone, Copy, PartialEq, Eq, Structural)]
pub enum ReturnMode {
    Representation,
    HeadersOnly,
    Minimal,
}

/// Whether the surrounding transaction commits or rolls back.
#[derive(Debug, Clone, Copy, PartialEq, Eq, Structural)]
pub enum TxPreference {
    Commit,
    Rollback,
}

/// The preferences a request states through its Prefer header.
#[derive(Debug, Clone)]
pub struct Preferences {
    pub return_mode: ReturnMode,
    pub count: bool,
    pub resolution: Option<String>,
    pub tx: TxPreference,
}

/// Mathematical model of the preferences.
pub struct PrefV {
    pub return_mode: ReturnMode,
    pub count: bool,
    pub resolution: Option<Seq<char>>,
    pub tx: TxPreference,
}

impl View for Preferences {
    type V = PrefV;

    open spec fn view(&self) -> PrefV {
        PrefV {
            return_mode: self.return_mode,
            count: self.count,
            resolution: match self.resolution {
                Some(ref s) => Some(s@),
                None => None,
            },
            tx: self.tx,
        }
    }
}

/// The default preferences: full representation, no count, commit.
pub open spec fn default_prefs() -> PrefV {
    PrefV {
        return_mode: ReturnMode::Representation,
        count: false,
        resolution: None,
        tx: TxPreference::Commit,
    }
}

/// One trimmed Prefer directive applied to the preferences; unknown
/// directives change nothing.
pub open spec fn apply_prefer(p: PrefV, t: Seq<char>) -> PrefV {
    if t == "return=representation"@ {
        PrefV { return_mode: ReturnMode::Representation, ..p }
    } else if t == "return=headers-only"@ {
        PrefV { return_mode: ReturnMode::HeadersOnly, ..p }
    } else if t == "return=minimal"@ {
        PrefV { return_mode: ReturnMode::Minimal, ..p }
    } else if t == "count=exact"@ {
        PrefV { count: true, ..p }
    } else if t == "resolution=merge-duplicates"@ {
        PrefV { resolution: Some("merge-duplicates"@), ..p }
    } else if t == "tx=rollback"@ {
        PrefV { tx: TxPreference::Rollback, ..p }
    } else if t == "tx=commit"@ {
        PrefV { tx: TxPreference::Commit, ..p }
    } else {
        p
    }
}

/// The comma-separated directives applied left to right.
pub open spec fn fold_prefer(p: PrefV, parts: Seq<Seq<char>>) -> PrefV
    decreases parts.len(),
{
    if parts.len() == 0 {
        p
    } else {
        fold_prefer(apply_prefer(p, text::spec_trim(parts[0])), parts.subrange(1, parts.len() as int))
    }
}

/// Model of `parse_prefer`.
pub open spec fn spec_parse_prefer(prefer: Option<Seq<char>>) -> PrefV {
    match prefer {
        None => default_prefs(),
        Some(s) => fold_prefer(default_prefs(), text::spec_split(s, ',')),
    }
}

/// Parses the Prefer header into the request's preferences.
pub fn parse_prefer(prefer: Option<&str>) -> (r: Preferences)
    ensures
        r@ == spec_parse_prefer(match prefer {
            Some(p) => Some(p@),
            None => None,
        }),
{
    let mut prefs = Preferences {
        return_mode: ReturnMode::Representation,
        count: false,
        resolution: None,
        tx: TxPreference::Commit,
    };
    let p = match prefer {
        Some(p) => p,
        None => {
            return prefs;
        },
    };
    let parts = text::split_char(p, ',');
    let ghost pieces = text::spec_split(p@, ',');
    let mut i: usize = 0;
    proof {
        assert(pieces.subrange(0, pieces.len() as int) =~= pieces);
    }
    while i < parts.len()
        invariant
            parts@.map_values(|x: String| x@) == pieces,
            i <= parts.len(),
            spec_parse_prefer(Some(p@)) == fold_prefer(
                prefs@,
                pieces.subrange(i as int, pieces.len() as int),
            ),
        decreases parts.len() - i,
    {
        let ghost rest = pieces.subrange(i as int, pieces.len() as int);
        proof {
            assert(rest[0] == pieces[i as int]);
            assert(pieces[i as int] == parts@.map_values(|x: String| x@)[i as int]);
            assert(rest.subrange(1, rest.len() as int) =~= pieces.subrange(
                i + 1,
                pieces.len() as int,
            ));
        }
        let part = text::trim(parts[i].as_str());
        let t = part.as_str();
        if text::str_eq(t, "return=representation") {
            prefs.return_mode = ReturnMode::Representation;
        } else if text::str_eq(t, "return=headers-only") {
            prefs.return_mode = ReturnMode::HeadersOnly;
        } else if text::str_eq(t, "return=minimal") {
            prefs.return_mode = ReturnMode::Minimal;
        } else if text::str_eq(t, "count=exact") {
            prefs.count = true;
        } else if text::str_eq(t, "resolution=merge-duplicates") {
            prefs.resolution = Some("merge-duplicates".to_owned());
        } else if text::str_eq(t, "tx=rollback") {
            prefs.tx = TxPreference::Rollback;
        } else if text::str_eq(t, "tx=commit") {
            prefs.tx = TxPreference::Commit;
        }
        i += 1;
    }
    proof {
        assert(pieces.subrange(i as int, pieces.len() as int) =~= Seq::<Seq<char>>::empty());
    }
    prefs
}

/// Serializes rows as a JSON array.
pub fn rows_to_json(rows: &Vec<JsonVal>) -> (r: String)
    ensures
        r@ == spec_json_str(JsonV::ArrV(jsons_view(rows@))),
{
    let ghost iv = jsons_view(rows@);
    let mut parts: Vec<String> = Vec::new();
    let mut i: usize = 0;
    proof {
        lemma_jsons_view_index(rows@);
        assert(iv.subrange(0, iv.len() as int) =~= iv);
        assert(strs_view(parts@) + spec_json_items(iv.subrange(0, iv.len() as int))
            =~= spec_json_items(iv));
    }
    while i < rows.len()
        invariant
            iv == jsons_view(rows@),
            iv.len() == rows@.len(),
            forall|k: int| 0 <= k < iv.len() ==> iv[k] == json_view(rows@[k]),
            i <= rows@.len(),
            spec_json_items(iv) == strs_view(parts@) + spec_json_items(
                iv.subrange(i as int, iv.len() as int),
            ),
        decreases rows@.len() - i,
    {
        let ghost rest = iv.subrange(i as int, iv.len() as int);
        proof {
            assert(rest[0] == iv[i as int]);
            assert(rest.subrange(1, rest.len() as int) =~= iv.subrange(i + 1, iv.len() as int));
        }
        let piece = json_to_string(&rows[i]);
        let ghost prev = parts@;
        let ghost pv = piece@;
        parts.push(piece);
        proof {
            assert(strs_view(parts@) =~= strs_view(prev).push(pv));
            assert((strs_view(prev) + seq![pv]) + spec_json_items(
                iv.subrange(i + 1, iv.len() as int),
            ) =~= strs_view(prev) + (seq![pv] + spec_json_items(
                iv.subrange(i + 1, iv.len() as int),
            )));
        }
        i += 1;
    }
    proof {
        assert(iv.subrange(i as int, iv.len() as int) =~= Seq::<JsonV>::empty());
        assert(strs_view(parts@) + Seq::<Seq<char>>::empty() =~= strs_view(parts@));
    }
    let joined = join_strings(&parts, ",");
    let mut out = String::new();
    out.append("[");
    out.append(joined.as_str());
    out.append("]");
    proof {
        assert(out@ =~= spec_json_str(JsonV::ArrV(iv)));
    }
    out
}

/// The encoding `csv::Writer` gives a record matrix: a function of the
/// records alone.
pub uninterp spec fn csv_encoding(records: Seq<Seq<Seq<char>>>) -> Seq<char>;

/// The views of a record matrix.
pub open spec fn records_view(records: Seq<Vec<String>>) -> Seq<Seq<Seq<char>>> {
    records.map_values(|r: Vec<String>| strs_view(r@))
}

/// Relies on csv::Writer (write_record, into_inner): encodes the
/// records, quoting fields as standard CSV demands; equal-length
/// records over an in-memory sink cannot fail.
#[verifier::external_body]
fn encode_csv(records: &Vec<Vec<String>>) -> (r: String)
    requires
        forall|i: int|
            0 <= i < records@.len() ==> (#[trigger] records@[i])@.len() == records@[0]@.len(),
        records@.len() > 0,
    ensures
        r@ == csv_encoding(records_view(records@)),
{
    let mut writer = csv::Writer::from_writer(Vec::new());
    for rec in records.iter() {
        writer.write_record(rec).expect("equal-length records cannot fail");
    }
    let data = writer.into_inner().expect("an in-memory sink cannot fail");
    String::from_utf8(data).expect("encoded strings are valid text")
}

/// The cell a JSON value contributes to a CSV row: nothing for null or
/// a missing key, the raw text of a string, the compact JSON form of
/// anything else.
pub open spec fn spec_csv_cell(v: Option<JsonV>) -> Seq<char> {
    match v {
        None => Seq::empty(),
        Some(JsonV::NullV) => Seq::empty(),
        Some(JsonV::StrV(s)) => s,
        Some(other) => spec_json_str(other),
    }
}

/// The record matrix of a CSV body: the column names, then one record
/// per row with the cells in column order.
pub open spec fn spec_csv_records(
    rows: Seq<Seq<(Seq<char>, JsonV)>>,
    columns: Seq<Seq<char>>,
) -> Seq<Seq<Seq<char>>> {
    seq![columns] + Seq::new(
        rows.len(),
        |i: int| Seq::new(columns.len(), |j: int| spec_csv_cell(spec_obj_get(rows[i], columns[j]))),
    )
}

/// The models of the rows.
pub open spec fn rows_view(rows: Seq<Vec<(String, JsonVal)>>) -> Seq<Seq<(Seq<char>, JsonV)>> {
    rows.map_values(|r: Vec<(String, JsonVal)>| obj_view(r@))
}

/// Encodes rows as CSV under the given header columns: null and
/// missing values become empty cells, strings stay raw, anything else
/// is emitted in its JSON form.
pub fn rows_to_csv(rows: &Vec<Vec<(String, JsonVal)>>, columns: &Vec<String>) -> (r: Result<
    String,
    Error,
>)
    ensures
        r matches Ok(s) && s@ == csv_encoding(
            spec_csv_records(rows_view(rows@), strs_view(columns@)),
        ),
{
    let ghost rv = rows_view(rows@);
    let ghost cv = strs_view(columns@);
    let mut records: Vec<Vec<String>> = Vec::new();
    let mut header: Vec<String> = Vec::new();
    let mut h: usize = 0;
    while h < columns.len()
        invariant
            h <= columns@.len(),
            header@.len() == h,
            forall|j: int| 0 <= j < h ==> header@[j]@ == columns@[j]@,
        decreases columns.len() - h,
    {
        header.push(columns[h].clone());
        h += 1;
    }
    proof {
        assert(strs_view(header@) =~= cv);
    }
    records.push(header);
    let mut i: usize = 0;
    while i < rows.len()
        invariant
            rv == rows_view(rows@),
            rv.len() == rows@.len(),
            forall|k: int| 0 <= k < rv.len() ==> rv[k] == obj_view(rows@[k]@),
            cv == strs_view(columns@),
            cv.len() == columns@.len(),
            forall|j: int| 0 <= j < cv.len() ==> cv[j] == columns@[j]@,
            i <= rows@.len(),
            records@.len() == i + 1,
            strs_view(records@[0]@) == cv,
            records@[0]@.len() == cv.len(),
            forall|k: int|
                0 <= k < i ==> strs_view(#[trigger] records@[k + 1]@) == Seq::new(
                    cv.len(),
                    |j: int| spec_csv_cell(spec_obj_get(rv[k], cv[j])),
                ) && records@[k + 1]@.len() == cv.len(),
        decreases rows.len() - i,
    {
        let mut record: Vec<String> = Vec::new();
        let mut j: usize = 0;
        while j < columns.len()
            invariant
                rv == rows_view(rows@),
                rv.len() == rows@.len(),
                forall|k: int| 0 <= k < rv.len() ==> rv[k] == obj_view(rows@[k]@),
                cv == strs_view(columns@),
                cv.len() == columns@.len(),
                forall|k: int| 0 <= k < cv.len() ==> cv[k] == columns@[k]@,
                i < rows@.len(),
                j <= columns@.len(),
                record@.len() == j,
                forall|k: int|
                    0 <= k < j ==> record@[k]@ == spec_csv_cell(spec_obj_get(rv[i as int], cv[k])),
            decreases columns.len() - j,
        {
            let cell: String = match obj_get(&rows[i], columns[j].as_str()) {
                None => String::new(),
                Some(v) => match v {
                    JsonVal::Null => String::new(),
                    JsonVal::Str(s) => s.clone(),
                    other => json_to_string(other),
                },
            };
            record.push(cell);
            j += 1;
        }
        let ghost recv = record@;
        records.push(record);
        proof {
            assert(strs_view(recv) =~= Seq::new(
                cv.len(),
                |j: int| spec_csv_cell(spec_obj_get(rv[i as int], cv[j])),
            ));
            assert forall|k: int|
                0 <= k < i + 1 implies strs_view(#[trigger] records@[k + 1]@) == Seq::new(
                cv.len(),
                |j: int| spec_csv_cell(spec_obj_get(rv[k], cv[j])),
            ) && records@[k + 1]@.len() == cv.len() by {
                if k < i {
                    assert(records@[k + 1] == records@.drop_last()[k + 1]);
                }
            }
        }
        i += 1;
    }
    proof {
        let m = records_view(records@);
        let sm = spec_csv_records(rv, cv);
        assert(m.len() == records@.len());
        assert forall|k: int| 0 <= k < m.len() implies m[k] == sm[k] by {
            assert(m[k] == strs_view(records@[k]@));
            if k == 0 {
                assert(sm[0] == cv);
            } else {
                assert(strs_view(records@[(k - 1) + 1]@) == Seq::new(
                    cv.len(),
                    |j: int| spec_csv_cell(spec_obj_get(rv[k - 1], cv[j])),
                ));
                assert(sm[k] == Seq::new(
                    cv.len(),
                    |j: int| spec_csv_cell(spec_obj_get(rv[k - 1], cv[j])),
                ));
            }
        }
        assert(m =~= sm);
        assert forall|k: int|
            0 <= k < records@.len() implies (#[trigger] records@[k])@.len()
            == records@[0]@.len() by {
            if k > 0 {
                assert(records@[(k - 1) + 1]@.len() == cv.len());
            }
        }
    }
    Ok(encode_csv(&records))
}

/// The `Content-Range` header value: `{offset}-{end}/{total or *}`,
/// where `end` is the last row's position, or the offset itself when
/// no rows came back.
pub open spec fn spec_content_range(offset: int, count: int, total: Option<int>) -> Seq<char> {
    let end = if count > 0 {
        offset + count - 1
    } else {
        offset
    };
    crate::num::int_rep(offset) + "-"@ + crate::num::int_rep(end) + "/"@ + (match total {
        Some(t) => crate::num::int_rep(t),
        None => "*"@,
    })
}

/// Renders the `Content-Range` header value.
pub fn build_content_range(offset: i64, count: i64, total: Option<i64>) -> (r: String)
    requires
        offset + count <= i64::MAX,
        offset - 1 >= i64::MIN,
    ensures
        r@ == spec_content_range(offset as int, count as int, match total {
            Some(t) => Some(t as int),
            None => None,
        }),
{
    let end: i64 = if count > 0 {
        offset + count - 1
    } else {
        offset
    };
    let mut out = crate::num::i64_to_string(offset);
    out.append("-");
    let end_str = crate::num::i64_to_string(end);
    out.append(end_str.as_str());
    out.append("/");
    match total {
        Some(t) => {
            let t_str = crate::num::i64_to_string(t);
            out.append(t_str.as_str());
        },
        None => {
            out.append("*");
        },
    }
    proof {
        assert(out@ =~= spec_content_range(offset as int, count as int, match total {
            Some(t) => Some(t as int),
            None => None,
        }));
    }
    out
}

} // verus!
