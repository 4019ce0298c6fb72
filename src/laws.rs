//! Properties of the aggregation state that hold for every input.
use vstd::prelude::*;
use crate::aggregate::{
    category_codes, entry_of, month_key, month_writes, raw_run, run, step, view_wf, AggregatorView,
    IncidenceView,
};
use crate::coder::{code_for, lemma_codes_injective, table_insert};
use crate::record::RecordView;
use crate::text::{
    all_digits, decimal_text, digit_char, first_index, is_digit, lemma_decimal_text_shape,
    lemma_first_index_bounds, lemma_first_index_push, zero_pad,
};

verus! {

/// The incidence map that a log of writes builds: a later write to the same
/// (category, month, municipality) replaces an earlier one.
pub open spec fn incidence_map(w: Seq<IncidenceView>) -> Map<(Seq<char>, Seq<char>, Seq<char>), nat>
    decreases w.len(),
{
    if w.len() == 0 {
        Map::empty()
    } else {
        let e = w.last();
        incidence_map(w.drop_last()).insert((e.category, e.month, e.municipality), e.count)
    }
}

/// Whether `s` has the shape `YYYY-MM` with a month from `01` to `12`.
pub open spec fn is_month_key(s: Seq<char>) -> bool {
    &&& s.len() == 7
    &&& is_digit(s[0]) && is_digit(s[1]) && is_digit(s[2]) && is_digit(s[3])
    &&& s[4] == '-'
    &&& (s[5] == '0' && is_digit(s[6]) && s[6] != '0') || (s[5] == '1' && (s[6] == '0' || s[6]
        == '1' || s[6] == '2'))
}

/// Every entry of the incidence map comes from a write of the log with that
/// key and that count.
pub proof fn lemma_map_entry_source(w: Seq<IncidenceView>, key: (Seq<char>, Seq<char>, Seq<char>))
    requires
        incidence_map(w).contains_key(key),
    ensures
        exists|i: int|
            0 <= i < w.len() && (w[i].category, w[i].month, w[i].municipality) == key
                && incidence_map(w)[key] == #[trigger] w[i].count,
    decreases w.len(),
{
    let e = w.last();
    if (e.category, e.month, e.municipality) == key {
        assert(incidence_map(w)[key] == w[w.len() - 1].count);
    } else {
        lemma_map_entry_source(w.drop_last(), key);
        let i = choose|i: int|
            0 <= i < w.drop_last().len() && (w.drop_last()[i].category, w.drop_last()[i].month,
            w.drop_last()[i].municipality) == key && incidence_map(w.drop_last())[key]
                == #[trigger] w.drop_last()[i].count;
        assert(w[i] == w.drop_last()[i]);
    }
}

/// Every category code of the incidence map stands exactly once in the
/// dictionary, in an entry whose code is made of its three component codes.
pub proof fn lemma_map_categories_in_dictionary(s: AggregatorView, key: (Seq<char>, Seq<char>, Seq<char>))
    requires
        view_wf(s),
        incidence_map(s.incidences).contains_key(key),
    ensures
        exists|k: int|
            0 <= k < s.dictionary.len() && #[trigger] s.dictionary[k].code == key.0
                && s.dictionary[k].code == s.dictionary[k].type_code + s.dictionary[k].subtype_code
                + s.dictionary[k].modality_code,
        forall|k1: int, k2: int|
            0 <= k1 < s.dictionary.len() && 0 <= k2 < s.dictionary.len() && s.dictionary[k1].code
                == key.0 && s.dictionary[k2].code == key.0 ==> k1 == k2,
{
    lemma_map_entry_source(s.incidences, key);
    let i = choose|i: int|
        0 <= i < s.incidences.len() && (s.incidences[i].category, s.incidences[i].month,
        s.incidences[i].municipality) == key && incidence_map(s.incidences)[key]
            == #[trigger] s.incidences[i].count;
    let codes = category_codes(s.dictionary);
    assert(first_index(codes, s.incidences[i].category) >= 0);
    lemma_first_index_bounds(codes, key.0);
    let k = first_index(codes, key.0);
    assert(s.dictionary[k].code == codes[k]);
    assert forall|k1: int, k2: int|
        0 <= k1 < s.dictionary.len() && 0 <= k2 < s.dictionary.len() && s.dictionary[k1].code
            == key.0 && s.dictionary[k2].code == key.0 implies k1 == k2 by {
        assert(codes[k1] == s.dictionary[k1].code);
        assert(codes[k2] == s.dictionary[k2].code);
    }
}

/// No count of the incidence map is zero.
pub proof fn lemma_map_counts_nonzero(s: AggregatorView, key: (Seq<char>, Seq<char>, Seq<char>))
    requires
        view_wf(s),
        incidence_map(s.incidences).contains_key(key),
    ensures
        incidence_map(s.incidences)[key] > 0,
{
    lemma_map_entry_source(s.incidences, key);
}

/// Every month key of the incidence map is that of a year and a month from
/// one to twelve.
pub proof fn lemma_map_month_keys(s: AggregatorView, key: (Seq<char>, Seq<char>, Seq<char>))
    requires
        view_wf(s),
        incidence_map(s.incidences).contains_key(key),
    ensures
        exists|y: nat, m: nat| 1 <= m <= 12 && key.1 == month_key(y, m),
{
    lemma_map_entry_source(s.incidences, key);
    let i = choose|i: int|
        0 <= i < s.incidences.len() && (s.incidences[i].category, s.incidences[i].month,
        s.incidences[i].municipality) == key && incidence_map(s.incidences)[key]
            == #[trigger] s.incidences[i].count;
    assert(s.incidences[i].month == key.1);
}

/// The month key of a four-digit year and a month from one to twelve has
/// the shape `YYYY-MM`.
pub proof fn lemma_month_key_shape(year: nat, month: nat)
    requires
        1000 <= year <= 9999,
        1 <= month <= 12,
    ensures
        is_month_key(month_key(year, month)),
{
    lemma_decimal_text_shape(year);
    lemma_decimal_text_shape(year / 10);
    lemma_decimal_text_shape(year / 100);
    lemma_decimal_text_shape(year / 1000);
    assert(year / 10 / 10 == year / 100);
    assert(year / 100 / 10 == year / 1000);
    let y = decimal_text(year);
    assert(y.len() == 4);
    assert(is_digit(y[0]) && is_digit(y[1]) && is_digit(y[2]) && is_digit(y[3]));
    let mt = zero_pad(decimal_text(month), 2);
    lemma_decimal_text_shape(month);
    if month < 10 {
        assert(mt =~= seq!['0', digit_char(month)]);
    } else {
        lemma_decimal_text_shape(month / 10);
        assert(decimal_text(month) =~= seq!['1', digit_char((month % 10) as nat)]);
    }
    let k = month_key(year, month);
    assert(k =~= y + seq!['-'] + mt);
    assert(k[4] == '-');
    assert(k[5] == mt[0] && k[6] == mt[1]);
}

/// Distinct labels of a table (labels that differ in case, spacing or
/// accents among them) get distinct codes.
pub proof fn lemma_table_codes_injective(s: AggregatorView, a: Seq<char>, b: Seq<char>)
    requires
        view_wf(s),
        a != b,
    ensures
        first_index(s.types, a) >= 0 && first_index(s.types, b) >= 0 ==> code_for("T"@, s.types, a)
            != code_for("T"@, s.types, b),
        first_index(s.subtypes, a) >= 0 && first_index(s.subtypes, b) >= 0 ==> code_for(
            "S"@,
            s.subtypes,
            a,
        ) != code_for("S"@, s.subtypes, b),
        first_index(s.modalities, a) >= 0 && first_index(s.modalities, b) >= 0 ==> code_for(
            "M"@,
            s.modalities,
            a,
        ) != code_for("M"@, s.modalities, b),
{
    if first_index(s.types, a) >= 0 && first_index(s.types, b) >= 0 {
        lemma_codes_injective("T"@, s.types, a, b);
    }
    if first_index(s.subtypes, a) >= 0 && first_index(s.subtypes, b) >= 0 {
        lemma_codes_injective("S"@, s.subtypes, a, b);
    }
    if first_index(s.modalities, a) >= 0 && first_index(s.modalities, b) >= 0 {
        lemma_codes_injective("M"@, s.modalities, a, b);
    }
}

/// A record whose twelve months are all zero adds no write to the log, and
/// its category stands in the dictionary afterwards.
pub proof fn lemma_zero_record(s: AggregatorView, r: RecordView)
    requires
        r.months.len() == 12,
        forall|i: int| 0 <= i < 12 ==> r.months[i] == 0,
    ensures
        step(s, r).incidences == s.incidences,
        first_index(category_codes(step(s, r).dictionary), entry_of(s, r).code) >= 0,
{
    let e = entry_of(s, r);
    let codes = category_codes(s.dictionary);
    crate::aggregate::lemma_month_writes_zero(e.code, r.year, r.municipality_code, r.months, 12);
    assert(s.incidences + month_writes(e.code, r.year, r.municipality_code, r.months, 12) =~= s.incidences);
    lemma_first_index_bounds(codes, e.code);
    if first_index(codes, e.code) < 0 {
        assert(category_codes(step(s, r).dictionary) =~= codes.push(e.code));
        crate::text::lemma_first_index_push(codes, e.code, e.code);
    }
}

/// The bytes of a sequence of rows of fields.
pub open spec fn row_bytes(rows: Seq<Seq<Vec<u8>>>) -> Seq<Seq<Seq<u8>>> {
    rows.map_values(|r: Seq<Vec<u8>>| r.map_values(|f: Vec<u8>| f@))
}

/// Rows with the same bytes, from the same state, give the same state.
pub proof fn lemma_run_deterministic(
    s: AggregatorView,
    headers: Seq<Seq<char>>,
    rows1: Seq<Seq<Vec<u8>>>,
    rows2: Seq<Seq<Vec<u8>>>,
)
    requires
        row_bytes(rows1) == row_bytes(rows2),
    ensures
        raw_run(s, headers, rows1) == raw_run(s, headers, rows2),
    decreases rows1.len(),
{
    assert(rows1.len() == row_bytes(rows1).len());
    assert(rows2.len() == row_bytes(rows2).len());
    if rows1.len() > 0 {
        let n = rows1.len() - 1;
        assert(row_bytes(rows1.drop_last()) =~= row_bytes(rows1).drop_last());
        assert(row_bytes(rows2.drop_last()) =~= row_bytes(rows2).drop_last());
        lemma_run_deterministic(s, headers, rows1.drop_last(), rows2.drop_last());
        let b1 = rows1[n].map_values(|f: Vec<u8>| f@);
        let b2 = rows2[n].map_values(|f: Vec<u8>| f@);
        assert(b1 == row_bytes(rows1)[n]);
        assert(b2 == row_bytes(rows2)[n]);
        assert(b1.len() == b2.len());
        assert forall|j: int| 0 <= j < rows1[n].len() implies rows2[n][j]@ == rows1[n][j]@ by {
            assert(b1[j] == b2[j]);
        }
        assert(crate::decode::decoded_row(rows1.last()) =~= crate::decode::decoded_row(rows2.last()));
    }
}

/// Whether the tables and the dictionary of `s` already hold the labels and
/// the category of record `r`.
pub open spec fn covers(s: AggregatorView, r: RecordView) -> bool {
    &&& first_index(s.types, r.type_label) >= 0
    &&& first_index(s.subtypes, r.subtype_label) >= 0
    &&& first_index(s.modalities, r.modality_label) >= 0
    &&& first_index(category_codes(s.dictionary), entry_of(s, r).code) >= 0
}

/// Whether two states have the same tables and the same dictionary.
pub open spec fn same_catalogue(a: AggregatorView, b: AggregatorView) -> bool {
    &&& a.types == b.types
    &&& a.subtypes == b.subtypes
    &&& a.modalities == b.modalities
    &&& a.dictionary == b.dictionary
}

proof fn lemma_code_stable(prefix: Seq<char>, t: Seq<Seq<char>>, l: Seq<char>, y: Seq<char>)
    requires
        first_index(t, l) >= 0,
    ensures
        first_index(table_insert(t, y), l) == first_index(t, l),
        code_for(prefix, table_insert(t, y), l) == code_for(prefix, t, l),
{
    lemma_first_index_push(t, y, l);
    let n = table_insert(t, y);
    assert(table_insert(n, l) == n);
}

proof fn lemma_step_covers_record(s: AggregatorView, r: RecordView)
    ensures
        covers(step(s, r), r),
        entry_of(step(s, r), r).code == entry_of(s, r).code,
{
    let n = step(s, r);
    lemma_first_index_push(s.types, r.type_label, r.type_label);
    lemma_first_index_push(s.subtypes, r.subtype_label, r.subtype_label);
    lemma_first_index_push(s.modalities, r.modality_label, r.modality_label);
    lemma_code_stable("T"@, n.types, r.type_label, r.type_label);
    lemma_code_stable("S"@, n.subtypes, r.subtype_label, r.subtype_label);
    lemma_code_stable("M"@, n.modalities, r.modality_label, r.modality_label);
    let e = entry_of(s, r);
    let codes = category_codes(s.dictionary);
    lemma_first_index_push(codes, e.code, e.code);
    if first_index(codes, e.code) < 0 {
        assert(category_codes(n.dictionary) =~= codes.push(e.code));
    }
}

proof fn lemma_step_keeps_cover(s: AggregatorView, r: RecordView, r2: RecordView)
    requires
        covers(s, r),
    ensures
        covers(step(s, r2), r),
{
    let n = step(s, r2);
    lemma_code_stable("T"@, s.types, r.type_label, r2.type_label);
    lemma_code_stable("S"@, s.subtypes, r.subtype_label, r2.subtype_label);
    lemma_code_stable("M"@, s.modalities, r.modality_label, r2.modality_label);
    assert(entry_of(n, r).code == entry_of(s, r).code);
    let e2 = entry_of(s, r2);
    let codes = category_codes(s.dictionary);
    lemma_first_index_push(codes, e2.code, entry_of(s, r).code);
    if first_index(codes, e2.code) < 0 {
        assert(category_codes(n.dictionary) =~= codes.push(e2.code));
    }
}

proof fn lemma_run_covers(s: AggregatorView, rs: Seq<RecordView>)
    ensures
        forall|i: int| 0 <= i < rs.len() ==> covers(run(s, rs), #[trigger] rs[i]),
    decreases rs.len(),
{
    if rs.len() > 0 {
        let p = rs.drop_last();
        lemma_run_covers(s, p);
        lemma_step_covers_record(run(s, p), rs.last());
        assert forall|i: int| 0 <= i < rs.len() implies covers(run(s, rs), #[trigger] rs[i]) by {
            if i < rs.len() - 1 {
                assert(rs[i] == p[i]);
                lemma_step_keeps_cover(run(s, p), rs[i], rs.last());
            }
        }
    }
}

proof fn lemma_covered_run(t: AggregatorView, rs: Seq<RecordView>)
    requires
        forall|i: int| 0 <= i < rs.len() ==> covers(t, #[trigger] rs[i]),
    ensures
        same_catalogue(run(t, rs), t),
    decreases rs.len(),
{
    if rs.len() > 0 {
        let p = rs.drop_last();
        assert forall|i: int| 0 <= i < p.len() implies covers(t, #[trigger] p[i]) by {
            assert(p[i] == rs[i]);
        }
        lemma_covered_run(t, p);
        let q = run(t, p);
        assert(covers(t, rs[rs.len() - 1]));
        assert(entry_of(q, rs.last()) == entry_of(t, rs.last()));
        assert(covers(q, rs.last()));
    }
}

/// Taking the same records a second time changes neither the code tables
/// nor the dictionary.
pub proof fn lemma_rerun_keeps_catalogue(s: AggregatorView, rs: Seq<RecordView>)
    ensures
        same_catalogue(run(run(s, rs), rs), run(s, rs)),
{
    lemma_run_covers(s, rs);
    lemma_covered_run(run(s, rs), rs);
}

} // verus!
