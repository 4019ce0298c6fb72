//! The aggregation state: three code tables, the category dictionary and
//! the log of incidence writes, grown together one record at a time.
use vstd::prelude::*;
use crate::coder::{code_for, composite, distinct, table_insert, CodeTable};
use crate::decode::{decoded_row, recoder};
use crate::record::{cell, has_all_columns, record_of, BindError, Record, RecordView};
use crate::text::{
    decimal_string, decimal_text, first_index, left_pad_zeros, lemma_first_index_bounds,
    lemma_first_index_push, texts, zero_pad,
};

verus! {

/// A dictionary entry as plain values.
pub struct CategoryView {
    pub type_label: Seq<char>,
    pub subtype_label: Seq<char>,
    pub modality_label: Seq<char>,
    pub type_code: Seq<char>,
    pub subtype_code: Seq<char>,
    pub modality_code: Seq<char>,
    pub code: Seq<char>,
}

/// One write into the incidence map as plain values.
pub struct IncidenceView {
    pub category: Seq<char>,
    pub month: Seq<char>,
    pub municipality: Seq<char>,
    pub count: nat,
}

/// The whole aggregation state as plain values.
pub struct AggregatorView {
    pub types: Seq<Seq<char>>,
    pub subtypes: Seq<Seq<char>>,
    pub modalities: Seq<Seq<char>>,
    pub dictionary: Seq<CategoryView>,
    pub incidences: Seq<IncidenceView>,
}

/// The month key `YYYY-MM` of a year and a month (from one).
pub open spec fn month_key(year: nat, month: nat) -> Seq<char> {
    decimal_text(year) + seq!['-'] + zero_pad(decimal_text(month), 2)
}

/// The writes that the first `k` months of a record make: one for each
/// month with a non-zero count, in calendar order.
pub open spec fn month_writes(
    code: Seq<char>,
    year: nat,
    municipality: Seq<char>,
    months: Seq<nat>,
    k: nat,
) -> Seq<IncidenceView>
    decreases k,
{
    if k == 0 {
        Seq::empty()
    } else {
        let prev = month_writes(code, year, municipality, months, (k - 1) as nat);
        if months[k - 1] > 0 {
            prev.push(
                IncidenceView {
                    category: code,
                    month: month_key(year, k),
                    municipality,
                    count: months[k - 1],
                },
            )
        } else {
            prev
        }
    }
}

/// The composite codes of the dictionary, in order.
pub open spec fn category_codes(d: Seq<CategoryView>) -> Seq<Seq<char>> {
    d.map_values(|c: CategoryView| c.code)
}

/// The dictionary entry that a record would create.
pub open spec fn entry_of(s: AggregatorView, r: RecordView) -> CategoryView {
    let t = code_for("T"@, s.types, r.type_label);
    let st = code_for("S"@, s.subtypes, r.subtype_label);
    let m = code_for("M"@, s.modalities, r.modality_label);
    CategoryView {
        type_label: r.type_label,
        subtype_label: r.subtype_label,
        modality_label: r.modality_label,
        type_code: t,
        subtype_code: st,
        modality_code: m,
        code: t + st + m,
    }
}

/// The state after one record: its labels coded, its category added to the
/// dictionary when new, and a write for each non-zero month.
pub open spec fn step(s: AggregatorView, r: RecordView) -> AggregatorView {
    let e = entry_of(s, r);
    AggregatorView {
        types: table_insert(s.types, r.type_label),
        subtypes: table_insert(s.subtypes, r.subtype_label),
        modalities: table_insert(s.modalities, r.modality_label),
        dictionary: if first_index(category_codes(s.dictionary), e.code) >= 0 {
            s.dictionary
        } else {
            s.dictionary.push(e)
        },
        incidences: s.incidences + month_writes(e.code, r.year, r.municipality_code, r.months, 12),
    }
}

/// The state after a sequence of records, starting from `s`.
pub open spec fn run(s: AggregatorView, rs: Seq<RecordView>) -> AggregatorView
    decreases rs.len(),
{
    if rs.len() == 0 {
        s
    } else {
        step(run(s, rs.drop_last()), rs.last())
    }
}

/// The empty state.
pub open spec fn empty_view() -> AggregatorView {
    AggregatorView {
        types: Seq::empty(),
        subtypes: Seq::empty(),
        modalities: Seq::empty(),
        dictionary: Seq::empty(),
        incidences: Seq::empty(),
    }
}

/// The consistency of a state: codes of the tables and of the dictionary
/// unique, each composite code made of its three parts, every write with a
/// non-zero count, a month key and a category in the dictionary.
pub open spec fn view_wf(s: AggregatorView) -> bool {
    &&& distinct(s.types)
    &&& distinct(s.subtypes)
    &&& distinct(s.modalities)
    &&& distinct(category_codes(s.dictionary))
    &&& forall|k: int|
        0 <= k < s.dictionary.len() ==> #[trigger] s.dictionary[k].code == s.dictionary[k].type_code
            + s.dictionary[k].subtype_code + s.dictionary[k].modality_code
    &&& forall|i: int| 0 <= i < s.incidences.len() ==> #[trigger] s.incidences[i].count > 0
    &&& forall|i: int|
        0 <= i < s.incidences.len() ==> first_index(
            category_codes(s.dictionary),
            #[trigger] s.incidences[i].category,
        ) >= 0
    &&& forall|i: int|
        0 <= i < s.incidences.len() ==> exists|y: nat, m: nat|
            1 <= m <= 12 && #[trigger] s.incidences[i].month == month_key(y, m)
}

/// A dictionary entry.
pub struct Category {
    pub type_label: String,
    pub subtype_label: String,
    pub modality_label: String,
    pub type_code: String,
    pub subtype_code: String,
    pub modality_code: String,
    pub code: String,
}

impl Category {
    pub open spec fn view(&self) -> CategoryView {
        CategoryView {
            type_label: self.type_label@,
            subtype_label: self.subtype_label@,
            modality_label: self.modality_label@,
            type_code: self.type_code@,
            subtype_code: self.subtype_code@,
            modality_code: self.modality_code@,
            code: self.code@,
        }
    }

    /// The dictionary entry of a record: its three labels, their codes and
    /// the composite code.
    pub fn from_record(
        rec: &Record,
        type_code: String,
        subtype_code: String,
        modality_code: String,
        code: String,
    ) -> (c: Category)
        ensures
            c@ == (CategoryView {
                type_label: rec.type_label@,
                subtype_label: rec.subtype_label@,
                modality_label: rec.modality_label@,
                type_code: type_code@,
                subtype_code: subtype_code@,
                modality_code: modality_code@,
                code: code@,
            }),
    {
        Category {
            type_label: rec.type_label.clone(),
            subtype_label: rec.subtype_label.clone(),
            modality_label: rec.modality_label.clone(),
            type_code,
            subtype_code,
            modality_code,
            code,
        }
    }
}

/// One write into the incidence map: category, month key, municipality and
/// count.
pub struct Incidence {
    pub category: String,
    pub month: String,
    pub municipality: String,
    pub count: u32,
}

impl Incidence {
    pub open spec fn view(&self) -> IncidenceView {
        IncidenceView {
            category: self.category@,
            month: self.month@,
            municipality: self.municipality@,
            count: self.count as nat,
        }
    }
}

/// The aggregation state of a run.
pub struct Aggregator {
    pub types: CodeTable,
    pub subtypes: CodeTable,
    pub modalities: CodeTable,
    pub dictionary: Vec<Category>,
    pub incidences: Vec<Incidence>,
}

/// The month key `YYYY-MM` of a year and a month.
pub fn month_string(year: u32, month: u32) -> (r: String)
    ensures
        r@ == month_key(year as nat, month as nat),
{
    let mut r = decimal_string(year as u128);
    proof {
        reveal_strlit("-");
    }
    r.append("-");
    let m = decimal_string(month as u128);
    let padded = left_pad_zeros(m.as_str(), 2);
    r.append(padded.as_str());
    r
}

proof fn lemma_month_writes(code: Seq<char>, year: nat, municipality: Seq<char>, months: Seq<nat>, k: nat)
    requires
        k <= 12,
        k <= months.len(),
    ensures
        forall|i: int|
            0 <= i < month_writes(code, year, municipality, months, k).len() ==> {
                let e = #[trigger] month_writes(code, year, municipality, months, k)[i];
                &&& e.category == code
                &&& e.count > 0
                &&& exists|y: nat, m: nat| 1 <= m <= 12 && e.month == month_key(y, m)
            },
        (forall|j: int| 0 <= j < k ==> months[j] == 0) ==> month_writes(
            code,
            year,
            municipality,
            months,
            k,
        ).len() == 0,
    decreases k,
{
    if k > 0 {
        lemma_month_writes(code, year, municipality, months, (k - 1) as nat);
        let prev = month_writes(code, year, municipality, months, (k - 1) as nat);
        let w = month_writes(code, year, municipality, months, k);
        assert forall|i: int| 0 <= i < w.len() implies {
            let e = #[trigger] w[i];
            &&& e.category == code
            &&& e.count > 0
            &&& exists|y: nat, m: nat| 1 <= m <= 12 && e.month == month_key(y, m)
        } by {
            if i < prev.len() {
                assert(w[i] == prev[i]);
            } else {
                assert(w[i].month == month_key(year, k));
            }
        }
    }
}

proof fn lemma_table_insert_distinct(t: Seq<Seq<char>>, l: Seq<char>)
    requires
        distinct(t),
    ensures
        distinct(table_insert(t, l)),
        first_index(table_insert(t, l), l) >= 0,
{
    lemma_first_index_bounds(t, l);
    lemma_first_index_push(t, l, l);
}

/// A record whose first `k` months are zero makes no write.
pub proof fn lemma_month_writes_zero(code: Seq<char>, year: nat, municipality: Seq<char>, months: Seq<nat>, k: nat)
    requires
        k <= 12,
        k <= months.len(),
        forall|j: int| 0 <= j < k ==> months[j] == 0,
    ensures
        month_writes(code, year, municipality, months, k).len() == 0,
{
    lemma_month_writes(code, year, municipality, months, k);
}

/// Each record keeps the state consistent.
pub proof fn lemma_step_wf(s: AggregatorView, r: RecordView)
    requires
        view_wf(s),
        r.months.len() == 12,
    ensures
        view_wf(step(s, r)),
{
    let e = entry_of(s, r);
    let n = step(s, r);
    lemma_table_insert_distinct(s.types, r.type_label);
    lemma_table_insert_distinct(s.subtypes, r.subtype_label);
    lemma_table_insert_distinct(s.modalities, r.modality_label);
    let codes = category_codes(s.dictionary);
    lemma_first_index_bounds(codes, e.code);
    if first_index(codes, e.code) < 0 {
        assert(category_codes(n.dictionary) =~= codes.push(e.code));
    }
    assert(category_codes(n.dictionary) == table_insert(codes, e.code));
    lemma_table_insert_distinct(codes, e.code);
    let mw = month_writes(e.code, r.year, r.municipality_code, r.months, 12);
    lemma_month_writes(e.code, r.year, r.municipality_code, r.months, 12);
    assert forall|k: int| 0 <= k < n.dictionary.len() implies #[trigger] n.dictionary[k].code
        == n.dictionary[k].type_code + n.dictionary[k].subtype_code + n.dictionary[k].modality_code by {
        if k < s.dictionary.len() {
            assert(n.dictionary[k] == s.dictionary[k]);
        }
    }
    assert forall|i: int| 0 <= i < n.incidences.len() implies {
        &&& n.incidences[i].count > 0
        &&& first_index(category_codes(n.dictionary), n.incidences[i].category) >= 0
        &&& exists|y: nat, m: nat| 1 <= m <= 12 && n.incidences[i].month == month_key(y, m)
    } by {
        if i < s.incidences.len() {
            assert(n.incidences[i] == s.incidences[i]);
            lemma_first_index_push(codes, e.code, s.incidences[i].category);
        } else {
            assert(n.incidences[i] == mw[i - s.incidences.len()]);
        }
    }
    assert(forall|i: int| 0 <= i < n.incidences.len() ==> #[trigger] n.incidences[i].count > 0);
    assert(forall|i: int|
        0 <= i < n.incidences.len() ==> first_index(
            category_codes(n.dictionary),
            #[trigger] n.incidences[i].category,
        ) >= 0);
    assert(forall|i: int|
        0 <= i < n.incidences.len() ==> exists|y: nat, m: nat|
            1 <= m <= 12 && #[trigger] n.incidences[i].month == month_key(y, m));
}

/// Every record of a run keeps the state consistent.
pub proof fn lemma_run_wf(s: AggregatorView, rs: Seq<RecordView>)
    requires
        view_wf(s),
        forall|i: int| 0 <= i < rs.len() ==> (#[trigger] rs[i]).months.len() == 12,
    ensures
        view_wf(run(s, rs)),
    decreases rs.len(),
{
    if rs.len() > 0 {
        lemma_run_wf(s, rs.drop_last());
        lemma_step_wf(run(s, rs.drop_last()), rs.last());
    }
}

/// Whether a decoded row binds to a record through the header row.
pub open spec fn row_binds(headers: Seq<Seq<char>>, row: Seq<Seq<char>>) -> bool {
    headers.len() == row.len() && has_all_columns(headers) && crate::text::reads_as_count(
        cell(headers, row, 0),
    )
}

/// The state after a decoded row: that of its record when it binds,
/// unchanged otherwise.
pub open spec fn row_step(s: AggregatorView, headers: Seq<Seq<char>>, row: Seq<Seq<char>>) -> AggregatorView {
    if row_binds(headers, row) {
        step(s, record_of(headers, row))
    } else {
        s
    }
}

/// The state after a sequence of Windows-1252 rows, starting from `s`.
pub open spec fn raw_run(s: AggregatorView, headers: Seq<Seq<char>>, rows: Seq<Seq<Vec<u8>>>) -> AggregatorView
    decreases rows.len(),
{
    if rows.len() == 0 {
        s
    } else {
        row_step(raw_run(s, headers, rows.drop_last()), headers, decoded_row(rows.last()))
    }
}

impl Aggregator {
    pub open spec fn view(&self) -> AggregatorView {
        AggregatorView {
            types: self.types@,
            subtypes: self.subtypes@,
            modalities: self.modalities@,
            dictionary: self.dictionary@.map_values(|c: Category| c@),
            incidences: self.incidences@.map_values(|w: Incidence| w@),
        }
    }

    /// The tables carry the prefixes `T`, `S` and `M`, and the state is
    /// consistent.
    pub open spec fn wf(&self) -> bool {
        &&& self.types.prefix@ == "T"@
        &&& self.subtypes.prefix@ == "S"@
        &&& self.modalities.prefix@ == "M"@
        &&& view_wf(self@)
    }

    /// The state at the start of a run: everything empty.
    pub fn new() -> (a: Aggregator)
        ensures
            a.wf(),
            a@ == empty_view(),
    {
        let a = Aggregator {
            types: CodeTable::new("T"),
            subtypes: CodeTable::new("S"),
            modalities: CodeTable::new("M"),
            dictionary: Vec::new(),
            incidences: Vec::new(),
        };
        assert(a@.dictionary =~= Seq::<CategoryView>::empty());
        assert(a@.incidences =~= Seq::<IncidenceView>::empty());
        assert(category_codes(a@.dictionary) =~= Seq::<Seq<char>>::empty());
        a
    }

    /// Takes one record into the state.
    pub fn ingest(&mut self, rec: &Record)
        requires
            old(self).wf(),
            rec.wf(),
        ensures
            final(self).wf(),
            final(self)@ == step(old(self)@, rec@),
    {
        let ghost s = self@;
        let ghost rv = rec@;
        let t = self.types.encode(&rec.type_label);
        let st = self.subtypes.encode(&rec.subtype_label);
        let m = self.modalities.encode(&rec.modality_label);
        let code = composite(&t, &st, &m);
        let ghost e = entry_of(s, rv);
        assert(code@ == e.code);
        let ghost codes = category_codes(s.dictionary);
        proof {
            lemma_first_index_bounds(codes, code@);
        }
        let mut found = false;
        let mut k: usize = 0;
        while k < self.dictionary.len()
            invariant
                k <= self.dictionary@.len(),
                self.dictionary@ == old(self).dictionary@,
                codes == category_codes(s.dictionary),
                s.dictionary == self.dictionary@.map_values(|c: Category| c@),
                !found ==> forall|j: int| 0 <= j < k ==> codes[j] != code@,
                found ==> first_index(codes, code@) >= 0,
                -1 <= first_index(codes, code@) < codes.len(),
                first_index(codes, code@) < 0 ==> forall|j: int| 0 <= j < codes.len() ==> codes[j] != code@,
            decreases self.dictionary@.len() - k,
        {
            assert(codes[k as int] == self.dictionary@[k as int].code@);
            if self.dictionary[k].code == code {
                found = true;
            }
            k = k + 1;
        }
        if !found {
            assert(first_index(codes, code@) < 0);
            self.dictionary.push(Category::from_record(rec, t, st, m, code.clone()));
            assert(self@.dictionary =~= s.dictionary.push(e));
        }
        let mut i: usize = 0;
        while i < 12
            invariant
                i <= 12,
                rec.months@.len() == 12,
                rv == rec@,
                code@ == e.code,
                self@.incidences == s.incidences + month_writes(e.code, rv.year, rv.municipality_code, rv.months, i as nat),
                self@.types == step(s, rv).types,
                self@.subtypes == step(s, rv).subtypes,
                self@.modalities == step(s, rv).modalities,
                self@.dictionary == step(s, rv).dictionary,
                self.types.prefix@ == "T"@,
                self.subtypes.prefix@ == "S"@,
                self.modalities.prefix@ == "M"@,
            decreases 12 - i,
        {
            let v = rec.months[i];
            assert(rv.months[i as int] == v as nat);
            let ghost before = self@.incidences;
            let ghost mw = month_writes(e.code, rv.year, rv.municipality_code, rv.months, i as nat);
            let ghost k1 = (i + 1) as nat;
            assert(month_writes(e.code, rv.year, rv.municipality_code, rv.months, k1) == if v > 0 {
                mw.push(IncidenceView {
                    category: e.code,
                    month: month_key(rv.year, k1),
                    municipality: rv.municipality_code,
                    count: v as nat,
                })
            } else {
                mw
            });
            if v > 0 {
                let w = Incidence {
                    category: code.clone(),
                    month: month_string(rec.year, (i + 1) as u32),
                    municipality: rec.municipality_code.clone(),
                    count: v,
                };
                self.incidences.push(w);
                assert(self@.incidences =~= before.push(w@));
            }
            i = i + 1;
            assert(self@.incidences =~= s.incidences + month_writes(e.code, rv.year, rv.municipality_code, rv.months, i as nat));
        }
        proof {
            lemma_step_wf(s, rv);
        }
    }

    /// Takes one decoded row into the state through the header row.  A row
    /// without one value per header is skipped (`Ok(false)`) and a row that
    /// does not bind is an error; in both cases the state is unchanged.
    pub fn add_row(&mut self, headers: &Vec<String>, row: &Vec<String>) -> (r: Result<bool, BindError>)
        requires
            old(self).wf(),
        ensures
            final(self).wf(),
            final(self)@ == row_step(old(self)@, texts(headers@), texts(row@)),
            r matches Ok(true) <==> row_binds(texts(headers@), texts(row@)),
            r matches Ok(false) <==> headers@.len() != row@.len(),
    {
        match Record::from_row(headers, row) {
            Ok(rec) => {
                self.ingest(&rec);
                Ok(true)
            },
            Err(BindError::FieldCount) => Ok(false),
            Err(e) => Err(e),
        }
    }

    /// Decodes a row of Windows-1252 fields and takes it into the state as
    /// [`Aggregator::add_row`] does.
    pub fn add_raw_row(&mut self, headers: &Vec<String>, raw: &Vec<Vec<u8>>) -> (r: Result<bool, BindError>)
        requires
            old(self).wf(),
        ensures
            final(self).wf(),
            final(self)@ == row_step(old(self)@, texts(headers@), decoded_row(raw@)),
            r matches Ok(true) <==> row_binds(texts(headers@), decoded_row(raw@)),
            r matches Ok(false) <==> headers@.len() != raw@.len(),
    {
        let row = recoder(raw);
        self.add_row(headers, &row)
    }
}

} // verus!
