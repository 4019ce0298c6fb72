//! Binding of a decoded row to the record schema, by header name.
use vstd::prelude::*;
use crate::text::{
    count_value, decimal_value, find_text, first_index, left_pad_zeros, lemma_first_index_bounds,
    only_positives, parse_count, reads_as_count, texts, unsigned_part, zero_pad,
};

verus! {

/// Number of columns that a row must have: nine of text and twelve months.
pub const COLUMNS: usize = 21;

/// Position of the first month among the required columns.
pub const FIRST_MONTH: usize = 9;

/// The header of the required column `k`: year, state code and name,
/// municipality code and name, legal good affected, type, subtype,
/// modality, then the months from January to December.
pub open spec fn column_name(k: int) -> Seq<char> {
    if k == 0 {
        "Año"@
    } else if k == 1 {
        "Clave_Ent"@
    } else if k == 2 {
        "Entidad"@
    } else if k == 3 {
        "Cve. Municipio"@
    } else if k == 4 {
        "Municipio"@
    } else if k == 5 {
        "Bien jurídico afectado"@
    } else if k == 6 {
        "Tipo de delito"@
    } else if k == 7 {
        "Subtipo de delito"@
    } else if k == 8 {
        "Modalidad"@
    } else if k == 9 {
        "Enero"@
    } else if k == 10 {
        "Febrero"@
    } else if k == 11 {
        "Marzo"@
    } else if k == 12 {
        "Abril"@
    } else if k == 13 {
        "Mayo"@
    } else if k == 14 {
        "Junio"@
    } else if k == 15 {
        "Julio"@
    } else if k == 16 {
        "Agosto"@
    } else if k == 17 {
        "Septiembre"@
    } else if k == 18 {
        "Octubre"@
    } else if k == 19 {
        "Noviembre"@
    } else {
        "Diciembre"@
    }
}

fn column_header(k: usize) -> (r: &'static str)
    requires
        k < COLUMNS,
    ensures
        r@ == column_name(k as int),
{
    if k == 0 {
        "Año"
    } else if k == 1 {
        "Clave_Ent"
    } else if k == 2 {
        "Entidad"
    } else if k == 3 {
        "Cve. Municipio"
    } else if k == 4 {
        "Municipio"
    } else if k == 5 {
        "Bien jurídico afectado"
    } else if k == 6 {
        "Tipo de delito"
    } else if k == 7 {
        "Subtipo de delito"
    } else if k == 8 {
        "Modalidad"
    } else if k == 9 {
        "Enero"
    } else if k == 10 {
        "Febrero"
    } else if k == 11 {
        "Marzo"
    } else if k == 12 {
        "Abril"
    } else if k == 13 {
        "Mayo"
    } else if k == 14 {
        "Junio"
    } else if k == 15 {
        "Julio"
    } else if k == 16 {
        "Agosto"
    } else if k == 17 {
        "Septiembre"
    } else if k == 18 {
        "Octubre"
    } else if k == 19 {
        "Noviembre"
    } else {
        "Diciembre"
    }
}

/// Whether the header row holds the required column `k`.
pub open spec fn has_column(headers: Seq<Seq<char>>, k: int) -> bool {
    first_index(headers, column_name(k)) >= 0
}

/// Whether the header row holds every required column.
pub open spec fn has_all_columns(headers: Seq<Seq<char>>) -> bool {
    forall|k: int| 0 <= k < COLUMNS ==> #[trigger] has_column(headers, k)
}

/// The value of the required column `k` in a row: that of the first column
/// with its header.
pub open spec fn cell(headers: Seq<Seq<char>>, row: Seq<Seq<char>>, k: int) -> Seq<char> {
    row[first_index(headers, column_name(k))]
}

/// A record as plain values.
pub struct RecordView {
    pub year: nat,
    pub state_code: Seq<char>,
    pub state_name: Seq<char>,
    pub municipality_code: Seq<char>,
    pub municipality_name: Seq<char>,
    pub legal_good: Seq<char>,
    pub type_label: Seq<char>,
    pub subtype_label: Seq<char>,
    pub modality_label: Seq<char>,
    pub months: Seq<nat>,
}

/// The record that a row binds to: codes padded with zeros (state to two
/// characters, municipality to five) and months read by the count rule.
pub open spec fn record_of(headers: Seq<Seq<char>>, row: Seq<Seq<char>>) -> RecordView {
    RecordView {
        year: decimal_value(unsigned_part(cell(headers, row, 0))),
        state_code: zero_pad(cell(headers, row, 1), 2),
        state_name: cell(headers, row, 2),
        municipality_code: zero_pad(cell(headers, row, 3), 5),
        municipality_name: cell(headers, row, 4),
        legal_good: cell(headers, row, 5),
        type_label: cell(headers, row, 6),
        subtype_label: cell(headers, row, 7),
        modality_label: cell(headers, row, 8),
        months: Seq::new(12, |i: int| count_value(cell(headers, row, FIRST_MONTH + i))),
    }
}

/// One row of the input, bound to the schema.
pub struct Record {
    pub year: u32,
    pub state_code: String,
    pub state_name: String,
    pub municipality_code: String,
    pub municipality_name: String,
    pub legal_good: String,
    pub type_label: String,
    pub subtype_label: String,
    pub modality_label: String,
    pub months: Vec<u32>,
}

/// Why a row cannot be bound.
pub enum BindError {
    /// The row does not have one value per header.
    FieldCount,
    /// A required column is missing from the header row; its name.
    MissingColumn(String),
    /// The year is not a non-negative integer; the value found.
    InvalidYear(String),
}

impl Record {
    pub open spec fn view(&self) -> RecordView {
        RecordView {
            year: self.year as nat,
            state_code: self.state_code@,
            state_name: self.state_name@,
            municipality_code: self.municipality_code@,
            municipality_name: self.municipality_name@,
            legal_good: self.legal_good@,
            type_label: self.type_label@,
            subtype_label: self.subtype_label@,
            modality_label: self.modality_label@,
            months: self.months@.map_values(|v: u32| v as nat),
        }
    }

    /// A record holds twelve monthly counts.
    pub open spec fn wf(&self) -> bool {
        self.months@.len() == 12
    }

    /// The twelve monthly counts, January first.
    pub fn incidences(&self) -> (r: Vec<u32>)
        ensures
            r@ == self.months@,
    {
        self.months.clone()
    }

    /// Binds a decoded row to the schema through the header row.
    pub fn from_row(headers: &Vec<String>, row: &Vec<String>) -> (r: Result<Record, BindError>)
        ensures
            r matches Ok(rec) ==> rec.wf() && rec@ == record_of(texts(headers@), texts(row@)),
            r is Ok <==> headers@.len() == row@.len() && has_all_columns(texts(headers@))
                && reads_as_count(cell(texts(headers@), texts(row@), 0)),
            (r matches Err(BindError::FieldCount)) <==> headers@.len() != row@.len(),
            r matches Err(BindError::MissingColumn(name)) ==> exists|k: int|
                0 <= k < COLUMNS && !has_column(texts(headers@), k) && name@ == column_name(k)
                && forall|j: int| 0 <= j < k ==> #[trigger] has_column(texts(headers@), j),
            r matches Err(BindError::MissingColumn(_)) ==> headers@.len() == row@.len() && !has_all_columns(texts(headers@)),
            r matches Err(BindError::InvalidYear(v)) ==> v@ == cell(texts(headers@), texts(row@), 0),
            r matches Err(BindError::InvalidYear(_)) ==> headers@.len() == row@.len() && has_all_columns(texts(headers@)),
    {
        let ghost h = texts(headers@);
        let ghost w = texts(row@);
        if headers.len() != row.len() {
            return Err(BindError::FieldCount);
        }
        let mut pos: Vec<usize> = Vec::new();
        let mut k: usize = 0;
        while k < COLUMNS
            invariant
                k <= COLUMNS,
                h == texts(headers@),
                headers@.len() == row@.len(),
                pos@.len() == k,
                forall|j: int| 0 <= j < k ==> #[trigger] has_column(h, j),
                forall|j: int| 0 <= j < k ==> pos@[j] as int == first_index(h, column_name(j)),
                forall|j: int| 0 <= j < k ==> pos@[j] < headers@.len(),
            decreases COLUMNS - k,
        {
            let name = String::from_str(column_header(k));
            proof {
                lemma_first_index_bounds(h, name@);
            }
            match find_text(headers, &name) {
                Some(p) => {
                    pos.push(p);
                },
                None => {
                    assert(!has_column(h, k as int));
                    return Err(BindError::MissingColumn(name));
                },
            }
            k = k + 1;
        }
        assert(has_all_columns(h));
        let year = match parse_count(row[pos[0]].as_str()) {
            Some(y) => y,
            None => {
                return Err(BindError::InvalidYear(row[pos[0]].clone()));
            },
        };
        let mut months: Vec<u32> = Vec::new();
        let mut i: usize = 0;
        while i < 12
            invariant
                i <= 12,
                pos@.len() == COLUMNS,
                h == texts(headers@),
                w == texts(row@),
                headers@.len() == row@.len(),
                forall|j: int| 0 <= j < COLUMNS ==> pos@[j] as int == first_index(h, column_name(j)),
                forall|j: int| 0 <= j < COLUMNS ==> pos@[j] < headers@.len(),
                months@.len() == i,
                forall|j: int| 0 <= j < i ==> #[trigger] months@[j] as nat == count_value(cell(h, w, FIRST_MONTH + j)),
            decreases 12 - i,
        {
            let v = only_positives(row[pos[FIRST_MONTH + i]].as_str());
            months.push(v);
            i = i + 1;
        }
        let rec = Record {
            year,
            state_code: left_pad_zeros(row[pos[1]].as_str(), 2),
            state_name: row[pos[2]].clone(),
            municipality_code: left_pad_zeros(row[pos[3]].as_str(), 5),
            municipality_name: row[pos[4]].clone(),
            legal_good: row[pos[5]].clone(),
            type_label: row[pos[6]].clone(),
            subtype_label: row[pos[7]].clone(),
            modality_label: row[pos[8]].clone(),
            months,
        };
        assert(rec@.months =~= record_of(h, w).months);
        Ok(rec)
    }
}

} // verus!
