use delitos::aggregate::{month_string, Aggregator};
use delitos::decode::recoder;
use delitos::record::{BindError, Record};
use delitos::text::{decimal_string, left_pad_zeros, only_positives, parse_count};
use std::collections::BTreeMap;

const HEADER: [&str; 21] = [
    "Año",
    "Clave_Ent",
    "Entidad",
    "Cve. Municipio",
    "Municipio",
    "Bien jurídico afectado",
    "Tipo de delito",
    "Subtipo de delito",
    "Modalidad",
    "Enero",
    "Febrero",
    "Marzo",
    "Abril",
    "Mayo",
    "Junio",
    "Julio",
    "Agosto",
    "Septiembre",
    "Octubre",
    "Noviembre",
    "Diciembre",
];

fn headers() -> Vec<String> {
    HEADER.iter().map(|h| h.to_string()).collect()
}

fn row(fields: &[&str]) -> Vec<String> {
    fields.iter().map(|f| f.to_string()).collect()
}

fn windows_1252(s: &str) -> Vec<u8> {
    encoding_rs::WINDOWS_1252.encode(s).0.into_owned()
}

fn raw_row(fields: &[&str]) -> Vec<Vec<u8>> {
    fields.iter().map(|f| windows_1252(f)).collect()
}

fn with_months(prefix: [&'static str; 9], months: [&'static str; 12]) -> Vec<String> {
    let mut v: Vec<&str> = prefix.to_vec();
    v.extend_from_slice(&months);
    row(&v)
}

fn final_map(a: &Aggregator) -> BTreeMap<String, BTreeMap<String, BTreeMap<String, u32>>> {
    let mut m: BTreeMap<String, BTreeMap<String, BTreeMap<String, u32>>> = BTreeMap::new();
    for w in a.incidences.iter() {
        m.entry(w.category.clone())
            .or_default()
            .entry(w.month.clone())
            .or_default()
            .insert(w.municipality.clone(), w.count);
    }
    m
}

const ROBO: [&str; 9] = [
    "2020",
    "9",
    "Ciudad",
    "9015",
    "Alcaldía",
    "Patrimonio",
    "Robo",
    "Robo a transeúnte",
    "Con violencia",
];

#[test]
fn scenario_single_row_single_month() {
    let mut a = Aggregator::new();
    let r = with_months(ROBO, ["0", "0", "3", "0", "0", "0", "0", "0", "0", "0", "0", "0"]);
    assert!(matches!(a.add_row(&headers(), &r), Ok(true)));
    assert_eq!(a.dictionary.len(), 1);
    let c = &a.dictionary[0];
    assert_eq!(c.type_label, "Robo");
    assert_eq!(c.subtype_label, "Robo a transeúnte");
    assert_eq!(c.modality_label, "Con violencia");
    assert_eq!(c.type_code, "T01");
    assert_eq!(c.subtype_code, "S01");
    assert_eq!(c.modality_code, "M01");
    assert_eq!(c.code, "T01S01M01");
    let m = final_map(&a);
    assert_eq!(m.len(), 1);
    assert_eq!(m["T01S01M01"].len(), 1);
    assert_eq!(m["T01S01M01"]["2020-03"].len(), 1);
    assert_eq!(m["T01S01M01"]["2020-03"]["09015"], 3);
}

#[test]
fn scenario_zero_padding() {
    let mut f = ROBO;
    f[1] = "9";
    f[3] = "15";
    let r = with_months(f, ["1", "0", "0", "0", "0", "0", "0", "0", "0", "0", "0", "0"]);
    let rec = match Record::from_row(&headers(), &r) {
        Ok(rec) => rec,
        Err(_) => panic!("row should bind"),
    };
    assert_eq!(rec.state_code, "09");
    assert_eq!(rec.municipality_code, "00015");
    let mut a = Aggregator::new();
    a.ingest(&rec);
    assert_eq!(a.incidences[0].municipality, "00015");
    assert_eq!(a.incidences[0].month, "2020-01");
}

#[test]
fn scenario_numeric_coercion() {
    assert_eq!(only_positives("-1"), 0);
    assert_eq!(only_positives(""), 0);
    assert_eq!(only_positives("NA"), 0);
    let r = with_months(ROBO, ["-1", "", "NA", "0", "0", "0", "0", "0", "0", "0", "0", "2"]);
    let rec = match Record::from_row(&headers(), &r) {
        Ok(rec) => rec,
        Err(_) => panic!("row should bind"),
    };
    assert_eq!(rec.incidences(), vec![0, 0, 0, 0, 0, 0, 0, 0, 0, 0, 0, 2]);
    let mut a = Aggregator::new();
    a.ingest(&rec);
    assert_eq!(a.incidences.len(), 1);
    assert_eq!(a.incidences[0].month, "2020-12");
    assert_eq!(a.incidences[0].count, 2);
}

#[test]
fn scenario_three_categories_sharing_a_type() {
    let mut a = Aggregator::new();
    let pairs = [("Sub A", "Mod A"), ("Sub B", "Mod B"), ("Sub C", "Mod C")];
    for (s, m) in pairs.iter() {
        let mut f = ROBO;
        f[7] = *s;
        f[8] = *m;
        let r = with_months(f, ["1", "0", "0", "0", "0", "0", "0", "0", "0", "0", "0", "0"]);
        assert!(matches!(a.add_row(&headers(), &r), Ok(true)));
    }
    let codes: Vec<&str> = a.dictionary.iter().map(|c| c.code.as_str()).collect();
    assert_eq!(codes, vec!["T01S01M01", "T01S02M02", "T01S03M03"]);
    assert!(a.dictionary.iter().all(|c| c.type_code == "T01"));
    assert_eq!(final_map(&a).len(), 3);
}

#[test]
fn scenario_duplicate_triple_last_writer_wins() {
    let mut a = Aggregator::new();
    let first = with_months(ROBO, ["0", "4", "0", "0", "0", "0", "0", "0", "0", "0", "0", "0"]);
    let second = with_months(ROBO, ["0", "7", "0", "0", "0", "0", "0", "0", "0", "0", "0", "0"]);
    assert!(matches!(a.add_row(&headers(), &first), Ok(true)));
    assert!(matches!(a.add_row(&headers(), &second), Ok(true)));
    assert_eq!(a.dictionary.len(), 1);
    assert_eq!(final_map(&a)["T01S01M01"]["2020-02"]["09015"], 7);
}

#[test]
fn scenario_malformed_row_skipped() {
    let hs = headers();
    let mut f2 = ROBO;
    f2[6] = "Homicidio";
    let valid1 = raw_row(&[&ROBO[..], &["5", "0", "0", "0", "0", "0", "0", "0", "0", "0", "0", "0"][..]].concat());
    let valid2 = raw_row(&[&f2[..], &["0", "0", "0", "0", "0", "0", "0", "0", "0", "0", "0", "6"][..]].concat());
    let broken = raw_row(&["2020", "9", "Ciudad"]);

    let mut with_broken = Aggregator::new();
    assert!(matches!(with_broken.add_raw_row(&hs, &valid1), Ok(true)));
    assert!(matches!(with_broken.add_raw_row(&hs, &broken), Ok(false)));
    assert!(matches!(with_broken.add_raw_row(&hs, &valid2), Ok(true)));

    let mut clean = Aggregator::new();
    assert!(matches!(clean.add_raw_row(&hs, &valid1), Ok(true)));
    assert!(matches!(clean.add_raw_row(&hs, &valid2), Ok(true)));

    assert_eq!(final_map(&with_broken), final_map(&clean));
    let d1: Vec<&str> = with_broken.dictionary.iter().map(|c| c.code.as_str()).collect();
    let d2: Vec<&str> = clean.dictionary.iter().map(|c| c.code.as_str()).collect();
    assert_eq!(d1, d2);
    assert_eq!(d1, vec!["T01S01M01", "T02S01M01"]);
}

#[test]
fn decode_windows_1252_fields() {
    let raw = vec![vec![0x41, 0xF1, 0x6F], vec![0x80], vec![]];
    let text = recoder(&raw);
    assert_eq!(text, vec!["Año".to_string(), "€".to_string(), String::new()]);
}

#[test]
fn decode_then_encode_round_trip() {
    let bytes: Vec<u8> = (0x20u8..=0x7E).chain([0xE1, 0xE9, 0xED, 0xF3, 0xFA, 0xF1, 0xD1, 0x80]).collect();
    let text = recoder(&vec![bytes.clone()]);
    let back = encoding_rs::WINDOWS_1252.encode(&text[0]).0.into_owned();
    assert_eq!(back, bytes);
}

#[test]
fn raw_header_row_binds() {
    let header_bytes: Vec<Vec<u8>> = HEADER.iter().map(|h| windows_1252(h)).collect();
    let hs = recoder(&header_bytes);
    assert_eq!(hs, headers());
    let mut a = Aggregator::new();
    let r = raw_row(&[&ROBO[..], &["0", "0", "3", "0", "0", "0", "0", "0", "0", "0", "0", "0"][..]].concat());
    assert!(matches!(a.add_raw_row(&hs, &r), Ok(true)));
    assert_eq!(a.dictionary[0].subtype_label, "Robo a transeúnte");
    assert_eq!(a.incidences[0].municipality, "09015");
}

#[test]
fn all_zero_row_adds_category_only() {
    let mut a = Aggregator::new();
    let r = with_months(ROBO, ["0"; 12]);
    assert!(matches!(a.add_row(&headers(), &r), Ok(true)));
    assert_eq!(a.dictionary.len(), 1);
    assert_eq!(a.incidences.len(), 0);
}

#[test]
fn labels_differing_by_case_space_or_accent_are_distinct() {
    let mut a = Aggregator::new();
    for t in ["Robo", "robo", "Robo ", "Róbo"].iter() {
        let mut f = ROBO;
        f[6] = *t;
        let r = with_months(f, ["1", "0", "0", "0", "0", "0", "0", "0", "0", "0", "0", "0"]);
        assert!(matches!(a.add_row(&headers(), &r), Ok(true)));
    }
    let codes: Vec<&str> = a.dictionary.iter().map(|c| c.type_code.as_str()).collect();
    assert_eq!(codes, vec!["T01", "T02", "T03", "T04"]);
}

#[test]
fn code_width_grows_past_ninety_nine() {
    let mut a = Aggregator::new();
    for i in 0..100 {
        let label = format!("Tipo {}", i);
        let mut f: Vec<String> = ROBO.iter().map(|s| s.to_string()).collect();
        f[6] = label;
        f.extend(["1", "0", "0", "0", "0", "0", "0", "0", "0", "0", "0", "0"].iter().map(|s| s.to_string()));
        assert!(matches!(a.add_row(&headers(), &f), Ok(true)));
    }
    assert_eq!(a.dictionary[8].type_code, "T09");
    assert_eq!(a.dictionary[98].type_code, "T99");
    assert_eq!(a.dictionary[99].type_code, "T100");
    assert_eq!(a.dictionary[99].code, "T100S01M01");
}

#[test]
fn counts_parse_as_unsigned_integers() {
    assert_eq!(only_positives("12"), 12);
    assert_eq!(only_positives("+5"), 5);
    assert_eq!(only_positives("007"), 7);
    assert_eq!(only_positives("4294967295"), 4294967295);
    assert_eq!(only_positives("4294967296"), 0);
    assert_eq!(only_positives(" 3"), 0);
    assert_eq!(only_positives("3.5"), 0);
    assert_eq!(only_positives("+"), 0);
    assert_eq!(parse_count("42"), Some(42));
    assert_eq!(parse_count("x"), None);
}

#[test]
fn text_formatting() {
    assert_eq!(decimal_string(0), "0");
    assert_eq!(decimal_string(2020), "2020");
    assert_eq!(left_pad_zeros("7", 2), "07");
    assert_eq!(left_pad_zeros("123", 2), "123");
    assert_eq!(left_pad_zeros("", 5), "00000");
    assert_eq!(month_string(2020, 3), "2020-03");
    assert_eq!(month_string(2021, 12), "2021-12");
}

#[test]
fn missing_column_is_an_error() {
    let mut hs = headers();
    hs[5] = "Bien".to_string();
    let r = with_months(ROBO, ["0"; 12]);
    match Record::from_row(&hs, &r) {
        Err(BindError::MissingColumn(name)) => assert_eq!(name, "Bien jurídico afectado"),
        _ => panic!("expected a missing column"),
    }
    let mut a = Aggregator::new();
    assert!(matches!(a.add_row(&hs, &r), Err(BindError::MissingColumn(_))));
    assert_eq!(a.dictionary.len(), 0);
}

#[test]
fn invalid_year_is_an_error() {
    let mut f = ROBO;
    f[0] = "dos mil";
    let r = with_months(f, ["1"; 12]);
    match Record::from_row(&headers(), &r) {
        Err(BindError::InvalidYear(v)) => assert_eq!(v, "dos mil"),
        _ => panic!("expected an invalid year"),
    }
}

#[test]
fn field_count_mismatch_is_reported() {
    let r = row(&["2020", "9"]);
    assert!(matches!(Record::from_row(&headers(), &r), Err(BindError::FieldCount)));
}

#[test]
fn columns_bind_by_name_in_any_order() {
    let mut hs = headers();
    hs.reverse();
    let mut r = with_months(ROBO, ["0", "0", "3", "0", "0", "0", "0", "0", "0", "0", "0", "0"]);
    r.reverse();
    let mut a = Aggregator::new();
    assert!(matches!(a.add_row(&hs, &r), Ok(true)));
    assert_eq!(a.dictionary[0].code, "T01S01M01");
    assert_eq!(final_map(&a)["T01S01M01"]["2020-03"]["09015"], 3);
}

#[test]
fn same_input_same_output() {
    let rows = [
        with_months(ROBO, ["1", "2", "0", "0", "0", "0", "0", "0", "0", "0", "0", "0"]),
        with_months(ROBO, ["0", "0", "0", "0", "0", "9", "0", "0", "0", "0", "0", "0"]),
    ];
    let mut a = Aggregator::new();
    let mut b = Aggregator::new();
    for r in rows.iter() {
        assert!(matches!(a.add_row(&headers(), r), Ok(true)));
        assert!(matches!(b.add_row(&headers(), r), Ok(true)));
    }
    assert_eq!(final_map(&a), final_map(&b));
    let d1: Vec<&str> = a.dictionary.iter().map(|c| c.code.as_str()).collect();
    let d2: Vec<&str> = b.dictionary.iter().map(|c| c.code.as_str()).collect();
    assert_eq!(d1, d2);
}

#[test]
fn rerun_keeps_dictionary() {
    let mut f = ROBO;
    f[6] = "Homicidio";
    let rows = [
        with_months(ROBO, ["1", "0", "0", "0", "0", "0", "0", "0", "0", "0", "0", "0"]),
        with_months(f, ["0", "0", "0", "0", "0", "0", "0", "0", "0", "0", "0", "1"]),
    ];
    let mut a = Aggregator::new();
    for r in rows.iter() {
        assert!(matches!(a.add_row(&headers(), r), Ok(true)));
    }
    let before: Vec<String> = a.dictionary.iter().map(|c| c.code.clone()).collect();
    for r in rows.iter() {
        assert!(matches!(a.add_row(&headers(), r), Ok(true)));
    }
    let after: Vec<String> = a.dictionary.iter().map(|c| c.code.clone()).collect();
    assert_eq!(before, after);
}

#[test]
fn map_categories_are_in_dictionary_and_counts_nonzero() {
    let mut a = Aggregator::new();
    let mut f = ROBO;
    f[8] = "Sin violencia";
    for r in [
        with_months(ROBO, ["1", "0", "2", "0", "0", "0", "0", "0", "0", "0", "0", "0"]),
        with_months(f, ["0", "0", "0", "5", "0", "0", "0", "0", "0", "0", "0", "0"]),
    ]
    .iter()
    {
        assert!(matches!(a.add_row(&headers(), r), Ok(true)));
    }
    let m = final_map(&a);
    for (cat, months) in m.iter() {
        assert_eq!(a.dictionary.iter().filter(|c| &c.code == cat).count(), 1);
        for (ym, muns) in months.iter() {
            assert_eq!(ym.len(), 7);
            for v in muns.values() {
                assert!(*v > 0);
            }
        }
    }
}
