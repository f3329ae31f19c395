use record_csv::{
    convert_to_csv, decimal_bytes, decode_records, encode_records, record_fields, response_for,
    ConvertError, CsvResponse, JsonValue, Record,
};

fn text(s: &str) -> JsonValue {
    JsonValue::Text(s.to_string())
}

fn object(members: Vec<(&str, JsonValue)>) -> JsonValue {
    JsonValue::Object(members.into_iter().map(|(k, v)| (k.to_string(), v)).collect())
}

fn record_json(id: u64, title: &str, description: &str, status: &str, created_at: &str) -> JsonValue {
    object(vec![
        ("id", JsonValue::Unsigned(id)),
        ("title", text(title)),
        ("description", text(description)),
        ("status", text(status)),
        ("created_at", text(created_at)),
    ])
}

fn record(id: u32, title: &str, description: &str, status: &str, created_at: &str) -> Record {
    Record {
        id,
        title: title.to_string(),
        description: description.to_string(),
        status: status.to_string(),
        created_at: created_at.to_string(),
    }
}

fn body_text(r: &CsvResponse) -> String {
    String::from_utf8(r.body.clone()).unwrap()
}

fn assert_rejected(r: &CsvResponse) {
    assert_eq!(r.status, 400);
    assert!(r.body.is_empty());
    assert!(r.headers.is_empty());
}

const HEADER: &str = "id,title,description,status,created_at\n";

#[test]
fn end_to_end_single_record() {
    let body = JsonValue::Array(vec![record_json(1, "T", "D", "open", "2024-01-01")]);
    let r = convert_to_csv(Some(body));
    assert_eq!(r.status, 200);
    assert_eq!(
        r.headers,
        vec![
            ("content-type", "text/csv"),
            ("content-disposition", "attachment; filename=\"data.csv\""),
        ]
    );
    assert_eq!(body_text(&r), "id,title,description,status,created_at\n1,T,D,open,2024-01-01\n");
}

#[test]
fn empty_array_gives_header_only() {
    let r = convert_to_csv(Some(JsonValue::Array(vec![])));
    assert_eq!(r.status, 200);
    assert_eq!(body_text(&r), HEADER);
    assert_eq!(body_text(&r).lines().count(), 1);
}

#[test]
fn object_body_is_rejected() {
    let r = convert_to_csv(Some(record_json(1, "T", "D", "open", "2024-01-01")));
    assert_rejected(&r);
}

#[test]
fn malformed_body_is_rejected() {
    assert_rejected(&convert_to_csv(None));
}

#[test]
fn missing_status_rejects_whole_array() {
    let lacking = object(vec![
        ("id", JsonValue::Unsigned(2)),
        ("title", text("B")),
        ("description", text("d")),
        ("created_at", text("2024-01-02")),
    ]);
    let body = JsonValue::Array(vec![record_json(1, "A", "d", "open", "2024-01-01"), lacking]);
    let r = convert_to_csv(Some(body));
    assert_rejected(&r);
}

#[test]
fn id_must_fit_u32() {
    let ok = JsonValue::Array(vec![record_json(4294967295, "a", "b", "c", "d")]);
    let r = convert_to_csv(Some(ok));
    assert_eq!(r.status, 200);
    assert_eq!(body_text(&r), format!("{}4294967295,a,b,c,d\n", HEADER));

    let too_big = JsonValue::Array(vec![record_json(4294967296, "a", "b", "c", "d")]);
    assert_eq!(decode_records(&too_big).err(), Some(ConvertError::InvalidInput));
}

#[test]
fn id_of_wrong_kind_is_rejected() {
    for id in [JsonValue::Negative(-1), JsonValue::OtherNumber, text("1"), JsonValue::Null, JsonValue::Bool(true)] {
        let body = JsonValue::Array(vec![object(vec![
            ("id", id),
            ("title", text("a")),
            ("description", text("b")),
            ("status", text("c")),
            ("created_at", text("d")),
        ])]);
        assert_eq!(decode_records(&body).err(), Some(ConvertError::InvalidInput));
    }
}

#[test]
fn text_field_of_wrong_type_is_rejected() {
    let body = JsonValue::Array(vec![object(vec![
        ("id", JsonValue::Unsigned(1)),
        ("title", text("a")),
        ("description", JsonValue::Unsigned(5)),
        ("status", text("c")),
        ("created_at", text("d")),
    ])]);
    assert_rejected(&convert_to_csv(Some(body)));
}

#[test]
fn element_that_is_not_an_object_is_rejected() {
    let body = JsonValue::Array(vec![JsonValue::Array(vec![])]);
    assert_eq!(decode_records(&body).err(), Some(ConvertError::InvalidInput));
}

#[test]
fn extra_members_are_ignored_and_order_kept() {
    let first = object(vec![
        ("note", text("ignored")),
        ("created_at", text("2024-03-01")),
        ("status", text("done")),
        ("description", text("")),
        ("title", text("first")),
        ("id", JsonValue::Unsigned(7)),
    ]);
    let body = JsonValue::Array(vec![first, record_json(7, "second", "x", "", "")]);
    let recs = decode_records(&body).unwrap();
    assert_eq!(recs.len(), 2);
    assert_eq!(recs[0].id, 7);
    assert_eq!(recs[0].title, "first");
    assert_eq!(recs[0].description, "");
    assert_eq!(recs[1].title, "second");
    let r = convert_to_csv(Some(body));
    assert_eq!(body_text(&r), format!("{}7,first,,done,2024-03-01\n7,second,x,,\n", HEADER));
}

#[test]
fn escaping_comma_quote_newline() {
    let recs = vec![record(3, "he said, \"hi\"\n", "plain", "a\rb", "")];
    let out = String::from_utf8(encode_records(&recs).unwrap()).unwrap();
    assert_eq!(out, format!("{}3,\"he said, \"\"hi\"\"\n\",plain,\"a\rb\",\n", HEADER));
}

#[test]
fn encoding_is_repeatable() {
    let recs = vec![record(1, "x,y", "\"q\"", "open", "2024"), record(2, "", "", "", "")];
    let a = encode_records(&recs).unwrap();
    let b = encode_records(&recs).unwrap();
    assert_eq!(a, b);
}

#[test]
fn one_line_per_record() {
    let recs = vec![
        record(1, "a", "b", "c", "d"),
        record(2, "e", "f", "g", "h"),
        record(3, "i", "j", "k", "l"),
    ];
    let out = String::from_utf8(encode_records(&recs).unwrap()).unwrap();
    let lines: Vec<&str> = out.lines().collect();
    assert_eq!(lines, vec!["id,title,description,status,created_at", "1,a,b,c,d", "2,e,f,g,h", "3,i,j,k,l"]);
}

#[test]
fn round_trip_through_csv_reader() {
    let recs = vec![
        record(0, "he said, \"hi\"\n", "multi\r\nline", "", "2024-01-01"),
        record(42, "ünïcødé ✓", "\"", ",", "   spaced  "),
    ];
    let out = encode_records(&recs).unwrap();
    let mut reader = csv::ReaderBuilder::new().has_headers(false).from_reader(out.as_slice());
    let rows: Vec<Vec<String>> = reader
        .records()
        .map(|r| r.unwrap().iter().map(|f| f.to_string()).collect())
        .collect();
    assert_eq!(rows.len(), recs.len() + 1);
    assert_eq!(rows[0], vec!["id", "title", "description", "status", "created_at"]);
    for (row, rec) in rows[1..].iter().zip(recs.iter()) {
        assert_eq!(row[0].parse::<u32>().unwrap(), rec.id);
        assert_eq!(row[1], rec.title);
        assert_eq!(row[2], rec.description);
        assert_eq!(row[3], rec.status);
        assert_eq!(row[4], rec.created_at);
    }
}

#[test]
fn decimal_digits() {
    assert_eq!(decimal_bytes(0), b"0".to_vec());
    assert_eq!(decimal_bytes(9), b"9".to_vec());
    assert_eq!(decimal_bytes(10), b"10".to_vec());
    assert_eq!(decimal_bytes(4294967295), b"4294967295".to_vec());
}

#[test]
fn fields_of_a_record() {
    let f = record_fields(&record(105, "t", "ü", "s", "c"));
    assert_eq!(
        f,
        vec![b"105".to_vec(), b"t".to_vec(), "ü".as_bytes().to_vec(), b"s".to_vec(), b"c".to_vec()]
    );
}

#[test]
fn replies_for_each_outcome() {
    let ok = response_for(Ok(b"x\n".to_vec()));
    assert_eq!(ok.status, 200);
    assert_eq!(ok.body, b"x\n".to_vec());
    assert_eq!(ok.headers.len(), 2);
    let bad = response_for(Err(ConvertError::InvalidInput));
    assert_rejected(&bad);
    let internal = response_for(Err(ConvertError::Internal));
    assert_eq!(internal.status, 500);
    assert!(internal.body.is_empty());
}

#[test]
fn replies_are_repeatable() {
    let make = || JsonValue::Array(vec![
        record_json(5, "a,\"b\"", "c\nd", "open", "2024"),
        record_json(5, "a,\"b\"", "c\nd", "open", "2024"),
    ]);
    let first = convert_to_csv(Some(make()));
    let second = convert_to_csv(Some(make()));
    assert_eq!(first.status, 200);
    assert_eq!(first.status, second.status);
    assert_eq!(first.headers, second.headers);
    assert_eq!(first.body, second.body);
    assert_eq!(
        body_text(&first),
        format!("{}5,\"a,\"\"b\"\"\",\"c\nd\",open,2024\n5,\"a,\"\"b\"\"\",\"c\nd\",open,2024\n", HEADER)
    );
}
