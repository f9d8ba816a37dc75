use datakit::beacon::deneb::signed_beacon_block::csv_processor::{CsvError, CsvProcessor};
use datakit::beacon::deneb::signed_beacon_block::field_rows::DataProcessor as FieldRows;
use datakit::beacon::deneb::signed_beacon_block::category_records::{DataProcessor as CategoryRecords, DataRecord as CategoryRecord};
use datakit::beacon::deneb::signed_beacon_block::record_catalog::{DataProcessor as Catalog, DataRecord as CatalogRecord};
use datakit::beacon::deneb::signed_beacon_block::ssz_random::csv_data_processor::CsvProcessor as Table;
use datakit::beacon::deneb::signed_beacon_block::ssz_random::csv_processor::CsvProcessor as ColumnFilter;
use datakit::beacon::deneb::signed_beacon_block::ssz_random::case_0::delimited_file::DataProcessor as DelimitedFile;
use datakit::beacon::deneb::signed_beacon_block::ssz_random::case_0::people::{DataProcessor as People, Record as Person};
use datakit::beacon::deneb::signed_beacon_block::ssz_random::numeric_input::{numeric_lines, validate_input};
use datakit::era1::csv_rows::DataProcessor as CsvRows;
use datakit::era1::value_records::{DataProcessor as ValueRecords, DataRecord as ValueRecord};
use datakit::geth_batch::csv_processor::{count_active, process_csv_file as read_flagged, CsvRecord};
use datakit::geth_batch::data_processor::DataProcessor as RowProcessor;
use datakit::infura_batch::table_records::DataProcessor as MapRecords;
use datakit::csv_processor::{process_csv_file, Record};

fn lines(v: &[&str]) -> Result<Vec<Result<String, String>>, String> {
    Ok(v.iter().map(|l| Ok(l.to_string())).collect())
}

fn parse_f64(s: &str) -> Option<f64> {
    s.parse::<f64>().ok()
}

#[test]
fn test_valid_csv() {
    let processor = CsvProcessor::new(',', true);
    let records = processor.process_file(lines(&["name,age,city", "John,30,New York", "Alice,25,London"])).unwrap();
    assert_eq!(records.len(), 3);
    assert_eq!(records[0], vec!["name", "age", "city"]);
}

#[test]
fn test_invalid_header() {
    let processor = CsvProcessor::new(',', true);
    let result = processor.process_file(lines(&["name,,city"]));
    assert!(matches!(result, Err(CsvError::InvalidHeader(_))));
}

#[test]
fn test_missing_field() {
    let processor = CsvProcessor::new(',', true);
    let records = processor.process_file(lines(&["name,age,city", "John,30"])).unwrap();
    let validation_result = processor.validate_records(&records);
    assert!(matches!(validation_result, Err(CsvError::ParseError(_, _))));
}

#[test]
fn test_process_file_with_header() {
    let processor = FieldRows::new(',', true);
    let result = processor.process_file(lines(&["name,age,city", "John,30,New York", "Alice,25,London"])).unwrap();
    assert_eq!(result.len(), 2);
    assert_eq!(result[0], vec!["John", "30", "New York"]);
}

#[test]
fn field_rows_errors() {
    let processor = FieldRows::new(',', false);
    let err = processor.process_file(lines(&["a,b", "c,,d"])).unwrap_err();
    assert_eq!(err, "Empty field detected at line 2");
    assert_eq!(processor.validate_records(&[]).unwrap_err(), "No records to validate");
    let rows = vec![vec!["a".to_string(), "b".to_string()], vec!["c".to_string()]];
    assert_eq!(processor.validate_records(&rows).unwrap_err(), "Record 2 has 1 fields, expected 2");
    assert_eq!(processor.process_file(Err("gone".to_string())).unwrap_err(), "gone");
}

#[test]
fn data_processor_test_data_processor() {
    let mut processor = Catalog::new();
    processor.add_record(CatalogRecord {
        id: 1,
        name: "Test Record".to_string(),
        value: 42.5f64,
        category: "Test".to_string(),
        timestamp: "2024-01-15T10:30:00Z".to_string(),
    });
    assert_eq!(processor.get_records().len(), 1);
    let sum: f64 = processor.get_records().iter().map(|r| r.value).sum();
    assert_eq!(Some(sum / processor.get_records().len() as f64), Some(42.5));
    let filtered = processor.filter_by_category("Test");
    assert_eq!(filtered.len(), 1);
    let errors = processor.validate_records(|v: &f64| *v < 0.0);
    assert!(errors.is_empty());
}

#[test]
fn catalog_reports_each_problem() {
    let mut processor = Catalog::new();
    processor.add_record(CatalogRecord {
        id: 7,
        name: "  ".to_string(),
        value: -1.0f64,
        category: "".to_string(),
        timestamp: "t".to_string(),
    });
    let errors = processor.validate_records(|v: &f64| *v < 0.0);
    assert_eq!(
        errors,
        vec![
            (0, "Name cannot be empty".to_string()),
            (0, "Value cannot be negative".to_string()),
            (0, "Category cannot be empty".to_string()),
        ]
    );
    processor.clear();
    assert_eq!(processor.get_records().len(), 0);
}

#[test]
fn category_records_data_processor() {
    let mut processor = CategoryRecords::new();
    assert_eq!(processor.get_record_count(), 0);
    let count = processor
        .load_from_csv(lines(&["id,value,category", "1,10.5,type_a", "2,20.3,type_b", "3,15.7,type_a"]))
        .unwrap();
    assert_eq!(count, 3);
    assert_eq!(processor.get_record_count(), 3);
    let type_a_records = processor.filter_by_category("type_a");
    assert_eq!(type_a_records.len(), 2);
    let values: Vec<f64> = processor.get_records().iter().map(|r| r.value.parse::<f64>().unwrap()).collect();
    let average = values.iter().sum::<f64>() / values.len() as f64;
    assert!((average - 15.5).abs() < 0.001);
    let max_record = processor
        .get_records()
        .iter()
        .max_by(|a, b| a.value.parse::<f64>().unwrap().partial_cmp(&b.value.parse::<f64>().unwrap()).unwrap())
        .unwrap();
    assert_eq!(max_record.id, 2);
}

#[test]
fn category_records_pass_over_bad_lines() {
    let rec: Option<CategoryRecord> = CategoryRecord::from_line("x,1.0,a");
    assert!(rec.is_none());
    assert!(CategoryRecord::from_line("1,abc,a").is_none());
    assert!(CategoryRecord::from_line("1,2.0,   ").is_none());
    let r = CategoryRecord::from_line("4,1e3, b ").unwrap();
    assert_eq!((r.id, r.value.as_str(), r.category.as_str()), (4, "1e3", "b"));
}

#[test]
fn csv_data_processor_test_csv_processing() {
    let processor = Table::from_file(lines(&["name,age,city", "Alice,30,New York", "Bob,25,London", "Charlie,35,Paris"]))
        .expect("Failed to read CSV");
    assert_eq!(processor.header_count(), 3);
    assert_eq!(processor.record_count(), 3);
    let ages = processor.get_column("age").unwrap();
    assert_eq!(ages, vec!["30", "25", "35"]);
    let young_people = processor.filter_records(|record| {
        record.get(1).and_then(|age| age.parse::<i32>().ok()).map_or(false, |age| age < 30)
    });
    assert_eq!(young_people.len(), 1);
    assert_eq!(young_people[0][0], "Bob");
}

#[test]
fn table_edge_cases() {
    assert_eq!(Table::from_file(lines(&[])).err().unwrap(), "Empty CSV file");
    let t = Table::from_file(lines(&["a,b", "1", "2,3"])).unwrap();
    assert_eq!(t.record_count(), 1);
    assert!(t.get_column("c").is_none());
}

#[test]
fn test_filter_by_column_value() {
    let processor = ColumnFilter::new("data.csv", ',');
    let result = processor
        .filter_by_column_value(lines(&["name,age,city", "Alice,30,New York", "Bob,25,London", "Charlie,30,Paris"]), 1, "30")
        .unwrap();
    assert_eq!(result.len(), 2);
    assert_eq!(result[0][0], "Alice");
    assert_eq!(result[1][0], "Charlie");
}

#[test]
fn test_count_rows() {
    let processor = ColumnFilter::new("data.csv", ',');
    let count = processor.count_rows(lines(&["header1,header2", "value1,value2", "value3,value4"])).unwrap();
    assert_eq!(count, 3);
}

#[test]
fn data_processor_test_data_processing() {
    let processor = DelimitedFile::new(',', true);
    let data = processor
        .process_file(lines(&["name,age,salary", "Alice,30,50000.0", "Bob,25,45000.0", "Charlie,35,55000.0"]))
        .unwrap();
    assert_eq!(data.len(), 3);
    assert_eq!(data[0], vec!["Alice", "30", "50000.0"]);
}

#[test]
fn test_statistics_calculation() {
    let data = vec![vec!["50000.0".to_string()], vec!["45000.0".to_string()], vec!["55000.0".to_string()]];
    let processor = DelimitedFile::new(',', false);
    let column = processor.numeric_column(&data, 0).unwrap();
    let values: Vec<f64> = column.iter().map(|v| v.parse::<f64>().unwrap()).collect();
    let mean = values.iter().sum::<f64>() / values.len() as f64;
    let variance = values.iter().map(|x| (x - mean).powi(2)).sum::<f64>() / values.len() as f64;
    assert!((mean - 50000.0).abs() < 0.01);
    assert!(variance.sqrt() > 0.0);
}

#[test]
fn delimited_file_errors() {
    let processor = DelimitedFile::new(',', false);
    assert_eq!(processor.process_file(lines(&["", "a,,b"])).unwrap_err(), "Invalid record at line 2");
    assert_eq!(processor.numeric_column(&[], 0).unwrap_err(), "No data available for statistics");
    let data = vec![vec!["x".to_string()]];
    assert_eq!(processor.numeric_column(&data, 1).unwrap_err(), "Column index 1 out of bounds");
    assert_eq!(processor.numeric_column(&data, 0).unwrap_err(), "Invalid numeric value at column 0");
}

#[test]
fn people_filters() {
    let mut p = People::new();
    p.records.push(Person { id: 1, name: "A".to_string(), age: 30, active: true });
    p.records.push(Person { id: 2, name: "B".to_string(), age: 45, active: false });
    p.records.push(Person { id: 3, name: "C".to_string(), age: 25, active: true });
    let active: Vec<u32> = p.filter_active().iter().map(|r| r.id).collect();
    assert_eq!(active, vec![1, 3]);
    let aged: Vec<u32> = p.filter_by_age(25, 40).iter().map(|r| r.id).collect();
    assert_eq!(aged, vec![1, 3]);
}

#[test]
fn data_processor_test_csv_loading() {
    let values = numeric_lines(lines(&["1.5", " 2.5 ", "not a number", "3"])).unwrap();
    assert_eq!(values, vec!["1.5", "2.5", "3"]);
}

#[test]
fn numeric_input_checks() {
    assert_eq!(validate_input("1, 2.5,3").unwrap(), vec!["1", "2.5", "3"]);
    assert_eq!(validate_input("1,x").unwrap_err(), "Failed to parse input as numbers");
    assert_eq!(validate_input("").unwrap_err(), "Failed to parse input as numbers");
}

#[test]
fn data_processor_test_csv_processing() {
    let processor = CsvRows::new(',', true);
    let result = processor.process_csv(lines(&["name,age,city", "Alice,30,New York", "Bob,25,London"])).unwrap();
    assert_eq!(result.len(), 2);
    assert_eq!(result[0], vec!["Alice", "30", "New York"]);
    assert_eq!(result[1], vec!["Bob", "25", "London"]);
}

#[test]
fn data_processor_test_record_validation() {
    let processor = CsvRows::new(',', false);
    let valid_record = vec!["data1".to_string(), "data2".to_string()];
    let invalid_record = vec!["".to_string(), "data2".to_string()];
    assert!(processor.validate_record(&valid_record, 2));
    assert!(!processor.validate_record(&invalid_record, 2));
}

#[test]
fn test_column_extraction() {
    let data = vec![
        vec!["a".to_string(), "b".to_string(), "c".to_string()],
        vec!["d".to_string(), "e".to_string(), "f".to_string()],
    ];
    let processor = CsvRows::new(',', false);
    let column = processor.extract_column(&data, 1);
    assert_eq!(column, vec!["b".to_string(), "e".to_string()]);
}

#[test]
fn data_processor_test_data_record_validation() {
    let valid_record = ValueRecord::new(1, 42.5f64, "category_a".to_string(), "2024-01-01".to_string());
    assert!(valid_record.is_valid(|v: &f64| v.is_finite()));
    let invalid_record = ValueRecord::new(2, f64::NAN, "".to_string(), "2024-01-01".to_string());
    assert!(!invalid_record.is_valid(|v: &f64| v.is_finite()));
}

#[test]
fn value_records_csv_loading() {
    let mut processor: ValueRecords<f64> = ValueRecords::new();
    let result = processor.load_from_csv(
        lines(&["id,value,category,timestamp", "1,100.0,type_a,2024-01-01", "2,200.0,type_b,2024-01-02", "3,invalid,type_c,2024-01-03"]),
        parse_f64,
        |v: &f64| v.is_finite(),
    );
    assert!(result.is_ok());
    assert_eq!(processor.count_records(), 2);
}

#[test]
fn test_filtering() {
    let mut processor = ValueRecords::new();
    processor.push_record(ValueRecord::new(1, 10.0f64, "alpha".to_string(), "ts1".to_string()));
    processor.push_record(ValueRecord::new(2, 20.0f64, "beta".to_string(), "ts2".to_string()));
    processor.push_record(ValueRecord::new(3, 30.0f64, "alpha".to_string(), "ts3".to_string()));
    let filtered = processor.filter_by_category("alpha");
    assert_eq!(filtered.len(), 2);
}

#[test]
fn csv_processor_test_csv_processing() {
    let (records, notes) =
        process_csv_file(lines(&["id,name,value,category", "1,Item1,10.5,CategoryA", "2,Item2,20.3,CategoryB", "3,Item3,15.7,CategoryA"]))
            .unwrap();
    assert_eq!(records.len(), 3);
    assert!(notes.is_empty());
    assert_eq!(records[0].category, "CategoryA");
    assert_eq!(records[1].value.parse::<f64>().unwrap(), 20.3);
}

#[test]
fn test_record_parsing() {
    let record = Record::from_line("1,ProductA,25.5,Electronics").unwrap();
    assert_eq!(record.id, 1);
    assert_eq!(record.name, "ProductA");
    assert_eq!(record.value.parse::<f64>().unwrap(), 25.5);
    assert_eq!(record.category, "Electronics");
}

#[test]
fn flagged_records_and_notes() {
    let (records, notes) = read_flagged(lines(&["1,a,2.5,true", "", "2,b,x,false", "3,c,1,maybe", "4,d,0,false"])).unwrap();
    assert_eq!(records.len(), 2);
    assert_eq!(count_active(&records), 1);
    assert_eq!(
        notes,
        vec![
            "Error parsing line 3: invalid float literal".to_string(),
            "Error parsing line 4: provided string was not `true` or `false`".to_string(),
        ]
    );
    assert_eq!(CsvRecord::from_line("9,z,7").unwrap_err(), "Invalid number of fields");
    let r = CsvRecord::from_line("9,z,7.0,true").unwrap();
    assert!(r.active);
}

#[test]
fn rows_trimmed_filtered_and_numeric() {
    let p = RowProcessor::new("data.csv");
    let rows = p
        .process_rows(Ok(vec![
            Ok(vec![" a ".to_string(), "1.5".to_string()]),
            Ok(vec![" ".to_string(), "".to_string()]),
            Ok(vec!["bb".to_string(), "x".to_string()]),
        ]))
        .unwrap();
    assert_eq!(rows, vec![vec!["a", "1.5"], vec!["bb", "x"]]);
    assert_eq!(p.filter_records(rows.clone(), 0, "b"), vec![vec!["bb", "x"]]);
    assert_eq!(p.numeric_values(&rows, 1), vec!["1.5"]);
    assert_eq!(p.file_path(), "data.csv");
}

#[test]
fn rows_read_from_csv_bytes() {
    let p = RowProcessor::new("data.csv");
    let bytes = b"name,value\n a ,1.5\n , \nbb,x\n".to_vec();
    let rows = p.process(&Ok(bytes)).unwrap();
    assert_eq!(rows, vec![vec!["a", "1.5"], vec!["bb", "x"]]);
    let uneven = b"a,b\n1,2\n3\n".to_vec();
    assert!(p.process(&Ok(uneven)).is_err());
    assert_eq!(p.process(&Err("No such file".to_string())).err(), Some("No such file".to_string()));
}

#[test]
fn table_records_data_processor() {
    let mut processor = MapRecords::new();
    let result = processor.load_csv(lines(&["name,age,salary", "Alice,30,50000", "Bob,25,45000", "Charlie,35,60000"]));
    assert!(result.is_ok());
    assert_eq!(processor.get_record_count(), 3);
    assert_eq!(processor.count_unique_values("name"), 3);
    let filtered = processor.filter_records(|record| {
        record.iter().find(|(k, _)| k == "age").and_then(|(_, a)| a.parse::<i32>().ok()).unwrap_or(0) > 30
    });
    assert_eq!(filtered.len(), 1);
    assert_eq!(processor.get_column_names(), vec!["name", "age", "salary"]);
}

#[test]
fn category_records_keep_what_was_read_before_an_error() {
    let mut processor = CategoryRecords::new();
    let read: Result<Vec<Result<String, String>>, String> = Ok(vec![
        Ok("id,value,category".to_string()),
        Ok("1,10.5,type_a".to_string()),
        Err("stream did not contain valid UTF-8".to_string()),
        Ok("2,20.3,type_b".to_string()),
    ]);
    assert_eq!(processor.load_from_csv(read).err(), Some("stream did not contain valid UTF-8".to_string()));
    assert_eq!(processor.get_record_count(), 1);
}
