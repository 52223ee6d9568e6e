use department::{
    check_file_exists, list, parse_age, query, read_rows, record_row, search,
    store_header, CsvRows, Employee, FileError, Predicate, QueryError,
};

fn salary_flags(rows: &CsvRows) -> Vec<bool> {
    rows.rows
        .iter()
        .map(|r| r.get(3).map_or(false, |s| s.parse::<f64>().is_ok()))
        .collect()
}

fn employee(department: &str, name: &str, age: u8, salary: &str) -> Employee {
    Employee::new(department.to_string(), name.to_string(), age, salary.to_string())
}

fn store_with(records: &[Employee]) -> Vec<u8> {
    let mut data = store_header().into_bytes();
    for e in records {
        data.extend(record_row(e).unwrap());
    }
    data
}

fn run(data: &[u8], pred: &Predicate) -> department::QueryOutcome {
    let rows = read_rows(data);
    let flags = salary_flags(&rows);
    query(&rows, &flags, pred)
}

#[test]
fn path_usable_when_extension_and_file_exist() {
    assert_eq!(check_file_exists("deps.csv", true), Ok(true));
    assert_eq!(check_file_exists("dir/data.txt", true), Ok(true));
}

#[test]
fn path_empty_name() {
    assert_eq!(check_file_exists("", false), Err(FileError::NameIsEmpty));
    assert_eq!(check_file_exists("", true), Err(FileError::NameIsEmpty));
}

#[test]
fn path_without_extension() {
    assert_eq!(check_file_exists("noext", true), Err(FileError::InvalidExtension));
    assert_eq!(check_file_exists("noext", false), Err(FileError::InvalidExtension));
}

#[test]
fn path_missing_file() {
    assert_eq!(check_file_exists("missing.csv", false), Err(FileError::NotExists));
}

#[test]
fn new_store_has_header_and_no_records() {
    let header = store_header();
    assert_eq!(header, "department,name,age,salary\n");
    let out = run(header.as_bytes(), &Predicate::All);
    assert_eq!(out.count(), 0);
    assert_eq!(out.error, None);
}

#[test]
fn append_then_query_all_round_trips() {
    let data = store_with(&[employee("Eng", "Ada", 36, "5000.5")]);
    let out = run(&data, &Predicate::All);
    assert_eq!(out.error, None);
    assert_eq!(out.count(), 1);
    let e = &out.matches[0];
    assert_eq!(e.department, "Eng");
    assert_eq!(e.name, "Ada");
    assert_eq!(e.age, 36);
    assert_eq!(e.salary, "5000.5");
}

#[test]
fn records_come_back_in_write_order() {
    let data = store_with(&[
        employee("Eng", "Ada", 36, "1.0"),
        employee("Sales", "Bob", 40, "2.0"),
        employee("Eng", "Cy", 22, "3.0"),
    ]);
    let out = run(&data, &Predicate::All);
    let names: Vec<&str> = out.matches.iter().map(|e| e.name.as_str()).collect();
    assert_eq!(names, vec!["Ada", "Bob", "Cy"]);
}

#[test]
fn department_filter_counts_matches() {
    let data = store_with(&[
        employee("Eng", "Ada", 36, "1.0"),
        employee("Eng", "Bob", 40, "2.0"),
        employee("Sales", "Cy", 22, "3.0"),
    ]);
    let rows = read_rows(&data);
    let flags = salary_flags(&rows);
    let out = list(&rows, &flags, Some("Eng".to_string()));
    assert_eq!(out.count(), 2);
    assert_eq!(out.error, None);
    assert!(out.matches.iter().all(|e| e.department == "Eng"));
}

#[test]
fn department_filter_is_case_sensitive() {
    let data = store_with(&[employee("Eng", "Ada", 36, "1.0")]);
    let out = run(&data, &Predicate::DepartmentEquals("eng".to_string()));
    assert_eq!(out.count(), 0);
}

#[test]
fn search_without_match_is_no_match() {
    let data = store_with(&[employee("Eng", "Ada", 36, "1.0")]);
    let rows = read_rows(&data);
    let flags = salary_flags(&rows);
    let out = search(&rows, &flags, &"Nobody".to_string());
    assert_eq!(out.count(), 0);
    assert_eq!(out.error, Some(QueryError::NoMatch));
}

#[test]
fn search_finds_every_record_with_the_name() {
    let data = store_with(&[
        employee("Eng", "Ada", 36, "1.0"),
        employee("Sales", "Ada", 50, "2.0"),
        employee("Sales", "Bob", 40, "3.0"),
    ]);
    let rows = read_rows(&data);
    let flags = salary_flags(&rows);
    let out = search(&rows, &flags, &"Ada".to_string());
    assert_eq!(out.count(), 2);
    assert_eq!(out.error, None);
}

#[test]
fn list_without_match_is_empty_success() {
    let data = store_with(&[employee("Eng", "Ada", 36, "1.0")]);
    let rows = read_rows(&data);
    let flags = salary_flags(&rows);
    let out = list(&rows, &flags, Some("HR".to_string()));
    assert_eq!(out.count(), 0);
    assert_eq!(out.error, None);
}

#[test]
fn list_of_empty_store_is_empty_success() {
    let header = store_header();
    let rows = read_rows(header.as_bytes());
    let flags = salary_flags(&rows);
    let out = list(&rows, &flags, None);
    assert_eq!(out.count(), 0);
    assert_eq!(out.error, None);
}

#[test]
fn boundary_ages_round_trip() {
    let data = store_with(&[employee("Eng", "Young", 0, "0.0"), employee("Eng", "Old", 255, "0.0")]);
    let out = run(&data, &Predicate::All);
    assert_eq!(out.error, None);
    assert_eq!(out.matches[0].age, 0);
    assert_eq!(out.matches[1].age, 255);
}

#[test]
fn age_out_of_range_is_rejected() {
    assert_eq!(parse_age("256"), None);
    assert_eq!(parse_age("1000"), None);
    assert!("256".parse::<u8>().is_err());
}

#[test]
fn age_is_written_in_decimal() {
    assert_eq!(record_row(&employee("A", "B", 0, "0.0")).unwrap(), b"A,B,0,0.0\n".to_vec());
    assert_eq!(record_row(&employee("A", "B", 7, "0.0")).unwrap(), b"A,B,7,0.0\n".to_vec());
    assert_eq!(record_row(&employee("A", "B", 255, "0.0")).unwrap(), b"A,B,255,0.0\n".to_vec());
}

#[test]
fn age_parsing_follows_the_reader() {
    assert_eq!(parse_age("42"), Some(42));
    assert_eq!(parse_age("042"), Some(42));
    assert_eq!(parse_age("+9"), Some(9));
    assert_eq!(parse_age("0x1F"), Some(31));
    assert_eq!(parse_age("0xff"), Some(255));
    assert_eq!(parse_age("0x100"), None);
    assert_eq!(parse_age("0x"), None);
    assert_eq!(parse_age(""), None);
    assert_eq!(parse_age("+"), None);
    assert_eq!(parse_age("-1"), None);
    assert_eq!(parse_age("4a"), None);
    assert_eq!(parse_age(" 4"), None);
}

#[test]
fn append_adds_one_row_and_keeps_header() {
    let before = store_with(&[employee("Eng", "Ada", 36, "1.0"), employee("Eng", "Bob", 40, "2.0")]);
    let rows_before = read_rows(&before).rows.len();
    let mut after = before.clone();
    after.extend(record_row(&employee("Sales", "Cy", 22, "3.0")).unwrap());
    let rows_after = read_rows(&after);
    assert_eq!(rows_after.rows.len(), rows_before + 1);
    assert!(after.starts_with(b"department,name,age,salary\n"));
    assert!(after.starts_with(&before));
    assert_eq!(rows_after.rows[0], vec!["department", "name", "age", "salary"]);
    let out = run(&after, &Predicate::All);
    assert_eq!(out.count(), 3);
    assert_eq!(out.matches[2].name, "Cy");
}

#[test]
fn empty_fields_are_written_as_given() {
    let row = record_row(&employee("", "", 30, "0.0")).unwrap();
    assert_eq!(row, b",,30,0.0\n".to_vec());
    let data = store_with(&[employee("", "", 30, "0.0")]);
    let out = run(&data, &Predicate::All);
    assert_eq!(out.count(), 1);
    assert_eq!(out.matches[0].department, "");
    assert_eq!(out.matches[0].name, "");
}

#[test]
fn record_row_is_one_csv_line() {
    let row = record_row(&employee("Eng", "Ada", 36, "5000.5")).unwrap();
    assert_eq!(row, b"Eng,Ada,36,5000.5\n".to_vec());
}

#[test]
fn fields_with_commas_round_trip() {
    let row = record_row(&employee("R&D, Labs", "Lee \"Jr\"", 30, "1.5")).unwrap();
    assert_eq!(row, b"\"R&D, Labs\",\"Lee \"\"Jr\"\"\",30,1.5\n".to_vec());
    let data = store_with(&[employee("R&D, Labs", "Lee \"Jr\"", 30, "1.5")]);
    let out = run(&data, &Predicate::All);
    assert_eq!(out.matches[0].department, "R&D, Labs");
    assert_eq!(out.matches[0].name, "Lee \"Jr\"");
}

#[test]
fn corrupted_third_row_stops_the_read() {
    let data = b"department,name,age,salary\nEng,Ada,36,1.0\nEng,Bob,40,2.0\nEng,Cy,notanumber,3.0\nEng,Dee,50,4.0\n";
    let out = run(data, &Predicate::All);
    assert_eq!(out.count(), 2);
    assert_eq!(out.matches[0].name, "Ada");
    assert_eq!(out.matches[1].name, "Bob");
    assert_eq!(out.error, Some(QueryError::Parse { row: 3 }));
}

#[test]
fn wrong_field_count_is_a_parse_error() {
    let data = b"department,name,age,salary\nEng,Ada,36\nEng,Bob,40,2.0\n";
    let out = run(data, &Predicate::All);
    assert_eq!(out.count(), 0);
    assert_eq!(out.error, Some(QueryError::Parse { row: 1 }));
}

#[test]
fn non_numeric_salary_is_a_parse_error() {
    let data = b"department,name,age,salary\nEng,Ada,36,lots\n";
    let out = run(data, &Predicate::All);
    assert_eq!(out.count(), 0);
    assert_eq!(out.error, Some(QueryError::Parse { row: 1 }));
}

#[test]
fn parse_error_reported_even_in_search_with_matches() {
    let data = b"department,name,age,salary\nEng,Ada,36,1.0\nEng,Ada,x,1.0\n";
    let rows = read_rows(data);
    let flags = salary_flags(&rows);
    let out = search(&rows, &flags, &"Ada".to_string());
    assert_eq!(out.count(), 1);
    assert_eq!(out.error, Some(QueryError::Parse { row: 2 }));
}

#[test]
fn unreadable_bytes_stop_the_read() {
    let data = b"department,name,age,salary\nEng,Ada,36,1.0\nEng,\xff\xfe,40,2.0\n";
    let rows = read_rows(data);
    assert!(!rows.complete);
    assert_eq!(rows.rows.len(), 2);
    let flags = salary_flags(&rows);
    let out = query(&rows, &flags, &Predicate::All);
    assert_eq!(out.count(), 1);
    assert_eq!(out.error, Some(QueryError::Parse { row: 2 }));
}

#[test]
fn empty_file_has_no_rows() {
    let rows = read_rows(b"");
    assert!(rows.complete);
    assert_eq!(rows.rows.len(), 0);
    let out = query(&rows, &Vec::new(), &Predicate::All);
    assert_eq!(out.count(), 0);
    assert_eq!(out.error, None);
}
