use chrono::{Datelike, NaiveDate};
use payroll_report::dates::Date;
use payroll_report::records::{Department, Leave, Salary};
use payroll_report::tables::{
    department_from_row, leave_from_parts, leave_from_row, load_department_data,
    load_leave_data, load_salary_data, number_at, salary_from_row, text_at, Cell, MalformedRow,
};

fn text(t: &str) -> Cell {
    Cell::Text(t.to_string())
}

fn day(year: i32, month: u32, day: u32) -> Date {
    Date { day_number: NaiveDate::from_ymd_opt(year, month, day).unwrap().num_days_from_ce() }
}

fn department_header() -> Vec<Cell> {
    vec![text("Dept ID"), text("Dept Title")]
}

fn salary_header() -> Vec<Cell> {
    vec![text("Emp ID"), text("Month"), text("Date"), text("Amount"), text("Status")]
}

fn leave_header() -> Vec<Cell> {
    vec![text("Emp ID"), text("Kind"), text("From"), text("To")]
}

fn salary_row(emp_id: i32, date: &str, status: &str) -> Vec<Cell> {
    vec![Cell::Number(emp_id), text("June"), text(date), Cell::Number(1000), text(status)]
}

fn leave_row(emp_id: i32, from: &str, to: &str) -> Vec<Cell> {
    vec![Cell::Number(emp_id), text("Annual"), text(from), text(to)]
}

#[test]
fn number_at_reads_a_number_cell_only() {
    let row = vec![Cell::Number(4), text("4"), Cell::Other];
    assert_eq!(number_at(&row, 0), Some(4));
    assert_eq!(number_at(&row, 1), None);
    assert_eq!(number_at(&row, 2), None);
    assert_eq!(number_at(&row, 3), None);
}

#[test]
fn text_at_reads_a_text_cell_only() {
    let row = vec![Cell::Number(4), text("four"), Cell::Other];
    assert_eq!(text_at(&row, 0), None);
    assert_eq!(text_at(&row, 1), Some(&"four".to_string()));
    assert_eq!(text_at(&row, 2), None);
    assert_eq!(text_at(&row, 9), None);
}

#[test]
fn department_from_row_reads_number_and_title() {
    assert_eq!(
        department_from_row(&vec![Cell::Number(2), text("Engineering"), text("ignored")]),
        Ok(Department { dept_id: 2, dept_title: "Engineering".to_string() })
    );
    assert_eq!(department_from_row(&vec![text("2"), text("Engineering")]), Err(0));
    assert_eq!(department_from_row(&vec![Cell::Number(2), Cell::Number(3)]), Err(1));
    assert_eq!(department_from_row(&vec![Cell::Number(2)]), Err(1));
    assert_eq!(department_from_row(&vec![]), Err(0));
    assert_eq!(department_from_row(&vec![Cell::Other, Cell::Other]), Err(0));
}

#[test]
fn load_department_data_indexes_by_number() {
    let departments = load_department_data(&vec![
        department_header(),
        vec![Cell::Number(1), text("Sales")],
        vec![Cell::Number(2), text("Engineering")],
    ])
    .unwrap();
    assert_eq!(departments.len(), 2);
    assert_eq!(departments[&1], Department { dept_id: 1, dept_title: "Sales".to_string() });
    assert_eq!(departments[&2].dept_title, "Engineering");
    assert!(!departments.contains_key(&3));
}

#[test]
fn load_department_data_lets_the_later_row_stand() {
    let departments = load_department_data(&vec![
        department_header(),
        vec![Cell::Number(1), text("Sales")],
        vec![Cell::Number(1), text("Marketing")],
    ])
    .unwrap();
    assert_eq!(departments.len(), 1);
    assert_eq!(departments[&1].dept_title, "Marketing");
}

#[test]
fn load_department_data_does_not_read_the_header() {
    let departments =
        load_department_data(&vec![vec![Cell::Other], vec![Cell::Number(1), text("Sales")]])
            .unwrap();
    assert_eq!(departments.len(), 1);
    assert!(load_department_data(&vec![]).unwrap().is_empty());
    assert!(load_department_data(&vec![vec![Cell::Number(1), text("Sales")]]).unwrap().is_empty());
}

#[test]
fn load_department_data_fails_at_the_first_malformed_row() {
    let rows = vec![
        department_header(),
        vec![Cell::Number(1), text("Sales")],
        vec![Cell::Number(2), Cell::Other],
        vec![text("x"), text("Engineering")],
    ];
    assert_eq!(load_department_data(&rows).unwrap_err(), MalformedRow { row: 2, column: 1 });
    let rows = vec![department_header(), vec![text("1"), Cell::Number(1)]];
    assert_eq!(load_department_data(&rows).unwrap_err(), MalformedRow { row: 1, column: 0 });
}

#[test]
fn salary_from_row_reads_columns_0_2_and_4() {
    assert_eq!(
        salary_from_row(&salary_row(7, "15-06-2024", "Credited")),
        Ok(Salary {
            emp_id: 7,
            salary_date: "15-06-2024".to_string(),
            salary_status: "Credited".to_string(),
        })
    );
    assert_eq!(
        salary_from_row(&vec![Cell::Number(7), Cell::Other, text("d"), Cell::Other, text("s")]),
        Ok(Salary { emp_id: 7, salary_date: "d".to_string(), salary_status: "s".to_string() })
    );
}

#[test]
fn salary_from_row_fails_at_the_leftmost_bad_column() {
    assert_eq!(salary_from_row(&vec![]), Err(0));
    assert_eq!(salary_from_row(&vec![text("7"), text("a"), Cell::Other, text("b")]), Err(0));
    assert_eq!(
        salary_from_row(&vec![Cell::Number(7), text("a"), Cell::Number(1), text("b"), Cell::Other]),
        Err(2)
    );
    assert_eq!(
        salary_from_row(&vec![Cell::Number(7), text("a"), text("d"), text("b"), Cell::Number(1)]),
        Err(4)
    );
    assert_eq!(salary_from_row(&vec![Cell::Number(7), text("a"), text("d"), text("b")]), Err(4));
}

#[test]
fn load_salary_data_keeps_the_order_of_the_rows() {
    let salaries = load_salary_data(&vec![
        salary_header(),
        salary_row(7, "15-06-2024", "Credited"),
        salary_row(3, "15-05-2024", "Pending"),
        salary_row(7, "15-05-2024", "Credited"),
    ])
    .unwrap();
    let seen: Vec<(i32, &str)> =
        salaries.iter().map(|s| (s.emp_id, s.salary_date.as_str())).collect();
    assert_eq!(seen, vec![(7, "15-06-2024"), (3, "15-05-2024"), (7, "15-05-2024")]);
    assert_eq!(salaries[1].salary_status, "Pending");
}

#[test]
fn load_salary_data_of_a_header_alone_is_empty() {
    assert_eq!(load_salary_data(&vec![salary_header()]), Ok(vec![]));
    assert_eq!(load_salary_data(&vec![]), Ok(vec![]));
}

#[test]
fn load_salary_data_fails_at_the_first_malformed_row() {
    let rows = vec![
        salary_header(),
        salary_row(7, "15-06-2024", "Credited"),
        vec![Cell::Number(7), text("June"), text("15-06-2024"), Cell::Number(1000)],
        vec![text("bad")],
    ];
    assert_eq!(load_salary_data(&rows), Err(MalformedRow { row: 2, column: 4 }));
}

#[test]
fn leave_from_parts_wants_both_dates() {
    let from = Date { day_number: 10 };
    let to = Date { day_number: 12 };
    assert_eq!(
        leave_from_parts(Some(7), Some(from), Some(to)),
        Ok(Leave { emp_id: 7, leave_from: from, leave_to: to })
    );
    assert_eq!(leave_from_parts(None, Some(from), Some(to)), Err(0));
    assert_eq!(leave_from_parts(None, None, None), Err(0));
    assert_eq!(leave_from_parts(Some(7), None, Some(to)), Err(2));
    assert_eq!(leave_from_parts(Some(7), Some(from), None), Err(3));
    assert_eq!(leave_from_parts(Some(7), None, None), Err(2));
}

#[test]
fn leave_from_row_reads_dates_as_day_month_year() {
    assert_eq!(
        leave_from_row(&leave_row(7, "01-06-2024", "03-06-2024")),
        Ok(Leave { emp_id: 7, leave_from: day(2024, 6, 1), leave_to: day(2024, 6, 3) })
    );
}

#[test]
fn leave_from_row_fails_without_a_number() {
    let row = vec![text("seven"), text("Annual"), text("01-06-2024"), text("03-06-2024")];
    assert_eq!(leave_from_row(&row), Err(0));
    assert_eq!(leave_from_row(&vec![Cell::Other, Cell::Other, Cell::Other, Cell::Other]), Err(0));
    assert_eq!(leave_from_row(&vec![]), Err(0));
}

#[test]
fn leave_from_row_fails_without_a_date() {
    assert_eq!(
        leave_from_row(&vec![Cell::Number(7), text("Annual"), Cell::Other, text("03-06-2024")]),
        Err(2)
    );
    assert_eq!(
        leave_from_row(&vec![Cell::Number(7), text("Annual"), text("01-06-2024"), Cell::Other]),
        Err(3)
    );
    assert_eq!(leave_from_row(&vec![Cell::Number(7), text("Annual"), text("01-06-2024")]), Err(3));
    assert_eq!(leave_from_row(&vec![Cell::Number(7)]), Err(2));
    assert_eq!(leave_from_row(&leave_row(7, "None", "03-06-2024")), Err(2));
}

#[test]
fn leave_from_row_fails_on_a_text_that_is_no_date() {
    assert_eq!(leave_from_row(&leave_row(7, "2024-06-01", "03-06-2024")), Err(2));
    assert_eq!(leave_from_row(&leave_row(7, "01-06-2024", "31-06-2024")), Err(3));
    assert_eq!(leave_from_row(&leave_row(7, "01/06/2024", "03/06/2024")), Err(2));
    assert_eq!(leave_from_row(&leave_row(7, "29-02-2023", "01-03-2023")), Err(2));
}

#[test]
fn load_leave_data_keeps_the_order_of_the_rows() {
    let leaves = load_leave_data(&vec![
        leave_header(),
        leave_row(7, "01-06-2024", "03-06-2024"),
        leave_row(3, "29-02-2024", "01-03-2024"),
    ])
    .unwrap();
    assert_eq!(
        leaves,
        vec![
            Leave { emp_id: 7, leave_from: day(2024, 6, 1), leave_to: day(2024, 6, 3) },
            Leave { emp_id: 3, leave_from: day(2024, 2, 29), leave_to: day(2024, 3, 1) },
        ]
    );
}

#[test]
fn load_leave_data_of_a_header_alone_is_empty() {
    assert_eq!(load_leave_data(&vec![leave_header()]), Ok(vec![]));
    assert_eq!(load_leave_data(&vec![]), Ok(vec![]));
}

#[test]
fn load_leave_data_fails_at_the_first_row_without_a_date() {
    let rows = vec![
        leave_header(),
        leave_row(7, "01-06-2024", "03-06-2024"),
        vec![Cell::Number(3), text("Annual"), text("01-06-2024")],
        leave_row(3, "bad", "bad"),
    ];
    assert_eq!(load_leave_data(&rows), Err(MalformedRow { row: 2, column: 3 }));
}
