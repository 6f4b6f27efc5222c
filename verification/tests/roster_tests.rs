use payroll_report::records::Employee;
use payroll_report::roster::{load_employee_data, parse_employee_line};

fn lines(texts: &[&str]) -> Vec<String> {
    texts.iter().map(|t| t.to_string()).collect()
}

fn jane() -> Employee {
    Employee {
        emp_id: 7,
        emp_name: "Jane Doe".to_string(),
        dept_id: 2,
        mobile_no: "555-0100".to_string(),
        email: "jane@x.com".to_string(),
    }
}

#[test]
fn parse_employee_line_reads_five_fields() {
    assert_eq!(parse_employee_line("7|Jane Doe|2|555-0100|jane@x.com"), Some(jane()));
}

#[test]
fn parse_employee_line_keeps_texts_as_they_are() {
    let e = parse_employee_line("-3| Zoë  |+4|+49 30 1|").unwrap();
    assert_eq!(e.emp_id, -3);
    assert_eq!(e.emp_name, " Zoë  ");
    assert_eq!(e.dept_id, 4);
    assert_eq!(e.mobile_no, "+49 30 1");
    assert_eq!(e.email, "");
}

#[test]
fn parse_employee_line_drops_a_line_with_too_few_fields() {
    assert_eq!(parse_employee_line("7|Jane Doe|2|555-0100"), None);
    assert_eq!(parse_employee_line("7"), None);
    assert_eq!(parse_employee_line(""), None);
    assert_eq!(parse_employee_line("not a roster line"), None);
}

#[test]
fn parse_employee_line_drops_a_line_with_too_many_fields() {
    assert_eq!(parse_employee_line("7|Jane Doe|2|555-0100|jane@x.com|extra"), None);
    assert_eq!(parse_employee_line("7|Jane Doe|2|555-0100|jane@x.com|"), None);
}

#[test]
fn parse_employee_line_drops_a_line_whose_number_is_none() {
    assert_eq!(parse_employee_line("seven|Jane Doe|2|555-0100|jane@x.com"), None);
    assert_eq!(parse_employee_line("|Jane Doe|2|555-0100|jane@x.com"), None);
    assert_eq!(parse_employee_line(" 7|Jane Doe|2|555-0100|jane@x.com"), None);
    assert_eq!(parse_employee_line("7.0|Jane Doe|2|555-0100|jane@x.com"), None);
    assert_eq!(parse_employee_line("2147483648|Jane Doe|2|555-0100|jane@x.com"), None);
}

#[test]
fn parse_employee_line_drops_a_line_whose_department_is_no_number() {
    assert_eq!(parse_employee_line("7|Jane Doe|two|555-0100|jane@x.com"), None);
    assert_eq!(parse_employee_line("7|Jane Doe||555-0100|jane@x.com"), None);
    assert_eq!(parse_employee_line("7|Jane Doe|2 |555-0100|jane@x.com"), None);
}

#[test]
fn load_employee_data_skips_the_header() {
    let roster = load_employee_data(&lines(&[
        "1|Header Looks Like Data|1|0|h@x.com",
        "7|Jane Doe|2|555-0100|jane@x.com",
    ]));
    assert_eq!(roster, vec![jane()]);
}

#[test]
fn load_employee_data_of_nothing_is_empty() {
    assert_eq!(load_employee_data(&lines(&[])), Vec::<Employee>::new());
    assert_eq!(load_employee_data(&lines(&["id|name|dept|mobile|email"])), Vec::<Employee>::new());
}

#[test]
fn load_employee_data_keeps_the_order_of_the_lines() {
    let roster = load_employee_data(&lines(&[
        "id|name|dept|mobile|email",
        "9|Ann|1|1|a@x.com",
        "3|Bob|2|2|b@x.com",
        "5|Cid|1|3|c@x.com",
    ]));
    let ids: Vec<i32> = roster.iter().map(|e| e.emp_id).collect();
    assert_eq!(ids, vec![9, 3, 5]);
}

#[test]
fn load_employee_data_drops_malformed_lines_silently() {
    let roster = load_employee_data(&lines(&[
        "id|name|dept|mobile|email",
        "9|Ann|1|1|a@x.com",
        "3|Bob|2|2",
        "",
        "x|Eve|2|2|e@x.com",
        "5|Cid|1|3|c@x.com",
        "6|Dan|1|3|d@x.com|more",
    ]));
    let names: Vec<&str> = roster.iter().map(|e| e.emp_name.as_str()).collect();
    assert_eq!(names, vec!["Ann", "Cid"]);
}

#[test]
fn load_employee_data_keeps_repeated_entries() {
    let roster = load_employee_data(&lines(&[
        "id|name|dept|mobile|email",
        "7|Jane Doe|2|555-0100|jane@x.com",
        "7|Jane Doe|2|555-0100|jane@x.com",
    ]));
    assert_eq!(roster, vec![jane(), jane()]);
}
