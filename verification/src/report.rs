//! The report: a header line, then one line for each employee of the roster,
//! in the roster's order.

use crate::decimal::{decimal, push_decimal};
use crate::leave::{calculate_leave_days, lemma_no_leave_is_zero_days, total_leave_days};
use crate::records::{
    departments_view, employees_view, salaries_view, Department, DepartmentView, Employee,
    EmployeeView, Leave, Salary, SalaryView,
};
use crate::roster::{load_employee_data, roster_of_lines};
use crate::salary::{credited, get_salary_status, status_text};
use crate::tables::{
    department_table, leave_table, load_department_data, load_leave_data, load_salary_data,
    rows_view, salary_table, Cell, CellView, MalformedRow,
};
use crate::text::{join_fields, lemma_join_one_more, texts_view};
use std::collections::HashMap;
use vstd::prelude::*;
use vstd::string::StringExecFns;

verus! {

/// Why no report could be made: the source that could not be read, and the
/// row at which reading it failed.
#[derive(Clone, Copy, Debug, PartialEq, Eq, Structural)]
pub enum ReportError {
    Departments(MalformedRow),
    Salaries(MalformedRow),
    Leaves(MalformedRow),
}

/// The title of department `dept_id`: the one that the directory has for it,
/// and `N/A` where the directory has none.
pub open spec fn title_of(departments: Map<i32, DepartmentView>, dept_id: i32) -> Seq<char> {
    if departments.contains_key(dept_id) {
        departments[dept_id].dept_title
    } else {
        "N/A"@
    }
}

/// The seven fields of an employee's line: the employee's number, the name,
/// the department's title, the mobile number, the e-mail address, the salary
/// status of the given month and the total of the leave days.
pub open spec fn fields_of(
    employee: EmployeeView,
    departments: Map<i32, DepartmentView>,
    salaries: Seq<SalaryView>,
    leaves: Seq<Leave>,
    month: u32,
    year: i32,
) -> Seq<Seq<char>> {
    seq![
        decimal(employee.emp_id as int),
        employee.emp_name,
        title_of(departments, employee.dept_id),
        employee.mobile_no,
        employee.email,
        status_text(credited(salaries, employee.emp_id, month, year)),
        decimal(total_leave_days(leaves, employee.emp_id)),
    ]
}

/// An employee's line: the seven fields with `~#~` between them. A field
/// that holds `~#~` itself is written as it is.
pub open spec fn row_of(
    employee: EmployeeView,
    departments: Map<i32, DepartmentView>,
    salaries: Seq<SalaryView>,
    leaves: Seq<Leave>,
    month: u32,
    year: i32,
) -> Seq<char> {
    join_fields(fields_of(employee, departments, salaries, leaves, month, year), "~#~"@)
}

/// The header line.
pub open spec fn header_text() -> Seq<char> {
    "Emp ID~#~Emp Name~#~Dept Title~#~Mobile No~#~Email~#~Salary Status~#~On Leave"@
}

/// The names of the seven columns, in the order of the fields of a line.
pub open spec fn column_names() -> Seq<Seq<char>> {
    seq![
        "Emp ID"@,
        "Emp Name"@,
        "Dept Title"@,
        "Mobile No"@,
        "Email"@,
        "Salary Status"@,
        "On Leave"@,
    ]
}

/// The header line is made as an employee's line is: of the names of the
/// seven columns, with `~#~` between them.
pub proof fn lemma_header_names_the_columns()
    ensures
        header_text() == join_fields(column_names(), "~#~"@),
{
    reveal_strlit("Emp ID~#~Emp Name~#~Dept Title~#~Mobile No~#~Email~#~Salary Status~#~On Leave");
    reveal_strlit("Emp ID");
    reveal_strlit("Emp Name");
    reveal_strlit("Dept Title");
    reveal_strlit("Mobile No");
    reveal_strlit("Email");
    reveal_strlit("Salary Status");
    reveal_strlit("On Leave");
    reveal_strlit("~#~");
    let names = column_names();
    let sep = "~#~"@;
    lemma_join_one_more(names.take(1), sep, names[1]);
    assert(names.take(2) =~= names.take(1).push(names[1]));
    lemma_join_one_more(names.take(2), sep, names[2]);
    assert(names.take(3) =~= names.take(2).push(names[2]));
    lemma_join_one_more(names.take(3), sep, names[3]);
    assert(names.take(4) =~= names.take(3).push(names[3]));
    lemma_join_one_more(names.take(4), sep, names[4]);
    assert(names.take(5) =~= names.take(4).push(names[4]));
    lemma_join_one_more(names.take(5), sep, names[5]);
    assert(names.take(6) =~= names.take(5).push(names[5]));
    lemma_join_one_more(names.take(6), sep, names[6]);
}

/// The lines of the report: the header, then the line of each employee in
/// the order of the roster.
pub open spec fn lines_of(
    employees: Seq<EmployeeView>,
    departments: Map<i32, DepartmentView>,
    salaries: Seq<SalaryView>,
    leaves: Seq<Leave>,
    month: u32,
    year: i32,
) -> Seq<Seq<char>> {
    seq![header_text()] + Seq::new(
        employees.len(),
        |i: int| row_of(employees[i], departments, salaries, leaves, month, year),
    )
}

/// The report that four sources give for a month: the lines of the report
/// where the three tables can be read, and otherwise the first failure, the
/// tables taken in the order departments, salaries, leaves.
pub open spec fn report_of_sources(
    roster_lines: Seq<Seq<char>>,
    department_rows: Seq<Seq<CellView>>,
    salary_rows: Seq<Seq<CellView>>,
    leave_rows: Seq<Seq<CellView>>,
    month: u32,
    year: i32,
) -> Result<Seq<Seq<char>>, ReportError> {
    match department_table(department_rows) {
        Err(e) => Err(ReportError::Departments(e)),
        Ok(departments) => match salary_table(salary_rows) {
            Err(e) => Err(ReportError::Salaries(e)),
            Ok(salaries) => match leave_table(leave_rows) {
                Err(e) => Err(ReportError::Leaves(e)),
                Ok(leaves) => Ok(
                    lines_of(
                        roster_of_lines(roster_lines),
                        departments,
                        salaries,
                        leaves,
                        month,
                        year,
                    ),
                ),
            },
        },
    }
}

/// What the outcome of making a report is to a contract: the characters of
/// its lines, or the failure.
pub open spec fn report_view(outcome: Result<Vec<String>, ReportError>) -> Result<
    Seq<Seq<char>>,
    ReportError,
> {
    match outcome {
        Ok(lines) => Ok(texts_view(lines@)),
        Err(e) => Err(e),
    }
}

/// The title of department `dept_id`, or `N/A` where the directory has no
/// such department.
pub fn department_title(departments: &HashMap<i32, Department>, dept_id: i32) -> (title: String)
    ensures
        title@ == title_of(departments_view(departments@), dept_id),
{
    match departments.get(&dept_id) {
        Some(department) => department.dept_title.clone(),
        None => "N/A".to_owned(),
    }
}

/// The header line.
pub fn report_header() -> (line: String)
    ensures
        line@ == header_text(),
{
    "Emp ID~#~Emp Name~#~Dept Title~#~Mobile No~#~Email~#~Salary Status~#~On Leave".to_owned()
}

/// The line of one employee.
pub fn report_row(
    employee: &Employee,
    departments: &HashMap<i32, Department>,
    salaries: &Vec<Salary>,
    leaves: &Vec<Leave>,
    current_month: u32,
    current_year: i32,
) -> (line: String)
    ensures
        line@ == row_of(
            employee@,
            departments_view(departments@),
            salaries_view(salaries@),
            leaves@,
            current_month,
            current_year,
        ),
{
    let title = department_title(departments, employee.dept_id);
    let status = get_salary_status(salaries, employee.emp_id, current_month, current_year);
    let leave_days = calculate_leave_days(leaves, employee.emp_id);
    let ghost fields = fields_of(
        employee@,
        departments_view(departments@),
        salaries_view(salaries@),
        leaves@,
        current_month,
        current_year,
    );
    let ghost sep = "~#~"@;

    let mut line = String::new();
    push_decimal(&mut line, employee.emp_id as i128);

    line.append("~#~");
    line.append(employee.emp_name.as_str());
    proof {
        lemma_join_one_more(fields.take(1), sep, fields[1]);
        assert(fields.take(2) =~= fields.take(1).push(fields[1]));
    }

    line.append("~#~");
    line.append(title.as_str());
    proof {
        lemma_join_one_more(fields.take(2), sep, fields[2]);
        assert(fields.take(3) =~= fields.take(2).push(fields[2]));
    }

    line.append("~#~");
    line.append(employee.mobile_no.as_str());
    proof {
        lemma_join_one_more(fields.take(3), sep, fields[3]);
        assert(fields.take(4) =~= fields.take(3).push(fields[3]));
    }

    line.append("~#~");
    line.append(employee.email.as_str());
    proof {
        lemma_join_one_more(fields.take(4), sep, fields[4]);
        assert(fields.take(5) =~= fields.take(4).push(fields[4]));
    }

    line.append("~#~");
    line.append(status.as_str());
    proof {
        lemma_join_one_more(fields.take(5), sep, fields[5]);
        assert(fields.take(6) =~= fields.take(5).push(fields[5]));
    }

    line.append("~#~");
    push_decimal(&mut line, leave_days);
    proof {
        lemma_join_one_more(fields.take(6), sep, fields[6]);
    }
    line
}

/// The lines of the report for a roster: the header, then the line of each
/// employee in the order of the roster.
pub fn build_report(
    employees: &Vec<Employee>,
    departments: &HashMap<i32, Department>,
    salaries: &Vec<Salary>,
    leaves: &Vec<Leave>,
    current_month: u32,
    current_year: i32,
) -> (lines: Vec<String>)
    ensures
        texts_view(lines@) == lines_of(
            employees_view(employees@),
            departments_view(departments@),
            salaries_view(salaries@),
            leaves@,
            current_month,
            current_year,
        ),
{
    let ghost wanted = lines_of(
        employees_view(employees@),
        departments_view(departments@),
        salaries_view(salaries@),
        leaves@,
        current_month,
        current_year,
    );
    let mut lines: Vec<String> = Vec::new();
    lines.push(report_header());
    let mut i: usize = 0;
    while i < employees.len()
        invariant
            i <= employees.len(),
            wanted == lines_of(
                employees_view(employees@),
                departments_view(departments@),
                salaries_view(salaries@),
                leaves@,
                current_month,
                current_year,
            ),
            texts_view(lines@) == wanted.take(i + 1),
        decreases employees.len() - i,
    {
        let ghost before = texts_view(lines@);
        let line = report_row(
            &employees[i],
            departments,
            salaries,
            leaves,
            current_month,
            current_year,
        );
        lines.push(line);
        assert(texts_view(lines@) =~= before.push(line@));
        i += 1;
    }
    lines
}

/// Makes the report of a month from the four sources: the lines of the
/// roster, and the rows of the department, salary and leave tables, each
/// with its header. Fails where a table cannot be read, at the first such
/// table in the order departments, salaries, leaves.
pub fn generate_report(
    roster_lines: &Vec<String>,
    department_rows: &Vec<Vec<Cell>>,
    salary_rows: &Vec<Vec<Cell>>,
    leave_rows: &Vec<Vec<Cell>>,
    current_month: u32,
    current_year: i32,
) -> (r: Result<Vec<String>, ReportError>)
    ensures
        report_view(r) == report_of_sources(
            texts_view(roster_lines@),
            rows_view(department_rows@),
            rows_view(salary_rows@),
            rows_view(leave_rows@),
            current_month,
            current_year,
        ),
{
    let employees = load_employee_data(roster_lines);
    let departments = match load_department_data(department_rows) {
        Ok(departments) => departments,
        Err(e) => {
            return Err(ReportError::Departments(e));
        },
    };
    let salaries = match load_salary_data(salary_rows) {
        Ok(salaries) => salaries,
        Err(e) => {
            return Err(ReportError::Salaries(e));
        },
    };
    let leaves = match load_leave_data(leave_rows) {
        Ok(leaves) => leaves,
        Err(e) => {
            return Err(ReportError::Leaves(e));
        },
    };
    Ok(build_report(&employees, &departments, &salaries, &leaves, current_month, current_year))
}

/// An employee whose department the directory does not have is reported
/// with the title `N/A`, letter for letter.
pub proof fn lemma_unknown_department_is_not_available(
    employee: EmployeeView,
    departments: Map<i32, DepartmentView>,
    salaries: Seq<SalaryView>,
    leaves: Seq<Leave>,
    month: u32,
    year: i32,
)
    requires
        !departments.contains_key(employee.dept_id),
    ensures
        fields_of(employee, departments, salaries, leaves, month, year)[2] == "N/A"@,
        fields_of(employee, departments, salaries, leaves, month, year)[2] == seq!['N', '/', 'A'],
{
    reveal_strlit("N/A");
}

/// An employee whose department the directory has is reported with the
/// title that the directory gives it.
pub proof fn lemma_known_department_has_its_title(
    employee: EmployeeView,
    departments: Map<i32, DepartmentView>,
    salaries: Seq<SalaryView>,
    leaves: Seq<Leave>,
    month: u32,
    year: i32,
)
    requires
        departments.contains_key(employee.dept_id),
    ensures
        fields_of(employee, departments, salaries, leaves, month, year)[2]
            == departments[employee.dept_id].dept_title,
{
}

/// An employee without an interval in the leave log is reported with `0`
/// days of leave, letter for letter.
pub proof fn lemma_no_leave_reads_zero(
    employee: EmployeeView,
    departments: Map<i32, DepartmentView>,
    salaries: Seq<SalaryView>,
    leaves: Seq<Leave>,
    month: u32,
    year: i32,
)
    requires
        forall|i: int| 0 <= i < leaves.len() ==> (#[trigger] leaves[i]).emp_id != employee.emp_id,
    ensures
        fields_of(employee, departments, salaries, leaves, month, year)[6] == seq!['0'],
{
    lemma_no_leave_is_zero_days(leaves, employee.emp_id);
}

/// The report has the header and then one line for each entry of the
/// roster, in the roster's order.
pub proof fn lemma_report_follows_roster(
    employees: Seq<EmployeeView>,
    departments: Map<i32, DepartmentView>,
    salaries: Seq<SalaryView>,
    leaves: Seq<Leave>,
    month: u32,
    year: i32,
)
    ensures
        lines_of(employees, departments, salaries, leaves, month, year).len() == employees.len()
            + 1,
        lines_of(employees, departments, salaries, leaves, month, year)[0] == header_text(),
        forall|k: int|
            0 <= k < employees.len() ==> #[trigger] lines_of(
                employees,
                departments,
                salaries,
                leaves,
                month,
                year,
            )[k + 1] == row_of(employees[k], departments, salaries, leaves, month, year),
{
}

/// A report made from four sources has, after its header, as many lines as
/// the roster's source has lines that hold an entry, one for each entry and
/// in the order in which the roster was read.
pub proof fn lemma_report_has_a_line_for_each_entry(
    roster_lines: Seq<Seq<char>>,
    department_rows: Seq<Seq<CellView>>,
    salary_rows: Seq<Seq<CellView>>,
    leave_rows: Seq<Seq<CellView>>,
    month: u32,
    year: i32,
)
    requires
        report_of_sources(roster_lines, department_rows, salary_rows, leave_rows, month, year)
            is Ok,
    ensures
        ({
            let lines = report_of_sources(
                roster_lines,
                department_rows,
                salary_rows,
                leave_rows,
                month,
                year,
            )->Ok_0;
            let roster = roster_of_lines(roster_lines);
            &&& lines.len() == roster.len() + 1
            &&& forall|k: int|
                0 <= k < roster.len() ==> #[trigger] lines[k + 1] == row_of(
                    roster[k],
                    department_table(department_rows)->Ok_0,
                    salary_table(salary_rows)->Ok_0,
                    leave_table(leave_rows)->Ok_0,
                    month,
                    year,
                )
        }),
{
    lemma_report_follows_roster(
        roster_of_lines(roster_lines),
        department_table(department_rows)->Ok_0,
        salary_table(salary_rows)->Ok_0,
        leave_table(leave_rows)->Ok_0,
        month,
        year,
    );
}

/// Two reports made from the same sources for the same month are the same,
/// line for line and character for character, and so are two failures: the
/// outcome depends on nothing but the characters of the roster's lines, the
/// cells of the three tables, the month and the year.
pub proof fn lemma_same_sources_same_report(
    first: Result<Vec<String>, ReportError>,
    second: Result<Vec<String>, ReportError>,
    roster_lines: Seq<Seq<char>>,
    department_rows: Seq<Seq<CellView>>,
    salary_rows: Seq<Seq<CellView>>,
    leave_rows: Seq<Seq<CellView>>,
    month: u32,
    year: i32,
)
    requires
        report_view(first) == report_of_sources(
            roster_lines,
            department_rows,
            salary_rows,
            leave_rows,
            month,
            year,
        ),
        report_view(second) == report_of_sources(
            roster_lines,
            department_rows,
            salary_rows,
            leave_rows,
            month,
            year,
        ),
    ensures
        report_view(first) == report_view(second),
{
}

} // verus!
