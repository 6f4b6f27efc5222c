//! The three tabular sources: the department directory, the salary credit log
//! and the leave log. Each is given as the rows of its first table, the header
//! row among them, and each row as its cells from the left.

use crate::dates::{date_of_text, Date};
use crate::records::{
    departments_view, salaries_view, Department, DepartmentView, Leave, Salary, SalaryView,
};
use std::collections::HashMap;
use vstd::prelude::*;

verus! {

/// One cell of a table.
#[derive(Clone, Debug, PartialEq, Eq)]
pub enum Cell {
    /// A number, cut down to a whole number.
    Number(i32),
    /// A text.
    Text(String),
    /// An empty cell, or one that holds neither a number nor a text.
    Other,
}

/// A [`Cell`] with its text as a sequence of characters.
pub enum CellView {
    Number(i32),
    Text(Seq<char>),
    Other,
}

impl View for Cell {
    type V = CellView;

    open spec fn view(&self) -> CellView {
        match self {
            Cell::Number(n) => CellView::Number(*n),
            Cell::Text(t) => CellView::Text(t@),
            Cell::Other => CellView::Other,
        }
    }
}

/// A row that cannot be read: its place among the rows of the table, the
/// header being row 0, and the column whose cell is not what it has to be.
#[derive(Clone, Copy, Debug, PartialEq, Eq, Structural)]
pub struct MalformedRow {
    pub row: usize,
    pub column: usize,
}

/// What the cells of a row are to a contract, in the same order.
pub open spec fn cells_view(row: Seq<Cell>) -> Seq<CellView> {
    Seq::new(row.len(), |i: int| row[i]@)
}

/// What the rows of a table are to a contract, in the same order.
pub open spec fn rows_view(rows: Seq<Vec<Cell>>) -> Seq<Seq<CellView>> {
    Seq::new(rows.len(), |i: int| cells_view(rows[i]@))
}

/// The cell of `row` in `column`; a row that ends before that column has an
/// empty cell there.
pub open spec fn cell_at(row: Seq<CellView>, column: int) -> CellView {
    if 0 <= column < row.len() {
        row[column]
    } else {
        CellView::Other
    }
}

/// The number in `column` of `row`, if the cell there holds one.
pub open spec fn number_in(row: Seq<CellView>, column: int) -> Option<i32> {
    match cell_at(row, column) {
        CellView::Number(n) => Some(n),
        _ => None,
    }
}

/// The text in `column` of `row`, if the cell there holds one.
pub open spec fn text_in(row: Seq<CellView>, column: int) -> Option<Seq<char>> {
    match cell_at(row, column) {
        CellView::Text(t) => Some(t),
        _ => None,
    }
}

/// The number in `column` of `row`, if the cell there holds one.
pub fn number_at(row: &Vec<Cell>, column: usize) -> (number: Option<i32>)
    ensures
        number == number_in(cells_view(row@), column as int),
{
    if column < row.len() {
        match &row[column] {
            Cell::Number(n) => Some(*n),
            _ => None,
        }
    } else {
        None
    }
}

/// The text in `column` of `row`, if the cell there holds one.
pub fn text_at(row: &Vec<Cell>, column: usize) -> (text: Option<&String>)
    ensures
        match (text, text_in(cells_view(row@), column as int)) {
            (Some(t), Some(held)) => t@ == held,
            (None, None) => true,
            _ => false,
        },
{
    if column < row.len() {
        match &row[column] {
            Cell::Text(t) => Some(t),
            _ => None,
        }
    } else {
        None
    }
}

// ---------------------------------------------------------------------------
// Departments

/// The department that a row of the directory holds: its number in column 0
/// and its title in column 1. A row without one of them fails at that column,
/// the number first.
pub open spec fn department_of_row(row: Seq<CellView>) -> Result<DepartmentView, usize> {
    match number_in(row, 0) {
        None => Err(0),
        Some(dept_id) => match text_in(row, 1) {
            None => Err(1),
            Some(dept_title) => Ok(DepartmentView { dept_id, dept_title }),
        },
    }
}

/// The directory that the rows of a department table hold, keyed by the
/// departments' numbers. Row 0 is the header and is not read. Where two rows
/// have the same number the later one stands. The first row that cannot be
/// read fails the whole table.
pub open spec fn department_table(rows: Seq<Seq<CellView>>) -> Result<
    Map<i32, DepartmentView>,
    MalformedRow,
>
    decreases rows.len(),
{
    if rows.len() <= 1 {
        Ok(Map::empty())
    } else {
        match department_table(rows.drop_last()) {
            Err(e) => Err(e),
            Ok(before) => match department_of_row(rows.last()) {
                Ok(d) => Ok(before.insert(d.dept_id, d)),
                Err(column) => Err(MalformedRow { row: (rows.len() - 1) as usize, column }),
            },
        }
    }
}

/// A department table read row by row. It is read where every row after
/// the header can be read: the directory then has a department for exactly
/// the numbers that stand in some row, and for each number what the last
/// such row holds. Otherwise it fails at the first row that cannot be read,
/// with the column at which that row fails.
pub proof fn lemma_department_table_row_by_row(rows: Seq<Seq<CellView>>)
    requires
        rows.len() <= usize::MAX,
    ensures
        match department_table(rows) {
            Ok(directory) => {
                &&& forall|i: int|
                    1 <= i < rows.len() ==> department_of_row(#[trigger] rows[i]) is Ok
                &&& forall|id: i32| #[trigger]
                    directory.contains_key(id) <==> exists|i: int|
                        1 <= i < rows.len() && department_of_row(#[trigger] rows[i])->Ok_0.dept_id
                            == id
                &&& forall|i: int|
                    1 <= i < rows.len() && (forall|j: int|
                        i < j < rows.len() ==> department_of_row(#[trigger] rows[j])->Ok_0.dept_id
                            != department_of_row(rows[i])->Ok_0.dept_id) ==> directory[department_of_row(
                        rows[i],
                    )->Ok_0.dept_id] == department_of_row(#[trigger] rows[i])->Ok_0
            },
            Err(e) => {
                &&& 1 <= e.row < rows.len()
                &&& department_of_row(rows[e.row as int]) == Err::<DepartmentView, usize>(e.column)
                &&& forall|i: int| 1 <= i < e.row ==> department_of_row(#[trigger] rows[i]) is Ok
            },
        },
    decreases rows.len(),
{
    if rows.len() > 1 {
        let shorter = rows.drop_last();
        lemma_department_table_row_by_row(shorter);
        assert forall|i: int| 1 <= i < shorter.len() implies shorter[i] == rows[i] by {}
    }
}

/// Every department of a directory stands under its own number.
pub proof fn lemma_department_stands_under_its_number(rows: Seq<Seq<CellView>>)
    requires
        department_table(rows) is Ok,
    ensures
        forall|id: i32| #[trigger]
            department_table(rows)->Ok_0.contains_key(id) ==> department_table(
                rows,
            )->Ok_0[id].dept_id == id,
    decreases rows.len(),
{
    if rows.len() > 1 {
        lemma_department_stands_under_its_number(rows.drop_last());
    }
}

/// Reads one row of the department directory.
pub fn department_from_row(row: &Vec<Cell>) -> (r: Result<Department, usize>)
    ensures
        match (r, department_of_row(cells_view(row@))) {
            (Ok(d), Ok(held)) => d@ == held,
            (Err(column), Err(failing)) => column == failing,
            _ => false,
        },
{
    match number_at(row, 0) {
        None => Err(0),
        Some(dept_id) => match text_at(row, 1) {
            None => Err(1),
            Some(title) => Ok(Department { dept_id, dept_title: title.clone() }),
        },
    }
}

/// Reads the department directory from the rows of its table, the header row
/// among them. Fails at the first row that has no number in column 0 or no
/// text in column 1.
pub fn load_department_data(rows: &Vec<Vec<Cell>>) -> (r: Result<
    HashMap<i32, Department>,
    MalformedRow,
>)
    ensures
        match (r, department_table(rows_view(rows@))) {
            (Ok(departments), Ok(held)) => departments_view(departments@) == held,
            (Err(e), Err(failure)) => e == failure,
            _ => false,
        },
{
    let mut departments: HashMap<i32, Department> = HashMap::new();
    let ghost all = rows_view(rows@);
    assert(departments_view(departments@) =~= Map::empty());
    if rows.len() <= 1 {
        return Ok(departments);
    }
    let mut i: usize = 1;
    while i < rows.len()
        invariant
            1 <= i <= rows.len(),
            all == rows_view(rows@),
            department_table(all.take(i as int)) == Ok::<Map<i32, DepartmentView>, MalformedRow>(
                departments_view(departments@),
            ),
        decreases rows.len() - i,
    {
        assert(all.take(i + 1).drop_last() =~= all.take(i as int));
        let ghost before = departments_view(departments@);
        match department_from_row(&rows[i]) {
            Ok(department) => {
                let ghost d = department@;
                departments.insert(department.dept_id, department);
                assert(departments_view(departments@) =~= before.insert(d.dept_id, d));
            },
            Err(column) => {
                proof {
                    lemma_department_failure_stays(all, i + 1);
                }
                return Err(MalformedRow { row: i, column });
            },
        }
        i += 1;
    }
    assert(all.take(rows.len() as int) =~= all);
    Ok(departments)
}

/// A table that fails within its first `k` rows fails in the same way as a
/// whole.
proof fn lemma_department_failure_stays(rows: Seq<Seq<CellView>>, k: int)
    requires
        0 <= k <= rows.len(),
        department_table(rows.take(k)) is Err,
    ensures
        department_table(rows) == department_table(rows.take(k)),
    decreases rows.len() - k,
{
    if k == rows.len() {
        assert(rows.take(k) =~= rows);
    } else {
        assert(rows.take(k + 1).drop_last() =~= rows.take(k));
        lemma_department_failure_stays(rows, k + 1);
    }
}

// ---------------------------------------------------------------------------
// Salary events

/// The salary event that a row of the credit log holds: the employee's number
/// in column 0, the text of the date in column 2 and the status in column 4.
/// A row without one of them fails at that column, the leftmost first.
pub open spec fn salary_of_row(row: Seq<CellView>) -> Result<SalaryView, usize> {
    match number_in(row, 0) {
        None => Err(0),
        Some(emp_id) => match text_in(row, 2) {
            None => Err(2),
            Some(salary_date) => match text_in(row, 4) {
                None => Err(4),
                Some(salary_status) => Ok(SalaryView { emp_id, salary_date, salary_status }),
            },
        },
    }
}

/// The salary events that the rows of a credit log hold, in the order of the
/// rows. Row 0 is the header and is not read. The first row that cannot be
/// read fails the whole table.
pub open spec fn salary_table(rows: Seq<Seq<CellView>>) -> Result<Seq<SalaryView>, MalformedRow>
    decreases rows.len(),
{
    if rows.len() <= 1 {
        Ok(Seq::empty())
    } else {
        match salary_table(rows.drop_last()) {
            Err(e) => Err(e),
            Ok(before) => match salary_of_row(rows.last()) {
                Ok(s) => Ok(before.push(s)),
                Err(column) => Err(MalformedRow { row: (rows.len() - 1) as usize, column }),
            },
        }
    }
}

/// A salary table read row by row. It is read where every row after the
/// header can be read, and then holds for each such row what the row holds,
/// in the order of the rows. Otherwise it fails at the first row that cannot
/// be read, with the column at which that row fails.
pub proof fn lemma_salary_table_row_by_row(rows: Seq<Seq<CellView>>)
    requires
        rows.len() <= usize::MAX,
    ensures
        match salary_table(rows) {
            Ok(events) => {
                &&& events.len() + 1 == rows.len() || (events.len() == 0 && rows.len() == 0)
                &&& forall|i: int|
                    1 <= i < rows.len() ==> salary_of_row(#[trigger] rows[i]) == Ok::<SalaryView, usize>(
                        events[i - 1],
                    )
            },
            Err(e) => {
                &&& 1 <= e.row < rows.len()
                &&& salary_of_row(rows[e.row as int]) == Err::<SalaryView, usize>(e.column)
                &&& forall|i: int| 1 <= i < e.row ==> salary_of_row(#[trigger] rows[i]) is Ok
            },
        },
    decreases rows.len(),
{
    if rows.len() > 1 {
        let shorter = rows.drop_last();
        lemma_salary_table_row_by_row(shorter);
        assert forall|i: int| 1 <= i < shorter.len() implies shorter[i] == rows[i] by {}
    }
}

/// A row of the credit log is read from its columns 0, 2 and 4 alone: two
/// rows that agree there hold the same event, whatever their other cells
/// hold.
pub proof fn lemma_salary_row_reads_three_columns(first: Seq<CellView>, second: Seq<CellView>)
    requires
        cell_at(first, 0) == cell_at(second, 0),
        cell_at(first, 2) == cell_at(second, 2),
        cell_at(first, 4) == cell_at(second, 4),
    ensures
        salary_of_row(first) == salary_of_row(second),
{
}

/// A table that fails within its first `k` rows fails in the same way as a
/// whole.
proof fn lemma_salary_failure_stays(rows: Seq<Seq<CellView>>, k: int)
    requires
        0 <= k <= rows.len(),
        salary_table(rows.take(k)) is Err,
    ensures
        salary_table(rows) == salary_table(rows.take(k)),
    decreases rows.len() - k,
{
    if k == rows.len() {
        assert(rows.take(k) =~= rows);
    } else {
        assert(rows.take(k + 1).drop_last() =~= rows.take(k));
        lemma_salary_failure_stays(rows, k + 1);
    }
}

/// Reads one row of the salary credit log.
pub fn salary_from_row(row: &Vec<Cell>) -> (r: Result<Salary, usize>)
    ensures
        match (r, salary_of_row(cells_view(row@))) {
            (Ok(s), Ok(held)) => s@ == held,
            (Err(column), Err(failing)) => column == failing,
            _ => false,
        },
{
    match number_at(row, 0) {
        None => Err(0),
        Some(emp_id) => match text_at(row, 2) {
            None => Err(2),
            Some(date) => match text_at(row, 4) {
                None => Err(4),
                Some(status) => Ok(
                    Salary { emp_id, salary_date: date.clone(), salary_status: status.clone() },
                ),
            },
        },
    }
}

/// Reads the salary credit log from the rows of its table, the header row
/// among them. Fails at the first row that has no number in column 0, no text
/// in column 2 or no text in column 4.
pub fn load_salary_data(rows: &Vec<Vec<Cell>>) -> (r: Result<Vec<Salary>, MalformedRow>)
    ensures
        match (r, salary_table(rows_view(rows@))) {
            (Ok(salaries), Ok(held)) => salaries_view(salaries@) == held,
            (Err(e), Err(failure)) => e == failure,
            _ => false,
        },
{
    let mut salaries: Vec<Salary> = Vec::new();
    let ghost all = rows_view(rows@);
    assert(salaries_view(salaries@) =~= Seq::empty());
    if rows.len() <= 1 {
        return Ok(salaries);
    }
    let mut i: usize = 1;
    while i < rows.len()
        invariant
            1 <= i <= rows.len(),
            all == rows_view(rows@),
            salary_table(all.take(i as int)) == Ok::<Seq<SalaryView>, MalformedRow>(
                salaries_view(salaries@),
            ),
        decreases rows.len() - i,
    {
        assert(all.take(i + 1).drop_last() =~= all.take(i as int));
        let ghost before = salaries_view(salaries@);
        match salary_from_row(&rows[i]) {
            Ok(salary) => {
                let ghost s = salary@;
                salaries.push(salary);
                assert(salaries_view(salaries@) =~= before.push(s));
            },
            Err(column) => {
                proof {
                    lemma_salary_failure_stays(all, i + 1);
                }
                return Err(MalformedRow { row: i, column });
            },
        }
        i += 1;
    }
    assert(all.take(rows.len() as int) =~= all);
    Ok(salaries)
}

// ---------------------------------------------------------------------------
// Leave events

/// The text from which a date in `column` of `row` is read: the text of the
/// cell, and the word `None` where the cell holds no text.
pub open spec fn date_text_in(row: Seq<CellView>, column: int) -> Seq<char> {
    match text_in(row, column) {
        Some(t) => t,
        None => "None"@,
    }
}

/// The leave event made of an employee's number and two dates as they were
/// read. Without a number it fails at column 0, else without a first date at
/// column 2, else without a last date at column 3.
pub open spec fn leave_of_parts(emp_id: Option<i32>, from: Option<Date>, to: Option<Date>) -> Result<
    Leave,
    usize,
> {
    match emp_id {
        None => Err(0),
        Some(emp_id) => match from {
            None => Err(2),
            Some(leave_from) => match to {
                None => Err(3),
                Some(leave_to) => Ok(Leave { emp_id, leave_from, leave_to }),
            },
        },
    }
}

/// Whether `row` lacks a text where one of its two dates has to stand.
pub open spec fn lacks_a_date(row: Seq<CellView>) -> bool {
    text_in(row, 2) is None || text_in(row, 3) is None
}

/// The leave event that a row of the leave log holds: the employee's number
/// in column 0, the first day in column 2 and the last day in column 3, each
/// date written as day, month and year.
pub open spec fn leave_of_row(row: Seq<CellView>) -> Result<Leave, usize> {
    leave_of_parts(
        number_in(row, 0),
        date_of_text(date_text_in(row, 2)),
        date_of_text(date_text_in(row, 3)),
    )
}

/// The leave events that the rows of a leave log hold, in the order of the
/// rows. Row 0 is the header and is not read. The first row that cannot be
/// read fails the whole table.
pub open spec fn leave_table(rows: Seq<Seq<CellView>>) -> Result<Seq<Leave>, MalformedRow>
    decreases rows.len(),
{
    if rows.len() <= 1 {
        Ok(Seq::empty())
    } else {
        match leave_table(rows.drop_last()) {
            Err(e) => Err(e),
            Ok(before) => match leave_of_row(rows.last()) {
                Ok(l) => Ok(before.push(l)),
                Err(column) => Err(MalformedRow { row: (rows.len() - 1) as usize, column }),
            },
        }
    }
}

/// A leave table read row by row. It is read where every row after the
/// header can be read, and then holds for each such row what the row holds,
/// in the order of the rows. Otherwise it fails at the first row that cannot
/// be read, with the column at which that row fails.
pub proof fn lemma_leave_table_row_by_row(rows: Seq<Seq<CellView>>)
    requires
        rows.len() <= usize::MAX,
    ensures
        match leave_table(rows) {
            Ok(intervals) => {
                &&& intervals.len() + 1 == rows.len() || (intervals.len() == 0 && rows.len() == 0)
                &&& forall|i: int|
                    1 <= i < rows.len() ==> leave_of_row(#[trigger] rows[i]) == Ok::<Leave, usize>(
                        intervals[i - 1],
                    )
            },
            Err(e) => {
                &&& 1 <= e.row < rows.len()
                &&& leave_of_row(rows[e.row as int]) == Err::<Leave, usize>(e.column)
                &&& forall|i: int| 1 <= i < e.row ==> leave_of_row(#[trigger] rows[i]) is Ok
            },
        },
    decreases rows.len(),
{
    if rows.len() > 1 {
        let shorter = rows.drop_last();
        lemma_leave_table_row_by_row(shorter);
        assert forall|i: int| 1 <= i < shorter.len() implies shorter[i] == rows[i] by {}
    }
}

/// A table that fails within its first `k` rows fails in the same way as a
/// whole.
proof fn lemma_leave_failure_stays(rows: Seq<Seq<CellView>>, k: int)
    requires
        0 <= k <= rows.len(),
        leave_table(rows.take(k)) is Err,
    ensures
        leave_table(rows) == leave_table(rows.take(k)),
    decreases rows.len() - k,
{
    if k == rows.len() {
        assert(rows.take(k) =~= rows);
    } else {
        assert(rows.take(k + 1).drop_last() =~= rows.take(k));
        lemma_leave_failure_stays(rows, k + 1);
    }
}

/// Makes a leave event of an employee's number and two dates as they were
/// read.
pub fn leave_from_parts(emp_id: Option<i32>, from: Option<Date>, to: Option<Date>) -> (r: Result<
    Leave,
    usize,
>)
    ensures
        r == leave_of_parts(emp_id, from, to),
{
    match emp_id {
        None => Err(0),
        Some(emp_id) => match from {
            None => Err(2),
            Some(leave_from) => match to {
                None => Err(3),
                Some(leave_to) => Ok(Leave { emp_id, leave_from, leave_to }),
            },
        },
    }
}

/// Reads the date in `column` of `row`.
fn date_at(row: &Vec<Cell>, column: usize) -> (date: Option<Date>)
    ensures
        date == date_of_text(date_text_in(cells_view(row@), column as int)),
        text_in(cells_view(row@), column as int) is None ==> date is None,
{
    match text_at(row, column) {
        Some(text) => Date::parse(text.as_str()),
        None => Date::parse("None"),
    }
}

/// Reads one row of the leave log. A row that lacks a text where one of its
/// dates has to stand is never read.
pub fn leave_from_row(row: &Vec<Cell>) -> (r: Result<Leave, usize>)
    ensures
        r == leave_of_row(cells_view(row@)),
        lacks_a_date(cells_view(row@)) ==> r is Err,
{
    let emp_id = number_at(row, 0);
    let from = date_at(row, 2);
    let to = date_at(row, 3);
    leave_from_parts(emp_id, from, to)
}

/// Reads the leave log from the rows of its table, the header row among
/// them. Fails at the first row that has no number in column 0 or no date in
/// column 2 or column 3; a table with a row after the header that lacks a
/// text where a date has to stand always fails.
pub fn load_leave_data(rows: &Vec<Vec<Cell>>) -> (r: Result<Vec<Leave>, MalformedRow>)
    ensures
        match (r, leave_table(rows_view(rows@))) {
            (Ok(leaves), Ok(held)) => leaves@ == held,
            (Err(e), Err(failure)) => e == failure,
            _ => false,
        },
        (exists|i: int| 1 <= i < rows.len() && lacks_a_date(#[trigger] rows_view(rows@)[i]))
            ==> r is Err,
{
    let mut leaves: Vec<Leave> = Vec::new();
    let ghost all = rows_view(rows@);
    if rows.len() <= 1 {
        return Ok(leaves);
    }
    let mut i: usize = 1;
    while i < rows.len()
        invariant
            1 <= i <= rows.len(),
            all == rows_view(rows@),
            leave_table(all.take(i as int)) == Ok::<Seq<Leave>, MalformedRow>(leaves@),
            forall|j: int| 1 <= j < i ==> !lacks_a_date(#[trigger] all[j]),
        decreases rows.len() - i,
    {
        assert(all.take(i + 1).drop_last() =~= all.take(i as int));
        match leave_from_row(&rows[i]) {
            Ok(leave) => {
                leaves.push(leave);
            },
            Err(column) => {
                proof {
                    lemma_leave_failure_stays(all, i + 1);
                }
                return Err(MalformedRow { row: i, column });
            },
        }
        i += 1;
    }
    assert(all.take(rows.len() as int) =~= all);
    Ok(leaves)
}

} // verus!
