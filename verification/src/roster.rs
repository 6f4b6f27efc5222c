//! The roster: one line of text for each employee, after a header line.

use crate::decimal::{parse_i32, parsed_i32};
use crate::records::{employees_view, Employee, EmployeeView};
use crate::text::{chars_of, split_fields, split_on, string_of, texts_view};
use vstd::prelude::*;

verus! {

/// The entry that a line of the roster holds: five fields with `|` between
/// them, which are the employee's number, the name, the department's number,
/// the mobile number and the e-mail address. A line with fewer or more
/// fields holds no entry, nor does one whose first or third field is no
/// 32-bit integer.
pub open spec fn employee_of_line(line: Seq<char>) -> Option<EmployeeView> {
    let fields = split_fields(line, '|');
    if fields.len() != 5 {
        None
    } else {
        match parsed_i32(fields[0]) {
            None => None,
            Some(emp_id) => match parsed_i32(fields[2]) {
                None => None,
                Some(dept_id) => Some(
                    EmployeeView {
                        emp_id,
                        emp_name: fields[1],
                        dept_id,
                        mobile_no: fields[3],
                        email: fields[4],
                    },
                ),
            },
        }
    }
}

/// The entries that the lines of a roster hold, in the order of the lines.
/// Line 0 is the header and is not read; a line that holds no entry is left
/// out.
pub open spec fn roster_of_lines(lines: Seq<Seq<char>>) -> Seq<EmployeeView>
    decreases lines.len(),
{
    if lines.len() <= 1 {
        Seq::empty()
    } else {
        let before = roster_of_lines(lines.drop_last());
        match employee_of_line(lines.last()) {
            Some(e) => before.push(e),
            None => before,
        }
    }
}

/// Reads one line of the roster.
pub fn parse_employee_line(line: &str) -> (r: Option<Employee>)
    ensures
        match (r, employee_of_line(line@)) {
            (Some(e), Some(held)) => e@ == held,
            (None, None) => true,
            _ => false,
        },
{
    let chars = chars_of(line);
    let fields = split_on(chars.as_slice(), '|');
    if fields.len() != 5 {
        return None;
    }
    let emp_id = match parse_i32(fields[0].as_slice()) {
        Some(n) => n,
        None => {
            return None;
        },
    };
    let dept_id = match parse_i32(fields[2].as_slice()) {
        Some(n) => n,
        None => {
            return None;
        },
    };
    Some(
        Employee {
            emp_id,
            emp_name: string_of(fields[1].as_slice()),
            dept_id,
            mobile_no: string_of(fields[3].as_slice()),
            email: string_of(fields[4].as_slice()),
        },
    )
}

/// Reads the roster from the lines of its source, the header line among
/// them. The entries come in the order of their lines; a line that holds no
/// entry is passed over.
pub fn load_employee_data(lines: &Vec<String>) -> (employees: Vec<Employee>)
    ensures
        employees_view(employees@) == roster_of_lines(texts_view(lines@)),
{
    let mut employees: Vec<Employee> = Vec::new();
    let ghost all = texts_view(lines@);
    if lines.len() <= 1 {
        return employees;
    }
    let mut i: usize = 1;
    while i < lines.len()
        invariant
            1 <= i <= lines.len(),
            all == texts_view(lines@),
            employees_view(employees@) == roster_of_lines(all.take(i as int)),
        decreases lines.len() - i,
    {
        assert(all.take(i + 1).drop_last() =~= all.take(i as int));
        match parse_employee_line(lines[i].as_str()) {
            Some(employee) => {
                employees.push(employee);
            },
            None => {},
        }
        i += 1;
    }
    assert(all.take(lines.len() as int) =~= all);
    employees
}

/// The line from which entry `k` of the roster was read.
pub open spec fn line_of_entry(lines: Seq<Seq<char>>, k: int) -> int
    decreases lines.len(),
{
    if lines.len() <= 1 {
        0
    } else if employee_of_line(lines.last()) is Some && k == roster_of_lines(
        lines.drop_last(),
    ).len() {
        lines.len() - 1
    } else {
        line_of_entry(lines.drop_last(), k)
    }
}

/// The roster holds one entry for each line after the header that holds one,
/// and in the order of those lines: each entry was read from a line of its
/// own after the header, a later entry from a later line, and no line that
/// holds an entry was passed over.
pub proof fn lemma_roster_follows_lines(lines: Seq<Seq<char>>)
    ensures
        forall|k: int|
            0 <= k < roster_of_lines(lines).len() ==> {
                &&& 1 <= #[trigger] line_of_entry(lines, k) < lines.len()
                &&& employee_of_line(lines[line_of_entry(lines, k)]) == Some(
                    roster_of_lines(lines)[k],
                )
            },
        forall|j: int, k: int|
            0 <= j < k < roster_of_lines(lines).len() ==> #[trigger] line_of_entry(lines, j)
                < #[trigger] line_of_entry(lines, k),
        forall|i: int|
            1 <= i < lines.len() && employee_of_line(#[trigger] lines[i]) is Some ==> exists|k: int|
                0 <= k < roster_of_lines(lines).len() && line_of_entry(lines, k) == i,
    decreases lines.len(),
{
    if lines.len() > 1 {
        let shorter = lines.drop_last();
        let before = roster_of_lines(shorter);
        let roster = roster_of_lines(lines);
        let last = lines.len() - 1;
        lemma_roster_follows_lines(shorter);
        assert forall|k: int| 0 <= k < roster.len() implies {
            &&& 1 <= #[trigger] line_of_entry(lines, k) < lines.len()
            &&& employee_of_line(lines[line_of_entry(lines, k)]) == Some(roster[k])
        } by {
            if k < before.len() {
                assert(shorter[line_of_entry(shorter, k)] == lines[line_of_entry(shorter, k)]);
            }
        }
        assert forall|j: int, k: int| 0 <= j < k < roster.len() implies #[trigger] line_of_entry(
            lines,
            j,
        ) < #[trigger] line_of_entry(lines, k) by {
            assert(line_of_entry(lines, j) == line_of_entry(shorter, j));
            if k < before.len() {
                assert(line_of_entry(lines, k) == line_of_entry(shorter, k));
            }
        }
        assert forall|i: int|
            1 <= i < lines.len() && employee_of_line(#[trigger] lines[i]) is Some implies exists|
            k: int,
        | 0 <= k < roster.len() && line_of_entry(lines, k) == i by {
            if i == last {
                assert(line_of_entry(lines, before.len() as int) == i);
            } else {
                assert(shorter[i] == lines[i]);
                let k = choose|k: int| 0 <= k < before.len() && line_of_entry(shorter, k) == i;
                assert(line_of_entry(lines, k) == i);
            }
        }
    }
}

} // verus!
