//! The records of the four sources, and what each of them is to a contract.

use crate::dates::Date;
use vstd::prelude::*;

verus! {

/// One entry of the roster.
#[derive(Clone, Debug, PartialEq, Eq)]
pub struct Employee {
    pub emp_id: i32,
    pub emp_name: String,
    pub dept_id: i32,
    pub mobile_no: String,
    pub email: String,
}

/// An [`Employee`] with its texts as sequences of characters.
pub struct EmployeeView {
    pub emp_id: i32,
    pub emp_name: Seq<char>,
    pub dept_id: i32,
    pub mobile_no: Seq<char>,
    pub email: Seq<char>,
}

impl View for Employee {
    type V = EmployeeView;

    open spec fn view(&self) -> EmployeeView {
        EmployeeView {
            emp_id: self.emp_id,
            emp_name: self.emp_name@,
            dept_id: self.dept_id,
            mobile_no: self.mobile_no@,
            email: self.email@,
        }
    }
}

/// One entry of the department directory.
#[derive(Clone, Debug, PartialEq, Eq)]
pub struct Department {
    pub dept_id: i32,
    pub dept_title: String,
}

/// A [`Department`] with its title as a sequence of characters.
pub struct DepartmentView {
    pub dept_id: i32,
    pub dept_title: Seq<char>,
}

impl View for Department {
    type V = DepartmentView;

    open spec fn view(&self) -> DepartmentView {
        DepartmentView { dept_id: self.dept_id, dept_title: self.dept_title@ }
    }
}

/// One entry of the salary credit log.
#[derive(Clone, Debug, PartialEq, Eq)]
pub struct Salary {
    pub emp_id: i32,
    pub salary_date: String,
    pub salary_status: String,
}

/// A [`Salary`] with its texts as sequences of characters.
pub struct SalaryView {
    pub emp_id: i32,
    pub salary_date: Seq<char>,
    pub salary_status: Seq<char>,
}

impl View for Salary {
    type V = SalaryView;

    open spec fn view(&self) -> SalaryView {
        SalaryView {
            emp_id: self.emp_id,
            salary_date: self.salary_date@,
            salary_status: self.salary_status@,
        }
    }
}

/// One entry of the leave log: the days from `leave_from` to `leave_to`, both
/// of them counted.
#[derive(Clone, Copy, Debug, PartialEq, Eq, Structural)]
pub struct Leave {
    pub emp_id: i32,
    pub leave_from: Date,
    pub leave_to: Date,
}

impl Leave {
    /// Whether the last day of the interval is its first day or a later one.
    pub open spec fn ends_no_earlier_than_it_starts(self) -> bool {
        self.leave_from.day_number <= self.leave_to.day_number
    }
}

/// What the entries of a roster are to a contract, in the same order.
pub open spec fn employees_view(employees: Seq<Employee>) -> Seq<EmployeeView> {
    Seq::new(employees.len(), |i: int| employees[i]@)
}

/// What the entries of a salary log are to a contract, in the same order.
pub open spec fn salaries_view(salaries: Seq<Salary>) -> Seq<SalaryView> {
    Seq::new(salaries.len(), |i: int| salaries[i]@)
}

/// What the entries of a department directory are to a contract, under the
/// same keys.
pub open spec fn departments_view(departments: Map<i32, Department>) -> Map<i32, DepartmentView> {
    Map::new(|id: i32| departments.contains_key(id), |id: i32| departments[id]@)
}

} // verus!
