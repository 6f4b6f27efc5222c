//! A payroll and leave report for a roster of employees.
//!
//! Four sources are joined on the employees' numbers: the roster, the
//! department directory, the salary credit log and the leave log. For each
//! employee of the roster the report says whether the salary of a given
//! month was credited and how many days of leave the employee has taken.
//!
//! [`report::generate_report`] makes the report from the four sources as they
//! were read; the other modules hold its parts.

pub mod dates;
pub mod decimal;
pub mod leave;
pub mod records;
pub mod report;
pub mod roster;
pub mod salary;
pub mod tables;
pub mod text;
