//! Whether an employee's salary of the current month was credited.

use crate::decimal::{
    decimal, decimal_digits, decimal_two_places, digit_char, push_decimal, push_decimal_two_places,
};
use crate::records::{salaries_view, Salary, SalaryView};
use crate::text::{chars_of, contains, contains_fragment};
use vstd::prelude::*;

verus! {

/// The tag of a month: the month's number in at least two places, a `-` and
/// the year, as in `06-2024`.
pub open spec fn credit_tag(month: u32, year: i32) -> Seq<char> {
    decimal_two_places(month as nat) + seq!['-'] + decimal(year as int)
}

/// Whether `event` credits the salary of employee `emp_id` for the month with
/// the tag `tag`: it is that employee's, its status is the word `Credited`
/// and the text of its date holds the tag somewhere.
pub open spec fn is_credit(event: SalaryView, emp_id: i32, tag: Seq<char>) -> bool {
    &&& event.emp_id == emp_id
    &&& contains_fragment(event.salary_date, tag)
    &&& event.salary_status == "Credited"@
}

/// Whether one of `salaries` credits the salary of employee `emp_id` for the
/// given month of the given year.
pub open spec fn credited(salaries: Seq<SalaryView>, emp_id: i32, month: u32, year: i32) -> bool {
    exists|i: int|
        0 <= i < salaries.len() && is_credit(#[trigger] salaries[i], emp_id, credit_tag(month, year))
}

/// How a salary status is written.
pub open spec fn status_text(credited: bool) -> Seq<char> {
    if credited {
        "Credited"@
    } else {
        "Not Credited"@
    }
}

/// The tag of a month, as in `06-2024`.
pub fn month_tag(month: u32, year: i32) -> (tag: String)
    ensures
        tag@ == credit_tag(month, year),
{
    let mut tag = String::new();
    push_decimal_two_places(&mut tag, month);
    tag.push('-');
    push_decimal(&mut tag, year as i128);
    tag
}

/// Whether one of `salaries` credits the salary of employee `emp_id` for the
/// given month of the given year.
pub fn is_salary_credited(salaries: &Vec<Salary>, emp_id: i32, month: u32, year: i32) -> (found:
    bool)
    ensures
        found == credited(salaries_view(salaries@), emp_id, month, year),
{
    let tag = month_tag(month, year);
    let tag_chars = chars_of(tag.as_str());
    let word = "Credited".to_owned();
    let ghost events = salaries_view(salaries@);
    let mut i: usize = 0;
    while i < salaries.len()
        invariant
            i <= salaries.len(),
            events == salaries_view(salaries@),
            tag_chars@ == credit_tag(month, year),
            word@ == "Credited"@,
            forall|j: int| 0 <= j < i ==> !is_credit(#[trigger] events[j], emp_id, tag_chars@),
        decreases salaries.len() - i,
    {
        let salary = &salaries[i];
        if salary.emp_id == emp_id && salary.salary_status == word {
            let date_chars = chars_of(salary.salary_date.as_str());
            if contains(date_chars.as_slice(), tag_chars.as_slice()) {
                assert(is_credit(events[i as int], emp_id, credit_tag(month, year)));
                return true;
            }
        }
        i += 1;
    }
    false
}

/// The salary status of employee `emp_id` for the given month of the given
/// year: `Credited` where one of `salaries` credits it, `Not Credited`
/// otherwise.
pub fn get_salary_status(
    salaries: &Vec<Salary>,
    emp_id: i32,
    current_month: u32,
    current_year: i32,
) -> (status: String)
    ensures
        status@ == status_text(
            credited(salaries_view(salaries@), emp_id, current_month, current_year),
        ),
{
    if is_salary_credited(salaries, emp_id, current_month, current_year) {
        "Credited".to_owned()
    } else {
        "Not Credited".to_owned()
    }
}

/// The two ways in which a status is written differ.
pub proof fn lemma_status_texts_differ()
    ensures
        status_text(true) != status_text(false),
{
    reveal_strlit("Credited");
    reveal_strlit("Not Credited");
    assert("Credited"@.len() != "Not Credited"@.len());
}

/// Without an event that is the employee's, has the status `Credited` and
/// holds the month's tag in its date, the status is `Not Credited`.
pub proof fn lemma_without_credit_not_credited(
    salaries: Seq<SalaryView>,
    emp_id: i32,
    month: u32,
    year: i32,
)
    requires
        forall|i: int|
            0 <= i < salaries.len() ==> !is_credit(
                #[trigger] salaries[i],
                emp_id,
                credit_tag(month, year),
            ),
    ensures
        status_text(credited(salaries, emp_id, month, year)) == "Not Credited"@,
{
}

/// With one event that is the employee's, has the status `Credited` and
/// holds the month's tag in its date, the status is `Credited`, whatever
/// else the log holds and whatever else the date says.
pub proof fn lemma_with_credit_credited(
    salaries: Seq<SalaryView>,
    i: int,
    emp_id: i32,
    month: u32,
    year: i32,
)
    requires
        0 <= i < salaries.len(),
        salaries[i].emp_id == emp_id,
        salaries[i].salary_status == "Credited"@,
        contains_fragment(salaries[i].salary_date, credit_tag(month, year)),
    ensures
        status_text(credited(salaries, emp_id, month, year)) == "Credited"@,
{
}

/// The tag of one of the twelve months of a year that is not negative is
/// the month in two digits, a `-` and the digits of the year: seven
/// characters for a year of four digits.
pub proof fn lemma_tag_of_month(month: u32, year: i32)
    requires
        1 <= month <= 12,
        year >= 0,
    ensures
        credit_tag(month, year) == seq![
            digit_char(month as int / 10),
            digit_char(month as int % 10),
            '-',
        ] + decimal_digits(year as nat),
        1000 <= year <= 9999 ==> credit_tag(month, year).len() == 7,
{
    reveal_with_fuel(decimal_digits, 5);
}

} // verus!
