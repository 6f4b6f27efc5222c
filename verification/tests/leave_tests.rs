use payroll_report::dates::Date;
use payroll_report::leave::calculate_leave_days;
use payroll_report::records::Leave;

fn leave(emp_id: i32, from: &str, to: &str) -> Leave {
    Leave {
        emp_id,
        leave_from: Date::parse(from).unwrap(),
        leave_to: Date::parse(to).unwrap(),
    }
}

#[test]
fn three_days_from_the_first_to_the_third() {
    assert_eq!(calculate_leave_days(&vec![leave(7, "01-06-2024", "03-06-2024")], 7), 3);
}

#[test]
fn same_first_and_last_day_is_one_day() {
    assert_eq!(calculate_leave_days(&vec![leave(7, "01-06-2024", "01-06-2024")], 7), 1);
}

#[test]
fn no_leave_is_zero_days() {
    assert_eq!(calculate_leave_days(&vec![], 7), 0);
    assert_eq!(calculate_leave_days(&vec![leave(8, "01-06-2024", "03-06-2024")], 7), 0);
}

#[test]
fn intervals_add_up() {
    let leaves = vec![
        leave(7, "01-06-2024", "03-06-2024"),
        leave(8, "01-06-2024", "30-06-2024"),
        leave(7, "10-07-2024", "10-07-2024"),
        leave(7, "24-12-2023", "02-01-2024"),
    ];
    assert_eq!(calculate_leave_days(&leaves, 7), 3 + 1 + 10);
    assert_eq!(calculate_leave_days(&leaves, 8), 30);
    assert_eq!(calculate_leave_days(&leaves, 9), 0);
}

#[test]
fn overlapping_intervals_count_twice() {
    let leaves = vec![leave(7, "01-06-2024", "05-06-2024"), leave(7, "04-06-2024", "06-06-2024")];
    assert_eq!(calculate_leave_days(&leaves, 7), 5 + 3);
}

#[test]
fn an_interval_is_not_cut_at_the_end_of_a_month() {
    assert_eq!(calculate_leave_days(&vec![leave(7, "30-01-2024", "02-02-2024")], 7), 4);
    assert_eq!(calculate_leave_days(&vec![leave(7, "28-02-2024", "01-03-2024")], 7), 3);
    assert_eq!(calculate_leave_days(&vec![leave(7, "28-02-2023", "01-03-2023")], 7), 2);
    assert_eq!(calculate_leave_days(&vec![leave(7, "01-01-2024", "31-12-2024")], 7), 366);
}

#[test]
fn an_interval_that_ends_before_it_starts_counts_as_it_is() {
    assert_eq!(calculate_leave_days(&vec![leave(7, "03-06-2024", "01-06-2024")], 7), -1);
    assert_eq!(calculate_leave_days(&vec![leave(7, "02-06-2024", "01-06-2024")], 7), 0);
}

#[test]
fn the_widest_intervals_do_not_overflow() {
    let widest = Leave {
        emp_id: 7,
        leave_from: Date::from_day_number(i32::MIN),
        leave_to: Date::from_day_number(i32::MAX),
    };
    let leaves = vec![widest; 1000];
    assert_eq!(calculate_leave_days(&leaves, 7), 1000 * 4_294_967_296i128);
}
