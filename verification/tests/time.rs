use rove::time::{time_at, RelDuration, Timestamp};

const DAY: i64 = 86_400;

#[test]
fn time_at_steps_by_seconds() {
    let period = RelDuration::minutes(5);
    assert_eq!(time_at(Timestamp(0), period, 0), Timestamp(0));
    assert_eq!(time_at(Timestamp(0), period, 1), Timestamp(300));
    assert_eq!(time_at(Timestamp(0), period, 3), Timestamp(900));
    assert_eq!(time_at(Timestamp(-600), period, 2), Timestamp(0));
}

#[test]
fn time_at_steps_by_calendar_months() {
    let monthly = RelDuration::months(1);
    // the first of the epoch's January, one and two months on
    assert_eq!(time_at(Timestamp(0), monthly, 1), Timestamp(31 * DAY));
    assert_eq!(time_at(Timestamp(0), monthly, 2), Timestamp((31 + 28) * DAY));
}

#[test]
fn time_at_normalises_short_months() {
    // the 31st of the epoch's January, one month on: the ambiguous
    // month-end moves back to the 28th of February
    let jan_31 = Timestamp(30 * DAY);
    assert_eq!(time_at(jan_31, RelDuration::months(1), 1), Timestamp(58 * DAY));
}

#[test]
fn time_at_combines_months_and_seconds() {
    let period = RelDuration { months: 1, seconds: 3600 };
    // each step advances one calendar month and one hour
    assert_eq!(time_at(Timestamp(0), period, 2), Timestamp((31 + 28) * DAY + 7200));
}
