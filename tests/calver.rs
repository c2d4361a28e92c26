use git_calver::calver::parse;
use git_calver::calver::CalDate;
use git_calver::calver::CalVer;
use git_calver::calver::ToCalVer;

fn ver(year: u16, month: u8, revision: i8) -> CalVer {
    CalVer { year, month, revision }
}

#[test]
fn string_to_calver() {
    assert_eq!(String::from("20.2.1").calver().unwrap(), ver(2020, 2, 1));
    assert_eq!(String::from("2020.2.1").calver().unwrap(), ver(2020, 2, 1));
    assert_eq!(String::from("v0.1").calver(), None);
}

#[test]
fn next_version_at() {
    let v = String::from("20.2.1").calver().unwrap();
    // same month
    assert_eq!(v.next_version_at(CalDate { year: 2020, month: 2 }), ver(2020, 2, 2));
    // next month
    assert_eq!(v.next_version_at(CalDate { year: 2020, month: 3 }), ver(2020, 3, 0));
    // next year
    assert_eq!(v.next_version_at(CalDate { year: 2021, month: 2 }), ver(2021, 2, 0));
}

#[test]
fn round_trip_two_digit_years() {
    for year in [2000u16, 2024, 2099] {
        for month in [1u8, 12, 255] {
            for revision in [-128i8, -1, 0, 7, 127] {
                let v = ver(year, month, revision);
                assert_eq!(parse(&v.to_string()), Some(v));
            }
        }
    }
}

#[test]
fn four_digit_year_does_not_round_trip() {
    let v = parse("2150.3.4").unwrap();
    assert_eq!(v, ver(2150, 3, 4));
    assert_eq!(v.to_string(), "50.3.4");
    assert_eq!(parse(&v.to_string()), Some(ver(2050, 3, 4)));
}

#[test]
fn text_form() {
    assert_eq!(ver(2024, 3, 0).to_string(), "24.3.0");
    assert_eq!(ver(2005, 11, 12).to_string(), "5.11.12");
    assert_eq!(ver(2020, 2, -3).to_string(), "20.2.-3");
    assert_eq!(CalVer::zero().to_string(), "0.0.0");
}

#[test]
fn parse_rejects_malformed_text() {
    assert_eq!(parse(""), None);
    assert_eq!(parse("20"), None);
    assert_eq!(parse("20.2"), None);
    assert_eq!(parse("20.2."), None);
    assert_eq!(parse(".2.1"), None);
    assert_eq!(parse("20.x.1"), None);
    assert_eq!(parse("20.2.1.5"), None);
    assert_eq!(parse("20.256.1"), None);
    assert_eq!(parse("20.2.128"), None);
    assert_eq!(parse("65536.2.1"), None);
    assert_eq!(parse("-20.2.1"), None);
    assert_eq!(parse("20.-2.1"), None);
    assert_eq!(parse("20.2.-"), None);
    assert_eq!(parse("20.2.+"), None);
}

#[test]
fn parse_accepts_signs_and_large_years() {
    assert_eq!(parse("+20.+2.+1"), Some(ver(2020, 2, 1)));
    assert_eq!(parse("20.2.-128"), Some(ver(2020, 2, -128)));
    assert_eq!(parse("20.2.-0"), Some(ver(2020, 2, 0)));
    assert_eq!(parse("99.12.127"), Some(ver(2099, 12, 127)));
    assert_eq!(parse("100.1.0"), Some(ver(100, 1, 0)));
    assert_eq!(parse("65535.0.0"), Some(ver(65535, 0, 0)));
    assert_eq!(parse("007.01.002"), Some(ver(2007, 1, 2)));
}

#[test]
fn order_is_lexicographic() {
    let a = ver(2020, 2, 1);
    let b = ver(2020, 2, 2);
    let c = ver(2020, 3, 0);
    let d = ver(2021, 1, 0);
    assert!(b.newer_than(&a) && c.newer_than(&b) && d.newer_than(&c));
    assert!(c.newer_than(&a) && d.newer_than(&a));
    assert!(!a.newer_than(&a));
    assert!(!a.newer_than(&b));
    assert!(a < b && b < c && c < d);
}

#[test]
fn zero_is_least() {
    let z = CalVer::zero();
    assert_eq!(z, ver(0, 0, 0));
    for v in [ver(0, 0, 1), ver(0, 1, 0), ver(1, 0, 0), ver(2020, 2, 1)] {
        assert!(v.newer_than(&z));
        assert!(!z.newer_than(&v));
    }
}

#[test]
fn next_version_from_zero_and_negative_revisions() {
    let date = CalDate { year: 2024, month: 3 };
    assert_eq!(CalVer::zero().next_version_at(date), ver(2024, 3, 0));
    assert_eq!(ver(2024, 3, -5).next_version_at(date), ver(2024, 3, 0));
    assert_eq!(ver(2024, 3, 126).next_version_at(date), ver(2024, 3, 127));
    assert_eq!(ver(2023, 3, 4).next_version_at(CalDate { year: 2123, month: 5 }), ver(2023, 5, 0));
}

#[test]
fn next_version_in_refuses_without_successor() {
    let date = CalDate { year: 2024, month: 3 };
    assert_eq!(ver(2024, 3, 127).next_version_in(date), None);
    assert_eq!(ver(2024, 4, 0).next_version_in(date), None);
    assert_eq!(ver(2024, 3, 1).next_version_in(CalDate { year: 2024, month: 13 }), None);
    assert_eq!(ver(2024, 3, 1).next_version_in(CalDate { year: -1, month: 3 }), None);
    assert_eq!(ver(2123, 3, 4).next_version_in(CalDate { year: 2123, month: 5 }), None);
    assert_eq!(ver(2024, 3, 1).next_version_in(date), Some(ver(2024, 3, 2)));
}

#[test]
fn clock_based_versions() {
    let v = CalVer::new(5);
    assert_eq!(v.revision, 5);
    assert!(1 <= v.month && v.month <= 12);
    let next = CalVer::zero().next_version().unwrap();
    assert_eq!(next.revision, 0);
    assert!(next.newer_than(&CalVer::zero()));
}
